//! Snapshot, parser and delta reduction for the Linux-like counter
//! source.
//!
//! The source is the aggregate line of the kernel statistics text: the
//! literal token `cpu` followed by at least ten whitespace-separated
//! unsigned decimal counters, all in kernel clock ticks, cumulative
//! since boot.  [`parse_proc_stat`] turns that text into a [`State`];
//! [`reduce`] turns two states into the per-state elapsed amounts of the
//! interval between them.

use vstd::prelude::*;

use crate::errors::ReduceError;
use crate::errors::SourceError;
use crate::text::all_digits;
use crate::text::dec_value;
use crate::text::first_line;
use crate::text::is_space;
use crate::text::lemma_tokens_head;
use crate::text::lemma_tokens_skip_spaces;
use crate::text::line_len;
use crate::text::find_line_end;
use crate::text::parse_u64_token;
use crate::text::skip_spaces;
use crate::text::token_end;
use crate::text::tokens;

verus! {

/// One reading of the ten cumulative per-state tick counters of the
/// aggregate statistics line, in the order the line gives them.
#[derive(Clone, Copy, Debug, PartialEq, Eq, Structural)]
pub struct State {
    pub user: u64,
    pub nice: u64,
    pub system: u64,
    pub idle: u64,
    pub iowait: u64,
    pub irq: u64,
    pub softirq: u64,
    pub steal: u64,
    pub guest: u64,
    pub guest_nice: u64,
}

/// The bytes of the literal token that opens the aggregate line.
pub open spec fn cpu_token() -> Seq<u8> {
    seq![99u8, 112u8, 117u8]
}

/// The tokens of the first line of the source text.
pub open spec fn line_tokens(s: Seq<u8>) -> Seq<Seq<u8>> {
    tokens(first_line(s))
}

/// Whether the source text is well-formed: its first line opens with the
/// bare token `cpu` and continues with at least ten decimal counters,
/// each within 64 bits.  Tokens beyond the tenth counter are ignored.
pub open spec fn good_line(s: Seq<u8>) -> bool {
    let toks = line_tokens(s);
    &&& toks.len() >= 11
    &&& toks[0] == cpu_token()
    &&& forall|k: int|
        1 <= k < 11 ==> all_digits(#[trigger] toks[k]) && dec_value(toks[k]) <= u64::MAX
}

/// The value of the `k`-th counter token of the first line.
pub open spec fn field(s: Seq<u8>, k: int) -> nat {
    dec_value(line_tokens(s)[k])
}

/// Parses the counter source text into a snapshot.
///
/// Succeeds exactly on well-formed text, and then returns the ten
/// counters of the aggregate line in order; malformed text never yields
/// a partial snapshot.
pub fn parse_proc_stat(v: &Vec<u8>) -> (r: Result<State, SourceError>)
    ensures
        match r {
            Ok(st) => good_line(v@) && st.user == field(v@, 1) && st.nice == field(v@, 2)
                && st.system == field(v@, 3) && st.idle == field(v@, 4) && st.iowait == field(
                v@,
                5,
            ) && st.irq == field(v@, 6) && st.softirq == field(v@, 7) && st.steal == field(v@, 8)
                && st.guest == field(v@, 9) && st.guest_nice == field(v@, 10),
            Err(e) => e == SourceError::MalformedData && !good_line(v@),
        },
{
    let n = find_line_end(v);
    let ghost line = v@.subrange(0, n as int);
    let ghost toks = tokens(line);
    proof {
        assert(first_line(v@) == line);
        assert(line.len() == n);
        assert(forall|k: int| 0 <= k < n ==> line[k] == v@[k]);
    }
    // The opening token must be the bare word `cpu`.
    let p = skip_spaces(v, n, 0);
    proof {
        lemma_tokens_skip_spaces(line, 0, p as int);
        assert(line.subrange(0, n as int) =~= line);
    }
    if p == n {
        proof {
            assert(line.subrange(n as int, n as int) =~= Seq::<u8>::empty());
            assert(toks.len() == 0);
        }
        return Err(SourceError::MalformedData);
    }
    let q = token_end(v, n, p);
    proof {
        lemma_tokens_head(line, p as int, q as int);
        assert(toks == seq![line.subrange(p as int, q as int)] + tokens(
            line.subrange(q as int, n as int),
        ));
        assert(toks[0] == line.subrange(p as int, q as int));
        assert(line.subrange(p as int, q as int) =~= v@.subrange(p as int, q as int));
    }
    if !(q - p == 3 && v[p] == 99 && v[p + 1] == 112 && v[p + 2] == 117) {
        proof {
            assert(toks[0].len() == q - p);
            assert(forall|m: int| 0 <= m < q - p ==> toks[0][m] == v@[p + m]);
            assert(toks[0] != cpu_token());
        }
        return Err(SourceError::MalformedData);
    }
    proof {
        assert(toks[0] =~= cpu_token());
        assert(toks.subrange(1, toks.len() as int) =~= tokens(line.subrange(q as int, n as int)));
    }
    // Ten decimal counters follow.
    let mut vals: Vec<u64> = Vec::new();
    let mut pos = q;
    let mut count: usize = 0;
    while count < 10
        invariant
            count <= 10,
            pos <= n,
            n <= v@.len(),
            n == line.len(),
            n == line_len(v@),
            line == v@.subrange(0, n as int),
            toks == tokens(line),
            toks.len() >= 1 + count,
            toks[0] == cpu_token(),
            vals@.len() == count,
            forall|k: int|
                1 <= k < 1 + count ==> all_digits(#[trigger] toks[k]) && dec_value(toks[k])
                    <= u64::MAX && vals@[k - 1] == dec_value(toks[k]),
            tokens(line.subrange(pos as int, n as int)) == toks.subrange(
                1 + count as int,
                toks.len() as int,
            ),
        decreases 10 - count,
    {
        let p2 = skip_spaces(v, n, pos);
        proof {
            assert(forall|k: int| pos <= k < p2 ==> is_space(line[k]));
            lemma_tokens_skip_spaces(line, pos as int, p2 as int);
        }
        if p2 == n {
            proof {
                assert(line.subrange(n as int, n as int) =~= Seq::<u8>::empty());
                assert(toks.subrange(1 + count as int, toks.len() as int).len() == 0);
                assert(toks.len() == 1 + count);
                assert(toks.len() < 11);
            }
            return Err(SourceError::MalformedData);
        }
        let q2 = token_end(v, n, p2);
        proof {
            assert(forall|k: int| p2 <= k < q2 ==> !is_space(line[k]));
            assert(q2 == n || is_space(line[q2 as int]));
            lemma_tokens_head(line, p2 as int, q2 as int);
            assert(tokens(line.subrange(pos as int, n as int)) == seq![
                line.subrange(p2 as int, q2 as int),
            ] + tokens(line.subrange(q2 as int, n as int)));
            assert(toks.subrange(1 + count as int, toks.len() as int).len() >= 1);
            assert(toks.len() >= 2 + count);
            assert(toks.subrange(1 + count as int, toks.len() as int)[0] == toks[1 + count]);
            assert(toks[1 + count] == line.subrange(p2 as int, q2 as int));
            assert(line.subrange(p2 as int, q2 as int) =~= v@.subrange(p2 as int, q2 as int));
            assert(toks.subrange(1 + count as int, toks.len() as int).subrange(
                1,
                (toks.len() - 1 - count) as int,
            ) =~= toks.subrange(2 + count as int, toks.len() as int));
            assert(tokens(line.subrange(q2 as int, n as int)) == toks.subrange(
                2 + count as int,
                toks.len() as int,
            ));
        }
        let parsed = parse_u64_token(v, p2, q2);
        if parsed.is_none() {
            proof {
                assert(toks[1 + count] == v@.subrange(p2 as int, q2 as int));
                assert(!(all_digits(toks[1 + count]) && dec_value(toks[1 + count]) <= u64::MAX));
            }
            return Err(SourceError::MalformedData);
        }
        let x = parsed.unwrap();
        proof {
            assert(all_digits(toks[1 + count]) && dec_value(toks[1 + count]) <= u64::MAX && x
                == dec_value(toks[1 + count]));
        }
        let ghost old_vals = vals@;
        vals.push(x);
        proof {
            assert forall|k: int|
                1 <= k < 2 + count implies all_digits(#[trigger] toks[k]) && dec_value(toks[k])
                <= u64::MAX && vals@[k - 1] == dec_value(toks[k]) by {
                if k < 1 + count {
                    assert(all_digits(toks[k]) && dec_value(toks[k]) <= u64::MAX && old_vals[k - 1]
                        == dec_value(toks[k]));
                    assert(vals@[k - 1] == old_vals[k - 1]);
                } else {
                    assert(toks[k] == toks[1 + count]);
                    assert(vals@[k - 1] == x);
                }
            }
        }
        pos = q2;
        count = count + 1;
    }
    proof {
        assert(toks.len() >= 11);
        assert(good_line(v@));
    }
    Ok(
        State {
            user: vals[0],
            nice: vals[1],
            system: vals[2],
            idle: vals[3],
            iowait: vals[4],
            irq: vals[5],
            softirq: vals[6],
            steal: vals[7],
            guest: vals[8],
            guest_nice: vals[9],
        },
    )
}

/// Whether no cumulative counter decreased from `prev` to `next`.
pub open spec fn no_regression(prev: State, next: State) -> bool {
    &&& prev.user <= next.user
    &&& prev.nice <= next.nice
    &&& prev.system <= next.system
    &&& prev.idle <= next.idle
    &&& prev.iowait <= next.iowait
    &&& prev.irq <= next.irq
    &&& prev.softirq <= next.softirq
    &&& prev.steal <= next.steal
    &&& prev.guest <= next.guest
    &&& prev.guest_nice <= next.guest_nice
}

/// The ticks elapsed over all ten states from `prev` to `next`.
pub open spec fn spec_total(prev: State, next: State) -> int {
    (next.user - prev.user) + (next.nice - prev.nice) + (next.system - prev.system) + (next.idle
        - prev.idle) + (next.iowait - prev.iowait) + (next.irq - prev.irq) + (next.softirq
        - prev.softirq) + (next.steal - prev.steal) + (next.guest - prev.guest) + (next.guest_nice
        - prev.guest_nice)
}

/// The per-state elapsed ticks of one interval, and their sum.  The idle
/// fraction of the interval is `idle / total`; the share of any other
/// state is its delta over `total`.  This record is also the structured
/// diagnostic the caller may trace instead of the bare ratio.
#[derive(Clone, Copy, Debug, PartialEq, Eq, Structural)]
pub struct Delta {
    pub user: u64,
    pub nice: u64,
    pub system: u64,
    pub idle: u64,
    pub iowait: u64,
    pub irq: u64,
    pub softirq: u64,
    pub steal: u64,
    pub guest: u64,
    pub guest_nice: u64,
    pub total: u128,
}

/// What reducing two snapshots yields: a regression error if any counter
/// decreased, a degenerate-interval error if no time elapsed at all, and
/// otherwise the exact per-state deltas with their sum.
pub open spec fn spec_reduce(prev: State, next: State) -> Result<Delta, ReduceError> {
    if !no_regression(prev, next) {
        Err(ReduceError::CounterRegression)
    } else if spec_total(prev, next) == 0 {
        Err(ReduceError::DegenerateInterval)
    } else {
        Ok(
            Delta {
                user: (next.user - prev.user) as u64,
                nice: (next.nice - prev.nice) as u64,
                system: (next.system - prev.system) as u64,
                idle: (next.idle - prev.idle) as u64,
                iowait: (next.iowait - prev.iowait) as u64,
                irq: (next.irq - prev.irq) as u64,
                softirq: (next.softirq - prev.softirq) as u64,
                steal: (next.steal - prev.steal) as u64,
                guest: (next.guest - prev.guest) as u64,
                guest_nice: (next.guest_nice - prev.guest_nice) as u64,
                total: spec_total(prev, next) as u128,
            },
        )
    }
}

/// Reduces an (older, newer) pair of snapshots to the elapsed amounts of
/// the interval between them.
pub fn reduce(prev: &State, next: &State) -> (r: Result<Delta, ReduceError>)
    ensures
        r == spec_reduce(*prev, *next),
{
    if next.user < prev.user || next.nice < prev.nice || next.system < prev.system || next.idle
        < prev.idle || next.iowait < prev.iowait || next.irq < prev.irq || next.softirq
        < prev.softirq || next.steal < prev.steal || next.guest < prev.guest || next.guest_nice
        < prev.guest_nice {
        return Err(ReduceError::CounterRegression);
    }
    let user = next.user - prev.user;
    let nice = next.nice - prev.nice;
    let system = next.system - prev.system;
    let idle = next.idle - prev.idle;
    let iowait = next.iowait - prev.iowait;
    let irq = next.irq - prev.irq;
    let softirq = next.softirq - prev.softirq;
    let steal = next.steal - prev.steal;
    let guest = next.guest - prev.guest;
    let guest_nice = next.guest_nice - prev.guest_nice;
    let total: u128 = user as u128 + nice as u128 + system as u128 + idle as u128 + iowait as u128
        + irq as u128 + softirq as u128 + steal as u128 + guest as u128 + guest_nice as u128;
    if total == 0 {
        return Err(ReduceError::DegenerateInterval);
    }
    Ok(
        Delta {
            user,
            nice,
            system,
            idle,
            iowait,
            irq,
            softirq,
            steal,
            guest,
            guest_nice,
            total,
        },
    )
}

/// For any interval in which no counter regressed and some time elapsed,
/// the reduction succeeds, the idle share is at most the whole, and the
/// per-state deltas partition the total exactly: every state fraction
/// lies in [0, 1] and the fractions sum to one.
pub proof fn lemma_fraction_bounds(prev: State, next: State)
    requires
        no_regression(prev, next),
        spec_total(prev, next) > 0,
    ensures
        spec_reduce(prev, next) is Ok,
        spec_reduce(prev, next)->Ok_0.idle <= spec_reduce(prev, next)->Ok_0.total,
        spec_reduce(prev, next)->Ok_0.user + spec_reduce(prev, next)->Ok_0.nice + spec_reduce(
            prev,
            next,
        )->Ok_0.system + spec_reduce(prev, next)->Ok_0.idle + spec_reduce(prev, next)->Ok_0.iowait
            + spec_reduce(prev, next)->Ok_0.irq + spec_reduce(prev, next)->Ok_0.softirq
            + spec_reduce(prev, next)->Ok_0.steal + spec_reduce(prev, next)->Ok_0.guest
            + spec_reduce(prev, next)->Ok_0.guest_nice == spec_reduce(prev, next)->Ok_0.total,
{
}

/// Reducing a snapshot against itself is a zero-length interval: every
/// delta is zero, and the cycle is reported as holding no data rather
/// than dividing by zero.
pub proof fn lemma_zero_interval(s: State)
    ensures
        spec_reduce(s, s) == Err::<Delta, ReduceError>(ReduceError::DegenerateInterval),
{
}

/// If any cumulative counter decreased between the two snapshots, the
/// cycle is classified as a counter regression, never as a valid
/// non-negative delta.
pub proof fn lemma_counter_regression(prev: State, next: State)
    requires
        next.user < prev.user || next.nice < prev.nice || next.system < prev.system || next.idle
            < prev.idle || next.iowait < prev.iowait || next.irq < prev.irq || next.softirq
            < prev.softirq || next.steal < prev.steal || next.guest < prev.guest
            || next.guest_nice < prev.guest_nice,
    ensures
        spec_reduce(prev, next) == Err::<Delta, ReduceError>(ReduceError::CounterRegression),
{
}

/// An all-idle interval — the idle counter advanced, every other counter
/// stood still — reduces to an idle share equal to the whole interval:
/// the idle fraction is exactly one.
pub proof fn lemma_all_idle(prev: State, next: State)
    requires
        next.idle > prev.idle,
        next.user == prev.user,
        next.nice == prev.nice,
        next.system == prev.system,
        next.iowait == prev.iowait,
        next.irq == prev.irq,
        next.softirq == prev.softirq,
        next.steal == prev.steal,
        next.guest == prev.guest,
        next.guest_nice == prev.guest_nice,
    ensures
        spec_reduce(prev, next) is Ok,
        spec_reduce(prev, next)->Ok_0.idle as int == spec_reduce(prev, next)->Ok_0.total as int,
{
}

} // verus!

