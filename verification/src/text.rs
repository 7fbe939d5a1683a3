//! A byte-level model of the counter text format: the first line of the
//! source text, its whitespace-separated tokens, and the value of a
//! decimal token.  The executable scanners here are the building blocks
//! of the Linux-like parser and are proved against the model.

use vstd::prelude::*;

verus! {

/// Whether `c` separates tokens within a line: space, tab or carriage
/// return.
pub open spec fn is_space(c: u8) -> bool {
    c == 32 || c == 9 || c == 13
}

/// Whether `c` is an ASCII decimal digit.
pub open spec fn is_digit(c: u8) -> bool {
    48 <= c && c <= 57
}

/// Whether `s` is a non-empty run of decimal digits.
pub open spec fn all_digits(s: Seq<u8>) -> bool {
    s.len() > 0 && forall|i: int| 0 <= i < s.len() ==> is_digit(s[i])
}

/// The value of `s` read as a decimal numeral, most significant digit
/// first.  Meaningful only when `all_digits(s)` holds.
pub open spec fn dec_value(s: Seq<u8>) -> nat
    decreases s.len(),
{
    if s.len() == 0 {
        0
    } else {
        dec_value(s.drop_last()) * 10 + (if is_digit(s.last()) {
            (s.last() - 48) as nat
        } else {
            0
        })
    }
}

/// The number of bytes before the first newline of `s` (all of `s` if it
/// has none): the extent of the first line.
pub open spec fn line_len(s: Seq<u8>) -> nat
    decreases s.len(),
{
    if s.len() == 0 || s[0] == 10 {
        0
    } else {
        1 + line_len(s.subrange(1, s.len() as int))
    }
}

/// The first line of `s`: everything before its first newline.
pub open spec fn first_line(s: Seq<u8>) -> Seq<u8> {
    s.subrange(0, line_len(s) as int)
}

/// A position `j` with no newline before it and a newline (or the end)
/// at it is exactly the extent of the first line.
proof fn lemma_line_len_at(s: Seq<u8>, j: int)
    requires
        0 <= j <= s.len(),
        forall|m: int| 0 <= m < j ==> s[m] != 10,
        j == s.len() || s[j] == 10,
    ensures
        line_len(s) == j,
    decreases j,
{
    if j == 0 {
    } else {
        let s1 = s.subrange(1, s.len() as int);
        assert(forall|m: int| 0 <= m < j - 1 ==> s1[m] == s[m + 1]);
        lemma_line_len_at(s1, j - 1);
    }
}

/// The number of bytes in the token at the head of `s`: the longest
/// prefix free of separator bytes.
pub open spec fn token_len(s: Seq<u8>) -> nat
    decreases s.len(),
{
    if s.len() == 0 || is_space(s[0]) {
        0
    } else {
        1 + token_len(s.subrange(1, s.len() as int))
    }
}

proof fn lemma_token_len_le(s: Seq<u8>)
    ensures
        token_len(s) <= s.len(),
    decreases s.len(),
{
    if s.len() == 0 || is_space(s[0]) {
    } else {
        lemma_token_len_le(s.subrange(1, s.len() as int));
    }
}

proof fn lemma_token_len_at(s: Seq<u8>, j: int)
    requires
        0 <= j <= s.len(),
        forall|m: int| 0 <= m < j ==> !is_space(s[m]),
        j == s.len() || is_space(s[j]),
    ensures
        token_len(s) == j,
    decreases j,
{
    if j == 0 {
    } else {
        let s1 = s.subrange(1, s.len() as int);
        assert(forall|m: int| 0 <= m < j - 1 ==> s1[m] == s[m + 1]);
        lemma_token_len_at(s1, j - 1);
    }
}

/// The whitespace-separated tokens of `s`, in order of appearance.
pub open spec fn tokens(s: Seq<u8>) -> Seq<Seq<u8>>
    decreases s.len(),
    via tokens_decreases
{
    if s.len() == 0 {
        Seq::empty()
    } else if is_space(s[0]) {
        tokens(s.subrange(1, s.len() as int))
    } else {
        seq![s.subrange(0, token_len(s) as int)] + tokens(
            s.subrange(token_len(s) as int, s.len() as int),
        )
    }
}

#[via_fn]
proof fn tokens_decreases(s: Seq<u8>) {
    if s.len() != 0 && !is_space(s[0]) {
        lemma_token_len_le(s);
        assert(token_len(s) >= 1);
    }
}

/// Separator bytes before position `j` do not contribute tokens: the
/// tokens of the tail starting at `i` equal those of the tail starting
/// at `j`.
pub(crate) proof fn lemma_tokens_skip_spaces(s: Seq<u8>, i: int, j: int)
    requires
        0 <= i <= j <= s.len(),
        forall|m: int| i <= m < j ==> is_space(s[m]),
    ensures
        tokens(s.subrange(i, s.len() as int)) == tokens(s.subrange(j, s.len() as int)),
    decreases j - i,
{
    if i < j {
        let si = s.subrange(i, s.len() as int);
        assert(is_space(si[0]));
        assert(si.subrange(1, si.len() as int) =~= s.subrange(i + 1, s.len() as int));
        lemma_tokens_skip_spaces(s, i + 1, j);
    }
}

/// A maximal non-separator run `s[i..j]` is the head token of the tail
/// starting at `i`, and the remaining tokens are those of the tail
/// starting at `j`.
pub(crate) proof fn lemma_tokens_head(s: Seq<u8>, i: int, j: int)
    requires
        0 <= i < j <= s.len(),
        forall|m: int| i <= m < j ==> !is_space(s[m]),
        j == s.len() || is_space(s[j]),
    ensures
        tokens(s.subrange(i, s.len() as int)) == seq![s.subrange(i, j)] + tokens(
            s.subrange(j, s.len() as int),
        ),
{
    let si = s.subrange(i, s.len() as int);
    assert(forall|m: int| 0 <= m < j - i ==> si[m] == s[m + i]);
    lemma_token_len_at(si, j - i);
    assert(!is_space(si[0]));
    assert(si.subrange(0, j - i) =~= s.subrange(i, j));
    assert(si.subrange(j - i, si.len() as int) =~= s.subrange(j, s.len() as int));
}

/// Extending a digit string can only grow its value: the value of a
/// prefix is at most the value of the whole.
proof fn lemma_dec_value_prefix(s: Seq<u8>, m: int)
    requires
        all_digits(s),
        0 <= m <= s.len(),
    ensures
        dec_value(s.subrange(0, m)) <= dec_value(s),
    decreases s.len() - m,
{
    if m < s.len() {
        assert(s.subrange(0, m + 1).drop_last() =~= s.subrange(0, m));
        assert(dec_value(s.subrange(0, m)) <= dec_value(s.subrange(0, m + 1)));
        lemma_dec_value_prefix(s, m + 1);
    } else {
        assert(s.subrange(0, m) =~= s);
    }
}

/// Index just past the first line held in `v`: the position of the first
/// newline byte, or the length if there is none.
pub(crate) fn find_line_end(v: &Vec<u8>) -> (r: usize)
    ensures
        r == line_len(v@),
        r <= v@.len(),
{
    let n = v.len();
    let mut i: usize = 0;
    while i < n
        invariant
            i <= n,
            n == v@.len(),
            forall|k: int| 0 <= k < i ==> v@[k] != 10,
        decreases n - i,
    {
        if v[i] == 10 {
            proof {
                lemma_line_len_at(v@, i as int);
            }
            return i;
        }
        i = i + 1;
    }
    proof {
        lemma_line_len_at(v@, n as int);
    }
    i
}

/// Advances past separator bytes: the first position in `[i, end)` that
/// holds a non-separator byte, or `end`.
pub(crate) fn skip_spaces(v: &Vec<u8>, end: usize, i: usize) -> (r: usize)
    requires
        i <= end <= v@.len(),
    ensures
        i <= r <= end,
        forall|k: int| i <= k < r ==> is_space(v@[k]),
        r < end ==> !is_space(v@[r as int]),
{
    let mut p = i;
    while p < end
        invariant
            i <= p <= end,
            end <= v@.len(),
            forall|k: int| i <= k < p ==> is_space(v@[k]),
        decreases end - p,
    {
        let c = v[p];
        if !(c == 32 || c == 9 || c == 13) {
            return p;
        }
        p = p + 1;
    }
    p
}

/// Extends a token: the first position in `(i, end)` that holds a
/// separator byte, or `end`.
pub(crate) fn token_end(v: &Vec<u8>, end: usize, i: usize) -> (r: usize)
    requires
        i < end <= v@.len(),
        !is_space(v@[i as int]),
    ensures
        i < r <= end,
        forall|k: int| i <= k < r ==> !is_space(v@[k]),
        r < end ==> is_space(v@[r as int]),
{
    let mut p = i + 1;
    while p < end
        invariant
            i < p <= end,
            end <= v@.len(),
            forall|k: int| i <= k < p ==> !is_space(v@[k]),
        decreases end - p,
    {
        let c = v[p];
        if c == 32 || c == 9 || c == 13 {
            return p;
        }
        p = p + 1;
    }
    p
}

/// Parses the token `v[i..j]` as a decimal 64-bit unsigned value.
/// Returns `None` exactly when the token is empty, holds a non-digit
/// byte, or names a value too large for 64 bits.
pub(crate) fn parse_u64_token(v: &Vec<u8>, i: usize, j: usize) -> (r: Option<u64>)
    requires
        i <= j <= v@.len(),
    ensures
        match r {
            Some(x) => all_digits(v@.subrange(i as int, j as int)) && x == dec_value(
                v@.subrange(i as int, j as int),
            ),
            None => !(all_digits(v@.subrange(i as int, j as int)) && dec_value(
                v@.subrange(i as int, j as int),
            ) <= u64::MAX),
        },
{
    let ghost tok = v@.subrange(i as int, j as int);
    if i == j {
        return None;
    }
    let mut k = i;
    while k < j
        invariant
            i <= k <= j,
            j <= v@.len(),
            tok == v@.subrange(i as int, j as int),
            i < j,
            forall|m: int| i <= m < k ==> is_digit(v@[m]),
        decreases j - k,
    {
        let c = v[k];
        if !(48 <= c && c <= 57) {
            proof {
                assert(tok[k - i] == v@[k as int]);
            }
            return None;
        }
        k = k + 1;
    }
    proof {
        assert(forall|m: int| 0 <= m < tok.len() ==> tok[m] == v@[m + i]);
        assert(all_digits(tok));
    }
    let mut acc: u64 = 0;
    k = i;
    while k < j
        invariant
            i <= k <= j,
            j <= v@.len(),
            i < j,
            all_digits(tok),
            tok == v@.subrange(i as int, j as int),
            forall|m: int| i <= m < j ==> is_digit(v@[m]),
            acc == dec_value(v@.subrange(i as int, k as int)),
        decreases j - k,
    {
        let d = v[k] - 48;
        let wide: u128 = acc as u128 * 10 + d as u128;
        proof {
            assert(v@.subrange(i as int, k + 1).drop_last() =~= v@.subrange(i as int, k as int));
            assert(v@.subrange(i as int, k + 1).last() == v@[k as int]);
        }
        if wide > u64::MAX as u128 {
            proof {
                assert(tok.subrange(0, k + 1 - i) =~= v@.subrange(i as int, k + 1));
                lemma_dec_value_prefix(tok, k + 1 - i);
            }
            return None;
        }
        acc = wide as u64;
        k = k + 1;
    }
    proof {
        assert(v@.subrange(i as int, j as int) =~= tok);
    }
    Some(acc)
}

} // verus!
