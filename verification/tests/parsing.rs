use cpumon::errors::SourceError;
use cpumon::linux::parse_proc_stat;

fn bytes(s: &str) -> Vec<u8> {
    s.as_bytes().to_vec()
}

#[test]
fn parses_aggregate_line() {
    let r = parse_proc_stat(&bytes("cpu 100 0 200 9500 0 0 0 0 0 0\n")).unwrap();
    assert_eq!(r.user, 100);
    assert_eq!(r.nice, 0);
    assert_eq!(r.system, 200);
    assert_eq!(r.idle, 9500);
    assert_eq!(r.iowait, 0);
    assert_eq!(r.irq, 0);
    assert_eq!(r.softirq, 0);
    assert_eq!(r.steal, 0);
    assert_eq!(r.guest, 0);
    assert_eq!(r.guest_nice, 0);
}

#[test]
fn parses_distinct_fields_in_order() {
    let r = parse_proc_stat(&bytes("cpu 1 2 3 4 5 6 7 8 9 10\n")).unwrap();
    assert_eq!(r.user, 1);
    assert_eq!(r.nice, 2);
    assert_eq!(r.system, 3);
    assert_eq!(r.idle, 4);
    assert_eq!(r.iowait, 5);
    assert_eq!(r.irq, 6);
    assert_eq!(r.softirq, 7);
    assert_eq!(r.steal, 8);
    assert_eq!(r.guest, 9);
    assert_eq!(r.guest_nice, 10);
}

#[test]
fn ignores_tokens_beyond_the_tenth_counter() {
    let r = parse_proc_stat(&bytes("cpu 1 2 3 4 5 6 7 8 9 10 11 12\n")).unwrap();
    assert_eq!(r.guest_nice, 10);
}

#[test]
fn ignores_lines_after_the_first() {
    let r = parse_proc_stat(&bytes("cpu 1 2 3 4 5 6 7 8 9 10\ncpu0 9 9 9 9 9 9 9 9 9 9\n"))
        .unwrap();
    assert_eq!(r.user, 1);
    assert_eq!(r.guest_nice, 10);
}

#[test]
fn accepts_tabs_and_extra_spaces_as_separators() {
    let r = parse_proc_stat(&bytes("cpu\t1  2 3 4 5 6 7 8 9\t10\n")).unwrap();
    assert_eq!(r.user, 1);
    assert_eq!(r.guest_nice, 10);
}

#[test]
fn accepts_missing_final_newline() {
    let r = parse_proc_stat(&bytes("cpu 1 2 3 4 5 6 7 8 9 10")).unwrap();
    assert_eq!(r.guest_nice, 10);
}

#[test]
fn parses_largest_counter_value() {
    let r = parse_proc_stat(
        &bytes("cpu 18446744073709551615 0 0 0 0 0 0 0 0 0\n"),
    ).unwrap();
    assert_eq!(r.user, u64::MAX);
}

#[test]
fn rejects_per_cpu_line() {
    let r = parse_proc_stat(&bytes("cpu0 1 2 3 4 5 6 7 8 9 10\n"));
    assert_eq!(r, Err(SourceError::MalformedData));
}

#[test]
fn rejects_wrong_first_token() {
    let r = parse_proc_stat(&bytes("mem 1 2 3 4 5 6 7 8 9 10\n"));
    assert_eq!(r, Err(SourceError::MalformedData));
}

#[test]
fn rejects_fewer_than_ten_counters() {
    let r = parse_proc_stat(&bytes("cpu 1 2 3 4 5 6 7 8 9\n"));
    assert_eq!(r, Err(SourceError::MalformedData));
}

#[test]
fn rejects_counters_on_a_later_line() {
    // The tenth counter sits on the second line, so the first line is short.
    let r = parse_proc_stat(&bytes("cpu 1 2 3 4 5 6 7 8 9\n10\n"));
    assert_eq!(r, Err(SourceError::MalformedData));
}

#[test]
fn rejects_non_numeric_counter() {
    let r = parse_proc_stat(&bytes("cpu 1 2 three 4 5 6 7 8 9 10\n"));
    assert_eq!(r, Err(SourceError::MalformedData));
}

#[test]
fn rejects_counter_too_large_for_64_bits() {
    let r = parse_proc_stat(&bytes("cpu 18446744073709551616 0 0 0 0 0 0 0 0 0\n"));
    assert_eq!(r, Err(SourceError::MalformedData));
}

#[test]
fn rejects_negative_counter() {
    let r = parse_proc_stat(&bytes("cpu -1 2 3 4 5 6 7 8 9 10\n"));
    assert_eq!(r, Err(SourceError::MalformedData));
}

#[test]
fn rejects_empty_input() {
    let r = parse_proc_stat(&bytes(""));
    assert_eq!(r, Err(SourceError::MalformedData));
}

#[test]
fn rejects_blank_line() {
    let r = parse_proc_stat(&bytes("\ncpu 1 2 3 4 5 6 7 8 9 10\n"));
    assert_eq!(r, Err(SourceError::MalformedData));
}
