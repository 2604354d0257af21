use machine_info::process_cpu::{Process, NANOS_PER_SECOND, TICKS_PER_SECOND};
use machine_info::source::ParseError;

const T0: u128 = 1_700_000_000 * NANOS_PER_SECOND;

const STAT: &[u8] = b"4242 (cat) S 1 4242 4242 0 -1 4194560 120 0 0 0 7 3 2 1 20 0 1 0 5000 9000000 300 18446744073709551615 1 1 0 0 0 0 0 0 0 0 0 0 17 2 0 0 0 0 0\n";

#[test]
fn process_line_sums_five_fields_from_the_fourteenth() {
    let p = Process::from_file(STAT, T0).unwrap();
    // 7 + 3 + 2 + 1 + 20
    assert_eq!(p.total_time, 33);
    assert_eq!(p.when, T0);
}

#[test]
fn process_line_needs_eighteen_fields() {
    let short = b"1 (a) S 1 1 1 0 -1 0 0 0 0 0 7 3 2 1";
    assert_eq!(Process::from_file(short, T0).err(), Some(ParseError::MissingField));
    let enough = b"1 (a) S 1 1 1 0 -1 0 0 0 0 0 7 3 2 1 20";
    assert_eq!(Process::from_file(enough, T0).unwrap().total_time, 33);
    assert_eq!(Process::from_file(b"", T0).err(), Some(ParseError::MissingField));
}

#[test]
fn process_line_with_a_summed_field_that_is_no_count_is_rejected() {
    let negative = b"1 (a) S 1 1 1 0 -1 0 0 0 0 0 7 3 2 1 -20 0";
    assert_eq!(Process::from_file(negative, T0).err(), Some(ParseError::InvalidNumber));
    let word = b"1 (a) S 1 1 1 0 -1 0 0 0 0 0 7 x 2 1 20 0";
    assert_eq!(Process::from_file(word, T0).err(), Some(ParseError::InvalidNumber));
    let elsewhere = b"x x x x x x x x x x x x x 7 3 2 1 20 x";
    assert_eq!(Process::from_file(elsewhere, T0).unwrap().total_time, 33);
}

#[test]
fn process_line_holds_the_largest_counts() {
    let big = b"1 (a) S 1 1 1 0 -1 0 0 0 0 0 2147483647 2147483647 2147483647 2147483647 2147483647";
    assert_eq!(Process::from_file(big, 0).unwrap().total_time, 5 * 2147483647);
}

#[test]
fn process_usage_fifty_ticks_in_two_seconds() {
    let previous = Process { total_time: 100, when: T0 };
    let current = Process { total_time: 150, when: T0 + 2 * NANOS_PER_SECOND };
    let usage = current.usage(&previous);
    assert_eq!(usage.computing_ticks(), 50);
    assert_eq!(usage.elapsed_ticks(), 200);
    assert_eq!(usage.percent(), 25);
    let percent: f64 = 100.0 * (usage.computing_ticks() as f64 / usage.elapsed_ticks() as f64);
    assert_eq!(percent, 25.0);
}

#[test]
fn process_usage_counts_whole_seconds() {
    let previous = Process { total_time: 0, when: T0 + 600_000_000 };
    let current = Process { total_time: 30, when: T0 + 2 * NANOS_PER_SECOND + 599_999_999 };
    let usage = current.usage(&previous);
    assert_eq!(usage.elapsed_ticks(), TICKS_PER_SECOND);
    assert_eq!(usage.percent(), 30);
    let current = Process { total_time: 30, when: T0 + 2 * NANOS_PER_SECOND + 600_000_000 };
    assert_eq!(current.usage(&previous).elapsed_ticks(), 2 * TICKS_PER_SECOND);
}

#[test]
fn process_usage_within_one_second_is_zero_percent() {
    let previous = Process { total_time: 100, when: T0 };
    let current = Process { total_time: 150, when: T0 + 999_999_999 };
    let usage = current.usage(&previous);
    assert_eq!(usage.computing_ticks(), 50);
    assert_eq!(usage.elapsed_ticks(), 0);
    assert_eq!(usage.percent(), 0);
    assert_eq!(previous.usage(&previous).percent(), 0);
}

#[test]
fn process_usage_where_the_clock_went_back_has_no_elapsed_tick() {
    let previous = Process { total_time: 100, when: T0 };
    let current = Process { total_time: 150, when: T0 - 5 * NANOS_PER_SECOND };
    let usage = current.usage(&previous);
    assert_eq!(usage.elapsed_ticks(), 0);
    assert_eq!(usage.percent(), 0);
}

#[test]
fn process_usage_where_the_count_went_back_is_negative() {
    let previous = Process { total_time: 150, when: T0 };
    let current = Process { total_time: 100, when: T0 + 3 * NANOS_PER_SECOND };
    let usage = current.usage(&previous);
    assert_eq!(usage.computing_ticks(), -50);
    assert_eq!(usage.percent(), -16);
}

#[test]
fn process_usage_at_the_limits_of_the_fields() {
    let previous = Process { total_time: i64::MIN, when: 0 };
    let current = Process { total_time: i64::MAX, when: u128::MAX };
    let usage = current.usage(&previous);
    assert_eq!(usage.computing_ticks(), (1i128 << 64) - 1);
    assert_eq!(usage.elapsed_ticks(), u128::MAX / NANOS_PER_SECOND * 100);
    assert_eq!(usage.percent(), 0);
    let back = previous.usage(&current);
    assert_eq!(back.computing_ticks(), 1 - (1i128 << 64));
    assert_eq!(back.elapsed_ticks(), 0);
}
