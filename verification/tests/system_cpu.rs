use machine_info::source::ParseError;
use machine_info::system_cpu::Cpu;

fn reading(text: &str) -> Cpu {
    Cpu::from_file(text.as_bytes()).unwrap()
}

#[test]
fn cpu_line_is_read_in_the_order_of_the_buckets() {
    let cpu = reading("cpu  1 2 3 4 5 6 7 8 9 10\ncpu0 1 1 1 1 1 1 1 1 1 1\n");
    assert_eq!(cpu.values(), &vec![1, 2, 3, 4, 5, 6, 7, 8, 9, 10]);
}

#[test]
fn cpu_line_drops_its_first_two_fields() {
    let cpu = reading("anything 77 1 2 3 4 5 6 7 8 9 10");
    assert_eq!(cpu.values(), &vec![1, 2, 3, 4, 5, 6, 7, 8, 9, 10]);
}

#[test]
fn cpu_line_is_not_read_past_the_last_bucket() {
    let cpu = reading("cpu  1 2 3 4 5 6 7 8 9 10 what follows\n");
    assert_eq!(cpu.values(), &vec![1, 2, 3, 4, 5, 6, 7, 8, 9, 10]);
    let cpu = reading("cpu  1 2 3 4 5 6 7 8 9 10 ");
    assert_eq!(cpu.values(), &vec![1, 2, 3, 4, 5, 6, 7, 8, 9, 10]);
}

#[test]
fn cpu_line_with_too_few_fields_is_rejected() {
    assert_eq!(Cpu::from_file(b"cpu  1 2 3 4 5 6 7 8 9\n").err(), Some(ParseError::MissingField));
    assert_eq!(Cpu::from_file(b"cpu 1 2 3 4 5 6 7 8 9 10\n").err(), Some(ParseError::MissingField));
    assert_eq!(Cpu::from_file(b"").err(), Some(ParseError::MissingField));
    assert_eq!(
        Cpu::from_file(b"\ncpu  1 2 3 4 5 6 7 8 9 10\n").err(),
        Some(ParseError::MissingField)
    );
}

#[test]
fn cpu_line_with_a_field_that_is_no_count_is_rejected() {
    assert_eq!(
        Cpu::from_file(b"cpu  1 2 3 x 5 6 7 8 9 10\n").err(),
        Some(ParseError::InvalidNumber)
    );
    assert_eq!(
        Cpu::from_file(b"cpu  1 2 3 -4 5 6 7 8 9 10\n").err(),
        Some(ParseError::InvalidNumber)
    );
    assert_eq!(
        Cpu::from_file(b"cpu  1 2 3 4 5 6 7 8 9 2147483648\n").err(),
        Some(ParseError::InvalidNumber)
    );
    assert_eq!(
        Cpu::from_file(b"cpu  1 2  3 4 5 6 7 8 9 10\n").err(),
        Some(ParseError::InvalidNumber)
    );
    assert_eq!(
        Cpu::from_file(b"cpu   1 2 3 4 5 6 7 8 9 10\n").err(),
        Some(ParseError::InvalidNumber)
    );
}

#[test]
fn cpu_zero_holds_zero_in_every_bucket() {
    assert_eq!(Cpu::zero().values(), &vec![0; 10]);
}

#[test]
fn cpu_usage_is_the_share_that_was_not_idle() {
    let previous = reading("cpu  100 0 100 700 50 0 50 0 0 0");
    let current = reading("cpu  130 0 120 740 55 0 55 0 0 0");
    // 100 ticks passed, 40 of them idle
    assert_eq!(current.usage(&previous), 60);
}

#[test]
fn cpu_usage_is_rounded_toward_zero() {
    let previous = reading("cpu  0 0 0 0 0 0 0 0 0 0");
    let current = reading("cpu  1 0 0 2 0 0 0 0 0 0");
    assert_eq!(current.usage(&previous), 33);
    let current = reading("cpu  2 0 0 1 0 0 0 0 0 0");
    assert_eq!(current.usage(&previous), 66);
}

#[test]
fn cpu_usage_since_the_zero_reading_is_what_the_counters_say() {
    let current = reading("cpu  10 20 30 40 0 0 0 0 0 0");
    assert_eq!(current.usage(&Cpu::zero()), 60);
}

#[test]
fn cpu_usage_is_a_percentage_where_the_counters_grow() {
    let lines: [&str; 4] = [
        "cpu  0 0 0 0 0 0 0 0 0 0",
        "cpu  5 0 0 0 0 0 0 0 0 0",
        "cpu  5 1 2 1000 3 0 0 0 0 0",
        "cpu  2147483647 1 2 2147483647 3 9 9 9 9 2147483647",
    ];
    for i in 0..lines.len() {
        for j in (i + 1)..lines.len() {
            let usage = reading(lines[j]).usage(&reading(lines[i]));
            assert!((0..=100).contains(&usage), "{} then {}: {}", lines[i], lines[j], usage);
        }
    }
}

#[test]
fn cpu_usage_of_a_reading_and_itself_is_zero() {
    let a = reading("cpu  11 22 33 44 55 66 77 88 99 110");
    assert_eq!(a.usage(&a), 0);
    assert_eq!(Cpu::zero().usage(&Cpu::zero()), 0);
}

#[test]
fn cpu_usage_is_zero_where_the_buckets_add_up_to_the_same() {
    let previous = reading("cpu  10 0 0 5 0 0 0 0 0 0");
    let current = reading("cpu  5 0 0 10 0 0 0 0 0 0");
    assert_eq!(current.usage(&previous), 0);
}

#[test]
fn cpu_usage_where_the_idle_bucket_shrinks_is_over_a_hundred() {
    let previous = reading("cpu  0 0 0 10 0 0 0 0 0 0");
    let current = reading("cpu  20 0 0 0 0 0 0 0 0 0");
    assert_eq!(current.usage(&previous), 200);
}

#[test]
fn cpu_usage_where_the_counters_shrink() {
    let previous = reading("cpu  10 0 0 10 0 0 0 0 0 0");
    let current = reading("cpu  9 0 0 8 0 0 0 0 0 0");
    // delta -3, idle -2, used -1: 100 * -1 / -3
    assert_eq!(current.usage(&previous), 33);
    let current = reading("cpu  12 0 0 5 0 0 0 0 0 0");
    // delta -3, idle -5, used 2: 100 * 2 / -3
    assert_eq!(current.usage(&previous), -66);
}

#[test]
fn cpu_usage_at_the_limits_of_the_counters() {
    let top = reading(
        "cpu  2147483647 2147483647 2147483647 0 2147483647 2147483647 2147483647 2147483647 2147483647 2147483647",
    );
    let low = reading("cpu  0 0 0 2147483647 0 0 0 0 0 0");
    // delta 8 * 2147483647, idle -2147483647, used 9 * 2147483647
    assert_eq!(top.usage(&low), 112);
    let one = reading("cpu  1 0 0 0 0 0 0 0 0 0");
    let idle = reading("cpu  0 0 0 2147483647 0 0 0 0 0 0");
    // delta 1 - 2147483647, idle -2147483647, used 1
    assert_eq!(one.usage(&idle), 0);
}
