use machine_info::number::{parse_signed, parse_unsigned};
use machine_info::text::{
    find_from, first_line_of, first_token_of, split_bytes, split_lines, split_once_bytes,
    trim_start_bytes,
};

fn owned(pieces: &[&[u8]]) -> Vec<Vec<u8>> {
    pieces.iter().map(|p| p.to_vec()).collect()
}

#[test]
fn find_from_gives_first_separator_or_the_end() {
    assert_eq!(find_from(b"a b c", 0, b' '), 1);
    assert_eq!(find_from(b"a b c", 2, b' '), 3);
    assert_eq!(find_from(b"a b c", 4, b' '), 5);
    assert_eq!(find_from(b"", 0, b' '), 0);
}

#[test]
fn split_keeps_empty_pieces() {
    assert_eq!(split_bytes(b"cpu  1 2", b' '), owned(&[b"cpu", b"", b"1", b"2"]));
    assert_eq!(split_bytes(b"", b' '), owned(&[b""]));
    assert_eq!(split_bytes(b" ", b' '), owned(&[b"", b""]));
    assert_eq!(split_bytes(b"abc", b' '), owned(&[b"abc"]));
    assert_eq!(split_bytes(b"a ", b' '), owned(&[b"a", b""]));
}

#[test]
fn lines_end_at_line_feeds() {
    assert_eq!(split_lines(b"a\nb\n"), owned(&[b"a", b"b"]));
    assert_eq!(split_lines(b"a\nb"), owned(&[b"a", b"b"]));
    assert_eq!(split_lines(b""), Vec::<Vec<u8>>::new());
    assert_eq!(split_lines(b"\n"), owned(&[b""]));
    assert_eq!(split_lines(b"\n\nx"), owned(&[b"", b"", b"x"]));
}

#[test]
fn lines_lose_the_carriage_return_before_a_line_feed() {
    assert_eq!(split_lines(b"a\r\nb\r"), owned(&[b"a", b"b\r"]));
    assert_eq!(first_line_of(b"one\r\ntwo"), b"one");
}

#[test]
fn first_line_of_a_text() {
    assert_eq!(first_line_of(b"one\ntwo\n"), b"one");
    assert_eq!(first_line_of(b"only"), b"only");
    assert_eq!(first_line_of(b""), b"");
    assert_eq!(first_line_of(b"\nsecond"), b"");
}

#[test]
fn trim_start_drops_leading_white_space_only() {
    assert_eq!(trim_start_bytes(b"  \t 12 kB "), b"12 kB ");
    assert_eq!(trim_start_bytes(b"x "), b"x ");
    assert_eq!(trim_start_bytes(b" \r\n\x0b\x0c"), b"");
    assert_eq!(trim_start_bytes(b""), b"");
}

#[test]
fn split_once_parts_at_the_first_separator() {
    let (name, value) = split_once_bytes(b"MemTotal: 8 kB: x", b':').unwrap();
    assert_eq!(name, b"MemTotal");
    assert_eq!(value, b" 8 kB: x");
    assert!(split_once_bytes(b"no colon here", b':').is_none());
    let (name, value) = split_once_bytes(b":", b':').unwrap();
    assert_eq!(name, b"");
    assert_eq!(value, b"");
}

#[test]
fn first_token_ends_at_the_first_blank() {
    assert_eq!(first_token_of(b"8000000 kB"), b"8000000");
    assert_eq!(first_token_of(b"8000000"), b"8000000");
    assert_eq!(first_token_of(b" 8"), b"");
    assert_eq!(first_token_of(b"8\tkB"), b"8\tkB");
}

#[test]
fn unsigned_numbers() {
    assert_eq!(parse_unsigned(b"0"), Some(0));
    assert_eq!(parse_unsigned(b"42"), Some(42));
    assert_eq!(parse_unsigned(b"+42"), Some(42));
    assert_eq!(parse_unsigned(b"0000000000000000000042"), Some(42));
    assert_eq!(parse_unsigned(b"2147483647"), Some(2147483647));
    assert_eq!(parse_unsigned(b"2147483648"), None);
    assert_eq!(parse_unsigned(b"99999999999999999999999999"), None);
    assert_eq!(parse_unsigned(b""), None);
    assert_eq!(parse_unsigned(b"+"), None);
    assert_eq!(parse_unsigned(b"-1"), None);
    assert_eq!(parse_unsigned(b"-0"), None);
    assert_eq!(parse_unsigned(b"12a"), None);
    assert_eq!(parse_unsigned(b" 12"), None);
    assert_eq!(parse_unsigned(b"++1"), None);
}

#[test]
fn signed_numbers() {
    assert_eq!(parse_signed(b"0"), Some(0));
    assert_eq!(parse_signed(b"-0"), Some(0));
    assert_eq!(parse_signed(b"+7"), Some(7));
    assert_eq!(parse_signed(b"-7"), Some(-7));
    assert_eq!(parse_signed(b"2147483647"), Some(i32::MAX));
    assert_eq!(parse_signed(b"2147483648"), None);
    assert_eq!(parse_signed(b"-2147483648"), Some(i32::MIN));
    assert_eq!(parse_signed(b"-2147483649"), None);
    assert_eq!(parse_signed(b"-"), None);
    assert_eq!(parse_signed(b""), None);
    assert_eq!(parse_signed(b"--1"), None);
    assert_eq!(parse_signed(b"-+1"), None);
    assert_eq!(parse_signed(b"1.5"), None);
}

#[test]
fn numbers_are_read_as_the_standard_library_reads_them() {
    let samples: [&str; 12] = [
        "0", "7", "+7", "-7", "007", "2147483647", "2147483648", "-2147483648", "-2147483649",
        "", "x", "1 ",
    ];
    for text in samples {
        assert_eq!(parse_signed(text.as_bytes()), text.parse::<i32>().ok());
    }
}
