use rolldice::decimal::{format_u64, parse_u32};

fn chars(text: &str) -> Vec<char> {
    text.chars().collect()
}

#[test]
fn parse_u32_reads_numerals() {
    assert_eq!(parse_u32(&chars("0")), Some(0));
    assert_eq!(parse_u32(&chars("7")), Some(7));
    assert_eq!(parse_u32(&chars("42")), Some(42));
    assert_eq!(parse_u32(&chars("00042")), Some(42));
    assert_eq!(parse_u32(&chars("1234567890")), Some(1234567890));
}

#[test]
fn parse_u32_stops_at_the_largest_u32() {
    assert_eq!(parse_u32(&chars("4294967295")), Some(4294967295));
    assert_eq!(parse_u32(&chars("4294967296")), None);
    assert_eq!(parse_u32(&chars("4294967300")), None);
    assert_eq!(parse_u32(&chars("42949672950")), None);
    assert_eq!(parse_u32(&chars("0004294967295")), Some(4294967295));
}

#[test]
fn parse_u32_rejects_what_is_no_numeral() {
    assert_eq!(parse_u32(&chars("")), None);
    assert_eq!(parse_u32(&chars("+1")), None);
    assert_eq!(parse_u32(&chars("-1")), None);
    assert_eq!(parse_u32(&chars("1 ")), None);
    assert_eq!(parse_u32(&chars("1_000")), None);
    assert_eq!(parse_u32(&chars("12a")), None);
    assert_eq!(parse_u32(&chars("a12")), None);
    assert_eq!(parse_u32(&chars("/")), None);
    assert_eq!(parse_u32(&chars(":")), None);
    assert_eq!(parse_u32(&chars("99999999999999999999x")), None);
}

#[test]
fn format_u64_writes_base_ten() {
    assert_eq!(format_u64(0), "0");
    assert_eq!(format_u64(9), "9");
    assert_eq!(format_u64(10), "10");
    assert_eq!(format_u64(1234567890), "1234567890");
    assert_eq!(format_u64(18446744073709551615), "18446744073709551615");
}

#[test]
fn written_numbers_are_read_back() {
    for n in [0u32, 1, 9, 10, 99, 100, 4096, 65535, 4294967295] {
        assert_eq!(parse_u32(&chars(&format_u64(n as u64))), Some(n));
    }
}
