use bob::decimal::{i64_to_string, parse_i64, parse_u32, u64_to_string};

#[test]
fn parse_i64_reads_plain_digits() {
    assert_eq!(parse_i64("0"), Some(0));
    assert_eq!(parse_i64("1000"), Some(1000));
    assert_eq!(parse_i64("007"), Some(7));
}

#[test]
fn parse_i64_reads_signs() {
    assert_eq!(parse_i64("-1"), Some(-1));
    assert_eq!(parse_i64("+5"), Some(5));
    assert_eq!(parse_i64("-0"), Some(0));
}

#[test]
fn parse_i64_refuses_what_is_no_number() {
    assert_eq!(parse_i64(""), None);
    assert_eq!(parse_i64("-"), None);
    assert_eq!(parse_i64("+"), None);
    assert_eq!(parse_i64("12a"), None);
    assert_eq!(parse_i64(" 12"), None);
    assert_eq!(parse_i64("1-2"), None);
    assert_eq!(parse_i64("--2"), None);
    assert_eq!(parse_i64("\u{661}\u{662}"), None);
}

#[test]
fn parse_i64_keeps_to_the_range() {
    assert_eq!(parse_i64("9223372036854775807"), Some(i64::MAX));
    assert_eq!(parse_i64("9223372036854775808"), None);
    assert_eq!(parse_i64("-9223372036854775808"), Some(i64::MIN));
    assert_eq!(parse_i64("-9223372036854775809"), None);
    assert_eq!(parse_i64("99999999999999999999999999999999"), None);
    assert_eq!(parse_i64("00000000000000000000000000000001"), Some(1));
}

#[test]
fn parse_i64_agrees_with_the_standard_library() {
    let samples = [
        "0", "-0", "+0", "42", "-42", "+42", "", "-", "+", "4 2", "abc", "0x10",
        "9223372036854775807", "9223372036854775808", "-9223372036854775808",
        "-9223372036854775809", "0009", "1_000",
    ];
    for text in samples.iter() {
        assert_eq!(parse_i64(text), text.parse::<i64>().ok());
    }
}

#[test]
fn parse_u32_takes_no_minus() {
    assert_eq!(parse_u32("0"), Some(0));
    assert_eq!(parse_u32("+7"), Some(7));
    assert_eq!(parse_u32("-0"), None);
    assert_eq!(parse_u32("-7"), None);
    assert_eq!(parse_u32("4294967295"), Some(u32::MAX));
    assert_eq!(parse_u32("4294967296"), None);
    assert_eq!(parse_u32(""), None);
    assert_eq!(parse_u32("1x"), None);
}

#[test]
fn parse_u32_agrees_with_the_standard_library() {
    let samples = ["0", "-0", "+0", "42", "-42", "+42", "", "+", "4294967295", "4294967296", "007"];
    for text in samples.iter() {
        assert_eq!(parse_u32(text), text.parse::<u32>().ok());
    }
}

#[test]
fn numbers_are_written_in_decimal() {
    assert_eq!(u64_to_string(0), "0");
    assert_eq!(u64_to_string(10), "10");
    assert_eq!(u64_to_string(u64::MAX), "18446744073709551615");
    assert_eq!(i64_to_string(0), "0");
    assert_eq!(i64_to_string(1000), "1000");
    assert_eq!(i64_to_string(-1), "-1");
    assert_eq!(i64_to_string(i64::MAX), "9223372036854775807");
    assert_eq!(i64_to_string(i64::MIN), "-9223372036854775808");
}

#[test]
fn a_written_number_reads_back() {
    let samples = [0i64, 1, -1, 99, -100, 1_000, 2_100, i64::MAX, i64::MIN];
    for value in samples.iter() {
        assert_eq!(parse_i64(i64_to_string(*value).as_str()), Some(*value));
    }
}
