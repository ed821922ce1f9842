use scheme_interpreter::number::{parse_int, render_int};

#[test]
fn render_small_numbers() {
    assert_eq!(render_int(0), "0");
    assert_eq!(render_int(7), "7");
    assert_eq!(render_int(10), "10");
    assert_eq!(render_int(-1), "-1");
    assert_eq!(render_int(1203), "1203");
}

#[test]
fn render_the_bounds() {
    assert_eq!(render_int(i64::MAX), "9223372036854775807");
    assert_eq!(render_int(i64::MIN), "-9223372036854775808");
}

#[test]
fn render_agrees_with_the_standard_library() {
    let mut x: i64 = 1;
    for step in 0..200 {
        assert_eq!(render_int(x), x.to_string());
        assert_eq!(render_int(-x), (-x).to_string());
        x = x.wrapping_mul(31).wrapping_add(step) % 1_000_000_000_000_000;
    }
}

#[test]
fn parse_plain_and_signed() {
    assert_eq!(parse_int("0"), Some(0));
    assert_eq!(parse_int("42"), Some(42));
    assert_eq!(parse_int("-42"), Some(-42));
    assert_eq!(parse_int("+42"), Some(42));
    assert_eq!(parse_int("007"), Some(7));
    assert_eq!(parse_int("-0"), Some(0));
}

#[test]
fn parse_the_bounds() {
    assert_eq!(parse_int("9223372036854775807"), Some(i64::MAX));
    assert_eq!(parse_int("-9223372036854775808"), Some(i64::MIN));
    assert_eq!(parse_int("9223372036854775808"), None);
    assert_eq!(parse_int("-9223372036854775809"), None);
    assert_eq!(parse_int("99999999999999999999999999"), None);
    assert_eq!(parse_int("0000000000000000000000000000000001"), Some(1));
}

#[test]
fn parse_rejects_what_is_no_literal() {
    assert_eq!(parse_int(""), None);
    assert_eq!(parse_int("-"), None);
    assert_eq!(parse_int("+"), None);
    assert_eq!(parse_int("1a"), None);
    assert_eq!(parse_int("a1"), None);
    assert_eq!(parse_int(" 1"), None);
    assert_eq!(parse_int("1 "), None);
    assert_eq!(parse_int("--1"), None);
    assert_eq!(parse_int("1_000"), None);
    assert_eq!(parse_int("\u{663}"), None);
}

#[test]
fn parse_agrees_with_the_standard_library() {
    for text in [
        "0", "1", "-1", "+1", "12345", "-12345", "", "-", "+", "x", "12x", "+-1", "00", "-00",
        "9223372036854775807", "9223372036854775808", "-9223372036854775808",
        "-9223372036854775809", "18446744073709551616",
    ] {
        assert_eq!(parse_int(text), text.parse::<i64>().ok());
    }
}

#[test]
fn text_of_a_number_parses_back() {
    for x in [0, 1, -1, 9, 10, -10, 99, 100, 4711, i64::MAX, i64::MIN, i64::MIN + 1] {
        assert_eq!(parse_int(&render_int(x)), Some(x));
    }
}
