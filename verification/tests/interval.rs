use watch::digits::{decimal_string, digit_of, signed_decimal_string};
use watch::interval::{parse_time, Interval, ParseError};

#[test]
fn two_and_a_half_seconds() {
    assert_eq!(parse_time(Some("2.5")), Ok(2500));
}

#[test]
fn whole_seconds() {
    assert_eq!(parse_time(Some("1")), Ok(1000));
    assert_eq!(parse_time(Some("0")), Ok(0));
    assert_eq!(parse_time(Some("60")), Ok(60_000));
    assert_eq!(parse_time(Some("007")), Ok(7000));
}

#[test]
fn fractions_of_a_second() {
    assert_eq!(parse_time(Some("1.5")), Ok(1500));
    assert_eq!(parse_time(Some("0.001")), Ok(1));
    assert_eq!(parse_time(Some("0.25")), Ok(250));
    assert_eq!(parse_time(Some("12.345")), Ok(12_345));
    assert_eq!(parse_time(Some("3.0")), Ok(3000));
}

#[test]
fn point_at_either_end() {
    assert_eq!(parse_time(Some(".5")), Ok(500));
    assert_eq!(parse_time(Some("5.")), Ok(5000));
}

#[test]
fn rounds_to_the_nearest_millisecond() {
    assert_eq!(parse_time(Some("0.0004")), Ok(0));
    assert_eq!(parse_time(Some("0.0005")), Ok(1));
    assert_eq!(parse_time(Some("0.00049999")), Ok(0));
    assert_eq!(parse_time(Some("1.2344")), Ok(1234));
    assert_eq!(parse_time(Some("1.2345")), Ok(1235));
    assert_eq!(parse_time(Some("1.23450000001")), Ok(1235));
    assert_eq!(parse_time(Some("0.9995")), Ok(1000));
    assert_eq!(parse_time(Some("9.9999")), Ok(10_000));
}

#[test]
fn plus_sign_is_accepted() {
    assert_eq!(parse_time(Some("+1.5")), Ok(1500));
    assert_eq!(parse_time(Some("+0")), Ok(0));
}

#[test]
fn minus_sign_is_refused() {
    assert_eq!(parse_time(Some("-1")), Err(ParseError::Negative));
    assert_eq!(parse_time(Some("-0.5")), Err(ParseError::Negative));
    assert_eq!(parse_time(Some("-0")), Err(ParseError::Negative));
}

#[test]
fn empty_text_is_refused() {
    assert_eq!(parse_time(Some("")), Err(ParseError::Empty));
}

#[test]
fn missing_text_is_refused() {
    assert_eq!(parse_time(None), Err(ParseError::NotText));
}

#[test]
fn malformed_text_is_refused() {
    for text in [
        "abc", ".", "+", "-", "+.", "-.", "1.2.3", "1e3", " 1", "1 ", "1,5", "--1", "+-1", "1-",
        "inf", "NaN", "0x10", "1_000", "-abc", "\u{661}", "1.\u{662}",
    ] {
        assert_eq!(parse_time(Some(text)), Err(ParseError::Invalid), "{:?}", text);
    }
}

#[test]
fn largest_interval() {
    assert_eq!(parse_time(Some("18446744073709551.615")), Ok(u64::MAX));
    assert_eq!(parse_time(Some("18446744073709551.6154")), Ok(u64::MAX));
    assert_eq!(parse_time(Some("18446744073709551.6155")), Err(ParseError::TooLarge));
    assert_eq!(parse_time(Some("18446744073709551.616")), Err(ParseError::TooLarge));
    assert_eq!(parse_time(Some("18446744073709552")), Err(ParseError::TooLarge));
    assert_eq!(parse_time(Some("18446744073709551615")), Err(ParseError::TooLarge));
    assert_eq!(parse_time(Some("18446744073709551616")), Err(ParseError::TooLarge));
    assert_eq!(
        parse_time(Some("99999999999999999999999999999999999999999")),
        Err(ParseError::TooLarge)
    );
    assert_eq!(
        parse_time(Some("-99999999999999999999999999999999999999999")),
        Err(ParseError::Negative)
    );
}

#[test]
fn leading_zeros_do_not_overflow() {
    assert_eq!(parse_time(Some("0000000000000000000000000000000000001.25")), Ok(1250));
}

#[test]
fn error_messages() {
    assert_eq!(ParseError::NotText.message(), "Character set not supported");
    assert_eq!(ParseError::Empty.message(), "cannot read an interval from an empty string");
    assert_eq!(ParseError::Invalid.message(), "the interval is not a decimal number of seconds");
    assert_eq!(ParseError::Negative.message(), "the interval must not be negative");
    assert_eq!(ParseError::TooLarge.message(), "the interval is too large");
}

#[test]
fn finer_interval_wins() {
    assert_eq!(Interval::select(1, None), Interval::Seconds(1));
    assert_eq!(Interval::select(1, Some(2500)), Interval::Millis(2500));
    assert_eq!(Interval::select(7, Some(0)), Interval::Millis(0));
}

#[test]
fn interval_in_milliseconds() {
    assert_eq!(Interval::Seconds(2).total_millis(), 2000);
    assert_eq!(Interval::Millis(2500).total_millis(), 2500);
    assert_eq!(Interval::Seconds(u64::MAX).total_millis(), u64::MAX as u128 * 1000);
}

#[test]
fn interval_labels() {
    assert_eq!(Interval::Seconds(1).label(), "1s");
    assert_eq!(Interval::Seconds(0).label(), "0s");
    assert_eq!(Interval::Millis(2500).label(), "2500ms");
    assert_eq!(Interval::Seconds(u64::MAX).label(), "18446744073709551615s");
}

#[test]
fn rest_of_the_interval() {
    assert_eq!(Interval::Seconds(1).remaining(0), Some(1000));
    assert_eq!(Interval::Seconds(1).remaining(250), Some(750));
    assert_eq!(Interval::Millis(2500).remaining(2499), Some(1));
    assert_eq!(Interval::Seconds(u64::MAX).remaining(5), Some(u64::MAX as u128 * 1000 - 5));
}

#[test]
fn slow_run_gets_no_rest() {
    assert_eq!(Interval::Seconds(1).remaining(1000), None);
    assert_eq!(Interval::Seconds(1).remaining(1001), None);
    assert_eq!(Interval::Millis(1).remaining(5000), None);
    assert_eq!(Interval::Millis(0).remaining(0), None);
    assert_eq!(Interval::Seconds(3).remaining(u128::MAX), None);
}

#[test]
fn half_seconds_resolve_to_sleep_budget() {
    let millis = parse_time(Some("2.5")).unwrap();
    let interval = Interval::select(1, Some(millis));
    assert_eq!(interval.total_millis(), 2500);
    assert_eq!(interval.remaining(0), Some(2500));
}

#[test]
fn digits_and_others() {
    assert_eq!(digit_of('0'), Some(0));
    assert_eq!(digit_of('7'), Some(7));
    assert_eq!(digit_of('9'), Some(9));
    assert_eq!(digit_of('/'), None);
    assert_eq!(digit_of(':'), None);
    assert_eq!(digit_of('a'), None);
    assert_eq!(digit_of('\u{663}'), None);
}

#[test]
fn numbers_in_decimal() {
    assert_eq!(decimal_string(0), "0");
    assert_eq!(decimal_string(9), "9");
    assert_eq!(decimal_string(10), "10");
    assert_eq!(decimal_string(1234567890), "1234567890");
    assert_eq!(decimal_string(u64::MAX), "18446744073709551615");
}

#[test]
fn signed_numbers_in_decimal() {
    assert_eq!(signed_decimal_string(0), "0");
    assert_eq!(signed_decimal_string(1), "1");
    assert_eq!(signed_decimal_string(-1), "-1");
    assert_eq!(signed_decimal_string(255), "255");
    assert_eq!(signed_decimal_string(i32::MAX), "2147483647");
    assert_eq!(signed_decimal_string(i32::MIN), "-2147483648");
}

#[test]
fn written_numbers_read_back() {
    for n in [0u64, 1, 9, 10, 99, 100, 1000, 86_400, 4_294_967_296] {
        let text = decimal_string(n);
        assert_eq!(parse_time(Some(text.as_str())), Ok(n * 1000));
    }
}

#[test]
fn rest_in_seconds_and_nanoseconds() {
    assert_eq!(Interval::Seconds(1).rest_parts(0), Some((1, 0)));
    assert_eq!(Interval::Seconds(1).rest_parts(250), Some((0, 750_000_000)));
    assert_eq!(Interval::Millis(2500).rest_parts(0), Some((2, 500_000_000)));
    assert_eq!(Interval::Millis(2500).rest_parts(2499), Some((0, 1_000_000)));
    assert_eq!(Interval::Millis(61_001).rest_parts(1), Some((61, 0)));
    assert_eq!(Interval::Seconds(u64::MAX).rest_parts(0), Some((u64::MAX, 0)));
    assert_eq!(Interval::Seconds(u64::MAX).rest_parts(1), Some((u64::MAX - 1, 999_000_000)));
    assert_eq!(Interval::Millis(u64::MAX).rest_parts(0), Some((18_446_744_073_709_551, 615_000_000)));
}

#[test]
fn no_rest_parts_after_a_slow_run() {
    assert_eq!(Interval::Seconds(1).rest_parts(1000), None);
    assert_eq!(Interval::Seconds(1).rest_parts(5000), None);
    assert_eq!(Interval::Millis(0).rest_parts(0), None);
    assert_eq!(Interval::Seconds(2).rest_parts(u128::MAX), None);
}
