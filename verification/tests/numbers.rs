use rust_hive::numbers::{parse_decimal, to_decimal, NumberError};

#[test]
fn plain_digits_are_read() {
    assert_eq!(parse_decimal("0"), Ok(0));
    assert_eq!(parse_decimal("1234"), Ok(1234));
    assert_eq!(parse_decimal("001"), Ok(1));
    assert_eq!(parse_decimal("00000000000000000042"), Ok(42));
}

#[test]
fn one_sign_is_read() {
    assert_eq!(parse_decimal("+5"), Ok(5));
    assert_eq!(parse_decimal("-5"), Ok(-5));
    assert_eq!(parse_decimal("-0"), Ok(0));
}

#[test]
fn both_ends_of_the_range_are_read() {
    assert_eq!(parse_decimal("2147483647"), Ok(i32::MAX));
    assert_eq!(parse_decimal("-2147483648"), Ok(i32::MIN));
}

#[test]
fn empty_text_is_empty() {
    assert_eq!(parse_decimal(""), Err(NumberError::Empty));
}

#[test]
fn a_sign_alone_is_an_invalid_digit() {
    assert_eq!(parse_decimal("+"), Err(NumberError::InvalidDigit));
    assert_eq!(parse_decimal("-"), Err(NumberError::InvalidDigit));
}

#[test]
fn anything_but_digits_is_an_invalid_digit() {
    for text in ["abc", "12a", "1 2", " 12", "12 ", "1,2", "+-1", "--1", "1.5", "１２", "0x10"] {
        assert_eq!(parse_decimal(text), Err(NumberError::InvalidDigit), "{}", text);
    }
}

#[test]
fn a_number_above_the_range_overflows() {
    assert_eq!(parse_decimal("2147483648"), Err(NumberError::PosOverflow));
    assert_eq!(parse_decimal("+99999999999"), Err(NumberError::PosOverflow));
}

#[test]
fn a_number_below_the_range_overflows() {
    assert_eq!(parse_decimal("-2147483649"), Err(NumberError::NegOverflow));
    assert_eq!(parse_decimal("-99999999999"), Err(NumberError::NegOverflow));
}

#[test]
fn the_first_trouble_is_reported() {
    assert_eq!(parse_decimal("99999999999x"), Err(NumberError::PosOverflow));
    assert_eq!(parse_decimal("12x99999999999"), Err(NumberError::InvalidDigit));
    assert_eq!(parse_decimal("-99999999999x"), Err(NumberError::NegOverflow));
}

#[test]
fn reading_agrees_with_the_standard_library() {
    let samples = [
        "", "+", "-", "0", "-0", "+0", "7", "007", "2147483647", "2147483648", "-2147483648",
        "-2147483649", "12a", "a12", "99999999999x", "12x99999999999", "1 ", " 1", "+-3", "3-",
        "4294967296", "00000000002147483647", "0000000000000000000000000000",
    ];
    for text in samples {
        let expected = text.parse::<i32>();
        let found = parse_decimal(text);
        match (&expected, &found) {
            (Ok(a), Ok(b)) => assert_eq!(a, b, "{}", text),
            (Err(e), Err(f)) => {
                let same = match (e.kind(), f) {
                    (std::num::IntErrorKind::Empty, NumberError::Empty) => true,
                    (std::num::IntErrorKind::InvalidDigit, NumberError::InvalidDigit) => true,
                    (std::num::IntErrorKind::PosOverflow, NumberError::PosOverflow) => true,
                    (std::num::IntErrorKind::NegOverflow, NumberError::NegOverflow) => true,
                    _ => false,
                };
                assert!(same, "{}: {:?} and {:?}", text, e, f);
            }
            _ => panic!("{}: {:?} and {:?}", text, expected, found),
        }
    }
}

#[test]
fn numbers_are_written_in_base_ten() {
    assert_eq!(to_decimal(0), "0");
    assert_eq!(to_decimal(7), "7");
    assert_eq!(to_decimal(10), "10");
    assert_eq!(to_decimal(2023), "2023");
    assert_eq!(to_decimal(-1), "-1");
    assert_eq!(to_decimal(-120), "-120");
}

#[test]
fn the_ends_of_the_range_are_written() {
    assert_eq!(to_decimal(i64::MAX), "9223372036854775807");
    assert_eq!(to_decimal(i64::MIN), "-9223372036854775808");
    assert_eq!(to_decimal(i32::MIN as i64), "-2147483648");
}

#[test]
fn what_is_written_is_read_back() {
    for n in [0, 1, -1, 9, 10, 99, 100, 12345, -12345, i32::MAX, i32::MIN] {
        assert_eq!(parse_decimal(&to_decimal(n as i64)), Ok(n));
        assert_eq!(to_decimal(n as i64), n.to_string());
    }
}

#[test]
fn numbers_that_are_not_negative_are_written_without_a_sign() {
    assert_eq!(rust_hive::numbers::to_digits(0), "0");
    assert_eq!(rust_hive::numbers::to_digits(905), "905");
    assert_eq!(rust_hive::numbers::to_digits(u64::MAX), "18446744073709551615");
}
