use std::fmt::Debug;

use toast::compiler::try_parse_from_iter::{IntErrorKind, TryParseFromPeek};
use toast::stream::CharStream;

fn assert_try_parse_from_str_ok<T>(source: &str, radix: u32, val: T, expected_remaining: &str)
where
    T: TryParseFromPeek<char, Err = IntErrorKind, ParseContext = u32> + PartialEq + Debug,
{
    let mut chars = CharStream::new(source);
    let res = <T as TryParseFromPeek<char>>::try_parse_from_peek(&mut chars, radix);
    assert_eq!(res, Ok(val));
    assert_eq!(chars.remaining(), String::from(expected_remaining));
}

fn assert_try_parse_from_str_err<T>(source: &str, radix: u32, err: IntErrorKind)
where
    T: TryParseFromPeek<char, Err = IntErrorKind, ParseContext = u32> + PartialEq + Debug,
{
    let mut chars = CharStream::new(source);
    let res = <T as TryParseFromPeek<char>>::try_parse_from_peek(&mut chars, radix);
    assert_eq!(res, Err(err));
}

#[test]
fn assert_from_str() {
    assert_try_parse_from_str_ok::<u8>("255", 10, 255, "");
}
#[test]
fn assert_from_str_with_whitespace() {
    assert_try_parse_from_str_ok::<u8>("255   ", 10, 255, "   ");
}
#[test]
fn assert_from_str_with_rest() {
    assert_try_parse_from_str_ok::<u8>("255abcdefg", 10, 255, "abcdefg");
}
#[test]
fn assert_from_str_with_nums_in_binary() {
    assert_try_parse_from_str_ok::<u8>("1008", 2, 4, "8");
}
#[test]
fn assert_from_str_err() {
    assert_try_parse_from_str_err::<u8>("256", 10, IntErrorKind::PosOverflow);
}
#[test]
fn assert_from_str_plus() {
    assert_try_parse_from_str_err::<u8>("+255", 10, IntErrorKind::InvalidDigit);
}
#[test]
fn assert_from_str_with_whitespace_plus() {
    assert_try_parse_from_str_err::<u8>("+255   ", 10, IntErrorKind::InvalidDigit);
}
#[test]
fn assert_from_str_with_rest_plus() {
    assert_try_parse_from_str_err::<u8>("+255abcdefg", 10, IntErrorKind::InvalidDigit);
}
#[test]
fn assert_from_str_with_nums_in_binary_plus() {
    assert_try_parse_from_str_err::<u8>("+1008", 2, IntErrorKind::InvalidDigit);
}
#[test]
fn assert_from_str_err_plus() {
    assert_try_parse_from_str_err::<u8>("+256", 10, IntErrorKind::InvalidDigit);
}

#[test]
fn singed_assert_from_str() {
    assert_try_parse_from_str_ok::<i8>("127", 10, 127, "");
}
#[test]
fn singed_assert_from_str_with_whitespace() {
    assert_try_parse_from_str_ok::<i8>("127   ", 10, 127, "   ");
}
#[test]
fn singed_assert_from_str_with_rest() {
    assert_try_parse_from_str_ok::<i8>("127abcdefg", 10, 127, "abcdefg");
}
#[test]
fn singed_assert_from_str_with_nums_in_binary() {
    assert_try_parse_from_str_ok::<i8>("1008", 2, 4, "8");
}
#[test]
fn singed_assert_from_str_err() {
    assert_try_parse_from_str_err::<i8>("128", 10, IntErrorKind::PosOverflow);
}
#[test]
fn singed_assert_from_str_plus() {
    assert_try_parse_from_str_err::<i8>("+127", 10, IntErrorKind::InvalidDigit);
}
#[test]
fn singed_assert_from_str_with_whitespace_plus() {
    assert_try_parse_from_str_err::<i8>("+127   ", 10, IntErrorKind::InvalidDigit);
}
#[test]
fn singed_assert_from_str_with_rest_plus() {
    assert_try_parse_from_str_err::<i8>("+127abcdefg", 10, IntErrorKind::InvalidDigit);
}
#[test]
fn singed_assert_from_str_with_nums_in_binary_plus() {
    assert_try_parse_from_str_err::<i8>("+1008", 2, IntErrorKind::InvalidDigit);
}
#[test]
fn singed_assert_from_str_err_plus() {
    assert_try_parse_from_str_err::<i8>("+128", 10, IntErrorKind::InvalidDigit);
}
#[test]
fn singed_assert_from_str_minus() {
    assert_try_parse_from_str_ok::<i8>("-128", 10, -128, "");
}
#[test]
fn singed_assert_from_str_with_whitespace_minus() {
    assert_try_parse_from_str_ok::<i8>("-128   ", 10, -128, "   ");
}
#[test]
fn singed_assert_from_str_with_rest_minus() {
    assert_try_parse_from_str_ok::<i8>("-128abcdefg", 10, -128, "abcdefg");
}
#[test]
fn singed_assert_from_str_with_nums_in_binary_minus() {
    assert_try_parse_from_str_ok::<i8>("-1008", 2, -4, "8");
}
#[test]
fn singed_assert_from_str_err_minus() {
    assert_try_parse_from_str_err::<i8>("-129", 10, IntErrorKind::NegOverflow);
}
