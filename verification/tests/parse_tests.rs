use ux2::uint::Uint;
use ux2::sint::Sint;
use ux2::ParseIntError;

#[test]
fn unsigned_decimal_parsing() {
    assert_eq!(Uint::from_str_radix(7, "0", 10).map(|v| v.value), Ok(0));
    assert_eq!(Uint::from_str_radix(7, "127", 10).map(|v| v.value), Ok(127));
    assert_eq!(Uint::from_str_radix(7, "+93", 10).map(|v| v.value), Ok(93));
    // One past the maximum is out of range, not a crash.
    assert_eq!(Uint::from_str_radix(7, "128", 10), Err(ParseIntError));
}

#[test]
fn unsigned_other_radices() {
    assert_eq!(Uint::from_str_radix(7, "7f", 16).map(|v| v.value), Ok(127));
    assert_eq!(Uint::from_str_radix(7, "7F", 16).map(|v| v.value), Ok(127));
    assert_eq!(Uint::from_str_radix(7, "1111111", 2).map(|v| v.value), Ok(127));
    assert_eq!(Uint::from_str_radix(7, "177", 8).map(|v| v.value), Ok(127));
    assert_eq!(Uint::from_str_radix(21, "zz", 36).map(|v| v.value), Ok(35 * 36 + 35));
}

#[test]
fn unsigned_malformed_text_is_rejected() {
    assert_eq!(Uint::from_str_radix(7, "", 10), Err(ParseIntError));
    assert_eq!(Uint::from_str_radix(7, "+", 10), Err(ParseIntError));
    assert_eq!(Uint::from_str_radix(7, " 1", 10), Err(ParseIntError));
    assert_eq!(Uint::from_str_radix(7, "1 ", 10), Err(ParseIntError));
    assert_eq!(Uint::from_str_radix(7, "12a", 10), Err(ParseIntError));
    assert_eq!(Uint::from_str_radix(7, "-3", 10), Err(ParseIntError));
    // A digit of a larger radix is no digit of a smaller one.
    assert_eq!(Uint::from_str_radix(7, "2", 2), Err(ParseIntError));
}

#[test]
fn unsigned_overflow_is_out_of_range_not_a_crash() {
    let huge = "340282366920938463463374607431768211456"; // 2^128
    assert_eq!(Uint::from_str_radix(127, huge, 10), Err(ParseIntError));
    let max127 = "170141183460469231731687303715884105727"; // 2^127 - 1
    assert_eq!(
        Uint::from_str_radix(127, max127, 10).map(|v| v.value),
        Ok((1u128 << 127) - 1)
    );
}

#[test]
fn signed_parsing_handles_both_signs() {
    assert_eq!(Sint::from_str_radix(8, "-128", 10).map(|v| v.value), Ok(-128));
    assert_eq!(Sint::from_str_radix(8, "127", 10).map(|v| v.value), Ok(127));
    assert_eq!(Sint::from_str_radix(8, "+15", 10).map(|v| v.value), Ok(15));
    assert_eq!(Sint::from_str_radix(8, "-80", 16).map(|v| v.value), Ok(-128));
    assert_eq!(Sint::from_str_radix(8, "-129", 10), Err(ParseIntError));
    assert_eq!(Sint::from_str_radix(8, "128", 10), Err(ParseIntError));
}

#[test]
fn signed_malformed_text_is_rejected() {
    assert_eq!(Sint::from_str_radix(8, "", 10), Err(ParseIntError));
    assert_eq!(Sint::from_str_radix(8, "-", 10), Err(ParseIntError));
    assert_eq!(Sint::from_str_radix(8, "--1", 10), Err(ParseIntError));
    assert_eq!(Sint::from_str_radix(8, "-+1", 10), Err(ParseIntError));
    assert_eq!(Sint::from_str_radix(8, "1.5", 10), Err(ParseIntError));
}

#[test]
fn one_bit_signed_parses_only_its_two_values() {
    assert_eq!(Sint::from_str_radix(1, "-1", 10).map(|v| v.value), Ok(-1));
    assert_eq!(Sint::from_str_radix(1, "0", 10).map(|v| v.value), Ok(0));
    assert_eq!(Sint::from_str_radix(1, "1", 10), Err(ParseIntError));
}
