use ux2::uint::Uint;
use ux2::sint::Sint;

#[test]
fn unsigned_decimal_formatting() {
    assert_eq!(Uint::new(7, 0).to_decimal_string(), "0");
    assert_eq!(Uint::new(7, 93).to_decimal_string(), "93");
    assert_eq!(Uint::max_value(7).to_decimal_string(), "127");
    assert_eq!(
        Uint::max_value(127).to_decimal_string(),
        "170141183460469231731687303715884105727"
    );
}

#[test]
fn unsigned_radix_formatting() {
    let v = Uint::new(12, 0xABC);
    assert_eq!(v.to_lower_hex_string(), "abc");
    assert_eq!(v.to_upper_hex_string(), "ABC");
    assert_eq!(v.to_octal_string(), "5274");
    assert_eq!(v.to_binary_string(), "101010111100");
    assert_eq!(Uint::new(21, 35 * 36 + 35).to_str_radix(36, false), "zz");
}

#[test]
fn signed_formatting_carries_the_sign() {
    assert_eq!(Sint::new(8, -128).to_decimal_string(), "-128");
    assert_eq!(Sint::new(8, 127).to_decimal_string(), "127");
    assert_eq!(Sint::new(8, 0).to_decimal_string(), "0");
    assert_eq!(Sint::new(8, -128).to_lower_hex_string(), "-80");
    assert_eq!(Sint::new(8, -5).to_binary_string(), "-101");
    assert_eq!(Sint::new(1, -1).to_decimal_string(), "-1");
}

#[test]
fn formatting_and_parsing_round_trip() {
    for value in [0u128, 1, 35, 36, 93, 127] {
        let v = Uint::new(7, value);
        let s = v.to_str_radix(36, false);
        assert_eq!(Uint::from_str_radix(7, &s, 36), Ok(v));
    }
    for value in [-2048i128, -37, -1, 0, 1, 2047] {
        let v = Sint::new(12, value);
        let s = v.to_decimal_string();
        assert_eq!(Sint::from_str_radix(12, &s, 10), Ok(v));
    }
}
