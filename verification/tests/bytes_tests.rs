use ux2::uint::Uint;
use ux2::sint::Sint;
use ux2::TryFromIntError;

#[test]
fn unsigned_byte_lengths_are_minimal() {
    assert_eq!(Uint::new(1, 1).to_be_bytes().len(), 1);
    assert_eq!(Uint::new(8, 255).to_be_bytes().len(), 1);
    assert_eq!(Uint::new(9, 511).to_be_bytes().len(), 2);
    assert_eq!(Uint::new(17, 3).to_be_bytes().len(), 3);
    assert_eq!(Uint::max_value(127).to_be_bytes().len(), 16);
}

#[test]
fn unsigned_big_endian_layout() {
    let v = Uint::new(12, 0xABC);
    assert_eq!(v.to_be_bytes(), vec![0x0A, 0xBC]);
    assert_eq!(v.to_le_bytes(), vec![0xBC, 0x0A]);
    assert_eq!(v.to_ne_bytes(), v.to_le_bytes());
}

#[test]
fn unsigned_byte_round_trip() {
    for value in [0u128, 1, 93, 127] {
        let v = Uint::new(7, value);
        let be = v.to_be_bytes();
        assert_eq!(Uint::from_be_bytes(7, &be), Ok(v));
        let le = v.to_le_bytes();
        assert_eq!(Uint::from_le_bytes(7, &le), Ok(v));
        let ne = v.to_ne_bytes();
        assert_eq!(Uint::from_ne_bytes(7, &ne), Ok(v));
    }
    let big = Uint::new(127, (1u128 << 127) - 3);
    assert_eq!(Uint::from_be_bytes(127, &big.to_be_bytes()), Ok(big));
}

#[test]
fn unsigned_decode_rejects_out_of_range_bytes() {
    // Two bytes decode up to 65535, but a 9-bit value must stay below 512.
    let bytes = vec![0x02, 0x00];
    assert_eq!(Uint::from_be_bytes(9, &bytes), Err(TryFromIntError));
    let ok = vec![0x01, 0xFF];
    assert_eq!(Uint::from_be_bytes(9, &ok).map(|v| v.value), Ok(511));
}

#[test]
fn signed_bytes_sign_extend() {
    let v = Sint::new(12, -1);
    assert_eq!(v.to_be_bytes(), vec![0xFF, 0xFF]);
    let w = Sint::new(12, -2048);
    assert_eq!(w.to_be_bytes(), vec![0xF8, 0x00]);
    let p = Sint::new(12, 5);
    assert_eq!(p.to_be_bytes(), vec![0x00, 0x05]);
}

#[test]
fn signed_byte_round_trip() {
    for value in [-2048i128, -1000, -1, 0, 1, 2047] {
        let v = Sint::new(12, value);
        let be = v.to_be_bytes();
        assert_eq!(Sint::from_be_bytes(12, &be), Ok(v));
        let le = v.to_le_bytes();
        assert_eq!(Sint::from_le_bytes(12, &le), Ok(v));
        let ne = v.to_ne_bytes();
        assert_eq!(Sint::from_ne_bytes(12, &ne), Ok(v));
    }
    let min = Sint::min_value(127);
    assert_eq!(Sint::from_be_bytes(127, &min.to_be_bytes()), Ok(min));
    let max = Sint::max_value(121);
    assert_eq!(Sint::from_le_bytes(121, &max.to_le_bytes()), Ok(max));
}

#[test]
fn signed_decode_rejects_out_of_range_bytes() {
    // 0x08 0x00 stands for +2048, one past the 12-bit maximum.
    let bytes = vec![0x08, 0x00];
    assert_eq!(Sint::from_be_bytes(12, &bytes), Err(TryFromIntError));
    // 0xF7 0xFF stands for -2049, one below the 12-bit minimum.
    let low = vec![0xF7, 0xFF];
    assert_eq!(Sint::from_be_bytes(12, &low), Err(TryFromIntError));
    let min = vec![0xF8, 0x00];
    assert_eq!(Sint::from_be_bytes(12, &min).map(|v| v.value), Ok(-2048));
}
