use ux2::uint::Uint;
use ux2::sint::Sint;
use ux2::TryFromIntError;

#[test]
fn seven_bit_unsigned_scenario() {
    // The 7-bit unsigned type: MIN = 0, MAX = 127, BITS = 7.
    let min = Uint::min_value(7);
    let max = Uint::max_value(7);
    assert_eq!(min.value, 0);
    assert_eq!(max.value, 127);
    assert_eq!(max.bits(), 7);
    // Wrapping one past the maximum lands on the minimum.
    let one = Uint::new(7, 1);
    assert_eq!(max.wrapping_add(one), min);
    // A 7-bit + 7-bit widening add yields an 8-bit result holding the
    // exact sum, for any inputs.
    let a = Uint::new(7, 127);
    let b = Uint::new(7, 127);
    let c = a.add(b);
    assert_eq!(c.width, 8);
    assert_eq!(c.value, 254);
}

#[test]
fn narrowing_conversion_boundary() {
    // One past the maximum fails with a range error; the maximum itself
    // converts and round-trips.
    assert_eq!(Uint::try_from_u128(9, 512), Err(TryFromIntError));
    let v = Uint::try_from_u128(9, 511).unwrap();
    assert_eq!(v.value, 511);
    assert_eq!(v.to_u128(), 511);
    assert_eq!(Uint::try_from_uint(3, v), Err(TryFromIntError));
    let narrowed = Uint::try_from_uint(3, Uint::new(9, 7)).unwrap();
    assert_eq!(narrowed.width, 3);
    assert_eq!(narrowed.value, 7);
}

#[test]
fn widening_operations_compute_exact_results() {
    let a = Uint::new(5, 29);
    let b = Uint::new(3, 6);
    let sum = a.add(b);
    assert_eq!(sum.width, 6);
    assert_eq!(sum.value, 35);
    let diff = a.sub(b);
    assert_eq!(diff.width, 6);
    assert_eq!(diff.value, 23);
    let diff2 = b.sub(a);
    assert_eq!(diff2.width, 6);
    assert_eq!(diff2.value, -23);
    let prod = a.mul(b);
    assert_eq!(prod.width, 8);
    assert_eq!(prod.value, 174);
}

#[test]
fn multiplication_of_maxima_fits_the_width_sum() {
    let a = Uint::max_value(3);
    let b = Uint::max_value(4);
    let prod = a.mul(b);
    assert_eq!(prod.width, 7);
    assert_eq!(prod.value, 105);
    assert!(prod.value <= Uint::max_value(7).value);
}

#[test]
fn checked_operations_report_overflow() {
    let max = Uint::max_value(6);
    let zero = Uint::min_value(6);
    let one = Uint::new(6, 1);
    assert_eq!(max.checked_add(one), None);
    assert_eq!(max.checked_add(zero), Some(max));
    assert_eq!(zero.checked_sub(one), None);
    assert_eq!(max.checked_sub(max), Some(zero));
    let eight = Uint::new(6, 8);
    assert_eq!(eight.checked_mul(eight), None);
    assert_eq!(eight.checked_mul(Uint::new(6, 7)), Some(Uint::new(6, 56)));
    // Division by zero is reported by the checked entry point.
    assert_eq!(max.checked_div(zero), None);
    assert_eq!(max.checked_div(eight), Some(Uint::new(6, 7)));
}

#[test]
fn wrapping_subtraction_wraps_modulo_the_range() {
    let zero = Uint::min_value(4);
    let three = Uint::new(4, 3);
    assert_eq!(zero.wrapping_sub(three).value, 13);
    assert_eq!(three.wrapping_sub(three).value, 0);
}

#[test]
fn remainder_narrows_to_the_smaller_width() {
    let a = Uint::new(9, 500);
    let b = Uint::new(4, 9);
    let r = a.rem(b);
    assert_eq!(r.width, 4);
    assert_eq!(r.value, 500 % 9);
    let r2 = b.rem(a);
    assert_eq!(r2.width, 4);
    assert_eq!(r2.value, 9);
}

#[test]
fn division_truncates() {
    let a = Uint::new(8, 200);
    let b = Uint::new(8, 7);
    assert_eq!(a.div(b).value, 28);
}

#[test]
fn bitwise_operations_stay_in_width() {
    let a = Uint::new(7, 0b1010101);
    let b = Uint::new(7, 0b0110011);
    assert_eq!(a.bitand(b).value, 0b0010001);
    assert_eq!(a.bitor(b).value, 0b1110111);
    assert_eq!(a.bitxor(b).value, 0b1100110);
    // The complement flips exactly the seven logical bits.
    assert_eq!(a.not().value, 0b0101010);
    assert_eq!(Uint::min_value(7).not(), Uint::max_value(7));
}

#[test]
fn pow_computes_exact_powers() {
    let three = Uint::new(7, 3);
    assert_eq!(three.pow(4).value, 81);
    assert_eq!(three.pow(0).value, 1);
    assert_eq!(Uint::new(7, 0).pow(0).value, 1);
    assert_eq!(Uint::new(7, 0).pow(5).value, 0);
}

#[test]
fn unsigned_signed_conversions() {
    // A narrower unsigned value always fits a strictly wider signed type.
    let u = Uint::new(7, 127);
    let s = Sint::from_uint(8, u);
    assert_eq!(s.value, 127);
    // Same width needs a range check in both directions.
    assert_eq!(Sint::try_from_uint(7, u), Err(TryFromIntError));
    assert_eq!(Sint::try_from_uint(7, Uint::new(7, 63)).map(|x| x.value), Ok(63));
    assert_eq!(Uint::try_from_sint(7, Sint::new(7, -1)), Err(TryFromIntError));
    assert_eq!(Uint::try_from_sint(7, Sint::new(7, 63)).map(|x| x.value), Ok(63));
}

#[test]
fn widest_width_holds_its_bounds() {
    let max = Uint::max_value(127);
    assert_eq!(max.value, (1u128 << 127) - 1);
    let one = Uint::new(127, 1);
    assert_eq!(max.wrapping_add(one), Uint::min_value(127));
}

#[test]
fn split_helpers_partition_the_bytes() {
    let v: Vec<u8> = vec![1, 2, 3, 4, 5];
    let (a, b) = ux2::array_split_array_mut(&v, 2);
    assert_eq!(a, vec![1, 2]);
    assert_eq!(b, vec![3, 4, 5]);
    let (c, d) = ux2::array_rsplit_array_mut(&v, 2);
    assert_eq!(c, vec![1, 2, 3]);
    assert_eq!(d, vec![4, 5]);
}

#[test]
fn masking_reduces_modulo_the_range() {
    assert_eq!(Uint::masked(7, 128).value, 0);
    assert_eq!(Uint::masked(7, 130).value, 2);
    assert_eq!(Uint::masked(7, 93).value, 93);
    assert_eq!(Uint::masked(12, u128::MAX).value, 0xFFF);
}

#[test]
fn pointer_sized_conversions_round_trip() {
    let v = Uint::try_from_usize(9, 300usize).unwrap();
    assert_eq!(v.value, 300);
    assert_eq!(v.try_to_usize(), Ok(300usize));
    assert_eq!(Uint::try_from_usize(7, 300usize), Err(TryFromIntError));
}
