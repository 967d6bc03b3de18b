use ux2::sint::Sint;
use ux2::TryFromIntError;

#[test]
fn one_bit_signed_scenario() {
    // The 1-bit signed type holds only -1 and 0; +1 is unrepresentable.
    let min = Sint::min_value(1);
    let max = Sint::max_value(1);
    assert_eq!(min.value, -1);
    assert_eq!(max.value, 0);
    assert_eq!(Sint::try_from_i128(1, 1), Err(TryFromIntError));
    assert_eq!(Sint::try_from_i128(1, -1).map(|x| x.value), Ok(-1));
}

#[test]
fn signed_bounds_are_twos_complement() {
    let min = Sint::min_value(8);
    let max = Sint::max_value(8);
    assert_eq!(min.value, -128);
    assert_eq!(max.value, 127);
    assert_eq!(min.bits(), 8);
}

#[test]
fn wrapping_add_wraps_at_both_ends() {
    // MIN + (-1) wraps to MAX.
    let min = Sint::min_value(8);
    let minus_one = Sint::new(8, -1);
    assert_eq!(min.wrapping_add(minus_one), Sint::max_value(8));
    // MAX + 1 wraps to MIN.
    let max = Sint::max_value(8);
    let one = Sint::new(8, 1);
    assert_eq!(max.wrapping_add(one), min);
    // In-range sums are untouched.
    assert_eq!(Sint::new(8, 5).wrapping_add(Sint::new(8, -9)).value, -4);
}

#[test]
fn wrapping_sub_wraps_modulo_the_range() {
    let min = Sint::min_value(5);
    let one = Sint::new(5, 1);
    assert_eq!(min.wrapping_sub(one), Sint::max_value(5));
    assert_eq!(Sint::new(5, 3).wrapping_sub(one).value, 2);
}

#[test]
fn signed_widening_operations_compute_exact_results() {
    let a = Sint::new(4, -8);
    let b = Sint::new(4, -8);
    let sum = a.add(b);
    assert_eq!(sum.width, 5);
    assert_eq!(sum.value, -16);
    let diff = a.sub(Sint::new(4, 7));
    assert_eq!(diff.width, 5);
    assert_eq!(diff.value, -15);
    let prod = a.mul(b);
    assert_eq!(prod.width, 8);
    assert_eq!(prod.value, 64);
}

#[test]
fn signed_checked_operations_report_overflow() {
    let min = Sint::min_value(6);
    let max = Sint::max_value(6);
    let one = Sint::new(6, 1);
    let minus_one = Sint::new(6, -1);
    assert_eq!(min.checked_add(minus_one), None);
    assert_eq!(min.checked_add(one).map(|x| x.value), Some(-31));
    assert_eq!(max.checked_add(one), None);
    assert_eq!(max.checked_sub(minus_one), None);
    assert_eq!(min.checked_sub(one), None);
    assert_eq!(min.checked_mul(minus_one), None);
    assert_eq!(max.checked_mul(minus_one).map(|x| x.value), Some(-31));
}

#[test]
fn checked_div_reports_zero_and_the_overflow_case() {
    let min = Sint::min_value(7);
    let zero = Sint::new(7, 0);
    let minus_one = Sint::new(7, -1);
    assert_eq!(min.checked_div(zero), None);
    assert_eq!(min.checked_div(minus_one), None);
    assert_eq!(min.checked_div(Sint::new(7, 2)).map(|x| x.value), Some(-32));
}

#[test]
fn division_truncates_toward_zero() {
    let a = Sint::new(8, -7);
    let b = Sint::new(8, 2);
    assert_eq!(a.div(b).value, -3);
    assert_eq!(Sint::new(8, 7).div(Sint::new(8, -2)).value, -3);
    assert_eq!(Sint::new(8, 7).div(Sint::new(8, 2)).value, 3);
}

#[test]
fn remainder_follows_the_dividend_sign() {
    // Mixed-sign pairs, the flagged narrowing risk: the result always
    // fits the narrower width.
    let r1 = Sint::new(8, -7).rem(Sint::new(4, 3));
    assert_eq!(r1.width, 4);
    assert_eq!(r1.value, -1);
    let r2 = Sint::new(8, 7).rem(Sint::new(4, -3));
    assert_eq!(r2.width, 4);
    assert_eq!(r2.value, 1);
    let r3 = Sint::new(4, -8).rem(Sint::new(8, -3));
    assert_eq!(r3.width, 4);
    assert_eq!(r3.value, -2);
    let r4 = Sint::min_value(8).rem(Sint::new(8, -1));
    assert_eq!(r4.value, 0);
}

#[test]
fn bitwise_operations_work_on_patterns() {
    // -6 is 1010 and 3 is 0011 in 4-bit two's complement.
    let a = Sint::new(4, -6);
    let b = Sint::new(4, 3);
    assert_eq!(a.bitand(b).value, 2); // 0010
    assert_eq!(a.bitor(b).value, -5); // 1011
    assert_eq!(a.bitxor(b).value, -7); // 1001
}

#[test]
fn not_is_the_width_constrained_complement() {
    assert_eq!(Sint::new(4, 0).not().value, -1);
    assert_eq!(Sint::min_value(4).not(), Sint::max_value(4));
    assert_eq!(Sint::new(4, 5).not().value, -6);
}

#[test]
fn negation_and_absolute_value() {
    let v = Sint::new(8, -100);
    assert_eq!(v.neg().value, 100);
    let a = v.abs();
    assert_eq!(a.width, 7);
    assert_eq!(a.value, 100);
    let m = Sint::max_value(8).abs();
    assert_eq!(m.value, 127);
}

#[test]
fn pow_handles_negative_bases() {
    let minus_two = Sint::new(8, -2);
    assert_eq!(minus_two.pow(2).value, 4);
    assert_eq!(minus_two.pow(3).value, -8);
    assert_eq!(minus_two.pow(0).value, 1);
    assert_eq!(Sint::new(8, 0).pow(3).value, 0);
}

#[test]
fn signed_conversions_preserve_values() {
    let v = Sint::new(5, -14);
    let wide = Sint::from_sint(9, v);
    assert_eq!(wide.value, -14);
    assert_eq!(Sint::try_from_sint(5, wide).map(|x| x.value), Ok(-14));
    assert_eq!(Sint::try_from_sint(4, wide), Err(TryFromIntError));
}

#[test]
fn signed_masking_wraps_into_the_window() {
    assert_eq!(Sint::masked(8, 128).value, -128);
    assert_eq!(Sint::masked(8, 255).value, -1);
    assert_eq!(Sint::masked(8, -129).value, 127);
    assert_eq!(Sint::masked(8, 100).value, 100);
    assert_eq!(Sint::masked(4, -8).value, -8);
}

#[test]
fn signed_pointer_sized_conversions_round_trip() {
    let v = Sint::try_from_isize(9, -200isize).unwrap();
    assert_eq!(v.value, -200);
    assert_eq!(v.try_to_isize(), Ok(-200isize));
    assert_eq!(Sint::try_from_isize(8, -200isize), Err(TryFromIntError));
}
