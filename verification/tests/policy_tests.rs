use ux2::policy::{
    describe, conversion_kind, add_output_width, mul_output_width, rem_output_width,
    usize_conversion_kind, to_usize_conversion_kind, mask_of, ConvKind, Signedness, MAX_WIDTH,
};
use ux2::uint::Uint;
use ux2::sint::Sint;

#[test]
fn storage_widths_follow_the_minimal_cover() {
    assert_eq!(describe(1, Signedness::Unsigned).storage_width, 8);
    assert_eq!(describe(7, Signedness::Unsigned).storage_width, 8);
    assert_eq!(describe(8, Signedness::Signed).storage_width, 8);
    assert_eq!(describe(9, Signedness::Unsigned).storage_width, 16);
    assert_eq!(describe(16, Signedness::Signed).storage_width, 16);
    assert_eq!(describe(17, Signedness::Unsigned).storage_width, 32);
    assert_eq!(describe(33, Signedness::Signed).storage_width, 64);
    assert_eq!(describe(64, Signedness::Unsigned).storage_width, 64);
    assert_eq!(describe(65, Signedness::Unsigned).storage_width, 128);
    assert_eq!(describe(127, Signedness::Signed).storage_width, 128);
}

#[test]
fn byte_lengths_are_ceil_of_eighths() {
    assert_eq!(describe(1, Signedness::Unsigned).byte_length, 1);
    assert_eq!(describe(8, Signedness::Unsigned).byte_length, 1);
    assert_eq!(describe(9, Signedness::Unsigned).byte_length, 2);
    assert_eq!(describe(16, Signedness::Unsigned).byte_length, 2);
    assert_eq!(describe(17, Signedness::Unsigned).byte_length, 3);
    assert_eq!(describe(127, Signedness::Unsigned).byte_length, 16);
}

#[test]
fn conversions_classify_by_range_containment() {
    // Same signedness: wider or equal target is total.
    assert_eq!(
        conversion_kind(3, Signedness::Unsigned, 5, Signedness::Unsigned),
        ConvKind::Lossless
    );
    assert_eq!(
        conversion_kind(5, Signedness::Unsigned, 5, Signedness::Unsigned),
        ConvKind::Lossless
    );
    assert_eq!(
        conversion_kind(6, Signedness::Unsigned, 5, Signedness::Unsigned),
        ConvKind::Checked
    );
    assert_eq!(
        conversion_kind(12, Signedness::Signed, 13, Signedness::Signed),
        ConvKind::Lossless
    );
    // Unsigned into signed needs one extra bit.
    assert_eq!(
        conversion_kind(7, Signedness::Unsigned, 8, Signedness::Signed),
        ConvKind::Lossless
    );
    assert_eq!(
        conversion_kind(7, Signedness::Unsigned, 7, Signedness::Signed),
        ConvKind::Checked
    );
    // Signed into unsigned is never total.
    assert_eq!(
        conversion_kind(3, Signedness::Signed, 100, Signedness::Unsigned),
        ConvKind::Checked
    );
}

#[test]
fn pointer_width_conversions_are_fixed_per_build() {
    // Wider than the pointer: in is total, out is checked.
    assert_eq!(usize_conversion_kind(100, 64), ConvKind::Lossless);
    assert_eq!(to_usize_conversion_kind(100, 64), ConvKind::Checked);
    // Equal: both directions total.
    assert_eq!(usize_conversion_kind(64, 64), ConvKind::Lossless);
    assert_eq!(to_usize_conversion_kind(64, 64), ConvKind::Lossless);
    // Narrower: in is checked, out is total.
    assert_eq!(usize_conversion_kind(16, 64), ConvKind::Checked);
    assert_eq!(to_usize_conversion_kind(16, 64), ConvKind::Lossless);
}

#[test]
fn operator_output_widths() {
    // Widening add: one more than the wider operand, while below the cap.
    assert_eq!(add_output_width(MAX_WIDTH, 7, 7), Some(8));
    assert_eq!(add_output_width(MAX_WIDTH, 3, 9), Some(10));
    assert_eq!(add_output_width(MAX_WIDTH, 127, 3), None);
    assert_eq!(add_output_width(8, 7, 7), Some(8));
    assert_eq!(add_output_width(8, 8, 3), None);
    // Multiplication: the width sum, while it fits the cap.
    assert_eq!(mul_output_width(MAX_WIDTH, 3, 4), Some(7));
    assert_eq!(mul_output_width(MAX_WIDTH, 64, 63), Some(127));
    assert_eq!(mul_output_width(MAX_WIDTH, 64, 64), None);
    // Remainder: the narrower operand.
    assert_eq!(rem_output_width(9, 4), 4);
    assert_eq!(rem_output_width(4, 9), 4);
    assert_eq!(rem_output_width(6, 6), 6);
}

#[test]
fn mask_is_the_low_bits_of_the_width() {
    assert_eq!(mask_of(1), 0b1);
    assert_eq!(mask_of(7), 0x7F);
    assert_eq!(mask_of(8), 0xFF);
    assert_eq!(mask_of(12), 0xFFF);
    assert_eq!(mask_of(127), (1u128 << 127) - 1);
}

#[test]
fn ranges_span_a_power_of_two() {
    for w in [1u32, 7, 8, 9, 64, 127] {
        let span = Uint::max_value(w).value - Uint::min_value(w).value;
        let sspan = (Sint::max_value(w).value as i128 - Sint::min_value(w).value) as u128;
        // Both interpretations hold exactly 2^w distinct values.
        assert_eq!(span, sspan);
        if w < 127 {
            assert_eq!(span + 1, 1u128 << w);
        } else {
            assert_eq!(span, u128::MAX >> 1);
        }
    }
}

#[test]
fn descriptor_carries_the_mask() {
    assert_eq!(describe(7, Signedness::Unsigned).mask, 0x7F);
    assert_eq!(describe(12, Signedness::Signed).mask, 0xFFF);
    assert_eq!(describe(64, Signedness::Unsigned).mask, u64::MAX as u128);
}
