//! Family-wide laws: the guarantees that hold across every width, stated
//! once over the mathematical model and proved for all of them at once.

use vstd::prelude::*;
use vstd::arithmetic::power2::{pow2, lemma_pow2_pos, lemma_pow2_strictly_increases};
use vstd::arithmetic::div_mod::{
    lemma_fundamental_div_mod_converse_mod, lemma_mod_self_0, lemma_small_mod,
};
use vstd::math::max;
use crate::policy::{
    byte_length_of, in_signed_range, in_unsigned_range, lemma_byte_length_exact,
    lemma_mul_bounds_product, lemma_ranges_fit_storage, lemma_widening_step, smax, smin, umax,
    valid_width, wrap_signed, wrap_unsigned, MAX_WIDTH,
};
use crate::bytes::{
    be_bytes_of, be_value, le_bytes_of, le_value, lemma_be_round_trip, lemma_le_round_trip,
    lemma_signed_pattern_round_trip, signed_pattern, signed_value,
};
use crate::fmt::{char_bytes, formatted, formatted_signed};
use crate::parse::{digit_value, is_digit, parse_signed, parse_unsigned, MINUS_SIGN, PLUS_SIGN};

verus! {

/// Byte round trip, unsigned: the minimal big- or little-endian
/// representation of any representable value decodes back to exactly
/// that value, for every width of the family.
pub proof fn lemma_unsigned_byte_round_trip(w: nat, v: int)
    requires
        valid_width(w),
        in_unsigned_range(w, v),
    ensures
        be_value(be_bytes_of(v as nat, byte_length_of(w))) == v,
        le_value(le_bytes_of(v as nat, byte_length_of(w))) == v,
{
    let nb = 8 * byte_length_of(w);
    lemma_byte_length_exact(w);
    if w < nb {
        lemma_pow2_strictly_increases(w, nb);
    }
    lemma_be_round_trip(v as nat, byte_length_of(w));
    lemma_le_round_trip(v as nat, byte_length_of(w));
    lemma_small_mod(v as nat, pow2(nb));
}

/// Byte round trip, signed: the sign-extended two's-complement
/// representation of any representable value decodes back to exactly
/// that value, for every width of the family.
pub proof fn lemma_signed_byte_round_trip(w: nat, v: int)
    requires
        valid_width(w),
        in_signed_range(w, v),
    ensures
        signed_value(
            be_value(be_bytes_of(signed_pattern(v, 8 * byte_length_of(w)), byte_length_of(w))),
            8 * byte_length_of(w),
        ) == v,
        signed_value(
            le_value(le_bytes_of(signed_pattern(v, 8 * byte_length_of(w)), byte_length_of(w))),
            8 * byte_length_of(w),
        ) == v,
{
    let nb = 8 * byte_length_of(w);
    lemma_byte_length_exact(w);
    lemma_signed_pattern_round_trip(w, nb, v);
    let u = signed_pattern(v, nb);
    lemma_be_round_trip(u, byte_length_of(w));
    lemma_le_round_trip(u, byte_length_of(w));
    lemma_small_mod(u, pow2(nb));
}

/// Widening addition and subtraction never overflow: for operand widths
/// below the family cap, the exact sum and difference of any two values
/// from the operand ranges lie in the output range of width
/// `max(a, b) + 1`, for the unsigned and the signed interpretation
/// alike.
pub proof fn lemma_widening_add_never_overflows(a: nat, b: nat, x: int, y: int)
    requires
        valid_width(a),
        valid_width(b),
        max(a as int, b as int) < MAX_WIDTH,
    ensures
        in_unsigned_range(a, x) && in_unsigned_range(b, y) ==> in_unsigned_range(
            (max(a as int, b as int) + 1) as nat,
            x + y,
        ),
        in_signed_range(a, x) && in_signed_range(b, y) ==> in_signed_range(
            (max(a as int, b as int) + 1) as nat,
            x + y,
        ),
        in_unsigned_range(a, x) && in_unsigned_range(b, y) ==> in_signed_range(
            (max(a as int, b as int) + 1) as nat,
            x - y,
        ),
        in_signed_range(a, x) && in_signed_range(b, y) ==> in_signed_range(
            (max(a as int, b as int) + 1) as nat,
            x - y,
        ),
{
    let o = (max(a as int, b as int) + 1) as nat;
    lemma_widening_step(a, b, o);
    lemma_ranges_fit_storage(a);
    lemma_ranges_fit_storage(b);
}

/// The widening output range strictly contains the interval the operand
/// ranges can reach on the high side: the chosen width leaves headroom,
/// so the overflow assertion of a widening operation can never fire.
pub proof fn lemma_widening_output_strictly_contains(a: nat, b: nat)
    requires
        valid_width(a),
        valid_width(b),
        max(a as int, b as int) < MAX_WIDTH,
    ensures
        umax(a) + umax(b) < umax((max(a as int, b as int) + 1) as nat),
        smax(a) + smax(b) < smax((max(a as int, b as int) + 1) as nat),
        smin((max(a as int, b as int) + 1) as nat) <= smin(a) + smin(b),
{
    lemma_widening_step(a, b, (max(a as int, b as int) + 1) as nat);
}

/// Wrapping at the boundary of a width: one past the unsigned maximum
/// wraps to the minimum, and one below the signed minimum wraps to the
/// maximum.
pub proof fn lemma_wrapping_boundary(w: nat)
    requires
        valid_width(w),
    ensures
        wrap_unsigned(umax(w) + 1, w) == 0,
        wrap_signed(smin(w) + (-1), w) == smax(w),
{
    let p = pow2(w) as int;
    let h = pow2((w - 1) as nat) as int;
    lemma_pow2_pos(w);
    lemma_pow2_pos((w - 1) as nat);
    vstd::arithmetic::power2::lemma_pow2_unfold(w);
    lemma_mod_self_0(p);
    lemma_fundamental_div_mod_converse_mod(-1, p, -1, p - 1);
    assert(smin(w) + (-1) + h == -1);
}

/// The multiplication width-sum rule never overflows: the product of the
/// two unsigned maxima of widths `a` and `b` stays strictly below the
/// maximum of width `a + b`.
pub proof fn lemma_mul_width_sum(a: nat, b: nat)
    requires
        valid_width(a),
        valid_width(b),
        a + b <= MAX_WIDTH,
    ensures
        umax(a) * umax(b) < umax((a + b) as nat),
{
    lemma_mul_bounds_product(a, b);
}

/// The narrowing-conversion boundary: a width's maximum is the largest
/// value its range admits, so converting one past it must fail while the
/// maximum itself converts and rounds back, and likewise one below the
/// signed minimum.
pub proof fn lemma_narrowing_boundary(w: nat)
    requires
        valid_width(w),
    ensures
        in_unsigned_range(w, umax(w)),
        !in_unsigned_range(w, umax(w) + 1),
        in_signed_range(w, smax(w)),
        !in_signed_range(w, smax(w) + 1),
        in_signed_range(w, smin(w)),
        !in_signed_range(w, smin(w) - 1),
{
    lemma_ranges_fit_storage(w);
}

/// Text round trip, unsigned: any character sequence that formats a
/// non-negative value parses back to exactly that value.
pub proof fn lemma_format_parse_round_trip(s: Seq<char>, radix: nat, uppercase: bool, value: int)
    requires
        2 <= radix <= 36,
        0 <= value,
        formatted(s, radix, uppercase, value),
    ensures
        parse_unsigned(char_bytes(s), radix) == Some(value as nat),
{
    let bs = char_bytes(s);
    assert(is_digit(bs[0], radix));
    assert(digit_value(PLUS_SIGN) == 99);
    assert(bs[0] != PLUS_SIGN);
}

/// Text round trip, signed: any character sequence that formats a value,
/// sign included, parses back to exactly that value.
pub proof fn lemma_format_parse_round_trip_signed(
    s: Seq<char>,
    radix: nat,
    uppercase: bool,
    value: int,
)
    requires
        2 <= radix <= 36,
        formatted_signed(s, radix, uppercase, value),
    ensures
        parse_signed(char_bytes(s), radix) == Some(value),
{
    let bs = char_bytes(s);
    if value >= 0 {
        lemma_format_parse_round_trip(s, radix, uppercase, value);
        assert(is_digit(bs[0], radix));
        assert(bs[0] != MINUS_SIGN);
    } else {
        assert(bs[0] == MINUS_SIGN);
        let ds = char_bytes(s.drop_first());
        assert(bs.drop_first() =~= ds);
        assert(is_digit(ds[0], radix));
    }
}

} // verus!
