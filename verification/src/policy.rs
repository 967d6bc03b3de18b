//! The width policy: everything that is derived from a bit width alone.
//!
//! For each width `1..=127` this module fixes the storage width (the
//! smallest power-of-two native width that covers it), the numeric range
//! for the unsigned and the signed interpretation, the mask, and the
//! minimal byte length of the external representation. On top of that it
//! defines the cross-width relation table: which conversions are lossless,
//! and which output width each widening operator must use so that it can
//! never overflow.

use vstd::prelude::*;
use vstd::arithmetic::power2::{
    pow2, lemma_pow2_adds, lemma_pow2_pos, lemma_pow2_strictly_increases, lemma_pow2_unfold,
    lemma2_to64, lemma2_to64_rest,
};
use vstd::arithmetic::power2::is_pow2;
use vstd::arithmetic::div_mod::{
    lemma_mod_bound, lemma_mod_division_less_than_divisor, lemma_small_mod,
};
use vstd::math::{abs, max, min};

verus! {

/// Largest width the family supports: every value fits the 128-bit native
/// storage, signed values in two's complement.
pub const MAX_WIDTH: u32 = 127;

/// Whether a width descriptor speaks of the unsigned or the signed type of
/// its width.
#[derive(Debug, Clone, Copy, PartialEq, Eq, Structural)]
pub enum Signedness {
    Unsigned,
    Signed,
}

/// A width is one the family defines a pair of types for.
pub open spec fn valid_width(w: nat) -> bool {
    1 <= w <= MAX_WIDTH
}

/// Largest value of the unsigned type of width `w`: `2^w - 1`.
pub open spec fn umax(w: nat) -> int {
    pow2(w) - 1
}

/// Largest value of the signed type of width `w`: `2^(w-1) - 1`.
pub open spec fn smax(w: nat) -> int
    recommends
        w >= 1,
{
    pow2((w - 1) as nat) - 1
}

/// Smallest value of the signed type of width `w`: `-2^(w-1)`.
pub open spec fn smin(w: nat) -> int
    recommends
        w >= 1,
{
    -pow2((w - 1) as nat)
}

/// The unsigned range of width `w` as a predicate on mathematical integers.
pub open spec fn in_unsigned_range(w: nat, v: int) -> bool {
    0 <= v <= umax(w)
}

/// The signed range of width `w` as a predicate on mathematical integers.
pub open spec fn in_signed_range(w: nat, v: int) -> bool {
    smin(w) <= v <= smax(w)
}

/// Concrete values of the powers of two the policy leans on most:
/// `2^126`, `2^127` and `2^128` written out, tying `pow2` to the `u128`
/// and `i128` storage bounds.
pub proof fn lemma_pow2_storage_bounds()
    ensures
        pow2(126) == 0x40000000000000000000000000000000,
        pow2(127) == 0x80000000000000000000000000000000,
        pow2(128) == 0x100000000000000000000000000000000,
        pow2(127) - 1 <= u128::MAX,
        pow2(126) - 1 <= i128::MAX,
        -(pow2(126) as int) >= i128::MIN,
{
    lemma2_to64();
    lemma2_to64_rest();
    lemma_pow2_adds(64, 62);
    lemma_pow2_adds(64, 63);
    lemma_pow2_adds(64, 64);
}

/// Every valid width's unsigned range fits the `u128` storage and its
/// signed range fits the `i128` storage.
pub proof fn lemma_ranges_fit_storage(w: nat)
    requires
        valid_width(w),
    ensures
        0 < pow2(w) <= pow2(127) == 0x80000000000000000000000000000000,
        0 < pow2((w - 1) as nat) <= pow2(126) == 0x40000000000000000000000000000000,
        umax(w) <= u128::MAX,
        smax(w) <= i128::MAX,
        smin(w) >= i128::MIN,
        smin(w) < 0 <= smax(w),
{
    lemma_pow2_storage_bounds();
    lemma_pow2_pos(w);
    lemma_pow2_pos((w - 1) as nat);
    if w < 127 {
        lemma_pow2_strictly_increases(w, 127);
    }
    if w - 1 < 126 {
        lemma_pow2_strictly_increases((w - 1) as nat, 126);
    }
    lemma_pow2_pos(126);
}

/// The storage width chosen for a logical width: the smallest power of
/// two among 8, 16, 32, 64 and 128 that covers it.
pub open spec fn storage_width_of(w: nat) -> nat {
    if w <= 8 {
        8
    } else if w <= 16 {
        16
    } else if w <= 32 {
        32
    } else if w <= 64 {
        64
    } else {
        128
    }
}

/// Length in bytes of the minimal external representation: `ceil(w / 8)`.
pub open spec fn byte_length_of(w: nat) -> nat {
    (w + 7) / 8
}

/// The storage policy is the unique minimal power-of-two cover of the
/// logical width (never below the 8-bit floor): it is a power of two, it
/// covers the width, and the next smaller power of two does not.
pub proof fn lemma_storage_width_minimal(w: nat)
    requires
        valid_width(w),
    ensures
        is_pow2(storage_width_of(w) as int),
        storage_width_of(w) >= w,
        storage_width_of(w) >= 8,
        storage_width_of(w) == 8 || storage_width_of(w) / 2 < w,
{
    reveal_with_fuel(is_pow2, 9);
    assert(is_pow2(8) && is_pow2(16) && is_pow2(32) && is_pow2(64) && is_pow2(128));
}

/// The byte length is the exact cover in whole bytes: `byte_length_of(w)`
/// bytes hold at least `w` bits, and one byte fewer would not.
pub proof fn lemma_byte_length_exact(w: nat)
    requires
        valid_width(w),
    ensures
        w <= 8 * byte_length_of(w),
        8 * (byte_length_of(w) - 1) < w,
        1 <= byte_length_of(w) <= 16,
{
}

/// A width descriptor: what generation derives from a width and a
/// signedness alone.
#[derive(Debug, Clone, Copy, PartialEq, Eq, Structural)]
pub struct WidthInfo {
    /// The exact logical width in bits.
    pub width: u32,
    /// Which of the width's two types is described.
    pub signedness: Signedness,
    /// Bits of the smallest native integer that holds the value.
    pub storage_width: u32,
    /// The truncation mask: the low `width` bits of the storage set.
    pub mask: u128,
    /// Bytes of the minimal external byte representation.
    pub byte_length: u32,
}

/// Derive the width descriptor for a width.
pub fn describe(width: u32, signedness: Signedness) -> (r: WidthInfo)
    requires
        valid_width(width as nat),
    ensures
        r.width == width,
        r.signedness == signedness,
        r.storage_width == storage_width_of(width as nat),
        r.mask == umax(width as nat),
        r.byte_length == byte_length_of(width as nat),
{
    proof {
        lemma_ranges_fit_storage(width as nat);
    }
    let mask = pow2_u128(width) - 1;
    let storage_width: u32 = if width <= 8 {
        8
    } else if width <= 16 {
        16
    } else if width <= 32 {
        32
    } else if width <= 64 {
        64
    } else {
        128
    };
    WidthInfo { width, signedness, storage_width, mask, byte_length: (width + 7) / 8 }
}

/// Lowest value representable at a width under a signedness.
pub open spec fn range_lo(w: nat, s: Signedness) -> int {
    match s {
        Signedness::Unsigned => 0,
        Signedness::Signed => smin(w),
    }
}

/// Highest value representable at a width under a signedness.
pub open spec fn range_hi(w: nat, s: Signedness) -> int {
    match s {
        Signedness::Unsigned => umax(w),
        Signedness::Signed => smax(w),
    }
}

/// Both interpretations of a width hold exactly `2^w` distinct values:
/// the range spans `2^w` for unsigned and for signed alike.
pub proof fn lemma_range_cardinality(w: nat)
    requires
        valid_width(w),
    ensures
        range_hi(w, Signedness::Unsigned) - range_lo(w, Signedness::Unsigned) + 1 == pow2(w),
        range_hi(w, Signedness::Signed) - range_lo(w, Signedness::Signed) + 1 == pow2(w),
{
    lemma_pow2_unfold(w);
}

/// Classification of a conversion in the cross-width relation table:
/// either every source value is representable in the target (total,
/// infallible), or the conversion must be range-checked and may fail.
#[derive(Debug, Clone, Copy, PartialEq, Eq, Structural)]
pub enum ConvKind {
    Lossless,
    Checked,
}

/// Classify the conversion from the type `(from_width, from_sign)` to the
/// type `(to_width, to_sign)`.
///
/// The rule is `Lossless` exactly when the source range is contained in
/// the target range, so a `Lossless` verdict is a proof that no value can
/// be lost and a `Checked` verdict a proof that some value would be.
pub fn conversion_kind(from_width: u32, from_sign: Signedness, to_width: u32, to_sign: Signedness)
    -> (r: ConvKind)
    requires
        valid_width(from_width as nat),
        valid_width(to_width as nat),
    ensures
        r == ConvKind::Lossless <==> (range_lo(to_width as nat, to_sign) <= range_lo(
            from_width as nat,
            from_sign,
        ) && range_hi(from_width as nat, from_sign) <= range_hi(to_width as nat, to_sign)),
{
    proof {
        lemma_conv_ranges(from_width as nat, to_width as nat);
    }
    let lossless: bool = match (from_sign, to_sign) {
        (Signedness::Unsigned, Signedness::Unsigned) => from_width <= to_width,
        (Signedness::Signed, Signedness::Signed) => from_width <= to_width,
        (Signedness::Unsigned, Signedness::Signed) => from_width < to_width,
        (Signedness::Signed, Signedness::Unsigned) => false,
    };
    if lossless {
        ConvKind::Lossless
    } else {
        ConvKind::Checked
    }
}

/// Monotonicity facts behind the conversion classification.
proof fn lemma_conv_ranges(a: nat, b: nat)
    requires
        valid_width(a),
        valid_width(b),
    ensures
        a <= b ==> pow2(a) <= pow2(b),
        a > b ==> pow2(a) > pow2(b),
        (a - 1) as nat <= (b - 1) as nat ==> pow2((a - 1) as nat) <= pow2((b - 1) as nat),
        (a - 1) as nat > (b - 1) as nat ==> pow2((a - 1) as nat) > pow2((b - 1) as nat),
        a <= (b - 1) as nat ==> pow2(a) <= pow2((b - 1) as nat),
        a > (b - 1) as nat ==> pow2(a) > pow2((b - 1) as nat),
        pow2((a - 1) as nat) < pow2(a),
        pow2((a - 1) as nat) >= 1,
        pow2((b - 1) as nat) >= 1,
        pow2(a) >= 2,
        pow2(b) >= 2,
{
    lemma_pow2_pos((a - 1) as nat);
    lemma_pow2_pos((b - 1) as nat);
    lemma_pow2_unfold(a);
    lemma_pow2_unfold(b);
    if a < b {
        lemma_pow2_strictly_increases(a, b);
    }
    if a > b {
        lemma_pow2_strictly_increases(b, a);
    }
    if ((a - 1) as nat) < ((b - 1) as nat) {
        lemma_pow2_strictly_increases((a - 1) as nat, (b - 1) as nat);
    }
    if ((a - 1) as nat) > ((b - 1) as nat) {
        lemma_pow2_strictly_increases((b - 1) as nat, (a - 1) as nat);
    }
    if a < ((b - 1) as nat) {
        lemma_pow2_strictly_increases(a, (b - 1) as nat);
    }
    if a > ((b - 1) as nat) {
        lemma_pow2_strictly_increases((b - 1) as nat, a);
    }
    lemma_pow2_strictly_increases((a - 1) as nat, a);
}

/// `2^w` computed in the `u128` storage.
///
/// Written as a plain doubling loop so that the result is tied to the
/// mathematical `pow2` without any bit-level reasoning.
pub fn pow2_u128(w: u32) -> (r: u128)
    requires
        w <= 127,
    ensures
        r == pow2(w as nat),
{
    proof {
        lemma_pow2_storage_bounds();
        lemma2_to64();
    }
    let mut i: u32 = 0;
    let mut r: u128 = 1;
    while i < w
        invariant
            i <= w <= 127,
            r == pow2(i as nat),
        decreases w - i,
    {
        proof {
            lemma_pow2_unfold((i + 1) as nat);
            lemma_pow2_storage_bounds();
            if (i as nat) < 127 {
                lemma_pow2_strictly_increases(i as nat, 127);
            }
        }
        r = r * 2;
        i = i + 1;
    }
    r
}

/// The truncation mask of a width: the low `w` bits of the storage set.
/// A storage value is reduced to the width by keeping exactly these
/// bits; the mask is degenerate (all storage bits of interest) exactly
/// when the width equals its storage width.
pub fn mask_of(width: u32) -> (r: u128)
    requires
        valid_width(width as nat),
    ensures
        r == umax(width as nat),
{
    proof {
        lemma_ranges_fit_storage(width as nat);
    }
    let p = pow2_u128(width);
    p - 1
}

/// Division rounding toward zero, as the native signed machine division
/// computes it. On non-negative operands it agrees with mathematical
/// (Euclidean) division.
pub open spec fn trunc_div(a: int, b: int) -> int
    recommends
        b != 0,
{
    if (a < 0) == (b < 0) {
        abs(a) as int / abs(b) as int
    } else {
        -(abs(a) as int / abs(b) as int)
    }
}

/// Remainder paired with [`trunc_div`]: it carries the sign of the
/// dividend and its magnitude is `|a| % |b|`.
pub open spec fn trunc_rem(a: int, b: int) -> int
    recommends
        b != 0,
{
    if a < 0 {
        -(abs(a) as int % abs(b) as int)
    } else {
        abs(a) as int % abs(b) as int
    }
}

/// The truncating quotient and remainder recompose the dividend:
/// `a == b * trunc_div(a, b) + trunc_rem(a, b)`.
pub proof fn lemma_trunc_div_rem_identity(a: int, b: int)
    requires
        b != 0,
    ensures
        a == b * trunc_div(a, b) + trunc_rem(a, b),
{
    let m = abs(a) as int;
    let n = abs(b) as int;
    vstd::arithmetic::div_mod::lemma_fundamental_div_mod(m, n);
    let q = m / n;
    let r = m % n;
    assert(m == q * n + r) by (nonlinear_arith)
        requires
            m == n * q + r,
    ;
    if a >= 0 && b > 0 {
        assert(b * trunc_div(a, b) == q * n) by (nonlinear_arith)
            requires
                b == n && trunc_div(a, b) == q,
        ;
    } else if a >= 0 && b < 0 {
        assert(b * trunc_div(a, b) == q * n) by (nonlinear_arith)
            requires
                b == -n && trunc_div(a, b) == -q,
        ;
    } else if a < 0 && b > 0 {
        assert(b * trunc_div(a, b) == -(q * n)) by (nonlinear_arith)
            requires
                b == n && trunc_div(a, b) == -q,
        ;
    } else {
        assert(b * trunc_div(a, b) == -(q * n)) by (nonlinear_arith)
            requires
                b == -n && trunc_div(a, b) == q,
        ;
    }
}

/// Value of an unsigned wrapping operation: the mathematical result
/// reduced modulo `2^w` into `[0, 2^w)`.
pub open spec fn wrap_unsigned(v: int, w: nat) -> int {
    v % (pow2(w) as int)
}

/// Value of a signed wrapping operation: the mathematical result reduced
/// modulo `2^w` into the two's-complement window `[-2^(w-1), 2^(w-1))`.
pub open spec fn wrap_signed(v: int, w: nat) -> int
    recommends
        w >= 1,
{
    ((v + pow2((w - 1) as nat)) % (pow2(w) as int)) - pow2((w - 1) as nat)
}

/// A wrapped unsigned result lies in the unsigned range and is congruent
/// to the true result modulo `2^w`; it is the true result itself whenever
/// that result is in range.
pub proof fn lemma_wrap_unsigned_range(v: int, w: nat)
    requires
        valid_width(w),
    ensures
        in_unsigned_range(w, wrap_unsigned(v, w)),
        in_unsigned_range(w, v) ==> wrap_unsigned(v, w) == v,
{
    lemma_pow2_pos(w);
    lemma_mod_bound(v, pow2(w) as int);
    if in_unsigned_range(w, v) {
        lemma_small_mod(v as nat, pow2(w));
    }
}

/// A wrapped signed result lies in the signed range and is congruent to
/// the true result modulo `2^w`; it is the true result itself whenever
/// that result is in range.
pub proof fn lemma_wrap_signed_range(v: int, w: nat)
    requires
        valid_width(w),
    ensures
        in_signed_range(w, wrap_signed(v, w)),
        in_signed_range(w, v) ==> wrap_signed(v, w) == v,
{
    lemma_pow2_pos(w);
    lemma_pow2_pos((w - 1) as nat);
    lemma_pow2_unfold(w);
    lemma_mod_bound(v + pow2((w - 1) as nat), pow2(w) as int);
    if in_signed_range(w, v) {
        lemma_small_mod((v + pow2((w - 1) as nat)) as nat, pow2(w));
    }
}

/// Output width of the widening addition and subtraction of operand
/// widths `a` and `b` in a family capped at `maximum`: one more bit than
/// the wider operand, defined exactly when that still fits the family.
///
/// The chosen width is the smallest that makes overflow impossible: the
/// sum or difference of any two values from the operand ranges lies
/// strictly inside the output range.
pub fn add_output_width(maximum: u32, a: u32, b: u32) -> (r: Option<u32>)
    requires
        valid_width(maximum as nat),
        valid_width(a as nat),
        valid_width(b as nat),
        a <= maximum,
        b <= maximum,
    ensures
        r is Some <==> max(a as int, b as int) < maximum,
        r matches Some(o) ==> {
            &&& o == max(a as int, b as int) + 1
            &&& valid_width(o as nat)
            &&& umax(a as nat) + umax(b as nat) < umax(o as nat)
            &&& smin(o as nat) <= smin(a as nat) + smin(b as nat)
            &&& smax(a as nat) + smax(b as nat) < smax(o as nat)
            &&& smin(o as nat) < -umax(b as nat)
            &&& umax(a as nat) <= smax(o as nat)
            &&& smin(o as nat) < smin(a as nat) - smax(b as nat)
            &&& smax(a as nat) - smin(b as nat) <= smax(o as nat)
        },
{
    let wider: u32 = if a >= b {
        a
    } else {
        b
    };
    if wider < maximum {
        proof {
            lemma_widening_step(a as nat, b as nat, (wider + 1) as nat);
        }
        Some(wider + 1)
    } else {
        None
    }
}

/// Range containment behind the `+1` widening rule: the sum or
/// difference of any two operand-range bounds lies inside the output
/// range, with room to spare on the high side.
pub proof fn lemma_widening_step(a: nat, b: nat, o: nat)
    requires
        valid_width(a),
        valid_width(b),
        valid_width(o),
        o == max(a as int, b as int) + 1,
    ensures
        umax(a) + umax(b) < umax(o),
        smin(o) <= smin(a) + smin(b),
        smax(a) + smax(b) < smax(o),
        smin(o) < -umax(b),
        umax(a) <= smax(o),
        smin(o) < smin(a) - smax(b),
        smax(a) - smin(b) <= smax(o),
{
    let m = (o - 1) as nat;
    lemma_pow2_unfold(o);
    lemma_pow2_pos(m);
    lemma_pow2_pos((a - 1) as nat);
    lemma_pow2_pos((b - 1) as nat);
    if a < m {
        lemma_pow2_strictly_increases(a, m);
    }
    if b < m {
        lemma_pow2_strictly_increases(b, m);
    }
    if ((a - 1) as nat) < m {
        lemma_pow2_strictly_increases((a - 1) as nat, m);
    }
    if ((b - 1) as nat) < m {
        lemma_pow2_strictly_increases((b - 1) as nat, m);
    }
    lemma_pow2_unfold(m);
    if ((a - 1) as nat) < ((m - 1) as nat) {
        lemma_pow2_strictly_increases((a - 1) as nat, (m - 1) as nat);
    }
    if ((b - 1) as nat) < ((m - 1) as nat) {
        lemma_pow2_strictly_increases((b - 1) as nat, (m - 1) as nat);
    }
}

/// Output width of the widening multiplication of operand widths `a` and
/// `b`: the sum of the operand widths, defined exactly when that sum does
/// not exceed the family cap (no operator is generated past the cap).
///
/// The chosen width is the smallest that holds every product, mirroring
/// schoolbook bit growth; [`lemma_mul_range_unsigned`] and
/// [`lemma_mul_range_signed`] state the per-value guarantee.
pub fn mul_output_width(maximum: u32, a: u32, b: u32) -> (r: Option<u32>)
    requires
        valid_width(maximum as nat),
        valid_width(a as nat),
        valid_width(b as nat),
        a <= maximum,
        b <= maximum,
    ensures
        r is Some <==> a + b <= maximum,
        r matches Some(o) ==> {
            &&& o == a + b
            &&& valid_width(o as nat)
            &&& umax(a as nat) * umax(b as nat) < umax(o as nat)
        },
{
    if b <= maximum - a {
        proof {
            lemma_mul_bounds_product(a as nat, b as nat);
        }
        Some(a + b)
    } else {
        None
    }
}

/// The product of the two unsigned maxima stays strictly under the
/// output maximum: the width-sum rule never overflows.
pub proof fn lemma_mul_bounds_product(a: nat, b: nat)
    requires
        valid_width(a),
        valid_width(b),
        a + b <= MAX_WIDTH,
    ensures
        umax(a) * umax(b) < umax((a + b) as nat),
{
    let p = pow2(a) as int;
    let q = pow2(b) as int;
    lemma_pow2_adds(a, b);
    lemma_pow2_pos(a);
    lemma_pow2_pos(b);
    assert((p - 1) * (q - 1) == p * q - p - q + 1) by (nonlinear_arith);
    assert(p >= 2 && q >= 2) by {
        lemma_pow2_unfold(a);
        lemma_pow2_unfold(b);
        lemma_pow2_pos((a - 1) as nat);
        lemma_pow2_pos((b - 1) as nat);
    }
}

/// Any product of unsigned values of widths `a` and `b` lies in the
/// unsigned range of width `a + b`.
pub proof fn lemma_mul_range_unsigned(a: nat, b: nat, x: int, y: int)
    requires
        valid_width(a),
        valid_width(b),
        a + b <= MAX_WIDTH,
        in_unsigned_range(a, x),
        in_unsigned_range(b, y),
    ensures
        in_unsigned_range((a + b) as nat, x * y),
{
    lemma_mul_bounds_product(a, b);
    assert(0 <= x * y <= umax(a) * umax(b)) by (nonlinear_arith)
        requires
            0 <= x <= umax(a) && 0 <= y <= umax(b),
    ;
}

/// Any product of signed values of widths `a` and `b` lies in the signed
/// range of width `a + b`.
pub proof fn lemma_mul_range_signed(a: nat, b: nat, x: int, y: int)
    requires
        valid_width(a),
        valid_width(b),
        a + b <= MAX_WIDTH,
        in_signed_range(a, x),
        in_signed_range(b, y),
    ensures
        in_signed_range((a + b) as nat, x * y),
{
    let p = pow2((a - 1) as nat) as int;
    let q = pow2((b - 1) as nat) as int;
    lemma_pow2_adds((a - 1) as nat, (b - 1) as nat);
    assert(pow2(((a + b) - 2) as nat) == p * q);
    lemma_pow2_pos((a - 1) as nat);
    lemma_pow2_pos((b - 1) as nat);
    assert(-(p * q) <= x * y <= p * q) by (nonlinear_arith)
        requires
            -p <= x <= p - 1 && -q <= y <= q - 1 && p > 0 && q > 0,
    ;
    lemma_pow2_unfold(((a + b) - 1) as nat);
    lemma_pow2_pos(((a + b) - 2) as nat);
}

/// Output width of the narrowing remainder of operand widths `a` and `b`:
/// the narrower of the two. Defined for every pair; the per-value safety
/// of the narrowing is [`lemma_rem_range_unsigned`] and
/// [`lemma_rem_range_signed`].
pub fn rem_output_width(a: u32, b: u32) -> (r: u32)
    requires
        valid_width(a as nat),
        valid_width(b as nat),
    ensures
        r == min(a as int, b as int),
        valid_width(r as nat),
{
    if a <= b {
        a
    } else {
        b
    }
}

/// The remainder of unsigned values of widths `a` and `b` fits the
/// unsigned range of width `min(a, b)`: it is bounded by the dividend and
/// strictly bounded by the divisor.
pub proof fn lemma_rem_range_unsigned(a: nat, b: nat, x: int, y: int)
    requires
        valid_width(a),
        valid_width(b),
        in_unsigned_range(a, x),
        in_unsigned_range(b, y),
        y != 0,
    ensures
        in_unsigned_range(min(a as int, b as int) as nat, x % y),
        0 <= x % y <= x,
        0 <= x % y < y,
{
    lemma_mod_division_less_than_divisor(x, y);
    if x < y {
        lemma_small_mod(x as nat, y as nat);
    }
    if a < b {
        lemma_pow2_strictly_increases(a, b);
    }
    if b < a {
        lemma_pow2_strictly_increases(b, a);
    }
}

/// The truncating remainder of signed values of widths `a` and `b` fits
/// the signed range of width `min(a, b)`.
///
/// This covers the mixed-sign pairs as well: the magnitude of the
/// remainder is at most the magnitude of the dividend and strictly less
/// than the magnitude of the divisor, so narrowing to the smaller width
/// can never lose a value.
pub proof fn lemma_rem_range_signed(a: nat, b: nat, x: int, y: int)
    requires
        valid_width(a),
        valid_width(b),
        in_signed_range(a, x),
        in_signed_range(b, y),
        y != 0,
    ensures
        in_signed_range(min(a as int, b as int) as nat, trunc_rem(x, y)),
        abs(trunc_rem(x, y)) <= abs(x),
        abs(trunc_rem(x, y)) < abs(y),
{
    let m = abs(x) as int;
    let n = abs(y) as int;
    lemma_mod_division_less_than_divisor(m, n);
    if m < n {
        lemma_small_mod(m as nat, n as nat);
    }
    lemma_pow2_pos((a - 1) as nat);
    lemma_pow2_pos((b - 1) as nat);
    if ((a - 1) as nat) < ((b - 1) as nat) {
        lemma_pow2_strictly_increases((a - 1) as nat, (b - 1) as nat);
    }
    if ((b - 1) as nat) < ((a - 1) as nat) {
        lemma_pow2_strictly_increases((b - 1) as nat, (a - 1) as nat);
    }
}

/// Classify the conversion from the native pointer-sized unsigned integer
/// into the family type of width `width`, for a build whose pointer width
/// is `pointer_width` bits. The pointer width is a generation-time
/// parameter, so the verdict is fixed per build, never a runtime branch.
pub fn usize_conversion_kind(width: u32, pointer_width: u32) -> (r: ConvKind)
    requires
        valid_width(width as nat),
        pointer_width == 16 || pointer_width == 32 || pointer_width == 64,
    ensures
        r == ConvKind::Lossless <==> umax(pointer_width as nat) <= umax(width as nat),
{
    conversion_kind(pointer_width, Signedness::Unsigned, width, Signedness::Unsigned)
}

/// Classify the conversion from the family type of width `width` into the
/// native pointer-sized unsigned integer of `pointer_width` bits.
pub fn to_usize_conversion_kind(width: u32, pointer_width: u32) -> (r: ConvKind)
    requires
        valid_width(width as nat),
        pointer_width == 16 || pointer_width == 32 || pointer_width == 64,
    ensures
        r == ConvKind::Lossless <==> umax(width as nat) <= umax(pointer_width as nat),
{
    conversion_kind(width, Signedness::Unsigned, pointer_width, Signedness::Unsigned)
}

/// Classify the conversion from the native pointer-sized signed integer
/// into the family type of width `width`.
pub fn isize_conversion_kind(width: u32, pointer_width: u32) -> (r: ConvKind)
    requires
        valid_width(width as nat),
        pointer_width == 16 || pointer_width == 32 || pointer_width == 64,
    ensures
        r == ConvKind::Lossless <==> (smin(width as nat) <= smin(pointer_width as nat) && smax(
            pointer_width as nat,
        ) <= smax(width as nat)),
{
    conversion_kind(pointer_width, Signedness::Signed, width, Signedness::Signed)
}

/// Classify the conversion from the family type of width `width` into the
/// native pointer-sized signed integer of `pointer_width` bits.
pub fn to_isize_conversion_kind(width: u32, pointer_width: u32) -> (r: ConvKind)
    requires
        valid_width(width as nat),
        pointer_width == 16 || pointer_width == 32 || pointer_width == 64,
    ensures
        r == ConvKind::Lossless <==> (smin(pointer_width as nat) <= smin(width as nat) && smax(
            width as nat,
        ) <= smax(pointer_width as nat)),
{
    conversion_kind(width, Signedness::Signed, pointer_width, Signedness::Signed)
}

} // verus!
