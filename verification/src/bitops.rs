//! The bit-level model shared by the bitwise and wrapping operations:
//! the two's-complement bit pattern of a value at a given width, the
//! decoding of such a pattern, and the few facts that tie `u128` shifts
//! and masks to the mathematical `pow2`.

use vstd::prelude::*;
use vstd::arithmetic::power2::{pow2, lemma_pow2_pos, lemma_pow2_strictly_increases,
    lemma_pow2_unfold, lemma2_to64};
use vstd::arithmetic::div_mod::{
    lemma_add_mod_noop, lemma_fundamental_div_mod_converse_mod, lemma_mod_bound, lemma_small_mod,
};
use crate::policy::{
    in_signed_range, lemma_ranges_fit_storage, pow2_u128, umax, valid_width,
    wrap_signed,
};

verus! {

/// The width-`w` two's-complement bit pattern of a mathematical integer:
/// its residue modulo `2^w`, held in the `u128` storage.
pub open spec fn bits_of(v: int, w: nat) -> u128
    recommends
        w <= 127,
{
    (v % (pow2(w) as int)) as u128
}

/// The signed value a width-`w` two's-complement pattern stands for:
/// patterns with the sign bit clear keep their value, the rest drop by
/// `2^w`.
pub open spec fn value_of_bits(bits: u128, w: nat) -> int
    recommends
        1 <= w <= 127,
        bits < pow2(w),
{
    if bits < pow2((w - 1) as nat) {
        bits as int
    } else {
        bits - pow2(w)
    }
}

/// A pattern is always in `[0, 2^w)`, and an in-range unsigned value is
/// its own pattern.
pub proof fn lemma_bits_of_range(v: int, w: nat)
    requires
        valid_width(w),
    ensures
        bits_of(v, w) < pow2(w),
        bits_of(v, w) == v % (pow2(w) as int),
        0 <= v <= umax(w) ==> bits_of(v, w) == v,
{
    lemma_pow2_pos(w);
    lemma_ranges_fit_storage(w);
    lemma_mod_bound(v, pow2(w) as int);
    if 0 <= v <= umax(w) {
        lemma_small_mod(v as nat, pow2(w));
    }
}

/// The pattern of an in-range signed value: the value itself when it is
/// non-negative, and `v + 2^w` when it is negative.
pub proof fn lemma_bits_of_signed(v: int, w: nat)
    requires
        valid_width(w),
        in_signed_range(w, v),
    ensures
        bits_of(v, w) < pow2(w),
        v >= 0 ==> bits_of(v, w) == v,
        v < 0 ==> bits_of(v, w) == v + pow2(w),
        value_of_bits(bits_of(v, w), w) == v,
{
    lemma_pow2_pos(w);
    lemma_pow2_unfold(w);
    lemma_pow2_pos((w - 1) as nat);
    lemma_bits_of_range(v, w);
    if v >= 0 {
        lemma_small_mod(v as nat, pow2(w));
    } else {
        lemma_fundamental_div_mod_converse_mod(v, pow2(w) as int, -1, v + pow2(w));
    }
}

/// Decoding the pattern of any mathematical integer yields exactly the
/// signed wraparound of that integer.
pub proof fn lemma_value_of_bits_wraps(v: int, w: nat)
    requires
        valid_width(w),
    ensures
        value_of_bits(bits_of(v, w), w) == wrap_signed(v, w),
{
    let p = pow2(w) as int;
    let h = pow2((w - 1) as nat) as int;
    lemma_pow2_pos(w);
    lemma_pow2_pos((w - 1) as nat);
    lemma_pow2_unfold(w);
    lemma_bits_of_range(v, w);
    let u = v % p;
    lemma_mod_bound(v + h, p);
    lemma_small_mod(h as nat, p as nat);
    if u < h {
        lemma_add_mod_noop(v, h, p);
        lemma_small_mod((u + h) as nat, p as nat);
        assert((v + h) % p == (u + h) % p);
    } else {
        lemma_add_mod_noop(v, h, p);
        lemma_fundamental_div_mod_converse_mod(u + h, p, 1, u + h - p);
        assert((v + h) % p == (u + h) % p);
    }
}

/// The residue of a negated number: zero when the number divides
/// evenly, and the divisor's complement of its residue otherwise.
pub proof fn lemma_neg_mod(m: int, p: int)
    requires
        m >= 0,
        p > 0,
    ensures
        (-m) % p == if m % p == 0 {
            0int
        } else {
            p - (m % p)
        },
{
    let q = m / p;
    let r = m % p;
    vstd::arithmetic::div_mod::lemma_fundamental_div_mod(m, p);
    if r == 0 {
        assert(-m == (-q) * p + 0) by (nonlinear_arith)
            requires
                m == p * q + r && r == 0,
        ;
        lemma_fundamental_div_mod_converse_mod(-m, p, -q, 0);
    } else {
        assert(-m == (-q - 1) * p + (p - r)) by (nonlinear_arith)
            requires
                m == p * q + r,
        ;
        lemma_fundamental_div_mod_converse_mod(-m, p, -q - 1, p - r);
    }
}

/// `1 << w` on the storage type is `2^w`.
pub proof fn lemma_shl_pow2(w: u128)
    requires
        w < 128,
    ensures
        (1u128 << w) == pow2(w as nat),
    decreases w,
{
    if w == 0 {
        assert(1u128 << 0u128 == 1) by (bit_vector);
        lemma2_to64();
    } else {
        lemma_shl_pow2((w - 1) as u128);
        lemma_pow2_unfold(w as nat);
        lemma_pow2_pos((w - 1) as nat);
        if w as nat - 1 < 127 {
            lemma_pow2_strictly_increases((w - 1) as nat, 127);
        }
        crate::policy::lemma_pow2_storage_bounds();
        assert(1u128 << w == (1u128 << (w - 1) as u128) + (1u128 << (w - 1) as u128))
            by (bit_vector)
            requires
                0 < w < 128,
        ;
    }
}

/// The bitwise operations never leave the width: combining two patterns
/// below `2^w` stays below `2^w`.
pub proof fn lemma_bitwise_bounds(x: u128, y: u128, w: u128)
    requires
        1 <= w <= 127,
        x < pow2(w as nat),
        y < pow2(w as nat),
    ensures
        (x & y) < pow2(w as nat),
        (x | y) < pow2(w as nat),
        (x ^ y) < pow2(w as nat),
{
    lemma_shl_pow2(w);
    assert((x & y) < (1u128 << w) && (x | y) < (1u128 << w) && (x ^ y) < (1u128 << w))
        by (bit_vector)
        requires
            w < 128 && x < (1u128 << w) && y < (1u128 << w),
    ;
}

/// Turn an in-range signed value into its width-`w` pattern.
pub fn encode_signed(v: i128, w: u32) -> (r: u128)
    requires
        valid_width(w as nat),
        in_signed_range(w as nat, v as int),
    ensures
        r == bits_of(v as int, w as nat),
        r < pow2(w as nat),
    {
    proof {
        lemma_ranges_fit_storage(w as nat);
        lemma_bits_of_signed(v as int, w as nat);
        lemma_pow2_unfold(w as nat);
    }
    let p = pow2_u128(w);
    if v >= 0 {
        v as u128
    } else {
        p - ((-v) as u128)
    }
}

/// Turn a width-`w` pattern back into the signed value it stands for.
pub fn decode_signed(bits: u128, w: u32) -> (r: i128)
    requires
        valid_width(w as nat),
        bits < pow2(w as nat),
    ensures
        r == value_of_bits(bits, w as nat),
        in_signed_range(w as nat, r as int),
    {
    proof {
        lemma_ranges_fit_storage(w as nat);
        lemma_pow2_unfold(w as nat);
    }
    let p = pow2_u128(w);
    let half = pow2_u128(w - 1);
    if bits < half {
        bits as i128
    } else {
        -((p - bits) as i128)
    }
}

} // verus!
