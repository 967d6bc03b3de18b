//! The signed member of the type family: a two's-complement value of an
//! exact bit width between 1 and 127, held in the minimal `i128` storage.

use vstd::prelude::*;
use vstd::arithmetic::power2::{pow2, lemma_pow2_pos, lemma_pow2_strictly_increases};
use vstd::arithmetic::power::{pow, lemma_pow0, lemma_pow1, lemma_pow_adds, lemma_pow_increases,
    lemma0_pow};
use vstd::arithmetic::div_mod::{
    lemma_add_mod_noop, lemma_div_basics, lemma_div_is_strictly_smaller, lemma_div_nonincreasing,
    lemma_div_pos_is_pos, lemma_fundamental_div_mod_converse_mod, lemma_small_mod,
    lemma_sub_mod_noop,
};
use vstd::math::{abs, max, min};
use crate::policy::{
    MAX_WIDTH, add_output_width, in_signed_range, lemma_mul_range_signed,
    lemma_ranges_fit_storage, lemma_rem_range_signed, mul_output_width, pow2_u128,
    rem_output_width, smax, smin, trunc_div, trunc_rem, umax, valid_width, wrap_signed,
};
use crate::bitops::{
    bits_of, decode_signed, encode_signed, lemma_bits_of_signed, lemma_bitwise_bounds,
    lemma_value_of_bits_wraps, value_of_bits,
};
use crate::uint::Uint;
use crate::TryFromIntError;

verus! {

/// A signed integer of exactly `width` bits, `1 <= width <= 127`.
///
/// The logical range is `[-2^(width-1), 2^(width-1) - 1]`; a 1-bit signed
/// value can hold only `-1` and `0`, never `+1`.
#[derive(Debug, Clone, Copy, PartialEq, Eq, Structural)]
pub struct Sint {
    pub width: u32,
    pub value: i128,
}

/// Magnitude of a stored value, as the unsigned storage type.
fn magnitude_i128(x: i128) -> (r: u128)
    requires
        x != i128::MIN,
    ensures
        r == abs(x as int),
{
    if x >= 0 {
        x as u128
    } else {
        (-x) as u128
    }
}

/// Truncating division on the storage type, computed through unsigned
/// magnitudes so that the rounding toward zero is explicit.
fn trunc_div_i128(x: i128, y: i128) -> (r: i128)
    requires
        y != 0,
        abs(x as int) <= pow2(126),
        abs(y as int) <= pow2(126),
    ensures
        r == trunc_div(x as int, y as int),
{
    proof {
        crate::policy::lemma_pow2_storage_bounds();
    }
    let xm = magnitude_i128(x);
    let ym = magnitude_i128(y);
    proof {
        lemma_div_pos_is_pos(xm as int, ym as int);
        lemma_div_nonincreasing(xm as int, ym as int);
    }
    let q = xm / ym;
    if (x < 0) != (y < 0) {
        -(q as i128)
    } else {
        q as i128
    }
}

/// Truncating remainder on the storage type: the magnitude is the
/// unsigned remainder of the magnitudes, the sign follows the dividend.
fn trunc_rem_i128(x: i128, y: i128) -> (r: i128)
    requires
        y != 0,
        abs(x as int) <= pow2(126),
        abs(y as int) <= pow2(126),
    ensures
        r == trunc_rem(x as int, y as int),
{
    proof {
        crate::policy::lemma_pow2_storage_bounds();
    }
    let xm = magnitude_i128(x);
    let ym = magnitude_i128(y);
    proof {
        vstd::arithmetic::div_mod::lemma_mod_division_less_than_divisor(xm as int, ym as int);
    }
    let m = xm % ym;
    if x < 0 {
        -(m as i128)
    } else {
        m as i128
    }
}

impl Sint {
    /// The representation invariant: the width is one the family defines
    /// and the value lies in the logical range of that width.
    pub open spec fn valid(self) -> bool {
        valid_width(self.width as nat) && in_signed_range(self.width as nat, self.value as int)
    }

    /// The smallest value of the type of width `width`: `-2^(width-1)`.
    pub fn min_value(width: u32) -> (r: Sint)
        requires
            valid_width(width as nat),
        ensures
            r.valid(),
            r.width == width,
            r.value == smin(width as nat),
    {
        proof {
            lemma_ranges_fit_storage(width as nat);
        }
        let p = pow2_u128(width - 1);
        Sint { width, value: -(p as i128) }
    }

    /// The largest value of the type of width `width`: `2^(width-1) - 1`.
    pub fn max_value(width: u32) -> (r: Sint)
        requires
            valid_width(width as nat),
        ensures
            r.valid(),
            r.width == width,
            r.value == smax(width as nat),
    {
        proof {
            lemma_ranges_fit_storage(width as nat);
        }
        let p = pow2_u128(width - 1);
        Sint { width, value: (p - 1) as i128 }
    }

    /// The size of the type in bits.
    pub fn bits(&self) -> (r: u32)
        ensures
            r == self.width,
    {
        self.width
    }

    /// The equivalent of a narrowing `as` cast: construct the value of
    /// width `width` holding `value`.
    ///
    /// An out-of-range `value` is a caller contract violation, so it is
    /// excluded here rather than reported.
    pub fn new(width: u32, value: i128) -> (r: Sint)
        requires
            valid_width(width as nat),
            in_signed_range(width as nat, value as int),
        ensures
            r.valid(),
            r.width == width,
            r.value == value,
    {
        Sint { width, value }
    }

    /// Fallible construction from a native value: succeeds exactly when
    /// the value lies in the range of width `width`, and then preserves
    /// it; otherwise nothing is constructed and the range error is
    /// reported.
    pub fn try_from_i128(width: u32, value: i128) -> (r: Result<Sint, TryFromIntError>)
        requires
            valid_width(width as nat),
        ensures
            r is Ok <==> in_signed_range(width as nat, value as int),
            r matches Ok(v) ==> v.valid() && v.width == width && v.value == value,
    {
        proof {
            lemma_ranges_fit_storage(width as nat);
        }
        let p = pow2_u128(width - 1);
        let lo = -(p as i128);
        let hi = (p - 1) as i128;
        if lo <= value && value <= hi {
            Ok(Sint { width, value })
        } else {
            Err(TryFromIntError)
        }
    }

    /// The value widened back to the native storage type; exact for every
    /// width of the family.
    pub fn to_i128(self) -> (r: i128)
        requires
            self.valid(),
        ensures
            r == self.value,
    {
        self.value
    }

    /// Lossless conversion from a same-signedness type whose width is not
    /// larger: the relation table classifies this pair as total, and the
    /// numeric value is preserved exactly.
    pub fn from_sint(width: u32, x: Sint) -> (r: Sint)
        requires
            valid_width(width as nat),
            x.valid(),
            x.width <= width,
        ensures
            r.valid(),
            r.width == width,
            r.value == x.value,
    {
        proof {
            if ((x.width - 1) as nat) < ((width - 1) as nat) {
                lemma_pow2_strictly_increases((x.width - 1) as nat, (width - 1) as nat);
            }
        }
        Sint { width, value: x.value }
    }

    /// Lossless conversion from an unsigned type of strictly smaller
    /// width: the only cross-signedness pair with guaranteed headroom,
    /// exactly as the relation table classifies it.
    pub fn from_uint(width: u32, x: Uint) -> (r: Sint)
        requires
            valid_width(width as nat),
            x.valid(),
            x.width < width,
        ensures
            r.valid(),
            r.width == width,
            r.value == x.value,
    {
        proof {
            lemma_ranges_fit_storage(width as nat);
            if (x.width as nat) <= ((width - 1) as nat) {
                if (x.width as nat) < ((width - 1) as nat) {
                    lemma_pow2_strictly_increases(x.width as nat, (width - 1) as nat);
                }
            }
        }
        Sint { width, value: x.value as i128 }
    }

    /// Range-checked conversion from any signed family type: succeeds
    /// exactly when the source value fits the target range, preserving
    /// it.
    pub fn try_from_sint(width: u32, x: Sint) -> (r: Result<Sint, TryFromIntError>)
        requires
            valid_width(width as nat),
            x.valid(),
        ensures
            r is Ok <==> in_signed_range(width as nat, x.value as int),
            r matches Ok(v) ==> v.valid() && v.width == width && v.value == x.value,
    {
        Sint::try_from_i128(width, x.value)
    }

    /// Range-checked conversion from any unsigned family type: succeeds
    /// exactly when the source value does not exceed the target maximum.
    pub fn try_from_uint(width: u32, x: Uint) -> (r: Result<Sint, TryFromIntError>)
        requires
            valid_width(width as nat),
            x.valid(),
        ensures
            r is Ok <==> x.value <= smax(width as nat),
            r matches Ok(v) ==> v.valid() && v.width == width && v.value == x.value,
    {
        proof {
            lemma_ranges_fit_storage(width as nat);
        }
        let p = pow2_u128(width - 1);
        if x.value <= p - 1 {
            Ok(Sint { width, value: x.value as i128 })
        } else {
            Err(TryFromIntError)
        }
    }

    /// Reduce an arbitrary storage value to the width by the mask: the
    /// low `width` bits of the two's-complement pattern are kept and the
    /// result is sign-extended from the width's sign bit — reduction
    /// into the two's-complement window, exactly the truncation the
    /// wrapping operations apply after storage-level wraparound.
    pub fn masked(width: u32, raw: i128) -> (r: Sint)
        requires
            valid_width(width as nat),
        ensures
            r.valid(),
            r.width == width,
            r.value == wrap_signed(raw as int, width as nat),
    {
        proof {
            lemma_ranges_fit_storage(width as nat);
            lemma_pow2_pos(width as nat);
        }
        let p = pow2_u128(width);
        let bits: u128 = if raw >= 0 {
            proof {
                vstd::arithmetic::div_mod::lemma_mod_bound(raw as int, pow2(width as nat) as int);
            }
            (raw as u128) % p
        } else {
            let mag = ((-(raw + 1)) as u128) + 1;
            let m = mag % p;
            proof {
                vstd::arithmetic::div_mod::lemma_mod_bound(mag as int, pow2(width as nat) as int);
                crate::bitops::lemma_neg_mod(mag as int, pow2(width as nat) as int);
            }
            if m == 0 {
                0
            } else {
                p - m
            }
        };
        proof {
            crate::bitops::lemma_bits_of_range(raw as int, width as nat);
            lemma_value_of_bits_wraps(raw as int, width as nat);
        }
        let v = decode_signed(bits, width);
        Sint { width, value: v }
    }

    /// Range-checked conversion from the native pointer-sized signed
    /// integer: succeeds exactly when the value fits the target range.
    /// The relation table fixes, per pointer width, when this can never
    /// fail.
    pub fn try_from_isize(width: u32, x: isize) -> (r: Result<Sint, TryFromIntError>)
        requires
            valid_width(width as nat),
        ensures
            r is Ok <==> in_signed_range(width as nat, x as int),
            r matches Ok(v) ==> v.valid() && v.width == width && v.value == x,
    {
        Sint::try_from_i128(width, x as i128)
    }

    /// Range-checked conversion to the native pointer-sized signed
    /// integer: succeeds exactly when the value fits it.
    pub fn try_to_isize(self) -> (r: Result<isize, TryFromIntError>)
        requires
            self.valid(),
        ensures
            r is Ok <==> isize::MIN <= self.value <= isize::MAX,
            r matches Ok(v) ==> v == self.value,
    {
        if isize::MIN as i128 <= self.value && self.value <= isize::MAX as i128 {
            Ok(self.value as isize)
        } else {
            Err(TryFromIntError)
        }
    }

    /// Checked addition at equal width: the exact sum when it is
    /// representable, and nothing otherwise.
    pub fn checked_add(self, rhs: Sint) -> (r: Option<Sint>)
        requires
            self.valid(),
            rhs.valid(),
            self.width == rhs.width,
        ensures
            r is Some <==> in_signed_range(self.width as nat, self.value + rhs.value),
            r matches Some(v) ==> v.valid() && v.width == self.width && v.value == self.value
                + rhs.value,
    {
        proof {
            lemma_ranges_fit_storage(self.width as nat);
        }
        let p = pow2_u128(self.width - 1);
        let lo = -(p as i128);
        let hi = (p - 1) as i128;
        let sum = self.value + rhs.value;
        if lo <= sum && sum <= hi {
            Some(Sint { width: self.width, value: sum })
        } else {
            None
        }
    }

    /// Checked subtraction at equal width: the exact difference when it
    /// is representable, and nothing otherwise.
    pub fn checked_sub(self, rhs: Sint) -> (r: Option<Sint>)
        requires
            self.valid(),
            rhs.valid(),
            self.width == rhs.width,
        ensures
            r is Some <==> in_signed_range(self.width as nat, self.value - rhs.value),
            r matches Some(v) ==> v.valid() && v.width == self.width && v.value == self.value
                - rhs.value,
    {
        proof {
            lemma_ranges_fit_storage(self.width as nat);
        }
        let p = pow2_u128(self.width - 1);
        let lo = -(p as i128);
        let hi = (p - 1) as i128;
        let diff = self.value - rhs.value;
        if lo <= diff && diff <= hi {
            Some(Sint { width: self.width, value: diff })
        } else {
            None
        }
    }

    /// Checked multiplication at equal width: the exact product when it
    /// is representable, and nothing otherwise.
    pub fn checked_mul(self, rhs: Sint) -> (r: Option<Sint>)
        requires
            self.valid(),
            rhs.valid(),
            self.width == rhs.width,
        ensures
            r is Some <==> in_signed_range(self.width as nat, self.value * rhs.value),
            r matches Some(v) ==> v.valid() && v.width == self.width && v.value == self.value
                * rhs.value,
    {
        proof {
            lemma_ranges_fit_storage(self.width as nat);
        }
        let p = pow2_u128(self.width - 1);
        let lo = -(p as i128);
        let hi = (p - 1) as i128;
        match self.value.checked_mul(rhs.value) {
            Some(prod) => {
                if lo <= prod && prod <= hi {
                    Some(Sint { width: self.width, value: prod })
                } else {
                    None
                }
            },
            None => {
                proof {
                    lemma_checked_mul_overflow_out_of_range(
                        self.width as nat,
                        self.value as int,
                        rhs.value as int,
                    );
                }
                None
            },
        }
    }

    /// Checked division at equal width: the truncating quotient whenever
    /// the divisor is non-zero and the quotient is representable (it is
    /// not only for `MIN / -1`), and nothing otherwise.
    pub fn checked_div(self, rhs: Sint) -> (r: Option<Sint>)
        requires
            self.valid(),
            rhs.valid(),
            self.width == rhs.width,
        ensures
            r is Some <==> rhs.value != 0 && in_signed_range(
                self.width as nat,
                trunc_div(self.value as int, rhs.value as int),
            ),
            r matches Some(v) ==> v.valid() && v.width == self.width && v.value == trunc_div(
                self.value as int,
                rhs.value as int,
            ),
    {
        proof {
            lemma_ranges_fit_storage(self.width as nat);
        }
        if rhs.value == 0 {
            None
        } else {
            let p = pow2_u128(self.width - 1);
            let lo = -(p as i128);
            if self.value == lo && rhs.value == -1 {
                proof {
                    lemma_div_min_by_minus_one(self.width as nat, self.value as int);
                }
                None
            } else {
                proof {
                    lemma_trunc_div_in_range(
                        self.width as nat,
                        self.value as int,
                        rhs.value as int,
                    );
                }
                let q = trunc_div_i128(self.value, rhs.value);
                Some(Sint { width: self.width, value: q })
            }
        }
    }

    /// Wrapping (modular) addition at equal width: the mathematical sum
    /// reduced into the two's-complement window of the width. This is the
    /// explicit policy fallback at the boundary of the family.
    pub fn wrapping_add(self, rhs: Sint) -> (r: Sint)
        requires
            self.valid(),
            rhs.valid(),
            self.width == rhs.width,
        ensures
            r.valid(),
            r.width == self.width,
            r.value == wrap_signed(self.value + rhs.value, self.width as nat),
    {
        let w = self.width;
        proof {
            lemma_ranges_fit_storage(w as nat);
            lemma_bits_of_signed(self.value as int, w as nat);
            lemma_bits_of_signed(rhs.value as int, w as nat);
            lemma_pow2_pos(w as nat);
            lemma_add_mod_noop(self.value as int, rhs.value as int, pow2(w as nat) as int);
            lemma_value_of_bits_wraps(self.value + rhs.value, w as nat);
        }
        let p = pow2_u128(w);
        let ua = encode_signed(self.value, w);
        let ub = encode_signed(rhs.value, w);
        let s = (ua + ub) % p;
        assert(s == bits_of(self.value + rhs.value, w as nat)) by {
            crate::bitops::lemma_bits_of_range(self.value + rhs.value, w as nat);
        }
        let v = decode_signed(s, w);
        Sint { width: w, value: v }
    }

    /// Wrapping (modular) subtraction at equal width: the mathematical
    /// difference reduced into the two's-complement window of the width.
    pub fn wrapping_sub(self, rhs: Sint) -> (r: Sint)
        requires
            self.valid(),
            rhs.valid(),
            self.width == rhs.width,
        ensures
            r.valid(),
            r.width == self.width,
            r.value == wrap_signed(self.value - rhs.value, self.width as nat),
    {
        let w = self.width;
        proof {
            lemma_ranges_fit_storage(w as nat);
            lemma_bits_of_signed(self.value as int, w as nat);
            lemma_bits_of_signed(rhs.value as int, w as nat);
            lemma_pow2_pos(w as nat);
            lemma_sub_mod_noop(self.value as int, rhs.value as int, pow2(w as nat) as int);
            lemma_value_of_bits_wraps(self.value - rhs.value, w as nat);
            crate::bitops::lemma_bits_of_range(self.value - rhs.value, w as nat);
        }
        let p = pow2_u128(w);
        let ua = encode_signed(self.value, w);
        let ub = encode_signed(rhs.value, w);
        let s: u128 = if ua >= ub {
            proof {
                lemma_small_mod((ua - ub) as nat, pow2(w as nat));
            }
            ua - ub
        } else {
            proof {
                lemma_fundamental_div_mod_converse_mod(
                    ua - ub,
                    pow2(w as nat) as int,
                    -1,
                    ua - ub + pow2(w as nat),
                );
            }
            p - (ub - ua)
        };
        assert(s == bits_of(self.value - rhs.value, w as nat));
        let v = decode_signed(s, w);
        Sint { width: w, value: v }
    }

    /// Widening addition: the output is one bit wider than the wider
    /// operand, so the exact sum is always representable and no check is
    /// ever needed. Defined while the wider operand is below the family
    /// cap.
    pub fn add(self, rhs: Sint) -> (r: Sint)
        requires
            self.valid(),
            rhs.valid(),
            max(self.width as int, rhs.width as int) < MAX_WIDTH,
        ensures
            r.valid(),
            r.width == max(self.width as int, rhs.width as int) + 1,
            r.value == self.value + rhs.value,
    {
        let o = match add_output_width(MAX_WIDTH, self.width, rhs.width) {
            Some(o) => o,
            None => 1,
        };
        proof {
            lemma_ranges_fit_storage(o as nat);
        }
        Sint { width: o, value: self.value + rhs.value }
    }

    /// Widening subtraction: the output is one bit wider than the wider
    /// operand, so the exact difference is always representable.
    pub fn sub(self, rhs: Sint) -> (r: Sint)
        requires
            self.valid(),
            rhs.valid(),
            max(self.width as int, rhs.width as int) < MAX_WIDTH,
        ensures
            r.valid(),
            r.width == max(self.width as int, rhs.width as int) + 1,
            r.value == self.value - rhs.value,
    {
        let o = match add_output_width(MAX_WIDTH, self.width, rhs.width) {
            Some(o) => o,
            None => 1,
        };
        proof {
            lemma_ranges_fit_storage(o as nat);
        }
        Sint { width: o, value: self.value - rhs.value }
    }

    /// Widening multiplication: the output width is the sum of the
    /// operand widths, so the exact product is always representable.
    /// Defined while that sum does not exceed the family cap.
    pub fn mul(self, rhs: Sint) -> (r: Sint)
        requires
            self.valid(),
            rhs.valid(),
            self.width + rhs.width <= MAX_WIDTH,
        ensures
            r.valid(),
            r.width == self.width + rhs.width,
            r.value == self.value * rhs.value,
    {
        let o = match mul_output_width(MAX_WIDTH, self.width, rhs.width) {
            Some(o) => o,
            None => 1,
        };
        proof {
            lemma_ranges_fit_storage(o as nat);
            lemma_mul_range_signed(
                self.width as nat,
                rhs.width as nat,
                self.value as int,
                rhs.value as int,
            );
        }
        let prod = self.value * rhs.value;
        Sint { width: o, value: prod }
    }

    /// Narrowing remainder, rounding toward zero as the native operator
    /// does: the magnitude of the result is below both the divisor's and
    /// the dividend's, so it always fits the narrower operand width, for
    /// mixed-sign operands as well.
    pub fn rem(self, rhs: Sint) -> (r: Sint)
        requires
            self.valid(),
            rhs.valid(),
            rhs.value != 0,
        ensures
            r.valid(),
            r.width == min(self.width as int, rhs.width as int),
            r.value == trunc_rem(self.value as int, rhs.value as int),
    {
        let o = rem_output_width(self.width, rhs.width);
        proof {
            lemma_ranges_fit_storage(self.width as nat);
            lemma_ranges_fit_storage(rhs.width as nat);
            lemma_rem_range_signed(
                self.width as nat,
                rhs.width as nat,
                self.value as int,
                rhs.value as int,
            );
        }
        let m = trunc_rem_i128(self.value, rhs.value);
        Sint { width: o, value: m }
    }

    /// Same-width truncating division. Division by zero is a fatal
    /// condition, not a recoverable error, so a zero divisor is excluded
    /// here, as is the one overflowing quotient `MIN / -1`; the checked
    /// variant reports both instead.
    pub fn div(self, rhs: Sint) -> (r: Sint)
        requires
            self.valid(),
            rhs.valid(),
            self.width == rhs.width,
            rhs.value != 0,
            !(self.value == smin(self.width as nat) && rhs.value == -1),
        ensures
            r.valid(),
            r.width == self.width,
            r.value == trunc_div(self.value as int, rhs.value as int),
    {
        proof {
            lemma_ranges_fit_storage(self.width as nat);
            lemma_trunc_div_in_range(self.width as nat, self.value as int, rhs.value as int);
        }
        let q = trunc_div_i128(self.value, rhs.value);
        Sint { width: self.width, value: q }
    }

    /// Bitwise conjunction at equal width, bit for bit on the width-wide
    /// two's-complement patterns of the operands.
    pub fn bitand(self, rhs: Sint) -> (r: Sint)
        requires
            self.valid(),
            rhs.valid(),
            self.width == rhs.width,
        ensures
            r.valid(),
            r.width == self.width,
            r.value == value_of_bits(
                bits_of(self.value as int, self.width as nat) & bits_of(
                    rhs.value as int,
                    self.width as nat,
                ),
                self.width as nat,
            ),
    {
        let w = self.width;
        proof {
            lemma_bits_of_signed(self.value as int, w as nat);
            lemma_bits_of_signed(rhs.value as int, w as nat);
            lemma_bitwise_bounds(
                bits_of(self.value as int, w as nat),
                bits_of(rhs.value as int, w as nat),
                w as u128,
            );
        }
        let ua = encode_signed(self.value, w);
        let ub = encode_signed(rhs.value, w);
        let v = decode_signed(ua & ub, w);
        Sint { width: w, value: v }
    }

    /// Bitwise disjunction at equal width, bit for bit on the width-wide
    /// two's-complement patterns of the operands.
    pub fn bitor(self, rhs: Sint) -> (r: Sint)
        requires
            self.valid(),
            rhs.valid(),
            self.width == rhs.width,
        ensures
            r.valid(),
            r.width == self.width,
            r.value == value_of_bits(
                bits_of(self.value as int, self.width as nat) | bits_of(
                    rhs.value as int,
                    self.width as nat,
                ),
                self.width as nat,
            ),
    {
        let w = self.width;
        proof {
            lemma_bits_of_signed(self.value as int, w as nat);
            lemma_bits_of_signed(rhs.value as int, w as nat);
            lemma_bitwise_bounds(
                bits_of(self.value as int, w as nat),
                bits_of(rhs.value as int, w as nat),
                w as u128,
            );
        }
        let ua = encode_signed(self.value, w);
        let ub = encode_signed(rhs.value, w);
        let v = decode_signed(ua | ub, w);
        Sint { width: w, value: v }
    }

    /// Bitwise exclusive disjunction at equal width, bit for bit on the
    /// width-wide two's-complement patterns of the operands.
    pub fn bitxor(self, rhs: Sint) -> (r: Sint)
        requires
            self.valid(),
            rhs.valid(),
            self.width == rhs.width,
        ensures
            r.valid(),
            r.width == self.width,
            r.value == value_of_bits(
                bits_of(self.value as int, self.width as nat) ^ bits_of(
                    rhs.value as int,
                    self.width as nat,
                ),
                self.width as nat,
            ),
    {
        let w = self.width;
        proof {
            lemma_bits_of_signed(self.value as int, w as nat);
            lemma_bits_of_signed(rhs.value as int, w as nat);
            lemma_bitwise_bounds(
                bits_of(self.value as int, w as nat),
                bits_of(rhs.value as int, w as nat),
                w as u128,
            );
        }
        let ua = encode_signed(self.value, w);
        let ub = encode_signed(rhs.value, w);
        let v = decode_signed(ua ^ ub, w);
        Sint { width: w, value: v }
    }

    /// Bitwise complement constrained to the logical width: on the
    /// two's-complement pattern every one of the `width` bits flips,
    /// which on the numeric side is `-value - 1`. The complement of an
    /// in-range value is always in range.
    pub fn not(self) -> (r: Sint)
        requires
            self.valid(),
        ensures
            r.valid(),
            r.width == self.width,
            r.value == -self.value - 1,
    {
        proof {
            lemma_ranges_fit_storage(self.width as nat);
        }
        Sint { width: self.width, value: -self.value - 1 }
    }

    /// Unary negation. The single unrepresentable case, negating the
    /// type's minimum, is excluded: it is the one value whose negation
    /// leaves the range.
    pub fn neg(self) -> (r: Sint)
        requires
            self.valid(),
            self.value != smin(self.width as nat),
        ensures
            r.valid(),
            r.width == self.width,
            r.value == -self.value,
    {
        proof {
            lemma_ranges_fit_storage(self.width as nat);
        }
        Sint { width: self.width, value: -self.value }
    }

    /// Absolute value, as the unsigned type one bit narrower: that type's
    /// range is exactly the magnitudes a value of this type can take,
    /// except for the minimum, whose magnitude is the one that does not
    /// fit and is excluded.
    pub fn abs(self) -> (r: Uint)
        requires
            self.valid(),
            self.width >= 2,
            self.value != smin(self.width as nat),
        ensures
            r.valid(),
            r.width == self.width - 1,
            r.value == abs(self.value as int),
    {
        proof {
            lemma_ranges_fit_storage(self.width as nat);
            assert(umax((self.width - 1) as nat) == smax(self.width as nat));
        }
        let m = magnitude_i128(self.value);
        Uint { width: self.width - 1, value: m }
    }

    /// Exponentiation by a native exponent. The caller accounts for the
    /// range, exactly as with the narrowing-cast constructor: an exponent
    /// whose exact power leaves the range is excluded.
    pub fn pow(self, exp: u32) -> (r: Sint)
        requires
            self.valid(),
            in_signed_range(self.width as nat, pow(self.value as int, exp as nat)),
        ensures
            r.valid(),
            r.width == self.width,
            r.value == pow(self.value as int, exp as nat),
    {
        proof {
            lemma_ranges_fit_storage(self.width as nat);
            lemma_pow_neg_parity(abs(self.value as int) as int, exp as nat);
        }
        if self.value == 0 {
            if exp == 0 {
                proof {
                    lemma_pow0(0);
                }
                Sint { width: self.width, value: 1 }
            } else {
                proof {
                    lemma0_pow(exp as nat);
                }
                Sint { width: self.width, value: 0 }
            }
        } else {
            let base = magnitude_i128(self.value);
            let ghost b = base as int;
            let mut i: u32 = 0;
            let mut acc: u128 = 1;
            proof {
                lemma_pow0(b);
                lemma_pow_mag_bound(self.width as nat, self.value as int, exp as nat);
            }
            while i < exp
                invariant
                    base >= 1,
                    b == base as int,
                    i <= exp,
                    acc == pow(b, i as nat),
                    pow(b, exp as nat) <= pow2(126),
                decreases exp - i,
            {
                proof {
                    crate::policy::lemma_pow2_storage_bounds();
                    lemma_pow1(b);
                    lemma_pow_adds(b, i as nat, 1);
                    lemma_pow_increases(base as nat, (i + 1) as nat, exp as nat);
                }
                acc = acc * base;
                i = i + 1;
            }
            proof {
                crate::policy::lemma_pow2_storage_bounds();
            }
            if self.value < 0 && exp % 2 == 1 {
                Sint { width: self.width, value: -(acc as i128) }
            } else {
                Sint { width: self.width, value: acc as i128 }
            }
        }
    }
}

/// When the storage multiplication overflows, the product is certainly
/// outside every family range.
proof fn lemma_checked_mul_overflow_out_of_range(w: nat, x: int, y: int)
    requires
        valid_width(w),
        in_signed_range(w, x),
        in_signed_range(w, y),
        !(i128::MIN <= x * y <= i128::MAX),
    ensures
        !in_signed_range(w, x * y),
{
    lemma_ranges_fit_storage(w);
}

/// The quotient `MIN / -1` is `-MIN`, one past the type's maximum.
proof fn lemma_div_min_by_minus_one(w: nat, x: int)
    requires
        valid_width(w),
        x == smin(w),
    ensures
        trunc_div(x, -1) == -smin(w),
        !in_signed_range(w, trunc_div(x, -1)),
{
    lemma_pow2_pos((w - 1) as nat);
    lemma_div_basics(abs(x) as int);
}

/// Outside the single `MIN / -1` case, the truncating quotient of two
/// in-range values is in range: its magnitude never exceeds the
/// dividend's, and equality at the boundary forces that excluded case.
proof fn lemma_trunc_div_in_range(w: nat, x: int, y: int)
    requires
        valid_width(w),
        in_signed_range(w, x),
        in_signed_range(w, y),
        y != 0,
        !(x == smin(w) && y == -1),
    ensures
        in_signed_range(w, trunc_div(x, y)),
{
    let h = pow2((w - 1) as nat) as int;
    lemma_pow2_pos((w - 1) as nat);
    let xm = abs(x) as int;
    let ym = abs(y) as int;
    lemma_div_pos_is_pos(xm, ym);
    lemma_div_nonincreasing(xm, ym);
    lemma_div_basics(xm);
    if (x < 0) == (y < 0) {
        let q = xm / ym;
        if q > smax(w) {
            assert(q >= h);
            assert(xm <= h);
            if ym >= 2 {
                if xm >= 1 {
                    lemma_div_is_strictly_smaller(xm, ym);
                }
                assert(false);
            }
            assert(ym == 1);
            assert(q == xm);
            assert(xm == h);
            assert(x < 0 ==> x == smin(w) && y == -1);
            assert(x >= 0 ==> x <= smax(w) && x < h);
            assert(false);
        }
    }
}

/// A power of a negated base: the magnitude is the power of the
/// magnitude, the sign follows the parity of the exponent.
proof fn lemma_pow_neg_parity(m: int, e: nat)
    requires
        m >= 0,
    ensures
        e % 2 == 0 ==> pow(-m, e) == pow(m, e),
        e % 2 == 1 ==> pow(-m, e) == -pow(m, e),
    decreases e,
{
    reveal(pow);
    if e == 0 {
    } else {
        lemma_pow_neg_parity(m, (e - 1) as nat);
        let pm = pow(m, (e - 1) as nat);
        if e % 2 == 0 {
            assert((-m) * (-pm) == m * pm) by (nonlinear_arith);
        } else {
            assert((-m) * pm == -(m * pm)) by (nonlinear_arith);
        }
    }
}

/// The magnitude of an in-range power is bounded by `2^126`, so the
/// accumulator of the exponentiation loop fits the unsigned storage.
proof fn lemma_pow_mag_bound(w: nat, v: int, e: nat)
    requires
        valid_width(w),
        v != 0,
        in_signed_range(w, v),
        in_signed_range(w, pow(v, e)),
    ensures
        pow(abs(v) as int, e) <= pow2(126),
{
    let m = abs(v) as int;
    lemma_pow_neg_parity(m, e);
    lemma_ranges_fit_storage(w);
    if v >= 0 {
        assert(pow(v, e) <= smax(w));
        assert(pow(m, e) == pow(v, e));
        vstd::arithmetic::power::lemma_pow_positive(m, e);
    } else {
        assert(m == -v);
        if e % 2 == 0 {
            assert(pow(v, e) == pow(-m, e) == pow(m, e));
        } else {
            assert(pow(v, e) == pow(-m, e) == -pow(m, e));
            assert(-pow(m, e) >= smin(w));
        }
    }
}

} // verus!
