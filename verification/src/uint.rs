//! The unsigned member of the type family: a value of an exact bit width
//! between 1 and 127, held in the minimal `u128` storage.

use vstd::prelude::*;
use vstd::arithmetic::power2::{pow2, lemma_pow2_strictly_increases};
use vstd::arithmetic::power::{pow, lemma_pow1, lemma_pow_adds, lemma_pow_increases};
use vstd::arithmetic::div_mod::{
    lemma_div_nonincreasing, lemma_div_pos_is_pos, lemma_fundamental_div_mod_converse_mod,
    lemma_small_mod,
};
use vstd::math::{max, min};
use crate::policy::{
    MAX_WIDTH, add_output_width, in_unsigned_range, lemma_mul_range_unsigned,
    lemma_ranges_fit_storage, lemma_rem_range_unsigned, lemma_wrap_unsigned_range,
    mul_output_width, pow2_u128, rem_output_width, umax, valid_width, wrap_unsigned,
};
use crate::bitops::lemma_bitwise_bounds;
use crate::sint::Sint;
use crate::TryFromIntError;

verus! {

/// An unsigned integer of exactly `width` bits, `1 <= width <= 127`.
///
/// The value is carried in the smallest storage that covers every family
/// width; the logical range is `[0, 2^width - 1]` and every constructed
/// instance stays inside it.
#[derive(Debug, Clone, Copy, PartialEq, Eq, Structural)]
pub struct Uint {
    pub width: u32,
    pub value: u128,
}

impl Uint {
    /// The representation invariant: the width is one the family defines
    /// and the value lies in the logical range of that width.
    pub open spec fn valid(self) -> bool {
        valid_width(self.width as nat) && in_unsigned_range(self.width as nat, self.value as int)
    }

    /// The smallest value of the type of width `width`: zero.
    pub fn min_value(width: u32) -> (r: Uint)
        requires
            valid_width(width as nat),
        ensures
            r.valid(),
            r.width == width,
            r.value == 0,
    {
        proof {
            lemma_ranges_fit_storage(width as nat);
        }
        Uint { width, value: 0 }
    }

    /// The largest value of the type of width `width`: `2^width - 1`.
    pub fn max_value(width: u32) -> (r: Uint)
        requires
            valid_width(width as nat),
        ensures
            r.valid(),
            r.width == width,
            r.value == umax(width as nat),
    {
        proof {
            lemma_ranges_fit_storage(width as nat);
        }
        let p = pow2_u128(width);
        Uint { width, value: p - 1 }
    }

    /// The size of the type in bits.
    pub fn bits(&self) -> (r: u32)
        ensures
            r == self.width,
    {
        self.width
    }

    /// The equivalent of a narrowing `as` cast: construct the value of
    /// width `width` holding `value`.
    ///
    /// An out-of-range `value` is a caller contract violation, so it is
    /// excluded here rather than reported.
    pub fn new(width: u32, value: u128) -> (r: Uint)
        requires
            valid_width(width as nat),
            value <= umax(width as nat),
        ensures
            r.valid(),
            r.width == width,
            r.value == value,
    {
        Uint { width, value }
    }

    /// Fallible construction from a native value: succeeds exactly when
    /// the value lies in the range of width `width`, and then preserves
    /// it; otherwise nothing is constructed and the range error is
    /// reported.
    pub fn try_from_u128(width: u32, value: u128) -> (r: Result<Uint, TryFromIntError>)
        requires
            valid_width(width as nat),
        ensures
            r is Ok <==> value <= umax(width as nat),
            r matches Ok(v) ==> v.valid() && v.width == width && v.value == value,
    {
        proof {
            lemma_ranges_fit_storage(width as nat);
        }
        let p = pow2_u128(width);
        if value <= p - 1 {
            Ok(Uint { width, value })
        } else {
            Err(TryFromIntError)
        }
    }

    /// The value widened back to the native storage type; exact for every
    /// width of the family.
    pub fn to_u128(self) -> (r: u128)
        requires
            self.valid(),
        ensures
            r == self.value,
    {
        self.value
    }

    /// Lossless conversion from a same-signedness type whose width is not
    /// larger: the relation table classifies this pair as total, and the
    /// numeric value is preserved exactly.
    pub fn from_uint(width: u32, x: Uint) -> (r: Uint)
        requires
            valid_width(width as nat),
            x.valid(),
            x.width <= width,
        ensures
            r.valid(),
            r.width == width,
            r.value == x.value,
    {
        proof {
            if (x.width as nat) < (width as nat) {
                lemma_pow2_strictly_increases(x.width as nat, width as nat);
            }
        }
        Uint { width, value: x.value }
    }

    /// Range-checked conversion from any unsigned family type: succeeds
    /// exactly when the source value fits the target range, preserving it;
    /// a failure reports the range error and constructs nothing.
    pub fn try_from_uint(width: u32, x: Uint) -> (r: Result<Uint, TryFromIntError>)
        requires
            valid_width(width as nat),
            x.valid(),
        ensures
            r is Ok <==> x.value <= umax(width as nat),
            r matches Ok(v) ==> v.valid() && v.width == width && v.value == x.value,
    {
        Uint::try_from_u128(width, x.value)
    }

    /// Range-checked conversion from any signed family type: succeeds
    /// exactly when the source value is non-negative and fits the target
    /// range.
    pub fn try_from_sint(width: u32, x: Sint) -> (r: Result<Uint, TryFromIntError>)
        requires
            valid_width(width as nat),
            x.valid(),
        ensures
            r is Ok <==> 0 <= x.value && x.value <= umax(width as nat),
            r matches Ok(v) ==> v.valid() && v.width == width && v.value == x.value,
    {
        if x.value >= 0 {
            Uint::try_from_u128(width, x.value as u128)
        } else {
            Err(TryFromIntError)
        }
    }

    /// Reduce an arbitrary storage value to the width by the mask: the
    /// low `width` bits are kept, which is reduction modulo `2^width` —
    /// exactly the truncation the wrapping operations apply after
    /// storage-level wraparound.
    pub fn masked(width: u32, raw: u128) -> (r: Uint)
        requires
            valid_width(width as nat),
        ensures
            r.valid(),
            r.width == width,
            r.value == wrap_unsigned(raw as int, width as nat),
    {
        proof {
            lemma_ranges_fit_storage(width as nat);
            lemma_wrap_unsigned_range(raw as int, width as nat);
        }
        let p = pow2_u128(width);
        Uint { width, value: raw % p }
    }

    /// Range-checked conversion from the native pointer-sized integer:
    /// succeeds exactly when the value fits the target range. The
    /// relation table fixes, per pointer width, when this can never
    /// fail.
    pub fn try_from_usize(width: u32, x: usize) -> (r: Result<Uint, TryFromIntError>)
        requires
            valid_width(width as nat),
        ensures
            r is Ok <==> x <= umax(width as nat),
            r matches Ok(v) ==> v.valid() && v.width == width && v.value == x,
    {
        Uint::try_from_u128(width, x as u128)
    }

    /// Range-checked conversion to the native pointer-sized integer:
    /// succeeds exactly when the value fits it.
    pub fn try_to_usize(self) -> (r: Result<usize, TryFromIntError>)
        requires
            self.valid(),
        ensures
            r is Ok <==> self.value <= usize::MAX,
            r matches Ok(v) ==> v == self.value,
    {
        if self.value <= usize::MAX as u128 {
            Ok(self.value as usize)
        } else {
            Err(TryFromIntError)
        }
    }

    /// Checked addition at equal width: the exact sum when it is
    /// representable, and nothing otherwise.
    pub fn checked_add(self, rhs: Uint) -> (r: Option<Uint>)
        requires
            self.valid(),
            rhs.valid(),
            self.width == rhs.width,
        ensures
            r is Some <==> self.value + rhs.value <= umax(self.width as nat),
            r matches Some(v) ==> v.valid() && v.width == self.width && v.value == self.value
                + rhs.value,
    {
        proof {
            lemma_ranges_fit_storage(self.width as nat);
        }
        let p = pow2_u128(self.width);
        let sum = self.value + rhs.value;
        if sum <= p - 1 {
            Some(Uint { width: self.width, value: sum })
        } else {
            None
        }
    }

    /// Checked subtraction at equal width: the exact difference when it
    /// is representable (the subtrahend does not exceed the minuend), and
    /// nothing otherwise.
    pub fn checked_sub(self, rhs: Uint) -> (r: Option<Uint>)
        requires
            self.valid(),
            rhs.valid(),
            self.width == rhs.width,
        ensures
            r is Some <==> rhs.value <= self.value,
            r matches Some(v) ==> v.valid() && v.width == self.width && v.value == self.value
                - rhs.value,
    {
        if rhs.value <= self.value {
            Some(Uint { width: self.width, value: self.value - rhs.value })
        } else {
            None
        }
    }

    /// Checked multiplication at equal width: the exact product when it
    /// is representable, and nothing otherwise.
    pub fn checked_mul(self, rhs: Uint) -> (r: Option<Uint>)
        requires
            self.valid(),
            rhs.valid(),
            self.width == rhs.width,
        ensures
            r is Some <==> self.value * rhs.value <= umax(self.width as nat),
            r matches Some(v) ==> v.valid() && v.width == self.width && v.value == self.value
                * rhs.value,
    {
        proof {
            lemma_ranges_fit_storage(self.width as nat);
        }
        let p = pow2_u128(self.width);
        match self.value.checked_mul(rhs.value) {
            Some(prod) => {
                if prod <= p - 1 {
                    Some(Uint { width: self.width, value: prod })
                } else {
                    None
                }
            },
            None => None,
        }
    }

    /// Checked division at equal width: the quotient whenever the divisor
    /// is non-zero (an unsigned quotient never leaves the range), and
    /// nothing on a zero divisor.
    pub fn checked_div(self, rhs: Uint) -> (r: Option<Uint>)
        requires
            self.valid(),
            rhs.valid(),
            self.width == rhs.width,
        ensures
            r is Some <==> rhs.value != 0,
            r matches Some(v) ==> v.valid() && v.width == self.width && v.value == self.value
                as int / rhs.value as int,
    {
        if rhs.value == 0 {
            None
        } else {
            proof {
                lemma_div_pos_is_pos(self.value as int, rhs.value as int);
                lemma_div_nonincreasing(self.value as int, rhs.value as int);
            }
            Some(Uint { width: self.width, value: self.value / rhs.value })
        }
    }

    /// Wrapping (modular) addition at equal width: the mathematical sum
    /// reduced modulo `2^width`. This is the explicit policy fallback at
    /// the boundary of the family, where no wider output type exists.
    pub fn wrapping_add(self, rhs: Uint) -> (r: Uint)
        requires
            self.valid(),
            rhs.valid(),
            self.width == rhs.width,
        ensures
            r.valid(),
            r.width == self.width,
            r.value == wrap_unsigned(self.value + rhs.value, self.width as nat),
    {
        proof {
            lemma_ranges_fit_storage(self.width as nat);
            lemma_wrap_unsigned_range(self.value + rhs.value, self.width as nat);
        }
        let p = pow2_u128(self.width);
        let sum = self.value + rhs.value;
        Uint { width: self.width, value: sum % p }
    }

    /// Wrapping (modular) subtraction at equal width: the mathematical
    /// difference reduced modulo `2^width`.
    pub fn wrapping_sub(self, rhs: Uint) -> (r: Uint)
        requires
            self.valid(),
            rhs.valid(),
            self.width == rhs.width,
        ensures
            r.valid(),
            r.width == self.width,
            r.value == wrap_unsigned(self.value - rhs.value, self.width as nat),
    {
        proof {
            lemma_ranges_fit_storage(self.width as nat);
            lemma_wrap_unsigned_range(self.value - rhs.value, self.width as nat);
            if self.value >= rhs.value {
                lemma_small_mod((self.value - rhs.value) as nat, pow2(self.width as nat));
            } else {
                lemma_fundamental_div_mod_converse_mod(
                    self.value - rhs.value,
                    pow2(self.width as nat) as int,
                    -1,
                    self.value - rhs.value + pow2(self.width as nat),
                );
            }
        }
        let p = pow2_u128(self.width);
        if self.value >= rhs.value {
            Uint { width: self.width, value: self.value - rhs.value }
        } else {
            Uint { width: self.width, value: p - (rhs.value - self.value) }
        }
    }

    /// Widening addition: the output is one bit wider than the wider
    /// operand, so the exact sum is always representable and no check is
    /// ever needed. Defined while the wider operand is below the family
    /// cap.
    pub fn add(self, rhs: Uint) -> (r: Uint)
        requires
            self.valid(),
            rhs.valid(),
            max(self.width as int, rhs.width as int) < MAX_WIDTH,
        ensures
            r.valid(),
            r.width == max(self.width as int, rhs.width as int) + 1,
            r.value == self.value + rhs.value,
    {
        let o = match add_output_width(MAX_WIDTH, self.width, rhs.width) {
            Some(o) => o,
            None => 1,
        };
        proof {
            lemma_ranges_fit_storage(o as nat);
        }
        Uint { width: o, value: self.value + rhs.value }
    }

    /// Widening subtraction: the difference of two unsigned values can be
    /// negative, so the output is the signed type one bit wider than the
    /// wider operand, where the exact difference is always representable.
    pub fn sub(self, rhs: Uint) -> (r: Sint)
        requires
            self.valid(),
            rhs.valid(),
            max(self.width as int, rhs.width as int) < MAX_WIDTH,
        ensures
            r.valid(),
            r.width == max(self.width as int, rhs.width as int) + 1,
            r.value == self.value - rhs.value,
    {
        let o = match add_output_width(MAX_WIDTH, self.width, rhs.width) {
            Some(o) => o,
            None => 1,
        };
        proof {
            lemma_ranges_fit_storage(o as nat);
        }
        Sint { width: o, value: self.value as i128 - rhs.value as i128 }
    }

    /// Widening multiplication: the output width is the sum of the
    /// operand widths, so the exact product is always representable.
    /// Defined while that sum does not exceed the family cap.
    pub fn mul(self, rhs: Uint) -> (r: Uint)
        requires
            self.valid(),
            rhs.valid(),
            self.width + rhs.width <= MAX_WIDTH,
        ensures
            r.valid(),
            r.width == self.width + rhs.width,
            r.value == self.value * rhs.value,
    {
        let o = match mul_output_width(MAX_WIDTH, self.width, rhs.width) {
            Some(o) => o,
            None => 1,
        };
        proof {
            lemma_ranges_fit_storage(o as nat);
            lemma_mul_range_unsigned(
                self.width as nat,
                rhs.width as nat,
                self.value as int,
                rhs.value as int,
            );
        }
        Uint { width: o, value: self.value * rhs.value }
    }

    /// Narrowing remainder: the result is bounded by the divisor and by
    /// the dividend, so it always fits the narrower of the two operand
    /// widths; the narrowing needs no check.
    pub fn rem(self, rhs: Uint) -> (r: Uint)
        requires
            self.valid(),
            rhs.valid(),
            rhs.value != 0,
        ensures
            r.valid(),
            r.width == min(self.width as int, rhs.width as int),
            r.value == self.value as int % rhs.value as int,
    {
        let o = rem_output_width(self.width, rhs.width);
        proof {
            lemma_rem_range_unsigned(
                self.width as nat,
                rhs.width as nat,
                self.value as int,
                rhs.value as int,
            );
        }
        Uint { width: o, value: self.value % rhs.value }
    }

    /// Same-width division. Division by zero is a fatal condition, not a
    /// recoverable error, so a zero divisor is excluded here; the checked
    /// variant reports it instead.
    pub fn div(self, rhs: Uint) -> (r: Uint)
        requires
            self.valid(),
            rhs.valid(),
            self.width == rhs.width,
            rhs.value != 0,
        ensures
            r.valid(),
            r.width == self.width,
            r.value == self.value as int / rhs.value as int,
    {
        proof {
            lemma_div_pos_is_pos(self.value as int, rhs.value as int);
            lemma_div_nonincreasing(self.value as int, rhs.value as int);
        }
        Uint { width: self.width, value: self.value / rhs.value }
    }

    /// Bitwise conjunction at equal width, bit for bit on the stored
    /// pattern.
    pub fn bitand(self, rhs: Uint) -> (r: Uint)
        requires
            self.valid(),
            rhs.valid(),
            self.width == rhs.width,
        ensures
            r.valid(),
            r.width == self.width,
            r.value == self.value & rhs.value,
    {
        proof {
            lemma_ranges_fit_storage(self.width as nat);
            lemma_bitwise_bounds(self.value, rhs.value, self.width as u128);
        }
        Uint { width: self.width, value: self.value & rhs.value }
    }

    /// Bitwise disjunction at equal width, bit for bit on the stored
    /// pattern.
    pub fn bitor(self, rhs: Uint) -> (r: Uint)
        requires
            self.valid(),
            rhs.valid(),
            self.width == rhs.width,
        ensures
            r.valid(),
            r.width == self.width,
            r.value == self.value | rhs.value,
    {
        proof {
            lemma_ranges_fit_storage(self.width as nat);
            lemma_bitwise_bounds(self.value, rhs.value, self.width as u128);
        }
        Uint { width: self.width, value: self.value | rhs.value }
    }

    /// Bitwise exclusive disjunction at equal width, bit for bit on the
    /// stored pattern.
    pub fn bitxor(self, rhs: Uint) -> (r: Uint)
        requires
            self.valid(),
            rhs.valid(),
            self.width == rhs.width,
        ensures
            r.valid(),
            r.width == self.width,
            r.value == self.value ^ rhs.value,
    {
        proof {
            lemma_ranges_fit_storage(self.width as nat);
            lemma_bitwise_bounds(self.value, rhs.value, self.width as u128);
        }
        Uint { width: self.width, value: self.value ^ rhs.value }
    }

    /// Bitwise complement constrained to the logical width: every one of
    /// the `width` bits flips, which on the numeric side is subtraction
    /// from the type's maximum. Bits above the width never appear.
    pub fn not(self) -> (r: Uint)
        requires
            self.valid(),
        ensures
            r.valid(),
            r.width == self.width,
            r.value == umax(self.width as nat) - self.value,
    {
        proof {
            lemma_ranges_fit_storage(self.width as nat);
        }
        let p = pow2_u128(self.width);
        Uint { width: self.width, value: (p - 1) - self.value }
    }

    /// Exponentiation by a native exponent. The caller accounts for the
    /// range, exactly as with the narrowing-cast constructor: an exponent
    /// whose exact power leaves the range is excluded.
    pub fn pow(self, exp: u32) -> (r: Uint)
        requires
            self.valid(),
            pow(self.value as int, exp as nat) <= umax(self.width as nat),
        ensures
            r.valid(),
            r.width == self.width,
            r.value == pow(self.value as int, exp as nat),
    {
        proof {
            lemma_ranges_fit_storage(self.width as nat);
        }
        if self.value == 0 {
            if exp == 0 {
                proof {
                    vstd::arithmetic::power::lemma_pow0(0);
                }
                Uint { width: self.width, value: 1 }
            } else {
                proof {
                    vstd::arithmetic::power::lemma0_pow(exp as nat);
                }
                Uint { width: self.width, value: 0 }
            }
        } else {
            let mut i: u32 = 0;
            let mut acc: u128 = 1;
            proof {
                vstd::arithmetic::power::lemma_pow0(self.value as int);
            }
            while i < exp
                invariant
                    self.valid(),
                    i <= exp,
                    self.value >= 1,
                    acc == pow(self.value as int, i as nat),
                    pow(self.value as int, exp as nat) <= umax(self.width as nat),
                decreases exp - i,
            {
                proof {
                    lemma_ranges_fit_storage(self.width as nat);
                    lemma_pow1(self.value as int);
                    lemma_pow_adds(self.value as int, i as nat, 1);
                    lemma_pow_increases(self.value as nat, (i + 1) as nat, exp as nat);
                }
                acc = acc * self.value;
                i = i + 1;
            }
            Uint { width: self.width, value: acc }
        }
    }
}

} // verus!
