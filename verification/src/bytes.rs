//! The minimal external byte representation: exactly `ceil(width / 8)`
//! bytes in big-, little- or native-endian order, zero-padded for the
//! unsigned types and sign-extended for the signed ones.

use vstd::prelude::*;
use vstd::arithmetic::power2::{pow2, lemma_pow2_adds, lemma_pow2_pos,
    lemma_pow2_strictly_increases, lemma2_to64};
use vstd::arithmetic::div_mod::{
    lemma_breakdown, lemma_div_basics, lemma_div_denominator,
    lemma_fundamental_div_mod_converse_mod, lemma_mod_bound,
    lemma_mod_division_less_than_divisor, lemma_small_mod,
};
use vstd::seq_lib::*;
use crate::policy::{
    byte_length_of, in_signed_range, lemma_byte_length_exact, lemma_pow2_storage_bounds,
    lemma_ranges_fit_storage, pow2_u128, umax, valid_width,
};
use crate::uint::Uint;
use crate::sint::Sint;
use crate::TryFromIntError;

verus! {

/// Byte `i` (counted from the least significant end) of the natural
/// number `v`.
pub open spec fn byte_at(v: nat, i: nat) -> u8 {
    (((v / pow2(8 * i)) % 256) as u8)
}

/// The `n`-byte little-endian representation of `v`: byte `i` holds
/// `(v / 2^(8 i)) mod 256`. High-order bytes beyond the magnitude of `v`
/// are zero.
pub open spec fn le_bytes_of(v: nat, n: nat) -> Seq<u8> {
    Seq::new(n, |i: int| byte_at(v, i as nat))
}

/// The `n`-byte big-endian representation of `v`: the little-endian one
/// reversed.
pub open spec fn be_bytes_of(v: nat, n: nat) -> Seq<u8> {
    le_bytes_of(v, n).reverse()
}

/// The natural number a little-endian byte sequence stands for.
pub open spec fn le_value(s: Seq<u8>) -> nat
    decreases s.len(),
{
    if s.len() == 0 {
        0
    } else {
        (s[0] + 256 * le_value(s.drop_first())) as nat
    }
}

/// The natural number a big-endian byte sequence stands for.
pub open spec fn be_value(s: Seq<u8>) -> nat {
    le_value(s.reverse())
}

/// The width-`nb` two's-complement pattern of a signed value, as a
/// natural number.
pub open spec fn signed_pattern(v: int, nb: nat) -> nat {
    (v % (pow2(nb) as int)) as nat
}

/// The signed value a width-`nb` pattern stands for: patterns with the
/// top bit clear keep their value, the rest drop by `2^nb`.
pub open spec fn signed_value(u: nat, nb: nat) -> int
    recommends
        nb >= 1,
{
    if u < pow2((nb - 1) as nat) {
        u as int
    } else {
        u - pow2(nb)
    }
}

/// A little-endian value is bounded by `2^(8 n)` for `n` bytes.
pub proof fn lemma_le_value_bound(s: Seq<u8>)
    ensures
        le_value(s) < pow2(8 * s.len()),
    decreases s.len(),
{
    if s.len() == 0 {
        lemma2_to64();
    } else {
        lemma_le_value_bound(s.drop_first());
        lemma_pow2_adds(8, 8 * (s.len() - 1) as nat);
        lemma2_to64();
    }
}

/// Round trip of the little-endian encoding: decoding the `n`-byte
/// representation of `v` yields `v` reduced modulo `2^(8 n)`, hence `v`
/// itself whenever `v` fits in `n` bytes.
pub proof fn lemma_le_round_trip(v: nat, n: nat)
    ensures
        le_value(le_bytes_of(v, n)) == v % pow2(8 * n),
    decreases n,
{
    lemma_pow2_pos(8 * n);
    if n == 0 {
        lemma2_to64();
        lemma_mod_division_less_than_divisor(v as int, 1);
    } else {
        let s = le_bytes_of(v, n);
        lemma2_to64();
        lemma_pow2_pos(8 * (n - 1) as nat);
        assert(s[0] == byte_at(v, 0));
        assert(pow2(0) == 1);
        lemma_div_basics(v as int);
        assert(s[0] == v % 256);
        assert forall|i: int| 0 <= i < n - 1 implies s.drop_first()[i] == le_bytes_of(
            (v / 256) as nat,
            (n - 1) as nat,
        )[i] by {
            lemma_pow2_pos(8 * i as nat);
            lemma_pow2_adds(8, 8 * i as nat);
            lemma_div_denominator(v as int, 256, pow2(8 * i as nat) as int);
            assert(byte_at(v, (i + 1) as nat) == byte_at((v / 256) as nat, i as nat));
        }
        assert(s.drop_first() =~= le_bytes_of((v / 256) as nat, (n - 1) as nat));
        lemma_le_round_trip((v / 256) as nat, (n - 1) as nat);
        lemma_pow2_adds(8, 8 * (n - 1) as nat);
        lemma_breakdown(v as int, 256, pow2(8 * (n - 1) as nat) as int);
    }
}

/// Round trip of the big-endian encoding, by the involution of reversal.
pub proof fn lemma_be_round_trip(v: nat, n: nat)
    ensures
        be_value(be_bytes_of(v, n)) == v % pow2(8 * n),
{
    assert(le_bytes_of(v, n).reverse().reverse() =~= le_bytes_of(v, n));
    lemma_le_round_trip(v, n);
}

/// The pattern of an in-range signed value decodes back to the value:
/// non-negative values are their own pattern, negative ones sit at
/// `v + 2^nb`, above the sign boundary.
pub proof fn lemma_signed_pattern_round_trip(w: nat, nb: nat, v: int)
    requires
        valid_width(w),
        w <= nb <= 128,
        in_signed_range(w, v),
    ensures
        signed_pattern(v, nb) < pow2(nb),
        v >= 0 ==> signed_pattern(v, nb) == v,
        v < 0 ==> signed_pattern(v, nb) == v + pow2(nb),
        signed_value(signed_pattern(v, nb), nb) == v,
{
    let p = pow2(nb) as int;
    lemma_pow2_pos(nb);
    lemma_pow2_pos((nb - 1) as nat);
    lemma_pow2_pos((w - 1) as nat);
    lemma_mod_bound(v, p);
    if ((w - 1) as nat) < ((nb - 1) as nat) {
        lemma_pow2_strictly_increases((w - 1) as nat, (nb - 1) as nat);
    }
    lemma_pow2_adds((nb - 1) as nat, 1);
    lemma2_to64();
    assert(pow2(nb) == pow2((nb - 1) as nat) * 2);
    if v >= 0 {
        lemma_small_mod(v as nat, pow2(nb));
    } else {
        lemma_fundamental_div_mod_converse_mod(v, p, -1, v + p);
    }
}

/// Reverse the bytes of a vector.
pub(crate) fn reversed(bytes: &Vec<u8>) -> (r: Vec<u8>)
    ensures
        r@ == bytes@.reverse(),
{
    let n = bytes.len();
    let mut r: Vec<u8> = Vec::new();
    let mut i: usize = 0;
    while i < n
        invariant
            i <= n,
            n == bytes@.len(),
            r@.len() == i,
            forall|j: int| 0 <= j < i ==> r@[j] == bytes@[n - 1 - j],
        decreases n - i,
    {
        let b = bytes[n - 1 - i];
        r.push(b);
        i = i + 1;
    }
    assert(r@ =~= bytes@.reverse());
    r
}

/// Encode the low `n` bytes of `v` in little-endian order.
fn le_encode(v: u128, n: usize) -> (r: Vec<u8>)
    requires
        n <= 16,
    ensures
        r@ == le_bytes_of(v as nat, n as nat),
{
    let mut r: Vec<u8> = Vec::new();
    let mut cur: u128 = v;
    let mut i: usize = 0;
    proof {
        lemma2_to64();
        lemma_div_basics(v as int);
    }
    while i < n
        invariant
            i <= n,
            r@.len() == i,
            cur == v as nat / pow2(8 * i as nat),
            forall|j: int| 0 <= j < i ==> r@[j] == byte_at(v as nat, j as nat),
        decreases n - i,
    {
        proof {
            lemma_pow2_pos(8 * i as nat);
            lemma_pow2_adds(8 * i as nat, 8);
            lemma_div_denominator(v as int, pow2(8 * i as nat) as int, 256);
            lemma2_to64();
        }
        let b = (cur % 256) as u8;
        r.push(b);
        cur = cur / 256;
        i = i + 1;
    }
    assert(r@ =~= le_bytes_of(v as nat, n as nat));
    r
}

/// Decode a little-endian byte sequence into the storage type; every
/// sequence of at most 16 bytes fits.
fn le_decode(bytes: &Vec<u8>) -> (r: u128)
    requires
        bytes@.len() <= 16,
    ensures
        r == le_value(bytes@),
{
    let n = bytes.len();
    let mut acc: u128 = 0;
    let mut j: usize = n;
    while j > 0
        invariant
            j <= n,
            n == bytes@.len() <= 16,
            acc == le_value(bytes@.skip(j as int)),
        decreases j,
    {
        proof {
            lemma_le_value_bound(bytes@.skip(j as int));
            if (8 * ((n - j) as nat)) < 120 {
                lemma_pow2_strictly_increases(8 * ((n - j) as nat), 120);
            }
            lemma_pow2_adds(8, 120);
            lemma2_to64();
            lemma_pow2_storage_bounds();
            assert(bytes@.skip(j - 1).drop_first() =~= bytes@.skip(j as int));
            assert(bytes@.skip(j - 1)[0] == bytes@[j - 1]);
        }
        j = j - 1;
        let b = bytes[j];
        acc = (b as u128) + 256 * acc;
    }
    assert(bytes@.skip(0) =~= bytes@);
    acc
}

impl Uint {
    /// The little-endian byte representation: exactly `ceil(width / 8)`
    /// bytes, high-order padding bytes zero.
    pub fn to_le_bytes(self) -> (r: Vec<u8>)
        requires
            self.valid(),
        ensures
            r@ == le_bytes_of(self.value as nat, byte_length_of(self.width as nat)),
            r@.len() == byte_length_of(self.width as nat),
    {
        proof {
            lemma_byte_length_exact(self.width as nat);
        }
        let bl = ((self.width + 7) / 8) as usize;
        le_encode(self.value, bl)
    }

    /// The big-endian (network order) byte representation: exactly
    /// `ceil(width / 8)` bytes, high-order padding bytes zero.
    pub fn to_be_bytes(self) -> (r: Vec<u8>)
        requires
            self.valid(),
        ensures
            r@ == be_bytes_of(self.value as nat, byte_length_of(self.width as nat)),
            r@.len() == byte_length_of(self.width as nat),
    {
        let le = self.to_le_bytes();
        reversed(&le)
    }

    /// The native-endian byte representation. The supported targets are
    /// little-endian, so this is fixed to the little-endian order at
    /// generation time; it is a convenience alias, not independent logic.
    pub fn to_ne_bytes(self) -> (r: Vec<u8>)
        requires
            self.valid(),
        ensures
            r@ == le_bytes_of(self.value as nat, byte_length_of(self.width as nat)),
            r@.len() == byte_length_of(self.width as nat),
    {
        self.to_le_bytes()
    }

    /// Decode a value of width `width` from its little-endian byte
    /// representation: succeeds exactly when the decoded number is in
    /// range, which every encoding this type produced is.
    pub fn from_le_bytes(width: u32, bytes: &Vec<u8>) -> (r: Result<Uint, TryFromIntError>)
        requires
            valid_width(width as nat),
            bytes@.len() == byte_length_of(width as nat),
        ensures
            r is Ok <==> le_value(bytes@) <= umax(width as nat),
            r matches Ok(v) ==> v.valid() && v.width == width && v.value == le_value(bytes@),
    {
        proof {
            lemma_byte_length_exact(width as nat);
            lemma_le_value_bound(bytes@);
        }
        let x = le_decode(bytes);
        Uint::try_from_u128(width, x)
    }

    /// Decode a value of width `width` from its big-endian byte
    /// representation.
    pub fn from_be_bytes(width: u32, bytes: &Vec<u8>) -> (r: Result<Uint, TryFromIntError>)
        requires
            valid_width(width as nat),
            bytes@.len() == byte_length_of(width as nat),
        ensures
            r is Ok <==> be_value(bytes@) <= umax(width as nat),
            r matches Ok(v) ==> v.valid() && v.width == width && v.value == be_value(bytes@),
    {
        let rev = reversed(bytes);
        Uint::from_le_bytes(width, &rev)
    }

    /// Decode a value of width `width` from its native-endian byte
    /// representation; fixed to little-endian as in [`Uint::to_ne_bytes`].
    pub fn from_ne_bytes(width: u32, bytes: &Vec<u8>) -> (r: Result<Uint, TryFromIntError>)
        requires
            valid_width(width as nat),
            bytes@.len() == byte_length_of(width as nat),
        ensures
            r is Ok <==> le_value(bytes@) <= umax(width as nat),
            r matches Ok(v) ==> v.valid() && v.width == width && v.value == le_value(bytes@),
    {
        Uint::from_le_bytes(width, bytes)
    }
}

impl Sint {
    /// The little-endian byte representation: exactly `ceil(width / 8)`
    /// bytes of the value's two's-complement pattern, high-order bytes
    /// sign-extended.
    pub fn to_le_bytes(self) -> (r: Vec<u8>)
        requires
            self.valid(),
        ensures
            r@ == le_bytes_of(
                signed_pattern(self.value as int, 8 * byte_length_of(self.width as nat)),
                byte_length_of(self.width as nat),
            ),
            r@.len() == byte_length_of(self.width as nat),
    {
        proof {
            lemma_byte_length_exact(self.width as nat);
            lemma_ranges_fit_storage(self.width as nat);
            lemma_signed_pattern_round_trip(
                self.width as nat,
                8 * byte_length_of(self.width as nat),
                self.value as int,
            );
            lemma_pow2_storage_bounds();
        }
        let bl = ((self.width + 7) / 8) as usize;
        let nb = 8 * (bl as u32);
        let u: u128 = if self.value >= 0 {
            self.value as u128
        } else {
            let mag = (-self.value) as u128;
            if nb == 128 {
                (u128::MAX - mag) + 1
            } else {
                proof {
                    if (nb as nat) < 127 {
                        lemma_pow2_strictly_increases(nb as nat, 127);
                    }
                }
                pow2_u128(nb) - mag
            }
        };
        le_encode(u, bl)
    }

    /// The big-endian (network order) byte representation of the
    /// sign-extended two's-complement pattern.
    pub fn to_be_bytes(self) -> (r: Vec<u8>)
        requires
            self.valid(),
        ensures
            r@ == be_bytes_of(
                signed_pattern(self.value as int, 8 * byte_length_of(self.width as nat)),
                byte_length_of(self.width as nat),
            ),
            r@.len() == byte_length_of(self.width as nat),
    {
        let le = self.to_le_bytes();
        reversed(&le)
    }

    /// The native-endian byte representation; fixed to little-endian as
    /// in [`Uint::to_ne_bytes`].
    pub fn to_ne_bytes(self) -> (r: Vec<u8>)
        requires
            self.valid(),
        ensures
            r@ == le_bytes_of(
                signed_pattern(self.value as int, 8 * byte_length_of(self.width as nat)),
                byte_length_of(self.width as nat),
            ),
            r@.len() == byte_length_of(self.width as nat),
    {
        self.to_le_bytes()
    }

    /// Decode a value of width `width` from its little-endian
    /// two's-complement byte representation: the bytes stand for a value
    /// of `8 * ceil(width / 8)` bits, and decoding succeeds exactly when
    /// that value lies in the width's narrower range.
    pub fn from_le_bytes(width: u32, bytes: &Vec<u8>) -> (r: Result<Sint, TryFromIntError>)
        requires
            valid_width(width as nat),
            bytes@.len() == byte_length_of(width as nat),
        ensures
            r is Ok <==> in_signed_range(
                width as nat,
                signed_value(le_value(bytes@), 8 * byte_length_of(width as nat)),
            ),
            r matches Ok(v) ==> v.valid() && v.width == width && v.value == signed_value(
                le_value(bytes@),
                8 * byte_length_of(width as nat),
            ),
    {
        proof {
            lemma_byte_length_exact(width as nat);
            lemma_le_value_bound(bytes@);
            lemma_ranges_fit_storage(width as nat);
            lemma_pow2_storage_bounds();
        }
        let bl = ((width + 7) / 8) as usize;
        let nb = 8 * (bl as u32);
        let u = le_decode(bytes);
        let half = pow2_u128(nb - 1);
        proof {
            if ((nb - 1) as nat) < 127 {
                lemma_pow2_strictly_increases((nb - 1) as nat, 127);
            }
            lemma_pow2_adds((nb - 1) as nat, 1);
            lemma2_to64();
            assert(pow2(nb as nat) == pow2((nb - 1) as nat) * 2);
        }
        let val: i128 = if u < half {
            u as i128
        } else {
            if nb == 128 {
                -((u128::MAX - u) as i128) - 1
            } else {
                proof {
                    if (nb as nat) < 127 {
                        lemma_pow2_strictly_increases(nb as nat, 127);
                    }
                }
                -((pow2_u128(nb) - u) as i128)
            }
        };
        Sint::try_from_i128(width, val)
    }

    /// Decode a value of width `width` from its big-endian
    /// two's-complement byte representation.
    pub fn from_be_bytes(width: u32, bytes: &Vec<u8>) -> (r: Result<Sint, TryFromIntError>)
        requires
            valid_width(width as nat),
            bytes@.len() == byte_length_of(width as nat),
        ensures
            r is Ok <==> in_signed_range(
                width as nat,
                signed_value(be_value(bytes@), 8 * byte_length_of(width as nat)),
            ),
            r matches Ok(v) ==> v.valid() && v.width == width && v.value == signed_value(
                be_value(bytes@),
                8 * byte_length_of(width as nat),
            ),
    {
        let rev = reversed(bytes);
        Sint::from_le_bytes(width, &rev)
    }

    /// Decode a value of width `width` from its native-endian byte
    /// representation; fixed to little-endian as in [`Uint::to_ne_bytes`].
    pub fn from_ne_bytes(width: u32, bytes: &Vec<u8>) -> (r: Result<Sint, TryFromIntError>)
        requires
            valid_width(width as nat),
            bytes@.len() == byte_length_of(width as nat),
        ensures
            r is Ok <==> in_signed_range(
                width as nat,
                signed_value(le_value(bytes@), 8 * byte_length_of(width as nat)),
            ),
            r matches Ok(v) ==> v.valid() && v.width == width && v.value == signed_value(
                le_value(bytes@),
                8 * byte_length_of(width as nat),
            ),
    {
        Sint::from_le_bytes(width, bytes)
    }
}

} // verus!
