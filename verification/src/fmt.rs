//! Formatting of values as text: decimal, binary, octal and hexadecimal
//! (lower and upper case) digit strings, the textual counterparts of
//! [`crate::parse`]. A formatted string consists of the canonical digits
//! of the value in the radix, with no leading zero and, for a negative
//! signed value, a leading minus sign.

use vstd::prelude::*;
use vstd::arithmetic::power::pow;
use crate::parse::{all_digits, digit_value, digits_value, is_digit, MINUS_SIGN};
use crate::policy::{lemma_ranges_fit_storage};
use crate::bytes::reversed;
use crate::uint::Uint;
use crate::sint::Sint;

verus! {

/// The canonical digit byte for a digit value: `0-9`, then `a-z` or
/// `A-Z` by case.
pub open spec fn canonical_digit(d: nat, uppercase: bool) -> u8
    recommends
        d < 36,
{
    if d <= 9 {
        (48 + d) as u8
    } else if uppercase {
        (65 + d - 10) as u8
    } else {
        (97 + d - 10) as u8
    }
}

/// The digit bytes a character sequence stands for.
pub open spec fn char_bytes(s: Seq<char>) -> Seq<u8> {
    s.map_values(|c: char| c as u8)
}

/// What it means for a character sequence to be the formatting of a
/// non-negative value in a radix: at least one digit, every character
/// the canonical digit of its value, no leading zero except for the
/// value zero itself, and the digits standing for exactly the value.
pub open spec fn formatted(s: Seq<char>, radix: nat, uppercase: bool, value: int) -> bool {
    &&& s.len() >= 1
    &&& all_digits(char_bytes(s), radix)
    &&& digits_value(char_bytes(s), radix) == value
    &&& (s.len() > 1 ==> digit_value(char_bytes(s)[0]) != 0)
    &&& (forall|i: int|
        0 <= i < s.len() ==> char_bytes(s)[i] == canonical_digit(
            digit_value(#[trigger] char_bytes(s)[i]),
            uppercase,
        ))
}

/// What it means for a character sequence to be the formatting of a
/// signed value: the formatting of the magnitude, preceded by a minus
/// sign exactly when the value is negative.
pub open spec fn formatted_signed(s: Seq<char>, radix: nat, uppercase: bool, value: int) -> bool {
    if value >= 0 {
        formatted(s, radix, uppercase, value)
    } else {
        s.len() >= 2 && s[0] == (MINUS_SIGN as char) && formatted(
            s.drop_first(),
            radix,
            uppercase,
            -value,
        )
    }
}

/// The value of digit bytes read least-significant-first.
pub open spec fn le_digits_value(s: Seq<u8>, radix: nat) -> nat
    decreases s.len(),
{
    if s.len() == 0 {
        0
    } else {
        (digit_value(s[0]) + radix * le_digits_value(s.drop_first(), radix)) as nat
    }
}

/// Appending a digit adds its value at the next power of the radix.
proof fn lemma_le_digits_push(s: Seq<u8>, x: u8, radix: nat)
    ensures
        le_digits_value(s.push(x), radix) == le_digits_value(s, radix) + digit_value(x) * pow(
            radix as int,
            s.len(),
        ),
    decreases s.len(),
{
    if s.len() == 0 {
        vstd::arithmetic::power::lemma_pow0(radix as int);
        assert(s.push(x).drop_first() =~= Seq::<u8>::empty());
        assert(s.push(x)[0] == x);
        assert(le_digits_value(s.push(x).drop_first(), radix) == 0);
        let pw = pow(radix as int, s.len());
        let d = digit_value(x) as int;
        let r = radix as int;
        assert(d * pw == d && r * 0 == 0) by (nonlinear_arith)
            requires
                pw == 1,
        ;
    } else {
        assert(s.push(x).drop_first() =~= s.drop_first().push(x));
        assert(s.push(x)[0] == s[0]);
        lemma_le_digits_push(s.drop_first(), x, radix);
        vstd::arithmetic::power::lemma_pow1(radix as int);
        vstd::arithmetic::power::lemma_pow_adds(radix as int, 1, (s.len() - 1) as nat);
        let p = pow(radix as int, (s.len() - 1) as nat);
        let lv = le_digits_value(s.drop_first(), radix) as int;
        let d = digit_value(x) as int;
        let r = radix as int;
        let pw = pow(r, s.len());
        assert(pw == r * p);
        assert(r * (lv + d * p) == r * lv + d * pw) by (nonlinear_arith)
            requires
                pw == r * p,
        ;
    }
}

/// A digit string read most-significant-first has the value of its
/// reversal read least-significant-first.
proof fn lemma_digits_value_reverse(s: Seq<u8>, radix: nat)
    ensures
        digits_value(s.reverse(), radix) == le_digits_value(s, radix),
    decreases s.len(),
{
    if s.len() > 0 {
        assert(s.reverse().drop_last() =~= s.drop_first().reverse());
        assert(s.reverse().last() == s[0]);
        lemma_digits_value_reverse(s.drop_first(), radix);
        let lv = le_digits_value(s.drop_first(), radix) as int;
        let r = radix as int;
        assert(lv * r == r * lv) by (nonlinear_arith);
    }
}

/// The canonical byte of a digit value.
fn digit_byte(d: u8, uppercase: bool) -> (r: u8)
    requires
        d < 36,
    ensures
        r == canonical_digit(d as nat, uppercase),
        digit_value(r) == d,
        r < 128,
{
    if d <= 9 {
        48 + d
    } else if uppercase {
        65 + (d - 10)
    } else {
        97 + (d - 10)
    }
}

/// Relies on `String::from_utf8`: UTF-8 is ASCII-transparent, so a
/// vector of bytes below 128 decodes to the string of exactly those
/// characters, one per byte.
#[verifier::external_body]
fn ascii_to_string(bytes: Vec<u8>) -> (r: String)
    requires
        forall|i: int| 0 <= i < bytes@.len() ==> bytes@[i] < 128,
    ensures
        r@.len() == bytes@.len(),
        forall|i: int| 0 <= i < bytes@.len() ==> r@[i] == bytes@[i] as char,
{
    match String::from_utf8(bytes) {
        Ok(s) => s,
        Err(_) => String::new(),
    }
}

/// The canonical digit bytes of a magnitude, most significant first.
fn format_magnitude(value: u128, radix: u32, uppercase: bool) -> (r: Vec<u8>)
    requires
        2 <= radix <= 36,
    ensures
        r@.len() >= 1,
        all_digits(r@, radix as nat),
        digits_value(r@, radix as nat) == value,
        r@.len() > 1 ==> digit_value(r@[0]) != 0,
        forall|i: int|
            0 <= i < r@.len() ==> r@[i] == canonical_digit(
                digit_value(#[trigger] r@[i]),
                uppercase,
            ) && r@[i] < 128,
{
    if value == 0 {
        let mut r: Vec<u8> = Vec::new();
        r.push(48);
        proof {
            assert(r@.drop_last() =~= Seq::<u8>::empty());
            assert(r@.last() == 48);
            assert(digit_value(48) == 0);
            let dl = digits_value(r@.drop_last(), radix as nat) as int;
            assert(dl * radix == 0) by (nonlinear_arith)
                requires
                    dl == 0,
            ;
        }
        return r;
    }
    let mut le: Vec<u8> = Vec::new();
    let mut cur: u128 = value;
    proof {
        vstd::arithmetic::power::lemma_pow0(radix as int);
    }
    while cur > 0
        invariant
            2 <= radix <= 36,
            le_digits_value(le@, radix as nat) + cur * pow(radix as int, le@.len() as nat)
                == value,
            cur > 0 || (le@.len() > 0 && digit_value(le@.last()) != 0),
            forall|j: int|
                0 <= j < le@.len() ==> le@[j] == canonical_digit(
                    digit_value(#[trigger] le@[j]),
                    uppercase,
                ) && le@[j] < 128 && is_digit(le@[j], radix as nat),
        decreases cur,
    {
        let d = (cur % (radix as u128)) as u8;
        let b = digit_byte(d, uppercase);
        let next = cur / (radix as u128);
        proof {
            lemma_le_digits_push(le@, b, radix as nat);
            vstd::arithmetic::div_mod::lemma_fundamental_div_mod(cur as int, radix as int);
            let lv = le_digits_value(le@, radix as nat) as int;
            let p = pow(radix as int, le@.len() as nat);
            let r = radix as int;
            let nx = next as int;
            let dd = d as int;
            assert((r * nx + dd) * p == dd * p + nx * (r * p)) by (nonlinear_arith);
            vstd::arithmetic::power::lemma_pow1(r);
            vstd::arithmetic::power::lemma_pow_adds(r, 1, le@.len() as nat);
            assert(pow(r, (le@.len() + 1) as nat) == r * pow(r, le@.len() as nat));
            vstd::arithmetic::div_mod::lemma_div_is_strictly_smaller(cur as int, radix as int);
            if next == 0 {
                vstd::arithmetic::div_mod::lemma_small_div_converse(cur as int, radix as int);
                vstd::arithmetic::div_mod::lemma_small_mod(cur as nat, radix as nat);
            }
        }
        le.push(b);
        cur = next;
    }
    proof {
        lemma_digits_value_reverse(le@, radix as nat);
    }
    let r = reversed(&le);
    proof {
        assert(r@.len() == le@.len());
        assert(r@[0] == le@.last());
        assert forall|i: int| 0 <= i < r@.len() implies r@[i] == canonical_digit(
            digit_value(#[trigger] r@[i]),
            uppercase,
        ) && r@[i] < 128 by {
            assert(r@[i] == le@[le@.len() - 1 - i]);
        }
        assert forall|i: int| 0 <= i < r@.len() implies #[trigger] is_digit(
            r@[i],
            radix as nat,
        ) by {
            assert(r@[i] == le@[le@.len() - 1 - i]);
        }
    }
    r
}

impl Uint {
    /// Format the value as its canonical digit string in the radix,
    /// lower- or upper-case letters for the digits past nine.
    pub fn to_str_radix(self, radix: u32, uppercase: bool) -> (r: String)
        requires
            self.valid(),
            2 <= radix <= 36,
        ensures
            formatted(r@, radix as nat, uppercase, self.value as int),
    {
        let bytes = format_magnitude(self.value, radix, uppercase);
        let ghost bv = bytes@;
        let s = ascii_to_string(bytes);
        proof {
            assert(char_bytes(s@) =~= bv);
        }
        s
    }

    /// The decimal digit string of the value.
    pub fn to_decimal_string(self) -> (r: String)
        requires
            self.valid(),
        ensures
            formatted(r@, 10, false, self.value as int),
    {
        self.to_str_radix(10, false)
    }

    /// The binary digit string of the value, without a prefix.
    pub fn to_binary_string(self) -> (r: String)
        requires
            self.valid(),
        ensures
            formatted(r@, 2, false, self.value as int),
    {
        self.to_str_radix(2, false)
    }

    /// The octal digit string of the value, without a prefix.
    pub fn to_octal_string(self) -> (r: String)
        requires
            self.valid(),
        ensures
            formatted(r@, 8, false, self.value as int),
    {
        self.to_str_radix(8, false)
    }

    /// The lower-case hexadecimal digit string of the value, without a
    /// prefix.
    pub fn to_lower_hex_string(self) -> (r: String)
        requires
            self.valid(),
        ensures
            formatted(r@, 16, false, self.value as int),
    {
        self.to_str_radix(16, false)
    }

    /// The upper-case hexadecimal digit string of the value, without a
    /// prefix.
    pub fn to_upper_hex_string(self) -> (r: String)
        requires
            self.valid(),
        ensures
            formatted(r@, 16, true, self.value as int),
    {
        self.to_str_radix(16, true)
    }
}

impl Sint {
    /// Format the value as its canonical digit string in the radix, with
    /// a leading minus sign exactly when it is negative.
    pub fn to_str_radix(self, radix: u32, uppercase: bool) -> (r: String)
        requires
            self.valid(),
            2 <= radix <= 36,
        ensures
            formatted_signed(r@, radix as nat, uppercase, self.value as int),
    {
        proof {
            lemma_ranges_fit_storage(self.width as nat);
        }
        if self.value >= 0 {
            let bytes = format_magnitude(self.value as u128, radix, uppercase);
            let ghost bv = bytes@;
            let s = ascii_to_string(bytes);
            proof {
                assert(char_bytes(s@) =~= bv);
            }
            s
        } else {
            let mut digits = format_magnitude((-self.value) as u128, radix, uppercase);
            let ghost dv = digits@;
            let mut bytes: Vec<u8> = Vec::new();
            bytes.push(MINUS_SIGN);
            bytes.append(&mut digits);
            let ghost bv = bytes@;
            let s = ascii_to_string(bytes);
            proof {
                assert(char_bytes(s@) =~= bv);
                assert(char_bytes(s@.drop_first()) =~= dv);
            }
            s
        }
    }

    /// The decimal digit string of the value, sign included.
    pub fn to_decimal_string(self) -> (r: String)
        requires
            self.valid(),
        ensures
            formatted_signed(r@, 10, false, self.value as int),
    {
        self.to_str_radix(10, false)
    }

    /// The binary digit string of the value's magnitude, sign included,
    /// without a prefix.
    pub fn to_binary_string(self) -> (r: String)
        requires
            self.valid(),
        ensures
            formatted_signed(r@, 2, false, self.value as int),
    {
        self.to_str_radix(2, false)
    }

    /// The octal digit string of the value's magnitude, sign included,
    /// without a prefix.
    pub fn to_octal_string(self) -> (r: String)
        requires
            self.valid(),
        ensures
            formatted_signed(r@, 8, false, self.value as int),
    {
        self.to_str_radix(8, false)
    }

    /// The lower-case hexadecimal digit string of the value's magnitude,
    /// sign included, without a prefix.
    pub fn to_lower_hex_string(self) -> (r: String)
        requires
            self.valid(),
        ensures
            formatted_signed(r@, 16, false, self.value as int),
    {
        self.to_str_radix(16, false)
    }

    /// The upper-case hexadecimal digit string of the value's magnitude,
    /// sign included, without a prefix.
    pub fn to_upper_hex_string(self) -> (r: String)
        requires
            self.valid(),
        ensures
            formatted_signed(r@, 16, true, self.value as int),
    {
        self.to_str_radix(16, true)
    }
}

} // verus!
