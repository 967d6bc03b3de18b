//! Text-to-value conversion in a radix from 2 to 36: an optional sign
//! followed by digits drawn from `0-9`, `a-z`, `A-Z`, parsed into the
//! storage type and range-checked against the logical range. Malformed or
//! out-of-range text is a parse error; a radix outside `2..=36` is a
//! caller contract violation and is excluded, not reported.

use vstd::prelude::*;
use vstd::string::StringSliceAdditionalSpecFns;
use crate::policy::{
    in_signed_range, lemma_ranges_fit_storage, pow2_u128, umax, valid_width,
};
use crate::uint::Uint;
use crate::sint::Sint;
use crate::ParseIntError;

verus! {

/// ASCII `+`.
pub const PLUS_SIGN: u8 = 43;

/// ASCII `-`.
pub const MINUS_SIGN: u8 = 45;

/// ASCII `0`.
pub const DIGIT_ZERO: u8 = 48;

/// ASCII `9`.
pub const DIGIT_NINE: u8 = 57;

/// ASCII `a`.
pub const LOWER_A: u8 = 97;

/// ASCII `z`.
pub const LOWER_Z: u8 = 122;

/// ASCII `A`.
pub const UPPER_A: u8 = 65;

/// ASCII `Z`.
pub const UPPER_Z: u8 = 90;

/// The numeric value of an ASCII digit byte, for any radix up to 36:
/// `0-9` then `a-z` and `A-Z` as 10 to 35. Bytes that are no digit get a
/// value no radix reaches.
pub open spec fn digit_value(c: u8) -> nat {
    if DIGIT_ZERO <= c <= DIGIT_NINE {
        (c - DIGIT_ZERO) as nat
    } else if LOWER_A <= c <= LOWER_Z {
        (c - LOWER_A + 10) as nat
    } else if UPPER_A <= c <= UPPER_Z {
        (c - UPPER_A + 10) as nat
    } else {
        99
    }
}

/// Whether a byte is a digit of the given radix.
pub open spec fn is_digit(c: u8, radix: nat) -> bool {
    digit_value(c) < radix
}

/// Whether every byte of the sequence is a digit of the given radix.
pub open spec fn all_digits(s: Seq<u8>, radix: nat) -> bool {
    forall|i: int| 0 <= i < s.len() ==> #[trigger] is_digit(s[i], radix)
}

/// The number a sequence of digit bytes stands for, most significant
/// digit first.
pub open spec fn digits_value(s: Seq<u8>, radix: nat) -> nat
    decreases s.len(),
{
    if s.len() == 0 {
        0
    } else {
        digits_value(s.drop_last(), radix) * radix + digit_value(s.last())
    }
}

/// What unsigned parsing makes of a byte sequence: an optional leading
/// `+`, then at least one digit of the radix; anything else is malformed.
pub open spec fn parse_unsigned(s: Seq<u8>, radix: nat) -> Option<nat> {
    let ds = if s.len() > 0 && s[0] == PLUS_SIGN {
        s.drop_first()
    } else {
        s
    };
    if ds.len() > 0 && all_digits(ds, radix) {
        Some(digits_value(ds, radix))
    } else {
        None
    }
}

/// What signed parsing makes of a byte sequence: an optional leading `+`
/// or `-`, then at least one digit of the radix.
pub open spec fn parse_signed(s: Seq<u8>, radix: nat) -> Option<int> {
    if s.len() > 0 && s[0] == MINUS_SIGN {
        let ds = s.drop_first();
        if ds.len() > 0 && all_digits(ds, radix) {
            Some(-(digits_value(ds, radix) as int))
        } else {
            None
        }
    } else {
        match parse_unsigned(s, radix) {
            Some(n) => Some(n as int),
            None => None,
        }
    }
}

/// Classify one byte as a digit of the radix.
fn digit_of(c: u8, radix: u32) -> (r: Option<u8>)
    requires
        2 <= radix <= 36,
    ensures
        r is Some <==> is_digit(c, radix as nat),
        r matches Some(d) ==> d == digit_value(c),
{
    let v: u32 = if DIGIT_ZERO <= c && c <= DIGIT_NINE {
        (c - DIGIT_ZERO) as u32
    } else if LOWER_A <= c && c <= LOWER_Z {
        (c - LOWER_A) as u32 + 10
    } else if UPPER_A <= c && c <= UPPER_Z {
        (c - UPPER_A) as u32 + 10
    } else {
        99
    };
    if v < radix {
        Some(v as u8)
    } else {
        None
    }
}

/// Parse the digits of `bytes` from `start` on, accepting exactly the
/// non-empty all-digit tails whose value does not exceed `maxval`.
fn parse_digits(bytes: &[u8], start: usize, radix: u32, maxval: u128) -> (r: Result<
    u128,
    ParseIntError,
>)
    requires
        2 <= radix <= 36,
        start <= bytes@.len(),
    ensures
        r is Ok <==> (bytes@.skip(start as int).len() > 0 && all_digits(
            bytes@.skip(start as int),
            radix as nat,
        ) && digits_value(bytes@.skip(start as int), radix as nat) <= maxval),
        r matches Ok(v) ==> v == digits_value(bytes@.skip(start as int), radix as nat),
{
    let ghost ds = bytes@.skip(start as int);
    let n = bytes.len();
    if start >= n {
        return Err(ParseIntError);
    }
    let mut acc: u128 = 0;
    let mut over: bool = false;
    let mut i: usize = start;
    while i < n
        invariant
            start <= i <= n,
            n == bytes@.len(),
            start < n,
            2 <= radix <= 36,
            ds == bytes@.skip(start as int),
            forall|j: int| start <= j < i ==> #[trigger] is_digit(bytes@[j], radix as nat),
            !over ==> acc == digits_value(ds.take(i - start), radix as nat) && acc <= maxval,
            over ==> digits_value(ds.take(i - start), radix as nat) > maxval,
        decreases n - i,
    {
        let c = bytes[i];
        let d = match digit_of(c, radix) {
            Some(d) => d,
            None => {
                proof {
                    assert(ds[(i - start) as int] == bytes@[i as int]);
                    assert(!is_digit(ds[(i - start) as int], radix as nat));
                }
                return Err(ParseIntError);
            },
        };
        proof {
            assert(ds.take(i + 1 - start).drop_last() =~= ds.take(i - start));
            assert(ds.take(i + 1 - start).last() == bytes@[i as int]);
        }
        let ghost prefix_value = digits_value(ds.take(i - start), radix as nat);
        let ghost step_value = digits_value(ds.take(i + 1 - start), radix as nat);
        proof {
            assert(step_value == prefix_value * radix + digit_value(c));
            assert(prefix_value * radix >= prefix_value) by (nonlinear_arith)
                requires
                    radix >= 1 && prefix_value >= 0,
            ;
        }
        if !over {
            match acc.checked_mul(radix as u128) {
                Some(t1) => {
                    match t1.checked_add(d as u128) {
                        Some(t2) => {
                            if t2 <= maxval {
                                acc = t2;
                            } else {
                                over = true;
                            }
                        },
                        None => {
                            over = true;
                        },
                    }
                },
                None => {
                    over = true;
                },
            }
        }
        i = i + 1;
    }
    proof {
        assert(ds.take(n - start) =~= ds);
    }
    if over {
        Err(ParseIntError)
    } else {
        Ok(acc)
    }
}

impl Uint {
    /// Parse text of the given radix into the unsigned type of width
    /// `width`: an optional `+` sign, then at least one digit. Succeeds
    /// exactly when the text is well formed and its value is in range;
    /// everything else is a parse error.
    pub fn from_str_radix(width: u32, src: &str, radix: u32) -> (r: Result<Uint, ParseIntError>)
        requires
            valid_width(width as nat),
            2 <= radix <= 36,
        ensures
            r is Ok <==> (parse_unsigned(src.spec_bytes(), radix as nat) matches Some(n) && n
                <= umax(width as nat)),
            r matches Ok(v) ==> (parse_unsigned(src.spec_bytes(), radix as nat) matches Some(n)
                && v.valid() && v.width == width && v.value == n),
    {
        proof {
            lemma_ranges_fit_storage(width as nat);
        }
        let bytes = src.as_bytes();
        let maxval = pow2_u128(width) - 1;
        let start: usize = if bytes.len() > 0 && bytes[0] == PLUS_SIGN {
            1
        } else {
            0
        };
        proof {
            if src.spec_bytes().len() > 0 && src.spec_bytes()[0] == PLUS_SIGN {
                assert(bytes@.skip(1) =~= src.spec_bytes().drop_first());
            } else {
                assert(bytes@.skip(0) =~= src.spec_bytes());
            }
        }
        match parse_digits(bytes, start, radix, maxval) {
            Ok(v) => Ok(Uint { width, value: v }),
            Err(e) => Err(e),
        }
    }
}

impl Sint {
    /// Parse text of the given radix into the signed type of width
    /// `width`: an optional `+` or `-` sign, then at least one digit.
    /// Succeeds exactly when the text is well formed and its value is in
    /// range; everything else is a parse error.
    pub fn from_str_radix(width: u32, src: &str, radix: u32) -> (r: Result<Sint, ParseIntError>)
        requires
            valid_width(width as nat),
            2 <= radix <= 36,
        ensures
            r is Ok <==> (parse_signed(src.spec_bytes(), radix as nat) matches Some(n)
                && in_signed_range(width as nat, n)),
            r matches Ok(v) ==> (parse_signed(src.spec_bytes(), radix as nat) matches Some(n)
                && v.valid() && v.width == width && v.value == n),
    {
        proof {
            lemma_ranges_fit_storage(width as nat);
        }
        let bytes = src.as_bytes();
        let half = pow2_u128(width - 1);
        if bytes.len() > 0 && bytes[0] == MINUS_SIGN {
            proof {
                assert(bytes@.skip(1) =~= src.spec_bytes().drop_first());
            }
            match parse_digits(bytes, 1, radix, half) {
                Ok(v) => Ok(Sint { width, value: -(v as i128) }),
                Err(e) => Err(e),
            }
        } else {
            let start: usize = if bytes.len() > 0 && bytes[0] == PLUS_SIGN {
                1
            } else {
                0
            };
            proof {
                if src.spec_bytes().len() > 0 && src.spec_bytes()[0] == PLUS_SIGN {
                    assert(bytes@.skip(1) =~= src.spec_bytes().drop_first());
                } else {
                    assert(bytes@.skip(0) =~= src.spec_bytes());
                }
            }
            match parse_digits(bytes, start, radix, half - 1) {
                Ok(v) => Ok(Sint { width, value: v as i128 }),
                Err(e) => Err(e),
            }
        }
    }
}

} // verus!
