//! A family of fixed-width integer values of arbitrary bit width (1 to 127
//! bits, unsigned and signed), each behaving like a native machine integer
//! with an exact, possibly non-power-of-two width.
//!
//! The heart of the crate is the width policy: for every width the storage
//! type, numeric range, mask and byte length are derived, and for every pair
//! of widths the conversion rule and the widened result width of each
//! arithmetic operator are chosen so that a widening operation can never
//! overflow. The policy lives in [`policy`]; the value types built on it are
//! [`uint::Uint`] and [`sint::Sint`].

use vstd::prelude::*;

pub mod policy;
pub mod bitops;
pub mod uint;
pub mod sint;
pub mod bytes;
pub mod parse;
pub mod fmt;
pub mod laws;

verus! {

/// Error returned when a fallible conversion lands outside the target
/// type's representable range.
#[derive(Debug, Clone, Copy, PartialEq, Eq, Structural)]
pub struct TryFromIntError;

/// Error returned when text does not parse as an integer in the requested
/// radix, or parses to a value outside the target type's range.
#[derive(Debug, Clone, Copy, PartialEq, Eq, Structural)]
pub struct ParseIntError;

/// Copy the first `m` elements of a slice and the rest into two fresh
/// vectors.
fn slice_split_array_mut<T: Copy>(slice: &[T], m: usize) -> (r: (Vec<T>, Vec<T>))
    requires
        m <= slice@.len(),
    ensures
        r.0@ == slice@.take(m as int),
        r.1@ == slice@.skip(m as int),
{
    let n = slice.len();
    let mut first: Vec<T> = Vec::new();
    let mut rest: Vec<T> = Vec::new();
    let mut i: usize = 0;
    while i < m
        invariant
            i <= m <= n,
            n == slice@.len(),
            first@.len() == i,
            forall|j: int| 0 <= j < i ==> first@[j] == slice@[j],
        decreases m - i,
    {
        let x = slice[i];
        first.push(x);
        i = i + 1;
    }
    let mut k: usize = m;
    while k < n
        invariant
            m <= k <= n,
            n == slice@.len(),
            rest@.len() == k - m,
            forall|j: int| 0 <= j < k - m ==> rest@[j] == slice@[m + j],
        decreases n - k,
    {
        let x = slice[k];
        rest.push(x);
        k = k + 1;
    }
    assert(first@ =~= slice@.take(m as int));
    assert(rest@ =~= slice@.skip(m as int));
    (first, rest)
}

/// Copy all but the last `m` elements of a slice and those last `m` into
/// two fresh vectors.
fn slice_rsplit_array_mut<T: Copy>(slice: &[T], m: usize) -> (r: (Vec<T>, Vec<T>))
    requires
        m <= slice@.len(),
    ensures
        r.0@ == slice@.take(slice@.len() - m),
        r.1@ == slice@.skip(slice@.len() - m),
{
    let n = slice.len();
    slice_split_array_mut(slice, n - m)
}

/// Split off the first `m` elements of a vector: the counterpart of the
/// standard library's array splitting, returning the two halves as fresh
/// vectors rather than as borrows.
pub fn array_split_array_mut<T: Copy>(array: &Vec<T>, m: usize) -> (r: (Vec<T>, Vec<T>))
    requires
        m <= array@.len(),
    ensures
        r.0@ == array@.take(m as int),
        r.1@ == array@.skip(m as int),
{
    slice_split_array_mut(array.as_slice(), m)
}

/// Split off the last `m` elements of a vector: the counterpart of the
/// standard library's array splitting from the right, returning the two
/// parts as fresh vectors rather than as borrows.
pub fn array_rsplit_array_mut<T: Copy>(array: &Vec<T>, m: usize) -> (r: (Vec<T>, Vec<T>))
    requires
        m <= array@.len(),
    ensures
        r.0@ == array@.take(array@.len() - m),
        r.1@ == array@.skip(array@.len() - m),
{
    slice_rsplit_array_mut(array.as_slice(), m)
}

} // verus!
