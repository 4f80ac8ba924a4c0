use vstd::prelude::*;

verus! {

// Single-precision floats are carried as their IEEE-754 bit patterns:
// bit 31 is the sign, bits 23..31 the exponent, bits 0..23 the fraction.

/// The float is +0.0 or -0.0 (both compare equal to 0.0).
pub open spec fn is_zero_bits(bits: u32) -> bool {
    bits & 0x7fff_ffffu32 == 0
}

/// The float is neither infinite nor NaN (its exponent is not all ones).
pub open spec fn is_finite_bits(bits: u32) -> bool {
    bits & 0x7f80_0000u32 != 0x7f80_0000u32
}

/// The float is a NaN (exponent all ones, fraction non-zero).
pub open spec fn is_nan_bits(bits: u32) -> bool {
    bits & 0x7f80_0000u32 == 0x7f80_0000u32 && bits & 0x007f_ffffu32 != 0
}

/// An integer that orders non-NaN floats as their values are ordered:
/// for non-NaN `a` and `b`, `a < b` as floats exactly when
/// `order_key(a) < order_key(b)`, and `a == b` exactly when the keys are equal
/// (so -0.0 and +0.0 share the key 0).
pub open spec fn order_key(bits: u32) -> int {
    if bits & 0x8000_0000u32 != 0 {
        -((bits & 0x7fff_ffffu32) as int)
    } else {
        (bits & 0x7fff_ffffu32) as int
    }
}

/// `a >= b` as floats: false whenever either is NaN.
pub open spec fn float_ge(a: u32, b: u32) -> bool {
    !is_nan_bits(a) && !is_nan_bits(b) && order_key(a) >= order_key(b)
}

pub fn is_zero(bits: u32) -> (r: bool)
    ensures
        r == is_zero_bits(bits),
{
    bits & 0x7fff_ffffu32 == 0
}

pub fn is_finite(bits: u32) -> (r: bool)
    ensures
        r == is_finite_bits(bits),
{
    bits & 0x7f80_0000u32 != 0x7f80_0000u32
}

pub fn is_nan(bits: u32) -> (r: bool)
    ensures
        r == is_nan_bits(bits),
{
    bits & 0x7f80_0000u32 == 0x7f80_0000u32 && bits & 0x007f_ffffu32 != 0
}

/// The order key of a float, as an `i64`.
pub fn order_key_of(bits: u32) -> (k: i64)
    ensures
        k == order_key(bits),
{
    let magnitude: u32 = bits & 0x7fff_ffffu32;
    if bits & 0x8000_0000u32 != 0 {
        -(magnitude as i64)
    } else {
        magnitude as i64
    }
}

/// `a >= b` as floats.
pub fn float_ge_bits(a: u32, b: u32) -> (r: bool)
    ensures
        r == float_ge(a, b),
{
    !is_nan(a) && !is_nan(b) && order_key_of(a) >= order_key_of(b)
}

// ── Embedding vectors ────────────────────────────────────────────────────────

/// Some component of the vector is non-zero (a NaN counts as non-zero).
pub open spec fn has_nonzero(e: Seq<u32>) -> bool {
    exists|i: int| 0 <= i < e.len() && !is_zero_bits(#[trigger] e[i])
}

/// Every component is finite.
pub open spec fn all_finite(e: Seq<u32>) -> bool {
    forall|i: int| 0 <= i < e.len() ==> is_finite_bits(#[trigger] e[i])
}

/// A vector that holds an embedding: non-empty with some non-zero component.
pub open spec fn holds_embedding(e: Seq<u32>) -> bool {
    e.len() > 0 && has_nonzero(e)
}

/// A vector fit to be cached: non-empty, all components finite, and some non-zero.
pub open spec fn is_valid_embedding(e: Seq<u32>) -> bool {
    e.len() > 0 && all_finite(e) && has_nonzero(e)
}

/// Decides `holds_embedding`.
pub fn embedding_present(e: &Vec<u32>) -> (r: bool)
    ensures
        r == holds_embedding(e@),
{
    let n = e.len();
    for i in 0..n
        invariant
            n == e@.len(),
            forall|j: int| 0 <= j < i ==> is_zero_bits(#[trigger] e@[j]),
    {
        if !is_zero(e[i]) {
            return true;
        }
    }
    false
}

/// Decides `is_valid_embedding`.
pub fn embedding_valid(e: &Vec<u32>) -> (r: bool)
    ensures
        r == is_valid_embedding(e@),
{
    let n = e.len();
    if n == 0 {
        return false;
    }
    let mut has_non_zero = false;
    for i in 0..n
        invariant
            n == e@.len(),
            forall|j: int| 0 <= j < i ==> is_finite_bits(#[trigger] e@[j]),
            has_non_zero == exists|j: int| 0 <= j < i && !is_zero_bits(#[trigger] e@[j]),
    {
        if !is_finite(e[i]) {
            return false;
        }
        if !is_zero(e[i]) {
            has_non_zero = true;
        }
    }
    has_non_zero
}

} // verus!
