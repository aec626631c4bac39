//! Integer parts of the colour similarity between two RGB pixels.

use vstd::prelude::*;

verus! {

/// Dot product of two RGB triples.
pub open spec fn dot3(a: [u8; 3], b: [u8; 3]) -> int {
    a@[0] * b@[0] + a@[1] * b@[1] + a@[2] * b@[2]
}

/// Dot product of two RGB triples, each channel read as an integer.
pub fn dot_product(a: [u8; 3], b: [u8; 3]) -> (r: u32)
    ensures
        r == dot3(a, b),
{
    proof {
        vstd::arithmetic::mul::lemma_mul_upper_bound(a@[0] as int, 255, b@[0] as int, 255);
        vstd::arithmetic::mul::lemma_mul_upper_bound(a@[1] as int, 255, b@[1] as int, 255);
        vstd::arithmetic::mul::lemma_mul_upper_bound(a@[2] as int, 255, b@[2] as int, 255);
    }
    a[0] as u32 * b[0] as u32 + a[1] as u32 * b[1] as u32 + a[2] as u32 * b[2] as u32
}

/// Squared Euclidean length of an RGB triple.
pub fn squared_length(v: [u8; 3]) -> (r: u32)
    ensures
        r == dot3(v, v),
{
    dot_product(v, v)
}

} // verus!
