//! Perceptual hashes of images and the bit distance between them.

use vstd::prelude::*;

use crate::pixels::PixelBuffer;

verus! {

/// Largest hash length, in bytes, whose bit count fits in a `u64`.
pub const MAX_HASH_BYTES: u64 = 0x1fff_ffff_ffff_ffff;

/// Bytes of the perceptual hash that the default hasher computes for an RGB
/// image of the given size.
pub uninterp spec fn perceptual_hash_of(pixels: Seq<u8>, width: u32, height: u32) -> Seq<u8>;

/// Number of set bits in `n`.
pub open spec fn bit_count(n: nat) -> nat
    decreases n,
{
    if n == 0 {
        0
    } else {
        n % 2 + bit_count(n / 2)
    }
}

/// Number of differing bits among the first `n` byte pairs of `a` and `b`.
pub open spec fn differing_bits(a: Seq<u8>, b: Seq<u8>, n: int) -> nat
    decreases n,
{
    if n <= 0 {
        0
    } else {
        differing_bits(a, b, n - 1) + bit_count((a[n - 1] ^ b[n - 1]) as nat)
    }
}

/// Hamming distance of two byte strings, compared over their common length.
pub open spec fn hamming(a: Seq<u8>, b: Seq<u8>) -> nat {
    differing_bits(a, b, if a.len() <= b.len() { a.len() as int } else { b.len() as int })
}

/// A fixed-width fingerprint of an image's coarse structure.
#[derive(Clone, Debug)]
pub struct PerceptualHash {
    pub bytes: Vec<u8>,
}

spec fn two_to(k: nat) -> nat
    decreases k,
{
    if k == 0 {
        1
    } else {
        2 * two_to((k - 1) as nat)
    }
}

proof fn lemma_bit_count_bound(n: nat, k: nat)
    requires
        n < two_to(k),
    ensures
        bit_count(n) <= k,
    decreases k,
{
    if k > 0 && n > 0 {
        lemma_bit_count_bound(n / 2, (k - 1) as nat);
    }
}

/// Number of set bits in one byte.
fn byte_bit_count(b: u8) -> (r: u64)
    ensures
        r == bit_count(b as nat),
        r <= 8,
{
    proof {
        reveal_with_fuel(two_to, 9);
        assert(two_to(8) == 256);
        lemma_bit_count_bound(b as nat, 8);
    }
    let mut v: u8 = b;
    let mut r: u64 = 0;
    while v != 0
        invariant
            r + bit_count(v as nat) == bit_count(b as nat),
            bit_count(b as nat) <= 8,
        decreases v,
    {
        r = r + (v % 2) as u64;
        v = v / 2;
    }
    r
}

/// Relies on `img_hash::Hasher::hash_image` with the default configuration of
/// `img_hash::HasherConfig::new()`: a gradient hash of 8 x 8 bits, so 8 bytes,
/// computed from the image's pixels alone.
#[verifier::external_body]
fn hash_pixels(image: &PixelBuffer) -> (r: Vec<u8>)
    requires
        image.wf(),
        image.width > 0,
        image.height > 0,
    ensures
        r@ == perceptual_hash_of(image.pixels@, image.width, image.height),
        r@.len() == 8,
{
    let buffer = image::RgbImage::from_raw(image.width, image.height, image.pixels.clone()).unwrap();
    img_hash::HasherConfig::new().to_hasher().hash_image(&buffer).as_bytes().to_vec()
}

impl PerceptualHash {
    /// The hash of a non-empty image.
    pub fn of_image(image: &PixelBuffer) -> (r: PerceptualHash)
        requires
            image.wf(),
            image.width > 0,
            image.height > 0,
        ensures
            r.bytes@ == perceptual_hash_of(image.pixels@, image.width, image.height),
            r.bytes@.len() == 8,
    {
        PerceptualHash { bytes: hash_pixels(image) }
    }

    /// The hash is short enough for its bit count to fit in a `u64`.
    pub open spec fn fits(&self) -> bool {
        self.bytes@.len() <= MAX_HASH_BYTES
    }

    /// Number of differing bits between the two hashes.
    pub fn distance(&self, other: &PerceptualHash) -> (r: u64)
        requires
            self.fits(),
            other.fits(),
        ensures
            r == hamming(self.bytes@, other.bytes@),
    {
        let n = if self.bytes.len() <= other.bytes.len() {
            self.bytes.len()
        } else {
            other.bytes.len()
        };
        let mut r: u64 = 0;
        let mut i: usize = 0;
        while i < n
            invariant
                n <= self.bytes@.len(),
                n <= other.bytes@.len(),
                n <= MAX_HASH_BYTES,
                i <= n,
                r == differing_bits(self.bytes@, other.bytes@, i as int),
                r <= 8 * i,
            decreases n - i,
        {
            let c = byte_bit_count(self.bytes[i] ^ other.bytes[i]);
            r = r + c;
            i = i + 1;
        }
        r
    }
}

proof fn lemma_differing_bits_symmetric(a: Seq<u8>, b: Seq<u8>, n: int)
    ensures
        differing_bits(a, b, n) == differing_bits(b, a, n),
    decreases n,
{
    if n > 0 {
        lemma_differing_bits_symmetric(a, b, n - 1);
        let x = a[n - 1];
        let y = b[n - 1];
        assert(x ^ y == y ^ x) by (bit_vector);
    }
}

proof fn lemma_differing_bits_self(a: Seq<u8>, n: int)
    ensures
        differing_bits(a, a, n) == 0,
    decreases n,
{
    if n > 0 {
        lemma_differing_bits_self(a, n - 1);
        let x = a[n - 1];
        assert(x ^ x == 0) by (bit_vector);
    }
}

/// Hash distance is symmetric: `h1` is as far from `h2` as `h2` is from `h1`.
pub proof fn lemma_distance_symmetric(h1: PerceptualHash, h2: PerceptualHash)
    ensures
        hamming(h1.bytes@, h2.bytes@) == hamming(h2.bytes@, h1.bytes@),
{
    let n = if h1.bytes@.len() <= h2.bytes@.len() {
        h1.bytes@.len() as int
    } else {
        h2.bytes@.len() as int
    };
    lemma_differing_bits_symmetric(h1.bytes@, h2.bytes@, n);
}

/// Every hash is at distance zero from itself.
pub proof fn lemma_distance_to_itself(h: PerceptualHash)
    ensures
        hamming(h.bytes@, h.bytes@) == 0,
{
    lemma_differing_bits_self(h.bytes@, h.bytes@.len() as int);
}

} // verus!
