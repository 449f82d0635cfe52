//! The capability contract every random-bit source implements, the seeding
//! contracts, and the default derivation helpers.
//!
//! A generator supplies fixed-width unsigned words and fills byte buffers.
//! The derivation helpers let an implementer supply only the narrowest
//! primitive and get the rest for free, with fixed little-endian rules:
//! wider words are built low half first, and words are written into byte
//! buffers in little-endian byte order. Once a concrete generator has chosen
//! which primitive its output is derived from, that choice is
//! reproducibility-load-bearing and must not change.

use vstd::prelude::*;
use crate::error::Error;

verus! {

/// A random number generator (not necessarily suitable for cryptography).
///
/// Algorithmic generators are deterministic: two generators of the same
/// algorithm initialised with the same seed produce the same output, and
/// should implement [`SeedableRng`]. Infallible methods of a fallible
/// external source may panic; `try_fill` is the only method that reports an
/// error.
pub trait Rng {
    /// Return the next random u32.
    fn next_u32(&mut self) -> u32;

    /// Return the next random u64.
    fn next_u64(&mut self) -> u64;

    /// Return the next random u128.
    fn next_u128(&mut self) -> u128;

    /// Fill `dest` entirely with random data, keeping its length.
    ///
    /// There is no requirement on how much of the generated random number
    /// stream is consumed; however any change affecting reproducibility of
    /// output must be considered a breaking change.
    fn fill_bytes(&mut self, dest: &mut Vec<u8>)
        ensures
            final(dest)@.len() == old(dest)@.len(),
    ;

    /// Fill `dest` entirely with random data, keeping its length.
    ///
    /// If a source can encounter an error, this is the only method that
    /// reports it. The other methods either handle the error, or panic.
    fn try_fill(&mut self, dest: &mut Vec<u8>) -> (r: Result<(), Error>)
        ensures
            final(dest)@.len() == old(dest)@.len(),
    ;
}

impl<R: Rng + ?Sized> Rng for &mut R {
    fn next_u32(&mut self) -> u32 {
        (**self).next_u32()
    }

    fn next_u64(&mut self) -> u64 {
        (**self).next_u64()
    }

    fn next_u128(&mut self) -> u128 {
        (**self).next_u128()
    }

    fn fill_bytes(&mut self, dest: &mut Vec<u8>) {
        (**self).fill_bytes(dest)
    }

    fn try_fill(&mut self, dest: &mut Vec<u8>) -> (r: Result<(), Error>) {
        (**self).try_fill(dest)
    }
}

impl<R: Rng + ?Sized> Rng for Box<R> {
    fn next_u32(&mut self) -> u32 {
        (**self).next_u32()
    }

    fn next_u64(&mut self) -> u64 {
        (**self).next_u64()
    }

    fn next_u128(&mut self) -> u128 {
        (**self).next_u128()
    }

    fn fill_bytes(&mut self, dest: &mut Vec<u8>) {
        (**self).fill_bytes(dest)
    }

    fn try_fill(&mut self, dest: &mut Vec<u8>) -> (r: Result<(), Error>) {
        (**self).try_fill(dest)
    }
}

/// A marker trait for an [`Rng`] which may be considered for use in
/// cryptography.
///
/// This trait is provided for guidance only and cannot guarantee suitability
/// for cryptographic applications: it should only be implemented for
/// well-reviewed code implementing well-regarded algorithms.
pub trait CryptoRng: Rng {

}

/// Support mechanism for creating random number generators seeded by other
/// generators.
pub trait SeedFromRng: Sized {
    /// Creates a new instance, seeded by drawing entropy from another
    /// [`Rng`]. Fails only if drawing from the source fails, and propagates
    /// the source's error unchanged.
    ///
    /// Seeding from a cryptographic generator should be fine. On the other
    /// hand, seeding a simple numerical generator from another of the same
    /// algorithm family sometimes has serious side effects such as
    /// effectively cloning the generator.
    fn from_rng<R: Rng>(rng: &mut R) -> Result<Self, Error>;
}

/// A random number generator that can be explicitly seeded to produce the
/// same stream of randomness multiple times.
///
/// This should only be implemented by reproducible generators: where the
/// algorithm is fixed and two generators constructed (or reseeded) from
/// byte-identical seed values produce identical output streams on any
/// platform.
pub trait SeedableRng<Seed>: Rng + Sized {
    /// Reseed this generator with the given seed: a full reset, after which
    /// the generator reproduces the output stream of a generator freshly
    /// created with `from_seed` on the same seed.
    fn reseed(&mut self, seed: Seed);

    /// Create a new RNG with the given seed.
    ///
    /// The type of `Seed` is specified by the implementation.
    fn from_seed(seed: Seed) -> Self;
}

/// The 64-bit word built from two 32-bit words: the low word first, the high
/// word second.
pub open spec fn combine_u32_spec(low: u32, high: u32) -> u64 {
    (low as u64) | ((high as u64) << 32)
}

/// The 128-bit word built from two 64-bit words: the low word first, the
/// high word second.
pub open spec fn combine_u64_spec(low: u64, high: u64) -> u128 {
    (low as u128) | ((high as u128) << 64)
}

/// Combine two 32-bit words into a 64-bit word in little-endian word order.
pub fn combine_u32(low: u32, high: u32) -> (r: u64)
    ensures
        r == combine_u32_spec(low, high),
{
    (low as u64) | ((high as u64) << 32)
}

/// Combine two 64-bit words into a 128-bit word in little-endian word order.
pub fn combine_u64(low: u64, high: u64) -> (r: u128)
    ensures
        r == combine_u64_spec(low, high),
{
    (low as u128) | ((high as u128) << 64)
}

/// Derive a `u64` from two `next_u32` calls: the first call gives the low
/// word, the second the high word.
///
/// Nothing can be stated of an arbitrary source's words, so the contract of
/// this helper lies in [`combine_u32`], which fixes how the two words are
/// put together.
pub fn next_u64_via_u32<R: Rng>(rng: &mut R) -> u64 {
    let low = rng.next_u32();
    let high = rng.next_u32();
    combine_u32(low, high)
}

/// Derive a `u128` from two `next_u64` calls: the first call gives the low
/// word, the second the high word.
pub fn next_u128_via_u64<R: Rng>(rng: &mut R) -> u128 {
    let low = rng.next_u64();
    let high = rng.next_u64();
    combine_u64(low, high)
}

/// The little-endian bytes of a 32-bit word, lowest-order byte first.
pub open spec fn le_bytes_u32(w: u32) -> Seq<u8> {
    seq![
        (w % 256) as u8,
        ((w / 256) % 256) as u8,
        ((w / 65536) % 256) as u8,
        ((w / 16777216) % 256) as u8,
    ]
}

/// The little-endian bytes of a 64-bit word, lowest-order byte first.
pub open spec fn le_bytes_u64(w: u64) -> Seq<u8> {
    seq![
        (w % 256) as u8,
        ((w / 256) % 256) as u8,
        ((w / 0x10000) % 256) as u8,
        ((w / 0x1000000) % 256) as u8,
        ((w / 0x100000000) % 256) as u8,
        ((w / 0x10000000000) % 256) as u8,
        ((w / 0x1000000000000) % 256) as u8,
        ((w / 0x100000000000000) % 256) as u8,
    ]
}

/// Write the `count` lowest-order bytes of `w` into `dest` at positions
/// `i .. i + count`, in little-endian byte order; the rest of `dest` is kept.
pub fn write_u32_le(dest: &mut Vec<u8>, i: usize, count: usize, w: u32)
    requires
        count <= 4,
        i + count <= old(dest)@.len(),
    ensures
        final(dest)@.len() == old(dest)@.len(),
        forall|k: int| i <= k < i + count ==> final(dest)@[k] == le_bytes_u32(w)[k - i],
        forall|k: int|
            0 <= k < old(dest)@.len() && !(i <= k < i + count) ==> final(dest)@[k] == old(
                dest,
            )@[k],
{
    let len = dest.len();
    let mut j: usize = 0;
    while j < count
        invariant
            j <= count,
            count <= 4,
            len == dest@.len(),
            i + count <= dest@.len(),
            dest@.len() == old(dest)@.len(),
            forall|k: int| i <= k < i + j ==> dest@[k] == le_bytes_u32(w)[k - i],
            forall|k: int|
                0 <= k < old(dest)@.len() && !(i <= k < i + j) ==> dest@[k] == old(dest)@[k],
        decreases count - j,
    {
        let b: u8 = if j == 0 {
            (w % 256) as u8
        } else if j == 1 {
            ((w / 256) % 256) as u8
        } else if j == 2 {
            ((w / 65536) % 256) as u8
        } else {
            ((w / 16777216) % 256) as u8
        };
        assert(le_bytes_u32(w)[j as int] == b);
        dest.set(i + j, b);
        j = j + 1;
    }
}

/// Write the `count` lowest-order bytes of `w` into `dest` at positions
/// `i .. i + count`, in little-endian byte order; the rest of `dest` is kept.
pub fn write_u64_le(dest: &mut Vec<u8>, i: usize, count: usize, w: u64)
    requires
        count <= 8,
        i + count <= old(dest)@.len(),
    ensures
        final(dest)@.len() == old(dest)@.len(),
        forall|k: int| i <= k < i + count ==> final(dest)@[k] == le_bytes_u64(w)[k - i],
        forall|k: int|
            0 <= k < old(dest)@.len() && !(i <= k < i + count) ==> final(dest)@[k] == old(
                dest,
            )@[k],
{
    let len = dest.len();
    let mut j: usize = 0;
    while j < count
        invariant
            j <= count,
            count <= 8,
            len == dest@.len(),
            i + count <= dest@.len(),
            dest@.len() == old(dest)@.len(),
            forall|k: int| i <= k < i + j ==> dest@[k] == le_bytes_u64(w)[k - i],
            forall|k: int|
                0 <= k < old(dest)@.len() && !(i <= k < i + j) ==> dest@[k] == old(dest)@[k],
        decreases count - j,
    {
        let b: u8 = if j == 0 {
            (w % 256) as u8
        } else if j == 1 {
            ((w / 256) % 256) as u8
        } else if j == 2 {
            ((w / 0x10000) % 256) as u8
        } else if j == 3 {
            ((w / 0x1000000) % 256) as u8
        } else if j == 4 {
            ((w / 0x100000000) % 256) as u8
        } else if j == 5 {
            ((w / 0x10000000000) % 256) as u8
        } else if j == 6 {
            ((w / 0x1000000000000) % 256) as u8
        } else {
            ((w / 0x100000000000000) % 256) as u8
        };
        assert(le_bytes_u64(w)[j as int] == b);
        dest.set(i + j, b);
        j = j + 1;
    }
}

/// Fill `dest` from repeated `next_u32` calls: each word is written in
/// little-endian byte order; a partial trailing chunk uses only the
/// low-order bytes of one extra word and discards the rest.
pub fn fill_bytes_via_u32<R: Rng>(rng: &mut R, dest: &mut Vec<u8>)
    ensures
        final(dest)@.len() == old(dest)@.len(),
{
    let len = dest.len();
    let mut i: usize = 0;
    while len - i >= 4
        invariant
            dest@.len() == len,
            i <= len,
        decreases len - i,
    {
        let w = rng.next_u32();
        write_u32_le(dest, i, 4, w);
        i = i + 4;
    }
    if i < len {
        let w = rng.next_u32();
        write_u32_le(dest, i, len - i, w);
    }
}

/// Fill `dest` from repeated `next_u64` calls: each word is written in
/// little-endian byte order; a partial trailing chunk uses only the
/// low-order bytes of one extra word and discards the rest.
pub fn fill_bytes_via_u64<R: Rng>(rng: &mut R, dest: &mut Vec<u8>)
    ensures
        final(dest)@.len() == old(dest)@.len(),
{
    let len = dest.len();
    let mut i: usize = 0;
    while len - i >= 8
        invariant
            dest@.len() == len,
            i <= len,
        decreases len - i,
    {
        let w = rng.next_u64();
        write_u64_le(dest, i, 8, w);
        i = i + 8;
    }
    if i < len {
        let w = rng.next_u64();
        write_u64_le(dest, i, len - i, w);
    }
}

} // verus!
