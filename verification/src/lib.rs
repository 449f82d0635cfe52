//! A pseudorandom number generation library built around interchangeable
//! random-bit sources.
//!
//! The `source` module defines the capability contracts: the [`Rng`] trait
//! for producing fixed-width words and byte buffers, the seeding traits
//! [`SeedableRng`] and [`SeedFromRng`], and the marker trait [`CryptoRng`].
//! The `isaac` and `isaac64` modules hold the ISAAC family of deterministic
//! generators, whose output streams are reproducible bit for bit across
//! platforms. The `error` module holds the error taxonomy shared by every
//! fallible source.

pub mod error;
pub mod source;
pub mod isaac;
pub mod isaac64;

pub use error::{Error, ErrorKind};
pub use source::{CryptoRng, Rng, SeedFromRng, SeedableRng};
pub use isaac::IsaacRng;
pub use isaac64::{Isaac64Rng, IsaacWordRng};
