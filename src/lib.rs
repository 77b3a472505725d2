//! A small, deterministic, non-cryptographic 8-byte block hash.
//!
//! A message is cut into 8-byte blocks, the last of which carries a one-byte
//! length marker; each block is mixed into an 8-byte running state by a
//! compression step built from thirteen bit transforms folded with XOR.
use vstd::prelude::*;

pub mod bits;
pub mod compress;
pub mod hasher;
pub mod pad;
pub mod text;

pub use hasher::{EvanHash, INITIAL_STATE};
pub use text::{digest_hex, hash_hex};

verus! {

/// Number of bytes in one block of input.
pub const BLOCK_SIZE: usize = 8;

/// Number of bytes in the running state and in the digest.
pub const HASH_SIZE: usize = 8;

} // verus!
