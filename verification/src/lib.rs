//! A block-cipher file pipeline: splits a byte stream into fixed-width
//! zero-padded blocks, transforms each block independently with AES-256,
//! and encodes the result as lowercase hexadecimal text.

pub mod cipher;
pub mod hexcode;
pub mod mode;
pub mod segment;

use vstd::prelude::*;

verus! {

/// Width of one cipher block, in bytes.
pub const BLOCK_WIDTH: usize = 16;

/// Width of the cipher key, in bytes.
pub const KEY_WIDTH: usize = 32;

} // verus!
