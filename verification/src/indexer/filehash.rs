//! A content hash of the beginning of a file.

use vstd::prelude::*;
use vstd::slice::slice_subrange;

verus! {

/// The number of bytes at the beginning of a file that are hashed.
pub const HASHED_PREFIX: usize = 4096;

/// The BLAKE3 hash of `input`, as the `blake3` crate prints it in
/// hexadecimal.
pub uninterp spec fn blake3_hex(input: Seq<u8>) -> Seq<char>;

/// `blake3::Hasher`: the hash of the input, written by `Hash::to_hex` as
/// two hexadecimal digits for each of its 32 bytes.
#[verifier::external_body]
fn blake3_of(input: &[u8]) -> (hex: String)
    ensures
        hex@ == blake3_hex(input@),
        hex@.len() == 64,
{
    let mut hasher = blake3::Hasher::new();
    hasher.update(input);
    hasher.finalize().to_hex().to_string()
}

/// The part of `data` that is hashed: its first 4096 bytes, or all of it
/// if it is shorter.
pub open spec fn hashed_part(data: Seq<u8>) -> Seq<u8> {
    if data.len() <= HASHED_PREFIX {
        data
    } else {
        data.subrange(0, HASHED_PREFIX as int)
    }
}

/// The hash of the beginning of a file whose content starts with `data`.
pub fn calculate(data: &[u8]) -> (hex: String)
    ensures
        hex@ == blake3_hex(hashed_part(data@)),
        hex@.len() == 64,
{
    if data.len() <= HASHED_PREFIX {
        blake3_of(data)
    } else {
        blake3_of(slice_subrange(data, 0, HASHED_PREFIX))
    }
}

} // verus!
