//! The 64-bit digest that keys the constant pool.
use vstd::prelude::*;

verus! {

/// The XXH3 64-bit digest, seed 0, of a byte sequence.
pub uninterp spec fn xxh3_of(bytes: Seq<u8>) -> u64;

/// Relies on `xxhash_rust::xxh3::xxh3_64`: the XXH3 64-bit digest with seed 0,
/// a function of the bytes alone.
#[verifier::external_body]
pub(crate) fn xxh3(bytes: &[u8]) -> (r: u64)
    ensures
        r == xxh3_of(bytes@),
{
    xxhash_rust::xxh3::xxh3_64(bytes)
}

} // verus!
