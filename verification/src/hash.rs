use vstd::prelude::*;

verus! {

/// The 128-bit content fingerprint of a byte string. Which value a byte string
/// maps to is the hash function's affair; only the bytes determine it.
pub uninterp spec fn fingerprint_of(bytes: Seq<u8>) -> u128;

/// Relies on xxhash_rust::xxh3::xxh3_128: a fast non-cryptographic hash whose
/// result is a function of the input bytes alone.
#[verifier::external_body]
pub fn xxh3_128(bytes: &[u8]) -> (r: u128)
    ensures
        r == fingerprint_of(bytes@),
{
    xxhash_rust::xxh3::xxh3_128(bytes)
}

} // verus!
