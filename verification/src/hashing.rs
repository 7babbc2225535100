//! The protocol's hash primitive.
//!
//! Every hash in the system is a 32-byte BLAKE3 digest of a concatenation of
//! byte strings. The digest itself is named, not written out: `blake3_of`
//! stands for the BLAKE3 digest of its input, and the trusted wrappers below
//! relate the outside call to that name.

use vstd::prelude::*;

verus! {

/// The 32-byte BLAKE3 digest of `input`. The result depends on the input
/// bytes alone.
pub uninterp spec fn blake3_of(input: Seq<u8>) -> Seq<u8>;

/// Relies on brine_tree::hash::hashv: the BLAKE3 digest of the
/// concatenation of its parts, 32 bytes.
#[verifier::external_body]
pub fn hash1(a: &[u8]) -> (r: [u8; 32])
    ensures
        r@ == blake3_of(a@),
{
    brine_tree::hash::hashv(&[a]).to_bytes()
}

/// Relies on brine_tree::hash::hashv: the BLAKE3 digest of the
/// concatenation of its parts, 32 bytes.
#[verifier::external_body]
pub fn hash2(a: &[u8], b: &[u8]) -> (r: [u8; 32])
    ensures
        r@ == blake3_of(a@ + b@),
{
    brine_tree::hash::hashv(&[a, b]).to_bytes()
}

/// Relies on brine_tree::hash::hashv: the BLAKE3 digest of the
/// concatenation of its parts, 32 bytes.
#[verifier::external_body]
pub fn hash3(a: &[u8], b: &[u8], c: &[u8]) -> (r: [u8; 32])
    ensures
        r@ == blake3_of(a@ + b@ + c@),
{
    brine_tree::hash::hashv(&[a, b, c]).to_bytes()
}

} // verus!
