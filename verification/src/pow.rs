//! The proof-of-work primitive: an EquiX solution over
//! `challenge ‖ data ‖ nonce`, with a difficulty measured as leading zero
//! bits of its final hash. Solving is expensive; checking is cheap. Both the
//! check and the difficulty are named functions of the solution's bytes.

use vstd::prelude::*;

verus! {

/// Whether the 16-byte EquiX digest solves the puzzle seeded with
/// `challenge ‖ data ‖ nonce`. A function of its arguments alone.
pub uninterp spec fn pow_valid(
    challenge: Seq<u8>,
    data: Seq<u8>,
    nonce: Seq<u8>,
    digest: Seq<u8>,
) -> bool;

/// The difficulty of a proof-of-work solution: leading zero bits of the
/// final hash of its canonical digest and nonce. A function of its
/// arguments alone.
pub uninterp spec fn pow_difficulty_of(digest: Seq<u8>, nonce: Seq<u8>) -> u32;

/// Relies on crankx::verify: checks the EquiX digest against the puzzle
/// seeded with `challenge ‖ data ‖ nonce`, for segment-sized data.
#[verifier::external_body]
pub fn crankx_verify_segment(
    challenge: &[u8; 32],
    data: &[u8; 128],
    nonce: &[u8; 8],
    digest: &[u8; 16],
) -> (r: bool)
    ensures
        r == pow_valid(challenge@, data@, nonce@, digest@),
{
    crankx::verify(challenge, data, nonce, digest).is_ok()
}

/// Relies on crankx::Solution::difficulty: leading zero bits of the keccak
/// hash of the canonical digest and the nonce.
#[verifier::external_body]
pub fn crankx_difficulty(digest: &[u8; 16], nonce: &[u8; 8]) -> (r: u32)
    ensures
        r == pow_difficulty_of(digest@, nonce@),
{
    crankx::Solution::new(*digest, *nonce).difficulty()
}

} // verus!
