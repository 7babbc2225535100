//! The memory-hard packing primitive.
//!
//! Packing turns a 128-byte segment into a 145-byte solution personalized
//! to one miner key: reconstruction (`unpack`) is cheap, finding a solution
//! of a given difficulty is expensive, and a solution found for one key is
//! useless to another. Unpacking and the difficulty are named functions of
//! the key and the solution bytes.

use vstd::prelude::*;

verus! {

/// The 128 data bytes a packing solution reconstructs under `pubkey`. A
/// function of its arguments alone.
pub uninterp spec fn unpack_of(pubkey: Seq<u8>, solution: Seq<u8>) -> Seq<u8>;

/// The difficulty of a packing solution: leading zero bits of the hash of
/// its serialized bytes. A function of its argument alone.
pub uninterp spec fn pack_difficulty_of(solution: Seq<u8>) -> u32;

/// The solver table built for one miner key.
#[verifier::external_type_specification]
#[verifier::external_body]
pub struct ExSolverMemory(packx::SolverMemory);

/// The miner key a solver table was built for.
pub uninterp spec fn memory_key(mem: packx::SolverMemory) -> Seq<u8>;

/// What the packing search returns for a key, a segment and a difficulty:
/// the serialized solution it finds, or nothing. The search walks fixed
/// tables derived from the key, so the outcome is a function of these
/// arguments alone.
pub uninterp spec fn pack_search(key: Seq<u8>, data: Seq<u8>, difficulty: u32) -> Option<Seq<u8>>;

/// Relies on packx::build_memory: builds the per-key solver table.
#[verifier::external_body]
pub fn build_pack_memory(pubkey: &[u8; 32]) -> (r: packx::SolverMemory)
    ensures
        memory_key(r) == pubkey@,
{
    packx::build_memory(pubkey)
}

/// Relies on packx::Solution::unpack: reconstructs the 128 data bytes from
/// a solution under a key.
#[verifier::external_body]
pub fn packx_unpack(pubkey: &[u8; 32], solution: &[u8; 145]) -> (r: [u8; 128])
    ensures
        r@ == unpack_of(pubkey@, solution@),
{
    packx::Solution::from_bytes(solution).unpack(pubkey)
}

/// Relies on packx::Solution::difficulty: leading zero bits of the hash of
/// the solution bytes.
#[verifier::external_body]
pub fn packx_difficulty(solution: &[u8; 145]) -> (r: u32)
    ensures
        r == pack_difficulty_of(solution@),
{
    packx::Solution::from_bytes(solution).difficulty()
}

/// Relies on packx::verify: true exactly when the solution reconstructs the
/// data under the key and meets the difficulty.
#[verifier::external_body]
pub fn packx_check(pubkey: &[u8; 32], data: &[u8; 128], solution: &[u8; 145], difficulty: u32) -> (r:
    bool)
    ensures
        r == (unpack_of(pubkey@, solution@) == data@ && pack_difficulty_of(solution@)
            >= difficulty),
{
    packx::verify(pubkey, data, &packx::Solution::from_bytes(solution), difficulty)
}

/// Relies on packx::solve_with_memory: performs the packing search. The
/// outcome is the named search result for the table's key; a found
/// solution reconstructs the data under that key and meets the
/// difficulty.
#[verifier::external_body]
pub fn packx_solve(mem: &packx::SolverMemory, data: &[u8; 128], difficulty: u32) -> (r: Option<
    [u8; 145],
>)
    ensures
        match pack_search(memory_key(*mem), data@, difficulty) {
            Some(s) => r matches Some(out) && out@ == s,
            None => r is None,
        },
        r matches Some(s) ==> unpack_of(memory_key(*mem), s@) == data@ && pack_difficulty_of(s@)
            >= difficulty,
{
    packx::solve_with_memory(data, mem, difficulty).map(|s| s.to_bytes())
}

} // verus!
