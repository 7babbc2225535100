//! The reel handlers: a miner's Merkle index of packed spool roots, used
//! to commit to the packed leaf the miner will prove against.

use vstd::prelude::*;
use crate::consts::{MAX_SPOOLS_PER_REEL, SEGMENT_PROOF_LEN, SPOOL_PROOF_LEN, SPOOL_TREE_HEIGHT};
use crate::error::SpoolError;
use crate::hashing::blake3_of;
use crate::merkle::{leaf_hash, make_leaf, path_ok, verify_inclusion, views32, MerkleTree};
use crate::state::{Miner, Reel, Spool};

verus! {

/// Creates an empty reel under the given address.
pub fn process_reel_create(
    authority: &[u8; 32],
    reel_address: &[u8; 32],
    number: u64,
    current_time: i64,
) -> (r: Reel)
    ensures
        r.number == number,
        r.authority == *authority,
        r.contains@ == Seq::new(32, |i: int| 0u8),
        r.total_spools == 0,
        r.last_proof_at == current_time,
        r.last_proof_block == 0,
        r.wf(),
        r.state.synced(),
        r.state.leaves().len() == 0,
        r.state.empty_value() == blake3_of(reel_address@),
{
    let contains = [0u8; 32];
    proof {
        assert(contains@ =~= Seq::new(32, |i: int| 0u8));
    }
    Reel {
        number,
        authority: *authority,
        state: MerkleTree::new(reel_address.as_slice(), SPOOL_TREE_HEIGHT),
        contains,
        total_spools: 0,
        last_proof_at: current_time,
        last_proof_block: 0,
    }
}

/// Packs a finalized spool into the reel: appends the leaf
/// `H(spool_number ‖ packed_root)` to the reel tree.
///
/// Fails with `UnexpectedState` unless the spool is finalized and
/// numbered, with `ReelTooManySpools` at the reel's spool cap, and with
/// `ReelPackFailed` when the tree is full; a failed pack changes nothing.
pub fn process_reel_pack(reel: &mut Reel, spool: &Spool, value: &[u8; 32]) -> (r: Result<
    (),
    SpoolError,
>)
    requires
        old(reel).wf(),
        old(reel).state.synced(),
    ensures
        final(reel).wf(),
        final(reel).state.synced(),
        final(reel).state.empty_value() == old(reel).state.empty_value(),
        r is Err ==> final(reel).state.leaves() == old(reel).state.leaves()
            && final(reel).total_spools == old(reel).total_spools,
        !(spool.state is Finalized && spool.number > 0) <==> r == Err::<(), SpoolError>(
            SpoolError::UnexpectedState,
        ),
        (spool.state is Finalized && spool.number > 0 && old(reel).total_spools
            >= MAX_SPOOLS_PER_REEL) <==> r == Err::<(), SpoolError>(SpoolError::ReelTooManySpools),
        (spool.state is Finalized && spool.number > 0 && old(reel).total_spools
            < MAX_SPOOLS_PER_REEL) <==> r is Ok,
        r is Ok ==> {
            &&& final(reel).state.leaves() == old(reel).state.leaves().push(
                leaf_hash(spool.number, value@),
            )
            &&& final(reel).total_spools == old(reel).total_spools + 1
        },
{
    match spool.state {
        crate::state::SpoolState::Finalized => (),
        _ => {
            return Err(SpoolError::UnexpectedState);
        },
    }
    if spool.number == 0 {
        return Err(SpoolError::UnexpectedState);
    }
    if reel.total_spools >= MAX_SPOOLS_PER_REEL {
        return Err(SpoolError::ReelTooManySpools);
    }
    let leaf = make_leaf(spool.number, value.as_slice());
    proof {
        // one leaf per packed spool: below the spool cap the tree has room
        vstd::arithmetic::power2::lemma2_to64();
        assert(reel.state.capacity == 262144);
        assert(reel.state.leaves().len() < reel.state.capacity);
    }
    let res = reel.state.try_add_leaf(&leaf);
    if res.is_err() {
        proof {
            assert(false);
        }
        return Err(SpoolError::ReelPackFailed);
    }
    reel.total_spools = reel.total_spools + 1;
    Ok(())
}

/// Unpacks a spool from the reel: verifies an inclusion proof for the leaf
/// `H(spool_number ‖ packed_root)` and loads the packed root into
/// `reel.contains`.
///
/// Fails with `ReelUnpackFailed` when the proof does not verify; a failed
/// unpack changes nothing.
pub fn process_reel_unpack(
    reel: &mut Reel,
    index: u64,
    proof_path: &[[u8; 32]; SPOOL_PROOF_LEN],
    value: &[u8; 32],
) -> (r: Result<(), SpoolError>)
    requires
        old(reel).wf(),
    ensures
        final(reel).wf(),
        final(reel).state == old(reel).state,
        r is Ok <==> path_ok(
            views32(proof_path@),
            leaf_hash(index, value@),
            old(reel).state.root@,
        ),
        r is Err ==> *final(reel) == *old(reel) && r == Err::<(), SpoolError>(
            SpoolError::ReelUnpackFailed,
        ),
        r is Ok ==> *final(reel) == (Reel { contains: *value, ..*old(reel) }),
{
    let leaf = make_leaf(index, value.as_slice());
    if !verify_inclusion(&reel.state.root, proof_path.as_slice(), &leaf) {
        return Err(SpoolError::ReelUnpackFailed);
    }
    reel.contains = *value;
    Ok(())
}

/// Commits a packed leaf for mining: verifies the leaf's inclusion proof
/// against the unpacked root in `reel.contains` and writes the leaf bytes
/// into the miner's commitment. The leaf stands as given; it is not
/// re-hashed.
///
/// Fails with `ReelCommitFailed` when the proof does not verify; a failed
/// commit changes nothing.
pub fn process_reel_commit(
    miner: &mut Miner,
    reel: &Reel,
    proof_path: &[[u8; 32]; SEGMENT_PROOF_LEN],
    value: &[u8; 32],
) -> (r: Result<(), SpoolError>)
    ensures
        r is Ok <==> path_ok(views32(proof_path@), value@, reel.contains@),
        r is Err ==> *final(miner) == *old(miner) && r == Err::<(), SpoolError>(
            SpoolError::ReelCommitFailed,
        ),
        r is Ok ==> *final(miner) == (Miner { commitment: *value, ..*old(miner) }),
{
    if !verify_inclusion(&reel.contains, proof_path.as_slice(), value) {
        return Err(SpoolError::ReelCommitFailed);
    }
    miner.commitment = *value;
    Ok(())
}

} // verus!
