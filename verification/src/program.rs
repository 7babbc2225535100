//! Program initialization: the singletons and the genesis spool.

use vstd::prelude::*;
use crate::consts::{
    FINALIZATION_RENT_BLOCKS,
    HEADER_SIZE,
    MIN_MINING_DIFFICULTY,
    MIN_PACKING_DIFFICULTY,
    MIN_PARTICIPATION_TARGET,
    RENT_PER_SEGMENT_PER_BLOCK,
    SEGMENT_TREE_HEIGHT,
};
use crate::hashing::blake3_of;
use crate::merkle::{leaf_hash, make_leaf, root_of, MerkleTree};
use crate::protocol::{compute_challenge, get_base_rate, spec_base_rate, spec_challenge};
use crate::spool_ops::{pad_segment, spec_padded};
use crate::state::{Archive, Block, Epoch, Spool, SpoolState};

verus! {

/// Initializes the program: the archive holding the finalized genesis
/// spool, the first epoch at minimum difficulties, and the first block
/// whose challenge set is the genesis spool alone.
///
/// The genesis spool holds one segment: `genesis_data`, zero-padded.
pub fn process_initialize(
    authority: &[u8; 32],
    name: &[u8; 32],
    genesis_spool_address: &[u8; 32],
    genesis_data: &[u8],
    current_slot: u64,
) -> (r: (Archive, Epoch, Block, Spool))
    requires
        genesis_data@.len() <= 128,
    ensures
        r.0 == (Archive { spools_stored: 1, segments_stored: 1 }),
        r.1 == (Epoch {
            number: 1,
            progress: 0,
            mining_difficulty: MIN_MINING_DIFFICULTY,
            packing_difficulty: MIN_PACKING_DIFFICULTY,
            target_participation: MIN_PARTICIPATION_TARGET,
            reward_rate: spec_base_rate(1),
            duplicates: 0,
            last_epoch_at: 0,
        }),
        r.1.wf(),
        r.2 == (Block {
            number: 1,
            progress: 0,
            challenge: r.2.challenge,
            challenge_set: 1,
            last_proof_at: 0,
            last_block_at: 0,
        }),
        r.2.challenge@ == spec_challenge(r.3.merkle_root@, genesis_spool_address@),
        r.2.wf(),
        r.3.number == 1,
        r.3.authority == *authority,
        r.3.name == *name,
        r.3.state is Finalized,
        r.3.total_segments == 1,
        r.3.merkle_root@ == root_of(
            seq![leaf_hash(0, spec_padded(genesis_data@))],
            blake3_of(genesis_spool_address@),
            SEGMENT_TREE_HEIGHT as nat,
        ),
        r.3.balance == RENT_PER_SEGMENT_PER_BLOCK * FINALIZATION_RENT_BLOCKS,
        r.3.spec_can_finalize(),
        r.3.spec_has_minimum_rent(),
        r.3.wf(),
{
    let mut tree = MerkleTree::new(genesis_spool_address.as_slice(), SEGMENT_TREE_HEIGHT);
    let padded = pad_segment(genesis_data);
    let leaf = make_leaf(0, padded.as_slice());
    let res = tree.try_add_leaf(&leaf);
    proof {
        vstd::arithmetic::power2::lemma2_to64();
        assert(tree.leaves() =~= seq![leaf_hash(0, spec_padded(genesis_data@))]);
    }
    let root = tree.get_root();
    let header = [0u8; 64];
    let spool = Spool {
        number: 1,
        authority: *authority,
        name: *name,
        state: SpoolState::Finalized,
        total_segments: 1,
        merkle_root: root,
        header,
        first_slot: current_slot,
        tail_slot: current_slot,
        balance: RENT_PER_SEGMENT_PER_BLOCK * FINALIZATION_RENT_BLOCKS,
        last_rent_block: 0,
    };
    let archive = Archive { spools_stored: 1, segments_stored: 1 };
    let epoch = Epoch {
        number: 1,
        progress: 0,
        mining_difficulty: MIN_MINING_DIFFICULTY,
        packing_difficulty: MIN_PACKING_DIFFICULTY,
        target_participation: MIN_PARTICIPATION_TARGET,
        reward_rate: get_base_rate(1),
        duplicates: 0,
        last_epoch_at: 0,
    };
    let block = Block {
        number: 1,
        progress: 0,
        challenge: compute_challenge(&spool.merkle_root, genesis_spool_address),
        challenge_set: 1,
        last_proof_at: 0,
        last_block_at: 0,
    };
    (archive, epoch, block, spool)
}

} // verus!
