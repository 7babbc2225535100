//! The on-ledger account schemas and their invariants.

use vstd::prelude::*;
use crate::consts::{
    EPOCH_BLOCKS,
    FINALIZATION_RENT_BLOCKS,
    HEADER_SIZE,
    MAX_CONSISTENCY_MULTIPLIER,
    MAX_PARTICIPATION_TARGET,
    MAX_SEGMENTS_PER_SPOOL,
    MAX_SPOOLS_PER_REEL,
    MIN_CONSISTENCY_MULTIPLIER,
    MIN_MINING_DIFFICULTY,
    MIN_PACKING_DIFFICULTY,
    MIN_PARTICIPATION_TARGET,
    NAME_SIZE,
    RENT_PER_SEGMENT_PER_BLOCK,
    SEGMENT_TREE_HEIGHT,
    SPOOL_TREE_HEIGHT,
};
use crate::merkle::MerkleTree;

verus! {

/// Comparing against `u64::MAX / r` decides whether a product fits in
/// `u64`.
pub proof fn lemma_mul_max_guard(e: int, r: int)
    requires
        r > 0,
        0 <= e,
    ensures
        e <= u64::MAX as int / r ==> e * r <= u64::MAX as int,
        e > u64::MAX as int / r ==> e * r > u64::MAX as int,
{
    let m = u64::MAX as int;
    let q = m / r;
    let w = m % r;
    vstd::arithmetic::div_mod::lemma_fundamental_div_mod(m, r);
    vstd::arithmetic::div_mod::lemma_mod_bound(m, r);
    assert((e <= q ==> e * r <= m) && (e > q ==> e * r > m)) by (nonlinear_arith)
        requires
            m == r * q + w,
            0 <= w,
            w < r,
            r > 0,
            0 <= e,
    ;
}

/// Global archive counters.
#[derive(Clone, Copy, Debug, PartialEq, Eq, Structural)]
pub struct Archive {
    /// Count of finalized spools; also the high-water spool number.
    pub spools_stored: u64,
    /// Total segments over all finalized spools.
    pub segments_stored: u64,
}

impl Archive {
    /// The storage-funded part of the per-block reward: one block of rent
    /// over the whole archive.
    pub open spec fn spec_block_reward(self) -> u64 {
        if self.segments_stored * RENT_PER_SEGMENT_PER_BLOCK > u64::MAX {
            u64::MAX
        } else {
            (self.segments_stored * RENT_PER_SEGMENT_PER_BLOCK) as u64
        }
    }

    /// The storage-funded part of the per-block reward.
    pub fn block_reward(&self) -> (r: u64)
        ensures
            r == self.spec_block_reward(),
    {
        if self.segments_stored > u64::MAX / RENT_PER_SEGMENT_PER_BLOCK {
            u64::MAX
        } else {
            self.segments_stored * RENT_PER_SEGMENT_PER_BLOCK
        }
    }
}

/// The difficulty-retargeting window.
#[derive(Clone, Copy, Debug, PartialEq, Eq, Structural)]
pub struct Epoch {
    /// Epoch number, starting at 1.
    pub number: u64,
    /// Blocks completed within this epoch.
    pub progress: u64,
    /// Minimum difficulty of a proof-of-work solution.
    pub mining_difficulty: u64,
    /// Minimum difficulty of a packing solution.
    pub packing_difficulty: u64,
    /// Number of proofs that fill a block.
    pub target_participation: u64,
    /// Reward issued per block, before scaling.
    pub reward_rate: u64,
    /// Duplicate submissions seen this epoch.
    pub duplicates: u64,
    /// Time the epoch began.
    pub last_epoch_at: i64,
}

impl Epoch {
    /// The epoch's invariant.
    pub open spec fn wf(self) -> bool {
        &&& self.progress <= EPOCH_BLOCKS
        &&& self.mining_difficulty >= MIN_MINING_DIFFICULTY
        &&& self.packing_difficulty >= MIN_PACKING_DIFFICULTY
        &&& MIN_PARTICIPATION_TARGET <= self.target_participation <= MAX_PARTICIPATION_TARGET
    }
}

/// The reward-issuance window.
#[derive(Clone, Copy, Debug)]
pub struct Block {
    /// Block number, starting at 1.
    pub number: u64,
    /// Accepted proofs in this block so far.
    pub progress: u64,
    /// The block's challenge seed.
    pub challenge: [u8; 32],
    /// The number of finalized spools when the block opened: the range the
    /// recall spool is drawn from.
    pub challenge_set: u64,
    /// Time of the last accepted proof.
    pub last_proof_at: i64,
    /// Time the block opened.
    pub last_block_at: i64,
}

impl Block {
    /// The block's invariant.
    pub open spec fn wf(self) -> bool {
        self.challenge_set >= 1
    }
}

/// A spool's lifecycle state.
#[derive(Clone, Copy, Debug, PartialEq, Eq, Structural)]
pub enum SpoolState {
    /// Allocated, nothing written yet.
    Created,
    /// At least one write accepted; still mutable.
    Writing,
    /// Immutable, numbered, part of the archive.
    Finalized,
}

/// An append-only byte stream published to the archive.
#[derive(Clone, Copy, Debug)]
pub struct Spool {
    /// Archive number; 0 until finalized.
    pub number: u64,
    /// The key that may write to this spool.
    pub authority: [u8; 32],
    /// Zero-padded name.
    pub name: [u8; NAME_SIZE],
    /// Lifecycle state.
    pub state: SpoolState,
    /// Segments written so far.
    pub total_segments: u64,
    /// Root of the segment tree.
    pub merkle_root: [u8; 32],
    /// Opaque header.
    pub header: [u8; HEADER_SIZE],
    /// Slot of creation.
    pub first_slot: u64,
    /// Slot of the latest mutation; with event `prev_slot` links, a
    /// backward-walkable mutation history.
    pub tail_slot: u64,
    /// Rent balance.
    pub balance: u64,
    /// Block up to which rent has been charged.
    pub last_rent_block: u64,
}

impl Spool {
    /// The spool's invariant.
    pub open spec fn wf(self) -> bool {
        self.total_segments <= MAX_SEGMENTS_PER_SPOOL
    }

    /// One block of rent for this spool.
    pub open spec fn spec_min_rent(self) -> int {
        self.total_segments * RENT_PER_SEGMENT_PER_BLOCK
    }

    /// Whether the spool's balance covers one block of rent.
    pub open spec fn spec_has_minimum_rent(self) -> bool {
        self.balance >= self.spec_min_rent()
    }

    /// Rent owed since `last_rent_block`, saturating.
    pub open spec fn spec_rent_owed(self, block_number: u64) -> u64 {
        let elapsed = if block_number >= self.last_rent_block {
            block_number - self.last_rent_block
        } else {
            0
        };
        if elapsed * self.spec_min_rent() > u64::MAX {
            u64::MAX
        } else {
            (elapsed * self.spec_min_rent()) as u64
        }
    }

    /// The balance a spool must hold to finalize.
    pub open spec fn spec_min_finalization_rent(self) -> int {
        self.spec_min_rent() * FINALIZATION_RENT_BLOCKS
    }

    /// Whether the spool may finalize.
    pub open spec fn spec_can_finalize(self) -> bool {
        self.balance >= self.spec_min_finalization_rent()
    }

    /// Whether the spool's balance covers one block of rent.
    pub fn has_minimum_rent(&self) -> (r: bool)
        requires
            self.wf(),
        ensures
            r == self.spec_has_minimum_rent(),
    {
        self.balance >= self.total_segments * RENT_PER_SEGMENT_PER_BLOCK
    }

    /// Rent owed since the block rent was last charged at, saturating.
    pub fn rent_owed(&self, block_number: u64) -> (r: u64)
        requires
            self.wf(),
        ensures
            r == self.spec_rent_owed(block_number),
    {
        let elapsed: u64 = if block_number >= self.last_rent_block {
            block_number - self.last_rent_block
        } else {
            0
        };
        let rate: u64 = self.total_segments * RENT_PER_SEGMENT_PER_BLOCK;
        if rate == 0 {
            return 0;
        }
        proof {
            lemma_mul_max_guard(elapsed as int, rate as int);
        }
        if elapsed > u64::MAX / rate {
            u64::MAX
        } else {
            elapsed * rate
        }
    }

    /// Whether the spool holds enough rent to finalize.
    pub fn can_finalize(&self) -> (r: bool)
        requires
            self.wf(),
        ensures
            r == self.spec_can_finalize(),
    {
        self.balance >= self.total_segments * RENT_PER_SEGMENT_PER_BLOCK
            * FINALIZATION_RENT_BLOCKS
    }
}

/// The in-progress segment tree of an unfinalized spool.
pub struct Writer {
    /// Address of the spool this writer belongs to.
    pub spool: [u8; 32],
    /// The growing segment tree.
    pub state: MerkleTree,
}

impl Writer {
    /// The writer's structural invariant: a segment tree of the right shape.
    pub open spec fn wf(self) -> bool {
        &&& self.state.wf()
        &&& self.state.height == SEGMENT_TREE_HEIGHT
    }
}

/// A registered miner.
#[derive(Clone, Copy, Debug)]
pub struct Miner {
    /// The key that owns this miner.
    pub authority: [u8; 32],
    /// Zero-padded name.
    pub name: [u8; NAME_SIZE],
    /// Rewards earned and not yet claimed.
    pub unclaimed_rewards: u64,
    /// The miner's rolling challenge.
    pub challenge: [u8; 32],
    /// The packed leaf the miner has committed to prove against.
    pub commitment: [u8; 32],
    /// Consistency multiplier.
    pub multiplier: u64,
    /// Block of the last accepted proof.
    pub last_proof_block: u64,
    /// Time of the last accepted proof.
    pub last_proof_at: i64,
    /// Count of accepted proofs.
    pub total_proofs: u64,
    /// Total rewards ever credited.
    pub total_rewards: u64,
}

impl Miner {
    /// The miner's invariant: the multiplier stays within its band.
    pub open spec fn wf(self) -> bool {
        MIN_CONSISTENCY_MULTIPLIER <= self.multiplier <= MAX_CONSISTENCY_MULTIPLIER
    }
}

/// A miner-owned Merkle index of packed spool roots.
pub struct Reel {
    /// Reel number under its miner.
    pub number: u64,
    /// The key that owns this reel.
    pub authority: [u8; 32],
    /// The spool tree of packed roots.
    pub state: MerkleTree,
    /// The packed spool root last proven into this reel.
    pub contains: [u8; 32],
    /// Count of packed spools.
    pub total_spools: u64,
    /// Time of the last proof against this reel.
    pub last_proof_at: i64,
    /// Block of the last proof against this reel.
    pub last_proof_block: u64,
}

impl Reel {
    /// The reel's structural invariant: a spool tree of the right shape,
    /// holding exactly one leaf per packed spool.
    pub open spec fn wf(self) -> bool {
        &&& self.state.wf()
        &&& self.state.height == SPOOL_TREE_HEIGHT
        &&& self.total_spools <= MAX_SPOOLS_PER_REEL
        &&& self.state.leaves().len() == self.total_spools
    }
}

} // verus!
