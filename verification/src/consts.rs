//! Protocol parameters.
//!
//! Sizes are exact; all multi-byte integers are little-endian.

use vstd::prelude::*;

verus! {

/// Size of one spool segment in bytes: the unit of Merkle-leaf hashing and
/// of packing.
pub const SEGMENT_SIZE: usize = 128;

/// Size of a packed (miner-personalized) segment: the serialized packing
/// solution (1 bump byte + 16 seeds + 128 nonces).
pub const PACKED_SEGMENT_SIZE: usize = 145;

/// Size of the opaque spool header.
pub const HEADER_SIZE: usize = 64;

/// Size of a spool or miner name, zero-padded.
pub const NAME_SIZE: usize = 32;

/// Height of the per-spool segment tree.
pub const SEGMENT_TREE_HEIGHT: usize = 18;

/// Length of a segment inclusion proof (one sibling per tree level).
pub const SEGMENT_PROOF_LEN: usize = 18;

/// Height at which the canopy (sector-root layer) is cached.
pub const SECTOR_TREE_HEIGHT: usize = 10;

/// Number of consecutive leaves in one sector.
pub const SECTOR_LEAVES: usize = 1024;

/// Maximum number of segments a spool may hold (the segment tree capacity).
pub const MAX_SEGMENTS_PER_SPOOL: u64 = 262144;

/// Height of the per-reel spool tree.
pub const SPOOL_TREE_HEIGHT: usize = 18;

/// Length of a reel inclusion proof.
pub const SPOOL_PROOF_LEN: usize = 18;

/// Maximum number of spools a reel may index.
pub const MAX_SPOOLS_PER_REEL: u64 = 262144;

/// Number of blocks in one epoch (the retargeting window).
pub const EPOCH_BLOCKS: u64 = 60;

/// Target wall-clock duration of one block, in seconds.
pub const BLOCK_DURATION_SECONDS: u64 = 60;

/// The participation target may only be raised every this many epochs.
pub const ADJUSTMENT_INTERVAL: u64 = 24;

/// Lower bound on the epoch's mining (proof-of-work) difficulty.
pub const MIN_MINING_DIFFICULTY: u64 = 1;

/// Lower bound on the epoch's packing difficulty.
pub const MIN_PACKING_DIFFICULTY: u64 = 1;

/// Bounds on the epoch's participation target (unique proofs per block).
pub const MIN_PARTICIPATION_TARGET: u64 = 2;

/// Upper bound on the epoch's participation target.
pub const MAX_PARTICIPATION_TARGET: u64 = 1024;

/// Bounds on a miner's consistency multiplier.
pub const MIN_CONSISTENCY_MULTIPLIER: u64 = 0;

/// Upper bound on a miner's consistency multiplier; also the scaling divisor.
pub const MAX_CONSISTENCY_MULTIPLIER: u64 = 64;

/// Epochs per year, at one minute per block: 365 * 24 * 60 / EPOCH_BLOCKS.
pub const EPOCHS_PER_YEAR: u64 = 365 * 24 * 60 / EPOCH_BLOCKS;

/// Rent charged per stored segment per block.
pub const RENT_PER_SEGMENT_PER_BLOCK: u64 = 100;

/// Number of blocks of rent a spool must hold in balance to finalize.
pub const FINALIZATION_RENT_BLOCKS: u64 = 16;

} // verus!
