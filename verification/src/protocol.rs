//! The protocol kernel: challenge derivation, recall selection, solution
//! verification, reward scaling, and block and epoch progression — the Mine
//! instruction.

use vstd::prelude::*;
use vstd::bytes::spec_u64_from_le_bytes;
use crate::bytesutil::read_u64_le;
use crate::consts::{
    ADJUSTMENT_INTERVAL,
    BLOCK_DURATION_SECONDS,
    EPOCH_BLOCKS,
    EPOCHS_PER_YEAR,
    MAX_CONSISTENCY_MULTIPLIER,
    MAX_PARTICIPATION_TARGET,
    MIN_CONSISTENCY_MULTIPLIER,
    MIN_MINING_DIFFICULTY,
    MIN_PARTICIPATION_TARGET,
    SEGMENT_PROOF_LEN,
    SEGMENT_SIZE,
};
use crate::error::SpoolError;
use crate::hashing::{blake3_of, hash2};
use crate::merkle::{leaf_hash, make_leaf, path_ok, verify_inclusion, views32};
use crate::packing::{pack_difficulty_of, packx_difficulty, packx_unpack, unpack_of};
use crate::pow::{crankx_difficulty, crankx_verify_segment, pow_difficulty_of, pow_valid};
use crate::state::{Archive, Block, Epoch, Miner, Spool};

verus! {

/// A proof-of-work solution: an EquiX digest and the nonce it was found
/// with.
#[derive(Clone, Copy, Debug)]
pub struct PoW {
    /// The 16-byte EquiX digest.
    pub digest: [u8; 16],
    /// The nonce.
    pub nonce: [u8; 8],
}

/// A proof-of-access: a packed segment solution and the sibling path
/// proving the recalled segment's inclusion in the spool tree.
#[derive(Clone, Copy, Debug)]
pub struct PoA {
    /// The serialized packing solution.
    pub solution: [u8; 145],
    /// The fixed-length sibling path.
    pub path: [[u8; 32]; SEGMENT_PROOF_LEN],
}

/// The all-zero segment an expired spool is mined against.
pub open spec fn spec_empty_segment() -> Seq<u8> {
    Seq::new(SEGMENT_SIZE as nat, |i: int| 0u8)
}

/// The all-zero segment an expired spool is mined against.
pub fn empty_segment() -> (r: [u8; 128])
    ensures
        r@ == spec_empty_segment(),
{
    let r = [0u8; 128];
    proof {
        assert(r@ =~= spec_empty_segment());
    }
    r
}

/// The challenge a miner must answer: the hash of the block challenge and
/// the miner's rolling challenge.
pub open spec fn spec_challenge(a: Seq<u8>, b: Seq<u8>) -> Seq<u8> {
    blake3_of(a + b)
}

/// Derives a challenge from two 32-byte inputs; also advances a rolling
/// challenge with a slot hash.
pub fn compute_challenge(a: &[u8; 32], b: &[u8; 32]) -> (r: [u8; 32])
    ensures
        r@ == spec_challenge(a@, b@),
{
    hash2(a.as_slice(), b.as_slice())
}

/// The spool number a miner must recall: drawn from the first eight bytes
/// of the miner challenge, over the spools finalized when the block opened.
pub open spec fn spec_recall_spool(challenge: Seq<u8>, challenge_set: u64) -> u64
    recommends
        challenge_set > 0,
{
    (1 + spec_u64_from_le_bytes(challenge.subrange(0, 8)) % challenge_set) as u64
}

/// The spool number a miner must recall.
pub fn compute_recall_spool(challenge: &[u8; 32], challenge_set: u64) -> (r: u64)
    requires
        challenge_set > 0,
    ensures
        r == spec_recall_spool(challenge@, challenge_set),
        1 <= r <= challenge_set,
{
    let x = read_u64_le(challenge, 0);
    1 + x % challenge_set
}

/// The segment a miner must recall within the spool: drawn from the next
/// eight bytes of the miner challenge.
pub open spec fn spec_recall_segment(challenge: Seq<u8>, total_segments: u64) -> u64
    recommends
        total_segments > 0,
{
    (spec_u64_from_le_bytes(challenge.subrange(8, 16)) % total_segments) as u64
}

/// The segment a miner must recall within the spool.
pub fn compute_recall_segment(challenge: &[u8; 32], total_segments: u64) -> (r: u64)
    requires
        total_segments > 0,
    ensures
        r == spec_recall_segment(challenge@, total_segments),
        r < total_segments,
{
    let x = read_u64_le(challenge, 8);
    x % total_segments
}

/// A block has stalled when no proof has arrived for a full block duration.
pub open spec fn spec_has_stalled(block: Block, current_time: i64) -> bool {
    current_time > if block.last_proof_at + BLOCK_DURATION_SECONDS > i64::MAX {
        i64::MAX as int
    } else {
        block.last_proof_at + BLOCK_DURATION_SECONDS
    }
}

/// Whether the block has stalled: no solution for a full block duration.
pub fn has_stalled(block: &Block, current_time: i64) -> (r: bool)
    ensures
        r == spec_has_stalled(*block, current_time),
{
    let deadline: i64 = block.last_proof_at.checked_add(BLOCK_DURATION_SECONDS as i64).unwrap_or(
        i64::MAX,
    );
    current_time > deadline
}

/// Re-entry policy for a miner already credited in this block: rejected,
/// unless the block has stalled, in which case the submission is accepted
/// and counted as a duplicate.
pub open spec fn spec_check_submission(miner: Miner, block: Block, current_time: i64) -> Result<
    bool,
    SpoolError,
> {
    if miner.last_proof_block == block.number {
        if spec_has_stalled(block, current_time) {
            Ok(true)
        } else {
            Err(SpoolError::SolutionInvalid)
        }
    } else {
        Ok(false)
    }
}

/// Checks the re-entry policy; `Ok(true)` means the submission counts as a
/// duplicate.
pub fn check_submission(miner: &Miner, block: &Block, current_time: i64) -> (r: Result<
    bool,
    SpoolError,
>)
    ensures
        r == spec_check_submission(*miner, *block, current_time),
{
    if miner.last_proof_block == block.number {
        if has_stalled(block, current_time) {
            Ok(true)
        } else {
            Err(SpoolError::SolutionInvalid)
        }
    } else {
        Ok(false)
    }
}

/// The next consistency multiplier: up one for proving in consecutive
/// blocks, down one otherwise, clamped to its band.
pub open spec fn spec_next_multiplier(miner: Miner, block: Block) -> u64 {
    if miner.last_proof_block.saturating_add(1) == block.number {
        let m = miner.multiplier.saturating_add(1);
        if m < MAX_CONSISTENCY_MULTIPLIER {
            m
        } else {
            MAX_CONSISTENCY_MULTIPLIER
        }
    } else {
        let m = miner.multiplier.saturating_sub(1);
        if m > MIN_CONSISTENCY_MULTIPLIER {
            m
        } else {
            MIN_CONSISTENCY_MULTIPLIER
        }
    }
}

/// Moves the miner's consistency multiplier one step.
pub fn update_multiplier(miner: &mut Miner, block: &Block)
    requires
        old(miner).wf(),
    ensures
        final(miner).multiplier == spec_next_multiplier(*old(miner), *block),
        *final(miner) == (Miner { multiplier: final(miner).multiplier, ..*old(miner) }),
        final(miner).wf(),
{
    if miner.last_proof_block.saturating_add(1) == block.number {
        let m = miner.multiplier.saturating_add(1);
        miner.multiplier = if m < MAX_CONSISTENCY_MULTIPLIER {
            m
        } else {
            MAX_CONSISTENCY_MULTIPLIER
        };
    } else {
        let m = miner.multiplier.saturating_sub(1);
        miner.multiplier = if m > MIN_CONSISTENCY_MULTIPLIER {
            m
        } else {
            MIN_CONSISTENCY_MULTIPLIER
        };
    }
}

/// The reward after consistency scaling: the share times the multiplier
/// over the multiplier cap.
pub open spec fn spec_scaled_reward(reward: u64, multiplier: u64) -> u64 {
    (if reward * multiplier > u64::MAX {
        u64::MAX as int
    } else {
        reward * multiplier
    }) as u64 / MAX_CONSISTENCY_MULTIPLIER
}

/// Scales a reward by the miner's consistency multiplier.
pub fn get_scaled_reward(reward: u64, multiplier: u64) -> (r: u64)
    requires
        MIN_CONSISTENCY_MULTIPLIER <= multiplier <= MAX_CONSISTENCY_MULTIPLIER,
    ensures
        r == spec_scaled_reward(reward, multiplier),
{
    let scaled: u64 = reward.checked_mul(multiplier).unwrap_or(u64::MAX);
    scaled / MAX_CONSISTENCY_MULTIPLIER
}

/// The reward for one accepted proof: an equal share of the block's rate,
/// scaled by consistency, and halved when the target spool's rent has
/// expired.
pub open spec fn spec_reward(epoch: Epoch, spool: Spool, multiplier: u64) -> u64 {
    let available = epoch.reward_rate / epoch.target_participation;
    let scaled = spec_scaled_reward(available, multiplier);
    if spool.spec_has_minimum_rent() {
        scaled
    } else {
        scaled / 2
    }
}

/// Computes the reward for one accepted proof.
pub fn calculate_reward(epoch: &Epoch, spool: &Spool, multiplier: u64) -> (r: u64)
    requires
        epoch.wf(),
        spool.wf(),
        MIN_CONSISTENCY_MULTIPLIER <= multiplier <= MAX_CONSISTENCY_MULTIPLIER,
    ensures
        r == spec_reward(*epoch, *spool, multiplier),
{
    let available = epoch.reward_rate / epoch.target_participation;
    let scaled = get_scaled_reward(available, multiplier);
    if spool.has_minimum_rent() {
        scaled
    } else {
        scaled / 2
    }
}

/// The protocol-subsidized per-block reward: a hard-coded decreasing
/// schedule over years of epochs, decaying to zero.
pub open spec fn spec_base_rate(current_epoch: u64) -> u64 {
    if current_epoch < EPOCHS_PER_YEAR {
        10000000000
    } else if current_epoch < 2 * EPOCHS_PER_YEAR {
        7500000000
    } else if current_epoch < 3 * EPOCHS_PER_YEAR {
        5625000000
    } else if current_epoch < 4 * EPOCHS_PER_YEAR {
        4218750000
    } else if current_epoch < 5 * EPOCHS_PER_YEAR {
        3164062500
    } else if current_epoch < 6 * EPOCHS_PER_YEAR {
        2373046875
    } else if current_epoch < 7 * EPOCHS_PER_YEAR {
        1779785156
    } else if current_epoch < 8 * EPOCHS_PER_YEAR {
        1334838867
    } else if current_epoch < 9 * EPOCHS_PER_YEAR {
        1001129150
    } else if current_epoch < 10 * EPOCHS_PER_YEAR {
        750846862
    } else if current_epoch < 11 * EPOCHS_PER_YEAR {
        563135147
    } else if current_epoch < 12 * EPOCHS_PER_YEAR {
        422351360
    } else if current_epoch < 13 * EPOCHS_PER_YEAR {
        316763520
    } else if current_epoch < 14 * EPOCHS_PER_YEAR {
        237572640
    } else if current_epoch < 15 * EPOCHS_PER_YEAR {
        178179480
    } else if current_epoch < 16 * EPOCHS_PER_YEAR {
        133634610
    } else if current_epoch < 17 * EPOCHS_PER_YEAR {
        100225957
    } else if current_epoch < 18 * EPOCHS_PER_YEAR {
        75169468
    } else if current_epoch < 19 * EPOCHS_PER_YEAR {
        56377101
    } else if current_epoch < 20 * EPOCHS_PER_YEAR {
        42282825
    } else if current_epoch < 21 * EPOCHS_PER_YEAR {
        31712119
    } else if current_epoch < 22 * EPOCHS_PER_YEAR {
        23784089
    } else if current_epoch < 23 * EPOCHS_PER_YEAR {
        17838067
    } else if current_epoch < 24 * EPOCHS_PER_YEAR {
        13378550
    } else if current_epoch < 25 * EPOCHS_PER_YEAR {
        10033913
    } else {
        0
    }
}

/// The protocol-subsidized per-block reward for an epoch.
pub fn get_base_rate(current_epoch: u64) -> (r: u64)
    ensures
        r == spec_base_rate(current_epoch),
{
    if current_epoch < EPOCHS_PER_YEAR {
        10000000000
    } else if current_epoch < 2 * EPOCHS_PER_YEAR {
        7500000000
    } else if current_epoch < 3 * EPOCHS_PER_YEAR {
        5625000000
    } else if current_epoch < 4 * EPOCHS_PER_YEAR {
        4218750000
    } else if current_epoch < 5 * EPOCHS_PER_YEAR {
        3164062500
    } else if current_epoch < 6 * EPOCHS_PER_YEAR {
        2373046875
    } else if current_epoch < 7 * EPOCHS_PER_YEAR {
        1779785156
    } else if current_epoch < 8 * EPOCHS_PER_YEAR {
        1334838867
    } else if current_epoch < 9 * EPOCHS_PER_YEAR {
        1001129150
    } else if current_epoch < 10 * EPOCHS_PER_YEAR {
        750846862
    } else if current_epoch < 11 * EPOCHS_PER_YEAR {
        563135147
    } else if current_epoch < 12 * EPOCHS_PER_YEAR {
        422351360
    } else if current_epoch < 13 * EPOCHS_PER_YEAR {
        316763520
    } else if current_epoch < 14 * EPOCHS_PER_YEAR {
        237572640
    } else if current_epoch < 15 * EPOCHS_PER_YEAR {
        178179480
    } else if current_epoch < 16 * EPOCHS_PER_YEAR {
        133634610
    } else if current_epoch < 17 * EPOCHS_PER_YEAR {
        100225957
    } else if current_epoch < 18 * EPOCHS_PER_YEAR {
        75169468
    } else if current_epoch < 19 * EPOCHS_PER_YEAR {
        56377101
    } else if current_epoch < 20 * EPOCHS_PER_YEAR {
        42282825
    } else if current_epoch < 21 * EPOCHS_PER_YEAR {
        31712119
    } else if current_epoch < 22 * EPOCHS_PER_YEAR {
        23784089
    } else if current_epoch < 23 * EPOCHS_PER_YEAR {
        17838067
    } else if current_epoch < 24 * EPOCHS_PER_YEAR {
        13378550
    } else if current_epoch < 25 * EPOCHS_PER_YEAR {
        10033913
    } else {
        0
    }
}

/// The exact outcome of solution verification: difficulties first, then —
/// for a rent-paying spool — segment inclusion and proof-of-work over the
/// recalled bytes, or — for an expired spool — proof-of-work over the fixed
/// all-zero segment.
pub open spec fn spec_verify_solution(
    epoch: Epoch,
    spool: Spool,
    miner_address: Seq<u8>,
    challenge: Seq<u8>,
    pow: PoW,
    poa: PoA,
) -> Result<(), SpoolError> {
    if (pow_difficulty_of(pow.digest@, pow.nonce@) as u64) < epoch.mining_difficulty || (
    pack_difficulty_of(poa.solution@) as u64) < epoch.packing_difficulty {
        Err(SpoolError::SolutionTooEasy)
    } else if spool.spec_has_minimum_rent() {
        let seg = spec_recall_segment(challenge, spool.total_segments);
        let recall = unpack_of(miner_address, poa.solution@);
        if !path_ok(views32(poa.path@), leaf_hash(seg, recall), spool.merkle_root@) {
            Err(SpoolError::SolutionInvalid)
        } else if !pow_valid(challenge, recall, pow.nonce@, pow.digest@) {
            Err(SpoolError::SolutionInvalid)
        } else {
            Ok(())
        }
    } else {
        if !pow_valid(challenge, spec_empty_segment(), pow.nonce@, pow.digest@) {
            Err(SpoolError::SolutionInvalid)
        } else {
            Ok(())
        }
    }
}

/// Verifies a submitted solution against the epoch's difficulties and the
/// spool's tree. The miner's commitment is carried but not yet enforced:
/// the commitment equality check waits on reel use becoming mandatory.
pub fn verify_solution(
    epoch: &Epoch,
    spool: &Spool,
    miner_address: &[u8; 32],
    miner_challenge: &[u8; 32],
    _miner_commitment: &[u8; 32],
    pow: &PoW,
    poa: &PoA,
) -> (r: Result<(), SpoolError>)
    requires
        spool.wf(),
        spool.total_segments > 0,
    ensures
        r == spec_verify_solution(*epoch, *spool, miner_address@, miner_challenge@, *pow, *poa),
{
    let pow_difficulty = crankx_difficulty(&pow.digest, &pow.nonce) as u64;
    let poa_difficulty = packx_difficulty(&poa.solution) as u64;
    if pow_difficulty < epoch.mining_difficulty || poa_difficulty < epoch.packing_difficulty {
        return Err(SpoolError::SolutionTooEasy);
    }
    if spool.has_minimum_rent() {
        let segment_number = compute_recall_segment(miner_challenge, spool.total_segments);
        let recall_segment = packx_unpack(miner_address, &poa.solution);
        let leaf = make_leaf(segment_number, recall_segment.as_slice());
        if !verify_inclusion(&spool.merkle_root, poa.path.as_slice(), &leaf) {
            return Err(SpoolError::SolutionInvalid);
        }
        if !crankx_verify_segment(miner_challenge, &recall_segment, &pow.nonce, &pow.digest) {
            return Err(SpoolError::SolutionInvalid);
        }
        Ok(())
    } else {
        let fixed = empty_segment();
        if !crankx_verify_segment(miner_challenge, &fixed, &pow.nonce, &pow.digest) {
            return Err(SpoolError::SolutionInvalid);
        }
        Ok(())
    }
}

/// Credits a reward and advances the miner's rolling state.
pub fn update_miner_state(
    miner: &mut Miner,
    block: &Block,
    final_reward: u64,
    current_time: i64,
    next_miner_challenge: [u8; 32],
)
    ensures
        *final(miner) == (Miner {
            unclaimed_rewards: old(miner).unclaimed_rewards.saturating_add(final_reward),
            total_rewards: old(miner).total_rewards.saturating_add(final_reward),
            total_proofs: old(miner).total_proofs.saturating_add(1),
            last_proof_at: current_time,
            last_proof_block: block.number,
            challenge: next_miner_challenge,
            ..*old(miner)
        }),
{
    miner.unclaimed_rewards = miner.unclaimed_rewards.saturating_add(final_reward);
    miner.total_rewards = miner.total_rewards.saturating_add(final_reward);
    miner.total_proofs = miner.total_proofs.saturating_add(1);
    miner.last_proof_at = current_time;
    miner.last_proof_block = block.number;
    miner.challenge = next_miner_challenge;
}

/// Charges the spool the rent it owes up to the given block.
pub fn update_spool_balance(spool: &mut Spool, block_number: u64)
    requires
        old(spool).wf(),
    ensures
        *final(spool) == (Spool {
            balance: old(spool).balance.saturating_sub(old(spool).spec_rent_owed(block_number)),
            last_rent_block: block_number,
            ..*old(spool)
        }),
        final(spool).wf(),
{
    let rent = spool.rent_owed(block_number);
    spool.balance = spool.balance.saturating_sub(rent);
    spool.last_rent_block = block_number;
}

/// Opens the next block: number up one, progress reset, timestamps set.
/// The caller draws the new challenge and challenge set.
pub fn advance_block(block: &mut Block, current_time: i64)
    ensures
        *final(block) == (Block {
            number: old(block).number.saturating_add(1),
            progress: 0,
            last_proof_at: current_time,
            last_block_at: current_time,
            ..*old(block)
        }),
{
    block.number = block.number.saturating_add(1);
    block.progress = 0;
    block.last_proof_at = current_time;
    block.last_block_at = current_time;
}

/// Whether the epoch ran faster than its target: less wall time than
/// `EPOCH_BLOCKS` blocks of the target duration.
pub open spec fn spec_epoch_ran_fast(epoch: Epoch, current_time: i64) -> bool {
    current_time - epoch.last_epoch_at < EPOCH_BLOCKS * BLOCK_DURATION_SECONDS
}

/// The mining difficulty after retargeting: up one after a fast epoch,
/// down one — floored — after a slow one.
pub open spec fn spec_adjusted_difficulty(epoch: Epoch, current_time: i64) -> u64 {
    if spec_epoch_ran_fast(epoch, current_time) {
        epoch.mining_difficulty.saturating_add(1)
    } else {
        let d = epoch.mining_difficulty.saturating_sub(1);
        if d > MIN_MINING_DIFFICULTY {
            d
        } else {
            MIN_MINING_DIFFICULTY
        }
    }
}

/// Retargets the mining difficulty from the epoch's wall-clock pace.
pub fn adjust_difficulty(epoch: &mut Epoch, current_time: i64)
    ensures
        *final(epoch) == (Epoch {
            mining_difficulty: spec_adjusted_difficulty(*old(epoch), current_time),
            ..*old(epoch)
        }),
{
    let elapsed: i128 = current_time as i128 - epoch.last_epoch_at as i128;
    let target: i128 = (EPOCH_BLOCKS * BLOCK_DURATION_SECONDS) as i128;
    if elapsed < target {
        epoch.mining_difficulty = epoch.mining_difficulty.saturating_add(1);
    } else {
        let d = epoch.mining_difficulty.saturating_sub(1);
        epoch.mining_difficulty = if d > MIN_MINING_DIFFICULTY {
            d
        } else {
            MIN_MINING_DIFFICULTY
        };
    }
}

/// The participation target after retargeting: up one — at the adjustment
/// interval, capped — after an epoch of unique submissions, down one —
/// floored — after any duplicate.
pub open spec fn spec_adjusted_participation(epoch: Epoch) -> u64 {
    if epoch.duplicates == 0 {
        if epoch.number % ADJUSTMENT_INTERVAL == 0 {
            let t = epoch.target_participation.saturating_add(1);
            if t < MAX_PARTICIPATION_TARGET {
                t
            } else {
                MAX_PARTICIPATION_TARGET
            }
        } else {
            epoch.target_participation
        }
    } else {
        let t = epoch.target_participation.saturating_sub(1);
        if t > MIN_PARTICIPATION_TARGET {
            t
        } else {
            MIN_PARTICIPATION_TARGET
        }
    }
}

/// Retargets the participation target from the epoch's duplicate count.
pub fn adjust_participation(epoch: &mut Epoch)
    ensures
        *final(epoch) == (Epoch {
            target_participation: spec_adjusted_participation(*old(epoch)),
            ..*old(epoch)
        }),
{
    if epoch.duplicates == 0 {
        if epoch.number % ADJUSTMENT_INTERVAL == 0 {
            let t = epoch.target_participation.saturating_add(1);
            epoch.target_participation = if t < MAX_PARTICIPATION_TARGET {
                t
            } else {
                MAX_PARTICIPATION_TARGET
            };
        }
    } else {
        let t = epoch.target_participation.saturating_sub(1);
        epoch.target_participation = if t > MIN_PARTICIPATION_TARGET {
            t
        } else {
            MIN_PARTICIPATION_TARGET
        };
    }
}

/// The epoch after advancing: retargeted, renumbered, counters reset.
/// The reward rate is recomputed separately by the caller.
pub open spec fn spec_advanced_epoch(epoch: Epoch, current_time: i64) -> Epoch {
    let t1 = spec_adjusted_participation(epoch);
    let d1 = spec_adjusted_difficulty(epoch, current_time);
    Epoch {
        number: epoch.number.saturating_add(1),
        progress: 0,
        mining_difficulty: if d1 > MIN_MINING_DIFFICULTY {
            d1
        } else {
            MIN_MINING_DIFFICULTY
        },
        target_participation: if t1 > MIN_PARTICIPATION_TARGET {
            t1
        } else {
            MIN_PARTICIPATION_TARGET
        },
        duplicates: 0,
        last_epoch_at: current_time,
        ..epoch
    }
}

/// Advances the epoch: retargets, renumbers, resets counters.
pub fn advance_epoch(epoch: &mut Epoch, current_time: i64)
    requires
        old(epoch).wf(),
    ensures
        *final(epoch) == spec_advanced_epoch(*old(epoch), current_time),
        final(epoch).wf(),
{
    adjust_participation(epoch);
    adjust_difficulty(epoch, current_time);
    epoch.number = epoch.number.saturating_add(1);
    epoch.mining_difficulty = if epoch.mining_difficulty > MIN_MINING_DIFFICULTY {
        epoch.mining_difficulty
    } else {
        MIN_MINING_DIFFICULTY
    };
    epoch.target_participation = if epoch.target_participation > MIN_PARTICIPATION_TARGET {
        epoch.target_participation
    } else {
        MIN_PARTICIPATION_TARGET
    };
    epoch.progress = 0;
    epoch.duplicates = 0;
    epoch.last_epoch_at = current_time;
}

/// The epoch after one more block: advanced with a fresh reward rate at the
/// window's end, its progress counted up otherwise.
pub open spec fn spec_updated_epoch(epoch: Epoch, archive: Archive, current_time: i64) -> Epoch {
    if epoch.progress >= EPOCH_BLOCKS {
        let e = spec_advanced_epoch(epoch, current_time);
        Epoch {
            reward_rate: spec_base_rate(e.number).saturating_add(archive.spec_block_reward()),
            ..e
        }
    } else {
        Epoch { progress: epoch.progress.saturating_add(1), ..epoch }
    }
}

/// Counts a block against the epoch, advancing it at the window's end.
pub fn update_epoch(epoch: &mut Epoch, archive: &Archive, current_time: i64)
    requires
        old(epoch).wf(),
    ensures
        *final(epoch) == spec_updated_epoch(*old(epoch), *archive, current_time),
        final(epoch).wf(),
{
    if epoch.progress >= EPOCH_BLOCKS {
        advance_epoch(epoch, current_time);
        let base_rate = get_base_rate(epoch.number);
        let storage_rate = archive.block_reward();
        epoch.reward_rate = storage_rate.saturating_add(base_rate);
    } else {
        epoch.progress = epoch.progress.saturating_add(1);
    }
}

/// The exact gate of the Mine instruction: the re-entry policy, then the
/// recall-spool check, then solution verification. `Ok` carries whether the
/// accepted submission counts as a duplicate.
pub open spec fn spec_mine_outcome(
    epoch: Epoch,
    block: Block,
    miner: Miner,
    spool: Spool,
    miner_address: Seq<u8>,
    current_time: i64,
    pow: PoW,
    poa: PoA,
) -> Result<bool, SpoolError> {
    match spec_check_submission(miner, block, current_time) {
        Err(e) => Err(e),
        Ok(dup) => {
            let ch = spec_challenge(block.challenge@, miner.challenge@);
            if spool.number != spec_recall_spool(ch, block.challenge_set) {
                Err(SpoolError::UnexpectedSpool)
            } else {
                match spec_verify_solution(epoch, spool, miner_address, ch, pow, poa) {
                    Err(e) => Err(e),
                    Ok(u) => Ok(dup),
                }
            }
        },
    }
}

/// Processes one Mine submission.
///
/// On rejection nothing changes. On acceptance the miner's multiplier,
/// rewards and rolling challenge advance, the spool is charged rent, the
/// block's progress counts up — opening the next block at the participation
/// target — and the epoch's progress counts up, retargeting at the window's
/// end.
pub fn process_mine(
    archive: &Archive,
    epoch: &mut Epoch,
    block: &mut Block,
    miner: &mut Miner,
    spool: &mut Spool,
    miner_address: &[u8; 32],
    slot_hash: &[u8; 32],
    current_time: i64,
    pow: &PoW,
    poa: &PoA,
) -> (r: Result<(), SpoolError>)
    requires
        old(epoch).wf(),
        old(block).wf(),
        old(miner).wf(),
        old(spool).wf(),
        old(spool).total_segments > 0,
        archive.spools_stored >= 1,
    ensures
        final(epoch).wf(),
        final(block).wf(),
        final(miner).wf(),
        final(spool).wf(),
        ({
            let outcome = spec_mine_outcome(
                *old(epoch),
                *old(block),
                *old(miner),
                *old(spool),
                miner_address@,
                current_time,
                *pow,
                *poa,
            );
            match outcome {
                Err(e) => {
                    &&& r == Err::<(), SpoolError>(e)
                    &&& *final(epoch) == *old(epoch)
                    &&& *final(block) == *old(block)
                    &&& *final(miner) == *old(miner)
                    &&& *final(spool) == *old(spool)
                },
                Ok(dup) => {
                    let m1 = spec_next_multiplier(*old(miner), *old(block));
                    let rew = spec_reward(*old(epoch), *old(spool), m1);
                    let prog = old(block).progress.saturating_add(1);
                    let e1 = Epoch {
                        duplicates: if dup {
                            old(epoch).duplicates.saturating_add(1)
                        } else {
                            old(epoch).duplicates
                        },
                        ..*old(epoch)
                    };
                    &&& r is Ok
                    &&& *final(miner) == (Miner {
                        multiplier: m1,
                        unclaimed_rewards: old(miner).unclaimed_rewards.saturating_add(rew),
                        total_rewards: old(miner).total_rewards.saturating_add(rew),
                        total_proofs: old(miner).total_proofs.saturating_add(1),
                        last_proof_at: current_time,
                        last_proof_block: old(block).number,
                        challenge: final(miner).challenge,
                        ..*old(miner)
                    })
                    &&& final(miner).challenge@ == spec_challenge(
                        old(miner).challenge@,
                        slot_hash@,
                    )
                    &&& *final(spool) == (Spool {
                        balance: old(spool).balance.saturating_sub(
                            old(spool).spec_rent_owed(old(block).number),
                        ),
                        last_rent_block: old(block).number,
                        ..*old(spool)
                    })
                    &&& if prog >= old(epoch).target_participation {
                        &&& *final(block) == (Block {
                            number: old(block).number.saturating_add(1),
                            progress: 0,
                            challenge: final(block).challenge,
                            challenge_set: archive.spools_stored,
                            last_proof_at: current_time,
                            last_block_at: current_time,
                        })
                        &&& final(block).challenge@ == spec_challenge(
                            old(block).challenge@,
                            slot_hash@,
                        )
                    } else {
                        *final(block) == (Block { progress: prog, ..*old(block) })
                    }
                    &&& *final(epoch) == spec_updated_epoch(e1, *archive, current_time)
                    &&& (final(block).number > old(block).number ==> final(block).challenge_set
                        == archive.spools_stored)
                },
            }
        }),
{
    let dup = match check_submission(miner, block, current_time) {
        Ok(d) => d,
        Err(e) => {
            return Err(e);
        },
    };
    let miner_challenge = compute_challenge(&block.challenge, &miner.challenge);
    let spool_number = compute_recall_spool(&miner_challenge, block.challenge_set);
    if spool.number != spool_number {
        return Err(SpoolError::UnexpectedSpool);
    }
    match verify_solution(
        epoch,
        spool,
        miner_address,
        &miner_challenge,
        &miner.commitment,
        pow,
        poa,
    ) {
        Ok(u) => u,
        Err(e) => {
            return Err(e);
        },
    };

    update_multiplier(miner, block);
    let next_challenge = compute_challenge(&miner.challenge, slot_hash);
    let reward = calculate_reward(epoch, spool, miner.multiplier);
    update_miner_state(miner, block, reward, current_time, next_challenge);
    update_spool_balance(spool, block.number);

    block.progress = block.progress.saturating_add(1);
    if block.progress >= epoch.target_participation {
        advance_block(block, current_time);
        let next_block_challenge = compute_challenge(&block.challenge, slot_hash);
        block.challenge = next_block_challenge;
        block.challenge_set = archive.spools_stored;
    }

    if dup {
        epoch.duplicates = epoch.duplicates.saturating_add(1);
    }
    update_epoch(epoch, archive, current_time);
    Ok(())
}

} // verus!
