//! End-to-end scenarios against the on-ledger state machine: genesis
//! mining, the spool lifecycle, expired-spool mining, difficulty
//! retargeting, duplicate submissions, and the reel round trip.

use spool::consts::{
    BLOCK_DURATION_SECONDS, EPOCH_BLOCKS, FINALIZATION_RENT_BLOCKS, MAX_CONSISTENCY_MULTIPLIER,
    MIN_MINING_DIFFICULTY, RENT_PER_SEGMENT_PER_BLOCK, SEGMENT_PROOF_LEN, SEGMENT_TREE_HEIGHT,
};
use spool::error::SpoolError;
use spool::merkle::{make_leaf, MerkleTree};
use spool::miner_ops::{process_claim, process_register, process_unregister};
use spool::packing::packx_difficulty;
use spool::program::process_initialize;
use spool::protocol::{
    compute_challenge, compute_recall_segment, compute_recall_spool, process_mine, update_epoch,
    update_multiplier, PoA, PoW,
};
use spool::reel_ops::{process_reel_commit, process_reel_create, process_reel_pack,
    process_reel_unpack};
use spool::spool_ops::{
    pad_segment, process_spool_create, process_spool_finalize, process_spool_set_header,
    process_spool_subsidize_rent, process_spool_update, process_spool_write,
};
use spool::state::{Archive, Block, Epoch, Miner, Spool, SpoolState};

fn addr(tag: u8) -> [u8; 32] {
    let mut a = [0u8; 32];
    a[0] = tag;
    a[1] = 0xA5;
    a
}

fn name32(s: &str) -> [u8; 32] {
    let mut n = [0u8; 32];
    let b = s.as_bytes();
    n[..b.len()].copy_from_slice(b);
    n
}

fn solve_pow(challenge: &[u8; 32], data: &[u8; 128], difficulty: u64) -> PoW {
    let mut nonce: u64 = 0;
    loop {
        if let Ok(sol) = crankx::solve(challenge, data, &nonce.to_le_bytes()) {
            if sol.difficulty() as u64 >= difficulty {
                let bytes = sol.to_bytes();
                let mut digest = [0u8; 16];
                let mut n = [0u8; 8];
                digest.copy_from_slice(&bytes[..16]);
                n.copy_from_slice(&bytes[16..]);
                return PoW { digest, nonce: n };
            }
        }
        nonce += 1;
    }
}

fn pack_bytes(miner: &[u8; 32], data: &[u8; 128], difficulty: u32) -> [u8; 145] {
    for bump in 0u8..=16 {
        let table = packx::build_one_bump(miner, bump);
        if let Some(sol) = packx::solve_one_bump(data, bump, &table, difficulty) {
            return sol.to_bytes();
        }
    }
    panic!("no packing solution found");
}

/// A PoA whose solution bytes meet the packing difficulty but whose path is
/// unused: what an expired-spool mine submits.
fn filler_poa(min_difficulty: u64) -> PoA {
    let mut solution = [0u8; 145];
    let mut x: u64 = 0;
    loop {
        solution[..8].copy_from_slice(&x.to_le_bytes());
        if (packx_difficulty(&solution) as u64) >= min_difficulty {
            return PoA { solution, path: [[0u8; 32]; SEGMENT_PROOF_LEN] };
        }
        x += 1;
    }
}

struct World {
    archive: Archive,
    epoch: Epoch,
    block: Block,
    miner: Miner,
    spool: Spool,
    miner_address: [u8; 32],
    spool_address: [u8; 32],
    genesis_padded: [u8; 128],
    writer_leaf: [u8; 32],
}

fn genesis_world() -> World {
    let authority = addr(1);
    let spool_address = addr(2);
    let miner_address = addr(3);
    let (archive, epoch, block, spool) =
        process_initialize(&authority, &name32("genesis"), &spool_address, b"hello, world", 0);
    let miner = process_register(&authority, &name32("m1"), &miner_address);
    let genesis_padded = pad_segment(b"hello, world");
    let writer_leaf = make_leaf(0, &genesis_padded);
    World {
        archive,
        epoch,
        block,
        miner,
        spool,
        miner_address,
        spool_address,
        genesis_padded,
        writer_leaf,
    }
}

fn mine_once(w: &mut World, current_time: i64) -> Result<(), SpoolError> {
    let ch = compute_challenge(&w.block.challenge, &w.miner.challenge);
    let recall_spool = compute_recall_spool(&ch, w.block.challenge_set);
    assert_eq!(recall_spool, w.spool.number);
    let slot_hash = addr(9);
    if w.spool.balance >= w.spool.total_segments * RENT_PER_SEGMENT_PER_BLOCK {
        let seg = compute_recall_segment(&ch, w.spool.total_segments);
        assert_eq!(seg, 0);
        let packed = pack_bytes(&w.miner_address, &w.genesis_padded, w.epoch.packing_difficulty as u32);
        // the recalled bytes are what the solution unpacks to
        let recall = packx::Solution::from_bytes(&packed).unpack(&w.miner_address);
        let leaf = make_leaf(seg, &recall);
        let mut tree = MerkleTree::new(&w.spool_address, SEGMENT_TREE_HEIGHT);
        tree.try_add_leaf(&leaf).unwrap();
        // the spool was finalized over these same recalled bytes
        w.spool.merkle_root = tree.get_root();
        let proof = tree.get_proof(&vec![leaf], 0);
        let mut path = [[0u8; 32]; SEGMENT_PROOF_LEN];
        for (i, p) in proof.iter().enumerate() {
            path[i] = *p;
        }
        let pow = solve_pow(&ch, &recall, w.epoch.mining_difficulty);
        let poa = PoA { solution: packed, path };
        process_mine(
            &w.archive,
            &mut w.epoch,
            &mut w.block,
            &mut w.miner,
            &mut w.spool,
            &w.miner_address,
            &slot_hash,
            current_time,
            &pow,
            &poa,
        )
    } else {
        let fixed = [0u8; 128];
        let pow = solve_pow(&ch, &fixed, w.epoch.mining_difficulty);
        let poa = filler_poa(w.epoch.packing_difficulty);
        process_mine(
            &w.archive,
            &mut w.epoch,
            &mut w.block,
            &mut w.miner,
            &mut w.spool,
            &w.miner_address,
            &slot_hash,
            current_time,
            &pow,
            &poa,
        )
    }
}

#[test]
fn genesis_mine() {
    let mut w = genesis_world();
    assert_eq!(w.archive.spools_stored, 1);
    assert_eq!(w.epoch.number, 1);
    assert_eq!(w.epoch.mining_difficulty, MIN_MINING_DIFFICULTY);
    assert_eq!(w.block.number, 1);
    assert_eq!(w.block.challenge_set, 1);
    assert!(w.block.challenge != [0u8; 32]);
    assert!(w.spool.can_finalize());

    mine_once(&mut w, 50).unwrap();
    assert!(w.miner.unclaimed_rewards > 0);
    // reward = (reward_rate / target) * multiplier / multiplier cap
    assert_eq!(w.miner.unclaimed_rewards, 10000000000 / 2 * 1 / 64);
    assert_eq!(w.block.progress, 1);
    assert_eq!(w.miner.last_proof_block, 1);
    assert_eq!(w.miner.multiplier, 1);

    // rewards can be claimed down to zero, then the miner may unregister
    assert_eq!(process_unregister(&w.miner).unwrap_err(), SpoolError::ClaimTooLarge);
    let claimed = process_claim(&mut w.miner, 0).unwrap();
    assert!(claimed > 0);
    assert_eq!(w.miner.unclaimed_rewards, 0);
    process_unregister(&w.miner).unwrap();
}

#[test]
fn duplicate_submission() {
    let mut w = genesis_world();
    mine_once(&mut w, 50).unwrap();
    assert_eq!(w.epoch.duplicates, 0);
    // same miner, same block, before the stall deadline: rejected
    let r = mine_once(&mut w, 55);
    assert_eq!(r.unwrap_err(), SpoolError::SolutionInvalid);
    assert_eq!(w.epoch.duplicates, 0);
    // after the block stalls the duplicate is accepted and counted
    let t = (BLOCK_DURATION_SECONDS as i64) + 10;
    mine_once(&mut w, t).unwrap();
    assert_eq!(w.epoch.duplicates, 1);
    // the second accepted proof filled the block: it advanced, and its
    // challenge set snapshots the archive's spool count
    assert_eq!(w.block.number, 2);
    assert_eq!(w.block.progress, 0);
    assert_eq!(w.block.challenge_set, w.archive.spools_stored);
}

#[test]
fn expired_spool_mine() {
    // the same mine against a funded and a rent-expired spool: the expired
    // reward is half
    let mut funded = genesis_world();
    mine_once(&mut funded, 50).unwrap();
    let funded_reward = funded.miner.unclaimed_rewards;
    assert!(funded_reward > 0);

    let mut expired = genesis_world();
    expired.spool.balance = 0;
    assert!(!expired.spool.has_minimum_rent());
    mine_once(&mut expired, 50).unwrap();
    let expired_reward = expired.miner.unclaimed_rewards;
    assert_eq!(expired_reward, funded_reward / 2);
    assert!(expired_reward > 0);
}

#[test]
fn difficulty_retarget() {
    let archive = Archive { spools_stored: 1, segments_stored: 1 };
    // a full epoch finished faster than the target: difficulty rises
    let mut epoch = Epoch {
        number: 1,
        progress: EPOCH_BLOCKS,
        mining_difficulty: 5,
        packing_difficulty: 1,
        target_participation: 2,
        reward_rate: 1000,
        duplicates: 1,
        last_epoch_at: 0,
    };
    let fast = (EPOCH_BLOCKS * BLOCK_DURATION_SECONDS) as i64 - 1;
    update_epoch(&mut epoch, &archive, fast);
    assert_eq!(epoch.mining_difficulty, 6);
    assert_eq!(epoch.number, 2);
    assert_eq!(epoch.progress, 0);
    assert_eq!(epoch.duplicates, 0);

    // a slow epoch: difficulty falls, floored at the minimum
    let mut slow_epoch = Epoch { progress: EPOCH_BLOCKS, last_epoch_at: 0, ..epoch };
    slow_epoch.mining_difficulty = 5;
    let slow = (EPOCH_BLOCKS * BLOCK_DURATION_SECONDS) as i64 + 1;
    update_epoch(&mut slow_epoch, &archive, slow);
    assert_eq!(slow_epoch.mining_difficulty, 4);

    let mut floor_epoch = Epoch { progress: EPOCH_BLOCKS, last_epoch_at: 0, ..epoch };
    floor_epoch.mining_difficulty = MIN_MINING_DIFFICULTY;
    update_epoch(&mut floor_epoch, &archive, slow);
    assert_eq!(floor_epoch.mining_difficulty, MIN_MINING_DIFFICULTY);

    // an epoch still in progress only counts up
    let mut running = Epoch { progress: 3, ..epoch };
    update_epoch(&mut running, &archive, fast);
    assert_eq!(running.progress, 4);
}

#[test]
fn write_update_finalize() {
    let authority = addr(4);
    let spool_address = addr(5);
    let (mut spool, mut writer) =
        process_spool_create(&authority, &name32("s1"), &spool_address, 10);
    assert_eq!(spool.number, 0);
    assert!(matches!(spool.state, SpoolState::Created));
    assert_eq!(spool.merkle_root, [0u8; 32]);

    // headers may only be set while writing
    assert_eq!(
        process_spool_set_header(&mut spool, &[1u8; 64]).unwrap_err(),
        SpoolError::UnexpectedState
    );

    let mut leaves: Vec<[u8; 32]> = Vec::new();
    for i in 0..5u64 {
        let data = format!("<segment_{i}_data>");
        let ev =
            process_spool_write(&mut spool, &mut writer, &spool_address, data.as_bytes(), 11 + i)
                .unwrap();
        assert_eq!(ev.num_added, 1);
        assert_eq!(ev.num_total, i + 1);
        assert_eq!(ev.address, spool_address);
        leaves.push(make_leaf(i, &pad_segment(data.as_bytes())));
    }
    assert_eq!(spool.total_segments, 5);
    assert!(matches!(spool.state, SpoolState::Writing));
    assert_eq!(spool.merkle_root, writer.state.get_root());

    process_spool_set_header(&mut spool, &[2u8; 64]).unwrap();
    assert_eq!(spool.header, [2u8; 64]);

    // replace segment 0, guarded by its proof
    let proof = writer.state.get_proof(&leaves, 0);
    let mut path = [[0u8; 32]; SEGMENT_PROOF_LEN];
    for (i, p) in proof.iter().enumerate() {
        path[i] = *p;
    }
    let old_data = pad_segment(b"<segment_0_data>");
    let new_data = pad_segment(b"<segment_0_updated>");
    let ev = process_spool_update(
        &mut spool,
        &mut writer,
        &spool_address,
        0,
        &old_data,
        &new_data,
        &path,
        20,
    )
    .unwrap();
    assert_eq!(ev.segment_number, 0);
    assert_eq!(spool.merkle_root, writer.state.get_root());
    leaves[0] = make_leaf(0, &new_data);

    // a stale proof for the replaced contents now fails
    assert_eq!(
        process_spool_update(
            &mut spool,
            &mut writer,
            &spool_address,
            0,
            &old_data,
            &new_data,
            &path,
            21,
        )
        .unwrap_err(),
        SpoolError::WriteFailed
    );

    // finalization needs rent
    let mut archive = Archive { spools_stored: 1, segments_stored: 1 };
    assert_eq!(
        process_spool_finalize(&mut spool, &writer, &mut archive, &spool_address).unwrap_err(),
        SpoolError::InsufficientRent
    );
    let min_rent = 5 * RENT_PER_SEGMENT_PER_BLOCK * FINALIZATION_RENT_BLOCKS;
    process_spool_subsidize_rent(&mut spool, min_rent);
    let ev = process_spool_finalize(&mut spool, &writer, &mut archive, &spool_address).unwrap();
    assert_eq!(archive.spools_stored, 2);
    assert_eq!(archive.segments_stored, 6);
    assert_eq!(spool.number, archive.spools_stored);
    assert!(matches!(spool.state, SpoolState::Finalized));
    assert_eq!(ev.spool, 2);

    // a finalized spool rejects further updates
    assert_eq!(
        process_spool_update(
            &mut spool,
            &mut writer,
            &spool_address,
            0,
            &new_data,
            &old_data,
            &path,
            22,
        )
        .unwrap_err(),
        SpoolError::UnexpectedState
    );
}

#[test]
fn reel_round_trip() {
    let authority = addr(6);
    let miner_address = addr(7);
    let reel_address = addr(8);
    let mut miner = process_register(&authority, &name32("m2"), &miner_address);
    let mut reel = process_reel_create(&authority, &reel_address, 1, 0);
    assert_eq!(reel.total_spools, 0);
    assert_eq!(reel.contains, [0u8; 32]);

    // three packed spools, each a small segment tree of packed leaves
    let mut packed_roots: Vec<[u8; 32]> = Vec::new();
    let mut packed_leaves: Vec<Vec<[u8; 32]>> = Vec::new();
    let mut reel_leaves: Vec<[u8; 32]> = Vec::new();
    for s in 0..3u64 {
        let spool_addr = addr(20 + s as u8);
        let mut tree = MerkleTree::new(&spool_addr, SEGMENT_TREE_HEIGHT);
        let mut leaves = Vec::new();
        for i in 0..3u64 {
            let leaf = make_leaf(i, format!("packed {s} {i}").as_bytes());
            tree.try_add_leaf(&leaf).unwrap();
            leaves.push(leaf);
        }
        let root = tree.get_root();
        let spool = Spool {
            number: s + 1,
            authority,
            name: name32("x"),
            state: SpoolState::Finalized,
            total_segments: 3,
            merkle_root: root,
            header: [0u8; 64],
            first_slot: 0,
            tail_slot: 0,
            balance: 0,
            last_rent_block: 0,
        };
        process_reel_pack(&mut reel, &spool, &root).unwrap();
        reel_leaves.push(make_leaf(s + 1, &root));
        packed_roots.push(root);
        packed_leaves.push(leaves);
    }
    assert_eq!(reel.total_spools, 3);

    // unpack the middle one with its proof
    let reel_proof = reel.state.get_proof(&reel_leaves, 1);
    let mut reel_path = [[0u8; 32]; SEGMENT_PROOF_LEN];
    for (i, p) in reel_proof.iter().enumerate() {
        reel_path[i] = *p;
    }
    process_reel_unpack(&mut reel, 2, &reel_path, &packed_roots[1]).unwrap();
    assert_eq!(reel.contains, packed_roots[1]);

    // a wrong value fails
    assert_eq!(
        process_reel_unpack(&mut reel, 2, &reel_path, &packed_roots[0]).unwrap_err(),
        SpoolError::ReelUnpackFailed
    );

    // commit a leaf of that spool with its per-segment proof
    let spool_addr = addr(21);
    let mut tree = MerkleTree::new(&spool_addr, SEGMENT_TREE_HEIGHT);
    for leaf in packed_leaves[1].iter() {
        tree.try_add_leaf(leaf).unwrap();
    }
    let seg_proof = tree.get_proof(&packed_leaves[1], 2);
    let mut seg_path = [[0u8; 32]; SEGMENT_PROOF_LEN];
    for (i, p) in seg_proof.iter().enumerate() {
        seg_path[i] = *p;
    }
    let committed = packed_leaves[1][2];
    process_reel_commit(&mut miner, &reel, &seg_path, &committed).unwrap();
    assert_eq!(miner.commitment, committed);

    // a wrong leaf fails and leaves the commitment alone
    let other = packed_leaves[1][0];
    assert_eq!(
        process_reel_commit(&mut miner, &reel, &seg_path, &other).unwrap_err(),
        SpoolError::ReelCommitFailed
    );
    assert_eq!(miner.commitment, committed);
}

#[test]
fn rent_formulas_are_exact() {
    let w = genesis_world();
    let spool = Spool {
        total_segments: 5,
        balance: 400,
        last_rent_block: 2,
        ..w.spool
    };
    // one block of rent is segments times the per-segment rate
    assert!(!spool.has_minimum_rent());
    let funded = Spool { balance: 500, ..spool };
    assert!(funded.has_minimum_rent());
    // rent owed is the elapsed blocks times one block of rent
    assert_eq!(spool.rent_owed(5), 3 * 5 * RENT_PER_SEGMENT_PER_BLOCK);
    assert_eq!(spool.rent_owed(2), 0);
    assert_eq!(spool.rent_owed(1), 0);
    // finalization demands a fixed number of blocks of rent up front
    let well_funded = Spool {
        balance: 5 * RENT_PER_SEGMENT_PER_BLOCK * FINALIZATION_RENT_BLOCKS,
        ..spool
    };
    assert!(well_funded.can_finalize());
    let short = Spool { balance: well_funded.balance - 1, ..spool };
    assert!(!short.can_finalize());
}

#[test]
fn multiplier_band_scenario() {
    let w = genesis_world();
    let block = Block { number: 8, ..w.block };

    // consecutive blocks: one step up
    let mut m = Miner { last_proof_block: 7, multiplier: 3, ..w.miner };
    update_multiplier(&mut m, &block);
    assert_eq!(m.multiplier, 4);

    // capped at the top of the band
    let mut m = Miner { last_proof_block: 7, multiplier: MAX_CONSISTENCY_MULTIPLIER, ..w.miner };
    update_multiplier(&mut m, &block);
    assert_eq!(m.multiplier, MAX_CONSISTENCY_MULTIPLIER);

    // a gap: one step down
    let mut m = Miner { last_proof_block: 2, multiplier: 3, ..w.miner };
    update_multiplier(&mut m, &block);
    assert_eq!(m.multiplier, 2);

    // floored at the bottom of the band
    let mut m = Miner { last_proof_block: 2, multiplier: 0, ..w.miner };
    update_multiplier(&mut m, &block);
    assert_eq!(m.multiplier, 0);
}
