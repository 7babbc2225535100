//! The full-system walk: initialize, register, reel, mining runs over the
//! genesis spool, then a batch of written and finalized spools and mining
//! over the grown archive.

use spool::consts::{
    BLOCK_DURATION_SECONDS, FINALIZATION_RENT_BLOCKS, RENT_PER_SEGMENT_PER_BLOCK,
    SEGMENT_PROOF_LEN, SEGMENT_TREE_HEIGHT,
};
use spool::merkle::{make_leaf, MerkleTree};
use spool::miner_ops::{process_claim, process_register};
use spool::program::process_initialize;
use spool::protocol::{
    compute_challenge, compute_recall_segment, compute_recall_spool, process_mine, PoA, PoW,
};
use spool::reel_ops::{process_reel_create, process_reel_pack};
use spool::spool_ops::{
    pad_segment, process_spool_create, process_spool_finalize, process_spool_subsidize_rent,
    process_spool_update, process_spool_write,
};
use spool::state::{Archive, Block, Epoch, Miner, Reel, Spool};

fn addr(tag: u8) -> [u8; 32] {
    let mut a = [0u8; 32];
    a[0] = tag;
    a[3] = 0x77;
    a
}

fn name32(s: &str) -> [u8; 32] {
    let mut n = [0u8; 32];
    let b = s.as_bytes();
    n[..b.len()].copy_from_slice(b);
    n
}

fn solve_pow(challenge: &[u8; 32], data: &[u8; 128], difficulty: u64) -> PoW {
    let mut nonce: u64 = 0;
    loop {
        if let Ok(sol) = crankx::solve(challenge, data, &nonce.to_le_bytes()) {
            if sol.difficulty() as u64 >= difficulty {
                let bytes = sol.to_bytes();
                let mut digest = [0u8; 16];
                let mut n = [0u8; 8];
                digest.copy_from_slice(&bytes[..16]);
                n.copy_from_slice(&bytes[16..]);
                return PoW { digest, nonce: n };
            }
        }
        nonce += 1;
    }
}

/// One spool as the miner holds it: the account, its unpacked leaves, and
/// the packed form of every segment.
struct StoredSpool {
    address: [u8; 32],
    spool: Spool,
    leaves: Vec<[u8; 32]>,
    packed: Vec<[u8; 145]>,
}

fn pack_spool(
    miner_address: &[u8; 32],
    table: &packx::SeedTable,
    address: [u8; 32],
    spool: Spool,
    segments: &[Vec<u8>],
    difficulty: u32,
) -> StoredSpool {
    let mut leaves = Vec::new();
    let mut packed = Vec::new();
    for (i, seg) in segments.iter().enumerate() {
        let data = pad_segment(seg);
        let sol = packx::solve_one_bump(&data, 0, table, difficulty).expect("packing failed");
        let bytes = sol.to_bytes();
        let unpacked = sol.unpack(miner_address);
        leaves.push(make_leaf(i as u64, &unpacked));
        packed.push(bytes);
    }
    StoredSpool { address, spool, leaves, packed }
}

#[allow(clippy::too_many_arguments)]
fn do_mining_run(
    archive: &Archive,
    epoch: &mut Epoch,
    block: &mut Block,
    miner: &mut Miner,
    miner_address: &[u8; 32],
    spools: &mut Vec<StoredSpool>,
    iterations: u64,
    time: &mut i64,
) {
    for _ in 0..iterations {
        *time += BLOCK_DURATION_SECONDS as i64 + 5;
        let ch = compute_challenge(&block.challenge, &miner.challenge);
        let recall_spool = compute_recall_spool(&ch, block.challenge_set);
        let rec = &mut spools[(recall_spool - 1) as usize];
        assert_eq!(rec.spool.number, recall_spool);
        assert!(rec.spool.has_minimum_rent());

        let seg = compute_recall_segment(&ch, rec.spool.total_segments);
        let mut tree = MerkleTree::new(&rec.address, SEGMENT_TREE_HEIGHT);
        for leaf in rec.leaves.iter() {
            tree.try_add_leaf(leaf).unwrap();
        }
        assert_eq!(tree.get_root(), rec.spool.merkle_root);
        let proof = tree.get_proof(&rec.leaves, seg);
        let mut path = [[0u8; 32]; SEGMENT_PROOF_LEN];
        for (i, p) in proof.iter().enumerate() {
            path[i] = *p;
        }
        let recalled =
            packx::Solution::from_bytes(&rec.packed[seg as usize]).unpack(miner_address);
        let pow = solve_pow(&ch, &recalled, epoch.mining_difficulty);
        let poa = PoA { solution: rec.packed[seg as usize], path };
        let slot_hash = addr(9);
        let proofs_before = miner.total_proofs;
        process_mine(
            archive,
            epoch,
            block,
            miner,
            &mut rec.spool,
            miner_address,
            &slot_hash,
            *time,
            &pow,
            &poa,
        )
        .expect("mine rejected");
        assert_eq!(miner.total_proofs, proofs_before + 1);
    }
}

#[test]
fn run_integration() {
    let authority = addr(1);
    let genesis_address = addr(2);
    let miner_address = addr(3);
    let table = packx::build_one_bump(&miner_address, 0);
    let mut time: i64 = 10;

    // initialize and register
    let (mut archive, mut epoch, mut block, genesis) =
        process_initialize(&authority, &name32("genesis"), &genesis_address, b"hello, world", 0);
    let mut miner = process_register(&authority, &name32("miner-name"), &miner_address);
    assert_eq!(archive.spools_stored, 1);
    assert_eq!(epoch.number, 1);
    assert_eq!(epoch.progress, 0);
    assert_eq!(epoch.duplicates, 0);
    assert_eq!(block.number, 1);
    assert_eq!(block.progress, 0);
    assert_eq!(block.challenge_set, 1);
    assert_eq!(miner.unclaimed_rewards, 0);
    assert_eq!(miner.total_proofs, 0);

    // a reel holding each packed spool's root
    let reel_address = addr(4);
    let mut reel: Reel = process_reel_create(&authority, &reel_address, 1, time);

    let mut spools: Vec<StoredSpool> = Vec::new();
    let genesis_segments = vec![b"hello, world".to_vec()];
    let g = pack_spool(
        &miner_address,
        &table,
        genesis_address,
        genesis,
        &genesis_segments,
        epoch.packing_difficulty as u32,
    );
    let mut gt = MerkleTree::new(&genesis_address, SEGMENT_TREE_HEIGHT);
    for (i, p) in g.packed.iter().enumerate() {
        gt.try_add_leaf(&make_leaf(i as u64, p)).unwrap();
    }
    process_reel_pack(&mut reel, &g.spool, &gt.get_root()).unwrap();
    spools.push(g);

    // mine the genesis spool to earn some rewards, then claim them
    do_mining_run(
        &archive,
        &mut epoch,
        &mut block,
        &mut miner,
        &miner_address,
        &mut spools,
        3,
        &mut time,
    );
    assert_eq!(miner.total_proofs, 3);
    let claimed = process_claim(&mut miner, 0).unwrap();
    assert!(claimed > 0);
    assert_eq!(miner.unclaimed_rewards, 0);

    // publish four more spools, each written, updated, funded and finalized
    for spool_index in 1..5u64 {
        let spool_address = addr(10 + spool_index as u8);
        let spool_name = format!("spool-name-{spool_index}");
        let (mut spool, mut writer) =
            process_spool_create(&authority, &name32(&spool_name), &spool_address, 10);
        let mut segments: Vec<Vec<u8>> = Vec::new();
        let mut leaves: Vec<[u8; 32]> = Vec::new();
        for i in 0..5u64 {
            let data = format!("<segment_{i}_data>").into_bytes();
            process_spool_write(&mut spool, &mut writer, &spool_address, &data, 11 + i).unwrap();
            leaves.push(make_leaf(i, &pad_segment(&data)));
            segments.push(data);
        }
        let proof = writer.state.get_proof(&leaves, 0);
        let mut path = [[0u8; 32]; SEGMENT_PROOF_LEN];
        for (i, p) in proof.iter().enumerate() {
            path[i] = *p;
        }
        let old_data = pad_segment(&segments[0]);
        let new_data = pad_segment(b"<segment_0_updated>");
        process_spool_update(
            &mut spool,
            &mut writer,
            &spool_address,
            0,
            &old_data,
            &new_data,
            &path,
            17,
        )
        .unwrap();
        segments[0] = b"<segment_0_updated>".to_vec();
        process_spool_subsidize_rent(
            &mut spool,
            5 * RENT_PER_SEGMENT_PER_BLOCK * FINALIZATION_RENT_BLOCKS,
        );
        process_spool_finalize(&mut spool, &writer, &mut archive, &spool_address).unwrap();
        assert_eq!(spool.number, spool_index + 1);
        assert_eq!(spool.number, archive.spools_stored);

        let s = pack_spool(
            &miner_address,
            &table,
            spool_address,
            spool,
            &segments,
            epoch.packing_difficulty as u32,
        );
        let mut pt = MerkleTree::new(&spool_address, SEGMENT_TREE_HEIGHT);
        for (i, p) in s.packed.iter().enumerate() {
            pt.try_add_leaf(&make_leaf(i as u64, p)).unwrap();
        }
        process_reel_pack(&mut reel, &s.spool, &pt.get_root()).unwrap();
        spools.push(s);
    }
    assert_eq!(archive.spools_stored, 5);
    assert_eq!(reel.total_spools, 5);

    // mine again over the grown archive: once the block advances, the
    // challenge set snapshots the five spools and the recall draws from all
    // of them
    do_mining_run(
        &archive,
        &mut epoch,
        &mut block,
        &mut miner,
        &miner_address,
        &mut spools,
        3,
        &mut time,
    );
    assert_eq!(miner.total_proofs, 6);
    assert!(miner.unclaimed_rewards > 0);
}
