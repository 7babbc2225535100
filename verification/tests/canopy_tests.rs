//! Tests of the canopy engine: sector updates over a store of packed
//! segments, and the spool root rebuilt from the canopy against a tree
//! built over all leaves at once.

use spool::canopy::{
    get_or_create_empty_hashes, get_segment_proof, get_spool_root,
    update_merkle_canopy_for_sector,
};
use spool::merkle::verify_inclusion;
use spool::consts::{SECTOR_LEAVES, SEGMENT_TREE_HEIGHT};
use spool::merkle::{make_leaf, MerkleTree};
use spool::store::{MerkleCacheKey, SpoolStore};

fn addr(tag: u8) -> [u8; 32] {
    let mut a = [0u8; 32];
    a[0] = tag;
    a[2] = 0x51;
    a
}

fn create_segment_data(marker: u8, table: &packx::SeedTable) -> Vec<u8> {
    const TEST_DIFFICULTY: u32 = 0;
    let data = [marker; 128];
    let solution =
        packx::solve_one_bump(&data, 0, table, TEST_DIFFICULTY).expect("failed to pack segment");
    solution.to_bytes().to_vec()
}

#[test]
fn test_subtree_update() {
    let mut store = SpoolStore::new();
    let miner_address = addr(1);
    let spool_address = addr(2);
    let table = packx::build_one_bump(&miner_address, 0);

    let mut spool_tree = MerkleTree::new(&spool_address, SEGMENT_TREE_HEIGHT);
    let mut leaves: Vec<[u8; 32]> = Vec::new();

    let empty_values = get_or_create_empty_hashes(&mut store, &spool_address);
    assert_eq!(empty_values.len(), SEGMENT_TREE_HEIGHT);

    // fill two and a half sectors
    let leaf_count = SECTOR_LEAVES * 2 + SECTOR_LEAVES / 2;
    for i in 0..leaf_count {
        let segment_id = i as u64;
        let packed = create_segment_data(1, &table);

        // the expected tree holds the unpacked bytes
        let mut raw = [0u8; 145];
        raw.copy_from_slice(&packed);
        let solution = packx::Solution::from_bytes(&raw);
        let data_unpacked = solution.unpack(&miner_address);
        let leaf = make_leaf(segment_id, &data_unpacked);

        spool_tree.try_add_leaf(&leaf).unwrap();
        let mut arr = [0u8; 145];
        arr.copy_from_slice(&packed);
        store.put_segment(&spool_address, segment_id, &arr);
        leaves.push(leaf);
    }

    update_merkle_canopy_for_sector(&mut store, &miner_address, &spool_address, 0).unwrap();
    update_merkle_canopy_for_sector(&mut store, &miner_address, &spool_address, 1).unwrap();
    update_merkle_canopy_for_sector(&mut store, &miner_address, &spool_address, 2).unwrap();

    // both canopies exist and cover the three sectors
    let unpacked = store
        .get_merkle_cache(&MerkleCacheKey::UnpackedSpoolLayer { address: spool_address, layer: 10 })
        .unwrap();
    let packed = store
        .get_merkle_cache(&MerkleCacheKey::PackedSpoolLayer { address: spool_address, layer: 10 })
        .unwrap();
    assert_eq!(unpacked.len(), 3);
    assert_eq!(packed.len(), 3);
    assert_ne!(unpacked[0], packed[0]);

    // the root rebuilt from the canopy equals the tree built over every leaf
    let computed_root = get_spool_root(&mut store, &spool_address).unwrap();
    assert_eq!(computed_root, spool_tree.get_root());

    // overwriting one segment and refreshing its sector moves the root the
    // same way on both sides
    let segment_id = 5u64;
    let packed2 = create_segment_data(9, &table);
    let mut raw = [0u8; 145];
    raw.copy_from_slice(&packed2);
    let solution = packx::Solution::from_bytes(&raw);
    let data_unpacked = solution.unpack(&miner_address);
    let new_leaf = make_leaf(segment_id, &data_unpacked);
    let proof = spool_tree.get_proof(&leaves, segment_id);
    spool_tree
        .try_replace_leaf(segment_id, &proof, &leaves[segment_id as usize], &new_leaf)
        .unwrap();
    leaves[segment_id as usize] = new_leaf;
    store.put_segment(&spool_address, segment_id, &raw);
    update_merkle_canopy_for_sector(&mut store, &miner_address, &spool_address, 0).unwrap();

    let computed_root = get_spool_root(&mut store, &spool_address).unwrap();
    assert_eq!(computed_root, spool_tree.get_root());

    // a proof built from one sector and the canopy verifies on-ledger
    let target = 1100u64;
    let proof = get_segment_proof(&mut store, &miner_address, &spool_address, target).unwrap();
    assert_eq!(proof.len(), SEGMENT_TREE_HEIGHT);
    let expected = spool_tree.get_proof(&leaves, target);
    assert_eq!(proof, expected);
    assert!(verify_inclusion(&computed_root, &proof, &leaves[target as usize]));
    assert!(brine_tree::verify(computed_root, &proof, leaves[target as usize]));
    // a flipped sibling fails
    let mut bad = proof.clone();
    bad[0][0] ^= 1;
    assert!(!verify_inclusion(&computed_root, &bad, &leaves[target as usize]));
}

#[test]
fn canopy_resizes_to_fit_a_far_sector() {
    // a single segment far into the spool: the layers grow to its sector,
    // the gap seeded with the empty sector's node, and the rebuilt root
    // matches a tree holding just that leaf
    let mut store = SpoolStore::new();
    let miner_address = addr(4);
    let spool_address = addr(5);
    let table = packx::build_one_bump(&miner_address, 0);

    let segment_id = 2100u64;
    let packed = create_segment_data(3, &table);
    let mut raw = [0u8; 145];
    raw.copy_from_slice(&packed);
    store.put_segment(&spool_address, segment_id, &raw);
    update_merkle_canopy_for_sector(&mut store, &miner_address, &spool_address, 2).unwrap();

    let unpacked = store
        .get_merkle_cache(&MerkleCacheKey::UnpackedSpoolLayer { address: spool_address, layer: 10 })
        .unwrap();
    assert_eq!(unpacked.len(), 3);

    let mut spool_tree = MerkleTree::new(&spool_address, SEGMENT_TREE_HEIGHT);
    let mut leaves: Vec<[u8; 32]> = Vec::new();
    let solution = packx::Solution::from_bytes(&raw);
    let data_unpacked = solution.unpack(&miner_address);
    let empty = get_or_create_empty_hashes(&mut store, &spool_address)[0];
    for i in 0..segment_id {
        spool_tree.try_add_leaf(&empty).unwrap();
        leaves.push(empty);
    }
    let leaf = make_leaf(segment_id, &data_unpacked);
    spool_tree.try_add_leaf(&leaf).unwrap();
    leaves.push(leaf);

    let computed_root = get_spool_root(&mut store, &spool_address).unwrap();
    assert_eq!(computed_root, spool_tree.get_root());
}

#[test]
fn spool_root_needs_a_canopy() {
    let mut store = SpoolStore::new();
    let spool_address = addr(3);
    assert!(get_spool_root(&mut store, &spool_address).is_err());
}
