//! Tests of the Merkle model against the outside tree implementation: the
//! library's tree must agree bit for bit with the crate the on-ledger
//! program uses.

use spool::consts::SEGMENT_TREE_HEIGHT;
use spool::merkle::{combine_nodes, make_leaf, verify_inclusion, MerkleTree};

fn addr(tag: u8) -> [u8; 32] {
    let mut a = [0u8; 32];
    a[0] = tag;
    a
}

#[test]
fn leaf_hash_matches_outside_tree() {
    let data = b"some segment bytes";
    let ours = make_leaf(7, data);
    let theirs = brine_tree::Leaf::new(&[7u64.to_le_bytes().as_ref(), data.as_ref()]);
    assert_eq!(ours, theirs.to_bytes());
}

#[test]
fn node_hash_matches_outside_tree() {
    let a = [3u8; 32];
    let b = [250u8; 32];
    let ours = combine_nodes(&a, &b);
    let theirs = brine_tree::tree::hash_left_right(a.into(), b.into());
    assert_eq!(ours, theirs.to_bytes());
    // order-normalized: both orders agree
    assert_eq!(combine_nodes(&b, &a), ours);
}

#[test]
fn roots_match_outside_tree() {
    let seed = addr(11);
    let mut ours = MerkleTree::new(&seed, SEGMENT_TREE_HEIGHT);
    let mut theirs: brine_tree::MerkleTree<18> = brine_tree::MerkleTree::new(&[&seed]);
    assert_eq!(ours.get_root(), theirs.get_root().to_bytes());

    for i in 0..5u64 {
        let data = format!("<segment_{i}_data>");
        let leaf = make_leaf(i, data.as_bytes());
        ours.try_add_leaf(&leaf).unwrap();
        theirs.try_add_leaf(brine_tree::Leaf::from(leaf)).unwrap();
        assert_eq!(ours.get_root(), theirs.get_root().to_bytes());
    }
}

#[test]
fn generated_proof_verifies_on_ledger() {
    let seed = addr(12);
    let mut tree = MerkleTree::new(&seed, SEGMENT_TREE_HEIGHT);
    let mut leaves: Vec<[u8; 32]> = Vec::new();
    for i in 0..7u64 {
        let data = format!("payload {i}");
        let leaf = make_leaf(i, data.as_bytes());
        tree.try_add_leaf(&leaf).unwrap();
        leaves.push(leaf);
    }
    let root = tree.get_root();
    for i in 0..7u64 {
        let proof = tree.get_proof(&leaves, i);
        // the library's verifier accepts it
        assert!(verify_inclusion(&root, &proof, &leaves[i as usize]));
        // so does the outside crate's on-ledger verifier
        let proof_bytes: Vec<[u8; 32]> = proof.clone();
        assert!(brine_tree::verify(root, &proof_bytes, leaves[i as usize]));
        // a bit flip in the leaf, the root, or any sibling breaks it
        let mut bad_leaf = leaves[i as usize];
        bad_leaf[0] ^= 1;
        assert!(!verify_inclusion(&root, &proof, &bad_leaf));
        let mut bad_root = root;
        bad_root[31] ^= 0x80;
        assert!(!verify_inclusion(&bad_root, &proof, &leaves[i as usize]));
        let mut bad_proof = proof.clone();
        bad_proof[3][5] ^= 4;
        assert!(!verify_inclusion(&root, &bad_proof, &leaves[i as usize]));
        // a proof for one index does not verify another leaf
        if i > 0 {
            assert!(!verify_inclusion(&root, &proof, &leaves[0]));
        }
    }
}

#[test]
fn replace_leaf_tracks_outside_tree() {
    let seed = addr(13);
    let mut ours = MerkleTree::new(&seed, SEGMENT_TREE_HEIGHT);
    let mut theirs: brine_tree::MerkleTree<18> = brine_tree::MerkleTree::new(&[&seed]);
    let mut leaves: Vec<[u8; 32]> = Vec::new();
    for i in 0..4u64 {
        let leaf = make_leaf(i, format!("v{i}").as_bytes());
        ours.try_add_leaf(&leaf).unwrap();
        theirs.try_add_leaf(brine_tree::Leaf::from(leaf)).unwrap();
        leaves.push(leaf);
    }
    let proof = ours.get_proof(&leaves, 2);
    let new_leaf = make_leaf(2, b"replaced");
    ours.try_replace_leaf(2, &proof, &leaves[2], &new_leaf).unwrap();
    let proof_hashes: Vec<brine_tree::Hash> = proof.iter().map(|p| (*p).into()).collect();
    theirs
        .try_replace_leaf(
            &proof_hashes,
            brine_tree::Leaf::from(leaves[2]),
            brine_tree::Leaf::from(new_leaf),
        )
        .unwrap();
    assert_eq!(ours.get_root(), theirs.get_root().to_bytes());

    // a wrong old leaf is rejected and nothing changes
    let root_before = ours.get_root();
    let wrong_old = make_leaf(2, b"not there");
    assert!(ours.try_replace_leaf(2, &proof, &wrong_old, &new_leaf).is_err());
    assert_eq!(ours.get_root(), root_before);
}
