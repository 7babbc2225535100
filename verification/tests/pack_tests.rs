//! Tests of the packing and proof-of-work wrappers against the outside
//! crates: the round-trip law, verification, and the hash primitives.

use spool::hashing::{hash1, hash2, hash3};
use spool::packing::{
    build_pack_memory, packx_check, packx_difficulty, packx_solve, packx_unpack,
};
use spool::pow::{crankx_difficulty, crankx_verify_segment};
use spool::protocol::{compute_challenge, get_base_rate};
use spool::spool_ops::pad_segment;

fn addr(tag: u8) -> [u8; 32] {
    let mut a = [0u8; 32];
    a[0] = tag;
    a[5] = 0x33;
    a
}

#[test]
fn pack_unpack_round_trip() {
    // packing a padded segment and unpacking it under the same key gives
    // the segment back, at the asked difficulty
    let miner = addr(1);
    let padded = pad_segment(b"round trip payload");
    let mem = build_pack_memory(&miner);
    let solution = packx_solve(&mem, &padded, 1).expect("packing found no solution");
    assert_eq!(packx_unpack(&miner, &solution), padded);
    assert!(packx_difficulty(&solution) >= 1);
    assert!(packx_check(&miner, &padded, &solution, 1));

    // under another key the solution reconstructs something else
    let other = addr(2);
    assert_ne!(packx_unpack(&other, &solution), padded);
    assert!(!packx_check(&other, &padded, &solution, 1));

    // and against other data it fails
    let wrong = pad_segment(b"other payload");
    assert!(!packx_check(&miner, &wrong, &solution, 1));

    // the wrapper agrees with the outside crate
    let sol = packx::Solution::from_bytes(&solution);
    assert_eq!(sol.unpack(&miner), packx_unpack(&miner, &solution));
    assert_eq!(sol.difficulty(), packx_difficulty(&solution));
}

#[test]
fn crankx_wrappers_agree_with_outside_crate() {
    let challenge = addr(3);
    let data = pad_segment(b"proof of work data");
    let mut nonce: u64 = 0;
    let sol = loop {
        if let Ok(s) = crankx::solve(&challenge, &data, &nonce.to_le_bytes()) {
            if s.difficulty() >= 1 {
                break s;
            }
        }
        nonce += 1;
    };
    let bytes = sol.to_bytes();
    let mut digest = [0u8; 16];
    let mut n = [0u8; 8];
    digest.copy_from_slice(&bytes[..16]);
    n.copy_from_slice(&bytes[16..]);

    assert!(crankx_verify_segment(&challenge, &data, &n, &digest));
    assert_eq!(crankx_difficulty(&digest, &n), sol.difficulty());

    // the wrong challenge or data fails
    let other = addr(4);
    assert!(!crankx_verify_segment(&other, &data, &n, &digest));
    let mut flipped = data;
    flipped[0] ^= 1;
    assert!(!crankx_verify_segment(&challenge, &flipped, &n, &digest));
}

#[test]
fn hash_wrappers_are_the_protocol_hash() {
    let a = b"first part";
    let b = b"second part";
    let c = b"third part";
    assert_eq!(hash1(a), brine_tree::hash::hashv(&[a]).to_bytes());
    assert_eq!(hash2(a, b), brine_tree::hash::hashv(&[a, b]).to_bytes());
    assert_eq!(hash3(a, b, c), brine_tree::hash::hashv(&[a, b, c]).to_bytes());
    // concatenation-sensitive: splitting differently changes nothing,
    // different bytes change everything
    assert_eq!(hash2(b"ab", b"c"), hash2(b"a", b"bc"));
    assert_ne!(hash2(b"ab", b"c"), hash2(b"ab", b"d"));

    let x = addr(5);
    let y = addr(6);
    let ch = compute_challenge(&x, &y);
    assert_eq!(ch, brine_tree::hash::hashv(&[&x, &y]).to_bytes());
}

#[test]
fn base_rate_schedule() {
    // year one, one step down, and the decayed tail
    assert_eq!(get_base_rate(0), 10000000000);
    assert_eq!(get_base_rate(8759), 10000000000);
    assert_eq!(get_base_rate(8760), 7500000000);
    assert_eq!(get_base_rate(24 * 8760), 10033913);
    assert_eq!(get_base_rate(25 * 8760), 0);
    assert_eq!(get_base_rate(u64::MAX), 0);
}

#[test]
fn padding_is_exact() {
    let p = pad_segment(b"abc");
    assert_eq!(p.len(), 128);
    assert_eq!(&p[..3], b"abc");
    assert!(p[3..].iter().all(|&b| b == 0));
    let full = [7u8; 128];
    assert_eq!(pad_segment(&full), full);
}
