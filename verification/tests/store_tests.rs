//! Tests of the segment store: the spool mapping, segments, and cache
//! columns, and the store's error cases.

use spool::error::SpoolError;
use spool::store::{MerkleCacheKey, SpoolStore};

fn addr(tag: u8) -> [u8; 32] {
    let mut a = [0u8; 32];
    a[0] = tag;
    a[31] = tag.wrapping_add(7);
    a
}

#[test]
fn test_put_spool_address() {
    let mut store = SpoolStore::new();
    let spool_number = 1u64;
    let address = addr(42);

    store.put_spool_address(spool_number, &address);
    let retrieved_number = store.get_spool_number(&address).unwrap();
    assert_eq!(retrieved_number, spool_number);
    let retrieved_address = store.get_spool_address(spool_number).unwrap();
    assert_eq!(retrieved_address, address);
}

#[test]
fn put_spool_address_overwrites_number() {
    let mut store = SpoolStore::new();
    store.put_spool_address(5, &addr(1));
    store.put_spool_address(5, &addr(2));
    assert_eq!(store.get_spool_address(5).unwrap(), addr(2));
}

#[test]
fn segment_roundtrip_and_count() {
    let mut store = SpoolStore::new();
    let a = addr(9);
    let b = addr(10);
    let packed1 = [7u8; 145];
    let packed2 = [8u8; 145];
    store.put_segment(&a, 0, &packed1);
    store.put_segment(&a, 3, &packed2);
    store.put_segment(&b, 0, &packed2);
    assert_eq!(store.get_segment(&a, 0).unwrap(), packed1);
    assert_eq!(store.get_segment(&a, 3).unwrap(), packed2);
    assert_eq!(store.get_segment_count(&a), 2);
    assert_eq!(store.get_segment_count(&b), 1);
    // overwrite
    store.put_segment(&a, 0, &packed2);
    assert_eq!(store.get_segment(&a, 0).unwrap(), packed2);
    assert_eq!(store.get_segment_count(&a), 2);
}

#[test]
fn store_error_cases() {
    let store = SpoolStore::new();
    assert_eq!(store.get_spool_address(1).unwrap_err(), SpoolError::SpoolNotFound);
    assert_eq!(
        store.get_spool_number(&addr(1)).unwrap_err(),
        SpoolError::SpoolNotFoundForAddress
    );
    assert_eq!(
        store.get_segment(&addr(1), 0).unwrap_err(),
        SpoolError::SegmentNotFoundForAddress
    );
    let key = MerkleCacheKey::ZeroValues { address: addr(1) };
    assert_eq!(store.get_merkle_cache(&key).unwrap_err(), SpoolError::InvalidSegmentKey);
}

#[test]
fn merkle_cache_roundtrip() {
    let mut store = SpoolStore::new();
    let key = MerkleCacheKey::UnpackedSpoolLayer { address: addr(3), layer: 10 };
    let other = MerkleCacheKey::PackedSpoolLayer { address: addr(3), layer: 10 };
    let value = vec![[1u8; 32], [2u8; 32]];
    store.put_merkle_cache(&key, &value);
    assert_eq!(store.get_merkle_cache(&key).unwrap(), value);
    assert!(store.get_merkle_cache(&other).is_err());
    let value2 = vec![[3u8; 32]];
    store.put_merkle_cache(&key, &value2);
    assert_eq!(store.get_merkle_cache(&key).unwrap(), value2);
}

#[test]
fn error_codes_match_taxonomy() {
    assert_eq!(SpoolError::UnexpectedState.code(), 0x10);
    assert_eq!(SpoolError::WriteFailed.code(), 0x11);
    assert_eq!(SpoolError::SpoolTooLong.code(), 0x12);
    assert_eq!(SpoolError::InsufficientRent.code(), 0x13);
    assert_eq!(SpoolError::SolutionInvalid.code(), 0x20);
    assert_eq!(SpoolError::UnexpectedSpool.code(), 0x21);
    assert_eq!(SpoolError::SolutionTooEasy.code(), 0x22);
    assert_eq!(SpoolError::ClaimTooLarge.code(), 0x24);
    assert_eq!(SpoolError::ReelPackFailed.code(), 0x30);
    assert_eq!(SpoolError::ReelUnpackFailed.code(), 0x31);
    assert_eq!(SpoolError::ReelTooManySpools.code(), 0x32);
    assert_eq!(SpoolError::ReelCommitFailed.code(), 0x33);
}
