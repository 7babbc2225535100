//! Tests of the event codecs: bit-exact layouts and round trips.

use spool::events::{FinalizeEvent, UpdateEvent, WriteEvent};

fn addr(tag: u8) -> [u8; 32] {
    let mut a = [0u8; 32];
    a[0] = tag;
    a[31] = 0xEE;
    a
}

#[test]
fn write_event_round_trip() {
    let e = WriteEvent { prev_slot: 17, num_added: 3, num_total: 8, address: addr(1) };
    let bytes = e.to_bytes();
    assert_eq!(bytes.len(), 56);
    assert_eq!(&bytes[0..8], &17u64.to_le_bytes());
    assert_eq!(&bytes[8..16], &3u64.to_le_bytes());
    assert_eq!(&bytes[16..24], &8u64.to_le_bytes());
    assert_eq!(&bytes[24..56], &addr(1));
    let back = WriteEvent::from_bytes(&bytes).unwrap();
    assert_eq!(back.prev_slot, 17);
    assert_eq!(back.num_added, 3);
    assert_eq!(back.num_total, 8);
    assert_eq!(back.address, addr(1));
    assert!(WriteEvent::from_bytes(&bytes[..55]).is_none());
}

#[test]
fn update_event_round_trip() {
    let e = UpdateEvent { prev_slot: 9, segment_number: 4, address: addr(2) };
    let bytes = e.to_bytes();
    assert_eq!(bytes.len(), 48);
    let back = UpdateEvent::from_bytes(&bytes).unwrap();
    assert_eq!(back.prev_slot, 9);
    assert_eq!(back.segment_number, 4);
    assert_eq!(back.address, addr(2));
    assert!(UpdateEvent::from_bytes(&[0u8; 47]).is_none());
}

#[test]
fn finalize_event_round_trip() {
    let e = FinalizeEvent { spool: 12, address: addr(3) };
    let bytes = e.to_bytes();
    assert_eq!(bytes.len(), 40);
    let back = FinalizeEvent::from_bytes(&bytes).unwrap();
    assert_eq!(back.spool, 12);
    assert_eq!(back.address, addr(3));
    assert!(FinalizeEvent::from_bytes(&[0u8; 41]).is_none());
}
