//! Mutation events and their bit-exact byte layouts.
//!
//! Every mutation that moves a spool's `tail_slot` emits an event carrying
//! the previous tail slot, so an off-ledger follower can walk a spool's
//! mutation history backward. All integers are little-endian.

use vstd::prelude::*;
use vstd::bytes::{spec_u64_to_le_bytes, spec_u64_from_le_bytes, u64_to_le_bytes, u64_from_le_bytes};
use vstd::bytes::lemma_auto_spec_u64_to_from_le_bytes;
use vstd::slice::slice_subrange;

verus! {

/// Emitted by a successful Write.
#[derive(Clone, Copy, Debug)]
pub struct WriteEvent {
    /// The spool's tail slot before this write.
    pub prev_slot: u64,
    /// Segments appended by this write.
    pub num_added: u64,
    /// Total segments after this write.
    pub num_total: u64,
    /// The spool's address.
    pub address: [u8; 32],
}

/// Emitted by a successful Update.
#[derive(Clone, Copy, Debug)]
pub struct UpdateEvent {
    /// The spool's tail slot before this update.
    pub prev_slot: u64,
    /// The replaced segment's number.
    pub segment_number: u64,
    /// The spool's address.
    pub address: [u8; 32],
}

/// Emitted by a successful Finalize.
#[derive(Clone, Copy, Debug)]
pub struct FinalizeEvent {
    /// The spool's assigned archive number.
    pub spool: u64,
    /// The spool's address.
    pub address: [u8; 32],
}

/// The byte layout of a `WriteEvent`:
/// `prev_slot ‖ num_added ‖ num_total ‖ address`, 56 bytes.
pub open spec fn spec_write_event_bytes(e: WriteEvent) -> Seq<u8> {
    spec_u64_to_le_bytes(e.prev_slot) + spec_u64_to_le_bytes(e.num_added) + spec_u64_to_le_bytes(
        e.num_total,
    ) + e.address@
}

/// The byte layout of an `UpdateEvent`:
/// `prev_slot ‖ segment_number ‖ address`, 48 bytes.
pub open spec fn spec_update_event_bytes(e: UpdateEvent) -> Seq<u8> {
    spec_u64_to_le_bytes(e.prev_slot) + spec_u64_to_le_bytes(e.segment_number) + e.address@
}

/// The byte layout of a `FinalizeEvent`: `spool ‖ address`, 40 bytes.
pub open spec fn spec_finalize_event_bytes(e: FinalizeEvent) -> Seq<u8> {
    spec_u64_to_le_bytes(e.spool) + e.address@
}

/// Appends a `u64` in little-endian order.
pub(crate) fn push_u64_le(out: &mut Vec<u8>, x: u64)
    ensures
        final(out)@ == old(out)@ + spec_u64_to_le_bytes(x),
{
    let bytes = u64_to_le_bytes(x);
    let mut i: usize = 0;
    while i < 8
        invariant
            i <= 8,
            bytes@.len() == 8,
            bytes@ == spec_u64_to_le_bytes(x),
            out@ == old(out)@ + bytes@.subrange(0, i as int),
        decreases 8 - i,
    {
        let b = bytes[i];
        out.push(b);
        proof {
            assert(out@ =~= old(out)@ + bytes@.subrange(0, i as int + 1));
        }
        i = i + 1;
    }
    proof {
        assert(bytes@.subrange(0, 8) =~= bytes@);
    }
}

/// Appends 32 bytes.
pub(crate) fn push_bytes32(out: &mut Vec<u8>, a: &[u8; 32])
    ensures
        final(out)@ == old(out)@ + a@,
{
    let mut i: usize = 0;
    while i < 32
        invariant
            i <= 32,
            out@ == old(out)@ + a@.subrange(0, i as int),
        decreases 32 - i,
    {
        let b = a[i];
        out.push(b);
        proof {
            assert(out@ =~= old(out)@ + a@.subrange(0, i as int + 1));
        }
        i = i + 1;
    }
    proof {
        assert(a@.subrange(0, 32) =~= a@);
    }
}

/// Reads the little-endian `u64` at `start`.
pub(crate) fn read_u64_at(bytes: &[u8], start: usize) -> (r: u64)
    requires
        start + 8 <= bytes@.len(),
    ensures
        r == spec_u64_from_le_bytes(bytes@.subrange(start as int, start as int + 8)),
{
    let n = bytes.len();
    let s = slice_subrange(bytes, start, start + 8);
    u64_from_le_bytes(s)
}

/// Reads 32 bytes at `start`.
pub(crate) fn read_bytes32_at(bytes: &[u8], start: usize) -> (r: [u8; 32])
    requires
        start + 32 <= bytes@.len(),
    ensures
        r@ == bytes@.subrange(start as int, start as int + 32),
{
    let n = bytes.len();
    let mut r = [0u8; 32];
    let mut i: usize = 0;
    while i < 32
        invariant
            i <= 32,
            start + 32 <= n,
            n == bytes@.len(),
            r@.len() == 32,
            forall|j: int| 0 <= j < i ==> r@[j] == bytes@[start + j],
        decreases 32 - i,
    {
        r[i] = bytes[start + i];
        i = i + 1;
    }
    proof {
        assert(r@ =~= bytes@.subrange(start as int, start as int + 32));
    }
    r
}

impl WriteEvent {
    /// Serializes the event to its 56-byte layout.
    pub fn to_bytes(&self) -> (r: Vec<u8>)
        ensures
            r@ == spec_write_event_bytes(*self),
    {
        let mut out: Vec<u8> = Vec::new();
        push_u64_le(&mut out, self.prev_slot);
        push_u64_le(&mut out, self.num_added);
        push_u64_le(&mut out, self.num_total);
        push_bytes32(&mut out, &self.address);
        out
    }

    /// Parses an event from its 56-byte layout; fails on any other length.
    pub fn from_bytes(bytes: &[u8]) -> (r: Option<WriteEvent>)
        ensures
            bytes@.len() == 56 ==> (r matches Some(e) && spec_write_event_bytes(e) == bytes@),
            bytes@.len() != 56 ==> r is None,
    {
        if bytes.len() != 56 {
            return None;
        }
        let prev_slot = read_u64_at(bytes, 0);
        let num_added = read_u64_at(bytes, 8);
        let num_total = read_u64_at(bytes, 16);
        let address = read_bytes32_at(bytes, 24);
        let e = WriteEvent { prev_slot, num_added, num_total, address };
        proof {
            lemma_auto_spec_u64_to_from_le_bytes();
            assert(spec_write_event_bytes(e) =~= bytes@);
        }
        Some(e)
    }
}

impl UpdateEvent {
    /// Serializes the event to its 48-byte layout.
    pub fn to_bytes(&self) -> (r: Vec<u8>)
        ensures
            r@ == spec_update_event_bytes(*self),
    {
        let mut out: Vec<u8> = Vec::new();
        push_u64_le(&mut out, self.prev_slot);
        push_u64_le(&mut out, self.segment_number);
        push_bytes32(&mut out, &self.address);
        out
    }

    /// Parses an event from its 48-byte layout; fails on any other length.
    pub fn from_bytes(bytes: &[u8]) -> (r: Option<UpdateEvent>)
        ensures
            bytes@.len() == 48 ==> (r matches Some(e) && spec_update_event_bytes(e) == bytes@),
            bytes@.len() != 48 ==> r is None,
    {
        if bytes.len() != 48 {
            return None;
        }
        let prev_slot = read_u64_at(bytes, 0);
        let segment_number = read_u64_at(bytes, 8);
        let address = read_bytes32_at(bytes, 16);
        let e = UpdateEvent { prev_slot, segment_number, address };
        proof {
            lemma_auto_spec_u64_to_from_le_bytes();
            assert(spec_update_event_bytes(e) =~= bytes@);
        }
        Some(e)
    }
}

impl FinalizeEvent {
    /// Serializes the event to its 40-byte layout.
    pub fn to_bytes(&self) -> (r: Vec<u8>)
        ensures
            r@ == spec_finalize_event_bytes(*self),
    {
        let mut out: Vec<u8> = Vec::new();
        push_u64_le(&mut out, self.spool);
        push_bytes32(&mut out, &self.address);
        out
    }

    /// Parses an event from its 40-byte layout; fails on any other length.
    pub fn from_bytes(bytes: &[u8]) -> (r: Option<FinalizeEvent>)
        ensures
            bytes@.len() == 40 ==> (r matches Some(e) && spec_finalize_event_bytes(e) == bytes@),
            bytes@.len() != 40 ==> r is None,
    {
        if bytes.len() != 40 {
            return None;
        }
        let spool = read_u64_at(bytes, 0);
        let address = read_bytes32_at(bytes, 8);
        let e = FinalizeEvent { spool, address };
        proof {
            lemma_auto_spec_u64_to_from_le_bytes();
            assert(spec_finalize_event_bytes(e) =~= bytes@);
        }
        Some(e)
    }
}

/// Round trip: an encoded `WriteEvent` parses back to itself.
pub proof fn lemma_write_event_round_trip(e: WriteEvent, bytes: Seq<u8>)
    requires
        bytes == spec_write_event_bytes(e),
    ensures
        bytes.len() == 56,
        spec_u64_from_le_bytes(bytes.subrange(0, 8)) == e.prev_slot,
        spec_u64_from_le_bytes(bytes.subrange(8, 16)) == e.num_added,
        spec_u64_from_le_bytes(bytes.subrange(16, 24)) == e.num_total,
        bytes.subrange(24, 56) == e.address@,
{
    lemma_auto_spec_u64_to_from_le_bytes();
    assert(bytes.subrange(0, 8) =~= spec_u64_to_le_bytes(e.prev_slot));
    assert(bytes.subrange(8, 16) =~= spec_u64_to_le_bytes(e.num_added));
    assert(bytes.subrange(16, 24) =~= spec_u64_to_le_bytes(e.num_total));
    assert(bytes.subrange(24, 56) =~= e.address@);
}

} // verus!
