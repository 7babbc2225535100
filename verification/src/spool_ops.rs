//! The spool lifecycle handlers: create, write, update, finalize, set
//! header, subsidize.
//!
//! Account plumbing — signatures, address derivation, rent transfer — is
//! the host ledger's; these functions carry the protocol's state changes
//! and their exact conditions.

use vstd::prelude::*;
use vstd::arithmetic::power2::{pow2, lemma2_to64};
use vstd::arithmetic::div_mod::lemma_fundamental_div_mod;
use vstd::slice::slice_subrange;
use crate::consts::{HEADER_SIZE, MAX_SEGMENTS_PER_SPOOL, NAME_SIZE, SEGMENT_SIZE,
    SEGMENT_PROOF_LEN, SEGMENT_TREE_HEIGHT};
use crate::error::SpoolError;
use crate::events::{FinalizeEvent, UpdateEvent, WriteEvent};
use crate::hashing::blake3_of;
use crate::merkle::{
    is_sibling_path,
    leaf_hash,
    make_leaf,
    path_ok,
    root_of,
    views32,
    MerkleTree,
};
use crate::state::{Archive, Spool, SpoolState, Writer};

verus! {

/// A chunk zero-padded to exactly one segment.
pub open spec fn spec_padded(data: Seq<u8>) -> Seq<u8>
    recommends
        data.len() <= SEGMENT_SIZE,
{
    data + Seq::new((SEGMENT_SIZE - data.len()) as nat, |i: int| 0u8)
}

/// Zero-pads a chunk to exactly one segment.
pub fn pad_segment(data: &[u8]) -> (r: [u8; 128])
    requires
        data@.len() <= 128,
    ensures
        r@ == spec_padded(data@),
{
    let mut r = [0u8; 128];
    let n = data.len();
    let mut i: usize = 0;
    while i < n
        invariant
            i <= n,
            n == data@.len(),
            n <= 128,
            r@.len() == 128,
            forall|j: int| 0 <= j < i ==> r@[j] == data@[j],
            forall|j: int| i <= j < 128 ==> r@[j] == 0u8,
        decreases n - i,
    {
        r[i] = data[i];
        i = i + 1;
    }
    proof {
        assert(r@ =~= spec_padded(data@));
    }
    r
}

/// How many segments a write of `len` bytes becomes.
pub open spec fn spec_chunk_count(len: int) -> int {
    len / SEGMENT_SIZE as int + if len % SEGMENT_SIZE as int == 0 {
        0int
    } else {
        1int
    }
}

/// The `i`-th padded segment of a write.
pub open spec fn spec_chunk(data: Seq<u8>, i: int) -> Seq<u8> {
    spec_padded(
        data.subrange(
            i * SEGMENT_SIZE as int,
            if (i + 1) * SEGMENT_SIZE as int <= data.len() {
                (i + 1) * SEGMENT_SIZE as int
            } else {
                data.len() as int
            },
        ),
    )
}

/// The leaf hashes a write of `data` appends, starting at segment
/// `total0`.
pub open spec fn spec_write_leaves(data: Seq<u8>, total0: u64) -> Seq<Seq<u8>> {
    Seq::new(
        spec_chunk_count(data.len() as int) as nat,
        |i: int| leaf_hash((total0 + i) as u64, spec_chunk(data, i)),
    )
}

/// Creates a spool and its writer under the given address.
pub fn process_spool_create(
    authority: &[u8; 32],
    name: &[u8; 32],
    spool_address: &[u8; 32],
    current_slot: u64,
) -> (r: (Spool, Writer))
    ensures
        r.0.number == 0,
        r.0.authority == *authority,
        r.0.name == *name,
        r.0.state is Created,
        r.0.total_segments == 0,
        r.0.merkle_root@ == Seq::new(32, |i: int| 0u8),
        r.0.header@ == Seq::new(HEADER_SIZE as nat, |i: int| 0u8),
        r.0.first_slot == current_slot,
        r.0.tail_slot == current_slot,
        r.0.balance == 0,
        r.0.last_rent_block == 0,
        r.0.wf(),
        r.1.spool == *spool_address,
        r.1.wf(),
        r.1.state.synced(),
        r.1.state.leaves().len() == 0,
        r.1.state.empty_value() == blake3_of(spool_address@),
{
    let tree = MerkleTree::new(spool_address.as_slice(), SEGMENT_TREE_HEIGHT);
    let root = [0u8; 32];
    let header = [0u8; 64];
    let spool = Spool {
        number: 0,
        authority: *authority,
        name: *name,
        state: SpoolState::Created,
        total_segments: 0,
        merkle_root: root,
        header,
        first_slot: current_slot,
        tail_slot: current_slot,
        balance: 0,
        last_rent_block: 0,
    };
    let writer = Writer { spool: *spool_address, state: tree };
    proof {
        assert(root@ =~= Seq::new(32, |i: int| 0u8));
        assert(header@ =~= Seq::new(HEADER_SIZE as nat, |i: int| 0u8));
    }
    (spool, writer)
}

/// Splits `data` into zero-padded segments and appends each as a leaf of
/// the writer tree.
///
/// Fails with `UnexpectedState` unless the spool is still writable, and
/// with `SpoolTooLong` when the write would exceed the spool's capacity; a
/// failed write changes nothing.
pub fn process_spool_write(
    spool: &mut Spool,
    writer: &mut Writer,
    spool_address: &[u8; 32],
    data: &[u8],
    current_slot: u64,
) -> (r: Result<WriteEvent, SpoolError>)
    requires
        old(spool).wf(),
        old(writer).wf(),
        old(writer).state.synced(),
        old(writer).state.leaves().len() == old(spool).total_segments,
        data@.len() <= 0x100000000,
    ensures
        final(writer).wf(),
        final(spool).wf(),
        r is Err ==> *final(spool) == *old(spool) && final(writer).state.leaves() == old(
            writer,
        ).state.leaves() && final(writer).state.synced(),
        !(old(spool).state is Created || old(spool).state is Writing) <==> r == Err::<
            WriteEvent,
            SpoolError,
        >(SpoolError::UnexpectedState),
        ((old(spool).state is Created || old(spool).state is Writing) && old(spool).total_segments
            + spec_chunk_count(data@.len() as int) > MAX_SEGMENTS_PER_SPOOL) <==> r == Err::<
            WriteEvent,
            SpoolError,
        >(SpoolError::SpoolTooLong),
        ((old(spool).state is Created || old(spool).state is Writing) && old(spool).total_segments
            + spec_chunk_count(data@.len() as int) <= MAX_SEGMENTS_PER_SPOOL) <==> r is Ok,
        r matches Ok(ev) ==> {
            let count = spec_chunk_count(data@.len() as int);
            &&& final(writer).state.leaves() == old(writer).state.leaves() + spec_write_leaves(
                data@,
                old(spool).total_segments,
            )
            &&& final(writer).state.synced()
            &&& final(writer).state.empty_value() == old(writer).state.empty_value()
            &&& final(writer).spool == old(writer).spool
            &&& *final(spool) == (Spool {
                total_segments: (old(spool).total_segments + count) as u64,
                merkle_root: final(spool).merkle_root,
                state: SpoolState::Writing,
                tail_slot: current_slot,
                ..*old(spool)
            })
            &&& final(spool).merkle_root == final(writer).state.root
            &&& final(writer).state.leaves().len() == final(spool).total_segments
            &&& ev == (WriteEvent {
                prev_slot: old(spool).tail_slot,
                num_added: count as u64,
                num_total: (old(spool).total_segments + count) as u64,
                address: *spool_address,
            })
        },
{
    match spool.state {
        SpoolState::Created => (),
        SpoolState::Writing => (),
        SpoolState::Finalized => {
            return Err(SpoolError::UnexpectedState);
        },
    }
    let len = data.len();
    let q = len / SEGMENT_SIZE;
    let rem = len % SEGMENT_SIZE;
    let count: u64 = (q as u64) + (if rem != 0 {
        1u64
    } else {
        0u64
    });
    proof {
        assert(count == spec_chunk_count(data@.len() as int));
    }
    if count > MAX_SEGMENTS_PER_SPOOL || spool.total_segments > MAX_SEGMENTS_PER_SPOOL - count {
        return Err(SpoolError::SpoolTooLong);
    }
    let ghost old_leaves = writer.state.leaves();
    let ghost total0 = spool.total_segments;
    let ghost dv = data@;
    proof {
        lemma2_to64();
        assert(pow2(18) == 262144);
        assert(writer.state.capacity == 262144);
    }
    let mut i: u64 = 0;
    while i < count
        invariant
            i <= count,
            count == spec_chunk_count(dv.len() as int),
            dv == data@,
            dv.len() <= 0x100000000,
            dv.len() == len,
            q == len as int / SEGMENT_SIZE as int,
            rem == len as int % SEGMENT_SIZE as int,
            total0 + count <= MAX_SEGMENTS_PER_SPOOL,
            total0 == spool.total_segments,
            writer.wf(),
            writer.state.synced(),
            writer.state.capacity == 262144,
            writer.state.empty_value() == old(writer).state.empty_value(),
            writer.spool == old(writer).spool,
            writer.state.leaves() == old_leaves + spec_write_leaves(dv, total0).subrange(
                0,
                i as int,
            ),
            old_leaves.len() == total0,
            *spool == *old(spool),
            spool.wf(),
        decreases count - i,
    {
        proof {
            lemma_fundamental_div_mod(len as int, SEGMENT_SIZE as int);
            vstd::arithmetic::div_mod::lemma_mod_bound(len as int, SEGMENT_SIZE as int);
            assert((i as int) * 128 < len || (len == 0 && i == 0 && count == 0)) by (nonlinear_arith)
                requires
                    i < count,
                    count == len as int / 128 + (if len as int % 128 == 0 {
                        0int
                    } else {
                        1int
                    }),
                    len == 128 * (len as int / 128) + len as int % 128,
                    0 <= len as int % 128 < 128,
            ;
        }
        let start = (i as usize) * SEGMENT_SIZE;
        let end = if start + SEGMENT_SIZE <= len {
            start + SEGMENT_SIZE
        } else {
            len
        };
        let chunk = slice_subrange(data, start, end);
        let padded = pad_segment(chunk);
        proof {
            assert(padded@ == spec_chunk(dv, i as int));
        }
        let leaf = make_leaf(spool.total_segments + i, padded.as_slice());
        proof {
            assert(leaf@ == spec_write_leaves(dv, total0)[i as int]);
            assert(writer.state.leaves().len() == total0 + i);
            assert(writer.state.leaves().len() < writer.state.capacity);
        }
        let res = writer.state.try_add_leaf(&leaf);
        if res.is_err() {
            proof {
                assert(false);
            }
            return Err(SpoolError::SpoolTooLong);
        }
        proof {
            assert(writer.state.leaves() =~= old_leaves + spec_write_leaves(dv, total0).subrange(
                0,
                i as int + 1,
            ));
        }
        i = i + 1;
    }
    proof {
        assert(spec_write_leaves(dv, total0).subrange(0, count as int) =~= spec_write_leaves(
            dv,
            total0,
        ));
    }
    let prev_slot = spool.tail_slot;
    spool.total_segments = spool.total_segments + count;
    spool.merkle_root = writer.state.get_root();
    spool.state = SpoolState::Writing;
    spool.tail_slot = current_slot;
    Ok(
        WriteEvent {
            prev_slot,
            num_added: count,
            num_total: spool.total_segments,
            address: *spool_address,
        },
    )
}

/// Replaces one segment of an unfinalized spool, guarded by an inclusion
/// proof for the old contents.
///
/// Fails with `UnexpectedState` unless the spool is still writable, and
/// with `WriteFailed` when the proof does not verify the old leaf against
/// the current root; a failed update changes nothing. When the proof is
/// the tree's true sibling path for the segment, the writer tracks the
/// updated leaf sequence afterwards.
pub fn process_spool_update(
    spool: &mut Spool,
    writer: &mut Writer,
    spool_address: &[u8; 32],
    segment_number: u64,
    old_data: &[u8; 128],
    new_data: &[u8; 128],
    proof_path: &[[u8; 32]; SEGMENT_PROOF_LEN],
    current_slot: u64,
) -> (r: Result<UpdateEvent, SpoolError>)
    requires
        old(spool).wf(),
        old(writer).wf(),
        old(writer).state.synced(),
        old(writer).state.leaves().len() == old(spool).total_segments,
    ensures
        final(spool).wf(),
        final(writer).wf(),
        final(writer).state.empty_value() == old(writer).state.empty_value(),
        final(writer).spool == old(writer).spool,
        r is Err ==> *final(spool) == *old(spool) && final(writer).state.leaves() == old(
            writer,
        ).state.leaves() && final(writer).state.synced(),
        !(old(spool).state is Created || old(spool).state is Writing) <==> r == Err::<
            UpdateEvent,
            SpoolError,
        >(SpoolError::UnexpectedState),
        ((old(spool).state is Created || old(spool).state is Writing) && !(segment_number < old(
            spool,
        ).total_segments && path_ok(
            views32(proof_path@),
            leaf_hash(segment_number, old_data@),
            old(writer).state.root@,
        ))) <==> r == Err::<UpdateEvent, SpoolError>(SpoolError::WriteFailed),
        ((old(spool).state is Created || old(spool).state is Writing) && segment_number < old(
            spool,
        ).total_segments && path_ok(
            views32(proof_path@),
            leaf_hash(segment_number, old_data@),
            old(writer).state.root@,
        )) <==> r is Ok,
        r matches Ok(ev) ==> {
            &&& segment_number < old(spool).total_segments
            &&& *final(spool) == (Spool {
                merkle_root: final(writer).state.root,
                tail_slot: current_slot,
                ..*old(spool)
            })
            &&& final(writer).state.leaves().len() == old(writer).state.leaves().len()
            &&& ev == (UpdateEvent {
                prev_slot: old(spool).tail_slot,
                segment_number,
                address: *spool_address,
            })
        },
        (r is Ok && old(writer).state.synced() && is_sibling_path(
            views32(proof_path@),
            old(writer).state.leaves(),
            old(writer).state.empty_value(),
            segment_number as int,
            SEGMENT_TREE_HEIGHT as nat,
        )) ==> {
            &&& final(writer).state.leaves() == old(writer).state.leaves().update(
                segment_number as int,
                leaf_hash(segment_number, new_data@),
            )
            &&& final(writer).state.synced()
        },
        (old(writer).state.synced() && (old(spool).state is Created || old(
            spool,
        ).state is Writing) && segment_number < old(spool).total_segments && is_sibling_path(
            views32(proof_path@),
            old(writer).state.leaves(),
            old(writer).state.empty_value(),
            segment_number as int,
            SEGMENT_TREE_HEIGHT as nat,
        ) && old(writer).state.leaves()[segment_number as int] == leaf_hash(
            segment_number,
            old_data@,
        )) ==> r is Ok,
{
    match spool.state {
        SpoolState::Created => (),
        SpoolState::Writing => (),
        SpoolState::Finalized => {
            return Err(SpoolError::UnexpectedState);
        },
    }
    let old_leaf = make_leaf(segment_number, old_data.as_slice());
    let new_leaf = make_leaf(segment_number, new_data.as_slice());
    if segment_number >= spool.total_segments {
        return Err(SpoolError::WriteFailed);
    }
    let res = writer.state.try_replace_leaf(
        segment_number,
        proof_path.as_slice(),
        &old_leaf,
        &new_leaf,
    );
    if res.is_err() {
        return Err(SpoolError::WriteFailed);
    }
    let prev_slot = spool.tail_slot;
    spool.merkle_root = writer.state.get_root();
    spool.tail_slot = current_slot;
    Ok(UpdateEvent { prev_slot, segment_number, address: *spool_address })
}

/// Finalizes a written spool: the archive counts it, the spool takes the
/// next archive number and becomes immutable, and its writer is done.
///
/// Fails with `UnexpectedState` unless the spool is in the writing state,
/// and with `InsufficientRent` when the balance is below the finalization
/// rent; a failed finalize changes nothing.
pub fn process_spool_finalize(
    spool: &mut Spool,
    writer: &Writer,
    archive: &mut Archive,
    spool_address: &[u8; 32],
) -> (r: Result<FinalizeEvent, SpoolError>)
    requires
        old(spool).wf(),
        writer.wf(),
    ensures
        final(spool).wf(),
        r is Err ==> *final(spool) == *old(spool) && *final(archive) == *old(archive),
        !(old(spool).state is Writing) <==> r == Err::<FinalizeEvent, SpoolError>(
            SpoolError::UnexpectedState,
        ),
        (old(spool).state is Writing && !old(spool).spec_can_finalize()) <==> r == Err::<
            FinalizeEvent,
            SpoolError,
        >(SpoolError::InsufficientRent),
        (old(spool).state is Writing && old(spool).spec_can_finalize()) <==> r is Ok,
        r matches Ok(ev) ==> {
            &&& *final(archive) == (Archive {
                spools_stored: old(archive).spools_stored.saturating_add(1),
                segments_stored: old(archive).segments_stored.saturating_add(
                    old(spool).total_segments,
                ),
            })
            &&& *final(spool) == (Spool {
                number: final(archive).spools_stored,
                state: SpoolState::Finalized,
                merkle_root: writer.state.root,
                ..*old(spool)
            })
            &&& ev == (FinalizeEvent { spool: final(spool).number, address: *spool_address })
        },
{
    match spool.state {
        SpoolState::Writing => (),
        _ => {
            return Err(SpoolError::UnexpectedState);
        },
    }
    if !spool.can_finalize() {
        return Err(SpoolError::InsufficientRent);
    }
    archive.spools_stored = archive.spools_stored.saturating_add(1);
    archive.segments_stored = archive.segments_stored.saturating_add(spool.total_segments);
    spool.number = archive.spools_stored;
    spool.state = SpoolState::Finalized;
    spool.merkle_root = writer.state.get_root();
    Ok(FinalizeEvent { spool: spool.number, address: *spool_address })
}

/// Sets the spool's header.
///
/// Fails with `UnexpectedState` unless the spool is in the writing state.
pub fn process_spool_set_header(spool: &mut Spool, header: &[u8; 64]) -> (r: Result<
    (),
    SpoolError,
>)
    requires
        old(spool).wf(),
    ensures
        final(spool).wf(),
        old(spool).state is Writing <==> r is Ok,
        !(old(spool).state is Writing) <==> r == Err::<(), SpoolError>(SpoolError::UnexpectedState),
        r is Err ==> *final(spool) == *old(spool),
        r is Ok ==> *final(spool) == (Spool { header: *header, ..*old(spool) }),
{
    match spool.state {
        SpoolState::Writing => (),
        _ => {
            return Err(SpoolError::UnexpectedState);
        },
    }
    spool.header = *header;
    Ok(())
}

/// Credits a rent subsidy to the spool's balance. Anyone may subsidize any
/// spool; the token transfer itself is the ledger's.
pub fn process_spool_subsidize_rent(spool: &mut Spool, amount: u64)
    requires
        old(spool).wf(),
    ensures
        final(spool).wf(),
        *final(spool) == (Spool {
            balance: old(spool).balance.saturating_add(amount),
            ..*old(spool)
        }),
{
    spool.balance = spool.balance.saturating_add(amount);
}

} // verus!
