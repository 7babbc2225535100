//! The ingestion kernels: deciding what to sync, walking a spool's
//! mutation history backward, and assembling spool data from the store.
//!
//! Network I/O — subscribing to blocks, fetching accounts — is the
//! embedding's; these functions carry the decisions.

use vstd::prelude::*;
use crate::consts::{SECTOR_LEAVES, SEGMENT_SIZE, MAX_SEGMENTS_PER_SPOOL};
use crate::error::SpoolError;
use crate::packing::{packx_unpack, unpack_of};
use crate::spool_ops::spec_padded;
use crate::store::SpoolStore;

verus! {

/// One segment write extracted from a ledger block.
pub struct SegmentWrite {
    /// The spool the write belongs to.
    pub address: [u8; 32],
    /// The written segment's number.
    pub segment_number: u64,
    /// The spool's tail slot before the write: the backward link.
    pub prev_slot: u64,
    /// The raw segment bytes.
    pub data: Vec<u8>,
}

/// What one ledger block contributes to the archive.
pub struct ProcessedBlock {
    /// The block's slot.
    pub slot: u64,
    /// Segment writes found in the block.
    pub segment_writes: Vec<SegmentWrite>,
    /// Spools finalized in the block, as address and number.
    pub finalized_spools: Vec<([u8; 32], u64)>,
}

/// Whether more segments must be fetched for a spool.
pub fn sync_needed(store: &SpoolStore, spool_address: &[u8; 32], total_segments: u64) -> (r: bool)
    ensures
        r == (store.segments@.filter(
            |e: ([u8; 32], u64, [u8; 145])| e.0@ == spool_address@,
        ).len() < total_segments),
{
    let current_count = store.get_segment_count(spool_address);
    (current_count as u64) < total_segments
}

/// Whether a vector of slots holds one.
fn contains_slot(v: &Vec<u64>, x: u64) -> (r: bool)
    ensures
        r == v@.contains(x),
{
    let n = v.len();
    let mut i: usize = 0;
    while i < n
        invariant
            i <= n,
            n == v@.len(),
            forall|j: int| 0 <= j < i ==> v@[j] != x,
        decreases n - i,
    {
        if v[i] == x {
            proof {
                assert(v@.contains(x));
            }
            return true;
        }
        i = i + 1;
    }
    proof {
        assert(!v@.contains(x));
    }
    false
}

/// The manual-resync traversal: a stack of slots to visit and the set of
/// slots already visited, walking `prev_slot` links backward.
pub struct ResyncState {
    /// Slots already processed.
    pub visited: Vec<u64>,
    /// Slots waiting to be processed.
    pub stack: Vec<u64>,
}

impl ResyncState {
    /// Starts a traversal from one slot.
    pub fn new(starting_slot: u64) -> (r: ResyncState)
        ensures
            r.visited@.len() == 0,
            r.stack@ == seq![starting_slot],
    {
        let mut stack: Vec<u64> = Vec::new();
        stack.push(starting_slot);
        proof {
            assert(stack@ =~= seq![starting_slot]);
        }
        ResyncState { visited: Vec::new(), stack }
    }

    /// Pops the next unvisited slot, marking it visited; drains visited
    /// slots silently. Returns nothing when the stack is exhausted.
    pub fn next_slot(&mut self) -> (r: Option<u64>)
        ensures
            match r {
                Some(s) => old(self).stack@.contains(s) && !old(self).visited@.contains(s)
                    && final(self).visited@ == old(self).visited@.push(s),
                None => final(self).visited@ == old(self).visited@ && final(self).stack@.len()
                    == 0,
            },
    {
        loop
            invariant
                self.visited@ == old(self).visited@,
                forall|j: int|
                    0 <= j < self.stack@.len() ==> old(self).stack@.contains(
                        #[trigger] self.stack@[j],
                    ),
            decreases self.stack@.len(),
        {
            let top = self.stack.pop();
            match top {
                Some(s) => {
                    proof {
                        assert(old(self).stack@.contains(s));
                    }
                    if !contains_slot(&self.visited, s) {
                        self.visited.push(s);
                        return Some(s);
                    }
                },
                None => {
                    return None;
                },
            }
        }
    }

    /// Queues a parent slot found behind a backward link. A zero link is
    /// the chain's end; a link pointing forward of its own slot is
    /// rejected.
    pub fn push_parent(&mut self, current_slot: u64, prev_slot: u64) -> (r: bool)
        ensures
            r == (prev_slot <= current_slot),
            prev_slot == 0 ==> *final(self) == *old(self),
            (0 < prev_slot <= current_slot) ==> final(self).stack@ == old(self).stack@.push(
                prev_slot,
            ) && final(self).visited@ == old(self).visited@,
            prev_slot > current_slot ==> *final(self) == *old(self),
    {
        if prev_slot == 0 {
            return true;
        }
        if prev_slot > current_slot {
            return false;
        }
        self.stack.push(prev_slot);
        true
    }
}

/// Whether one of the block's writes targets the given segment of the
/// given spool.
pub open spec fn spec_block_writes_seg(block: ProcessedBlock, spool: Seq<u8>, m: u64) -> bool {
    exists|i: int|
        0 <= i < block.segment_writes@.len() && (#[trigger] block.segment_writes@[i]).address@
            == spool && block.segment_writes@[i].segment_number == m
}

/// The prefix form, for writes already processed.
pub open spec fn spec_prefix_writes_seg(
    block: ProcessedBlock,
    spool: Seq<u8>,
    m: u64,
    w: int,
) -> bool {
    exists|i: int|
        0 <= i < w && i < block.segment_writes@.len() && (
        #[trigger] block.segment_writes@[i]).address@ == spool
            && block.segment_writes@[i].segment_number == m
}

/// Whether one of the block's finalizations carries the given number.
pub open spec fn spec_block_finalizes_num(block: ProcessedBlock, n: u64) -> bool {
    exists|i: int|
        0 <= i < block.finalized_spools@.len() && (#[trigger] block.finalized_spools@[i]).1 == n
}

/// The prefix form, for finalizations already processed.
pub open spec fn spec_prefix_finalizes_num(block: ProcessedBlock, n: u64, f: int) -> bool {
    exists|i: int|
        0 <= i < f && i < block.finalized_spools@.len() && (
        #[trigger] block.finalized_spools@[i]).1 == n
}

/// Folds one processed block into the archive: every finalized spool lands
/// in the mapping, every in-range segment write for the target spool has
/// its backward link queued on the traversal, and each such write whose
/// packing search succeeds is packed into the store, the canopies resized
/// to fit its sector. Writes for other spools and writes out of range are
/// left untouched.
pub fn ingest_block(
    store: &mut crate::store::SpoolStore,
    state: &mut ResyncState,
    mem: &packx::SolverMemory,
    miner_address: &[u8; 32],
    spool_address: &[u8; 32],
    block: &ProcessedBlock,
    packing_difficulty: u32,
) -> (r: u64)
    requires
        old(store).wf(),
        crate::canopy::zeros_cache_ok(*old(store)),
        crate::canopy::canopy_ok(*old(store), miner_address@, *spool_address),
        crate::canopy::packed_canopy_ok(*old(store), *spool_address),
        crate::packing::memory_key(*mem) == miner_address@,
    ensures
        final(store).wf(),
        crate::canopy::zeros_cache_ok(*final(store)),
        crate::canopy::canopy_ok(*final(store), miner_address@, *spool_address),
        crate::canopy::packed_canopy_ok(*final(store), *spool_address),
        r <= block.segment_writes@.len(),
        // numbers the block does not finalize keep their mapping
        forall|n: u64|
            !spec_block_finalizes_num(*block, n) ==> #[trigger] final(store).spec_addr_of(n)
                == old(store).spec_addr_of(n),
        // with distinct numbers, every finalized spool is retrievable
        (forall|i: int, j: int|
            0 <= i < j < block.finalized_spools@.len() ==> (
            #[trigger] block.finalized_spools@[i]).1 != (
            #[trigger] block.finalized_spools@[j]).1) ==> forall|i: int|
            0 <= i < block.finalized_spools@.len() ==> #[trigger] final(store).spec_addr_of(
                block.finalized_spools@[i].1,
            ) == Some(block.finalized_spools@[i].0),
        // segments the block does not write keep their stored bytes
        forall|a: Seq<u8>, m: u64|
            !(a == spool_address@ && spec_block_writes_seg(*block, spool_address@, m))
                ==> #[trigger] final(store).spec_seg_of(a, m) == old(store).spec_seg_of(a, m),
        // an in-range write for the target spool whose search succeeds, and
        // which no later write overwrites, ends up stored
        forall|i: int|
            (0 <= i < block.segment_writes@.len() && (
            #[trigger] block.segment_writes@[i]).address@ == spool_address@
                && block.segment_writes@[i].segment_number < 262144
                && block.segment_writes@[i].data@.len() <= SEGMENT_SIZE
                && crate::packing::pack_search(
                miner_address@,
                spec_padded(block.segment_writes@[i].data@),
                packing_difficulty,
            ) is Some && (forall|j: int|
                i < j < block.segment_writes@.len() && (
                #[trigger] block.segment_writes@[j]).address@ == spool_address@
                    ==> block.segment_writes@[j].segment_number
                    != block.segment_writes@[i].segment_number)) ==> match final(store).spec_seg_of(
                spool_address@,
                block.segment_writes@[i].segment_number,
            ) {
                Some(p) => p@ == crate::packing::pack_search(
                    miner_address@,
                    spec_padded(block.segment_writes@[i].data@),
                    packing_difficulty,
                ).unwrap(),
                None => false,
            },
        // the traversal's visited set is untouched, nothing queued is
        // dropped, and every in-range target write's backward link is
        // queued
        final(state).visited@ == old(state).visited@,
        forall|t: u64| old(state).stack@.contains(t) ==> final(state).stack@.contains(t),
        forall|i: int|
            (0 <= i < block.segment_writes@.len() && (
            #[trigger] block.segment_writes@[i]).address@ == spool_address@
                && block.segment_writes@[i].segment_number < 262144
                && block.segment_writes@[i].data@.len() <= SEGMENT_SIZE
                && 0 < block.segment_writes@[i].prev_slot <= block.slot)
                ==> final(state).stack@.contains(block.segment_writes@[i].prev_slot),
{
    let ghost distinct_nums = forall|i: int, j: int|
        0 <= i < j < block.finalized_spools@.len() ==> (
        #[trigger] block.finalized_spools@[i]).1 != (#[trigger] block.finalized_spools@[j]).1;
    let mut f: usize = 0;
    let fn_count = block.finalized_spools.len();
    while f < fn_count
        invariant
            f <= fn_count,
            fn_count == block.finalized_spools@.len(),
            store.wf(),
            crate::canopy::zeros_cache_ok(*store),
            crate::canopy::canopy_ok(*store, miner_address@, *spool_address),
            crate::canopy::packed_canopy_ok(*store, *spool_address),
            crate::packing::memory_key(*mem) == miner_address@,
            store.segments@ == old(store).segments@,
            store.caches@ == old(store).caches@,
            distinct_nums == (forall|i: int, j: int|
                0 <= i < j < block.finalized_spools@.len() ==> (
                #[trigger] block.finalized_spools@[i]).1 != (
                #[trigger] block.finalized_spools@[j]).1),
            forall|n: u64|
                !spec_prefix_finalizes_num(*block, n, f as int) ==> #[trigger] store.spec_addr_of(
                    n,
                ) == old(store).spec_addr_of(n),
            distinct_nums ==> forall|i: int|
                0 <= i < f ==> #[trigger] store.spec_addr_of(block.finalized_spools@[i].1) == Some(
                    block.finalized_spools@[i].0,
                ),
        decreases fn_count - f,
    {
        let ghost store_pre = *store;
        let entry = &block.finalized_spools[f];
        let number = entry.1;
        let a = entry.0;
        store.put_spool_address(number, &a);
        proof {
            lemma_caches_only_invariants(store_pre, *store, miner_address@, *spool_address);
            assert forall|n: u64|
                !spec_prefix_finalizes_num(*block, n, f as int + 1) implies #[trigger] store
                .spec_addr_of(n) == old(store).spec_addr_of(n) by {
                assert(n != number);
                assert(!spec_prefix_finalizes_num(*block, n, f as int));
            }
            if distinct_nums {
                assert forall|i: int| 0 <= i < f + 1 implies #[trigger] store.spec_addr_of(
                    block.finalized_spools@[i].1,
                ) == Some(block.finalized_spools@[i].0) by {
                    if i < f {
                        assert(block.finalized_spools@[i].1 != number);
                        assert(store.spec_addr_of(block.finalized_spools@[i].1)
                            == store_pre.spec_addr_of(block.finalized_spools@[i].1));
                    }
                }
            }
        }
        f = f + 1;
    }
    let ghost store_mapped = *store;
    let mut packed: u64 = 0;
    let mut w: usize = 0;
    let wr_count = block.segment_writes.len();
    while w < wr_count
        invariant
            w <= wr_count,
            wr_count == block.segment_writes@.len(),
            packed <= w,
            store.wf(),
            crate::canopy::zeros_cache_ok(*store),
            crate::canopy::canopy_ok(*store, miner_address@, *spool_address),
            crate::canopy::packed_canopy_ok(*store, *spool_address),
            crate::packing::memory_key(*mem) == miner_address@,
            store.pairs@ == store_mapped.pairs@,
            store_mapped.segments@ == old(store).segments@,
            state.visited@ == old(state).visited@,
            forall|t: u64| old(state).stack@.contains(t) ==> #[trigger] state.stack@.contains(t),
            forall|i: int|
                (0 <= i < w && (#[trigger] block.segment_writes@[i]).address@ == spool_address@
                    && block.segment_writes@[i].segment_number < 262144
                    && block.segment_writes@[i].data@.len() <= SEGMENT_SIZE && 0
                    < block.segment_writes@[i].prev_slot <= block.slot) ==> state.stack@.contains(
                    block.segment_writes@[i].prev_slot,
                ),
            forall|a: Seq<u8>, m: u64|
                !(a == spool_address@ && spec_prefix_writes_seg(
                    *block,
                    spool_address@,
                    m,
                    w as int,
                )) ==> #[trigger] store.spec_seg_of(a, m) == old(store).spec_seg_of(a, m),
            forall|i: int|
                (0 <= i < w && (#[trigger] block.segment_writes@[i]).address@ == spool_address@
                    && block.segment_writes@[i].segment_number < 262144
                    && block.segment_writes@[i].data@.len() <= SEGMENT_SIZE
                    && crate::packing::pack_search(
                    miner_address@,
                    spec_padded(block.segment_writes@[i].data@),
                    packing_difficulty,
                ) is Some && (forall|j: int|
                    i < j < block.segment_writes@.len() && (
                    #[trigger] block.segment_writes@[j]).address@ == spool_address@
                        ==> block.segment_writes@[j].segment_number
                        != block.segment_writes@[i].segment_number)) ==> match store.spec_seg_of(
                    spool_address@,
                    block.segment_writes@[i].segment_number,
                ) {
                    Some(p) => p@ == crate::packing::pack_search(
                        miner_address@,
                        spec_padded(block.segment_writes@[i].data@),
                        packing_difficulty,
                    ).unwrap(),
                    None => false,
                },
        decreases wr_count - w,
    {
        let ghost store_w = *store;
        let ghost state_w = *state;
        let write = &block.segment_writes[w];
        let in_target = crate::bytesutil::eq_bytes32(&write.address, spool_address);
        let in_range = write.segment_number < 262144 && write.data.len() <= SEGMENT_SIZE;
        if in_target && in_range {
            // the backward link is queued whether or not the search below
            // succeeds: a later sweep must still reach the spool's history
            let queued = state.push_parent(block.slot, write.prev_slot);
            let res = crate::packer::pack_segment(
                store,
                mem,
                miner_address,
                spool_address,
                write.data.as_slice(),
                write.segment_number,
                packing_difficulty,
            );
            if res.is_ok() {
                packed = packed + 1;
            }
        }
        proof {
            // one step either leaves the stack alone or pushes one link:
            // nothing queued is dropped
            assert(state.stack@ == state_w.stack@ || state.stack@ == state_w.stack@.push(
                block.segment_writes@[w as int].prev_slot,
            ));
            assert forall|t: u64| old(state).stack@.contains(t) implies #[trigger] state
                .stack@.contains(t) by {
                assert(state_w.stack@.contains(t));
                let j = choose|j: int| 0 <= j < state_w.stack@.len() && state_w.stack@[j] == t;
                assert(state.stack@[j] == t);
            }
            assert forall|i: int|
                (0 <= i < w + 1 && (#[trigger] block.segment_writes@[i]).address@
                    == spool_address@ && block.segment_writes@[i].segment_number < 262144
                    && block.segment_writes@[i].data@.len() <= SEGMENT_SIZE && 0
                    < block.segment_writes@[i].prev_slot <= block.slot) implies state
                .stack@.contains(block.segment_writes@[i].prev_slot) by {
                let t = block.segment_writes@[i].prev_slot;
                if i < w {
                    assert(state_w.stack@.contains(t));
                    let j = choose|j: int|
                        0 <= j < state_w.stack@.len() && state_w.stack@[j] == t;
                    assert(state.stack@[j] == t);
                } else {
                    assert(state.stack@ == state_w.stack@.push(t));
                    assert(state.stack@.last() == t);
                }
            }
        }
        proof {
            // the processed prefix grows by one write
            assert forall|a: Seq<u8>, m: u64|
                !(a == spool_address@ && spec_prefix_writes_seg(
                    *block,
                    spool_address@,
                    m,
                    w as int + 1,
                )) implies #[trigger] store.spec_seg_of(a, m) == old(store).spec_seg_of(a, m) by {
                if a == spool_address@ {
                    if spec_prefix_writes_seg(*block, spool_address@, m, w as int) {
                        let i = choose|i: int|
                            0 <= i < w && i < block.segment_writes@.len() && (
                            #[trigger] block.segment_writes@[i]).address@ == spool_address@
                                && block.segment_writes@[i].segment_number == m;
                        assert(spec_prefix_writes_seg(*block, spool_address@, m, w as int + 1));
                    }
                    assert(!spec_prefix_writes_seg(*block, spool_address@, m, w as int));
                }
                if a == spool_address@ && m == write.segment_number && write.address@
                    == spool_address@ {
                    // this write would be in the grown prefix
                    assert(spec_prefix_writes_seg(*block, spool_address@, m, w as int + 1));
                } else {
                    assert(store.spec_seg_of(a, m) == store_w.spec_seg_of(a, m));
                }
            }
        }
        w = w + 1;
    }
    proof {
        assert forall|a: Seq<u8>, m: u64|
            !(a == spool_address@ && spec_block_writes_seg(*block, spool_address@, m)) implies
            #[trigger] store.spec_seg_of(a, m) == old(store).spec_seg_of(a, m) by {
            if a == spool_address@ && spec_prefix_writes_seg(
                *block,
                spool_address@,
                m,
                wr_count as int,
            ) {
                let i = choose|i: int|
                    0 <= i < wr_count && i < block.segment_writes@.len() && (
                    #[trigger] block.segment_writes@[i]).address@ == spool_address@
                        && block.segment_writes@[i].segment_number == m;
                assert(spec_block_writes_seg(*block, spool_address@, m));
            }
        }
        assert forall|n: u64| !spec_block_finalizes_num(*block, n) implies #[trigger] store
            .spec_addr_of(n) == old(store).spec_addr_of(n) by {
            if spec_prefix_finalizes_num(*block, n, fn_count as int) {
                let i = choose|i: int|
                    0 <= i < fn_count && i < block.finalized_spools@.len() && (
                    #[trigger] block.finalized_spools@[i]).1 == n;
                assert(spec_block_finalizes_num(*block, n));
            }
            assert(store_mapped.spec_addr_of(n) == old(store).spec_addr_of(n));
            assert(store.spec_addr_of(n) == store_mapped.spec_addr_of(n));
        }
        if distinct_nums {
            assert forall|i: int| 0 <= i < block.finalized_spools@.len() implies #[trigger] store
                .spec_addr_of(block.finalized_spools@[i].1) == Some(
                block.finalized_spools@[i].0,
            ) by {
                assert(store_mapped.spec_addr_of(block.finalized_spools@[i].1) == Some(
                    block.finalized_spools@[i].0,
                ));
                assert(store.spec_addr_of(block.finalized_spools@[i].1)
                    == store_mapped.spec_addr_of(block.finalized_spools@[i].1));
            }
        }
    }
    packed
}

/// The canopy invariants read nothing from the spool mapping: a mapping
/// write leaves them standing.
proof fn lemma_caches_only_invariants(
    st1: crate::store::SpoolStore,
    st2: crate::store::SpoolStore,
    miner: Seq<u8>,
    addr: [u8; 32],
)
    requires
        st1.wf(),
        crate::canopy::zeros_cache_ok(st1),
        crate::canopy::canopy_ok(st1, miner, addr),
        crate::canopy::packed_canopy_ok(st1, addr),
        st2.segments@ == st1.segments@,
        st2.caches@ == st1.caches@,
    ensures
        crate::canopy::zeros_cache_ok(st2),
        crate::canopy::canopy_ok(st2, miner, addr),
        crate::canopy::packed_canopy_ok(st2, addr),
{
    assert(forall|k: crate::store::MerkleCacheKey|
        #[trigger] st2.spec_cache_of(k) == st1.spec_cache_of(k));
    assert(forall|a: Seq<u8>, m: u64| #[trigger] st2.spec_seg_of(a, m) == st1.spec_seg_of(a, m));
    assert(crate::canopy::store_leaves(st2, miner, addr@) =~= crate::canopy::store_leaves(
        st1,
        miner,
        addr@,
    ));
    assert(crate::canopy::store_packed_leaves(st2, addr@) =~= crate::canopy::store_packed_leaves(
        st1,
        addr@,
    ));
}

/// Assembles a spool's bytes from the store: each present segment is
/// unpacked under the miner's key, each missing one reads as zeros and is
/// reported.
pub fn read_spool_data(
    store: &SpoolStore,
    miner_address: &[u8; 32],
    spool_address: &[u8; 32],
    total_segments: u64,
) -> (r: (Vec<u8>, Vec<u64>))
    requires
        total_segments <= MAX_SEGMENTS_PER_SPOOL,
    ensures
        r.0@.len() == total_segments * SEGMENT_SIZE,
        forall|k: u64|
            k < total_segments ==> #[trigger] r.0@.subrange(
                k * SEGMENT_SIZE as int,
                (k + 1) * SEGMENT_SIZE as int,
            ) == match store.spec_seg_of(spool_address@, k) {
                Some(p) => unpack_of(miner_address@, p@),
                None => spec_padded(Seq::<u8>::empty()),
            },
        forall|k: u64|
            k < total_segments ==> (#[trigger] r.1@.contains(k) <==> store.spec_seg_of(
                spool_address@,
                k,
            ) is None),
        forall|j: int| 0 <= j < r.1@.len() ==> r.1@[j] < total_segments,
{
    let mut data: Vec<u8> = Vec::new();
    let mut missing: Vec<u64> = Vec::new();
    let mut k: u64 = 0;
    while k < total_segments
        invariant
            k <= total_segments,
            total_segments <= MAX_SEGMENTS_PER_SPOOL,
            data@.len() == k * SEGMENT_SIZE,
            forall|m: u64|
                m < k ==> #[trigger] data@.subrange(
                    m * SEGMENT_SIZE as int,
                    (m + 1) * SEGMENT_SIZE as int,
                ) == match store.spec_seg_of(spool_address@, m) {
                    Some(p) => unpack_of(miner_address@, p@),
                    None => spec_padded(Seq::<u8>::empty()),
                },
            forall|m: u64|
                m < k ==> (#[trigger] missing@.contains(m) <==> store.spec_seg_of(
                    spool_address@,
                    m,
                ) is None),
            forall|j: int| 0 <= j < missing@.len() ==> missing@[j] < k,
        decreases total_segments - k,
    {
        let ghost data_pre = data@;
        let ghost missing_pre = missing@;
        proof {
            if missing_pre.contains(k) {
                let j = choose|j: int| 0 <= j < missing_pre.len() && missing_pre[j] == k;
                assert(missing_pre[j] < k);
            }
        }
        let segment: [u8; 128] = match store.get_segment(spool_address, k) {
            Ok(packed) => packx_unpack(miner_address, &packed),
            Err(u) => {
                missing.push(k);
                let z = [0u8; 128];
                proof {
                    assert(z@ =~= spec_padded(Seq::<u8>::empty()));
                }
                z
            },
        };
        let mut t: usize = 0;
        while t < SEGMENT_SIZE
            invariant
                t <= SEGMENT_SIZE,
                segment@.len() == SEGMENT_SIZE,
                data@.len() == data_pre.len() + t,
                data@ == data_pre + segment@.subrange(0, t as int),
            decreases SEGMENT_SIZE - t,
        {
            let b = segment[t];
            data.push(b);
            proof {
                assert(data@ =~= data_pre + segment@.subrange(0, t as int + 1));
            }
            t = t + 1;
        }
        proof {
            assert(segment@.subrange(0, SEGMENT_SIZE as int) =~= segment@);
            assert(data@ == data_pre + segment@);
            assert forall|m: u64|
                m < k + 1 implies #[trigger] data@.subrange(
                m * SEGMENT_SIZE as int,
                (m + 1) * SEGMENT_SIZE as int,
            ) == match store.spec_seg_of(spool_address@, m) {
                Some(p) => unpack_of(miner_address@, p@),
                None => spec_padded(Seq::<u8>::empty()),
            } by {
                if m < k {
                    assert(data@.subrange(m * SEGMENT_SIZE as int, (m + 1) * SEGMENT_SIZE as int)
                        =~= data_pre.subrange(
                        m * SEGMENT_SIZE as int,
                        (m + 1) * SEGMENT_SIZE as int,
                    ));
                } else {
                    assert(data@.subrange(m * SEGMENT_SIZE as int, (m + 1) * SEGMENT_SIZE as int)
                        =~= segment@);
                }
            }
            assert forall|m: u64|
                m < k + 1 implies (#[trigger] missing@.contains(m) <==> store.spec_seg_of(
                spool_address@,
                m,
            ) is None) by {
                if missing@ == missing_pre {
                    if m == k {
                        assert(!missing@.contains(k));
                    }
                } else {
                    assert(missing@ == missing_pre.push(k));
                    if missing@.contains(m) {
                        let j = choose|j: int| 0 <= j < missing@.len() && missing@[j] == m;
                        if j < missing_pre.len() {
                            assert(missing_pre.contains(m));
                        } else {
                            assert(m == k);
                        }
                    }
                    if m == k {
                        assert(missing@[missing_pre.len() as int] == k);
                        assert(missing@.contains(k));
                    } else if missing_pre.contains(m) {
                        let j = choose|j: int|
                            0 <= j < missing_pre.len() && missing_pre[j] == m;
                        assert(missing@[j] == m);
                        assert(missing@.contains(m));
                    }
                }
            }
        }
        k = k + 1;
    }
    (data, missing)
}

} // verus!
