//! The segment store: the spool-number/address mapping, packed segments,
//! and Merkle canopy caches.
//!
//! The store itself is a plain in-memory structure with exact contracts;
//! persisting it is an embedding concern outside the library. The two
//! directions of the spool mapping are written together, so they cannot
//! drift apart.

use vstd::prelude::*;
use crate::bytesutil::eq_bytes32;
use crate::error::SpoolError;

verus! {

/// A key of the Merkle cache column.
#[derive(Clone, Copy, Debug)]
pub enum MerkleCacheKey {
    /// The zero-frontier of one spool's segment tree.
    ZeroValues {
        /// The spool's address.
        address: [u8; 32],
    },
    /// One layer of sector roots over unpacked (recall) leaves.
    UnpackedSpoolLayer {
        /// The spool's address.
        address: [u8; 32],
        /// The cached layer's height.
        layer: u8,
    },
    /// One layer of sector roots over packed (stored) leaves.
    PackedSpoolLayer {
        /// The spool's address.
        address: [u8; 32],
        /// The cached layer's height.
        layer: u8,
    },
}

/// Key equality as a specification.
pub open spec fn key_eq(a: MerkleCacheKey, b: MerkleCacheKey) -> bool {
    match (a, b) {
        (MerkleCacheKey::ZeroValues { address: x }, MerkleCacheKey::ZeroValues { address: y }) => x@
            == y@,
        (
            MerkleCacheKey::UnpackedSpoolLayer { address: x, layer: lx },
            MerkleCacheKey::UnpackedSpoolLayer { address: y, layer: ly },
        ) => x@ == y@ && lx == ly,
        (
            MerkleCacheKey::PackedSpoolLayer { address: x, layer: lx },
            MerkleCacheKey::PackedSpoolLayer { address: y, layer: ly },
        ) => x@ == y@ && lx == ly,
        _ => false,
    }
}

/// Compares two cache keys.
pub fn cache_key_eq(a: &MerkleCacheKey, b: &MerkleCacheKey) -> (r: bool)
    ensures
        r == key_eq(*a, *b),
{
    match (a, b) {
        (MerkleCacheKey::ZeroValues { address: x }, MerkleCacheKey::ZeroValues { address: y }) => {
            eq_bytes32(x, y)
        },
        (
            MerkleCacheKey::UnpackedSpoolLayer { address: x, layer: lx },
            MerkleCacheKey::UnpackedSpoolLayer { address: y, layer: ly },
        ) => eq_bytes32(x, y) && lx == ly,
        (
            MerkleCacheKey::PackedSpoolLayer { address: x, layer: lx },
            MerkleCacheKey::PackedSpoolLayer { address: y, layer: ly },
        ) => eq_bytes32(x, y) && lx == ly,
        _ => false,
    }
}

/// The first address held under a spool number, scanning from `i`.
pub open spec fn addr_of_from(pairs: Seq<(u64, [u8; 32])>, number: u64, i: int) -> Option<[u8; 32]>
    decreases pairs.len() - i,
{
    if i < 0 || i >= pairs.len() {
        None
    } else if pairs[i].0 == number {
        Some(pairs[i].1)
    } else {
        addr_of_from(pairs, number, i + 1)
    }
}

/// The first number held under a spool address, scanning from `i`.
pub open spec fn num_of_from(pairs: Seq<(u64, [u8; 32])>, address: Seq<u8>, i: int) -> Option<u64>
    decreases pairs.len() - i,
{
    if i < 0 || i >= pairs.len() {
        None
    } else if pairs[i].1@ == address {
        Some(pairs[i].0)
    } else {
        num_of_from(pairs, address, i + 1)
    }
}

/// The first packed segment held under an address and segment number,
/// scanning from `i`.
pub open spec fn seg_of_from(
    segs: Seq<([u8; 32], u64, [u8; 145])>,
    address: Seq<u8>,
    number: u64,
    i: int,
) -> Option<[u8; 145]>
    decreases segs.len() - i,
{
    if i < 0 || i >= segs.len() {
        None
    } else if segs[i].0@ == address && segs[i].1 == number {
        Some(segs[i].2)
    } else {
        seg_of_from(segs, address, number, i + 1)
    }
}

/// The first cache value held under a key, scanning from `i`.
pub open spec fn cache_of_from(
    caches: Seq<(MerkleCacheKey, Vec<[u8; 32]>)>,
    key: MerkleCacheKey,
    i: int,
) -> Option<Seq<[u8; 32]>>
    decreases caches.len() - i,
{
    if i < 0 || i >= caches.len() {
        None
    } else if key_eq(caches[i].0, key) {
        Some(caches[i].1@)
    } else {
        cache_of_from(caches, key, i + 1)
    }
}

/// Copies a vector of 32-byte values.
pub fn copy_hashes(v: &Vec<[u8; 32]>) -> (r: Vec<[u8; 32]>)
    ensures
        r@ == v@,
{
    let n = v.len();
    let mut r: Vec<[u8; 32]> = Vec::new();
    let mut i: usize = 0;
    while i < n
        invariant
            i <= n,
            n == v@.len(),
            r@ == v@.subrange(0, i as int),
        decreases n - i,
    {
        let x = v[i];
        r.push(x);
        proof {
            assert(r@ =~= v@.subrange(0, i as int + 1));
        }
        i = i + 1;
    }
    proof {
        assert(v@.subrange(0, n as int) =~= v@);
    }
    r
}

/// The column-partitioned segment store.
pub struct SpoolStore {
    /// The spool number ↔ address mapping, both directions as one column.
    pub pairs: Vec<(u64, [u8; 32])>,
    /// Packed segments under `(address, segment number)`.
    pub segments: Vec<([u8; 32], u64, [u8; 145])>,
    /// Merkle cache values under typed keys.
    pub caches: Vec<(MerkleCacheKey, Vec<[u8; 32]>)>,
}

impl SpoolStore {
    /// The address stored under a spool number.
    pub open spec fn spec_addr_of(self, number: u64) -> Option<[u8; 32]> {
        addr_of_from(self.pairs@, number, 0)
    }

    /// The number stored under a spool address.
    pub open spec fn spec_num_of(self, address: Seq<u8>) -> Option<u64> {
        num_of_from(self.pairs@, address, 0)
    }

    /// The packed segment stored under an address and segment number.
    pub open spec fn spec_seg_of(self, address: Seq<u8>, number: u64) -> Option<[u8; 145]> {
        seg_of_from(self.segments@, address, number, 0)
    }

    /// The cache value stored under a key.
    pub open spec fn spec_cache_of(self, key: MerkleCacheKey) -> Option<Seq<[u8; 32]>> {
        cache_of_from(self.caches@, key, 0)
    }

    /// The store's invariant: each column's keys are unique.
    pub open spec fn wf(self) -> bool {
        &&& forall|i: int, j: int|
            0 <= i < j < self.pairs@.len() ==> (#[trigger] self.pairs@[i]).0 != (
            #[trigger] self.pairs@[j]).0
        &&& forall|i: int, j: int|
            0 <= i < j < self.segments@.len() ==> !((#[trigger] self.segments@[i]).0@ == (
            #[trigger] self.segments@[j]).0@ && self.segments@[i].1 == self.segments@[j].1)
        &&& forall|i: int, j: int|
            0 <= i < j < self.caches@.len() ==> !key_eq(
                (#[trigger] self.caches@[i]).0,
                (#[trigger] self.caches@[j]).0,
            )
    }

    /// Creates an empty store.
    pub fn new() -> (r: SpoolStore)
        ensures
            r.wf(),
            r.pairs@.len() == 0,
            r.segments@.len() == 0,
            r.caches@.len() == 0,
    {
        SpoolStore { pairs: Vec::new(), segments: Vec::new(), caches: Vec::new() }
    }

    /// Stores both directions of a spool mapping at once. An existing entry
    /// for the number is overwritten.
    pub fn put_spool_address(&mut self, spool_number: u64, address: &[u8; 32])
        requires
            old(self).wf(),
        ensures
            final(self).wf(),
            final(self).segments@ == old(self).segments@,
            final(self).caches@ == old(self).caches@,
            final(self).spec_addr_of(spool_number) == Some(*address),
            forall|m: u64|
                m != spool_number ==> #[trigger] final(self).spec_addr_of(m) == old(
                    self,
                ).spec_addr_of(m),
            (old(self).spec_num_of(address@) is None || old(self).spec_num_of(address@) == Some(
                spool_number,
            )) ==> final(self).spec_num_of(address@) == Some(spool_number),
    {
        let n = self.pairs.len();
        let mut i: usize = 0;
        while i < n
            invariant
                i <= n,
                n == self.pairs@.len(),
                *self == *old(self),
                old(self).wf(),
                forall|j: int| 0 <= j < i ==> (#[trigger] self.pairs@[j]).0 != spool_number,
            decreases n - i,
        {
            if self.pairs[i].0 == spool_number {
                let entry = (spool_number, *address);
                self.pairs.set(i, entry);
                proof {
                    let ghost pp = self.pairs@;
                    assert(forall|j: int|
                        0 <= j < pp.len() && j != i ==> pp[j] == old(self).pairs@[j]);
                    assert forall|a: int, b: int| 0 <= a < b < pp.len() implies (
                    #[trigger] pp[a]).0 != (#[trigger] pp[b]).0 by {
                        if a == i {
                            assert(pp[a] == (spool_number, *address));
                            assert(old(self).pairs@[a].0 == spool_number);
                        } else {
                            assert(pp[a] == old(self).pairs@[a]);
                        }
                        if b == i {
                            assert(pp[b] == (spool_number, *address));
                            assert(old(self).pairs@[b].0 == spool_number);
                        } else {
                            assert(pp[b] == old(self).pairs@[b]);
                        }
                        assert(old(self).pairs@[a].0 != old(self).pairs@[b].0);
                    }
                    lemma_addr_lookup_update(old(self).pairs@, pp, spool_number, *address, i as int);
                    if num_of_from(old(self).pairs@, address@, 0) is None || num_of_from(
                        old(self).pairs@,
                        address@,
                        0,
                    ) == Some(spool_number) {
                        lemma_num_lookup_after(
                            old(self).pairs@,
                            pp,
                            spool_number,
                            *address,
                            i as int,
                        );
                    }
                }
                return ;
            }
            i = i + 1;
        }
        let entry = (spool_number, *address);
        self.pairs.push(entry);
        proof {
            let ghost pp = self.pairs@;
            assert(forall|j: int| 0 <= j < pp.len() - 1 ==> pp[j] == old(self).pairs@[j]);
            assert forall|a: int, b: int| 0 <= a < b < pp.len() implies (#[trigger] pp[a]).0 != (
            #[trigger] pp[b]).0 by {
                if b < pp.len() - 1 {
                    assert(pp[a].0 == old(self).pairs@[a].0);
                    assert(pp[b].0 == old(self).pairs@[b].0);
                } else {
                    assert(pp[a].0 == old(self).pairs@[a].0);
                    assert(pp[b].0 == spool_number);
                }
            }
            lemma_addr_lookup_push(old(self).pairs@, spool_number, *address);
            if num_of_from(old(self).pairs@, address@, 0) is None || num_of_from(
                old(self).pairs@,
                address@,
                0,
            ) == Some(spool_number) {
                lemma_num_lookup_push(old(self).pairs@, spool_number, *address);
            }
        }
    }

    /// Looks a spool number up by address.
    pub fn get_spool_number(&self, address: &[u8; 32]) -> (r: Result<u64, SpoolError>)
        ensures
            match self.spec_num_of(address@) {
                Some(n) => r == Ok::<u64, SpoolError>(n),
                None => r == Err::<u64, SpoolError>(SpoolError::SpoolNotFoundForAddress),
            },
    {
        let n = self.pairs.len();
        let mut i: usize = 0;
        while i < n
            invariant
                i <= n,
                n == self.pairs@.len(),
                self.spec_num_of(address@) == num_of_from(self.pairs@, address@, i as int),
            decreases n - i,
        {
            let p = self.pairs[i];
            if eq_bytes32(&p.1, address) {
                return Ok(p.0);
            }
            i = i + 1;
        }
        Err(SpoolError::SpoolNotFoundForAddress)
    }

    /// Looks a spool address up by number.
    pub fn get_spool_address(&self, spool_number: u64) -> (r: Result<[u8; 32], SpoolError>)
        ensures
            match self.spec_addr_of(spool_number) {
                Some(a) => r == Ok::<[u8; 32], SpoolError>(a),
                None => r == Err::<[u8; 32], SpoolError>(SpoolError::SpoolNotFound),
            },
    {
        let n = self.pairs.len();
        let mut i: usize = 0;
        while i < n
            invariant
                i <= n,
                n == self.pairs@.len(),
                self.spec_addr_of(spool_number) == addr_of_from(
                    self.pairs@,
                    spool_number,
                    i as int,
                ),
            decreases n - i,
        {
            let p = self.pairs[i];
            if p.0 == spool_number {
                return Ok(p.1);
            }
            i = i + 1;
        }
        Err(SpoolError::SpoolNotFound)
    }

    /// Stores a packed segment. An existing entry is overwritten.
    pub fn put_segment(&mut self, address: &[u8; 32], segment_number: u64, packed: &[u8; 145])
        requires
            old(self).wf(),
        ensures
            final(self).wf(),
            final(self).pairs@ == old(self).pairs@,
            final(self).caches@ == old(self).caches@,
            final(self).spec_seg_of(address@, segment_number) == Some(*packed),
            forall|a: Seq<u8>, m: u64|
                !(a == address@ && m == segment_number) ==> #[trigger] final(self).spec_seg_of(a, m)
                    == old(self).spec_seg_of(a, m),
    {
        let n = self.segments.len();
        let mut i: usize = 0;
        while i < n
            invariant
                i <= n,
                n == self.segments@.len(),
                *self == *old(self),
                old(self).wf(),
                forall|j: int|
                    0 <= j < i ==> !((#[trigger] self.segments@[j]).0@ == address@
                        && self.segments@[j].1 == segment_number),
            decreases n - i,
        {
            let hit = {
                let e = &self.segments[i];
                eq_bytes32(&e.0, address) && e.1 == segment_number
            };
            if hit {
                let entry = (*address, segment_number, *packed);
                self.segments.set(i, entry);
                proof {
                    let ghost ss = self.segments@;
                    assert(forall|j: int|
                        0 <= j < ss.len() && j != i ==> ss[j] == old(self).segments@[j]);
                    assert forall|a: int, b: int| 0 <= a < b < ss.len() implies !((
                    #[trigger] ss[a]).0@ == (#[trigger] ss[b]).0@ && ss[a].1 == ss[b].1) by {
                        if a == i {
                            assert(ss[a] == (*address, segment_number, *packed));
                            assert(old(self).segments@[a].0@ == address@ && old(
                                self,
                            ).segments@[a].1 == segment_number);
                        } else {
                            assert(ss[a] == old(self).segments@[a]);
                        }
                        if b == i {
                            assert(ss[b] == (*address, segment_number, *packed));
                            assert(old(self).segments@[b].0@ == address@ && old(
                                self,
                            ).segments@[b].1 == segment_number);
                        } else {
                            assert(ss[b] == old(self).segments@[b]);
                        }
                        assert(!(old(self).segments@[a].0@ == old(self).segments@[b].0@ && old(
                            self,
                        ).segments@[a].1 == old(self).segments@[b].1));
                    }
                }
                proof {
                    lemma_seg_lookup_update(
                        old(self).segments@,
                        self.segments@,
                        address@,
                        segment_number,
                        *packed,
                        i as int,
                    );
                }
                return ;
            }
            i = i + 1;
        }
        let entry = (*address, segment_number, *packed);
        self.segments.push(entry);
        proof {
            let ghost ss = self.segments@;
            assert(forall|j: int| 0 <= j < ss.len() - 1 ==> ss[j] == old(self).segments@[j]);
            assert forall|a: int, b: int| 0 <= a < b < ss.len() implies !((#[trigger] ss[a]).0@ == (
            #[trigger] ss[b]).0@ && ss[a].1 == ss[b].1) by {
                if b < ss.len() - 1 {
                    assert(ss[a] == old(self).segments@[a]);
                    assert(ss[b] == old(self).segments@[b]);
                } else {
                    assert(ss[a] == old(self).segments@[a]);
                    assert(ss[b] == entry);
                }
            }
            lemma_seg_lookup_push(old(self).segments@, entry);
        }
    }

    /// Reads a packed segment.
    pub fn get_segment(&self, address: &[u8; 32], segment_number: u64) -> (r: Result<
        [u8; 145],
        SpoolError,
    >)
        ensures
            match self.spec_seg_of(address@, segment_number) {
                Some(p) => r == Ok::<[u8; 145], SpoolError>(p),
                None => r == Err::<[u8; 145], SpoolError>(SpoolError::SegmentNotFoundForAddress),
            },
    {
        let n = self.segments.len();
        let mut i: usize = 0;
        while i < n
            invariant
                i <= n,
                n == self.segments@.len(),
                self.spec_seg_of(address@, segment_number) == seg_of_from(
                    self.segments@,
                    address@,
                    segment_number,
                    i as int,
                ),
            decreases n - i,
        {
            let hit = {
                let e = &self.segments[i];
                eq_bytes32(&e.0, address) && e.1 == segment_number
            };
            if hit {
                let e = self.segments[i];
                return Ok(e.2);
            }
            i = i + 1;
        }
        Err(SpoolError::SegmentNotFoundForAddress)
    }

    /// Counts the segments stored for an address.
    pub fn get_segment_count(&self, address: &[u8; 32]) -> (r: usize)
        ensures
            r == self.segments@.filter(|e: ([u8; 32], u64, [u8; 145])| e.0@ == address@).len(),
    {
        let n = self.segments.len();
        let mut i: usize = 0;
        let mut count: usize = 0;
        proof {
            assert(self.segments@.subrange(0, 0) =~= Seq::<([u8; 32], u64, [u8; 145])>::empty());
            assert(self.segments@.subrange(0, 0).filter(
                |e: ([u8; 32], u64, [u8; 145])| e.0@ == address@,
            ).len() == 0);
        }
        while i < n
            invariant
                i <= n,
                n == self.segments@.len(),
                count == self.segments@.subrange(0, i as int).filter(
                    |e: ([u8; 32], u64, [u8; 145])| e.0@ == address@,
                ).len(),
                count <= i,
            decreases n - i,
        {
            let hit = {
                let e = &self.segments[i];
                eq_bytes32(&e.0, address)
            };
            proof {
                let f = |e: ([u8; 32], u64, [u8; 145])| e.0@ == address@;
                let pre = self.segments@.subrange(0, i as int);
                let nxt = self.segments@.subrange(0, i as int + 1);
                assert(nxt =~= pre.push(self.segments@[i as int]));
                Seq::lemma_filter_push(pre, self.segments@[i as int], f);
            }
            if hit {
                count = count + 1;
            }
            i = i + 1;
        }
        proof {
            assert(self.segments@.subrange(0, n as int) =~= self.segments@);
        }
        count
    }

    /// Stores a Merkle cache value. An existing entry is overwritten.
    pub fn put_merkle_cache(&mut self, key: &MerkleCacheKey, value: &Vec<[u8; 32]>)
        requires
            old(self).wf(),
        ensures
            final(self).wf(),
            final(self).pairs@ == old(self).pairs@,
            final(self).segments@ == old(self).segments@,
            final(self).spec_cache_of(*key) == Some(value@),
            forall|k: MerkleCacheKey|
                !key_eq(k, *key) ==> #[trigger] final(self).spec_cache_of(k) == old(
                    self,
                ).spec_cache_of(k),
    {
        let n = self.caches.len();
        let mut i: usize = 0;
        while i < n
            invariant
                i <= n,
                n == self.caches@.len(),
                *self == *old(self),
                old(self).wf(),
                forall|j: int| 0 <= j < i ==> !key_eq((#[trigger] self.caches@[j]).0, *key),
            decreases n - i,
        {
            let hit = cache_key_eq(&self.caches[i].0, key);
            if hit {
                let entry = (*key, copy_hashes(value));
                self.caches.set(i, entry);
                proof {
                    let ghost cc = self.caches@;
                    assert(forall|j: int|
                        0 <= j < cc.len() && j != i ==> cc[j] == old(self).caches@[j]);
                    assert forall|a: int, b: int| 0 <= a < b < cc.len() implies !key_eq(
                        (#[trigger] cc[a]).0,
                        (#[trigger] cc[b]).0,
                    ) by {
                        let oa = old(self).caches@[a].0;
                        let ob = old(self).caches@[b].0;
                        assert(!key_eq(oa, ob));
                        if a == i {
                            lemma_key_eq_trans(oa, *key, ob);
                            lemma_key_eq_trans(*key, ob, oa);
                            lemma_key_eq_trans(oa, ob, *key);
                            assert(key_eq(oa, *key));
                            assert(cc[a].0 == *key);
                            if key_eq(cc[a].0, cc[b].0) {
                                assert(key_eq(*key, ob));
                                assert(key_eq(oa, ob));
                            }
                        } else if b == i {
                            lemma_key_eq_trans(oa, ob, *key);
                            lemma_key_eq_trans(oa, *key, ob);
                            assert(key_eq(ob, *key));
                            assert(cc[b].0 == *key);
                            if key_eq(cc[a].0, cc[b].0) {
                                lemma_key_eq_trans(oa, *key, ob);
                                lemma_key_eq_trans(*key, ob, oa);
                                assert(key_eq(oa, *key));
                                lemma_key_eq_trans(ob, *key, oa);
                                assert(key_eq(oa, ob));
                            }
                        }
                    }
                }
                proof {
                    lemma_cache_lookup_update(
                        old(self).caches@,
                        self.caches@,
                        *key,
                        value@,
                        i as int,
                    );
                }
                return ;
            }
            i = i + 1;
        }
        let entry = (*key, copy_hashes(value));
        self.caches.push(entry);
        proof {
            let ghost cc = self.caches@;
            assert(forall|j: int| 0 <= j < cc.len() - 1 ==> cc[j] == old(self).caches@[j]);
            assert forall|a: int, b: int| 0 <= a < b < cc.len() implies !key_eq(
                (#[trigger] cc[a]).0,
                (#[trigger] cc[b]).0,
            ) by {
                if b < cc.len() - 1 {
                    assert(cc[a] == old(self).caches@[a]);
                    assert(cc[b] == old(self).caches@[b]);
                } else {
                    assert(cc[a] == old(self).caches@[a]);
                    assert(cc[b] == entry);
                    lemma_key_eq_trans(cc[a].0, entry.0, entry.0);
                }
            }
            lemma_cache_lookup_push(old(self).caches@, entry);
        }
    }

    /// Reads a Merkle cache value.
    pub fn get_merkle_cache(&self, key: &MerkleCacheKey) -> (r: Result<Vec<[u8; 32]>, SpoolError>)
        ensures
            match self.spec_cache_of(*key) {
                Some(v) => r matches Ok(out) && out@ == v,
                None => r == Err::<Vec<[u8; 32]>, SpoolError>(SpoolError::InvalidSegmentKey),
            },
    {
        let n = self.caches.len();
        let mut i: usize = 0;
        while i < n
            invariant
                i <= n,
                n == self.caches@.len(),
                self.spec_cache_of(*key) == cache_of_from(self.caches@, *key, i as int),
            decreases n - i,
        {
            let hit = cache_key_eq(&self.caches[i].0, key);
            if hit {
                return Ok(copy_hashes(&self.caches[i].1));
            }
            i = i + 1;
        }
        Err(SpoolError::InvalidSegmentKey)
    }
}

// ---------------------------------------------------------------------------
// Lookup framing lemmas
// ---------------------------------------------------------------------------

proof fn lemma_addr_lookup_update(
    p1: Seq<(u64, [u8; 32])>,
    p2: Seq<(u64, [u8; 32])>,
    number: u64,
    address: [u8; 32],
    at: int,
)
    requires
        0 <= at < p1.len(),
        p2 == p1.update(at, (number, address)),
        p1[at].0 == number,
        forall|j: int| 0 <= j < at ==> (#[trigger] p1[j]).0 != number,
    ensures
        addr_of_from(p2, number, 0) == Some(address),
        forall|m: u64| m != number ==> addr_of_from(p2, m, 0) == addr_of_from(p1, m, 0),
{
    assert forall|m: u64, i: int|
        0 <= i <= p1.len() && m != number implies addr_of_from(p2, m, i) == addr_of_from(
        p1,
        m,
        i,
    ) by {
        lemma_addr_lookup_agree(p1, p2, m, i, at);
    }
    lemma_addr_lookup_finds(p2, number, address, at);
}

proof fn lemma_addr_lookup_agree(
    p1: Seq<(u64, [u8; 32])>,
    p2: Seq<(u64, [u8; 32])>,
    m: u64,
    i: int,
    at: int,
)
    requires
        p1.len() == p2.len(),
        0 <= i <= p1.len(),
        0 <= at < p1.len(),
        forall|j: int| 0 <= j < p1.len() && j != at ==> p1[j] == p2[j],
        p1[at].0 != m,
        p2[at].0 != m,
    ensures
        addr_of_from(p2, m, i) == addr_of_from(p1, m, i),
    decreases p1.len() - i,
{
    if i < p1.len() {
        lemma_addr_lookup_agree(p1, p2, m, i + 1, at);
    }
}

proof fn lemma_addr_lookup_finds(p: Seq<(u64, [u8; 32])>, number: u64, address: [u8; 32], at: int)
    requires
        0 <= at < p.len(),
        p[at] == (number, address),
        forall|j: int| 0 <= j < at ==> (#[trigger] p[j]).0 != number,
    ensures
        addr_of_from(p, number, 0) == Some(address),
{
    lemma_addr_lookup_skip(p, number, address, 0, at);
}

proof fn lemma_addr_lookup_skip(
    p: Seq<(u64, [u8; 32])>,
    number: u64,
    address: [u8; 32],
    i: int,
    at: int,
)
    requires
        0 <= i <= at < p.len(),
        p[at] == (number, address),
        forall|j: int| 0 <= j < at ==> (#[trigger] p[j]).0 != number,
    ensures
        addr_of_from(p, number, i) == Some(address),
    decreases at - i,
{
    if i < at {
        lemma_addr_lookup_skip(p, number, address, i + 1, at);
    }
}

proof fn lemma_addr_lookup_push(p: Seq<(u64, [u8; 32])>, number: u64, address: [u8; 32])
    requires
        forall|j: int| 0 <= j < p.len() ==> (#[trigger] p[j]).0 != number,
    ensures
        addr_of_from(p.push((number, address)), number, 0) == Some(address),
        forall|m: u64|
            m != number ==> addr_of_from(p.push((number, address)), m, 0) == addr_of_from(p, m, 0),
{
    let p2 = p.push((number, address));
    lemma_addr_lookup_skip(p2, number, address, 0, p.len() as int);
    assert forall|m: u64| m != number implies addr_of_from(p2, m, 0) == addr_of_from(p, m, 0) by {
        lemma_addr_lookup_push_agree(p, p2, m, 0, number, address);
    }
}

proof fn lemma_addr_lookup_push_agree(
    p: Seq<(u64, [u8; 32])>,
    p2: Seq<(u64, [u8; 32])>,
    m: u64,
    i: int,
    number: u64,
    address: [u8; 32],
)
    requires
        p2 == p.push((number, address)),
        m != number,
        0 <= i <= p.len(),
    ensures
        addr_of_from(p2, m, i) == addr_of_from(p, m, i),
    decreases p.len() - i,
{
    if i < p.len() {
        lemma_addr_lookup_push_agree(p, p2, m, i + 1, number, address);
    } else {
        assert(addr_of_from(p2, m, i + 1) is None);
    }
}

proof fn lemma_num_lookup_after(
    p1: Seq<(u64, [u8; 32])>,
    p2: Seq<(u64, [u8; 32])>,
    number: u64,
    address: [u8; 32],
    at: int,
)
    requires
        0 <= at < p1.len(),
        p2 == p1.update(at, (number, address)),
        (num_of_from(p1, address@, 0) is None || num_of_from(p1, address@, 0) == Some(number)),
        p1[at].0 == number,
    ensures
        num_of_from(p2, address@, 0) == Some(number),
{
    lemma_num_lookup_after_from(p1, p2, number, address, at, 0);
}

proof fn lemma_num_lookup_after_from(
    p1: Seq<(u64, [u8; 32])>,
    p2: Seq<(u64, [u8; 32])>,
    number: u64,
    address: [u8; 32],
    at: int,
    i: int,
)
    requires
        0 <= i <= p1.len(),
        0 <= at < p1.len(),
        p2 == p1.update(at, (number, address)),
        (num_of_from(p1, address@, i) is None || num_of_from(p1, address@, i) == Some(number)),
        p1[at].0 == number,
        i <= at,
    ensures
        num_of_from(p2, address@, i) == Some(number),
    decreases p1.len() - i,
{
    if i == at {
        lemma_num_lookup_found_here(p2, address, number, at);
    } else {
        if p1[i].1@ == address@ {
            // the early hit must already map to `number`
            assert(num_of_from(p1, address@, i) == Some(p1[i].0));
            assert(p2[i] == p1[i]);
            lemma_num_lookup_found_here(p2, address, number, i);
        } else {
            lemma_num_lookup_after_from(p1, p2, number, address, at, i + 1);
        }
    }
}

proof fn lemma_num_lookup_found_here(
    p: Seq<(u64, [u8; 32])>,
    address: [u8; 32],
    number: u64,
    at: int,
)
    requires
        0 <= at < p.len(),
        p[at].1@ == address@,
        p[at].0 == number,
    ensures
        num_of_from(p, address@, at) == Some(number),
{
}

proof fn lemma_num_lookup_push(p: Seq<(u64, [u8; 32])>, number: u64, address: [u8; 32])
    requires
        (num_of_from(p, address@, 0) is None || num_of_from(p, address@, 0) == Some(number)),
    ensures
        num_of_from(p.push((number, address)), address@, 0) == Some(number),
{
    lemma_num_lookup_push_from(p, number, address, 0);
}

proof fn lemma_num_lookup_push_from(
    p: Seq<(u64, [u8; 32])>,
    number: u64,
    address: [u8; 32],
    i: int,
)
    requires
        0 <= i <= p.len(),
        (num_of_from(p, address@, i) is None || num_of_from(p, address@, i) == Some(number)),
    ensures
        num_of_from(p.push((number, address)), address@, i) == Some(number),
    decreases p.len() - i,
{
    let p2 = p.push((number, address));
    if i < p.len() {
        if p[i].1@ == address@ {
            assert(p2[i] == p[i]);
        } else {
            lemma_num_lookup_push_from(p, number, address, i + 1);
        }
    }
}

proof fn lemma_seg_lookup_update(
    s1: Seq<([u8; 32], u64, [u8; 145])>,
    s2: Seq<([u8; 32], u64, [u8; 145])>,
    address: Seq<u8>,
    number: u64,
    packed: [u8; 145],
    at: int,
)
    requires
        0 <= at < s1.len(),
        s1[at].0@ == address,
        s1[at].1 == number,
        s2.len() == s1.len(),
        s2[at].0@ == address,
        s2[at].1 == number,
        s2[at].2 == packed,
        forall|j: int| 0 <= j < s1.len() && j != at ==> s1[j] == s2[j],
        forall|j: int|
            0 <= j < at ==> !((#[trigger] s1[j]).0@ == address && s1[j].1 == number),
    ensures
        seg_of_from(s2, address, number, 0) == Some(packed),
        forall|a: Seq<u8>, m: u64|
            !(a == address && m == number) ==> seg_of_from(s2, a, m, 0) == seg_of_from(s1, a, m, 0),
{
    lemma_seg_lookup_skip(s2, address, number, packed, 0, at);
    assert forall|a: Seq<u8>, m: u64| !(a == address && m == number) implies seg_of_from(
        s2,
        a,
        m,
        0,
    ) == seg_of_from(s1, a, m, 0) by {
        lemma_seg_lookup_agree(s1, s2, a, m, 0, at);
    }
}

proof fn lemma_seg_lookup_skip(
    s: Seq<([u8; 32], u64, [u8; 145])>,
    address: Seq<u8>,
    number: u64,
    packed: [u8; 145],
    i: int,
    at: int,
)
    requires
        0 <= i <= at < s.len(),
        s[at].0@ == address,
        s[at].1 == number,
        s[at].2 == packed,
        forall|j: int| 0 <= j < at ==> !((#[trigger] s[j]).0@ == address && s[j].1 == number),
    ensures
        seg_of_from(s, address, number, i) == Some(packed),
    decreases at - i,
{
    if i < at {
        lemma_seg_lookup_skip(s, address, number, packed, i + 1, at);
    }
}

proof fn lemma_seg_lookup_agree(
    s1: Seq<([u8; 32], u64, [u8; 145])>,
    s2: Seq<([u8; 32], u64, [u8; 145])>,
    a: Seq<u8>,
    m: u64,
    i: int,
    at: int,
)
    requires
        s1.len() == s2.len(),
        0 <= i <= s1.len(),
        0 <= at < s1.len(),
        forall|j: int| 0 <= j < s1.len() && j != at ==> s1[j] == s2[j],
        !(s1[at].0@ == a && s1[at].1 == m),
        !(s2[at].0@ == a && s2[at].1 == m),
    ensures
        seg_of_from(s2, a, m, i) == seg_of_from(s1, a, m, i),
    decreases s1.len() - i,
{
    if i < s1.len() {
        lemma_seg_lookup_agree(s1, s2, a, m, i + 1, at);
    }
}

proof fn lemma_seg_lookup_push(s: Seq<([u8; 32], u64, [u8; 145])>, entry: ([u8; 32], u64, [u8; 145]))
    requires
        forall|j: int|
            0 <= j < s.len() ==> !((#[trigger] s[j]).0@ == entry.0@ && s[j].1 == entry.1),
    ensures
        seg_of_from(s.push(entry), entry.0@, entry.1, 0) == Some(entry.2),
        forall|a: Seq<u8>, m: u64|
            !(a == entry.0@ && m == entry.1) ==> seg_of_from(s.push(entry), a, m, 0) == seg_of_from(
                s,
                a,
                m,
                0,
            ),
{
    let s2 = s.push(entry);
    lemma_seg_lookup_skip(s2, entry.0@, entry.1, entry.2, 0, s.len() as int);
    assert forall|a: Seq<u8>, m: u64| !(a == entry.0@ && m == entry.1) implies seg_of_from(
        s2,
        a,
        m,
        0,
    ) == seg_of_from(s, a, m, 0) by {
        lemma_seg_lookup_push_agree(s, s2, entry, a, m, 0);
    }
}

proof fn lemma_seg_lookup_push_agree(
    s: Seq<([u8; 32], u64, [u8; 145])>,
    s2: Seq<([u8; 32], u64, [u8; 145])>,
    entry: ([u8; 32], u64, [u8; 145]),
    a: Seq<u8>,
    m: u64,
    i: int,
)
    requires
        s2 == s.push(entry),
        !(a == entry.0@ && m == entry.1),
        0 <= i <= s.len(),
    ensures
        seg_of_from(s2, a, m, i) == seg_of_from(s, a, m, i),
    decreases s.len() - i,
{
    if i < s.len() {
        lemma_seg_lookup_push_agree(s, s2, entry, a, m, i + 1);
    } else {
        assert(seg_of_from(s2, a, m, i + 1) is None);
    }
}

proof fn lemma_cache_lookup_update(
    c1: Seq<(MerkleCacheKey, Vec<[u8; 32]>)>,
    c2: Seq<(MerkleCacheKey, Vec<[u8; 32]>)>,
    key: MerkleCacheKey,
    value: Seq<[u8; 32]>,
    at: int,
)
    requires
        0 <= at < c1.len(),
        c2.len() == c1.len(),
        key_eq(c1[at].0, key),
        key_eq(c2[at].0, key),
        c2[at].1@ == value,
        forall|j: int| 0 <= j < c1.len() && j != at ==> c1[j] == c2[j],
        forall|j: int| 0 <= j < at ==> !key_eq((#[trigger] c1[j]).0, key),
    ensures
        cache_of_from(c2, key, 0) == Some(value),
        forall|k: MerkleCacheKey|
            !key_eq(k, key) ==> cache_of_from(c2, k, 0) == cache_of_from(c1, k, 0),
{
    lemma_cache_lookup_skip(c2, key, value, 0, at);
    assert forall|k: MerkleCacheKey| !key_eq(k, key) implies cache_of_from(c2, k, 0)
        == cache_of_from(c1, k, 0) by {
        lemma_key_eq_sym_trans(c1[at].0, key, k);
        lemma_key_eq_sym_trans(c2[at].0, key, k);
        lemma_cache_lookup_agree(c1, c2, k, 0, at);
    }
}

/// Two keys both equal to a third are equal to each other; used to carry
/// "not this key" across an update.
proof fn lemma_key_eq_sym_trans(a: MerkleCacheKey, b: MerkleCacheKey, k: MerkleCacheKey)
    ensures
        (key_eq(a, b) && !key_eq(k, b)) ==> !key_eq(a, k),
{
}

/// Key equality is symmetric and transitive.
proof fn lemma_key_eq_trans(a: MerkleCacheKey, b: MerkleCacheKey, c: MerkleCacheKey)
    ensures
        (key_eq(a, b) && key_eq(b, c)) ==> key_eq(a, c),
        key_eq(a, b) == key_eq(b, a),
{
}

proof fn lemma_cache_lookup_skip(
    c: Seq<(MerkleCacheKey, Vec<[u8; 32]>)>,
    key: MerkleCacheKey,
    value: Seq<[u8; 32]>,
    i: int,
    at: int,
)
    requires
        0 <= i <= at < c.len(),
        key_eq(c[at].0, key),
        c[at].1@ == value,
        forall|j: int| 0 <= j < at ==> !key_eq((#[trigger] c[j]).0, key),
    ensures
        cache_of_from(c, key, i) == Some(value),
    decreases at - i,
{
    if i < at {
        lemma_cache_lookup_skip(c, key, value, i + 1, at);
    }
}

proof fn lemma_cache_lookup_agree(
    c1: Seq<(MerkleCacheKey, Vec<[u8; 32]>)>,
    c2: Seq<(MerkleCacheKey, Vec<[u8; 32]>)>,
    k: MerkleCacheKey,
    i: int,
    at: int,
)
    requires
        c1.len() == c2.len(),
        0 <= i <= c1.len(),
        0 <= at < c1.len(),
        forall|j: int| 0 <= j < c1.len() && j != at ==> c1[j] == c2[j],
        !key_eq(c1[at].0, k),
        !key_eq(c2[at].0, k),
    ensures
        cache_of_from(c2, k, i) == cache_of_from(c1, k, i),
    decreases c1.len() - i,
{
    if i < c1.len() {
        lemma_cache_lookup_agree(c1, c2, k, i + 1, at);
    }
}

proof fn lemma_cache_lookup_push(
    c: Seq<(MerkleCacheKey, Vec<[u8; 32]>)>,
    entry: (MerkleCacheKey, Vec<[u8; 32]>),
)
    requires
        forall|j: int| 0 <= j < c.len() ==> !key_eq((#[trigger] c[j]).0, entry.0),
        key_eq(entry.0, entry.0),
    ensures
        cache_of_from(c.push(entry), entry.0, 0) == Some(entry.1@),
        forall|k: MerkleCacheKey|
            !key_eq(k, entry.0) ==> cache_of_from(c.push(entry), k, 0) == cache_of_from(c, k, 0),
{
    let c2 = c.push(entry);
    lemma_cache_lookup_skip(c2, entry.0, entry.1@, 0, c.len() as int);
    assert forall|k: MerkleCacheKey| !key_eq(k, entry.0) implies cache_of_from(c2, k, 0)
        == cache_of_from(c, k, 0) by {
        lemma_cache_lookup_push_agree(c, c2, entry, k, 0);
    }
}

proof fn lemma_cache_lookup_push_agree(
    c: Seq<(MerkleCacheKey, Vec<[u8; 32]>)>,
    c2: Seq<(MerkleCacheKey, Vec<[u8; 32]>)>,
    entry: (MerkleCacheKey, Vec<[u8; 32]>),
    k: MerkleCacheKey,
    i: int,
)
    requires
        c2 == c.push(entry),
        !key_eq(k, entry.0),
        0 <= i <= c.len(),
    ensures
        cache_of_from(c2, k, i) == cache_of_from(c, k, i),
    decreases c.len() - i,
{
    if i < c.len() {
        lemma_cache_lookup_push_agree(c, c2, entry, k, i + 1);
    } else {
        assert(cache_of_from(c2, k, i + 1) is None);
    }
}

} // verus!
