//! The Merkle canopy engine.
//!
//! Per spool, the store keeps two sector-layer snapshots: the unpacked
//! canopy (leaves hashed over the bytes a miner recalls) and the packed
//! canopy (leaves hashed over the stored solution bytes). The sector layer
//! is the only persisted intermediate state: sector roots are recomputed
//! from stored leaves on demand, and the spool root is rebuilt from the
//! canopy alone.

use vstd::prelude::*;
use vstd::arithmetic::power2::{pow2, lemma2_to64, lemma_pow2_pos};
use crate::consts::{SECTOR_LEAVES, SECTOR_TREE_HEIGHT, SEGMENT_TREE_HEIGHT};
use crate::error::SpoolError;
use crate::hashing::{blake3_of, hash1};
use crate::merkle::{
    combine_nodes,
    leaf_hash,
    leaf_or_zero,
    lemma_node_agree,
    lemma_node_empty,
    lemma_node_slice,
    make_leaf,
    node_at,
    root_of,
    subtree_root,
    views32,
    zero_at,
};
use crate::packing::{packx_unpack, unpack_of};
use crate::store::{key_eq, MerkleCacheKey, SpoolStore};

verus! {

/// Lookups under equal keys agree.
proof fn lemma_cache_same_key(store: SpoolStore, a: MerkleCacheKey, b: MerkleCacheKey)
    requires
        key_eq(a, b),
    ensures
        store.spec_cache_of(a) == store.spec_cache_of(b),
{
    lemma_cache_same_key_from(store, a, b, 0);
}

proof fn lemma_cache_same_key_from(store: SpoolStore, a: MerkleCacheKey, b: MerkleCacheKey, i: int)
    requires
        key_eq(a, b),
        0 <= i,
    ensures
        crate::store::cache_of_from(store.caches@, a, i) == crate::store::cache_of_from(
            store.caches@,
            b,
            i,
        ),
    decreases store.caches@.len() - i,
{
    if i < store.caches@.len() {
        lemma_cache_same_key_from(store, a, b, i + 1);
    }
}

/// The empty-leaf value of a spool's segment tree: the hash of its address.
pub open spec fn spool_z0(addr: Seq<u8>) -> Seq<u8> {
    blake3_of(addr)
}

/// The leaf a miner recalls for one segment position: the hash over the
/// unpacked bytes of the stored solution, or the empty leaf.
pub open spec fn spec_unpacked_leaf(
    store: SpoolStore,
    miner: Seq<u8>,
    addr: Seq<u8>,
    k: u64,
) -> Seq<u8> {
    match store.spec_seg_of(addr, k) {
        Some(p) => leaf_hash(k, unpack_of(miner, p@)),
        None => spool_z0(addr),
    }
}

/// The stored (packed) leaf for one segment position.
pub open spec fn spec_packed_leaf(store: SpoolStore, addr: Seq<u8>, k: u64) -> Seq<u8> {
    match store.spec_seg_of(addr, k) {
        Some(p) => leaf_hash(k, p@),
        None => spool_z0(addr),
    }
}

/// The full unpacked leaf layer of a spool, as the store represents it.
pub open spec fn store_leaves(store: SpoolStore, miner: Seq<u8>, addr: Seq<u8>) -> Seq<Seq<u8>> {
    Seq::new(pow2(SEGMENT_TREE_HEIGHT as nat), |k: int| spec_unpacked_leaf(store, miner, addr, k as u64))
}

/// The zero-frontier cache is truthful: every cached chain is the zero
/// chain of its spool's seed.
pub open spec fn zeros_cache_ok(store: SpoolStore) -> bool {
    forall|a: [u8; 32]|
        match #[trigger] store.spec_cache_of(MerkleCacheKey::ZeroValues { address: a }) {
            Some(v) => v.len() == SEGMENT_TREE_HEIGHT && forall|i: int|
                0 <= i < v.len() ==> v[i]@ == zero_at(spool_z0(a@), i as nat),
            None => true,
        }
}

/// The unpacked canopy layer cached for `addr`.
pub open spec fn unpacked_layer_of(store: SpoolStore, addr: [u8; 32]) -> Option<Seq<[u8; 32]>> {
    store.spec_cache_of(
        MerkleCacheKey::UnpackedSpoolLayer { address: addr, layer: SECTOR_TREE_HEIGHT as u8 },
    )
}

/// The canopy invariant for one spool under one miner: every cached sector
/// root is the true sector node of the store's unpacked leaf layer, and the
/// cached layer covers every stored segment.
pub open spec fn canopy_ok(store: SpoolStore, miner: Seq<u8>, addr: [u8; 32]) -> bool {
    match unpacked_layer_of(store, addr) {
        Some(layer) => {
            &&& layer.len() <= 256
            &&& forall|s: int|
                0 <= s < layer.len() ==> layer[s]@ == node_at(
                    store_leaves(store, miner, addr@),
                    spool_z0(addr@),
                    SECTOR_TREE_HEIGHT as nat,
                    s,
                )
            &&& forall|k: u64|
                #[trigger] store.spec_seg_of(addr@, k) is Some ==> k < layer.len() * SECTOR_LEAVES
        },
        None => forall|k: u64| #[trigger] store.spec_seg_of(addr@, k) is None,
    }
}

/// The canopy invariant with one sector's cache entry possibly stale, and
/// coverage widened to that sector and everything at or beyond it: the
/// state between storing a segment and refreshing its sector, and equally
/// each step of a bulk load whose sectors are refreshed in ascending
/// order.
pub open spec fn canopy_ok_except(
    store: SpoolStore,
    miner: Seq<u8>,
    addr: [u8; 32],
    sector: int,
) -> bool {
    match unpacked_layer_of(store, addr) {
        Some(layer) => {
            &&& layer.len() <= 256
            &&& forall|s: int|
                0 <= s < layer.len() && s != sector ==> layer[s]@ == node_at(
                    store_leaves(store, miner, addr@),
                    spool_z0(addr@),
                    SECTOR_TREE_HEIGHT as nat,
                    s,
                )
            &&& forall|k: u64|
                #[trigger] store.spec_seg_of(addr@, k) is Some ==> k < layer.len() * SECTOR_LEAVES
                    || k as int / SECTOR_LEAVES as int >= sector
        },
        None => forall|k: u64|
            #[trigger] store.spec_seg_of(addr@, k) is Some ==> k as int / SECTOR_LEAVES as int
                >= sector,
    }
}

/// The full packed leaf layer of a spool, as the store represents it.
pub open spec fn store_packed_leaves(store: SpoolStore, addr: Seq<u8>) -> Seq<Seq<u8>> {
    Seq::new(pow2(SEGMENT_TREE_HEIGHT as nat), |k: int| spec_packed_leaf(store, addr, k as u64))
}

/// The canopy invariant for the packed layer: every cached sector root is
/// the true sector node over the stored solution bytes, and the layer
/// covers every stored segment.
pub open spec fn packed_canopy_ok(store: SpoolStore, addr: [u8; 32]) -> bool {
    match packed_layer_of(store, addr) {
        Some(layer) => {
            &&& layer.len() <= 256
            &&& forall|s: int|
                0 <= s < layer.len() ==> layer[s]@ == node_at(
                    store_packed_leaves(store, addr@),
                    spool_z0(addr@),
                    SECTOR_TREE_HEIGHT as nat,
                    s,
                )
            &&& forall|k: u64|
                #[trigger] store.spec_seg_of(addr@, k) is Some ==> k < layer.len() * SECTOR_LEAVES
        },
        None => forall|k: u64| #[trigger] store.spec_seg_of(addr@, k) is None,
    }
}

/// The packed-layer invariant with one sector possibly stale, mirroring
/// `canopy_ok_except`.
pub open spec fn packed_canopy_ok_except(store: SpoolStore, addr: [u8; 32], sector: int) -> bool {
    match packed_layer_of(store, addr) {
        Some(layer) => {
            &&& layer.len() <= 256
            &&& forall|s: int|
                0 <= s < layer.len() && s != sector ==> layer[s]@ == node_at(
                    store_packed_leaves(store, addr@),
                    spool_z0(addr@),
                    SECTOR_TREE_HEIGHT as nat,
                    s,
                )
            &&& forall|k: u64|
                #[trigger] store.spec_seg_of(addr@, k) is Some ==> k < layer.len() * SECTOR_LEAVES
                    || k as int / SECTOR_LEAVES as int >= sector
        },
        None => forall|k: u64|
            #[trigger] store.spec_seg_of(addr@, k) is Some ==> k as int / SECTOR_LEAVES as int
                >= sector,
    }
}

/// Loads the zero-frontier of a spool's segment tree from the cache, or
/// computes and caches it.
pub fn get_or_create_empty_hashes(store: &mut SpoolStore, spool_address: &[u8; 32]) -> (r: Vec<
    [u8; 32],
>)
    requires
        old(store).wf(),
        zeros_cache_ok(*old(store)),
    ensures
        final(store).wf(),
        zeros_cache_ok(*final(store)),
        final(store).pairs@ == old(store).pairs@,
        final(store).segments@ == old(store).segments@,
        forall|k: MerkleCacheKey|
            !key_eq(k, MerkleCacheKey::ZeroValues { address: *spool_address })
                ==> #[trigger] final(store).spec_cache_of(k) == old(store).spec_cache_of(k),
        r@.len() == SEGMENT_TREE_HEIGHT,
        forall|i: int|
            0 <= i < r@.len() ==> r@[i]@ == zero_at(spool_z0(spool_address@), i as nat),
{
    let key = MerkleCacheKey::ZeroValues { address: *spool_address };
    match store.get_merkle_cache(&key) {
        Ok(v) => {
            proof {
                assert(old(store).spec_cache_of(key) == Some(v@));
            }
            v
        },
        Err(u) => {
            let ghost z0 = spool_z0(spool_address@);
            let mut zeros: Vec<[u8; 32]> = Vec::new();
            let mut cur: [u8; 32] = hash1(spool_address.as_slice());
            let mut i: usize = 0;
            while i < SEGMENT_TREE_HEIGHT
                invariant
                    i <= SEGMENT_TREE_HEIGHT,
                    zeros@.len() == i,
                    cur@ == zero_at(z0, i as nat),
                    z0 == spool_z0(spool_address@),
                    forall|j: int| 0 <= j < i ==> zeros@[j]@ == zero_at(z0, j as nat),
                decreases SEGMENT_TREE_HEIGHT - i,
            {
                zeros.push(cur);
                cur = combine_nodes(&cur, &cur);
                i = i + 1;
            }
            store.put_merkle_cache(&key, &zeros);
            proof {
                assert forall|a: [u8; 32]|
                    match #[trigger] store.spec_cache_of(
                        MerkleCacheKey::ZeroValues { address: a },
                    ) {
                        Some(v) => v.len() == SEGMENT_TREE_HEIGHT && forall|ii: int|
                            0 <= ii < v.len() ==> v[ii]@ == zero_at(spool_z0(a@), ii as nat),
                        None => true,
                    } by {
                    let ka = MerkleCacheKey::ZeroValues { address: a };
                    if key_eq(ka, key) {
                        assert(a@ == spool_address@);
                        assert(spool_z0(a@) == spool_z0(spool_address@));
                        assert(store.spec_cache_of(ka) == store.spec_cache_of(key)) by {
                            lemma_cache_same_key(*store, ka, key);
                        }
                    } else {
                        assert(store.spec_cache_of(ka) == old(store).spec_cache_of(ka));
                    }
                }
            }
            zeros
        },
    }
}

/// Builds one sector's unpacked leaves: for each position, the hash over
/// the unpacked stored solution, or the empty leaf.
pub fn compute_sector_leaves_unpacked(
    store: &SpoolStore,
    miner_address: &[u8; 32],
    spool_address: &[u8; 32],
    sector_number: u64,
    empty_leaf: &[u8; 32],
) -> (r: Vec<[u8; 32]>)
    requires
        sector_number < 256,
        empty_leaf@ == spool_z0(spool_address@),
    ensures
        r@.len() == SECTOR_LEAVES,
        forall|i: int|
            0 <= i < SECTOR_LEAVES ==> r@[i]@ == spec_unpacked_leaf(
                *store,
                miner_address@,
                spool_address@,
                (sector_number * SECTOR_LEAVES + i) as u64,
            ),
{
    let mut leaves: Vec<[u8; 32]> = Vec::new();
    let mut i: usize = 0;
    while i < SECTOR_LEAVES
        invariant
            i <= SECTOR_LEAVES,
            sector_number < 256,
            empty_leaf@ == spool_z0(spool_address@),
            leaves@.len() == i,
            forall|j: int|
                0 <= j < i ==> leaves@[j]@ == spec_unpacked_leaf(
                    *store,
                    miner_address@,
                    spool_address@,
                    (sector_number * SECTOR_LEAVES + j) as u64,
                ),
        decreases SECTOR_LEAVES - i,
    {
        let segment_number: u64 = sector_number * (SECTOR_LEAVES as u64) + (i as u64);
        match store.get_segment(spool_address, segment_number) {
            Ok(packed) => {
                let data_unpacked = packx_unpack(miner_address, &packed);
                let leaf = make_leaf(segment_number, data_unpacked.as_slice());
                leaves.push(leaf);
            },
            Err(u) => {
                leaves.push(*empty_leaf);
            },
        }
        i = i + 1;
    }
    leaves
}

/// Builds one sector's packed leaves: for each position, the hash over the
/// stored solution bytes, or the empty leaf.
pub fn compute_sector_leaves_packed(
    store: &SpoolStore,
    spool_address: &[u8; 32],
    sector_number: u64,
    empty_leaf: &[u8; 32],
) -> (r: Vec<[u8; 32]>)
    requires
        sector_number < 256,
        empty_leaf@ == spool_z0(spool_address@),
    ensures
        r@.len() == SECTOR_LEAVES,
        forall|i: int|
            0 <= i < SECTOR_LEAVES ==> r@[i]@ == spec_packed_leaf(
                *store,
                spool_address@,
                (sector_number * SECTOR_LEAVES + i) as u64,
            ),
{
    let mut leaves: Vec<[u8; 32]> = Vec::new();
    let mut i: usize = 0;
    while i < SECTOR_LEAVES
        invariant
            i <= SECTOR_LEAVES,
            sector_number < 256,
            empty_leaf@ == spool_z0(spool_address@),
            leaves@.len() == i,
            forall|j: int|
                0 <= j < i ==> leaves@[j]@ == spec_packed_leaf(
                    *store,
                    spool_address@,
                    (sector_number * SECTOR_LEAVES + j) as u64,
                ),
        decreases SECTOR_LEAVES - i,
    {
        let segment_number: u64 = sector_number * (SECTOR_LEAVES as u64) + (i as u64);
        match store.get_segment(spool_address, segment_number) {
            Ok(packed) => {
                let leaf = make_leaf(segment_number, packed.as_slice());
                leaves.push(leaf);
            },
            Err(u) => {
                leaves.push(*empty_leaf);
            },
        }
        i = i + 1;
    }
    leaves
}

/// Computes a sector's root: the bounded-height aggregation over its
/// leaves, padded with the zero-frontier.
pub fn compute_sector_root(
    leaves: &Vec<[u8; 32]>,
    empty_hashes: &Vec<[u8; 32]>,
    Ghost(z0): Ghost<Seq<u8>>,
) -> (r: [u8; 32])
    requires
        leaves@.len() == SECTOR_LEAVES,
        empty_hashes@.len() >= SECTOR_TREE_HEIGHT,
        forall|i: int| 0 <= i < empty_hashes@.len() ==> empty_hashes@[i]@ == zero_at(z0, i as nat),
    ensures
        r@ == node_at(views32(leaves@), z0, SECTOR_TREE_HEIGHT as nat, 0),
{
    proof {
        lemma2_to64();
        assert(pow2(SECTOR_TREE_HEIGHT as nat) == 1024);
    }
    subtree_root(leaves, empty_hashes, SECTOR_TREE_HEIGHT, Ghost(z0))
}

/// Writes a sector root into one cached canopy layer, resizing the layer
/// to fit the sector: entries between the old end and the sector are
/// seeded with `fill` — callers pass the sector-level zero-frontier value,
/// the true node of an empty sector.
pub fn update_sector_canopy_with_key(
    store: &mut SpoolStore,
    sector_number: u64,
    root: &[u8; 32],
    key: &MerkleCacheKey,
    fill: &[u8; 32],
) -> (r: Result<(), SpoolError>)
    requires
        old(store).wf(),
        sector_number < 256,
        match old(store).spec_cache_of(*key) {
            Some(layer) => layer.len() <= 256,
            None => true,
        },
    ensures
        final(store).wf(),
        final(store).pairs@ == old(store).pairs@,
        final(store).segments@ == old(store).segments@,
        forall|k: MerkleCacheKey|
            !key_eq(k, *key) ==> #[trigger] final(store).spec_cache_of(k) == old(
                store,
            ).spec_cache_of(k),
        r is Ok,
        ({
            let old_layer = match old(store).spec_cache_of(*key) {
                Some(layer) => layer,
                None => Seq::<[u8; 32]>::empty(),
            };
            match final(store).spec_cache_of(*key) {
                Some(layer2) => {
                    &&& layer2.len() == if sector_number < old_layer.len() {
                        old_layer.len() as int
                    } else {
                        sector_number + 1
                    }
                    &&& layer2[sector_number as int] == *root
                    &&& forall|s: int|
                        0 <= s < old_layer.len() && s != sector_number ==> layer2[s]
                            == old_layer[s]
                    &&& forall|s: int|
                        old_layer.len() <= s < layer2.len() && s != sector_number ==> layer2[s]
                            == *fill
                },
                None => false,
            }
        }),
{
    let mut layer: Vec<[u8; 32]> = match store.get_merkle_cache(key) {
        Ok(layer) => layer,
        Err(u) => Vec::new(),
    };
    let ghost old_layer = layer@;
    if (sector_number as usize) < layer.len() {
        layer.set(sector_number as usize, *root);
    } else {
        while layer.len() < sector_number as usize
            invariant
                old_layer.len() <= layer@.len() <= sector_number,
                sector_number < 256,
                forall|s: int| 0 <= s < old_layer.len() ==> layer@[s] == old_layer[s],
                forall|s: int| old_layer.len() <= s < layer@.len() ==> layer@[s] == *fill,
            decreases sector_number - layer@.len(),
        {
            layer.push(*fill);
        }
        layer.push(*root);
    }
    store.put_merkle_cache(key, &layer);
    Ok(())
}

/// The packed canopy layer cached for `addr`.
pub open spec fn packed_layer_of(store: SpoolStore, addr: [u8; 32]) -> Option<Seq<[u8; 32]>> {
    store.spec_cache_of(
        MerkleCacheKey::PackedSpoolLayer { address: addr, layer: SECTOR_TREE_HEIGHT as u8 },
    )
}

/// A position in a sector's leaf range has that sector as its quotient.
proof fn lemma_range_quotient_canopy(s: int, k: int)
    requires
        s >= 0,
        s * SECTOR_LEAVES <= k < (s + 1) * SECTOR_LEAVES,
    ensures
        k / SECTOR_LEAVES as int == s,
{
    lemma2_to64();
    assert(pow2(SECTOR_TREE_HEIGHT as nat) == 1024);
    crate::merkle::lemma_range_quotient(SECTOR_TREE_HEIGHT as nat, s, k);
}

/// A sector whose leaf range holds no stored segment has the zero-frontier
/// node value.
proof fn lemma_sector_node_empty(store: SpoolStore, miner: Seq<u8>, addr: [u8; 32], q: int)
    requires
        q >= 0,
        forall|k: u64|
            q * SECTOR_LEAVES <= k < (q + 1) * SECTOR_LEAVES ==> #[trigger] store.spec_seg_of(
                addr@,
                k,
            ) is None,
    ensures
        node_at(store_leaves(store, miner, addr@), spool_z0(addr@), SECTOR_TREE_HEIGHT as nat, q)
            == zero_at(spool_z0(addr@), SECTOR_TREE_HEIGHT as nat),
{
    let full = store_leaves(store, miner, addr@);
    let z0 = spool_z0(addr@);
    let e = Seq::<Seq<u8>>::empty();
    lemma2_to64();
    assert(pow2(SECTOR_TREE_HEIGHT as nat) == 1024);
    assert(pow2(SEGMENT_TREE_HEIGHT as nat) == 262144);
    assert forall|k: int|
        q * pow2(SECTOR_TREE_HEIGHT as nat) as int <= k < (q + 1) * pow2(
            SECTOR_TREE_HEIGHT as nat,
        ) as int implies leaf_or_zero(full, z0, k) == leaf_or_zero(e, z0, k) by {
        assert(leaf_or_zero(e, z0, k) == zero_at(z0, 0));
        if 0 <= k < full.len() {
            assert(k <= u64::MAX) by (nonlinear_arith)
                requires
                    k < 262144,
            ;
            assert(store.spec_seg_of(addr@, k as u64) is None);
            assert(full[k] == spec_unpacked_leaf(store, miner, addr@, k as u64));
        }
    }
    lemma_node_agree(full, e, z0, SECTOR_TREE_HEIGHT as nat, q);
    lemma_node_empty(e, z0, SECTOR_TREE_HEIGHT as nat, q);
}

/// The packed twin: an empty sector's packed node is the zero-frontier
/// value.
proof fn lemma_sector_node_empty_packed(store: SpoolStore, addr: [u8; 32], q: int)
    requires
        q >= 0,
        forall|k: u64|
            q * SECTOR_LEAVES <= k < (q + 1) * SECTOR_LEAVES ==> #[trigger] store.spec_seg_of(
                addr@,
                k,
            ) is None,
    ensures
        node_at(store_packed_leaves(store, addr@), spool_z0(addr@), SECTOR_TREE_HEIGHT as nat, q)
            == zero_at(spool_z0(addr@), SECTOR_TREE_HEIGHT as nat),
{
    let full = store_packed_leaves(store, addr@);
    let z0 = spool_z0(addr@);
    let e = Seq::<Seq<u8>>::empty();
    lemma2_to64();
    assert(pow2(SECTOR_TREE_HEIGHT as nat) == 1024);
    assert(pow2(SEGMENT_TREE_HEIGHT as nat) == 262144);
    assert forall|k: int|
        q * pow2(SECTOR_TREE_HEIGHT as nat) as int <= k < (q + 1) * pow2(
            SECTOR_TREE_HEIGHT as nat,
        ) as int implies leaf_or_zero(full, z0, k) == leaf_or_zero(e, z0, k) by {
        assert(leaf_or_zero(e, z0, k) == zero_at(z0, 0));
        if 0 <= k < full.len() {
            assert(k <= u64::MAX) by (nonlinear_arith)
                requires
                    k < 262144,
            ;
            assert(store.spec_seg_of(addr@, k as u64) is None);
            assert(full[k] == spec_packed_leaf(store, addr@, k as u64));
        }
    }
    lemma_node_agree(full, e, z0, SECTOR_TREE_HEIGHT as nat, q);
    lemma_node_empty(e, z0, SECTOR_TREE_HEIGHT as nat, q);
}

/// Refreshes both canopies for one sector: recomputes the sector's
/// unpacked and packed roots from stored leaves and writes them into the
/// cached layers.
pub fn update_merkle_canopy_for_sector(
    store: &mut SpoolStore,
    miner_address: &[u8; 32],
    spool_address: &[u8; 32],
    sector_number: u64,
) -> (r: Result<(), SpoolError>)
    requires
        old(store).wf(),
        zeros_cache_ok(*old(store)),
        canopy_ok_except(*old(store), miner_address@, *spool_address, sector_number as int),
        packed_canopy_ok_except(*old(store), *spool_address, sector_number as int),
        sector_number < 256,
    ensures
        final(store).wf(),
        zeros_cache_ok(*final(store)),
        final(store).pairs@ == old(store).pairs@,
        final(store).segments@ == old(store).segments@,
        r is Ok,
        ({
            // both layers exist afterwards, grown to cover the sector and
            // otherwise of unchanged length: a second run with the same
            // store leaves them identical
            let len0 = match unpacked_layer_of(*old(store), *spool_address) {
                Some(layer) => layer.len() as int,
                None => 0int,
            };
            let len2 = if sector_number < len0 {
                len0
            } else {
                sector_number + 1
            };
            let len0p = match packed_layer_of(*old(store), *spool_address) {
                Some(layer) => layer.len() as int,
                None => 0int,
            };
            let len2p = if sector_number < len0p {
                len0p
            } else {
                sector_number + 1
            };
            &&& (match unpacked_layer_of(*final(store), *spool_address) {
                Some(layer) => layer.len() == len2,
                None => false,
            })
            &&& (match packed_layer_of(*final(store), *spool_address) {
                Some(layer) => layer.len() == len2p && layer.len() <= 256,
                None => false,
            })
            // every entry outside the refreshed sector keeps its value, and
            // entries seeded to fill a gap hold the empty sector's node
            &&& (match (
                unpacked_layer_of(*old(store), *spool_address),
                unpacked_layer_of(*final(store), *spool_address),
            ) {
                (Some(l0), Some(l2)) => (forall|s: int|
                    0 <= s < l0.len() && s != sector_number ==> l2[s] == l0[s]) && (forall|s: int|
                    l0.len() <= s < l2.len() && s != sector_number ==> l2[s]@ == zero_at(
                        spool_z0(spool_address@),
                        SECTOR_TREE_HEIGHT as nat,
                    )),
                (None, Some(l2)) => forall|s: int|
                    0 <= s < l2.len() && s != sector_number ==> l2[s]@ == zero_at(
                        spool_z0(spool_address@),
                        SECTOR_TREE_HEIGHT as nat,
                    ),
                _ => false,
            })
            &&& (match (
                packed_layer_of(*old(store), *spool_address),
                packed_layer_of(*final(store), *spool_address),
            ) {
                (Some(l0), Some(l2)) => (forall|s: int|
                    0 <= s < l0.len() && s != sector_number ==> l2[s] == l0[s]) && (forall|s: int|
                    l0.len() <= s < l2.len() && s != sector_number ==> l2[s]@ == zero_at(
                        spool_z0(spool_address@),
                        SECTOR_TREE_HEIGHT as nat,
                    )),
                (None, Some(l2)) => forall|s: int|
                    0 <= s < l2.len() && s != sector_number ==> l2[s]@ == zero_at(
                        spool_z0(spool_address@),
                        SECTOR_TREE_HEIGHT as nat,
                    ),
                _ => false,
            })
            // the refreshed entry is truthful; only sectors beyond this one
            // can still be stale
            &&& canopy_ok_except(
                *final(store),
                miner_address@,
                *spool_address,
                sector_number as int + 1,
            )
            &&& packed_canopy_ok_except(*final(store), *spool_address, sector_number as int + 1)
            // once a layer covers every stored segment it is fully truthful
            &&& ((forall|k: u64|
                #[trigger] old(store).spec_seg_of(spool_address@, k) is Some ==> (k as int
                    / SECTOR_LEAVES as int) < len2) ==> canopy_ok(
                *final(store),
                miner_address@,
                *spool_address,
            ))
            &&& ((forall|k: u64|
                #[trigger] old(store).spec_seg_of(spool_address@, k) is Some ==> (k as int
                    / SECTOR_LEAVES as int) < len2p) ==> packed_canopy_ok(
                *final(store),
                *spool_address,
            ))
        }),
        forall|k: MerkleCacheKey|
            (!key_eq(k, MerkleCacheKey::ZeroValues { address: *spool_address }) && !key_eq(
                k,
                MerkleCacheKey::UnpackedSpoolLayer {
                    address: *spool_address,
                    layer: SECTOR_TREE_HEIGHT as u8,
                },
            ) && !key_eq(
                k,
                MerkleCacheKey::PackedSpoolLayer {
                    address: *spool_address,
                    layer: SECTOR_TREE_HEIGHT as u8,
                },
            )) ==> #[trigger] final(store).spec_cache_of(k) == old(store).spec_cache_of(k),
{
    let ghost z0 = spool_z0(spool_address@);
    let ghost miner = miner_address@;
    let ghost addr = *spool_address;
    let ghost full = store_leaves(*old(store), miner, addr@);
    let ghost fullp = store_packed_leaves(*old(store), addr@);

    let empty_hashes = get_or_create_empty_hashes(store, spool_address);
    let empty_leaf = empty_hashes[0];
    proof {
        assert(zero_at(z0, 0) == z0);
        assert(store_leaves(*store, miner, addr@) =~= full);
        assert(store_packed_leaves(*store, addr@) =~= fullp);
        assert(unpacked_layer_of(*store, addr) == unpacked_layer_of(*old(store), addr));
        assert(packed_layer_of(*store, addr) == packed_layer_of(*old(store), addr));
    }
    let leaves_unpacked = compute_sector_leaves_unpacked(
        store,
        miner_address,
        spool_address,
        sector_number,
        &empty_leaf,
    );
    let leaves_packed = compute_sector_leaves_packed(
        store,
        spool_address,
        sector_number,
        &empty_leaf,
    );
    let root_unpacked = compute_sector_root(&leaves_unpacked, &empty_hashes, Ghost(z0));
    let root_packed = compute_sector_root(&leaves_packed, &empty_hashes, Ghost(z0));
    proof {
        // the sector root computed from the sector's own leaves is the
        // sector node of the full layer
        lemma2_to64();
        assert(pow2(SECTOR_TREE_HEIGHT as nat) == 1024);
        assert(pow2(SEGMENT_TREE_HEIGHT as nat) == 262144);
        assert(pow2(0) == 1);
        let sub = views32(leaves_unpacked@);
        assert forall|k: int|
            0 <= k < pow2(SECTOR_TREE_HEIGHT as nat) implies #[trigger] leaf_or_zero(sub, z0, k)
            == leaf_or_zero(full, z0, sector_number * pow2(SECTOR_TREE_HEIGHT as nat) as int + k) by {
            assert(sub[k] == leaves_unpacked@[k]@);
            let pos = sector_number * 1024 + k;
            assert(sector_number * 1024 <= 255 * 1024);
            assert(0 <= pos < 262144);
            assert(full[pos] == spec_unpacked_leaf(*store, miner, addr@, pos as u64));
        }
        lemma_node_slice(full, sub, z0, SECTOR_TREE_HEIGHT as nat, sector_number as int,
            SECTOR_TREE_HEIGHT as nat, 0);
        assert(sector_number as int * pow2(0) as int + 0 == sector_number as int)
            by (nonlinear_arith)
            requires
                pow2(0) == 1,
        ;
        assert(root_unpacked@ == node_at(full, z0, SECTOR_TREE_HEIGHT as nat,
            sector_number as int));
        // and the same for the packed sector root
        let subp = views32(leaves_packed@);
        assert forall|k: int|
            0 <= k < pow2(SECTOR_TREE_HEIGHT as nat) implies #[trigger] leaf_or_zero(subp, z0, k)
            == leaf_or_zero(fullp, z0, sector_number * pow2(SECTOR_TREE_HEIGHT as nat) as int + k) by {
            assert(subp[k] == leaves_packed@[k]@);
            let pos = sector_number * 1024 + k;
            assert(sector_number * 1024 <= 255 * 1024);
            assert(0 <= pos < 262144);
            assert(fullp[pos] == spec_packed_leaf(*store, addr@, pos as u64));
        }
        lemma_node_slice(fullp, subp, z0, SECTOR_TREE_HEIGHT as nat, sector_number as int,
            SECTOR_TREE_HEIGHT as nat, 0);
        assert(root_packed@ == node_at(fullp, z0, SECTOR_TREE_HEIGHT as nat,
            sector_number as int));
    }
    let unpacked_key = MerkleCacheKey::UnpackedSpoolLayer {
        address: *spool_address,
        layer: SECTOR_TREE_HEIGHT as u8,
    };
    let packed_key = MerkleCacheKey::PackedSpoolLayer {
        address: *spool_address,
        layer: SECTOR_TREE_HEIGHT as u8,
    };
    let sector_zero = empty_hashes[SECTOR_TREE_HEIGHT];
    let ghost store_before = *store;
    let res1 = update_sector_canopy_with_key(
        store,
        sector_number,
        &root_unpacked,
        &unpacked_key,
        &sector_zero,
    );
    proof {
        assert(store.segments@ == old(store).segments@);
        assert(store_leaves(*store, miner, addr@) =~= full);
        lemma_cache_same_key(
            store_before,
            unpacked_key,
            MerkleCacheKey::UnpackedSpoolLayer { address: addr, layer: SECTOR_TREE_HEIGHT as u8 },
        );
        lemma_cache_same_key(
            *store,
            unpacked_key,
            MerkleCacheKey::UnpackedSpoolLayer { address: addr, layer: SECTOR_TREE_HEIGHT as u8 },
        );
    }
    let ghost store_mid = *store;
    let res2 = update_sector_canopy_with_key(
        store,
        sector_number,
        &root_packed,
        &packed_key,
        &sector_zero,
    );
    proof {
        assert(store.segments@ == old(store).segments@);
        assert(store_leaves(*store, miner, addr@) =~= full);
        assert(store_packed_leaves(*store, addr@) =~= fullp);
        // the unpacked layer survives the packed-layer write
        assert(!key_eq(unpacked_key, packed_key));
        assert(unpacked_layer_of(*store, addr) == unpacked_layer_of(store_mid, addr)) by {
            lemma_cache_same_key(
                *store,
                unpacked_key,
                MerkleCacheKey::UnpackedSpoolLayer {
                    address: addr,
                    layer: SECTOR_TREE_HEIGHT as u8,
                },
            );
            lemma_cache_same_key(
                store_mid,
                unpacked_key,
                MerkleCacheKey::UnpackedSpoolLayer {
                    address: addr,
                    layer: SECTOR_TREE_HEIGHT as u8,
                },
            );
        }
        lemma_cache_same_key(
            *store,
            packed_key,
            MerkleCacheKey::PackedSpoolLayer { address: addr, layer: SECTOR_TREE_HEIGHT as u8 },
        );
        // every entry of the refreshed unpacked layer is truthful
        let old_layer = match unpacked_layer_of(*old(store), addr) {
            Some(layer) => layer,
            None => Seq::<[u8; 32]>::empty(),
        };
        assert(store_before.spec_cache_of(unpacked_key) == unpacked_layer_of(*old(store), addr));
        let layer1 = store_mid.spec_cache_of(unpacked_key).unwrap();
        assert(unpacked_layer_of(*store, addr) == store_mid.spec_cache_of(unpacked_key));
        let layer2 = unpacked_layer_of(*store, addr).unwrap();
        assert(layer2 == layer1);
        assert(layer2.len() == if sector_number < old_layer.len() {
            old_layer.len() as int
        } else {
            sector_number + 1
        });
        assert forall|s: int| 0 <= s < layer2.len() implies layer2[s]@ == node_at(
            full,
            z0,
            SECTOR_TREE_HEIGHT as nat,
            s,
        ) by {
            if s == sector_number {
                assert(layer2[s] == root_unpacked);
            } else if s < old_layer.len() {
                assert(layer2[s] == old_layer[s]);
                assert(old_layer[s]@ == node_at(full, z0, SECTOR_TREE_HEIGHT as nat, s));
            } else {
                // a gap entry: its sector holds no segment, so the seeded
                // zero-frontier value is its true node
                assert(layer2[s] == sector_zero);
                assert forall|k: u64|
                    s * SECTOR_LEAVES <= k < (s + 1) * SECTOR_LEAVES implies #[trigger] store
                    .spec_seg_of(addr@, k) is None by {
                    if store.spec_seg_of(addr@, k) is Some {
                        assert(old(store).spec_seg_of(addr@, k) is Some);
                        lemma_range_quotient_canopy(s, k as int);
                        assert(k < old_layer.len() * SECTOR_LEAVES || k as int
                            / SECTOR_LEAVES as int >= sector_number);
                        assert(old_layer.len() * SECTOR_LEAVES <= s * SECTOR_LEAVES)
                            by (nonlinear_arith)
                            requires
                                old_layer.len() <= s,
                                SECTOR_LEAVES > 0,
                        ;
                    }
                }
                lemma_sector_node_empty(*store, miner, addr, s);
            }
        }
        // and of the packed layer
        let old_playerv = match packed_layer_of(*old(store), addr) {
            Some(layer) => layer,
            None => Seq::<[u8; 32]>::empty(),
        };
        assert(store_mid.spec_cache_of(packed_key) == packed_layer_of(*old(store), addr)) by {
            lemma_cache_same_key(
                store_mid,
                packed_key,
                MerkleCacheKey::PackedSpoolLayer {
                    address: addr,
                    layer: SECTOR_TREE_HEIGHT as u8,
                },
            );
            lemma_cache_same_key(
                store_before,
                packed_key,
                MerkleCacheKey::PackedSpoolLayer {
                    address: addr,
                    layer: SECTOR_TREE_HEIGHT as u8,
                },
            );
        }
        let player2 = packed_layer_of(*store, addr).unwrap();
        assert(player2.len() == if sector_number < old_playerv.len() {
            old_playerv.len() as int
        } else {
            sector_number + 1
        });
        assert forall|s: int| 0 <= s < player2.len() implies player2[s]@ == node_at(
            fullp,
            z0,
            SECTOR_TREE_HEIGHT as nat,
            s,
        ) by {
            if s == sector_number {
                assert(player2[s] == root_packed);
            } else if s < old_playerv.len() {
                assert(player2[s] == old_playerv[s]);
                assert(old_playerv[s]@ == node_at(fullp, z0, SECTOR_TREE_HEIGHT as nat, s));
            } else {
                assert(player2[s] == sector_zero);
                assert forall|k: u64|
                    s * SECTOR_LEAVES <= k < (s + 1) * SECTOR_LEAVES implies #[trigger] store
                    .spec_seg_of(addr@, k) is None by {
                    if store.spec_seg_of(addr@, k) is Some {
                        assert(old(store).spec_seg_of(addr@, k) is Some);
                        lemma_range_quotient_canopy(s, k as int);
                        assert(k < old_playerv.len() * SECTOR_LEAVES || k as int
                            / SECTOR_LEAVES as int >= sector_number);
                        assert(old_playerv.len() * SECTOR_LEAVES <= s * SECTOR_LEAVES)
                            by (nonlinear_arith)
                            requires
                                old_playerv.len() <= s,
                                SECTOR_LEAVES > 0,
                        ;
                    }
                }
                lemma_sector_node_empty_packed(*store, addr, s);
            }
        }
        // coverage, for each layer and in each form
        let len2 = layer2.len() as int;
        let len2p = player2.len() as int;
        assert forall|k: u64| #[trigger] store.spec_seg_of(addr@, k) is Some implies k
            < layer2.len() * SECTOR_LEAVES || k as int / SECTOR_LEAVES as int >= sector_number
            + 1 by {
            assert(old(store).spec_seg_of(addr@, k) is Some);
            let ki = k as int;
            let sl = SECTOR_LEAVES as int;
            vstd::arithmetic::div_mod::lemma_fundamental_div_mod(ki, sl);
            vstd::arithmetic::div_mod::lemma_mod_bound(ki, sl);
            if k < old_layer.len() * SECTOR_LEAVES {
                assert(old_layer.len() <= layer2.len());
                assert(old_layer.len() * SECTOR_LEAVES <= layer2.len() * SECTOR_LEAVES)
                    by (nonlinear_arith)
                    requires
                        old_layer.len() <= layer2.len(),
                        SECTOR_LEAVES > 0,
                ;
            } else if ki / sl == sector_number {
                assert(ki < (sector_number + 1) * sl) by (nonlinear_arith)
                    requires
                        ki == sl * (ki / sl) + (ki % sl),
                        0 <= ki % sl,
                        ki % sl < sl,
                        ki / sl == sector_number,
                ;
                assert((sector_number + 1) as int * SECTOR_LEAVES as int <= layer2.len()
                    * SECTOR_LEAVES) by (nonlinear_arith)
                    requires
                        sector_number + 1 <= layer2.len(),
                        SECTOR_LEAVES > 0,
                ;
            } else {
                assert(ki / sl >= sector_number);
            }
        }
        assert forall|k: u64| #[trigger] store.spec_seg_of(addr@, k) is Some implies k
            < player2.len() * SECTOR_LEAVES || k as int / SECTOR_LEAVES as int >= sector_number
            + 1 by {
            assert(old(store).spec_seg_of(addr@, k) is Some);
            let ki = k as int;
            let sl = SECTOR_LEAVES as int;
            vstd::arithmetic::div_mod::lemma_fundamental_div_mod(ki, sl);
            vstd::arithmetic::div_mod::lemma_mod_bound(ki, sl);
            if k < old_playerv.len() * SECTOR_LEAVES {
                assert(old_playerv.len() <= player2.len());
                assert(old_playerv.len() * SECTOR_LEAVES <= player2.len() * SECTOR_LEAVES)
                    by (nonlinear_arith)
                    requires
                        old_playerv.len() <= player2.len(),
                        SECTOR_LEAVES > 0,
                ;
            } else if ki / sl == sector_number {
                assert(ki < (sector_number + 1) * sl) by (nonlinear_arith)
                    requires
                        ki == sl * (ki / sl) + (ki % sl),
                        0 <= ki % sl,
                        ki % sl < sl,
                        ki / sl == sector_number,
                ;
                assert((sector_number + 1) as int * SECTOR_LEAVES as int <= player2.len()
                    * SECTOR_LEAVES) by (nonlinear_arith)
                    requires
                        sector_number + 1 <= player2.len(),
                        SECTOR_LEAVES > 0,
                ;
            } else {
                assert(ki / sl >= sector_number);
            }
        }
        if forall|k: u64|
            #[trigger] old(store).spec_seg_of(addr@, k) is Some ==> (k as int
                / SECTOR_LEAVES as int) < len2 {
            assert forall|k: u64| #[trigger] store.spec_seg_of(addr@, k) is Some implies k
                < layer2.len() * SECTOR_LEAVES by {
                assert(old(store).spec_seg_of(addr@, k) is Some);
                let ki = k as int;
                let sl = SECTOR_LEAVES as int;
                vstd::arithmetic::div_mod::lemma_fundamental_div_mod(ki, sl);
                vstd::arithmetic::div_mod::lemma_mod_bound(ki, sl);
                assert(ki / sl < len2);
                assert(ki < len2 * sl) by (nonlinear_arith)
                    requires
                        ki == sl * (ki / sl) + (ki % sl),
                        0 <= ki % sl,
                        ki % sl < sl,
                        ki / sl < len2,
                        sl > 0,
                ;
            }
            assert(canopy_ok(*store, miner, addr));
        }
        if forall|k: u64|
            #[trigger] old(store).spec_seg_of(addr@, k) is Some ==> (k as int
                / SECTOR_LEAVES as int) < len2p {
            assert forall|k: u64| #[trigger] store.spec_seg_of(addr@, k) is Some implies k
                < player2.len() * SECTOR_LEAVES by {
                assert(old(store).spec_seg_of(addr@, k) is Some);
                let ki = k as int;
                let sl = SECTOR_LEAVES as int;
                vstd::arithmetic::div_mod::lemma_fundamental_div_mod(ki, sl);
                vstd::arithmetic::div_mod::lemma_mod_bound(ki, sl);
                assert(ki / sl < len2p);
                assert(ki < len2p * sl) by (nonlinear_arith)
                    requires
                        ki == sl * (ki / sl) + (ki % sl),
                        0 <= ki % sl,
                        ki % sl < sl,
                        ki / sl < len2p,
                        sl > 0,
                ;
            }
            assert(packed_canopy_ok(*store, addr));
        }
    }
    Ok(())
}

/// Refreshes the canopies for the sector holding one segment.
pub fn update_merkle_canopy_for_segment(
    store: &mut SpoolStore,
    miner_address: &[u8; 32],
    spool_address: &[u8; 32],
    segment_number: u64,
) -> (r: Result<(), SpoolError>)
    requires
        old(store).wf(),
        zeros_cache_ok(*old(store)),
        canopy_ok_except(
            *old(store),
            miner_address@,
            *spool_address,
            segment_number as int / SECTOR_LEAVES as int,
        ),
        packed_canopy_ok_except(
            *old(store),
            *spool_address,
            segment_number as int / SECTOR_LEAVES as int,
        ),
        segment_number < 262144,
    ensures
        final(store).wf(),
        zeros_cache_ok(*final(store)),
        final(store).pairs@ == old(store).pairs@,
        final(store).segments@ == old(store).segments@,
        r is Ok,
        ({
            let sector = segment_number as int / SECTOR_LEAVES as int;
            let len0 = match unpacked_layer_of(*old(store), *spool_address) {
                Some(layer) => layer.len() as int,
                None => 0int,
            };
            let len2 = if sector < len0 {
                len0
            } else {
                sector + 1
            };
            let len0p = match packed_layer_of(*old(store), *spool_address) {
                Some(layer) => layer.len() as int,
                None => 0int,
            };
            let len2p = if sector < len0p {
                len0p
            } else {
                sector + 1
            };
            &&& (match unpacked_layer_of(*final(store), *spool_address) {
                Some(layer) => layer.len() == len2,
                None => false,
            })
            &&& (match packed_layer_of(*final(store), *spool_address) {
                Some(layer) => layer.len() == len2p && layer.len() <= 256,
                None => false,
            })
            &&& ((forall|k: u64|
                #[trigger] old(store).spec_seg_of(spool_address@, k) is Some ==> (k as int
                    / SECTOR_LEAVES as int) < len2) ==> canopy_ok(
                *final(store),
                miner_address@,
                *spool_address,
            ))
            &&& ((forall|k: u64|
                #[trigger] old(store).spec_seg_of(spool_address@, k) is Some ==> (k as int
                    / SECTOR_LEAVES as int) < len2p) ==> packed_canopy_ok(
                *final(store),
                *spool_address,
            ))
        }),
{
    let sector_number = segment_number / (SECTOR_LEAVES as u64);
    proof {
        assert(sector_number < 256) by (nonlinear_arith)
            requires
                segment_number < 262144,
                sector_number == segment_number as int / SECTOR_LEAVES as int,
                SECTOR_LEAVES == 1024,
        ;
        if segment_number < SECTOR_LEAVES {
            assert(sector_number == 0) by (nonlinear_arith)
                requires
                    segment_number < SECTOR_LEAVES,
                    sector_number == segment_number as int / SECTOR_LEAVES as int,
                    SECTOR_LEAVES == 1024,
            ;
        }
    }
    update_merkle_canopy_for_sector(store, miner_address, spool_address, sector_number)
}

/// Rebuilds a spool's root from its cached canopy: a tree of the upper
/// levels, seeded with the sector-level zero value, grown from the cached
/// sector roots.
pub fn get_spool_root(store: &mut SpoolStore, spool_address: &[u8; 32]) -> (r: Result<
    [u8; 32],
    SpoolError,
>)
    requires
        old(store).wf(),
        zeros_cache_ok(*old(store)),
        match unpacked_layer_of(*old(store), *spool_address) {
            Some(layer) => layer.len() <= 256,
            None => true,
        },
    ensures
        final(store).wf(),
        zeros_cache_ok(*final(store)),
        final(store).pairs@ == old(store).pairs@,
        final(store).segments@ == old(store).segments@,
        forall|k: MerkleCacheKey|
            !key_eq(k, MerkleCacheKey::ZeroValues { address: *spool_address })
                ==> #[trigger] final(store).spec_cache_of(k) == old(store).spec_cache_of(k),
        match unpacked_layer_of(*old(store), *spool_address) {
            Some(layer) => r matches Ok(root) && root@ == crate::merkle::tracked_root(
                views32(layer),
                zero_at(spool_z0(spool_address@), SECTOR_TREE_HEIGHT as nat),
                (SEGMENT_TREE_HEIGHT - SECTOR_TREE_HEIGHT) as nat,
            ),
            None => r is Err,
        },
{
    let ghost z0 = spool_z0(spool_address@);
    let ghost zc = zero_at(z0, SECTOR_TREE_HEIGHT as nat);
    let zeros_full = get_or_create_empty_hashes(store, spool_address);
    let mut canopy_zeros: Vec<[u8; 32]> = Vec::new();
    let mut i: usize = SECTOR_TREE_HEIGHT;
    while i < SEGMENT_TREE_HEIGHT
        invariant
            SECTOR_TREE_HEIGHT <= i <= SEGMENT_TREE_HEIGHT,
            zeros_full@.len() == SEGMENT_TREE_HEIGHT,
            forall|j: int|
                0 <= j < zeros_full@.len() ==> zeros_full@[j]@ == zero_at(z0, j as nat),
            canopy_zeros@.len() == i - SECTOR_TREE_HEIGHT,
            zc == zero_at(z0, SECTOR_TREE_HEIGHT as nat),
            z0 == spool_z0(spool_address@),
            forall|j: int|
                0 <= j < canopy_zeros@.len() ==> canopy_zeros@[j]@ == zero_at(zc, j as nat),
        decreases SEGMENT_TREE_HEIGHT - i,
    {
        let v = zeros_full[i];
        proof {
            crate::merkle::lemma_zero_shift(
                z0,
                SECTOR_TREE_HEIGHT as nat,
                (i - SECTOR_TREE_HEIGHT) as nat,
            );
            assert(SECTOR_TREE_HEIGHT as nat + (i - SECTOR_TREE_HEIGHT) as nat == i as nat);
            assert(v@ == zero_at(zc, (i - SECTOR_TREE_HEIGHT) as nat));
        }
        canopy_zeros.push(v);
        i = i + 1;
    }
    let key = MerkleCacheKey::UnpackedSpoolLayer {
        address: *spool_address,
        layer: SECTOR_TREE_HEIGHT as u8,
    };
    let sector_roots = match store.get_merkle_cache(&key) {
        Ok(v) => v,
        Err(e) => {
            proof {
                lemma_cache_same_key(
                    *store,
                    key,
                    MerkleCacheKey::UnpackedSpoolLayer {
                        address: *spool_address,
                        layer: SECTOR_TREE_HEIGHT as u8,
                    },
                );
            }
            return Err(e);
        },
    };
    proof {
        lemma_cache_same_key(
            *store,
            key,
            MerkleCacheKey::UnpackedSpoolLayer {
                address: *spool_address,
                layer: SECTOR_TREE_HEIGHT as u8,
            },
        );
        vstd::arithmetic::power2::lemma2_to64();
        assert(pow2((SEGMENT_TREE_HEIGHT - SECTOR_TREE_HEIGHT) as nat) == 256);
    }
    let mut canopy = crate::merkle::MerkleTree::from_zeros(&canopy_zeros, Ghost(zc));
    let n = sector_roots.len();
    let mut t: usize = 0;
    while t < n
        invariant
            t <= n,
            n == sector_roots@.len(),
            n <= 256,
            canopy.wf(),
            canopy.synced(),
            canopy.height == SEGMENT_TREE_HEIGHT - SECTOR_TREE_HEIGHT,
            canopy.capacity == 256,
            canopy.empty_value() == zc,
            canopy.leaves() =~= views32(sector_roots@.subrange(0, t as int)),
        decreases n - t,
    {
        let leaf = sector_roots[t];
        proof {
            assert(canopy.leaves().len() == t);
        }
        let res = canopy.try_add_leaf(&leaf);
        if res.is_err() {
            proof {
                assert(false);
            }
            return Err(SpoolError::SpoolNotFound);
        }
        proof {
            assert(canopy.leaves() =~= views32(sector_roots@.subrange(0, t as int + 1)));
        }
        t = t + 1;
    }
    proof {
        assert(sector_roots@.subrange(0, n as int) =~= sector_roots@);
    }
    Ok(canopy.get_root())
}

/// Under a truthful canopy, the sectors beyond the cached layer are empty
/// and canopy nodes compute the full tree's higher nodes.
proof fn lemma_canopy_covers(store: SpoolStore, miner: Seq<u8>, addr: [u8; 32])
    requires
        canopy_ok(store, miner, addr),
        unpacked_layer_of(store, addr) is Some,
    ensures
        forall|q: int|
            q >= views32(unpacked_layer_of(store, addr).unwrap()).len() ==> #[trigger] node_at(
                store_leaves(store, miner, addr@),
                spool_z0(addr@),
                SECTOR_TREE_HEIGHT as nat,
                q,
            ) == zero_at(spool_z0(addr@), SECTOR_TREE_HEIGHT as nat),
{
    let layer = unpacked_layer_of(store, addr).unwrap();
    let canopy = views32(layer);
    let full = store_leaves(store, miner, addr@);
    let z0 = spool_z0(addr@);
    lemma2_to64();
    assert forall|q: int| q >= canopy.len() implies #[trigger] node_at(
        full,
        z0,
        SECTOR_TREE_HEIGHT as nat,
        q,
    ) == zero_at(z0, SECTOR_TREE_HEIGHT as nat) by {
        assert forall|k: u64|
            q * SECTOR_LEAVES <= k < (q + 1) * SECTOR_LEAVES implies #[trigger] store.spec_seg_of(
            addr@,
            k,
        ) is None by {
            if store.spec_seg_of(addr@, k) is Some {
                assert(k < layer.len() * SECTOR_LEAVES);
                assert(layer.len() * SECTOR_LEAVES <= q * SECTOR_LEAVES) by (nonlinear_arith)
                    requires
                        layer.len() <= q,
                        SECTOR_LEAVES > 0,
                ;
            }
        }
        lemma_sector_node_empty(store, miner, addr, q);
    }
}

/// The spool root reconstructed from a truthful canopy is the root of the
/// full segment tree over the store's unpacked leaf layer.
pub proof fn lemma_spool_root_matches(store: SpoolStore, miner: Seq<u8>, addr: [u8; 32])
    requires
        canopy_ok(store, miner, addr),
        unpacked_layer_of(store, addr) is Some,
        unpacked_layer_of(store, addr).unwrap().len() >= 1,
    ensures
        crate::merkle::tracked_root(
            views32(unpacked_layer_of(store, addr).unwrap()),
            zero_at(spool_z0(addr@), SECTOR_TREE_HEIGHT as nat),
            (SEGMENT_TREE_HEIGHT - SECTOR_TREE_HEIGHT) as nat,
        ) == root_of(
            store_leaves(store, miner, addr@),
            spool_z0(addr@),
            SEGMENT_TREE_HEIGHT as nat,
        ),
{
    let layer = unpacked_layer_of(store, addr).unwrap();
    let canopy = views32(layer);
    let full = store_leaves(store, miner, addr@);
    let z0 = spool_z0(addr@);
    lemma2_to64();
    lemma_canopy_covers(store, miner, addr);
    crate::merkle::lemma_canopy_node(
        full,
        z0,
        SECTOR_TREE_HEIGHT as nat,
        canopy,
        (SEGMENT_TREE_HEIGHT - SECTOR_TREE_HEIGHT) as nat,
        0,
    );
    assert(SECTOR_TREE_HEIGHT as nat + (SEGMENT_TREE_HEIGHT - SECTOR_TREE_HEIGHT) as nat
        == SEGMENT_TREE_HEIGHT as nat);
}

/// One sector's unpacked leaves, as the store represents them.
pub open spec fn sector_leaf_views(
    store: SpoolStore,
    miner: Seq<u8>,
    addr: Seq<u8>,
    sector: int,
) -> Seq<Seq<u8>> {
    Seq::new(
        pow2(SECTOR_TREE_HEIGHT as nat),
        |i: int| spec_unpacked_leaf(store, miner, addr, (sector * SECTOR_LEAVES + i) as u64),
    )
}

/// A segment proof assembled from one sector's leaves and the canopy is
/// the true sibling path of the segment in the full tree.
#[verifier::rlimit(100)]
pub proof fn lemma_compose_segment_proof(
    store: SpoolStore,
    miner: Seq<u8>,
    addr: [u8; 32],
    segment: u64,
    lower: Seq<Seq<u8>>,
    upper: Seq<Seq<u8>>,
)
    requires
        canopy_ok(store, miner, addr),
        unpacked_layer_of(store, addr) is Some,
        segment < 262144,
        (segment as int / SECTOR_LEAVES as int) < unpacked_layer_of(store, addr).unwrap().len(),
        lower.len() == SECTOR_TREE_HEIGHT,
        forall|j: int|
            0 <= j < SECTOR_TREE_HEIGHT ==> lower[j] == node_at(
                sector_leaf_views(store, miner, addr@, segment as int / SECTOR_LEAVES as int),
                spool_z0(addr@),
                j as nat,
                crate::merkle::sib(
                    (segment as int % SECTOR_LEAVES as int) / #[trigger] pow2(j as nat) as int,
                ),
            ),
        upper.len() == SEGMENT_TREE_HEIGHT - SECTOR_TREE_HEIGHT,
        forall|j: int|
            0 <= j < SEGMENT_TREE_HEIGHT - SECTOR_TREE_HEIGHT ==> upper[j] == node_at(
                views32(unpacked_layer_of(store, addr).unwrap()),
                zero_at(spool_z0(addr@), SECTOR_TREE_HEIGHT as nat),
                j as nat,
                crate::merkle::sib(
                    (segment as int / SECTOR_LEAVES as int) / #[trigger] pow2(j as nat) as int,
                ),
            ),
    ensures
        crate::merkle::is_sibling_path(
            lower + upper,
            store_leaves(store, miner, addr@),
            spool_z0(addr@),
            segment as int,
            SEGMENT_TREE_HEIGHT as nat,
        ),
{
    let z0 = spool_z0(addr@);
    let zc = zero_at(z0, SECTOR_TREE_HEIGHT as nat);
    let full = store_leaves(store, miner, addr@);
    let layer = unpacked_layer_of(store, addr).unwrap();
    let canopy = views32(layer);
    let sector = segment as int / SECTOR_LEAVES as int;
    let rel = segment as int % SECTOR_LEAVES as int;
    let sub = sector_leaf_views(store, miner, addr@, sector);
    let whole = lower + upper;
    lemma2_to64();
    assert(pow2(SECTOR_TREE_HEIGHT as nat) == 1024);
    assert(pow2(SEGMENT_TREE_HEIGHT as nat) == 262144);
    vstd::arithmetic::div_mod::lemma_fundamental_div_mod(segment as int, SECTOR_LEAVES as int);
    vstd::arithmetic::div_mod::lemma_mod_bound(segment as int, SECTOR_LEAVES as int);
    assert(0 <= rel < 1024);
    assert(0 <= sector < 256);
    lemma_canopy_covers(store, miner, addr);
    // the sector's own leaves are the full layer's slice
    assert forall|k: int|
        0 <= k < pow2(SECTOR_TREE_HEIGHT as nat) implies #[trigger] leaf_or_zero(sub, z0, k)
        == leaf_or_zero(full, z0, sector * pow2(SECTOR_TREE_HEIGHT as nat) as int + k) by {
        let pos = sector * 1024 + k;
        assert(sector * 1024 <= 255 * 1024);
        assert(0 <= pos < 262144);
        assert(pos <= u64::MAX);
        assert(sub[k] == spec_unpacked_leaf(store, miner, addr@, pos as u64));
        assert(full[pos] == spec_unpacked_leaf(store, miner, addr@, pos as u64));
    }
    assert forall|j: int| 0 <= j < SEGMENT_TREE_HEIGHT implies whole[j] == node_at(
        full,
        z0,
        j as nat,
        crate::merkle::sib(segment as int / #[trigger] pow2(j as nat) as int),
    ) by {
        vstd::arithmetic::power2::lemma_pow2_pos(j as nat);
        if j < SECTOR_TREE_HEIGHT {
            let jn = j as nat;
            let up = (SECTOR_TREE_HEIGHT - j) as nat;
            let pj = pow2(jn) as int;
            let pu = pow2(up) as int;
            vstd::arithmetic::power2::lemma_pow2_pos(up);
            vstd::arithmetic::power2::lemma_pow2_adds(jn, up);
            assert(pj * pu == 1024);
            let rel_j = rel / pj;
            vstd::arithmetic::div_mod::lemma_fundamental_div_mod(rel, pj);
            vstd::arithmetic::div_mod::lemma_mod_bound(rel, pj);
            // the in-sector quotient is bounded by the sector's width
            assert(rel_j < pu) by (nonlinear_arith)
                requires
                    rel == pj * rel_j + rel % pj,
                    0 <= rel % pj,
                    rel < pj * pu,
                    pj > 0,
                    pu > 0,
            ;
            // the segment's quotient splits into sector and in-sector parts
            let q = sector * pu + rel_j;
            assert(segment as int == pj * q + rel % pj) by (nonlinear_arith)
                requires
                    segment as int == 1024 * sector + rel,
                    rel == pj * rel_j + rel % pj,
                    pj * pu == 1024,
                    q == sector * pu + rel_j,
            ;
            vstd::arithmetic::div_mod::lemma_fundamental_div_mod_converse(
                segment as int,
                pj,
                q,
                rel % pj,
            );
            assert(segment as int / pj == q);
            // the sector part is even, so the sibling step stays in-sector
            assert(pu % 2 == 0) by {
                vstd::arithmetic::power2::lemma_pow2_adds(1, (up - 1) as nat);
                vstd::arithmetic::power2::lemma_pow2_pos((up - 1) as nat);
                assert(pu == 2 * pow2((up - 1) as nat));
            }
            let half = pow2((up - 1) as nat) as int;
            assert(sector * pu == 2 * (sector * half)) by (nonlinear_arith)
                requires
                    pu == 2 * half,
            ;
            vstd::arithmetic::div_mod::lemma_mod_multiples_vanish(sector * half, rel_j, 2);
            assert(q % 2 == rel_j % 2);
            let sq = crate::merkle::sib(q);
            let sr = crate::merkle::sib(rel_j);
            assert(sq == sector * pu + sr);
            assert(0 <= sr);
            assert(sr + 1 <= pu) by {
                if rel_j % 2 == 0 {
                    assert(rel_j + 2 <= pu) by (nonlinear_arith)
                        requires
                            rel_j < pu,
                            rel_j % 2 == 0,
                            pu % 2 == 0,
                    ;
                } else {
                }
            }
            crate::merkle::lemma_node_slice(full, sub, z0, SECTOR_TREE_HEIGHT as nat, sector, jn, sr);
            assert(whole[j] == lower[j]);
        } else {
            let jc = (j - SECTOR_TREE_HEIGHT) as nat;
            let sector_j = sector / pow2(jc) as int;
            vstd::arithmetic::power2::lemma_pow2_pos(jc);
            vstd::arithmetic::power2::lemma_pow2_adds(SECTOR_TREE_HEIGHT as nat, jc);
            vstd::arithmetic::div_mod::lemma_div_denominator(
                segment as int,
                pow2(SECTOR_TREE_HEIGHT as nat) as int,
                pow2(jc) as int,
            );
            assert(segment as int / pow2(j as nat) as int == sector_j);
            assert(whole[j] == upper[j - SECTOR_TREE_HEIGHT]);
            assert(upper[j - SECTOR_TREE_HEIGHT] == node_at(
                canopy,
                zc,
                jc,
                crate::merkle::sib(sector_j),
            ));
            assert(crate::merkle::sib(sector_j) >= 0);
            crate::merkle::lemma_canopy_node(
                full,
                z0,
                SECTOR_TREE_HEIGHT as nat,
                canopy,
                jc,
                crate::merkle::sib(sector_j),
            );
            assert(SECTOR_TREE_HEIGHT as nat + jc == j as nat);
        }
    }
}

/// Produces the inclusion proof for one segment: the sibling path within
/// its sector, computed from stored leaves, followed by the sibling path
/// through the canopy of sector roots. Fails when the canopy does not
/// cover the segment's sector.
pub fn get_segment_proof(
    store: &mut SpoolStore,
    miner_address: &[u8; 32],
    spool_address: &[u8; 32],
    segment: u64,
) -> (r: Result<Vec<[u8; 32]>, SpoolError>)
    requires
        old(store).wf(),
        zeros_cache_ok(*old(store)),
        segment < 262144,
        match unpacked_layer_of(*old(store), *spool_address) {
            Some(layer) => layer.len() <= 256,
            None => true,
        },
    ensures
        final(store).wf(),
        zeros_cache_ok(*final(store)),
        final(store).pairs@ == old(store).pairs@,
        final(store).segments@ == old(store).segments@,
        forall|k: MerkleCacheKey|
            !key_eq(k, MerkleCacheKey::ZeroValues { address: *spool_address })
                ==> #[trigger] final(store).spec_cache_of(k) == old(store).spec_cache_of(k),
        match unpacked_layer_of(*old(store), *spool_address) {
            Some(layer) => if (segment as int / SECTOR_LEAVES as int) < layer.len() {
                r matches Ok(p) && p@.len() == SEGMENT_TREE_HEIGHT && (canopy_ok(
                    *final(store),
                    miner_address@,
                    *spool_address,
                ) ==> crate::merkle::is_sibling_path(
                    views32(p@),
                    store_leaves(*final(store), miner_address@, spool_address@),
                    spool_z0(spool_address@),
                    segment as int,
                    SEGMENT_TREE_HEIGHT as nat,
                ))
            } else {
                r is Err
            },
            None => r is Err,
        },
{
    let ghost z0 = spool_z0(spool_address@);
    let ghost zc = zero_at(z0, SECTOR_TREE_HEIGHT as nat);
    let zeros_full = get_or_create_empty_hashes(store, spool_address);
    let key = MerkleCacheKey::UnpackedSpoolLayer {
        address: *spool_address,
        layer: SECTOR_TREE_HEIGHT as u8,
    };
    proof {
        lemma_cache_same_key(
            *store,
            key,
            MerkleCacheKey::UnpackedSpoolLayer {
                address: *spool_address,
                layer: SECTOR_TREE_HEIGHT as u8,
            },
        );
    }
    let layer = match store.get_merkle_cache(&key) {
        Ok(v) => v,
        Err(e) => {
            return Err(e);
        },
    };
    let sector = segment / (SECTOR_LEAVES as u64);
    let rel = segment % (SECTOR_LEAVES as u64);
    proof {
        lemma2_to64();
        assert(sector < 256) by (nonlinear_arith)
            requires
                segment < 262144,
                sector == segment as int / SECTOR_LEAVES as int,
                SECTOR_LEAVES == 1024,
        ;
    }
    if (sector as usize) >= layer.len() {
        return Err(SpoolError::SegmentNotFoundForAddress);
    }
    let empty_leaf = zeros_full[0];
    let sector_leaves = compute_sector_leaves_unpacked(
        store,
        miner_address,
        spool_address,
        sector,
        &empty_leaf,
    );
    proof {
        assert(views32(sector_leaves@) =~= sector_leaf_views(
            *store,
            miner_address@,
            spool_address@,
            sector as int,
        )) by {
            assert forall|i: int| 0 <= i < 1024 implies views32(sector_leaves@)[i]
                == sector_leaf_views(*store, miner_address@, spool_address@, sector as int)[i] by {
                assert(views32(sector_leaves@)[i] == sector_leaves@[i]@);
            }
        }
    }
    let lower = crate::merkle::partial_sibling_path(
        &sector_leaves,
        &zeros_full,
        rel,
        SECTOR_TREE_HEIGHT,
        Ghost(z0),
    );
    let mut canopy_zeros: Vec<[u8; 32]> = Vec::new();
    let mut i: usize = SECTOR_TREE_HEIGHT;
    while i < SEGMENT_TREE_HEIGHT
        invariant
            SECTOR_TREE_HEIGHT <= i <= SEGMENT_TREE_HEIGHT,
            zeros_full@.len() == SEGMENT_TREE_HEIGHT,
            forall|j: int| 0 <= j < zeros_full@.len() ==> zeros_full@[j]@ == zero_at(z0, j as nat),
            canopy_zeros@.len() == i - SECTOR_TREE_HEIGHT,
            zc == zero_at(z0, SECTOR_TREE_HEIGHT as nat),
            z0 == spool_z0(spool_address@),
            forall|j: int|
                0 <= j < canopy_zeros@.len() ==> canopy_zeros@[j]@ == zero_at(zc, j as nat),
        decreases SEGMENT_TREE_HEIGHT - i,
    {
        let v = zeros_full[i];
        proof {
            crate::merkle::lemma_zero_shift(
                z0,
                SECTOR_TREE_HEIGHT as nat,
                (i - SECTOR_TREE_HEIGHT) as nat,
            );
            assert(SECTOR_TREE_HEIGHT as nat + (i - SECTOR_TREE_HEIGHT) as nat == i as nat);
            assert(v@ == zero_at(zc, (i - SECTOR_TREE_HEIGHT) as nat));
        }
        canopy_zeros.push(v);
        i = i + 1;
    }
    let upper = crate::merkle::partial_sibling_path(
        &layer,
        &canopy_zeros,
        sector,
        SEGMENT_TREE_HEIGHT - SECTOR_TREE_HEIGHT,
        Ghost(zc),
    );
    let mut out: Vec<[u8; 32]> = Vec::new();
    let mut t: usize = 0;
    while t < lower.len()
        invariant
            t <= lower@.len(),
            out@ == lower@.subrange(0, t as int),
        decreases lower@.len() - t,
    {
        let v = lower[t];
        out.push(v);
        proof {
            assert(out@ =~= lower@.subrange(0, t as int + 1));
        }
        t = t + 1;
    }
    proof {
        assert(out@ =~= lower@);
    }
    let mut u: usize = 0;
    while u < upper.len()
        invariant
            u <= upper@.len(),
            out@ == lower@ + upper@.subrange(0, u as int),
        decreases upper@.len() - u,
    {
        let v = upper[u];
        out.push(v);
        proof {
            assert(out@ =~= lower@ + upper@.subrange(0, u as int + 1));
        }
        u = u + 1;
    }
    proof {
        assert(out@ =~= lower@ + upper@);
        assert(views32(out@) =~= views32(lower@) + views32(upper@));
        if canopy_ok(*store, miner_address@, *spool_address) {
            lemma_compose_segment_proof(
                *store,
                miner_address@,
                *spool_address,
                segment,
                views32(lower@),
                views32(upper@),
            );
        }
    }
    Ok(out)
}

} // verus!
