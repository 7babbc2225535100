//! The packer: turns raw segments into miner-personalized solutions,
//! stores them, and keeps the canopies fresh.

use vstd::prelude::*;
use vstd::arithmetic::power2::{pow2, lemma2_to64};
use crate::canopy::{
    canopy_ok,
    canopy_ok_except,
    packed_canopy_ok,
    packed_canopy_ok_except,
    packed_layer_of,
    spec_packed_leaf,
    spec_unpacked_leaf,
    spool_z0,
    store_leaves,
    store_packed_leaves,
    unpacked_layer_of,
    update_merkle_canopy_for_segment,
    zeros_cache_ok,
};
use crate::consts::{SECTOR_LEAVES, SECTOR_TREE_HEIGHT, SEGMENT_SIZE};
use crate::error::SpoolError;
use crate::merkle::{
    leaf_or_zero,
    lemma_node_agree,
    lemma_range_quotient,
    lemma_self_quotient_range,
    node_at,
};
use crate::packing::{
    memory_key,
    pack_difficulty_of,
    pack_search,
    packx_check,
    packx_solve,
    unpack_of,
};
use crate::spool_ops::{pad_segment, spec_padded};
use crate::store::SpoolStore;

verus! {

/// A unit of packing work: one raw segment of one spool.
pub struct SegmentJob {
    /// The spool's address.
    pub spool: [u8; 32],
    /// The segment's number within the spool.
    pub seg_no: u64,
    /// The raw segment bytes, at most one segment long.
    pub data: Vec<u8>,
}

/// A sector node is unchanged when the only changed segment lies in a
/// different sector.
proof fn lemma_other_sector_unchanged(
    st1: SpoolStore,
    st2: SpoolStore,
    miner: Seq<u8>,
    addr: [u8; 32],
    changed: u64,
    s: int,
)
    requires
        s >= 0,
        changed < 262144,
        s != changed as int / SECTOR_LEAVES as int,
        forall|k: u64|
            k != changed ==> #[trigger] st2.spec_seg_of(addr@, k) == st1.spec_seg_of(addr@, k),
    ensures
        node_at(store_leaves(st2, miner, addr@), spool_z0(addr@), SECTOR_TREE_HEIGHT as nat, s)
            == node_at(
            store_leaves(st1, miner, addr@),
            spool_z0(addr@),
            SECTOR_TREE_HEIGHT as nat,
            s,
        ),
{
    let f1 = store_leaves(st1, miner, addr@);
    let f2 = store_leaves(st2, miner, addr@);
    let z0 = spool_z0(addr@);
    lemma2_to64();
    assert(pow2(SECTOR_TREE_HEIGHT as nat) == 1024);
    assert(pow2(crate::consts::SEGMENT_TREE_HEIGHT as nat) == 262144);
    assert forall|k: int|
        s * pow2(SECTOR_TREE_HEIGHT as nat) as int <= k < (s + 1) * pow2(
            SECTOR_TREE_HEIGHT as nat,
        ) as int implies leaf_or_zero(f2, z0, k) == leaf_or_zero(f1, z0, k) by {
        lemma_range_quotient(SECTOR_TREE_HEIGHT as nat, s, k);
        lemma_self_quotient_range(SECTOR_TREE_HEIGHT as nat, changed as int);
        lemma_range_quotient(
            SECTOR_TREE_HEIGHT as nat,
            changed as int / 1024,
            changed as int,
        );
        assert(k != changed);
        if 0 <= k < f1.len() {
            assert(f1[k] == spec_unpacked_leaf(st1, miner, addr@, k as u64));
            assert(f2[k] == spec_unpacked_leaf(st2, miner, addr@, k as u64));
        }
    }
    lemma_node_agree(f1, f2, z0, SECTOR_TREE_HEIGHT as nat, s);
}

/// The packed twin: a packed sector node is unchanged when the only
/// changed segment lies in a different sector.
proof fn lemma_other_sector_unchanged_packed(
    st1: SpoolStore,
    st2: SpoolStore,
    addr: [u8; 32],
    changed: u64,
    s: int,
)
    requires
        s >= 0,
        changed < 262144,
        s != changed as int / SECTOR_LEAVES as int,
        forall|k: u64|
            k != changed ==> #[trigger] st2.spec_seg_of(addr@, k) == st1.spec_seg_of(addr@, k),
    ensures
        node_at(
            store_packed_leaves(st2, addr@),
            spool_z0(addr@),
            SECTOR_TREE_HEIGHT as nat,
            s,
        ) == node_at(
            store_packed_leaves(st1, addr@),
            spool_z0(addr@),
            SECTOR_TREE_HEIGHT as nat,
            s,
        ),
{
    let f1 = store_packed_leaves(st1, addr@);
    let f2 = store_packed_leaves(st2, addr@);
    let z0 = spool_z0(addr@);
    lemma2_to64();
    assert(pow2(SECTOR_TREE_HEIGHT as nat) == 1024);
    assert(pow2(crate::consts::SEGMENT_TREE_HEIGHT as nat) == 262144);
    assert forall|k: int|
        s * pow2(SECTOR_TREE_HEIGHT as nat) as int <= k < (s + 1) * pow2(
            SECTOR_TREE_HEIGHT as nat,
        ) as int implies leaf_or_zero(f2, z0, k) == leaf_or_zero(f1, z0, k) by {
        lemma_range_quotient(SECTOR_TREE_HEIGHT as nat, s, k);
        lemma_self_quotient_range(SECTOR_TREE_HEIGHT as nat, changed as int);
        lemma_range_quotient(
            SECTOR_TREE_HEIGHT as nat,
            changed as int / 1024,
            changed as int,
        );
        assert(k != changed);
        if 0 <= k < f1.len() {
            assert(f1[k] == spec_packed_leaf(st1, addr@, k as u64));
            assert(f2[k] == spec_packed_leaf(st2, addr@, k as u64));
        }
    }
    lemma_node_agree(f1, f2, z0, SECTOR_TREE_HEIGHT as nat, s);
}

/// Packs one segment: finds a miner-personalized solution of the epoch's
/// packing difficulty, re-verifies it, stores it, and refreshes the
/// sector's canopies.
///
/// Succeeds exactly when the packing search finds a solution for this
/// key, segment and difficulty; a failed search changes nothing. On
/// success the found solution is stored: it reconstructs the padded
/// segment under the miner's key and meets the difficulty.
pub fn pack_segment(
    store: &mut SpoolStore,
    mem: &packx::SolverMemory,
    miner_address: &[u8; 32],
    spool_address: &[u8; 32],
    segment_data: &[u8],
    segment_number: u64,
    difficulty: u32,
) -> (r: Result<(), SpoolError>)
    requires
        old(store).wf(),
        zeros_cache_ok(*old(store)),
        canopy_ok(*old(store), miner_address@, *spool_address),
        packed_canopy_ok(*old(store), *spool_address),
        memory_key(*mem) == miner_address@,
        segment_data@.len() <= SEGMENT_SIZE,
        segment_number < 262144,
    ensures
        final(store).wf(),
        zeros_cache_ok(*final(store)),
        final(store).pairs@ == old(store).pairs@,
        r is Ok <==> pack_search(
            miner_address@,
            spec_padded(segment_data@),
            difficulty,
        ) is Some,
        r is Err ==> *final(store) == *old(store),
        r is Ok ==> {
            &&& canopy_ok(*final(store), miner_address@, *spool_address)
            &&& packed_canopy_ok(*final(store), *spool_address)
            &&& match final(store).spec_seg_of(spool_address@, segment_number) {
                Some(p) => p@ == pack_search(
                    miner_address@,
                    spec_padded(segment_data@),
                    difficulty,
                ).unwrap() && unpack_of(miner_address@, p@) == spec_padded(segment_data@)
                    && pack_difficulty_of(p@) >= difficulty,
                None => false,
            }
            &&& forall|a: Seq<u8>, m: u64|
                !(a == spool_address@ && m == segment_number)
                    ==> #[trigger] final(store).spec_seg_of(a, m) == old(store).spec_seg_of(a, m)
            // the cached layers only grow
            &&& (match (
                unpacked_layer_of(*old(store), *spool_address),
                unpacked_layer_of(*final(store), *spool_address),
            ) {
                (Some(l0), Some(l2)) => l0.len() <= l2.len(),
                (None, Some(l2)) => true,
                _ => false,
            })
            &&& (match (
                packed_layer_of(*old(store), *spool_address),
                packed_layer_of(*final(store), *spool_address),
            ) {
                (Some(l0), Some(l2)) => l0.len() <= l2.len(),
                (None, Some(l2)) => true,
                _ => false,
            })
        },
{
    let segment_bytes = pad_segment(segment_data);
    let solution = match packx_solve(mem, &segment_bytes, difficulty) {
        Some(s) => s,
        None => {
            return Err(SpoolError::SolutionInvalid);
        },
    };
    if !packx_check(miner_address, &segment_bytes, &solution, difficulty) {
        proof {
            assert(false);
        }
        return Err(SpoolError::SolutionInvalid);
    }
    store.put_segment(spool_address, segment_number, &solution);
    proof {
        let ghost addr = *spool_address;
        let ghost miner = miner_address@;
        let ghost sector = segment_number as int / SECTOR_LEAVES as int;
        assert(unpacked_layer_of(*store, addr) == unpacked_layer_of(*old(store), addr));
        assert(packed_layer_of(*store, addr) == packed_layer_of(*old(store), addr));
        lemma2_to64();
        // the stale-sector invariant holds after the write
        match unpacked_layer_of(*store, addr) {
            Some(layer) => {
                assert forall|s: int|
                    0 <= s < layer.len() && s != sector implies layer[s]@ == node_at(
                    store_leaves(*store, miner, addr@),
                    spool_z0(addr@),
                    SECTOR_TREE_HEIGHT as nat,
                    s,
                ) by {
                    assert(layer[s]@ == node_at(
                        store_leaves(*old(store), miner, addr@),
                        spool_z0(addr@),
                        SECTOR_TREE_HEIGHT as nat,
                        s,
                    ));
                    assert forall|k: u64|
                        k != segment_number implies #[trigger] store.spec_seg_of(addr@, k) == old(
                        store,
                    ).spec_seg_of(addr@, k) by {}
                    lemma_other_sector_unchanged(
                        *old(store),
                        *store,
                        miner,
                        addr,
                        segment_number,
                        s,
                    );
                }
                assert forall|k: u64| #[trigger] store.spec_seg_of(addr@, k) is Some implies k
                    < layer.len() * SECTOR_LEAVES || k as int / SECTOR_LEAVES as int == sector by {
                    if k != segment_number {
                        assert(old(store).spec_seg_of(addr@, k) is Some);
                    }
                }
                assert(canopy_ok_except(*store, miner, addr, sector));
            },
            None => {
                assert forall|k: u64| #[trigger] store.spec_seg_of(addr@, k) is Some implies k
                    as int / SECTOR_LEAVES as int == sector by {
                    if k != segment_number {
                        assert(old(store).spec_seg_of(addr@, k) is Some);
                        assert(false);
                    }
                }
                assert(canopy_ok_except(*store, miner, addr, sector));
            },
        }
        // and for the packed layer
        match packed_layer_of(*store, addr) {
            Some(layer) => {
                assert forall|s: int|
                    0 <= s < layer.len() && s != sector implies layer[s]@ == node_at(
                    store_packed_leaves(*store, addr@),
                    spool_z0(addr@),
                    SECTOR_TREE_HEIGHT as nat,
                    s,
                ) by {
                    assert(layer[s]@ == node_at(
                        store_packed_leaves(*old(store), addr@),
                        spool_z0(addr@),
                        SECTOR_TREE_HEIGHT as nat,
                        s,
                    ));
                    assert forall|k: u64|
                        k != segment_number implies #[trigger] store.spec_seg_of(addr@, k) == old(
                        store,
                    ).spec_seg_of(addr@, k) by {}
                    lemma_other_sector_unchanged_packed(
                        *old(store),
                        *store,
                        addr,
                        segment_number,
                        s,
                    );
                }
                assert forall|k: u64| #[trigger] store.spec_seg_of(addr@, k) is Some implies k
                    < layer.len() * SECTOR_LEAVES || k as int / SECTOR_LEAVES as int == sector by {
                    if k != segment_number {
                        assert(old(store).spec_seg_of(addr@, k) is Some);
                    }
                }
                assert(packed_canopy_ok_except(*store, addr, sector));
            },
            None => {
                assert forall|k: u64| #[trigger] store.spec_seg_of(addr@, k) is Some implies k
                    as int / SECTOR_LEAVES as int == sector by {
                    if k != segment_number {
                        assert(old(store).spec_seg_of(addr@, k) is Some);
                        assert(false);
                    }
                }
                assert(packed_canopy_ok_except(*store, addr, sector));
            },
        }
    }
    proof {
        assert forall|a: [u8; 32]|
            match #[trigger] store.spec_cache_of(
                crate::store::MerkleCacheKey::ZeroValues { address: a },
            ) {
                Some(v) => v.len() == crate::consts::SEGMENT_TREE_HEIGHT && forall|i: int|
                    0 <= i < v.len() ==> v[i]@ == crate::merkle::zero_at(
                        spool_z0(a@),
                        i as nat,
                    ),
                None => true,
            } by {
            let zk = crate::store::MerkleCacheKey::ZeroValues { address: a };
            assert(store.spec_cache_of(zk) == old(store).spec_cache_of(zk));
        }
        assert(zeros_cache_ok(*store));
    }
    let ghost store_after_put = *store;
    match update_merkle_canopy_for_segment(
        store,
        miner_address,
        spool_address,
        segment_number,
    ) {
        Ok(u) => u,
        Err(e) => {
            proof {
                assert(false);
            }
            return Err(e);
        },
    };
    proof {
        assert(store.segments@ == store_after_put.segments@);
        assert forall|a: Seq<u8>, m: u64|
            !(a == spool_address@ && m == segment_number)
                implies #[trigger] store.spec_seg_of(a, m) == old(store).spec_seg_of(a, m) by {
            assert(store.spec_seg_of(a, m) == store_after_put.spec_seg_of(a, m));
        }
        assert(store.spec_seg_of(spool_address@, segment_number) == store_after_put.spec_seg_of(
            spool_address@,
            segment_number,
        ));
        // after the refresh both layers cover every stored segment, so the
        // canopies are fully truthful
        let addr = *spool_address;
        let sector = segment_number as int / SECTOR_LEAVES as int;
        let len0 = match unpacked_layer_of(store_after_put, addr) {
            Some(layer) => layer.len() as int,
            None => 0int,
        };
        let len2 = if sector < len0 {
            len0
        } else {
            sector + 1
        };
        let len0p = match packed_layer_of(store_after_put, addr) {
            Some(layer) => layer.len() as int,
            None => 0int,
        };
        let len2p = if sector < len0p {
            len0p
        } else {
            sector + 1
        };
        assert forall|k: u64| #[trigger] store_after_put.spec_seg_of(addr@, k) is Some implies (
        k as int / SECTOR_LEAVES as int) < len2 by {
            if k != segment_number {
                assert(old(store).spec_seg_of(addr@, k) is Some);
                assert(k < len0 * SECTOR_LEAVES);
                let ki = k as int;
                let sl = SECTOR_LEAVES as int;
                vstd::arithmetic::div_mod::lemma_fundamental_div_mod(ki, sl);
                vstd::arithmetic::div_mod::lemma_mod_bound(ki, sl);
                assert(ki / sl < len0) by (nonlinear_arith)
                    requires
                        ki == sl * (ki / sl) + (ki % sl),
                        0 <= ki % sl,
                        ki % sl < sl,
                        ki < len0 * sl,
                        sl > 0,
                ;
            }
        }
        assert forall|k: u64| #[trigger] store_after_put.spec_seg_of(addr@, k) is Some implies (
        k as int / SECTOR_LEAVES as int) < len2p by {
            if k != segment_number {
                assert(old(store).spec_seg_of(addr@, k) is Some);
                assert(k < len0p * SECTOR_LEAVES);
                let ki = k as int;
                let sl = SECTOR_LEAVES as int;
                vstd::arithmetic::div_mod::lemma_fundamental_div_mod(ki, sl);
                vstd::arithmetic::div_mod::lemma_mod_bound(ki, sl);
                assert(ki / sl < len0p) by (nonlinear_arith)
                    requires
                        ki == sl * (ki / sl) + (ki % sl),
                        0 <= ki % sl,
                        ki % sl < sl,
                        ki < len0p * sl,
                        sl > 0,
                ;
            }
        }
        assert(canopy_ok(*store, miner_address@, addr));
        assert(packed_canopy_ok(*store, addr));
    }
    Ok(())
}

} // verus!
