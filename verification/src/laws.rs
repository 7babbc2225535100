//! System-wide laws: statements that relate several operations or hold of
//! every reachable state, proved once here.

use vstd::prelude::*;
use vstd::arithmetic::power2::pow2;
use crate::consts::{MAX_CONSISTENCY_MULTIPLIER, MIN_CONSISTENCY_MULTIPLIER};
use crate::merkle::{
    is_sibling_path,
    leaf_or_zero,
    lemma_fold_true_path,
    node_at,
    path_ok,
    root_of,
};
use crate::protocol::spec_next_multiplier;
use crate::state::{Archive, Block, Miner, Spool, SpoolState};

verus! {

/// The number of finalized spools in a collection.
pub open spec fn count_finalized(spools: Seq<Spool>) -> int
    decreases spools.len(),
{
    if spools.len() == 0 {
        0
    } else {
        count_finalized(spools.drop_last()) + if spools.last().state is Finalized {
            1int
        } else {
            0int
        }
    }
}

/// The total segments over the finalized spools of a collection.
pub open spec fn sum_finalized_segments(spools: Seq<Spool>) -> int
    decreases spools.len(),
{
    if spools.len() == 0 {
        0
    } else {
        sum_finalized_segments(spools.drop_last()) + if spools.last().state is Finalized {
            spools.last().total_segments as int
        } else {
            0int
        }
    }
}

/// The archive counts exactly what stands finalized: `spools_stored` is the
/// number of finalized spools and `segments_stored` their total segments.
pub open spec fn archive_consistent(archive: Archive, spools: Seq<Spool>) -> bool {
    &&& archive.spools_stored == count_finalized(spools)
    &&& archive.segments_stored == sum_finalized_segments(spools)
}

proof fn lemma_count_update(spools: Seq<Spool>, i: int, s2: Spool)
    requires
        0 <= i < spools.len(),
    ensures
        count_finalized(spools.update(i, s2)) == count_finalized(spools) + (if s2.state
            is Finalized {
            1int
        } else {
            0int
        }) - (if spools[i].state is Finalized {
            1int
        } else {
            0int
        }),
        sum_finalized_segments(spools.update(i, s2)) == sum_finalized_segments(spools) + (if s2.state
            is Finalized {
            s2.total_segments as int
        } else {
            0int
        }) - (if spools[i].state is Finalized {
            spools[i].total_segments as int
        } else {
            0int
        }),
    decreases spools.len(),
{
    let up = spools.update(i, s2);
    if i == spools.len() - 1 {
        assert(up.drop_last() =~= spools.drop_last());
        assert(up.last() == s2);
    } else {
        assert(up.drop_last() =~= spools.drop_last().update(i, s2));
        assert(up.last() == spools.last());
        lemma_count_update(spools.drop_last(), i, s2);
    }
}

proof fn lemma_count_push(spools: Seq<Spool>, s: Spool)
    ensures
        count_finalized(spools.push(s)) == count_finalized(spools) + (if s.state is Finalized {
            1int
        } else {
            0int
        }),
        sum_finalized_segments(spools.push(s)) == sum_finalized_segments(spools) + (if s.state
            is Finalized {
            s.total_segments as int
        } else {
            0int
        }),
{
    assert(spools.push(s).drop_last() =~= spools);
    assert(spools.push(s).last() == s);
}

/// Finalizing one written spool keeps the archive consistent: the spool
/// count goes up by one, the segment total by the spool's segments, and the
/// spool takes the new count as its number.
pub proof fn lemma_finalize_preserves_archive(
    archive1: Archive,
    archive2: Archive,
    spools: Seq<Spool>,
    i: int,
    s2: Spool,
)
    requires
        archive_consistent(archive1, spools),
        0 <= i < spools.len(),
        !(spools[i].state is Finalized),
        s2.state is Finalized,
        s2.total_segments == spools[i].total_segments,
        archive1.spools_stored + 1 <= u64::MAX,
        archive1.segments_stored + spools[i].total_segments <= u64::MAX,
        archive2 == (Archive {
            spools_stored: archive1.spools_stored.saturating_add(1),
            segments_stored: archive1.segments_stored.saturating_add(spools[i].total_segments),
        }),
    ensures
        archive_consistent(archive2, spools.update(i, s2)),
        s2.number == archive2.spools_stored ==> s2.number == count_finalized(
            spools.update(i, s2),
        ),
{
    lemma_count_update(spools, i, s2);
}

/// An operation on an unfinalized spool that leaves it unfinalized —
/// create, write, update, set-header, subsidize — keeps the archive
/// consistent.
pub proof fn lemma_mutation_preserves_archive(
    archive: Archive,
    spools: Seq<Spool>,
    i: int,
    s2: Spool,
)
    requires
        archive_consistent(archive, spools),
        0 <= i < spools.len(),
        !(spools[i].state is Finalized),
        !(s2.state is Finalized),
    ensures
        archive_consistent(archive, spools.update(i, s2)),
{
    lemma_count_update(spools, i, s2);
}

/// Adding a fresh, unfinalized spool keeps the archive consistent.
pub proof fn lemma_create_preserves_archive(archive: Archive, spools: Seq<Spool>, s: Spool)
    requires
        archive_consistent(archive, spools),
        !(s.state is Finalized),
    ensures
        archive_consistent(archive, spools.push(s)),
{
    lemma_count_push(spools, s);
}

/// The consistency multiplier stays in its band and moves one step at a
/// time: up after consecutive blocks, down otherwise.
pub proof fn lemma_multiplier_band(miner: Miner, block: Block)
    requires
        miner.wf(),
    ensures
        MIN_CONSISTENCY_MULTIPLIER <= spec_next_multiplier(miner, block)
            <= MAX_CONSISTENCY_MULTIPLIER,
        miner.last_proof_block.saturating_add(1) == block.number ==> spec_next_multiplier(
            miner,
            block,
        ) >= miner.multiplier,
        miner.last_proof_block.saturating_add(1) != block.number ==> spec_next_multiplier(
            miner,
            block,
        ) <= miner.multiplier,
{
}

/// A writer that has taken at least one segment never carries a root that
/// disagrees with leaf recomputation: its root is the mathematical root of
/// exactly the leaves written into it.
pub proof fn lemma_writer_root_is_leaf_root(w: crate::state::Writer)
    requires
        w.wf(),
        w.state.synced(),
        w.state.leaves().len() > 0,
    ensures
        w.state.root@ == root_of(
            w.state.leaves(),
            w.state.empty_value(),
            crate::consts::SEGMENT_TREE_HEIGHT as nat,
        ),
{
}

/// A proof generated from a tree's own leaves verifies against that tree's
/// root: the sibling path of a leaf folds back to the root.
pub proof fn lemma_generated_proof_verifies(
    siblings: Seq<Seq<u8>>,
    leaves: Seq<Seq<u8>>,
    z0: Seq<u8>,
    index: int,
    height: nat,
)
    requires
        0 <= index < pow2(height),
        is_sibling_path(siblings, leaves, z0, index, height),
    ensures
        path_ok(siblings, leaf_or_zero(leaves, z0, index), root_of(leaves, z0, height)),
{
    lemma_fold_true_path(leaves, z0, siblings, index, height);
}

} // verus!
