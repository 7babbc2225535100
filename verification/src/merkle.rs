//! The protocol's Merkle data model.
//!
//! Two tree shapes share one binary hash scheme: the per-spool segment tree
//! and the per-reel spool tree. A leaf is the hash of a domain prefix, a
//! little-endian index and a payload; an inner node is the hash of a domain
//! prefix and its two children in normalized (sorted) order, so inclusion
//! proofs carry no direction bits. Each tree is seeded, so the zero-frontier
//! of one tree differs from another's.
//!
//! The executable tree is an append-only accumulator: it keeps only the
//! zero-frontier, the filled subtrees along the frontier and the root. The
//! sequence of leaves it stands for is carried as ghost state, and the
//! accumulator is proved to track the mathematical root of that sequence.

use vstd::prelude::*;
use vstd::arithmetic::power2::{
    pow2,
    lemma_pow2_adds,
    lemma_pow2_pos,
    lemma2_to64,
    lemma2_to64_rest,
    lemma_pow2_strictly_increases,
};
use vstd::arithmetic::div_mod::{lemma_div_denominator, lemma_fundamental_div_mod};
use vstd::bytes::{spec_u64_to_le_bytes, u64_to_le_bytes};
use crate::bytesutil::{bytes_le, bytes_le_from, le_bytes32, eq_bytes32};
use crate::hashing::{blake3_of, hash1, hash2, hash3};
use crate::error::SpoolError;

verus! {

/// Domain prefix of a leaf hash: the bytes of "LEAF".
pub open spec fn leaf_prefix() -> Seq<u8> {
    seq![76u8, 69u8, 65u8, 70u8]
}

/// Domain prefix of an inner-node hash: the bytes of "NODE".
pub open spec fn node_prefix() -> Seq<u8> {
    seq![78u8, 79u8, 68u8, 69u8]
}

/// The hash of a leaf holding `payload` at position `index`.
pub open spec fn leaf_hash(index: u64, payload: Seq<u8>) -> Seq<u8> {
    blake3_of(leaf_prefix() + spec_u64_to_le_bytes(index) + payload)
}

/// The hash of an inner node over children `l` and `r`, in normalized order.
pub open spec fn node_comb(l: Seq<u8>, r: Seq<u8>) -> Seq<u8> {
    if bytes_le(l, r) {
        blake3_of(node_prefix() + l + r)
    } else {
        blake3_of(node_prefix() + r + l)
    }
}

/// The zero-frontier of a tree seeded with `z0`: the hash at each level of
/// an all-empty subtree.
pub open spec fn zero_at(z0: Seq<u8>, level: nat) -> Seq<u8>
    decreases level,
{
    if level == 0 {
        z0
    } else {
        node_comb(zero_at(z0, (level - 1) as nat), zero_at(z0, (level - 1) as nat))
    }
}

/// The leaf hash at position `k`: a stored leaf, or the empty leaf.
pub open spec fn leaf_or_zero(leaves: Seq<Seq<u8>>, z0: Seq<u8>, k: int) -> Seq<u8> {
    if 0 <= k < leaves.len() {
        leaves[k]
    } else {
        zero_at(z0, 0)
    }
}

/// The value of the node at `level` with in-level position `idx`, over
/// `leaves` padded with empty leaves.
pub open spec fn node_at(leaves: Seq<Seq<u8>>, z0: Seq<u8>, level: nat, idx: int) -> Seq<u8>
    decreases level,
{
    if level == 0 {
        leaf_or_zero(leaves, z0, idx)
    } else {
        node_comb(
            node_at(leaves, z0, (level - 1) as nat, 2 * idx),
            node_at(leaves, z0, (level - 1) as nat, 2 * idx + 1),
        )
    }
}

/// The root of a tree of the given height over `leaves`.
pub open spec fn root_of(leaves: Seq<Seq<u8>>, z0: Seq<u8>, height: nat) -> Seq<u8> {
    node_at(leaves, z0, height, 0)
}

/// The root value the accumulator keeps: the top of the zero chain while the
/// tree is empty, the true root once a leaf has been added.
pub open spec fn tracked_root(leaves: Seq<Seq<u8>>, z0: Seq<u8>, height: nat) -> Seq<u8> {
    if leaves.len() == 0 {
        zero_at(z0, (height - 1) as nat)
    } else {
        root_of(leaves, z0, height)
    }
}

/// Folding a leaf up through a sibling path.
pub open spec fn path_fold(siblings: Seq<Seq<u8>>, leaf: Seq<u8>) -> Seq<u8>
    decreases siblings.len(),
{
    if siblings.len() == 0 {
        leaf
    } else {
        path_fold(siblings.drop_first(), node_comb(leaf, siblings[0]))
    }
}

/// A proof checks against a root when folding the leaf through it ends at
/// the root.
pub open spec fn path_ok(siblings: Seq<Seq<u8>>, leaf: Seq<u8>, root: Seq<u8>) -> bool {
    path_fold(siblings, leaf) == root
}

/// The position of the sibling of node `j` within its level.
pub open spec fn sib(j: int) -> int {
    if j % 2 == 0 {
        j + 1
    } else {
        j - 1
    }
}

/// `siblings` is the true sibling path for the leaf at `index` in a tree of
/// the given height over `leaves`.
pub open spec fn is_sibling_path(
    siblings: Seq<Seq<u8>>,
    leaves: Seq<Seq<u8>>,
    z0: Seq<u8>,
    index: int,
    height: nat,
) -> bool {
    &&& siblings.len() == height
    &&& forall|j: int|
        0 <= j < height ==> siblings[j] == node_at(
            leaves,
            z0,
            j as nat,
            sib(index / pow2(j as nat) as int),
        )
}

// ---------------------------------------------------------------------------
// Lemmas about the ordering and the hash combination
// ---------------------------------------------------------------------------

proof fn lemma_bytes_le_cases(a: Seq<u8>, b: Seq<u8>, i: int)
    requires
        0 <= i,
    ensures
        bytes_le_from(a, b, i) || bytes_le_from(b, a, i),
        (bytes_le_from(a, b, i) && bytes_le_from(b, a, i)) ==> (a.len() == b.len() && forall|j: int|
            i <= j < a.len() ==> a[j] == b[j]),
    decreases a.len() - i,
{
    if i >= a.len() || i >= b.len() {
    } else if a[i] < b[i] {
    } else if a[i] > b[i] {
    } else {
        lemma_bytes_le_cases(a, b, i + 1);
    }
}

/// The normalized node combination does not depend on argument order.
pub proof fn lemma_node_comb_comm(a: Seq<u8>, b: Seq<u8>)
    ensures
        node_comb(a, b) == node_comb(b, a),
{
    lemma_bytes_le_cases(a, b, 0);
    if bytes_le(a, b) && bytes_le(b, a) {
        assert(a =~= b);
    }
}

// ---------------------------------------------------------------------------
// Arithmetic helpers
// ---------------------------------------------------------------------------

proof fn lemma_pow2_double(i: nat)
    ensures
        pow2(i + 1) == 2 * pow2(i),
{
    lemma_pow2_adds(i, 1);
    lemma2_to64();
}

proof fn lemma_div_pow2_step(n: int, i: nat)
    requires
        n >= 0,
    ensures
        n / pow2(i) as int / 2 == n / pow2(i + 1) as int,
{
    lemma_pow2_pos(i);
    lemma_pow2_double(i);
    lemma_div_denominator(n, pow2(i) as int, 2);
}

// ---------------------------------------------------------------------------
// Lemmas about node values
// ---------------------------------------------------------------------------

/// A node whose whole leaf range lies at or beyond the stored leaves is the
/// zero-frontier value of its level.
pub proof fn lemma_node_empty(leaves: Seq<Seq<u8>>, z0: Seq<u8>, level: nat, idx: int)
    requires
        idx * pow2(level) as int >= leaves.len(),
        idx >= 0,
    ensures
        node_at(leaves, z0, level, idx) == zero_at(z0, level),
    decreases level,
{
    if level == 0 {
        assert(pow2(0) == 1) by {
            lemma2_to64();
        }
        assert(idx * 1 == idx) by (nonlinear_arith);
        assert(idx >= leaves.len());
        assert(node_at(leaves, z0, 0, idx) == zero_at(z0, 0));
    } else {
        let l1 = (level - 1) as nat;
        lemma_pow2_double(l1);
        assert(pow2(level) == 2 * pow2(l1));
        assert((2 * idx) * pow2(l1) as int == idx * pow2(level) as int) by (nonlinear_arith)
            requires
                pow2(level) == 2 * pow2(l1),
        ;
        assert((2 * idx + 1) * pow2(l1) as int >= (2 * idx) * pow2(l1) as int) by (nonlinear_arith)
            requires
                pow2(l1) >= 0,
        ;
        lemma_node_empty(leaves, z0, l1, 2 * idx);
        lemma_node_empty(leaves, z0, l1, 2 * idx + 1);
        assert(node_at(leaves, z0, level, idx) == node_comb(
            node_at(leaves, z0, l1, 2 * idx),
            node_at(leaves, z0, l1, 2 * idx + 1),
        ));
        assert(zero_at(z0, level) == node_comb(zero_at(z0, l1), zero_at(z0, l1)));
    }
}

/// Two leaf sequences that agree (padded) on a node's whole leaf range give
/// that node the same value.
pub proof fn lemma_node_agree(
    l1: Seq<Seq<u8>>,
    l2: Seq<Seq<u8>>,
    z0: Seq<u8>,
    level: nat,
    idx: int,
)
    requires
        idx >= 0,
        forall|k: int|
            idx * pow2(level) as int <= k < (idx + 1) * pow2(level) as int ==> leaf_or_zero(
                l1,
                z0,
                k,
            ) == leaf_or_zero(l2, z0, k),
    ensures
        node_at(l1, z0, level, idx) == node_at(l2, z0, level, idx),
    decreases level,
{
    if level == 0 {
        assert(pow2(0) == 1) by {
            lemma2_to64();
        }
    } else {
        let l = (level - 1) as nat;
        lemma_pow2_double(l);
        let p = pow2(l) as int;
        assert((2 * idx) * p == idx * (2 * p) && (2 * idx + 2) * p == (idx + 1) * (2 * p))
            by (nonlinear_arith);
        assert(forall|k: int|
            (2 * idx) * p <= k < (2 * idx + 1) * p ==> leaf_or_zero(l1, z0, k) == leaf_or_zero(
                l2,
                z0,
                k,
            )) by {
            assert((2 * idx + 1) * p <= (2 * idx + 2) * p) by (nonlinear_arith)
                requires
                    p >= 0,
            ;
        }
        assert(forall|k: int|
            (2 * idx + 1) * p <= k < (2 * idx + 2) * p ==> leaf_or_zero(l1, z0, k) == leaf_or_zero(
                l2,
                z0,
                k,
            )) by {
            assert((2 * idx) * p <= (2 * idx + 1) * p) by (nonlinear_arith)
                requires
                    p >= 0,
            ;
        }
        lemma_node_agree(l1, l2, z0, l, 2 * idx);
        lemma_node_agree(l1, l2, z0, l, 2 * idx + 1);
    }
}

/// Folding the true sibling path of `index` from the padded leaf at `index`
/// ends at the root: inclusion proofs that report the tree honestly verify.
pub proof fn lemma_fold_true_path(
    leaves: Seq<Seq<u8>>,
    z0: Seq<u8>,
    siblings: Seq<Seq<u8>>,
    index: int,
    height: nat,
)
    requires
        0 <= index < pow2(height),
        is_sibling_path(siblings, leaves, z0, index, height),
    ensures
        path_fold(siblings, leaf_or_zero(leaves, z0, index)) == root_of(leaves, z0, height),
{
    lemma_fold_true_path_from(leaves, z0, siblings, index, height, 0);
    lemma_pow2_pos(height);
    assert(pow2(0) == 1) by {
        lemma2_to64();
    }
    assert(index / pow2(0) as int == index);
    assert(siblings.skip(0) =~= siblings);
    assert(node_at(leaves, z0, 0, index) == leaf_or_zero(leaves, z0, index));
    assert(index / pow2(height) as int == 0) by (nonlinear_arith)
        requires
            0 <= index < pow2(height),
            pow2(height) > 0,
    ;
}

proof fn lemma_fold_true_path_from(
    leaves: Seq<Seq<u8>>,
    z0: Seq<u8>,
    siblings: Seq<Seq<u8>>,
    index: int,
    height: nat,
    k: nat,
)
    requires
        0 <= index,
        k <= height,
        is_sibling_path(siblings, leaves, z0, index, height),
    ensures
        path_fold(siblings.skip(k as int), node_at(leaves, z0, k, index / pow2(k) as int))
            == node_at(leaves, z0, height, index / pow2(height) as int),
    decreases height - k,
{
    lemma_pow2_pos(k);
    let ik = index / pow2(k) as int;
    if k == height {
        assert(siblings.skip(k as int).len() == 0);
    } else {
        let cur = node_at(leaves, z0, k, ik);
        let s = siblings[k as int];
        assert(s == node_at(leaves, z0, k, sib(ik)));
        let up = node_comb(cur, s);
        // the parent of ik and its sibling is ik / 2
        assert(node_at(leaves, z0, k + 1, ik / 2) == node_comb(
            node_at(leaves, z0, k, 2 * (ik / 2)),
            node_at(leaves, z0, k, 2 * (ik / 2) + 1),
        ));
        lemma_fundamental_div_mod(ik, 2);
        if ik % 2 == 0 {
            assert(2 * (ik / 2) == ik);
            assert(sib(ik) == ik + 1);
        } else {
            assert(2 * (ik / 2) == ik - 1);
            assert(sib(ik) == ik - 1);
            lemma_node_comb_comm(cur, s);
        }
        assert(up == node_at(leaves, z0, k + 1, ik / 2));
        lemma_div_pow2_step(index, k);
        assert(ik / 2 == index / pow2(k + 1) as int);
        // fold one step
        let rest = siblings.skip(k as int);
        assert(rest[0] == s);
        assert(rest.drop_first() =~= siblings.skip(k as int + 1));
        lemma_fold_true_path_from(leaves, z0, siblings, index, height, k + 1);
    }
}

// ---------------------------------------------------------------------------
// Executable hashing helpers
// ---------------------------------------------------------------------------

/// Hashes two sibling nodes in normalized order.
pub fn combine_nodes(l: &[u8; 32], r: &[u8; 32]) -> (out: [u8; 32])
    ensures
        out@ == node_comb(l@, r@),
{
    let node_p: [u8; 4] = [78, 79, 68, 69];
    proof {
        assert(node_p@ =~= node_prefix());
    }
    if le_bytes32(l, r) {
        hash3(node_p.as_slice(), l.as_slice(), r.as_slice())
    } else {
        hash3(node_p.as_slice(), r.as_slice(), l.as_slice())
    }
}

/// Hashes a leaf holding `payload` at position `index`.
pub fn make_leaf(index: u64, payload: &[u8]) -> (out: [u8; 32])
    ensures
        out@ == leaf_hash(index, payload@),
{
    let leaf_p: [u8; 4] = [76, 69, 65, 70];
    proof {
        assert(leaf_p@ =~= leaf_prefix());
    }
    let idx_bytes = u64_to_le_bytes(index);
    hash3(leaf_p.as_slice(), idx_bytes.as_slice(), payload)
}

// ---------------------------------------------------------------------------
// The append-only Merkle accumulator
// ---------------------------------------------------------------------------

/// A seeded Merkle tree of fixed height, kept as an append-only accumulator:
/// the zero-frontier, the filled subtrees along the append frontier, and the
/// root. The leaf sequence it stands for is ghost state.
pub struct MerkleTree {
    /// Height of the tree; capacity is `2^height` leaves.
    pub height: usize,
    /// `2^height`, precomputed.
    pub capacity: u64,
    /// The current root.
    pub root: [u8; 32],
    /// The filled left-sibling node at each level of the append frontier.
    pub filled: Vec<[u8; 32]>,
    /// The zero-frontier: hash of an all-empty subtree at each level.
    pub zeros: Vec<[u8; 32]>,
    /// Number of leaves added so far.
    pub next_index: u64,
    /// The z0 the zero-frontier was derived from.
    pub empty_g: Ghost<Seq<u8>>,
    /// The leaf hashes added so far.
    pub leaves_g: Ghost<Seq<Seq<u8>>>,
}

impl MerkleTree {
    /// The empty-leaf value this tree's zero-frontier grows from.
    pub open spec fn empty_value(self) -> Seq<u8> {
        self.empty_g@
    }

    /// The leaf hashes this tree stands for.
    pub open spec fn leaves(self) -> Seq<Seq<u8>> {
        self.leaves_g@
    }

    /// Structural well-formedness: sizes agree and the zero-frontier is the
    /// z0's zero chain.
    pub open spec fn wf(self) -> bool {
        &&& 1 <= self.height <= 40
        &&& self.capacity == pow2(self.height as nat)
        &&& self.zeros.len() == self.height
        &&& self.filled.len() == self.height
        &&& self.next_index == self.leaves().len()
        &&& self.leaves().len() <= self.capacity
        &&& forall|i: int|
            0 <= i < self.height ==> self.zeros[i]@ == zero_at(self.empty_value(), i as nat)
    }

    /// The accumulator agrees with the mathematical tree over its leaves:
    /// the root field tracks the root, and each filled subtree holds the
    /// completed left sibling on the append frontier.
    pub open spec fn synced(self) -> bool {
        &&& self.root@ == tracked_root(self.leaves(), self.empty_value(), self.height as nat)
        &&& forall|j: int|
            0 <= j < self.height ==> ((self.leaves().len() as int / pow2(j as nat) as int) % 2 == 1
                ==> self.filled[j]@ == node_at(
                self.leaves(),
                self.empty_value(),
                j as nat,
                self.leaves().len() as int / pow2(j as nat) as int - 1,
            ))
    }

    /// Creates an empty tree of the given height, seeded with `seed`: the
    /// empty leaf is the hash of the seed.
    pub fn new(seed: &[u8], height: usize) -> (t: Self)
        requires
            1 <= height <= 40,
        ensures
            t.wf(),
            t.synced(),
            t.leaves() == Seq::<Seq<u8>>::empty(),
            t.empty_value() == blake3_of(seed@),
            t.height == height,
    {
        let mut zeros: Vec<[u8; 32]> = Vec::new();
        let mut filled: Vec<[u8; 32]> = Vec::new();
        let mut cur: [u8; 32] = hash1(seed);
        let mut cap: u64 = 1;
        let mut i: usize = 0;
        proof {
            assert(pow2(0) == 1) by {
                lemma2_to64();
            }
            lemma2_to64_rest();
        }
        while i < height
            invariant
                i <= height,
                height <= 40,
                zeros.len() == i,
                filled.len() == i,
                cap == pow2(i as nat),
                cur@ == zero_at(blake3_of(seed@), i as nat),
                forall|j: int| 0 <= j < i ==> zeros[j]@ == zero_at(blake3_of(seed@), j as nat),
                forall|j: int| 0 <= j < i ==> filled[j]@ == zero_at(blake3_of(seed@), j as nat),
            decreases height - i,
        {
            zeros.push(cur);
            filled.push(cur);
            proof {
                lemma_pow2_double(i as nat);
                if i as nat + 1 <= 40 {
                    lemma_pow2_within_u64(i as nat + 1);
                }
            }
            cap = cap * 2;
            cur = combine_nodes(&cur, &cur);
            i = i + 1;
        }
        let root = zeros[height - 1];
        proof {
            let e: Seq<Seq<u8>> = Seq::empty();
            assert(tracked_root(e, blake3_of(seed@), height as nat) == zero_at(
                blake3_of(seed@),
                (height - 1) as nat,
            ));
            assert forall|j: int| 0 <= j < height implies (e.len() as int / #[trigger] pow2(
                j as nat,
            ) as int) % 2 == 0 by {
                lemma_pow2_pos(j as nat);
            }
        }
        MerkleTree {
            height,
            capacity: cap,
            root,
            filled,
            zeros,
            next_index: 0,
            empty_g: Ghost(blake3_of(seed@)),
            leaves_g: Ghost(Seq::empty()),
        }
    }

    /// Appends a leaf hash. Fails exactly when the tree is full; on success
    /// the accumulator tracks the extended leaf sequence.
    pub fn try_add_leaf(&mut self, leaf: &[u8; 32]) -> (r: Result<(), SpoolError>)
        requires
            old(self).wf(),
            old(self).synced(),
        ensures
            final(self).wf(),
            final(self).synced(),
            final(self).height == old(self).height,
            final(self).capacity == old(self).capacity,
            final(self).empty_value() == old(self).empty_value(),
            final(self).zeros@ == old(self).zeros@,
            r is Ok <==> old(self).leaves().len() < old(self).capacity,
            r is Err ==> *final(self) == *old(self),
            r is Ok ==> final(self).leaves() == old(self).leaves().push(leaf@),
            r is Ok ==> final(self).next_index == old(self).next_index + 1,
    {
        if self.next_index >= self.capacity {
            return Err(SpoolError::SpoolTooLong);
        }
        let ghost z0 = self.empty_g@;
        let ghost old_leaves = self.leaves_g@;
        let ghost new_leaves = old_leaves.push(leaf@);
        let ghost n = self.next_index as int;
        let ghost old_filled = self.filled@;
        let ghost h = self.height as nat;

        proof {
            assert(pow2(0) == 1) by {
                lemma2_to64();
            }
            // padded leaves agree below n, and the new leaf sits at n
            assert(forall|k: int|
                0 <= k < n ==> leaf_or_zero(new_leaves, z0, k) == leaf_or_zero(
                    old_leaves,
                    z0,
                    k,
                ));
        }

        let mut current: [u8; 32] = *leaf;
        let mut current_index: u64 = self.next_index;
        let mut i: usize = 0;

        while i < self.height
            invariant
                old(self).wf(),
                old(self).synced(),
                i <= self.height,
                self.height == old(self).height,
                self.capacity == old(self).capacity,
                self.zeros@ == old(self).zeros@,
                self.root == old(self).root,
                self.next_index == old(self).next_index,
                self.empty_g == old(self).empty_g,
                self.leaves_g == old(self).leaves_g,
                z0 == self.empty_g@,
                old_leaves == self.leaves_g@,
                new_leaves == old_leaves.push(leaf@),
                n == self.next_index as int,
                n < self.capacity,
                old_filled == old(self).filled@,
                h == self.height as nat,
                self.filled.len() == self.height,
                current_index as int == n / pow2(i as nat) as int,
                current@ == node_at(new_leaves, z0, i as nat, n / pow2(i as nat) as int),
                forall|j: int| i <= j < self.height ==> self.filled[j] == old_filled[j],
                forall|j: int|
                    0 <= j < i && (n / pow2(j as nat) as int) % 2 == 0 ==> self.filled[j]@
                        == node_at(new_leaves, z0, j as nat, n / pow2(j as nat) as int),
                forall|j: int|
                    0 <= j < i && (n / pow2(j as nat) as int) % 2 == 1 ==> self.filled[j]
                        == old_filled[j],
            decreases self.height - i,
        {
            let ghost iv = i as nat;
            let ghost p = n / pow2(iv) as int;
            proof {
                lemma_pow2_pos(iv);
                lemma_fundamental_div_mod(n, pow2(iv) as int);
                lemma_div_pow2_step(n, iv);
                lemma_pow2_double(iv);
            }
            if current_index % 2 == 0 {
                self.filled.set(i, current);
                let right = self.zeros[i];
                proof {
                    // the right sibling's whole leaf range lies beyond n
                    let r = n % pow2(iv) as int;
                    assert((p + 1) * pow2(iv) as int >= n + 1) by (nonlinear_arith)
                        requires
                            n == pow2(iv) * p + r,
                            0 <= r < pow2(iv),
                    ;
                    lemma_node_empty(new_leaves, z0, iv, p + 1);
                    assert(node_at(new_leaves, z0, iv + 1, p / 2) == node_comb(
                        node_at(new_leaves, z0, iv, 2 * (p / 2)),
                        node_at(new_leaves, z0, iv, 2 * (p / 2) + 1),
                    ));
                    assert(2 * (p / 2) == p);
                }
                current = combine_nodes(&current, &right);
            } else {
                let left = self.filled[i];
                proof {
                    // the filled left sibling is unchanged by the append
                    assert(left == old_filled[i as int]);
                    assert((n / pow2(iv) as int) % 2 == 1);
                    assert(old(self).filled[i as int]@ == node_at(old_leaves, z0, iv, p - 1));
                    let r = n % pow2(iv) as int;
                    assert(p * pow2(iv) as int <= n) by (nonlinear_arith)
                        requires
                            n == pow2(iv) * p + r,
                            0 <= r,
                    ;
                    assert(forall|k: int|
                        (p - 1) * pow2(iv) as int <= k < p * pow2(iv) as int ==> leaf_or_zero(
                            new_leaves,
                            z0,
                            k,
                        ) == leaf_or_zero(old_leaves, z0, k));
                    lemma_node_agree(old_leaves, new_leaves, z0, iv, p - 1);
                    assert(left@ == node_at(new_leaves, z0, iv, p - 1));
                    assert(node_at(new_leaves, z0, iv + 1, p / 2) == node_comb(
                        node_at(new_leaves, z0, iv, 2 * (p / 2)),
                        node_at(new_leaves, z0, iv, 2 * (p / 2) + 1),
                    ));
                    assert(2 * (p / 2) == p - 1);
                }
                current = combine_nodes(&left, &current);
                proof {
                    lemma_node_comb_comm(left@, node_at(new_leaves, z0, iv, p));
                }
            }
            current_index = current_index / 2;
            i = i + 1;
        }

        self.root = current;
        self.next_index = self.next_index + 1;
        self.leaves_g = Ghost(new_leaves);

        proof {
            lemma_pow2_pos(h);
            assert(n + 1 <= pow2(h));
            assert(n / pow2(h) as int == 0) by (nonlinear_arith)
                requires
                    0 <= n < pow2(h),
                    pow2(h) > 0,
            ;
            assert(self.root@ == node_at(new_leaves, z0, h, 0));
            assert(new_leaves.len() == n + 1);
            // the filled invariant for the advanced frontier
            assert forall|j: int|
                0 <= j < self.height && ((n + 1) / pow2(j as nat) as int) % 2 == 1 implies self
                .filled[j]@ == node_at(new_leaves, z0, j as nat, (n + 1) / pow2(j as nat) as int
                - 1) by {
                let jv = j as nat;
                lemma_pow2_pos(jv);
                let pj = n / pow2(jv) as int;
                let rj = n % pow2(jv) as int;
                lemma_fundamental_div_mod(n, pow2(jv) as int);
                lemma_fundamental_div_mod(n + 1, pow2(jv) as int);
                if rj + 1 < pow2(jv) {
                    // quotient unchanged: (n+1)/2^j == pj
                    assert((n + 1) / pow2(jv) as int == pj) by (nonlinear_arith)
                        requires
                            n == pow2(jv) * pj + rj,
                            0 <= rj,
                            rj + 1 < pow2(jv),
                            pow2(jv) > 0,
                    ;
                    assert(pj % 2 == 1);
                    // filled[j] kept the old value, whose leaf range lies below n
                    assert(self.filled[j] == old_filled[j]);
                    assert(old(self).filled[j]@ == node_at(old_leaves, z0, jv, pj - 1));
                    assert(pj * pow2(jv) as int <= n) by (nonlinear_arith)
                        requires
                            n == pow2(jv) * pj + rj,
                            0 <= rj,
                    ;
                    lemma_node_agree(old_leaves, new_leaves, z0, jv, pj - 1);
                } else {
                    // the frontier crossed a power boundary: rj + 1 == 2^j
                    assert(rj + 1 == pow2(jv));
                    assert((n + 1) / pow2(jv) as int == pj + 1) by (nonlinear_arith)
                        requires
                            n == pow2(jv) * pj + rj,
                            rj + 1 == pow2(jv),
                            pow2(jv) > 0,
                    ;
                    assert((pj + 1) % 2 == 1);
                    assert(pj % 2 == 0);
                    assert(self.filled[j]@ == node_at(new_leaves, z0, jv, pj));
                }
            }
        }
        Ok(())
    }

    /// Replaces the leaf at `index`, guarded by an inclusion proof for the
    /// current leaf value. Fails, leaving the tree unchanged, exactly when
    /// the proof does not check against the current root. When the supplied
    /// proof is the tree's true sibling path for `index`, the accumulator
    /// tracks the updated leaf sequence afterwards.
    pub fn try_replace_leaf(
        &mut self,
        index: u64,
        siblings: &[[u8; 32]],
        old_leaf: &[u8; 32],
        new_leaf: &[u8; 32],
    ) -> (r: Result<(), SpoolError>)
        requires
            old(self).wf(),
            siblings@.len() == old(self).height,
            index < old(self).next_index,
        ensures
            final(self).wf(),
            final(self).height == old(self).height,
            final(self).capacity == old(self).capacity,
            final(self).empty_value() == old(self).empty_value(),
            final(self).zeros@ == old(self).zeros@,
            final(self).next_index == old(self).next_index,
            r is Ok <==> path_ok(views32(siblings@), old_leaf@, old(self).root@),
            r is Err ==> *final(self) == *old(self),
            r is Ok ==> final(self).leaves() == old(self).leaves().update(index as int, new_leaf@),
            r is Err ==> final(self).leaves() == old(self).leaves(),
            (old(self).synced() && is_sibling_path(
                views32(siblings@),
                old(self).leaves(),
                old(self).empty_value(),
                index as int,
                old(self).height as nat,
            )) ==> {
                &&& (old_leaf@ == old(self).leaves()[index as int] ==> r is Ok)
                &&& (r is Ok ==> final(self).synced())
            },
    {
        let ghost vs = views32(siblings@);
        let ghost z0 = self.empty_g@;
        let ghost leaves1 = self.leaves_g@;
        let ghost leaves2 = leaves1.update(index as int, new_leaf@);
        let ghost h = self.height as nat;
        let ghost nn = self.next_index as int;
        let ghost honest = old(self).synced() && is_sibling_path(
            vs,
            leaves1,
            z0,
            index as int,
            h,
        );
        let ghost old_filled = self.filled@;

        proof {
            assert(pow2(0) == 1) by {
                lemma2_to64();
            }
            assert(vs.skip(0) =~= vs);
            if honest {
                lemma_sibling_path_update(vs, leaves1, z0, index as int, h, new_leaf@);
                if old_leaf@ == leaves1[index as int] {
                    lemma_fold_true_path(leaves1, z0, vs, index as int, h);
                    lemma_pow2_pos(h);
                }
            }
        }

        let mut cur_old: [u8; 32] = *old_leaf;
        let mut cur_new: [u8; 32] = *new_leaf;
        let mut new_path: Vec<[u8; 32]> = Vec::new();
        let mut k: usize = 0;
        while k < self.height
            invariant
                k <= self.height,
                h == self.height as nat,
                *self == *old(self),
                old(self).wf(),
                z0 == self.empty_g@,
                leaves1 == self.leaves_g@,
                leaves2 == leaves1.update(index as int, new_leaf@),
                index < self.next_index,
                vs == views32(siblings@),
                vs.len() == self.height,
                new_path@.len() == k,
                path_fold(vs, old_leaf@) == path_fold(vs.skip(k as int), cur_old@),
                honest ==> cur_new@ == node_at(leaves2, z0, k as nat, index as int / pow2(
                    k as nat,
                ) as int),
                honest ==> is_sibling_path(vs, leaves2, z0, index as int, h),
                honest ==> forall|m: int|
                    0 <= m < k ==> new_path@[m]@ == node_at(leaves2, z0, m as nat, index as int
                        / #[trigger] pow2(m as nat) as int),
            decreases self.height - k,
        {
            let ghost kv = k as nat;
            let ghost ik = index as int / pow2(kv) as int;
            new_path.push(cur_new);
            let s = siblings[k];
            proof {
                assert(vs.skip(k as int)[0] == vs[k as int]);
                assert(vs.skip(k as int).drop_first() =~= vs.skip(k as int + 1));
                lemma_pow2_pos(kv);
                if honest {
                    assert(s@ == node_at(leaves2, z0, kv, sib(ik)));
                    lemma_comb_parent(leaves2, z0, kv, ik);
                    lemma_div_pow2_step(index as int, kv);
                }
            }
            cur_old = combine_nodes(&cur_old, &s);
            cur_new = combine_nodes(&cur_new, &s);
            k = k + 1;
        }
        proof {
            assert(vs.skip(self.height as int) =~= Seq::<Seq<u8>>::empty());
        }
        if !eq_bytes32(&cur_old, &self.root) {
            return Err(SpoolError::WriteFailed);
        }

        // the proof checked: install the new root and repair the frontier
        self.root = cur_new;
        let ghost new_path_snap = new_path@;
        let mut nq: u64 = self.next_index;
        let mut iq: u64 = index;
        let mut j: usize = 0;
        while j < self.height
            invariant
                j <= self.height,
                h == self.height as nat,
                nn == self.next_index as int,
                self.height == old(self).height,
                self.capacity == old(self).capacity,
                self.zeros@ == old(self).zeros@,
                self.next_index == old(self).next_index,
                self.empty_g == old(self).empty_g,
                self.leaves_g == old(self).leaves_g,
                z0 == self.empty_g@,
                leaves1 == self.leaves_g@,
                leaves2 == leaves1.update(index as int, new_leaf@),
                index < self.next_index,
                old_filled == old(self).filled@,
                old(self).wf(),
                honest == (old(self).synced() && is_sibling_path(
                    vs,
                    leaves1,
                    z0,
                    index as int,
                    h,
                )),
                self.filled@.len() == self.height,
                new_path@ == new_path_snap,
                new_path_snap.len() == self.height,
                self.root == cur_new,
                honest ==> cur_new@ == node_at(leaves2, z0, h, index as int / pow2(h) as int),
                nq as int == nn / pow2(j as nat) as int,
                iq as int == index as int / pow2(j as nat) as int,
                honest ==> forall|m: int|
                    0 <= m < self.height ==> new_path_snap[m]@ == node_at(
                        leaves2,
                        z0,
                        m as nat,
                        index as int / #[trigger] pow2(m as nat) as int,
                    ),
                forall|m: int| j <= m < self.height ==> self.filled@[m] == old_filled[m],
                honest ==> forall|m: int|
                    0 <= m < j && (nn / #[trigger] pow2(m as nat) as int) % 2 == 1
                        ==> self.filled@[m]@ == node_at(
                        leaves2,
                        z0,
                        m as nat,
                        nn / pow2(m as nat) as int - 1,
                    ),
            decreases self.height - j,
        {
            let ghost jv = j as nat;
            proof {
                lemma_pow2_pos(jv);
                lemma_div_pow2_step(nn, jv);
                lemma_div_pow2_step(index as int, jv);
                if honest && nq % 2 == 1 && iq != nq - 1 {
                    // the kept frontier node lies outside the updated leaf
                    let q = nn / pow2(jv) as int - 1;
                    assert(old(self).filled[j as int]@ == node_at(leaves1, z0, jv, q));
                    assert forall|kk: int|
                        q * pow2(jv) as int <= kk < (q + 1) * pow2(jv) as int implies leaf_or_zero(
                        leaves1,
                        z0,
                        kk,
                    ) == leaf_or_zero(leaves2, z0, kk) by {
                        lemma_range_quotient(jv, q, kk);
                        lemma_self_quotient_range(jv, index as int);
                        lemma_range_quotient(jv, index as int / pow2(jv) as int, index as int);
                        assert(kk != index as int);
                    }
                    lemma_node_agree(leaves1, leaves2, z0, jv, q);
                }
            }
            if nq % 2 == 1 && iq == nq - 1 {
                let v = new_path[j];
                self.filled.set(j, v);
            }
            nq = nq / 2;
            iq = iq / 2;
            j = j + 1;
        }

        self.leaves_g = Ghost(leaves2);
        proof {
            if honest {
                lemma_pow2_pos(h);
                let ix = index as int;
                assert(ix / pow2(h) as int == 0) by (nonlinear_arith)
                    requires
                        0 <= ix < pow2(h),
                        pow2(h) > 0,
                ;
                assert(self.root@ == node_at(leaves2, z0, h, 0));
                assert(leaves2.len() == leaves1.len());
            }
        }
        Ok(())
    }

    /// The current root.
    pub fn get_root(&self) -> (r: [u8; 32])
        ensures
            r == self.root,
    {
        self.root
    }

    /// The number of leaves added so far.
    pub fn leaf_count(&self) -> (r: u64)
        requires
            self.wf(),
        ensures
            r == self.leaves().len(),
    {
        self.next_index
    }
}

/// The byte sequences of a sequence of 32-byte values.
pub open spec fn views32(s: Seq<[u8; 32]>) -> Seq<Seq<u8>> {
    s.map_values(|a: [u8; 32]| a@)
}

/// Combining a node with its sibling, in either order, gives the parent.
proof fn lemma_comb_parent(leaves: Seq<Seq<u8>>, z0: Seq<u8>, level: nat, q: int)
    requires
        q >= 0,
    ensures
        node_comb(node_at(leaves, z0, level, q), node_at(leaves, z0, level, sib(q)))
            == node_at(leaves, z0, level + 1, q / 2),
{
    lemma_fundamental_div_mod(q, 2);
    assert(node_at(leaves, z0, level + 1, q / 2) == node_comb(
        node_at(leaves, z0, level, 2 * (q / 2)),
        node_at(leaves, z0, level, 2 * (q / 2) + 1),
    ));
    if q % 2 == 0 {
        assert(2 * (q / 2) == q);
    } else {
        assert(2 * (q / 2) == q - 1);
        lemma_node_comb_comm(node_at(leaves, z0, level, q), node_at(leaves, z0, level, q - 1));
    }
}

/// Every leaf position under node `(level, q)` has quotient `q`.
pub proof fn lemma_range_quotient(level: nat, q: int, k: int)
    requires
        q >= 0,
        q * pow2(level) as int <= k < (q + 1) * pow2(level) as int,
    ensures
        k / pow2(level) as int == q,
{
    lemma_pow2_pos(level);
    let p = pow2(level) as int;
    assert(0 <= k - q * p < p) by (nonlinear_arith)
        requires
            q * p <= k < (q + 1) * p,
    ;
    vstd::arithmetic::div_mod::lemma_fundamental_div_mod_converse(k, p, q, k - q * p);
}

/// A position lies within the leaf range of its own ancestor.
pub proof fn lemma_self_quotient_range(level: nat, x: int)
    requires
        x >= 0,
    ensures
        (x / pow2(level) as int) * pow2(level) as int <= x < (x / pow2(level) as int + 1) * pow2(
            level,
        ) as int,
{
    lemma_pow2_pos(level);
    let p = pow2(level) as int;
    lemma_fundamental_div_mod(x, p);
    vstd::arithmetic::div_mod::lemma_mod_bound(x, p);
    assert((x / p) * p <= x < (x / p + 1) * p) by (nonlinear_arith)
        requires
            x == p * (x / p) + x % p,
            0 <= x % p < p,
    ;
}

/// A true sibling path for `index` stays true when the leaf at `index`
/// changes: no sibling subtree contains `index`.
pub proof fn lemma_sibling_path_update(
    siblings: Seq<Seq<u8>>,
    leaves: Seq<Seq<u8>>,
    z0: Seq<u8>,
    index: int,
    height: nat,
    x: Seq<u8>,
)
    requires
        is_sibling_path(siblings, leaves, z0, index, height),
        0 <= index < leaves.len(),
    ensures
        is_sibling_path(siblings, leaves.update(index, x), z0, index, height),
{
    let leaves2 = leaves.update(index, x);
    assert forall|j: int| 0 <= j < height implies siblings[j] == node_at(
        leaves2,
        z0,
        j as nat,
        sib(index / #[trigger] pow2(j as nat) as int),
    ) by {
        let jv = j as nat;
        lemma_pow2_pos(jv);
        let ij = index / pow2(jv) as int;
        lemma_fundamental_div_mod(index, pow2(jv) as int);
        let q = sib(ij);
        assert(q >= 0);
        assert forall|k: int|
            q * pow2(jv) as int <= k < (q + 1) * pow2(jv) as int implies leaf_or_zero(
            leaves,
            z0,
            k,
        ) == leaf_or_zero(leaves2, z0, k) by {
            lemma_range_quotient(jv, q, k);
            lemma_self_quotient_range(jv, index);
            lemma_range_quotient(jv, ij, index);
            assert(k != index);
        }
        lemma_node_agree(leaves, leaves2, z0, jv, q);
    }
}

/// Checks a leaf inclusion proof against a root.
pub fn verify_inclusion(root: &[u8; 32], siblings: &[[u8; 32]], leaf: &[u8; 32]) -> (r: bool)
    ensures
        r == path_ok(views32(siblings@), leaf@, root@),
{
    let ghost vs = views32(siblings@);
    proof {
        assert(vs.skip(0) =~= vs);
    }
    let mut cur: [u8; 32] = *leaf;
    let mut k: usize = 0;
    let n = siblings.len();
    while k < n
        invariant
            k <= n,
            n == siblings@.len(),
            vs == views32(siblings@),
            path_fold(vs, leaf@) == path_fold(vs.skip(k as int), cur@),
        decreases n - k,
    {
        let s = siblings[k];
        proof {
            assert(vs.skip(k as int)[0] == vs[k as int]);
            assert(vs.skip(k as int).drop_first() =~= vs.skip(k as int + 1));
        }
        cur = combine_nodes(&cur, &s);
        k = k + 1;
    }
    proof {
        assert(vs.skip(n as int) =~= Seq::<Seq<u8>>::empty());
    }
    eq_bytes32(&cur, root)
}

// ---------------------------------------------------------------------------
// Layer computation and proof generation
// ---------------------------------------------------------------------------

/// `layer` holds the tree's nodes of one level, left to right, and every
/// node of that level at or beyond its end is the zero-frontier value.
pub open spec fn layer_ok(layer: Seq<[u8; 32]>, leaves: Seq<Seq<u8>>, z0: Seq<u8>, level: nat) -> bool {
    &&& forall|q: int| 0 <= q < layer.len() ==> layer[q]@ == node_at(leaves, z0, level, q)
    &&& forall|q: int|
        q >= layer.len() ==> #[trigger] node_at(leaves, z0, level, q) == zero_at(z0, level)
}

/// Computes one level of the tree from the level below it.
fn next_layer(
    layer: &Vec<[u8; 32]>,
    zero: &[u8; 32],
    Ghost(leaves): Ghost<Seq<Seq<u8>>>,
    Ghost(z0): Ghost<Seq<u8>>,
    Ghost(level): Ghost<nat>,
) -> (out: Vec<[u8; 32]>)
    requires
        layer_ok(layer@, leaves, z0, level),
        zero@ == zero_at(z0, level),
        layer@.len() >= 1,
    ensures
        layer_ok(out@, leaves, z0, level + 1),
        out@.len() == (layer@.len() + 1) / 2,
{
    let n = layer.len();
    let pairs = n / 2;
    let mut out: Vec<[u8; 32]> = Vec::new();
    let mut j: usize = 0;
    while j < pairs
        invariant
            layer_ok(layer@, leaves, z0, level),
            zero@ == zero_at(z0, level),
            n == layer@.len(),
            pairs == n / 2,
            j <= pairs,
            out@.len() == j,
            forall|q: int| 0 <= q < j ==> out@[q]@ == node_at(leaves, z0, level + 1, q),
        decreases pairs - j,
    {
        let a = layer[2 * j];
        let b = layer[2 * j + 1];
        let c = combine_nodes(&a, &b);
        proof {
            let q = j as int;
            assert(node_at(leaves, z0, level + 1, q) == node_comb(
                node_at(leaves, z0, level, 2 * q),
                node_at(leaves, z0, level, 2 * q + 1),
            ));
        }
        out.push(c);
        j = j + 1;
    }
    if n % 2 == 1 {
        let a = layer[n - 1];
        let c = combine_nodes(&a, zero);
        proof {
            let q = pairs as int;
            assert(node_at(leaves, z0, level + 1, q) == node_comb(
                node_at(leaves, z0, level, 2 * q),
                node_at(leaves, z0, level, 2 * q + 1),
            ));
            assert(2 * q == n - 1);
            assert(2 * q + 1 >= layer@.len());
        }
        out.push(c);
    }
    proof {
        assert forall|q: int| q >= out@.len() implies #[trigger] node_at(leaves, z0, level + 1, q)
            == zero_at(z0, level + 1) by {
            assert(node_at(leaves, z0, level + 1, q) == node_comb(
                node_at(leaves, z0, level, 2 * q),
                node_at(leaves, z0, level, 2 * q + 1),
            ));
            assert(2 * q >= n);
            assert(2 * q + 1 >= n);
        }
    }
    out
}

impl MerkleTree {
    /// Creates an empty tree directly from a zero-frontier slice; its empty
    /// leaf is the frontier's first value.
    pub fn from_zeros(zeros: &Vec<[u8; 32]>, Ghost(z0): Ghost<Seq<u8>>) -> (t: Self)
        requires
            1 <= zeros@.len() <= 40,
            forall|i: int| 0 <= i < zeros@.len() ==> zeros@[i]@ == zero_at(z0, i as nat),
        ensures
            t.wf(),
            t.synced(),
            t.leaves() == Seq::<Seq<u8>>::empty(),
            t.empty_value() == z0,
            t.height == zeros@.len(),
    {
        let height = zeros.len();
        let mut zs: Vec<[u8; 32]> = Vec::new();
        let mut fs: Vec<[u8; 32]> = Vec::new();
        let mut cap: u64 = 1;
        let mut i: usize = 0;
        proof {
            assert(pow2(0) == 1) by {
                lemma2_to64();
            }
        }
        while i < height
            invariant
                i <= height,
                height <= 40,
                height == zeros@.len(),
                forall|k: int| 0 <= k < zeros@.len() ==> zeros@[k]@ == zero_at(z0, k as nat),
                zs@.len() == i,
                fs@.len() == i,
                cap == pow2(i as nat),
                forall|j: int| 0 <= j < i ==> zs@[j]@ == zero_at(z0, j as nat),
                forall|j: int| 0 <= j < i ==> fs@[j]@ == zero_at(z0, j as nat),
            decreases height - i,
        {
            let v = zeros[i];
            zs.push(v);
            fs.push(v);
            proof {
                lemma_pow2_double(i as nat);
                if i as nat + 1 <= 40 {
                    lemma_pow2_within_u64(i as nat + 1);
                }
            }
            cap = cap * 2;
            i = i + 1;
        }
        let root = zs[height - 1];
        proof {
            let e: Seq<Seq<u8>> = Seq::empty();
            assert(tracked_root(e, z0, height as nat) == zero_at(z0, (height - 1) as nat));
            assert forall|j: int| 0 <= j < height implies (e.len() as int / #[trigger] pow2(
                j as nat,
            ) as int) % 2 == 0 by {
                lemma_pow2_pos(j as nat);
            }
        }
        MerkleTree {
            height,
            capacity: cap,
            root,
            filled: fs,
            zeros: zs,
            next_index: 0,
            empty_g: Ghost(z0),
            leaves_g: Ghost(Seq::empty()),
        }
    }

    /// Produces the sibling path for the leaf at `index`, from the full leaf
    /// array.
    pub fn get_proof(&self, leaves: &Vec<[u8; 32]>, index: u64) -> (out: Vec<[u8; 32]>)
        requires
            self.wf(),
            views32(leaves@) == self.leaves(),
            index < self.next_index,
        ensures
            out@.len() == self.height,
            is_sibling_path(
                views32(out@),
                self.leaves(),
                self.empty_value(),
                index as int,
                self.height as nat,
            ),
    {
        let ghost z0 = self.empty_g@;
        let ghost lv = self.leaves();
        let mut layer: Vec<[u8; 32]> = Vec::new();
        let n = leaves.len();
        let mut t: usize = 0;
        while t < n
            invariant
                t <= n,
                n == leaves@.len(),
                layer@.len() == t,
                forall|q: int| 0 <= q < t ==> layer@[q] == leaves@[q],
            decreases n - t,
        {
            let v = leaves[t];
            layer.push(v);
            t = t + 1;
        }
        proof {
            assert(pow2(0) == 1) by {
                lemma2_to64();
            }
            assert forall|q: int| 0 <= q < layer@.len() implies layer@[q]@ == node_at(
                lv,
                z0,
                0,
                q,
            ) by {
                assert(views32(leaves@)[q] == leaves@[q]@);
            }
            assert forall|q: int| q >= layer@.len() implies #[trigger] node_at(lv, z0, 0, q)
                == zero_at(z0, 0) by {}
        }
        let mut siblings: Vec<[u8; 32]> = Vec::new();
        let mut idx: u64 = index;
        let mut i: usize = 0;
        while i < self.height
            invariant
                self.wf(),
                i <= self.height,
                z0 == self.empty_g@,
                lv == self.leaves(),
                index < self.next_index,
                layer_ok(layer@, lv, z0, i as nat),
                layer@.len() >= 1,
                idx as int == index as int / pow2(i as nat) as int,
                idx <= index,
                siblings@.len() == i,
                forall|j: int|
                    0 <= j < i ==> siblings@[j]@ == node_at(lv, z0, j as nat, sib(
                        index as int / #[trigger] pow2(j as nat) as int,
                    )),
            decreases self.height - i,
        {
            let ghost iv = i as nat;
            proof {
                lemma_pow2_pos(iv);
                lemma_div_pow2_step(index as int, iv);
            }
            let q: u64 = if idx % 2 == 0 {
                idx + 1
            } else {
                idx - 1
            };
            proof {
                assert(q as int == sib(idx as int));
            }
            let s: [u8; 32] = if q < layer.len() as u64 {
                layer[q as usize]
            } else {
                self.zeros[i]
            };
            proof {
                assert(s@ == node_at(lv, z0, iv, sib(idx as int)));
            }
            siblings.push(s);
            let zv = self.zeros[i];
            layer = next_layer(&layer, &zv, Ghost(lv), Ghost(z0), Ghost(iv));
            idx = idx / 2;
            i = i + 1;
        }
        siblings
    }
}

/// Computes the subtree root at `levels` over a leaf-hash array, padded with
/// the zero-frontier.
pub fn subtree_root(
    leaves: &Vec<[u8; 32]>,
    zeros: &Vec<[u8; 32]>,
    levels: usize,
    Ghost(z0): Ghost<Seq<u8>>,
) -> (out: [u8; 32])
    requires
        1 <= levels <= 40,
        zeros@.len() >= levels,
        forall|i: int| 0 <= i < zeros@.len() ==> zeros@[i]@ == zero_at(z0, i as nat),
        leaves@.len() >= 1,
        leaves@.len() <= pow2(levels as nat),
    ensures
        out@ == node_at(views32(leaves@), z0, levels as nat, 0),
{
    let ghost lv = views32(leaves@);
    let mut layer: Vec<[u8; 32]> = Vec::new();
    let n = leaves.len();
    let mut t: usize = 0;
    while t < n
        invariant
            t <= n,
            n == leaves@.len(),
            layer@.len() == t,
            forall|q: int| 0 <= q < t ==> layer@[q] == leaves@[q],
        decreases n - t,
    {
        let v = leaves[t];
        layer.push(v);
        t = t + 1;
    }
    proof {
        assert(pow2(0) == 1) by {
            lemma2_to64();
        }
        assert forall|q: int| 0 <= q < layer@.len() implies layer@[q]@ == node_at(lv, z0, 0, q) by {
            assert(views32(leaves@)[q] == leaves@[q]@);
        }
    }
    let mut i: usize = 0;
    while i < levels
        invariant
            i <= levels,
            levels <= zeros@.len(),
            forall|k: int| 0 <= k < zeros@.len() ==> zeros@[k]@ == zero_at(z0, k as nat),
            layer_ok(layer@, lv, z0, i as nat),
            layer@.len() >= 1,
        decreases levels - i,
    {
        let zv = zeros[i];
        layer = next_layer(&layer, &zv, Ghost(lv), Ghost(z0), Ghost(i as nat));
        i = i + 1;
    }
    layer[0]
}

/// Produces the sibling nodes of `index` for the bottom `levels` levels of
/// a tree over the given leaf hashes, padded with the zero-frontier.
pub fn partial_sibling_path(
    leaves: &Vec<[u8; 32]>,
    zeros: &Vec<[u8; 32]>,
    index: u64,
    levels: usize,
    Ghost(z0): Ghost<Seq<u8>>,
) -> (out: Vec<[u8; 32]>)
    requires
        levels <= 40,
        zeros@.len() >= levels,
        forall|i: int| 0 <= i < zeros@.len() ==> zeros@[i]@ == zero_at(z0, i as nat),
        leaves@.len() >= 1,
        index < leaves@.len(),
    ensures
        out@.len() == levels,
        forall|j: int|
            0 <= j < levels ==> out@[j]@ == node_at(
                views32(leaves@),
                z0,
                j as nat,
                sib(index as int / #[trigger] pow2(j as nat) as int),
            ),
{
    let ghost lv = views32(leaves@);
    let mut layer: Vec<[u8; 32]> = Vec::new();
    let n = leaves.len();
    let mut t: usize = 0;
    while t < n
        invariant
            t <= n,
            n == leaves@.len(),
            layer@.len() == t,
            forall|q: int| 0 <= q < t ==> layer@[q] == leaves@[q],
        decreases n - t,
    {
        let v = leaves[t];
        layer.push(v);
        t = t + 1;
    }
    proof {
        assert(pow2(0) == 1) by {
            lemma2_to64();
        }
        assert forall|q: int| 0 <= q < layer@.len() implies layer@[q]@ == node_at(lv, z0, 0, q) by {
            assert(views32(leaves@)[q] == leaves@[q]@);
        }
    }
    let mut siblings: Vec<[u8; 32]> = Vec::new();
    let mut idx: u64 = index;
    let mut i: usize = 0;
    while i < levels
        invariant
            i <= levels,
            levels <= 40,
            levels <= zeros@.len(),
            forall|k: int| 0 <= k < zeros@.len() ==> zeros@[k]@ == zero_at(z0, k as nat),
            lv == views32(leaves@),
            index < leaves@.len(),
            layer_ok(layer@, lv, z0, i as nat),
            layer@.len() >= 1,
            idx as int == index as int / pow2(i as nat) as int,
            idx <= index,
            siblings@.len() == i,
            forall|j: int|
                0 <= j < i ==> siblings@[j]@ == node_at(lv, z0, j as nat, sib(
                    index as int / #[trigger] pow2(j as nat) as int,
                )),
        decreases levels - i,
    {
        let ghost iv = i as nat;
        proof {
            lemma_pow2_pos(iv);
            lemma_div_pow2_step(index as int, iv);
        }
        let q: u64 = if idx % 2 == 0 {
            idx + 1
        } else {
            idx - 1
        };
        proof {
            assert(q as int == sib(idx as int));
        }
        let s: [u8; 32] = if q < layer.len() as u64 {
            layer[q as usize]
        } else {
            zeros[i]
        };
        proof {
            assert(s@ == node_at(lv, z0, iv, sib(idx as int)));
        }
        siblings.push(s);
        let zv = zeros[i];
        layer = next_layer(&layer, &zv, Ghost(lv), Ghost(z0), Ghost(iv));
        idx = idx / 2;
        i = i + 1;
    }
    siblings
}

// ---------------------------------------------------------------------------
// Composing a canopy tree with the full tree
// ---------------------------------------------------------------------------

/// The zero-frontier of a tree whose empty leaf is a deeper frontier value
/// is the shifted frontier.
pub proof fn lemma_zero_shift(z0: Seq<u8>, s: nat, i: nat)
    ensures
        zero_at(zero_at(z0, s), i) == zero_at(z0, s + i),
    decreases i,
{
    if i > 0 {
        lemma_zero_shift(z0, s, (i - 1) as nat);
    }
}

/// A tree built over one level's nodes as leaves, with that level's
/// zero-frontier value as its empty leaf, computes the higher nodes of the
/// underlying tree.
pub proof fn lemma_canopy_node(
    leaves: Seq<Seq<u8>>,
    z0: Seq<u8>,
    s: nat,
    canopy: Seq<Seq<u8>>,
    up: nat,
    idx: int,
)
    requires
        idx >= 0,
        forall|q: int| 0 <= q < canopy.len() ==> canopy[q] == node_at(leaves, z0, s, q),
        forall|q: int|
            q >= canopy.len() ==> #[trigger] node_at(leaves, z0, s, q) == zero_at(z0, s),
    ensures
        node_at(canopy, zero_at(z0, s), up, idx) == node_at(leaves, z0, s + up, idx),
    decreases up,
{
    if up == 0 {
    } else {
        lemma_canopy_node(leaves, z0, s, canopy, (up - 1) as nat, 2 * idx);
        lemma_canopy_node(leaves, z0, s, canopy, (up - 1) as nat, 2 * idx + 1);
    }
}

/// A node of a sector, computed over the sector's own slice of leaves, is
/// the corresponding node of the full tree.
pub proof fn lemma_node_slice(
    full: Seq<Seq<u8>>,
    sub: Seq<Seq<u8>>,
    z0: Seq<u8>,
    s: nat,
    sector: int,
    j: nat,
    q: int,
)
    requires
        j <= s,
        sector >= 0,
        q >= 0,
        forall|k: int|
            0 <= k < pow2(s) ==> #[trigger] leaf_or_zero(sub, z0, k) == leaf_or_zero(
                full,
                z0,
                sector * pow2(s) as int + k,
            ),
        q + 1 <= pow2((s - j) as nat),
    ensures
        node_at(sub, z0, j, q) == node_at(full, z0, j, sector * pow2((s - j) as nat) as int + q),
    decreases j,
{
    lemma_pow2_pos(s);
    lemma_pow2_pos(j);
    lemma_pow2_pos((s - j) as nat);
    if j == 0 {
        assert(pow2(0) == 1) by {
            lemma2_to64();
        }
        assert(0 <= q < pow2(s)) by {
            lemma_pow2_pos(s);
        }
    } else {
        let j1 = (j - 1) as nat;
        lemma_pow2_double((s - j) as nat);
        assert(pow2((s - j1) as nat) == 2 * pow2((s - j) as nat));
        assert(sector * pow2((s - j1) as nat) as int + 2 * q == 2 * (sector * pow2(
            (s - j) as nat,
        ) as int + q)) by (nonlinear_arith)
            requires
                pow2((s - j1) as nat) == 2 * pow2((s - j) as nat),
        ;
        lemma_node_slice(full, sub, z0, s, sector, j1, 2 * q);
        lemma_node_slice(full, sub, z0, s, sector, j1, 2 * q + 1);
    }
}

/// `pow2` of any exponent up to 40 fits in `u64`.
proof fn lemma_pow2_within_u64(e: nat)
    requires
        e <= 40,
    ensures
        pow2(e) < 0x10000000000000000,
{
    lemma2_to64();
    lemma2_to64_rest();
    if e < 40 {
        lemma_pow2_strictly_increases(e, 40);
    }
}

} // verus!
