//! The append-only incremental Merkle accumulator.
//!
//! The accumulator keeps, per level, the hash of the rightmost completed
//! subtree (the frontier). Inserting a leaf re-hashes only the path from the
//! new leaf to the root, yet the stored root is proved equal to the root
//! obtained by hashing the whole padded leaf sequence from scratch.

use vstd::prelude::*;
use vstd::arithmetic::power2::{
    lemma2_to64, lemma_pow2_adds, lemma_pow2_pos, lemma_pow2_strictly_increases, lemma_pow2_unfold,
    pow2,
};
use vstd::arithmetic::div_mod::{
    lemma_basic_div, lemma_div_denominator, lemma_div_is_ordered, lemma_div_plus_one,
    lemma_div_pos_is_pos, lemma_fundamental_div_mod, lemma_mod_bound,
    lemma_multiply_divide_lt,
};
use vstd::arithmetic::mul::lemma_mul_inequality;
use crate::errors::ErrorCode;
use crate::hash::{bytes32_eq, bytes32_seq_view, hash_pair, node_hash, zero_bytes, zeros_at};

verus! {

/// The hash of a complete subtree holding exactly `pow2(level)` leaves.
pub open spec fn subtree_hash(level: nat, leaves: Seq<Seq<u8>>) -> Seq<u8>
    recommends
        leaves.len() == pow2(level),
    decreases level,
{
    if level == 0 {
        if leaves.len() > 0 {
            leaves[0]
        } else {
            zero_bytes()
        }
    } else {
        node_hash(
            subtree_hash((level - 1) as nat, leaves.take(pow2((level - 1) as nat) as int)),
            subtree_hash((level - 1) as nat, leaves.skip(pow2((level - 1) as nat) as int)),
        )
    }
}

/// The leaf sequence extended with empty slots up to the tree's capacity.
pub open spec fn padded_leaves(leaves: Seq<Seq<u8>>, height: nat) -> Seq<Seq<u8>>
    recommends
        leaves.len() <= pow2(height),
{
    leaves + Seq::new((pow2(height) - leaves.len()) as nat, |i: int| zero_bytes())
}

/// The root obtained by hashing the whole padded tree from scratch.
pub open spec fn merkle_root_of(leaves: Seq<Seq<u8>>, height: nat) -> Seq<u8> {
    subtree_hash(height, padded_leaves(leaves, height))
}

/// The hash of the `i`-th complete subtree at `level`, over the padded leaves.
pub open spec fn block_hash(leaves: Seq<Seq<u8>>, height: nat, level: nat, i: nat) -> Seq<u8>
    recommends
        level <= height,
        (i + 1) * pow2(level) <= pow2(height),
        leaves.len() <= pow2(height),
{
    subtree_hash(
        level,
        padded_leaves(leaves, height).subrange(
            (i * pow2(level)) as int,
            ((i + 1) * pow2(level)) as int,
        ),
    )
}

/// The index of the subtree at `level` that contains leaf position `n`.
pub open spec fn level_index(n: nat, level: nat) -> int {
    n as int / pow2(level) as int
}

/// Distributes one multiplication step, the only nonlinear fact the block
/// lemmas need.
proof fn lemma_mul_succ(i: int, p: int)
    ensures
        (i + 1) * p == i * p + p,
{
    assert((i + 1) * p == i * p + p) by (nonlinear_arith);
}

/// A complete subtree of empty slots hashes to the precomputed zero of its
/// level.
proof fn lemma_subtree_hash_all_zero(level: nat, s: Seq<Seq<u8>>)
    requires
        s.len() == pow2(level),
        forall|j: int| 0 <= j < s.len() ==> s[j] == zero_bytes(),
    ensures
        subtree_hash(level, s) == zeros_at(level),
    decreases level,
{
    lemma_pow2_pos(level);
    if level == 0 {
        assert(pow2(0) == 1) by {
            lemma2_to64();
        }
        assert(s[0] == zero_bytes());
    } else {
        let half = pow2((level - 1) as nat) as int;
        lemma_pow2_unfold(level);
        lemma_subtree_hash_all_zero((level - 1) as nat, s.take(half));
        lemma_subtree_hash_all_zero((level - 1) as nat, s.skip(half));
    }
}

/// A parent block is the node hash of its two child blocks.
proof fn lemma_block_split(leaves: Seq<Seq<u8>>, height: nat, level: nat, i: nat)
    requires
        level < height,
        (i + 1) * pow2((level + 1) as nat) <= pow2(height),
        leaves.len() <= pow2(height),
    ensures
        block_hash(leaves, height, (level + 1) as nat, i) == node_hash(
            block_hash(leaves, height, level, 2 * i),
            block_hash(leaves, height, level, 2 * i + 1),
        ),
{
    let p = pow2(level) as int;
    let p2 = pow2((level + 1) as nat) as int;
    lemma_pow2_pos(level);
    lemma_pow2_unfold((level + 1) as nat);
    assert(p2 == 2 * p);
    let padded = padded_leaves(leaves, height);
    assert(padded.len() == pow2(height)) by {
        lemma_pow2_pos(height);
    }
    assert((i + 1) as int * p2 == (2 * i + 2) as int * p) by (nonlinear_arith)
        requires
            p2 == 2 * p,
    ;
    assert(i as int * p2 == (2 * i) as int * p) by (nonlinear_arith)
        requires
            p2 == 2 * p,
    ;
    assert((2 * i + 1) as int * p == i as int * p2 + p) by (nonlinear_arith)
        requires
            p2 == 2 * p,
    ;
    assert((i + 1) as nat * pow2((level + 1) as nat) == (i + 1) as int * p2);
    lemma_mul_succ(i as int, p2);
    lemma_mul_succ(2 * i as int, p);
    lemma_mul_succ(2 * i as int + 1, p);
    let whole = padded.subrange(i as int * p2, (i + 1) as int * p2);
    assert(whole.take(p) =~= padded.subrange((2 * i) as int * p, (2 * i + 1) as int * p));
    assert(whole.skip(p) =~= padded.subrange((2 * i + 1) as int * p, (2 * i + 2) as int * p));
    assert((2 * i) as nat * pow2(level) == (2 * i) as int * p);
    assert((2 * i + 1) as nat * pow2(level) == (2 * i + 1) as int * p);
    assert((2 * i + 2) as nat * pow2(level) == (2 * i + 2) as int * p);
}

/// A block lying entirely beyond the stored leaves hashes to the zero of its
/// level.
proof fn lemma_block_all_padding(leaves: Seq<Seq<u8>>, height: nat, level: nat, i: nat)
    requires
        level <= height,
        (i + 1) * pow2(level) <= pow2(height),
        leaves.len() <= i * pow2(level),
    ensures
        block_hash(leaves, height, level, i) == zeros_at(level),
{
    let p = pow2(level) as int;
    lemma_pow2_pos(level);
    lemma_pow2_pos(height);
    lemma_mul_succ(i as int, p);
    assert(leaves.len() <= pow2(height));
    let padded = padded_leaves(leaves, height);
    assert(padded.len() == pow2(height) as int);
    let s = padded.subrange(i as int * p, (i + 1) as int * p);
    assert forall|j: int| 0 <= j < s.len() implies s[j] == zero_bytes() by {
        assert(s[j] == padded[i as int * p + j]);
        assert(i as int * p + j >= leaves.len());
    }
    lemma_subtree_hash_all_zero(level, s);
}

/// A block whose leaves agree in two leaf sequences has the same hash in
/// both.
proof fn lemma_block_stable(
    leaves1: Seq<Seq<u8>>,
    leaves2: Seq<Seq<u8>>,
    height: nat,
    level: nat,
    i: nat,
)
    requires
        level <= height,
        leaves1.len() <= pow2(height),
        leaves2.len() <= pow2(height),
        (i + 1) * pow2(level) <= leaves1.len(),
        (i + 1) * pow2(level) <= leaves2.len(),
        forall|j: int| i * pow2(level) <= j < (i + 1) * pow2(level) ==> leaves1[j] == leaves2[j],
    ensures
        block_hash(leaves1, height, level, i) == block_hash(leaves2, height, level, i),
{
    let p = pow2(level) as int;
    lemma_pow2_pos(level);
    lemma_pow2_pos(height);
    lemma_mul_succ(i as int, p);
    let s1 = padded_leaves(leaves1, height).subrange(i as int * p, (i + 1) as int * p);
    let s2 = padded_leaves(leaves2, height).subrange(i as int * p, (i + 1) as int * p);
    assert forall|j: int| 0 <= j < s1.len() implies s1[j] == s2[j] by {
        let k = i as int * p + j;
        assert(s1[j] == padded_leaves(leaves1, height)[k]);
        assert(s2[j] == padded_leaves(leaves2, height)[k]);
        assert(padded_leaves(leaves1, height)[k] == leaves1[k]);
        assert(padded_leaves(leaves2, height)[k] == leaves2[k]);
        assert(leaves1[k] == leaves2[k]);
    }
    assert(s1 =~= s2);
}

/// The root is the single block spanning the whole tree.
proof fn lemma_root_is_block(leaves: Seq<Seq<u8>>, height: nat)
    requires
        leaves.len() <= pow2(height),
    ensures
        merkle_root_of(leaves, height) == block_hash(leaves, height, height, 0),
{
    let padded = padded_leaves(leaves, height);
    lemma_pow2_pos(height);
    assert(padded.len() == pow2(height) as int);
    lemma_mul_succ(0, pow2(height) as int);
    assert(0 as nat * pow2(height) == 0);
    assert(padded.subrange(0, pow2(height) as int) =~= padded);
}

/// A level-zero block is the leaf stored at that position.
proof fn lemma_leaf_block(leaves: Seq<Seq<u8>>, height: nat, pos: nat)
    requires
        pos < leaves.len(),
        leaves.len() <= pow2(height),
    ensures
        block_hash(leaves, height, 0, pos) == leaves[pos as int],
{
    lemma2_to64();
    assert(pow2(0) == 1);
    lemma_pow2_pos(height);
    lemma_mul_succ(pos as int, 1);
    let padded = padded_leaves(leaves, height);
    assert(padded.len() == pow2(height) as int);
    assert(pos as nat * pow2(0) == pos);
    assert((pos + 1) as nat * pow2(0) == pos + 1);
    let s = padded.subrange(pos as int, pos as int + 1);
    assert(s[0] == padded[pos as int]);
    assert(padded[pos as int] == leaves[pos as int]);
    assert(subtree_hash(0, s) == s[0]);
}

/// Moving one level up halves the subtree index.
proof fn lemma_level_step(n: nat, level: nat)
    ensures
        level_index(n, (level + 1) as nat) == level_index(n, level) / 2,
{
    lemma_pow2_pos(level);
    lemma_pow2_unfold((level + 1) as nat);
    lemma_div_denominator(n as int, pow2(level) as int, 2);
}

/// Bounds on the subtree index of a position: it addresses a block inside
/// the tree, and the block it addresses contains the position.
proof fn lemma_level_index_bounds(n: nat, height: nat, level: nat)
    requires
        level <= height,
        n < pow2(height),
    ensures
        0 <= level_index(n, level),
        level_index(n, level) < pow2((height - level) as nat),
        level_index(n, level) * pow2(level) <= n,
        n < (level_index(n, level) + 1) * pow2(level),
{
    let p = pow2(level) as int;
    lemma_pow2_pos(level);
    lemma_div_pos_is_pos(n as int, p);
    lemma_pow2_adds((height - level) as nat, level);
    lemma_pow2_adds(level, (height - level) as nat);
    lemma_multiply_divide_lt(n as int, p, pow2((height - level) as nat) as int);
    lemma_fundamental_div_mod(n as int, p);
    lemma_mod_bound(n as int, p);
    lemma_mul_succ(level_index(n, level), p);
}

/// The subtree index of the next position is the same index or its
/// successor.
proof fn lemma_succ_level_index(n: nat, level: nat)
    ensures
        level_index((n + 1) as nat, level) == level_index(n, level) || level_index(
            (n + 1) as nat,
            level,
        ) == level_index(n, level) + 1,
{
    let p = pow2(level) as int;
    lemma_pow2_pos(level);
    lemma_div_is_ordered(n as int, n as int + 1, p);
    lemma_div_plus_one(n as int, p);
    lemma_div_is_ordered(n as int + 1, n as int + p, p);
}

/// The append-only accumulator: a fixed-height tree of commitments, the
/// cached frontier of completed subtrees, the precomputed empty-subtree
/// hashes, and the current root. The sequence of inserted leaves is kept as
/// ghost state so contracts can speak of the tree's abstract contents.
pub struct MerkleTree {
    pub height: u8,
    pub filled_subtrees: Vec<[u8; 32]>,
    pub zeros: Vec<[u8; 32]>,
    pub root: [u8; 32],
    pub next_index: u64,
    pub leaves: Ghost<Seq<Seq<u8>>>,
}

impl MerkleTree {
    /// The accumulator's internal invariant: the zeros table holds the
    /// empty-subtree hash of each level, the frontier entry of every level
    /// whose subtree index is odd holds the hash of the completed left
    /// sibling, and the stored root is the from-scratch root of the leaves
    /// inserted so far (the empty-tree root before the first insertion).
    pub open spec fn wf(&self) -> bool {
        &&& 1 <= self.height <= 20
        &&& self.zeros@.len() == self.height as int
        &&& self.filled_subtrees@.len() == self.height as int
        &&& forall|l: int|
            0 <= l < self.height ==> (#[trigger] self.zeros@[l])@ == zeros_at(l as nat)
        &&& self.leaves@.len() == self.next_index
        &&& self.next_index <= pow2(self.height as nat)
        &&& forall|l: int|
            0 <= l < self.height && level_index(self.leaves@.len(), l as nat) % 2 == 1 ==> (
            #[trigger] self.filled_subtrees@[l])@ == block_hash(
                self.leaves@,
                self.height as nat,
                l as nat,
                (level_index(self.leaves@.len(), l as nat) - 1) as nat,
            )
        &&& if self.next_index == 0 {
            self.root@ == zeros_at((self.height - 1) as nat)
        } else {
            self.root@ == merkle_root_of(self.leaves@, self.height as nat)
        }
    }

    /// Creates an empty accumulator of the given height. The height is fixed
    /// for the life of the tree; zero and anything above 20 are rejected.
    pub fn initialize(height: u8) -> (result: Result<MerkleTree, ErrorCode>)
        ensures
            (result is Ok) <==> 1 <= height <= 20,
            (result is Err) ==> result == Result::<MerkleTree, ErrorCode>::Err(
                ErrorCode::InvalidInput,
            ),
            (result matches Ok(tree) ==> {
                &&& tree.wf()
                &&& tree.height == height
                &&& tree.next_index == 0
                &&& tree.leaves@ == Seq::<Seq<u8>>::empty()
                &&& tree.root@ == zeros_at((height - 1) as nat)
                &&& forall|l: int|
                    0 <= l < height ==> #[trigger] tree.filled_subtrees@[l] == tree.zeros@[l]
            }),
    {
        if height == 0 || height > 20 {
            return Err(ErrorCode::InvalidInput);
        }
        let zero_leaf = [0u8; 32];
        proof {
            assert(zero_leaf@ =~= zero_bytes());
        }
        let mut zeros: Vec<[u8; 32]> = Vec::new();
        zeros.push(zero_leaf);
        let mut l: usize = 1;
        while l < height as usize
            invariant
                1 <= l <= height,
                zeros@.len() == l,
                forall|j: int| 0 <= j < l ==> (#[trigger] zeros@[j])@ == zeros_at(j as nat),
            decreases height as usize - l,
        {
            let prev = zeros[l - 1];
            let z = hash_pair(&prev, &prev);
            zeros.push(z);
            l = l + 1;
        }
        let mut filled: Vec<[u8; 32]> = Vec::new();
        let mut i: usize = 0;
        while i < height as usize
            invariant
                i <= height,
                zeros@.len() == height as int,
                forall|j: int| 0 <= j < height ==> (#[trigger] zeros@[j])@ == zeros_at(j as nat),
                filled@.len() == i,
                forall|j: int| 0 <= j < i ==> filled@[j] == zeros@[j],
            decreases height as usize - i,
        {
            filled.push(zeros[i]);
            i = i + 1;
        }
        let root = zeros[height as usize - 1];
        let tree = MerkleTree {
            height,
            filled_subtrees: filled,
            zeros,
            root,
            next_index: 0,
            leaves: Ghost(Seq::empty()),
        };
        proof {
            assert forall|l2: int|
                0 <= l2 < tree.height && level_index(tree.leaves@.len(), l2 as nat) % 2 == 1
            implies (#[trigger] tree.filled_subtrees@[l2])@ == block_hash(
                tree.leaves@,
                tree.height as nat,
                l2 as nat,
                (level_index(tree.leaves@.len(), l2 as nat) - 1) as nat,
            ) by {
                lemma_pow2_pos(l2 as nat);
                assert(level_index(0, l2 as nat) == 0);
            }
        }
        Ok(tree)
    }

    /// Appends a commitment at the next free slot. Callers supply the
    /// accumulator's own `next_index` as `leaf_index`. The walk from the new
    /// leaf to the root caches the completed subtree hash at each level and
    /// stores the new root, which equals the root obtained by hashing the
    /// whole extended leaf sequence from scratch. Inserting into a full tree
    /// fails and changes nothing.
    pub fn insert_leaf(&mut self, leaf_index: u64, leaf: [u8; 32]) -> (result: Result<
        (),
        ErrorCode,
    >)
        requires
            old(self).wf(),
            leaf_index == old(self).next_index,
        ensures
            final(self).wf(),
            final(self).height == old(self).height,
            final(self).zeros@ == old(self).zeros@,
            match result {
                Ok(()) => {
                    &&& old(self).next_index < pow2(old(self).height as nat)
                    &&& final(self).leaves@ == old(self).leaves@.push(leaf@)
                    &&& final(self).next_index == old(self).next_index + 1
                    &&& final(self).root@ == merkle_root_of(
                        old(self).leaves@.push(leaf@),
                        old(self).height as nat,
                    )
                },
                Err(e) => {
                    &&& e == ErrorCode::IndexOutOfBounds
                    &&& old(self).next_index >= pow2(old(self).height as nat)
                    &&& *final(self) == *old(self)
                },
            },
    {
        let height = self.height;
        let cap = pow2_u64(height);
        if leaf_index >= cap {
            return Err(ErrorCode::IndexOutOfBounds);
        }
        let ghost n = old(self).leaves@.len();
        let ghost h = height as nat;
        let ghost new_leaves = old(self).leaves@.push(leaf@);
        self.leaves = Ghost(new_leaves);
        proof {
            lemma2_to64();
            assert(pow2(0) == 1);
            lemma_leaf_block(new_leaves, h, n);
            // the frontier entries, restated over the extended leaves
            assert forall|l: int|
                0 <= l < height && level_index(n, l as nat) % 2 == 1 implies (
            #[trigger] self.filled_subtrees@[l])@ == block_hash(
                new_leaves,
                h,
                l as nat,
                (level_index(n, l as nat) - 1) as nat,
            ) by {
                let lev = l as nat;
                let q = level_index(n, lev);
                lemma_level_index_bounds(n, h, lev);
                lemma_pow2_pos(lev);
                lemma_mul_succ(q - 1, pow2(lev) as int);
                lemma_block_stable(old(self).leaves@, new_leaves, h, lev, (q - 1) as nat);
            }
        }
        let mut current: [u8; 32] = leaf;
        let mut idx: u64 = leaf_index;
        let mut level: u8 = 0;
        while level < height
            invariant
                level <= height,
                1 <= height <= 20,
                self.height == height,
                h == height as nat,
                self.zeros@ == old(self).zeros@,
                self.zeros@.len() == height as int,
                forall|l: int|
                    0 <= l < height ==> (#[trigger] self.zeros@[l])@ == zeros_at(l as nat),
                self.root == old(self).root,
                self.next_index == old(self).next_index,
                self.leaves@ == new_leaves,
                new_leaves == old(self).leaves@.push(leaf@),
                new_leaves.len() == n + 1,
                n == leaf_index,
                n < pow2(h),
                self.filled_subtrees@.len() == height as int,
                idx == level_index(n, level as nat),
                current@ == block_hash(new_leaves, h, level as nat, level_index(n, level as nat) as nat),
                forall|l: int|
                    level <= l < height && level_index(n, l as nat) % 2 == 1 ==> (
                    #[trigger] self.filled_subtrees@[l])@ == block_hash(
                        new_leaves,
                        h,
                        l as nat,
                        (level_index(n, l as nat) - 1) as nat,
                    ),
                forall|l: int|
                    0 <= l < level && level_index((n + 1) as nat, l as nat) % 2 == 1 ==> (
                    #[trigger] self.filled_subtrees@[l])@ == block_hash(
                        new_leaves,
                        h,
                        l as nat,
                        (level_index((n + 1) as nat, l as nat) - 1) as nat,
                    ),
            decreases height - level,
        {
            let lvl = level as usize;
            let ghost lev = level as nat;
            let ghost q = level_index(n, lev);
            let ghost p = pow2(lev) as int;
            let ghost cap_here = pow2((h - lev) as nat) as int;
            proof {
                lemma_pow2_pos(lev);
                lemma_level_index_bounds(n, h, lev);
                lemma_level_step(n, lev);
                lemma_succ_level_index(n, lev);
                lemma_pow2_adds((h - lev - 1) as nat, 1);
                lemma_pow2_adds((h - lev) as nat, lev);
                lemma_pow2_unfold((h - lev) as nat);
            }
            if idx % 2 == 0 {
                self.filled_subtrees[lvl] = current;
                let z = self.zeros[lvl];
                let next = hash_pair(&current, &z);
                proof {
                    // the right sibling block lies wholly beyond the leaves
                    assert(q + 2 <= cap_here);
                    assert((q + 2) * p <= cap_here * p) by {
                        lemma_mul_inequality(q + 2, cap_here, p);
                    }
                    assert(cap_here * p == pow2(h) as int);
                    lemma_mul_succ(q, p);
                    lemma_mul_succ(q + 1, p);
                    lemma_pow2_unfold((lev + 1) as nat);
                    assert((q / 2 + 1) * pow2((lev + 1) as nat) == (q + 2) * p) by (nonlinear_arith)
                        requires
                            q % 2 == 0,
                            q >= 0,
                            p == pow2(lev) as int,
                            pow2((lev + 1) as nat) == 2 * pow2(lev),
                    ;
                    lemma_block_all_padding(new_leaves, h, lev, (q + 1) as nat);
                    lemma_block_split(new_leaves, h, lev, (q / 2) as nat);
                    assert(2 * (q / 2) == q);
                    assert(next@ == block_hash(new_leaves, h, (lev + 1) as nat, (q / 2) as nat));
                }
                current = next;
            } else {
                let f = self.filled_subtrees[lvl];
                let next = hash_pair(&f, &current);
                proof {
                    assert(q + 1 <= cap_here);
                    assert((q + 1) * p <= cap_here * p) by {
                        lemma_mul_inequality(q + 1, cap_here, p);
                    }
                    assert(cap_here * p == pow2(h) as int);
                    lemma_mul_succ(q, p);
                    lemma_mul_succ(q / 2, pow2((lev + 1) as nat) as int);
                    lemma_pow2_unfold((lev + 1) as nat);
                    assert((q / 2 + 1) * pow2((lev + 1) as nat) == (q + 1) * p) by (nonlinear_arith)
                        requires
                            q % 2 == 1,
                            p == pow2(lev) as int,
                            pow2((lev + 1) as nat) == 2 * pow2(lev),
                    ;
                    lemma_block_split(new_leaves, h, lev, (q / 2) as nat);
                    assert(2 * (q / 2) == q - 1);
                    assert(next@ == block_hash(new_leaves, h, (lev + 1) as nat, (q / 2) as nat));
                }
                current = next;
            }
            idx = idx / 2;
            level = level + 1;
        }
        self.root = current;
        self.next_index = leaf_index + 1;
        proof {
            lemma_basic_div(n as int, pow2(h) as int);
            lemma_pow2_pos(h);
            lemma_root_is_block(new_leaves, h);
        }
        Ok(())
    }

    /// Recomputes the root from the cached frontier alone, combining the
    /// frontier entry of each level with the precomputed zero of the levels
    /// whose subtrees are still empty. Agrees with the stored root after
    /// every insertion.
    pub fn compute_root(&self) -> (root: [u8; 32])
        requires
            self.wf(),
        ensures
            root@ == merkle_root_of(self.leaves@, self.height as nat),
    {
        let height = self.height;
        let ghost h = height as nat;
        let ghost n = self.leaves@.len();
        let cap = pow2_u64(height);
        if self.next_index == cap {
            proof {
                lemma_pow2_pos(h);
            }
            return self.root;
        }
        let mut current: [u8; 32] = [0u8; 32];
        proof {
            lemma2_to64();
            assert(pow2(0) == 1);
            lemma_pow2_pos(h);
            lemma_mul_succ(n as int, 1);
            lemma_block_all_padding(self.leaves@, h, 0, n);
            assert(current@ =~= zero_bytes());
        }
        let mut idx: u64 = self.next_index;
        let mut level: u8 = 0;
        while level < height
            invariant
                level <= height,
                1 <= height <= 20,
                self.wf(),
                self.height == height,
                h == height as nat,
                n == self.leaves@.len(),
                n < pow2(h),
                idx == level_index(n, level as nat),
                current@ == block_hash(
                    self.leaves@,
                    h,
                    level as nat,
                    level_index(n, level as nat) as nat,
                ),
            decreases height - level,
        {
            let lvl = level as usize;
            let ghost lev = level as nat;
            let ghost q = level_index(n, lev);
            let ghost p = pow2(lev) as int;
            let ghost cap_here = pow2((h - lev) as nat) as int;
            proof {
                lemma_pow2_pos(lev);
                lemma_level_index_bounds(n, h, lev);
                lemma_level_step(n, lev);
                lemma_pow2_adds((h - lev) as nat, lev);
                lemma_pow2_unfold((h - lev) as nat);
                lemma_pow2_unfold((lev + 1) as nat);
            }
            if idx % 2 == 0 {
                let z = self.zeros[lvl];
                let next = hash_pair(&current, &z);
                proof {
                    assert(q + 2 <= cap_here);
                    assert((q + 2) * p <= cap_here * p) by {
                        lemma_mul_inequality(q + 2, cap_here, p);
                    }
                    assert(cap_here * p == pow2(h) as int);
                    lemma_mul_succ(q, p);
                    lemma_mul_succ(q + 1, p);
                    assert((q / 2 + 1) * pow2((lev + 1) as nat) == (q + 2) * p) by (nonlinear_arith)
                        requires
                            q % 2 == 0,
                            q >= 0,
                            p == pow2(lev) as int,
                            pow2((lev + 1) as nat) == 2 * pow2(lev),
                    ;
                    lemma_block_all_padding(self.leaves@, h, lev, (q + 1) as nat);
                    lemma_block_split(self.leaves@, h, lev, (q / 2) as nat);
                    assert(2 * (q / 2) == q);
                    assert(next@ == block_hash(self.leaves@, h, (lev + 1) as nat, (q / 2) as nat));
                }
                current = next;
            } else {
                let f = self.filled_subtrees[lvl];
                let next = hash_pair(&f, &current);
                proof {
                    assert(q + 1 <= cap_here);
                    assert((q + 1) * p <= cap_here * p) by {
                        lemma_mul_inequality(q + 1, cap_here, p);
                    }
                    assert(cap_here * p == pow2(h) as int);
                    lemma_mul_succ(q, p);
                    assert((q / 2 + 1) * pow2((lev + 1) as nat) == (q + 1) * p) by (nonlinear_arith)
                        requires
                            q % 2 == 1,
                            p == pow2(lev) as int,
                            pow2((lev + 1) as nat) == 2 * pow2(lev),
                    ;
                    lemma_block_split(self.leaves@, h, lev, (q / 2) as nat);
                    assert(2 * (q / 2) == q - 1);
                    assert(next@ == block_hash(self.leaves@, h, (lev + 1) as nat, (q / 2) as nat));
                }
                current = next;
            }
            idx = idx / 2;
            level = level + 1;
        }
        proof {
            lemma_basic_div(n as int, pow2(h) as int);
            lemma_root_is_block(self.leaves@, h);
        }
        current
    }

    /// Recomputes a candidate root from a leaf, its sibling path, and the
    /// left/right direction of each step (`true`: the running hash is the
    /// left operand), and compares it to the claimed root. A path whose
    /// length is not the tree's height is malformed and is an error, not a
    /// mismatch.
    pub fn verify_proof(
        &self,
        leaf: [u8; 32],
        proof: &Vec<[u8; 32]>,
        path_indices: &Vec<bool>,
        root: [u8; 32],
    ) -> (result: Result<bool, ErrorCode>)
        ensures
            (result is Ok) <==> (proof@.len() == self.height && path_indices@.len()
                == self.height),
            (result is Err) ==> result == Result::<bool, ErrorCode>::Err(ErrorCode::InvalidInput),
            (result matches Ok(accepted) ==> accepted == (path_root(
                leaf@,
                bytes32_seq_view(proof@),
                path_indices@,
            ) == root@)),
    {
        if proof.len() != self.height as usize || path_indices.len() != self.height as usize {
            return Err(ErrorCode::InvalidInput);
        }
        let ghost sibs = bytes32_seq_view(proof@);
        let ghost dirs = path_indices@;
        proof {
            assert(sibs.skip(0) =~= sibs);
            assert(dirs.skip(0) =~= dirs);
        }
        let mut current: [u8; 32] = leaf;
        let mut i: usize = 0;
        while i < proof.len()
            invariant
                i <= proof@.len(),
                proof@.len() == path_indices@.len(),
                sibs == bytes32_seq_view(proof@),
                dirs == path_indices@,
                sibs.len() == proof@.len(),
                path_root(leaf@, sibs, dirs) == path_root(current@, sibs.skip(i as int), dirs.skip(i as int)),
            decreases proof@.len() - i,
        {
            let e = proof[i];
            let next = if path_indices[i] {
                hash_pair(&current, &e)
            } else {
                hash_pair(&e, &current)
            };
            proof {
                assert(sibs.skip(i as int)[0] == sibs[i as int]);
                assert(sibs[i as int] == proof@[i as int]@);
                assert(dirs.skip(i as int)[0] == dirs[i as int]);
                assert(sibs.skip(i as int).skip(1) =~= sibs.skip(i as int + 1));
                assert(dirs.skip(i as int).skip(1) =~= dirs.skip(i as int + 1));
            }
            current = next;
            i = i + 1;
        }
        proof {
            assert(sibs.skip(i as int).len() == 0);
        }
        Ok(bytes32_eq(&current, &root))
    }

    /// The current root.
    pub fn get_root(&self) -> (root: [u8; 32])
        ensures
            root == self.root,
    {
        self.root
    }
}

/// The root that a sibling path claims for a leaf: fold the leaf upward,
/// placing it left or right of each sibling as the direction bit says
/// (`true`: the running hash is the left operand).
pub open spec fn path_root(leaf: Seq<u8>, siblings: Seq<Seq<u8>>, dirs: Seq<bool>) -> Seq<u8>
    recommends
        siblings.len() == dirs.len(),
    decreases siblings.len(),
{
    if siblings.len() == 0 {
        leaf
    } else {
        let step = if dirs[0] {
            node_hash(leaf, siblings[0])
        } else {
            node_hash(siblings[0], leaf)
        };
        path_root(step, siblings.skip(1), dirs.skip(1))
    }
}

/// The sibling path an honest prover reads out of the tree for a position:
/// at each level, the block next to the one holding the position.
pub open spec fn honest_siblings(leaves: Seq<Seq<u8>>, height: nat, pos: nat) -> Seq<Seq<u8>> {
    Seq::new(
        height,
        |l: int|
            {
                let q = level_index(pos, l as nat);
                if q % 2 == 0 {
                    block_hash(leaves, height, l as nat, (q + 1) as nat)
                } else {
                    block_hash(leaves, height, l as nat, (q - 1) as nat)
                }
            },
    )
}

/// The direction bits of a position's path: `true` where the position's
/// block is a left child.
pub open spec fn honest_path_indices(height: nat, pos: nat) -> Seq<bool> {
    Seq::new(height, |l: int| level_index(pos, l as nat) % 2 == 0)
}

/// Folding a position's block upward through the honest siblings from any
/// level reaches the root block.
proof fn lemma_path_fold(leaves: Seq<Seq<u8>>, height: nat, pos: nat, level: nat)
    requires
        level <= height,
        pos < pow2(height),
        leaves.len() <= pow2(height),
    ensures
        path_root(
            block_hash(leaves, height, level, level_index(pos, level) as nat),
            honest_siblings(leaves, height, pos).skip(level as int),
            honest_path_indices(height, pos).skip(level as int),
        ) == block_hash(leaves, height, height, level_index(pos, height) as nat),
    decreases height - level,
{
    let sibs = honest_siblings(leaves, height, pos);
    let dirs = honest_path_indices(height, pos);
    if level == height {
        assert(sibs.skip(level as int).len() == 0);
    } else {
        let lev = level;
        let q = level_index(pos, lev);
        let p = pow2(lev) as int;
        let cap_here = pow2((height - lev) as nat) as int;
        lemma_pow2_pos(lev);
        lemma_level_index_bounds(pos, height, lev);
        lemma_level_step(pos, lev);
        lemma_pow2_adds((height - lev) as nat, lev);
        lemma_pow2_unfold((height - lev) as nat);
        lemma_pow2_unfold((lev + 1) as nat);
        assert(sibs.skip(level as int)[0] == sibs[level as int]);
        assert(dirs.skip(level as int)[0] == dirs[level as int]);
        assert(sibs.skip(level as int).skip(1) =~= sibs.skip(level as int + 1));
        assert(dirs.skip(level as int).skip(1) =~= dirs.skip(level as int + 1));
        if q % 2 == 0 {
            assert(q + 2 <= cap_here);
            assert((q + 2) * p <= cap_here * p) by {
                lemma_mul_inequality(q + 2, cap_here, p);
            }
            assert(cap_here * p == pow2(height) as int);
            assert((q / 2 + 1) * pow2((lev + 1) as nat) == (q + 2) * p) by (nonlinear_arith)
                requires
                    q % 2 == 0,
                    q >= 0,
                    p == pow2(lev) as int,
                    pow2((lev + 1) as nat) == 2 * pow2(lev),
            ;
            lemma_block_split(leaves, height, lev, (q / 2) as nat);
            assert(2 * (q / 2) == q);
        } else {
            assert(q + 1 <= cap_here);
            assert((q + 1) * p <= cap_here * p) by {
                lemma_mul_inequality(q + 1, cap_here, p);
            }
            assert(cap_here * p == pow2(height) as int);
            assert((q / 2 + 1) * pow2((lev + 1) as nat) == (q + 1) * p) by (nonlinear_arith)
                requires
                    q % 2 == 1,
                    p == pow2(lev) as int,
                    pow2((lev + 1) as nat) == 2 * pow2(lev),
            ;
            lemma_block_split(leaves, height, lev, (q / 2) as nat);
            assert(2 * (q / 2) == q - 1);
        }
        lemma_path_fold(leaves, height, pos, (level + 1) as nat);
    }
}

/// Law: the sibling path an honest prover reads out of the tree for any
/// stored leaf folds to the tree's from-scratch root, so `verify_proof`
/// accepts it against that root.
pub proof fn lemma_honest_path_accepted(leaves: Seq<Seq<u8>>, height: nat, pos: nat)
    requires
        pos < leaves.len(),
        leaves.len() <= pow2(height),
    ensures
        honest_siblings(leaves, height, pos).len() == height,
        honest_path_indices(height, pos).len() == height,
        path_root(
            leaves[pos as int],
            honest_siblings(leaves, height, pos),
            honest_path_indices(height, pos),
        ) == merkle_root_of(leaves, height),
{
    lemma_pow2_pos(height);
    lemma_leaf_block(leaves, height, pos);
    assert(level_index(pos, 0) == pos) by {
        lemma2_to64();
        assert(pow2(0) == 1);
    }
    lemma_path_fold(leaves, height, pos, 0);
    assert(honest_siblings(leaves, height, pos).skip(0) =~= honest_siblings(leaves, height, pos));
    assert(honest_path_indices(height, pos).skip(0) =~= honest_path_indices(height, pos));
    lemma_basic_div(pos as int, pow2(height) as int);
    lemma_root_is_block(leaves, height);
}

/// Law: the honest sibling path of any stored leaf is accepted against the
/// accumulator's own current root.
pub proof fn lemma_honest_path_matches_root(tree: MerkleTree, pos: nat)
    requires
        tree.wf(),
        pos < tree.leaves@.len(),
    ensures
        path_root(
            tree.leaves@[pos as int],
            honest_siblings(tree.leaves@, tree.height as nat, pos),
            honest_path_indices(tree.height as nat, pos),
        ) == tree.root@,
{
    lemma_honest_path_accepted(tree.leaves@, tree.height as nat, pos);
}

/// Law: in every reachable accumulator state with at least one insertion,
/// the stored root equals the root obtained by hashing the full padded leaf
/// sequence from scratch.
pub proof fn lemma_incremental_root_correct(tree: MerkleTree)
    requires
        tree.wf(),
        tree.leaves@.len() > 0,
    ensures
        tree.root@ == merkle_root_of(tree.leaves@, tree.height as nat),
{
}

/// `pow2` on small exponents as a machine integer.
pub fn pow2_u64(e: u8) -> (p: u64)
    requires
        e <= 20,
    ensures
        p == pow2(e as nat),
{
    proof {
        lemma2_to64();
    }
    let mut p: u64 = 1;
    let mut l: u8 = 0;
    while l < e
        invariant
            l <= e,
            e <= 20,
            p == pow2(l as nat),
        decreases e - l,
    {
        proof {
            lemma2_to64();
            if (l as nat) < 19 {
                lemma_pow2_strictly_increases(l as nat, 19);
            }
            lemma_pow2_unfold((l + 1) as nat);
        }
        p = p * 2;
        l = l + 1;
    }
    p
}

} // verus!
