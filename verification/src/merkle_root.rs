//! What the tree computes: the root of the full binary hash tree over the
//! leaves added so far, the places of the leaves to come filled with the
//! value of an empty leaf.

use crate::merkle_tree::{
    capacity_of, climb, lemma_with_leaf_wf, lemma_with_leaves, node_hash,
    zero_at, zero_value, TreeModel,
};
use vstd::arithmetic::div_mod::{
    lemma_basic_div, lemma_div_denominator, lemma_fundamental_div_mod,
    lemma_fundamental_div_mod_converse, lemma_mod_bound,
};
use vstd::arithmetic::power2::{lemma_pow2_pos, lemma_pow2_unfold, pow2};
use vstd::prelude::*;

verus! {

/// The hash of the subtree of the given height whose leaves are those from
/// `index * 2^height` on. A place beyond the leaves holds the value of an
/// empty leaf.
pub open spec fn subtree(leaves: Seq<nat>, height: nat, index: nat) -> nat
    decreases height,
{
    if height == 0 {
        if index < leaves.len() {
            leaves[index as int]
        } else {
            zero_value()
        }
    } else {
        node_hash(
            subtree(leaves, (height - 1) as nat, 2 * index),
            subtree(leaves, (height - 1) as nat, 2 * index + 1),
        )
    }
}

/// The root of the tree of the given depth over the leaves.
pub open spec fn merkle_root(leaves: Seq<nat>, depth: nat) -> nat {
    subtree(leaves, depth, 0)
}

/// The index, at the given height, of the node above leaf `n`.
pub open spec fn above(n: nat, height: nat) -> nat {
    n / pow2(height)
}

/// Whether the tree of the given depth keeps, at each height at which the
/// next leaf will join a left sibling, the hash of that sibling.
pub open spec fn caches(filled: Seq<nat>, leaves: Seq<nat>, depth: nat) -> bool {
    forall|h: int|
        0 <= h < depth && above(leaves.len(), h as nat) % 2 == 1 ==> #[trigger] filled[h]
            == subtree(leaves, h as nat, (above(leaves.len(), h as nat) - 1) as nat)
}

/// Whether each level has the root of an empty subtree of its height.
pub open spec fn has_zeros(zeros: Seq<nat>, depth: nat) -> bool {
    forall|h: int| 0 <= h < depth ==> #[trigger] zeros[h] == zero_at(h as nat)
}

impl TreeModel {
    /// Whether the tree is the one that holds exactly the given leaves: its
    /// last root is their root, and it caches what the next leaf needs.
    pub open spec fn holds(self, leaves: Seq<nat>) -> bool {
        &&& self.wf()
        &&& self.next_index == leaves.len()
        &&& has_zeros(self.zeros, self.depth)
        &&& caches(self.filled, leaves, self.depth)
        &&& self.last_root() == merkle_root(leaves, self.depth)
    }
}

/// Division rounds down: `n` lies in the `n / p`-th stretch of length `p`.
pub proof fn lemma_div_stretch(n: nat, p: nat)
    requires
        p > 0,
    ensures
        (n / p) * p <= n < (n / p + 1) * p,
{
    lemma_fundamental_div_mod(n as int, p as int);
    lemma_mod_bound(n as int, p as int);
    let a = n / p;
    let r = n % p;
    assert(a * p == p * a && (a + 1) * p == p * a + p) by (nonlinear_arith);
}

/// One more is in the same stretch or at the start of the next one.
pub proof fn lemma_div_next(n: nat, p: nat)
    requires
        p > 0,
    ensures
        (n + 1) / p == n / p || (n + 1) / p == n / p + 1,
{
    lemma_fundamental_div_mod(n as int, p as int);
    lemma_mod_bound(n as int, p as int);
    let a = (n / p) as int;
    let r = (n % p) as int;
    if r + 1 < p {
        assert(n + 1 == a * p + (r + 1)) by (nonlinear_arith)
            requires
                n == p * a + r,
        ;
        lemma_fundamental_div_mod_converse((n + 1) as int, p as int, a, r + 1);
    } else {
        assert(n + 1 == (a + 1) * p + 0) by (nonlinear_arith)
            requires
                n == p * a + r,
                r + 1 == p,
        ;
        lemma_fundamental_div_mod_converse((n + 1) as int, p as int, a + 1, 0);
    }
}

/// The node above, one level higher, has half the index.
pub proof fn lemma_above_next(n: nat, height: nat)
    ensures
        above(n, height + 1) == above(n, height) / 2,
{
    lemma_pow2_pos(height);
    lemma_pow2_unfold(height + 1);
    lemma_div_denominator(n as int, pow2(height) as int, 2);
    assert(pow2(height) * 2 == 2 * pow2(height)) by (nonlinear_arith);
}

/// A subtree all of whose places lie beyond the leaves is an empty subtree.
pub proof fn lemma_subtree_beyond(leaves: Seq<nat>, height: nat, index: nat)
    requires
        index * pow2(height) >= leaves.len(),
    ensures
        subtree(leaves, height, index) == zero_at(height),
    decreases height,
{
    if height == 0 {
        assert(pow2(0) == 1) by {
            vstd::arithmetic::power2::lemma2_to64();
        }
        assert(index * 1 == index);
    } else {
        let h = (height - 1) as nat;
        lemma_pow2_unfold(height);
        let p = pow2(h);
        assert((2 * index) * p == index * (2 * p) && (2 * index + 1) * p >= index * (2 * p))
            by (nonlinear_arith)
            requires
                p >= 0,
        ;
        lemma_subtree_beyond(leaves, h, 2 * index);
        lemma_subtree_beyond(leaves, h, 2 * index + 1);
    }
}

/// A subtree all of whose places hold leaves is not changed by one more
/// leaf.
pub proof fn lemma_subtree_complete(leaves: Seq<nat>, leaf: nat, height: nat, index: nat)
    requires
        (index + 1) * pow2(height) <= leaves.len(),
    ensures
        subtree(leaves.push(leaf), height, index) == subtree(leaves, height, index),
    decreases height,
{
    if height == 0 {
        assert(pow2(0) == 1) by {
            vstd::arithmetic::power2::lemma2_to64();
        }
        assert((index + 1) * 1 == index + 1);
    } else {
        let h = (height - 1) as nat;
        lemma_pow2_unfold(height);
        let p = pow2(h);
        assert((2 * index + 1) * p <= (index + 1) * (2 * p) && (2 * index + 1 + 1) * p == (index
            + 1) * (2 * p)) by (nonlinear_arith)
            requires
                p >= 0,
        ;
        lemma_subtree_complete(leaves, leaf, h, 2 * index);
        lemma_subtree_complete(leaves, leaf, h, 2 * index + 1);
    }
}

/// The way up from a new leaf passes the nodes above the leaf, and gives the
/// root of the tree with the leaf and the cache that the leaf after it
/// needs.
pub proof fn lemma_climb_tree(
    zeros: Seq<nat>,
    filled: Seq<nat>,
    level: nat,
    depth: nat,
    leaves: Seq<nat>,
    leaf: nat,
)
    requires
        level <= depth,
        zeros.len() == depth,
        filled.len() == depth,
        leaves.len() < pow2(depth),
        has_zeros(zeros, depth),
        forall|h: int|
            0 <= h < level && above(leaves.len() + 1, h as nat) % 2 == 1 ==> #[trigger] filled[h]
                == subtree(
                leaves.push(leaf),
                h as nat,
                (above(leaves.len() + 1, h as nat) - 1) as nat,
            ),
        forall|h: int|
            level <= h < depth && above(leaves.len(), h as nat) % 2 == 1 ==> #[trigger] filled[h]
                == subtree(leaves, h as nat, (above(leaves.len(), h as nat) - 1) as nat),
    ensures
        ({
            let up = climb(
                zeros,
                filled,
                above(leaves.len(), level),
                subtree(leaves.push(leaf), level, above(leaves.len(), level)),
                level,
                depth,
            );
            &&& up.1 == merkle_root(leaves.push(leaf), depth)
            &&& up.0.len() == depth
            &&& caches(up.0, leaves.push(leaf), depth)
        }),
    decreases depth - level,
{
    let n = leaves.len();
    let grown = leaves.push(leaf);
    let index = above(n, level);
    let current = subtree(grown, level, index);
    if level >= depth {
        lemma_basic_div(n as int, pow2(depth) as int);
        assert(above(n, depth) == 0);
        assert forall|h: int|
            0 <= h < depth && above(grown.len(), h as nat) % 2 == 1 implies #[trigger] filled[h]
            == subtree(grown, h as nat, (above(grown.len(), h as nat) - 1) as nat) by {}
    } else {
        let p = pow2(level);
        lemma_pow2_pos(level);
        lemma_div_stretch(n, p);
        lemma_div_next(n, p);
        lemma_above_next(n, level);
        let next = above(n, level + 1);
        assert(next == index / 2);
        if index % 2 == 0 {
            let cached = filled.update(level as int, current);
            let parent = node_hash(current, zeros[level as int]);
            lemma_subtree_beyond(grown, level, index + 1);
            assert(2 * next == index);
            assert(subtree(grown, level + 1, next) == node_hash(
                subtree(grown, level, 2 * next),
                subtree(grown, level, 2 * next + 1),
            ));
            assert(parent == subtree(grown, level + 1, next));
            assert forall|h: int|
                0 <= h < level + 1 && above(n + 1, h as nat) % 2 == 1 implies #[trigger] cached[h]
                == subtree(grown, h as nat, (above(n + 1, h as nat) - 1) as nat) by {
                if h < level {
                    assert(cached[h] == filled[h]);
                }
            }
            assert forall|h: int|
                level + 1 <= h < depth && above(n, h as nat) % 2 == 1 implies #[trigger] cached[h]
                == subtree(leaves, h as nat, (above(n, h as nat) - 1) as nat) by {
                assert(cached[h] == filled[h]);
            }
            lemma_climb_tree(zeros, cached, level + 1, depth, leaves, leaf);
        } else {
            let parent = node_hash(filled[level as int], current);
            assert(filled[level as int] == subtree(leaves, level, (index - 1) as nat));
            lemma_subtree_complete(leaves, leaf, level, (index - 1) as nat);
            assert(2 * next + 1 == index);
            assert(subtree(grown, level + 1, next) == node_hash(
                subtree(grown, level, 2 * next),
                subtree(grown, level, 2 * next + 1),
            ));
            assert(parent == subtree(grown, level + 1, next));
            assert forall|h: int|
                0 <= h < level + 1 && above(n + 1, h as nat) % 2 == 1 implies #[trigger] filled[h]
                == subtree(grown, h as nat, (above(n + 1, h as nat) - 1) as nat) by {}
            lemma_climb_tree(zeros, filled, level + 1, depth, leaves, leaf);
        }
    }
}

/// An empty tree holds no leaves.
pub proof fn lemma_empty_holds(depth: nat)
    requires
        1 <= depth < 32,
    ensures
        TreeModel::empty(depth).holds(Seq::empty()),
{
    let t = TreeModel::empty(depth);
    let none = Seq::<nat>::empty();
    lemma_pow2_pos(depth);
    assert forall|h: int| 0 <= h < depth implies #[trigger] above(0, h as nat) % 2 == 0 by {
        lemma_pow2_pos(h as nat);
        lemma_basic_div(0, pow2(h as nat) as int);
    }
    lemma_subtree_beyond(none, depth, 0);
    assert(0 * pow2(depth) == 0) by (nonlinear_arith);
}

/// A tree that holds some leaves and is not full holds, after one more leaf,
/// those leaves and the new one.
pub proof fn lemma_insert_holds(t: TreeModel, leaves: Seq<nat>, leaf: nat)
    requires
        t.holds(leaves),
        !t.is_full(),
    ensures
        t.insert(leaf).0.holds(leaves.push(leaf)),
{
    lemma_with_leaf_wf(t, leaf);
    assert(pow2(0) == 1) by {
        vstd::arithmetic::power2::lemma2_to64();
    }
    assert(above(leaves.len(), 0) == leaves.len());
    lemma_climb_tree(t.zeros, t.filled, 0, t.depth, leaves, leaf);
}

/// The last root of a tree is the root of the full hash tree over the leaves
/// that were added to it, in their order.
pub proof fn lemma_root_of_leaves(depth: nat, leaves: Seq<nat>)
    requires
        1 <= depth < 32,
        leaves.len() <= capacity_of(depth),
    ensures
        TreeModel::empty(depth).with_leaves(leaves).holds(leaves),
        TreeModel::empty(depth).with_leaves(leaves).last_root() == merkle_root(leaves, depth),
    decreases leaves.len(),
{
    let t = TreeModel::empty(depth);
    if leaves.len() == 0 {
        lemma_empty_holds(depth);
        assert(leaves =~= Seq::<nat>::empty());
    } else {
        let rest = leaves.drop_last();
        lemma_root_of_leaves(depth, rest);
        assert(t.wf()) by {
            lemma_pow2_pos(depth);
        }
        lemma_with_leaves(t, rest);
        lemma_insert_holds(t.with_leaves(rest), rest, leaves.last());
        assert(rest.push(leaves.last()) =~= leaves);
    }
}

} // verus!
