//! An append-only binary hash tree of fixed depth that keeps, besides the
//! path it needs to add the next leaf, a ring of the roots it had most
//! recently.
#![allow(non_snake_case)]

use crate::merkle_root::{lemma_empty_holds, lemma_insert_holds};
use crate::poseidon::{hash_pair, poseidon};
use crate::uint256::{values_of, U256};
use vstd::arithmetic::power2::*;
use vstd::prelude::*;

verus! {

/// How many roots the tree remembers.
pub const ROOT_HISTORY_SIZE: u32 = 100;

/// The value of a leaf that holds nothing.
pub open spec fn zero_value() -> nat {
    21663839004416932945382355908790599225266501822907911457504978515578255421292nat
}

/// The hash of a node with the given children.
pub open spec fn node_hash(left: nat, right: nat) -> nat {
    poseidon(seq![left, right])
}

/// The root of a subtree of the given height whose leaves all hold nothing.
pub open spec fn zero_at(height: nat) -> nat
    decreases height,
{
    if height == 0 {
        zero_value()
    } else {
        node_hash(zero_at((height - 1) as nat), zero_at((height - 1) as nat))
    }
}

/// The number of leaves that a tree of the given depth holds.
pub open spec fn capacity_of(depth: nat) -> nat {
    pow2(depth)
}

/// The path from a new leaf up to the root. At each level the node joins its
/// sibling: an empty subtree on its right where its index is even, the cached
/// subtree on its left where it is odd. A node with an even index is cached
/// for the sibling to come. Gives the cache and the root.
pub open spec fn climb(
    zeros: Seq<nat>,
    filled: Seq<nat>,
    index: nat,
    current: nat,
    level: nat,
    depth: nat,
) -> (Seq<nat>, nat)
    decreases depth - level,
{
    if level >= depth {
        (filled, current)
    } else if index % 2 == 0 {
        climb(
            zeros,
            filled.update(level as int, current),
            index / 2,
            node_hash(current, zeros[level as int]),
            level + 1,
            depth,
        )
    } else {
        climb(zeros, filled, index / 2, node_hash(filled[level as int], current), level + 1, depth)
    }
}

/// What a tree holds, as numbers.
pub struct TreeModel {
    pub depth: nat,
    pub zeros: Seq<nat>,
    pub filled: Seq<nat>,
    pub cursor: nat,
    pub next_index: nat,
    pub roots: Seq<nat>,
    pub zero_value: nat,
}

impl TreeModel {
    /// The shape that every tree keeps.
    pub open spec fn wf(self) -> bool {
        &&& 1 <= self.depth < 32
        &&& self.zeros.len() == self.depth
        &&& self.filled.len() == self.depth
        &&& self.roots.len() == ROOT_HISTORY_SIZE
        &&& self.cursor < ROOT_HISTORY_SIZE
        &&& self.next_index <= capacity_of(self.depth)
    }

    /// The tree of the given depth with no leaf.
    pub open spec fn empty(depth: nat) -> TreeModel {
        TreeModel {
            depth,
            zeros: Seq::new(depth, |i: int| zero_at(i as nat)),
            filled: Seq::new(depth, |i: int| zero_at(i as nat)),
            cursor: 0,
            next_index: 0,
            roots: Seq::new(
                ROOT_HISTORY_SIZE as nat,
                |i: int|
                    if i == 0 {
                        zero_at(depth)
                    } else {
                        0
                    },
            ),
            zero_value: zero_value(),
        }
    }

    /// Whether no further leaf fits.
    pub open spec fn is_full(self) -> bool {
        self.next_index == capacity_of(self.depth)
    }

    /// The root that the tree had last.
    pub open spec fn last_root(self) -> nat {
        self.roots[self.cursor as int]
    }

    /// The slot of the ring that the next root goes to.
    pub open spec fn next_cursor(self) -> nat {
        ((self.cursor + 1) % 100) as nat
    }

    /// The tree after one more leaf, where it is not full.
    pub open spec fn with_leaf(self, leaf: nat) -> TreeModel {
        let (filled, root) = climb(self.zeros, self.filled, self.next_index, leaf, 0, self.depth);
        TreeModel {
            filled,
            cursor: self.next_cursor(),
            next_index: self.next_index + 1,
            roots: self.roots.update(self.next_cursor() as int, root),
            ..self
        }
    }

    /// The tree after an attempt to add a leaf, and the index the leaf got;
    /// a full tree stays as it is.
    pub open spec fn insert(self, leaf: nat) -> (TreeModel, Option<nat>) {
        if self.is_full() {
            (self, None)
        } else {
            (self.with_leaf(leaf), Some(self.next_index))
        }
    }

    /// Whether `root` is accepted: it is not zero and the ring holds it.
    pub open spec fn knows_root(self, root: nat) -> bool {
        root != 0 && self.roots.contains(root)
    }

    /// The tree after an attempt to add each of the leaves, the first one
    /// first.
    pub open spec fn with_leaves(self, leaves: Seq<nat>) -> TreeModel
        decreases leaves.len(),
    {
        if leaves.len() == 0 {
            self
        } else {
            self.with_leaves(leaves.drop_last()).insert(leaves.last()).0
        }
    }

    /// The root that the tree has after the first `k + 1` of the leaves.
    pub open spec fn root_after(self, leaves: Seq<nat>, k: int) -> nat {
        self.with_leaves(leaves.take(k + 1)).last_root()
    }

    /// Whether the tree has room for `n` more leaves.
    pub open spec fn has_room(self, n: nat) -> bool {
        self.next_index + n <= capacity_of(self.depth)
    }
}

/// The node that `steps` levels of a path lead to from `current`: at each
/// level the node joins the element of the path, which stands on its right
/// where the index of the level is 0 and on its left where it is 1.
pub open spec fn path_node(current: nat, indices: Seq<nat>, elements: Seq<nat>, steps: nat) -> nat
    decreases steps,
{
    if steps == 0 {
        current
    } else {
        let below = path_node(current, indices, elements, (steps - 1) as nat);
        if indices[steps - 1] == 0 {
            node_hash(below, elements[steps - 1])
        } else {
            node_hash(elements[steps - 1], below)
        }
    }
}

/// The root that a path leads to from a leaf.
pub open spec fn path_root(leaf: nat, indices: Seq<nat>, elements: Seq<nat>) -> nat {
    path_node(leaf, indices, elements, indices.len())
}

/// The first steps of a path do not depend on what comes after them.
pub proof fn lemma_path_node_prefix(
    current: nat,
    indices: Seq<nat>,
    elements: Seq<nat>,
    index: nat,
    element: nat,
    steps: nat,
)
    requires
        steps <= indices.len(),
        steps <= elements.len(),
    ensures
        path_node(current, indices.push(index), elements.push(element), steps) == path_node(
            current,
            indices,
            elements,
            steps,
        ),
    decreases steps,
{
    if steps > 0 {
        lemma_path_node_prefix(current, indices, elements, index, element, (steps - 1) as nat);
    }
}

/// The cache keeps its length on the way up.
pub proof fn lemma_climb_len(
    zeros: Seq<nat>,
    filled: Seq<nat>,
    index: nat,
    current: nat,
    level: nat,
    depth: nat,
)
    requires
        depth <= filled.len(),
    ensures
        climb(zeros, filled, index, current, level, depth).0.len() == filled.len(),
    decreases depth - level,
{
    if level < depth {
        if index % 2 == 0 {
            lemma_climb_len(
                zeros,
                filled.update(level as int, current),
                index / 2,
                node_hash(current, zeros[level as int]),
                level + 1,
                depth,
            );
        } else {
            lemma_climb_len(
                zeros,
                filled,
                index / 2,
                node_hash(filled[level as int], current),
                level + 1,
                depth,
            );
        }
    }
}

/// Adding a leaf to a well-formed tree that is not full leaves it
/// well-formed.
pub proof fn lemma_with_leaf_wf(t: TreeModel, leaf: nat)
    requires
        t.wf(),
        !t.is_full(),
    ensures
        t.with_leaf(leaf).wf(),
{
    lemma_climb_len(t.zeros, t.filled, t.next_index, leaf, 0, t.depth);
}

/// The last root of an empty tree is the root of the empty subtree of the
/// tree's depth: it depends on the depth and on the value of an empty leaf
/// alone.
pub proof fn lemma_empty_root(depth: nat)
    ensures
        TreeModel::empty(depth).last_root() == zero_at(depth),
{
}

/// Leaves that fit are all taken: each gets the next index, and the tree
/// keeps its shape.
pub proof fn lemma_with_leaves(t: TreeModel, leaves: Seq<nat>)
    requires
        t.wf(),
        t.has_room(leaves.len()),
    ensures
        t.with_leaves(leaves).wf(),
        t.with_leaves(leaves).depth == t.depth,
        t.with_leaves(leaves).zeros == t.zeros,
        t.with_leaves(leaves).next_index == t.next_index + leaves.len(),
        t.with_leaves(leaves).cursor == (t.cursor + leaves.len()) % 100,
    decreases leaves.len(),
{
    if leaves.len() > 0 {
        let before = t.with_leaves(leaves.drop_last());
        lemma_with_leaves(t, leaves.drop_last());
        lemma_with_leaf_wf(before, leaves.last());
        assert((((t.cursor + leaves.len() - 1) % 100) + 1) % 100 == (t.cursor + leaves.len())
            % 100) by (nonlinear_arith)
            requires
                t.cursor + leaves.len() - 1 >= 0,
        ;
    }
}

/// A tree of depth `d` takes `2^d` leaves, each at the next index. It then
/// refuses any further leaf and stays as it is.
pub proof fn lemma_capacity(depth: nat, leaves: Seq<nat>, extra: nat)
    requires
        1 <= depth < 32,
        leaves.len() == capacity_of(depth),
    ensures
        forall|k: int|
            0 <= k < leaves.len() ==> (#[trigger] TreeModel::empty(depth).with_leaves(
                leaves.take(k),
            )).insert(leaves[k]).1 == Some(k as nat),
        TreeModel::empty(depth).with_leaves(leaves).insert(extra) == (
            TreeModel::empty(depth).with_leaves(leaves),
            None::<nat>,
        ),
{
    let t = TreeModel::empty(depth);
    assert(t.wf()) by {
        lemma_pow2_pos(depth);
    }
    assert forall|k: int| 0 <= k < leaves.len() implies (#[trigger] t.with_leaves(
        leaves.take(k),
    )).insert(leaves[k]).1 == Some(k as nat) by {
        lemma_with_leaves(t, leaves.take(k));
    }
    lemma_with_leaves(t, leaves);
}

/// After a leaf was added, the last root is a known root, unless it is
/// zero.
pub proof fn lemma_last_root_known(t: TreeModel, leaf: nat)
    requires
        t.wf(),
        !t.is_full(),
        t.insert(leaf).0.last_root() != 0,
    ensures
        t.insert(leaf).0.knows_root(t.insert(leaf).0.last_root()),
{
    let after = t.insert(leaf).0;
    lemma_with_leaf_wf(t, leaf);
    assert(after.roots[after.cursor as int] == after.last_root());
}

/// Zero is not a known root, whatever the tree has held.
pub proof fn lemma_zero_unknown(t: TreeModel)
    ensures
        !t.knows_root(0),
{
}

/// The slot of the ring that held the last root `back` inserts ago, after
/// `n` inserts into a tree whose cursor was at `cursor`.
pub open spec fn slot_of(cursor: nat, n: nat, back: int) -> int {
    (cursor + n - back) % 100
}

/// After `n` leaves, the ring holds the roots of the last inserts, at most
/// 100 of them, the newest at the cursor and the older ones behind it.
pub proof fn lemma_ring(t: TreeModel, leaves: Seq<nat>, back: int)
    requires
        t.wf(),
        t.has_room(leaves.len()),
        0 <= back < 100,
        back < leaves.len(),
    ensures
        t.with_leaves(leaves).roots[slot_of(t.cursor, leaves.len(), back)] == t.root_after(
            leaves,
            leaves.len() - 1 - back,
        ),
    decreases leaves.len(),
{
    let n = leaves.len();
    let rest = leaves.drop_last();
    let before = t.with_leaves(rest);
    lemma_with_leaves(t, rest);
    lemma_with_leaves(t, leaves);
    lemma_with_leaf_wf(before, leaves.last());
    if back == 0 {
        assert(leaves.take(n as int) =~= leaves);
    } else {
        lemma_ring(t, rest, back - 1);
        assert(rest.take(n - 1 - back + 1) =~= leaves.take(n - 1 - back + 1));
        assert(slot_of(t.cursor, (n - 1) as nat, back - 1) == slot_of(t.cursor, n, back));
        assert(slot_of(t.cursor, n, back) != slot_of(t.cursor, n, 0));
        assert(before.next_cursor() == slot_of(t.cursor, n, 0)) by {
            assert((((t.cursor + n - 1) % 100) + 1) % 100 == (t.cursor + n) % 100)
                by (nonlinear_arith)
                requires
                    t.cursor + n - 1 >= 0,
            ;
        }
    }
}

/// The roots of the last 100 inserts are known roots, each unless it is
/// zero.
pub proof fn lemma_recent_root_known(t: TreeModel, leaves: Seq<nat>, k: int)
    requires
        t.wf(),
        t.has_room(leaves.len()),
        0 <= k < leaves.len(),
        leaves.len() - 100 <= k,
        t.root_after(leaves, k) != 0,
    ensures
        t.with_leaves(leaves).knows_root(t.root_after(leaves, k)),
{
    let back = leaves.len() - 1 - k;
    lemma_ring(t, leaves, back);
    lemma_with_leaves(t, leaves);
    let after = t.with_leaves(leaves);
    let slot = slot_of(t.cursor, leaves.len(), back);
    assert(0 <= slot < 100);
    assert(after.roots[slot] == t.root_after(leaves, k));
}

/// After 100 inserts or more, a known root is the root of one of the last
/// 100 inserts.
pub proof fn lemma_known_root_is_recent(t: TreeModel, leaves: Seq<nat>, root: nat)
    requires
        t.wf(),
        t.has_room(leaves.len()),
        leaves.len() >= 100,
        t.with_leaves(leaves).knows_root(root),
    ensures
        exists|k: int| leaves.len() - 100 <= k < leaves.len() && t.root_after(leaves, k) == root,
{
    let n = leaves.len();
    let after = t.with_leaves(leaves);
    lemma_with_leaves(t, leaves);
    let slot = choose|i: int| 0 <= i < after.roots.len() && after.roots[i] == root;
    let back = (t.cursor + n - slot) % 100;
    assert(slot_of(t.cursor, n, back) == slot);
    lemma_ring(t, leaves, back);
    let k = n - 1 - back;
    assert(n - 100 <= k < n && t.root_after(leaves, k) == root);
}

/// After more than 100 inserts the root of the first insert is known no
/// longer, unless one of the last 100 inserts gave the same root.
pub proof fn lemma_first_root_evicted(t: TreeModel, leaves: Seq<nat>)
    requires
        t.wf(),
        t.has_room(leaves.len()),
        leaves.len() > 100,
        forall|k: int|
            leaves.len() - 100 <= k < leaves.len() ==> #[trigger] t.root_after(leaves, k)
                != t.root_after(leaves, 0),
    ensures
        !t.with_leaves(leaves).knows_root(t.root_after(leaves, 0)),
{
    if t.with_leaves(leaves).knows_root(t.root_after(leaves, 0)) {
        lemma_known_root_is_recent(t, leaves, t.root_after(leaves, 0));
    }
}

/// A hash tree with history.
#[derive(Clone, Debug, PartialEq)]
pub struct MerkleTreeWithHistory {
    pub levels: u32,
    pub filled_subtrees: Vec<U256>,
    pub zeros: Vec<U256>,
    pub current_root_index: u32,
    pub next_index: u32,
    pub roots: Vec<U256>,
    pub ZERO_VALUE: U256,
}

impl View for MerkleTreeWithHistory {
    type V = TreeModel;

    open spec fn view(&self) -> TreeModel {
        TreeModel {
            depth: self.levels as nat,
            zeros: values_of(self.zeros@),
            filled: values_of(self.filled_subtrees@),
            cursor: self.current_root_index as nat,
            next_index: self.next_index as nat,
            roots: values_of(self.roots@),
            zero_value: self.ZERO_VALUE@,
        }
    }
}

/// The slot that a backward walk of the ring reaches from `start` after the
/// given number of steps.
pub open spec fn slot_before(start: int, steps: int) -> int {
    (start + 100 - steps) % 100
}

/// The indices of a path, as numbers.
pub open spec fn bits_of(indices: Seq<u32>) -> Seq<nat> {
    indices.map_values(|b: u32| b as nat)
}

/// The value of an empty leaf.
fn empty_leaf() -> (r: U256)
    ensures
        r@ == zero_value(),
{
    U256::from_halves(
        0x2fe54c60d3acabf3343a35b6eba15db4u128,
        0x821b340f76e741e2249685ed4899af6cu128,
    )
}

/// `2^levels`.
fn capacity(levels: u32) -> (r: u32)
    requires
        levels < 32,
    ensures
        r == capacity_of(levels as nat),
{
    let mut r: u32 = 1;
    let mut i: u32 = 0;
    proof {
        lemma2_to64();
    }
    while i < levels
        invariant
            i <= levels,
            levels < 32,
            r == pow2(i as nat),
            r <= pow2(31),
            pow2(31) == 0x8000_0000,
        decreases levels - i,
    {
        proof {
            lemma_pow2_unfold((i + 1) as nat);
            if i + 1 < 31 {
                lemma_pow2_strictly_increases((i + 1) as nat, 31);
            }
        }
        r = r * 2;
        i += 1;
    }
    r
}

impl MerkleTreeWithHistory {
    /// The shape that every tree keeps.
    pub open spec fn wf(&self) -> bool {
        self@.wf()
    }

    /// Decides `wf`: whether the parts of the tree have the sizes that go
    /// with its depth.
    pub fn is_well_formed(&self) -> (r: bool)
        ensures
            r == self.wf(),
    {
        if !(1 <= self.levels && self.levels < 32) {
            return false;
        }
        let depth: usize = self.levels as usize;
        self.zeros.len() == depth && self.filled_subtrees.len() == depth && self.roots.len()
            == ROOT_HISTORY_SIZE as usize && self.current_root_index < ROOT_HISTORY_SIZE
            && self.next_index <= capacity(self.levels)
    }

    /// An empty tree of the given depth.
    pub fn new(levels: u32) -> (r: Self)
        requires
            0 < levels < 32,
        ensures
            r.wf(),
            r@ == TreeModel::empty(levels as nat),
            r@.last_root() == zero_at(levels as nat),
            r@.holds(Seq::empty()),
    {
        proof {
            lemma_empty_holds(levels as nat);
        }
        let zero = empty_leaf();
        let mut zeros: Vec<U256> = Vec::new();
        let mut filled_subtrees: Vec<U256> = Vec::new();
        let mut current_zero = zero;
        zeros.push(current_zero);
        filled_subtrees.push(current_zero);
        let mut i: u32 = 1;
        while i < levels
            invariant
                1 <= i <= levels,
                zeros@.len() == i,
                filled_subtrees@ == zeros@,
                forall|j: int| 0 <= j < i ==> (#[trigger] zeros@[j])@ == zero_at(j as nat),
                current_zero@ == zero_at((i - 1) as nat),
            decreases levels - i,
        {
            current_zero = hash_pair(&current_zero, &current_zero);
            zeros.push(current_zero);
            filled_subtrees.push(current_zero);
            i += 1;
        }
        let mut roots: Vec<U256> = Vec::new();
        let mut k: u32 = 0;
        while k < ROOT_HISTORY_SIZE
            invariant
                k <= ROOT_HISTORY_SIZE,
                roots@.len() == k,
                forall|j: int| 0 <= j < k ==> (#[trigger] roots@[j])@ == 0,
            decreases ROOT_HISTORY_SIZE - k,
        {
            roots.push(U256::zero());
            k += 1;
        }
        roots[0] = hash_pair(&current_zero, &current_zero);
        let r = MerkleTreeWithHistory {
            levels,
            filled_subtrees,
            zeros,
            current_root_index: 0,
            next_index: 0,
            roots,
            ZERO_VALUE: zero,
        };
        proof {
            let m = TreeModel::empty(levels as nat);
            assert(r@.zeros =~= m.zeros);
            assert(r@.filled =~= m.filled);
            assert(r@.roots =~= m.roots);
        }
        r
    }

    /// An empty tree of the given depth; nothing where the depth is zero or
    /// 32 or more.
    pub fn try_new(levels: u32) -> (r: Option<Self>)
        ensures
            r is Some <==> 0 < levels < 32,
            r is Some ==> r.unwrap().wf() && r.unwrap()@ == TreeModel::empty(levels as nat)
                && r.unwrap()@.holds(Seq::empty()),
    {
        if 0 < levels && levels < 32 {
            Some(Self::new(levels))
        } else {
            None
        }
    }

    /// The hash of a node with the given children.
    pub fn hash_left_right(&self, left: &U256, right: &U256) -> (r: U256)
        ensures
            r@ == node_hash(left@, right@),
    {
        hash_pair(left, right)
    }

    /// Adds a leaf and gives its index. A full tree gives nothing and stays
    /// as it is. A tree that held some leaves holds, after the call, those
    /// and the new one: its last root is the root of the full hash tree over
    /// them.
    pub fn insert(&mut self, leaf: &U256) -> (r: Option<u32>)
        requires
            old(self).wf(),
        ensures
            final(self).wf(),
            final(self)@ == old(self)@.insert(leaf@).0,
            r is Some <==> !old(self)@.is_full(),
            r is Some ==> r.unwrap() == old(self).next_index,
            r is None ==> *final(self) == *old(self),
            r is Some ==> forall|leaves: Seq<nat>| #[trigger]
                old(self)@.holds(leaves) ==> final(self)@.holds(leaves.push(leaf@)),
    {
        let mut idx: u32 = self.next_index;
        if idx == capacity(self.levels) {
            return None;
        }
        proof {
            lemma2_to64();
            if self.levels < 31 {
                lemma_pow2_strictly_increases(self.levels as nat, 31);
            }
            lemma_with_leaf_wf(old(self)@, leaf@);
            assert forall|leaves: Seq<nat>| #[trigger] old(self)@.holds(leaves) implies old(
                self,
            )@.insert(leaf@).0.holds(leaves.push(leaf@)) by {
                lemma_insert_holds(old(self)@, leaves, leaf@);
            }
        }
        let assigned: u32 = idx;
        self.next_index = self.next_index + 1;
        let mut current: U256 = *leaf;
        let mut i: u32 = 0;
        while i < self.levels
            invariant
                i <= self.levels,
                self.levels == old(self).levels,
                self.zeros == old(self).zeros,
                self.roots == old(self).roots,
                self.current_root_index == old(self).current_root_index,
                self.next_index == old(self).next_index + 1,
                self.ZERO_VALUE == old(self).ZERO_VALUE,
                old(self).wf(),
                self.filled_subtrees@.len() == self.levels,
                climb(
                    self@.zeros,
                    self@.filled,
                    idx as nat,
                    current@,
                    i as nat,
                    self.levels as nat,
                ) == climb(
                    old(self)@.zeros,
                    old(self)@.filled,
                    old(self).next_index as nat,
                    leaf@,
                    0,
                    old(self).levels as nat,
                ),
            decreases self.levels - i,
        {
            let ghost filled_before = self@.filled;
            let left: U256;
            let right: U256;
            if idx % 2 == 0 {
                left = current;
                right = self.zeros[i as usize];
                self.filled_subtrees[i as usize] = current;
                proof {
                    assert(self@.filled =~= filled_before.update(i as int, current@));
                }
            } else {
                left = self.filled_subtrees[i as usize];
                right = current;
            }
            current = hash_pair(&left, &right);
            idx = idx / 2;
            i += 1;
        }
        self.current_root_index = (self.current_root_index + 1) % ROOT_HISTORY_SIZE;
        let slot: usize = self.current_root_index as usize;
        self.roots[slot] = current;
        proof {
            let m = old(self)@.with_leaf(leaf@);
            assert(self@.roots =~= m.roots);
            assert(self@.filled =~= m.filled);
        }
        Some(assigned)
    }

    /// Adds a leaf as `insert` does, and gives its index with the path from
    /// it to the new root: for each level, from the leaves up, whether the
    /// node on the way is a right child (1) or a left one (0), and the hash
    /// of its sibling.
    pub fn insert_and_return_path(&mut self, leaf: &U256) -> (r: Option<
        (u32, Vec<u32>, Vec<U256>),
    >)
        requires
            old(self).wf(),
        ensures
            final(self).wf(),
            final(self)@ == old(self)@.insert(leaf@).0,
            r is Some <==> !old(self)@.is_full(),
            r is None ==> *final(self) == *old(self),
            r is Some ==> ({
                let (index, indices, elements) = r.unwrap();
                &&& index == old(self).next_index
                &&& indices@.len() == old(self).levels
                &&& elements@.len() == old(self).levels
                &&& forall|i: int| 0 <= i < indices@.len() ==> #[trigger] indices@[i] <= 1
                &&& path_root(leaf@, bits_of(indices@), values_of(elements@))
                    == final(self)@.last_root()
            }),
            r is Some ==> forall|leaves: Seq<nat>| #[trigger]
                old(self)@.holds(leaves) ==> final(self)@.holds(leaves.push(leaf@)),
    {
        let mut idx: u32 = self.next_index;
        if idx == capacity(self.levels) {
            return None;
        }
        proof {
            lemma2_to64();
            if self.levels < 31 {
                lemma_pow2_strictly_increases(self.levels as nat, 31);
            }
            lemma_with_leaf_wf(old(self)@, leaf@);
            assert forall|leaves: Seq<nat>| #[trigger] old(self)@.holds(leaves) implies old(
                self,
            )@.insert(leaf@).0.holds(leaves.push(leaf@)) by {
                lemma_insert_holds(old(self)@, leaves, leaf@);
            }
        }
        let assigned: u32 = idx;
        self.next_index = self.next_index + 1;
        let mut current: U256 = *leaf;
        let mut indices: Vec<u32> = Vec::new();
        let mut elements: Vec<U256> = Vec::new();
        let mut i: u32 = 0;
        while i < self.levels
            invariant
                i <= self.levels,
                self.levels == old(self).levels,
                self.zeros == old(self).zeros,
                self.roots == old(self).roots,
                self.current_root_index == old(self).current_root_index,
                self.next_index == old(self).next_index + 1,
                self.ZERO_VALUE == old(self).ZERO_VALUE,
                old(self).wf(),
                self.filled_subtrees@.len() == self.levels,
                indices@.len() == i,
                elements@.len() == i,
                forall|j: int| 0 <= j < i ==> #[trigger] indices@[j] <= 1,
                current@ == path_node(leaf@, bits_of(indices@), values_of(elements@), i as nat),
                climb(
                    self@.zeros,
                    self@.filled,
                    idx as nat,
                    current@,
                    i as nat,
                    self.levels as nat,
                ) == climb(
                    old(self)@.zeros,
                    old(self)@.filled,
                    old(self).next_index as nat,
                    leaf@,
                    0,
                    old(self).levels as nat,
                ),
            decreases self.levels - i,
        {
            let ghost filled_before = self@.filled;
            let ghost bits_before = bits_of(indices@);
            let ghost values_before = values_of(elements@);
            let ghost below = current@;
            let left: U256;
            let right: U256;
            if idx % 2 == 0 {
                left = current;
                right = self.zeros[i as usize];
                self.filled_subtrees[i as usize] = current;
                indices.push(0);
                elements.push(right);
                proof {
                    assert(self@.filled =~= filled_before.update(i as int, current@));
                }
            } else {
                left = self.filled_subtrees[i as usize];
                right = current;
                indices.push(1);
                elements.push(left);
            }
            current = hash_pair(&left, &right);
            proof {
                let bit: nat = if idx % 2 == 0 {
                    0
                } else {
                    1
                };
                let sibling = if idx % 2 == 0 {
                    right@
                } else {
                    left@
                };
                assert(bits_of(indices@) =~= bits_before.push(bit));
                assert(values_of(elements@) =~= values_before.push(sibling));
                lemma_path_node_prefix(
                    leaf@,
                    bits_before,
                    values_before,
                    bit,
                    sibling,
                    i as nat,
                );
            }
            idx = idx / 2;
            i += 1;
        }
        self.current_root_index = (self.current_root_index + 1) % ROOT_HISTORY_SIZE;
        let slot: usize = self.current_root_index as usize;
        self.roots[slot] = current;
        proof {
            let m = old(self)@.with_leaf(leaf@);
            assert(self@.roots =~= m.roots);
            assert(self@.filled =~= m.filled);
        }
        Some((assigned, indices, elements))
    }

    /// Whether `root` is one of the roots that the tree remembers. Zero is
    /// never one.
    pub fn is_known_root(&self, root: &U256) -> (r: bool)
        requires
            self.wf(),
        ensures
            r == self@.knows_root(root@),
            root@ == 0 ==> !r,
    {
        if root.is_zero() {
            return false;
        }
        let start: u32 = self.current_root_index;
        let mut i: u32 = start;
        let mut steps: u32 = 0;
        while steps < ROOT_HISTORY_SIZE
            invariant
                self.wf(),
                root@ != 0,
                steps <= ROOT_HISTORY_SIZE,
                i < ROOT_HISTORY_SIZE,
                start < ROOT_HISTORY_SIZE,
                i as int == slot_before(start as int, steps as int),
                forall|j: int|
                    0 <= j < steps ==> self@.roots[#[trigger] slot_before(start as int, j)]
                        != root@,
            decreases ROOT_HISTORY_SIZE - steps,
        {
            if root.equals(&self.roots[i as usize]) {
                assert(self@.roots[i as int] == root@);
                assert(self@.roots.contains(root@));
                return true;
            }
            if i == 0 {
                i = ROOT_HISTORY_SIZE;
            }
            i = i - 1;
            steps += 1;
        }
        proof {
            assert forall|k: int| 0 <= k < self@.roots.len() implies self@.roots[k] != root@ by {
                let j = if k <= start {
                    start - k
                } else {
                    start + ROOT_HISTORY_SIZE - k
                };
                assert(0 <= j < ROOT_HISTORY_SIZE);
                assert(slot_before(start as int, j) == k);
            }
        }
        false
    }

    /// The root that the tree had last.
    pub fn get_last_root(&self) -> (r: U256)
        requires
            self.wf(),
        ensures
            r@ == self@.last_root(),
    {
        self.roots[self.current_root_index as usize]
    }
}

} // verus!
