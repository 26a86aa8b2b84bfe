//! The sparse incremental Merkle tree engine.
//!
//! A tree of height `H` has `2^H` leaves. Its nodes live in a flat store of
//! optional digests; a node that was never stored stands for the digest of an
//! all-default subtree of its level. The tree keeps a frontier level `L`: no
//! leaf at or above `2^L` has been written, so the root is the node at level
//! `L`, place zero, folded with the default digests of the levels above.

use vstd::prelude::*;
use vstd::arithmetic::power2::{pow2, lemma_pow2_pos, lemma_pow2_unfold, lemma_pow2_strictly_increases};
use crate::error::Error;
use crate::file::{masked, same_counters, TsFile};
use crate::index::{flat, floor_log2, heap_flat, heap_level, heap_pos, log2_of_usize, lv_order_idx_to_idx, pow2_usize};
use crate::reference::{coherent, reference_root, shaped, subtree};

verus! {

/// The record of a membership check: both roots and both leaf digests are
/// the current ones.
#[derive(Clone, Debug)]
pub struct MerkleVerifyPrf<Node: Clone + Copy> {
    pub ori_root: Node,
    pub new_root: Node,
    pub ori_leaf_node: Node,
    pub new_leaf_node: Node,
    pub leaf_id: usize,
    pub proof: Vec<Node>,
}

/// A membership check together with the leaf record.
#[derive(Clone, Debug)]
pub struct MerkleVerifyPrfWithLeafData<Node: Clone + Copy, Leaf> {
    pub merkle_prf: MerkleVerifyPrf<Node>,
    pub leaf: Leaf,
}

/// The record of a leaf update: root and leaf digest before and after, and
/// the siblings along the path from the leaf to the root.
#[derive(Clone, Debug)]
pub struct MerkleUpdatePrf<Node: Clone + Copy> {
    pub ori_root: Node,
    pub new_root: Node,
    pub ori_leaf_node: Node,
    pub new_leaf_node: Node,
    pub leaf_id: usize,
    pub proof: Vec<Node>,
}

/// A leaf update together with the leaf record before and after.
#[derive(Clone, Debug)]
pub struct MerkleUpdatePrfWithLeafData<Node: Clone + Copy, Leaf> {
    pub merkle_prf: MerkleUpdatePrf<Node>,
    pub ori_leaf: Leaf,
    pub new_leaf: Leaf,
}

/// The level to which the frontier must reach before leaf `leaf_id` is written.
pub open spec fn leaf_depth(leaf_id: nat) -> nat {
    floor_log2(leaf_id) + 1
}

/// The node store of a tree, with the compression function: what an
/// implementor supplies.
pub trait MerkleNodes: Sized {
    type Node: Copy;

    /// What else the tree keeps in the arena; writing nodes leaves it alone.
    type Rest;

    /// What the tree is made with and never changes.
    type Fixed;

    /// The tree's own invariant over the arena that holds it.
    spec fn wf(&self, file: &TsFile) -> bool;

    /// The height `H`.
    spec fn spec_level(&self) -> nat;

    /// The frontier level `L`.
    spec fn spec_actual_level(&self) -> nat;

    /// The default digests of the levels `0 .. H`.
    spec fn spec_default_proof(&self) -> Seq<Self::Node>;

    /// The compression function.
    spec fn spec_hash(&self, left: Self::Node, right: Self::Node) -> Self::Node;

    /// What the node store holds in flat slot `idx`.
    spec fn spec_idx_at(&self, file: &TsFile, idx: nat) -> Option<Self::Node>;

    /// What the tree keeps besides its nodes.
    spec fn spec_rest(&self, file: &TsFile) -> Self::Rest;

    /// The bytes of the arena that belong to the tree. No operation of the
    /// tree changes any other byte.
    spec fn spec_owned(&self) -> Set<int>;

    /// What the tree is made with and never changes.
    spec fn spec_fixed(&self) -> Self::Fixed;

    /// Where the tree keeps its blocks in the arena: each as the number of
    /// the collection it belongs to, its number in the collection, and its
    /// place. A tree only ever gains blocks.
    spec fn spec_places(&self) -> Set<(int, nat, usize)>;

    /// Whatever leaves the arena outside some bytes alone leaves alone a tree
    /// that has none of those bytes: the tree stays well formed and holds the
    /// nodes it held, and has none of the bytes that are left out afterwards.
    proof fn lemma_untouched(
        &self,
        before: &TsFile,
        own_before: Set<int>,
        after: &TsFile,
        own_after: Set<int>,
    )
        requires
            self.wf(before),
            after@.len() > 0,
            forall|p: int| self.spec_owned().contains(p) ==> !own_before.contains(p),
            masked(after@, own_after) == masked(before@, own_before),
        ensures
            self.wf(after),
            forall|p: int| self.spec_owned().contains(p) ==> !own_after.contains(p),
            forall|j: nat| self.spec_idx_at(after, j) == self.spec_idx_at(before, j),
    ;

    /// What every well-formed tree has: a height of at least one whose slots
    /// can be numbered, a frontier within the height, and one default digest
    /// per level, each the compression of the one below with itself.
    proof fn lemma_wf(&self, file: &TsFile)
        requires
            self.wf(file),
        ensures
            1 <= self.spec_level(),
            pow2(self.spec_level() + 1) <= usize::MAX,
            self.spec_actual_level() <= self.spec_level(),
            self.spec_default_proof().len() == self.spec_level(),
            forall|i: int|
                1 <= i < self.spec_level() ==> #[trigger] self.spec_default_proof()[i]
                    == self.spec_hash(
                    self.spec_default_proof()[i - 1],
                    self.spec_default_proof()[i - 1],
                ),
    ;

    fn hash(&self, left: Self::Node, right: Self::Node) -> (r: Result<Self::Node, Error>)
        ensures
            r == Ok::<Self::Node, Error>(self.spec_hash(left, right)),
    ;

    fn idx_at(&self, file: &TsFile, idx: usize) -> (r: Result<Option<Self::Node>, Error>)
        requires
            self.wf(file),
        ensures
            r == Ok::<Option<Self::Node>, Error>(self.spec_idx_at(file, idx as nat)),
    ;

    fn idx_set(&mut self, file: &mut TsFile, idx: usize, node: Option<Self::Node>) -> (r: Result<
        (),
        Error,
    >)
        requires
            old(self).wf(old(file)),
        ensures
            r is Ok,
            final(self).wf(final(file)),
            final(self).spec_level() == old(self).spec_level(),
            final(self).spec_default_proof() == old(self).spec_default_proof(),
            forall|l: Self::Node, r: Self::Node| #[trigger]
                final(self).spec_hash(l, r) == old(self).spec_hash(l, r),
            final(self).spec_actual_level() == old(self).spec_actual_level(),
            final(self).spec_rest(final(file)) == old(self).spec_rest(old(file)),
            final(self).spec_fixed() == old(self).spec_fixed(),
            old(self).spec_places().subset_of(final(self).spec_places()),
            masked(final(file)@, final(self).spec_owned()) == masked(
                old(file)@,
                old(self).spec_owned(),
            ),
            same_counters(old(file), final(file)),
            forall|j: nat|
                final(self).spec_idx_at(final(file), j) == if j == idx {
                    node
                } else {
                    old(self).spec_idx_at(old(file), j)
                },
    ;

    fn get_actual_level(&self) -> (r: Result<usize, Error>)
        ensures
            r is Ok,
            r.unwrap() == self.spec_actual_level(),
    ;

    fn set_actual_level(&mut self, level: usize) -> (r: Result<(), Error>)
        ensures
            r is Ok,
            final(self).spec_level() == old(self).spec_level(),
            final(self).spec_default_proof() == old(self).spec_default_proof(),
            forall|l: Self::Node, r: Self::Node| #[trigger]
                final(self).spec_hash(l, r) == old(self).spec_hash(l, r),
            final(self).spec_actual_level() == level,
            final(self).spec_owned() == old(self).spec_owned(),
            final(self).spec_fixed() == old(self).spec_fixed(),
            old(self).spec_places().subset_of(final(self).spec_places()),
            forall|f: TsFile|
                old(self).wf(&f) && level <= old(self).spec_level() ==> #[trigger] final(self).wf(
                    &f,
                ),
            forall|f: TsFile| #[trigger]
                final(self).spec_rest(&f) == old(self).spec_rest(&f),
            forall|f: TsFile, j: nat| #[trigger]
                final(self).spec_idx_at(&f, j) == old(self).spec_idx_at(&f, j),
    ;

    fn get_default_proof(&self, idx: usize) -> (r: Result<Self::Node, Error>)
        ensures
            idx < self.spec_default_proof().len() ==> r == Ok::<Self::Node, Error>(
                self.spec_default_proof()[idx as int],
            ),
            idx >= self.spec_default_proof().len() ==> r == Err::<Self::Node, Error>(
                Error::OutOfRangeProof,
            ),
    ;

    fn get_level(&self) -> (r: Result<usize, Error>)
        ensures
            r is Ok,
            r.unwrap() == self.spec_level(),
    ;

}

/// `a` has the height, the default digests and the compression function of `b`.
pub open spec fn same_shape<T: MerkleNodes>(a: &T, b: &T) -> bool {
    &&& a.spec_level() == b.spec_level()
    &&& a.spec_default_proof() == b.spec_default_proof()
    &&& forall|l: T::Node, r: T::Node| #[trigger] a.spec_hash(l, r) == b.spec_hash(l, r)
}

/// What the store holds for the node at `level` and `pos`.
pub open spec fn node_slot<T: MerkleNodes>(t: &T, file: &TsFile, level: nat, pos: nat) -> Option<
    T::Node,
> {
    t.spec_idx_at(file, flat(level, pos))
}

/// The digest of the node at `level` and `pos`: what is stored, or the
/// default digest of the level.
pub open spec fn node_at<T: MerkleNodes>(t: &T, file: &TsFile, level: nat, pos: nat) -> T::Node {
    match node_slot(t, file, level, pos) {
        Some(v) => v,
        None => t.spec_default_proof()[level as int],
    }
}

/// What `lv_order_at` gives for the node with heap number `idx`.
pub open spec fn spec_lv_order_at<T: MerkleNodes>(t: &T, file: &TsFile, idx: nat) -> Result<
    T::Node,
    Error,
> {
    match t.spec_idx_at(file, heap_flat(t.spec_level(), idx)) {
        Some(v) => Ok(v),
        None => if heap_level(t.spec_level(), idx) < t.spec_level() {
            Ok(t.spec_default_proof()[heap_level(t.spec_level(), idx) as int])
        } else {
            Err(Error::OutOfRangeProof)
        },
    }
}

/// `v`, taken as the digest at level `from` on the leftmost path, folded
/// with the default digests of the levels `from .. H`.
pub open spec fn fold_defaults<T: MerkleNodes>(t: &T, v: T::Node, from: nat) -> T::Node
    decreases t.spec_level() - from,
{
    if from >= t.spec_level() {
        v
    } else {
        fold_defaults(t, t.spec_hash(v, t.spec_default_proof()[from as int]), from + 1)
    }
}

/// The root: the frontier node folded with the defaults above it.
pub open spec fn spec_root<T: MerkleNodes>(t: &T, file: &TsFile) -> T::Node {
    fold_defaults(t, node_at(t, file, t.spec_actual_level(), 0), t.spec_actual_level())
}

/// Whether the frontier node can be read: below the full height a missing
/// node has a default digest, at the full height it has none.
pub open spec fn root_readable<T: MerkleNodes>(t: &T, file: &TsFile) -> bool {
    t.spec_actual_level() < t.spec_level() || t.spec_idx_at(file, flat(t.spec_level(), 0)) is Some
}

/// The place next to `pos` under the same parent.
pub open spec fn sibling(pos: nat) -> nat {
    if pos % 2 == 0 {
        pos + 1
    } else {
        (pos - 1) as nat
    }
}

/// The place, within level `level`, of the node above leaf `leaf_id`.
pub open spec fn ancestor(leaf_id: nat, level: nat) -> nat {
    leaf_id / pow2(level)
}

/// The digest reached from `leaf`, the digest of leaf `leaf_id`, by
/// compressing upward with the siblings in `path`, lowest first: at each
/// level the node on the path is the left input where its place is even and
/// the right input where it is odd.
pub open spec fn fold_path<T: MerkleNodes>(
    t: &T,
    leaf: T::Node,
    leaf_id: nat,
    path: Seq<T::Node>,
) -> T::Node
    decreases path.len(),
{
    if path.len() == 0 {
        leaf
    } else {
        let below = fold_path(t, leaf, leaf_id, path.drop_last());
        if ancestor(leaf_id, (path.len() - 1) as nat) % 2 == 0 {
            t.spec_hash(below, path.last())
        } else {
            t.spec_hash(path.last(), below)
        }
    }
}

/// The sibling path that the engine selects for leaf `leaf_id`: below the
/// frontier the digest of the sibling node, from the frontier up the default
/// digest of the level.
pub open spec fn spec_path<T: MerkleNodes>(t: &T, file: &TsFile, leaf_id: nat) -> Seq<T::Node> {
    Seq::new(
        t.spec_level(),
        |m: int|
            if m < t.spec_actual_level() {
                node_at(t, file, m as nat, sibling(ancestor(leaf_id, m as nat)))
            } else {
                t.spec_default_proof()[m]
            },
    )
}

/// Folding is the same in two trees of one shape.
pub proof fn lemma_fold_path_shape<T: MerkleNodes>(
    a: &T,
    b: &T,
    leaf: T::Node,
    leaf_id: nat,
    path: Seq<T::Node>,
)
    requires
        same_shape(a, b),
    ensures
        fold_path(a, leaf, leaf_id, path) == fold_path(b, leaf, leaf_id, path),
    decreases path.len(),
{
    if path.len() > 0 {
        lemma_fold_path_shape(a, b, leaf, leaf_id, path.drop_last());
    }
}

/// Folding with defaults is the same in two trees of one shape.
pub proof fn lemma_fold_defaults_shape<T: MerkleNodes>(a: &T, b: &T, v: T::Node, from: nat)
    requires
        same_shape(a, b),
    ensures
        fold_defaults(a, v, from) == fold_defaults(b, v, from),
    decreases a.spec_level() - from,
{
    if from < a.spec_level() {
        lemma_fold_defaults_shape(
            a,
            b,
            a.spec_hash(v, a.spec_default_proof()[from as int]),
            from + 1,
        );
    }
}

/// Raising the frontier leaves the root as it is: the frontier node at the
/// new level is the old one folded with the defaults in between.
pub proof fn lemma_grown_root<T: MerkleNodes>(a: &T, fa: &TsFile, b: &T, fb: &TsFile, to: nat, upto: nat)
    requires
        grown(a, fa, b, fb, to),
        a.spec_actual_level() <= upto <= to <= a.spec_level(),
    ensures
        fold_defaults(b, node_at(b, fb, upto, 0), upto) == spec_root(a, fa),
    decreases upto - a.spec_actual_level(),
{
    if upto == a.spec_actual_level() {
        assert(node_slot(b, fb, upto, 0) == node_slot(a, fa, upto, 0));
        lemma_fold_defaults_shape(b, a, node_at(a, fa, upto, 0), upto);
    } else {
        lemma_grown_root(a, fa, b, fb, to, (upto - 1) as nat);
        assert(node_slot(b, fb, upto, 0) == Some(
            b.spec_hash(node_at(b, fb, (upto - 1) as nat, 0), b.spec_default_proof()[upto - 1]),
        ));
    }
}

/// The siblings that a walk up from a leaf reads are the sibling path of
/// the leaf after the walk: the walk writes the nodes on the path only.
pub proof fn lemma_walked_path<T: MerkleNodes>(
    a: &T,
    fa: &TsFile,
    b: &T,
    fb: &TsFile,
    leaf_id: nat,
    node: T::Node,
    path: Seq<T::Node>,
)
    requires
        walked(a, fa, b, fb, leaf_id, node, a.spec_actual_level()),
        b.spec_actual_level() == a.spec_actual_level(),
        path.len() == a.spec_level(),
        forall|m: int|
            0 <= m < a.spec_actual_level() ==> #[trigger] path[m] == node_at(
                a,
                fa,
                m as nat,
                sibling(ancestor(leaf_id, m as nat)),
            ),
        forall|m: int|
            a.spec_actual_level() <= m < a.spec_level() ==> #[trigger] path[m]
                == a.spec_default_proof()[m],
    ensures
        path == spec_path(b, fb, leaf_id),
{
    assert forall|m: int| 0 <= m < path.len() implies path[m] == spec_path(b, fb, leaf_id)[m] by {
        if m < a.spec_actual_level() {
            let pos = sibling(ancestor(leaf_id, m as nat));
            assert(pos != ancestor(leaf_id, m as nat));
            assert(node_slot(b, fb, m as nat, pos) == node_slot(a, fa, m as nat, pos));
        }
    }
    assert(path =~= spec_path(b, fb, leaf_id));
}

/// How the place of the node on the path changes from one level to the next.
pub proof fn lemma_ancestor_step(leaf_id: nat, level: nat, height: nat)
    requires
        leaf_id < pow2(height),
        level < height,
    ensures
        ancestor(leaf_id, level) < pow2((height - level) as nat),
        sibling(ancestor(leaf_id, level)) < pow2((height - level) as nat),
        ancestor(leaf_id, level + 1) == ancestor(leaf_id, level) / 2,
        ancestor(leaf_id, level + 1) < pow2((height - level - 1) as nat),
        pow2((height - level) as nat) == 2 * pow2((height - level - 1) as nat),
        ancestor(leaf_id, 0) == leaf_id,
{
    let e = (height - level) as nat;
    lemma_pow2_pos(level);
    lemma_pow2_pos(e);
    lemma_pow2_unfold(e);
    lemma_pow2_unfold(level + 1);
    vstd::arithmetic::power2::lemma_pow2_adds(level, e);
    vstd::arithmetic::power2::lemma2_to64();
    let p = pow2(level) as int;
    let q = pow2(e) as int;
    vstd::arithmetic::div_mod::lemma_div_denominator(leaf_id as int, p, 2);
    assert(p * 2 == 2 * p);
    vstd::arithmetic::div_mod::lemma_fundamental_div_mod(leaf_id as int, p);
    assert(leaf_id / (p as nat) < q) by (nonlinear_arith)
        requires
            leaf_id < p * q,
            p > 0,
            leaf_id == p * (leaf_id as int / p) + leaf_id as int % p,
            0 <= leaf_id as int % p,
    ;
}

/// `b` is `a` after the frontier has been raised to level `to`: the nodes on
/// the left edge above the old frontier, up to `to`, hold the compression of
/// the node below with the default digest of its level; nothing else changed.
pub open spec fn grown<T: MerkleNodes>(a: &T, fa: &TsFile, b: &T, fb: &TsFile, to: nat) -> bool {
    &&& same_shape(b, a)
    &&& forall|level: nat, pos: nat| #[trigger]
        node_slot(b, fb, level, pos) == if pos == 0 && a.spec_actual_level() < level <= to {
            Some(
                b.spec_hash(
                    node_at(b, fb, (level - 1) as nat, 0),
                    b.spec_default_proof()[level - 1],
                ),
            )
        } else {
            node_slot(a, fa, level, pos)
        }
}

/// `b` is `a` after leaf `leaf_id` has been given the digest `node` and the
/// nodes above it, up to level `to`, hold the compression of their children;
/// nothing else changed.
pub open spec fn walked<T: MerkleNodes>(
    a: &T,
    fa: &TsFile,
    b: &T,
    fb: &TsFile,
    leaf_id: nat,
    node: T::Node,
    to: nat,
) -> bool {
    &&& same_shape(b, a)
    &&& forall|level: nat, pos: nat| #[trigger]
        node_slot(b, fb, level, pos) == if level <= to && pos == ancestor(leaf_id, level) {
            if level == 0 {
                Some(node)
            } else {
                Some(
                    b.spec_hash(
                        node_at(b, fb, (level - 1) as nat, 2 * pos),
                        node_at(b, fb, (level - 1) as nat, 2 * pos + 1),
                    ),
                )
            }
        } else {
            node_slot(a, fa, level, pos)
        }
}

/// What a membership check of leaf `leaf_id` in the tree `t` returns.
pub open spec fn verify_post<T: MerkleNodes>(
    t: &T,
    file: &TsFile,
    leaf_id: nat,
    r: Result<MerkleVerifyPrf<T::Node>, Error>,
) -> bool {
    &&& leaf_id >= pow2(t.spec_level()) ==> r is Err && r->Err_0 == Error::InvalidLeafId
    &&& leaf_id < pow2(t.spec_level()) && !root_readable(t, file) ==> r is Err && r->Err_0
        == Error::OutOfRangeProof
    &&& leaf_id < pow2(t.spec_level()) && root_readable(t, file) ==> r is Ok && ({
        let p = r->Ok_0;
        &&& p.leaf_id == leaf_id
        &&& p.ori_root == spec_root(t, file)
        &&& p.new_root == spec_root(t, file)
        &&& p.ori_leaf_node == node_at(t, file, 0, leaf_id)
        &&& p.new_leaf_node == node_at(t, file, 0, leaf_id)
        &&& p.proof@ == spec_path(t, file, leaf_id)
    })
}

/// Whether two trees hold the same nodes under the same frontier.
pub open spec fn same_nodes<T: MerkleNodes>(a: &T, fa: &TsFile, b: &T, fb: &TsFile) -> bool {
    &&& same_shape(b, a)
    &&& b.spec_actual_level() == a.spec_actual_level()
    &&& forall|j: nat| b.spec_idx_at(fb, j) == a.spec_idx_at(fa, j)
}

/// What giving leaf `leaf_id` the digest `node` does: `a` is the tree before,
/// `b` the tree after, `r` what is returned.
///
/// The update is refused, and nothing changes, where the leaf id is out of
/// range, or where the frontier stands at full height without a root.
/// Otherwise the frontier rises to the depth of the leaf if it was lower, the
/// leaf has its new digest and no other leaf digest changes, and the
/// returned path folds with the new digest to the new root. Where the store
/// was coherent it stays so, both roots are reference roots, the path holds
/// the reference digests of the siblings, and it folds with the old leaf
/// digest to the old root.
pub open spec fn update_post<T: MerkleNodes>(
    a: &T,
    fa: &TsFile,
    b: &T,
    fb: &TsFile,
    leaf_id: nat,
    node: T::Node,
    r: Result<MerkleUpdatePrf<T::Node>, Error>,
) -> bool {
    let stuck = a.spec_actual_level() == a.spec_level() && !root_readable(a, fa);
    &&& same_shape(b, a)
    &&& b.spec_actual_level() >= a.spec_actual_level()
    &&& leaf_id >= pow2(a.spec_level()) ==> r is Err && r->Err_0 == Error::InvalidLeafId
    &&& leaf_id < pow2(a.spec_level()) && stuck ==> r is Err && r->Err_0
        == Error::OutOfRangeProof
    &&& r is Err ==> same_nodes(a, fa, b, fb)
    &&& leaf_id < pow2(a.spec_level()) && !stuck ==> r is Ok && ({
        let p = r->Ok_0;
        &&& b.spec_actual_level() == if leaf_depth(leaf_id) > a.spec_actual_level() {
            leaf_depth(leaf_id)
        } else {
            a.spec_actual_level()
        }
        &&& p.leaf_id == leaf_id
        &&& p.ori_leaf_node == node_at(a, fa, 0, leaf_id)
        &&& p.new_leaf_node == node
        &&& root_readable(b, fb)
        &&& p.ori_root == spec_root(a, fa)
        &&& p.new_root == spec_root(b, fb)
        &&& p.proof@ == spec_path(b, fb, leaf_id)
        &&& p.proof@.len() == a.spec_level()
        &&& fold_path(b, node, leaf_id, p.proof@) == p.new_root
        &&& forall|i: nat|
            node_at(b, fb, 0, i) == if i == leaf_id {
                node
            } else {
                node_at(a, fa, 0, i)
            }
    })
    &&& coherent(a, fa) ==> coherent(b, fb)
    &&& coherent(a, fa) && r is Ok ==> ({
        let p = r->Ok_0;
        &&& p.ori_root == reference_root(a, fa)
        &&& p.new_root == reference_root(b, fb)
        &&& forall|m: int|
            0 <= m < p.proof@.len() ==> #[trigger] p.proof@[m] == subtree(
                a,
                fa,
                m as nat,
                sibling(ancestor(leaf_id, m as nat)),
            )
        &&& fold_path(b, p.ori_leaf_node, leaf_id, p.proof@) == p.ori_root
    })
}

/// The engine: root, membership check and update over any node store.
pub trait MerkleTree: MerkleNodes {
    /// The digest of the node with heap number `idx`.
    fn lv_order_at(&self, file: &TsFile, idx: usize) -> (r: Result<Self::Node, Error>)
        requires
            self.wf(file),
            1 <= idx < pow2(self.spec_level() + 1),
        ensures
            r == spec_lv_order_at(self, file, idx as nat),
    {
        proof {
            self.lemma_wf(file);
        }
        let level: usize = self.get_level()?;
        match self.idx_at(file, lv_order_idx_to_idx(level, idx))? {
            Some(node) => Ok(node),
            None => {
                let depth: usize = log2_of_usize(idx);
                proof {
                    crate::index::lemma_floor_log2_below(idx as nat, level as nat + 1);
                }
                self.get_default_proof(level - depth)
            },
        }
    }

    /// Stores `node` as the digest of the node with heap number `idx`.
    fn lv_order_set(&mut self, file: &mut TsFile, idx: usize, node: Self::Node) -> (r: Result<
        (),
        Error,
    >)
        requires
            old(self).wf(old(file)),
            1 <= idx < pow2(old(self).spec_level() + 1),
        ensures
            r is Ok,
            final(self).wf(final(file)),
            same_shape(final(self), old(self)),
            final(self).spec_actual_level() == old(self).spec_actual_level(),
            final(self).spec_rest(final(file)) == old(self).spec_rest(old(file)),
            final(self).spec_fixed() == old(self).spec_fixed(),
            old(self).spec_places().subset_of(final(self).spec_places()),
            masked(final(file)@, final(self).spec_owned()) == masked(
                old(file)@,
                old(self).spec_owned(),
            ),
            same_counters(old(file), final(file)),
            forall|j: nat|
                final(self).spec_idx_at(final(file), j) == if j == heap_flat(
                    old(self).spec_level(),
                    idx as nat,
                ) {
                    Some(node)
                } else {
                    old(self).spec_idx_at(old(file), j)
                },
    {
        proof {
            self.lemma_wf(file);
        }
        let level: usize = self.get_level()?;
        self.idx_set(file, lv_order_idx_to_idx(level, idx), Some(node))?;
        Ok(())
    }

    /// The digest of leaf `leaf_id`.
    fn leaf_id_at(&self, file: &TsFile, leaf_id: usize) -> (r: Result<Self::Node, Error>)
        requires
            self.wf(file),
            leaf_id < pow2(self.spec_level()),
        ensures
            r == Ok::<Self::Node, Error>(node_at(self, file, 0, leaf_id as nat)),
    {
        proof {
            self.lemma_wf(file);
            crate::index::lemma_flat_step(0, leaf_id as nat);
            lemma_pow2_unfold(self.spec_level() + 1);
        }
        match self.idx_at(file, leaf_id * 2)? {
            Some(node) => Ok(node),
            None => self.get_default_proof(0),
        }
    }

    /// Stores `node` as the digest of leaf `leaf_id`.
    fn leaf_id_set(&mut self, file: &mut TsFile, leaf_id: usize, node: Self::Node) -> (r: Result<
        (),
        Error,
    >)
        requires
            old(self).wf(old(file)),
            leaf_id < pow2(old(self).spec_level()),
        ensures
            r is Ok,
            final(self).wf(final(file)),
            same_shape(final(self), old(self)),
            final(self).spec_actual_level() == old(self).spec_actual_level(),
            final(self).spec_rest(final(file)) == old(self).spec_rest(old(file)),
            final(self).spec_fixed() == old(self).spec_fixed(),
            old(self).spec_places().subset_of(final(self).spec_places()),
            masked(final(file)@, final(self).spec_owned()) == masked(
                old(file)@,
                old(self).spec_owned(),
            ),
            same_counters(old(file), final(file)),
            forall|j: nat|
                final(self).spec_idx_at(final(file), j) == if j == flat(0, leaf_id as nat) {
                    Some(node)
                } else {
                    old(self).spec_idx_at(old(file), j)
                },
    {
        proof {
            self.lemma_wf(file);
            crate::index::lemma_flat_step(0, leaf_id as nat);
            lemma_pow2_unfold(self.spec_level() + 1);
        }
        self.idx_set(file, leaf_id * 2, Some(node))?;
        Ok(())
    }

    /// The membership record of leaf `leaf_id`: the siblings along its path,
    /// the root and the leaf digest, with nothing changed.
    fn verify_leaf_node(&self, file: &TsFile, leaf_id: usize) -> (r: Result<
        MerkleVerifyPrf<Self::Node>,
        Error,
    >)
        requires
            self.wf(file),
        ensures
            verify_post(self, file, leaf_id as nat, r),
    {
        proof {
            self.lemma_wf(file);
            lemma_pow2_unfold(self.spec_level() + 1);
        }
        let level: usize = self.get_level()?;
        let actual: usize = self.get_actual_level()?;
        proof {
            lemma_pow2_pos(level as nat);
        }
        let top: usize = pow2_usize(level);
        if leaf_id >= top {
            return Err(Error::InvalidLeafId);
        }
        let mut proof: Vec<Self::Node> = Vec::new();
        let mut idx: usize = leaf_id + top;
        let mut j: usize = 0;
        proof {
            lemma_ancestor_step(leaf_id as nat, 0, level as nat);
        }
        while j < actual
            invariant
                self.wf(file),
                j <= actual <= level,
                level == self.spec_level(),
                actual == self.spec_actual_level(),
                leaf_id < pow2(level as nat),
                pow2(level as nat + 1) <= usize::MAX,
                idx == pow2((level - j) as nat) + ancestor(leaf_id as nat, j as nat),
                ancestor(leaf_id as nat, j as nat) < pow2((level - j) as nat),
                proof@ == spec_path(self, file, leaf_id as nat).subrange(0, j as int),
            decreases actual - j,
        {
            proof {
                lemma_ancestor_step(leaf_id as nat, j as nat, level as nat);
                lemma_heap_coords(
                    level as nat,
                    j as nat,
                    sibling(ancestor(leaf_id as nat, j as nat)),
                );
            }
            let sib: usize = if idx % 2 == 0 {
                idx + 1
            } else {
                idx - 1
            };
            let brother: Self::Node = self.lv_order_at(file, sib)?;
            proof.push(brother);
            idx = idx / 2;
            j += 1;
            proof {
                assert(proof@ =~= spec_path(self, file, leaf_id as nat).subrange(0, j as int));
            }
        }
        let mut i: usize = actual;
        while i < level
            invariant
                actual <= i <= level,
                level == self.spec_level(),
                actual == self.spec_actual_level(),
                self.spec_default_proof().len() == level,
                proof@ == spec_path(self, file, leaf_id as nat).subrange(0, i as int),
            decreases level - i,
        {
            let d: Self::Node = self.get_default_proof(i)?;
            proof.push(d);
            i += 1;
            proof {
                assert(proof@ =~= spec_path(self, file, leaf_id as nat).subrange(0, i as int));
            }
        }
        proof {
            assert(proof@ =~= spec_path(self, file, leaf_id as nat));
        }
        let root: Self::Node = self.get_root(file)?;
        let leaf: Self::Node = self.leaf_id_at(file, leaf_id)?;
        Ok(
            MerkleVerifyPrf {
                ori_root: root,
                new_root: root,
                ori_leaf_node: leaf,
                new_leaf_node: leaf,
                leaf_id,
                proof,
            },
        )
    }

    /// Raises the frontier to level `to`: each node on the left edge above the
    /// old frontier becomes the compression of the node below it with the
    /// default digest of that level.
    fn raise_frontier(&mut self, file: &mut TsFile, to: usize) -> (r: Result<(), Error>)
        requires
            old(self).wf(old(file)),
            old(self).spec_actual_level() <= to <= old(self).spec_level(),
        ensures
            r is Ok,
            final(self).wf(final(file)),
            final(self).spec_rest(final(file)) == old(self).spec_rest(old(file)),
            final(self).spec_fixed() == old(self).spec_fixed(),
            old(self).spec_places().subset_of(final(self).spec_places()),
            masked(final(file)@, final(self).spec_owned()) == masked(
                old(file)@,
                old(self).spec_owned(),
            ),
            same_counters(old(file), final(file)),
            final(self).spec_actual_level() == to,
            grown(old(self), old(file), final(self), final(file), to as nat),
    {
        proof {
            self.lemma_wf(file);
        }
        let level: usize = self.get_level()?;
        let actual0: usize = self.get_actual_level()?;
        let ghost dp = self.spec_default_proof();
        let mut i: usize = actual0;
        while i < to
            invariant
                self.wf(file),
                actual0 <= i <= to <= level,
                level == self.spec_level(),
                pow2(level as nat + 1) <= usize::MAX,
                actual0 == old(self).spec_actual_level(),
                self.spec_actual_level() == actual0,
                self.spec_rest(file) == old(self).spec_rest(old(file)),
                masked(file@, self.spec_owned()) == masked(old(file)@, old(self).spec_owned()),
                same_counters(old(file), file),
                self.spec_fixed() == old(self).spec_fixed(),
                old(self).spec_places().subset_of(self.spec_places()),
                dp == self.spec_default_proof(),
                dp.len() == level,
                grown(old(self), old(file), self, file, i as nat),
            decreases to - i,
        {
            proof {
                lemma_pow2_pos((level - i) as nat);
                lemma_pow2_unfold((level - i) as nat);
                lemma_heap_coords(level as nat, i as nat, 0);
                lemma_pow2_pos((level - i - 1) as nat);
                lemma_heap_coords(level as nat, (i + 1) as nat, 0);
            }
            let idx: usize = pow2_usize(level - i);
            let cur: Self::Node = self.lv_order_at(file, idx)?;
            let dflt: Self::Node = self.get_default_proof(i)?;
            let h: Self::Node = self.hash(cur, dflt)?;
            let ghost prev = *self;
            let ghost prev_file = *file;
            self.lv_order_set(file, idx / 2, h)?;
            i += 1;
            proof {
                assert forall|lv: nat, pos: nat| #[trigger]
                    node_slot(self, file, lv, pos) == if pos == 0 && actual0 < lv <= i {
                        Some(
                            self.spec_hash(
                                node_at(self, file, (lv - 1) as nat, 0),
                                self.spec_default_proof()[lv - 1],
                            ),
                        )
                    } else {
                        node_slot(old(self), old(file), lv, pos)
                    } by {
                    if flat(lv, pos) == flat(i as nat, 0) {
                        crate::index::lemma_flat_injective(lv, pos, i as nat, 0);
                    }
                    if lv >= 1 && flat((lv - 1) as nat, 0) == flat(i as nat, 0) {
                        crate::index::lemma_flat_injective((lv - 1) as nat, 0, i as nat, 0);
                    }
                    assert(node_slot(&prev, &prev_file, lv, pos) == if pos == 0 && actual0 < lv
                        <= i - 1 {
                        Some(
                            prev.spec_hash(
                                node_at(&prev, &prev_file, (lv - 1) as nat, 0),
                                prev.spec_default_proof()[lv - 1],
                            ),
                        )
                    } else {
                        node_slot(old(self), old(file), lv, pos)
                    });
                    if lv >= 1 {
                        assert(node_slot(self, file, (lv - 1) as nat, 0) == if flat(
                            (lv - 1) as nat,
                            0,
                        ) == flat(i as nat, 0) {
                            Some(h)
                        } else {
                            node_slot(&prev, &prev_file, (lv - 1) as nat, 0)
                        });
                    }
                }
            }
        }
        let ghost before_set = *self;
        self.set_actual_level(to)?;
        proof {
            assert forall|lv: nat, pos: nat| #[trigger]
                node_slot(self, file, lv, pos) == node_slot(&before_set, file, lv, pos) by {}
            assert(self.wf(file));
            assert(self.spec_rest(file) == before_set.spec_rest(file));
        }
        Ok(())
    }

    /// Gives leaf `leaf_id`, which lies inside the frontier, the digest
    /// `node` and recomputes the nodes above it up to the frontier. Returns
    /// the siblings along the whole path to the root.
    fn write_path(&mut self, file: &mut TsFile, leaf_id: usize, node: Self::Node) -> (r: Result<
        Vec<Self::Node>,
        Error,
    >)
        requires
            old(self).wf(old(file)),
            leaf_id < pow2(old(self).spec_actual_level()),
            old(self).spec_actual_level() >= 1,
        ensures
            r is Ok,
            final(self).wf(final(file)),
            final(self).spec_rest(final(file)) == old(self).spec_rest(old(file)),
            final(self).spec_fixed() == old(self).spec_fixed(),
            old(self).spec_places().subset_of(final(self).spec_places()),
            masked(final(file)@, final(self).spec_owned()) == masked(
                old(file)@,
                old(self).spec_owned(),
            ),
            same_counters(old(file), final(file)),
            final(self).spec_actual_level() == old(self).spec_actual_level(),
            walked(
                old(self),
                old(file),
                final(self),
                final(file),
                leaf_id as nat,
                node,
                old(self).spec_actual_level(),
            ),
            root_readable(final(self), final(file)),
            r->Ok_0@.len() == old(self).spec_level(),
            forall|m: int|
                0 <= m < old(self).spec_actual_level() ==> #[trigger] r->Ok_0@[m] == node_at(
                    old(self),
                    old(file),
                    m as nat,
                    sibling(ancestor(leaf_id as nat, m as nat)),
                ),
            forall|m: int|
                old(self).spec_actual_level() <= m < old(self).spec_level()
                    ==> #[trigger] r->Ok_0@[m] == old(self).spec_default_proof()[m],
            fold_path(final(self), node, leaf_id as nat, r->Ok_0@) == spec_root(
                final(self),
                final(file),
            ),
    {
        proof {
            self.lemma_wf(file);
            lemma_pow2_unfold(self.spec_level() + 1);
        }
        let level: usize = self.get_level()?;
        let actual: usize = self.get_actual_level()?;
        proof {
            lemma_pow2_pos(level as nat);
            if actual < level {
                lemma_pow2_strictly_increases(actual as nat, level as nat);
            }
        }
        let top: usize = pow2_usize(level);
        let ghost dp = self.spec_default_proof();
        let ghost g = *self;
        let ghost gf = *file;
        proof {
            lemma_heap_coords(level as nat, 0, leaf_id as nat);
            lemma_ancestor_step(leaf_id as nat, 0, level as nat);
        }
        let mut idx: usize = leaf_id + top;
        self.lv_order_set(file, idx, node)?;
        let mut proof: Vec<Self::Node> = Vec::new();
        proof {
            assert forall|lv: nat, pos: nat| #[trigger]
                node_slot(self, file, lv, pos) == if lv <= 0 && pos == ancestor(
                    leaf_id as nat,
                    lv,
                ) {
                    if lv == 0 {
                        Some(node)
                    } else {
                        Some(
                            self.spec_hash(
                                node_at(self, file, (lv - 1) as nat, 2 * pos),
                                node_at(self, file, (lv - 1) as nat, 2 * pos + 1),
                            ),
                        )
                    }
                } else {
                    node_slot(&g, &gf, lv, pos)
                } by {
                if flat(lv, pos) == flat(0, leaf_id as nat) {
                    crate::index::lemma_flat_injective(lv, pos, 0, leaf_id as nat);
                }
            }
        }
        let mut j: usize = 0;
        while j < actual
            invariant
                self.wf(file),
                j <= actual <= level,
                level == self.spec_level(),
                pow2(level as nat + 1) <= usize::MAX,
                actual == self.spec_actual_level(),
                self.spec_rest(file) == g.spec_rest(&gf),
                masked(file@, self.spec_owned()) == masked(gf@, g.spec_owned()),
                same_counters(&gf, file),
                self.spec_fixed() == g.spec_fixed(),
                g.spec_places().subset_of(self.spec_places()),
                dp == self.spec_default_proof(),
                dp.len() == level,
                leaf_id < pow2(level as nat),
                idx == pow2((level - j) as nat) + ancestor(leaf_id as nat, j as nat),
                ancestor(leaf_id as nat, j as nat) < pow2((level - j) as nat),
                walked(&g, &gf, self, file, leaf_id as nat, node, j as nat),
                proof@.len() == j,
                forall|m: int|
                    0 <= m < j ==> #[trigger] proof@[m] == node_at(
                        &g,
                        &gf,
                        m as nat,
                        sibling(ancestor(leaf_id as nat, m as nat)),
                    ),
                fold_path(self, node, leaf_id as nat, proof@) == node_at(
                    self,
                    file,
                    j as nat,
                    ancestor(leaf_id as nat, j as nat),
                ),
            decreases actual - j,
        {
            let ghost a = ancestor(leaf_id as nat, j as nat);
            let ghost q = ancestor(leaf_id as nat, (j + 1) as nat);
            proof {
                lemma_ancestor_step(leaf_id as nat, j as nat, level as nat);
                lemma_heap_coords(level as nat, j as nat, a);
                lemma_heap_coords(level as nat, j as nat, sibling(a));
                lemma_heap_coords(level as nat, (j + 1) as nat, q);
                assert(node_slot(self, file, j as nat, a) is Some);
                if flat(j as nat, sibling(a)) == flat(j as nat, a) {
                    crate::index::lemma_flat_injective(j as nat, sibling(a), j as nat, a);
                }
                assert(node_slot(self, file, j as nat, sibling(a)) == node_slot(
                    &g,
                    &gf,
                    j as nat,
                    sibling(a),
                ));
            }
            let cur: Self::Node = self.lv_order_at(file, idx)?;
            let even: bool = idx % 2 == 0;
            let sib: usize = if even {
                idx + 1
            } else {
                idx - 1
            };
            let brother: Self::Node = self.lv_order_at(file, sib)?;
            let h: Self::Node = if even {
                self.hash(cur, brother)?
            } else {
                self.hash(brother, cur)?
            };
            let ghost prev = *self;
            let ghost prev_file = *file;
            let ghost prev_proof = proof@;
            self.lv_order_set(file, idx / 2, h)?;
            proof.push(brother);
            idx = idx / 2;
            j += 1;
            proof {
                assert(proof@.drop_last() =~= prev_proof);
                lemma_fold_path_shape(self, &prev, node, leaf_id as nat, prev_proof);
                assert forall|lv: nat, pos: nat| #[trigger]
                    node_slot(self, file, lv, pos) == if lv <= j && pos == ancestor(
                        leaf_id as nat,
                        lv,
                    ) {
                        if lv == 0 {
                            Some(node)
                        } else {
                            Some(
                                self.spec_hash(
                                    node_at(self, file, (lv - 1) as nat, 2 * pos),
                                    node_at(self, file, (lv - 1) as nat, 2 * pos + 1),
                                ),
                            )
                        }
                    } else {
                        node_slot(&g, &gf, lv, pos)
                    } by {
                    if flat(lv, pos) == flat(j as nat, q) {
                        crate::index::lemma_flat_injective(lv, pos, j as nat, q);
                    }
                    if lv >= 1 && lv <= j {
                        let c = (lv - 1) as nat;
                        if flat(c, 2 * pos) == flat(j as nat, q) {
                            crate::index::lemma_flat_injective(c, 2 * pos, j as nat, q);
                        }
                        if flat(c, 2 * pos + 1) == flat(j as nat, q) {
                            crate::index::lemma_flat_injective(c, 2 * pos + 1, j as nat, q);
                        }
                        assert(node_slot(self, file, c, 2 * pos) == node_slot(
                            &prev,
                            &prev_file,
                            c,
                            2 * pos,
                        ));
                        assert(node_slot(self, file, c, 2 * pos + 1) == node_slot(
                            &prev,
                            &prev_file,
                            c,
                            2 * pos + 1,
                        ));
                    }
                    assert(node_slot(&prev, &prev_file, lv, pos) == if lv <= j - 1 && pos
                        == ancestor(leaf_id as nat, lv) {
                        if lv == 0 {
                            Some(node)
                        } else {
                            Some(
                                prev.spec_hash(
                                    node_at(&prev, &prev_file, (lv - 1) as nat, 2 * pos),
                                    node_at(&prev, &prev_file, (lv - 1) as nat, 2 * pos + 1),
                                ),
                            )
                        }
                    } else {
                        node_slot(&g, &gf, lv, pos)
                    });
                }
                assert(node_slot(self, file, j as nat, q) == Some(h));
            }
        }
        proof {
            lemma_ancestor_zero(leaf_id as nat, actual as nat);
            assert(node_slot(self, file, actual as nat, 0) is Some);
        }
        let mut i: usize = actual;
        while i < level
            invariant
                actual <= i <= level,
                level == self.spec_level(),
                dp == self.spec_default_proof(),
                dp.len() == level,
                leaf_id < pow2(actual as nat),
                proof@.len() == i,
                forall|m: int|
                    0 <= m < actual ==> #[trigger] proof@[m] == node_at(
                        &g,
                        &gf,
                        m as nat,
                        sibling(ancestor(leaf_id as nat, m as nat)),
                    ),
                forall|m: int| actual <= m < i ==> #[trigger] proof@[m] == dp[m],
                fold_defaults(self, fold_path(self, node, leaf_id as nat, proof@), i as nat)
                    == spec_root(self, file),
            decreases level - i,
        {
            let brother: Self::Node = self.get_default_proof(i)?;
            let ghost prev_proof = proof@;
            proof.push(brother);
            proof {
                assert(proof@.drop_last() =~= prev_proof);
                if actual < i {
                    lemma_pow2_strictly_increases(actual as nat, i as nat);
                }
                lemma_ancestor_zero(leaf_id as nat, i as nat);
            }
            i += 1;
        }
        Ok(proof)
    }

    /// Gives leaf `leaf_id` the digest `node`: raises the frontier as far as
    /// the leaf needs, stores the digest, and recomputes the nodes above it up
    /// to the frontier.
    fn update_leaf_node(&mut self, file: &mut TsFile, leaf_id: usize, node: Self::Node) -> (r:
        Result<MerkleUpdatePrf<Self::Node>, Error>)
        requires
            old(self).wf(old(file)),
        ensures
            final(self).wf(final(file)),
            final(self).spec_rest(final(file)) == old(self).spec_rest(old(file)),
            final(self).spec_fixed() == old(self).spec_fixed(),
            old(self).spec_places().subset_of(final(self).spec_places()),
            masked(final(file)@, final(self).spec_owned()) == masked(
                old(file)@,
                old(self).spec_owned(),
            ),
            same_counters(old(file), final(file)),
            update_post(old(self), old(file), final(self), final(file), leaf_id as nat, node, r),
    {
        proof {
            self.lemma_wf(file);
            lemma_pow2_unfold(self.spec_level() + 1);
        }
        let level: usize = self.get_level()?;
        let actual0: usize = self.get_actual_level()?;
        proof {
            lemma_pow2_pos(level as nat);
        }
        let top: usize = pow2_usize(level);
        if leaf_id >= top {
            return Err(Error::InvalidLeafId);
        }
        let depth: usize = log2_of_usize(leaf_id) + 1;
        proof {
            crate::index::lemma_floor_log2_below(leaf_id as nat, level as nat);
        }
        if depth > actual0 {
            self.raise_frontier(file, depth)?;
        }
        let actual: usize = if depth > actual0 {
            depth
        } else {
            actual0
        };
        let ghost g = *self;
        let ghost gf = *file;
        proof {
            assert(grown(old(self), old(file), &g, &gf, actual as nat));
            if leaf_id >= 1 {
                crate::index::lemma_floor_log2_bounds(leaf_id as nat);
            }
            if leaf_id >= 1 && depth < actual {
                lemma_pow2_strictly_increases(depth as nat, actual as nat);
            }
            if leaf_id == 0 {
                lemma_pow2_pos(actual as nat);
            }
            assert(leaf_id < pow2(actual as nat));
            if depth > actual0 {
                assert(node_slot(self, file, depth as nat, 0) is Some);
                assert(root_readable(self, file));
            }
        }
        proof {
            if depth > actual0 {
                lemma_grown_root(old(self), old(file), &g, &gf, actual as nat, actual as nat);
            }
        }
        let ori_root: Self::Node = self.get_root(file)?;
        let ori_leaf_node: Self::Node = self.leaf_id_at(file, leaf_id)?;
        let proof: Vec<Self::Node> = self.write_path(file, leaf_id, node)?;
        let new_root: Self::Node = self.get_root(file)?;
        let new_leaf_node: Self::Node = self.leaf_id_at(file, leaf_id)?;
        proof {
            lemma_ancestor_step(leaf_id as nat, 0, level as nat);
            assert forall|i: nat|
                node_at(self, file, 0, i) == if i == leaf_id {
                    node
                } else {
                    node_at(old(self), old(file), 0, i)
                } by {
                assert(node_slot(&g, &gf, 0, i) == node_slot(old(self), old(file), 0, i));
                assert(node_slot(self, file, 0, i) == if i == leaf_id {
                    Some(node)
                } else {
                    node_slot(&g, &gf, 0, i)
                });
            }
            lemma_walked_path(&g, &gf, self, file, leaf_id as nat, node, proof@);
            if coherent(old(self), old(file)) {
                crate::reference::lemma_update_reference(
                    old(self),
                    old(file),
                    &g,
                    &gf,
                    self,
                    file,
                    leaf_id as nat,
                    node,
                    proof@,
                );
            }
        }
        Ok(MerkleUpdatePrf { ori_root, new_root, ori_leaf_node, new_leaf_node, leaf_id, proof })
    }

    /// The root of the tree.
    fn get_root(&self, file: &TsFile) -> (r: Result<Self::Node, Error>)
        requires
            self.wf(file),
        ensures
            root_readable(self, file) ==> r == Ok::<Self::Node, Error>(spec_root(self, file)),
            !root_readable(self, file) ==> r == Err::<Self::Node, Error>(Error::OutOfRangeProof),
    {
        proof {
            self.lemma_wf(file);
        }
        let level: usize = self.get_level()?;
        let actual: usize = self.get_actual_level()?;
        proof {
            lemma_pow2_pos((level - actual) as nat);
            lemma_heap_coords(level as nat, actual as nat, 0);
            lemma_pow2_strictly_increases((level - actual) as nat, level as nat + 1);
        }
        let mut root: Self::Node = self.lv_order_at(file, pow2_usize(level - actual))?;
        let mut i: usize = actual;
        while i < level
            invariant
                actual <= i <= level,
                level == self.spec_level(),
                self.spec_default_proof().len() == level,
                fold_defaults(self, root, i as nat) == spec_root(self, file),
            decreases level - i,
        {
            let d: Self::Node = self.get_default_proof(i)?;
            root = self.hash(root, d)?;
            i += 1;
        }
        Ok(root)
    }
}

/// Above the level that holds all of `leaf_id`, the path runs along the left edge.
pub proof fn lemma_ancestor_zero(leaf_id: nat, level: nat)
    requires
        leaf_id < pow2(level),
    ensures
        ancestor(leaf_id, level) == 0,
{
    lemma_pow2_pos(level);
    vstd::arithmetic::div_mod::lemma_basic_div(leaf_id as int, pow2(level) as int);
}

/// The node at `level` and `pos` has heap number `2^(height - level) + pos`.
pub proof fn lemma_heap_coords(height: nat, level: nat, pos: nat)
    requires
        level <= height,
        pos < pow2((height - level) as nat),
    ensures
        heap_level(height, pow2((height - level) as nat) + pos) == level,
        heap_pos(pow2((height - level) as nat) + pos) == pos,
        heap_flat(height, pow2((height - level) as nat) + pos) == flat(level, pos),
        1 <= pow2((height - level) as nat) + pos < pow2(height + 1),
{
    let e = (height - level) as nat;
    lemma_pow2_pos(e);
    lemma_pow2_unfold(e + 1);
    crate::index::lemma_floor_log2_unique(pow2(e) + pos, e);
    if e + 1 < height + 1 {
        lemma_pow2_strictly_increases(e + 1, height + 1);
    }
}

} // verus!
