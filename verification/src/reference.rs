//! The full tree that the engine stands for, and why the engine agrees with it.
//!
//! The reference is the complete binary tree over all `2^H` leaf digests,
//! every node the compression of its two children. The engine keeps only the
//! nodes inside the frontier; `coherent` says that what it keeps is
//! consistent, and the lemmas here show that a coherent store yields the
//! reference root and reference sibling paths, and that growth and update
//! keep a store coherent.

use vstd::prelude::*;
use vstd::arithmetic::power2::{pow2, lemma_pow2_pos, lemma_pow2_unfold, lemma_pow2_strictly_increases};
use crate::file::TsFile;
use crate::index::flat;
use crate::merkle::{
    ancestor, fold_defaults, fold_path, grown, lemma_ancestor_step, lemma_ancestor_zero,
    node_at, node_slot, root_readable, same_shape, sibling, spec_root, walked, MerkleNodes,
};

verus! {

/// The digest of the complete subtree at `level` and `pos`, computed from the
/// leaf digests alone.
pub open spec fn subtree<T: MerkleNodes>(t: &T, file: &TsFile, level: nat, pos: nat) -> T::Node
    decreases level,
{
    if level == 0 {
        node_at(t, file, 0, pos)
    } else {
        t.spec_hash(
            subtree(t, file, (level - 1) as nat, 2 * pos),
            subtree(t, file, (level - 1) as nat, 2 * pos + 1),
        )
    }
}

/// The root of the complete tree over the leaf digests.
pub open spec fn reference_root<T: MerkleNodes>(t: &T, file: &TsFile) -> T::Node {
    subtree(t, file, t.spec_level(), 0)
}

/// Whether the node at `level` and `pos` lies inside the frontier subtree of level `l`.
pub open spec fn inside(l: nat, level: nat, pos: nat) -> bool {
    level <= l && pos < pow2((l - level) as nat)
}

/// The shape that every well-formed tree has.
pub open spec fn shaped<T: MerkleNodes>(t: &T) -> bool {
    &&& 1 <= t.spec_level()
    &&& t.spec_actual_level() <= t.spec_level()
    &&& t.spec_default_proof().len() == t.spec_level()
    &&& forall|i: int|
        1 <= i < t.spec_level() ==> #[trigger] t.spec_default_proof()[i] == t.spec_hash(
            t.spec_default_proof()[i - 1],
            t.spec_default_proof()[i - 1],
        )
}

/// The store is consistent with its frontier: nothing is stored beyond the
/// frontier except on the left edge, every node inside the frontier is the
/// compression of its children, and a frontier at full height has its root.
pub open spec fn coherent<T: MerkleNodes>(t: &T, file: &TsFile) -> bool {
    let h = t.spec_level();
    let l = t.spec_actual_level();
    &&& forall|level: nat, pos: nat|
        level <= h && 1 <= pos && !inside(l, level, pos) ==> #[trigger] node_slot(
            t,
            file,
            level,
            pos,
        ) is None
    &&& forall|level: nat, pos: nat|
        1 <= level && inside(l, level, pos) ==> #[trigger] node_at(t, file, level, pos)
            == t.spec_hash(
            node_at(t, file, (level - 1) as nat, 2 * pos),
            node_at(t, file, (level - 1) as nat, 2 * pos + 1),
        )
    &&& l == h ==> node_slot(t, file, h, 0) is Some
}

/// The children of a node inside the frontier are inside the frontier.
pub proof fn lemma_inside_children(l: nat, level: nat, pos: nat)
    requires
        level >= 1,
        inside(l, level, pos),
    ensures
        inside(l, (level - 1) as nat, 2 * pos),
        inside(l, (level - 1) as nat, 2 * pos + 1),
{
    lemma_pow2_unfold((l - level + 1) as nat);
}

/// The children of a node beyond the frontier are beyond the frontier.
pub proof fn lemma_outside_children(l: nat, level: nat, pos: nat)
    requires
        level >= 1,
        pos >= 1,
        !inside(l, level, pos),
    ensures
        !inside(l, (level - 1) as nat, 2 * pos),
        !inside(l, (level - 1) as nat, 2 * pos + 1),
{
    if level <= l {
        lemma_pow2_unfold((l - level + 1) as nat);
    } else if level - 1 <= l {
        vstd::arithmetic::power2::lemma2_to64();
    }
}

/// Inside the frontier, what the store gives is the reference digest.
pub proof fn lemma_inside_is_subtree<T: MerkleNodes>(t: &T, file: &TsFile, level: nat, pos: nat)
    requires
        coherent(t, file),
        inside(t.spec_actual_level(), level, pos),
    ensures
        node_at(t, file, level, pos) == subtree(t, file, level, pos),
    decreases level,
{
    if level >= 1 {
        lemma_inside_children(t.spec_actual_level(), level, pos);
        lemma_inside_is_subtree(t, file, (level - 1) as nat, 2 * pos);
        lemma_inside_is_subtree(t, file, (level - 1) as nat, 2 * pos + 1);
    }
}

/// Beyond the frontier, the store gives the default digest of the level, and
/// so does the reference.
pub proof fn lemma_outside_is_default<T: MerkleNodes>(t: &T, file: &TsFile, level: nat, pos: nat)
    requires
        shaped(t),
        coherent(t, file),
        level < t.spec_level(),
        pos >= 1,
        !inside(t.spec_actual_level(), level, pos),
    ensures
        node_at(t, file, level, pos) == t.spec_default_proof()[level as int],
        subtree(t, file, level, pos) == t.spec_default_proof()[level as int],
    decreases level,
{
    assert(node_slot(t, file, level, pos) is None);
    if level >= 1 {
        lemma_outside_children(t.spec_actual_level(), level, pos);
        lemma_outside_is_default(t, file, (level - 1) as nat, 2 * pos);
        lemma_outside_is_default(t, file, (level - 1) as nat, 2 * pos + 1);
        assert(t.spec_default_proof()[level as int] == t.spec_hash(
            t.spec_default_proof()[level - 1],
            t.spec_default_proof()[level - 1],
        ));
    }
}

/// Folding the reference digest of the left-edge node at level `from` with
/// the defaults above it gives the reference root.
pub proof fn lemma_fold_defaults_reference<T: MerkleNodes>(t: &T, file: &TsFile, from: nat)
    requires
        shaped(t),
        coherent(t, file),
        t.spec_actual_level() <= from <= t.spec_level(),
    ensures
        fold_defaults(t, subtree(t, file, from, 0), from) == reference_root(t, file),
    decreases t.spec_level() - from,
{
    if from < t.spec_level() {
        vstd::arithmetic::power2::lemma2_to64();
        if from <= t.spec_actual_level() {
            assert(!inside(t.spec_actual_level(), from, 1));
        }
        lemma_outside_is_default(t, file, from, 1);
        lemma_fold_defaults_reference(t, file, from + 1);
    }
}

/// The root of a coherent store can be read and is the reference root.
pub proof fn lemma_root_is_reference<T: MerkleNodes>(t: &T, file: &TsFile)
    requires
        shaped(t),
        coherent(t, file),
    ensures
        root_readable(t, file),
        spec_root(t, file) == reference_root(t, file),
{
    vstd::arithmetic::power2::lemma2_to64();
    lemma_inside_is_subtree(t, file, t.spec_actual_level(), 0);
    lemma_fold_defaults_reference(t, file, t.spec_actual_level());
}

/// The reference digest of a subtree depends on the leaf digests under it and
/// on the compression function, and on nothing else.
pub proof fn lemma_subtree_frame<T: MerkleNodes>(
    a: &T,
    fa: &TsFile,
    b: &T,
    fb: &TsFile,
    level: nat,
    pos: nat,
)
    requires
        same_shape(a, b),
        forall|i: nat|
            pos * pow2(level) <= i < (pos + 1) * pow2(level) ==> #[trigger] node_at(a, fa, 0, i)
                == node_at(b, fb, 0, i),
    ensures
        subtree(a, fa, level, pos) == subtree(b, fb, level, pos),
    decreases level,
{
    lemma_pow2_pos(level);
    if level == 0 {
        vstd::arithmetic::power2::lemma2_to64();
        assert(pos * pow2(0) == pos) by (nonlinear_arith)
            requires
                pow2(0) == 1,
        ;
        assert((pos + 1) * pow2(0) == pos + 1) by (nonlinear_arith)
            requires
                pow2(0) == 1,
        ;
    } else {
        let c = (level - 1) as nat;
        lemma_pow2_unfold(level);
        let w = pow2(c) as int;
        assert((2 * pos) * w == pos * (2 * w)) by (nonlinear_arith);
        assert((2 * pos + 1) * w == pos * (2 * w) + w) by (nonlinear_arith);
        assert((2 * pos + 2) * w == (pos + 1) * (2 * w)) by (nonlinear_arith);
        assert((2 * pos + 1 + 1) * w == (2 * pos + 2) * w);
        assert((pos + 1) * (2 * w) == pos * (2 * w) + 2 * w) by (nonlinear_arith);
        assert forall|i: nat| (2 * pos) * pow2(c) <= i < (2 * pos + 1) * pow2(c) implies node_at(
            a,
            fa,
            0,
            i,
        ) == node_at(b, fb, 0, i) by {
            assert(pos * pow2(level) <= i < (pos + 1) * pow2(level));
        }
        assert forall|i: nat|
            (2 * pos + 1) * pow2(c) <= i < (2 * pos + 1 + 1) * pow2(c) implies node_at(a, fa, 0, i)
            == node_at(b, fb, 0, i) by {
            assert(pos * pow2(level) <= i < (pos + 1) * pow2(level));
        }
        lemma_subtree_frame(a, fa, b, fb, c, 2 * pos);
        lemma_subtree_frame(a, fa, b, fb, c, 2 * pos + 1);
    }
}

/// A node inside a frontier is inside every higher frontier.
pub proof fn lemma_inside_mono(l: nat, to: nat, level: nat, pos: nat)
    requires
        l <= to,
        inside(l, level, pos),
    ensures
        inside(to, level, pos),
{
    if l < to {
        lemma_pow2_strictly_increases((l - level) as nat, (to - level) as nat);
    }
}

/// Raising the frontier of a coherent store leaves it coherent.
pub proof fn lemma_grown_coherent<T: MerkleNodes>(a: &T, fa: &TsFile, b: &T, fb: &TsFile, to: nat)
    requires
        shaped(a),
        coherent(a, fa),
        grown(a, fa, b, fb, to),
        a.spec_actual_level() <= to <= a.spec_level(),
        b.spec_actual_level() == to,
    ensures
        coherent(b, fb),
        shaped(b),
{
    let h = a.spec_level();
    let l0 = a.spec_actual_level();
    vstd::arithmetic::power2::lemma2_to64();
    assert forall|i: int| 1 <= i < b.spec_level() implies #[trigger] b.spec_default_proof()[i]
        == b.spec_hash(b.spec_default_proof()[i - 1], b.spec_default_proof()[i - 1]) by {
        assert(a.spec_default_proof()[i] == a.spec_hash(
            a.spec_default_proof()[i - 1],
            a.spec_default_proof()[i - 1],
        ));
    }
    assert forall|level: nat, pos: nat|
        level <= h && 1 <= pos && !inside(to, level, pos) implies #[trigger] node_slot(
        b,
        fb,
        level,
        pos,
    ) is None by {
        if inside(l0, level, pos) {
            lemma_inside_mono(l0, to, level, pos);
        }
        assert(node_slot(a, fa, level, pos) is None);
    }
    assert forall|level: nat, pos: nat| 1 <= level && inside(to, level, pos) implies #[trigger] node_at(
        b,
        fb,
        level,
        pos,
    ) == b.spec_hash(
        node_at(b, fb, (level - 1) as nat, 2 * pos),
        node_at(b, fb, (level - 1) as nat, 2 * pos + 1),
    ) by {
        let c = (level - 1) as nat;
        assert(node_slot(b, fb, c, 2 * pos + 1) == node_slot(a, fa, c, 2 * pos + 1));
        if pos == 0 {
            if l0 < level {
                assert(!inside(l0, c, 1));
                assert(node_slot(a, fa, c, 1) is None);
            } else {
                lemma_pow2_pos((l0 - level) as nat);
                assert(inside(l0, level, 0));
                assert(node_slot(b, fb, c, 0) == node_slot(a, fa, c, 0));
                assert(node_at(a, fa, level, 0) == a.spec_hash(
                    node_at(a, fa, c, 0),
                    node_at(a, fa, c, 1),
                ));
            }
        } else {
            assert(node_slot(b, fb, c, 2 * pos) == node_slot(a, fa, c, 2 * pos));
            if inside(l0, level, pos) {
                assert(node_at(a, fa, level, pos) == a.spec_hash(
                    node_at(a, fa, c, 2 * pos),
                    node_at(a, fa, c, 2 * pos + 1),
                ));
            } else {
                if level >= to {
                    lemma_pow2_pos(0);
                }
                assert(level < to);
                lemma_outside_children(l0, level, pos);
                lemma_outside_is_default(a, fa, level, pos);
                lemma_outside_is_default(a, fa, c, 2 * pos);
                lemma_outside_is_default(a, fa, c, 2 * pos + 1);
                assert(a.spec_default_proof()[level as int] == a.spec_hash(
                    a.spec_default_proof()[level - 1],
                    a.spec_default_proof()[level - 1],
                ));
            }
        }
    }
    if to == h {
        if l0 < h {
            assert(node_slot(b, fb, h, 0) is Some);
        } else {
            assert(node_slot(b, fb, h, 0) == node_slot(a, fa, h, 0));
        }
    }
}

/// The node on the path of a leaf inside the frontier is inside the frontier.
pub proof fn lemma_path_inside(leaf_id: nat, level: nat, l: nat)
    requires
        leaf_id < pow2(l),
        level <= l,
    ensures
        inside(l, level, ancestor(leaf_id, level)),
        level < l ==> inside(l, level, sibling(ancestor(leaf_id, level))),
        level < l ==> ancestor(leaf_id, level + 1) == ancestor(leaf_id, level) / 2,
{
    if level < l {
        lemma_ancestor_step(leaf_id, level, l);
    } else {
        lemma_ancestor_zero(leaf_id, l);
        vstd::arithmetic::power2::lemma2_to64();
    }
}

/// Writing a leaf inside the frontier of a coherent store and recomputing
/// the nodes above it leaves the store coherent.
pub proof fn lemma_walked_coherent<T: MerkleNodes>(
    a: &T,
    fa: &TsFile,
    b: &T,
    fb: &TsFile,
    leaf_id: nat,
    node: T::Node,
)
    requires
        shaped(a),
        coherent(a, fa),
        b.spec_actual_level() == a.spec_actual_level(),
        walked(a, fa, b, fb, leaf_id, node, a.spec_actual_level()),
        leaf_id < pow2(a.spec_actual_level()),
    ensures
        coherent(b, fb),
{
    let h = a.spec_level();
    let l = a.spec_actual_level();
    assert forall|level: nat, pos: nat|
        level <= h && 1 <= pos && !inside(l, level, pos) implies #[trigger] node_slot(
        b,
        fb,
        level,
        pos,
    ) is None by {
        if level <= l {
            lemma_path_inside(leaf_id, level, l);
        }
        assert(node_slot(a, fa, level, pos) is None);
    }
    assert forall|level: nat, pos: nat| 1 <= level && inside(l, level, pos) implies #[trigger] node_at(
        b,
        fb,
        level,
        pos,
    ) == b.spec_hash(
        node_at(b, fb, (level - 1) as nat, 2 * pos),
        node_at(b, fb, (level - 1) as nat, 2 * pos + 1),
    ) by {
        let c = (level - 1) as nat;
        lemma_path_inside(leaf_id, c, l);
        if pos != ancestor(leaf_id, level) {
            assert(node_slot(b, fb, c, 2 * pos) == node_slot(a, fa, c, 2 * pos));
            assert(node_slot(b, fb, c, 2 * pos + 1) == node_slot(a, fa, c, 2 * pos + 1));
            assert(node_at(a, fa, level, pos) == a.spec_hash(
                node_at(a, fa, c, 2 * pos),
                node_at(a, fa, c, 2 * pos + 1),
            ));
        }
    }
    if l == h {
        lemma_ancestor_zero(leaf_id, h);
        assert(node_slot(b, fb, h, 0) is Some);
    }
}

/// In the reference tree, folding the digest of a leaf with the reference
/// digests of the siblings along its path gives the reference digest of the
/// node on the path at each level, and so at full height the reference root.
pub proof fn lemma_fold_reference<T: MerkleNodes>(
    t: &T,
    file: &TsFile,
    leaf_id: nat,
    path: Seq<T::Node>,
)
    requires
        forall|m: int|
            0 <= m < path.len() ==> #[trigger] path[m] == subtree(
                t,
                file,
                m as nat,
                sibling(ancestor(leaf_id, m as nat)),
            ),
    ensures
        fold_path(t, node_at(t, file, 0, leaf_id), leaf_id, path) == subtree(
            t,
            file,
            path.len(),
            ancestor(leaf_id, path.len()),
        ),
    decreases path.len(),
{
    vstd::arithmetic::power2::lemma2_to64();
    if path.len() == 0 {
        assert(leaf_id / pow2(0) == leaf_id) by (nonlinear_arith)
            requires
                pow2(0) == 1,
        ;
    } else {
        let k = (path.len() - 1) as nat;
        lemma_fold_reference(t, file, leaf_id, path.drop_last());
        let a = ancestor(leaf_id, k);
        let q = ancestor(leaf_id, k + 1);
        lemma_pow2_pos(k);
        lemma_pow2_unfold(k + 1);
        vstd::arithmetic::div_mod::lemma_div_denominator(leaf_id as int, pow2(k) as int, 2);
        assert(pow2(k) * 2 == pow2(k + 1));
        assert(q == a / 2);
        assert(path.last() == subtree(t, file, k, sibling(a)));
    }
}

/// What an update of a coherent store yields, in terms of the reference
/// tree: `g` is `o` with the frontier raised, `f` is `g` with the leaf
/// written and its path recomputed, and `path` holds what the engine
/// collected on the way.
pub proof fn lemma_update_reference<T: MerkleNodes>(
    o: &T,
    of: &TsFile,
    g: &T,
    gf: &TsFile,
    f: &T,
    ff: &TsFile,
    leaf_id: nat,
    node: T::Node,
    path: Seq<T::Node>,
)
    requires
        shaped(o),
        coherent(o, of),
        o.spec_actual_level() <= g.spec_actual_level() <= o.spec_level(),
        grown(o, of, g, gf, g.spec_actual_level()),
        f.spec_actual_level() == g.spec_actual_level(),
        walked(g, gf, f, ff, leaf_id, node, g.spec_actual_level()),
        leaf_id < pow2(g.spec_actual_level()),
        path.len() == o.spec_level(),
        forall|m: int|
            0 <= m < g.spec_actual_level() ==> #[trigger] path[m] == node_at(
                g,
                gf,
                m as nat,
                sibling(ancestor(leaf_id, m as nat)),
            ),
        forall|m: int|
            g.spec_actual_level() <= m < o.spec_level() ==> #[trigger] path[m]
                == o.spec_default_proof()[m],
    ensures
        coherent(g, gf),
        coherent(f, ff),
        spec_root(g, gf) == reference_root(o, of),
        spec_root(f, ff) == reference_root(f, ff),
        forall|m: int|
            0 <= m < path.len() ==> #[trigger] path[m] == subtree(
                o,
                of,
                m as nat,
                sibling(ancestor(leaf_id, m as nat)),
            ),
        fold_path(f, node_at(o, of, 0, leaf_id), leaf_id, path) == reference_root(o, of),
{
    let l = g.spec_actual_level();
    lemma_grown_coherent(o, of, g, gf, l);
    lemma_walked_coherent(g, gf, f, ff, leaf_id, node);
    lemma_root_is_reference(g, gf);
    assert(shaped(f)) by {
        assert forall|i: int| 1 <= i < f.spec_level() implies #[trigger] f.spec_default_proof()[i]
            == f.spec_hash(f.spec_default_proof()[i - 1], f.spec_default_proof()[i - 1]) by {
            assert(g.spec_default_proof()[i] == g.spec_hash(
                g.spec_default_proof()[i - 1],
                g.spec_default_proof()[i - 1],
            ));
        }
    }
    lemma_root_is_reference(f, ff);
    assert(forall|i: nat| #[trigger] node_slot(g, gf, 0, i) == node_slot(o, of, 0, i));
    assert forall|m: int| 0 <= m < path.len() implies #[trigger] path[m] == subtree(
        o,
        of,
        m as nat,
        sibling(ancestor(leaf_id, m as nat)),
    ) by {
        let sib = sibling(ancestor(leaf_id, m as nat));
        lemma_subtree_frame(g, gf, o, of, m as nat, sib);
        if m < l {
            lemma_path_inside(leaf_id, m as nat, l);
            lemma_inside_is_subtree(g, gf, m as nat, sib);
        } else {
            if l < m {
                lemma_pow2_strictly_increases(l, m as nat);
            }
            lemma_ancestor_zero(leaf_id, m as nat);
            vstd::arithmetic::power2::lemma2_to64();
            assert(!inside(l, m as nat, 1));
            lemma_outside_is_default(g, gf, m as nat, 1);
        }
    }
    lemma_subtree_frame(g, gf, o, of, o.spec_level(), 0);
    lemma_fold_reference(o, of, leaf_id, path);
    if l < o.spec_level() {
        lemma_pow2_strictly_increases(l, o.spec_level());
    }
    lemma_ancestor_zero(leaf_id, o.spec_level());
    crate::merkle::lemma_fold_path_shape(f, o, node_at(o, of, 0, leaf_id), leaf_id, path);
}

} // verus!
