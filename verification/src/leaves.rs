//! Trees that keep a record behind every leaf digest.

use vstd::prelude::*;
use vstd::arithmetic::power2::pow2;
use crate::error::Error;
use crate::file::{masked, same_counters, TsFile};
use crate::merkle::{
    fold_defaults, fold_path, lemma_fold_defaults_shape, lemma_fold_path_shape, node_at,
    node_slot, root_readable, same_nodes, same_shape, spec_path, spec_root, update_post,
    verify_post, MerkleNodes, MerkleTree, MerkleUpdatePrf, MerkleUpdatePrfWithLeafData,
    MerkleVerifyPrf, MerkleVerifyPrfWithLeafData,
};
use crate::reference::{coherent, reference_root, subtree};

verus! {

/// A record that has a digest.
pub trait MerkleLeaf<Node: Copy>: Sized {
    /// What the digest is computed with.
    type Ctx;

    /// Whether the digest can be computed with `ctx`.
    spec fn digestible(&self, ctx: &Self::Ctx) -> bool;

    /// The digest, or why there is none.
    spec fn spec_digest(&self, ctx: &Self::Ctx) -> Result<Node, Error>;

    fn digest(&self, ctx: &Self::Ctx) -> (r: Result<Node, Error>)
        requires
            self.digestible(ctx),
        ensures
            r == self.spec_digest(ctx),
    ;
}

/// Two trees with the same nodes have the same root.
pub proof fn lemma_same_nodes_root<T: MerkleNodes>(a: &T, fa: &TsFile, b: &T, fb: &TsFile)
    requires
        same_nodes(a, fa, b, fb),
    ensures
        spec_root(b, fb) == spec_root(a, fa),
        root_readable(b, fb) == root_readable(a, fa),
        forall|level: nat, pos: nat| #[trigger]
            node_slot(b, fb, level, pos) == node_slot(a, fa, level, pos),
        forall|level: nat, pos: nat| #[trigger]
            node_at(b, fb, level, pos) == node_at(a, fa, level, pos),
        forall|id: nat| #[trigger] spec_path(b, fb, id) =~= spec_path(a, fa, id),
{
    assert forall|level: nat, pos: nat| #[trigger]
        node_slot(b, fb, level, pos) == node_slot(a, fa, level, pos) by {}
    lemma_fold_defaults_shape(
        b,
        a,
        node_at(a, fa, a.spec_actual_level(), 0),
        a.spec_actual_level(),
    );
}

/// Two trees with the same nodes are coherent together and stand for the
/// same reference tree.
pub proof fn lemma_same_nodes_reference<T: MerkleNodes>(a: &T, fa: &TsFile, b: &T, fb: &TsFile)
    requires
        same_nodes(a, fa, b, fb),
    ensures
        coherent(b, fb) == coherent(a, fa),
        reference_root(b, fb) == reference_root(a, fa),
        forall|level: nat, pos: nat| #[trigger]
            subtree(b, fb, level, pos) == subtree(a, fa, level, pos),
{
    lemma_same_nodes_root(a, fa, b, fb);
    assert forall|level: nat, pos: nat| #[trigger]
        subtree(b, fb, level, pos) == subtree(a, fa, level, pos) by {
        crate::reference::lemma_subtree_frame(b, fb, a, fa, level, pos);
    }
    if coherent(a, fa) {
        assert(coherent(b, fb));
    }
    if coherent(b, fb) {
        assert(same_nodes(b, fb, a, fa));
        lemma_same_nodes_root(b, fb, a, fa);
        assert(coherent(a, fa));
    }
}

/// What an update returned stays true of any tree with the nodes of the
/// tree it left behind.
pub proof fn lemma_update_post_same_nodes<T: MerkleNodes>(
    a: &T,
    fa: &TsFile,
    b: &T,
    fb: &TsFile,
    c: &T,
    fc: &TsFile,
    leaf_id: nat,
    node: T::Node,
    r: Result<MerkleUpdatePrf<T::Node>, Error>,
)
    requires
        update_post(a, fa, b, fb, leaf_id, node, r),
        same_nodes(b, fb, c, fc),
    ensures
        update_post(a, fa, c, fc, leaf_id, node, r),
{
    lemma_same_nodes_root(b, fb, c, fc);
    lemma_same_nodes_reference(b, fb, c, fc);
    if r is Ok {
        let p = r->Ok_0;
        lemma_fold_path_shape(c, b, node, leaf_id, p.proof@);
        lemma_fold_path_shape(c, b, p.ori_leaf_node, leaf_id, p.proof@);
    }
    if r is Err {
        assert(same_nodes(a, fa, c, fc));
    }
}

/// A tree whose leaves have records: the node store holds the digests, a
/// second store holds the records, and every update keeps the two in step.
pub trait MerkleTreeWithLeaves: MerkleTree {
    type Leaf;

    /// What of a record is stored.
    type LeafView;

    /// What of `leaf` is stored.
    spec fn leaf_view(leaf: &Self::Leaf) -> Self::LeafView;

    /// What the tree holds at leaf `idx`, or why it cannot be read.
    spec fn spec_leaf_at(&self, file: &TsFile, idx: nat) -> Result<Self::LeafView, Error>;

    /// Whether `leaf` can be digested and stored in this tree.
    spec fn leaf_ok(&self, file: &TsFile, leaf: &Self::Leaf) -> bool;

    /// The digest of `leaf`, or why there is none.
    spec fn spec_leaf_digest(&self, file: &TsFile, leaf: &Self::Leaf) -> Result<
        Self::Node,
        Error,
    >;

    /// What the tree holds at a leaf that can be read depends on what it
    /// keeps besides its nodes.
    proof fn lemma_rest_leaf_at(a: &Self, fa: &TsFile, b: &Self, fb: &TsFile, idx: nat)
        requires
            a.wf(fa),
            b.wf(fb),
            a.spec_rest(fa) == b.spec_rest(fb),
            a.spec_leaf_at(fa, idx) is Ok,
        ensures
            b.spec_leaf_at(fb, idx) == a.spec_leaf_at(fa, idx),
    ;

    /// Whether a record can be stored, and its digest, depend on what the
    /// tree keeps besides its nodes.
    proof fn lemma_rest_leaf(a: &Self, fa: &TsFile, b: &Self, fb: &TsFile, leaf: &Self::Leaf)
        requires
            a.wf(fa),
            b.wf(fb),
            a.spec_rest(fa) == b.spec_rest(fb),
            a.leaf_ok(fa, leaf),
        ensures
            b.leaf_ok(fb, leaf),
            b.spec_leaf_digest(fb, leaf) == a.spec_leaf_digest(fa, leaf),
    ;

    fn leaf_at(&self, file: &TsFile, idx: usize) -> (r: Result<Self::Leaf, Error>)
        requires
            self.wf(file),
        ensures
            match r {
                Ok(leaf) => self.spec_leaf_at(file, idx as nat) == Ok::<Self::LeafView, Error>(
                    Self::leaf_view(&leaf),
                ),
                Err(e) => self.spec_leaf_at(file, idx as nat) == Err::<Self::LeafView, Error>(e),
            },
    ;

    fn leaf_set(&mut self, file: &mut TsFile, idx: usize, leaf: Self::Leaf) -> (r: Result<
        (),
        Error,
    >)
        requires
            old(self).wf(old(file)),
            old(self).leaf_ok(old(file), &leaf),
        ensures
            final(self).wf(final(file)),
            same_nodes(old(self), old(file), final(self), final(file)),
            final(self).spec_fixed() == old(self).spec_fixed(),
            old(self).spec_places().subset_of(final(self).spec_places()),
            masked(final(file)@, final(self).spec_owned()) == masked(
                old(file)@,
                old(self).spec_owned(),
            ),
            same_counters(old(file), final(file)),
            idx < pow2(old(self).spec_level()) ==> r is Ok,
            idx >= pow2(old(self).spec_level()) ==> r is Err && r->Err_0 == Error::InvalidLeafId,
            r is Ok ==> final(self).spec_leaf_at(final(file), idx as nat) == Ok::<
                Self::LeafView,
                Error,
            >(Self::leaf_view(&leaf)),
            forall|j: nat|
                (j != idx || r is Err) && old(self).spec_leaf_at(old(file), j) is Ok ==> final(self).spec_leaf_at(final(file), j) == old(self).spec_leaf_at(old(file), j),
    ;

    fn leaf_digest(&self, file: &TsFile, leaf: &Self::Leaf) -> (r: Result<Self::Node, Error>)
        requires
            self.wf(file),
            self.leaf_ok(file, leaf),
        ensures
            r == self.spec_leaf_digest(file, leaf),
    ;

    /// The membership record of leaf `idx` together with its record.
    fn verify_leaf(&self, file: &TsFile, idx: usize) -> (r: Result<
        MerkleVerifyPrfWithLeafData<Self::Node, Self::Leaf>,
        Error,
    >)
        requires
            self.wf(file),
        ensures
            match r {
                Ok(p) => verify_post(self, file, idx as nat, Ok(p.merkle_prf))
                    && self.spec_leaf_at(file, idx as nat) == Ok::<Self::LeafView, Error>(
                    Self::leaf_view(&p.leaf),
                ),
                Err(e) => (exists|q: Result<MerkleVerifyPrf<Self::Node>, Error>|
                    #![trigger verify_post(self, file, idx as nat, q)]
                    q is Err && q->Err_0 == e && verify_post(self, file, idx as nat, q)) || (
                idx < pow2(self.spec_level()) && root_readable(self, file) && self.spec_leaf_at(
                    file,
                    idx as nat,
                ) == Err::<Self::LeafView, Error>(e)),
            },
    {
        let merkle_prf = match self.verify_leaf_node(file, idx) {
            Ok(p) => p,
            Err(e) => {
                proof {
                    let q: Result<MerkleVerifyPrf<Self::Node>, Error> = Err(e);
                    assert(verify_post(self, file, idx as nat, q));
                }
                return Err(e);
            },
        };
        let leaf = self.leaf_at(file, idx)?;
        Ok(MerkleVerifyPrfWithLeafData { merkle_prf, leaf })
    }

    /// Stores `leaf` at leaf `idx`: its digest goes into the node store, the
    /// record into the record store.
    fn update_leaf(&mut self, file: &mut TsFile, idx: usize, leaf: Self::Leaf) -> (r: Result<
        MerkleUpdatePrfWithLeafData<Self::Node, Self::Leaf>,
        Error,
    >)
        requires
            old(self).wf(old(file)),
            old(self).leaf_ok(old(file), &leaf),
        ensures
            final(self).wf(final(file)),
            same_shape(final(self), old(self)),
            final(self).spec_actual_level() >= old(self).spec_actual_level(),
            final(self).spec_fixed() == old(self).spec_fixed(),
            old(self).spec_places().subset_of(final(self).spec_places()),
            masked(final(file)@, final(self).spec_owned()) == masked(
                old(file)@,
                old(self).spec_owned(),
            ),
            same_counters(old(file), final(file)),
            coherent(old(self), old(file)) ==> coherent(final(self), final(file)),
            match r {
                Ok(p) => {
                    &&& old(self).spec_leaf_digest(old(file), &leaf) is Ok
                    &&& update_post(
                        old(self),
                        old(file),
                        final(self),
                        final(file),
                        idx as nat,
                        old(self).spec_leaf_digest(old(file), &leaf)->Ok_0,
                        Ok(p.merkle_prf),
                    )
                    &&& old(self).spec_leaf_at(old(file), idx as nat) == Ok::<
                        Self::LeafView,
                        Error,
                    >(Self::leaf_view(&p.ori_leaf))
                    &&& final(self).spec_leaf_at(final(file), idx as nat) == Ok::<
                        Self::LeafView,
                        Error,
                    >(Self::leaf_view(&leaf))
                    &&& Self::leaf_view(&p.new_leaf) == Self::leaf_view(&leaf)
                    &&& forall|j: nat|
                        j != idx && old(self).spec_leaf_at(old(file), j) is Ok ==> final(self).spec_leaf_at(final(file), j) == old(self).spec_leaf_at(old(file), j)
                },
                Err(e) => {
                    &&& same_nodes(old(self), old(file), final(self), final(file))
                    &&& final(self).spec_rest(final(file)) == old(self).spec_rest(old(file))
                },
            },
            old(self).spec_leaf_at(old(file), idx as nat) is Ok && old(self).spec_leaf_digest(
                old(file),
                &leaf,
            ) is Ok && idx < pow2(old(self).spec_level()) && !(old(self).spec_actual_level()
                == old(self).spec_level() && !root_readable(old(self), old(file))) ==> r is Ok,
            r is Err ==> r->Err_0 == if old(self).spec_leaf_at(old(file), idx as nat) is Err {
                old(self).spec_leaf_at(old(file), idx as nat)->Err_0
            } else if old(self).spec_leaf_digest(old(file), &leaf) is Err {
                old(self).spec_leaf_digest(old(file), &leaf)->Err_0
            } else if idx >= pow2(old(self).spec_level()) {
                Error::InvalidLeafId
            } else {
                Error::OutOfRangeProof
            },
    {
        let digest = self.leaf_digest(file, &leaf);
        let ori_leaf = match self.leaf_at(file, idx) {
            Ok(l) => l,
            Err(e) => {
                proof {
                    lemma_same_nodes_reference(old(self), old(file), self, file);
                }
                return Err(e);
            },
        };
        let digest = match digest {
            Ok(d) => d,
            Err(e) => {
                proof {
                    lemma_same_nodes_reference(old(self), old(file), self, file);
                }
                return Err(e);
            },
        };
        let found = self.update_leaf_node(file, idx, digest);
        let merkle_prf = match found {
            Ok(p) => p,
            Err(e) => {
                return Err(e);
            },
        };
        let ghost mid = *self;
        let ghost mid_file = *file;
        proof {
            Self::lemma_rest_leaf(old(self), old(file), self, file, &leaf);
            assert forall|j: nat| old(self).spec_leaf_at(old(file), j) is Ok implies self.spec_leaf_at(
                file,
                j,
            ) == old(self).spec_leaf_at(old(file), j) by {
                Self::lemma_rest_leaf_at(old(self), old(file), self, file, j);
            }
        }
        let ghost view = Self::leaf_view(&leaf);
        let _ = self.leaf_set(file, idx, leaf);
        proof {
            lemma_update_post_same_nodes(
                old(self),
                old(file),
                &mid,
                &mid_file,
                self,
                file,
                idx as nat,
                digest,
                Ok(merkle_prf),
            );
        }
        let new_leaf = match self.leaf_at(file, idx) {
            Ok(l) => l,
            Err(e) => {
                proof {
                    assert(false);
                }
                return Err(e);
            },
        };
        Ok(MerkleUpdatePrfWithLeafData { merkle_prf, ori_leaf, new_leaf })
    }

    /// Reads the record at leaf `idx`, lets `f` change it, and stores the result.
    fn update<F: FnOnce(Self::Leaf) -> Result<Self::Leaf, Error>>(
        &mut self,
        file: &mut TsFile,
        idx: u64,
        f: F,
    ) -> (r: Result<MerkleUpdatePrfWithLeafData<Self::Node, Self::Leaf>, Error>)
        requires
            old(self).wf(old(file)),
            forall|l: Self::Leaf|
                old(self).spec_leaf_at(old(file), idx as nat) == Ok::<Self::LeafView, Error>(
                    Self::leaf_view(&l),
                ) ==> call_requires(f, (l,)),
            forall|l: Self::Leaf, m: Self::Leaf|
                call_ensures(f, (l,), Ok::<Self::Leaf, Error>(m)) ==> old(self).leaf_ok(
                    old(file),
                    &m,
                ),
        ensures
            final(self).wf(final(file)),
            same_shape(final(self), old(self)),
            final(self).spec_actual_level() >= old(self).spec_actual_level(),
            final(self).spec_fixed() == old(self).spec_fixed(),
            old(self).spec_places().subset_of(final(self).spec_places()),
            masked(final(file)@, final(self).spec_owned()) == masked(
                old(file)@,
                old(self).spec_owned(),
            ),
            same_counters(old(file), final(file)),
            coherent(old(self), old(file)) ==> coherent(final(self), final(file)),
            match r {
                Ok(p) => exists|l: Self::Leaf, m: Self::Leaf|
                    {
                        &&& old(self).spec_leaf_at(old(file), idx as nat) == Ok::<
                            Self::LeafView,
                            Error,
                        >(Self::leaf_view(&l))
                        &&& #[trigger] call_ensures(f, (l,), Ok::<Self::Leaf, Error>(m))
                        &&& old(self).spec_leaf_digest(old(file), &m) is Ok
                        &&& update_post(
                            old(self),
                            old(file),
                            final(self),
                            final(file),
                            idx as nat,
                            old(self).spec_leaf_digest(old(file), &m)->Ok_0,
                            Ok(p.merkle_prf),
                        )
                        &&& final(self).spec_leaf_at(final(file), idx as nat) == Ok::<
                            Self::LeafView,
                            Error,
                        >(Self::leaf_view(&m))
                        &&& Self::leaf_view(&p.new_leaf) == Self::leaf_view(&m)
                        &&& Self::leaf_view(&p.ori_leaf) == Self::leaf_view(&l)
                    } && forall|j: nat|
                    j != idx && old(self).spec_leaf_at(old(file), j) is Ok ==> final(self).spec_leaf_at(final(file), j) == old(self).spec_leaf_at(old(file), j),
                Err(e) => {
                    &&& same_nodes(old(self), old(file), final(self), final(file))
                    &&& final(self).spec_rest(final(file)) == old(self).spec_rest(old(file))
                },
            },
            idx < pow2(old(self).spec_level()) && !(old(self).spec_actual_level() == old(
                self,
            ).spec_level() && !root_readable(old(self), old(file))) && old(self).spec_leaf_at(
                old(file),
                idx as nat,
            ) is Ok && (forall|l: Self::Leaf, out: Result<Self::Leaf, Error>|
                call_ensures(f, (l,), out) ==> out is Ok && old(self).spec_leaf_digest(
                    old(file),
                    &out->Ok_0,
                ) is Ok) ==> r is Ok,
            idx > usize::MAX ==> r is Err && r->Err_0 == Error::InvalidLeafId,
            idx <= usize::MAX && old(self).spec_leaf_at(old(file), idx as nat) is Err ==> r is Err
                && r->Err_0 == old(self).spec_leaf_at(old(file), idx as nat)->Err_0,
            idx <= usize::MAX && old(self).spec_leaf_at(old(file), idx as nat) is Ok ==> exists|
                l: Self::Leaf,
                out: Result<Self::Leaf, Error>,
            |
                {
                    &&& old(self).spec_leaf_at(old(file), idx as nat) == Ok::<
                        Self::LeafView,
                        Error,
                    >(Self::leaf_view(&l))
                    &&& #[trigger] call_ensures(f, (l,), out)
                    &&& match out {
                        Err(e) => r is Err && r->Err_0 == e,
                        Ok(m) => r is Err ==> r->Err_0 == if old(self).spec_leaf_digest(
                            old(file),
                            &m,
                        ) is Err {
                            old(self).spec_leaf_digest(old(file), &m)->Err_0
                        } else if idx >= pow2(old(self).spec_level()) {
                            Error::InvalidLeafId
                        } else {
                            Error::OutOfRangeProof
                        },
                    }
                },
    {
        proof {
            old(self).lemma_wf(old(file));
            crate::index::lemma_pow2_exponent(old(self).spec_level() + 1);
            vstd::arithmetic::power2::lemma_pow2_strictly_increases(
                old(self).spec_level(),
                old(self).spec_level() + 1,
            );
        }
        if idx > usize::MAX as u64 {
            proof {
                lemma_same_nodes_reference(old(self), old(file), self, file);
            }
            return Err(Error::InvalidLeafId);
        }
        let leaf = match self.leaf_at(file, idx as usize) {
            Ok(l) => l,
            Err(e) => {
                proof {
                    lemma_same_nodes_reference(old(self), old(file), self, file);
                }
                return Err(e);
            },
        };
        let ghost before = leaf;
        let changed = match f(leaf) {
            Ok(m) => m,
            Err(e) => {
                proof {
                    lemma_same_nodes_reference(old(self), old(file), self, file);
                    assert(call_ensures(f, (before,), Err::<Self::Leaf, Error>(e)));
                }
                return Err(e);
            },
        };
        let ghost after = changed;
        let r = self.update_leaf(file, idx as usize, changed);
        proof {
            assert(call_ensures(f, (before,), Ok::<Self::Leaf, Error>(after)));
        }
        r
    }
}

} // verus!
