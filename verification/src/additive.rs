//! A tree whose compression is addition in the field. Every digest is then a
//! sum of leaf digests, so roots and paths can be checked by hand.

use vstd::prelude::*;
use vstd::arithmetic::power2::pow2;
use core::marker::PhantomData;
use crate::array::Array;
use crate::error::Error;
use crate::file::TsFile;
use crate::merkle::{node_slot, MerkleNodes, MerkleTree};
use crate::node_ptr::NodePtr;
use crate::reference::coherent;
use crate::scalar::{modulus, Scalar};
use crate::token::{node_get, spec_node, valid_height};

verus! {

/// The sum of two digests.
pub open spec fn spec_sum(left: Scalar, right: Scalar) -> Scalar {
    Scalar::spec_new((left@ + right@) % modulus())
}

/// A tree of digests alone, compressed by addition.
pub struct AdditiveTree {
    pub height: usize,
    pub nodes: Array<NodePtr>,
    pub actual_level: usize,
    pub default_proof: Vec<Scalar>,
}

impl AdditiveTree {
    /// The tree of height `height` in which every leaf has the digest
    /// `default_leaf`, or `InvariantViolated` where no tree has that height.
    pub fn new(height: usize, default_leaf: Scalar) -> (r: Result<AdditiveTree, Error>)
        ensures
            valid_height(height as nat) <==> r is Ok,
            r is Err ==> r->Err_0 == Error::InvariantViolated,
            r is Ok ==> ({
                let t = r->Ok_0;
                &&& t.height == height
                &&& t.actual_level == 0
                &&& t.default_proof@[0] == default_leaf
                &&& t.nodes.blocks().len() == 0
                &&& forall|file: TsFile| #[trigger] t.wf(&file) && coherent(&t, &file)
            }),
    {
        if height < 1 || height >= usize::BITS as usize - 1 {
            return Err(Error::InvariantViolated);
        }
        let mut default_proof: Vec<Scalar> = Vec::new();
        default_proof.push(default_leaf);
        let mut i: usize = 1;
        while i < height
            invariant
                1 <= i <= height,
                default_proof@.len() == i,
                default_proof@[0] == default_leaf,
                forall|k: int|
                    1 <= k < i ==> #[trigger] default_proof@[k] == spec_sum(
                        default_proof@[k - 1],
                        default_proof@[k - 1],
                    ),
            decreases height - i,
        {
            let below: Scalar = default_proof[i - 1];
            let next: Scalar = below.add(&below);
            next.check_reduced_spec();
            default_proof.push(next);
            i += 1;
        }
        let t = AdditiveTree {
            height,
            nodes: Array::Default { _phantom: PhantomData },
            actual_level: 0,
            default_proof,
        };
        proof {
            crate::index::lemma_pow2_fits((height + 1) as nat);
            assert forall|file: TsFile| #[trigger] t.wf(&file) && coherent(&t, &file) by {
                assert(t.wf(&file));
                assert forall|level: nat, pos: nat| #[trigger]
                    node_slot(&t, &file, level, pos) is None by {}
            }
        }
        Ok(t)
    }
}

impl MerkleNodes for AdditiveTree {
    type Node = Scalar;

    type Rest = Map<int, Option<u8>>;

    type Fixed = usize;

    open spec fn spec_fixed(&self) -> usize {
        self.height
    }

    open spec fn spec_places(&self) -> Set<(int, nat, usize)> {
        Set::empty()
    }

    proof fn lemma_untouched(
        &self,
        before: &TsFile,
        own_before: Set<int>,
        after: &TsFile,
        own_after: Set<int>,
    ) {
        assert forall|p: int| self.nodes.owns(p) implies !own_before.contains(p) by {
            assert(self.nodes.footprint().contains(p));
        }
        self.nodes.lemma_untouched(before, own_before, after, own_after);
        assert forall|p: int| self.spec_owned().contains(p) implies !own_after.contains(p) by {
            assert(self.nodes.footprint().contains(p) == self.nodes.owns(p));
        }
    }

    open spec fn wf(&self, file: &TsFile) -> bool {
        &&& self.nodes.wf(file)
        &&& 1 <= self.height
        &&& pow2(self.height as nat + 1) <= usize::MAX
        &&& self.actual_level <= self.height
        &&& self.default_proof@.len() == self.height
        &&& forall|k: int|
            1 <= k < self.height ==> #[trigger] self.default_proof@[k] == spec_sum(
                self.default_proof@[k - 1],
                self.default_proof@[k - 1],
            )
    }

    open spec fn spec_level(&self) -> nat {
        self.height as nat
    }

    open spec fn spec_actual_level(&self) -> nat {
        self.actual_level as nat
    }

    open spec fn spec_default_proof(&self) -> Seq<Scalar> {
        self.default_proof@
    }

    open spec fn spec_hash(&self, left: Scalar, right: Scalar) -> Scalar {
        spec_sum(left, right)
    }

    open spec fn spec_idx_at(&self, file: &TsFile, idx: nat) -> Option<Scalar> {
        spec_node(&self.nodes, file, idx)
    }

    open spec fn spec_rest(&self, file: &TsFile) -> Map<int, Option<u8>> {
        self.nodes.outside(file)
    }

    open spec fn spec_owned(&self) -> Set<int> {
        self.nodes.footprint()
    }

    proof fn lemma_wf(&self, file: &TsFile) {
    }

    fn hash(&self, left: Scalar, right: Scalar) -> (r: Result<Scalar, Error>) {
        let sum = left.add(&right);
        sum.check_reduced_spec();
        Ok(sum)
    }

    fn idx_at(&self, file: &TsFile, idx: usize) -> (r: Result<Option<Scalar>, Error>) {
        node_get(&self.nodes, file, idx)
    }

    fn idx_set(&mut self, file: &mut TsFile, idx: usize, node: Option<Scalar>) -> (r: Result<
        (),
        Error,
    >) {
        self.nodes.set(file, idx, &node)
    }

    fn get_actual_level(&self) -> (r: Result<usize, Error>) {
        Ok(self.actual_level)
    }

    fn set_actual_level(&mut self, level: usize) -> (r: Result<(), Error>) {
        self.actual_level = level;
        Ok(())
    }

    fn get_default_proof(&self, idx: usize) -> (r: Result<Scalar, Error>) {
        if idx >= self.default_proof.len() {
            return Err(Error::OutOfRangeProof);
        }
        Ok(self.default_proof[idx])
    }

    fn get_level(&self) -> (r: Result<usize, Error>) {
        Ok(self.height)
    }
}

impl MerkleTree for AdditiveTree {

}

} // verus!
