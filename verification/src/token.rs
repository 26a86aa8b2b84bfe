//! Token balances and the per-account token tree.

use vstd::prelude::*;
use vstd::arithmetic::power2::pow2;
use core::marker::PhantomData;
use crate::array::{chain_owns, spec_blocks, Array, ElemPtr};
use crate::error::Error;
use crate::file::TsFile;
use crate::leaves::{MerkleLeaf, MerkleTreeWithLeaves};
use crate::merkle::{node_slot, same_nodes, MerkleNodes, MerkleTree};
use crate::node_ptr::NodePtr;
use crate::poseidon::{spec_permute, Poseidon, Tables};
use crate::reference::coherent;
use crate::scalar::{modulus, Scalar};
use crate::token_ptr::TokenPtr;

verus! {

/// The tag that a token digest starts with.
pub const TOKEN_TAG: u64 = 2;

/// The balance of one token in one account.
#[derive(Clone, Copy, Debug, PartialEq, Eq, Structural)]
pub struct Token {
    pub avl_amt: Scalar,
    pub locked_amt: Scalar,
}

impl Default for Token {
    fn default() -> (r: Self)
        ensures
            r == Token::spec_default(),
    {
        Token { avl_amt: Scalar::zero(), locked_amt: Scalar::zero() }
    }
}

impl Token {
    /// The balance with nothing available and nothing locked.
    pub open spec fn spec_default() -> Token {
        Token { avl_amt: Scalar::spec_new(0), locked_amt: Scalar::spec_new(0) }
    }

    /// The balance with `amt` credited to the available amount.
    pub open spec fn spec_income(self, amt: Scalar) -> Token {
        Token { avl_amt: Scalar::spec_new((self.avl_amt@ + amt@) % modulus()), locked_amt: self.locked_amt }
    }

    /// The balance with `amt` debited from the available amount.
    pub open spec fn spec_outgo(self, amt: Scalar) -> Token {
        Token { avl_amt: Scalar::spec_new(((self.avl_amt@ - amt@) % (modulus() as int)) as nat), locked_amt: self.locked_amt }
    }

    /// The balance with `amt` moved from the available to the locked amount.
    pub open spec fn spec_lock(self, amt: Scalar) -> Token {
        Token { avl_amt: Scalar::spec_new(((self.avl_amt@ - amt@) % (modulus() as int)) as nat), locked_amt: Scalar::spec_new((self.locked_amt@ + amt@) % modulus()) }
    }

    /// The balance with `amt` moved from the locked to the available amount.
    pub open spec fn spec_unlock(self, amt: Scalar) -> Token {
        Token { avl_amt: Scalar::spec_new((self.avl_amt@ + amt@) % modulus()), locked_amt: Scalar::spec_new(((self.locked_amt@ - amt@) % (modulus() as int)) as nat) }
    }

    /// The balance with `amt` debited from the locked amount.
    pub open spec fn spec_deduct(self, amt: Scalar) -> Token {
        Token { avl_amt: self.avl_amt, locked_amt: Scalar::spec_new(((self.locked_amt@ - amt@) % (modulus() as int)) as nat) }
    }

    /// Credits `amt` to the available amount.
    pub fn income(&mut self, amt: Scalar) -> (r: Result<(), Error>)
        ensures
            r is Ok,
            *final(self) == old(self).spec_income(amt),
            final(self).avl_amt@ == (old(self).avl_amt@ + amt@) % modulus(),
            final(self).locked_amt == old(self).locked_amt,
    {
        self.avl_amt = self.avl_amt.add(&amt);
        self.avl_amt.check_reduced_spec();
        Ok(())
    }

    /// Debits `amt` from the available amount.
    pub fn outgo(&mut self, amt: Scalar) -> (r: Result<(), Error>)
        ensures
            r is Ok,
            *final(self) == old(self).spec_outgo(amt),
            final(self).avl_amt@ == (old(self).avl_amt@ - amt@) % (modulus() as int),
            final(self).locked_amt == old(self).locked_amt,
    {
        self.avl_amt = self.avl_amt.sub(&amt);
        self.avl_amt.check_reduced_spec();
        Ok(())
    }

    /// Moves `amt` from the available to the locked amount.
    pub fn lock(&mut self, amt: Scalar) -> (r: Result<(), Error>)
        ensures
            r is Ok,
            *final(self) == old(self).spec_lock(amt),
            final(self).avl_amt@ == (old(self).avl_amt@ - amt@) % (modulus() as int),
            final(self).locked_amt@ == (old(self).locked_amt@ + amt@) % modulus(),
    {
        self.avl_amt = self.avl_amt.sub(&amt);
        self.locked_amt = self.locked_amt.add(&amt);
        self.avl_amt.check_reduced_spec();
        self.locked_amt.check_reduced_spec();
        Ok(())
    }

    /// Moves `amt` from the locked to the available amount.
    pub fn unlock(&mut self, amt: Scalar) -> (r: Result<(), Error>)
        ensures
            r is Ok,
            *final(self) == old(self).spec_unlock(amt),
            final(self).avl_amt@ == (old(self).avl_amt@ + amt@) % modulus(),
            final(self).locked_amt@ == (old(self).locked_amt@ - amt@) % (modulus() as int),
    {
        self.avl_amt = self.avl_amt.add(&amt);
        self.locked_amt = self.locked_amt.sub(&amt);
        self.avl_amt.check_reduced_spec();
        self.locked_amt.check_reduced_spec();
        Ok(())
    }

    /// Debits `amt` from the locked amount.
    pub fn deduct(&mut self, amt: Scalar) -> (r: Result<(), Error>)
        ensures
            r is Ok,
            *final(self) == old(self).spec_deduct(amt),
            final(self).avl_amt == old(self).avl_amt,
            final(self).locked_amt@ == (old(self).locked_amt@ - amt@) % (modulus() as int),
    {
        self.locked_amt = self.locked_amt.sub(&amt);
        self.locked_amt.check_reduced_spec();
        Ok(())
    }

    /// The digest of the balance: the hash of the tag and the two amounts.
    pub open spec fn spec_token_digest(self, hasher: &Poseidon) -> Scalar {
        Scalar::spec_new(
            spec_permute(hasher@[2], seq![TOKEN_TAG as nat, self.avl_amt@, self.locked_amt@]),
        )
    }
}

impl MerkleLeaf<Scalar> for Token {
    type Ctx = Poseidon;

    open spec fn digestible(&self, ctx: &Poseidon) -> bool {
        true
    }

    open spec fn spec_digest(&self, ctx: &Poseidon) -> Result<Scalar, Error> {
        Ok(self.spec_token_digest(ctx))
    }

    fn digest(&self, ctx: &Poseidon) -> (r: Result<Scalar, Error>) {
        let tag = Scalar::from_u64(TOKEN_TAG);
        let d = ctx.hash3(tag, self.avl_amt, self.locked_amt);
        d.check_reduced_spec();
        proof {
            assert(seq![tag@, self.avl_amt@, self.locked_amt@] =~= seq![
                TOKEN_TAG as nat,
                self.avl_amt@,
                self.locked_amt@,
            ]);
            assert(self.spec_digest(ctx) == Ok::<Scalar, Error>(self.spec_token_digest(ctx)));
        }
        Ok(d)
    }
}

/// The compression of two digests: the Poseidon hash of the pair.
pub open spec fn spec_hash2(hasher: &Poseidon, left: Scalar, right: Scalar) -> Scalar {
    Scalar::spec_new(spec_permute(hasher@[1], seq![left@, right@]))
}

/// Each default digest above the first is the compression of the one below
/// with itself.
pub open spec fn default_chain(hasher: &Poseidon, dp: Seq<Scalar>) -> bool {
    forall|i: int| 1 <= i < dp.len() ==> #[trigger] dp[i] == spec_hash2(hasher, dp[i - 1], dp[i - 1])
}

/// What a node array holds in a slot.
pub open spec fn spec_node(nodes: &Array<NodePtr>, file: &TsFile, idx: nat) -> Option<Scalar> {
    match nodes.spec_get(file, idx) {
        Ok(v) => v,
        Err(_) => None,
    }
}

/// The default digest of level `level` over the leaf digest `leaf`.
pub open spec fn spec_default_at(hasher: &Poseidon, leaf: Scalar, level: nat) -> Scalar
    decreases level,
{
    if level == 0 {
        leaf
    } else {
        spec_hash2(
            hasher,
            spec_default_at(hasher, leaf, (level - 1) as nat),
            spec_default_at(hasher, leaf, (level - 1) as nat),
        )
    }
}

/// A chain of default digests holds the default digest of each level.
pub proof fn lemma_default_chain(hasher: &Poseidon, dp: Seq<Scalar>, level: nat)
    requires
        default_chain(hasher, dp),
        level < dp.len(),
    ensures
        dp[level as int] == spec_default_at(hasher, dp[0], level),
    decreases level,
{
    if level > 0 {
        lemma_default_chain(hasher, dp, (level - 1) as nat);
    }
}

/// A height that a tree can have: at least one, and few enough levels for
/// every slot to have a number.
pub open spec fn valid_height(height: nat) -> bool {
    1 <= height && height + 1 < usize::BITS
}

/// The compression of two digests.
pub fn hash2(hasher: &Poseidon, left: Scalar, right: Scalar) -> (r: Scalar)
    ensures
        r == spec_hash2(hasher, left, right),
{
    let r = hasher.hash2(left, right);
    r.check_reduced_spec();
    r
}

/// The default digests of the levels `0 .. height` over the leaf digest `leaf`.
pub fn default_digests(hasher: &Poseidon, leaf: Scalar, height: usize) -> (dp: Vec<Scalar>)
    requires
        height >= 1,
    ensures
        dp@.len() == height,
        dp@[0] == leaf,
        default_chain(hasher, dp@),
{
    let mut dp: Vec<Scalar> = Vec::new();
    dp.push(leaf);
    let mut i: usize = 1;
    while i < height
        invariant
            1 <= i <= height,
            dp@.len() == i,
            dp@[0] == leaf,
            default_chain(hasher, dp@),
        decreases height - i,
    {
        let below: Scalar = dp[i - 1];
        dp.push(hash2(hasher, below, below));
        i += 1;
    }
    dp
}

/// Reads a node slot.
pub fn node_get(nodes: &Array<NodePtr>, file: &TsFile, idx: usize) -> (r: Result<
    Option<Scalar>,
    Error,
>)
    requires
        nodes.wf(file),
    ensures
        r == Ok::<Option<Scalar>, Error>(spec_node(nodes, file, idx as nat)),
{
    nodes.get(file, idx)
}

/// The token tree of one account: the digests in `nodes`, the balances in `tokens`.
pub struct TokenTree<'a> {
    pub hasher: &'a Poseidon,
    pub height: usize,
    pub nodes: Array<NodePtr>,
    pub actual_level: usize,
    pub tokens: Array<TokenPtr>,
    pub default_proof: Vec<Scalar>,
}

impl<'a> TokenTree<'a> {
    /// The default digests of a token tree of height `height`.
    pub fn default_leaf_node(hasher: &Poseidon, height: usize) -> (dp: Vec<Scalar>)
        requires
            height >= 1,
        ensures
            dp@.len() == height,
            dp@[0] == Token::spec_default().spec_token_digest(hasher),
            default_chain(hasher, dp@),
    {
        let leaf = match Token::default().digest(hasher) {
            Ok(d) => d,
            Err(_) => Scalar::zero(),
        };
        default_digests(hasher, leaf, height)
    }

    /// The tree in which no token was ever written, or `InvariantViolated`
    /// where no tree has the height `height`.
    pub fn new(hasher: &'a Poseidon, height: usize) -> (r: Result<TokenTree<'a>, Error>)
        ensures
            valid_height(height as nat) <==> r is Ok,
            r is Err ==> r->Err_0 == Error::InvariantViolated,
            r is Ok ==> ({
                let t = r->Ok_0;
                &&& t.hasher == hasher
                &&& t.height == height
                &&& t.actual_level == 0
                &&& t.nodes.blocks().len() == 0
                &&& t.tokens.blocks().len() == 0
                &&& forall|file: TsFile|
                    file@.len() > 0 ==> #[trigger] t.wf(&file) && coherent(&t, &file)
            }),
    {
        if height < 1 || height >= usize::BITS as usize - 1 {
            return Err(Error::InvariantViolated);
        }
        let default_proof = Self::default_leaf_node(hasher, height);
        let t = TokenTree {
            hasher,
            height,
            nodes: Array::Default { _phantom: PhantomData },
            actual_level: 0,
            tokens: Array::Default { _phantom: PhantomData },
            default_proof,
        };
        proof {
            crate::index::lemma_pow2_fits((height + 1) as nat);
            assert forall|file: TsFile| file@.len() > 0 implies #[trigger] t.wf(&file) && coherent(
                &t,
                &file,
            ) by {
                assert(t.wf(&file));
                assert forall|level: nat, pos: nat| #[trigger]
                    node_slot(&t, &file, level, pos) is None by {}
            }
        }
        Ok(t)
    }

    /// The tree whose arrays start at `nodes_head` and `tokens_head`. The
    /// frontier is taken from the number of blocks of the balance array.
    pub fn load(
        file: &TsFile,
        hasher: &'a Poseidon,
        height: usize,
        nodes_head: usize,
        tokens_head: usize,
    ) -> (r: Result<TokenTree<'a>, Error>)
        ensures
            match spec_token_arrays(file@, height as nat, nodes_head as nat, tokens_head as nat) {
                Ok((n, t)) => r is Ok && r->Ok_0.nodes.blocks() == n && r->Ok_0.tokens.blocks()
                    == t,
                Err(e) => r is Err && r->Err_0 == e,
            },
            r is Ok ==> ({
                let t = r->Ok_0;
                &&& t.wf(file)
                &&& t.hasher == hasher
                &&& t.height == height
                &&& t.nodes.spec_head() == nodes_head
                &&& t.tokens.spec_head() == tokens_head
                &&& t.actual_level == if t.tokens.blocks().len() == 0 {
                    0
                } else {
                    t.tokens.blocks().len() - 1
                }
            }),
    {
        if height < 1 || height >= usize::BITS as usize - 1 {
            return Err(Error::InvariantViolated);
        }
        if file.is_empty() {
            return Err(Error::CorruptLayout);
        }
        let nodes: Array<NodePtr> = match Array::load(file, nodes_head) {
            Ok(a) => a,
            Err(_) => {
                return Err(Error::CorruptLayout);
            },
        };
        let tokens: Array<TokenPtr> = match Array::load(file, tokens_head) {
            Ok(a) => a,
            Err(_) => {
                return Err(Error::CorruptLayout);
            },
        };
        proof {
            nodes.lemma_footprint();
            tokens.lemma_footprint();
            assert forall|p: int| nodes.owns(p) == chain_owns(nodes.blocks(), 32, p) by {
                assert(nodes.footprint().contains(p) == nodes.owns(p));
            }
            assert forall|p: int| tokens.owns(p) == chain_owns(tokens.blocks(), 64, p) by {
                assert(tokens.footprint().contains(p) == tokens.owns(p));
            }
        }
        if !nodes.disjoint_from(&tokens, file) {
            proof {
                let p = choose|p: int| nodes.owns(p) && tokens.owns(p);
                assert(chain_owns(nodes.blocks(), 32, p) && chain_owns(tokens.blocks(), 64, p));
            }
            return Err(Error::CorruptLayout);
        }
        proof {
            assert forall|p: int|
                !(chain_owns(nodes.blocks(), 32, p) && chain_owns(tokens.blocks(), 64, p)) by {
                assert(nodes.owns(p) == chain_owns(nodes.blocks(), 32, p));
                assert(tokens.owns(p) == chain_owns(tokens.blocks(), 64, p));
                assert(!(nodes.owns(p) && tokens.owns(p)));
            }
        }
        let count: usize = tokens.block_count();
        let actual_level: usize = if count == 0 {
            0
        } else {
            count - 1
        };
        if actual_level > height {
            return Err(Error::InvariantViolated);
        }
        let default_proof = Self::default_leaf_node(hasher, height);
        proof {
            crate::index::lemma_pow2_fits((height + 1) as nat);
        }
        Ok(TokenTree { hasher, height, nodes, actual_level, tokens, default_proof })
    }
}

/// The blocks of the two arrays of a token tree of height `height` whose
/// arrays start at `nodes_head` and `tokens_head`, or why there is no such
/// tree in the arena: the height is none that a tree can have, the arena is
/// empty, a chain is broken, the two arrays share a byte, or the balance
/// array has more blocks than a tree of this height can fill.
pub open spec fn spec_token_arrays(
    s: Seq<u8>,
    height: nat,
    nodes_head: nat,
    tokens_head: nat,
) -> Result<(Seq<usize>, Seq<usize>), Error> {
    if !valid_height(height) {
        Err(Error::InvariantViolated)
    } else if s.len() == 0 {
        Err(Error::CorruptLayout)
    } else {
        match (spec_blocks(s, 32, nodes_head), spec_blocks(s, 64, tokens_head)) {
            (Some(n), Some(t)) => if exists|p: int| chain_owns(n, 32, p) && chain_owns(t, 64, p) {
                Err(Error::CorruptLayout)
            } else if t.len() > height + 1 {
                Err(Error::InvariantViolated)
            } else {
                Ok((n, t))
            },
            _ => Err(Error::CorruptLayout),
        }
    }
}

impl<'a> MerkleNodes for TokenTree<'a> {
    type Node = Scalar;

    type Rest = (Map<int, Option<u8>>, Seq<usize>, Seq<Tables>);

    type Fixed = (Poseidon, usize);

    open spec fn spec_fixed(&self) -> (Poseidon, usize) {
        (*self.hasher, self.height)
    }

    open spec fn spec_places(&self) -> Set<(int, nat, usize)> {
        Set::new(
            |x: (int, nat, usize)|
                (x.0 == 0 && x.1 < self.nodes.blocks().len() && self.nodes.blocks()[x.1 as int] == x.2)
                    || (x.0 == 1 && x.1 < self.tokens.blocks().len() && self.tokens.blocks()[x.1 as int]
                    == x.2),
        )
    }

    proof fn lemma_untouched(
        &self,
        before: &TsFile,
        own_before: Set<int>,
        after: &TsFile,
        own_after: Set<int>,
    ) {
        assert forall|p: int| self.nodes.owns(p) implies !own_before.contains(p) by {
            assert(self.nodes.footprint().contains(p));
            assert(self.spec_owned().contains(p));
        }
        assert forall|p: int| self.tokens.owns(p) implies !own_before.contains(p) by {
            assert(self.tokens.footprint().contains(p));
            assert(self.spec_owned().contains(p));
        }
        self.nodes.lemma_untouched(before, own_before, after, own_after);
        self.tokens.lemma_untouched(before, own_before, after, own_after);
        assert forall|p: int| self.spec_owned().contains(p) implies !own_after.contains(p) by {
            assert(self.nodes.footprint().contains(p) == self.nodes.owns(p));
            assert(self.tokens.footprint().contains(p) == self.tokens.owns(p));
        }
        assert forall|j: nat| self.spec_idx_at(after, j) == self.spec_idx_at(before, j) by {
            assert(self.nodes.spec_get(after, j) == self.nodes.spec_get(before, j));
        }
    }

    open spec fn wf(&self, file: &TsFile) -> bool {
        &&& file@.len() > 0
        &&& self.nodes.wf(file)
        &&& self.tokens.wf(file)
        &&& self.nodes.persisted(file)
        &&& self.tokens.persisted(file)
        &&& self.nodes.disjoint(&self.tokens)
        &&& self.tokens.blocks().len() <= self.height + 1
        &&& 1 <= self.height
        &&& pow2(self.height as nat + 1) <= usize::MAX
        &&& self.actual_level <= self.height
        &&& self.default_proof@.len() == self.height
        &&& default_chain(self.hasher, self.default_proof@)
        &&& self.default_proof@[0] == Token::spec_default().spec_token_digest(self.hasher)
    }

    open spec fn spec_level(&self) -> nat {
        self.height as nat
    }

    open spec fn spec_actual_level(&self) -> nat {
        self.actual_level as nat
    }

    open spec fn spec_default_proof(&self) -> Seq<Scalar> {
        self.default_proof@
    }

    open spec fn spec_hash(&self, left: Scalar, right: Scalar) -> Scalar {
        spec_hash2(self.hasher, left, right)
    }

    open spec fn spec_idx_at(&self, file: &TsFile, idx: nat) -> Option<Scalar> {
        spec_node(&self.nodes, file, idx)
    }

    open spec fn spec_rest(&self, file: &TsFile) -> Self::Rest {
        (self.nodes.outside(file), self.tokens.blocks(), self.hasher@)
    }

    open spec fn spec_owned(&self) -> Set<int> {
        self.nodes.footprint().union(self.tokens.footprint())
    }

    proof fn lemma_wf(&self, file: &TsFile) {
    }

    fn hash(&self, left: Scalar, right: Scalar) -> (r: Result<Scalar, Error>) {
        Ok(hash2(self.hasher, left, right))
    }

    fn idx_at(&self, file: &TsFile, idx: usize) -> (r: Result<Option<Scalar>, Error>) {
        node_get(&self.nodes, file, idx)
    }

    fn idx_set(&mut self, file: &mut TsFile, idx: usize, node: Option<Scalar>) -> (r: Result<
        (),
        Error,
    >) {
        let ghost before = self.nodes;
        let r = self.nodes.set(file, idx, &node);
        proof {
            assert forall|x: (int, nat, usize)| old(self).spec_places().contains(x) implies self.spec_places().contains(
                x,
            ) by {
                if x.0 == 0 {
                    assert(before.blocks()[x.1 as int] == self.nodes.blocks().subrange(
                        0,
                        before.blocks().len() as int,
                    )[x.1 as int]);
                }
            }
            before.lemma_outside(old(file), &self.nodes, file, &self.tokens);
            crate::file::lemma_masked_union(
                old(file)@,
                before.footprint(),
                file@,
                self.nodes.footprint(),
                self.tokens.footprint(),
            );
        }
        r
    }

    fn get_actual_level(&self) -> (r: Result<usize, Error>) {
        Ok(self.actual_level)
    }

    fn set_actual_level(&mut self, level: usize) -> (r: Result<(), Error>) {
        self.actual_level = level;
        Ok(())
    }

    fn get_default_proof(&self, idx: usize) -> (r: Result<Scalar, Error>) {
        if idx >= self.default_proof.len() {
            return Err(Error::OutOfRangeProof);
        }
        Ok(self.default_proof[idx])
    }

    fn get_level(&self) -> (r: Result<usize, Error>) {
        Ok(self.height)
    }
}

impl<'a> MerkleTree for TokenTree<'a> {

}

impl<'a> MerkleTreeWithLeaves for TokenTree<'a> {
    type Leaf = Token;

    type LeafView = Token;

    open spec fn leaf_view(leaf: &Token) -> Token {
        *leaf
    }

    open spec fn spec_leaf_at(&self, file: &TsFile, idx: nat) -> Result<Token, Error> {
        self.tokens.spec_get(file, idx)
    }

    open spec fn leaf_ok(&self, file: &TsFile, leaf: &Token) -> bool {
        true
    }

    open spec fn spec_leaf_digest(&self, file: &TsFile, leaf: &Token) -> Result<Scalar, Error> {
        Ok(leaf.spec_token_digest(self.hasher))
    }

    proof fn lemma_rest_leaf_at(a: &Self, fa: &TsFile, b: &Self, fb: &TsFile, idx: nat) {
        assert forall|p: int| a.tokens.owns(p) implies 0 <= p < fb@.len() && fb@[p] == fa@[p] by {
            let k = choose|k: int|
                0 <= k < a.tokens.blocks().len() && a.tokens.blocks()[k] <= p
                    < #[trigger] a.tokens.block_end(k);
            assert(a.tokens.block_end(k) <= fa@.len());
            assert(b.tokens.block_end(k) == a.tokens.block_end(k));
            b.tokens.lemma_owns_block(k, p);
            assert(!a.nodes.owns(p));
            assert(!b.nodes.owns(p));
            assert(b.tokens.block_end(k) <= fb@.len());
            assert(a.nodes.outside(fa)[p] == Some(fa@[p]));
            assert(b.nodes.outside(fb)[p] == Some(fb@[p]));
        }
        a.tokens.lemma_same_bytes(fa, &b.tokens, fb);
    }

    proof fn lemma_rest_leaf(a: &Self, fa: &TsFile, b: &Self, fb: &TsFile, leaf: &Token) {
        assert(a.hasher@ == b.hasher@);
    }

    fn leaf_at(&self, file: &TsFile, idx: usize) -> (r: Result<Token, Error>) {
        self.tokens.get(file, idx)
    }

    fn leaf_set(&mut self, file: &mut TsFile, idx: usize, leaf: Token) -> (r: Result<(), Error>) {
        proof {
            crate::index::lemma_pow2_exponent(self.height as nat + 1);
            vstd::arithmetic::power2::lemma_pow2_strictly_increases(
                self.height as nat,
                self.height as nat + 1,
            );
        }
        if idx >= crate::index::pow2_usize(self.height) {
            return Err(Error::InvalidLeafId);
        }
        let ghost before = self.tokens;
        let r = self.tokens.set(file, idx, &leaf);
        proof {
            assert forall|x: (int, nat, usize)| old(self).spec_places().contains(x) implies self.spec_places().contains(
                x,
            ) by {
                if x.0 == 1 {
                    assert(before.blocks()[x.1 as int] == self.tokens.blocks().subrange(
                        0,
                        before.blocks().len() as int,
                    )[x.1 as int]);
                }
            }
            assert(before.disjoint(&self.nodes));
            before.lemma_outside(old(file), &self.tokens, file, &self.nodes);
            assert(self.nodes.disjoint(&self.tokens));
            crate::file::lemma_masked_union(
                old(file)@,
                before.footprint(),
                file@,
                self.tokens.footprint(),
                self.nodes.footprint(),
            );
            assert(self.tokens.footprint().union(self.nodes.footprint()) =~= self.spec_owned());
            assert(before.footprint().union(self.nodes.footprint()) =~= old(self).spec_owned());
            if idx > 0 {
                crate::index::lemma_floor_log2_below(idx as nat, self.height as nat);
            }
        }
        r
    }

    fn leaf_digest(&self, file: &TsFile, leaf: &Token) -> (r: Result<Scalar, Error>) {
        leaf.digest(self.hasher)
    }
}

} // verus!
