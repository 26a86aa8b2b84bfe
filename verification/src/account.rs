//! Accounts and the account tree: a tree whose leaves are accounts, each with
//! a token tree of its own elsewhere in the arena.

use vstd::prelude::*;
use vstd::arithmetic::power2::pow2;
use core::marker::PhantomData;
use crate::acc_ptr::{AccPtr, AccountRecord};
use crate::array::{
    block_base, block_cap, block_of, chain_footprint, chain_get, chain_owns, chain_slot,
    chains_share, lemma_blocks_stable, spec_blocks, Array, ElemPtr,
};
use crate::token_ptr::TokenPtr;
use crate::node_ptr::NodePtr;
use crate::error::Error;
use crate::file::{masked, same_counters, TsFile};
use crate::leaves::{MerkleLeaf, MerkleTreeWithLeaves};
use crate::merkle::{
    node_at, node_slot, root_readable, same_nodes, same_shape, spec_root, update_post,
    MerkleNodes, MerkleTree,
};
use crate::poseidon::{spec_permute, Poseidon};
use crate::reference::coherent;
use crate::scalar::{modulus, Scalar};
use crate::token::{
    default_chain, default_digests, hash2, lemma_default_chain, node_get, spec_default_at,
    spec_hash2, spec_node,
    spec_token_arrays, valid_height, Token, TokenTree,
};

verus! {

/// The tag that an account digest starts with.
pub const ACCOUNT_TAG: u64 = 3;

/// The digest of four elements.
pub open spec fn spec_hash4(hasher: &Poseidon, a: Scalar, b: Scalar, c: Scalar, d: Scalar) -> Scalar {
    Scalar::spec_new(spec_permute(hasher@[3], seq![a@, b@, c@, d@]))
}

/// The digest of four elements.
pub fn hash4(hasher: &Poseidon, a: Scalar, b: Scalar, c: Scalar, d: Scalar) -> (r: Scalar)
    ensures
        r == spec_hash4(hasher, a, b, c, d),
{
    let r = hasher.hash4(a, b, c, d);
    r.check_reduced_spec();
    r
}

/// What writing the balance `token` at `token_id` does to a token tree: `a`
/// is the tree before, `b` the tree after, `r` what is returned.
///
/// The write succeeds exactly where the id is in range and the frontier is
/// not stuck at full height without a root. It then stores the balance and
/// its digest, leaves every other balance and leaf digest alone, and leaves
/// a coherent tree coherent. Where it fails nothing changes. Either way
/// nothing outside the tree changes.
pub open spec fn token_written(
    a: &TokenTree,
    fa: &TsFile,
    b: &TokenTree,
    fb: &TsFile,
    token_id: u64,
    token: Token,
    r: Result<(), Error>,
) -> bool {
    let stuck = a.spec_actual_level() == a.spec_level() && !root_readable(a, fa);
    &&& b.wf(fb)
    &&& same_shape(b, a)
    &&& b.spec_fixed() == a.spec_fixed()
    &&& a.spec_places().subset_of(b.spec_places())
    &&& masked(fb@, b.spec_owned()) == masked(fa@, a.spec_owned())
    &&& same_counters(fa, fb)
    &&& b.spec_actual_level() >= a.spec_actual_level()
    &&& coherent(a, fa) ==> coherent(b, fb)
    &&& r is Ok <==> token_id < pow2(a.spec_level()) && !stuck
    &&& r is Ok ==> {
        &&& b.spec_leaf_at(fb, token_id as nat) == Ok::<Token, Error>(token)
        &&& forall|j: nat|
            j != token_id ==> b.spec_leaf_at(fb, j) == a.spec_leaf_at(fa, j)
        &&& forall|i: nat|
            node_at(b, fb, 0, i) == if i == token_id {
                token.spec_token_digest(a.hasher)
            } else {
                node_at(a, fa, 0, i)
            }
        &&& root_readable(b, fb)
    }
    &&& r is Err ==> {
        &&& same_nodes(a, fa, b, fb)
        &&& forall|j: nat| b.spec_leaf_at(fb, j) == a.spec_leaf_at(fa, j)
    }
}

/// What `update` says of a token tree is what `token_written` says, where
/// the change made of every balance the balance `token`.
pub proof fn lemma_token_updated(
    a: &TokenTree,
    fa: &TsFile,
    b: &TokenTree,
    fb: &TsFile,
    token_id: u64,
    token: Token,
    found: Result<crate::merkle::MerkleUpdatePrfWithLeafData<Scalar, Token>, Error>,
)
    requires
        a.wf(fa),
        b.wf(fb),
        same_shape(b, a),
        b.spec_fixed() == a.spec_fixed(),
        a.spec_places().subset_of(b.spec_places()),
        masked(fb@, b.spec_owned()) == masked(fa@, a.spec_owned()),
        same_counters(fa, fb),
        b.spec_actual_level() >= a.spec_actual_level(),
        coherent(a, fa) ==> coherent(b, fb),
        token_id < pow2(a.spec_level()) && !(a.spec_actual_level() == a.spec_level()
            && !root_readable(a, fa)) ==> found is Ok,
        match found {
            Ok(p) => {
                &&& update_post(
                    a,
                    fa,
                    b,
                    fb,
                    token_id as nat,
                    token.spec_token_digest(a.hasher),
                    Ok(p.merkle_prf),
                )
                &&& b.spec_leaf_at(fb, token_id as nat) == Ok::<Token, Error>(token)
                &&& forall|j: nat|
                    j != token_id ==> b.spec_leaf_at(fb, j) == a.spec_leaf_at(fa, j)
            },
            Err(e) => {
                &&& same_nodes(a, fa, b, fb)
                &&& b.spec_rest(fb) == a.spec_rest(fa)
            },
        },
    ensures
        token_written(a, fa, b, fb, token_id, token, match found {
            Ok(_) => Ok(()),
            Err(e) => Err(e),
        }),
{
    a.lemma_wf(fa);
    match found {
        Ok(p) => {},
        Err(e) => {
            assert forall|j: nat| b.spec_leaf_at(fb, j) == a.spec_leaf_at(fa, j) by {
                TokenTree::lemma_rest_leaf_at(a, fa, b, fb, j);
            }
        },
    }
}

/// One account: its address, its nonce and its token tree.
pub struct Account<'a> {
    pub l2_addr: Scalar,
    pub nonce: Scalar,
    pub tokens: TokenTree<'a>,
}

impl<'a> Account<'a> {
    /// What of the account is stored in its slot.
    pub open spec fn spec_record(&self) -> AccountRecord {
        AccountRecord {
            l2_addr: self.l2_addr,
            nonce: self.nonce,
            nodes_head: self.tokens.nodes.spec_head() as u64,
            tokens_head: self.tokens.tokens.spec_head() as u64,
        }
    }

    /// What of the account is stored in its slot.
    pub fn record(&self) -> (r: AccountRecord)
        ensures
            r == self.spec_record(),
    {
        AccountRecord {
            l2_addr: self.l2_addr,
            nonce: self.nonce,
            nodes_head: self.tokens.nodes.head() as u64,
            tokens_head: self.tokens.tokens.head() as u64,
        }
    }

    /// The balance of token `token_id` before a change.
    pub open spec fn spec_token(&self, file: &TsFile, token_id: u64) -> Token {
        self.tokens.spec_leaf_at(file, token_id as nat)->Ok_0
    }

    /// Gives the account the address `l2_addr`.
    pub fn set_l2_addr(&mut self, l2_addr: Scalar) -> (r: Result<(), Error>)
        ensures
            r is Ok,
            final(self).l2_addr == l2_addr,
            final(self).nonce == old(self).nonce,
            final(self).tokens == old(self).tokens,
    {
        self.l2_addr = l2_addr;
        Ok(())
    }

    /// Adds one to the nonce.
    pub fn increase_nonce(&mut self) -> (r: Result<(), Error>)
        ensures
            r is Ok,
            final(self).nonce@ == (old(self).nonce@ + 1) % modulus(),
            final(self).l2_addr == old(self).l2_addr,
            final(self).tokens == old(self).tokens,
    {
        self.nonce = self.nonce.add(&Scalar::one());
        Ok(())
    }

    /// Credits `amt` of token `token_id`.
    pub fn income(&mut self, file: &mut TsFile, token_id: u64, amt: Scalar) -> (r: Result<(), Error>)
        requires
            old(self).tokens.wf(old(file)),
        ensures
            final(self).l2_addr == old(self).l2_addr,
            final(self).nonce == old(self).nonce,
            token_written(
                &old(self).tokens,
                old(file),
                &final(self).tokens,
                final(file),
                token_id,
                old(self).spec_token(old(file), token_id).spec_income(amt),
                r,
            ),
    {
        let f = |t: Token| -> (out: Result<Token, Error>)
            ensures
                out == Ok::<Token, Error>(t.spec_income(amt)),
            {
                let mut t = t;
                let _ = t.income(amt);
                Ok(t)
            };
        let found = self.tokens.update(file, token_id, f);
        proof {
            lemma_token_updated(
                &old(self).tokens,
                old(file),
                &self.tokens,
                file,
                token_id,
                old(self).spec_token(old(file), token_id).spec_income(amt),
                found,
            );
        }
        match found {
            Ok(_) => Ok(()),
            Err(e) => Err(e),
        }
    }

    /// Debits `amt` of token `token_id`.
    pub fn outgo(&mut self, file: &mut TsFile, token_id: u64, amt: Scalar) -> (r: Result<(), Error>)
        requires
            old(self).tokens.wf(old(file)),
        ensures
            final(self).l2_addr == old(self).l2_addr,
            final(self).nonce == old(self).nonce,
            token_written(
                &old(self).tokens,
                old(file),
                &final(self).tokens,
                final(file),
                token_id,
                old(self).spec_token(old(file), token_id).spec_outgo(amt),
                r,
            ),
    {
        let f = |t: Token| -> (out: Result<Token, Error>)
            ensures
                out == Ok::<Token, Error>(t.spec_outgo(amt)),
            {
                let mut t = t;
                let _ = t.outgo(amt);
                Ok(t)
            };
        let found = self.tokens.update(file, token_id, f);
        proof {
            lemma_token_updated(
                &old(self).tokens,
                old(file),
                &self.tokens,
                file,
                token_id,
                old(self).spec_token(old(file), token_id).spec_outgo(amt),
                found,
            );
        }
        match found {
            Ok(_) => Ok(()),
            Err(e) => Err(e),
        }
    }

    /// Locks `amt` of token `token_id`.
    pub fn lock(&mut self, file: &mut TsFile, token_id: u64, amt: Scalar) -> (r: Result<(), Error>)
        requires
            old(self).tokens.wf(old(file)),
        ensures
            final(self).l2_addr == old(self).l2_addr,
            final(self).nonce == old(self).nonce,
            token_written(
                &old(self).tokens,
                old(file),
                &final(self).tokens,
                final(file),
                token_id,
                old(self).spec_token(old(file), token_id).spec_lock(amt),
                r,
            ),
    {
        let f = |t: Token| -> (out: Result<Token, Error>)
            ensures
                out == Ok::<Token, Error>(t.spec_lock(amt)),
            {
                let mut t = t;
                let _ = t.lock(amt);
                Ok(t)
            };
        let found = self.tokens.update(file, token_id, f);
        proof {
            lemma_token_updated(
                &old(self).tokens,
                old(file),
                &self.tokens,
                file,
                token_id,
                old(self).spec_token(old(file), token_id).spec_lock(amt),
                found,
            );
        }
        match found {
            Ok(_) => Ok(()),
            Err(e) => Err(e),
        }
    }

    /// Unlocks `amt` of token `token_id`.
    pub fn unlock(&mut self, file: &mut TsFile, token_id: u64, amt: Scalar) -> (r: Result<(), Error>)
        requires
            old(self).tokens.wf(old(file)),
        ensures
            final(self).l2_addr == old(self).l2_addr,
            final(self).nonce == old(self).nonce,
            token_written(
                &old(self).tokens,
                old(file),
                &final(self).tokens,
                final(file),
                token_id,
                old(self).spec_token(old(file), token_id).spec_unlock(amt),
                r,
            ),
    {
        let f = |t: Token| -> (out: Result<Token, Error>)
            ensures
                out == Ok::<Token, Error>(t.spec_unlock(amt)),
            {
                let mut t = t;
                let _ = t.unlock(amt);
                Ok(t)
            };
        let found = self.tokens.update(file, token_id, f);
        proof {
            lemma_token_updated(
                &old(self).tokens,
                old(file),
                &self.tokens,
                file,
                token_id,
                old(self).spec_token(old(file), token_id).spec_unlock(amt),
                found,
            );
        }
        match found {
            Ok(_) => Ok(()),
            Err(e) => Err(e),
        }
    }

    /// Takes `amt` of token `token_id` from what is locked.
    pub fn deduct(&mut self, file: &mut TsFile, token_id: u64, amt: Scalar) -> (r: Result<(), Error>)
        requires
            old(self).tokens.wf(old(file)),
        ensures
            final(self).l2_addr == old(self).l2_addr,
            final(self).nonce == old(self).nonce,
            token_written(
                &old(self).tokens,
                old(file),
                &final(self).tokens,
                final(file),
                token_id,
                old(self).spec_token(old(file), token_id).spec_deduct(amt),
                r,
            ),
    {
        let f = |t: Token| -> (out: Result<Token, Error>)
            ensures
                out == Ok::<Token, Error>(t.spec_deduct(amt)),
            {
                let mut t = t;
                let _ = t.deduct(amt);
                Ok(t)
            };
        let found = self.tokens.update(file, token_id, f);
        proof {
            lemma_token_updated(
                &old(self).tokens,
                old(file),
                &self.tokens,
                file,
                token_id,
                old(self).spec_token(old(file), token_id).spec_deduct(amt),
                found,
            );
        }
        match found {
            Ok(_) => Ok(()),
            Err(e) => Err(e),
        }
    }
}

impl<'a> MerkleLeaf<Scalar> for Account<'a> {
    type Ctx = TsFile;

    open spec fn digestible(&self, ctx: &TsFile) -> bool {
        self.tokens.wf(ctx)
    }

    open spec fn spec_digest(&self, ctx: &TsFile) -> Result<Scalar, Error> {
        if root_readable(&self.tokens, ctx) {
            Ok(
                spec_account_digest(
                    self.tokens.hasher,
                    self.l2_addr,
                    self.nonce,
                    spec_root(&self.tokens, ctx),
                ),
            )
        } else {
            Err(Error::OutOfRangeProof)
        }
    }

    fn digest(&self, ctx: &TsFile) -> (r: Result<Scalar, Error>) {
        let root = self.tokens.get_root(ctx)?;
        Ok(account_digest(self.tokens.hasher, self.l2_addr, self.nonce, root))
    }
}

/// The digest of an account: the hash of the tag, the address, the nonce and
/// the root of the token tree.
pub open spec fn spec_account_digest(
    hasher: &Poseidon,
    l2_addr: Scalar,
    nonce: Scalar,
    token_root: Scalar,
) -> Scalar {
    Scalar::spec_new(
        spec_permute(hasher@[3], seq![ACCOUNT_TAG as nat, l2_addr@, nonce@, token_root@]),
    )
}

/// The digest of an account.
pub fn account_digest(hasher: &Poseidon, l2_addr: Scalar, nonce: Scalar, token_root: Scalar) -> (r:
    Scalar)
    ensures
        r == spec_account_digest(hasher, l2_addr, nonce, token_root),
{
    let tag = Scalar::from_u64(ACCOUNT_TAG);
    let r = hasher.hash4(tag, l2_addr, nonce, token_root);
    r.check_reduced_spec();
    proof {
        assert(ACCOUNT_TAG == 3);
        assert(seq![tag@, l2_addr@, nonce@, token_root@] =~= seq![
            ACCOUNT_TAG as nat,
            l2_addr@,
            nonce@,
            token_root@,
        ]);
    }
    r
}

/// The digest of an account that was never written, in a tree whose token
/// trees have the height `token_height`.
pub open spec fn spec_default_account_digest(hasher: &Poseidon, token_height: nat) -> Scalar {
    spec_account_digest(
        hasher,
        Scalar::spec_new(0),
        Scalar::spec_new(0),
        spec_default_at(hasher, Token::spec_default().spec_token_digest(hasher), token_height),
    )
}

/// Whether the token tree that the record `rec` names can be loaded into an
/// account of a tree that owns the bytes `own`, or why not: a head does not
/// fit the machine, the token tree cannot be loaded, or it shares a byte with
/// the account tree.
pub open spec fn spec_account_load(
    s: Seq<u8>,
    token_height: nat,
    own: Set<int>,
    rec: AccountRecord,
) -> Result<(), Error> {
    if rec.nodes_head > usize::MAX || rec.tokens_head > usize::MAX {
        Err(Error::CorruptLayout)
    } else {
        match spec_token_arrays(s, token_height, rec.nodes_head as nat, rec.tokens_head as nat) {
            Err(e) => Err(e),
            Ok((n, t)) => if exists|p: int|
                (chain_owns(n, 32, p) || chain_owns(t, 64, p)) && own.contains(p) {
                Err(Error::CorruptLayout)
            } else {
                Ok(())
            },
        }
    }
}

/// The account tree: the digests in `nodes`, the account records in `accounts`.
pub struct AccountTree<'a> {
    pub hasher: &'a Poseidon,
    pub height: usize,
    pub token_height: usize,
    pub nodes: Array<NodePtr>,
    pub actual_level: usize,
    pub accounts: Array<AccPtr>,
    pub default_proof: Vec<Scalar>,
}

impl<'a> AccountTree<'a> {
    /// The default digests of an account tree.
    pub fn default_leaf_node(hasher: &Poseidon, height: usize, token_height: usize) -> (dp: Vec<
        Scalar,
    >)
        requires
            height >= 1,
            token_height >= 1,
        ensures
            dp@.len() == height,
            dp@[0] == spec_default_account_digest(hasher, token_height as nat),
            default_chain(hasher, dp@),
    {
        let token_dp = TokenTree::default_leaf_node(hasher, token_height);
        let top: Scalar = token_dp[token_height - 1];
        let token_root = hash2(hasher, top, top);
        proof {
            crate::token::lemma_default_chain(hasher, token_dp@, (token_height - 1) as nat);
        }
        let leaf = account_digest(hasher, Scalar::zero(), Scalar::zero(), token_root);
        default_digests(hasher, leaf, height)
    }

    /// The tree in which no account was ever written, or `InvariantViolated`
    /// where no tree has one of the heights.
    pub fn new(hasher: &'a Poseidon, height: usize, token_height: usize) -> (r: Result<
        AccountTree<'a>,
        Error,
    >)
        ensures
            valid_height(height as nat) && valid_height(token_height as nat) <==> r is Ok,
            r is Err ==> r->Err_0 == Error::InvariantViolated,
            r is Ok ==> ({
                let t = r->Ok_0;
                &&& t.hasher == hasher
                &&& t.height == height
                &&& t.token_height == token_height
                &&& t.actual_level == 0
                &&& t.nodes.blocks().len() == 0
                &&& t.accounts.blocks().len() == 0
                &&& forall|file: TsFile|
                    file@.len() > 0 ==> #[trigger] t.wf(&file) && coherent(&t, &file)
            }),
    {
        if height < 1 || height >= usize::BITS as usize - 1 || token_height < 1 || token_height
            >= usize::BITS as usize - 1 {
            return Err(Error::InvariantViolated);
        }
        let default_proof = Self::default_leaf_node(hasher, height, token_height);
        let t = AccountTree {
            hasher,
            height,
            token_height,
            nodes: Array::Default { _phantom: PhantomData },
            actual_level: 0,
            accounts: Array::Default { _phantom: PhantomData },
            default_proof,
        };
        proof {
            crate::index::lemma_pow2_fits((height + 1) as nat);
            assert forall|file: TsFile| file@.len() > 0 implies #[trigger] t.wf(&file) && coherent(
                &t,
                &file,
            ) by {
                assert(t.wf(&file));
                assert forall|level: nat, pos: nat| #[trigger]
                    node_slot(&t, &file, level, pos) is None by {}
            }
        }
        Ok(t)
    }

    /// The tree whose arrays start at `nodes_head` and `accounts_head`. The
    /// frontier is taken from the number of blocks of the account array.
    pub fn load(
        file: &TsFile,
        hasher: &'a Poseidon,
        height: usize,
        token_height: usize,
        nodes_head: usize,
        accounts_head: usize,
    ) -> (r: Result<AccountTree<'a>, Error>)
        ensures
            match spec_account_arrays(
                file@,
                height as nat,
                token_height as nat,
                nodes_head as nat,
                accounts_head as nat,
            ) {
                Ok((n, a)) => r is Ok && r->Ok_0.nodes.blocks() == n && r->Ok_0.accounts.blocks()
                    == a,
                Err(e) => r is Err && r->Err_0 == e,
            },
            r is Ok ==> ({
                let t = r->Ok_0;
                &&& t.wf(file)
                &&& t.hasher == hasher
                &&& t.height == height
                &&& t.token_height == token_height
                &&& t.nodes.spec_head() == nodes_head
                &&& t.accounts.spec_head() == accounts_head
                &&& t.actual_level == if t.accounts.blocks().len() == 0 {
                    0
                } else {
                    t.accounts.blocks().len() - 1
                }
            }),
    {
        if height < 1 || height >= usize::BITS as usize - 1 || token_height < 1 || token_height
            >= usize::BITS as usize - 1 {
            return Err(Error::InvariantViolated);
        }
        if file.is_empty() {
            return Err(Error::CorruptLayout);
        }
        let nodes: Array<NodePtr> = match Array::load(file, nodes_head) {
            Ok(a) => a,
            Err(_) => {
                return Err(Error::CorruptLayout);
            },
        };
        let accounts: Array<AccPtr> = match Array::load(file, accounts_head) {
            Ok(a) => a,
            Err(_) => {
                return Err(Error::CorruptLayout);
            },
        };
        proof {
            nodes.lemma_disjoint_chains(&accounts);
        }
        if !nodes.disjoint_from(&accounts, file) {
            return Err(Error::CorruptLayout);
        }
        let count: usize = accounts.block_count();
        let actual_level: usize = if count == 0 {
            0
        } else {
            count - 1
        };
        if actual_level > height {
            return Err(Error::InvariantViolated);
        }
        let default_proof = Self::default_leaf_node(hasher, height, token_height);
        proof {
            crate::index::lemma_pow2_fits((height + 1) as nat);
        }
        Ok(AccountTree { hasher, height, token_height, nodes, actual_level, accounts, default_proof })
    }
}

/// The blocks of the node array and of the account array of the account
/// tree of height `height`, over token trees of height `token_height`, whose
/// arrays start at `nodes_head` and `accounts_head`, or why there is no such
/// tree in the arena: a height is none that a tree can have, the arena is
/// empty, a chain is broken, the two arrays share a byte, or the account
/// array has more blocks than a tree of this height can fill.
pub open spec fn spec_account_arrays(
    s: Seq<u8>,
    height: nat,
    token_height: nat,
    nodes_head: nat,
    accounts_head: nat,
) -> Result<(Seq<usize>, Seq<usize>), Error> {
    if !valid_height(height) || !valid_height(token_height) {
        Err(Error::InvariantViolated)
    } else if s.len() == 0 {
        Err(Error::CorruptLayout)
    } else {
        match (spec_blocks(s, 32, nodes_head), spec_blocks(s, 176, accounts_head)) {
            (Some(n), Some(a)) => if chains_share(n, 32, a, 176) {
                Err(Error::CorruptLayout)
            } else if a.len() > height + 1 {
                Err(Error::InvariantViolated)
            } else {
                Ok((n, a))
            },
            _ => Err(Error::CorruptLayout),
        }
    }
}

impl<'a> MerkleNodes for AccountTree<'a> {
    type Node = Scalar;

    type Rest = (Map<int, Option<u8>>, Seq<usize>, usize, Poseidon);

    type Fixed = (Poseidon, usize, usize);

    open spec fn spec_fixed(&self) -> (Poseidon, usize, usize) {
        (*self.hasher, self.height, self.token_height)
    }

    open spec fn spec_places(&self) -> Set<(int, nat, usize)> {
        Set::empty()
    }

    proof fn lemma_untouched(
        &self,
        before: &TsFile,
        own_before: Set<int>,
        after: &TsFile,
        own_after: Set<int>,
    ) {
        assert forall|p: int| self.nodes.owns(p) implies !own_before.contains(p) by {
            assert(self.nodes.footprint().contains(p));
            assert(self.spec_owned().contains(p));
        }
        assert forall|p: int| self.accounts.owns(p) implies !own_before.contains(p) by {
            assert(self.accounts.footprint().contains(p));
            assert(self.spec_owned().contains(p));
        }
        self.nodes.lemma_untouched(before, own_before, after, own_after);
        self.accounts.lemma_untouched(before, own_before, after, own_after);
        assert forall|p: int| self.spec_owned().contains(p) implies !own_after.contains(p) by {
            assert(self.nodes.footprint().contains(p) == self.nodes.owns(p));
            assert(self.accounts.footprint().contains(p) == self.accounts.owns(p));
        }
    }

    open spec fn wf(&self, file: &TsFile) -> bool {
        &&& file@.len() > 0
        &&& self.nodes.wf(file)
        &&& self.accounts.wf(file)
        &&& self.nodes.persisted(file)
        &&& self.accounts.persisted(file)
        &&& self.nodes.disjoint(&self.accounts)
        &&& self.accounts.blocks().len() <= self.height + 1
        &&& 1 <= self.height
        &&& pow2(self.height as nat + 1) <= usize::MAX
        &&& valid_height(self.token_height as nat)
        &&& self.actual_level <= self.height
        &&& self.default_proof@.len() == self.height
        &&& default_chain(self.hasher, self.default_proof@)
        &&& self.default_proof@[0] == spec_default_account_digest(
            self.hasher,
            self.token_height as nat,
        )
    }

    open spec fn spec_level(&self) -> nat {
        self.height as nat
    }

    open spec fn spec_actual_level(&self) -> nat {
        self.actual_level as nat
    }

    open spec fn spec_default_proof(&self) -> Seq<Scalar> {
        self.default_proof@
    }

    open spec fn spec_hash(&self, left: Scalar, right: Scalar) -> Scalar {
        spec_hash2(self.hasher, left, right)
    }

    open spec fn spec_idx_at(&self, file: &TsFile, idx: nat) -> Option<Scalar> {
        spec_node(&self.nodes, file, idx)
    }

    open spec fn spec_rest(&self, file: &TsFile) -> Self::Rest {
        (self.nodes.outside(file), self.accounts.blocks(), self.token_height, *self.hasher)
    }

    open spec fn spec_owned(&self) -> Set<int> {
        self.nodes.footprint().union(self.accounts.footprint())
    }

    proof fn lemma_wf(&self, file: &TsFile) {
    }

    fn hash(&self, left: Scalar, right: Scalar) -> (r: Result<Scalar, Error>) {
        Ok(hash2(self.hasher, left, right))
    }

    fn idx_at(&self, file: &TsFile, idx: usize) -> (r: Result<Option<Scalar>, Error>) {
        node_get(&self.nodes, file, idx)
    }

    fn idx_set(&mut self, file: &mut TsFile, idx: usize, node: Option<Scalar>) -> (r: Result<
        (),
        Error,
    >) {
        let ghost before = self.nodes;
        let r = self.nodes.set(file, idx, &node);
        proof {
            before.lemma_outside(old(file), &self.nodes, file, &self.accounts);
            crate::file::lemma_masked_union(
                old(file)@,
                before.footprint(),
                file@,
                self.nodes.footprint(),
                self.accounts.footprint(),
            );
        }
        r
    }

    fn get_actual_level(&self) -> (r: Result<usize, Error>) {
        Ok(self.actual_level)
    }

    fn set_actual_level(&mut self, level: usize) -> (r: Result<(), Error>) {
        self.actual_level = level;
        Ok(())
    }

    fn get_default_proof(&self, idx: usize) -> (r: Result<Scalar, Error>) {
        if idx >= self.default_proof.len() {
            return Err(Error::OutOfRangeProof);
        }
        Ok(self.default_proof[idx])
    }

    fn get_level(&self) -> (r: Result<usize, Error>) {
        Ok(self.height)
    }
}

impl<'a> MerkleTree for AccountTree<'a> {

}

/// The bytes of an account's token tree are the bytes of its two chains.
pub proof fn lemma_token_owned(t: &TokenTree)
    ensures
        forall|p: int|
            t.spec_owned().contains(p) == (chain_owns(t.nodes.blocks(), 32, p) || chain_owns(
                t.tokens.blocks(),
                64,
                p,
            )),
{
    t.nodes.lemma_footprint();
    t.tokens.lemma_footprint();
    assert forall|p: int|
        t.spec_owned().contains(p) == (chain_owns(t.nodes.blocks(), 32, p) || chain_owns(
            t.tokens.blocks(),
            64,
            p,
        )) by {
        assert(t.nodes.footprint().contains(p) == chain_footprint(t.nodes.blocks(), 32).contains(p));
        assert(t.tokens.footprint().contains(p) == chain_footprint(t.tokens.blocks(), 64).contains(
            p,
        ));
    }
}

/// Whether byte `p` of the arena `s` belongs to the token tree that the
/// record `rec` names.
pub open spec fn record_owns(s: Seq<u8>, rec: AccountRecord, p: int) -> bool {
    chain_owns(spec_blocks(s, 32, rec.nodes_head as nat)->0, 32, p) || chain_owns(
        spec_blocks(s, 64, rec.tokens_head as nat)->0,
        64,
        p,
    )
}

/// Every byte of a record of an array of records of `size` bytes belongs to
/// the blocks of the array.
pub proof fn lemma_chain_slot_owned(ix: Seq<usize>, size: nat, i: nat, q: int)
    requires
        chain_slot(ix, size, i) is Some,
        chain_slot(ix, size, i)->0 <= q < chain_slot(ix, size, i)->0 + size,
    ensures
        crate::array::in_block(ix, size, 0, block_of(i) as int, q),
{
    let k = block_of(i);
    crate::array::lemma_block_range(i);
    let rel = i - block_base(k);
    let cap = block_cap(k);
    assert(rel * size + size <= size * cap && rel * size >= 0) by (nonlinear_arith)
        requires
            0 <= rel < cap,
            size >= 0,
    ;
}

/// The token tree that a record names stays what it is, with every balance,
/// where the arena changes only in bytes that are none of its own.
pub proof fn lemma_record_untouched(
    s1: Seq<u8>,
    s2: Seq<u8>,
    token_height: nat,
    rec: AccountRecord,
    own1: Set<int>,
    own2: Set<int>,
)
    requires
        s1.len() <= usize::MAX,
        spec_token_arrays(s1, token_height, rec.nodes_head as nat, rec.tokens_head as nat) is Ok,
        forall|p: int| record_owns(s1, rec, p) ==> !own1.contains(p),
        masked(s2, own2) == masked(s1, own1),
        s2.len() > 0,
    ensures
        spec_token_arrays(s2, token_height, rec.nodes_head as nat, rec.tokens_head as nat)
            == spec_token_arrays(s1, token_height, rec.nodes_head as nat, rec.tokens_head as nat),
        forall|p: int| record_owns(s2, rec, p) == record_owns(s1, rec, p),
        forall|p: int| record_owns(s1, rec, p) ==> !own2.contains(p),
        forall|token_id: nat|
            spec_token_of(s2, rec, token_id) == spec_token_of(s1, rec, token_id),
        forall|p: int| record_owns(s1, rec, p) ==> 0 <= p < s1.len(),
{
    lemma_blocks_stable(s1, s2, 32, rec.nodes_head as nat, own1, own2);
    lemma_blocks_stable(s1, s2, 64, rec.tokens_head as nat, own1, own2);
    let n = spec_blocks(s1, 32, rec.nodes_head as nat)->0;
    let t = spec_blocks(s1, 64, rec.tokens_head as nat)->0;
    assert forall|p: int| record_owns(s1, rec, p) implies 0 <= p < s1.len() by {
        if chain_owns(n, 32, p) {
            let k = choose|k: int|
                0 <= k < n.len() && n[k] <= p < #[trigger] crate::array::chain_end(n, 32, k);
            assert forall|j: int, q: int| #[trigger]
                crate::array::in_block(n, 32, 0, j, q) implies !own1.contains(q) by {
                assert(n[j] <= q < crate::array::chain_end(n, 32, j));
                assert(chain_owns(n, 32, q));
            }
            crate::array::lemma_chain_stable(s1, s1, 32, rec.nodes_head as nat, 0, own1, own1);
            assert(crate::array::in_block(n, 32, 0, k, p));
        } else {
            let k = choose|k: int|
                0 <= k < t.len() && t[k] <= p < #[trigger] crate::array::chain_end(t, 64, k);
            assert forall|j: int, q: int| #[trigger]
                crate::array::in_block(t, 64, 0, j, q) implies !own1.contains(q) by {
                assert(t[j] <= q < crate::array::chain_end(t, 64, j));
                assert(chain_owns(t, 64, q));
            }
            crate::array::lemma_chain_stable(s1, s1, 64, rec.tokens_head as nat, 0, own1, own1);
            assert(crate::array::in_block(t, 64, 0, k, p));
        }
    }
    assert forall|token_id: nat|
        spec_token_of(s2, rec, token_id) == spec_token_of(s1, rec, token_id) by {
        if chain_slot(t, 64, token_id) is Some {
            let off = chain_slot(t, 64, token_id)->0;
            assert(rec.tokens_head != 0);
            assert forall|j: int, p: int| #[trigger]
                crate::array::in_block(t, 64, 0, j, p) implies !own1.contains(p) by {
                assert(t[j] <= p < crate::array::chain_end(t, 64, j));
                assert(chain_owns(t, 64, p));
            }
            crate::array::lemma_chain_stable(s1, s2, 64, rec.tokens_head as nat, 0, own1, own2);
            assert forall|q: int| off <= q < off + 64 implies 0 <= q < s2.len() && 0 <= q
                < s1.len() && s2[q] == s1[q] by {
                lemma_chain_slot_owned(t, 64, token_id, q);
                assert(crate::array::in_block(t, 64, 0, block_of(token_id) as int, q));
                assert(masked(s2, own2)[q] == masked(s1, own1)[q]);
            }
            assert(crate::file::window(s2, off, 64) =~= crate::file::window(s1, off, 64));
        }
    }
}

/// Whether the record `rec` still names the token tree of `acc`: each
/// collection that the record names is where the account has it. A
/// collection that the record does not name has come to be since the record
/// was stored.
pub open spec fn anchors(rec: AccountRecord, acc: &Account) -> bool {
    &&& rec.nodes_head <= usize::MAX
    &&& rec.tokens_head <= usize::MAX
    &&& rec.nodes_head != 0 ==> acc.tokens.nodes.spec_head() == rec.nodes_head
    &&& rec.tokens_head != 0 ==> acc.tokens.tokens.spec_head() == rec.tokens_head
}

/// A record that names the token tree of an account still names it after
/// the token tree has gained blocks.
pub proof fn lemma_anchors_kept(rec: AccountRecord, a: &Account, fa: &TsFile, b: &Account, fb: &TsFile)
    requires
        anchors(rec, a),
        a.tokens.wf(fa),
        b.tokens.wf(fb),
        a.tokens.spec_places().subset_of(b.tokens.spec_places()),
    ensures
        anchors(rec, b),
{
    if rec.nodes_head != 0 {
        let x: (int, nat, usize) = (0, 0, a.tokens.nodes.blocks()[0]);
        assert(a.tokens.spec_places().contains(x));
        assert(b.tokens.spec_places().contains(x));
    }
    if rec.tokens_head != 0 {
        let x: (int, nat, usize) = (1, 0, a.tokens.tokens.blocks()[0]);
        assert(a.tokens.spec_places().contains(x));
        assert(b.tokens.spec_places().contains(x));
    }
}

/// An account whose token tree is well formed and apart from the account
/// tree can be read as the leaf of the tree wherever the account array
/// holds a record that names its token tree.
pub proof fn lemma_anchored_leaf(tree: &AccountTree, file: &TsFile, idx: nat, acc: &Account)
    requires
        tree.leaf_ok(file, acc),
        tree.accounts.spec_get(file, idx) is Ok,
        anchors(tree.accounts.spec_get(file, idx)->Ok_0, acc),
    ensures
        tree.spec_leaf_at(file, idx) is Ok,
        forall|p: int|
            record_owns(file@, tree.accounts.spec_get(file, idx)->Ok_0, p)
                ==> acc.tokens.spec_owned().contains(p),
{
    let rec = tree.accounts.spec_get(file, idx)->Ok_0;
    let n = acc.tokens.nodes.blocks();
    let t = acc.tokens.tokens.blocks();
    lemma_token_tree_loads(&acc.tokens, file);
    lemma_token_owned(&acc.tokens);
    let found_n = spec_blocks(file@, 32, rec.nodes_head as nat)->0;
    let found_t = spec_blocks(file@, 64, rec.tokens_head as nat)->0;
    assert(rec.nodes_head == 0 ==> found_n =~= Seq::<usize>::empty());
    assert(rec.tokens_head == 0 ==> found_t =~= Seq::<usize>::empty());
    assert(rec.nodes_head != 0 ==> found_n == n);
    assert(rec.tokens_head != 0 ==> found_t == t);
    assert forall|p: int| chain_owns(found_n, 32, p) implies chain_owns(n, 32, p) by {}
    assert forall|p: int| chain_owns(found_t, 64, p) implies chain_owns(t, 64, p) by {}
    assert forall|p: int| !(chain_owns(n, 32, p) && chain_owns(t, 64, p)) by {
        assert(!(acc.tokens.nodes.owns(p) && acc.tokens.tokens.owns(p)));
        acc.tokens.nodes.lemma_footprint();
        acc.tokens.tokens.lemma_footprint();
        assert(acc.tokens.nodes.footprint().contains(p) == acc.tokens.nodes.owns(p));
        assert(acc.tokens.tokens.footprint().contains(p) == acc.tokens.tokens.owns(p));
    }
    assert(spec_token_arrays(
        file@,
        tree.token_height as nat,
        rec.nodes_head as nat,
        rec.tokens_head as nat,
    ) == Ok::<(Seq<usize>, Seq<usize>), Error>((found_n, found_t)));
    assert forall|p: int| !((chain_owns(found_n, 32, p) || chain_owns(found_t, 64, p))
        && tree.spec_owned().contains(p)) by {
        assert(acc.tokens.spec_owned().contains(p) == (chain_owns(n, 32, p) || chain_owns(t, 64, p)));
    }
    assert(spec_account_load(file@, tree.token_height as nat, tree.spec_owned(), rec) is Ok);
}

/// The bytes of the token tree of an account are the bytes that its record
/// names.
pub proof fn lemma_record_bytes(acc: &Account, file: &TsFile)
    requires
        acc.tokens.wf(file),
    ensures
        forall|p: int|
            acc.tokens.spec_owned().contains(p) == record_owns(file@, acc.spec_record(), p),
{
    lemma_token_tree_loads(&acc.tokens, file);
    lemma_token_owned(&acc.tokens);
}

/// The frontier that a load gives a tree whose record array has `blocks`
/// blocks.
pub open spec fn spec_frontier(blocks: nat) -> nat {
    if blocks == 0 {
        0
    } else {
        (blocks - 1) as nat
    }
}

/// Whether `acc` is account `idx` of `tree` as a load makes it: the record
/// is the one that the tree holds, the token tree is the one that the record
/// names, and its frontier is the one that its blocks give.
pub open spec fn leaf_loaded(tree: &AccountTree, file: &TsFile, idx: nat, acc: &Account) -> bool {
    &&& tree.leaf_ok(file, acc)
    &&& tree.spec_leaf_at(file, idx) == Ok::<AccountRecord, Error>(acc.spec_record())
    &&& acc.tokens.actual_level == spec_frontier(acc.tokens.tokens.blocks().len())
}

/// Account `idx` of `tree` as a load makes it.
pub open spec fn spec_leaf<'a>(tree: &AccountTree<'a>, file: &TsFile, idx: nat) -> Account<'a> {
    choose|acc: Account| leaf_loaded(tree, file, idx, &acc)
}

/// Two loads of one account show the same account: the same address and
/// nonce, the same blocks, and a token tree with the same nodes, the same
/// root and the same balances.
pub proof fn lemma_leaf_loaded_same(
    tree: &AccountTree,
    file: &TsFile,
    idx: nat,
    a: &Account,
    b: &Account,
)
    requires
        leaf_loaded(tree, file, idx, a),
        leaf_loaded(tree, file, idx, b),
    ensures
        a.l2_addr == b.l2_addr,
        a.nonce == b.nonce,
        a.tokens.nodes.spec_head() == b.tokens.nodes.spec_head(),
        a.tokens.tokens.spec_head() == b.tokens.tokens.spec_head(),
        a.tokens.nodes.blocks() == b.tokens.nodes.blocks(),
        a.tokens.tokens.blocks() == b.tokens.tokens.blocks(),
        same_nodes(&a.tokens, file, &b.tokens, file),
        root_readable(&a.tokens, file) == root_readable(&b.tokens, file),
        spec_root(&a.tokens, file) == spec_root(&b.tokens, file),
        a.spec_digest(file) == b.spec_digest(file),
        forall|j: nat| a.tokens.spec_leaf_at(file, j) == b.tokens.spec_leaf_at(file, j),
{
    lemma_token_tree_loads(&a.tokens, file);
    lemma_token_tree_loads(&b.tokens, file);
    assert(a.spec_record() == b.spec_record());
    assert(a.tokens.nodes.spec_head() as u64 == b.tokens.nodes.spec_head() as u64);
    assert(a.tokens.tokens.spec_head() as u64 == b.tokens.tokens.spec_head() as u64);
    assert(*a.tokens.hasher == *b.tokens.hasher);
    assert forall|i: int| 0 <= i < a.tokens.default_proof@.len() implies a.tokens.default_proof@[i]
        == b.tokens.default_proof@[i] by {
        lemma_default_chain(a.tokens.hasher, a.tokens.default_proof@, i as nat);
        lemma_default_chain(b.tokens.hasher, b.tokens.default_proof@, i as nat);
    }
    assert(a.tokens.default_proof@ =~= b.tokens.default_proof@);
    assert forall|j: nat| b.tokens.spec_idx_at(file, j) == a.tokens.spec_idx_at(file, j) by {
        a.tokens.nodes.lemma_chain_get(file, j);
        b.tokens.nodes.lemma_chain_get(file, j);
    }
    assert forall|j: nat| a.tokens.spec_leaf_at(file, j) == b.tokens.spec_leaf_at(file, j) by {
        a.tokens.tokens.lemma_chain_get(file, j);
        b.tokens.tokens.lemma_chain_get(file, j);
    }
    assert(same_nodes(&a.tokens, file, &b.tokens, file));
    crate::leaves::lemma_same_nodes_root(&a.tokens, file, &b.tokens, file);
}

/// An account whose token tree is well formed and apart from the account
/// tree is the leaf of the tree wherever the account array holds its record.
pub proof fn lemma_leaf_of(tree: &AccountTree, file: &TsFile, idx: nat, acc: &Account)
    requires
        tree.leaf_ok(file, acc),
        tree.accounts.spec_get(file, idx) == Ok::<AccountRecord, Error>(acc.spec_record()),
    ensures
        tree.spec_leaf_at(file, idx) == Ok::<AccountRecord, Error>(acc.spec_record()),
{
    let rec = acc.spec_record();
    let n = acc.tokens.nodes.blocks();
    let t = acc.tokens.tokens.blocks();
    lemma_token_tree_loads(&acc.tokens, file);
    lemma_token_owned(&acc.tokens);
    assert(rec.nodes_head as nat == acc.tokens.nodes.spec_head() as nat);
    assert(rec.tokens_head as nat == acc.tokens.tokens.spec_head() as nat);
    assert(spec_token_arrays(
        file@,
        tree.token_height as nat,
        rec.nodes_head as nat,
        rec.tokens_head as nat,
    ) == Ok::<(Seq<usize>, Seq<usize>), Error>((n, t)));
    assert forall|p: int| !((chain_owns(n, 32, p) || chain_owns(t, 64, p))
        && tree.spec_owned().contains(p)) by {
        assert(acc.tokens.spec_owned().contains(p) == (chain_owns(n, 32, p) || chain_owns(t, 64, p)));
    }
    assert(spec_account_load(file@, tree.token_height as nat, tree.spec_owned(), rec) is Ok);
}

/// The balance of token `token_id` in the token tree that the account record
/// `rec` names.
pub open spec fn spec_token_of(s: Seq<u8>, rec: AccountRecord, token_id: nat) -> Token {
    chain_get::<TokenPtr>(s, spec_blocks(s, 64, rec.tokens_head as nat)->0, token_id)->Ok_0
}

/// The balances that the record of an account names are those of the
/// account's token tree.
pub proof fn lemma_token_of(acc: &Account, file: &TsFile, token_id: nat)
    requires
        acc.tokens.wf(file),
    ensures
        Ok::<Token, Error>(spec_token_of(file@, acc.spec_record(), token_id))
            == acc.tokens.spec_leaf_at(file, token_id),
{
    lemma_token_tree_loads(&acc.tokens, file);
    acc.tokens.tokens.lemma_chain_get(file, token_id);
}

/// A well-formed token tree is what `load` finds from its two heads.
pub proof fn lemma_token_tree_loads(t: &TokenTree, file: &TsFile)
    requires
        t.wf(file),
    ensures
        spec_token_arrays(
            file@,
            t.height as nat,
            t.nodes.spec_head() as nat,
            t.tokens.spec_head() as nat,
        ) == Ok::<(Seq<usize>, Seq<usize>), Error>((t.nodes.blocks(), t.tokens.blocks())),
{
    crate::index::lemma_pow2_exponent(t.height as nat + 1);
    if t.nodes.blocks().len() > 0 {
        t.nodes.lemma_persisted_chain(file, 0);
        assert(t.nodes.blocks().subrange(0, t.nodes.blocks().len() as int) =~= t.nodes.blocks());
    } else {
        assert(t.nodes.blocks() =~= Seq::<usize>::empty());
    }
    if t.tokens.blocks().len() > 0 {
        t.tokens.lemma_persisted_chain(file, 0);
        assert(t.tokens.blocks().subrange(0, t.tokens.blocks().len() as int) =~= t.tokens.blocks());
    } else {
        assert(t.tokens.blocks() =~= Seq::<usize>::empty());
    }
    lemma_token_owned(t);
    assert forall|p: int|
        !(chain_owns(t.nodes.blocks(), 32, p) && chain_owns(t.tokens.blocks(), 64, p)) by {
        t.nodes.lemma_footprint();
        t.tokens.lemma_footprint();
        assert(t.nodes.footprint().contains(p) == t.nodes.owns(p));
        assert(t.tokens.footprint().contains(p) == t.tokens.owns(p));
        assert(chain_footprint(t.nodes.blocks(), 32).contains(p) == chain_owns(
            t.nodes.blocks(),
            32,
            p,
        ));
        assert(chain_footprint(t.tokens.blocks(), 64).contains(p) == chain_owns(
            t.tokens.blocks(),
            64,
            p,
        ));
        assert(!(t.nodes.owns(p) && t.tokens.owns(p)));
    }
}

/// The token trees that can be loaded stay loadable, with the same blocks,
/// where the arena changes only in bytes that are none of theirs.
pub proof fn lemma_account_load_stable(
    s1: Seq<u8>,
    s2: Seq<u8>,
    token_height: nat,
    rec: AccountRecord,
    own1: Set<int>,
    own2: Set<int>,
    tree1: Set<int>,
    tree2: Set<int>,
)
    requires
        s1.len() <= usize::MAX,
        s2.len() > 0,
        spec_account_load(s1, token_height, tree1, rec) is Ok,
        masked(s2, own2) == masked(s1, own1),
        forall|p: int| own1.contains(p) ==> tree1.contains(p),
        forall|p: int| tree2.contains(p) ==> own2.contains(p) || (tree1.contains(p) && s1.len() > p),
    ensures
        spec_account_load(s2, token_height, tree2, rec) is Ok,
        spec_token_arrays(s2, token_height, rec.nodes_head as nat, rec.tokens_head as nat)
            == spec_token_arrays(s1, token_height, rec.nodes_head as nat, rec.tokens_head as nat),
{
    let n = spec_blocks(s1, 32, rec.nodes_head as nat)->0;
    let t = spec_blocks(s1, 64, rec.tokens_head as nat)->0;
    assert(spec_token_arrays(s1, token_height, rec.nodes_head as nat, rec.tokens_head as nat)
        == Ok::<(Seq<usize>, Seq<usize>), Error>((n, t)));
    assert forall|p: int| chain_owns(n, 32, p) implies !own1.contains(p) by {
        assert(!((chain_owns(n, 32, p) || chain_owns(t, 64, p)) && tree1.contains(p)));
    }
    assert forall|p: int| chain_owns(t, 64, p) implies !own1.contains(p) by {
        assert(!((chain_owns(n, 32, p) || chain_owns(t, 64, p)) && tree1.contains(p)));
    }
    lemma_blocks_stable(s1, s2, 32, rec.nodes_head as nat, own1, own2);
    lemma_blocks_stable(s1, s2, 64, rec.tokens_head as nat, own1, own2);
    assert forall|p: int| !((chain_owns(n, 32, p) || chain_owns(t, 64, p)) && tree2.contains(p)) by {
        assert(!((chain_owns(n, 32, p) || chain_owns(t, 64, p)) && tree1.contains(p)));
    }
}

impl<'a> MerkleTreeWithLeaves for AccountTree<'a> {
    type Leaf = Account<'a>;

    type LeafView = AccountRecord;

    open spec fn leaf_view(leaf: &Account<'a>) -> AccountRecord {
        leaf.spec_record()
    }

    open spec fn spec_leaf_at(&self, file: &TsFile, idx: nat) -> Result<AccountRecord, Error> {
        match self.accounts.spec_get(file, idx) {
            Ok(rec) => match spec_account_load(
                file@,
                self.token_height as nat,
                self.spec_owned(),
                rec,
            ) {
                Ok(_) => Ok(rec),
                Err(e) => Err(e),
            },
            Err(e) => Err(e),
        }
    }

    open spec fn leaf_ok(&self, file: &TsFile, leaf: &Account<'a>) -> bool {
        &&& leaf.tokens.wf(file)
        &&& *leaf.tokens.hasher == *self.hasher
        &&& leaf.tokens.height == self.token_height
        &&& forall|p: int| #[trigger]
            leaf.tokens.spec_owned().contains(p) ==> !self.spec_owned().contains(p)
    }

    open spec fn spec_leaf_digest(&self, file: &TsFile, leaf: &Account<'a>) -> Result<
        Scalar,
        Error,
    > {
        leaf.spec_digest(file)
    }

    proof fn lemma_rest_leaf_at(a: &Self, fa: &TsFile, b: &Self, fb: &TsFile, idx: nat) {
        let rec = a.accounts.spec_get(fa, idx)->Ok_0;
        assert forall|p: int| a.accounts.owns(p) implies !a.nodes.footprint().contains(p) by {
            assert(!(a.nodes.owns(p) && a.accounts.owns(p)));
        }
        a.accounts.lemma_untouched(fa, a.nodes.footprint(), fb, b.nodes.footprint());
        a.accounts.lemma_same_bytes(fb, &b.accounts, fb);
        a.accounts.lemma_footprint();
        b.accounts.lemma_footprint();
        assert forall|p: int| a.nodes.footprint().contains(p) implies a.spec_owned().contains(p) by {}
        assert forall|p: int|
            b.spec_owned().contains(p) implies b.nodes.footprint().contains(p) || (
            a.spec_owned().contains(p) && fa@.len() > p) by {
            if !b.nodes.footprint().contains(p) {
                assert(b.accounts.footprint().contains(p));
                assert(a.accounts.footprint().contains(p));
                assert(a.accounts.owns(p));
                let k = choose|k: int|
                    0 <= k < a.accounts.blocks().len() && a.accounts.blocks()[k] <= p
                        < #[trigger] a.accounts.block_end(k);
                assert(a.accounts.block_end(k) <= fa@.len());
            }
        }
        vstd::std_specs::vec::axiom_spec_len(&fa.bytes);
        lemma_account_load_stable(
            fa@,
            fb@,
            a.token_height as nat,
            rec,
            a.nodes.footprint(),
            b.nodes.footprint(),
            a.spec_owned(),
            b.spec_owned(),
        );
    }

    proof fn lemma_rest_leaf(a: &Self, fa: &TsFile, b: &Self, fb: &TsFile, leaf: &Account<'a>) {
        assert forall|p: int| leaf.tokens.spec_owned().contains(p) implies !a.nodes.footprint().contains(
            p,
        ) by {
            assert(!a.spec_owned().contains(p));
        }
        leaf.tokens.lemma_untouched(fa, a.nodes.footprint(), fb, b.nodes.footprint());
        a.accounts.lemma_footprint();
        b.accounts.lemma_footprint();
        assert forall|p: int| leaf.tokens.spec_owned().contains(p) implies !b.spec_owned().contains(
            p,
        ) by {
            assert(!a.spec_owned().contains(p));
            assert(!b.nodes.footprint().contains(p));
            assert(b.accounts.footprint().contains(p) == a.accounts.footprint().contains(p));
        }
        assert(same_nodes(&leaf.tokens, fa, &leaf.tokens, fb));
        crate::leaves::lemma_same_nodes_root(&leaf.tokens, fa, &leaf.tokens, fb);
    }

    fn leaf_at(&self, file: &TsFile, idx: usize) -> (r: Result<Account<'a>, Error>)
        ensures
            r is Ok ==> self.leaf_ok(file, &r->Ok_0),
            r is Ok ==> leaf_loaded(self, file, idx as nat, &r->Ok_0),
    {
        let rec = self.accounts.get(file, idx)?;
        if rec.nodes_head > usize::MAX as u64 || rec.tokens_head > usize::MAX as u64 {
            return Err(Error::CorruptLayout);
        }
        let tokens = TokenTree::load(
            file,
            self.hasher,
            self.token_height,
            rec.nodes_head as usize,
            rec.tokens_head as usize,
        )?;
        proof {
            lemma_token_owned(&tokens);
        }
        let apart: bool = tokens.nodes.disjoint_from(&self.nodes, file)
            && tokens.nodes.disjoint_from(&self.accounts, file) && tokens.tokens.disjoint_from(
            &self.nodes,
            file,
        ) && tokens.tokens.disjoint_from(&self.accounts, file);
        proof {
            assert forall|p: int|
                tokens.spec_owned().contains(p) && self.spec_owned().contains(p) implies !apart by {
                assert(tokens.nodes.footprint().contains(p) == tokens.nodes.owns(p));
                assert(tokens.tokens.footprint().contains(p) == tokens.tokens.owns(p));
                assert(self.nodes.footprint().contains(p) == self.nodes.owns(p));
                assert(self.accounts.footprint().contains(p) == self.accounts.owns(p));
            }
            if !apart {
                let p = choose|p: int|
                    (tokens.nodes.owns(p) || tokens.tokens.owns(p)) && (self.nodes.owns(p)
                        || self.accounts.owns(p));
                assert(tokens.nodes.footprint().contains(p) == tokens.nodes.owns(p));
                assert(tokens.tokens.footprint().contains(p) == tokens.tokens.owns(p));
                assert(self.nodes.footprint().contains(p) == self.nodes.owns(p));
                assert(self.accounts.footprint().contains(p) == self.accounts.owns(p));
                assert(tokens.spec_owned().contains(p) && self.spec_owned().contains(p));
            }
        }
        if !apart {
            return Err(Error::CorruptLayout);
        }
        Ok(Account { l2_addr: rec.l2_addr, nonce: rec.nonce, tokens })
    }

    fn leaf_set(&mut self, file: &mut TsFile, idx: usize, leaf: Account<'a>) -> (r: Result<
        (),
        Error,
    >) {
        proof {
            crate::index::lemma_pow2_exponent(self.height as nat + 1);
            vstd::arithmetic::power2::lemma_pow2_strictly_increases(
                self.height as nat,
                self.height as nat + 1,
            );
        }
        if idx >= crate::index::pow2_usize(self.height) {
            return Err(Error::InvalidLeafId);
        }
        let rec = leaf.record();
        let ghost before = self.accounts;
        let r = self.accounts.set(file, idx, &rec);
        proof {
            assert(before.disjoint(&self.nodes));
            before.lemma_outside(old(file), &self.accounts, file, &self.nodes);
            assert(self.nodes.disjoint(&self.accounts));
            crate::file::lemma_masked_union(
                old(file)@,
                before.footprint(),
                file@,
                self.accounts.footprint(),
                self.nodes.footprint(),
            );
            assert(self.accounts.footprint().union(self.nodes.footprint()) =~= self.spec_owned());
            assert(before.footprint().union(self.nodes.footprint()) =~= old(self).spec_owned());
            if idx > 0 {
                crate::index::lemma_floor_log2_below(idx as nat, self.height as nat);
            }
            assert forall|p: int| leaf.tokens.spec_owned().contains(p) implies !before.footprint().contains(
                p,
            ) by {
                assert(!old(self).spec_owned().contains(p));
            }
            leaf.tokens.lemma_untouched(old(file), before.footprint(), file, self.accounts.footprint());
            lemma_token_tree_loads(&leaf.tokens, file);
            lemma_token_owned(&leaf.tokens);
            assert forall|p: int|
                leaf.tokens.spec_owned().contains(p) implies !self.spec_owned().contains(p) by {
                assert(!old(self).spec_owned().contains(p));
                assert(!self.accounts.footprint().contains(p));
            }
            assert forall|j: nat|
                j != idx && old(self).spec_leaf_at(old(file), j) is Ok implies self.spec_leaf_at(
                file,
                j,
            ) == old(self).spec_leaf_at(old(file), j) by {
                let rj = before.spec_get(old(file), j)->Ok_0;
                assert forall|p: int|
                    before.footprint().contains(p) implies old(self).spec_owned().contains(p) by {}
                assert forall|p: int|
                    self.spec_owned().contains(p) implies self.accounts.footprint().contains(p) || (
                    old(self).spec_owned().contains(p) && old(file)@.len() > p) by {
                    if !self.accounts.footprint().contains(p) {
                        assert(self.nodes.footprint().contains(p));
                        assert(self.nodes.owns(p));
                        let k = choose|k: int|
                            0 <= k < self.nodes.blocks().len() && self.nodes.blocks()[k] <= p
                                < #[trigger] self.nodes.block_end(k);
                        assert(self.nodes.block_end(k) <= old(file)@.len());
                    }
                }
                vstd::std_specs::vec::axiom_spec_len(&old(file).bytes);
                lemma_account_load_stable(
                    old(file)@,
                    file@,
                    self.token_height as nat,
                    rj,
                    before.footprint(),
                    self.accounts.footprint(),
                    old(self).spec_owned(),
                    self.spec_owned(),
                );
            }
        }
        r
    }

    fn leaf_digest(&self, file: &TsFile, leaf: &Account<'a>) -> (r: Result<Scalar, Error>) {
        leaf.digest(file)
    }
}

} // verus!
