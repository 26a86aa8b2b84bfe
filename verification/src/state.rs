//! The ledger state: the global root scalar, the account tree, the bond
//! metadata and the transaction log, all in one arena.

use vstd::prelude::*;
use vstd::arithmetic::power2::pow2;
use crate::acc_ptr::AccPtr;
use crate::account::{
    anchors, leaf_loaded, lemma_anchored_leaf, lemma_anchors_kept, lemma_record_bytes,
    lemma_record_untouched, record_owns, spec_account_load, spec_frontier, lemma_leaf_loaded_same, lemma_token_of, spec_account_arrays, spec_leaf, spec_account_digest, spec_token_of, token_written,
    Account, AccountTree,
};
use crate::leaves::MerkleTreeWithLeaves;
use crate::token::{spec_token_arrays, Token};
use crate::array::{chain_owns, chains_share, spec_blocks, Array, ElemPtr};
use crate::error::Error;
use crate::file::{
    masked, same_counters, TsFile, ACCOUNTS_HEAD, ACCOUNT_NODES_HEAD, TSB_INFOS_HEAD, TS_ROOT_INDEX, TXS_HEAD,
};
use crate::merkle::{root_readable, same_nodes, spec_root, MerkleNodes, MerkleTree};
use crate::node_ptr::NodePtr;
use crate::poseidon::{spec_permute, Poseidon};
use crate::scalar::Scalar;
use crate::state_tx;
use crate::token::TOKEN_TAG;
use crate::tsb_info::TSBInfo;
use crate::tsbinfo_ptr::TSBInfoPtr;
use crate::tx;
use crate::tx_ptr::TxPtr;
use crate::value::Value;

verus! {

/// The tag that the state root starts with.
pub const STATE_TAG: u64 = 2;

/// The root of the whole state: the hash of the tag, the global root scalar
/// and the root of the account tree.
pub open spec fn spec_state_root(hasher: &Poseidon, ts_root: Scalar, account_root: Scalar) -> Scalar {
    Scalar::spec_new(spec_permute(hasher@[2], seq![STATE_TAG as nat, ts_root@, account_root@]))
}

/// No byte of the token tree of an account that a tree can store is a byte
/// of the tree.
pub proof fn lemma_leaf_apart(tree: &AccountTree, file: &TsFile, acc: &Account, p: int)
    requires
        tree.leaf_ok(file, acc),
        acc.tokens.spec_owned().contains(p),
    ensures
        !tree.spec_owned().contains(p),
{
}

/// An account whose token tree is well formed, is made as the tree makes
/// token trees, and lies apart from the tree, is one that the tree can store.
pub proof fn lemma_leaf_ok(tree: &AccountTree, file: &TsFile, acc: &Account)
    requires
        acc.tokens.wf(file),
        *acc.tokens.hasher == *tree.hasher,
        acc.tokens.height == tree.token_height,
        forall|p: int| acc.tokens.spec_owned().contains(p) ==> !tree.spec_owned().contains(p),
    ensures
        tree.leaf_ok(file, acc),
{
}

/// Whether account `j` is in the state `b` over `fb` what it was in the
/// state `a` over `fa`: the same record, the same token tree in the same
/// place, and the same balances.
pub open spec fn same_account(a: &State, fa: &TsFile, b: &State, fb: &TsFile, j: nat) -> bool {
    &&& b.accounts.spec_leaf_at(fb, j) == a.accounts.spec_leaf_at(fa, j)
    &&& b.spec_record_bytes(fb, j) == a.spec_record_bytes(fa, j)
    &&& b.spec_balances(fb, j) == a.spec_balances(fa, j)
}

/// An account stays what it is where the arena changes only in bytes that
/// are none of its token tree's, the account array holds its record as
/// before, and the account tree gains no byte of its token tree.
pub proof fn lemma_other_kept(
    a: &State,
    fa: &TsFile,
    b: &State,
    fb: &TsFile,
    j: nat,
    own1: Set<int>,
    own2: Set<int>,
)
    requires
        a.accounts.wf(fa),
        fb@.len() > 0,
        a.clear_of(fa, j, own1),
        masked(fb@, own2) == masked(fa@, own1),
        b.accounts.accounts.spec_get(fb, j) == a.accounts.accounts.spec_get(fa, j),
        b.accounts.token_height == a.accounts.token_height,
        forall|p: int|
            b.accounts.spec_owned().contains(p) ==> a.accounts.spec_owned().contains(p)
                || own2.contains(p) || p >= fa@.len(),
    ensures
        same_account(a, fa, b, fb, j),
        b.clear_of(fb, j, own2),
{
    let rec = a.accounts.spec_leaf_at(fa, j)->Ok_0;
    vstd::std_specs::vec::axiom_spec_len(&fa.bytes);
    assert forall|p: int| record_owns(fa@, rec, p) implies !own1.contains(p) by {
        assert(a.spec_record_bytes(fa, j).contains(p));
    }
    lemma_record_untouched(fa@, fb@, a.accounts.token_height as nat, rec, own1, own2);
    let th = a.accounts.token_height as nat;
    let found = spec_token_arrays(fa@, th, rec.nodes_head as nat, rec.tokens_head as nat)->Ok_0;
    assert(a.accounts.accounts.spec_get(fa, j) == Ok::<crate::acc_ptr::AccountRecord, Error>(rec));
    assert(spec_account_load(fa@, th, a.accounts.spec_owned(), rec) is Ok);
    assert(found.0 == spec_blocks(fa@, 32, rec.nodes_head as nat)->0);
    assert(found.1 == spec_blocks(fa@, 64, rec.tokens_head as nat)->0);
    assert forall|p: int|
        !((chain_owns(found.0, 32, p) || chain_owns(found.1, 64, p))
            && b.accounts.spec_owned().contains(p)) by {
        if chain_owns(found.0, 32, p) || chain_owns(found.1, 64, p) {
            assert(record_owns(fa@, rec, p));
            assert(!own2.contains(p));
            assert(0 <= p < fa@.len());
            if a.accounts.spec_owned().contains(p) {
                assert((chain_owns(found.0, 32, p) || chain_owns(found.1, 64, p))
                    && a.accounts.spec_owned().contains(p));
                assert(false);
            }
        }
    }
    assert(spec_account_load(fb@, th, b.accounts.spec_owned(), rec) is Ok);
    assert(b.accounts.spec_leaf_at(fb, j) == a.accounts.spec_leaf_at(fa, j));
    assert(b.spec_record_bytes(fb, j) =~= a.spec_record_bytes(fa, j));
    assert(b.spec_balances(fb, j) =~= a.spec_balances(fa, j));
}

/// The accounts stay sound through a change of the state that leaves the
/// bond metadata and the transactions where they are, where every account
/// but one is what it was and lies clear of the bytes `own`, and the one can
/// be read, lies apart from the bond metadata and the transactions, and has
/// its token tree within `own`.
pub proof fn lemma_sound_kept(
    a: &State,
    fa: &TsFile,
    b: &State,
    fb: &TsFile,
    id: nat,
    own: Set<int>,
)
    requires
        a.sound(fa),
        b.txs.footprint() == a.txs.footprint(),
        b.tsb_infos.footprint() == a.tsb_infos.footprint(),
        b.lies_apart(fb, id),
        forall|p: int| b.spec_record_bytes(fb, id).contains(p) ==> own.contains(p),
        forall|j: nat| j != id ==> #[trigger] same_account(a, fa, b, fb, j),
        forall|j: nat| j != id ==> #[trigger] b.clear_of(fb, j, own),
    ensures
        b.sound(fb),
{
    assert forall|j: nat| #[trigger] b.lies_apart(fb, j) by {
        if j != id {
            assert(a.lies_apart(fa, j));
            assert(same_account(a, fa, b, fb, j));
        }
    }
    assert forall|i: nat, j: nat| i != j implies #[trigger] b.spec_record_bytes(fb, i).disjoint(
        b.spec_record_bytes(fb, j),
    ) by {
        if i != id && j != id {
            assert(a.spec_record_bytes(fa, i).disjoint(a.spec_record_bytes(fa, j)));
            assert(same_account(a, fa, b, fb, i));
            assert(same_account(a, fa, b, fb, j));
        } else if i == id {
            assert(b.clear_of(fb, j, own));
        } else {
            assert(b.clear_of(fb, i, own));
        }
    }
}

/// An account that can be read stays what it is through a change of the
/// account tree that leaves its record in the account array: the account
/// tree writes none but its own bytes.
pub proof fn lemma_store_frame(a: &State, fa: &TsFile, b: &State, fb: &TsFile, j: nat)
    requires
        a.accounts.wf(fa),
        fb@.len() > 0,
        a.accounts.spec_leaf_at(fa, j) is Ok,
        b.accounts.spec_leaf_at(fb, j) == a.accounts.spec_leaf_at(fa, j),
        b.accounts.token_height == a.accounts.token_height,
        masked(fb@, b.accounts.spec_owned()) == masked(fa@, a.accounts.spec_owned()),
    ensures
        same_account(a, fa, b, fb, j),
{
    let own1 = a.accounts.spec_owned();
    let rec = a.accounts.spec_leaf_at(fa, j)->Ok_0;
    let th = a.accounts.token_height as nat;
    let found = spec_token_arrays(fa@, th, rec.nodes_head as nat, rec.tokens_head as nat)->Ok_0;
    assert forall|p: int| record_owns(fa@, rec, p) implies !own1.contains(p) by {
        if own1.contains(p) {
            assert((chain_owns(found.0, 32, p) || chain_owns(found.1, 64, p)) && own1.contains(p));
            assert(false);
        }
    }
    assert(a.spec_record_bytes(fa, j).disjoint(own1));
    lemma_other_kept(a, fa, b, fb, j, own1, b.accounts.spec_owned());
}

/// Storing a held account that no other account shares a byte with keeps
/// the accounts sound, whether the store succeeds or not.
pub proof fn lemma_store_sound(
    a: &State,
    fa: &TsFile,
    b: &State,
    fb: &TsFile,
    id: nat,
    acc: &Account,
    ok: bool,
)
    requires
        a.sound(fa),
        a.holds_only(fa, id, acc),
        b.txs.footprint() == a.txs.footprint(),
        b.tsb_infos.footprint() == a.tsb_infos.footprint(),
        forall|j: nat|
            j != id && #[trigger] a.clear_of(fa, j, acc.tokens.spec_owned()) ==> same_account(
                a,
                fa,
                b,
                fb,
                j,
            ) && b.clear_of(fb, j, acc.tokens.spec_owned()),
        ok ==> b.lies_apart(fb, id) && acc.tokens.spec_owned() == b.spec_record_bytes(fb, id),
        !ok ==> same_account(a, fa, b, fb, id),
        forall|p: int| a.spec_record_bytes(fa, id).contains(p) ==> acc.tokens.spec_owned().contains(p),
    ensures
        b.sound(fb),
{
    let own = acc.tokens.spec_owned();
    assert forall|j: nat| j != id implies #[trigger] same_account(a, fa, b, fb, j) by {
        assert(a.clear_of(fa, j, own));
    }
    assert forall|j: nat| j != id implies #[trigger] b.clear_of(fb, j, own) by {
        assert(a.clear_of(fa, j, own));
    }
    if !ok {
        assert(a.lies_apart(fa, id));
    }
    lemma_sound_kept(a, fa, b, fb, id, own);
}

/// The accounts stay sound where every account is what it was and still
/// lies apart from the bond metadata and the transactions.
pub proof fn lemma_sound_written(a: &State, fa: &TsFile, b: &State, fb: &TsFile)
    requires
        a.sound(fa),
        forall|j: nat| #[trigger] same_account(a, fa, b, fb, j),
        forall|j: nat| #[trigger] b.lies_apart(fb, j),
    ensures
        b.sound(fb),
{
    assert forall|i: nat, j: nat| i != j implies #[trigger] b.spec_record_bytes(fb, i).disjoint(
        b.spec_record_bytes(fb, j),
    ) by {
        assert(a.spec_record_bytes(fa, i).disjoint(a.spec_record_bytes(fa, j)));
        assert(same_account(a, fa, b, fb, i));
        assert(same_account(a, fa, b, fb, j));
    }
}

/// The ledger state over an arena.
pub struct State<'a> {
    pub ts_root: Value,
    pub accounts: AccountTree<'a>,
    pub tsb_infos: Array<TSBInfoPtr>,
    pub txs: Array<TxPtr>,
}

impl<'a> State<'a> {
    /// Every part is well formed, and no two parts share a byte of the arena.
    pub open spec fn wf(&self, file: &TsFile) -> bool {
        &&& self.ts_root.wf(file)
        &&& self.accounts.wf(file)
        &&& self.tsb_infos.wf(file)
        &&& self.txs.wf(file)
        &&& self.tsb_infos.persisted(file)
        &&& self.txs.persisted(file)
        &&& forall|p: int|
            !(self.ts_root.footprint().contains(p) && self.accounts.spec_owned().contains(p))
        &&& forall|p: int| !(self.ts_root.footprint().contains(p) && self.tsb_infos.owns(p))
        &&& forall|p: int| !(self.ts_root.footprint().contains(p) && self.txs.owns(p))
        &&& forall|p: int| !(self.accounts.spec_owned().contains(p) && self.tsb_infos.owns(p))
        &&& forall|p: int| !(self.accounts.spec_owned().contains(p) && self.txs.owns(p))
        &&& self.tsb_infos.disjoint(&self.txs)
    }

    /// The root of the whole state, or `OutOfRangeProof` where the account
    /// tree has no root to read.
    pub fn get_root(&self, file: &TsFile) -> (r: Result<Scalar, Error>)
        requires
            self.wf(file),
        ensures
            root_readable(&self.accounts, file) ==> r == Ok::<Scalar, Error>(
                spec_state_root(
                    self.accounts.hasher,
                    self.ts_root.spec_get(file),
                    spec_root(&self.accounts, file),
                ),
            ),
            !root_readable(&self.accounts, file) ==> r == Err::<Scalar, Error>(
                Error::OutOfRangeProof,
            ),
    {
        let ts_root = self.ts_root.get(file)?;
        let account_root = self.accounts.get_root(file)?;
        let tag = Scalar::from_u64(STATE_TAG);
        let r = self.accounts.hasher.hash3(tag, ts_root, account_root);
        r.check_reduced_spec();
        proof {
            assert(STATE_TAG == 2);
            assert(seq![tag@, ts_root@, account_root@] =~= seq![
                STATE_TAG as nat,
                ts_root@,
                account_root@,
            ]);
        }
        Ok(r)
    }

    /// Replaces the global root scalar. The account tree, the bond metadata
    /// and the transactions stay as they are.
    pub fn set_ts_root(&mut self, file: &mut TsFile, ts_root: Scalar) -> (r: Result<(), Error>)
        requires
            old(self).wf(old(file)),
        ensures
            r is Ok,
            final(self).wf(final(file)),
            same_counters(old(file), final(file)),
            final(self).ts_root == old(self).ts_root,
            final(self).ts_root.spec_get(final(file)) == ts_root,
            final(self).accounts == old(self).accounts,
            final(self).tsb_infos == old(self).tsb_infos,
            final(self).txs == old(self).txs,
            same_nodes(&old(self).accounts, old(file), &final(self).accounts, final(file)),
            forall|j: nat|
                final(self).tsb_infos.spec_get(final(file), j) == old(self).tsb_infos.spec_get(
                    old(file),
                    j,
                ),
            forall|j: nat|
                final(self).txs.spec_get(final(file), j) == old(self).txs.spec_get(old(file), j),
    {
        let ghost own = self.ts_root.footprint();
        let r = self.ts_root.set(file, &ts_root);
        proof {
            self.accounts.lemma_untouched(old(file), own, file, own);
            assert forall|p: int| self.tsb_infos.owns(p) implies !own.contains(p) by {}
            assert forall|p: int| self.txs.owns(p) implies !own.contains(p) by {}
            self.tsb_infos.lemma_untouched(old(file), own, file, own);
            self.txs.lemma_untouched(old(file), own, file, own);
        }
        r
    }

    /// Whether the account `acc`, which was loaded from the account tree, can
    /// be changed and stored again: its token tree is well formed and shares
    /// no byte with any part of the state.
    pub open spec fn holds(&self, file: &TsFile, acc: &Account) -> bool {
        &&& self.accounts.leaf_ok(file, acc)
        &&& forall|p: int| #[trigger]
            acc.tokens.spec_owned().contains(p) ==> !self.ts_root.footprint().contains(p)
                && !self.tsb_infos.owns(p) && !self.txs.owns(p)
    }

    /// What a change of the arena leaves of the state where it touched no
    /// byte of the state: every part is well formed and holds what it held.
    pub open spec fn kept(&self, before: &TsFile, after: &TsFile) -> bool {
        &&& self.wf(after)
        &&& self.ts_root.spec_get(after) == self.ts_root.spec_get(before)
        &&& same_nodes(&self.accounts, before, &self.accounts, after)
        &&& forall|j: nat| self.tsb_infos.spec_get(after, j) == self.tsb_infos.spec_get(before, j)
        &&& forall|j: nat| self.txs.spec_get(after, j) == self.txs.spec_get(before, j)
        &&& forall|j: nat|
            self.accounts.accounts.spec_get(after, j) == self.accounts.accounts.spec_get(before, j)
    }

    /// The bytes of the token tree of account `j`.
    pub open spec fn spec_record_bytes(&self, file: &TsFile, j: nat) -> Set<int> {
        Set::new(|p: int| record_owns(file@, self.accounts.spec_leaf_at(file, j)->Ok_0, p))
    }

    /// The balances of account `j`, by token.
    pub open spec fn spec_balances(&self, file: &TsFile, j: nat) -> Map<nat, Token> {
        Map::new(|token_id: nat| true, |token_id: nat| self.spec_balance(file, j, token_id))
    }

    /// Whether account `j` can be read and its token tree has none of the
    /// bytes `own`.
    pub open spec fn clear_of(&self, file: &TsFile, j: nat, own: Set<int>) -> bool {
        &&& self.accounts.spec_leaf_at(file, j) is Ok
        &&& self.spec_record_bytes(file, j).disjoint(own)
    }

    /// Whether account `j` can be read and its token tree shares no byte
    /// with the bond metadata or the transactions.
    pub open spec fn lies_apart(&self, file: &TsFile, j: nat) -> bool {
        &&& self.clear_of(file, j, self.txs.footprint())
        &&& self.clear_of(file, j, self.tsb_infos.footprint())
    }

    /// Whether the accounts `i` and `j` can be read and the token tree of
    /// `j` shares no byte with the token tree of `i`, the bond metadata or
    /// the transactions.
    pub open spec fn apart(&self, file: &TsFile, i: nat, j: nat) -> bool {
        &&& self.accounts.spec_leaf_at(file, i) is Ok
        &&& self.clear_of(file, j, self.spec_record_bytes(file, i))
        &&& self.clear_of(file, j, self.txs.footprint())
        &&& self.clear_of(file, j, self.tsb_infos.footprint())
    }

    /// Whether the accounts of the state are sound: every account can be
    /// read, and the token tree of each shares no byte with the bond
    /// metadata, the transactions, or the token tree of another account.
    pub open spec fn sound(&self, file: &TsFile) -> bool {
        &&& forall|j: nat| #[trigger] self.lies_apart(file, j)
        &&& forall|i: nat, j: nat|
            i != j ==> #[trigger] self.spec_record_bytes(file, i).disjoint(
                self.spec_record_bytes(file, j),
            )
    }

    /// Whether the account `acc` is held as account `acc_id` and no other
    /// account has a byte of its token tree.
    pub open spec fn holds_only(&self, file: &TsFile, acc_id: nat, acc: &Account) -> bool {
        &&& self.tracks(file, acc_id, acc)
        &&& forall|j: nat| j != acc_id ==> #[trigger] self.clear_of(file, j, acc.tokens.spec_owned())
    }

    /// Whether the account `acc` is held and is the one that the record of
    /// account `acc_id` names: the account array has a record there, and each
    /// collection of the token tree that the record names is where the
    /// account has it.
    pub open spec fn tracks(&self, file: &TsFile, acc_id: nat, acc: &Account) -> bool {
        &&& self.holds(file, acc)
        &&& self.accounts.accounts.spec_get(file, acc_id) is Ok
        &&& anchors(self.accounts.accounts.spec_get(file, acc_id)->Ok_0, acc)
    }

    /// A state is kept by whatever leaves the arena outside some bytes
    /// alone that are none of the state's.
    pub proof fn lemma_kept(
        &self,
        before: &TsFile,
        own_before: Set<int>,
        after: &TsFile,
        own_after: Set<int>,
    )
        requires
            self.wf(before),
            after@.len() > 0,
            forall|p: int| #[trigger]
                own_before.contains(p) ==> !self.ts_root.footprint().contains(p)
                    && !self.accounts.spec_owned().contains(p) && !self.tsb_infos.owns(p)
                    && !self.txs.owns(p),
            masked(after@, own_after) == masked(before@, own_before),
        ensures
            self.kept(before, after),
            forall|p: int| #[trigger]
                own_after.contains(p) ==> !self.ts_root.footprint().contains(p)
                    && !self.accounts.spec_owned().contains(p) && !self.tsb_infos.owns(p)
                    && !self.txs.owns(p),
    {
        self.accounts.lemma_untouched(before, own_before, after, own_after);
        self.tsb_infos.lemma_untouched(before, own_before, after, own_after);
        self.txs.lemma_untouched(before, own_before, after, own_after);
        self.ts_root.lemma_untouched(before, own_before, after, own_after);
        assert forall|p: int| self.accounts.accounts.owns(p) implies !own_before.contains(p) by {
            assert(self.accounts.accounts.footprint().contains(p));
            assert(self.accounts.spec_owned().contains(p));
        }
        self.accounts.accounts.lemma_untouched(before, own_before, after, own_after);
    }

    /// An account that is held stays held through whatever leaves the arena
    /// outside some bytes alone that are none of its token tree's, where the
    /// state is kept and the bytes that are left out afterwards are the
    /// state's own.
    pub proof fn lemma_holds(
        &self,
        before: &TsFile,
        own_before: Set<int>,
        later: &Self,
        after: &TsFile,
        own_after: Set<int>,
        acc: &Account,
    )
        requires
            self.holds(before, acc),
            after@.len() > 0,
            later.accounts.spec_fixed() == self.accounts.spec_fixed(),
            later.ts_root == self.ts_root,
            masked(after@, own_after) == masked(before@, own_before),
            forall|p: int| acc.tokens.spec_owned().contains(p) ==> !own_before.contains(p),
            forall|p: int|
                later.accounts.spec_owned().contains(p) || later.tsb_infos.owns(p)
                    || later.txs.owns(p) ==> own_after.contains(p)
                    || self.accounts.spec_owned().contains(p) || self.tsb_infos.owns(p)
                    || self.txs.owns(p),
        ensures
            later.holds(after, acc),
    {
        acc.tokens.lemma_untouched(before, own_before, after, own_after);
        assert forall|p: int| #[trigger]
            acc.tokens.spec_owned().contains(p) implies !later.accounts.spec_owned().contains(p)
            && !later.ts_root.footprint().contains(p) && !later.tsb_infos.owns(p)
            && !later.txs.owns(p) by {
            lemma_leaf_apart(&self.accounts, before, acc, p);
            assert(!own_after.contains(p));
        }
        lemma_leaf_ok(&later.accounts, after, acc);
    }

    /// The balance of token `token_id` of account `acc_id`.
    pub open spec fn spec_balance(&self, file: &TsFile, acc_id: nat, token_id: nat) -> Token {
        spec_token_of(file@, self.accounts.spec_leaf_at(file, acc_id)->Ok_0, token_id)
    }

    /// The balances of an account are those of its token tree.
    pub proof fn lemma_balance(&self, file: &TsFile, acc_id: nat, acc: &Account)
        requires
            acc.tokens.wf(file),
            self.accounts.spec_leaf_at(file, acc_id) == Ok::<crate::acc_ptr::AccountRecord, Error>(
                acc.spec_record(),
            ),
        ensures
            forall|j: nat|
                Ok::<Token, Error>(#[trigger] self.spec_balance(file, acc_id, j))
                    == acc.tokens.spec_leaf_at(file, j),
    {
        assert forall|j: nat|
            Ok::<Token, Error>(#[trigger] self.spec_balance(file, acc_id, j))
                == acc.tokens.spec_leaf_at(file, j) by {
            lemma_token_of(acc, file, j);
        }
    }

    /// Whether the token tree of the account `acc` starts behind the fixed
    /// places of the arena and shares no byte with the bond metadata or the
    /// transactions.
    pub open spec fn spec_apart(&self, acc: &Account) -> bool {
        &&& acc.tokens.nodes.blocks().len() == 0 || acc.tokens.nodes.spec_head()
            >= ACCOUNT_NODES_HEAD
        &&& acc.tokens.tokens.blocks().len() == 0 || acc.tokens.tokens.spec_head()
            >= ACCOUNT_NODES_HEAD
        &&& !chains_share(acc.tokens.nodes.blocks(), 32, self.tsb_infos.blocks(), 64)
        &&& !chains_share(acc.tokens.nodes.blocks(), 32, self.txs.blocks(), 512)
        &&& !chains_share(acc.tokens.tokens.blocks(), 64, self.tsb_infos.blocks(), 64)
        &&& !chains_share(acc.tokens.tokens.blocks(), 64, self.txs.blocks(), 512)
    }

    /// Account `acc_id` as a load makes it.
    pub open spec fn spec_held(&self, file: &TsFile, acc_id: u64) -> Account<'a> {
        spec_leaf(&self.accounts, file, acc_id as nat)
    }

    /// Whether account `acc_id` can be loaded, or why not: the machine has no
    /// index that large, the account tree cannot read the account, or the
    /// token tree of the account does not lie apart from the rest of the
    /// state.
    pub open spec fn spec_loadable(&self, file: &TsFile, acc_id: u64) -> Result<(), Error> {
        if acc_id > usize::MAX {
            Err(Error::InvalidLeafId)
        } else {
            match self.accounts.spec_leaf_at(file, acc_id as nat) {
                Err(e) => Err(e),
                Ok(_) => if self.spec_apart(&self.spec_held(file, acc_id)) && self.ts_root.index
                    == TS_ROOT_INDEX {
                    Ok(())
                } else {
                    Err(Error::CorruptLayout)
                },
            }
        }
    }

    /// Whether the token tree of account `acc_id` has a root to read.
    pub open spec fn spec_tokens_readable(&self, file: &TsFile, acc_id: u64) -> bool {
        root_readable(&self.spec_held(file, acc_id).tokens, file)
    }

    /// Whether account `acc_id` can be loaded and then stored: it can be
    /// loaded, the account tree has a leaf of that number, and the account
    /// tree has a root to read.
    pub open spec fn spec_changeable(&self, file: &TsFile, acc_id: u64) -> bool {
        &&& self.spec_loadable(file, acc_id) is Ok
        &&& acc_id < pow2(self.accounts.spec_level())
        &&& root_readable(&self.accounts, file)
    }

    /// Whether the token tree of account `acc_id` has a leaf for token
    /// `token_id`.
    pub open spec fn spec_token_in_range(&self, token_id: u64) -> bool {
        token_id < pow2(self.accounts.token_height as nat)
    }

    /// Loads account `acc_id`, and checks that its token tree lies apart
    /// from every part of the state.
    pub fn load_account(&self, file: &TsFile, acc_id: u64) -> (r: Result<Account<'a>, Error>)
        requires
            self.wf(file),
        ensures
            r is Ok ==> self.holds(file, &r->Ok_0) && self.accounts.spec_leaf_at(
                file,
                acc_id as nat,
            ) == Ok::<crate::acc_ptr::AccountRecord, Error>(r->Ok_0.spec_record()),
            r is Ok ==> self.tracks(file, acc_id as nat, &r->Ok_0),
            r is Ok ==> r->Ok_0.tokens.spec_owned() == self.spec_record_bytes(file, acc_id as nat),
            r is Ok && self.sound(file) ==> self.holds_only(file, acc_id as nat, &r->Ok_0),
            match self.spec_loadable(file, acc_id) {
                Ok(_) => r is Ok && leaf_loaded(&self.accounts, file, acc_id as nat, &r->Ok_0)
                    && root_readable(&r->Ok_0.tokens, file) == self.spec_tokens_readable(
                    file,
                    acc_id,
                ),
                Err(e) => r is Err && r->Err_0 == e,
            },
    {
        if acc_id > usize::MAX as u64 {
            return Err(Error::InvalidLeafId);
        }
        let acc = self.accounts.leaf_at(file, acc_id as usize)?;
        proof {
            let held = self.spec_held(file, acc_id);
            assert(leaf_loaded(&self.accounts, file, acc_id as nat, &acc));
            assert(leaf_loaded(&self.accounts, file, acc_id as nat, &held));
            lemma_leaf_loaded_same(&self.accounts, file, acc_id as nat, &acc, &held);
            acc.tokens.nodes.lemma_disjoint_chains(&self.tsb_infos);
            acc.tokens.nodes.lemma_disjoint_chains(&self.txs);
            acc.tokens.tokens.lemma_disjoint_chains(&self.tsb_infos);
            acc.tokens.tokens.lemma_disjoint_chains(&self.txs);
            lemma_record_bytes(&acc, file);
            assert(acc.tokens.spec_owned() =~= self.spec_record_bytes(file, acc_id as nat));
            if self.sound(file) {
                assert forall|j: nat| j != acc_id implies #[trigger] self.clear_of(
                    file,
                    j,
                    acc.tokens.spec_owned(),
                ) by {
                    assert(self.lies_apart(file, j));
                    assert(self.spec_record_bytes(file, j).disjoint(
                        self.spec_record_bytes(file, acc_id as nat),
                    ));
                }
            }
        }
        let nodes_above: bool = acc.tokens.nodes.block_count() == 0 || acc.tokens.nodes.head()
            >= ACCOUNT_NODES_HEAD;
        let tokens_above: bool = acc.tokens.tokens.block_count() == 0 || acc.tokens.tokens.head()
            >= ACCOUNT_NODES_HEAD;
        let apart: bool = nodes_above && tokens_above && acc.tokens.nodes.disjoint_from(
            &self.tsb_infos,
            file,
        ) && acc.tokens.nodes.disjoint_from(&self.txs, file) && acc.tokens.tokens.disjoint_from(
            &self.tsb_infos,
            file,
        ) && acc.tokens.tokens.disjoint_from(&self.txs, file);
        if !apart || self.ts_root.index != TS_ROOT_INDEX {
            return Err(Error::CorruptLayout);
        }
        proof {
            acc.tokens.nodes.lemma_above_head(file);
            acc.tokens.tokens.lemma_above_head(file);
            assert forall|p: int|
                acc.tokens.spec_owned().contains(p) implies !self.ts_root.footprint().contains(p)
                && !self.tsb_infos.owns(p) && !self.txs.owns(p) by {
                assert(acc.tokens.nodes.footprint().contains(p) == acc.tokens.nodes.owns(p));
                assert(acc.tokens.tokens.footprint().contains(p) == acc.tokens.tokens.owns(p));
            }
        }
        Ok(acc)
    }

    /// Stores the account `acc` as account `acc_id`: its digest goes into the
    /// account tree, its record into the account array. The rest of the state
    /// stays as it is.
    pub fn store_account(&mut self, file: &mut TsFile, acc_id: u64, acc: Account<'a>) -> (r: Result<
        (),
        Error,
    >)
        requires
            old(self).wf(old(file)),
            old(self).holds(old(file), &acc),
        ensures
            final(self).wf(final(file)),
            same_counters(old(file), final(file)),
            final(self).ts_root == old(self).ts_root,
            final(self).tsb_infos == old(self).tsb_infos,
            final(self).txs == old(self).txs,
            final(self).accounts.spec_fixed() == old(self).accounts.spec_fixed(),
            final(self).ts_root.spec_get(final(file)) == old(self).ts_root.spec_get(old(file)),
            forall|j: nat|
                final(self).tsb_infos.spec_get(final(file), j) == old(self).tsb_infos.spec_get(
                    old(file),
                    j,
                ),
            forall|j: nat|
                final(self).txs.spec_get(final(file), j) == old(self).txs.spec_get(old(file), j),
            r is Ok ==> final(self).accounts.spec_leaf_at(final(file), acc_id as nat) == Ok::<
                crate::acc_ptr::AccountRecord,
                Error,
            >(acc.spec_record()),
            r is Err ==> same_nodes(&old(self).accounts, old(file), &final(self).accounts, final(file)),
            crate::reference::coherent(&old(self).accounts, old(file)) ==> crate::reference::coherent(
                &final(self).accounts,
                final(file),
            ),
            final(self).holds(final(file), &acc),
            forall|j: nat|
                acc.tokens.spec_leaf_at(final(file), j) == acc.tokens.spec_leaf_at(old(file), j),
            r is Ok <==> acc_id <= usize::MAX && old(self).accounts.spec_leaf_at(
                old(file),
                acc_id as nat,
            ) is Ok && root_readable(&acc.tokens, old(file)) && acc_id < pow2(
                old(self).accounts.spec_level(),
            ) && root_readable(&old(self).accounts, old(file)),
            old(self).tracks(old(file), acc_id as nat, &acc) ==> old(self).accounts.spec_leaf_at(
                old(file),
                acc_id as nat,
            ) is Ok,
            same_nodes(&acc.tokens, old(file), &acc.tokens, final(file)),
            forall|j: nat|
                j != acc_id && #[trigger] old(self).clear_of(
                    old(file),
                    j,
                    acc.tokens.spec_owned(),
                ) ==> same_account(old(self), old(file), final(self), final(file), j) && final(self).clear_of(final(file), j, acc.tokens.spec_owned()),
            r is Ok ==> acc.tokens.spec_owned() == final(self).spec_record_bytes(
                final(file),
                acc_id as nat,
            ),
            r is Ok ==> final(self).lies_apart(final(file), acc_id as nat),
            old(self).sound(old(file)) && old(self).holds_only(old(file), acc_id as nat, &acc)
                ==> final(self).sound(final(file)),
    {
        proof {
            if self.tracks(file, acc_id as nat, &acc) {
                lemma_anchored_leaf(&self.accounts, file, acc_id as nat, &acc);
            }
        }
        if acc_id > usize::MAX as u64 {
            return Err(Error::InvalidLeafId);
        }
        let ghost own1 = self.accounts.spec_owned();
        let ghost held = acc;
        let found = self.accounts.update_leaf(file, acc_id as usize, acc);
        proof {
            let own2 = self.accounts.spec_owned();
            assert forall|p: int| held.tokens.tokens.owns(p) implies !own1.contains(p) by {
                assert(held.tokens.tokens.footprint().contains(p));
                assert(held.tokens.spec_owned().contains(p));
            }
            held.tokens.lemma_untouched(old(file), own1, file, own2);
            held.tokens.tokens.lemma_untouched(old(file), own1, file, own2);
            assert forall|p: int| self.tsb_infos.owns(p) implies !own1.contains(p) by {
                assert(!(old(self).accounts.spec_owned().contains(p) && old(self).tsb_infos.owns(p)));
            }
            assert forall|p: int| self.txs.owns(p) implies !own1.contains(p) by {
                assert(!(old(self).accounts.spec_owned().contains(p) && old(self).txs.owns(p)));
            }
            assert forall|p: int| self.ts_root.footprint().contains(p) implies !own1.contains(p) by {
                assert(!(old(self).ts_root.footprint().contains(p) && old(self).accounts.spec_owned().contains(p)));
            }
            self.tsb_infos.lemma_untouched(old(file), own1, file, own2);
            self.txs.lemma_untouched(old(file), own1, file, own2);
            self.ts_root.lemma_untouched(old(file), own1, file, own2);
            if found is Err {
                crate::leaves::lemma_same_nodes_reference(
                    &old(self).accounts,
                    old(file),
                    &self.accounts,
                    file,
                );
            }
            assert forall|j: nat|
                j != acc_id && #[trigger] old(self).clear_of(
                    old(file),
                    j,
                    held.tokens.spec_owned(),
                ) implies same_account(old(self), old(file), self, file, j) && self.clear_of(
                file,
                j,
                held.tokens.spec_owned(),
            ) by {
                if found is Err {
                    AccountTree::lemma_rest_leaf_at(
                        &old(self).accounts,
                        old(file),
                        &self.accounts,
                        file,
                        j,
                    );
                }
                assert(self.accounts.spec_leaf_at(file, j) == old(self).accounts.spec_leaf_at(
                    old(file),
                    j,
                ));
                lemma_store_frame(old(self), old(file), self, file, j);
            }
            if found is Err && old(self).accounts.spec_leaf_at(old(file), acc_id as nat) is Ok {
                AccountTree::lemma_rest_leaf_at(
                    &old(self).accounts,
                    old(file),
                    &self.accounts,
                    file,
                    acc_id as nat,
                );
                lemma_store_frame(old(self), old(file), self, file, acc_id as nat);
            }
            if found is Ok {
                lemma_record_bytes(&held, file);
                assert(held.tokens.spec_owned() =~= self.spec_record_bytes(file, acc_id as nat));
                assert(self.holds(file, &held));
                assert(self.spec_record_bytes(file, acc_id as nat).disjoint(self.txs.footprint()));
                assert(self.spec_record_bytes(file, acc_id as nat).disjoint(
                    self.tsb_infos.footprint(),
                ));
            }
        }
        proof {
            if old(self).sound(old(file)) && old(self).holds_only(old(file), acc_id as nat, &held) {
                lemma_anchored_leaf(&old(self).accounts, old(file), acc_id as nat, &held);
                lemma_store_sound(old(self), old(file), self, file, acc_id as nat, &held, found is Ok);
            }
        }
        match found {
            Ok(_) => Ok(()),
            Err(e) => Err(e),
        }
    }

    /// A store into the transaction array leaves the rest of the state as it is.
    pub proof fn lemma_txs_written(&self, before: &TsFile, later: &Self, after: &TsFile)
        requires
            self.wf(before),
            later.ts_root == self.ts_root,
            later.accounts == self.accounts,
            later.tsb_infos == self.tsb_infos,
            later.txs.wf(after),
            after@.len() > 0,
            self.txs.persisted(before) && before@.len() > 0 ==> later.txs.persisted(after),
            later.txs.outside(after) == self.txs.outside(before),
        ensures
            later.wf(after),
            later.ts_root.spec_get(after) == self.ts_root.spec_get(before),
            same_nodes(&self.accounts, before, &later.accounts, after),
            forall|j: nat| later.tsb_infos.spec_get(after, j) == self.tsb_infos.spec_get(before, j),
            crate::reference::coherent(&self.accounts, before) ==> crate::reference::coherent(
                &later.accounts,
                after,
            ),
    {
        let own1 = self.txs.footprint();
        let own2 = later.txs.footprint();
        assert forall|p: int| self.accounts.spec_owned().contains(p) implies !own1.contains(p) by {
            assert(!(self.accounts.spec_owned().contains(p) && self.txs.owns(p)));
        }
        self.accounts.lemma_untouched(before, own1, after, own2);
        assert forall|p: int| self.tsb_infos.owns(p) implies !own1.contains(p) by {
            assert(!(self.tsb_infos.owns(p) && self.txs.owns(p)));
        }
        self.tsb_infos.lemma_untouched(before, own1, after, own2);
        assert forall|p: int| self.ts_root.footprint().contains(p) implies !own1.contains(p) by {
            assert(!(self.ts_root.footprint().contains(p) && self.txs.owns(p)));
        }
        self.ts_root.lemma_untouched(before, own1, after, own2);
        assert forall|p: int| !(later.tsb_infos.owns(p) && later.txs.owns(p)) by {
            if later.tsb_infos.owns(p) {
                assert(!own2.contains(p));
            }
        }
        assert forall|p: int| !(later.accounts.spec_owned().contains(p) && later.txs.owns(p)) by {
            if later.accounts.spec_owned().contains(p) {
                assert(!own2.contains(p));
            }
        }
        assert forall|p: int| !(later.ts_root.footprint().contains(p) && later.txs.owns(p)) by {
            if later.ts_root.footprint().contains(p) {
                assert(!own2.contains(p));
            }
        }
        crate::leaves::lemma_same_nodes_reference(&self.accounts, before, &later.accounts, after);
    }

    /// A store into the bond array leaves the rest of the state as it is.
    pub proof fn lemma_tsb_infos_written(&self, before: &TsFile, later: &Self, after: &TsFile)
        requires
            self.wf(before),
            later.ts_root == self.ts_root,
            later.accounts == self.accounts,
            later.txs == self.txs,
            later.tsb_infos.wf(after),
            after@.len() > 0,
            self.tsb_infos.persisted(before) && before@.len() > 0 ==> later.tsb_infos.persisted(
                after,
            ),
            later.tsb_infos.outside(after) == self.tsb_infos.outside(before),
        ensures
            later.wf(after),
            later.ts_root.spec_get(after) == self.ts_root.spec_get(before),
            same_nodes(&self.accounts, before, &later.accounts, after),
            forall|j: nat| later.txs.spec_get(after, j) == self.txs.spec_get(before, j),
            crate::reference::coherent(&self.accounts, before) ==> crate::reference::coherent(
                &later.accounts,
                after,
            ),
    {
        let own1 = self.tsb_infos.footprint();
        let own2 = later.tsb_infos.footprint();
        assert forall|p: int| self.accounts.spec_owned().contains(p) implies !own1.contains(p) by {
            assert(!(self.accounts.spec_owned().contains(p) && self.tsb_infos.owns(p)));
        }
        self.accounts.lemma_untouched(before, own1, after, own2);
        assert forall|p: int| self.txs.owns(p) implies !own1.contains(p) by {
            assert(!(self.tsb_infos.owns(p) && self.txs.owns(p)));
        }
        self.txs.lemma_untouched(before, own1, after, own2);
        assert forall|p: int| self.ts_root.footprint().contains(p) implies !own1.contains(p) by {
            assert(!(self.ts_root.footprint().contains(p) && self.tsb_infos.owns(p)));
        }
        self.ts_root.lemma_untouched(before, own1, after, own2);
        assert forall|p: int| !(later.tsb_infos.owns(p) && later.txs.owns(p)) by {
            if later.txs.owns(p) {
                assert(!own2.contains(p));
            }
        }
        assert forall|p: int|
            !(later.accounts.spec_owned().contains(p) && later.tsb_infos.owns(p)) by {
            if later.accounts.spec_owned().contains(p) {
                assert(!own2.contains(p));
            }
        }
        assert forall|p: int| !(later.ts_root.footprint().contains(p) && later.tsb_infos.owns(p)) by {
            if later.ts_root.footprint().contains(p) {
                assert(!own2.contains(p));
            }
        }
        crate::leaves::lemma_same_nodes_reference(&self.accounts, before, &later.accounts, after);
    }

    /// Transaction `tx_id` as the ledger keeps it.
    pub fn tx_at(&self, file: &TsFile, tx_id: usize) -> (r: Result<state_tx::Tx, Error>)
        requires
            self.wf(file),
        ensures
            r == self.txs.spec_get(file, tx_id as nat),
    {
        self.txs.get(file, tx_id)
    }

    /// Replaces transaction `tx_id` by `record`. The rest of the state, and
    /// every account that is held, stays as it is.
    pub fn tx_put(&mut self, file: &mut TsFile, tx_id: usize, record: &state_tx::Tx) -> (r: Result<
        (),
        Error,
    >)
        requires
            old(self).wf(old(file)),
        ensures
            r is Ok,
            final(self).wf(final(file)),
            same_counters(old(file), final(file)),
            final(self).ts_root == old(self).ts_root,
            final(self).accounts == old(self).accounts,
            final(self).tsb_infos == old(self).tsb_infos,
            final(self).ts_root.spec_get(final(file)) == old(self).ts_root.spec_get(old(file)),
            same_nodes(&old(self).accounts, old(file), &final(self).accounts, final(file)),
            final(self).txs.spec_get(final(file), tx_id as nat) == Ok::<state_tx::Tx, Error>(
                *record,
            ),
            forall|j: nat|
                j != tx_id ==> final(self).txs.spec_get(final(file), j) == old(self).txs.spec_get(
                    old(file),
                    j,
                ),
            forall|j: nat|
                final(self).tsb_infos.spec_get(final(file), j) == old(self).tsb_infos.spec_get(
                    old(file),
                    j,
                ),
            forall|acc: Account|
                old(self).holds(old(file), &acc) ==> #[trigger] final(self).holds(final(file), &acc),
            forall|acc: Account, j: nat|
                old(self).holds(old(file), &acc) ==> #[trigger] acc.tokens.spec_leaf_at(
                    final(file),
                    j,
                ) == acc.tokens.spec_leaf_at(old(file), j),
            forall|j: nat|
                final(self).accounts.accounts.spec_get(final(file), j)
                    == old(self).accounts.accounts.spec_get(old(file), j),
            forall|acc: Account|
                old(self).holds(old(file), &acc) ==> #[trigger] root_readable(
                    &acc.tokens,
                    final(file),
                ) == root_readable(&acc.tokens, old(file)),
            forall|acc: Account, id: nat| #[trigger]
                old(self).tracks(old(file), id, &acc) ==> final(self).tracks(final(file), id, &acc),
            forall|j: nat| #[trigger]
                old(self).clear_of(old(file), j, old(self).txs.footprint()) ==> same_account(
                    old(self),
                    old(file),
                    final(self),
                    final(file),
                    j,
                ) && final(self).clear_of(final(file), j, final(self).txs.footprint()),
            forall|j: nat, own: Set<int>|
                old(self).clear_of(old(file), j, old(self).txs.footprint()) && #[trigger] old(self).clear_of(old(file), j, own) ==> final(self).clear_of(final(file), j, own),
            old(self).sound(old(file)) ==> final(self).sound(final(file)),
            forall|acc: Account, id: nat|
                old(self).sound(old(file)) && #[trigger] old(self).holds_only(old(file), id, &acc)
                    ==> final(self).holds_only(final(file), id, &acc),
            crate::reference::coherent(&old(self).accounts, old(file)) ==> crate::reference::coherent(
                &final(self).accounts,
                final(file),
            ),
    {
        let ghost before = self.txs;
        let r = self.txs.set(file, tx_id, record);
        proof {
            let own1 = before.footprint();
            let own2 = self.txs.footprint();
            old(self).lemma_txs_written(old(file), self, file);
            assert forall|j: nat| #[trigger]
                old(self).clear_of(old(file), j, own1) implies same_account(
                old(self),
                old(file),
                self,
                file,
                j,
            ) && self.clear_of(file, j, own2) by {
                assert forall|p: int| self.accounts.accounts.owns(p) implies !own1.contains(p) by {
                    assert(self.accounts.accounts.footprint().contains(p));
                    assert(old(self).accounts.spec_owned().contains(p));
                    assert(!(old(self).accounts.spec_owned().contains(p) && old(self).txs.owns(p)));
                }
                self.accounts.accounts.lemma_untouched(old(file), own1, file, own2);
                lemma_other_kept(old(self), old(file), self, file, j, own1, own2);
            }
            assert forall|acc: Account| old(self).holds(old(file), &acc) implies #[trigger] root_readable(
                &acc.tokens,
                file,
            ) == root_readable(&acc.tokens, old(file)) by {
                assert forall|p: int| acc.tokens.spec_owned().contains(p) implies !own1.contains(
                    p,
                ) by {
                    assert(!before.owns(p));
                }
                acc.tokens.lemma_untouched(old(file), own1, file, own2);
            }
            assert forall|p: int| self.accounts.accounts.owns(p) implies !own1.contains(p) by {
                assert(self.accounts.accounts.footprint().contains(p));
                assert(old(self).accounts.spec_owned().contains(p));
                assert(!(old(self).accounts.spec_owned().contains(p) && old(self).txs.owns(p)));
            }
            self.accounts.accounts.lemma_untouched(old(file), own1, file, own2);
            assert forall|acc: Account, j: nat|
                old(self).holds(old(file), &acc) implies #[trigger] acc.tokens.spec_leaf_at(
                file,
                j,
            ) == acc.tokens.spec_leaf_at(old(file), j) by {
                assert forall|p: int| acc.tokens.tokens.owns(p) implies !own1.contains(p) by {
                    assert(acc.tokens.tokens.footprint().contains(p));
                    assert(acc.tokens.spec_owned().contains(p));
                    assert(!before.owns(p));
                }
                acc.tokens.tokens.lemma_untouched(old(file), own1, file, own2);
            }
            assert forall|acc: Account| old(self).holds(old(file), &acc) implies #[trigger] self.holds(
                file,
                &acc,
            ) by {
                assert forall|p: int| acc.tokens.spec_owned().contains(p) implies !own1.contains(
                    p,
                ) by {
                    assert(!before.owns(p));
                }
                assert forall|p: int|
                    self.accounts.spec_owned().contains(p) || self.tsb_infos.owns(p)
                        || self.txs.owns(p) implies own2.contains(p) || old(self).accounts.spec_owned().contains(p) || old(self).tsb_infos.owns(p) || old(self).txs.owns(p) by {}
                old(self).lemma_holds(old(file), own1, self, file, own2, &acc);
            }
        }
        proof {
            if old(self).sound(old(file)) {
                let own1 = before.footprint();
                assert forall|j: nat| #[trigger] same_account(old(self), old(file), self, file, j) by {
                    assert(old(self).lies_apart(old(file), j));
                    assert(old(self).clear_of(old(file), j, own1));
                }
                assert forall|j: nat| #[trigger] self.lies_apart(file, j) by {
                    assert(old(self).lies_apart(old(file), j));
                    assert(old(self).clear_of(old(file), j, own1));
                    assert(same_account(old(self), old(file), self, file, j));
                }
                lemma_sound_written(old(self), old(file), self, file);
                assert forall|acc: Account, id: nat| #[trigger]
                    old(self).holds_only(old(file), id, &acc) implies self.holds_only(
                    file,
                    id,
                    &acc,
                ) by {
                    assert(old(self).tracks(old(file), id, &acc));
                    assert forall|j: nat| j != id implies #[trigger] self.clear_of(
                        file,
                        j,
                        acc.tokens.spec_owned(),
                    ) by {
                        assert(old(self).lies_apart(old(file), j));
                        assert(old(self).clear_of(old(file), j, own1));
                        assert(old(self).clear_of(old(file), j, acc.tokens.spec_owned()));
                    }
                }
            }
        }
        r
    }

    /// Stores the transaction `raw_tx` as transaction `tx_id`, with nothing
    /// matched, locked or charged yet.
    pub fn push_tx(&mut self, file: &mut TsFile, tx_id: usize, raw_tx: tx::Tx) -> (r: Result<
        (),
        Error,
    >)
        requires
            old(self).wf(old(file)),
        ensures
            r is Ok,
            final(self).wf(final(file)),
            same_counters(old(file), final(file)),
            final(self).ts_root == old(self).ts_root,
            final(self).accounts == old(self).accounts,
            final(self).tsb_infos == old(self).tsb_infos,
            final(self).ts_root.spec_get(final(file)) == old(self).ts_root.spec_get(old(file)),
            same_nodes(&old(self).accounts, old(file), &final(self).accounts, final(file)),
            final(self).txs.spec_get(final(file), tx_id as nat) == Ok::<state_tx::Tx, Error>(
                state_tx::Tx::spec_new(raw_tx),
            ),
            forall|j: nat|
                j != tx_id ==> final(self).txs.spec_get(final(file), j) == old(self).txs.spec_get(
                    old(file),
                    j,
                ),
            forall|j: nat|
                final(self).tsb_infos.spec_get(final(file), j) == old(self).tsb_infos.spec_get(
                    old(file),
                    j,
                ),
            old(self).sound(old(file)) ==> final(self).sound(final(file)),
    {
        let record = state_tx::Tx::new(raw_tx);
        self.tx_put(file, tx_id, &record)
    }

    /// The metadata of bond `bond_id`.
    pub fn tsb_info_at(&self, file: &TsFile, bond_id: usize) -> (r: Result<TSBInfo, Error>)
        requires
            self.wf(file),
        ensures
            r == self.tsb_infos.spec_get(file, bond_id as nat),
            r is Ok,
    {
        self.tsb_infos.get(file, bond_id)
    }

    /// Replaces the metadata of bond `bond_id` by `info`. The rest of the
    /// state, and every account that is held, stays as it is.
    pub fn tsb_info_put(&mut self, file: &mut TsFile, bond_id: usize, info: &TSBInfo) -> (r: Result<
        (),
        Error,
    >)
        requires
            old(self).wf(old(file)),
        ensures
            r is Ok,
            final(self).wf(final(file)),
            same_counters(old(file), final(file)),
            final(self).ts_root == old(self).ts_root,
            final(self).accounts == old(self).accounts,
            final(self).txs == old(self).txs,
            final(self).ts_root.spec_get(final(file)) == old(self).ts_root.spec_get(old(file)),
            same_nodes(&old(self).accounts, old(file), &final(self).accounts, final(file)),
            final(self).tsb_infos.spec_get(final(file), bond_id as nat) == Ok::<TSBInfo, Error>(
                *info,
            ),
            forall|j: nat|
                j != bond_id ==> final(self).tsb_infos.spec_get(final(file), j) == old(self).tsb_infos.spec_get(old(file), j),
            forall|j: nat|
                final(self).txs.spec_get(final(file), j) == old(self).txs.spec_get(old(file), j),
            forall|acc: Account|
                old(self).holds(old(file), &acc) ==> #[trigger] final(self).holds(final(file), &acc),
            forall|j: nat| #[trigger]
                old(self).clear_of(old(file), j, old(self).tsb_infos.footprint()) ==> same_account(
                    old(self),
                    old(file),
                    final(self),
                    final(file),
                    j,
                ) && final(self).clear_of(final(file), j, final(self).tsb_infos.footprint()),
            old(self).sound(old(file)) ==> final(self).sound(final(file)),
            crate::reference::coherent(&old(self).accounts, old(file)) ==> crate::reference::coherent(
                &final(self).accounts,
                final(file),
            ),
    {
        let ghost before = self.tsb_infos;
        let r = self.tsb_infos.set(file, bond_id, info);
        proof {
            let own1 = before.footprint();
            let own2 = self.tsb_infos.footprint();
            old(self).lemma_tsb_infos_written(old(file), self, file);
            assert forall|acc: Account| old(self).holds(old(file), &acc) implies #[trigger] self.holds(
                file,
                &acc,
            ) by {
                assert forall|p: int| acc.tokens.spec_owned().contains(p) implies !own1.contains(
                    p,
                ) by {
                    assert(!before.owns(p));
                }
                assert forall|p: int|
                    self.accounts.spec_owned().contains(p) || self.tsb_infos.owns(p)
                        || self.txs.owns(p) implies own2.contains(p) || old(self).accounts.spec_owned().contains(p) || old(self).tsb_infos.owns(p) || old(self).txs.owns(p) by {}
                old(self).lemma_holds(old(file), own1, self, file, own2, &acc);
            }
        }
        proof {
            let own1 = before.footprint();
            let own2 = self.tsb_infos.footprint();
            assert forall|p: int| self.accounts.accounts.owns(p) implies !own1.contains(p) by {
                assert(self.accounts.accounts.footprint().contains(p));
                assert(old(self).accounts.spec_owned().contains(p));
                assert(!(old(self).accounts.spec_owned().contains(p) && old(self).tsb_infos.owns(p)));
            }
            self.accounts.accounts.lemma_untouched(old(file), own1, file, own2);
            assert forall|j: nat| #[trigger]
                old(self).clear_of(old(file), j, own1) implies same_account(
                old(self),
                old(file),
                self,
                file,
                j,
            ) && self.clear_of(file, j, own2) by {
                lemma_other_kept(old(self), old(file), self, file, j, own1, own2);
            }
            if old(self).sound(old(file)) {
                assert forall|j: nat| #[trigger] same_account(old(self), old(file), self, file, j) by {
                    assert(old(self).lies_apart(old(file), j));
                    assert(old(self).clear_of(old(file), j, own1));
                }
                assert forall|j: nat| #[trigger] self.lies_apart(file, j) by {
                    assert(old(self).lies_apart(old(file), j));
                    assert(old(self).clear_of(old(file), j, own1));
                    assert(same_account(old(self), old(file), self, file, j));
                }
                lemma_sound_written(old(self), old(file), self, file);
            }
        }
        r
    }

    /// What a change of one balance of the held account `before`, which
    /// became `after`, leaves of the state: the state is kept, the account is
    /// still held, and its address and nonce are what they were.
    pub open spec fn account_changed(
        &self,
        before_file: &TsFile,
        before: &Account,
        after_file: &TsFile,
        after: &Account,
    ) -> bool {
        &&& self.kept(before_file, after_file)
        &&& self.holds(after_file, after)
        &&& after.l2_addr == before.l2_addr
        &&& after.nonce == before.nonce
        &&& forall|id: nat| #[trigger]
            self.tracks(before_file, id, before) ==> self.tracks(after_file, id, after)
        &&& forall|j: nat| #[trigger]
            self.clear_of(before_file, j, before.tokens.spec_owned()) ==> same_account(
                self,
                before_file,
                self,
                after_file,
                j,
            ) && self.clear_of(after_file, j, after.tokens.spec_owned())
        &&& forall|id: nat| #[trigger]
            self.holds_only(before_file, id, before) && self.sound(before_file) ==> self.sound(
                after_file,
            ) && self.holds_only(after_file, id, after)
    }

    /// A change of one balance of a held account keeps the state.
    pub proof fn lemma_account_changed(
        &self,
        before_file: &TsFile,
        before: &Account,
        after_file: &TsFile,
        after: &Account,
        token_id: u64,
        token: Token,
        r: Result<(), Error>,
    )
        requires
            self.wf(before_file),
            self.holds(before_file, before),
            token_written(&before.tokens, before_file, &after.tokens, after_file, token_id, token, r),
        ensures
            self.kept(before_file, after_file),
            self.holds(after_file, after),
            forall|id: nat| #[trigger]
                self.tracks(before_file, id, before) ==> self.tracks(after_file, id, after),
            forall|j: nat| #[trigger]
                self.clear_of(before_file, j, before.tokens.spec_owned()) ==> same_account(
                    self,
                    before_file,
                    self,
                    after_file,
                    j,
                ) && self.clear_of(after_file, j, after.tokens.spec_owned()),
            forall|id: nat| #[trigger]
                self.holds_only(before_file, id, before) && self.sound(before_file) ==> self.sound(
                    after_file,
                ) && self.holds_only(after_file, id, after),
    {
        let own1 = before.tokens.spec_owned();
        let own2 = after.tokens.spec_owned();
        assert forall|p: int| #[trigger]
            own1.contains(p) implies !self.ts_root.footprint().contains(p)
            && !self.accounts.spec_owned().contains(p) && !self.tsb_infos.owns(p) && !self.txs.owns(
            p,
        ) by {
            lemma_leaf_apart(&self.accounts, before_file, before, p);
        }
        self.lemma_kept(before_file, own1, after_file, own2);
        assert forall|p: int| #[trigger]
            after.tokens.spec_owned().contains(p) implies !self.ts_root.footprint().contains(p)
            && !self.tsb_infos.owns(p) && !self.txs.owns(p) && !self.accounts.spec_owned().contains(
            p,
        ) by {
            assert(own2.contains(p));
        }
        lemma_leaf_ok(&self.accounts, after_file, after);
        assert forall|id: nat| #[trigger] self.tracks(before_file, id, before) implies self.tracks(
            after_file,
            id,
            after,
        ) by {
            lemma_anchors_kept(
                self.accounts.accounts.spec_get(before_file, id)->Ok_0,
                before,
                before_file,
                after,
                after_file,
            );
        }
        assert forall|j: nat| #[trigger]
            self.clear_of(before_file, j, own1) implies same_account(
            self,
            before_file,
            self,
            after_file,
            j,
        ) && self.clear_of(after_file, j, own2) by {
            lemma_other_kept(self, before_file, self, after_file, j, own1, own2);
        }
        self.lemma_sound_changed(before_file, before, after_file, after);
    }

    /// A change of a held account that keeps every account that lies clear of
    /// it keeps the accounts sound.
    pub proof fn lemma_sound_changed(
        &self,
        before_file: &TsFile,
        before: &Account,
        after_file: &TsFile,
        after: &Account,
    )
        requires
            forall|id: nat| #[trigger]
                self.tracks(before_file, id, before) ==> self.tracks(after_file, id, after),
            forall|j: nat| #[trigger]
                self.clear_of(before_file, j, before.tokens.spec_owned()) ==> same_account(
                    self,
                    before_file,
                    self,
                    after_file,
                    j,
                ) && self.clear_of(after_file, j, after.tokens.spec_owned()),
        ensures
            forall|id: nat| #[trigger]
                self.holds_only(before_file, id, before) && self.sound(before_file) ==> self.sound(
                    after_file,
                ) && self.holds_only(after_file, id, after),
    {
        let own1 = before.tokens.spec_owned();
        let own2 = after.tokens.spec_owned();
        assert forall|id: nat| #[trigger]
            self.holds_only(before_file, id, before) && self.sound(before_file) implies self.sound(
            after_file,
        ) && self.holds_only(after_file, id, after) by {
            assert(self.tracks(before_file, id, before));
            assert(self.tracks(after_file, id, after));
            assert forall|j: nat| j != id implies #[trigger] same_account(
                self,
                before_file,
                self,
                after_file,
                j,
            ) by {
                assert(self.clear_of(before_file, j, before.tokens.spec_owned()));
            }
            assert forall|j: nat| j != id implies #[trigger] self.clear_of(
                after_file,
                j,
                after.tokens.spec_owned(),
            ) by {
                assert(self.clear_of(before_file, j, before.tokens.spec_owned()));
            }
            self.lemma_sound_held(before_file, after_file, id, after);
        }
    }

    /// The accounts stay sound where every account but one is what it was
    /// and lies clear of the token tree of the one, which is held.
    pub proof fn lemma_sound_held(&self, before: &TsFile, after: &TsFile, id: nat, acc: &Account)
        requires
            self.sound(before),
            self.tracks(after, id, acc),
            forall|j: nat| j != id ==> #[trigger] same_account(self, before, self, after, j),
            forall|j: nat| j != id ==> #[trigger] self.clear_of(after, j, acc.tokens.spec_owned()),
        ensures
            self.sound(after),
            self.holds_only(after, id, acc),
    {
        lemma_anchored_leaf(&self.accounts, after, id, acc);
        let mine = self.spec_record_bytes(after, id);
        let own = acc.tokens.spec_owned();
        assert forall|p: int| mine.contains(p) implies own.contains(p) by {}
        assert(self.holds(after, acc));
        assert forall|p: int| mine.contains(p) implies !self.txs.footprint().contains(p)
            && !self.tsb_infos.footprint().contains(p) by {
            assert(own.contains(p));
        }
        lemma_sound_kept(self, before, self, after, id, own);
    }


    /// Credits `amt` of token `token_id` to the held account `acc`. The state
    /// is kept and the account is still held.
    pub fn account_income(
        &self,
        file: &mut TsFile,
        acc: &mut Account<'a>,
        token_id: u64,
        amt: Scalar,
    ) -> (r: Result<(), Error>)
        requires
            self.wf(old(file)),
            self.holds(old(file), old(acc)),
        ensures
            self.account_changed(old(file), old(acc), final(file), final(acc)),
            same_counters(old(file), final(file)),
            token_written(
                &old(acc).tokens,
                old(file),
                &final(acc).tokens,
                final(file),
                token_id,
                old(acc).spec_token(old(file), token_id).spec_income(amt),
                r,
            ),
    {
        let r = acc.income(file, token_id, amt);
        proof {
            self.lemma_account_changed(
                old(file),
                old(acc),
                file,
                acc,
                token_id,
                old(acc).spec_token(old(file), token_id).spec_income(amt),
                r,
            );
        }
        r
    }

    /// Debits `amt` of token `token_id` from the held account `acc`. The state
    /// is kept and the account is still held.
    pub fn account_outgo(
        &self,
        file: &mut TsFile,
        acc: &mut Account<'a>,
        token_id: u64,
        amt: Scalar,
    ) -> (r: Result<(), Error>)
        requires
            self.wf(old(file)),
            self.holds(old(file), old(acc)),
        ensures
            self.account_changed(old(file), old(acc), final(file), final(acc)),
            same_counters(old(file), final(file)),
            token_written(
                &old(acc).tokens,
                old(file),
                &final(acc).tokens,
                final(file),
                token_id,
                old(acc).spec_token(old(file), token_id).spec_outgo(amt),
                r,
            ),
    {
        let r = acc.outgo(file, token_id, amt);
        proof {
            self.lemma_account_changed(
                old(file),
                old(acc),
                file,
                acc,
                token_id,
                old(acc).spec_token(old(file), token_id).spec_outgo(amt),
                r,
            );
        }
        r
    }

    /// Locks `amt` of token `token_id` of the held account `acc`. The state
    /// is kept and the account is still held.
    pub fn account_lock(
        &self,
        file: &mut TsFile,
        acc: &mut Account<'a>,
        token_id: u64,
        amt: Scalar,
    ) -> (r: Result<(), Error>)
        requires
            self.wf(old(file)),
            self.holds(old(file), old(acc)),
        ensures
            self.account_changed(old(file), old(acc), final(file), final(acc)),
            same_counters(old(file), final(file)),
            token_written(
                &old(acc).tokens,
                old(file),
                &final(acc).tokens,
                final(file),
                token_id,
                old(acc).spec_token(old(file), token_id).spec_lock(amt),
                r,
            ),
    {
        let r = acc.lock(file, token_id, amt);
        proof {
            self.lemma_account_changed(
                old(file),
                old(acc),
                file,
                acc,
                token_id,
                old(acc).spec_token(old(file), token_id).spec_lock(amt),
                r,
            );
        }
        r
    }

    /// Unlocks `amt` of token `token_id` of the held account `acc`. The state
    /// is kept and the account is still held.
    pub fn account_unlock(
        &self,
        file: &mut TsFile,
        acc: &mut Account<'a>,
        token_id: u64,
        amt: Scalar,
    ) -> (r: Result<(), Error>)
        requires
            self.wf(old(file)),
            self.holds(old(file), old(acc)),
        ensures
            self.account_changed(old(file), old(acc), final(file), final(acc)),
            same_counters(old(file), final(file)),
            token_written(
                &old(acc).tokens,
                old(file),
                &final(acc).tokens,
                final(file),
                token_id,
                old(acc).spec_token(old(file), token_id).spec_unlock(amt),
                r,
            ),
    {
        let r = acc.unlock(file, token_id, amt);
        proof {
            self.lemma_account_changed(
                old(file),
                old(acc),
                file,
                acc,
                token_id,
                old(acc).spec_token(old(file), token_id).spec_unlock(amt),
                r,
            );
        }
        r
    }

    /// Takes `amt` of token `token_id` from what is locked of the held account `acc`. The state
    /// is kept and the account is still held.
    pub fn account_deduct(
        &self,
        file: &mut TsFile,
        acc: &mut Account<'a>,
        token_id: u64,
        amt: Scalar,
    ) -> (r: Result<(), Error>)
        requires
            self.wf(old(file)),
            self.holds(old(file), old(acc)),
        ensures
            self.account_changed(old(file), old(acc), final(file), final(acc)),
            same_counters(old(file), final(file)),
            token_written(
                &old(acc).tokens,
                old(file),
                &final(acc).tokens,
                final(file),
                token_id,
                old(acc).spec_token(old(file), token_id).spec_deduct(amt),
                r,
            ),
    {
        let r = acc.deduct(file, token_id, amt);
        proof {
            self.lemma_account_changed(
                old(file),
                old(acc),
                file,
                acc,
                token_id,
                old(acc).spec_token(old(file), token_id).spec_deduct(amt),
                r,
            );
        }
        r
    }
}

/// The blocks of the four collections of the state that the arena `s`
/// holds at the fixed places: the nodes of the account tree, the accounts,
/// the bond metadata and the transactions; or why the arena holds no state:
/// what keeps the account tree from loading, a broken chain, or two
/// collections that share a byte.
pub open spec fn spec_state_arrays(s: Seq<u8>, account_height: nat, token_height: nat) -> Result<
    (Seq<usize>, Seq<usize>, Seq<usize>, Seq<usize>),
    Error,
> {
    match spec_account_arrays(
        s,
        account_height,
        token_height,
        ACCOUNT_NODES_HEAD as nat,
        ACCOUNTS_HEAD as nat,
    ) {
        Err(e) => Err(e),
        Ok((n, a)) => match (
            spec_blocks(s, 64, TSB_INFOS_HEAD as nat),
            spec_blocks(s, 512, TXS_HEAD as nat),
        ) {
            (Some(b), Some(t)) => if chains_share(n, 32, b, 64) || chains_share(n, 32, t, 512)
                || chains_share(a, 176, b, 64) || chains_share(a, 176, t, 512) || chains_share(
                b,
                64,
                t,
                512,
            ) {
                Err(Error::CorruptLayout)
            } else {
                Ok((n, a, b, t))
            },
            _ => Err(Error::CorruptLayout),
        },
    }
}

impl TsFile {
    /// The state that the arena holds: the global root scalar, the account
    /// tree, the bond metadata and the transactions, each found from its
    /// fixed place and checked to lie apart from the others.
    pub fn to_state<'a>(&self, hasher: &'a Poseidon, account_height: usize, token_height: usize) -> (r:
        Result<State<'a>, Error>)
        ensures
            match spec_state_arrays(self@, account_height as nat, token_height as nat) {
                Ok((n, a, b, t)) => r is Ok && r->Ok_0.accounts.nodes.blocks() == n
                    && r->Ok_0.accounts.accounts.blocks() == a && r->Ok_0.tsb_infos.blocks() == b
                    && r->Ok_0.txs.blocks() == t,
                Err(e) => r is Err && r->Err_0 == e,
            },
            r is Ok ==> ({
                let s = r->Ok_0;
                &&& s.wf(self)
                &&& s.ts_root.index == TS_ROOT_INDEX
                &&& s.accounts.hasher == hasher
                &&& s.accounts.height == account_height
                &&& s.accounts.token_height == token_height
                &&& s.accounts.actual_level == spec_frontier(s.accounts.accounts.blocks().len())
                &&& s.accounts.nodes.spec_head() == ACCOUNT_NODES_HEAD
                &&& s.accounts.accounts.spec_head() == ACCOUNTS_HEAD
                &&& s.tsb_infos.spec_head() == TSB_INFOS_HEAD
                &&& s.txs.spec_head() == TXS_HEAD
            }),
    {
        let ts_root = Value::load(self, TS_ROOT_INDEX)?;
        let accounts = AccountTree::load(
            self,
            hasher,
            account_height,
            token_height,
            ACCOUNT_NODES_HEAD,
            ACCOUNTS_HEAD,
        )?;
        let tsb_infos: Array<TSBInfoPtr> = match Array::load(self, TSB_INFOS_HEAD) {
            Ok(a) => a,
            Err(_) => {
                return Err(Error::CorruptLayout);
            },
        };
        let txs: Array<TxPtr> = match Array::load(self, TXS_HEAD) {
            Ok(a) => a,
            Err(_) => {
                return Err(Error::CorruptLayout);
            },
        };
        proof {
            accounts.nodes.lemma_disjoint_chains(&tsb_infos);
            accounts.nodes.lemma_disjoint_chains(&txs);
            accounts.accounts.lemma_disjoint_chains(&tsb_infos);
            accounts.accounts.lemma_disjoint_chains(&txs);
            tsb_infos.lemma_disjoint_chains(&txs);
        }
        let apart: bool = accounts.nodes.disjoint_from(&tsb_infos, self)
            && accounts.nodes.disjoint_from(&txs, self) && accounts.accounts.disjoint_from(
            &tsb_infos,
            self,
        ) && accounts.accounts.disjoint_from(&txs, self) && tsb_infos.disjoint_from(&txs, self);
        if !apart {
            return Err(Error::CorruptLayout);
        }
        proof {
            accounts.nodes.lemma_above_head(self);
            accounts.accounts.lemma_above_head(self);
            tsb_infos.lemma_above_head(self);
            txs.lemma_above_head(self);
            assert forall|p: int|
                !(accounts.spec_owned().contains(p) && tsb_infos.owns(p)) by {
                assert(accounts.nodes.footprint().contains(p) == accounts.nodes.owns(p));
                assert(accounts.accounts.footprint().contains(p) == accounts.accounts.owns(p));
            }
            assert forall|p: int| !(accounts.spec_owned().contains(p) && txs.owns(p)) by {
                assert(accounts.nodes.footprint().contains(p) == accounts.nodes.owns(p));
                assert(accounts.accounts.footprint().contains(p) == accounts.accounts.owns(p));
            }
            assert forall|p: int|
                !(ts_root.footprint().contains(p) && accounts.spec_owned().contains(p)) by {
                assert(accounts.nodes.footprint().contains(p) == accounts.nodes.owns(p));
                assert(accounts.accounts.footprint().contains(p) == accounts.accounts.owns(p));
            }
        }
        Ok(State { ts_root, accounts, tsb_infos, txs })
    }
}

} // verus!
