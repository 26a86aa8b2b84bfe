//! What holds of the engine and of the array across calls.

use vstd::prelude::*;
use vstd::arithmetic::power2::pow2;
use crate::array::{Array, ElemPtr};
use crate::error::Error;
use crate::acc_ptr::{AccPtr, AccountRecord};
use crate::account::spec_account_load;
use crate::array::{block_of, spec_blocks};
use crate::file::{TsFile, HEADER_SIZE};
use crate::rules::{
    account_is, balances, next_nonce, record, stepped, transfer_done, with_balance,
};
use crate::state::{same_account, State};
use crate::tx::TxTransfer;
use crate::scalar::{modulus, Scalar};
use crate::token::Token;
use crate::leaves::MerkleTreeWithLeaves;
use crate::merkle::{
    fold_path, leaf_depth, node_at, root_readable, same_shape, spec_path, spec_root, update_post,
    MerkleNodes, MerkleUpdatePrf,
};
use crate::reference::{coherent, lemma_root_is_reference, lemma_subtree_frame, reference_root, shaped};

verus! {

/// An update leaves the tree in shape.
pub proof fn lemma_update_shaped<T: MerkleNodes>(
    a: &T,
    fa: &TsFile,
    b: &T,
    fb: &TsFile,
    leaf_id: nat,
    node: T::Node,
    r: Result<MerkleUpdatePrf<T::Node>, Error>,
)
    requires
        shaped(a),
        update_post(a, fa, b, fb, leaf_id, node, r),
    ensures
        shaped(b),
{
    assert forall|i: int| 1 <= i < b.spec_level() implies #[trigger] b.spec_default_proof()[i]
        == b.spec_hash(b.spec_default_proof()[i - 1], b.spec_default_proof()[i - 1]) by {
        assert(a.spec_default_proof()[i] == a.spec_hash(
            a.spec_default_proof()[i - 1],
            a.spec_default_proof()[i - 1],
        ));
    }
    if r is Ok {
        crate::index::lemma_floor_log2_below(leaf_id, a.spec_level());
    }
}

/// The engine's root is the root of the complete tree over all `2^H` leaf
/// digests, where the store is coherent.
pub proof fn law_reference_equivalence<T: MerkleNodes>(t: &T, file: &TsFile)
    requires
        shaped(t),
        coherent(t, file),
    ensures
        root_readable(t, file),
        spec_root(t, file) == reference_root(t, file),
{
    lemma_root_is_reference(t, file);
}

/// The leaf digests after the first `k` of the writes `writes` to a tree
/// that held `t`'s.
pub open spec fn leaf_after<T: MerkleNodes>(
    t: &T,
    file: &TsFile,
    writes: Seq<(nat, T::Node)>,
    k: nat,
    i: nat,
) -> T::Node
    decreases k,
{
    if k == 0 {
        node_at(t, file, 0, i)
    } else if writes[k - 1].0 == i {
        writes[k - 1].1
    } else {
        leaf_after(t, file, writes, (k - 1) as nat, i)
    }
}

/// Whether `trees` are the states that the updates `writes` lead through,
/// each update having succeeded with the result in `results`.
pub open spec fn replay<T: MerkleNodes>(
    trees: Seq<(T, TsFile)>,
    writes: Seq<(nat, T::Node)>,
    results: Seq<Result<MerkleUpdatePrf<T::Node>, Error>>,
) -> bool {
    &&& trees.len() == writes.len() + 1
    &&& results.len() == writes.len()
    &&& forall|k: int|
        0 <= k < writes.len() ==> (#[trigger] results[k]) is Ok && update_post(
            &trees[k].0,
            &trees[k].1,
            &trees[k + 1].0,
            &trees[k + 1].1,
            writes[k].0,
            writes[k].1,
            results[k],
        )
}

/// Replaying any sequence of successful leaf writes on a coherent store
/// leaves a coherent store whose leaf digests are the first ones overridden
/// by the writes, whose frontier is no lower than any frontier before, and
/// whose root is the root of the complete tree over those leaf digests.
pub proof fn law_replay<T: MerkleNodes>(
    trees: Seq<(T, TsFile)>,
    writes: Seq<(nat, T::Node)>,
    results: Seq<Result<MerkleUpdatePrf<T::Node>, Error>>,
    k: nat,
)
    requires
        replay(trees, writes, results),
        shaped(&trees[0].0),
        coherent(&trees[0].0, &trees[0].1),
        k <= writes.len(),
    ensures
        shaped(&trees[k as int].0),
        same_shape(&trees[k as int].0, &trees[0].0),
        coherent(&trees[k as int].0, &trees[k as int].1),
        forall|i: nat|
            node_at(&trees[k as int].0, &trees[k as int].1, 0, i) == leaf_after(
                &trees[0].0,
                &trees[0].1,
                writes,
                k,
                i,
            ),
        forall|m: int|
            0 <= m <= k ==> (#[trigger] trees[m]).0.spec_actual_level()
                <= trees[k as int].0.spec_actual_level(),
        spec_root(&trees[k as int].0, &trees[k as int].1) == reference_root(
            &trees[k as int].0,
            &trees[k as int].1,
        ),
    decreases k,
{
    if k > 0 {
        let j = (k - 1) as int;
        law_replay(trees, writes, results, (k - 1) as nat);
        assert(results[j] is Ok);
        let a = &trees[j].0;
        let b = &trees[k as int].0;
        lemma_update_shaped(
            a,
            &trees[j].1,
            b,
            &trees[k as int].1,
            writes[j].0,
            writes[j].1,
            results[j],
        );
        assert forall|m: int| 0 <= m <= k implies (#[trigger] trees[m]).0.spec_actual_level()
            <= trees[k as int].0.spec_actual_level() by {
            if m < k {
                assert(trees[m].0.spec_actual_level() <= trees[j].0.spec_actual_level());
            }
        }
    }
    lemma_root_is_reference(&trees[k as int].0, &trees[k as int].1);
}

/// Right after a successful update of a coherent store, the returned
/// sibling path folds with the new leaf digest to the new root and with the
/// old leaf digest to the old root.
pub proof fn law_proof_soundness<T: MerkleNodes>(
    a: &T,
    fa: &TsFile,
    b: &T,
    fb: &TsFile,
    leaf_id: nat,
    node: T::Node,
    r: Result<MerkleUpdatePrf<T::Node>, Error>,
)
    requires
        coherent(a, fa),
        update_post(a, fa, b, fb, leaf_id, node, r),
        r is Ok,
    ensures
        fold_path(b, r->Ok_0.new_leaf_node, leaf_id, r->Ok_0.proof@) == r->Ok_0.new_root,
        fold_path(b, r->Ok_0.ori_leaf_node, leaf_id, r->Ok_0.proof@) == r->Ok_0.ori_root,
{
}

/// In a coherent store, the sibling path of a leaf inside the frontier
/// folds with the digest of the leaf to the root: what a membership check
/// returns proves the leaf against the root.
pub proof fn law_membership_fold<T: MerkleNodes>(t: &T, file: &TsFile, leaf_id: nat)
    requires
        shaped(t),
        coherent(t, file),
        leaf_id < vstd::arithmetic::power2::pow2(t.spec_actual_level()),
    ensures
        fold_path(t, node_at(t, file, 0, leaf_id), leaf_id, spec_path(t, file, leaf_id))
            == spec_root(t, file),
{
    let path = spec_path(t, file, leaf_id);
    let l = t.spec_actual_level();
    let h = t.spec_level();
    vstd::arithmetic::power2::lemma2_to64();
    assert forall|m: int| 0 <= m < path.len() implies #[trigger] path[m] == crate::reference::subtree(
        t,
        file,
        m as nat,
        crate::merkle::sibling(crate::merkle::ancestor(leaf_id, m as nat)),
    ) by {
        if m < l {
            crate::reference::lemma_path_inside(leaf_id, m as nat, l);
            crate::reference::lemma_inside_is_subtree(
                t,
                file,
                m as nat,
                crate::merkle::sibling(crate::merkle::ancestor(leaf_id, m as nat)),
            );
        } else {
            if l < m {
                vstd::arithmetic::power2::lemma_pow2_strictly_increases(l, m as nat);
            }
            crate::merkle::lemma_ancestor_zero(leaf_id, m as nat);
            if m == l {
                assert(vstd::arithmetic::power2::pow2(0) == 1);
            }
            assert(!crate::reference::inside(l, m as nat, 1));
            crate::reference::lemma_outside_is_default(t, file, m as nat, 1);
        }
    }
    crate::reference::lemma_fold_reference(t, file, leaf_id, path);
    if l < h {
        vstd::arithmetic::power2::lemma_pow2_strictly_increases(l, h);
    }
    crate::merkle::lemma_ancestor_zero(leaf_id, h);
    crate::reference::lemma_root_is_reference(t, file);
}

/// Crediting an amount to a balance and debiting it again leaves what was
/// available, and so does debiting it first and crediting it after; what is
/// locked stays in both.
pub proof fn law_credit_debit(t: Token, amt: Scalar)
    requires
        t.avl_amt@ < modulus(),
        amt@ < modulus(),
    ensures
        t.spec_income(amt).spec_outgo(amt).avl_amt@ == t.avl_amt@,
        t.spec_outgo(amt).spec_income(amt).avl_amt@ == t.avl_amt@,
        t.spec_income(amt).spec_outgo(amt).locked_amt == t.locked_amt,
        t.spec_outgo(amt).spec_income(amt).locked_amt == t.locked_amt,
{
    let p = modulus() as int;
    let a = t.avl_amt@ as int;
    let m = amt@ as int;
    let up = (a + m) % p;
    let down = (a - m) % p;
    if a + m < p {
        vstd::arithmetic::div_mod::lemma_fundamental_div_mod_converse(a + m, p, 0, a + m);
    } else {
        vstd::arithmetic::div_mod::lemma_fundamental_div_mod_converse(a + m, p, 1, a + m - p);
    }
    if a >= m {
        vstd::arithmetic::div_mod::lemma_fundamental_div_mod_converse(a - m, p, 0, a - m);
    } else {
        vstd::arithmetic::div_mod::lemma_fundamental_div_mod_converse(a - m, p, -1, a - m + p);
    }
    Scalar::lemma_spec_new_view(up as nat);
    Scalar::lemma_spec_new_view(down as nat);
    if up - m >= 0 {
        vstd::arithmetic::div_mod::lemma_fundamental_div_mod_converse(up - m, p, 0, a);
    } else {
        vstd::arithmetic::div_mod::lemma_fundamental_div_mod_converse(up - m, p, -1, a);
    }
    if down + m < p {
        vstd::arithmetic::div_mod::lemma_fundamental_div_mod_converse(down + m, p, 0, a);
    } else {
        vstd::arithmetic::div_mod::lemma_fundamental_div_mod_converse(down + m, p, 1, a);
    }
    Scalar::lemma_spec_new_view(a as nat);
}

/// The accounts of a state over an arena that is zero behind its header are
/// sound: no account names a token tree yet. Such is the state of a medium
/// that was just formatted.
pub proof fn law_fresh_sound(s: &State, file: &TsFile)
    requires
        s.wf(file),
        s.accounts.accounts.spec_head() >= HEADER_SIZE,
        forall|p: int| HEADER_SIZE <= p < file@.len() ==> file@[p] == 0,
    ensures
        s.sound(file),
{
    let rec = AccountRecord::spec_default();
    let records = &s.accounts.accounts;
    records.lemma_above_head(file);
    assert forall|j: nat| #[trigger] s.spec_record_bytes(file, j) =~= Set::<int>::empty()
        && s.accounts.spec_leaf_at(file, j) is Ok by {
        if records.slot_offset(j) is Some {
            let off = records.slot_offset(j)->0;
            records.lemma_slot_inside(file, j);
            let k = block_of(j) as int;
            assert(records.owns(records.blocks()[k] as int)) by {
                records.lemma_owns_block(k, records.blocks()[k] as int);
            }
            assert(crate::file::window(file@, off, 176) =~= crate::bytes::repeat(0u8, 176));
            AccPtr::lemma_default();
        }
        assert(records.spec_get(file, j) == Ok::<AccountRecord, Error>(rec));
        assert(spec_blocks(file@, 32, 0) == Some(Seq::<usize>::empty()));
        assert(spec_blocks(file@, 64, 0) == Some(Seq::<usize>::empty()));
        assert(spec_account_load(file@, s.accounts.token_height as nat, s.accounts.spec_owned(), rec) is Ok);
    }
    assert forall|j: nat| #[trigger] s.lies_apart(file, j) by {
        assert(s.spec_record_bytes(file, j) =~= Set::<int>::empty());
    }
    assert forall|i: nat, j: nat| i != j implies #[trigger] s.spec_record_bytes(file, i).disjoint(
        s.spec_record_bytes(file, j),
    ) by {
        assert(s.spec_record_bytes(file, i) =~= Set::<int>::empty());
    }
}

/// In a state whose accounts are sound, a transfer between two accounts
/// that succeeds debits the sender, whose nonce rises, credits the receiver,
/// and leaves every other account as it was; and the accounts are sound
/// after it.
pub proof fn law_transfer(a: &State, fa: &TsFile, b: &State, fb: &TsFile, t: TxTransfer)
    requires
        a.sound(fa),
        t.sender_id != t.receiver_id,
        stepped(a, fa, b, fb),
        transfer_done(a, fa, b, fb, t),
    ensures
        b.sound(fb),
        account_is(
            b,
            fb,
            t.sender_id,
            record(a, fa, t.sender_id).l2_addr,
            next_nonce(record(a, fa, t.sender_id).nonce),
            with_balance(
                balances(a, fa, t.sender_id),
                t.transfer_token_id,
                a.spec_balance(fa, t.sender_id as nat, t.transfer_token_id as nat).spec_outgo(
                    t.transfer_amt,
                ),
            ),
        ),
        account_is(
            b,
            fb,
            t.receiver_id,
            record(a, fa, t.receiver_id).l2_addr,
            record(a, fa, t.receiver_id).nonce,
            with_balance(
                balances(a, fa, t.receiver_id),
                t.transfer_token_id,
                a.spec_balance(fa, t.receiver_id as nat, t.transfer_token_id as nat).spec_income(
                    t.transfer_amt,
                ),
            ),
        ),
        forall|j: nat|
            j != t.sender_id && j != t.receiver_id ==> #[trigger] same_account(a, fa, b, fb, j),
{
    let s = t.sender_id as nat;
    let r = t.receiver_id as nat;
    assert(a.lies_apart(fa, s));
    assert(a.lies_apart(fa, r));
    assert(a.spec_record_bytes(fa, r).disjoint(a.spec_record_bytes(fa, s)));
    assert(a.apart(fa, s, r));
    assert forall|j: nat| j != s && j != r implies #[trigger] same_account(a, fa, b, fb, j) by {
        assert(a.lies_apart(fa, j));
        assert(a.spec_record_bytes(fa, j).disjoint(a.spec_record_bytes(fa, s)));
        assert(a.spec_record_bytes(fa, j).disjoint(a.spec_record_bytes(fa, r)));
        assert(a.apart(fa, s, j));
        assert(a.apart(fa, r, j));
    }
}

/// Writing the same digest to the same leaf a second time succeeds, leaves
/// frontier and root as they are, and returns a record whose old and new
/// root, and old and new leaf digest, are the same.
pub proof fn law_idempotence<T: MerkleNodes>(
    a: &T,
    fa: &TsFile,
    b: &T,
    fb: &TsFile,
    c: &T,
    fc: &TsFile,
    leaf_id: nat,
    node: T::Node,
    first: Result<MerkleUpdatePrf<T::Node>, Error>,
    second: Result<MerkleUpdatePrf<T::Node>, Error>,
)
    requires
        shaped(a),
        coherent(a, fa),
        update_post(a, fa, b, fb, leaf_id, node, first),
        first is Ok,
        update_post(b, fb, c, fc, leaf_id, node, second),
    ensures
        second is Ok,
        c.spec_actual_level() == b.spec_actual_level(),
        spec_root(c, fc) == spec_root(b, fb),
        second->Ok_0.ori_root == second->Ok_0.new_root,
        second->Ok_0.ori_leaf_node == second->Ok_0.new_leaf_node,
{
    lemma_update_shaped(a, fa, b, fb, leaf_id, node, first);
    lemma_root_is_reference(b, fb);
    assert(node_at(b, fb, 0, leaf_id) == node);
    lemma_subtree_frame(c, fc, b, fb, b.spec_level(), 0);
}

/// The frontier never falls in an update, whatever the update returns.
pub proof fn law_monotonicity<T: MerkleNodes>(
    a: &T,
    fa: &TsFile,
    b: &T,
    fb: &TsFile,
    leaf_id: nat,
    node: T::Node,
    r: Result<MerkleUpdatePrf<T::Node>, Error>,
)
    requires
        update_post(a, fa, b, fb, leaf_id, node, r),
    ensures
        b.spec_actual_level() >= a.spec_actual_level(),
{
}

/// Reading an index right after storing at it gives what was stored.
pub proof fn law_array_round_trip<Ptr: ElemPtr>(
    before: &Array<Ptr>,
    before_file: &TsFile,
    after: &Array<Ptr>,
    after_file: &TsFile,
    index: nat,
    elem: Ptr::Elem,
)
    requires
        Array::<Ptr>::set_post(before, before_file, after, after_file, index, elem),
    ensures
        after.spec_get(after_file, index) == Ok::<Ptr::Elem, Error>(elem),
{
}

/// Whether `arrays` are the states that the stores `writes` lead through.
pub open spec fn stores<Ptr: ElemPtr>(
    arrays: Seq<(Array<Ptr>, TsFile)>,
    writes: Seq<(nat, Ptr::Elem)>,
) -> bool {
    &&& arrays.len() == writes.len() + 1
    &&& forall|k: int|
        0 <= k < writes.len() ==> Array::<Ptr>::set_post(
            &(#[trigger] arrays[k]).0,
            &arrays[k].1,
            &arrays[k + 1].0,
            &arrays[k + 1].1,
            writes[k].0,
            writes[k].1,
        )
}

/// What an array that held `first` holds at index `i` after the first `k` of
/// the stores `writes`.
pub open spec fn held_after<Ptr: ElemPtr>(
    first: Result<Ptr::Elem, Error>,
    writes: Seq<(nat, Ptr::Elem)>,
    k: nat,
    i: nat,
) -> Result<Ptr::Elem, Error>
    decreases k,
{
    if k == 0 {
        first
    } else if writes[k - 1].0 == i {
        Ok(writes[k - 1].1)
    } else {
        held_after::<Ptr>(first, writes, (k - 1) as nat, i)
    }
}

/// After any sequence of stores an array holds at every index what was
/// stored there last, and what it held before where nothing was stored. An
/// array that started empty therefore holds the default at every index that
/// was never written.
pub proof fn law_array_replay<Ptr: ElemPtr>(
    arrays: Seq<(Array<Ptr>, TsFile)>,
    writes: Seq<(nat, Ptr::Elem)>,
    k: nat,
    i: nat,
)
    requires
        stores(arrays, writes),
        k <= writes.len(),
    ensures
        arrays[k as int].0.spec_get(&arrays[k as int].1, i) == held_after::<Ptr>(
            arrays[0].0.spec_get(&arrays[0].1, i),
            writes,
            k,
            i,
        ),
        arrays[0].0.blocks().len() == 0 && (forall|j: int| 0 <= j < k ==> writes[j].0 != i)
            ==> arrays[k as int].0.spec_get(&arrays[k as int].1, i) == Ok::<Ptr::Elem, Error>(
            Ptr::spec_default(),
        ),
    decreases k,
{
    if k > 0 {
        law_array_replay(arrays, writes, (k - 1) as nat, i);
        let j = (k - 1) as int;
        assert(Array::<Ptr>::set_post(
            &arrays[j].0,
            &arrays[j].1,
            &arrays[j + 1].0,
            &arrays[j + 1].1,
            writes[j].0,
            writes[j].1,
        ));
    }
}

/// The place of the record of any index that has one is never changed by a
/// later store, at whatever index.
pub proof fn law_no_relocation<Ptr: ElemPtr>(
    arrays: Seq<(Array<Ptr>, TsFile)>,
    writes: Seq<(nat, Ptr::Elem)>,
    from: nat,
    to: nat,
    i: nat,
)
    requires
        stores(arrays, writes),
        from <= to <= writes.len(),
        arrays[from as int].0.slot_offset(i) is Some,
    ensures
        arrays[to as int].0.slot_offset(i) == arrays[from as int].0.slot_offset(i),
    decreases to - from,
{
    if from < to {
        law_no_relocation(arrays, writes, from, (to - 1) as nat, i);
        let j = (to - 1) as int;
        assert(Array::<Ptr>::set_post(
            &arrays[j].0,
            &arrays[j].1,
            &arrays[j + 1].0,
            &arrays[j + 1].1,
            writes[j].0,
            writes[j].1,
        ));
    }
}

} // verus!
