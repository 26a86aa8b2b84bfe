//! The rules by which one transaction changes the ledger state.

use vstd::prelude::*;
use crate::acc_ptr::AccountRecord;
use crate::account::Account;
use crate::error::Error;
use crate::file::TsFile;
use crate::mechanism::{_1fixed, calc_days, fadd, fmul, fsub, spec_calc_days, DAY, ONE_FIXED};
use crate::leaves::MerkleTreeWithLeaves;
use crate::merkle::MerkleNodes;
use crate::primary_market;
use crate::scalar::{modulus, Scalar};
use crate::secondary_market;
use crate::state::{same_account, State};
use crate::state_tx;
use crate::token::Token;
use crate::tsb_info::TSBInfo;
use crate::tx::{
    Tx, TxAdminCancel, TxAucBorrow, TxAucEnd, TxAucLend, TxAucMatch, TxCreateTsbBondToken, TxDeposit,
    TxEvacuation, TxForcedWithdraw, TxRedeem, TxRegister, TxSecLimitEnd, TxSecLimitExchange,
    TxSecLimitOrder, TxSecMarketEnd, TxSecMarketExchange, TxSecMarketOrder, TxTransfer,
    TxUserCancel, TxWithdraw,
};
use crate::tx_ptr::{flatten, spec_flatten};

verus! {

/// The tag of the start of an auction match.
pub const TAG_AUC_START: u64 = 8;

/// The tag of one match of an auction.
pub const TAG_AUC_MATCH: u64 = 9;

/// The tag of the end of an auction match.
pub const TAG_AUC_END: u64 = 10;

/// The tag of the start of a limit match.
pub const TAG_SEC_LIMIT_START: u64 = 12;

/// The tag of one exchange of a limit match.
pub const TAG_SEC_LIMIT_EXCHANGE: u64 = 13;

/// The tag of the end of a limit match.
pub const TAG_SEC_LIMIT_END: u64 = 14;

/// The tag of a market order.
pub const TAG_SEC_MARKET_ORDER: u64 = 15;

/// The tag of one exchange of a market match.
pub const TAG_SEC_MARKET_EXCHANGE: u64 = 16;

/// The tag of the end of a market match.
pub const TAG_SEC_MARKET_END: u64 = 17;

/// The larger of the two values.
pub open spec fn spec_max(a: nat, b: nat) -> nat {
    if a > b {
        a
    } else {
        b
    }
}

/// The larger of the two elements.
pub fn max(a: Scalar, b: Scalar) -> (r: Scalar)
    ensures
        r@ == spec_max(a@, b@),
        r == a || r == b,
{
    if a.gt(&b) {
        a
    } else {
        b
    }
}

/// The smaller of the two elements; the second where they are equal.
pub fn min(a: Scalar, b: Scalar) -> (r: Scalar)
    ensures
        r@ == primary_market::spec_min(b@, a@),
        r == a || r == b,
{
    if a.lt(&b) {
        a
    } else {
        b
    }
}

/// The days from `start` to `end`, or `InvalidTxType` where the start lies
/// behind the end by a day or more.
pub fn days_between(start: Scalar, end: Scalar) -> (r: Result<Scalar, Error>)
    ensures
        start@ <= end@ + DAY - 1 ==> r is Ok && r->Ok_0@ == spec_calc_days(start@, end@),
        start@ > end@ + DAY - 1 ==> r == Err::<Scalar, Error>(Error::InvalidTxType),
{
    start.check_reduced();
    end.check_reduced();
    if end.lt(&start) {
        let behind: Scalar = start.sub(&end);
        proof {
            vstd::arithmetic::div_mod::lemma_small_mod((start@ - end@) as nat, modulus());
        }
        if behind.gt(&Scalar::from_u64(DAY - 1)) {
            return Err(Error::InvalidTxType);
        }
    }
    Ok(calc_days(start, end))
}

/// What a charge leaves of an order: its credit, the fees it has run up,
/// and what is charged now.
pub struct Charge {
    pub credit: nat,
    pub cum_fee: nat,
    pub charged: nat,
}

/// The charge on an order with the credit `credit` and the fees `cum_fee`,
/// once its credit has been raised to `new_credit` and the fee `expected`
/// has come on top: what the credit rose by, and what of the fees now
/// exceeds the credit, though no more than the fee that came.
pub open spec fn spec_charge(credit: nat, cum_fee: nat, expected: nat, new_credit: nat) -> Charge {
    let rise = fsub(new_credit, credit);
    let due = if new_credit > credit {
        rise
    } else {
        0
    };
    let charged_credit = if rise < due {
        rise
    } else {
        due
    };
    let fees = fadd(cum_fee, expected);
    let over = if fees > new_credit {
        fsub(fees, new_credit)
    } else {
        0
    };
    let charged_fee = if over < expected {
        over
    } else {
        expected
    };
    Charge { credit: new_credit, cum_fee: fees, charged: fadd(charged_fee, charged_credit) }
}

/// Charges the fee `expected` to `order`, whose credit becomes `new_credit`.
fn charge(order: &mut state_tx::Tx, expected: Scalar, new_credit: Scalar) -> (r: Scalar)
    ensures
        r@ == spec_charge(old(order).credit_amt@, old(order).cum_fee_amt@, expected@, new_credit@).charged,
        final(order).credit_amt == new_credit,
        final(order).cum_fee_amt@ == fadd(old(order).cum_fee_amt@, expected@),
        final(order).cum_fee_amt.canonical(),
        r.canonical(),
        final(order).raw_tx == old(order).raw_tx,
        final(order).cum_deducted_amt == old(order).cum_deducted_amt,
        final(order).cum_target_amt == old(order).cum_target_amt,
        final(order).ori_cum_deducted_amt == old(order).ori_cum_deducted_amt,
        final(order).ori_cum_target_amt == old(order).ori_cum_target_amt,
        final(order).locked_amt == old(order).locked_amt,
{
    let rise: Scalar = new_credit.sub(&order.credit_amt);
    let due: Scalar = if new_credit.gt(&order.credit_amt) {
        new_credit.sub(&order.credit_amt)
    } else {
        Scalar::zero()
    };
    let charged_credit: Scalar = if rise.lt(&due) {
        rise
    } else {
        due
    };
    order.cum_fee_amt = order.cum_fee_amt.add(&expected);
    let over: Scalar = if order.cum_fee_amt.gt(&new_credit) {
        order.cum_fee_amt.sub(&new_credit)
    } else {
        Scalar::zero()
    };
    let charged_fee: Scalar = if over.lt(&expected) {
        over
    } else {
        expected
    };
    order.credit_amt = new_credit;
    order.cum_fee_amt.check_reduced_spec();
    let charged: Scalar = charged_fee.add(&charged_credit);
    charged.check_reduced_spec();
    charged
}

/// Charges the fee `expected` to `order`, whose credit rises to the least
/// fee `min_fee` where it is lower.
pub fn charge_floor(order: &mut state_tx::Tx, expected: Scalar, min_fee: Scalar) -> (r: Scalar)
    ensures
        r@ == spec_charge(
            old(order).credit_amt@,
            old(order).cum_fee_amt@,
            expected@,
            spec_max(old(order).credit_amt@, min_fee@),
        ).charged,
        final(order).credit_amt@ == spec_max(old(order).credit_amt@, min_fee@),
        final(order).cum_fee_amt@ == fadd(old(order).cum_fee_amt@, expected@),
        final(order).credit_amt.canonical(),
        final(order).cum_fee_amt.canonical(),
        r.canonical(),
        final(order).raw_tx == old(order).raw_tx,
        final(order).cum_deducted_amt == old(order).cum_deducted_amt,
        final(order).cum_target_amt == old(order).cum_target_amt,
        final(order).ori_cum_deducted_amt == old(order).ori_cum_deducted_amt,
        final(order).ori_cum_target_amt == old(order).ori_cum_target_amt,
        final(order).locked_amt == old(order).locked_amt,
{
    let new_credit: Scalar = max(order.credit_amt, min_fee);
    new_credit.check_reduced_spec();
    charge(order, expected, new_credit)
}

/// The credit of an order that is charged against what it was matched: the
/// least fee, or the credit where that is higher, but no more than the
/// matched amount on top of what the order has run up or been credited.
pub open spec fn spec_capped_credit(credit: nat, cum_fee: nat, min_fee: nat, matched: nat) -> nat {
    let floor = spec_max(credit, min_fee);
    let cap = fadd(spec_max(credit, cum_fee), matched);
    if floor < cap {
        floor
    } else {
        cap
    }
}

/// Charges the fee `expected` to `order`, whose credit rises to the least
/// fee `min_fee` as far as the matched amount `matched` covers it.
pub fn charge_capped(order: &mut state_tx::Tx, expected: Scalar, min_fee: Scalar, matched: Scalar) -> (r:
    Scalar)
    ensures
        r@ == spec_charge(
            old(order).credit_amt@,
            old(order).cum_fee_amt@,
            expected@,
            spec_capped_credit(old(order).credit_amt@, old(order).cum_fee_amt@, min_fee@, matched@),
        ).charged,
        final(order).credit_amt@ == spec_capped_credit(
            old(order).credit_amt@,
            old(order).cum_fee_amt@,
            min_fee@,
            matched@,
        ),
        final(order).cum_fee_amt@ == fadd(old(order).cum_fee_amt@, expected@),
        final(order).credit_amt.canonical(),
        final(order).cum_fee_amt.canonical(),
        r.canonical(),
        final(order).raw_tx == old(order).raw_tx,
        final(order).cum_deducted_amt == old(order).cum_deducted_amt,
        final(order).cum_target_amt == old(order).cum_target_amt,
        final(order).ori_cum_deducted_amt == old(order).ori_cum_deducted_amt,
        final(order).ori_cum_target_amt == old(order).ori_cum_target_amt,
        final(order).locked_amt == old(order).locked_amt,
{
    let floor: Scalar = max(order.credit_amt, min_fee);
    let cap: Scalar = max(order.credit_amt, order.cum_fee_amt).add(&matched);
    let new_credit: Scalar = if floor.lt(&cap) {
        floor
    } else {
        cap
    };
    new_credit.check_reduced_spec();
    charge(order, expected, new_credit)
}

/// The tag of the kind of the transaction `t`.
pub open spec fn spec_kind(t: state_tx::Tx) -> u64 {
    spec_flatten(t.raw_tx).tag
}

/// The tag of the kind of the transaction `t`.
pub fn kind(t: &state_tx::Tx) -> (k: u64)
    ensures
        k == spec_kind(*t),
{
    flatten(&t.raw_tx).tag
}

/// What a step may do to the state: it stays well formed over the arena,
/// with the same global root scalar at the same place and the same make of
/// the account tree; and where the accounts were sound, they still are.
pub open spec fn stepped(a: &State, fa: &TsFile, b: &State, fb: &TsFile) -> bool {
    &&& b.wf(fb)
    &&& a.sound(fa) ==> b.sound(fb)
    &&& crate::file::same_counters(fa, fb)
    &&& b.ts_root == a.ts_root
    &&& b.ts_root.spec_get(fb) == a.ts_root.spec_get(fa)
    &&& b.accounts.spec_fixed() == a.accounts.spec_fixed()
}

/// When a step that loads account `acc_id`, changes it and stores it again
/// succeeds: exactly where the account can be loaded and stored, and `able`
/// holds, which says what else the step needs.
pub open spec fn account_step(
    a: &State,
    fa: &TsFile,
    acc_id: u64,
    able: bool,
    r: Result<(), Error>,
) -> bool {
    r is Ok <==> a.spec_changeable(fa, acc_id) && able
}

/// What a step that starts by loading account `acc_id` returns where the
/// account cannot be loaded: the error of the load.
pub open spec fn load_first(a: &State, fa: &TsFile, acc_id: u64, r: Result<(), Error>) -> bool {
    a.spec_loadable(fa, acc_id) is Err ==> r is Err && r->Err_0 == a.spec_loadable(
        fa,
        acc_id,
    )->Err_0
}

/// Whether the balance of token `token_id` of account `acc_id` can be
/// written: the token tree of the account has a root to read and a leaf for
/// the token.
pub open spec fn writable(a: &State, fa: &TsFile, acc_id: u64, token_id: u64) -> bool {
    a.spec_tokens_readable(fa, acc_id) && a.spec_token_in_range(token_id)
}

/// The balances `before`, with the one of token `token_id` replaced by `token`.
pub open spec fn with_balance(before: spec_fn(nat) -> Token, token_id: u64, token: Token) -> spec_fn(
    nat,
) -> Token {
    |j: nat|
        if j == token_id {
            token
        } else {
            before(j)
        }
}

/// The balances of account `acc_id`, by token.
pub open spec fn balances(s: &State, file: &TsFile, acc_id: u64) -> spec_fn(nat) -> Token {
    |j: nat| s.spec_balance(file, acc_id as nat, j)
}

/// The record of account `acc_id`.
pub open spec fn record(s: &State, file: &TsFile, acc_id: u64) -> AccountRecord {
    s.accounts.spec_leaf_at(file, acc_id as nat)->Ok_0
}

/// Whether, in the state `b`, account `acc_id` is there with the address
/// `l2_addr`, the nonce `nonce` and the balances `held`.
pub open spec fn account_is(
    b: &State,
    fb: &TsFile,
    acc_id: u64,
    l2_addr: Scalar,
    nonce: Scalar,
    held: spec_fn(nat) -> Token,
) -> bool {
    &&& b.accounts.spec_leaf_at(fb, acc_id as nat) is Ok
    &&& record(b, fb, acc_id).l2_addr == l2_addr
    &&& record(b, fb, acc_id).nonce == nonce
    &&& forall|j: nat| #[trigger] b.spec_balance(fb, acc_id as nat, j) == held(j)
}

/// What a step that changes account `acc_id` leaves of the other accounts:
/// every other account that can be read, and whose token tree shares no
/// byte with the token tree of `acc_id`, the bond metadata or the
/// transactions, is what it was, with every balance, and still lies apart.
pub open spec fn others_stay(a: &State, fa: &TsFile, b: &State, fb: &TsFile, acc_id: u64) -> bool {
    forall|j: nat|
        j != acc_id && #[trigger] a.apart(fa, acc_id as nat, j) ==> same_account(a, fa, b, fb, j)
            && b.apart(fb, acc_id as nat, j)
}

/// What a step that changes account `acc_id` does where the account cannot
/// be loaded: nothing.
pub open spec fn load_refused(a: &State, fa: &TsFile, b: &State, fb: &TsFile, acc_id: u64) -> bool {
    a.spec_loadable(fa, acc_id) is Err ==> *b == *a && *fb == *fa
}

/// The nonce that follows `nonce`.
pub open spec fn next_nonce(nonce: Scalar) -> Scalar {
    Scalar::spec_new((nonce@ + 1) % modulus())
}

/// What a registration makes of its account: the address is the new one,
/// the rest is as it was.
pub open spec fn registered(a: &State, fa: &TsFile, b: &State, fb: &TsFile, t: TxRegister) -> bool {
    account_is(
        b,
        fb,
        t.account_id,
        t.hashed_pub_key,
        record(a, fa, t.account_id).nonce,
        balances(a, fa, t.account_id),
    )
}

/// What a deposit makes of its account: the amount is credited to the
/// balance of the token, the rest is as it was.
pub open spec fn deposited(a: &State, fa: &TsFile, b: &State, fb: &TsFile, t: TxDeposit) -> bool {
    let before = balances(a, fa, t.account_id);
    account_is(
        b,
        fb,
        t.account_id,
        record(a, fa, t.account_id).l2_addr,
        record(a, fa, t.account_id).nonce,
        with_balance(
            before,
            t.deposit_token_id,
            before(t.deposit_token_id as nat).spec_income(t.deposit_amt),
        ),
    )
}

/// What a forced withdrawal makes of its account: the amount is debited
/// from the balance of the token, the rest is as it was.
pub open spec fn forced_out(a: &State, fa: &TsFile, b: &State, fb: &TsFile, t: TxForcedWithdraw) -> bool {
    let before = balances(a, fa, t.account_id);
    account_is(
        b,
        fb,
        t.account_id,
        record(a, fa, t.account_id).l2_addr,
        record(a, fa, t.account_id).nonce,
        with_balance(
            before,
            t.withdraw_token_id,
            before(t.withdraw_token_id as nat).spec_outgo(t.withdraw_amt),
        ),
    )
}

/// What a withdrawal makes of its account: the amount is debited from the
/// balance of the token, then the fee from the balance of its token, and the
/// nonce rises.
pub open spec fn withdrawn(a: &State, fa: &TsFile, b: &State, fb: &TsFile, t: TxWithdraw) -> bool {
    let before = balances(a, fa, t.account_id);
    let debited = with_balance(
        before,
        t.withdraw_token_id,
        before(t.withdraw_token_id as nat).spec_outgo(t.withdraw_amt),
    );
    account_is(
        b,
        fb,
        t.account_id,
        record(a, fa, t.account_id).l2_addr,
        next_nonce(record(a, fa, t.account_id).nonce),
        with_balance(
            debited,
            t.tx_fee_token_id,
            debited(t.tx_fee_token_id as nat).spec_outgo(t.tx_fee_amt),
        ),
    )
}

/// What a transfer makes of its two accounts, by way of the state `mid`
/// over `fm` in between: first the amount is debited from the sender's
/// balance of the token, and the sender's nonce rises; then the amount is
/// credited to the balance that the receiver then has of the token.
pub open spec fn transferred_by(
    a: &State,
    fa: &TsFile,
    mid: State,
    fm: TsFile,
    b: &State,
    fb: &TsFile,
    t: TxTransfer,
) -> bool {
    let sent = balances(a, fa, t.sender_id);
    let got = balances(&mid, &fm, t.receiver_id);
    &&& mid.wf(&fm)
    &&& account_is(
        &mid,
        &fm,
        t.sender_id,
        record(a, fa, t.sender_id).l2_addr,
        next_nonce(record(a, fa, t.sender_id).nonce),
        with_balance(
            sent,
            t.transfer_token_id,
            sent(t.transfer_token_id as nat).spec_outgo(t.transfer_amt),
        ),
    )
    &&& account_is(
        b,
        fb,
        t.receiver_id,
        record(&mid, &fm, t.receiver_id).l2_addr,
        record(&mid, &fm, t.receiver_id).nonce,
        with_balance(
            got,
            t.transfer_token_id,
            got(t.transfer_token_id as nat).spec_income(t.transfer_amt),
        ),
    )
}

/// What the first half of a transfer does, which took the state `a` over
/// `fa` to `m` over `fm` and returned `r`: it succeeds where the sender's
/// balance can be changed; the amount is then debited from the sender's
/// balance of the token, and the sender's nonce has risen.
pub open spec fn sent(a: &State, fa: &TsFile, m: &State, fm: &TsFile, t: TxTransfer, r: Result<(), Error>) -> bool {
    let before = balances(a, fa, t.sender_id);
    &&& stepped(a, fa, m, fm)
    &&& account_step(
        a,
        fa,
        t.sender_id,
        writable(a, fa, t.sender_id, t.transfer_token_id),
        r,
    )
    &&& load_first(a, fa, t.sender_id, r)
    &&& load_refused(a, fa, m, fm, t.sender_id)
    &&& r is Ok ==> others_stay(a, fa, m, fm, t.sender_id) && m.lies_apart(
        fm,
        t.sender_id as nat,
    )
    &&& r is Ok ==> account_is(
        m,
        fm,
        t.sender_id,
        record(a, fa, t.sender_id).l2_addr,
        next_nonce(record(a, fa, t.sender_id).nonce),
        with_balance(
            before,
            t.transfer_token_id,
            before(t.transfer_token_id as nat).spec_outgo(t.transfer_amt),
        ),
    )
}

/// What the second half of a transfer does, which took the state `m` over
/// `fm` to `b` over `fb` and returned `r`: it succeeds where the receiver's
/// balance can be changed; the amount is then credited to the receiver's
/// balance of the token.
pub open spec fn received(m: &State, fm: &TsFile, b: &State, fb: &TsFile, t: TxTransfer, r: Result<(), Error>) -> bool {
    let before = balances(m, fm, t.receiver_id);
    &&& stepped(m, fm, b, fb)
    &&& account_step(
        m,
        fm,
        t.receiver_id,
        writable(m, fm, t.receiver_id, t.transfer_token_id),
        r,
    )
    &&& load_first(m, fm, t.receiver_id, r)
    &&& load_refused(m, fm, b, fb, t.receiver_id)
    &&& r is Ok ==> others_stay(m, fm, b, fb, t.receiver_id) && b.lies_apart(
        fb,
        t.receiver_id as nat,
    )
    &&& r is Ok ==> account_is(
        b,
        fb,
        t.receiver_id,
        record(m, fm, t.receiver_id).l2_addr,
        record(m, fm, t.receiver_id).nonce,
        with_balance(
            before,
            t.transfer_token_id,
            before(t.transfer_token_id as nat).spec_income(t.transfer_amt),
        ),
    )
}

/// What a transfer does by way of the state `m` over `fm`, which its first
/// half left with the result `r1`: where the first half failed, that is the
/// end; else the second half follows.
pub open spec fn transfer_through(
    a: &State,
    fa: &TsFile,
    m: State,
    fm: TsFile,
    r1: Result<(), Error>,
    b: &State,
    fb: &TsFile,
    t: TxTransfer,
    r: Result<(), Error>,
) -> bool {
    &&& m.wf(&fm)
    &&& sent(a, fa, &m, &fm, t, r1)
    &&& if r1 is Ok {
        received(&m, &fm, b, fb, t, r)
    } else {
        r == r1 && *b == m && *fb == fm
    }
}

/// What a transfer does: its first half, then its second.
pub open spec fn transfer_post(a: &State, fa: &TsFile, b: &State, fb: &TsFile, t: TxTransfer, r: Result<(), Error>) -> bool {
    exists|m: State, fm: TsFile, r1: Result<(), Error>| #[trigger]
        transfer_through(a, fa, m, fm, r1, b, fb, t, r)
}

/// What a transfer that succeeded has made of the accounts. Where sender
/// and receiver are one account, the amount was debited from and credited
/// to its balance of the token, its nonce has risen, and the other accounts
/// stay. Where they are two accounts whose token trees lie apart, the
/// sender's balance was debited and its nonce has risen, the receiver's
/// balance was credited, and every other account that lies apart from both
/// is what it was.
pub open spec fn transfer_done(a: &State, fa: &TsFile, b: &State, fb: &TsFile, t: TxTransfer) -> bool {
    let before = balances(a, fa, t.sender_id);
    let debited = with_balance(
        before,
        t.transfer_token_id,
        before(t.transfer_token_id as nat).spec_outgo(t.transfer_amt),
    );
    if t.sender_id == t.receiver_id {
        &&& account_is(
            b,
            fb,
            t.sender_id,
            record(a, fa, t.sender_id).l2_addr,
            next_nonce(record(a, fa, t.sender_id).nonce),
            with_balance(
                debited,
                t.transfer_token_id,
                debited(t.transfer_token_id as nat).spec_income(t.transfer_amt),
            ),
        )
        &&& others_stay(a, fa, b, fb, t.sender_id)
    } else {
        let had = balances(a, fa, t.receiver_id);
        a.apart(fa, t.sender_id as nat, t.receiver_id as nat) ==> {
            &&& account_is(
                b,
                fb,
                t.sender_id,
                record(a, fa, t.sender_id).l2_addr,
                next_nonce(record(a, fa, t.sender_id).nonce),
                debited,
            )
            &&& account_is(
                b,
                fb,
                t.receiver_id,
                record(a, fa, t.receiver_id).l2_addr,
                record(a, fa, t.receiver_id).nonce,
                with_balance(
                    had,
                    t.transfer_token_id,
                    had(t.transfer_token_id as nat).spec_income(t.transfer_amt),
                ),
            )
            &&& forall|j: nat|
                j != t.sender_id && j != t.receiver_id && #[trigger] a.apart(
                    fa,
                    t.sender_id as nat,
                    j,
                ) && a.apart(fa, t.receiver_id as nat, j) ==> same_account(a, fa, b, fb, j)
        }
    }
}

/// An account that is the same in two states has the same record and the
/// same balances in both.
pub proof fn lemma_same_account(a: &State, fa: &TsFile, b: &State, fb: &TsFile, j: u64)
    requires
        same_account(a, fa, b, fb, j as nat),
    ensures
        b.accounts.spec_leaf_at(fb, j as nat) == a.accounts.spec_leaf_at(fa, j as nat),
        record(b, fb, j) == record(a, fa, j),
        forall|k: nat| #[trigger] b.spec_balance(fb, j as nat, k) == a.spec_balance(fa, j as nat, k),
{
    assert forall|k: nat| #[trigger]
        b.spec_balance(fb, j as nat, k) == a.spec_balance(fa, j as nat, k) by {
        assert(b.spec_balances(fb, j as nat)[k] == a.spec_balances(fa, j as nat)[k]);
    }
}

/// A transfer whose two halves succeeded has done what `transfer_done` says.
pub proof fn lemma_transfer_done(
    a: &State,
    fa: &TsFile,
    m: &State,
    fm: &TsFile,
    b: &State,
    fb: &TsFile,
    t: TxTransfer,
)
    requires
        sent(a, fa, m, fm, t, Ok(())),
        received(m, fm, b, fb, t, Ok(())),
    ensures
        transfer_done(a, fa, b, fb, t),
{
    let s = t.sender_id;
    let r = t.receiver_id;
    if s == r {
        assert forall|j: nat| j != s && #[trigger] a.apart(fa, s as nat, j) implies same_account(
            a,
            fa,
            b,
            fb,
            j,
        ) && b.apart(fb, s as nat, j) by {
            assert(m.apart(fm, s as nat, j));
        }
    } else if a.apart(fa, s as nat, r as nat) {
        assert(same_account(a, fa, m, fm, r as nat));
        assert(m.apart(fm, s as nat, r as nat));
        lemma_same_account(a, fa, m, fm, r);
        assert(m.apart(fm, r as nat, s as nat));
        assert(same_account(m, fm, b, fb, s as nat));
        lemma_same_account(m, fm, b, fb, s);
        assert forall|j: nat|
            j != s && j != r && #[trigger] a.apart(fa, s as nat, j) && a.apart(
                fa,
                r as nat,
                j,
            ) implies same_account(a, fa, b, fb, j) by {
            assert(same_account(a, fa, m, fm, j));
            assert(m.apart(fm, s as nat, j));
            assert(m.apart(fm, r as nat, j));
        }
    }
}

/// What a transfer makes of its two accounts.
pub open spec fn transferred(a: &State, fa: &TsFile, b: &State, fb: &TsFile, t: TxTransfer) -> bool {
    exists|mid: State, fm: TsFile| #[trigger] transferred_by(a, fa, mid, fm, b, fb, t)
}

/// What the creation of a bond makes of the bond metadata: the new bond is
/// there with its base token and its maturity.
pub open spec fn bond_created(b: &State, fb: &TsFile, t: TxCreateTsbBondToken) -> bool {
    b.tsb_infos.spec_get(fb, t.bond_token_id as nat) == Ok::<TSBInfo, Error>(
        (TSBInfo { base_token_id: t.base_token_id, maturity: t.maturity }),
    )
}

/// What a redemption makes of its account: the amount is debited from the
/// balance of the bond, then credited to the balance of the bond's base
/// token, and the nonce rises.
pub open spec fn redeemed(a: &State, fa: &TsFile, b: &State, fb: &TsFile, t: TxRedeem) -> bool {
    let base = a.tsb_infos.spec_get(fa, t.token_id as nat)->Ok_0.base_token_id;
    let before = balances(a, fa, t.sender_id);
    let debited = with_balance(before, t.token_id, before(t.token_id as nat).spec_outgo(t.amount));
    account_is(
        b,
        fb,
        t.sender_id,
        record(a, fa, t.sender_id).l2_addr,
        next_nonce(record(a, fa, t.sender_id).nonce),
        with_balance(debited, base, debited(base as nat).spec_income(t.amount)),
    )
}

/// What an evacuation makes of its account: the amount is debited from the
/// balance of the token, the rest is as it was.
pub open spec fn evacuated(a: &State, fa: &TsFile, b: &State, fb: &TsFile, t: TxEvacuation) -> bool {
    let before = balances(a, fa, t.sender_id);
    account_is(
        b,
        fb,
        t.sender_id,
        record(a, fa, t.sender_id).l2_addr,
        record(a, fa, t.sender_id).nonce,
        with_balance(before, t.token_id, before(t.token_id as nat).spec_outgo(t.amount)),
    )
}

/// The record `rec` of an order with `amt` as what it locks.
pub open spec fn with_locked(rec: state_tx::Tx, amt: Scalar) -> state_tx::Tx {
    state_tx::Tx { locked_amt: amt, ..rec }
}

/// What a lend order locks: what it lends and the fee it may come to owe,
/// which is the fee on the whole loan at the default rate or the least fee,
/// whichever is more; nothing where the loan would start a day or more
/// behind its maturity.
pub open spec fn spec_lend_lock(t: TxAucLend) -> Option<Scalar> {
    if t.matched_time@ <= t.maturity_time@ + DAY - 1 {
        let fee = primary_market::spec_calc_fee(
            t.fee_rate@,
            t.lending_amt@,
            (t.default_matched_interest_rate@ + ONE_FIXED as nat) % modulus(),
            spec_calc_days(t.matched_time@, t.maturity_time@),
        );
        Some(
            Scalar::spec_new(
                (t.lending_amt@ + spec_max(t.primary_lend_min_fee_amt@, fee)) % modulus(),
            ),
        )
    } else {
        None
    }
}

/// What a lend order makes of the state: what it locks is locked in the
/// lender's balance of the token, and noted in the order.
pub open spec fn lend_placed(a: &State, fa: &TsFile, b: &State, fb: &TsFile, tx_id: usize, t: TxAucLend) -> bool {
    let before = balances(a, fa, t.lender_id);
    &&& spec_lend_lock(t) is Some
    &&& account_is(
        b,
        fb,
        t.lender_id,
        record(a, fa, t.lender_id).l2_addr,
        record(a, fa, t.lender_id).nonce,
        with_balance(
            before,
            t.lending_token_id,
            before(t.lending_token_id as nat).spec_lock(spec_lend_lock(t)->0),
        ),
    )
    &&& b.txs.spec_get(fb, tx_id as nat) == Ok::<state_tx::Tx, Error>(
        with_locked(a.txs.spec_get(fa, tx_id as nat)->Ok_0, spec_lend_lock(t)->0),
    )
}

/// What a borrow order makes of the state: its collateral is locked in the
/// borrower's balance of the token, and noted in the order.
pub open spec fn borrow_placed(
    a: &State,
    fa: &TsFile,
    b: &State,
    fb: &TsFile,
    tx_id: usize,
    t: TxAucBorrow,
) -> bool {
    let before = balances(a, fa, t.sender_id);
    &&& account_is(
        b,
        fb,
        t.sender_id,
        record(a, fa, t.sender_id).l2_addr,
        record(a, fa, t.sender_id).nonce,
        with_balance(
            before,
            t.collateral_token_id,
            before(t.collateral_token_id as nat).spec_lock(t.collateral_amt),
        ),
    )
    &&& b.txs.spec_get(fb, tx_id as nat) == Ok::<state_tx::Tx, Error>(
        with_locked(a.txs.spec_get(fa, tx_id as nat)->Ok_0, t.collateral_amt),
    )
}

/// The account that placed an order, and the token that the order locks;
/// nothing where the transaction is no order.
pub open spec fn spec_order_owner(raw_tx: Tx) -> Option<(u64, u64)> {
    match raw_tx {
        Tx::TxAucLend(o) => Some((o.lender_id, o.lending_token_id)),
        Tx::TxAucBorrow(o) => Some((o.sender_id, o.collateral_token_id)),
        Tx::TxSecLimitOrder(o) => Some((o.sender_id, o.sell_token_id)),
        Tx::TxSecMarketOrder(o) => Some((o.sender_id, o.sell_token_id)),
        _ => None,
    }
}

/// The balances `before` after `locked` of token `token_id` was unlocked and
/// then the fee `fee`, where there is one, was debited.
pub open spec fn released(
    before: spec_fn(nat) -> Token,
    token_id: u64,
    locked: Scalar,
    fee: Option<(u64, Scalar)>,
) -> spec_fn(nat) -> Token {
    let unlocked = with_balance(before, token_id, before(token_id as nat).spec_unlock(locked));
    match fee {
        Some((fee_token_id, fee_amt)) => with_balance(
            unlocked,
            fee_token_id,
            unlocked(fee_token_id as nat).spec_outgo(fee_amt),
        ),
        None => unlocked,
    }
}

/// Whether what an order of account `account_id` locks of token `token_id`
/// can be unlocked, and the fee `fee` debited where there is one: the token
/// tree of the account has a root to read and a leaf for each of the tokens.
pub open spec fn release_able(
    a: &State,
    fa: &TsFile,
    account_id: u64,
    token_id: u64,
    fee: Option<(u64, Scalar)>,
) -> bool {
    &&& writable(a, fa, account_id, token_id)
    &&& match fee {
        Some((fee_token_id, _)) => a.spec_token_in_range(fee_token_id),
        None => true,
    }
}

/// When the cancelling of order `order_id` succeeds: exactly where the
/// order is there and is an order, and what it locks can be released to its
/// owner. Where the order cannot be read or is no order, the cancelling is
/// refused and nothing changes.
pub open spec fn cancel_step(
    a: &State,
    fa: &TsFile,
    b: &State,
    fb: &TsFile,
    order_id: u64,
    fee: Option<(u64, Scalar)>,
    r: Result<(), Error>,
) -> bool {
    let order = a.txs.spec_get(fa, order_id as nat);
    &&& order_id > usize::MAX ==> r is Err && r->Err_0 == Error::InvalidTxType && *b == *a && *fb
        == *fa
    &&& order_id <= usize::MAX && order is Err ==> r is Err && r->Err_0 == order->Err_0 && *b == *a
        && *fb == *fa
    &&& order_id <= usize::MAX && order is Ok ==> match spec_order_owner(order->Ok_0.raw_tx) {
        None => r is Err && r->Err_0 == Error::InvalidTxType && *b == *a && *fb == *fa,
        Some((account_id, token_id)) => account_step(
            a,
            fa,
            account_id,
            release_able(a, fa, account_id, token_id, fee),
            r,
        ) && load_first(a, fa, account_id, r),
    }
}

/// Whether the account `acc` is held by the state `s` as account `acc_id`,
/// with the address `l2_addr`, the nonce `nonce` and the balances `held`.
pub open spec fn held_as(
    s: &State,
    f: &TsFile,
    acc: Account,
    acc_id: u64,
    l2_addr: Scalar,
    nonce: Scalar,
    held: spec_fn(nat) -> Token,
) -> bool {
    &&& s.holds(f, &acc)
    &&& s.accounts.accounts.spec_get(f, acc_id as nat) == Ok::<AccountRecord, Error>(
        acc.spec_record(),
    )
    &&& acc.l2_addr == l2_addr
    &&& acc.nonce == nonce
    &&& forall|j: nat| #[trigger] acc.tokens.spec_leaf_at(f, j) == Ok::<Token, Error>(held(j))
}

/// An account that is held as account `acc_id` is account `acc_id`.
pub proof fn lemma_held_is(
    s: &State,
    f: &TsFile,
    acc: Account,
    acc_id: u64,
    l2_addr: Scalar,
    nonce: Scalar,
    held: spec_fn(nat) -> Token,
)
    requires
        held_as(s, f, acc, acc_id, l2_addr, nonce, held),
    ensures
        account_is(s, f, acc_id, l2_addr, nonce, held),
{
    crate::account::lemma_leaf_of(&s.accounts, f, acc_id as nat, &acc);
    s.lemma_balance(f, acc_id as nat, &acc);
    assert forall|j: nat| #[trigger] s.spec_balance(f, acc_id as nat, j) == held(j) by {
        assert(acc.tokens.spec_leaf_at(f, j) == Ok::<Token, Error>(held(j)));
    }
}

/// What the cancelling of order `order_id` makes of the state: what the
/// order locks is unlocked in its owner's balance, then the fee, where there
/// is one, is debited from the owner's balance of the fee's token; and the
/// order locks nothing any more.
pub open spec fn cancelled(
    a: &State,
    fa: &TsFile,
    b: &State,
    fb: &TsFile,
    order_id: u64,
    fee: Option<(u64, Scalar)>,
) -> bool {
    let order = a.txs.spec_get(fa, order_id as nat)->Ok_0;
    match spec_order_owner(order.raw_tx) {
        None => false,
        Some((account_id, token_id)) => {
            &&& account_is(
                b,
                fb,
                account_id,
                record(a, fa, account_id).l2_addr,
                record(a, fa, account_id).nonce,
                released(balances(a, fa, account_id), token_id, order.locked_amt, fee),
            )
            &&& others_stay(a, fa, b, fb, account_id)
            &&& b.txs.spec_get(fb, order_id as nat) == Ok::<state_tx::Tx, Error>(
                with_locked(order, Scalar::spec_new(0)),
            )
        },
    }
}

/// A registration succeeds exactly where its account can be changed; where the
/// account cannot be loaded, it fails as the load does.
pub open spec fn register_step(
    a: &State,
    fa: &TsFile,
    t: TxRegister,
    r: Result<(), Error>,
) -> bool {
    &&& account_step(
        a,
        fa,
        t.account_id,
        a.spec_tokens_readable(fa, t.account_id),
        r,
    )
    &&& load_first(a, fa, t.account_id, r)
}

/// A deposit succeeds exactly where its account can be changed; where the
/// account cannot be loaded, it fails as the load does.
pub open spec fn deposit_step(
    a: &State,
    fa: &TsFile,
    t: TxDeposit,
    r: Result<(), Error>,
) -> bool {
    &&& account_step(
        a,
        fa,
        t.account_id,
        writable(a, fa, t.account_id, t.deposit_token_id),
        r,
    )
    &&& load_first(a, fa, t.account_id, r)
}

/// A forced withdrawal succeeds exactly where its account can be changed; where the
/// account cannot be loaded, it fails as the load does.
pub open spec fn forced_step(
    a: &State,
    fa: &TsFile,
    t: TxForcedWithdraw,
    r: Result<(), Error>,
) -> bool {
    &&& account_step(
        a,
        fa,
        t.account_id,
        writable(a, fa, t.account_id, t.withdraw_token_id),
        r,
    )
    &&& load_first(a, fa, t.account_id, r)
}

/// A withdrawal succeeds exactly where its account can be changed; where the
/// account cannot be loaded, it fails as the load does.
pub open spec fn withdraw_step(
    a: &State,
    fa: &TsFile,
    t: TxWithdraw,
    r: Result<(), Error>,
) -> bool {
    &&& account_step(
        a,
        fa,
        t.account_id,
        writable(a, fa, t.account_id, t.withdraw_token_id) && a.spec_token_in_range(
            t.tx_fee_token_id,
        ),
        r,
    )
    &&& load_first(a, fa, t.account_id, r)
}

/// An evacuation succeeds exactly where its account can be changed; where the
/// account cannot be loaded, it fails as the load does.
pub open spec fn evacuation_step(
    a: &State,
    fa: &TsFile,
    t: TxEvacuation,
    r: Result<(), Error>,
) -> bool {
    &&& account_step(
        a,
        fa,
        t.sender_id,
        writable(a, fa, t.sender_id, t.token_id),
        r,
    )
    &&& load_first(a, fa, t.sender_id, r)
}

/// A borrow order is placed exactly where its account can be changed and
/// the order is in the log; where the account cannot be loaded, it fails as
/// the load does.
pub open spec fn borrow_step(
    a: &State,
    fa: &TsFile,
    tx_id: usize,
    t: TxAucBorrow,
    r: Result<(), Error>,
) -> bool {
    &&& account_step(
        a,
        fa,
        t.sender_id,
        writable(a, fa, t.sender_id, t.collateral_token_id) && a.txs.spec_get(fa, tx_id as nat) is Ok,
        r,
    )
    &&& load_first(a, fa, t.sender_id, r)
}

/// A lend order is placed exactly where its account can be changed, the
/// order is in the log, and the loan does not start a day or more behind its
/// maturity; where the account cannot be loaded, it fails as the load does.
pub open spec fn lend_step(
    a: &State,
    fa: &TsFile,
    tx_id: usize,
    t: TxAucLend,
    r: Result<(), Error>,
) -> bool {
    &&& account_step(
        a,
        fa,
        t.lender_id,
        writable(a, fa, t.lender_id, t.lending_token_id) && spec_lend_lock(t) is Some
            && a.txs.spec_get(fa, tx_id as nat) is Ok,
        r,
    )
    &&& load_first(a, fa, t.lender_id, r)
}

/// A redemption succeeds exactly where the machine has an index for the
/// bond and the account can be changed in its balances of the bond and of
/// the bond's base token.
pub open spec fn redeem_step(
    a: &State,
    fa: &TsFile,
    t: TxRedeem,
    r: Result<(), Error>,
) -> bool {
    &&& account_step(
        a,
        fa,
        t.sender_id,
        t.token_id <= usize::MAX && writable(a, fa, t.sender_id, t.token_id)
            && a.spec_token_in_range(
            a.tsb_infos.spec_get(fa, t.token_id as nat)->Ok_0.base_token_id,
        ),
        r,
    )
    &&& t.token_id > usize::MAX ==> r is Err && r->Err_0 == Error::InvalidTxType
}

/// When applying the transaction `raw_tx`, which is transaction `tx_id` of
/// the log, succeeds: always for one that only marks a phase; for one that
/// moves funds of its own accounts, places or cancels an order, or creates a
/// bond, as is stated for its kind.
pub open spec fn step_result(
    a: &State,
    fa: &TsFile,
    b: &State,
    fb: &TsFile,
    tx_id: usize,
    raw_tx: Tx,
    r: Result<(), Error>,
) -> bool {
    match raw_tx {
        Tx::TxNoop(_) | Tx::TxAucStart(_) | Tx::TxSecLimitStart(_) | Tx::TxIncreaseEpoch(_)
        | Tx::TxWithdrawFee(_) | Tx::TxSecMarketOrder(_) | Tx::TxSetAdminTsAddr(_) => r is Ok,
        Tx::TxRegister(t) => register_step(
            a,
            fa,
            t,
            r,
        ) && load_refused(a, fa, b, fb, t.account_id),
        Tx::TxDeposit(t) => deposit_step(
            a,
            fa,
            t,
            r,
        ) && load_refused(a, fa, b, fb, t.account_id),
        Tx::TxForcedWithdraw(t) => forced_step(
            a,
            fa,
            t,
            r,
        ) && load_refused(a, fa, b, fb, t.account_id),
        Tx::TxTransfer(t) => transfer_post(a, fa, b, fb, t, r),
        Tx::TxWithdraw(t) => withdraw_step(
            a,
            fa,
            t,
            r,
        ) && load_refused(a, fa, b, fb, t.account_id),
        Tx::TxCreateTsbBondToken(t) => r is Ok <==> t.bond_token_id <= usize::MAX,
        Tx::TxRedeem(t) => redeem_step(
            a,
            fa,
            t,
            r,
        ) && load_refused(a, fa, b, fb, t.sender_id),
        Tx::TxAucLend(t) => lend_step(
            a,
            fa,
            tx_id,
            t,
            r,
        ) && load_refused(a, fa, b, fb, t.lender_id),
        Tx::TxAucBorrow(t) => borrow_step(
            a,
            fa,
            tx_id,
            t,
            r,
        ) && load_refused(a, fa, b, fb, t.sender_id),
        Tx::TxAdminCancel(t) => cancel_step(
            a,
            fa,
            b,
            fb,
            t.tx_id,
            None,
            r,
        ),
        Tx::TxUserCancel(t) => cancel_step(
            a,
            fa,
            b,
            fb,
            t.tx_id,
            Some((t.tx_fee_token_id, t.tx_fee_amt)),
            r,
        ),
        Tx::TxEvacuation(t) => evacuation_step(
            a,
            fa,
            t,
            r,
        ) && load_refused(a, fa, b, fb, t.sender_id),
        Tx::TxSecLimitOrder(t) => limit_step(
            a,
            fa,
            tx_id,
            t,
            r,
        ) && load_refused(a, fa, b, fb, t.sender_id),
        Tx::TxAucMatch(t) => auc_match_post(
            a,
            fa,
            b,
            fb,
            spec_auc_match_plan(a, fa, tx_id, t),
            r,
        ),
        Tx::TxAucEnd(t) => plan_post(a, fa, b, fb, spec_auc_end_plan(a, fa, tx_id, t), r),
        Tx::TxSecLimitExchange(t) => exchange_step(
            a,
            fa,
            b,
            fb,
            spec_limit_exchange_found(a, fa, tx_id, t),
            r,
        ),
        Tx::TxSecLimitEnd(t) => plan_post(a, fa, b, fb, spec_limit_end_plan(a, fa, tx_id, t), r),
        Tx::TxSecMarketExchange(t) => exchange_step(
            a,
            fa,
            b,
            fb,
            spec_market_exchange_found(a, fa, tx_id, t),
            r,
        ),
        Tx::TxSecMarketEnd(t) => market_end_post(
            a,
            fa,
            b,
            fb,
            spec_market_end_plan(a, fa, tx_id, t),
            r,
        ),
    }
}

/// What applying transaction `tx_id` of the log does, which took the state
/// `a` over `fa` to `b` over `fb` and returned `r`: where the transaction
/// cannot be read, that is the error and nothing changes; else the step
/// succeeds as is stated for the kind of the transaction, and has the effect
/// that is stated for it.
pub open spec fn update_post(
    a: &State,
    fa: &TsFile,
    b: &State,
    fb: &TsFile,
    tx_id: usize,
    r: Result<(), Error>,
) -> bool {
    &&& stepped(a, fa, b, fb)
    &&& match a.txs.spec_get(fa, tx_id as nat) {
        Ok(record) => step_result(a, fa, b, fb, tx_id, record.raw_tx, r) && (r is Ok ==> applied(
            a,
            fa,
            b,
            fb,
            tx_id,
            record.raw_tx,
        )),
        Err(e) => r == Err::<(), Error>(e) && *b == *a && *fb == *fa,
    }
}

/// The difference of two elements.
pub open spec fn spec_sub(x: Scalar, y: Scalar) -> Scalar {
    Scalar::spec_new(((x@ - y@) % (modulus() as int)) as nat)
}

/// What the release of `locked` of token `token_id` to account `account_id`
/// does, with the fee `fee` debited where there is one: it succeeds exactly
/// where the account's balances can be changed so; the balances are then
/// changed, and the log stays as it is.
pub open spec fn release_post(
    a: &State,
    fa: &TsFile,
    b: &State,
    fb: &TsFile,
    account_id: u64,
    token_id: u64,
    locked: Scalar,
    fee: Option<(u64, Scalar)>,
    r: Result<(), Error>,
) -> bool {
    &&& stepped(a, fa, b, fb)
    &&& forall|j: nat| #[trigger] b.txs.spec_get(fb, j) == a.txs.spec_get(fa, j)
    &&& account_step(
        a,
        fa,
        account_id,
        release_able(a, fa, account_id, token_id, fee),
        r,
    )
    &&& load_first(a, fa, account_id, r)
    &&& load_refused(a, fa, b, fb, account_id)
    &&& r is Ok ==> others_stay(a, fa, b, fb, account_id) && b.lies_apart(fb, account_id as nat)
    &&& r is Ok ==> account_is(
        b,
        fb,
        account_id,
        record(a, fa, account_id).l2_addr,
        record(a, fa, account_id).nonce,
        released(balances(a, fa, account_id), token_id, locked, fee),
    )
}

/// What a trade in account `account_id` does: it succeeds exactly where
/// the account's balances of both tokens can be changed; `sell_total` of
/// token `sell_token_id` is then taken from what is locked, and `buy_net` of
/// token `buy_token_id` is credited; the log stays as it is.
pub open spec fn traded(
    a: &State,
    fa: &TsFile,
    b: &State,
    fb: &TsFile,
    account_id: u64,
    sell_token_id: u64,
    sell_total: Scalar,
    buy_token_id: u64,
    buy_net: Scalar,
    r: Result<(), Error>,
) -> bool {
    let before = balances(a, fa, account_id);
    let paid = with_balance(
        before,
        sell_token_id,
        before(sell_token_id as nat).spec_deduct(sell_total),
    );
    &&& stepped(a, fa, b, fb)
    &&& forall|j: nat| #[trigger] b.txs.spec_get(fb, j) == a.txs.spec_get(fa, j)
    &&& account_step(
        a,
        fa,
        account_id,
        writable(a, fa, account_id, sell_token_id) && a.spec_token_in_range(buy_token_id),
        r,
    )
    &&& load_first(a, fa, account_id, r)
    &&& load_refused(a, fa, b, fb, account_id)
    &&& r is Ok ==> others_stay(a, fa, b, fb, account_id) && b.lies_apart(fb, account_id as nat)
    &&& r is Ok ==> account_is(
        b,
        fb,
        account_id,
        record(a, fa, account_id).l2_addr,
        record(a, fa, account_id).nonce,
        with_balance(paid, buy_token_id, paid(buy_token_id as nat).spec_income(buy_net)),
    )
}

/// The order `order` after `sell_total` left what it locks.
pub open spec fn spec_paid(order: state_tx::Tx, sell_total: Scalar) -> state_tx::Tx {
    with_locked(order, spec_sub(order.locked_amt, sell_total))
}

/// The order `order` with what it has been matched so far noted as settled.
pub open spec fn spec_marked(order: state_tx::Tx) -> state_tx::Tx {
    state_tx::Tx {
        ori_cum_deducted_amt: order.cum_deducted_amt,
        ori_cum_target_amt: order.cum_target_amt,
        ..order
    }
}

/// What the settling of a match does, by way of the state `m` over `fm` that
/// the trade left with the result `r1`. The order first loses `sell_total`
/// of what it locks. Where the trade failed, that is the end. Else the order
/// has what it was matched noted as settled; and where it is complete, the
/// rest of what it locks is released to the account, and the order then
/// locks nothing.
pub open spec fn settle_through(
    a: &State,
    fa: &TsFile,
    m: State,
    fm: TsFile,
    r1: Result<(), Error>,
    b: &State,
    fb: &TsFile,
    before: state_tx::Tx,
    after: state_tx::Tx,
    account_id: u64,
    sell_token_id: u64,
    sell_total: Scalar,
    buy_token_id: u64,
    buy_net: Scalar,
    complete: bool,
    r: Result<(), Error>,
) -> bool {
    let paid = spec_paid(before, sell_total);
    let marked = spec_marked(paid);
    &&& m.wf(&fm)
    &&& traded(
        a,
        fa,
        &m,
        &fm,
        account_id,
        sell_token_id,
        sell_total,
        buy_token_id,
        buy_net,
        r1,
    )
    &&& if r1 is Err {
        r == r1 && *b == m && *fb == fm && after == paid
    } else if !complete {
        r is Ok && *b == m && *fb == fm && after == marked
    } else {
        &&& release_post(&m, &fm, b, fb, account_id, sell_token_id, marked.locked_amt, None, r)
        &&& after == if r is Ok {
            with_locked(marked, Scalar::spec_new(0))
        } else {
            marked
        }
    }
}

/// What the settling of a match does: the trade, then the release where the
/// order is complete.
pub open spec fn settle_post(
    a: &State,
    fa: &TsFile,
    b: &State,
    fb: &TsFile,
    before: state_tx::Tx,
    after: state_tx::Tx,
    account_id: u64,
    sell_token_id: u64,
    sell_total: Scalar,
    buy_token_id: u64,
    buy_net: Scalar,
    complete: bool,
    r: Result<(), Error>,
) -> bool {
    exists|m: State, fm: TsFile, r1: Result<(), Error>| #[trigger]
        settle_through(
            a,
            fa,
            m,
            fm,
            r1,
            b,
            fb,
            before,
            after,
            account_id,
            sell_token_id,
            sell_total,
            buy_token_id,
            buy_net,
            complete,
            r,
        )
}

/// Whether an order that buys `buy_token_id` for `sell_token_id` is on the
/// side of the bond, the days from `since` to the maturity of the bond, and
/// that maturity: the bond is the token that is bought where that is one,
/// else the token that is sold. There is no answer where the machine has no
/// index for the token, or `since` lies a day or more behind the maturity.
pub open spec fn spec_bond_days(
    a: &State,
    fa: &TsFile,
    buy_token_id: u64,
    sell_token_id: u64,
    since: Scalar,
) -> Result<(bool, Scalar, Scalar), Error> {
    if buy_token_id > usize::MAX {
        Err(Error::InvalidTxType)
    } else {
        let bought = a.tsb_infos.spec_get(fa, buy_token_id as nat)->Ok_0;
        let side = bought.base_token_id == 0;
        if side && sell_token_id > usize::MAX {
            Err(Error::InvalidTxType)
        } else {
            let bond = if side {
                a.tsb_infos.spec_get(fa, sell_token_id as nat)->Ok_0
            } else {
                bought
            };
            if since@ <= bond.maturity@ + DAY - 1 {
                Ok((side, Scalar::spec_new(spec_calc_days(since@, bond.maturity@)), bond.maturity))
            } else {
                Err(Error::InvalidTxType)
            }
        }
    }
}

/// What a limit order locks: what it sells where it is on the side of the
/// bond; else the base quantity of what it buys, with the fee it may come to
/// owe at the higher of its two rates, or the higher of the two least fees
/// where that is more. There is no such amount where the bond has no days,
/// the order expires a day or more behind the maturity, or the quantities
/// cannot be divided by.
pub open spec fn spec_limit_lock(a: &State, fa: &TsFile, t: TxSecLimitOrder) -> Result<Scalar, Error> {
    match spec_bond_days(a, fa, t.buy_token_id, t.sell_token_id, t.matched_time) {
        Err(e) => Err(e),
        Ok((side, days_from_matched, maturity)) => if !(t.expired_time@ <= maturity@ + DAY - 1) {
            Err(Error::InvalidTxType)
        } else if side {
            Ok(t.sell_amt)
        } else {
            let days = if t.buy_amt@ < t.sell_amt@ {
                days_from_matched@
            } else {
                spec_calc_days(t.expired_time@, maturity@)
            };
            if secondary_market::spec_new_bq_divisor(t.buy_amt@, t.sell_amt@, days) == 0 {
                Err(Error::InvalidTxType)
            } else {
                let base = secondary_market::spec_calc_new_bq(
                    t.buy_amt@,
                    t.buy_amt@,
                    t.sell_amt@,
                    days,
                );
                let fee = secondary_market::spec_calc_fee(
                    t.buy_amt@,
                    spec_max(t.fee1@, t.fee0@),
                    days_from_matched@,
                );
                let least = spec_max(
                    t.secondary_taker_min_fee_amt@,
                    t.secondary_maker_min_fee_amt@,
                );
                Ok(Scalar::spec_new(fadd(base, spec_max(fee, least))))
            }
        },
    }
}

/// What a limit order makes of the state: what it locks is locked in the
/// sender's balance of the token it sells, and noted in the order.
pub open spec fn limit_placed(
    a: &State,
    fa: &TsFile,
    b: &State,
    fb: &TsFile,
    tx_id: usize,
    t: TxSecLimitOrder,
) -> bool {
    let before = balances(a, fa, t.sender_id);
    &&& spec_limit_lock(a, fa, t) is Ok
    &&& account_is(
        b,
        fb,
        t.sender_id,
        record(a, fa, t.sender_id).l2_addr,
        record(a, fa, t.sender_id).nonce,
        with_balance(
            before,
            t.sell_token_id,
            before(t.sell_token_id as nat).spec_lock(spec_limit_lock(a, fa, t)->Ok_0),
        ),
    )
    &&& b.txs.spec_get(fb, tx_id as nat) == Ok::<state_tx::Tx, Error>(
        with_locked(a.txs.spec_get(fa, tx_id as nat)->Ok_0, spec_limit_lock(a, fa, t)->Ok_0),
    )
}

/// A limit order is placed exactly where its account can be changed, the
/// order is in the log, and there is an amount for it to lock; where the
/// account cannot be loaded, it fails as the load does.
pub open spec fn limit_step(
    a: &State,
    fa: &TsFile,
    tx_id: usize,
    t: TxSecLimitOrder,
    r: Result<(), Error>,
) -> bool {
    &&& account_step(
        a,
        fa,
        t.sender_id,
        writable(a, fa, t.sender_id, t.sell_token_id) && spec_limit_lock(a, fa, t) is Ok
            && a.txs.spec_get(fa, tx_id as nat) is Ok,
        r,
    )
    &&& load_first(a, fa, t.sender_id, r)
}

/// What is to be settled of an order after a match: the order as it then
/// stands and its place in the log, the account, what leaves what the
/// account has locked and what comes in, and whether the order is complete.
pub struct Settlement {
    pub order_id: usize,
    pub order: state_tx::Tx,
    pub account_id: u64,
    pub sell_token_id: u64,
    pub sell_total: Scalar,
    pub buy_token_id: u64,
    pub buy_net: Scalar,
    pub complete: bool,
}

/// What storing the record `rec` as transaction `tx_id` does: the log holds
/// the record there and what it held elsewhere, and the rest of the state is
/// as it was.
pub open spec fn put_post(a: &State, fa: &TsFile, b: &State, fb: &TsFile, tx_id: usize, rec: state_tx::Tx) -> bool {
    &&& stepped(a, fa, b, fb)
    &&& b.txs.spec_get(fb, tx_id as nat) == Ok::<state_tx::Tx, Error>(rec)
    &&& forall|j: nat| j != tx_id ==> #[trigger] b.txs.spec_get(fb, j) == a.txs.spec_get(fa, j)
    &&& forall|j: nat| #[trigger] b.tsb_infos.spec_get(fb, j) == a.tsb_infos.spec_get(fa, j)
    &&& forall|j: nat|
        #[trigger] b.accounts.accounts.spec_get(fb, j) == a.accounts.accounts.spec_get(fa, j)
    &&& b.accounts == a.accounts
    &&& crate::merkle::same_nodes(&a.accounts, fa, &b.accounts, fb)
    &&& forall|j: nat| #[trigger] a.lies_apart(fa, j) ==> same_account(a, fa, b, fb, j) && b.lies_apart(fb, j)
}

/// What the settling of `s` does by way of the state `m` over `fm`, in which
/// the match was settled in the account with the result `r1`, the order
/// having become `settled`: where that failed, it is the end; else the order
/// is stored at its place in the log.
pub open spec fn settled_through(
    a: &State,
    fa: &TsFile,
    m: State,
    fm: TsFile,
    settled: state_tx::Tx,
    r1: Result<(), Error>,
    b: &State,
    fb: &TsFile,
    s: Settlement,
    r: Result<(), Error>,
) -> bool {
    &&& m.wf(&fm)
    &&& settle_post(
        a,
        fa,
        &m,
        &fm,
        s.order,
        settled,
        s.account_id,
        s.sell_token_id,
        s.sell_total,
        s.buy_token_id,
        s.buy_net,
        s.complete,
        r1,
    )
    &&& forall|j: nat| #[trigger] m.txs.spec_get(&fm, j) == a.txs.spec_get(fa, j)
    &&& if r1 is Err {
        r == r1 && *b == m && *fb == fm
    } else {
        r is Ok && put_post(&m, &fm, b, fb, s.order_id, settled)
    }
}

/// What the settling of `s` does: the match is settled in the account, and
/// the order is then stored.
pub open spec fn order_settled(a: &State, fa: &TsFile, b: &State, fb: &TsFile, s: Settlement, r: Result<(), Error>) -> bool {
    exists|m: State, fm: TsFile, settled: state_tx::Tx, r1: Result<(), Error>| #[trigger]
        settled_through(a, fa, m, fm, settled, r1, b, fb, s, r)
}

/// What a step does that first makes out what is to be settled, with the
/// result `plan`, and then settles it: where nothing is made out, that is
/// the error and nothing changes.
pub open spec fn plan_post(
    a: &State,
    fa: &TsFile,
    b: &State,
    fb: &TsFile,
    plan: Result<Settlement, Error>,
    r: Result<(), Error>,
) -> bool {
    match plan {
        Err(e) => r == Err::<(), Error>(e) && *b == *a && *fb == *fa,
        Ok(s) => order_settled(a, fa, b, fb, s, r),
    }
}

/// The borrow order of the auction that ends with transaction `tx_id`, and
/// its place in the log, with the matched interest of the auction.
pub open spec fn spec_auction_borrower(a: &State, fa: &TsFile, from: nat) -> Result<
    (usize, state_tx::Tx, Scalar),
    Error,
> {
    match spec_find_back(a, fa, from, TAG_AUC_MATCH, TAG_AUC_START) {
        Err(e) => Err(e),
        Ok((start_at, start)) => match start.raw_tx {
            Tx::TxAucStart(s) => if s.borrower_tx_offset > start_at {
                Err(Error::InvalidTxType)
            } else {
                let at = (start_at - s.borrower_tx_offset) as usize;
                match a.txs.spec_get(fa, at as nat) {
                    Err(e) => Err(e),
                    Ok(borrower) => Ok((at, borrower, s.ori_matched_interest)),
                }
            },
            _ => Err(Error::InvalidTxType),
        },
    }
}

/// The days from the end of an auction to the maturity of its loans, and
/// the token of the debt: those of the lend order of the last match before
/// transaction `tx_id`; none, and token zero, where the auction had no match.
pub open spec fn spec_end_days(a: &State, fa: &TsFile, tx_id: usize, t: TxAucEnd) -> Result<
    (Scalar, u64),
    Error,
> {
    match a.txs.spec_get(fa, (tx_id - 1) as nat) {
        Err(e) => Err(e),
        Ok(last) => match last.raw_tx {
            Tx::TxAucMatch(m) => if m.lender_tx_offset > tx_id - 1 {
                Err(Error::InvalidTxType)
            } else {
                match a.txs.spec_get(fa, (tx_id - 1 - m.lender_tx_offset) as nat) {
                    Err(e) => Err(e),
                    Ok(order) => match order.raw_tx {
                        Tx::TxAucLend(l) => if t.matched_time@ <= l.maturity_time@ + DAY - 1 {
                            Ok(
                                (
                                    Scalar::spec_new(
                                        spec_calc_days(t.matched_time@, l.maturity_time@),
                                    ),
                                    l.lending_token_id,
                                ),
                            )
                        } else {
                            Err(Error::InvalidTxType)
                        },
                        _ => Err(Error::InvalidTxType),
                    },
                }
            },
            Tx::TxAucStart(_) => Ok((Scalar::spec_new(0), 0)),
            _ => Err(Error::InvalidTxType),
        },
    }
}

/// What the end of an auction settles: the borrow order of the auction is
/// charged the fee on what it borrowed since it was last settled; it gives
/// up the collateral that went since, and takes what it borrowed less the
/// fee; it is complete where all its collateral has gone.
pub open spec fn spec_auc_end_plan(a: &State, fa: &TsFile, tx_id: usize, t: TxAucEnd) -> Result<
    Settlement,
    Error,
> {
    if tx_id == 0 {
        Err(Error::InvalidTxType)
    } else {
        match spec_auction_borrower(a, fa, (tx_id - 1) as nat) {
            Err(e) => Err(e),
            Ok((at, borrower, matched_pir)) => match borrower.raw_tx {
                Tx::TxAucBorrow(raw) => match spec_end_days(a, fa, tx_id, t) {
                    Err(e) => Err(e),
                    Ok((days, debt_token_id)) => {
                        let matched = spec_sub(borrower.cum_target_amt, borrower.ori_cum_target_amt);
                        let collateral = spec_sub(
                            borrower.cum_deducted_amt,
                            borrower.ori_cum_deducted_amt,
                        );
                        let (fee, charged) = spec_charged(
                            borrower,
                            primary_market::spec_calc_fee(
                                raw.fee_rate@,
                                matched@,
                                matched_pir@,
                                days@,
                            ),
                            spec_capped_credit(
                                borrower.credit_amt@,
                                borrower.cum_fee_amt@,
                                raw.primary_borrow_min_fee_amt@,
                                matched@,
                            ),
                        );
                        Ok(
                            Settlement {
                                order_id: at,
                                order: charged,
                                account_id: raw.sender_id,
                                sell_token_id: t.collateral_token_id,
                                sell_total: collateral,
                                buy_token_id: debt_token_id,
                                buy_net: spec_sub(matched, fee),
                                complete: charged.cum_deducted_amt == raw.collateral_amt,
                            },
                        )
                    },
                },
                _ => Err(Error::InvalidTxType),
            },
        }
    }
}

/// The sum of two elements.
pub open spec fn spec_add(x: Scalar, y: Scalar) -> Scalar {
    Scalar::spec_new(fadd(x@, y@))
}

/// The taker of the limit match whose exchanges end at `from`, and its
/// place in the log.
pub open spec fn spec_limit_taker(a: &State, fa: &TsFile, from: nat) -> Result<
    (usize, state_tx::Tx),
    Error,
> {
    match spec_find_back(a, fa, from, TAG_SEC_LIMIT_EXCHANGE, TAG_SEC_LIMIT_START) {
        Err(e) => Err(e),
        Ok((start_at, start)) => match start.raw_tx {
            Tx::TxSecLimitStart(s) => if s.taker_tx_offset > start_at {
                Err(Error::InvalidTxType)
            } else {
                let at = (start_at - s.taker_tx_offset) as usize;
                match a.txs.spec_get(fa, at as nat) {
                    Err(e) => Err(e),
                    Ok(taker) => Ok((at, taker)),
                }
            },
            _ => Err(Error::InvalidTxType),
        },
    }
}

/// What is settled of the order `order` at `at`, which sells `sell_amt` of
/// token `sell_token_id` for `buy_amt` of token `buy_token_id`, after its
/// matches: the order is charged its fee at the rate `fee_rate`, with the
/// least fee `min_fee`; it gives up what it sold since it was last settled
/// with the fee on that, and takes what it bought less the fee on that; it
/// is complete where it has sold, or bought, all it was to.
pub open spec fn spec_order_settlement(
    at: usize,
    order: state_tx::Tx,
    account_id: u64,
    sell_token_id: u64,
    buy_token_id: u64,
    sell_amt: Scalar,
    buy_amt: Scalar,
    fee_rate: Scalar,
    min_fee: Scalar,
    side: bool,
    days: Scalar,
) -> Settlement {
    let sold = spec_sub(order.cum_deducted_amt, order.ori_cum_deducted_amt);
    let bought = spec_sub(order.cum_target_amt, order.ori_cum_target_amt);
    let (fees, charged) = spec_sec_fees(order, side, fee_rate, sold, bought, days, min_fee);
    Settlement {
        order_id: at,
        order: charged,
        account_id,
        sell_token_id,
        sell_total: spec_add(sold, fees.0),
        buy_token_id,
        buy_net: spec_sub(bought, fees.1),
        complete: if side {
            charged.cum_deducted_amt == sell_amt
        } else {
            charged.cum_target_amt == buy_amt
        },
    }
}

/// What the end of a limit match settles: its taker, at the taker's rate.
pub open spec fn spec_limit_end_plan(a: &State, fa: &TsFile, tx_id: usize, t: TxSecLimitEnd) -> Result<
    Settlement,
    Error,
> {
    if tx_id == 0 {
        Err(Error::InvalidTxType)
    } else {
        match spec_limit_taker(a, fa, (tx_id - 1) as nat) {
            Err(e) => Err(e),
            Ok((at, taker)) => match taker.raw_tx {
                Tx::TxSecLimitOrder(o) => match spec_bond_days(
                    a,
                    fa,
                    o.buy_token_id,
                    o.sell_token_id,
                    t.matched_time,
                ) {
                    Err(e) => Err(e),
                    Ok((side, days, _)) => Ok(
                        spec_order_settlement(
                            at,
                            taker,
                            o.sender_id,
                            o.sell_token_id,
                            o.buy_token_id,
                            o.sell_amt,
                            o.buy_amt,
                            o.fee0,
                            o.secondary_taker_min_fee_amt,
                            side,
                            days,
                        ),
                    ),
                },
                _ => Err(Error::InvalidTxType),
            },
        }
    }
}

/// What the end of a market match settles: its market order, at the
/// taker's rate.
pub open spec fn spec_market_end_plan(a: &State, fa: &TsFile, tx_id: usize, t: TxSecMarketEnd) -> Result<
    Settlement,
    Error,
> {
    if tx_id == 0 {
        Err(Error::InvalidTxType)
    } else {
        match spec_find_back(
            a,
            fa,
            (tx_id - 1) as nat,
            TAG_SEC_MARKET_EXCHANGE,
            TAG_SEC_MARKET_ORDER,
        ) {
            Err(e) => Err(e),
            Ok((at, taker)) => match taker.raw_tx {
                Tx::TxSecMarketOrder(o) => match spec_bond_days(
                    a,
                    fa,
                    o.buy_token_id,
                    o.sell_token_id,
                    t.matched_time,
                ) {
                    Err(e) => Err(e),
                    Ok((side, days, _)) => Ok(
                        spec_order_settlement(
                            at,
                            taker,
                            o.sender_id,
                            o.sell_token_id,
                            o.buy_token_id,
                            o.sell_amt,
                            o.buy_amt,
                            o.fee0,
                            o.secondary_taker_min_fee_amt,
                            side,
                            days,
                        ),
                    ),
                },
                _ => Err(Error::InvalidTxType),
            },
        }
    }
}

/// What a swap in account `account_id` does: it succeeds exactly where the
/// account's balances of both tokens can be changed; `sell_total` of token
/// `sell_token_id` is then debited, and `buy_net` of token `buy_token_id` is
/// credited; the log stays as it is.
pub open spec fn swapped(
    a: &State,
    fa: &TsFile,
    b: &State,
    fb: &TsFile,
    account_id: u64,
    sell_token_id: u64,
    sell_total: Scalar,
    buy_token_id: u64,
    buy_net: Scalar,
    r: Result<(), Error>,
) -> bool {
    let before = balances(a, fa, account_id);
    let paid = with_balance(
        before,
        sell_token_id,
        before(sell_token_id as nat).spec_outgo(sell_total),
    );
    &&& stepped(a, fa, b, fb)
    &&& forall|j: nat| #[trigger] b.txs.spec_get(fb, j) == a.txs.spec_get(fa, j)
    &&& account_step(
        a,
        fa,
        account_id,
        writable(a, fa, account_id, sell_token_id) && a.spec_token_in_range(buy_token_id),
        r,
    )
    &&& load_first(a, fa, account_id, r)
    &&& load_refused(a, fa, b, fb, account_id)
    &&& r is Ok ==> others_stay(a, fa, b, fb, account_id) && b.lies_apart(fb, account_id as nat)
    &&& r is Ok ==> account_is(
        b,
        fb,
        account_id,
        record(a, fa, account_id).l2_addr,
        record(a, fa, account_id).nonce,
        with_balance(paid, buy_token_id, paid(buy_token_id as nat).spec_income(buy_net)),
    )
}

/// What the end of a market match does with what `s` describes, by way of
/// the state `m` over `fm` that the swap in the account left with the result
/// `r1`: where the swap failed, that is the end; else the order, with what it
/// was matched noted as settled, is stored at its place in the log.
pub open spec fn market_end_through(
    a: &State,
    fa: &TsFile,
    m: State,
    fm: TsFile,
    r1: Result<(), Error>,
    b: &State,
    fb: &TsFile,
    s: Settlement,
    r: Result<(), Error>,
) -> bool {
    &&& m.wf(&fm)
    &&& swapped(
        a,
        fa,
        &m,
        &fm,
        s.account_id,
        s.sell_token_id,
        s.sell_total,
        s.buy_token_id,
        s.buy_net,
        r1,
    )
    &&& if r1 is Err {
        r == r1 && *b == m && *fb == fm
    } else {
        r is Ok && put_post(&m, &fm, b, fb, s.order_id, spec_marked(s.order))
    }
}

/// What the end of a market match does: where nothing is made out to
/// settle, that is the error and nothing changes; else the swap in the
/// account, and then the storing of the order.
pub open spec fn market_end_post(
    a: &State,
    fa: &TsFile,
    b: &State,
    fb: &TsFile,
    plan: Result<Settlement, Error>,
    r: Result<(), Error>,
) -> bool {
    match plan {
        Err(e) => r == Err::<(), Error>(e) && *b == *a && *fb == *fa,
        Ok(s) => exists|m: State, fm: TsFile, r1: Result<(), Error>| #[trigger]
            market_end_through(a, fa, m, fm, r1, b, fb, s, r),
    }
}

/// What the settling of `s` and the storing, after it, of the record
/// `other` as transaction `other_id` do, by way of the state `m` over `fm`
/// that the settling left with the result `r1`: where the settling failed,
/// that is the end.
pub open spec fn settled_put_through(
    a: &State,
    fa: &TsFile,
    m: State,
    fm: TsFile,
    r1: Result<(), Error>,
    b: &State,
    fb: &TsFile,
    s: Settlement,
    other_id: usize,
    other: state_tx::Tx,
    r: Result<(), Error>,
) -> bool {
    &&& m.wf(&fm)
    &&& order_settled(a, fa, &m, &fm, s, r1)
    &&& if r1 is Err {
        r == r1 && *b == m && *fb == fm
    } else {
        r is Ok && put_post(&m, &fm, b, fb, other_id, other)
    }
}

/// What the settling of `s` and the storing, after it, of the record
/// `other` as transaction `other_id` do.
pub open spec fn settled_then_put(
    a: &State,
    fa: &TsFile,
    b: &State,
    fb: &TsFile,
    s: Settlement,
    other_id: usize,
    other: state_tx::Tx,
    r: Result<(), Error>,
) -> bool {
    exists|m: State, fm: TsFile, r1: Result<(), Error>| #[trigger]
        settled_put_through(a, fa, m, fm, r1, b, fb, s, other_id, other, r)
}

/// What a match of the order `taker` against the maker order at
/// `maker_tx_id` makes of the taker, and what it settles of the maker: the
/// two are matched over the days from `matched_time` to the maturity of the
/// maker's bond, and the maker is settled at the maker's rate. There is no
/// match where the maker cannot be read or is no limit order, the bond has
/// no days, or the two cannot be matched.
pub open spec fn spec_exchange_plan(
    a: &State,
    fa: &TsFile,
    taker: state_tx::Tx,
    maker_tx_id: usize,
    matched_time: Scalar,
) -> Result<(state_tx::Tx, Settlement), Error> {
    match a.txs.spec_get(fa, maker_tx_id as nat) {
        Err(e) => Err(e),
        Ok(maker) => match maker.raw_tx {
            Tx::TxSecLimitOrder(m) => match spec_bond_days(
                a,
                fa,
                m.buy_token_id,
                m.sell_token_id,
                matched_time,
            ) {
                Err(e) => Err(e),
                Ok((side, days, _)) => match secondary_market::spec_exchanged(
                    taker,
                    maker,
                    days,
                    side,
                ) {
                    Err(e) => Err(e),
                    Ok((taker1, maker1)) => Ok(
                        (
                            taker1,
                            spec_order_settlement(
                                maker_tx_id,
                                maker1,
                                m.sender_id,
                                m.sell_token_id,
                                m.buy_token_id,
                                m.sell_amt,
                                m.buy_amt,
                                m.fee1,
                                m.secondary_maker_min_fee_amt,
                                side,
                                days,
                            ),
                        ),
                    ),
                },
            },
            _ => Err(Error::InvalidTxType),
        },
    }
}

/// What an exchange does, which made `after` of the taker `before`: where
/// there is no match, that is the error and nothing changes; else the taker
/// is as the match leaves it, and the maker is settled.
pub open spec fn exchange_post(
    a: &State,
    fa: &TsFile,
    b: &State,
    fb: &TsFile,
    before: state_tx::Tx,
    after: state_tx::Tx,
    maker_tx_id: usize,
    matched_time: Scalar,
    r: Result<(), Error>,
) -> bool {
    match spec_exchange_plan(a, fa, before, maker_tx_id, matched_time) {
        Err(e) => r == Err::<(), Error>(e) && *b == *a && *fb == *fa && after == before,
        Ok((taker1, s)) => after == taker1 && order_settled(a, fa, b, fb, s, r),
    }
}

/// What a step does that matches the taker `found.1`, which is transaction
/// `found.0`, against the maker at `found.2` at the time `found.3`, and
/// then stores the taker: where the two were not found, or there is no
/// match, that is the error and nothing changes.
pub open spec fn exchange_step(
    a: &State,
    fa: &TsFile,
    b: &State,
    fb: &TsFile,
    found: Result<(usize, state_tx::Tx, usize, Scalar), Error>,
    r: Result<(), Error>,
) -> bool {
    match found {
        Err(e) => r == Err::<(), Error>(e) && *b == *a && *fb == *fa,
        Ok((taker_tx_id, taker, maker_tx_id, matched_time)) => match spec_exchange_plan(
            a,
            fa,
            taker,
            maker_tx_id,
            matched_time,
        ) {
            Err(e) => r == Err::<(), Error>(e) && *b == *a && *fb == *fa,
            Ok((taker1, s)) => settled_then_put(a, fa, b, fb, s, taker_tx_id, taker1, r),
        },
    }
}

/// The taker of the limit match that the exchange at transaction `tx_id`
/// belongs to, with its place in the log, the place of the maker, and the
/// time of the match, which the end of the match holds.
pub open spec fn spec_limit_exchange_found(
    a: &State,
    fa: &TsFile,
    tx_id: usize,
    t: TxSecLimitExchange,
) -> Result<(usize, state_tx::Tx, usize, Scalar), Error> {
    if tx_id == 0 || tx_id == usize::MAX {
        Err(Error::InvalidTxType)
    } else {
        match spec_limit_taker(a, fa, (tx_id - 1) as nat) {
            Err(e) => Err(e),
            Ok((taker_tx_id, taker)) => match spec_find_forth(
                a,
                fa,
                (tx_id + 1) as nat,
                TAG_SEC_LIMIT_EXCHANGE,
                TAG_SEC_LIMIT_END,
            ) {
                Err(e) => Err(e),
                Ok((_, end)) => match end.raw_tx {
                    Tx::TxSecLimitEnd(e) => if t.maker_tx_offset > tx_id {
                        Err(Error::InvalidTxType)
                    } else {
                        Ok(
                            (
                                taker_tx_id,
                                taker,
                                (tx_id - t.maker_tx_offset) as usize,
                                e.matched_time,
                            ),
                        )
                    },
                    _ => Err(Error::InvalidTxType),
                },
            },
        }
    }
}

/// The market order that the exchange at transaction `tx_id` belongs to,
/// with its place in the log, the place of the maker, and the time of the
/// match, which the end of the match holds.
pub open spec fn spec_market_exchange_found(
    a: &State,
    fa: &TsFile,
    tx_id: usize,
    t: TxSecMarketExchange,
) -> Result<(usize, state_tx::Tx, usize, Scalar), Error> {
    if tx_id == 0 || tx_id == usize::MAX {
        Err(Error::InvalidTxType)
    } else {
        match spec_find_back(
            a,
            fa,
            (tx_id - 1) as nat,
            TAG_SEC_MARKET_EXCHANGE,
            TAG_SEC_MARKET_ORDER,
        ) {
            Err(e) => Err(e),
            Ok((taker_tx_id, taker)) => match spec_find_forth(
                a,
                fa,
                (tx_id + 1) as nat,
                TAG_SEC_MARKET_EXCHANGE,
                TAG_SEC_MARKET_END,
            ) {
                Err(e) => Err(e),
                Ok((_, end)) => match end.raw_tx {
                    Tx::TxSecMarketEnd(e) => if t.maker_tx_offset > tx_id {
                        Err(Error::InvalidTxType)
                    } else {
                        Ok(
                            (
                                taker_tx_id,
                                taker,
                                (tx_id - t.maker_tx_offset) as usize,
                                e.matched_time,
                            ),
                        )
                    },
                    _ => Err(Error::InvalidTxType),
                },
            },
        }
    }
}

/// What a match of an auction settles, and the borrow order as the match
/// leaves it, with its place in the log. The lend order that the match
/// names is matched against the borrow order of the auction, at the
/// auction's interest and over the days from the time of the match, which
/// the end of the auction holds, to the maturity of the loan. The lender is
/// charged the fee on what was lent, gives up what was lent with the fee on
/// it, and takes the debt in the bond of the loan; the lend order is complete
/// where it has lent all it was to.
pub open spec fn spec_auc_match_plan(a: &State, fa: &TsFile, tx_id: usize, t: TxAucMatch) -> Result<
    (Settlement, usize, state_tx::Tx),
    Error,
> {
    if tx_id == 0 || tx_id == usize::MAX {
        Err(Error::InvalidTxType)
    } else {
        match spec_auction_borrower(a, fa, (tx_id - 1) as nat) {
            Err(e) => Err(e),
            Ok((borrower_tx_id, borrower, matched_pir)) => match spec_find_forth(
                a,
                fa,
                (tx_id + 1) as nat,
                TAG_AUC_MATCH,
                TAG_AUC_END,
            ) {
                Err(e) => Err(e),
                Ok((_, end)) => match end.raw_tx {
                    Tx::TxAucEnd(e) => match spec_find_bond(
                        a,
                        fa,
                        (TSBInfo { base_token_id: e.debt_token_id, maturity: e.maturity }),
                        0,
                    ) {
                        Err(e) => Err(e),
                        Ok(bond_token_id) => if t.lender_tx_offset > tx_id {
                            Err(Error::InvalidTxType)
                        } else {
                            spec_lender_plan(
                                a,
                                fa,
                                (tx_id - t.lender_tx_offset) as usize,
                                borrower_tx_id,
                                borrower,
                                matched_pir,
                                e.matched_time,
                                bond_token_id,
                            )
                        },
                    },
                    _ => Err(Error::InvalidTxType),
                },
            },
        }
    }
}

/// What a match of the lend order at `lender_tx_id` against the borrow
/// order `borrower` settles, and the borrow order as the match leaves it.
pub open spec fn spec_lender_plan(
    a: &State,
    fa: &TsFile,
    lender_tx_id: usize,
    borrower_tx_id: usize,
    borrower: state_tx::Tx,
    matched_pir: Scalar,
    matched_time: Scalar,
    bond_token_id: u64,
) -> Result<(Settlement, usize, state_tx::Tx), Error> {
    match a.txs.spec_get(fa, lender_tx_id as nat) {
        Err(e) => Err(e),
        Ok(lender) => match lender.raw_tx {
            Tx::TxAucLend(raw) => if !(matched_time@ <= raw.maturity_time@ + DAY - 1) {
                Err(Error::InvalidTxType)
            } else {
                let days = Scalar::spec_new(spec_calc_days(matched_time@, raw.maturity_time@));
                match primary_market::spec_lent(borrower, lender, days, matched_pir) {
                    Err(e) => Err(e),
                    Ok((borrower1, lender1)) => {
                        let lent = spec_sub(lender1.cum_deducted_amt, lender1.ori_cum_deducted_amt);
                        let debt = spec_sub(lender1.cum_target_amt, lender1.ori_cum_target_amt);
                        let (fee, charged) = spec_charged(
                            lender1,
                            primary_market::spec_calc_fee(
                                raw.fee_rate@,
                                lent@,
                                fadd(raw.default_matched_interest_rate@, ONE_FIXED as nat),
                                days@,
                            ),
                            spec_max(lender1.credit_amt@, raw.primary_lend_min_fee_amt@),
                        );
                        Ok(
                            (
                                Settlement {
                                    order_id: lender_tx_id,
                                    order: charged,
                                    account_id: raw.lender_id,
                                    sell_token_id: raw.lending_token_id,
                                    sell_total: spec_add(lent, fee),
                                    buy_token_id: bond_token_id,
                                    buy_net: debt,
                                    complete: charged.cum_deducted_amt == raw.lending_amt,
                                },
                                borrower_tx_id,
                                borrower1,
                            ),
                        )
                    },
                }
            },
            _ => Err(Error::InvalidTxType),
        },
    }
}

/// What a match of an auction does: where nothing is made out to settle,
/// that is the error and nothing changes; else the lender is settled, and
/// the borrow order is then stored.
pub open spec fn auc_match_post(
    a: &State,
    fa: &TsFile,
    b: &State,
    fb: &TsFile,
    plan: Result<(Settlement, usize, state_tx::Tx), Error>,
    r: Result<(), Error>,
) -> bool {
    match plan {
        Err(e) => r == Err::<(), Error>(e) && *b == *a && *fb == *fa,
        Ok((s, borrower_tx_id, borrower)) => settled_then_put(
            a,
            fa,
            b,
            fb,
            s,
            borrower_tx_id,
            borrower,
            r,
        ),
    }
}

/// Whether a transaction only marks a phase, and changes nothing.
pub open spec fn spec_marks_phase(raw_tx: Tx) -> bool {
    match raw_tx {
        Tx::TxNoop(_) | Tx::TxAucStart(_) | Tx::TxSecLimitStart(_) | Tx::TxIncreaseEpoch(_)
        | Tx::TxWithdrawFee(_) | Tx::TxSecMarketOrder(_) | Tx::TxSetAdminTsAddr(_) => true,
        _ => false,
    }
}

/// What the transaction `raw_tx`, which is transaction `tx_id` of the log,
/// has made of the state once applied: a transaction that only marks a phase
/// leaves state and arena as they were; one that moves funds of its own
/// accounts, places or cancels an order, or creates a bond, has the effect
/// that is stated for its kind.
pub open spec fn applied(a: &State, fa: &TsFile, b: &State, fb: &TsFile, tx_id: usize, raw_tx: Tx) -> bool {
    match raw_tx {
        Tx::TxNoop(_) | Tx::TxAucStart(_) | Tx::TxSecLimitStart(_) | Tx::TxIncreaseEpoch(_)
        | Tx::TxWithdrawFee(_) | Tx::TxSecMarketOrder(_) | Tx::TxSetAdminTsAddr(_) => *b == *a
            && *fb == *fa,
        Tx::TxRegister(t) => registered(a, fa, b, fb, t) && others_stay(a, fa, b, fb, t.account_id),
        Tx::TxDeposit(t) => deposited(a, fa, b, fb, t) && others_stay(a, fa, b, fb, t.account_id),
        Tx::TxForcedWithdraw(t) => forced_out(a, fa, b, fb, t) && others_stay(a, fa, b, fb, t.account_id),
        Tx::TxTransfer(t) => transferred(a, fa, b, fb, t) && transfer_done(a, fa, b, fb, t),
        Tx::TxWithdraw(t) => withdrawn(a, fa, b, fb, t) && others_stay(a, fa, b, fb, t.account_id),
        Tx::TxCreateTsbBondToken(t) => bond_created(b, fb, t),
        Tx::TxRedeem(t) => redeemed(a, fa, b, fb, t) && others_stay(a, fa, b, fb, t.sender_id),
        Tx::TxAucLend(t) => lend_placed(a, fa, b, fb, tx_id, t) && others_stay(a, fa, b, fb, t.lender_id),
        Tx::TxAucBorrow(t) => borrow_placed(a, fa, b, fb, tx_id, t) && others_stay(a, fa, b, fb, t.sender_id),
        Tx::TxAdminCancel(t) => cancelled(a, fa, b, fb, t.tx_id, None),
        Tx::TxUserCancel(t) => cancelled(
            a,
            fa,
            b,
            fb,
            t.tx_id,
            Some((t.tx_fee_token_id, t.tx_fee_amt)),
        ),
        Tx::TxEvacuation(t) => evacuated(a, fa, b, fb, t) && others_stay(a, fa, b, fb, t.sender_id),
        Tx::TxSecLimitOrder(t) => limit_placed(a, fa, b, fb, tx_id, t) && others_stay(a, fa, b, fb, t.sender_id),
        _ => true,
    }
}

/// What a search backward from transaction `at` finds: the first
/// transaction of the kind `stop` and its place, stepping over transactions
/// of the kind `skip` only; `CorruptLayout` where a transaction cannot be
/// read, `InvalidTxType` where one of another kind is met or the log ends.
pub open spec fn spec_find_back(a: &State, fa: &TsFile, at: nat, skip: u64, stop: u64) -> Result<
    (usize, state_tx::Tx),
    Error,
>
    decreases at,
{
    match a.txs.spec_get(fa, at) {
        Err(_) => Err(Error::CorruptLayout),
        Ok(order) => if spec_kind(order) == stop {
            Ok((at as usize, order))
        } else if spec_kind(order) != skip || at == 0 {
            Err(Error::InvalidTxType)
        } else {
            spec_find_back(a, fa, (at - 1) as nat, skip, stop)
        },
    }
}

/// What a search forward from transaction `at` finds: the first transaction
/// of the kind `stop` and its place, stepping over transactions of the kind
/// `skip` only; `CorruptLayout` where a transaction cannot be read,
/// `InvalidTxType` where one of another kind is met or the machine has no
/// further index.
pub open spec fn spec_find_forth(a: &State, fa: &TsFile, at: nat, skip: u64, stop: u64) -> Result<
    (usize, state_tx::Tx),
    Error,
>
    decreases usize::MAX - at,
{
    match a.txs.spec_get(fa, at) {
        Err(_) => Err(Error::CorruptLayout),
        Ok(order) => if spec_kind(order) == stop {
            Ok((at as usize, order))
        } else if spec_kind(order) != skip || at >= usize::MAX {
            Err(Error::InvalidTxType)
        } else {
            spec_find_forth(a, fa, at + 1, skip, stop)
        },
    }
}

/// The first bond from bond `from` on whose metadata is `info`, or
/// `InvalidTxType` where there is none that the machine has an index for.
pub open spec fn spec_find_bond(a: &State, fa: &TsFile, info: TSBInfo, from: nat) -> Result<
    u64,
    Error,
>
    decreases u64::MAX - from,
{
    if from > usize::MAX {
        Err(Error::InvalidTxType)
    } else if a.tsb_infos.spec_get(fa, from) == Ok::<TSBInfo, Error>(info) {
        Ok(from as u64)
    } else if from >= u64::MAX {
        Err(Error::InvalidTxType)
    } else {
        spec_find_bond(a, fa, info, from + 1)
    }
}

impl<'a> State<'a> {
    /// Looks backward from transaction `from` for the first transaction of
    /// the kind `stop`, stepping over transactions of the kind `skip` only.
    pub fn find_back(&self, file: &TsFile, from: usize, skip: u64, stop: u64) -> (r: Result<
        (usize, state_tx::Tx),
        Error,
    >)
        requires
            self.wf(file),
            skip != stop,
        ensures
            r == spec_find_back(self, file, from as nat, skip, stop),
            r is Ok ==> ({
                let (at, found) = r->Ok_0;
                &&& at <= from
                &&& self.txs.spec_get(file, at as nat) == Ok::<state_tx::Tx, Error>(found)
                &&& spec_kind(found) == stop
                &&& forall|j: nat|
                    at < j <= from ==> self.txs.spec_get(file, j) is Ok && spec_kind(
                        self.txs.spec_get(file, j)->Ok_0,
                    ) == skip
            }),
            r is Err ==> r->Err_0 == Error::InvalidTxType || r->Err_0 == Error::CorruptLayout,
    {
        let mut at: usize = from;
        loop
            invariant
                self.wf(file),
                at <= from,
                spec_find_back(self, file, from as nat, skip, stop) == spec_find_back(
                    self,
                    file,
                    at as nat,
                    skip,
                    stop,
                ),
                skip != stop,
                forall|j: nat|
                    at < j <= from ==> self.txs.spec_get(file, j) is Ok && spec_kind(
                        self.txs.spec_get(file, j)->Ok_0,
                    ) == skip,
            decreases at,
        {
            let order = match self.tx_at(file, at) {
                Ok(t) => t,
                Err(_) => {
                    return Err(Error::CorruptLayout);
                },
            };
            let k: u64 = kind(&order);
            if k == stop {
                return Ok((at, order));
            }
            if k != skip || at == 0 {
                return Err(Error::InvalidTxType);
            }
            at = at - 1;
        }
    }

    /// Looks forward from transaction `from` for the first transaction of the
    /// kind `stop`, stepping over transactions of the kind `skip` only.
    pub fn find_forth(&self, file: &TsFile, from: usize, skip: u64, stop: u64) -> (r: Result<
        (usize, state_tx::Tx),
        Error,
    >)
        requires
            self.wf(file),
            skip != stop,
        ensures
            r == spec_find_forth(self, file, from as nat, skip, stop),
            r is Ok ==> ({
                let (at, found) = r->Ok_0;
                &&& at >= from
                &&& self.txs.spec_get(file, at as nat) == Ok::<state_tx::Tx, Error>(found)
                &&& spec_kind(found) == stop
                &&& forall|j: nat|
                    from <= j < at ==> self.txs.spec_get(file, j) is Ok && spec_kind(
                        self.txs.spec_get(file, j)->Ok_0,
                    ) == skip
            }),
            r is Err ==> r->Err_0 == Error::InvalidTxType || r->Err_0 == Error::CorruptLayout,
    {
        let mut at: usize = from;
        loop
            invariant
                self.wf(file),
                at >= from,
                spec_find_forth(self, file, from as nat, skip, stop) == spec_find_forth(
                    self,
                    file,
                    at as nat,
                    skip,
                    stop,
                ),
                skip != stop,
                forall|j: nat|
                    from <= j < at ==> self.txs.spec_get(file, j) is Ok && spec_kind(
                        self.txs.spec_get(file, j)->Ok_0,
                    ) == skip,
            decreases usize::MAX - at,
        {
            let order = match self.tx_at(file, at) {
                Ok(t) => t,
                Err(_) => {
                    return Err(Error::CorruptLayout);
                },
            };
            let k: u64 = kind(&order);
            if k == stop {
                return Ok((at, order));
            }
            if k != skip || at == usize::MAX {
                return Err(Error::InvalidTxType);
            }
            at = at + 1;
        }
    }

    /// The first bond whose metadata is `info`, looking from bond zero up.
    pub fn find_bond(&self, file: &TsFile, info: &TSBInfo) -> (r: Result<u64, Error>)
        requires
            self.wf(file),
        ensures
            r == spec_find_bond(self, file, *info, 0),
            r is Ok ==> self.tsb_infos.spec_get(file, r->Ok_0 as nat) == Ok::<TSBInfo, Error>(*info)
                && forall|j: nat|
                j < r->Ok_0 ==> self.tsb_infos.spec_get(file, j) != Ok::<TSBInfo, Error>(*info),
            r is Err ==> r->Err_0 == Error::InvalidTxType,
    {
        let mut bond_token_id: u64 = 0;
        loop
            invariant
                self.wf(file),
                spec_find_bond(self, file, *info, 0) == spec_find_bond(
                    self,
                    file,
                    *info,
                    bond_token_id as nat,
                ),
                forall|j: nat|
                    j < bond_token_id ==> self.tsb_infos.spec_get(file, j) != Ok::<TSBInfo, Error>(
                        *info,
                    ),
            decreases u64::MAX - bond_token_id,
        {
            if bond_token_id > usize::MAX as u64 {
                return Err(Error::InvalidTxType);
            }
            let found = self.tsb_info_at(file, bond_token_id as usize);
            match found {
                Ok(there) => {
                    if there == *info {
                        return Ok(bond_token_id);
                    }
                },
                Err(_) => {},
            }
            if bond_token_id == u64::MAX {
                return Err(Error::InvalidTxType);
            }
            bond_token_id = bond_token_id + 1;
        }
    }
}

/// The number `x` as an index, or `InvalidTxType` where the machine has no
/// index that large.
pub fn to_index(x: u64) -> (r: Result<usize, Error>)
    ensures
        x <= usize::MAX ==> r == Ok::<usize, Error>(x as usize),
        x > usize::MAX ==> r == Err::<usize, Error>(Error::InvalidTxType),
{
    if x > usize::MAX as u64 {
        Err(Error::InvalidTxType)
    } else {
        Ok(x as usize)
    }
}

/// The index `offset` before `at`, or `InvalidTxType` where there is none.
pub fn back(at: usize, offset: u64) -> (r: Result<usize, Error>)
    ensures
        offset <= at ==> r == Ok::<usize, Error>((at - offset) as usize),
        offset > at ==> r == Err::<usize, Error>(Error::InvalidTxType),
{
    if offset > usize::MAX as u64 || offset as usize > at {
        Err(Error::InvalidTxType)
    } else {
        Ok(at - offset as usize)
    }
}

/// The order `order` after the fee `expected` was charged to it and its
/// credit became `new_credit`, and what was charged.
pub open spec fn spec_charged(order: state_tx::Tx, expected: nat, new_credit: nat) -> (
    Scalar,
    state_tx::Tx,
) {
    (
        Scalar::spec_new(
            spec_charge(order.credit_amt@, order.cum_fee_amt@, expected, new_credit).charged,
        ),
        state_tx::Tx {
            credit_amt: Scalar::spec_new(new_credit),
            cum_fee_amt: Scalar::spec_new(fadd(order.cum_fee_amt@, expected)),
            ..order
        },
    )
}

/// The fees of a match on the secondary market for the order `order`, on
/// what it sold and on what it bought, and the order after they were
/// charged.
pub open spec fn spec_sec_fees(
    order: state_tx::Tx,
    side: bool,
    fee_rate: Scalar,
    matched_sell_amt: Scalar,
    matched_buy_amt: Scalar,
    days: Scalar,
    min_fee: Scalar,
) -> ((Scalar, Scalar), state_tx::Tx) {
    if side {
        let (fee, charged) = spec_charged(
            order,
            secondary_market::spec_calc_fee(fee_rate@, matched_sell_amt@, days@),
            spec_capped_credit(
                order.credit_amt@,
                order.cum_fee_amt@,
                min_fee@,
                matched_buy_amt@,
            ),
        );
        ((Scalar::spec_new(0), fee), charged)
    } else {
        let (fee, charged) = spec_charged(
            order,
            secondary_market::spec_calc_fee(fee_rate@, matched_buy_amt@, days@),
            spec_max(order.credit_amt@, min_fee@),
        );
        ((fee, Scalar::spec_new(0)), charged)
    }
}

/// What is settled of the order `order` at `at` after its matches.
pub fn order_settlement(
    at: usize,
    order: state_tx::Tx,
    account_id: u64,
    sell_token_id: u64,
    buy_token_id: u64,
    sell_amt: Scalar,
    buy_amt: Scalar,
    fee_rate: Scalar,
    min_fee: Scalar,
    side: bool,
    days: Scalar,
) -> (r: Settlement)
    ensures
        r == spec_order_settlement(
            at,
            order,
            account_id,
            sell_token_id,
            buy_token_id,
            sell_amt,
            buy_amt,
            fee_rate,
            min_fee,
            side,
            days,
        ),
{
    let mut charged = order;
    let sold: Scalar = charged.cum_deducted_amt.sub(&charged.ori_cum_deducted_amt);
    let bought: Scalar = charged.cum_target_amt.sub(&charged.ori_cum_target_amt);
    sold.check_reduced_spec();
    bought.check_reduced_spec();
    let (fee_from_sell_amt, fee_from_buy_amt) = sec_fees(
        &mut charged,
        side,
        fee_rate,
        sold,
        bought,
        days,
        min_fee,
    );
    let complete: bool = if side {
        charged.cum_deducted_amt == sell_amt
    } else {
        charged.cum_target_amt == buy_amt
    };
    let sell_total: Scalar = sold.add(&fee_from_sell_amt);
    let buy_net: Scalar = bought.sub(&fee_from_buy_amt);
    sell_total.check_reduced_spec();
    buy_net.check_reduced_spec();
    Settlement {
        order_id: at,
        order: charged,
        account_id,
        sell_token_id,
        sell_total,
        buy_token_id,
        buy_net,
        complete,
    }
}

/// The fees of a match on the secondary market for the order `order`: what
/// is charged on what it sold and on what it bought. An order on the side of
/// the bond is charged on what it bought, against what it was matched; an
/// order on the other side on what it sold.
pub fn sec_fees(
    order: &mut state_tx::Tx,
    side: bool,
    fee_rate: Scalar,
    matched_sell_amt: Scalar,
    matched_buy_amt: Scalar,
    days: Scalar,
    min_fee: Scalar,
) -> (r: (Scalar, Scalar))
    ensures
        side ==> r.0@ == 0 && r.1@ == spec_charge(
            old(order).credit_amt@,
            old(order).cum_fee_amt@,
            secondary_market::spec_calc_fee(fee_rate@, matched_sell_amt@, days@),
            spec_capped_credit(
                old(order).credit_amt@,
                old(order).cum_fee_amt@,
                min_fee@,
                matched_buy_amt@,
            ),
        ).charged,
        !side ==> r.1@ == 0 && r.0@ == spec_charge(
            old(order).credit_amt@,
            old(order).cum_fee_amt@,
            secondary_market::spec_calc_fee(fee_rate@, matched_buy_amt@, days@),
            spec_max(old(order).credit_amt@, min_fee@),
        ).charged,
        final(order).raw_tx == old(order).raw_tx,
        final(order).cum_deducted_amt == old(order).cum_deducted_amt,
        final(order).cum_target_amt == old(order).cum_target_amt,
        final(order).ori_cum_deducted_amt == old(order).ori_cum_deducted_amt,
        final(order).ori_cum_target_amt == old(order).ori_cum_target_amt,
        final(order).locked_amt == old(order).locked_amt,
        (r, *final(order)) == spec_sec_fees(
            *old(order),
            side,
            fee_rate,
            matched_sell_amt,
            matched_buy_amt,
            days,
            min_fee,
        ),
{
    if side {
        let expected: Scalar = secondary_market::calc_fee(fee_rate, matched_sell_amt, days);
        let fee: Scalar = charge_capped(order, expected, min_fee, matched_buy_amt);
        (Scalar::zero(), fee)
    } else {
        let expected: Scalar = secondary_market::calc_fee(fee_rate, matched_buy_amt, days);
        let fee: Scalar = charge_floor(order, expected, min_fee);
        (fee, Scalar::zero())
    }
}

impl<'a> State<'a> {
    /// Whether an order that buys `buy_token_id` for `sell_token_id` is on the
    /// side of the bond, and the days from `matched_time` to the maturity of
    /// the bond: an order that buys a token that is no bond sells one.
    pub fn bond_days(&self, file: &TsFile, buy_token_id: u64, sell_token_id: u64, since: Scalar) -> (r:
        Result<(bool, Scalar, Scalar), Error>)
        requires
            self.wf(file),
        ensures
            r == spec_bond_days(self, file, buy_token_id, sell_token_id, since),
            r is Err ==> r->Err_0 == Error::InvalidTxType,
    {
        let buy: usize = to_index(buy_token_id)?;
        let mut leaf: TSBInfo = match self.tsb_info_at(file, buy) {
            Ok(l) => l,
            Err(_) => {
                return Err(Error::InvalidTxType);
            },
        };
        let side: bool = leaf.base_token_id == 0;
        if side {
            let sell: usize = to_index(sell_token_id)?;
            leaf = match self.tsb_info_at(file, sell) {
                Ok(l) => l,
                Err(_) => {
                    return Err(Error::InvalidTxType);
                },
            };
        }
        let days: Scalar = days_between(since, leaf.maturity)?;
        days.check_reduced_spec();
        Ok((side, days, leaf.maturity))
    }

    /// Gives account `acc_id` the address `l2_addr`.
    pub fn on_register(&mut self, file: &mut TsFile, t: TxRegister) -> (r: Result<(), Error>)
        requires
            old(self).wf(old(file)),
        ensures
            stepped(old(self), old(file), final(self), final(file)),
            r is Ok ==> registered(old(self), old(file), final(self), final(file), t),
            r is Ok ==> others_stay(old(self), old(file), final(self), final(file), t.account_id),
            load_refused(old(self), old(file), final(self), final(file), t.account_id),
            register_step(
                old(self),
                old(file),
                t,
                r,
            ),
    {
        let mut acc = self.load_account(file, t.account_id)?;
        let ghost loaded = acc;
        acc.set_l2_addr(t.hashed_pub_key)?;
        let ghost changed = acc;
        let r = self.store_account(file, t.account_id, acc);
        proof {
            if r is Ok {
                old(self).lemma_balance(old(file), t.account_id as nat, &loaded);
                self.lemma_balance(file, t.account_id as nat, &changed);
            }
        }
        r
    }

    /// Credits the deposit to the account.
    pub fn on_deposit(&mut self, file: &mut TsFile, t: TxDeposit) -> (r: Result<(), Error>)
        requires
            old(self).wf(old(file)),
        ensures
            stepped(old(self), old(file), final(self), final(file)),
            r is Ok ==> deposited(old(self), old(file), final(self), final(file), t),
            r is Ok ==> others_stay(old(self), old(file), final(self), final(file), t.account_id),
            load_refused(old(self), old(file), final(self), final(file), t.account_id),
            deposit_step(
                old(self),
                old(file),
                t,
                r,
            ),
    {
        let mut acc = self.load_account(file, t.account_id)?;
        let ghost loaded = acc;
        self.account_income(file, &mut acc, t.deposit_token_id, t.deposit_amt)?;
        let ghost changed = acc;
        let r = self.store_account(file, t.account_id, acc);
        proof {
            if r is Ok {
                old(self).lemma_balance(old(file), t.account_id as nat, &loaded);
                self.lemma_balance(file, t.account_id as nat, &changed);
            }
        }
        r
    }

    /// Debits the withdrawal from the account.
    pub fn on_forced_withdraw(&mut self, file: &mut TsFile, t: TxForcedWithdraw) -> (r: Result<
        (),
        Error,
    >)
        requires
            old(self).wf(old(file)),
        ensures
            stepped(old(self), old(file), final(self), final(file)),
            r is Ok ==> forced_out(old(self), old(file), final(self), final(file), t),
            r is Ok ==> others_stay(old(self), old(file), final(self), final(file), t.account_id),
            load_refused(old(self), old(file), final(self), final(file), t.account_id),
            forced_step(
                old(self),
                old(file),
                t,
                r,
            ),
    {
        let mut acc = self.load_account(file, t.account_id)?;
        let ghost loaded = acc;
        self.account_outgo(file, &mut acc, t.withdraw_token_id, t.withdraw_amt)?;
        let ghost changed = acc;
        let r = self.store_account(file, t.account_id, acc);
        proof {
            if r is Ok {
                old(self).lemma_balance(old(file), t.account_id as nat, &loaded);
                self.lemma_balance(file, t.account_id as nat, &changed);
            }
        }
        r
    }

    /// The first half of a transfer: debits the sender, whose nonce rises.
    pub fn send(&mut self, file: &mut TsFile, t: TxTransfer) -> (r: Result<(), Error>)
        requires
            old(self).wf(old(file)),
        ensures
            sent(old(self), old(file), final(self), final(file), t, r),
    {
        let mut sender = self.load_account(file, t.sender_id)?;
        let ghost loaded = sender;
        self.account_outgo(file, &mut sender, t.transfer_token_id, t.transfer_amt)?;
        sender.increase_nonce()?;
        sender.nonce.check_reduced_spec();
        let ghost changed = sender;
        let r = self.store_account(file, t.sender_id, sender);
        proof {
            if r is Ok {
                old(self).lemma_balance(old(file), t.sender_id as nat, &loaded);
                self.lemma_balance(file, t.sender_id as nat, &changed);
            }
        }
        r
    }

    /// The second half of a transfer: credits the receiver.
    pub fn receive(&mut self, file: &mut TsFile, t: TxTransfer) -> (r: Result<(), Error>)
        requires
            old(self).wf(old(file)),
        ensures
            received(old(self), old(file), final(self), final(file), t, r),
    {
        let mut receiver = self.load_account(file, t.receiver_id)?;
        let ghost loaded = receiver;
        self.account_income(file, &mut receiver, t.transfer_token_id, t.transfer_amt)?;
        let ghost changed = receiver;
        let r = self.store_account(file, t.receiver_id, receiver);
        proof {
            if r is Ok {
                old(self).lemma_balance(old(file), t.receiver_id as nat, &loaded);
                self.lemma_balance(file, t.receiver_id as nat, &changed);
            }
        }
        r
    }

    /// Debits the sender, whose nonce rises, and credits the receiver.
    pub fn on_transfer(&mut self, file: &mut TsFile, t: TxTransfer) -> (r: Result<(), Error>)
        requires
            old(self).wf(old(file)),
        ensures
            stepped(old(self), old(file), final(self), final(file)),
            r is Ok ==> transferred(old(self), old(file), final(self), final(file), t),
            r is Ok ==> transfer_done(old(self), old(file), final(self), final(file), t),
            transfer_post(old(self), old(file), final(self), final(file), t, r),
    {
        let first = self.send(file, t);
        let ghost mid = *self;
        let ghost fm = *file;
        match first {
            Ok(_) => {},
            Err(e) => {
                proof {
                    assert(transfer_through(old(self), old(file), mid, fm, first, self, file, t, first));
                }
                return Err(e);
            },
        }
        let r = self.receive(file, t);
        proof {
            assert(transfer_through(old(self), old(file), mid, fm, first, self, file, t, r));
            if r is Ok {
                assert(transferred_by(old(self), old(file), mid, fm, self, file, t));
                lemma_transfer_done(old(self), old(file), &mid, &fm, self, file, t);
            }
        }
        r
    }

    /// Debits the withdrawal and the fee from the account, whose nonce rises.
    pub fn on_withdraw(&mut self, file: &mut TsFile, t: TxWithdraw) -> (r: Result<(), Error>)
        requires
            old(self).wf(old(file)),
        ensures
            stepped(old(self), old(file), final(self), final(file)),
            r is Ok ==> withdrawn(old(self), old(file), final(self), final(file), t),
            r is Ok ==> others_stay(old(self), old(file), final(self), final(file), t.account_id),
            load_refused(old(self), old(file), final(self), final(file), t.account_id),
            withdraw_step(
                old(self),
                old(file),
                t,
                r,
            ),
    {
        let mut acc = self.load_account(file, t.account_id)?;
        let ghost loaded = acc;
        self.account_outgo(file, &mut acc, t.withdraw_token_id, t.withdraw_amt)?;
        self.account_outgo(file, &mut acc, t.tx_fee_token_id, t.tx_fee_amt)?;
        acc.increase_nonce()?;
        acc.nonce.check_reduced_spec();
        let ghost changed = acc;
        let r = self.store_account(file, t.account_id, acc);
        proof {
            if r is Ok {
                old(self).lemma_balance(old(file), t.account_id as nat, &loaded);
                self.lemma_balance(file, t.account_id as nat, &changed);
            }
        }
        r
    }

    /// Stores the metadata of the new bond.
    pub fn on_create_tsb_bond_token(&mut self, file: &mut TsFile, t: TxCreateTsbBondToken) -> (r:
        Result<(), Error>)
        requires
            old(self).wf(old(file)),
        ensures
            stepped(old(self), old(file), final(self), final(file)),
            r is Ok <==> t.bond_token_id <= usize::MAX,
            r is Ok ==> bond_created(final(self), final(file), t),
            r is Err ==> r->Err_0 == Error::InvalidTxType,
    {
        let bond: usize = to_index(t.bond_token_id)?;
        let info = TSBInfo { base_token_id: t.base_token_id, maturity: t.maturity };
        self.tsb_info_put(file, bond, &info)
    }

    /// Locks what a lend order lends, with the fee it may come to owe.
    pub fn on_auc_lend(&mut self, file: &mut TsFile, tx_id: usize, t: TxAucLend) -> (r: Result<
        (),
        Error,
    >)
        requires
            old(self).wf(old(file)),
        ensures
            stepped(old(self), old(file), final(self), final(file)),
            r is Ok ==> lend_placed(old(self), old(file), final(self), final(file), tx_id, t),
            r is Ok ==> others_stay(old(self), old(file), final(self), final(file), t.lender_id),
            load_refused(old(self), old(file), final(self), final(file), t.lender_id),
            lend_step(
                old(self),
                old(file),
                tx_id,
                t,
                r,
            ),
    {
        let mut acc = self.load_account(file, t.lender_id)?;
        let ghost loaded = acc;
        let days_from_matched: Scalar = days_between(t.matched_time, t.maturity_time)?;
        let expected_fee_amt: Scalar = primary_market::calc_fee(
            t.fee_rate,
            t.lending_amt,
            t.default_matched_interest_rate.add(&_1fixed()),
            days_from_matched,
        );
        let amt_to_be_lock: Scalar = t.lending_amt.add(
            &max(t.primary_lend_min_fee_amt, expected_fee_amt),
        );
        amt_to_be_lock.check_reduced_spec();
        let mut current_tx = self.tx_at(file, tx_id)?;
        current_tx.locked_amt = amt_to_be_lock;
        self.tx_put(file, tx_id, &current_tx)?;
        self.account_lock(file, &mut acc, t.lending_token_id, amt_to_be_lock)?;
        let ghost changed = acc;
        let r = self.store_account(file, t.lender_id, acc);
        proof {
            if r is Ok {
                old(self).lemma_balance(old(file), t.lender_id as nat, &loaded);
                self.lemma_balance(file, t.lender_id as nat, &changed);
            }
        }
        r
    }

    /// Locks the collateral of a borrow order.
    pub fn on_auc_borrow(&mut self, file: &mut TsFile, tx_id: usize, t: TxAucBorrow) -> (r: Result<
        (),
        Error,
    >)
        requires
            old(self).wf(old(file)),
        ensures
            stepped(old(self), old(file), final(self), final(file)),
            r is Ok ==> borrow_placed(old(self), old(file), final(self), final(file), tx_id, t),
            r is Ok ==> others_stay(old(self), old(file), final(self), final(file), t.sender_id),
            load_refused(old(self), old(file), final(self), final(file), t.sender_id),
            borrow_step(
                old(self),
                old(file),
                tx_id,
                t,
                r,
            ),
    {
        let mut acc = self.load_account(file, t.sender_id)?;
        let ghost loaded = acc;
        let amt_to_be_lock: Scalar = t.collateral_amt;
        self.account_lock(file, &mut acc, t.collateral_token_id, amt_to_be_lock)?;
        let mut current_tx = self.tx_at(file, tx_id)?;
        current_tx.locked_amt = amt_to_be_lock;
        self.tx_put(file, tx_id, &current_tx)?;
        let ghost changed = acc;
        let r = self.store_account(file, t.sender_id, acc);
        proof {
            if r is Ok {
                old(self).lemma_balance(old(file), t.sender_id as nat, &loaded);
                self.lemma_balance(file, t.sender_id as nat, &changed);
            }
        }
        r
    }

    /// Unlocks `locked` of token `token_id` in account `account_id`, and
    /// debits the fee `fee` where there is one. The log stays as it is.
    pub fn release(
        &mut self,
        file: &mut TsFile,
        account_id: u64,
        token_id: u64,
        locked: Scalar,
        fee: Option<(u64, Scalar)>,
    ) -> (r: Result<(), Error>)
        requires
            old(self).wf(old(file)),
        ensures
            stepped(old(self), old(file), final(self), final(file)),
            forall|j: nat|
                final(self).txs.spec_get(final(file), j) == old(self).txs.spec_get(old(file), j),
            r is Ok ==> exists|acc: Account| #[trigger]
                held_as(
                    final(self),
                    final(file),
                    acc,
                    account_id,
                    record(old(self), old(file), account_id).l2_addr,
                    record(old(self), old(file), account_id).nonce,
                    released(balances(old(self), old(file), account_id), token_id, locked, fee),
                ),
            account_step(
                old(self),
                old(file),
                account_id,
                release_able(old(self), old(file), account_id, token_id, fee),
                r,
            ),
            load_first(old(self), old(file), account_id, r),
            r is Ok ==> others_stay(old(self), old(file), final(self), final(file), account_id)
                && final(self).lies_apart(final(file), account_id as nat),
            load_refused(old(self), old(file), final(self), final(file), account_id),
    {
        let mut acc = self.load_account(file, account_id)?;
        let ghost loaded = acc;
        self.account_unlock(file, &mut acc, token_id, locked)?;
        match fee {
            Some((fee_token_id, fee_amt)) => {
                self.account_outgo(file, &mut acc, fee_token_id, fee_amt)?;
            },
            None => {},
        }
        let ghost changed = acc;
        let r = self.store_account(file, account_id, acc);
        proof {
            if r is Ok {
                old(self).lemma_balance(old(file), account_id as nat, &loaded);
                assert(held_as(
                    self,
                    file,
                    changed,
                    account_id,
                    record(old(self), old(file), account_id).l2_addr,
                    record(old(self), old(file), account_id).nonce,
                    released(balances(old(self), old(file), account_id), token_id, locked, fee),
                ));
            }
        }
        r
    }

    /// Unlocks what the cancelled order `order_id` still locks, and debits
    /// the fee `fee` of token `fee_token_id` where there is one.
    pub fn cancel(&mut self, file: &mut TsFile, order_id: u64, fee: Option<(u64, Scalar)>) -> (r:
        Result<(), Error>)
        requires
            old(self).wf(old(file)),
        ensures
            stepped(old(self), old(file), final(self), final(file)),
            r is Ok ==> cancelled(old(self), old(file), final(self), final(file), order_id, fee),
            cancel_step(
                old(self),
                old(file),
                final(self),
                final(file),
                order_id,
                fee,
                r,
            ),
    {
        let at: usize = to_index(order_id)?;
        let mut order = self.tx_at(file, at)?;
        let (account_id, token_id): (u64, u64) = match order.raw_tx {
            Tx::TxAucLend(o) => (o.lender_id, o.lending_token_id),
            Tx::TxAucBorrow(o) => (o.sender_id, o.collateral_token_id),
            Tx::TxSecLimitOrder(o) => (o.sender_id, o.sell_token_id),
            Tx::TxSecMarketOrder(o) => (o.sender_id, o.sell_token_id),
            _ => {
                return Err(Error::InvalidTxType);
            },
        };
        self.release(file, account_id, token_id, order.locked_amt, fee)?;
        let ghost stored = *self;
        let ghost stored_file = *file;
        let ghost l2_addr = record(old(self), old(file), account_id).l2_addr;
        let ghost nonce = record(old(self), old(file), account_id).nonce;
        let ghost held = released(
            balances(old(self), old(file), account_id),
            token_id,
            order.locked_amt,
            fee,
        );
        order.locked_amt = Scalar::zero();
        let r = self.tx_put(file, at, &order);
        proof {
            let acc = choose|acc: Account|
                held_as(&stored, &stored_file, acc, account_id, l2_addr, nonce, held);
            assert(self.holds(file, &acc));
            assert forall|j: nat| #[trigger]
                acc.tokens.spec_leaf_at(file, j) == Ok::<Token, Error>(held(j)) by {
                assert(acc.tokens.spec_leaf_at(&stored_file, j) == Ok::<Token, Error>(held(j)));
            }
            lemma_held_is(self, file, acc, account_id, l2_addr, nonce, held);
        }
        r
    }

    /// Takes `sell_total` of token `sell_token_id` from what is locked in
    /// account `account_id`, and credits `buy_net` of token `buy_token_id`.
    pub fn trade(
        &mut self,
        file: &mut TsFile,
        account_id: u64,
        sell_token_id: u64,
        sell_total: Scalar,
        buy_token_id: u64,
        buy_net: Scalar,
    ) -> (r: Result<(), Error>)
        requires
            old(self).wf(old(file)),
        ensures
            traded(
                old(self),
                old(file),
                final(self),
                final(file),
                account_id,
                sell_token_id,
                sell_total,
                buy_token_id,
                buy_net,
                r,
            ),
    {
        let mut acc = self.load_account(file, account_id)?;
        let ghost loaded = acc;
        self.account_deduct(file, &mut acc, sell_token_id, sell_total)?;
        self.account_income(file, &mut acc, buy_token_id, buy_net)?;
        let ghost changed = acc;
        let r = self.store_account(file, account_id, acc);
        proof {
            if r is Ok {
                old(self).lemma_balance(old(file), account_id as nat, &loaded);
                self.lemma_balance(file, account_id as nat, &changed);
            }
        }
        r
    }

    /// Moves what a match settled of `order` in the account `account_id`:
    /// `sell_total` of token `sell_token_id` leaves what is locked, `buy_net`
    /// of token `buy_token_id` comes in. An order that is complete has the
    /// rest of what it locks unlocked.
    pub fn settle(
        &mut self,
        file: &mut TsFile,
        order: &mut state_tx::Tx,
        account_id: u64,
        sell_token_id: u64,
        sell_total: Scalar,
        buy_token_id: u64,
        buy_net: Scalar,
        complete: bool,
    ) -> (r: Result<(), Error>)
        requires
            old(self).wf(old(file)),
        ensures
            stepped(old(self), old(file), final(self), final(file)),
            final(order).raw_tx == old(order).raw_tx,
            forall|j: nat|
                final(self).txs.spec_get(final(file), j) == old(self).txs.spec_get(old(file), j),
            settle_post(
                old(self),
                old(file),
                final(self),
                final(file),
                *old(order),
                *final(order),
                account_id,
                sell_token_id,
                sell_total,
                buy_token_id,
                buy_net,
                complete,
                r,
            ),
    {
        order.locked_amt = order.locked_amt.sub(&sell_total);
        order.locked_amt.check_reduced_spec();
        let first = self.trade(file, account_id, sell_token_id, sell_total, buy_token_id, buy_net);
        let ghost mid = *self;
        let ghost fm = *file;
        match first {
            Ok(_) => {},
            Err(e) => {
                proof {
                    assert(settle_through(
                        old(self),
                        old(file),
                        mid,
                        fm,
                        first,
                        self,
                        file,
                        *old(order),
                        *order,
                        account_id,
                        sell_token_id,
                        sell_total,
                        buy_token_id,
                        buy_net,
                        complete,
                        first,
                    ));
                }
                return Err(e);
            },
        }
        order.ori_cum_deducted_amt = order.cum_deducted_amt;
        order.ori_cum_target_amt = order.cum_target_amt;
        if !complete {
            proof {
                assert(settle_through(
                    old(self),
                    old(file),
                    mid,
                    fm,
                    first,
                    self,
                    file,
                    *old(order),
                    *order,
                    account_id,
                    sell_token_id,
                    sell_total,
                    buy_token_id,
                    buy_net,
                    complete,
                    Ok(()),
                ));
            }
            return Ok(());
        }
        let r = self.release(file, account_id, sell_token_id, order.locked_amt, None);
        proof {
            if r is Ok {
                let acc = choose|acc: Account|
                    held_as(
                        self,
                        file,
                        acc,
                        account_id,
                        record(&mid, &fm, account_id).l2_addr,
                        record(&mid, &fm, account_id).nonce,
                        released(balances(&mid, &fm, account_id), sell_token_id, order.locked_amt, None),
                    );
                lemma_held_is(
                    self,
                    file,
                    acc,
                    account_id,
                    record(&mid, &fm, account_id).l2_addr,
                    record(&mid, &fm, account_id).nonce,
                    released(balances(&mid, &fm, account_id), sell_token_id, order.locked_amt, None),
                );
            }
            assert(release_post(
                &mid,
                &fm,
                self,
                file,
                account_id,
                sell_token_id,
                order.locked_amt,
                None,
                r,
            ));
        }
        let ghost marked = *order;
        if r.is_ok() {
            order.locked_amt = Scalar::zero();
        }
        proof {
            assert(settle_through(
                old(self),
                old(file),
                mid,
                fm,
                first,
                self,
                file,
                *old(order),
                *order,
                account_id,
                sell_token_id,
                sell_total,
                buy_token_id,
                buy_net,
                complete,
                r,
            ));
        }
        r
    }

    /// Settles the match that `s` describes and stores its order, and then
    /// stores the record `other` as transaction `other_id`.
    pub fn settle_then_put(
        &mut self,
        file: &mut TsFile,
        s: Settlement,
        other_id: usize,
        other: &state_tx::Tx,
    ) -> (r: Result<(), Error>)
        requires
            old(self).wf(old(file)),
        ensures
            stepped(old(self), old(file), final(self), final(file)),
            settled_then_put(old(self), old(file), final(self), final(file), s, other_id, *other, r),
    {
        let first = self.settle_order(file, s);
        let ghost mid = *self;
        let ghost fm = *file;
        match first {
            Ok(_) => {},
            Err(e) => {
                proof {
                    assert(settled_put_through(
                        old(self),
                        old(file),
                        mid,
                        fm,
                        first,
                        self,
                        file,
                        s,
                        other_id,
                        *other,
                        first,
                    ));
                }
                return Err(e);
            },
        }
        let r = self.tx_put(file, other_id, other);
        proof {
            assert(put_post(&mid, &fm, self, file, other_id, *other));
            assert(settled_put_through(
                old(self),
                old(file),
                mid,
                fm,
                first,
                self,
                file,
                s,
                other_id,
                *other,
                r,
            ));
        }
        r
    }

    /// What the match of the lend order at `lender_tx_id` against the
    /// borrow order `borrower` settles.
    pub fn plan_lender(
        &self,
        file: &TsFile,
        lender_tx_id: usize,
        borrower_tx_id: usize,
        borrower: state_tx::Tx,
        matched_pir: Scalar,
        matched_time: Scalar,
        bond_token_id: u64,
    ) -> (r: Result<(Settlement, usize, state_tx::Tx), Error>)
        requires
            self.wf(file),
        ensures
            r == spec_lender_plan(
                self,
                file,
                lender_tx_id,
                borrower_tx_id,
                borrower,
                matched_pir,
                matched_time,
                bond_token_id,
            ),
    {
        let mut borrower = borrower;
        let mut lender = self.tx_at(file, lender_tx_id)?;
        let raw_lender: TxAucLend = match lender.raw_tx {
            Tx::TxAucLend(l) => l,
            _ => {
                return Err(Error::InvalidTxType);
            },
        };
        let days: Scalar = days_between(matched_time, raw_lender.maturity_time)?;
        days.check_reduced_spec();
        primary_market::mechanism(&mut borrower, &mut lender, days, matched_pir)?;
        let matched_amt: Scalar = lender.cum_deducted_amt.sub(&lender.ori_cum_deducted_amt);
        let matched_tsb_amt: Scalar = lender.cum_target_amt.sub(&lender.ori_cum_target_amt);
        matched_amt.check_reduced_spec();
        matched_tsb_amt.check_reduced_spec();
        let expected_matched_fee_amt: Scalar = primary_market::calc_fee(
            raw_lender.fee_rate,
            matched_amt,
            raw_lender.default_matched_interest_rate.add(&_1fixed()),
            days,
        );
        let matched_fee_amt: Scalar = charge_floor(
            &mut lender,
            expected_matched_fee_amt,
            raw_lender.primary_lend_min_fee_amt,
        );
        let total: Scalar = matched_amt.add(&matched_fee_amt);
        total.check_reduced_spec();
        let complete: bool = lender.cum_deducted_amt == raw_lender.lending_amt;
        Ok(
            (
                Settlement {
                    order_id: lender_tx_id,
                    order: lender,
                    account_id: raw_lender.lender_id,
                    sell_token_id: raw_lender.lending_token_id,
                    sell_total: total,
                    buy_token_id: bond_token_id,
                    buy_net: matched_tsb_amt,
                    complete,
                },
                borrower_tx_id,
                borrower,
            ),
        )
    }

    /// What the match of an auction at transaction `tx_id` settles.
    pub fn plan_auc_match(&self, file: &TsFile, tx_id: usize, t: TxAucMatch) -> (r: Result<
        (Settlement, usize, state_tx::Tx),
        Error,
    >)
        requires
            self.wf(file),
        ensures
            r == spec_auc_match_plan(self, file, tx_id, t),
    {
        if tx_id == 0 || tx_id == usize::MAX {
            return Err(Error::InvalidTxType);
        }
        let (borrower_tx_id, borrower, matched_pir) = self.auction_borrower(file, tx_id - 1)?;
        let (_, end) = self.find_forth(file, tx_id + 1, TAG_AUC_MATCH, TAG_AUC_END)?;
        let (debt_token_id, matched_time, maturity): (u64, Scalar, Scalar) = match end.raw_tx {
            Tx::TxAucEnd(e) => (e.debt_token_id, e.matched_time, e.maturity),
            _ => {
                return Err(Error::InvalidTxType);
            },
        };
        let tsb_info = TSBInfo { base_token_id: debt_token_id, maturity };
        let bond_token_id: u64 = self.find_bond(file, &tsb_info)?;
        let lender_tx_id: usize = back(tx_id, t.lender_tx_offset)?;
        self.plan_lender(
            file,
            lender_tx_id,
            borrower_tx_id,
            borrower,
            matched_pir,
            matched_time,
            bond_token_id,
        )
    }

    /// Matches one lend order against the borrow order of the auction that
    /// the match belongs to, and settles the lender.
    pub fn on_auc_match(&mut self, file: &mut TsFile, tx_id: usize, t: TxAucMatch) -> (r: Result<
        (),
        Error,
    >)
        requires
            old(self).wf(old(file)),
        ensures
            stepped(old(self), old(file), final(self), final(file)),
            auc_match_post(
                old(self),
                old(file),
                final(self),
                final(file),
                spec_auc_match_plan(old(self), old(file), tx_id, t),
                r,
            ),
    {
        let (s, borrower_tx_id, borrower) = self.plan_auc_match(file, tx_id, t)?;
        self.settle_then_put(file, s, borrower_tx_id, &borrower)
    }

    /// Settles the match that `s` describes in its account, and stores the
    /// order.
    pub fn settle_order(&mut self, file: &mut TsFile, s: Settlement) -> (r: Result<(), Error>)
        requires
            old(self).wf(old(file)),
        ensures
            stepped(old(self), old(file), final(self), final(file)),
            order_settled(old(self), old(file), final(self), final(file), s, r),
    {
        let mut order = s.order;
        let first = self.settle(
            file,
            &mut order,
            s.account_id,
            s.sell_token_id,
            s.sell_total,
            s.buy_token_id,
            s.buy_net,
            s.complete,
        );
        let ghost mid = *self;
        let ghost fm = *file;
        match first {
            Ok(_) => {},
            Err(e) => {
                proof {
                    assert(settled_through(
                        old(self),
                        old(file),
                        mid,
                        fm,
                        order,
                        first,
                        self,
                        file,
                        s,
                        first,
                    ));
                }
                return Err(e);
            },
        }
        let r = self.tx_put(file, s.order_id, &order);
        proof {
            assert(put_post(&mid, &fm, self, file, s.order_id, order));
            assert(settled_through(old(self), old(file), mid, fm, order, first, self, file, s, r));
        }
        r
    }

    /// The borrow order of the auction whose transactions end at `from`.
    pub fn auction_borrower(&self, file: &TsFile, from: usize) -> (r: Result<
        (usize, state_tx::Tx, Scalar),
        Error,
    >)
        requires
            self.wf(file),
        ensures
            r == spec_auction_borrower(self, file, from as nat),
    {
        let (start_at, start) = self.find_back(file, from, TAG_AUC_MATCH, TAG_AUC_START)?;
        let (borrower_tx_id, matched_pir): (usize, Scalar) = match start.raw_tx {
            Tx::TxAucStart(s) => (back(start_at, s.borrower_tx_offset)?, s.ori_matched_interest),
            _ => {
                return Err(Error::InvalidTxType);
            },
        };
        let borrower = self.tx_at(file, borrower_tx_id)?;
        Ok((borrower_tx_id, borrower, matched_pir))
    }

    /// What the end of the auction at transaction `tx_id` settles.
    pub fn plan_auc_end(&self, file: &TsFile, tx_id: usize, t: TxAucEnd) -> (r: Result<
        Settlement,
        Error,
    >)
        requires
            self.wf(file),
        ensures
            r == spec_auc_end_plan(self, file, tx_id, t),
    {
        if tx_id == 0 {
            return Err(Error::InvalidTxType);
        }
        let (borrower_tx_id, found, matched_pir) = self.auction_borrower(file, tx_id - 1)?;
        let mut borrower = found;
        let matched_amt: Scalar = borrower.cum_target_amt.sub(&borrower.ori_cum_target_amt);
        let matched_collateral_amt: Scalar = borrower.cum_deducted_amt.sub(
            &borrower.ori_cum_deducted_amt,
        );
        matched_amt.check_reduced_spec();
        matched_collateral_amt.check_reduced_spec();
        let raw_borrower: TxAucBorrow = match borrower.raw_tx {
            Tx::TxAucBorrow(b) => b,
            _ => {
                return Err(Error::InvalidTxType);
            },
        };
        let last = self.tx_at(file, tx_id - 1)?;
        let (days, debt_token_id): (Scalar, u64) = match last.raw_tx {
            Tx::TxAucMatch(m) => {
                let lender_at: usize = back(tx_id - 1, m.lender_tx_offset)?;
                let order = self.tx_at(file, lender_at)?;
                match order.raw_tx {
                    Tx::TxAucLend(l) => {
                        let days: Scalar = days_between(t.matched_time, l.maturity_time)?;
                        days.check_reduced_spec();
                        (days, l.lending_token_id)
                    },
                    _ => {
                        return Err(Error::InvalidTxType);
                    },
                }
            },
            Tx::TxAucStart(_) => (Scalar::zero(), 0),
            _ => {
                return Err(Error::InvalidTxType);
            },
        };
        let expected_matched_fee_amt: Scalar = primary_market::calc_fee(
            raw_borrower.fee_rate,
            matched_amt,
            matched_pir,
            days,
        );
        let matched_fee_amt: Scalar = charge_capped(
            &mut borrower,
            expected_matched_fee_amt,
            raw_borrower.primary_borrow_min_fee_amt,
            matched_amt,
        );
        let complete: bool = borrower.cum_deducted_amt == raw_borrower.collateral_amt;
        let buy_net: Scalar = matched_amt.sub(&matched_fee_amt);
        buy_net.check_reduced_spec();
        Ok(
            Settlement {
                order_id: borrower_tx_id,
                order: borrower,
                account_id: raw_borrower.sender_id,
                sell_token_id: t.collateral_token_id,
                sell_total: matched_collateral_amt,
                buy_token_id: debt_token_id,
                buy_net,
                complete,
            },
        )
    }

    /// Settles the borrower of an auction once its matches are done.
    pub fn on_auc_end(&mut self, file: &mut TsFile, tx_id: usize, t: TxAucEnd) -> (r: Result<
        (),
        Error,
    >)
        requires
            old(self).wf(old(file)),
        ensures
            stepped(old(self), old(file), final(self), final(file)),
            plan_post(
                old(self),
                old(file),
                final(self),
                final(file),
                spec_auc_end_plan(old(self), old(file), tx_id, t),
                r,
            ),
    {
        let plan = self.plan_auc_end(file, tx_id, t)?;
        self.settle_order(file, plan)
    }

    /// Locks what a limit order may come to pay: what it sells where it sells
    /// the bond, else the base quantity of what it buys with the highest fee
    /// it may come to owe.
    pub fn on_sec_limit_order(&mut self, file: &mut TsFile, tx_id: usize, t: TxSecLimitOrder) -> (r:
        Result<(), Error>)
        requires
            old(self).wf(old(file)),
        ensures
            stepped(old(self), old(file), final(self), final(file)),
            r is Ok ==> limit_placed(old(self), old(file), final(self), final(file), tx_id, t),
            r is Ok ==> others_stay(old(self), old(file), final(self), final(file), t.sender_id),
            load_refused(old(self), old(file), final(self), final(file), t.sender_id),
            limit_step(
                old(self),
                old(file),
                tx_id,
                t,
                r,
            ),
    {
        let mut acc = self.load_account(file, t.sender_id)?;
        let ghost loaded = acc;
        let (side, days_from_matched, maturity) = self.bond_days(
            file,
            t.buy_token_id,
            t.sell_token_id,
            t.matched_time,
        )?;
        let days_from_expired: Scalar = days_between(t.expired_time, maturity)?;
        let amt_to_be_lock: Scalar = if side {
            t.sell_amt
        } else {
            let days: Scalar = if t.buy_amt.lt(&t.sell_amt) {
                days_from_matched
            } else {
                days_from_expired
            };
            let divisor: Scalar = days.mul(&t.buy_amt.sub(&t.sell_amt)).add(
                &Scalar::from_u64(365).mul(&t.sell_amt),
            );
            if divisor.is_zero() {
                return Err(Error::InvalidTxType);
            }
            let base: Scalar = secondary_market::calc_new_bq(t.buy_amt, t.buy_amt, t.sell_amt, days);
            let expected_fee_amt: Scalar = secondary_market::calc_fee(
                t.buy_amt,
                if t.fee0.lt(&t.fee1) {
                    t.fee1
                } else {
                    t.fee0
                },
                days_from_matched,
            );
            let max_min_fee: Scalar = max(
                t.secondary_taker_min_fee_amt,
                t.secondary_maker_min_fee_amt,
            );
            base.add(&max(expected_fee_amt, max_min_fee))
        };
        amt_to_be_lock.check_reduced_spec();
        let mut current_tx = self.tx_at(file, tx_id)?;
        current_tx.locked_amt = amt_to_be_lock;
        self.tx_put(file, tx_id, &current_tx)?;
        self.account_lock(file, &mut acc, t.sell_token_id, amt_to_be_lock)?;
        let ghost changed = acc;
        let r = self.store_account(file, t.sender_id, acc);
        proof {
            if r is Ok {
                old(self).lemma_balance(old(file), t.sender_id as nat, &loaded);
                self.lemma_balance(file, t.sender_id as nat, &changed);
            }
        }
        r
    }

    /// What a match of `taker` against the maker order at `maker_tx_id`
    /// settles of the maker; the taker is left as the match leaves it.
    pub fn plan_exchange(
        &self,
        file: &TsFile,
        taker: &mut state_tx::Tx,
        maker_tx_id: usize,
        matched_time: Scalar,
    ) -> (r: Result<Settlement, Error>)
        requires
            self.wf(file),
        ensures
            match spec_exchange_plan(self, file, *old(taker), maker_tx_id, matched_time) {
                Err(e) => r == Err::<Settlement, Error>(e) && *final(taker) == *old(taker),
                Ok((taker1, s)) => r == Ok::<Settlement, Error>(s) && *final(taker) == taker1,
            },
    {
        let mut maker = self.tx_at(file, maker_tx_id)?;
        let m: TxSecLimitOrder = match maker.raw_tx {
            Tx::TxSecLimitOrder(m) => m,
            _ => {
                return Err(Error::InvalidTxType);
            },
        };
        let (maker_side, days, _) = self.bond_days(
            file,
            m.buy_token_id,
            m.sell_token_id,
            matched_time,
        )?;
        secondary_market::mechanism(taker, &mut maker, days, maker_side)?;
        Ok(
            order_settlement(
                maker_tx_id,
                maker,
                m.sender_id,
                m.sell_token_id,
                m.buy_token_id,
                m.sell_amt,
                m.buy_amt,
                m.fee1,
                m.secondary_maker_min_fee_amt,
                maker_side,
                days,
            ),
        )
    }

    /// Matches the maker order at `maker_tx_id` against `taker`, charges the
    /// maker and settles it.
    pub fn exchange(
        &mut self,
        file: &mut TsFile,
        taker: &mut state_tx::Tx,
        maker_tx_id: usize,
        matched_time: Scalar,
    ) -> (r: Result<(), Error>)
        requires
            old(self).wf(old(file)),
        ensures
            stepped(old(self), old(file), final(self), final(file)),
            exchange_post(
                old(self),
                old(file),
                final(self),
                final(file),
                *old(taker),
                *final(taker),
                maker_tx_id,
                matched_time,
                r,
            ),
    {
        let plan = self.plan_exchange(file, taker, maker_tx_id, matched_time)?;
        self.settle_order(file, plan)
    }

    /// Matches the taker `taker`, which is transaction `taker_tx_id`,
    /// against the maker order at `maker_tx_id`, and stores the taker.
    pub fn exchange_and_put(
        &mut self,
        file: &mut TsFile,
        taker_tx_id: usize,
        taker: state_tx::Tx,
        maker_tx_id: usize,
        matched_time: Scalar,
    ) -> (r: Result<(), Error>)
        requires
            old(self).wf(old(file)),
        ensures
            stepped(old(self), old(file), final(self), final(file)),
            exchange_step(
                old(self),
                old(file),
                final(self),
                final(file),
                Ok((taker_tx_id, taker, maker_tx_id, matched_time)),
                r,
            ),
    {
        let mut taker = taker;
        let ghost before = taker;
        let first = self.exchange(file, &mut taker, maker_tx_id, matched_time);
        let ghost mid = *self;
        let ghost fm = *file;
        match first {
            Ok(_) => {},
            Err(e) => {
                proof {
                    if let Ok((taker1, s)) = spec_exchange_plan(
                        old(self),
                        old(file),
                        before,
                        maker_tx_id,
                        matched_time,
                    ) {
                        assert(settled_put_through(
                            old(self),
                            old(file),
                            mid,
                            fm,
                            first,
                            self,
                            file,
                            s,
                            taker_tx_id,
                            taker1,
                            first,
                        ));
                    }
                }
                return Err(e);
            },
        }
        let r = self.tx_put(file, taker_tx_id, &taker);
        proof {
            assert(put_post(&mid, &fm, self, file, taker_tx_id, taker));
            let (taker1, s) = spec_exchange_plan(
                old(self),
                old(file),
                before,
                maker_tx_id,
                matched_time,
            )->Ok_0;
            assert(settled_put_through(
                old(self),
                old(file),
                mid,
                fm,
                first,
                self,
                file,
                s,
                taker_tx_id,
                taker1,
                r,
            ));
        }
        r
    }

    /// The taker and the maker of the exchange at transaction `tx_id` of a
    /// limit match, and the time of the match.
    pub fn limit_exchange_found(&self, file: &TsFile, tx_id: usize, t: TxSecLimitExchange) -> (r:
        Result<(usize, state_tx::Tx, usize, Scalar), Error>)
        requires
            self.wf(file),
        ensures
            r == spec_limit_exchange_found(self, file, tx_id, t),
    {
        if tx_id == 0 || tx_id == usize::MAX {
            return Err(Error::InvalidTxType);
        }
        let (taker_tx_id, taker) = self.limit_taker(file, tx_id - 1)?;
        let (_, end) = self.find_forth(file, tx_id + 1, TAG_SEC_LIMIT_EXCHANGE, TAG_SEC_LIMIT_END)?;
        let matched_time: Scalar = match end.raw_tx {
            Tx::TxSecLimitEnd(e) => e.matched_time,
            _ => {
                return Err(Error::InvalidTxType);
            },
        };
        let maker_tx_id: usize = back(tx_id, t.maker_tx_offset)?;
        Ok((taker_tx_id, taker, maker_tx_id, matched_time))
    }

    /// Matches one maker order against the taker of the limit match that the
    /// exchange belongs to.
    pub fn on_sec_limit_exchange(&mut self, file: &mut TsFile, tx_id: usize, t: TxSecLimitExchange) -> (r:
        Result<(), Error>)
        requires
            old(self).wf(old(file)),
        ensures
            stepped(old(self), old(file), final(self), final(file)),
            exchange_step(
                old(self),
                old(file),
                final(self),
                final(file),
                spec_limit_exchange_found(old(self), old(file), tx_id, t),
                r,
            ),
    {
        let (taker_tx_id, taker, maker_tx_id, matched_time) = self.limit_exchange_found(
            file,
            tx_id,
            t,
        )?;
        self.exchange_and_put(file, taker_tx_id, taker, maker_tx_id, matched_time)
    }

    /// The taker of the limit match whose exchanges end at `from`.
    pub fn limit_taker(&self, file: &TsFile, from: usize) -> (r: Result<
        (usize, state_tx::Tx),
        Error,
    >)
        requires
            self.wf(file),
        ensures
            r == spec_limit_taker(self, file, from as nat),
    {
        let (start_at, start) = self.find_back(
            file,
            from,
            TAG_SEC_LIMIT_EXCHANGE,
            TAG_SEC_LIMIT_START,
        )?;
        let taker_tx_id: usize = match start.raw_tx {
            Tx::TxSecLimitStart(s) => back(start_at, s.taker_tx_offset)?,
            _ => {
                return Err(Error::InvalidTxType);
            },
        };
        let taker = self.tx_at(file, taker_tx_id)?;
        Ok((taker_tx_id, taker))
    }

    /// What the end of the limit match at transaction `tx_id` settles.
    pub fn plan_limit_end(&self, file: &TsFile, tx_id: usize, t: TxSecLimitEnd) -> (r: Result<
        Settlement,
        Error,
    >)
        requires
            self.wf(file),
        ensures
            r == spec_limit_end_plan(self, file, tx_id, t),
    {
        if tx_id == 0 {
            return Err(Error::InvalidTxType);
        }
        let (taker_tx_id, found) = self.limit_taker(file, tx_id - 1)?;
        let o: TxSecLimitOrder = match found.raw_tx {
            Tx::TxSecLimitOrder(o) => o,
            _ => {
                return Err(Error::InvalidTxType);
            },
        };
        let (side, days, _) = self.bond_days(file, o.buy_token_id, o.sell_token_id, t.matched_time)?;
        Ok(
            order_settlement(
                taker_tx_id,
                found,
                o.sender_id,
                o.sell_token_id,
                o.buy_token_id,
                o.sell_amt,
                o.buy_amt,
                o.fee0,
                o.secondary_taker_min_fee_amt,
                side,
                days,
            ),
        )
    }

    /// Charges and settles the taker of a limit match once its exchanges are done.
    pub fn on_sec_limit_end(&mut self, file: &mut TsFile, tx_id: usize, t: TxSecLimitEnd) -> (r:
        Result<(), Error>)
        requires
            old(self).wf(old(file)),
        ensures
            stepped(old(self), old(file), final(self), final(file)),
            plan_post(
                old(self),
                old(file),
                final(self),
                final(file),
                spec_limit_end_plan(old(self), old(file), tx_id, t),
                r,
            ),
    {
        let plan = self.plan_limit_end(file, tx_id, t)?;
        self.settle_order(file, plan)
    }

    /// The market order and the maker of the exchange at transaction `tx_id`
    /// of a market match, and the time of the match.
    pub fn market_exchange_found(&self, file: &TsFile, tx_id: usize, t: TxSecMarketExchange) -> (r:
        Result<(usize, state_tx::Tx, usize, Scalar), Error>)
        requires
            self.wf(file),
        ensures
            r == spec_market_exchange_found(self, file, tx_id, t),
    {
        if tx_id == 0 || tx_id == usize::MAX {
            return Err(Error::InvalidTxType);
        }
        let (taker_tx_id, taker) = self.find_back(
            file,
            tx_id - 1,
            TAG_SEC_MARKET_EXCHANGE,
            TAG_SEC_MARKET_ORDER,
        )?;
        let (_, end) = self.find_forth(
            file,
            tx_id + 1,
            TAG_SEC_MARKET_EXCHANGE,
            TAG_SEC_MARKET_END,
        )?;
        let matched_time: Scalar = match end.raw_tx {
            Tx::TxSecMarketEnd(e) => e.matched_time,
            _ => {
                return Err(Error::InvalidTxType);
            },
        };
        let maker_tx_id: usize = back(tx_id, t.maker_tx_offset)?;
        Ok((taker_tx_id, taker, maker_tx_id, matched_time))
    }

    /// Matches one maker order against the market order that the exchange
    /// belongs to.
    pub fn on_sec_market_exchange(
        &mut self,
        file: &mut TsFile,
        tx_id: usize,
        t: TxSecMarketExchange,
    ) -> (r: Result<(), Error>)
        requires
            old(self).wf(old(file)),
        ensures
            stepped(old(self), old(file), final(self), final(file)),
            exchange_step(
                old(self),
                old(file),
                final(self),
                final(file),
                spec_market_exchange_found(old(self), old(file), tx_id, t),
                r,
            ),
    {
        let (taker_tx_id, taker, maker_tx_id, matched_time) = self.market_exchange_found(
            file,
            tx_id,
            t,
        )?;
        self.exchange_and_put(file, taker_tx_id, taker, maker_tx_id, matched_time)
    }

    /// What the end of the market match at transaction `tx_id` settles.
    pub fn plan_market_end(&self, file: &TsFile, tx_id: usize, t: TxSecMarketEnd) -> (r: Result<
        Settlement,
        Error,
    >)
        requires
            self.wf(file),
        ensures
            r == spec_market_end_plan(self, file, tx_id, t),
    {
        if tx_id == 0 {
            return Err(Error::InvalidTxType);
        }
        let (taker_tx_id, found) = self.find_back(
            file,
            tx_id - 1,
            TAG_SEC_MARKET_EXCHANGE,
            TAG_SEC_MARKET_ORDER,
        )?;
        let o: TxSecMarketOrder = match found.raw_tx {
            Tx::TxSecMarketOrder(o) => o,
            _ => {
                return Err(Error::InvalidTxType);
            },
        };
        let (side, days, _) = self.bond_days(file, o.buy_token_id, o.sell_token_id, t.matched_time)?;
        Ok(
            order_settlement(
                taker_tx_id,
                found,
                o.sender_id,
                o.sell_token_id,
                o.buy_token_id,
                o.sell_amt,
                o.buy_amt,
                o.fee0,
                o.secondary_taker_min_fee_amt,
                side,
                days,
            ),
        )
    }

    /// Debits `sell_total` of token `sell_token_id` from account
    /// `account_id`, and credits `buy_net` of token `buy_token_id`.
    pub fn swap(
        &mut self,
        file: &mut TsFile,
        account_id: u64,
        sell_token_id: u64,
        sell_total: Scalar,
        buy_token_id: u64,
        buy_net: Scalar,
    ) -> (r: Result<(), Error>)
        requires
            old(self).wf(old(file)),
        ensures
            swapped(
                old(self),
                old(file),
                final(self),
                final(file),
                account_id,
                sell_token_id,
                sell_total,
                buy_token_id,
                buy_net,
                r,
            ),
    {
        let mut acc = self.load_account(file, account_id)?;
        let ghost loaded = acc;
        self.account_outgo(file, &mut acc, sell_token_id, sell_total)?;
        self.account_income(file, &mut acc, buy_token_id, buy_net)?;
        let ghost changed = acc;
        let r = self.store_account(file, account_id, acc);
        proof {
            if r is Ok {
                old(self).lemma_balance(old(file), account_id as nat, &loaded);
                self.lemma_balance(file, account_id as nat, &changed);
            }
        }
        r
    }

    /// Charges the market order of a market match once its exchanges are
    /// done, and moves what it sold and bought.
    pub fn on_sec_market_end(&mut self, file: &mut TsFile, tx_id: usize, t: TxSecMarketEnd) -> (r:
        Result<(), Error>)
        requires
            old(self).wf(old(file)),
        ensures
            stepped(old(self), old(file), final(self), final(file)),
            market_end_post(
                old(self),
                old(file),
                final(self),
                final(file),
                spec_market_end_plan(old(self), old(file), tx_id, t),
                r,
            ),
    {
        let plan = self.plan_market_end(file, tx_id, t)?;
        let mut taker = plan.order;
        let first = self.swap(
            file,
            plan.account_id,
            plan.sell_token_id,
            plan.sell_total,
            plan.buy_token_id,
            plan.buy_net,
        );
        let ghost mid = *self;
        let ghost fm = *file;
        match first {
            Ok(_) => {},
            Err(e) => {
                proof {
                    assert(market_end_through(
                        old(self),
                        old(file),
                        mid,
                        fm,
                        first,
                        self,
                        file,
                        plan,
                        first,
                    ));
                }
                return Err(e);
            },
        }
        taker.ori_cum_deducted_amt = taker.cum_deducted_amt;
        taker.ori_cum_target_amt = taker.cum_target_amt;
        let r = self.tx_put(file, plan.order_id, &taker);
        proof {
            assert(put_post(&mid, &fm, self, file, plan.order_id, taker));
            assert(market_end_through(old(self), old(file), mid, fm, first, self, file, plan, r));
        }
        r
    }

    /// Exchanges bond tokens for as many of their base token; the nonce rises.
    pub fn on_redeem(&mut self, file: &mut TsFile, t: TxRedeem) -> (r: Result<(), Error>)
        requires
            old(self).wf(old(file)),
        ensures
            stepped(old(self), old(file), final(self), final(file)),
            r is Ok ==> redeemed(old(self), old(file), final(self), final(file), t),
            r is Ok ==> others_stay(old(self), old(file), final(self), final(file), t.sender_id),
            load_refused(old(self), old(file), final(self), final(file), t.sender_id),
            redeem_step(
                old(self),
                old(file),
                t,
                r,
            ),
    {
        let bond: usize = to_index(t.token_id)?;
        let base_token_id: u64 = self.tsb_info_at(file, bond)?.base_token_id;
        let mut acc = self.load_account(file, t.sender_id)?;
        let ghost loaded = acc;
        self.account_outgo(file, &mut acc, t.token_id, t.amount)?;
        self.account_income(file, &mut acc, base_token_id, t.amount)?;
        acc.increase_nonce()?;
        acc.nonce.check_reduced_spec();
        let ghost changed = acc;
        let r = self.store_account(file, t.sender_id, acc);
        proof {
            if r is Ok {
                old(self).lemma_balance(old(file), t.sender_id as nat, &loaded);
                self.lemma_balance(file, t.sender_id as nat, &changed);
            }
        }
        r
    }

    /// Debits what is evacuated.
    pub fn on_evacuation(&mut self, file: &mut TsFile, t: TxEvacuation) -> (r: Result<(), Error>)
        requires
            old(self).wf(old(file)),
        ensures
            stepped(old(self), old(file), final(self), final(file)),
            r is Ok ==> evacuated(old(self), old(file), final(self), final(file), t),
            r is Ok ==> others_stay(old(self), old(file), final(self), final(file), t.sender_id),
            load_refused(old(self), old(file), final(self), final(file), t.sender_id),
            evacuation_step(
                old(self),
                old(file),
                t,
                r,
            ),
    {
        let mut acc = self.load_account(file, t.sender_id)?;
        let ghost loaded = acc;
        self.account_outgo(file, &mut acc, t.token_id, t.amount)?;
        let ghost changed = acc;
        let r = self.store_account(file, t.sender_id, acc);
        proof {
            if r is Ok {
                old(self).lemma_balance(old(file), t.sender_id as nat, &loaded);
                self.lemma_balance(file, t.sender_id as nat, &changed);
            }
        }
        r
    }

    /// Applies transaction `tx_id` of the log to the state.
    pub fn update(&mut self, file: &mut TsFile, tx_id: usize) -> (r: Result<(), Error>)
        requires
            old(self).wf(old(file)),
        ensures
            stepped(old(self), old(file), final(self), final(file)),
            update_post(old(self), old(file), final(self), final(file), tx_id, r),
    {
        let raw_tx: Tx = self.tx_at(file, tx_id)?.raw_tx;
        match raw_tx {
            Tx::TxNoop(_) => Ok(()),
            Tx::TxRegister(t) => self.on_register(file, t),
            Tx::TxDeposit(t) => self.on_deposit(file, t),
            Tx::TxForcedWithdraw(t) => self.on_forced_withdraw(file, t),
            Tx::TxTransfer(t) => self.on_transfer(file, t),
            Tx::TxWithdraw(t) => self.on_withdraw(file, t),
            Tx::TxCreateTsbBondToken(t) => self.on_create_tsb_bond_token(file, t),
            Tx::TxAucLend(t) => self.on_auc_lend(file, tx_id, t),
            Tx::TxAucBorrow(t) => self.on_auc_borrow(file, tx_id, t),
            Tx::TxAdminCancel(t) => self.cancel(file, t.tx_id, None),
            Tx::TxUserCancel(t) => self.cancel(file, t.tx_id, Some((t.tx_fee_token_id, t.tx_fee_amt))),
            Tx::TxAucStart(_) => Ok(()),
            Tx::TxAucMatch(t) => self.on_auc_match(file, tx_id, t),
            Tx::TxAucEnd(t) => self.on_auc_end(file, tx_id, t),
            Tx::TxSecLimitOrder(t) => self.on_sec_limit_order(file, tx_id, t),
            Tx::TxSecLimitStart(_) => Ok(()),
            Tx::TxSecLimitExchange(t) => self.on_sec_limit_exchange(file, tx_id, t),
            Tx::TxSecLimitEnd(t) => self.on_sec_limit_end(file, tx_id, t),
            Tx::TxIncreaseEpoch(_) => Ok(()),
            Tx::TxRedeem(t) => self.on_redeem(file, t),
            Tx::TxWithdrawFee(_) => Ok(()),
            Tx::TxSecMarketOrder(_) => Ok(()),
            Tx::TxSecMarketExchange(t) => self.on_sec_market_exchange(file, tx_id, t),
            Tx::TxSecMarketEnd(t) => self.on_sec_market_end(file, tx_id, t),
            Tx::TxEvacuation(t) => self.on_evacuation(file, t),
            Tx::TxSetAdminTsAddr(_) => Ok(()),
        }
    }
}

} // verus!
