//! The transaction record: 512 bytes. Eight bytes of tag, the payload of the
//! variant in 280 bytes (three 64-bit numbers, then eight field elements, of
//! which a variant fills as many as it has, in the order of its fields), and
//! the seven amounts that the ledger keeps with every transaction.

use vstd::prelude::*;
use crate::array::ElemPtr;
use crate::bytes::{append, le_bytes, le_value, push_u64_le, read_u64_le, repeat, slice};
use crate::error::Error;
use crate::scalar::{modulus, Scalar};
use crate::state_tx;
use crate::tx::{
    Tx, TxAdminCancel, TxAucBorrow, TxAucEnd, TxAucLend, TxAucMatch, TxAucStart, TxCreateTsbBondToken, TxDeposit, TxEvacuation, TxForcedWithdraw, TxIncreaseEpoch, TxNoop, TxRedeem, TxRegister, TxSecLimitEnd, TxSecLimitExchange, TxSecLimitOrder, TxSecLimitStart, TxSecMarketEnd, TxSecMarketExchange, TxSecMarketOrder, TxSetAdminTsAddr, TxTransfer, TxUserCancel, TxWithdraw, TxWithdrawFee,
};

verus! {

/// A transaction taken apart: which variant it is, its numbers and its amounts.
pub struct TxFields {
    pub tag: u64,
    pub ints: (u64, u64, u64),
    pub amounts: (Scalar, Scalar, Scalar, Scalar, Scalar, Scalar, Scalar, Scalar),
}

/// The transaction `tx` taken apart.
pub open spec fn spec_flatten(tx: Tx) -> TxFields {
    match tx {
        Tx::TxNoop(t) => TxFields {
            tag: 0,
            ints: (0, 0, 0),
            amounts: (Scalar::spec_new(0), Scalar::spec_new(0), Scalar::spec_new(0), Scalar::spec_new(0), Scalar::spec_new(0), Scalar::spec_new(0), Scalar::spec_new(0), Scalar::spec_new(0)),
        },
        Tx::TxRegister(t) => TxFields {
            tag: 1,
            ints: (t.account_id, 0, 0),
            amounts: (t.hashed_pub_key, Scalar::spec_new(0), Scalar::spec_new(0), Scalar::spec_new(0), Scalar::spec_new(0), Scalar::spec_new(0), Scalar::spec_new(0), Scalar::spec_new(0)),
        },
        Tx::TxDeposit(t) => TxFields {
            tag: 2,
            ints: (t.account_id, t.deposit_token_id, 0),
            amounts: (t.deposit_amt, Scalar::spec_new(0), Scalar::spec_new(0), Scalar::spec_new(0), Scalar::spec_new(0), Scalar::spec_new(0), Scalar::spec_new(0), Scalar::spec_new(0)),
        },
        Tx::TxForcedWithdraw(t) => TxFields {
            tag: 3,
            ints: (t.account_id, t.withdraw_token_id, 0),
            amounts: (t.withdraw_amt, Scalar::spec_new(0), Scalar::spec_new(0), Scalar::spec_new(0), Scalar::spec_new(0), Scalar::spec_new(0), Scalar::spec_new(0), Scalar::spec_new(0)),
        },
        Tx::TxTransfer(t) => TxFields {
            tag: 4,
            ints: (t.sender_id, t.transfer_token_id, t.receiver_id),
            amounts: (t.transfer_amt, Scalar::spec_new(0), Scalar::spec_new(0), Scalar::spec_new(0), Scalar::spec_new(0), Scalar::spec_new(0), Scalar::spec_new(0), Scalar::spec_new(0)),
        },
        Tx::TxWithdraw(t) => TxFields {
            tag: 5,
            ints: (t.account_id, t.withdraw_token_id, t.tx_fee_token_id),
            amounts: (t.withdraw_amt, t.tx_fee_amt, Scalar::spec_new(0), Scalar::spec_new(0), Scalar::spec_new(0), Scalar::spec_new(0), Scalar::spec_new(0), Scalar::spec_new(0)),
        },
        Tx::TxAucLend(t) => TxFields {
            tag: 6,
            ints: (t.lender_id, t.lending_token_id, 0),
            amounts: (t.lending_amt, t.fee_rate, t.default_matched_interest_rate, t.maturity_time, t.matched_time, t.primary_lend_min_fee_amt, Scalar::spec_new(0), Scalar::spec_new(0)),
        },
        Tx::TxAucBorrow(t) => TxFields {
            tag: 7,
            ints: (t.sender_id, t.collateral_token_id, 0),
            amounts: (t.collateral_amt, t.fee_rate, t.borrowing_amt, t.matched_time, t.primary_borrow_min_fee_amt, Scalar::spec_new(0), Scalar::spec_new(0), Scalar::spec_new(0)),
        },
        Tx::TxAucStart(t) => TxFields {
            tag: 8,
            ints: (t.borrower_tx_offset, 0, 0),
            amounts: (t.ori_matched_interest, Scalar::spec_new(0), Scalar::spec_new(0), Scalar::spec_new(0), Scalar::spec_new(0), Scalar::spec_new(0), Scalar::spec_new(0), Scalar::spec_new(0)),
        },
        Tx::TxAucMatch(t) => TxFields {
            tag: 9,
            ints: (t.lender_tx_offset, 0, 0),
            amounts: (Scalar::spec_new(0), Scalar::spec_new(0), Scalar::spec_new(0), Scalar::spec_new(0), Scalar::spec_new(0), Scalar::spec_new(0), Scalar::spec_new(0), Scalar::spec_new(0)),
        },
        Tx::TxAucEnd(t) => TxFields {
            tag: 10,
            ints: (t.collateral_token_id, t.debt_token_id, 0),
            amounts: (t.borrow_account, t.collateral_amt, t.debt_amt, t.matched_time, t.maturity, Scalar::spec_new(0), Scalar::spec_new(0), Scalar::spec_new(0)),
        },
        Tx::TxSecLimitOrder(t) => TxFields {
            tag: 11,
            ints: (t.sender_id, t.sell_token_id, t.buy_token_id),
            amounts: (t.sell_amt, t.fee0, t.fee1, t.buy_amt, t.expired_time, t.matched_time, t.secondary_taker_min_fee_amt, t.secondary_maker_min_fee_amt),
        },
        Tx::TxSecLimitStart(t) => TxFields {
            tag: 12,
            ints: (t.taker_tx_offset, 0, 0),
            amounts: (Scalar::spec_new(0), Scalar::spec_new(0), Scalar::spec_new(0), Scalar::spec_new(0), Scalar::spec_new(0), Scalar::spec_new(0), Scalar::spec_new(0), Scalar::spec_new(0)),
        },
        Tx::TxSecLimitExchange(t) => TxFields {
            tag: 13,
            ints: (t.maker_tx_offset, 0, 0),
            amounts: (Scalar::spec_new(0), Scalar::spec_new(0), Scalar::spec_new(0), Scalar::spec_new(0), Scalar::spec_new(0), Scalar::spec_new(0), Scalar::spec_new(0), Scalar::spec_new(0)),
        },
        Tx::TxSecLimitEnd(t) => TxFields {
            tag: 14,
            ints: (0, 0, 0),
            amounts: (t.matched_time, Scalar::spec_new(0), Scalar::spec_new(0), Scalar::spec_new(0), Scalar::spec_new(0), Scalar::spec_new(0), Scalar::spec_new(0), Scalar::spec_new(0)),
        },
        Tx::TxSecMarketOrder(t) => TxFields {
            tag: 15,
            ints: (t.sender_id, t.sell_token_id, t.buy_token_id),
            amounts: (t.sell_amt, t.fee0, t.buy_amt, t.expired_time, t.secondary_taker_min_fee_amt, Scalar::spec_new(0), Scalar::spec_new(0), Scalar::spec_new(0)),
        },
        Tx::TxSecMarketExchange(t) => TxFields {
            tag: 16,
            ints: (t.maker_tx_offset, 0, 0),
            amounts: (Scalar::spec_new(0), Scalar::spec_new(0), Scalar::spec_new(0), Scalar::spec_new(0), Scalar::spec_new(0), Scalar::spec_new(0), Scalar::spec_new(0), Scalar::spec_new(0)),
        },
        Tx::TxSecMarketEnd(t) => TxFields {
            tag: 17,
            ints: (0, 0, 0),
            amounts: (t.matched_time, Scalar::spec_new(0), Scalar::spec_new(0), Scalar::spec_new(0), Scalar::spec_new(0), Scalar::spec_new(0), Scalar::spec_new(0), Scalar::spec_new(0)),
        },
        Tx::TxAdminCancel(t) => TxFields {
            tag: 18,
            ints: (t.tx_id, 0, 0),
            amounts: (Scalar::spec_new(0), Scalar::spec_new(0), Scalar::spec_new(0), Scalar::spec_new(0), Scalar::spec_new(0), Scalar::spec_new(0), Scalar::spec_new(0), Scalar::spec_new(0)),
        },
        Tx::TxUserCancel(t) => TxFields {
            tag: 19,
            ints: (t.tx_id, t.tx_fee_token_id, 0),
            amounts: (t.tx_fee_amt, Scalar::spec_new(0), Scalar::spec_new(0), Scalar::spec_new(0), Scalar::spec_new(0), Scalar::spec_new(0), Scalar::spec_new(0), Scalar::spec_new(0)),
        },
        Tx::TxIncreaseEpoch(t) => TxFields {
            tag: 20,
            ints: (0, 0, 0),
            amounts: (Scalar::spec_new(0), Scalar::spec_new(0), Scalar::spec_new(0), Scalar::spec_new(0), Scalar::spec_new(0), Scalar::spec_new(0), Scalar::spec_new(0), Scalar::spec_new(0)),
        },
        Tx::TxCreateTsbBondToken(t) => TxFields {
            tag: 21,
            ints: (t.base_token_id, t.bond_token_id, 0),
            amounts: (t.maturity, Scalar::spec_new(0), Scalar::spec_new(0), Scalar::spec_new(0), Scalar::spec_new(0), Scalar::spec_new(0), Scalar::spec_new(0), Scalar::spec_new(0)),
        },
        Tx::TxRedeem(t) => TxFields {
            tag: 22,
            ints: (t.sender_id, t.token_id, 0),
            amounts: (t.amount, Scalar::spec_new(0), Scalar::spec_new(0), Scalar::spec_new(0), Scalar::spec_new(0), Scalar::spec_new(0), Scalar::spec_new(0), Scalar::spec_new(0)),
        },
        Tx::TxWithdrawFee(t) => TxFields {
            tag: 23,
            ints: (t.token_id, 0, 0),
            amounts: (t.amount, Scalar::spec_new(0), Scalar::spec_new(0), Scalar::spec_new(0), Scalar::spec_new(0), Scalar::spec_new(0), Scalar::spec_new(0), Scalar::spec_new(0)),
        },
        Tx::TxEvacuation(t) => TxFields {
            tag: 24,
            ints: (t.sender_id, t.token_id, 0),
            amounts: (t.amount, Scalar::spec_new(0), Scalar::spec_new(0), Scalar::spec_new(0), Scalar::spec_new(0), Scalar::spec_new(0), Scalar::spec_new(0), Scalar::spec_new(0)),
        },
        Tx::TxSetAdminTsAddr(t) => TxFields {
            tag: 25,
            ints: (0, 0, 0),
            amounts: (Scalar::spec_new(0), Scalar::spec_new(0), Scalar::spec_new(0), Scalar::spec_new(0), Scalar::spec_new(0), Scalar::spec_new(0), Scalar::spec_new(0), Scalar::spec_new(0)),
        },
    }
}

/// The transaction that `f` is the parts of, if its tag names a variant.
pub open spec fn spec_unflatten(f: TxFields) -> Result<Tx, Error> {
    if f.tag == 0 {
        Ok(Tx::TxNoop(TxNoop {  }))
    } else if f.tag == 1 {
        Ok(Tx::TxRegister(TxRegister { account_id: f.ints.0, hashed_pub_key: f.amounts.0 }))
    } else if f.tag == 2 {
        Ok(Tx::TxDeposit(TxDeposit { account_id: f.ints.0, deposit_token_id: f.ints.1, deposit_amt: f.amounts.0 }))
    } else if f.tag == 3 {
        Ok(Tx::TxForcedWithdraw(TxForcedWithdraw { account_id: f.ints.0, withdraw_token_id: f.ints.1, withdraw_amt: f.amounts.0 }))
    } else if f.tag == 4 {
        Ok(Tx::TxTransfer(TxTransfer { sender_id: f.ints.0, transfer_token_id: f.ints.1, transfer_amt: f.amounts.0, receiver_id: f.ints.2 }))
    } else if f.tag == 5 {
        Ok(Tx::TxWithdraw(TxWithdraw { account_id: f.ints.0, withdraw_token_id: f.ints.1, withdraw_amt: f.amounts.0, tx_fee_token_id: f.ints.2, tx_fee_amt: f.amounts.1 }))
    } else if f.tag == 6 {
        Ok(Tx::TxAucLend(TxAucLend { lender_id: f.ints.0, lending_token_id: f.ints.1, lending_amt: f.amounts.0, fee_rate: f.amounts.1, default_matched_interest_rate: f.amounts.2, maturity_time: f.amounts.3, matched_time: f.amounts.4, primary_lend_min_fee_amt: f.amounts.5 }))
    } else if f.tag == 7 {
        Ok(Tx::TxAucBorrow(TxAucBorrow { sender_id: f.ints.0, collateral_token_id: f.ints.1, collateral_amt: f.amounts.0, fee_rate: f.amounts.1, borrowing_amt: f.amounts.2, matched_time: f.amounts.3, primary_borrow_min_fee_amt: f.amounts.4 }))
    } else if f.tag == 8 {
        Ok(Tx::TxAucStart(TxAucStart { borrower_tx_offset: f.ints.0, ori_matched_interest: f.amounts.0 }))
    } else if f.tag == 9 {
        Ok(Tx::TxAucMatch(TxAucMatch { lender_tx_offset: f.ints.0 }))
    } else if f.tag == 10 {
        Ok(Tx::TxAucEnd(TxAucEnd { borrow_account: f.amounts.0, collateral_token_id: f.ints.0, collateral_amt: f.amounts.1, debt_token_id: f.ints.1, debt_amt: f.amounts.2, matched_time: f.amounts.3, maturity: f.amounts.4 }))
    } else if f.tag == 11 {
        Ok(Tx::TxSecLimitOrder(TxSecLimitOrder { sender_id: f.ints.0, sell_token_id: f.ints.1, sell_amt: f.amounts.0, fee0: f.amounts.1, fee1: f.amounts.2, buy_token_id: f.ints.2, buy_amt: f.amounts.3, expired_time: f.amounts.4, matched_time: f.amounts.5, secondary_taker_min_fee_amt: f.amounts.6, secondary_maker_min_fee_amt: f.amounts.7 }))
    } else if f.tag == 12 {
        Ok(Tx::TxSecLimitStart(TxSecLimitStart { taker_tx_offset: f.ints.0 }))
    } else if f.tag == 13 {
        Ok(Tx::TxSecLimitExchange(TxSecLimitExchange { maker_tx_offset: f.ints.0 }))
    } else if f.tag == 14 {
        Ok(Tx::TxSecLimitEnd(TxSecLimitEnd { matched_time: f.amounts.0 }))
    } else if f.tag == 15 {
        Ok(Tx::TxSecMarketOrder(TxSecMarketOrder { sender_id: f.ints.0, sell_token_id: f.ints.1, sell_amt: f.amounts.0, fee0: f.amounts.1, buy_token_id: f.ints.2, buy_amt: f.amounts.2, expired_time: f.amounts.3, secondary_taker_min_fee_amt: f.amounts.4 }))
    } else if f.tag == 16 {
        Ok(Tx::TxSecMarketExchange(TxSecMarketExchange { maker_tx_offset: f.ints.0 }))
    } else if f.tag == 17 {
        Ok(Tx::TxSecMarketEnd(TxSecMarketEnd { matched_time: f.amounts.0 }))
    } else if f.tag == 18 {
        Ok(Tx::TxAdminCancel(TxAdminCancel { tx_id: f.ints.0 }))
    } else if f.tag == 19 {
        Ok(Tx::TxUserCancel(TxUserCancel { tx_id: f.ints.0, tx_fee_token_id: f.ints.1, tx_fee_amt: f.amounts.0 }))
    } else if f.tag == 20 {
        Ok(Tx::TxIncreaseEpoch(TxIncreaseEpoch {  }))
    } else if f.tag == 21 {
        Ok(Tx::TxCreateTsbBondToken(TxCreateTsbBondToken { maturity: f.amounts.0, base_token_id: f.ints.0, bond_token_id: f.ints.1 }))
    } else if f.tag == 22 {
        Ok(Tx::TxRedeem(TxRedeem { sender_id: f.ints.0, token_id: f.ints.1, amount: f.amounts.0 }))
    } else if f.tag == 23 {
        Ok(Tx::TxWithdrawFee(TxWithdrawFee { token_id: f.ints.0, amount: f.amounts.0 }))
    } else if f.tag == 24 {
        Ok(Tx::TxEvacuation(TxEvacuation { sender_id: f.ints.0, token_id: f.ints.1, amount: f.amounts.0 }))
    } else if f.tag == 25 {
        Ok(Tx::TxSetAdminTsAddr(TxSetAdminTsAddr {  }))
    } else {
        Err(Error::CorruptLayout)
    }
}

/// Taking a transaction apart and putting it together again gives it back.
pub proof fn lemma_flatten_round_trip(tx: Tx)
    ensures
        spec_unflatten(spec_flatten(tx)) == Ok::<Tx, Error>(tx),
{
}

/// The transaction `tx` taken apart.
pub fn flatten(tx: &Tx) -> (f: TxFields)
    ensures
        f == spec_flatten(*tx),
{
    let zero = Scalar::zero();
    match *tx {
        Tx::TxNoop(t) => TxFields {
            tag: 0,
            ints: (0, 0, 0),
            amounts: (zero, zero, zero, zero, zero, zero, zero, zero),
        },
        Tx::TxRegister(t) => TxFields {
            tag: 1,
            ints: (t.account_id, 0, 0),
            amounts: (t.hashed_pub_key, zero, zero, zero, zero, zero, zero, zero),
        },
        Tx::TxDeposit(t) => TxFields {
            tag: 2,
            ints: (t.account_id, t.deposit_token_id, 0),
            amounts: (t.deposit_amt, zero, zero, zero, zero, zero, zero, zero),
        },
        Tx::TxForcedWithdraw(t) => TxFields {
            tag: 3,
            ints: (t.account_id, t.withdraw_token_id, 0),
            amounts: (t.withdraw_amt, zero, zero, zero, zero, zero, zero, zero),
        },
        Tx::TxTransfer(t) => TxFields {
            tag: 4,
            ints: (t.sender_id, t.transfer_token_id, t.receiver_id),
            amounts: (t.transfer_amt, zero, zero, zero, zero, zero, zero, zero),
        },
        Tx::TxWithdraw(t) => TxFields {
            tag: 5,
            ints: (t.account_id, t.withdraw_token_id, t.tx_fee_token_id),
            amounts: (t.withdraw_amt, t.tx_fee_amt, zero, zero, zero, zero, zero, zero),
        },
        Tx::TxAucLend(t) => TxFields {
            tag: 6,
            ints: (t.lender_id, t.lending_token_id, 0),
            amounts: (t.lending_amt, t.fee_rate, t.default_matched_interest_rate, t.maturity_time, t.matched_time, t.primary_lend_min_fee_amt, zero, zero),
        },
        Tx::TxAucBorrow(t) => TxFields {
            tag: 7,
            ints: (t.sender_id, t.collateral_token_id, 0),
            amounts: (t.collateral_amt, t.fee_rate, t.borrowing_amt, t.matched_time, t.primary_borrow_min_fee_amt, zero, zero, zero),
        },
        Tx::TxAucStart(t) => TxFields {
            tag: 8,
            ints: (t.borrower_tx_offset, 0, 0),
            amounts: (t.ori_matched_interest, zero, zero, zero, zero, zero, zero, zero),
        },
        Tx::TxAucMatch(t) => TxFields {
            tag: 9,
            ints: (t.lender_tx_offset, 0, 0),
            amounts: (zero, zero, zero, zero, zero, zero, zero, zero),
        },
        Tx::TxAucEnd(t) => TxFields {
            tag: 10,
            ints: (t.collateral_token_id, t.debt_token_id, 0),
            amounts: (t.borrow_account, t.collateral_amt, t.debt_amt, t.matched_time, t.maturity, zero, zero, zero),
        },
        Tx::TxSecLimitOrder(t) => TxFields {
            tag: 11,
            ints: (t.sender_id, t.sell_token_id, t.buy_token_id),
            amounts: (t.sell_amt, t.fee0, t.fee1, t.buy_amt, t.expired_time, t.matched_time, t.secondary_taker_min_fee_amt, t.secondary_maker_min_fee_amt),
        },
        Tx::TxSecLimitStart(t) => TxFields {
            tag: 12,
            ints: (t.taker_tx_offset, 0, 0),
            amounts: (zero, zero, zero, zero, zero, zero, zero, zero),
        },
        Tx::TxSecLimitExchange(t) => TxFields {
            tag: 13,
            ints: (t.maker_tx_offset, 0, 0),
            amounts: (zero, zero, zero, zero, zero, zero, zero, zero),
        },
        Tx::TxSecLimitEnd(t) => TxFields {
            tag: 14,
            ints: (0, 0, 0),
            amounts: (t.matched_time, zero, zero, zero, zero, zero, zero, zero),
        },
        Tx::TxSecMarketOrder(t) => TxFields {
            tag: 15,
            ints: (t.sender_id, t.sell_token_id, t.buy_token_id),
            amounts: (t.sell_amt, t.fee0, t.buy_amt, t.expired_time, t.secondary_taker_min_fee_amt, zero, zero, zero),
        },
        Tx::TxSecMarketExchange(t) => TxFields {
            tag: 16,
            ints: (t.maker_tx_offset, 0, 0),
            amounts: (zero, zero, zero, zero, zero, zero, zero, zero),
        },
        Tx::TxSecMarketEnd(t) => TxFields {
            tag: 17,
            ints: (0, 0, 0),
            amounts: (t.matched_time, zero, zero, zero, zero, zero, zero, zero),
        },
        Tx::TxAdminCancel(t) => TxFields {
            tag: 18,
            ints: (t.tx_id, 0, 0),
            amounts: (zero, zero, zero, zero, zero, zero, zero, zero),
        },
        Tx::TxUserCancel(t) => TxFields {
            tag: 19,
            ints: (t.tx_id, t.tx_fee_token_id, 0),
            amounts: (t.tx_fee_amt, zero, zero, zero, zero, zero, zero, zero),
        },
        Tx::TxIncreaseEpoch(t) => TxFields {
            tag: 20,
            ints: (0, 0, 0),
            amounts: (zero, zero, zero, zero, zero, zero, zero, zero),
        },
        Tx::TxCreateTsbBondToken(t) => TxFields {
            tag: 21,
            ints: (t.base_token_id, t.bond_token_id, 0),
            amounts: (t.maturity, zero, zero, zero, zero, zero, zero, zero),
        },
        Tx::TxRedeem(t) => TxFields {
            tag: 22,
            ints: (t.sender_id, t.token_id, 0),
            amounts: (t.amount, zero, zero, zero, zero, zero, zero, zero),
        },
        Tx::TxWithdrawFee(t) => TxFields {
            tag: 23,
            ints: (t.token_id, 0, 0),
            amounts: (t.amount, zero, zero, zero, zero, zero, zero, zero),
        },
        Tx::TxEvacuation(t) => TxFields {
            tag: 24,
            ints: (t.sender_id, t.token_id, 0),
            amounts: (t.amount, zero, zero, zero, zero, zero, zero, zero),
        },
        Tx::TxSetAdminTsAddr(t) => TxFields {
            tag: 25,
            ints: (0, 0, 0),
            amounts: (zero, zero, zero, zero, zero, zero, zero, zero),
        },
    }
}

/// The transaction that `f` is the parts of, if its tag names a variant.
pub fn unflatten(f: &TxFields) -> (r: Result<Tx, Error>)
    ensures
        r == spec_unflatten(*f),
{
    if f.tag == 0 {
        Ok(Tx::TxNoop(TxNoop {  }))
    } else if f.tag == 1 {
        Ok(Tx::TxRegister(TxRegister { account_id: f.ints.0, hashed_pub_key: f.amounts.0 }))
    } else if f.tag == 2 {
        Ok(Tx::TxDeposit(TxDeposit { account_id: f.ints.0, deposit_token_id: f.ints.1, deposit_amt: f.amounts.0 }))
    } else if f.tag == 3 {
        Ok(Tx::TxForcedWithdraw(TxForcedWithdraw { account_id: f.ints.0, withdraw_token_id: f.ints.1, withdraw_amt: f.amounts.0 }))
    } else if f.tag == 4 {
        Ok(Tx::TxTransfer(TxTransfer { sender_id: f.ints.0, transfer_token_id: f.ints.1, transfer_amt: f.amounts.0, receiver_id: f.ints.2 }))
    } else if f.tag == 5 {
        Ok(Tx::TxWithdraw(TxWithdraw { account_id: f.ints.0, withdraw_token_id: f.ints.1, withdraw_amt: f.amounts.0, tx_fee_token_id: f.ints.2, tx_fee_amt: f.amounts.1 }))
    } else if f.tag == 6 {
        Ok(Tx::TxAucLend(TxAucLend { lender_id: f.ints.0, lending_token_id: f.ints.1, lending_amt: f.amounts.0, fee_rate: f.amounts.1, default_matched_interest_rate: f.amounts.2, maturity_time: f.amounts.3, matched_time: f.amounts.4, primary_lend_min_fee_amt: f.amounts.5 }))
    } else if f.tag == 7 {
        Ok(Tx::TxAucBorrow(TxAucBorrow { sender_id: f.ints.0, collateral_token_id: f.ints.1, collateral_amt: f.amounts.0, fee_rate: f.amounts.1, borrowing_amt: f.amounts.2, matched_time: f.amounts.3, primary_borrow_min_fee_amt: f.amounts.4 }))
    } else if f.tag == 8 {
        Ok(Tx::TxAucStart(TxAucStart { borrower_tx_offset: f.ints.0, ori_matched_interest: f.amounts.0 }))
    } else if f.tag == 9 {
        Ok(Tx::TxAucMatch(TxAucMatch { lender_tx_offset: f.ints.0 }))
    } else if f.tag == 10 {
        Ok(Tx::TxAucEnd(TxAucEnd { borrow_account: f.amounts.0, collateral_token_id: f.ints.0, collateral_amt: f.amounts.1, debt_token_id: f.ints.1, debt_amt: f.amounts.2, matched_time: f.amounts.3, maturity: f.amounts.4 }))
    } else if f.tag == 11 {
        Ok(Tx::TxSecLimitOrder(TxSecLimitOrder { sender_id: f.ints.0, sell_token_id: f.ints.1, sell_amt: f.amounts.0, fee0: f.amounts.1, fee1: f.amounts.2, buy_token_id: f.ints.2, buy_amt: f.amounts.3, expired_time: f.amounts.4, matched_time: f.amounts.5, secondary_taker_min_fee_amt: f.amounts.6, secondary_maker_min_fee_amt: f.amounts.7 }))
    } else if f.tag == 12 {
        Ok(Tx::TxSecLimitStart(TxSecLimitStart { taker_tx_offset: f.ints.0 }))
    } else if f.tag == 13 {
        Ok(Tx::TxSecLimitExchange(TxSecLimitExchange { maker_tx_offset: f.ints.0 }))
    } else if f.tag == 14 {
        Ok(Tx::TxSecLimitEnd(TxSecLimitEnd { matched_time: f.amounts.0 }))
    } else if f.tag == 15 {
        Ok(Tx::TxSecMarketOrder(TxSecMarketOrder { sender_id: f.ints.0, sell_token_id: f.ints.1, sell_amt: f.amounts.0, fee0: f.amounts.1, buy_token_id: f.ints.2, buy_amt: f.amounts.2, expired_time: f.amounts.3, secondary_taker_min_fee_amt: f.amounts.4 }))
    } else if f.tag == 16 {
        Ok(Tx::TxSecMarketExchange(TxSecMarketExchange { maker_tx_offset: f.ints.0 }))
    } else if f.tag == 17 {
        Ok(Tx::TxSecMarketEnd(TxSecMarketEnd { matched_time: f.amounts.0 }))
    } else if f.tag == 18 {
        Ok(Tx::TxAdminCancel(TxAdminCancel { tx_id: f.ints.0 }))
    } else if f.tag == 19 {
        Ok(Tx::TxUserCancel(TxUserCancel { tx_id: f.ints.0, tx_fee_token_id: f.ints.1, tx_fee_amt: f.amounts.0 }))
    } else if f.tag == 20 {
        Ok(Tx::TxIncreaseEpoch(TxIncreaseEpoch {  }))
    } else if f.tag == 21 {
        Ok(Tx::TxCreateTsbBondToken(TxCreateTsbBondToken { maturity: f.amounts.0, base_token_id: f.ints.0, bond_token_id: f.ints.1 }))
    } else if f.tag == 22 {
        Ok(Tx::TxRedeem(TxRedeem { sender_id: f.ints.0, token_id: f.ints.1, amount: f.amounts.0 }))
    } else if f.tag == 23 {
        Ok(Tx::TxWithdrawFee(TxWithdrawFee { token_id: f.ints.0, amount: f.amounts.0 }))
    } else if f.tag == 24 {
        Ok(Tx::TxEvacuation(TxEvacuation { sender_id: f.ints.0, token_id: f.ints.1, amount: f.amounts.0 }))
    } else if f.tag == 25 {
        Ok(Tx::TxSetAdminTsAddr(TxSetAdminTsAddr {  }))
    } else {
        Err(Error::CorruptLayout)
    }
}


/// Points to a transaction record.
pub struct TxPtr {
    index: usize,
}

/// The parts of a transaction as they lie in the first 288 bytes of a record.
pub open spec fn spec_fields_at(bytes: Seq<u8>) -> TxFields {
    TxFields {
        tag: le_value(bytes.subrange(0, 8)) as u64,
        ints: (
            le_value(bytes.subrange(8, 16)) as u64,
            le_value(bytes.subrange(16, 24)) as u64,
            le_value(bytes.subrange(24, 32)) as u64,
        ),
        amounts: (
            Scalar::spec_from_le(bytes.subrange(32, 64)),
            Scalar::spec_from_le(bytes.subrange(64, 96)),
            Scalar::spec_from_le(bytes.subrange(96, 128)),
            Scalar::spec_from_le(bytes.subrange(128, 160)),
            Scalar::spec_from_le(bytes.subrange(160, 192)),
            Scalar::spec_from_le(bytes.subrange(192, 224)),
            Scalar::spec_from_le(bytes.subrange(224, 256)),
            Scalar::spec_from_le(bytes.subrange(256, 288)),
        ),
        }
}

impl ElemPtr for TxPtr {
    type Elem = state_tx::Tx;

    open spec fn spec_size() -> nat {
        512
    }

    open spec fn spec_default() -> state_tx::Tx {
        state_tx::Tx::spec_new(Tx::TxNoop(TxNoop {  }))
    }

    open spec fn storable(elem: state_tx::Tx) -> bool {
        let f = spec_flatten(elem.raw_tx);
        f.amounts.0@ < modulus() && f.amounts.1@ < modulus() && f.amounts.2@ < modulus() && f.amounts.3@ < modulus() && f.amounts.4@ < modulus() && f.amounts.5@ < modulus() && f.amounts.6@ < modulus() && f.amounts.7@ < modulus() && elem.cum_deducted_amt@ < modulus() && elem.cum_target_amt@ < modulus() && elem.ori_cum_deducted_amt@ < modulus() && elem.ori_cum_target_amt@ < modulus() && elem.locked_amt@ < modulus() && elem.cum_fee_amt@ < modulus() && elem.credit_amt@ < modulus()
    }

    open spec fn encode(elem: state_tx::Tx) -> Seq<u8> {
        let f = spec_flatten(elem.raw_tx);
        le_bytes(f.tag as nat, 8) + le_bytes(f.ints.0 as nat, 8) + le_bytes(f.ints.1 as nat, 8) + le_bytes(f.ints.2 as nat, 8) + f.amounts.0.spec_bytes() + f.amounts.1.spec_bytes() + f.amounts.2.spec_bytes() + f.amounts.3.spec_bytes() + f.amounts.4.spec_bytes() + f.amounts.5.spec_bytes() + f.amounts.6.spec_bytes() + f.amounts.7.spec_bytes() + elem.cum_deducted_amt.spec_bytes() + elem.cum_target_amt.spec_bytes() + elem.ori_cum_deducted_amt.spec_bytes() + elem.ori_cum_target_amt.spec_bytes() + elem.locked_amt.spec_bytes() + elem.cum_fee_amt.spec_bytes() + elem.credit_amt.spec_bytes()
    }

    open spec fn decode(bytes: Seq<u8>) -> Result<state_tx::Tx, Error> {
        match spec_unflatten(spec_fields_at(bytes)) {
            Err(e) => Err(e),
            Ok(raw_tx) => Ok(
                state_tx::Tx {
                    raw_tx,
                    cum_deducted_amt: Scalar::spec_from_le(bytes.subrange(288, 320)),
                    cum_target_amt: Scalar::spec_from_le(bytes.subrange(320, 352)),
                    ori_cum_deducted_amt: Scalar::spec_from_le(bytes.subrange(352, 384)),
                    ori_cum_target_amt: Scalar::spec_from_le(bytes.subrange(384, 416)),
                    locked_amt: Scalar::spec_from_le(bytes.subrange(416, 448)),
                    cum_fee_amt: Scalar::spec_from_le(bytes.subrange(448, 480)),
                    credit_amt: Scalar::spec_from_le(bytes.subrange(480, 512)),
                },
            ),
        }
    }

    closed spec fn spec_index(&self) -> nat {
        self.index as nat
    }

    proof fn lemma_width(elem: state_tx::Tx) {
        let f = spec_flatten(elem.raw_tx);
        crate::bytes::lemma_le_bytes_len(f.tag as nat, 8);
        crate::bytes::lemma_le_bytes_len(f.ints.0 as nat, 8);
        crate::bytes::lemma_le_bytes_len(f.ints.1 as nat, 8);
        crate::bytes::lemma_le_bytes_len(f.ints.2 as nat, 8);
        crate::bytes::lemma_le_bytes_len(f.amounts.0@, 32);
        crate::bytes::lemma_le_bytes_len(f.amounts.1@, 32);
        crate::bytes::lemma_le_bytes_len(f.amounts.2@, 32);
        crate::bytes::lemma_le_bytes_len(f.amounts.3@, 32);
        crate::bytes::lemma_le_bytes_len(f.amounts.4@, 32);
        crate::bytes::lemma_le_bytes_len(f.amounts.5@, 32);
        crate::bytes::lemma_le_bytes_len(f.amounts.6@, 32);
        crate::bytes::lemma_le_bytes_len(f.amounts.7@, 32);
        crate::bytes::lemma_le_bytes_len(elem.cum_deducted_amt@, 32);
        crate::bytes::lemma_le_bytes_len(elem.cum_target_amt@, 32);
        crate::bytes::lemma_le_bytes_len(elem.ori_cum_deducted_amt@, 32);
        crate::bytes::lemma_le_bytes_len(elem.ori_cum_target_amt@, 32);
        crate::bytes::lemma_le_bytes_len(elem.locked_amt@, 32);
        crate::bytes::lemma_le_bytes_len(elem.cum_fee_amt@, 32);
        crate::bytes::lemma_le_bytes_len(elem.credit_amt@, 32);
    }

    proof fn lemma_round_trip(elem: state_tx::Tx, slot: Seq<u8>) {
        let f = spec_flatten(elem.raw_tx);
        crate::bytes::lemma_le_bytes_len(f.tag as nat, 8);
        crate::bytes::lemma_le_bytes_len(f.ints.0 as nat, 8);
        crate::bytes::lemma_le_bytes_len(f.ints.1 as nat, 8);
        crate::bytes::lemma_le_bytes_len(f.ints.2 as nat, 8);
        crate::bytes::lemma_le_bytes_len(f.amounts.0@, 32);
        crate::bytes::lemma_le_bytes_len(f.amounts.1@, 32);
        crate::bytes::lemma_le_bytes_len(f.amounts.2@, 32);
        crate::bytes::lemma_le_bytes_len(f.amounts.3@, 32);
        crate::bytes::lemma_le_bytes_len(f.amounts.4@, 32);
        crate::bytes::lemma_le_bytes_len(f.amounts.5@, 32);
        crate::bytes::lemma_le_bytes_len(f.amounts.6@, 32);
        crate::bytes::lemma_le_bytes_len(f.amounts.7@, 32);
        crate::bytes::lemma_le_bytes_len(elem.cum_deducted_amt@, 32);
        crate::bytes::lemma_le_bytes_len(elem.cum_target_amt@, 32);
        crate::bytes::lemma_le_bytes_len(elem.ori_cum_deducted_amt@, 32);
        crate::bytes::lemma_le_bytes_len(elem.ori_cum_target_amt@, 32);
        crate::bytes::lemma_le_bytes_len(elem.locked_amt@, 32);
        crate::bytes::lemma_le_bytes_len(elem.cum_fee_amt@, 32);
        crate::bytes::lemma_le_bytes_len(elem.credit_amt@, 32);
        crate::bytes::lemma_pow256_8();
        crate::bytes::lemma_le_value_of_le_bytes(f.tag as nat, 8);
        crate::bytes::lemma_le_value_of_le_bytes(f.ints.0 as nat, 8);
        crate::bytes::lemma_le_value_of_le_bytes(f.ints.1 as nat, 8);
        crate::bytes::lemma_le_value_of_le_bytes(f.ints.2 as nat, 8);
        Scalar::lemma_bytes_round_trip(f.amounts.0);
        Scalar::lemma_bytes_round_trip(f.amounts.1);
        Scalar::lemma_bytes_round_trip(f.amounts.2);
        Scalar::lemma_bytes_round_trip(f.amounts.3);
        Scalar::lemma_bytes_round_trip(f.amounts.4);
        Scalar::lemma_bytes_round_trip(f.amounts.5);
        Scalar::lemma_bytes_round_trip(f.amounts.6);
        Scalar::lemma_bytes_round_trip(f.amounts.7);
        Scalar::lemma_bytes_round_trip(elem.cum_deducted_amt);
        Scalar::lemma_bytes_round_trip(elem.cum_target_amt);
        Scalar::lemma_bytes_round_trip(elem.ori_cum_deducted_amt);
        Scalar::lemma_bytes_round_trip(elem.ori_cum_target_amt);
        Scalar::lemma_bytes_round_trip(elem.locked_amt);
        Scalar::lemma_bytes_round_trip(elem.cum_fee_amt);
        Scalar::lemma_bytes_round_trip(elem.credit_amt);
        let enc = Self::encode(elem);
        assert(enc.len() == 512);
        assert(slot.subrange(0, 512) =~= slot);
        assert(slot == enc);
        assert(slot.subrange(0, 8) =~= le_bytes(f.tag as nat, 8));
        assert(slot.subrange(8, 16) =~= le_bytes(f.ints.0 as nat, 8));
        assert(slot.subrange(16, 24) =~= le_bytes(f.ints.1 as nat, 8));
        assert(slot.subrange(24, 32) =~= le_bytes(f.ints.2 as nat, 8));
        assert(slot.subrange(32, 64) =~= f.amounts.0.spec_bytes());
        assert(slot.subrange(64, 96) =~= f.amounts.1.spec_bytes());
        assert(slot.subrange(96, 128) =~= f.amounts.2.spec_bytes());
        assert(slot.subrange(128, 160) =~= f.amounts.3.spec_bytes());
        assert(slot.subrange(160, 192) =~= f.amounts.4.spec_bytes());
        assert(slot.subrange(192, 224) =~= f.amounts.5.spec_bytes());
        assert(slot.subrange(224, 256) =~= f.amounts.6.spec_bytes());
        assert(slot.subrange(256, 288) =~= f.amounts.7.spec_bytes());
        assert(slot.subrange(288, 320) =~= elem.cum_deducted_amt.spec_bytes());
        assert(slot.subrange(320, 352) =~= elem.cum_target_amt.spec_bytes());
        assert(slot.subrange(352, 384) =~= elem.ori_cum_deducted_amt.spec_bytes());
        assert(slot.subrange(384, 416) =~= elem.ori_cum_target_amt.spec_bytes());
        assert(slot.subrange(416, 448) =~= elem.locked_amt.spec_bytes());
        assert(slot.subrange(448, 480) =~= elem.cum_fee_amt.spec_bytes());
        assert(slot.subrange(480, 512) =~= elem.credit_amt.spec_bytes());
        assert(spec_fields_at(slot) == f);
        lemma_flatten_round_trip(elem.raw_tx);
    }

    proof fn lemma_default() {
        let z = repeat(0u8, 512);
        assert(z.subrange(0, 8) =~= repeat(0u8, 8));
        assert(z.subrange(8, 16) =~= repeat(0u8, 8));
        assert(z.subrange(16, 24) =~= repeat(0u8, 8));
        assert(z.subrange(24, 32) =~= repeat(0u8, 8));
        assert(z.subrange(32, 64) =~= repeat(0u8, 32));
        assert(z.subrange(64, 96) =~= repeat(0u8, 32));
        assert(z.subrange(96, 128) =~= repeat(0u8, 32));
        assert(z.subrange(128, 160) =~= repeat(0u8, 32));
        assert(z.subrange(160, 192) =~= repeat(0u8, 32));
        assert(z.subrange(192, 224) =~= repeat(0u8, 32));
        assert(z.subrange(224, 256) =~= repeat(0u8, 32));
        assert(z.subrange(256, 288) =~= repeat(0u8, 32));
        assert(z.subrange(288, 320) =~= repeat(0u8, 32));
        assert(z.subrange(320, 352) =~= repeat(0u8, 32));
        assert(z.subrange(352, 384) =~= repeat(0u8, 32));
        assert(z.subrange(384, 416) =~= repeat(0u8, 32));
        assert(z.subrange(416, 448) =~= repeat(0u8, 32));
        assert(z.subrange(448, 480) =~= repeat(0u8, 32));
        assert(z.subrange(480, 512) =~= repeat(0u8, 32));
        crate::bytes::lemma_le_value_zeros(8);
        crate::bytes::lemma_le_value_zeros(32);
    }

    fn size() -> usize {
        512
    }

    fn new(index: usize) -> Self {
        TxPtr { index }
    }

    fn index(&self) -> usize {
        self.index
    }

    fn to_bytes(elem: &state_tx::Tx) -> Vec<u8> {
        let f = flatten(&elem.raw_tx);
        let mut out: Vec<u8> = Vec::new();
        push_u64_le(&mut out, f.tag);
        push_u64_le(&mut out, f.ints.0);
        push_u64_le(&mut out, f.ints.1);
        push_u64_le(&mut out, f.ints.2);
        let part = f.amounts.0.to_le_bytes();
        append(&mut out, &part);
        let part = f.amounts.1.to_le_bytes();
        append(&mut out, &part);
        let part = f.amounts.2.to_le_bytes();
        append(&mut out, &part);
        let part = f.amounts.3.to_le_bytes();
        append(&mut out, &part);
        let part = f.amounts.4.to_le_bytes();
        append(&mut out, &part);
        let part = f.amounts.5.to_le_bytes();
        append(&mut out, &part);
        let part = f.amounts.6.to_le_bytes();
        append(&mut out, &part);
        let part = f.amounts.7.to_le_bytes();
        append(&mut out, &part);
        let part = elem.cum_deducted_amt.to_le_bytes();
        append(&mut out, &part);
        let part = elem.cum_target_amt.to_le_bytes();
        append(&mut out, &part);
        let part = elem.ori_cum_deducted_amt.to_le_bytes();
        append(&mut out, &part);
        let part = elem.ori_cum_target_amt.to_le_bytes();
        append(&mut out, &part);
        let part = elem.locked_amt.to_le_bytes();
        append(&mut out, &part);
        let part = elem.cum_fee_amt.to_le_bytes();
        append(&mut out, &part);
        let part = elem.credit_amt.to_le_bytes();
        append(&mut out, &part);
        out
    }

    fn from_bytes(slot: &Vec<u8>) -> Result<state_tx::Tx, Error> {
        let f = TxFields {
            tag: read_u64_le(slot, 0),
            ints: (read_u64_le(slot, 8), read_u64_le(slot, 16), read_u64_le(slot, 24)),
            amounts: (
                Scalar::from_le_bytes_mod_order(&slice(slot, 32, 64)),
                Scalar::from_le_bytes_mod_order(&slice(slot, 64, 96)),
                Scalar::from_le_bytes_mod_order(&slice(slot, 96, 128)),
                Scalar::from_le_bytes_mod_order(&slice(slot, 128, 160)),
                Scalar::from_le_bytes_mod_order(&slice(slot, 160, 192)),
                Scalar::from_le_bytes_mod_order(&slice(slot, 192, 224)),
                Scalar::from_le_bytes_mod_order(&slice(slot, 224, 256)),
                Scalar::from_le_bytes_mod_order(&slice(slot, 256, 288)),
            ),
        };
        let raw_tx = unflatten(&f)?;
        Ok(
            state_tx::Tx {
                raw_tx,
                cum_deducted_amt: Scalar::from_le_bytes_mod_order(&slice(slot, 288, 320)),
                cum_target_amt: Scalar::from_le_bytes_mod_order(&slice(slot, 320, 352)),
                ori_cum_deducted_amt: Scalar::from_le_bytes_mod_order(&slice(slot, 352, 384)),
                ori_cum_target_amt: Scalar::from_le_bytes_mod_order(&slice(slot, 384, 416)),
                locked_amt: Scalar::from_le_bytes_mod_order(&slice(slot, 416, 448)),
                cum_fee_amt: Scalar::from_le_bytes_mod_order(&slice(slot, 448, 480)),
                credit_amt: Scalar::from_le_bytes_mod_order(&slice(slot, 480, 512)),
            },
        )
    }

    fn default() -> state_tx::Tx {
        state_tx::Tx::new(Tx::TxNoop(TxNoop {  }))
    }
}

} // verus!
