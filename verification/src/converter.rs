//! From the named fields of a committed operation to the transaction.

use vstd::prelude::*;
use vstd::string::*;
use crate::error::Error;
use crate::scalar::Scalar;
use crate::tx::{
    Tx, TxAdminCancel, TxAucBorrow, TxAucEnd, TxAucLend, TxAucMatch, TxAucStart, TxCreateTsbBondToken, TxDeposit, TxEvacuation, TxForcedWithdraw, TxIncreaseEpoch, TxNoop, TxRedeem, TxRegister, TxSecLimitEnd, TxSecLimitExchange, TxSecLimitOrder, TxSecLimitStart, TxSecMarketEnd, TxSecMarketExchange, TxSecMarketOrder, TxSetAdminTsAddr, TxTransfer, TxUserCancel, TxWithdraw, TxWithdrawFee,
};

verus! {

/// The value that `fields` gives the name `name`: the last one, where the
/// name stands more than once.
pub open spec fn spec_lookup(fields: Seq<(String, Scalar)>, name: Seq<char>) -> Option<Scalar>
    decreases fields.len(),
{
    if fields.len() == 0 {
        None
    } else if fields.last().0@ == name {
        Some(fields.last().1)
    } else {
        spec_lookup(fields.drop_last(), name)
    }
}

/// The value that `fields` gives the name `name`.
pub fn lookup(fields: &Vec<(String, Scalar)>, name: &str) -> (r: Option<Scalar>)
    ensures
        r == spec_lookup(fields@, name@),
{
    let wanted: String = String::from_str(name);
    let mut i: usize = fields.len();
    proof {
        assert(fields@.subrange(0, fields@.len() as int) =~= fields@);
    }
    while i > 0
        invariant
            i <= fields@.len(),
            wanted@ == name@,
            spec_lookup(fields@, name@) == spec_lookup(fields@.subrange(0, i as int), name@),
        decreases i,
    {
        i -= 1;
        proof {
            let upto = fields@.subrange(0, i + 1);
            assert(upto.last() == fields@[i as int]);
            assert(upto.drop_last() =~= fields@.subrange(0, i as int));
        }
        if fields[i].0 == wanted {
            return Some(fields[i].1);
        }
    }
    proof {
        assert(fields@.subrange(0, 0) =~= Seq::<(String, Scalar)>::empty());
    }
    None
}

/// The low 64 bits of the value of `f`: the number that a field names,
/// where it fits.
pub open spec fn spec_f2usize(f: Scalar) -> u64 {
    (f@ % 0x1_0000_0000_0000_0000) as u64
}

/// The low 64 bits of the value of `f`.
pub fn f2usize(f: Scalar) -> (r: u64)
    ensures
        r == spec_f2usize(f),
{
    f.low_u64()
}

/// The `TxNoop` that the fields spell, where every field of it is there.
pub open spec fn spec_to_noop(fields: Seq<(String, Scalar)>) -> Result<TxNoop, Error> {
    if true {
        Ok(TxNoop {  })
    } else {
        Err(Error::InvalidOp)
    }
}

/// The `TxNoop` that the fields spell, or `InvalidOp` where a field is missing.
pub fn to_noop(raw_tx: &Vec<(String, Scalar)>) -> (r: Result<TxNoop, Error>)
    ensures
        r == spec_to_noop(raw_tx@),
{

    Ok(TxNoop {  })
}

/// The `TxRegister` that the fields spell, where every field of it is there.
pub open spec fn spec_to_register(fields: Seq<(String, Scalar)>) -> Result<TxRegister, Error> {
    if spec_lookup(fields, "account_id"@) is Some && spec_lookup(fields, "hashed_pub_key"@) is Some {
        Ok(TxRegister { account_id: spec_f2usize(spec_lookup(fields, "account_id"@)->0), hashed_pub_key: spec_lookup(fields, "hashed_pub_key"@)->0 })
    } else {
        Err(Error::InvalidOp)
    }
}

/// The `TxRegister` that the fields spell, or `InvalidOp` where a field is missing.
pub fn to_register(raw_tx: &Vec<(String, Scalar)>) -> (r: Result<TxRegister, Error>)
    ensures
        r == spec_to_register(raw_tx@),
{
    let account_id = match lookup(raw_tx, "account_id") {
        Some(v) => f2usize(v),
        None => {
            return Err(Error::InvalidOp);
        },
    };
    let hashed_pub_key = match lookup(raw_tx, "hashed_pub_key") {
        Some(v) => v,
        None => {
            return Err(Error::InvalidOp);
        },
    };
    Ok(TxRegister { account_id, hashed_pub_key })
}

/// The `TxDeposit` that the fields spell, where every field of it is there.
pub open spec fn spec_to_deposit(fields: Seq<(String, Scalar)>) -> Result<TxDeposit, Error> {
    if spec_lookup(fields, "account_id"@) is Some && spec_lookup(fields, "deposit_token_id"@) is Some && spec_lookup(fields, "deposit_amt"@) is Some {
        Ok(TxDeposit { account_id: spec_f2usize(spec_lookup(fields, "account_id"@)->0), deposit_token_id: spec_f2usize(spec_lookup(fields, "deposit_token_id"@)->0), deposit_amt: spec_lookup(fields, "deposit_amt"@)->0 })
    } else {
        Err(Error::InvalidOp)
    }
}

/// The `TxDeposit` that the fields spell, or `InvalidOp` where a field is missing.
pub fn to_deposit(raw_tx: &Vec<(String, Scalar)>) -> (r: Result<TxDeposit, Error>)
    ensures
        r == spec_to_deposit(raw_tx@),
{
    let account_id = match lookup(raw_tx, "account_id") {
        Some(v) => f2usize(v),
        None => {
            return Err(Error::InvalidOp);
        },
    };
    let deposit_token_id = match lookup(raw_tx, "deposit_token_id") {
        Some(v) => f2usize(v),
        None => {
            return Err(Error::InvalidOp);
        },
    };
    let deposit_amt = match lookup(raw_tx, "deposit_amt") {
        Some(v) => v,
        None => {
            return Err(Error::InvalidOp);
        },
    };
    Ok(TxDeposit { account_id, deposit_token_id, deposit_amt })
}

/// The `TxForcedWithdraw` that the fields spell, where every field of it is there.
pub open spec fn spec_to_forced_withdraw(fields: Seq<(String, Scalar)>) -> Result<TxForcedWithdraw, Error> {
    if spec_lookup(fields, "account_id"@) is Some && spec_lookup(fields, "withdraw_token_id"@) is Some && spec_lookup(fields, "withdraw_amt"@) is Some {
        Ok(TxForcedWithdraw { account_id: spec_f2usize(spec_lookup(fields, "account_id"@)->0), withdraw_token_id: spec_f2usize(spec_lookup(fields, "withdraw_token_id"@)->0), withdraw_amt: spec_lookup(fields, "withdraw_amt"@)->0 })
    } else {
        Err(Error::InvalidOp)
    }
}

/// The `TxForcedWithdraw` that the fields spell, or `InvalidOp` where a field is missing.
pub fn to_forced_withdraw(raw_tx: &Vec<(String, Scalar)>) -> (r: Result<TxForcedWithdraw, Error>)
    ensures
        r == spec_to_forced_withdraw(raw_tx@),
{
    let account_id = match lookup(raw_tx, "account_id") {
        Some(v) => f2usize(v),
        None => {
            return Err(Error::InvalidOp);
        },
    };
    let withdraw_token_id = match lookup(raw_tx, "withdraw_token_id") {
        Some(v) => f2usize(v),
        None => {
            return Err(Error::InvalidOp);
        },
    };
    let withdraw_amt = match lookup(raw_tx, "withdraw_amt") {
        Some(v) => v,
        None => {
            return Err(Error::InvalidOp);
        },
    };
    Ok(TxForcedWithdraw { account_id, withdraw_token_id, withdraw_amt })
}

/// The `TxTransfer` that the fields spell, where every field of it is there.
pub open spec fn spec_to_transfer(fields: Seq<(String, Scalar)>) -> Result<TxTransfer, Error> {
    if spec_lookup(fields, "sender_id"@) is Some && spec_lookup(fields, "transfer_token_id"@) is Some && spec_lookup(fields, "transfer_amt"@) is Some && spec_lookup(fields, "receiver_id"@) is Some {
        Ok(TxTransfer { sender_id: spec_f2usize(spec_lookup(fields, "sender_id"@)->0), transfer_token_id: spec_f2usize(spec_lookup(fields, "transfer_token_id"@)->0), transfer_amt: spec_lookup(fields, "transfer_amt"@)->0, receiver_id: spec_f2usize(spec_lookup(fields, "receiver_id"@)->0) })
    } else {
        Err(Error::InvalidOp)
    }
}

/// The `TxTransfer` that the fields spell, or `InvalidOp` where a field is missing.
pub fn to_transfer(raw_tx: &Vec<(String, Scalar)>) -> (r: Result<TxTransfer, Error>)
    ensures
        r == spec_to_transfer(raw_tx@),
{
    let sender_id = match lookup(raw_tx, "sender_id") {
        Some(v) => f2usize(v),
        None => {
            return Err(Error::InvalidOp);
        },
    };
    let transfer_token_id = match lookup(raw_tx, "transfer_token_id") {
        Some(v) => f2usize(v),
        None => {
            return Err(Error::InvalidOp);
        },
    };
    let transfer_amt = match lookup(raw_tx, "transfer_amt") {
        Some(v) => v,
        None => {
            return Err(Error::InvalidOp);
        },
    };
    let receiver_id = match lookup(raw_tx, "receiver_id") {
        Some(v) => f2usize(v),
        None => {
            return Err(Error::InvalidOp);
        },
    };
    Ok(TxTransfer { sender_id, transfer_token_id, transfer_amt, receiver_id })
}

/// The `TxWithdraw` that the fields spell, where every field of it is there.
pub open spec fn spec_to_withdraw(fields: Seq<(String, Scalar)>) -> Result<TxWithdraw, Error> {
    if spec_lookup(fields, "account_id"@) is Some && spec_lookup(fields, "withdraw_token_id"@) is Some && spec_lookup(fields, "withdraw_amt"@) is Some && spec_lookup(fields, "tx_fee_token_id"@) is Some && spec_lookup(fields, "tx_fee_amt"@) is Some {
        Ok(TxWithdraw { account_id: spec_f2usize(spec_lookup(fields, "account_id"@)->0), withdraw_token_id: spec_f2usize(spec_lookup(fields, "withdraw_token_id"@)->0), withdraw_amt: spec_lookup(fields, "withdraw_amt"@)->0, tx_fee_token_id: spec_f2usize(spec_lookup(fields, "tx_fee_token_id"@)->0), tx_fee_amt: spec_lookup(fields, "tx_fee_amt"@)->0 })
    } else {
        Err(Error::InvalidOp)
    }
}

/// The `TxWithdraw` that the fields spell, or `InvalidOp` where a field is missing.
pub fn to_withdraw(raw_tx: &Vec<(String, Scalar)>) -> (r: Result<TxWithdraw, Error>)
    ensures
        r == spec_to_withdraw(raw_tx@),
{
    let account_id = match lookup(raw_tx, "account_id") {
        Some(v) => f2usize(v),
        None => {
            return Err(Error::InvalidOp);
        },
    };
    let withdraw_token_id = match lookup(raw_tx, "withdraw_token_id") {
        Some(v) => f2usize(v),
        None => {
            return Err(Error::InvalidOp);
        },
    };
    let withdraw_amt = match lookup(raw_tx, "withdraw_amt") {
        Some(v) => v,
        None => {
            return Err(Error::InvalidOp);
        },
    };
    let tx_fee_token_id = match lookup(raw_tx, "tx_fee_token_id") {
        Some(v) => f2usize(v),
        None => {
            return Err(Error::InvalidOp);
        },
    };
    let tx_fee_amt = match lookup(raw_tx, "tx_fee_amt") {
        Some(v) => v,
        None => {
            return Err(Error::InvalidOp);
        },
    };
    Ok(TxWithdraw { account_id, withdraw_token_id, withdraw_amt, tx_fee_token_id, tx_fee_amt })
}

/// The `TxAucLend` that the fields spell, where every field of it is there.
pub open spec fn spec_to_auc_lend(fields: Seq<(String, Scalar)>) -> Result<TxAucLend, Error> {
    if spec_lookup(fields, "lender_id"@) is Some && spec_lookup(fields, "lending_token_id"@) is Some && spec_lookup(fields, "lending_amt"@) is Some && spec_lookup(fields, "fee_rate"@) is Some && spec_lookup(fields, "default_matched_interest_rate"@) is Some && spec_lookup(fields, "maturity_time"@) is Some && spec_lookup(fields, "matched_time"@) is Some && spec_lookup(fields, "primary_lend_min_fee_amt"@) is Some {
        Ok(TxAucLend { lender_id: spec_f2usize(spec_lookup(fields, "lender_id"@)->0), lending_token_id: spec_f2usize(spec_lookup(fields, "lending_token_id"@)->0), lending_amt: spec_lookup(fields, "lending_amt"@)->0, fee_rate: spec_lookup(fields, "fee_rate"@)->0, default_matched_interest_rate: spec_lookup(fields, "default_matched_interest_rate"@)->0, maturity_time: spec_lookup(fields, "maturity_time"@)->0, matched_time: spec_lookup(fields, "matched_time"@)->0, primary_lend_min_fee_amt: spec_lookup(fields, "primary_lend_min_fee_amt"@)->0 })
    } else {
        Err(Error::InvalidOp)
    }
}

/// The `TxAucLend` that the fields spell, or `InvalidOp` where a field is missing.
pub fn to_auc_lend(raw_tx: &Vec<(String, Scalar)>) -> (r: Result<TxAucLend, Error>)
    ensures
        r == spec_to_auc_lend(raw_tx@),
{
    let lender_id = match lookup(raw_tx, "lender_id") {
        Some(v) => f2usize(v),
        None => {
            return Err(Error::InvalidOp);
        },
    };
    let lending_token_id = match lookup(raw_tx, "lending_token_id") {
        Some(v) => f2usize(v),
        None => {
            return Err(Error::InvalidOp);
        },
    };
    let lending_amt = match lookup(raw_tx, "lending_amt") {
        Some(v) => v,
        None => {
            return Err(Error::InvalidOp);
        },
    };
    let fee_rate = match lookup(raw_tx, "fee_rate") {
        Some(v) => v,
        None => {
            return Err(Error::InvalidOp);
        },
    };
    let default_matched_interest_rate = match lookup(raw_tx, "default_matched_interest_rate") {
        Some(v) => v,
        None => {
            return Err(Error::InvalidOp);
        },
    };
    let maturity_time = match lookup(raw_tx, "maturity_time") {
        Some(v) => v,
        None => {
            return Err(Error::InvalidOp);
        },
    };
    let matched_time = match lookup(raw_tx, "matched_time") {
        Some(v) => v,
        None => {
            return Err(Error::InvalidOp);
        },
    };
    let primary_lend_min_fee_amt = match lookup(raw_tx, "primary_lend_min_fee_amt") {
        Some(v) => v,
        None => {
            return Err(Error::InvalidOp);
        },
    };
    Ok(TxAucLend { lender_id, lending_token_id, lending_amt, fee_rate, default_matched_interest_rate, maturity_time, matched_time, primary_lend_min_fee_amt })
}

/// The `TxAucBorrow` that the fields spell, where every field of it is there.
pub open spec fn spec_to_auc_borrow(fields: Seq<(String, Scalar)>) -> Result<TxAucBorrow, Error> {
    if spec_lookup(fields, "sender_id"@) is Some && spec_lookup(fields, "collateral_token_id"@) is Some && spec_lookup(fields, "collateral_amt"@) is Some && spec_lookup(fields, "fee_rate"@) is Some && spec_lookup(fields, "borrowing_amt"@) is Some && spec_lookup(fields, "matched_time"@) is Some && spec_lookup(fields, "primary_borrow_min_fee_amt"@) is Some {
        Ok(TxAucBorrow { sender_id: spec_f2usize(spec_lookup(fields, "sender_id"@)->0), collateral_token_id: spec_f2usize(spec_lookup(fields, "collateral_token_id"@)->0), collateral_amt: spec_lookup(fields, "collateral_amt"@)->0, fee_rate: spec_lookup(fields, "fee_rate"@)->0, borrowing_amt: spec_lookup(fields, "borrowing_amt"@)->0, matched_time: spec_lookup(fields, "matched_time"@)->0, primary_borrow_min_fee_amt: spec_lookup(fields, "primary_borrow_min_fee_amt"@)->0 })
    } else {
        Err(Error::InvalidOp)
    }
}

/// The `TxAucBorrow` that the fields spell, or `InvalidOp` where a field is missing.
pub fn to_auc_borrow(raw_tx: &Vec<(String, Scalar)>) -> (r: Result<TxAucBorrow, Error>)
    ensures
        r == spec_to_auc_borrow(raw_tx@),
{
    let sender_id = match lookup(raw_tx, "sender_id") {
        Some(v) => f2usize(v),
        None => {
            return Err(Error::InvalidOp);
        },
    };
    let collateral_token_id = match lookup(raw_tx, "collateral_token_id") {
        Some(v) => f2usize(v),
        None => {
            return Err(Error::InvalidOp);
        },
    };
    let collateral_amt = match lookup(raw_tx, "collateral_amt") {
        Some(v) => v,
        None => {
            return Err(Error::InvalidOp);
        },
    };
    let fee_rate = match lookup(raw_tx, "fee_rate") {
        Some(v) => v,
        None => {
            return Err(Error::InvalidOp);
        },
    };
    let borrowing_amt = match lookup(raw_tx, "borrowing_amt") {
        Some(v) => v,
        None => {
            return Err(Error::InvalidOp);
        },
    };
    let matched_time = match lookup(raw_tx, "matched_time") {
        Some(v) => v,
        None => {
            return Err(Error::InvalidOp);
        },
    };
    let primary_borrow_min_fee_amt = match lookup(raw_tx, "primary_borrow_min_fee_amt") {
        Some(v) => v,
        None => {
            return Err(Error::InvalidOp);
        },
    };
    Ok(TxAucBorrow { sender_id, collateral_token_id, collateral_amt, fee_rate, borrowing_amt, matched_time, primary_borrow_min_fee_amt })
}

/// The `TxAucStart` that the fields spell, where every field of it is there.
pub open spec fn spec_to_auc_start(fields: Seq<(String, Scalar)>) -> Result<TxAucStart, Error> {
    if spec_lookup(fields, "borrower_tx_offset"@) is Some && spec_lookup(fields, "ori_matched_interest"@) is Some {
        Ok(TxAucStart { borrower_tx_offset: spec_f2usize(spec_lookup(fields, "borrower_tx_offset"@)->0), ori_matched_interest: spec_lookup(fields, "ori_matched_interest"@)->0 })
    } else {
        Err(Error::InvalidOp)
    }
}

/// The `TxAucStart` that the fields spell, or `InvalidOp` where a field is missing.
pub fn to_auc_start(raw_tx: &Vec<(String, Scalar)>) -> (r: Result<TxAucStart, Error>)
    ensures
        r == spec_to_auc_start(raw_tx@),
{
    let borrower_tx_offset = match lookup(raw_tx, "borrower_tx_offset") {
        Some(v) => f2usize(v),
        None => {
            return Err(Error::InvalidOp);
        },
    };
    let ori_matched_interest = match lookup(raw_tx, "ori_matched_interest") {
        Some(v) => v,
        None => {
            return Err(Error::InvalidOp);
        },
    };
    Ok(TxAucStart { borrower_tx_offset, ori_matched_interest })
}

/// The `TxAucMatch` that the fields spell, where every field of it is there.
pub open spec fn spec_to_auc_match(fields: Seq<(String, Scalar)>) -> Result<TxAucMatch, Error> {
    if spec_lookup(fields, "lender_tx_offset"@) is Some {
        Ok(TxAucMatch { lender_tx_offset: spec_f2usize(spec_lookup(fields, "lender_tx_offset"@)->0) })
    } else {
        Err(Error::InvalidOp)
    }
}

/// The `TxAucMatch` that the fields spell, or `InvalidOp` where a field is missing.
pub fn to_auc_match(raw_tx: &Vec<(String, Scalar)>) -> (r: Result<TxAucMatch, Error>)
    ensures
        r == spec_to_auc_match(raw_tx@),
{
    let lender_tx_offset = match lookup(raw_tx, "lender_tx_offset") {
        Some(v) => f2usize(v),
        None => {
            return Err(Error::InvalidOp);
        },
    };
    Ok(TxAucMatch { lender_tx_offset })
}

/// The `TxAucEnd` that the fields spell, where every field of it is there.
pub open spec fn spec_to_auc_end(fields: Seq<(String, Scalar)>) -> Result<TxAucEnd, Error> {
    if spec_lookup(fields, "borrow_account"@) is Some && spec_lookup(fields, "collateral_token_id"@) is Some && spec_lookup(fields, "collateral_amt"@) is Some && spec_lookup(fields, "debt_token_id"@) is Some && spec_lookup(fields, "debt_amt"@) is Some && spec_lookup(fields, "matched_time"@) is Some && spec_lookup(fields, "maturity"@) is Some {
        Ok(TxAucEnd { borrow_account: spec_lookup(fields, "borrow_account"@)->0, collateral_token_id: spec_f2usize(spec_lookup(fields, "collateral_token_id"@)->0), collateral_amt: spec_lookup(fields, "collateral_amt"@)->0, debt_token_id: spec_f2usize(spec_lookup(fields, "debt_token_id"@)->0), debt_amt: spec_lookup(fields, "debt_amt"@)->0, matched_time: spec_lookup(fields, "matched_time"@)->0, maturity: spec_lookup(fields, "maturity"@)->0 })
    } else {
        Err(Error::InvalidOp)
    }
}

/// The `TxAucEnd` that the fields spell, or `InvalidOp` where a field is missing.
pub fn to_auc_end(raw_tx: &Vec<(String, Scalar)>) -> (r: Result<TxAucEnd, Error>)
    ensures
        r == spec_to_auc_end(raw_tx@),
{
    let borrow_account = match lookup(raw_tx, "borrow_account") {
        Some(v) => v,
        None => {
            return Err(Error::InvalidOp);
        },
    };
    let collateral_token_id = match lookup(raw_tx, "collateral_token_id") {
        Some(v) => f2usize(v),
        None => {
            return Err(Error::InvalidOp);
        },
    };
    let collateral_amt = match lookup(raw_tx, "collateral_amt") {
        Some(v) => v,
        None => {
            return Err(Error::InvalidOp);
        },
    };
    let debt_token_id = match lookup(raw_tx, "debt_token_id") {
        Some(v) => f2usize(v),
        None => {
            return Err(Error::InvalidOp);
        },
    };
    let debt_amt = match lookup(raw_tx, "debt_amt") {
        Some(v) => v,
        None => {
            return Err(Error::InvalidOp);
        },
    };
    let matched_time = match lookup(raw_tx, "matched_time") {
        Some(v) => v,
        None => {
            return Err(Error::InvalidOp);
        },
    };
    let maturity = match lookup(raw_tx, "maturity") {
        Some(v) => v,
        None => {
            return Err(Error::InvalidOp);
        },
    };
    Ok(TxAucEnd { borrow_account, collateral_token_id, collateral_amt, debt_token_id, debt_amt, matched_time, maturity })
}

/// The `TxSecLimitOrder` that the fields spell, where every field of it is there.
pub open spec fn spec_to_sec_limit_order(fields: Seq<(String, Scalar)>) -> Result<TxSecLimitOrder, Error> {
    if spec_lookup(fields, "sender_id"@) is Some && spec_lookup(fields, "sell_token_id"@) is Some && spec_lookup(fields, "sell_amt"@) is Some && spec_lookup(fields, "fee0"@) is Some && spec_lookup(fields, "fee1"@) is Some && spec_lookup(fields, "buy_token_id"@) is Some && spec_lookup(fields, "buy_amt"@) is Some && spec_lookup(fields, "expired_time"@) is Some && spec_lookup(fields, "matched_time"@) is Some && spec_lookup(fields, "secondary_taker_min_fee_amt"@) is Some && spec_lookup(fields, "secondary_maker_min_fee_amt"@) is Some {
        Ok(TxSecLimitOrder { sender_id: spec_f2usize(spec_lookup(fields, "sender_id"@)->0), sell_token_id: spec_f2usize(spec_lookup(fields, "sell_token_id"@)->0), sell_amt: spec_lookup(fields, "sell_amt"@)->0, fee0: spec_lookup(fields, "fee0"@)->0, fee1: spec_lookup(fields, "fee1"@)->0, buy_token_id: spec_f2usize(spec_lookup(fields, "buy_token_id"@)->0), buy_amt: spec_lookup(fields, "buy_amt"@)->0, expired_time: spec_lookup(fields, "expired_time"@)->0, matched_time: spec_lookup(fields, "matched_time"@)->0, secondary_taker_min_fee_amt: spec_lookup(fields, "secondary_taker_min_fee_amt"@)->0, secondary_maker_min_fee_amt: spec_lookup(fields, "secondary_maker_min_fee_amt"@)->0 })
    } else {
        Err(Error::InvalidOp)
    }
}

/// The `TxSecLimitOrder` that the fields spell, or `InvalidOp` where a field is missing.
pub fn to_sec_limit_order(raw_tx: &Vec<(String, Scalar)>) -> (r: Result<TxSecLimitOrder, Error>)
    ensures
        r == spec_to_sec_limit_order(raw_tx@),
{
    let sender_id = match lookup(raw_tx, "sender_id") {
        Some(v) => f2usize(v),
        None => {
            return Err(Error::InvalidOp);
        },
    };
    let sell_token_id = match lookup(raw_tx, "sell_token_id") {
        Some(v) => f2usize(v),
        None => {
            return Err(Error::InvalidOp);
        },
    };
    let sell_amt = match lookup(raw_tx, "sell_amt") {
        Some(v) => v,
        None => {
            return Err(Error::InvalidOp);
        },
    };
    let fee0 = match lookup(raw_tx, "fee0") {
        Some(v) => v,
        None => {
            return Err(Error::InvalidOp);
        },
    };
    let fee1 = match lookup(raw_tx, "fee1") {
        Some(v) => v,
        None => {
            return Err(Error::InvalidOp);
        },
    };
    let buy_token_id = match lookup(raw_tx, "buy_token_id") {
        Some(v) => f2usize(v),
        None => {
            return Err(Error::InvalidOp);
        },
    };
    let buy_amt = match lookup(raw_tx, "buy_amt") {
        Some(v) => v,
        None => {
            return Err(Error::InvalidOp);
        },
    };
    let expired_time = match lookup(raw_tx, "expired_time") {
        Some(v) => v,
        None => {
            return Err(Error::InvalidOp);
        },
    };
    let matched_time = match lookup(raw_tx, "matched_time") {
        Some(v) => v,
        None => {
            return Err(Error::InvalidOp);
        },
    };
    let secondary_taker_min_fee_amt = match lookup(raw_tx, "secondary_taker_min_fee_amt") {
        Some(v) => v,
        None => {
            return Err(Error::InvalidOp);
        },
    };
    let secondary_maker_min_fee_amt = match lookup(raw_tx, "secondary_maker_min_fee_amt") {
        Some(v) => v,
        None => {
            return Err(Error::InvalidOp);
        },
    };
    Ok(TxSecLimitOrder { sender_id, sell_token_id, sell_amt, fee0, fee1, buy_token_id, buy_amt, expired_time, matched_time, secondary_taker_min_fee_amt, secondary_maker_min_fee_amt })
}

/// The `TxSecLimitStart` that the fields spell, where every field of it is there.
pub open spec fn spec_to_sec_limit_start(fields: Seq<(String, Scalar)>) -> Result<TxSecLimitStart, Error> {
    if spec_lookup(fields, "taker_tx_offset"@) is Some {
        Ok(TxSecLimitStart { taker_tx_offset: spec_f2usize(spec_lookup(fields, "taker_tx_offset"@)->0) })
    } else {
        Err(Error::InvalidOp)
    }
}

/// The `TxSecLimitStart` that the fields spell, or `InvalidOp` where a field is missing.
pub fn to_sec_limit_start(raw_tx: &Vec<(String, Scalar)>) -> (r: Result<TxSecLimitStart, Error>)
    ensures
        r == spec_to_sec_limit_start(raw_tx@),
{
    let taker_tx_offset = match lookup(raw_tx, "taker_tx_offset") {
        Some(v) => f2usize(v),
        None => {
            return Err(Error::InvalidOp);
        },
    };
    Ok(TxSecLimitStart { taker_tx_offset })
}

/// The `TxSecLimitExchange` that the fields spell, where every field of it is there.
pub open spec fn spec_to_sec_limit_exchange(fields: Seq<(String, Scalar)>) -> Result<TxSecLimitExchange, Error> {
    if spec_lookup(fields, "maker_tx_offset"@) is Some {
        Ok(TxSecLimitExchange { maker_tx_offset: spec_f2usize(spec_lookup(fields, "maker_tx_offset"@)->0) })
    } else {
        Err(Error::InvalidOp)
    }
}

/// The `TxSecLimitExchange` that the fields spell, or `InvalidOp` where a field is missing.
pub fn to_sec_limit_exchange(raw_tx: &Vec<(String, Scalar)>) -> (r: Result<TxSecLimitExchange, Error>)
    ensures
        r == spec_to_sec_limit_exchange(raw_tx@),
{
    let maker_tx_offset = match lookup(raw_tx, "maker_tx_offset") {
        Some(v) => f2usize(v),
        None => {
            return Err(Error::InvalidOp);
        },
    };
    Ok(TxSecLimitExchange { maker_tx_offset })
}

/// The `TxSecLimitEnd` that the fields spell, where every field of it is there.
pub open spec fn spec_to_sec_limit_end(fields: Seq<(String, Scalar)>) -> Result<TxSecLimitEnd, Error> {
    if spec_lookup(fields, "matched_time"@) is Some {
        Ok(TxSecLimitEnd { matched_time: spec_lookup(fields, "matched_time"@)->0 })
    } else {
        Err(Error::InvalidOp)
    }
}

/// The `TxSecLimitEnd` that the fields spell, or `InvalidOp` where a field is missing.
pub fn to_sec_limit_end(raw_tx: &Vec<(String, Scalar)>) -> (r: Result<TxSecLimitEnd, Error>)
    ensures
        r == spec_to_sec_limit_end(raw_tx@),
{
    let matched_time = match lookup(raw_tx, "matched_time") {
        Some(v) => v,
        None => {
            return Err(Error::InvalidOp);
        },
    };
    Ok(TxSecLimitEnd { matched_time })
}

/// The `TxSecMarketOrder` that the fields spell, where every field of it is there.
pub open spec fn spec_to_sec_market_order(fields: Seq<(String, Scalar)>) -> Result<TxSecMarketOrder, Error> {
    if spec_lookup(fields, "sender_id"@) is Some && spec_lookup(fields, "sell_token_id"@) is Some && spec_lookup(fields, "sell_amt"@) is Some && spec_lookup(fields, "fee0"@) is Some && spec_lookup(fields, "buy_token_id"@) is Some && spec_lookup(fields, "buy_amt"@) is Some && spec_lookup(fields, "expired_time"@) is Some && spec_lookup(fields, "secondary_taker_min_fee_amt"@) is Some {
        Ok(TxSecMarketOrder { sender_id: spec_f2usize(spec_lookup(fields, "sender_id"@)->0), sell_token_id: spec_f2usize(spec_lookup(fields, "sell_token_id"@)->0), sell_amt: spec_lookup(fields, "sell_amt"@)->0, fee0: spec_lookup(fields, "fee0"@)->0, buy_token_id: spec_f2usize(spec_lookup(fields, "buy_token_id"@)->0), buy_amt: spec_lookup(fields, "buy_amt"@)->0, expired_time: spec_lookup(fields, "expired_time"@)->0, secondary_taker_min_fee_amt: spec_lookup(fields, "secondary_taker_min_fee_amt"@)->0 })
    } else {
        Err(Error::InvalidOp)
    }
}

/// The `TxSecMarketOrder` that the fields spell, or `InvalidOp` where a field is missing.
pub fn to_sec_market_order(raw_tx: &Vec<(String, Scalar)>) -> (r: Result<TxSecMarketOrder, Error>)
    ensures
        r == spec_to_sec_market_order(raw_tx@),
{
    let sender_id = match lookup(raw_tx, "sender_id") {
        Some(v) => f2usize(v),
        None => {
            return Err(Error::InvalidOp);
        },
    };
    let sell_token_id = match lookup(raw_tx, "sell_token_id") {
        Some(v) => f2usize(v),
        None => {
            return Err(Error::InvalidOp);
        },
    };
    let sell_amt = match lookup(raw_tx, "sell_amt") {
        Some(v) => v,
        None => {
            return Err(Error::InvalidOp);
        },
    };
    let fee0 = match lookup(raw_tx, "fee0") {
        Some(v) => v,
        None => {
            return Err(Error::InvalidOp);
        },
    };
    let buy_token_id = match lookup(raw_tx, "buy_token_id") {
        Some(v) => f2usize(v),
        None => {
            return Err(Error::InvalidOp);
        },
    };
    let buy_amt = match lookup(raw_tx, "buy_amt") {
        Some(v) => v,
        None => {
            return Err(Error::InvalidOp);
        },
    };
    let expired_time = match lookup(raw_tx, "expired_time") {
        Some(v) => v,
        None => {
            return Err(Error::InvalidOp);
        },
    };
    let secondary_taker_min_fee_amt = match lookup(raw_tx, "secondary_taker_min_fee_amt") {
        Some(v) => v,
        None => {
            return Err(Error::InvalidOp);
        },
    };
    Ok(TxSecMarketOrder { sender_id, sell_token_id, sell_amt, fee0, buy_token_id, buy_amt, expired_time, secondary_taker_min_fee_amt })
}

/// The `TxSecMarketExchange` that the fields spell, where every field of it is there.
pub open spec fn spec_to_sec_market_exchange(fields: Seq<(String, Scalar)>) -> Result<TxSecMarketExchange, Error> {
    if spec_lookup(fields, "maker_tx_offset"@) is Some {
        Ok(TxSecMarketExchange { maker_tx_offset: spec_f2usize(spec_lookup(fields, "maker_tx_offset"@)->0) })
    } else {
        Err(Error::InvalidOp)
    }
}

/// The `TxSecMarketExchange` that the fields spell, or `InvalidOp` where a field is missing.
pub fn to_sec_market_exchange(raw_tx: &Vec<(String, Scalar)>) -> (r: Result<TxSecMarketExchange, Error>)
    ensures
        r == spec_to_sec_market_exchange(raw_tx@),
{
    let maker_tx_offset = match lookup(raw_tx, "maker_tx_offset") {
        Some(v) => f2usize(v),
        None => {
            return Err(Error::InvalidOp);
        },
    };
    Ok(TxSecMarketExchange { maker_tx_offset })
}

/// The `TxSecMarketEnd` that the fields spell, where every field of it is there.
pub open spec fn spec_to_sec_market_end(fields: Seq<(String, Scalar)>) -> Result<TxSecMarketEnd, Error> {
    if spec_lookup(fields, "matched_time"@) is Some {
        Ok(TxSecMarketEnd { matched_time: spec_lookup(fields, "matched_time"@)->0 })
    } else {
        Err(Error::InvalidOp)
    }
}

/// The `TxSecMarketEnd` that the fields spell, or `InvalidOp` where a field is missing.
pub fn to_sec_market_end(raw_tx: &Vec<(String, Scalar)>) -> (r: Result<TxSecMarketEnd, Error>)
    ensures
        r == spec_to_sec_market_end(raw_tx@),
{
    let matched_time = match lookup(raw_tx, "matched_time") {
        Some(v) => v,
        None => {
            return Err(Error::InvalidOp);
        },
    };
    Ok(TxSecMarketEnd { matched_time })
}

/// The `TxAdminCancel` that the fields spell, where every field of it is there.
pub open spec fn spec_to_admin_cancel(fields: Seq<(String, Scalar)>) -> Result<TxAdminCancel, Error> {
    if spec_lookup(fields, "tx_id"@) is Some {
        Ok(TxAdminCancel { tx_id: spec_f2usize(spec_lookup(fields, "tx_id"@)->0) })
    } else {
        Err(Error::InvalidOp)
    }
}

/// The `TxAdminCancel` that the fields spell, or `InvalidOp` where a field is missing.
pub fn to_admin_cancel(raw_tx: &Vec<(String, Scalar)>) -> (r: Result<TxAdminCancel, Error>)
    ensures
        r == spec_to_admin_cancel(raw_tx@),
{
    let tx_id = match lookup(raw_tx, "tx_id") {
        Some(v) => f2usize(v),
        None => {
            return Err(Error::InvalidOp);
        },
    };
    Ok(TxAdminCancel { tx_id })
}

/// The `TxUserCancel` that the fields spell, where every field of it is there.
pub open spec fn spec_to_user_cancel(fields: Seq<(String, Scalar)>) -> Result<TxUserCancel, Error> {
    if spec_lookup(fields, "tx_id"@) is Some && spec_lookup(fields, "tx_fee_token_id"@) is Some && spec_lookup(fields, "tx_fee_amt"@) is Some {
        Ok(TxUserCancel { tx_id: spec_f2usize(spec_lookup(fields, "tx_id"@)->0), tx_fee_token_id: spec_f2usize(spec_lookup(fields, "tx_fee_token_id"@)->0), tx_fee_amt: spec_lookup(fields, "tx_fee_amt"@)->0 })
    } else {
        Err(Error::InvalidOp)
    }
}

/// The `TxUserCancel` that the fields spell, or `InvalidOp` where a field is missing.
pub fn to_user_cancel(raw_tx: &Vec<(String, Scalar)>) -> (r: Result<TxUserCancel, Error>)
    ensures
        r == spec_to_user_cancel(raw_tx@),
{
    let tx_id = match lookup(raw_tx, "tx_id") {
        Some(v) => f2usize(v),
        None => {
            return Err(Error::InvalidOp);
        },
    };
    let tx_fee_token_id = match lookup(raw_tx, "tx_fee_token_id") {
        Some(v) => f2usize(v),
        None => {
            return Err(Error::InvalidOp);
        },
    };
    let tx_fee_amt = match lookup(raw_tx, "tx_fee_amt") {
        Some(v) => v,
        None => {
            return Err(Error::InvalidOp);
        },
    };
    Ok(TxUserCancel { tx_id, tx_fee_token_id, tx_fee_amt })
}

/// The `TxIncreaseEpoch` that the fields spell, where every field of it is there.
pub open spec fn spec_to_increase_epoch(fields: Seq<(String, Scalar)>) -> Result<TxIncreaseEpoch, Error> {
    if true {
        Ok(TxIncreaseEpoch {  })
    } else {
        Err(Error::InvalidOp)
    }
}

/// The `TxIncreaseEpoch` that the fields spell, or `InvalidOp` where a field is missing.
pub fn to_increase_epoch(raw_tx: &Vec<(String, Scalar)>) -> (r: Result<TxIncreaseEpoch, Error>)
    ensures
        r == spec_to_increase_epoch(raw_tx@),
{

    Ok(TxIncreaseEpoch {  })
}

/// The `TxCreateTsbBondToken` that the fields spell, where every field of it is there.
pub open spec fn spec_to_create_tsb_bond_token(fields: Seq<(String, Scalar)>) -> Result<TxCreateTsbBondToken, Error> {
    if spec_lookup(fields, "maturity"@) is Some && spec_lookup(fields, "base_token_id"@) is Some && spec_lookup(fields, "bond_token_id"@) is Some {
        Ok(TxCreateTsbBondToken { maturity: spec_lookup(fields, "maturity"@)->0, base_token_id: spec_f2usize(spec_lookup(fields, "base_token_id"@)->0), bond_token_id: spec_f2usize(spec_lookup(fields, "bond_token_id"@)->0) })
    } else {
        Err(Error::InvalidOp)
    }
}

/// The `TxCreateTsbBondToken` that the fields spell, or `InvalidOp` where a field is missing.
pub fn to_create_tsb_bond_token(raw_tx: &Vec<(String, Scalar)>) -> (r: Result<TxCreateTsbBondToken, Error>)
    ensures
        r == spec_to_create_tsb_bond_token(raw_tx@),
{
    let maturity = match lookup(raw_tx, "maturity") {
        Some(v) => v,
        None => {
            return Err(Error::InvalidOp);
        },
    };
    let base_token_id = match lookup(raw_tx, "base_token_id") {
        Some(v) => f2usize(v),
        None => {
            return Err(Error::InvalidOp);
        },
    };
    let bond_token_id = match lookup(raw_tx, "bond_token_id") {
        Some(v) => f2usize(v),
        None => {
            return Err(Error::InvalidOp);
        },
    };
    Ok(TxCreateTsbBondToken { maturity, base_token_id, bond_token_id })
}

/// The `TxRedeem` that the fields spell, where every field of it is there.
pub open spec fn spec_to_redeem(fields: Seq<(String, Scalar)>) -> Result<TxRedeem, Error> {
    if spec_lookup(fields, "sender_id"@) is Some && spec_lookup(fields, "token_id"@) is Some && spec_lookup(fields, "amount"@) is Some {
        Ok(TxRedeem { sender_id: spec_f2usize(spec_lookup(fields, "sender_id"@)->0), token_id: spec_f2usize(spec_lookup(fields, "token_id"@)->0), amount: spec_lookup(fields, "amount"@)->0 })
    } else {
        Err(Error::InvalidOp)
    }
}

/// The `TxRedeem` that the fields spell, or `InvalidOp` where a field is missing.
pub fn to_redeem(raw_tx: &Vec<(String, Scalar)>) -> (r: Result<TxRedeem, Error>)
    ensures
        r == spec_to_redeem(raw_tx@),
{
    let sender_id = match lookup(raw_tx, "sender_id") {
        Some(v) => f2usize(v),
        None => {
            return Err(Error::InvalidOp);
        },
    };
    let token_id = match lookup(raw_tx, "token_id") {
        Some(v) => f2usize(v),
        None => {
            return Err(Error::InvalidOp);
        },
    };
    let amount = match lookup(raw_tx, "amount") {
        Some(v) => v,
        None => {
            return Err(Error::InvalidOp);
        },
    };
    Ok(TxRedeem { sender_id, token_id, amount })
}

/// The `TxWithdrawFee` that the fields spell, where every field of it is there.
pub open spec fn spec_to_withdraw_fee(fields: Seq<(String, Scalar)>) -> Result<TxWithdrawFee, Error> {
    if spec_lookup(fields, "token_id"@) is Some && spec_lookup(fields, "amount"@) is Some {
        Ok(TxWithdrawFee { token_id: spec_f2usize(spec_lookup(fields, "token_id"@)->0), amount: spec_lookup(fields, "amount"@)->0 })
    } else {
        Err(Error::InvalidOp)
    }
}

/// The `TxWithdrawFee` that the fields spell, or `InvalidOp` where a field is missing.
pub fn to_withdraw_fee(raw_tx: &Vec<(String, Scalar)>) -> (r: Result<TxWithdrawFee, Error>)
    ensures
        r == spec_to_withdraw_fee(raw_tx@),
{
    let token_id = match lookup(raw_tx, "token_id") {
        Some(v) => f2usize(v),
        None => {
            return Err(Error::InvalidOp);
        },
    };
    let amount = match lookup(raw_tx, "amount") {
        Some(v) => v,
        None => {
            return Err(Error::InvalidOp);
        },
    };
    Ok(TxWithdrawFee { token_id, amount })
}

/// The `TxEvacuation` that the fields spell, where every field of it is there.
pub open spec fn spec_to_evacuation(fields: Seq<(String, Scalar)>) -> Result<TxEvacuation, Error> {
    if spec_lookup(fields, "sender_id"@) is Some && spec_lookup(fields, "token_id"@) is Some && spec_lookup(fields, "amount"@) is Some {
        Ok(TxEvacuation { sender_id: spec_f2usize(spec_lookup(fields, "sender_id"@)->0), token_id: spec_f2usize(spec_lookup(fields, "token_id"@)->0), amount: spec_lookup(fields, "amount"@)->0 })
    } else {
        Err(Error::InvalidOp)
    }
}

/// The `TxEvacuation` that the fields spell, or `InvalidOp` where a field is missing.
pub fn to_evacuation(raw_tx: &Vec<(String, Scalar)>) -> (r: Result<TxEvacuation, Error>)
    ensures
        r == spec_to_evacuation(raw_tx@),
{
    let sender_id = match lookup(raw_tx, "sender_id") {
        Some(v) => f2usize(v),
        None => {
            return Err(Error::InvalidOp);
        },
    };
    let token_id = match lookup(raw_tx, "token_id") {
        Some(v) => f2usize(v),
        None => {
            return Err(Error::InvalidOp);
        },
    };
    let amount = match lookup(raw_tx, "amount") {
        Some(v) => v,
        None => {
            return Err(Error::InvalidOp);
        },
    };
    Ok(TxEvacuation { sender_id, token_id, amount })
}

/// The `TxSetAdminTsAddr` that the fields spell, where every field of it is there.
pub open spec fn spec_to_set_admin_ts_add(fields: Seq<(String, Scalar)>) -> Result<TxSetAdminTsAddr, Error> {
    if true {
        Ok(TxSetAdminTsAddr {  })
    } else {
        Err(Error::InvalidOp)
    }
}

/// The `TxSetAdminTsAddr` that the fields spell, or `InvalidOp` where a field is missing.
pub fn to_set_admin_ts_add(raw_tx: &Vec<(String, Scalar)>) -> (r: Result<TxSetAdminTsAddr, Error>)
    ensures
        r == spec_to_set_admin_ts_add(raw_tx@),
{

    Ok(TxSetAdminTsAddr {  })
}

/// The transaction that the operation `op_type` with the fields `fields`
/// is, or `InvalidOp` where there is no such operation or a field is missing.
pub open spec fn spec_to_tx(op_type: Seq<char>, fields: Seq<(String, Scalar)>) -> Result<Tx, Error> {
    if op_type == "noop"@ {
        match spec_to_noop(fields) {
            Ok(t) => Ok(Tx::TxNoop(t)),
            Err(e) => Err(e),
        }
    } else if op_type == "register"@ {
        match spec_to_register(fields) {
            Ok(t) => Ok(Tx::TxRegister(t)),
            Err(e) => Err(e),
        }
    } else if op_type == "deposit"@ {
        match spec_to_deposit(fields) {
            Ok(t) => Ok(Tx::TxDeposit(t)),
            Err(e) => Err(e),
        }
    } else if op_type == "forced_withdraw"@ {
        match spec_to_forced_withdraw(fields) {
            Ok(t) => Ok(Tx::TxForcedWithdraw(t)),
            Err(e) => Err(e),
        }
    } else if op_type == "transfer"@ {
        match spec_to_transfer(fields) {
            Ok(t) => Ok(Tx::TxTransfer(t)),
            Err(e) => Err(e),
        }
    } else if op_type == "withdraw"@ {
        match spec_to_withdraw(fields) {
            Ok(t) => Ok(Tx::TxWithdraw(t)),
            Err(e) => Err(e),
        }
    } else if op_type == "auction_lend"@ {
        match spec_to_auc_lend(fields) {
            Ok(t) => Ok(Tx::TxAucLend(t)),
            Err(e) => Err(e),
        }
    } else if op_type == "auction_borrow"@ {
        match spec_to_auc_borrow(fields) {
            Ok(t) => Ok(Tx::TxAucBorrow(t)),
            Err(e) => Err(e),
        }
    } else if op_type == "auction_start"@ {
        match spec_to_auc_start(fields) {
            Ok(t) => Ok(Tx::TxAucStart(t)),
            Err(e) => Err(e),
        }
    } else if op_type == "auction_match"@ {
        match spec_to_auc_match(fields) {
            Ok(t) => Ok(Tx::TxAucMatch(t)),
            Err(e) => Err(e),
        }
    } else if op_type == "auction_end"@ {
        match spec_to_auc_end(fields) {
            Ok(t) => Ok(Tx::TxAucEnd(t)),
            Err(e) => Err(e),
        }
    } else if op_type == "second_limit_order"@ {
        match spec_to_sec_limit_order(fields) {
            Ok(t) => Ok(Tx::TxSecLimitOrder(t)),
            Err(e) => Err(e),
        }
    } else if op_type == "second_limit_start"@ {
        match spec_to_sec_limit_start(fields) {
            Ok(t) => Ok(Tx::TxSecLimitStart(t)),
            Err(e) => Err(e),
        }
    } else if op_type == "second_limit_exchange"@ {
        match spec_to_sec_limit_exchange(fields) {
            Ok(t) => Ok(Tx::TxSecLimitExchange(t)),
            Err(e) => Err(e),
        }
    } else if op_type == "second_limit_end"@ {
        match spec_to_sec_limit_end(fields) {
            Ok(t) => Ok(Tx::TxSecLimitEnd(t)),
            Err(e) => Err(e),
        }
    } else if op_type == "second_market_order"@ {
        match spec_to_sec_market_order(fields) {
            Ok(t) => Ok(Tx::TxSecMarketOrder(t)),
            Err(e) => Err(e),
        }
    } else if op_type == "second_market_exchange"@ {
        match spec_to_sec_market_exchange(fields) {
            Ok(t) => Ok(Tx::TxSecMarketExchange(t)),
            Err(e) => Err(e),
        }
    } else if op_type == "second_market_end"@ {
        match spec_to_sec_market_end(fields) {
            Ok(t) => Ok(Tx::TxSecMarketEnd(t)),
            Err(e) => Err(e),
        }
    } else if op_type == "admin_cancel"@ {
        match spec_to_admin_cancel(fields) {
            Ok(t) => Ok(Tx::TxAdminCancel(t)),
            Err(e) => Err(e),
        }
    } else if op_type == "user_cancel"@ {
        match spec_to_user_cancel(fields) {
            Ok(t) => Ok(Tx::TxUserCancel(t)),
            Err(e) => Err(e),
        }
    } else if op_type == "increase_epoch"@ {
        match spec_to_increase_epoch(fields) {
            Ok(t) => Ok(Tx::TxIncreaseEpoch(t)),
            Err(e) => Err(e),
        }
    } else if op_type == "create_bond_token"@ {
        match spec_to_create_tsb_bond_token(fields) {
            Ok(t) => Ok(Tx::TxCreateTsbBondToken(t)),
            Err(e) => Err(e),
        }
    } else if op_type == "redeem"@ {
        match spec_to_redeem(fields) {
            Ok(t) => Ok(Tx::TxRedeem(t)),
            Err(e) => Err(e),
        }
    } else if op_type == "withdraw_fee"@ {
        match spec_to_withdraw_fee(fields) {
            Ok(t) => Ok(Tx::TxWithdrawFee(t)),
            Err(e) => Err(e),
        }
    } else if op_type == "evacuation"@ {
        match spec_to_evacuation(fields) {
            Ok(t) => Ok(Tx::TxEvacuation(t)),
            Err(e) => Err(e),
        }
    } else if op_type == "set_admin_ts_addr"@ {
        match spec_to_set_admin_ts_add(fields) {
            Ok(t) => Ok(Tx::TxSetAdminTsAddr(t)),
            Err(e) => Err(e),
        }
    } else {
        Err(Error::InvalidOp)
    }
}

/// The transaction that the operation `op_type` with the fields `raw_tx` is.
pub fn to_tx(op_type: &String, raw_tx: &Vec<(String, Scalar)>) -> (r: Result<Tx, Error>)
    ensures
        r == spec_to_tx(op_type@, raw_tx@),
{
    if *op_type == String::from_str("noop") {
        return match to_noop(raw_tx) {
            Ok(t) => Ok(Tx::TxNoop(t)),
            Err(e) => Err(e),
        };
    }
    if *op_type == String::from_str("register") {
        return match to_register(raw_tx) {
            Ok(t) => Ok(Tx::TxRegister(t)),
            Err(e) => Err(e),
        };
    }
    if *op_type == String::from_str("deposit") {
        return match to_deposit(raw_tx) {
            Ok(t) => Ok(Tx::TxDeposit(t)),
            Err(e) => Err(e),
        };
    }
    if *op_type == String::from_str("forced_withdraw") {
        return match to_forced_withdraw(raw_tx) {
            Ok(t) => Ok(Tx::TxForcedWithdraw(t)),
            Err(e) => Err(e),
        };
    }
    if *op_type == String::from_str("transfer") {
        return match to_transfer(raw_tx) {
            Ok(t) => Ok(Tx::TxTransfer(t)),
            Err(e) => Err(e),
        };
    }
    if *op_type == String::from_str("withdraw") {
        return match to_withdraw(raw_tx) {
            Ok(t) => Ok(Tx::TxWithdraw(t)),
            Err(e) => Err(e),
        };
    }
    if *op_type == String::from_str("auction_lend") {
        return match to_auc_lend(raw_tx) {
            Ok(t) => Ok(Tx::TxAucLend(t)),
            Err(e) => Err(e),
        };
    }
    if *op_type == String::from_str("auction_borrow") {
        return match to_auc_borrow(raw_tx) {
            Ok(t) => Ok(Tx::TxAucBorrow(t)),
            Err(e) => Err(e),
        };
    }
    if *op_type == String::from_str("auction_start") {
        return match to_auc_start(raw_tx) {
            Ok(t) => Ok(Tx::TxAucStart(t)),
            Err(e) => Err(e),
        };
    }
    if *op_type == String::from_str("auction_match") {
        return match to_auc_match(raw_tx) {
            Ok(t) => Ok(Tx::TxAucMatch(t)),
            Err(e) => Err(e),
        };
    }
    if *op_type == String::from_str("auction_end") {
        return match to_auc_end(raw_tx) {
            Ok(t) => Ok(Tx::TxAucEnd(t)),
            Err(e) => Err(e),
        };
    }
    if *op_type == String::from_str("second_limit_order") {
        return match to_sec_limit_order(raw_tx) {
            Ok(t) => Ok(Tx::TxSecLimitOrder(t)),
            Err(e) => Err(e),
        };
    }
    if *op_type == String::from_str("second_limit_start") {
        return match to_sec_limit_start(raw_tx) {
            Ok(t) => Ok(Tx::TxSecLimitStart(t)),
            Err(e) => Err(e),
        };
    }
    if *op_type == String::from_str("second_limit_exchange") {
        return match to_sec_limit_exchange(raw_tx) {
            Ok(t) => Ok(Tx::TxSecLimitExchange(t)),
            Err(e) => Err(e),
        };
    }
    if *op_type == String::from_str("second_limit_end") {
        return match to_sec_limit_end(raw_tx) {
            Ok(t) => Ok(Tx::TxSecLimitEnd(t)),
            Err(e) => Err(e),
        };
    }
    if *op_type == String::from_str("second_market_order") {
        return match to_sec_market_order(raw_tx) {
            Ok(t) => Ok(Tx::TxSecMarketOrder(t)),
            Err(e) => Err(e),
        };
    }
    if *op_type == String::from_str("second_market_exchange") {
        return match to_sec_market_exchange(raw_tx) {
            Ok(t) => Ok(Tx::TxSecMarketExchange(t)),
            Err(e) => Err(e),
        };
    }
    if *op_type == String::from_str("second_market_end") {
        return match to_sec_market_end(raw_tx) {
            Ok(t) => Ok(Tx::TxSecMarketEnd(t)),
            Err(e) => Err(e),
        };
    }
    if *op_type == String::from_str("admin_cancel") {
        return match to_admin_cancel(raw_tx) {
            Ok(t) => Ok(Tx::TxAdminCancel(t)),
            Err(e) => Err(e),
        };
    }
    if *op_type == String::from_str("user_cancel") {
        return match to_user_cancel(raw_tx) {
            Ok(t) => Ok(Tx::TxUserCancel(t)),
            Err(e) => Err(e),
        };
    }
    if *op_type == String::from_str("increase_epoch") {
        return match to_increase_epoch(raw_tx) {
            Ok(t) => Ok(Tx::TxIncreaseEpoch(t)),
            Err(e) => Err(e),
        };
    }
    if *op_type == String::from_str("create_bond_token") {
        return match to_create_tsb_bond_token(raw_tx) {
            Ok(t) => Ok(Tx::TxCreateTsbBondToken(t)),
            Err(e) => Err(e),
        };
    }
    if *op_type == String::from_str("redeem") {
        return match to_redeem(raw_tx) {
            Ok(t) => Ok(Tx::TxRedeem(t)),
            Err(e) => Err(e),
        };
    }
    if *op_type == String::from_str("withdraw_fee") {
        return match to_withdraw_fee(raw_tx) {
            Ok(t) => Ok(Tx::TxWithdrawFee(t)),
            Err(e) => Err(e),
        };
    }
    if *op_type == String::from_str("evacuation") {
        return match to_evacuation(raw_tx) {
            Ok(t) => Ok(Tx::TxEvacuation(t)),
            Err(e) => Err(e),
        };
    }
    if *op_type == String::from_str("set_admin_ts_addr") {
        return match to_set_admin_ts_add(raw_tx) {
            Ok(t) => Ok(Tx::TxSetAdminTsAddr(t)),
            Err(e) => Err(e),
        };
    }
    Err(Error::InvalidOp)
}

} // verus!
