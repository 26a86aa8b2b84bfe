//! The transactions of the rollup, as they are read from committed data.

use vstd::prelude::*;
use crate::scalar::Scalar;

verus! {

/// Nothing happens.
#[derive(Clone, Copy, Debug, PartialEq, Eq, Structural)]
pub struct TxNoop {}

/// An account takes an address.
#[derive(Clone, Copy, Debug, PartialEq, Eq, Structural)]
pub struct TxRegister {
    pub account_id: u64,
    pub hashed_pub_key: Scalar,
}

/// Tokens enter an account from outside.
#[derive(Clone, Copy, Debug, PartialEq, Eq, Structural)]
pub struct TxDeposit {
    pub account_id: u64,
    pub deposit_token_id: u64,
    pub deposit_amt: Scalar,
}

/// Tokens leave an account on a request made outside.
#[derive(Clone, Copy, Debug, PartialEq, Eq, Structural)]
pub struct TxForcedWithdraw {
    pub account_id: u64,
    pub withdraw_token_id: u64,
    pub withdraw_amt: Scalar,
}

/// Tokens move from one account to another.
#[derive(Clone, Copy, Debug, PartialEq, Eq, Structural)]
pub struct TxTransfer {
    pub sender_id: u64,
    pub transfer_token_id: u64,
    pub transfer_amt: Scalar,
    pub receiver_id: u64,
}

/// Tokens leave an account, for a fee.
#[derive(Clone, Copy, Debug, PartialEq, Eq, Structural)]
pub struct TxWithdraw {
    pub account_id: u64,
    pub withdraw_token_id: u64,
    pub withdraw_amt: Scalar,
    pub tx_fee_token_id: u64,
    pub tx_fee_amt: Scalar,
}

/// An offer to lend in the auction.
#[derive(Clone, Copy, Debug, PartialEq, Eq, Structural)]
pub struct TxAucLend {
    pub lender_id: u64,
    pub lending_token_id: u64,
    pub lending_amt: Scalar,
    pub fee_rate: Scalar,
    pub default_matched_interest_rate: Scalar,
    pub maturity_time: Scalar,
    pub matched_time: Scalar,
    pub primary_lend_min_fee_amt: Scalar,
}

/// An offer to borrow in the auction, against collateral.
#[derive(Clone, Copy, Debug, PartialEq, Eq, Structural)]
pub struct TxAucBorrow {
    pub sender_id: u64,
    pub collateral_token_id: u64,
    pub collateral_amt: Scalar,
    pub fee_rate: Scalar,
    pub borrowing_amt: Scalar,
    pub matched_time: Scalar,
    pub primary_borrow_min_fee_amt: Scalar,
}

/// The start of an auction match: where the borrow order lies.
#[derive(Clone, Copy, Debug, PartialEq, Eq, Structural)]
pub struct TxAucStart {
    pub borrower_tx_offset: u64,
    pub ori_matched_interest: Scalar,
}

/// One lend order matched against the borrow order.
#[derive(Clone, Copy, Debug, PartialEq, Eq, Structural)]
pub struct TxAucMatch {
    pub lender_tx_offset: u64,
}

/// The end of an auction match.
#[derive(Clone, Copy, Debug, PartialEq, Eq, Structural)]
pub struct TxAucEnd {
    pub borrow_account: Scalar,
    pub collateral_token_id: u64,
    pub collateral_amt: Scalar,
    pub debt_token_id: u64,
    pub debt_amt: Scalar,
    pub matched_time: Scalar,
    pub maturity: Scalar,
}

/// A limit order on the secondary market.
#[derive(Clone, Copy, Debug, PartialEq, Eq, Structural)]
pub struct TxSecLimitOrder {
    pub sender_id: u64,
    pub sell_token_id: u64,
    pub sell_amt: Scalar,
    pub fee0: Scalar,
    pub fee1: Scalar,
    pub buy_token_id: u64,
    pub buy_amt: Scalar,
    pub expired_time: Scalar,
    pub matched_time: Scalar,
    pub secondary_taker_min_fee_amt: Scalar,
    pub secondary_maker_min_fee_amt: Scalar,
}

/// The start of a limit match: where the taker order lies.
#[derive(Clone, Copy, Debug, PartialEq, Eq, Structural)]
pub struct TxSecLimitStart {
    pub taker_tx_offset: u64,
}

/// One maker order matched against the taker of a limit match.
#[derive(Clone, Copy, Debug, PartialEq, Eq, Structural)]
pub struct TxSecLimitExchange {
    pub maker_tx_offset: u64,
}

/// The end of a limit match.
#[derive(Clone, Copy, Debug, PartialEq, Eq, Structural)]
pub struct TxSecLimitEnd {
    pub matched_time: Scalar,
}

/// A market order on the secondary market.
#[derive(Clone, Copy, Debug, PartialEq, Eq, Structural)]
pub struct TxSecMarketOrder {
    pub sender_id: u64,
    pub sell_token_id: u64,
    pub sell_amt: Scalar,
    pub fee0: Scalar,
    pub buy_token_id: u64,
    pub buy_amt: Scalar,
    pub expired_time: Scalar,
    pub secondary_taker_min_fee_amt: Scalar,
}

/// One maker order matched against a market order.
#[derive(Clone, Copy, Debug, PartialEq, Eq, Structural)]
pub struct TxSecMarketExchange {
    pub maker_tx_offset: u64,
}

/// The end of a market match.
#[derive(Clone, Copy, Debug, PartialEq, Eq, Structural)]
pub struct TxSecMarketEnd {
    pub matched_time: Scalar,
}

/// An order cancelled by the operator.
#[derive(Clone, Copy, Debug, PartialEq, Eq, Structural)]
pub struct TxAdminCancel {
    pub tx_id: u64,
}

/// An order cancelled by its owner, for a fee.
#[derive(Clone, Copy, Debug, PartialEq, Eq, Structural)]
pub struct TxUserCancel {
    pub tx_id: u64,
    pub tx_fee_token_id: u64,
    pub tx_fee_amt: Scalar,
}

/// The epoch advances.
#[derive(Clone, Copy, Debug, PartialEq, Eq, Structural)]
pub struct TxIncreaseEpoch {}

/// A bond token is created.
#[derive(Clone, Copy, Debug, PartialEq, Eq, Structural)]
pub struct TxCreateTsbBondToken {
    pub maturity: Scalar,
    pub base_token_id: u64,
    pub bond_token_id: u64,
}

/// Bond tokens are redeemed for their base token.
#[derive(Clone, Copy, Debug, PartialEq, Eq, Structural)]
pub struct TxRedeem {
    pub sender_id: u64,
    pub token_id: u64,
    pub amount: Scalar,
}

/// Collected fees are withdrawn.
#[derive(Clone, Copy, Debug, PartialEq, Eq, Structural)]
pub struct TxWithdrawFee {
    pub token_id: u64,
    pub amount: Scalar,
}

/// Funds leave an account in evacuation mode.
#[derive(Clone, Copy, Debug, PartialEq, Eq, Structural)]
pub struct TxEvacuation {
    pub sender_id: u64,
    pub token_id: u64,
    pub amount: Scalar,
}

/// The operator address is set.
#[derive(Clone, Copy, Debug, PartialEq, Eq, Structural)]
pub struct TxSetAdminTsAddr {}

/// One transaction.
#[derive(Clone, Copy, Debug, PartialEq, Eq, Structural)]
pub enum Tx {
    TxNoop(TxNoop),
    TxRegister(TxRegister),
    TxDeposit(TxDeposit),
    TxForcedWithdraw(TxForcedWithdraw),
    TxTransfer(TxTransfer),
    TxWithdraw(TxWithdraw),
    TxAucLend(TxAucLend),
    TxAucBorrow(TxAucBorrow),
    TxAucStart(TxAucStart),
    TxAucMatch(TxAucMatch),
    TxAucEnd(TxAucEnd),
    TxSecLimitOrder(TxSecLimitOrder),
    TxSecLimitStart(TxSecLimitStart),
    TxSecLimitExchange(TxSecLimitExchange),
    TxSecLimitEnd(TxSecLimitEnd),
    TxSecMarketOrder(TxSecMarketOrder),
    TxSecMarketExchange(TxSecMarketExchange),
    TxSecMarketEnd(TxSecMarketEnd),
    TxAdminCancel(TxAdminCancel),
    TxUserCancel(TxUserCancel),
    TxIncreaseEpoch(TxIncreaseEpoch),
    TxCreateTsbBondToken(TxCreateTsbBondToken),
    TxRedeem(TxRedeem),
    TxWithdrawFee(TxWithdrawFee),
    TxEvacuation(TxEvacuation),
    TxSetAdminTsAddr(TxSetAdminTsAddr),
}

impl Default for Tx {
    fn default() -> (r: Self)
        ensures
            r == Tx::TxNoop(TxNoop {  }),
    {
        Tx::TxNoop(TxNoop {  })
    }
}

} // verus!
