//! A transaction as the ledger keeps it: what was committed, and what has
//! been matched, locked and charged of it since.

use vstd::prelude::*;
use crate::scalar::Scalar;
use crate::tx;

verus! {

/// A transaction with the amounts that the ledger accumulates for it.
#[derive(Clone, Copy, Debug, PartialEq, Eq, Structural)]
pub struct Tx {
    pub raw_tx: tx::Tx,
    pub cum_deducted_amt: Scalar,
    pub cum_target_amt: Scalar,
    pub ori_cum_deducted_amt: Scalar,
    pub ori_cum_target_amt: Scalar,
    pub locked_amt: Scalar,
    pub cum_fee_amt: Scalar,
    pub credit_amt: Scalar,
}

impl Default for Tx {
    fn default() -> (r: Self)
        ensures
            r == Tx::spec_new(tx::Tx::TxNoop(tx::TxNoop {  })),
    {
        Tx::new(tx::Tx::TxNoop(tx::TxNoop {  }))
    }
}

impl Tx {
    /// The transaction `raw_tx` with nothing matched, locked or charged yet.
    pub open spec fn spec_new(raw_tx: tx::Tx) -> Tx {
        Tx {
            raw_tx,
            cum_deducted_amt: Scalar::spec_new(0),
            cum_target_amt: Scalar::spec_new(0),
            ori_cum_deducted_amt: Scalar::spec_new(0),
            ori_cum_target_amt: Scalar::spec_new(0),
            locked_amt: Scalar::spec_new(0),
            cum_fee_amt: Scalar::spec_new(0),
            credit_amt: Scalar::spec_new(0),
        }
    }

    /// The transaction `raw_tx` with nothing matched, locked or charged yet.
    pub fn new(raw_tx: tx::Tx) -> (r: Tx)
        ensures
            r == Tx::spec_new(raw_tx),
    {
        Tx {
            raw_tx,
            cum_deducted_amt: Scalar::zero(),
            cum_target_amt: Scalar::zero(),
            ori_cum_deducted_amt: Scalar::zero(),
            ori_cum_target_amt: Scalar::zero(),
            locked_amt: Scalar::zero(),
            cum_fee_amt: Scalar::zero(),
            credit_amt: Scalar::zero(),
        }
    }
}

} // verus!
