//! The lending auction: what a matched loan owes, what it is charged, and
//! how a borrow order and a lend order are matched.

use vstd::prelude::*;
use crate::error::Error;
use crate::mechanism::{_1f, _1fixed, _365f, fadd, fmul, fsub, ONE_FIXED};
use crate::scalar::{modulus, Scalar};
use crate::state_tx::Tx;
use crate::tx;

verus! {

/// The debt of a loan of `principal` at the rate `pir` over `days` days:
/// `principal * (pir * (days - 1) + one * (365 - (days - 1))) / (365 * one)`.
pub open spec fn spec_calc_debt_amt(pir: nat, principal: nat, days: nat) -> nat {
    fmul(
        principal,
        fadd(
            fmul(pir, fsub(days, 1)),
            fmul(ONE_FIXED as nat, fsub(365, fsub(days, 1))),
        ),
    ) / (365 * ONE_FIXED) as nat
}

/// The debt of a loan of `principal` at the rate `pir` over `days` days.
pub fn calc_debt_amt(pir: Scalar, principal: Scalar, days: Scalar) -> (r: Scalar)
    ensures
        r@ == spec_calc_debt_amt(pir@, principal@, days@),
{
    let span: Scalar = days.sub(&_1f());
    let grown: Scalar = pir.mul(&span);
    let flat: Scalar = _1fixed().mul(&_365f().sub(&span));
    let numerator: Scalar = principal.mul(&grown.add(&flat));
    let denominator: Scalar = _365f().mul(&_1fixed());
    proof {
        vstd::arithmetic::div_mod::lemma_small_mod((365 * ONE_FIXED) as nat, modulus());
    }
    numerator.div(&denominator)
}

/// The distance of the rate `pir` from one.
pub open spec fn spec_abs_interest(pir: nat) -> nat {
    if pir > ONE_FIXED {
        fsub(pir, ONE_FIXED as nat)
    } else {
        fsub(ONE_FIXED as nat, pir)
    }
}

/// The fee on a matched loan:
/// `amount * |interest| * fee_rate * (days - 1) / (365 * one * one)`.
pub open spec fn spec_calc_fee(
    fee_rate: nat,
    matched_borrow_amt: nat,
    matched_pir: nat,
    days: nat,
) -> nat {
    fmul(fmul(fmul(matched_borrow_amt, spec_abs_interest(matched_pir)), fee_rate), fsub(days, 1))
        / (365 * ONE_FIXED * ONE_FIXED) as nat
}

/// The fee on a matched loan.
pub fn calc_fee(fee_rate: Scalar, matched_borrow_amt: Scalar, matched_pir: Scalar, days: Scalar) -> (r:
    Scalar)
    ensures
        r@ == spec_calc_fee(fee_rate@, matched_borrow_amt@, matched_pir@, days@),
{
    let abs_interest: Scalar = if matched_pir.gt(&_1fixed()) {
        matched_pir.sub(&_1fixed())
    } else {
        _1fixed().sub(&matched_pir)
    };
    let numerator: Scalar = matched_borrow_amt.mul(&abs_interest).mul(&fee_rate).mul(
        &days.sub(&_1f()),
    );
    let denominator: Scalar = _365f().mul(&_1fixed()).mul(&_1fixed());
    proof {
        vstd::arithmetic::div_mod::lemma_small_mod((365 * ONE_FIXED) as nat, modulus());
        vstd::arithmetic::div_mod::lemma_small_mod(
            (365 * ONE_FIXED * ONE_FIXED) as nat,
            modulus(),
        );
    }
    numerator.div(&denominator)
}

/// The smaller of the two values.
pub open spec fn spec_min(a: nat, b: nat) -> nat {
    if a > b {
        b
    } else {
        a
    }
}

/// What is matched of a borrow order and a lend order: the smaller of what
/// is left to lend and what is left to borrow.
pub open spec fn spec_matched_amt(borrowing_amt: nat, lending_amt: nat, borrower: Tx, lender: Tx) -> nat {
    spec_min(fsub(lending_amt, lender.cum_deducted_amt@), fsub(borrowing_amt, borrower.cum_target_amt@))
}

/// The collateral that a borrower has given up once `borrowed` of
/// `borrowing_amt` is borrowed: all of it but the share of what is left.
pub open spec fn spec_collateral_used(collateral_amt: nat, borrowing_amt: nat, borrowed: nat) -> nat {
    fsub(collateral_amt, fmul(collateral_amt, fsub(borrowing_amt, borrowed)) / borrowing_amt)
}

/// The borrow order and the lend order after a match at the interest
/// `matched_pir` over `days` days; `InvalidTxType` where the orders are of
/// other kinds or the borrow order borrows nothing.
pub open spec fn spec_lent(borrower: Tx, lender: Tx, days: Scalar, matched_pir: Scalar) -> Result<
    (Tx, Tx),
    Error,
> {
    match (borrower.raw_tx, lender.raw_tx) {
        (tx::Tx::TxAucBorrow(b), tx::Tx::TxAucLend(l)) => if b.borrowing_amt@ == 0 {
            Err(Error::InvalidTxType)
        } else {
            let matched = spec_matched_amt(b.borrowing_amt@, l.lending_amt@, borrower, lender);
            let borrowed = fadd(borrower.cum_target_amt@, matched);
            Ok(
                (
                    Tx {
                        cum_target_amt: Scalar::spec_new(borrowed),
                        cum_deducted_amt: Scalar::spec_new(
                            spec_collateral_used(b.collateral_amt@, b.borrowing_amt@, borrowed),
                        ),
                        ..borrower
                    },
                    Tx {
                        cum_deducted_amt: Scalar::spec_new(fadd(lender.cum_deducted_amt@, matched)),
                        cum_target_amt: Scalar::spec_new(
                            fadd(
                                lender.cum_target_amt@,
                                spec_calc_debt_amt(matched_pir@, matched, days@),
                            ),
                        ),
                        ..lender
                    },
                ),
            )
        },
        _ => Err(Error::InvalidTxType),
    }
}

/// Matches the lend order `lender` against the borrow order `borrower`. Both
/// orders take up the matched amount; the lender is owed the debt on it, the
/// borrower gives up collateral in proportion. Orders of other kinds are
/// refused, and so is a borrow order that borrows nothing.
pub fn mechanism(borrower: &mut Tx, lender: &mut Tx, days: Scalar, matched_pir: Scalar) -> (r:
    Result<(), Error>)
    ensures
        match (old(borrower).raw_tx, old(lender).raw_tx) {
            (tx::Tx::TxAucBorrow(b), tx::Tx::TxAucLend(l)) => if b.borrowing_amt@ == 0 {
                r == Err::<(), Error>(Error::InvalidTxType) && *final(borrower) == *old(borrower)
                    && *final(lender) == *old(lender)
            } else {
                let matched = spec_matched_amt(
                    b.borrowing_amt@,
                    l.lending_amt@,
                    *old(borrower),
                    *old(lender),
                );
                let borrowed = fadd(old(borrower).cum_target_amt@, matched);
                &&& r is Ok
                &&& final(lender).cum_deducted_amt@ == fadd(old(lender).cum_deducted_amt@, matched)
                &&& final(lender).cum_target_amt@ == fadd(
                    old(lender).cum_target_amt@,
                    crate::primary_market::spec_calc_debt_amt(matched_pir@, matched, days@),
                )
                &&& final(borrower).cum_target_amt@ == borrowed
                &&& final(borrower).cum_deducted_amt@ == spec_collateral_used(
                    b.collateral_amt@,
                    b.borrowing_amt@,
                    borrowed,
                )
                &&& final(borrower).raw_tx == old(borrower).raw_tx
                &&& final(lender).raw_tx == old(lender).raw_tx
                &&& final(borrower).ori_cum_deducted_amt == old(borrower).ori_cum_deducted_amt
                &&& final(borrower).ori_cum_target_amt == old(borrower).ori_cum_target_amt
                &&& final(borrower).locked_amt == old(borrower).locked_amt
                &&& final(borrower).cum_fee_amt == old(borrower).cum_fee_amt
                &&& final(borrower).credit_amt == old(borrower).credit_amt
                &&& final(lender).ori_cum_deducted_amt == old(lender).ori_cum_deducted_amt
                &&& final(lender).ori_cum_target_amt == old(lender).ori_cum_target_amt
                &&& final(lender).locked_amt == old(lender).locked_amt
                &&& final(lender).cum_fee_amt == old(lender).cum_fee_amt
                &&& final(lender).credit_amt == old(lender).credit_amt
                &&& final(lender).cum_deducted_amt.canonical()
                &&& final(lender).cum_target_amt.canonical()
                &&& final(borrower).cum_target_amt.canonical()
                &&& final(borrower).cum_deducted_amt.canonical()
            },
            _ => r == Err::<(), Error>(Error::InvalidTxType) && *final(borrower) == *old(borrower)
                && *final(lender) == *old(lender),
        },
        match spec_lent(*old(borrower), *old(lender), days, matched_pir) {
            Ok((b1, l1)) => r is Ok && *final(borrower) == b1 && *final(lender) == l1,
            Err(e) => r == Err::<(), Error>(e) && *final(borrower) == *old(borrower)
                && *final(lender) == *old(lender),
        },
{
    match (borrower.raw_tx, lender.raw_tx) {
        (tx::Tx::TxAucBorrow(raw_borrower), tx::Tx::TxAucLend(raw_lender)) => {
            if raw_borrower.borrowing_amt.is_zero() {
                return Err(Error::InvalidTxType);
            }
            let remain_lend_amt: Scalar = raw_lender.lending_amt.sub(&lender.cum_deducted_amt);
            let remain_borrow_amt: Scalar = raw_borrower.borrowing_amt.sub(
                &borrower.cum_target_amt,
            );
            let matched_amt: Scalar = if remain_lend_amt.gt(&remain_borrow_amt) {
                remain_borrow_amt
            } else {
                remain_lend_amt
            };
            let matched_debt_amt: Scalar = calc_debt_amt(matched_pir, matched_amt, days);
            lender.cum_deducted_amt = lender.cum_deducted_amt.add(&matched_amt);
            lender.cum_target_amt = lender.cum_target_amt.add(&matched_debt_amt);
            borrower.cum_target_amt = borrower.cum_target_amt.add(&matched_amt);
            let left: Scalar = raw_borrower.collateral_amt.mul(
                &raw_borrower.borrowing_amt.sub(&borrower.cum_target_amt),
            );
            let kept: Scalar = left.div(&raw_borrower.borrowing_amt);
            borrower.cum_deducted_amt = raw_borrower.collateral_amt.sub(&kept);
            lender.cum_deducted_amt.check_reduced_spec();
            lender.cum_target_amt.check_reduced_spec();
            borrower.cum_target_amt.check_reduced_spec();
            borrower.cum_deducted_amt.check_reduced_spec();
            Ok(())
        },
        _ => Err(Error::InvalidTxType),
    }
}

} // verus!
