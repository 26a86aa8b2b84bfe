//! The secondary market: the quantities of a match between a taker and a
//! maker order, and what a match is charged.

use vstd::prelude::*;
use crate::error::Error;
use crate::mechanism::{_1fixed, _365f, fadd, fmul, fsub, ONE_FIXED};
use crate::primary_market::spec_min;
use crate::scalar::{modulus, Scalar};
use crate::state_tx::Tx;
use crate::tx;

verus! {

/// What the divisor of `calc_new_bq` is: `days * (priceMQ - priceBQ) + 365 * priceBQ`.
pub open spec fn spec_new_bq_divisor(price_mq: nat, price_bq: nat, days: nat) -> nat {
    fadd(fmul(days, fsub(price_mq, price_bq)), fmul(365, price_bq))
}

/// The base quantity that the main quantity `mq` is worth:
/// `365 * MQ * priceBQ / (days * (priceMQ - priceBQ) + 365 * priceBQ)`.
pub open spec fn spec_calc_new_bq(mq: nat, price_mq: nat, price_bq: nat, days: nat) -> nat {
    fmul(fmul(365, mq), price_bq) / spec_new_bq_divisor(price_mq, price_bq, days)
}

/// The base quantity that the main quantity `mq` is worth.
pub fn calc_new_bq(mq: Scalar, price_mq: Scalar, price_bq: Scalar, days: Scalar) -> (r: Scalar)
    requires
        spec_new_bq_divisor(price_mq@, price_bq@, days@) != 0,
    ensures
        r@ == spec_calc_new_bq(mq@, price_mq@, price_bq@, days@),
{
    let numerator: Scalar = _365f().mul(&mq).mul(&price_bq);
    let denominator: Scalar = days.mul(&price_mq.sub(&price_bq)).add(&_365f().mul(&price_bq));
    numerator.div(&denominator)
}

/// The main quantity that the base quantity `avl_bq` buys:
/// `(avlBQ * days * priceMQ + (365 - days) * priceBQ * avlBQ) / (365 * priceBQ)`.
pub open spec fn spec_calc_sup_mq(avl_bq: nat, price_mq: nat, price_bq: nat, days: nat) -> nat {
    fadd(
        fmul(fmul(avl_bq, days), price_mq),
        fmul(fmul(fsub(365, days), price_bq), avl_bq),
    ) / fmul(365, price_bq)
}

/// The main quantity that the base quantity `avl_bq` buys.
pub fn calc_sup_mq(avl_bq: Scalar, price_mq: Scalar, price_bq: Scalar, days: Scalar) -> (r: Scalar)
    requires
        fmul(365, price_bq@) != 0,
    ensures
        r@ == spec_calc_sup_mq(avl_bq@, price_mq@, price_bq@, days@),
{
    let numerator: Scalar = avl_bq.mul(&days).mul(&price_mq).add(
        &_365f().sub(&days).mul(&price_bq).mul(&avl_bq),
    );
    let denominator: Scalar = _365f().mul(&price_bq);
    numerator.div(&denominator)
}

/// The fee on a match: `MQ * feeRate * days / (365 * one)`.
pub open spec fn spec_calc_fee(fee_rate: nat, mq: nat, days: nat) -> nat {
    fmul(fmul(mq, fee_rate), days) / (365 * ONE_FIXED) as nat
}

/// The fee on a match.
pub fn calc_fee(fee_rate: Scalar, mq: Scalar, days: Scalar) -> (r: Scalar)
    ensures
        r@ == spec_calc_fee(fee_rate@, mq@, days@),
{
    let numerator: Scalar = mq.mul(&fee_rate).mul(&days);
    let denominator: Scalar = _365f().mul(&_1fixed());
    proof {
        vstd::arithmetic::div_mod::lemma_small_mod((365 * ONE_FIXED) as nat, modulus());
    }
    numerator.div(&denominator)
}

/// The quantities of a taker and a maker order that a match looks at: the
/// taker's main quantity, the maker's main quantity and the maker's base
/// quantity. Which side of an order is the main one depends on the side of
/// the maker.
pub open spec fn spec_sides(
    taker_sell: nat,
    taker_buy: nat,
    maker_sell: nat,
    maker_buy: nat,
    maker_side: bool,
) -> (nat, nat, nat) {
    if maker_side {
        (taker_buy, maker_sell, maker_buy)
    } else {
        (taker_sell, maker_buy, maker_sell)
    }
}

/// What is left of the taker's and of the maker's main quantity.
pub open spec fn spec_remaining(
    taker_mq: nat,
    maker_mq: nat,
    taker: Tx,
    maker: Tx,
    maker_side: bool,
) -> (nat, nat) {
    if maker_side {
        (fsub(taker_mq, taker.cum_target_amt@), fsub(maker_mq, maker.cum_deducted_amt@))
    } else {
        (fsub(taker_mq, taker.cum_deducted_amt@), fsub(maker_mq, maker.cum_target_amt@))
    }
}

/// The main and the base quantity that a match moves. A market order that
/// sells the base quantity moves no more of it than it has left.
pub open spec fn spec_matched(
    taker: Tx,
    maker: Tx,
    taker_sell: nat,
    taker_buy: nat,
    maker_sell: nat,
    maker_buy: nat,
    days: nat,
    maker_side: bool,
    market: bool,
) -> (nat, nat) {
    let (taker_mq, maker_mq, maker_bq) = spec_sides(
        taker_sell,
        taker_buy,
        maker_sell,
        maker_buy,
        maker_side,
    );
    let (remain_taker, remain_maker) = spec_remaining(taker_mq, maker_mq, taker, maker, maker_side);
    let mq = spec_min(remain_taker, remain_maker);
    let bq = spec_calc_new_bq(mq, maker_mq, maker_bq, days);
    let left = fsub(taker_sell, taker.cum_deducted_amt@);
    if market && maker_side && left < bq {
        (spec_calc_sup_mq(left, maker_mq, maker_bq, days), left)
    } else {
        (mq, bq)
    }
}

/// Whether the quantities of the two orders can be divided by: the divisor
/// of the base quantity is not zero, and where a market order is cut to what
/// it has left, neither is the divisor of the main quantity.
pub open spec fn spec_matchable(
    taker: Tx,
    maker: Tx,
    taker_sell: nat,
    taker_buy: nat,
    maker_sell: nat,
    maker_buy: nat,
    days: nat,
    maker_side: bool,
    market: bool,
) -> bool {
    let (taker_mq, maker_mq, maker_bq) = spec_sides(
        taker_sell,
        taker_buy,
        maker_sell,
        maker_buy,
        maker_side,
    );
    let (remain_taker, remain_maker) = spec_remaining(taker_mq, maker_mq, taker, maker, maker_side);
    let mq = spec_min(remain_taker, remain_maker);
    let bq = spec_calc_new_bq(mq, maker_mq, maker_bq, days);
    let left = fsub(taker_sell, taker.cum_deducted_amt@);
    &&& spec_new_bq_divisor(maker_mq, maker_bq, days) != 0
    &&& market && maker_side && left < bq ==> fmul(365, maker_bq) != 0
}

/// What a match leaves of the two orders: the maker has sold and bought, the
/// taker has bought and sold the same.
pub open spec fn spec_settled(
    old_taker: Tx,
    old_maker: Tx,
    taker: Tx,
    maker: Tx,
    mq: nat,
    bq: nat,
    maker_side: bool,
) -> bool {
    let sold = if maker_side {
        mq
    } else {
        bq
    };
    let bought = if maker_side {
        bq
    } else {
        mq
    };
    &&& maker.cum_deducted_amt@ == fadd(old_maker.cum_deducted_amt@, sold)
    &&& maker.cum_target_amt@ == fadd(old_maker.cum_target_amt@, bought)
    &&& taker.cum_deducted_amt@ == fadd(old_taker.cum_deducted_amt@, bought)
    &&& taker.cum_target_amt@ == fadd(old_taker.cum_target_amt@, sold)
    &&& maker.raw_tx == old_maker.raw_tx
    &&& taker.raw_tx == old_taker.raw_tx
    &&& maker.ori_cum_deducted_amt == old_maker.ori_cum_deducted_amt
    &&& maker.ori_cum_target_amt == old_maker.ori_cum_target_amt
    &&& maker.locked_amt == old_maker.locked_amt
    &&& maker.cum_fee_amt == old_maker.cum_fee_amt
    &&& maker.credit_amt == old_maker.credit_amt
    &&& taker.ori_cum_deducted_amt == old_taker.ori_cum_deducted_amt
    &&& taker.ori_cum_target_amt == old_taker.ori_cum_target_amt
    &&& taker.locked_amt == old_taker.locked_amt
    &&& taker.cum_fee_amt == old_taker.cum_fee_amt
    &&& taker.credit_amt == old_taker.credit_amt
    &&& maker.cum_deducted_amt.canonical()
    &&& maker.cum_target_amt.canonical()
    &&& taker.cum_deducted_amt.canonical()
    &&& taker.cum_target_amt.canonical()
}

/// What `mechanism` does with a taker that sells `taker_sell` for
/// `taker_buy` and a maker that sells `maker_sell` for `maker_buy`.
pub open spec fn spec_mechanism(
    old_taker: Tx,
    old_maker: Tx,
    taker: Tx,
    maker: Tx,
    taker_sell: nat,
    taker_buy: nat,
    maker_sell: nat,
    maker_buy: nat,
    days: nat,
    maker_side: bool,
    market: bool,
    r: Result<(), Error>,
) -> bool {
    if spec_matchable(
        old_taker,
        old_maker,
        taker_sell,
        taker_buy,
        maker_sell,
        maker_buy,
        days,
        maker_side,
        market,
    ) {
        let (mq, bq) = spec_matched(
            old_taker,
            old_maker,
            taker_sell,
            taker_buy,
            maker_sell,
            maker_buy,
            days,
            maker_side,
            market,
        );
        r is Ok && spec_settled(old_taker, old_maker, taker, maker, mq, bq, maker_side)
    } else {
        r == Err::<(), Error>(Error::InvalidTxType) && taker == old_taker && maker == old_maker
    }
}

/// The taker and the maker after a match, where the taker sells
/// `taker_sell` for `taker_buy` and the maker sells `maker_sell` for
/// `maker_buy`; `InvalidTxType` where the quantities cannot be divided by.
pub open spec fn spec_exchanged_with(
    taker: Tx,
    maker: Tx,
    taker_sell: nat,
    taker_buy: nat,
    maker_sell: nat,
    maker_buy: nat,
    days: nat,
    maker_side: bool,
    market: bool,
) -> Result<(Tx, Tx), Error> {
    if spec_matchable(
        taker,
        maker,
        taker_sell,
        taker_buy,
        maker_sell,
        maker_buy,
        days,
        maker_side,
        market,
    ) {
        let (mq, bq) = spec_matched(
            taker,
            maker,
            taker_sell,
            taker_buy,
            maker_sell,
            maker_buy,
            days,
            maker_side,
            market,
        );
        let sold = if maker_side {
            mq
        } else {
            bq
        };
        let bought = if maker_side {
            bq
        } else {
            mq
        };
        Ok(
            (
                Tx {
                    cum_deducted_amt: Scalar::spec_new(fadd(taker.cum_deducted_amt@, bought)),
                    cum_target_amt: Scalar::spec_new(fadd(taker.cum_target_amt@, sold)),
                    ..taker
                },
                Tx {
                    cum_deducted_amt: Scalar::spec_new(fadd(maker.cum_deducted_amt@, sold)),
                    cum_target_amt: Scalar::spec_new(fadd(maker.cum_target_amt@, bought)),
                    ..maker
                },
            ),
        )
    } else {
        Err(Error::InvalidTxType)
    }
}

/// The taker and the maker after a match of the order `taker`, a limit or a
/// market order, against the limit order `maker`; `InvalidTxType` where the
/// orders are of other kinds or the quantities cannot be divided by.
pub open spec fn spec_exchanged(taker: Tx, maker: Tx, days: Scalar, maker_side: bool) -> Result<
    (Tx, Tx),
    Error,
> {
    match (taker.raw_tx, maker.raw_tx) {
        (tx::Tx::TxSecLimitOrder(t), tx::Tx::TxSecLimitOrder(m)) => spec_exchanged_with(
            taker,
            maker,
            t.sell_amt@,
            t.buy_amt@,
            m.sell_amt@,
            m.buy_amt@,
            days@,
            maker_side,
            false,
        ),
        (tx::Tx::TxSecMarketOrder(t), tx::Tx::TxSecLimitOrder(m)) => spec_exchanged_with(
            taker,
            maker,
            t.sell_amt@,
            t.buy_amt@,
            m.sell_amt@,
            m.buy_amt@,
            days@,
            maker_side,
            true,
        ),
        _ => Err(Error::InvalidTxType),
    }
}

/// Matches the order `taker`, a limit or a market order, against the limit
/// order `maker`. Orders of other kinds are refused, and so are quantities
/// that cannot be divided by.
pub fn mechanism(taker: &mut Tx, maker: &mut Tx, days: Scalar, maker_side: bool) -> (r: Result<
    (),
    Error,
>)
    ensures
        match (old(taker).raw_tx, old(maker).raw_tx) {
            (tx::Tx::TxSecLimitOrder(t), tx::Tx::TxSecLimitOrder(m)) => spec_mechanism(
                *old(taker),
                *old(maker),
                *final(taker),
                *final(maker),
                t.sell_amt@,
                t.buy_amt@,
                m.sell_amt@,
                m.buy_amt@,
                days@,
                maker_side,
                false,
                r,
            ),
            (tx::Tx::TxSecMarketOrder(t), tx::Tx::TxSecLimitOrder(m)) => spec_mechanism(
                *old(taker),
                *old(maker),
                *final(taker),
                *final(maker),
                t.sell_amt@,
                t.buy_amt@,
                m.sell_amt@,
                m.buy_amt@,
                days@,
                maker_side,
                true,
                r,
            ),
            _ => r == Err::<(), Error>(Error::InvalidTxType) && *final(taker) == *old(taker)
                && *final(maker) == *old(maker),
        },
        match spec_exchanged(*old(taker), *old(maker), days, maker_side) {
            Ok((t1, m1)) => r is Ok && *final(taker) == t1 && *final(maker) == m1,
            Err(e) => r == Err::<(), Error>(e) && *final(taker) == *old(taker) && *final(maker)
                == *old(maker),
        },
{
    let (taker_sell, taker_buy, market): (Scalar, Scalar, bool) = match taker.raw_tx {
        tx::Tx::TxSecLimitOrder(t) => (t.sell_amt, t.buy_amt, false),
        tx::Tx::TxSecMarketOrder(t) => (t.sell_amt, t.buy_amt, true),
        _ => {
            return Err(Error::InvalidTxType);
        },
    };
    let raw_maker = match maker.raw_tx {
        tx::Tx::TxSecLimitOrder(m) => m,
        _ => {
            return Err(Error::InvalidTxType);
        },
    };
    let (taker_mq, maker_mq, maker_bq): (Scalar, Scalar, Scalar) = if maker_side {
        (taker_buy, raw_maker.sell_amt, raw_maker.buy_amt)
    } else {
        (taker_sell, raw_maker.buy_amt, raw_maker.sell_amt)
    };
    let (remain_taker_mq, remain_maker_mq): (Scalar, Scalar) = if maker_side {
        (taker_mq.sub(&taker.cum_target_amt), maker_mq.sub(&maker.cum_deducted_amt))
    } else {
        (taker_mq.sub(&taker.cum_deducted_amt), maker_mq.sub(&maker.cum_target_amt))
    };
    let mut matched_mq: Scalar = if remain_taker_mq.gt(&remain_maker_mq) {
        remain_maker_mq
    } else {
        remain_taker_mq
    };
    let divisor: Scalar = days.mul(&maker_mq.sub(&maker_bq)).add(&_365f().mul(&maker_bq));
    if divisor.is_zero() {
        return Err(Error::InvalidTxType);
    }
    let mut matched_bq: Scalar = calc_new_bq(matched_mq, maker_mq, maker_bq, days);
    if market && maker_side {
        let remain_taker_bq: Scalar = taker_sell.sub(&taker.cum_deducted_amt);
        if remain_taker_bq.lt(&matched_bq) {
            if _365f().mul(&maker_bq).is_zero() {
                return Err(Error::InvalidTxType);
            }
            matched_bq = remain_taker_bq;
            matched_mq = calc_sup_mq(matched_bq, maker_mq, maker_bq, days);
        }
    }
    let (matched_maker_sell_amt, matched_maker_buy_amt): (Scalar, Scalar) = if maker_side {
        (matched_mq, matched_bq)
    } else {
        (matched_bq, matched_mq)
    };
    maker.cum_deducted_amt = maker.cum_deducted_amt.add(&matched_maker_sell_amt);
    maker.cum_target_amt = maker.cum_target_amt.add(&matched_maker_buy_amt);
    taker.cum_deducted_amt = taker.cum_deducted_amt.add(&matched_maker_buy_amt);
    taker.cum_target_amt = taker.cum_target_amt.add(&matched_maker_sell_amt);
    maker.cum_deducted_amt.check_reduced_spec();
    maker.cum_target_amt.check_reduced_spec();
    taker.cum_deducted_amt.check_reduced_spec();
    taker.cum_target_amt.check_reduced_spec();
    Ok(())
}

} // verus!
