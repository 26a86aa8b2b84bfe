use term_structure_evacuation_kit::error::Error;
use term_structure_evacuation_kit::mechanism::{_1f, _1fixed, _365f, calc_days};
use term_structure_evacuation_kit::primary_market;
use term_structure_evacuation_kit::rules::{
    charge_capped, charge_floor, days_between, kind, max, min, sec_fees,
};
use term_structure_evacuation_kit::scalar::Scalar;
use term_structure_evacuation_kit::secondary_market;
use term_structure_evacuation_kit::state_tx;
use term_structure_evacuation_kit::tx::{
    Tx, TxAucBorrow, TxAucLend, TxNoop, TxSecLimitOrder, TxSecMarketOrder,
};

fn s(x: u64) -> Scalar {
    Scalar::from_u64(x)
}

const ONE: u64 = 100_000_000;

#[test]
fn constants() {
    assert_eq!(_1fixed(), s(ONE));
    assert_eq!(_365f(), s(365));
    assert_eq!(_1f(), s(1));
}

#[test]
fn a_started_day_counts_whole() {
    assert_eq!(calc_days(s(1000), s(1000)), s(0));
    assert_eq!(calc_days(s(1000), s(1001)), s(1));
    assert_eq!(calc_days(s(1000), s(1000 + 86400)), s(1));
    assert_eq!(calc_days(s(1000), s(1000 + 86401)), s(2));
    assert_eq!(calc_days(s(0), s(86400 * 90)), s(90));
    assert_eq!(calc_days(s(100), s(50)), s(0));
    assert_eq!(calc_days(s(86399), s(0)), s(0));
    assert_eq!(days_between(s(86399), s(0)), Ok(s(0)));
    assert_eq!(days_between(s(86400), s(0)), Err(Error::InvalidTxType));
    assert_eq!(days_between(s(5), s(5 + 3 * 86400)), Ok(s(3)));
}

#[test]
fn the_debt_of_a_loan() {
    // principal * (pir * (days - 1) + one * (365 - (days - 1))) / (365 * one)
    // 1000 at 1.05 over 366 days: 1000 * (1.05 * 365 + 0) / 365 = 1050
    assert_eq!(primary_market::calc_debt_amt(s(105_000_000), s(1000), s(366)), s(1050));
    // over one day nothing accrues
    assert_eq!(primary_market::calc_debt_amt(s(105_000_000), s(1000), s(1)), s(1000));
    // 73 days at 1.10: 1000 * (1.1 * 72 + 293) / 365 = 1019.72..
    assert_eq!(primary_market::calc_debt_amt(s(110_000_000), s(1000), s(73)), s(1019));
}

#[test]
fn the_fee_of_a_loan() {
    // amount * |interest| * fee_rate * (days - 1) / (365 * one * one)
    // 1_000_000 * 0.05 * 0.1 * 365 / 365 = 5000
    assert_eq!(
        primary_market::calc_fee(s(10_000_000), s(1_000_000), s(105_000_000), s(366)),
        s(5000)
    );
    // a rate below one counts by its distance from one
    assert_eq!(
        primary_market::calc_fee(s(10_000_000), s(1_000_000), s(95_000_000), s(366)),
        s(5000)
    );
    assert_eq!(primary_market::calc_fee(s(10_000_000), s(1_000_000), s(ONE), s(366)), s(0));
}

#[test]
fn a_lend_order_is_matched_against_a_borrow_order() {
    let mut borrower = state_tx::Tx::new(Tx::TxAucBorrow(TxAucBorrow {
        sender_id: 1,
        collateral_token_id: 2,
        collateral_amt: s(3000),
        fee_rate: s(0),
        borrowing_amt: s(1000),
        matched_time: s(0),
        primary_borrow_min_fee_amt: s(0),
    }));
    let mut lender = state_tx::Tx::new(Tx::TxAucLend(TxAucLend {
        lender_id: 5,
        lending_token_id: 6,
        lending_amt: s(400),
        fee_rate: s(0),
        default_matched_interest_rate: s(0),
        maturity_time: s(0),
        matched_time: s(0),
        primary_lend_min_fee_amt: s(0),
    }));
    primary_market::mechanism(&mut borrower, &mut lender, s(366), s(105_000_000)).unwrap();
    assert_eq!(lender.cum_deducted_amt, s(400));
    assert_eq!(lender.cum_target_amt, s(420));
    assert_eq!(borrower.cum_target_amt, s(400));
    // collateral used: 3000 - 3000 * 600 / 1000
    assert_eq!(borrower.cum_deducted_amt, s(1200));
    // a second lender of 900 can only lend the 600 that are left
    let mut second = state_tx::Tx::new(lender.raw_tx);
    if let Tx::TxAucLend(ref mut l) = second.raw_tx {
        l.lending_amt = s(900);
    }
    primary_market::mechanism(&mut borrower, &mut second, s(366), s(105_000_000)).unwrap();
    assert_eq!(second.cum_deducted_amt, s(600));
    assert_eq!(borrower.cum_target_amt, s(1000));
    assert_eq!(borrower.cum_deducted_amt, s(3000));
    // other kinds are refused and left alone
    let mut noop = state_tx::Tx::default();
    let before = lender;
    assert_eq!(
        primary_market::mechanism(&mut noop, &mut lender, s(1), s(1)),
        Err(Error::InvalidTxType)
    );
    assert_eq!(lender, before);
    assert_eq!(noop, state_tx::Tx::new(Tx::TxNoop(TxNoop {})));
}

#[test]
fn quantities_of_the_secondary_market() {
    // newBQ = 365 * MQ * priceBQ / (days * (priceMQ - priceBQ) + 365 * priceBQ)
    // 365 * 1000 * 95 / (73 * 5 + 365 * 95) = 34675000 / 35040 = 989.58..
    assert_eq!(secondary_market::calc_new_bq(s(1000), s(100), s(95), s(73)), s(989));
    // supMQ = (avlBQ * days * priceMQ + (365 - days) * priceBQ * avlBQ) / (365 * priceBQ)
    // (950 * 73 * 100 + 292 * 95 * 950) / (365 * 95) = 33288000 / 34675 = 960.0
    assert_eq!(secondary_market::calc_sup_mq(s(950), s(100), s(95), s(73)), s(960));
    // fee = MQ * feeRate * days / (365 * one)
    assert_eq!(secondary_market::calc_fee(s(10_000_000), s(36500), s(10)), s(100));
}

fn limit(sell: u64, buy: u64) -> state_tx::Tx {
    state_tx::Tx::new(Tx::TxSecLimitOrder(TxSecLimitOrder {
        sender_id: 1,
        sell_token_id: 2,
        sell_amt: s(sell),
        fee0: s(0),
        fee1: s(0),
        buy_token_id: 3,
        buy_amt: s(buy),
        expired_time: s(0),
        matched_time: s(0),
        secondary_taker_min_fee_amt: s(0),
        secondary_maker_min_fee_amt: s(0),
    }))
}

#[test]
fn a_limit_order_is_matched_against_a_limit_order() {
    // the maker sells 1000 of the bond for 950; the taker buys 400 of it
    let mut maker = limit(1000, 950);
    let mut taker = limit(380, 400);
    secondary_market::mechanism(&mut taker, &mut maker, s(365), true).unwrap();
    // a year ahead the price is the ratio of the maker's amounts: 400 * 950 / 1000
    assert_eq!(maker.cum_deducted_amt, s(400));
    assert_eq!(maker.cum_target_amt, s(380));
    assert_eq!(taker.cum_deducted_amt, s(380));
    assert_eq!(taker.cum_target_amt, s(400));
    // a maker whose amounts give nothing to divide by is refused
    let mut taker = limit(380, 400);
    secondary_market::mechanism(&mut taker, &mut limit(1000, 950), s(0), true).unwrap();
    // at maturity the bond is worth what it pays
    assert_eq!(taker.cum_deducted_amt, s(400));
    let mut empty = limit(0, 0);
    let before = taker;
    assert_eq!(
        secondary_market::mechanism(&mut taker, &mut empty, s(0), true),
        Err(Error::InvalidTxType)
    );
    assert_eq!(taker, before);
}

#[test]
fn a_market_order_moves_no_more_than_it_has() {
    let mut maker = limit(1000, 950);
    let mut taker = state_tx::Tx::new(Tx::TxSecMarketOrder(TxSecMarketOrder {
        sender_id: 1,
        sell_token_id: 3,
        sell_amt: s(95),
        fee0: s(0),
        buy_token_id: 2,
        buy_amt: s(1000),
        expired_time: s(0),
        secondary_taker_min_fee_amt: s(0),
    }));
    secondary_market::mechanism(&mut taker, &mut maker, s(365), true).unwrap();
    // the taker has 95 to pay, which buys 100 at the maker's price
    assert_eq!(taker.cum_deducted_amt, s(95));
    assert_eq!(taker.cum_target_amt, s(100));
    assert_eq!(maker.cum_deducted_amt, s(100));
    assert_eq!(maker.cum_target_amt, s(95));
}

#[test]
fn smaller_and_larger() {
    assert_eq!(max(s(3), s(4)), s(4));
    assert_eq!(max(s(4), s(3)), s(4));
    assert_eq!(min(s(3), s(4)), s(3));
    assert_eq!(min(s(5), s(5)), s(5));
}

#[test]
fn fees_are_charged_against_the_credit() {
    // a least fee of 10 is charged at once; later fees only where they exceed it
    let mut order = state_tx::Tx::default();
    assert_eq!(charge_floor(&mut order, s(4), s(10)), s(10));
    assert_eq!(order.credit_amt, s(10));
    assert_eq!(order.cum_fee_amt, s(4));
    assert_eq!(charge_floor(&mut order, s(4), s(10)), s(0));
    assert_eq!(order.cum_fee_amt, s(8));
    assert_eq!(charge_floor(&mut order, s(4), s(10)), s(2));
    assert_eq!(order.cum_fee_amt, s(12));
    assert_eq!(charge_floor(&mut order, s(4), s(10)), s(4));
    // against what was matched, the least fee is charged as far as the match covers it
    let mut order = state_tx::Tx::default();
    assert_eq!(charge_capped(&mut order, s(1), s(10), s(6)), s(6));
    assert_eq!(order.credit_amt, s(6));
    assert_eq!(order.cum_fee_amt, s(1));
    assert_eq!(charge_capped(&mut order, s(1), s(10), s(100)), s(4));
    assert_eq!(order.credit_amt, s(10));
    assert_eq!(charge_capped(&mut order, s(20), s(10), s(100)), s(12));
    // on the secondary market the side decides which is charged
    let mut order = state_tx::Tx::default();
    let (from_sell, from_buy) = sec_fees(&mut order, true, s(10_000_000), s(36500), s(50), s(10), s(5));
    assert_eq!(from_sell, s(0));
    assert_eq!(from_buy, s(100));
    assert_eq!(order.credit_amt, s(5));
    assert_eq!(order.cum_fee_amt, s(100));
    let mut order = state_tx::Tx::default();
    let (from_sell, from_buy) = sec_fees(&mut order, false, s(10_000_000), s(50), s(36500), s(10), s(5));
    assert_eq!(from_sell, s(100));
    assert_eq!(from_buy, s(0));
}

#[test]
fn kinds_are_the_tags_of_the_variants() {
    assert_eq!(kind(&state_tx::Tx::default()), 0);
    assert_eq!(kind(&limit(1, 1)), 11);
}
