use term_structure_evacuation_kit::error::Error;
use term_structure_evacuation_kit::evacuation::query_funds;
use term_structure_evacuation_kit::file::TsFile;
use term_structure_evacuation_kit::merkle::MerkleTree;
use term_structure_evacuation_kit::poseidon::{Poseidon, PoseidonParams};
use term_structure_evacuation_kit::scalar::Scalar;
use term_structure_evacuation_kit::state::State;
use term_structure_evacuation_kit::tsb_info::TSBInfo;
use term_structure_evacuation_kit::tx::{
    Tx, TxAdminCancel, TxAucBorrow, TxAucEnd, TxAucLend, TxAucMatch, TxAucStart,
    TxCreateTsbBondToken, TxDeposit, TxEvacuation, TxForcedWithdraw, TxRedeem, TxRegister,
    TxTransfer, TxUserCancel, TxWithdraw,
};

fn s(x: u64) -> Scalar {
    Scalar::from_u64(x)
}

fn params(t: usize, n_p: usize) -> PoseidonParams {
    let c: Vec<Scalar> = (0..8 * t + n_p).map(|i| s(3 * i as u64 + 1)).collect();
    let sp: Vec<Scalar> = (0..(2 * t - 1) * n_p).map(|i| s(5 * i as u64 + 2)).collect();
    let m: Vec<Vec<Scalar>> =
        (0..t).map(|i| (0..t).map(|j| s((i * t + j) as u64 + 1)).collect()).collect();
    let p: Vec<Vec<Scalar>> =
        (0..t).map(|i| (0..t).map(|j| s((2 * i + 3 * j) as u64 + 7)).collect()).collect();
    PoseidonParams::new(t, n_p, c, sp, m, p).unwrap()
}

fn hasher() -> Poseidon {
    Poseidon::new(vec![params(2, 1), params(3, 1), params(4, 1), params(5, 1)]).unwrap()
}

fn run(state: &mut State, file: &mut TsFile, txs: &[Tx]) -> Result<(), Error> {
    for (i, tx) in txs.iter().enumerate() {
        state.push_tx(file, i, *tx)?;
    }
    for i in 0..txs.len() {
        state.update(file, i)?;
    }
    Ok(())
}

fn balance(state: &State, file: &TsFile, acc: usize, tok: usize) -> (String, String) {
    let f = query_funds(state, file, acc, tok).unwrap();
    (f.avl_amt, f.locked_amt)
}

fn pair(a: &str, l: &str) -> (String, String) {
    (a.to_string(), l.to_string())
}

#[test]
fn deposits_transfers_and_withdrawals() {
    let h = hasher();
    let mut file = TsFile::open(Vec::new(), Some(0)).unwrap();
    let mut state = file.to_state(&h, 5, 4).unwrap();
    let root0 = state.get_root(&file).unwrap();
    let txs = [
        Tx::TxRegister(TxRegister { account_id: 1, hashed_pub_key: s(0xA1) }),
        Tx::TxRegister(TxRegister { account_id: 2, hashed_pub_key: s(0xA2) }),
        Tx::TxDeposit(TxDeposit { account_id: 1, deposit_token_id: 3, deposit_amt: s(1000) }),
        Tx::TxTransfer(TxTransfer {
            sender_id: 1,
            transfer_token_id: 3,
            transfer_amt: s(250),
            receiver_id: 2,
        }),
        Tx::TxWithdraw(TxWithdraw {
            account_id: 2,
            withdraw_token_id: 3,
            withdraw_amt: s(100),
            tx_fee_token_id: 3,
            tx_fee_amt: s(1),
        }),
        Tx::TxForcedWithdraw(TxForcedWithdraw {
            account_id: 1,
            withdraw_token_id: 3,
            withdraw_amt: s(50),
        }),
        Tx::TxEvacuation(TxEvacuation { sender_id: 1, token_id: 3, amount: s(700) }),
    ];
    run(&mut state, &mut file, &txs).unwrap();
    assert_eq!(balance(&state, &file, 1, 3), pair("", ""));
    assert_eq!(balance(&state, &file, 2, 3), pair("149", ""));
    let sender = state.accounts.accounts.get(&file, 1).unwrap();
    let receiver = state.accounts.accounts.get(&file, 2).unwrap();
    assert_eq!(sender.l2_addr, s(0xA1));
    assert_eq!(sender.nonce, s(1));
    assert_eq!(receiver.nonce, s(1));
    assert_ne!(state.get_root(&file).unwrap(), root0);
    // replaying the same log on a fresh arena gives the same root
    let mut file2 = TsFile::open(Vec::new(), Some(0)).unwrap();
    let mut state2 = file2.to_state(&h, 5, 4).unwrap();
    run(&mut state2, &mut file2, &txs).unwrap();
    assert_eq!(state2.get_root(&file2).unwrap(), state.get_root(&file).unwrap());
    assert_eq!(state2.accounts.get_root(&file2).unwrap(), state.accounts.get_root(&file).unwrap());
}

#[test]
fn bonds_are_created_and_redeemed() {
    let h = hasher();
    let mut file = TsFile::open(Vec::new(), Some(0)).unwrap();
    let mut state = file.to_state(&h, 5, 4).unwrap();
    let txs = [
        Tx::TxCreateTsbBondToken(TxCreateTsbBondToken {
            maturity: s(2_000_000),
            base_token_id: 3,
            bond_token_id: 7,
        }),
        Tx::TxDeposit(TxDeposit { account_id: 1, deposit_token_id: 7, deposit_amt: s(40) }),
        Tx::TxRedeem(TxRedeem { sender_id: 1, token_id: 7, amount: s(15) }),
    ];
    run(&mut state, &mut file, &txs).unwrap();
    assert_eq!(
        state.tsb_infos.get(&file, 7).unwrap(),
        TSBInfo { base_token_id: 3, maturity: s(2_000_000) }
    );
    assert_eq!(state.find_bond(&file, &TSBInfo { base_token_id: 3, maturity: s(2_000_000) }), Ok(7));
    assert_eq!(balance(&state, &file, 1, 7), pair("25", ""));
    assert_eq!(balance(&state, &file, 1, 3), pair("15", ""));
}

#[test]
fn orders_lock_and_cancels_unlock() {
    let h = hasher();
    let mut file = TsFile::open(Vec::new(), Some(0)).unwrap();
    let mut state = file.to_state(&h, 5, 4).unwrap();
    let borrow = TxAucBorrow {
        sender_id: 1,
        collateral_token_id: 2,
        collateral_amt: s(300),
        fee_rate: s(0),
        borrowing_amt: s(100),
        matched_time: s(0),
        primary_borrow_min_fee_amt: s(0),
    };
    let txs = [
        Tx::TxDeposit(TxDeposit { account_id: 1, deposit_token_id: 2, deposit_amt: s(1000) }),
        Tx::TxAucBorrow(borrow),
        Tx::TxAdminCancel(TxAdminCancel { tx_id: 1 }),
        Tx::TxAucBorrow(borrow),
        Tx::TxUserCancel(TxUserCancel { tx_id: 3, tx_fee_token_id: 2, tx_fee_amt: s(5) }),
    ];
    for (i, tx) in txs.iter().enumerate() {
        state.push_tx(&mut file, i, *tx).unwrap();
    }
    state.update(&mut file, 0).unwrap();
    state.update(&mut file, 1).unwrap();
    assert_eq!(balance(&state, &file, 1, 2), pair("700", "300"));
    assert_eq!(state.txs.get(&file, 1).unwrap().locked_amt, s(300));
    state.update(&mut file, 2).unwrap();
    assert_eq!(balance(&state, &file, 1, 2), pair("1000", ""));
    assert_eq!(state.txs.get(&file, 1).unwrap().locked_amt, s(0));
    state.update(&mut file, 3).unwrap();
    state.update(&mut file, 4).unwrap();
    assert_eq!(balance(&state, &file, 1, 2), pair("995", ""));
    // a deposit cannot be cancelled
    state.push_tx(&mut file, 5, Tx::TxAdminCancel(TxAdminCancel { tx_id: 0 })).unwrap();
    assert_eq!(state.update(&mut file, 5), Err(Error::InvalidTxType));
}

#[test]
fn an_auction_matches_lenders_to_a_borrower() {
    let h = hasher();
    let mut file = TsFile::open(Vec::new(), Some(0)).unwrap();
    let mut state = file.to_state(&h, 5, 5).unwrap();
    let day = 86400u64;
    let maturity = 366 * day;
    let txs = [
        // 0: the bond that pays out token 1 at maturity is token 9
        Tx::TxCreateTsbBondToken(TxCreateTsbBondToken {
            maturity: s(maturity),
            base_token_id: 1,
            bond_token_id: 9,
        }),
        // 1, 2: the borrower has collateral in token 2, the lender funds in token 1
        Tx::TxDeposit(TxDeposit { account_id: 1, deposit_token_id: 2, deposit_amt: s(3000) }),
        Tx::TxDeposit(TxDeposit { account_id: 2, deposit_token_id: 1, deposit_amt: s(1000) }),
        // 3: borrow 1000 against 3000
        Tx::TxAucBorrow(TxAucBorrow {
            sender_id: 1,
            collateral_token_id: 2,
            collateral_amt: s(3000),
            fee_rate: s(0),
            borrowing_amt: s(1000),
            matched_time: s(0),
            primary_borrow_min_fee_amt: s(0),
        }),
        // 4: lend 400
        Tx::TxAucLend(TxAucLend {
            lender_id: 2,
            lending_token_id: 1,
            lending_amt: s(400),
            fee_rate: s(0),
            default_matched_interest_rate: s(5_000_000),
            maturity_time: s(maturity),
            matched_time: s(0),
            primary_lend_min_fee_amt: s(0),
        }),
        // 5: the match starts; the borrow order lies two before
        Tx::TxAucStart(TxAucStart { borrower_tx_offset: 2, ori_matched_interest: s(105_000_000) }),
        // 6: the lend order lies two before
        Tx::TxAucMatch(TxAucMatch { lender_tx_offset: 2 }),
        // 7: the match ends
        Tx::TxAucEnd(TxAucEnd {
            borrow_account: s(1),
            collateral_token_id: 2,
            collateral_amt: s(3000),
            debt_token_id: 1,
            debt_amt: s(400),
            matched_time: s(0),
            maturity: s(maturity),
        }),
    ];
    run(&mut state, &mut file, &txs).unwrap();
    // the lender paid 400 and holds bonds worth the debt of 420
    assert_eq!(balance(&state, &file, 2, 1), pair("600", ""));
    assert_eq!(balance(&state, &file, 2, 9), pair("420", ""));
    // the borrower received 400; 1200 of the collateral is gone, 1800 stays locked
    assert_eq!(balance(&state, &file, 1, 1), pair("400", ""));
    assert_eq!(balance(&state, &file, 1, 2), pair("", "1800"));
    let lender = state.txs.get(&file, 4).unwrap();
    assert_eq!(lender.cum_deducted_amt, s(400));
    assert_eq!(lender.cum_target_amt, s(420));
    assert_eq!(lender.locked_amt, s(0));
    let borrower = state.txs.get(&file, 3).unwrap();
    assert_eq!(borrower.cum_target_amt, s(400));
    assert_eq!(borrower.cum_deducted_amt, s(1200));
    assert_eq!(borrower.locked_amt, s(1800));
    // a match without a start before it is refused
    let mut file = TsFile::open(Vec::new(), Some(0)).unwrap();
    let mut state = file.to_state(&h, 5, 5).unwrap();
    let lone = [txs[1], Tx::TxAucMatch(TxAucMatch { lender_tx_offset: 1 })];
    assert_eq!(run(&mut state, &mut file, &lone), Err(Error::InvalidTxType));
}
