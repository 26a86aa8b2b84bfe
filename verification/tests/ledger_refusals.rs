use term_structure_evacuation_kit::error::Error;
use term_structure_evacuation_kit::evacuation::{get_evacu_prf, query_funds};
use term_structure_evacuation_kit::file::TsFile;
use term_structure_evacuation_kit::poseidon::{Poseidon, PoseidonParams};
use term_structure_evacuation_kit::rules::order_settlement;
use term_structure_evacuation_kit::scalar::Scalar;
use term_structure_evacuation_kit::state_tx;
use term_structure_evacuation_kit::tx::{
    Tx, TxAdminCancel, TxAucEnd, TxAucMatch, TxDeposit, TxNoop, TxRegister, TxSecLimitEnd,
    TxTransfer,
};

fn s(x: u64) -> Scalar {
    Scalar::from_u64(x)
}

fn params(t: usize, n_p: usize) -> PoseidonParams {
    let c: Vec<Scalar> = (0..8 * t + n_p).map(|i| s(3 * i as u64 + 1)).collect();
    let sp: Vec<Scalar> = (0..(2 * t - 1) * n_p).map(|i| s(5 * i as u64 + 2)).collect();
    let m: Vec<Vec<Scalar>> =
        (0..t).map(|i| (0..t).map(|j| s((i * t + j) as u64 + 1)).collect()).collect();
    let p: Vec<Vec<Scalar>> =
        (0..t).map(|i| (0..t).map(|j| s((2 * i + 3 * j) as u64 + 7)).collect()).collect();
    PoseidonParams::new(t, n_p, c, sp, m, p).unwrap()
}

fn hasher() -> Poseidon {
    Poseidon::new(vec![params(2, 1), params(3, 1), params(4, 1), params(5, 1)]).unwrap()
}

#[test]
fn a_token_beyond_the_tree_is_refused() {
    let h = hasher();
    let mut file = TsFile::open(Vec::new(), Some(0)).unwrap();
    // account tree of height 5, token trees of height 4: tokens 0 to 15
    let mut state = file.to_state(&h, 5, 4).unwrap();
    let ok = state.on_deposit(
        &mut file,
        TxDeposit { account_id: 1, deposit_token_id: 15, deposit_amt: s(9) },
    );
    assert_eq!(ok, Ok(()));
    let root = state.get_root(&file).unwrap();
    let refused = state.on_deposit(
        &mut file,
        TxDeposit { account_id: 1, deposit_token_id: 16, deposit_amt: s(9) },
    );
    assert_eq!(refused, Err(Error::InvalidLeafId));
    assert_eq!(state.get_root(&file).unwrap(), root);
    assert_eq!(query_funds(&state, &file, 1, 15).unwrap().avl_amt, "9");
}

#[test]
fn an_account_beyond_the_tree_is_refused() {
    let h = hasher();
    let mut file = TsFile::open(Vec::new(), Some(0)).unwrap();
    let mut state = file.to_state(&h, 5, 4).unwrap();
    // accounts 0 to 31
    assert_eq!(
        state.on_register(&mut file, TxRegister { account_id: 31, hashed_pub_key: s(7) }),
        Ok(())
    );
    assert!(state
        .on_register(&mut file, TxRegister { account_id: 32, hashed_pub_key: s(7) })
        .is_err());
    // a transfer whose receiver is beyond the tree still debits the sender
    state
        .on_deposit(&mut file, TxDeposit { account_id: 31, deposit_token_id: 2, deposit_amt: s(50) })
        .unwrap();
    let r = state.on_transfer(
        &mut file,
        TxTransfer { sender_id: 31, transfer_token_id: 2, transfer_amt: s(20), receiver_id: 32 },
    );
    assert!(r.is_err());
    assert_eq!(query_funds(&state, &file, 31, 2).unwrap().avl_amt, "30");
}

#[test]
fn what_is_no_order_cannot_be_cancelled() {
    let h = hasher();
    let mut file = TsFile::open(Vec::new(), Some(0)).unwrap();
    let mut state = file.to_state(&h, 5, 4).unwrap();
    state
        .push_tx(
            &mut file,
            0,
            Tx::TxDeposit(TxDeposit { account_id: 1, deposit_token_id: 2, deposit_amt: s(5) }),
        )
        .unwrap();
    state.push_tx(&mut file, 1, Tx::TxAdminCancel(TxAdminCancel { tx_id: 0 })).unwrap();
    assert_eq!(state.update(&mut file, 1), Err(Error::InvalidTxType));
    assert_eq!(state.cancel(&mut file, 0, None), Err(Error::InvalidTxType));
}

#[test]
fn a_match_without_its_auction_is_refused() {
    let h = hasher();
    let mut file = TsFile::open(Vec::new(), Some(0)).unwrap();
    let mut state = file.to_state(&h, 5, 4).unwrap();
    let end = TxAucEnd {
        borrow_account: s(1),
        collateral_token_id: 1,
        collateral_amt: s(0),
        debt_token_id: 2,
        debt_amt: s(0),
        matched_time: s(0),
        maturity: s(0),
    };
    // the first transaction has nothing before it
    assert_eq!(state.on_auc_end(&mut file, 0, end), Err(Error::InvalidTxType));
    assert_eq!(
        state.on_auc_match(&mut file, 0, TxAucMatch { lender_tx_offset: 1 }),
        Err(Error::InvalidTxType)
    );
    // before the end stands a deposit, which is neither a match nor a start
    state
        .push_tx(
            &mut file,
            0,
            Tx::TxDeposit(TxDeposit { account_id: 1, deposit_token_id: 2, deposit_amt: s(5) }),
        )
        .unwrap();
    assert_eq!(state.plan_auc_end(&file, 1, end).err(), Some(Error::InvalidTxType));
    assert_eq!(state.on_auc_end(&mut file, 1, end), Err(Error::InvalidTxType));
    assert_eq!(
        state.on_sec_limit_end(&mut file, 1, TxSecLimitEnd { matched_time: s(0) }),
        Err(Error::InvalidTxType)
    );
    assert_eq!(state.find_back(&file, 0, 9, 8).err(), Some(Error::InvalidTxType));
}

#[test]
fn what_an_order_settles_after_its_matches() {
    let mut order = state_tx::Tx::new(Tx::TxNoop(TxNoop {}));
    order.cum_deducted_amt = s(100);
    order.ori_cum_deducted_amt = s(40);
    order.cum_target_amt = s(50);
    order.ori_cum_target_amt = s(20);
    // on the side of the base token the fee is reckoned on what was bought
    // and paid with what is sold: 30 at a rate of one over a year is 30
    let rate = s(100_000_000);
    let plan = order_settlement(7, order, 3, 1, 2, s(100), s(50), rate, s(5), false, s(365));
    assert_eq!(plan.order_id, 7);
    assert_eq!(plan.account_id, 3);
    assert_eq!(plan.sell_token_id, 1);
    assert_eq!(plan.buy_token_id, 2);
    assert_eq!(plan.sell_total, s(90));
    assert_eq!(plan.buy_net, s(30));
    assert!(plan.complete);
    assert_eq!(plan.order.credit_amt, s(5));
    assert_eq!(plan.order.cum_fee_amt, s(30));
    // a second settling of the same order finds its credit used up
    let again = order_settlement(7, plan.order, 3, 1, 2, s(100), s(51), rate, s(5), false, s(365));
    assert_eq!(again.sell_total, s(90));
    assert_eq!(again.order.cum_fee_amt, s(60));
    assert!(!again.complete);
}

#[test]
fn a_proof_is_refused_beyond_the_trees() {
    let h = hasher();
    let mut file = TsFile::open(Vec::new(), Some(0)).unwrap();
    let mut state = file.to_state(&h, 5, 4).unwrap();
    state
        .on_deposit(&mut file, TxDeposit { account_id: 3, deposit_token_id: 1, deposit_amt: s(4) })
        .unwrap();
    assert!(get_evacu_prf(&state, &file, 3, 1, "10".to_string()).is_ok());
    assert_eq!(
        get_evacu_prf(&state, &file, 3, 16, "10".to_string()).err(),
        Some(Error::InvalidLeafId)
    );
    assert_eq!(
        get_evacu_prf(&state, &file, 32, 1, "10".to_string()).err(),
        Some(Error::InvalidLeafId)
    );
}

#[test]
fn a_transfer_leaves_the_other_accounts() {
    let h = hasher();
    let mut file = TsFile::open(Vec::new(), Some(0)).unwrap();
    let mut state = file.to_state(&h, 5, 4).unwrap();
    for (acc, amt) in [(1u64, 100u64), (2, 40), (3, 7)] {
        state
            .on_deposit(&mut file, TxDeposit { account_id: acc, deposit_token_id: 2, deposit_amt: s(amt) })
            .unwrap();
    }
    state
        .on_transfer(
            &mut file,
            TxTransfer { sender_id: 1, transfer_token_id: 2, transfer_amt: s(30), receiver_id: 2 },
        )
        .unwrap();
    assert_eq!(query_funds(&state, &file, 1, 2).unwrap().avl_amt, "70");
    assert_eq!(query_funds(&state, &file, 2, 2).unwrap().avl_amt, "70");
    assert_eq!(query_funds(&state, &file, 3, 2).unwrap().avl_amt, "7");
    // to oneself: the balance stays, the nonce rises
    state
        .on_transfer(
            &mut file,
            TxTransfer { sender_id: 3, transfer_token_id: 2, transfer_amt: s(5), receiver_id: 3 },
        )
        .unwrap();
    assert_eq!(query_funds(&state, &file, 3, 2).unwrap().avl_amt, "7");
    assert_eq!(state.accounts.accounts.get(&file, 3).unwrap().nonce, s(1));
    assert_eq!(query_funds(&state, &file, 1, 2).unwrap().avl_amt, "70");
}

#[test]
fn a_refused_cancel_changes_nothing() {
    let h = hasher();
    let mut file = TsFile::open(Vec::new(), Some(0)).unwrap();
    let mut state = file.to_state(&h, 5, 4).unwrap();
    state
        .on_deposit(&mut file, TxDeposit { account_id: 1, deposit_token_id: 2, deposit_amt: s(5) })
        .unwrap();
    state
        .push_tx(
            &mut file,
            0,
            Tx::TxDeposit(TxDeposit { account_id: 1, deposit_token_id: 2, deposit_amt: s(5) }),
        )
        .unwrap();
    let before = file.as_bytes().clone();
    let root = state.get_root(&file).unwrap();
    assert_eq!(state.cancel(&mut file, 0, None), Err(Error::InvalidTxType));
    assert_eq!(file.as_bytes(), &before);
    assert_eq!(state.get_root(&file).unwrap(), root);
}
