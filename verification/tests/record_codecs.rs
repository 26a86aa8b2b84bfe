use term_structure_evacuation_kit::acc_ptr::{AccPtr, AccountRecord};
use term_structure_evacuation_kit::array::ElemPtr;
use term_structure_evacuation_kit::error::Error;
use term_structure_evacuation_kit::file::TsFile;
use term_structure_evacuation_kit::node_ptr::NodePtr;
use term_structure_evacuation_kit::scalar::Scalar;
use term_structure_evacuation_kit::state_tx;
use term_structure_evacuation_kit::token::Token;
use term_structure_evacuation_kit::token_ptr::TokenPtr;
use term_structure_evacuation_kit::tsb_info::TSBInfo;
use term_structure_evacuation_kit::tsbinfo_ptr::TSBInfoPtr;
use term_structure_evacuation_kit::tx::{
    Tx, TxAucMatch, TxDeposit, TxIncreaseEpoch, TxNoop, TxSecLimitOrder, TxSetAdminTsAddr,
    TxTransfer,
};
use term_structure_evacuation_kit::tx_ptr::{flatten, unflatten, TxFields, TxPtr};

fn s(x: u64) -> Scalar {
    Scalar::from_u64(x)
}

fn zeros(n: usize) -> TsFile {
    TsFile { bytes: vec![0; n], latest_l1_block_id: 0, block_count: 0, tx_count: 0 }
}

#[test]
fn widths_are_fixed() {
    assert_eq!(NodePtr::size(), 32);
    assert_eq!(TokenPtr::size(), 64);
    assert_eq!(TSBInfoPtr::size(), 64);
    assert_eq!(AccPtr::size(), 176);
    assert_eq!(TxPtr::size(), 512);
}

#[test]
fn a_node_slot_tells_absent_from_zero() {
    assert_eq!(NodePtr::to_bytes(&None), vec![0u8; 32]);
    assert_eq!(NodePtr::to_bytes(&Some(s(0))), vec![0xFFu8; 32]);
    let mut one = vec![0u8; 32];
    one[0] = 1;
    assert_eq!(NodePtr::to_bytes(&Some(s(1))), one);
    assert_eq!(NodePtr::from_bytes(&vec![0u8; 32]).unwrap(), None);
    assert_eq!(NodePtr::from_bytes(&vec![0xFFu8; 32]).unwrap(), Some(s(0)));
    assert_eq!(NodePtr::from_bytes(&one).unwrap(), Some(s(1)));
    assert_eq!(NodePtr::default(), None);
    let mut file = zeros(100);
    let ptr = NodePtr::new(40);
    assert_eq!(ptr.read(&file).unwrap(), None);
    ptr.write(&mut file, &Some(s(0))).unwrap();
    assert_eq!(ptr.read(&file).unwrap(), Some(s(0)));
    ptr.write(&mut file, &Some(s(123456789))).unwrap();
    assert_eq!(ptr.read(&file).unwrap(), Some(s(123456789)));
    ptr.write(&mut file, &None).unwrap();
    assert_eq!(ptr.read(&file).unwrap(), None);
    assert!(file.as_bytes().iter().all(|b| *b == 0));
}

#[test]
fn token_records_round_trip() {
    let t = Token { avl_amt: s(5).pow(20), locked_amt: s(7) };
    let bytes = TokenPtr::to_bytes(&t);
    assert_eq!(bytes.len(), 64);
    assert_eq!(bytes[32], 7);
    assert_eq!(TokenPtr::from_bytes(&bytes).unwrap(), t);
    assert_eq!(TokenPtr::from_bytes(&vec![0u8; 64]).unwrap(), Token::default());
    assert_eq!(TokenPtr::default(), Token::default());
}

#[test]
fn bond_records_keep_their_padding() {
    let info = TSBInfo { base_token_id: 0x1122, maturity: s(1700000000) };
    let bytes = TSBInfoPtr::to_bytes(&info);
    assert_eq!(bytes.len(), 40);
    assert_eq!(bytes[0], 0x22);
    let mut file = TsFile { bytes: vec![0xEE; 200], latest_l1_block_id: 0, block_count: 0, tx_count: 0 };
    let ptr = TSBInfoPtr::new(100);
    ptr.write(&mut file, &info).unwrap();
    assert_eq!(ptr.read(&file).unwrap(), info);
    assert!(file.as_bytes()[140..164].iter().all(|b| *b == 0xEE));
    assert!(file.as_bytes()[..100].iter().all(|b| *b == 0xEE));
    assert_eq!(TSBInfoPtr::from_bytes(&vec![0u8; 64]).unwrap(), TSBInfo::default());
}

#[test]
fn account_records_store_heads_not_trees() {
    let rec = AccountRecord { l2_addr: s(0xABC), nonce: s(3), nodes_head: 872, tokens_head: 1000 };
    let bytes = AccPtr::to_bytes(&rec);
    assert_eq!(bytes.len(), 80);
    assert_eq!(&bytes[64..72], &872u64.to_le_bytes());
    assert_eq!(&bytes[72..80], &1000u64.to_le_bytes());
    let mut slot = bytes.clone();
    slot.resize(176, 0x55);
    assert_eq!(AccPtr::from_bytes(&slot).unwrap(), rec);
    let empty = AccPtr::from_bytes(&vec![0u8; 176]).unwrap();
    assert_eq!(empty, AccPtr::default());
    assert_eq!(empty.nodes_head, 0);
    assert_eq!(empty.tokens_head, 0);
}

#[test]
fn transactions_come_apart_and_together() {
    let order = Tx::TxSecLimitOrder(TxSecLimitOrder {
        sender_id: 1,
        sell_token_id: 2,
        sell_amt: s(3),
        fee0: s(4),
        fee1: s(5),
        buy_token_id: 6,
        buy_amt: s(7),
        expired_time: s(8),
        matched_time: s(9),
        secondary_taker_min_fee_amt: s(10),
        secondary_maker_min_fee_amt: s(11),
    });
    let f = flatten(&order);
    assert_eq!(f.tag, 11);
    assert_eq!(f.ints, (1, 2, 6));
    assert_eq!(f.amounts, (s(3), s(4), s(5), s(7), s(8), s(9), s(10), s(11)));
    assert_eq!(unflatten(&f).unwrap(), order);
    let transfer = Tx::TxTransfer(TxTransfer {
        sender_id: 9,
        transfer_token_id: 8,
        transfer_amt: s(7),
        receiver_id: 6,
    });
    let f = flatten(&transfer);
    assert_eq!(f.tag, 4);
    assert_eq!(f.ints, (9, 8, 6));
    assert_eq!(unflatten(&f).unwrap(), transfer);
    assert_eq!(flatten(&Tx::TxNoop(TxNoop {})).tag, 0);
    assert_eq!(flatten(&Tx::TxAucMatch(TxAucMatch { lender_tx_offset: 4 })).tag, 9);
    assert_eq!(flatten(&Tx::TxIncreaseEpoch(TxIncreaseEpoch {})).tag, 20);
    assert_eq!(flatten(&Tx::TxSetAdminTsAddr(TxSetAdminTsAddr {})).tag, 25);
    let z = s(0);
    let bad = TxFields { tag: 26, ints: (0, 0, 0), amounts: (z, z, z, z, z, z, z, z) };
    assert_eq!(unflatten(&bad), Err(Error::CorruptLayout));
}

#[test]
fn transaction_records_round_trip() {
    let mut tx = state_tx::Tx::new(Tx::TxDeposit(TxDeposit {
        account_id: 12,
        deposit_token_id: 3,
        deposit_amt: s(1_000_000),
    }));
    tx.locked_amt = s(77);
    tx.credit_amt = s(88);
    tx.cum_deducted_amt = s(1);
    let bytes = TxPtr::to_bytes(&tx);
    assert_eq!(bytes.len(), 512);
    assert_eq!(bytes[0], 2);
    assert_eq!(bytes[8], 12);
    assert_eq!(bytes[16], 3);
    assert_eq!(TxPtr::from_bytes(&bytes).unwrap(), tx);
    assert_eq!(TxPtr::from_bytes(&vec![0u8; 512]).unwrap(), state_tx::Tx::default());
    let mut bad = vec![0u8; 512];
    bad[0] = 200;
    assert_eq!(TxPtr::from_bytes(&bad), Err(Error::CorruptLayout));
}
