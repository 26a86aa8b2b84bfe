use term_structure_evacuation_kit::converter::{f2usize, lookup, to_deposit, to_noop, to_transfer, to_tx};
use term_structure_evacuation_kit::error::Error;
use term_structure_evacuation_kit::parser::{float2fix, Param, Schema};
use term_structure_evacuation_kit::reconcile::{be_u64, remaining_l1_req_count, slt, EventRef, Reconciler};
use term_structure_evacuation_kit::scalar::Scalar;
use term_structure_evacuation_kit::tx::{Tx, TxDeposit, TxNoop, TxTransfer};

fn s(x: u64) -> Scalar {
    Scalar::from_u64(x)
}

fn fields(list: &[(&str, u64)]) -> Vec<(String, Scalar)> {
    list.iter().map(|(k, v)| (k.to_string(), s(*v))).collect()
}

#[test]
fn a_name_is_looked_up_from_the_end() {
    let f = fields(&[("a", 1), ("b", 2), ("a", 3)]);
    assert_eq!(lookup(&f, "a"), Some(s(3)));
    assert_eq!(lookup(&f, "b"), Some(s(2)));
    assert_eq!(lookup(&f, "c"), None);
    assert_eq!(lookup(&Vec::new(), "a"), None);
}

#[test]
fn numbers_are_the_low_bits_of_fields() {
    assert_eq!(f2usize(s(77)), 77);
    assert_eq!(f2usize(s(u64::MAX)), u64::MAX);
    assert_eq!(f2usize(s(u64::MAX).add(&s(6))), 5);
}

#[test]
fn fields_make_transactions() {
    let f = fields(&[("account_id", 4), ("deposit_token_id", 2), ("deposit_amt", 900)]);
    let deposit = TxDeposit { account_id: 4, deposit_token_id: 2, deposit_amt: s(900) };
    assert_eq!(to_deposit(&f), Ok(deposit));
    assert_eq!(to_tx(&"deposit".to_string(), &f), Ok(Tx::TxDeposit(deposit)));
    assert_eq!(to_tx(&"noop".to_string(), &f), Ok(Tx::TxNoop(TxNoop {})));
    assert_eq!(to_noop(&Vec::new()), Ok(TxNoop {}));
    assert_eq!(to_tx(&"transfer".to_string(), &f), Err(Error::InvalidOp));
    assert_eq!(to_tx(&"no_such_op".to_string(), &f), Err(Error::InvalidOp));
    assert_eq!(to_deposit(&fields(&[("account_id", 4)])), Err(Error::InvalidOp));
    let f = fields(&[
        ("sender_id", 1),
        ("transfer_token_id", 2),
        ("transfer_amt", 3),
        ("receiver_id", 4),
    ]);
    assert_eq!(
        to_transfer(&f),
        Ok(TxTransfer { sender_id: 1, transfer_token_id: 2, transfer_amt: s(3), receiver_id: 4 })
    );
}

#[test]
fn amounts_in_floating_point() {
    // exponent 3, mantissa 25
    assert_eq!(float2fix(s((3 << 35) | 25)), s(25_000));
    assert_eq!(float2fix(s(25)), s(25));
    assert_eq!(float2fix(s(0)), s(0));
    assert_eq!(float2fix(s(31 << 35)), s(0));
    // exponent 18, mantissa 2^35 - 1
    let big = s((18 << 35) | ((1 << 35) - 1));
    assert_eq!(float2fix(big), s((1 << 35) - 1).mul(&s(1_000_000_000_000_000_000)));
}

fn schema() -> Schema {
    let p = |symbol: &str, len: usize, is_fixed: bool| Param { symbol: symbol.to_string(), len, is_fixed };
    Schema {
        ops: vec![
            ("noop".to_string(), vec![p("op_type", 1, false)]),
            ("register".to_string(), vec![
                p("op_type", 1, false),
                p("account_id", 4, false),
                p("hashed_pub_key", 20, false),
            ]),
            ("deposit".to_string(), vec![
                p("op_type", 1, false),
                p("account_id", 4, false),
                p("deposit_token_id", 2, false),
                p("deposit_amt", 16, false),
            ]),
            ("forced_withdraw".to_string(), vec![
                p("op_type", 1, false),
                p("account_id", 4, false),
                p("withdraw_token_id", 2, false),
                p("withdraw_amt", 5, true),
            ]),
        ],
    }
}

#[test]
fn operations_are_read_chunk_by_chunk() {
    let sch = schema();
    let mut data = vec![2u8];
    data.extend_from_slice(&[0, 0, 0, 9]);
    data.extend_from_slice(&[0, 3]);
    data.extend_from_slice(&[0u8; 14]);
    data.extend_from_slice(&[1, 0]);
    data.push(0xAA);
    // 23 bytes of deposit, padded to 24; then a noop, padded to 12
    data.extend_from_slice(&[0u8; 12]);
    // then a forced withdraw of mantissa 7, exponent 2
    data.push(3);
    data.extend_from_slice(&[0, 0, 0, 5]);
    data.extend_from_slice(&[0, 1]);
    let float: u64 = (2 << 35) | 7;
    data.extend_from_slice(&float.to_be_bytes()[3..]);
    let (tx, next) = sch.parse(&data, 0).unwrap();
    assert_eq!(
        tx,
        Tx::TxDeposit(TxDeposit { account_id: 9, deposit_token_id: 3, deposit_amt: s(256) })
    );
    assert_eq!(next, 24);
    let (tx, next) = sch.parse(&data, next).unwrap();
    assert_eq!(tx, Tx::TxNoop(TxNoop {}));
    assert_eq!(next, 36);
    let (tx, next) = sch.parse(&data, next).unwrap();
    match tx {
        Tx::TxForcedWithdraw(w) => {
            assert_eq!(w.account_id, 5);
            assert_eq!(w.withdraw_token_id, 1);
            assert_eq!(w.withdraw_amt, s(700));
        }
        _ => panic!("a forced withdraw"),
    }
    assert_eq!(next, 48);
    assert_eq!(next, data.len());
    // past the end, an unknown code, and an operation that is cut short
    assert_eq!(sch.parse(&data, 48), Err(Error::InvalidOp));
    assert_eq!(sch.parse(&vec![9u8; 12], 0), Err(Error::InvalidOp));
    assert_eq!(sch.parse(&data[..20].to_vec(), 0), Err(Error::InvalidOp));
    assert_eq!(sch.parse(&data[..23].to_vec(), 0), Err(Error::InvalidOp));
}

fn at(block: u64, idx: u64) -> Option<EventRef> {
    Some(EventRef { block_number: block, tx_index: idx })
}

#[test]
fn events_are_ordered_by_block_and_place() {
    assert!(slt(&at(1, 5), &at(2, 0)));
    assert!(slt(&at(2, 0), &at(2, 1)));
    assert!(!slt(&at(2, 1), &at(2, 1)));
    assert!(!slt(&at(3, 0), &at(2, 9)));
    assert!(slt(&at(3, 0), &None));
    assert!(!slt(&None, &at(3, 0)));
    assert!(!slt(&None, &None));
}

#[test]
fn committed_blocks_wait_for_their_execution() {
    let e = |b: u64| EventRef { block_number: b, tx_index: 0 };
    let mut r = Reconciler::new();
    assert_eq!(r.on_executed(1), Ok(None));
    r.on_committed(e(10), 1).unwrap();
    r.on_committed(e(11), 2).unwrap();
    r.on_committed(e(12), 3).unwrap();
    // block 2 is committed again: the later commit counts
    r.on_committed(e(13), 2).unwrap();
    assert_eq!(r.queue.len(), 3);
    assert_eq!(r.queue[1], (e(13), 2));
    // a block that never waited cannot be committed again
    assert_eq!(r.on_committed(e(14), 0), Err(Error::BlockOrder));
    assert_eq!(r.queue.len(), 3);
    assert_eq!(r.on_executed(0), Ok(None));
    assert_eq!(r.on_executed(1), Ok(Some(e(10))));
    assert_eq!(r.on_executed(3), Err(Error::BlockOrder));
    assert_eq!(r.on_executed(2), Ok(Some(e(13))));
    assert_eq!(r.on_executed(3), Ok(Some(e(12))));
    assert_eq!(r.queue.len(), 0);
    // a gap in the numbers: 7 fits between 5 and 9 nowhere
    r.on_committed(e(1), 5).unwrap();
    r.on_committed(e(2), 9).unwrap();
    assert_eq!(r.on_committed(e(3), 7), Err(Error::BlockOrder));
}

#[test]
fn words_of_an_answer() {
    let mut answer = vec![0u8; 96];
    answer[63] = 5;
    answer[95] = 12;
    answer[94] = 1;
    assert_eq!(be_u64(&answer, 32, 64), Some(5));
    assert_eq!(be_u64(&answer, 64, 96), Some(256 + 12));
    assert_eq!(remaining_l1_req_count(&answer), Some(263));
    answer[63] = 255;
    answer[62] = 255;
    assert_eq!(remaining_l1_req_count(&answer), None);
    assert_eq!(remaining_l1_req_count(&answer[..95].to_vec()), None);
    answer[64] = 1;
    assert_eq!(be_u64(&answer, 64, 96), None);
    assert_eq!(be_u64(&answer, 10, 10), Some(0));
    assert_eq!(be_u64(&vec![0xFF; 8], 0, 8), Some(u64::MAX));
    assert_eq!(be_u64(&vec![1, 0, 0, 0, 0, 0, 0, 0, 0], 0, 9), None);
}
