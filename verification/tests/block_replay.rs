use term_structure_evacuation_kit::chain::{
    consume_data, event_topic, is_evacuation_answer, selector, window_down, window_up, Block,
};
use term_structure_evacuation_kit::driver::{apply_block, first_tx, log_block, process_block};
use term_structure_evacuation_kit::error::Error;
use term_structure_evacuation_kit::evacuation::query_funds;
use term_structure_evacuation_kit::file::TsFile;
use term_structure_evacuation_kit::parser::{Param, Schema};
use term_structure_evacuation_kit::poseidon::{Poseidon, PoseidonParams};
use term_structure_evacuation_kit::scalar::Scalar;
use term_structure_evacuation_kit::tx::{Tx, TxDeposit, TxRegister};

fn s(x: u64) -> Scalar {
    Scalar::from_u64(x)
}

fn params(t: usize, n_p: usize) -> PoseidonParams {
    let c: Vec<Scalar> = (0..8 * t + n_p).map(|i| s(3 * i as u64 + 1)).collect();
    let sp: Vec<Scalar> = (0..(2 * t - 1) * n_p).map(|i| s(5 * i as u64 + 2)).collect();
    let m: Vec<Vec<Scalar>> =
        (0..t).map(|i| (0..t).map(|j| s((i * t + j) as u64 + 1)).collect()).collect();
    let p: Vec<Vec<Scalar>> =
        (0..t).map(|i| (0..t).map(|j| s((2 * i + 3 * j) as u64 + 7)).collect()).collect();
    PoseidonParams::new(t, n_p, c, sp, m, p).unwrap()
}

fn hasher() -> Poseidon {
    Poseidon::new(vec![params(2, 1), params(3, 1), params(4, 1), params(5, 1)]).unwrap()
}

fn schema() -> Schema {
    let p = |symbol: &str, len: usize, is_fixed: bool| Param {
        symbol: symbol.to_string(),
        len,
        is_fixed,
    };
    Schema {
        ops: vec![
            ("noop".to_string(), vec![p("op_type", 1, false)]),
            (
                "register".to_string(),
                vec![
                    p("op_type", 1, false),
                    p("account_id", 4, false),
                    p("hashed_pub_key", 20, false),
                ],
            ),
            (
                "deposit".to_string(),
                vec![
                    p("op_type", 1, false),
                    p("account_id", 4, false),
                    p("deposit_token_id", 2, false),
                    p("deposit_amt", 16, false),
                ],
            ),
        ],
    }
}

// a registration of account 1, a deposit of 1000 of token 3 to it, a no-op
// and, behind the no-op, a deposit that must not be read
fn public_data() -> Vec<u8> {
    let mut data = vec![1u8];
    data.extend_from_slice(&[0, 0, 0, 1]);
    data.extend_from_slice(&[0u8; 19]);
    data.push(0xA1);
    data.extend_from_slice(&[0u8; 11]);
    assert_eq!(data.len(), 36);
    data.push(2);
    data.extend_from_slice(&[0, 0, 0, 1]);
    data.extend_from_slice(&[0, 3]);
    data.extend_from_slice(&[0u8; 14]);
    data.extend_from_slice(&[3, 0xE8]);
    data.push(0);
    assert_eq!(data.len(), 60);
    data.extend_from_slice(&[0u8; 12]);
    data.push(2);
    data.extend_from_slice(&[0, 0, 0, 1]);
    data.extend_from_slice(&[0, 3]);
    data.extend_from_slice(&[0u8; 15]);
    data.push(5);
    data.push(0);
    data
}

fn be(x: &Scalar) -> Vec<u8> {
    let mut b = x.to_le_bytes();
    b.reverse();
    b
}

// the state root after the two operations of `public_data`, worked step by step
fn expected_root(h: &Poseidon, ts_root: Scalar) -> Scalar {
    let mut file = TsFile::open(Vec::new(), Some(0)).unwrap();
    let mut state = file.to_state(h, 5, 4).unwrap();
    let txs = [
        Tx::TxRegister(TxRegister { account_id: 1, hashed_pub_key: s(0xA1) }),
        Tx::TxDeposit(TxDeposit { account_id: 1, deposit_token_id: 3, deposit_amt: s(1000) }),
    ];
    for (i, tx) in txs.iter().enumerate() {
        state.push_tx(&mut file, i, *tx).unwrap();
    }
    for i in 0..txs.len() {
        state.update(&mut file, i).unwrap();
    }
    state.set_ts_root(&mut file, ts_root).unwrap();
    state.get_root(&file).unwrap()
}

fn block(number: u64, ts_root: &Scalar, state_root: &Scalar) -> Block {
    Block {
        block_number: number,
        new_state_root: be(state_root),
        new_ts_root: be(ts_root),
        timestamp: 1_700_000_000,
        chunk_id_deltas: vec![3, 2, 1],
        public_data: public_data(),
    }
}

#[test]
fn a_block_is_replayed_and_counted() {
    let h = hasher();
    let sch = schema();
    let ts_root = s(77);
    let root = expected_root(&h, ts_root);
    let mut file = TsFile::open(Vec::new(), Some(41)).unwrap();
    assert_eq!(file.block_count, 1);
    assert_eq!(file.latest_l1_block_id, 41);
    let r = process_block(&mut file, &h, 5, 4, &sch, 4, 90, &block(1, &ts_root, &root));
    assert_eq!(r, Ok(true));
    assert_eq!(file.block_count, 2);
    assert_eq!(file.latest_l1_block_id, 90);
    let state = file.to_state(&h, 5, 4).unwrap();
    assert_eq!(state.get_root(&file).unwrap(), root);
    let funds = query_funds(&state, &file, 1, 3).unwrap();
    assert_eq!(funds.avl_amt, "1000");
    assert_eq!(funds.locked_amt, "");
    // what was replayed survives a close and an open
    let bytes = file.close().unwrap();
    assert!(matches!(TsFile::open(bytes.clone(), None), Err(Error::MissingAnchor)));
    let again = TsFile::open(bytes, Some(7)).unwrap();
    assert_eq!(again.block_count, 2);
    assert_eq!(again.latest_l1_block_id, 90);
    let state = again.to_state(&h, 5, 4).unwrap();
    assert_eq!(state.get_root(&again).unwrap(), root);
}

#[test]
fn a_block_that_was_seen_is_passed_over() {
    let h = hasher();
    let sch = schema();
    let ts_root = s(77);
    let root = expected_root(&h, ts_root);
    let mut file = TsFile::open(Vec::new(), Some(41)).unwrap();
    let before = file.as_bytes().clone();
    let r = process_block(&mut file, &h, 5, 4, &sch, 4, 90, &block(0, &ts_root, &root));
    assert_eq!(r, Ok(false));
    assert_eq!(file.block_count, 1);
    assert_eq!(file.latest_l1_block_id, 41);
    assert_eq!(file.as_bytes(), &before);
}

#[test]
fn a_block_with_another_root_is_refused() {
    let h = hasher();
    let sch = schema();
    let ts_root = s(77);
    let root = expected_root(&h, ts_root);
    let wrong = root.add(&s(1));
    let mut file = TsFile::open(Vec::new(), Some(41)).unwrap();
    let r = process_block(&mut file, &h, 5, 4, &sch, 4, 90, &block(1, &ts_root, &wrong));
    assert_eq!(r, Err(Error::StateRootMismatch));
    assert_eq!(file.block_count, 1);
    assert_eq!(file.latest_l1_block_id, 41);
    // another root scalar gives another state root
    let mut file = TsFile::open(Vec::new(), Some(41)).unwrap();
    let r = process_block(&mut file, &h, 5, 4, &sch, 4, 90, &block(1, &s(78), &root));
    assert_eq!(r, Err(Error::StateRootMismatch));
}

#[test]
fn a_block_with_an_unknown_operation_is_refused() {
    let h = hasher();
    let sch = schema();
    let mut b = block(1, &s(77), &s(1));
    b.public_data = vec![9u8; 12];
    let mut file = TsFile::open(Vec::new(), Some(41)).unwrap();
    let r = process_block(&mut file, &h, 5, 4, &sch, 4, 90, &b);
    assert_eq!(r, Err(Error::InvalidOp));
    assert_eq!(file.block_count, 1);
    assert_eq!(file.latest_l1_block_id, 41);
}

#[test]
fn operations_are_logged_up_to_the_first_no_op() {
    let h = hasher();
    let sch = schema();
    let mut file = TsFile::open(Vec::new(), Some(0)).unwrap();
    let mut state = file.to_state(&h, 5, 4).unwrap();
    let count = log_block(&mut state, &mut file, &sch, 8, &public_data()).unwrap();
    assert_eq!(count, 2);
    assert_eq!(
        state.tx_at(&file, 9).unwrap().raw_tx,
        Tx::TxDeposit(TxDeposit { account_id: 1, deposit_token_id: 3, deposit_amt: s(1000) })
    );
    apply_block(&mut state, &mut file, 8, count).unwrap();
    assert_eq!(query_funds(&state, &file, 1, 3).unwrap().avl_amt, "1000");
    // data without a no-op is read to its end
    let count = log_block(&mut state, &mut file, &sch, 16, &public_data()[..60].to_vec()).unwrap();
    assert_eq!(count, 2);
}

#[test]
fn where_the_log_of_a_block_starts() {
    assert_eq!(first_tx(0, 4), None);
    assert_eq!(first_tx(1, 4), Some(0));
    assert_eq!(first_tx(2, 4), Some(4));
    assert_eq!(first_tx(11, 256), Some(2560));
    assert_eq!(first_tx(u64::MAX, 2), None);
    assert_eq!(first_tx(u64::MAX, 0), Some(0));
}

fn hex(bytes: &[u8]) -> String {
    bytes.iter().map(|b| format!("{:02x}", b)).collect()
}

#[test]
fn names_of_events_and_calls() {
    assert_eq!(
        hex(&event_topic("")),
        "c5d2460186f7233c927e7db2dcc703c0e500b653ca82273b7bfad8045d85a470"
    );
    assert_eq!(
        hex(&event_topic("Transfer(address,address,uint256)")),
        "ddf252ad1be2c89b69c2b068fc378daa952ba7f163c4a11628f55a4df523b3ef"
    );
    assert_eq!(hex(&selector("transfer(address,uint256)")), "a9059cbb");
    assert_eq!(selector("isEvacuMode()"), event_topic("isEvacuMode()")[..4].to_vec());
}

#[test]
fn waiting_requests_come_out_oldest_first() {
    let found = vec![vec![1u8, 2, 3, 15, 16], vec![0xff], vec![0xab, 0xcd]];
    assert_eq!(consume_data(&found, 2), vec!["ff".to_string(), "0102030f10".to_string()]);
    assert_eq!(
        consume_data(&found, 7),
        vec!["abcd".to_string(), "ff".to_string(), "0102030f10".to_string()]
    );
    assert_eq!(consume_data(&found, 0), Vec::<String>::new());
    assert_eq!(consume_data(&vec![vec![]], 1), vec!["".to_string()]);
}

#[test]
fn windows_of_blocks() {
    assert_eq!(window_up(9, 100, 20), Some((10, 30)));
    assert_eq!(window_up(89, 100, 20), Some((90, 100)));
    assert_eq!(window_up(98, 100, 20), Some((99, 100)));
    assert_eq!(window_up(99, 100, 20), None);
    assert_eq!(window_up(100, 100, 20), None);
    assert_eq!(window_up(5, 100, 0), None);
    assert_eq!(window_up(u64::MAX, u64::MAX, 1), None);
    assert_eq!(window_up(0, u64::MAX, u64::MAX), Some((1, u64::MAX)));
    assert_eq!(window_down(100, 20), (Some(80), Some(79)));
    assert_eq!(window_down(21, 20), (Some(1), Some(0)));
    assert_eq!(window_down(20, 20), (None, None));
    assert_eq!(window_down(0, 0), (None, None));
}

#[test]
fn the_answer_on_the_evacuation_mode() {
    assert!(is_evacuation_answer(&vec![1, 0, 0]));
    assert!(!is_evacuation_answer(&vec![0, 1]));
    assert!(!is_evacuation_answer(&vec![2]));
}

#[test]
fn a_schema_is_built_from_its_declaration() {
    let widths = vec![
        ("tx_amount".to_string(), 5usize),
        ("uint8".to_string(), 1),
        ("uint32".to_string(), 4),
        ("tx_ratio".to_string(), 9),
        ("tx_ratio".to_string(), 5),
    ];
    let field = |kind: &str, symbol: &str| (kind.to_string(), symbol.to_string());
    let transactions = vec![
        ("noop".to_string(), vec![field("uint8", "op_type")]),
        (
            "forced_withdraw".to_string(),
            vec![
                field("uint8", "op_type"),
                field("uint32", "account_id"),
                field("tx_amount", "withdraw_amt"),
                field("tx_ratio", "rate"),
            ],
        ),
    ];
    let sch = Schema::build(&widths, &transactions).unwrap();
    assert_eq!(sch.ops.len(), 2);
    assert_eq!(sch.ops[0].0, "noop");
    assert_eq!(sch.ops[0].1.len(), 1);
    let params = &sch.ops[1].1;
    assert_eq!(sch.ops[1].0, "forced_withdraw");
    let seen: Vec<(&str, usize, bool)> =
        params.iter().map(|p| (p.symbol.as_str(), p.len, p.is_fixed)).collect();
    assert_eq!(
        seen,
        vec![
            ("op_type", 1, false),
            ("account_id", 4, false),
            ("withdraw_amt", 5, true),
            ("rate", 5, true)
        ]
    );
    let unknown = vec![("noop".to_string(), vec![field("uint16", "op_type")])];
    assert!(matches!(Schema::build(&widths, &unknown), Err(Error::InvalidOp)));
}
