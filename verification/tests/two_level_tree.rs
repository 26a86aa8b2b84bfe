use term_structure_evacuation_kit::acc_ptr::{AccPtr, AccountRecord};
use term_structure_evacuation_kit::account::{account_digest, Account, AccountTree};
use term_structure_evacuation_kit::array::ElemPtr;
use term_structure_evacuation_kit::error::Error;
use term_structure_evacuation_kit::evacuation::{evacu_proof, get_evacu_prf, query_funds};
use term_structure_evacuation_kit::file::TsFile;
use term_structure_evacuation_kit::leaves::{MerkleLeaf, MerkleTreeWithLeaves};
use term_structure_evacuation_kit::merkle::{MerkleNodes, MerkleTree};
use term_structure_evacuation_kit::poseidon::{Poseidon, PoseidonParams};
use term_structure_evacuation_kit::scalar::Scalar;
use term_structure_evacuation_kit::state::State;
use term_structure_evacuation_kit::token::{hash2, Token, TokenTree};
use term_structure_evacuation_kit::tx::{Tx, TxDeposit};

fn s(x: u64) -> Scalar {
    Scalar::from_u64(x)
}

fn params(t: usize, n_p: usize) -> PoseidonParams {
    let c: Vec<Scalar> = (0..8 * t + n_p).map(|i| s(3 * i as u64 + 1)).collect();
    let sp: Vec<Scalar> = (0..(2 * t - 1) * n_p).map(|i| s(5 * i as u64 + 2)).collect();
    let m: Vec<Vec<Scalar>> =
        (0..t).map(|i| (0..t).map(|j| s((i * t + j) as u64 + 1)).collect()).collect();
    let p: Vec<Vec<Scalar>> =
        (0..t).map(|i| (0..t).map(|j| s((2 * i + 3 * j) as u64 + 7)).collect()).collect();
    PoseidonParams::new(t, n_p, c, sp, m, p).unwrap()
}

fn hasher() -> Poseidon {
    Poseidon::new(vec![params(2, 1), params(3, 2), params(4, 2), params(5, 2)]).unwrap()
}

fn formatted() -> TsFile {
    TsFile::open(Vec::new(), Some(0)).unwrap()
}

fn token(a: u64, l: u64) -> Token {
    Token { avl_amt: s(a), locked_amt: s(l) }
}

/// The root of the complete tree over `leaves` under the hasher.
fn brute_force_root(h: &Poseidon, leaves: &Vec<Scalar>) -> Scalar {
    let mut level = leaves.clone();
    while level.len() > 1 {
        level = level.chunks(2).map(|pair| hash2(h, pair[0], pair[1])).collect();
    }
    level[0]
}

fn fold(h: &Poseidon, leaf: Scalar, id: usize, path: &Vec<Scalar>) -> Scalar {
    let mut cur = leaf;
    let mut idx = id;
    for sibling in path {
        cur = if idx % 2 == 0 { hash2(h, cur, *sibling) } else { hash2(h, *sibling, cur) };
        idx /= 2;
    }
    cur
}

#[test]
fn a_token_tree_agrees_with_the_complete_tree() {
    let h = hasher();
    let height = 4;
    let mut file = formatted();
    let mut tree = TokenTree::new(&h, height).unwrap();
    let default_digest = Token::default().digest(&h).unwrap();
    let mut digests = vec![default_digest; 1 << height];
    assert_eq!(tree.get_root(&file).unwrap(), brute_force_root(&h, &digests));
    assert_eq!(tree.default_proof[0], default_digest);
    assert_eq!(tree.default_proof[1], hash2(&h, default_digest, default_digest));
    for (id, a, l) in [(3usize, 30u64, 1u64), (0, 5, 0), (12, 1, 1), (3, 31, 2), (15, 9, 9), (7, 0, 4)] {
        let leaf = token(a, l);
        let before_root = brute_force_root(&h, &digests);
        let before_leaf = tree.leaf_at(&file, id).unwrap();
        let prf = tree.update_leaf(&mut file, id, leaf).unwrap();
        digests[id] = leaf.digest(&h).unwrap();
        assert_eq!(prf.ori_leaf, before_leaf);
        assert_eq!(prf.new_leaf, leaf);
        assert_eq!(prf.merkle_prf.ori_root, before_root);
        assert_eq!(prf.merkle_prf.new_root, brute_force_root(&h, &digests));
        assert_eq!(prf.merkle_prf.new_leaf_node, digests[id]);
        assert_eq!(fold(&h, digests[id], id, &prf.merkle_prf.proof), prf.merkle_prf.new_root);
        assert_eq!(
            fold(&h, prf.merkle_prf.ori_leaf_node, id, &prf.merkle_prf.proof),
            prf.merkle_prf.ori_root
        );
        assert_eq!(tree.leaf_at(&file, id).unwrap(), leaf);
        assert_eq!(tree.get_root(&file).unwrap(), brute_force_root(&h, &digests));
    }
    let seen = tree.verify_leaf(&file, 12).unwrap();
    assert_eq!(seen.leaf, token(1, 1));
    assert_eq!(seen.merkle_prf.ori_root, seen.merkle_prf.new_root);
    assert_eq!(fold(&h, seen.merkle_prf.ori_leaf_node, 12, &seen.merkle_prf.proof), seen.merkle_prf.ori_root);
    assert!(matches!(tree.update_leaf(&mut file, 16, token(1, 1)), Err(Error::InvalidLeafId)));
    assert!(matches!(tree.leaf_set(&mut file, 16, token(1, 1)), Err(Error::InvalidLeafId)));
}

#[test]
fn update_applies_the_change_to_the_stored_record() {
    let h = hasher();
    let mut file = formatted();
    let mut tree = TokenTree::new(&h, 3).unwrap();
    tree.update_leaf(&mut file, 2, token(10, 0)).unwrap();
    let prf = tree
        .update(&mut file, 2, |t: Token| {
            let mut t = t;
            t.lock(s(4))?;
            Ok(t)
        })
        .unwrap();
    assert_eq!(prf.ori_leaf, token(10, 0));
    assert_eq!(prf.new_leaf, token(6, 4));
    assert_eq!(tree.leaf_at(&file, 2).unwrap(), token(6, 4));
    let root = tree.get_root(&file).unwrap();
    let failed = tree.update(&mut file, 2, |_t: Token| Err(Error::InvalidTxType));
    assert!(matches!(failed, Err(Error::InvalidTxType)));
    assert_eq!(tree.get_root(&file).unwrap(), root);
    assert!(matches!(tree.update(&mut file, 8, |t: Token| Ok(t)), Err(Error::InvalidLeafId)));
}

#[test]
fn token_balances_move_as_named() {
    let mut t = token(100, 10);
    t.income(s(5)).unwrap();
    assert_eq!(t, token(105, 10));
    t.outgo(s(25)).unwrap();
    assert_eq!(t, token(80, 10));
    t.lock(s(30)).unwrap();
    assert_eq!(t, token(50, 40));
    t.unlock(s(15)).unwrap();
    assert_eq!(t, token(65, 25));
    t.deduct(s(25)).unwrap();
    assert_eq!(t, token(65, 0));
    t.outgo(s(66)).unwrap();
    assert_eq!(t.avl_amt, s(0).sub(&s(1)));
}

#[test]
fn a_token_tree_is_found_again_from_its_heads() {
    let h = hasher();
    let mut file = formatted();
    let mut tree = TokenTree::new(&h, 5).unwrap();
    tree.update_leaf(&mut file, 6, token(7, 8)).unwrap();
    tree.update_leaf(&mut file, 1, token(1, 2)).unwrap();
    let root = tree.get_root(&file).unwrap();
    let again = TokenTree::load(&file, &h, 5, tree.nodes.head(), tree.tokens.head()).unwrap();
    assert_eq!(again.actual_level, tree.actual_level);
    assert_eq!(again.get_root(&file).unwrap(), root);
    assert_eq!(again.leaf_at(&file, 6).unwrap(), token(7, 8));
    assert_eq!(again.default_proof, tree.default_proof);
    // the same chain for both arrays is refused
    assert!(matches!(
        TokenTree::load(&file, &h, 5, tree.nodes.head(), tree.nodes.head()),
        Err(Error::CorruptLayout)
    ));
    // a balance array with more blocks than the height allows
    assert!(matches!(
        TokenTree::load(&file, &h, 2, tree.nodes.head(), tree.tokens.head()),
        Err(Error::InvariantViolated)
    ));
    assert!(matches!(TokenTree::load(&file, &h, 0, 0, 0), Err(Error::InvariantViolated)));
}

#[test]
fn only_leaf_zero_written_loads_one_level_lower_with_the_same_root() {
    let h = hasher();
    let mut file = formatted();
    let mut tree = TokenTree::new(&h, 3).unwrap();
    tree.update_leaf(&mut file, 0, token(4, 4)).unwrap();
    assert_eq!(tree.actual_level, 1);
    let root = tree.get_root(&file).unwrap();
    let mut again = TokenTree::load(&file, &h, 3, tree.nodes.head(), tree.tokens.head()).unwrap();
    assert_eq!(again.actual_level, 0);
    assert_eq!(again.get_root(&file).unwrap(), root);
    again.update_leaf(&mut file, 5, token(1, 0)).unwrap();
    tree = TokenTree::load(&file, &h, 3, again.nodes.head(), again.tokens.head()).unwrap();
    assert_eq!(tree.actual_level, 3);
    assert_eq!(tree.get_root(&file).unwrap(), again.get_root(&file).unwrap());
}

fn fresh_state<'a>(file: &TsFile, h: &'a Poseidon) -> State<'a> {
    file.to_state(h, 4, 3).unwrap()
}

#[test]
fn a_formatted_arena_holds_the_empty_state() {
    let h = hasher();
    let file = formatted();
    let state = fresh_state(&file, &h);
    assert_eq!(state.accounts.actual_level, 0);
    assert_eq!(state.accounts.nodes.head(), 56);
    assert_eq!(state.accounts.accounts.head(), 96);
    assert_eq!(state.tsb_infos.head(), 280);
    assert_eq!(state.txs.head(), 352);
    assert_eq!(state.ts_root.get(&file).unwrap(), s(0));
    // the default account digest: tag 3, no address, no nonce, the root of an empty token tree
    let empty_tokens = TokenTree::new(&h, 3).unwrap();
    let token_root = empty_tokens.get_root(&file).unwrap();
    let default_account = account_digest(&h, s(0), s(0), token_root);
    assert_eq!(state.accounts.default_proof[0], default_account);
    let mut level = default_account;
    for _ in 0..4 {
        level = hash2(&h, level, level);
    }
    let account_root = state.accounts.get_root(&file).unwrap();
    assert_eq!(account_root, level);
    assert_eq!(state.get_root(&file).unwrap(), h.hash3(s(2), s(0), account_root));
    assert!(matches!(file.to_state(&h, 0, 3), Err(Error::InvariantViolated)));
    let short = TsFile::open(vec![0; 100], Some(0)).unwrap();
    assert!(matches!(short.to_state(&h, 4, 3), Err(Error::CorruptLayout)));
}

#[test]
fn an_account_update_reaches_the_state_root() {
    let h = hasher();
    let mut file = formatted();
    let mut state = fresh_state(&file, &h);
    let root0 = state.get_root(&file).unwrap();

    let mut account: Account = state.accounts.leaf_at(&file, 2).unwrap();
    account.set_l2_addr(s(0xBEEF)).unwrap();
    account.income(&mut file, 5, s(100)).unwrap();
    account.lock(&mut file, 5, s(30)).unwrap();
    account.increase_nonce().unwrap();
    let token_root = account.tokens.get_root(&file).unwrap();
    let digest = account.digest(&file).unwrap();
    assert_eq!(digest, account_digest(&h, s(0xBEEF), s(1), token_root));
    let prf = state.accounts.update_leaf(&mut file, 2, account).unwrap();
    assert_eq!(prf.merkle_prf.new_leaf_node, digest);
    assert_eq!(prf.ori_leaf.l2_addr, s(0));
    assert_eq!(prf.new_leaf.l2_addr, s(0xBEEF));
    assert_eq!(prf.new_leaf.nonce, s(1));
    assert_eq!(fold(&h, digest, 2, &prf.merkle_prf.proof), prf.merkle_prf.new_root);
    let root1 = state.get_root(&file).unwrap();
    assert_ne!(root0, root1);
    assert_eq!(root1, h.hash3(s(2), s(0), prf.merkle_prf.new_root));

    // everything is found again from the bytes alone
    let bytes = file.close().unwrap();
    let file = TsFile::open(bytes, Some(0)).unwrap();
    let state = fresh_state(&file, &h);
    assert_eq!(state.get_root(&file).unwrap(), root1);
    let funds = query_funds(&state, &file, 2, 5).unwrap();
    assert_eq!(funds.acc_id, 2);
    assert_eq!(funds.token_id, 5);
    assert_eq!(funds.avl_amt, "70");
    assert_eq!(funds.locked_amt, "30");
    let nothing = query_funds(&state, &file, 3, 5).unwrap();
    assert_eq!(nothing.avl_amt, "");
    assert_eq!(nothing.locked_amt, "");
}

#[test]
fn an_evacuation_proof_ties_the_balance_to_the_roots() {
    let h = hasher();
    let mut file = formatted();
    let mut state = fresh_state(&file, &h);
    state.set_ts_root(&mut file, s(4242)).unwrap();
    for (acc, tok, amt) in [(1usize, 2u64, 50u64), (6, 0, 7), (1, 3, 9)] {
        let mut account = state.accounts.leaf_at(&file, acc).unwrap();
        account.set_l2_addr(s(acc as u64 + 100)).unwrap();
        account.income(&mut file, tok, s(amt)).unwrap();
        state.accounts.update_leaf(&mut file, acc, account).unwrap();
    }
    let prf = get_evacu_prf(&state, &file, 1, 3, "1700000000".to_string()).unwrap();
    assert_eq!(prf.current_time, "1700000000");
    assert_eq!(prf.acc_id, "1");
    assert_eq!(prf.token_id, "3");
    assert_eq!(prf.avl_amt, "9");
    assert_eq!(prf.locked_amt, "");
    assert_eq!(prf.nonce, "");
    assert_eq!(prf.ts_addr, "101");
    assert_eq!(prf.ts_root, "4242");
    assert_eq!(prf.acc_mk_prf.len(), 4);
    assert_eq!(prf.token_mk_prf.len(), 3);
    let account = state.accounts.leaf_at(&file, 1).unwrap();
    let token_root = account.tokens.get_root(&file).unwrap();
    let acc_root = state.accounts.get_root(&file).unwrap();
    assert_eq!(prf.token_root, token_root.to_string());
    assert_eq!(prf.acc_root, acc_root.to_string());
    assert_eq!(prf.state_root, state.get_root(&file).unwrap().to_string());
    assert_eq!(prf.state_root, h.hash3(s(2), s(4242), acc_root).to_string());
    // the paths are the ones of the two trees
    let token_prf = account.tokens.verify_leaf(&file, 3).unwrap();
    let expected: Vec<String> = token_prf.merkle_prf.proof.iter().map(|x| x.to_string()).collect();
    assert_eq!(prf.token_mk_prf, expected);
    assert_eq!(fold(&h, token(9, 0).digest(&h).unwrap(), 3, &token_prf.merkle_prf.proof), token_root);
    let acc_prf = state.accounts.verify_leaf(&file, 1).unwrap();
    let expected: Vec<String> = acc_prf.merkle_prf.proof.iter().map(|x| x.to_string()).collect();
    assert_eq!(prf.acc_mk_prf, expected);
    assert_eq!(fold(&h, account.digest(&file).unwrap(), 1, &acc_prf.merkle_prf.proof), acc_root);
    // ids beyond the trees are refused
    assert!(matches!(
        evacu_proof(&state, &file, &account, 16, 3, String::new()),
        Err(Error::InvalidLeafId)
    ));
    assert!(matches!(
        evacu_proof(&state, &file, &account, 1, 8, String::new()),
        Err(Error::InvalidLeafId)
    ));
}

#[test]
fn transactions_and_the_root_scalar_leave_the_accounts_alone() {
    let h = hasher();
    let mut file = formatted();
    let mut state = fresh_state(&file, &h);
    let mut account = state.accounts.leaf_at(&file, 0).unwrap();
    account.income(&mut file, 1, s(10)).unwrap();
    state.accounts.update_leaf(&mut file, 0, account).unwrap();
    let acc_root = state.accounts.get_root(&file).unwrap();
    let raw = Tx::TxDeposit(TxDeposit { account_id: 0, deposit_token_id: 1, deposit_amt: s(10) });
    state.push_tx(&mut file, 130, raw).unwrap();
    state.set_ts_root(&mut file, s(99)).unwrap();
    assert_eq!(state.accounts.get_root(&file).unwrap(), acc_root);
    assert_eq!(state.txs.get(&file, 130).unwrap().raw_tx, raw);
    assert_eq!(state.txs.get(&file, 130).unwrap().locked_amt, s(0));
    assert_eq!(state.txs.get(&file, 129).unwrap().raw_tx, Tx::default());
    assert_eq!(state.ts_root.get(&file).unwrap(), s(99));
    assert_eq!(query_funds(&state, &file, 0, 1).unwrap().avl_amt, "10");
    let again = file.to_state(&h, 4, 3).unwrap();
    assert_eq!(again.get_root(&file).unwrap(), state.get_root(&file).unwrap());
    assert_eq!(again.txs.get(&file, 130).unwrap().raw_tx, raw);
}

#[test]
fn an_account_that_names_a_broken_token_tree_cannot_be_read() {
    let h = hasher();
    let mut file = formatted();
    let state = fresh_state(&file, &h);
    // account 0 lies in the first block of the account array, behind its link
    let slot = AccPtr::new(96 + 8);
    // heads that point into the account tree itself
    let rec = AccountRecord { l2_addr: s(1), nonce: s(0), nodes_head: 56, tokens_head: 0 };
    slot.write(&mut file, &rec).unwrap();
    assert!(matches!(state.accounts.leaf_at(&file, 0), Err(Error::CorruptLayout)));
    assert!(matches!(query_funds(&state, &file, 0, 0), Err(Error::CorruptLayout)));
    // heads that point nowhere
    let rec = AccountRecord { l2_addr: s(1), nonce: s(0), nodes_head: 5000, tokens_head: 0 };
    slot.write(&mut file, &rec).unwrap();
    assert!(matches!(state.accounts.leaf_at(&file, 0), Err(Error::CorruptLayout)));
    assert!(state.accounts.leaf_at(&file, 1).is_ok());
}
