use term_structure_evacuation_kit::acc_ptr::{AccPtr, AccountRecord};
use term_structure_evacuation_kit::array::{Array, ElemPtr};
use term_structure_evacuation_kit::error::Error;
use term_structure_evacuation_kit::file::{load_u64, write_u64, TsFile};
use term_structure_evacuation_kit::node_ptr::NodePtr;
use term_structure_evacuation_kit::scalar::Scalar;
use term_structure_evacuation_kit::token::Token;
use term_structure_evacuation_kit::token_ptr::TokenPtr;

fn formatted() -> TsFile {
    TsFile::open(Vec::new(), Some(0)).unwrap()
}

fn token(a: u64, l: u64) -> Token {
    Token { avl_amt: Scalar::from_u64(a), locked_amt: Scalar::from_u64(l) }
}

#[test]
fn an_empty_array_reads_the_default_everywhere() {
    let file = formatted();
    let arr: Array<TokenPtr> = Array::load(&file, 0).unwrap();
    assert_eq!(arr.block_count(), 0);
    assert_eq!(arr.head(), 0);
    assert_eq!(arr.get(&file, 0).unwrap(), Token::default());
    assert_eq!(arr.get(&file, 12345).unwrap(), Token::default());
    assert_eq!(arr.get(&file, usize::MAX).unwrap(), Token::default());
}

#[test]
fn set_then_get_returns_the_value() {
    let mut file = formatted();
    let mut arr: Array<TokenPtr> = Array::load(&file, 0).unwrap();
    for i in [0usize, 1, 2, 3, 4, 7, 8, 100, 1000] {
        arr.set(&mut file, i, &token(i as u64 + 1, 2 * i as u64)).unwrap();
    }
    for i in [0usize, 1, 2, 3, 4, 7, 8, 100, 1000] {
        assert_eq!(arr.get(&file, i).unwrap(), token(i as u64 + 1, 2 * i as u64));
    }
    assert_eq!(arr.get(&file, 5).unwrap(), Token::default());
    assert_eq!(arr.get(&file, 999).unwrap(), Token::default());
    assert_eq!(arr.get(&file, 1024).unwrap(), Token::default());
}

#[test]
fn blocks_have_capacities_one_one_two_four() {
    let mut file = formatted();
    let start = file.len();
    let mut arr: Array<TokenPtr> = Array::load(&file, 0).unwrap();
    arr.set(&mut file, 0, &token(1, 1)).unwrap();
    assert_eq!(arr.block_count(), 1);
    assert_eq!(arr.head(), start);
    assert_eq!(file.len(), start + 8 + 64);
    arr.set(&mut file, 1, &token(1, 1)).unwrap();
    assert_eq!(arr.block_count(), 2);
    assert_eq!(file.len(), start + 2 * (8 + 64));
    arr.set(&mut file, 5, &token(1, 1)).unwrap();
    assert_eq!(arr.block_count(), 4);
    assert_eq!(file.len(), start + 2 * (8 + 64) + (8 + 2 * 64) + (8 + 4 * 64));
    assert_eq!(arr.block_span(0, &file), (start, start + 72));
    assert_eq!(arr.block_span(1, &file), (start + 72, start + 144));
    assert_eq!(arr.block_span(2, &file), (start + 144, start + 144 + 136));
    assert_eq!(arr.block_span(3, &file), (start + 280, start + 280 + 264));
    // every block links to the next, the last to nothing
    assert_eq!(load_u64(&file, start), (start + 72) as u64);
    assert_eq!(load_u64(&file, start + 72), (start + 144) as u64);
    assert_eq!(load_u64(&file, start + 144), (start + 280) as u64);
    assert_eq!(load_u64(&file, start + 280), 0);
}

#[test]
fn records_lie_where_the_layout_says() {
    let mut file = formatted();
    let start = file.len();
    let mut arr: Array<TokenPtr> = Array::load(&file, 0).unwrap();
    arr.set(&mut file, 6, &token(0xAB, 0)).unwrap();
    // index 6 lies in block 3 (indices 4..8), at place 2
    let block3 = start + 72 + 72 + 136;
    assert_eq!(file.as_bytes()[block3 + 8 + 2 * 64], 0xAB);
}

#[test]
fn growth_moves_no_record() {
    let mut file = formatted();
    let mut arr: Array<TokenPtr> = Array::load(&file, 0).unwrap();
    arr.set(&mut file, 3, &token(33, 3)).unwrap();
    let before: Vec<(usize, usize)> = (0..arr.block_count()).map(|k| arr.block_span(k, &file)).collect();
    let old_len = file.len();
    let old_bytes = file.as_bytes()[..old_len].to_vec();
    arr.set(&mut file, 40, &token(44, 4)).unwrap();
    for (k, span) in before.iter().enumerate() {
        assert_eq!(arr.block_span(k, &file), *span);
    }
    assert_eq!(arr.get(&file, 3).unwrap(), token(33, 3));
    // of the old bytes only the link of the last old block changed
    let link = before.last().unwrap().0;
    for p in 0..old_len {
        if p < link || p >= link + 8 {
            assert_eq!(file.as_bytes()[p], old_bytes[p]);
        }
    }
}

#[test]
fn an_array_is_found_again_from_its_head() {
    let mut file = formatted();
    let mut arr: Array<TokenPtr> = Array::load(&file, 0).unwrap();
    arr.set(&mut file, 9, &token(9, 90)).unwrap();
    arr.set(&mut file, 2, &token(2, 20)).unwrap();
    let again: Array<TokenPtr> = Array::load(&file, arr.head()).unwrap();
    assert_eq!(again.block_count(), arr.block_count());
    assert_eq!(again.get(&file, 9).unwrap(), token(9, 90));
    assert_eq!(again.get(&file, 2).unwrap(), token(2, 20));
    assert_eq!(again.get(&file, 3).unwrap(), Token::default());
}

#[test]
fn broken_chains_are_refused() {
    let mut file = formatted();
    let mut arr: Array<TokenPtr> = Array::load(&file, 0).unwrap();
    arr.set(&mut file, 1, &token(1, 1)).unwrap();
    let head = arr.head();
    // a head past the end
    assert!(matches!(Array::<TokenPtr>::load(&file, file.len() + 1), Err(Error::CorruptLayout)));
    // a head whose block does not fit
    assert!(matches!(Array::<TokenPtr>::load(&file, file.len() - 4), Err(Error::CorruptLayout)));
    // a link that points backwards
    let mut bad = TsFile::open(file.as_bytes().clone(), Some(0)).unwrap();
    write_u64(&mut bad, head, head as u64);
    assert!(matches!(Array::<TokenPtr>::load(&bad, head), Err(Error::CorruptLayout)));
    // a link that points past the end
    let mut bad = TsFile::open(file.as_bytes().clone(), Some(0)).unwrap();
    write_u64(&mut bad, head, u64::MAX);
    assert!(matches!(Array::<TokenPtr>::load(&bad, head), Err(Error::CorruptLayout)));
}

#[test]
fn two_arrays_in_one_arena_do_not_disturb_each_other() {
    let mut file = formatted();
    let mut tokens: Array<TokenPtr> = Array::load(&file, 0).unwrap();
    let mut nodes: Array<NodePtr> = Array::load(&file, 0).unwrap();
    tokens.set(&mut file, 0, &token(1, 2)).unwrap();
    nodes.set(&mut file, 0, &Some(Scalar::from_u64(5))).unwrap();
    tokens.set(&mut file, 17, &token(3, 4)).unwrap();
    nodes.set(&mut file, 9, &Some(Scalar::from_u64(0))).unwrap();
    tokens.set(&mut file, 2, &token(5, 6)).unwrap();
    assert!(tokens.disjoint_from(&nodes, &file));
    assert!(!tokens.disjoint_from(&tokens, &file));
    assert_eq!(tokens.get(&file, 0).unwrap(), token(1, 2));
    assert_eq!(tokens.get(&file, 17).unwrap(), token(3, 4));
    assert_eq!(tokens.get(&file, 2).unwrap(), token(5, 6));
    assert_eq!(nodes.get(&file, 0).unwrap(), Some(Scalar::from_u64(5)));
    assert_eq!(nodes.get(&file, 9).unwrap(), Some(Scalar::from_u64(0)));
    assert_eq!(nodes.get(&file, 8).unwrap(), None);
    let first = NodePtr::new(nodes.block_span(0, &file).0 + 8);
    assert_eq!(first.read(&file).unwrap(), Some(Scalar::from_u64(5)));
}

#[test]
fn a_store_leaves_the_padding_of_its_slot() {
    let mut file = TsFile::open(Vec::new(), Some(1)).unwrap();
    let mut records: Array<AccPtr> = Array::load(&file, 96).unwrap();
    // the slot of record 0 starts behind the link of the first block; the
    // record takes 80 of its 176 bytes
    let slot = 96 + 8;
    file.write(slot + 80, &vec![0xEE; 96], 96);
    let before = file.as_bytes().clone();
    let rec = AccountRecord {
        l2_addr: Scalar::from_u64(7),
        nonce: Scalar::from_u64(9),
        nodes_head: 0,
        tokens_head: 0,
    };
    records.set(&mut file, 0, &rec).unwrap();
    let after = file.as_bytes();
    assert_eq!(after.len(), before.len());
    assert_eq!(&after[..slot], &before[..slot]);
    assert_eq!(&after[slot + 80..], &before[slot + 80..]);
    assert!(after[slot + 80..slot + 176].iter().all(|b| *b == 0xEE));
    assert_eq!(records.get(&file, 0).unwrap(), rec);
    // a store that adds blocks rewrites the link of the last block only
    let before = file.as_bytes().clone();
    records.set(&mut file, 1, &rec).unwrap();
    let after = file.as_bytes();
    assert_eq!(&after[..96], &before[..96]);
    assert_eq!(&after[96..104], &(before.len() as u64).to_le_bytes());
    assert_eq!(&after[104..before.len()], &before[104..]);
    // the new block is zero but for the record
    let block = before.len();
    assert!(after[block..block + 8].iter().all(|b| *b == 0));
    assert!(after[block + 8 + 80..].iter().all(|b| *b == 0));
}
