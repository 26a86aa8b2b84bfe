use term_structure_evacuation_kit::error::Error;
use term_structure_evacuation_kit::file::{load_fr, load_u64, write_fr, write_u64, TsFile};
use term_structure_evacuation_kit::scalar::Scalar;

#[test]
fn opening_an_empty_region_formats_it() {
    let file = TsFile::open(Vec::new(), Some(41)).unwrap();
    assert_eq!(file.len(), 872);
    assert_eq!(file.latest_l1_block_id, 41);
    assert_eq!(file.block_count, 1);
    assert_eq!(file.tx_count, 0);
    // the medium is all zero, the header too
    assert!(file.as_bytes().iter().all(|b| *b == 0));
    // the counters reach the header with a sync
    let mut file = file;
    file.sync().unwrap();
    let bytes = file.as_bytes();
    assert_eq!(&bytes[0..8], &41u64.to_le_bytes());
    assert_eq!(&bytes[8..16], &1u64.to_le_bytes());
    assert_eq!(&bytes[16..24], &0u64.to_le_bytes());
    assert!(bytes[24..].iter().all(|b| *b == 0));
}

#[test]
fn opening_a_formatted_region_reads_the_header() {
    let mut file = TsFile::open(Vec::new(), Some(7)).unwrap();
    file.block_count = 12;
    file.tx_count = 99;
    file.latest_l1_block_id = 1234;
    let bytes = file.close().unwrap();
    let again = TsFile::open(bytes.clone(), Some(0)).unwrap();
    assert_eq!(again.latest_l1_block_id, 1234);
    assert_eq!(again.block_count, 12);
    assert_eq!(again.tx_count, 99);
    assert_eq!(again.as_bytes(), &bytes);
}

#[test]
fn opening_is_refused_without_anchor_or_with_a_short_header() {
    assert!(matches!(TsFile::open(Vec::new(), None), Err(Error::MissingAnchor)));
    assert!(matches!(TsFile::open(vec![1, 2, 3], None), Err(Error::MissingAnchor)));
    assert!(matches!(TsFile::open(vec![0; 23], Some(1)), Err(Error::CorruptLayout)));
    assert!(TsFile::open(vec![0; 24], Some(1)).is_ok());
}

#[test]
fn allocation_appends_zeros_and_returns_the_old_end() {
    let mut file = TsFile::open(Vec::new(), Some(0)).unwrap();
    let at = file.alloc_val(10);
    assert_eq!(at, 872);
    assert_eq!(file.len(), 882);
    let block = file.alloc_arr(32, 4);
    assert_eq!(block, 882);
    assert_eq!(file.len(), 882 + 8 + 128);
    assert!(file.as_bytes()[872..].iter().all(|b| *b == 0));
}

#[test]
fn reads_past_the_end_are_zero() {
    let file = TsFile { bytes: vec![1, 2, 3], latest_l1_block_id: 0, block_count: 0, tx_count: 0 };
    assert_eq!(file.read(1, 4), vec![2, 3, 0, 0]);
    assert_eq!(file.read(10, 2), vec![0, 0]);
    assert_eq!(file.read(usize::MAX, 2), vec![0, 0]);
    assert_eq!(file.read(0, 0), Vec::<u8>::new());
}

#[test]
fn writes_pad_cut_and_extend() {
    let mut file = TsFile { bytes: vec![9; 4], latest_l1_block_id: 0, block_count: 0, tx_count: 0 };
    file.write(1, &vec![1, 2], 2);
    assert_eq!(file.as_bytes(), &vec![9, 1, 2, 9]);
    file.write(0, &vec![7], 3);
    assert_eq!(file.as_bytes(), &vec![7, 0, 0, 9]);
    file.write(0, &vec![5, 6, 7], 1);
    assert_eq!(file.as_bytes(), &vec![5, 0, 0, 9]);
    file.write(6, &vec![4, 4], 2);
    assert_eq!(file.as_bytes(), &vec![5, 0, 0, 9, 0, 0, 4, 4]);
    file.write(3, &vec![], 0);
    assert_eq!(file.len(), 8);
}

#[test]
fn numbers_and_elements_round_trip() {
    let mut file = TsFile::open(Vec::new(), Some(0)).unwrap();
    write_u64(&mut file, 100, 0x0102030405060708);
    assert_eq!(load_u64(&file, 100), 0x0102030405060708);
    assert_eq!(file.as_bytes()[100], 0x08);
    let x = Scalar::from_u64(77).pow(9);
    write_fr(&mut file, 200, x);
    assert_eq!(load_fr(&file, 200), x);
    assert_eq!(file.len(), 872);
    assert_eq!(load_u64(&file, 870), 0);
}

#[test]
fn sync_writes_the_counters() {
    let mut file = TsFile::open(Vec::new(), Some(5)).unwrap();
    file.tx_count = 3;
    file.sync().unwrap();
    assert_eq!(load_u64(&file, 0), 5);
    assert_eq!(load_u64(&file, 8), 1);
    assert_eq!(load_u64(&file, 16), 3);
}
