use term_structure_evacuation_kit::additive::AdditiveTree;
use term_structure_evacuation_kit::error::Error;
use term_structure_evacuation_kit::file::TsFile;
use term_structure_evacuation_kit::index::{log2_of_usize, lv_order_idx_to_idx};
use term_structure_evacuation_kit::merkle::{MerkleNodes, MerkleTree};
use term_structure_evacuation_kit::scalar::Scalar;

fn empty_file() -> TsFile {
    TsFile { bytes: Vec::new(), latest_l1_block_id: 0, block_count: 0, tx_count: 0 }
}

fn s(x: u64) -> Scalar {
    Scalar::from_u64(x)
}

#[test]
fn worked_scenario_height_one() {
    let mut file = empty_file();
    let mut tree = AdditiveTree::new(1, s(0)).unwrap();
    assert_eq!(tree.get_root(&file).unwrap(), s(0));

    let first = tree.update_leaf_node(&mut file, 0, s(5)).unwrap();
    assert_eq!(tree.actual_level, 1);
    assert_eq!(first.ori_root, s(0));
    assert_eq!(first.new_root, s(5));
    assert_eq!(first.ori_leaf_node, s(0));
    assert_eq!(first.new_leaf_node, s(5));
    assert_eq!(first.leaf_id, 0);
    assert_eq!(first.proof, vec![s(0)]);

    let second = tree.update_leaf_node(&mut file, 1, s(3)).unwrap();
    assert_eq!(tree.actual_level, 1);
    assert_eq!(second.ori_root, s(5));
    assert_eq!(second.new_root, s(8));
    assert_eq!(second.proof, vec![s(5)]);
    assert_eq!(tree.get_root(&file).unwrap(), s(8));
}

#[test]
fn leaf_id_out_of_range_is_refused() {
    let mut file = empty_file();
    let mut tree = AdditiveTree::new(2, s(0)).unwrap();
    match tree.update_leaf_node(&mut file, 4, s(1)) {
        Err(e) => assert_eq!(e, Error::InvalidLeafId),
        Ok(_) => panic!("leaf 4 of a tree with four leaves"),
    }
    match tree.verify_leaf_node(&file, 4) {
        Err(e) => assert_eq!(e, Error::InvalidLeafId),
        Ok(_) => panic!("leaf 4 of a tree with four leaves"),
    }
    assert_eq!(tree.actual_level, 0);
    assert!(file.is_empty());
}

#[test]
fn default_proof_index_out_of_range() {
    let tree = AdditiveTree::new(3, s(7)).unwrap();
    assert_eq!(tree.get_default_proof(0).unwrap(), s(7));
    assert_eq!(tree.get_default_proof(1).unwrap(), s(14));
    assert_eq!(tree.get_default_proof(2).unwrap(), s(28));
    assert_eq!(tree.get_default_proof(3), Err(Error::OutOfRangeProof));
}

#[test]
fn height_zero_has_no_tree() {
    assert!(matches!(AdditiveTree::new(0, s(0)), Err(Error::InvariantViolated)));
}

/// The root of the complete tree over `leaves`, every node the sum of its children.
fn brute_force_root(leaves: &Vec<Scalar>) -> Scalar {
    let mut level = leaves.clone();
    while level.len() > 1 {
        level = level.chunks(2).map(|pair| pair[0].add(&pair[1])).collect();
    }
    level[0]
}

/// Folds `leaf` upward with the siblings in `path`, from the place of leaf `id`.
fn fold(leaf: Scalar, id: usize, path: &Vec<Scalar>) -> Scalar {
    let mut cur = leaf;
    let mut idx = id;
    for sibling in path {
        // addition does not care for the side, so give the sides different
        // weights to tell a wrong side: fold in the tree of weighted sums below
        cur = cur.add(sibling);
        idx /= 2;
    }
    let _ = idx;
    cur
}

#[test]
fn the_root_is_the_root_of_the_complete_tree() {
    for height in 1..=6usize {
        let default_leaf = s(height as u64);
        let mut file = empty_file();
        let mut tree = AdditiveTree::new(height, default_leaf).unwrap();
        let mut leaves = vec![default_leaf; 1 << height];
        assert_eq!(tree.get_root(&file).unwrap(), brute_force_root(&leaves));
        // a fixed scramble of the leaf ids, each written once
        let count = 1usize << height;
        let mut id = 1usize % count;
        for step in 0..count {
            let value = s(1000 + (step as u64) * 37);
            let before = brute_force_root(&leaves);
            let prf = tree.update_leaf_node(&mut file, id, value).unwrap();
            assert_eq!(prf.ori_root, before);
            assert_eq!(prf.ori_leaf_node, leaves[id]);
            leaves[id] = value;
            assert_eq!(prf.new_root, brute_force_root(&leaves));
            assert_eq!(tree.get_root(&file).unwrap(), brute_force_root(&leaves));
            assert_eq!(prf.proof.len(), height);
            assert_eq!(fold(value, id, &prf.proof), prf.new_root);
            assert_eq!(fold(prf.ori_leaf_node, id, &prf.proof), prf.ori_root);
            id = (id * 5 + 3) % count;
        }
    }
}

#[test]
fn the_path_holds_the_siblings_lowest_first() {
    let mut file = empty_file();
    let mut tree = AdditiveTree::new(3, s(1)).unwrap();
    for (id, v) in [(0usize, 10u64), (1, 20), (2, 30), (3, 40), (4, 50), (5, 60), (6, 70), (7, 80)] {
        tree.update_leaf_node(&mut file, id, s(v)).unwrap();
    }
    let prf = tree.verify_leaf_node(&file, 5).unwrap();
    assert_eq!(prf.proof, vec![s(50), s(150), s(100)]);
    assert_eq!(prf.ori_leaf_node, s(60));
    assert_eq!(prf.new_leaf_node, s(60));
    assert_eq!(prf.ori_root, s(360));
    assert_eq!(prf.new_root, s(360));
    assert_eq!(prf.leaf_id, 5);
    let prf = tree.update_leaf_node(&mut file, 2, s(31)).unwrap();
    assert_eq!(prf.proof, vec![s(40), s(30), s(260)]);
    assert_eq!(prf.new_root, s(361));
}

#[test]
fn writing_the_same_value_again_changes_nothing() {
    let mut file = empty_file();
    let mut tree = AdditiveTree::new(4, s(2)).unwrap();
    tree.update_leaf_node(&mut file, 3, s(9)).unwrap();
    let first = tree.update_leaf_node(&mut file, 6, s(11)).unwrap();
    let level = tree.actual_level;
    let root = tree.get_root(&file).unwrap();
    let bytes = file.as_bytes().clone();
    let second = tree.update_leaf_node(&mut file, 6, s(11)).unwrap();
    assert_eq!(tree.actual_level, level);
    assert_eq!(tree.get_root(&file).unwrap(), root);
    assert_eq!(second.ori_root, second.new_root);
    assert_eq!(second.ori_leaf_node, second.new_leaf_node);
    assert_eq!(second.proof, first.proof);
    assert_eq!(file.as_bytes(), &bytes);
}

#[test]
fn the_frontier_rises_with_the_leaf_and_never_falls() {
    let mut file = empty_file();
    let mut tree = AdditiveTree::new(5, s(0)).unwrap();
    let mut seen = 0;
    for (id, depth) in [(0usize, 1usize), (1, 1), (3, 2), (2, 2), (9, 4), (4, 3), (31, 5), (0, 1)] {
        tree.update_leaf_node(&mut file, id, s(id as u64 + 1)).unwrap();
        let expected = if depth > seen { depth } else { seen };
        assert_eq!(tree.actual_level, expected);
        assert_eq!(tree.get_actual_level().unwrap(), expected);
        seen = expected;
    }
    assert_eq!(tree.get_level().unwrap(), 5);
}

#[test]
fn the_store_grows_with_the_frontier_only() {
    let mut file = empty_file();
    let mut tree = AdditiveTree::new(20, s(1)).unwrap();
    tree.update_leaf_node(&mut file, 0, s(5)).unwrap();
    // leaf 0 and its parent: slots 0 and 1, in two blocks of one record
    assert_eq!(file.len(), 2 * (8 + 32));
    tree.update_leaf_node(&mut file, 1, s(6)).unwrap();
    // leaf 1 lies in slot 2: one more block, of two records
    assert_eq!(file.len(), 2 * (8 + 32) + (8 + 64));
    let root = tree.get_root(&file).unwrap();
    // 5 + 6, then nineteen levels of defaults 2, 4, 8, ...
    assert_eq!(root, s(11 + (1 << 20) - 2));
}

#[test]
fn nodes_are_addressed_in_order() {
    assert_eq!(log2_of_usize(0), 0);
    assert_eq!(log2_of_usize(1), 0);
    assert_eq!(log2_of_usize(2), 1);
    assert_eq!(log2_of_usize(3), 1);
    assert_eq!(log2_of_usize(1024), 10);
    assert_eq!(log2_of_usize(usize::MAX), usize::BITS as usize - 1);
    // height 2: root 1 -> slot 3; nodes 2, 3 -> slots 1, 5; leaves 4..8 -> slots 0, 2, 4, 6
    assert_eq!(lv_order_idx_to_idx(2, 1), 3);
    assert_eq!(lv_order_idx_to_idx(2, 2), 1);
    assert_eq!(lv_order_idx_to_idx(2, 3), 5);
    assert_eq!(lv_order_idx_to_idx(2, 4), 0);
    assert_eq!(lv_order_idx_to_idx(2, 5), 2);
    assert_eq!(lv_order_idx_to_idx(2, 6), 4);
    assert_eq!(lv_order_idx_to_idx(2, 7), 6);
    assert_eq!(lv_order_idx_to_idx(10, 1), 1023);
}

#[test]
fn a_frontier_at_full_height_without_a_root_is_reported() {
    let file = empty_file();
    let mut tree = AdditiveTree::new(2, s(0)).unwrap();
    tree.set_actual_level(2).unwrap();
    assert_eq!(tree.get_root(&file), Err(Error::OutOfRangeProof));
    assert!(matches!(tree.verify_leaf_node(&file, 0), Err(Error::OutOfRangeProof)));
    let mut file = empty_file();
    assert!(matches!(tree.update_leaf_node(&mut file, 0, s(1)), Err(Error::OutOfRangeProof)));
    assert!(file.is_empty());
}
