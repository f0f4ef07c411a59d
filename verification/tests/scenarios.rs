use merkle_tree::hash::{DebugHasher, Md5Hasher};
use merkle_tree::merkle_tree::MerkleTree;

fn debug_tree_of(items: &[Vec<u8>]) -> MerkleTree<Vec<u8>, DebugHasher> {
    let mut t = MerkleTree::new(DebugHasher);
    for item in items {
        t.insert(item.clone());
    }
    t
}

#[test]
fn one_leaf_root_is_leaf() {
    let t = debug_tree_of(&[vec![1]]);
    assert_eq!(t.get_crc(), vec![1]);
}

#[test]
fn two_leaves_concatenate() {
    let t = debug_tree_of(&[vec![1], vec![2]]);
    assert_eq!(t.get_crc(), vec![1, 2]);
}

#[test]
fn three_leaves_left_heavy() {
    let t = debug_tree_of(&[vec![1], vec![2], vec![3]]);
    assert_eq!(t.get_crc(), vec![1, 2, 3]);
}

#[test]
fn four_leaves_two_pairs() {
    let t = debug_tree_of(&[vec![1], vec![2], vec![3], vec![4]]);
    assert_eq!(t.get_crc(), vec![1, 2, 3, 4]);
}

#[test]
fn five_leaves_ceiling_split() {
    let t = debug_tree_of(&[vec![1], vec![2], vec![3], vec![4], vec![5]]);
    assert_eq!(t.get_crc(), vec![1, 2, 3, 4, 5]);
}

#[test]
fn md5_pair_matches_hash_of_concatenated_leaf_digests() {
    let mut t = MerkleTree::new(Md5Hasher);
    t.insert(vec![1u8]);
    t.insert(vec![2u8]);
    let root = t.get_crc();
    assert_eq!(root.len(), 16);

    let d1 = md5::compute(&[1u8]).0.to_vec();
    let d2 = md5::compute(&[2u8]).0.to_vec();
    let mut combined = d1.clone();
    combined.extend_from_slice(&d2);
    let expected = md5::compute(&combined).0.to_vec();
    assert_eq!(root, expected);

    let mut swapped = MerkleTree::new(Md5Hasher);
    swapped.insert(vec![2u8]);
    swapped.insert(vec![1u8]);
    let swapped_root = swapped.get_crc();
    assert_eq!(swapped_root.len(), 16);
    assert_ne!(root, swapped_root);
}
