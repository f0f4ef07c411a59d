use merkle_tree::hash::{debug_hash, DebugHasher, Hasher, Md5Hasher};
use merkle_tree::merkle_tree::{crc_tostring, MerkleTree};

#[test]
fn determinism_two_trees_same_root() {
    let items: Vec<Vec<u8>> = vec![vec![9, 8], vec![7], vec![6, 5, 4], vec![3]];
    let mut t1 = MerkleTree::new(Md5Hasher);
    let mut t2 = MerkleTree::new(Md5Hasher);
    for item in &items {
        t1.insert(item.clone());
    }
    for item in &items {
        t2.insert(item.clone());
    }
    assert_eq!(t1.get_crc(), t2.get_crc());
}

#[test]
fn leaf_hash_law_single_item() {
    let mut t = MerkleTree::new(Md5Hasher);
    t.insert(vec![42u8, 7u8]);
    assert_eq!(t.get_crc(), md5::compute(&[42u8, 7u8]).0.to_vec());
}

#[test]
fn pair_law_two_items() {
    let mut t = MerkleTree::new(Md5Hasher);
    t.insert(vec![10u8]);
    t.insert(vec![20u8]);
    let mut combined = md5::compute(&[10u8]).0.to_vec();
    combined.extend_from_slice(&md5::compute(&[20u8]).0);
    assert_eq!(t.get_crc(), md5::compute(&combined).0.to_vec());
}

#[test]
fn order_sensitivity_two_leaves() {
    let forward = {
        let mut t = MerkleTree::new(Md5Hasher);
        t.insert(vec![1u8]);
        t.insert(vec![2u8]);
        t.get_crc()
    };
    let backward = {
        let mut t = MerkleTree::new(Md5Hasher);
        t.insert(vec![2u8]);
        t.insert(vec![1u8]);
        t.get_crc()
    };
    assert_ne!(forward, backward);
}

#[test]
fn iteration_yields_items_in_insertion_order() {
    let items: Vec<Vec<u8>> = vec![vec![3], vec![1, 4], vec![1, 5, 9]];
    let mut t = MerkleTree::new(DebugHasher);
    for item in &items {
        t.insert(item.clone());
    }
    let mut it = t.iter();
    let mut seen: Vec<Vec<u8>> = Vec::new();
    while let Some(x) = it.next() {
        seen.push(x.clone());
    }
    assert_eq!(seen, items);
    assert_eq!(seen.len(), 3);
}

#[test]
fn iteration_on_empty_tree_yields_nothing() {
    let t: MerkleTree<Vec<u8>, DebugHasher> = MerkleTree::new(DebugHasher);
    assert_eq!(t.len(), 0);
    let mut it = t.iter();
    assert!(it.next().is_none());
    assert!(it.next().is_none());
}

#[test]
fn root_digest_stable_without_insert() {
    let mut t = MerkleTree::new(Md5Hasher);
    t.insert(vec![11u8]);
    t.insert(vec![22u8]);
    t.insert(vec![33u8]);
    assert_eq!(t.get_crc(), t.get_crc());
}

#[test]
fn insertion_grows_iteration_by_one_and_keeps_prefix() {
    let mut t = MerkleTree::new(DebugHasher);
    let mut expected: Vec<Vec<u8>> = Vec::new();
    for b in 1u8..=5u8 {
        t.insert(vec![b]);
        expected.push(vec![b]);
        let mut it = t.iter();
        let mut seen: Vec<Vec<u8>> = Vec::new();
        while let Some(x) = it.next() {
            seen.push(x.clone());
        }
        assert_eq!(seen.len(), expected.len());
        assert_eq!(seen, expected);
        assert_eq!(t.len(), expected.len());
    }
}

#[test]
fn debug_hash_is_identity() {
    assert_eq!(debug_hash(&[1, 2, 3]), vec![1, 2, 3]);
    assert_eq!(debug_hash(&[]), Vec::<u8>::new());
    assert_eq!(DebugHasher.hash(&[5, 6]), vec![5, 6]);
}

#[test]
fn md5_hasher_matches_md5_crate() {
    let h = Md5Hasher;
    let digest = h.hash(b"abc");
    assert_eq!(digest, md5::compute(b"abc").0.to_vec());
    assert_eq!(digest.len(), 16);
    // A well-known digest value, so an identity stand-in would fail.
    assert_eq!(
        crc_tostring(&digest),
        "90 01 50 98 3c d2 4f b0 d6 96 3f 7d 28 e1 7f 72 "
    );
}

#[test]
fn crc_tostring_formats_hex_pairs_with_spaces() {
    assert_eq!(crc_tostring(&vec![10, 31, 43]), "0a 1f 2b ");
    assert_eq!(crc_tostring(&vec![0]), "00 ");
    assert_eq!(crc_tostring(&vec![255, 0, 16]), "ff 00 10 ");
    assert_eq!(crc_tostring(&Vec::new()), "");
}
