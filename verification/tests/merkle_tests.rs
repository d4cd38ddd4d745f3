use sentinel::merkle::MerkleTree;

fn fill(b: u8) -> Vec<u8> {
    vec![b; 32]
}

#[test]
fn test_empty_tree() {
    let mut tree = MerkleTree::new();
    assert!(tree.is_empty());
    assert_eq!(tree.len(), 0);
    assert_eq!(tree.get_root(), vec![0u8; 32]);
}

#[test]
fn test_single_leaf() {
    let mut tree = MerkleTree::new();
    let hash = fill(1);
    tree.insert("tool", hash.clone());

    assert_eq!(tree.len(), 1);
    assert_eq!(tree.get("tool"), Some(hash.clone()));
    assert_eq!(tree.get_root(), hash);
}

#[test]
fn test_two_leaves() {
    let mut tree = MerkleTree::new();
    tree.insert("a", fill(1));
    tree.insert("b", fill(2));

    let root = tree.get_root();
    assert_ne!(root, vec![0u8; 32]);
    assert_ne!(root, fill(1));
    assert_ne!(root, fill(2));
}

#[test]
fn test_root_changes_with_insertion() {
    let mut tree = MerkleTree::new();
    tree.insert("a", fill(1));
    let root1 = tree.get_root();

    tree.insert("b", fill(2));
    let root2 = tree.get_root();

    assert_ne!(root1, root2);
}

#[test]
fn test_root_deterministic() {
    let mut tree1 = MerkleTree::new();
    tree1.insert("a", fill(1));
    tree1.insert("b", fill(2));

    let mut tree2 = MerkleTree::new();
    tree2.insert("b", fill(2));
    tree2.insert("a", fill(1));

    assert_eq!(tree1.get_root(), tree2.get_root());
}

#[test]
fn test_proof_single_leaf() {
    let mut tree = MerkleTree::new();
    tree.insert("tool", fill(1));

    let root = tree.get_root();
    let proof = tree.get_proof("tool").unwrap();

    assert!(MerkleTree::verify_proof(&proof, &root));
}

#[test]
fn test_proof_two_leaves() {
    let mut tree = MerkleTree::new();
    tree.insert("a", fill(1));
    tree.insert("b", fill(2));

    let root = tree.get_root();

    let proof_a = tree.get_proof("a").unwrap();
    let proof_b = tree.get_proof("b").unwrap();

    assert!(MerkleTree::verify_proof(&proof_a, &root));
    assert!(MerkleTree::verify_proof(&proof_b, &root));
}

#[test]
fn test_proof_multiple_leaves() {
    let mut tree = MerkleTree::new();
    for i in 0..5u8 {
        let mut hash = vec![0u8; 32];
        hash[0] = i;
        tree.insert(&format!("tool_{}", i), hash);
    }

    let root = tree.get_root();

    for i in 0..5u8 {
        let proof = tree.get_proof(&format!("tool_{}", i)).unwrap();
        assert!(MerkleTree::verify_proof(&proof, &root));
    }
}

#[test]
fn test_proof_fails_with_wrong_root() {
    let mut tree = MerkleTree::new();
    tree.insert("tool", fill(1));

    let proof = tree.get_proof("tool").unwrap();
    let fake_root = vec![0u8; 32];

    assert!(!MerkleTree::verify_proof(&proof, &fake_root));
}

#[test]
fn test_proof_not_found() {
    let mut tree = MerkleTree::new();
    tree.insert("tool", fill(1));

    assert!(tree.get_proof("nonexistent").is_none());
}

#[test]
fn test_remove_leaf() {
    let mut tree = MerkleTree::new();
    tree.insert("a", fill(1));
    tree.insert("b", fill(2));

    let root_before = tree.get_root();
    tree.remove("b");
    let root_after = tree.get_root();

    assert_ne!(root_before, root_after);
    assert_eq!(tree.len(), 1);
}

#[test]
fn test_merkle_empty_tree() {
    let mut tree = MerkleTree::new();
    assert!(tree.is_empty());
    assert_eq!(tree.get_root(), vec![0u8; 32]);
}

#[test]
fn test_merkle_root_changes_with_insertions() {
    let mut tree = MerkleTree::new();

    let root0 = tree.get_root();

    tree.insert("a", fill(1));
    let root1 = tree.get_root();

    tree.insert("b", fill(2));
    let root2 = tree.get_root();

    tree.insert("c", fill(3));
    let root3 = tree.get_root();

    assert_ne!(root0, root1);
    assert_ne!(root1, root2);
    assert_ne!(root2, root3);
}

#[test]
fn test_merkle_proof_verification() {
    let mut tree = MerkleTree::new();

    for i in 0..10u8 {
        let mut hash = vec![0u8; 32];
        hash[0] = i;
        tree.insert(&format!("tool_{}", i), hash);
    }

    let root = tree.get_root();

    for i in 0..10u8 {
        let proof = tree.get_proof(&format!("tool_{}", i)).unwrap();
        assert!(MerkleTree::verify_proof(&proof, &root));
    }
}

#[test]
fn test_merkle_proof_fails_with_wrong_root() {
    let mut tree = MerkleTree::new();
    tree.insert("tool", fill(1));

    let proof = tree.get_proof("tool").unwrap();
    let fake_root = vec![99u8; 32];

    assert!(!MerkleTree::verify_proof(&proof, &fake_root));
}

#[test]
fn test_merkle_insertion_order_independent() {
    let mut tree1 = MerkleTree::new();
    tree1.insert("a", fill(1));
    tree1.insert("b", fill(2));
    tree1.insert("c", fill(3));

    let mut tree2 = MerkleTree::new();
    tree2.insert("c", fill(3));
    tree2.insert("a", fill(1));
    tree2.insert("b", fill(2));

    assert_eq!(tree1.get_root(), tree2.get_root());
}

// a tampered leaf digest makes the issued proof fail against the root
#[test]
fn test_tampered_proof_rejected() {
    let mut tree = MerkleTree::new();
    tree.insert("a", fill(1));
    tree.insert("b", fill(2));
    tree.insert("c", fill(3));

    let root = tree.get_root();
    let mut proof = tree.get_proof("b").unwrap();
    proof.leaf_hash[0] ^= 0xFF;
    assert!(!MerkleTree::verify_proof(&proof, &root));
}

// overwriting a leaf under the same name keeps the tree size and moves
// the root only when the digest changed
#[test]
fn test_insert_overwrites() {
    let mut tree = MerkleTree::new();
    tree.insert("a", fill(1));
    tree.insert("b", fill(2));
    let root1 = tree.get_root();

    tree.insert("a", fill(1));
    assert_eq!(tree.len(), 2);
    assert_eq!(tree.get_root(), root1);

    tree.insert("a", fill(9));
    assert_eq!(tree.len(), 2);
    assert_ne!(tree.get_root(), root1);
}
