use zksnark_core::field::FieldElement;
use zksnark_core::hashing::hash_pair;
use zksnark_core::merkle::{
    compute_merkle_root, verify_merkle_proof, BoundsError, CapacityError, MerkleTree,
};

fn fe(x: u64) -> FieldElement {
    FieldElement::from_u64(x)
}

#[test]
fn proofs_verify_for_every_inserted_leaf() {
    let mut tree = MerkleTree::new(3);
    let leaves: Vec<FieldElement> = (1..=5).map(fe).collect();
    for leaf in &leaves {
        tree.insert(*leaf).unwrap();
    }
    let root = tree.get_root();
    for (i, leaf) in leaves.iter().enumerate() {
        let (sibs, bits) = tree.get_proof(i as u32).unwrap();
        assert_eq!(sibs.len(), 3);
        assert_eq!(bits.len(), 3);
        assert!(verify_merkle_proof(*leaf, &sibs, &bits, root));
        // the proof does not verify for a different leaf
        assert!(!verify_merkle_proof(fe(99), &sibs, &bits, root));
    }
}

#[test]
fn capacity_is_exactly_two_to_the_depth() {
    let mut tree = MerkleTree::new(2);
    for i in 0..4u64 {
        assert_eq!(tree.insert(fe(i + 1)), Ok(i as u32));
    }
    let root_before = tree.get_root();
    assert_eq!(tree.insert(fe(5)), Err(CapacityError));
    // the failed insert changed nothing
    assert_eq!(tree.get_root(), root_before);
    assert_eq!(tree.leaf_count(), 4);
    let (sibs, bits) = tree.get_proof(3).unwrap();
    assert!(verify_merkle_proof(fe(4), &sibs, &bits, root_before));
}

#[test]
fn depth_two_scenario() {
    // depth-2 tree, capacity 4, zero default element
    let mut tree = MerkleTree::new(2);
    let l0 = fe(10);
    let l1 = fe(11);
    let l2 = fe(12);
    tree.insert(l0).unwrap();
    tree.insert(l1).unwrap();
    tree.insert(l2).unwrap();
    let root = tree.get_root();

    let (sibs, bits) = tree.get_proof(1).unwrap();
    assert_eq!(sibs.len(), 2);
    assert!(verify_merkle_proof(l1, &sibs, &bits, root));

    // leaf 1 is a right child: its sibling is leaf 0
    assert_eq!(sibs[0], l0);
    assert_eq!(bits, vec![false, true]);

    // the root is what hashing along the path gives
    let left = hash_pair(&l0, &l1);
    let right = hash_pair(&l2, &FieldElement::zero());
    assert_eq!(root, hash_pair(&left, &right));

    // swapping the first two leaves changes the root: insertion order counts
    let mut swapped = MerkleTree::new(2);
    swapped.insert(l1).unwrap();
    swapped.insert(l0).unwrap();
    swapped.insert(l2).unwrap();
    assert_ne!(swapped.get_root(), root);
}

#[test]
fn proof_for_missing_leaf_is_bounds_error() {
    let mut tree = MerkleTree::new(4);
    assert_eq!(tree.get_proof(0), Err(BoundsError));
    tree.insert(fe(1)).unwrap();
    assert!(tree.get_proof(0).is_ok());
    assert_eq!(tree.get_proof(1), Err(BoundsError));
    assert_eq!(tree.get_proof(1000), Err(BoundsError));
}

#[test]
fn empty_tree_root_is_zero() {
    let tree = MerkleTree::new(5);
    assert_eq!(tree.get_root(), FieldElement::zero());
    assert!(tree.verify_root(FieldElement::zero()));
    assert!(!tree.verify_root(fe(1)));
}

#[test]
fn batch_insert_matches_sequential() {
    let leaves: Vec<FieldElement> = (1..=6).map(fe).collect();
    let mut batched = MerkleTree::new(3);
    let indices = batched.insert_batch(&leaves).unwrap();
    assert_eq!(indices, vec![0u32, 1, 2, 3, 4, 5]);

    let mut sequential = MerkleTree::new(3);
    for leaf in &leaves {
        sequential.insert(*leaf).unwrap();
    }
    assert_eq!(batched.get_root(), sequential.get_root());
}

#[test]
fn batch_over_capacity_changes_nothing() {
    let mut tree = MerkleTree::new(2);
    tree.insert(fe(1)).unwrap();
    let root = tree.get_root();
    let too_many: Vec<FieldElement> = (2..=5).map(fe).collect();
    assert_eq!(tree.insert_batch(&too_many), Err(CapacityError));
    assert_eq!(tree.get_root(), root);
    assert_eq!(tree.leaf_count(), 1);
    // a batch that exactly fills the tree is fine
    let fits: Vec<FieldElement> = (2..=4).map(fe).collect();
    assert_eq!(tree.insert_batch(&fits), Ok(vec![1u32, 2, 3]));
}

#[test]
fn compute_merkle_root_matches_tree() {
    let leaves: Vec<FieldElement> = (1..=3).map(fe).collect();
    let mut tree = MerkleTree::new(20);
    for leaf in &leaves {
        tree.insert(*leaf).unwrap();
    }
    assert_eq!(compute_merkle_root(&leaves), tree.get_root());
    assert_eq!(compute_merkle_root(&[]), FieldElement::zero());
}

#[test]
fn verify_merkle_proof_rejects_malformed() {
    let mut tree = MerkleTree::new(2);
    tree.insert(fe(1)).unwrap();
    tree.insert(fe(2)).unwrap();
    let root = tree.get_root();
    let (sibs, bits) = tree.get_proof(0).unwrap();
    assert!(verify_merkle_proof(fe(1), &sibs, &bits, root));
    // flipped direction record
    let flipped: Vec<bool> = bits.iter().map(|b| !b).collect();
    assert!(!verify_merkle_proof(fe(1), &sibs, &flipped, root));
    // truncated proof simply fails to match
    assert!(!verify_merkle_proof(fe(1), &sibs[..1], &bits[..1], root));
    // empty proof only matches a root equal to the leaf
    assert!(!verify_merkle_proof(fe(1), &[], &[], root));
    assert!(verify_merkle_proof(fe(1), &[], &[], fe(1)));
}
