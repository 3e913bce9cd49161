use cllx_fs_pro::merkle::{MerkleTree, MerkleTreeV2, MerkleProof};

#[test]
fn test_merkle_tree_v2() {
    let chunk1 = b"chunk 1";
    let chunk2 = b"chunk 2";
    let chunk3 = b"chunk 3";
    let hash1 = MerkleTreeV2::hash_chunk(chunk1);
    let hash2 = MerkleTreeV2::hash_chunk(chunk2);
    let hash3 = MerkleTreeV2::hash_chunk(chunk3);
    let tree = MerkleTreeV2::build(&[hash1, hash2, hash3]);
    assert!(tree.verify_chunk(0, &hash1));
    assert!(tree.verify_chunk(1, &hash2));
    assert!(tree.verify_chunk(2, &hash3));
    assert!(tree.verify_full(&[hash1, hash2, hash3]));
}

#[test]
fn test_merkle_proof() {
    let hashes: Vec<[u8; 32]> = (0..4).map(|i| MerkleTreeV2::hash_chunk(&[i])).collect();
    let tree = MerkleTreeV2::build(&hashes);
    for i in 0..4 {
        let proof = tree.generate_proof(i).unwrap();
        assert!(tree.verify_proof(&proof));
    }
}

#[test]
fn proofs_verify_for_odd_sizes_and_reject_tampering() {
    for n in 1..9u8 {
        let hashes: Vec<[u8; 32]> = (0..n).map(|i| MerkleTreeV2::hash_chunk(&[i, 1])).collect();
        let tree = MerkleTreeV2::build(&hashes);
        for i in 0..n as usize {
            let proof = tree.generate_proof(i).unwrap();
            assert_eq!(proof.leaf_index, i);
            assert_eq!(proof.leaf_hash, hashes[i]);
            assert!(tree.verify_proof(&proof));
            let forged = MerkleProof { leaf_index: i, leaf_hash: [0u8; 32], siblings: proof.siblings.clone() };
            assert!(!tree.verify_proof(&forged));
        }
        assert!(tree.generate_proof(n as usize).is_none());
    }
}

#[test]
fn full_and_range_verification() {
    let hashes: Vec<[u8; 32]> = (0..5u8).map(|i| MerkleTreeV2::hash_chunk(&[i])).collect();
    let tree = MerkleTreeV2::build(&hashes);
    assert!(tree.verify_full(&hashes));
    assert!(tree.verify_range(1, 4, &hashes[1..4]));
    assert!(!tree.verify_range(1, 4, &hashes[0..3]));
    let mut changed = hashes.clone();
    changed[4] = [0u8; 32];
    assert!(!tree.verify_full(&changed));
    assert!(!tree.verify_full(&hashes[..4]));
}

#[test]
fn first_version_tree_matches_second_version() {
    for n in 1..9usize {
        let leaves: Vec<[u8; 32]> = (0..n).map(|i| MerkleTree::hash_chunk(&[i as u8])).collect();
        let v1 = MerkleTree::build(&leaves);
        let v2 = MerkleTreeV2::build(&leaves);
        assert_eq!(v1.root_hash, v2.root_hash);
        assert_eq!(v1.nodes, v2.nodes);
        assert_eq!(v1.leaf_count, n);
    }
}

#[test]
fn first_version_root_covers_every_leaf() {
    let a = [MerkleTree::hash_chunk(b"a"), MerkleTree::hash_chunk(b"b"), MerkleTree::hash_chunk(b"c")];
    let b = [MerkleTree::hash_chunk(b"a"), MerkleTree::hash_chunk(b"b"), MerkleTree::hash_chunk(b"d")];
    assert_ne!(MerkleTree::build(&a).root_hash, MerkleTree::build(&b).root_hash);
    // Three leaves: the pair level has two nodes, then the root.
    assert_eq!(MerkleTree::build(&a).nodes.len(), 3 + 2 + 1);
}

#[test]
fn verify_range_accepts_short_and_empty_slices() {
    let hashes: Vec<[u8; 32]> = (0..5u8).map(|i| MerkleTreeV2::hash_chunk(&[i])).collect();
    let tree = MerkleTreeV2::build(&hashes);
    assert!(tree.verify_range(1, 4, &hashes[1..3]));
    assert!(tree.verify_range(2, 3, &[]));
    assert!(!tree.verify_range(3, 3, &[]));
    assert!(!tree.verify_range(1, 6, &hashes[1..2]));
    assert!(!tree.verify_range(1, 3, &hashes[1..4]));
}

#[test]
fn proof_with_another_leaf_hash_is_refused() {
    let hashes: Vec<[u8; 32]> = (0..4u8).map(|i| MerkleTreeV2::hash_chunk(&[i])).collect();
    let tree = MerkleTreeV2::build(&hashes);
    for i in 0..4 {
        let mut p = tree.generate_proof(i).unwrap();
        assert!(tree.verify_proof(&p));
        p.leaf_hash = MerkleTreeV2::hash_chunk(b"other");
        assert!(!tree.verify_proof(&p));
    }
}
