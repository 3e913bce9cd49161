use cllx_fs_pro::base::{MasterKey, KeyDerivation, AeadCipher, CipherType};
use cllx_fs_pro::chunk::ChunkEngine;
use cllx_fs_pro::merkle::MerkleTree;
use cllx_fs_pro::Error;

#[test]
fn test_basic_workflow() {
    // Basic integration test placeholder
}

#[test]
fn test_key_derivation() {
    let master = MasterKey::generate();
    let tree_root = KeyDerivation::derive_tree_root(&master).unwrap();
    let chunk_key = KeyDerivation::derive_chunk_key(&tree_root, 0).unwrap();
    assert_eq!(tree_root.len(), 32);
    assert_eq!(chunk_key.len(), 32);
}

#[test]
fn test_chunk_encryption() {
    let data = b"Hello, cllX-FS-Pro!";
    let master = MasterKey::generate();
    let tree_root = KeyDerivation::derive_tree_root(&master).unwrap();
    let file_nonce = [0u8; 12];
    let engine = ChunkEngine::new(1024, CipherType::Aes256Gcm);
    let chunks: Vec<Vec<u8>> = vec![data.to_vec()];
    let original_sizes: Vec<usize> = chunks.iter().map(|c| c.len()).collect();
    let encrypted = engine.encrypt_chunks(&chunks, &tree_root, &file_nonce).unwrap();
    let decrypted = engine.decrypt_chunks(&encrypted, &tree_root, &file_nonce, &original_sizes).unwrap();
    assert_eq!(decrypted[0], data);
}

#[test]
fn test_merkle_tree() {
    let chunk1 = b"chunk 1";
    let chunk2 = b"chunk 2";
    let hash1 = MerkleTree::hash_chunk(chunk1);
    let hash2 = MerkleTree::hash_chunk(chunk2);
    let tree = MerkleTree::build(&[hash1, hash2]);
    assert!(tree.verify_chunk(0, &hash1));
    assert!(tree.verify_chunk(1, &hash2));
}

#[test]
fn key_derivation_is_deterministic_and_label_separated() {
    let master = MasterKey::from_bytes([9u8; 32]);
    let a = KeyDerivation::derive_tree_root(&master).unwrap();
    let b = KeyDerivation::derive_tree_root(&master).unwrap();
    assert_eq!(a, b);
    let auth = KeyDerivation::derive_auth_key(&master).unwrap();
    let mask = KeyDerivation::derive_mask_key(&master).unwrap();
    assert_ne!(a, auth);
    assert_ne!(a, mask);
    assert_ne!(auth, mask);
    assert_ne!(a, [9u8; 32]);
    let c0 = KeyDerivation::derive_chunk_key(&a, 0).unwrap();
    let c10 = KeyDerivation::derive_chunk_key(&a, 10).unwrap();
    assert_ne!(c0, c10);
}

#[test]
fn master_keys_are_fresh() {
    assert_ne!(MasterKey::generate().as_bytes(), MasterKey::generate().as_bytes());
    assert_eq!(MasterKey::from_bytes([3u8; 32]).as_bytes(), &[3u8; 32]);
}

#[test]
fn aead_roundtrip_and_tamper_detection_both_ciphers() {
    for t in [CipherType::Aes256Gcm, CipherType::ChaCha20Poly1305] {
        let c = AeadCipher::new(t);
        let key = [1u8; 32];
        let nonce = [2u8; 12];
        let ct = c.encrypt(&key, &nonce, b"payload", b"aad").unwrap();
        assert_eq!(ct.len(), 7 + 16);
        assert_ne!(&ct[..7], b"payload");
        assert_eq!(c.decrypt(&key, &nonce, &ct, b"aad").unwrap(), b"payload".to_vec());
        assert_eq!(c.decrypt(&key, &nonce, &ct, b"other"), Err(Error::AuthFailed));
        let mut bad = ct.clone();
        bad[0] ^= 1;
        assert_eq!(c.decrypt(&key, &nonce, &bad, b"aad"), Err(Error::AuthFailed));
        assert_eq!(c.decrypt(&key, &nonce, &ct[..10], b"aad"), Err(Error::AuthFailed));
    }
}

#[test]
fn chunk_decryption_fails_with_wrong_size_or_key() {
    let engine = ChunkEngine::new(8, CipherType::ChaCha20Poly1305);
    let root = [4u8; 32];
    let nonce = [5u8; 12];
    let chunks = vec![b"abcdefgh".to_vec(), b"xyz".to_vec()];
    let enc = engine.encrypt_chunks(&chunks, &root, &nonce).unwrap();
    assert_eq!(enc.len(), 2);
    assert_eq!(engine.decrypt_chunks(&enc, &root, &nonce, &[8, 3]).unwrap(), chunks);
    assert_eq!(engine.decrypt_chunks(&enc, &root, &nonce, &[8, 4]), Err(Error::AuthFailed));
    assert_eq!(engine.decrypt_chunks(&enc, &[6u8; 32], &nonce, &[8, 3]), Err(Error::AuthFailed));
    // Swapping two ciphertexts breaks their per-chunk keys.
    let swapped = vec![enc[1].clone(), enc[0].clone()];
    assert_eq!(engine.decrypt_chunks(&swapped, &root, &nonce, &[3, 8]), Err(Error::AuthFailed));
}

#[test]
fn split_cuts_at_chunk_size() {
    let engine = ChunkEngine::new(4, CipherType::Aes256Gcm);
    let pieces = engine.split(b"abcdefghij");
    assert_eq!(pieces, vec![&b"abcd"[..], &b"efgh"[..], &b"ij"[..]]);
    assert!(engine.split(b"").is_empty());
}

#[test]
fn merkle_tree_rejects_wrong_hashes() {
    let h: Vec<[u8; 32]> = (0..3u8).map(|i| MerkleTree::hash_chunk(&[i])).collect();
    let tree = MerkleTree::build(&h);
    assert!(tree.verify_chunk(2, &h[2]));
    assert!(!tree.verify_chunk(2, &h[1]));
    assert!(!tree.verify_chunk(3, &h[0]));
    assert_eq!(tree.leaf_count, 3);
    assert_ne!(MerkleTree::hash_chunk(b"a"), MerkleTree::hash_chunk(b"b"));
}

#[test]
fn error_messages() {
    assert_eq!(Error::AuthFailed.message(), "Authentication failed");
    assert_eq!(Error::InvalidInput("x".to_string()).message(), "Invalid input: x");
    assert_eq!(Error::TimeLocked.message(), "Time-lock not expired");
}
