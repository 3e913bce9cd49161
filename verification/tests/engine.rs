use cllx_fs_pro::base::{MasterKey, KeyDerivation, CipherType};
use cllx_fs_pro::chunk::{ChunkEngineV2, ChunkAAD};
use cllx_fs_pro::Error;

#[test]
fn test_chunk_engine_v2_with_aad() {
    let data = b"Test data for chunk engine v2";
    let master = MasterKey::generate();
    let tree_root = KeyDerivation::derive_tree_root(&master).unwrap();
    let mask_key = KeyDerivation::derive_mask_key(&master).unwrap();
    let file_nonce = [0u8; 12];
    let aad = ChunkAAD { chunk_id: 0, container_version: 1, file_id: [0u8; 32], total_chunks: 1 };
    let engine = ChunkEngineV2::new(1024, CipherType::Aes256Gcm, true);
    let chunks = vec![data.to_vec()];
    let encrypted = engine.encrypt_chunks_v2(&chunks, &tree_root, &mask_key, &file_nonce, &aad).unwrap();
    let decrypted = engine.decrypt_chunks_v2(&encrypted, &tree_root, &mask_key, &file_nonce, &aad).unwrap();
    assert_eq!(decrypted[0], data);
}

#[test]
fn test_chunk_engine_v2_with_cllx_math() {
    let data = b"Test data for chunk engine v2 with cllX-Math transform layer";
    let master = MasterKey::generate();
    let tree_root = KeyDerivation::derive_tree_root(&master).unwrap();
    let mask_key = KeyDerivation::derive_mask_key(&master).unwrap();
    let file_nonce = [1u8; 12];
    let aad = ChunkAAD { chunk_id: 0, container_version: 1, file_id: [1u8; 32], total_chunks: 1 };
    let engine = ChunkEngineV2::with_cllx_transform(1024, CipherType::Aes256Gcm, true, master.as_bytes()).unwrap();
    let chunks = vec![data.to_vec()];
    let encrypted = engine.encrypt_chunks_v2(&chunks, &tree_root, &mask_key, &file_nonce, &aad).unwrap();
    let decrypted = engine.decrypt_chunks_v2(&encrypted, &tree_root, &mask_key, &file_nonce, &aad).unwrap();
    assert_eq!(decrypted[0], data);
}

#[test]
fn test_chunk_engine_v2_cllx_math_multiple_chunks() {
    let data: Vec<u8> = (0..4096).map(|i| (i % 256) as u8).collect();
    let master = MasterKey::generate();
    let tree_root = KeyDerivation::derive_tree_root(&master).unwrap();
    let mask_key = KeyDerivation::derive_mask_key(&master).unwrap();
    let file_nonce = [2u8; 12];
    let aad = ChunkAAD { chunk_id: 0, container_version: 1, file_id: [2u8; 32], total_chunks: 4 };
    let engine = ChunkEngineV2::with_cllx_transform(1024, CipherType::Aes256Gcm, true, master.as_bytes()).unwrap();
    let chunks: Vec<Vec<u8>> = data.chunks(1024).map(|c| c.to_vec()).collect();
    let encrypted = engine.encrypt_chunks_v2(&chunks, &tree_root, &mask_key, &file_nonce, &aad).unwrap();
    let decrypted = engine.decrypt_chunks_v2(&encrypted, &tree_root, &mask_key, &file_nonce, &aad).unwrap();
    for (i, chunk) in chunks.iter().enumerate() {
        assert_eq!(&decrypted[i], chunk);
    }
}

#[test]
fn aad_encoding_layout() {
    let aad = ChunkAAD { chunk_id: 0x0102, container_version: 7, file_id: [9u8; 32], total_chunks: 3 };
    let bytes = aad.encode();
    assert_eq!(bytes.len(), 8 + 4 + 32 + 8);
    assert_eq!(&bytes[..8], &[2, 1, 0, 0, 0, 0, 0, 0]);
    assert_eq!(&bytes[8..12], &[7, 0, 0, 0]);
    assert_eq!(&bytes[12..44], &[9u8; 32]);
    assert_eq!(&bytes[44..], &[3, 0, 0, 0, 0, 0, 0, 0]);
}

#[test]
fn records_carry_hash_tag_and_length() {
    let engine = ChunkEngineV2::new(64, CipherType::ChaCha20Poly1305, false);
    let chunks = vec![b"first".to_vec(), b"second chunk".to_vec()];
    let aad = ChunkAAD { chunk_id: 0, container_version: 1, file_id: [0u8; 32], total_chunks: 2 };
    let out = engine.encrypt_chunks_v2(&chunks, &[1u8; 32], &[2u8; 32], &[3u8; 12], &aad).unwrap();
    for (i, (ct, rec)) in out.iter().enumerate() {
        assert_eq!(rec.chunk_id, i as u64);
        assert_eq!(rec.offset, 0);
        assert_eq!(rec.length as usize, ct.len());
        assert_eq!(ct.len(), chunks[i].len() + 16);
        assert_eq!(&rec.tag[..], &ct[ct.len() - 16..]);
        assert_eq!(rec.hash, *blake3::hash(&chunks[i]).as_bytes());
    }
}

#[test]
fn tampered_record_hash_is_an_integrity_failure() {
    let engine = ChunkEngineV2::new(64, CipherType::Aes256Gcm, true);
    let chunks = vec![b"masked content".to_vec()];
    let aad = ChunkAAD { chunk_id: 0, container_version: 1, file_id: [0u8; 32], total_chunks: 1 };
    let mut out = engine.encrypt_chunks_v2(&chunks, &[1u8; 32], &[2u8; 32], &[3u8; 12], &aad).unwrap();
    out[0].1.hash[0] ^= 0xff;
    assert_eq!(engine.decrypt_chunks_v2(&out, &[1u8; 32], &[2u8; 32], &[3u8; 12], &aad), Err(Error::IntegrityFailed));
}

#[test]
fn wrong_aad_or_mask_key_fails() {
    let engine = ChunkEngineV2::new(64, CipherType::Aes256Gcm, true);
    let chunks = vec![b"some bytes".to_vec()];
    let aad = ChunkAAD { chunk_id: 0, container_version: 1, file_id: [0u8; 32], total_chunks: 1 };
    let out = engine.encrypt_chunks_v2(&chunks, &[1u8; 32], &[2u8; 32], &[3u8; 12], &aad).unwrap();
    let other = ChunkAAD { total_chunks: 2, ..aad.clone() };
    assert_eq!(engine.decrypt_chunks_v2(&out, &[1u8; 32], &[2u8; 32], &[3u8; 12], &other), Err(Error::AuthFailed));
    // Another mask key unmasks to other bytes, which fail the hash check.
    assert_eq!(engine.decrypt_chunks_v2(&out, &[1u8; 32], &[7u8; 32], &[3u8; 12], &aad), Err(Error::IntegrityFailed));
}

#[test]
fn masking_changes_the_sealed_bytes() {
    let chunks = vec![vec![0u8; 32]];
    let aad = ChunkAAD { chunk_id: 0, container_version: 1, file_id: [0u8; 32], total_chunks: 1 };
    let plain = ChunkEngineV2::new(64, CipherType::Aes256Gcm, false)
        .encrypt_chunks_v2(&chunks, &[1u8; 32], &[2u8; 32], &[3u8; 12], &aad)
        .unwrap();
    let masked = ChunkEngineV2::new(64, CipherType::Aes256Gcm, true)
        .encrypt_chunks_v2(&chunks, &[1u8; 32], &[2u8; 32], &[3u8; 12], &aad)
        .unwrap();
    assert_ne!(plain[0].0, masked[0].0);
}

#[test]
fn cllx_math_round_trip_for_every_length() {
    let master = MasterKey::generate();
    let tree_root = KeyDerivation::derive_tree_root(&master).unwrap();
    let mask_key = KeyDerivation::derive_mask_key(&master).unwrap();
    let file_nonce = [5u8; 12];
    let aad = ChunkAAD { chunk_id: 0, container_version: 1, file_id: [5u8; 32], total_chunks: 9 };
    for masking in [false, true] {
        let engine = ChunkEngineV2::with_cllx_transform(64, CipherType::ChaCha20Poly1305, masking, master.as_bytes()).unwrap();
        let chunks: Vec<Vec<u8>> = (0..9usize).map(|n| (0..n).map(|b| (b * 7 + n) as u8).collect()).collect();
        let encrypted = engine.encrypt_chunks_v2(&chunks, &tree_root, &mask_key, &file_nonce, &aad).unwrap();
        // A chunk padded to whole words carries one more byte: the padding count.
        assert_eq!(encrypted[5].0.len(), 8 + 1 + 16);
        assert_eq!(encrypted[4].0.len(), 4 + 16);
        let decrypted = engine.decrypt_chunks_v2(&encrypted, &tree_root, &mask_key, &file_nonce, &aad).unwrap();
        assert_eq!(decrypted, chunks);
    }
}
