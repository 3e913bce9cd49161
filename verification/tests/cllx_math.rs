use cllx_fs_pro::cllx_math::CllxTransform;
use cllx_fs_pro::cllx_math::encode::{encode_chunk, decode_chunk};
use cllx_fs_pro::cllx_math::mask::{generate_mask, apply_mask, remove_mask};
use cllx_fs_pro::cllx_math::matrix::DiffusionMatrix;

#[test]
fn test_encode_decode_roundtrip() {
    let original = b"Hello, cllX-FS! This is a test message.";
    let poly = encode_chunk(original);
    let decoded = decode_chunk(&poly);
    assert_eq!(&decoded[..original.len()], original);
}

#[test]
fn test_encode_decode_random() {
    let original: Vec<u8> = (0..1024).map(|i| (i % 256) as u8).collect();
    let poly = encode_chunk(&original);
    let decoded = decode_chunk(&poly);
    assert_eq!(decoded[..original.len()], original[..]);
}

#[test]
fn encode_packs_little_endian_words_with_zero_padding() {
    let poly = encode_chunk(&[1, 2, 3, 4, 5]);
    assert_eq!(poly, vec![0x0403_0201u32, 5]);
    assert_eq!(decode_chunk(&poly), vec![1, 2, 3, 4, 5, 0, 0, 0]);
    assert!(encode_chunk(&[]).is_empty());
}

#[test]
fn test_mask_generation() {
    let k_mask = [42u8; 32];
    let file_nonce = [1u8; 12];
    let chunk_id = 0;
    let mask = generate_mask(&k_mask, &file_nonce, chunk_id, 256);
    assert_eq!(mask.len(), 256);
}

#[test]
fn test_mask_deterministic() {
    let k_mask = [42u8; 32];
    let file_nonce = [1u8; 12];
    let chunk_id = 5;
    let mask1 = generate_mask(&k_mask, &file_nonce, chunk_id, 256);
    let mask2 = generate_mask(&k_mask, &file_nonce, chunk_id, 256);
    assert_eq!(mask1, mask2);
}

#[test]
fn test_mask_different_chunks() {
    let k_mask = [42u8; 32];
    let file_nonce = [1u8; 12];
    let mask1 = generate_mask(&k_mask, &file_nonce, 0, 256);
    let mask2 = generate_mask(&k_mask, &file_nonce, 1, 256);
    assert_ne!(mask1, mask2);
}

#[test]
fn test_apply_remove_mask_roundtrip() {
    let k_mask = [42u8; 32];
    let file_nonce = [1u8; 12];
    let chunk_id = 0;
    let original = vec![1u32, 2, 3, 4, 5, 6, 7, 8];
    let mask = generate_mask(&k_mask, &file_nonce, chunk_id, original.len());
    let masked = apply_mask(&original, &mask);
    let unmasked = remove_mask(&masked, &mask);
    assert_eq!(original, unmasked);
}

#[test]
fn mask_is_not_all_zero_keystream() {
    // A keystream that handed back its zero buffer would give an all-zero mask.
    let mask = generate_mask(&[7u8; 32], &[9u8; 12], 3, 16);
    assert!(mask.iter().any(|&w| w != 0));
}

#[test]
fn apply_mask_wraps_and_stops_at_the_shorter_input() {
    let out = apply_mask(&[u32::MAX, 1, 2], &[2, 3]);
    assert_eq!(out, vec![1, 4]);
    assert_eq!(remove_mask(&[0, 5], &[1, 2, 3]), vec![u32::MAX, 3]);
}

#[test]
fn test_matrix_generation() {
    let seed = [42u8; 32];
    let matrix = DiffusionMatrix::generate(&seed, 16).unwrap();
    assert_eq!(matrix.n, 16);
    assert_eq!(matrix.forward.len(), 16);
    assert_eq!(matrix.inverse.len(), 16);
}

#[test]
fn test_diffusion_size() {
    let seed = [42u8; 32];
    let matrix = DiffusionMatrix::generate(&seed, 16).unwrap();
    let poly = vec![1u32, 2, 3, 4, 5, 6, 7, 8];
    let diffused = matrix.diffuse(&poly);
    assert_eq!(diffused.len(), poly.len());
}

#[test]
fn matrix_is_unit_upper_triangular_with_small_entries() {
    let matrix = DiffusionMatrix::generate(&[3u8; 32], 8).unwrap();
    for i in 0..8 {
        for j in 0..8 {
            let f = matrix.forward[i][j];
            if i == j {
                assert_eq!(f, 1);
            } else if j < i {
                assert_eq!(f, 0);
            } else {
                assert!(f < 256);
            }
        }
    }
    // Some upper entry is nonzero: the random words reached the matrix.
    assert!((0..8).any(|i| (i + 1..8).any(|j| matrix.forward[i][j] != 0)));
}

#[test]
fn diffuse_inv_undoes_diffuse_blockwise() {
    let matrix = DiffusionMatrix::generate(&[11u8; 32], 16).unwrap();
    let poly: Vec<u32> = (0..40u32).map(|i| i.wrapping_mul(2_654_435_761)).collect();
    let diffused = matrix.diffuse(&poly);
    assert_ne!(diffused, poly);
    assert_eq!(matrix.diffuse_inv(&diffused), poly);
}

#[test]
fn test_cllx_math_integration() {
    let master_key = [42u8; 32];
    let transform = CllxTransform::new(&master_key).unwrap();
    let test_data = b"Integration test for cllX-Math layer";
    let file_nonce = [1u8; 12];
    let chunk_id = 0;
    let transformed = transform.pre_encrypt(test_data, &file_nonce, chunk_id).unwrap();
    let recovered = transform.post_decrypt(&transformed, &file_nonce, chunk_id).unwrap();
    assert_eq!(&recovered[..test_data.len()], test_data);
}

#[test]
fn test_transform_roundtrip() {
    let master_key = [42u8; 32];
    let transform = CllxTransform::new(&master_key).unwrap();
    let original = b"Hello, cllX-FS! This is a test message for the transform.";
    let file_nonce = [1u8; 12];
    let chunk_id = 0;
    let transformed = transform.pre_encrypt(original, &file_nonce, chunk_id).unwrap();
    let recovered = transform.post_decrypt(&transformed, &file_nonce, chunk_id).unwrap();
    assert_eq!(&recovered[..original.len()], original);
}

#[test]
fn test_transform_different_chunks() {
    let master_key = [42u8; 32];
    let transform = CllxTransform::new(&master_key).unwrap();
    let chunk1 = b"Chunk 1 data";
    let chunk2 = b"Chunk 2 data";
    let file_nonce = [1u8; 12];
    let t1 = transform.pre_encrypt(chunk1, &file_nonce, 0).unwrap();
    let t2 = transform.pre_encrypt(chunk2, &file_nonce, 1).unwrap();
    assert_ne!(t1, t2);
}

#[test]
fn test_transform_large_chunk() {
    let master_key = [42u8; 32];
    let transform = CllxTransform::new(&master_key).unwrap();
    let original: Vec<u8> = (0..1048576).map(|i| (i % 256) as u8).collect();
    let file_nonce = [1u8; 12];
    let chunk_id = 0;
    let transformed = transform.pre_encrypt(&original, &file_nonce, chunk_id).unwrap();
    let recovered = transform.post_decrypt(&transformed, &file_nonce, chunk_id).unwrap();
    assert_eq!(recovered[..original.len()], original[..]);
}

#[test]
fn transform_pads_to_whole_words_with_zeros() {
    let transform = CllxTransform::new(&[5u8; 32]).unwrap();
    let original = b"abcde";
    let t = transform.pre_encrypt(original, &[4u8; 12], 2).unwrap();
    assert_eq!(t.len(), 8);
    assert_ne!(&t[..5], &original[..]);
    let back = transform.post_decrypt(&t, &[4u8; 12], 2).unwrap();
    assert_eq!(back, b"abcde\0\0\0".to_vec());
}

#[test]
fn transform_depends_on_master_key() {
    let a = CllxTransform::new(&[1u8; 32]).unwrap();
    let b = CllxTransform::new(&[2u8; 32]).unwrap();
    let data = [0u8; 64];
    assert_ne!(a.pre_encrypt(&data, &[0u8; 12], 0).unwrap(), b.pre_encrypt(&data, &[0u8; 12], 0).unwrap());
}

#[test]
fn test_cllx_math_basic_roundtrip() {
    let master_key = [42u8; 32];
    let transform = CllxTransform::new(&master_key).unwrap();
    let original = b"Hello, cllX-FS! This is a basic test.";
    let file_nonce = [1u8; 12];
    let chunk_id = 0;
    let transformed = transform.pre_encrypt(original, &file_nonce, chunk_id).unwrap();
    let recovered = transform.post_decrypt(&transformed, &file_nonce, chunk_id).unwrap();
    assert_eq!(&recovered[..original.len()], original, "Basic roundtrip failed!");
}

#[test]
fn test_cllx_math_random_data() {
    let master_key = [123u8; 32];
    let transform = CllxTransform::new(&master_key).unwrap();
    let original: Vec<u8> = (0..1024).map(|i| ((i * 7 + 13) % 256) as u8).collect();
    let file_nonce = [2u8; 12];
    let chunk_id = 5;
    let transformed = transform.pre_encrypt(&original, &file_nonce, chunk_id).unwrap();
    let recovered = transform.post_decrypt(&transformed, &file_nonce, chunk_id).unwrap();
    assert_eq!(&recovered[..original.len()], &original[..], "Random data roundtrip failed!");
}

#[test]
fn test_cllx_math_large_chunk() {
    let master_key = [255u8; 32];
    let transform = CllxTransform::new(&master_key).unwrap();
    let original: Vec<u8> = (0..65536).map(|i| (i % 256) as u8).collect();
    let file_nonce = [3u8; 12];
    let chunk_id = 10;
    let transformed = transform.pre_encrypt(&original, &file_nonce, chunk_id).unwrap();
    let recovered = transform.post_decrypt(&transformed, &file_nonce, chunk_id).unwrap();
    assert_eq!(&recovered[..original.len()], &original[..], "Large chunk roundtrip failed!");
}

#[test]
fn test_cllx_math_different_chunks_different_output() {
    let master_key = [42u8; 32];
    let transform = CllxTransform::new(&master_key).unwrap();
    let data = b"Same data for both chunks";
    let file_nonce = [1u8; 12];
    let t1 = transform.pre_encrypt(data, &file_nonce, 0).unwrap();
    let t2 = transform.pre_encrypt(data, &file_nonce, 1).unwrap();
    assert_ne!(t1, t2, "Different chunk IDs should produce different outputs!");
}

#[test]
fn test_cllx_math_all_zeros() {
    let master_key = [42u8; 32];
    let transform = CllxTransform::new(&master_key).unwrap();
    let original = vec![0u8; 1024];
    let file_nonce = [1u8; 12];
    let chunk_id = 0;
    let transformed = transform.pre_encrypt(&original, &file_nonce, chunk_id).unwrap();
    let recovered = transform.post_decrypt(&transformed, &file_nonce, chunk_id).unwrap();
    assert_eq!(&recovered[..original.len()], &original[..], "All zeros roundtrip failed!");
}

#[test]
fn test_cllx_math_all_ones() {
    let master_key = [42u8; 32];
    let transform = CllxTransform::new(&master_key).unwrap();
    let original = vec![0xFFu8; 1024];
    let file_nonce = [1u8; 12];
    let chunk_id = 0;
    let transformed = transform.pre_encrypt(&original, &file_nonce, chunk_id).unwrap();
    let recovered = transform.post_decrypt(&transformed, &file_nonce, chunk_id).unwrap();
    assert_eq!(&recovered[..original.len()], &original[..], "All ones roundtrip failed!");
}

#[test]
fn test_cllx_math_multiple_chunks_sequence() {
    let master_key = [42u8; 32];
    let transform = CllxTransform::new(&master_key).unwrap();
    let file_nonce = [1u8; 12];
    for chunk_id in 0..10 {
        let original: Vec<u8> = (0..512).map(|i| ((i + chunk_id * 100) % 256) as u8).collect();
        let transformed = transform.pre_encrypt(&original, &file_nonce, chunk_id as u64).unwrap();
        let recovered = transform.post_decrypt(&transformed, &file_nonce, chunk_id as u64).unwrap();
        assert_eq!(&recovered[..original.len()], &original[..], "Chunk {} roundtrip failed!", chunk_id);
    }
}

#[test]
fn test_cllx_math_real_world_text() {
    let master_key = [42u8; 32];
    let transform = CllxTransform::new(&master_key).unwrap();
    let original = b"The quick brown fox jumps over the lazy dog. \
                     This is a real-world text example with punctuation, \
                     numbers like 12345, and special chars: !@#$%^&*()";
    let file_nonce = [1u8; 12];
    let chunk_id = 0;
    let transformed = transform.pre_encrypt(original, &file_nonce, chunk_id).unwrap();
    let recovered = transform.post_decrypt(&transformed, &file_nonce, chunk_id).unwrap();
    assert_eq!(&recovered[..original.len()], original, "Real-world text roundtrip failed!");
}

#[test]
fn mask_nonces_differ_for_ids_below_two_to_the_32() {
    let k = [42u8; 32];
    let n = [1u8; 12];
    let last = generate_mask(&k, &n, 0xFFFF_FFFF, 8);
    let first = generate_mask(&k, &n, 0, 8);
    assert_ne!(last, first);
    assert_eq!(last.len(), 8);
}

#[test]
fn forward_diffusion_undoes_the_inverse() {
    let matrix = DiffusionMatrix::generate(&[21u8; 32], 16).unwrap();
    let poly: Vec<u32> = (0..37u32).map(|i| i.wrapping_mul(0x9E37_79B9)).collect();
    let back = matrix.diffuse(&matrix.diffuse_inv(&poly));
    assert_eq!(back, poly);
}

#[test]
fn mask_uses_the_low_four_bytes_of_the_chunk_id() {
    let k = [42u8; 32];
    let n = [1u8; 12];
    assert_eq!(generate_mask(&k, &n, 0x1_0000_0001, 16), generate_mask(&k, &n, 1, 16));
    assert_ne!(generate_mask(&k, &n, 0x1_0000_0001, 16), generate_mask(&k, &n, 0x1_0000_0002, 16));
}

#[test]
fn transform_round_trip_for_large_chunk_ids() {
    let transform = CllxTransform::new(&[7u8; 32]).unwrap();
    let data = b"large ids are accepted".to_vec();
    let t = transform.pre_encrypt(&data, &[3u8; 12], u64::MAX).unwrap();
    let back = transform.post_decrypt(&t, &[3u8; 12], u64::MAX).unwrap();
    assert_eq!(&back[..data.len()], &data[..]);
    assert_eq!(back.len(), 24);
    assert!(back[data.len()..].iter().all(|&b| b == 0));
}
