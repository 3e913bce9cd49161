use cllx_fs_pro::cli::embedded::{seal_embedded, open_embedded, open_embedded_checked, resolve_secret_key};
use cllx_fs_pro::Error;

fn sample(n: usize) -> Vec<u8> {
    (0..n).map(|i| (i * 31 % 251) as u8).collect()
}

#[test]
fn embedded_key_with_password_round_trip() {
    let data = sample(1000);
    let f = seal_embedded(&data, 300, Some("secret".to_string()), true).unwrap();
    assert_eq!(f.key_data.len(), 2424);
    assert_eq!(&f.key_data[..8], b"CLLX-PWD");
    assert_eq!(f.embedded_key.as_ref().unwrap(), &f.key_data);
    assert_eq!(f.total_chunks, 4);
    assert_eq!(f.chunk_size, 300);
    assert_eq!(f.chunk_sizes, vec![316, 316, 316, 116]);
    assert_eq!(f.encrypted_data.len(), 1000 + 4 * 16);
    let back = open_embedded(&f, None, Some("secret".to_string())).unwrap();
    assert_eq!(back, data);
}

#[test]
fn key_file_without_password_round_trip() {
    let data = sample(77);
    let f = seal_embedded(&data, 10, None, false).unwrap();
    assert!(f.embedded_key.is_none());
    assert_eq!(f.key_data.len(), 2400);
    assert_eq!(f.total_chunks, 8);
    let back = open_embedded(&f, Some(f.key_data.clone()), None).unwrap();
    assert_eq!(back, data);
    assert_eq!(open_embedded_checked(&f, Some(f.key_data.clone()), None), Some(Ok(data)));
}

#[test]
fn every_chunk_is_sealed_as_chunk_zero() {
    // Two equal chunks under the same key, nonce and index give equal ciphertexts.
    let data = vec![7u8; 64];
    let f = seal_embedded(&data, 32, None, true).unwrap();
    assert_eq!(f.chunk_sizes, vec![48, 48]);
    assert_eq!(&f.encrypted_data[..48], &f.encrypted_data[48..]);
}

#[test]
fn empty_input_gives_no_chunks() {
    let f = seal_embedded(&[], 16, None, true).unwrap();
    assert_eq!(f.total_chunks, 0);
    assert!(f.encrypted_data.is_empty());
    assert_eq!(open_embedded(&f, None, None).unwrap(), Vec::<u8>::new());
}

#[test]
fn protected_key_needs_a_password() {
    let f = seal_embedded(b"hello", 4, Some("pw".to_string()), true).unwrap();
    match open_embedded(&f, None, None) {
        Err(Error::InvalidInput(m)) => assert_eq!(m, "This file requires a password to decrypt"),
        other => panic!("unexpected {:?}", other),
    }
}

#[test]
fn wrong_password_is_invalid_input() {
    let f = seal_embedded(b"hello world", 4, Some("right".to_string()), true).unwrap();
    assert!(matches!(open_embedded(&f, None, Some("wrong".to_string())), Err(Error::InvalidInput(_))));
}

#[test]
fn embedded_key_is_preferred_over_key_file() {
    let f = seal_embedded(b"prefer the embedded key", 8, None, true).unwrap();
    // A key file of the wrong size is not even looked at.
    assert_eq!(open_embedded(&f, Some(vec![1, 2, 3]), None).unwrap(), b"prefer the embedded key".to_vec());
}

#[test]
fn missing_or_malformed_key_is_invalid_input() {
    let f = seal_embedded(b"data", 8, None, false).unwrap();
    assert!(matches!(open_embedded(&f, None, None), Err(Error::InvalidInput(_))));
    match resolve_secret_key(&None, Some(vec![0u8; 100]), &None) {
        Err(Error::InvalidInput(m)) => {
            assert_eq!(m, "Invalid key file format: expected 2400 bytes or password-protected key, got 100 bytes")
        },
        other => panic!("unexpected {:?}", other),
    }
    assert!(matches!(open_embedded_checked(&f, Some(vec![0u8; 5]), None), Some(Err(Error::InvalidInput(_)))));
}

#[test]
fn unusable_secret_key_is_refused_by_the_checked_open() {
    let f = seal_embedded(b"data", 8, None, false).unwrap();
    // 2400 bytes that are not an ML-KEM decapsulation key.
    assert_eq!(open_embedded_checked(&f, Some(vec![0u8; 2400]), None), None);
}

#[test]
fn resolve_unlocks_a_protected_key() {
    let f = seal_embedded(b"x", 8, Some("pw".to_string()), false).unwrap();
    let sk = resolve_secret_key(&None, Some(f.key_data.clone()), &Some("pw".to_string())).unwrap();
    assert_eq!(sk.len(), 2400);
    let g = seal_embedded(b"x", 8, None, false).unwrap();
    assert_eq!(resolve_secret_key(&None, Some(g.key_data.clone()), &Some("ignored".to_string())).unwrap(), g.key_data);
}
