use cllx_fs_pro::cli::{EncryptCommand, DecryptCommand, InfoCommand, VerifyCommand, Language, ProgressBar};
use cllx_fs_pro::cli::keys::{protect_secret_key, is_password_protected, unlock_secret_key, raw_secret_key, password_key_of};
use cllx_fs_pro::Error;
use sha2::{Digest, Sha256};

fn encrypt_cmd(chunk_size: usize, password: Option<&str>) -> EncryptCommand {
    EncryptCommand {
        input_path: "in.txt".to_string(),
        output_path: "out.cllx".to_string(),
        recipients: vec![],
        chunk_size,
        password: password.map(|p| p.to_string()),
    }
}

#[test]
fn password_key_is_sha256_of_password_and_label() {
    let mut h = Sha256::new();
    h.update(b"hunter2");
    h.update(b"cllx-password-key");
    let expected: [u8; 32] = h.finalize().into();
    assert_eq!(password_key_of("hunter2"), expected);
}

#[test]
fn key_file_roundtrip_with_password() {
    let sk = vec![7u8; 2400];
    let data = protect_secret_key(Some("pw"), &sk).unwrap();
    assert_eq!(&data[..8], b"CLLX-PWD");
    assert_eq!(data.len(), 2400 + 24);
    assert!(is_password_protected(&data));
    assert_eq!(unlock_secret_key(&data, "pw").unwrap(), sk);
    assert!(matches!(unlock_secret_key(&data, "wrong"), Err(Error::InvalidInput(_))));
    // Without a password the key file is the key itself.
    assert_eq!(protect_secret_key(None, &sk).unwrap(), sk);
    assert!(!is_password_protected(&sk));
    assert!(!is_password_protected(b"CLLX-PWD"));
}

#[test]
fn raw_key_size_is_checked() {
    assert_eq!(raw_secret_key(vec![1u8; 2400]).unwrap().len(), 2400);
    match raw_secret_key(vec![1u8; 5]) {
        Err(Error::InvalidInput(m)) => assert_eq!(
            m,
            "Invalid key file format: expected 2400 bytes or password-protected key, got 5 bytes"
        ),
        _ => panic!("expected an error"),
    }
}

#[test]
fn seal_then_open_gives_the_file_back() {
    let data: Vec<u8> = (0..5000u32).map(|i| (i * 13 % 251) as u8).collect();
    let cmd = encrypt_cmd(1024, None);
    let sealed = cmd.seal(&data).unwrap();
    assert_eq!(sealed.total_chunks, 5);
    assert_eq!(sealed.chunk_sizes, vec![1040, 1040, 1040, 1040, 920]);
    assert_eq!(sealed.encrypted_data.len(), 5000 + 5 * 16);
    assert_eq!(sealed.key_data.len(), 2400);
    let out = DecryptCommand::open_file_checked(
        &sealed.capsule,
        &sealed.key_data,
        1024,
        &sealed.file_nonce,
        &sealed.chunk_sizes,
        &sealed.encrypted_data,
    )
    .unwrap()
    .unwrap();
    assert_eq!(out, data);
}

#[test]
fn seal_with_password_then_unlock_and_open() {
    let data = b"short file".to_vec();
    let cmd = encrypt_cmd(4, Some("secret"));
    let sealed = cmd.seal(&data).unwrap();
    assert!(is_password_protected(&sealed.key_data));
    let sk = unlock_secret_key(&sealed.key_data, "secret").unwrap();
    let out = DecryptCommand::open_file(&sealed.capsule, &sk, 4, &sealed.file_nonce, &sealed.chunk_sizes, &sealed.encrypted_data)
        .unwrap();
    assert_eq!(out, data);
}

#[test]
fn open_rejects_tampering_and_bad_inputs() {
    let data = vec![1u8; 100];
    let sealed = encrypt_cmd(64, None).seal(&data).unwrap();
    let mut bad = sealed.encrypted_data.clone();
    bad[70] ^= 1;
    let r = DecryptCommand::open_file(&sealed.capsule, &sealed.key_data, 64, &sealed.file_nonce, &sealed.chunk_sizes, &bad);
    assert_eq!(r, Err(Error::AuthFailed));
    assert!(DecryptCommand::open_file_checked(&sealed.capsule, &[0u8; 2400], 64, &sealed.file_nonce, &sealed.chunk_sizes, &sealed.encrypted_data).is_none());
    assert!(DecryptCommand::open_file_checked(&sealed.capsule, &sealed.key_data, 64, &sealed.file_nonce, &[200, 200], &sealed.encrypted_data).is_none());
    let other = encrypt_cmd(64, None).seal(&data).unwrap();
    let r = DecryptCommand::open_file(&sealed.capsule, &other.key_data, 64, &sealed.file_nonce, &sealed.chunk_sizes, &sealed.encrypted_data);
    assert_eq!(r.map(|_| ()), Err(Error::AuthFailed));
}

#[test]
fn empty_file_seals_to_no_chunks() {
    let sealed = encrypt_cmd(16, None).seal(&[]).unwrap();
    assert_eq!(sealed.total_chunks, 0);
    assert!(sealed.encrypted_data.is_empty());
    let out = DecryptCommand::open_file(&sealed.capsule, &sealed.key_data, 16, &sealed.file_nonce, &[], &[]).unwrap();
    assert!(out.is_empty());
}

#[test]
fn key_path_defaults_to_input_with_key_suffix() {
    let d = DecryptCommand { input_path: "a.cllx".to_string(), output_path: "a".to_string(), secret_key_path: None };
    assert_eq!(d.key_path(), "a.cllx.key");
    let d = DecryptCommand { input_path: "a.cllx".to_string(), output_path: "a".to_string(), secret_key_path: Some("k".to_string()) };
    assert_eq!(d.key_path(), "k");
}

#[test]
fn info_and_verify_succeed() {
    assert!(InfoCommand { input_path: "x".to_string() }.execute().is_ok());
    assert!(VerifyCommand { input_path: "x".to_string() }.execute().is_ok());
}

#[test]
fn language_toggle() {
    assert_eq!(Language::English.toggle(), Language::Chinese);
    assert_eq!(Language::Chinese.toggle(), Language::English);
    assert_eq!(Language::English.button_text(), "中");
    assert_eq!(Language::Chinese.button_text(), "Eng");
}

#[test]
fn progress_bar_state() {
    let mut p = ProgressBar::new(10, "Working");
    assert_eq!(p.current(), 0);
    assert_eq!(p.width(), 50);
    assert_eq!(p.message(), "Working");
    p.update(4);
    p.increment(3);
    assert_eq!(p.current(), 7);
    p.finish();
    assert_eq!(p.current(), 10);
    assert_eq!(p.total(), 10);
}
