use cllx_fs_pro::base::MasterKey;
use cllx_fs_pro::stealth::StealthMode;
use cllx_fs_pro::Error;

#[test]
fn test_header_offset_deterministic() {
    let master = MasterKey::generate();
    let offset1 = StealthMode::calculate_header_offset(&master, 1000000);
    let offset2 = StealthMode::calculate_header_offset(&master, 1000000);
    assert_eq!(offset1, offset2);
}

#[test]
fn test_header_encryption() {
    let master = MasterKey::generate();
    let header = b"test header data";
    let encrypted = StealthMode::encrypt_header(header, &master).unwrap();
    let decrypted = StealthMode::decrypt_header(&encrypted, &master).unwrap();
    assert_eq!(header.as_slice(), decrypted.as_slice());
}

#[test]
fn test_stealth_container_roundtrip() {
    let master = MasterKey::generate();
    let header = b"my secret header";
    let container = StealthMode::create_stealth_container(header, &master, 10000).unwrap();
    assert!(container.len() >= 10000);
    let encrypted_size = StealthMode::encrypt_header(header, &master).unwrap().len();
    let extracted = StealthMode::extract_header(&container, &master, encrypted_size).unwrap();
    assert_eq!(header.as_slice(), extracted.as_slice());
}

#[test]
fn offset_is_below_the_bound_and_key_dependent() {
    let a = MasterKey::from_bytes([1u8; 32]);
    let b = MasterKey::from_bytes([2u8; 32]);
    for m in [1u64, 7, 1000, 1 << 20] {
        assert!(StealthMode::calculate_header_offset(&a, m) < m);
    }
    assert_eq!(StealthMode::calculate_header_offset(&a, 1), 0);
    assert_ne!(
        StealthMode::calculate_header_offset(&a, u64::MAX),
        StealthMode::calculate_header_offset(&b, u64::MAX)
    );
}

#[test]
fn padding_is_deterministic_and_sized() {
    let p = StealthMode::generate_padding(100, b"seed");
    assert_eq!(p.len(), 100);
    assert_eq!(p, StealthMode::generate_padding(100, b"seed"));
    assert_ne!(p, vec![0u8; 100]);
    assert_eq!(&StealthMode::generate_padding(10, b"seed")[..], &p[..10]);
}

#[test]
fn layout_and_wrong_key() {
    let key = MasterKey::from_bytes([3u8; 32]);
    let header = b"hdr";
    let c = StealthMode::create_stealth_container(header, &key, 500).unwrap();
    assert_eq!(c.len(), 500);
    let off = StealthMode::calculate_header_offset(&key, 250) as usize;
    let sealed = StealthMode::encrypt_header(header, &key).unwrap();
    assert_eq!(&c[off..off + sealed.len()], &sealed[..]);
    let other = MasterKey::from_bytes([4u8; 32]);
    match StealthMode::extract_header_checked(&c, &other, sealed.len()) {
        Some(r) => assert_eq!(r, Err(Error::AuthFailed)),
        None => {}
    }
    assert!(StealthMode::extract_header_checked(&c[..1], &key, 19).is_none());
    assert_eq!(StealthMode::extract_header_checked(&c, &key, sealed.len()), Some(Ok(header.to_vec())));
}

#[test]
fn small_total_size_still_holds_the_header() {
    let key = MasterKey::from_bytes([5u8; 32]);
    let c = StealthMode::create_stealth_container(b"a longer header than the total", &key, 4).unwrap();
    assert!(c.len() >= 30 + 16);
}
