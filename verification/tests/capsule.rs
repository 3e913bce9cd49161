use cllx_fs_pro::base::MasterKey;
use cllx_fs_pro::capsule::{Capsule, CapsuleV2, MlKemKeyPair, MultiRecipientCapsule, MLKEM_PUBLIC_KEY_SIZE, MLKEM_SECRET_KEY_SIZE};
use cllx_fs_pro::capsule::kem::{is_valid_public_key, is_valid_secret_key};
use cllx_fs_pro::Error;

#[test]
fn test_mlkem_keypair_generation() {
    let keypair = MlKemKeyPair::generate().unwrap();
    assert_eq!(keypair.public_key_bytes().len(), MLKEM_PUBLIC_KEY_SIZE);
    assert_eq!(keypair.secret_key_bytes().len(), MLKEM_SECRET_KEY_SIZE);
}

#[test]
fn test_capsule_roundtrip() {
    let keypair = MlKemKeyPair::generate().unwrap();
    let master_key = MasterKey::generate();
    let mask_seed = [42u8; 32];
    let capsule = CapsuleV2::encapsulate(&keypair.public_key, &master_key, &mask_seed).unwrap();
    let (decrypted_master, decrypted_mask) = capsule.decapsulate(&keypair.secret_key).unwrap();
    assert_eq!(master_key.as_bytes(), decrypted_master.as_bytes());
    assert_eq!(mask_seed, decrypted_mask);
}

#[test]
fn test_multi_recipient() {
    let keypair1 = MlKemKeyPair::generate().unwrap();
    let keypair2 = MlKemKeyPair::generate().unwrap();
    let master_key = MasterKey::generate();
    let mask_seed = [99u8; 32];
    let mut multi = MultiRecipientCapsule::new();
    multi.add_recipient(&keypair1.public_key, &master_key, &mask_seed).unwrap();
    multi.add_recipient(&keypair2.public_key, &master_key, &mask_seed).unwrap();
    assert_eq!(multi.recipient_count(), 2);
    let (dec1, mask1) = multi.try_decrypt(&keypair1.secret_key, &keypair1.public_key).unwrap();
    assert_eq!(master_key.as_bytes(), dec1.as_bytes());
    assert_eq!(mask_seed, mask1);
    let (dec2, mask2) = multi.try_decrypt(&keypair2.secret_key, &keypair2.public_key).unwrap();
    assert_eq!(master_key.as_bytes(), dec2.as_bytes());
    assert_eq!(mask_seed, mask2);
}

#[test]
fn test_capsule_placeholder() {
    let master = MasterKey::generate();
    let pk = vec![0u8; 32];
    let capsule = Capsule::encrypt(&pk, &master).unwrap();
    assert!(!capsule.public_ring.is_empty());
    assert_eq!(capsule.trapdoor_ring, vec![0u8; 256]);
    assert_eq!(capsule.mask_ring.len(), 128);
    assert!(matches!(capsule.decrypt(&[]), Err(Error::CapsuleDecryptFailed)));
}

#[test]
fn keys_pass_the_checks_and_hold_each_other() {
    let kp = MlKemKeyPair::generate().unwrap();
    assert!(is_valid_public_key(&kp.public_key));
    assert!(is_valid_secret_key(&kp.secret_key));
    assert_eq!(&kp.secret_key[1152..2336], &kp.public_key[..]);
    assert!(!is_valid_public_key(&kp.public_key[..100]));
    assert!(!is_valid_public_key(&[0xFFu8; 1184]));
    let mut bad = kp.secret_key.clone();
    bad[2340] ^= 1;
    assert!(!is_valid_secret_key(&bad));
}

#[test]
fn capsule_layout_and_tampering() {
    let kp = MlKemKeyPair::generate().unwrap();
    let mk = MasterKey::from_bytes([8u8; 32]);
    let c = CapsuleV2::encapsulate(&kp.public_key, &mk, &[1u8; 32]).unwrap();
    assert_eq!(c.capsule.public_ring.len(), 1088);
    assert_eq!(c.encrypted_master_key.len(), 48);
    assert_eq!(c.capsule.mask_ring.len(), 48);
    assert_eq!(c.recipient_id_hash, *blake3::hash(&kp.public_key).as_bytes());
    let mut t = c.clone();
    t.capsule.trapdoor_ring[0] ^= 1;
    assert!(matches!(t.decapsulate(&kp.secret_key), Err(Error::IntegrityFailed)));
    let mut m = c.clone();
    m.capsule.mask_ring[0] ^= 1;
    assert!(matches!(m.decapsulate(&kp.secret_key), Err(Error::AuthFailed)));
    // Another recipient's key: implicit rejection gives another wrap key.
    let other = MlKemKeyPair::generate().unwrap();
    assert!(matches!(c.decapsulate(&other.secret_key), Err(Error::AuthFailed)));
}

#[test]
fn unknown_recipient_and_checked_decrypt() {
    let kp = MlKemKeyPair::generate().unwrap();
    let stranger = MlKemKeyPair::generate().unwrap();
    let mut multi = MultiRecipientCapsule::default();
    multi.add_recipient(&kp.public_key, &MasterKey::from_bytes([2u8; 32]), &[3u8; 32]).unwrap();
    assert!(matches!(
        multi.try_decrypt(&stranger.secret_key, &stranger.public_key),
        Err(Error::CapsuleDecryptFailed)
    ));
    assert!(multi.try_decrypt_checked(&[0u8; 10], &kp.public_key).is_none());
    let (k, s) = multi.try_decrypt_checked(&kp.secret_key, &kp.public_key).unwrap().unwrap();
    assert_eq!(k.as_bytes(), &[2u8; 32]);
    assert_eq!(s, [3u8; 32]);
}

#[test]
fn key_pair_from_secret_key() {
    assert!(matches!(MlKemKeyPair::from_secret_key(vec![0u8; 10]), Err(Error::InvalidInput(_))));
    let kp = MlKemKeyPair::generate().unwrap();
    let again = MlKemKeyPair::from_secret_key(kp.secret_key.clone()).unwrap();
    assert_eq!(again.secret_key, kp.secret_key);
    assert_eq!(again.public_key, kp.public_key);
    match MlKemKeyPair::from_secret_key(vec![0u8; 7]) {
        Err(Error::InvalidInput(m)) => assert_eq!(m, "Invalid secret key size: expected 2400, got 7"),
        _ => panic!("expected an error"),
    }
}

#[test]
fn unaddressed_key_is_not_checked() {
    let kp = MlKemKeyPair::generate().unwrap();
    let stranger = MlKemKeyPair::generate().unwrap();
    let mut multi = MultiRecipientCapsule::default();
    multi.add_recipient(&kp.public_key, &MasterKey::from_bytes([2u8; 32]), &[3u8; 32]).unwrap();
    // A malformed key that no capsule is addressed to is simply not found.
    assert!(matches!(multi.try_decrypt(&[0u8; 10], &stranger.public_key), Err(Error::CapsuleDecryptFailed)));
    assert!(matches!(
        multi.try_decrypt_checked(&[0u8; 10], &stranger.public_key),
        Some(Err(Error::CapsuleDecryptFailed))
    ));
}

#[test]
fn tampered_capsule_fails_integrity() {
    let kp = MlKemKeyPair::generate().unwrap();
    let mk = MasterKey::from_bytes([5u8; 32]);
    let c = CapsuleV2::encapsulate(&kp.public_key, &mk, &[6u8; 32]).unwrap();
    let mut t = c.clone();
    t.encrypted_master_key[0] ^= 1;
    assert!(matches!(t.decapsulate(&kp.secret_key), Err(Error::IntegrityFailed)));
    let mut u = c.clone();
    u.capsule.public_ring[3] ^= 0x80;
    assert!(matches!(u.decapsulate(&kp.secret_key), Err(Error::IntegrityFailed)));
}
