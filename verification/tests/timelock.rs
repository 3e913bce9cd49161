use std::time::{SystemTime, UNIX_EPOCH};
use cllx_fs_pro::base::MasterKey;
use cllx_fs_pro::timelock::TimeLock;
use cllx_fs_pro::Error;

fn now() -> u64 {
    SystemTime::now().duration_since(UNIX_EPOCH).unwrap().as_secs()
}

#[test]
fn test_timelock_unlocked() {
    let past_time = now() - 100;
    let timelock = TimeLock::new(past_time);
    assert!(timelock.is_unlocked());
    assert!(timelock.remaining_seconds().is_none());
}

#[test]
fn test_timelock_locked() {
    let future_time = now() + 3600;
    let timelock = TimeLock::new(future_time);
    assert!(!timelock.is_unlocked());
    assert!(timelock.remaining_seconds().is_some());
}

#[test]
fn test_timelock_encrypt_decrypt() {
    let master = MasterKey::generate();
    let data = b"secret data";
    let past_time = now() - 100;
    let timelock = TimeLock::new(past_time);
    let encrypted = timelock.encrypt(&master, data).unwrap();
    let decrypted = timelock.decrypt(&master, &encrypted).unwrap();
    assert_eq!(data.as_slice(), decrypted.as_slice());
}

#[test]
fn test_timelock_prevents_early_decrypt() {
    let master = MasterKey::generate();
    let data = b"secret data";
    let future_time = now() + 3600;
    let timelock = TimeLock::new(future_time);
    let encrypted = timelock.encrypt(&master, data).unwrap();
    let result = timelock.decrypt(&master, &encrypted);
    assert!(result.is_err());
    assert!(matches!(result.unwrap_err(), Error::TimeLocked));
}

#[test]
fn explicit_times() {
    let lock = TimeLock::new(1000);
    assert!(!lock.is_unlocked_at(999));
    assert!(lock.is_unlocked_at(1000));
    assert_eq!(lock.remaining_seconds_at(400), Some(600));
    assert_eq!(lock.remaining_seconds_at(1000), None);
    let master = MasterKey::from_bytes([1u8; 32]);
    assert_eq!(lock.derive_key_at(&master, 10), Err(Error::TimeLocked));
    let k = lock.derive_key_at(&master, 2000).unwrap();
    assert_eq!(lock.derive_key_at(&master, 3000).unwrap(), k);
    assert_ne!(k, [1u8; 32]);
    let ct = lock.encrypt(&master, b"abc").unwrap();
    assert_eq!(lock.decrypt_at(&master, &ct, 5), Err(Error::TimeLocked));
    assert_eq!(lock.decrypt_at(&master, &ct, 1000).unwrap(), b"abc".to_vec());
    assert_eq!(lock.decrypt_at(&MasterKey::from_bytes([2u8; 32]), &ct, 1000), Err(Error::AuthFailed));
}

#[test]
fn salts_differ_and_durations_add() {
    let a = TimeLock::new(5);
    let b = TimeLock::new(5);
    assert_ne!(a.time_salt, b.time_salt);
    assert_eq!(TimeLock::from_duration_at(100, 20).unlock_time, 120);
    let t = TimeLock::from_duration(3600);
    assert!(t.unlock_time >= now() + 3600 - 5);
    assert_eq!(TimeLock::from_duration(u64::MAX).unlock_time, u64::MAX);
}
