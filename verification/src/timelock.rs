// Time-locked encryption: a key that is only released once a given time has passed.
use vstd::prelude::*;
use vstd::string::StringSliceAdditionalSpecFns;
use crate::base::error::Error;
use crate::base::keys::{MasterKey, hkdf_sha3_256, hkdf_sha3_256_okm32, random_bytes};
use crate::base::crypto::{AeadCipher, CipherType, encrypt_result, decrypt_result, lemma_aead_roundtrip};
use crate::base::bytes::{append_bytes, first_32, u64_le, u64_to_le_bytes};
use crate::base::clock::now_secs;

verus! {

/// Info string of the time-locked key.
pub open spec fn timelock_info() -> Seq<u8> {
    "cllx-timelock".spec_bytes()
}

/// Associated data of time-locked ciphertexts.
pub open spec fn timelock_aad() -> Seq<u8> {
    "cllx-timelock-data".spec_bytes()
}

/// The all-zero nonce of time-locked ciphertexts.
pub open spec fn timelock_nonce() -> Seq<u8> {
    Seq::new(12, |i: int| 0u8)
}

/// The time-locked key: HKDF-SHA3-256 of the master key, the unlock time (little
/// endian) and the salt.
pub open spec fn timelock_key(master: Seq<u8>, unlock_time: u64, salt: Seq<u8>) -> Seq<u8> {
    hkdf_sha3_256_okm32(master + u64_le(unlock_time) + salt, timelock_info())
}

/// What `decrypt_at` returns: `TimeLocked` before the unlock time, otherwise the AES-GCM
/// opening of the ciphertext under the time-locked key.
pub open spec fn timelock_decrypt_result(
    lock: TimeLock,
    master: Seq<u8>,
    now: u64,
    ct: Seq<u8>,
    r: Result<Vec<u8>, Error>,
) -> bool {
    if now < lock.unlock_time {
        r matches Err(Error::TimeLocked)
    } else {
        decrypt_result(
            CipherType::Aes256Gcm,
            timelock_key(master, lock.unlock_time, lock.time_salt@),
            timelock_nonce(),
            ct,
            timelock_aad(),
            r,
        )
    }
}

/// `now + duration`, or the largest timestamp when the sum does not fit.
pub open spec fn saturating_unlock(now: u64, duration: u64) -> u64 {
    if now + duration <= u64::MAX {
        (now + duration) as u64
    } else {
        u64::MAX
    }
}

#[derive(Debug, Clone)]
pub struct TimeLock {
    /// Unix timestamp at which the lock opens.
    pub unlock_time: u64,
    pub time_salt: [u8; 32],
}

/// Whether a lock opening at `unlock_time` is open at time `now`.
pub open spec fn unlocked_at(unlock_time: u64, now: u64) -> bool {
    now >= unlock_time
}

/// Seconds left before `unlock_time` at time `now`; `None` once it has passed.
pub open spec fn remaining_at(unlock_time: u64, now: u64) -> Option<u64> {
    if now >= unlock_time {
        None
    } else {
        Some((unlock_time - now) as u64)
    }
}

/// What deriving the time-locked key at time `now` gives: `TimeLocked` before the
/// unlock time, the key after it.
pub open spec fn derived_key_at(lock: TimeLock, master: Seq<u8>, now: u64, r: Result<[u8; 32], Error>) -> bool {
    if now < lock.unlock_time {
        r matches Err(Error::TimeLocked)
    } else {
        r matches Ok(k) && k@ == timelock_key(master, lock.unlock_time, lock.time_salt@)
    }
}

impl TimeLock {
    /// A lock that opens at `unlock_time`, with a fresh random salt.
    pub fn new(unlock_time: u64) -> (t: Self)
        ensures
            t.unlock_time == unlock_time,
    {
        Self { unlock_time, time_salt: first_32(random_bytes(32).as_slice()) }
    }

    /// A lock that opens `duration_seconds` after `now`.
    pub fn from_duration_at(now: u64, duration_seconds: u64) -> (t: Self)
        requires
            now + duration_seconds <= u64::MAX,
        ensures
            t.unlock_time == now + duration_seconds,
    {
        Self::new(now + duration_seconds)
    }

    /// Create time-lock with duration from now; a sum past the largest timestamp never
    /// opens.
    pub fn from_duration(duration_seconds: u64) -> (t: Self)
        ensures
            exists|now: u64|
                t.unlock_time == #[trigger] saturating_unlock(now, duration_seconds),
    {
        let now = now_secs();
        let t = if now > u64::MAX - duration_seconds {
            Self::new(u64::MAX)
        } else {
            Self::from_duration_at(now, duration_seconds)
        };
        assert(t.unlock_time == saturating_unlock(now, duration_seconds));
        t
    }

    /// Whether the lock is open at time `now`.
    pub fn is_unlocked_at(&self, now: u64) -> (r: bool)
        ensures
            r == (now >= self.unlock_time),
    {
        now >= self.unlock_time
    }

    /// Check if time-lock has expired.
    pub fn is_unlocked(&self) -> (r: bool)
        ensures
            exists|now: u64| r == #[trigger] unlocked_at(self.unlock_time, now),
    {
        let now = now_secs();
        let r = self.is_unlocked_at(now);
        assert(r == unlocked_at(self.unlock_time, now));
        r
    }

    /// Seconds left at time `now`; `None` once the lock is open.
    pub fn remaining_seconds_at(&self, now: u64) -> (r: Option<u64>)
        ensures
            now >= self.unlock_time ==> r is None,
            now < self.unlock_time ==> r == Some((self.unlock_time - now) as u64),
    {
        if self.is_unlocked_at(now) {
            None
        } else {
            Some(self.unlock_time - now)
        }
    }

    /// Get remaining time in seconds.
    pub fn remaining_seconds(&self) -> (r: Option<u64>)
        ensures
            exists|now: u64|
                r == #[trigger] remaining_at(self.unlock_time, now),
    {
        let now = now_secs();
        let r = self.remaining_seconds_at(now);
        assert(r == remaining_at(self.unlock_time, now));
        r
    }

    /// The time-locked key, whether or not the lock is open.
    fn locked_key(&self, master_key: &MasterKey) -> (k: [u8; 32])
        ensures
            k@ == timelock_key(master_key@, self.unlock_time, self.time_salt@),
    {
        let mut ikm: Vec<u8> = Vec::new();
        append_bytes(&mut ikm, master_key.as_bytes());
        append_bytes(&mut ikm, &u64_to_le_bytes(self.unlock_time));
        append_bytes(&mut ikm, &self.time_salt);
        proof {
            reveal_strlit("cllx-timelock");
        }
        hkdf_sha3_256(ikm.as_slice(), "cllx-timelock".as_bytes())
    }

    /// The time-locked key at time `now`: `TimeLocked` before the unlock time.
    pub fn derive_key_at(&self, master_key: &MasterKey, now: u64) -> (r: Result<[u8; 32], Error>)
        ensures
            now < self.unlock_time ==> r matches Err(Error::TimeLocked),
            now >= self.unlock_time ==> (r matches Ok(k) && k@ == timelock_key(
                master_key@,
                self.unlock_time,
                self.time_salt@,
            )),
    {
        if !self.is_unlocked_at(now) {
            return Err(Error::TimeLocked);
        }
        Ok(self.locked_key(master_key))
    }

    /// Derive time-locked key.
    pub fn derive_key(&self, master_key: &MasterKey) -> (r: Result<[u8; 32], Error>)
        ensures
            exists|now: u64| #[trigger] derived_key_at(*self, master_key@, now, r),
    {
        let now = now_secs();
        let r = self.derive_key_at(master_key, now);
        assert(derived_key_at(*self, master_key@, now, r));
        r
    }

    /// Encrypt data with time-lock (the key is derived whether or not the lock is open).
    pub fn encrypt(&self, master_key: &MasterKey, data: &[u8]) -> (r: Result<Vec<u8>, Error>)
        requires
            data@.len() + 16 <= usize::MAX,
        ensures
            encrypt_result(
                CipherType::Aes256Gcm,
                timelock_key(master_key@, self.unlock_time, self.time_salt@),
                timelock_nonce(),
                data@,
                timelock_aad(),
                r,
            ),
    {
        let key = self.locked_key(master_key);
        let cipher = AeadCipher::new(CipherType::Aes256Gcm);
        let nonce = [0u8; 12];
        assert(nonce@ =~= timelock_nonce());
        proof {
            reveal_strlit("cllx-timelock-data");
        }
        cipher.encrypt(&key, &nonce, data, "cllx-timelock-data".as_bytes())
    }

    /// Decrypt data with time-lock at time `now` (only if unlocked).
    pub fn decrypt_at(&self, master_key: &MasterKey, ciphertext: &[u8], now: u64) -> (r: Result<Vec<u8>, Error>)
        ensures
            timelock_decrypt_result(*self, master_key@, now, ciphertext@, r),
    {
        let key = match self.derive_key_at(master_key, now) {
            Ok(k) => k,
            Err(e) => {
                return Err(e);
            },
        };
        let cipher = AeadCipher::new(CipherType::Aes256Gcm);
        let nonce = [0u8; 12];
        assert(nonce@ =~= timelock_nonce());
        proof {
            reveal_strlit("cllx-timelock-data");
        }
        cipher.decrypt(&key, &nonce, ciphertext, "cllx-timelock-data".as_bytes())
    }

    /// Decrypt data with time-lock (only if unlocked).
    pub fn decrypt(&self, master_key: &MasterKey, ciphertext: &[u8]) -> (r: Result<Vec<u8>, Error>)
        ensures
            exists|now: u64| timelock_decrypt_result(*self, master_key@, now, ciphertext@, r),
    {
        let now = now_secs();
        let r = self.decrypt_at(master_key, ciphertext, now);
        assert(timelock_decrypt_result(*self, master_key@, now, ciphertext@, r));
        r
    }
}

/// Law: once the lock is open, decrypting what `encrypt` produced with the same master
/// key gives back the data.
pub proof fn lemma_timelock_roundtrip(
    lock: TimeLock,
    master: Seq<u8>,
    data: Seq<u8>,
    c: Vec<u8>,
    now: u64,
    r: Result<Vec<u8>, Error>,
)
    requires
        encrypt_result(
            CipherType::Aes256Gcm,
            timelock_key(master, lock.unlock_time, lock.time_salt@),
            timelock_nonce(),
            data,
            timelock_aad(),
            Ok(c),
        ),
        now >= lock.unlock_time,
        timelock_decrypt_result(lock, master, now, c@, r),
    ensures
        r matches Ok(p) && p@ == data,
{
    lemma_aead_roundtrip(
        CipherType::Aes256Gcm,
        timelock_key(master, lock.unlock_time, lock.time_salt@),
        timelock_nonce(),
        data,
        timelock_aad(),
        c,
        r,
    );
}

/// Law: before the unlock time nothing is decrypted, whatever the key and ciphertext.
pub proof fn lemma_timelock_holds(lock: TimeLock, master: Seq<u8>, ct: Seq<u8>, now: u64, r: Result<Vec<u8>, Error>)
    requires
        now < lock.unlock_time,
        timelock_decrypt_result(lock, master, now, ct, r),
    ensures
        r matches Err(Error::TimeLocked),
{
}

} // verus!
