// Key capsules: a master key and a mask seed sealed for a recipient's ML-KEM key.
use vstd::prelude::*;
use vstd::string::StringSliceAdditionalSpecFns;
use crate::base::error::Error;
use crate::base::keys::{MasterKey, hkdf_sha3_256, hkdf_sha3_256_okm32};
use crate::base::crypto::{AeadCipher, CipherType, aead_seal, aead_open};
use crate::base::digest::{blake3_hash, blake3_digest, bytes32_eq, blake3_collision};
use crate::base::bytes::{append_bytes, bytes_to_vec, first_32};
use super::kem::{
    ek_ok, dk_ok, mlkem768_shared_secret, mlkem768_keygen, mlkem768_encaps, mlkem768_encaps_det,
    mlkem768_decaps, is_valid_secret_key,
};

verus! {

/// ML-KEM-768 parameters (NIST Level 3 security).
pub const MLKEM_PUBLIC_KEY_SIZE: usize = 1184;

pub const MLKEM_SECRET_KEY_SIZE: usize = 2400;

pub const MLKEM_CIPHERTEXT_SIZE: usize = 1088;

pub const MLKEM_SHARED_SECRET_SIZE: usize = 32;

/// ML-KEM key pair.
#[derive(Clone)]
pub struct MlKemKeyPair {
    pub public_key: Vec<u8>,
    pub secret_key: Vec<u8>,
}

/// The character of a decimal digit.
pub open spec fn digit_char(d: nat) -> char {
    if d == 0 {
        '0'
    } else if d == 1 {
        '1'
    } else if d == 2 {
        '2'
    } else if d == 3 {
        '3'
    } else if d == 4 {
        '4'
    } else if d == 5 {
        '5'
    } else if d == 6 {
        '6'
    } else if d == 7 {
        '7'
    } else if d == 8 {
        '8'
    } else {
        '9'
    }
}

/// The decimal digits of `n` (no sign, no leading zeros).
pub open spec fn decimal_chars(n: nat) -> Seq<char>
    decreases n,
{
    if n < 10 {
        seq![digit_char(n)]
    } else {
        decimal_chars(n / 10).push(digit_char(n % 10))
    }
}

/// Appends the decimal digits of `n` to `s`.
pub(crate) fn push_decimal_str(s: &mut String, n: usize)
    ensures
        final(s)@ == old(s)@ + decimal_chars(n as nat),
    decreases n,
{
    if n >= 10 {
        push_decimal_str(s, n / 10);
    }
    let d = n % 10;
    proof {
        reveal_strlit("0");
        reveal_strlit("1");
        reveal_strlit("2");
        reveal_strlit("3");
        reveal_strlit("4");
        reveal_strlit("5");
        reveal_strlit("6");
        reveal_strlit("7");
        reveal_strlit("8");
        reveal_strlit("9");
    }
    let digit = if d == 0 {
        "0"
    } else if d == 1 {
        "1"
    } else if d == 2 {
        "2"
    } else if d == 3 {
        "3"
    } else if d == 4 {
        "4"
    } else if d == 5 {
        "5"
    } else if d == 6 {
        "6"
    } else if d == 7 {
        "7"
    } else if d == 8 {
        "8"
    } else {
        "9"
    };
    assert(digit@ =~= seq![digit_char(d as nat)]);
    let ghost before = s@;
    s.append(digit);
    proof {
        if n >= 10 {
            assert(decimal_chars(n as nat) == decimal_chars((n / 10) as nat).push(digit_char((n % 10) as nat)));
            assert(s@ =~= old(s)@ + decimal_chars(n as nat));
        } else {
            assert(s@ =~= old(s)@ + decimal_chars(n as nat));
        }
    }
}

impl MlKemKeyPair {
    /// Generate a new ML-KEM-768 key pair.
    pub fn generate() -> (r: Result<Self, Error>)
        ensures
            r matches Ok(kp) && ek_ok(kp.public_key@) && dk_ok(kp.secret_key@) && kp.secret_key@.subrange(1152, 2336)
                == kp.public_key@,
    {
        let (ek, dk) = mlkem768_keygen();
        Ok(Self { public_key: ek, secret_key: dk })
    }

    /// Get public key bytes.
    pub fn public_key_bytes(&self) -> (b: &[u8])
        ensures
            b@ == self.public_key@,
    {
        self.public_key.as_slice()
    }

    /// Get secret key bytes.
    pub fn secret_key_bytes(&self) -> (b: &[u8])
        ensures
            b@ == self.secret_key@,
    {
        self.secret_key.as_slice()
    }

    /// Create from existing secret key bytes; the public key is the one that the
    /// ML-KEM-768 secret key embeds (bytes 1152..2336).
    pub fn from_secret_key(secret_key: Vec<u8>) -> (r: Result<Self, Error>)
        ensures
            secret_key@.len() != 2400 ==> r matches Err(Error::InvalidInput(_)),
            secret_key@.len() == 2400 ==> (r matches Ok(kp) && kp.secret_key@ == secret_key@
                && kp.public_key@ == secret_key@.subrange(1152, 2336)),
    {
        if secret_key.len() != MLKEM_SECRET_KEY_SIZE {
            let mut msg = "Invalid secret key size: expected 2400, got ".to_owned();
            push_decimal_str(&mut msg, secret_key.len());
            return Err(Error::InvalidInput(msg));
        }
        let public_key = bytes_to_vec(vstd::slice::slice_subrange(secret_key.as_slice(), 1152, 2336));
        Ok(Self { public_key, secret_key })
    }
}

/// Three-ring capsule structure.
#[derive(Debug, Clone)]
pub struct ThreeRingCapsule {
    /// Public ring: ML-KEM ciphertext.
    pub public_ring: Vec<u8>,
    /// Trapdoor ring: verification data.
    pub trapdoor_ring: [u8; 32],
    /// Mask ring: encrypted mask seed.
    pub mask_ring: Vec<u8>,
}

/// Capsule with recipient identification.
#[derive(Debug, Clone)]
pub struct CapsuleV2 {
    pub recipient_id_hash: [u8; 32],
    pub capsule: ThreeRingCapsule,
    pub encrypted_master_key: Vec<u8>,
}

/// Info string of the wrap key.
pub open spec fn wrap_info() -> Seq<u8> {
    "cllx-capsule-wrap".spec_bytes()
}

/// Associated data of the sealed master key.
pub open spec fn master_key_aad() -> Seq<u8> {
    "cllx-master-key".spec_bytes()
}

/// Associated data of the sealed mask seed.
pub open spec fn mask_seed_aad() -> Seq<u8> {
    "cllx-mask-seed".spec_bytes()
}

/// Nonce of the sealed master key: all zeros.
pub open spec fn master_key_nonce() -> Seq<u8> {
    Seq::new(12, |i: int| 0u8)
}

/// Nonce of the sealed mask seed: all ones.
pub open spec fn mask_seed_nonce() -> Seq<u8> {
    Seq::new(12, |i: int| 1u8)
}

/// The wrap key derived from a shared secret.
pub open spec fn wrap_key(shared_secret: Seq<u8>) -> Seq<u8> {
    hkdf_sha3_256_okm32(shared_secret, wrap_info())
}

/// The trapdoor of a capsule: BLAKE3 of the KEM ciphertext and the sealed master key.
pub open spec fn trapdoor_of(ciphertext: Seq<u8>, sealed_master: Seq<u8>) -> Seq<u8> {
    blake3_digest(ciphertext + sealed_master)
}

/// `c` seals `master` and `seed` for the holder of `public_key` under the KEM shared
/// secret `ss`: both sealed under the wrap key (and opening back), the recipient id and
/// the trapdoor computed as above.
pub open spec fn capsule_for(c: CapsuleV2, public_key: Seq<u8>, master: Seq<u8>, seed: Seq<u8>, ss: Seq<u8>) -> bool {
    let w = wrap_key(ss);
    &&& ss.len() == 32
    &&& c.capsule.public_ring@.len() == 1088
    &&& c.encrypted_master_key@ == aead_seal(CipherType::Aes256Gcm, w, master_key_nonce(), master, master_key_aad())
    &&& aead_open(CipherType::Aes256Gcm, w, master_key_nonce(), c.encrypted_master_key@, master_key_aad()) == Some(master)
    &&& c.capsule.mask_ring@ == aead_seal(CipherType::Aes256Gcm, w, mask_seed_nonce(), seed, mask_seed_aad())
    &&& aead_open(CipherType::Aes256Gcm, w, mask_seed_nonce(), c.capsule.mask_ring@, mask_seed_aad()) == Some(seed)
    &&& c.recipient_id_hash@ == blake3_digest(public_key)
    &&& c.capsule.trapdoor_ring@ == trapdoor_of(c.capsule.public_ring@, c.encrypted_master_key@)
}

/// `c` seals `master` and `seed` for the holder of `public_key` under the shared secret
/// of an ML-KEM encapsulation to `public_key` (of some 32-byte message) whose
/// ciphertext is the capsule's public ring.
pub open spec fn sealed_for(c: CapsuleV2, public_key: Seq<u8>, master: Seq<u8>, seed: Seq<u8>) -> bool {
    exists|m: [u8; 32]|
        #[trigger] mlkem768_encaps_det(public_key, m).1 == c.capsule.public_ring@ && capsule_for(
            c,
            public_key,
            master,
            seed,
            mlkem768_encaps_det(public_key, m).0,
        )
}

/// What `decapsulate` returns for a capsule and a secret key: `IntegrityFailed` when the
/// trapdoor does not match, `AuthFailed` when the master key or the mask seed does not
/// open under the wrap key, a crypto error when either is not 32 bytes, otherwise both.
pub open spec fn decapsulate_result(c: CapsuleV2, secret_key: Seq<u8>, r: Result<(MasterKey, [u8; 32]), Error>) -> bool {
    let w = wrap_key(mlkem768_shared_secret(secret_key, c.capsule.public_ring@));
    let m = aead_open(CipherType::Aes256Gcm, w, master_key_nonce(), c.encrypted_master_key@, master_key_aad());
    let s = aead_open(CipherType::Aes256Gcm, w, mask_seed_nonce(), c.capsule.mask_ring@, mask_seed_aad());
    if c.capsule.trapdoor_ring@ != trapdoor_of(c.capsule.public_ring@, c.encrypted_master_key@) {
        r matches Err(Error::IntegrityFailed)
    } else if m is None {
        r matches Err(Error::AuthFailed)
    } else if m.unwrap().len() != 32 {
        r matches Err(Error::Crypto(_))
    } else if s is None {
        r matches Err(Error::AuthFailed)
    } else if s.unwrap().len() != 32 {
        r matches Err(Error::Crypto(_))
    } else {
        r matches Ok((mk, seed)) && mk@ == m.unwrap() && seed@ == s.unwrap()
    }
}

impl CapsuleV2 {
    /// Encapsulate master key for a recipient.
    pub fn encapsulate(recipient_public_key: &[u8], master_key: &MasterKey, mask_seed: &[u8; 32]) -> (r: Result<
        Self,
        Error,
    >)
        requires
            ek_ok(recipient_public_key@),
        ensures
            r matches Ok(c) && sealed_for(c, recipient_public_key@, master_key@, mask_seed@),
    {
        // Encapsulate to get shared secret
        let (shared_secret, ciphertext) = mlkem768_encaps(recipient_public_key);
        let ghost m = choose|m: [u8; 32]|
            shared_secret@ == #[trigger] mlkem768_encaps_det(recipient_public_key@, m).0 && ciphertext@
                == mlkem768_encaps_det(recipient_public_key@, m).1;
        // Derive wrap key from shared secret
        let wrap_key = Self::derive_wrap_key(shared_secret.as_slice());
        // Encrypt master key
        let cipher = AeadCipher::new(CipherType::Aes256Gcm);
        let nonce = [0u8; 12];
        assert(nonce@ =~= master_key_nonce());
        proof {
            reveal_strlit("cllx-master-key");
            reveal_strlit("cllx-mask-seed");
            vstd::string::is_ascii_spec_bytes("cllx-master-key");
            vstd::string::is_ascii_spec_bytes("cllx-mask-seed");
            assert(master_key_aad().len() == 15);
            assert(mask_seed_aad().len() == 14);
        }
        let encrypted_master_key = match cipher.encrypt(&wrap_key, &nonce, master_key.as_bytes(), "cllx-master-key".as_bytes()) {
            Ok(c) => c,
            Err(e) => {
                return Err(e);
            },
        };
        // Encrypt mask seed
        let mask_nonce = [1u8; 12];
        assert(mask_nonce@ =~= mask_seed_nonce());
        let encrypted_mask_seed = match cipher.encrypt(&wrap_key, &mask_nonce, mask_seed, "cllx-mask-seed".as_bytes()) {
            Ok(c) => c,
            Err(e) => {
                return Err(e);
            },
        };
        // Recipient id hash
        let recipient_id_hash = blake3_hash(recipient_public_key);
        // Trapdoor (verification hash)
        let mut trapdoor_input: Vec<u8> = Vec::new();
        append_bytes(&mut trapdoor_input, ciphertext.as_slice());
        append_bytes(&mut trapdoor_input, encrypted_master_key.as_slice());
        let trapdoor_ring = blake3_hash(trapdoor_input.as_slice());
        let c = Self {
            recipient_id_hash,
            capsule: ThreeRingCapsule { public_ring: ciphertext, trapdoor_ring, mask_ring: encrypted_mask_seed },
            encrypted_master_key,
        };
        assert(capsule_for(c, recipient_public_key@, master_key@, mask_seed@, shared_secret@));
        assert(mlkem768_encaps_det(recipient_public_key@, m).1 == c.capsule.public_ring@);
        assert(sealed_for(c, recipient_public_key@, master_key@, mask_seed@));
        Ok(c)
    }

    /// Decapsulate to recover master key.
    pub fn decapsulate(&self, recipient_secret_key: &[u8]) -> (r: Result<(MasterKey, [u8; 32]), Error>)
        requires
            dk_ok(recipient_secret_key@),
            self.capsule.public_ring@.len() == 1088,
        ensures
            decapsulate_result(*self, recipient_secret_key@, r),
    {
        // Decapsulate to get shared secret
        let shared_secret = mlkem768_decaps(recipient_secret_key, self.capsule.public_ring.as_slice());
        // Derive wrap key
        let wrap_key = Self::derive_wrap_key(shared_secret.as_slice());
        // Verify trapdoor
        let mut trapdoor_input: Vec<u8> = Vec::new();
        append_bytes(&mut trapdoor_input, self.capsule.public_ring.as_slice());
        append_bytes(&mut trapdoor_input, self.encrypted_master_key.as_slice());
        let computed_trapdoor = blake3_hash(trapdoor_input.as_slice());
        if !bytes32_eq(&computed_trapdoor, &self.capsule.trapdoor_ring) {
            return Err(Error::IntegrityFailed);
        }
        // Decrypt master key
        let cipher = AeadCipher::new(CipherType::Aes256Gcm);
        let nonce = [0u8; 12];
        assert(nonce@ =~= master_key_nonce());
        proof {
            reveal_strlit("cllx-master-key");
            reveal_strlit("cllx-mask-seed");
        }
        let master_key_bytes = cipher.decrypt(
            &wrap_key,
            &nonce,
            self.encrypted_master_key.as_slice(),
            "cllx-master-key".as_bytes(),
        )?;
        if master_key_bytes.len() != 32 {
            return Err(Error::Crypto("Invalid master key size".to_owned()));
        }
        let master_key_array = first_32(master_key_bytes.as_slice());
        assert(master_key_array@ =~= master_key_bytes@);
        // Decrypt mask seed
        let mask_nonce = [1u8; 12];
        assert(mask_nonce@ =~= mask_seed_nonce());
        let mask_seed_bytes = cipher.decrypt(
            &wrap_key,
            &mask_nonce,
            self.capsule.mask_ring.as_slice(),
            "cllx-mask-seed".as_bytes(),
        )?;
        if mask_seed_bytes.len() != 32 {
            return Err(Error::Crypto("Invalid mask seed size".to_owned()));
        }
        let mask_seed = first_32(mask_seed_bytes.as_slice());
        assert(mask_seed@ =~= mask_seed_bytes@);
        Ok((MasterKey::from_bytes(master_key_array), mask_seed))
    }

    /// Derive wrap key from shared secret using HKDF.
    fn derive_wrap_key(shared_secret: &[u8]) -> (k: [u8; 32])
        ensures
            k@ == wrap_key(shared_secret@),
    {
        proof {
            reveal_strlit("cllx-capsule-wrap");
        }
        hkdf_sha3_256(shared_secret, "cllx-capsule-wrap".as_bytes())
    }
}

/// Law: a capsule sealed for a public key opens, with a secret key whose KEM
/// decapsulation of the capsule's ciphertext gives back the shared secret it was sealed
/// under, to the master key and mask seed it was made with.
pub proof fn lemma_capsule_roundtrip(
    c: CapsuleV2,
    public_key: Seq<u8>,
    secret_key: Seq<u8>,
    master: Seq<u8>,
    seed: Seq<u8>,
    ss: Seq<u8>,
    r: Result<(MasterKey, [u8; 32]), Error>,
)
    requires
        capsule_for(c, public_key, master, seed, ss),
        master.len() == 32,
        seed.len() == 32,
        mlkem768_shared_secret(secret_key, c.capsule.public_ring@) == ss,
        decapsulate_result(c, secret_key, r),
    ensures
        r matches Ok((mk, s)) && mk@ == master && s@ == seed,
{
}

/// Law: a capsule whose ciphertext or sealed master key was changed without its
/// trapdoor being recomputed is refused with `IntegrityFailed`, unless BLAKE3 has a
/// collision.
pub proof fn lemma_capsule_tamper_detected(
    c: CapsuleV2,
    tampered: CapsuleV2,
    secret_key: Seq<u8>,
    r: Result<(MasterKey, [u8; 32]), Error>,
)
    requires
        c.capsule.trapdoor_ring@ == trapdoor_of(c.capsule.public_ring@, c.encrypted_master_key@),
        tampered.capsule.trapdoor_ring == c.capsule.trapdoor_ring,
        tampered.capsule.public_ring@.len() == c.capsule.public_ring@.len(),
        tampered.capsule.public_ring@ != c.capsule.public_ring@ || tampered.encrypted_master_key@
            != c.encrypted_master_key@,
        decapsulate_result(tampered, secret_key, r),
    ensures
        r matches Err(Error::IntegrityFailed) || blake3_collision(),
{
    let a = c.capsule.public_ring@ + c.encrypted_master_key@;
    let b = tampered.capsule.public_ring@ + tampered.encrypted_master_key@;
    let n = c.capsule.public_ring@.len() as int;
    if a == b {
        assert(c.capsule.public_ring@ =~= a.subrange(0, n));
        assert(tampered.capsule.public_ring@ =~= b.subrange(0, n));
        assert(c.encrypted_master_key@ =~= a.subrange(n, a.len() as int));
        assert(tampered.encrypted_master_key@ =~= b.subrange(n, b.len() as int));
    }
    if !(r matches Err(Error::IntegrityFailed)) {
        assert(tampered.capsule.trapdoor_ring@ == trapdoor_of(
            tampered.capsule.public_ring@,
            tampered.encrypted_master_key@,
        ));
        assert(blake3_digest(a) == blake3_digest(b));
    }
}

/// Whether `capsule` is addressed to the key whose hash is `id`.
pub open spec fn addressed_to(capsule: CapsuleV2, id: Seq<u8>) -> bool {
    capsule.recipient_id_hash@ == id
}

/// The first capsule of `caps` addressed to `id`, if any, can be opened with `sk`: the
/// key is one ML-KEM accepts and the capsule holds a ciphertext of the right size.
pub open spec fn first_addressed_openable(caps: Seq<CapsuleV2>, sk: Seq<u8>, id: Seq<u8>) -> bool {
    forall|i: int|
        0 <= i < caps.len() && addressed_to(#[trigger] caps[i], id) && (forall|j: int|
            0 <= j < i ==> !addressed_to(#[trigger] caps[j], id)) ==> dk_ok(sk) && caps[i].capsule.public_ring@.len()
            == 1088
}

/// Multi-recipient capsule manager.
#[derive(Debug, Clone)]
pub struct MultiRecipientCapsule {
    pub capsules: Vec<CapsuleV2>,
}

impl MultiRecipientCapsule {
    pub fn new() -> (m: Self)
        ensures
            m.capsules@.len() == 0,
    {
        Self { capsules: Vec::new() }
    }

    /// Add a recipient.
    pub fn add_recipient(&mut self, recipient_public_key: &[u8], master_key: &MasterKey, mask_seed: &[u8; 32]) -> (r:
        Result<(), Error>)
        requires
            ek_ok(recipient_public_key@),
        ensures
            r is Ok,
            final(self).capsules@.len() == old(self).capsules@.len() + 1,
            final(self).capsules@.drop_last() == old(self).capsules@,
            sealed_for(final(self).capsules@.last(), recipient_public_key@, master_key@, mask_seed@),
    {
        let capsule = CapsuleV2::encapsulate(recipient_public_key, master_key, mask_seed)?;
        let ghost cap = capsule;
        self.capsules.push(capsule);
        assert(self.capsules@.last() == cap);
        assert(self.capsules@.drop_last() =~= old(self).capsules@);
        Ok(())
    }

    /// Try to decrypt with any matching secret key: the first capsule addressed to the
    /// public key is decapsulated.
    pub fn try_decrypt(&self, recipient_secret_key: &[u8], recipient_public_key: &[u8]) -> (r: Result<
        (MasterKey, [u8; 32]),
        Error,
    >)
        requires
            first_addressed_openable(self.capsules@, recipient_secret_key@, blake3_digest(recipient_public_key@)),
        ensures
            (forall|i: int| 0 <= i < self.capsules@.len() ==> !addressed_to(#[trigger] self.capsules@[i], blake3_digest(recipient_public_key@)))
                ==> r matches Err(Error::CapsuleDecryptFailed),
            forall|i: int|
                0 <= i < self.capsules@.len() && addressed_to(#[trigger] self.capsules@[i], blake3_digest(recipient_public_key@))
                    && (forall|j: int| 0 <= j < i ==> !addressed_to(#[trigger] self.capsules@[j], blake3_digest(recipient_public_key@)))
                    ==> decapsulate_result(self.capsules@[i], recipient_secret_key@, r),
    {
        let recipient_id = blake3_hash(recipient_public_key);
        let mut i: usize = 0;
        while i < self.capsules.len()
            invariant
                i <= self.capsules@.len(),
                first_addressed_openable(self.capsules@, recipient_secret_key@, recipient_id@),
                recipient_id@ == blake3_digest(recipient_public_key@),
                forall|j: int| 0 <= j < i ==> !addressed_to(#[trigger] self.capsules@[j], recipient_id@),
            decreases self.capsules@.len() - i,
        {
            if bytes32_eq(&self.capsules[i].recipient_id_hash, &recipient_id) {
                let r = self.capsules[i].decapsulate(recipient_secret_key);
                proof {
                    assert forall|k: int|
                        0 <= k < self.capsules@.len() && addressed_to(#[trigger] self.capsules@[k], recipient_id@)
                            && (forall|j: int| 0 <= j < k ==> !addressed_to(#[trigger] self.capsules@[j], recipient_id@))
                            implies k == i by {
                        if k < i {
                        } else if k > i {
                            assert(addressed_to(self.capsules@[i as int], recipient_id@));
                        }
                    }
                }
                return r;
            }
            i = i + 1;
        }
        Err(Error::CapsuleDecryptFailed)
    }

    /// Decrypt with the first matching capsule, provided that capsule, if there is one,
    /// can be opened: the secret key is one ML-KEM accepts and the capsule holds a
    /// ciphertext of the right size; `None` otherwise.
    pub fn try_decrypt_checked(&self, recipient_secret_key: &[u8], recipient_public_key: &[u8]) -> (r: Option<
        Result<(MasterKey, [u8; 32]), Error>,
    >)
        ensures
            r is None <==> !first_addressed_openable(
                self.capsules@,
                recipient_secret_key@,
                blake3_digest(recipient_public_key@),
            ),
            r matches Some(res) ==> ((forall|i: int|
                0 <= i < self.capsules@.len() ==> !addressed_to(
                    #[trigger] self.capsules@[i],
                    blake3_digest(recipient_public_key@),
                )) ==> res matches Err(Error::CapsuleDecryptFailed)),
            r matches Some(res) ==> forall|i: int|
                0 <= i < self.capsules@.len() && addressed_to(#[trigger] self.capsules@[i], blake3_digest(recipient_public_key@))
                    && (forall|j: int| 0 <= j < i ==> !addressed_to(#[trigger] self.capsules@[j], blake3_digest(recipient_public_key@)))
                    ==> decapsulate_result(self.capsules@[i], recipient_secret_key@, res),
    {
        let recipient_id = blake3_hash(recipient_public_key);
        let ghost caps = self.capsules@;
        let mut i: usize = 0;
        while i < self.capsules.len()
            invariant
                i <= caps.len(),
                caps == self.capsules@,
                recipient_id@ == blake3_digest(recipient_public_key@),
                forall|j: int| 0 <= j < i ==> !addressed_to(#[trigger] caps[j], recipient_id@),
            decreases caps.len() - i,
        {
            if bytes32_eq(&self.capsules[i].recipient_id_hash, &recipient_id) {
                let ok = is_valid_secret_key(recipient_secret_key) && self.capsules[i].capsule.public_ring.len() == 1088;
                proof {
                    assert forall|k: int|
                        0 <= k < caps.len() && addressed_to(#[trigger] caps[k], recipient_id@) && (forall|j: int|
                            0 <= j < k ==> !addressed_to(#[trigger] caps[j], recipient_id@)) implies k == i by {
                        if k > i {
                            assert(addressed_to(caps[i as int], recipient_id@));
                        }
                    }
                }
                if !ok {
                    return None;
                }
                return Some(self.try_decrypt(recipient_secret_key, recipient_public_key));
            }
            i = i + 1;
        }
        Some(self.try_decrypt(recipient_secret_key, recipient_public_key))
    }

    /// Get number of recipients.
    pub fn recipient_count(&self) -> (n: usize)
        ensures
            n == self.capsules@.len(),
    {
        self.capsules.len()
    }
}

impl Default for MultiRecipientCapsule {
    fn default() -> (m: Self)
        ensures
            m.capsules@.len() == 0,
    {
        Self::new()
    }
}

} // verus!
