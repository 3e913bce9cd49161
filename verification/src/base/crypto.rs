// Authenticated encryption with AES-256-GCM or ChaCha20-Poly1305.
use vstd::prelude::*;
use crate::base::error::Error;
use aes_gcm::{Aes256Gcm, KeyInit, Nonce};
use aes_gcm::aead::{Aead, Payload};
use chacha20poly1305::ChaCha20Poly1305;
use aes_gcm::aead::Error as AeadFailure;

verus! {

#[verifier::external_type_specification]
#[verifier::external_body]
pub struct ExAeadFailure(AeadFailure);

/// AES-256-GCM ciphertext (with its 16-byte tag appended) of `msg` under `key`, `nonce`
/// and associated data `aad`.
pub uninterp spec fn aes256gcm_seal(key: Seq<u8>, nonce: Seq<u8>, msg: Seq<u8>, aad: Seq<u8>) -> Seq<u8>;

/// AES-256-GCM opening of `ct` (ciphertext followed by the tag): the plaintext when the
/// tag authenticates, `None` otherwise.
pub uninterp spec fn aes256gcm_open(key: Seq<u8>, nonce: Seq<u8>, ct: Seq<u8>, aad: Seq<u8>) -> Option<Seq<u8>>;

/// ChaCha20-Poly1305 ciphertext (with its 16-byte tag appended).
pub uninterp spec fn chacha20poly1305_seal(key: Seq<u8>, nonce: Seq<u8>, msg: Seq<u8>, aad: Seq<u8>) -> Seq<u8>;

/// ChaCha20-Poly1305 opening of `ct`.
pub uninterp spec fn chacha20poly1305_open(key: Seq<u8>, nonce: Seq<u8>, ct: Seq<u8>, aad: Seq<u8>) -> Option<
    Seq<u8>,
>;

/// Largest message and associated data AES-GCM accepts (2^36 bytes).
pub open spec fn aes_gcm_max() -> int {
    0x10_0000_0000
}

/// Largest number of 64-byte blocks ChaCha20-Poly1305 accepts, exclusive.
pub open spec fn chacha_max_blocks() -> int {
    0xFFFF_FFFF
}

/// Trusted: `Aes256Gcm::new(key).encrypt(nonce, Payload { msg, aad })`. The crate refuses
/// messages or associated data longer than 2^36 bytes and otherwise returns the
/// ciphertext with a 16-byte tag appended, which the matching decryption opens back to
/// `msg` (the defining property of an AEAD).
#[verifier::external_body]
fn aes_gcm_encrypt(key: &[u8; 32], nonce: &[u8; 12], msg: &[u8], aad: &[u8]) -> (r: Result<Vec<u8>, AeadFailure>)
    requires
        msg@.len() + 16 <= usize::MAX,
    ensures
        r is Ok <==> (msg@.len() <= aes_gcm_max() && aad@.len() <= aes_gcm_max()),
        r matches Ok(c) ==> c@ == aes256gcm_seal(key@, nonce@, msg@, aad@) && c@.len() == msg@.len() + 16
            && aes256gcm_open(key@, nonce@, c@, aad@) == Some(msg@),
{
    let cipher = Aes256Gcm::new(key.into());
    cipher.encrypt(Nonce::from_slice(nonce), Payload { msg, aad })
}

/// Trusted: `Aes256Gcm::new(key).decrypt(nonce, Payload { msg: ct, aad })`. It succeeds
/// exactly when the tag at the end of `ct` authenticates, and then returns the plaintext,
/// 16 bytes shorter than `ct`; a `ct` shorter than the tag is refused.
#[verifier::external_body]
fn aes_gcm_decrypt(key: &[u8; 32], nonce: &[u8; 12], ct: &[u8], aad: &[u8]) -> (r: Result<Vec<u8>, AeadFailure>)
    ensures
        r is Ok <==> aes256gcm_open(key@, nonce@, ct@, aad@) is Some,
        r matches Ok(p) ==> Some(p@) == aes256gcm_open(key@, nonce@, ct@, aad@) && ct@.len() >= 16
            && p@.len() == ct@.len() - 16,
{
    let cipher = Aes256Gcm::new(key.into());
    cipher.decrypt(Nonce::from_slice(nonce), Payload { msg: ct, aad })
}

/// Trusted: `ChaCha20Poly1305::new(key).encrypt(nonce, Payload { msg, aad })`. The crate
/// refuses messages of 2^32 - 1 blocks of 64 bytes or more and otherwise returns the
/// ciphertext with a 16-byte tag appended, which the matching decryption opens back to
/// `msg`.
#[verifier::external_body]
fn chacha_encrypt(key: &[u8; 32], nonce: &[u8; 12], msg: &[u8], aad: &[u8]) -> (r: Result<Vec<u8>, AeadFailure>)
    requires
        msg@.len() + 16 <= usize::MAX,
    ensures
        r is Ok <==> msg@.len() / 64 < chacha_max_blocks(),
        r matches Ok(c) ==> c@ == chacha20poly1305_seal(key@, nonce@, msg@, aad@) && c@.len() == msg@.len()
            + 16 && chacha20poly1305_open(key@, nonce@, c@, aad@) == Some(msg@),
{
    let cipher = ChaCha20Poly1305::new(key.into());
    cipher.encrypt(chacha20poly1305::Nonce::from_slice(nonce), Payload { msg, aad })
}

/// Trusted: `ChaCha20Poly1305::new(key).decrypt(nonce, Payload { msg: ct, aad })`. It
/// succeeds exactly when the tag at the end of `ct` authenticates, and then returns the
/// plaintext, 16 bytes shorter than `ct`.
#[verifier::external_body]
fn chacha_decrypt(key: &[u8; 32], nonce: &[u8; 12], ct: &[u8], aad: &[u8]) -> (r: Result<Vec<u8>, AeadFailure>)
    ensures
        r is Ok <==> chacha20poly1305_open(key@, nonce@, ct@, aad@) is Some,
        r matches Ok(p) ==> Some(p@) == chacha20poly1305_open(key@, nonce@, ct@, aad@) && ct@.len()
            >= 16 && p@.len() == ct@.len() - 16,
{
    let cipher = ChaCha20Poly1305::new(key.into());
    cipher.decrypt(chacha20poly1305::Nonce::from_slice(nonce), Payload { msg: ct, aad })
}

#[derive(Debug, Clone, Copy, PartialEq, Eq)]
pub enum CipherType {
    Aes256Gcm,
    ChaCha20Poly1305,
}

/// Ciphertext of `msg` under the given cipher.
pub open spec fn aead_seal(t: CipherType, key: Seq<u8>, nonce: Seq<u8>, msg: Seq<u8>, aad: Seq<u8>) -> Seq<u8> {
    match t {
        CipherType::Aes256Gcm => aes256gcm_seal(key, nonce, msg, aad),
        CipherType::ChaCha20Poly1305 => chacha20poly1305_seal(key, nonce, msg, aad),
    }
}

/// Opening of `ct` under the given cipher.
pub open spec fn aead_open(t: CipherType, key: Seq<u8>, nonce: Seq<u8>, ct: Seq<u8>, aad: Seq<u8>) -> Option<Seq<u8>> {
    match t {
        CipherType::Aes256Gcm => aes256gcm_open(key, nonce, ct, aad),
        CipherType::ChaCha20Poly1305 => chacha20poly1305_open(key, nonce, ct, aad),
    }
}

/// The cipher accepts a message of `msg_len` bytes with `aad_len` bytes of associated data.
pub open spec fn seal_accepts(t: CipherType, msg_len: int, aad_len: int) -> bool {
    match t {
        CipherType::Aes256Gcm => msg_len <= aes_gcm_max() && aad_len <= aes_gcm_max(),
        CipherType::ChaCha20Poly1305 => msg_len / 64 < chacha_max_blocks(),
    }
}

/// What `encrypt` promises of its result: either the sealed message (which opens back to
/// the message), or a crypto error when the cipher refuses the lengths.
pub open spec fn encrypt_result(
    t: CipherType,
    key: Seq<u8>,
    nonce: Seq<u8>,
    msg: Seq<u8>,
    aad: Seq<u8>,
    r: Result<Vec<u8>, Error>,
) -> bool {
    match r {
        Ok(c) => {
            &&& seal_accepts(t, msg.len() as int, aad.len() as int)
            &&& c@ == aead_seal(t, key, nonce, msg, aad)
            &&& c@.len() == msg.len() + 16
            &&& aead_open(t, key, nonce, c@, aad) == Some(msg)
        },
        Err(e) => !seal_accepts(t, msg.len() as int, aad.len() as int) && e is Crypto,
    }
}

/// What `decrypt` promises of its result: the opened plaintext, or `AuthFailed`.
pub open spec fn decrypt_result(
    t: CipherType,
    key: Seq<u8>,
    nonce: Seq<u8>,
    ct: Seq<u8>,
    aad: Seq<u8>,
    r: Result<Vec<u8>, Error>,
) -> bool {
    match aead_open(t, key, nonce, ct, aad) {
        Some(p) => r matches Ok(v) && v@ == p && ct.len() >= 16 && p.len() == ct.len() - 16,
        None => r matches Err(Error::AuthFailed),
    }
}

pub struct AeadCipher {
    cipher_type: CipherType,
}

impl AeadCipher {
    pub fn new(cipher_type: CipherType) -> (c: Self)
        ensures
            c.kind() == cipher_type,
    {
        Self { cipher_type }
    }

    /// The cipher this value encrypts with.
    pub closed spec fn kind(&self) -> CipherType {
        self.cipher_type
    }

    /// Encrypt a chunk with AEAD.
    pub fn encrypt(&self, key: &[u8; 32], nonce: &[u8; 12], plaintext: &[u8], aad: &[u8]) -> (r: Result<Vec<u8>, Error>)
        requires
            plaintext@.len() + 16 <= usize::MAX,
        ensures
            encrypt_result(self.kind(), key@, nonce@, plaintext@, aad@, r),
    {
        match self.cipher_type {
            CipherType::Aes256Gcm => match aes_gcm_encrypt(key, nonce, plaintext, aad) {
                Ok(c) => Ok(c),
                Err(_) => Err(Error::Crypto("AES-GCM encrypt failed: aead::Error".to_owned())),
            },
            CipherType::ChaCha20Poly1305 => match chacha_encrypt(key, nonce, plaintext, aad) {
                Ok(c) => Ok(c),
                Err(_) => Err(Error::Crypto("ChaCha20 encrypt failed: aead::Error".to_owned())),
            },
        }
    }

    /// Decrypt a chunk with AEAD.
    pub fn decrypt(&self, key: &[u8; 32], nonce: &[u8; 12], ciphertext: &[u8], aad: &[u8]) -> (r: Result<Vec<u8>, Error>)
        ensures
            decrypt_result(self.kind(), key@, nonce@, ciphertext@, aad@, r),
    {
        match self.cipher_type {
            CipherType::Aes256Gcm => match aes_gcm_decrypt(key, nonce, ciphertext, aad) {
                Ok(p) => Ok(p),
                Err(_) => Err(Error::AuthFailed),
            },
            CipherType::ChaCha20Poly1305 => match chacha_decrypt(key, nonce, ciphertext, aad) {
                Ok(p) => Ok(p),
                Err(_) => Err(Error::AuthFailed),
            },
        }
    }
}

/// Law: whatever `encrypt` returns as a ciphertext, `decrypt` with the same key, nonce
/// and associated data returns the plaintext.
pub proof fn lemma_aead_roundtrip(
    t: CipherType,
    key: Seq<u8>,
    nonce: Seq<u8>,
    msg: Seq<u8>,
    aad: Seq<u8>,
    c: Vec<u8>,
    r: Result<Vec<u8>, Error>,
)
    requires
        encrypt_result(t, key, nonce, msg, aad, Ok(c)),
        decrypt_result(t, key, nonce, c@, aad, r),
    ensures
        r matches Ok(p) && p@ == msg,
{
}

} // verus!
