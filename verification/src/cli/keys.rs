// Key files: a secret key stored as is, or sealed under a password.
use vstd::prelude::*;
use vstd::string::StringSliceAdditionalSpecFns;
use crate::base::error::Error;
use crate::base::crypto::{AeadCipher, CipherType, aead_seal, aead_open, seal_accepts};
use crate::base::digest::{sha256, sha256_digest};
use crate::base::bytes::{append_bytes, bytes_to_vec};
use crate::capsule::mlkem::push_decimal_str;

verus! {

/// Label hashed after the password to make its key.
pub open spec fn password_label() -> Seq<u8> {
    "cllx-password-key".spec_bytes()
}

/// The key derived from a password: SHA-256 of the password and the label.
pub open spec fn password_key(password: Seq<u8>) -> Seq<u8> {
    sha256_digest(password + password_label())
}

/// The 8-byte marker that opens a password-protected key file.
pub open spec fn key_marker() -> Seq<u8> {
    "CLLX-PWD".spec_bytes()
}

/// Associated data of a password-sealed secret key.
pub open spec fn protected_key_aad() -> Seq<u8> {
    "cllx-password-protected".spec_bytes()
}

/// The all-zero nonce of a password-sealed secret key.
pub open spec fn zero_nonce() -> Seq<u8> {
    Seq::new(12, |i: int| 0u8)
}

/// The content of a key file: the secret key sealed with ChaCha20-Poly1305 under the
/// password's key, behind the marker; without a password, the secret key itself.
pub open spec fn key_file_for(password: Option<Seq<u8>>, sk: Seq<u8>) -> Seq<u8> {
    match password {
        Some(pw) => key_marker() + aead_seal(
            CipherType::ChaCha20Poly1305,
            password_key(pw),
            zero_nonce(),
            sk,
            protected_key_aad(),
        ),
        None => sk,
    }
}

/// The bytes of an optional password.
pub open spec fn password_bytes(password: Option<&str>) -> Option<Seq<u8>> {
    match password {
        Some(p) => Some(p.spec_bytes()),
        None => None,
    }
}

/// Whether key-file data is password protected: longer than the marker and opening
/// with it.
pub open spec fn spec_is_protected(key_data: Seq<u8>) -> bool {
    key_data.len() > 8 && key_data.subrange(0, 8) == key_marker()
}

/// The key made from a password.
pub fn password_key_of(password: &str) -> (k: [u8; 32])
    ensures
        k@ == password_key(password.spec_bytes()),
{
    let mut input: Vec<u8> = Vec::new();
    append_bytes(&mut input, password.as_bytes());
    append_bytes(&mut input, "cllx-password-key".as_bytes());
    sha256(input.as_slice())
}

/// The key-file content of a secret key, sealed under `password` when there is one.
pub fn protect_secret_key(password: Option<&str>, secret_key: &[u8]) -> (r: Result<Vec<u8>, Error>)
    requires
        secret_key@.len() + 24 <= usize::MAX,
    ensures
        password is None ==> (r matches Ok(v) && v@ == secret_key@),
        password is Some && seal_accepts(CipherType::ChaCha20Poly1305, secret_key@.len() as int, 23) ==> (r matches Ok(
            v,
        ) && v@ == key_file_for(password_bytes(password), secret_key@) && v@.len() == secret_key@.len() + 24
            && aead_open(
            CipherType::ChaCha20Poly1305,
            password_key(password_bytes(password)->0),
            zero_nonce(),
            v@.subrange(8, v@.len() as int),
            protected_key_aad(),
        ) == Some(secret_key@)),
        password is Some && !seal_accepts(CipherType::ChaCha20Poly1305, secret_key@.len() as int, 23) ==> r matches Err(
            Error::Crypto(_),
        ),
{
    match password {
        None => Ok(bytes_to_vec(secret_key)),
        Some(pw) => {
            let key = password_key_of(pw);
            let cipher = AeadCipher::new(CipherType::ChaCha20Poly1305);
            let nonce = [0u8; 12];
            assert(nonce@ =~= zero_nonce());
            proof {
                reveal_strlit("cllx-password-protected");
                reveal_strlit("CLLX-PWD");
                vstd::string::is_ascii_spec_bytes("cllx-password-protected");
                vstd::string::is_ascii_spec_bytes("CLLX-PWD");
            }
            let sealed = cipher.encrypt(&key, &nonce, secret_key, "cllx-password-protected".as_bytes())?;
            let mut data: Vec<u8> = Vec::new();
            append_bytes(&mut data, "CLLX-PWD".as_bytes());
            append_bytes(&mut data, sealed.as_slice());
            assert(key_marker().len() == 8);
            assert(data@.subrange(8, data@.len() as int) =~= sealed@);
            Ok(data)
        },
    }
}

/// Whether key-file data is password protected.
pub fn is_password_protected(key_data: &[u8]) -> (b: bool)
    ensures
        b == spec_is_protected(key_data@),
{
    proof {
        reveal_strlit("CLLX-PWD");
        vstd::string::is_ascii_spec_bytes("CLLX-PWD");
    }
    let marker = "CLLX-PWD".as_bytes();
    assert(marker@.len() == 8);
    if key_data.len() <= 8 {
        return false;
    }
    let mut i: usize = 0;
    while i < 8
        invariant
            i <= 8,
            key_data@.len() > 8,
            marker@ == key_marker(),
            marker@.len() == 8,
            forall|k: int| 0 <= k < i ==> key_data@[k] == marker@[k],
        decreases 8 - i,
    {
        if key_data[i] != marker[i] {
            assert(key_data@.subrange(0, 8)[i as int] != key_marker()[i as int]);
            return false;
        }
        i = i + 1;
    }
    assert(key_data@.subrange(0, 8) =~= key_marker());
    true
}

/// The secret key in password-protected key-file data: `InvalidInput` when the
/// password is wrong or the data corrupted.
pub fn unlock_secret_key(key_data: &[u8], password: &str) -> (r: Result<Vec<u8>, Error>)
    requires
        key_data@.len() >= 8,
    ensures
        match aead_open(
            CipherType::ChaCha20Poly1305,
            password_key(password.spec_bytes()),
            zero_nonce(),
            key_data@.subrange(8, key_data@.len() as int),
            protected_key_aad(),
        ) {
            Some(p) => r matches Ok(v) && v@ == p,
            None => r matches Err(Error::InvalidInput(_)),
        },
{
    let key = password_key_of(password);
    let sealed = vstd::slice::slice_subrange(key_data, 8, key_data.len());
    let cipher = AeadCipher::new(CipherType::ChaCha20Poly1305);
    let nonce = [0u8; 12];
    assert(nonce@ =~= zero_nonce());
    match cipher.decrypt(&key, &nonce, sealed, "cllx-password-protected".as_bytes()) {
        Ok(p) => Ok(p),
        Err(_) => Err(Error::InvalidInput("Wrong password or corrupted key file".to_owned())),
    }
}

/// Key-file data that is not password protected must be a raw secret key of 2400 bytes.
pub fn raw_secret_key(key_data: Vec<u8>) -> (r: Result<Vec<u8>, Error>)
    ensures
        key_data@.len() == 2400 ==> (r matches Ok(v) && v@ == key_data@),
        key_data@.len() != 2400 ==> r matches Err(Error::InvalidInput(_)),
{
    if key_data.len() == 2400 {
        Ok(key_data)
    } else {
        let mut msg = "Invalid key file format: expected 2400 bytes or password-protected key, got ".to_owned();
        push_decimal_str(&mut msg, key_data.len());
        msg.append(" bytes");
        Err(Error::InvalidInput(msg))
    }
}

/// Law: a key file sealed under a password is recognised as protected, and unlocking it
/// with the same password gives back the secret key.
pub proof fn lemma_key_file_roundtrip(password: Seq<u8>, sk: Seq<u8>, v: Seq<u8>)
    requires
        v == key_file_for(Some(password), sk),
        v.len() == sk.len() + 24,
        aead_open(
            CipherType::ChaCha20Poly1305,
            password_key(password),
            zero_nonce(),
            v.subrange(8, v.len() as int),
            protected_key_aad(),
        ) == Some(sk),
    ensures
        spec_is_protected(v),
        aead_open(
            CipherType::ChaCha20Poly1305,
            password_key(password),
            zero_nonce(),
            v.subrange(8, v.len() as int),
            protected_key_aad(),
        ) == Some(sk),
{
    reveal_strlit("CLLX-PWD");
    vstd::string::is_ascii_spec_bytes("CLLX-PWD");
    assert(key_marker().len() == 8);
    assert(v.subrange(0, 8) =~= key_marker());
}

} // verus!
