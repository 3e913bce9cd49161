// ML-KEM-768 through the `pqc-ml-kem` crate, and what its source requires of the keys.
use vstd::prelude::*;
use pqc_ml_kem::ML_KEM_768;
use crate::base::digest::{sha3_256, sha3_256_digest};
use vstd::slice::slice_subrange;

verus! {

/// Largest coefficient value plus one (the ML-KEM modulus q).
pub open spec fn kem_modulus() -> int {
    3329
}

/// Low 12-bit coefficient packed in bytes `3j .. 3j + 3`.
pub open spec fn coef_lo(ek: Seq<u8>, j: int) -> int {
    ek[3 * j] + (ek[3 * j + 1] % 16) * 256
}

/// High 12-bit coefficient packed in bytes `3j .. 3j + 3`.
pub open spec fn coef_hi(ek: Seq<u8>, j: int) -> int {
    ek[3 * j + 1] / 16 + ek[3 * j + 2] * 16
}

/// An encapsulation key the crate accepts: 1184 bytes whose 768 packed coefficients
/// are all below q (the crate's type and modulus checks; it panics otherwise).
pub open spec fn ek_ok(ek: Seq<u8>) -> bool {
    &&& ek.len() == 1184
    &&& forall|j: int| 0 <= j < 384 ==> #[trigger] coef_lo(ek, j) < kem_modulus() && coef_hi(ek, j) < kem_modulus()
}

/// A decapsulation key the crate accepts: 2400 bytes holding, at bytes 1152 .. 2336, an
/// acceptable encapsulation key followed by its SHA3-256 hash (the crate's type and hash
/// checks; it panics otherwise).
pub open spec fn dk_ok(dk: Seq<u8>) -> bool {
    &&& dk.len() == 2400
    &&& ek_ok(dk.subrange(1152, 2336))
    &&& sha3_256_digest(dk.subrange(1152, 2336)) == dk.subrange(2336, 2368)
}

/// The shared secret that ML-KEM-768 decapsulation derives from a decapsulation key and
/// a ciphertext.
pub uninterp spec fn mlkem768_shared_secret(dk: Seq<u8>, c: Seq<u8>) -> Seq<u8>;

/// Trusted: `ML_KEM_768.keygen()`. The pair is random (from the operating system); the
/// source builds the decapsulation key as the secret part, the encapsulation key, its
/// SHA3-256 hash and 32 random bytes, and the encapsulation key from coefficients already
/// reduced below q, so both pass the checks above.
#[verifier::external_body]
pub(crate) fn mlkem768_keygen() -> (r: (Vec<u8>, Vec<u8>))
    ensures
        ek_ok(r.0@),
        dk_ok(r.1@),
        r.1@.subrange(1152, 2336) == r.0@,
{
    ML_KEM_768.keygen()
}

/// The shared secret and ciphertext that ML-KEM-768 encapsulation derives from an
/// encapsulation key and a 32-byte message.
pub uninterp spec fn mlkem768_encaps_det(ek: Seq<u8>, m: [u8; 32]) -> (Seq<u8>, Seq<u8>);

/// ML-KEM correctness for a key pair: decapsulating with `dk` the ciphertext of any
/// encapsulation to `ek` gives back its shared secret.
pub open spec fn kem_recovers(dk: Seq<u8>, ek: Seq<u8>) -> bool {
    forall|m: [u8; 32]|
        mlkem768_shared_secret(dk, #[trigger] mlkem768_encaps_det(ek, m).1) == mlkem768_encaps_det(ek, m).0
}

/// Trusted: `ML_KEM_768.encaps(ek)`, which draws a random 32-byte message `m` and
/// returns the deterministic encapsulation of `ek` and `m`: a 32-byte shared secret and
/// a 1088-byte ciphertext. Not stated: that decapsulating the ciphertext with the
/// matching key gives the same secret, which ML-KEM guarantees only with overwhelming
/// probability.
#[verifier::external_body]
pub(crate) fn mlkem768_encaps(ek: &[u8]) -> (r: (Vec<u8>, Vec<u8>))
    requires
        ek_ok(ek@),
    ensures
        r.0@.len() == 32,
        r.1@.len() == 1088,
        exists|m: [u8; 32]| r.0@ == #[trigger] mlkem768_encaps_det(ek@, m).0 && r.1@ == mlkem768_encaps_det(ek@, m).1,
{
    ML_KEM_768.encaps(ek)
}

/// Trusted: `ML_KEM_768.decaps(dk, c)`. For a ciphertext of 1088 bytes and an acceptable
/// key it returns 32 bytes that depend on `dk` and `c` only (the implicit rejection of
/// ML-KEM included).
#[verifier::external_body]
pub(crate) fn mlkem768_decaps(dk: &[u8], c: &[u8]) -> (ss: Vec<u8>)
    requires
        dk_ok(dk@),
        c@.len() == 1088,
    ensures
        ss@ == mlkem768_shared_secret(dk@, c@),
        ss@.len() == 32,
{
    ML_KEM_768.decaps(dk, c)
}

/// Whether the crate accepts `ek` as an encapsulation key.
pub fn is_valid_public_key(ek: &[u8]) -> (b: bool)
    ensures
        b == ek_ok(ek@),
{
    if ek.len() != 1184 {
        return false;
    }
    let mut j: usize = 0;
    while j < 384
        invariant
            ek@.len() == 1184,
            j <= 384,
            forall|i: int| 0 <= i < j ==> #[trigger] coef_lo(ek@, i) < kem_modulus() && coef_hi(ek@, i) < kem_modulus(),
        decreases 384 - j,
    {
        let b0 = ek[3 * j] as u32;
        let b1 = ek[3 * j + 1] as u32;
        let b2 = ek[3 * j + 2] as u32;
        let lo = b0 + (b1 % 16) * 256;
        let hi = b1 / 16 + b2 * 16;
        assert(lo == coef_lo(ek@, j as int));
        assert(hi == coef_hi(ek@, j as int));
        if lo >= 3329 || hi >= 3329 {
            return false;
        }
        j = j + 1;
    }
    true
}

/// Whether the crate accepts `dk` as a decapsulation key.
pub fn is_valid_secret_key(dk: &[u8]) -> (b: bool)
    ensures
        b == dk_ok(dk@),
{
    if dk.len() != 2400 {
        return false;
    }
    let ek = slice_subrange(dk, 1152, 2336);
    if !is_valid_public_key(ek) {
        return false;
    }
    let h = sha3_256(ek);
    let stored = slice_subrange(dk, 2336, 2368);
    let mut i: usize = 0;
    while i < 32
        invariant
            i <= 32,
            dk@.len() == 2400,
            h@.len() == 32,
            h@ == sha3_256_digest(dk@.subrange(1152, 2336)),
            stored@ == dk@.subrange(2336, 2368),
            stored@.len() == 32,
            forall|k: int| 0 <= k < i ==> h@[k] == stored@[k],
        decreases 32 - i,
    {
        if h[i] != stored[i] {
            assert(h@[i as int] != stored@[i as int]);
            return false;
        }
        i = i + 1;
    }
    assert(h@ =~= stored@);
    true
}

} // verus!
