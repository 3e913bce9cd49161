// Hash functions of outside crates, as used by the library.
use vstd::prelude::*;
use sha2::Sha256;
use sha3::{Digest, Sha3_256, Shake256};
use sha3::digest::{ExtendableOutput, Update, XofReader};

verus! {

/// The BLAKE3 digest (32 bytes) of `data`.
pub uninterp spec fn blake3_digest(data: Seq<u8>) -> Seq<u8>;

/// Two distinct byte strings with the same BLAKE3 digest.
pub open spec fn blake3_collision() -> bool {
    exists|p: Seq<u8>, q: Seq<u8>| p != q && #[trigger] blake3_digest(p) == #[trigger] blake3_digest(q)
}

/// Trusted: `blake3::hash(data)` as 32 bytes. The digest depends on `data` only.
#[verifier::external_body]
pub(crate) fn blake3_hash(data: &[u8]) -> (h: [u8; 32])
    ensures
        h@ == blake3_digest(data@),
{
    *blake3::hash(data).as_bytes()
}

/// The SHA3-256 digest (32 bytes) of `data`.
pub uninterp spec fn sha3_256_digest(data: Seq<u8>) -> Seq<u8>;

/// Trusted: `sha3::Sha3_256::digest(data)` as 32 bytes. The digest depends on `data` only.
#[verifier::external_body]
pub(crate) fn sha3_256(data: &[u8]) -> (h: [u8; 32])
    ensures
        h@ == sha3_256_digest(data@),
{
    let out = Sha3_256::digest(data);
    let mut h = [0u8; 32];
    h.copy_from_slice(&out);
    h
}

/// The SHA-256 digest (32 bytes) of `data`.
pub uninterp spec fn sha256_digest(data: Seq<u8>) -> Seq<u8>;

/// Trusted: `sha2::Sha256::digest(data)` as 32 bytes. The digest depends on `data` only.
#[verifier::external_body]
pub(crate) fn sha256(data: &[u8]) -> (h: [u8; 32])
    ensures
        h@ == sha256_digest(data@),
{
    let out = Sha256::digest(data);
    let mut h = [0u8; 32];
    h.copy_from_slice(&out);
    h
}

/// The first `len` bytes of the SHAKE256 output for `data`.
pub uninterp spec fn shake256_xof(data: Seq<u8>, len: nat) -> Seq<u8>;

/// Trusted: feeds `data` to `sha3::Shake256`, finalizes it as an extendable output and
/// reads `len` bytes. The bytes depend on `data` and `len` only, and there are `len`
/// of them.
#[verifier::external_body]
pub(crate) fn shake256(data: &[u8], len: usize) -> (out: Vec<u8>)
    ensures
        out@ == shake256_xof(data@, len as nat),
        out@.len() == len,
{
    let mut hasher = Shake256::default();
    hasher.update(data);
    let mut reader = hasher.finalize_xof();
    let mut out = vec![0u8; len];
    reader.read(&mut out);
    out
}

/// Byte-wise equality of two 32-byte values.
pub fn bytes32_eq(a: &[u8; 32], b: &[u8; 32]) -> (r: bool)
    ensures
        r == (a@ == b@),
{
    let mut i: usize = 0;
    while i < 32
        invariant
            i <= 32,
            a@.len() == 32,
            b@.len() == 32,
            forall|k: int| 0 <= k < i ==> a@[k] == b@[k],
        decreases 32 - i,
    {
        if a[i] != b[i] {
            return false;
        }
        i = i + 1;
    }
    assert(a@ =~= b@);
    true
}

} // verus!
