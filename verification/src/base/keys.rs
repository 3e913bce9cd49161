use vstd::prelude::*;
use vstd::string::StringSliceAdditionalSpecFns;
use crate::base::error::Error;
use crate::base::bytes::{append_bytes, first_32};
use hkdf::Hkdf;
use rand::RngCore;
use sha3::Sha3_256;

verus! {

/// The 32 bytes that HKDF-SHA3-256 (no salt) derives from `ikm` for `info`.
pub uninterp spec fn hkdf_sha3_256_okm32(ikm: Seq<u8>, info: Seq<u8>) -> Seq<u8>;

/// Trusted: `hkdf::Hkdf::<sha3::Sha3_256>::new(None, ikm)` followed by `expand(info, ..)`
/// into a 32-byte buffer. An output of 32 bytes is within the 255-block limit of HKDF, so
/// the expansion always succeeds; the bytes depend on `ikm` and `info` only.
#[verifier::external_body]
pub(crate) fn hkdf_sha3_256(ikm: &[u8], info: &[u8]) -> (okm: [u8; 32])
    ensures
        okm@ == hkdf_sha3_256_okm32(ikm@, info@),
{
    let hk = Hkdf::<Sha3_256>::new(None, ikm);
    let mut okm = [0u8; 32];
    let _ = hk.expand(info, &mut okm);
    okm
}

/// Trusted: `len` bytes filled by `rand::thread_rng().fill_bytes`. Nothing is claimed of
/// their value: they come from a generator seeded by the operating system.
#[verifier::external_body]
pub(crate) fn random_bytes(len: usize) -> (v: Vec<u8>)
    ensures
        v@.len() == len,
{
    let mut v = vec![0u8; len];
    rand::thread_rng().fill_bytes(&mut v);
    v
}

/// ASCII decimal digits of `n` (no sign, no leading zeros).
pub open spec fn decimal(n: nat) -> Seq<u8>
    decreases n,
{
    if n < 10 {
        seq![(48 + n) as u8]
    } else {
        decimal(n / 10).push((48 + n % 10) as u8)
    }
}

/// Appends the decimal digits of `n` to `out`.
pub fn push_decimal(out: &mut Vec<u8>, n: u64)
    ensures
        final(out)@ == old(out)@ + decimal(n as nat),
    decreases n,
{
    if n >= 10 {
        push_decimal(out, n / 10);
    }
    out.push(48u8 + (n % 10) as u8);
    proof {
        if n >= 10 {
            assert(decimal(n as nat) == decimal((n / 10) as nat).push((48 + n % 10) as u8));
        }
    }
}

/// Label of the tree root key.
pub open spec fn tree_root_label() -> Seq<u8> {
    "cllx-fs-tree-root".spec_bytes()
}

/// Label of the authentication key.
pub open spec fn auth_label() -> Seq<u8> {
    "cllx-fs-auth".spec_bytes()
}

/// Label of the mask key.
pub open spec fn mask_label() -> Seq<u8> {
    "cllx-fs-mask".spec_bytes()
}

/// Label of the key of chunk `chunk_id`: `chunk-` followed by the decimal id.
pub open spec fn chunk_label(chunk_id: u64) -> Seq<u8> {
    "chunk-".spec_bytes() + decimal(chunk_id as nat)
}

/// Master key for file encryption (256-bit).
#[derive(Clone)]
pub struct MasterKey([u8; 32]);

impl View for MasterKey {
    type V = Seq<u8>;

    closed spec fn view(&self) -> Seq<u8> {
        self.0@
    }
}

impl MasterKey {
    /// A fresh key from the system's random source.
    pub fn generate() -> (k: Self)
        ensures
            k@.len() == 32,
    {
        Self(first_32(random_bytes(32).as_slice()))
    }

    pub fn from_bytes(bytes: [u8; 32]) -> (k: Self)
        ensures
            k@ == bytes@,
    {
        Self(bytes)
    }

    pub fn as_bytes(&self) -> (b: &[u8; 32])
        ensures
            b@ == self@,
    {
        &self.0
    }
}

/// Key derivation using HKDF-SHA3-256.
pub struct KeyDerivation;

impl KeyDerivation {
    /// Derive tree root key.
    pub fn derive_tree_root(master: &MasterKey) -> (r: Result<[u8; 32], Error>)
        ensures
            r matches Ok(k) && k@ == hkdf_sha3_256_okm32(master@, tree_root_label()),
    {
        Self::derive(master.as_bytes(), "cllx-fs-tree-root".as_bytes())
    }

    /// Derive chunk-specific key.
    pub fn derive_chunk_key(tree_root: &[u8; 32], chunk_id: u64) -> (r: Result<[u8; 32], Error>)
        ensures
            r matches Ok(k) && k@ == hkdf_sha3_256_okm32(tree_root@, chunk_label(chunk_id)),
    {
        let mut info: Vec<u8> = Vec::new();
        append_bytes(&mut info, "chunk-".as_bytes());
        push_decimal(&mut info, chunk_id);
        Self::derive(tree_root, info.as_slice())
    }

    /// Derive authentication key.
    pub fn derive_auth_key(master: &MasterKey) -> (r: Result<[u8; 32], Error>)
        ensures
            r matches Ok(k) && k@ == hkdf_sha3_256_okm32(master@, auth_label()),
    {
        Self::derive(master.as_bytes(), "cllx-fs-auth".as_bytes())
    }

    /// Derive mask key for XOR obfuscation.
    pub fn derive_mask_key(master: &MasterKey) -> (r: Result<[u8; 32], Error>)
        ensures
            r matches Ok(k) && k@ == hkdf_sha3_256_okm32(master@, mask_label()),
    {
        Self::derive(master.as_bytes(), "cllx-fs-mask".as_bytes())
    }

    fn derive(ikm: &[u8], info: &[u8]) -> (r: Result<[u8; 32], Error>)
        ensures
            r matches Ok(k) && k@ == hkdf_sha3_256_okm32(ikm@, info@),
    {
        Ok(hkdf_sha3_256(ikm, info))
    }
}

} // verus!
