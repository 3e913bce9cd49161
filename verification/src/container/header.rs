// Header and security policy of the first container layout.
use vstd::prelude::*;
use crate::base::keys::random_bytes;

verus! {

/// The magic bytes `CLLXFS-PRO\0`.
pub const MAGIC: [u8; 11] = [67u8, 76, 76, 88, 70, 83, 45, 80, 82, 79, 0];

pub const VERSION: u32 = 1;

#[derive(Debug, Clone, Copy, PartialEq, Eq)]
pub enum HashAlgo {
    Blake3,
    Sha3_256,
}

#[derive(Debug, Clone)]
pub struct SuperHeader {
    pub magic: [u8; 11],
    pub version: u32,
    /// MLWE parameter.
    pub n: u32,
    /// MLWE modulus.
    pub q: u32,
    /// Chunk size in bytes (1 MiB by default).
    pub chunk_size: u32,
    pub ntt_flag: bool,
    pub capsule_count: u32,
    pub tree_hash_algo: HashAlgo,
    pub file_nonce: [u8; 12],
}

/// Twelve random bytes.
pub(crate) fn random_nonce() -> (n: [u8; 12]) {
    let bytes = random_bytes(12);
    [
        bytes[0], bytes[1], bytes[2], bytes[3], bytes[4], bytes[5],
        bytes[6], bytes[7], bytes[8], bytes[9], bytes[10], bytes[11],
    ]
}

impl Default for SuperHeader {
    /// The default header, with a fresh random file nonce.
    fn default() -> (h: Self)
        ensures
            h.magic == MAGIC,
            h.version == VERSION,
            h.n == 1024,
            h.q == 12289,
            h.chunk_size == 1024 * 1024,
            h.ntt_flag,
            h.capsule_count == 0,
            h.tree_hash_algo == HashAlgo::Blake3,
    {
        Self {
            magic: MAGIC,
            version: VERSION,
            n: 1024,
            q: 12289,
            chunk_size: 1024 * 1024,
            ntt_flag: true,
            capsule_count: 0,
            tree_hash_algo: HashAlgo::Blake3,
            file_nonce: random_nonce(),
        }
    }
}

#[derive(Debug, Clone, Copy, PartialEq, Eq)]
pub struct SecurityPolicy {
    pub anti_ransom_mode: bool,
    pub stealth_mode: bool,
    pub timelock_flag: bool,
    pub share_mode: bool,
    pub dedup_mode: bool,
}

impl Default for SecurityPolicy {
    /// Every protection off.
    fn default() -> (p: Self)
        ensures
            !p.anti_ransom_mode && !p.stealth_mode && !p.timelock_flag && !p.share_mode && !p.dedup_mode,
    {
        Self { anti_ransom_mode: false, stealth_mode: false, timelock_flag: false, share_mode: false, dedup_mode: false }
    }
}

} // verus!
