// Stealth mode: the encrypted header sits at a key-dependent offset between two runs
// of pseudo-random padding.
use vstd::prelude::*;
use vstd::string::StringSliceAdditionalSpecFns;
use vstd::bytes::{u64_from_le_bytes, spec_u64_from_le_bytes};
use vstd::slice::slice_subrange;
use crate::base::error::Error;
use crate::base::keys::MasterKey;
use crate::base::crypto::{
    AeadCipher, CipherType, encrypt_result, decrypt_result, aead_seal, aead_open, seal_accepts,
};
use crate::base::bytes::append_bytes;
use crate::base::digest::{sha3_256, sha3_256_digest, shake256, shake256_xof};

verus! {

/// Label hashed with the master key to place the header.
pub open spec fn offset_label() -> Seq<u8> {
    "cllx-stealth-offset".spec_bytes()
}

/// Associated data of the encrypted header.
pub open spec fn header_aad() -> Seq<u8> {
    "cllx-stealth-header".spec_bytes()
}

/// The fixed all-zero nonce of the encrypted header.
pub open spec fn header_nonce() -> Seq<u8> {
    Seq::new(12, |i: int| 0u8)
}

/// The header offset: the first 8 bytes of SHA3-256 of the label and the key, read
/// little endian, modulo `max_offset`.
pub open spec fn spec_header_offset(key: Seq<u8>, max_offset: u64) -> u64 {
    (spec_u64_from_le_bytes(sha3_256_digest(offset_label() + key).subrange(0, 8)) % max_offset) as u64
}

/// The largest offset used for a container of `size` bytes: half its size, at most 1 MiB.
pub open spec fn max_offset_for(size: int) -> u64 {
    if size / 2 < 0x10_0000 {
        (size / 2) as u64
    } else {
        0x10_0000
    }
}

/// `size` bytes of padding: the SHAKE256 output stream of `seed`.
pub open spec fn padding(seed: Seq<u8>, size: nat) -> Seq<u8> {
    Seq::new(size, |k: int| shake256_xof(seed, size)[k])
}

/// The header sealed under the master key.
pub open spec fn sealed_header(key: Seq<u8>, header: Seq<u8>) -> Seq<u8> {
    aead_seal(CipherType::Aes256Gcm, key, header_nonce(), header, header_aad())
}

/// A stealth container of nominal size `total`: padding up to the header offset, the
/// sealed header, and padding up to `total` bytes (none when the header already reaches
/// past `total`).
pub open spec fn stealth_layout(key: Seq<u8>, header: Seq<u8>, total: u64) -> Seq<u8> {
    let off = spec_header_offset(key, max_offset_for(total as int));
    let enc = sealed_header(key, header);
    let remaining: nat = if off + enc.len() <= total {
        (total - off - enc.len()) as nat
    } else {
        0
    };
    padding(key + "before".spec_bytes(), off as nat) + enc + padding(key + "after".spec_bytes(), remaining)
}

/// What `create_stealth_container` returns: the layout above, whose sealed header opens
/// back to the header, or a crypto error when the cipher refuses the header's length.
pub open spec fn stealth_result(key: Seq<u8>, header: Seq<u8>, total: u64, r: Result<Vec<u8>, Error>) -> bool {
    match r {
        Ok(c) => {
            &&& seal_accepts(CipherType::Aes256Gcm, header.len() as int, header_aad().len() as int)
            &&& c@ == stealth_layout(key, header, total)
            &&& sealed_header(key, header).len() == header.len() + 16
            &&& aead_open(CipherType::Aes256Gcm, key, header_nonce(), sealed_header(key, header), header_aad())
                == Some(header)
        },
        Err(e) => {
            &&& !seal_accepts(CipherType::Aes256Gcm, header.len() as int, header_aad().len() as int)
            &&& e is Crypto
        },
    }
}

/// The offset at which a container of `size` bytes holds its header.
pub open spec fn container_offset(key: Seq<u8>, size: int) -> int {
    spec_header_offset(key, max_offset_for(size)) as int
}

/// What `extract_header` computes: the `header_size` bytes at the header offset, opened
/// under the master key; `AuthFailed` when they do not open.
pub open spec fn spec_extract(container: Seq<u8>, key: Seq<u8>, header_size: int) -> Result<Seq<u8>, Error> {
    let off = container_offset(key, container.len() as int);
    match aead_open(
        CipherType::Aes256Gcm,
        key,
        header_nonce(),
        container.subrange(off, off + header_size),
        header_aad(),
    ) {
        Some(p) => Ok(p),
        None => Err(Error::AuthFailed),
    }
}

/// The header of a container of `size` bytes lies inside it.
pub open spec fn header_in_range(key: Seq<u8>, size: int, header_size: int) -> bool {
    &&& size >= 2
    &&& container_offset(key, size) + header_size <= size
}

/// Stealth mode - hide container structure.
pub struct StealthMode;

impl StealthMode {
    /// Calculate pseudo-random header offset.
    pub fn calculate_header_offset(master_key: &MasterKey, max_offset: u64) -> (offset: u64)
        requires
            max_offset > 0,
        ensures
            offset == spec_header_offset(master_key@, max_offset),
            offset < max_offset,
    {
        let mut input: Vec<u8> = Vec::new();
        append_bytes(&mut input, "cllx-stealth-offset".as_bytes());
        append_bytes(&mut input, master_key.as_bytes());
        proof {
            reveal_strlit("cllx-stealth-offset");
        }
        assert(input@ =~= offset_label() + master_key@);
        let hash = sha3_256(input.as_slice());
        let offset_bytes = slice_subrange(hash.as_slice(), 0, 8);
        let offset = u64_from_le_bytes(offset_bytes);
        offset % max_offset
    }

    /// Generate pseudo-random padding.
    pub fn generate_padding(size: usize, seed: &[u8]) -> (out: Vec<u8>)
        ensures
            out@ == padding(seed@, size as nat),
    {
        let out = shake256(seed, size);
        assert(out@ =~= padding(seed@, size as nat));
        out
    }

    /// Encrypt header for stealth mode.
    pub fn encrypt_header(header_bytes: &[u8], master_key: &MasterKey) -> (r: Result<Vec<u8>, Error>)
        requires
            header_bytes@.len() + 16 <= usize::MAX,
        ensures
            encrypt_result(CipherType::Aes256Gcm, master_key@, header_nonce(), header_bytes@, header_aad(), r),
    {
        let cipher = AeadCipher::new(CipherType::Aes256Gcm);
        let nonce = [0u8; 12];
        assert(nonce@ =~= header_nonce());
        proof {
            reveal_strlit("cllx-stealth-header");
        }
        cipher.encrypt(master_key.as_bytes(), &nonce, header_bytes, "cllx-stealth-header".as_bytes())
    }

    /// Decrypt header from stealth mode.
    pub fn decrypt_header(encrypted_header: &[u8], master_key: &MasterKey) -> (r: Result<Vec<u8>, Error>)
        ensures
            decrypt_result(CipherType::Aes256Gcm, master_key@, header_nonce(), encrypted_header@, header_aad(), r),
    {
        let cipher = AeadCipher::new(CipherType::Aes256Gcm);
        let nonce = [0u8; 12];
        assert(nonce@ =~= header_nonce());
        proof {
            reveal_strlit("cllx-stealth-header");
        }
        cipher.decrypt(master_key.as_bytes(), &nonce, encrypted_header, "cllx-stealth-header".as_bytes())
    }

    /// Create stealth container with obfuscation.
    pub fn create_stealth_container(
        header_bytes: &[u8],
        master_key: &MasterKey,
        total_size: u64,
    ) -> (r: Result<Vec<u8>, Error>)
        requires
            total_size >= 2,
            total_size <= usize::MAX,
            header_bytes@.len() + 16 + 0x10_0000 <= usize::MAX,
        ensures
            stealth_result(master_key@, header_bytes@, total_size, r),
    {
        // Pseudo-random offset, at most 1 MiB
        let half = total_size / 2;
        let max_offset: u64 = if half < 0x10_0000 { half } else { 0x10_0000 };
        let header_offset = Self::calculate_header_offset(master_key, max_offset);
        // Padding before the header
        let mut seed_before: Vec<u8> = Vec::new();
        append_bytes(&mut seed_before, master_key.as_bytes());
        append_bytes(&mut seed_before, "before".as_bytes());
        let padding_before = Self::generate_padding(header_offset as usize, seed_before.as_slice());
        // Encrypted header
        let encrypted_header = match Self::encrypt_header(header_bytes, master_key) {
            Ok(c) => c,
            Err(e) => {
                return Err(e);
            },
        };
        // Padding after the header
        let used = header_offset + encrypted_header.len() as u64;
        let remaining = total_size.saturating_sub(used);
        let mut seed_after: Vec<u8> = Vec::new();
        append_bytes(&mut seed_after, master_key.as_bytes());
        append_bytes(&mut seed_after, "after".as_bytes());
        let padding_after = Self::generate_padding(remaining as usize, seed_after.as_slice());
        // Combine all parts
        let mut container: Vec<u8> = Vec::new();
        append_bytes(&mut container, padding_before.as_slice());
        append_bytes(&mut container, encrypted_header.as_slice());
        append_bytes(&mut container, padding_after.as_slice());
        assert(container@ =~= stealth_layout(master_key@, header_bytes@, total_size));
        Ok(container)
    }

    /// Extract header from stealth container.
    pub fn extract_header(container: &[u8], master_key: &MasterKey, header_size: usize) -> (r: Result<
        Vec<u8>,
        Error,
    >)
        requires
            header_in_range(master_key@, container@.len() as int, header_size as int),
        ensures
            match spec_extract(container@, master_key@, header_size as int) {
                Ok(p) => r matches Ok(v) && v@ == p,
                Err(_) => r matches Err(Error::AuthFailed),
            },
    {
        let half = container.len() / 2;
        let max_offset: usize = if half < 0x10_0000 { half } else { 0x10_0000 };
        let header_offset = Self::calculate_header_offset(master_key, max_offset as u64) as usize;
        let encrypted_header = slice_subrange(container, header_offset, header_offset + header_size);
        Self::decrypt_header(encrypted_header, master_key)
    }

    /// Extract the header when it lies inside the container; `None` when the container
    /// is too short for the header at its offset.
    pub fn extract_header_checked(container: &[u8], master_key: &MasterKey, header_size: usize) -> (r: Option<
        Result<Vec<u8>, Error>,
    >)
        ensures
            r is None <==> !header_in_range(master_key@, container@.len() as int, header_size as int),
            r matches Some(res) ==> match spec_extract(container@, master_key@, header_size as int) {
                Ok(p) => res matches Ok(v) && v@ == p,
                Err(_) => res matches Err(Error::AuthFailed),
            },
    {
        if container.len() < 2 {
            return None;
        }
        let half = container.len() / 2;
        let max_offset: usize = if half < 0x10_0000 { half } else { 0x10_0000 };
        let header_offset = Self::calculate_header_offset(master_key, max_offset as u64) as usize;
        if header_size > container.len() - header_offset {
            return None;
        }
        Some(Self::extract_header(container, master_key, header_size))
    }
}

/// Law: the header of a stealth container that `create_stealth_container` made is what
/// `extract_header` gives back, read with the size of the sealed header, whenever the
/// container has its nominal size (the header at its offset fits inside `total`), which
/// is so for every nominal size of at least twice the sealed header (the offset is
/// below half the size).
pub proof fn lemma_stealth_roundtrip(key: Seq<u8>, header: Seq<u8>, total: u64, c: Vec<u8>)
    requires
        stealth_result(key, header, total, Ok(c)),
        c@.len() == total || 2 * (header.len() + 16) <= total,
    ensures
        c@.len() == total,
        header_in_range(key, c@.len() as int, header.len() + 16int),
        spec_extract(c@, key, header.len() + 16int) == Ok::<Seq<u8>, Error>(header),
{
    let mo = max_offset_for(total as int);
    let off = spec_header_offset(key, mo);
    let enc = sealed_header(key, header);
    if c@.len() != total {
        assert(mo > 0 && mo <= total / 2);
        assert(off < mo);
    }
    let before = padding(key + "before".spec_bytes(), off as nat);
    assert(before.len() == off);
    assert(off + enc.len() <= total);
    assert(c@.len() == total);
    assert(c@.subrange(off as int, off + header.len() + 16) =~= enc);
}

} // verus!
