use vstd::prelude::*;
use crate::base::error::Error;

verus! {

/// Container file format version.
pub const CONTAINER_VERSION: u32 = 1;

/// The magic bytes `CLLXFS-PRO\0` that open a container header.
pub open spec fn container_magic() -> Seq<u8> {
    seq![67u8, 76, 76, 88, 70, 83, 45, 80, 82, 79, 0]
}

/// Complete container format with all sections.
#[derive(Debug)]
pub struct ContainerFormat {
    pub super_header: SuperHeaderV1,
    pub capsules: Vec<CapsuleData>,
    pub key_metadata: KeyMetadata,
    pub chunk_index: ChunkIndexTable,
    pub merkle_data: MerkleData,
}

#[derive(Debug, Clone)]
pub struct SuperHeaderV1 {
    pub magic: [u8; 11],
    pub version: u32,
    pub chunk_size: u32,
    pub cipher_id: u8,
    pub kdf_id: u8,
    pub kem_id: u8,
    pub file_nonce: [u8; 12],
    pub flags: u32,
    pub total_chunks: u64,
    pub original_size: u64,
}

#[derive(Debug, Clone)]
pub struct CapsuleData {
    pub recipient_id_hash: [u8; 32],
    pub kem_ciphertext: Vec<u8>,
    pub encrypted_master_key: Vec<u8>,
    pub encrypted_mask_seed: Vec<u8>,
}

#[derive(Debug, Clone)]
pub struct KeyMetadata {
    pub container_id: [u8; 32],
    pub file_id: [u8; 32],
    pub creation_time: u64,
}

#[derive(Debug, Clone)]
pub struct ChunkIndexTable {
    pub entries: Vec<ChunkRecord>,
}

#[derive(Debug, Clone, Copy)]
pub struct ChunkRecord {
    pub chunk_id: u64,
    pub offset: u64,
    pub length: u32,
    pub tag: [u8; 16],
    pub hash: [u8; 32],
}

#[derive(Debug, Clone)]
pub struct MerkleData {
    pub root_hash: [u8; 32],
    pub nodes: Vec<[u8; 32]>,
    pub leaf_count: usize,
}

impl SuperHeaderV1 {
    pub fn new(chunk_size: u32, cipher_id: u8, file_nonce: [u8; 12]) -> (h: Self)
        ensures
            h.magic@ == container_magic(),
            h.version == CONTAINER_VERSION,
            h.chunk_size == chunk_size,
            h.cipher_id == cipher_id,
            h.kdf_id == 0,
            h.kem_id == 0,
            h.file_nonce == file_nonce,
            h.flags == 0,
            h.total_chunks == 0,
            h.original_size == 0,
    {
        let magic: [u8; 11] = [67u8, 76, 76, 88, 70, 83, 45, 80, 82, 79, 0];
        assert(magic@ =~= container_magic());
        Self {
            magic,
            version: CONTAINER_VERSION,
            chunk_size,
            cipher_id,
            kdf_id: 0,
            kem_id: 0,
            file_nonce,
            flags: 0,
            total_chunks: 0,
            original_size: 0,
        }
    }

    /// A header read back from a file is accepted only with the right magic.
    pub fn validate(&self) -> (r: Result<(), Error>)
        ensures
            self.magic@ == container_magic() ==> r is Ok,
            self.magic@ != container_magic() ==> r matches Err(Error::InvalidFormat),
    {
        let expected: [u8; 11] = [67u8, 76, 76, 88, 70, 83, 45, 80, 82, 79, 0];
        assert(expected@ =~= container_magic());
        let mut i: usize = 0;
        while i < 11
            invariant
                i <= 11,
                expected@ == container_magic(),
                forall|k: int| 0 <= k < i ==> self.magic@[k] == container_magic()[k],
            decreases 11 - i,
        {
            if self.magic[i] != expected[i] {
                return Err(Error::InvalidFormat);
            }
            i = i + 1;
        }
        assert(self.magic@ =~= container_magic());
        Ok(())
    }

    /// Whether any bit of `flag` is set.
    pub fn has_flag(&self, flag: u32) -> (r: bool)
        ensures
            r == (self.flags & flag != 0),
    {
        (self.flags & flag) != 0
    }

    /// Sets the bits of `flag`.
    pub fn set_flag(&mut self, flag: u32)
        ensures
            final(self).flags == old(self).flags | flag,
            final(self).magic == old(self).magic,
            final(self).version == old(self).version,
            final(self).chunk_size == old(self).chunk_size,
            final(self).cipher_id == old(self).cipher_id,
            final(self).kdf_id == old(self).kdf_id,
            final(self).kem_id == old(self).kem_id,
            final(self).file_nonce == old(self).file_nonce,
            final(self).total_chunks == old(self).total_chunks,
            final(self).original_size == old(self).original_size,
    {
        self.flags = self.flags | flag;
    }
}

/// Law: after setting a flag, the header has that flag, and every flag it had before.
pub proof fn lemma_set_flag_then_has(before: u32, flag: u32, other: u32)
    requires
        flag != 0,
    ensures
        (before | flag) & flag != 0,
        before & other != 0 ==> (before | flag) & other != 0,
{
    assert(flag != 0 ==> (before | flag) & flag != 0) by (bit_vector);
    assert(before & other != 0 ==> (before | flag) & other != 0) by (bit_vector);
}

} // verus!
