//! Container formats: headers, chunk index and the simple single-file container.
pub mod flags;
pub mod format;
pub mod header;
pub mod builder;
pub mod simple_format;

use vstd::prelude::*;
use crate::base::error::Error;
use crate::base::keys::MasterKey;
use crate::capsule::Capsule;
use crate::merkle::MerkleTree;

pub use format::{
    ContainerFormat, SuperHeaderV1, CapsuleData, KeyMetadata, ChunkIndexTable, ChunkRecord,
    MerkleData, CONTAINER_VERSION,
};
pub use header::{SuperHeader, SecurityPolicy, HashAlgo};
pub use builder::ContainerBuilder;
pub use simple_format::SimpleContainer;

verus! {

#[derive(Debug)]
pub struct Container {
    pub header: SuperHeader,
    pub policy: SecurityPolicy,
    pub capsules: Vec<Capsule>,
    pub chunk_index: ChunkIndex,
    pub merkle_tree: Option<MerkleTree>,
}

#[derive(Debug, Clone)]
pub struct ChunkIndex {
    pub entries: Vec<ChunkEntry>,
}

#[derive(Debug, Clone, Copy)]
pub struct ChunkEntry {
    pub chunk_id: u64,
    pub offset: u64,
    pub size: u32,
    pub hash: [u8; 32],
}

impl Container {
    pub fn builder() -> (b: ContainerBuilder)
        ensures
            b.spec_header().magic == header::MAGIC,
            b.spec_header().chunk_size == 1024 * 1024,
            !b.has_master_key(),
    {
        ContainerBuilder::new()
    }

    /// Decrypt the master key from the first capsule that opens; no capsule of this
    /// layout ever opens.
    pub fn decrypt_master_key(&self, secret_key: &[u8]) -> (r: Result<MasterKey, Error>)
        ensures
            r matches Err(Error::CapsuleDecryptFailed),
    {
        let mut i: usize = 0;
        while i < self.capsules.len()
            invariant
                i <= self.capsules@.len(),
            decreases self.capsules@.len() - i,
        {
            match self.capsules[i].decrypt(secret_key) {
                Ok(key) => {
                    return Ok(key);
                },
                Err(_) => {},
            }
            i = i + 1;
        }
        Err(Error::CapsuleDecryptFailed)
    }
}

} // verus!
