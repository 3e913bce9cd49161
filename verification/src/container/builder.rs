// Builder of containers of the first layout.
use vstd::prelude::*;
use crate::base::error::Error;
use crate::base::keys::MasterKey;
use super::header::{SuperHeader, SecurityPolicy, MAGIC, VERSION};
use super::{Container, ChunkIndex};

verus! {

pub struct ContainerBuilder {
    header: SuperHeader,
    policy: SecurityPolicy,
    master_key: Option<MasterKey>,
}

impl ContainerBuilder {
    /// The header the container will have.
    pub closed spec fn spec_header(&self) -> SuperHeader {
        self.header
    }

    /// The policy the container will have.
    pub closed spec fn spec_policy(&self) -> SecurityPolicy {
        self.policy
    }

    /// Whether a master key was given.
    pub closed spec fn has_master_key(&self) -> bool {
        self.master_key is Some
    }

    /// A builder with the default header and policy and no master key.
    pub fn new() -> (b: Self)
        ensures
            b.spec_header().magic == MAGIC,
            b.spec_header().version == VERSION,
            b.spec_header().chunk_size == 1024 * 1024,
            b.spec_policy() == (SecurityPolicy {
                anti_ransom_mode: false,
                stealth_mode: false,
                timelock_flag: false,
                share_mode: false,
                dedup_mode: false,
            }),
            !b.has_master_key(),
    {
        Self { header: SuperHeader::default(), policy: SecurityPolicy::default(), master_key: None }
    }

    pub fn chunk_size(self, size: u32) -> (b: Self)
        ensures
            b.spec_header() == (SuperHeader { chunk_size: size, ..self.spec_header() }),
            b.spec_policy() == self.spec_policy(),
            b.has_master_key() == self.has_master_key(),
    {
        let mut b = self;
        b.header.chunk_size = size;
        b
    }

    pub fn anti_ransom(self, enabled: bool) -> (b: Self)
        ensures
            b.spec_header() == self.spec_header(),
            b.spec_policy() == (SecurityPolicy { anti_ransom_mode: enabled, ..self.spec_policy() }),
            b.has_master_key() == self.has_master_key(),
    {
        let mut b = self;
        b.policy.anti_ransom_mode = enabled;
        b
    }

    pub fn stealth_mode(self, enabled: bool) -> (b: Self)
        ensures
            b.spec_header() == self.spec_header(),
            b.spec_policy() == (SecurityPolicy { stealth_mode: enabled, ..self.spec_policy() }),
            b.has_master_key() == self.has_master_key(),
    {
        let mut b = self;
        b.policy.stealth_mode = enabled;
        b
    }

    pub fn timelock(self, enabled: bool) -> (b: Self)
        ensures
            b.spec_header() == self.spec_header(),
            b.spec_policy() == (SecurityPolicy { timelock_flag: enabled, ..self.spec_policy() }),
            b.has_master_key() == self.has_master_key(),
    {
        let mut b = self;
        b.policy.timelock_flag = enabled;
        b
    }

    pub fn dedup(self, enabled: bool) -> (b: Self)
        ensures
            b.spec_header() == self.spec_header(),
            b.spec_policy() == (SecurityPolicy { dedup_mode: enabled, ..self.spec_policy() }),
            b.has_master_key() == self.has_master_key(),
    {
        let mut b = self;
        b.policy.dedup_mode = enabled;
        b
    }

    pub fn master_key(self, key: MasterKey) -> (b: Self)
        ensures
            b.spec_header() == self.spec_header(),
            b.spec_policy() == self.spec_policy(),
            b.has_master_key(),
    {
        let mut b = self;
        b.master_key = Some(key);
        b
    }

    /// An empty container with the builder's header and policy (a master key is
    /// generated when none was given).
    pub fn build(self) -> (r: Result<Container, Error>)
        ensures
            r matches Ok(c) && c.header == self.spec_header() && c.policy == self.spec_policy() && c.capsules@.len()
                == 0 && c.chunk_index.entries@.len() == 0 && c.merkle_tree is None,
    {
        let _master_key = match self.master_key {
            Some(k) => k,
            None => MasterKey::generate(),
        };
        Ok(Container {
            header: self.header,
            policy: self.policy,
            capsules: Vec::new(),
            chunk_index: ChunkIndex { entries: Vec::new() },
            merkle_tree: None,
        })
    }
}

impl Default for ContainerBuilder {
    fn default() -> (b: Self)
        ensures
            b.spec_header().magic == MAGIC,
            b.spec_header().chunk_size == 1024 * 1024,
            !b.has_master_key(),
    {
        Self::new()
    }
}

} // verus!
