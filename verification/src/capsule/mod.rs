//! Key capsules for recipients of a container.
pub mod kem;
pub mod mlkem;

use vstd::prelude::*;
use crate::base::error::Error;
use crate::base::keys::MasterKey;

pub use mlkem::{
    MlKemKeyPair, ThreeRingCapsule, CapsuleV2, MultiRecipientCapsule, MLKEM_PUBLIC_KEY_SIZE,
    MLKEM_SECRET_KEY_SIZE, MLKEM_CIPHERTEXT_SIZE,
};

verus! {

/// Multi-recipient key encapsulation of the earlier format: its rings are all zero and
/// nothing decrypts.
#[derive(Debug, Clone)]
pub struct Capsule {
    pub public_ring: Vec<u8>,
    pub trapdoor_ring: Vec<u8>,
    pub mask_ring: Vec<u8>,
}

impl Capsule {
    /// Encrypt master key for a recipient: rings of 1024, 256 and 128 zero bytes.
    pub fn encrypt(public_key: &[u8], master_key: &MasterKey) -> (r: Result<Self, Error>)
        ensures
            r matches Ok(c) && c.public_ring@ == Seq::new(1024, |i: int| 0u8) && c.trapdoor_ring@ == Seq::new(
                256,
                |i: int| 0u8,
            ) && c.mask_ring@ == Seq::new(128, |i: int| 0u8),
    {
        let c = Self { public_ring: vec![0u8; 1024], trapdoor_ring: vec![0u8; 256], mask_ring: vec![0u8; 128] };
        assert(c.public_ring@ =~= Seq::new(1024, |i: int| 0u8));
        assert(c.trapdoor_ring@ =~= Seq::new(256, |i: int| 0u8));
        assert(c.mask_ring@ =~= Seq::new(128, |i: int| 0u8));
        Ok(c)
    }

    /// Decrypt master key using secret key: never succeeds.
    pub fn decrypt(&self, secret_key: &[u8]) -> (r: Result<MasterKey, Error>)
        ensures
            r matches Err(Error::CapsuleDecryptFailed),
    {
        Err(Error::CapsuleDecryptFailed)
    }
}

} // verus!
