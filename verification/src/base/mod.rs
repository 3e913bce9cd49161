//! Keys, key derivation, authenticated encryption and the error type.
pub mod error;
pub mod keys;
pub mod bytes;
pub mod clock;

pub use error::{Error, Result};
pub use keys::{MasterKey, KeyDerivation};
pub mod digest;
pub mod crypto;
pub use crypto::{AeadCipher, CipherType};
