//! cllX-FS: chunked, authenticated file encryption with an integer
//! transform layer, Merkle integrity trees and key encapsulation.
pub mod base;
pub mod cllx_math;
pub mod merkle;
pub mod container;
pub mod chunk;
pub mod stealth;
pub mod timelock;
pub mod dedup;
pub mod lazy;
pub mod antiransom;
pub mod capsule;
pub mod cli;

pub use crate::base::error::{Error, Result};
