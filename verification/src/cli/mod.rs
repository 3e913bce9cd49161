//! The command-line tool's logic: key files, sealing and opening whole files, and
//! progress state.
pub mod keys;
pub mod commands;
pub mod progress;
pub mod embedded;

pub use commands::{EncryptCommand, DecryptCommand, InfoCommand, VerifyCommand, SealedFile, Language};
pub use progress::ProgressBar;
