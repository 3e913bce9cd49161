use vstd::prelude::*;

verus! {

/// Everything that can go wrong in the library.
///
/// `Io` carries the text of an I/O failure reported by the caller's
/// environment; the library itself performs no I/O.
#[derive(Debug, Clone, PartialEq, Eq)]
pub enum Error {
    Crypto(String),
    InvalidFormat,
    AuthFailed,
    IntegrityFailed,
    CapsuleDecryptFailed,
    TimeLocked,
    RansomwareDetected,
    InvalidInput(String),
    Io(String),
    Serialization(String),
}

/// Result type used throughout the library.
pub type Result<T> = std::result::Result<T, Error>;

/// The message shown to a user for an error.
pub open spec fn error_message(e: Error) -> Seq<char> {
    match e {
        Error::Crypto(s) => "Crypto error: "@ + s@,
        Error::InvalidFormat => "Invalid container format"@,
        Error::AuthFailed => "Authentication failed"@,
        Error::IntegrityFailed => "Integrity check failed"@,
        Error::CapsuleDecryptFailed => "Capsule decryption failed"@,
        Error::TimeLocked => "Time-lock not expired"@,
        Error::RansomwareDetected => "Anti-ransomware protection triggered"@,
        Error::InvalidInput(s) => "Invalid input: "@ + s@,
        Error::Io(s) => "IO error: "@ + s@,
        Error::Serialization(s) => "Serialization error: "@ + s@,
    }
}

impl Error {
    /// The message shown to a user for this error.
    pub fn message(&self) -> (m: String)
        ensures
            m@ == error_message(*self),
    {
        match self {
            Error::Crypto(s) => {
                let mut m = "Crypto error: ".to_owned();
                m.append(s.as_str());
                m
            },
            Error::InvalidFormat => "Invalid container format".to_owned(),
            Error::AuthFailed => "Authentication failed".to_owned(),
            Error::IntegrityFailed => "Integrity check failed".to_owned(),
            Error::CapsuleDecryptFailed => "Capsule decryption failed".to_owned(),
            Error::TimeLocked => "Time-lock not expired".to_owned(),
            Error::RansomwareDetected => "Anti-ransomware protection triggered".to_owned(),
            Error::InvalidInput(s) => {
                let mut m = "Invalid input: ".to_owned();
                m.append(s.as_str());
                m
            },
            Error::Io(s) => {
                let mut m = "IO error: ".to_owned();
                m.append(s.as_str());
                m
            },
            Error::Serialization(s) => {
                let mut m = "Serialization error: ".to_owned();
                m.append(s.as_str());
                m
            },
        }
    }
}

} // verus!
