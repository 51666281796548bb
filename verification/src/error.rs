//! The error type shared by the storage engines, the server and the client.

use vstd::prelude::*;

verus! {

/// Error type for kvs.
#[derive(Clone, Debug, PartialEq, Eq)]
pub enum KvsError {
    /// A filesystem or socket failure, reported by the unverified shell
    /// around the library; the string carries the operating system's message.
    Io(String),
    /// A malformed or truncated record, request or response.
    Codec,
    /// `remove` was asked for a key that is not in the store.
    KeyNotFound,
    /// A record that must never appear on disk was read back from the log.
    UnexpectedCommandType,
    /// An error string carried in a wire response.
    StringError(String),
}

impl KvsError {
    /// The human-readable message for this error, as the server puts it
    /// into a wire response and the command lines print it.
    pub fn message(&self) -> (r: String)
        ensures
            r@ == self.spec_message(),
    {
        match self {
            KvsError::Io(m) => {
                let mut s = String::new();
                s.append("IO error with ");
                s.append(m.as_str());
                s
            },
            KvsError::Codec => String::from_str("serde error"),
            KvsError::KeyNotFound => String::from_str("Key not found"),
            KvsError::UnexpectedCommandType => String::from_str("Unexpected command type"),
            KvsError::StringError(m) => m.clone(),
        }
    }

    /// What `message` returns, as a sequence of characters.
    pub open spec fn spec_message(&self) -> Seq<char> {
        match self {
            KvsError::Io(m) => "IO error with "@ + m@,
            KvsError::Codec => "serde error"@,
            KvsError::KeyNotFound => "Key not found"@,
            KvsError::UnexpectedCommandType => "Unexpected command type"@,
            KvsError::StringError(m) => m@,
        }
    }
}

} // verus!
