//! Errors reported by the store.

use vstd::prelude::*;
use vstd::string::*;

verus! {

/// Errors that can occur while using the store.
#[derive(Debug, PartialEq, Eq)]
pub enum TinyKVError {
    /// The storage medium failed to read, write, copy or rename.
    Io(String),
    /// A value or the persisted document could not be encoded or decoded.
    Serialization(String),
    /// The system clock reports a time before the UNIX epoch.
    TimeError,
}

/// The text `IO error: `.
pub open spec fn io_label() -> Seq<char> {
    seq!['I', 'O', ' ', 'e', 'r', 'r', 'o', 'r', ':', ' ']
}

/// The text `Serialization error: `.
pub open spec fn serialization_label() -> Seq<char> {
    seq!['S', 'e', 'r', 'i', 'a', 'l', 'i', 'z', 'a', 't', 'i', 'o', 'n', ' ', 'e', 'r', 'r', 'o', 'r', ':', ' ']
}

/// The text `Time error`.
pub open spec fn time_label() -> Seq<char> {
    seq!['T', 'i', 'm', 'e', ' ', 'e', 'r', 'r', 'o', 'r']
}

impl TinyKVError {
    /// A one-line description: the kind of error, then its detail.
    pub fn message(&self) -> (r: String)
        ensures
            r@ == match self {
                TinyKVError::Io(m) => io_label() + m@,
                TinyKVError::Serialization(m) => serialization_label() + m@,
                TinyKVError::TimeError => time_label(),
            },
    {
        proof {
            reveal_strlit("IO error: ");
            reveal_strlit("Serialization error: ");
            reveal_strlit("Time error");
        }
        match self {
            TinyKVError::Io(m) => {
                let mut r = "IO error: ".to_owned();
                r.append(m.as_str());
                r
            },
            TinyKVError::Serialization(m) => {
                let mut r = "Serialization error: ".to_owned();
                r.append(m.as_str());
                r
            },
            TinyKVError::TimeError => {
                let r = "Time error".to_owned();
                assert(r@ =~= time_label());
                r
            },
        }
    }
}

} // verus!
