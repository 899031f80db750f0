//! The error taxonomy of the store and archive operations.
use vstd::prelude::*;

verus! {

/// What a store or archive operation can fail with. `IOError` carries the
/// text of the underlying failure, reported by the caller that touched the
/// file system.
#[derive(Debug)]
pub enum StoreError {
    /// A person record or directory that should exist is absent.
    NotFound,
    /// Reading, writing or copying failed.
    IOError(String),
    /// A record file does not hold a well-formed record document.
    ParseError,
    /// A file extension outside the classification table was handed to
    /// ingestion.
    UnsupportedType,
    /// An archive entry would resolve to a path outside the store root.
    PathSecurityError,
}

impl StoreError {
    pub open spec fn message_spec(&self) -> Seq<char> {
        match self {
            StoreError::NotFound => "not found"@,
            StoreError::IOError(m) => m@,
            StoreError::ParseError => "malformed record"@,
            StoreError::UnsupportedType => "unsupported file type"@,
            StoreError::PathSecurityError => "archive entry escapes the store root"@,
        }
    }

    /// Human-readable text, surfaced verbatim to the caller.
    pub fn message(&self) -> (m: String)
        ensures
            m@ == self.message_spec(),
    {
        match self {
            StoreError::NotFound => String::from_str("not found"),
            StoreError::IOError(m) => m.clone(),
            StoreError::ParseError => String::from_str("malformed record"),
            StoreError::UnsupportedType => String::from_str("unsupported file type"),
            StoreError::PathSecurityError => String::from_str(
                "archive entry escapes the store root",
            ),
        }
    }
}

impl Clone for StoreError {
    fn clone(&self) -> (r: Self)
        ensures
            r == *self,
    {
        match self {
            StoreError::NotFound => StoreError::NotFound,
            StoreError::IOError(m) => StoreError::IOError(m.clone()),
            StoreError::ParseError => StoreError::ParseError,
            StoreError::UnsupportedType => StoreError::UnsupportedType,
            StoreError::PathSecurityError => StoreError::PathSecurityError,
        }
    }
}

} // verus!
