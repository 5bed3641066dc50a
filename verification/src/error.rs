//! The ways in which an operation of the store can fail.

use vstd::prelude::*;
use vstd::string::*;

verus! {

/// Why an operation failed.
#[derive(Debug, Clone, Copy, PartialEq, Eq, Structural)]
pub enum StorageError {
    /// An identifier names no row.
    NotFound,
    /// A directory would become its own ancestor.
    InvalidMove,
    /// A blob could not be written, read or removed.
    StorageIO,
    /// The metadata tables refused a change; an identifier that is already
    /// taken is reported this way.
    MetadataIO,
}

impl StorageError {
    /// The HTTP status under which the error is reported.
    pub open spec fn status_of(self) -> int {
        match self {
            StorageError::NotFound => 404,
            StorageError::InvalidMove => 400,
            StorageError::StorageIO => 500,
            StorageError::MetadataIO => 500,
        }
    }

    /// The HTTP status under which the error is reported.
    pub fn status(&self) -> (code: u16)
        ensures
            code == self.status_of(),
    {
        match self {
            StorageError::NotFound => 404,
            StorageError::InvalidMove => 400,
            StorageError::StorageIO => 500,
            StorageError::MetadataIO => 500,
        }
    }

    /// The text that describes the error.
    pub open spec fn message_of(self) -> Seq<char> {
        match self {
            StorageError::NotFound => "not found"@,
            StorageError::InvalidMove => "a directory cannot be moved into itself or below itself"@,
            StorageError::StorageIO => "blob storage failed"@,
            StorageError::MetadataIO => "metadata store failed"@,
        }
    }

    /// The text that describes the error.
    pub fn message(&self) -> (text: String)
        ensures
            text@ == self.message_of(),
    {
        match self {
            StorageError::NotFound => String::from_str("not found"),
            StorageError::InvalidMove => String::from_str(
                "a directory cannot be moved into itself or below itself",
            ),
            StorageError::StorageIO => String::from_str("blob storage failed"),
            StorageError::MetadataIO => String::from_str("metadata store failed"),
        }
    }
}

} // verus!
