//! The content hash of a local file.

use vstd::prelude::*;
use vstd::string::*;

use crate::errors::ErrorKind;
use crate::errors::LoreError;
use crate::types::ContentHash;

verus! {

/// Failure of hashing a file.
#[derive(Debug)]
pub struct HashError {
    pub kind: ErrorKind,
    pub detail: String,
}

impl HashError {
    /// The code reported to callers of the engine.
    pub fn translated(&self) -> (code: LoreError)
        ensures
            code == LoreError::Internal,
    {
        LoreError::Internal
    }

    /// The text of the failure.
    pub fn inner(&self) -> (text: String)
        ensures
            text@ == self.detail@,
    {
        self.detail.clone()
    }
}

/// Data for the event reporting the hash of a single file.
#[derive(Debug)]
pub struct LoreFileHashEventData {
    /// Path of the file.
    pub path: String,
    /// Size of the file in bytes.
    pub size: u64,
    /// Content hash of the file.
    pub hash: ContentHash,
}

/// What a path is on the local filesystem.
#[derive(Clone, Copy, Debug, PartialEq, Eq, Structural)]
pub enum HashTarget {
    File(u64),
    NotAFile,
    Inaccessible,
}

/// The failure of a path that cannot be hashed, if it cannot.
pub open spec fn target_failure(target: HashTarget) -> Option<(ErrorKind, Seq<char>)> {
    match target {
        HashTarget::File(_) => None,
        HashTarget::NotAFile => Some((ErrorKind::InvalidArguments, "path is not a file"@)),
        HashTarget::Inaccessible => Some(
            (ErrorKind::InvalidArguments, "path does not exist or is not accessible"@),
        ),
    }
}

/// Only a file can be hashed. Tells its size.
pub fn check_target(target: HashTarget) -> (result: Result<u64, HashError>)
    ensures
        result is Ok <==> target is File,
        result matches Ok(size) ==> target == HashTarget::File(size),
        result matches Err(e) ==> target_failure(target) == Some((e.kind, e.detail@)),
{
    match target {
        HashTarget::File(size) => Ok(size),
        HashTarget::NotAFile => Err(
            HashError {
                kind: ErrorKind::InvalidArguments,
                detail: "path is not a file".to_owned(),
            },
        ),
        HashTarget::Inaccessible => Err(
            HashError {
                kind: ErrorKind::InvalidArguments,
                detail: "path does not exist or is not accessible".to_owned(),
            },
        ),
    }
}

/// What is reported of a file, given its hash where reading it succeeded.
pub fn hash(path: String, size: u64, hashed: Option<ContentHash>) -> (result: Result<
    LoreFileHashEventData,
    HashError,
>)
    ensures
        result is Ok <==> hashed is Some,
        result matches Ok(event) ==> event.path@ == path@ && event.size == size && hashed == Some(
            event.hash,
        ),
        result matches Err(e) ==> e.kind == ErrorKind::Internal && e.detail@ == "hashing file"@,
{
    match hashed {
        Some(hash) => Ok(LoreFileHashEventData { path, size, hash }),
        None => Err(
            HashError { kind: ErrorKind::Internal, detail: "hashing file".to_owned() },
        ),
    }
}

} // verus!
