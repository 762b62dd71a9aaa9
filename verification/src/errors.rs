//! What can go wrong, and how a failure is reported to callers of the engine.

use vstd::prelude::*;

verus! {

/// Category of a failure.
#[derive(Clone, Copy, Debug, PartialEq, Eq, Structural)]
pub enum ErrorKind {
    AddressNotFound,
    AlreadyLinked,
    BranchAdvanced,
    BranchAlreadyExists,
    BranchNotFound,
    Conflict,
    DeleteCurrent,
    DeleteDefault,
    DeleteProtected,
    Disconnected,
    Divergent,
    FileNotFound,
    IdenticalMetadata,
    InvalidArguments,
    InvalidNodeHierarchy,
    InvalidPath,
    LayerNotFound,
    LinkNotFound,
    LinkPathNotFound,
    LocalModifications,
    LockNotFound,
    LockNotOwned,
    Maintenance,
    MaxHistorySearchDepth,
    MissingIdentity,
    NoRemote,
    NodeNotFound,
    NotALayer,
    NotALink,
    NotAuthenticated,
    NotAuthorized,
    NotConnected,
    NotFound,
    NotSupported,
    NothingStaged,
    Oversized,
    PayloadNotFound,
    RepositoryAlreadyExists,
    RepositoryNotFound,
    RevisionNotFound,
    SharedStoreNotFound,
    SlowDown,
    TokenNotFound,
    WriteRequired,
    /// Anything that has no category of its own.
    Internal,
}

/// Failure code handed to callers of the engine.
#[derive(Clone, Copy, Debug, PartialEq, Eq, Structural)]
pub enum LoreError {
    AddressNotFound,
    AlreadyExists,
    Connection,
    FileNotFound,
    Internal,
    InvalidArguments,
    NotFound,
    Oversized,
    PayloadNotFound,
    SlowDown,
}

} // verus!
