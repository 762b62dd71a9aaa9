//! How the content of a file is stored.

use vstd::prelude::*;
use vstd::string::*;

use crate::errors::ErrorKind;
use crate::types::Address;

verus! {

/// Data for the event reporting the stored representation of file content.
#[derive(Clone, Copy, Debug)]
pub struct LoreFileDumpEventData {
    /// Address of the content.
    pub address: Address,
    /// Flags describing the stored content.
    pub flags: u32,
    /// Size of the stored payload in bytes.
    pub size_payload: u32,
    /// Size of the content in bytes.
    pub size_content: u64,
    /// Set when a matching stored object was found.
    pub match_made: u8,
}

/// Failure of a dump.
#[derive(Debug)]
pub struct DumpError {
    pub kind: ErrorKind,
    pub detail: String,
}

/// What the store tells of an address.
#[derive(Clone, Copy, Debug, PartialEq, Eq, Structural)]
pub struct StoredFragment {
    pub flags: u32,
    pub size_payload: u32,
    pub size_content: u64,
    pub match_made: u8,
}

/// The address of a file's content, given that of its node where the node is
/// valid.
pub fn dump_file(node: Option<Address>) -> (result: Result<Address, DumpError>)
    ensures
        result is Ok <==> node is Some,
        result matches Ok(address) ==> node == Some(address),
        result matches Err(e) ==> e.kind == ErrorKind::Internal && e.detail@ == "invalid node"@,
{
    match node {
        Some(address) => Ok(address),
        None => Err(
            DumpError { kind: ErrorKind::Internal, detail: "invalid node".to_owned() },
        ),
    }
}

/// What is reported of an address.
pub fn dump_address(address: Address, fragment: &StoredFragment) -> (event: LoreFileDumpEventData)
    ensures
        event.address == address,
        event.flags == fragment.flags,
        event.size_payload == fragment.size_payload,
        event.size_content == fragment.size_content,
        event.match_made == fragment.match_made,
{
    LoreFileDumpEventData {
        address,
        flags: fragment.flags,
        size_payload: fragment.size_payload,
        size_content: fragment.size_content,
        match_made: fragment.match_made,
    }
}

} // verus!
