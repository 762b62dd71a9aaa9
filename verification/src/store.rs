//! What is read from and written to the mutable store of a repository.

use vstd::prelude::*;
use vstd::string::*;

use crate::hexadecimal::encode;
use crate::hexadecimal::hex_text;
use crate::types::ContentHash;
use crate::types::RepositoryId;

verus! {

/// What a key of the mutable store stands for.
#[derive(Clone, Copy, Debug, PartialEq, Eq, Structural)]
pub enum KeyType {
    Untyped,
    Instance,
    RepositoryId,
    RepositoryMetadata,
}

/// A key of the mutable store: the arguments that its hash is made of, and what
/// it stands for.
#[derive(Debug, PartialEq, Eq)]
pub struct MutableKey {
    pub salt: String,
    pub function: String,
    pub argument: String,
    pub key_type: KeyType,
}

impl MutableKey {
    /// The key of a function on some bytes, which are written in hexadecimal.
    pub(crate) fn of_bytes(salt: &str, function: &str, bytes: &[u8], key_type: KeyType) -> (key:
        MutableKey)
        requires
            bytes@.len() <= isize::MAX / 2,
        ensures
            key.salt@ == salt@,
            key.function@ == function@,
            key.argument@ == hex_text(bytes@),
            key.key_type == key_type,
    {
        MutableKey {
            salt: salt.to_owned(),
            function: function.to_owned(),
            argument: encode(bytes),
            key_type,
        }
    }
}

/// A value to write to the mutable store.
#[derive(Debug)]
pub struct StoreRequest {
    pub repository: RepositoryId,
    pub key: MutableKey,
    pub value: ContentHash,
}

/// A key of the store of a repository, as contracts speak of it: the repository,
/// the salt, the function, its argument, and what the key stands for.
pub type StoreKeyView = (RepositoryId, Seq<char>, Seq<char>, Seq<char>, KeyType);

impl StoreRequest {
    /// The key that the value is written to.
    pub open spec fn at(&self) -> StoreKeyView {
        (
            self.repository,
            self.key.salt@,
            self.key.function@,
            self.key.argument@,
            self.key.key_type,
        )
    }
}

/// The values of a store after requests, in order.
pub open spec fn written(
    values: Map<StoreKeyView, ContentHash>,
    requests: Seq<StoreRequest>,
) -> Map<StoreKeyView, ContentHash>
    decreases requests.len(),
{
    if requests.len() == 0 {
        values
    } else {
        written(values, requests.drop_last()).insert(requests.last().at(), requests.last().value)
    }
}

/// Requests write to a key.
pub open spec fn writes_to(requests: Seq<StoreRequest>, key: StoreKeyView) -> bool {
    exists|i: int| 0 <= i < requests.len() && (#[trigger] requests[i]).at() == key
}

/// Requests that write zeros leave a zero under every key that they write to, and
/// every other key alone.
pub proof fn law_zeros_are_written(
    values: Map<StoreKeyView, ContentHash>,
    requests: Seq<StoreRequest>,
    key: StoreKeyView,
)
    requires
        forall|i: int| 0 <= i < requests.len() ==> (#[trigger] requests[i]).value.is_zero(),
    ensures
        ({
            let after = written(values, requests);
            if writes_to(requests, key) {
                after.contains_key(key) && after[key].is_zero()
            } else {
                &&& after.contains_key(key) == values.contains_key(key)
                &&& values.contains_key(key) ==> after[key] == values[key]
            }
        }),
    decreases requests.len(),
{
    if requests.len() > 0 {
        let first = requests.drop_last();
        assert forall|i: int| 0 <= i < first.len() implies (
        #[trigger] first[i]).value.is_zero() by {
            assert(first[i] == requests[i]);
        }
        law_zeros_are_written(values, first, key);
        if writes_to(first, key) {
            let i = choose|i: int| 0 <= i < first.len() && (#[trigger] first[i]).at() == key;
            assert(requests[i].at() == key);
        }
        if requests.last().at() == key {
            assert(requests[requests.len() - 1].at() == key);
        } else if writes_to(requests, key) {
            let i = choose|i: int| 0 <= i < requests.len() && (#[trigger] requests[i]).at() == key;
            assert(first[i].at() == key);
        }
    }
}

} // verus!
