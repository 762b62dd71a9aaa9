//! Fixed-size identifiers: content hashes, contexts and fragment addresses.

use vstd::prelude::*;

verus! {

/// Number of bytes of a [`ContentHash`].
pub const HASH_SIZE: usize = 32;

/// Number of bytes of a [`Context`].
pub const CONTEXT_SIZE: usize = 16;

/// Number of bytes of an [`Address`]: its hash followed by its context.
pub const ADDRESS_SIZE: usize = 48;

/// Content hash of a stored fragment or of a revision. The zero hash stands
/// for "none".
#[derive(Clone, Copy, Debug)]
pub struct ContentHash {
    pub data: [u8; 32],
}

/// Sixteen byte identifier.
#[derive(Clone, Copy, Debug)]
pub struct Context {
    pub data: [u8; 16],
}

/// Identifier of a branch.
pub type BranchId = Context;

/// Identifier of a repository.
pub type RepositoryId = Context;

/// Location of a fragment in an immutable store.
#[derive(Clone, Copy, Debug)]
pub struct Address {
    pub hash: ContentHash,
    pub context: Context,
}

/// Compares two byte slices.
pub fn bytes_equal(a: &[u8], b: &[u8]) -> (equal: bool)
    ensures
        equal == (a@ == b@),
{
    if a.len() != b.len() {
        return false;
    }
    let mut i: usize = 0;
    while i < a.len()
        invariant
            a@.len() == b@.len(),
            i <= a@.len(),
            forall|j: int| 0 <= j < i ==> a@[j] == b@[j],
        decreases a@.len() - i,
    {
        if a[i] != b[i] {
            return false;
        }
        i = i + 1;
    }
    assert(a@ =~= b@);
    true
}

/// Tells whether every byte is zero.
pub open spec fn all_zero(bytes: Seq<u8>) -> bool {
    forall|i: int| 0 <= i < bytes.len() ==> bytes[i] == 0
}

fn is_all_zero(bytes: &[u8]) -> (zero: bool)
    ensures
        zero == all_zero(bytes@),
{
    let mut i: usize = 0;
    while i < bytes.len()
        invariant
            i <= bytes@.len(),
            forall|j: int| 0 <= j < i ==> bytes@[j] == 0,
        decreases bytes@.len() - i,
    {
        if bytes[i] != 0 {
            return false;
        }
        i = i + 1;
    }
    true
}

impl PartialEq for ContentHash {
    fn eq(&self, other: &ContentHash) -> (equal: bool) {
        let equal = bytes_equal(&self.data, &other.data);
        proof {
            if equal {
                assert(self.data =~= other.data);
            }
        }
        equal
    }
}

impl vstd::std_specs::cmp::PartialEqSpecImpl for ContentHash {
    open spec fn obeys_eq_spec() -> bool {
        true
    }

    open spec fn eq_spec(&self, other: &ContentHash) -> bool {
        *self == *other
    }
}

impl Eq for ContentHash {

}

impl ContentHash {
    /// The hash stands for "none".
    pub open spec fn spec_is_zero(&self) -> bool {
        all_zero(self.data@)
    }

    /// The hash made of the given bytes.
    pub fn new(data: [u8; 32]) -> (hash: ContentHash)
        ensures
            hash.data == data,
    {
        ContentHash { data }
    }

    /// Tells whether this is the zero hash.
    #[verifier::when_used_as_spec(spec_is_zero)]
    pub fn is_zero(&self) -> (zero: bool)
        ensures
            zero == self.spec_is_zero(),
    {
        is_all_zero(&self.data)
    }

    /// The bytes of the hash.
    pub fn data(&self) -> (bytes: &[u8])
        ensures
            bytes@ == self.data@,
    {
        &self.data
    }

    /// Copies a hash out of exactly [`HASH_SIZE`] bytes.
    pub fn from_slice(bytes: &[u8]) -> (hash: ContentHash)
        requires
            bytes@.len() == HASH_SIZE,
        ensures
            hash.data@ == bytes@,
    {
        let mut data: [u8; 32] = [0u8; 32];
        let mut i: usize = 0;
        while i < 32
            invariant
                i <= 32,
                bytes@.len() == 32,
                forall|j: int| 0 <= j < i ==> data@[j] == bytes@[j],
            decreases 32 - i,
        {
            data[i] = bytes[i];
            i = i + 1;
        }
        assert(data@ =~= bytes@);
        ContentHash { data }
    }
}

impl Default for ContentHash {
    fn default() -> (hash: ContentHash)
        ensures
            hash.is_zero(),
    {
        ContentHash { data: [0u8; 32] }
    }
}

impl PartialEq for Context {
    fn eq(&self, other: &Context) -> (equal: bool) {
        let equal = bytes_equal(&self.data, &other.data);
        proof {
            if equal {
                assert(self.data =~= other.data);
            }
        }
        equal
    }
}

impl vstd::std_specs::cmp::PartialEqSpecImpl for Context {
    open spec fn obeys_eq_spec() -> bool {
        true
    }

    open spec fn eq_spec(&self, other: &Context) -> bool {
        *self == *other
    }
}

impl Eq for Context {

}

impl Context {
    /// The context stands for "none".
    pub open spec fn spec_is_zero(&self) -> bool {
        all_zero(self.data@)
    }

    /// The context made of the given bytes.
    pub fn new(data: [u8; 16]) -> (context: Context)
        ensures
            context.data == data,
    {
        Context { data }
    }

    /// Tells whether this is the zero context.
    #[verifier::when_used_as_spec(spec_is_zero)]
    pub fn is_zero(&self) -> (zero: bool)
        ensures
            zero == self.spec_is_zero(),
    {
        is_all_zero(&self.data)
    }

    /// The bytes of the context.
    pub fn data(&self) -> (bytes: &[u8])
        ensures
            bytes@ == self.data@,
    {
        &self.data
    }

    /// Copies a context out of exactly [`CONTEXT_SIZE`] bytes.
    pub fn from_slice(bytes: &[u8]) -> (context: Context)
        requires
            bytes@.len() == CONTEXT_SIZE,
        ensures
            context.data@ == bytes@,
    {
        let mut data: [u8; 16] = [0u8; 16];
        let mut i: usize = 0;
        while i < 16
            invariant
                i <= 16,
                bytes@.len() == 16,
                forall|j: int| 0 <= j < i ==> data@[j] == bytes@[j],
            decreases 16 - i,
        {
            data[i] = bytes[i];
            i = i + 1;
        }
        assert(data@ =~= bytes@);
        Context { data }
    }
}

impl Default for Context {
    fn default() -> (context: Context)
        ensures
            context.is_zero(),
    {
        Context { data: [0u8; 16] }
    }
}

impl Address {
    /// The stored form of an address.
    pub open spec fn bytes(&self) -> Seq<u8> {
        self.hash.data@ + self.context.data@
    }

    /// The hash bytes followed by the context bytes.
    pub fn to_bytes(&self) -> (bytes: Vec<u8>)
        ensures
            bytes@ == self.bytes(),
            bytes@.len() == ADDRESS_SIZE,
    {
        let mut bytes: Vec<u8> = Vec::new();
        bytes.extend_from_slice(&self.hash.data);
        bytes.extend_from_slice(&self.context.data);
        assert(bytes@ =~= self.bytes());
        bytes
    }

    /// Copies an address out of exactly [`ADDRESS_SIZE`] bytes.
    pub fn from_slice(bytes: &[u8]) -> (address: Address)
        requires
            bytes@.len() == ADDRESS_SIZE,
        ensures
            address.bytes() == bytes@,
    {
        let address = Address {
            hash: ContentHash::from_slice(vstd::slice::slice_subrange(bytes, 0, 32)),
            context: Context::from_slice(vstd::slice::slice_subrange(bytes, 32, 48)),
        };
        assert(address.bytes() =~= bytes@);
        address
    }
}

/// Two hashes made of zero bytes are the same hash.
pub proof fn lemma_zero_hash_unique(a: ContentHash, b: ContentHash)
    requires
        a.is_zero(),
        b.is_zero(),
    ensures
        a == b,
{
    assert(a.data =~= b.data);
}

/// The next value of an event counter, which starts over after the largest.
pub open spec fn next_count(count: u64) -> u64 {
    if count == u64::MAX {
        0
    } else {
        (count + 1) as u64
    }
}

/// Counts one more event.
pub fn count_one(count: u64) -> (next: u64)
    ensures
        next == next_count(count),
{
    if count == u64::MAX {
        0
    } else {
        count + 1
    }
}

/// A flag, as events carry it.
pub open spec fn flag_of(set: bool) -> u8 {
    if set {
        1
    } else {
        0
    }
}

/// A flag, as events carry it.
pub fn flag(set: bool) -> (value: u8)
    ensures
        value == flag_of(set),
{
    if set {
        1
    } else {
        0
    }
}

} // verus!
