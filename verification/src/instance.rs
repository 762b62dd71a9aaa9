//! Instances: the local checkouts of a repository, and where each of them
//! stands.

use vstd::prelude::*;
use vstd::string::*;
use vstd::utf8::*;

use crate::errors::ErrorKind;
use crate::errors::LoreError;
use crate::hexadecimal::decode;
use crate::hexadecimal::encode;
use crate::hexadecimal::hex_bytes;
use crate::hexadecimal::hex_text;
use crate::hexadecimal::is_hex;
use crate::hexadecimal::law_hex_round_trip;
use crate::metadata::buffer_limit;
use crate::metadata::has_key;
use crate::metadata::law_number_round_trip;
use crate::metadata::law_stored_value_is_found;
use crate::metadata::law_storing_keeps_keys_distinct;
use crate::metadata::law_storing_keeps_other_keys;
use crate::metadata::lookup;
use crate::metadata::stored;
use crate::metadata::well_formed;
use crate::metadata::Metadata;
use crate::metadata::MetadataItem;
use crate::metadata::MetadataType;
use crate::store::law_zeros_are_written;
use crate::store::writes_to;
use crate::store::written;
use crate::store::KeyType;
use crate::store::MutableKey;
use crate::store::StoreKeyView;
use crate::store::StoreRequest;
use crate::text::text_equal;
use crate::types::all_zero;
use crate::types::bytes_equal;
use crate::types::flag;
use crate::types::flag_of;
use crate::types::BranchId;
use crate::types::ContentHash;
use crate::types::Context;
use crate::types::RepositoryId;

verus! {

/// Function of the key of an instance's metadata.
pub const INSTANCE_METADATA: &'static str = "instance-metadata";

/// Function of the key of an instance's current revision.
pub const ANCHOR_CURRENT: &'static str = "anchor-current";

/// Function of the key of an instance's current branch.
pub const ANCHOR_CURRENT_BRANCH: &'static str = "anchor-current-branch";

/// Function of the key of an instance's staged revision.
pub const ANCHOR_STAGED: &'static str = "anchor-staged";

/// A unique identity for a repository instance (a local checkout).
///
/// Each instance gets a stable `UUIDv7` generated once at creation time. The
/// instance ID is used to derive per-instance anchor keys in the mutable store,
/// distinguishing one instance's checkout state from another when sharing a
/// shared store.
#[derive(Clone, Copy, Debug)]
pub struct InstanceId {
    /// The raw 16-byte identifier
    pub data: [u8; 16],
}

impl PartialEq for InstanceId {
    fn eq(&self, other: &InstanceId) -> (equal: bool) {
        let equal = bytes_equal(&self.data, &other.data);
        proof {
            if equal {
                assert(self.data =~= other.data);
            }
        }
        equal
    }
}

impl vstd::std_specs::cmp::PartialEqSpecImpl for InstanceId {
    open spec fn obeys_eq_spec() -> bool {
        true
    }

    open spec fn eq_spec(&self, other: &InstanceId) -> bool {
        *self == *other
    }
}

impl Eq for InstanceId {

}

impl Default for InstanceId {
    fn default() -> (id: InstanceId)
        ensures
            id.is_zero(),
    {
        InstanceId { data: [0u8; 16] }
    }
}

/// `uuid::Uuid::now_v7` makes an identifier out of the time and random bytes,
/// marked as version 7 and as a variant of its standard. Which one it makes is
/// left open.
#[verifier::external_body]
fn uuid_now_v7() -> (bytes: [u8; 16])
    ensures
        bytes@[6] / 16 == 7,
        bytes@[8] / 64 == 2,
{
    uuid::Uuid::now_v7().into_bytes()
}

impl InstanceId {
    /// The identifier stands for "none".
    pub open spec fn spec_is_zero(&self) -> bool {
        all_zero(self.data@)
    }

    /// Generate a new unique instance ID using `UUIDv7`.
    pub fn generate() -> (id: InstanceId)
        ensures
            !id.is_zero(),
            id.data@[6] / 16 == 7,
            id.data@[8] / 64 == 2,
    {
        let id = InstanceId { data: uuid_now_v7() };
        assert(id.data@[6] != 0);
        id
    }

    /// Tells whether this is the zero identifier.
    #[verifier::when_used_as_spec(spec_is_zero)]
    pub fn is_zero(&self) -> (zero: bool)
        ensures
            zero == self.spec_is_zero(),
    {
        Context { data: self.data }.is_zero()
    }

    /// The bytes of the identifier.
    pub fn data(&self) -> (bytes: &[u8; 16])
        ensures
            *bytes == self.data,
    {
        &self.data
    }

    /// The identifier as it is stored.
    pub fn as_bytes(&self) -> (bytes: &[u8])
        ensures
            bytes@ == self.data@,
    {
        &self.data
    }

    /// Reads an identifier as it is stored: from the first sixteen bytes, which
    /// must be there.
    pub fn read_from(bytes: &[u8]) -> (id: Option<InstanceId>)
        ensures
            id is Some <==> bytes@.len() >= 16,
            id matches Some(i) ==> i.data@ == bytes@.take(16),
    {
        if bytes.len() < 16 {
            return None;
        }
        let context = Context::from_slice(vstd::slice::slice_subrange(bytes, 0, 16));
        assert(bytes@.subrange(0, 16) =~= bytes@.take(16));
        Some(InstanceId { data: context.data })
    }

    /// The hexadecimal text of the identifier.
    pub fn to_text(&self) -> (text: String)
        ensures
            text@ == hex_text(self.data@),
            text@.len() == 32,
    {
        encode(&self.data)
    }
}

/// An identifier read back from its stored form is the same.
pub proof fn law_instance_id_round_trip(id: InstanceId)
    ensures
        id.data@.len() >= 16,
        id.data@.take(16) == id.data@,
{
    assert(id.data@.take(16) =~= id.data@);
}

/// Derive the mutable store key for an instance's metadata entry.
pub fn instance_key(salt: &str, instance: InstanceId) -> (key: MutableKey)
    ensures
        key.salt@ == salt@,
        key.function@ == INSTANCE_METADATA@,
        key.argument@ == hex_text(instance.data@),
        key.key_type == KeyType::Instance,
{
    MutableKey::of_bytes(salt, INSTANCE_METADATA, &instance.data, KeyType::Instance)
}

/// Derive the mutable store key for an instance's anchor. The `function`
/// parameter selects which anchor.
pub fn anchor_key(salt: &str, function: &str, instance: InstanceId) -> (key: MutableKey)
    ensures
        key.salt@ == salt@,
        key.function@ == function@,
        key.argument@ == hex_text(instance.data@),
        key.key_type == KeyType::Untyped,
{
    MutableKey::of_bytes(salt, function, &instance.data, KeyType::Untyped)
}

/// Keys of different instances have different arguments.
pub proof fn law_instance_keys_differ(a: InstanceId, b: InstanceId)
    requires
        a != b,
    ensures
        hex_text(a.data@) != hex_text(b.data@),
{
    law_hex_round_trip(a.data@);
    law_hex_round_trip(b.data@);
    if a.data@ == b.data@ {
        assert(a.data =~= b.data);
    }
}

/// The anchors of an instance have different keys.
pub proof fn law_anchor_keys_differ()
    ensures
        ANCHOR_CURRENT@ != ANCHOR_CURRENT_BRANCH@,
        ANCHOR_CURRENT@ != ANCHOR_STAGED@,
        ANCHOR_CURRENT_BRANCH@ != ANCHOR_STAGED@,
        INSTANCE_METADATA@ != ANCHOR_CURRENT@,
        INSTANCE_METADATA@ != ANCHOR_CURRENT_BRANCH@,
        INSTANCE_METADATA@ != ANCHOR_STAGED@,
{
    reveal_strlit("instance-metadata");
    reveal_strlit("anchor-current");
    reveal_strlit("anchor-current-branch");
    reveal_strlit("anchor-staged");
    assert(INSTANCE_METADATA@[0] == 'i');
    assert(ANCHOR_CURRENT@[0] == 'a');
    assert(ANCHOR_CURRENT_BRANCH@[0] == 'a');
    assert(ANCHOR_STAGED@[0] == 'a');
    assert(ANCHOR_CURRENT@.len() == 14);
    assert(ANCHOR_CURRENT_BRANCH@.len() == 21);
    assert(ANCHOR_STAGED@.len() == 13);
}

// ---------------------------------------------------------------------------
// Instance metadata
// ---------------------------------------------------------------------------

/// Metadata key of an instance's path.
pub const PATH: &'static str = "path";

/// Metadata key of the time at which an instance was created.
pub const CREATED: &'static str = "created";

/// Metadata key of an instance's identifier.
pub const INSTANCE_ID: &'static str = "instance-id";

/// Instance metadata stored as a blob in the immutable store.
#[derive(Debug)]
pub struct InstanceMetadata {
    pub instance_id: InstanceId,
    pub path: String,
    pub created: u64,
}

/// Failure of an instance operation.
#[derive(Debug)]
pub struct InstanceError {
    pub kind: ErrorKind,
    pub detail: String,
}

impl InstanceError {
    /// The code reported for each category.
    pub open spec fn spec_translated(kind: ErrorKind) -> LoreError {
        match kind {
            ErrorKind::Disconnected => LoreError::Connection,
            _ => LoreError::Internal,
        }
    }

    /// The code reported to callers of the engine.
    pub fn translated(&self) -> (code: LoreError)
        ensures
            code == InstanceError::spec_translated(self.kind),
    {
        match self.kind {
            ErrorKind::Disconnected => LoreError::Connection,
            _ => LoreError::Internal,
        }
    }

    /// The text of the failure.
    pub fn inner(&self) -> (text: String)
        ensures
            text@ == self.detail@,
    {
        self.detail.clone()
    }

    fn of(kind: ErrorKind, detail: &str) -> (error: InstanceError)
        ensures
            error.kind == kind,
            error.detail@ == detail@,
    {
        InstanceError { kind, detail: detail.to_owned() }
    }
}

/// The items that describe an instance.
pub open spec fn instance_items(id: Seq<char>, path: Seq<char>, created: u64) -> Seq<MetadataItem> {
    stored(
        stored(
            stored(
                Seq::empty(),
                MetadataItem {
                    key: encode_utf8(INSTANCE_ID@),
                    value: encode_utf8(id),
                    value_type: MetadataType::String.spec_tag(),
                },
            ),
            MetadataItem {
                key: encode_utf8(PATH@),
                value: encode_utf8(path),
                value_type: MetadataType::String.spec_tag(),
            },
        ),
        MetadataItem {
            key: encode_utf8(CREATED@),
            value: vstd::bytes::spec_u64_to_le_bytes(created),
            value_type: MetadataType::Numeric.spec_tag(),
        },
    )
}

/// A path can be written to the metadata of an instance.
pub open spec fn path_fits(path: Seq<char>) -> bool {
    &&& encode_utf8(path).len() <= u32::MAX
    &&& encode_utf8(path).len() + 256 <= buffer_limit()
}

/// Tells whether a path can be written to the metadata of an instance.
pub fn is_fitting_path(path: &str) -> (yes: bool)
    ensures
        yes == path_fits(path@),
{
    let length = path.as_bytes().len();
    length <= u32::MAX as usize && length <= isize::MAX as usize / 2 - 256
}

/// Writes the metadata of an instance.
pub fn instance_metadata(instance_id: InstanceId, path: &str, created: u64) -> (result: Result<
    Metadata,
    InstanceError,
>)
    requires
        path_fits(path@),
    ensures
        result is Ok,
        result matches Ok(metadata) ==> {
            &&& well_formed(metadata@)
            &&& metadata.items() == instance_items(hex_text(instance_id.data@), path@, created)
        },
{
    let mut metadata = Metadata::new();
    let text = instance_id.to_text();
    proof {
        reveal_strlit("instance-id");
        reveal_strlit("path");
        reveal_strlit("created");
        lemma_ascii_keys();
        crate::hexadecimal::lemma_hex_text_is_ascii(instance_id.data@);
    }
    match metadata.set_string(INSTANCE_ID, text.as_str()) {
        Ok(()) => {},
        Err(_) => {
            return Err(
                InstanceError::of(ErrorKind::Internal, "failed to set instance ID in metadata"),
            );
        },
    }
    match metadata.set_string(PATH, path) {
        Ok(()) => {},
        Err(_) => {
            return Err(InstanceError::of(ErrorKind::Internal, "failed to set path in metadata"));
        },
    }
    match metadata.set_u64(CREATED, created) {
        Ok(()) => Ok(metadata),
        Err(_) => Err(
            InstanceError::of(ErrorKind::Internal, "failed to set created in metadata"),
        ),
    }
}

proof fn lemma_ascii_keys()
    ensures
        encode_utf8(INSTANCE_ID@).len() == 11,
        encode_utf8(PATH@).len() == 4,
        encode_utf8(CREATED@).len() == 7,
        encode_utf8(INSTANCE_ID@) != encode_utf8(PATH@),
        encode_utf8(INSTANCE_ID@) != encode_utf8(CREATED@),
        encode_utf8(PATH@) != encode_utf8(CREATED@),
{
    reveal_strlit("instance-id");
    reveal_strlit("path");
    reveal_strlit("created");
    is_ascii_chars_encode_utf8(INSTANCE_ID@);
    is_ascii_chars_encode_utf8(PATH@);
    is_ascii_chars_encode_utf8(CREATED@);
}

/// The text that metadata holds for a key, if it holds a text.
pub open spec fn text_of_key(metadata: Metadata, key: Seq<char>) -> Option<Seq<char>> {
    let items = metadata.items();
    if has_key(items, encode_utf8(key)) && valid_utf8(lookup(items, encode_utf8(key)).value) {
        Some(decode_utf8(lookup(items, encode_utf8(key)).value))
    } else {
        None
    }
}

/// The number that metadata holds for a key, if it holds a number.
pub open spec fn number_of_key(metadata: Metadata, key: Seq<char>) -> Option<u64> {
    let items = metadata.items();
    if has_key(items, encode_utf8(key)) && lookup(items, encode_utf8(key)).value.len() == 8 {
        Some(vstd::bytes::spec_u64_from_le_bytes(lookup(items, encode_utf8(key)).value))
    } else {
        None
    }
}

/// The bytes that metadata names an instance by, if they are those of an
/// identifier.
pub open spec fn named_instance(metadata: Metadata) -> Option<Seq<u8>> {
    match text_of_key(metadata, INSTANCE_ID@) {
        Some(text) => if is_hex(encode_utf8(text)) && hex_bytes(encode_utf8(text)).len() == 16 {
            Some(hex_bytes(encode_utf8(text)))
        } else {
            None
        },
        None => None,
    }
}

/// Reads the metadata of an instance. Missing or corrupt fields are not fatal:
/// an empty path makes the instance appear stale, and the zero identifier means
/// that it can be recovered otherwise.
pub fn load_instance_metadata(metadata: &Metadata) -> (instance: InstanceMetadata)
    ensures
        match named_instance(*metadata) {
            Some(bytes) => instance.instance_id.data@ == bytes,
            None => instance.instance_id.is_zero(),
        },
        instance.path@ == match text_of_key(*metadata, PATH@) {
            Some(text) => text,
            None => Seq::empty(),
        },
        instance.created == match number_of_key(*metadata, CREATED@) {
            Some(number) => number,
            None => 0,
        },
{
    let instance_id = match metadata.get_string(INSTANCE_ID) {
        Ok(text) => {
            proof {
                encode_utf8_decode_utf8(text@);
                encode_utf8_valid_utf8(text@);
            }
            match decode(text) {
                Some(bytes) => if bytes.len() == 16 {
                    InstanceId { data: Context::from_slice(bytes.as_slice()).data }
                } else {
                    InstanceId::default()
                },
                None => InstanceId::default(),
            }
        },
        Err(_) => InstanceId::default(),
    };
    let path = match metadata.get_string(PATH) {
        Ok(text) => {
            proof {
                encode_utf8_decode_utf8(text@);
            }
            text.to_owned()
        },
        Err(_) => String::new(),
    };
    let created = match metadata.get_u64(CREATED) {
        Ok(number) => number,
        Err(_) => 0,
    };
    InstanceMetadata { instance_id, path, created }
}

/// Reading the metadata that was written for an instance gives the instance
/// back.
pub proof fn law_instance_metadata_round_trip(
    metadata: Metadata,
    instance_id: InstanceId,
    path: Seq<char>,
    created: u64,
)
    requires
        metadata.items() == instance_items(hex_text(instance_id.data@), path, created),
    ensures
        named_instance(metadata) == Some(instance_id.data@),
        text_of_key(metadata, PATH@) == Some(path),
        number_of_key(metadata, CREATED@) == Some(created),
{
    let id = hex_text(instance_id.data@);
    let first = MetadataItem {
        key: encode_utf8(INSTANCE_ID@),
        value: encode_utf8(id),
        value_type: MetadataType::String.spec_tag(),
    };
    let second = MetadataItem {
        key: encode_utf8(PATH@),
        value: encode_utf8(path),
        value_type: MetadataType::String.spec_tag(),
    };
    let third = MetadataItem {
        key: encode_utf8(CREATED@),
        value: vstd::bytes::spec_u64_to_le_bytes(created),
        value_type: MetadataType::Numeric.spec_tag(),
    };
    lemma_ascii_keys();
    let none = Seq::<MetadataItem>::empty();
    let one = stored(none, first);
    let two = stored(one, second);
    law_stored_value_is_found(none, first);
    law_storing_keeps_keys_distinct(none, first);
    law_stored_value_is_found(one, second);
    law_storing_keeps_keys_distinct(one, second);
    law_storing_keeps_other_keys(one, second, first.key);
    law_stored_value_is_found(two, third);
    law_storing_keeps_other_keys(two, third, first.key);
    law_storing_keeps_other_keys(two, third, second.key);
    encode_utf8_valid_utf8(id);
    encode_utf8_decode_utf8(id);
    encode_utf8_valid_utf8(path);
    encode_utf8_decode_utf8(path);
    law_number_round_trip(created);
    law_hex_round_trip(instance_id.data@);
}

/// Registers an instance: its metadata hash is stored under its key, which
/// takes the capability to write.
pub fn register_instance(
    repository: RepositoryId,
    salt: &str,
    may_write: bool,
    instance_id: InstanceId,
    metadata_hash: ContentHash,
) -> (result: Result<StoreRequest, InstanceError>)
    ensures
        result is Ok <==> may_write,
        result matches Ok(request) ==> {
            &&& request.repository == repository
            &&& request.key.salt@ == salt@
            &&& request.key.function@ == INSTANCE_METADATA@
            &&& request.key.argument@ == hex_text(instance_id.data@)
            &&& request.key.key_type == KeyType::Instance
            &&& request.value == metadata_hash
        },
        result matches Err(e) ==> e.kind == ErrorKind::WriteRequired,
{
    if !may_write {
        return Err(InstanceError::of(ErrorKind::WriteRequired, "Write required"));
    }
    Ok(StoreRequest { repository, key: instance_key(salt, instance_id), value: metadata_hash })
}

// ---------------------------------------------------------------------------
// Registered instances
// ---------------------------------------------------------------------------

/// An entry of the list of instances: the hash of its metadata, the metadata
/// where they could be read, and their path in its normal form.
#[derive(Debug)]
pub struct RegisteredInstance {
    pub metadata_hash: ContentHash,
    pub metadata: Option<InstanceMetadata>,
    pub clean_path: String,
}

/// The entry stands for an instance: it was not removed, and its metadata could
/// be read and name it.
pub open spec fn is_instance(entry: RegisteredInstance) -> bool {
    !entry.metadata_hash.is_zero() && entry.metadata is Some
        && !entry.metadata->0.instance_id.is_zero()
}

fn names_instance(entry: &RegisteredInstance) -> (yes: bool)
    ensures
        yes == is_instance(*entry),
{
    !entry.metadata_hash.is_zero() && match &entry.metadata {
        Some(metadata) => !metadata.instance_id.is_zero(),
        None => false,
    }
}

/// Attempt to recover a lost instance ID by matching registered instances by
/// filesystem path. The first instance registered for the path is taken.
pub fn recover_instance_id(entries: &Vec<RegisteredInstance>, current_path: &str) -> (found: Option<
    InstanceId,
>)
    ensures
        found is Some <==> exists|i: int|
            0 <= i < entries@.len() && is_instance(#[trigger] entries@[i])
                && entries@[i].clean_path@ == current_path@,
        found matches Some(id) ==> exists|i: int|
            0 <= i < entries@.len() && is_instance(#[trigger] entries@[i])
                && entries@[i].clean_path@ == current_path@ && entries@[i].metadata->0.instance_id
                == id && forall|j: int|
                0 <= j < i ==> !(is_instance(#[trigger] entries@[j]) && entries@[j].clean_path@
                    == current_path@),
{
    let mut i: usize = 0;
    while i < entries.len()
        invariant
            i <= entries@.len(),
            forall|j: int|
                0 <= j < i ==> !(is_instance(#[trigger] entries@[j]) && entries@[j].clean_path@
                    == current_path@),
        decreases entries@.len() - i,
    {
        let entry = &entries[i];
        if names_instance(entry) && text_equal(entry.clean_path.as_str(), current_path) {
            if let Some(metadata) = &entry.metadata {
                assert(is_instance(entries@[i as int]));
                return Some(metadata.instance_id);
            }
        }
        i = i + 1;
    }
    None
}

/// Positions of the entries that stand for instances, in order.
pub open spec fn instance_positions(entries: Seq<RegisteredInstance>) -> Seq<int>
    decreases entries.len(),
{
    if entries.len() == 0 {
        Seq::empty()
    } else {
        let before = instance_positions(entries.drop_last());
        if is_instance(entries.last()) {
            before.push(entries.len() - 1)
        } else {
            before
        }
    }
}

/// Every entry that was not removed and names an instance is listed, once and in
/// order, and no other is.
pub proof fn law_instances_are_listed(entries: Seq<RegisteredInstance>, p: int)
    ensures
        instance_positions(entries).contains(p) <==> {
            &&& 0 <= p < entries.len()
            &&& !entries[p].metadata_hash.is_zero()
            &&& entries[p].metadata is Some
            &&& !entries[p].metadata->0.instance_id.is_zero()
        },
        forall|i: int|
            0 <= i < instance_positions(entries).len() ==> 0 <= (#[trigger] instance_positions(
                entries,
            )[i]) < entries.len(),
        forall|i: int, j: int|
            0 <= i < j < instance_positions(entries).len() ==> (#[trigger] instance_positions(
                entries,
            )[i]) < (#[trigger] instance_positions(entries)[j]),
    decreases entries.len(),
{
    if entries.len() > 0 {
        let earlier = entries.drop_last();
        let before = instance_positions(earlier);
        let all = instance_positions(entries);
        law_instances_are_listed(earlier, p);
        if before.contains(p) {
            let i = before.index_of(p);
            assert(all[i] == p);
            assert(earlier[p] == entries[p]);
        }
        if p == entries.len() - 1 && is_instance(entries[p]) {
            assert(all[all.len() - 1] == p);
        }
        if 0 <= p < earlier.len() {
            assert(earlier[p] == entries[p]);
        }
    }
}

/// Positions of the registered instances. Removed entries and those whose
/// metadata cannot be read or do not name an instance are passed over.
pub fn list_instances(entries: &Vec<RegisteredInstance>) -> (positions: Vec<usize>)
    ensures
        positions@.map_values(|p: usize| p as int) == instance_positions(entries@),
{
    let mut positions: Vec<usize> = Vec::new();
    let mut i: usize = 0;
    assert(entries@.take(0) =~= Seq::empty());
    assert(positions@.map_values(|p: usize| p as int) =~= Seq::<int>::empty());
    while i < entries.len()
        invariant
            i <= entries@.len(),
            positions@.map_values(|p: usize| p as int) == instance_positions(
                entries@.take(i as int),
            ),
        decreases entries@.len() - i,
    {
        let ghost before = positions@;
        assert(entries@.take(i + 1).drop_last() =~= entries@.take(i as int));
        if names_instance(&entries[i]) {
            positions.push(i);
            assert(positions@.map_values(|p: usize| p as int) =~= before.map_values(
                |p: usize| p as int,
            ).push(i as int));
        }
        i = i + 1;
    }
    assert(entries@.take(i as int) =~= entries@);
    positions
}

/// Check whether an instance path refers to a directory that no longer exists
/// on disk. An empty path is not considered stale: it indicates corrupt or
/// missing metadata rather than a removed instance directory.
pub fn is_instance_stale(path: &str, exists_on_disk: bool) -> (stale: bool)
    ensures
        stale == (path@.len() > 0 && !exists_on_disk),
{
    !path.is_empty() && !exists_on_disk
}

/// Where an instance stands.
#[derive(Debug)]
pub struct InstancePosition {
    pub metadata: InstanceMetadata,
    pub exists_on_disk: bool,
    /// The branch it has checked out, when known.
    pub branch: Option<BranchId>,
}

/// Another active instance has the branch checked out.
pub open spec fn is_other_on_branch(
    instance: InstancePosition,
    self_id: InstanceId,
    branch: BranchId,
) -> bool {
    &&& instance.metadata.instance_id != self_id
    &&& !(instance.metadata.path@.len() > 0 && !instance.exists_on_disk)
    &&& instance.branch == Some(branch)
}

fn is_active_on_branch(instance: &InstancePosition, self_id: InstanceId, branch: BranchId) -> (yes:
    bool)
    ensures
        yes == is_other_on_branch(*instance, self_id, branch),
{
    if instance.metadata.instance_id == self_id {
        return false;
    }
    if is_instance_stale(instance.metadata.path.as_str(), instance.exists_on_disk) {
        return false;
    }
    match instance.branch {
        Some(other) => other == branch,
        None => false,
    }
}

/// What is known of an instance, as contracts speak of it: its identifier, path and
/// time of creation.
pub open spec fn metadata_view(metadata: InstanceMetadata) -> (InstanceId, Seq<char>, u64) {
    (metadata.instance_id, metadata.path@, metadata.created)
}

/// What is known of instances, as contracts speak of it.
pub open spec fn metadata_views(list: Seq<InstanceMetadata>) -> Seq<
    (InstanceId, Seq<char>, u64),
> {
    list.map_values(|metadata: InstanceMetadata| metadata_view(metadata))
}

/// Other active instances that have a branch checked out, in order.
pub open spec fn others_on_branch(
    instances: Seq<InstancePosition>,
    self_id: InstanceId,
    branch: BranchId,
) -> Seq<(InstanceId, Seq<char>, u64)>
    decreases instances.len(),
{
    if instances.len() == 0 {
        Seq::empty()
    } else {
        let before = others_on_branch(instances.drop_last(), self_id, branch);
        let last = instances.last();
        if is_other_on_branch(last, self_id, branch) {
            before.push(metadata_view(last.metadata))
        } else {
            before
        }
    }
}

/// Check if any other active instance has the given branch checked out.
///
/// Returns the list of active instances on that branch (excluding self).
/// Stale instances (path no longer exists) are silently skipped.
pub fn instances_on_branch(
    instances: &Vec<InstancePosition>,
    self_id: InstanceId,
    target_branch: BranchId,
) -> (others: Vec<InstanceMetadata>)
    ensures
        metadata_views(others@) == others_on_branch(instances@, self_id, target_branch),
{
    let mut others: Vec<InstanceMetadata> = Vec::new();
    let mut i: usize = 0;
    assert(instances@.take(0) =~= Seq::empty());
    assert(metadata_views(others@) =~= Seq::empty());
    while i < instances.len()
        invariant
            i <= instances@.len(),
            metadata_views(others@) == others_on_branch(
                instances@.take(i as int),
                self_id,
                target_branch,
            ),
        decreases instances@.len() - i,
    {
        let ghost before = others@;
        assert(instances@.take(i + 1).drop_last() =~= instances@.take(i as int));
        assert(instances@.take(i + 1).last() == instances@[i as int]);
        if is_active_on_branch(&instances[i], self_id, target_branch) {
            let metadata = &instances[i].metadata;
            let found = InstanceMetadata {
                instance_id: metadata.instance_id,
                path: metadata.path.clone(),
                created: metadata.created,
            };
            others.push(found);
            assert(metadata_views(others@) =~= metadata_views(before).push(metadata_view(found)));
        }
        i = i + 1;
    }
    assert(instances@.take(i as int) =~= instances@);
    others
}

/// Event data warning that several instances share the same checked-out branch.
#[derive(Debug)]
pub struct LoreBranchMultipleInstanceEventData {
    /// The branch checked out by more than one instance
    pub branch: BranchId,
    /// Identifiers of the other instances on the branch
    pub instance_ids: Vec<InstanceId>,
    /// Filesystem paths of the other instances on the branch
    pub instance_paths: Vec<String>,
}

/// The warning for a branch that other active instances have checked out.
pub fn warn_branch_multiple_instance(
    instances: &Vec<InstancePosition>,
    self_id: InstanceId,
    target_branch: BranchId,
) -> (event: Option<LoreBranchMultipleInstanceEventData>)
    ensures
        ({
            let others = others_on_branch(instances@, self_id, target_branch);
            &&& event is Some <==> others.len() > 0
            &&& event matches Some(data) ==> {
                &&& data.branch == target_branch
                &&& data.instance_ids@.len() == others.len()
                &&& data.instance_paths@.len() == others.len()
                &&& forall|i: int|
                    0 <= i < others.len() ==> (#[trigger] others[i]).0 == data.instance_ids@[i]
                        && others[i].1 == data.instance_paths@[i]@
            }
        }),
{
    let others = instances_on_branch(instances, self_id, target_branch);
    if others.len() == 0 {
        return None;
    }
    let mut instance_ids: Vec<InstanceId> = Vec::new();
    let mut instance_paths: Vec<String> = Vec::new();
    let mut i: usize = 0;
    while i < others.len()
        invariant
            i <= others@.len(),
            instance_ids@.len() == i,
            instance_paths@.len() == i,
            forall|j: int|
                0 <= j < i ==> (#[trigger] others@[j]).instance_id == instance_ids@[j]
                    && others@[j].path@ == instance_paths@[j]@,
        decreases others@.len() - i,
    {
        instance_ids.push(others[i].instance_id);
        instance_paths.push(others[i].path.clone());
        i = i + 1;
    }
    proof {
        let listed = others_on_branch(instances@, self_id, target_branch);
        assert forall|j: int| 0 <= j < listed.len() implies (#[trigger] listed[j]).0
            == instance_ids@[j] && listed[j].1 == instance_paths@[j]@ by {
            assert(listed[j] == metadata_view(others@[j]));
        }
    }
    Some(
        LoreBranchMultipleInstanceEventData {
            branch: target_branch,
            instance_ids,
            instance_paths,
        },
    )
}

/// Every other instance that has the branch checked out and is still there is found:
/// one without a path counts as there.
pub proof fn law_others_on_the_branch_are_found(
    instances: Seq<InstancePosition>,
    self_id: InstanceId,
    branch: BranchId,
    p: int,
)
    requires
        0 <= p < instances.len(),
        instances[p].metadata.instance_id != self_id,
        instances[p].metadata.path@.len() == 0 || instances[p].exists_on_disk,
        instances[p].branch == Some(branch),
    ensures
        others_on_branch(instances, self_id, branch).contains(
            (
                instances[p].metadata.instance_id,
                instances[p].metadata.path@,
                instances[p].metadata.created,
            ),
        ),
    decreases instances.len(),
{
    let earlier = instances.drop_last();
    let before = others_on_branch(earlier, self_id, branch);
    let all = others_on_branch(instances, self_id, branch);
    let found = metadata_view(instances[p].metadata);
    if p < earlier.len() {
        assert(earlier[p] == instances[p]);
        law_others_on_the_branch_are_found(earlier, self_id, branch, p);
        let i = before.index_of(found);
        assert(all[i] == found);
    } else {
        assert(all[all.len() - 1] == found);
    }
}

/// Only instances that have the branch checked out and are still there are found.
pub proof fn law_only_others_on_the_branch_are_found(
    instances: Seq<InstancePosition>,
    self_id: InstanceId,
    branch: BranchId,
    i: int,
) -> (p: int)
    requires
        0 <= i < others_on_branch(instances, self_id, branch).len(),
    ensures
        i <= p < instances.len(),
        instances[p].metadata.instance_id != self_id,
        instances[p].metadata.path@.len() == 0 || instances[p].exists_on_disk,
        instances[p].branch == Some(branch),
        others_on_branch(instances, self_id, branch)[i] == (
            instances[p].metadata.instance_id,
            instances[p].metadata.path@,
            instances[p].metadata.created,
        ),
    decreases instances.len(),
{
    let earlier = instances.drop_last();
    let before = others_on_branch(earlier, self_id, branch);
    if i < before.len() {
        law_only_others_on_the_branch_are_found(earlier, self_id, branch, i)
    } else {
        lemma_no_more_others(earlier, self_id, branch);
        instances.len() - 1
    }
}

proof fn lemma_no_more_others(
    instances: Seq<InstancePosition>,
    self_id: InstanceId,
    branch: BranchId,
)
    ensures
        others_on_branch(instances, self_id, branch).len() <= instances.len(),
    decreases instances.len(),
{
    if instances.len() > 0 {
        lemma_no_more_others(instances.drop_last(), self_id, branch);
    }
}

/// An instance is never warned about itself.
pub proof fn law_no_warning_about_itself(
    instances: Seq<InstancePosition>,
    self_id: InstanceId,
    branch: BranchId,
)
    ensures
        forall|i: int|
            0 <= i < others_on_branch(instances, self_id, branch).len()
                ==> (#[trigger] others_on_branch(instances, self_id, branch)[i]).0 != self_id,
    decreases instances.len(),
{
    if instances.len() > 0 {
        law_no_warning_about_itself(instances.drop_last(), self_id, branch);
        let before = others_on_branch(instances.drop_last(), self_id, branch);
        let all = others_on_branch(instances, self_id, branch);
        assert forall|i: int| 0 <= i < all.len() implies (#[trigger] all[i]).0 != self_id by {
            if i < before.len() {
                assert(all[i] == before[i]);
            }
        }
    }
}

// ---------------------------------------------------------------------------
// Anchors
// ---------------------------------------------------------------------------

/// Where an instance stands: its current revision and branch.
#[derive(Clone, Copy, Debug)]
pub struct Anchor {
    pub revision: ContentHash,
    pub branch: BranchId,
}

/// What the store holds of a hash that stands for none when it is zero.
pub open spec fn nonzero(hash: Option<ContentHash>) -> Option<ContentHash> {
    match hash {
        Some(h) => if h.is_zero() {
            None
        } else {
            Some(h)
        },
        None => None,
    }
}

/// Drops a hash that stands for none.
pub fn without_zero(hash: Option<ContentHash>) -> (kept: Option<ContentHash>)
    ensures
        kept == nonzero(hash),
{
    match hash {
        Some(h) => if h.is_zero() {
            None
        } else {
            Some(h)
        },
        None => None,
    }
}

/// The branch that a stored hash stands for; the zero hash stands for none.
pub open spec fn branch_of(hash: Option<ContentHash>, branch: BranchId) -> Option<BranchId> {
    if nonzero(hash) is Some {
        Some(branch)
    } else {
        None
    }
}

/// The branch that a stored hash stands for. `branch` is what the hash gives as a
/// branch.
pub fn stored_branch(hash: Option<ContentHash>, branch: BranchId) -> (known: Option<BranchId>)
    ensures
        known == branch_of(hash, branch),
{
    match without_zero(hash) {
        Some(unused) => Some(branch),
        None => None,
    }
}

/// Load the current anchor of an instance.
///
/// The revision is what the store has for it; if the branch is known but the
/// revision is not, the repository has no commits yet. Where the store does not
/// know the branch, the anchor comes from the file of an older layout, if there
/// is one, which takes a working tree. `branch` is what the stored hash of the
/// branch gives as a branch.
pub fn load_current_anchor(
    revision: Option<ContentHash>,
    branch_hash: Option<ContentHash>,
    branch: BranchId,
    has_path: bool,
    file: Option<Anchor>,
) -> (result: Result<Anchor, InstanceError>)
    ensures
        result is Ok <==> nonzero(branch_hash) is Some || (has_path && file is Some),
        result matches Ok(anchor) ==> match branch_of(branch_hash, branch) {
            Some(current) => {
                &&& anchor.branch == current
                &&& match nonzero(revision) {
                    Some(hash) => anchor.revision == hash,
                    None => anchor.revision.is_zero(),
                }
            },
            None => anchor == file->0,
        },
        result matches Err(e) ==> if has_path {
            e.kind == ErrorKind::Internal && e.detail@ == "anchor branch is missing"@
        } else {
            e.kind == ErrorKind::InvalidArguments && e.detail@
                == "repository context has no working-tree path"@
        },
{
    match stored_branch(branch_hash, branch) {
        Some(current) => {
            let hash = match without_zero(revision) {
                Some(hash) => hash,
                None => ContentHash::default(),
            };
            Ok(Anchor { revision: hash, branch: current })
        },
        None => {
            if !has_path {
                return Err(
                    InstanceError::of(
                        ErrorKind::InvalidArguments,
                        "repository context has no working-tree path",
                    ),
                );
            }
            match file {
                Some(anchor) => Ok(anchor),
                None => Err(InstanceError::of(ErrorKind::Internal, "anchor branch is missing")),
            }
        },
    }
}

/// Load the staged revision hash of an instance: what the store has, else what
/// the file of an older layout has, which takes a working tree. Nothing is staged
/// where neither has one, or only the zero hash.
pub fn load_staged_revision(
    stored_revision: Option<ContentHash>,
    has_path: bool,
    file: Option<ContentHash>,
) -> (result: Result<Option<ContentHash>, InstanceError>)
    ensures
        result matches Ok(staged) && staged == match nonzero(stored_revision) {
            Some(hash) => Some(hash),
            None => if has_path {
                nonzero(file)
            } else {
                None
            },
        },
{
    match without_zero(stored_revision) {
        Some(hash) => Ok(Some(hash)),
        None => if has_path {
            Ok(without_zero(file))
        } else {
            Ok(None)
        },
    }
}

fn store_anchor(
    repository: RepositoryId,
    salt: &str,
    may_write: bool,
    function: &str,
    instance: InstanceId,
    value: ContentHash,
) -> (result: Result<StoreRequest, InstanceError>)
    ensures
        result is Ok <==> may_write,
        result matches Ok(request) ==> is_anchor_request(
            request,
            repository,
            salt@,
            function@,
            instance,
            value,
        ),
        result matches Err(e) ==> e.kind == ErrorKind::WriteRequired,
{
    if !may_write {
        return Err(InstanceError::of(ErrorKind::WriteRequired, "Write required"));
    }
    Ok(StoreRequest { repository, key: anchor_key(salt, function, instance), value })
}

/// A request writes an anchor of an instance.
pub open spec fn is_anchor_request(
    request: StoreRequest,
    repository: RepositoryId,
    salt: Seq<char>,
    function: Seq<char>,
    instance: InstanceId,
    value: ContentHash,
) -> bool {
    &&& request.repository == repository
    &&& request.key.salt@ == salt
    &&& request.key.function@ == function
    &&& request.key.argument@ == hex_text(instance.data@)
    &&& request.key.key_type == KeyType::Untyped
    &&& request.value == value
}

/// Write the current anchor to the mutable store.
pub fn store_current_anchor(
    repository: RepositoryId,
    salt: &str,
    may_write: bool,
    instance: InstanceId,
    revision: ContentHash,
) -> (result: Result<StoreRequest, InstanceError>)
    ensures
        result is Ok <==> may_write,
        result matches Ok(request) ==> is_anchor_request(
            request,
            repository,
            salt@,
            ANCHOR_CURRENT@,
            instance,
            revision,
        ),
        result matches Err(e) ==> e.kind == ErrorKind::WriteRequired,
{
    store_anchor(repository, salt, may_write, ANCHOR_CURRENT, instance, revision)
}

/// Write the current branch, in the form of a hash, to the mutable store.
pub fn store_current_anchor_branch(
    repository: RepositoryId,
    salt: &str,
    may_write: bool,
    instance: InstanceId,
    branch: ContentHash,
) -> (result: Result<StoreRequest, InstanceError>)
    ensures
        result is Ok <==> may_write,
        result matches Ok(request) ==> is_anchor_request(
            request,
            repository,
            salt@,
            ANCHOR_CURRENT_BRANCH@,
            instance,
            branch,
        ),
        result matches Err(e) ==> e.kind == ErrorKind::WriteRequired,
{
    store_anchor(repository, salt, may_write, ANCHOR_CURRENT_BRANCH, instance, branch)
}

/// Write the staged anchor to the mutable store.
pub fn store_staged_anchor(
    repository: RepositoryId,
    salt: &str,
    may_write: bool,
    instance: InstanceId,
    revision: ContentHash,
) -> (result: Result<StoreRequest, InstanceError>)
    ensures
        result is Ok <==> may_write,
        result matches Ok(request) ==> is_anchor_request(
            request,
            repository,
            salt@,
            ANCHOR_STAGED@,
            instance,
            revision,
        ),
        result matches Err(e) ==> e.kind == ErrorKind::WriteRequired,
{
    store_anchor(repository, salt, may_write, ANCHOR_STAGED, instance, revision)
}

/// Delete the staged anchor (write zero hash).
pub fn delete_staged_anchor(
    repository: RepositoryId,
    salt: &str,
    may_write: bool,
    instance: InstanceId,
) -> (result: Result<StoreRequest, InstanceError>)
    ensures
        result is Ok <==> may_write,
        result matches Ok(request) ==> request.value.is_zero() && is_anchor_request(
            request,
            repository,
            salt@,
            ANCHOR_STAGED@,
            instance,
            request.value,
        ),
        result matches Err(e) ==> e.kind == ErrorKind::WriteRequired,
{
    store_staged_anchor(repository, salt, may_write, instance, ContentHash::default())
}

/// What was written as the staged anchor is what is read back, and a deleted
/// one reads as nothing staged.
pub proof fn law_staged_anchor_round_trip(revision: ContentHash)
    ensures
        revision.is_zero() ==> nonzero(Some(revision)) is None,
        !revision.is_zero() ==> nonzero(Some(revision)) == Some(revision),
{
}

// ---------------------------------------------------------------------------
// Listing and pruning
// ---------------------------------------------------------------------------

/// Event data describing an instance, used for both listing and prune
/// notifications.
#[derive(Debug)]
pub struct LoreRepositoryInstanceEventData {
    /// Identifier of the instance
    pub instance_id: InstanceId,
    /// Filesystem path of the instance
    pub path: String,
    /// Name of the branch the instance has checked out
    pub branch_name: String,
    /// Identifier of the branch the instance has checked out
    pub branch: BranchId,
    /// Current revision hash for the instance
    pub revision: ContentHash,
    /// Non-zero if the instance path no longer exists on disk
    pub stale: u8,
}

/// An event describes an instance, with the zero values for what is not known.
pub open spec fn describes(
    event: LoreRepositoryInstanceEventData,
    instance: InstancePosition,
    branch_name: Option<Seq<char>>,
    revision: Option<ContentHash>,
    stale: bool,
) -> bool {
    &&& event.instance_id == instance.metadata.instance_id
    &&& event.path@ == instance.metadata.path@
    &&& match instance.branch {
        Some(branch) => event.branch == branch,
        None => event.branch.is_zero(),
    }
    &&& event.branch_name@ == if instance.branch is Some && !instance.branch->0.is_zero()
        && branch_name is Some {
        branch_name->0
    } else {
        Seq::empty()
    }
    &&& match nonzero(revision) {
        Some(hash) => event.revision == hash,
        None => event.revision.is_zero(),
    }
    &&& event.stale == flag_of(stale)
}

fn describe(
    instance: &InstancePosition,
    branch_name: Option<&str>,
    revision: Option<ContentHash>,
    stale: bool,
) -> (event: LoreRepositoryInstanceEventData)
    ensures
        describes(
            event,
            *instance,
            match branch_name {
                Some(name) => Some(name@),
                None => None,
            },
            revision,
            stale,
        ),
{
    let branch = match instance.branch {
        Some(branch) => branch,
        None => BranchId::default(),
    };
    let name = match branch_name {
        Some(name) => if branch.is_zero() {
            String::new()
        } else {
            name.to_owned()
        },
        None => String::new(),
    };
    LoreRepositoryInstanceEventData {
        instance_id: instance.metadata.instance_id,
        path: instance.metadata.path.clone(),
        branch_name: name,
        branch,
        revision: match without_zero(revision) {
            Some(hash) => hash,
            None => ContentHash::default(),
        },
        stale: flag(stale),
    }
}

/// The event for a registered instance.
pub fn instance_list(
    instance: &InstancePosition,
    branch_name: Option<&str>,
    revision: Option<ContentHash>,
) -> (event: LoreRepositoryInstanceEventData)
    ensures
        describes(
            event,
            *instance,
            match branch_name {
                Some(name) => Some(name@),
                None => None,
            },
            revision,
            is_stale(*instance),
        ),
{
    let stale = is_instance_stale(instance.metadata.path.as_str(), instance.exists_on_disk);
    describe(instance, branch_name, revision, stale)
}

/// A request removes the key of a function of an instance.
pub open spec fn removes_key(
    request: StoreRequest,
    repository: RepositoryId,
    salt: Seq<char>,
    instance: InstanceId,
    function: Seq<char>,
    key_type: KeyType,
) -> bool {
    &&& request.repository == repository
    &&& request.key.salt@ == salt
    &&& request.key.function@ == function
    &&& request.key.argument@ == hex_text(instance.data@)
    &&& request.key.key_type == key_type
    &&& request.value.is_zero()
}

/// Requests remove all keys of an instance.
pub open spec fn removes_instance(
    requests: Seq<StoreRequest>,
    repository: RepositoryId,
    salt: Seq<char>,
    id: InstanceId,
) -> bool {
    &&& requests.len() == 4
    &&& removes_key(requests[0], repository, salt, id, INSTANCE_METADATA@, KeyType::Instance)
    &&& removes_key(requests[1], repository, salt, id, ANCHOR_CURRENT@, KeyType::Untyped)
    &&& removes_key(requests[2], repository, salt, id, ANCHOR_CURRENT_BRANCH@, KeyType::Untyped)
    &&& removes_key(requests[3], repository, salt, id, ANCHOR_STAGED@, KeyType::Untyped)
}

/// The requests that remove all keys of an instance.
fn remove_instance(repository: RepositoryId, salt: &str, id: InstanceId) -> (requests: Vec<
    StoreRequest,
>)
    ensures
        removes_instance(requests@, repository, salt@, id),
{
    let zero = ContentHash::default();
    let mut requests: Vec<StoreRequest> = Vec::new();
    requests.push(StoreRequest { repository, key: instance_key(salt, id), value: zero });
    requests.push(
        StoreRequest { repository, key: anchor_key(salt, ANCHOR_CURRENT, id), value: zero },
    );
    requests.push(
        StoreRequest { repository, key: anchor_key(salt, ANCHOR_CURRENT_BRANCH, id), value: zero },
    );
    requests.push(
        StoreRequest { repository, key: anchor_key(salt, ANCHOR_STAGED, id), value: zero },
    );
    requests
}

/// An instance that is pruned: the requests that remove its keys, and the report.
#[derive(Debug)]
pub struct PrunedInstance {
    pub requests: Vec<StoreRequest>,
    pub event: LoreRepositoryInstanceEventData,
}

/// The instance is stale: its path no longer exists.
pub open spec fn is_stale(instance: InstancePosition) -> bool {
    instance.metadata.path@.len() > 0 && !instance.exists_on_disk
}

/// Positions of the stale instances, in order.
pub open spec fn stale_positions(instances: Seq<InstancePosition>) -> Seq<int>
    decreases instances.len(),
{
    if instances.len() == 0 {
        Seq::empty()
    } else {
        let before = stale_positions(instances.drop_last());
        if is_stale(instances.last()) {
            before.push(instances.len() - 1)
        } else {
            before
        }
    }
}

/// The stale instances are pruned, in order, and no others.
pub open spec fn prunes(
    pruned: Seq<PrunedInstance>,
    repository: RepositoryId,
    salt: Seq<char>,
    instances: Seq<InstancePosition>,
) -> bool {
    let stale = stale_positions(instances);
    &&& pruned.len() == stale.len()
    &&& forall|i: int|
        0 <= i < pruned.len() ==> removes_instance(
            (#[trigger] pruned[i]).requests@,
            repository,
            salt,
            instances[stale[i]].metadata.instance_id,
        )
}

/// The name of a branch, as contracts speak of it.
pub open spec fn name_view(name: Option<String>) -> Option<Seq<char>> {
    match name {
        Some(text) => Some(text@),
        None => None,
    }
}

/// The pruned instances are reported with what was known of them.
pub open spec fn reports_pruned(
    pruned: Seq<PrunedInstance>,
    instances: Seq<InstancePosition>,
    branch_names: Seq<Option<String>>,
    revisions: Seq<Option<ContentHash>>,
) -> bool {
    let stale = stale_positions(instances);
    forall|i: int|
        0 <= i < pruned.len() ==> describes(
            (#[trigger] pruned[i]).event,
            instances[stale[i]],
            name_view(branch_names[stale[i]]),
            revisions[stale[i]],
            true,
        )
}

proof fn lemma_stale_positions(instances: Seq<InstancePosition>)
    ensures
        stale_positions(instances).len() <= instances.len(),
        forall|i: int|
            0 <= i < stale_positions(instances).len() ==> {
                &&& 0 <= #[trigger] stale_positions(instances)[i] < instances.len()
                &&& is_stale(instances[stale_positions(instances)[i]])
            },
        forall|p: int|
            0 <= p < instances.len() && is_stale(#[trigger] instances[p])
                ==> stale_positions(instances).contains(p),
    decreases instances.len(),
{
    if instances.len() > 0 {
        let first = instances.drop_last();
        let before = stale_positions(first);
        let all = stale_positions(instances);
        lemma_stale_positions(first);
        assert forall|i: int| 0 <= i < all.len() implies 0 <= #[trigger] all[i] < instances.len()
            && is_stale(instances[all[i]]) by {
            if i < before.len() {
                assert(all[i] == before[i]);
                assert(instances[all[i]] == first[before[i]]);
            }
        }
        assert forall|p: int|
            0 <= p < instances.len() && is_stale(#[trigger] instances[p]) implies all.contains(
            p,
        ) by {
            if p < first.len() {
                assert(is_stale(first[p]));
                assert(before.contains(p));
                let i = choose|i: int| 0 <= i < before.len() && before[i] == p;
                assert(all[i] == p);
            } else {
                assert(all[all.len() - 1] == p);
            }
        }
    }
}

/// The stale instances are those with a path that is not on disk, in order: one
/// without a path, or whose path is there, is not stale.
pub proof fn law_stale_instances_are_gone_from_disk(instances: Seq<InstancePosition>, p: int)
    requires
        0 <= p < instances.len(),
    ensures
        stale_positions(instances).contains(p) <==> instances[p].metadata.path@.len() > 0
            && !instances[p].exists_on_disk,
        forall|i: int, j: int|
            0 <= i < j < stale_positions(instances).len() ==> (#[trigger] stale_positions(
                instances,
            )[i]) < (#[trigger] stale_positions(instances)[j]),
{
    lemma_stale_positions(instances);
    lemma_stale_in_order(instances);
    if stale_positions(instances).contains(p) {
        let i = stale_positions(instances).index_of(p);
        assert(is_stale(instances[stale_positions(instances)[i]]));
    }
    assert(is_stale(instances[p]) ==> stale_positions(instances).contains(p));
}

proof fn lemma_stale_in_order(instances: Seq<InstancePosition>)
    ensures
        forall|i: int, j: int|
            0 <= i < j < stale_positions(instances).len() ==> (#[trigger] stale_positions(
                instances,
            )[i]) < (#[trigger] stale_positions(instances)[j]),
    decreases instances.len(),
{
    if instances.len() > 0 {
        lemma_stale_in_order(instances.drop_last());
        lemma_stale_positions(instances.drop_last());
    }
}

/// Prunes the stale instances: all of their keys are removed, and each is
/// reported. Instances that are not stale stay. Pruning takes the capability to
/// write. `branch_names` and `revisions` hold what is known of each instance.
pub fn instance_prune(
    repository: RepositoryId,
    salt: &str,
    may_write: bool,
    instances: &Vec<InstancePosition>,
    branch_names: &Vec<Option<String>>,
    revisions: &Vec<Option<ContentHash>>,
) -> (result: Result<Vec<PrunedInstance>, InstanceError>)
    requires
        branch_names@.len() == instances@.len(),
        revisions@.len() == instances@.len(),
    ensures
        result is Ok <==> may_write || stale_positions(instances@).len() == 0,
        result matches Err(e) ==> e.kind == ErrorKind::WriteRequired,
        result matches Ok(pruned) ==> {
            &&& prunes(pruned@, repository, salt@, instances@)
            &&& reports_pruned(pruned@, instances@, branch_names@, revisions@)
        },
{
    let mut pruned: Vec<PrunedInstance> = Vec::new();
    let mut i: usize = 0;
    assert(instances@.take(0) =~= Seq::empty());
    while i < instances.len()
        invariant
            i <= instances@.len(),
            branch_names@.len() == instances@.len(),
            revisions@.len() == instances@.len(),
            may_write || stale_positions(instances@.take(i as int)).len() == 0,
            prunes(pruned@, repository, salt@, instances@.take(i as int)),
            reports_pruned(pruned@, instances@.take(i as int), branch_names@, revisions@),
        decreases instances@.len() - i,
    {
        let instance = &instances[i];
        let ghost seen = instances@.take(i as int);
        let ghost more = instances@.take(i + 1);
        let ghost before = pruned@;
        proof {
            assert(more.drop_last() =~= seen);
            assert(more.last() == *instance);
            lemma_stale_positions(seen);
        }
        if is_instance_stale(instance.metadata.path.as_str(), instance.exists_on_disk) {
            if !may_write {
                proof {
                    lemma_stale_positions(instances@);
                    assert(is_stale(instances@[i as int]));
                    assert(stale_positions(instances@).contains(i as int));
                }
                return Err(InstanceError::of(ErrorKind::WriteRequired, "Write required"));
            }
            let branch_name = match &branch_names[i] {
                Some(name) => Some(name.as_str()),
                None => None,
            };
            let requests = remove_instance(repository, salt, instance.metadata.instance_id);
            let event = describe(instance, branch_name, revisions[i], true);
            pruned.push(PrunedInstance { requests, event });
        }
        proof {
            let stale = stale_positions(more);
            assert forall|n: int| 0 <= n < pruned@.len() implies removes_instance(
                (#[trigger] pruned@[n]).requests@,
                repository,
                salt@,
                more[stale[n]].metadata.instance_id,
            ) && describes(
                pruned@[n].event,
                more[stale[n]],
                name_view(branch_names@[stale[n]]),
                revisions@[stale[n]],
                true,
            ) by {
                if n < before.len() {
                    assert(pruned@[n] == before[n]);
                    assert(stale[n] == stale_positions(seen)[n]);
                    assert(more[stale[n]] == seen[stale[n]]);
                }
            }
        }
        i = i + 1;
    }
    assert(instances@.take(i as int) =~= instances@);
    Ok(pruned)
}

// ---------------------------------------------------------------------------
// What pruning leaves
// ---------------------------------------------------------------------------

/// All requests of pruned instances, in order.
pub open spec fn prune_requests(pruned: Seq<PrunedInstance>) -> Seq<StoreRequest>
    decreases pruned.len(),
{
    if pruned.len() == 0 {
        Seq::empty()
    } else {
        prune_requests(pruned.drop_last()) + pruned.last().requests@
    }
}

/// The keys of an instance in the store of a repository.
pub open spec fn instance_keys(
    repository: RepositoryId,
    salt: Seq<char>,
    id: InstanceId,
) -> Seq<StoreKeyView> {
    let argument = hex_text(id.data@);
    seq![
        (repository, salt, INSTANCE_METADATA@, argument, KeyType::Instance),
        (repository, salt, ANCHOR_CURRENT@, argument, KeyType::Untyped),
        (repository, salt, ANCHOR_CURRENT_BRANCH@, argument, KeyType::Untyped),
        (repository, salt, ANCHOR_STAGED@, argument, KeyType::Untyped),
    ]
}

/// An instance is registered: the key of its metadata holds a hash.
pub open spec fn is_registered(
    values: Map<StoreKeyView, ContentHash>,
    repository: RepositoryId,
    salt: Seq<char>,
    id: InstanceId,
) -> bool {
    let key = instance_keys(repository, salt, id)[0];
    values.contains_key(key) && !values[key].is_zero()
}

/// Every request of a pruned instance writes a zero to one of its keys, and each
/// of its keys gets one.
proof fn lemma_prune_requests(
    pruned: Seq<PrunedInstance>,
    repository: RepositoryId,
    salt: Seq<char>,
    ids: Seq<InstanceId>,
)
    requires
        pruned.len() == ids.len(),
        forall|i: int|
            0 <= i < pruned.len() ==> removes_instance(
                (#[trigger] pruned[i]).requests@,
                repository,
                salt,
                ids[i],
            ),
    ensures
        forall|j: int|
            0 <= j < prune_requests(pruned).len() ==> {
                &&& (#[trigger] prune_requests(pruned)[j]).value.is_zero()
                &&& exists|i: int|
                    0 <= i < ids.len() && prune_requests(pruned)[j].key.argument@ == hex_text(
                        (#[trigger] ids[i]).data@,
                    )
            },
        forall|i: int, k: int|
            0 <= i < ids.len() && 0 <= k < 4 ==> writes_to(
                prune_requests(pruned),
                #[trigger] instance_keys(repository, salt, ids[i])[k],
            ),
    decreases pruned.len(),
{
    if pruned.len() > 0 {
        let first = pruned.drop_last();
        let before = prune_requests(first);
        let own = pruned.last().requests@;
        let all = prune_requests(pruned);
        let last = ids.len() - 1;
        assert forall|i: int| 0 <= i < first.len() implies removes_instance(
            (#[trigger] first[i]).requests@,
            repository,
            salt,
            ids.drop_last()[i],
        ) by {
            assert(first[i] == pruned[i]);
        }
        lemma_prune_requests(first, repository, salt, ids.drop_last());
        assert(removes_instance(pruned[last].requests@, repository, salt, ids[last]));
        assert forall|j: int| 0 <= j < all.len() implies {
            &&& (#[trigger] all[j]).value.is_zero()
            &&& exists|i: int|
                0 <= i < ids.len() && all[j].key.argument@ == hex_text((#[trigger] ids[i]).data@)
        } by {
            if j < before.len() {
                assert(all[j] == before[j]);
                let i = choose|i: int|
                    0 <= i < last && before[j].key.argument@ == hex_text(
                        (#[trigger] ids.drop_last()[i]).data@,
                    );
                assert(ids[i] == ids.drop_last()[i]);
            } else {
                let n = j - before.len();
                assert(all[j] == own[n]);
                assert(n == 0 || n == 1 || n == 2 || n == 3);
                assert(all[j].key.argument@ == hex_text(ids[last].data@));
            }
        }
        assert forall|i: int, k: int| 0 <= i < ids.len() && 0 <= k < 4 implies writes_to(
            all,
            #[trigger] instance_keys(repository, salt, ids[i])[k],
        ) by {
            let key = instance_keys(repository, salt, ids[i])[k];
            if i < last {
                assert(ids.drop_last()[i] == ids[i]);
                assert(writes_to(before, instance_keys(repository, salt, ids.drop_last()[i])[k]));
                let j = choose|j: int| 0 <= j < before.len() && (#[trigger] before[j]).at() == key;
                assert(all[j].at() == key);
            } else {
                assert(own[k].at() == key);
                assert(all[before.len() + k].at() == key);
            }
        }
    }
}

/// The identifiers of the stale instances, in order.
pub open spec fn stale_ids(instances: Seq<InstancePosition>) -> Seq<InstanceId> {
    stale_positions(instances).map_values(|p: int| instances[p].metadata.instance_id)
}

/// Once the requests are written, all keys of a stale instance hold zeros.
pub proof fn law_pruned_keys_are_zero(
    values: Map<StoreKeyView, ContentHash>,
    repository: RepositoryId,
    salt: Seq<char>,
    instances: Seq<InstancePosition>,
    pruned: Seq<PrunedInstance>,
    position: int,
    key: int,
)
    requires
        prunes(pruned, repository, salt, instances),
        0 <= position < instances.len(),
        is_stale(instances[position]),
        0 <= key < 4,
    ensures
        ({
            let after = written(values, prune_requests(pruned));
            let at = instance_keys(repository, salt, instances[position].metadata.instance_id)[key];
            after.contains_key(at) && after[at].is_zero()
        }),
{
    let ids = stale_ids(instances);
    lemma_stale_positions(instances);
    assert forall|i: int| 0 <= i < pruned.len() implies removes_instance(
        (#[trigger] pruned[i]).requests@,
        repository,
        salt,
        ids[i],
    ) by {}
    lemma_prune_requests(pruned, repository, salt, ids);
    let i = choose|i: int|
        0 <= i < stale_positions(instances).len() && stale_positions(instances)[i] == position;
    assert(stale_positions(instances).contains(position));
    assert(ids[i] == instances[position].metadata.instance_id);
    let at = instance_keys(repository, salt, ids[i])[key];
    law_zeros_are_written(values, prune_requests(pruned), at);
}

/// Pruning leaves the keys of every other instance alone.
pub proof fn law_pruning_keeps_other_instances(
    values: Map<StoreKeyView, ContentHash>,
    repository: RepositoryId,
    salt: Seq<char>,
    instances: Seq<InstancePosition>,
    pruned: Seq<PrunedInstance>,
    other: InstanceId,
    key: int,
)
    requires
        prunes(pruned, repository, salt, instances),
        !stale_ids(instances).contains(other),
        0 <= key < 4,
    ensures
        ({
            let after = written(values, prune_requests(pruned));
            let at = instance_keys(repository, salt, other)[key];
            &&& after.contains_key(at) == values.contains_key(at)
            &&& values.contains_key(at) ==> after[at] == values[at]
        }),
{
    let ids = stale_ids(instances);
    assert forall|i: int| 0 <= i < pruned.len() implies removes_instance(
        (#[trigger] pruned[i]).requests@,
        repository,
        salt,
        ids[i],
    ) by {}
    lemma_prune_requests(pruned, repository, salt, ids);
    let requests = prune_requests(pruned);
    let at = instance_keys(repository, salt, other)[key];
    law_zeros_are_written(values, requests, at);
    if writes_to(requests, at) {
        let j = choose|j: int| 0 <= j < requests.len() && (#[trigger] requests[j]).at() == at;
        let i = choose|i: int|
            0 <= i < ids.len() && requests[j].key.argument@ == hex_text((#[trigger] ids[i]).data@);
        assert(ids.contains(ids[i]));
        law_instance_keys_differ(ids[i], other);
    }
}

/// A second pruning finds nothing to prune: of the instances seen before, those
/// that are still registered are not stale.
pub proof fn law_pruning_twice_is_pruning_once(
    values: Map<StoreKeyView, ContentHash>,
    repository: RepositoryId,
    salt: Seq<char>,
    instances: Seq<InstancePosition>,
    pruned: Seq<PrunedInstance>,
    again: Seq<InstancePosition>,
)
    requires
        prunes(pruned, repository, salt, instances),
        forall|j: int|
            0 <= j < again.len() ==> is_registered(
                written(values, prune_requests(pruned)),
                repository,
                salt,
                (#[trigger] again[j]).metadata.instance_id,
            ),
        forall|j: int|
            0 <= j < again.len() ==> exists|i: int|
                0 <= i < instances.len() && (#[trigger] instances[i]).metadata.instance_id == (
                #[trigger] again[j]).metadata.instance_id && is_stale(instances[i]) == is_stale(
                    again[j],
                ),
    ensures
        stale_positions(again).len() == 0,
{
    lemma_stale_positions(again);
    if stale_positions(again).len() > 0 {
        let j = stale_positions(again)[0];
        assert(is_stale(again[j]));
        let i = choose|i: int|
            0 <= i < instances.len() && (#[trigger] instances[i]).metadata.instance_id
                == again[j].metadata.instance_id && is_stale(instances[i]) == is_stale(again[j]);
        law_pruned_keys_are_zero(values, repository, salt, instances, pruned, i, 0);
    }
}

} // verus!
