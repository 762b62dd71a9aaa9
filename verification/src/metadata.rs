//! Key-value metadata attached to revisions, branches, files and repositories.
//!
//! Metadata is one flat buffer: an eight byte header followed by items. An item
//! is three little-endian 32-bit words (key length, value length, value type),
//! the key bytes and the value bytes. An empty buffer is empty metadata.

pub mod clear;

use bytes::BytesMut;
use vstd::bytes::*;
use vstd::prelude::*;
use vstd::slice::*;
use vstd::string::*;
use vstd::utf8::*;

use crate::errors::ErrorKind;
use crate::errors::LoreError;
use crate::text::decimal;
use crate::text::decimal_digits;
use crate::text::parse_u64;
use crate::text::parsed_u64;
use crate::text::text_from_utf8;
use crate::types::bytes_equal;
use crate::types::Address;
use crate::types::BranchId;
use crate::types::Context;
use crate::types::ContentHash;
use crate::types::ADDRESS_SIZE;
use crate::types::CONTEXT_SIZE;
use crate::types::HASH_SIZE;

verus! {

/// Maximum serialized metadata size. Metadata is loaded fully into memory;
/// larger data is stored as a separate blob and referenced by an [`Address`]
/// or [`ContentHash`] value.
pub const METADATA_MAX_SIZE: usize = 1024 * 1024;

/// Commit message ([`MetadataType::String`])
pub const MESSAGE: &'static str = "message";

/// Timestamp when revision was committed (`u64`)
pub const TIMESTAMP: &'static str = "timestamp";

/// Creator(s) of the revision ([`MetadataType::String`])
pub const CREATED_BY: &'static str = "created-by";

/// Committer of the revision ([`MetadataType::String`])
pub const COMMITTED_BY: &'static str = "committed-by";

/// Those who approved the revision ([`MetadataType::String`])
pub const REVIEWED_BY: &'static str = "reviewed-by";

/// Merger of the revision ([`MetadataType::String`])
pub const MERGED_BY: &'static str = "merged-by";

/// Originating branch ID ([`MetadataType::Context`])
pub const BRANCH: &'static str = "branch";

/// Associated P4 changelist ([`MetadataType::String`])
pub const P4_CHANGELIST: &'static str = "p4-changelist";

/// Originating restored revision ([`MetadataType::String`])
pub const RESTORED_FROM: &'static str = "restored-from";

/// Originating cherry-picked revision ([`MetadataType::String`])
pub const CHERRY_PICKED_FROM: &'static str = "cherry-picked-from";

/// Originating reverted revision ([`MetadataType::String`])
pub const REVERTED_FROM: &'static str = "reverted-from";

/// Change request ID of the revision ([`MetadataType::String`])
pub const CHANGE_REQUEST: &'static str = "change-request";

/// Indicates the revision was created by a fast-forward merge ([`MetadataType::Numeric`])
pub const FAST_FORWARD_MERGE: &'static str = "fast-forward-merge";

/// First word of a metadata buffer, the letters "meta".
pub const MAGIC: u32 = 0x6D657461;

/// Second word of a metadata buffer.
pub const VERSION: u32 = 1;

/// Size of the header at the start of a metadata buffer.
pub const HEADER_SIZE: usize = 8;

/// Size of the three words in front of an item's key and value.
pub const ITEM_SIZE: usize = 12;

const DEFAULT_METADATA_CAPACITY: usize = 64 * 1024;

/// Failure of a metadata operation.
#[derive(Debug)]
pub struct MetadataError {
    pub kind: ErrorKind,
    pub detail: String,
}

impl MetadataError {
    /// The value stored does not have the requested type.
    pub open spec fn is_type_mismatch(&self) -> bool {
        self.kind == ErrorKind::Internal && self.detail@ == "metadata type mismatch"@
    }

    /// There is no value under the requested key.
    pub open spec fn is_missing(&self) -> bool {
        self.kind == ErrorKind::FileNotFound && self.detail@ == "metadata key"@
    }

    /// A failure without a category of its own.
    pub fn internal(detail: &str) -> (error: MetadataError)
        ensures
            error.kind == ErrorKind::Internal,
            error.detail@ == detail@,
    {
        MetadataError { kind: ErrorKind::Internal, detail: detail.to_owned() }
    }

    /// A failure of the given category.
    pub fn of(kind: ErrorKind, detail: &str) -> (error: MetadataError)
        ensures
            error.kind == kind,
            error.detail@ == detail@,
    {
        MetadataError { kind, detail: detail.to_owned() }
    }
}

/// Failure of a command that edits metadata.
#[derive(Debug)]
pub struct MetadataErrors {
    pub kind: ErrorKind,
    pub detail: String,
}

impl MetadataErrors {
    /// The code reported for each category.
    pub open spec fn spec_translated(kind: ErrorKind) -> LoreError {
        match kind {
            ErrorKind::FileNotFound => LoreError::NotFound,
            ErrorKind::Oversized => LoreError::Oversized,
            ErrorKind::Disconnected => LoreError::Connection,
            _ => LoreError::Internal,
        }
    }

    /// The code reported to callers of the engine.
    pub fn translated(&self) -> (code: LoreError)
        ensures
            code == MetadataErrors::spec_translated(self.kind),
    {
        match self.kind {
            ErrorKind::FileNotFound => LoreError::NotFound,
            ErrorKind::Oversized => LoreError::Oversized,
            ErrorKind::Disconnected => LoreError::Connection,
            _ => LoreError::Internal,
        }
    }

    /// The text of the failure.
    pub fn inner(&self) -> (text: String)
        ensures
            text@ == self.detail@,
    {
        self.detail.clone()
    }
}

/// Type tag for a metadata value.
#[derive(Clone, Copy, Debug, PartialEq, Eq, Structural)]
pub enum MetadataType {
    /// Value is an address.
    Address,
    /// Value is a boolean.
    Boolean,
    /// Value is a context.
    Context,
    /// Value is a hash.
    Hash,
    /// Value is an unsigned integer.
    Numeric,
    /// Value is text.
    String,
    /// Value is raw binary data.
    Binary,
}

impl MetadataType {
    /// The number stored for a type.
    pub open spec fn spec_tag(self) -> u32 {
        match self {
            MetadataType::Address => 1,
            MetadataType::Boolean => 2,
            MetadataType::Context => 3,
            MetadataType::Hash => 4,
            MetadataType::Numeric => 5,
            MetadataType::String => 6,
            MetadataType::Binary => 255,
        }
    }

    /// The type that a stored number stands for.
    pub open spec fn spec_from(num: u32) -> MetadataType {
        if num == 1 {
            MetadataType::Address
        } else if num == 2 {
            MetadataType::Boolean
        } else if num == 3 {
            MetadataType::Context
        } else if num == 4 {
            MetadataType::Hash
        } else if num == 5 {
            MetadataType::Numeric
        } else if num == 6 {
            MetadataType::String
        } else {
            MetadataType::Binary
        }
    }

    /// The number stored for this type.
    pub fn tag(self) -> (tag: u32)
        ensures
            tag == self.spec_tag(),
    {
        match self {
            MetadataType::Address => 1,
            MetadataType::Boolean => 2,
            MetadataType::Context => 3,
            MetadataType::Hash => 4,
            MetadataType::Numeric => 5,
            MetadataType::String => 6,
            MetadataType::Binary => 255,
        }
    }

    /// The type that a stored number stands for; unknown numbers are binary.
    pub fn from(num: u32) -> (value_type: MetadataType)
        ensures
            value_type == MetadataType::spec_from(num),
    {
        match num {
            1 => MetadataType::Address,
            2 => MetadataType::Boolean,
            3 => MetadataType::Context,
            4 => MetadataType::Hash,
            5 => MetadataType::Numeric,
            6 => MetadataType::String,
            _ => MetadataType::Binary,
        }
    }
}

/// Every type is recovered from the number stored for it.
pub proof fn law_type_round_trip(value_type: MetadataType)
    ensures
        MetadataType::spec_from(value_type.spec_tag()) == value_type,
{
}

/// Header at the start of a serialized metadata blob.
#[derive(Clone, Copy, Debug, PartialEq, Eq, Structural)]
pub struct MetadataHeader {
    /// Identifier marking the buffer as metadata.
    pub magic: u32,
    /// Format version of the metadata layout.
    pub version: u32,
}

/// A stored item: a key, its value and the stored number of the value's type.
#[verifier::ext_equal]
pub struct MetadataItem {
    pub key: Seq<u8>,
    pub value: Seq<u8>,
    pub value_type: u32,
}

/// Key, value and type of an item, as handed out by [`Metadata::walk`].
#[derive(Debug)]
pub struct MetadataEntry {
    pub key: Vec<u8>,
    pub value: Vec<u8>,
    pub value_type: MetadataType,
}

// ---------------------------------------------------------------------------
// The byte format
// ---------------------------------------------------------------------------

/// Largest buffer that can be grown without exhausting the address space.
pub open spec fn buffer_limit() -> int {
    isize::MAX / 2
}

/// The word stored at an offset.
pub open spec fn word_at(bytes: Seq<u8>, at: int) -> u32 {
    spec_u32_from_le_bytes(bytes.subrange(at, at + 4))
}

/// The bytes of the header.
pub open spec fn header_bytes() -> Seq<u8> {
    spec_u32_to_le_bytes(MAGIC) + spec_u32_to_le_bytes(VERSION)
}

/// The bytes of an item.
pub open spec fn encode_item(item: MetadataItem) -> Seq<u8> {
    spec_u32_to_le_bytes(item.key.len() as u32) + spec_u32_to_le_bytes(item.value.len() as u32)
        + spec_u32_to_le_bytes(item.value_type) + item.key + item.value
}

/// The bytes of a list of items.
pub open spec fn encode_items(items: Seq<MetadataItem>) -> Seq<u8>
    decreases items.len(),
{
    if items.len() == 0 {
        Seq::empty()
    } else {
        encode_item(items[0]) + encode_items(items.drop_first())
    }
}

/// Key and value lengths fit in the words that store them.
pub open spec fn item_fits_words(item: MetadataItem) -> bool {
    item.key.len() <= u32::MAX && item.value.len() <= u32::MAX
}

/// Size of the item stored at an offset.
pub open spec fn item_span(bytes: Seq<u8>, at: int) -> int {
    ITEM_SIZE + word_at(bytes, at) + word_at(bytes, at + 4)
}

/// A whole item is stored at an offset.
pub open spec fn has_item(bytes: Seq<u8>, at: int) -> bool {
    &&& 0 <= at
    &&& at + ITEM_SIZE <= bytes.len()
    &&& at + item_span(bytes, at) <= bytes.len()
}

/// The item stored at an offset.
pub open spec fn item_at(bytes: Seq<u8>, at: int) -> MetadataItem {
    let key_start = at + ITEM_SIZE;
    let value_start = key_start + word_at(bytes, at);
    MetadataItem {
        key: bytes.subrange(key_start, value_start),
        value: bytes.subrange(value_start, value_start + word_at(bytes, at + 4)),
        value_type: word_at(bytes, at + 8),
    }
}

/// The whole items stored from an offset on.
pub open spec fn items_from(bytes: Seq<u8>, at: int) -> Seq<MetadataItem>
    decreases bytes.len() - at,
{
    if has_item(bytes, at) {
        seq![item_at(bytes, at)] + items_from(bytes, at + item_span(bytes, at))
    } else {
        Seq::empty()
    }
}

/// Where the run of whole items that starts at an offset ends.
pub open spec fn items_end(bytes: Seq<u8>, at: int) -> int
    decreases bytes.len() - at,
{
    if has_item(bytes, at) {
        items_end(bytes, at + item_span(bytes, at))
    } else {
        at
    }
}

/// The items that a walk visits from an offset on: a walk also stops at an item
/// without key and value bytes that ends the buffer.
pub open spec fn walked_from(bytes: Seq<u8>, at: int) -> Seq<MetadataItem>
    decreases bytes.len() - at,
{
    if has_item(bytes, at) && at + ITEM_SIZE < bytes.len() {
        seq![item_at(bytes, at)] + walked_from(bytes, at + item_span(bytes, at))
    } else {
        Seq::empty()
    }
}

/// A buffer starts with the expected header, or is empty.
pub open spec fn header_ok(bytes: Seq<u8>) -> bool {
    bytes.len() == 0 || (bytes.len() >= HEADER_SIZE && word_at(bytes, 0) == MAGIC && word_at(
        bytes,
        4,
    ) == VERSION)
}

/// A buffer is empty, or a header followed by whole items up to its end.
pub open spec fn well_formed(bytes: Seq<u8>) -> bool {
    &&& header_ok(bytes)
    &&& bytes.len() > 0 ==> items_end(bytes, HEADER_SIZE as int) == bytes.len()
}

/// Position of the first item with a key, or the number of items.
pub open spec fn position(items: Seq<MetadataItem>, key: Seq<u8>) -> int
    decreases items.len(),
{
    if items.len() == 0 || items[0].key == key {
        0
    } else {
        1 + position(items.drop_first(), key)
    }
}

/// Some item has the key.
pub open spec fn has_key(items: Seq<MetadataItem>, key: Seq<u8>) -> bool {
    position(items, key) < items.len()
}

/// The first item with a key.
pub open spec fn lookup(items: Seq<MetadataItem>, key: Seq<u8>) -> MetadataItem {
    items[position(items, key)]
}

/// The items after storing a value: a value of unchanged length takes the place
/// of the first item with the key, any other value is stored as a new last item
/// in place of that item.
pub open spec fn stored(items: Seq<MetadataItem>, item: MetadataItem) -> Seq<MetadataItem> {
    let i = position(items, item.key);
    if i >= items.len() {
        items.push(item)
    } else if items[i].value.len() == item.value.len() {
        items.update(i, item)
    } else {
        items.remove(i).push(item)
    }
}

// ---------------------------------------------------------------------------
// Facts about the byte format
// ---------------------------------------------------------------------------

proof fn lemma_encode_item_len(item: MetadataItem)
    ensures
        encode_item(item).len() == ITEM_SIZE + item.key.len() + item.value.len(),
{
    lemma_auto_spec_u32_to_from_le_bytes();
}

proof fn lemma_encode_items_push(items: Seq<MetadataItem>, item: MetadataItem)
    ensures
        encode_items(items.push(item)) == encode_items(items) + encode_item(item),
    decreases items.len(),
{
    if items.len() == 0 {
        reveal_with_fuel(encode_items, 2);
        assert(items.push(item).drop_first() =~= Seq::<MetadataItem>::empty());
        assert(encode_items(items.push(item)) =~= encode_item(item));
        assert(encode_items(items) + encode_item(item) =~= encode_item(item));
    } else {
        assert(items.push(item).drop_first() =~= items.drop_first().push(item));
        lemma_encode_items_push(items.drop_first(), item);
        assert(encode_items(items.push(item)) =~= encode_items(items) + encode_item(item));
    }
}

proof fn lemma_encode_items_concat(a: Seq<MetadataItem>, b: Seq<MetadataItem>)
    ensures
        encode_items(a + b) == encode_items(a) + encode_items(b),
    decreases a.len(),
{
    if a.len() == 0 {
        assert(a + b =~= b);
        assert(encode_items(a) + encode_items(b) =~= encode_items(b));
    } else {
        assert((a + b).drop_first() =~= a.drop_first() + b);
        lemma_encode_items_concat(a.drop_first(), b);
        assert(encode_items(a + b) =~= encode_items(a) + encode_items(b));
    }
}

/// Reading depends only on the bytes from the offset on.
proof fn lemma_shift(prefix: Seq<u8>, bytes: Seq<u8>, at: int)
    requires
        0 <= at,
    ensures
        has_item(prefix + bytes, prefix.len() + at) == has_item(bytes, at),
        has_item(bytes, at) ==> {
            &&& item_span(prefix + bytes, prefix.len() + at) == item_span(bytes, at)
            &&& item_at(prefix + bytes, prefix.len() + at) == item_at(bytes, at)
        },
{
    let all = prefix + bytes;
    let p = prefix.len();
    if at + ITEM_SIZE <= bytes.len() {
        assert(all.subrange(p + at, p + at + 4) =~= bytes.subrange(at, at + 4));
        assert(all.subrange(p + at + 4, p + at + 4 + 4) =~= bytes.subrange(at + 4, at + 4 + 4));
        assert(all.subrange(p + at + 8, p + at + 8 + 4) =~= bytes.subrange(at + 8, at + 8 + 4));
        if has_item(bytes, at) {
            let key_start = at + ITEM_SIZE;
            let value_start = key_start + word_at(bytes, at);
            let end = value_start + word_at(bytes, at + 4);
            assert(all.subrange(p + key_start, p + value_start) =~= bytes.subrange(
                key_start,
                value_start,
            ));
            assert(all.subrange(p + value_start, p + end) =~= bytes.subrange(value_start, end));
        }
    }
}

/// An encoded item reads back.
proof fn lemma_item_reads_back(item: MetadataItem, rest: Seq<u8>)
    requires
        item_fits_words(item),
    ensures
        has_item(encode_item(item) + rest, 0),
        item_span(encode_item(item) + rest, 0) == encode_item(item).len(),
        item_at(encode_item(item) + rest, 0) == item,
{
    lemma_auto_spec_u32_to_from_le_bytes();
    lemma_encode_item_len(item);
    let bytes = encode_item(item) + rest;
    let k = item.key.len() as int;
    let v = item.value.len() as int;
    assert(bytes.subrange(0, 4) =~= spec_u32_to_le_bytes(k as u32));
    assert(bytes.subrange(4, 8) =~= spec_u32_to_le_bytes(v as u32));
    assert(bytes.subrange(8, 12) =~= spec_u32_to_le_bytes(item.value_type));
    assert(bytes.subrange(12, 12 + k) =~= item.key);
    assert(bytes.subrange(12 + k, 12 + k + v) =~= item.value);
}

/// Encoded items read back, up to a tail that holds no whole item.
proof fn lemma_items_read_back(prefix: Seq<u8>, items: Seq<MetadataItem>, tail: Seq<u8>)
    requires
        forall|i: int| 0 <= i < items.len() ==> item_fits_words(#[trigger] items[i]),
        !has_item(tail, 0),
    ensures
        items_from(prefix + encode_items(items) + tail, prefix.len() as int) == items,
        items_end(prefix + encode_items(items) + tail, prefix.len() as int) == prefix.len()
            + encode_items(items).len(),
    decreases items.len(),
{
    let all = prefix + encode_items(items) + tail;
    if items.len() == 0 {
        assert(all =~= prefix + tail);
        lemma_shift(prefix, tail, 0);
        assert(items_from(all, prefix.len() as int) =~= items);
    } else {
        let first = encode_item(items[0]);
        let rest = encode_items(items.drop_first()) + tail;
        assert(all =~= prefix + (first + rest));
        lemma_item_reads_back(items[0], rest);
        lemma_shift(prefix, first + rest, 0);
        let next = prefix + first;
        assert(all =~= next + encode_items(items.drop_first()) + tail);
        assert forall|i: int| 0 <= i < items.drop_first().len() implies item_fits_words(
            #[trigger] items.drop_first()[i],
        ) by {
            assert(items.drop_first()[i] == items[i + 1]);
        }
        lemma_items_read_back(next, items.drop_first(), tail);
        assert(next.len() == prefix.len() + item_span(all, prefix.len() as int));
        assert(seq![items[0]] + items.drop_first() =~= items);
    }
}

/// A stored item is the encoding of what is read from it.
proof fn lemma_item_is_encoding(bytes: Seq<u8>, at: int)
    requires
        has_item(bytes, at),
    ensures
        item_fits_words(item_at(bytes, at)),
        bytes.subrange(at, at + item_span(bytes, at)) == encode_item(item_at(bytes, at)),
        item_span(bytes, at) >= ITEM_SIZE,
{
    lemma_auto_spec_u32_to_from_le_bytes();
    let item = item_at(bytes, at);
    let span = item_span(bytes, at);
    let key_start = at + ITEM_SIZE;
    let value_start = key_start + word_at(bytes, at);
    lemma_encode_item_len(item);
    assert(bytes.subrange(at, at + 4).len() == 4);
    assert(bytes.subrange(at + 4, at + 8).len() == 4);
    assert(bytes.subrange(at + 8, at + 12).len() == 4);
    assert(spec_u32_to_le_bytes(word_at(bytes, at)) == bytes.subrange(at, at + 4));
    assert(spec_u32_to_le_bytes(word_at(bytes, at + 4)) == bytes.subrange(at + 4, at + 4 + 4));
    assert(spec_u32_to_le_bytes(word_at(bytes, at + 8)) == bytes.subrange(at + 8, at + 8 + 4));
    assert(bytes.subrange(at, at + span) =~= encode_item(item));
}

/// The items read from an offset, and what is left after them.
proof fn lemma_items_are_encoding(bytes: Seq<u8>, at: int)
    requires
        0 <= at <= bytes.len(),
    ensures
        forall|i: int|
            0 <= i < items_from(bytes, at).len() ==> item_fits_words(
                #[trigger] items_from(bytes, at)[i],
            ),
        at <= items_end(bytes, at) <= bytes.len(),
        bytes.subrange(at, items_end(bytes, at)) == encode_items(items_from(bytes, at)),
        !has_item(bytes, items_end(bytes, at)),
    decreases bytes.len() - at,
{
    let items = items_from(bytes, at);
    if has_item(bytes, at) {
        let next = at + item_span(bytes, at);
        lemma_item_is_encoding(bytes, at);
        lemma_items_are_encoding(bytes, next);
        assert(items[0] == item_at(bytes, at));
        assert(items.drop_first() =~= items_from(bytes, next));
        assert forall|i: int| 0 <= i < items.len() implies item_fits_words(#[trigger] items[i]) by {
            if i > 0 {
                assert(items[i] == items_from(bytes, next)[i - 1]);
            }
        }
        assert(bytes.subrange(at, items_end(bytes, at)) =~= bytes.subrange(at, next)
            + bytes.subrange(next, items_end(bytes, at)));
    } else {
        assert(bytes.subrange(at, items_end(bytes, at)) =~= encode_items(items));
    }
}

/// The bytes of well-formed, non-empty metadata are the header followed by the
/// encoding of its items: the items determine the buffer.
pub proof fn law_well_formed_is_encoding(bytes: Seq<u8>)
    requires
        well_formed(bytes),
        bytes.len() > 0,
    ensures
        bytes == header_bytes() + encode_items(items_from(bytes, HEADER_SIZE as int)),
{
    lemma_auto_spec_u32_to_from_le_bytes();
    lemma_items_are_encoding(bytes, HEADER_SIZE as int);
    assert(bytes.subrange(0, 4).len() == 4);
    assert(bytes.subrange(4, 8).len() == 4);
    assert(spec_u32_to_le_bytes(word_at(bytes, 0)) == bytes.subrange(0, 4));
    assert(spec_u32_to_le_bytes(word_at(bytes, 4)) == bytes.subrange(4, 8));
    assert(bytes.subrange(0, 8) =~= header_bytes());
    assert(bytes =~= bytes.subrange(0, 8) + bytes.subrange(8, bytes.len() as int));
}

/// A header followed by encoded items is well-formed and reads back as those
/// items.
pub proof fn law_encoding_is_well_formed(items: Seq<MetadataItem>)
    requires
        forall|i: int| 0 <= i < items.len() ==> item_fits_words(#[trigger] items[i]),
    ensures
        well_formed(header_bytes() + encode_items(items)),
        items_from(header_bytes() + encode_items(items), HEADER_SIZE as int) == items,
{
    lemma_auto_spec_u32_to_from_le_bytes();
    let bytes = header_bytes() + encode_items(items);
    let tail = Seq::<u8>::empty();
    assert(bytes =~= header_bytes() + encode_items(items) + tail);
    lemma_items_read_back(header_bytes(), items, tail);
    assert(bytes.subrange(0, 4) =~= spec_u32_to_le_bytes(MAGIC));
    assert(bytes.subrange(4, 8) =~= spec_u32_to_le_bytes(VERSION));
}

proof fn lemma_position(items: Seq<MetadataItem>, key: Seq<u8>)
    ensures
        0 <= position(items, key) <= items.len(),
        forall|i: int| 0 <= i < position(items, key) ==> (#[trigger] items[i]).key != key,
        has_key(items, key) ==> items[position(items, key)].key == key,
    decreases items.len(),
{
    if items.len() > 0 && items[0].key != key {
        lemma_position(items.drop_first(), key);
        assert forall|i: int| 0 <= i < position(items, key) implies (#[trigger] items[i]).key
            != key by {
            if i > 0 {
                assert(items[i] == items.drop_first()[i - 1]);
            }
        }
    }
}

proof fn lemma_position_is(items: Seq<MetadataItem>, key: Seq<u8>, at: int)
    requires
        0 <= at <= items.len(),
        forall|i: int| 0 <= i < at ==> (#[trigger] items[i]).key != key,
        at < items.len() ==> items[at].key == key,
    ensures
        position(items, key) == at,
{
    lemma_position(items, key);
    let p = position(items, key);
    if p < at {
        assert(items[p].key != key);
    }
    if at < p {
        assert(items[at].key != key);
    }
}

/// No two items have the same key.
pub open spec fn distinct_keys(items: Seq<MetadataItem>) -> bool {
    forall|i: int, j: int|
        0 <= i < j < items.len() ==> (#[trigger] items[i]).key != (#[trigger] items[j]).key
}

/// The items after removing a key.
pub open spec fn removed(items: Seq<MetadataItem>, key: Seq<u8>) -> Seq<MetadataItem> {
    if has_key(items, key) {
        items.remove(position(items, key))
    } else {
        items
    }
}

// ---------------------------------------------------------------------------
// Laws
// ---------------------------------------------------------------------------

/// A stored value is what is found under its key afterwards, with its type.
pub proof fn law_stored_value_is_found(items: Seq<MetadataItem>, item: MetadataItem)
    requires
        distinct_keys(items),
    ensures
        has_key(stored(items, item), item.key),
        lookup(stored(items, item), item.key).value == item.value,
        lookup(stored(items, item), item.key).value_type == item.value_type,
{
    lemma_position(items, item.key);
    let new = stored(items, item);
    let i = position(items, item.key);
    if i >= items.len() {
        lemma_position_is(new, item.key, items.len() as int);
    } else if items[i].value.len() == item.value.len() {
        lemma_position_is(new, item.key, i);
    } else {
        assert forall|j: int| 0 <= j < new.len() - 1 implies (#[trigger] new[j]).key
            != item.key by {
            if j < i {
                assert(new[j] == items[j]);
            } else {
                assert(new[j] == items[j + 1]);
                assert(items[i].key != items[j + 1].key);
            }
        }
        lemma_position_is(new, item.key, new.len() - 1);
    }
}

/// Storing under a key leaves what is found under every other key unchanged.
pub proof fn law_storing_keeps_other_keys(
    items: Seq<MetadataItem>,
    item: MetadataItem,
    other: Seq<u8>,
)
    requires
        other != item.key,
    ensures
        has_key(stored(items, item), other) == has_key(items, other),
        has_key(items, other) ==> lookup(stored(items, item), other) == lookup(items, other),
{
    lemma_position(items, item.key);
    lemma_position(items, other);
    let new = stored(items, item);
    let i = position(items, item.key);
    let p = position(items, other);
    if p >= items.len() {
        lemma_position_is(new, other, new.len() as int);
    } else if i < p && items[i].value.len() != item.value.len() {
        lemma_position_is(new, other, p - 1);
    } else {
        lemma_position_is(new, other, p);
    }
}

/// Storing never makes two items share a key.
pub proof fn law_storing_keeps_keys_distinct(items: Seq<MetadataItem>, item: MetadataItem)
    requires
        distinct_keys(items),
    ensures
        distinct_keys(stored(items, item)),
{
    lemma_position(items, item.key);
    let new = stored(items, item);
    let i = position(items, item.key);
    if i < items.len() && items[i].value.len() != item.value.len() {
        assert forall|a: int, b: int| 0 <= a < b < new.len() implies (#[trigger] new[a]).key != (
        #[trigger] new[b]).key by {
            let a1 = if a < i { a } else { a + 1 };
            assert(new[a] == items[a1]);
            assert(a1 < i ==> items[a1].key != items[i].key);
            assert(i < a1 ==> items[i].key != items[a1].key);
            if b < new.len() - 1 {
                let b1 = if b < i { b } else { b + 1 };
                assert(new[b] == items[b1]);
                assert(items[a1].key != items[b1].key);
            }
        }
    } else if i < items.len() {
        assert forall|a: int, b: int| 0 <= a < b < new.len() implies (#[trigger] new[a]).key != (
        #[trigger] new[b]).key by {
            assert(items[a].key != items[b].key);
        }
    }
}

/// A removed key is not found any more.
pub proof fn law_removed_key_is_gone(items: Seq<MetadataItem>, key: Seq<u8>)
    requires
        distinct_keys(items),
    ensures
        !has_key(removed(items, key), key),
        distinct_keys(removed(items, key)),
{
    lemma_position(items, key);
    let new = removed(items, key);
    let i = position(items, key);
    if i < items.len() {
        assert forall|j: int| 0 <= j < new.len() implies (#[trigger] new[j]).key != key by {
            if j < i {
                assert(new[j] == items[j]);
            } else {
                assert(new[j] == items[j + 1]);
                assert(items[i].key != items[j + 1].key);
            }
        }
        lemma_position_is(new, key, new.len() as int);
        assert forall|a: int, b: int| 0 <= a < b < new.len() implies (#[trigger] new[a]).key != (
        #[trigger] new[b]).key by {
            let a1 = if a < i { a } else { a + 1 };
            let b1 = if b < i { b } else { b + 1 };
            assert(items[a1].key != items[b1].key);
        }
    }
}

/// Removing a key leaves what is found under every other key unchanged.
pub proof fn law_removing_keeps_other_keys(
    items: Seq<MetadataItem>,
    key: Seq<u8>,
    other: Seq<u8>,
)
    requires
        other != key,
    ensures
        has_key(removed(items, key), other) == has_key(items, other),
        has_key(items, other) ==> lookup(removed(items, key), other) == lookup(items, other),
{
    lemma_position(items, key);
    lemma_position(items, other);
    let new = removed(items, key);
    let i = position(items, key);
    let p = position(items, other);
    if p >= items.len() {
        lemma_position_is(new, other, new.len() as int);
    } else if i < p {
        lemma_position_is(new, other, p - 1);
    } else {
        lemma_position_is(new, other, p);
    }
}

/// A walk visits every item, unless the last one has neither key nor value
/// bytes and ends the buffer: that one it leaves out.
pub proof fn law_walk_visits_items(bytes: Seq<u8>, at: int)
    requires
        0 <= at,
        items_end(bytes, at) == bytes.len(),
    ensures
        walked_from(bytes, at) == ({
            let items = items_from(bytes, at);
            if items.len() > 0 && items.last().key.len() == 0 && items.last().value.len() == 0 {
                items.drop_last()
            } else {
                items
            }
        }),
    decreases bytes.len() - at,
{
    let items = items_from(bytes, at);
    if has_item(bytes, at) {
        let next = at + item_span(bytes, at);
        let rest = items_from(bytes, next);
        law_walk_visits_items(bytes, next);
        assert(items =~= seq![item_at(bytes, at)] + rest);
        if has_item(bytes, next) {
            assert(rest.len() > 0);
            assert(items.last() == rest.last());
            assert(items.drop_last() =~= seq![item_at(bytes, at)] + rest.drop_last());
        } else {
            assert(rest =~= Seq::empty());
            assert(walked_from(bytes, next) =~= Seq::empty());
            assert(items.drop_last() =~= Seq::empty());
        }
    }
}

// ---------------------------------------------------------------------------
// The buffer
// ---------------------------------------------------------------------------

/// Growable byte buffer of the `bytes` crate.
#[verifier::external_type_specification]
#[verifier::external_body]
pub struct ExBytesMut(bytes::BytesMut);

/// The bytes that a buffer holds.
pub uninterp spec fn buffer_bytes(buffer: BytesMut) -> Seq<u8>;

/// `BytesMut::with_capacity` makes a buffer that holds nothing.
#[verifier::external_body]
fn buffer_with_capacity(capacity: usize) -> (buffer: BytesMut)
    requires
        capacity <= buffer_limit(),
    ensures
        buffer_bytes(buffer) == Seq::<u8>::empty(),
{
    BytesMut::with_capacity(capacity)
}

/// `BytesMut::from` on a slice makes a buffer that holds the bytes of the slice.
#[verifier::external_body]
fn buffer_from(bytes: &[u8]) -> (buffer: BytesMut)
    ensures
        buffer_bytes(buffer) == bytes@,
{
    BytesMut::from(bytes)
}

/// `BytesMut::as_ref` gives the bytes that a buffer holds.
#[verifier::external_body]
fn buffer_as_slice(buffer: &BytesMut) -> (bytes: &[u8])
    ensures
        bytes@ == buffer_bytes(*buffer),
{
    buffer.as_ref()
}

/// `BytesMut::truncate` keeps the first bytes of a buffer.
#[verifier::external_body]
fn buffer_truncate(buffer: &mut BytesMut, len: usize)
    requires
        len <= buffer_bytes(*old(buffer)).len(),
    ensures
        buffer_bytes(*final(buffer)) == buffer_bytes(*old(buffer)).take(len as int),
{
    buffer.truncate(len)
}

/// `BytesMut::extend_from_slice` appends bytes to a buffer.
#[verifier::external_body]
fn buffer_extend(buffer: &mut BytesMut, bytes: &[u8])
    requires
        buffer_bytes(*old(buffer)).len() + bytes@.len() <= buffer_limit(),
    ensures
        buffer_bytes(*final(buffer)) == buffer_bytes(*old(buffer)) + bytes@,
{
    buffer.extend_from_slice(bytes)
}

/// `BytesMut::clone` makes a buffer that holds the same bytes.
#[verifier::external_body]
fn buffer_clone(buffer: &BytesMut) -> (copy: BytesMut)
    ensures
        buffer_bytes(copy) == buffer_bytes(*buffer),
{
    buffer.clone()
}

// ---------------------------------------------------------------------------
// Metadata
// ---------------------------------------------------------------------------

/// Metadata: a list of items in one buffer.
#[derive(Debug)]
pub struct Metadata {
    buffer: BytesMut,
}

impl View for Metadata {
    type V = Seq<u8>;

    /// The bytes of the buffer.
    closed spec fn view(&self) -> Seq<u8> {
        buffer_bytes(self.buffer)
    }
}

/// Where an item stands in a buffer.
struct ItemLocation {
    start: usize,
    value_start: usize,
    end: usize,
    value_type: u32,
}

/// Reads the word at an offset.
fn read_word(bytes: &[u8], at: usize) -> (word: u32)
    requires
        at + 4 <= bytes@.len(),
    ensures
        word == word_at(bytes@, at as int),
{
    assert(bytes.len() == bytes@.len());
    u32_from_le_bytes(slice_subrange(bytes, at, at + 4))
}

/// Reads the location of the whole item at an offset.
fn read_item(bytes: &[u8], at: usize) -> (location: Option<ItemLocation>)
    requires
        at <= bytes@.len(),
    ensures
        location is Some <==> has_item(bytes@, at as int),
        location matches Some(l) ==> {
            &&& l.start == at
            &&& l.value_start == at + ITEM_SIZE + word_at(bytes@, at as int)
            &&& l.end == at + item_span(bytes@, at as int)
            &&& l.end <= bytes@.len()
            &&& l.value_type == word_at(bytes@, at + 8)
        },
{
    if bytes.len() - at < ITEM_SIZE {
        return None;
    }
    let key_length: u64 = read_word(bytes, at) as u64;
    let value_length: u64 = read_word(bytes, at + 4) as u64;
    let value_type = read_word(bytes, at + 8);
    let available: u64 = (bytes.len() - at - ITEM_SIZE) as u64;
    if key_length + value_length > available {
        return None;
    }
    let value_start: usize = at + ITEM_SIZE + key_length as usize;
    let end: usize = value_start + value_length as usize;
    Some(ItemLocation { start: at, value_start, end, value_type })
}

/// The items of a buffer.
pub open spec fn items_of(bytes: Seq<u8>) -> Seq<MetadataItem> {
    items_from(bytes, HEADER_SIZE as int)
}

/// What is known of the first item with a key.
spec fn located(bytes: Seq<u8>, key: Seq<u8>, l: ItemLocation) -> bool {
    let items = items_of(bytes);
    let i = position(items, key);
    &&& 0 <= i < items.len()
    &&& items[i].key == key
    &&& HEADER_SIZE <= l.start
    &&& has_item(bytes, l.start as int)
    &&& item_at(bytes, l.start as int) == items[i]
    &&& l.value_start == l.start + ITEM_SIZE + items[i].key.len()
    &&& l.end == l.value_start + items[i].value.len()
    &&& l.end == l.start + item_span(bytes, l.start as int)
    &&& l.end <= bytes.len()
    &&& l.value_type == items[i].value_type
    &&& bytes.subrange(HEADER_SIZE as int, l.start as int) == encode_items(items.take(i))
    &&& items_from(bytes, l.end as int) == items.skip(i + 1)
    &&& items_end(bytes, l.end as int) == items_end(bytes, HEADER_SIZE as int)
}

/// Finds the first item with a key.
fn locate(bytes: &[u8], key: &[u8]) -> (found: Option<ItemLocation>)
    ensures
        found is Some <==> has_key(items_of(bytes@), key@),
        found matches Some(l) ==> located(bytes@, key@, l),
{
    if bytes.len() < HEADER_SIZE {
        return None;
    }
    let ghost items = items_of(bytes@);
    let ghost mut i: int = 0;
    let mut offset: usize = HEADER_SIZE;
    proof {
        assert(items.skip(0) =~= items);
        assert(bytes@.subrange(8, 8) =~= encode_items(items.take(0)));
        lemma_position(items, key@);
    }
    while offset < bytes.len()
        invariant
            HEADER_SIZE <= offset <= bytes@.len(),
            items == items_of(bytes@),
            0 <= i <= items.len(),
            bytes@.subrange(HEADER_SIZE as int, offset as int) == encode_items(items.take(i)),
            items_from(bytes@, offset as int) == items.skip(i),
            items_end(bytes@, offset as int) == items_end(bytes@, HEADER_SIZE as int),
            forall|j: int| 0 <= j < i ==> (#[trigger] items[j]).key != key@,
        decreases bytes@.len() - offset,
    {
        match read_item(bytes, offset) {
            None => {
                proof {
                    assert(items.skip(i).len() == 0);
                    lemma_position_is(items, key@, i);
                }
                return None;
            },
            Some(l) => {
                proof {
                    assert(items_from(bytes@, offset as int).len() > 0);
                    assert(items.skip(i)[0] == item_at(bytes@, offset as int));
                    assert(items[i] == items.skip(i)[0]);
                    assert(items_from(bytes@, l.end as int) =~= items.skip(i).drop_first());
                    assert(items.skip(i).drop_first() =~= items.skip(i + 1));
                    lemma_item_is_encoding(bytes@, offset as int);
                }
                let stored_key = slice_subrange(bytes, l.start + ITEM_SIZE, l.value_start);
                if bytes_equal(stored_key, key) {
                    proof {
                        lemma_position_is(items, key@, i);
                    }
                    return Some(l);
                }
                proof {
                    lemma_encode_items_push(items.take(i), items[i]);
                    assert(items.take(i).push(items[i]) =~= items.take(i + 1));
                    assert(bytes@.subrange(8, l.end as int) =~= bytes@.subrange(8, offset as int)
                        + bytes@.subrange(offset as int, l.end as int));
                    i = i + 1;
                }
                offset = l.end;
            },
        }
    }
    proof {
        assert(!has_item(bytes@, offset as int));
        assert(items.skip(i).len() == 0);
        lemma_position_is(items, key@, i);
    }
    None
}

/// Where the whole items of a buffer end.
fn whole_end(bytes: &[u8]) -> (end: usize)
    requires
        bytes@.len() >= HEADER_SIZE,
    ensures
        end == items_end(bytes@, HEADER_SIZE as int),
        HEADER_SIZE <= end <= bytes@.len(),
{
    let mut offset: usize = HEADER_SIZE;
    while offset < bytes.len()
        invariant
            HEADER_SIZE <= offset <= bytes@.len(),
            items_end(bytes@, offset as int) == items_end(bytes@, HEADER_SIZE as int),
        decreases bytes@.len() - offset,
    {
        match read_item(bytes, offset) {
            None => {
                return offset;
            },
            Some(l) => {
                offset = l.end;
            },
        }
    }
    offset
}

/// The part of a buffer after its last whole item.
spec fn tail_of(bytes: Seq<u8>) -> Seq<u8> {
    bytes.skip(items_end(bytes, HEADER_SIZE as int))
}

/// The parts of a buffer around a located item.
proof fn lemma_located_parts(bytes: Seq<u8>, key: Seq<u8>, l: ItemLocation)
    requires
        located(bytes, key, l),
    ensures
        ({
            let items = items_of(bytes);
            let i = position(items, key);
            &&& bytes.take(l.start as int) == bytes.take(HEADER_SIZE as int) + encode_items(
                items.take(i),
            )
            &&& bytes.subrange(l.start as int, l.end as int) == encode_item(items[i])
            &&& bytes.skip(l.end as int) == encode_items(items.skip(i + 1)) + tail_of(bytes)
            &&& !has_item(tail_of(bytes), 0)
            &&& forall|j: int| 0 <= j < items.len() ==> item_fits_words(#[trigger] items[j])
            &&& encode_item(items[i]) == spec_u32_to_le_bytes(items[i].key.len() as u32)
                + spec_u32_to_le_bytes(items[i].value.len() as u32) + spec_u32_to_le_bytes(
                items[i].value_type,
            ) + items[i].key + items[i].value
        }),
{
    let end = items_end(bytes, HEADER_SIZE as int);
    assert(bytes.take(l.start as int) =~= bytes.take(8) + bytes.subrange(8, l.start as int));
    lemma_item_is_encoding(bytes, l.start as int);
    lemma_items_are_encoding(bytes, l.end as int);
    assert(bytes.skip(l.end as int) =~= bytes.subrange(l.end as int, end) + tail_of(bytes));
    lemma_items_are_encoding(bytes, 8);
    assert(bytes =~= bytes.take(end) + tail_of(bytes));
    lemma_shift(bytes.take(end), tail_of(bytes), 0);
}

/// The parts of a buffer that may be empty.
proof fn lemma_parts(bytes: Seq<u8>)
    requires
        bytes.len() >= HEADER_SIZE,
    ensures
        bytes == bytes.take(HEADER_SIZE as int) + encode_items(items_of(bytes)) + tail_of(bytes),
        !has_item(tail_of(bytes), 0),
        forall|j: int|
            0 <= j < items_of(bytes).len() ==> item_fits_words(#[trigger] items_of(bytes)[j]),
{
    let end = items_end(bytes, HEADER_SIZE as int);
    lemma_items_are_encoding(bytes, 8);
    assert(bytes =~= bytes.take(end) + tail_of(bytes));
    lemma_shift(bytes.take(end), tail_of(bytes), 0);
    assert(bytes =~= bytes.take(8) + encode_items(items_of(bytes)) + tail_of(bytes));
}

/// Replacing the items of a buffer between its header and its tail.
proof fn lemma_rebuilt(bytes: Seq<u8>, items: Seq<MetadataItem>, new: Seq<u8>)
    requires
        bytes.len() >= HEADER_SIZE,
        forall|i: int| 0 <= i < items.len() ==> item_fits_words(#[trigger] items[i]),
        new == bytes.take(HEADER_SIZE as int) + encode_items(items) + tail_of(bytes),
    ensures
        items_of(new) == items,
        well_formed(new) == well_formed(bytes),
{
    lemma_parts(bytes);
    lemma_items_read_back(bytes.take(8), items, tail_of(bytes));
    lemma_items_are_encoding(bytes, 8);
    assert(new.subrange(0, 4) =~= bytes.subrange(0, 4));
    assert(new.subrange(4, 8) =~= bytes.subrange(4, 8));
    assert(new.len() == items_end(new, 8) + tail_of(bytes).len());
    assert(bytes.len() == items_end(bytes, 8) + tail_of(bytes).len());
}

impl Metadata {
    /// The items stored in the metadata.
    pub open spec fn items(&self) -> Seq<MetadataItem> {
        items_of(self@)
    }

    /// An item of the given sizes can be added.
    pub open spec fn has_room(&self, key: nat, value: nat) -> bool {
        &&& key <= u32::MAX
        &&& value <= u32::MAX
        &&& self@.len() + HEADER_SIZE + ITEM_SIZE + key + value <= buffer_limit()
    }

    /// The metadata is the older one after storing a value under a key.
    pub open spec fn holds(
        &self,
        older: Metadata,
        key: Seq<u8>,
        value: Seq<u8>,
        value_type: MetadataType,
    ) -> bool {
        &&& well_formed(self@)
        &&& 0 < self@.len() <= older@.len() + HEADER_SIZE + ITEM_SIZE + key.len() + value.len()
        &&& self.items() == stored(
            older.items(),
            MetadataItem { key, value, value_type: value_type.spec_tag() },
        )
    }

    /// Empty metadata.
    pub fn new() -> (metadata: Metadata)
        ensures
            metadata@ == Seq::<u8>::empty(),
            metadata.items() == Seq::<MetadataItem>::empty(),
            well_formed(metadata@),
    {
        Metadata { buffer: buffer_with_capacity(DEFAULT_METADATA_CAPACITY) }
    }

    /// Tells whether nothing was ever stored.
    pub fn is_empty(&self) -> (empty: bool)
        ensures
            empty == (self@.len() == 0),
    {
        buffer_as_slice(&self.buffer).len() == 0
    }

    /// Tells whether the buffer is a header followed by whole items, or empty.
    pub fn is_well_formed(&self) -> (ok: bool)
        ensures
            ok == well_formed(self@),
    {
        if self.is_empty() {
            return true;
        }
        if self.check_header().is_err() {
            return false;
        }
        let bytes = buffer_as_slice(&self.buffer);
        whole_end(bytes) == bytes.len()
    }

    fn set_header(&mut self)
        ensures
            final(self)@ == if old(self)@.len() == 0 {
                header_bytes()
            } else {
                old(self)@
            },
            well_formed(old(self)@) ==> well_formed(final(self)@),
            final(self)@.len() > 0,
            old(self)@.len() == 0 ==> final(self).items() == Seq::<MetadataItem>::empty(),
    {
        if self.is_empty() {
            let header = MetadataHeader { magic: MAGIC, version: VERSION };
            let magic = u32_to_le_bytes(header.magic);
            let version = u32_to_le_bytes(header.version);
            buffer_extend(&mut self.buffer, magic.as_slice());
            buffer_extend(&mut self.buffer, version.as_slice());
            proof {
                lemma_auto_spec_u32_to_from_le_bytes();
                assert(self@ =~= header_bytes());
                let none = Seq::<MetadataItem>::empty();
                law_encoding_is_well_formed(none);
                assert(header_bytes() + encode_items(none) =~= header_bytes());
            }
        }
    }

    /// Checks the header of a non-empty buffer.
    pub fn check_header(&self) -> (result: Result<(), MetadataError>)
        ensures
            result is Ok <==> header_ok(self@),
            result matches Err(e) ==> e.kind == ErrorKind::Internal && e.detail@
                == "bad metadata header"@,
    {
        let bytes = buffer_as_slice(&self.buffer);
        if bytes.len() > 0 {
            if HEADER_SIZE > bytes.len() {
                return Err(MetadataError::internal("bad metadata header"));
            }
            let header = MetadataHeader { magic: read_word(bytes, 0), version: read_word(bytes, 4) };
            if header.magic != MAGIC {
                return Err(MetadataError::internal("bad metadata header"));
            }
            if header.version != VERSION {
                return Err(MetadataError::internal("bad metadata header"));
            }
        }
        Ok(())
    }

    /// The value bytes stored under a key. An incomplete item ends the search.
    pub fn get<'a>(&'a self, key: &[u8]) -> (result: Result<&'a [u8], MetadataError>)
        ensures
            result is Ok <==> has_key(self.items(), key@),
            result matches Ok(value) ==> value@ == lookup(self.items(), key@).value,
            result matches Err(e) ==> e.is_missing(),
    {
        let bytes = buffer_as_slice(&self.buffer);
        match locate(bytes, key) {
            Some(l) => Ok(slice_subrange(bytes, l.value_start, l.end)),
            None => Err(MetadataError::of(ErrorKind::FileNotFound, "metadata key")),
        }
    }

    /// The value bytes stored under a key, with their type.
    pub fn get_with_type<'a>(&'a self, key: &[u8]) -> (result: Result<
        (&'a [u8], MetadataType),
        MetadataError,
    >)
        ensures
            result is Ok <==> has_key(self.items(), key@),
            result matches Ok(found) ==> {
                &&& found.0@ == lookup(self.items(), key@).value
                &&& found.1 == MetadataType::spec_from(lookup(self.items(), key@).value_type)
            },
            result matches Err(e) ==> e.is_missing(),
    {
        let bytes = buffer_as_slice(&self.buffer);
        match locate(bytes, key) {
            Some(l) => Ok(
                (slice_subrange(bytes, l.value_start, l.end), MetadataType::from(l.value_type)),
            ),
            None => Err(MetadataError::of(ErrorKind::FileNotFound, "metadata key")),
        }
    }

    /// Cuts a located item out of the buffer.
    fn erase(&mut self, key: &[u8], l: &ItemLocation)
        requires
            located(old(self)@, key@, *l),
            old(self)@.len() <= buffer_limit(),
        ensures
            final(self)@ == old(self)@.take(HEADER_SIZE as int) + encode_items(
                removed(old(self).items(), key@),
            ) + tail_of(old(self)@),
            final(self)@.len() == old(self)@.len() - (l.end - l.start),
    {
        let ghost items = self.items();
        let ghost i = position(items, key@);
        let bytes = buffer_as_slice(&self.buffer);
        let tail = slice_to_vec(slice_subrange(bytes, l.end, bytes.len()));
        buffer_truncate(&mut self.buffer, l.start);
        buffer_extend(&mut self.buffer, tail.as_slice());
        proof {
            let before = old(self)@;
            lemma_located_parts(before, key@, *l);
            lemma_encode_items_concat(items.take(i), items.skip(i + 1));
            assert(items.take(i) + items.skip(i + 1) =~= items.remove(i));
            assert(tail@ =~= before.skip(l.end as int));
            assert(self@ =~= before.take(8) + encode_items(items.remove(i)) + tail_of(before));
        }
    }

    /// Removes the first item with a key. Returns whether there was one.
    pub fn remove(&mut self, key: &[u8]) -> (existed: bool)
        requires
            old(self)@.len() <= buffer_limit(),
        ensures
            existed == has_key(old(self).items(), key@),
            final(self).items() == removed(old(self).items(), key@),
            well_formed(final(self)@) == well_formed(old(self)@),
            header_ok(final(self)@) == header_ok(old(self)@),
            !existed ==> final(self)@ == old(self)@,
            final(self)@.len() <= old(self)@.len(),
            old(self)@.len() > 0 ==> final(self)@.len() > 0,
    {
        match locate(buffer_as_slice(&self.buffer), key) {
            Some(l) => {
                self.erase(key, &l);
                proof {
                    lemma_parts(old(self)@);
                    lemma_position(old(self).items(), key@);
                    let left = removed(old(self).items(), key@);
                    assert forall|j: int| 0 <= j < left.len() implies item_fits_words(
                        #[trigger] left[j],
                    ) by {
                        let i = position(old(self).items(), key@);
                        assert(left[j] == old(self).items()[if j < i { j } else { j + 1 }]);
                    }
                    lemma_rebuilt(old(self)@, left, self@);
                    assert(self@.subrange(0, 4) =~= old(self)@.subrange(0, 4));
                    assert(self@.subrange(4, 8) =~= old(self)@.subrange(4, 8));
                }
                true
            },
            None => false,
        }
    }

    /// Removes a key. Returns whether it existed.
    pub fn remove_key(&mut self, key: &str) -> (existed: bool)
        requires
            old(self)@.len() <= buffer_limit(),
        ensures
            existed == has_key(old(self).items(), key.spec_bytes()),
            final(self).items() == removed(old(self).items(), key.spec_bytes()),
            well_formed(final(self)@) == well_formed(old(self)@),
            header_ok(final(self)@) == header_ok(old(self)@),
            !existed ==> final(self)@ == old(self)@,
            final(self)@.len() <= old(self)@.len(),
            old(self)@.len() > 0 ==> final(self)@.len() > 0,
    {
        self.remove(key.as_bytes())
    }

    /// Writes an item with a value of the same length over a located item.
    fn overwrite(&mut self, key: &[u8], value: &[u8], value_type: MetadataType, l: &ItemLocation)
        requires
            well_formed(old(self)@),
            located(old(self)@, key@, *l),
            l.end - l.value_start == value@.len(),
            key@.len() <= u32::MAX,
            value@.len() <= u32::MAX,
            old(self)@.len() <= buffer_limit(),
        ensures
            well_formed(final(self)@),
            final(self)@.len() == old(self)@.len(),
            final(self).items() == old(self).items().update(
                position(old(self).items(), key@),
                (MetadataItem { key: key@, value: value@, value_type: value_type.spec_tag() }),
            ),
    {
        let bytes = buffer_as_slice(&self.buffer);
        let tail = slice_to_vec(slice_subrange(bytes, l.end, bytes.len()));
        proof {
            lemma_located_parts(old(self)@, key@, *l);
            lemma_auto_spec_u32_to_from_le_bytes();
        }
        buffer_truncate(&mut self.buffer, l.start);
        self.write_item(key, value, value_type);
        buffer_extend(&mut self.buffer, tail.as_slice());
        proof {
            let before = old(self)@;
            let items = old(self).items();
            let i = position(items, key@);
            let new_item = MetadataItem {
                key: key@,
                value: value@,
                value_type: value_type.spec_tag(),
            };
            let new = items.update(i, new_item);
            assert(self@ =~= before.take(l.start as int) + encode_item(new_item) + before.skip(
                l.end as int,
            ));
            assert(encode_items(new) == encode_items(items.take(i)) + encode_item(new_item)
                + encode_items(items.skip(i + 1))) by {
                lemma_encode_items_push(items.take(i), new_item);
                lemma_encode_items_concat(items.take(i).push(new_item), items.skip(i + 1));
                assert(items.take(i).push(new_item) + items.skip(i + 1) =~= new);
            }
            assert(self@ =~= before.take(8) + encode_items(new) + tail_of(before));
            lemma_rebuilt(before, new, self@);
        }
    }

    /// Writes the bytes of an item behind what the buffer holds.
    fn write_item(&mut self, key: &[u8], value: &[u8], value_type: MetadataType)
        requires
            key@.len() <= u32::MAX,
            value@.len() <= u32::MAX,
            old(self)@.len() + ITEM_SIZE + key@.len() + value@.len() <= buffer_limit(),
        ensures
            final(self)@ == old(self)@ + encode_item(
                (MetadataItem { key: key@, value: value@, value_type: value_type.spec_tag() }),
            ),
    {
        let key_length = u32_to_le_bytes(key.len() as u32);
        let value_length = u32_to_le_bytes(value.len() as u32);
        let tag = u32_to_le_bytes(value_type.tag());
        buffer_extend(&mut self.buffer, key_length.as_slice());
        buffer_extend(&mut self.buffer, value_length.as_slice());
        buffer_extend(&mut self.buffer, tag.as_slice());
        buffer_extend(&mut self.buffer, key);
        buffer_extend(&mut self.buffer, value);
        proof {
            let item = MetadataItem {
                key: key@,
                value: value@,
                value_type: value_type.spec_tag(),
            };
            assert(self@ =~= old(self)@ + encode_item(item));
        }
    }

    /// Appends an item to a buffer that has a header.
    fn append(&mut self, key: &[u8], value: &[u8], value_type: MetadataType)
        requires
            well_formed(old(self)@),
            old(self)@.len() > 0,
            key@.len() <= u32::MAX,
            value@.len() <= u32::MAX,
            old(self)@.len() + ITEM_SIZE + key@.len() + value@.len() <= buffer_limit(),
        ensures
            well_formed(final(self)@),
            final(self)@.len() == old(self)@.len() + ITEM_SIZE + key@.len() + value@.len(),
            final(self).items() == old(self).items().push(
                (MetadataItem { key: key@, value: value@, value_type: value_type.spec_tag() }),
            ),
    {
        self.write_item(key, value, value_type);
        proof {
            let before = old(self)@;
            let items = old(self).items();
            let item = MetadataItem {
                key: key@,
                value: value@,
                value_type: value_type.spec_tag(),
            };
            lemma_parts(before);
            assert(tail_of(before) =~= Seq::empty());
            lemma_encode_items_push(items, item);
            lemma_encode_item_len(item);
            assert(self@ =~= before.take(8) + encode_items(items.push(item)) + tail_of(before));
            lemma_rebuilt(before, items.push(item), self@);
        }
    }

    /// Drops what follows the last whole item.
    fn drop_tail(&mut self)
        requires
            header_ok(old(self)@),
            old(self)@.len() > 0,
        ensures
            well_formed(final(self)@),
            0 < final(self)@.len() <= old(self)@.len(),
            final(self).items() == old(self).items(),
    {
        let ghost before = self@;
        let end = whole_end(buffer_as_slice(&self.buffer));
        buffer_truncate(&mut self.buffer, end);
        proof {
            let items = items_of(before);
            let none = Seq::<u8>::empty();
            lemma_parts(before);
            lemma_items_are_encoding(before, 8);
            assert(self@ =~= before.take(8) + encode_items(items) + none);
            lemma_items_read_back(before.take(8), items, none);
            assert(self@.subrange(0, 4) =~= before.subrange(0, 4));
            assert(self@.subrange(4, 8) =~= before.subrange(4, 8));
        }
    }

    /// Stores a value with its type under a key. An item of unchanged length is
    /// written over the old one; otherwise the old item is erased and a new one
    /// is appended. Bytes behind the last whole item do not stay.
    pub fn set(&mut self, key: &[u8], value: &[u8], value_type: MetadataType) -> (result: Result<
        (),
        MetadataError,
    >)
        requires
            header_ok(old(self)@),
            old(self).has_room(key@.len(), value@.len()),
        ensures
            result is Ok,
            final(self).holds(*old(self), key@, value@, value_type),
    {
        self.set_header();
        self.drop_tail();
        proof {
            assert(old(self)@.len() == 0 ==> old(self).items() =~= Seq::empty());
            lemma_position(self.items(), key@);
        }
        match locate(buffer_as_slice(&self.buffer), key) {
            Some(l) => {
                if l.end - l.value_start == value.len() {
                    self.overwrite(key, value, value_type, &l);
                    return Ok(());
                }
                self.remove(key);
            },
            None => {},
        }
        self.append(key, value, value_type);
        Ok(())
    }

    /// Stores text.
    pub fn set_string(&mut self, key: &str, value: &str) -> (result: Result<(), MetadataError>)
        requires
            header_ok(old(self)@),
            old(self).has_room(key.spec_bytes().len(), value.spec_bytes().len()),
        ensures
            result is Ok,
            final(self).holds(*old(self), key.spec_bytes(), value.spec_bytes(), MetadataType::String),
    {
        self.set(key.as_bytes(), value.as_bytes(), MetadataType::String)
    }

    /// Stores a number.
    pub fn set_u64(&mut self, key: &str, value: u64) -> (result: Result<(), MetadataError>)
        requires
            header_ok(old(self)@),
            old(self).has_room(key.spec_bytes().len(), 8),
        ensures
            result is Ok,
            final(self).holds(*old(self), key.spec_bytes(), spec_u64_to_le_bytes(value), MetadataType::Numeric),
    {
        let bytes = u64_to_le_bytes(value);
        self.set(key.as_bytes(), bytes.as_slice(), MetadataType::Numeric)
    }

    /// Stores a context.
    pub fn set_context(&mut self, key: &str, value: Context) -> (result: Result<(), MetadataError>)
        requires
            header_ok(old(self)@),
            old(self).has_room(key.spec_bytes().len(), CONTEXT_SIZE as nat),
        ensures
            result is Ok,
            final(self).holds(*old(self), key.spec_bytes(), value.data@, MetadataType::Context),
    {
        self.set(key.as_bytes(), value.data(), MetadataType::Context)
    }

    /// Stores a hash.
    pub fn set_hash(&mut self, key: &str, value: ContentHash) -> (result: Result<(), MetadataError>)
        requires
            header_ok(old(self)@),
            old(self).has_room(key.spec_bytes().len(), HASH_SIZE as nat),
        ensures
            result is Ok,
            final(self).holds(*old(self), key.spec_bytes(), value.data@, MetadataType::Hash),
    {
        self.set(key.as_bytes(), value.data(), MetadataType::Hash)
    }

    /// Stores an address.
    pub fn set_address(&mut self, key: &str, value: Address) -> (result: Result<(), MetadataError>)
        requires
            header_ok(old(self)@),
            old(self).has_room(key.spec_bytes().len(), ADDRESS_SIZE as nat),
        ensures
            result is Ok,
            final(self).holds(*old(self), key.spec_bytes(), value.bytes(), MetadataType::Address),
    {
        let bytes = value.to_bytes();
        self.set(key.as_bytes(), bytes.as_slice(), MetadataType::Address)
    }

    /// Stores a flag, as one byte.
    pub fn set_bool(&mut self, key: &str, value: bool) -> (result: Result<(), MetadataError>)
        requires
            header_ok(old(self)@),
            old(self).has_room(key.spec_bytes().len(), 1),
        ensures
            result is Ok,
            final(self).holds(*old(self), key.spec_bytes(), flag_bytes(value), MetadataType::Boolean),
    {
        let bytes: [u8; 1] = if value {
            [1u8]
        } else {
            [0u8]
        };
        assert(bytes@ =~= flag_bytes(value));
        self.set(key.as_bytes(), &bytes, MetadataType::Boolean)
    }

    /// Stores raw bytes.
    pub fn set_binary(&mut self, key: &str, value: &[u8]) -> (result: Result<(), MetadataError>)
        requires
            header_ok(old(self)@),
            old(self).has_room(key.spec_bytes().len(), value@.len()),
        ensures
            result is Ok,
            final(self).holds(*old(self), key.spec_bytes(), value@, MetadataType::Binary),
    {
        self.set(key.as_bytes(), value, MetadataType::Binary)
    }

    /// The text stored under a key.
    pub fn get_string(&self, key: &str) -> (result: Result<&str, MetadataError>)
        ensures
            result is Ok <==> has_key(self.items(), key.spec_bytes()) && valid_utf8(
                lookup(self.items(), key.spec_bytes()).value,
            ),
            result matches Ok(value) ==> value.spec_bytes() == lookup(self.items(), key.spec_bytes()).value,
            result matches Err(e) ==> if has_key(self.items(), key.spec_bytes()) {
                e.is_type_mismatch()
            } else {
                e.is_missing()
            },
    {
        match self.get(key.as_bytes()) {
            Ok(value) => Metadata::to_string(value),
            Err(error) => Err(error),
        }
    }

    /// The context stored under a key.
    pub fn get_context(&self, key: &str) -> (result: Result<Context, MetadataError>)
        ensures
            result is Ok <==> has_key(self.items(), key.spec_bytes()) && lookup(self.items(), key.spec_bytes()).value.len() == CONTEXT_SIZE,
            result matches Ok(value) ==> value.data@ == lookup(self.items(), key.spec_bytes()).value,
            result matches Err(e) ==> if has_key(self.items(), key.spec_bytes()) {
                e.is_type_mismatch()
            } else {
                e.is_missing()
            },
    {
        match self.get(key.as_bytes()) {
            Ok(value) => Metadata::to_context(value),
            Err(error) => Err(error),
        }
    }

    /// The hash stored under a key.
    pub fn get_hash(&self, key: &str) -> (result: Result<ContentHash, MetadataError>)
        ensures
            result is Ok <==> has_key(self.items(), key.spec_bytes()) && lookup(self.items(), key.spec_bytes()).value.len() == HASH_SIZE,
            result matches Ok(value) ==> value.data@ == lookup(self.items(), key.spec_bytes()).value,
            result matches Err(e) ==> if has_key(self.items(), key.spec_bytes()) {
                e.is_type_mismatch()
            } else {
                e.is_missing()
            },
    {
        match self.get(key.as_bytes()) {
            Ok(value) => Metadata::to_hash(value),
            Err(error) => Err(error),
        }
    }

    /// The address stored under a key.
    pub fn get_address(&self, key: &str) -> (result: Result<Address, MetadataError>)
        ensures
            result is Ok <==> has_key(self.items(), key.spec_bytes()) && lookup(self.items(), key.spec_bytes()).value.len() == ADDRESS_SIZE,
            result matches Ok(value) ==> value.bytes() == lookup(self.items(), key.spec_bytes()).value,
            result matches Err(e) ==> if has_key(self.items(), key.spec_bytes()) {
                e.is_type_mismatch()
            } else {
                e.is_missing()
            },
    {
        match self.get(key.as_bytes()) {
            Ok(value) => Metadata::to_address(value),
            Err(error) => Err(error),
        }
    }

    /// The number stored under a key.
    pub fn get_u64(&self, key: &str) -> (result: Result<u64, MetadataError>)
        ensures
            result is Ok <==> has_key(self.items(), key.spec_bytes()) && lookup(self.items(), key.spec_bytes()).value.len() == 8,
            result matches Ok(value) ==> value == spec_u64_from_le_bytes(lookup(self.items(), key.spec_bytes()).value),
            result matches Err(e) ==> if has_key(self.items(), key.spec_bytes()) {
                e.is_type_mismatch()
            } else {
                e.is_missing()
            },
    {
        match self.get(key.as_bytes()) {
            Ok(value) => Metadata::to_u64(value),
            Err(error) => Err(error),
        }
    }

    /// The flag stored under a key.
    pub fn get_bool(&self, key: &str) -> (result: Result<bool, MetadataError>)
        ensures
            result is Ok <==> has_key(self.items(), key.spec_bytes()) && lookup(self.items(), key.spec_bytes()).value.len() == 1,
            result matches Ok(value) ==> value == (lookup(self.items(), key.spec_bytes()).value[0] != 0),
            result matches Err(e) ==> if has_key(self.items(), key.spec_bytes()) {
                e.is_type_mismatch()
            } else {
                e.is_missing()
            },
    {
        match self.get(key.as_bytes()) {
            Ok(value) => Metadata::to_bool(value),
            Err(error) => Err(error),
        }
    }

    /// Reads a value as text.
    pub fn to_string(value: &[u8]) -> (result: Result<&str, MetadataError>)
        ensures
            result is Ok <==> valid_utf8(value@),
            result matches Ok(text) ==> text.spec_bytes() == value@,
            result matches Err(e) ==> e.is_type_mismatch(),
    {
        match text_from_utf8(value) {
            Some(text) => Ok(text),
            None => Err(MetadataError::internal("metadata type mismatch")),
        }
    }

    /// Reads a value as a context.
    pub fn to_context(value: &[u8]) -> (result: Result<Context, MetadataError>)
        ensures
            result is Ok <==> value@.len() == CONTEXT_SIZE,
            result matches Ok(context) ==> context.data@ == value@,
            result matches Err(e) ==> e.is_type_mismatch(),
    {
        if value.len() == CONTEXT_SIZE {
            Ok(Context::from_slice(value))
        } else {
            Err(MetadataError::internal("metadata type mismatch"))
        }
    }

    /// Reads a value as a hash.
    pub fn to_hash(value: &[u8]) -> (result: Result<ContentHash, MetadataError>)
        ensures
            result is Ok <==> value@.len() == HASH_SIZE,
            result matches Ok(hash) ==> hash.data@ == value@,
            result matches Err(e) ==> e.is_type_mismatch(),
    {
        if value.len() == HASH_SIZE {
            Ok(ContentHash::from_slice(value))
        } else {
            Err(MetadataError::internal("metadata type mismatch"))
        }
    }

    /// Reads a value as an address.
    pub fn to_address(value: &[u8]) -> (result: Result<Address, MetadataError>)
        ensures
            result is Ok <==> value@.len() == ADDRESS_SIZE,
            result matches Ok(address) ==> address.bytes() == value@,
            result matches Err(e) ==> e.is_type_mismatch(),
    {
        if value.len() == ADDRESS_SIZE {
            Ok(Address::from_slice(value))
        } else {
            Err(MetadataError::internal("metadata type mismatch"))
        }
    }

    /// Reads a value as a number: eight little-endian bytes.
    pub fn to_u64(value: &[u8]) -> (result: Result<u64, MetadataError>)
        ensures
            result is Ok <==> value@.len() == 8,
            result matches Ok(number) ==> number == spec_u64_from_le_bytes(value@),
            result matches Err(e) ==> e.is_type_mismatch(),
    {
        if value.len() == 8 {
            Ok(u64_from_le_bytes(value))
        } else {
            Err(MetadataError::internal("metadata type mismatch"))
        }
    }

    /// Reads a value as a flag: one byte, set when it is not zero.
    pub fn to_bool(value: &[u8]) -> (result: Result<bool, MetadataError>)
        ensures
            result is Ok <==> value@.len() == 1,
            result matches Ok(flag) ==> flag == (value@[0] != 0),
            result matches Err(e) ==> e.is_type_mismatch(),
    {
        if value.len() == 1 {
            Ok(value[0] != 0)
        } else {
            Err(MetadataError::internal("metadata type mismatch"))
        }
    }

    /// Decodes a string representation of a metadata value into its byte
    /// encoding. Numeric values are parsed as `u64` and stored as little-endian
    /// bytes; all other types are passed through as raw UTF-8 bytes.
    pub fn decode_to_value(value: &str, format: &MetadataType) -> (result: Result<
        Vec<u8>,
        MetadataError,
    >)
        ensures
            result is Ok <==> (*format == MetadataType::Numeric ==> parsed_u64(value@) is Some),
            result matches Ok(bytes) ==> bytes@ == if *format == MetadataType::Numeric {
                spec_u64_to_le_bytes(parsed_u64(value@)->0)
            } else {
                value.spec_bytes()
            },
            result matches Err(e) ==> e.kind == ErrorKind::Internal && e.detail@
                == "invalid numeric value"@,
    {
        match format {
            MetadataType::Numeric => match parse_u64(value) {
                Some(parsed) => Ok(u64_to_le_bytes(parsed)),
                None => Err(MetadataError::internal("invalid numeric value")),
            },
            _ => Ok(slice_to_vec(value.as_bytes())),
        }
    }

    /// The raw bytes stored under a key.
    pub fn get_binary(&self, key: &str) -> (result: Result<&[u8], MetadataError>)
        ensures
            result is Ok <==> has_key(self.items(), key.spec_bytes()),
            result matches Ok(value) ==> value@ == lookup(self.items(), key.spec_bytes()).value,
            result matches Err(e) ==> e.is_missing(),
    {
        self.get(key.as_bytes())
    }

    /// Returns the raw value bytes and the [`MetadataType`] for the given key.
    pub fn get_typed(&self, key: &str) -> (result: Result<(&[u8], MetadataType), MetadataError>)
        ensures
            result is Ok <==> has_key(self.items(), key.spec_bytes()),
            result matches Ok(found) ==> {
                &&& found.0@ == lookup(self.items(), key.spec_bytes()).value
                &&& found.1 == MetadataType::spec_from(
                    lookup(self.items(), key.spec_bytes()).value_type,
                )
            },
            result matches Err(e) ==> e.is_missing(),
    {
        self.get_with_type(key.as_bytes())
    }

    /// Stores the originating branch.
    pub fn set_branch(&mut self, branch: BranchId) -> (result: Result<(), MetadataError>)
        requires
            header_ok(old(self)@),
            old(self).has_room(BRANCH.spec_bytes().len(), CONTEXT_SIZE as nat),
        ensures
            result is Ok,
            final(self).holds(
                *old(self),
                BRANCH.spec_bytes(),
                branch.data@,
                MetadataType::Context,
            ),
    {
        self.set_context(BRANCH, branch)
    }

    /// The originating branch.
    pub fn get_branch(&self) -> (result: Result<BranchId, MetadataError>)
        ensures
            result is Ok <==> has_key(self.items(), BRANCH.spec_bytes()) && lookup(
                self.items(),
                BRANCH.spec_bytes(),
            ).value.len() == CONTEXT_SIZE,
            result matches Ok(branch) ==> branch.data@ == lookup(
                self.items(),
                BRANCH.spec_bytes(),
            ).value,
            result matches Err(e) ==> if has_key(self.items(), BRANCH.spec_bytes()) {
                e.is_type_mismatch()
            } else {
                e.is_missing()
            },
    {
        self.get_context(BRANCH)
    }

    /// Stores the time of commit.
    pub fn set_timestamp(&mut self, timestamp: u64) -> (result: Result<(), MetadataError>)
        requires
            header_ok(old(self)@),
            old(self).has_room(TIMESTAMP.spec_bytes().len(), 8),
        ensures
            result is Ok,
            final(self).holds(
                *old(self),
                TIMESTAMP.spec_bytes(),
                spec_u64_to_le_bytes(timestamp),
                MetadataType::Numeric,
            ),
    {
        self.set_u64(TIMESTAMP, timestamp)
    }

    /// The time of commit.
    pub fn get_timestamp(&self) -> (result: Result<u64, MetadataError>)
        ensures
            result is Ok <==> has_key(self.items(), TIMESTAMP.spec_bytes()) && lookup(
                self.items(),
                TIMESTAMP.spec_bytes(),
            ).value.len() == 8,
            result matches Ok(timestamp) ==> timestamp == spec_u64_from_le_bytes(
                lookup(self.items(), TIMESTAMP.spec_bytes()).value,
            ),
            result matches Err(e) ==> if has_key(self.items(), TIMESTAMP.spec_bytes()) {
                e.is_type_mismatch()
            } else {
                e.is_missing()
            },
    {
        self.get_u64(TIMESTAMP)
    }

    /// Visits the items in stored order, up to an incomplete item or an item
    /// without key and value bytes at the very end.
    pub fn walk(&self) -> (result: Result<Vec<MetadataEntry>, MetadataError>)
        ensures
            result is Ok,
            result matches Ok(entries) ==> {
                let walked = walked_from(self@, HEADER_SIZE as int);
                &&& entries@.len() == walked.len()
                &&& forall|i: int|
                    0 <= i < walked.len() ==> {
                        &&& (#[trigger] entries@[i]).key@ == walked[i].key
                        &&& entries@[i].value@ == walked[i].value
                        &&& entries@[i].value_type == MetadataType::spec_from(walked[i].value_type)
                    }
            },
    {
        let bytes = buffer_as_slice(&self.buffer);
        let mut entries: Vec<MetadataEntry> = Vec::new();
        let mut offset: usize = HEADER_SIZE;
        let ghost walked = walked_from(self@, HEADER_SIZE as int);
        assert(walked.skip(0) =~= walked);
        while offset < bytes.len() && ITEM_SIZE < bytes.len() - offset
            invariant_except_break
                bytes@ == self@,
                walked == walked_from(self@, HEADER_SIZE as int),
                entries@.len() <= walked.len(),
                walked_from(bytes@, offset as int) == walked.skip(entries@.len() as int),
                HEADER_SIZE <= offset,
                forall|i: int|
                    0 <= i < entries@.len() ==> {
                        &&& (#[trigger] entries@[i]).key@ == walked[i].key
                        &&& entries@[i].value@ == walked[i].value
                        &&& entries@[i].value_type == MetadataType::spec_from(walked[i].value_type)
                    },
            ensures
                entries@.len() == walked.len(),
                forall|i: int|
                    0 <= i < entries@.len() ==> {
                        &&& (#[trigger] entries@[i]).key@ == walked[i].key
                        &&& entries@[i].value@ == walked[i].value
                        &&& entries@[i].value_type == MetadataType::spec_from(walked[i].value_type)
                    },
            decreases bytes@.len() - offset,
        {
            match read_item(bytes, offset) {
                None => {
                    assert(walked.skip(entries@.len() as int).len() == 0);
                    break ;
                },
                Some(l) => {
                    let key = slice_to_vec(
                        slice_subrange(bytes, l.start + ITEM_SIZE, l.value_start),
                    );
                    let value = slice_to_vec(slice_subrange(bytes, l.value_start, l.end));
                    let value_type = MetadataType::from(l.value_type);
                    proof {
                        let n = entries@.len() as int;
                        assert(walked_from(bytes@, offset as int).len() > 0);
                        assert(walked.skip(n)[0] == item_at(bytes@, offset as int));
                        assert(walked_from(bytes@, l.end as int) =~= walked.skip(n).drop_first());
                        assert(walked.skip(n).drop_first() =~= walked.skip(n + 1));
                    }
                    entries.push(MetadataEntry { key, value, value_type });
                    offset = l.end;
                },
            }
        }
        Ok(entries)
    }

    /// The bytes to write to the immutable store; nothing is written for empty
    /// metadata, which is identified by the zero hash.
    pub fn serialize(&self) -> (result: Result<Option<Vec<u8>>, MetadataError>)
        ensures
            result is Ok <==> self@.len() <= METADATA_MAX_SIZE,
            result matches Ok(bytes) ==> (bytes is None <==> self@.len() == 0),
            result matches Ok(Some(bytes)) ==> bytes@ == self@,
            result matches Err(e) ==> {
                &&& e.kind == ErrorKind::Oversized
                &&& e.detail@ == "metadata size "@ + decimal_digits(self@.len())
                    + " exceeds 1048576 byte limit; store large values as separate blobs and reference them via hash"@
            },
    {
        let bytes = buffer_as_slice(&self.buffer);
        if bytes.len() == 0 {
            return Ok(None);
        }
        if bytes.len() > METADATA_MAX_SIZE {
            let mut detail = "metadata size ".to_owned();
            detail.append(decimal(bytes.len() as u64).as_str());
            detail.append(
                " exceeds 1048576 byte limit; store large values as separate blobs and reference them via hash",
            );
            return Err(MetadataError { kind: ErrorKind::Oversized, detail });
        }
        Ok(Some(slice_to_vec(bytes)))
    }

    /// Metadata from the bytes read from the immutable store.
    pub fn deserialize(bytes: &[u8]) -> (result: Result<Metadata, MetadataError>)
        ensures
            result is Ok <==> header_ok(bytes@),
            result matches Ok(metadata) ==> metadata@ == bytes@,
            result matches Err(e) ==> e.kind == ErrorKind::Internal && e.detail@
                == "bad metadata header"@,
    {
        let metadata = Metadata { buffer: buffer_from(bytes) };
        match metadata.check_header() {
            Ok(()) => Ok(metadata),
            Err(error) => Err(error),
        }
    }
}

impl Clone for Metadata {
    fn clone(&self) -> (copy: Metadata)
        ensures
            copy@ == self@,
    {
        Metadata { buffer: buffer_clone(&self.buffer) }
    }
}

impl Default for Metadata {
    fn default() -> (metadata: Metadata)
        ensures
            metadata@ == Seq::<u8>::empty(),
            well_formed(metadata@),
    {
        Metadata::new()
    }
}

/// The stored form of a flag.
pub open spec fn flag_bytes(flag: bool) -> Seq<u8> {
    seq![if flag { 1u8 } else { 0u8 }]
}

/// Text read from the bytes of a text is that text.
pub proof fn law_text_round_trip(stored: &str, read: &str)
    requires
        read.spec_bytes() == stored.spec_bytes(),
    ensures
        valid_utf8(stored.spec_bytes()),
        read@ == stored@,
{
    encode_utf8_valid_utf8(stored@);
    encode_utf8_decode_utf8(stored@);
    encode_utf8_decode_utf8(read@);
}

/// A number read from the bytes of a number is that number.
pub proof fn law_number_round_trip(number: u64)
    ensures
        spec_u64_to_le_bytes(number).len() == 8,
        spec_u64_from_le_bytes(spec_u64_to_le_bytes(number)) == number,
{
    lemma_auto_spec_u64_to_from_le_bytes();
}

/// A flag read from the byte of a flag is that flag.
pub proof fn law_flag_round_trip(flag: bool)
    ensures
        flag_bytes(flag).len() == 1,
        (flag_bytes(flag)[0] != 0) == flag,
{
}

/// Metadata that serializes passes the check made on reading it back.
pub proof fn law_written_metadata_is_accepted(bytes: Seq<u8>)
    requires
        well_formed(bytes),
    ensures
        header_ok(bytes),
        bytes.len() > 0 ==> bytes.len() >= HEADER_SIZE,
{
}

} // verus!
