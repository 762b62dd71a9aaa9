use lore_revision::errors::ErrorKind;
use lore_revision::metadata::Metadata;
use lore_revision::metadata::MetadataType;
use lore_revision::types::Address;
use lore_revision::types::ContentHash;
use lore_revision::types::Context;

#[test]
fn to_string_rejects_truncated_utf8() {
    // \xe4\xb8 is a truncated 3-byte UTF-8 sequence (missing final byte)
    let bad_utf8: &[u8] = b"hello \xe4\xb8";
    let result = Metadata::to_string(bad_utf8);
    assert!(result.is_err());
}

#[test]
fn walk_with_invalid_utf8_key() {
    let mut metadata = Metadata::new();
    metadata
        .set(b"\xe4\xb8", b"value", MetadataType::String)
        .unwrap();

    let entries = metadata.walk().unwrap();

    assert_eq!(entries.len(), 1);
    assert_eq!(entries[0].key, b"\xe4\xb8");
    assert_eq!(entries[0].value, b"value");
}

#[test]
fn get_with_invalid_utf8_key() {
    let mut metadata = Metadata::new();
    metadata
        .set(b"\xe4\xb8", b"value", MetadataType::String)
        .unwrap();

    // get() works on raw &[u8] keys, so it should find the value
    let result = metadata.get(b"\xe4\xb8").unwrap();
    assert_eq!(result, b"value");
}

#[test]
fn decode_to_value_numeric() {
    let result = Metadata::decode_to_value("42", &MetadataType::Numeric).unwrap();
    assert_eq!(result, 42u64.to_le_bytes().to_vec());
}

#[test]
fn decode_to_value_numeric_zero() {
    let result = Metadata::decode_to_value("0", &MetadataType::Numeric).unwrap();
    assert_eq!(result, 0u64.to_le_bytes().to_vec());
}

#[test]
fn decode_to_value_numeric_max() {
    let max = u64::MAX.to_string();
    let result = Metadata::decode_to_value(&max, &MetadataType::Numeric).unwrap();
    assert_eq!(result, u64::MAX.to_le_bytes().to_vec());
}

#[test]
fn decode_to_value_numeric_invalid() {
    let result = Metadata::decode_to_value("not_a_number", &MetadataType::Numeric);
    assert!(result.is_err());
}

#[test]
fn decode_to_value_numeric_negative() {
    let result = Metadata::decode_to_value("-1", &MetadataType::Numeric);
    assert!(result.is_err());
}

#[test]
fn decode_to_value_numeric_overflow() {
    let overflow = format!("{}0", u64::MAX);
    let result = Metadata::decode_to_value(&overflow, &MetadataType::Numeric);
    assert!(result.is_err());
}

#[test]
fn decode_to_value_string() {
    let result = Metadata::decode_to_value("hello", &MetadataType::String).unwrap();
    assert_eq!(result, b"hello");
}

#[test]
fn decode_to_value_binary() {
    let result = Metadata::decode_to_value("raw data", &MetadataType::Binary).unwrap();
    assert_eq!(result, b"raw data");
}

#[test]
fn stored_values_are_read_by_type() {
    let mut metadata = Metadata::new();
    assert!(metadata.is_empty());
    metadata.set_string("name", "value").unwrap();
    metadata.set_u64("count", 513).unwrap();
    metadata.set_bool("flag", true).unwrap();
    metadata.set_context("context", Context::new([3; 16])).unwrap();
    metadata.set_hash("hash", ContentHash::new([4; 32])).unwrap();
    metadata.set_binary("raw", &[1, 2, 3]).unwrap();
    assert_eq!(metadata.get_string("name").unwrap(), "value");
    assert_eq!(metadata.get_u64("count").unwrap(), 513);
    assert!(metadata.get_bool("flag").unwrap());
    assert_eq!(metadata.get_context("context").unwrap(), Context::new([3; 16]));
    assert_eq!(metadata.get_hash("hash").unwrap(), ContentHash::new([4; 32]));
    assert_eq!(metadata.get_binary("raw").unwrap(), &[1, 2, 3]);
    let (value, value_type) = metadata.get_typed("count").unwrap();
    assert_eq!(value, 513u64.to_le_bytes());
    assert_eq!(value_type, MetadataType::Numeric);
    assert_eq!(metadata.walk().unwrap().len(), 6);
}

#[test]
fn storing_a_key_again_replaces_its_type() {
    let mut metadata = Metadata::new();
    metadata.set_binary("k", &[0u8; 8]).unwrap();
    metadata.set_string("other", "kept").unwrap();
    metadata.set_u64("k", 7).unwrap();
    let (value, value_type) = metadata.get_typed("k").unwrap();
    assert_eq!(value, &[7, 0, 0, 0, 0, 0, 0, 0][..]);
    assert_eq!(value_type, MetadataType::Numeric);
    assert_eq!(metadata.get_string("other").unwrap(), "kept");
    assert_eq!(metadata.walk().unwrap().len(), 2);
}

#[test]
fn values_are_stored_behind_the_last_whole_item() {
    let mut metadata = Metadata::new();
    metadata.set_string("a", "value").unwrap();
    let mut bytes = metadata.serialize().unwrap().unwrap();
    bytes.extend_from_slice(&[9, 9, 9]);
    let mut cut = Metadata::deserialize(&bytes).unwrap();
    assert!(!cut.is_well_formed());
    cut.set_u64("b", 3).unwrap();
    assert!(cut.is_well_formed());
    assert_eq!(cut.get_string("a").unwrap(), "value");
    assert_eq!(cut.get_u64("b").unwrap(), 3);
}

#[test]
fn storing_a_key_again_replaces_its_value() {
    let mut metadata = Metadata::new();
    metadata.set_string("a", "short").unwrap();
    metadata.set_string("b", "kept").unwrap();
    metadata.set_string("a", "a much longer value").unwrap();
    assert_eq!(metadata.get_string("a").unwrap(), "a much longer value");
    assert_eq!(metadata.get_string("b").unwrap(), "kept");
    assert_eq!(metadata.walk().unwrap().len(), 2);
    assert!(metadata.remove_key("a"));
    assert!(!metadata.remove_key("a"));
    assert_eq!(
        metadata.get_string("a").unwrap_err().kind,
        ErrorKind::FileNotFound
    );
    assert_eq!(metadata.get_string("b").unwrap(), "kept");
}

#[test]
fn serialized_metadata_is_read_back() {
    let mut metadata = Metadata::new();
    assert!(metadata.serialize().unwrap().is_none());
    metadata.set_timestamp(99).unwrap();
    metadata.set_branch(Context::new([7; 16])).unwrap();
    let bytes = metadata.serialize().unwrap().unwrap();
    let read = Metadata::deserialize(&bytes).unwrap();
    assert_eq!(read.get_timestamp().unwrap(), 99);
    assert_eq!(read.get_branch().unwrap(), Context::new([7; 16]));
    assert!(read.is_well_formed());
    assert!(Metadata::deserialize(&[0; 8]).is_err());
}

#[test]
fn large_metadata_is_not_serialized() {
    let mut metadata = Metadata::new();
    metadata
        .set_binary("blob", &vec![0; 1024 * 1024])
        .unwrap();
    let error = metadata.serialize().unwrap_err();
    assert_eq!(error.kind, ErrorKind::Oversized);
    assert!(error.detail.starts_with("metadata size 10486"));
}

#[test]
fn typed_reads_tell_why_they_fail() {
    let mut metadata = Metadata::new();
    let address = Address {
        hash: ContentHash::new([4; 32]),
        context: Context::new([3; 16]),
    };
    metadata.set_address("address", address).unwrap();
    let read = metadata.get_address("address").unwrap();
    assert_eq!((read.hash, read.context), (address.hash, address.context));
    metadata.set_binary("odd", &[0xff, 0xfe, 0xfd]).unwrap();
    let mismatches = [
        metadata.get_string("odd").unwrap_err().detail,
        metadata.get_u64("odd").unwrap_err().detail,
        metadata.get_bool("odd").unwrap_err().detail,
        metadata.get_context("odd").unwrap_err().detail,
        metadata.get_hash("odd").unwrap_err().detail,
        metadata.get_address("odd").unwrap_err().detail,
    ];
    assert!(mismatches.iter().all(|text| text == "metadata type mismatch"));
    let missing = metadata.get_hash("none").unwrap_err();
    assert_eq!(missing.kind, ErrorKind::FileNotFound);
    assert_eq!(missing.detail, "metadata key");
}

#[test]
fn removing_the_last_key_keeps_the_header() {
    let mut metadata = Metadata::new();
    metadata.set_string("a", "value").unwrap();
    assert!(metadata.remove_key("a"));
    assert!(metadata.is_well_formed());
    metadata.set_u64("b", 5).unwrap();
    let bytes = metadata.serialize().unwrap().unwrap();
    assert_eq!(Metadata::deserialize(&bytes).unwrap().get_u64("b").unwrap(), 5);
}
