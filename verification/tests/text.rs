use lore_revision::change::FileAction;
use lore_revision::change::LoreFileAction;
use lore_revision::change::LoreNodeType;
use lore_revision::hexadecimal::hex_number;
use lore_revision::node::NodeKind;
use lore_revision::order::sort_by_text;
use lore_revision::path::emit_path_ignore;
use lore_revision::path::join;
use lore_revision::text::decimal;
use lore_revision::text::list_contains;
use lore_revision::text::split_lines;
use lore_revision::text::text_before;
use lore_revision::text::text_equal;
use lore_revision::text::text_from;
use lore_revision::text::text_has_part;
use lore_revision::types::count_one;
use lore_revision::types::flag;
use lore_revision::types::Address;
use lore_revision::types::ContentHash;
use lore_revision::types::Context;

#[test]
fn hashes_have_hexadecimal_text() {
    let mut data = [0u8; 32];
    data[0] = 0x1F;
    data[31] = 0xE0;
    let hash = ContentHash::new(data);
    let text = hash.to_text();
    assert_eq!(text.len(), 64);
    assert!(text.starts_with("1f00") && text.ends_with("00e0"));
    assert_eq!(ContentHash::from_text(&text), Some(hash));
    assert_eq!(ContentHash::from_text(&text.to_uppercase()), Some(hash));
    assert!(ContentHash::from_text("1f").is_none());
    assert!(ContentHash::from_text("zz").is_none());
    let context = Context::new([0xA5; 16]);
    assert_eq!(Context::from_text(&context.to_text()), Some(context));
    assert!(Context::from_text(&text).is_none());
}

#[test]
fn addresses_have_bytes() {
    let address = Address {
        hash: ContentHash::new([1; 32]),
        context: Context::new([2; 16]),
    };
    let bytes = address.to_bytes();
    assert_eq!(bytes.len(), 48);
    assert_eq!((bytes[31], bytes[32]), (1, 2));
    let read = Address::from_slice(&bytes);
    assert_eq!(read.hash, address.hash);
    assert_eq!(read.context, address.context);
}

#[test]
fn numbers_have_text() {
    assert_eq!(decimal(0), "0");
    assert_eq!(decimal(u64::MAX), "18446744073709551615");
    assert_eq!(hex_number(0), "0");
    assert_eq!(hex_number(0xBEEF), "beef");
    assert_eq!(count_one(4), 5);
    assert_eq!((flag(true), flag(false)), (1, 0));
}

#[test]
fn texts_are_searched() {
    assert!(text_equal("a", "a") && !text_equal("a", "b"));
    assert!(text_has_part("abc", "bc") && !text_has_part("abc", "cb"));
    assert!(text_has_part("abc", ""));
    assert_eq!(text_before("lore://host", "://"), "lore");
    assert_eq!(text_before("host", "://"), "host");
    assert_eq!(text_from("äb", 2), "b");
    assert!(list_contains(&vec!["a".to_string()], "a"));
    assert!(!list_contains(&vec![], "a"));
}

#[test]
fn lines_keep_their_ends() {
    assert_eq!(split_lines("a\nb"), vec!["a\n".to_string(), "b".to_string()]);
    assert_eq!(split_lines("a\n\n").len(), 2);
    assert!(split_lines("").is_empty());
    assert_eq!(split_lines("x\ny\nz\n").concat(), "x\ny\nz\n");
}

#[test]
fn paths_are_joined() {
    assert_eq!(join("a", "b/c"), "a/b/c");
    assert_eq!(join("", "b"), "b");
    assert_eq!(join("a", ""), "a");
    assert_eq!(join("a", "/b"), "a/b");
    assert_eq!(emit_path_ignore("x").path, "x");
}

#[test]
fn texts_sort_by_bytes_and_stay_in_order() {
    let keys: Vec<String> = ["b", "a", "ab", "a", "ä"]
        .iter()
        .map(|key| key.to_string())
        .collect();
    assert_eq!(sort_by_text(&keys), vec![1, 3, 2, 0, 4]);
}

#[test]
fn actions_and_kinds_are_reported() {
    assert_eq!(LoreFileAction::of(FileAction::Move), LoreFileAction::Move);
    assert_eq!(LoreNodeType::of(NodeKind::Link), LoreNodeType::Link);
}
