use lore_revision::change::ChangeFlags;
use lore_revision::change::ChangeSide;
use lore_revision::change::FileAction;
use lore_revision::change::LoreFileAction;
use lore_revision::change::NodeChange;
use lore_revision::errors::ErrorKind;
use lore_revision::errors::LoreError;
use lore_revision::file::diff::diff;
use lore_revision::file::diff::diff_read_file;
use lore_revision::file::diff::emit_binary_diff;
use lore_revision::file::diff::emit_diff3_conflicts;
use lore_revision::file::diff::emit_diff_event;
use lore_revision::file::diff::emit_unified_diffs;
use lore_revision::file::diff::format_patch_preserving_originals;
use lore_revision::file::diff::is_utf16_bom;
use lore_revision::file::diff::label_patch;
use lore_revision::file::diff::make_diff_content;
use lore_revision::file::diff::normalise_line;
use lore_revision::file::diff::patch_is_empty;
use lore_revision::file::diff::plan_diff3_conflict;
use lore_revision::file::diff::plan_unified_diff;
use lore_revision::file::diff::DiffContent;
use lore_revision::file::diff::DiffError;
use lore_revision::file::diff::DiffOptions;
use lore_revision::node::NodeKind;
use lore_revision::types::ContentHash;

fn is_diffable(bytes: &[u8]) -> bool {
    match std::str::from_utf8(bytes) {
        Ok(text) => !text.contains('\0'),
        Err(_) => false,
    }
}

fn display_text(bytes: &[u8]) -> String {
    if bytes.len() >= 2 && bytes[0] == 0xFF && bytes[1] == 0xFE {
        let units: Vec<u16> = bytes[2..]
            .chunks(2)
            .map(|pair| u16::from_le_bytes([pair[0], pair[1]]))
            .collect();
        return String::from_utf16_lossy(&units);
    }
    String::from_utf8_lossy(bytes).into_owned()
}

fn content(bytes: &[u8]) -> DiffContent {
    make_diff_content(bytes, is_diffable(bytes), &display_text(bytes))
}

#[test]
fn make_diff_content_empty_is_text() {
    let c = content(b"");
    assert!(!c.is_binary());
    assert_eq!(c.text(), "");
}

#[test]
fn make_diff_content_valid_utf8_is_text() {
    let c = content(b"hello\nworld\n");
    assert!(!c.is_binary());
    assert_eq!(c.text(), "hello\nworld\n");
}

#[test]
fn make_diff_content_utf16_le_bom_is_text() {
    let mut bytes = vec![0xFF, 0xFE];
    bytes.extend("Hi\n".encode_utf16().flat_map(u16::to_le_bytes));
    let c = content(&bytes);
    assert!(!c.is_binary(), "UTF-16 LE BOM must remain diffable as text");
    assert_eq!(c.text(), "Hi\n");
}

#[test]
fn make_diff_content_null_bytes_is_binary() {
    let c = content(&[0x00, 0x01, 0x02, 0xFF, 0xFE, 0x00]);
    assert!(c.is_binary());
}

#[test]
fn make_diff_content_invalid_utf8_is_binary() {
    let c = content(&[0xFF, 0xFF, 0xFF, 0xFF, 0xFF]);
    assert!(c.is_binary());
}

#[test]
fn diff_content_empty_constructor_is_text() {
    let c = DiffContent::empty();
    assert!(!c.is_binary());
    assert_eq!(c.text(), "");
}

#[test]
fn normalise_line_strips_trailing_whitespace() {
    assert_eq!(normalise_line("foo   \n", true, false), "foo\n");
    assert_eq!(normalise_line("foo\t\t\n", true, false), "foo\n");
    assert_eq!(normalise_line("foo", true, false), "foo");
    assert_eq!(normalise_line("foo   ", true, false), "foo");
}

#[test]
fn normalise_line_collapses_runs() {
    assert_eq!(normalise_line("a  b   c\n", false, true), "a b c\n");
    assert_eq!(normalise_line("a\t\tb\n", false, true), "a b\n");
    // Internal whitespace gone entirely is NOT invented back.
    assert_eq!(normalise_line("abc\n", false, true), "abc\n");
}

#[test]
fn normalise_line_both_flags() {
    assert_eq!(normalise_line("a  b   \n", true, true), "a b\n");
}

#[test]
fn normalise_line_crlf_trailing_treated_as_whitespace() {
    assert_eq!(normalise_line("foo   \r\n", true, false), "foo\n");
    assert_eq!(normalise_line("foo\r\n", true, false), "foo\n");
    // No-flag path keeps the `\r` intact.
    assert_eq!(normalise_line("foo\r\n", false, false), "foo\r\n");
}

#[test]
fn ignore_eol_trailing_space_no_diff() {
    let old = "foo\nbar\n";
    let new = "foo  \nbar\n";
    // With the flag on, no hunks should be produced.
    assert!(format_patch_preserving_originals(old, new, 3, true, false).is_none());
}

#[test]
fn ignore_eol_preserves_originals_in_real_change() {
    // Two lines: line 1 has trailing-whitespace-only diff, line 2 has a real diff.
    let old = "foo  \nbar\nbaz\n";
    let new = "foo  \nBAR\nbaz\n";
    let out = format_patch_preserving_originals(old, new, 3, true, false)
        .expect("real change should produce a hunk");
    // The unchanged "foo  " line must keep its trailing whitespace in the options.
    assert!(
        out.contains(" foo  \n"),
        "context line should show original whitespace:\n{out}"
    );
    assert!(out.contains("-bar\n"));
    assert!(out.contains("+BAR\n"));
}

#[test]
fn ignore_inline_collapses_runs_no_diff() {
    let old = "a b c\n";
    let new = "a  b   c\n";
    assert!(format_patch_preserving_originals(old, new, 3, false, true).is_none());
}

#[test]
fn ignore_inline_does_not_invent_whitespace() {
    // "abc" and "a bc" differ by whitespace where none existed; must still diff.
    let old = "abc\n";
    let new = "a bc\n";
    let out = format_patch_preserving_originals(old, new, 3, false, true)
        .expect("introducing whitespace must still register as a change");
    assert!(out.contains("-abc\n"));
    assert!(out.contains("+a bc\n"));
}

#[test]
fn both_flags_combined_suppress_all_whitespace_only_diffs() {
    let old = "foo\nbar  baz\n";
    let new = "foo   \nbar baz\n";
    assert!(format_patch_preserving_originals(old, new, 3, true, true).is_none());
}

#[test]
fn context_lines_respected_with_flags() {
    let old = "a\nb\nc\nx\ne\nf\ng\n";
    let new = "a\nb\nc\nX\ne\nf\ng\n";
    let out = format_patch_preserving_originals(old, new, 0, true, false)
        .expect("real change should produce a hunk");
    // context=0 means no surrounding lines in the hunk.
    assert!(out.contains("@@ -4 +4 @@\n"), "got:\n{out}");
    assert!(out.contains("-x\n"));
    assert!(out.contains("+X\n"));
    // No surrounding context lines.
    assert!(!out.contains(" c\n"));
    assert!(!out.contains(" e\n"));
}

#[test]
fn missing_newline_marker_when_input_lacks_terminator() {
    let old = "foo";
    let new = "bar";
    let out = format_patch_preserving_originals(old, new, 3, true, false)
        .expect("differing single-line files should diff");
    assert!(
        out.contains("\\ No newline at end of file\n"),
        "expected no-newline marker, got:\n{out}"
    );
}

fn options(eol: bool, inline: bool) -> DiffOptions {
    DiffOptions {
        context_lines: 3,
        ignore_whitespace_eol: eol,
        ignore_whitespace_inline: inline,
    }
}

fn change(path: &str, action: FileAction, from: NodeKind, to: NodeKind) -> NodeChange {
    NodeChange {
        path: path.to_string(),
        from_path: None,
        action,
        from: ChangeSide { tree: 0, node: 1, kind: from },
        to: ChangeSide { tree: 0, node: 1, kind: to },
        flags: ChangeFlags {
            stage: false,
            dirty: false,
            merge: false,
            conflict: false,
            conflict_unresolved: false,
            conflict_automerged: false,
            conflict_mine: false,
            conflict_theirs: false,
        },
    }
}

#[test]
fn plain_patch_is_labelled() {
    let event = emit_diff_event(
        "foo\nbar\n",
        "foo\nbaz\n",
        "a.txt@1",
        "a.txt@2",
        "a.txt",
        LoreFileAction::Keep,
        options(false, false),
    )
    .expect("the texts differ");
    assert_eq!(event.path, "a.txt");
    assert_eq!(event.action, LoreFileAction::Keep);
    assert_eq!(
        event.patch,
        "--- a.txt@1\n+++ a.txt@2\n@@ -1,2 +1,2 @@\n foo\n-bar\n+baz\n"
    );
}

#[test]
fn whitespace_patch_is_labelled() {
    let event = emit_diff_event(
        "foo  \nbar\n",
        "foo\nbaz\n",
        "a.txt@1",
        "a.txt@2",
        "a.txt",
        LoreFileAction::Keep,
        options(true, false),
    )
    .expect("the texts differ");
    assert_eq!(
        event.patch,
        "--- a.txt@1\n+++ a.txt@2\n@@ -1,2 +1,2 @@\n foo  \n-bar\n+baz\n"
    );
}

#[test]
fn equal_texts_have_no_patch() {
    for (eol, inline) in [(false, false), (true, false), (false, true), (true, true)] {
        assert!(emit_diff_event(
            "same\n",
            "same\n",
            "a@1",
            "a@2",
            "a",
            LoreFileAction::Keep,
            options(eol, inline),
        )
        .is_none());
    }
}

#[test]
fn labels_replace_the_default_ones() {
    let text = label_patch("--- original\n+++ modified\n@@ -1 +1 @@\n-a\n+b\n", "x", "y");
    assert_eq!(text, "--- x\n+++ y\n@@ -1 +1 @@\n-a\n+b\n");
    assert!(patch_is_empty("--- original\n+++ modified\n"));
    assert!(!patch_is_empty(&text));
    assert!(!patch_is_empty("--- original\n+++ modified\n@@ -0,0 +1 @@\n+++ modified\n"));
}

#[test]
fn labels_leave_lines_alone() {
    for (eol, inline) in [(true, false), (false, false)] {
        let event = emit_diff_event(
            "-- original\n",
            "x\n",
            "f@1",
            "f@2",
            "f",
            LoreFileAction::Keep,
            options(eol, inline),
        )
        .expect("the texts differ");
        assert_eq!(event.patch, "--- f@1\n+++ f@2\n@@ -1 +1 @@\n--- original\n+x\n");
    }
    let event = emit_diff_event(
        "a\n",
        "a\n++ modified\n",
        "f@1",
        "f@2",
        "f",
        LoreFileAction::Keep,
        options(false, false),
    )
    .expect("a line was inserted");
    assert!(event.patch.ends_with("\n+++ modified\n"));
}

#[test]
fn binary_content_is_named_not_shown() {
    let event = emit_binary_diff("image.png", LoreFileAction::Keep);
    assert_eq!(event.path, "image.png");
    assert_eq!(event.patch, "Binary files differ\n");
}

#[test]
fn byte_order_marks_are_told_apart() {
    assert!(is_utf16_bom(&[0xFF, 0xFE]));
    assert!(is_utf16_bom(&[0xFE, 0xFF, 0x00]));
    assert!(!is_utf16_bom(&[0xFF]));
    assert!(!is_utf16_bom(&[0xEF, 0xBB, 0xBF]));
}

#[test]
fn added_file_diffs_against_nothing() {
    let added = change("new.txt", FileAction::Add, NodeKind::Directory, NodeKind::File);
    let plan = plan_unified_diff(&added, 4, Some(5), true, &vec![]).expect("a file is diffed");
    assert!(!plan.read_source);
    assert!(plan.read_target);
    let event = emit_unified_diffs(
        &added,
        &plan,
        &DiffContent::empty(),
        &content(b"line\n"),
        options(false, false),
    )
    .expect("the file was added");
    assert_eq!(event.action, LoreFileAction::Add);
    assert!(event.patch.ends_with("@@ -0,0 +1 @@\n+line\n"));
    assert!(event.patch.starts_with("--- /dev/null\n"));
}

#[test]
fn binary_side_makes_a_binary_diff() {
    let kept = change("data.bin", FileAction::Keep, NodeKind::File, NodeKind::File);
    let plan = plan_unified_diff(&kept, 4, Some(5), true, &vec![]).expect("a file is diffed");
    assert!(plan.read_source && plan.read_target);
    let event = emit_unified_diffs(
        &kept,
        &plan,
        &content(b"text\n"),
        &content(&[0, 1, 2]),
        options(false, false),
    )
    .expect("the sides differ");
    assert_eq!(event.patch, emit_binary_diff("data.bin", LoreFileAction::Keep).patch);
}

#[test]
fn conflicting_changes_are_merged_with_markers() {
    let theirs = change("a.txt", FileAction::Keep, NodeKind::File, NodeKind::File);
    let mine = change("a.txt", FileAction::Keep, NodeKind::File, NodeKind::File);
    let plan = plan_diff3_conflict(&theirs, &mine, 1, 2, Some(3), &vec![])
        .expect("both sides changed the file");
    assert!(plan.read_base && plan.read_source && plan.read_target);
    let merged = "<<<<<<< ours\nmine\n=======\ntheirs\n>>>>>>> theirs\n";
    let event = emit_diff3_conflicts(
        "a.txt",
        &plan,
        &content(b"mine\n"),
        Err(merged),
        options(false, false),
    )
    .expect("the merge has conflicts");
    assert_eq!(event.path, "a.txt");
    assert!(event.patch.contains("=======\n"));
}

#[test]
fn diffed_revision_is_the_named_one_or_the_default() {
    let named = ContentHash::new([1; 32]);
    let default = ContentHash::new([2; 32]);
    assert_eq!(diff(None, None, default).unwrap(), default);
    assert_eq!(diff(Some("r"), Some(named), default).unwrap(), named);
    let error = diff(Some("missing"), None, default).unwrap_err();
    assert_eq!(error.kind, ErrorKind::RevisionNotFound);
}

#[test]
fn only_files_are_diffed() {
    let error = diff_read_file("gone.txt", None).unwrap_err();
    assert_eq!(error.kind, ErrorKind::FileNotFound);
    assert_eq!(error.inner(), "gone.txt");
}

#[test]
fn diff_errors_have_codes() {
    let error = |kind| DiffError {
        kind,
        detail: String::new(),
    };
    assert_eq!(
        error(ErrorKind::InvalidArguments).translated(),
        LoreError::InvalidArguments
    );
    assert_eq!(
        error(ErrorKind::Oversized).translated(),
        LoreError::Internal
    );
}
