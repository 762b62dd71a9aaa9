//! Textual differences of files between revisions and the working tree.

use vstd::prelude::*;
use vstd::slice::*;
use vstd::string::*;

use crate::change::LoreFileAction;
use crate::change::NodeChange;
use crate::errors::ErrorKind;
use crate::errors::LoreError;
use crate::node::Node;
use crate::node::NodeKind;
use crate::text::chars_of;
use crate::text::concat;
use crate::text::decimal;
use crate::text::decimal_digits;
use crate::text::decimal_value;
use crate::text::is_decimal;
use crate::text::is_unterminated;
use crate::text::law_a_line_is_one_line;
use crate::text::law_concat_adds_up;
use crate::text::law_line_count;
use crate::text::law_lines_are_lines;
use crate::text::law_lines_follow_each_other;
use crate::text::law_lines_make_the_text;
use crate::text::lemma_decimal_digits;
use crate::text::lemma_newlines_concat;
use crate::text::lines_from;
use crate::text::lines_of;
use crate::text::list_contains;
use crate::text::newlines;
use crate::text::split_lines;
use crate::text::text_equal;
use crate::text::text_of;
use crate::text::views;
use crate::types::BranchId;
use crate::types::ContentHash;

verus! {

/// Default number of unchanged context lines around each unified-diff hunk.
pub const DEFAULT_CONTEXT_LINES: u32 = 3;

/// Failure of a diff.
#[derive(Debug)]
pub struct DiffError {
    pub kind: ErrorKind,
    pub detail: String,
}

impl DiffError {
    /// The code reported for each category.
    pub open spec fn spec_translated(kind: ErrorKind) -> LoreError {
        match kind {
            ErrorKind::InvalidArguments | ErrorKind::InvalidPath => LoreError::InvalidArguments,
            ErrorKind::RevisionNotFound | ErrorKind::NotFound => LoreError::NotFound,
            ErrorKind::FileNotFound => LoreError::FileNotFound,
            _ => LoreError::Internal,
        }
    }

    /// The code reported to callers of the engine.
    pub fn translated(&self) -> (code: LoreError)
        ensures
            code == DiffError::spec_translated(self.kind),
    {
        match self.kind {
            ErrorKind::InvalidArguments | ErrorKind::InvalidPath => LoreError::InvalidArguments,
            ErrorKind::RevisionNotFound | ErrorKind::NotFound => LoreError::NotFound,
            ErrorKind::FileNotFound => LoreError::FileNotFound,
            _ => LoreError::Internal,
        }
    }

    /// The text of the failure.
    pub fn inner(&self) -> (text: String)
        ensures
            text@ == self.detail@,
    {
        self.detail.clone()
    }
}

/// Data for the event carrying the diff of a single file.
#[derive(Debug)]
pub struct LoreFileDiffEventData {
    /// Path of the file.
    pub path: String,
    /// Unified-diff text describing the change.
    pub patch: String,
    /// Action applied to the file.
    pub action: LoreFileAction,
}

/// Display options threaded through the file-diff pipeline.
#[derive(Clone, Copy, Debug, PartialEq, Eq, Structural)]
pub struct DiffOptions {
    /// Number of unchanged context lines around each unified-diff hunk.
    pub context_lines: u32,
    /// Treat lines that differ only in trailing whitespace as unchanged.
    pub ignore_whitespace_eol: bool,
    /// Collapse runs of internal whitespace to a single space before comparing.
    pub ignore_whitespace_inline: bool,
}

// ---------------------------------------------------------------------------
// Whitespace
// ---------------------------------------------------------------------------

/// Space, tab or carriage return.
pub open spec fn is_blank(c: char) -> bool {
    c == ' ' || c == '\t' || c == '\r'
}

/// A text with every run of blanks made one space.
pub open spec fn collapsed(text: Seq<char>) -> Seq<char>
    decreases text.len(),
{
    if text.len() == 0 {
        Seq::empty()
    } else {
        let before = collapsed(text.drop_last());
        if !is_blank(text.last()) {
            before.push(text.last())
        } else if text.len() >= 2 && is_blank(text[text.len() - 2]) {
            before
        } else {
            before.push(' ')
        }
    }
}

/// A text without its trailing blanks.
pub open spec fn trimmed(text: Seq<char>) -> Seq<char>
    decreases text.len(),
{
    if text.len() > 0 && is_blank(text.last()) {
        trimmed(text.drop_last())
    } else {
        text
    }
}

/// A line without its newline.
pub open spec fn line_content(line: Seq<char>) -> Seq<char> {
    if line.len() > 0 && line.last() == '\n' {
        line.drop_last()
    } else {
        line
    }
}

/// A line as it is compared under the whitespace rules. Its newline stays.
pub open spec fn normalised(line: Seq<char>, ignore_eol: bool, ignore_inline: bool) -> Seq<char> {
    let inline = if ignore_inline {
        collapsed(line_content(line))
    } else {
        line_content(line)
    };
    let content = if ignore_eol {
        trimmed(inline)
    } else {
        inline
    };
    if line.len() > 0 && line.last() == '\n' {
        content.push('\n')
    } else {
        content
    }
}

/// A text as it is compared under the whitespace rules.
pub open spec fn normalised_text(text: Seq<char>, ignore_eol: bool, ignore_inline: bool) -> Seq<
    char,
> {
    concat(lines_of(text).map_values(|line: Seq<char>| normalised(line, ignore_eol, ignore_inline)))
}

/// Collapses runs of ASCII space/tab/CR to a single space. Does not invent
/// whitespace where there was none.
pub fn collapse_inline_whitespace(s: &str) -> (out: String)
    ensures
        out@ == collapsed(s@),
{
    let chars = chars_of(s);
    let mut out = String::new();
    let mut in_ws = false;
    let mut i: usize = 0;
    while i < chars.len()
        invariant
            i <= chars@.len(),
            chars@ == s@,
            out@ == collapsed(chars@.take(i as int)),
            in_ws == (i > 0 && is_blank(chars@[i - 1])),
        decreases chars@.len() - i,
    {
        let c = chars[i];
        proof {
            let text = chars@.take(i + 1);
            assert(text.drop_last() =~= chars@.take(i as int));
            assert(text.last() == c);
            if i > 0 {
                assert(text[text.len() - 2] == chars@[i - 1]);
            }
        }
        if c == ' ' || c == '\t' || c == '\r' {
            if !in_ws {
                out.push(' ');
                in_ws = true;
            }
        } else {
            out.push(c);
            in_ws = false;
        }
        i = i + 1;
    }
    assert(chars@.take(i as int) =~= s@);
    out
}

/// Per-line normalisation. Keeps the trailing `\n` (if present). `\r` is treated
/// as whitespace so the rules apply uniformly to LF and CRLF inputs.
pub fn normalise_line(line: &str, ignore_eol: bool, ignore_inline: bool) -> (work: String)
    ensures
        work@ == normalised(line@, ignore_eol, ignore_inline),
{
    let chars = chars_of(line);
    let terminated = chars.len() > 0 && chars[chars.len() - 1] == '\n';
    let end: usize = if terminated {
        chars.len() - 1
    } else {
        chars.len()
    };
    let content = text_of(vstd::slice::slice_subrange(chars.as_slice(), 0, end));
    assert(content@ =~= line_content(line@));
    let inline = if ignore_inline {
        collapse_inline_whitespace(content.as_str())
    } else {
        content
    };
    let mut work = inline;
    if ignore_eol {
        let kept = chars_of(work.as_str());
        let mut len: usize = kept.len();
        let ghost full = work@;
        assert(kept@.take(len as int) =~= full);
        while len > 0 && (kept[len - 1] == ' ' || kept[len - 1] == '\t' || kept[len - 1] == '\r')
            invariant
                len <= kept@.len(),
                trimmed(kept@.take(len as int)) == trimmed(full),
            decreases len,
        {
            assert(kept@.take(len as int).drop_last() =~= kept@.take(len - 1));
            len = len - 1;
        }
        work = text_of(vstd::slice::slice_subrange(kept.as_slice(), 0, len));
        assert(work@ =~= kept@.take(len as int));
    }
    if terminated {
        work.push('\n');
    }
    work
}

/// The text of lines under the whitespace rules.
fn normalise_lines(lines: &Vec<String>, ignore_eol: bool, ignore_inline: bool) -> (text: String)
    ensures
        text@ == concat(
            views(lines@).map_values(
                |line: Seq<char>| normalised(line, ignore_eol, ignore_inline),
            ),
        ),
{
    let ghost norm = |line: Seq<char>| normalised(line, ignore_eol, ignore_inline);
    let ghost all = views(lines@).map_values(norm);
    let mut text = String::new();
    let mut i: usize = 0;
    while i < lines.len()
        invariant
            i <= lines@.len(),
            norm == (|line: Seq<char>| normalised(line, ignore_eol, ignore_inline)),
            all == views(lines@).map_values(norm),
            text@ == concat(all.take(i as int)),
        decreases lines@.len() - i,
    {
        let line = normalise_line(lines[i].as_str(), ignore_eol, ignore_inline);
        text.append(line.as_str());
        proof {
            assert(all.take(i + 1).drop_last() =~= all.take(i as int));
            assert(all.take(i + 1).last() == line@);
        }
        i = i + 1;
    }
    assert(all.take(i as int) =~= all);
    text
}

// ---------------------------------------------------------------------------
// Hunks
// ---------------------------------------------------------------------------

/// Which side a line of a hunk belongs to.
#[derive(Clone, Copy, Debug, PartialEq, Eq, Structural)]
pub enum PatchLine {
    /// Both sides.
    Context,
    /// The old side.
    Delete,
    /// The new side.
    Insert,
}

/// A group of changed lines with their context. Line numbers start at one.
#[derive(Debug)]
pub struct PatchHunk {
    pub old_start: usize,
    pub old_len: usize,
    pub new_start: usize,
    pub new_len: usize,
    pub lines: Vec<PatchLine>,
}

/// The mathematical form of a [`PatchHunk`].
#[verifier::ext_equal]
pub struct HunkView {
    pub old_start: nat,
    pub old_len: nat,
    pub new_start: nat,
    pub new_len: nat,
    pub lines: Seq<PatchLine>,
}

impl View for PatchHunk {
    type V = HunkView;

    open spec fn view(&self) -> HunkView {
        HunkView {
            old_start: self.old_start as nat,
            old_len: self.old_len as nat,
            new_start: self.new_start as nat,
            new_len: self.new_len as nat,
            lines: self.lines@,
        }
    }
}

/// The mathematical form of a list of hunks.
pub open spec fn hunk_views(hunks: Seq<PatchHunk>) -> Seq<HunkView> {
    Seq::new(hunks.len(), |i: int| hunks[i]@)
}

/// Number of lines of a hunk that belong to the old side.
pub open spec fn old_lines_in(lines: Seq<PatchLine>) -> nat
    decreases lines.len(),
{
    if lines.len() == 0 {
        0
    } else {
        old_lines_in(lines.drop_last()) + if lines.last() == PatchLine::Insert {
            0nat
        } else {
            1nat
        }
    }
}

/// Number of lines of a hunk that belong to the new side.
pub open spec fn new_lines_in(lines: Seq<PatchLine>) -> nat
    decreases lines.len(),
{
    if lines.len() == 0 {
        0
    } else {
        new_lines_in(lines.drop_last()) + if lines.last() == PatchLine::Delete {
            0nat
        } else {
            1nat
        }
    }
}

/// The lengths of a hunk are those of its lines, and its ranges end within the
/// numbers of lines of the two sides.
pub open spec fn is_sound_hunk(hunk: HunkView, old_count: nat, new_count: nat) -> bool {
    &&& hunk.old_len == old_lines_in(hunk.lines)
    &&& hunk.new_len == new_lines_in(hunk.lines)
    &&& hunk.old_start + hunk.old_len <= old_count + 1
    &&& hunk.new_start + hunk.new_len <= new_count + 1
}

/// The hunks that the `diffy` crate finds between two texts, with a number of
/// context lines.
pub uninterp spec fn diffy_hunks(old: Seq<char>, new: Seq<char>, context: nat) -> Seq<HunkView>;

/// `diffy::DiffOptions::create_patch` finds the hunks between two texts: none
/// exactly when the texts are equal. Each hunk counts its own lines, and its
/// ranges lie within the lines of the texts.
#[verifier::external_body]
fn find_hunks(old: &str, new: &str, context: u32) -> (hunks: Vec<PatchHunk>)
    ensures
        hunk_views(hunks@) == diffy_hunks(old@, new@, context as nat),
        hunks@.len() == 0 <==> old@ == new@,
        forall|i: int|
            0 <= i < hunks@.len() ==> is_sound_hunk(
                #[trigger] hunks@[i]@,
                lines_of(old@).len(),
                lines_of(new@).len(),
            ),
{
    diffy::DiffOptions::new().set_context_len(context as usize).create_patch(old, new).hunks().iter().map(|h| PatchHunk {
        old_start: h.old_range().start(),
        old_len: h.old_range().len(),
        new_start: h.new_range().start(),
        new_len: h.new_range().len(),
        lines: h.lines().iter().map(|line| match line {
            diffy::Line::Context(_) => PatchLine::Context,
            diffy::Line::Delete(_) => PatchLine::Delete,
            diffy::Line::Insert(_) => PatchLine::Insert,
        }).collect(),
    }).collect()
}

/// The unified diff text that the `diffy` crate writes for two texts, with a
/// number of context lines and a sentinel on every line.
pub uninterp spec fn diffy_text(old: Seq<char>, new: Seq<char>, context: nat) -> Seq<char>;

/// The header of a patch, with placeholders for the names of the two sides.
pub open spec fn patch_header() -> Seq<char> {
    "--- original\n"@ + "+++ modified\n"@
}

/// Number of characters in the header of a patch.
const PATCH_HEADER_SIZE: usize = 26;

proof fn lemma_patch_header()
    ensures
        patch_header().len() == PATCH_HEADER_SIZE,
        patch_header() == "--- original\n+++ modified\n"@,
{
    reveal_strlit("--- original\n");
    reveal_strlit("+++ modified\n");
    reveal_strlit("--- original\n+++ modified\n");
    assert(patch_header() =~= "--- original\n+++ modified\n"@);
}

/// `diffy::PatchFormatter::fmt_patch` writes the patch that
/// `diffy::DiffOptions::create_patch` finds between two texts: a header with
/// placeholders for the names, and nothing else exactly when the texts are equal.
#[verifier::external_body]
fn write_patch(old: &str, new: &str, context: u32) -> (text: String)
    ensures
        text@ == diffy_text(old@, new@, context as nat),
        patch_header().is_prefix_of(text@),
        text@ == patch_header() <==> old@ == new@,
{
    let mut options = diffy::DiffOptions::new();
    let patch = options.set_context_len(context as usize).create_patch(old, new);
    let text = diffy::PatchFormatter::new().suppress_blank_empty(false).fmt_patch(&patch).to_string();
    text
}

/// The text of a line range: its start, and its length unless that is one.
pub open spec fn range_text(start: nat, len: nat) -> Seq<char> {
    if len == 1 {
        decimal_digits(start)
    } else {
        decimal_digits(start).push(',') + decimal_digits(len)
    }
}

fn write_range(start: usize, len: usize) -> (text: String)
    ensures
        text@ == range_text(start as nat, len as nat),
{
    let mut text = decimal(start as u64);
    if len != 1 {
        text.push(',');
        text.append(decimal(len as u64).as_str());
    }
    text
}

/// The header of a hunk.
pub open spec fn hunk_header(hunk: HunkView) -> Seq<char> {
    "@@ -"@ + range_text(hunk.old_start, hunk.old_len) + " +"@ + range_text(
        hunk.new_start,
        hunk.new_len,
    ) + " @@\n"@
}

/// A line of a patch: its sign, the line, and a marker where the line has no
/// newline.
pub open spec fn patch_line(sign: char, line: Seq<char>) -> Seq<char> {
    let text = seq![sign] + line;
    if line.len() > 0 && line.last() == '\n' {
        text
    } else {
        text.push('\n') + "\\ No newline at end of file\n"@
    }
}

/// The line with a number; a number past the end stands for no text.
pub open spec fn numbered_line(lines: Seq<Seq<char>>, number: nat) -> Seq<char> {
    let at: int = if number > 0 {
        number - 1
    } else {
        0
    };
    if at < lines.len() {
        lines[at]
    } else {
        Seq::empty()
    }
}

/// The line of a hunk at a position, as it stands in the patch: context and
/// deleted lines are taken from the old side, inserted ones from the new side.
pub open spec fn hunk_line(
    hunk: HunkView,
    old: Seq<Seq<char>>,
    new: Seq<Seq<char>>,
    at: int,
) -> Seq<char> {
    let before = hunk.lines.take(at);
    match hunk.lines[at] {
        PatchLine::Context => patch_line(
            ' ',
            numbered_line(old, hunk.old_start + old_lines_in(before)),
        ),
        PatchLine::Delete => patch_line(
            '-',
            numbered_line(old, hunk.old_start + old_lines_in(before)),
        ),
        PatchLine::Insert => patch_line(
            '+',
            numbered_line(new, hunk.new_start + new_lines_in(before)),
        ),
    }
}

/// The first lines of a hunk, as they stand in the patch.
pub open spec fn hunk_body(
    hunk: HunkView,
    old: Seq<Seq<char>>,
    new: Seq<Seq<char>>,
    count: nat,
) -> Seq<char>
    decreases count,
{
    if count == 0 {
        Seq::empty()
    } else {
        hunk_body(hunk, old, new, (count - 1) as nat) + hunk_line(hunk, old, new, count - 1)
    }
}

/// The text of the first hunks of a patch.
pub open spec fn hunks_text(
    hunks: Seq<HunkView>,
    old: Seq<Seq<char>>,
    new: Seq<Seq<char>>,
    count: nat,
) -> Seq<char>
    decreases count,
{
    if count == 0 {
        Seq::empty()
    } else {
        let hunk = hunks[count - 1];
        hunks_text(hunks, old, new, (count - 1) as nat) + hunk_header(hunk) + hunk_body(
            hunk,
            old,
            new,
            hunk.lines.len(),
        )
    }
}

/// The text of a patch, with placeholders for the names of the two sides.
pub open spec fn patch_text(hunks: Seq<HunkView>, old: Seq<Seq<char>>, new: Seq<Seq<char>>) -> Seq<
    char,
> {
    patch_header() + hunks_text(hunks, old, new, hunks.len())
}

/// Writes one unified-diff line. Every hunk-body line begins with its sentinel,
/// also a blank one. Lines without a trailing `\n` get a marker.
pub fn write_patch_line(out: &mut String, sign: char, line: &str)
    ensures
        final(out)@ == old(out)@ + patch_line(sign, line@),
{
    let chars = chars_of(line);
    let terminated = chars.len() > 0 && chars[chars.len() - 1] == '\n';
    out.push(sign);
    out.append(line);
    if !terminated {
        out.push('\n');
        out.append("\\ No newline at end of file\n");
    }
    assert(out@ =~= old(out)@ + patch_line(sign, line@));
}

fn line_numbered(lines: &Vec<String>, number: usize) -> (line: &str)
    ensures
        line@ == numbered_line(views(lines@), number as nat),
{
    let at: usize = if number > 0 {
        number - 1
    } else {
        0
    };
    if at < lines.len() {
        lines[at].as_str()
    } else {
        proof {
            reveal_strlit("");
        }
        assert(""@ =~= Seq::empty());
        ""
    }
}

proof fn lemma_side_counts(lines: Seq<PatchLine>, at: int)
    requires
        0 <= at < lines.len(),
    ensures
        old_lines_in(lines.take(at + 1)) == old_lines_in(lines.take(at)) + if lines[at]
            == PatchLine::Insert {
            0nat
        } else {
            1nat
        },
        new_lines_in(lines.take(at + 1)) == new_lines_in(lines.take(at)) + if lines[at]
            == PatchLine::Delete {
            0nat
        } else {
            1nat
        },
        old_lines_in(lines.take(at + 1)) <= old_lines_in(lines),
        new_lines_in(lines.take(at + 1)) <= new_lines_in(lines),
    decreases lines.len() - at,
{
    assert(lines.take(at + 1).drop_last() =~= lines.take(at));
    assert(lines.take(at + 1).last() == lines[at]);
    if at + 1 < lines.len() {
        lemma_side_counts(lines, at + 1);
    } else {
        assert(lines.take(at + 1) =~= lines);
    }
}

/// Writes the lines of a hunk.
fn write_hunk(
    out: &mut String,
    hunk: &PatchHunk,
    old_lines: &Vec<String>,
    new_lines: &Vec<String>,
)
    requires
        is_sound_hunk(hunk@, old_lines@.len(), new_lines@.len()),
    ensures
        final(out)@ == old(out)@ + hunk_header(hunk@) + hunk_body(
            hunk@,
            views(old_lines@),
            views(new_lines@),
            hunk@.lines.len(),
        ),
{
    out.append("@@ -");
    out.append(write_range(hunk.old_start, hunk.old_len).as_str());
    out.append(" +");
    out.append(write_range(hunk.new_start, hunk.new_len).as_str());
    out.append(" @@\n");
    let ghost start = old(out)@ + hunk_header(hunk@);
    assert(out@ =~= start);
    let mut old_used: usize = 0;
    let mut new_used: usize = 0;
    let mut i: usize = 0;
    assert(start + Seq::<char>::empty() =~= start);
    while i < hunk.lines.len()
        invariant
            i <= hunk.lines@.len(),
            is_sound_hunk(hunk@, old_lines@.len(), new_lines@.len()),
            old_lines.len() == old_lines@.len(),
            new_lines.len() == new_lines@.len(),
            old_used == old_lines_in(hunk.lines@.take(i as int)),
            new_used == new_lines_in(hunk.lines@.take(i as int)),
            out@ == start + hunk_body(hunk@, views(old_lines@), views(new_lines@), i as nat),
        decreases hunk.lines@.len() - i,
    {
        proof {
            lemma_side_counts(hunk.lines@, i as int);
        }
        let ghost before = out@;
        match hunk.lines[i] {
            PatchLine::Context => {
                write_patch_line(out, ' ', line_numbered(old_lines, hunk.old_start + old_used));
                old_used = old_used + 1;
                new_used = new_used + 1;
            },
            PatchLine::Delete => {
                write_patch_line(out, '-', line_numbered(old_lines, hunk.old_start + old_used));
                old_used = old_used + 1;
            },
            PatchLine::Insert => {
                write_patch_line(out, '+', line_numbered(new_lines, hunk.new_start + new_used));
                new_used = new_used + 1;
            },
        }
        assert(out@ =~= start + hunk_body(
            hunk@,
            views(old_lines@),
            views(new_lines@),
            (i + 1) as nat,
        ));
        i = i + 1;
    }
}

/// Writes a patch from hunks found on compared texts, with the lines of the
/// original texts. There is no patch without hunks.
pub fn format_hunks(
    hunks: &Vec<PatchHunk>,
    old_lines: &Vec<String>,
    new_lines: &Vec<String>,
) -> (patch: Option<String>)
    requires
        forall|i: int|
            0 <= i < hunks@.len() ==> is_sound_hunk(
                #[trigger] hunks@[i]@,
                old_lines@.len(),
                new_lines@.len(),
            ),
    ensures
        patch is None <==> hunks@.len() == 0,
        patch matches Some(text) ==> text@ == patch_text(
            hunk_views(hunks@),
            views(old_lines@),
            views(new_lines@),
        ),
{
    if hunks.len() == 0 {
        return None;
    }
    let mut out = String::new();
    out.append("--- original\n");
    out.append("+++ modified\n");
    let ghost header = patch_header();
    assert(out@ =~= header);
    assert(header + Seq::<char>::empty() =~= header);
    let mut i: usize = 0;
    while i < hunks.len()
        invariant
            i <= hunks@.len(),
            forall|j: int|
                0 <= j < hunks@.len() ==> is_sound_hunk(
                    #[trigger] hunks@[j]@,
                    old_lines@.len(),
                    new_lines@.len(),
                ),
            out@ == header + hunks_text(
                hunk_views(hunks@),
                views(old_lines@),
                views(new_lines@),
                i as nat,
            ),
        decreases hunks@.len() - i,
    {
        write_hunk(&mut out, &hunks[i], old_lines, new_lines);
        assert(hunk_views(hunks@)[i as int] == hunks@[i as int]@);
        assert(out@ =~= header + hunks_text(
            hunk_views(hunks@),
            views(old_lines@),
            views(new_lines@),
            (i + 1) as nat,
        ));
        i = i + 1;
    }
    Some(out)
}

// ---------------------------------------------------------------------------
// What a patch says
// ---------------------------------------------------------------------------

/// Lines with a newline at most at their end.
pub open spec fn are_lines(lines: Seq<Seq<char>>) -> bool {
    forall|i: int|
        0 <= i < lines.len() ==> (#[trigger] lines[i]).len() > 0 && newlines(lines[i].drop_last())
            == 0
}

/// What the lines of a patch say, as a reader takes them: each begins with a sign,
/// and a marker behind a line takes the newline from it.
pub open spec fn read_lines(lines: Seq<Seq<char>>) -> Seq<(char, Seq<char>)>
    decreases lines.len(),
{
    if lines.len() == 0 {
        Seq::empty()
    } else if lines.len() >= 2 && lines.last() == "\\ No newline at end of file\n"@ {
        let line = lines[lines.len() - 2];
        read_lines(lines.take(lines.len() - 2)).push(
            (line[0], line.subrange(1, line.len() - 1)),
        )
    } else {
        read_lines(lines.drop_last()).push((lines.last()[0], lines.last().skip(1)))
    }
}

/// The lines of the old side among those read: all but the inserted ones.
pub open spec fn old_side(read: Seq<(char, Seq<char>)>) -> Seq<Seq<char>>
    decreases read.len(),
{
    if read.len() == 0 {
        Seq::empty()
    } else if read.last().0 == '+' {
        old_side(read.drop_last())
    } else {
        old_side(read.drop_last()).push(read.last().1)
    }
}

/// Number of lines that begin a hunk.
pub open spec fn hunks_among(lines: Seq<Seq<char>>) -> nat
    decreases lines.len(),
{
    if lines.len() == 0 {
        0
    } else {
        hunks_among(lines.drop_last()) + if lines.last().len() > 0 && lines.last()[0] == '@' {
            1nat
        } else {
            0nat
        }
    }
}

proof fn lemma_hunks_among(a: Seq<Seq<char>>, b: Seq<Seq<char>>)
    ensures
        hunks_among(a + b) == hunks_among(a) + hunks_among(b),
    decreases b.len(),
{
    if b.len() == 0 {
        assert(a + b =~= a);
    } else {
        assert((a + b).drop_last() =~= a + b.drop_last());
        lemma_hunks_among(a, b.drop_last());
    }
}

proof fn lemma_patch_line(sign: char, line: Seq<char>, before: Seq<char>)
    requires
        sign == ' ' || sign == '-' || sign == '+',
        line.len() > 0 ==> newlines(line.drop_last()) == 0,
        before.len() > 0 ==> before.last() == '\n',
    ensures
        patch_line(sign, line).last() == '\n',
        read_lines(lines_of(before + patch_line(sign, line))) == read_lines(lines_of(before)).push(
            (sign, line),
        ),
        hunks_among(lines_of(before + patch_line(sign, line))) == hunks_among(lines_of(before)),
{
    reveal_strlit("\\ No newline at end of file\n");
    let marker = "\\ No newline at end of file\n"@;
    let first = seq![sign];
    assert(newlines(first) == 0) by {
        assert(first.drop_last() =~= Seq::empty());
        assert(newlines(first.drop_last()) == 0);
    }
    let text = patch_line(sign, line);
    let front = lines_of(before);
    law_lines_follow_each_other(before, text);
    if line.len() > 0 && line.last() == '\n' {
        lemma_newlines_concat(first, line.drop_last());
        assert(text.drop_last() =~= first + line.drop_last());
        law_a_line_is_one_line(text);
        let all = front + seq![text];
        assert(lines_of(before + text) == all);
        assert(all.drop_last() =~= front);
        assert(text.skip(1) =~= line);
        assert(text[0] != marker[0]);
        lemma_hunks_among(front, seq![text]);
        reveal_with_fuel(hunks_among, 2);
    } else {
        let written = (first + line).push('\n');
        lemma_newlines_concat(first, line);
        assert(newlines(line) == 0) by {
            if line.len() > 0 {
                assert(newlines(line.drop_last()) == 0);
            }
        }
        assert(written.drop_last() =~= first + line);
        law_a_line_is_one_line(written);
        assert(newlines(marker.drop_last()) == 0) by {
            lemma_marker();
        }
        law_a_line_is_one_line(marker);
        law_lines_follow_each_other(written, marker);
        let both = seq![written] + seq![marker];
        let all = front + both;
        assert(lines_of(before + text) == all);
        assert(all.take(all.len() - 2) =~= front);
        assert(all[all.len() - 2] == written);
        assert(written.subrange(1, written.len() - 1) =~= line);
        lemma_hunks_among(front, both);
        lemma_hunks_among(seq![written], seq![marker]);
        reveal_with_fuel(hunks_among, 2);
    }
}

proof fn lemma_marker()
    ensures
        newlines("\\ No newline at end of file\n"@.drop_last()) == 0,
{
    reveal_strlit("\\ No newline at end of file\n");
    lemma_no_newline("\\ No newline at end of file\n"@.drop_last());
}

proof fn lemma_no_newline(text: Seq<char>)
    requires
        forall|i: int| 0 <= i < text.len() ==> text[i] != '\n',
    ensures
        newlines(text) == 0,
    decreases text.len(),
{
    if text.len() > 0 {
        lemma_no_newline(text.drop_last());
    }
}

/// The sign of a line of a hunk.
pub open spec fn sign_of(line: PatchLine) -> char {
    match line {
        PatchLine::Context => ' ',
        PatchLine::Delete => '-',
        PatchLine::Insert => '+',
    }
}

proof fn lemma_hunk_body(
    hunk: HunkView,
    old: Seq<Seq<char>>,
    new: Seq<Seq<char>>,
    count: nat,
)
    requires
        count <= hunk.lines.len(),
        are_lines(old),
        are_lines(new),
        is_sound_hunk(hunk, old.len(), new.len()),
        hunk.old_len > 0 ==> hunk.old_start > 0,
        hunk.new_len > 0 ==> hunk.new_start > 0,
    ensures
        ({
            let text = hunk_body(hunk, old, new, count);
            let read = read_lines(lines_of(text));
            &&& text.len() > 0 ==> text.last() == '\n'
            &&& hunks_among(lines_of(text)) == 0
            &&& read.len() == count
            &&& forall|at: int| 0 <= at < count ==> (#[trigger] read[at]).0 == sign_of(hunk.lines[at])
            &&& hunk.old_len > 0 ==> old_side(read) == old.subrange(
                hunk.old_start - 1,
                hunk.old_start - 1 + old_lines_in(hunk.lines.take(count as int)),
            )
            &&& hunk.old_len == 0 ==> old_side(read).len() == 0
            &&& forall|at: int|
                0 <= at < count && hunk.lines[at] == PatchLine::Insert ==> (#[trigger] read[at]).1
                    == new[hunk.new_start - 1 + new_lines_in(hunk.lines.take(at))]
        }),
    decreases count,
{
    if count > 0 {
        let at = count - 1;
        lemma_hunk_body(hunk, old, new, (count - 1) as nat);
        lemma_side_counts(hunk.lines, at);
        let before = hunk_body(hunk, old, new, (count - 1) as nat);
        let earlier = hunk.lines.take(at);
        let sign = sign_of(hunk.lines[at]);
        let line = match hunk.lines[at] {
            PatchLine::Insert => new[hunk.new_start - 1 + new_lines_in(earlier)],
            _ => old[hunk.old_start - 1 + old_lines_in(earlier)],
        };
        assert(hunk_line(hunk, old, new, at) == patch_line(sign, line));
        lemma_patch_line(sign, line, before);
        let read = read_lines(lines_of(before));
        let longer = read.push((sign, line));
        assert(longer.drop_last() =~= read);
        assert(hunk_body(hunk, old, new, count).last() == '\n');
        if hunk.old_len > 0 && hunk.lines[at] != PatchLine::Insert {
            let start = hunk.old_start - 1;
            assert(old.subrange(start, start + old_lines_in(hunk.lines.take(count as int)))
                =~= old.subrange(start, start + old_lines_in(earlier)).push(line));
        }
    } else {
        assert(lines_of(hunk_body(hunk, old, new, 0)) =~= Seq::empty());
        assert(hunk.lines.take(0) =~= Seq::empty());
        assert(old_lines_in(hunk.lines.take(0)) == 0);
        if hunk.old_len > 0 {
            assert(old.subrange(hunk.old_start - 1, hunk.old_start - 1) =~= Seq::empty());
        }
    }
}

/// What a reader takes from the lines of a hunk: as many lines as the hunk has, each
/// under its sign. Those that are kept or deleted are the lines of the old side in
/// the hunk's range, one after the other, and each inserted one is the line of the
/// new side at its place.
pub proof fn law_hunk_is_read_back(hunk: HunkView, old: Seq<Seq<char>>, new: Seq<Seq<char>>)
    requires
        are_lines(old),
        are_lines(new),
        is_sound_hunk(hunk, old.len(), new.len()),
        hunk.old_len > 0 ==> hunk.old_start > 0,
        hunk.new_len > 0 ==> hunk.new_start > 0,
    ensures
        ({
            let read = read_lines(lines_of(hunk_body(hunk, old, new, hunk.lines.len())));
            &&& read.len() == hunk.lines.len()
            &&& forall|at: int|
                0 <= at < read.len() ==> (#[trigger] read[at]).0 == sign_of(hunk.lines[at])
            &&& hunk.old_len > 0 ==> old_side(read) == old.subrange(
                hunk.old_start - 1,
                hunk.old_start - 1 + hunk.old_len,
            )
            &&& hunk.old_len == 0 ==> old_side(read).len() == 0
            &&& forall|at: int|
                0 <= at < read.len() && hunk.lines[at] == PatchLine::Insert ==> (
                #[trigger] read[at]).1 == new[hunk.new_start - 1 + new_lines_in(
                    hunk.lines.take(at),
                )]
        }),
{
    lemma_hunk_body(hunk, old, new, hunk.lines.len());
    assert(hunk.lines.take(hunk.lines.len() as int) =~= hunk.lines);
}

proof fn lemma_hunks_text(
    hunks: Seq<HunkView>,
    more: Seq<HunkView>,
    old: Seq<Seq<char>>,
    new: Seq<Seq<char>>,
    count: nat,
)
    requires
        count <= more.len(),
    ensures
        hunks_text(hunks + more, old, new, hunks.len() + count) == hunks_text(
            hunks,
            old,
            new,
            hunks.len(),
        ) + hunks_text(more, old, new, count),
    decreases count,
{
    let all = hunks + more;
    if count == 0 {
        lemma_first_hunks(hunks, more, old, new, hunks.len());
        assert(hunks_text(hunks, old, new, hunks.len()) + hunks_text(more, old, new, count)
            =~= hunks_text(hunks, old, new, hunks.len()));
    } else {
        lemma_hunks_text(hunks, more, old, new, (count - 1) as nat);
        assert(all[hunks.len() + count - 1] == more[count - 1]);
        assert((hunks.len() + count - 1) as nat == hunks.len() + (count - 1) as nat);
        assert(hunks_text(all, old, new, hunks.len() + count) =~= hunks_text(
            hunks,
            old,
            new,
            hunks.len(),
        ) + hunks_text(more, old, new, count));
    }
}

proof fn lemma_first_hunks(
    hunks: Seq<HunkView>,
    more: Seq<HunkView>,
    old: Seq<Seq<char>>,
    new: Seq<Seq<char>>,
    count: nat,
)
    requires
        count <= hunks.len(),
    ensures
        hunks_text(hunks + more, old, new, count) == hunks_text(hunks, old, new, count),
    decreases count,
{
    if count > 0 {
        lemma_first_hunks(hunks, more, old, new, (count - 1) as nat);
        assert((hunks + more)[count - 1] == hunks[count - 1]);
    }
}

/// A patch of some hunks and more is the patch of the first, followed by what the
/// patch of the others has behind its header. A patch without hunks is its header
/// alone, and one of a single hunk has behind the header the hunk's own header and
/// lines: so a patch has every hunk, once and in order.
pub proof fn law_patch_has_every_hunk(
    hunks: Seq<HunkView>,
    more: Seq<HunkView>,
    hunk: HunkView,
    old: Seq<Seq<char>>,
    new: Seq<Seq<char>>,
)
    ensures
        patch_text(hunks + more, old, new) == patch_text(hunks, old, new) + patch_text(
            more,
            old,
            new,
        ).skip(patch_header().len() as int),
        patch_text(Seq::empty(), old, new) == patch_header(),
        patch_text(seq![hunk], old, new) == patch_header() + hunk_header(hunk) + hunk_body(
            hunk,
            old,
            new,
            hunk.lines.len(),
        ),
{
    lemma_hunks_text(hunks, more, old, new, more.len());
    assert((hunks + more).len() == hunks.len() + more.len());
    assert(patch_text(more, old, new).skip(patch_header().len() as int) =~= hunks_text(
        more,
        old,
        new,
        more.len(),
    ));
    assert(patch_text(hunks + more, old, new) =~= patch_text(hunks, old, new) + hunks_text(
        more,
        old,
        new,
        more.len(),
    ));
    assert(patch_text(Seq::empty(), old, new) =~= patch_header());
    reveal_with_fuel(hunks_text, 2);
    assert(hunks_text(seq![hunk], old, new, 0) =~= Seq::empty());
    assert(patch_text(seq![hunk], old, new) =~= patch_header() + hunk_header(hunk) + hunk_body(
        hunk,
        old,
        new,
        hunk.lines.len(),
    ));
}

/// A text is a line range: its start in decimal, and its length behind a comma,
/// which may be left out where it is one.
pub open spec fn is_range(text: Seq<char>, start: nat, len: nat) -> bool {
    exists|first: Seq<char>, second: Seq<char>|
        #![trigger is_decimal(first), is_decimal(second)]
        {
            &&& is_decimal(first)
            &&& is_decimal(second)
            &&& decimal_value(first) == start
            &&& decimal_value(second) == len
            &&& text == first + seq![','] + second || len == 1 && text == first
        }
}

/// The header of a hunk is one line that names the range of the old side and the
/// range of the new side, in this order.
pub proof fn law_hunk_header_names_its_ranges(hunk: HunkView)
    ensures
        lines_of(hunk_header(hunk)) == seq![hunk_header(hunk)],
        exists|from: Seq<char>, to: Seq<char>|
            #![trigger is_range(from, hunk.old_start, hunk.old_len), is_range(
                to,
                hunk.new_start,
                hunk.new_len,
            )]
            is_range(from, hunk.old_start, hunk.old_len) && is_range(
                to,
                hunk.new_start,
                hunk.new_len,
            ) && hunk_header(hunk) == "@@ -"@ + from + " +"@ + to + " @@\n"@,
{
    reveal_strlit("@@ -");
    reveal_strlit(" +");
    reveal_strlit(" @@\n");
    let from = range_text(hunk.old_start, hunk.old_len);
    let to = range_text(hunk.new_start, hunk.new_len);
    lemma_range_text(hunk.old_start, hunk.old_len);
    lemma_range_text(hunk.new_start, hunk.new_len);
    let header = hunk_header(hunk);
    lemma_no_newline(header.drop_last());
    law_a_line_is_one_line(header);
}

proof fn lemma_range_text(start: nat, len: nat)
    ensures
        is_range(range_text(start, len), start, len),
        forall|i: int|
            0 <= i < range_text(start, len).len() ==> range_text(start, len)[i] != '\n',
{
    lemma_decimal_digits(start);
    lemma_decimal_digits(len);
    let first = decimal_digits(start);
    let second = decimal_digits(len);
    assert(is_decimal(first) && is_decimal(second));
    assert(first.push(',') =~= first + seq![',']);
}

proof fn lemma_hunks_counted(
    hunks: Seq<HunkView>,
    old: Seq<Seq<char>>,
    new: Seq<Seq<char>>,
    count: nat,
)
    requires
        count <= hunks.len(),
        are_lines(old),
        are_lines(new),
        forall|i: int|
            0 <= i < hunks.len() ==> {
                &&& is_sound_hunk(#[trigger] hunks[i], old.len(), new.len())
                &&& hunks[i].old_len > 0 ==> hunks[i].old_start > 0
                &&& hunks[i].new_len > 0 ==> hunks[i].new_start > 0
            },
    ensures
        ({
            let text = hunks_text(hunks, old, new, count);
            &&& text.len() > 0 ==> text.last() == '\n'
            &&& hunks_among(lines_of(text)) == count
        }),
    decreases count,
{
    if count > 0 {
        let hunk = hunks[count - 1];
        lemma_hunks_counted(hunks, old, new, (count - 1) as nat);
        let before = hunks_text(hunks, old, new, (count - 1) as nat);
        let header = hunk_header(hunk);
        let body = hunk_body(hunk, old, new, hunk.lines.len());
        lemma_hunk_body(hunk, old, new, hunk.lines.len());
        law_hunk_header_names_its_ranges(hunk);
        reveal_strlit("@@ -");
        reveal_strlit(" @@\n");
        assert(header[0] == '@');
        assert(header.last() == '\n');
        law_lines_follow_each_other(before, header);
        law_lines_follow_each_other(before + header, body);
        lemma_hunks_among(lines_of(before), lines_of(header));
        lemma_hunks_among(lines_of(before + header), lines_of(body));
        assert(hunks_among(seq![header]) == 1) by {
            reveal_with_fuel(hunks_among, 2);
        }
    } else {
        assert(lines_of(hunks_text(hunks, old, new, 0)) =~= Seq::empty());
    }
}

/// As many lines of a patch begin a hunk as the patch has hunks.
pub proof fn law_patch_counts_its_hunks(
    hunks: Seq<HunkView>,
    old: Seq<Seq<char>>,
    new: Seq<Seq<char>>,
)
    requires
        are_lines(old),
        are_lines(new),
        forall|i: int|
            0 <= i < hunks.len() ==> {
                &&& is_sound_hunk(#[trigger] hunks[i], old.len(), new.len())
                &&& hunks[i].old_len > 0 ==> hunks[i].old_start > 0
                &&& hunks[i].new_len > 0 ==> hunks[i].new_start > 0
            },
    ensures
        hunks_among(lines_of(patch_text(hunks, old, new))) == hunks.len(),
{
    lemma_hunks_counted(hunks, old, new, hunks.len());
    reveal_strlit("--- original\n");
    reveal_strlit("+++ modified\n");
    let first = "--- original\n"@;
    let second = "+++ modified\n"@;
    lemma_no_newline(first.drop_last());
    lemma_no_newline(second.drop_last());
    law_a_line_is_one_line(first);
    law_a_line_is_one_line(second);
    law_lines_follow_each_other(first, second);
    lemma_hunks_among(seq![first], seq![second]);
    reveal_with_fuel(hunks_among, 2);
    let text = hunks_text(hunks, old, new, hunks.len());
    law_lines_follow_each_other(patch_header(), text);
    lemma_hunks_among(lines_of(patch_header()), lines_of(text));
}

/// Blanks only, at least one.
pub open spec fn is_run(text: Seq<char>) -> bool {
    text.len() > 0 && forall|i: int| 0 <= i < text.len() ==> is_blank(#[trigger] text[i])
}

proof fn lemma_run_behind(a: Seq<char>, run: Seq<char>)
    requires
        is_run(run),
    ensures
        collapsed(a + run) == if a.len() > 0 && is_blank(a.last()) {
            collapsed(a)
        } else {
            collapsed(a).push(' ')
        },
    decreases run.len(),
{
    let text = a + run;
    assert(is_blank(run[run.len() - 1]));
    if run.len() == 1 {
        assert(text.drop_last() =~= a);
    } else {
        let shorter = run.drop_last();
        assert(text.drop_last() =~= a + shorter);
        assert forall|i: int| 0 <= i < shorter.len() implies is_blank(#[trigger] shorter[i]) by {
            assert(shorter[i] == run[i]);
        }
        lemma_run_behind(a, shorter);
        assert(is_blank(run[run.len() - 2]));
    }
}

proof fn lemma_runs_collapse(a: Seq<char>, run: Seq<char>, other: Seq<char>, b: Seq<char>)
    requires
        is_run(run),
        is_run(other),
    ensures
        collapsed(a + run + b) == collapsed(a + other + b),
    decreases b.len(),
{
    if b.len() == 0 {
        assert(a + run + b =~= a + run);
        assert(a + other + b =~= a + other);
        lemma_run_behind(a, run);
        lemma_run_behind(a, other);
    } else {
        let shorter = b.drop_last();
        assert((a + run + b).drop_last() =~= a + run + shorter);
        assert((a + other + b).drop_last() =~= a + other + shorter);
        assert(is_blank(run[run.len() - 1]));
        assert(is_blank(other[other.len() - 1]));
        lemma_runs_collapse(a, run, other, shorter);
    }
}

proof fn lemma_run_is_trimmed(a: Seq<char>, run: Seq<char>)
    requires
        is_run(run),
    ensures
        trimmed(a + run) == trimmed(a),
    decreases run.len(),
{
    let text = a + run;
    assert(is_blank(run[run.len() - 1]));
    if run.len() == 1 {
        assert(text.drop_last() =~= a);
    } else {
        let shorter = run.drop_last();
        assert(text.drop_last() =~= a + shorter);
        assert forall|i: int| 0 <= i < shorter.len() implies is_blank(#[trigger] shorter[i]) by {
            assert(shorter[i] == run[i]);
        }
        lemma_run_is_trimmed(a, shorter);
    }
}

/// Where whitespace within lines is ignored, one run of blanks is as good as another,
/// wherever it stands.
pub proof fn law_runs_of_blanks_compare_equal(
    a: Seq<char>,
    run: Seq<char>,
    other: Seq<char>,
    b: Seq<char>,
    ignore_eol: bool,
)
    requires
        is_run(run),
        is_run(other),
    ensures
        normalised(a + run + b, ignore_eol, true) == normalised(a + other + b, ignore_eol, true),
{
    assert(is_blank(run[run.len() - 1]));
    assert(is_blank(other[other.len() - 1]));
    if b.len() > 0 && b.last() == '\n' {
        lemma_runs_collapse(a, run, other, b.drop_last());
        assert((a + run + b).drop_last() =~= a + run + b.drop_last());
        assert((a + other + b).drop_last() =~= a + other + b.drop_last());
    } else {
        lemma_runs_collapse(a, run, other, b);
    }
}

/// Where whitespace at line ends is ignored, a line compares equal to the line
/// without the blanks at its end, with a newline and without.
pub proof fn law_blanks_at_line_ends_compare_equal(
    a: Seq<char>,
    run: Seq<char>,
    ignore_inline: bool,
)
    requires
        is_run(run),
        a.len() > 0 ==> a.last() != '\n',
    ensures
        normalised((a + run).push('\n'), true, ignore_inline) == normalised(
            a.push('\n'),
            true,
            ignore_inline,
        ),
        normalised(a + run, true, ignore_inline) == normalised(a, true, ignore_inline),
{
    assert(is_blank(run[run.len() - 1]));
    assert((a + run).push('\n').drop_last() =~= a + run);
    assert(a.push('\n').drop_last() =~= a);
    lemma_run_behind(a, run);
    lemma_run_is_trimmed(a, run);
    let before = collapsed(a);
    let space = seq![' '];
    assert(is_run(space));
    lemma_run_is_trimmed(before, space);
    assert(before + space =~= before.push(' '));
}

/// A line whose blanks are single spaces is kept where whitespace within lines is
/// ignored, and a line that does not end with a blank is kept where whitespace at
/// line ends is ignored: nothing else of a line is ignored.
pub proof fn law_nothing_else_is_ignored(line: Seq<char>, ignore_eol: bool, ignore_inline: bool)
    requires
        ({
            let content = line_content(line);
            &&& ignore_inline ==> forall|i: int|
                0 <= i < content.len() && is_blank(#[trigger] content[i]) ==> content[i] == ' '
                    && (i > 0 ==> !is_blank(content[i - 1]))
            &&& ignore_eol && content.len() > 0 ==> !is_blank(content.last())
        }),
    ensures
        normalised(line, ignore_eol, ignore_inline) == line,
{
    let content = line_content(line);
    if ignore_inline {
        lemma_single_spaces_stay(content);
    }
    assert(ignore_eol ==> trimmed(content) == content);
    if line.len() > 0 && line.last() == '\n' {
        assert(content.push('\n') =~= line);
    }
}

/// Each line of a text is compared by itself: a text that ends a line, and what
/// follows it, are compared as both are, and a single line as that line is.
pub proof fn law_lines_are_compared_one_by_one(
    a: Seq<char>,
    b: Seq<char>,
    line: Seq<char>,
    ignore_eol: bool,
    ignore_inline: bool,
)
    requires
        a.len() > 0 ==> a.last() == '\n',
        line.len() > 0,
        line.last() == '\n',
        newlines(line.drop_last()) == 0,
    ensures
        normalised_text(a + b, ignore_eol, ignore_inline) == normalised_text(
            a,
            ignore_eol,
            ignore_inline,
        ) + normalised_text(b, ignore_eol, ignore_inline),
        normalised_text(line, ignore_eol, ignore_inline) == normalised(
            line,
            ignore_eol,
            ignore_inline,
        ),
{
    let f = |l: Seq<char>| normalised(l, ignore_eol, ignore_inline);
    law_lines_follow_each_other(a, b);
    assert((lines_of(a) + lines_of(b)).map_values(f) =~= lines_of(a).map_values(f) + lines_of(
        b,
    ).map_values(f));
    law_concat_adds_up(lines_of(a).map_values(f), lines_of(b).map_values(f));
    law_a_line_is_one_line(line);
    let one = seq![line].map_values(f);
    assert(one =~= seq![normalised(line, ignore_eol, ignore_inline)]);
    assert(one.drop_last() =~= Seq::empty());
    assert(concat(one.drop_last()) =~= Seq::empty());
    assert(concat(one) =~= normalised(line, ignore_eol, ignore_inline));
}

proof fn lemma_single_spaces_stay(text: Seq<char>)
    requires
        forall|i: int|
            0 <= i < text.len() && is_blank(#[trigger] text[i]) ==> text[i] == ' ' && (i > 0
                ==> !is_blank(text[i - 1])),
    ensures
        collapsed(text) == text,
    decreases text.len(),
{
    if text.len() > 0 {
        let shorter = text.drop_last();
        assert forall|i: int| 0 <= i < shorter.len() && is_blank(#[trigger] shorter[i]) implies
            shorter[i] == ' ' && (i > 0 ==> !is_blank(shorter[i - 1])) by {
            assert(shorter[i] == text[i]);
        }
        lemma_single_spaces_stay(shorter);
        assert(text[text.len() - 1] == text.last());
        assert(shorter.push(text.last()) =~= text);
    }
}

proof fn lemma_collapsed_newlines(text: Seq<char>)
    ensures
        newlines(collapsed(text)) == newlines(text),
    decreases text.len(),
{
    if text.len() > 0 {
        lemma_collapsed_newlines(text.drop_last());
        let before = collapsed(text.drop_last());
        assert(before.push(text.last()).drop_last() =~= before);
        assert(before.push(' ').drop_last() =~= before);
    }
}

proof fn lemma_trimmed_newlines(text: Seq<char>)
    ensures
        newlines(trimmed(text)) == newlines(text),
    decreases text.len(),
{
    if text.len() > 0 && is_blank(text.last()) {
        lemma_trimmed_newlines(text.drop_last());
    }
}

/// Normalising a line keeps its newline and adds none.
proof fn lemma_normalised_line(line: Seq<char>, ignore_eol: bool, ignore_inline: bool)
    requires
        line.len() > 0,
        newlines(line.drop_last()) == 0,
    ensures
        ({
            let norm = normalised(line, ignore_eol, ignore_inline);
            &&& newlines(norm) == newlines(line)
            &&& line.last() == '\n' ==> norm.len() > 0 && norm.last() == '\n'
            &&& line.last() != '\n' ==> newlines(norm) == 0
        }),
{
    let content = line_content(line);
    let inline = if ignore_inline {
        collapsed(content)
    } else {
        content
    };
    lemma_collapsed_newlines(content);
    lemma_trimmed_newlines(inline);
    let kept = if ignore_eol {
        trimmed(inline)
    } else {
        inline
    };
    assert(kept.push('\n').drop_last() =~= kept);
}

proof fn lemma_normalised_prefix(
    text: Seq<char>,
    ignore_eol: bool,
    ignore_inline: bool,
    count: int,
)
    requires
        0 <= count <= lines_of(text).len(),
    ensures
        ({
            let norm = |line: Seq<char>| normalised(line, ignore_eol, ignore_inline);
            let pieces = lines_of(text).map_values(norm);
            &&& newlines(concat(pieces.take(count))) == newlines(concat(lines_of(text).take(count)))
            &&& 0 < count < lines_of(text).len() ==> !is_unterminated(concat(pieces.take(count)))
            &&& count > 0 && lines_of(text)[count - 1].last() == '\n' ==> !is_unterminated(
                concat(pieces.take(count)),
            )
            &&& count > 0 && lines_of(text)[count - 1].last() != '\n' && norm(
                lines_of(text)[count - 1],
            ).len() > 0 ==> is_unterminated(concat(pieces.take(count)))
        }),
    decreases count,
{
    let norm = |line: Seq<char>| normalised(line, ignore_eol, ignore_inline);
    let lines = lines_of(text);
    let pieces = lines.map_values(norm);
    if count > 0 {
        lemma_normalised_prefix(text, ignore_eol, ignore_inline, count - 1);
        law_lines_are_lines(text, 0, count - 1);
        let line = lines[count - 1];
        lemma_normalised_line(line, ignore_eol, ignore_inline);
        assert(pieces.take(count).drop_last() =~= pieces.take(count - 1));
        assert(lines.take(count).drop_last() =~= lines.take(count - 1));
        let before = concat(pieces.take(count - 1));
        let last = norm(line);
        assert(concat(pieces.take(count)) == before + last);
        lemma_newlines_concat(before, last);
        lemma_newlines_concat(concat(lines.take(count - 1)), line);
        if last.len() > 0 {
            assert((before + last).last() == last.last());
        }
        if line.last() != '\n' && last.len() > 0 {
            assert(newlines(last) == 0);
            lemma_last_is_no_newline(last);
        }
    }
}

proof fn lemma_last_is_no_newline(text: Seq<char>)
    requires
        text.len() > 0,
        newlines(text) == 0,
    ensures
        text.last() != '\n',
{
}

/// Normalising a text never adds lines, and keeps their number unless the text
/// ends with a line of blanks that has no newline and vanishes.
pub proof fn law_normalising_keeps_line_count(
    text: Seq<char>,
    ignore_eol: bool,
    ignore_inline: bool,
)
    ensures
        lines_of(normalised_text(text, ignore_eol, ignore_inline)).len() <= lines_of(text).len(),
        lines_of(text).len() == 0 || normalised(
            lines_of(text).last(),
            ignore_eol,
            ignore_inline,
        ).len() > 0 ==> lines_of(normalised_text(text, ignore_eol, ignore_inline)).len()
            == lines_of(text).len(),
{
    let norm_fn = |line: Seq<char>| normalised(line, ignore_eol, ignore_inline);
    let lines = lines_of(text);
    let n = lines.len() as int;
    let norm = normalised_text(text, ignore_eol, ignore_inline);
    lemma_normalised_prefix(text, ignore_eol, ignore_inline, n);
    assert(lines.map_values(norm_fn).take(n) =~= lines.map_values(norm_fn));
    assert(lines.take(n) =~= lines);
    law_lines_make_the_text(text, 0);
    assert(text.skip(0) =~= text);
    assert(norm.skip(0) =~= norm);
    law_line_count(text, 0);
    law_line_count(norm, 0);
    if n > 0 {
        law_lines_are_lines(text, 0, n - 1);
        let before = concat(lines.drop_last());
        assert(concat(lines) == before + lines.last());
        assert(text.last() == lines.last().last());
    } else {
        assert(text.len() == 0) by {
            if text.len() > 0 {
                assert(lines_from(text, 0).len() > 0);
            }
        }
    }
}

/// Where no whitespace is ignored, a text is compared as it is.
pub proof fn law_plain_text_is_kept(text: Seq<char>)
    ensures
        normalised_text(text, false, false) == text,
{
    let lines = lines_of(text);
    let kept = lines.map_values(|line: Seq<char>| normalised(line, false, false));
    assert forall|i: int| 0 <= i < lines.len() implies #[trigger] kept[i] == lines[i] by {
        law_lines_are_lines(text, 0, i);
        assert(normalised(lines[i], false, false) =~= lines[i]);
    }
    assert(kept =~= lines);
    law_lines_make_the_text(text, 0);
    assert(text.skip(0) =~= text);
}

/// A patch between two texts that ignores whitespace as asked for, but shows
/// the original lines. There is none when the texts are equal under the rules.
pub fn format_patch_preserving_originals(
    old: &str,
    new: &str,
    context_lines: u32,
    ignore_eol: bool,
    ignore_inline: bool,
) -> (patch: Option<String>)
    ensures
        ({
            let hunks = diffy_hunks(
                normalised_text(old@, ignore_eol, ignore_inline),
                normalised_text(new@, ignore_eol, ignore_inline),
                context_lines as nat,
            );
            &&& patch is None <==> hunks.len() == 0
            &&& patch is None <==> normalised_text(old@, ignore_eol, ignore_inline)
                == normalised_text(new@, ignore_eol, ignore_inline)
            &&& patch matches Some(text) ==> text@ == patch_text(
                hunks,
                lines_of(old@),
                lines_of(new@),
            )
        }),
{
    let old_lines = split_lines(old);
    let new_lines = split_lines(new);
    let old_norm = normalise_lines(&old_lines, ignore_eol, ignore_inline);
    let new_norm = normalise_lines(&new_lines, ignore_eol, ignore_inline);
    let hunks = find_hunks(old_norm.as_str(), new_norm.as_str(), context_lines);
    proof {
        law_normalising_keeps_line_count(old@, ignore_eol, ignore_inline);
        law_normalising_keeps_line_count(new@, ignore_eol, ignore_inline);
        assert(views(old_lines@).len() == old_lines@.len());
        assert(views(new_lines@).len() == new_lines@.len());
    }
    format_hunks(&hunks, &old_lines, &new_lines)
}

// ---------------------------------------------------------------------------
// Events
// ---------------------------------------------------------------------------

/// A patch with the names of the two sides in its header. What follows the header
/// stays as it is.
pub open spec fn labelled(patch: Seq<char>, from_label: Seq<char>, to_label: Seq<char>) -> Seq<char> {
    "--- "@ + from_label + "\n+++ "@ + to_label + "\n"@ + patch.skip(patch_header().len() as int)
}

/// A labelled patch has two lines that name the sides, the old one first, and behind
/// them exactly what the patch has behind its header: as many hunks as before.
pub proof fn law_labels_replace_the_header(
    hunks: Seq<HunkView>,
    old: Seq<Seq<char>>,
    new: Seq<Seq<char>>,
    from_label: Seq<char>,
    to_label: Seq<char>,
)
    requires
        newlines(from_label) == 0,
        newlines(to_label) == 0,
        are_lines(old),
        are_lines(new),
        forall|i: int|
            0 <= i < hunks.len() ==> {
                &&& is_sound_hunk(#[trigger] hunks[i], old.len(), new.len())
                &&& hunks[i].old_len > 0 ==> hunks[i].old_start > 0
                &&& hunks[i].new_len > 0 ==> hunks[i].new_start > 0
            },
    ensures
        ({
            let text = labelled(patch_text(hunks, old, new), from_label, to_label);
            let lines = lines_of(text);
            &&& lines.len() >= 2
            &&& lines[0] == "--- "@ + from_label + "\n"@
            &&& lines[1] == "+++ "@ + to_label + "\n"@
            &&& hunks_among(lines) == hunks.len()
            &&& lines.skip(2) == lines_of(patch_text(hunks, old, new)).skip(2)
        }),
{
    reveal_strlit("--- ");
    reveal_strlit("+++ ");
    reveal_strlit("\n");
    reveal_strlit("\n+++ ");
    reveal_strlit("--- original\n");
    reveal_strlit("+++ modified\n");
    let body = hunks_text(hunks, old, new, hunks.len());
    let first = "--- "@ + from_label + "\n"@;
    let second = "+++ "@ + to_label + "\n"@;
    let text = labelled(patch_text(hunks, old, new), from_label, to_label);
    assert(patch_text(hunks, old, new).skip(patch_header().len() as int) =~= body);
    assert(text =~= first + (second + body));
    assert(first.drop_last() =~= "--- "@ + from_label);
    assert(second.drop_last() =~= "+++ "@ + to_label);
    lemma_no_newline("--- "@);
    lemma_no_newline("+++ "@);
    lemma_newlines_concat("--- "@, from_label);
    lemma_newlines_concat("+++ "@, to_label);
    law_a_line_is_one_line(first);
    law_a_line_is_one_line(second);
    law_lines_follow_each_other(first, second + body);
    law_lines_follow_each_other(second, body);
    let rest = lines_of(body);
    assert(lines_of(text) =~= seq![first, second] + rest);
    let old_first = "--- original\n"@;
    let old_second = "+++ modified\n"@;
    lemma_no_newline(old_first.drop_last());
    lemma_no_newline(old_second.drop_last());
    law_a_line_is_one_line(old_first);
    law_a_line_is_one_line(old_second);
    law_lines_follow_each_other(old_first, old_second);
    law_lines_follow_each_other(patch_header(), body);
    assert(lines_of(patch_text(hunks, old, new)) =~= seq![old_first, old_second] + rest);
    assert(lines_of(text).skip(2) =~= rest);
    assert(lines_of(patch_text(hunks, old, new)).skip(2) =~= rest);
    lemma_hunks_counted(hunks, old, new, hunks.len());
    lemma_hunks_among(seq![first, second], rest);
    assert(seq![first, second] =~= seq![first] + seq![second]);
    lemma_hunks_among(seq![first], seq![second]);
    assert(hunks_among(seq![first]) == 0 && hunks_among(seq![second]) == 0) by {
        reveal_with_fuel(hunks_among, 2);
        assert(first[0] == '-');
        assert(second[0] == '+');
    }
}

/// Puts the names of the two sides into the header of a patch.
pub fn label_patch(patch: &str, from_label: &str, to_label: &str) -> (text: String)
    requires
        patch_header().is_prefix_of(patch@),
    ensures
        text@ == labelled(patch@, from_label@, to_label@),
{
    proof {
        lemma_patch_header();
    }
    let chars = chars_of(patch);
    let body = text_of(slice_subrange(chars.as_slice(), PATCH_HEADER_SIZE, chars.len()));
    let mut text = "--- ".to_owned();
    text.append(from_label);
    text.append("\n+++ ");
    text.append(to_label);
    text.append("\n");
    text.append(body.as_str());
    assert(body@ =~= patch@.skip(patch_header().len() as int));
    text
}

/// A plain patch is empty: nothing follows its header.
pub open spec fn is_empty_patch(patch: Seq<char>) -> bool {
    patch == patch_header()
}

/// Tells whether a plain patch is its header alone.
pub fn patch_is_empty(patch: &str) -> (empty: bool)
    ensures
        empty == is_empty_patch(patch@),
{
    proof {
        lemma_patch_header();
    }
    text_equal(patch, "--- original\n+++ modified\n")
}

/// The patch between two texts before it is labelled, if they differ.
pub open spec fn raw_patch(old: Seq<char>, new: Seq<char>, options: DiffOptions) -> Option<
    Seq<char>,
> {
    if options.ignore_whitespace_eol || options.ignore_whitespace_inline {
        let hunks = diffy_hunks(
            normalised_text(old, options.ignore_whitespace_eol, options.ignore_whitespace_inline),
            normalised_text(new, options.ignore_whitespace_eol, options.ignore_whitespace_inline),
            options.context_lines as nat,
        );
        if hunks.len() == 0 {
            None
        } else {
            Some(patch_text(hunks, lines_of(old), lines_of(new)))
        }
    } else {
        let patch = diffy_text(old, new, options.context_lines as nat);
        if is_empty_patch(patch) {
            None
        } else {
            Some(patch)
        }
    }
}

/// Formats a unified diff with proper labels as an event. There is none when the
/// texts do not differ under the options.
pub fn emit_diff_event(
    old: &str,
    new: &str,
    from_label: &str,
    to_label: &str,
    path: &str,
    action: LoreFileAction,
    options: DiffOptions,
) -> (event: Option<LoreFileDiffEventData>)
    ensures
        event is Some <==> raw_patch(old@, new@, options) is Some,
        event matches Some(data) ==> {
            &&& data.path@ == path@
            &&& data.action == action
            &&& data.patch@ == labelled(
                raw_patch(old@, new@, options)->0,
                from_label@,
                to_label@,
            )
        },
        event is None <==> normalised_text(
            old@,
            options.ignore_whitespace_eol,
            options.ignore_whitespace_inline,
        ) == normalised_text(
            new@,
            options.ignore_whitespace_eol,
            options.ignore_whitespace_inline,
        ),
{
    let patch = if options.ignore_whitespace_eol || options.ignore_whitespace_inline {
        match format_patch_preserving_originals(
            old,
            new,
            options.context_lines,
            options.ignore_whitespace_eol,
            options.ignore_whitespace_inline,
        ) {
            Some(text) => text,
            None => {
                return None;
            },
        }
    } else {
        let text = write_patch(old, new, options.context_lines);
        proof {
            law_plain_text_is_kept(old@);
            law_plain_text_is_kept(new@);
        }
        if patch_is_empty(text.as_str()) {
            return None;
        }
        text
    };
    Some(
        LoreFileDiffEventData {
            path: path.to_owned(),
            patch: label_patch(patch.as_str(), from_label, to_label),
            action,
        },
    )
}

/// The event for a file with binary content on any side, whose bytes are never
/// shown as text.
pub fn emit_binary_diff(path: &str, action: LoreFileAction) -> (event: LoreFileDiffEventData)
    ensures
        event.path@ == path@,
        event.patch@ == "Binary files differ\n"@,
        event.action == action,
{
    LoreFileDiffEventData {
        path: path.to_owned(),
        patch: "Binary files differ\n".to_owned(),
        action,
    }
}

// ---------------------------------------------------------------------------
// File content
// ---------------------------------------------------------------------------

/// One side of a diff: either decoded display text, or a marker that the raw
/// bytes were detected as binary (non-text) content.
#[derive(Debug)]
pub enum DiffContent {
    Text(String),
    Binary,
}

impl DiffContent {
    /// The text of a side; a binary side has none.
    pub open spec fn spec_text(&self) -> Seq<char> {
        match self {
            DiffContent::Text(text) => text@,
            DiffContent::Binary => Seq::empty(),
        }
    }

    /// An absent side (file missing on this revision / `/dev/null`). Treated as
    /// empty text, never binary.
    pub fn empty() -> (content: DiffContent)
        ensures
            content is Text,
            content.spec_text() == Seq::<char>::empty(),
    {
        DiffContent::Text(String::new())
    }

    /// Tells whether the side is binary.
    pub fn is_binary(&self) -> (binary: bool)
        ensures
            binary == self is Binary,
    {
        match self {
            DiffContent::Binary => true,
            DiffContent::Text(_) => false,
        }
    }

    /// The decoded text for a text side; `""` for binary.
    pub fn text(&self) -> (text: &str)
        ensures
            text@ == self.spec_text(),
    {
        match self {
            DiffContent::Text(s) => s.as_str(),
            DiffContent::Binary => {
                proof {
                    reveal_strlit("");
                }
                assert(""@ =~= Seq::empty());
                ""
            },
        }
    }
}

/// Bytes start with a UTF-16 byte order mark, of either byte order.
pub open spec fn has_utf16_bom(bytes: Seq<u8>) -> bool {
    bytes.len() >= 2 && ((bytes[0] == 0xFF && bytes[1] == 0xFE) || (bytes[0] == 0xFE && bytes[1]
        == 0xFF))
}

/// Tells whether bytes start with a UTF-16 byte order mark.
pub fn is_utf16_bom(bytes: &[u8]) -> (yes: bool)
    ensures
        yes == has_utf16_bom(bytes@),
{
    bytes.len() >= 2 && ((bytes[0] == 0xFF && bytes[1] == 0xFE) || (bytes[0] == 0xFE && bytes[1]
        == 0xFF))
}

/// Builds display content from raw bytes.
///
/// An empty buffer (an absent side) is text, not binary. UTF-16 BOM input is
/// exempt from the binary check. Everything else that is not diffable is
/// binary, and its bytes are never shown.
///
/// `diffable` tells whether the bytes were found to be text, and `decoded` is
/// their display form.
pub fn make_diff_content(bytes: &[u8], diffable: bool, decoded: &str) -> (content: DiffContent)
    ensures
        content is Binary <==> bytes@.len() > 0 && !has_utf16_bom(bytes@) && !diffable,
        content matches DiffContent::Text(text) ==> text@ == decoded@,
{
    if bytes.len() > 0 && !is_utf16_bom(bytes) && !diffable {
        DiffContent::Binary
    } else {
        DiffContent::Text(decoded.to_owned())
    }
}

/// Checks the node found at a path whose content is to be read: it must exist
/// and be a file.
pub fn diff_read_file(relative_path: &str, node: Option<&Node>) -> (result: Result<(), DiffError>)
    ensures
        result is Ok <==> (node matches Some(n) && n.kind == NodeKind::File),
        result matches Err(e) ==> match node {
            None => e.kind == ErrorKind::FileNotFound && e.detail@ == relative_path@,
            Some(_) => e.kind == ErrorKind::Internal && e.detail@
                == "The given path is not a file: "@ + relative_path@,
        },
{
    match node {
        None => Err(DiffError { kind: ErrorKind::FileNotFound, detail: relative_path.to_owned() }),
        Some(found) => if found.is_file() {
            Ok(())
        } else {
            let mut detail = "The given path is not a file: ".to_owned();
            detail.append(relative_path);
            Err(DiffError { kind: ErrorKind::Internal, detail })
        },
    }
}

// ---------------------------------------------------------------------------
// Two-way diffs
// ---------------------------------------------------------------------------

/// A path takes part in a diff that is limited to some paths.
pub open spec fn is_selected(path: Seq<char>, paths: Seq<Seq<char>>) -> bool {
    paths.len() == 0 || paths.contains(path)
}

fn selects(path: &str, paths: &Vec<String>) -> (yes: bool)
    ensures
        yes == is_selected(path@, views(paths@)),
{
    paths.len() == 0 || list_contains(paths, path)
}

/// What happened to a file, given the sides that have it.
pub open spec fn side_action(from_file: bool, to_file: bool) -> LoreFileAction {
    if from_file {
        if to_file {
            LoreFileAction::Keep
        } else {
            LoreFileAction::Delete
        }
    } else {
        LoreFileAction::Add
    }
}

fn action_of(from_file: bool, to_file: bool) -> (action: LoreFileAction)
    ensures
        action == side_action(from_file, to_file),
{
    if from_file {
        if to_file {
            LoreFileAction::Keep
        } else {
            LoreFileAction::Delete
        }
    } else {
        LoreFileAction::Add
    }
}

/// A path in a revision.
pub open spec fn revision_label(path: Seq<char>, number: u64) -> Seq<char> {
    path.push('@') + decimal_digits(number as nat)
}

fn label_revision(path: &str, number: u64) -> (label: String)
    ensures
        label@ == revision_label(path@, number),
{
    let mut label = path.to_owned();
    label.push('@');
    label.append(decimal(number).as_str());
    label
}

/// A path on the target side: in a revision, or in the working tree.
pub open spec fn target_label(path: Seq<char>, target_number: Option<u64>) -> Seq<char> {
    match target_number {
        Some(number) => revision_label(path, number),
        None => path,
    }
}

fn label_target(path: &str, target_number: Option<u64>) -> (label: String)
    ensures
        label@ == target_label(path@, target_number),
{
    match target_number {
        Some(number) => label_revision(path, number),
        None => path.to_owned(),
    }
}

/// What a two-way diff of a change reads and how its sides are named.
#[derive(Debug)]
pub struct UnifiedPlan {
    pub action: LoreFileAction,
    pub read_source: bool,
    pub read_target: bool,
    pub from_label: String,
    pub to_label: String,
}

/// Plans the two-way diff of a change, if it concerns a selected file. Without
/// a target revision the working tree is the target, and `on_disk` tells
/// whether the path is a file there.
pub fn plan_unified_diff(
    change: &NodeChange,
    source_number: u64,
    target_number: Option<u64>,
    on_disk: bool,
    paths: &Vec<String>,
) -> (plan: Option<UnifiedPlan>)
    ensures
        ({
            let from_file = change.from.kind == NodeKind::File;
            let to_file = if target_number is Some {
                change.to.kind == NodeKind::File
            } else {
                on_disk
            };
            let action = side_action(from_file, to_file);
            &&& plan is Some <==> (from_file || to_file) && is_selected(
                change.path@,
                views(paths@),
            )
            &&& plan matches Some(p) ==> {
                &&& p.action == action
                &&& p.read_source == from_file
                &&& p.read_target == to_file
                &&& p.from_label@ == if action == LoreFileAction::Add {
                    "/dev/null"@
                } else {
                    revision_label(change.path@, source_number)
                }
                &&& p.to_label@ == match action {
                    LoreFileAction::Delete => "/dev/null"@,
                    LoreFileAction::Add => change.path@,
                    _ => target_label(change.path@, target_number),
                }
            }
        }),
{
    let from_file = change.from.kind == NodeKind::File;
    let to_file = match target_number {
        Some(_) => change.to.kind == NodeKind::File,
        None => on_disk,
    };
    if !from_file && !to_file {
        return None;
    }
    if !selects(change.path.as_str(), paths) {
        return None;
    }
    let action = action_of(from_file, to_file);
    let from_label = match action {
        LoreFileAction::Add => "/dev/null".to_owned(),
        _ => label_revision(change.path.as_str(), source_number),
    };
    let to_label = match action {
        LoreFileAction::Delete => "/dev/null".to_owned(),
        LoreFileAction::Add => change.path.clone(),
        _ => label_target(change.path.as_str(), target_number),
    };
    Some(
        UnifiedPlan { action, read_source: from_file, read_target: to_file, from_label, to_label },
    )
}

/// The event for two sides: a marker when either is binary, else their patch.
pub open spec fn is_side_event(
    event: Option<LoreFileDiffEventData>,
    path: Seq<char>,
    action: LoreFileAction,
    binary: bool,
    old: Seq<char>,
    new: Seq<char>,
    from_label: Seq<char>,
    to_label: Seq<char>,
    options: DiffOptions,
) -> bool {
    if binary {
        &&& event matches Some(data)
        &&& data.path@ == path
        &&& data.action == action
        &&& data.patch@ == "Binary files differ\n"@
    } else {
        &&& event is Some <==> raw_patch(old, new, options) is Some
        &&& event matches Some(data) ==> {
            &&& data.path@ == path
            &&& data.action == action
            &&& data.patch@ == labelled(raw_patch(old, new, options)->0, from_label, to_label)
        }
    }
}

/// The event of a planned two-way diff. A side that was not read is empty.
pub fn emit_unified_diffs(
    change: &NodeChange,
    plan: &UnifiedPlan,
    source: &DiffContent,
    target: &DiffContent,
    options: DiffOptions,
) -> (event: Option<LoreFileDiffEventData>)
    requires
        !plan.read_source ==> source is Text && source.spec_text() == Seq::<char>::empty(),
        !plan.read_target ==> target is Text && target.spec_text() == Seq::<char>::empty(),
    ensures
        is_side_event(
            event,
            change.path@,
            plan.action,
            source is Binary || target is Binary,
            source.spec_text(),
            target.spec_text(),
            plan.from_label@,
            plan.to_label@,
            options,
        ),
{
    if source.is_binary() || target.is_binary() {
        return Some(emit_binary_diff(change.path.as_str(), plan.action));
    }
    emit_diff_event(
        source.text(),
        target.text(),
        plan.from_label.as_str(),
        plan.to_label.as_str(),
        change.path.as_str(),
        plan.action,
        options,
    )
}

// ---------------------------------------------------------------------------
// Three-way diffs
// ---------------------------------------------------------------------------

/// What a three-way diff of a change reads. The source side is always tried,
/// and is empty where it has no such file.
#[derive(Clone, Copy, Debug, PartialEq, Eq, Structural)]
pub struct Diff3Plan {
    pub action: LoreFileAction,
    pub read_base: bool,
    pub read_target: bool,
}

/// Plans the three-way diff of a change that is no conflict.
pub fn plan_diff3_change(change: &NodeChange, paths: &Vec<String>) -> (plan: Option<Diff3Plan>)
    ensures
        ({
            let from_file = change.from.kind == NodeKind::File;
            let to_file = change.to.kind == NodeKind::File;
            &&& plan is Some <==> (from_file || to_file) && is_selected(
                change.path@,
                views(paths@),
            )
            &&& plan matches Some(p) ==> {
                &&& p.action == side_action(from_file, to_file)
                &&& p.read_base == from_file
                &&& p.read_target == to_file
            }
        }),
{
    let from_file = change.from.kind == NodeKind::File;
    let to_file = change.to.kind == NodeKind::File;
    if !from_file && !to_file {
        return None;
    }
    if !selects(change.path.as_str(), paths) {
        return None;
    }
    Some(
        Diff3Plan {
            action: action_of(from_file, to_file),
            read_base: from_file,
            read_target: to_file,
        },
    )
}

/// What becomes of a three-way diff once its sides are read.
#[derive(Debug)]
pub enum Diff3Step {
    /// The diff is complete.
    Event(Option<LoreFileDiffEventData>),
    /// Both branches changed the file: the three sides are merged first.
    Merge,
}

/// The three-way diff of a change that is no conflict: where the source side is
/// as the base, the base is compared with the target.
pub fn emit_diff3_changes(
    change: &NodeChange,
    plan: Diff3Plan,
    base: &DiffContent,
    source: &DiffContent,
    target: &DiffContent,
    base_number: u64,
    target_number: Option<u64>,
    options: DiffOptions,
) -> (step: Diff3Step)
    ensures
        ({
            let binary = base is Binary || source is Binary || target is Binary;
            &&& step is Merge <==> !binary && base.spec_text() != source.spec_text()
            &&& step matches Diff3Step::Event(event) ==> is_side_event(
                event,
                change.path@,
                plan.action,
                binary,
                base.spec_text(),
                target.spec_text(),
                if plan.read_base {
                    revision_label(change.path@, base_number)
                } else {
                    "/dev/null"@
                },
                if plan.read_target {
                    target_label(change.path@, target_number)
                } else {
                    "/dev/null"@
                },
                options,
            )
        }),
{
    if base.is_binary() || source.is_binary() || target.is_binary() {
        return Diff3Step::Event(Some(emit_binary_diff(change.path.as_str(), plan.action)));
    }
    if text_equal(base.text(), source.text()) {
        let from_label = if plan.read_base {
            label_revision(change.path.as_str(), base_number)
        } else {
            "/dev/null".to_owned()
        };
        let to_label = if plan.read_target {
            label_target(change.path.as_str(), target_number)
        } else {
            "/dev/null".to_owned()
        };
        return Diff3Step::Event(
            emit_diff_event(
                base.text(),
                target.text(),
                from_label.as_str(),
                to_label.as_str(),
                change.path.as_str(),
                plan.action,
                options,
            ),
        );
    }
    Diff3Step::Merge
}

/// The three-way diff of a change that both branches made: the source side is
/// compared with the merge. A merge that conflicts after all is passed over.
pub fn emit_diff3_merged_change(
    change: &NodeChange,
    plan: Diff3Plan,
    source: &DiffContent,
    merged: Option<&str>,
    source_number: u64,
    target_number: Option<u64>,
    options: DiffOptions,
) -> (event: Option<LoreFileDiffEventData>)
    ensures
        merged is None ==> event is None,
        merged matches Some(text) ==> is_side_event(
            event,
            change.path@,
            plan.action,
            false,
            source.spec_text(),
            text@,
            revision_label(change.path@, source_number),
            target_label(change.path@, target_number) + " (merged)"@,
            options,
        ),
{
    match merged {
        None => None,
        Some(text) => {
            let mut to_label = label_target(change.path.as_str(), target_number);
            to_label.append(" (merged)");
            emit_diff_event(
                source.text(),
                text,
                label_revision(change.path.as_str(), source_number).as_str(),
                to_label.as_str(),
                change.path.as_str(),
                plan.action,
                options,
            )
        },
    }
}

/// What the three-way diff of a conflict reads, and how its sides are named.
#[derive(Debug)]
pub struct ConflictPlan {
    pub read_base: bool,
    pub read_source: bool,
    pub read_target: bool,
    pub base_label: String,
    pub source_label: String,
    pub target_label: String,
}

/// The name of a side in a conflict.
pub open spec fn side_label(side: Seq<char>, number: Option<u64>) -> Seq<char> {
    match number {
        Some(n) => revision_label(side, n),
        None => side,
    }
}

/// Plans the three-way diff of a conflict. `theirs` is the change made on the
/// target side, `mine` the one made on the source side.
pub fn plan_diff3_conflict(
    theirs: &NodeChange,
    mine: &NodeChange,
    base_number: u64,
    source_number: u64,
    target_number: Option<u64>,
    paths: &Vec<String>,
) -> (plan: Option<ConflictPlan>)
    ensures
        ({
            let any_file = theirs.from.kind == NodeKind::File || theirs.to.kind == NodeKind::File
                || mine.from.kind == NodeKind::File || mine.to.kind == NodeKind::File;
            &&& plan is Some <==> any_file && is_selected(theirs.path@, views(paths@))
            &&& plan matches Some(p) ==> {
                &&& p.read_base == (theirs.from.kind == NodeKind::File)
                &&& p.read_source == (mine.to.kind == NodeKind::File)
                &&& p.read_target == (theirs.to.kind == NodeKind::File)
                &&& p.base_label@ == revision_label("base"@, base_number)
                &&& p.source_label@ == revision_label("source"@, source_number)
                &&& p.target_label@ == side_label("target"@, target_number)
            }
        }),
{
    let target_is_file = theirs.from.kind == NodeKind::File || theirs.to.kind == NodeKind::File;
    let source_is_file = mine.from.kind == NodeKind::File || mine.to.kind == NodeKind::File;
    if !target_is_file && !source_is_file {
        return None;
    }
    if !selects(theirs.path.as_str(), paths) {
        return None;
    }
    Some(
        ConflictPlan {
            read_base: theirs.from.kind == NodeKind::File,
            read_source: mine.to.kind == NodeKind::File,
            read_target: theirs.to.kind == NodeKind::File,
            base_label: label_revision("base", base_number),
            source_label: label_revision("source", source_number),
            target_label: label_target("target", target_number),
        },
    )
}

/// The event of a conflict whose sides are binary, if they are; otherwise they
/// are merged.
pub fn emit_binary_conflict(
    path: &str,
    base: &DiffContent,
    source: &DiffContent,
    target: &DiffContent,
) -> (event: Option<LoreFileDiffEventData>)
    ensures
        event is Some <==> base is Binary || source is Binary || target is Binary,
        event matches Some(data) ==> {
            &&& data.path@ == path@
            &&& data.patch@ == "Binary files differ\n"@
            &&& data.action == LoreFileAction::Keep
        },
{
    if base.is_binary() || source.is_binary() || target.is_binary() {
        Some(emit_binary_diff(path, LoreFileAction::Keep))
    } else {
        None
    }
}

/// The event of a conflict once its sides are merged: a clean merge is compared
/// with the source side, and a conflict is shown with its markers.
pub fn emit_diff3_conflicts(
    path: &str,
    plan: &ConflictPlan,
    source: &DiffContent,
    merge: Result<&str, &str>,
    options: DiffOptions,
) -> (event: Option<LoreFileDiffEventData>)
    ensures
        merge matches Ok(merged) ==> is_side_event(
            event,
            path@,
            LoreFileAction::Keep,
            false,
            source.spec_text(),
            merged@,
            plan.source_label@,
            plan.target_label@ + " (merged)"@,
            options,
        ),
        merge matches Err(conflict) ==> {
            &&& event matches Some(data)
            &&& data.path@ == path@
            &&& data.patch@ == conflict@
            &&& data.action == LoreFileAction::Keep
        },
{
    match merge {
        Ok(merged) => {
            let mut to_label = plan.target_label.clone();
            to_label.append(" (merged)");
            emit_diff_event(
                source.text(),
                merged,
                plan.source_label.as_str(),
                to_label.as_str(),
                path,
                LoreFileAction::Keep,
                options,
            )
        },
        Err(conflict) => Some(
            LoreFileDiffEventData {
                path: path.to_owned(),
                patch: conflict.to_owned(),
                action: LoreFileAction::Keep,
            },
        ),
    }
}

/// A side of a three-way comparison.
#[derive(Clone, Copy, Debug)]
pub struct Diff3Side {
    pub branch: BranchId,
    pub revision: ContentHash,
}

/// The target side of a three-way diff: the target revision on its branch, or
/// where there is none, the current revision on the current branch.
pub fn file_diff3(target: Option<Diff3Side>, current: Diff3Side) -> (side: Diff3Side)
    ensures
        side == match target {
            Some(t) => t,
            None => current,
        },
{
    match target {
        Some(side) => side,
        None => current,
    }
}

/// The revision that a diff starts from or leads to: the named one, which must
/// be found, or the given default.
pub fn diff(revision: Option<&str>, resolved: Option<ContentHash>, default: ContentHash) -> (result:
    Result<ContentHash, DiffError>)
    ensures
        result is Ok <==> revision is None || resolved is Some,
        result matches Ok(hash) ==> hash == if revision is None {
            default
        } else {
            resolved->0
        },
        result matches Err(e) ==> e.kind == ErrorKind::RevisionNotFound && e.detail@
            == revision->0@,
{
    match revision {
        None => Ok(default),
        Some(name) => match resolved {
            Some(hash) => Ok(hash),
            None => Err(
                DiffError { kind: ErrorKind::RevisionNotFound, detail: name.to_owned() },
            ),
        },
    }
}

} // verus!
