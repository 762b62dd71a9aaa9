//! Text helpers shared by the other modules.

use vstd::prelude::*;
use vstd::string::*;
use vstd::utf8::*;

verus! {

/// `String::push` appends one character.
pub assume_specification[ std::string::String::push ](s: &mut std::string::String, c: char)
    ensures
        final(s)@ == old(s)@.push(c),
;

/// `core::str::from_utf8` succeeds exactly on valid UTF-8 and then returns the
/// text with those bytes.
#[verifier::external_body]
pub(crate) fn text_from_utf8(bytes: &[u8]) -> (text: Option<&str>)
    ensures
        text is Some <==> valid_utf8(bytes@),
        text matches Some(t) ==> t.spec_bytes() == bytes@,
{
    core::str::from_utf8(bytes).ok()
}

/// Compares two texts.
pub fn text_equal(a: &str, b: &str) -> (equal: bool)
    ensures
        equal == (a@ == b@),
{
    let equal = crate::types::bytes_equal(a.as_bytes(), b.as_bytes());
    proof {
        encode_utf8_decode_utf8(a@);
        encode_utf8_decode_utf8(b@);
    }
    equal
}

/// The characters of a text.
pub fn chars_of(text: &str) -> (chars: Vec<char>)
    ensures
        chars@ == text@,
{
    let mut chars: Vec<char> = Vec::new();
    for c in it: text.chars()
        invariant
            chars@ == it.seq().take(it.index() as int),
            it.seq() == text@,
    {
        chars.push(c);
        assert(it.seq().take(it.index() + 1) =~= it.seq().take(it.index() as int).push(c));
    }
    assert(chars@ =~= text@);
    chars
}

/// The text made of characters.
pub fn text_of(chars: &[char]) -> (text: String)
    ensures
        text@ == chars@,
{
    let mut text = String::new();
    let mut i: usize = 0;
    while i < chars.len()
        invariant
            i <= chars@.len(),
            text@ == chars@.take(i as int),
        decreases chars@.len() - i,
    {
        text.push(chars[i]);
        i = i + 1;
        assert(chars@.take(i as int) =~= chars@.take(i - 1).push(chars@[i - 1]));
    }
    assert(chars@.take(chars@.len() as int) =~= chars@);
    text
}

/// A text without its first bytes.
pub open spec fn text_after(text: Seq<char>, bytes: nat) -> Seq<char> {
    decode_utf8(encode_utf8(text).skip(bytes as int))
}

/// A text without its first bytes, which must end between two characters.
pub fn text_from(text: &str, bytes: usize) -> (rest: &str)
    requires
        is_char_boundary(encode_utf8(text@), bytes as int),
    ensures
        rest@ == text_after(text@, bytes as nat),
{
    let (_, rest) = text.split_at(bytes);
    proof {
        encode_utf8_valid_utf8(rest@);
        encode_utf8_decode_utf8(rest@);
        assert(rest.spec_bytes() =~= encode_utf8(text@).skip(bytes as int));
    }
    rest
}

/// Value of a run of decimal digits, most significant first.
pub open spec fn decimal_value(digits: Seq<char>) -> nat
    decreases digits.len(),
{
    if digits.len() == 0 {
        0
    } else {
        decimal_value(digits.drop_last()) * 10 + (digits.last() as nat - '0' as nat) as nat
    }
}

/// Tells whether a text is made of decimal digits, at least one.
pub open spec fn is_decimal(text: Seq<char>) -> bool {
    &&& text.len() > 0
    &&& forall|i: int| 0 <= i < text.len() ==> '0' <= #[trigger] text[i] <= '9'
}

/// A text without its leading plus sign, if it has one.
pub open spec fn without_plus(text: Seq<char>) -> Seq<char> {
    if text.len() > 0 && text[0] == '+' {
        text.drop_first()
    } else {
        text
    }
}

/// The number that a text writes: an optional plus sign and decimal digits,
/// within the range of `u64`.
pub open spec fn parsed_u64(text: Seq<char>) -> Option<u64> {
    let digits = without_plus(text);
    if is_decimal(digits) && decimal_value(digits) <= u64::MAX {
        Some(decimal_value(digits) as u64)
    } else {
        None
    }
}

/// `str::parse::<u64>` reads an optional plus sign followed by decimal digits
/// only, and fails on anything else and on a number that does not fit.
#[verifier::external_body]
pub(crate) fn parse_u64(text: &str) -> (number: Option<u64>)
    ensures
        number == parsed_u64(text@),
{
    text.parse::<u64>().ok()
}

/// The decimal digit of a number below ten.
pub open spec fn digit_char(d: nat) -> char {
    if d == 0 {
        '0'
    } else if d == 1 {
        '1'
    } else if d == 2 {
        '2'
    } else if d == 3 {
        '3'
    } else if d == 4 {
        '4'
    } else if d == 5 {
        '5'
    } else if d == 6 {
        '6'
    } else if d == 7 {
        '7'
    } else if d == 8 {
        '8'
    } else {
        '9'
    }
}

/// The decimal digits of a number, most significant first.
pub open spec fn decimal_digits(n: nat) -> Seq<char>
    decreases n,
{
    if n < 10 {
        seq![digit_char(n)]
    } else {
        decimal_digits(n / 10).push(digit_char(n % 10))
    }
}

fn digit(d: u64) -> (c: char)
    requires
        d < 10,
    ensures
        c == digit_char(d as nat),
{
    match d {
        0 => '0',
        1 => '1',
        2 => '2',
        3 => '3',
        4 => '4',
        5 => '5',
        6 => '6',
        7 => '7',
        8 => '8',
        _ => '9',
    }
}

/// Writes a number in decimal.
pub fn decimal(n: u64) -> (text: String)
    ensures
        text@ == decimal_digits(n as nat),
    decreases n,
{
    if n < 10 {
        let mut text = String::new();
        text.push(digit(n));
        assert(text@ =~= decimal_digits(n as nat));
        text
    } else {
        let mut text = decimal(n / 10);
        text.push(digit(n % 10));
        text
    }
}

/// Reading the decimal digits of a number gives the number back.
pub proof fn law_decimal_round_trip(n: u64)
    ensures
        parsed_u64(decimal_digits(n as nat)) == Some(n),
{
    lemma_decimal_digits(n as nat);
    let digits = decimal_digits(n as nat);
    assert('0' <= digits[0] <= '9');
}

pub proof fn lemma_decimal_digits(n: nat)
    ensures
        is_decimal(decimal_digits(n)),
        decimal_value(decimal_digits(n)) == n,
    decreases n,
{
    let digits = decimal_digits(n);
    if n < 10 {
        assert(digits.drop_last() =~= Seq::empty());
        assert(decimal_value(digits.drop_last()) == 0);
    } else {
        lemma_decimal_digits(n / 10);
        assert(digits.drop_last() =~= decimal_digits(n / 10));
    }
}

/// A text ends with another.
pub open spec fn ends_with(text: Seq<char>, suffix: Seq<char>) -> bool {
    &&& suffix.len() <= text.len()
    &&& text.skip(text.len() - suffix.len()) == suffix
}

/// A text holds another at a position.
pub open spec fn holds_at(text: Seq<char>, at: int, part: Seq<char>) -> bool {
    &&& 0 <= at
    &&& at + part.len() <= text.len()
    &&& text.subrange(at, at + part.len()) == part
}

/// Tells whether characters hold others at a position.
pub fn chars_hold_at(text: &[char], at: usize, part: &[char]) -> (yes: bool)
    requires
        at <= text@.len(),
    ensures
        yes == holds_at(text@, at as int, part@),
{
    if part.len() > text.len() - at {
        return false;
    }
    let mut i: usize = 0;
    while i < part.len()
        invariant
            i <= part@.len(),
            at + part@.len() <= text.len(),
            text.len() == text@.len(),
            forall|j: int| 0 <= j < i ==> text@[at + j] == #[trigger] part@[j],
        decreases part@.len() - i,
    {
        if text[at + i] != part[i] {
            proof {
                if text@.subrange(at as int, at + part@.len()) == part@ {
                    assert(text@.subrange(at as int, at + part@.len())[i as int] == part@[i as int]);
                }
            }
            return false;
        }
        i = i + 1;
    }
    assert(text@.subrange(at as int, at + part@.len()) =~= part@);
    true
}

/// A text holds another somewhere.
pub open spec fn has_part(text: Seq<char>, part: Seq<char>) -> bool {
    exists|at: int| holds_at(text, at, part)
}

/// Tells whether a text holds another somewhere.
pub fn text_has_part(text: &str, part: &str) -> (yes: bool)
    ensures
        yes == has_part(text@, part@),
{
    let chars = chars_of(text);
    let wanted = chars_of(part);
    let mut at: usize = 0;
    while at <= chars.len()
        invariant
            at <= chars@.len() + 1,
            chars.len() == chars@.len(),
            chars@ == text@,
            wanted@ == part@,
            forall|i: int| 0 <= i < at ==> !holds_at(text@, i, part@),
        decreases chars@.len() + 1 - at,
    {
        if chars_hold_at(chars.as_slice(), at, wanted.as_slice()) {
            return true;
        }
        if at == chars.len() {
            return false;
        }
        at = at + 1;
    }
    false
}

/// A text up to the first occurrence of a part, or all of it.
pub open spec fn before_part(text: Seq<char>, part: Seq<char>) -> Seq<char>
    decreases text.len(),
{
    if text.len() == 0 || holds_at(text, 0, part) {
        Seq::empty()
    } else {
        seq![text[0]] + before_part(text.drop_first(), part)
    }
}

/// The text up to the first occurrence of a part, or all of it.
pub fn text_before(text: &str, part: &str) -> (before: String)
    ensures
        before@ == before_part(text@, part@),
{
    let chars = chars_of(text);
    let wanted = chars_of(part);
    let mut at: usize = 0;
    assert(chars@.skip(0) =~= chars@);
    assert(chars@.take(0) + before_part(chars@, part@) =~= before_part(chars@, part@));
    while at < chars.len() && !chars_hold_at(chars.as_slice(), at, wanted.as_slice())
        invariant
            at <= chars@.len(),
            chars@ == text@,
            wanted@ == part@,
            before_part(text@, part@) == text@.take(at as int) + before_part(
                text@.skip(at as int),
                part@,
            ),
        decreases chars@.len() - at,
    {
        proof {
            let rest = text@.skip(at as int);
            lemma_holds_behind(text@, at as int, part@);
            assert(rest.drop_first() =~= text@.skip(at + 1));
            assert(text@.take(at as int) + (seq![rest[0]] + before_part(rest.drop_first(), part@))
                =~= text@.take(at + 1) + before_part(rest.drop_first(), part@));
        }
        at = at + 1;
    }
    proof {
        lemma_holds_behind(text@, at as int, part@);
        assert(before_part(text@.skip(at as int), part@) =~= Seq::<char>::empty());
        assert(text@.take(at as int) + Seq::<char>::empty() =~= text@.take(at as int));
    }
    let before = text_of(vstd::slice::slice_subrange(chars.as_slice(), 0, at));
    assert(before@ =~= text@.take(at as int));
    before
}

proof fn lemma_holds_behind(text: Seq<char>, at: int, part: Seq<char>)
    requires
        0 <= at <= text.len(),
    ensures
        holds_at(text.skip(at), 0, part) == holds_at(text, at, part),
{
    if at + part.len() <= text.len() {
        assert(text.skip(at).subrange(0, part.len() as int) =~= text.subrange(
            at,
            at + part.len(),
        ));
    }
}

/// The text before a part followed by the part is itself found, where the part
/// cannot begin inside it.
pub proof fn law_prefix_is_found(prefix: Seq<char>, part: Seq<char>, rest: Seq<char>)
    requires
        part.len() > 0,
        forall|i: int| 0 <= i < prefix.len() ==> prefix[i] != part[0],
    ensures
        before_part(prefix + part + rest, part) == prefix,
    decreases prefix.len(),
{
    let text = prefix + part + rest;
    if prefix.len() == 0 {
        assert(text.subrange(0, part.len() as int) =~= part);
    } else {
        assert(text[0] == prefix[0]);
        assert(!holds_at(text, 0, part)) by {
            if holds_at(text, 0, part) {
                assert(text.subrange(0, part.len() as int)[0] == part[0]);
            }
        }
        law_prefix_is_found(prefix.drop_first(), part, rest);
        assert(text.drop_first() =~= prefix.drop_first() + part + rest);
        assert(seq![prefix[0]] + prefix.drop_first() =~= prefix);
    }
}

/// Where the line that holds a position ends: behind the next newline, or at
/// the end of the text.
pub open spec fn line_end(text: Seq<char>, at: int) -> int
    decreases text.len() - at,
{
    if at >= text.len() {
        text.len() as int
    } else if text[at] == '\n' {
        at + 1
    } else {
        line_end(text, at + 1)
    }
}

/// The lines of a text from a position on, each with its newline.
pub open spec fn lines_from(text: Seq<char>, at: int) -> Seq<Seq<char>>
    decreases text.len() - at,
    via lines_from_decreases
{
    if at < 0 || at >= text.len() {
        Seq::empty()
    } else {
        seq![text.subrange(at, line_end(text, at))] + lines_from(text, line_end(text, at))
    }
}

#[via_fn]
proof fn lines_from_decreases(text: Seq<char>, at: int) {
    if 0 <= at < text.len() {
        lemma_line_end(text, at);
    }
}

proof fn lemma_line_end(text: Seq<char>, at: int)
    requires
        0 <= at < text.len(),
    ensures
        at < line_end(text, at) <= text.len(),
        forall|i: int| at <= i < line_end(text, at) - 1 ==> text[i] != '\n',
        line_end(text, at) < text.len() ==> text[line_end(text, at) - 1] == '\n',
    decreases text.len() - at,
{
    reveal_with_fuel(line_end, 2);
    if text[at] != '\n' && at + 1 < text.len() {
        lemma_line_end(text, at + 1);
    }
}

/// The lines of a text, each with its newline.
pub open spec fn lines_of(text: Seq<char>) -> Seq<Seq<char>> {
    lines_from(text, 0)
}

/// The texts of a list of strings.
pub open spec fn views(texts: Seq<String>) -> Seq<Seq<char>> {
    Seq::new(texts.len(), |i: int| texts[i]@)
}

/// Splits a text behind each newline.
pub fn split_lines(text: &str) -> (lines: Vec<String>)
    ensures
        views(lines@) == lines_of(text@),
{
    let chars = chars_of(text);
    let mut lines: Vec<String> = Vec::new();
    let mut at: usize = 0;
    assert(views(lines@) + lines_of(text@) =~= lines_of(text@));
    while at < chars.len()
        invariant
            at <= chars@.len(),
            chars@ == text@,
            views(lines@) + lines_from(text@, at as int) == lines_of(text@),
        decreases chars@.len() - at,
    {
        let mut end: usize = at;
        proof {
            lemma_line_end(text@, at as int);
        }
        let ghost line = line_end(text@, at as int);
        while end < chars.len() && chars[end] != '\n'
            invariant
                at <= end <= chars@.len(),
                chars@ == text@,
                line == line_end(text@, end as int),
            decreases chars@.len() - end,
        {
            end = end + 1;
        }
        if end < chars.len() {
            end = end + 1;
        }
        assert(end == line);
        let ghost before = views(lines@);
        lines.push(text_of(vstd::slice::slice_subrange(chars.as_slice(), at, end)));
        proof {
            let piece = text@.subrange(at as int, line);
            assert(views(lines@) =~= before.push(piece));
            assert(before + (seq![piece] + lines_from(text@, line)) =~= views(lines@) + lines_from(
                text@,
                line,
            ));
        }
        at = end;
    }
    assert(views(lines@) + Seq::<Seq<char>>::empty() =~= views(lines@));
    lines
}

/// The concatenation of texts.
pub open spec fn concat(texts: Seq<Seq<char>>) -> Seq<char>
    decreases texts.len(),
{
    if texts.len() == 0 {
        Seq::empty()
    } else {
        concat(texts.drop_last()) + texts.last()
    }
}

proof fn lemma_concat_front(first: Seq<char>, rest: Seq<Seq<char>>)
    ensures
        concat(seq![first] + rest) == first + concat(rest),
    decreases rest.len(),
{
    let all = seq![first] + rest;
    if rest.len() == 0 {
        reveal_with_fuel(concat, 2);
        assert(all.drop_last() =~= Seq::empty());
        assert(concat(all) =~= first + concat(rest));
    } else {
        assert(all.drop_last() =~= seq![first] + rest.drop_last());
        lemma_concat_front(first, rest.drop_last());
        assert(concat(all) =~= first + concat(rest));
    }
}

/// The lines of a text put together are the text.
pub proof fn law_lines_make_the_text(text: Seq<char>, at: int)
    requires
        0 <= at <= text.len(),
    ensures
        concat(lines_from(text, at)) == text.skip(at),
    decreases text.len() - at,
{
    if at < text.len() {
        lemma_line_end(text, at);
        let end = line_end(text, at);
        law_lines_make_the_text(text, end);
        lemma_concat_front(text.subrange(at, end), lines_from(text, end));
        assert(text.subrange(at, end) + text.skip(end) =~= text.skip(at));
    } else {
        assert(concat(lines_from(text, at)) =~= text.skip(at));
    }
}

/// Tells whether a list holds a text.
pub fn list_contains(list: &Vec<String>, text: &str) -> (yes: bool)
    ensures
        yes == views(list@).contains(text@),
{
    let mut i: usize = 0;
    while i < list.len()
        invariant
            i <= list@.len(),
            forall|j: int| 0 <= j < i ==> (#[trigger] list@[j])@ != text@,
        decreases list@.len() - i,
    {
        if text_equal(list[i].as_str(), text) {
            assert(views(list@)[i as int] == text@);
            return true;
        }
        i = i + 1;
    }
    proof {
        if views(list@).contains(text@) {
            let j = views(list@).index_of(text@);
            assert(list@[j]@ == text@);
        }
    }
    false
}

/// The number of newlines of a text.
pub open spec fn newlines(text: Seq<char>) -> nat
    decreases text.len(),
{
    if text.len() == 0 {
        0
    } else {
        newlines(text.drop_last()) + if text.last() == '\n' {
            1nat
        } else {
            0nat
        }
    }
}

/// A text ends with a line that has no newline.
pub open spec fn is_unterminated(text: Seq<char>) -> bool {
    text.len() > 0 && text.last() != '\n'
}

/// The newlines of two texts add up.
pub proof fn lemma_newlines_concat(a: Seq<char>, b: Seq<char>)
    ensures
        newlines(a + b) == newlines(a) + newlines(b),
    decreases b.len(),
{
    if b.len() == 0 {
        assert(a + b =~= a);
    } else {
        assert((a + b).drop_last() =~= a + b.drop_last());
        lemma_newlines_concat(a, b.drop_last());
    }
}

proof fn lemma_no_newlines(text: Seq<char>)
    requires
        forall|i: int| 0 <= i < text.len() ==> text[i] != '\n',
    ensures
        newlines(text) == 0,
    decreases text.len(),
{
    if text.len() > 0 {
        lemma_no_newlines(text.drop_last());
    }
}

/// A text has as many lines as newlines, and one more where it does not end
/// with a newline.
pub proof fn law_line_count(text: Seq<char>, at: int)
    requires
        0 <= at <= text.len(),
    ensures
        lines_from(text, at).len() == newlines(text.skip(at)) + if is_unterminated(text.skip(at)) {
            1nat
        } else {
            0nat
        },
    decreases text.len() - at,
{
    if at < text.len() {
        lemma_line_end(text, at);
        let end = line_end(text, at);
        law_line_count(text, end);
        let line = text.subrange(at, end);
        assert(text.skip(at) =~= line + text.skip(end));
        lemma_newlines_concat(line, text.skip(end));
        assert(line.drop_last() =~= text.subrange(at, end - 1));
        lemma_no_newlines(line.drop_last());
        if end < text.len() {
            assert(text.skip(at).last() == text.skip(end).last());
        } else {
            assert(text.skip(end) =~= Seq::empty());
            assert(text.skip(at) =~= line);
        }
    } else {
        assert(text.skip(at) =~= Seq::empty());
    }
}

/// Every line of a text has text, has no newline but at its end, and ends with
/// one unless it is the last.
pub proof fn law_lines_are_lines(text: Seq<char>, at: int, i: int)
    requires
        0 <= at <= text.len(),
        0 <= i < lines_from(text, at).len(),
    ensures
        lines_from(text, at)[i].len() > 0,
        newlines(lines_from(text, at)[i].drop_last()) == 0,
        i < lines_from(text, at).len() - 1 ==> lines_from(text, at)[i].last() == '\n',
    decreases text.len() - at,
{
    if at < text.len() {
        lemma_line_end(text, at);
        let end = line_end(text, at);
        let line = text.subrange(at, end);
        let rest = lines_from(text, end);
        assert(lines_from(text, at) == seq![line] + rest);
        if i == 0 {
            lemma_no_newlines(line.drop_last());
            assert(lines_from(text, at)[0] == line);
        } else {
            law_lines_are_lines(text, end, i - 1);
            assert(lines_from(text, at)[i] == rest[i - 1]);
        }
    }
}

proof fn lemma_line_end_in_front(a: Seq<char>, b: Seq<char>, at: int)
    requires
        0 <= at < a.len(),
        a.last() == '\n',
    ensures
        line_end(a + b, at) == line_end(a, at),
    decreases a.len() - at,
{
    reveal_with_fuel(line_end, 2);
    assert((a + b)[at] == a[at]);
    if a[at] != '\n' {
        lemma_line_end_in_front(a, b, at + 1);
    }
}

proof fn lemma_line_end_behind(a: Seq<char>, b: Seq<char>, at: int)
    requires
        0 <= at < b.len(),
    ensures
        line_end(a + b, a.len() + at) == a.len() + line_end(b, at),
    decreases b.len() - at,
{
    reveal_with_fuel(line_end, 2);
    assert((a + b)[a.len() + at] == b[at]);
    if b[at] != '\n' && at + 1 < b.len() {
        lemma_line_end_behind(a, b, at + 1);
    }
}

proof fn lemma_lines_behind(a: Seq<char>, b: Seq<char>, at: int)
    requires
        0 <= at <= b.len(),
    ensures
        lines_from(a + b, a.len() + at) == lines_from(b, at),
    decreases b.len() - at,
{
    if at < b.len() {
        lemma_line_end(b, at);
        lemma_line_end_behind(a, b, at);
        let end = line_end(b, at);
        lemma_lines_behind(a, b, end);
        assert((a + b).subrange(a.len() + at, a.len() + end) =~= b.subrange(at, end));
    }
}

proof fn lemma_lines_in_front(a: Seq<char>, b: Seq<char>, at: int)
    requires
        0 <= at <= a.len(),
        a.len() > 0 ==> a.last() == '\n',
    ensures
        lines_from(a + b, at) == lines_from(a, at) + lines_from(b, 0),
    decreases a.len() - at,
{
    if at < a.len() {
        lemma_line_end(a, at);
        lemma_line_end_in_front(a, b, at);
        let end = line_end(a, at);
        lemma_lines_in_front(a, b, end);
        assert((a + b).subrange(at, end) =~= a.subrange(at, end));
        let line = seq![a.subrange(at, end)];
        assert(line + (lines_from(a, end) + lines_from(b, 0)) =~= (line + lines_from(a, end))
            + lines_from(b, 0));
    } else {
        lemma_lines_behind(a, b, 0);
        assert(lines_from(a, at) + lines_from(b, 0) =~= lines_from(b, 0));
    }
}

/// The lines of a text that ends a line, and of what follows it, are the lines of
/// both.
pub proof fn law_lines_follow_each_other(a: Seq<char>, b: Seq<char>)
    requires
        a.len() > 0 ==> a.last() == '\n',
    ensures
        lines_of(a + b) == lines_of(a) + lines_of(b),
{
    lemma_lines_in_front(a, b, 0);
}

/// A text that ends with its only newline is one line.
pub proof fn law_a_line_is_one_line(line: Seq<char>)
    requires
        line.len() > 0,
        line.last() == '\n',
        newlines(line.drop_last()) == 0,
    ensures
        lines_of(line) == seq![line],
{
    lemma_line_end_of_line(line, 0);
    assert(line.subrange(0, line.len() as int) =~= line);
    assert(lines_from(line, line.len() as int) =~= Seq::empty());
    assert(lines_of(line) =~= seq![line]);
}

proof fn lemma_line_end_of_line(line: Seq<char>, at: int)
    requires
        0 <= at < line.len(),
        line.last() == '\n',
        newlines(line.drop_last()) == 0,
    ensures
        line_end(line, at) == line.len(),
    decreases line.len() - at,
{
    reveal_with_fuel(line_end, 2);
    if at + 1 < line.len() {
        lemma_none_is_newline(line.drop_last(), at);
        assert(line.drop_last()[at] == line[at]);
        lemma_line_end_of_line(line, at + 1);
    }
}

proof fn lemma_none_is_newline(text: Seq<char>, at: int)
    requires
        newlines(text) == 0,
        0 <= at < text.len(),
    ensures
        text[at] != '\n',
    decreases text.len(),
{
    if at < text.len() - 1 {
        lemma_none_is_newline(text.drop_last(), at);
    }
}

/// Texts put together one after the other are those in front, followed by the rest.
pub proof fn law_concat_adds_up(a: Seq<Seq<char>>, b: Seq<Seq<char>>)
    ensures
        concat(a + b) == concat(a) + concat(b),
    decreases b.len(),
{
    if b.len() == 0 {
        assert(a + b =~= a);
        assert(concat(a) + concat(b) =~= concat(a));
    } else {
        law_concat_adds_up(a, b.drop_last());
        assert((a + b).drop_last() =~= a + b.drop_last());
        assert(concat(a + b) =~= concat(a) + concat(b));
    }
}

proof fn lemma_encode_adds_up(a: Seq<char>, b: Seq<char>)
    ensures
        encode_utf8(a + b) == encode_utf8(a) + encode_utf8(b),
    decreases a.len(),
{
    if a.len() == 0 {
        assert(a + b =~= b);
        assert(encode_utf8(a) =~= Seq::empty());
        assert(encode_utf8(a) + encode_utf8(b) =~= encode_utf8(b));
    } else {
        lemma_encode_adds_up(a.drop_first(), b);
        assert((a + b).drop_first() =~= a.drop_first() + b);
        assert((a + b)[0] == a[0]);
        assert(encode_utf8(a + b) =~= encode_utf8(a) + encode_utf8(b));
    }
}

/// What is left of a text without the bytes of its front is the rest.
pub proof fn law_text_after_is_the_rest(a: Seq<char>, b: Seq<char>)
    ensures
        text_after(a + b, encode_utf8(a).len()) == b,
{
    lemma_encode_adds_up(a, b);
    assert(encode_utf8(a + b).skip(encode_utf8(a).len() as int) =~= encode_utf8(b));
    encode_utf8_decode_utf8(b);
}

/// A text has more bytes than its front, unless nothing follows the front.
pub proof fn law_longer_text_has_more_bytes(a: Seq<char>, b: Seq<char>)
    ensures
        encode_utf8(a + b).len() > encode_utf8(a).len() <==> b.len() > 0,
{
    lemma_encode_adds_up(a, b);
    if b.len() > 0 {
        assert(encode_scalar(b[0] as u32).len() > 0);
    }
}

} // verus!
