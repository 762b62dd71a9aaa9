//! Repository relative paths, and paths that a command could not act on.

use vstd::prelude::*;
use vstd::string::*;

use crate::text::chars_of;
use crate::text::text_of;

verus! {

/// Event data naming a path that was ignored or could not be resolved.
#[derive(Debug)]
pub struct LorePathIgnoreEventData {
    /// The ignored path
    pub path: String,
}

/// The event that reports an ignored path.
pub fn emit_path_ignore(path: &str) -> (event: LorePathIgnoreEventData)
    ensures
        event.path@ == path@,
{
    LorePathIgnoreEventData { path: path.to_owned() }
}

/// A path without its leading separator, if it has one.
pub open spec fn without_leading_slash(path: Seq<char>) -> Seq<char> {
    if path.len() > 0 && path[0] == '/' {
        path.drop_first()
    } else {
        path
    }
}

/// A base path followed by what lies below it.
pub open spec fn joined(base: Seq<char>, rest: Seq<char>) -> Seq<char> {
    let below = without_leading_slash(rest);
    if base.len() == 0 {
        below
    } else if below.len() == 0 {
        base
    } else {
        base.push('/') + below
    }
}

/// Joins a base path with what lies below it.
pub fn join(base: &str, rest: &str) -> (path: String)
    ensures
        path@ == joined(base@, rest@),
{
    let chars = chars_of(rest);
    let start: usize = if chars.len() > 0 && chars[0] == '/' {
        1
    } else {
        0
    };
    let below = text_of(vstd::slice::slice_subrange(chars.as_slice(), start, chars.len()));
    assert(below@ =~= without_leading_slash(rest@));
    if base.is_empty() {
        return below;
    }
    if below.as_str().is_empty() {
        return base.to_owned();
    }
    let mut path = base.to_owned();
    path.push('/');
    path.append(below.as_str());
    path
}

/// A path is joined from its parts whichever are joined first, and joining nothing in
/// front or behind changes nothing.
pub proof fn law_join_is_associative(a: Seq<char>, b: Seq<char>, c: Seq<char>)
    requires
        b.len() > 0 ==> b[0] != '/',
        c.len() > 0 ==> c[0] != '/',
    ensures
        joined(joined(a, b), c) == joined(a, joined(b, c)),
        joined(Seq::empty(), b) == b,
        joined(a, Seq::empty()) == a,
{
    if a.len() > 0 && b.len() > 0 && c.len() > 0 {
        assert((a.push('/') + b).push('/') + c =~= a.push('/') + (b.push('/') + c));
        assert((b.push('/') + c)[0] == b[0]);
    }
}

/// A joined path leads from its base: the base, one separator, and what lies below,
/// with a leading separator or without.
pub proof fn law_join_goes_below(base: Seq<char>, rest: Seq<char>)
    requires
        base.len() > 0,
        rest.len() > 0,
        rest[0] != '/',
    ensures
        joined(base, rest).take(base.len() as int) == base,
        joined(base, rest)[base.len() as int] == '/',
        joined(base, rest).skip(base.len() as int + 1) == rest,
        joined(base, seq!['/'] + rest) == joined(base, rest),
{
    assert(joined(base, rest).take(base.len() as int) =~= base);
    assert(joined(base, rest).skip(base.len() as int + 1) =~= rest);
    assert((seq!['/'] + rest).drop_first() =~= rest);
}

} // verus!
