//! The history of a file.

use vstd::prelude::*;
use vstd::string::*;

use crate::change::FileAction;
use crate::change::LoreFileAction;
use crate::errors::ErrorKind;
use crate::errors::LoreError;
use crate::node::NodeID;
use crate::node::INVALID_NODE;
use crate::types::Address;
use crate::types::BranchId;
use crate::types::ContentHash;
use crate::types::Context;
use crate::types::RepositoryId;

verus! {

/// Data for the event describing one entry in a file's history.
#[derive(Debug)]
pub struct LoreFileHistoryEventData {
    /// Path of the file.
    pub path: String,
    /// Identifier of the repository.
    pub repository: RepositoryId,
    /// Revision this entry belongs to.
    pub revision: ContentHash,
    /// Sequential number of the revision.
    pub revision_number: u64,
    /// Parent revisions of this revision.
    pub parent: [ContentHash; 2],
    /// Address of the file content at this revision.
    pub address: Address,
    /// Size of the file in bytes at this revision.
    pub size: u64,
    /// Action applied to the file at this revision.
    pub action: LoreFileAction,
}

/// A revision of the history.
#[derive(Clone, Copy, Debug)]
pub struct HistoryRevision {
    pub revision: ContentHash,
    pub number: u64,
    pub parent_self: ContentHash,
    pub parent_other: ContentHash,
    /// Hash of the revision metadata, zero when there are none.
    pub metadata: ContentHash,
}

/// An event describes a file at a revision. An action that is not known counts
/// as none.
pub open spec fn describes(
    event: LoreFileHistoryEventData,
    path: Seq<char>,
    repository: RepositoryId,
    revision: HistoryRevision,
    address: Address,
    size: u64,
    action: Option<FileAction>,
) -> bool {
    &&& event.path@ == path
    &&& event.repository == repository
    &&& event.revision == revision.revision
    &&& event.revision_number == revision.number
    &&& event.parent@ == seq![revision.parent_self, revision.parent_other]
    &&& event.address == address
    &&& event.size == size
    &&& event.action == LoreFileAction::spec_of(
        match action {
            Some(known) => known,
            None => FileAction::Keep,
        },
    )
}

impl LoreFileHistoryEventData {
    /// The event for a file at a revision.
    pub fn new(
        path: String,
        repository: RepositoryId,
        revision: HistoryRevision,
        address: Address,
        size: u64,
        action: Option<FileAction>,
    ) -> (event: LoreFileHistoryEventData)
        ensures
            describes(event, path@, repository, revision, address, size, action),
    {
        let file_action = match action {
            Some(known) => known,
            None => FileAction::Keep,
        };
        let parent = [revision.parent_self, revision.parent_other];
        assert(parent@ =~= seq![revision.parent_self, revision.parent_other]);
        LoreFileHistoryEventData {
            path,
            repository,
            revision: revision.revision,
            revision_number: revision.number,
            parent,
            address,
            size,
            action: LoreFileAction::of(file_action),
        }
    }
}

/// Failure of a file history.
#[derive(Debug)]
pub struct FileHistoryError {
    pub kind: ErrorKind,
    pub detail: String,
}

impl FileHistoryError {
    /// The code reported for each category.
    pub open spec fn spec_translated(kind: ErrorKind) -> LoreError {
        match kind {
            ErrorKind::InvalidArguments | ErrorKind::InvalidPath => LoreError::InvalidArguments,
            ErrorKind::FileNotFound => LoreError::FileNotFound,
            ErrorKind::RevisionNotFound | ErrorKind::BranchNotFound | ErrorKind::NotFound => {
                LoreError::NotFound
            },
            _ => LoreError::Internal,
        }
    }

    /// The code reported to callers of the engine.
    pub fn translated(&self) -> (code: LoreError)
        ensures
            code == FileHistoryError::spec_translated(self.kind),
    {
        match self.kind {
            ErrorKind::InvalidArguments | ErrorKind::InvalidPath => LoreError::InvalidArguments,
            ErrorKind::FileNotFound => LoreError::FileNotFound,
            ErrorKind::RevisionNotFound | ErrorKind::BranchNotFound | ErrorKind::NotFound => {
                LoreError::NotFound
            },
            _ => LoreError::Internal,
        }
    }

    /// The text of the failure.
    pub fn inner(&self) -> (text: String)
        ensures
            text@ == self.detail@,
    {
        self.detail.clone()
    }

    fn of(kind: ErrorKind, detail: &str) -> (error: FileHistoryError)
        ensures
            error.kind == kind,
            error.detail@ == detail@,
    {
        FileHistoryError { kind, detail: detail.to_owned() }
    }
}

/// Options of a file history.
#[derive(Debug)]
pub struct HistoryOptions {
    /// Optional revision specifier
    pub revision: Option<String>,
    /// Show revisions on specific branch
    pub branch: Option<String>,
    /// Number of revisions to list
    pub length: u32,
    /// Number of revisions to search initially
    pub depth: u32,
}

// ---------------------------------------------------------------------------
// One entry
// ---------------------------------------------------------------------------

/// The node of a file at a revision.
#[derive(Debug)]
pub struct HistoryNode {
    pub path: String,
    pub address: Address,
    pub size: u64,
    /// The action recorded with the file, where it is a known one.
    pub action: Option<FileAction>,
    /// Hash of the file metadata, zero when there are none.
    pub metadata: ContentHash,
}

/// Which action an entry shows.
#[derive(Clone, Copy, Debug, PartialEq, Eq, Structural)]
pub enum EntryAction {
    /// The one recorded with the file.
    Recorded,
    /// This one, or none where it is not known.
    Given(Option<FileAction>),
}

/// An entry of a file's history, and which metadata follow it.
#[derive(Debug)]
pub struct HistoryEntry {
    pub event: LoreFileHistoryEventData,
    pub revision_metadata: bool,
    pub file_metadata: bool,
}

/// The entry of a file at a revision. A file without a node was deleted there.
pub fn history_state(
    repository: RepositoryId,
    revision: HistoryRevision,
    node: Option<&HistoryNode>,
    action: EntryAction,
) -> (entry: HistoryEntry)
    ensures
        ({
            let recorded = match node {
                Some(n) => n.action,
                None => Some(FileAction::Delete),
            };
            let shown = match action {
                EntryAction::Recorded => recorded,
                EntryAction::Given(given) => given,
            };
            &&& match node {
                Some(n) => describes(
                    entry.event,
                    n.path@,
                    repository,
                    revision,
                    n.address,
                    n.size,
                    shown,
                ),
                None => describes(
                    entry.event,
                    Seq::empty(),
                    repository,
                    revision,
                    entry.event.address,
                    0,
                    shown,
                ) && entry.event.address.hash.is_zero() && entry.event.address.context.is_zero(),
            }
            &&& entry.revision_metadata == !revision.metadata.is_zero()
            &&& entry.file_metadata == (node is Some && !node->0.metadata.is_zero())
        }),
{
    let recorded = match node {
        Some(n) => n.action,
        None => Some(FileAction::Delete),
    };
    let shown = match action {
        EntryAction::Recorded => recorded,
        EntryAction::Given(given) => given,
    };
    let event = match node {
        Some(n) => LoreFileHistoryEventData::new(
            n.path.clone(),
            repository,
            revision,
            n.address,
            n.size,
            shown,
        ),
        None => LoreFileHistoryEventData::new(
            String::new(),
            repository,
            revision,
            Address { hash: ContentHash::default(), context: Context::default() },
            0,
            shown,
        ),
    };
    let file_metadata = match node {
        Some(n) => !n.metadata.is_zero(),
        None => false,
    };
    HistoryEntry { event, revision_metadata: !revision.metadata.is_zero(), file_metadata }
}

// ---------------------------------------------------------------------------
// Where the history starts
// ---------------------------------------------------------------------------

/// What the start of a history is looked up by.
#[derive(Debug)]
pub enum StartLookup {
    /// This revision.
    Revision(String),
    /// The latest revision of this branch.
    Branch(String),
    /// The latest revision of the current branch.
    CurrentBranch,
}

/// What the start of a history is looked up by. A revision and a branch cannot
/// both be given.
pub fn start_lookup(options: &HistoryOptions) -> (result: Result<StartLookup, FileHistoryError>)
    ensures
        result is Err <==> options.revision is Some && options.branch is Some,
        result matches Ok(lookup) ==> match lookup {
            StartLookup::Revision(revision) => options.revision is Some && revision@
                == options.revision->0@,
            StartLookup::Branch(branch) => options.revision is None && options.branch is Some
                && branch@ == options.branch->0@,
            StartLookup::CurrentBranch => options.revision is None && options.branch is None,
        },
        result matches Err(e) ==> e.kind == ErrorKind::Internal && e.detail@ == "Invalid options"@,
{
    match &options.revision {
        Some(revision) => {
            if options.branch.is_some() {
                return Err(FileHistoryError::of(ErrorKind::Internal, "Invalid options"));
            }
            Ok(StartLookup::Revision(revision.clone()))
        },
        None => match &options.branch {
            Some(branch) => Ok(StartLookup::Branch(branch.clone())),
            None => Ok(StartLookup::CurrentBranch),
        },
    }
}

/// The revision that was named, which must be found.
pub fn start_revision(name: &str, resolved: Option<ContentHash>) -> (result: Result<
    ContentHash,
    FileHistoryError,
>)
    ensures
        result is Ok <==> resolved is Some,
        result matches Ok(revision) ==> resolved == Some(revision),
        result matches Err(e) ==> e.kind == ErrorKind::RevisionNotFound && e.detail@ == name@,
{
    match resolved {
        Some(revision) => Ok(revision),
        None => Err(FileHistoryError::of(ErrorKind::RevisionNotFound, name)),
    }
}

/// The branch that was named, which must be found.
pub fn start_branch(name: &str, resolved: Option<BranchId>) -> (result: Result<
    BranchId,
    FileHistoryError,
>)
    ensures
        result is Ok <==> resolved is Some,
        result matches Ok(branch) ==> resolved == Some(branch),
        result matches Err(e) ==> e.kind == ErrorKind::BranchNotFound && e.detail@ == name@,
{
    match resolved {
        Some(branch) => Ok(branch),
        None => Err(FileHistoryError::of(ErrorKind::BranchNotFound, name)),
    }
}

/// The branch that a history is of where none is named: the current one, or the
/// default one.
pub fn current_or_default(current: BranchId, default: BranchId) -> (branch: BranchId)
    ensures
        branch == if current.is_zero() {
            default
        } else {
            current
        },
{
    if current.is_zero() {
        default
    } else {
        current
    }
}

/// Which side of a branch a command looks at.
#[derive(Clone, Copy, Debug, PartialEq, Eq, Structural)]
pub enum SearchLocation {
    Remote,
    Local,
    Any,
}

/// A step of choosing between the two sides of a branch.
#[derive(Clone, Copy, Debug)]
pub enum StartStep {
    /// The history starts here.
    Start(ContentHash),
    /// The numbers of both sides are needed.
    Compare,
    /// This revision of the remote history is needed.
    Load(ContentHash),
}

/// Starts to choose between the two sides of a branch, which are zero where there
/// is none.
pub fn find_start_revision(location: SearchLocation, remote: ContentHash, local: ContentHash) -> (step:
    StartStep)
    ensures
        step == match location {
            SearchLocation::Remote => StartStep::Start(remote),
            SearchLocation::Local => StartStep::Start(local),
            SearchLocation::Any => if remote.is_zero() {
                StartStep::Start(local)
            } else if remote == local {
                StartStep::Start(remote)
            } else {
                StartStep::Compare
            },
        },
{
    match location {
        SearchLocation::Remote => StartStep::Start(remote),
        SearchLocation::Local => StartStep::Start(local),
        SearchLocation::Any => if remote.is_zero() {
            StartStep::Start(local)
        } else if remote == local {
            StartStep::Start(remote)
        } else {
            StartStep::Compare
        },
    }
}

/// The two sides of a branch.
#[derive(Clone, Copy, Debug)]
pub struct BranchSides {
    pub remote: ContentHash,
    pub local: ContentHash,
    pub local_number: u64,
}

/// What one revision of the remote history tells. Where its number lies below
/// that of the local side, the local side is not part of the remote history: it is
/// ahead, or the sides diverged, and the local one is shown until it is pushed.
/// Where its parent is the local side, the remote side is ahead.
pub open spec fn remote_step(sides: BranchSides, number: u64, parent: ContentHash) -> StartStep {
    if number < sides.local_number {
        StartStep::Start(sides.local)
    } else if parent == sides.local {
        StartStep::Start(sides.remote)
    } else {
        StartStep::Load(parent)
    }
}

/// Follows the remote history, from its latest revision down, until it tells
/// where to start.
pub fn follow_remote(sides: &BranchSides, number: u64, parent: ContentHash) -> (step: StartStep)
    ensures
        step == remote_step(*sides, number, parent),
{
    if number < sides.local_number {
        return StartStep::Start(sides.local);
    }
    if parent == sides.local {
        StartStep::Start(sides.remote)
    } else {
        StartStep::Load(parent)
    }
}

/// Where a history starts, given the numbers and parents of the remote history
/// from the latest revision down.
pub open spec fn start_of(sides: BranchSides, history: Seq<(u64, ContentHash)>) -> Option<ContentHash>
    decreases history.len(),
{
    if history.len() == 0 {
        None
    } else {
        match remote_step(sides, history[0].0, history[0].1) {
            StartStep::Start(start) => Some(start),
            _ => start_of(sides, history.drop_first()),
        }
    }
}

/// A history starts at one of the two sides, and at the remote one only where
/// its history holds the local one.
pub proof fn law_history_starts_at_a_side(sides: BranchSides, history: Seq<(u64, ContentHash)>)
    ensures
        start_of(sides, history) matches Some(start) ==> {
            ||| start == sides.local
            ||| start == sides.remote && exists|i: int|
                0 <= i < history.len() && (#[trigger] history[i]).1 == sides.local
        },
    decreases history.len(),
{
    if history.len() > 0 && history[0].0 >= sides.local_number && history[0].1 != sides.local {
        let rest = history.drop_first();
        law_history_starts_at_a_side(sides, rest);
        if let Some(start) = start_of(sides, rest) {
            if start != sides.local {
                let i = choose|i: int|
                    0 <= i < rest.len() && (#[trigger] rest[i]).1 == sides.local;
                assert(history[i + 1] == rest[i]);
            }
        }
    }
}

/// A remote history that holds the local side, with no revision before that lies
/// below it, starts at the remote side: the remote one is ahead.
pub proof fn law_history_starts_at_a_remote_that_is_ahead(
    sides: BranchSides,
    history: Seq<(u64, ContentHash)>,
    at: int,
)
    requires
        0 <= at < history.len(),
        history[at].1 == sides.local,
        forall|i: int|
            0 <= i <= at ==> (#[trigger] history[i]).0 >= sides.local_number,
    ensures
        start_of(sides, history) == Some(sides.remote),
    decreases at,
{
    if at > 0 && history[0].1 != sides.local {
        let rest = history.drop_first();
        assert forall|i: int| 0 <= i <= at - 1 implies (#[trigger] rest[i]).0
            >= sides.local_number by {
            assert(rest[i] == history[i + 1]);
        }
        assert(rest[at - 1] == history[at]);
        law_history_starts_at_a_remote_that_is_ahead(sides, rest, at - 1);
    }
    assert(history[0].0 >= sides.local_number);
}

/// A remote history that falls below the local side without having met it starts at
/// the local side: it is ahead, or the sides diverged.
pub proof fn law_history_starts_at_a_diverged_local(
    sides: BranchSides,
    history: Seq<(u64, ContentHash)>,
    at: int,
)
    requires
        0 <= at < history.len(),
        history[at].0 < sides.local_number,
        forall|i: int| 0 <= i < at ==> (#[trigger] history[i]).1 != sides.local,
    ensures
        start_of(sides, history) == Some(sides.local),
    decreases at,
{
    if at > 0 {
        assert(history[0].1 != sides.local);
        if history[0].0 >= sides.local_number {
            let rest = history.drop_first();
            assert forall|i: int| 0 <= i < at - 1 implies (#[trigger] rest[i]).1
                != sides.local by {
                assert(rest[i] == history[i + 1]);
            }
            assert(rest[at - 1] == history[at]);
            law_history_starts_at_a_diverged_local(sides, rest, at - 1);
        }
    }
}

// ---------------------------------------------------------------------------
// A file that was deleted
// ---------------------------------------------------------------------------

/// Number of revisions searched for a deleted file where none is given.
pub const DEFAULT_DEPTH: u32 = 10;

/// A search for the revision before a file was deleted.
#[derive(Clone, Copy, Debug)]
pub struct ParentSearch {
    pub depth: u32,
    pub parent: ContentHash,
}

impl ParentSearch {
    /// The revision to look at next, if any is left.
    pub open spec fn next_parent(self) -> Option<ContentHash> {
        if self.depth > 0 && !self.parent.is_zero() {
            Some(self.parent)
        } else {
            None
        }
    }

    /// The search once a revision did not have the file.
    pub open spec fn after_miss(self, parent: ContentHash) -> ParentSearch {
        ParentSearch { depth: (self.depth - 1) as u32, parent }
    }

    /// Starts a search at a parent revision.
    pub fn new(options: &HistoryOptions, parent: ContentHash) -> (search: ParentSearch)
        ensures
            search.parent == parent,
            search.depth == if options.depth > 0 {
                options.depth
            } else {
                DEFAULT_DEPTH
            },
    {
        let depth = if options.depth > 0 {
            options.depth
        } else {
            DEFAULT_DEPTH
        };
        ParentSearch { depth, parent }
    }

    /// The revision to look at next, if any is left.
    pub fn next(&self) -> (revision: Option<ContentHash>)
        ensures
            revision == self.next_parent(),
    {
        if self.depth > 0 && !self.parent.is_zero() {
            Some(self.parent)
        } else {
            None
        }
    }

    /// Goes on once a revision did not have the file.
    pub fn missed(&mut self, parent: ContentHash)
        requires
            old(self).depth > 0,
        ensures
            *final(self) == old(self).after_miss(parent),
    {
        self.depth = self.depth - 1;
        self.parent = parent;
    }
}

/// The revisions that a search looks at while none has the file. `parents` holds the
/// parent of each.
pub open spec fn looked_at(search: ParentSearch, parents: Seq<ContentHash>) -> Seq<ContentHash>
    decreases parents.len(),
{
    match search.next_parent() {
        None => Seq::empty(),
        Some(revision) => if parents.len() == 0 {
            seq![revision]
        } else {
            seq![revision] + looked_at(search.after_miss(parents[0]), parents.drop_first())
        },
    }
}

/// A search looks at one parent after the other, and ends only after as many as it may
/// look at, or where there is no parent.
pub proof fn law_search_looks_at_every_parent(search: ParentSearch, parents: Seq<ContentHash>)
    ensures
        ({
            let seen = looked_at(search, parents);
            let n = seen.len() as int;
            &&& n <= search.depth
            &&& n <= parents.len() + 1
            &&& forall|i: int|
                0 <= i < n ==> #[trigger] seen[i] == if i == 0 {
                    search.parent
                } else {
                    parents[i - 1]
                }
            &&& {
                ||| n == search.depth
                ||| n == parents.len() + 1
                ||| n == 0 && search.parent.is_zero()
                ||| 0 < n <= parents.len() && parents[n - 1].is_zero()
            }
        }),
    decreases parents.len(),
{
    if search.next_parent() is Some && parents.len() > 0 {
        let next = search.after_miss(parents[0]);
        let rest = parents.drop_first();
        law_search_looks_at_every_parent(next, rest);
        let later = looked_at(next, rest);
        let seen = looked_at(search, parents);
        assert forall|i: int| 0 <= i < seen.len() implies #[trigger] seen[i] == if i == 0 {
            search.parent
        } else {
            parents[i - 1]
        } by {
            if i > 0 {
                assert(seen[i] == later[i - 1]);
                if i > 1 {
                    assert(rest[i - 2] == parents[i - 1]);
                }
            }
        }
    }
}

/// A change of a node in a revision.
#[derive(Clone, Copy, Debug, PartialEq, Eq, Structural)]
pub struct NodeDelta {
    pub node: NodeID,
    /// What happened, where it is known.
    pub action: Option<FileAction>,
}

/// What happened to a node that a revision does not have any more: what the
/// revision records of it, or it was deleted.
pub fn history_parent(delta: Option<NodeDelta>) -> (entry: (NodeID, Option<FileAction>))
    ensures
        entry == match delta {
            Some(d) => (d.node, d.action),
            None => (INVALID_NODE, Some(FileAction::Delete)),
        },
{
    match delta {
        Some(d) => (d.node, d.action),
        None => (INVALID_NODE, Some(FileAction::Delete)),
    }
}

// ---------------------------------------------------------------------------
// The history
// ---------------------------------------------------------------------------

/// The file must have been found, in the start revision or before.
pub fn check_found(path: &str, found: bool) -> (result: Result<(), FileHistoryError>)
    ensures
        result is Ok <==> found,
        result matches Err(e) ==> e.kind == ErrorKind::FileNotFound && e.detail@ == path@,
{
    if found {
        Ok(())
    } else {
        Err(FileHistoryError::of(ErrorKind::FileNotFound, path))
    }
}

/// Position of the first change of a node, or the number of changes.
pub open spec fn delta_position(deltas: Seq<NodeDelta>, node: NodeID) -> int
    decreases deltas.len(),
{
    if deltas.len() == 0 || deltas[0].node == node {
        0
    } else {
        1 + delta_position(deltas.drop_first(), node)
    }
}

/// What the start revision records of a node, and whether the history goes on
/// from there: it does not where the file was added in it.
pub fn history_start(deltas: &Vec<NodeDelta>, node: NodeID) -> (start: (Option<NodeDelta>, bool))
    ensures
        ({
            let i = delta_position(deltas@, node);
            if i < deltas@.len() {
                &&& start.0 == Some(deltas@[i])
                &&& start.1 == (deltas@[i].action != Some(FileAction::Add))
            } else {
                start.0 is None && start.1
            }
        }),
{
    let mut i: usize = 0;
    assert(deltas@.skip(0) =~= deltas@);
    while i < deltas.len()
        invariant
            i <= deltas@.len(),
            delta_position(deltas@, node) == i + delta_position(deltas@.skip(i as int), node),
        decreases deltas@.len() - i,
    {
        assert(deltas@.skip(i as int)[0] == deltas@[i as int]);
        assert(deltas@.skip(i as int).drop_first() =~= deltas@.skip(i + 1));
        if deltas[i].node == node {
            let delta = deltas[i];
            let added = match delta.action {
                Some(action) => action == FileAction::Add,
                None => false,
            };
            return (Some(delta), !added);
        }
        i = i + 1;
    }
    assert(deltas@.skip(i as int).len() == 0);
    (None, true)
}

/// Number of entries listed where none is given.
pub const DEFAULT_LENGTH: u32 = 100;

impl HistoryOptions {
    /// Number of revisions to list.
    pub open spec fn spec_length(&self) -> u32 {
        if self.length > 0 {
            self.length
        } else {
            DEFAULT_LENGTH
        }
    }

    /// Number of revisions to list.
    pub fn list_length(&self) -> (length: u32)
        ensures
            length == self.spec_length(),
    {
        if self.length > 0 {
            self.length
        } else {
            DEFAULT_LENGTH
        }
    }
}

/// What a listing starts with once the file was found.
#[derive(Clone, Copy, Debug)]
pub struct HistoryStart {
    /// The entry of the revision that the file was found in is listed.
    pub list_start: bool,
    /// The walk that lists what comes before, if there is any.
    pub walk: Option<HistoryWalk>,
}

/// Goes on once the file was found in a revision. `listed` tells how many entries
/// are listed already: one where the file was found to be deleted. The start
/// revision has an entry of its own if it changed the file, and the history goes on
/// before it unless it added the file. No more is listed than asked for.
pub fn start_listing(
    options: &HistoryOptions,
    node: NodeID,
    listed: u32,
    delta: Option<NodeDelta>,
    goes_on: bool,
) -> (start: HistoryStart)
    ensures
        start == listing_start(*options, node, listed, delta is Some, goes_on),
{
    let list_start = delta.is_some() && listed < options.list_length();
    if !goes_on {
        return HistoryStart { list_start, walk: None };
    }
    let listed: u32 = if list_start {
        listed + 1
    } else {
        listed
    };
    HistoryStart { list_start, walk: Some(HistoryWalk::new(options, node, listed)) }
}

/// How many entries may be listed after those of the start.
pub open spec fn rest_of_listing(options: HistoryOptions, listed: u32, list_start: bool) -> int {
    let before = listed + if list_start {
        1int
    } else {
        0int
    };
    if before < options.spec_length() {
        options.spec_length() - before
    } else {
        0
    }
}

/// What a listing starts with, where a number of entries is listed already.
pub open spec fn listing_start(
    options: HistoryOptions,
    node: NodeID,
    listed: u32,
    changed: bool,
    goes_on: bool,
) -> HistoryStart {
    let list_start = changed && listed < options.spec_length();
    HistoryStart {
        list_start,
        walk: if goes_on {
            Some(
                HistoryWalk {
                    limit: rest_of_listing(options, listed, list_start) as u32,
                    node,
                },
            )
        } else {
            None
        },
    }
}

/// As many entries as are asked for may be listed in all: the start is listed where it
/// changed the file and there is room, and the walk may list all that is left. Where
/// no number is given, a hundred are.
pub proof fn law_listing_may_be_as_long_as_asked(
    options: HistoryOptions,
    node: NodeID,
    listed: u32,
    changed: bool,
    goes_on: bool,
)
    ensures
        ({
            let start = listing_start(options, node, listed, changed, goes_on);
            let length: int = if options.length > 0 {
                options.length as int
            } else {
                100
            };
            &&& changed && listed < length ==> start.list_start
            &&& start.list_start ==> changed
            &&& goes_on <==> start.walk is Some
            &&& start.walk matches Some(walk) ==> {
                &&& walk.node == node
                &&& listed <= length ==> listed + (if start.list_start {
                    1int
                } else {
                    0int
                }) + walk.limit == length
            }
        }),
{
}

/// A whole listing has no more entries than asked for: the one of a deletion, the
/// one of the start revision, and those of the walk together.
pub proof fn law_listing_keeps_its_length(
    options: HistoryOptions,
    listed: u32,
    start: HistoryStart,
    links: Seq<HistoryLink>,
)
    requires
        listed <= options.spec_length(),
        start.list_start ==> listed < options.spec_length(),
        start.walk matches Some(walk) ==> walk.limit == rest_of_listing(
            options,
            listed,
            start.list_start,
        ),
    ensures
        listed + (if start.list_start {
            1int
        } else {
            0int
        }) + (match start.walk {
            Some(walk) => listed_entries(walk, links).len() as int,
            None => 0int,
        }) <= options.spec_length(),
{
    if let Some(walk) = start.walk {
        law_walk_keeps_its_limit(walk, links);
    }
}

/// A walk down the history of a file.
#[derive(Clone, Copy, Debug)]
pub struct HistoryWalk {
    pub limit: u32,
    pub node: NodeID,
}

/// What the metadata of a file record of the revision before.
#[derive(Clone, Copy, Debug)]
pub struct HistoryLink {
    pub action: Option<FileAction>,
    /// The revision before, zero where there is none.
    pub revision: ContentHash,
    /// The node of the file in the revision before that.
    pub node: NodeID,
}

/// A step of a walk.
#[derive(Clone, Copy, Debug)]
pub enum HistoryStep {
    /// The history is over.
    End,
    /// List the file with this node at a revision, and stop.
    Last { revision: ContentHash, node: NodeID },
    /// List the file with this node at a revision, and go on there.
    Next { revision: ContentHash, node: NodeID },
}

impl HistoryWalk {
    /// Starts a walk at a node, where a number of entries is listed already.
    pub fn new(options: &HistoryOptions, node: NodeID, listed: u32) -> (walk: HistoryWalk)
        ensures
            walk.node == node,
            walk.limit == if listed < options.spec_length() {
                options.spec_length() - listed
            } else {
                0
            },
    {
        let length = options.list_length();
        let limit: u32 = if listed < length {
            length - listed
        } else {
            0
        };
        HistoryWalk { limit, node }
    }

    /// Takes what is recorded of the revision before. The walk ends where there
    /// is none, after the revision that added the file, or at its limit.
    pub fn step(&mut self, link: HistoryLink) -> (step: HistoryStep)
        ensures
            step == walk_step(*old(self), link),
            *final(self) == walk_after(*old(self), link),
    {
        if self.limit == 0 || link.revision.is_zero() {
            return HistoryStep::End;
        }
        let node = self.node;
        let added = match link.action {
            Some(action) => action == FileAction::Add,
            None => false,
        };
        if added {
            return HistoryStep::Last { revision: link.revision, node };
        }
        self.node = link.node;
        self.limit = self.limit - 1;
        HistoryStep::Next { revision: link.revision, node }
    }
}

/// The step of a walk along a recorded link.
pub open spec fn walk_step(walk: HistoryWalk, link: HistoryLink) -> HistoryStep {
    if walk.limit == 0 || link.revision.is_zero() {
        HistoryStep::End
    } else if link.action == Some(FileAction::Add) {
        HistoryStep::Last { revision: link.revision, node: walk.node }
    } else {
        HistoryStep::Next { revision: link.revision, node: walk.node }
    }
}

/// A walk after a step along a recorded link.
pub open spec fn walk_after(walk: HistoryWalk, link: HistoryLink) -> HistoryWalk {
    if walk_step(walk, link) is Next {
        HistoryWalk { limit: (walk.limit - 1) as u32, node: link.node }
    } else {
        walk
    }
}

/// The entries that a walk lists along recorded links: each a revision and the
/// node of the file there.
pub open spec fn listed_entries(walk: HistoryWalk, links: Seq<HistoryLink>) -> Seq<
    (ContentHash, NodeID),
>
    decreases links.len(),
{
    if links.len() == 0 {
        Seq::empty()
    } else {
        match walk_step(walk, links[0]) {
            HistoryStep::End => Seq::empty(),
            HistoryStep::Last { revision, node } => seq![(revision, node)],
            HistoryStep::Next { revision, node } => seq![(revision, node)] + listed_entries(
                walk_after(walk, links[0]),
                links.drop_first(),
            ),
        }
    }
}

/// A walk lists no more entries than it is allowed.
pub proof fn law_walk_keeps_its_limit(walk: HistoryWalk, links: Seq<HistoryLink>)
    ensures
        listed_entries(walk, links).len() <= walk.limit,
        listed_entries(walk, links).len() <= links.len(),
    decreases links.len(),
{
    if links.len() > 0 && walk_step(walk, links[0]) is Next {
        law_walk_keeps_its_limit(walk_after(walk, links[0]), links.drop_first());
    }
}

/// A walk lists the revisions of the links in their order, each link's revision
/// with the node that the link before it names.
pub proof fn law_walk_follows_the_links(walk: HistoryWalk, links: Seq<HistoryLink>, i: int)
    requires
        0 <= i < listed_entries(walk, links).len(),
    ensures
        i < links.len(),
        listed_entries(walk, links)[i] == (
            links[i].revision,
            if i == 0 {
                walk.node
            } else {
                links[i - 1].node
            },
        ),
        !links[i].revision.is_zero(),
        i > 0 ==> links[i - 1].action != Some(FileAction::Add),
    decreases links.len(),
{
    if i > 0 {
        let next = walk_after(walk, links[0]);
        let rest = links.drop_first();
        law_walk_follows_the_links(next, rest, i - 1);
        assert(rest[i - 1] == links[i]);
        assert(listed_entries(walk, links)[i] == listed_entries(next, rest)[i - 1]);
        if i > 1 {
            assert(rest[i - 2] == links[i - 1]);
        }
    }
}

/// A walk lists every revision that it may: it ends only at its limit, where the
/// recorded links end, before a link that names no revision, or after the one that
/// added the file. Nothing else that happened to the file ends its history.
pub proof fn law_walk_lists_the_whole_history(walk: HistoryWalk, links: Seq<HistoryLink>)
    ensures
        ({
            let n = listed_entries(walk, links).len() as int;
            ||| n == walk.limit
            ||| n == links.len()
            ||| n < links.len() && links[n].revision.is_zero()
            ||| 0 < n <= links.len() && links[n - 1].action == Some(FileAction::Add)
        }),
    decreases links.len(),
{
    if links.len() > 0 && walk_step(walk, links[0]) is Next {
        let next = walk_after(walk, links[0]);
        let rest = links.drop_first();
        law_walk_lists_the_whole_history(next, rest);
        let n = listed_entries(next, rest).len() as int;
        assert(listed_entries(walk, links).len() == n + 1);
        if n < rest.len() {
            assert(rest[n] == links[n + 1]);
        }
        if 0 < n <= rest.len() {
            assert(rest[n - 1] == links[n]);
        }
    }
}

/// A history with a larger limit starts with the same entries.
pub proof fn law_larger_limits_list_more(
    walk: HistoryWalk,
    links: Seq<HistoryLink>,
    limit: u32,
)
    requires
        walk.limit <= limit,
    ensures
        listed_entries(walk, links).is_prefix_of(
            listed_entries(HistoryWalk { limit, ..walk }, links),
        ),
    decreases links.len(),
{
    let larger = HistoryWalk { limit, ..walk };
    if links.len() > 0 && walk_step(walk, links[0]) is Next {
        let rest = links.drop_first();
        law_larger_limits_list_more(walk_after(walk, links[0]), rest, (limit - 1) as u32);
        let a = listed_entries(walk_after(walk, links[0]), rest);
        let b = listed_entries(walk_after(larger, links[0]), rest);
        assert(walk_after(larger, links[0]) == (HistoryWalk {
            limit: (limit - 1) as u32,
            ..walk_after(walk, links[0])
        }));
        assert(a.is_prefix_of(b));
        let first = seq![(links[0].revision, walk.node)];
        assert((first + a).is_prefix_of(first + b));
    }
}

/// The change of a node is the first one that names it; where none does, there is
/// none.
pub proof fn law_first_change_is_found(deltas: Seq<NodeDelta>, node: NodeID, at: int)
    requires
        0 <= at <= deltas.len(),
        at < deltas.len() ==> deltas[at].node == node,
        forall|i: int| 0 <= i < at ==> (#[trigger] deltas[i]).node != node,
    ensures
        delta_position(deltas, node) == at,
    decreases at,
{
    if at > 0 {
        let rest = deltas.drop_first();
        assert(deltas[0].node != node);
        assert forall|i: int| 0 <= i < at - 1 implies (#[trigger] rest[i]).node != node by {
            assert(rest[i] == deltas[i + 1]);
        }
        law_first_change_is_found(rest, node, at - 1);
    }
}

} // verus!
