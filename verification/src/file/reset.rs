//! Bringing files of the working tree back to a revision.

pub mod walk;

use vstd::prelude::*;
use vstd::string::*;

use crate::change::LoreFileAction;
use crate::errors::ErrorKind;
use crate::errors::LoreError;
use crate::link::BranchPoint;
use crate::node::cleaning;
use crate::node::cleaning_node;
use crate::node::keeps_staged;
use crate::node::Climb;
use crate::node::Node;
use crate::node::NodeAction;
use crate::node::NodeID;
use crate::node::NodeKind;
use crate::node::NodeLink;
use crate::node::NodeTree;
use crate::path::join;
use crate::path::joined;
use crate::repository::is_dot_directory;
use crate::repository::names_dot_directory;
use crate::text::text_equal;
use crate::types::count_one;
use crate::types::next_count;
use crate::types::BranchId;
use crate::types::ContentHash;

verus! {

/// Data for the event emitted when a reset operation begins.
#[derive(Clone, Copy, Debug, PartialEq, Eq, Structural)]
pub struct LoreFileResetBeginEventData {
    /// Number of paths requested for reset.
    pub path_count: usize,
}

/// Running counts of items processed during a reset operation.
#[derive(Clone, Copy, Debug, PartialEq, Eq, Structural)]
pub struct LoreFileResetCountData {
    /// Number of directories that were reset.
    pub directory_reset_count: u64,
    /// Number of directories that were deleted.
    pub directory_delete_count: u64,
    /// Number of files that were reset.
    pub file_reset_count: u64,
    /// Number of files that were deleted.
    pub file_delete_count: u64,
}

/// Data for the progress event emitted periodically during a reset operation.
#[derive(Clone, Copy, Debug, PartialEq, Eq, Structural)]
pub struct LoreFileResetProgressEventData {
    /// Current counts of items processed.
    pub count: LoreFileResetCountData,
}

/// Data for the event emitted when a reset operation completes.
#[derive(Clone, Copy, Debug, PartialEq, Eq, Structural)]
pub struct LoreFileResetEndEventData {
    /// Final counts of items processed.
    pub count: LoreFileResetCountData,
}

/// Data for the event emitted for each file affected by a reset operation.
#[derive(Debug)]
pub struct LoreFileResetFileEventData {
    /// Path of the file.
    pub path: String,
    /// Action applied to the file.
    pub action: LoreFileAction,
    /// Previous path of the file, when it was moved.
    pub from_path: String,
}

/// Failure of a reset operation.
#[derive(Debug)]
pub struct ResetError {
    pub kind: ErrorKind,
    pub detail: String,
}

impl ResetError {
    /// The code reported for each category.
    pub open spec fn spec_translated(kind: ErrorKind) -> LoreError {
        match kind {
            ErrorKind::InvalidArguments | ErrorKind::InvalidPath => LoreError::InvalidArguments,
            ErrorKind::RevisionNotFound | ErrorKind::BranchNotFound | ErrorKind::NotFound => {
                LoreError::NotFound
            },
            _ => LoreError::Internal,
        }
    }

    /// The code reported to callers of the engine.
    pub fn translated(&self) -> (code: LoreError)
        ensures
            code == ResetError::spec_translated(self.kind),
    {
        match self.kind {
            ErrorKind::InvalidArguments | ErrorKind::InvalidPath => LoreError::InvalidArguments,
            ErrorKind::RevisionNotFound | ErrorKind::BranchNotFound | ErrorKind::NotFound => {
                LoreError::NotFound
            },
            _ => LoreError::Internal,
        }
    }

    /// The text of the failure.
    pub fn inner(&self) -> (text: String)
        ensures
            text@ == self.detail@,
    {
        self.detail.clone()
    }

    fn of(kind: ErrorKind, detail: &str) -> (error: ResetError)
        ensures
            error.kind == kind,
            error.detail@ == detail@,
    {
        ResetError { kind, detail: detail.to_owned() }
    }
}

/// Number of directory walks in flight above which further ones run inline.
pub const RESET_DIRECTORY_MAX: u64 = 10_000;

/// Largest number of files reset at a time.
pub const RESET_FILE_MAX: usize = 10_000;

/// Number of files reset at a time while few are queued.
pub const RESET_FILE_DISCOVERY: usize = 100;

/// Counters of a reset operation.
#[derive(Clone, Copy, Debug, PartialEq, Eq, Structural)]
pub struct ResetStats {
    pub directory_reset_count: u64,
    pub directory_delete_count: u64,
    pub file_reset_count: u64,
    pub file_delete_count: u64,
}

impl Default for ResetStats {
    fn default() -> (stats: ResetStats)
        ensures
            stats.directory_reset_count == 0,
            stats.directory_delete_count == 0,
            stats.file_reset_count == 0,
            stats.file_delete_count == 0,
    {
        ResetStats {
            directory_reset_count: 0,
            directory_delete_count: 0,
            file_reset_count: 0,
            file_delete_count: 0,
        }
    }
}

/// The counts to report.
pub fn count_data(stats: &ResetStats) -> (count: LoreFileResetCountData)
    ensures
        count.directory_reset_count == stats.directory_reset_count,
        count.directory_delete_count == stats.directory_delete_count,
        count.file_reset_count == stats.file_reset_count,
        count.file_delete_count == stats.file_delete_count,
{
    LoreFileResetCountData {
        directory_reset_count: stats.directory_reset_count,
        directory_delete_count: stats.directory_delete_count,
        file_reset_count: stats.file_reset_count,
        file_delete_count: stats.file_delete_count,
    }
}

/// Options of a reset operation.
#[derive(Clone, Copy, Debug, PartialEq, Eq, Structural)]
pub struct ResetOptions {
    /// Delete untracked files
    pub purge: bool,
    /// Single node, no recursion
    pub single_node: bool,
}

/// Reports the deletion of a path.
fn deleted(path: &str) -> (event: LoreFileResetFileEventData)
    ensures
        event.path@ == path@,
        event.action == LoreFileAction::Delete,
        event.from_path@.len() == 0,
{
    LoreFileResetFileEventData {
        path: path.to_owned(),
        action: LoreFileAction::Delete,
        from_path: String::new(),
    }
}

// ---------------------------------------------------------------------------
// The operation
// ---------------------------------------------------------------------------

/// The revision that files are reset to: the current one unless another is
/// named, which must be found.
pub fn reset_target(revision: &str, current: ContentHash, resolved: Option<ContentHash>) -> (result:
    Result<ContentHash, ResetError>)
    ensures
        result is Ok <==> revision@.len() == 0 || resolved is Some,
        result matches Ok(target) ==> target == if revision@.len() == 0 {
            current
        } else {
            resolved->0
        },
        result matches Err(e) ==> e.kind == ErrorKind::RevisionNotFound && e.detail@ == revision@,
{
    if revision.is_empty() {
        return Ok(current);
    }
    match resolved {
        Some(found) => Ok(found),
        None => Err(ResetError::of(ErrorKind::RevisionNotFound, revision)),
    }
}

/// What becomes of the staged revision at the end of a reset.
#[derive(Clone, Copy, Debug, PartialEq, Eq, Structural)]
pub enum StagedAnchor {
    /// It stays as it is.
    Keep,
    /// It is dropped.
    Delete,
    /// It is written, and the staged anchor moved to it.
    Serialize,
}

/// Decides at the end of a reset what becomes of the staged revision: one that
/// was not touched stays, one without staged and dirty nodes is dropped, and
/// any other is written.
pub fn reset(modified: bool, has_staged: bool, has_dirty: bool) -> (anchor: StagedAnchor)
    ensures
        anchor == if !modified {
            StagedAnchor::Keep
        } else if has_staged || has_dirty {
            StagedAnchor::Serialize
        } else {
            StagedAnchor::Delete
        },
{
    if modified {
        if !has_staged && !has_dirty {
            StagedAnchor::Delete
        } else {
            StagedAnchor::Serialize
        }
    } else {
        StagedAnchor::Keep
    }
}

/// Where the first entry of a branch in a branch stack leaves it, or the zero
/// hash.
pub open spec fn leaves_at(stack: Seq<BranchPoint>, branch: BranchId) -> Option<ContentHash>
    decreases stack.len(),
{
    if stack.len() == 0 {
        None
    } else if stack[0].branch == branch {
        Some(stack[0].revision)
    } else {
        leaves_at(stack.drop_first(), branch)
    }
}

/// A branch is left where its first entry in the stack says.
pub proof fn law_branch_is_left_at_its_first_entry(
    stack: Seq<BranchPoint>,
    branch: BranchId,
    at: int,
)
    requires
        0 <= at < stack.len(),
        stack[at].branch == branch,
        forall|i: int| 0 <= i < at ==> (#[trigger] stack[i]).branch != branch,
    ensures
        leaves_at(stack, branch) == Some(stack[at].revision),
    decreases at,
{
    if at > 0 {
        let rest = stack.drop_first();
        assert(stack[0].branch != branch);
        assert forall|i: int| 0 <= i < at - 1 implies (#[trigger] rest[i]).branch != branch by {
            assert(rest[i] == stack[i + 1]);
        }
        law_branch_is_left_at_its_first_entry(rest, branch, at - 1);
    }
}

/// A branch that is not in the stack is not left anywhere.
pub proof fn law_branch_outside_the_stack_is_not_left(
    stack: Seq<BranchPoint>,
    branch: BranchId,
)
    requires
        forall|i: int| 0 <= i < stack.len() ==> (#[trigger] stack[i]).branch != branch,
    ensures
        leaves_at(stack, branch) is None,
    decreases stack.len(),
{
    if stack.len() > 0 {
        let rest = stack.drop_first();
        assert(stack[0].branch != branch);
        assert forall|i: int| 0 <= i < rest.len() implies (#[trigger] rest[i]).branch
            != branch by {
            assert(rest[i] == stack[i + 1]);
        }
        law_branch_outside_the_stack_is_not_left(rest, branch);
    }
}

/// The branch to reset to and where the current branch leaves it. There is no
/// such branch when none is named, it is not found, it is the current one, or
/// the current branch does not come from it.
pub fn reset_to_last_merged(
    branch_name: &str,
    resolved: Option<BranchId>,
    current_branch: BranchId,
    stack: &Vec<BranchPoint>,
) -> (result: Result<BranchPoint, ResetError>)
    ensures
        result is Ok <==> {
            &&& branch_name@.len() > 0
            &&& resolved is Some
            &&& resolved->0 != current_branch
            &&& leaves_at(stack@, resolved->0) matches Some(point)
            &&& !point.is_zero()
        },
        result matches Ok(point) ==> {
            &&& point.branch == resolved->0
            &&& Some(point.revision) == leaves_at(stack@, resolved->0)
        },
        result matches Err(e) ==> e.kind == ErrorKind::BranchNotFound && e.detail@ == branch_name@,
{
    if branch_name.is_empty() {
        return Err(ResetError::of(ErrorKind::BranchNotFound, branch_name));
    }
    let branch = match resolved {
        Some(branch) => branch,
        None => {
            return Err(ResetError::of(ErrorKind::BranchNotFound, branch_name));
        },
    };
    if branch == current_branch {
        return Err(ResetError::of(ErrorKind::BranchNotFound, branch_name));
    }
    let mut i: usize = 0;
    assert(stack@.skip(0) =~= stack@);
    while i < stack.len()
        invariant
            i <= stack@.len(),
            leaves_at(stack@, branch) == leaves_at(stack@.skip(i as int), branch),
            branch_name@.len() > 0,
            resolved == Some(branch),
            branch != current_branch,
        decreases stack@.len() - i,
    {
        assert(stack@.skip(i as int)[0] == stack@[i as int]);
        assert(stack@.skip(i as int).drop_first() =~= stack@.skip(i + 1));
        if stack[i].branch == branch {
            let revision = stack[i].revision;
            if revision.is_zero() {
                return Err(ResetError::of(ErrorKind::BranchNotFound, branch_name));
            }
            return Ok(BranchPoint { branch, revision });
        }
        i = i + 1;
    }
    assert(stack@.skip(i as int).len() == 0);
    Err(ResetError::of(ErrorKind::BranchNotFound, branch_name))
}

/// The text that names the path of a failure.
pub open spec fn path_failure(user_path: Seq<char>, exists: bool) -> Seq<char> {
    if exists {
        "Failed resetting an existing path: "@ + user_path
    } else {
        "Failed resetting a non-existent path: "@ + user_path
    }
}

/// Names the path of a failure, and keeps its category.
pub fn wrap_path_error(user_path: &str, exists: bool, error: ResetError) -> (wrapped: ResetError)
    ensures
        wrapped.kind == error.kind,
        wrapped.detail@ == path_failure(user_path@, exists) + ": "@ + error.detail@,
{
    let mut detail = if exists {
        "Failed resetting an existing path: ".to_owned()
    } else {
        "Failed resetting a non-existent path: ".to_owned()
    };
    detail.append(user_path);
    detail.append(": ");
    detail.append(error.detail.as_str());
    ResetError { kind: error.kind, detail }
}

// ---------------------------------------------------------------------------
// The last merged revision
// ---------------------------------------------------------------------------

/// Place of a revision in the history.
#[derive(Clone, Copy, Debug)]
pub struct RevisionInfo {
    pub revision: ContentHash,
    pub revision_number: u64,
    pub parent_self: ContentHash,
    pub parent_other: ContentHash,
}

/// What the search for the last merged revision of a path needs next.
#[derive(Clone, Copy, Debug)]
pub enum TargetSearch {
    /// Read a revision and look the path up in it.
    LookUp { parent: ContentHash },
    /// Read the branch point, to start from there.
    ReadBranchPoint,
    /// Read the branch point, to know where the search ends.
    ReadEnd { start: RevisionInfo },
    /// Read the revision that was merged, and its branch.
    ReadMerged { state: RevisionInfo, end: RevisionInfo },
    /// Read the revision in which the file was last changed before a state.
    ReadFileParent { state: RevisionInfo, end: RevisionInfo },
    /// The search ended.
    Done { target: RevisionInfo },
    /// The branch point cannot be read.
    Failed,
}

/// What was read.
#[derive(Clone, Copy, Debug)]
pub enum TargetReply {
    /// A revision, and whether the path is in it.
    State { info: RevisionInfo, has_node: bool },
    /// The branch of a merged revision.
    Merged { branch: BranchId },
    /// The revision or the file cannot be read.
    Unreadable,
}

/// The search from a start revision on: at the branch point it is over.
pub open spec fn search_from(start: RevisionInfo, branch_point: ContentHash) -> TargetSearch {
    if start.revision == branch_point {
        TargetSearch::Done { target: start }
    } else {
        TargetSearch::ReadEnd { start }
    }
}

/// The search for a revision that has the path, from a parent on.
pub open spec fn search_start(parent: ContentHash) -> TargetSearch {
    if parent.is_zero() {
        TargetSearch::ReadBranchPoint
    } else {
        TargetSearch::LookUp { parent }
    }
}

/// The first step of the search for the last merged revision.
pub open spec fn first_search(
    current: RevisionInfo,
    has_node: bool,
    branch_point: ContentHash,
) -> TargetSearch {
    if has_node || current.revision == branch_point {
        search_from(current, branch_point)
    } else {
        search_start(current.parent_self)
    }
}

/// The search for a merge, from a state on. Past the end, the end is the
/// target.
pub open spec fn search_merge(state: RevisionInfo, end: RevisionInfo) -> TargetSearch {
    if state.revision_number <= end.revision_number {
        TargetSearch::Done { target: end }
    } else if state.parent_other.is_zero() {
        TargetSearch::ReadFileParent { state, end }
    } else {
        TargetSearch::ReadMerged { state, end }
    }
}

/// The search after a reply.
pub open spec fn search_after(
    search: TargetSearch,
    reply: TargetReply,
    branch: BranchId,
    branch_point: ContentHash,
) -> TargetSearch {
    match search {
        TargetSearch::LookUp { parent } => match reply {
            TargetReply::State { info, has_node } => if has_node {
                search_from(info, branch_point)
            } else if parent == branch_point {
                TargetSearch::ReadBranchPoint
            } else {
                search_start(info.parent_self)
            },
            _ => TargetSearch::ReadBranchPoint,
        },
        TargetSearch::ReadBranchPoint => match reply {
            TargetReply::State { info, has_node } => search_from(info, branch_point),
            _ => TargetSearch::Failed,
        },
        TargetSearch::ReadEnd { start } => match reply {
            TargetReply::State { info, has_node } => search_merge(start, info),
            _ => TargetSearch::Failed,
        },
        TargetSearch::ReadMerged { state, end } => match reply {
            TargetReply::Merged { branch: merged } => if merged == branch {
                TargetSearch::Done { target: state }
            } else {
                TargetSearch::ReadFileParent { state, end }
            },
            _ => TargetSearch::ReadFileParent { state, end },
        },
        TargetSearch::ReadFileParent { state, end } => match reply {
            TargetReply::State { info, has_node } => search_merge(info, end),
            _ => TargetSearch::Done { target: end },
        },
        _ => search,
    }
}

fn from_start(start: RevisionInfo, branch_point: ContentHash) -> (search: TargetSearch)
    ensures
        search == search_from(start, branch_point),
{
    if start.revision == branch_point {
        TargetSearch::Done { target: start }
    } else {
        TargetSearch::ReadEnd { start }
    }
}

/// Looks for a revision in which the path exists, from a parent on.
pub fn find_start_state(parent: ContentHash) -> (search: TargetSearch)
    ensures
        search == search_start(parent),
{
    if parent.is_zero() {
        TargetSearch::ReadBranchPoint
    } else {
        TargetSearch::LookUp { parent }
    }
}

/// Looks for a merge from a state on, down to the end.
pub fn find_merge_state(state: RevisionInfo, end: RevisionInfo) -> (search: TargetSearch)
    ensures
        search == search_merge(state, end),
{
    if state.revision_number > end.revision_number {
        if !state.parent_other.is_zero() {
            TargetSearch::ReadMerged { state, end }
        } else {
            TargetSearch::ReadFileParent { state, end }
        }
    } else {
        TargetSearch::Done { target: end }
    }
}

/// Starts the search for the last merged revision of a path: from the current
/// revision where it has the path, else from the latest revision before it
/// that does.
pub fn start_last_merged_target(
    current: RevisionInfo,
    has_node: bool,
    branch_point: ContentHash,
) -> (search: TargetSearch)
    ensures
        search == first_search(current, has_node, branch_point),
{
    if !has_node {
        if current.revision != branch_point {
            return find_start_state(current.parent_self);
        }
    }
    from_start(current, branch_point)
}

/// Continues the search for the last merged revision of a path.
pub fn resolve_last_merged_target(
    search: TargetSearch,
    reply: TargetReply,
    branch: BranchId,
    branch_point: ContentHash,
) -> (next: TargetSearch)
    ensures
        next == search_after(search, reply, branch, branch_point),
{
    match search {
        TargetSearch::LookUp { parent } => match reply {
            TargetReply::State { info, has_node } => if has_node {
                from_start(info, branch_point)
            } else if parent == branch_point {
                TargetSearch::ReadBranchPoint
            } else {
                find_start_state(info.parent_self)
            },
            _ => TargetSearch::ReadBranchPoint,
        },
        TargetSearch::ReadBranchPoint => match reply {
            TargetReply::State { info, has_node } => from_start(info, branch_point),
            _ => TargetSearch::Failed,
        },
        TargetSearch::ReadEnd { start } => match reply {
            TargetReply::State { info, has_node } => find_merge_state(start, info),
            _ => TargetSearch::Failed,
        },
        TargetSearch::ReadMerged { state, end } => match reply {
            TargetReply::Merged { branch: merged } => if merged == branch {
                TargetSearch::Done { target: state }
            } else {
                TargetSearch::ReadFileParent { state, end }
            },
            _ => TargetSearch::ReadFileParent { state, end },
        },
        TargetSearch::ReadFileParent { state, end } => match reply {
            TargetReply::State { info, has_node } => find_merge_state(info, end),
            _ => TargetSearch::Done { target: end },
        },
        TargetSearch::Done { target } => TargetSearch::Done { target },
        TargetSearch::Failed => TargetSearch::Failed,
    }
}

/// A search that ends while looking for a merge ends at a revision above the
/// end that merged the branch, or at the end.
pub proof fn law_merge_search_target(
    state: RevisionInfo,
    end: RevisionInfo,
    reply: TargetReply,
    branch: BranchId,
    branch_point: ContentHash,
)
    requires
        state.revision_number > end.revision_number,
    ensures
        search_after(TargetSearch::ReadMerged { state, end }, reply, branch, branch_point) matches
            TargetSearch::Done { target } ==> target == state && reply == (TargetReply::Merged {
            branch,
        }),
        search_after(TargetSearch::ReadFileParent { state, end }, reply, branch, branch_point)
            matches TargetSearch::Done { target } ==> target == end,
{
}

/// A search for a merge that goes on does so from a revision above the end.
pub proof fn law_merge_search_stays_above_end(
    search: TargetSearch,
    reply: TargetReply,
    branch: BranchId,
    branch_point: ContentHash,
)
    requires
        search matches TargetSearch::ReadMerged { state, end } ==> state.revision_number
            > end.revision_number,
        search matches TargetSearch::ReadFileParent { state, end } ==> state.revision_number
            > end.revision_number,
    ensures
        search_after(search, reply, branch, branch_point) matches TargetSearch::ReadMerged {
            state,
            end,
        } ==> state.revision_number > end.revision_number && !state.parent_other.is_zero(),
        search_after(search, reply, branch, branch_point) matches TargetSearch::ReadFileParent {
            state,
            end,
        } ==> state.revision_number > end.revision_number,
{
}

/// What can be read of a path along the history.
pub struct PathHistory {
    /// The revisions that can be read.
    pub revisions: Map<ContentHash, RevisionInfo>,
    /// The revisions that have the path.
    pub holding: Set<ContentHash>,
    /// The branches of revisions, where they can be read.
    pub branches: Map<ContentHash, BranchId>,
    /// The revision in which the path was last changed before a revision.
    pub changed: Map<ContentHash, ContentHash>,
}

impl PathHistory {
    /// The revision with a hash, as it is read.
    pub open spec fn read(self, revision: ContentHash) -> TargetReply {
        if self.revisions.contains_key(revision) {
            TargetReply::State {
                info: self.revisions[revision],
                has_node: self.holding.contains(revision),
            }
        } else {
            TargetReply::Unreadable
        }
    }

    /// What a search is told.
    pub open spec fn reply(self, search: TargetSearch, branch_point: ContentHash) -> TargetReply {
        match search {
            TargetSearch::LookUp { parent } => self.read(parent),
            TargetSearch::ReadBranchPoint => self.read(branch_point),
            TargetSearch::ReadEnd { .. } => self.read(branch_point),
            TargetSearch::ReadMerged { state, .. } => if self.branches.contains_key(
                state.parent_other,
            ) {
                TargetReply::Merged { branch: self.branches[state.parent_other] }
            } else {
                TargetReply::Unreadable
            },
            TargetSearch::ReadFileParent { state, .. } => if self.changed.contains_key(
                state.revision,
            ) {
                self.read(self.changed[state.revision])
            } else {
                TargetReply::Unreadable
            },
            _ => TargetReply::Unreadable,
        }
    }

    /// A revision merged in a branch.
    pub open spec fn merged(self, state: RevisionInfo, branch: BranchId) -> bool {
        &&& !state.parent_other.is_zero()
        &&& self.branches.contains_key(state.parent_other)
        &&& self.branches[state.parent_other] == branch
    }

    /// Each of these revisions is the one in which the path was last changed before
    /// the one in front of it.
    pub open spec fn is_path(self, states: Seq<RevisionInfo>) -> bool {
        forall|i: int|
            0 <= i < states.len() - 1 ==> self.changed.contains_key(
                (#[trigger] states[i]).revision,
            ) && self.revisions.contains_key(self.changed[states[i].revision])
                && self.revisions[self.changed[states[i].revision]] == states[i + 1]
    }

    /// No revision can be read behind one along the changes of the path.
    pub open spec fn is_last_change(self, state: RevisionInfo) -> bool {
        self.changed.contains_key(state.revision) ==> !self.revisions.contains_key(
            self.changed[state.revision],
        )
    }

    /// Each of these revisions is the parent of the one in front of it, which lacks
    /// the path and is not the branch point.
    pub open spec fn is_ancestry(
        self,
        states: Seq<RevisionInfo>,
        branch_point: ContentHash,
    ) -> bool {
        forall|i: int|
            0 <= i < states.len() - 1 ==> {
                &&& !self.holding.contains((#[trigger] states[i]).revision)
                &&& states[i].revision != branch_point
                &&& !states[i].parent_self.is_zero()
                &&& self.revisions.contains_key(states[i].parent_self)
                &&& self.revisions[states[i].parent_self] == states[i + 1]
                &&& states[i + 1].revision == states[i].parent_self
            }
    }
}

/// A search after a number of replies.
pub open spec fn searched(
    history: PathHistory,
    search: TargetSearch,
    branch: BranchId,
    branch_point: ContentHash,
    steps: nat,
) -> TargetSearch
    decreases steps,
{
    if steps == 0 {
        search
    } else {
        searched(
            history,
            search_after(search, history.reply(search, branch_point), branch, branch_point),
            branch,
            branch_point,
            (steps - 1) as nat,
        )
    }
}

/// A search comes to a target.
pub open spec fn finds(
    history: PathHistory,
    search: TargetSearch,
    branch: BranchId,
    branch_point: ContentHash,
    target: RevisionInfo,
) -> bool {
    exists|steps: nat| #[trigger]
        searched(history, search, branch, branch_point, steps) == (TargetSearch::Done { target })
}

proof fn lemma_finds_after(
    history: PathHistory,
    search: TargetSearch,
    branch: BranchId,
    branch_point: ContentHash,
    target: RevisionInfo,
)
    requires
        finds(
            history,
            search_after(search, history.reply(search, branch_point), branch, branch_point),
            branch,
            branch_point,
            target,
        ),
    ensures
        finds(history, search, branch, branch_point, target),
{
    let next = search_after(search, history.reply(search, branch_point), branch, branch_point);
    let steps = choose|steps: nat| #[trigger]
        searched(history, next, branch, branch_point, steps) == (TargetSearch::Done { target });
    assert(searched(history, search, branch, branch_point, steps + 1) == searched(
        history,
        next,
        branch,
        branch_point,
        steps,
    ));
}

proof fn lemma_done_is_found(
    history: PathHistory,
    branch: BranchId,
    branch_point: ContentHash,
    target: RevisionInfo,
)
    ensures
        finds(history, TargetSearch::Done { target }, branch, branch_point, target),
{
    assert(searched(history, TargetSearch::Done { target }, branch, branch_point, 0)
        == (TargetSearch::Done { target }));
}

/// A search comes to one target at most: once it ended, it stays where it ended.
pub proof fn law_search_has_one_target(
    history: PathHistory,
    search: TargetSearch,
    branch: BranchId,
    branch_point: ContentHash,
    a: RevisionInfo,
    b: RevisionInfo,
)
    requires
        finds(history, search, branch, branch_point, a),
        finds(history, search, branch, branch_point, b),
    ensures
        a == b,
{
    let x = choose|steps: nat| #[trigger]
        searched(history, search, branch, branch_point, steps) == (TargetSearch::Done {
            target: a,
        });
    let y = choose|steps: nat| #[trigger]
        searched(history, search, branch, branch_point, steps) == (TargetSearch::Done {
            target: b,
        });
    lemma_search_stays(history, search, branch, branch_point, x, x + y, a);
    lemma_search_stays(history, search, branch, branch_point, y, x + y, b);
}

proof fn lemma_search_stays(
    history: PathHistory,
    search: TargetSearch,
    branch: BranchId,
    branch_point: ContentHash,
    steps: nat,
    more: nat,
    target: RevisionInfo,
)
    requires
        steps <= more,
        searched(history, search, branch, branch_point, steps) == (TargetSearch::Done { target }),
    ensures
        searched(history, search, branch, branch_point, more) == (TargetSearch::Done { target }),
    decreases more,
{
    if more > 0 {
        let next = search_after(search, history.reply(search, branch_point), branch, branch_point);
        if steps > 0 {
            lemma_search_stays(
                history,
                next,
                branch,
                branch_point,
                (steps - 1) as nat,
                (more - 1) as nat,
                target,
            );
        } else {
            assert(next == search);
            lemma_search_stays(
                history,
                next,
                branch,
                branch_point,
                0,
                (more - 1) as nat,
                target,
            );
        }
    }
}

/// The search for a merge ends at the first revision along the changes of the path,
/// above the end, that merged in the branch.
pub proof fn law_first_merge_is_the_target(
    history: PathHistory,
    states: Seq<RevisionInfo>,
    end: RevisionInfo,
    branch: BranchId,
    branch_point: ContentHash,
    at: int,
)
    requires
        history.is_path(states),
        0 <= at < states.len(),
        history.merged(states[at], branch),
        forall|i: int|
            0 <= i <= at ==> (#[trigger] states[i]).revision_number > end.revision_number,
        forall|i: int| 0 <= i < at ==> !history.merged(#[trigger] states[i], branch),
    ensures
        finds(history, search_merge(states[0], end), branch, branch_point, states[at]),
    decreases at,
{
    let state = states[0];
    let search = search_merge(state, end);
    assert(state.revision_number > end.revision_number);
    if at == 0 {
        lemma_done_is_found(history, branch, branch_point, state);
        lemma_finds_after(history, search, branch, branch_point, state);
    } else {
        assert(!history.merged(states[0], branch));
        let rest = states.drop_first();
        assert forall|i: int| 0 <= i < rest.len() - 1 implies history.changed.contains_key(
            (#[trigger] rest[i]).revision,
        ) && history.revisions.contains_key(history.changed[rest[i].revision])
            && history.revisions[history.changed[rest[i].revision]] == rest[i + 1] by {
            assert(rest[i] == states[i + 1]);
        }
        assert forall|i: int| 0 <= i <= at - 1 implies (#[trigger] rest[i]).revision_number
            > end.revision_number by {
            assert(rest[i] == states[i + 1]);
        }
        assert forall|i: int| 0 <= i < at - 1 implies !history.merged(
            #[trigger] rest[i],
            branch,
        ) by {
            assert(rest[i] == states[i + 1]);
        }
        assert(rest[at - 1] == states[at]);
        law_first_merge_is_the_target(history, rest, end, branch, branch_point, at - 1);
        lemma_goes_on_to_the_change(history, states, end, branch, branch_point, states[at]);
    }
}

/// A revision that merged in no such branch passes the search on to the revision in
/// which the path was changed before.
proof fn lemma_goes_on_to_the_change(
    history: PathHistory,
    states: Seq<RevisionInfo>,
    end: RevisionInfo,
    branch: BranchId,
    branch_point: ContentHash,
    target: RevisionInfo,
)
    requires
        states.len() > 1,
        history.is_path(states),
        states[0].revision_number > end.revision_number,
        !history.merged(states[0], branch),
        finds(history, search_merge(states[1], end), branch, branch_point, target),
    ensures
        finds(history, search_merge(states[0], end), branch, branch_point, target),
{
    let state = states[0];
    let read = TargetSearch::ReadFileParent { state, end };
    assert(history.changed.contains_key(states[0].revision));
    lemma_finds_after(history, read, branch, branch_point, target);
    if !state.parent_other.is_zero() {
        lemma_finds_after(
            history,
            TargetSearch::ReadMerged { state, end },
            branch,
            branch_point,
            target,
        );
    }
}

/// The search for a merge ends at the end only where no revision along the changes
/// of the path, above the end, merged in the branch.
pub proof fn law_without_merge_the_end_is_the_target(
    history: PathHistory,
    states: Seq<RevisionInfo>,
    end: RevisionInfo,
    branch: BranchId,
    branch_point: ContentHash,
)
    requires
        history.is_path(states),
        states.len() > 0,
        states.last().revision_number <= end.revision_number || (!history.merged(
            states.last(),
            branch,
        ) && history.is_last_change(states.last())),
        forall|i: int|
            0 <= i < states.len() - 1 ==> (#[trigger] states[i]).revision_number
                > end.revision_number && !history.merged(states[i], branch),
    ensures
        finds(history, search_merge(states[0], end), branch, branch_point, end),
    decreases states.len(),
{
    let state = states[0];
    if states.len() == 1 {
        lemma_done_is_found(history, branch, branch_point, end);
        if state.revision_number > end.revision_number {
            let read = TargetSearch::ReadFileParent { state, end };
            lemma_finds_after(history, read, branch, branch_point, end);
            if !state.parent_other.is_zero() {
                lemma_finds_after(
                    history,
                    TargetSearch::ReadMerged { state, end },
                    branch,
                    branch_point,
                    end,
                );
            }
        }
    } else {
        assert(states[0].revision_number > end.revision_number);
        assert(!history.merged(states[0], branch));
        let rest = states.drop_first();
        assert forall|i: int| 0 <= i < rest.len() - 1 implies history.changed.contains_key(
            (#[trigger] rest[i]).revision,
        ) && history.revisions.contains_key(history.changed[rest[i].revision])
            && history.revisions[history.changed[rest[i].revision]] == rest[i + 1] by {
            assert(rest[i] == states[i + 1]);
        }
        assert forall|i: int| 0 <= i < rest.len() - 1 implies (
        #[trigger] rest[i]).revision_number > end.revision_number && !history.merged(
            rest[i],
            branch,
        ) by {
            assert(rest[i] == states[i + 1]);
        }
        assert(rest.last() == states.last());
        law_without_merge_the_end_is_the_target(history, rest, end, branch, branch_point);
        lemma_goes_on_to_the_change(history, states, end, branch, branch_point, end);
    }
}

/// Where the current revision lacks the path, the search starts at the latest
/// revision before it that has it: whatever a search from there comes to is the
/// target of the whole search.
pub proof fn law_search_starts_where_the_path_is(
    history: PathHistory,
    states: Seq<RevisionInfo>,
    branch: BranchId,
    branch_point: ContentHash,
    target: RevisionInfo,
)
    requires
        states.len() > 0,
        history.is_ancestry(states, branch_point),
        history.holding.contains(states.last().revision),
        if states.last().revision == branch_point {
            target == states.last()
        } else {
            &&& history.revisions.contains_key(branch_point)
            &&& finds(
                history,
                search_merge(states.last(), history.revisions[branch_point]),
                branch,
                branch_point,
                target,
            )
        },
    ensures
        finds(
            history,
            first_search(
                states[0],
                history.holding.contains(states[0].revision),
                branch_point,
            ),
            branch,
            branch_point,
            target,
        ),
    decreases states.len(),
{
    let state = states[0];
    let last = states.last();
    if states.len() == 1 {
        if last.revision == branch_point {
            lemma_done_is_found(history, branch, branch_point, last);
        } else {
            lemma_finds_after(
                history,
                TargetSearch::ReadEnd { start: last },
                branch,
                branch_point,
                target,
            );
        }
    } else {
        assert(!history.holding.contains(states[0].revision));
        let rest = states.drop_first();
        assert forall|i: int| 0 <= i < rest.len() - 1 implies {
            &&& !history.holding.contains((#[trigger] rest[i]).revision)
            &&& rest[i].revision != branch_point
            &&& !rest[i].parent_self.is_zero()
            &&& history.revisions.contains_key(rest[i].parent_self)
            &&& history.revisions[rest[i].parent_self] == rest[i + 1]
            &&& rest[i + 1].revision == rest[i].parent_self
        } by {
            assert(rest[i] == states[i + 1]);
        }
        assert(rest.last() == last);
        law_search_starts_where_the_path_is(history, rest, branch, branch_point, target);
        if rest.len() > 1 {
            assert(rest[0].revision != branch_point);
            assert(!history.holding.contains(rest[0].revision));
        }
        lemma_finds_after(
            history,
            TargetSearch::LookUp { parent: state.parent_self },
            branch,
            branch_point,
            target,
        );
    }
}

/// Where no revision down to the branch point has the path, the branch point is the
/// target.
pub proof fn law_without_the_path_the_branch_point_is_the_target(
    history: PathHistory,
    states: Seq<RevisionInfo>,
    branch: BranchId,
    branch_point: ContentHash,
)
    requires
        states.len() > 0,
        history.is_ancestry(states, branch_point),
        !history.holding.contains(states.last().revision),
        states.last().revision != branch_point ==> states.last().parent_self.is_zero()
            || !history.revisions.contains_key(states.last().parent_self),
        history.revisions.contains_key(branch_point),
        history.revisions[branch_point].revision == branch_point,
        states[0].revision == branch_point ==> states[0] == history.revisions[branch_point],
    ensures
        finds(
            history,
            first_search(states[0], false, branch_point),
            branch,
            branch_point,
            history.revisions[branch_point],
        ),
    decreases states.len(),
{
    let state = states[0];
    let target = history.revisions[branch_point];
    lemma_done_is_found(history, branch, branch_point, target);
    lemma_finds_after(history, TargetSearch::ReadBranchPoint, branch, branch_point, target);
    if states.len() == 1 {
        if state.revision != branch_point && !state.parent_self.is_zero() {
            lemma_finds_after(
                history,
                TargetSearch::LookUp { parent: state.parent_self },
                branch,
                branch_point,
                target,
            );
        }
    } else {
        assert(!history.holding.contains(states[0].revision));
        let rest = states.drop_first();
        assert forall|i: int| 0 <= i < rest.len() - 1 implies {
            &&& !history.holding.contains((#[trigger] rest[i]).revision)
            &&& rest[i].revision != branch_point
            &&& !rest[i].parent_self.is_zero()
            &&& history.revisions.contains_key(rest[i].parent_self)
            &&& history.revisions[rest[i].parent_self] == rest[i + 1]
            &&& rest[i + 1].revision == rest[i].parent_self
        } by {
            assert(rest[i] == states[i + 1]);
        }
        assert(rest.last() == states.last());
        law_without_the_path_the_branch_point_is_the_target(history, rest, branch, branch_point);
        lemma_finds_after(
            history,
            TargetSearch::LookUp { parent: state.parent_self },
            branch,
            branch_point,
            target,
        );
    }
}

// ---------------------------------------------------------------------------
// Walking the tree
// ---------------------------------------------------------------------------

/// Where the reset of a path starts.
#[derive(Clone, Copy, Debug, PartialEq, Eq, Structural)]
pub enum ResetStart {
    /// Nothing is reset.
    Skip,
    /// Everything below the root.
    Root,
    /// The node at the path.
    Node,
}

/// Decides where the reset of a path starts. A single node cannot be the root.
pub fn reset_walk_path(relative_path: &str, options: ResetOptions) -> (start: ResetStart)
    ensures
        start == if relative_path@.len() > 0 {
            ResetStart::Node
        } else if options.single_node {
            ResetStart::Skip
        } else {
            ResetStart::Root
        },
{
    if relative_path.is_empty() {
        if options.single_node {
            return ResetStart::Skip;
        }
        return ResetStart::Root;
    }
    ResetStart::Node
}

/// Forgetting a dirty addition, together with the dirty flags of parents that have
/// no other dirty children.
pub open spec fn forgetting(nodes: Seq<Node>, id: NodeID) -> Climb {
    cleaning(
        nodes.update(id as int, nodes[id as int].unchanged()),
        nodes[id as int].parent,
        nodes.len(),
    )
}

/// A dirty addition that is forgotten has no pending change any more, and of the other
/// nodes only dirty flags are cleared.
pub proof fn law_forgotten_addition_is_unchanged(nodes: Seq<Node>, id: NodeID, other: NodeID)
    requires
        id < nodes.len(),
        other < nodes.len(),
    ensures
        ({
            let after = forgetting(nodes, id).nodes;
            &&& after.len() == nodes.len()
            &&& !after[id as int].dirty
            &&& !after[id as int].staged
            &&& after[id as int].action == NodeAction::Unchanged
            &&& other != id ==> after[other as int].staged == nodes[other as int].staged
            &&& after[other as int].dirty ==> nodes[other as int].dirty
            &&& after[other as int].kind == nodes[other as int].kind
            &&& after[other as int].child == nodes[other as int].child
            &&& after[other as int].parent == nodes[other as int].parent
            &&& after[other as int].sibling == nodes[other as int].sibling
        }),
{
    let own = nodes.update(id as int, nodes[id as int].unchanged());
    crate::node::law_cleaning_upwards_only_clears(own, nodes[id as int].parent, nodes.len());
    let after = forgetting(nodes, id).nodes;
    assert(after[id as int] == own[id as int] || after[id as int]
        == own[id as int].without_dirty());
    assert(after[other as int] == own[other as int] || after[other as int]
        == own[other as int].without_dirty());
}

/// A node is a dirty addition.
pub open spec fn is_dirty_addition(node: Node) -> bool {
    node.dirty && node.action == NodeAction::Add
}

/// What the reset of a path that the target revision does not have comes to.
#[derive(Debug)]
pub struct ResetMissing {
    /// The node to take out of the staged state.
    pub discard: Option<NodeID>,
    /// The path is deleted from disk, and reported.
    pub delete: Option<LoreFileResetFileEventData>,
}

/// Resets a path that is absent from the target revision. It is either
/// committed in the current revision but not in the target, and then deleted; a
/// dirty addition, which is forgotten while its file stays; or untracked, and
/// stays. Purging deletes it in any case.
pub fn reset_missing_path(
    staged: &mut NodeTree,
    staged_node: Option<NodeID>,
    relative_path: &str,
    options: ResetOptions,
    stats: &mut ResetStats,
) -> (result: Result<ResetMissing, ResetError>)
    requires
        staged_node matches Some(id) ==> id < old(staged)@.len(),
    ensures
        ({
            let nodes = old(staged)@;
            let known = staged_node is Some;
            let is_staged = known && nodes[staged_node->0 as int].staged;
            let is_add = known && !is_staged && is_dirty_addition(nodes[staged_node->0 as int]);
            let climb = forgetting(nodes, staged_node->0);
            let deletes = options.purge || (known && !is_add);
            &&& result is Ok <==> !is_staged && (is_add ==> climb.fault is None)
            &&& result matches Ok(missing) ==> {
                &&& missing.discard == if is_add {
                    staged_node
                } else {
                    None
                }
                &&& missing.delete is Some == deletes
                &&& missing.delete matches Some(event) ==> {
                    &&& event.path@ == relative_path@
                    &&& event.action == LoreFileAction::Delete
                    &&& event.from_path@.len() == 0
                }
            }
            &&& result matches Err(e) ==> if is_staged {
                &&& e.kind == ErrorKind::InvalidArguments
                &&& e.detail@ == "Failed to reset staged node"@
            } else {
                &&& climb.fault == Some(e.kind)
                &&& e.detail@ == "Failed to check dirty children"@
            }
            &&& final(staged)@ == if is_add {
                climb.nodes
            } else {
                nodes
            }
            &&& final(staged).modified == (old(staged).modified || is_add)
            &&& *final(stats) == if result is Ok && deletes {
                ResetStats {
                    file_delete_count: next_count(old(stats).file_delete_count),
                    ..*old(stats)
                }
            } else {
                *old(stats)
            }
        }),
{
    let mut delete_path = options.purge;
    let mut discard: Option<NodeID> = None;
    if let Some(id) = staged_node {
        let node = staged.nodes[id as usize];
        if node.staged {
            return Err(
                ResetError::of(ErrorKind::InvalidArguments, "Failed to reset staged node"),
            );
        }
        if node.is_dirty_add() {
            let mut forgotten = node;
            forgotten.clear_all_change_flags();
            staged.set_node(id, forgotten);
            discard = Some(id);
            match staged.clear_dirty_parents(node.parent) {
                Ok(()) => {},
                Err(kind) => {
                    return Err(ResetError::of(kind, "Failed to check dirty children"));
                },
            }
        } else {
            delete_path = true;
        }
    }
    let mut delete: Option<LoreFileResetFileEventData> = None;
    if delete_path {
        stats.file_delete_count = count_one(stats.file_delete_count);
        delete = Some(deleted(relative_path));
    }
    Ok(ResetMissing { discard, delete })
}

/// What is done with a node during a reset.
#[derive(Clone, Copy, Debug)]
pub enum ResetWalk {
    /// Nothing.
    Skip,
    /// The directory is walked.
    Directory,
    /// The node that a link leads to is walked as a directory, against the
    /// linked revision of the staged state.
    Linked { link: NodeLink, staged_revision: ContentHash },
    /// The file is handed to the file worker.
    File,
}

/// The revision of a linked repository that staged flags are read from: the one
/// that the staged state leads to, if it leads to the same repository.
pub open spec fn linked_staged_revision(link: NodeLink, staged_link: Option<NodeLink>) -> ContentHash {
    match staged_link {
        Some(staged) => if staged.repository == link.repository {
            staged.revision
        } else {
            link.revision
        },
        None => link.revision,
    }
}

/// The staged flags of a linked repository are read from where the staged state leads,
/// as long as it leads to the same repository, and otherwise from where the link leads.
pub proof fn law_staged_link_is_followed(link: NodeLink, staged: NodeLink)
    ensures
        linked_staged_revision(link, None) == link.revision,
        staged.repository == link.repository ==> linked_staged_revision(link, Some(staged))
            == staged.revision,
        staged.repository != link.repository ==> linked_staged_revision(link, Some(staged))
            == link.revision,
{
}

/// What is done with a node, once its staged flags are looked at.
pub open spec fn walk_of(node: Node, staged_link: Option<NodeLink>, single_node: bool) -> ResetWalk {
    match node.kind {
        NodeKind::File => ResetWalk::File,
        NodeKind::Directory => if single_node {
            ResetWalk::Skip
        } else {
            ResetWalk::Directory
        },
        NodeKind::Link => if single_node {
            ResetWalk::Skip
        } else {
            ResetWalk::Linked {
                link: node.link,
                staged_revision: linked_staged_revision(node.link, staged_link),
            }
        },
    }
}

/// Cleaning a node for a reset.
#[verifier::ext_equal]
pub struct Cleaned {
    /// The staged nodes as they stand.
    pub nodes: Seq<Node>,
    /// Some node was written.
    pub wrote: bool,
    /// Why the node cannot be reset, if it cannot.
    pub failure: Option<(ErrorKind, Seq<char>)>,
}

/// Cleaning a node for a reset. A staged node cannot be reset; a dirty one becomes
/// clean, together with parents that have no other dirty children.
pub open spec fn cleaned(nodes: Seq<Node>, id: NodeID) -> Cleaned {
    if id >= nodes.len() {
        Cleaned { nodes, wrote: false, failure: None }
    } else if nodes[id as int].staged {
        Cleaned {
            nodes,
            wrote: false,
            failure: Some((ErrorKind::InvalidArguments, "Failed to reset staged node"@)),
        }
    } else if nodes[id as int].dirty {
        let climb = cleaning_node(nodes, id);
        Cleaned {
            nodes: climb.nodes,
            wrote: true,
            failure: match climb.fault {
                Some(kind) => Some((kind, "Failed to check dirty children"@)),
                None => None,
            },
        }
    } else {
        Cleaned { nodes, wrote: false, failure: None }
    }
}

/// The counters after a directory or link was entered.
pub open spec fn with_directory(stats: ResetStats) -> ResetStats {
    ResetStats { directory_reset_count: next_count(stats.directory_reset_count), ..stats }
}

/// Resets a node of the target revision, as far as the staged state is
/// concerned, and tells what is to be done with it. A staged node cannot be
/// reset; a dirty one becomes clean.
pub fn reset_walk_node(
    node: &Node,
    node_id: NodeID,
    staged: &mut NodeTree,
    staged_link: Option<NodeLink>,
    force: bool,
    excluded: bool,
    options: ResetOptions,
    stats: &mut ResetStats,
) -> (result: Result<ResetWalk, ResetError>)
    ensures
        ({
            let skips = !force && excluded;
            let after = if skips {
                Cleaned { nodes: old(staged)@, wrote: false, failure: None }
            } else {
                cleaned(old(staged)@, node_id)
            };
            &&& result is Ok <==> after.failure is None
            &&& result matches Ok(walk) ==> walk == if skips {
                ResetWalk::Skip
            } else {
                walk_of(*node, staged_link, options.single_node)
            }
            &&& result matches Err(e) ==> after.failure == Some((e.kind, e.detail@))
            &&& final(staged)@ == after.nodes
            &&& final(staged).modified == (old(staged).modified || after.wrote)
            &&& *final(stats) == if result is Ok && !skips && node.kind != NodeKind::File
                && !options.single_node {
                with_directory(*old(stats))
            } else {
                *old(stats)
            }
        }),
        keeps_staged(old(staged)@, final(staged)@),
{
    if !force && excluded {
        return Ok(ResetWalk::Skip);
    }
    if let Ok(staged_node) = staged.node(node_id) {
        if staged_node.staged {
            return Err(
                ResetError::of(ErrorKind::InvalidArguments, "Failed to reset staged node"),
            );
        }
        if staged_node.dirty {
            let mut clean = staged_node;
            clean.clear_dirty_flags();
            staged.set_node(node_id, clean);
            match staged.clear_dirty_parents(staged_node.parent) {
                Ok(()) => {},
                Err(kind) => {
                    return Err(ResetError::of(kind, "Failed to check dirty children"));
                },
            }
        }
    }
    if node.is_link() {
        if options.single_node {
            return Ok(ResetWalk::Skip);
        }
        let link = node.link;
        let staged_revision = match staged_link {
            Some(found) => if found.repository == link.repository {
                found.revision
            } else {
                link.revision
            },
            None => link.revision,
        };
        stats.directory_reset_count = count_one(stats.directory_reset_count);
        return Ok(ResetWalk::Linked { link, staged_revision });
    }
    if node.is_directory() {
        if options.single_node {
            return Ok(ResetWalk::Skip);
        }
        stats.directory_reset_count = count_one(stats.directory_reset_count);
        return Ok(ResetWalk::Directory);
    }
    Ok(ResetWalk::File)
}

/// What the walk of a directory does with its children.
#[derive(Debug)]
pub struct DirectoryWalk {
    /// The directory has no children and is created on disk.
    pub create: bool,
    /// The children to reset, in order.
    pub children: Vec<NodeID>,
    /// The failure that ends the walk after these children.
    pub failure: Option<ResetError>,
    /// What the revision does not have is deleted from the directory once its
    /// children are walked without failure.
    pub purge: bool,
}

/// The children of a directory that are reset. An empty directory other than
/// the root is created, since no file in it would create it. Any directory is
/// purged where that is asked for, an empty one too.
pub fn reset_walk_directory(
    target: &NodeTree,
    directory: NodeID,
    directory_path: &str,
    options: ResetOptions,
) -> (walk: DirectoryWalk)
    requires
        directory < target@.len(),
    ensures
        walk.create == (!crate::node::is_valid_node_id(target@[directory as int].child)
            && directory_path@.len() > 0),
        walk.children@ == crate::node::sound_siblings(
            target@,
            directory,
            target@[directory as int].child,
            target@.len(),
        ),
        walk.failure is None <==> crate::node::children(target@, directory) is Some,
        walk.failure matches Some(e) ==> e.kind == ErrorKind::InvalidNodeHierarchy && e.detail@
            == "Invalid node hierarchy in reset walk"@,
        walk.purge == options.purge,
{
    if !crate::node::is_valid_node_id(target.nodes[directory as usize].child) {
        return DirectoryWalk {
            create: !directory_path.is_empty(),
            children: Vec::new(),
            failure: None,
            purge: options.purge,
        };
    }
    let (children, broken) = target.walk_children(directory);
    let failure = match broken {
        Some(kind) => Some(ResetError::of(kind, "Invalid node hierarchy in reset walk")),
        None => None,
    };
    DirectoryWalk { create: false, children, failure, purge: options.purge }
}

/// Tells whether the walk of a directory runs inline instead of as a task of
/// its own.
pub fn runs_inline(directories_in_flight: u64) -> (inline: bool)
    ensures
        inline == (directories_in_flight > RESET_DIRECTORY_MAX),
{
    directories_in_flight > RESET_DIRECTORY_MAX
}

/// The first of two failures.
pub fn first_failure(failure: Option<ResetError>, next: Option<ResetError>) -> (first: Option<
    ResetError,
>)
    ensures
        first == if failure is Some {
            failure
        } else {
            next
        },
{
    match failure {
        Some(error) => Some(error),
        None => next,
    }
}

/// An entry of a directory on disk.
#[derive(Debug)]
pub struct DiskEntry {
    pub name: String,
    /// A filter excludes the path.
    pub excluded: bool,
}

/// An entry is removed by purging: it holds no repository state, no filter
/// keeps it, and the revision has no node of its name.
pub open spec fn is_purged(entry: DiskEntry, names: Seq<String>, force: bool) -> bool {
    &&& !is_dot_directory(entry.name@)
    &&& force || !entry.excluded
    &&& forall|i: int| 0 <= i < names.len() ==> (#[trigger] names[i])@ != entry.name@
}

/// The paths below a directory that purging removes.
pub open spec fn purged(
    directory_path: Seq<char>,
    entries: Seq<DiskEntry>,
    names: Seq<String>,
    force: bool,
) -> Seq<Seq<char>>
    decreases entries.len(),
{
    if entries.len() == 0 {
        Seq::empty()
    } else {
        let before = purged(directory_path, entries.drop_last(), names, force);
        if is_purged(entries.last(), names, force) {
            before.push(joined(directory_path, entries.last().name@))
        } else {
            before
        }
    }
}

/// Everything in a directory on disk that the revision does not know is purged, but
/// for repository state and, unless forced, for what the filter excludes.
pub proof fn law_unknown_entries_are_purged(
    directory_path: Seq<char>,
    entries: Seq<DiskEntry>,
    names: Seq<String>,
    force: bool,
    at: int,
)
    requires
        0 <= at < entries.len(),
        !is_dot_directory(entries[at].name@),
        force || !entries[at].excluded,
        forall|i: int| 0 <= i < names.len() ==> (#[trigger] names[i])@ != entries[at].name@,
    ensures
        purged(directory_path, entries, names, force).contains(
            joined(directory_path, entries[at].name@),
        ),
    decreases entries.len(),
{
    let earlier = entries.drop_last();
    let before = purged(directory_path, earlier, names, force);
    let all = purged(directory_path, entries, names, force);
    let path = joined(directory_path, entries[at].name@);
    if at < earlier.len() {
        assert(earlier[at] == entries[at]);
        law_unknown_entries_are_purged(directory_path, earlier, names, force, at);
        let i = before.index_of(path);
        assert(all[i] == path);
    } else {
        assert(all[all.len() - 1] == path);
    }
}

/// Nothing is purged that the revision knows, that is repository state, or that the
/// filter excludes without force.
pub proof fn law_known_entries_are_kept(
    directory_path: Seq<char>,
    entries: Seq<DiskEntry>,
    names: Seq<String>,
    force: bool,
    i: int,
) -> (at: int)
    requires
        0 <= i < purged(directory_path, entries, names, force).len(),
    ensures
        0 <= at < entries.len(),
        purged(directory_path, entries, names, force)[i] == joined(
            directory_path,
            entries[at].name@,
        ),
        entries[at].name@ != ".lore"@,
        entries[at].name@ != ".urc"@,
        force || !entries[at].excluded,
        forall|n: int| 0 <= n < names.len() ==> (#[trigger] names[n])@ != entries[at].name@,
    decreases entries.len(),
{
    let earlier = entries.drop_last();
    let before = purged(directory_path, earlier, names, force);
    if i < before.len() {
        law_known_entries_are_kept(directory_path, earlier, names, force, i)
    } else {
        entries.len() - 1
    }
}

/// The counters after a number of paths were removed.
pub open spec fn purge_counted(stats: ResetStats, count: nat) -> ResetStats
    decreases count,
{
    if count == 0 {
        stats
    } else {
        let before = purge_counted(stats, (count - 1) as nat);
        ResetStats { directory_delete_count: next_count(before.directory_delete_count), ..before }
    }
}

/// Every purged path is counted, and nothing else is.
pub proof fn law_purged_paths_are_counted(stats: ResetStats, count: nat)
    requires
        stats.directory_delete_count + count <= u64::MAX,
    ensures
        purge_counted(stats, count) == (ResetStats {
            directory_delete_count: (stats.directory_delete_count + count) as u64,
            ..stats
        }),
    decreases count,
{
    if count > 0 {
        law_purged_paths_are_counted(stats, (count - 1) as nat);
    }
}

/// Lists the paths below a directory that purging removes, and counts them.
pub fn purge_directory(
    directory_path: &str,
    entries: &Vec<DiskEntry>,
    names: &Vec<String>,
    force: bool,
    stats: &mut ResetStats,
) -> (paths: Vec<String>)
    ensures
        paths@.len() == purged(directory_path@, entries@, names@, force).len(),
        forall|i: int|
            0 <= i < paths@.len() ==> (#[trigger] paths@[i])@ == purged(
                directory_path@,
                entries@,
                names@,
                force,
            )[i],
        *final(stats) == purge_counted(*old(stats), paths@.len()),
{
    let mut paths: Vec<String> = Vec::new();
    let mut i: usize = 0;
    while i < entries.len()
        invariant
            i <= entries@.len(),
            paths@.len() == purged(directory_path@, entries@.take(i as int), names@, force).len(),
            forall|j: int|
                0 <= j < paths@.len() ==> (#[trigger] paths@[j])@ == purged(
                    directory_path@,
                    entries@.take(i as int),
                    names@,
                    force,
                )[j],
            *stats == purge_counted(*old(stats), paths@.len()),
        decreases entries@.len() - i,
    {
        let entry = &entries[i];
        proof {
            assert(entries@.take(i + 1).drop_last() =~= entries@.take(i as int));
            assert(entries@.take(i + 1).last() == *entry);
        }
        let mut known = false;
        let mut j: usize = 0;
        while j < names.len()
            invariant
                j <= names@.len(),
                known == exists|n: int| 0 <= n < j && (#[trigger] names@[n])@ == entry.name@,
            decreases names@.len() - j,
        {
            if text_equal(names[j].as_str(), entry.name.as_str()) {
                known = true;
            }
            j = j + 1;
        }
        if !names_dot_directory(entry.name.as_str()) && (force || !entry.excluded) && !known {
            paths.push(join(directory_path, entry.name.as_str()));
            stats.directory_delete_count = count_one(stats.directory_delete_count);
        }
        i = i + 1;
    }
    assert(entries@.take(entries@.len() as int) =~= entries@);
    paths
}

// ---------------------------------------------------------------------------
// Files
// ---------------------------------------------------------------------------

/// The number of files to reset at a time, for a number of queued files.
pub open spec fn permit_target(queued: usize) -> usize {
    if queued + 1 + RESET_FILE_DISCOVERY > RESET_FILE_MAX {
        RESET_FILE_MAX
    } else {
        (queued + 1 + RESET_FILE_DISCOVERY) as usize
    }
}

/// The permits to add for a number of queued files: permits grow with the
/// backlog up to a limit, and never shrink.
pub fn reset_file_consume(queued: usize, current_permits: usize) -> (added: usize)
    ensures
        added == if permit_target(queued) > current_permits {
            permit_target(queued) - current_permits
        } else {
            0
        },
{
    let target: usize = if queued >= RESET_FILE_MAX - 1 - RESET_FILE_DISCOVERY {
        RESET_FILE_MAX
    } else {
        queued + 1 + RESET_FILE_DISCOVERY
    };
    if target > current_permits {
        target - current_permits
    } else {
        0
    }
}

/// What is done to a file on disk.
#[derive(Debug)]
pub enum ResetFile {
    /// Nothing: the file is as in the revision.
    Keep,
    /// The file is renamed to the spelling of the revision.
    Rename { to_path: String, event: LoreFileResetFileEventData },
    /// The content of the revision is written.
    Realize { event: LoreFileResetFileEventData },
}

/// Decides how a file is reset. Unless forced, a file with the content of the
/// revision is only renamed where its spelling differs.
///
/// `modified` tells how the file on disk compares with the node, if there is
/// such a file.
pub fn reset_file_realize(
    relative_path: &str,
    parent_path: &str,
    name: &str,
    node_name: &str,
    force: bool,
    modified: Option<bool>,
    stats: &mut ResetStats,
) -> (file: ResetFile)
    ensures
        force || modified != Some(false) ==> {
            &&& file matches ResetFile::Realize { event }
            &&& event.path@ == relative_path@
            &&& event.action == LoreFileAction::Keep
            &&& event.from_path@.len() == 0
        },
        !force && modified == Some(false) && name@ != node_name@ ==> {
            &&& file matches ResetFile::Rename { to_path, event }
            &&& to_path@ == joined(parent_path@, node_name@)
            &&& event.path@ == joined(parent_path@, node_name@)
            &&& event.action == LoreFileAction::Move
            &&& event.from_path@ == relative_path@
        },
        !force && modified == Some(false) && name@ == node_name@ ==> file is Keep,
        *final(stats) == if file is Keep {
            *old(stats)
        } else {
            ResetStats { file_reset_count: next_count(old(stats).file_reset_count), ..*old(stats) }
        },
{
    if !force {
        if let Some(file_modified) = modified {
            if !file_modified {
                if !text_equal(name, node_name) {
                    stats.file_reset_count = count_one(stats.file_reset_count);
                    return ResetFile::Rename {
                        to_path: join(parent_path, node_name),
                        event: LoreFileResetFileEventData {
                            path: join(parent_path, node_name),
                            action: LoreFileAction::Move,
                            from_path: relative_path.to_owned(),
                        },
                    };
                }
                return ResetFile::Keep;
            }
        }
    }
    stats.file_reset_count = count_one(stats.file_reset_count);
    ResetFile::Realize {
        event: LoreFileResetFileEventData {
            path: relative_path.to_owned(),
            action: LoreFileAction::Keep,
            from_path: String::new(),
        },
    }
}

// ---------------------------------------------------------------------------
// Laws
// ---------------------------------------------------------------------------

/// Resetting a node never touches what is staged, whether it succeeds or not: only
/// dirty flags and the changes they carry go.
pub proof fn law_reset_keeps_staged(nodes: Seq<Node>, id: NodeID, i: int)
    requires
        id < nodes.len(),
        0 <= i < nodes.len(),
    ensures
        cleaning_node(nodes, id).nodes.len() == nodes.len(),
        cleaning_node(nodes, id).nodes[i].staged == nodes[i].staged,
        cleaning_node(nodes, id).nodes[i].kind == nodes[i].kind,
        cleaning_node(nodes, id).nodes[i].parent == nodes[i].parent,
        !cleaning_node(nodes, id).nodes[id as int].dirty,
{
    let clean = nodes.update(id as int, nodes[id as int].without_dirty());
    crate::node::law_cleaning_upwards_only_clears(clean, nodes[id as int].parent, nodes.len());
    let after = cleaning_node(nodes, id).nodes;
    assert(after[i] == clean[i] || after[i] == clean[i].without_dirty());
    assert(after[id as int] == clean[id as int] || after[id as int]
        == clean[id as int].without_dirty());
}

/// The number of files reset at a time stays within its limits.
pub proof fn law_permits_within_limits(queued: usize)
    ensures
        RESET_FILE_DISCOVERY <= permit_target(queued) <= RESET_FILE_MAX,
{
}

} // verus!
