//! The status of a repository: where its branch stands against the remote,
//! what is staged, and what differs on disk.

use vstd::prelude::*;
use vstd::string::*;
use vstd::utf8::*;

use crossbeam::queue::SegQueue;

use crate::change::FileAction;
use crate::change::LoreFileAction;
use crate::change::LoreNodeType;
use crate::change::NodeChange;
use crate::errors::ErrorKind;
use crate::errors::LoreError;
use crate::link::BranchPoint;
use crate::node::cleaning_node;
use crate::node::is_valid_node_id;
use crate::node::Node;
use crate::node::NodeID;
use crate::node::NodeKind;
use crate::node::NodeLink;
use crate::node::NodeTree;
use crate::node::ROOT_NODE;
use crate::path::emit_path_ignore;
use crate::path::join;
use crate::path::joined;
use crate::path::LorePathIgnoreEventData;
use crate::state::RevisionState;
use crate::text::law_longer_text_has_more_bytes;
use crate::text::law_text_after_is_the_rest;
use crate::text::text_after;
use crate::text::text_from;
use crate::types::count_one;
use crate::types::flag;
use crate::types::flag_of;
use crate::types::next_count;
use crate::types::BranchId;
use crate::types::ContentHash;
use crate::types::RepositoryId;

verus! {

// ---------------------------------------------------------------------------
// Events
// ---------------------------------------------------------------------------

/// Where a repository and its branch stand.
#[derive(Debug)]
pub struct LoreRepositoryStatusRevisionEventData {
    /// Repository identifier
    pub repository: RepositoryId,
    /// Current branch identifier
    pub branch: BranchId,
    /// Current branch name
    pub branch_name: String,
    /// Current revision identifier
    pub revision: ContentHash,
    /// Current revision number
    pub revision_number: u64,
    /// Staged revision identifier (zero when nothing is staged)
    pub revision_staged: ContentHash,
    /// Incoming revision identifier of a pending merge (zero when none)
    pub revision_merged: ContentHash,
    /// Last revision merged in from the parent branch (calculated and reported if sync point option is set).
    pub revision_merged_parent_branch: ContentHash,
    /// Local branch latest revision identifier
    pub revision_local: ContentHash,
    /// Local branch latest revision number
    pub revision_local_number: u64,
    /// Remote branch latest revision identifier (zero if unknown, branch not existing on remote or remote not available)
    pub revision_remote: ContentHash,
    /// Remote branch latest revision number (zero if corresponding identifier is zero)
    pub revision_remote_number: u64,
    /// Local holds revisions not on the remote history line
    pub is_local_ahead: u8,
    /// Remote holds revisions not present locally
    pub is_remote_ahead: u8,
    /// Remote configured and reachable with a local identity; connectivity only, not authorization
    pub remote_available: u8,
    /// Remote revision query returned an authoritative answer, identity is authorized to access the repository
    pub remote_authorized: u8,
    /// Branch exists on the remote and the query returned a latest revision
    pub remote_branch_exist: u8,
}

impl LoreRepositoryStatusRevisionEventData {
    /// The event made of its parts.
    pub fn new(
        repository: RepositoryId,
        branch: BranchId,
        branch_name: &str,
        revision: ContentHash,
        revision_number: u64,
        revision_staged: ContentHash,
        revision_merged: ContentHash,
        revision_merged_parent_branch: ContentHash,
        revision_local: ContentHash,
        revision_local_number: u64,
        revision_remote: ContentHash,
        revision_remote_number: u64,
        is_local_ahead: bool,
        is_remote_ahead: bool,
        remote_available: bool,
        remote_authorized: bool,
        remote_branch_exist: bool,
    ) -> (data: LoreRepositoryStatusRevisionEventData)
        ensures
            data.repository == repository,
            data.branch == branch,
            data.branch_name@ == branch_name@,
            data.revision == revision,
            data.revision_number == revision_number,
            data.revision_staged == revision_staged,
            data.revision_merged == revision_merged,
            data.revision_merged_parent_branch == revision_merged_parent_branch,
            data.revision_local == revision_local,
            data.revision_local_number == revision_local_number,
            data.revision_remote == revision_remote,
            data.revision_remote_number == revision_remote_number,
            data.is_local_ahead == flag_of(is_local_ahead),
            data.is_remote_ahead == flag_of(is_remote_ahead),
            data.remote_available == flag_of(remote_available),
            data.remote_authorized == flag_of(remote_authorized),
            data.remote_branch_exist == flag_of(remote_branch_exist),
    {
        LoreRepositoryStatusRevisionEventData {
            repository,
            branch,
            branch_name: branch_name.to_owned(),
            revision,
            revision_number,
            revision_staged,
            revision_merged,
            revision_merged_parent_branch,
            revision_local,
            revision_local_number,
            revision_remote,
            revision_remote_number,
            is_local_ahead: flag(is_local_ahead),
            is_remote_ahead: flag(is_remote_ahead),
            remote_available: flag(remote_available),
            remote_authorized: flag(remote_authorized),
            remote_branch_exist: flag(remote_branch_exist),
        }
    }
}

/// A path that is staged or differs on disk.
#[derive(Debug)]
pub struct LoreRepositoryStatusFileEventData {
    pub path: String,
    pub size: u64,
    pub action: LoreFileAction,
    pub node_type: LoreNodeType,
    pub flag_staged: u8,
    pub flag_merged: u8,
    pub flag_conflict: u8,
    pub flag_conflict_unresolved: u8,
    pub flag_conflict_automerged: u8,
    pub flag_conflict_mine: u8,
    pub flag_conflict_theirs: u8,
    pub flag_dirty: u8,
    pub from_path: String,
}

/// What a changed path stands for: the side it leads to where there is one.
pub open spec fn reported_kind(change: NodeChange) -> NodeKind {
    if change.action == FileAction::Add || change.action == FileAction::Move || is_valid_node_id(
        change.to.node,
    ) {
        change.to.kind
    } else {
        change.from.kind
    }
}

/// The previous path of a change, or an empty text.
pub open spec fn previous_path(change: NodeChange) -> Seq<char> {
    match change.from_path {
        Some(path) => path@,
        None => Seq::empty(),
    }
}

/// An event reports a change.
pub open spec fn reports(
    data: LoreRepositoryStatusFileEventData,
    change: NodeChange,
    size: u64,
    dirty: bool,
) -> bool {
    &&& data.path@ == change.path@
    &&& data.size == size
    &&& data.action == LoreFileAction::spec_of(change.action)
    &&& data.node_type == LoreNodeType::spec_of(reported_kind(change))
    &&& data.flag_staged == flag_of(change.flags.stage)
    &&& data.flag_merged == flag_of(change.flags.merge)
    &&& data.flag_conflict == flag_of(change.flags.conflict)
    &&& data.flag_conflict_unresolved == flag_of(change.flags.conflict_unresolved)
    &&& data.flag_conflict_automerged == flag_of(change.flags.conflict_automerged)
    &&& data.flag_conflict_mine == flag_of(change.flags.conflict_mine)
    &&& data.flag_conflict_theirs == flag_of(change.flags.conflict_theirs)
    &&& data.flag_dirty == flag_of(dirty)
    &&& data.from_path@ == previous_path(change)
}

impl LoreRepositoryStatusFileEventData {
    /// The event that reports a change.
    pub fn from_node_change(change: &NodeChange, size: u64) -> (data:
        LoreRepositoryStatusFileEventData)
        ensures
            reports(data, *change, size, change.flags.dirty),
    {
        let kind = if change.action == FileAction::Add || change.action == FileAction::Move
            || is_valid_node_id(change.to.node) {
            change.to.kind
        } else {
            change.from.kind
        };
        let from_path = match &change.from_path {
            Some(path) => path.clone(),
            None => String::new(),
        };
        LoreRepositoryStatusFileEventData {
            path: change.path.clone(),
            size,
            action: LoreFileAction::of(change.action),
            node_type: LoreNodeType::of(kind),
            flag_staged: flag(change.flags.stage),
            flag_merged: flag(change.flags.merge),
            flag_conflict: flag(change.flags.conflict),
            flag_conflict_unresolved: flag(change.flags.conflict_unresolved),
            flag_conflict_automerged: flag(change.flags.conflict_automerged),
            flag_conflict_mine: flag(change.flags.conflict_mine),
            flag_conflict_theirs: flag(change.flags.conflict_theirs),
            flag_dirty: flag(change.flags.dirty),
            from_path,
        }
    }

    /// The mark of a path that comes from a merge.
    pub fn merged_as_string_short(&self) -> (mark: &'static str)
        ensures
            mark@ == if self.flag_merged != 0 {
                "(M)"@
            } else {
                ""@
            },
    {
        if self.flag_merged != 0 {
            return "(M)";
        }
        ""
    }

    /// The mark of a path with an unresolved conflict.
    pub fn conflict_as_string_short(&self) -> (mark: &'static str)
        ensures
            mark@ == if self.flag_conflict != 0 && self.flag_conflict_unresolved != 0 {
                "!"@
            } else {
                ""@
            },
    {
        if self.flag_conflict != 0 && self.flag_conflict_unresolved != 0 {
            return "!";
        }
        ""
    }
}

/// Size of the tree.
#[derive(Clone, Copy, Debug, PartialEq, Eq, Structural)]
pub struct LoreRepositoryStatusCountEventData {
    /// Number of directories in the tree, view-filtered (staged state if
    /// present, otherwise the current revision)
    pub directories: u64,
    /// Number of files in the tree, view-filtered (staged state if present,
    /// otherwise the current revision)
    pub files: u64,
}

/// Aggregate counts of dirty nodes by action type, emitted once at the end of
/// a reconciling status. For a scan these are the changes detected against the
/// filesystem; for a check of dirty flags they are the nodes that remained
/// dirty.
#[derive(Clone, Copy, Debug, PartialEq, Eq, Structural)]
pub struct LoreRepositoryStatusSummaryEventData {
    pub adds: u64,
    pub deletes: u64,
    pub modifies: u64,
    pub moves: u64,
    pub copies: u64,
}

/// Counters of dirty nodes by what happened to them.
#[derive(Clone, Copy, Debug, PartialEq, Eq, Structural)]
pub struct StatusSummaryStats {
    pub adds: u64,
    pub deletes: u64,
    pub modifies: u64,
    pub moves: u64,
    pub copies: u64,
}

impl Default for StatusSummaryStats {
    fn default() -> (stats: StatusSummaryStats)
        ensures
            stats.adds == 0,
            stats.deletes == 0,
            stats.modifies == 0,
            stats.moves == 0,
            stats.copies == 0,
    {
        StatusSummaryStats { adds: 0, deletes: 0, modifies: 0, moves: 0, copies: 0 }
    }
}

impl StatusSummaryStats {
    /// The counters after one more change. A path that stays was modified.
    pub open spec fn counted(self, action: FileAction) -> StatusSummaryStats {
        match action {
            FileAction::Add => StatusSummaryStats { adds: next_count(self.adds), ..self },
            FileAction::Delete => StatusSummaryStats { deletes: next_count(self.deletes), ..self },
            FileAction::Move => StatusSummaryStats { moves: next_count(self.moves), ..self },
            FileAction::Copy => StatusSummaryStats { copies: next_count(self.copies), ..self },
            FileAction::Keep => StatusSummaryStats { modifies: next_count(self.modifies), ..self },
        }
    }

    /// Increments the counter matching a reported change's action. `Keep` is a
    /// content modification.
    pub fn classify(&mut self, change: &NodeChange)
        ensures
            *final(self) == old(self).counted(change.action),
    {
        match change.action {
            FileAction::Add => {
                self.adds = count_one(self.adds);
            },
            FileAction::Delete => {
                self.deletes = count_one(self.deletes);
            },
            FileAction::Move => {
                self.moves = count_one(self.moves);
            },
            FileAction::Copy => {
                self.copies = count_one(self.copies);
            },
            FileAction::Keep => {
                self.modifies = count_one(self.modifies);
            },
        }
    }

    /// The counts to report.
    pub fn event_data(&self) -> (data: LoreRepositoryStatusSummaryEventData)
        ensures
            data.adds == self.adds,
            data.deletes == self.deletes,
            data.modifies == self.modifies,
            data.moves == self.moves,
            data.copies == self.copies,
    {
        LoreRepositoryStatusSummaryEventData {
            adds: self.adds,
            deletes: self.deletes,
            modifies: self.modifies,
            moves: self.moves,
            copies: self.copies,
        }
    }
}

/// Failure of a status operation.
#[derive(Debug)]
pub struct StatusError {
    pub kind: ErrorKind,
    pub detail: String,
}

impl StatusError {
    /// The code reported for each category.
    pub open spec fn spec_translated(kind: ErrorKind) -> LoreError {
        match kind {
            ErrorKind::Disconnected => LoreError::Connection,
            ErrorKind::SlowDown => LoreError::SlowDown,
            ErrorKind::Oversized => LoreError::Oversized,
            ErrorKind::FileNotFound => LoreError::FileNotFound,
            ErrorKind::NotFound | ErrorKind::LayerNotFound | ErrorKind::RevisionNotFound => {
                LoreError::NotFound
            },
            ErrorKind::AddressNotFound => LoreError::AddressNotFound,
            ErrorKind::PayloadNotFound => LoreError::PayloadNotFound,
            ErrorKind::InvalidArguments | ErrorKind::InvalidPath => LoreError::InvalidArguments,
            _ => LoreError::Internal,
        }
    }

    /// The code reported to callers of the engine.
    pub fn translated(&self) -> (code: LoreError)
        ensures
            code == StatusError::spec_translated(self.kind),
    {
        match self.kind {
            ErrorKind::Disconnected => LoreError::Connection,
            ErrorKind::SlowDown => LoreError::SlowDown,
            ErrorKind::Oversized => LoreError::Oversized,
            ErrorKind::FileNotFound => LoreError::FileNotFound,
            ErrorKind::NotFound | ErrorKind::LayerNotFound | ErrorKind::RevisionNotFound => {
                LoreError::NotFound
            },
            ErrorKind::AddressNotFound => LoreError::AddressNotFound,
            ErrorKind::PayloadNotFound => LoreError::PayloadNotFound,
            ErrorKind::InvalidArguments | ErrorKind::InvalidPath => LoreError::InvalidArguments,
            _ => LoreError::Internal,
        }
    }

    /// The text of the failure.
    pub fn inner(&self) -> (text: String)
        ensures
            text@ == self.detail@,
    {
        self.detail.clone()
    }
}

/// Options of a status operation.
#[derive(Clone, Copy, Debug, PartialEq, Eq, Structural)]
pub struct StatusOptions {
    /// Include staged or not
    pub staged: bool,
    /// Reconcile against the filesystem and refresh dirty tracking.
    pub scan: bool,
    /// Verify dirty flags against the filesystem while reporting tracked state.
    pub check_dirty: bool,
    /// Drop the existing staged anchor before computing status.
    pub reset: bool,
    /// Include sync point
    pub sync_point: bool,
    /// Only emit revision info, skip all diffs
    pub revision_only: bool,
    /// Count directories and files (view-filtered) in the staged state if
    /// present, otherwise the current revision
    pub count: bool,
}

// ---------------------------------------------------------------------------
// Files
// ---------------------------------------------------------------------------

/// Size of a changed file as its staged node records it, in the tree that the change
/// names. A deleted file has no size.
pub fn file_size_from_node_change_id(change: &NodeChange, trees: &Vec<NodeTree>) -> (result: Result<
    u64,
    StatusError,
>)
    requires
        change.to.tree < trees@.len(),
    ensures
        ({
            let nodes = trees@[change.to.tree as int]@;
            &&& result is Ok <==> change.action == FileAction::Delete || change.to.node
                < nodes.len()
            &&& result matches Ok(size) ==> size == if change.action == FileAction::Delete {
                0
            } else {
                nodes[change.to.node as int].size
            }
        }),
        result matches Err(e) ==> e.kind == ErrorKind::NodeNotFound && e.detail@
            == "accessing node path"@,
{
    if change.action == FileAction::Delete {
        return Ok(0);
    }
    match trees[change.to.tree].node(change.to.node) {
        Ok(node) => Ok(node.size),
        Err(kind) => Err(StatusError { kind, detail: "accessing node path".to_owned() }),
    }
}

/// What looking at a file on disk gave.
#[derive(Clone, Copy, Debug, PartialEq, Eq, Structural)]
pub enum FileStat {
    Size(u64),
    NotFound,
    PermissionDenied,
    Failed,
}

/// Size of a changed file on disk, where looking at it tells one.
pub open spec fn disk_size(change: NodeChange, stat: FileStat, denied_while_deleted: bool) -> Option<
    u64,
> {
    if change.action == FileAction::Delete || stat == FileStat::NotFound || (stat
        == FileStat::PermissionDenied && denied_while_deleted) {
        Some(0)
    } else {
        match stat {
            FileStat::Size(size) => Some(size),
            _ => None,
        }
    }
}

/// Size of a changed file on disk. A deleted file has no size, and neither has
/// one that vanished in the meantime. Where `denied_while_deleted` holds, a file
/// in the middle of its deletion shows as one that may not be read.
pub fn file_size_from_node_change_path(
    change: &NodeChange,
    stat: FileStat,
    denied_while_deleted: bool,
) -> (result: Result<u64, StatusError>)
    ensures
        result is Ok <==> disk_size(*change, stat, denied_while_deleted) is Some,
        result matches Ok(size) ==> disk_size(*change, stat, denied_while_deleted) == Some(size),
        result matches Err(e) ==> e.kind == ErrorKind::Internal && e.detail@
            == "accessing metadata for file "@ + change.path@,
{
    if change.action == FileAction::Delete {
        return Ok(0);
    }
    match stat {
        FileStat::Size(size) => Ok(size),
        FileStat::NotFound => Ok(0),
        FileStat::PermissionDenied if denied_while_deleted => Ok(0),
        _ => {
            let mut detail = "accessing metadata for file ".to_owned();
            detail.append(change.path.as_str());
            Err(StatusError { kind: ErrorKind::Internal, detail })
        },
    }
}

/// A dirty change is worth comparing with the file on disk: the path stays, and
/// leads to a file.
pub open spec fn is_comparable(change: NodeChange, nodes: Seq<Node>) -> bool {
    &&& change.action == FileAction::Keep
    &&& is_valid_node_id(change.to.node)
    &&& change.to.node < nodes.len()
    &&& nodes[change.to.node as int].kind == NodeKind::File
}

/// What the file on disk is like, compared with its tracked node.
#[derive(Clone, Copy, Debug, PartialEq, Eq, Structural)]
pub enum DirtyFile {
    /// It is missing, cannot be read or is no file.
    Missing,
    /// Its content or size differs.
    Modified,
    /// It is as tracked.
    Unmodified,
    /// Comparing it failed.
    Failed(ErrorKind),
}

/// Comparing a dirty change with the file on disk.
#[verifier::ext_equal]
pub struct Verified {
    /// The nodes as they stand.
    pub nodes: Seq<Node>,
    /// Some node was written.
    pub wrote: bool,
    /// Whether the file is modified, or why comparing fails.
    pub modified: Result<bool, (ErrorKind, Seq<char>)>,
}

/// Comparing a dirty change with the file on disk. A file that turns out as it is
/// known has its dirty flag cleared, and those of parents without other dirty
/// children.
pub open spec fn verified(nodes: Seq<Node>, change: NodeChange, file: DirtyFile) -> Verified {
    let id = change.to.node;
    let compared = is_comparable(change, nodes);
    if change.action == FileAction::Keep && is_valid_node_id(id) && id >= nodes.len() {
        Verified {
            nodes,
            wrote: false,
            modified: Err((ErrorKind::NodeNotFound, "loading dirty node for verification"@)),
        }
    } else if compared && file is Failed {
        Verified {
            nodes,
            wrote: false,
            modified: Err((file->Failed_0, "comparing dirty file against filesystem"@)),
        }
    } else if compared && file == DirtyFile::Unmodified {
        let climb = cleaning_node(nodes, id);
        Verified {
            nodes: climb.nodes,
            wrote: true,
            modified: match climb.fault {
                Some(kind) => Err((kind, "clearing stale dirty flag"@)),
                None => Ok(false),
            },
        }
    } else {
        Verified { nodes, wrote: false, modified: Ok(true) }
    }
}

/// Verify whether a dirty file change reflects a real on-disk modification,
/// clearing the node's dirty flag when it does not.
///
/// Structural dirty actions (add/move/copy/delete) are modifications by
/// definition. A file that turns out unmodified has its dirty flag cleared on
/// the staged node (propagating to parents), in the tree that the change names. A
/// missing or unreadable file is reported as modified.
pub fn dirty_change_is_modified(
    change: &NodeChange,
    trees: &mut Vec<NodeTree>,
    file: DirtyFile,
) -> (result: Result<bool, StatusError>)
    requires
        change.to.tree < old(trees)@.len(),
    ensures
        ({
            let at = change.to.tree as int;
            let after = verified(old(trees)@[at]@, *change, file);
            &&& final(trees)@ == old(trees)@.update(at, final(trees)@[at])
            &&& final(trees)@[at]@ == after.nodes
            &&& final(trees)@[at].modified == (old(trees)@[at].modified || after.wrote)
            &&& result is Ok <==> after.modified is Ok
            &&& result matches Ok(modified) ==> after.modified->Ok_0 == modified
            &&& result matches Err(e) ==> after.modified->Err_0 == (e.kind, e.detail@)
        }),
{
    let at = change.to.tree;
    assert(trees@.update(at as int, trees@[at as int]) =~= trees@);
    if change.action != FileAction::Keep {
        return Ok(true);
    }
    let id = change.to.node;
    if !is_valid_node_id(id) {
        return Ok(true);
    }
    let node = match trees[at].node(id) {
        Ok(node) => node,
        Err(kind) => {
            return Err(
                StatusError { kind, detail: "loading dirty node for verification".to_owned() },
            );
        },
    };
    if !node.is_file() {
        return Ok(true);
    }
    match file {
        DirtyFile::Missing => Ok(true),
        DirtyFile::Modified => Ok(true),
        DirtyFile::Failed(kind) => Err(
            StatusError { kind, detail: "comparing dirty file against filesystem".to_owned() },
        ),
        DirtyFile::Unmodified => match trees[at].node_clear_dirty(id) {
            Ok(()) => Ok(false),
            Err(kind) => Err(StatusError { kind, detail: "clearing stale dirty flag".to_owned() }),
        },
    }
}

// ---------------------------------------------------------------------------
// Counting directories and files
// ---------------------------------------------------------------------------

/// Upper bound on concurrent subtree-counting tasks. Counting is dominated by
/// per-directory node-block reads (and link resolutions that may reach other
/// repositories), so overlapping them up to this many in-flight tasks hides I/O
/// latency while keeping fan-out bounded on huge trees.
pub const COUNT_MAX_CONCURRENCY: usize = 128;

/// The number of tasks that count subtrees.
pub fn count_workers(processors: usize) -> (workers: usize)
    ensures
        workers == if processors < 1 {
            1
        } else if processors > COUNT_MAX_CONCURRENCY {
            COUNT_MAX_CONCURRENCY
        } else {
            processors
        },
{
    if processors < 1 {
        1
    } else if processors > COUNT_MAX_CONCURRENCY {
        COUNT_MAX_CONCURRENCY
    } else {
        processors
    }
}

/// A directory (or resolved link target) whose children still need counting: a
/// number that stands for its state, its node and its path.
pub type CountWork = (u64, u32, String);

/// A directory whose children still need counting, as contracts speak of it.
pub type CountWorkView = (u64, u32, Seq<char>);

/// A directory whose children still need counting, as contracts speak of it.
pub open spec fn work_view(work: CountWork) -> CountWorkView {
    (work.0, work.1, work.2@)
}

/// Directories whose children still need counting, as contracts speak of them.
pub open spec fn work_views(works: Seq<CountWork>) -> Seq<CountWorkView> {
    works.map_values(|work: CountWork| work_view(work))
}

/// What the root of a count is: itself a directory or a file, and then what
/// lies below it.
#[derive(Debug)]
pub struct CountRoot {
    pub directories: u64,
    pub files: u64,
    pub below: Option<CountTarget>,
}

/// A directory to count the children of. Where there is a link, its state is
/// resolved first; otherwise the state is that of its parent.
#[derive(Debug)]
pub struct CountTarget {
    pub link: Option<NodeLink>,
    pub node_id: NodeID,
    pub path: String,
}

/// A node that a path leads to.
#[derive(Clone, Copy, Debug)]
pub struct CountNode {
    pub node_id: NodeID,
    pub node: Node,
}

/// Resolves `source_path` to what is needed to count its subtree, labelling
/// descendant paths under `target_path` for view filtering. The two differ for
/// a layer. A file counts as one file; a directory or link as one directory
/// with what lies below it. An empty `source_path` is the root of the state. An
/// unresolved path counts for nothing.
pub fn count_at_path_root(
    source_path: &str,
    target_path: &str,
    found: Option<CountNode>,
) -> (root: CountRoot)
    ensures
        ({
            let is_root = source_path@.len() == 0;
            let is_file = !is_root && found is Some && found->0.node.kind == NodeKind::File;
            let is_link = !is_root && found is Some && found->0.node.kind == NodeKind::Link;
            let is_directory = is_root || (found is Some && !is_file);
            &&& root.files == if is_file {
                1u64
            } else {
                0
            }
            &&& root.directories == if is_directory {
                1u64
            } else {
                0
            }
            &&& root.below is Some <==> is_directory
            &&& root.below matches Some(below) ==> {
                &&& below.path@ == target_path@
                &&& below.link == if is_link {
                    Some(found->0.node.link)
                } else {
                    None
                }
                &&& below.node_id == if is_root {
                    ROOT_NODE
                } else if is_link {
                    found->0.node.link.node
                } else {
                    found->0.node_id
                }
            }
        }),
{
    if source_path.is_empty() {
        return CountRoot {
            directories: 1,
            files: 0,
            below: Some(
                CountTarget { link: None, node_id: ROOT_NODE, path: target_path.to_owned() },
            ),
        };
    }
    match found {
        None => CountRoot { directories: 0, files: 0, below: None },
        Some(CountNode { node_id, node }) => if node.is_file() {
            CountRoot { directories: 0, files: 1, below: None }
        } else if node.is_link() {
            CountRoot {
                directories: 1,
                files: 0,
                below: Some(
                    CountTarget {
                        link: Some(node.link),
                        node_id: node.link.node,
                        path: target_path.to_owned(),
                    },
                ),
            }
        } else {
            CountRoot {
                directories: 1,
                files: 0,
                below: Some(CountTarget { link: None, node_id, path: target_path.to_owned() }),
            }
        },
    }
}

/// A child of a directory that is counted.
#[derive(Debug)]
pub struct CountChild {
    pub node_id: NodeID,
    pub node: Node,
    pub name: String,
    /// The view filter hides it.
    pub excluded: bool,
}

/// Number of visible children that are directories or links.
pub open spec fn visible_directories(children: Seq<CountChild>) -> nat
    decreases children.len(),
{
    if children.len() == 0 {
        0
    } else {
        let child = children.last();
        visible_directories(children.drop_last()) + if !child.excluded && child.node.kind
            != NodeKind::File {
            1nat
        } else {
            0
        }
    }
}

/// Number of visible children that are files.
pub open spec fn visible_files(children: Seq<CountChild>) -> nat
    decreases children.len(),
{
    if children.len() == 0 {
        0
    } else {
        let child = children.last();
        visible_files(children.drop_last()) + if !child.excluded && child.node.kind
            == NodeKind::File {
            1nat
        } else {
            0
        }
    }
}

/// Where counting goes on below a directory: its visible directories, and what
/// its visible links lead to.
pub open spec fn count_below(path: Seq<char>, children: Seq<CountChild>) -> Seq<
    (Option<NodeLink>, NodeID, Seq<char>),
>
    decreases children.len(),
{
    if children.len() == 0 {
        Seq::empty()
    } else {
        let child = children.last();
        let before = count_below(path, children.drop_last());
        let below = joined(path, child.name@);
        if child.excluded || child.node.kind == NodeKind::File {
            before
        } else if child.node.kind == NodeKind::Link {
            before.push((Some(child.node.link), child.node.link.node, below))
        } else {
            before.push((None, child.node_id, below))
        }
    }
}

/// A place where counting goes on, as contracts speak of it.
pub open spec fn target_view(target: CountTarget) -> (Option<NodeLink>, NodeID, Seq<char>) {
    (target.link, target.node_id, target.path@)
}

/// The children of one directory.
#[derive(Debug)]
pub struct ChildCount {
    pub directories: u64,
    pub files: u64,
    pub pushed: Vec<CountTarget>,
}

/// Count a directory's direct children, honoring the view filter. A link node is
/// counted as a directory and descended into.
pub fn count_node_children(path: &str, children: &Vec<CountChild>) -> (count: ChildCount)
    ensures
        count.directories == visible_directories(children@),
        count.files == visible_files(children@),
        count.pushed@.map_values(|target: CountTarget| target_view(target)) == count_below(
            path@,
            children@,
        ),
{
    let mut directories: u64 = 0;
    let mut files: u64 = 0;
    let mut pushed: Vec<CountTarget> = Vec::new();
    let mut i: usize = 0;
    assert(children@.take(0) =~= Seq::empty());
    assert(pushed@.map_values(|target: CountTarget| target_view(target)) =~= Seq::empty());
    while i < children.len()
        invariant
            i <= children@.len(),
            children@.len() == children.len(),
            directories == visible_directories(children@.take(i as int)),
            files == visible_files(children@.take(i as int)),
            directories <= i,
            files <= i,
            pushed@.map_values(|target: CountTarget| target_view(target)) == count_below(
                path@,
                children@.take(i as int),
            ),
        decreases children@.len() - i,
    {
        let child = &children[i];
        let ghost before = pushed@;
        assert(children@.take(i + 1).last() == *child);
        assert(children@.take(i + 1).drop_last() =~= children@.take(i as int));
        i = i + 1;
        if child.excluded {
            continue ;
        }
        if child.node.is_file() {
            files = files + 1;
            continue ;
        }
        directories = directories + 1;
        let below = join(path, child.name.as_str());
        let target = if child.node.is_link() {
            CountTarget {
                link: Some(child.node.link),
                node_id: child.node.link.node,
                path: below,
            }
        } else {
            CountTarget { link: None, node_id: child.node_id, path: below }
        };
        pushed.push(target);
        assert(pushed@.map_values(|target: CountTarget| target_view(target))
            =~= before.map_values(|target: CountTarget| target_view(target)).push(
            target_view(target),
        ));
    }
    assert(children@.take(i as int) =~= children@);
    ChildCount { directories, files, pushed }
}

/// Every visible child is counted once, as a directory or as a file, and none that is
/// hidden.
pub proof fn law_visible_children_are_counted(children: Seq<CountChild>)
    ensures
        visible_directories(children) + visible_files(children) == children.filter(
            |child: CountChild| !child.excluded,
        ).len(),
    decreases children.len(),
{
    reveal(Seq::filter);
    if children.len() > 0 {
        law_visible_children_are_counted(children.drop_last());
    }
}

/// Counting goes on at every visible directory and behind every visible link, below
/// its own path, and nowhere else: as often as directories are counted.
pub proof fn law_counting_goes_below_directories(
    path: Seq<char>,
    children: Seq<CountChild>,
    i: int,
)
    requires
        0 <= i < children.len(),
        !children[i].excluded,
    ensures
        count_below(path, children).len() == visible_directories(children),
        children[i].node.kind == NodeKind::Directory ==> count_below(path, children).contains(
            (None, children[i].node_id, joined(path, children[i].name@)),
        ),
        children[i].node.kind == NodeKind::Link ==> count_below(path, children).contains(
            (
                Some(children[i].node.link),
                children[i].node.link.node,
                joined(path, children[i].name@),
            ),
        ),
    decreases children.len(),
{
    let below = count_below(path, children);
    let before = count_below(path, children.drop_last());
    lemma_below_as_often(path, children);
    if i < children.len() - 1 {
        law_counting_goes_below_directories(path, children.drop_last(), i);
        assert forall|x: (Option<NodeLink>, NodeID, Seq<char>)| before.contains(x) implies
            below.contains(x) by {
            let n = before.index_of(x);
            assert(below[n] == x);
        }
    } else if children[i].node.kind != NodeKind::File {
        assert(below[before.len() as int] == below.last());
    }
}

proof fn lemma_below_as_often(path: Seq<char>, children: Seq<CountChild>)
    ensures
        count_below(path, children).len() == visible_directories(children),
    decreases children.len(),
{
    if children.len() > 0 {
        lemma_below_as_often(path, children.drop_last());
    }
}

/// The files and directories of two lists together are those of both.
pub proof fn law_counts_add_up(a: Seq<CountChild>, b: Seq<CountChild>)
    ensures
        visible_directories(a + b) == visible_directories(a) + visible_directories(b),
        visible_files(a + b) == visible_files(a) + visible_files(b),
    decreases b.len(),
{
    if b.len() == 0 {
        assert(a + b =~= a);
    } else {
        assert((a + b).drop_last() =~= a + b.drop_last());
        law_counts_add_up(a, b.drop_last());
    }
}

/// Unbounded queue of the `crossbeam` crate.
#[verifier::external_type_specification]
#[verifier::external_body]
#[verifier::reject_recursive_types(T)]
pub struct ExSegQueue<T>(crossbeam::queue::SegQueue<T>);

/// The directories that wait in a queue, first in front.
pub uninterp spec fn queued_work(queue: SegQueue<CountWork>) -> Seq<CountWorkView>;

/// No directories.
pub open spec fn no_work() -> Seq<CountWorkView> {
    Seq::empty()
}

/// `SegQueue::new` makes an empty queue.
#[verifier::external_body]
fn queue_new() -> (queue: SegQueue<CountWork>)
    ensures
        queued_work(queue) == no_work(),
{
    SegQueue::new()
}

/// `SegQueue::push` appends to a queue.
#[verifier::external_body]
fn queue_push(queue: &mut SegQueue<CountWork>, work: CountWork)
    ensures
        queued_work(*final(queue)) == queued_work(*old(queue)).push(work_view(work)),
{
    queue.push(work);
}

/// `SegQueue::pop` takes the first element of a queue that is not empty.
#[verifier::external_body]
fn queue_pop(queue: &mut SegQueue<CountWork>) -> (work: Option<CountWork>)
    ensures
        work is Some <==> queued_work(*old(queue)).len() > 0,
        work matches Some(first) ==> {
            &&& work_view(first) == queued_work(*old(queue))[0]
            &&& queued_work(*final(queue)) == queued_work(*old(queue)).drop_first()
        },
        work is None ==> queued_work(*final(queue)) == queued_work(*old(queue)),
{
    queue.pop()
}

/// Shared state for the bounded worker pool counting view-filtered nodes.
///
/// The recursion is an explicit queue of [`CountWork`] items drained by a fixed
/// set of workers. `outstanding` is the number of items neither fully processed
/// nor yet counted (queued plus in flight); workers exit once it reaches zero.
/// The first error is kept, after which workers stop processing but keep
/// draining so the counter still reaches zero and every worker terminates.
pub struct CountShared {
    queue: SegQueue<CountWork>,
    outstanding: usize,
    directories: u64,
    files: u64,
    error: Option<StatusError>,
}

/// What a pool of counting workers holds.
pub struct CountPool {
    pub queue: Seq<CountWorkView>,
    /// Items that were handed out and not finished.
    pub in_flight: int,
    pub directories: u64,
    pub files: u64,
    pub error: Option<StatusError>,
}

impl View for CountShared {
    type V = CountPool;

    closed spec fn view(&self) -> CountPool {
        CountPool {
            queue: queued_work(self.queue),
            in_flight: self.outstanding - queued_work(self.queue).len(),
            directories: self.directories,
            files: self.files,
            error: self.error,
        }
    }
}

/// A counter after more was counted. It starts over after the largest number.
pub open spec fn added(count: u64, more: u64) -> u64 {
    if count + more > u64::MAX {
        (count + more - u64::MAX - 1) as u64
    } else {
        (count + more) as u64
    }
}

/// The pool after a worker asked for an item: the first one is handed out, and after a
/// failure the queue is drained.
pub open spec fn pool_next(pool: CountPool) -> CountPool {
    if pool.error is None && pool.queue.len() > 0 {
        CountPool { queue: pool.queue.drop_first(), in_flight: pool.in_flight + 1, ..pool }
    } else {
        CountPool { queue: Seq::empty(), ..pool }
    }
}

/// The pool after a worker counted an item: its directories, its files, and what it
/// found to count below.
pub open spec fn pool_finish(
    pool: CountPool,
    directories: u64,
    files: u64,
    below: Seq<CountWorkView>,
) -> CountPool {
    if pool.error is None {
        CountPool {
            queue: pool.queue + below,
            in_flight: pool.in_flight - 1,
            directories: added(pool.directories, directories),
            files: added(pool.files, files),
            error: None,
        }
    } else {
        CountPool { in_flight: pool.in_flight - 1, ..pool }
    }
}

/// The pool after items were handed out and counted, one after the other.
pub open spec fn pool_after(
    pool: CountPool,
    results: Seq<(u64, u64, Seq<CountWorkView>)>,
    count: nat,
) -> CountPool
    decreases count,
{
    if count == 0 {
        pool
    } else {
        let before = pool_after(pool, results, (count - 1) as nat);
        let result = results[count - 1];
        pool_finish(pool_next(before), result.0, result.1, result.2)
    }
}

/// Sum of the directories, of the files, and of what was found below, of the first
/// results.
pub open spec fn sums(results: Seq<(u64, u64, Seq<CountWorkView>)>, count: nat) -> (nat, nat, nat)
    decreases count,
{
    if count == 0 {
        (0, 0, 0)
    } else {
        let before = sums(results, (count - 1) as nat);
        let result = results[count - 1];
        (before.0 + result.0 as nat, before.1 + result.1 as nat, before.2 + result.2.len())
    }
}

/// A pool adds up what its workers count: after any number of items it has the
/// directories and files of all of them, and the items that are left are those that it
/// had and those that were found, without those that were handed out.
pub proof fn law_pool_adds_up_what_is_counted(
    pool: CountPool,
    results: Seq<(u64, u64, Seq<CountWorkView>)>,
    count: nat,
)
    requires
        pool.error is None,
        forall|n: nat| n < count ==> (#[trigger] pool_after(pool, results, n)).queue.len() > 0,
        pool.directories + sums(results, count).0 <= u64::MAX,
        pool.files + sums(results, count).1 <= u64::MAX,
    ensures
        ({
            let after = pool_after(pool, results, count);
            let total = sums(results, count);
            &&& after.error is None
            &&& after.directories == pool.directories + total.0
            &&& after.files == pool.files + total.1
            &&& after.in_flight == pool.in_flight
            &&& after.queue.len() == pool.queue.len() + total.2 - count
        }),
    decreases count,
{
    if count > 0 {
        law_pool_adds_up_what_is_counted(pool, results, (count - 1) as nat);
        assert(pool_after(pool, results, (count - 1) as nat).queue.len() > 0);
    }
}

/// Items are handed out in the order in which they were queued, and nothing but asking
/// for an item takes one from the queue.
pub proof fn law_pool_hands_out_in_order(
    pool: CountPool,
    directories: u64,
    files: u64,
    below: Seq<CountWorkView>,
)
    requires
        pool.error is None,
        pool.queue.len() > 0,
    ensures
        pool_next(pool).queue == pool.queue.skip(1),
        pool_next(pool).directories == pool.directories,
        pool_next(pool).files == pool.files,
        pool.queue.is_prefix_of(pool_finish(pool, directories, files, below).queue),
        pool_finish(pool, directories, files, below).queue.skip(pool.queue.len() as int) == below,
{
    assert(pool.queue.drop_first() =~= pool.queue.skip(1));
    assert((pool.queue + below).skip(pool.queue.len() as int) =~= below);
}

/// What a counting worker does next.
pub enum CountNext {
    /// Count the children of a directory.
    Work(CountWork),
    /// Wait for other workers, which may still find more.
    Wait,
    /// Everything is counted.
    Done,
}

impl CountShared {
    /// The number of items queued and in flight.
    pub closed spec fn spec_outstanding(&self) -> int {
        self.outstanding as int
    }

    /// A pool that starts with some directories.
    pub fn new(roots: Vec<CountWork>) -> (pool: CountShared)
        ensures
            pool@.queue == work_views(roots@),
            pool@.in_flight == 0,
            pool@.directories == 0,
            pool@.files == 0,
            pool@.error is None,
            pool.spec_outstanding() == roots@.len(),
    {
        let mut queue = queue_new();
        let outstanding = roots.len();
        let mut i: usize = 0;
        assert(roots@.take(0) =~= Seq::empty());
        assert(work_views(roots@.take(0)) =~= no_work());
        while i < roots.len()
            invariant
                i <= roots@.len(),
                queued_work(queue) == work_views(roots@.take(i as int)),
            decreases roots@.len() - i,
        {
            let work = (roots[i].0, roots[i].1, roots[i].2.clone());
            queue_push(&mut queue, work);
            i = i + 1;
            assert(roots@.take(i as int) =~= roots@.take(i - 1).push(roots@[i - 1]));
            assert(work_views(roots@.take(i as int)) =~= work_views(roots@.take(i - 1)).push(
                work_view(roots@[i - 1]),
            ));
        }
        assert(roots@.take(i as int) =~= roots@);
        CountShared { queue, outstanding, directories: 0, files: 0, error: None }
    }

    /// The next item for a worker. After a failure the queue is only drained.
    pub fn next(&mut self) -> (next: CountNext)
        requires
            old(self)@.in_flight >= 0,
        ensures
            final(self)@ == pool_next(old(self)@),
            final(self)@.directories == old(self)@.directories,
            final(self)@.files == old(self)@.files,
            final(self)@.error == old(self)@.error,
            ({
                let before = old(self)@;
                let after = final(self)@;
                if before.error is None && before.queue.len() > 0 {
                    &&& next matches CountNext::Work(work)
                    &&& work_view(work) == before.queue[0]
                    &&& after.queue == before.queue.drop_first()
                    &&& after.in_flight == before.in_flight + 1
                    &&& final(self).spec_outstanding() == old(self).spec_outstanding()
                } else {
                    &&& after.queue.len() == 0
                    &&& after.in_flight == before.in_flight
                    &&& next is Done <==> before.in_flight == 0
                    &&& next is Wait <==> before.in_flight > 0
                    &&& final(self).spec_outstanding() == before.in_flight
                }
            }),
    {
        loop
            invariant
                self@.directories == old(self)@.directories,
                self@.files == old(self)@.files,
                self@.error == old(self)@.error,
                self@.in_flight == old(self)@.in_flight,
                self@.in_flight >= 0,
                self@.error is None ==> *self == *old(self),
            decreases queued_work(self.queue).len(),
        {
            match queue_pop(&mut self.queue) {
                Some(work) => {
                    if self.error.is_none() {
                        assert(self@ == pool_next(old(self)@));
                        return CountNext::Work(work);
                    }
                    self.outstanding = self.outstanding - 1;
                },
                None => {
                    assert(self@.queue =~= Seq::empty());
                    if self.outstanding == 0 {
                        return CountNext::Done;
                    }
                    return CountNext::Wait;
                },
            }
        }
    }

    /// Takes the outcome of an item that was handed out: what it counted and
    /// the directories found below it, or its failure. Only the first failure is
    /// kept.
    pub fn finish(&mut self, result: Result<(u64, u64, Vec<CountWork>), StatusError>)
        requires
            old(self)@.in_flight >= 1,
            result matches Ok(counted) ==> old(self).spec_outstanding() + counted.2@.len()
                <= usize::MAX,
        ensures
            result matches Ok(counted) ==> final(self)@ == pool_finish(
                old(self)@,
                counted.0,
                counted.1,
                work_views(counted.2@),
            ),
            final(self)@.in_flight == old(self)@.in_flight - 1,
            ({
                let before = old(self)@;
                let after = final(self)@;
                match result {
                    Ok(counted) => if before.error is None {
                        &&& after.queue == before.queue + work_views(counted.2@)
                        &&& after.directories == added(before.directories, counted.0)
                        &&& after.files == added(before.files, counted.1)
                        &&& after.error is None
                        &&& final(self).spec_outstanding() == old(self).spec_outstanding()
                            + counted.2@.len() - 1
                    } else {
                        &&& after.queue == before.queue
                        &&& after.directories == before.directories
                        &&& after.files == before.files
                        &&& after.error == before.error
                        &&& final(self).spec_outstanding() == old(self).spec_outstanding() - 1
                    },
                    Err(error) => {
                        &&& after.queue == before.queue
                        &&& after.directories == before.directories
                        &&& after.files == before.files
                        &&& after.error == if before.error is None {
                            Some(error)
                        } else {
                            before.error
                        }
                        &&& final(self).spec_outstanding() == old(self).spec_outstanding() - 1
                    },
                }
            }),
    {
        match result {
            Ok((directories, files, pushed)) => {
                if self.error.is_none() {
                    self.directories = self.directories.wrapping_add(directories);
                    self.files = self.files.wrapping_add(files);
                    self.outstanding = self.outstanding + pushed.len();
                    let mut i: usize = 0;
                    let ghost started = queued_work(self.queue);
                    assert(pushed@.take(0) =~= Seq::empty());
                    assert(started + work_views(pushed@.take(0)) =~= started);
                    while i < pushed.len()
                        invariant
                            i <= pushed@.len(),
                            queued_work(self.queue) == started + work_views(
                                pushed@.take(i as int),
                            ),
                            self.directories == added(old(self)@.directories, directories),
                            self.files == added(old(self)@.files, files),
                            self.error == old(self)@.error,
                            self.outstanding == old(self).spec_outstanding() + pushed@.len(),
                        decreases pushed@.len() - i,
                    {
                        let work = (pushed[i].0, pushed[i].1, pushed[i].2.clone());
                        queue_push(&mut self.queue, work);
                        i = i + 1;
                        assert(pushed@.take(i as int) =~= pushed@.take(i - 1).push(
                            pushed@[i - 1],
                        ));
                        assert(started + work_views(pushed@.take(i as int)) =~= (started
                            + work_views(pushed@.take(i - 1))).push(work_view(pushed@[i - 1])));
                    }
                    assert(pushed@.take(i as int) =~= pushed@);
                }
            },
            Err(error) => {
                if self.error.is_none() {
                    self.error = Some(error);
                }
            },
        }
        self.outstanding = self.outstanding - 1;
    }

    /// The directories and files that were counted, or the first failure.
    pub fn into_counts(self) -> (result: Result<(u64, u64), StatusError>)
        ensures
            result is Ok <==> self@.error is None,
            result matches Ok(counts) ==> counts.0 == self@.directories && counts.1 == self@.files,
            result matches Err(error) ==> Some(error) == self@.error,
    {
        match self.error {
            None => Ok((self.directories, self.files)),
            Some(error) => Err(error),
        }
    }
}

/// A pool is done exactly when nothing is queued and nothing is in flight.
pub proof fn law_pool_is_done_when_empty(pool: CountShared)
    ensures
        pool.spec_outstanding() == pool@.queue.len() + pool@.in_flight,
{
}

/// It does not matter which of two workers adds its counts first.
pub proof fn law_counts_add_in_any_order(count: u64, a: u64, b: u64)
    ensures
        added(added(count, a), b) == added(added(count, b), a),
{
}

/// Sum of the directories of roots.
pub open spec fn root_directories(roots: Seq<CountRoot>) -> nat
    decreases roots.len(),
{
    if roots.len() == 0 {
        0
    } else {
        root_directories(roots.drop_last()) + roots.last().directories as nat
    }
}

/// Sum of the files of roots.
pub open spec fn root_files(roots: Seq<CountRoot>) -> nat
    decreases roots.len(),
{
    if roots.len() == 0 {
        0
    } else {
        root_files(roots.drop_last()) + roots.last().files as nat
    }
}

/// The counts of some roots and more are those of both, and a root counts for itself.
pub proof fn law_root_counts_add_up(a: Seq<CountRoot>, b: Seq<CountRoot>, root: CountRoot)
    ensures
        root_directories(a + b) == root_directories(a) + root_directories(b),
        root_files(a + b) == root_files(a) + root_files(b),
        root_directories(seq![root]) == root.directories,
        root_files(seq![root]) == root.files,
    decreases b.len(),
{
    if b.len() == 0 {
        assert(a + b =~= a);
    } else {
        assert((a + b).drop_last() =~= a + b.drop_last());
        law_root_counts_add_up(a, b.drop_last(), root);
    }
    let one = seq![root];
    assert(one.drop_last() =~= Seq::empty());
    reveal_with_fuel(root_directories, 2);
    reveal_with_fuel(root_files, 2);
}

proof fn lemma_root_counts_grow(roots: Seq<CountRoot>, i: int)
    requires
        0 <= i <= roots.len(),
    ensures
        root_directories(roots.take(i)) <= root_directories(roots),
        root_files(roots.take(i)) <= root_files(roots),
    decreases roots.len(),
{
    if i == roots.len() {
        assert(roots.take(i) =~= roots);
    } else {
        lemma_root_counts_grow(roots.drop_last(), i);
        assert(roots.drop_last().take(i) =~= roots.take(i));
    }
}

/// The size of the tree: the roots of the count and what lies below them.
pub fn count_total(roots: &Vec<CountRoot>, directories: u64, files: u64) -> (data:
    LoreRepositoryStatusCountEventData)
    requires
        root_directories(roots@) + directories <= u64::MAX,
        root_files(roots@) + files <= u64::MAX,
    ensures
        data.directories == root_directories(roots@) + directories,
        data.files == root_files(roots@) + files,
{
    let mut root_directory_count: u64 = 0;
    let mut root_file_count: u64 = 0;
    let mut i: usize = 0;
    assert(roots@.take(0) =~= Seq::empty());
    while i < roots.len()
        invariant
            i <= roots@.len(),
            root_directory_count == root_directories(roots@.take(i as int)),
            root_file_count == root_files(roots@.take(i as int)),
            root_directories(roots@) + directories <= u64::MAX,
            root_files(roots@) + files <= u64::MAX,
        decreases roots@.len() - i,
    {
        assert(roots@.take(i + 1).drop_last() =~= roots@.take(i as int));
        proof {
            lemma_root_counts_grow(roots@, i + 1);
        }
        root_directory_count = root_directory_count + roots[i].directories;
        root_file_count = root_file_count + roots[i].files;
        i = i + 1;
    }
    assert(roots@.take(i as int) =~= roots@);
    LoreRepositoryStatusCountEventData {
        directories: root_directory_count + directories,
        files: root_file_count + files,
    }
}

// ---------------------------------------------------------------------------
// Layers
// ---------------------------------------------------------------------------

/// The revisions of a layer.
#[derive(Clone, Copy, Debug)]
pub struct LayerRevisions {
    pub current: ContentHash,
    pub staged: ContentHash,
}

/// A layer has staged changes of its own.
pub open spec fn layer_is_staged(layer: LayerRevisions) -> bool {
    !layer.staged.is_zero() && layer.staged != layer.current
}

/// Tells whether anything is staged, in the repository or in one of its layers.
pub fn has_staged_changes(repository_staged: bool, layers: &Vec<LayerRevisions>) -> (staged: bool)
    ensures
        staged <==> repository_staged || exists|i: int|
            0 <= i < layers@.len() && layer_is_staged(#[trigger] layers@[i]),
{
    let mut staged = repository_staged;
    let mut i: usize = 0;
    while i < layers.len()
        invariant
            i <= layers@.len(),
            staged <==> repository_staged || exists|j: int|
                0 <= j < i && layer_is_staged(#[trigger] layers@[j]),
        decreases layers@.len() - i,
    {
        if !layers[i].staged.is_zero() && layers[i].staged != layers[i].current {
            assert(layer_is_staged(layers@[i as int]));
            staged = true;
        }
        i = i + 1;
    }
    staged
}

/// A layer and where its source was found.
#[derive(Debug)]
pub struct LayerSource {
    pub target_path: String,
    pub source_node: Option<NodeID>,
}

/// A layer that the filesystem walk compares with its own tree.
#[derive(Debug)]
pub struct LayerMountInfo {
    /// Position of the layer in the list of layers.
    pub layer: usize,
    pub target_path: String,
    pub source_node: NodeID,
}

/// The layers whose source was found, in order.
pub open spec fn mounts_of(layers: Seq<LayerSource>) -> Seq<(int, Seq<char>, NodeID)>
    decreases layers.len(),
{
    if layers.len() == 0 {
        Seq::empty()
    } else {
        let before = mounts_of(layers.drop_last());
        match layers.last().source_node {
            Some(node) => before.push((layers.len() - 1, layers.last().target_path@, node)),
            None => before,
        }
    }
}

/// Every layer whose source was found is mounted at its path, and no other is.
pub proof fn law_found_layers_are_mounted(layers: Seq<LayerSource>, p: int)
    requires
        0 <= p < layers.len(),
    ensures
        layers[p].source_node matches Some(node) ==> mounts_of(layers).contains(
            (p, layers[p].target_path@, node),
        ),
        layers[p].source_node is None ==> forall|i: int|
            0 <= i < mounts_of(layers).len() ==> (#[trigger] mounts_of(layers)[i]).0 != p,
        forall|i: int|
            0 <= i < mounts_of(layers).len() ==> 0 <= (#[trigger] mounts_of(layers)[i]).0
                < layers.len(),
    decreases layers.len(),
{
    let earlier = layers.drop_last();
    let before = mounts_of(earlier);
    let all = mounts_of(layers);
    lemma_mounts_in_range(earlier);
    lemma_mounts_in_range(layers);
    if p < earlier.len() {
        assert(earlier[p] == layers[p]);
        law_found_layers_are_mounted(earlier, p);
        if let Some(node) = layers[p].source_node {
            let i = before.index_of((p, layers[p].target_path@, node));
            assert(all[i] == before[i]);
        }
    } else {
        if let Some(node) = layers[p].source_node {
            assert(all[all.len() - 1] == (p, layers[p].target_path@, node));
        }
    }
}

proof fn lemma_mounts_in_range(layers: Seq<LayerSource>)
    ensures
        forall|i: int|
            0 <= i < mounts_of(layers).len() ==> 0 <= (#[trigger] mounts_of(layers)[i]).0
                < layers.len(),
    decreases layers.len(),
{
    if layers.len() > 0 {
        lemma_mounts_in_range(layers.drop_last());
        let before = mounts_of(layers.drop_last());
        let all = mounts_of(layers);
        assert forall|i: int| 0 <= i < all.len() implies 0 <= (#[trigger] all[i]).0
            < layers.len() by {
            if i < before.len() {
                assert(all[i] == before[i]);
            }
        }
    }
}

/// A mounted layer, as contracts speak of it.
pub open spec fn mount_view(mount: LayerMountInfo) -> (int, Seq<char>, NodeID) {
    (mount.layer as int, mount.target_path@, mount.source_node)
}

/// The layers that the filesystem walk switches to. A layer whose source is not
/// found is passed over.
pub fn layer_mounts(layers: &Vec<LayerSource>) -> (mounts: Vec<LayerMountInfo>)
    ensures
        mounts@.map_values(|mount: LayerMountInfo| mount_view(mount)) == mounts_of(layers@),
{
    let mut mounts: Vec<LayerMountInfo> = Vec::new();
    let mut i: usize = 0;
    assert(layers@.take(0) =~= Seq::empty());
    assert(mounts@.map_values(|mount: LayerMountInfo| mount_view(mount)) =~= Seq::empty());
    while i < layers.len()
        invariant
            i <= layers@.len(),
            mounts@.map_values(|mount: LayerMountInfo| mount_view(mount)) == mounts_of(
                layers@.take(i as int),
            ),
        decreases layers@.len() - i,
    {
        let ghost before = mounts@;
        assert(layers@.take(i + 1).drop_last() =~= layers@.take(i as int));
        assert(layers@.take(i + 1).last() == layers@[i as int]);
        match layers[i].source_node {
            Some(source_node) => {
                let mount = LayerMountInfo {
                    layer: i,
                    target_path: layers[i].target_path.clone(),
                    source_node,
                };
                mounts.push(mount);
                assert(mounts@.map_values(|mount: LayerMountInfo| mount_view(mount))
                    =~= before.map_values(|mount: LayerMountInfo| mount_view(mount)).push(
                    mount_view(mount),
                ));
            },
            None => {},
        }
        i = i + 1;
    }
    assert(layers@.take(i as int) =~= layers@);
    mounts
}

/// What a path selects below the mount of a layer: what the path has beyond the
/// length of the mount.
pub open spec fn layer_sub_path(selected: Seq<char>, target_path: Seq<char>) -> Seq<char> {
    if encode_utf8(selected).len() > encode_utf8(target_path).len() {
        text_after(selected, encode_utf8(target_path).len())
    } else {
        Seq::empty()
    }
}

/// A path below the mount of a layer selects the same place below the layer's source,
/// and the mount itself selects the whole source.
pub proof fn law_layer_is_selected_below_its_mount(
    source_path: Seq<char>,
    target_path: Seq<char>,
    below: Seq<char>,
)
    requires
        target_path.len() > 0,
        below.len() > 0 ==> below[0] != '/',
    ensures
        ({
            let part = layer_sub_path(joined(target_path, below), target_path);
            &&& joined(source_path, part) == joined(source_path, below)
            &&& joined(target_path, part) == joined(target_path, below)
        }),
{
    if below.len() == 0 {
        law_longer_text_has_more_bytes(target_path, below);
        assert(target_path + below =~= target_path);
        assert(below =~= Seq::empty());
    } else {
        let rest = seq!['/'] + below;
        assert(target_path + rest =~= target_path.push('/') + below);
        law_longer_text_has_more_bytes(target_path, rest);
        law_text_after_is_the_rest(target_path, rest);
        assert(rest.drop_first() =~= below);
    }
}

/// The part of a layer that a requested path selects.
#[derive(Debug)]
pub struct LayerSelection {
    /// Path in the layer's repository.
    pub source: String,
    /// Path in the working tree.
    pub target: String,
}

/// The path requested of a layer: the requested path, or its mount where the
/// whole repository is requested.
pub open spec fn layer_request(path: Option<Seq<char>>, target_path: Seq<char>) -> Seq<char> {
    match path {
        Some(selected) => selected,
        None => target_path,
    }
}

/// Selects the part of a layer that lies under a requested path. The path must
/// overlap the mount of the layer, unless it is empty.
pub fn select_layer(
    path: Option<&str>,
    overlaps: bool,
    source_path: &str,
    target_path: &str,
) -> (selection: Option<LayerSelection>)
    requires
        path matches Some(selected) ==> (overlaps && encode_utf8(selected@).len() > encode_utf8(
            target_path@,
        ).len() ==> is_char_boundary(encode_utf8(selected@), encode_utf8(target_path@).len() as int)),
    ensures
        ({
            let selected = layer_request(
                match path {
                    Some(p) => Some(p@),
                    None => None,
                },
                target_path@,
            );
            &&& selection is Some <==> selected.len() == 0 || overlaps
            &&& selection matches Some(part) ==> {
                &&& part.source@ == joined(source_path@, layer_sub_path(selected, target_path@))
                &&& part.target@ == joined(target_path@, layer_sub_path(selected, target_path@))
            }
        }),
{
    let selected = match path {
        Some(selected) => selected,
        None => target_path,
    };
    if !selected.is_empty() && !overlaps {
        return None;
    }
    let length = target_path.as_bytes().len();
    let sub_path = if selected.as_bytes().len() > length {
        text_from(selected, length)
    } else {
        proof {
            reveal_strlit("");
        }
        assert(""@ =~= Seq::empty());
        ""
    };
    Some(
        LayerSelection {
            source: join(source_path, sub_path),
            target: join(target_path, sub_path),
        },
    )
}

// ---------------------------------------------------------------------------
// Local and remote branch
// ---------------------------------------------------------------------------

/// What asking the remote for a branch gave.
#[derive(Clone, Copy, Debug)]
pub enum RemoteBranch {
    /// The branch exists with this latest revision.
    Latest(ContentHash),
    /// The remote does not have the branch.
    BranchNotFound,
    /// There is no remote, or it gave no answer.
    Unknown,
}

/// The latest revision on the remote, and whether the remote answered with
/// authority: a latest revision or a missing branch proves that the identity
/// has access.
pub fn remote_branch_answer(answer: RemoteBranch) -> (remote: (Option<ContentHash>, bool))
    ensures
        remote.0 == match answer {
            RemoteBranch::Latest(latest) => Some(latest),
            _ => None,
        },
        remote.1 == !(answer is Unknown),
{
    match answer {
        RemoteBranch::Latest(latest) => (Some(latest), true),
        RemoteBranch::BranchNotFound => (None, true),
        RemoteBranch::Unknown => (None, false),
    }
}

/// What is known of a branch locally and on the remote.
#[derive(Clone, Copy, Debug)]
pub struct BranchPosition {
    pub local_latest: ContentHash,
    pub local_number: u64,
    /// Latest revision on the remote, zero when unknown.
    pub remote_latest: ContentHash,
    /// Number of the latest revision on the remote, when it could be read.
    pub remote_number: Option<u64>,
    /// Revision of the last synchronization, zero when there was none.
    pub last_sync: ContentHash,
    /// The local branch may hold revisions that are not on the remote.
    pub diverged: bool,
}

/// The two sides of a branch differ in a way that can be judged.
pub open spec fn sides_differ(position: BranchPosition) -> bool {
    position.local_latest != position.remote_latest && position.remote_number is Some
}

/// The local branch holds revisions that are not on the remote: whenever the
/// sides differ and the local side diverged.
pub open spec fn local_is_ahead(position: BranchPosition) -> bool {
    sides_differ(position) && position.diverged
}

/// The remote branch holds revisions that are not local. On a branch that did
/// not diverge it does when its number is higher; otherwise also when the
/// numbers are equal, or the remote moved since the last synchronization.
pub open spec fn remote_is_ahead(position: BranchPosition) -> bool {
    &&& sides_differ(position)
    &&& {
        ||| position.remote_number->0 > position.local_number
        ||| position.diverged && position.remote_number->0 == position.local_number
        ||| position.diverged && position.last_sync != position.remote_latest
    }
}

/// Tells which side of a branch is ahead: the local one, the remote one, or
/// both when they diverged.
pub fn branch_ahead(position: &BranchPosition) -> (ahead: (bool, bool))
    ensures
        ahead.0 == local_is_ahead(*position),
        ahead.1 == remote_is_ahead(*position),
{
    let mut local_ahead = false;
    let mut remote_ahead = false;
    if position.local_latest != position.remote_latest {
        if let Some(remote_number) = position.remote_number {
            let local_number = position.local_number;
            if !position.diverged {
                remote_ahead = remote_number > local_number;
            } else if remote_number > local_number {
                local_ahead = true;
                remote_ahead = true;
            } else if local_number > remote_number {
                local_ahead = true;
                if position.last_sync != position.remote_latest {
                    remote_ahead = true;
                }
            } else {
                local_ahead = true;
                remote_ahead = true;
            }
        }
    }
    (local_ahead, remote_ahead)
}

/// A branch that did not diverge is never ahead of the remote.
pub proof fn law_convergent_branch_is_not_ahead(position: BranchPosition)
    requires
        !position.diverged,
    ensures
        !local_is_ahead(position),
{
}

/// A branch at the same revision as the remote is synchronized.
pub proof fn law_same_revision_is_synchronized(position: BranchPosition)
    requires
        position.local_latest == position.remote_latest,
    ensures
        !local_is_ahead(position),
        !remote_is_ahead(position),
{
}

/// A branch that diverged and differs from a remote whose number is known is ahead,
/// whatever the numbers are.
pub proof fn law_diverged_branch_is_ahead(position: BranchPosition)
    requires
        position.local_latest != position.remote_latest,
        position.remote_number is Some,
        position.diverged,
    ensures
        local_is_ahead(position),
{
}

/// A remote with a higher number is ahead; one that is not is ahead only of a diverged
/// branch, and with a lower number only where it moved since the last synchronization.
pub proof fn law_remote_is_ahead_by_number(position: BranchPosition, number: u64)
    requires
        position.local_latest != position.remote_latest,
        position.remote_number == Some(number),
    ensures
        number > position.local_number ==> remote_is_ahead(position),
        number <= position.local_number && !position.diverged ==> !remote_is_ahead(position),
        number < position.local_number && position.diverged ==> (remote_is_ahead(position)
            <==> position.last_sync != position.remote_latest),
{
}

/// Where the number of the remote is not known, neither side is told to be ahead.
pub proof fn law_unknown_remote_is_not_judged(position: BranchPosition)
    requires
        position.remote_number is None,
    ensures
        !local_is_ahead(position),
        !remote_is_ahead(position),
{
}

/// A diverged branch that differs from a remote at the same number, or at a
/// higher one, is ahead on both sides.
pub proof fn law_diverged_sides_are_both_ahead(position: BranchPosition)
    requires
        sides_differ(position),
        position.diverged,
        position.remote_number->0 >= position.local_number,
    ensures
        local_is_ahead(position),
        remote_is_ahead(position),
{
}

/// The parent branch of a branch and where it branched off, or zero.
pub fn branch_origin(stack: &Vec<BranchPoint>) -> (origin: BranchPoint)
    ensures
        stack@.len() > 0 ==> origin == stack@[0],
        stack@.len() == 0 ==> origin.branch.is_zero() && origin.revision.is_zero(),
{
    if stack.len() > 0 {
        BranchPoint { branch: stack[0].branch, revision: stack[0].revision }
    } else {
        BranchPoint { branch: BranchId::default(), revision: ContentHash::default() }
    }
}

// ---------------------------------------------------------------------------
// The last revision merged in from the parent branch
// ---------------------------------------------------------------------------

/// A step of the search for the last revision merged in from the parent branch.
#[derive(Clone, Copy, Debug)]
pub enum SyncPointStep {
    /// The search is over; zero when there is no such revision.
    Found(ContentHash),
    /// Search the history from this revision for a merge or the branch point.
    Search(ContentHash),
    /// Load this merge, and the revision that it merged in.
    Inspect(ContentHash),
}

/// A revision ends a history search for a sync point: it is a merge, or the
/// branch point.
pub fn is_sync_candidate(revision: ContentHash, parent_other: ContentHash, branch_point: ContentHash) -> (yes:
    bool)
    ensures
        yes == (!parent_other.is_zero() || revision == branch_point),
{
    !parent_other.is_zero() || revision == branch_point
}

/// The step that a search starts with.
pub open spec fn is_first_step(
    step: SyncPointStep,
    wanted: bool,
    branch_point: ContentHash,
    current: ContentHash,
) -> bool {
    match step {
        SyncPointStep::Found(revision) => revision.is_zero() && (!wanted
            || branch_point.is_zero()),
        SyncPointStep::Search(from) => from == current && wanted && !branch_point.is_zero(),
        SyncPointStep::Inspect(_) => false,
    }
}

/// The step that follows what a history search found.
pub open spec fn is_candidate_step(
    step: SyncPointStep,
    found: Option<ContentHash>,
    branch_point: ContentHash,
) -> bool {
    match step {
        SyncPointStep::Found(revision) => match found {
            None => revision.is_zero(),
            Some(signature) => signature == branch_point && revision == signature,
        },
        SyncPointStep::Inspect(signature) => found == Some(signature) && signature
            != branch_point,
        SyncPointStep::Search(_) => false,
    }
}

/// The step that follows a merge.
pub open spec fn merge_step(merge: SyncPointMerge, branch_parent: BranchId) -> SyncPointStep {
    if merge.merged_branch == branch_parent {
        SyncPointStep::Found(merge.merged)
    } else {
        SyncPointStep::Search(merge.parent_self)
    }
}

/// Starts the search. There is nothing to search for when the sync point is not
/// asked for, or the branch has no branch point.
pub fn start_sync_point(wanted: bool, branch_point: ContentHash, current: ContentHash) -> (step:
    SyncPointStep)
    ensures
        is_first_step(step, wanted, branch_point, current),
{
    if wanted && !branch_point.is_zero() {
        SyncPointStep::Search(current)
    } else {
        SyncPointStep::Found(ContentHash::default())
    }
}

/// Goes on with what a history search found: the branch point ends the search,
/// a merge is looked at, and a search that found nothing ends it too.
pub fn sync_point_candidate(found: Option<ContentHash>, branch_point: ContentHash) -> (step:
    SyncPointStep)
    ensures
        is_candidate_step(step, found, branch_point),
{
    match found {
        None => SyncPointStep::Found(ContentHash::default()),
        Some(signature) => if signature == branch_point {
            SyncPointStep::Found(signature)
        } else {
            SyncPointStep::Inspect(signature)
        },
    }
}

/// A merge on the way to the sync point.
#[derive(Clone, Copy, Debug)]
pub struct SyncPointMerge {
    /// The revision that the merge continues.
    pub parent_self: ContentHash,
    /// The revision that was merged in.
    pub merged: ContentHash,
    /// The branch that the merged revision was made on.
    pub merged_branch: BranchId,
}

/// Goes on with a merge: one that came from the parent branch ends the search,
/// otherwise it goes on behind the merge.
pub fn sync_point_merge(merge: SyncPointMerge, branch_parent: BranchId) -> (step: SyncPointStep)
    ensures
        step == merge_step(merge, branch_parent),
{
    if merge.merged_branch == branch_parent {
        SyncPointStep::Found(merge.merged)
    } else {
        SyncPointStep::Search(merge.parent_self)
    }
}

/// The outcome of a search along a history: for each search, the candidate that
/// it found and, where that is a merge, what it merged. There is no outcome
/// while the search is not over, and it may be that there is no sync point.
pub open spec fn sync_point(
    finds: Seq<(Option<ContentHash>, SyncPointMerge)>,
    branch_point: ContentHash,
    branch_parent: BranchId,
) -> Option<Option<ContentHash>>
    decreases finds.len(),
{
    if finds.len() == 0 {
        None
    } else {
        let (found, merge) = finds[0];
        match found {
            None => Some(None),
            Some(signature) => if signature == branch_point {
                Some(Some(signature))
            } else if merge.merged_branch == branch_parent {
                Some(Some(merge.merged))
            } else {
                sync_point(finds.drop_first(), branch_point, branch_parent)
            },
        }
    }
}

/// The steps of a search, one after what each history search found and one after
/// each merge, go on up to the last find.
pub open spec fn is_search(
    candidates: Seq<SyncPointStep>,
    merges: Seq<SyncPointStep>,
    finds: Seq<(Option<ContentHash>, SyncPointMerge)>,
    branch_point: ContentHash,
    branch_parent: BranchId,
) -> bool {
    &&& candidates.len() == finds.len()
    &&& merges.len() == finds.len()
    &&& forall|i: int|
        0 <= i < finds.len() ==> is_candidate_step(
            #[trigger] candidates[i],
            finds[i].0,
            branch_point,
        )
    &&& forall|i: int|
        0 <= i < finds.len() ==> #[trigger] merges[i] == merge_step(finds[i].1, branch_parent)
    &&& forall|i: int|
        0 <= i < finds.len() - 1 ==> (#[trigger] candidates[i]) is Inspect && merges[i] is Search
}

/// Taking one step after the other gives the sync point: while the steps go on there
/// is none yet, and the first that ends the search has it.
pub proof fn law_steps_give_the_sync_point(
    candidates: Seq<SyncPointStep>,
    merges: Seq<SyncPointStep>,
    finds: Seq<(Option<ContentHash>, SyncPointMerge)>,
    branch_point: ContentHash,
    branch_parent: BranchId,
)
    requires
        finds.len() > 0,
        is_search(candidates, merges, finds, branch_point, branch_parent),
    ensures
        ({
            let point = sync_point(finds, branch_point, branch_parent);
            match candidates.last() {
                SyncPointStep::Found(revision) => if finds.last().0 is None {
                    point == Some(None::<ContentHash>) && revision.is_zero()
                } else {
                    point == Some(Some(revision))
                },
                _ => match merges.last() {
                    SyncPointStep::Found(revision) => point == Some(Some(revision)),
                    _ => point is None,
                },
            }
        }),
    decreases finds.len(),
{
    assert(is_candidate_step(candidates[0], finds[0].0, branch_point));
    assert(merges[0] == merge_step(finds[0].1, branch_parent));
    let rest = finds.drop_first();
    if finds.len() > 1 {
        assert(candidates[0] is Inspect);
        let c = candidates.drop_first();
        let m = merges.drop_first();
        assert forall|i: int| 0 <= i < rest.len() implies is_candidate_step(
            #[trigger] c[i],
            rest[i].0,
            branch_point,
        ) && (i < rest.len() - 1 ==> c[i] is Inspect && m[i] is Search) by {
            assert(c[i] == candidates[i + 1]);
            assert(rest[i] == finds[i + 1]);
        }
        assert forall|i: int| 0 <= i < rest.len() implies #[trigger] m[i] == merge_step(
            rest[i].1,
            branch_parent,
        ) by {
            assert(m[i] == merges[i + 1]);
            assert(rest[i] == finds[i + 1]);
        }
        law_steps_give_the_sync_point(c, m, rest, branch_point, branch_parent);
        assert(rest.last() == finds.last());
        assert(c.last() == candidates.last());
        assert(m.last() == merges.last());
    } else {
        assert(candidates.last() == candidates[0]);
        assert(merges.last() == merges[0]);
        assert(sync_point(rest, branch_point, branch_parent) is None);
    }
}

/// The sync point is none, the branch point, or a revision merged in from the
/// parent branch.
pub proof fn law_sync_point_comes_from_parent(
    finds: Seq<(Option<ContentHash>, SyncPointMerge)>,
    branch_point: ContentHash,
    branch_parent: BranchId,
)
    ensures
        sync_point(finds, branch_point, branch_parent) matches Some(Some(revision)) ==> {
            ||| revision == branch_point
            ||| exists|i: int|
                0 <= i < finds.len() && (#[trigger] finds[i]).1.merged == revision
                    && finds[i].1.merged_branch == branch_parent
        },
    decreases finds.len(),
{
    if finds.len() > 0 {
        let (found, merge) = finds[0];
        let rest = finds.drop_first();
        if found is Some && found->0 != branch_point {
            if merge.merged_branch == branch_parent {
                assert(finds[0].1.merged == merge.merged);
            } else {
                law_sync_point_comes_from_parent(rest, branch_point, branch_parent);
                if let Some(Some(revision)) = sync_point(rest, branch_point, branch_parent) {
                    if revision != branch_point {
                        let i = choose|i: int|
                            0 <= i < rest.len() && (#[trigger] rest[i]).1.merged == revision
                                && rest[i].1.merged_branch == branch_parent;
                        assert(finds[i + 1] == rest[i]);
                    }
                }
            }
        }
    }
}

/// The first find decides the search, unless it is a merge from another branch:
/// then what the rest of the history holds decides it.
pub proof fn law_sync_point_passes_other_merges(
    found: Option<ContentHash>,
    merge: SyncPointMerge,
    rest: Seq<(Option<ContentHash>, SyncPointMerge)>,
    branch_point: ContentHash,
    branch_parent: BranchId,
)
    ensures
        sync_point(seq![(found, merge)] + rest, branch_point, branch_parent) == if found is None {
            Some(None)
        } else if found->0 == branch_point {
            Some(found)
        } else if merge.merged_branch == branch_parent {
            Some(Some(merge.merged))
        } else {
            sync_point(rest, branch_point, branch_parent)
        },
{
    let all = seq![(found, merge)] + rest;
    assert(all.drop_first() =~= rest);
}

// ---------------------------------------------------------------------------
// The operation
// ---------------------------------------------------------------------------

/// What a status operation gathered about the revisions of a repository.
pub struct StatusRevisions {
    pub repository: RepositoryId,
    pub branch: BranchId,
    pub branch_name: String,
    pub current: ContentHash,
    pub current_number: u64,
    pub staged: ContentHash,
    /// The revision that is being merged in.
    pub staged_parent_other: ContentHash,
    pub has_staged: bool,
    pub sync_point: ContentHash,
    /// Latest local revision of the branch.
    pub local_latest: ContentHash,
    /// Revision that the latest local state is for.
    pub local: ContentHash,
    pub local_number: u64,
    pub remote: RemoteBranch,
    pub remote_number: Option<u64>,
    pub last_sync: ContentHash,
    pub diverged: bool,
    pub remote_available: bool,
}

/// The latest revision that a remote has, or zero.
pub open spec fn is_latest(hash: ContentHash, remote: RemoteBranch) -> bool {
    match remote {
        RemoteBranch::Latest(latest) => hash == latest,
        _ => hash.is_zero(),
    }
}

impl StatusRevisions {
    /// The number of the latest revision on the remote, where the remote has one.
    pub open spec fn known_remote_number(&self) -> Option<u64> {
        if self.remote is Latest {
            self.remote_number
        } else {
            None
        }
    }
}

/// The revisions of a repository, as its status reports them.
pub fn status(revisions: &StatusRevisions) -> (data: LoreRepositoryStatusRevisionEventData)
    ensures
        data.repository == revisions.repository,
        data.branch == revisions.branch,
        data.branch_name@ == revisions.branch_name@,
        data.revision == revisions.current,
        data.revision_number == revisions.current_number,
        revisions.has_staged ==> data.revision_staged == revisions.staged,
        !revisions.has_staged ==> data.revision_staged.is_zero(),
        data.revision_merged == revisions.staged_parent_other,
        data.revision_merged_parent_branch == revisions.sync_point,
        data.revision_local == revisions.local,
        data.revision_local_number == revisions.local_number,
        is_latest(data.revision_remote, revisions.remote),
        data.revision_remote_number == match revisions.known_remote_number() {
            Some(number) => number,
            None => 0,
        },
        !(revisions.remote is Latest) ==> data.revision_remote_number == 0,
        ({
            let position = BranchPosition {
                local_latest: revisions.local_latest,
                local_number: revisions.local_number,
                remote_latest: data.revision_remote,
                remote_number: revisions.known_remote_number(),
                last_sync: revisions.last_sync,
                diverged: revisions.diverged,
            };
            &&& data.is_local_ahead == flag_of(local_is_ahead(position))
            &&& data.is_remote_ahead == flag_of(remote_is_ahead(position))
        }),
        data.remote_available == flag_of(revisions.remote_available),
        data.remote_authorized == flag_of(!(revisions.remote is Unknown)),
        data.remote_branch_exist == flag_of(revisions.remote is Latest),
{
    let (remote_latest, remote_authorized) = remote_branch_answer(revisions.remote);
    let remote_number = match remote_latest {
        Some(_) => revisions.remote_number,
        None => None,
    };
    let revision_remote = match remote_latest {
        Some(latest) => latest,
        None => ContentHash::default(),
    };
    let (local_ahead, remote_ahead) = branch_ahead(
        &BranchPosition {
            local_latest: revisions.local_latest,
            local_number: revisions.local_number,
            remote_latest: revision_remote,
            remote_number,
            last_sync: revisions.last_sync,
            diverged: revisions.diverged,
        },
    );
    LoreRepositoryStatusRevisionEventData::new(
        revisions.repository,
        revisions.branch,
        revisions.branch_name.as_str(),
        revisions.current,
        revisions.current_number,
        if revisions.has_staged {
            revisions.staged
        } else {
            ContentHash::default()
        },
        revisions.staged_parent_other,
        revisions.sync_point,
        revisions.local,
        revisions.local_number,
        revision_remote,
        match remote_number {
            Some(number) => number,
            None => 0,
        },
        local_ahead,
        remote_ahead,
        revisions.remote_available,
        remote_authorized,
        remote_latest.is_some(),
    )
}

/// The paths that a status operation looks at: the requested ones, or the whole
/// repository where none is left.
pub fn status_paths(requested: Option<Vec<String>>) -> (paths: Vec<Option<String>>)
    ensures
        requested matches Some(list) ==> (list@.len() > 0 ==> {
            &&& paths@.len() == list@.len()
            &&& forall|i: int|
                0 <= i < list@.len() ==> (#[trigger] paths@[i]) is Some && paths@[i]->0@
                    == list@[i]@
        }),
        requested is None || requested->0@.len() == 0 ==> paths@ == seq![None::<String>],
{
    match requested {
        Some(list) if list.len() > 0 => {
            let mut paths: Vec<Option<String>> = Vec::new();
            let mut i: usize = 0;
            while i < list.len()
                invariant
                    i <= list@.len(),
                    paths@.len() == i,
                    forall|j: int|
                        0 <= j < i ==> (#[trigger] paths@[j]) is Some && paths@[j]->0@ == list@[j]@,
                decreases list@.len() - i,
            {
                paths.push(Some(list[i].clone()));
                i = i + 1;
            }
            paths
        },
        _ => {
            let mut paths: Vec<Option<String>> = Vec::new();
            paths.push(None);
            assert(paths@ =~= seq![None::<String>]);
            paths
        },
    }
}

/// What a status operation does with a change of the staged revision.
#[derive(Clone, Copy, Debug, PartialEq, Eq, Structural)]
pub enum StagedChange {
    /// It is not reported.
    Skip,
    /// It is compared with the file on disk first.
    Verify,
    /// It is reported.
    Report,
}

/// Decides what becomes of a change of the staged revision. A change that is
/// neither staged nor dirty is not reported, and one that is only dirty is left
/// to the scan, where there is one.
pub fn staged_change(change: &NodeChange, options: &StatusOptions) -> (step: StagedChange)
    ensures
        step == if !change.flags.stage && (!change.flags.dirty || options.scan) {
            StagedChange::Skip
        } else if options.check_dirty && change.flags.dirty {
            StagedChange::Verify
        } else {
            StagedChange::Report
        },
{
    let dominated_by_scan = options.scan && change.flags.dirty && !change.flags.stage;
    if dominated_by_scan || !(change.flags.stage || change.flags.dirty) {
        return StagedChange::Skip;
    }
    if options.check_dirty && change.flags.dirty {
        StagedChange::Verify
    } else {
        StagedChange::Report
    }
}

/// The event for a change of the staged revision. `cleared` tells that the file
/// turned out as it is known.
pub fn staged_change_event(change: &NodeChange, cleared: bool, size: u64) -> (data:
    LoreRepositoryStatusFileEventData)
    requires
        cleared ==> change.flags.dirty,
    ensures
        reports(data, *change, size, change.flags.dirty && !cleared),
{
    let mut data = LoreRepositoryStatusFileEventData::from_node_change(change, size);
    if cleared {
        data.flag_dirty = 0;
    }
    data
}

/// A tree, as the report of changes speaks of it.
#[verifier::ext_equal]
pub struct TreeView {
    pub nodes: Seq<Node>,
    pub modified: bool,
}

/// Trees, as the report of changes speaks of them.
pub open spec fn tree_views(trees: Seq<NodeTree>) -> Seq<TreeView> {
    trees.map_values(|tree: NodeTree| TreeView { nodes: tree@, modified: tree.modified })
}

/// What the changes of the staged revision came to so far: the staged trees, the
/// counters, what is reported, each by the number of the change, with the size and
/// whether it is dirty, and what failed, if anything did.
#[verifier::ext_equal]
pub struct StagedReport {
    pub trees: Seq<TreeView>,
    pub summary: StatusSummaryStats,
    pub events: Seq<(int, u64, bool)>,
    pub fault: Option<(ErrorKind, Seq<char>)>,
}

/// A change of the staged revision is looked at: it is staged, or it is dirty and
/// no scan follows.
pub open spec fn is_looked_at(change: NodeChange, options: StatusOptions) -> bool {
    change.flags.stage || (change.flags.dirty && !options.scan)
}

/// The report after a change that is looked at turned out modified or not: it is
/// counted while it is dirty, and then reported with the size that its own tree
/// records.
pub open spec fn with_checked_change(
    report: StagedReport,
    change: NodeChange,
    modified: bool,
    number: int,
) -> StagedReport {
    let dirty = change.flags.dirty && modified;
    let nodes = report.trees[change.to.tree as int].nodes;
    let counted = StagedReport {
        summary: if dirty {
            report.summary.counted(change.action)
        } else {
            report.summary
        },
        ..report
    };
    if !modified && !change.flags.stage {
        report
    } else if change.action == FileAction::Delete {
        StagedReport { events: report.events.push((number, 0, dirty)), ..counted }
    } else if change.to.node < nodes.len() {
        let size = nodes[change.to.node as int].size;
        StagedReport { events: report.events.push((number, size, dirty)), ..counted }
    } else {
        StagedReport {
            fault: Some((ErrorKind::NodeNotFound, "accessing node path"@)),
            ..counted
        }
    }
}

/// The report after one more change of the staged revision. Nothing follows a
/// failure.
pub open spec fn with_change(
    report: StagedReport,
    change: NodeChange,
    file: DirtyFile,
    options: StatusOptions,
    number: int,
) -> StagedReport {
    let at = change.to.tree as int;
    if report.fault is Some || !is_looked_at(change, options) {
        report
    } else if options.check_dirty && change.flags.dirty {
        let tree = report.trees[at];
        let after = verified(tree.nodes, change, file);
        let compared = StagedReport {
            trees: report.trees.update(
                at,
                TreeView { nodes: after.nodes, modified: tree.modified || after.wrote },
            ),
            ..report
        };
        match after.modified {
            Err(fault) => StagedReport { fault: Some(fault), ..compared },
            Ok(modified) => with_checked_change(compared, change, modified, number),
        }
    } else {
        with_checked_change(report, change, true, number)
    }
}

/// The report of the first changes of the staged revision.
pub open spec fn staged_report(
    start: StagedReport,
    changes: Seq<NodeChange>,
    files: Seq<DirtyFile>,
    options: StatusOptions,
    count: nat,
) -> StagedReport
    decreases count,
{
    if count == 0 {
        start
    } else {
        with_change(
            staged_report(start, changes, files, options, (count - 1) as nat),
            changes[count - 1],
            files[count - 1],
            options,
            count - 1,
        )
    }
}

/// Events report changes as they are listed.
pub open spec fn are_reported(
    events: Seq<LoreRepositoryStatusFileEventData>,
    changes: Seq<NodeChange>,
    listed: Seq<(int, u64, bool)>,
) -> bool {
    &&& events.len() == listed.len()
    &&& forall|i: int|
        0 <= i < events.len() ==> reports(
            #[trigger] events[i],
            changes[listed[i].0],
            listed[i].1,
            listed[i].2,
        )
}

proof fn lemma_failure_stays(
    start: StagedReport,
    changes: Seq<NodeChange>,
    files: Seq<DirtyFile>,
    options: StatusOptions,
    count: nat,
    more: nat,
)
    requires
        count <= more,
        staged_report(start, changes, files, options, count).fault is Some,
    ensures
        staged_report(start, changes, files, options, more) == staged_report(
            start,
            changes,
            files,
            options,
            count,
        ),
    decreases more,
{
    if count < more {
        lemma_failure_stays(start, changes, files, options, count, (more - 1) as nat);
    }
}

/// What a report of changes sends, and the failure that ended it, if one did.
#[derive(Debug)]
pub struct ReportedChanges {
    pub events: Vec<LoreRepositoryStatusFileEventData>,
    pub failure: Option<StatusError>,
}

impl ReportedChanges {
    /// The failure, as contracts speak of it.
    pub open spec fn fault(&self) -> Option<(ErrorKind, Seq<char>)> {
        match self.failure {
            Some(error) => Some((error.kind, error.detail@)),
            None => None,
        }
    }
}

/// Every change names one of a number of trees.
pub open spec fn name_trees(changes: Seq<NodeChange>, count: nat) -> bool {
    forall|i: int| 0 <= i < changes.len() ==> (#[trigger] changes[i]).to.tree < count
}

/// Reports the changes of the staged revision, in order, up to the first failure.
/// Each is read and cleaned in the tree that it names. `files` tells how the file of
/// each change compares with the revision, where that is looked at.
pub fn report_staged_changes(
    changes: &Vec<NodeChange>,
    files: &Vec<DirtyFile>,
    trees: &mut Vec<NodeTree>,
    options: &StatusOptions,
    summary: &mut StatusSummaryStats,
) -> (reported: ReportedChanges)
    requires
        files@.len() == changes@.len(),
        name_trees(changes@, old(trees)@.len()),
    ensures
        ({
            let start = StagedReport {
                trees: tree_views(old(trees)@),
                summary: *old(summary),
                events: Seq::empty(),
                fault: None,
            };
            let report = staged_report(start, changes@, files@, *options, changes@.len());
            &&& tree_views(final(trees)@) == report.trees
            &&& *final(summary) == report.summary
            &&& are_reported(reported.events@, changes@, report.events)
            &&& reported.fault() == report.fault
        }),
{
    let ghost start = StagedReport {
        trees: tree_views(trees@),
        summary: *summary,
        events: Seq::empty(),
        fault: None,
    };
    let mut events: Vec<LoreRepositoryStatusFileEventData> = Vec::new();
    let mut i: usize = 0;
    while i < changes.len()
        invariant
            i <= changes@.len(),
            files@.len() == changes@.len(),
            trees@.len() == old(trees)@.len(),
            name_trees(changes@, old(trees)@.len()),
            ({
                let report = staged_report(start, changes@, files@, *options, i as nat);
                &&& tree_views(trees@) == report.trees
                &&& *summary == report.summary
                &&& are_reported(events@, changes@, report.events)
                &&& report.fault is None
            }),
            start == (StagedReport {
                trees: tree_views(old(trees)@),
                summary: *old(summary),
                events: Seq::empty(),
                fault: None,
            }),
        decreases changes@.len() - i,
    {
        let change = &changes[i];
        let ghost report = staged_report(start, changes@, files@, *options, i as nat);
        let ghost next = staged_report(start, changes@, files@, *options, (i + 1) as nat);
        let ghost at = change.to.tree as int;
        assert(next == with_change(report, *change, files@[i as int], *options, i as int));
        assert(report.trees[at].nodes == trees@[at]@);
        proof {
            if next.fault is Some {
                lemma_failure_stays(
                    start,
                    changes@,
                    files@,
                    *options,
                    (i + 1) as nat,
                    changes@.len(),
                );
            }
        }
        let step = staged_change(change, options);
        if step == StagedChange::Skip {
            i = i + 1;
            continue ;
        }
        let mut cleared = false;
        if step == StagedChange::Verify {
            let ghost before = trees@;
            let compared = dirty_change_is_modified(change, trees, files[i]);
            proof {
                let after = verified(before[at]@, *change, files@[i as int]);
                assert(tree_views(trees@) =~= report.trees.update(
                    at,
                    TreeView {
                        nodes: after.nodes,
                        modified: report.trees[at].modified || after.wrote,
                    },
                ));
            }
            match compared {
                Ok(modified) => {
                    cleared = !modified;
                },
                Err(error) => {
                    return ReportedChanges { events, failure: Some(error) };
                },
            }
        }
        if cleared && !change.flags.stage {
            i = i + 1;
            continue ;
        }
        if change.flags.dirty && !cleared {
            summary.classify(change);
        }
        match file_size_from_node_change_id(change, trees) {
            Ok(size) => {
                events.push(staged_change_event(change, cleared, size));
            },
            Err(error) => {
                return ReportedChanges { events, failure: Some(error) };
            },
        }
        i = i + 1;
    }
    ReportedChanges { events, failure: None }
}

/// Changes are reported in their order, each at most once, up to where a failure
/// ends the report.
pub proof fn law_staged_changes_keep_their_order(
    start: StagedReport,
    changes: Seq<NodeChange>,
    files: Seq<DirtyFile>,
    options: StatusOptions,
    count: nat,
)
    requires
        start.events.len() == 0,
    ensures
        ({
            let events = staged_report(start, changes, files, options, count).events;
            &&& forall|i: int| 0 <= i < events.len() ==> 0 <= (#[trigger] events[i]).0 < count
            &&& forall|i: int, j: int|
                0 <= i < j < events.len() ==> (#[trigger] events[i]).0 < (#[trigger] events[j]).0
        }),
    decreases count,
{
    if count > 0 {
        law_staged_changes_keep_their_order(start, changes, files, options, (count - 1) as nat);
    }
}

/// A change that is staged is always reported, unless the report fails before it or
/// at it.
pub proof fn law_staged_changes_are_reported(
    start: StagedReport,
    changes: Seq<NodeChange>,
    files: Seq<DirtyFile>,
    options: StatusOptions,
    count: nat,
    number: int,
)
    requires
        0 <= number < count,
        staged_report(start, changes, files, options, (number + 1) as nat).fault is None,
        changes[number].flags.stage,
    ensures
        exists|i: int|
            0 <= i < staged_report(start, changes, files, options, count).events.len() && (
            #[trigger] staged_report(start, changes, files, options, count).events[i]).0
                == number,
    decreases count,
{
    let before = staged_report(start, changes, files, options, (count - 1) as nat).events;
    let events = staged_report(start, changes, files, options, count).events;
    if number == count - 1 {
        assert(events[before.len() as int].0 == number);
    } else {
        law_staged_changes_are_reported(
            start,
            changes,
            files,
            options,
            (count - 1) as nat,
            number,
        );
        let i = choose|i: int| 0 <= i < before.len() && (#[trigger] before[i]).0 == number;
        assert(events[i] == before[i]);
    }
}

/// Only pending changes are reported: staged ones, and dirty ones where no scan
/// follows.
pub proof fn law_only_pending_changes_are_reported(
    start: StagedReport,
    changes: Seq<NodeChange>,
    files: Seq<DirtyFile>,
    options: StatusOptions,
    count: nat,
    i: int,
)
    requires
        start.events.len() == 0,
        0 <= i < staged_report(start, changes, files, options, count).events.len(),
    ensures
        ({
            let event = staged_report(start, changes, files, options, count).events[i];
            let change = changes[event.0];
            &&& change.flags.stage || change.flags.dirty && !options.scan
            &&& event.2 ==> change.flags.dirty
            &&& change.action == FileAction::Delete ==> event.1 == 0
        }),
    decreases count,
{
    if count > 0 {
        let before = staged_report(start, changes, files, options, (count - 1) as nat);
        if i < before.events.len() {
            law_only_pending_changes_are_reported(
                start,
                changes,
                files,
                options,
                (count - 1) as nat,
                i,
            );
        }
    }
}

/// A dirty change is reported as dirty where no scan follows, unless the report fails
/// or its file is compared and found as it was.
pub proof fn law_dirty_changes_are_reported(
    start: StagedReport,
    changes: Seq<NodeChange>,
    files: Seq<DirtyFile>,
    options: StatusOptions,
    count: nat,
    number: int,
)
    requires
        0 <= number < count,
        staged_report(start, changes, files, options, (number + 1) as nat).fault is None,
        changes[number].flags.dirty,
        !options.scan || changes[number].flags.stage,
        !options.check_dirty || files[number] != DirtyFile::Unmodified || changes[number].action
            != FileAction::Keep,
    ensures
        exists|i: int|
            0 <= i < staged_report(start, changes, files, options, count).events.len() && (
            #[trigger] staged_report(start, changes, files, options, count).events[i]).0 == number
                && staged_report(start, changes, files, options, count).events[i].2,
    decreases count,
{
    let before = staged_report(start, changes, files, options, (count - 1) as nat).events;
    let events = staged_report(start, changes, files, options, count).events;
    if number == count - 1 {
        assert(events[before.len() as int].0 == number);
    } else {
        law_dirty_changes_are_reported(start, changes, files, options, (count - 1) as nat, number);
        let i = choose|i: int|
            0 <= i < before.len() && (#[trigger] before[i]).0 == number && before[i].2;
        assert(events[i] == before[i]);
    }
}

/// A dirty file that is compared and found as it was is not reported, and its node is
/// not dirty any more; where it is staged, it is reported as not dirty.
pub proof fn law_unmodified_files_are_cleaned(
    report: StagedReport,
    change: NodeChange,
    options: StatusOptions,
    number: int,
)
    requires
        report.fault is None,
        change.to.tree < report.trees.len(),
        options.check_dirty,
        change.flags.dirty,
        !options.scan || change.flags.stage,
        change.action == FileAction::Keep,
        is_valid_node_id(change.to.node),
        change.to.node < report.trees[change.to.tree as int].nodes.len(),
        report.trees[change.to.tree as int].nodes[change.to.node as int].kind == NodeKind::File,
        with_change(report, change, DirtyFile::Unmodified, options, number).fault is None,
    ensures
        ({
            let after = with_change(report, change, DirtyFile::Unmodified, options, number);
            let node = after.trees[change.to.tree as int].nodes[change.to.node as int];
            &&& !node.dirty
            &&& after.summary == report.summary
            &&& !change.flags.stage ==> after.events == report.events
            &&& change.flags.stage ==> after.events == report.events.push((number, node.size, false))
        }),
{
    let nodes = report.trees[change.to.tree as int].nodes;
    let id = change.to.node;
    let cleared = nodes.update(id as int, nodes[id as int].without_dirty());
    crate::node::law_cleaning_upwards_only_clears(cleared, nodes[id as int].parent, nodes.len());
    assert(cleared[id as int] == nodes[id as int].without_dirty());
}

/// A change touches no tree but the one that it names: a change of a linked
/// repository leaves the tree of the repository alone.
pub proof fn law_changes_stay_in_their_trees(
    report: StagedReport,
    change: NodeChange,
    file: DirtyFile,
    options: StatusOptions,
    number: int,
    other: int,
)
    requires
        change.to.tree < report.trees.len(),
        0 <= other < report.trees.len(),
        other != change.to.tree,
    ensures
        with_change(report, change, file, options, number).trees[other] == report.trees[other],
{
}

/// A path that is asked for is scanned when the state or the disk has it;
/// otherwise it is reported as ignored.
pub fn scan_path(path: Option<&str>, in_state: bool, on_disk: bool) -> (scan: (bool, Option<
    LorePathIgnoreEventData,
>))
    ensures
        scan.0 == (path is None || in_state || on_disk),
        scan.1 is Some <==> !scan.0,
        scan.1 matches Some(event) ==> event.path@ == path->0@,
{
    match path {
        None => (true, None),
        Some(p) => if in_state || on_disk {
            (true, None)
        } else {
            (false, Some(emit_path_ignore(p)))
        },
    }
}

/// Reports a change that a scan found, unless it is staged.
pub fn report_scanned_change(change: &NodeChange, size: u64, summary: &mut StatusSummaryStats) -> (event:
    Option<LoreRepositoryStatusFileEventData>)
    ensures
        event is Some <==> !change.flags.stage,
        event matches Some(data) ==> reports(data, *change, size, change.flags.dirty),
        *final(summary) == if change.flags.stage {
            *old(summary)
        } else {
            old(summary).counted(change.action)
        },
{
    if change.flags.stage {
        return None;
    }
    summary.classify(change);
    Some(LoreRepositoryStatusFileEventData::from_node_change(change, size))
}

/// What a scan reports of its first changes: the counters, the reported changes, each
/// by its number, with its size and whether it is dirty, and what failed, if anything
/// did.
#[verifier::ext_equal]
pub struct ScanReport {
    pub summary: StatusSummaryStats,
    pub events: Seq<(int, u64, bool)>,
    pub fault: Option<(ErrorKind, Seq<char>)>,
}

/// What a scan reports of its first changes, up to the first failure. Staged changes
/// are not reported.
pub open spec fn scan_report(
    summary: StatusSummaryStats,
    changes: Seq<NodeChange>,
    stats: Seq<FileStat>,
    denied_while_deleted: bool,
    count: nat,
) -> ScanReport
    decreases count,
{
    if count == 0 {
        ScanReport { summary, events: Seq::empty(), fault: None }
    } else {
        let report = scan_report(
            summary,
            changes,
            stats,
            denied_while_deleted,
            (count - 1) as nat,
        );
        let change = changes[count - 1];
        let size = disk_size(change, stats[count - 1], denied_while_deleted);
        if report.fault is Some {
            report
        } else if size is None {
            ScanReport {
                fault: Some(
                    (ErrorKind::Internal, "accessing metadata for file "@ + change.path@),
                ),
                ..report
            }
        } else if change.flags.stage {
            report
        } else {
            ScanReport {
                summary: report.summary.counted(change.action),
                events: report.events.push((count - 1, size->0, change.flags.dirty)),
                fault: None,
            }
        }
    }
}

proof fn lemma_scan_failure_stays(
    summary: StatusSummaryStats,
    changes: Seq<NodeChange>,
    stats: Seq<FileStat>,
    denied_while_deleted: bool,
    count: nat,
    more: nat,
)
    requires
        count <= more,
        scan_report(summary, changes, stats, denied_while_deleted, count).fault is Some,
    ensures
        scan_report(summary, changes, stats, denied_while_deleted, more) == scan_report(
            summary,
            changes,
            stats,
            denied_while_deleted,
            count,
        ),
    decreases more,
{
    if count < more {
        lemma_scan_failure_stays(
            summary,
            changes,
            stats,
            denied_while_deleted,
            count,
            (more - 1) as nat,
        );
    }
}

/// A scan that does not fail reports every change that is not staged, once and in
/// order, as dirty as it is and with the size of its file; a deleted file has none.
pub proof fn law_scan_reports_each_change(
    summary: StatusSummaryStats,
    changes: Seq<NodeChange>,
    stats: Seq<FileStat>,
    denied_while_deleted: bool,
    count: nat,
    number: int,
)
    requires
        0 <= number < count,
        scan_report(summary, changes, stats, denied_while_deleted, count).fault is None,
    ensures
        ({
            let events = scan_report(summary, changes, stats, denied_while_deleted, count).events;
            let change = changes[number];
            &&& !change.flags.stage <==> exists|i: int|
                0 <= i < events.len() && (#[trigger] events[i]).0 == number
            &&& forall|i: int|
                0 <= i < events.len() && (#[trigger] events[i]).0 == number ==> {
                    &&& events[i].2 == change.flags.dirty
                    &&& change.action == FileAction::Delete ==> events[i].1 == 0
                    &&& change.action != FileAction::Delete ==> (stats[number] matches
                        FileStat::Size(size) ==> events[i].1 == size)
                }
            &&& forall|i: int| 0 <= i < events.len() ==> 0 <= (#[trigger] events[i]).0 < count
            &&& forall|i: int, j: int|
                0 <= i < j < events.len() ==> (#[trigger] events[i]).0 < (#[trigger] events[j]).0
        }),
    decreases count,
{
    let report = scan_report(summary, changes, stats, denied_while_deleted, (count - 1) as nat);
    let before = report.events;
    let events = scan_report(summary, changes, stats, denied_while_deleted, count).events;
    lemma_scan_keeps_order(summary, changes, stats, denied_while_deleted, (count - 1) as nat);
    if number < count - 1 {
        law_scan_reports_each_change(
            summary,
            changes,
            stats,
            denied_while_deleted,
            (count - 1) as nat,
            number,
        );
        if !changes[number].flags.stage {
            let i = choose|i: int| 0 <= i < before.len() && (#[trigger] before[i]).0 == number;
            assert(events[i] == before[i]);
        }
        assert forall|i: int| 0 <= i < events.len() && (#[trigger] events[i]).0 == number implies
            i < before.len() && events[i] == before[i] by {}
    } else {
        if !changes[number].flags.stage {
            assert(events[before.len() as int].0 == number);
        }
    }
}

proof fn lemma_scan_keeps_order(
    summary: StatusSummaryStats,
    changes: Seq<NodeChange>,
    stats: Seq<FileStat>,
    denied_while_deleted: bool,
    count: nat,
)
    ensures
        ({
            let events = scan_report(summary, changes, stats, denied_while_deleted, count).events;
            &&& forall|i: int| 0 <= i < events.len() ==> 0 <= (#[trigger] events[i]).0 < count
            &&& forall|i: int, j: int|
                0 <= i < j < events.len() ==> (#[trigger] events[i]).0 < (#[trigger] events[j]).0
        }),
    decreases count,
{
    if count > 0 {
        lemma_scan_keeps_order(summary, changes, stats, denied_while_deleted, (count - 1) as nat);
    }
}

/// The counter of an action. A path that stays was modified.
pub open spec fn tally(summary: StatusSummaryStats, action: FileAction) -> u64 {
    match action {
        FileAction::Add => summary.adds,
        FileAction::Delete => summary.deletes,
        FileAction::Move => summary.moves,
        FileAction::Copy => summary.copies,
        FileAction::Keep => summary.modifies,
    }
}

/// Number of reported changes of an action that are dirty.
pub open spec fn dirty_events(
    events: Seq<(int, u64, bool)>,
    changes: Seq<NodeChange>,
    action: FileAction,
) -> nat
    decreases events.len(),
{
    if events.len() == 0 {
        0
    } else {
        dirty_events(events.drop_last(), changes, action) + if events.last().2
            && changes[events.last().0].action == action {
            1nat
        } else {
            0nat
        }
    }
}

/// Number of reported changes of an action.
pub open spec fn events_of(
    events: Seq<(int, u64, bool)>,
    changes: Seq<NodeChange>,
    action: FileAction,
) -> nat
    decreases events.len(),
{
    if events.len() == 0 {
        0
    } else {
        events_of(events.drop_last(), changes, action) + if changes[events.last().0].action
            == action {
            1nat
        } else {
            0nat
        }
    }
}

proof fn lemma_tally(summary: StatusSummaryStats, counted: FileAction, action: FileAction)
    requires
        tally(summary, action) < u64::MAX,
    ensures
        tally(summary.counted(counted), action) == tally(summary, action) + if counted == action {
            1int
        } else {
            0int
        },
{
}

/// The counter of each action grows by the reported changes of that action.
pub proof fn law_scan_counts_what_it_reports(
    summary: StatusSummaryStats,
    changes: Seq<NodeChange>,
    stats: Seq<FileStat>,
    denied_while_deleted: bool,
    count: nat,
    action: FileAction,
)
    requires
        tally(summary, action) + count <= u64::MAX,
    ensures
        ({
            let report = scan_report(summary, changes, stats, denied_while_deleted, count);
            &&& tally(report.summary, action) == tally(summary, action) + events_of(
                report.events,
                changes,
                action,
            )
            &&& report.events.len() <= count
            &&& events_of(report.events, changes, action) <= count
        }),
    decreases count,
{
    if count > 0 {
        law_scan_counts_what_it_reports(
            summary,
            changes,
            stats,
            denied_while_deleted,
            (count - 1) as nat,
            action,
        );
        let before = scan_report(summary, changes, stats, denied_while_deleted, (count - 1) as nat);
        let after = scan_report(summary, changes, stats, denied_while_deleted, count);
        lemma_tally(before.summary, changes[count - 1].action, action);
        if after.events.len() > before.events.len() {
            assert(after.events.drop_last() =~= before.events);
        }
    }
}

/// The counter of each action grows by the reported changes of that action that are
/// dirty.
pub proof fn law_staged_report_counts_dirty_changes(
    start: StagedReport,
    changes: Seq<NodeChange>,
    files: Seq<DirtyFile>,
    options: StatusOptions,
    count: nat,
    action: FileAction,
)
    requires
        start.events.len() == 0,
        tally(start.summary, action) + count <= u64::MAX,
        staged_report(start, changes, files, options, count).fault is None,
    ensures
        ({
            let report = staged_report(start, changes, files, options, count);
            &&& tally(report.summary, action) == tally(start.summary, action) + dirty_events(
                report.events,
                changes,
                action,
            )
            &&& dirty_events(report.events, changes, action) <= count
        }),
    decreases count,
{
    if count > 0 {
        law_staged_report_counts_dirty_changes(
            start,
            changes,
            files,
            options,
            (count - 1) as nat,
            action,
        );
        let before = staged_report(start, changes, files, options, (count - 1) as nat);
        let after = staged_report(start, changes, files, options, count);
        lemma_tally(before.summary, changes[count - 1].action, action);
        if after.events.len() > before.events.len() {
            assert(after.events.drop_last() =~= before.events);
        } else {
            assert(after.events == before.events);
        }
    }
}

/// Reports the changes that a scan found, in order, up to the first whose file cannot
/// be looked at. `stats` holds what looking at the file of each gave.
pub fn report_scanned_changes(
    changes: &Vec<NodeChange>,
    stats: &Vec<FileStat>,
    denied_while_deleted: bool,
    summary: &mut StatusSummaryStats,
) -> (reported: ReportedChanges)
    requires
        stats@.len() == changes@.len(),
    ensures
        ({
            let report = scan_report(
                *old(summary),
                changes@,
                stats@,
                denied_while_deleted,
                changes@.len(),
            );
            &&& *final(summary) == report.summary
            &&& are_reported(reported.events@, changes@, report.events)
            &&& reported.fault() == report.fault
        }),
{
    let mut events: Vec<LoreRepositoryStatusFileEventData> = Vec::new();
    let mut i: usize = 0;
    while i < changes.len()
        invariant
            i <= changes@.len(),
            stats@.len() == changes@.len(),
            ({
                let report = scan_report(
                    *old(summary),
                    changes@,
                    stats@,
                    denied_while_deleted,
                    i as nat,
                );
                &&& *summary == report.summary
                &&& are_reported(events@, changes@, report.events)
                &&& report.fault is None
            }),
        decreases changes@.len() - i,
    {
        let ghost next = scan_report(
            *old(summary),
            changes@,
            stats@,
            denied_while_deleted,
            (i + 1) as nat,
        );
        let size = match file_size_from_node_change_path(
            &changes[i],
            stats[i],
            denied_while_deleted,
        ) {
            Ok(size) => size,
            Err(error) => {
                proof {
                    lemma_scan_failure_stays(
                        *old(summary),
                        changes@,
                        stats@,
                        denied_while_deleted,
                        (i + 1) as nat,
                        changes@.len(),
                    );
                }
                assert(next.fault == Some((error.kind, error.detail@)));
                return ReportedChanges { events, failure: Some(error) };
            },
        };
        let event = report_scanned_change(&changes[i], size, summary);
        if let Some(data) = event {
            events.push(data);
        }
        i = i + 1;
    }
    ReportedChanges { events, failure: None }
}

/// What a status operation shows after the revision.
#[derive(Clone, Copy, Debug, PartialEq, Eq, Structural)]
pub struct StatusPlan {
    /// The staged anchor is dropped first.
    pub drop_anchor: bool,
    /// Directories and files are counted.
    pub count: bool,
    /// The changes of the staged revision are reported.
    pub staged: bool,
    /// The working tree is scanned.
    pub scan: bool,
    /// The counts of dirty nodes are reported.
    pub summary: bool,
}

/// Decides what a status operation shows. The staged revision is shown only where
/// there is one, and nothing but counts follows where only the revision is wanted.
pub fn status_plan(options: &StatusOptions, has_staged: bool) -> (plan: StatusPlan)
    ensures
        plan.drop_anchor == options.reset,
        plan.count == options.count,
        plan.staged == (!options.revision_only && options.staged && has_staged),
        plan.scan == (!options.revision_only && options.scan),
        plan.summary == (!options.revision_only && (options.scan || options.check_dirty)),
{
    StatusPlan {
        drop_anchor: options.reset,
        count: options.count,
        staged: !options.revision_only && options.staged && has_staged,
        scan: !options.revision_only && options.scan,
        summary: !options.revision_only && (options.scan || options.check_dirty),
    }
}

/// The summary of a reconciling status.
pub fn status_summary(options: &StatusOptions, summary: &StatusSummaryStats) -> (event: Option<
    LoreRepositoryStatusSummaryEventData,
>)
    ensures
        event is Some <==> options.scan || options.check_dirty,
        event matches Some(data) ==> {
            &&& data.adds == summary.adds
            &&& data.deletes == summary.deletes
            &&& data.modifies == summary.modifies
            &&& data.moves == summary.moves
            &&& data.copies == summary.copies
        },
{
    if options.scan || options.check_dirty {
        Some(summary.event_data())
    } else {
        None
    }
}

/// Prepares the staged revision for being written at the end of a status
/// operation, and tells whether it is written: only when it was changed, there
/// was one or a scan made it, and the repository may be written. A revision
/// that the scan made starts out from the current one.
pub fn status_finish(
    has_staged: bool,
    options: &StatusOptions,
    may_write: bool,
    current: ContentHash,
    staged: &mut RevisionState,
) -> (write: bool)
    ensures
        write == ((has_staged || options.scan) && old(staged).tree.modified && may_write),
        final(staged).tree == old(staged).tree,
        final(staged).links == old(staged).links,
        final(staged).revision == old(staged).revision,
        !write || has_staged ==> *final(staged) == *old(staged),
        write && !has_staged ==> {
            &&& final(staged).revision_number == 0
            &&& final(staged).parent_self == current
            &&& final(staged).parent_other.is_zero()
            &&& final(staged).metadata_hash.is_zero()
        },
{
    if !((has_staged || options.scan) && staged.tree.modified && may_write) {
        return false;
    }
    if !has_staged {
        staged.revision_number = 0;
        staged.parent_self = current;
        staged.parent_other = ContentHash::default();
        staged.metadata_hash = ContentHash::default();
    }
    true
}

} // verus!
