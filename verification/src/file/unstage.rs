//! Taking changes out of the staged revision.
//!
//! Unstaging clears staged flags and keeps dirty flags: a staged addition
//! survives as a dirty addition, and the staged revision is dropped only when
//! neither staged nor dirty nodes are left.

pub mod walk;

use dashmap::DashMap;
use vstd::prelude::*;
use vstd::string::*;

use crate::change::LoreFileAction;
use crate::errors::ErrorKind;
use crate::errors::LoreError;
use crate::link::marked;
use crate::link::LinkContext;
use crate::link::LinkKeyView;
use crate::link::LinkTracker;
use crate::node::broken_links;
use crate::node::children;
use crate::node::cleaning;
use crate::node::descendants;
use crate::node::law_children_name_their_parent;
use crate::node::law_descendants_in_tree;
use crate::node::unstaged_all;
use crate::node::unstaging;
use crate::node::Node;
use crate::node::NodeAction;
use crate::node::NodeID;
use crate::node::NodeKind;
use crate::node::NodeTree;
use crate::path::join;
use crate::path::joined;
use crate::repository::is_dot_directory;
use crate::repository::names_dot_directory;
use crate::state::has_link;
use crate::state::link_position;
use crate::state::LinkReference;
use crate::state::RevisionState;
use crate::text::text_equal;
use crate::types::count_one;
use crate::types::next_count;
use crate::types::BranchId;
use crate::types::ContentHash;
use crate::types::RepositoryId;

verus! {

/// Data for the event emitted when an unstage operation begins.
#[derive(Clone, Copy, Debug, PartialEq, Eq, Structural)]
pub struct LoreFileUnstageBeginEventData {
    /// Number of paths requested for unstaging.
    pub path_count: usize,
}

/// Running counts of items processed during an unstage operation.
#[derive(Clone, Copy, Debug, PartialEq, Eq, Structural)]
pub struct LoreFileUnstageCountData {
    /// Number of directories that were unstaged.
    pub directory_unstaged_count: u64,
    /// Number of directories that were discarded.
    pub directory_discarded_count: u64,
    /// Number of files that were unstaged.
    pub file_unstaged_count: u64,
    /// Number of files that were discarded.
    pub file_discarded_count: u64,
    /// Total number of items processed.
    pub total_count: u64,
}

/// Data for the progress event emitted periodically during an unstage operation.
#[derive(Clone, Copy, Debug, PartialEq, Eq, Structural)]
pub struct LoreFileUnstageProgressEventData {
    /// Current counts of items processed.
    pub count: LoreFileUnstageCountData,
}

/// Data for the event emitted when an unstage operation completes.
#[derive(Clone, Copy, Debug, PartialEq, Eq, Structural)]
pub struct LoreFileUnstageEndEventData {
    /// Final counts of items processed.
    pub count: LoreFileUnstageCountData,
}

/// Data for the event identifying the repository and revision involved in an unstage operation.
#[derive(Clone, Copy, Debug)]
pub struct LoreFileUnstageRevisionEventData {
    /// Identifier of the repository.
    pub repository: RepositoryId,
    /// Revision the files are unstaged against.
    pub revision: ContentHash,
}

/// Data for the event emitted for each file affected by an unstage operation.
#[derive(Debug)]
pub struct LoreFileUnstageFileEventData {
    /// Path of the file.
    pub path: String,
    /// Action applied to the file.
    pub action: LoreFileAction,
}

/// Failure of an unstage operation.
#[derive(Debug)]
pub struct UnstageError {
    pub kind: ErrorKind,
    pub detail: String,
}

impl UnstageError {
    /// The code reported for each category.
    pub open spec fn spec_translated(kind: ErrorKind) -> LoreError {
        match kind {
            ErrorKind::InvalidArguments | ErrorKind::InvalidPath => LoreError::InvalidArguments,
            _ => LoreError::Internal,
        }
    }

    /// The code reported to callers of the engine.
    pub fn translated(&self) -> (code: LoreError)
        ensures
            code == UnstageError::spec_translated(self.kind),
    {
        match self.kind {
            ErrorKind::InvalidArguments | ErrorKind::InvalidPath => LoreError::InvalidArguments,
            _ => LoreError::Internal,
        }
    }

    /// The text of the failure.
    pub fn inner(&self) -> (text: String)
        ensures
            text@ == self.detail@,
    {
        self.detail.clone()
    }

    fn of(kind: ErrorKind, detail: &str) -> (error: UnstageError)
        ensures
            error.kind == kind,
            error.detail@ == detail@,
    {
        UnstageError { kind, detail: detail.to_owned() }
    }
}

/// Counters of an unstage operation.
#[derive(Clone, Copy, Debug, PartialEq, Eq, Structural)]
pub struct UnstageStats {
    pub directory_unstaged_count: u64,
    pub directory_discarded_count: u64,
    pub file_unstaged_count: u64,
    pub file_discarded_count: u64,
}

impl Default for UnstageStats {
    fn default() -> (stats: UnstageStats)
        ensures
            stats.directory_unstaged_count == 0,
            stats.directory_discarded_count == 0,
            stats.file_unstaged_count == 0,
            stats.file_discarded_count == 0,
    {
        UnstageStats {
            directory_unstaged_count: 0,
            directory_discarded_count: 0,
            file_unstaged_count: 0,
            file_discarded_count: 0,
        }
    }
}

impl UnstageStats {
    /// The number of items processed.
    pub open spec fn total(&self) -> int {
        self.directory_unstaged_count + self.directory_discarded_count + self.file_unstaged_count
            + self.file_discarded_count
    }

    /// Tells whether the number of items processed can be told.
    pub fn has_total(&self) -> (yes: bool)
        ensures
            yes == (self.total() <= u64::MAX),
    {
        let directories = match self.directory_unstaged_count.checked_add(
            self.directory_discarded_count,
        ) {
            Some(directories) => directories,
            None => {
                return false;
            },
        };
        match self.file_unstaged_count.checked_add(self.file_discarded_count) {
            Some(files) => directories.checked_add(files).is_some(),
            None => false,
        }
    }

    /// The counts to report.
    pub fn count_data(&self) -> (count: LoreFileUnstageCountData)
        requires
            self.total() <= u64::MAX,
        ensures
            count.directory_unstaged_count == self.directory_unstaged_count,
            count.directory_discarded_count == self.directory_discarded_count,
            count.file_unstaged_count == self.file_unstaged_count,
            count.file_discarded_count == self.file_discarded_count,
            count.total_count == self.total(),
    {
        LoreFileUnstageCountData {
            directory_unstaged_count: self.directory_unstaged_count,
            directory_discarded_count: self.directory_discarded_count,
            file_unstaged_count: self.file_unstaged_count,
            file_discarded_count: self.file_discarded_count,
            total_count: self.directory_unstaged_count + self.directory_discarded_count
                + self.file_unstaged_count + self.file_discarded_count,
        }
    }
}

/// Options of an unstage operation.
#[derive(Clone, Copy, Debug, PartialEq, Eq, Structural)]
pub struct UnstageOptions {
    /// Single node, no recursion
    pub single_node: bool,
}

// ---------------------------------------------------------------------------
// Nodes to discard
// ---------------------------------------------------------------------------

/// The nodes to discard, by repository.
pub uninterp spec fn discard_entries(nodes: DashMap<[u8; 16], Vec<u32>>) -> Map<Seq<u8>, Seq<u32>>;

/// Nothing to discard.
pub open spec fn no_discards() -> Map<Seq<u8>, Seq<u32>> {
    Map::empty()
}

/// `DashMap::new` makes a map that holds nothing.
#[verifier::external_body]
fn discard_map_new() -> (nodes: DashMap<[u8; 16], Vec<u32>>)
    ensures
        discard_entries(nodes) == no_discards(),
{
    DashMap::new()
}

/// `DashMap::get` finds the value of a key.
#[verifier::external_body]
fn discard_map_get(nodes: &DashMap<[u8; 16], Vec<u32>>, key: &[u8; 16]) -> (found: Option<Vec<u32>>)
    ensures
        found is Some <==> discard_entries(*nodes).contains_key(key@),
        found matches Some(ids) ==> ids@ == discard_entries(*nodes)[key@],
{
    nodes.get(key).map(|entry| entry.value().clone())
}

/// `DashMap::insert` sets the value of a key.
#[verifier::external_body]
fn discard_map_insert(nodes: &mut DashMap<[u8; 16], Vec<u32>>, key: [u8; 16], ids: Vec<u32>)
    ensures
        discard_entries(*final(nodes)) == discard_entries(*old(nodes)).insert(key@, ids@),
{
    nodes.insert(key, ids);
}

/// `DashMap::iter` yields every key with its value once, in no particular order.
#[verifier::external_body]
fn discard_map_list(nodes: &DashMap<[u8; 16], Vec<u32>>) -> (list: Vec<([u8; 16], Vec<u32>)>)
    ensures
        forall|i: int|
            0 <= i < list@.len() ==> {
                &&& discard_entries(*nodes).contains_key((#[trigger] list@[i]).0@)
                &&& discard_entries(*nodes)[list@[i].0@] == list@[i].1@
            },
        forall|i: int, j: int|
            0 <= i < j < list@.len() ==> (#[trigger] list@[i]).0@ != (#[trigger] list@[j]).0@,
        forall|key: Seq<u8>| #[trigger]
            discard_entries(*nodes).contains_key(key) ==> exists|i: int|
                0 <= i < list@.len() && (#[trigger] list@[i]).0@ == key,
{
    nodes.iter().map(|entry| (*entry.key(), entry.value().clone())).collect()
}

/// Nodes that are discarded at the end of an unstage operation.
pub struct DiscardList {
    nodes: DashMap<[u8; 16], Vec<u32>>,
}

impl View for DiscardList {
    type V = Map<Seq<u8>, Seq<u32>>;

    closed spec fn view(&self) -> Map<Seq<u8>, Seq<u32>> {
        discard_entries(self.nodes)
    }
}

/// The lists after adding a node of a repository.
pub open spec fn with_discard(
    lists: Map<Seq<u8>, Seq<u32>>,
    repository: Seq<u8>,
    node: NodeID,
) -> Map<Seq<u8>, Seq<u32>> {
    let before = if lists.contains_key(repository) {
        lists[repository]
    } else {
        Seq::empty()
    };
    lists.insert(repository, before.push(node))
}

/// Nodes of one repository to discard.
#[derive(Debug)]
pub struct DiscardBatch {
    pub repository: RepositoryId,
    /// The link through which another repository than the base is reached.
    pub link: Option<LinkContext>,
    pub nodes: Vec<NodeID>,
}

impl DiscardList {
    /// Nothing to discard.
    pub fn new() -> (list: DiscardList)
        ensures
            list@ == no_discards(),
    {
        DiscardList { nodes: discard_map_new() }
    }

    /// Adds a node of a repository.
    pub fn push(&mut self, repository: RepositoryId, node: NodeID)
        ensures
            final(self)@ == with_discard(old(self)@, repository.data@, node),
    {
        let mut ids: Vec<u32> = match discard_map_get(&self.nodes, &repository.data) {
            Some(ids) => ids,
            None => Vec::new(),
        };
        ids.push(node);
        discard_map_insert(&mut self.nodes, repository.data, ids);
    }
}

/// A batch belongs to the lists: its nodes are those of its repository, which
/// is the base or is reached through the named link.
pub open spec fn is_batch(
    lists: Map<Seq<u8>, Seq<u32>>,
    base: RepositoryId,
    links: Map<LinkKeyView, bool>,
    batch: DiscardBatch,
) -> bool {
    &&& lists.contains_key(batch.repository.data@)
    &&& batch.nodes@ == lists[batch.repository.data@]
    &&& batch.nodes@.len() > 0
    &&& batch.repository == base ==> batch.link is None
    &&& batch.repository != base ==> {
        &&& batch.link matches Some(context)
        &&& links.contains_key(context@)
        &&& context@.0 == batch.repository.data@
    }
}

/// The nodes of a repository are discarded: there are some, and the repository
/// is the base or a link leads to it.
pub open spec fn is_discarded(
    lists: Map<Seq<u8>, Seq<u32>>,
    base: RepositoryId,
    links: Map<LinkKeyView, bool>,
    repository: Seq<u8>,
) -> bool {
    &&& lists.contains_key(repository)
    &&& lists[repository].len() > 0
    &&& repository == base.data@ || exists|k: LinkKeyView|
        #![trigger links.contains_key(k)]
        links.contains_key(k) && k.0 == repository
}

/// The batches to discard, in no particular order. Nodes of a repository that
/// no link leads to are left alone.
pub fn discard_nodes(list: &DiscardList, base: RepositoryId, tracker: &LinkTracker) -> (batches: Vec<
    DiscardBatch,
>)
    ensures
        forall|i: int|
            0 <= i < batches@.len() ==> is_batch(list@, base, tracker@, #[trigger] batches@[i]),
        forall|key: Seq<u8>| #[trigger]
            is_discarded(list@, base, tracker@, key) ==> exists|i: int|
                0 <= i < batches@.len() && (#[trigger] batches@[i]).repository.data@ == key,
        forall|i: int, j: int|
            0 <= i < j < batches@.len() ==> (#[trigger] batches@[i]).repository.data@ != (
            #[trigger] batches@[j]).repository.data@,
{
    let entries = discard_map_list(&list.nodes);
    let mut batches: Vec<DiscardBatch> = Vec::new();
    let mut i: usize = 0;
    while i < entries.len()
        invariant
            i <= entries@.len(),
            forall|n: int|
                0 <= n < entries@.len() ==> {
                    &&& list@.contains_key((#[trigger] entries@[n]).0@)
                    &&& list@[entries@[n].0@] == entries@[n].1@
                },
            forall|n: int, m: int|
                0 <= n < m < entries@.len() ==> (#[trigger] entries@[n]).0@ != (
                #[trigger] entries@[m]).0@,
            forall|n: int|
                0 <= n < batches@.len() ==> is_batch(list@, base, tracker@, #[trigger] batches@[n]),
            forall|n: int|
                0 <= n < batches@.len() ==> exists|m: int|
                    0 <= m < i && (#[trigger] entries@[m]).0@ == (
                    #[trigger] batches@[n]).repository.data@,
            forall|n: int, m: int|
                0 <= n < m < batches@.len() ==> (#[trigger] batches@[n]).repository.data@ != (
                #[trigger] batches@[m]).repository.data@,
            forall|m: int|
                0 <= m < i && is_discarded(
                    list@,
                    base,
                    tracker@,
                    (#[trigger] entries@[m]).0@,
                ) ==> exists|n: int|
                    0 <= n < batches@.len() && (#[trigger] batches@[n]).repository.data@
                        == entries@[m].0@,
        decreases entries@.len() - i,
    {
        let repository = RepositoryId { data: entries[i].0 };
        let ghost before = batches@;
        if entries[i].1.len() > 0 {
            let mut batch: Option<DiscardBatch> = None;
            if repository == base {
                batch = Some(
                    DiscardBatch {
                        repository,
                        link: None,
                        nodes: copy_ids(&entries[i].1),
                    },
                );
            } else {
                proof {
                    assert(repository.data@ == base.data@ ==> repository.data =~= base.data);
                }
                if let Some(context) = tracker.find_link_context(repository) {
                    assert(tracker@.contains_key(context@));
                    batch = Some(
                        DiscardBatch {
                            repository,
                            link: Some(context),
                            nodes: copy_ids(&entries[i].1),
                        },
                    );
                }
            }
            if let Some(batch) = batch {
                assert(is_batch(list@, base, tracker@, batch));
                batches.push(batch);
                proof {
                    let last = before.len() as int;
                    assert(entries@[i as int].0@ == batches@[last].repository.data@);
                    assert forall|n: int| 0 <= n < batches@.len() implies exists|m: int|
                        0 <= m < i + 1 && (#[trigger] entries@[m]).0@ == (
                        #[trigger] batches@[n]).repository.data@ by {
                        if n < last {
                            assert(batches@[n] == before[n]);
                            let m = choose|m: int|
                                0 <= m < i && (#[trigger] entries@[m]).0@
                                    == before[n].repository.data@;
                            assert(entries@[m].0@ == batches@[n].repository.data@);
                        }
                    }
                    assert forall|m: int| 0 <= m < i + 1 && is_discarded(
                        list@,
                        base,
                        tracker@,
                        (#[trigger] entries@[m]).0@,
                    ) implies exists|n: int|
                        0 <= n < batches@.len() && (#[trigger] batches@[n]).repository.data@
                            == entries@[m].0@ by {
                        if m < i {
                            let n = choose|n: int|
                                0 <= n < before.len() && (#[trigger] before[n]).repository.data@
                                    == entries@[m].0@;
                            assert(batches@[n] == before[n]);
                        }
                    }
                    assert forall|n: int, m: int| 0 <= n < m < batches@.len() implies (
                    #[trigger] batches@[n]).repository.data@ != (
                    #[trigger] batches@[m]).repository.data@ by {
                        if m == last {
                            assert(batches@[n] == before[n]);
                            let e = choose|e: int|
                                0 <= e < i && (#[trigger] entries@[e]).0@
                                    == before[n].repository.data@;
                            assert(entries@[e].0@ != entries@[i as int].0@);
                        } else {
                            assert(batches@[n] == before[n]);
                            assert(batches@[m] == before[m]);
                        }
                    }
                }
            }
        }
        i = i + 1;
    }
    proof {
        assert forall|key: Seq<u8>| #[trigger] is_discarded(
            list@,
            base,
            tracker@,
            key,
        ) implies exists|n: int|
            0 <= n < batches@.len() && (#[trigger] batches@[n]).repository.data@ == key by {
            assert(list@.contains_key(key));
            let m = choose|m: int| 0 <= m < entries@.len() && (#[trigger] entries@[m]).0@ == key;
            assert(is_discarded(list@, base, tracker@, entries@[m].0@));
        }
    }
    batches
}

fn copy_ids(ids: &Vec<u32>) -> (copy: Vec<u32>)
    ensures
        copy@ == ids@,
{
    vstd::slice::slice_to_vec(ids.as_slice())
}

// ---------------------------------------------------------------------------
// One node
// ---------------------------------------------------------------------------

/// How the file of a node compares with the current revision.
#[derive(Clone, Copy, Debug, PartialEq, Eq, Structural)]
pub enum DiskCheck {
    /// There is no such file.
    Missing,
    /// The content differs.
    Modified,
    /// The content is the same.
    Unmodified,
}

/// A staged node that is no addition, with its staged change taken back: a
/// modified file has the content of the current revision again.
pub open spec fn restored(node: Node, current: Node) -> Node {
    let content = if node.staged_as(NodeAction::Modify) && node.kind == NodeKind::File {
        Node { child: current.child, mode: current.mode, size: current.size, ..node }
    } else {
        node
    };
    content.without_staged()
}

/// The node after its file was compared: a file that matches the current
/// revision is not dirty.
pub open spec fn checked(node: Node, disk: DiskCheck) -> Node {
    if node.dirty && node.kind == NodeKind::File && disk == DiskCheck::Unmodified {
        node.without_dirty()
    } else {
        node
    }
}

/// The nodes after unstaging a node, before its parents are looked at. A staged
/// addition keeps its dirty flag, and so does everything below it.
pub open spec fn unstaged_in_place(
    nodes: Seq<Node>,
    current: Seq<Node>,
    id: NodeID,
    disk: DiskCheck,
) -> Option<Seq<Node>> {
    let node = nodes[id as int];
    if node.staged_as(NodeAction::Add) {
        let own = nodes.update(id as int, node.without_staged());
        if node.kind == NodeKind::Directory {
            match descendants(own, id) {
                Some(ids) => Some(unstaged_all(own, ids)),
                None => None,
            }
        } else {
            Some(own)
        }
    } else if id < current.len() {
        Some(nodes.update(id as int, checked(restored(node, current[id as int]), disk)))
    } else {
        None
    }
}

/// The counters after unstaging a node in place: what lies below an addition is
/// counted.
pub open spec fn in_place_stats(
    nodes: Seq<Node>,
    id: NodeID,
    stats: UnstageStats,
) -> UnstageStats {
    let node = nodes[id as int];
    let own = nodes.update(id as int, node.without_staged());
    if node.staged_as(NodeAction::Add) && node.kind == NodeKind::Directory && descendants(
        own,
        id,
    ) is Some {
        counted(stats, own, descendants(own, id)->0)
    } else {
        stats
    }
}

/// What unstaging a node comes to in its tree.
#[verifier::ext_equal]
pub struct TreeEffect {
    /// The nodes as they stand.
    pub nodes: Seq<Node>,
    /// Some node was written.
    pub wrote: bool,
    pub stats: UnstageStats,
    /// Why it failed, if it did.
    pub fault: Option<(ErrorKind, Seq<char>)>,
}

/// Unstaging a node in its tree: parents that were staged only to carry it are
/// unstaged, and where the node is clean, so are parents without other dirty
/// children. It fails where what lies below an addition is not sound, where the
/// current revision lacks the node, and where the parents are not sound.
pub open spec fn unstaging_tree(
    nodes: Seq<Node>,
    current: Seq<Node>,
    id: NodeID,
    disk: DiskCheck,
    stats: UnstageStats,
) -> TreeEffect {
    let node = nodes[id as int];
    let after = in_place_stats(nodes, id, stats);
    match unstaged_in_place(nodes, current, id, disk) {
        None => if node.staged_as(NodeAction::Add) {
            TreeEffect {
                nodes: nodes.update(id as int, node.without_staged()),
                wrote: true,
                stats: after,
                fault: Some(
                    (ErrorKind::InvalidNodeHierarchy, "Invalid node hierarchy in unstage walk"@),
                ),
            }
        } else {
            TreeEffect {
                nodes,
                wrote: false,
                stats: after,
                fault: Some((ErrorKind::NodeNotFound, "Failed deserializing state node block"@)),
            }
        },
        Some(own) => {
            let parent = own[id as int].parent;
            let up = unstaging(own, parent, own.len());
            let clean = cleaning(up.nodes, parent, up.nodes.len());
            let end = if up.fault is Some || own[id as int].dirty {
                up
            } else {
                clean
            };
            TreeEffect {
                nodes: end.nodes,
                wrote: true,
                stats: after,
                fault: match end.fault {
                    Some(kind) => Some((kind, "Failed to check node children"@)),
                    None => None,
                },
            }
        },
    }
}

/// The counters after the listed nodes were unstaged.
pub open spec fn counted(stats: UnstageStats, nodes: Seq<Node>, ids: Seq<NodeID>) -> UnstageStats
    decreases ids.len(),
{
    if ids.len() == 0 {
        stats
    } else {
        let before = counted(stats, nodes, ids.drop_last());
        if nodes[ids.last() as int].kind == NodeKind::Directory {
            UnstageStats {
                directory_unstaged_count: next_count(before.directory_unstaged_count),
                ..before
            }
        } else {
            UnstageStats { file_unstaged_count: next_count(before.file_unstaged_count), ..before }
        }
    }
}

/// The listed nodes that are no directories.
pub open spec fn files_of(nodes: Seq<Node>, ids: Seq<NodeID>) -> Seq<NodeID>
    decreases ids.len(),
{
    if ids.len() == 0 {
        Seq::empty()
    } else if nodes[ids.last() as int].kind == NodeKind::Directory {
        files_of(nodes, ids.drop_last())
    } else {
        files_of(nodes, ids.drop_last()).push(ids.last())
    }
}

/// Clears the staged flags of everything below a staged addition, so that it
/// survives as a tree of dirty additions. Returns the files to report.
pub fn demote_subnodes_to_dirty(tree: &mut NodeTree, id: NodeID, stats: &mut UnstageStats) -> (result:
    Result<Vec<NodeID>, UnstageError>)
    ensures
        result is Ok <==> descendants(old(tree)@, id) is Some,
        result matches Ok(files) ==> {
            let ids = descendants(old(tree)@, id)->0;
            &&& final(tree)@ == unstaged_all(old(tree)@, ids)
            &&& files@ == files_of(old(tree)@, ids)
            &&& *final(stats) == counted(*old(stats), old(tree)@, ids)
            &&& final(tree).modified == (old(tree).modified || ids.len() > 0)
        },
        result matches Err(e) ==> {
            &&& *final(tree) == *old(tree)
            &&& *final(stats) == *old(stats)
            &&& e.kind == broken_links(old(tree)@, id)
            &&& e.detail@ == "Invalid node hierarchy in unstage walk"@
        },
{
    let ids = match tree.node_descendants(id) {
        Ok(ids) => ids,
        Err(kind) => {
            return Err(UnstageError::of(kind, "Invalid node hierarchy in unstage walk"));
        },
    };
    proof {
        law_descendants_in_tree(tree@, id);
        assert forall|j: int| 0 <= j < ids@.len() implies (#[trigger] ids@[j]) < tree@.len() by {
            assert(descendants(tree@, id)->0[j] == ids@[j]);
        }
    }
    let mut files: Vec<NodeID> = Vec::new();
    let mut i: usize = 0;
    while i < ids.len()
        invariant
            i <= ids@.len(),
            *tree == *old(tree),
            forall|j: int| 0 <= j < ids@.len() ==> (#[trigger] ids@[j]) < tree@.len(),
            files@ == files_of(tree@, ids@.take(i as int)),
            *stats == counted(*old(stats), tree@, ids@.take(i as int)),
        decreases ids@.len() - i,
    {
        let node_id = ids[i];
        proof {
            assert(ids@.take(i + 1).drop_last() =~= ids@.take(i as int));
            assert(ids@.take(i + 1).last() == node_id);
        }
        if tree.nodes[node_id as usize].is_directory() {
            stats.directory_unstaged_count = count_one(stats.directory_unstaged_count);
        } else {
            stats.file_unstaged_count = count_one(stats.file_unstaged_count);
            files.push(node_id);
        }
        i = i + 1;
    }
    assert(ids@.take(ids@.len() as int) =~= ids@);
    tree.clear_staged_of(&ids);
    Ok(files)
}

/// What is visited next after a node was unstaged.
#[derive(Debug)]
pub enum UnstageNext {
    /// Nothing.
    Done,
    /// The children of a directory, which is then counted as unstaged.
    Directory { node: NodeID },
    /// The children of the node that a link leads to.
    Linked {
        repository: RepositoryId,
        /// Revision of the linked repository in the staged state.
        staged_revision: ContentHash,
        /// Revision of the linked repository in the current state.
        current_revision: ContentHash,
        node: NodeID,
    },
}

/// What came of unstaging a node.
#[derive(Debug)]
pub struct UnstageOutcome {
    /// The report for the node itself.
    pub event: Option<LoreFileUnstageFileEventData>,
    /// Files below a staged directory that are reported as kept.
    pub demoted: Vec<NodeID>,
    pub next: UnstageNext,
}

/// A node name that is never unstaged.
pub open spec fn is_ignored_name(name: Seq<char>) -> bool {
    name.len() == 0 || name == "."@ || is_dot_directory(name)
}

/// Tells whether a node is passed over: it has no proper name, it holds
/// repository state, or a filter excludes it.
pub fn ignores_node(name: &str, force: bool, excluded: bool) -> (ignored: bool)
    ensures
        ignored == (is_ignored_name(name@) || (!force && excluded)),
{
    if name.is_empty() || text_equal(name, ".") {
        return true;
    }
    if names_dot_directory(name) {
        return true;
    }
    !force && excluded
}

/// The link registry entry that unstaging the removal of a link brings back.
pub open spec fn restored_reference(reference: LinkReference) -> LinkReference {
    LinkReference { flags: reference.flags & crate::link::DISABLE_AUTO_FOLLOW, ..reference }
}

/// What a link node leads to next.
pub open spec fn link_next(node: Node, current: Node, single_node: bool) -> UnstageNext {
    if single_node || current.kind != NodeKind::Link {
        UnstageNext::Done
    } else {
        UnstageNext::Linked {
            repository: node.link.repository,
            staged_revision: node.link.revision,
            current_revision: current.link.revision,
            node: node.child,
        }
    }
}

/// Discards a link that was added in the staged revision: its registry entry
/// goes, and the node is discarded at the end.
fn discard_added_link(
    staged: &mut RevisionState,
    repository: RepositoryId,
    id: NodeID,
    resolved_path: &str,
    discard: &mut DiscardList,
    stats: &mut UnstageStats,
) -> (result: Result<UnstageOutcome, UnstageError>)
    requires
        id < old(staged).tree@.len(),
    ensures
        result is Ok <==> has_link(
            old(staged).links@,
            old(staged).tree@[id as int].link.repository,
            id,
        ),
        result matches Ok(outcome) ==> {
            let node = old(staged).tree@[id as int];
            &&& final(staged).links@ == old(staged).links@.remove(
                link_position(old(staged).links@, node.link.repository, id),
            )
            &&& final(staged).tree@ == old(staged).tree@.update(id as int, node.without_staged())
            &&& final(discard)@ == with_discard(old(discard)@, repository.data@, id)
            &&& *final(stats) == (UnstageStats {
                file_discarded_count: next_count(old(stats).file_discarded_count),
                ..*old(stats)
            })
            &&& outcome.event matches Some(event)
            &&& event.path@ == resolved_path@
            &&& event.action == LoreFileAction::Delete
            &&& outcome.demoted@.len() == 0
            &&& outcome.next is Done
        },
        result is Ok ==> final(staged).same_header(*old(staged)) && final(staged).tree.modified,
        result matches Err(e) ==> {
            &&& e.kind == ErrorKind::LinkNotFound
            &&& e.detail@ == "Failed to remove link registry entry"@
            &&& *final(staged) == *old(staged)
            &&& final(discard)@ == old(discard)@
            &&& *final(stats) == *old(stats)
        },
{
    let mut node = staged.tree.nodes[id as usize];
    match staged.link_remove(node.link.repository, id) {
        Ok(()) => {},
        Err(kind) => {
            return Err(UnstageError::of(kind, "Failed to remove link registry entry"));
        },
    }
    stats.file_discarded_count = count_one(stats.file_discarded_count);
    node.clear_staged_flags();
    staged.tree.set_node(id, node);
    discard.push(repository, id);
    Ok(
        UnstageOutcome {
            event: Some(
                LoreFileUnstageFileEventData {
                    path: resolved_path.to_owned(),
                    action: LoreFileAction::Delete,
                },
            ),
            demoted: Vec::new(),
            next: UnstageNext::Done,
        },
    )
}

/// Unstages a node and what is staged around it.
fn unstage_in_tree(
    tree: &mut NodeTree,
    current: &NodeTree,
    id: NodeID,
    disk: DiskCheck,
    stats: &mut UnstageStats,
) -> (result: Result<Vec<NodeID>, UnstageError>)
    requires
        id < old(tree)@.len(),
    ensures
        ({
            let effect = unstaging_tree(old(tree)@, current@, id, disk, *old(stats));
            &&& final(tree)@ == effect.nodes
            &&& final(tree).modified == (old(tree).modified || effect.wrote)
            &&& *final(stats) == effect.stats
            &&& result is Ok <==> effect.fault is None
            &&& result matches Ok(files) ==> files@ == demoted_files(old(tree)@, id)
            &&& result matches Err(e) ==> effect.fault == Some((e.kind, e.detail@))
        }),
        final(tree)@.len() == old(tree)@.len(),
{
    let mut node = tree.nodes[id as usize];
    let mut files: Vec<NodeID> = Vec::new();
    if node.is_staged_add() {
        node.clear_staged_flags();
        tree.set_node(id, node);
        if node.is_directory() {
            match demote_subnodes_to_dirty(tree, id, stats) {
                Ok(demoted) => {
                    files = demoted;
                },
                Err(error) => {
                    return Err(error);
                },
            }
        }
    } else {
        let current_node = match current.node(id) {
            Ok(current_node) => current_node,
            Err(kind) => {
                return Err(UnstageError::of(kind, "Failed deserializing state node block"));
            },
        };
        if node.is_staged_modify() && node.is_file() {
            node.child = current_node.child;
            node.mode = current_node.mode;
            node.size = current_node.size;
        }
        node.clear_staged_flags();
        if node.dirty && node.is_file() && disk == DiskCheck::Unmodified {
            node.clear_dirty_flags();
        }
        tree.set_node(id, node);
    }
    let ghost own = unstaged_in_place(old(tree)@, current@, id, disk);
    assert(Some(tree@) == own);
    let own_node = tree.nodes[id as usize];
    match tree.clear_staged_parents(own_node.parent) {
        Ok(()) => {},
        Err(kind) => {
            return Err(UnstageError::of(kind, "Failed to check node children"));
        },
    }
    if !own_node.dirty {
        match tree.clear_dirty_parents(own_node.parent) {
            Ok(()) => {},
            Err(kind) => {
                return Err(UnstageError::of(kind, "Failed to check node children"));
            },
        }
    }
    Ok(files)
}

/// What unstaging a node works on, as contracts speak of it.
#[verifier::ext_equal]
pub struct UnstageView {
    pub nodes: Seq<Node>,
    pub modified: bool,
    pub links: Seq<LinkReference>,
    pub tracker: Map<LinkKeyView, bool>,
    pub discard: Map<Seq<u8>, Seq<u32>>,
    pub stats: UnstageStats,
}

/// A state and what is collected beside it, as contracts speak of them.
pub open spec fn unstage_view(
    staged: RevisionState,
    tracker: LinkTracker,
    discard: DiscardList,
    stats: UnstageStats,
) -> UnstageView {
    UnstageView {
        nodes: staged.tree@,
        modified: staged.tree.modified,
        links: staged.links@,
        tracker: tracker@,
        discard: discard@,
        stats,
    }
}

/// What unstaging a node comes to: what it worked on, as it stands, and why it
/// failed, if it did.
#[verifier::ext_equal]
pub struct UnstageEffect {
    pub after: UnstageView,
    pub fault: Option<(ErrorKind, Seq<char>)>,
}

/// Unstaging a node. It fails where the node is missing, links are not sound, or a
/// registry entry is missing. A link that was added is discarded; taking back the
/// removal of a link brings its registry entry back and makes the link node clean.
pub open spec fn unstaging_node(
    before: UnstageView,
    current: RevisionState,
    repository: Seq<u8>,
    id: NodeID,
    path: Seq<char>,
    force: bool,
    disk: DiskCheck,
) -> UnstageEffect {
    let node = before.nodes[id as int];
    if id >= before.nodes.len() {
        UnstageEffect {
            after: before,
            fault: Some((ErrorKind::NodeNotFound, "Failed to find subnode"@)),
        }
    } else if !node.staged && !force {
        UnstageEffect { after: before, fault: None }
    } else if node.staged_as(NodeAction::Add) && node.kind == NodeKind::Link {
        if has_link(before.links, node.link.repository, id) {
            UnstageEffect {
                after: UnstageView {
                    nodes: before.nodes.update(id as int, node.without_staged()),
                    modified: true,
                    links: before.links.remove(
                        link_position(before.links, node.link.repository, id),
                    ),
                    discard: with_discard(before.discard, repository, id),
                    stats: UnstageStats {
                        file_discarded_count: next_count(before.stats.file_discarded_count),
                        ..before.stats
                    },
                    ..before
                },
                fault: None,
            }
        } else {
            UnstageEffect {
                after: before,
                fault: Some((ErrorKind::LinkNotFound, "Failed to remove link registry entry"@)),
            }
        }
    } else {
        let tree = unstaging_tree(before.nodes, current.tree@, id, disk, before.stats);
        let own = UnstageView {
            nodes: tree.nodes,
            modified: before.modified || tree.wrote,
            stats: tree.stats,
            ..before
        };
        let noted = UnstageView { tracker: marked(before.tracker, repository), ..own };
        if tree.fault is Some {
            UnstageEffect { after: own, fault: tree.fault }
        } else {
            match node.kind {
                NodeKind::Directory => UnstageEffect { after: noted, fault: None },
                NodeKind::File => UnstageEffect {
                    after: UnstageView {
                        stats: UnstageStats {
                            file_unstaged_count: next_count(own.stats.file_unstaged_count),
                            ..own.stats
                        },
                        ..noted
                    },
                    fault: None,
                },
                NodeKind::Link => {
                    let followed = UnstageView {
                        tracker: noted.tracker.insert(
                            (node.link.repository.data@, id, repository, path),
                            false,
                        ),
                        ..noted
                    };
                    if !node.staged_as(NodeAction::Delete) {
                        UnstageEffect { after: followed, fault: None }
                    } else if has_link(current.links@, node.link.repository, id) {
                        let at = link_position(current.links@, node.link.repository, id);
                        UnstageEffect {
                            after: UnstageView {
                                nodes: own.nodes.update(
                                    id as int,
                                    own.nodes[id as int].without_dirty(),
                                ),
                                links: before.links.push(restored_reference(current.links@[at])),
                                ..followed
                            },
                            fault: None,
                        }
                    } else {
                        UnstageEffect {
                            after: followed,
                            fault: Some(
                                (ErrorKind::LinkNotFound, "Failed to find link registry entry"@),
                            ),
                        }
                    }
                },
            }
        }
    }
}

/// The report for a node that is unstaged.
pub open spec fn unstage_event(
    node: Node,
    force: bool,
    node_path: Seq<char>,
    resolved_path: Seq<char>,
) -> Option<(Seq<char>, LoreFileAction)> {
    if !node.staged && !force {
        None
    } else {
        match node.kind {
            NodeKind::File => Some((node_path, LoreFileAction::Keep)),
            NodeKind::Directory => None,
            NodeKind::Link => if node.staged_as(NodeAction::Add) {
                Some((resolved_path, LoreFileAction::Delete))
            } else {
                None
            },
        }
    }
}

/// An event, as contracts speak of it.
pub open spec fn event_view(event: Option<LoreFileUnstageFileEventData>) -> Option<
    (Seq<char>, LoreFileAction),
> {
    match event {
        Some(data) => Some((data.path@, data.action)),
        None => None,
    }
}

/// The files below a directory that was a staged addition.
pub open spec fn demoted_files(nodes: Seq<Node>, id: NodeID) -> Seq<NodeID> {
    let node = nodes[id as int];
    let own = nodes.update(id as int, node.without_staged());
    if node.staged_as(NodeAction::Add) && node.kind == NodeKind::Directory {
        files_of(own, descendants(own, id)->0)
    } else {
        Seq::empty()
    }
}

/// What is visited after a node was unstaged.
pub open spec fn unstage_next(
    node: Node,
    current: Node,
    id: NodeID,
    force: bool,
    single_node: bool,
) -> UnstageNext {
    if !node.staged && !force {
        UnstageNext::Done
    } else {
        match node.kind {
            NodeKind::File => UnstageNext::Done,
            NodeKind::Directory => if single_node {
                UnstageNext::Done
            } else {
                UnstageNext::Directory { node: id }
            },
            NodeKind::Link => if node.staged_as(NodeAction::Add) {
                UnstageNext::Done
            } else {
                link_next(node, current, single_node)
            },
        }
    }
}

/// Unstages the node found at a path.
///
/// A node that is not staged is left alone unless forced. A link that was added
/// in the staged revision is discarded. Any other node loses its staged flags,
/// and its parents are brought in line. What lies below a directory or behind a
/// link is left to the caller, as told by the outcome. A state for which this fails
/// is not written, though flags may have been cleared in it.
pub fn unstage_node(
    staged: &mut RevisionState,
    current: &RevisionState,
    repository: RepositoryId,
    id: NodeID,
    node_path: &str,
    resolved_path: &str,
    force: bool,
    options: UnstageOptions,
    disk: DiskCheck,
    tracker: &mut LinkTracker,
    discard: &mut DiscardList,
    stats: &mut UnstageStats,
) -> (result: Result<UnstageOutcome, UnstageError>)
    ensures
        ({
            let before = unstage_view(*old(staged), *old(tracker), *old(discard), *old(stats));
            let effect = unstaging_node(
                before,
                *current,
                repository.data@,
                id,
                node_path@,
                force,
                disk,
            );
            let node = before.nodes[id as int];
            &&& unstage_view(*final(staged), *final(tracker), *final(discard), *final(stats))
                == effect.after
            &&& result is Ok <==> effect.fault is None
            &&& result matches Err(e) ==> effect.fault == Some((e.kind, e.detail@))
            &&& result matches Ok(outcome) ==> {
                &&& event_view(outcome.event) == unstage_event(
                    node,
                    force,
                    node_path@,
                    resolved_path@,
                )
                &&& outcome.demoted@ == demoted_files(before.nodes, id)
                &&& outcome.next == unstage_next(
                    node,
                    current.tree@[id as int],
                    id,
                    force,
                    options.single_node,
                )
            }
        }),
        final(staged).same_header(*old(staged)),
{
    let node = match staged.tree.node(id) {
        Ok(node) => node,
        Err(kind) => {
            return Err(UnstageError::of(kind, "Failed to find subnode"));
        },
    };
    if !node.staged && !force {
        return Ok(
            UnstageOutcome { event: None, demoted: Vec::new(), next: UnstageNext::Done },
        );
    }
    if node.is_staged_add() && node.is_link() {
        return discard_added_link(staged, repository, id, resolved_path, discard, stats);
    }
    let demoted = match unstage_in_tree(&mut staged.tree, &current.tree, id, disk, stats) {
        Ok(demoted) => demoted,
        Err(error) => {
            return Err(error);
        },
    };
    tracker.on_node_changed(repository);
    if node.is_link() {
        tracker.add_link(
            LinkContext {
                link_repository_id: node.link.repository,
                link_node_id: id,
                parent_repository_id: repository,
                link_path: node_path.to_owned(),
            },
        );
        if node.is_staged_delete() {
            let reference = match current.link_find(node.link.repository, id) {
                Ok(reference) => reference,
                Err(kind) => {
                    return Err(UnstageError::of(kind, "Failed to find link registry entry"));
                },
            };
            let mut restored_link = reference;
            restored_link.flags = crate::link::LinkFlags::from_bits_truncate(reference.flags).bits;
            staged.link_add(restored_link);
            let mut clean = staged.tree.nodes[id as usize];
            clean.clear_dirty_flags();
            staged.tree.set_node(id, clean);
        }
        let current_node = current.tree.nodes[id as usize];
        let next = if options.single_node || !current_node.is_link() {
            UnstageNext::Done
        } else {
            UnstageNext::Linked {
                repository: node.link.repository,
                staged_revision: node.link.revision,
                current_revision: current_node.link.revision,
                node: node.child,
            }
        };
        return Ok(UnstageOutcome { event: None, demoted, next });
    }
    if node.is_directory() {
        let next = if options.single_node {
            UnstageNext::Done
        } else {
            UnstageNext::Directory { node: id }
        };
        return Ok(UnstageOutcome { event: None, demoted, next });
    }
    stats.file_unstaged_count = count_one(stats.file_unstaged_count);
    Ok(
        UnstageOutcome {
            event: Some(
                LoreFileUnstageFileEventData {
                    path: node_path.to_owned(),
                    action: LoreFileAction::Keep,
                },
            ),
            demoted,
            next: UnstageNext::Done,
        },
    )
}

/// A child of a directory that is unstaged.
#[derive(Debug)]
pub struct UnstageChild {
    pub node: NodeID,
    pub name: String,
    pub path: String,
}

/// The children of a directory, in order, each with the path that it is unstaged
/// under. `names` holds the name of each node.
pub fn unstage_directory(
    tree: &NodeTree,
    names: &Vec<String>,
    directory: NodeID,
    directory_path: &str,
) -> (result: Result<Vec<UnstageChild>, UnstageError>)
    requires
        names@.len() == tree@.len(),
    ensures
        result is Ok <==> children(tree@, directory) is Some,
        result matches Ok(list) ==> {
            let ids = children(tree@, directory)->0;
            &&& list@.len() == ids.len()
            &&& forall|i: int|
                0 <= i < list@.len() ==> {
                    &&& (#[trigger] list@[i]).node == ids[i]
                    &&& list@[i].name@ == names@[ids[i] as int]@
                    &&& list@[i].path@ == joined(directory_path@, names@[ids[i] as int]@)
                }
        },
        result matches Err(e) ==> e.kind == broken_links(tree@, directory) && e.detail@
            == "Failed to list directory node children"@,
{
    let ids = match tree.node_children(directory) {
        Ok(ids) => ids,
        Err(kind) => {
            return Err(UnstageError::of(kind, "Failed to list directory node children"));
        },
    };
    let mut list: Vec<UnstageChild> = Vec::new();
    let mut i: usize = 0;
    while i < ids.len()
        invariant
            i <= ids@.len(),
            names@.len() == tree@.len(),
            children(tree@, directory) == Some(ids@),
            list@.len() == i,
            forall|j: int|
                0 <= j < i ==> {
                    &&& (#[trigger] list@[j]).node == ids@[j]
                    &&& list@[j].name@ == names@[ids@[j] as int]@
                    &&& list@[j].path@ == joined(directory_path@, names@[ids@[j] as int]@)
                },
        decreases ids@.len() - i,
    {
        proof {
            law_children_name_their_parent(tree@, directory, i as int);
        }
        let node = ids[i];
        let name = names[node as usize].clone();
        let path = join(directory_path, name.as_str());
        list.push(UnstageChild { node, name, path });
        i = i + 1;
    }
    Ok(list)
}

/// Counts a directory whose children were all visited.
pub fn finish_directory(stats: &mut UnstageStats)
    ensures
        *final(stats) == (UnstageStats {
            directory_unstaged_count: next_count(old(stats).directory_unstaged_count),
            ..*old(stats)
        }),
{
    stats.directory_unstaged_count = count_one(stats.directory_unstaged_count);
}

// ---------------------------------------------------------------------------
// The operation
// ---------------------------------------------------------------------------

/// Where the unstaging of a path starts.
#[derive(Clone, Copy, Debug, PartialEq, Eq, Structural)]
pub enum UnstageStart {
    /// The path is passed over.
    Skip,
    /// Every child of the root.
    Root,
    /// The node at the path.
    Node,
}

/// Decides where the unstaging of a path starts. A single node cannot be the
/// root.
pub fn unstage_path(
    relative_path: &str,
    force: bool,
    excluded: bool,
    options: UnstageOptions,
) -> (start: UnstageStart)
    ensures
        start == if !force && excluded {
            UnstageStart::Skip
        } else if relative_path@.len() > 0 {
            UnstageStart::Node
        } else if options.single_node {
            UnstageStart::Skip
        } else {
            UnstageStart::Root
        },
{
    if !force && excluded {
        return UnstageStart::Skip;
    }
    if relative_path.is_empty() {
        if options.single_node {
            return UnstageStart::Skip;
        }
        return UnstageStart::Root;
    }
    UnstageStart::Node
}

/// Tells whether unstaging a path asks for the whole staged revision to be
/// dropped: the path is the root, and no merge, cherry-pick or revert is under
/// way.
pub fn requests_clear(relative_path: &str, in_merge: bool) -> (clear: bool)
    ensures
        clear == (!in_merge && relative_path@.len() == 0),
{
    !in_merge && relative_path.is_empty()
}

/// The staged revision is dropped after an unstage operation.
pub open spec fn drops_staged(
    requested: bool,
    in_merge: bool,
    has_staged: bool,
    has_dirty: bool,
) -> bool {
    (requested || (!in_merge && !has_staged)) && !has_dirty
}

/// No staged revision is dropped that holds something dirty, nor one with something
/// staged or in the middle of a merge unless that is asked for; one that holds nothing
/// any more is.
pub proof fn law_staged_revision_is_dropped_when_empty(
    requested: bool,
    in_merge: bool,
    has_staged: bool,
    has_dirty: bool,
)
    ensures
        has_dirty ==> !drops_staged(requested, in_merge, has_staged, has_dirty),
        has_staged && !requested ==> !drops_staged(requested, in_merge, has_staged, has_dirty),
        in_merge && !requested ==> !drops_staged(requested, in_merge, has_staged, has_dirty),
        !in_merge && !has_staged && !has_dirty ==> drops_staged(
            requested,
            in_merge,
            has_staged,
            has_dirty,
        ),
        requested && !has_dirty ==> drops_staged(requested, in_merge, has_staged, has_dirty),
{
}

/// Decides after all paths whether the staged revision is dropped: that was
/// asked for, or nothing is staged any more outside of a merge; and in either
/// case nothing is dirty.
pub fn should_clear(
    requested: bool,
    in_merge: bool,
    has_staged: bool,
    has_dirty: bool,
) -> (clear: bool)
    ensures
        clear == drops_staged(requested, in_merge, has_staged, has_dirty),
{
    let mut clear = requested;
    if !clear && !in_merge {
        clear = !has_staged && !has_dirty;
    }
    if clear {
        if has_dirty {
            clear = false;
        }
    }
    clear
}

/// What remains to be done after the staged revision was dropped or kept.
#[derive(Clone, Copy, Debug, PartialEq, Eq, Structural)]
pub struct UnstageFinish {
    /// The collected nodes are discarded.
    pub discard: bool,
    /// The staged state is written, and the staged anchor moved to it.
    pub serialize: bool,
}

/// Decides how an unstage operation ends. Nothing is written when nothing was
/// unstaged or the staged revision was dropped; a staged revision that could
/// not be dropped counts as kept.
pub fn unstage(stats: &UnstageStats, clear: bool, anchor_deleted: bool) -> (finish: UnstageFinish)
    requires
        stats.total() <= u64::MAX,
    ensures
        finish.discard == !(clear && anchor_deleted),
        finish.serialize == (stats.total() != 0 && !(clear && anchor_deleted)),
{
    let cleared = clear && anchor_deleted;
    let total_count = stats.count_data().total_count;
    UnstageFinish { discard: !cleared, serialize: !(total_count == 0 || cleared) }
}

/// How the pin of a link is updated after unstaging below it.
#[derive(Clone, Copy, Debug)]
pub struct LinkUnstageUpdate {
    /// The revision that the link state becomes a successor of.
    pub parent_signature: ContentHash,
    /// The branch that the link is pinned to.
    pub branch: BranchId,
}

/// The update of one link: the link state follows the revision that the
/// current state is pinned to, on the branch that the staged state is pinned
/// to.
pub fn process_link_unstage_update(
    current: &RevisionState,
    staged: &RevisionState,
    link_context: &LinkContext,
) -> (result: Result<LinkUnstageUpdate, UnstageError>)
    ensures
        ({
            let repository = link_context.link_repository_id;
            let node = link_context.link_node_id;
            &&& result is Ok <==> has_link(current.links@, repository, node) && has_link(
                staged.links@,
                repository,
                node,
            )
            &&& result matches Ok(update) ==> {
                &&& update.parent_signature == current.links@[link_position(
                    current.links@,
                    repository,
                    node,
                )].signature
                &&& update.branch == staged.links@[link_position(
                    staged.links@,
                    repository,
                    node,
                )].branch
            }
            &&& result matches Err(e) ==> e.kind == ErrorKind::LinkNotFound && e.detail@
                == "Failed to unstage link nodes"@
        }),
{
    let current_link_ref = match current.link_find(
        link_context.link_repository_id,
        link_context.link_node_id,
    ) {
        Ok(reference) => reference,
        Err(kind) => {
            return Err(UnstageError::of(kind, "Failed to unstage link nodes"));
        },
    };
    let staged_link_ref = match staged.link_find(
        link_context.link_repository_id,
        link_context.link_node_id,
    ) {
        Ok(reference) => reference,
        Err(kind) => {
            return Err(UnstageError::of(kind, "Failed to unstage link nodes"));
        },
    };
    Ok(
        LinkUnstageUpdate {
            parent_signature: current_link_ref.signature,
            branch: staged_link_ref.branch,
        },
    )
}

// ---------------------------------------------------------------------------
// Laws
// ---------------------------------------------------------------------------

/// An unstaged node is not staged any more, whether its parents can be brought in
/// line or not, and a staged addition stays an addition in the working tree.
pub proof fn law_unstaged_node_is_not_staged(
    nodes: Seq<Node>,
    current: Seq<Node>,
    id: NodeID,
    disk: DiskCheck,
    stats: UnstageStats,
)
    requires
        id < nodes.len(),
        unstaged_in_place(nodes, current, id, disk) is Some,
    ensures
        !unstaging_tree(nodes, current, id, disk, stats).nodes[id as int].staged,
        nodes[id as int].staged_as(NodeAction::Add) && nodes[id as int].dirty ==> {
            let own = unstaged_in_place(nodes, current, id, disk)->0[id as int];
            own.dirty && own.action == NodeAction::Add
        },
{
    let own = unstaged_in_place(nodes, current, id, disk)->0;
    let parent = own[id as int].parent;
    assert(!own[id as int].staged);
    crate::node::law_unstaging_upwards_only_clears(own, parent, own.len());
    let up = unstaging(own, parent, own.len()).nodes;
    assert(!up[id as int].staged);
    crate::node::law_cleaning_upwards_only_clears(up, parent, up.len());
}

/// A node as another, but for flags that were cleared.
pub open spec fn only_cleared(before: Node, after: Node) -> bool {
    &&& after == Node {
        staged: after.staged,
        dirty: after.dirty,
        action: after.action,
        ..before
    }
    &&& after.staged ==> before.staged
    &&& after.dirty ==> before.dirty
}

/// Unstaging a node touches no other node but for flags that are cleared.
pub proof fn law_unstaging_keeps_other_nodes(
    nodes: Seq<Node>,
    current: Seq<Node>,
    id: NodeID,
    disk: DiskCheck,
    stats: UnstageStats,
    other: NodeID,
)
    requires
        id < nodes.len(),
        other < nodes.len(),
        other != id,
    ensures
        ({
            let after = unstaging_tree(nodes, current, id, disk, stats).nodes;
            after.len() == nodes.len() && only_cleared(nodes[other as int], after[other as int])
        }),
{
    if unstaged_in_place(nodes, current, id, disk) is Some {
        let own = unstaged_in_place(nodes, current, id, disk)->0;
        let parent = own[id as int].parent;
        crate::node::law_unstaging_upwards_only_clears(own, parent, own.len());
        let up = unstaging(own, parent, own.len()).nodes;
        crate::node::law_cleaning_upwards_only_clears(up, parent, up.len());
        assert(only_cleared(nodes[other as int], own[other as int]));
        assert(only_cleared(own[other as int], up[other as int]));
    }
}

/// Unstaging a modified file gives it the content of the current revision again. It
/// stays dirty exactly where it was and the file was not found to match; nothing else
/// of the node differs.
pub proof fn law_unstaging_gives_the_content_back(
    nodes: Seq<Node>,
    current: Seq<Node>,
    id: NodeID,
    disk: DiskCheck,
    stats: UnstageStats,
)
    requires
        id < nodes.len(),
        id < current.len(),
        nodes[id as int].kind == NodeKind::File,
        nodes[id as int].staged,
        nodes[id as int].action == NodeAction::Modify,
    ensures
        ({
            let before = nodes[id as int];
            let after = unstaging_tree(nodes, current, id, disk, stats).nodes[id as int];
            &&& after.child == current[id as int].child
            &&& after.mode == current[id as int].mode
            &&& after.size == current[id as int].size
            &&& !after.staged
            &&& after.dirty == (before.dirty && disk != DiskCheck::Unmodified)
            &&& after.kind == before.kind
            &&& after.parent == before.parent
            &&& after.sibling == before.sibling
            &&& after.name_hash == before.name_hash
            &&& after.link == before.link
            &&& after.discarded == before.discarded
        }),
{
    let own = unstaged_in_place(nodes, current, id, disk)->0;
    let parent = own[id as int].parent;
    crate::node::law_unstaging_upwards_only_clears(own, parent, own.len());
    let up = unstaging(own, parent, own.len()).nodes;
    crate::node::law_cleaning_upwards_only_clears(up, parent, up.len());
}

/// Unstaging a node that is no modified file keeps what it holds: only flags differ,
/// and it is dirty only where it was.
pub proof fn law_unstaging_keeps_other_content(
    nodes: Seq<Node>,
    current: Seq<Node>,
    id: NodeID,
    disk: DiskCheck,
    stats: UnstageStats,
)
    requires
        id < nodes.len(),
        nodes[id as int].kind != NodeKind::File || nodes[id as int].action != NodeAction::Modify,
    ensures
        only_cleared(
            nodes[id as int],
            unstaging_tree(nodes, current, id, disk, stats).nodes[id as int],
        ),
{
    if unstaged_in_place(nodes, current, id, disk) is Some {
        let own = unstaged_in_place(nodes, current, id, disk)->0;
        let parent = own[id as int].parent;
        crate::node::law_unstaging_upwards_only_clears(own, parent, own.len());
        let up = unstaging(own, parent, own.len()).nodes;
        crate::node::law_cleaning_upwards_only_clears(up, parent, up.len());
        assert(only_cleared(nodes[id as int], own[id as int]));
        assert(only_cleared(own[id as int], up[id as int]));
    }
}

/// Unstaging a directory that was a staged addition unstages everything below it, and
/// whatever of it was dirty stays dirty where the directory does.
pub proof fn law_unstaged_addition_takes_all_below_with_it(
    nodes: Seq<Node>,
    current: Seq<Node>,
    id: NodeID,
    disk: DiskCheck,
    stats: UnstageStats,
    below: NodeID,
)
    requires
        id < nodes.len(),
        below < nodes.len(),
        nodes[id as int].kind == NodeKind::Directory,
        nodes[id as int].staged,
        nodes[id as int].action == NodeAction::Add,
        descendants(nodes, id) is Some,
        descendants(nodes, id)->0.contains(below),
    ensures
        ({
            let after = unstaging_tree(nodes, current, id, disk, stats).nodes;
            &&& !after[below as int].staged
            &&& nodes[id as int].dirty && nodes[below as int].dirty ==> after[below as int].dirty
                && after[below as int].action == nodes[below as int].action
        }),
{
    let cleared = nodes.update(id as int, nodes[id as int].without_staged());
    crate::node::law_descendants_follow_links(nodes, cleared, id);
    let ids = descendants(nodes, id)->0;
    let n = ids.index_of(below);
    assert(ids[n] == below);
    let own = unstaged_in_place(nodes, current, id, disk)->0;
    assert(own == crate::node::unstaged_all(cleared, ids));
    assert(crate::node::listed(ids, below as int));
    assert(!own[below as int].staged);
    assert(own[id as int].dirty == nodes[id as int].dirty);
    let parent = own[id as int].parent;
    crate::node::law_unstaging_upwards_only_clears(own, parent, own.len());
    let up = unstaging(own, parent, own.len()).nodes;
    assert(up[below as int].dirty == own[below as int].dirty);
    crate::node::law_cleaning_upwards_only_clears(up, parent, up.len());
}

} // verus!
