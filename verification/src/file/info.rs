//! Information about files and directories.

use vstd::prelude::*;
use vstd::string::*;

use crate::errors::ErrorKind;
use crate::errors::LoreError;
use crate::node::is_valid_node_id;
use crate::node::siblings;
use crate::node::Node;
use crate::node::NodeID;
use crate::node::NodeKind;
use crate::node::NodeTree;
use crate::node::ROOT_NODE;
use crate::repository::is_dot_directory;
use crate::repository::names_dot_directory;
use crate::types::flag;
use crate::types::flag_of;
use crate::types::Address;
use crate::types::ContentHash;
use crate::types::Context;

verus! {

/// Failure of a file info command.
#[derive(Debug)]
pub struct InfoError {
    pub kind: ErrorKind,
    pub detail: String,
}

impl InfoError {
    /// The code reported for each category.
    pub open spec fn spec_translated(kind: ErrorKind) -> LoreError {
        match kind {
            ErrorKind::InvalidArguments | ErrorKind::InvalidPath => LoreError::InvalidArguments,
            ErrorKind::RevisionNotFound | ErrorKind::NotFound => LoreError::NotFound,
            ErrorKind::FileNotFound => LoreError::FileNotFound,
            _ => LoreError::Internal,
        }
    }

    /// The code reported to callers of the engine.
    pub fn translated(&self) -> (code: LoreError)
        ensures
            code == InfoError::spec_translated(self.kind),
    {
        match self.kind {
            ErrorKind::InvalidArguments | ErrorKind::InvalidPath => LoreError::InvalidArguments,
            ErrorKind::RevisionNotFound | ErrorKind::NotFound => LoreError::NotFound,
            ErrorKind::FileNotFound => LoreError::FileNotFound,
            _ => LoreError::Internal,
        }
    }

    /// The text of the failure.
    pub fn inner(&self) -> (text: String)
        ensures
            text@ == self.detail@,
    {
        self.detail.clone()
    }

    fn of(kind: ErrorKind, detail: &str) -> (error: InfoError)
        ensures
            error.kind == kind,
            error.detail@ == detail@,
    {
        InfoError { kind, detail: detail.to_owned() }
    }
}

/// Data for the event reporting information about a single file or directory.
#[derive(Debug)]
pub struct LoreFileInfoEventData {
    /// Path of the file or directory.
    pub path: String,
    /// Context identifying the file or directory.
    pub context: Context,
    /// Content hash of the file or directory.
    pub hash: ContentHash,
    /// Set when the entry is a file.
    pub is_file: u8,
    /// Set when the entry is a directory.
    pub is_dir: u8,
    /// Set when the entry has been modified.
    pub flag_modified: u8,
    /// Set when the entry has been deleted.
    pub flag_deleted: u8,
    /// Set when the entry has been added.
    pub flag_added: u8,
    /// Set when the entry is in conflict.
    pub flag_conflict: u8,
    /// File mode bits.
    pub mode: u16,
    /// Size of the entry in the repository, in bytes.
    pub size: u64,
    /// Size of the entry on the local filesystem, in bytes.
    pub local_size: u64,
    /// Content hash of the entry on the local filesystem.
    pub local_hash: ContentHash,
    /// Size of the entry after filters are applied, in bytes.
    pub filter_size: u64,
}

/// Options of a file info command.
#[derive(Debug)]
pub struct InfoOptions {
    /// Optional revision specifier
    pub revision: Option<String>,
    /// Calculate the filtered local filesystem hash and size
    pub local: bool,
    /// Calculate the filtered repository size
    pub filtered: bool,
}

/// The revision that information is about: the named one, which must be found,
/// or the current one.
pub fn info(options: &InfoOptions, resolved: Option<ContentHash>, current: ContentHash) -> (result:
    Result<ContentHash, InfoError>)
    ensures
        result is Err <==> options.revision is Some && resolved is None,
        result matches Ok(revision) ==> revision == if options.revision is Some {
            resolved->0
        } else {
            current
        },
        result matches Err(e) ==> e.kind == ErrorKind::RevisionNotFound && e.detail@
            == options.revision->0@,
{
    match &options.revision {
        None => Ok(current),
        Some(name) => match resolved {
            Some(revision) => Ok(revision),
            None => Err(InfoError::of(ErrorKind::RevisionNotFound, name.as_str())),
        },
    }
}

// ---------------------------------------------------------------------------
// Sizes
// ---------------------------------------------------------------------------

/// What a path is on the local filesystem.
#[derive(Clone, Copy, Debug, PartialEq, Eq, Structural)]
pub enum LocalEntry {
    File(u64),
    Directory,
    Other,
    Missing,
}

/// How much an entry of the local filesystem counts. `None` asks for the sum of
/// what it holds. Nothing is counted of repository state, of what the filter
/// excludes and of what is missing.
pub open spec fn local_size_of(path: Seq<char>, entry: LocalEntry, excluded: bool) -> Option<u64> {
    if is_dot_directory(path) || excluded {
        Some(0)
    } else {
        match entry {
            LocalEntry::File(size) => Some(size),
            LocalEntry::Directory => None,
            _ => Some(0),
        }
    }
}

/// How much an entry of the local filesystem counts. `None` asks for the sum of
/// what it holds.
pub fn calculate_local_size(path: &str, entry: LocalEntry, excluded: bool) -> (size: Option<u64>)
    ensures
        size == local_size_of(path@, entry, excluded),
{
    if names_dot_directory(path) || excluded {
        return Some(0);
    }
    match entry {
        LocalEntry::File(size) => Some(size),
        LocalEntry::Directory => None,
        _ => Some(0),
    }
}

/// The sum of sizes.
pub open spec fn sum(sizes: Seq<u64>) -> nat
    decreases sizes.len(),
{
    if sizes.len() == 0 {
        0
    } else {
        sum(sizes.drop_last()) + sizes.last() as nat
    }
}

proof fn lemma_sum_of_part(sizes: Seq<u64>, count: int)
    requires
        0 <= count <= sizes.len(),
    ensures
        sum(sizes.take(count)) <= sum(sizes),
    decreases sizes.len() - count,
{
    if count < sizes.len() {
        lemma_sum_of_part(sizes, count + 1);
        assert(sizes.take(count + 1).drop_last() =~= sizes.take(count));
    } else {
        assert(sizes.take(count) =~= sizes);
    }
}

/// Adds up the sizes of what a directory holds.
pub fn add_sizes(sizes: &Vec<u64>) -> (total: u64)
    requires
        sum(sizes@) <= u64::MAX,
    ensures
        total == sum(sizes@),
{
    let mut total: u64 = 0;
    let mut i: usize = 0;
    while i < sizes.len()
        invariant
            i <= sizes@.len(),
            sum(sizes@) <= u64::MAX,
            total == sum(sizes@.take(i as int)),
        decreases sizes@.len() - i,
    {
        proof {
            lemma_sum_of_part(sizes@, i + 1);
            assert(sizes@.take(i + 1).drop_last() =~= sizes@.take(i as int));
        }
        total = total + sizes[i];
        i = i + 1;
    }
    assert(sizes@.take(i as int) =~= sizes@);
    total
}

/// The order in which entries are added up does not matter.
pub proof fn law_sizes_add_in_any_order(a: Seq<u64>, b: Seq<u64>)
    requires
        a.to_multiset() == b.to_multiset(),
    ensures
        sum(a) == sum(b),
    decreases a.len(),
{
    broadcast use vstd::seq_lib::group_to_multiset_ensures;

    assert(a.len() == a.to_multiset().len());
    assert(b.len() == b.to_multiset().len());
    if a.len() > 0 {
        let x = a.last();
        assert(a.contains(x));
        assert(b.to_multiset().count(x) > 0);
        let i = b.index_of(x);
        assert(b.contains(x));
        assert(b[i] == x);
        let rest = b.remove(i);
        assert(a.drop_last() =~= a.remove(a.len() - 1));
        assert(a.drop_last().to_multiset() =~= a.to_multiset().remove(x));
        assert(rest.to_multiset() =~= b.to_multiset().remove(x));
        law_sizes_add_in_any_order(a.drop_last(), rest);
        lemma_sum_of_removed(b, i);
    }
}

proof fn lemma_sum_of_removed(sizes: Seq<u64>, i: int)
    requires
        0 <= i < sizes.len(),
    ensures
        sum(sizes) == sum(sizes.remove(i)) + sizes[i],
    decreases sizes.len(),
{
    if i == sizes.len() - 1 {
        assert(sizes.remove(i) =~= sizes.drop_last());
    } else {
        lemma_sum_of_removed(sizes.drop_last(), i);
        assert(sizes.remove(i).drop_last() =~= sizes.drop_last().remove(i));
        assert(sizes.remove(i).last() == sizes.last());
    }
}

/// What is wrong with a chain of siblings, if anything: a node that is not there,
/// or one that names another parent or closes a circle.
pub open spec fn chain_fault(nodes: Seq<Node>, parent: NodeID, from: NodeID, limit: nat) -> Option<
    ErrorKind,
>
    decreases limit,
{
    if !is_valid_node_id(from) {
        None
    } else if from >= nodes.len() {
        Some(ErrorKind::Internal)
    } else if limit == 0 || nodes[from as int].parent != parent {
        Some(ErrorKind::InvalidNodeHierarchy)
    } else {
        chain_fault(nodes, parent, nodes[from as int].sibling, (limit - 1) as nat)
    }
}

proof fn lemma_faultless_chain(nodes: Seq<Node>, parent: NodeID, from: NodeID, limit: nat)
    ensures
        chain_fault(nodes, parent, from, limit) is None <==> siblings(
            nodes,
            parent,
            from,
            limit,
        ) is Some,
    decreases limit,
{
    if is_valid_node_id(from) && from < nodes.len() && limit > 0 && nodes[from as int].parent
        == parent {
        lemma_faultless_chain(nodes, parent, nodes[from as int].sibling, (limit - 1) as nat);
    }
}

/// What counting sizes came to.
pub struct Counted {
    pub total: nat,
    /// The first thing that was wrong with the nodes.
    pub fault: Option<ErrorKind>,
}

/// The size of a node without what is excluded, down to a number of levels. What is
/// no file has the size of its children; a link is walked like a directory.
pub open spec fn filtered_size(nodes: Seq<Node>, excluded: Seq<bool>, id: NodeID, levels: nat) -> Counted
    decreases levels, 0nat, 0nat,
{
    let node = nodes[id as int];
    if excluded[id as int] {
        Counted { total: 0, fault: None }
    } else {
        match node.kind {
            NodeKind::File => Counted { total: node.size as nat, fault: None },
            _ => {
                let fault = chain_fault(nodes, id, node.child, nodes.len());
                if fault is Some {
                    Counted { total: 0, fault }
                } else if levels == 0 {
                    Counted { total: 0, fault: Some(ErrorKind::InvalidNodeHierarchy) }
                } else {
                    filtered_chain(nodes, excluded, id, node.child, nodes.len(), (levels - 1) as nat)
                }
            },
        }
    }
}

/// The sizes of a chain of siblings without what is excluded.
pub open spec fn filtered_chain(
    nodes: Seq<Node>,
    excluded: Seq<bool>,
    parent: NodeID,
    from: NodeID,
    limit: nat,
    levels: nat,
) -> Counted
    decreases levels, 1nat, limit,
{
    if !is_valid_node_id(from) || limit == 0 {
        Counted { total: 0, fault: None }
    } else {
        let first = filtered_size(nodes, excluded, from, levels);
        let rest = filtered_chain(
            nodes,
            excluded,
            parent,
            nodes[from as int].sibling,
            (limit - 1) as nat,
            levels,
        );
        Counted {
            total: first.total + rest.total,
            fault: if first.fault is Some {
                first.fault
            } else {
                rest.fault
            },
        }
    }
}

/// The text of a fault.
pub open spec fn fault_text(kind: ErrorKind) -> Seq<char> {
    if kind == ErrorKind::Internal {
        "Failed to calculate filtered size, encountered an invalid node"@
    } else {
        "Failed to calculate filtered size, invalid node hierarchy"@
    }
}

/// The failure for a fault.
pub open spec fn is_fault(error: InfoError, fault: Option<ErrorKind>) -> bool {
    fault == Some(error.kind) && error.detail@ == fault_text(error.kind)
}

fn invalid_node() -> (error: InfoError)
    ensures
        is_fault(error, Some(ErrorKind::Internal)),
{
    InfoError::of(
        ErrorKind::Internal,
        "Failed to calculate filtered size, encountered an invalid node",
    )
}

fn invalid_hierarchy() -> (error: InfoError)
    ensures
        is_fault(error, Some(ErrorKind::InvalidNodeHierarchy)),
{
    InfoError::of(
        ErrorKind::InvalidNodeHierarchy,
        "Failed to calculate filtered size, invalid node hierarchy",
    )
}

fn check_chain(tree: &NodeTree, parent: NodeID, first: NodeID) -> (result: Result<(), InfoError>)
    ensures
        ({
            let fault = chain_fault(tree@, parent, first, tree@.len());
            &&& result is Ok <==> fault is None
            &&& result matches Err(e) ==> is_fault(e, fault)
        }),
{
    let mut from: NodeID = first;
    let mut limit: usize = tree.nodes.len();
    while is_valid_node_id(from)
        invariant
            chain_fault(tree@, parent, first, tree@.len()) == chain_fault(
                tree@,
                parent,
                from,
                limit as nat,
            ),
        decreases limit,
    {
        if from as usize >= tree.nodes.len() {
            return Err(invalid_node());
        }
        if limit == 0 || tree.nodes[from as usize].parent != parent {
            return Err(invalid_hierarchy());
        }
        from = tree.nodes[from as usize].sibling;
        limit = limit - 1;
    }
    Ok(())
}

/// Tells whether the sizes of the files at and below a node, without what the filter
/// excludes, add up to a number that a size can hold.
pub fn has_filtered_size(tree: &NodeTree, excluded: &Vec<bool>, id: NodeID) -> (fits: bool)
    requires
        id < tree@.len(),
        excluded@.len() == tree@.len(),
    ensures
        fits == (size_below(tree@, excluded@, id).total <= u64::MAX),
{
    calculate_filtered_size_recurse(tree, excluded, id, tree.nodes.len()).0.is_some()
}

/// Adds up the sizes of the files at and below a node, without what the filter
/// excludes. `excluded` tells of each node whether the filter excludes its path.
/// No path of a sound tree is longer than the tree has nodes.
pub fn calculate_filtered_size(tree: &NodeTree, excluded: &Vec<bool>, id: NodeID) -> (result: Result<
    u64,
    InfoError,
>)
    requires
        id < tree@.len(),
        excluded@.len() == tree@.len(),
        size_below(tree@, excluded@, id).total <= u64::MAX,
    ensures
        ({
            let counted = size_below(tree@, excluded@, id);
            &&& result is Ok <==> counted.fault is None
            &&& result matches Ok(size) ==> size == counted.total
            &&& result matches Err(e) ==> is_fault(e, counted.fault)
        }),
{
    let (total, fault) = calculate_filtered_size_recurse(tree, excluded, id, tree.nodes.len());
    match fault {
        Some(error) => Err(error),
        None => Ok(
            match total {
                Some(size) => size,
                None => 0,
            },
        ),
    }
}

/// Adds a size to others, as long as a size can hold the sum.
fn add_size(total: Option<u64>, size: Option<u64>) -> (sum: Option<u64>)
    ensures
        sum == match (total, size) {
            (Some(a), Some(b)) => if a + b <= u64::MAX {
                Some((a + b) as u64)
            } else {
                None
            },
            _ => None,
        },
{
    match (total, size) {
        (Some(a), Some(b)) => a.checked_add(b),
        _ => None,
    }
}

/// A size is told where a size can hold it.
spec fn is_total(size: Option<u64>, total: nat) -> bool {
    size == if total <= u64::MAX {
        Some(total as u64)
    } else {
        None
    }
}

/// A failure is told where there is one.
spec fn tells_fault(failure: Option<InfoError>, fault: Option<ErrorKind>) -> bool {
    &&& failure is Some <==> fault is Some
    &&& failure matches Some(e) ==> is_fault(e, fault)
}

/// Counts a node and everything below it: the sum of the sizes, where a size can
/// hold it, and the first failure.
fn calculate_filtered_size_recurse(tree: &NodeTree, excluded: &Vec<bool>, id: NodeID, levels: usize) -> (counted: (
    Option<u64>,
    Option<InfoError>,
))
    requires
        id < tree@.len(),
        excluded@.len() == tree@.len(),
    ensures
        ({
            let own = filtered_size(tree@, excluded@, id, levels as nat);
            is_total(counted.0, own.total) && tells_fault(counted.1, own.fault)
        }),
    decreases levels,
{
    let node = tree.nodes[id as usize];
    if excluded[id as usize] {
        return (Some(0), None);
    }
    if node.is_file() {
        return (Some(node.size), None);
    }
    match check_chain(tree, id, node.child) {
        Ok(()) => {},
        Err(error) => {
            return (Some(0), Some(error));
        },
    }
    if levels == 0 {
        return (Some(0), Some(invalid_hierarchy()));
    }
    let ghost whole = filtered_size(tree@, excluded@, id, levels as nat);
    let ghost mut sum: nat = 0;
    let mut from: NodeID = node.child;
    let mut limit: usize = tree.nodes.len();
    let mut total: Option<u64> = Some(0);
    let mut failure: Option<InfoError> = None;
    while is_valid_node_id(from)
        invariant
            levels > 0,
            excluded@.len() == tree@.len(),
            chain_fault(tree@, id, from, limit as nat) is None,
            is_total(total, sum),
            ({
                let rest = filtered_chain(
                    tree@,
                    excluded@,
                    id,
                    from,
                    limit as nat,
                    (levels - 1) as nat,
                );
                &&& whole.total == sum + rest.total
                &&& if failure is Some {
                    tells_fault(failure, whole.fault)
                } else {
                    whole.fault == rest.fault
                }
            }),
        decreases limit,
    {
        let (size, next) = calculate_filtered_size_recurse(tree, excluded, from, levels - 1);
        total = add_size(total, size);
        proof {
            sum = sum + filtered_size(tree@, excluded@, from, (levels - 1) as nat).total;
        }
        failure = match failure {
            Some(error) => Some(error),
            None => next,
        };
        from = tree.nodes[from as usize].sibling;
        limit = limit - 1;
    }
    (total, failure)
}

/// A filter that excludes more leaves no larger a size.
pub proof fn law_filtering_more_counts_less(
    nodes: Seq<Node>,
    fewer: Seq<bool>,
    more: Seq<bool>,
    id: NodeID,
    levels: nat,
)
    requires
        fewer.len() == nodes.len(),
        more.len() == nodes.len(),
        id < nodes.len(),
        forall|i: int| 0 <= i < fewer.len() && #[trigger] fewer[i] ==> more[i],
    ensures
        filtered_size(nodes, more, id, levels).total <= filtered_size(
            nodes,
            fewer,
            id,
            levels,
        ).total,
    decreases levels, 0nat, 0nat,
{
    let node = nodes[id as int];
    if !more[id as int] && node.kind != NodeKind::File && levels > 0 && chain_fault(
        nodes,
        id,
        node.child,
        nodes.len(),
    ) is None {
        assert(!fewer[id as int]);
        lemma_chain_counts_less(
            nodes,
            fewer,
            more,
            id,
            node.child,
            nodes.len(),
            (levels - 1) as nat,
        );
    } else {
        assert(fewer[id as int] ==> more[id as int]);
    }
}

proof fn lemma_chain_counts_less(
    nodes: Seq<Node>,
    fewer: Seq<bool>,
    more: Seq<bool>,
    parent: NodeID,
    from: NodeID,
    limit: nat,
    levels: nat,
)
    requires
        fewer.len() == nodes.len(),
        more.len() == nodes.len(),
        chain_fault(nodes, parent, from, limit) is None,
        forall|i: int| 0 <= i < fewer.len() && #[trigger] fewer[i] ==> more[i],
    ensures
        filtered_chain(nodes, more, parent, from, limit, levels).total <= filtered_chain(
            nodes,
            fewer,
            parent,
            from,
            limit,
            levels,
        ).total,
    decreases levels, 1nat, limit,
{
    if is_valid_node_id(from) && limit > 0 {
        law_filtering_more_counts_less(nodes, fewer, more, from, levels);
        lemma_chain_counts_less(
            nodes,
            fewer,
            more,
            parent,
            nodes[from as int].sibling,
            (limit - 1) as nat,
            levels,
        );
    }
}

/// The size of a node without what is excluded.
pub open spec fn size_below(nodes: Seq<Node>, excluded: Seq<bool>, id: NodeID) -> Counted {
    filtered_size(nodes, excluded, id, nodes.len())
}

proof fn lemma_more_levels_size_alike(
    nodes: Seq<Node>,
    excluded: Seq<bool>,
    id: NodeID,
    levels: nat,
    more: nat,
)
    requires
        levels <= more,
        filtered_size(nodes, excluded, id, levels).fault is None,
    ensures
        filtered_size(nodes, excluded, id, more) == filtered_size(nodes, excluded, id, levels),
    decreases levels, 0nat, 0nat,
{
    let node = nodes[id as int];
    if !excluded[id as int] && node.kind != NodeKind::File {
        lemma_more_levels_chain_alike(
            nodes,
            excluded,
            id,
            node.child,
            nodes.len(),
            (levels - 1) as nat,
            (more - 1) as nat,
        );
    }
}

proof fn lemma_more_levels_chain_alike(
    nodes: Seq<Node>,
    excluded: Seq<bool>,
    parent: NodeID,
    from: NodeID,
    limit: nat,
    levels: nat,
    more: nat,
)
    requires
        levels <= more,
        filtered_chain(nodes, excluded, parent, from, limit, levels).fault is None,
    ensures
        filtered_chain(nodes, excluded, parent, from, limit, more) == filtered_chain(
            nodes,
            excluded,
            parent,
            from,
            limit,
            levels,
        ),
    decreases levels, 1nat, limit,
{
    if is_valid_node_id(from) && limit > 0 {
        lemma_more_levels_size_alike(nodes, excluded, from, levels, more);
        lemma_more_levels_chain_alike(
            nodes,
            excluded,
            parent,
            nodes[from as int].sibling,
            (limit - 1) as nat,
            levels,
            more,
        );
    }
}

/// Sizes are added up as deep as the tree has nodes: whatever a count over no more
/// levels than that comes to without a fault, the size is.
pub proof fn law_size_goes_to_the_bottom(
    nodes: Seq<Node>,
    excluded: Seq<bool>,
    id: NodeID,
    levels: nat,
)
    requires
        levels <= nodes.len(),
        filtered_size(nodes, excluded, id, levels).fault is None,
    ensures
        size_below(nodes, excluded, id) == filtered_size(nodes, excluded, id, levels),
{
    lemma_more_levels_size_alike(nodes, excluded, id, levels, nodes.len());
}

/// The sizes of nodes together.
pub open spec fn total_of(
    nodes: Seq<Node>,
    excluded: Seq<bool>,
    ids: Seq<NodeID>,
    levels: nat,
) -> nat
    decreases ids.len(),
{
    if ids.len() == 0 {
        0
    } else {
        filtered_size(nodes, excluded, ids[0], levels).total + total_of(
            nodes,
            excluded,
            ids.drop_first(),
            levels,
        )
    }
}

proof fn lemma_chain_total(
    nodes: Seq<Node>,
    excluded: Seq<bool>,
    parent: NodeID,
    from: NodeID,
    limit: nat,
    levels: nat,
)
    requires
        siblings(nodes, parent, from, limit) is Some,
    ensures
        filtered_chain(nodes, excluded, parent, from, limit, levels).total == total_of(
            nodes,
            excluded,
            siblings(nodes, parent, from, limit)->0,
            levels,
        ),
    decreases limit,
{
    if is_valid_node_id(from) {
        let sibling = nodes[from as int].sibling;
        lemma_chain_total(nodes, excluded, parent, sibling, (limit - 1) as nat, levels);
        let rest = siblings(nodes, parent, sibling, (limit - 1) as nat)->0;
        assert((seq![from] + rest).drop_first() =~= rest);
    }
}

/// A file has its own size, what is no file has the size of its children together, and
/// what is excluded has none.
pub proof fn law_size_is_that_of_the_files(
    nodes: Seq<Node>,
    excluded: Seq<bool>,
    id: NodeID,
    levels: nat,
)
    requires
        id < nodes.len(),
    ensures
        ({
            let node = nodes[id as int];
            let counted = filtered_size(nodes, excluded, id, levels);
            &&& excluded[id as int] ==> counted.total == 0 && counted.fault is None
            &&& !excluded[id as int] && node.kind == NodeKind::File ==> counted.total == node.size
                && counted.fault is None
            &&& !excluded[id as int] && node.kind != NodeKind::File && counted.fault is None ==> {
                &&& levels > 0
                &&& siblings(nodes, id, node.child, nodes.len()) is Some
                &&& counted.total == total_of(
                    nodes,
                    excluded,
                    siblings(nodes, id, node.child, nodes.len())->0,
                    (levels - 1) as nat,
                )
            }
        }),
{
    let child = nodes[id as int].child;
    lemma_faultless_chain(nodes, id, child, nodes.len());
    if levels > 0 && siblings(nodes, id, child, nodes.len()) is Some {
        lemma_chain_total(nodes, excluded, id, child, nodes.len(), (levels - 1) as nat);
    }
}

/// A chain is counted where its links are sound, and only there.
pub proof fn law_sound_links_are_counted(nodes: Seq<Node>, id: NodeID)
    requires
        id < nodes.len(),
    ensures
        chain_fault(nodes, id, nodes[id as int].child, nodes.len()) is None <==> siblings(
            nodes,
            id,
            nodes[id as int].child,
            nodes.len(),
        ) is Some,
{
    lemma_faultless_chain(nodes, id, nodes[id as int].child, nodes.len());
}

// ---------------------------------------------------------------------------
// The event
// ---------------------------------------------------------------------------

/// A node that information is about.
#[derive(Clone, Copy, Debug)]
pub struct InfoNode {
    pub id: NodeID,
    pub kind: NodeKind,
    pub size: u64,
    pub mode: u16,
    pub address: Address,
}

/// A file of the local filesystem.
#[derive(Clone, Copy, Debug)]
pub struct LocalFile {
    pub size: u64,
    pub hash: ContentHash,
}

/// What was calculated of the local filesystem and of the filter.
#[derive(Clone, Copy, Debug)]
pub struct LocalFiltered {
    pub local_size: u64,
    pub local_hash: ContentHash,
    pub filtered_size: u64,
}

impl LocalFiltered {
    /// Nothing was calculated.
    pub open spec fn is_empty(&self) -> bool {
        self.local_size == 0 && self.local_hash.is_zero() && self.filtered_size == 0
    }
}

impl Default for LocalFiltered {
    fn default() -> (nothing: LocalFiltered)
        ensures
            nothing.is_empty(),
    {
        LocalFiltered { local_size: 0, local_hash: ContentHash::default(), filtered_size: 0 }
    }
}

/// What is known of a node locally and after filters. Only a file that is not
/// empty has a local hash; `file` is the local file where there is one. The sizes
/// of a directory are those that were asked for. A link counts nothing.
pub fn calculate_local_filtered_size_hash(
    node: &InfoNode,
    excluded: bool,
    file: Option<LocalFile>,
    local: Option<u64>,
    filtered: Option<u64>,
) -> (known: LocalFiltered)
    ensures
        excluded || node.kind == NodeKind::Link ==> known.is_empty(),
        !excluded && node.kind == NodeKind::File ==> {
            &&& known.filtered_size == node.size
            &&& known.local_size == if file is Some {
                file->0.size
            } else {
                0
            }
            &&& if file is Some && file->0.size > 0 {
                known.local_hash == file->0.hash
            } else {
                known.local_hash.is_zero()
            }
        },
        !excluded && node.kind == NodeKind::Directory ==> {
            &&& known.local_size == if local is Some {
                local->0
            } else {
                0
            }
            &&& known.local_hash.is_zero()
            &&& known.filtered_size == if filtered is Some {
                filtered->0
            } else {
                0
            }
        },
{
    if excluded {
        return LocalFiltered::default();
    }
    match node.kind {
        NodeKind::File => {
            let mut known = LocalFiltered::default();
            known.filtered_size = node.size;
            if let Some(found) = file {
                known.local_size = found.size;
                if found.size > 0 {
                    known.local_hash = found.hash;
                }
            }
            known
        },
        NodeKind::Directory => {
            let mut known = LocalFiltered::default();
            if let Some(size) = local {
                known.local_size = size;
            }
            if let Some(size) = filtered {
                known.filtered_size = size;
            }
            known
        },
        NodeKind::Link => LocalFiltered::default(),
    }
}

/// The path of a node on the local filesystem, where its size is not known yet.
#[derive(Clone, Copy, Debug)]
pub enum DiskEntry {
    /// A file, with its hash where its size is that of the node.
    File(LocalFile),
    Other,
    Missing,
}

/// What comparing a node with the local filesystem found.
#[derive(Clone, Copy, Debug)]
pub struct Comparison {
    pub local_size: u64,
    pub local_hash: ContentHash,
    pub modified: bool,
    pub deleted: bool,
}

/// Compares a node with the local filesystem. A local size that is not known is
/// taken from the path: a file with another size is modified, and a path that is
/// missing is deleted. Where the local hash is known it alone tells whether the
/// file is modified.
pub open spec fn compared(node: InfoNode, known: LocalFiltered, disk: DiskEntry) -> Comparison {
    let looked_up = if known.local_size != 0 {
        Comparison {
            local_size: known.local_size,
            local_hash: known.local_hash,
            modified: false,
            deleted: false,
        }
    } else {
        match disk {
            DiskEntry::File(file) => Comparison {
                local_size: file.size,
                local_hash: if file.size == node.size {
                    file.hash
                } else {
                    known.local_hash
                },
                modified: file.size != node.size,
                deleted: false,
            },
            DiskEntry::Other => Comparison {
                local_size: 0,
                local_hash: known.local_hash,
                modified: false,
                deleted: false,
            },
            DiskEntry::Missing => Comparison {
                local_size: 0,
                local_hash: known.local_hash,
                modified: false,
                deleted: true,
            },
        }
    };
    if looked_up.local_hash.is_zero() {
        looked_up
    } else {
        Comparison { modified: looked_up.local_hash != node.address.hash, ..looked_up }
    }
}

/// Compares a node with the local filesystem.
fn compare_node(node: &InfoNode, known: LocalFiltered, disk: DiskEntry) -> (found: Comparison)
    ensures
        found == compared(*node, known, disk),
{
    let mut found = Comparison {
        local_size: known.local_size,
        local_hash: known.local_hash,
        modified: false,
        deleted: false,
    };
    if known.local_size == 0 {
        match disk {
            DiskEntry::File(file) => {
                found.local_size = file.size;
                if file.size != node.size {
                    found.modified = true;
                } else {
                    found.local_hash = file.hash;
                }
            },
            DiskEntry::Other => {},
            DiskEntry::Missing => {
                found.deleted = true;
            },
        }
    }
    if !found.local_hash.is_zero() {
        found.modified = !(found.local_hash == node.address.hash);
    }
    found
}

/// Information about a node. Only a file has a context, and the size of the root
/// is that of the whole tree.
pub fn info_path(
    path: String,
    node: &InfoNode,
    tree_size: u64,
    known: LocalFiltered,
    disk: DiskEntry,
) -> (event: LoreFileInfoEventData)
    ensures
        event.path@ == path@,
        if node.kind == NodeKind::File {
            event.context == node.address.context
        } else {
            event.context.is_zero()
        },
        event.hash == node.address.hash,
        event.is_file == flag_of(node.kind == NodeKind::File),
        event.is_dir == flag_of(node.kind != NodeKind::File),
        ({
            let found = compared(*node, known, disk);
            &&& event.flag_modified == flag_of(found.modified)
            &&& event.flag_deleted == flag_of(found.deleted)
            &&& event.local_size == found.local_size
            &&& event.local_hash == found.local_hash
        }),
        event.flag_added == 0,
        event.flag_conflict == 0,
        event.mode == node.mode,
        event.size == if node.id == ROOT_NODE {
            tree_size
        } else {
            node.size
        },
        event.filter_size == known.filtered_size,
{
    let is_file = node.kind == NodeKind::File;
    let context = if is_file {
        node.address.context
    } else {
        Context::default()
    };
    let found = compare_node(node, known, disk);
    LoreFileInfoEventData {
        path,
        context,
        hash: node.address.hash,
        is_file: flag(is_file),
        is_dir: flag(!is_file),
        flag_modified: flag(found.modified),
        flag_deleted: flag(found.deleted),
        flag_added: 0,
        flag_conflict: 0,
        mode: node.mode,
        size: if node.id == ROOT_NODE {
            tree_size
        } else {
            node.size
        },
        local_size: found.local_size,
        local_hash: found.local_hash,
        filter_size: known.filtered_size,
    }
}

/// The path and the node of a path that was found must be readable.
pub fn check_readable(path: &str, readable: bool) -> (result: Result<(), InfoError>)
    ensures
        result is Ok <==> readable,
        result matches Err(e) ==> e.kind == ErrorKind::FileNotFound && e.detail@ == path@,
{
    if readable {
        Ok(())
    } else {
        Err(InfoError::of(ErrorKind::FileNotFound, path))
    }
}

/// Information about a path that the revision does not have: a file or directory
/// was added, with the size that the local filesystem gives.
pub fn info_added(path: String, is_file: bool, is_dir: bool, size: u64) -> (event: Option<
    LoreFileInfoEventData,
>)
    ensures
        event is Some <==> is_file || is_dir,
        event matches Some(e) ==> {
            &&& e.path@ == path@
            &&& e.context.is_zero() && e.hash.is_zero() && e.local_hash.is_zero()
            &&& e.is_file == flag_of(is_file) && e.is_dir == flag_of(is_dir)
            &&& e.flag_added == 1
            &&& e.flag_modified == 0 && e.flag_deleted == 0 && e.flag_conflict == 0
            &&& e.mode == 0 && e.size == 0 && e.filter_size == 0
            &&& e.local_size == size
        },
{
    if !is_file && !is_dir {
        return None;
    }
    Some(
        LoreFileInfoEventData {
            path,
            context: Context::default(),
            hash: ContentHash::default(),
            is_file: flag(is_file),
            is_dir: flag(is_dir),
            flag_modified: 0,
            flag_deleted: 0,
            flag_added: 1,
            flag_conflict: 0,
            mode: 0,
            size: 0,
            local_size: size,
            local_hash: ContentHash::default(),
            filter_size: 0,
        },
    )
}

/// A file with the content of its node is neither modified nor deleted, whether
/// or not its size was calculated before.
pub proof fn law_same_content_is_unmodified(node: InfoNode, known: LocalFiltered, file: LocalFile)
    requires
        file.size == node.size,
        file.hash == node.address.hash,
        known.local_size == 0 ==> known.local_hash.is_zero(),
        known.local_size != 0 ==> known.local_hash == file.hash,
    ensures
        !compared(node, known, DiskEntry::File(file)).modified,
        !compared(node, known, DiskEntry::File(file)).deleted,
{
}

/// A file with other content than its node is modified: one of another size, and one
/// whose hash is known and another. The size that was found is the one that is told.
pub proof fn law_other_content_is_modified(node: InfoNode, known: LocalFiltered, file: LocalFile)
    ensures
        ({
            let found = compared(node, known, DiskEntry::File(file));
            &&& known.local_size == 0 && known.local_hash.is_zero() && file.size != node.size
                ==> found.modified
            &&& known.local_size == 0 && file.size == node.size && !file.hash.is_zero()
                && file.hash != node.address.hash ==> found.modified
            &&& known.local_size != 0 && !known.local_hash.is_zero() && known.local_hash
                != node.address.hash ==> found.modified
            &&& found.local_size == if known.local_size != 0 {
                known.local_size
            } else {
                file.size
            }
        }),
{
}

/// A path is deleted exactly where nothing was found of it.
pub proof fn law_missing_is_deleted(node: InfoNode, known: LocalFiltered, disk: DiskEntry)
    ensures
        compared(node, known, disk).deleted <==> known.local_size == 0 && disk is Missing,
{
}

} // verus!
