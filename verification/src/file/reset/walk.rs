//! Resetting a node together with everything below it.
//!
//! A walk stays within one repository and touches no file. It cleans the nodes
//! that it meets, and collects the files to restore, the directories to create and
//! to purge, and the links to follow.

use vstd::prelude::*;
use vstd::string::*;

use crate::errors::ErrorKind;
use crate::file::reset::cleaned;
use crate::file::reset::first_failure;
use crate::file::reset::linked_staged_revision;
use crate::file::reset::reset_walk_directory;
use crate::file::reset::reset_walk_node;
use crate::file::reset::with_directory;
use crate::file::reset::ResetError;
use crate::file::reset::ResetOptions;
use crate::file::reset::ResetStats;
use crate::file::reset::ResetWalk;
use crate::node::children;
use crate::node::cleaning;
use crate::node::dirty_children;
use crate::node::is_broken_walk;
use crate::node::is_valid_node_id;
use crate::node::law_cleaning_upwards_only_clears;
use crate::node::sound_siblings;
use crate::node::Node;
use crate::node::NodeID;
use crate::node::NodeKind;
use crate::node::NodeLink;
use crate::node::NodeTree;
use crate::path::join;
use crate::path::joined;
use crate::types::ContentHash;

verus! {

/// A file to restore.
#[derive(Debug)]
pub struct ResetItem {
    pub node: NodeID,
    pub path: String,
}

/// A link to follow: the linked directory is reset at the path of the link.
#[derive(Debug)]
pub struct ResetLinked {
    pub link: NodeLink,
    pub staged_revision: ContentHash,
    pub path: String,
}

/// What a reset has changed and collected so far.
pub struct ResetRun {
    pub staged: NodeTree,
    pub stats: ResetStats,
    pub files: Vec<ResetItem>,
    /// Directories to create.
    pub created: Vec<String>,
    /// Directories from which to purge what the revision does not have.
    pub purged: Vec<ResetItem>,
    pub linked: Vec<ResetLinked>,
}

/// A run, as contracts speak of it.
#[verifier::ext_equal]
pub struct ResetRunView {
    pub nodes: Seq<Node>,
    pub modified: bool,
    pub stats: ResetStats,
    pub files: Seq<(NodeID, Seq<char>)>,
    pub created: Seq<Seq<char>>,
    pub purged: Seq<(NodeID, Seq<char>)>,
    pub linked: Seq<(NodeLink, ContentHash, Seq<char>)>,
}

/// Items, as contracts speak of them.
pub open spec fn item_views(items: Seq<ResetItem>) -> Seq<(NodeID, Seq<char>)> {
    items.map_values(|item: ResetItem| (item.node, item.path@))
}

/// Links, as contracts speak of them.
pub open spec fn linked_views(linked: Seq<ResetLinked>) -> Seq<
    (NodeLink, ContentHash, Seq<char>),
> {
    linked.map_values(|item: ResetLinked| (item.link, item.staged_revision, item.path@))
}

impl View for ResetRun {
    type V = ResetRunView;

    open spec fn view(&self) -> ResetRunView {
        ResetRunView {
            nodes: self.staged@,
            modified: self.staged.modified,
            stats: self.stats,
            files: item_views(self.files@),
            created: crate::text::views(self.created@),
            purged: item_views(self.purged@),
            linked: linked_views(self.linked@),
        }
    }
}

/// What a walk knows of the nodes of the target revision, by node.
pub struct ResetFacts {
    pub names: Vec<String>,
    /// The filter excludes the node's path.
    pub excluded: Vec<bool>,
    /// The link that the staged state has at the node's path.
    pub staged_links: Vec<Option<NodeLink>>,
    pub force: bool,
    pub options: ResetOptions,
}

impl ResetFacts {
    /// Every node of a tree is known.
    pub open spec fn cover(&self, nodes: Seq<Node>) -> bool {
        &&& self.names@.len() == nodes.len()
        &&& self.excluded@.len() == nodes.len()
        &&& self.staged_links@.len() == nodes.len()
    }
}

/// A failure, as contracts speak of it.
pub open spec fn failure_view(failure: Option<ResetError>) -> Option<(ErrorKind, Seq<char>)> {
    match failure {
        Some(error) => Some((error.kind, error.detail@)),
        None => None,
    }
}

/// The run after a walk, and what failed first, if anything did.
#[verifier::ext_equal]
pub struct ResetOutcome {
    pub run: ResetRunView,
    pub failure: Option<(ErrorKind, Seq<char>)>,
}

/// The run after the nodes of a directory were walked.
#[verifier::ext_equal]
pub struct ResetListOutcome {
    pub run: ResetRunView,
    pub failure: Option<(ErrorKind, Seq<char>)>,
    /// A file that cannot be reset ended the walk, and is what failed.
    pub ended: bool,
}

/// The failure of a walk over links that are not sound.
pub open spec fn broken_hierarchy() -> Option<(ErrorKind, Seq<char>)> {
    Some((ErrorKind::InvalidNodeHierarchy, "Invalid node hierarchy in reset walk"@))
}

/// Walking a node and everything below it, down to a number of levels.
pub open spec fn reset_node(
    run: ResetRunView,
    target: Seq<Node>,
    facts: ResetFacts,
    id: NodeID,
    path: Seq<char>,
    levels: nat,
) -> ResetOutcome
    decreases levels, 1nat, 0nat,
{
    if !facts.force && facts.excluded@[id as int] {
        ResetOutcome { run, failure: None }
    } else {
        let after = cleaned(run.nodes, id);
        let node = target[id as int];
        let own = ResetRunView {
            nodes: after.nodes,
            modified: run.modified || after.wrote,
            ..run
        };
        let entered = ResetRunView { stats: with_directory(run.stats), ..own };
        if after.failure is Some {
            ResetOutcome { run: own, failure: after.failure }
        } else {
            match node.kind {
                NodeKind::File => ResetOutcome {
                    run: ResetRunView { files: own.files.push((id, path)), ..own },
                    failure: None,
                },
                NodeKind::Link => if facts.options.single_node {
                    ResetOutcome { run: own, failure: None }
                } else {
                    let revision = linked_staged_revision(
                        node.link,
                        facts.staged_links@[id as int],
                    );
                    ResetOutcome {
                        run: ResetRunView {
                            linked: own.linked.push((node.link, revision, path)),
                            ..entered
                        },
                        failure: None,
                    }
                },
                NodeKind::Directory => if facts.options.single_node {
                    ResetOutcome { run: own, failure: None }
                } else {
                    reset_directory_run(entered, target, facts, id, path, levels)
                },
            }
        }
    }
}

/// The run after a directory was purged, where that is asked for.
pub open spec fn purged_run(
    run: ResetRunView,
    facts: ResetFacts,
    id: NodeID,
    path: Seq<char>,
) -> ResetRunView {
    if facts.options.purge {
        ResetRunView { purged: run.purged.push((id, path)), ..run }
    } else {
        run
    }
}

/// Walking a directory. An empty directory is created. Every directory is purged,
/// if that is asked for, after all that it holds was walked without failure. What
/// ended the walk at a file comes before broken links, and these before what failed
/// below.
pub open spec fn reset_directory_run(
    run: ResetRunView,
    target: Seq<Node>,
    facts: ResetFacts,
    id: NodeID,
    path: Seq<char>,
    levels: nat,
) -> ResetOutcome
    decreases levels, 0nat, 0nat,
{
    let child = target[id as int].child;
    if !is_valid_node_id(child) {
        let made = if path.len() > 0 {
            ResetRunView { created: run.created.push(path), ..run }
        } else {
            run
        };
        ResetOutcome { run: purged_run(made, facts, id, path), failure: None }
    } else if levels == 0 {
        ResetOutcome { run, failure: broken_hierarchy() }
    } else {
        let ids = sound_siblings(target, id, child, target.len());
        let list = reset_list(run, target, facts, ids, path, (levels - 1) as nat);
        let failure = if !list.ended && children(target, id) is None {
            broken_hierarchy()
        } else {
            list.failure
        };
        ResetOutcome {
            run: if failure is None {
                purged_run(list.run, facts, id, path)
            } else {
                list.run
            },
            failure,
        }
    }
}

/// Walking the nodes of a directory, in order. A file that cannot be reset ends the
/// walk; what lies beside a directory is walked whether the directory fails or not.
pub open spec fn reset_list(
    run: ResetRunView,
    target: Seq<Node>,
    facts: ResetFacts,
    ids: Seq<NodeID>,
    path: Seq<char>,
    levels: nat,
) -> ResetListOutcome
    decreases levels, 2nat, ids.len(),
{
    if ids.len() == 0 {
        ResetListOutcome { run, failure: None, ended: false }
    } else {
        let below = joined(path, facts.names@[ids[0] as int]@);
        let first = reset_node(run, target, facts, ids[0], below, levels);
        if first.failure is Some && target[ids[0] as int].kind == NodeKind::File {
            ResetListOutcome { run: first.run, failure: first.failure, ended: true }
        } else {
            let rest = reset_list(first.run, target, facts, ids.drop_first(), path, levels);
            if first.failure is Some && !rest.ended {
                ResetListOutcome { failure: first.failure, ..rest }
            } else {
                rest
            }
        }
    }
}

/// Walks a node and everything below it. A failure does not keep what lies beside
/// a directory from being walked.
fn walk_node(
    run: &mut ResetRun,
    target: &NodeTree,
    facts: &ResetFacts,
    id: NodeID,
    path: &str,
    levels: usize,
) -> (failure: Option<ResetError>)
    requires
        facts.cover(target@),
        id < target@.len(),
    ensures
        ({
            let after = reset_node(old(run)@, target@, *facts, id, path@, levels as nat);
            &&& final(run)@ == after.run
            &&& failure_view(failure) == after.failure
        }),
    decreases levels, 1nat,
{
    let node = target.nodes[id as usize];
    let step = match reset_walk_node(
        &node,
        id,
        &mut run.staged,
        facts.staged_links[id as usize],
        facts.force,
        facts.excluded[id as usize],
        facts.options,
        &mut run.stats,
    ) {
        Ok(step) => step,
        Err(error) => {
            return Some(error);
        },
    };
    match step {
        ResetWalk::Skip => None,
        ResetWalk::File => {
            let ghost before = run.files@;
            run.files.push(ResetItem { node: id, path: path.to_owned() });
            proof {
                assert(item_views(run.files@) =~= item_views(before).push((id, path@)));
                assert(run@ =~= reset_node(
                    old(run)@,
                    target@,
                    *facts,
                    id,
                    path@,
                    levels as nat,
                ).run);
            }
            None
        },
        ResetWalk::Linked { link, staged_revision } => {
            let ghost before = run.linked@;
            run.linked.push(ResetLinked { link, staged_revision, path: path.to_owned() });
            proof {
                assert(linked_views(run.linked@) =~= linked_views(before).push(
                    (link, staged_revision, path@),
                ));
                assert(run@ =~= reset_node(
                    old(run)@,
                    target@,
                    *facts,
                    id,
                    path@,
                    levels as nat,
                ).run);
            }
            None
        },
        ResetWalk::Directory => walk_directory(run, target, facts, id, path, levels),
    }
}

/// Notes a directory that is to be purged.
fn purge_later(purged: &mut Vec<ResetItem>, id: NodeID, path: &str)
    ensures
        item_views(final(purged)@) == item_views(old(purged)@).push((id, path@)),
{
    purged.push(ResetItem { node: id, path: path.to_owned() });
    assert(item_views(purged@) =~= item_views(old(purged)@).push((id, path@)));
}

/// Walks a directory. A failure of a file ends the walk of its directory.
fn walk_directory(
    run: &mut ResetRun,
    target: &NodeTree,
    facts: &ResetFacts,
    id: NodeID,
    path: &str,
    levels: usize,
) -> (failure: Option<ResetError>)
    requires
        facts.cover(target@),
        id < target@.len(),
    ensures
        ({
            let after = reset_directory_run(old(run)@, target@, *facts, id, path@, levels as nat);
            &&& final(run)@ == after.run
            &&& failure_view(failure) == after.failure
        }),
    decreases levels, 0nat,
{
    let walk = reset_walk_directory(target, id, path, facts.options);
    if !is_valid_node_id(target.nodes[id as usize].child) {
        if walk.create {
            let ghost before = run.created@;
            run.created.push(path.to_owned());
            assert(crate::text::views(run.created@) =~= crate::text::views(before).push(path@));
        }
        if walk.purge {
            purge_later(&mut run.purged, id, path);
        }
        return None;
    }
    if levels == 0 {
        return Some(
            ResetError {
                kind: ErrorKind::InvalidNodeHierarchy,
                detail: "Invalid node hierarchy in reset walk".to_owned(),
            },
        );
    }
    assert forall|i: int| 0 <= i < walk.children@.len() implies (#[trigger] walk.children@[i])
        < target@.len() by {
        lemma_sound_siblings_in_tree(target@, id, target@[id as int].child, target@.len());
    }
    match walk_list(run, target, facts, &walk.children, path, levels - 1, walk.failure) {
        Some(error) => Some(error),
        None => {
            if walk.purge {
                purge_later(&mut run.purged, id, path);
            }
            None
        },
    }
}

proof fn lemma_sound_siblings_in_tree(nodes: Seq<Node>, parent: NodeID, from: NodeID, limit: nat)
    ensures
        forall|i: int|
            0 <= i < sound_siblings(nodes, parent, from, limit).len() ==> (
            #[trigger] sound_siblings(nodes, parent, from, limit)[i]) < nodes.len(),
    decreases limit,
{
    if is_valid_node_id(from) && limit > 0 && from < nodes.len() && nodes[from as int].parent
        == parent {
        let next = nodes[from as int].sibling;
        let rest = sound_siblings(nodes, parent, next, (limit - 1) as nat);
        lemma_sound_siblings_in_tree(nodes, parent, next, (limit - 1) as nat);
        let all = sound_siblings(nodes, parent, from, limit);
        assert(all == seq![from] + rest);
        assert forall|i: int| 0 <= i < all.len() implies (#[trigger] all[i]) < nodes.len() by {
            if i > 0 {
                assert(all[i] == rest[i - 1]);
            }
        }
    }
}

/// Walks the nodes of a directory, up to where its links are broken. A file that
/// cannot be reset ends the walk and is what failed; otherwise broken links come
/// before what failed below.
fn walk_list(
    run: &mut ResetRun,
    target: &NodeTree,
    facts: &ResetFacts,
    ids: &Vec<NodeID>,
    path: &str,
    levels: usize,
    broken: Option<ResetError>,
) -> (failure: Option<ResetError>)
    requires
        facts.cover(target@),
        forall|i: int| 0 <= i < ids@.len() ==> (#[trigger] ids@[i]) < target@.len(),
        broken matches Some(e) ==> e.kind == ErrorKind::InvalidNodeHierarchy && e.detail@
            == "Invalid node hierarchy in reset walk"@,
    ensures
        ({
            let after = reset_list(old(run)@, target@, *facts, ids@, path@, levels as nat);
            &&& final(run)@ == after.run
            &&& failure_view(failure) == if !after.ended && broken is Some {
                broken_hierarchy()
            } else {
                after.failure
            }
        }),
    decreases levels, 2nat,
{
    let mut failure: Option<ResetError> = None;
    let mut i: usize = 0;
    assert(ids@.skip(0) =~= ids@);
    while i < ids.len()
        invariant
            i <= ids@.len(),
            facts.cover(target@),
            forall|j: int| 0 <= j < ids@.len() ==> (#[trigger] ids@[j]) < target@.len(),
            ({
                let whole = reset_list(
                    old(run)@,
                    target@,
                    *facts,
                    ids@,
                    path@,
                    levels as nat,
                );
                let rest = reset_list(
                    run@,
                    target@,
                    *facts,
                    ids@.skip(i as int),
                    path@,
                    levels as nat,
                );
                &&& whole.run == rest.run
                &&& whole.ended == rest.ended
                &&& whole.failure == if failure is Some && !rest.ended {
                    failure_view(failure)
                } else {
                    rest.failure
                }
            }),
        decreases ids@.len() - i,
    {
        let id = ids[i];
        assert(ids@.skip(i as int)[0] == id);
        assert(ids@.skip(i as int).drop_first() =~= ids@.skip(i + 1));
        let below = join(path, facts.names[id as usize].as_str());
        let next = walk_node(run, target, facts, id, below.as_str(), levels);
        if next.is_some() && target.nodes[id as usize].is_file() {
            return next;
        }
        failure = first_failure(failure, next);
        i = i + 1;
    }
    assert(ids@.skip(i as int).len() == 0);
    first_failure(broken, failure)
}

/// Resetting a node and everything below it.
pub open spec fn subtree_reset(
    run: ResetRunView,
    target: Seq<Node>,
    facts: ResetFacts,
    id: NodeID,
    path: Seq<char>,
) -> ResetOutcome {
    reset_node(run, target, facts, id, path, target.len())
}

/// Resetting everything below a directory.
pub open spec fn tree_reset(
    run: ResetRunView,
    target: Seq<Node>,
    facts: ResetFacts,
    directory: NodeID,
    path: Seq<char>,
) -> ResetOutcome {
    reset_directory_run(run, target, facts, directory, path, target.len())
}

/// Walks a node and everything below it. No path of a sound tree is longer than
/// the tree has nodes.
pub fn reset_subtree(
    run: &mut ResetRun,
    target: &NodeTree,
    facts: &ResetFacts,
    id: NodeID,
    path: &str,
) -> (failure: Option<ResetError>)
    requires
        facts.cover(target@),
        id < target@.len(),
    ensures
        ({
            let after = subtree_reset(old(run)@, target@, *facts, id, path@);
            &&& final(run)@ == after.run
            &&& failure_view(failure) == after.failure
        }),
{
    walk_node(run, target, facts, id, path, target.nodes.len())
}

/// Walks everything below a directory, as the whole repository is reset from its
/// root and a linked repository from the node that the link leads to.
pub fn reset_tree(
    run: &mut ResetRun,
    target: &NodeTree,
    facts: &ResetFacts,
    directory: NodeID,
    path: &str,
) -> (failure: Option<ResetError>)
    requires
        facts.cover(target@),
        directory < target@.len(),
    ensures
        ({
            let after = tree_reset(old(run)@, target@, *facts, directory, path@);
            &&& final(run)@ == after.run
            &&& failure_view(failure) == after.failure
        }),
{
    walk_directory(run, target, facts, directory, path, target.nodes.len())
}

// ---------------------------------------------------------------------------
// What a walk keeps
// ---------------------------------------------------------------------------

/// No staged flag of a tree differs, and no node is dirty that was not dirty
/// before.
pub open spec fn only_cleans(before: Seq<Node>, after: Seq<Node>) -> bool {
    &&& after.len() == before.len()
    &&& forall|i: int|
        0 <= i < before.len() ==> {
            &&& (#[trigger] after[i]).staged == before[i].staged
            &&& after[i].dirty ==> before[i].dirty
        }
}

proof fn lemma_cleaned_only_cleans(nodes: Seq<Node>, id: NodeID)
    ensures
        only_cleans(nodes, cleaned(nodes, id).nodes),
        id < nodes.len() && cleaned(nodes, id).failure is None ==> !nodes[id as int].staged
            && !cleaned(nodes, id).nodes[id as int].dirty,
{
    if id < nodes.len() && nodes[id as int].dirty {
        let own = nodes.update(id as int, nodes[id as int].without_dirty());
        law_cleaning_upwards_only_clears(own, nodes[id as int].parent, nodes.len());
    }
}

/// A reset takes nothing out of the staged revision, and makes nothing dirty,
/// whether it succeeds or not.
pub proof fn law_reset_only_cleans(
    run: ResetRunView,
    target: Seq<Node>,
    facts: ResetFacts,
    id: NodeID,
    path: Seq<char>,
    levels: nat,
)
    ensures
        only_cleans(run.nodes, reset_node(run, target, facts, id, path, levels).run.nodes),
    decreases levels, 1nat, 0nat,
{
    if facts.force || !facts.excluded@[id as int] {
        let after = cleaned(run.nodes, id);
        lemma_cleaned_only_cleans(run.nodes, id);
        let own = ResetRunView {
            nodes: after.nodes,
            modified: run.modified || after.wrote,
            ..run
        };
        let entered = ResetRunView { stats: with_directory(run.stats), ..own };
        let child = target[id as int].child;
        if target[id as int].kind == NodeKind::Directory && !facts.options.single_node
            && is_valid_node_id(child) && levels > 0 {
            lemma_list_only_cleans(
                entered,
                target,
                facts,
                sound_siblings(target, id, child, target.len()),
                path,
                (levels - 1) as nat,
            );
        }
    }
}

proof fn lemma_list_only_cleans(
    run: ResetRunView,
    target: Seq<Node>,
    facts: ResetFacts,
    ids: Seq<NodeID>,
    path: Seq<char>,
    levels: nat,
)
    ensures
        only_cleans(run.nodes, reset_list(run, target, facts, ids, path, levels).run.nodes),
    decreases levels, 2nat, ids.len(),
{
    if ids.len() > 0 {
        let below = joined(path, facts.names@[ids[0] as int]@);
        law_reset_only_cleans(run, target, facts, ids[0], below, levels);
        let after = reset_node(run, target, facts, ids[0], below, levels).run;
        lemma_list_only_cleans(after, target, facts, ids.drop_first(), path, levels);
    }
}

/// Every node of a list that a reset does not pass over is clean where the list is
/// reset without failure, and was not staged.
pub proof fn law_reset_nodes_are_clean(
    run: ResetRunView,
    target: Seq<Node>,
    facts: ResetFacts,
    ids: Seq<NodeID>,
    path: Seq<char>,
    levels: nat,
    i: int,
)
    requires
        reset_list(run, target, facts, ids, path, levels).failure is None,
        0 <= i < ids.len(),
        ids[i] < run.nodes.len(),
        facts.force || !facts.excluded@[ids[i] as int],
    ensures
        ({
            let after = reset_list(run, target, facts, ids, path, levels).run.nodes;
            !after[ids[i] as int].dirty && !run.nodes[ids[i] as int].staged
        }),
    decreases ids.len(),
{
    let id = ids[0];
    let below = joined(path, facts.names@[id as int]@);
    let first = reset_node(run, target, facts, id, below, levels);
    let rest = ids.drop_first();
    law_reset_only_cleans(run, target, facts, id, below, levels);
    lemma_list_only_cleans(first.run, target, facts, rest, path, levels);
    lemma_list_ends_with_failure(first.run, target, facts, rest, path, levels);
    if i == 0 {
        let after = cleaned(run.nodes, id);
        lemma_cleaned_only_cleans(run.nodes, id);
        let own = ResetRunView {
            nodes: after.nodes,
            modified: run.modified || after.wrote,
            ..run
        };
        let entered = ResetRunView { stats: with_directory(run.stats), ..own };
        let child = target[id as int].child;
        if target[id as int].kind == NodeKind::Directory && !facts.options.single_node
            && is_valid_node_id(child) && levels > 0 {
            lemma_list_only_cleans(
                entered,
                target,
                facts,
                sound_siblings(target, id, child, target.len()),
                below,
                (levels - 1) as nat,
            );
        }
        assert(!first.run.nodes[id as int].dirty);
    } else {
        assert(rest[i - 1] == ids[i]);
        law_reset_nodes_are_clean(first.run, target, facts, rest, path, levels, i - 1);
    }
}

proof fn lemma_list_ends_with_failure(
    run: ResetRunView,
    target: Seq<Node>,
    facts: ResetFacts,
    ids: Seq<NodeID>,
    path: Seq<char>,
    levels: nat,
)
    ensures
        ({
            let after = reset_list(run, target, facts, ids, path, levels);
            after.ended ==> after.failure is Some
        }),
    decreases ids.len(),
{
    if ids.len() > 0 {
        let below = joined(path, facts.names@[ids[0] as int]@);
        let after = reset_node(run, target, facts, ids[0], below, levels).run;
        lemma_list_ends_with_failure(after, target, facts, ids.drop_first(), path, levels);
    }
}

/// Where purging is asked for, every directory that is walked without failure is
/// purged, after all that lies below it.
pub proof fn law_walked_directories_are_purged(
    run: ResetRunView,
    target: Seq<Node>,
    facts: ResetFacts,
    id: NodeID,
    path: Seq<char>,
    levels: nat,
)
    requires
        facts.options.purge,
        reset_directory_run(run, target, facts, id, path, levels).failure is None,
    ensures
        ({
            let purged = reset_directory_run(run, target, facts, id, path, levels).run.purged;
            purged.len() > 0 && purged.last() == (id, path)
        }),
{
}

/// A run goes on from another: nothing that was collected is lost or moved, and a
/// tree that was modified stays so.
pub open spec fn goes_on(before: ResetRunView, after: ResetRunView) -> bool {
    &&& before.files.is_prefix_of(after.files)
    &&& before.created.is_prefix_of(after.created)
    &&& before.purged.is_prefix_of(after.purged)
    &&& before.linked.is_prefix_of(after.linked)
    &&& before.modified ==> after.modified
    &&& before.nodes != after.nodes ==> after.modified
}

/// What a reset has collected stays, whether it succeeds or not: later files,
/// directories and links come behind it.
pub proof fn law_reset_keeps_what_it_collected(
    run: ResetRunView,
    target: Seq<Node>,
    facts: ResetFacts,
    id: NodeID,
    path: Seq<char>,
    levels: nat,
)
    ensures
        goes_on(run, reset_node(run, target, facts, id, path, levels).run),
    decreases levels, 1nat, 0nat,
{
    if facts.force || !facts.excluded@[id as int] {
        let after = cleaned(run.nodes, id);
        let own = ResetRunView {
            nodes: after.nodes,
            modified: run.modified || after.wrote,
            ..run
        };
        let entered = ResetRunView { stats: with_directory(run.stats), ..own };
        if target[id as int].kind == NodeKind::Directory && !facts.options.single_node {
            law_directory_keeps_what_was_collected(entered, target, facts, id, path, levels);
        }
    }
}

/// What was collected before a directory stays when it is walked, whether the walk
/// succeeds or not.
pub proof fn law_directory_keeps_what_was_collected(
    run: ResetRunView,
    target: Seq<Node>,
    facts: ResetFacts,
    id: NodeID,
    path: Seq<char>,
    levels: nat,
)
    ensures
        goes_on(run, reset_directory_run(run, target, facts, id, path, levels).run),
    decreases levels, 0nat, 0nat,
{
    let child = target[id as int].child;
    if is_valid_node_id(child) && levels > 0 {
        lemma_list_goes_on(
            run,
            target,
            facts,
            sound_siblings(target, id, child, target.len()),
            path,
            (levels - 1) as nat,
        );
    }
}

proof fn lemma_list_goes_on(
    run: ResetRunView,
    target: Seq<Node>,
    facts: ResetFacts,
    ids: Seq<NodeID>,
    path: Seq<char>,
    levels: nat,
)
    ensures
        goes_on(run, reset_list(run, target, facts, ids, path, levels).run),
    decreases levels, 2nat, ids.len(),
{
    if ids.len() > 0 {
        let below = joined(path, facts.names@[ids[0] as int]@);
        law_reset_keeps_what_it_collected(run, target, facts, ids[0], below, levels);
        let after = reset_node(run, target, facts, ids[0], below, levels).run;
        lemma_list_goes_on(after, target, facts, ids.drop_first(), path, levels);
    }
}

/// What lies beside a directory or a link is walked all the same when that fails,
/// and the first failure is what is reported, unless a file ends the walk later.
pub proof fn law_siblings_of_a_failure_are_walked(
    run: ResetRunView,
    target: Seq<Node>,
    facts: ResetFacts,
    ids: Seq<NodeID>,
    path: Seq<char>,
    levels: nat,
)
    requires
        ids.len() > 0,
        target[ids[0] as int].kind != NodeKind::File,
    ensures
        ({
            let below = joined(path, facts.names@[ids[0] as int]@);
            let first = reset_node(run, target, facts, ids[0], below, levels);
            let rest = reset_list(first.run, target, facts, ids.drop_first(), path, levels);
            let whole = reset_list(run, target, facts, ids, path, levels);
            &&& whole.run == rest.run
            &&& whole.failure == if first.failure is Some && !rest.ended {
                first.failure
            } else {
                rest.failure
            }
        }),
{
}

/// A node of a tree is staged.
pub open spec fn has_staged_node(nodes: Seq<Node>) -> bool {
    exists|i: int| 0 <= i < nodes.len() && (#[trigger] nodes[i]).staged
}

/// A failure tells that a node is staged, where one is, or that links are broken.
pub open spec fn is_fair(failure: Option<(ErrorKind, Seq<char>)>, nodes: Seq<Node>) -> bool {
    match failure {
        None => true,
        Some((kind, text)) => is_broken_walk(kind) || (kind == ErrorKind::InvalidArguments
            && has_staged_node(nodes)),
    }
}

/// A reset is refused for a staged node only where there is one; every other failure
/// is one of broken links.
pub proof fn law_only_staged_nodes_are_refused(
    run: ResetRunView,
    target: Seq<Node>,
    facts: ResetFacts,
    id: NodeID,
    path: Seq<char>,
    levels: nat,
)
    ensures
        is_fair(reset_node(run, target, facts, id, path, levels).failure, run.nodes),
    decreases levels, 1nat, 0nat,
{
    if facts.force || !facts.excluded@[id as int] {
        let after = cleaned(run.nodes, id);
        lemma_cleaned_only_cleans(run.nodes, id);
        if id < run.nodes.len() && run.nodes[id as int].dirty {
            let own = run.nodes.update(id as int, run.nodes[id as int].without_dirty());
            lemma_cleaning_fault(own, run.nodes[id as int].parent, run.nodes.len());
        }
        let own = ResetRunView {
            nodes: after.nodes,
            modified: run.modified || after.wrote,
            ..run
        };
        let entered = ResetRunView { stats: with_directory(run.stats), ..own };
        let child = target[id as int].child;
        if target[id as int].kind == NodeKind::Directory && !facts.options.single_node
            && is_valid_node_id(child) && levels > 0 {
            lemma_list_is_fair(
                entered,
                target,
                facts,
                sound_siblings(target, id, child, target.len()),
                path,
                (levels - 1) as nat,
            );
            lemma_staged_nodes_stay(run.nodes, after.nodes);
        }
    }
}

proof fn lemma_list_is_fair(
    run: ResetRunView,
    target: Seq<Node>,
    facts: ResetFacts,
    ids: Seq<NodeID>,
    path: Seq<char>,
    levels: nat,
)
    ensures
        is_fair(reset_list(run, target, facts, ids, path, levels).failure, run.nodes),
    decreases levels, 2nat, ids.len(),
{
    if ids.len() > 0 {
        let below = joined(path, facts.names@[ids[0] as int]@);
        law_only_staged_nodes_are_refused(run, target, facts, ids[0], below, levels);
        law_reset_only_cleans(run, target, facts, ids[0], below, levels);
        let after = reset_node(run, target, facts, ids[0], below, levels).run;
        lemma_list_is_fair(after, target, facts, ids.drop_first(), path, levels);
        lemma_staged_nodes_stay(run.nodes, after.nodes);
    }
}

proof fn lemma_staged_nodes_stay(before: Seq<Node>, after: Seq<Node>)
    requires
        only_cleans(before, after),
    ensures
        has_staged_node(after) ==> has_staged_node(before),
{
    if has_staged_node(after) {
        let i = choose|i: int| 0 <= i < after.len() && (#[trigger] after[i]).staged;
        assert(before[i].staged);
    }
}

proof fn lemma_cleaning_fault(nodes: Seq<Node>, id: NodeID, limit: nat)
    ensures
        cleaning(nodes, id, limit).fault matches Some(kind) ==> is_broken_walk(kind),
    decreases limit,
{
    if limit > 0 && is_valid_node_id(id) && dirty_children(nodes, id) == Some(false) {
        lemma_cleaning_fault(
            nodes.update(id as int, nodes[id as int].without_dirty()),
            nodes[id as int].parent,
            (limit - 1) as nat,
        );
    }
}

// ---------------------------------------------------------------------------
// What a walk reaches
// ---------------------------------------------------------------------------

/// A walk passes over a node.
pub open spec fn passes_over(facts: ResetFacts, id: NodeID) -> bool {
    !facts.force && facts.excluded@[id as int]
}

/// The children of a directory, up to where its links are broken.
pub open spec fn reached_children(target: Seq<Node>, id: NodeID) -> Seq<NodeID> {
    sound_siblings(target, id, target[id as int].child, target.len())
}

/// A way down the target revision: each node is a child of the one in front of it,
/// which is a directory, and none of them is passed over.
pub open spec fn is_way(target: Seq<Node>, facts: ResetFacts, way: Seq<NodeID>) -> bool {
    &&& way.len() > 0
    &&& forall|i: int| 0 <= i < way.len() ==> !passes_over(facts, #[trigger] way[i])
    &&& forall|i: int|
        0 <= i < way.len() - 1 ==> target[(#[trigger] way[i]) as int].kind == NodeKind::Directory
            && reached_children(target, way[i]).contains(way[i + 1])
}

/// The path of the last node of a way, where the first one has a path.
pub open spec fn path_along(facts: ResetFacts, path: Seq<char>, way: Seq<NodeID>) -> Seq<char>
    decreases way.len(),
{
    if way.len() <= 1 {
        path
    } else {
        path_along(facts, joined(path, facts.names@[way[1] as int]@), way.drop_first())
    }
}

/// A node that a walk came to at a path was dealt with: it is not dirty in the staged
/// state, a file is restored, a link is followed, an empty directory is created, and a
/// directory is purged where that is asked for.
pub open spec fn is_dealt_with(
    run: ResetRunView,
    target: Seq<Node>,
    facts: ResetFacts,
    id: NodeID,
    path: Seq<char>,
) -> bool {
    let node = target[id as int];
    &&& id < run.nodes.len() ==> !run.nodes[id as int].dirty
    &&& match node.kind {
        NodeKind::File => run.files.contains((id, path)),
        NodeKind::Link => facts.options.single_node || run.linked.contains(
            (
                node.link,
                linked_staged_revision(node.link, facts.staged_links@[id as int]),
                path,
            ),
        ),
        NodeKind::Directory => facts.options.single_node || {
            &&& !is_valid_node_id(node.child) && path.len() > 0 ==> run.created.contains(path)
            &&& facts.options.purge ==> run.purged.contains((id, path))
        },
    }
}

proof fn lemma_way_below(target: Seq<Node>, facts: ResetFacts, way: Seq<NodeID>)
    requires
        is_way(target, facts, way),
        way.len() > 1,
    ensures
        is_way(target, facts, way.drop_first()),
        reached_children(target, way[0]).contains(way[1]),
        target[way[0] as int].kind == NodeKind::Directory,
        !passes_over(facts, way[0]),
        way.drop_first()[0] == way[1],
        way.drop_first().last() == way.last(),
{
    let below = way.drop_first();
    assert(target[way[0] as int].kind == NodeKind::Directory);
    assert forall|i: int| 0 <= i < below.len() implies !passes_over(
        facts,
        #[trigger] below[i],
    ) by {
        assert(below[i] == way[i + 1]);
    }
    assert forall|i: int| 0 <= i < below.len() - 1 implies target[(
    #[trigger] below[i]) as int].kind == NodeKind::Directory && reached_children(
        target,
        below[i],
    ).contains(below[i + 1]) by {
        assert(below[i] == way[i + 1]);
    }
    assert(!passes_over(facts, way[0]));
}

proof fn lemma_still_dealt_with(
    before: ResetRunView,
    after: ResetRunView,
    target: Seq<Node>,
    facts: ResetFacts,
    id: NodeID,
    path: Seq<char>,
)
    requires
        goes_on(before, after),
        only_cleans(before.nodes, after.nodes),
        is_dealt_with(before, target, facts, id, path),
    ensures
        is_dealt_with(after, target, facts, id, path),
{
    let node = target[id as int];
    let link = (
        node.link,
        linked_staged_revision(node.link, facts.staged_links@[id as int]),
        path,
    );
    if before.files.contains((id, path)) {
        let i = before.files.index_of((id, path));
        assert(after.files[i] == (id, path));
    }
    if before.linked.contains(link) {
        let i = before.linked.index_of(link);
        assert(after.linked[i] == link);
    }
    if before.created.contains(path) {
        let i = before.created.index_of(path);
        assert(after.created[i] == path);
    }
    if before.purged.contains((id, path)) {
        let i = before.purged.index_of((id, path));
        assert(after.purged[i] == (id, path));
    }
}

proof fn lemma_own_is_clean(
    run: ResetRunView,
    target: Seq<Node>,
    facts: ResetFacts,
    id: NodeID,
    path: Seq<char>,
    levels: nat,
)
    requires
        !passes_over(facts, id),
        reset_node(run, target, facts, id, path, levels).failure is None,
    ensures
        id < run.nodes.len() ==> !reset_node(
            run,
            target,
            facts,
            id,
            path,
            levels,
        ).run.nodes[id as int].dirty,
{
    let after = cleaned(run.nodes, id);
    lemma_cleaned_only_cleans(run.nodes, id);
    let own = ResetRunView {
        nodes: after.nodes,
        modified: run.modified || after.wrote,
        ..run
    };
    let entered = ResetRunView { stats: with_directory(run.stats), ..own };
    let child = target[id as int].child;
    if target[id as int].kind == NodeKind::Directory && !facts.options.single_node
        && is_valid_node_id(child) && levels > 0 {
        lemma_list_only_cleans(
            entered,
            target,
            facts,
            sound_siblings(target, id, child, target.len()),
            path,
            (levels - 1) as nat,
        );
    }
}

/// A reset without failure deals with every node that a way leads to: every file
/// below, at whatever depth, is restored, every link is followed, and every directory
/// is created or purged as it has to be. Only what is passed over is left out.
pub proof fn law_reset_reaches_every_node(
    run: ResetRunView,
    target: Seq<Node>,
    facts: ResetFacts,
    way: Seq<NodeID>,
    path: Seq<char>,
    levels: nat,
)
    requires
        is_way(target, facts, way),
        way.len() > 1 ==> !facts.options.single_node,
        reset_node(run, target, facts, way[0], path, levels).failure is None,
    ensures
        is_dealt_with(
            reset_node(run, target, facts, way[0], path, levels).run,
            target,
            facts,
            way.last(),
            path_along(facts, path, way),
        ),
    decreases way.len(), 1nat, 0nat,
{
    let id = way[0];
    let node = target[id as int];
    assert(!passes_over(facts, way[0]));
    let after = cleaned(run.nodes, id);
    let own = ResetRunView {
        nodes: after.nodes,
        modified: run.modified || after.wrote,
        ..run
    };
    let entered = ResetRunView { stats: with_directory(run.stats), ..own };
    let end = reset_node(run, target, facts, id, path, levels).run;
    lemma_cleaned_only_cleans(run.nodes, id);
    law_reset_only_cleans(run, target, facts, id, path, levels);
    if way.len() == 1 {
        lemma_own_is_clean(run, target, facts, id, path, levels);
        match node.kind {
            NodeKind::File => {
                assert(end.files.last() == (id, path));
            },
            NodeKind::Link => {
                if !facts.options.single_node {
                    assert(end.linked.last() == (
                        node.link,
                        linked_staged_revision(node.link, facts.staged_links@[id as int]),
                        path,
                    ));
                }
            },
            NodeKind::Directory => {
                if !facts.options.single_node {
                    if facts.options.purge {
                        assert(end.purged.last() == (id, path));
                    }
                    if !is_valid_node_id(node.child) && path.len() > 0 {
                        assert(end.created.last() == path);
                    }
                }
            },
        }
    } else {
        lemma_way_below(target, facts, way);
        let below = way.drop_first();
        let ids = reached_children(target, id);
        let k = ids.index_of(way[1]);
        assert(ids[k] == way[1]);
        lemma_siblings_need_a_child(target, id, node.child, target.len());
        assert(is_valid_node_id(node.child));
        let list = reset_list(entered, target, facts, ids, path, (levels - 1) as nat);
        lemma_list_ends_with_failure(entered, target, facts, ids, path, (levels - 1) as nat);
        assert(list.failure is None);
        lemma_list_reaches(entered, target, facts, ids, below, path, (levels - 1) as nat, k);
        lemma_still_dealt_with(
            list.run,
            end,
            target,
            facts,
            way.last(),
            path_along(facts, path, way),
        );
    }
}

proof fn lemma_siblings_need_a_child(
    nodes: Seq<Node>,
    parent: NodeID,
    from: NodeID,
    limit: nat,
)
    ensures
        sound_siblings(nodes, parent, from, limit).len() > 0 ==> is_valid_node_id(from),
{
}

proof fn lemma_list_reaches(
    run: ResetRunView,
    target: Seq<Node>,
    facts: ResetFacts,
    ids: Seq<NodeID>,
    way: Seq<NodeID>,
    path: Seq<char>,
    levels: nat,
    k: int,
)
    requires
        is_way(target, facts, way),
        0 <= k < ids.len(),
        ids[k] == way[0],
        !facts.options.single_node,
        reset_list(run, target, facts, ids, path, levels).failure is None,
    ensures
        is_dealt_with(
            reset_list(run, target, facts, ids, path, levels).run,
            target,
            facts,
            way.last(),
            path_along(facts, joined(path, facts.names@[way[0] as int]@), way),
        ),
    decreases way.len(), 2nat, ids.len(),
{
    let below = joined(path, facts.names@[ids[0] as int]@);
    let first = reset_node(run, target, facts, ids[0], below, levels);
    let rest = ids.drop_first();
    let end = reset_list(first.run, target, facts, rest, path, levels);
    lemma_list_ends_with_failure(first.run, target, facts, rest, path, levels);
    if k == 0 {
        law_reset_reaches_every_node(run, target, facts, way, below, levels);
        lemma_list_goes_on(first.run, target, facts, rest, path, levels);
        lemma_list_only_cleans(first.run, target, facts, rest, path, levels);
        lemma_still_dealt_with(
            first.run,
            end.run,
            target,
            facts,
            way.last(),
            path_along(facts, below, way),
        );
    } else {
        assert(rest[k - 1] == ids[k]);
        lemma_list_reaches(first.run, target, facts, rest, way, path, levels, k - 1);
    }
}

/// A link that is followed counts as one directory, a file as none, and an empty
/// directory as one; what is passed over does not count.
pub proof fn law_reset_counts_what_it_enters(
    run: ResetRunView,
    target: Seq<Node>,
    facts: ResetFacts,
    id: NodeID,
    path: Seq<char>,
    levels: nat,
)
    requires
        reset_node(run, target, facts, id, path, levels).failure is None,
        run.stats.directory_reset_count < u64::MAX,
    ensures
        ({
            let node = target[id as int];
            let after = reset_node(run, target, facts, id, path, levels).run.stats;
            let one_more = ResetStats {
                directory_reset_count: (run.stats.directory_reset_count + 1) as u64,
                ..run.stats
            };
            let enters = !facts.options.single_node && !(!facts.force
                && facts.excluded@[id as int]);
            &&& !enters || node.kind == NodeKind::File ==> after == run.stats
            &&& enters && node.kind == NodeKind::Link ==> after == one_more
            &&& enters && node.kind == NodeKind::Directory && !is_valid_node_id(node.child)
                ==> after == one_more
        }),
{
}

/// A reset of everything below a directory that does not fail deals with every node
/// that a way leads to from the directory, at whatever depth.
pub proof fn law_reset_tree_reaches_every_node(
    run: ResetRunView,
    target: Seq<Node>,
    facts: ResetFacts,
    directory: NodeID,
    way: Seq<NodeID>,
    path: Seq<char>,
    levels: nat,
)
    requires
        is_way(target, facts, way),
        !facts.options.single_node,
        reached_children(target, directory).contains(way[0]),
        reset_directory_run(run, target, facts, directory, path, levels).failure is None,
    ensures
        is_dealt_with(
            reset_directory_run(run, target, facts, directory, path, levels).run,
            target,
            facts,
            way.last(),
            path_along(facts, joined(path, facts.names@[way[0] as int]@), way),
        ),
{
    let child = target[directory as int].child;
    let ids = reached_children(target, directory);
    let k = ids.index_of(way[0]);
    assert(ids[k] == way[0]);
    lemma_siblings_need_a_child(target, directory, child, target.len());
    let list = reset_list(run, target, facts, ids, path, (levels - 1) as nat);
    lemma_list_ends_with_failure(run, target, facts, ids, path, (levels - 1) as nat);
    lemma_list_reaches(run, target, facts, ids, way, path, (levels - 1) as nat, k);
    lemma_still_dealt_with(
        list.run,
        reset_directory_run(run, target, facts, directory, path, levels).run,
        target,
        facts,
        way.last(),
        path_along(facts, joined(path, facts.names@[way[0] as int]@), way),
    );
}

/// The files at and below a node, each once and in the order of the tree, that a
/// reset restores.
pub open spec fn files_below(
    target: Seq<Node>,
    facts: ResetFacts,
    id: NodeID,
    path: Seq<char>,
    levels: nat,
) -> Seq<(NodeID, Seq<char>)>
    decreases levels, 0nat, 0nat,
{
    if passes_over(facts, id) {
        Seq::empty()
    } else {
        match target[id as int].kind {
            NodeKind::File => seq![(id, path)],
            NodeKind::Link => Seq::empty(),
            NodeKind::Directory => if facts.options.single_node || levels == 0 {
                Seq::empty()
            } else {
                files_in(
                    target,
                    facts,
                    reached_children(target, id),
                    path,
                    (levels - 1) as nat,
                )
            },
        }
    }
}

/// The files at and below the nodes of a directory.
pub open spec fn files_in(
    target: Seq<Node>,
    facts: ResetFacts,
    ids: Seq<NodeID>,
    path: Seq<char>,
    levels: nat,
) -> Seq<(NodeID, Seq<char>)>
    decreases levels, 1nat, ids.len(),
{
    if ids.len() == 0 {
        Seq::empty()
    } else {
        files_below(target, facts, ids[0], joined(path, facts.names@[ids[0] as int]@), levels)
            + files_in(target, facts, ids.drop_first(), path, levels)
    }
}

/// A reset without failure restores just the files at and below the node, each once
/// and in the order of the tree, behind those that were to be restored before.
pub proof fn law_reset_restores_each_file_once(
    run: ResetRunView,
    target: Seq<Node>,
    facts: ResetFacts,
    id: NodeID,
    path: Seq<char>,
    levels: nat,
)
    requires
        reset_node(run, target, facts, id, path, levels).failure is None,
    ensures
        reset_node(run, target, facts, id, path, levels).run.files == run.files + files_below(
            target,
            facts,
            id,
            path,
            levels,
        ),
    decreases levels, 1nat, 0nat,
{
    let added = files_below(target, facts, id, path, levels);
    let node = target[id as int];
    if passes_over(facts, id) || node.kind == NodeKind::Link || (node.kind
        == NodeKind::Directory && facts.options.single_node) {
        assert(run.files + added =~= run.files);
    } else if node.kind == NodeKind::File {
        assert(run.files + added =~= run.files.push((id, path)));
    } else {
        let after = cleaned(run.nodes, id);
        let own = ResetRunView {
            nodes: after.nodes,
            modified: run.modified || after.wrote,
            ..run
        };
        let entered = ResetRunView { stats: with_directory(run.stats), ..own };
        if is_valid_node_id(node.child) {
            let ids = reached_children(target, id);
            lemma_list_ends_with_failure(entered, target, facts, ids, path, (levels - 1) as nat);
            lemma_list_restores(entered, target, facts, ids, path, (levels - 1) as nat);
        } else {
            assert(reached_children(target, id).len() == 0);
            assert(run.files + added =~= run.files);
        }
    }
}

proof fn lemma_list_restores(
    run: ResetRunView,
    target: Seq<Node>,
    facts: ResetFacts,
    ids: Seq<NodeID>,
    path: Seq<char>,
    levels: nat,
)
    requires
        reset_list(run, target, facts, ids, path, levels).failure is None,
    ensures
        reset_list(run, target, facts, ids, path, levels).run.files == run.files + files_in(
            target,
            facts,
            ids,
            path,
            levels,
        ),
    decreases levels, 2nat, ids.len(),
{
    if ids.len() == 0 {
        assert(run.files + files_in(target, facts, ids, path, levels) =~= run.files);
    } else {
        let below = joined(path, facts.names@[ids[0] as int]@);
        let first = reset_node(run, target, facts, ids[0], below, levels);
        let rest = ids.drop_first();
        lemma_list_ends_with_failure(first.run, target, facts, rest, path, levels);
        law_reset_restores_each_file_once(run, target, facts, ids[0], below, levels);
        lemma_list_restores(first.run, target, facts, rest, path, levels);
        assert(run.files + files_in(target, facts, ids, path, levels) =~= first.run.files
            + files_in(target, facts, rest, path, levels));
    }
}

/// What a reset does besides restoring files: the links that it follows, the empty
/// directories that it creates, and the directories that it purges.
#[verifier::ext_equal]
pub struct ResetBesides {
    pub linked: Seq<(NodeLink, ContentHash, Seq<char>)>,
    pub created: Seq<Seq<char>>,
    pub purged: Seq<(NodeID, Seq<char>)>,
}

/// What a reset does at and below a node besides restoring files, each once: in the
/// order of the tree, a directory being purged after what it holds.
pub open spec fn besides_below(
    target: Seq<Node>,
    facts: ResetFacts,
    id: NodeID,
    path: Seq<char>,
    levels: nat,
) -> ResetBesides
    decreases levels, 0nat, 0nat,
{
    let node = target[id as int];
    let nothing = ResetBesides {
        linked: Seq::empty(),
        created: Seq::empty(),
        purged: Seq::empty(),
    };
    if passes_over(facts, id) || facts.options.single_node || node.kind == NodeKind::File {
        nothing
    } else if node.kind == NodeKind::Link {
        let revision = linked_staged_revision(node.link, facts.staged_links@[id as int]);
        ResetBesides { linked: seq![(node.link, revision, path)], ..nothing }
    } else {
        let below = if levels == 0 || !is_valid_node_id(node.child) {
            nothing
        } else {
            besides_in(target, facts, reached_children(target, id), path, (levels - 1) as nat)
        };
        ResetBesides {
            linked: below.linked,
            created: if !is_valid_node_id(node.child) && path.len() > 0 {
                seq![path]
            } else {
                below.created
            },
            purged: if facts.options.purge {
                below.purged.push((id, path))
            } else {
                below.purged
            },
        }
    }
}

/// What a reset does at and below the nodes of a directory besides restoring files.
pub open spec fn besides_in(
    target: Seq<Node>,
    facts: ResetFacts,
    ids: Seq<NodeID>,
    path: Seq<char>,
    levels: nat,
) -> ResetBesides
    decreases levels, 1nat, ids.len(),
{
    if ids.len() == 0 {
        ResetBesides { linked: Seq::empty(), created: Seq::empty(), purged: Seq::empty() }
    } else {
        let first = besides_below(
            target,
            facts,
            ids[0],
            joined(path, facts.names@[ids[0] as int]@),
            levels,
        );
        let rest = besides_in(target, facts, ids.drop_first(), path, levels);
        ResetBesides {
            linked: first.linked + rest.linked,
            created: first.created + rest.created,
            purged: first.purged + rest.purged,
        }
    }
}

/// A run has done something more than another.
pub open spec fn has_done(before: ResetRunView, after: ResetRunView, more: ResetBesides) -> bool {
    &&& after.linked == before.linked + more.linked
    &&& after.created == before.created + more.created
    &&& after.purged == before.purged + more.purged
}

/// A reset without failure follows each link, creates each empty directory and purges
/// each directory once, and no other.
pub proof fn law_reset_does_each_thing_once(
    run: ResetRunView,
    target: Seq<Node>,
    facts: ResetFacts,
    id: NodeID,
    path: Seq<char>,
    levels: nat,
)
    requires
        reset_node(run, target, facts, id, path, levels).failure is None,
    ensures
        has_done(
            run,
            reset_node(run, target, facts, id, path, levels).run,
            besides_below(target, facts, id, path, levels),
        ),
    decreases levels, 1nat, 0nat,
{
    let end = reset_node(run, target, facts, id, path, levels).run;
    let more = besides_below(target, facts, id, path, levels);
    let node = target[id as int];
    let after = cleaned(run.nodes, id);
    let own = ResetRunView {
        nodes: after.nodes,
        modified: run.modified || after.wrote,
        ..run
    };
    let entered = ResetRunView { stats: with_directory(run.stats), ..own };
    if !passes_over(facts, id) && !facts.options.single_node && node.kind
        == NodeKind::Directory && is_valid_node_id(node.child) {
        let ids = reached_children(target, id);
        lemma_list_ends_with_failure(entered, target, facts, ids, path, (levels - 1) as nat);
        lemma_list_does_each_thing_once(entered, target, facts, ids, path, (levels - 1) as nat);
    }
    assert(end.linked =~= run.linked + more.linked);
    assert(end.created =~= run.created + more.created);
    assert(end.purged =~= run.purged + more.purged);
}

proof fn lemma_list_does_each_thing_once(
    run: ResetRunView,
    target: Seq<Node>,
    facts: ResetFacts,
    ids: Seq<NodeID>,
    path: Seq<char>,
    levels: nat,
)
    requires
        reset_list(run, target, facts, ids, path, levels).failure is None,
    ensures
        has_done(
            run,
            reset_list(run, target, facts, ids, path, levels).run,
            besides_in(target, facts, ids, path, levels),
        ),
    decreases levels, 2nat, ids.len(),
{
    let end = reset_list(run, target, facts, ids, path, levels).run;
    let more = besides_in(target, facts, ids, path, levels);
    if ids.len() > 0 {
        let below = joined(path, facts.names@[ids[0] as int]@);
        let first = reset_node(run, target, facts, ids[0], below, levels);
        let rest = ids.drop_first();
        lemma_list_ends_with_failure(first.run, target, facts, rest, path, levels);
        law_reset_does_each_thing_once(run, target, facts, ids[0], below, levels);
        lemma_list_does_each_thing_once(first.run, target, facts, rest, path, levels);
    }
    assert(end.linked =~= run.linked + more.linked);
    assert(end.created =~= run.created + more.created);
    assert(end.purged =~= run.purged + more.purged);
}

/// Every file that a reset restores lies at the end of a way: nothing is restored
/// that is passed over, or that is no file of the revision.
pub proof fn law_restored_files_are_reached(
    target: Seq<Node>,
    facts: ResetFacts,
    id: NodeID,
    path: Seq<char>,
    levels: nat,
    i: int,
) -> (way: Seq<NodeID>)
    requires
        0 <= i < files_below(target, facts, id, path, levels).len(),
    ensures
        is_way(target, facts, way),
        way[0] == id,
        target[way.last() as int].kind == NodeKind::File,
        files_below(target, facts, id, path, levels)[i] == (
            way.last(),
            path_along(facts, path, way),
        ),
    decreases levels, 0nat, 0nat,
{
    if target[id as int].kind == NodeKind::File {
        seq![id]
    } else {
        let ids = reached_children(target, id);
        let below = lemma_files_are_reached(target, facts, ids, path, (levels - 1) as nat, i);
        let way = seq![id] + below;
        assert(way.drop_first() =~= below);
        assert(way[1] == below[0]);
        assert(ids.contains(way[1]));
        assert forall|n: int| 0 <= n < way.len() implies !passes_over(
            facts,
            #[trigger] way[n],
        ) by {
            if n > 0 {
                assert(way[n] == below[n - 1]);
            }
        }
        assert forall|n: int| 0 <= n < way.len() - 1 implies target[(
        #[trigger] way[n]) as int].kind == NodeKind::Directory && reached_children(
            target,
            way[n],
        ).contains(way[n + 1]) by {
            if n > 0 {
                assert(way[n] == below[n - 1]);
                assert(way[n + 1] == below[n]);
            }
        }
        assert(way.last() == below.last());
        way
    }
}

proof fn lemma_files_are_reached(
    target: Seq<Node>,
    facts: ResetFacts,
    ids: Seq<NodeID>,
    path: Seq<char>,
    levels: nat,
    i: int,
) -> (way: Seq<NodeID>)
    requires
        0 <= i < files_in(target, facts, ids, path, levels).len(),
    ensures
        is_way(target, facts, way),
        ids.contains(way[0]),
        target[way.last() as int].kind == NodeKind::File,
        files_in(target, facts, ids, path, levels)[i] == (
            way.last(),
            path_along(facts, joined(path, facts.names@[way[0] as int]@), way),
        ),
    decreases levels, 1nat, ids.len(),
{
    let below = joined(path, facts.names@[ids[0] as int]@);
    let first = files_below(target, facts, ids[0], below, levels);
    if i < first.len() {
        let way = law_restored_files_are_reached(target, facts, ids[0], below, levels, i);
        assert(ids.contains(ids[0]));
        way
    } else {
        let rest = ids.drop_first();
        let way = lemma_files_are_reached(
            target,
            facts,
            rest,
            path,
            levels,
            i - first.len(),
        );
        let k = rest.index_of(way[0]);
        assert(ids[k + 1] == way[0]);
        way
    }
}

proof fn lemma_more_levels_reset_alike(
    run: ResetRunView,
    target: Seq<Node>,
    facts: ResetFacts,
    id: NodeID,
    path: Seq<char>,
    levels: nat,
    more: nat,
)
    requires
        levels <= more,
        reset_node(run, target, facts, id, path, levels).failure is None,
    ensures
        reset_node(run, target, facts, id, path, more) == reset_node(
            run,
            target,
            facts,
            id,
            path,
            levels,
        ),
    decreases levels, 1nat, 0nat,
{
    let after = cleaned(run.nodes, id);
    let own = ResetRunView {
        nodes: after.nodes,
        modified: run.modified || after.wrote,
        ..run
    };
    let entered = ResetRunView { stats: with_directory(run.stats), ..own };
    if !passes_over(facts, id) && !facts.options.single_node && target[id as int].kind
        == NodeKind::Directory {
        lemma_more_levels_walk_alike(entered, target, facts, id, path, levels, more);
    }
}

proof fn lemma_more_levels_walk_alike(
    run: ResetRunView,
    target: Seq<Node>,
    facts: ResetFacts,
    id: NodeID,
    path: Seq<char>,
    levels: nat,
    more: nat,
)
    requires
        levels <= more,
        reset_directory_run(run, target, facts, id, path, levels).failure is None,
    ensures
        reset_directory_run(run, target, facts, id, path, more) == reset_directory_run(
            run,
            target,
            facts,
            id,
            path,
            levels,
        ),
    decreases levels, 0nat, 0nat,
{
    let child = target[id as int].child;
    if is_valid_node_id(child) {
        let ids = reached_children(target, id);
        lemma_list_ends_with_failure(run, target, facts, ids, path, (levels - 1) as nat);
        lemma_more_levels_list_alike(
            run,
            target,
            facts,
            ids,
            path,
            (levels - 1) as nat,
            (more - 1) as nat,
        );
    }
}

proof fn lemma_more_levels_list_alike(
    run: ResetRunView,
    target: Seq<Node>,
    facts: ResetFacts,
    ids: Seq<NodeID>,
    path: Seq<char>,
    levels: nat,
    more: nat,
)
    requires
        levels <= more,
        reset_list(run, target, facts, ids, path, levels).failure is None,
    ensures
        reset_list(run, target, facts, ids, path, more) == reset_list(
            run,
            target,
            facts,
            ids,
            path,
            levels,
        ),
    decreases levels, 2nat, ids.len(),
{
    if ids.len() > 0 {
        let below = joined(path, facts.names@[ids[0] as int]@);
        let first = reset_node(run, target, facts, ids[0], below, levels);
        let rest = ids.drop_first();
        lemma_list_ends_with_failure(first.run, target, facts, rest, path, levels);
        lemma_more_levels_reset_alike(run, target, facts, ids[0], below, levels, more);
        lemma_more_levels_list_alike(first.run, target, facts, rest, path, levels, more);
    }
}

/// A reset goes as deep as the tree has nodes: whatever a walk over no more levels than
/// that comes to without failure, the reset comes to.
pub proof fn law_reset_goes_to_the_bottom(
    run: ResetRunView,
    target: Seq<Node>,
    facts: ResetFacts,
    id: NodeID,
    path: Seq<char>,
    levels: nat,
)
    requires
        levels <= target.len(),
    ensures
        reset_node(run, target, facts, id, path, levels).failure is None ==> subtree_reset(
            run,
            target,
            facts,
            id,
            path,
        ) == reset_node(run, target, facts, id, path, levels),
        reset_directory_run(run, target, facts, id, path, levels).failure is None ==> tree_reset(
            run,
            target,
            facts,
            id,
            path,
        ) == reset_directory_run(run, target, facts, id, path, levels),
{
    if reset_node(run, target, facts, id, path, levels).failure is None {
        lemma_more_levels_reset_alike(run, target, facts, id, path, levels, target.len());
    }
    if reset_directory_run(run, target, facts, id, path, levels).failure is None {
        lemma_more_levels_walk_alike(run, target, facts, id, path, levels, target.len());
    }
}

} // verus!
