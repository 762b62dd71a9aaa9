//! Unstaging a node together with everything below it.
//!
//! A walk stays within one repository. Links that it meets are collected, for a
//! walk of the linked repository.

use vstd::prelude::*;
use vstd::string::*;

use crate::change::LoreFileAction;
use crate::errors::ErrorKind;
use crate::file::unstage::demoted_files;
use crate::file::unstage::files_of;
use crate::file::unstage::finish_directory;
use crate::file::unstage::ignores_node;
use crate::file::unstage::is_ignored_name;
use crate::file::unstage::law_unstaged_node_is_not_staged;
use crate::file::unstage::unstage_event;
use crate::file::unstage::unstage_next;
use crate::file::unstage::unstage_node;
use crate::file::unstage::unstaged_in_place;
use crate::file::unstage::unstaging_node;
use crate::file::unstage::unstaging_tree;
use crate::file::unstage::DiscardList;
use crate::file::unstage::DiskCheck;
use crate::file::unstage::LoreFileUnstageFileEventData;
use crate::file::unstage::UnstageError;
use crate::file::unstage::UnstageNext;
use crate::file::unstage::UnstageOptions;
use crate::file::unstage::UnstageStats;
use crate::file::unstage::UnstageView;
use crate::link::LinkKeyView;
use crate::link::LinkTracker;
use crate::node::broken_links;
use crate::node::children;
use crate::node::law_children_name_their_parent;
use crate::node::law_cleaning_upwards_only_clears;
use crate::node::descendants;
use crate::node::is_valid_node_id;
use crate::node::law_descendants_follow_links;
use crate::node::law_unstaging_upwards_only_clears;
use crate::node::siblings;
use crate::node::unstaging;
use crate::node::Node;
use crate::node::NodeAction;
use crate::node::NodeID;
use crate::node::NodeKind;
use crate::path::join;
use crate::path::joined;
use crate::state::lemma_link_position;
use crate::state::HeaderView;
use crate::state::LinkReference;
use crate::state::RevisionState;
use crate::types::next_count;
use crate::types::ContentHash;
use crate::types::RepositoryId;

verus! {

/// What a walk reports.
#[derive(Debug)]
pub enum UnstageReport {
    /// A file or link.
    File(LoreFileUnstageFileEventData),
    /// A file below a directory that was a staged addition.
    Demoted(NodeID),
}

/// A linked repository that is to be unstaged from a node.
#[derive(Clone, Copy, Debug)]
pub struct UnstageLinked {
    pub repository: RepositoryId,
    pub staged_revision: ContentHash,
    pub current_revision: ContentHash,
    pub node: NodeID,
}

/// What an unstage operation has changed and reported so far.
pub struct UnstageRun {
    pub staged: RevisionState,
    pub tracker: LinkTracker,
    pub discard: DiscardList,
    pub stats: UnstageStats,
    pub reports: Vec<UnstageReport>,
    pub linked: Vec<UnstageLinked>,
}

/// What a walk reports, as contracts speak of it.
pub enum ReportView {
    File(Seq<char>, LoreFileAction),
    Demoted(NodeID),
}

/// The run of an unstage operation, as contracts speak of it.
#[verifier::ext_equal]
pub struct RunView {
    pub header: HeaderView,
    pub nodes: Seq<Node>,
    pub modified: bool,
    pub links: Seq<LinkReference>,
    pub tracker: Map<LinkKeyView, bool>,
    pub discard: Map<Seq<u8>, Seq<u32>>,
    pub stats: UnstageStats,
    pub reports: Seq<ReportView>,
    pub linked: Seq<UnstageLinked>,
}

/// A report, as contracts speak of it.
pub open spec fn report_view(report: UnstageReport) -> ReportView {
    match report {
        UnstageReport::File(event) => ReportView::File(event.path@, event.action),
        UnstageReport::Demoted(id) => ReportView::Demoted(id),
    }
}

/// Reports, as contracts speak of them.
pub open spec fn report_views(reports: Seq<UnstageReport>) -> Seq<ReportView> {
    reports.map_values(|report: UnstageReport| report_view(report))
}

impl View for UnstageRun {
    type V = RunView;

    open spec fn view(&self) -> RunView {
        RunView {
            header: self.staged.header(),
            nodes: self.staged.tree@,
            modified: self.staged.tree.modified,
            links: self.staged.links@,
            tracker: self.tracker@,
            discard: self.discard@,
            stats: self.stats,
            reports: report_views(self.reports@),
            linked: self.linked@,
        }
    }
}

/// What a walk knows of the nodes of a repository, by node.
pub struct UnstageFacts {
    pub repository: RepositoryId,
    pub names: Vec<String>,
    /// The filter excludes the node's path.
    pub excluded: Vec<bool>,
    /// How the file of the node compares with the current revision.
    pub disk: Vec<DiskCheck>,
    pub force: bool,
    pub single_node: bool,
}

impl UnstageFacts {
    /// Every node of a tree is known.
    pub open spec fn cover(&self, nodes: Seq<Node>) -> bool {
        &&& self.names@.len() == nodes.len()
        &&& self.excluded@.len() == nodes.len()
        &&& self.disk@.len() == nodes.len()
    }

    /// A walk passes over a node.
    pub open spec fn ignores(&self, id: NodeID) -> bool {
        is_ignored_name(self.names@[id as int]@) || (!self.force && self.excluded@[id as int])
    }
}

/// A walk passes over a node without a name, over one that stands for its own
/// directory or for repository state, and over one that the filter excludes unless
/// that is forced; over no other.
pub proof fn law_other_nodes_are_not_passed_over(facts: UnstageFacts, id: NodeID)
    ensures
        facts.ignores(id) <==> {
            let name = facts.names@[id as int]@;
            ||| name.len() == 0
            ||| name == "."@
            ||| name == ".lore"@
            ||| name == ".urc"@
            ||| facts.excluded@[id as int] && !facts.force
        },
{
}

/// Demoted files, as reports.
pub open spec fn demotions(ids: Seq<NodeID>) -> Seq<ReportView> {
    ids.map_values(|id: NodeID| ReportView::Demoted(id))
}

/// The linked repositories after a link was unstaged.
pub open spec fn with_linked(linked: Seq<UnstageLinked>, next: UnstageNext) -> Seq<UnstageLinked> {
    match next {
        UnstageNext::Linked { repository, staged_revision, current_revision, node } => linked.push(
            UnstageLinked { repository, staged_revision, current_revision, node },
        ),
        _ => linked,
    }
}

/// Reports after that for a node.
pub open spec fn with_event(
    reports: Seq<ReportView>,
    event: Option<(Seq<char>, LoreFileAction)>,
) -> Seq<ReportView> {
    match event {
        Some((path, action)) => reports.push(ReportView::File(path, action)),
        None => reports,
    }
}

impl RunView {
    /// What unstaging a node works on.
    pub open spec fn part(self) -> UnstageView {
        UnstageView {
            nodes: self.nodes,
            modified: self.modified,
            links: self.links,
            tracker: self.tracker,
            discard: self.discard,
            stats: self.stats,
        }
    }

    /// The run with what unstaging a node works on replaced.
    pub open spec fn with(self, part: UnstageView) -> RunView {
        RunView {
            nodes: part.nodes,
            modified: part.modified,
            links: part.links,
            tracker: part.tracker,
            discard: part.discard,
            stats: part.stats,
            ..self
        }
    }
}

/// The run as it stands after a walk, and why the walk failed, if it did.
#[verifier::ext_equal]
pub struct WalkOutcome {
    pub run: RunView,
    pub fault: Option<(ErrorKind, Seq<char>)>,
}

/// Unstaging a single node.
pub open spec fn visited(
    run: RunView,
    current: RevisionState,
    facts: UnstageFacts,
    id: NodeID,
    path: Seq<char>,
) -> WalkOutcome {
    let node = run.nodes[id as int];
    let effect = unstaging_node(
        run.part(),
        current,
        facts.repository.data@,
        id,
        path,
        facts.force,
        facts.disk@[id as int],
    );
    let after = run.with(effect.after);
    if effect.fault is Some {
        WalkOutcome { run: after, fault: effect.fault }
    } else {
        let next = unstage_next(
            node,
            current.tree@[id as int],
            id,
            facts.force,
            facts.single_node,
        );
        WalkOutcome {
            run: RunView {
                reports: with_event(run.reports, unstage_event(node, facts.force, path, path))
                    + demotions(demoted_files(run.nodes, id)),
                linked: with_linked(run.linked, next),
                ..after
            },
            fault: None,
        }
    }
}

/// A walk goes on below a node that it unstages.
pub open spec fn goes_below(run: RunView, facts: UnstageFacts, id: NodeID) -> bool {
    &&& run.nodes[id as int].kind == NodeKind::Directory
    &&& run.nodes[id as int].staged || facts.force
    &&& !facts.single_node
}

/// The failure of listing what a directory holds.
pub open spec fn unlisted(kind: ErrorKind) -> Option<(ErrorKind, Seq<char>)> {
    Some((kind, "Failed to list directory node children"@))
}

/// The run after a directory was counted.
pub open spec fn with_directory(run: RunView) -> RunView {
    RunView {
        stats: UnstageStats {
            directory_unstaged_count: next_count(run.stats.directory_unstaged_count),
            ..run.stats
        },
        ..run
    }
}

/// Unstaging a node and everything below it, down to a number of levels, up to the
/// first failure. A directory is counted after what it holds.
pub open spec fn walked_node(
    run: RunView,
    current: RevisionState,
    facts: UnstageFacts,
    id: NodeID,
    path: Seq<char>,
    levels: nat,
) -> WalkOutcome
    decreases levels, 0nat, 0nat,
{
    let own = visited(run, current, facts, id, path);
    if facts.ignores(id) {
        WalkOutcome { run, fault: None }
    } else if own.fault is Some || !goes_below(run, facts, id) {
        own
    } else if levels == 0 {
        WalkOutcome { run: own.run, fault: unlisted(ErrorKind::InvalidNodeHierarchy) }
    } else {
        match children(own.run.nodes, id) {
            None => WalkOutcome {
                run: own.run,
                fault: unlisted(broken_links(own.run.nodes, id)),
            },
            Some(ids) => {
                let below = walked_list(own.run, current, facts, ids, path, (levels - 1) as nat);
                if below.fault is Some {
                    below
                } else {
                    WalkOutcome { run: with_directory(below.run), fault: None }
                }
            },
        }
    }
}

/// Unstaging the nodes of a directory, in order, up to the first failure.
pub open spec fn walked_list(
    run: RunView,
    current: RevisionState,
    facts: UnstageFacts,
    ids: Seq<NodeID>,
    path: Seq<char>,
    levels: nat,
) -> WalkOutcome
    decreases levels, 1nat, ids.len(),
{
    if ids.len() == 0 {
        WalkOutcome { run, fault: None }
    } else {
        let below = joined(path, facts.names@[ids[0] as int]@);
        let first = walked_node(run, current, facts, ids[0], below, levels);
        if first.fault is Some {
            first
        } else {
            walked_list(first.run, current, facts, ids.drop_first(), path, levels)
        }
    }
}

proof fn lemma_views_push(reports: Seq<UnstageReport>, report: UnstageReport)
    ensures
        report_views(reports.push(report)) == report_views(reports).push(report_view(report)),
{
    assert(report_views(reports.push(report)) =~= report_views(reports).push(report_view(report)));
}

/// Reports the files below a directory that was a staged addition.
fn report_demoted(reports: &mut Vec<UnstageReport>, demoted: &Vec<NodeID>)
    ensures
        report_views(final(reports)@) == report_views(old(reports)@) + demotions(demoted@),
{
    let ghost before = reports@;
    let mut i: usize = 0;
    assert(report_views(before) + demotions(demoted@.take(0)) =~= report_views(before));
    while i < demoted.len()
        invariant
            i <= demoted@.len(),
            report_views(reports@) == report_views(before) + demotions(demoted@.take(i as int)),
        decreases demoted@.len() - i,
    {
        let ghost so_far = reports@;
        let id = demoted[i];
        reports.push(UnstageReport::Demoted(id));
        proof {
            lemma_views_push(so_far, UnstageReport::Demoted(id));
            assert(demotions(demoted@.take(i + 1)) =~= demotions(demoted@.take(i as int)).push(
                ReportView::Demoted(id),
            ));
            assert((report_views(before) + demotions(demoted@.take(i as int))).push(
                ReportView::Demoted(id),
            ) =~= report_views(before) + demotions(demoted@.take(i + 1)));
        }
        i = i + 1;
    }
    assert(demoted@.take(i as int) =~= demoted@);
}

/// Unstages a single node of a run.
fn visit(
    run: &mut UnstageRun,
    current: &RevisionState,
    facts: &UnstageFacts,
    id: NodeID,
    path: &str,
) -> (result: Result<(), UnstageError>)
    requires
        facts.cover(old(run)@.nodes),
        id < old(run)@.nodes.len(),
    ensures
        ({
            let after = visited(old(run)@, *current, *facts, id, path@);
            &&& final(run)@ == after.run
            &&& result is Ok <==> after.fault is None
            &&& result matches Err(e) ==> after.fault == Some((e.kind, e.detail@))
        }),
{
    let options = UnstageOptions { single_node: facts.single_node };
    let outcome = match unstage_node(
        &mut run.staged,
        current,
        facts.repository,
        id,
        path,
        path,
        facts.force,
        options,
        facts.disk[id as usize],
        &mut run.tracker,
        &mut run.discard,
        &mut run.stats,
    ) {
        Ok(outcome) => outcome,
        Err(error) => {
            assert(run@ =~= visited(old(run)@, *current, *facts, id, path@).run);
            return Err(error);
        },
    };
    if let Some(event) = outcome.event {
        proof {
            lemma_views_push(run.reports@, UnstageReport::File(event));
        }
        run.reports.push(UnstageReport::File(event));
    }
    let ghost told = run.reports@;
    report_demoted(&mut run.reports, &outcome.demoted);
    proof {
        if outcome.demoted@.len() == 0 {
            assert(report_views(told) + demotions(outcome.demoted@) =~= report_views(told));
        }
    }
    match outcome.next {
        UnstageNext::Linked { repository, staged_revision, current_revision, node } => {
            run.linked.push(
                UnstageLinked { repository, staged_revision, current_revision, node },
            );
        },
        _ => {},
    }
    proof {
        let after = visited(old(run)@, *current, *facts, id, path@);
        assert(run@ =~= after.run);
    }
    Ok(())
}

/// No node of a tree is staged that was not staged before.
pub open spec fn stages_nothing(before: Seq<Node>, after: Seq<Node>) -> bool {
    &&& after.len() == before.len()
    &&& forall|i: int|
        0 <= i < before.len() ==> ((#[trigger] after[i]).staged ==> before[i].staged)
}

proof fn lemma_tree_stages_nothing(
    nodes: Seq<Node>,
    current: Seq<Node>,
    id: NodeID,
    disk: DiskCheck,
    stats: UnstageStats,
)
    requires
        id < nodes.len(),
    ensures
        stages_nothing(nodes, unstaging_tree(nodes, current, id, disk, stats).nodes),
{
    if unstaged_in_place(nodes, current, id, disk) is Some {
        let own = unstaged_in_place(nodes, current, id, disk)->0;
        let parent = own[id as int].parent;
        assert(stages_nothing(nodes, own));
        law_unstaging_upwards_only_clears(own, parent, own.len());
        let up = unstaging(own, parent, own.len()).nodes;
        assert(stages_nothing(own, up));
        law_cleaning_upwards_only_clears(up, parent, up.len());
    }
}

/// Unstaging a node stages nothing, whether it succeeds or not, and leaves the node
/// itself unstaged where it succeeds.
pub proof fn law_visit_unstages(
    run: RunView,
    current: RevisionState,
    facts: UnstageFacts,
    id: NodeID,
    path: Seq<char>,
)
    ensures
        ({
            let after = visited(run, current, facts, id, path);
            &&& stages_nothing(run.nodes, after.run.nodes)
            &&& after.fault is None ==> !after.run.nodes[id as int].staged
        }),
{
    let node = run.nodes[id as int];
    let disk = facts.disk@[id as int];
    if id < run.nodes.len() && (node.staged || facts.force) && !(node.staged_as(NodeAction::Add)
        && node.kind == NodeKind::Link) {
        lemma_tree_stages_nothing(run.nodes, current.tree@, id, disk, run.stats);
        if unstaged_in_place(run.nodes, current.tree@, id, disk) is Some {
            law_unstaged_node_is_not_staged(run.nodes, current.tree@, id, disk, run.stats);
        }
    }
}

/// A walk stages nothing, whether it succeeds or not.
pub proof fn law_walk_stages_nothing(
    run: RunView,
    current: RevisionState,
    facts: UnstageFacts,
    id: NodeID,
    path: Seq<char>,
    levels: nat,
)
    ensures
        stages_nothing(
            run.nodes,
            walked_node(run, current, facts, id, path, levels).run.nodes,
        ),
    decreases levels, 0nat, 0nat,
{
    law_visit_unstages(run, current, facts, id, path);
    let own = visited(run, current, facts, id, path);
    if !facts.ignores(id) && own.fault is None && goes_below(run, facts, id) && levels > 0
        && children(own.run.nodes, id) is Some {
        lemma_list_stages_nothing(
            own.run,
            current,
            facts,
            children(own.run.nodes, id)->0,
            path,
            (levels - 1) as nat,
        );
    }
}

proof fn lemma_list_stages_nothing(
    run: RunView,
    current: RevisionState,
    facts: UnstageFacts,
    ids: Seq<NodeID>,
    path: Seq<char>,
    levels: nat,
)
    ensures
        stages_nothing(
            run.nodes,
            walked_list(run, current, facts, ids, path, levels).run.nodes,
        ),
    decreases levels, 1nat, ids.len(),
{
    if ids.len() > 0 {
        let below = joined(path, facts.names@[ids[0] as int]@);
        law_walk_stages_nothing(run, current, facts, ids[0], below, levels);
        let after = walked_node(run, current, facts, ids[0], below, levels).run;
        lemma_list_stages_nothing(after, current, facts, ids.drop_first(), path, levels);
    }
}

/// Every node of a list that a walk does not pass over is unstaged at its end.
pub proof fn law_walked_nodes_are_unstaged(
    run: RunView,
    current: RevisionState,
    facts: UnstageFacts,
    ids: Seq<NodeID>,
    path: Seq<char>,
    levels: nat,
    i: int,
)
    requires
        walked_list(run, current, facts, ids, path, levels).fault is None,
        0 <= i < ids.len(),
        !facts.ignores(ids[i]),
    ensures
        !walked_list(run, current, facts, ids, path, levels).run.nodes[ids[i] as int].staged,
    decreases ids.len(),
{
    let id = ids[0];
    let below = joined(path, facts.names@[id as int]@);
    let after = walked_node(run, current, facts, id, below, levels).run;
    let rest = ids.drop_first();
    law_walk_stages_nothing(run, current, facts, id, below, levels);
    lemma_list_stages_nothing(after, current, facts, rest, path, levels);
    if i == 0 {
        law_visit_unstages(run, current, facts, id, below);
        let own = visited(run, current, facts, id, below).run;
        assert(id < run.nodes.len());
        assert(!own.nodes[id as int].staged);
        if goes_below(run, facts, id) {
            lemma_list_stages_nothing(
                own,
                current,
                facts,
                children(own.nodes, id)->0,
                below,
                (levels - 1) as nat,
            );
        }
        assert(!after.nodes[id as int].staged);
    } else {
        assert(rest[i - 1] == ids[i]);
        law_walked_nodes_are_unstaged(after, current, facts, rest, path, levels, i - 1);
    }
}

/// What a walk unstages of a directory: every child that it does not pass over.
pub proof fn law_walk_unstages_children(
    run: RunView,
    current: RevisionState,
    facts: UnstageFacts,
    id: NodeID,
    path: Seq<char>,
    levels: nat,
    i: int,
)
    requires
        walked_node(run, current, facts, id, path, levels).fault is None,
        !facts.ignores(id),
        goes_below(run, facts, id),
        ({
            let ids = children(visited(run, current, facts, id, path).run.nodes, id)->0;
            0 <= i < ids.len() && !facts.ignores(ids[i])
        }),
    ensures
        ({
            let ids = children(visited(run, current, facts, id, path).run.nodes, id)->0;
            !walked_node(run, current, facts, id, path, levels).run.nodes[ids[i] as int].staged
        }),
{
    let own = visited(run, current, facts, id, path).run;
    let ids = children(own.nodes, id)->0;
    law_walked_nodes_are_unstaged(own, current, facts, ids, path, (levels - 1) as nat, i);
}

/// Two trees hold the same nodes at the same places: kinds, parents and siblings are
/// the same, and so are the children of all but files.
pub open spec fn same_places(a: Seq<Node>, b: Seq<Node>) -> bool {
    &&& a.len() == b.len()
    &&& forall|i: int|
        0 <= i < a.len() ==> {
            &&& (#[trigger] b[i]).kind == a[i].kind
            &&& b[i].parent == a[i].parent
            &&& b[i].sibling == a[i].sibling
            &&& a[i].kind != NodeKind::File ==> b[i].child == a[i].child
        }
}

proof fn lemma_same_siblings(
    a: Seq<Node>,
    b: Seq<Node>,
    parent: NodeID,
    from: NodeID,
    limit: nat,
)
    requires
        same_places(a, b),
    ensures
        siblings(a, parent, from, limit) == siblings(b, parent, from, limit),
    decreases limit,
{
    if is_valid_node_id(from) && limit > 0 && from < a.len() {
        assert(b[from as int].parent == a[from as int].parent);
        lemma_same_siblings(a, b, parent, a[from as int].sibling, (limit - 1) as nat);
    }
}

proof fn lemma_same_children(a: Seq<Node>, b: Seq<Node>, id: NodeID)
    requires
        same_places(a, b),
        id < a.len(),
        a[id as int].kind != NodeKind::File,
    ensures
        children(a, id) == children(b, id),
{
    assert(b[id as int].child == a[id as int].child);
    lemma_same_siblings(a, b, id, a[id as int].child, a.len());
}

proof fn lemma_visit_keeps_places(
    run: RunView,
    current: RevisionState,
    facts: UnstageFacts,
    id: NodeID,
    path: Seq<char>,
)
    ensures
        same_places(run.nodes, visited(run, current, facts, id, path).run.nodes),
{
    let node = run.nodes[id as int];
    let disk = facts.disk@[id as int];
    if id < run.nodes.len() && (node.staged || facts.force) && !(node.staged_as(NodeAction::Add)
        && node.kind == NodeKind::Link) {
        if unstaged_in_place(run.nodes, current.tree@, id, disk) is Some {
            let own = unstaged_in_place(run.nodes, current.tree@, id, disk)->0;
            let parent = own[id as int].parent;
            assert(same_places(run.nodes, own));
            law_unstaging_upwards_only_clears(own, parent, own.len());
            let up = unstaging(own, parent, own.len()).nodes;
            assert(same_places(own, up));
            law_cleaning_upwards_only_clears(up, parent, up.len());
        }
    }
}

/// A walk moves no node: what lies below a directory stays below it.
pub proof fn law_walk_keeps_places(
    run: RunView,
    current: RevisionState,
    facts: UnstageFacts,
    id: NodeID,
    path: Seq<char>,
    levels: nat,
)
    ensures
        same_places(run.nodes, walked_node(run, current, facts, id, path, levels).run.nodes),
    decreases levels, 0nat, 0nat,
{
    lemma_visit_keeps_places(run, current, facts, id, path);
    let own = visited(run, current, facts, id, path);
    if !facts.ignores(id) && own.fault is None && goes_below(run, facts, id) && levels > 0
        && children(own.run.nodes, id) is Some {
        lemma_list_keeps_places(
            own.run,
            current,
            facts,
            children(own.run.nodes, id)->0,
            path,
            (levels - 1) as nat,
        );
    }
}

proof fn lemma_list_keeps_places(
    run: RunView,
    current: RevisionState,
    facts: UnstageFacts,
    ids: Seq<NodeID>,
    path: Seq<char>,
    levels: nat,
)
    ensures
        same_places(
            run.nodes,
            walked_list(run, current, facts, ids, path, levels).run.nodes,
        ),
    decreases levels, 1nat, ids.len(),
{
    if ids.len() > 0 {
        let below = joined(path, facts.names@[ids[0] as int]@);
        law_walk_keeps_places(run, current, facts, ids[0], below, levels);
        let after = walked_node(run, current, facts, ids[0], below, levels).run;
        lemma_list_keeps_places(after, current, facts, ids.drop_first(), path, levels);
    }
}

/// What a walk does with a directory that is staged, or whose unstaging is forced:
/// every child that it does not pass over is unstaged.
pub proof fn law_walk_enters_directories(
    run: RunView,
    current: RevisionState,
    facts: UnstageFacts,
    id: NodeID,
    path: Seq<char>,
    levels: nat,
    child: NodeID,
)
    requires
        walked_node(run, current, facts, id, path, levels).fault is None,
        id < run.nodes.len(),
        !facts.ignores(id),
        run.nodes[id as int].kind == NodeKind::Directory,
        run.nodes[id as int].staged || facts.force,
        !facts.single_node,
        children(run.nodes, id) is Some,
        children(run.nodes, id)->0.contains(child),
        !facts.ignores(child),
    ensures
        !walked_node(run, current, facts, id, path, levels).run.nodes[child as int].staged,
{
    let own = visited(run, current, facts, id, path).run;
    lemma_visit_keeps_places(run, current, facts, id, path);
    lemma_same_children(run.nodes, own.nodes, id);
    let ids = children(own.nodes, id)->0;
    let i = ids.index_of(child);
    law_walk_unstages_children(run, current, facts, id, path, levels, i);
}

/// A way down a tree: each node is a child of the one in front of it, which is a
/// directory, and none of them is passed over.
pub open spec fn is_way(nodes: Seq<Node>, facts: UnstageFacts, way: Seq<NodeID>) -> bool {
    &&& way.len() > 0
    &&& forall|i: int|
        0 <= i < way.len() ==> (#[trigger] way[i]) < nodes.len() && !facts.ignores(way[i])
    &&& forall|i: int|
        0 <= i < way.len() - 1 ==> {
            &&& nodes[(#[trigger] way[i]) as int].kind == NodeKind::Directory
            &&& children(nodes, way[i]) is Some
            &&& children(nodes, way[i])->0.contains(way[i + 1])
        }
}

/// The path of the last node of a way, where the first one has a path.
pub open spec fn path_along(facts: UnstageFacts, path: Seq<char>, way: Seq<NodeID>) -> Seq<char>
    decreases way.len(),
{
    if way.len() <= 1 {
        path
    } else {
        path_along(facts, joined(path, facts.names@[way[1] as int]@), way.drop_first())
    }
}

/// A node at a path was unstaged, and reported where it is a file.
pub open spec fn is_unstaged_at(run: RunView, id: NodeID, path: Seq<char>) -> bool {
    &&& !run.nodes[id as int].staged
    &&& run.nodes[id as int].kind == NodeKind::File ==> run.reports.contains(
        ReportView::File(path, LoreFileAction::Keep),
    )
}

proof fn lemma_way_in_same_places(
    a: Seq<Node>,
    b: Seq<Node>,
    facts: UnstageFacts,
    way: Seq<NodeID>,
)
    requires
        is_way(a, facts, way),
        same_places(a, b),
    ensures
        is_way(b, facts, way),
{
    assert forall|i: int| 0 <= i < way.len() - 1 implies {
        &&& b[(#[trigger] way[i]) as int].kind == NodeKind::Directory
        &&& children(b, way[i]) is Some
        &&& children(b, way[i])->0.contains(way[i + 1])
    } by {
        lemma_same_children(a, b, way[i]);
        assert(a[way[i] as int].kind == NodeKind::Directory);
        assert(b[way[i] as int].kind == a[way[i] as int].kind);
    }
}

proof fn lemma_way_below(nodes: Seq<Node>, facts: UnstageFacts, way: Seq<NodeID>)
    requires
        is_way(nodes, facts, way),
        way.len() > 1,
    ensures
        is_way(nodes, facts, way.drop_first()),
        way.drop_first()[0] == way[1],
        way.drop_first().last() == way.last(),
{
    let below = way.drop_first();
    assert forall|i: int| 0 <= i < below.len() implies (#[trigger] below[i]) < nodes.len()
        && !facts.ignores(below[i]) by {
        assert(below[i] == way[i + 1]);
    }
    assert forall|i: int| 0 <= i < below.len() - 1 implies {
        &&& nodes[(#[trigger] below[i]) as int].kind == NodeKind::Directory
        &&& children(nodes, below[i]) is Some
        &&& children(nodes, below[i])->0.contains(below[i + 1])
    } by {
        assert(below[i] == way[i + 1]);
    }
}

proof fn lemma_still_unstaged(before: RunView, after: RunView, id: NodeID, path: Seq<char>)
    requires
        is_unstaged_at(before, id, path),
        id < before.nodes.len(),
        stages_nothing(before.nodes, after.nodes),
        same_places(before.nodes, after.nodes),
        before.reports.is_prefix_of(after.reports),
    ensures
        is_unstaged_at(after, id, path),
{
    assert(after.nodes[id as int].kind == before.nodes[id as int].kind);
    let report = ReportView::File(path, LoreFileAction::Keep);
    if before.reports.contains(report) {
        let i = before.reports.index_of(report);
        assert(after.reports[i] == report);
    }
}

/// A forced unstage that does not fail reaches every node that a way leads to, at
/// whatever depth: each is unstaged, and each file is reported at its path.
pub proof fn law_forced_unstage_reaches_every_node(
    run: RunView,
    current: RevisionState,
    facts: UnstageFacts,
    way: Seq<NodeID>,
    path: Seq<char>,
    levels: nat,
)
    requires
        facts.force,
        !facts.single_node,
        is_way(run.nodes, facts, way),
        walked_node(run, current, facts, way[0], path, levels).fault is None,
    ensures
        is_unstaged_at(
            walked_node(run, current, facts, way[0], path, levels).run,
            way.last(),
            path_along(facts, path, way),
        ),
    decreases way.len(), 0nat, 0nat,
{
    let id = way[0];
    let own = visited(run, current, facts, id, path);
    let end = walked_node(run, current, facts, id, path, levels);
    assert(id < run.nodes.len() && !facts.ignores(id));
    law_visit_unstages(run, current, facts, id, path);
    lemma_visit_keeps_places(run, current, facts, id, path);
    law_walk_keeps_places(run, current, facts, id, path, levels);
    if way.len() == 1 {
        let node = run.nodes[id as int];
        assert(own.run.nodes[id as int].kind == node.kind);
        if node.kind == NodeKind::File {
            let report = ReportView::File(path, LoreFileAction::Keep);
            assert(own.run.reports[run.reports.len() as int] == report);
        }
        if goes_below(run, facts, id) {
            let ids = children(own.run.nodes, id)->0;
            lemma_list_stages_nothing(own.run, current, facts, ids, path, (levels - 1) as nat);
            lemma_list_goes_on(own.run, current, facts, ids, path, (levels - 1) as nat);
            lemma_list_keeps_places(own.run, current, facts, ids, path, (levels - 1) as nat);
            lemma_still_unstaged(own.run, end.run, id, path);
        }
    } else {
        lemma_way_below(run.nodes, facts, way);
        assert(run.nodes[id as int].kind == NodeKind::Directory);
        lemma_same_children(run.nodes, own.run.nodes, id);
        let ids = children(own.run.nodes, id)->0;
        let below = way.drop_first();
        let k = ids.index_of(way[1]);
        lemma_way_in_same_places(run.nodes, own.run.nodes, facts, below);
        lemma_forced_list_reaches(
            own.run,
            current,
            facts,
            ids,
            below,
            path,
            (levels - 1) as nat,
            k,
        );
    }
}

proof fn lemma_forced_list_reaches(
    run: RunView,
    current: RevisionState,
    facts: UnstageFacts,
    ids: Seq<NodeID>,
    way: Seq<NodeID>,
    path: Seq<char>,
    levels: nat,
    k: int,
)
    requires
        facts.force,
        !facts.single_node,
        is_way(run.nodes, facts, way),
        0 <= k < ids.len(),
        ids[k] == way[0],
        walked_list(run, current, facts, ids, path, levels).fault is None,
    ensures
        is_unstaged_at(
            walked_list(run, current, facts, ids, path, levels).run,
            way.last(),
            path_along(facts, joined(path, facts.names@[way[0] as int]@), way),
        ),
    decreases way.len(), 1nat, ids.len(),
{
    let below = joined(path, facts.names@[ids[0] as int]@);
    let first = walked_node(run, current, facts, ids[0], below, levels);
    let rest = ids.drop_first();
    law_walk_keeps_places(run, current, facts, ids[0], below, levels);
    lemma_way_in_same_places(run.nodes, first.run.nodes, facts, way);
    if k == 0 {
        law_forced_unstage_reaches_every_node(run, current, facts, way, below, levels);
        lemma_list_stages_nothing(first.run, current, facts, rest, path, levels);
        lemma_list_goes_on(first.run, current, facts, rest, path, levels);
        lemma_list_keeps_places(first.run, current, facts, rest, path, levels);
        assert(way[way.len() - 1] < first.run.nodes.len());
        lemma_still_unstaged(
            first.run,
            walked_list(first.run, current, facts, rest, path, levels).run,
            way.last(),
            path_along(facts, below, way),
        );
    } else {
        assert(rest[k - 1] == ids[k]);
        lemma_forced_list_reaches(first.run, current, facts, rest, way, path, levels, k - 1);
    }
}

/// A staged node that a walk comes to is unstaged and reported: a file as kept, and an
/// added link as deleted. A node that is not staged is left alone unless forced.
pub proof fn law_visited_nodes_are_reported(
    run: RunView,
    current: RevisionState,
    facts: UnstageFacts,
    id: NodeID,
    path: Seq<char>,
)
    requires
        id < run.nodes.len(),
    ensures
        ({
            let node = run.nodes[id as int];
            let after = visited(run, current, facts, id, path);
            &&& after.fault is None && node.kind == NodeKind::File && (node.staged || facts.force)
                ==> after.run.reports == run.reports.push(
                ReportView::File(path, LoreFileAction::Keep),
            )
            &&& after.fault is None && node.kind == NodeKind::Link && node.staged && node.action
                == NodeAction::Add ==> after.run.reports == run.reports.push(
                ReportView::File(path, LoreFileAction::Delete),
            ) && after.run.links.len() == run.links.len() - 1
            &&& !node.staged && !facts.force ==> after.run == run && after.fault is None
        }),
{
    let node = run.nodes[id as int];
    let after = visited(run, current, facts, id, path);
    lemma_link_position(run.links, node.link.repository, id);
    if node.kind != NodeKind::Directory {
        assert(demotions(demoted_files(run.nodes, id)) =~= Seq::empty());
    }
    if !node.staged && !facts.force {
        assert(demotions(demoted_files(run.nodes, id)) =~= Seq::empty());
        assert(after.run =~= run);
    }
}

/// A staged link that a walk comes to is followed into the revisions that both states
/// lead to, unless it was added or the walk is of a single node; it is noted as a link
/// whose pin may have to follow, and the links into the repository that changed are
/// marked.
pub proof fn law_visited_links_are_followed(
    run: RunView,
    current: RevisionState,
    facts: UnstageFacts,
    id: NodeID,
    path: Seq<char>,
)
    requires
        id < run.nodes.len(),
        run.nodes[id as int].kind == NodeKind::Link,
        run.nodes[id as int].staged || facts.force,
        !(run.nodes[id as int].staged && run.nodes[id as int].action == NodeAction::Add),
        visited(run, current, facts, id, path).fault is None,
    ensures
        ({
            let node = run.nodes[id as int];
            let there = current.tree@[id as int];
            let after = visited(run, current, facts, id, path).run;
            let key = (node.link.repository.data@, id, facts.repository.data@, path);
            &&& !facts.single_node && there.kind == NodeKind::Link ==> after.linked
                == run.linked.push(
                UnstageLinked {
                    repository: node.link.repository,
                    staged_revision: node.link.revision,
                    current_revision: there.link.revision,
                    node: node.child,
                },
            )
            &&& facts.single_node || there.kind != NodeKind::Link ==> after.linked == run.linked
            &&& after.tracker.contains_key(key)
            &&& forall|k: LinkKeyView|
                k != key && #[trigger] run.tracker.contains_key(k) ==> after.tracker.contains_pair(
                    k,
                    run.tracker[k] || k.0 == facts.repository.data@,
                )
        }),
{
}

/// Every file that is unstaged counts as one, an added link that is unstaged as one
/// that is discarded, and a directory that was walked as one.
pub proof fn law_unstaged_nodes_are_counted(
    run: RunView,
    current: RevisionState,
    facts: UnstageFacts,
    id: NodeID,
    path: Seq<char>,
)
    requires
        id < run.nodes.len(),
        visited(run, current, facts, id, path).fault is None,
    ensures
        ({
            let node = run.nodes[id as int];
            let before = run.stats;
            let after = visited(run, current, facts, id, path).run.stats;
            &&& node.kind == NodeKind::File && (node.staged || facts.force)
                && before.file_unstaged_count < u64::MAX ==> after == (UnstageStats {
                file_unstaged_count: (before.file_unstaged_count + 1) as u64,
                ..before
            })
            &&& node.kind == NodeKind::Link && node.staged && node.action == NodeAction::Add
                && before.file_discarded_count < u64::MAX ==> after == (UnstageStats {
                file_discarded_count: (before.file_discarded_count + 1) as u64,
                ..before
            })
            &&& node.kind == NodeKind::Link && !(node.staged && node.action == NodeAction::Add)
                ==> after == before
            &&& run.stats.directory_unstaged_count < u64::MAX ==> with_directory(run).stats == (
            UnstageStats {
                directory_unstaged_count: (before.directory_unstaged_count + 1) as u64,
                ..before
            })
        }),
{
}

/// An added directory that is unstaged reports every file below it as demoted, in the
/// order of the tree.
pub proof fn law_demoted_files_are_reported(
    run: RunView,
    current: RevisionState,
    facts: UnstageFacts,
    id: NodeID,
    path: Seq<char>,
    below: NodeID,
)
    requires
        id < run.nodes.len(),
        below < run.nodes.len(),
        run.nodes[id as int].kind == NodeKind::Directory,
        run.nodes[id as int].staged,
        run.nodes[id as int].action == NodeAction::Add,
        visited(run, current, facts, id, path).fault is None,
        descendants(run.nodes, id) is Some,
        descendants(run.nodes, id)->0.contains(below),
        run.nodes[below as int].kind != NodeKind::Directory,
    ensures
        visited(run, current, facts, id, path).run.reports.contains(ReportView::Demoted(below)),
{
    let cleared = run.nodes.update(id as int, run.nodes[id as int].without_staged());
    law_descendants_follow_links(run.nodes, cleared, id);
    let ids = descendants(run.nodes, id)->0;
    assert(cleared[below as int].kind == run.nodes[below as int].kind);
    lemma_files_of(cleared, ids, below);
    let files = files_of(cleared, ids);
    let i = files.index_of(below);
    let after = visited(run, current, facts, id, path).run.reports;
    assert(demoted_files(run.nodes, id) == files);
    assert(demotions(files)[i] == ReportView::Demoted(below));
    assert(after == run.reports + demotions(files));
    assert(after[run.reports.len() + i] == ReportView::Demoted(below));
}

proof fn lemma_files_of(nodes: Seq<Node>, ids: Seq<NodeID>, id: NodeID)
    requires
        ids.contains(id),
        nodes[id as int].kind != NodeKind::Directory,
    ensures
        files_of(nodes, ids).contains(id),
    decreases ids.len(),
{
    let before = files_of(nodes, ids.drop_last());
    let all = files_of(nodes, ids);
    if ids.last() == id {
        assert(all[all.len() - 1] == id);
    } else {
        let n = ids.index_of(id);
        assert(ids.drop_last()[n] == id);
        lemma_files_of(nodes, ids.drop_last(), id);
        let i = before.index_of(id);
        assert(all[i] == id);
    }
}

/// A run goes on from another: the header and what was reported and collected stay,
/// and a tree or registry that differs is marked as modified.
pub open spec fn goes_on(before: RunView, after: RunView) -> bool {
    &&& after.header == before.header
    &&& before.reports.is_prefix_of(after.reports)
    &&& before.linked.is_prefix_of(after.linked)
    &&& before.modified ==> after.modified
    &&& after.nodes != before.nodes || after.links != before.links ==> after.modified
}

/// What a walk has reported and collected stays, whether it succeeds or not, and a
/// state that it changes is marked as modified.
pub proof fn law_walk_goes_on(
    run: RunView,
    current: RevisionState,
    facts: UnstageFacts,
    id: NodeID,
    path: Seq<char>,
    levels: nat,
)
    ensures
        goes_on(run, walked_node(run, current, facts, id, path, levels).run),
    decreases levels, 0nat, 0nat,
{
    let own = visited(run, current, facts, id, path);
    assert(goes_on(run, own.run));
    if !facts.ignores(id) && own.fault is None && goes_below(run, facts, id) && levels > 0
        && children(own.run.nodes, id) is Some {
        lemma_list_goes_on(
            own.run,
            current,
            facts,
            children(own.run.nodes, id)->0,
            path,
            (levels - 1) as nat,
        );
    }
}

proof fn lemma_list_goes_on(
    run: RunView,
    current: RevisionState,
    facts: UnstageFacts,
    ids: Seq<NodeID>,
    path: Seq<char>,
    levels: nat,
)
    ensures
        goes_on(run, walked_list(run, current, facts, ids, path, levels).run),
    decreases levels, 1nat, ids.len(),
{
    if ids.len() > 0 {
        let below = joined(path, facts.names@[ids[0] as int]@);
        law_walk_goes_on(run, current, facts, ids[0], below, levels);
        let after = walked_node(run, current, facts, ids[0], below, levels).run;
        lemma_list_goes_on(after, current, facts, ids.drop_first(), path, levels);
    }
}

/// Unstages a node and everything below it.
fn unstage_below(
    run: &mut UnstageRun,
    current: &RevisionState,
    facts: &UnstageFacts,
    id: NodeID,
    path: &str,
    levels: usize,
) -> (result: Result<(), UnstageError>)
    requires
        facts.cover(old(run)@.nodes),
        id < old(run)@.nodes.len(),
    ensures
        ({
            let after = walked_node(old(run)@, *current, *facts, id, path@, levels as nat);
            &&& final(run)@ == after.run
            &&& result is Ok <==> after.fault is None
            &&& result matches Err(e) ==> after.fault == Some((e.kind, e.detail@))
        }),
    decreases levels, 0nat,
{
    if ignores_node(
        facts.names[id as usize].as_str(),
        facts.force,
        facts.excluded[id as usize],
    ) {
        return Ok(());
    }
    let node = run.staged.tree.nodes[id as usize];
    let below = node.is_directory() && (node.staged || facts.force) && !facts.single_node;
    assert(below == goes_below(run@, *facts, id));
    match visit(run, current, facts, id, path) {
        Ok(()) => {},
        Err(error) => {
            return Err(error);
        },
    }
    proof {
        law_visit_unstages(old(run)@, *current, *facts, id, path@);
    }
    if !below {
        return Ok(());
    }
    if levels == 0 {
        return Err(
            UnstageError {
                kind: ErrorKind::InvalidNodeHierarchy,
                detail: "Failed to list directory node children".to_owned(),
            },
        );
    }
    let ids = match run.staged.tree.node_children(id) {
        Ok(ids) => ids,
        Err(kind) => {
            return Err(
                UnstageError { kind, detail: "Failed to list directory node children".to_owned() },
            );
        },
    };
    proof {
        assert forall|i: int| 0 <= i < ids@.len() implies (#[trigger] ids@[i])
            < run@.nodes.len() by {
            law_children_name_their_parent(run@.nodes, id, i);
        }
    }
    match unstage_list(run, current, facts, &ids, path, levels - 1) {
        Ok(()) => {},
        Err(error) => {
            return Err(error);
        },
    }
    finish_directory(&mut run.stats);
    Ok(())
}

/// Unstages the nodes of a directory and everything below them.
fn unstage_list(
    run: &mut UnstageRun,
    current: &RevisionState,
    facts: &UnstageFacts,
    ids: &Vec<NodeID>,
    path: &str,
    levels: usize,
) -> (result: Result<(), UnstageError>)
    requires
        facts.cover(old(run)@.nodes),
        forall|i: int| 0 <= i < ids@.len() ==> (#[trigger] ids@[i]) < old(run)@.nodes.len(),
    ensures
        ({
            let after = walked_list(old(run)@, *current, *facts, ids@, path@, levels as nat);
            &&& final(run)@ == after.run
            &&& result is Ok <==> after.fault is None
            &&& result matches Err(e) ==> after.fault == Some((e.kind, e.detail@))
        }),
    decreases levels, 1nat,
{
    let mut i: usize = 0;
    assert(ids@.skip(0) =~= ids@);
    while i < ids.len()
        invariant
            i <= ids@.len(),
            facts.cover(run@.nodes),
            run@.nodes.len() == old(run)@.nodes.len(),
            forall|j: int| 0 <= j < ids@.len() ==> (#[trigger] ids@[j]) < run@.nodes.len(),
            walked_list(old(run)@, *current, *facts, ids@, path@, levels as nat) == walked_list(
                run@,
                *current,
                *facts,
                ids@.skip(i as int),
                path@,
                levels as nat,
            ),
        decreases ids@.len() - i,
    {
        let id = ids[i];
        assert(ids@.skip(i as int)[0] == id);
        assert(ids@.skip(i as int).drop_first() =~= ids@.skip(i + 1));
        let below = join(path, facts.names[id as usize].as_str());
        let ghost before = run@;
        match unstage_below(run, current, facts, id, below.as_str(), levels) {
            Ok(()) => {},
            Err(error) => {
                return Err(error);
            },
        }
        proof {
            law_walk_stages_nothing(before, *current, *facts, id, below@, levels as nat);
        }
        i = i + 1;
    }
    assert(ids@.skip(i as int).len() == 0);
    Ok(())
}

/// Unstaging a node and everything below it.
pub open spec fn subtree_unstaged(
    run: RunView,
    current: RevisionState,
    facts: UnstageFacts,
    id: NodeID,
    path: Seq<char>,
) -> WalkOutcome {
    walked_node(run, current, facts, id, path, run.nodes.len())
}

/// Unstaging everything below a directory.
pub open spec fn tree_unstaged(
    run: RunView,
    current: RevisionState,
    facts: UnstageFacts,
    directory: NodeID,
    path: Seq<char>,
) -> WalkOutcome {
    match children(run.nodes, directory) {
        Some(ids) => walked_list(run, current, facts, ids, path, run.nodes.len()),
        None => WalkOutcome { run, fault: unlisted(broken_links(run.nodes, directory)) },
    }
}

proof fn lemma_more_levels_unstage_alike(
    run: RunView,
    current: RevisionState,
    facts: UnstageFacts,
    id: NodeID,
    path: Seq<char>,
    levels: nat,
    more: nat,
)
    requires
        levels <= more,
        walked_node(run, current, facts, id, path, levels).fault is None,
    ensures
        walked_node(run, current, facts, id, path, more) == walked_node(
            run,
            current,
            facts,
            id,
            path,
            levels,
        ),
    decreases levels, 0nat, 0nat,
{
    let own = visited(run, current, facts, id, path);
    if !facts.ignores(id) && goes_below(run, facts, id) {
        lemma_more_levels_list_alike(
            own.run,
            current,
            facts,
            children(own.run.nodes, id)->0,
            path,
            (levels - 1) as nat,
            (more - 1) as nat,
        );
    }
}

proof fn lemma_more_levels_list_alike(
    run: RunView,
    current: RevisionState,
    facts: UnstageFacts,
    ids: Seq<NodeID>,
    path: Seq<char>,
    levels: nat,
    more: nat,
)
    requires
        levels <= more,
        walked_list(run, current, facts, ids, path, levels).fault is None,
    ensures
        walked_list(run, current, facts, ids, path, more) == walked_list(
            run,
            current,
            facts,
            ids,
            path,
            levels,
        ),
    decreases levels, 1nat, ids.len(),
{
    if ids.len() > 0 {
        let below = joined(path, facts.names@[ids[0] as int]@);
        let first = walked_node(run, current, facts, ids[0], below, levels);
        lemma_more_levels_unstage_alike(run, current, facts, ids[0], below, levels, more);
        lemma_more_levels_list_alike(
            first.run,
            current,
            facts,
            ids.drop_first(),
            path,
            levels,
            more,
        );
    }
}

/// An unstage operation goes as deep as the tree has nodes: whatever a walk over no more
/// levels than that comes to without failure, the operation comes to. Everything below
/// a directory is unstaged as its children are, one after the other.
pub proof fn law_unstage_goes_to_the_bottom(
    run: RunView,
    current: RevisionState,
    facts: UnstageFacts,
    id: NodeID,
    path: Seq<char>,
    levels: nat,
)
    requires
        levels <= run.nodes.len(),
    ensures
        walked_node(run, current, facts, id, path, levels).fault is None ==> subtree_unstaged(
            run,
            current,
            facts,
            id,
            path,
        ) == walked_node(run, current, facts, id, path, levels),
        children(run.nodes, id) matches Some(ids) ==> (walked_list(
            run,
            current,
            facts,
            ids,
            path,
            levels,
        ).fault is None ==> tree_unstaged(run, current, facts, id, path) == walked_list(
            run,
            current,
            facts,
            ids,
            path,
            levels,
        )),
{
    if walked_node(run, current, facts, id, path, levels).fault is None {
        lemma_more_levels_unstage_alike(
            run,
            current,
            facts,
            id,
            path,
            levels,
            run.nodes.len(),
        );
    }
    if let Some(ids) = children(run.nodes, id) {
        if walked_list(run, current, facts, ids, path, levels).fault is None {
            lemma_more_levels_list_alike(
                run,
                current,
                facts,
                ids,
                path,
                levels,
                run.nodes.len(),
            );
        }
    }
}

/// Unstages a node and everything below it. No path of a sound tree is longer
/// than the tree has nodes.
pub fn unstage_subtree(
    run: &mut UnstageRun,
    current: &RevisionState,
    facts: &UnstageFacts,
    id: NodeID,
    path: &str,
) -> (result: Result<(), UnstageError>)
    requires
        facts.cover(old(run)@.nodes),
        id < old(run)@.nodes.len(),
    ensures
        ({
            let after = subtree_unstaged(old(run)@, *current, *facts, id, path@);
            &&& final(run)@ == after.run
            &&& result is Ok <==> after.fault is None
            &&& result matches Err(e) ==> after.fault == Some((e.kind, e.detail@))
        }),
{
    let levels = run.staged.tree.nodes.len();
    unstage_below(run, current, facts, id, path, levels)
}

/// Unstages everything below a directory, as the whole repository is unstaged
/// from its root and a linked repository from the node that the link leads to.
pub fn unstage_tree(
    run: &mut UnstageRun,
    current: &RevisionState,
    facts: &UnstageFacts,
    directory: NodeID,
    path: &str,
) -> (result: Result<(), UnstageError>)
    requires
        facts.cover(old(run)@.nodes),
    ensures
        ({
            let after = tree_unstaged(old(run)@, *current, *facts, directory, path@);
            &&& final(run)@ == after.run
            &&& result is Ok <==> after.fault is None
            &&& result matches Err(e) ==> after.fault == Some((e.kind, e.detail@))
        }),
{
    let ids = match run.staged.tree.node_children(directory) {
        Ok(ids) => ids,
        Err(kind) => {
            return Err(
                UnstageError { kind, detail: "Failed to list directory node children".to_owned() },
            );
        },
    };
    proof {
        assert forall|i: int| 0 <= i < ids@.len() implies (#[trigger] ids@[i])
            < run@.nodes.len() by {
            law_children_name_their_parent(run@.nodes, directory, i);
        }
    }
    let levels = run.staged.tree.nodes.len();
    unstage_list(run, current, facts, &ids, path, levels)
}

} // verus!
