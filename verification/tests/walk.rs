use lore_revision::errors::ErrorKind;
use lore_revision::file::reset::walk::reset_subtree;
use lore_revision::file::reset::walk::reset_tree;
use lore_revision::file::reset::walk::ResetFacts;
use lore_revision::file::reset::walk::ResetRun;
use lore_revision::file::reset::ResetOptions;
use lore_revision::file::reset::ResetStats;
use lore_revision::file::unstage::walk::unstage_subtree;
use lore_revision::file::unstage::walk::unstage_tree;
use lore_revision::file::unstage::walk::UnstageFacts;
use lore_revision::file::unstage::walk::UnstageReport;
use lore_revision::file::unstage::walk::UnstageRun;
use lore_revision::file::unstage::DiscardList;
use lore_revision::file::unstage::DiskCheck;
use lore_revision::file::unstage::UnstageStats;
use lore_revision::layer::walk::walk_layer_subtree;
use lore_revision::layer::walk::LayerFacts;
use lore_revision::layer::LayerFileStat;
use lore_revision::layer::LayerFiles;
use lore_revision::link::LinkTracker;
use lore_revision::node::Node;
use lore_revision::node::NodeAction;
use lore_revision::node::NodeID;
use lore_revision::node::NodeKind;
use lore_revision::node::NodeLink;
use lore_revision::node::NodeTree;
use lore_revision::node::INVALID_NODE;
use lore_revision::state::RevisionState;
use lore_revision::types::ContentHash;
use lore_revision::types::Context;

fn hash(byte: u8) -> ContentHash {
    ContentHash::new([byte; 32])
}

fn context(byte: u8) -> Context {
    Context::new([byte; 16])
}

fn node(kind: NodeKind, parent: NodeID, sibling: NodeID, child: NodeID) -> Node {
    Node {
        kind,
        staged: false,
        dirty: false,
        action: NodeAction::Unchanged,
        discarded: false,
        parent,
        sibling,
        child,
        name_hash: 0,
        mode: 0,
        size: 0,
        link: NodeLink {
            repository: context(8),
            revision: hash(8),
            node: 80,
        },
    }
}

/// The root holds the directory 1, the file 4 and the link 5; the directory holds
/// the files 2 and 3.
fn sample() -> Vec<Node> {
    vec![
        node(NodeKind::Directory, INVALID_NODE, INVALID_NODE, 1),
        node(NodeKind::Directory, 0, 4, 2),
        node(NodeKind::File, 1, 3, INVALID_NODE),
        node(NodeKind::File, 1, INVALID_NODE, INVALID_NODE),
        node(NodeKind::File, 0, 5, INVALID_NODE),
        node(NodeKind::Link, 0, INVALID_NODE, INVALID_NODE),
    ]
}

fn names() -> Vec<String> {
    ["", "dir", "a", "b", "c", "mount"]
        .iter()
        .map(|name| name.to_string())
        .collect()
}

fn tree(nodes: Vec<Node>) -> NodeTree {
    NodeTree {
        nodes,
        modified: false,
    }
}

fn state(nodes: Vec<Node>) -> RevisionState {
    RevisionState {
        revision: hash(1),
        revision_number: 7,
        parent_self: hash(2),
        parent_other: ContentHash::default(),
        metadata_hash: ContentHash::default(),
        tree: tree(nodes),
        links: vec![],
    }
}

fn unstage_run(nodes: Vec<Node>) -> UnstageRun {
    UnstageRun {
        staged: state(nodes),
        tracker: LinkTracker::new(),
        discard: DiscardList::new(),
        stats: UnstageStats::default(),
        reports: vec![],
        linked: vec![],
    }
}

fn unstage_facts() -> UnstageFacts {
    UnstageFacts {
        repository: context(5),
        names: names(),
        excluded: vec![false; 6],
        disk: vec![
            DiskCheck::Modified,
            DiskCheck::Modified,
            DiskCheck::Modified,
            DiskCheck::Modified,
            DiskCheck::Modified,
            DiskCheck::Modified,
        ],
        force: false,
        single_node: false,
    }
}

fn staged_sample() -> Vec<Node> {
    let mut nodes = sample();
    for id in [0, 1, 2, 3, 4] {
        nodes[id].staged = true;
    }
    for id in [2, 3, 4] {
        nodes[id].action = NodeAction::Modify;
        nodes[id].size = 99;
    }
    nodes
}

fn reported_paths(run: &UnstageRun) -> Vec<String> {
    let mut paths = vec![];
    for report in &run.reports {
        match report {
            UnstageReport::File(event) => paths.push(event.path.clone()),
            UnstageReport::Demoted(id) => paths.push(format!("#{id}")),
        }
    }
    paths
}

#[test]
fn unstaging_the_root_unstages_everything() {
    let current = state(sample());
    let mut run = unstage_run(staged_sample());
    unstage_tree(&mut run, &current, &unstage_facts(), 0, "").unwrap();
    assert!(run.staged.tree.nodes.iter().all(|node| !node.staged));
    assert!(run.staged.tree.nodes.iter().all(|node| node.size == 0));
    assert_eq!(reported_paths(&run), vec!["dir/a", "dir/b", "c"]);
    assert_eq!(run.stats.file_unstaged_count, 3);
    assert_eq!(run.stats.directory_unstaged_count, 1);
}

#[test]
fn unstaging_passes_over_what_is_excluded() {
    let current = state(sample());
    let mut run = unstage_run(staged_sample());
    let mut facts = unstage_facts();
    facts.excluded[3] = true;
    unstage_subtree(&mut run, &current, &facts, 1, "dir").unwrap();
    assert!(!run.staged.tree.nodes[2].staged);
    assert!(run.staged.tree.nodes[3].staged);
    assert!(run.staged.tree.nodes[4].staged);
    assert_eq!(reported_paths(&run), vec!["dir/a"]);
    facts.force = true;
    unstage_subtree(&mut run, &current, &facts, 1, "dir").unwrap();
    assert!(!run.staged.tree.nodes[3].staged);
}

#[test]
fn unstaging_one_node_stops_there() {
    let current = state(sample());
    let mut run = unstage_run(staged_sample());
    let mut facts = unstage_facts();
    facts.single_node = true;
    unstage_subtree(&mut run, &current, &facts, 1, "dir").unwrap();
    assert!(!run.staged.tree.nodes[1].staged);
    assert!(run.staged.tree.nodes[2].staged);
    assert!(run.reports.is_empty());
}

#[test]
fn unstaging_an_addition_demotes_what_it_holds() {
    let current = state(sample());
    let mut nodes = staged_sample();
    for id in [1, 2, 3] {
        nodes[id].action = NodeAction::Add;
        nodes[id].dirty = true;
    }
    let mut run = unstage_run(nodes);
    unstage_subtree(&mut run, &current, &unstage_facts(), 1, "dir").unwrap();
    for id in [1, 2, 3] {
        assert!(!run.staged.tree.nodes[id].staged);
        assert!(run.staged.tree.nodes[id].dirty);
    }
    assert_eq!(reported_paths(&run), vec!["#2", "#3"]);
}

#[test]
fn unstaging_a_broken_tree_fails() {
    let current = state(sample());
    let mut nodes = staged_sample();
    nodes[3].parent = 0;
    let mut run = unstage_run(nodes);
    let error = unstage_subtree(&mut run, &current, &unstage_facts(), 1, "dir").unwrap_err();
    assert_eq!(error.kind, ErrorKind::InvalidNodeHierarchy);
}

fn reset_run(nodes: Vec<Node>) -> ResetRun {
    ResetRun {
        staged: tree(nodes),
        stats: ResetStats::default(),
        files: vec![],
        created: vec![],
        purged: vec![],
        linked: vec![],
    }
}

fn reset_facts(purge: bool) -> ResetFacts {
    ResetFacts {
        names: names(),
        excluded: vec![false; 6],
        staged_links: vec![None; 6],
        force: false,
        options: ResetOptions {
            purge,
            single_node: false,
        },
    }
}

#[test]
fn reset_collects_files_links_and_purges() {
    let mut nodes = sample();
    nodes[1].dirty = true;
    nodes[2].dirty = true;
    let mut run = reset_run(nodes);
    let failure = reset_tree(&mut run, &tree(sample()), &reset_facts(true), 0, "");
    assert!(failure.is_none());
    assert!(run.staged.nodes.iter().all(|node| !node.dirty));
    let files: Vec<&str> = run.files.iter().map(|item| item.path.as_str()).collect();
    assert_eq!(files, vec!["dir/a", "dir/b", "c"]);
    let purged: Vec<&str> = run.purged.iter().map(|item| item.path.as_str()).collect();
    assert_eq!(purged, vec!["dir", ""]);
    assert_eq!(run.linked.len(), 1);
    assert_eq!(run.linked[0].path, "mount");
    assert_eq!(run.stats.directory_reset_count, 2);
}

#[test]
fn reset_creates_empty_directories() {
    let mut target = sample();
    target[1].child = INVALID_NODE;
    let mut run = reset_run(sample());
    assert!(reset_subtree(&mut run, &tree(target), &reset_facts(false), 1, "dir").is_none());
    assert_eq!(run.created, vec!["dir".to_string()]);
    assert!(run.files.is_empty() && run.purged.is_empty());
}

#[test]
fn reset_purges_empty_directories() {
    let mut target = sample();
    target[1].child = INVALID_NODE;
    let mut run = reset_run(sample());
    assert!(reset_subtree(&mut run, &tree(target), &reset_facts(true), 1, "dir").is_none());
    assert_eq!(run.created, vec!["dir".to_string()]);
    assert_eq!(run.purged.len(), 1);
    assert_eq!((run.purged[0].node, run.purged[0].path.as_str()), (1, "dir"));
}

#[test]
fn walks_mark_what_they_change() {
    let mut run = reset_run(sample());
    assert!(reset_tree(&mut run, &tree(sample()), &reset_facts(false), 0, "").is_none());
    assert!(!run.staged.modified);
    let mut nodes = sample();
    nodes[2].dirty = true;
    let mut run = reset_run(nodes);
    assert!(reset_tree(&mut run, &tree(sample()), &reset_facts(false), 0, "").is_none());
    assert!(run.staged.modified);
    let mut run = unstage_run(staged_sample());
    run.staged.parent_other = hash(6);
    unstage_tree(&mut run, &state(sample()), &unstage_facts(), 0, "").unwrap();
    assert!(run.staged.tree.modified);
    assert_eq!(run.staged.parent_other, hash(6));
    assert_eq!(run.staged.revision_number, 7);
}

#[test]
fn reset_refuses_staged_nodes() {
    let mut nodes = sample();
    nodes[3].staged = true;
    let mut run = reset_run(nodes);
    let failure = reset_subtree(&mut run, &tree(sample()), &reset_facts(false), 1, "dir");
    assert_eq!(failure.unwrap().kind, ErrorKind::InvalidArguments);
    assert!(run.staged.nodes[3].staged);
}

#[test]
fn reset_reports_a_staged_file_before_broken_links() {
    let mut nodes = sample();
    nodes[2].staged = true;
    let mut target = sample();
    target[3].parent = 0;
    let mut run = reset_run(nodes);
    let failure = reset_subtree(&mut run, &tree(target.clone()), &reset_facts(false), 1, "dir");
    assert_eq!(failure.unwrap().detail, "Failed to reset staged node");
    let mut run = reset_run(sample());
    let failure = reset_subtree(&mut run, &tree(target), &reset_facts(false), 1, "dir").unwrap();
    assert_eq!(failure.kind, ErrorKind::InvalidNodeHierarchy);
    assert_eq!(failure.detail, "Invalid node hierarchy in reset walk");
}

#[test]
fn reset_walks_what_lies_beside_a_failing_directory() {
    let mut nodes = sample();
    nodes[3].staged = true;
    let mut run = reset_run(nodes);
    let failure = reset_tree(&mut run, &tree(sample()), &reset_facts(true), 0, "").unwrap();
    assert_eq!(failure.detail, "Failed to reset staged node");
    let files: Vec<&str> = run.files.iter().map(|item| item.path.as_str()).collect();
    assert_eq!(files, vec!["dir/a", "c"]);
    assert_eq!(run.linked.len(), 1);
    assert!(run.purged.is_empty());
    assert_eq!(run.stats.directory_reset_count, 2);
}

#[test]
fn a_failed_file_ends_the_walk_of_its_directory() {
    let mut nodes = sample();
    nodes[4].staged = true;
    let mut run = reset_run(nodes);
    let failure = reset_tree(&mut run, &tree(sample()), &reset_facts(false), 0, "");
    assert!(failure.is_some());
    assert_eq!(run.files.len(), 2);
    assert!(run.linked.is_empty());
}

#[test]
fn a_failed_walk_keeps_what_it_did() {
    let current = state(sample());
    let mut nodes = staged_sample();
    nodes[3].parent = 77;
    nodes[2].sibling = INVALID_NODE;
    let mut run = unstage_run(nodes);
    unstage_subtree(&mut run, &current, &unstage_facts(), 2, "dir/a").unwrap();
    let reports = run.reports.len();
    let error = unstage_subtree(&mut run, &current, &unstage_facts(), 3, "dir/b").unwrap_err();
    assert_eq!(error.detail, "Failed to check node children");
    assert_eq!(run.reports.len(), reports);
    assert!(!run.staged.tree.nodes[3].staged);
    assert!(run.staged.tree.modified);
}

#[test]
fn reset_tells_of_a_missing_parent() {
    let mut nodes = sample();
    nodes[2].dirty = true;
    nodes[2].parent = 77;
    let mut run = reset_run(nodes);
    let failure = reset_subtree(&mut run, &tree(sample()), &reset_facts(false), 2, "dir/a");
    let failure = failure.unwrap();
    assert_eq!(failure.kind, ErrorKind::NodeNotFound);
    assert_eq!(failure.detail, "Failed to check dirty children");
    assert!(!run.staged.nodes[2].dirty && run.staged.modified);
    assert!(run.files.is_empty());
}

#[test]
fn unstaging_tells_why_it_fails() {
    let mut nodes = staged_sample();
    nodes[2].parent = 77;
    let mut run = unstage_run(nodes);
    let error = unstage_subtree(&mut run, &state(sample()), &unstage_facts(), 2, "dir/a")
        .unwrap_err();
    assert_eq!(error.kind, ErrorKind::NodeNotFound);
    assert_eq!(error.detail, "Failed to check node children");
    let mut run = unstage_run(staged_sample());
    let error = unstage_subtree(&mut run, &state(vec![]), &unstage_facts(), 2, "dir/a")
        .unwrap_err();
    assert_eq!(error.kind, ErrorKind::NodeNotFound);
    assert_eq!(error.detail, "Failed deserializing state node block");
}

#[test]
fn layer_files_are_found_below_directories() {
    let facts = LayerFacts {
        names: names(),
        stats: vec![
            LayerFileStat::Missing,
            LayerFileStat::Missing,
            LayerFileStat::File { modified: false },
            LayerFileStat::File { modified: true },
            LayerFileStat::OtherType,
            LayerFileStat::Missing,
        ],
    };
    let mut found = LayerFiles {
        files: vec![],
        directories: vec![],
        modified: vec![],
    };
    walk_layer_subtree(&tree(sample()), &facts, 0, "over", &mut found).unwrap();
    assert_eq!(found.directories, vec!["over/dir"]);
    assert_eq!(found.files, vec!["over/dir/a", "over/dir/b", "over/c"]);
    assert_eq!(
        found.modified,
        vec![
            "over/dir/b",
            "over/c (type changed)",
            "over/mount (missing)"
        ]
    );
    let mut broken = sample();
    broken[3].parent = 0;
    let mut found = LayerFiles {
        files: vec![],
        directories: vec![],
        modified: vec![],
    };
    let error = walk_layer_subtree(&tree(broken), &facts, 0, "over", &mut found).unwrap_err();
    assert_eq!(found.directories, vec!["over/dir"]);
    assert!(found.files.is_empty());
    assert_eq!(error.kind, ErrorKind::InvalidNodeHierarchy);
    assert_eq!(error.inner(), "Failed to iterate layer state children");
}
