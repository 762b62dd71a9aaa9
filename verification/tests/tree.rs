use lore_revision::errors::ErrorKind;
use lore_revision::file::info::add_sizes;
use lore_revision::file::info::calculate_filtered_size;
use lore_revision::file::info::calculate_local_filtered_size_hash;
use lore_revision::file::info::has_filtered_size;
use lore_revision::file::info::calculate_local_size;
use lore_revision::file::info::check_readable;
use lore_revision::file::info::info;
use lore_revision::file::info::info_added;
use lore_revision::file::info::info_path;
use lore_revision::file::info::DiskEntry;
use lore_revision::file::info::InfoNode;
use lore_revision::file::info::InfoOptions;
use lore_revision::file::info::LocalEntry;
use lore_revision::file::info::LocalFile;
use lore_revision::file::info::LocalFiltered;
use lore_revision::file::reset;
use lore_revision::file::reset::ResetFile;
use lore_revision::file::reset::ResetOptions;
use lore_revision::file::reset::ResetStart;
use lore_revision::file::reset::ResetStats;
use lore_revision::file::reset::ResetWalk;
use lore_revision::file::reset::RevisionInfo;
use lore_revision::file::reset::StagedAnchor;
use lore_revision::file::reset::TargetReply;
use lore_revision::file::reset::TargetSearch;
use lore_revision::file::unstage;
use lore_revision::file::unstage::DiscardList;
use lore_revision::file::unstage::DiskCheck;
use lore_revision::file::unstage::UnstageNext;
use lore_revision::file::unstage::UnstageOptions;
use lore_revision::file::unstage::UnstageStart;
use lore_revision::file::unstage::UnstageStats;
use lore_revision::change::LoreFileAction;
use lore_revision::link::BranchPoint;
use lore_revision::link::LinkContext;
use lore_revision::link::LinkTracker;
use lore_revision::node::Node;
use lore_revision::node::NodeAction;
use lore_revision::node::NodeID;
use lore_revision::node::NodeKind;
use lore_revision::node::NodeLink;
use lore_revision::node::NodeTree;
use lore_revision::node::INVALID_NODE;
use lore_revision::state::LinkReference;
use lore_revision::state::RevisionState;
use lore_revision::types::Address;
use lore_revision::types::ContentHash;
use lore_revision::types::Context;

fn hash(byte: u8) -> ContentHash {
    ContentHash::new([byte; 32])
}

fn context(byte: u8) -> Context {
    Context::new([byte; 16])
}

fn node(kind: NodeKind, parent: NodeID, sibling: NodeID, child: NodeID) -> Node {
    Node {
        kind,
        staged: false,
        dirty: false,
        action: NodeAction::Unchanged,
        discarded: false,
        parent,
        sibling,
        child,
        name_hash: 0,
        mode: 0,
        size: 0,
        link: NodeLink {
            repository: Context::default(),
            revision: ContentHash::default(),
            node: INVALID_NODE,
        },
    }
}

/// The root holds the directory 1 and the file 4; the directory holds the files
/// 2 and 3.
fn sample() -> Vec<Node> {
    let mut nodes = vec![
        node(NodeKind::Directory, INVALID_NODE, INVALID_NODE, 1),
        node(NodeKind::Directory, 0, 4, 2),
        node(NodeKind::File, 1, 3, INVALID_NODE),
        node(NodeKind::File, 1, INVALID_NODE, INVALID_NODE),
        node(NodeKind::File, 0, INVALID_NODE, INVALID_NODE),
    ];
    nodes[2].size = 10;
    nodes[3].size = 20;
    nodes[4].size = 5;
    nodes
}

fn tree(nodes: Vec<Node>) -> NodeTree {
    NodeTree {
        nodes,
        modified: false,
    }
}

fn state(nodes: Vec<Node>) -> RevisionState {
    RevisionState {
        revision: hash(1),
        revision_number: 7,
        parent_self: hash(2),
        parent_other: ContentHash::default(),
        metadata_hash: ContentHash::default(),
        tree: tree(nodes),
        links: vec![],
    }
}

#[test]
fn children_come_in_sibling_order() {
    let tree = tree(sample());
    assert_eq!(tree.node_children(0).unwrap(), vec![1, 4]);
    assert_eq!(tree.node_children(1).unwrap(), vec![2, 3]);
    assert_eq!(tree.node_descendants(0).unwrap(), vec![1, 2, 3, 4]);
    assert_eq!(tree.node_children(9).unwrap_err(), ErrorKind::NodeNotFound);
}

#[test]
fn broken_siblings_are_found() {
    let mut nodes = sample();
    nodes[3].parent = 0;
    let broken = tree(nodes);
    assert_eq!(
        broken.node_children(1).unwrap_err(),
        ErrorKind::InvalidNodeHierarchy
    );
    let (walked, failure) = broken.walk_children(1);
    assert_eq!(walked, vec![2]);
    assert_eq!(failure, Some(ErrorKind::InvalidNodeHierarchy));
    let mut nodes = sample();
    nodes[3].sibling = 2;
    assert_eq!(
        tree(nodes).node_children(1).unwrap_err(),
        ErrorKind::InvalidNodeHierarchy
    );
}

#[test]
fn dirty_parents_are_cleaned_with_their_last_dirty_child() {
    let mut nodes = sample();
    nodes[1].dirty = true;
    nodes[2].dirty = true;
    nodes[3].dirty = true;
    let mut tree = tree(nodes);
    tree.node_clear_dirty(2).unwrap();
    assert!(!tree.nodes[2].dirty);
    assert!(tree.nodes[1].dirty);
    tree.node_clear_dirty(3).unwrap();
    assert!(!tree.nodes[1].dirty);
    assert!(tree.modified);
}

fn unstage_one(
    staged: &mut RevisionState,
    current: &RevisionState,
    id: NodeID,
    single_node: bool,
) -> (
    Result<unstage::UnstageOutcome, unstage::UnstageError>,
    UnstageStats,
    DiscardList,
    LinkTracker,
) {
    let mut tracker = LinkTracker::new();
    let mut discard = DiscardList::new();
    let mut stats = UnstageStats::default();
    let result = unstage::unstage_node(
        staged,
        current,
        context(5),
        id,
        "dir/file",
        "dir/file",
        false,
        UnstageOptions { single_node },
        DiskCheck::Modified,
        &mut tracker,
        &mut discard,
        &mut stats,
    );
    (result, stats, discard, tracker)
}

#[test]
fn unstaged_modification_gets_its_content_back() {
    let current = state(sample());
    let mut nodes = sample();
    nodes[0].staged = true;
    nodes[1].staged = true;
    nodes[2].staged = true;
    nodes[2].dirty = true;
    nodes[2].action = NodeAction::Modify;
    nodes[2].size = 99;
    let mut staged = state(nodes);
    let (result, stats, _, _) = unstage_one(&mut staged, &current, 2, false);
    let outcome = result.unwrap();
    assert!(matches!(outcome.next, UnstageNext::Done));
    assert_eq!(outcome.event.unwrap().action, LoreFileAction::Keep);
    assert_eq!(stats.file_unstaged_count, 1);
    assert!(!staged.tree.nodes[2].staged && staged.tree.nodes[2].dirty);
    assert_eq!(staged.tree.nodes[2].size, 10);
    assert!(!staged.tree.nodes[1].staged && !staged.tree.nodes[0].staged);
}

#[test]
fn added_directory_survives_as_dirty_additions() {
    let current = state(vec![node(
        NodeKind::Directory,
        INVALID_NODE,
        INVALID_NODE,
        INVALID_NODE,
    )]);
    let mut nodes = sample();
    for id in [1, 2, 3] {
        nodes[id].staged = true;
        nodes[id].dirty = true;
        nodes[id].action = NodeAction::Add;
    }
    let mut staged = state(nodes);
    let (result, stats, _, _) = unstage_one(&mut staged, &current, 1, true);
    let outcome = result.unwrap();
    assert_eq!(outcome.demoted, vec![2, 3]);
    assert_eq!(stats.file_unstaged_count, 2);
    for id in [1, 2, 3] {
        assert!(!staged.tree.nodes[id].staged && staged.tree.nodes[id].dirty);
    }
}

#[test]
fn unstaged_node_is_left_alone() {
    let current = state(sample());
    let mut staged = state(sample());
    let (result, stats, _, _) = unstage_one(&mut staged, &current, 2, false);
    assert!(result.unwrap().event.is_none());
    assert_eq!(stats.file_unstaged_count, 0);
    assert!(!staged.tree.modified);
}

#[test]
fn added_link_is_discarded() {
    let current = state(sample());
    let mut nodes = sample();
    nodes[4].kind = NodeKind::Link;
    nodes[4].staged = true;
    nodes[4].action = NodeAction::Add;
    nodes[4].link.repository = context(8);
    let mut staged = state(nodes);
    let (missing, stats, _, _) = unstage_one(&mut staged, &current, 4, false);
    assert_eq!(missing.unwrap_err().kind, ErrorKind::LinkNotFound);
    assert_eq!(stats, UnstageStats::default());
    assert!(staged.tree.nodes[4].staged && !staged.tree.modified);
    staged.links.push(LinkReference {
        repository: context(8),
        branch: context(9),
        signature: hash(3),
        local_node: 4,
        flags: 0,
    });
    let (result, stats, discard, tracker) = unstage_one(&mut staged, &current, 4, false);
    assert_eq!(result.unwrap().event.unwrap().action, LoreFileAction::Delete);
    assert!(staged.links.is_empty());
    assert_eq!(stats.file_discarded_count, 1);
    let batches = unstage::discard_nodes(&discard, context(5), &tracker);
    assert_eq!(batches.len(), 1);
    assert_eq!(batches[0].nodes, vec![4]);
    assert!(batches[0].link.is_none());
}

#[test]
fn nodes_of_links_are_discarded_in_their_own_repository() {
    let mut tracker = LinkTracker::new();
    tracker.add_link(LinkContext {
        link_repository_id: context(8),
        link_node_id: 4,
        parent_repository_id: context(5),
        link_path: "mount".to_string(),
    });
    let mut discard = DiscardList::new();
    discard.push(context(5), 1);
    discard.push(context(8), 2);
    discard.push(context(8), 3);
    let batches = unstage::discard_nodes(&discard, context(5), &tracker);
    assert_eq!(batches.len(), 2);
    for batch in &batches {
        if batch.repository == context(8) {
            assert_eq!(batch.nodes, vec![2, 3]);
            assert_eq!(batch.link.as_ref().unwrap().link_path, "mount");
        } else {
            assert_eq!(batch.nodes, vec![1]);
        }
    }
}

#[test]
fn unstage_of_a_directory_lists_its_children() {
    let names: Vec<String> = ["", "dir", "a", "b", "c"]
        .iter()
        .map(|name| name.to_string())
        .collect();
    let children = unstage::unstage_directory(&tree(sample()), &names, 1, "dir").unwrap();
    assert_eq!(children.len(), 2);
    assert_eq!(children[0].node, 2);
    assert_eq!(children[0].path, "dir/a");
    assert_eq!(children[1].path, "dir/b");
    let error = unstage::unstage_directory(&tree(sample()), &names, 9, "dir").unwrap_err();
    assert_eq!(error.kind, ErrorKind::NodeNotFound);
}

#[test]
fn unstage_starts_where_the_path_says() {
    let all = UnstageOptions { single_node: false };
    let one = UnstageOptions { single_node: true };
    assert_eq!(
        unstage::unstage_path("", false, false, all),
        UnstageStart::Root
    );
    assert_eq!(
        unstage::unstage_path("", false, false, one),
        UnstageStart::Skip
    );
    assert_eq!(
        unstage::unstage_path("a", false, true, all),
        UnstageStart::Skip
    );
    assert_eq!(
        unstage::unstage_path("a", true, true, all),
        UnstageStart::Node
    );
    assert!(unstage::requests_clear("", false));
    assert!(!unstage::requests_clear("", true));
    assert!(!unstage::should_clear(true, false, true, true));
    assert!(unstage::should_clear(false, false, false, false));
}

#[test]
fn unstage_totals_add_up() {
    let stats = UnstageStats {
        directory_unstaged_count: 1,
        directory_discarded_count: 2,
        file_unstaged_count: 3,
        file_discarded_count: 4,
    };
    assert_eq!(stats.count_data().total_count, 10);
}

#[test]
fn staged_node_is_not_reset() {
    let mut nodes = sample();
    nodes[2].staged = true;
    let mut staged = tree(nodes);
    let mut stats = ResetStats::default();
    let options = ResetOptions {
        purge: false,
        single_node: false,
    };
    let error = reset::reset_walk_node(
        &sample()[2],
        2,
        &mut staged,
        None,
        false,
        false,
        options,
        &mut stats,
    )
    .unwrap_err();
    assert_eq!(error.kind, ErrorKind::InvalidArguments);
    assert_eq!(stats, ResetStats::default());
    let purge = ResetOptions {
        purge: true,
        single_node: false,
    };
    let error =
        reset::reset_missing_path(&mut staged, Some(2), "dir/a", purge, &mut stats).unwrap_err();
    assert_eq!(error.detail, "Failed to reset staged node");
    assert_eq!(stats, ResetStats::default());
    assert!(staged.nodes[2].staged && !staged.modified);
}

#[test]
fn reset_cleans_a_dirty_node() {
    let mut nodes = sample();
    nodes[1].dirty = true;
    nodes[2].dirty = true;
    let mut staged = tree(nodes);
    let mut stats = ResetStats::default();
    let options = ResetOptions {
        purge: false,
        single_node: false,
    };
    let walk = reset::reset_walk_node(
        &sample()[2],
        2,
        &mut staged,
        None,
        false,
        false,
        options,
        &mut stats,
    )
    .unwrap();
    assert!(matches!(walk, ResetWalk::File));
    assert!(!staged.nodes[2].dirty && !staged.nodes[1].dirty);
    let walk = reset::reset_walk_directory(&staged, 1, "dir", options);
    assert_eq!(walk.children, vec![2, 3]);
    assert!(!walk.create && walk.failure.is_none());
    assert_eq!(walk.purge, options.purge);
}

#[test]
fn reset_of_a_missing_path_forgets_a_dirty_addition() {
    let mut nodes = sample();
    nodes[2].dirty = true;
    nodes[2].action = NodeAction::Add;
    let mut staged = tree(nodes);
    let mut stats = ResetStats::default();
    let options = ResetOptions {
        purge: false,
        single_node: false,
    };
    let missing =
        reset::reset_missing_path(&mut staged, Some(2), "dir/a", options, &mut stats).unwrap();
    assert_eq!(missing.discard, Some(2));
    assert!(missing.delete.is_none());
    let purge = ResetOptions {
        purge: true,
        single_node: false,
    };
    let missing = reset::reset_missing_path(&mut staged, None, "x", purge, &mut stats).unwrap();
    assert_eq!(missing.delete.unwrap().action, LoreFileAction::Delete);
    assert_eq!(stats.file_delete_count, 1);
}

#[test]
fn unmodified_file_is_kept_or_renamed() {
    let mut stats = ResetStats::default();
    let file = reset::reset_file_realize("d/a", "d", "a", "a", false, Some(false), &mut stats);
    assert!(matches!(file, ResetFile::Keep));
    assert_eq!(stats.file_reset_count, 0);
    let file = reset::reset_file_realize("d/A", "d", "A", "a", false, Some(false), &mut stats);
    match file {
        ResetFile::Rename { to_path, event } => {
            assert_eq!(to_path, "d/a");
            assert_eq!(event.from_path, "d/A");
        }
        _ => panic!("the name differs"),
    }
    let file = reset::reset_file_realize("d/a", "d", "a", "a", false, Some(true), &mut stats);
    assert!(matches!(file, ResetFile::Realize { .. }));
    assert_eq!(stats.file_reset_count, 2);
}

#[test]
fn purge_takes_what_the_revision_does_not_have() {
    let entry = |name: &str, excluded: bool| reset::DiskEntry {
        name: name.to_string(),
        excluded,
    };
    let entries = vec![
        entry("kept", false),
        entry("stray", false),
        entry("ignored", true),
        entry(".lore", false),
    ];
    let mut stats = ResetStats::default();
    let paths = reset::purge_directory(
        "dir",
        &entries,
        &vec!["kept".to_string()],
        false,
        &mut stats,
    );
    assert_eq!(paths, vec!["dir/stray".to_string()]);
}

#[test]
fn permits_follow_the_queue() {
    assert_eq!(reset::reset_file_consume(0, reset::RESET_FILE_MAX), 0);
    let added = reset::reset_file_consume(reset::RESET_FILE_MAX * 10, 0);
    assert_eq!(added, reset::RESET_FILE_MAX);
    assert!(reset::runs_inline(reset::RESET_DIRECTORY_MAX + 1));
    assert!(!reset::runs_inline(reset::RESET_DIRECTORY_MAX));
}

#[test]
fn reset_target_and_anchor() {
    assert_eq!(reset::reset_target("", hash(1), None).unwrap(), hash(1));
    assert_eq!(
        reset::reset_target("r", hash(1), Some(hash(2))).unwrap(),
        hash(2)
    );
    assert_eq!(
        reset::reset_target("r", hash(1), None).unwrap_err().kind,
        ErrorKind::RevisionNotFound
    );
    assert_eq!(reset::reset(false, false, false), StagedAnchor::Keep);
    assert_eq!(reset::reset(true, false, true), StagedAnchor::Serialize);
    assert_eq!(reset::reset(true, false, false), StagedAnchor::Delete);
    let options = ResetOptions {
        purge: false,
        single_node: true,
    };
    assert_eq!(reset::reset_walk_path("", options), ResetStart::Skip);
}

#[test]
fn last_merge_of_a_branch_is_found() {
    let stack = vec![BranchPoint {
        branch: context(2),
        revision: hash(9),
    }];
    let point = reset::reset_to_last_merged("main", Some(context(2)), context(1), &stack).unwrap();
    assert_eq!(point.revision, hash(9));
    let error =
        reset::reset_to_last_merged("main", Some(context(3)), context(1), &stack).unwrap_err();
    assert_eq!(error.kind, ErrorKind::BranchNotFound);
    let info = |revision: u8, number: u64, parent: u8, other: u8| RevisionInfo {
        revision: hash(revision),
        revision_number: number,
        parent_self: hash(parent),
        parent_other: if other == 0 {
            ContentHash::default()
        } else {
            hash(other)
        },
    };
    let current = info(5, 5, 4, 7);
    let end = info(9, 1, 0, 0);
    let search = reset::start_last_merged_target(current, true, hash(9));
    assert!(matches!(search, TargetSearch::ReadEnd { .. }));
    let search = reset::resolve_last_merged_target(
        search,
        TargetReply::State {
            info: end,
            has_node: true,
        },
        context(2),
        hash(9),
    );
    assert!(matches!(search, TargetSearch::ReadMerged { .. }));
}

#[test]
fn sizes_leave_out_what_is_excluded() {
    let tree = tree(sample());
    let none = vec![false; 5];
    assert_eq!(calculate_filtered_size(&tree, &none, 0).unwrap(), 35);
    assert_eq!(calculate_filtered_size(&tree, &none, 1).unwrap(), 30);
    let mut excluded = none.clone();
    excluded[3] = true;
    assert_eq!(calculate_filtered_size(&tree, &excluded, 0).unwrap(), 15);
    excluded[1] = true;
    assert_eq!(calculate_filtered_size(&tree, &excluded, 0).unwrap(), 5);
}

#[test]
fn sizes_that_do_not_add_up_are_told() {
    let mut nodes = sample();
    nodes[2].size = u64::MAX;
    let large = tree(nodes);
    let mut excluded = vec![false; 5];
    assert!(!has_filtered_size(&large, &excluded, 0));
    excluded[3] = true;
    excluded[4] = true;
    assert!(has_filtered_size(&large, &excluded, 0));
    assert_eq!(
        calculate_filtered_size(&large, &excluded, 0).unwrap(),
        u64::MAX
    );
}

#[test]
fn sizes_follow_what_is_below_a_link() {
    let mut nodes = sample();
    nodes[1].kind = NodeKind::Link;
    assert_eq!(
        calculate_filtered_size(&tree(nodes), &vec![false; 5], 0).unwrap(),
        35
    );
}

#[test]
fn sizes_of_broken_trees_fail() {
    let mut nodes = sample();
    nodes[3].parent = 0;
    let error = calculate_filtered_size(&tree(nodes), &vec![false; 5], 0).unwrap_err();
    assert_eq!(error.kind, ErrorKind::InvalidNodeHierarchy);
    let mut nodes = sample();
    nodes[3].sibling = 77;
    let error = calculate_filtered_size(&tree(nodes), &vec![false; 5], 0).unwrap_err();
    assert_eq!(error.kind, ErrorKind::Internal);
}

#[test]
fn local_sizes_leave_out_repository_state() {
    assert_eq!(
        calculate_local_size(".lore", LocalEntry::Directory, false),
        Some(0)
    );
    assert_eq!(
        calculate_local_size("a", LocalEntry::File(3), false),
        Some(3)
    );
    assert_eq!(
        calculate_local_size("a", LocalEntry::File(3), true),
        Some(0)
    );
    assert_eq!(calculate_local_size("d", LocalEntry::Directory, false), None);
    assert_eq!(
        calculate_local_size("x", LocalEntry::Missing, false),
        Some(0)
    );
    assert_eq!(add_sizes(&vec![1, 2, 3]), 6);
    assert_eq!(add_sizes(&vec![3, 1, 2]), 6);
}

fn info_node(kind: NodeKind, id: NodeID) -> InfoNode {
    InfoNode {
        id,
        kind,
        size: 10,
        mode: 0o644,
        address: Address {
            hash: hash(4),
            context: context(6),
        },
    }
}

#[test]
fn file_info_compares_with_the_disk() {
    let node = info_node(NodeKind::File, 2);
    let same = DiskEntry::File(LocalFile {
        size: 10,
        hash: hash(4),
    });
    let event = info_path(
        "dir/a".to_string(),
        &node,
        100,
        LocalFiltered::default(),
        same,
    );
    assert_eq!((event.flag_modified, event.flag_deleted), (0, 0));
    assert_eq!(event.context, context(6));
    assert_eq!((event.is_file, event.is_dir), (1, 0));
    assert_eq!(event.size, 10);
    assert_eq!(event.local_hash, hash(4));
    let other = DiskEntry::File(LocalFile {
        size: 10,
        hash: hash(5),
    });
    let event = info_path("a".to_string(), &node, 0, LocalFiltered::default(), other);
    assert_eq!(event.flag_modified, 1);
    let longer = DiskEntry::File(LocalFile {
        size: 11,
        hash: hash(4),
    });
    let event = info_path("a".to_string(), &node, 0, LocalFiltered::default(), longer);
    assert_eq!(event.flag_modified, 1);
    assert!(event.local_hash.is_zero());
    let event = info_path(
        "a".to_string(),
        &node,
        0,
        LocalFiltered::default(),
        DiskEntry::Missing,
    );
    assert_eq!(event.flag_deleted, 1);
}

#[test]
fn root_info_has_the_size_of_the_tree() {
    let node = info_node(NodeKind::Directory, 0);
    let event = info_path(
        String::new(),
        &node,
        1234,
        LocalFiltered::default(),
        DiskEntry::Other,
    );
    assert_eq!(event.size, 1234);
    assert!(event.context.is_zero());
    assert_eq!(event.is_dir, 1);
}

#[test]
fn local_and_filtered_sizes_depend_on_the_node() {
    let file = Some(LocalFile {
        size: 12,
        hash: hash(3),
    });
    let known =
        calculate_local_filtered_size_hash(&info_node(NodeKind::File, 2), false, file, None, None);
    assert_eq!(known.local_size, 12);
    assert_eq!(known.local_hash, hash(3));
    assert_eq!(known.filtered_size, 10);
    let known = calculate_local_filtered_size_hash(
        &info_node(NodeKind::Directory, 1),
        false,
        None,
        Some(7),
        Some(8),
    );
    assert_eq!((known.local_size, known.filtered_size), (7, 8));
    let known =
        calculate_local_filtered_size_hash(&info_node(NodeKind::File, 2), true, file, None, None);
    assert_eq!((known.local_size, known.filtered_size), (0, 0));
}

#[test]
fn paths_outside_the_revision_are_added() {
    let event = info_added("new".to_string(), true, false, 9).unwrap();
    assert_eq!((event.flag_added, event.is_file, event.local_size), (1, 1, 9));
    assert!(info_added("gone".to_string(), false, false, 0).is_none());
    assert_eq!(
        check_readable("a", false).unwrap_err().kind,
        ErrorKind::FileNotFound
    );
}

#[test]
fn info_is_about_the_named_revision() {
    let named = InfoOptions {
        revision: Some("r".to_string()),
        local: false,
        filtered: false,
    };
    assert_eq!(info(&named, Some(hash(2)), hash(1)).unwrap(), hash(2));
    let error = info(&named, None, hash(1)).unwrap_err();
    assert_eq!(error.kind, ErrorKind::RevisionNotFound);
    assert_eq!(error.inner(), "r");
}
