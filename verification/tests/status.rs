use lore_revision::change::ChangeFlags;
use lore_revision::change::ChangeSide;
use lore_revision::change::FileAction;
use lore_revision::change::LoreFileAction;
use lore_revision::change::LoreNodeType;
use lore_revision::change::NodeChange;
use lore_revision::errors::ErrorKind;
use lore_revision::link::BranchPoint;
use lore_revision::node::Node;
use lore_revision::node::NodeAction;
use lore_revision::node::NodeKind;
use lore_revision::node::NodeLink;
use lore_revision::node::NodeTree;
use lore_revision::node::INVALID_NODE;
use lore_revision::repository::status;
use lore_revision::repository::status::BranchPosition;
use lore_revision::repository::status::CountChild;
use lore_revision::repository::status::CountNext;
use lore_revision::repository::status::CountNode;
use lore_revision::repository::status::CountShared;
use lore_revision::repository::status::DirtyFile;
use lore_revision::repository::status::FileStat;
use lore_revision::repository::status::LayerRevisions;
use lore_revision::repository::status::LayerSource;
use lore_revision::repository::status::LoreRepositoryStatusFileEventData;
use lore_revision::repository::status::RemoteBranch;
use lore_revision::repository::status::StagedChange;
use lore_revision::repository::status::StatusError;
use lore_revision::repository::status::StatusOptions;
use lore_revision::repository::status::StatusRevisions;
use lore_revision::repository::status::StatusSummaryStats;
use lore_revision::repository::status::SyncPointMerge;
use lore_revision::repository::status::SyncPointStep;
use lore_revision::repository::verify;
use lore_revision::repository::verify::FragmentMatch;
use lore_revision::repository::verify::FragmentReport;
use lore_revision::repository::verify::NodeFacts;
use lore_revision::repository::verify::RemoteVerification;
use lore_revision::repository::verify::StoreMatch;
use lore_revision::repository::verify::VerifyFragmentArgs;
use lore_revision::state::RevisionState;
use lore_revision::types::Address;
use lore_revision::types::ContentHash;
use lore_revision::types::Context;

fn hash(byte: u8) -> ContentHash {
    ContentHash::new([byte; 32])
}

fn context(byte: u8) -> Context {
    Context::new([byte; 16])
}

fn node(kind: NodeKind, parent: u32, sibling: u32, child: u32) -> Node {
    Node {
        kind,
        staged: false,
        dirty: false,
        action: NodeAction::Unchanged,
        discarded: false,
        parent,
        sibling,
        child,
        name_hash: 0,
        mode: 0,
        size: 0,
        link: NodeLink {
            repository: context(8),
            revision: hash(8),
            node: 80,
        },
    }
}

fn tree() -> NodeTree {
    let mut file = node(NodeKind::File, 0, INVALID_NODE, INVALID_NODE);
    file.dirty = true;
    file.size = 30;
    NodeTree {
        nodes: vec![
            node(NodeKind::Directory, INVALID_NODE, INVALID_NODE, 1),
            file,
        ],
        modified: false,
    }
}

fn change(action: FileAction, stage: bool, dirty: bool) -> NodeChange {
    NodeChange {
        path: "a".to_string(),
        from_path: None,
        action,
        from: ChangeSide {
            tree: 0,
            node: 1,
            kind: NodeKind::File,
        },
        to: ChangeSide {
            tree: 0,
            node: 1,
            kind: NodeKind::File,
        },
        flags: ChangeFlags {
            stage,
            dirty,
            merge: true,
            conflict: true,
            conflict_unresolved: true,
            conflict_automerged: false,
            conflict_mine: false,
            conflict_theirs: false,
        },
    }
}

fn options() -> StatusOptions {
    StatusOptions {
        staged: false,
        scan: false,
        check_dirty: false,
        reset: false,
        sync_point: false,
        revision_only: false,
        count: false,
    }
}

#[test]
fn file_event_describes_the_change() {
    let event = LoreRepositoryStatusFileEventData::from_node_change(
        &change(FileAction::Add, true, false),
        9,
    );
    assert_eq!(event.action, LoreFileAction::Add);
    assert_eq!(event.node_type, LoreNodeType::File);
    assert_eq!((event.flag_staged, event.flag_dirty), (1, 0));
    assert_eq!(event.size, 9);
    assert_eq!(event.merged_as_string_short(), "(M)");
    assert_eq!(event.conflict_as_string_short(), "!");
}

#[test]
fn summary_counts_each_action() {
    let mut stats = StatusSummaryStats::default();
    for action in [
        FileAction::Add,
        FileAction::Add,
        FileAction::Delete,
        FileAction::Keep,
        FileAction::Move,
        FileAction::Copy,
    ] {
        stats.classify(&change(action, false, true));
    }
    let data = stats.event_data();
    assert_eq!((data.adds, data.deletes, data.modifies), (2, 1, 1));
    assert_eq!((data.moves, data.copies), (1, 1));
    assert!(status::status_summary(&options(), &stats).is_none());
    let mut scan = options();
    scan.scan = true;
    assert_eq!(status::status_summary(&scan, &stats).unwrap().adds, 2);
}

#[test]
fn sizes_come_from_the_tree_or_the_disk() {
    let kept = change(FileAction::Keep, false, true);
    assert_eq!(
        status::file_size_from_node_change_id(&kept, &vec![tree()]).unwrap(),
        30
    );
    let deleted = change(FileAction::Delete, false, true);
    assert_eq!(
        status::file_size_from_node_change_id(&deleted, &vec![tree()]).unwrap(),
        0
    );
    assert_eq!(
        status::file_size_from_node_change_path(&kept, FileStat::Size(4), false).unwrap(),
        4
    );
    assert_eq!(
        status::file_size_from_node_change_path(&kept, FileStat::NotFound, false).unwrap(),
        0
    );
    assert_eq!(
        status::file_size_from_node_change_path(&kept, FileStat::PermissionDenied, false)
            .unwrap_err()
            .inner(),
        "accessing metadata for file a"
    );
}

#[test]
fn stale_dirty_flag_is_cleared() {
    let kept = change(FileAction::Keep, false, true);
    let mut trees = vec![tree()];
    assert!(!status::dirty_change_is_modified(&kept, &mut trees, DirtyFile::Unmodified).unwrap());
    assert!(!trees[0].nodes[1].dirty);
    let mut trees = vec![tree()];
    assert!(status::dirty_change_is_modified(&kept, &mut trees, DirtyFile::Modified).unwrap());
    assert!(trees[0].nodes[1].dirty);
    let added = change(FileAction::Add, false, true);
    assert!(status::dirty_change_is_modified(&added, &mut trees, DirtyFile::Unmodified).unwrap());
    assert_eq!(
        status::dirty_change_is_modified(
            &kept,
            &mut trees,
            DirtyFile::Failed(ErrorKind::NotFound)
        )
        .unwrap_err()
        .kind,
        ErrorKind::NotFound
    );
    assert!(!trees[0].modified);
}

#[test]
fn linked_changes_stay_in_their_own_tree() {
    let mut linked = tree();
    linked.nodes[1].size = 77;
    let mut kept = change(FileAction::Keep, true, true);
    kept.to.tree = 1;
    let mut trees = vec![tree(), linked];
    assert_eq!(
        status::file_size_from_node_change_id(&kept, &trees).unwrap(),
        77
    );
    let mut checked = options();
    checked.check_dirty = true;
    let mut summary = StatusSummaryStats::default();
    let reported = status::report_staged_changes(
        &vec![kept],
        &vec![DirtyFile::Unmodified],
        &mut trees,
        &checked,
        &mut summary,
    );
    assert!(reported.failure.is_none());
    assert_eq!((reported.events[0].size, reported.events[0].flag_dirty), (77, 0));
    assert!(trees[0].nodes[1].dirty && !trees[0].modified);
    assert!(!trees[1].nodes[1].dirty && trees[1].modified);
}

#[test]
fn a_failed_cleaning_leaves_what_it_cleared() {
    let kept = change(FileAction::Keep, false, true);
    let mut broken = tree();
    broken.nodes[1].parent = 99;
    let mut trees = vec![broken];
    let error = status::dirty_change_is_modified(&kept, &mut trees, DirtyFile::Unmodified)
        .unwrap_err();
    assert_eq!(error.kind, ErrorKind::NodeNotFound);
    assert_eq!(error.inner(), "clearing stale dirty flag");
    assert!(!trees[0].nodes[1].dirty && trees[0].modified);
}

#[test]
fn changes_are_reported_staged_or_scanned() {
    let mut scan = options();
    scan.scan = true;
    assert_eq!(
        status::staged_change(&change(FileAction::Keep, false, true), &scan),
        StagedChange::Skip
    );
    let mut check = options();
    check.check_dirty = true;
    assert_eq!(
        status::staged_change(&change(FileAction::Keep, false, true), &check),
        StagedChange::Verify
    );
    assert_eq!(
        status::staged_change(&change(FileAction::Keep, true, false), &options()),
        StagedChange::Report
    );
    let mut summary = StatusSummaryStats::default();
    let dirty = change(FileAction::Keep, false, true);
    assert_eq!(status::staged_change_event(&dirty, true, 1).flag_dirty, 0);
    assert_eq!(status::staged_change_event(&dirty, false, 1).flag_dirty, 1);
    let staged = change(FileAction::Keep, true, false);
    assert!(status::report_scanned_change(&staged, 1, &mut summary).is_none());
    assert!(status::report_scanned_change(&dirty, 1, &mut summary).is_some());
    assert_eq!(summary.modifies, 1);
}

#[test]
fn unknown_paths_are_ignored() {
    assert_eq!(
        status::status_paths(None).len(),
        1,
    );
    assert_eq!(
        status::status_paths(Some(vec!["a".to_string()])),
        vec![Some("a".to_string())]
    );
    let (scan, ignored) = status::scan_path(Some("x"), false, false);
    assert!(!scan);
    assert_eq!(ignored.unwrap().path, "x");
    assert!(status::scan_path(Some("x"), false, true).0);
    assert!(status::scan_path(None, false, false).0);
}

#[test]
fn pool_counts_until_nothing_is_left() {
    let mut pool = CountShared::new(vec![(1, 0, "".to_string())]);
    let work = match pool.next() {
        CountNext::Work(work) => work,
        _ => panic!("there is work"),
    };
    assert_eq!(work, (1, 0, "".to_string()));
    assert!(matches!(pool.next(), CountNext::Wait));
    pool.finish(Ok((2, 3, vec![(1, 4, "d".to_string())])));
    assert!(matches!(pool.next(), CountNext::Work((1, 4, _))));
    pool.finish(Ok((0, 5, vec![])));
    assert!(matches!(pool.next(), CountNext::Done));
    assert_eq!(pool.into_counts().unwrap(), (2, 8));
}

#[test]
fn first_failure_of_a_pool_is_kept() {
    let work = |node: u32| (1, node, String::new());
    let mut pool = CountShared::new(vec![work(1), work(2), work(3)]);
    assert!(matches!(pool.next(), CountNext::Work(_)));
    assert!(matches!(pool.next(), CountNext::Work(_)));
    let failure = |detail: &str| StatusError {
        kind: ErrorKind::NodeNotFound,
        detail: detail.to_string(),
    };
    pool.finish(Err(failure("first")));
    pool.finish(Err(failure("second")));
    assert!(matches!(pool.next(), CountNext::Done));
    assert_eq!(pool.into_counts().unwrap_err().inner(), "first");
    assert_eq!(status::count_workers(0), 1);
    assert_eq!(status::count_workers(1000), status::COUNT_MAX_CONCURRENCY);
}

#[test]
fn children_are_counted_without_what_is_excluded() {
    let child = |id, kind, name: &str, excluded| CountChild {
        node_id: id,
        node: node(kind, 0, INVALID_NODE, INVALID_NODE),
        name: name.to_string(),
        excluded,
    };
    let count = status::count_node_children(
        "top",
        &vec![
            child(1, NodeKind::File, "f", false),
            child(2, NodeKind::Directory, "d", false),
            child(3, NodeKind::Link, "l", false),
            child(4, NodeKind::Directory, "x", true),
        ],
    );
    assert_eq!((count.files, count.directories), (1, 2));
    assert_eq!(count.pushed.len(), 2);
    assert_eq!(count.pushed[0].path, "top/d");
    assert_eq!(count.pushed[1].node_id, 80);
    let root = status::count_at_path_root("", "", None);
    assert_eq!((root.directories, root.files), (1, 0));
    let file = status::count_at_path_root(
        "f",
        "f",
        Some(CountNode {
            node_id: 1,
            node: node(NodeKind::File, 0, INVALID_NODE, INVALID_NODE),
        }),
    );
    assert_eq!((file.directories, file.files), (0, 1));
    let data = status::count_total(&vec![root, file], 4, 5);
    assert_eq!((data.directories, data.files), (5, 6));
}

#[test]
fn layers_count_as_staged() {
    let layers = vec![LayerRevisions {
        current: hash(1),
        staged: hash(2),
    }];
    assert!(status::has_staged_changes(false, &layers));
    let layers = vec![LayerRevisions {
        current: hash(1),
        staged: hash(1),
    }];
    assert!(!status::has_staged_changes(false, &layers));
    let mounts = status::layer_mounts(&vec![
        LayerSource {
            target_path: "a".to_string(),
            source_node: None,
        },
        LayerSource {
            target_path: "b".to_string(),
            source_node: Some(4),
        },
    ]);
    assert_eq!(mounts.len(), 1);
    assert_eq!((mounts[0].layer, mounts[0].source_node), (1, 4));
    let part = status::select_layer(Some("mount/sub"), true, "src", "mount").unwrap();
    assert_eq!((part.source.as_str(), part.target.as_str()), ("src/sub", "mount/sub"));
    assert!(status::select_layer(Some("other"), false, "src", "mount").is_none());
}

#[test]
fn sides_of_a_branch_are_compared() {
    let position = |local: u8, local_number, remote: u8, remote_number, diverged| BranchPosition {
        local_latest: hash(local),
        local_number,
        remote_latest: hash(remote),
        remote_number,
        last_sync: hash(remote),
        diverged,
    };
    assert_eq!(
        status::branch_ahead(&position(1, 4, 1, Some(4), true)),
        (false, false)
    );
    assert_eq!(
        status::branch_ahead(&position(1, 4, 2, Some(5), false)),
        (false, true)
    );
    assert_eq!(
        status::branch_ahead(&position(1, 5, 2, Some(4), true)),
        (true, false)
    );
    assert_eq!(
        status::branch_ahead(&position(1, 5, 2, Some(5), true)),
        (true, true)
    );
    assert_eq!(
        status::branch_ahead(&position(1, 5, 2, None, true)),
        (false, false)
    );
}

#[test]
fn sync_point_is_the_last_merge_of_the_parent() {
    assert!(matches!(
        status::start_sync_point(false, hash(1), hash(2)),
        SyncPointStep::Found(revision) if revision.is_zero()
    ));
    assert!(matches!(
        status::start_sync_point(true, hash(1), hash(2)),
        SyncPointStep::Search(from) if from == hash(2)
    ));
    assert!(matches!(
        status::sync_point_candidate(Some(hash(1)), hash(1)),
        SyncPointStep::Found(revision) if revision == hash(1)
    ));
    assert!(matches!(
        status::sync_point_candidate(Some(hash(5)), hash(1)),
        SyncPointStep::Inspect(revision) if revision == hash(5)
    ));
    let merge = SyncPointMerge {
        parent_self: hash(4),
        merged: hash(6),
        merged_branch: context(2),
    };
    assert!(matches!(
        status::sync_point_merge(merge, context(2)),
        SyncPointStep::Found(revision) if revision == hash(6)
    ));
    assert!(matches!(
        status::sync_point_merge(merge, context(3)),
        SyncPointStep::Search(from) if from == hash(4)
    ));
    assert!(status::is_sync_candidate(hash(1), ContentHash::default(), hash(1)));
    assert!(!status::is_sync_candidate(hash(2), ContentHash::default(), hash(1)));
    let origin = status::branch_origin(&vec![BranchPoint {
        branch: context(1),
        revision: hash(1),
    }]);
    assert_eq!(origin.branch, context(1));
    assert!(status::branch_origin(&vec![]).branch.is_zero());
}

#[test]
fn status_reports_both_sides() {
    let data = status::status(&StatusRevisions {
        repository: context(1),
        branch: context(2),
        branch_name: "main".to_string(),
        current: hash(3),
        current_number: 3,
        staged: hash(4),
        staged_parent_other: hash(5),
        has_staged: false,
        sync_point: hash(6),
        local_latest: hash(7),
        local: hash(7),
        local_number: 7,
        remote: RemoteBranch::Latest(hash(8)),
        remote_number: Some(8),
        last_sync: hash(7),
        diverged: false,
        remote_available: true,
    });
    assert!(data.revision_staged.is_zero());
    assert_eq!(data.revision_merged, hash(5));
    assert_eq!(data.revision_remote, hash(8));
    assert_eq!((data.is_local_ahead, data.is_remote_ahead), (0, 1));
    assert_eq!((data.remote_authorized, data.remote_branch_exist), (1, 1));
    assert_eq!(
        status::remote_branch_answer(RemoteBranch::Unknown),
        (None, false)
    );
    assert_eq!(
        status::remote_branch_answer(RemoteBranch::BranchNotFound),
        (None, true)
    );
}

#[test]
fn a_remote_without_the_branch_has_no_revision() {
    let data = status::status(&StatusRevisions {
        repository: context(1),
        branch: context(2),
        branch_name: "main".to_string(),
        current: hash(3),
        current_number: 3,
        staged: hash(4),
        staged_parent_other: hash(5),
        has_staged: true,
        sync_point: hash(6),
        local_latest: hash(7),
        local: hash(7),
        local_number: 7,
        remote: RemoteBranch::BranchNotFound,
        remote_number: Some(9),
        last_sync: hash(7),
        diverged: true,
        remote_available: true,
    });
    assert_eq!(data.revision_staged, hash(4));
    assert!(data.revision_remote.is_zero());
    assert_eq!(data.revision_remote_number, 0);
    assert_eq!((data.is_local_ahead, data.is_remote_ahead), (0, 0));
    assert_eq!((data.remote_authorized, data.remote_branch_exist), (1, 0));
}

#[test]
fn steps_lead_to_the_sync_point() {
    let merge = |from: u8, merged: u8, branch: u8| SyncPointMerge {
        parent_self: hash(from),
        merged: hash(merged),
        merged_branch: context(branch),
    };
    let finds = [
        (Some(hash(20)), merge(21, 22, 5)),
        (Some(hash(23)), merge(24, 25, 9)),
    ];
    let mut searched = vec![];
    let mut step = status::start_sync_point(true, hash(1), hash(10));
    for (found, merge) in finds {
        match step {
            SyncPointStep::Search(from) => searched.push(from),
            _ => panic!("the search goes on"),
        }
        step = status::sync_point_candidate(found, hash(1));
        if let SyncPointStep::Inspect(_) = step {
            step = status::sync_point_merge(merge, context(9));
        }
    }
    assert_eq!(searched, vec![hash(10), hash(21)]);
    assert!(matches!(step, SyncPointStep::Found(revision) if revision == hash(25)));
}

fn revision_state(modified: bool) -> RevisionState {
    let mut nodes = tree();
    nodes.modified = modified;
    RevisionState {
        revision: hash(1),
        revision_number: 7,
        parent_self: hash(2),
        parent_other: hash(3),
        metadata_hash: hash(4),
        tree: nodes,
        links: vec![],
    }
}

#[test]
fn scanned_state_is_written_once() {
    let mut scan = options();
    scan.scan = true;
    let mut state = revision_state(true);
    assert!(status::status_finish(false, &scan, true, hash(9), &mut state));
    assert_eq!(state.revision_number, 0);
    assert_eq!(state.parent_self, hash(9));
    assert!(state.parent_other.is_zero() && state.metadata_hash.is_zero());
    let mut state = revision_state(true);
    assert!(!status::status_finish(false, &scan, false, hash(9), &mut state));
    let mut state = revision_state(false);
    assert!(!status::status_finish(true, &scan, true, hash(9), &mut state));
}

fn facts(path: Option<&str>, name_hash: u64) -> NodeFacts {
    NodeFacts {
        block: 2,
        index: 3,
        flags: 0x1F,
        path: path.map(|text| text.to_string()),
        name: "name".to_string(),
        name_hash,
    }
}

#[test]
fn committed_nodes_carry_no_change_flags() {
    let mut staged = node(NodeKind::File, 0, INVALID_NODE, INVALID_NODE);
    staged.staged = true;
    let error = verify::verify_node_single(&staged, 1, &facts(Some("a"), 0), false).unwrap_err();
    assert!(error
        .inner()
        .starts_with("Repository verification failed: Block 2 node 3 has staged flag: a"));
    assert!(error.inner().contains("0x1f"));
    assert!(verify::verify_node_single(&staged, 1, &facts(Some("a"), 0), true).unwrap());
    let sound = node(NodeKind::File, 0, INVALID_NODE, INVALID_NODE);
    assert!(verify::verify_node_single(&sound, 1, &facts(Some("a"), 5), false).is_err());
    let mut unused = sound;
    unused.discarded = true;
    assert!(!verify::verify_node_single(&unused, 1, &facts(None, 0), false).unwrap());
}

#[test]
fn sound_tree_is_verified() {
    let all = || vec![facts(None, 0), facts(Some("a"), 0)];
    let mut sound = tree();
    sound.nodes[1].dirty = false;
    verify::verify_node(&sound, &all(), false, 0).unwrap();
    let mut broken = tree();
    broken.nodes[1].parent = 1;
    let error = verify::verify_node(&broken, &all(), false, 0).unwrap_err();
    assert_eq!(error.kind, ErrorKind::InvalidNodeHierarchy);
    assert_eq!(verify::verify_start(None, None).unwrap(), 0);
    assert_eq!(verify::verify_start(Some("a"), Some(4)).unwrap(), 4);
    assert!(verify::verify_start(Some("a"), None).is_err());
}

#[test]
fn healed_state_is_written() {
    let mut state = revision_state(true);
    assert!(verify::verify(&mut state, false, true, hash(9)));
    assert_eq!((state.parent_self, state.revision_number), (hash(9), 0));
    assert!(state.parent_other.is_zero());
    let mut state = revision_state(true);
    assert!(!verify::verify(&mut state, true, false, hash(9)));
    assert_eq!(state.parent_other, hash(3));
    assert!(verify::verify_end(None).healed_staged_state.is_zero());
    assert_eq!(
        verify::verify_end(Some(hash(5))).healed_staged_state,
        hash(5)
    );
}

#[test]
fn fragment_is_named_by_hash_and_context() {
    let args = |hash: String, context: String| VerifyFragmentArgs {
        hash,
        context,
        heal: false,
    };
    let (address, wanted) =
        verify::verify_fragment(&args(hash(1).to_text(), String::new())).unwrap();
    assert_eq!(address.hash, hash(1));
    assert!(address.context.is_zero());
    assert!(matches!(wanted, StoreMatch::MatchHash));
    let (address, wanted) =
        verify::verify_fragment(&args(hash(1).to_text(), context(2).to_text())).unwrap();
    assert_eq!(address.context, context(2));
    assert!(matches!(wanted, StoreMatch::MatchFull));
    assert_eq!(
        verify::verify_fragment(&args("xyz".to_string(), String::new()))
            .unwrap_err()
            .inner(),
        "Invalid address"
    );
}

#[test]
fn fragment_reports_are_events() {
    let address = Address {
        hash: hash(1),
        context: context(2),
    };
    let report = FragmentReport {
        group_index: 1,
        bucket_index: 2,
        index_path: "p".to_string(),
        entry_count: 3,
        packfile_entry_count: 4,
        matches: vec![FragmentMatch {
            slot: 5,
            index: 6,
            partition: context(7),
            address,
            flags: 8,
            size_payload: 9,
            size_content: 10,
            pack_offset: 11,
            pack_file: 12,
            last_access: 13,
        }],
        failure: None,
    };
    let event = verify::verify_fragment_local(hash(1), &report);
    assert_eq!((event.group_index, event.match_count), (1, 1));
    assert_eq!((event.matches[0].slot, event.matches[0].last_access), (5, 13));
    assert_eq!(event.error, "");
    let (event, result) = verify::verify_fragment_remote(
        address,
        &RemoteVerification::Verified {
            corrupted: true,
            healed: false,
        },
    );
    assert_eq!((event.corrupted, event.healed), (1, 0));
    assert!(result.is_ok());
    let (event, result) = verify::verify_fragment_remote(
        address,
        &RemoteVerification::Failed("broken".to_string()),
    );
    assert_eq!(event.error, "Verification failed: broken");
    assert_eq!(
        result.unwrap_err().inner(),
        "Repository verification failed: Verification failed: broken"
    );
}

#[test]
fn staged_changes_are_listed_in_order() {
    let mut trees = vec![tree()];
    let mut summary = StatusSummaryStats::default();
    let mut plain = options();
    plain.staged = true;
    let changes = vec![
        change(FileAction::Add, true, false),
        change(FileAction::Keep, false, true),
        change(FileAction::Move, false, false),
    ];
    let files = vec![
        DirtyFile::Modified,
        DirtyFile::Unmodified,
        DirtyFile::Modified,
    ];
    let reported =
        status::report_staged_changes(&changes, &files, &mut trees, &plain, &mut summary);
    assert!(reported.failure.is_none());
    let events = reported.events;
    assert_eq!(events.len(), 2);
    assert_eq!((events[0].flag_staged, events[1].flag_dirty), (1, 1));
    assert_eq!((summary.adds, summary.modifies), (0, 1));

    let mut checked = options();
    checked.check_dirty = true;
    let mut summary = StatusSummaryStats::default();
    let reported =
        status::report_staged_changes(&changes, &files, &mut trees, &checked, &mut summary);
    assert!(reported.failure.is_none());
    assert_eq!(reported.events.len(), 1);
    assert_eq!(summary.modifies, 0);
    assert!(!trees[0].nodes[1].dirty);
}

#[test]
fn events_before_a_failure_are_kept() {
    let mut trees = vec![tree()];
    let mut checked = options();
    checked.check_dirty = true;
    let mut summary = StatusSummaryStats::default();
    let changes = vec![
        change(FileAction::Add, true, true),
        change(FileAction::Keep, false, true),
        change(FileAction::Delete, true, false),
    ];
    let failing = vec![
        DirtyFile::Modified,
        DirtyFile::Failed(ErrorKind::AddressNotFound),
        DirtyFile::Modified,
    ];
    let reported =
        status::report_staged_changes(&changes, &failing, &mut trees, &checked, &mut summary);
    assert_eq!(reported.events.len(), 1);
    assert_eq!(reported.events[0].flag_staged, 1);
    assert_eq!(reported.failure.unwrap().kind, ErrorKind::AddressNotFound);
    assert_eq!((summary.adds, summary.modifies), (1, 0));

    let mut lost = change(FileAction::Keep, false, true);
    lost.to.node = 50;
    let changes = vec![change(FileAction::Keep, true, false), lost];
    let files = vec![DirtyFile::Modified, DirtyFile::Modified];
    let mut summary = StatusSummaryStats::default();
    let reported =
        status::report_staged_changes(&changes, &files, &mut trees, &options(), &mut summary);
    assert_eq!(reported.events.len(), 1);
    assert_eq!(reported.failure.unwrap().inner(), "accessing node path");
    assert_eq!(summary.modifies, 1);
}

#[test]
fn scanned_changes_leave_out_what_is_staged() {
    let mut summary = StatusSummaryStats::default();
    let changes = vec![
        change(FileAction::Add, false, true),
        change(FileAction::Keep, true, true),
        change(FileAction::Delete, false, true),
    ];
    let stats = vec![FileStat::Size(4), FileStat::Size(5), FileStat::Failed];
    let reported = status::report_scanned_changes(&changes, &stats, false, &mut summary);
    let events = reported.events;
    assert!(reported.failure.is_none());
    assert_eq!(events.len(), 2);
    assert_eq!((events[0].size, events[1].action), (4, LoreFileAction::Delete));
    assert_eq!((summary.adds, summary.deletes, summary.modifies), (1, 1, 0));

    let mut summary = StatusSummaryStats::default();
    let stats = vec![FileStat::Size(4), FileStat::Failed, FileStat::NotFound];
    let reported = status::report_scanned_changes(&changes, &stats, false, &mut summary);
    assert_eq!(reported.events.len(), 1);
    assert_eq!(
        reported.failure.unwrap().inner(),
        "accessing metadata for file a"
    );
    assert_eq!((summary.adds, summary.deletes), (1, 0));
}

#[test]
fn status_shows_what_is_asked_for() {
    let mut asked = options();
    asked.staged = true;
    asked.scan = true;
    asked.reset = true;
    let plan = status::status_plan(&asked, true);
    assert!(plan.drop_anchor && plan.staged && plan.scan && plan.summary && !plan.count);
    assert!(!status::status_plan(&asked, false).staged);
    asked.revision_only = true;
    asked.count = true;
    let plan = status::status_plan(&asked, true);
    assert!(!plan.staged && !plan.scan && !plan.summary && plan.count);
}
