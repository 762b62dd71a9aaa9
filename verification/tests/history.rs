use lore_revision::change::FileAction;
use lore_revision::change::LoreFileAction;
use lore_revision::errors::ErrorKind;
use lore_revision::errors::LoreError;
use lore_revision::file::dump::dump_address;
use lore_revision::file::dump::dump_file;
use lore_revision::file::dump::StoredFragment;
use lore_revision::file::hash::check_target;
use lore_revision::file::hash::hash as hash_file;
use lore_revision::file::hash::HashTarget;
use lore_revision::file::history::check_found;
use lore_revision::file::history::current_or_default;
use lore_revision::file::history::find_start_revision;
use lore_revision::file::history::follow_remote;
use lore_revision::file::history::history_parent;
use lore_revision::file::history::history_start;
use lore_revision::file::history::history_state;
use lore_revision::file::history::start_branch;
use lore_revision::file::history::start_listing;
use lore_revision::file::history::start_lookup;
use lore_revision::file::history::start_revision;
use lore_revision::file::history::BranchSides;
use lore_revision::file::history::EntryAction;
use lore_revision::file::history::FileHistoryError;
use lore_revision::file::history::HistoryLink;
use lore_revision::file::history::HistoryNode;
use lore_revision::file::history::HistoryOptions;
use lore_revision::file::history::HistoryRevision;
use lore_revision::file::history::HistoryStep;
use lore_revision::file::history::HistoryWalk;
use lore_revision::file::history::NodeDelta;
use lore_revision::file::history::ParentSearch;
use lore_revision::file::history::SearchLocation;
use lore_revision::file::history::StartLookup;
use lore_revision::file::history::StartStep;
use lore_revision::metadata::clear::clear_file;
use lore_revision::metadata::clear::clear_revision;
use lore_revision::metadata::clear::finish_clear;
use lore_revision::node::NodeTree;
use lore_revision::node::INVALID_NODE;
use lore_revision::state::staged_or_current;
use lore_revision::state::RevisionState;
use lore_revision::types::Address;
use lore_revision::types::ContentHash;
use lore_revision::types::Context;

fn hash(byte: u8) -> ContentHash {
    ContentHash::new([byte; 32])
}

fn options(revision: Option<&str>, branch: Option<&str>) -> HistoryOptions {
    HistoryOptions {
        revision: revision.map(|text| text.to_string()),
        branch: branch.map(|text| text.to_string()),
        length: 0,
        depth: 0,
    }
}

fn revision() -> HistoryRevision {
    HistoryRevision {
        revision: hash(3),
        number: 12,
        parent_self: hash(2),
        parent_other: ContentHash::default(),
        metadata: hash(8),
    }
}

#[test]
fn history_entry_shows_the_file() {
    let node = HistoryNode {
        path: "dir/a".to_string(),
        address: Address {
            hash: hash(5),
            context: Context::new([6; 16]),
        },
        size: 77,
        action: Some(FileAction::Add),
        metadata: ContentHash::default(),
    };
    let entry = history_state(
        Context::new([1; 16]),
        revision(),
        Some(&node),
        EntryAction::Recorded,
    );
    assert_eq!(entry.event.path, "dir/a");
    assert_eq!(entry.event.revision_number, 12);
    assert_eq!(entry.event.parent[0], hash(2));
    assert_eq!(entry.event.size, 77);
    assert_eq!(entry.event.action, LoreFileAction::Add);
    assert!(entry.revision_metadata && !entry.file_metadata);
    let entry = history_state(
        Context::new([1; 16]),
        revision(),
        Some(&node),
        EntryAction::Given(None),
    );
    assert_eq!(entry.event.action, LoreFileAction::Keep);
}

#[test]
fn history_entry_without_a_node_is_a_deletion() {
    let entry = history_state(
        Context::new([1; 16]),
        revision(),
        None,
        EntryAction::Recorded,
    );
    assert_eq!(entry.event.action, LoreFileAction::Delete);
    assert_eq!(entry.event.size, 0);
    assert_eq!(entry.event.path, "");
}

#[test]
fn revision_and_branch_exclude_each_other() {
    let error = start_lookup(&options(Some("r"), Some("b"))).unwrap_err();
    assert_eq!(error.kind, ErrorKind::Internal);
    assert_eq!(error.inner(), "Invalid options");
    assert!(matches!(
        start_lookup(&options(Some("r"), None)).unwrap(),
        StartLookup::Revision(_)
    ));
    assert!(matches!(
        start_lookup(&options(None, Some("b"))).unwrap(),
        StartLookup::Branch(_)
    ));
    assert!(matches!(
        start_lookup(&options(None, None)).unwrap(),
        StartLookup::CurrentBranch
    ));
}

#[test]
fn missing_revisions_and_branches_are_reported() {
    assert_eq!(
        start_revision("r", None).unwrap_err().kind,
        ErrorKind::RevisionNotFound
    );
    assert_eq!(start_revision("r", Some(hash(1))).unwrap(), hash(1));
    assert_eq!(
        start_branch("b", None).unwrap_err().kind,
        ErrorKind::BranchNotFound
    );
    let default = Context::new([9; 16]);
    assert_eq!(current_or_default(Context::default(), default), default);
    assert_eq!(
        check_found("x", false).unwrap_err().kind,
        ErrorKind::FileNotFound
    );
}

#[test]
fn history_starts_at_the_side_that_is_ahead() {
    assert!(matches!(
        find_start_revision(SearchLocation::Any, ContentHash::default(), hash(1)),
        StartStep::Start(start) if start == hash(1)
    ));
    assert!(matches!(
        find_start_revision(SearchLocation::Any, hash(2), hash(1)),
        StartStep::Compare
    ));
    assert!(matches!(
        find_start_revision(SearchLocation::Remote, hash(2), hash(1)),
        StartStep::Start(start) if start == hash(2)
    ));
    let sides = BranchSides {
        remote: hash(2),
        local: hash(1),
        local_number: 5,
    };
    // The local side has a higher number.
    assert!(matches!(
        follow_remote(&sides, 4, hash(7)),
        StartStep::Start(start) if start == hash(1)
    ));
    // The remote history leads to the local side.
    assert!(matches!(
        follow_remote(&sides, 6, hash(1)),
        StartStep::Start(start) if start == hash(2)
    ));
    assert!(matches!(
        follow_remote(&sides, 6, hash(7)),
        StartStep::Load(next) if next == hash(7)
    ));
}

#[test]
fn deleted_file_is_searched_for_ten_revisions() {
    let mut search = ParentSearch::new(&options(None, None), hash(1));
    let mut searched = 0;
    while search.next().is_some() {
        search.missed(hash(1));
        searched += 1;
    }
    assert_eq!(searched, 10);
    let mut search = ParentSearch::new(&options(None, None), hash(1));
    search.missed(ContentHash::default());
    assert!(search.next().is_none());
    assert_eq!(
        history_parent(None),
        (INVALID_NODE, Some(FileAction::Delete))
    );
}

#[test]
fn start_takes_the_first_change_of_the_node() {
    let deltas = vec![
        NodeDelta {
            node: 4,
            action: Some(FileAction::Keep),
        },
        NodeDelta {
            node: 7,
            action: Some(FileAction::Add),
        },
    ];
    let (delta, goes_on) = history_start(&deltas, 7);
    assert_eq!(delta.unwrap().action, Some(FileAction::Add));
    assert!(!goes_on);
    let (delta, goes_on) = history_start(&deltas, 4);
    assert!(delta.is_some() && goes_on);
    let (delta, goes_on) = history_start(&deltas, 5);
    assert!(delta.is_none() && goes_on);
}

#[test]
fn walk_ends_at_its_limit_or_where_the_file_was_added() {
    let mut limited = options(None, None);
    limited.length = 2;
    let mut walk = HistoryWalk::new(&limited, 3, 0);
    let link = |action, revision, node| HistoryLink {
        action: Some(action),
        revision,
        node,
    };
    match walk.step(link(FileAction::Keep, hash(9), 5)) {
        HistoryStep::Next { revision, node } => {
            assert_eq!(revision, hash(9));
            assert_eq!(node, 3);
        }
        _ => panic!("the walk goes on"),
    }
    match walk.step(link(FileAction::Keep, hash(8), 6)) {
        HistoryStep::Next { node, .. } => assert_eq!(node, 5),
        _ => panic!("the walk goes on"),
    }
    assert!(matches!(
        walk.step(link(FileAction::Keep, hash(7), 6)),
        HistoryStep::End
    ));
    let mut walk = HistoryWalk::new(&options(None, None), 3, 0);
    assert_eq!(walk.limit, 100);
    assert!(matches!(
        walk.step(link(FileAction::Add, hash(9), 5)),
        HistoryStep::Last { node: 3, .. }
    ));
    assert!(matches!(
        walk.step(link(FileAction::Keep, ContentHash::default(), 5)),
        HistoryStep::End
    ));
}

#[test]
fn history_errors_have_codes() {
    let code = |kind| {
        FileHistoryError {
            kind,
            detail: String::new(),
        }
        .translated()
    };
    assert_eq!(code(ErrorKind::InvalidPath), LoreError::InvalidArguments);
    assert_eq!(code(ErrorKind::FileNotFound), LoreError::FileNotFound);
    assert_eq!(code(ErrorKind::BranchNotFound), LoreError::NotFound);
    assert_eq!(code(ErrorKind::Conflict), LoreError::Internal);
}

#[test]
fn dump_reports_the_stored_fragment() {
    let address = Address {
        hash: hash(1),
        context: Context::default(),
    };
    let event = dump_address(
        address,
        &StoredFragment {
            flags: 3,
            size_payload: 40,
            size_content: 50,
            match_made: 2,
        },
    );
    assert_eq!((event.flags, event.size_payload), (3, 40));
    assert_eq!((event.size_content, event.match_made), (50, 2));
    assert_eq!(dump_file(None).unwrap_err().kind, ErrorKind::Internal);
    assert_eq!(dump_file(Some(address)).unwrap().hash, hash(1));
    assert_eq!(staged_or_current(None, hash(2)), hash(2));
}

#[test]
fn only_files_are_hashed() {
    assert_eq!(check_target(HashTarget::File(5)).unwrap(), 5);
    assert_eq!(
        check_target(HashTarget::NotAFile).unwrap_err().inner(),
        "path is not a file"
    );
    assert_eq!(
        check_target(HashTarget::Inaccessible).unwrap_err().inner(),
        "path does not exist or is not accessible"
    );
    let event = hash_file("a".to_string(), 5, Some(hash(3))).unwrap();
    assert_eq!((event.size, event.hash), (5, hash(3)));
    assert_eq!(
        hash_file("a".to_string(), 5, None).unwrap_err().kind,
        ErrorKind::Internal
    );
}

#[test]
fn metadata_is_cleared() {
    let mut metadata = vec![hash(1), hash(2), hash(3)];
    clear_file("b", Some(1), &mut metadata).unwrap();
    assert!(metadata[1].is_zero());
    assert_eq!((metadata[0], metadata[2]), (hash(1), hash(3)));
    let error = clear_file("gone", None, &mut metadata).unwrap_err();
    assert_eq!(error.kind, ErrorKind::FileNotFound);
    assert_eq!(error.translated(), LoreError::NotFound);

    let mut state = RevisionState {
        revision: hash(1),
        revision_number: 7,
        parent_self: hash(2),
        parent_other: hash(4),
        metadata_hash: hash(5),
        tree: NodeTree {
            nodes: vec![],
            modified: false,
        },
        links: vec![],
    };
    clear_revision(&mut state);
    assert!(state.metadata_hash.is_zero());
    assert!(finish_clear(&mut state, hash(9), hash(1), true));
    assert_eq!(state.revision_number, 0);
    assert_eq!(state.parent_self, hash(9));
    assert_eq!(state.parent_other, hash(4));
    finish_clear(&mut state, hash(9), hash(9), true);
    assert!(state.parent_other.is_zero());
}

#[test]
fn listing_counts_what_comes_before_the_walk() {
    let mut limited = options(None, None);
    limited.length = 2;
    let delta = Some(NodeDelta {
        node: 3,
        action: Some(FileAction::Keep),
    });
    let start = start_listing(&limited, 3, 1, delta, true);
    assert!(start.list_start);
    assert_eq!(start.walk.unwrap().limit, 0);
    let start = start_listing(&limited, 3, 0, delta, true);
    assert!(start.list_start);
    assert_eq!(start.walk.unwrap().limit, 1);
    let start = start_listing(&limited, 3, 0, None, true);
    assert!(!start.list_start);
    assert_eq!(start.walk.unwrap().limit, 2);
    limited.length = 1;
    let start = start_listing(&limited, 3, 1, delta, true);
    assert!(!start.list_start);
    assert_eq!(start.walk.unwrap().limit, 0);
    assert!(start_listing(&limited, 3, 0, delta, false).walk.is_none());
}
