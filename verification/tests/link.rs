use lore_revision::change::ChangeFlags;
use lore_revision::change::ChangeSide;
use lore_revision::change::FileAction;
use lore_revision::change::LoreFileAction;
use lore_revision::change::NodeChange;
use lore_revision::errors::ErrorKind;
use lore_revision::link::check_link_merge_eligible;
use lore_revision::link::create_branch;
use lore_revision::link::link_has_content_divergence;
use lore_revision::link::link_mount_prefix;
use lore_revision::link::remap_changes;
use lore_revision::link::resolve_link_at_path;
use lore_revision::link::restore_link_path;
use lore_revision::link::stage_link_pin;
use lore_revision::link::update_link_pin_by_path;
use lore_revision::link::LinkContext;
use lore_revision::link::LinkDivergence;
use lore_revision::link::LinkFlags;
use lore_revision::link::LinkMergeEligibility;
use lore_revision::link::LinkTracker;
use lore_revision::link::LoreLinkChangeEventData;
use lore_revision::link::DISABLE_AUTO_FOLLOW;
use lore_revision::node::Node;
use lore_revision::node::NodeAction;
use lore_revision::node::NodeKind;
use lore_revision::node::NodeLink;
use lore_revision::node::NodeTree;
use lore_revision::node::INVALID_NODE;
use lore_revision::state::LinkReference;
use lore_revision::state::RevisionState;
use lore_revision::types::ContentHash;
use lore_revision::types::Context;

fn hash(byte: u8) -> ContentHash {
    ContentHash::new([byte; 32])
}

fn context(byte: u8) -> Context {
    Context::new([byte; 16])
}

fn node(kind: NodeKind) -> Node {
    Node {
        kind,
        staged: false,
        dirty: false,
        action: NodeAction::Unchanged,
        discarded: false,
        parent: 0,
        sibling: INVALID_NODE,
        child: INVALID_NODE,
        name_hash: 0,
        mode: 0,
        size: 0,
        link: NodeLink {
            repository: context(8),
            revision: hash(1),
            node: INVALID_NODE,
        },
    }
}

fn reference() -> LinkReference {
    LinkReference {
        repository: context(8),
        branch: context(9),
        signature: hash(1),
        local_node: 1,
        flags: 0,
    }
}

fn linked_state() -> RevisionState {
    RevisionState {
        revision: hash(7),
        revision_number: 3,
        parent_self: hash(6),
        parent_other: ContentHash::default(),
        metadata_hash: ContentHash::default(),
        tree: NodeTree {
            nodes: vec![node(NodeKind::Directory), node(NodeKind::Link)],
            modified: false,
        },
        links: vec![reference()],
    }
}

fn link(repository: u8, node: u32, path: &str) -> LinkContext {
    LinkContext {
        link_repository_id: context(repository),
        link_node_id: node,
        parent_repository_id: context(1),
        link_path: path.to_string(),
    }
}

#[test]
fn links_of_a_changed_repository_need_rehashing() {
    let mut tracker = LinkTracker::new();
    tracker.add_link(link(2, 4, "a"));
    tracker.add_link(link(3, 5, "b"));
    assert!(!tracker.has_modifications());
    tracker.on_node_changed(context(3));
    assert!(tracker.has_modifications());
    let links = tracker.get_links_needing_rehash();
    assert_eq!(links.len(), 1);
    assert_eq!(links[0].link_path, "b");
    assert_eq!(
        tracker.find_link_context(context(2)).unwrap().link_node_id,
        4
    );
    assert!(tracker.find_link_context(context(7)).is_none());
}

#[test]
fn link_event_names_the_root() {
    let event = LoreLinkChangeEventData::new(
        "",
        context(1),
        context(2),
        hash(3),
        LoreFileAction::Add,
    );
    assert_eq!(event.link_path, "/");
}

#[test]
fn unknown_link_flags_are_dropped() {
    assert_eq!(LinkFlags::from_bits_truncate(0xFF).bits, DISABLE_AUTO_FOLLOW);
    assert!(LinkFlags::from_bits_truncate(1).disables_auto_follow());
    assert!(!LinkFlags::no_flags().disables_auto_follow());
}

#[test]
fn taken_branch_name_gets_the_identifier() {
    let request = create_branch(true, context(0xAB), "main", "feature", context(2), hash(3));
    assert_eq!(
        request.branch_name,
        "main-abababababababababababababababab"
    );
    assert_eq!(request.branch_stack.len(), 1);
    let request = create_branch(false, context(1), "main", "", context(2), hash(3));
    assert_eq!(request.branch_name, "main");
}

#[test]
fn changes_are_remapped_to_the_mount() {
    let mut changes = vec![NodeChange {
        path: "src/lib/a.txt".to_string(),
        from_path: Some("src/lib/b.txt".to_string()),
        action: FileAction::Move,
        from: ChangeSide {
            tree: 0,
            node: 1,
            kind: NodeKind::File,
        },
        to: ChangeSide {
            tree: 0,
            node: 2,
            kind: NodeKind::File,
        },
        flags: ChangeFlags {
            stage: false,
            dirty: false,
            merge: false,
            conflict: false,
            conflict_unresolved: false,
            conflict_automerged: false,
            conflict_mine: false,
            conflict_theirs: false,
        },
    }];
    remap_changes("mount", "src", &mut changes);
    assert_eq!(changes[0].path, "mount/lib/a.txt");
    assert_eq!(changes[0].from_path.as_deref(), Some("mount/lib/b.txt"));
    assert_eq!(changes[0].action, FileAction::Move);
}

#[test]
fn link_pin_is_updated_in_node_and_registry() {
    let mut state = linked_state();
    update_link_pin_by_path(&mut state, "mount", 1, context(4), hash(5)).unwrap();
    assert_eq!(state.tree.nodes[1].link.revision, hash(5));
    assert_eq!(state.links[0].signature, hash(5));
    assert_eq!(state.links[0].branch, context(4));
    assert!(state.tree.modified);
}

#[test]
fn each_missing_link_has_its_failure() {
    let mut state = linked_state();
    let kind = |state: &RevisionState, found| {
        resolve_link_at_path(state, "mount", found)
            .unwrap_err()
            .kind
    };
    assert_eq!(kind(&state, INVALID_NODE), ErrorKind::InvalidPath);
    assert_eq!(kind(&state, 9), ErrorKind::NodeNotFound);
    state.tree.nodes[1].kind = NodeKind::File;
    assert_eq!(kind(&state, 1), ErrorKind::NotALink);
    state.tree.nodes[1].kind = NodeKind::Link;
    state.links.clear();
    assert_eq!(kind(&state, 1), ErrorKind::LinkNotFound);
}

#[test]
fn pinned_link_leads_to_the_new_source() {
    let staged = stage_link_pin(node(NodeKind::Link), "src", 12, hash(5)).unwrap();
    assert_eq!(staged.child, 12);
    assert_eq!(staged.link.revision, hash(5));
    let error = stage_link_pin(node(NodeKind::Link), "src", INVALID_NODE, hash(5)).unwrap_err();
    assert_eq!(error.kind, ErrorKind::InvalidPath);
}

#[test]
fn merges_follow_links_only_where_they_may() {
    let mut link_reference = reference();
    assert_eq!(
        check_link_merge_eligible(&link_reference, true, true),
        LinkMergeEligibility::Eligible
    );
    assert_eq!(
        check_link_merge_eligible(&link_reference, true, false),
        LinkMergeEligibility::Skip
    );
    link_reference.flags = DISABLE_AUTO_FOLLOW;
    assert_eq!(
        check_link_merge_eligible(&link_reference, true, true),
        LinkMergeEligibility::AutoFollowDisabled
    );
    assert!(link_has_content_divergence(None));
    assert!(!link_has_content_divergence(Some(LinkDivergence {
        changes: 0,
        conflicts: 0
    })));
}

#[test]
fn mount_prefix_inverts_joining() {
    assert_eq!(link_mount_prefix("a/b/c/d.txt", "c/d.txt"), "a/b");
    assert_eq!(link_mount_prefix("d.txt", "d.txt"), "");
    assert_eq!(link_mount_prefix("/d.txt", "d.txt"), "");
    assert_eq!(link_mount_prefix("a//d.txt", "/d.txt"), "a");
    let restore = restore_link_path("mount", "x/y", Some(node(NodeKind::File)));
    assert_eq!(restore.mount_path, "mount/x/y");
    assert!(restore.realize);
    assert!(!restore_link_path("mount", "x", None).realize);
}
