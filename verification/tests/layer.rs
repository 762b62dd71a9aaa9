use lore_revision::errors::ErrorKind;
use lore_revision::layer;
use lore_revision::layer::Layer;
use lore_revision::layer::LayerFileStat;
use lore_revision::layer::LayerFiles;
use lore_revision::layer::LayerRemoval;
use lore_revision::layer::LayerSourceNode;
use lore_revision::layer::LayerUpdate;
use lore_revision::layer::MatchSearch;
use lore_revision::layer::MatchStep;
use lore_revision::node::Node;
use lore_revision::node::NodeAction;
use lore_revision::node::NodeKind;
use lore_revision::node::NodeLink;
use lore_revision::node::NodeTree;
use lore_revision::node::INVALID_NODE;
use lore_revision::types::ContentHash;
use lore_revision::types::Context;

fn hash(byte: u8) -> ContentHash {
    ContentHash::new([byte; 32])
}

fn context(byte: u8) -> Context {
    Context::new([byte; 16])
}

fn layer_at(repository: u8, path: &str) -> Layer {
    Layer {
        target_path: path.to_string(),
        source_path: path.to_string(),
        repository: context(repository),
        metadata: None,
        current: hash(repository),
        staged: ContentHash::default(),
    }
}

fn source(kind: NodeKind, repository: u8, node: u32) -> LayerSourceNode {
    LayerSourceNode::Found(
        NodeLink {
            repository: context(repository),
            revision: hash(1),
            node,
        },
        kind,
    )
}

#[test]
fn added_layer_is_the_last_one() {
    let mut layers = vec![layer_at(1, "a")];
    let event = layer::add(
        &mut layers,
        "b",
        context(2),
        "b",
        Some("build"),
        hash(9),
        source(NodeKind::Directory, 2, 4),
    )
    .unwrap();
    assert_eq!(event.revision, hash(9));
    assert_eq!(event.metadata, "build");
    assert_eq!(layers.len(), 2);
    assert_eq!(layers[1].target_path, "b");
    assert!(!layers[1].has_staged());
}

#[test]
fn layers_that_cannot_be_added() {
    let mut layers = vec![layer_at(1, "a")];
    let mut fails = |repository: u8, path: &str, node: LayerSourceNode| {
        layer::add(
            &mut layers,
            path,
            context(repository),
            path,
            None,
            hash(9),
            node,
        )
        .unwrap_err()
        .kind
    };
    assert_eq!(
        fails(1, "a", source(NodeKind::Directory, 1, 4)),
        ErrorKind::AlreadyLinked
    );
    assert_eq!(
        fails(2, "b", source(NodeKind::File, 2, 4)),
        ErrorKind::Internal
    );
    assert_eq!(
        fails(2, "b", source(NodeKind::Directory, 3, 4)),
        ErrorKind::Internal
    );
    assert_eq!(
        fails(2, "b", source(NodeKind::Directory, 2, INVALID_NODE)),
        ErrorKind::Internal
    );
    assert_eq!(
        fails(2, "b", LayerSourceNode::Failed(ErrorKind::NodeNotFound)),
        ErrorKind::NodeNotFound
    );
}

#[test]
fn layer_is_found_by_path_and_repository() {
    let layers = vec![layer_at(1, "a"), layer_at(2, "a"), layer_at(3, "b")];
    assert_eq!(
        layer::resolve_layer_index(&layers, "b", Context::default()).unwrap(),
        2
    );
    assert_eq!(
        layer::resolve_layer_index(&layers, "a", context(2)).unwrap(),
        1
    );
    assert_eq!(
        layer::resolve_layer_index(&layers, "a", Context::default())
            .unwrap_err()
            .kind,
        ErrorKind::InvalidArguments
    );
    assert_eq!(
        layer::resolve_layer_index(&layers, "x", Context::default())
            .unwrap_err()
            .kind,
        ErrorKind::LayerNotFound
    );
}

#[test]
fn stored_revisions_are_read() {
    let mut layers = vec![layer_at(1, "a"), layer_at(2, "b")];
    layer::store_layer_current(&mut layers, "b", context(2), hash(7), None).unwrap();
    layer::store_layer_staged(&mut layers, "b", context(2), hash(8)).unwrap();
    assert_eq!(layers[1].current, hash(7));
    assert!(layers[1].has_staged());
    assert_eq!(
        layers[1].deserialize_current_and_staged(),
        (hash(7), hash(8))
    );
    assert_eq!(layers[0].current, hash(1));
    assert_eq!(
        layer::store_layer_current(&mut layers, "x", context(2), hash(7), None)
            .unwrap_err()
            .kind,
        ErrorKind::LayerNotFound
    );
    let updates = vec![LayerUpdate {
        repository: context(1),
        target_path: "a".to_string(),
        current: hash(6),
    }];
    assert!(layer::store_layer_current_batch(&mut layers, &updates));
    assert_eq!(layers[0].current, hash(6));
    assert!(!layer::store_layer_current_batch(&mut layers, &vec![]));
}

#[test]
fn modified_files_keep_a_layer() {
    let mut layers = vec![layer_at(1, "a")];
    let mut found = LayerFiles {
        files: vec![],
        directories: vec![],
        modified: vec![],
    };
    assert_eq!(
        layer::note_layer_child(
            "a",
            "dir",
            NodeKind::Directory,
            LayerFileStat::Missing,
            &mut found
        ),
        Some("a/dir".to_string())
    );
    layer::note_layer_child(
        "a/dir",
        "file",
        NodeKind::File,
        LayerFileStat::File { modified: true },
        &mut found,
    );
    assert_eq!(found.directories, vec!["a/dir".to_string()]);
    assert_eq!(found.files, vec!["a/dir/file".to_string()]);
    assert_eq!(found.modified.len(), 1);
    let error = layer::remove(&mut layers, 0, "a", &found, false, false).unwrap_err();
    assert_eq!(error.kind, ErrorKind::LocalModifications);
    assert_eq!(layers.len(), 1);
    let (removal, event) = layer::remove(&mut layers, 0, "a", &found, true, false).unwrap();
    assert!(matches!(removal, LayerRemoval::Files { root: true, .. }));
    assert_eq!((event.forced, event.purged), (1, 0));
    assert_eq!((event.file_count, event.modified_count), (1, 1));
    assert!(layers.is_empty());
}

#[test]
fn directories_are_removed_deepest_first() {
    let paths: Vec<String> = ["a", "a/b/c", "a/b", "d"]
        .iter()
        .map(|path| path.to_string())
        .collect();
    let sorted = layer::sort_deepest_first(&paths);
    let at = |path: &str| sorted.iter().position(|p| p == path).unwrap();
    assert!(at("a/b/c") < at("a/b"));
    assert!(at("a/b") < at("a"));
    assert_eq!(sorted.len(), 4);
}

#[test]
fn staged_files_are_counted() {
    let node = |kind, parent, sibling, child, staged| Node {
        kind,
        staged,
        dirty: false,
        action: NodeAction::Modify,
        discarded: false,
        parent,
        sibling,
        child,
        name_hash: 0,
        mode: 0,
        size: 0,
        link: NodeLink {
            repository: Context::default(),
            revision: ContentHash::default(),
            node: INVALID_NODE,
        },
    };
    let tree = NodeTree {
        nodes: vec![
            node(NodeKind::Directory, INVALID_NODE, INVALID_NODE, 1, true),
            node(NodeKind::Directory, 0, 3, 2, true),
            node(NodeKind::File, 1, INVALID_NODE, INVALID_NODE, true),
            node(NodeKind::File, 0, INVALID_NODE, INVALID_NODE, false),
        ],
        modified: false,
    };
    assert_eq!(layer::count_staged_files(&tree, 0), 1);
    assert_eq!(layer::count_staged_files(&tree, 9), 0);
    let mut staged = layer_at(1, "a");
    staged.staged = hash(5);
    let (info, event) = layer::list_staged(&staged, 1).unwrap();
    assert_eq!((info.staged_file_count, event.staged_file_count), (1, 1));
    assert!(layer::list_staged(&staged, 0).is_none());
}

#[test]
fn layer_paths_must_agree_to_sync() {
    assert_eq!(layer::sync("", "").unwrap(), None);
    assert_eq!(layer::sync("a", "a").unwrap(), Some("a".to_string()));
    assert_eq!(layer::sync("a", "b").unwrap_err().inner(), "Not implemented");
    assert!(layer::verifies_changes(1, false));
    assert!(!layer::verifies_changes(1, true));
}

#[test]
fn latest_layer_revision_has_the_higher_number() {
    let zero = ContentHash::default();
    let latest = |local, remote, a, b| layer::latest_revision(local, remote, a, b);
    assert_eq!(
        latest(hash(1), Some(hash(2)), Some(5), Some(4)).unwrap(),
        hash(1)
    );
    assert_eq!(
        latest(hash(1), Some(hash(2)), Some(4), Some(5)).unwrap(),
        hash(2)
    );
    assert_eq!(latest(zero, Some(hash(2)), None, None).unwrap(), hash(2));
    assert!(latest(zero, Some(zero), None, None).is_err());
}

#[test]
fn metadata_match_is_found_in_order() {
    assert_eq!(
        layer::find_revision_match(None, hash(1), hash(2)),
        Some((hash(1), hash(2)))
    );
    assert!(layer::find_revision_match(Some("build"), hash(1), hash(2)).is_none());

    let mut search = MatchSearch::new(hash(2), &vec![], &vec![hash(10), hash(11)], 2, false);
    let value_of = |revision: ContentHash| {
        if revision == hash(10) {
            b"x".to_vec()
        } else {
            b"y".to_vec()
        }
    };
    let sources = [hash(2)];
    let targets = [hash(10), hash(11)];
    loop {
        match search.step() {
            MatchStep::ReadSource(i) => search.read_source(value_of(sources[i])),
            MatchStep::ReadTarget(j) => search.read_target(value_of(targets[j])),
            MatchStep::Found { target, source } => {
                assert_eq!((target, source), (hash(11), hash(2)));
                break;
            }
            _ => panic!("the second target matches"),
        }
    }
}

#[test]
fn exhausted_search_fails() {
    let mut search = MatchSearch::new(hash(2), &vec![], &vec![hash(10)], 1, false);
    loop {
        match search.step() {
            MatchStep::ReadSource(_) => search.read_source(b"x".to_vec()),
            MatchStep::ReadTarget(_) => search.read_target(b"y".to_vec()),
            MatchStep::Exhausted => break,
            _ => panic!("nothing matches within the limit"),
        }
    }
    assert_eq!(layer::match_exhausted().kind, ErrorKind::Internal);
}
