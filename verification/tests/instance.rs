use lore_revision::errors::ErrorKind;
use lore_revision::instance::anchor_key;
use lore_revision::instance::delete_staged_anchor;
use lore_revision::instance::instance_key;
use lore_revision::instance::instance_list;
use lore_revision::instance::instance_metadata;
use lore_revision::instance::instance_prune;
use lore_revision::instance::instances_on_branch;
use lore_revision::instance::is_fitting_path;
use lore_revision::instance::is_instance_stale;
use lore_revision::instance::list_instances;
use lore_revision::instance::load_current_anchor;
use lore_revision::instance::load_instance_metadata;
use lore_revision::instance::load_staged_revision;
use lore_revision::instance::recover_instance_id;
use lore_revision::instance::register_instance;
use lore_revision::instance::store_current_anchor;
use lore_revision::instance::store_staged_anchor;
use lore_revision::instance::stored_branch;
use lore_revision::instance::warn_branch_multiple_instance;
use lore_revision::instance::Anchor;
use lore_revision::instance::InstanceId;
use lore_revision::instance::InstanceMetadata;
use lore_revision::instance::InstancePosition;
use lore_revision::instance::RegisteredInstance;
use lore_revision::instance::ANCHOR_CURRENT;
use lore_revision::instance::ANCHOR_STAGED;
use lore_revision::metadata::Metadata;
use lore_revision::repository::SALT_LORE;
use lore_revision::store::KeyType;
use lore_revision::types::ContentHash;
use lore_revision::types::Context;

#[test]
fn instance_key_is_deterministic() {
    let id = InstanceId::generate();
    let key1 = instance_key(SALT_LORE, id);
    let key2 = instance_key(SALT_LORE, id);
    assert_eq!(key1, key2);
    assert_eq!(key1.key_type, key2.key_type);
    assert_eq!(key1.key_type, KeyType::Instance);
}

#[test]
fn instance_key_differs_for_different_ids() {
    let a = InstanceId::generate();
    let b = InstanceId::generate();
    let key_a = instance_key(SALT_LORE, a);
    let key_b = instance_key(SALT_LORE, b);
    assert_ne!(key_a, key_b);
}

#[test]
fn anchor_keys_differ_for_current_vs_staged() {
    let id = InstanceId::generate();
    let current = anchor_key(SALT_LORE, ANCHOR_CURRENT, id);
    let staged = anchor_key(SALT_LORE, ANCHOR_STAGED, id);
    assert_ne!(current, staged);
    assert_eq!(current.key_type, KeyType::Untyped);
    assert_eq!(staged.key_type, KeyType::Untyped);
}

#[test]
fn generate_produces_nonzero_unique_values() {
    let a = InstanceId::generate();
    let b = InstanceId::generate();
    assert!(!a.is_zero());
    assert!(!b.is_zero());
    assert_ne!(a, b);
}

#[test]
fn default_is_zero() {
    let id = InstanceId::default();
    assert!(id.is_zero());
}

#[test]
fn roundtrip_bytes() {
    let id = InstanceId::generate();
    let bytes = id.as_bytes().to_vec();
    assert_eq!(bytes.len(), 16);
    let restored = InstanceId::read_from(&bytes).unwrap();
    assert_eq!(id, restored);
}

#[test]
fn display_is_hex() {
    let id = InstanceId::generate();
    let s = id.to_text();
    assert_eq!(s.len(), 32); // 16 bytes = 32 hex chars
    assert!(s.chars().all(|c| c.is_ascii_hexdigit()));
}

#[test]
fn generated_ids_are_version_seven() {
    let id = InstanceId::generate();
    assert_eq!(id.data()[6] >> 4, 7);
    assert_eq!(id.data()[8] >> 6, 2);
}

#[test]
fn instance_id_text_is_lowercase_hex() {
    let mut data = [0u8; 16];
    data[0] = 0xAB;
    data[15] = 0x01;
    assert_eq!(
        InstanceId { data }.to_text(),
        "ab000000000000000000000000000001"
    );
}

#[test]
fn short_bytes_are_no_instance_id() {
    assert!(InstanceId::read_from(&[1; 15]).is_none());
}

#[test]
fn instance_metadata_is_read_back() {
    let id = InstanceId { data: [7; 16] };
    let written = instance_metadata(id, "/work/tree", 1234).unwrap();
    let read = load_instance_metadata(&written);
    assert_eq!(read.instance_id, id);
    assert_eq!(read.path, "/work/tree");
    assert_eq!(read.created, 1234);
}

#[test]
fn missing_instance_metadata_are_empty() {
    let read = load_instance_metadata(&Metadata::new());
    assert!(read.instance_id.is_zero());
    assert_eq!(read.path, "");
    assert_eq!(read.created, 0);
}

#[test]
fn registering_takes_the_capability_to_write() {
    let repository = Context::new([1; 16]);
    let id = InstanceId { data: [2; 16] };
    let hash = ContentHash::new([3; 32]);
    let request = register_instance(repository, SALT_LORE, true, id, hash).unwrap();
    assert_eq!(request.repository, repository);
    assert_eq!(request.key, instance_key(SALT_LORE, id));
    assert_eq!(request.value, hash);
    let error = register_instance(repository, SALT_LORE, false, id, hash).unwrap_err();
    assert_eq!(error.kind, ErrorKind::WriteRequired);
}

fn registered(id: u8, path: &str) -> RegisteredInstance {
    RegisteredInstance {
        metadata_hash: ContentHash::new([id; 32]),
        metadata: Some(InstanceMetadata {
            instance_id: InstanceId { data: [id; 16] },
            path: path.to_string(),
            created: 1,
        }),
        clean_path: path.to_string(),
    }
}

#[test]
fn instance_is_recovered_by_its_path() {
    let entries = vec![registered(1, "/a"), registered(2, "/b")];
    assert_eq!(
        recover_instance_id(&entries, "/b"),
        Some(InstanceId { data: [2; 16] })
    );
    assert!(recover_instance_id(&entries, "/c").is_none());
}

#[test]
fn entries_without_metadata_are_not_listed() {
    let unread = RegisteredInstance {
        metadata_hash: ContentHash::new([9; 32]),
        metadata: None,
        clean_path: String::new(),
    };
    let entries = vec![registered(1, "/a"), unread, registered(2, "/b")];
    assert_eq!(list_instances(&entries), vec![0, 2]);
}

#[test]
fn instances_without_a_tree_are_stale() {
    assert!(is_instance_stale("/gone", false));
    assert!(!is_instance_stale("/here", true));
}

fn position(id: u8, branch: Option<u8>) -> InstancePosition {
    InstancePosition {
        metadata: InstanceMetadata {
            instance_id: InstanceId { data: [id; 16] },
            path: format!("/tree{id}"),
            created: 1,
        },
        exists_on_disk: true,
        branch: branch.map(|b| Context::new([b; 16])),
    }
}

#[test]
fn other_instances_on_a_branch_are_warned_about() {
    let instances = vec![position(1, Some(5)), position(2, Some(5)), position(3, Some(6))];
    let event = warn_branch_multiple_instance(
        &instances,
        InstanceId { data: [1; 16] },
        Context::new([5; 16]),
    )
    .expect("another instance is on the branch");
    assert_eq!(event.instance_ids, vec![InstanceId { data: [2; 16] }]);
    assert_eq!(event.instance_paths, vec!["/tree2".to_string()]);
}

#[test]
fn other_active_instances_on_a_branch_are_listed_in_order() {
    let mut instances = vec![
        position(1, Some(5)),
        position(2, Some(5)),
        position(3, Some(6)),
        position(4, Some(5)),
        position(5, Some(5)),
    ];
    instances[3].exists_on_disk = false;
    let others = instances_on_branch(
        &instances,
        InstanceId { data: [1; 16] },
        Context::new([5; 16]),
    );
    let ids: Vec<u8> = others.iter().map(|other| other.instance_id.data[0]).collect();
    assert_eq!(ids, vec![2, 5]);
    assert_eq!(others[1].path, "/tree5");
}

#[test]
fn keys_carry_their_salt() {
    let id = InstanceId { data: [1; 16] };
    assert_eq!(instance_key(SALT_LORE, id).salt, "urc");
    assert_ne!(instance_key("a", id), instance_key("b", id));
    assert_ne!(
        anchor_key("a", ANCHOR_STAGED, id),
        anchor_key("b", ANCHOR_STAGED, id)
    );
}

#[test]
fn instance_is_not_warned_about_itself() {
    let instances = vec![position(1, Some(5))];
    assert!(warn_branch_multiple_instance(
        &instances,
        InstanceId { data: [1; 16] },
        Context::new([5; 16]),
    )
    .is_none());
}

#[test]
fn stored_anchor_comes_before_the_file() {
    let revision = ContentHash::new([1; 32]);
    let branch = Context::new([2; 16]);
    let file = Anchor {
        revision: ContentHash::new([3; 32]),
        branch: Context::new([4; 16]),
    };
    let stored = Some(ContentHash::new([2; 32]));
    let anchor = load_current_anchor(Some(revision), stored, branch, true, Some(file)).unwrap();
    assert_eq!(anchor.revision, revision);
    assert_eq!(anchor.branch, branch);
    let anchor = load_current_anchor(None, None, branch, true, Some(file)).unwrap();
    assert_eq!(anchor.revision, file.revision);
    let zero = Some(ContentHash::default());
    let anchor = load_current_anchor(None, zero, branch, true, Some(file)).unwrap();
    assert_eq!(anchor.branch, file.branch);
    assert_eq!(stored_branch(zero, branch), None);
    assert_eq!(stored_branch(stored, branch), Some(branch));
    let error = load_current_anchor(None, None, branch, false, None).unwrap_err();
    assert_eq!(error.kind, ErrorKind::InvalidArguments);
    assert_eq!(
        load_current_anchor(None, None, branch, true, None).unwrap_err().kind,
        ErrorKind::Internal
    );
}

#[test]
fn nothing_is_staged_without_a_working_tree() {
    let revision = ContentHash::new([3; 32]);
    assert_eq!(load_staged_revision(None, false, None).unwrap(), None);
    let zero = Some(ContentHash::default());
    assert_eq!(load_staged_revision(zero, false, Some(revision)).unwrap(), None);
    assert_eq!(load_staged_revision(zero, true, Some(revision)).unwrap(), Some(revision));
    assert_eq!(load_staged_revision(None, true, zero).unwrap(), None);
}

#[test]
fn staged_anchor_is_stored_and_read() {
    let repository = Context::new([1; 16]);
    let id = InstanceId { data: [2; 16] };
    let revision = ContentHash::new([3; 32]);
    let request = store_staged_anchor(repository, SALT_LORE, true, id, revision).unwrap();
    assert_eq!(
        load_staged_revision(Some(request.value), true, None).unwrap(),
        Some(revision)
    );
    let request = delete_staged_anchor(repository, SALT_LORE, true, id).unwrap();
    assert!(request.value.is_zero());
    assert_eq!(
        store_current_anchor(repository, SALT_LORE, false, id, revision)
            .unwrap_err()
            .kind,
        ErrorKind::WriteRequired
    );
}

#[test]
fn only_stale_instances_are_pruned() {
    let repository = Context::new([1; 16]);
    let mut instances = vec![position(1, Some(5)), position(2, Some(5)), position(3, None)];
    let names = vec![Some("main".to_string()), Some("main".to_string()), None];
    let revision = ContentHash::new([9; 32]);
    let revisions = vec![None, Some(revision), None];
    let prune = |instances: &Vec<InstancePosition>, may_write: bool| {
        instance_prune(repository, SALT_LORE, may_write, instances, &names, &revisions)
    };
    assert!(prune(&instances, false).unwrap().is_empty());
    instances[1].exists_on_disk = false;
    assert_eq!(
        prune(&instances, false).unwrap_err().kind,
        ErrorKind::WriteRequired
    );
    let pruned = prune(&instances, true).unwrap();
    assert_eq!(pruned.len(), 1);
    assert_eq!(pruned[0].requests.len(), 4);
    assert!(pruned[0].requests.iter().all(|r| r.value.is_zero()));
    assert!(pruned[0].requests[0].key == instance_key(SALT_LORE, InstanceId { data: [2; 16] }));
    let event = &pruned[0].event;
    assert_eq!((event.stale, event.path.as_str()), (1, "/tree2"));
    assert_eq!((event.branch_name.as_str(), event.revision), ("main", revision));
    let listed = instance_list(&instances[1], Some("main"), None);
    assert_eq!(listed.branch_name, "main");
    assert_eq!(listed.path, "/tree2");
    instances.remove(1);
    let names = vec![None, None];
    let revisions = vec![None, None];
    assert!(instance_prune(repository, SALT_LORE, true, &instances, &names, &revisions)
        .unwrap()
        .is_empty());
}

#[test]
fn ordinary_paths_fit_into_metadata() {
    assert!(is_fitting_path("/tree"));
}
