use lore_revision::errors::ErrorKind;
use lore_revision::errors::LoreError;
use lore_revision::instance::Anchor;
use lore_revision::instance::InstanceId;
use lore_revision::metadata::Metadata;
use lore_revision::repository;
use lore_revision::repository::context::RemoteState;
use lore_revision::repository::context::RepositoryContext;
use lore_revision::repository::context::RepositoryWriteToken;
use lore_revision::repository::context::DEFAULT_FILTER;
use lore_revision::repository::info;
use lore_revision::repository::list::list;
use lore_revision::repository::list::RemoteRepository;
use lore_revision::repository::open;
use lore_revision::repository::open::AnchorFile;
use lore_revision::repository::open::IdentityChoice;
use lore_revision::repository::open::InstanceRead;
use lore_revision::repository::open::MigrationStep;
use lore_revision::repository::open::OpenRepository;
use lore_revision::repository::open::StoreChoice;
use lore_revision::repository::NameQuery;
use lore_revision::repository::NameResolution;
use lore_revision::repository::RepositoryAccess;
use lore_revision::repository::RepositoryConfig;
use lore_revision::repository::RepositoryError;
use lore_revision::repository::RepositoryFormat;
use lore_revision::repository::RepositoryMetadata;
use lore_revision::repository::SharedStoreToUseConfig;
use lore_revision::repository::StoreConfig;
use lore_revision::repository::UrlParts;
use lore_revision::store::KeyType;
use lore_revision::types::ContentHash;
use lore_revision::types::Context;

fn hash(byte: u8) -> ContentHash {
    ContentHash::new([byte; 32])
}

fn context(byte: u8) -> Context {
    Context::new([byte; 16])
}

fn repository_context(token: Option<RepositoryWriteToken>) -> RepositoryContext {
    let context = RepositoryContext::new(
        None,
        context(1),
        InstanceId::default(),
        Err(ErrorKind::NoRemote),
        DEFAULT_FILTER,
        RepositoryFormat::Lore,
    );
    match token {
        Some(token) => context.with_write_token(token),
        None => context,
    }
}

#[test]
fn url_is_split_into_remote_and_name() {
    let (remote, name) =
        repository::parse_url("lore://host.example:4000/team/project/", false, "lores").unwrap();
    assert_eq!(remote, "lore://host.example:4000");
    assert_eq!(name, "team/project");
    let (remote, name) = repository::parse_url("host.example/project", false, "lores").unwrap();
    assert_eq!(remote, "lores://host.example");
    assert_eq!(name, "project");
}

#[test]
fn offline_name_is_enough() {
    let (remote, name) = repository::parse_url("project", true, "lores").unwrap();
    assert_eq!((remote.as_str(), name.as_str()), ("", "project"));
    let error = repository::parse_url("lore://host.example", false, "lores").unwrap_err();
    assert_eq!(error.inner(), "Invalid URL");
    assert!(repository::parse_url("lore://", false, "lores").is_err());
}

#[test]
fn url_parts_make_a_remote() {
    let parts = |host: Option<&str>, path: &str, port| UrlParts {
        scheme: "lore".to_string(),
        host: host.map(|text| text.to_string()),
        path: path.to_string(),
        port,
    };
    let (remote, name) =
        repository::remote_from_parts(&parts(Some("h"), "//a/b//", Some(80))).unwrap();
    assert_eq!((remote.as_str(), name.as_str()), ("lore://h:80", "a/b"));
    assert!(repository::remote_from_parts(&parts(None, "/a", None)).is_err());
    assert!(repository::remote_from_parts(&parts(Some("h"), "/", None)).is_err());
    assert_eq!(repository::trim_slashes("///"), "");
}

#[test]
fn names_are_checked() {
    assert!(repository::is_valid_name("project-1"));
    assert!(!repository::is_valid_name(""));
    assert!(!repository::is_valid_name(&"x".repeat(1001)));
    assert!(repository::names_dot_directory(".lore"));
    assert!(repository::names_dot_directory(".urc"));
    assert!(!repository::names_dot_directory("lore"));
}

#[test]
fn repository_metadata_is_read_back() {
    let metadata = RepositoryMetadata {
        name: "project".to_string(),
        description: "text".to_string(),
        default_branch: context(4),
        default_branch_name: "main".to_string(),
        creator: "someone".to_string(),
        created: 77,
    };
    let written = repository::metadata_store(&metadata).unwrap();
    let read = repository::metadata(&written).unwrap();
    assert_eq!(read.name, "project");
    assert_eq!(read.description, "text");
    assert_eq!(read.default_branch, context(4));
    assert_eq!(read.default_branch_name, "main");
    assert_eq!(read.creator, "someone");
    assert_eq!(read.created, 77);
    let error = repository::metadata(&Metadata::new()).unwrap_err();
    assert_eq!(error.kind, ErrorKind::FileNotFound);
    let event = info::info("lore://h".to_string(), context(1), read);
    assert_eq!(event.default_branch_name, "main");
    assert_eq!(event.created, 77);
}

#[test]
fn keys_say_what_they_stand_for() {
    let key = repository::mutable_key("urc", repository::METADATA, context(0xAB));
    assert_eq!(key.function, "repository-metadata");
    assert_eq!(key.argument, "abababababababababababababababab");
    assert_eq!(key.key_type, KeyType::RepositoryMetadata);
    let key = repository::mutable_name_key("urc", repository::ID, "project");
    assert_eq!(key.key_type, KeyType::RepositoryId);
    assert_eq!(repository::mutable_key_type("other"), KeyType::Untyped);
}

#[test]
fn stores_are_written_with_a_token_only() {
    let writable = repository_context(Some(RepositoryWriteToken::acquire(1)));
    let request = repository::store_name_to_id(&writable, "project", hash(2)).unwrap();
    assert!(request.repository.is_zero());
    assert_eq!(request.value, hash(2));
    assert!(repository::delete_name_to_id(&writable, "project")
        .unwrap()
        .value
        .is_zero());
    assert_eq!(
        repository::metadata_store_hash(&writable, hash(3))
            .unwrap()
            .repository,
        context(1)
    );
    let readable = repository_context(None);
    for error in [
        repository::store_name_to_id(&readable, "project", hash(2)).unwrap_err(),
        repository::delete_name_to_id(&readable, "project").unwrap_err(),
        repository::metadata_store_hash(&readable, hash(3)).unwrap_err(),
    ] {
        assert_eq!(error.kind, ErrorKind::WriteRequired);
    }
}

#[test]
fn metadata_hash_comes_from_the_remote_where_it_is_missing() {
    let (result, store) = repository::metadata_hash(Ok(hash(1)), Some(hash(2)));
    assert_eq!((result.unwrap(), store), (hash(1), None));
    let (result, store) = repository::metadata_hash(Err(ErrorKind::NotFound), Some(hash(2)));
    assert_eq!((result.unwrap(), store), (hash(2), Some(hash(2))));
    let (result, _) = repository::metadata_hash(Err(ErrorKind::NotFound), None);
    assert_eq!(result.unwrap_err().kind, ErrorKind::NotFound);
}

#[test]
fn repository_is_resolved_by_name_then_by_identifier() {
    assert!(matches!(
        repository::resolve_by_name("project", NameQuery::Found).unwrap(),
        NameResolution::Answer
    ));
    let text = context(5).to_text();
    match repository::resolve_by_name(&text, NameQuery::NotFound).unwrap() {
        NameResolution::QueryId(id) => assert_eq!(id, context(5)),
        NameResolution::Answer => panic!("there is no answer yet"),
    }
    assert_eq!(
        repository::resolve_by_name("project", NameQuery::NotFound)
            .unwrap_err()
            .kind,
        ErrorKind::NotFound
    );
    assert_eq!(
        repository::resolve_by_name("project", NameQuery::Failed(ErrorKind::Disconnected))
            .unwrap_err()
            .translated(),
        LoreError::Connection
    );
}

#[test]
fn both_layouts_share_their_salt() {
    assert_eq!(
        RepositoryFormat::Urc.salt(),
        RepositoryFormat::Lore.salt()
    );
    assert_eq!(RepositoryFormat::detect(true).dot_dir(), ".urc");
    assert_eq!(RepositoryFormat::detect(false).dot_dir(), ".lore");
    assert_eq!(RepositoryFormat::Lore.ignore_file(), ".loreignore");
}

fn config(remote: Option<&str>) -> RepositoryConfig {
    let mut config = RepositoryConfig::default();
    config.remote_url = remote.map(|text| text.to_string());
    config
}

#[test]
fn configuration_has_limits_and_a_remote() {
    assert_eq!(repository::repository_remote(&config(None)), "");
    assert_eq!(
        repository::repository_remote(&config(Some("lore://h"))),
        "lore://h"
    );
    let mut limited = config(None);
    assert_eq!(repository::gc(&limited).1, repository::gc(&limited).1);
    limited.store = Some(StoreConfig {
        max_capacity: Some(3),
        eviction_delay: Some(4),
        max_size: Some(5),
        compaction_delay: None,
        verify_write: Some(true),
    });
    assert_eq!(repository::gc(&limited), (3, 5));
    let options = limited.store.as_ref().unwrap().to_options();
    assert_eq!(options.max_capacity, Some(3));
    assert_eq!(options.compaction_delay, Some(0));
    let (options, verify) = open::store_options(RepositoryAccess::ReadWrite, false, &limited);
    assert!(verify);
    assert!(options.max_size.is_none());
}

#[test]
fn shared_store_is_used_where_it_is_wanted() {
    assert!(SharedStoreToUseConfig::from_cli_args(None, 0, None)
        .unwrap()
        .is_none());
    let wanted =
        SharedStoreToUseConfig::from_cli_args(None, 1, Some(Ok("/store".to_string()))).unwrap();
    assert_eq!(
        wanted.unwrap().shared_store_path,
        Some("/store".to_string())
    );
    assert_eq!(
        SharedStoreToUseConfig::from_cli_args(Some(true), 0, Some(Err(ErrorKind::InvalidPath)))
            .unwrap_err(),
        ErrorKind::InvalidPath
    );
    assert_eq!(
        open::create_client_immutable_store(Some("/store"), "/r/.lore"),
        "/store"
    );
    assert!(open::create_client_mutable_store(Some("/store"), "/r/.lore", true).is_err());
    assert_eq!(
        open::create_client_mutable_store(None, "/r/.lore", true).unwrap(),
        "/r/.lore"
    );
}

#[test]
fn stores_follow_the_access() {
    assert_eq!(
        open::choose_stores(RepositoryAccess::NoStore, false, true),
        StoreChoice::PrivateMemory
    );
    assert_eq!(
        open::choose_stores(RepositoryAccess::ReadOnly, true, true),
        StoreChoice::CachedMemory
    );
    assert_eq!(
        open::choose_stores(RepositoryAccess::ReadWrite, false, true),
        StoreChoice::Disk
    );
    assert!(open::load_and_connect(RepositoryAccess::ReadWrite));
    assert!(!open::load_and_connect(RepositoryAccess::ReadOnly));
    assert!(open::takes_repository_lock(RepositoryAccess::ReadOnly));
    assert!(!open::takes_repository_lock(RepositoryAccess::NoStore));
}

#[test]
fn connection_needs_a_remote() {
    let request = open::connect(
        context(1),
        false,
        &config(Some("lore://h")),
        &Some("me".to_string()),
    )
    .unwrap();
    assert_eq!(request.remote_url, "lore://h");
    assert_eq!(request.identity, "me");
    assert!(request.open_session);
    assert_eq!(
        open::connect(context(1), true, &config(Some("lore://h")), &None).unwrap_err(),
        ErrorKind::NoRemote
    );
    assert_eq!(
        open::connect(context(1), false, &config(None), &None).unwrap_err(),
        ErrorKind::NoRemote
    );
}

#[test]
fn identity_is_given_configured_or_asked_for() {
    assert!(matches!(
        open::choose_identity(Some("me"), true, &config(None)),
        IdentityChoice::Known(id) if id == "me"
    ));
    assert!(matches!(
        open::choose_identity(None, false, &config(Some("lore://h"))),
        IdentityChoice::Ask(url) if url == "lore://h"
    ));
    assert!(matches!(
        open::choose_identity(None, true, &config(Some("lore://h"))),
        IdentityChoice::Unknown
    ));
    let mut asked = config(Some("lore://h"));
    let (identity, save) =
        open::identity_from_remote("me", RepositoryAccess::ReadWrite, &mut asked);
    assert_eq!(identity, Some("me".to_string()));
    assert!(save);
    assert_eq!(asked.identity, Some("me".to_string()));
    assert_eq!(
        open::user_to_set("", &Some("me".to_string())),
        Some("me".to_string())
    );
    assert_eq!(open::user_to_set("you", &Some("me".to_string())), None);
}

#[test]
fn changed_remote_is_saved() {
    let mut stale = config(Some("lore://old"));
    assert!(open::refresh_config(
        &mut stale,
        "lore://new",
        "me",
        RepositoryAccess::ReadWrite
    ));
    assert_eq!(stale.remote_url, Some("lore://new".to_string()));
    assert!(!open::refresh_config(
        &mut stale,
        "lore://new",
        "me",
        RepositoryAccess::ReadWrite
    ));
    assert_eq!(open::upgrade_connection(false, None).unwrap(), None);
    assert_eq!(open::upgrade_connection(true, Some(Ok(3))).unwrap(), Some(3));
    assert!(open::upgrade_connection(true, None).is_err());
}

#[test]
fn instance_is_read_recovered_or_made() {
    let id = InstanceId { data: [3; 16] };
    assert_eq!(
        open::open_instance(InstanceRead::Found(id), RepositoryAccess::NoStore).unwrap(),
        id
    );
    assert!(
        open::open_instance(InstanceRead::NotFound, RepositoryAccess::ReadOnly)
            .unwrap()
            .is_zero()
    );
    assert_eq!(
        open::open_instance(InstanceRead::Failed, RepositoryAccess::ReadOnly)
            .unwrap_err()
            .inner(),
        "Repository not found"
    );
    assert!(open::open_instance(InstanceRead::NotFound, RepositoryAccess::NoStore).is_err());
    assert_eq!(open::settle_instance(id, None), (id, false));
    assert_eq!(
        open::settle_instance(InstanceId::default(), Some(id)),
        (id, true)
    );
    assert!(!open::settle_instance(InstanceId::default(), None).0.is_zero());
    assert!(open::needs_registration(true, None));
    assert!(!open::needs_registration(true, Some(hash(1))));
}

#[test]
fn opened_repository_may_be_written() {
    let open_with = |access, token, lock| OpenRepository {
        path: "/r".to_string(),
        access,
        write_token: token,
        id: context(1),
        instance_id: InstanceId::default(),
        remote: RemoteState::Offline,
        filter: DEFAULT_FILTER,
        format: RepositoryFormat::Lore,
        lock,
        file: None,
        cache: true,
    };
    let token = Some(RepositoryWriteToken::acquire(4));
    assert!(open::token_fits_access(RepositoryAccess::ReadWrite, &token));
    assert!(!open::token_fits_access(RepositoryAccess::ReadOnly, &token));
    let context = open::load_and_connect_with_token(open_with(
        RepositoryAccess::ReadWrite,
        token,
        Some(2),
    ));
    assert!(context.try_write_mutable_store());
    assert!(!context.disable_cache());
    let context =
        open::load_and_connect_with_token(open_with(RepositoryAccess::ReadOnly, None, Some(2)));
    assert!(!context.try_write_mutable_store());
    assert!(matches!(
        open::remote_state(None, Ok(4)),
        RemoteState::Pending(4)
    ));
    assert!(matches!(
        open::remote_state(Some(Err(ErrorKind::NoRemote)), Ok(4)),
        RemoteState::Offline
    ));
}

#[test]
fn anchor_files_are_migrated() {
    let anchor = Anchor {
        revision: hash(1),
        branch: context(2),
    };
    let migrated = open::migrate_current_anchor(true, AnchorFile::Read(anchor)).unwrap();
    assert_eq!(migrated.unwrap().revision, hash(1));
    assert!(open::migrate_current_anchor(true, AnchorFile::Unreadable).is_err());
    assert!(open::migrate_current_anchor(false, AnchorFile::Read(anchor))
        .unwrap()
        .is_none());
    assert_eq!(
        open::migrate_staged_anchor(true, AnchorFile::Read(anchor)),
        Some(hash(1))
    );
    assert_eq!(
        open::finish_migration(true, true),
        vec![
            MigrationStep::Flush,
            MigrationStep::RemoveCurrent,
            MigrationStep::RemoveStaged
        ]
    );
    assert!(open::finish_migration(false, false).is_empty());
}

#[test]
fn repository_is_created_once() {
    let token = RepositoryWriteToken::acquire(1);
    let created = open::create_local(
        "/r",
        false,
        &token,
        context(1),
        InstanceId::default(),
        true,
        false,
    )
    .unwrap();
    assert_eq!(created.stores, StoreChoice::PrivateMemory);
    assert_eq!(created.context.require_path().unwrap(), "/r");
    let error = open::create_local(
        "/r",
        true,
        &token,
        context(1),
        InstanceId::default(),
        false,
        false,
    )
    .unwrap_err();
    assert_eq!(error.kind, ErrorKind::RepositoryAlreadyExists);
    assert_eq!(error.translated(), LoreError::AlreadyExists);
    let (ignore, view) = open::load_filter(RepositoryFormat::Urc, false, true);
    assert_eq!((ignore, view.as_str()), (".urcignore", ".urc/view"));
}

#[test]
fn info_asks_for_the_given_url_or_the_working_one() {
    let id = context(0x11);
    assert_eq!(
        info::info_url(None, Some("lore://h"), id).unwrap(),
        "lore://h/11111111111111111111111111111111"
    );
    assert_eq!(
        info::info_url(Some("lore://x/y"), None, id).unwrap(),
        "lore://x/y"
    );
    assert_eq!(
        info::info_url(None, None, id).unwrap_err().inner(),
        "Invalid URL"
    );
    let (remote, name) = info::info_remote(Some("x.example/y"), None, id, "lores").unwrap();
    assert_eq!((remote.as_str(), name.as_str()), ("lores://x.example", "y"));
}

#[test]
fn listed_repositories_keep_their_order() {
    let remote = |byte: u8, name: &str| RemoteRepository {
        id: context(byte),
        name: name.to_string(),
    };
    let events = list(&vec![remote(2, "b"), remote(1, "a")]);
    assert_eq!(events.len(), 2);
    assert_eq!((events[0].id, events[0].name.as_str()), (context(2), "b"));
    assert_eq!(events[1].name, "a");
}

#[test]
fn repository_errors_have_codes() {
    let code = |kind| {
        RepositoryError {
            kind,
            detail: String::new(),
        }
        .translated()
    };
    assert_eq!(code(ErrorKind::SlowDown), LoreError::SlowDown);
    assert_eq!(code(ErrorKind::Oversized), LoreError::Oversized);
    assert_eq!(code(ErrorKind::LayerNotFound), LoreError::NotFound);
    assert_eq!(code(ErrorKind::InvalidPath), LoreError::InvalidArguments);
    assert_eq!(code(ErrorKind::AddressNotFound), LoreError::AddressNotFound);
    assert_eq!(code(ErrorKind::PayloadNotFound), LoreError::PayloadNotFound);
    assert_eq!(code(ErrorKind::Conflict), LoreError::Internal);
}
