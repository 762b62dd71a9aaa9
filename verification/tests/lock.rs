use lore_revision::errors::ErrorKind;
use lore_revision::errors::LoreError;
use lore_revision::lock::add_resource;
use lore_revision::lock::file::query::query;
use lore_revision::lock::file::query::query_branch;
use lore_revision::lock::file::query::query_path;
use lore_revision::lock::file::query::QueryPath;
use lore_revision::lock::file::release::release;
use lore_revision::lock::file::release::release_path;
use lore_revision::lock::file::release::release_resources;
use lore_revision::lock::file::release::release_scope;
use lore_revision::lock::file::release::ReleaseBatch;
use lore_revision::lock::file::release::ReleaseOptions;
use lore_revision::lock::file::release::ReleasePath;
use lore_revision::lock::file::release::ReleaseReport;
use lore_revision::lock::file::release::ReleaseScope;
use lore_revision::lock::file::status::status;
use lore_revision::lock::file::status::status_path;
use lore_revision::lock::file::status::StatusBatch;
use lore_revision::lock::file::status::StatusPath;
use lore_revision::lock::lock_branch;
use lore_revision::lock::lock_owner;
use lore_revision::lock::resource_batches;
use lore_revision::lock::LockData;
use lore_revision::lock::LockError;
use lore_revision::lock::LockResource;
use lore_revision::types::Context;

fn resource(path: &str) -> LockResource {
    LockResource {
        branch: Context::new([1; 16]),
        description: path.to_string(),
    }
}

fn lock(path: &str, owner: &str) -> LockData {
    LockData {
        resource: resource(path),
        owner: owner.to_string(),
        locked_at: 5,
    }
}

#[test]
fn lock_branch_and_owner_are_resolved() {
    let current = Context::new([2; 16]);
    assert_eq!(lock_branch("", None, current).unwrap(), current);
    assert_eq!(
        lock_branch("x", None, current).unwrap_err().inner(),
        "Invalid branch"
    );
    assert_eq!(
        lock_owner("id", "name", None).unwrap(),
        Some("id".to_string())
    );
    assert_eq!(
        lock_owner("", "name", Some("user".to_string())).unwrap(),
        Some("user".to_string())
    );
    assert_eq!(lock_owner("", "", None).unwrap(), None);
    let error = lock_owner("", "name", None).unwrap_err();
    assert_eq!(error.kind, ErrorKind::Internal);
    assert_eq!(error.translated(), LoreError::Internal);
}

#[test]
fn resources_are_distinct_and_batched() {
    let mut resources = vec![];
    for path in ["a", "b", "a", "c"] {
        add_resource(&mut resources, path, Context::new([1; 16]));
    }
    assert_eq!(resources.len(), 3);
    let batches = resource_batches(resources, 2);
    assert_eq!(batches.len(), 2);
    assert_eq!((batches[0].len(), batches[1].len()), (2, 1));
    assert_eq!(batches[1][0].description, "c");
}

#[test]
fn release_needs_paths_or_force() {
    let options = |paths: Vec<String>| ReleaseOptions {
        paths,
        branch: String::new(),
        owner: String::new(),
        owner_id: String::new(),
    };
    assert_eq!(
        release_scope(&options(vec!["a".to_string()]), false),
        ReleaseScope::Paths
    );
    assert_eq!(release_scope(&options(vec![]), true), ReleaseScope::All);
    assert_eq!(release_scope(&options(vec![]), false), ReleaseScope::Nothing);
    assert!(release_path("a", false, false, true).unwrap());
    assert!(!release_path("a", false, true, true).unwrap());
    assert_eq!(
        release_path("a", false, false, false).unwrap_err().inner(),
        "Invalid path: a"
    );
}

#[test]
fn resources_to_release_are_found() {
    let branch = Context::new([1; 16]);
    let path = |name: &str, excluded, in_repository| ReleasePath {
        path: name.to_string(),
        relative: Some(name.to_string()),
        excluded,
        in_repository,
    };
    let found = |paths: Vec<ReleasePath>, force| {
        release_resources(&paths, &vec![], force, branch).map(|resources| {
            resources
                .into_iter()
                .map(|resource| resource.description)
                .collect::<Vec<String>>()
        })
    };
    assert!(found(vec![], false).unwrap().is_empty());
    assert!(found(vec![path("a", true, true)], false).unwrap().is_empty());
    assert_eq!(
        found(vec![path("a", false, true), path("a", false, true)], false).unwrap(),
        vec!["a"]
    );
    let error = found(vec![path("a", false, true), path("b", false, false)], false).unwrap_err();
    assert_eq!((error.kind, error.inner().as_str()), (ErrorKind::Internal, "Invalid path: b"));
    assert_eq!(found(vec![path("b", true, false)], true).unwrap(), vec!["b"]);
    let mut outside = path("c", false, false);
    outside.relative = None;
    assert_eq!(found(vec![outside], true).unwrap_err().kind, ErrorKind::InvalidPath);
    let held = vec![lock("x", "u"), lock("x", "v"), lock("y", "u")];
    let all = release_resources(&vec![], &held, true, branch).unwrap();
    assert_eq!(all.len(), 2);
    assert!(release_resources(&vec![], &held, false, branch).unwrap().is_empty());
}

#[test]
fn released_paths_are_sorted() {
    let batches = vec![
        ReleaseBatch::Released(vec![resource("c"), resource("a")]),
        ReleaseBatch::Failed,
        ReleaseBatch::Released(vec![resource("b")]),
    ];
    match release(&batches, false).unwrap() {
        ReleaseReport::Released(events) => {
            let paths: Vec<&str> = events.iter().map(|event| event.path.as_str()).collect();
            assert_eq!(paths, vec!["a", "b", "c"]);
        }
        _ => panic!("locks were released"),
    }
    assert!(matches!(
        release(&vec![], false).unwrap(),
        ReleaseReport::Nothing
    ));
    assert!(release(&vec![], true).is_err());
    assert!(matches!(
        release(&vec![ReleaseBatch::Released(vec![])], false).unwrap(),
        ReleaseReport::NotFound(event) if event.unused == 0
    ));
    assert_eq!(
        release(&vec![ReleaseBatch::Failed], false)
            .unwrap_err()
            .inner(),
        "Failed to release the lock"
    );
    assert_eq!(
        release(&batches, true).unwrap_err().inner(),
        "Failed executing batch task"
    );
}

#[test]
fn queried_locks_are_sorted() {
    let (begin, events) = query(&vec![lock("b", "x"), lock("a", "y")]);
    assert_eq!(begin.count, 2);
    assert_eq!(events[0].path, "a");
    assert_eq!(events[0].owner, "y");
    assert_eq!(events[1].locked_at, 5);
    assert_eq!(query_branch("", None).unwrap(), None);
    assert!(query_branch("x", None).is_err());
    assert!(matches!(query_path("", "", false, false), QueryPath::Any));
    assert!(matches!(
        query_path("a", "r/a", false, true),
        QueryPath::Excluded
    ));
    assert!(matches!(
        query_path("a", "r/a", true, true),
        QueryPath::Only(path) if path == "r/a"
    ));
}

#[test]
fn lock_status_needs_every_batch() {
    let (begin, events) = status(
        &vec![
            StatusBatch::Found(vec![lock("b", "x")]),
            StatusBatch::Found(vec![lock("a", "y")]),
        ],
        false,
    )
    .unwrap();
    assert_eq!(begin.count, 2);
    assert_eq!(events[0].path, "a");
    let failed = vec![StatusBatch::Found(vec![]), StatusBatch::Failed];
    let error: LockError = status(&failed, false).unwrap_err();
    assert_eq!(error.inner(), "Failed to fetch lock status");
    assert!(matches!(
        status_path("a", false, false, false),
        StatusPath::Ignore(event) if event.path == "a"
    ));
    assert!(matches!(
        status_path("a", false, true, true),
        StatusPath::Skip
    ));
    assert!(matches!(
        status_path("a", false, false, true),
        StatusPath::Include
    ));
}
