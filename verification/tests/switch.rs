use lore_revision::errors::ErrorKind;
use lore_revision::layer::Layer;
use lore_revision::link::BranchPoint;
use lore_revision::repository::switch;
use lore_revision::repository::switch::layers;
use lore_revision::repository::switch::layers::LayerReply;
use lore_revision::repository::switch::layers::LayerSwitch;
use lore_revision::repository::switch::layers::LayerSwitchFailure;
use lore_revision::repository::switch::BranchCreation;
use lore_revision::repository::switch::BranchSwitchOptions;
use lore_revision::repository::switch::FindMatchResult;
use lore_revision::repository::switch::LayerBranch;
use lore_revision::repository::switch::LayerCreate;
use lore_revision::repository::switch::LayerCreated;
use lore_revision::repository::switch::LoreBranchLocation;
use lore_revision::repository::switch::RemoteBranchStatus;
use lore_revision::repository::switch::RemoteLookup;
use lore_revision::repository::switch::RevisionNumber;
use lore_revision::repository::switch::SwitchAction;
use lore_revision::repository::switch::SwitchSides;
use lore_revision::repository::switch::LAST_NAME;
use lore_revision::types::ContentHash;
use lore_revision::types::Context;

fn hash(byte: u8) -> ContentHash {
    ContentHash::new([byte; 32])
}

fn context(byte: u8) -> Context {
    Context::new([byte; 16])
}

fn number(byte: u8, number: u64) -> Option<RevisionNumber> {
    Some(RevisionNumber {
        revision: hash(byte),
        number,
    })
}

fn options(reset: bool, bare: bool) -> BranchSwitchOptions {
    BranchSwitchOptions {
        signature: None,
        local: false,
        reset,
        search_nearest: false,
        bare,
    }
}

#[test]
fn given_revision_must_be_on_the_branch() {
    assert_eq!(
        switch::check_switch_revision(hash(1), context(2), context(2), hash(9)).unwrap(),
        hash(1)
    );
    assert_eq!(
        switch::check_switch_revision(hash(9), context(3), context(2), hash(9)).unwrap(),
        hash(9)
    );
    assert_eq!(
        switch::check_switch_revision(hash(1), context(3), context(2), hash(9))
            .unwrap_err()
            .inner(),
        "Given revision is not on the target branch"
    );
}

#[test]
fn remote_failure_matters_without_a_local_branch() {
    let failed = || RemoteLookup::Failed(ErrorKind::Disconnected);
    assert!(switch::remote_branch(false, failed(), true).unwrap().is_none());
    assert_eq!(
        switch::remote_branch(false, failed(), false)
            .unwrap_err()
            .kind,
        ErrorKind::Disconnected
    );
    let status = RemoteBranchStatus {
        latest: hash(1),
        metadata: hash(2),
    };
    assert!(switch::remote_branch(false, RemoteLookup::Found(status), false)
        .unwrap()
        .is_some());
    assert!(switch::remote_branch(true, RemoteLookup::BranchNotFound, false)
        .unwrap()
        .is_none());
}

#[test]
fn remote_history_is_searched_for_the_local_revision() {
    assert!(switch::searches_history(number(1, 4), number(2, 5)));
    assert!(!switch::searches_history(number(1, 5), number(2, 5)));
    assert!(!switch::searches_history(None, number(2, 5)));
    let local = RevisionNumber {
        revision: hash(1),
        number: 4,
    };
    let matched = |revision, other, n| switch::match_local_revision(revision, other, n, local);
    assert_eq!(matched(hash(1), hash(7), 5), FindMatchResult::Match);
    assert_eq!(matched(hash(8), hash(1), 5), FindMatchResult::Match);
    assert_eq!(matched(hash(8), hash(7), 5), FindMatchResult::Continue);
    assert_eq!(matched(hash(8), hash(7), 3), FindMatchResult::Abort);
}

#[test]
fn coherent_remote_branch_is_taken() {
    let sides = |coherent| SwitchSides {
        local_head: Some(hash(1)),
        remote_head: Some(hash(2)),
        local_state: number(1, 4),
        remote_state: number(2, 5),
        coherent,
    };
    let heads = switch::switch_heads("main", sides(true), ContentHash::default()).unwrap();
    assert_eq!(heads.location, LoreBranchLocation::Remote);
    assert_eq!(heads.signature, hash(2));
    assert!(!heads.create);
    let heads = switch::switch_heads("main", sides(false), hash(6)).unwrap();
    assert_eq!(heads.location, LoreBranchLocation::Local);
    assert_eq!(heads.latest_local, hash(1));
    assert_eq!(heads.signature, hash(6));
    let nothing = SwitchSides {
        local_head: None,
        remote_head: None,
        local_state: None,
        remote_state: None,
        coherent: false,
    };
    let error = switch::switch_heads("main", nothing, hash(6)).unwrap_err();
    assert_eq!(error.kind, ErrorKind::BranchNotFound);
    assert_eq!(error.inner(), "main");
}

#[test]
fn missing_parent_branch_is_created_first() {
    let stack = vec![BranchPoint {
        branch: context(3),
        revision: hash(1),
    }];
    assert!(matches!(
        switch::branch_switch_create(&stack, false),
        BranchCreation::Parent(branch) if branch == context(3)
    ));
    assert!(matches!(
        switch::branch_switch_create(&stack, true),
        BranchCreation::Create
    ));
}

#[test]
fn staged_changes_keep_a_branch() {
    assert!(switch::check_staged_state(false, false, Some(hash(1)), true).is_err());
    assert!(switch::check_staged_state(true, false, Some(hash(1)), true).is_ok());
    assert!(switch::check_staged_state(false, true, Some(hash(1)), true).is_ok());
    assert!(switch::check_staged_state(false, false, None, true).is_ok());
    assert!(switch::check_staged_state(false, false, Some(hash(1)), false).is_ok());
}

#[test]
fn switch_syncs_then_stores() {
    let sides = SwitchSides {
        local_head: None,
        remote_head: Some(hash(2)),
        local_state: None,
        remote_state: number(2, 5),
        coherent: true,
    };
    let heads = switch::switch_heads("main", sides, ContentHash::default()).unwrap();
    assert!(heads.create);
    let actions = switch::branch_switch(&heads, &options(false, false), false, false, None, false)
        .unwrap();
    assert!(matches!(
        actions[0],
        SwitchAction::Sync { revision, .. } if revision == hash(2)
    ));
    assert!(matches!(
        actions[1],
        SwitchAction::StoreLatest { divergent: false, .. }
    ));
    assert!(matches!(
        actions.last().unwrap(),
        SwitchAction::SwitchLayers
    ));
    assert!(actions
        .iter()
        .any(|action| matches!(action, SwitchAction::StoreLastSync(_))));
    let dry = switch::branch_switch(&heads, &options(false, false), false, true, None, false)
        .unwrap();
    assert_eq!(dry.len(), 1);
    let forced = switch::branch_switch(&heads, &options(false, true), true, false, Some(hash(9)), true)
        .unwrap();
    assert!(forced
        .iter()
        .any(|action| matches!(action, SwitchAction::DeleteStaged)));
    let staged = Some(hash(9));
    let error = switch::branch_switch(&heads, &options(false, false), false, false, staged, true)
        .unwrap_err();
    assert_eq!(error.kind, ErrorKind::InvalidArguments);
    assert_eq!(
        error.detail,
        "Unable to switch branch when there is a staged state"
    );
    let dirty = switch::branch_switch(&heads, &options(false, false), false, false, staged, false);
    assert_eq!(dirty.unwrap().len(), actions.len());
    assert!(
        switch::branch_switch(&heads, &options(true, false), false, false, staged, true).is_ok()
    );
    let data = switch::switch_data(context(1), "main", &heads);
    assert_eq!((data.name.as_str(), data.revision), ("main", hash(2)));
}

fn layer() -> Layer {
    Layer {
        target_path: "a".to_string(),
        source_path: "a".to_string(),
        repository: context(7),
        metadata: None,
        current: hash(1),
        staged: ContentHash::default(),
    }
}

#[test]
fn layer_branches_follow() {
    assert_eq!(
        switch::layer_branch(false, context(1), context(2)),
        LayerBranch::Create
    );
    assert_eq!(
        switch::layer_branch(false, context(2), context(2)),
        LayerBranch::AlreadyOn
    );
    assert_eq!(
        switch::layer_branch(true, context(1), context(2)),
        LayerBranch::Exists
    );
    assert!(matches!(
        switch::layer_created(LayerCreate::NameTaken(Some(context(3))), context(2)).unwrap(),
        LayerCreated::Rename
    ));
    assert!(matches!(
        switch::layer_created(LayerCreate::NameTaken(Some(context(2))), context(2)).unwrap(),
        LayerCreated::Resolve
    ));
    assert!(switch::layer_created(LayerCreate::NameTaken(None), context(2)).is_err());
    let stack = switch::layer_branch_stack(
        context(1),
        hash(2),
        &vec![BranchPoint {
            branch: context(3),
            revision: hash(4),
        }],
    );
    assert_eq!(stack.len(), 2);
    assert_eq!(stack[0].branch, context(1));
}

#[test]
fn layer_names_are_tried_in_turn() {
    assert_eq!(
        switch::layer_branch_name("main", context(0xAB)),
        "main-abababab"
    );
    assert_eq!(
        switch::numbered_name("main", context(0xAB), 1),
        "main-abababab"
    );
    assert_eq!(
        switch::numbered_name("main", context(0xAB), 2),
        "main-abababab-2"
    );
    assert_eq!(
        switch::numbered_name("main", context(0xAB), LAST_NAME),
        "main-abababab-9"
    );
}

#[test]
fn layer_moves_to_its_target() {
    let mut layer = layer();
    assert_eq!(switch::layer_target(&layer, None, None), hash(1));
    assert_eq!(switch::layer_target(&layer, Some(hash(5)), None), hash(5));
    layer.metadata = Some("build".to_string());
    assert_eq!(
        switch::layer_target(&layer, Some(hash(5)), Some(hash(6))),
        hash(6)
    );
    assert!(!switch::check_layer_staged(&layer, false).unwrap());
    layer.staged = hash(9);
    assert!(switch::check_layer_staged(&layer, false).is_err());
    assert!(switch::check_layer_staged(&layer, true).unwrap());
}

fn switched(layer: &Layer, replies: &[LayerReply]) -> LayerSwitch {
    let mut step = layers::start_layer_switch(layer, false);
    for reply in replies {
        step = layers::layer_switch(step, *reply, layer, context(2));
    }
    step
}

#[test]
fn layer_with_branch_is_switched() {
    let layer = layer();
    let replies = [LayerReply::Exists(true), LayerReply::Latest(Some(hash(5)))];
    assert!(matches!(switched(&layer, &replies), LayerSwitch::Sync(h) if h == hash(5)));
    let synced = [replies[0], replies[1], LayerReply::Synced(true)];
    assert!(matches!(switched(&layer, &synced), LayerSwitch::Done(Some(h)) if h == hash(5)));
    let failed = [replies[0], replies[1], LayerReply::Synced(false)];
    assert!(matches!(switched(&layer, &failed), LayerSwitch::Done(None)));
    let same = [LayerReply::Exists(true), LayerReply::Latest(Some(hash(1)))];
    assert!(matches!(switched(&layer, &same), LayerSwitch::Done(None)));
    let none = [LayerReply::Exists(true), LayerReply::Latest(None)];
    assert!(matches!(switched(&layer, &none), LayerSwitch::Done(None)));
    let broken = [
        replies[0],
        replies[1],
        LayerReply::NoPath(ErrorKind::InvalidPath),
    ];
    assert!(matches!(
        switched(&layer, &broken),
        LayerSwitch::Failed(LayerSwitchFailure::Layer(ErrorKind::InvalidPath))
    ));
}

#[test]
fn layer_with_metadata_looks_for_a_match() {
    let mut layer = layer();
    layer.metadata = Some("build".to_string());
    let start = [LayerReply::Exists(true), LayerReply::Latest(Some(hash(5)))];
    assert!(matches!(switched(&layer, &start), LayerSwitch::FindMatch(h) if h == hash(5)));
    let found = [start[0], start[1], LayerReply::Matched(Some(hash(6)))];
    assert!(matches!(switched(&layer, &found), LayerSwitch::Sync(h) if h == hash(6)));
    let missed = [start[0], start[1], LayerReply::Matched(None)];
    assert!(matches!(switched(&layer, &missed), LayerSwitch::Sync(h) if h == hash(5)));
}

#[test]
fn layer_branch_is_created_under_a_free_name() {
    let layer = layer();
    let mut replies = vec![
        LayerReply::Exists(false),
        LayerReply::CurrentBranch(context(1)),
    ];
    assert!(matches!(switched(&layer, &replies), LayerSwitch::Create));
    replies.push(LayerReply::Created(LayerCreate::NameTaken(Some(context(
        3,
    )))));
    assert!(matches!(
        switched(&layer, &replies),
        LayerSwitch::CreateAs(1)
    ));
    for number in 2..=LAST_NAME {
        replies.push(LayerReply::Created(LayerCreate::NameTaken(None)));
        assert!(matches!(switched(&layer, &replies), LayerSwitch::CreateAs(n) if n == number));
    }
    let mut created = replies.clone();
    created.push(LayerReply::Created(LayerCreate::Created));
    assert!(matches!(
        switched(&layer, &created),
        LayerSwitch::FindLatest
    ));
    replies.push(LayerReply::Created(LayerCreate::NameTaken(None)));
    assert!(matches!(
        switched(&layer, &replies),
        LayerSwitch::Failed(LayerSwitchFailure::Names)
    ));
}

#[test]
fn layer_that_cannot_follow_is_left_alone() {
    let mut layer = layer();
    let on_it = [
        LayerReply::Exists(false),
        LayerReply::CurrentBranch(context(2)),
    ];
    assert!(matches!(switched(&layer, &on_it), LayerSwitch::Done(None)));
    let failed = [
        LayerReply::Exists(false),
        LayerReply::CurrentBranch(context(1)),
        LayerReply::Created(LayerCreate::Failed),
    ];
    assert!(matches!(switched(&layer, &failed), LayerSwitch::Done(None)));
    layer.staged = hash(9);
    assert!(matches!(
        layers::start_layer_switch(&layer, false),
        LayerSwitch::Failed(LayerSwitchFailure::Staged)
    ));
    assert!(matches!(
        layers::start_layer_switch(&layer, true),
        LayerSwitch::ClearStaged
    ));
    let error = layers::layer_switch_error(LayerSwitchFailure::Staged);
    assert_eq!(
        error.detail,
        "Layer has uncommitted staged changes, commit or use --force"
    );
    let error = layers::layer_switch_error(LayerSwitchFailure::Metadata(ErrorKind::BranchNotFound));
    assert_eq!(error.kind, ErrorKind::BranchNotFound);
    assert_eq!(error.detail, "Failed to load branch metadata");
}

#[test]
fn layers_are_saved_together_or_not_at_all() {
    let mut other = layer();
    other.target_path = "other".to_string();
    let layers = vec![layer(), other];
    let saved = || {
        let mut copy = layer();
        copy.target_path = "other".to_string();
        vec![layer(), copy]
    };
    let outcomes = vec![LayerSwitch::Done(None), LayerSwitch::Done(Some(hash(5)))];
    let updates = layers::layer_updates(&layers, &outcomes).unwrap();
    assert_eq!(updates.len(), 1);
    assert_eq!(updates[0].target_path, "other");
    assert_eq!((updates[0].current, updates[0].repository), (hash(5), context(7)));
    let mut list = saved();
    assert!(layers::layer_branch_switch(&layers, &outcomes, &mut list).unwrap());
    assert_eq!((list[0].current, list[1].current), (hash(1), hash(5)));
    let outcomes = vec![
        LayerSwitch::Done(Some(hash(5))),
        LayerSwitch::Failed(LayerSwitchFailure::Staged),
    ];
    let mut list = saved();
    let error = layers::layer_branch_switch(&layers, &outcomes, &mut list).unwrap_err();
    assert_eq!(
        error.detail,
        "Layer has uncommitted staged changes, commit or use --force"
    );
    assert_eq!((list[0].current, list[1].current), (hash(1), hash(1)));
    assert!(!layers::layer_branch_switch(&vec![], &vec![], &mut list).unwrap());
}
