use lore_revision::errors::ErrorKind;
use lore_revision::instance::InstanceId;
use lore_revision::repository::context::RemoteAnswer;
use lore_revision::repository::context::RemoteState;
use lore_revision::repository::context::RemoteStatus;
use lore_revision::repository::context::RepositoryContext;
use lore_revision::repository::context::RepositoryWriteToken;
use lore_revision::repository::context::DEFAULT_FILTER;
use lore_revision::repository::RepositoryFormat;
use lore_revision::types::RepositoryId;

fn context_with_state(state: RemoteState) -> RepositoryContext {
    RepositoryContext::new_with_state(
        None,
        RepositoryId::default(),
        InstanceId::default(),
        state,
        DEFAULT_FILTER,
        RepositoryFormat::Lore,
    )
}

fn in_memory_context(path: Option<String>) -> RepositoryContext {
    RepositoryContext::new(
        path,
        RepositoryId::default(),
        InstanceId::default(),
        Err(ErrorKind::NoRemote),
        DEFAULT_FILTER,
        RepositoryFormat::Lore,
    )
}

/// Awaits the connection that an answer names, which comes to a result.
fn remote(
    ctx: &mut RepositoryContext,
    resolution: Result<u64, ErrorKind>,
) -> Result<u64, ErrorKind> {
    match ctx.remote() {
        RemoteAnswer::Resolved(result) => result,
        RemoteAnswer::Await(_) => {
            ctx.resolve_remote(resolution);
            resolution
        }
    }
}

#[test]
fn from_result_classifies_no_remote_as_offline() {
    let state = RemoteState::from_result(Err(ErrorKind::NoRemote));
    assert!(matches!(state, RemoteState::Offline));
}

#[test]
fn from_result_classifies_other_errors_as_failed() {
    let state = RemoteState::from_result(Err(ErrorKind::Disconnected));
    assert!(matches!(state, RemoteState::Failed(_)));
}

#[test]
fn remote_returns_no_remote_for_offline_state() {
    let ctx = context_with_state(RemoteState::Offline);
    assert!(matches!(
        ctx.remote(),
        RemoteAnswer::Resolved(Err(ErrorKind::NoRemote))
    ));
}

#[test]
fn remote_returns_original_error_for_failed_state() {
    let ctx = context_with_state(RemoteState::Failed(ErrorKind::Disconnected));
    assert!(matches!(
        ctx.remote(),
        RemoteAnswer::Resolved(Err(ErrorKind::Disconnected))
    ));
}

#[test]
fn pending_err_transitions_to_failed() {
    let mut ctx = context_with_state(RemoteState::Pending(7));

    // First call drives resolution.
    let result = remote(&mut ctx, Err(ErrorKind::Disconnected));
    assert!(matches!(result, Err(ErrorKind::Disconnected)));

    // State should now be promoted to terminal Failed.
    assert!(
        matches!(ctx.remote, RemoteState::Failed(_)),
        "state should be promoted to Failed after Pending resolution"
    );
}

#[test]
fn pending_no_remote_transitions_to_offline() {
    let mut ctx = context_with_state(RemoteState::Pending(7));

    let result = remote(&mut ctx, Err(ErrorKind::NoRemote));
    assert!(matches!(result, Err(ErrorKind::NoRemote)));

    assert!(
        matches!(ctx.remote, RemoteState::Offline),
        "NoRemote resolution should promote to Offline rather than Failed"
    );
}

#[test]
fn concurrent_awaiters_converge_on_single_resolution() {
    let mut ctx = context_with_state(RemoteState::Pending(7));

    // Many callers wait for the same connection, and each hands its result back.
    for _ in 0..16 {
        assert!(matches!(ctx.remote(), RemoteAnswer::Await(7)));
    }
    for _ in 0..16 {
        ctx.resolve_remote(Err(ErrorKind::Disconnected));
        assert!(matches!(
            ctx.remote(),
            RemoteAnswer::Resolved(Err(ErrorKind::Disconnected))
        ));
    }

    // State should be promoted exactly once to the terminal result.
    assert!(matches!(ctx.remote, RemoteState::Failed(_)));
}

#[test]
fn remote_status_reports_offline() {
    let ctx = context_with_state(RemoteState::Offline);
    assert!(matches!(ctx.remote_status(), RemoteStatus::Offline));
}

#[test]
fn remote_status_reports_failed() {
    let ctx = context_with_state(RemoteState::Failed(ErrorKind::Disconnected));
    assert!(matches!(
        ctx.remote_status(),
        RemoteStatus::Failed(ErrorKind::Disconnected)
    ));
}

#[test]
fn remote_status_reports_pending_without_driving_connect() {
    let ctx = context_with_state(RemoteState::Pending(7));
    assert!(matches!(ctx.remote_status(), RemoteStatus::Pending));
    // State must still be Pending: remote_status must not promote.
    assert!(matches!(ctx.remote, RemoteState::Pending(7)));
}

#[test]
fn cancelled_awaiter_does_not_break_subsequent_callers() {
    let mut ctx = context_with_state(RemoteState::Pending(7));

    // The first caller starts to wait, then is cancelled.
    assert!(matches!(ctx.remote(), RemoteAnswer::Await(7)));

    // A fresh caller should still get the resolved error and see the state promoted.
    let result = remote(&mut ctx, Err(ErrorKind::Disconnected));
    assert!(matches!(result, Err(ErrorKind::Disconnected)));
    assert!(matches!(ctx.remote, RemoteState::Failed(_)));
}

#[test]
fn no_store_context_with_client_token_grants_write_capability() {
    let token = RepositoryWriteToken::acquire(1);
    let with_token = in_memory_context(None).with_write_token(token);
    assert!(
        with_token.try_write_mutable_store(),
        "context with Client token should expose a write handle"
    );
}

#[test]
fn no_token_means_no_write_capability() {
    let ctx = in_memory_context(None);
    assert!(
        !ctx.try_write_mutable_store(),
        "context without a token must not expose a write handle"
    );
}

#[test]
fn require_path_returns_invalid_arguments_when_path_is_none() {
    let ctx = in_memory_context(None);
    let error = ctx
        .require_path()
        .expect_err("path-less context should reject require_path");
    assert_eq!(error.kind, ErrorKind::InvalidArguments);
}

#[test]
fn require_path_returns_path_when_set() {
    let path = "/tmp/lore-test-require-path";
    let ctx = in_memory_context(Some(path.to_string()));
    let got = ctx
        .require_path()
        .expect("path-bearing context should return path");
    assert_eq!(got, path);
}

#[test]
fn connected_remote_is_kept() {
    let mut ctx = context_with_state(RemoteState::Pending(7));
    ctx.resolve_remote(Ok(42));
    assert!(matches!(ctx.remote(), RemoteAnswer::Resolved(Ok(42))));
    ctx.resolve_remote(Err(ErrorKind::Disconnected));
    assert!(matches!(ctx.remote(), RemoteAnswer::Resolved(Ok(42))));
    assert!(matches!(ctx.remote_status(), RemoteStatus::Connected(42)));
}

#[test]
fn link_and_layer_contexts_are_told_apart() {
    let ctx = in_memory_context(Some("/repo".to_string()));
    let id = RepositoryId::new([3; 16]);
    let link = ctx.to_link_context(id, Ok(5));
    assert!(link.is_link() && !link.is_layer());
    assert_eq!(link.id, id);
    let layer = ctx.to_layer_context(id, Err(ErrorKind::NoRemote));
    assert!(layer.is_layer());
    assert_eq!(layer.id, id);
}

#[test]
fn settings_are_switched() {
    let mut ctx = in_memory_context(None);
    assert!(ctx.disable_cache());
    ctx.set_disable_cache(false);
    assert!(!ctx.disable_cache());
    ctx.set_disable_upload(true);
    assert!(ctx.disable_upload());
    ctx.set_direct_file_io(true);
    ctx.set_direct_file_write(true);
    assert!(ctx.direct_file_io() && ctx.direct_file_write());
}

#[test]
fn flush_reports_a_failing_store() {
    assert!(RepositoryContext::flush(Ok(()), Ok(())).is_ok());
    assert!(RepositoryContext::flush(Err(ErrorKind::Internal), Ok(())).is_err());
    assert!(RepositoryContext::flush(Ok(()), Err(ErrorKind::Internal)).is_err());
}

#[test]
fn derived_contexts_keep_what_they_do_not_change() {
    let base = in_memory_context(Some("/tree".to_string()));
    let id = RepositoryId::new([7; 16]);
    let server = base.to_server_context(id);
    assert_eq!((server.id, server.path.as_deref()), (id, Some("/tree")));
    assert!(server.try_spawn_post_command_flush());
    let null = server.to_null_context();
    assert!(null.id.is_zero() && null.write_token.is_none());
    assert!(!null.try_spawn_post_command_flush());
    let filtered = server.to_filter_context(9);
    assert_eq!((filtered.id, filtered.filter), (id, 9));
    assert!(filtered.write_token.is_none());
    let connected = server.with_filter_and_remote(4, Ok(5));
    assert_eq!(connected.filter, 4);
    assert!(connected.write_token.is_some());
    assert!(matches!(connected.remote, RemoteState::Connected(5)));
    assert!(RepositoryContext::new_null_context().id.is_zero());
}
