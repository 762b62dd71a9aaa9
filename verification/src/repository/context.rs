//! The context of a command: which repository it acts on, with what remote
//! connection, and whether it may write.

use vstd::prelude::*;
use vstd::string::*;

use crate::errors::ErrorKind;
use crate::instance::InstanceId;
use crate::repository::RepositoryError;
use crate::repository::RepositoryFormat;
use crate::types::RepositoryId;

verus! {

/// Switches of a command.
#[derive(Clone, Copy, Debug, PartialEq, Eq, Structural)]
pub struct RepositoryRuntimeSettings {
    /// Disable store fragments on remote
    pub disable_upload: bool,
    /// Disable caching fragments locally on get from remote (except state fragments which are always cached)
    pub disable_cache: bool,
    /// Write directly to target file instead of write to temporary file + move
    pub direct_file_write: bool,
    /// Use direct file I/O instead of memory mapping files
    pub direct_file_io: bool,
}

/// The settings that a command starts with.
pub open spec fn default_settings() -> RepositoryRuntimeSettings {
    RepositoryRuntimeSettings {
        disable_upload: true,
        disable_cache: true,
        direct_file_write: false,
        direct_file_io: false,
    }
}

impl Default for RepositoryRuntimeSettings {
    fn default() -> (settings: RepositoryRuntimeSettings)
        ensures
            settings == default_settings(),
    {
        RepositoryRuntimeSettings {
            disable_upload: true,
            disable_cache: true,
            direct_file_write: false,
            direct_file_io: false,
        }
    }
}

/// Proof of write capability for a repository command.
///
/// A client token stands for a guard on the per-path write mutex, by number; a
/// command that builds several contexts hands each of them a sibling that shares
/// the guard. A server token carries nothing: the storage layer serializes
/// writes there.
#[derive(Debug, PartialEq, Eq, Structural)]
pub enum RepositoryWriteToken {
    Client(u64),
    Server,
}

/// Marker trait that gates [`RepositoryWriteToken::server`].
///
/// Server-side crates implement this on a private unit type to opt in to minting
/// server tokens. It exists purely to make "I am a server" a compile-time
/// prerequisite for skipping the per-path write mutex.
pub trait ServerContext {

}

struct InternalServerContext;

impl ServerContext for InternalServerContext {

}

impl RepositoryWriteToken {
    /// The token for a guard that was acquired.
    pub fn acquire(guard: u64) -> (token: RepositoryWriteToken)
        ensures
            token == RepositoryWriteToken::Client(guard),
    {
        RepositoryWriteToken::Client(guard)
    }

    /// Mint a server token. No mutex is taken.
    pub fn server<S: ServerContext>(_context: &S) -> (token: RepositoryWriteToken)
        ensures
            token == RepositoryWriteToken::Server,
    {
        RepositoryWriteToken::Server
    }

    /// Produce a sibling token, which shares the guard.
    pub fn share(&self) -> (sibling: RepositoryWriteToken)
        ensures
            sibling == *self,
    {
        match self {
            RepositoryWriteToken::Client(guard) => RepositoryWriteToken::Client(*guard),
            RepositoryWriteToken::Server => RepositoryWriteToken::Server,
        }
    }
}

fn share_token(token: &Option<RepositoryWriteToken>) -> (sibling: Option<RepositoryWriteToken>)
    ensures
        sibling == *token,
{
    match token {
        Some(t) => Some(t.share()),
        None => None,
    }
}

/// State machine for the remote connection. Connections and pending attempts are
/// known by number.
#[derive(Clone, Copy, Debug, PartialEq, Eq, Structural)]
pub enum RemoteState {
    /// No remote configured, or offline: permanent terminal state.
    Offline,
    /// Connection attempt in flight.
    Pending(u64),
    /// Connection established.
    Connected(u64),
    /// Connection attempt failed; terminal state for this context.
    Failed(ErrorKind),
}

/// Snapshot returned by `RepositoryContext::remote_status`. Mirrors
/// `RemoteState` without carrying the attempt, so callers never accidentally
/// drive the connect from a snapshot.
#[derive(Clone, Copy, Debug, PartialEq, Eq, Structural)]
pub enum RemoteStatus {
    Offline,
    Pending,
    Connected(u64),
    Failed(ErrorKind),
}

/// What a context answers when asked for its remote connection.
#[derive(Clone, Copy, Debug)]
pub enum RemoteAnswer {
    /// The outcome is known.
    Resolved(Result<u64, ErrorKind>),
    /// The attempt with this number has to be awaited first.
    Await(u64),
}

impl RemoteState {
    /// The terminal state for the outcome of a connection attempt. Where no
    /// remote is configured, that is no failure.
    pub open spec fn spec_from_result(remote: Result<u64, ErrorKind>) -> RemoteState {
        match remote {
            Ok(connection) => RemoteState::Connected(connection),
            Err(kind) => if kind == ErrorKind::NoRemote {
                RemoteState::Offline
            } else {
                RemoteState::Failed(kind)
            },
        }
    }

    /// Classify a resolved connect result into a terminal state. A `NoRemote`
    /// error reflects "no remote configured" rather than a failure, so it
    /// becomes `Offline`.
    pub fn from_result(remote: Result<u64, ErrorKind>) -> (state: RemoteState)
        ensures
            state == RemoteState::spec_from_result(remote),
    {
        match remote {
            Ok(connection) => RemoteState::Connected(connection),
            Err(kind) => if kind == ErrorKind::NoRemote {
                RemoteState::Offline
            } else {
                RemoteState::Failed(kind)
            },
        }
    }

    /// What the state answers when asked for the connection.
    pub open spec fn answer(self) -> RemoteAnswer {
        match self {
            RemoteState::Offline => RemoteAnswer::Resolved(Err(ErrorKind::NoRemote)),
            RemoteState::Connected(connection) => RemoteAnswer::Resolved(Ok(connection)),
            RemoteState::Failed(kind) => RemoteAnswer::Resolved(Err(kind)),
            RemoteState::Pending(attempt) => RemoteAnswer::Await(attempt),
        }
    }

    /// The state once an attempt resolved: only a pending one changes.
    pub open spec fn promoted(self, result: Result<u64, ErrorKind>) -> RemoteState {
        if self is Pending {
            RemoteState::spec_from_result(result)
        } else {
            self
        }
    }
}

/// The context of a command.
#[derive(Debug)]
pub struct RepositoryContext {
    /// Working-tree path for this repository. `None` for path-less contexts that
    /// operate only on the underlying stores.
    pub path: Option<String>,
    pub id: RepositoryId,
    pub instance_id: InstanceId,
    pub remote: RemoteState,
    /// The filter view of the context, by number.
    pub filter: u64,
    pub format: RepositoryFormat,
    pub settings: RepositoryRuntimeSettings,
    pub is_link: bool,
    pub is_layer: bool,
    pub write_token: Option<RepositoryWriteToken>,
    /// The process-local repository lock that the context keeps alive.
    pub repo_lock: Option<u64>,
}

/// The number of the filter view that hides nothing.
pub const DEFAULT_FILTER: u64 = 0;

fn copy_path(path: &Option<String>) -> (copy: Option<String>)
    ensures
        same_path(copy, *path),
{
    match path {
        Some(p) => Some(p.clone()),
        None => None,
    }
}

/// Two contexts have the same working tree, or none.
pub open spec fn same_path(a: Option<String>, b: Option<String>) -> bool {
    &&& a is Some <==> b is Some
    &&& a matches Some(p) ==> p@ == b->0@
}

impl RepositoryContext {
    /// The context has the capability to write.
    pub open spec fn may_write(&self) -> bool {
        self.write_token is Some
    }

    /// The context of a repository with the outcome of a connection attempt.
    pub fn new(
        path: Option<String>,
        id: RepositoryId,
        instance_id: InstanceId,
        remote: Result<u64, ErrorKind>,
        filter: u64,
        format: RepositoryFormat,
    ) -> (context: RepositoryContext)
        ensures
            context == (RepositoryContext {
                path,
                id,
                instance_id,
                remote: RemoteState::spec_from_result(remote),
                filter,
                format,
                settings: default_settings(),
                is_link: false,
                is_layer: false,
                write_token: None,
                repo_lock: None,
            }),
    {
        RepositoryContext::new_with_state(
            path,
            id,
            instance_id,
            RemoteState::from_result(remote),
            filter,
            format,
        )
    }

    /// The context of a repository with the state of its connection.
    pub fn new_with_state(
        path: Option<String>,
        id: RepositoryId,
        instance_id: InstanceId,
        remote: RemoteState,
        filter: u64,
        format: RepositoryFormat,
    ) -> (context: RepositoryContext)
        ensures
            context == (RepositoryContext {
                path,
                id,
                instance_id,
                remote,
                filter,
                format,
                settings: default_settings(),
                is_link: false,
                is_layer: false,
                write_token: None,
                repo_lock: None,
            }),
    {
        RepositoryContext {
            path,
            id,
            instance_id,
            remote,
            filter,
            format,
            settings: RepositoryRuntimeSettings::default(),
            is_link: false,
            is_layer: false,
            write_token: None,
            repo_lock: None,
        }
    }

    /// Borrow the working-tree path required by filesystem-backed operations.
    /// Path-less contexts have none.
    pub fn require_path(&self) -> (result: Result<&str, RepositoryError>)
        ensures
            result is Ok <==> self.path is Some,
            result matches Ok(path) ==> path@ == self.path->0@,
            result matches Err(e) ==> e.kind == ErrorKind::InvalidArguments && e.detail@
                == "repository context has no working-tree path"@,
    {
        match &self.path {
            Some(path) => Ok(path.as_str()),
            None => Err(
                RepositoryError::of(
                    ErrorKind::InvalidArguments,
                    "repository context has no working-tree path",
                ),
            ),
        }
    }

    /// Display the working-tree path for logging and error messages. Renders
    /// `<unset>` for path-less contexts.
    pub fn path_for_display(&self) -> (path: &str)
        ensures
            path@ == match self.path {
                Some(p) => p@,
                None => "<unset>"@,
            },
    {
        match &self.path {
            Some(path) => path.as_str(),
            None => "<unset>",
        }
    }

    /// Salt of the keys in the mutable store.
    pub fn salt(&self) -> (salt: &'static str)
        ensures
            salt@ == self.format.spec_salt(),
    {
        self.format.salt()
    }

    /// Attach a process-local repository lock holder to this context.
    pub fn with_repository_lock(self, lock: u64) -> (context: RepositoryContext)
        ensures
            context == (RepositoryContext { repo_lock: Some(lock), ..self }),
    {
        RepositoryContext { repo_lock: Some(lock), ..self }
    }

    /// Attach a [`RepositoryWriteToken`] to this context.
    pub fn with_write_token(self, token: RepositoryWriteToken) -> (context: RepositoryContext)
        ensures
            context == (RepositoryContext { write_token: Some(token), ..self }),
            context.may_write(),
    {
        RepositoryContext { write_token: Some(token), ..self }
    }

    /// Borrow the write capability token attached to this context, if any.
    pub fn try_write_token(&self) -> (token: Option<&RepositoryWriteToken>)
        ensures
            token is Some <==> self.may_write(),
            token matches Some(t) ==> Some(*t) == self.write_token,
    {
        match &self.write_token {
            Some(token) => Some(token),
            None => None,
        }
    }

    /// Opportunistic write access: tells whether the mutable store may be
    /// written.
    pub fn try_write_mutable_store(&self) -> (may_write: bool)
        ensures
            may_write == self.may_write(),
    {
        self.write_token.is_some()
    }

    /// Tells whether the mutable store is flushed after a command. The immutable
    /// store is flushed in any case, since read-only commands cache fragments
    /// there; the mutable one only changes under a write token.
    pub fn try_spawn_post_command_flush(&self) -> (flush_mutable_store: bool)
        ensures
            flush_mutable_store == self.may_write(),
    {
        self.write_token.is_some()
    }

    /// Create a server-side repository context.
    pub fn new_server_context(id: RepositoryId) -> (context: RepositoryContext)
        ensures
            context.path is None,
            context.id == id,
            context.instance_id.is_zero(),
            context.remote == RemoteState::Offline,
            context.filter == DEFAULT_FILTER,
            context.format == RepositoryFormat::Lore,
            context.settings == default_settings(),
            !context.is_link,
            !context.is_layer,
            context.write_token == Some(RepositoryWriteToken::Server),
            context.repo_lock is None,
    {
        RepositoryContext {
            path: None,
            id,
            instance_id: InstanceId::default(),
            remote: RemoteState::Offline,
            filter: DEFAULT_FILTER,
            format: RepositoryFormat::Lore,
            settings: RepositoryRuntimeSettings::default(),
            is_link: false,
            is_layer: false,
            write_token: Some(RepositoryWriteToken::server(&InternalServerContext)),
            repo_lock: None,
        }
    }

    /// The server-side context of another repository in the same stores.
    pub fn to_server_context(&self, id: RepositoryId) -> (context: RepositoryContext)
        ensures
            context == (RepositoryContext {
                path: context.path,
                id,
                remote: RemoteState::Offline,
                is_link: false,
                is_layer: false,
                write_token: Some(RepositoryWriteToken::Server),
                repo_lock: None,
                ..*self
            }),
            same_path(context.path, self.path),
    {
        RepositoryContext {
            path: copy_path(&self.path),
            id,
            instance_id: self.instance_id,
            remote: RemoteState::Offline,
            filter: self.filter,
            format: self.format,
            settings: self.settings,
            is_link: false,
            is_layer: false,
            write_token: Some(RepositoryWriteToken::server(&InternalServerContext)),
            repo_lock: None,
        }
    }

    /// A context of no repository.
    pub fn new_null_context() -> (context: RepositoryContext)
        ensures
            context.path is None,
            context.id.is_zero(),
            context.instance_id.is_zero(),
            context.remote == RemoteState::Offline,
            context.filter == DEFAULT_FILTER,
            context.format == RepositoryFormat::Lore,
            context.settings == default_settings(),
            !context.is_link,
            !context.is_layer,
            context.write_token == Some(RepositoryWriteToken::Server),
            context.repo_lock is None,
    {
        RepositoryContext::new_server_context(RepositoryId::default())
    }

    /// A read-only context of no repository in the same stores.
    pub fn to_null_context(&self) -> (context: RepositoryContext)
        ensures
            context == (RepositoryContext {
                path: context.path,
                id: context.id,
                remote: RemoteState::Offline,
                is_link: false,
                is_layer: false,
                write_token: None,
                repo_lock: None,
                ..*self
            }),
            same_path(context.path, self.path),
            context.id.is_zero(),
    {
        RepositoryContext {
            path: copy_path(&self.path),
            id: RepositoryId::default(),
            instance_id: self.instance_id,
            remote: RemoteState::Offline,
            filter: self.filter,
            format: self.format,
            settings: self.settings,
            is_link: false,
            is_layer: false,
            write_token: None,
            repo_lock: None,
        }
    }

    /// Rebuild this context with a different filter view and remote connection,
    /// inheriting everything else. The write token is shared.
    pub fn with_filter_and_remote(&self, filter: u64, remote: Result<u64, ErrorKind>) -> (context:
        RepositoryContext)
        ensures
            context == (RepositoryContext {
                path: context.path,
                remote: RemoteState::spec_from_result(remote),
                filter,
                ..*self
            }),
            same_path(context.path, self.path),
    {
        RepositoryContext {
            path: copy_path(&self.path),
            id: self.id,
            instance_id: self.instance_id,
            remote: RemoteState::from_result(remote),
            filter,
            format: self.format,
            settings: self.settings,
            is_link: self.is_link,
            is_layer: self.is_layer,
            write_token: share_token(&self.write_token),
            repo_lock: self.repo_lock,
        }
    }

    /// The context of a linked repository, connected through `module`.
    pub fn to_link_context(&self, id: RepositoryId, module: Result<u64, ErrorKind>) -> (context:
        RepositoryContext)
        ensures
            context == (RepositoryContext {
                path: context.path,
                id,
                remote: RemoteState::spec_from_result(module),
                is_link: true,
                is_layer: false,
                ..*self
            }),
            same_path(context.path, self.path),
    {
        RepositoryContext {
            path: copy_path(&self.path),
            id,
            instance_id: self.instance_id,
            remote: RemoteState::from_result(module),
            filter: self.filter,
            format: self.format,
            settings: self.settings,
            is_link: true,
            is_layer: false,
            write_token: share_token(&self.write_token),
            repo_lock: self.repo_lock,
        }
    }

    /// The context of a layer's repository, connected through `module`.
    pub fn to_layer_context(&self, id: RepositoryId, module: Result<u64, ErrorKind>) -> (context:
        RepositoryContext)
        ensures
            context == (RepositoryContext {
                path: context.path,
                id,
                remote: RemoteState::spec_from_result(module),
                is_link: false,
                is_layer: true,
                ..*self
            }),
            same_path(context.path, self.path),
    {
        RepositoryContext {
            path: copy_path(&self.path),
            id,
            instance_id: self.instance_id,
            remote: RemoteState::from_result(module),
            filter: self.filter,
            format: self.format,
            settings: self.settings,
            is_link: false,
            is_layer: true,
            write_token: share_token(&self.write_token),
            repo_lock: self.repo_lock,
        }
    }

    /// A read-only context with another filter view.
    pub fn to_filter_context(&self, filter: u64) -> (context: RepositoryContext)
        ensures
            context == (RepositoryContext {
                path: context.path,
                filter,
                write_token: None,
                ..*self
            }),
            same_path(context.path, self.path),
    {
        RepositoryContext {
            path: copy_path(&self.path),
            id: self.id,
            instance_id: self.instance_id,
            remote: self.remote,
            filter,
            format: self.format,
            settings: self.settings,
            is_link: self.is_link,
            is_layer: self.is_layer,
            write_token: None,
            repo_lock: self.repo_lock,
        }
    }

    /// Tells whether fragments are not cached.
    pub fn disable_cache(&self) -> (disabled: bool)
        ensures
            disabled == self.settings.disable_cache,
    {
        self.settings.disable_cache
    }

    /// Sets whether fragments are not cached.
    pub fn set_disable_cache(&mut self, disable: bool)
        ensures
            *final(self) == (RepositoryContext {
                settings: RepositoryRuntimeSettings {
                    disable_cache: disable,
                    ..old(self).settings
                },
                ..*old(self)
            }),
    {
        self.settings.disable_cache = disable;
    }

    /// Tells whether fragments are not uploaded.
    pub fn disable_upload(&self) -> (disabled: bool)
        ensures
            disabled == self.settings.disable_upload,
    {
        self.settings.disable_upload
    }

    /// Sets whether fragments are not uploaded.
    pub fn set_disable_upload(&mut self, disable: bool)
        ensures
            *final(self) == (RepositoryContext {
                settings: RepositoryRuntimeSettings {
                    disable_upload: disable,
                    ..old(self).settings
                },
                ..*old(self)
            }),
    {
        self.settings.disable_upload = disable;
    }

    /// Tells whether files are read and written without mapping them.
    pub fn direct_file_io(&self) -> (direct: bool)
        ensures
            direct == self.settings.direct_file_io,
    {
        self.settings.direct_file_io
    }

    /// Sets whether files are read and written without mapping them.
    pub fn set_direct_file_io(&mut self, direct: bool)
        ensures
            *final(self) == (RepositoryContext {
                settings: RepositoryRuntimeSettings {
                    direct_file_io: direct,
                    ..old(self).settings
                },
                ..*old(self)
            }),
    {
        self.settings.direct_file_io = direct;
    }

    /// Tells whether files are written in place.
    pub fn direct_file_write(&self) -> (direct: bool)
        ensures
            direct == self.settings.direct_file_write,
    {
        self.settings.direct_file_write
    }

    /// Sets whether files are written in place.
    pub fn set_direct_file_write(&mut self, direct: bool)
        ensures
            *final(self) == (RepositoryContext {
                settings: RepositoryRuntimeSettings {
                    direct_file_write: direct,
                    ..old(self).settings
                },
                ..*old(self)
            }),
    {
        self.settings.direct_file_write = direct;
    }

    /// The outcome of flushing both stores: the first failure, if any.
    pub fn flush(immutable: Result<(), ErrorKind>, mutable: Result<(), ErrorKind>) -> (result: Result<
        (),
        RepositoryError,
    >)
        ensures
            result is Ok <==> immutable is Ok && mutable is Ok,
            result matches Err(e) ==> {
                &&& e.detail@ == "Failed to flush stores to disk"@
                &&& e.kind == match immutable {
                    Err(kind) => kind,
                    Ok(_) => mutable->Err_0,
                }
            },
    {
        let kind = match immutable {
            Err(kind) => kind,
            Ok(()) => match mutable {
                Err(kind) => kind,
                Ok(()) => {
                    return Ok(());
                },
            },
        };
        Err(RepositoryError::of(kind, "Failed to flush stores to disk"))
    }

    /// The remote connection, or the attempt that has to be awaited for it.
    pub fn remote(&self) -> (answer: RemoteAnswer)
        ensures
            answer == self.remote.answer(),
    {
        match self.remote {
            RemoteState::Offline => RemoteAnswer::Resolved(Err(ErrorKind::NoRemote)),
            RemoteState::Connected(connection) => RemoteAnswer::Resolved(Ok(connection)),
            RemoteState::Failed(kind) => RemoteAnswer::Resolved(Err(kind)),
            RemoteState::Pending(attempt) => RemoteAnswer::Await(attempt),
        }
    }

    /// Takes the outcome of the pending attempt, so that later calls need not
    /// await it. A state that is settled stays.
    pub fn resolve_remote(&mut self, result: Result<u64, ErrorKind>)
        ensures
            *final(self) == (RepositoryContext {
                remote: old(self).remote.promoted(result),
                ..*old(self)
            }),
    {
        if let RemoteState::Pending(_) = self.remote {
            self.remote = RemoteState::from_result(result);
        }
    }

    /// Snapshot of the remote state, which never drives the pending connect.
    pub fn remote_status(&self) -> (status: RemoteStatus)
        ensures
            status == match self.remote {
                RemoteState::Offline => RemoteStatus::Offline,
                RemoteState::Pending(_) => RemoteStatus::Pending,
                RemoteState::Connected(connection) => RemoteStatus::Connected(connection),
                RemoteState::Failed(kind) => RemoteStatus::Failed(kind),
            },
    {
        match self.remote {
            RemoteState::Offline => RemoteStatus::Offline,
            RemoteState::Pending(_) => RemoteStatus::Pending,
            RemoteState::Connected(connection) => RemoteStatus::Connected(connection),
            RemoteState::Failed(kind) => RemoteStatus::Failed(kind),
        }
    }

    /// Tells whether this is the context of a linked repository.
    pub fn is_link(&self) -> (yes: bool)
        ensures
            yes == self.is_link,
    {
        self.is_link
    }

    /// Tells whether this is the context of a layer's repository.
    pub fn is_layer(&self) -> (yes: bool)
        ensures
            yes == self.is_layer,
    {
        self.is_layer
    }
}

/// Once an attempt resolved, every later caller gets its outcome.
pub proof fn law_resolved_remote_answers(state: RemoteState, result: Result<u64, ErrorKind>)
    requires
        state is Pending,
    ensures
        state.promoted(result).answer() == RemoteAnswer::Resolved(result),
{
}

/// A settled connection never changes: neither by the same outcome, taken by
/// another waiting caller, nor by any other.
pub proof fn law_settled_remote_stays(
    state: RemoteState,
    first: Result<u64, ErrorKind>,
    second: Result<u64, ErrorKind>,
)
    ensures
        state.promoted(first).promoted(second) == state.promoted(first),
{
}

} // verus!
