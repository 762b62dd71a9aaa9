//! Opening and creating a repository: the decisions between reading its files,
//! making its stores and connecting to its remote.

use vstd::prelude::*;
use vstd::string::*;

use crate::errors::ErrorKind;
use crate::instance::Anchor;
use crate::instance::InstanceId;
use crate::repository::context::default_settings;
use crate::repository::context::RemoteState;
use crate::repository::context::RepositoryContext;
use crate::repository::context::RepositoryRuntimeSettings;
use crate::repository::context::RepositoryWriteToken;
use crate::repository::context::DEFAULT_FILTER;
use crate::repository::FileConfig;
use crate::repository::ImmutableStoreCreateOptions;
use crate::repository::RepositoryAccess;
use crate::repository::RepositoryConfig;
use crate::repository::RepositoryError;
use crate::repository::RepositoryFormat;
use crate::repository::number_or_zero;
use crate::repository::DOT_LOREIGNORE;
use crate::repository::DOT_URCIGNORE;
use crate::repository::VIEW_FILTER;
use crate::path::join;
use crate::path::joined;
use crate::text::text_equal;
use crate::types::ContentHash;
use crate::types::RepositoryId;

verus! {

/// The text of an option, or an empty text.
pub open spec fn text_or_empty(text: Option<String>) -> Seq<char> {
    match text {
        Some(t) => t@,
        None => Seq::empty(),
    }
}

fn as_text(text: &Option<String>) -> (value: &str)
    ensures
        value@ == text_or_empty(*text),
{
    match text {
        Some(t) => t.as_str(),
        None => {
            proof {
                reveal_strlit("");
            }
            assert(""@ =~= Seq::empty());
            ""
        },
    }
}

// ---------------------------------------------------------------------------
// Stores
// ---------------------------------------------------------------------------

/// Where a client keeps its immutable store: with the shared one if it uses one.
pub fn create_client_immutable_store(shared_path: Option<&str>, dot_path: &str) -> (path: String)
    ensures
        path@ == match shared_path {
            Some(shared) => shared@,
            None => dot_path@,
        },
{
    match shared_path {
        Some(shared) => shared.to_owned(),
        None => dot_path.to_owned(),
    }
}

/// Where a client keeps its mutable store: with the shared one if it uses one. A
/// repository that has a mutable store of its own cannot use a shared one.
pub fn create_client_mutable_store(
    shared_path: Option<&str>,
    dot_path: &str,
    has_local_store: bool,
) -> (result: Result<String, RepositoryError>)
    ensures
        result is Ok <==> shared_path is None || !has_local_store,
        result matches Ok(path) ==> path@ == match shared_path {
            Some(shared) => shared@,
            None => dot_path@,
        },
        result matches Err(e) ==> e.kind == ErrorKind::Internal && e.detail@
            == "This repository has a local mutable store but is configured to use a shared store. Reclone the repository with `lore clone --use-shared-store` to use the shared mutable store."@,
{
    match shared_path {
        Some(shared) => {
            if has_local_store {
                return Err(
                    RepositoryError::of(
                        ErrorKind::Internal,
                        "This repository has a local mutable store but is configured to use a shared store. Reclone the repository with `lore clone --use-shared-store` to use the shared mutable store.",
                    ),
                );
            }
            Ok(shared.to_owned())
        },
        None => Ok(dot_path.to_owned()),
    }
}

/// Which stores a command works on.
#[derive(Clone, Copy, Debug, PartialEq, Eq, Structural)]
pub enum StoreChoice {
    /// Stores in memory that no other command sees.
    PrivateMemory,
    /// The stores in memory that an earlier command made for the repository.
    CachedMemory,
    /// New stores in memory, kept for later commands.
    NewMemory,
    /// The stores on disk.
    Disk,
}

/// Chooses the stores of a command.
pub fn choose_stores(access: RepositoryAccess, in_memory: bool, has_cached: bool) -> (choice:
    StoreChoice)
    ensures
        choice == if access == RepositoryAccess::NoStore {
            StoreChoice::PrivateMemory
        } else if !in_memory {
            StoreChoice::Disk
        } else if has_cached {
            StoreChoice::CachedMemory
        } else {
            StoreChoice::NewMemory
        },
{
    if access == RepositoryAccess::NoStore {
        StoreChoice::PrivateMemory
    } else if in_memory {
        if has_cached {
            StoreChoice::CachedMemory
        } else {
            StoreChoice::NewMemory
        }
    } else {
        StoreChoice::Disk
    }
}

/// The store runs its background work: only for a command that may write, and
/// only where garbage collection is on and configured.
pub open spec fn collects_garbage(access: RepositoryAccess, gc: bool, config: RepositoryConfig) -> bool {
    access == RepositoryAccess::ReadWrite && gc && config.store is Some
}

/// The options of the immutable store, and whether writes to it are verified.
pub fn store_options(access: RepositoryAccess, gc: bool, config: &RepositoryConfig) -> (options: (
    ImmutableStoreCreateOptions,
    bool,
))
    ensures
        !collects_garbage(access, gc, *config) ==> {
            &&& options.0.max_capacity is None
            &&& options.0.eviction_delay is None
            &&& options.0.max_size is None
            &&& options.0.compaction_delay is None
        },
        collects_garbage(access, gc, *config) ==> {
            let store = config.store->0;
            &&& options.0.max_capacity == Some(number_or_zero(store.max_capacity))
            &&& options.0.eviction_delay == Some(number_or_zero(store.eviction_delay) as u64)
            &&& options.0.max_size == Some(
                match store.max_size {
                    Some(n) => n,
                    None => 0,
                },
            )
            &&& options.0.compaction_delay == Some(number_or_zero(store.compaction_delay) as u64)
        },
        options.1 == (config.store is Some && config.store->0.verify_write == Some(true)),
{
    let verify_write = match &config.store {
        Some(store) => match store.verify_write {
            Some(verify) => verify,
            None => false,
        },
        None => false,
    };
    if access == RepositoryAccess::ReadWrite && gc {
        if let Some(store) = &config.store {
            return (store.to_options(), verify_write);
        }
    }
    (ImmutableStoreCreateOptions::none(), verify_write)
}

// ---------------------------------------------------------------------------
// Connection
// ---------------------------------------------------------------------------

/// A connection to attempt.
#[derive(Debug)]
pub struct ConnectRequest {
    pub remote_url: String,
    /// Empty where no identity is known.
    pub identity: String,
    /// Open a session at once, so that it is ready when the command runs.
    pub open_session: bool,
}

/// The connection to attempt for a repository. There is none offline, and none
/// without a remote.
pub fn connect(
    repository: RepositoryId,
    offline: bool,
    config: &RepositoryConfig,
    identity: &Option<String>,
) -> (result: Result<ConnectRequest, ErrorKind>)
    ensures
        result is Ok <==> !offline && text_or_empty(config.remote_url).len() > 0,
        result matches Ok(request) ==> {
            &&& request.remote_url@ == text_or_empty(config.remote_url)
            &&& request.identity@ == text_or_empty(*identity)
            &&& request.open_session == !repository.is_zero()
        },
        result matches Err(kind) ==> kind == ErrorKind::NoRemote,
{
    if offline {
        return Err(ErrorKind::NoRemote);
    }
    let remote_url = as_text(&config.remote_url);
    if remote_url.is_empty() {
        return Err(ErrorKind::NoRemote);
    }
    Ok(
        ConnectRequest {
            remote_url: remote_url.to_owned(),
            identity: as_text(identity).to_owned(),
            open_session: !repository.is_zero(),
        },
    )
}

/// How the identity of a command is found.
#[derive(Debug)]
pub enum IdentityChoice {
    /// It is known: given, or else configured.
    Known(String),
    /// The remote at this URL is asked which identity it is logged in with.
    Ask(String),
    /// There is none.
    Unknown,
}

/// Chooses the identity of a command: the given one, the configured one, or the
/// one that the remote knows. Offline the remote is not asked, since picking
/// blindly from what was cached risks the wrong identity.
pub fn choose_identity(given: Option<&str>, offline: bool, config: &RepositoryConfig) -> (choice:
    IdentityChoice)
    ensures
        match choice {
            IdentityChoice::Known(identity) => match given {
                Some(g) => identity@ == g@,
                None => config.identity is Some && identity@ == config.identity->0@,
            },
            IdentityChoice::Ask(url) => {
                &&& given is None
                &&& config.identity is None
                &&& !offline
                &&& text_or_empty(config.remote_url).len() > 0
                &&& url@ == text_or_empty(config.remote_url)
            },
            IdentityChoice::Unknown => {
                &&& given is None
                &&& config.identity is None
                &&& offline || text_or_empty(config.remote_url).len() == 0
            },
        },
{
    if let Some(identity) = given {
        return IdentityChoice::Known(identity.to_owned());
    }
    if let Some(identity) = &config.identity {
        return IdentityChoice::Known(identity.clone());
    }
    let remote_url = as_text(&config.remote_url);
    if !offline && !remote_url.is_empty() {
        return IdentityChoice::Ask(remote_url.to_owned());
    }
    IdentityChoice::Unknown
}

/// Takes the identity that a remote answered with, empty where it has none. A
/// command that may write keeps it in the configuration, which is then saved.
pub fn identity_from_remote(
    answer: &str,
    access: RepositoryAccess,
    config: &mut RepositoryConfig,
) -> (identity: (Option<String>, bool))
    ensures
        identity.0 is Some <==> answer@.len() > 0,
        identity.0 matches Some(id) ==> id@ == answer@,
        identity.1 == (answer@.len() > 0 && access == RepositoryAccess::ReadWrite),
        identity.1 ==> final(config).identity is Some && final(config).identity->0@ == answer@,
        !identity.1 ==> final(config).identity == old(config).identity,
        final(config).remote_url == old(config).remote_url,
        final(config).shared_store_to_use == old(config).shared_store_to_use,
        final(config).store == old(config).store,
        final(config).file == old(config).file,
{
    if answer.is_empty() {
        return (None, false);
    }
    let save = access == RepositoryAccess::ReadWrite;
    if save {
        config.identity = Some(answer.to_owned());
    }
    (Some(answer.to_owned()), save)
}

/// The user that a command runs for, where it did not know one yet.
pub fn user_to_set(user_id: &str, identity: &Option<String>) -> (user: Option<String>)
    ensures
        user is Some <==> user_id@.len() == 0 && identity is Some,
        user matches Some(id) ==> id@ == identity->0@,
{
    if !user_id.is_empty() {
        return None;
    }
    match identity {
        Some(id) => Some(id.clone()),
        None => None,
    }
}

/// The connection that an upgrade of the local store works with. A store that
/// needs one cannot be opened without it.
pub fn upgrade_connection(needs_upgrade: bool, remote: Option<Result<u64, ErrorKind>>) -> (result: Result<
    Option<u64>,
    RepositoryError,
>)
    ensures
        result is Ok <==> !needs_upgrade || (remote is Some && remote->0 is Ok),
        result matches Ok(connection) ==> connection == if needs_upgrade {
            Some(remote->0->Ok_0)
        } else {
            None
        },
        result matches Err(e) ==> e.kind == ErrorKind::Internal && e.detail@
            == "Unable to upgrade local store to current client, need a connection to server"@,
{
    if !needs_upgrade {
        return Ok(None);
    }
    match remote {
        Some(Ok(connection)) => Ok(Some(connection)),
        _ => Err(
            RepositoryError::of(
                ErrorKind::Internal,
                "Unable to upgrade local store to current client, need a connection to server",
            ),
        ),
    }
}

/// Refreshes the configuration with what a connection knows, and tells whether
/// it is saved: it is when the remote or the identity differs and the command
/// may write. A connection that does not know its remote changes nothing.
pub fn refresh_config(
    config: &mut RepositoryConfig,
    remote_url: &str,
    identity: &str,
    access: RepositoryAccess,
) -> (save: bool)
    ensures
        ({
            let differs = remote_url@.len() > 0 && (remote_url@ != text_or_empty(
                old(config).remote_url,
            ) || identity@ != text_or_empty(old(config).identity));
            &&& save == (differs && access == RepositoryAccess::ReadWrite)
            &&& text_or_empty(final(config).remote_url) == if differs {
                remote_url@
            } else {
                text_or_empty(old(config).remote_url)
            }
            &&& text_or_empty(final(config).identity) == if differs && identity@.len() > 0 {
                identity@
            } else {
                text_or_empty(old(config).identity)
            }
            &&& !differs ==> *final(config) == *old(config)
        }),
        final(config).shared_store_to_use == old(config).shared_store_to_use,
        final(config).store == old(config).store,
        final(config).file == old(config).file,
{
    if remote_url.is_empty() || (text_equal(remote_url, as_text(&config.remote_url)) && text_equal(
        identity,
        as_text(&config.identity),
    )) {
        return false;
    }
    config.remote_url = Some(remote_url.to_owned());
    if !identity.is_empty() {
        config.identity = Some(identity.to_owned());
    }
    access == RepositoryAccess::ReadWrite
}

// ---------------------------------------------------------------------------
// Opening
// ---------------------------------------------------------------------------

/// Tells whether a command takes the per-path write mutex before it opens a
/// repository.
pub fn load_and_connect(access: RepositoryAccess) -> (acquire: bool)
    ensures
        acquire == (access == RepositoryAccess::ReadWrite),
{
    access == RepositoryAccess::ReadWrite
}

/// The pairs of access and token that a repository can be opened with: a command
/// that writes holds the client mutex, one that only reads has no token, and one
/// on stores of its own may have either.
pub open spec fn token_fits(access: RepositoryAccess, token: Option<RepositoryWriteToken>) -> bool {
    match access {
        RepositoryAccess::ReadOnly => token is None,
        RepositoryAccess::ReadWrite => token is Some && token->0 is Client,
        RepositoryAccess::NoStore => token is None || token->0 is Client,
    }
}

/// Tells whether a repository can be opened with an access and a token.
pub fn token_fits_access(access: RepositoryAccess, token: &Option<RepositoryWriteToken>) -> (fits:
    bool)
    ensures
        fits == token_fits(access, *token),
{
    match access {
        RepositoryAccess::ReadOnly => token.is_none(),
        RepositoryAccess::ReadWrite => match token {
            Some(RepositoryWriteToken::Client(_)) => true,
            _ => false,
        },
        RepositoryAccess::NoStore => match token {
            Some(RepositoryWriteToken::Server) => false,
            _ => true,
        },
    }
}

/// Tells whether a command takes the repository lock. One without stores does
/// not touch repository files.
pub fn takes_repository_lock(access: RepositoryAccess) -> (lock: bool)
    ensures
        lock == (access != RepositoryAccess::NoStore),
{
    access != RepositoryAccess::NoStore
}

/// What reading the identifier of the instance gave.
#[derive(Clone, Copy, Debug)]
pub enum InstanceRead {
    Found(InstanceId),
    NotFound,
    Failed,
}

/// The identifier of the instance as far as its file has it: the zero one stands
/// for an identifier to recover once the stores are there. A command without
/// stores cannot recover it.
pub fn open_instance(read: InstanceRead, access: RepositoryAccess) -> (result: Result<
    InstanceId,
    RepositoryError,
>)
    ensures
        result is Ok <==> read is Found || (read is NotFound && access
            != RepositoryAccess::NoStore),
        result matches Ok(id) ==> match read {
            InstanceRead::Found(found) => id == found,
            _ => id.is_zero(),
        },
        result matches Err(e) ==> e.kind == ErrorKind::Internal && e.detail@ == if read is NotFound {
            "Repository requires migration, open with disk access first"@
        } else {
            "Repository not found"@
        },
{
    match read {
        InstanceRead::Found(id) => Ok(id),
        InstanceRead::NotFound => {
            if access == RepositoryAccess::NoStore {
                return Err(
                    RepositoryError::of(
                        ErrorKind::Internal,
                        "Repository requires migration, open with disk access first",
                    ),
                );
            }
            Ok(InstanceId::default())
        },
        InstanceRead::Failed => Err(
            RepositoryError::of(ErrorKind::Internal, "Repository not found"),
        ),
    }
}

/// Settles the identifier of the instance: a zero one is recovered from the
/// registered instances, or else generated. Tells whether it is written to its
/// file.
pub fn settle_instance(id: InstanceId, recovered: Option<InstanceId>) -> (settled: (
    InstanceId,
    bool,
))
    ensures
        settled.1 == id.is_zero(),
        !id.is_zero() ==> settled.0 == id,
        id.is_zero() && recovered is Some ==> settled.0 == recovered->0,
        id.is_zero() && recovered is None ==> !settled.0.is_zero(),
{
    if !id.is_zero() {
        return (id, false);
    }
    match recovered {
        Some(found) => (found, true),
        None => (InstanceId::generate(), true),
    }
}

/// The state of the connection that a context starts with: settled where the
/// upgrade needed it, pending otherwise.
pub fn remote_state(resolved: Option<Result<u64, ErrorKind>>, attempt: Result<u64, ErrorKind>) -> (state:
    RemoteState)
    ensures
        state == match resolved {
            Some(result) => RemoteState::spec_from_result(result),
            None => match attempt {
                Ok(number) => RemoteState::Pending(number),
                Err(kind) => RemoteState::spec_from_result(Err(kind)),
            },
        },
{
    match resolved {
        Some(result) => RemoteState::from_result(result),
        None => match attempt {
            Ok(number) => RemoteState::Pending(number),
            Err(kind) => RemoteState::from_result(Err(kind)),
        },
    }
}

/// What was gathered for opening a repository.
pub struct OpenRepository {
    pub path: String,
    pub access: RepositoryAccess,
    pub write_token: Option<RepositoryWriteToken>,
    pub id: RepositoryId,
    pub instance_id: InstanceId,
    pub remote: RemoteState,
    pub filter: u64,
    pub format: RepositoryFormat,
    /// The repository lock, where one was taken.
    pub lock: Option<u64>,
    pub file: Option<FileConfig>,
    /// Fragments are cached.
    pub cache: bool,
}

/// An option that is set to true.
pub open spec fn is_set(option: Option<bool>) -> bool {
    option == Some(true)
}

fn set(option: Option<bool>) -> (value: bool)
    ensures
        value == is_set(option),
{
    match option {
        Some(value) => value,
        None => false,
    }
}

/// The settings of a context: nothing is uploaded until a command asks for it,
/// and files are accessed as configured.
pub open spec fn opened_settings(file: Option<FileConfig>, cache: bool) -> RepositoryRuntimeSettings {
    RepositoryRuntimeSettings {
        disable_upload: true,
        disable_cache: !cache,
        direct_file_write: file is Some && is_set(file->0.direct_write),
        direct_file_io: file is Some && is_set(file->0.direct_io),
    }
}

/// The context of a repository that was opened.
pub fn load_and_connect_with_token(open: OpenRepository) -> (context: RepositoryContext)
    requires
        token_fits(open.access, open.write_token),
        open.lock is Some <==> open.access != RepositoryAccess::NoStore,
    ensures
        context == (RepositoryContext {
            path: Some(open.path),
            id: open.id,
            instance_id: open.instance_id,
            remote: open.remote,
            filter: open.filter,
            format: open.format,
            settings: opened_settings(open.file, open.cache),
            is_link: false,
            is_layer: false,
            write_token: open.write_token,
            repo_lock: open.lock,
        }),
        open.access == RepositoryAccess::ReadWrite ==> context.may_write(),
        open.access == RepositoryAccess::ReadOnly ==> !context.may_write(),
{
    let context = RepositoryContext::new_with_state(
        Some(open.path),
        open.id,
        open.instance_id,
        open.remote,
        open.filter,
        open.format,
    );
    let context = match open.lock {
        Some(lock) => context.with_repository_lock(lock),
        None => context,
    };
    let mut context = match open.write_token {
        Some(token) => context.with_write_token(token),
        None => context,
    };
    context.set_disable_upload(true);
    let file = match open.file {
        Some(file) => file,
        None => FileConfig::default(),
    };
    context.set_direct_file_write(set(file.direct_write));
    context.set_direct_file_io(set(file.direct_io));
    context.set_disable_cache(!open.cache);
    context
}

/// Tells whether the instance has to be registered: only where the command may
/// write and the store does not know it yet.
pub fn needs_registration(may_write: bool, registered: Option<ContentHash>) -> (register: bool)
    ensures
        register == (may_write && (registered is None || registered->0.is_zero())),
{
    may_write && match registered {
        Some(hash) => hash.is_zero(),
        None => true,
    }
}

// ---------------------------------------------------------------------------
// Migrating anchors from files
// ---------------------------------------------------------------------------

/// What reading an anchor from a file of the older layout gave.
#[derive(Clone, Copy, Debug)]
pub enum AnchorFile {
    Missing,
    Unreadable,
    Read(Anchor),
}

/// The current anchor to move to the store. A file that cannot be read is a
/// failure.
pub fn migrate_current_anchor(may_write: bool, file: AnchorFile) -> (result: Result<
    Option<Anchor>,
    RepositoryError,
>)
    ensures
        result is Err <==> may_write && file is Unreadable,
        result matches Ok(anchor) ==> anchor == match file {
            AnchorFile::Read(read) => if may_write {
                Some(read)
            } else {
                None
            },
            _ => None,
        },
        result matches Err(e) ==> e.kind == ErrorKind::Internal && e.detail@
            == "Failed to deserialize repository anchor"@,
{
    if !may_write {
        return Ok(None);
    }
    match file {
        AnchorFile::Missing => Ok(None),
        AnchorFile::Unreadable => Err(
            RepositoryError::of(ErrorKind::Internal, "Failed to deserialize repository anchor"),
        ),
        AnchorFile::Read(anchor) => Ok(Some(anchor)),
    }
}

/// The staged revision to move to the store. A file that cannot be read stays.
pub fn migrate_staged_anchor(may_write: bool, file: AnchorFile) -> (revision: Option<ContentHash>)
    ensures
        revision == match file {
            AnchorFile::Read(read) => if may_write {
                Some(read.revision)
            } else {
                None
            },
            _ => None,
        },
{
    if !may_write {
        return None;
    }
    match file {
        AnchorFile::Read(anchor) => Some(anchor.revision),
        _ => None,
    }
}

/// A step that ends the migration of anchor files.
#[derive(Clone, Copy, Debug, PartialEq, Eq, Structural)]
pub enum MigrationStep {
    /// Flush the mutable store.
    Flush,
    /// Remove the file of the current anchor.
    RemoveCurrent,
    /// Remove the file of the staged anchor.
    RemoveStaged,
}

/// What is done once anchors are in the store. The files go only after the store
/// was flushed, so that a crash on the way loses nothing.
pub open spec fn migration_steps(migrated_current: bool, migrated_staged: bool) -> Seq<MigrationStep> {
    if migrated_current && migrated_staged {
        seq![MigrationStep::Flush, MigrationStep::RemoveCurrent, MigrationStep::RemoveStaged]
    } else if migrated_current {
        seq![MigrationStep::Flush, MigrationStep::RemoveCurrent]
    } else if migrated_staged {
        seq![MigrationStep::Flush, MigrationStep::RemoveStaged]
    } else {
        Seq::empty()
    }
}

/// What is done once anchors are in the store.
pub fn finish_migration(migrated_current: bool, migrated_staged: bool) -> (steps: Vec<MigrationStep>)
    ensures
        steps@ == migration_steps(migrated_current, migrated_staged),
{
    let mut steps: Vec<MigrationStep> = Vec::new();
    if migrated_current || migrated_staged {
        steps.push(MigrationStep::Flush);
    }
    if migrated_current {
        steps.push(MigrationStep::RemoveCurrent);
    }
    if migrated_staged {
        steps.push(MigrationStep::RemoveStaged);
    }
    assert(steps@ =~= migration_steps(migrated_current, migrated_staged));
    steps
}

/// No anchor file goes before the store was flushed.
pub proof fn law_store_is_flushed_first(migrated_current: bool, migrated_staged: bool, i: int)
    requires
        0 <= i < migration_steps(migrated_current, migrated_staged).len(),
    ensures
        migration_steps(migrated_current, migrated_staged)[i] == MigrationStep::Flush <==> i == 0,
{
}

// ---------------------------------------------------------------------------
// Creating
// ---------------------------------------------------------------------------

/// What creating a repository comes to.
#[derive(Debug)]
pub struct CreateRepository {
    pub context: RepositoryContext,
    pub stores: StoreChoice,
}

/// Creates a repository in a directory that holds none yet, of either layout.
/// Its stores are in memory where it is not tracked or the command says so, and
/// only those of a tracked repository are kept.
pub fn create_local(
    path: &str,
    has_repository: bool,
    token: &RepositoryWriteToken,
    id: RepositoryId,
    instance_id: InstanceId,
    no_tracking: bool,
    in_memory: bool,
) -> (result: Result<CreateRepository, RepositoryError>)
    ensures
        result is Ok <==> !has_repository,
        result matches Err(e) ==> e.kind == ErrorKind::RepositoryAlreadyExists && e.detail@ == path@,
        result matches Ok(created) ==> {
            &&& created.stores == if no_tracking {
                StoreChoice::PrivateMemory
            } else if in_memory {
                StoreChoice::NewMemory
            } else {
                StoreChoice::Disk
            }
            &&& created.context == (RepositoryContext {
                path: created.context.path,
                id,
                instance_id,
                remote: RemoteState::Offline,
                filter: DEFAULT_FILTER,
                format: RepositoryFormat::Lore,
                settings: default_settings(),
                is_link: false,
                is_layer: false,
                write_token: Some(*token),
                repo_lock: None,
            })
            &&& created.context.path is Some
            &&& created.context.path->0@ == path@
        },
{
    if has_repository {
        return Err(
            RepositoryError {
                kind: ErrorKind::RepositoryAlreadyExists,
                detail: path.to_owned(),
            },
        );
    }
    let stores = if no_tracking {
        StoreChoice::PrivateMemory
    } else if in_memory {
        StoreChoice::NewMemory
    } else {
        StoreChoice::Disk
    };
    let context = RepositoryContext::new(
        Some(path.to_owned()),
        id,
        instance_id,
        Err(ErrorKind::NoRemote),
        DEFAULT_FILTER,
        RepositoryFormat::Lore,
    ).with_write_token(token.share());
    Ok(CreateRepository { context, stores })
}

/// The files that the filter of a repository is read from, relative to its root:
/// the ignore file and the view. Both layouts use the same ignore file, and the
/// older one is read where that is missing.
pub fn load_filter(format: RepositoryFormat, has_loreignore: bool, has_urcignore: bool) -> (files: (
    &'static str,
    String,
))
    ensures
        files.0@ == if !has_loreignore && has_urcignore {
            DOT_URCIGNORE@
        } else {
            DOT_LOREIGNORE@
        },
        files.1@ == joined(format.spec_dot_dir(), VIEW_FILTER@),
{
    let ignore = if !has_loreignore && has_urcignore {
        DOT_URCIGNORE
    } else {
        format.ignore_file()
    };
    (ignore, join(format.dot_dir(), VIEW_FILTER))
}

} // verus!
