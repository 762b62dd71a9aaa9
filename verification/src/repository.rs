//! Repositories: their configuration, their state on disk and the operations
//! on a repository as a whole.

pub mod caches;
pub mod context;
pub mod info;
pub mod list;
pub mod open;
pub mod status;
pub mod switch;
pub mod verify;

use vstd::prelude::*;
use vstd::string::*;
use vstd::utf8::*;

use crate::errors::ErrorKind;
use crate::errors::LoreError;
use crate::hexadecimal::hex_bytes;
use crate::hexadecimal::hex_text;
use crate::hexadecimal::is_hex;
use crate::instance::number_of_key;
use crate::instance::text_of_key;
use crate::link::without_trailing_slashes;
use crate::metadata::buffer_limit;
use crate::metadata::distinct_keys;
use crate::metadata::has_key;
use crate::metadata::law_number_round_trip;
use crate::metadata::law_stored_value_is_found;
use crate::metadata::law_storing_keeps_keys_distinct;
use crate::metadata::law_storing_keeps_other_keys;
use crate::metadata::lookup;
use crate::metadata::stored;
use crate::metadata::well_formed;
use crate::metadata::Metadata;
use crate::metadata::MetadataItem;
use crate::metadata::MetadataType;
use crate::repository::context::RepositoryContext;
use crate::store::KeyType;
use crate::store::MutableKey;
use crate::store::StoreRequest;
use crate::text::chars_of;
use crate::text::decimal;
use crate::text::decimal_digits;
use crate::text::has_part;
use crate::text::text_equal;
use crate::text::text_has_part;
use crate::text::text_of;
use crate::types::all_zero;
use crate::types::BranchId;
use crate::types::ContentHash;
use crate::types::Context;
use crate::types::RepositoryId;
use crate::types::CONTEXT_SIZE;

verus! {

/// Data for the event emitted when a repository dump starts.
#[derive(Clone, Copy, Debug)]
pub struct LoreRepositoryDumpBeginEventData {
    /// Repository identifier.
    pub repository: RepositoryId,
    /// Revision being dumped.
    pub revision: ContentHash,
}

/// Data for the event emitted when a repository dump finishes.
#[derive(Clone, Copy, Debug, PartialEq, Eq, Structural)]
pub struct LoreRepositoryDumpEndEventData {
    /// Placeholder field. The event carries no data.
    pub unused: u32,
}

/// Data for the event emitted when a repository configuration value is read.
#[derive(Debug)]
pub struct LoreRepositoryConfigGetEventData {
    /// Configuration key.
    pub key: String,
    /// Configuration value for the key.
    pub value: String,
}

/// Directory that holds the state of a repository in the older layout.
pub const DOT_URC: &'static str = ".urc";

/// Directory that holds the state of a repository.
pub const DOT_LORE: &'static str = ".lore";

/// A name is that of a directory that holds repository state.
pub open spec fn is_dot_directory(name: Seq<char>) -> bool {
    name == DOT_URC@ || name == DOT_LORE@
}

/// Tells whether a name is that of a directory that holds repository state.
pub fn names_dot_directory(name: &str) -> (yes: bool)
    ensures
        yes == is_dot_directory(name@),
{
    text_equal(name, DOT_URC) || text_equal(name, DOT_LORE)
}

/// Failure of a repository operation.
#[derive(Debug)]
pub struct RepositoryError {
    pub kind: ErrorKind,
    pub detail: String,
}

impl RepositoryError {
    /// The code reported for each category.
    pub open spec fn spec_translated(kind: ErrorKind) -> LoreError {
        match kind {
            ErrorKind::Disconnected => LoreError::Connection,
            ErrorKind::SlowDown => LoreError::SlowDown,
            ErrorKind::Oversized => LoreError::Oversized,
            ErrorKind::FileNotFound => LoreError::FileNotFound,
            ErrorKind::NotFound
            | ErrorKind::RepositoryNotFound
            | ErrorKind::BranchNotFound
            | ErrorKind::RevisionNotFound
            | ErrorKind::LayerNotFound
            | ErrorKind::LinkNotFound
            | ErrorKind::NodeNotFound => LoreError::NotFound,
            ErrorKind::AddressNotFound => LoreError::AddressNotFound,
            ErrorKind::PayloadNotFound => LoreError::PayloadNotFound,
            ErrorKind::InvalidPath | ErrorKind::InvalidArguments => LoreError::InvalidArguments,
            ErrorKind::RepositoryAlreadyExists | ErrorKind::BranchAlreadyExists => {
                LoreError::AlreadyExists
            },
            _ => LoreError::Internal,
        }
    }

    /// The code reported to callers of the engine.
    pub fn translated(&self) -> (code: LoreError)
        ensures
            code == RepositoryError::spec_translated(self.kind),
    {
        match self.kind {
            ErrorKind::Disconnected => LoreError::Connection,
            ErrorKind::SlowDown => LoreError::SlowDown,
            ErrorKind::Oversized => LoreError::Oversized,
            ErrorKind::FileNotFound => LoreError::FileNotFound,
            ErrorKind::NotFound
            | ErrorKind::RepositoryNotFound
            | ErrorKind::BranchNotFound
            | ErrorKind::RevisionNotFound
            | ErrorKind::LayerNotFound
            | ErrorKind::LinkNotFound
            | ErrorKind::NodeNotFound => LoreError::NotFound,
            ErrorKind::AddressNotFound => LoreError::AddressNotFound,
            ErrorKind::PayloadNotFound => LoreError::PayloadNotFound,
            ErrorKind::InvalidPath | ErrorKind::InvalidArguments => LoreError::InvalidArguments,
            ErrorKind::RepositoryAlreadyExists | ErrorKind::BranchAlreadyExists => {
                LoreError::AlreadyExists
            },
            _ => LoreError::Internal,
        }
    }

    /// The text of the failure.
    pub fn inner(&self) -> (text: String)
        ensures
            text@ == self.detail@,
    {
        self.detail.clone()
    }

    pub(crate) fn of(kind: ErrorKind, detail: &str) -> (error: RepositoryError)
        ensures
            error.kind == kind,
            error.detail@ == detail@,
    {
        RepositoryError { kind, detail: detail.to_owned() }
    }
}

/// How a command uses the stores of a repository.
#[derive(Clone, Copy, Debug, PartialEq, Eq, Structural)]
pub enum RepositoryAccess {
    NoStore,
    ReadOnly,
    ReadWrite,
}

/// File that holds the identifier of a repository.
pub const ID: &'static str = "id";

/// File that holds the identifier of an instance.
pub const INSTANCE: &'static str = "instance";

/// File that holds the configuration of a repository.
pub const CONFIG: &'static str = "config.toml";

/// File that describes the service of a repository.
pub const SERVICE: &'static str = "service";

/// Ignore file of the older layout.
pub const DOT_URCIGNORE: &'static str = ".urcignore";

/// Ignore file.
pub const DOT_LOREIGNORE: &'static str = ".loreignore";

/// Salt of the keys of the older layout.
pub const SALT_URC: &'static str = "urc";

/// Salt of the keys. It is the one of the older layout, since existing keys were
/// made with it.
pub const SALT_LORE: &'static str = "urc";

/// File that holds the filter view.
pub const VIEW_FILTER: &'static str = "view";

/// File that holds the layers.
pub const LAYER: &'static str = "layer.toml";

/// Extension of temporary files.
pub const TEMP_FILE_EXTENSION: &'static str = ".~loretemp";

/// Suffix of the base side of a conflict.
pub const BASE_SUFFIX: &'static str = "~base";

/// Suffix of the incoming side of a conflict.
pub const THEIRS_SUFFIX: &'static str = "~theirs";

/// Suffix of the local side of a conflict.
pub const MINE_SUFFIX: &'static str = "~mine";

/// Layout of a repository on disk.
#[derive(Clone, Copy, Debug, PartialEq, Eq, Structural)]
pub enum RepositoryFormat {
    /// Legacy: .urc/, .urcignore, salt "urc"
    Urc,
    /// Current: .lore/, .loreignore, salt "urc"
    Lore,
}

impl RepositoryFormat {
    /// Salt of the keys in the mutable store.
    pub open spec fn spec_salt(self) -> Seq<char> {
        match self {
            RepositoryFormat::Urc => SALT_URC@,
            RepositoryFormat::Lore => SALT_LORE@,
        }
    }

    /// Salt of the keys in the mutable store.
    pub fn salt(&self) -> (salt: &'static str)
        ensures
            salt@ == self.spec_salt(),
    {
        match self {
            RepositoryFormat::Urc => SALT_URC,
            RepositoryFormat::Lore => SALT_LORE,
        }
    }

    /// Directory that holds the state of the repository.
    pub open spec fn spec_dot_dir(self) -> Seq<char> {
        match self {
            RepositoryFormat::Urc => DOT_URC@,
            RepositoryFormat::Lore => DOT_LORE@,
        }
    }

    /// Directory that holds the state of the repository.
    pub fn dot_dir(&self) -> (name: &'static str)
        ensures
            name@ == self.spec_dot_dir(),
    {
        match self {
            RepositoryFormat::Urc => DOT_URC,
            RepositoryFormat::Lore => DOT_LORE,
        }
    }

    /// Primary ignore file. Both formats use `.loreignore`; the legacy
    /// `.urcignore` is honored only as a fallback.
    pub fn ignore_file(&self) -> (name: &'static str)
        ensures
            name@ == DOT_LOREIGNORE@,
    {
        DOT_LOREIGNORE
    }

    /// The layout of a repository, given whether it has a directory of the
    /// legacy layout.
    pub fn detect(has_urc_directory: bool) -> (format: RepositoryFormat)
        ensures
            format == if has_urc_directory {
                RepositoryFormat::Urc
            } else {
                RepositoryFormat::Lore
            },
    {
        if has_urc_directory {
            RepositoryFormat::Urc
        } else {
            RepositoryFormat::Lore
        }
    }
}

/// Both layouts derive the same keys.
pub proof fn law_layouts_share_keys(a: RepositoryFormat, b: RepositoryFormat)
    ensures
        a.spec_salt() == b.spec_salt(),
{
}

// ---------------------------------------------------------------------------
// Configuration
// ---------------------------------------------------------------------------

/// Configuration of a repository.
#[derive(Debug)]
pub struct RepositoryConfig {
    pub remote_url: Option<String>,
    pub identity: Option<String>,
    pub shared_store_to_use: Option<SharedStoreToUseConfig>,
    pub store: Option<StoreConfig>,
    pub file: Option<FileConfig>,
}

impl Default for RepositoryConfig {
    fn default() -> (config: RepositoryConfig)
        ensures
            config.remote_url is None,
            config.identity is None,
            config.shared_store_to_use is None,
            config.store is None,
            config.file is None,
    {
        RepositoryConfig {
            remote_url: None,
            identity: None,
            shared_store_to_use: None,
            store: None,
            file: None,
        }
    }
}

/// Configuration of the store.
#[derive(Clone, Copy, Debug, PartialEq, Eq)]
pub struct StoreConfig {
    pub max_capacity: Option<usize>,
    /// Seconds.
    pub eviction_delay: Option<usize>,
    pub max_size: Option<u64>,
    /// Seconds.
    pub compaction_delay: Option<usize>,
    pub verify_write: Option<bool>,
}

/// Options for making an immutable store. Delays are in seconds.
#[derive(Clone, Copy, Debug, PartialEq, Eq)]
pub struct ImmutableStoreCreateOptions {
    pub max_capacity: Option<usize>,
    pub eviction_delay: Option<u64>,
    pub max_size: Option<u64>,
    pub compaction_delay: Option<u64>,
}

impl ImmutableStoreCreateOptions {
    /// No limits and no background work.
    pub fn none() -> (options: ImmutableStoreCreateOptions)
        ensures
            options.max_capacity is None,
            options.eviction_delay is None,
            options.max_size is None,
            options.compaction_delay is None,
    {
        ImmutableStoreCreateOptions {
            max_capacity: None,
            eviction_delay: None,
            max_size: None,
            compaction_delay: None,
        }
    }
}

/// Ten times 1024 times 1024 entries, evicted after ten seconds, and ten
/// gibibytes, compacted after thirty.
pub open spec fn default_store() -> StoreConfig {
    StoreConfig {
        max_capacity: Some(10_485_760),
        eviction_delay: Some(10),
        max_size: Some(10_737_418_240),
        compaction_delay: Some(30),
        verify_write: None,
    }
}

/// The number of an option, or zero.
pub open spec fn number_or_zero(number: Option<usize>) -> usize {
    match number {
        Some(n) => n,
        None => 0,
    }
}

fn or_zero(number: Option<usize>) -> (value: usize)
    ensures
        value == number_or_zero(number),
{
    match number {
        Some(n) => n,
        None => 0,
    }
}

impl StoreConfig {
    /// What a client store starts with.
    pub fn client_default() -> (config: StoreConfig)
        ensures
            config == default_store(),
    {
        StoreConfig {
            max_capacity: Some(10_485_760),
            eviction_delay: Some(10),
            max_size: Some(10_737_418_240),
            compaction_delay: Some(30),
            verify_write: None,
        }
    }

    /// What a shared store starts with.
    pub fn global_default() -> (config: StoreConfig)
        ensures
            config == default_store(),
    {
        StoreConfig::client_default()
    }

    /// The options for making the store. What is not configured is zero.
    pub fn to_options(&self) -> (options: ImmutableStoreCreateOptions)
        ensures
            options.max_capacity == Some(number_or_zero(self.max_capacity)),
            options.eviction_delay == Some(number_or_zero(self.eviction_delay) as u64),
            options.max_size == Some(
                match self.max_size {
                    Some(n) => n,
                    None => 0,
                },
            ),
            options.compaction_delay == Some(number_or_zero(self.compaction_delay) as u64),
    {
        ImmutableStoreCreateOptions {
            max_capacity: Some(or_zero(self.max_capacity)),
            eviction_delay: Some(or_zero(self.eviction_delay) as u64),
            max_size: Some(
                match self.max_size {
                    Some(n) => n,
                    None => 0,
                },
            ),
            compaction_delay: Some(or_zero(self.compaction_delay) as u64),
        }
    }
}

/// Configuration of file access.
#[derive(Clone, Copy, Debug, PartialEq, Eq)]
pub struct FileConfig {
    pub direct_write: Option<bool>,
    pub direct_io: Option<bool>,
    pub flush_write: Option<bool>,
}

impl Default for FileConfig {
    fn default() -> (config: FileConfig)
        ensures
            config.direct_write == Some(false),
            config.direct_io == Some(false),
            config.flush_write == Some(false),
    {
        FileConfig {
            direct_write: Some(false),
            direct_io: Some(false),
            flush_write: Some(false),
        }
    }
}

/// Which shared store a repository uses.
#[derive(Debug)]
pub struct SharedStoreToUseConfig {
    pub use_shared_store: Option<bool>,
    pub shared_store_path: Option<String>,
}

impl SharedStoreToUseConfig {
    /// The configuration that arguments and the global configuration ask for.
    /// `path` is the absolute form of the path that was given, if any, or why it
    /// has none.
    pub fn from_cli_args(
        use_shared_store_automatically: Option<bool>,
        use_shared_store: u8,
        path: Option<Result<String, ErrorKind>>,
    ) -> (result: Result<Option<SharedStoreToUseConfig>, ErrorKind>)
        ensures
            ({
                let wanted = use_shared_store_automatically == Some(true) || use_shared_store != 0;
                &&& result is Err <==> wanted && path is Some && path->0 is Err
                &&& result matches Err(kind) ==> kind == path->0->Err_0
                &&& result matches Ok(config) ==> {
                    &&& config is Some <==> wanted
                    &&& config matches Some(c) ==> {
                        &&& c.use_shared_store == Some(true)
                        &&& c.shared_store_path == match path {
                            Some(given) => Some(given->Ok_0),
                            None => None,
                        }
                    }
                }
            }),
    {
        let automatic = match use_shared_store_automatically {
            Some(automatic) => automatic,
            None => false,
        };
        if !(automatic || use_shared_store != 0) {
            return Ok(None);
        }
        let shared_store_path = match path {
            None => None,
            Some(Ok(absolute)) => Some(absolute),
            Some(Err(kind)) => {
                return Err(kind);
            },
        };
        Ok(Some(SharedStoreToUseConfig { use_shared_store: Some(true), shared_store_path }))
    }
}

/// The limits that garbage collection keeps a store to: what is configured, or
/// zero.
pub fn gc(config: &RepositoryConfig) -> (limits: (usize, u64))
    ensures
        limits.0 == match config.store {
            Some(store) => number_or_zero(store.max_capacity),
            None => 0,
        },
        limits.1 == match config.store {
            Some(store) => match store.max_size {
                Some(n) => n,
                None => 0,
            },
            None => 0,
        },
{
    match &config.store {
        Some(store) => (
            or_zero(store.max_capacity),
            match store.max_size {
                Some(n) => n,
                None => 0,
            },
        ),
        None => (0, 0),
    }
}

/// The remote of a repository, or an empty text.
pub fn repository_remote(config: &RepositoryConfig) -> (url: String)
    ensures
        url@ == match config.remote_url {
            Some(remote) => remote@,
            None => Seq::empty(),
        },
{
    match &config.remote_url {
        Some(remote) => remote.clone(),
        None => String::new(),
    }
}

// ---------------------------------------------------------------------------
// Names and addresses
// ---------------------------------------------------------------------------

/// Largest length of a repository name, in bytes.
pub const MAX_NAME_LEN: usize = 1000;

/// Largest length of a repository description, in bytes.
pub const MAX_DESCRIPTION_LEN: usize = 65536;

/// A character that a repository name may hold.
pub open spec fn is_name_char(c: char) -> bool {
    ||| '0' <= c <= '9'
    ||| 'a' <= c <= 'z'
    ||| 'A' <= c <= 'Z'
    ||| c == '/' || c == '-' || c == '_' || c == '.'
}

/// A name that a repository may have.
pub open spec fn is_name(name: Seq<char>) -> bool {
    &&& 0 < name.len()
    &&& encode_utf8(name).len() <= MAX_NAME_LEN
    &&& forall|i: int| 0 <= i < name.len() ==> is_name_char(#[trigger] name[i])
}

/// Tells whether a repository may have a name.
pub fn is_valid_name(name: &str) -> (valid: bool)
    ensures
        valid == is_name(name@),
{
    if name.is_empty() || name.as_bytes().len() > MAX_NAME_LEN {
        return false;
    }
    let chars = chars_of(name);
    let mut i: usize = 0;
    while i < chars.len()
        invariant
            i <= chars@.len(),
            chars@ == name@,
            forall|j: int| 0 <= j < i ==> is_name_char(#[trigger] chars@[j]),
        decreases chars@.len() - i,
    {
        let c = chars[i];
        if !(('0' <= c && c <= '9') || ('a' <= c && c <= 'z') || ('A' <= c && c <= 'Z') || c == '/'
            || c == '-' || c == '_' || c == '.') {
            assert(!is_name_char(name@[i as int]));
            return false;
        }
        i = i + 1;
    }
    true
}

/// The parts of a URL.
#[derive(Debug)]
pub struct UrlParts {
    pub scheme: String,
    pub host: Option<String>,
    pub path: String,
    pub port: Option<u16>,
}

/// The parts of a URL, as contracts speak of them: scheme, host, path and port.
pub open spec fn url_view(parts: UrlParts) -> (Seq<char>, Option<Seq<char>>, Seq<char>, Option<u16>) {
    (
        parts.scheme@,
        match parts.host {
            Some(host) => Some(host@),
            None => None,
        },
        parts.path@,
        parts.port,
    )
}

/// What `url::Url::parse` reads from a text: scheme, host, path and port.
pub uninterp spec fn parsed_url(text: Seq<char>) -> Option<
    (Seq<char>, Option<Seq<char>>, Seq<char>, Option<u16>),
>;

/// `url::Url::parse` reads a URL by the rules of its standard, and fails on a
/// text that is none; the parts are those that its accessors return.
#[verifier::external_body]
fn url_parse(text: &str) -> (parts: Option<UrlParts>)
    ensures
        parts is Some <==> parsed_url(text@) is Some,
        parts matches Some(p) ==> parsed_url(text@) == Some(url_view(p)),
{
    let url = url::Url::parse(text).ok()?;
    Some(
        UrlParts {
            scheme: url.scheme().to_string(),
            host: url.host_str().map(|host| host.to_string()),
            path: url.path().to_string(),
            port: url.port(),
        },
    )
}

/// A text without leading separators.
pub open spec fn without_leading_slashes(text: Seq<char>) -> Seq<char>
    decreases text.len(),
{
    if text.len() > 0 && text[0] == '/' {
        without_leading_slashes(text.drop_first())
    } else {
        text
    }
}

/// A text without separators around it.
pub open spec fn without_slashes(text: Seq<char>) -> Seq<char> {
    without_trailing_slashes(without_leading_slashes(text))
}

/// Drops the separators around a text.
pub fn trim_slashes(text: &str) -> (trimmed: String)
    ensures
        trimmed@ == without_slashes(text@),
{
    let chars = chars_of(text);
    let mut start: usize = 0;
    assert(chars@.skip(0) =~= chars@);
    while start < chars.len() && chars[start] == '/'
        invariant
            start <= chars@.len(),
            without_leading_slashes(chars@.skip(start as int)) == without_leading_slashes(chars@),
        decreases chars@.len() - start,
    {
        assert(chars@.skip(start as int).drop_first() =~= chars@.skip(start + 1));
        start = start + 1;
    }
    let ghost rest = without_leading_slashes(chars@);
    assert(rest == chars@.skip(start as int));
    let mut end: usize = chars.len();
    assert(chars@.subrange(start as int, end as int) =~= rest);
    while end > start && chars[end - 1] == '/'
        invariant
            start <= end <= chars@.len(),
            without_trailing_slashes(chars@.subrange(start as int, end as int))
                == without_trailing_slashes(rest),
        decreases end,
    {
        assert(chars@.subrange(start as int, end as int).drop_last() =~= chars@.subrange(
            start as int,
            end - 1,
        ));
        end = end - 1;
    }
    text_of(vstd::slice::slice_subrange(chars.as_slice(), start, end))
}

/// The text of a port, behind its colon.
pub open spec fn port_text(port: Option<u16>) -> Seq<char> {
    match port {
        Some(number) => seq![':'] + decimal_digits(number as nat),
        None => Seq::empty(),
    }
}

/// The remote and the repository name that the parts of a URL make: there are
/// none without a host or a name.
pub open spec fn remote_of(
    parts: (Seq<char>, Option<Seq<char>>, Seq<char>, Option<u16>),
) -> Option<(Seq<char>, Seq<char>)> {
    let (scheme, host, path, port) = parts;
    let name = without_slashes(path);
    if host is Some && name.len() > 0 {
        Some((scheme + "://"@ + host->0 + port_text(port), name))
    } else {
        None
    }
}

/// The remote and the repository name that the parts of a URL make.
pub fn remote_from_parts(parts: &UrlParts) -> (result: Result<(String, String), RepositoryError>)
    ensures
        result is Ok <==> remote_of(url_view(*parts)) is Some,
        result matches Ok(remote) ==> remote_of(url_view(*parts)) == Some((remote.0@, remote.1@)),
        result matches Err(e) ==> e.kind == ErrorKind::Internal && e.detail@ == "Invalid URL"@,
{
    let host = match &parts.host {
        Some(host) => host,
        None => {
            return Err(RepositoryError::of(ErrorKind::Internal, "Invalid URL"));
        },
    };
    let name = trim_slashes(parts.path.as_str());
    if name.as_str().is_empty() {
        return Err(RepositoryError::of(ErrorKind::Internal, "Invalid URL"));
    }
    let mut remote_url = parts.scheme.clone();
    remote_url.append("://");
    remote_url.append(host.as_str());
    let ghost base = remote_url@;
    if let Some(port) = parts.port {
        remote_url.push(':');
        remote_url.append(decimal(port as u64).as_str());
        assert(remote_url@ =~= base + port_text(parts.port));
    } else {
        assert(remote_url@ =~= base + port_text(parts.port));
    }
    Ok((remote_url, name))
}

/// A text that names a protocol.
pub open spec fn has_protocol(url: Seq<char>) -> bool {
    has_part(url, "://"@)
}

/// The URL to read: one without a protocol gets the default one.
pub open spec fn full_url(url: Seq<char>, default_protocol: Seq<char>) -> Seq<char> {
    if has_protocol(url) {
        url
    } else {
        default_protocol + "://"@ + url
    }
}

/// The text is just a name, which is enough offline.
pub open spec fn is_offline_name(url: Seq<char>, offline: bool) -> bool {
    !has_protocol(url) && offline && !has_part(url, "/"@)
}

/// Reads the remote and the repository name from a URL.
pub fn parse_url(url: &str, offline: bool, default_protocol: &str) -> (result: Result<
    (String, String),
    RepositoryError,
>)
    ensures
        is_offline_name(url@, offline) ==> (result matches Ok(remote) && remote.0@.len() == 0
            && remote.1@ == url@),
        !is_offline_name(url@, offline) ==> {
            let parsed = parsed_url(full_url(url@, default_protocol@));
            &&& result is Ok <==> parsed is Some && remote_of(parsed->0) is Some
            &&& result matches Ok(remote) ==> remote_of(parsed->0) == Some((remote.0@, remote.1@))
            &&& result matches Err(e) ==> e.kind == ErrorKind::Internal && e.detail@
                == "Invalid URL"@
        },
{
    let parts = if text_has_part(url, "://") {
        url_parse(url)
    } else {
        if offline && !text_has_part(url, "/") {
            return Ok((String::new(), url.to_owned()));
        }
        let mut protocol_url = default_protocol.to_owned();
        protocol_url.append("://");
        protocol_url.append(url);
        url_parse(protocol_url.as_str())
    };
    match parts {
        Some(parts) => remote_from_parts(&parts),
        None => Err(RepositoryError::of(ErrorKind::Internal, "Invalid URL")),
    }
}

/// A repository name that is read has no separators around it.
pub proof fn law_url_names_are_trimmed(text: Seq<char>)
    ensures
        without_slashes(text).len() > 0 ==> without_slashes(text)[0] != '/' && without_slashes(
            text,
        ).last() != '/',
{
    lemma_no_leading_slash(text);
    lemma_trailing_slashes_cut(without_leading_slashes(text));
}

proof fn lemma_no_leading_slash(text: Seq<char>)
    ensures
        without_leading_slashes(text).len() > 0 ==> without_leading_slashes(text)[0] != '/',
    decreases text.len(),
{
    if text.len() > 0 && text[0] == '/' {
        lemma_no_leading_slash(text.drop_first());
    }
}

proof fn lemma_trailing_slashes_cut(text: Seq<char>)
    ensures
        ({
            let cut = without_trailing_slashes(text);
            &&& cut.len() <= text.len()
            &&& cut == text.take(cut.len() as int)
            &&& cut.len() > 0 ==> cut.last() != '/'
        }),
    decreases text.len(),
{
    if text.len() > 0 && text.last() == '/' {
        lemma_trailing_slashes_cut(text.drop_last());
        let cut = without_trailing_slashes(text);
        assert(text.drop_last().take(cut.len() as int) =~= text.take(cut.len() as int));
    } else {
        assert(text.take(text.len() as int) =~= text);
    }
}

// ---------------------------------------------------------------------------
// Repository metadata
// ---------------------------------------------------------------------------

/// Function of the key of a repository's metadata.
pub const METADATA: &'static str = "repository-metadata";

/// Function of the key of the repository list.
pub const LIST: &'static str = "repository-list";

/// Metadata key of a repository's name.
pub const NAME: &'static str = "name";

/// Metadata key of a repository's description.
pub const DESCRIPTION: &'static str = "description";

/// Metadata key of a repository's default branch.
pub const DEFAULT_BRANCH: &'static str = "default-branch";

/// Metadata key of the name of a repository's default branch.
pub const DEFAULT_BRANCH_NAME: &'static str = "default-branch-name";

/// Metadata key of the creator of a repository.
pub const CREATOR: &'static str = "creator";

/// Metadata key of the time at which a repository was created.
pub const CREATED: &'static str = "created";

/// What is known of a repository.
#[derive(Debug)]
pub struct RepositoryMetadata {
    pub name: String,
    pub description: String,
    pub default_branch: BranchId,
    pub default_branch_name: String,
    pub creator: String,
    pub created: u64,
}

/// A text item.
pub open spec fn text_item(key: Seq<char>, value: Seq<char>) -> MetadataItem {
    MetadataItem {
        key: encode_utf8(key),
        value: encode_utf8(value),
        value_type: MetadataType::String.spec_tag(),
    }
}

/// The items that describe a repository.
pub open spec fn repository_items(metadata: RepositoryMetadata) -> Seq<MetadataItem> {
    let with_name = stored(Seq::empty(), text_item(NAME@, metadata.name@));
    let with_description = stored(with_name, text_item(DESCRIPTION@, metadata.description@));
    let with_branch = stored(
        with_description,
        MetadataItem {
            key: encode_utf8(DEFAULT_BRANCH@),
            value: metadata.default_branch.data@,
            value_type: MetadataType::Context.spec_tag(),
        },
    );
    let with_branch_name = stored(
        with_branch,
        text_item(DEFAULT_BRANCH_NAME@, metadata.default_branch_name@),
    );
    let with_creator = stored(with_branch_name, text_item(CREATOR@, metadata.creator@));
    stored(
        with_creator,
        MetadataItem {
            key: encode_utf8(CREATED@),
            value: vstd::bytes::spec_u64_to_le_bytes(metadata.created),
            value_type: MetadataType::Numeric.spec_tag(),
        },
    )
}

/// The fields of a repository's metadata fit into a buffer.
pub open spec fn metadata_fits(metadata: RepositoryMetadata) -> bool {
    let name = encode_utf8(metadata.name@).len();
    let description = encode_utf8(metadata.description@).len();
    let branch_name = encode_utf8(metadata.default_branch_name@).len();
    let creator = encode_utf8(metadata.creator@).len();
    &&& name <= u32::MAX
    &&& description <= u32::MAX
    &&& branch_name <= u32::MAX
    &&& creator <= u32::MAX
    &&& name + description + branch_name + creator + 512 <= buffer_limit()
}

proof fn lemma_metadata_keys()
    ensures
        encode_utf8(NAME@).len() == 4,
        encode_utf8(DESCRIPTION@).len() == 11,
        encode_utf8(DEFAULT_BRANCH@).len() == 14,
        encode_utf8(DEFAULT_BRANCH_NAME@).len() == 19,
        encode_utf8(CREATOR@).len() == 7,
        encode_utf8(CREATED@).len() == 7,
        encode_utf8(CREATOR@) != encode_utf8(CREATED@),
{
    reveal_strlit("name");
    reveal_strlit("description");
    reveal_strlit("default-branch");
    reveal_strlit("default-branch-name");
    reveal_strlit("creator");
    reveal_strlit("created");
    is_ascii_chars_encode_utf8(NAME@);
    is_ascii_chars_encode_utf8(DESCRIPTION@);
    is_ascii_chars_encode_utf8(DEFAULT_BRANCH@);
    is_ascii_chars_encode_utf8(DEFAULT_BRANCH_NAME@);
    is_ascii_chars_encode_utf8(CREATOR@);
    is_ascii_chars_encode_utf8(CREATED@);
    assert(encode_utf8(CREATOR@)[5] == 'o' as u8);
    assert(encode_utf8(CREATED@)[5] == 'e' as u8);
}

/// Writes the metadata of a repository.
pub fn metadata_store(metadata: &RepositoryMetadata) -> (result: Result<Metadata, RepositoryError>)
    requires
        metadata_fits(*metadata),
    ensures
        result is Ok,
        result matches Ok(written) ==> {
            &&& well_formed(written@)
            &&& written.items() == repository_items(*metadata)
        },
{
    let mut written = Metadata::new();
    proof {
        lemma_metadata_keys();
    }
    let stored_all = written.set_string(NAME, metadata.name.as_str()).is_ok()
        && written.set_string(DESCRIPTION, metadata.description.as_str()).is_ok()
        && written.set_context(DEFAULT_BRANCH, metadata.default_branch).is_ok()
        && written.set_string(DEFAULT_BRANCH_NAME, metadata.default_branch_name.as_str()).is_ok()
        && written.set_string(CREATOR, metadata.creator.as_str()).is_ok() && written.set_u64(
        CREATED,
        metadata.created,
    ).is_ok();
    if !stored_all {
        return Err(
            RepositoryError::of(ErrorKind::Internal, "Failed to store repository metadata"),
        );
    }
    Ok(written)
}

/// The identifier that metadata hold for a key, if they hold one.
pub open spec fn context_of_key(metadata: Metadata, key: Seq<char>) -> Option<Seq<u8>> {
    let items = metadata.items();
    if has_key(items, encode_utf8(key)) && lookup(items, encode_utf8(key)).value.len()
        == CONTEXT_SIZE {
        Some(lookup(items, encode_utf8(key)).value)
    } else {
        None
    }
}

/// Metadata hold every field of a repository.
pub open spec fn is_repository_metadata(metadata: Metadata) -> bool {
    &&& text_of_key(metadata, NAME@) is Some
    &&& text_of_key(metadata, DESCRIPTION@) is Some
    &&& context_of_key(metadata, DEFAULT_BRANCH@) is Some
    &&& text_of_key(metadata, DEFAULT_BRANCH_NAME@) is Some
    &&& text_of_key(metadata, CREATOR@) is Some
    &&& number_of_key(metadata, CREATED@) is Some
}

fn read_text(metadata: &Metadata, key: &str) -> (result: Result<String, RepositoryError>)
    ensures
        result is Ok <==> text_of_key(*metadata, key@) is Some,
        result matches Ok(text) ==> text_of_key(*metadata, key@) == Some(text@),
        result matches Err(e) ==> e.kind == if has_key(metadata.items(), encode_utf8(key@)) {
            ErrorKind::Internal
        } else {
            ErrorKind::FileNotFound
        },
        result matches Err(e) ==> e.detail@ == "Failed to deserialize repository metadata"@,
{
    match metadata.get_string(key) {
        Ok(text) => {
            proof {
                encode_utf8_decode_utf8(text@);
            }
            Ok(text.to_owned())
        },
        Err(error) => Err(
            RepositoryError::of(error.kind, "Failed to deserialize repository metadata"),
        ),
    }
}

/// The first field of a repository that metadata do not hold.
pub open spec fn first_bad_field(metadata: Metadata) -> Seq<char> {
    if text_of_key(metadata, NAME@) is None {
        NAME@
    } else if text_of_key(metadata, DESCRIPTION@) is None {
        DESCRIPTION@
    } else if context_of_key(metadata, DEFAULT_BRANCH@) is None {
        DEFAULT_BRANCH@
    } else if text_of_key(metadata, DEFAULT_BRANCH_NAME@) is None {
        DEFAULT_BRANCH_NAME@
    } else if text_of_key(metadata, CREATOR@) is None {
        CREATOR@
    } else {
        CREATED@
    }
}

/// Reads the metadata of a repository. Every field must be there.
pub fn metadata(written: &Metadata) -> (result: Result<RepositoryMetadata, RepositoryError>)
    ensures
        result is Ok <==> is_repository_metadata(*written),
        result matches Ok(read) ==> {
            &&& text_of_key(*written, NAME@) == Some(read.name@)
            &&& text_of_key(*written, DESCRIPTION@) == Some(read.description@)
            &&& context_of_key(*written, DEFAULT_BRANCH@) == Some(read.default_branch.data@)
            &&& text_of_key(*written, DEFAULT_BRANCH_NAME@) == Some(read.default_branch_name@)
            &&& text_of_key(*written, CREATOR@) == Some(read.creator@)
            &&& number_of_key(*written, CREATED@) == Some(read.created)
        },
        result matches Err(e) ==> {
            &&& e.kind == if has_key(written.items(), encode_utf8(first_bad_field(*written))) {
                ErrorKind::Internal
            } else {
                ErrorKind::FileNotFound
            }
            &&& e.detail@ == "Failed to deserialize repository metadata"@
        },
{
    let name = match read_text(written, NAME) {
        Ok(text) => text,
        Err(error) => {
            return Err(error);
        },
    };
    let description = match read_text(written, DESCRIPTION) {
        Ok(text) => text,
        Err(error) => {
            return Err(error);
        },
    };
    let default_branch = match written.get_context(DEFAULT_BRANCH) {
        Ok(branch) => branch,
        Err(error) => {
            return Err(
                RepositoryError::of(error.kind, "Failed to deserialize repository metadata"),
            );
        },
    };
    let default_branch_name = match read_text(written, DEFAULT_BRANCH_NAME) {
        Ok(text) => text,
        Err(error) => {
            return Err(error);
        },
    };
    let creator = match read_text(written, CREATOR) {
        Ok(text) => text,
        Err(error) => {
            return Err(error);
        },
    };
    let created = match written.get_u64(CREATED) {
        Ok(number) => number,
        Err(error) => {
            return Err(
                RepositoryError::of(error.kind, "Failed to deserialize repository metadata"),
            );
        },
    };
    Ok(
        RepositoryMetadata {
            name,
            description,
            default_branch,
            default_branch_name,
            creator,
            created,
        },
    )
}

/// Reading the metadata that were written for a repository gives every field
/// back.
pub proof fn law_repository_metadata_round_trip(written: Metadata, metadata: RepositoryMetadata)
    requires
        written.items() == repository_items(metadata),
    ensures
        is_repository_metadata(written),
        text_of_key(written, NAME@) == Some(metadata.name@),
        text_of_key(written, DESCRIPTION@) == Some(metadata.description@),
        context_of_key(written, DEFAULT_BRANCH@) == Some(metadata.default_branch.data@),
        text_of_key(written, DEFAULT_BRANCH_NAME@) == Some(metadata.default_branch_name@),
        text_of_key(written, CREATOR@) == Some(metadata.creator@),
        number_of_key(written, CREATED@) == Some(metadata.created),
{
    lemma_metadata_keys();
    let i1 = text_item(NAME@, metadata.name@);
    let i2 = text_item(DESCRIPTION@, metadata.description@);
    let i3 = MetadataItem {
        key: encode_utf8(DEFAULT_BRANCH@),
        value: metadata.default_branch.data@,
        value_type: MetadataType::Context.spec_tag(),
    };
    let i4 = text_item(DEFAULT_BRANCH_NAME@, metadata.default_branch_name@);
    let i5 = text_item(CREATOR@, metadata.creator@);
    let i6 = MetadataItem {
        key: encode_utf8(CREATED@),
        value: vstd::bytes::spec_u64_to_le_bytes(metadata.created),
        value_type: MetadataType::Numeric.spec_tag(),
    };
    let s0 = Seq::<MetadataItem>::empty();
    let s1 = stored(s0, i1);
    let s2 = stored(s1, i2);
    let s3 = stored(s2, i3);
    let s4 = stored(s3, i4);
    let s5 = stored(s4, i5);
    lemma_stored_step(s0, i1);
    lemma_stored_step(s1, i2);
    lemma_stored_step(s2, i3);
    lemma_stored_step(s3, i4);
    lemma_stored_step(s4, i5);
    lemma_stored_step(s5, i6);
    law_storing_keeps_other_keys(s1, i2, i1.key);
    law_storing_keeps_other_keys(s2, i3, i1.key);
    law_storing_keeps_other_keys(s3, i4, i1.key);
    law_storing_keeps_other_keys(s4, i5, i1.key);
    law_storing_keeps_other_keys(s5, i6, i1.key);
    law_storing_keeps_other_keys(s2, i3, i2.key);
    law_storing_keeps_other_keys(s3, i4, i2.key);
    law_storing_keeps_other_keys(s4, i5, i2.key);
    law_storing_keeps_other_keys(s5, i6, i2.key);
    law_storing_keeps_other_keys(s3, i4, i3.key);
    law_storing_keeps_other_keys(s4, i5, i3.key);
    law_storing_keeps_other_keys(s5, i6, i3.key);
    law_storing_keeps_other_keys(s4, i5, i4.key);
    law_storing_keeps_other_keys(s5, i6, i4.key);
    law_storing_keeps_other_keys(s5, i6, i5.key);
    lemma_text_round_trip(metadata.name@);
    lemma_text_round_trip(metadata.description@);
    lemma_text_round_trip(metadata.default_branch_name@);
    lemma_text_round_trip(metadata.creator@);
    law_number_round_trip(metadata.created);
}

proof fn lemma_stored_step(items: Seq<MetadataItem>, item: MetadataItem)
    requires
        distinct_keys(items),
    ensures
        distinct_keys(stored(items, item)),
        has_key(stored(items, item), item.key),
        lookup(stored(items, item), item.key).value == item.value,
{
    law_stored_value_is_found(items, item);
    law_storing_keeps_keys_distinct(items, item);
}

proof fn lemma_text_round_trip(text: Seq<char>)
    ensures
        valid_utf8(encode_utf8(text)),
        decode_utf8(encode_utf8(text)) == text,
{
    encode_utf8_valid_utf8(text);
    encode_utf8_decode_utf8(text);
}

// ---------------------------------------------------------------------------
// Keys of the mutable store
// ---------------------------------------------------------------------------

/// What the keys of a function stand for.
pub open spec fn key_type_of(function: Seq<char>) -> KeyType {
    if function == METADATA@ {
        KeyType::RepositoryMetadata
    } else if function == ID@ {
        KeyType::RepositoryId
    } else {
        KeyType::Untyped
    }
}

/// What the keys of a function stand for.
pub fn mutable_key_type(function: &str) -> (key_type: KeyType)
    ensures
        key_type == key_type_of(function@),
{
    if text_equal(function, METADATA) {
        KeyType::RepositoryMetadata
    } else if text_equal(function, ID) {
        KeyType::RepositoryId
    } else {
        KeyType::Untyped
    }
}

/// The key of a function on a repository.
pub fn mutable_key(salt: &str, function: &str, repository: RepositoryId) -> (key: MutableKey)
    ensures
        key.salt@ == salt@,
        key.function@ == function@,
        key.argument@ == hex_text(repository.data@),
        key.key_type == key_type_of(function@),
{
    MutableKey::of_bytes(salt, function, repository.data(), mutable_key_type(function))
}

/// The key of a function on a name.
pub fn mutable_name_key(salt: &str, function: &str, name: &str) -> (key: MutableKey)
    ensures
        key.salt@ == salt@,
        key.function@ == function@,
        key.argument@ == name@,
        key.key_type == key_type_of(function@),
{
    MutableKey {
        salt: salt.to_owned(),
        function: function.to_owned(),
        argument: name.to_owned(),
        key_type: mutable_key_type(function),
    }
}

/// The hash of a repository's metadata: the one in the store, else the one that
/// the remote has, which is stored. Without either, the failure of the store.
pub fn metadata_hash(local: Result<ContentHash, ErrorKind>, remote: Option<ContentHash>) -> (result: (
    Result<ContentHash, RepositoryError>,
    Option<ContentHash>,
))
    ensures
        result.0 is Ok <==> local is Ok || remote is Some,
        result.0 matches Ok(hash) ==> hash == match local {
            Ok(stored_hash) => stored_hash,
            Err(_) => remote->0,
        },
        result.0 matches Err(e) ==> e.kind == local->Err_0 && e.detail@
            == "Failed to load repository metadata"@,
        result.1 == if local is Ok {
            None
        } else {
            remote
        },
{
    match local {
        Ok(hash) => (Ok(hash), None),
        Err(kind) => match remote {
            Some(hash) => (Ok(hash), Some(hash)),
            None => (
                Err(RepositoryError::of(kind, "Failed to load repository metadata")),
                None,
            ),
        },
    }
}

fn write_required() -> (error: RepositoryError)
    ensures
        error.kind == ErrorKind::WriteRequired,
{
    RepositoryError::of(ErrorKind::WriteRequired, "Write required")
}

/// Stores the hash of a repository's metadata, which takes the capability to
/// write.
pub fn metadata_store_hash(context: &RepositoryContext, hash: ContentHash) -> (result: Result<
    StoreRequest,
    RepositoryError,
>)
    ensures
        result is Ok <==> context.may_write(),
        result matches Ok(request) ==> {
            &&& request.repository == context.id
            &&& request.key.salt@ == context.format.spec_salt()
            &&& request.key.function@ == METADATA@
            &&& request.key.argument@ == hex_text(context.id.data@)
            &&& request.key.key_type == KeyType::RepositoryMetadata
            &&& request.value == hash
        },
        result matches Err(e) ==> e.kind == ErrorKind::WriteRequired,
{
    if !context.try_write_mutable_store() {
        return Err(write_required());
    }
    Ok(
        StoreRequest {
            repository: context.id,
            key: mutable_key(context.salt(), METADATA, context.id),
            value: hash,
        },
    )
}

/// Stores the repository that a name leads to, in the form of a hash. Names are
/// kept outside of any repository.
pub fn store_name_to_id(context: &RepositoryContext, name: &str, id: ContentHash) -> (result: Result<
    StoreRequest,
    RepositoryError,
>)
    ensures
        result is Ok <==> context.may_write(),
        result matches Ok(request) ==> {
            &&& request.repository.is_zero()
            &&& request.key.salt@ == context.format.spec_salt()
            &&& request.key.function@ == ID@
            &&& request.key.argument@ == name@
            &&& request.key.key_type == KeyType::RepositoryId
            &&& request.value == id
        },
        result matches Err(e) ==> e.kind == ErrorKind::WriteRequired,
{
    if !context.try_write_mutable_store() {
        return Err(write_required());
    }
    proof {
        reveal_strlit("repository-metadata");
        reveal_strlit("id");
        assert(METADATA@.len() == 19 && ID@.len() == 2);
    }
    Ok(
        StoreRequest {
            repository: RepositoryId::default(),
            key: mutable_name_key(context.salt(), ID, name),
            value: id,
        },
    )
}

/// Forgets where a name leads.
pub fn delete_name_to_id(context: &RepositoryContext, name: &str) -> (result: Result<
    StoreRequest,
    RepositoryError,
>)
    ensures
        result is Ok <==> context.may_write(),
        result matches Ok(request) ==> {
            &&& request.repository.is_zero()
            &&& request.key.salt@ == context.format.spec_salt()
            &&& request.key.function@ == ID@
            &&& request.key.argument@ == name@
            &&& request.key.key_type == KeyType::RepositoryId
            &&& request.value.is_zero()
        },
        result matches Err(e) ==> e.kind == ErrorKind::WriteRequired,
{
    store_name_to_id(context, name, ContentHash::default())
}

/// What a remote answered to a query for a repository.
#[derive(Clone, Copy, Debug, PartialEq, Eq, Structural)]
pub enum NameQuery {
    Found,
    NotFound,
    Failed(ErrorKind),
}

/// How a repository name is resolved.
#[derive(Debug)]
pub enum NameResolution {
    /// The answer to the query is the repository.
    Answer,
    /// The text may be an identifier: query for that.
    QueryId(RepositoryId),
}

/// Goes on once a remote was queried for a name. A name that it does not know
/// may be the identifier of a repository.
pub fn resolve_by_name(name: &str, query: NameQuery) -> (result: Result<
    NameResolution,
    RepositoryError,
>)
    ensures
        ({
            let is_id = is_hex(name.spec_bytes()) && hex_bytes(name.spec_bytes()).len()
                == CONTEXT_SIZE && !all_zero(hex_bytes(name.spec_bytes()));
            &&& result is Ok <==> query == NameQuery::Found || (query == NameQuery::NotFound
                && is_id)
            &&& result matches Ok(NameResolution::Answer) ==> query == NameQuery::Found
            &&& result matches Ok(NameResolution::QueryId(id)) ==> query == NameQuery::NotFound
                && id.data@ == hex_bytes(name.spec_bytes())
            &&& result matches Err(e) ==> match query {
                NameQuery::Failed(kind) => e.kind == kind && e.detail@ == "Repository not found"@,
                _ => e.kind == ErrorKind::NotFound,
            }
        }),
{
    match query {
        NameQuery::Found => Ok(NameResolution::Answer),
        NameQuery::Failed(kind) => Err(RepositoryError::of(kind, "Repository not found")),
        NameQuery::NotFound => {
            let id = match Context::from_text(name) {
                Some(id) => id,
                None => {
                    return Err(RepositoryError::of(ErrorKind::NotFound, "Not found"));
                },
            };
            if id.is_zero() {
                return Err(RepositoryError::of(ErrorKind::NotFound, "Not found"));
            }
            Ok(NameResolution::QueryId(id))
        },
    }
}

} // verus!
