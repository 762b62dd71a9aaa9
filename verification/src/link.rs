//! Links mount part of another repository at a path of this one.

use dashmap::DashMap;
use vstd::prelude::*;
use vstd::string::*;
use vstd::utf8::*;

use crate::change::LoreFileAction;
use crate::change::NodeChange;
use crate::errors::ErrorKind;
use crate::errors::LoreError;
use crate::hexadecimal::hex_text;
use crate::node::is_valid_node_id;
use crate::node::is_valid_or_root_node_id;
use crate::node::Node;
use crate::node::NodeID;
use crate::node::NodeKind;
use crate::node::INVALID_NODE;
use crate::path::join;
use crate::path::joined;
use crate::state::has_link;
use crate::state::link_position;
use crate::state::LinkReference;
use crate::state::RevisionState;
use crate::text::law_text_after_is_the_rest;
use crate::text::text_after;
use crate::text::text_from;
use crate::text::chars_hold_at;
use crate::text::chars_of;
use crate::text::ends_with;
use crate::text::text_of;
use crate::types::bytes_equal;
use crate::types::BranchId;
use crate::types::ContentHash;
use crate::types::Context;
use crate::types::RepositoryId;

verus! {

/// Failure of an operation on links.
#[derive(Debug)]
pub struct LinkError {
    pub kind: ErrorKind,
    pub detail: String,
}

impl LinkError {
    /// The code reported for each category.
    pub open spec fn spec_translated(kind: ErrorKind) -> LoreError {
        match kind {
            ErrorKind::Disconnected => LoreError::Connection,
            ErrorKind::SlowDown => LoreError::SlowDown,
            ErrorKind::Oversized => LoreError::Oversized,
            ErrorKind::FileNotFound => LoreError::FileNotFound,
            ErrorKind::NotFound
            | ErrorKind::LayerNotFound
            | ErrorKind::RevisionNotFound
            | ErrorKind::BranchNotFound
            | ErrorKind::LinkNotFound
            | ErrorKind::LinkPathNotFound => LoreError::NotFound,
            ErrorKind::AddressNotFound => LoreError::AddressNotFound,
            ErrorKind::PayloadNotFound => LoreError::PayloadNotFound,
            ErrorKind::InvalidPath | ErrorKind::InvalidArguments => LoreError::InvalidArguments,
            _ => LoreError::Internal,
        }
    }

    /// The code reported to callers of the engine.
    pub fn translated(&self) -> (code: LoreError)
        ensures
            code == LinkError::spec_translated(self.kind),
    {
        match self.kind {
            ErrorKind::Disconnected => LoreError::Connection,
            ErrorKind::SlowDown => LoreError::SlowDown,
            ErrorKind::Oversized => LoreError::Oversized,
            ErrorKind::FileNotFound => LoreError::FileNotFound,
            ErrorKind::NotFound
            | ErrorKind::LayerNotFound
            | ErrorKind::RevisionNotFound
            | ErrorKind::BranchNotFound
            | ErrorKind::LinkNotFound
            | ErrorKind::LinkPathNotFound => LoreError::NotFound,
            ErrorKind::AddressNotFound => LoreError::AddressNotFound,
            ErrorKind::PayloadNotFound => LoreError::PayloadNotFound,
            ErrorKind::InvalidPath | ErrorKind::InvalidArguments => LoreError::InvalidArguments,
            _ => LoreError::Internal,
        }
    }

    /// The text of the failure.
    pub fn inner(&self) -> (text: String)
        ensures
            text@ == self.detail@,
    {
        self.detail.clone()
    }
}

/// Context information for discovered links during tree traversal
#[derive(Debug)]
pub struct LinkContext {
    /// The repository ID that the link points to
    pub link_repository_id: RepositoryId,
    /// The node ID of the link in the parent repository
    pub link_node_id: NodeID,
    /// The repository ID where the link resides
    pub parent_repository_id: RepositoryId,
    /// Path to the link from the parent repository root
    pub link_path: String,
}

/// What identifies a link: the linked repository, the link node, the parent
/// repository and the path.
pub type LinkKey = ([u8; 16], u32, [u8; 16], String);

/// The mathematical form of a [`LinkKey`].
pub type LinkKeyView = (Seq<u8>, u32, Seq<u8>, Seq<char>);

/// The mathematical form of a key.
pub open spec fn key_view(key: LinkKey) -> LinkKeyView {
    (key.0@, key.1, key.2@, key.3@)
}

impl View for LinkContext {
    type V = LinkKeyView;

    open spec fn view(&self) -> LinkKeyView {
        (
            self.link_repository_id.data@,
            self.link_node_id,
            self.parent_repository_id.data@,
            self.link_path@,
        )
    }
}

/// Concurrent hash map of the `dashmap` crate.
#[verifier::external_type_specification]
#[verifier::external_body]
#[verifier::reject_recursive_types(K)]
#[verifier::reject_recursive_types(V)]
#[verifier::reject_recursive_types(S)]
pub struct ExDashMap<K, V, S>(dashmap::DashMap<K, V, S>);

/// The links that a map holds, each with its flag.
pub uninterp spec fn link_entries(map: DashMap<LinkKey, bool>) -> Map<LinkKeyView, bool>;

/// No links at all.
pub open spec fn no_links() -> Map<LinkKeyView, bool> {
    Map::empty()
}

/// `DashMap::new` makes a map that holds nothing.
#[verifier::external_body]
fn link_map_new() -> (links: DashMap<LinkKey, bool>)
    ensures
        link_entries(links) == no_links(),
{
    DashMap::new()
}

/// `DashMap::insert` sets the value of a key.
#[verifier::external_body]
fn link_map_insert(map: &mut DashMap<LinkKey, bool>, key: LinkKey, value: bool)
    ensures
        link_entries(*final(map)) == link_entries(*old(map)).insert(key_view(key), value),
{
    map.insert(key, value);
}

/// `DashMap::iter` yields every key with its value once, in no particular order.
#[verifier::external_body]
fn link_map_entries(map: &DashMap<LinkKey, bool>) -> (entries: Vec<(LinkKey, bool)>)
    ensures
        forall|i: int|
            0 <= i < entries@.len() ==> {
                &&& link_entries(*map).contains_key(key_view((#[trigger] entries@[i]).0))
                &&& link_entries(*map)[key_view(entries@[i].0)] == entries@[i].1
            },
        forall|i: int, j: int|
            0 <= i < j < entries@.len() ==> key_view((#[trigger] entries@[i]).0) != key_view(
                (#[trigger] entries@[j]).0,
            ),
        forall|key: LinkKeyView| #[trigger]
            link_entries(*map).contains_key(key) ==> exists|i: int|
                0 <= i < entries@.len() && key_view((#[trigger] entries@[i]).0) == key,
{
    map.iter().map(|entry| (entry.key().clone(), *entry.value())).collect()
}

/// Maps link contexts to whether they need rehashing
pub struct LinkTracker {
    links: DashMap<LinkKey, bool>,
}

impl View for LinkTracker {
    type V = Map<LinkKeyView, bool>;

    closed spec fn view(&self) -> Map<LinkKeyView, bool> {
        link_entries(self.links)
    }
}

fn context_of(key: &LinkKey) -> (context: LinkContext)
    ensures
        context@ == key_view(*key),
{
    LinkContext {
        link_repository_id: Context { data: key.0 },
        link_node_id: key.1,
        parent_repository_id: Context { data: key.2 },
        link_path: key.3.clone(),
    }
}

/// The links after the nodes of a repository changed: every link into that
/// repository needs rehashing.
pub open spec fn marked(links: Map<LinkKeyView, bool>, repository: Seq<u8>) -> Map<
    LinkKeyView,
    bool,
> {
    Map::new(|k: LinkKeyView| links.contains_key(k), |k: LinkKeyView| links[k] || k.0 == repository)
}

impl LinkTracker {
    /// A tracker without links.
    pub fn new() -> (tracker: LinkTracker)
        ensures
            tracker@ == no_links(),
    {
        LinkTracker { links: link_map_new() }
    }

    /// Adds a link that does not need rehashing. A link that was known before
    /// starts over.
    pub fn add_link(&mut self, link_context: LinkContext)
        ensures
            final(self)@ == old(self)@.insert(link_context@, false),
    {
        let key: LinkKey = (
            link_context.link_repository_id.data,
            link_context.link_node_id,
            link_context.parent_repository_id.data,
            link_context.link_path,
        );
        link_map_insert(&mut self.links, key, false);
    }

    /// Marks every link into a repository as needing rehashing.
    pub fn on_node_changed(&mut self, repository_id: RepositoryId)
        ensures
            final(self)@ == marked(old(self)@, repository_id.data@),
    {
        let entries = link_map_entries(&self.links);
        let mut i: usize = 0;
        while i < entries.len()
            invariant
                i <= entries@.len(),
                forall|k: LinkKeyView|
                    #![trigger self@.contains_key(k)]
                    self@.contains_key(k) == old(self)@.contains_key(k),
                forall|j: int|
                    0 <= j < entries@.len() ==> {
                        &&& old(self)@.contains_key(key_view((#[trigger] entries@[j]).0))
                        &&& old(self)@[key_view(entries@[j].0)] == entries@[j].1
                    },
                forall|j: int|
                    0 <= j < i ==> self@[key_view((#[trigger] entries@[j]).0)] == (entries@[j].1
                        || entries@[j].0.0@ == repository_id.data@),
                forall|j: int|
                    i <= j < entries@.len() ==> self@[key_view((#[trigger] entries@[j]).0)]
                        == entries@[j].1,
                forall|a: int, b: int|
                    0 <= a < b < entries@.len() ==> key_view((#[trigger] entries@[a]).0)
                        != key_view((#[trigger] entries@[b]).0),
            decreases entries@.len() - i,
        {
            if bytes_equal(&entries[i].0.0, &repository_id.data) {
                let key: LinkKey = (
                    entries[i].0.0,
                    entries[i].0.1,
                    entries[i].0.2,
                    entries[i].0.3.clone(),
                );
                assert(key_view(key) == key_view(entries@[i as int].0));
                link_map_insert(&mut self.links, key, true);
            }
            i = i + 1;
        }
        assert(self@ =~= marked(old(self)@, repository_id.data@)) by {
            assert forall|k: LinkKeyView| self@.contains_key(k) implies self@[k] == (old(self)@[k]
                || k.0 == repository_id.data@) by {
                assert(old(self)@.contains_key(k));
                let j = choose|j: int|
                    0 <= j < entries@.len() && key_view((#[trigger] entries@[j]).0) == k;
                assert(self@[key_view(entries@[j].0)] == (entries@[j].1 || entries@[j].0.0@
                    == repository_id.data@));
            }
        }
    }

    /// The links that need rehashing, in no particular order.
    pub fn get_links_needing_rehash(&self) -> (links: Vec<LinkContext>)
        ensures
            forall|i: int|
                0 <= i < links@.len() ==> self@.contains_pair((#[trigger] links@[i])@, true),
            forall|i: int, j: int|
                0 <= i < j < links@.len() ==> (#[trigger] links@[i])@ != (#[trigger] links@[j])@,
            forall|k: LinkKeyView|
                self@.contains_pair(k, true) ==> exists|i: int|
                    0 <= i < links@.len() && (#[trigger] links@[i])@ == k,
    {
        let entries = link_map_entries(&self.links);
        let mut links: Vec<LinkContext> = Vec::new();
        let ghost mut from: Seq<int> = Seq::empty();
        let mut i: usize = 0;
        while i < entries.len()
            invariant
                i <= entries@.len(),
                from.len() == links@.len(),
                forall|n: int|
                    0 <= n < links@.len() ==> {
                        &&& 0 <= #[trigger] from[n] < i
                        &&& links@[n]@ == key_view(entries@[from[n]].0)
                        &&& entries@[from[n]].1
                    },
                forall|a: int, b: int|
                    0 <= a < b < from.len() ==> #[trigger] from[a] < #[trigger] from[b],
                forall|j: int|
                    0 <= j < i && (#[trigger] entries@[j]).1 ==> exists|n: int|
                        0 <= n < from.len() && #[trigger] from[n] == j,
            decreases entries@.len() - i,
        {
            if entries[i].1 {
                links.push(context_of(&entries[i].0));
                proof {
                    let before = from;
                    from = from.push(i as int);
                    assert forall|j: int| 0 <= j < i + 1 && (
                    #[trigger] entries@[j]).1 implies exists|n: int|
                        0 <= n < from.len() && #[trigger] from[n] == j by {
                        if j < i {
                            let n = choose|n: int|
                                0 <= n < before.len() && #[trigger] before[n] == j;
                            assert(from[n] == j);
                        } else {
                            assert(from[before.len() as int] == j);
                        }
                    }
                }
            }
            i = i + 1;
        }
        proof {
            assert forall|a: int, b: int| 0 <= a < b < links@.len() implies (
            #[trigger] links@[a])@ != (#[trigger] links@[b])@ by {
                assert(from[a] < from[b]);
                assert(key_view(entries@[from[a]].0) != key_view(entries@[from[b]].0));
            }
            assert forall|k: LinkKeyView| self@.contains_pair(k, true) implies exists|n: int|
                0 <= n < links@.len() && (#[trigger] links@[n])@ == k by {
                assert(self@.contains_key(k));
                let j = choose|j: int|
                    0 <= j < entries@.len() && key_view((#[trigger] entries@[j]).0) == k;
                assert(entries@[j].1);
                let n = choose|n: int| 0 <= n < from.len() && #[trigger] from[n] == j;
                assert(links@[n]@ == k);
            }
            assert forall|n: int| 0 <= n < links@.len() implies self@.contains_pair(
                (#[trigger] links@[n])@,
                true,
            ) by {
                assert(0 <= from[n] < entries@.len());
                assert(self@.contains_key(key_view(entries@[from[n]].0)));
            }
        }
        links
    }

    /// Tells whether any link needs rehashing.
    pub fn has_modifications(&self) -> (yes: bool)
        ensures
            yes == exists|k: LinkKeyView| self@.contains_pair(k, true),
    {
        let entries = link_map_entries(&self.links);
        let mut i: usize = 0;
        while i < entries.len()
            invariant
                i <= entries@.len(),
                forall|j: int| 0 <= j < i ==> !(#[trigger] entries@[j]).1,
                forall|j: int|
                    0 <= j < entries@.len() ==> {
                        &&& self@.contains_key(key_view((#[trigger] entries@[j]).0))
                        &&& self@[key_view(entries@[j].0)] == entries@[j].1
                    },
            decreases entries@.len() - i,
        {
            if entries[i].1 {
                assert(self@.contains_pair(key_view(entries@[i as int].0), true));
                return true;
            }
            i = i + 1;
        }
        proof {
            assert forall|k: LinkKeyView| !self@.contains_pair(k, true) by {
                if self@.contains_pair(k, true) {
                    assert(self@.contains_key(k));
                    let j = choose|j: int|
                        0 <= j < entries@.len() && key_view((#[trigger] entries@[j]).0) == k;
                    assert(!entries@[j].1);
                }
            }
        }
        false
    }

    /// Some link into a repository, if there is one.
    pub fn find_link_context(&self, repository_id: RepositoryId) -> (found: Option<LinkContext>)
        ensures
            found is Some <==> exists|k: LinkKeyView|
                #![trigger self@.contains_key(k)]
                self@.contains_key(k) && k.0 == repository_id.data@,
            found matches Some(context) ==> self@.contains_key(context@) && context@.0
                == repository_id.data@,
    {
        let entries = link_map_entries(&self.links);
        let mut i: usize = 0;
        while i < entries.len()
            invariant
                i <= entries@.len(),
                forall|j: int|
                    0 <= j < i ==> (#[trigger] entries@[j]).0.0@ != repository_id.data@,
                forall|j: int|
                    0 <= j < entries@.len() ==> self@.contains_key(
                        key_view((#[trigger] entries@[j]).0),
                    ),
            decreases entries@.len() - i,
        {
            if bytes_equal(&entries[i].0.0, &repository_id.data) {
                assert(self@.contains_key(key_view(entries@[i as int].0)));
                return Some(context_of(&entries[i].0));
            }
            i = i + 1;
        }
        proof {
            assert forall|k: LinkKeyView| #[trigger] self@.contains_key(k) implies k.0
                != repository_id.data@ by {
                let j = choose|j: int|
                    0 <= j < entries@.len() && key_view((#[trigger] entries@[j]).0) == k;
                assert(entries@[j].0.0@ != repository_id.data@);
            }
        }
        None
    }
}

/// A link that was just added needs no rehashing until a node of the
/// repository it leads to changes; from then on it does.
pub proof fn law_links_follow_changes(
    links: Map<LinkKeyView, bool>,
    link: LinkKeyView,
    repository: Seq<u8>,
)
    ensures
        !links.insert(link, false)[link],
        marked(links.insert(link, false), repository)[link] == (link.0 == repository),
        forall|k: LinkKeyView|
            links.contains_key(k) && links[k] ==> marked(links, repository).contains_pair(k, true),
{
}

/// Data for an event reporting a change to a link.
#[derive(Debug)]
pub struct LoreLinkChangeEventData {
    /// Path of the link within the parent repository.
    pub link_path: String,
    /// Identifier of the repository the link points to.
    pub link_repository: RepositoryId,
    /// Identifier of the branch the link is pinned to.
    pub branch: BranchId,
    /// Hash of the revision the link is pinned to.
    pub revision: ContentHash,
    /// Kind of change applied to the link.
    pub action: LoreFileAction,
}

impl LoreLinkChangeEventData {
    /// The event for a link; a link at the repository root is reported as "/".
    pub fn new(
        link_path: &str,
        link_repository: RepositoryId,
        branch: BranchId,
        revision: ContentHash,
        action: LoreFileAction,
    ) -> (event: LoreLinkChangeEventData)
        ensures
            event.link_path@ == if link_path@.len() == 0 {
                "/"@
            } else {
                link_path@
            },
            event.link_repository == link_repository,
            event.branch == branch,
            event.revision == revision,
            event.action == action,
    {
        LoreLinkChangeEventData {
            link_path: if link_path.is_empty() {
                "/".to_owned()
            } else {
                link_path.to_owned()
            },
            link_repository,
            branch,
            revision,
            action,
        }
    }
}

/// Data for an event describing a single link in a repository.
#[derive(Debug)]
pub struct LoreLinkEntryEventData {
    /// Identifier of the repository the link points to.
    pub link: RepositoryId,
    /// Identifier of the link node in the parent repository.
    pub link_node: u32,
    /// Path of the link within the parent repository.
    pub link_path: String,
    /// Identifier of the source node in the linked repository.
    pub source_node: u32,
    /// Path of the source within the linked repository.
    pub source_path: String,
    /// Identifier of the branch the link is pinned to.
    pub branch: BranchId,
    /// Name of the branch the link is pinned to.
    pub branch_name: String,
    /// Hash of the revision the link is pinned to.
    pub revision: ContentHash,
    /// Link flags.
    pub flags: u32,
}

/// Options of a link.
#[derive(Clone, Copy, Debug, PartialEq, Eq, Structural)]
pub struct LinkFlags {
    pub bits: u32,
}

/// Disable auto-follow for branch creation
pub const DISABLE_AUTO_FOLLOW: u32 = 1;

impl LinkFlags {
    /// No flags
    pub fn no_flags() -> (flags: LinkFlags)
        ensures
            flags.bits == 0,
    {
        LinkFlags { bits: 0 }
    }

    /// Keeps the known flags of a number.
    pub fn from_bits_truncate(bits: u32) -> (flags: LinkFlags)
        ensures
            flags.bits == bits & DISABLE_AUTO_FOLLOW,
    {
        LinkFlags { bits: bits & DISABLE_AUTO_FOLLOW }
    }

    /// Tells whether auto-follow is disabled.
    pub fn disables_auto_follow(&self) -> (yes: bool)
        ensures
            yes == (self.bits & DISABLE_AUTO_FOLLOW != 0),
    {
        self.bits & DISABLE_AUTO_FOLLOW != 0
    }
}

/// Where a branch leaves its parent.
#[derive(Clone, Copy, Debug)]
pub struct BranchPoint {
    pub branch: BranchId,
    pub revision: ContentHash,
}

/// A branch to create in a linked repository.
#[derive(Debug)]
pub struct LinkBranchRequest {
    pub branch_id: BranchId,
    pub branch_name: String,
    pub branch_category: String,
    pub branch_stack: Vec<BranchPoint>,
}

/// The branch to create in a linked repository. A name that is taken gets the
/// branch identifier appended.
pub fn create_branch(
    name_is_taken: bool,
    branch_id: BranchId,
    branch_name: &str,
    branch_category: &str,
    parent_id: BranchId,
    parent_latest: ContentHash,
) -> (request: LinkBranchRequest)
    ensures
        request.branch_id == branch_id,
        request.branch_name@ == if name_is_taken {
            branch_name@.push('-') + hex_text(branch_id.data@)
        } else {
            branch_name@
        },
        request.branch_category@ == branch_category@,
        request.branch_stack@ == seq![BranchPoint { branch: parent_id, revision: parent_latest }],
{
    let mut name = branch_name.to_owned();
    if name_is_taken {
        name.push('-');
        name.append(branch_id.to_text().as_str());
    }
    let mut stack: Vec<BranchPoint> = Vec::new();
    stack.push(BranchPoint { branch: parent_id, revision: parent_latest });
    assert(stack@ =~= seq![BranchPoint { branch: parent_id, revision: parent_latest }]);
    LinkBranchRequest {
        branch_id,
        branch_name: name,
        branch_category: branch_category.to_owned(),
        branch_stack: stack,
    }
}

/// A path below the source of a link, moved to the place of the link.
pub open spec fn remapped(link_path: Seq<char>, source_path: Seq<char>, path: Seq<char>) -> Seq<
    char,
> {
    joined(link_path, text_after(path, encode_utf8(source_path).len()))
}

/// A path can be cut behind the length of the source path.
pub open spec fn can_remap(source_path: Seq<char>, path: Seq<char>) -> bool {
    is_char_boundary(encode_utf8(path), encode_utf8(source_path).len() as int)
}

fn remap(link_path: &str, source_path: &str, path: &str) -> (moved: String)
    requires
        can_remap(source_path@, path@),
    ensures
        moved@ == remapped(link_path@, source_path@, path@),
{
    let prefix_len = source_path.as_bytes().len();
    join(link_path, text_from(path, prefix_len))
}

/// Remaps change paths from the linked repository's source subtree to the
/// local link mount point: drops as many bytes as `source_path` has from each
/// path and puts `link_path` in front.
pub fn remap_changes(link_path: &str, source_path: &str, changes: &mut Vec<NodeChange>)
    requires
        forall|i: int|
            0 <= i < old(changes)@.len() ==> {
                &&& can_remap(source_path@, (#[trigger] old(changes)@[i]).path@)
                &&& old(changes)@[i].from_path matches Some(from) ==> can_remap(
                    source_path@,
                    from@,
                )
            },
    ensures
        final(changes)@.len() == old(changes)@.len(),
        forall|i: int|
            0 <= i < final(changes)@.len() ==> {
                let before = old(changes)@[i];
                let after = #[trigger] final(changes)@[i];
                &&& after.path@ == remapped(link_path@, source_path@, before.path@)
                &&& after.from_path is Some <==> before.from_path is Some
                &&& before.from_path matches Some(from) ==> after.from_path->0@ == remapped(
                    link_path@,
                    source_path@,
                    from@,
                )
                &&& after.action == before.action
                &&& after.from == before.from
                &&& after.to == before.to
                &&& after.flags == before.flags
            },
{
    let mut i: usize = 0;
    while i < changes.len()
        invariant
            i <= changes@.len(),
            changes@.len() == old(changes)@.len(),
            forall|j: int|
                0 <= j < changes@.len() ==> {
                    &&& can_remap(source_path@, (#[trigger] old(changes)@[j]).path@)
                    &&& old(changes)@[j].from_path matches Some(from) ==> can_remap(
                        source_path@,
                        from@,
                    )
                },
            forall|j: int| i <= j < changes@.len() ==> #[trigger] changes@[j] == old(changes)@[j],
            forall|j: int|
                0 <= j < i ==> {
                    let before = old(changes)@[j];
                    let after = #[trigger] changes@[j];
                    &&& after.path@ == remapped(link_path@, source_path@, before.path@)
                    &&& after.from_path is Some <==> before.from_path is Some
                    &&& before.from_path matches Some(from) ==> after.from_path->0@ == remapped(
                        link_path@,
                        source_path@,
                        from@,
                    )
                    &&& after.action == before.action
                    &&& after.from == before.from
                    &&& after.to == before.to
                    &&& after.flags == before.flags
                },
        decreases changes@.len() - i,
    {
        let before = &changes[i];
        assert(*before == old(changes)@[i as int]);
        let path = remap(link_path, source_path, before.path.as_str());
        let from_path = match &before.from_path {
            Some(from) => Some(remap(link_path, source_path, from.as_str())),
            None => None,
        };
        let after = NodeChange {
            path,
            from_path,
            action: before.action,
            from: before.from,
            to: before.to,
            flags: before.flags,
        };
        changes.set(i, after);
        i = i + 1;
    }
}

/// Updates a link pin in the node tree and the link registry. The state counts
/// as modified even where only the registry entry is missing.
pub fn update_link_pin_by_node(
    state: &mut RevisionState,
    link_repo_id: RepositoryId,
    branch: BranchId,
    new_signature: ContentHash,
    node_id: NodeID,
) -> (result: Result<(), ErrorKind>)
    ensures
        result is Ok <==> node_id < old(state).tree@.len() && has_link(
            old(state).links@,
            link_repo_id,
            node_id,
        ),
        result matches Err(kind) ==> kind == if node_id < old(state).tree@.len() {
            ErrorKind::LinkNotFound
        } else {
            ErrorKind::NodeNotFound
        },
        node_id >= old(state).tree@.len() ==> *final(state) == *old(state),
        node_id < old(state).tree@.len() ==> {
            let node = old(state).tree@[node_id as int];
            let link = crate::node::NodeLink { revision: new_signature, ..node.link };
            &&& final(state).tree@ == old(state).tree@.update(node_id as int, Node { link, ..node })
            &&& final(state).tree.modified
        },
        final(state).links@ == if result is Ok {
            let at = link_position(old(state).links@, link_repo_id, node_id);
            old(state).links@.update(
                at,
                LinkReference { branch, signature: new_signature, ..old(state).links@[at] },
            )
        } else {
            old(state).links@
        },
        final(state).same_header(*old(state)),
{
    let mut node = match state.tree.node(node_id) {
        Ok(node) => node,
        Err(kind) => {
            return Err(kind);
        },
    };
    node.link.revision = new_signature;
    state.tree.set_node(node_id, node);
    state.link_update(link_repo_id, branch, new_signature, node_id)
}

/// Makes a tracked link state the successor of a revision, before it is
/// written.
pub fn prepare_tracked_link(link_state: &mut RevisionState, parent_signature: ContentHash)
    ensures
        final(link_state).parent_self == parent_signature,
        final(link_state).revision_number == 0,
        final(link_state).revision == old(link_state).revision,
        final(link_state).parent_other == old(link_state).parent_other,
        final(link_state).metadata_hash == old(link_state).metadata_hash,
        final(link_state).tree == old(link_state).tree,
        final(link_state).links == old(link_state).links,
{
    link_state.parent_self = parent_signature;
    link_state.revision_number = 0;
}

/// Pins a tracked link to the revision that its state was written as.
pub fn reserialize_tracked_link(
    state: &mut RevisionState,
    link_context: &LinkContext,
    branch: BranchId,
    new_signature: ContentHash,
) -> (result: Result<ContentHash, ErrorKind>)
    ensures
        result is Ok <==> link_context.link_node_id < old(state).tree@.len() && has_link(
            old(state).links@,
            link_context.link_repository_id,
            link_context.link_node_id,
        ),
        result matches Ok(signature) ==> signature == new_signature,
        result matches Err(kind) ==> kind == if link_context.link_node_id < old(
            state,
        ).tree@.len() {
            ErrorKind::LinkNotFound
        } else {
            ErrorKind::NodeNotFound
        },
        link_context.link_node_id >= old(state).tree@.len() ==> *final(state) == *old(state),
        link_context.link_node_id < old(state).tree@.len() ==> {
            let node = old(state).tree@[link_context.link_node_id as int];
            let link = crate::node::NodeLink { revision: new_signature, ..node.link };
            &&& final(state).tree@ == old(state).tree@.update(
                link_context.link_node_id as int,
                Node { link, ..node },
            )
            &&& final(state).tree.modified
        },
        final(state).links@ == if result is Ok {
            let at = link_position(
                old(state).links@,
                link_context.link_repository_id,
                link_context.link_node_id,
            );
            old(state).links@.update(
                at,
                LinkReference { branch, signature: new_signature, ..old(state).links@[at] },
            )
        } else {
            old(state).links@
        },
        final(state).same_header(*old(state)),
{
    match update_link_pin_by_node(
        state,
        link_context.link_repository_id,
        branch,
        new_signature,
        link_context.link_node_id,
    ) {
        Ok(()) => Ok(new_signature),
        Err(kind) => Err(kind),
    }
}

/// A path below a link, as it is restored on disk.
#[derive(Debug)]
pub struct LinkRestore {
    /// Path at the mount point, where merge sidecars are removed.
    pub mount_path: String,
    /// The content of the path is written again.
    pub realize: bool,
}

/// How a path below a link is restored: only files have content to write.
pub fn restore_link_path(link_path: &str, link_relative: &str, found: Option<Node>) -> (restore:
    LinkRestore)
    ensures
        restore.mount_path@ == joined(link_path@, link_relative@),
        restore.realize == (found matches Some(node) && node.kind == NodeKind::File),
{
    LinkRestore {
        mount_path: join(link_path, link_relative),
        realize: match found {
            Some(node) => node.is_file(),
            None => false,
        },
    }
}

/// Result of resolving a link path to its full context.
#[derive(Debug)]
pub struct ResolvedLink {
    /// The link node at the link path
    pub link_node: Node,
    /// The linked repository
    pub link_repository: RepositoryId,
    /// The link reference metadata from the link registry
    pub link_reference: LinkReference,
}

/// Why there is no link at a path, given the node found there.
pub open spec fn link_failure(state: RevisionState, found: NodeID) -> ErrorKind {
    if !is_valid_node_id(found) {
        ErrorKind::InvalidPath
    } else if found >= state.tree@.len() {
        ErrorKind::NodeNotFound
    } else if state.tree@[found as int].kind != NodeKind::Link {
        ErrorKind::NotALink
    } else {
        ErrorKind::LinkNotFound
    }
}

/// Resolves the node found at a path to a link with its registry entry.
pub fn resolve_link_at_path(state: &RevisionState, link_path: &str, found: NodeID) -> (result:
    Result<ResolvedLink, LinkError>)
    ensures
        result is Ok <==> {
            &&& is_valid_node_id(found)
            &&& found < state.tree@.len()
            &&& state.tree@[found as int].kind == NodeKind::Link
            &&& has_link(state.links@, state.tree@[found as int].link.repository, found)
        },
        result matches Ok(resolved) ==> {
            let node = state.tree@[found as int];
            &&& resolved.link_node == node
            &&& resolved.link_repository == node.link.repository
            &&& resolved.link_reference == state.links@[link_position(
                state.links@,
                node.link.repository,
                found,
            )]
        },
        result matches Err(e) ==> e.kind == link_failure(*state, found) && e.detail@ == link_path@,
{
    if !is_valid_node_id(found) {
        return Err(LinkError { kind: ErrorKind::InvalidPath, detail: link_path.to_owned() });
    }
    let link_node = match state.tree.node(found) {
        Ok(node) => node,
        Err(kind) => {
            return Err(LinkError { kind, detail: link_path.to_owned() });
        },
    };
    if !link_node.is_link() {
        return Err(LinkError { kind: ErrorKind::NotALink, detail: link_path.to_owned() });
    }
    match state.link_find(link_node.link.repository, found) {
        Ok(link_reference) => Ok(
            ResolvedLink { link_node, link_repository: link_node.link.repository, link_reference },
        ),
        Err(kind) => Err(LinkError { kind, detail: link_path.to_owned() }),
    }
}

/// Updates the pin of the link found at a path.
pub fn update_link_pin_by_path(
    state: &mut RevisionState,
    link_path: &str,
    found: NodeID,
    branch: BranchId,
    new_signature: ContentHash,
) -> (result: Result<(), LinkError>)
    ensures
        result is Ok <==> {
            &&& is_valid_node_id(found)
            &&& found < old(state).tree@.len()
            &&& old(state).tree@[found as int].kind == NodeKind::Link
            &&& has_link(old(state).links@, old(state).tree@[found as int].link.repository, found)
        },
        result is Ok ==> {
            let node = old(state).tree@[found as int];
            let link = crate::node::NodeLink { revision: new_signature, ..node.link };
            let at = link_position(old(state).links@, node.link.repository, found);
            &&& final(state).tree@ == old(state).tree@.update(found as int, Node { link, ..node })
            &&& final(state).links@ == old(state).links@.update(
                at,
                LinkReference { branch, signature: new_signature, ..old(state).links@[at] },
            )
        },
        result matches Err(e) ==> {
            &&& *final(state) == *old(state)
            &&& e.kind == link_failure(*old(state), found)
            &&& e.detail@ == link_path@
        },
        final(state).same_header(*old(state)),
        result is Ok ==> final(state).tree.modified,
{
    let resolved = match resolve_link_at_path(state, link_path, found) {
        Ok(resolved) => resolved,
        Err(error) => {
            return Err(error);
        },
    };
    proof {
        crate::state::lemma_link_position(state.links@, resolved.link_repository, found);
    }
    match update_link_pin_by_node(
        state,
        resolved.link_repository,
        branch,
        new_signature,
        resolved.link_reference.local_node,
    ) {
        Ok(()) => Ok(()),
        Err(kind) => Err(LinkError { kind, detail: link_path.to_owned() }),
    }
}

/// The link node to stage when a link is pinned to another revision: node
/// identifiers differ between revisions, so the source is the node found at the
/// source path in the new revision.
pub fn stage_link_pin(
    link_node: Node,
    source_path: &str,
    new_source: NodeID,
    new_signature: ContentHash,
) -> (result: Result<Node, LinkError>)
    ensures
        result is Ok <==> new_source != INVALID_NODE,
        result matches Ok(node) ==> {
            let link = crate::node::NodeLink { revision: new_signature, ..link_node.link };
            node == Node { child: new_source, link, ..link_node }
        },
        result matches Err(e) ==> e.kind == ErrorKind::InvalidPath && e.detail@ == source_path@,
{
    if !is_valid_or_root_node_id(new_source) {
        return Err(LinkError { kind: ErrorKind::InvalidPath, detail: source_path.to_owned() });
    }
    let mut staged_node = link_node;
    staged_node.link.revision = new_signature;
    staged_node.child = new_source;
    Ok(staged_node)
}

/// Result of checking whether a link is eligible for a merge operation.
#[derive(Clone, Copy, Debug, PartialEq, Eq, Structural)]
pub enum LinkMergeEligibility {
    /// The link is eligible for merge.
    Eligible,
    /// The link should be silently skipped (inaccessible remote or branch not found).
    Skip,
    /// The link has auto-follow disabled, which is a hard error.
    AutoFollowDisabled,
}

/// Checks whether a linked repository is eligible for merge operations.
pub fn check_link_merge_eligible(
    link_reference: &LinkReference,
    remote_is_accessible: bool,
    target_branch_exists: bool,
) -> (eligibility: LinkMergeEligibility)
    ensures
        eligibility == if link_reference.flags & DISABLE_AUTO_FOLLOW != 0 {
            LinkMergeEligibility::AutoFollowDisabled
        } else if remote_is_accessible && target_branch_exists {
            LinkMergeEligibility::Eligible
        } else {
            LinkMergeEligibility::Skip
        },
{
    if link_reference.flags & DISABLE_AUTO_FOLLOW != 0 {
        return LinkMergeEligibility::AutoFollowDisabled;
    }
    if !remote_is_accessible {
        return LinkMergeEligibility::Skip;
    }
    if !target_branch_exists {
        return LinkMergeEligibility::Skip;
    }
    LinkMergeEligibility::Eligible
}

/// Number of changes and conflicts between two revisions of a linked
/// repository.
#[derive(Clone, Copy, Debug, PartialEq, Eq, Structural)]
pub struct LinkDivergence {
    pub changes: usize,
    pub conflicts: usize,
}

/// Tells whether two branches of a linked repository differ in content. A
/// comparison that failed counts as a difference.
pub fn link_has_content_divergence(diff: Option<LinkDivergence>) -> (diverges: bool)
    ensures
        diverges == (diff matches Some(d) ==> d.changes != 0 || d.conflicts != 0),
{
    match diff {
        Some(d) => d.changes != 0 || d.conflicts != 0,
        None => true,
    }
}

/// A path without its trailing separators.
pub open spec fn without_trailing_slashes(path: Seq<char>) -> Seq<char>
    decreases path.len(),
{
    if path.len() > 0 && path.last() == '/' {
        without_trailing_slashes(path.drop_last())
    } else {
        path
    }
}

/// The mount prefix of a full path, given the path relative to the link.
pub open spec fn mount_prefix(full_path: Seq<char>, link_relative: Seq<char>) -> Seq<char> {
    if link_relative.len() == 0 {
        full_path
    } else if ends_with(full_path, link_relative) {
        without_trailing_slashes(full_path.take(full_path.len() - link_relative.len()))
    } else {
        without_trailing_slashes(full_path)
    }
}

/// Extracts the mount prefix from a full path given a link-relative path.
///
/// Given a full path through a mount point (e.g. `linked/repo/src/data.txt`)
/// and a link-relative path (e.g. `src/data.txt`), returns the mount prefix
/// (`linked/repo`).
pub fn link_mount_prefix(full_path: &str, link_relative: &str) -> (prefix: String)
    ensures
        prefix@ == mount_prefix(full_path@, link_relative@),
{
    if link_relative.is_empty() {
        return full_path.to_owned();
    }
    let full = chars_of(full_path);
    let relative = chars_of(link_relative);
    let mut end: usize = full.len();
    if relative.len() <= full.len() {
        let start = full.len() - relative.len();
        assert(full@.skip(start as int) =~= full@.subrange(start as int, start + relative@.len()));
        if chars_hold_at(full.as_slice(), start, relative.as_slice()) {
            end = start;
        }
    }
    let ghost cut = full@.take(end as int);
    assert(end == full@.len() ==> cut =~= full@);
    while end > 0 && full[end - 1] == '/'
        invariant
            end <= full@.len(),
            without_trailing_slashes(full@.take(end as int)) == without_trailing_slashes(cut),
        decreases end,
    {
        assert(full@.take(end as int).drop_last() =~= full@.take(end - 1));
        end = end - 1;
    }
    text_of(vstd::slice::slice_subrange(full.as_slice(), 0, end))
}

proof fn lemma_no_trailing_slash(path: Seq<char>)
    requires
        path.len() == 0 || path.last() != '/',
    ensures
        without_trailing_slashes(path) == path,
{
}

/// The mount prefix of a path is what stands before the separator and the path
/// below the mount.
pub proof fn law_mount_prefix_inverts_join(prefix: Seq<char>, below: Seq<char>)
    requires
        prefix.len() == 0 || prefix.last() != '/',
        below.len() > 0,
    ensures
        mount_prefix(prefix.push('/') + below, below) == prefix,
{
    let full = prefix.push('/') + below;
    assert(full.skip(full.len() - below.len()) =~= below);
    let cut = full.take(full.len() - below.len());
    assert(cut =~= prefix.push('/'));
    assert(cut.drop_last() =~= prefix);
    lemma_no_trailing_slash(prefix);
}

/// A path below the source of a link is moved to the same place below the link, and
/// the source itself to the link.
pub proof fn law_remapping_moves_below_the_link(
    link_path: Seq<char>,
    source_path: Seq<char>,
    below: Seq<char>,
)
    requires
        below.len() > 0 ==> below[0] != '/',
    ensures
        remapped(link_path, source_path, joined(source_path, below)) == joined(link_path, below),
{
    if source_path.len() == 0 {
        law_text_after_is_the_rest(source_path, below);
        assert(source_path + below =~= below);
    } else if below.len() == 0 {
        law_text_after_is_the_rest(source_path, below);
        assert(source_path + below =~= source_path);
    } else {
        let rest = seq!['/'] + below;
        law_text_after_is_the_rest(source_path, rest);
        assert(source_path + rest =~= source_path.push('/') + below);
        assert(rest.drop_first() =~= below);
    }
}

} // verus!
