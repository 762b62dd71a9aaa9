//! Layers: other repositories placed over a directory of this one.

pub mod walk;

use vstd::prelude::*;
use vstd::string::*;

use crate::errors::ErrorKind;
use crate::errors::LoreError;
use crate::link::BranchPoint;
use crate::link::LinkBranchRequest;
use crate::node::children;
use crate::node::sound_siblings;
use crate::node::Node;
use crate::node::NodeID;
use crate::node::NodeKind;
use crate::node::NodeLink;
use crate::node::NodeTree;
use crate::node::INVALID_NODE;
use crate::path::join;
use crate::path::joined;
use crate::text::chars_of;
use crate::text::text_equal;
use crate::text::views;
use crate::types::bytes_equal;
use crate::types::flag;
use crate::types::flag_of;
use crate::types::BranchId;
use crate::types::ContentHash;
use crate::types::RepositoryId;

verus! {

/// Failure of a layer operation.
#[derive(Debug)]
pub struct LayerError {
    pub kind: ErrorKind,
    pub detail: String,
}

impl LayerError {
    /// The code reported to callers of the engine.
    pub fn translated(&self) -> (code: LoreError)
        ensures
            code == LoreError::Internal,
    {
        LoreError::Internal
    }

    /// The text of the failure.
    pub fn inner(&self) -> (text: String)
        ensures
            text@ == self.detail@,
    {
        self.detail.clone()
    }

    pub(crate) fn of(kind: ErrorKind, detail: &str) -> (error: LayerError)
        ensures
            error.kind == kind,
            error.detail@ == detail@,
    {
        LayerError { kind, detail: detail.to_owned() }
    }
}

/// Data for the event emitted when a layer is added.
#[derive(Debug)]
pub struct LoreLayerAddEventData {
    /// Path in the outer repository where the layer is placed.
    pub target_path: String,
    /// Identifier of the source repository.
    pub source_repository: RepositoryId,
    /// Path inside the source repository where the layer starts.
    pub source_path: String,
    /// Metadata used to match revisions between the repositories.
    pub metadata: String,
    /// Revision of the source repository.
    pub revision: ContentHash,
}

/// Data for the event describing a single configured layer.
#[derive(Debug)]
pub struct LoreLayerEntryEventData {
    /// Path in the outer repository where the layer is placed.
    pub target_path: String,
    /// Identifier of the source repository.
    pub source_repository: RepositoryId,
    /// Path inside the source repository where the layer starts.
    pub source_path: String,
    /// Metadata used to match revisions between the repositories.
    pub metadata: String,
    /// Revision of the source repository.
    pub revision: ContentHash,
}

/// Data for the event describing a layer that has staged changes.
#[derive(Debug)]
pub struct LoreLayerStagedEntryEventData {
    /// Path in the outer repository where the layer is placed.
    pub target_path: String,
    /// Identifier of the source repository.
    pub source_repository: RepositoryId,
    /// Number of staged files in the layer.
    pub staged_file_count: u64,
}

/// Data for the event emitted when a layer is removed.
#[derive(Debug)]
pub struct LoreLayerRemoveEventData {
    /// Path in the outer repository where the layer was placed.
    pub target_path: String,
    /// Identifier of the source repository.
    pub source_repository: RepositoryId,
    /// Path inside the source repository where the layer started.
    pub source_path: String,
    /// Revision of the source repository.
    pub revision: ContentHash,
    /// Set when removal was forced.
    pub forced: u8,
    /// Set when the layer files were purged from disk.
    pub purged: u8,
    /// Number of files removed.
    pub file_count: u64,
    /// Number of directories removed.
    pub directory_count: u64,
    /// Number of modified files encountered.
    pub modified_count: u64,
}

/// A configured layer.
#[derive(Debug)]
pub struct Layer {
    /// Path in the parent outer repository where the layer should be placed
    pub target_path: String,
    /// Path inside the layer target repository where the layer should start
    pub source_path: String,
    /// Repository of the layer
    pub repository: RepositoryId,
    /// Metadata used to match revisions between outer repository and layer repository
    pub metadata: Option<String>,
    /// Currently synchronized revision of the layer repository
    pub current: ContentHash,
    /// Currently staged revision of the layer repository
    pub staged: ContentHash,
}

impl Layer {
    /// The layer is the one of a repository at a path.
    pub open spec fn is_at(&self, repository: RepositoryId, target_path: Seq<char>) -> bool {
        self.repository == repository && self.target_path@ == target_path
    }

    fn found_at(&self, repository: RepositoryId, target_path: &str) -> (yes: bool)
        ensures
            yes == self.is_at(repository, target_path@),
    {
        self.repository == repository && text_equal(self.target_path.as_str(), target_path)
    }

    /// The layer has staged changes.
    pub open spec fn spec_has_staged(&self) -> bool {
        !self.staged.is_zero() && self.staged != self.current
    }

    /// Tells whether the layer has staged changes.
    pub fn has_staged(&self) -> (yes: bool)
        ensures
            yes == self.spec_has_staged(),
    {
        !self.staged.is_zero() && self.staged != self.current
    }

    /// The revisions to read for the current and the staged state: without a
    /// staged revision the current one stands for both.
    pub fn deserialize_current_and_staged(&self) -> (revisions: (ContentHash, ContentHash))
        ensures
            revisions.0 == self.current,
            revisions.1 == if self.staged.is_zero() {
                self.current
            } else {
                self.staged
            },
    {
        if self.staged.is_zero() {
            (self.current, self.current)
        } else {
            (self.current, self.staged)
        }
    }
}

// ---------------------------------------------------------------------------
// The list of layers
// ---------------------------------------------------------------------------

/// Position of the first layer of a repository at a path, or the number of
/// layers.
pub open spec fn layer_position(
    layers: Seq<Layer>,
    repository: RepositoryId,
    target_path: Seq<char>,
) -> int
    decreases layers.len(),
{
    if layers.len() == 0 || layers[0].is_at(repository, target_path) {
        0
    } else {
        1 + layer_position(layers.drop_first(), repository, target_path)
    }
}

/// A repository has a layer at a path.
pub open spec fn has_layer(layers: Seq<Layer>, repository: RepositoryId, target_path: Seq<char>) -> bool {
    layer_position(layers, repository, target_path) < layers.len()
}

proof fn lemma_layer_position(layers: Seq<Layer>, repository: RepositoryId, target_path: Seq<char>)
    ensures
        0 <= layer_position(layers, repository, target_path) <= layers.len(),
        forall|i: int|
            0 <= i < layer_position(layers, repository, target_path) ==> !(#[trigger] layers[i]).is_at(
                repository,
                target_path,
            ),
        has_layer(layers, repository, target_path) ==> layers[layer_position(
            layers,
            repository,
            target_path,
        )].is_at(repository, target_path),
    decreases layers.len(),
{
    if layers.len() > 0 && !layers[0].is_at(repository, target_path) {
        let rest = layers.drop_first();
        lemma_layer_position(rest, repository, target_path);
        let at = layer_position(rest, repository, target_path);
        assert forall|i: int| 0 <= i < 1 + at implies !(#[trigger] layers[i]).is_at(
            repository,
            target_path,
        ) by {
            if i > 0 {
                assert(layers[i] == rest[i - 1]);
            }
        }
    }
}

fn find_layer(layers: &Vec<Layer>, repository: RepositoryId, target_path: &str) -> (found: Option<
    usize,
>)
    ensures
        found is Some <==> has_layer(layers@, repository, target_path@),
        found matches Some(i) ==> i == layer_position(layers@, repository, target_path@) && i
            < layers@.len(),
{
    let mut i: usize = 0;
    assert(layers@.skip(0) =~= layers@);
    while i < layers.len()
        invariant
            i <= layers@.len(),
            layer_position(layers@, repository, target_path@) == i + layer_position(
                layers@.skip(i as int),
                repository,
                target_path@,
            ),
        decreases layers@.len() - i,
    {
        assert(layers@.skip(i as int)[0] == layers@[i as int]);
        assert(layers@.skip(i as int).drop_first() =~= layers@.skip(i + 1));
        if layers[i].found_at(repository, target_path) {
            return Some(i);
        }
        i = i + 1;
    }
    assert(layers@.skip(i as int).len() == 0);
    None
}

/// Number of layers at a path.
pub open spec fn layers_at(layers: Seq<Layer>, target_path: Seq<char>) -> nat
    decreases layers.len(),
{
    if layers.len() == 0 {
        0
    } else {
        layers_at(layers.drop_last(), target_path) + if layers.last().target_path@ == target_path {
            1nat
        } else {
            0
        }
    }
}

/// A layer at the path, and the only one.
pub open spec fn is_only_layer_at(layers: Seq<Layer>, target_path: Seq<char>, i: int) -> bool {
    &&& 0 <= i < layers.len()
    &&& layers[i].target_path@ == target_path
    &&& forall|j: int|
        0 <= j < layers.len() && j != i ==> (#[trigger] layers[j]).target_path@ != target_path
}

/// The layers at a path are counted one by one: there is none exactly where no layer
/// is there, and one exactly where a layer is the only one there.
pub proof fn law_layers_at_a_path_are_counted(layers: Seq<Layer>, target_path: Seq<char>)
    ensures
        layers_at(layers, target_path) == 0 <==> forall|i: int|
            0 <= i < layers.len() ==> (#[trigger] layers[i]).target_path@ != target_path,
        layers_at(layers, target_path) == 1 <==> exists|i: int|
            #[trigger] is_only_layer_at(layers, target_path, i),
    decreases layers.len(),
{
    if layers.len() > 0 {
        let earlier = layers.drop_last();
        let last = layers.len() - 1;
        law_layers_at_a_path_are_counted(earlier, target_path);
        assert forall|i: int| 0 <= i < earlier.len() implies (
        #[trigger] earlier[i]).target_path@ == layers[i].target_path@ by {}
        if layers_at(layers, target_path) == 0 {
            assert forall|i: int| 0 <= i < layers.len() implies (
            #[trigger] layers[i]).target_path@ != target_path by {
                if i < last {
                    assert(earlier[i].target_path@ != target_path);
                }
            }
        } else if layers[last].target_path@ != target_path {
            let i = choose|i: int|
                0 <= i < earlier.len() && (#[trigger] earlier[i]).target_path@ == target_path;
            assert(layers[i].target_path@ == target_path);
        }
        if layers_at(layers, target_path) == 1 {
            if layers[last].target_path@ == target_path {
                assert forall|j: int| 0 <= j < layers.len() && j != last implies (
                #[trigger] layers[j]).target_path@ != target_path by {
                    assert(earlier[j].target_path@ != target_path);
                }
                assert(is_only_layer_at(layers, target_path, last));
            } else {
                let i = choose|i: int| #[trigger] is_only_layer_at(earlier, target_path, i);
                assert forall|j: int| 0 <= j < layers.len() && j != i implies (
                #[trigger] layers[j]).target_path@ != target_path by {
                    if j < last {
                        assert(earlier[j].target_path@ != target_path);
                    }
                }
                assert(is_only_layer_at(layers, target_path, i));
            }
        }
        if exists|i: int| #[trigger] is_only_layer_at(layers, target_path, i) {
            let i = choose|i: int| #[trigger] is_only_layer_at(layers, target_path, i);
            if i == last {
                assert forall|j: int| 0 <= j < earlier.len() implies (
                #[trigger] earlier[j]).target_path@ != target_path by {
                    assert(layers[j].target_path@ != target_path);
                }
            } else {
                assert(layers[last].target_path@ != target_path);
                assert forall|j: int| 0 <= j < earlier.len() && j != i implies (
                #[trigger] earlier[j]).target_path@ != target_path by {
                    assert(layers[j].target_path@ != target_path);
                }
                assert(is_only_layer_at(earlier, target_path, i));
            }
        }
    }
}

/// Find the index of a configured layer matching `target_path`. When
/// `source_repository` is zero, ambiguity (multiple layers sharing the target
/// path) is reported as `InvalidArguments`; otherwise an exact match on both
/// `target_path` and `source_repository` is required.
pub fn resolve_layer_index(
    layers: &Vec<Layer>,
    target_path: &str,
    source_repository: RepositoryId,
) -> (result: Result<usize, LayerError>)
    ensures
        source_repository.is_zero() ==> {
            let count = layers_at(layers@, target_path@);
            &&& result is Ok <==> count == 1
            &&& result matches Ok(i) ==> is_only_layer_at(layers@, target_path@, i as int)
            &&& result matches Err(e) ==> if count == 0 {
                e.kind == ErrorKind::LayerNotFound
            } else {
                &&& e.kind == ErrorKind::InvalidArguments
                &&& e.detail@ == "Multiple layers configured at '"@ + target_path@
                    + "', specify a source repository to disambiguate"@
            }
        },
        !source_repository.is_zero() ==> {
            &&& result is Ok <==> has_layer(layers@, source_repository, target_path@)
            &&& result matches Ok(i) ==> i == layer_position(
                layers@,
                source_repository,
                target_path@,
            ) && i < layers@.len()
            &&& result matches Err(e) ==> e.kind == ErrorKind::LayerNotFound
        },
{
    if !source_repository.is_zero() {
        return match find_layer(layers, source_repository, target_path) {
            Some(i) => Ok(i),
            None => Err(LayerError::of(ErrorKind::LayerNotFound, "Layer not found")),
        };
    }
    let mut first: Option<usize> = None;
    let mut several = false;
    let mut i: usize = 0;
    assert(layers@.take(0) =~= Seq::empty());
    while i < layers.len()
        invariant
            i <= layers@.len(),
            first is None <==> layers_at(layers@.take(i as int), target_path@) == 0,
            several <==> layers_at(layers@.take(i as int), target_path@) > 1,
            first is None ==> forall|j: int|
                0 <= j < i ==> (#[trigger] layers@[j]).target_path@ != target_path@,
            first matches Some(f) ==> f < i && layers@[f as int].target_path@ == target_path@,
            first matches Some(f) ==> (!several ==> forall|j: int|
                0 <= j < i && j != f ==> (#[trigger] layers@[j]).target_path@ != target_path@),
        decreases layers@.len() - i,
    {
        assert(layers@.take(i + 1).drop_last() =~= layers@.take(i as int));
        if text_equal(layers[i].target_path.as_str(), target_path) {
            if first.is_some() {
                several = true;
            } else {
                first = Some(i);
            }
        }
        i = i + 1;
    }
    assert(layers@.take(i as int) =~= layers@);
    match first {
        None => Err(LayerError::of(ErrorKind::LayerNotFound, "Layer not found")),
        Some(index) => if several {
            let mut detail = "Multiple layers configured at '".to_owned();
            detail.append(target_path);
            detail.append("', specify a source repository to disambiguate");
            Err(LayerError { kind: ErrorKind::InvalidArguments, detail })
        } else {
            Ok(index)
        },
    }
}

/// The layers after the first one of a repository at a path got another current
/// revision, and another staged one if given.
pub open spec fn with_revisions(
    layers: Seq<Layer>,
    repository: RepositoryId,
    target_path: Seq<char>,
    current: Option<ContentHash>,
    staged: Option<ContentHash>,
) -> Seq<Layer> {
    if has_layer(layers, repository, target_path) {
        let i = layer_position(layers, repository, target_path);
        layers.update(
            i,
            Layer {
                current: match current {
                    Some(revision) => revision,
                    None => layers[i].current,
                },
                staged: match staged {
                    Some(revision) => revision,
                    None => layers[i].staged,
                },
                ..layers[i]
            },
        )
    } else {
        layers
    }
}

/// Sets the current revision of a layer, and its staged revision if given.
pub fn store_layer_current(
    layers: &mut Vec<Layer>,
    target_path: &str,
    layer_repository: RepositoryId,
    current: ContentHash,
    staged: Option<ContentHash>,
) -> (result: Result<(), LayerError>)
    ensures
        result is Ok <==> has_layer(old(layers)@, layer_repository, target_path@),
        result matches Err(e) ==> e.kind == ErrorKind::LayerNotFound,
        final(layers)@ == with_revisions(
            old(layers)@,
            layer_repository,
            target_path@,
            Some(current),
            staged,
        ),
{
    match find_layer(layers, layer_repository, target_path) {
        None => Err(LayerError::of(ErrorKind::LayerNotFound, "Layer not found")),
        Some(i) => {
            layers[i].current = current;
            if let Some(revision) = staged {
                layers[i].staged = revision;
            }
            Ok(())
        },
    }
}

/// Sets the staged revision of a layer.
pub fn store_layer_staged(
    layers: &mut Vec<Layer>,
    target_path: &str,
    layer_repository: RepositoryId,
    staged: ContentHash,
) -> (result: Result<(), LayerError>)
    ensures
        result is Ok <==> has_layer(old(layers)@, layer_repository, target_path@),
        result matches Err(e) ==> e.kind == ErrorKind::LayerNotFound,
        final(layers)@ == with_revisions(
            old(layers)@,
            layer_repository,
            target_path@,
            None,
            Some(staged),
        ),
{
    match find_layer(layers, layer_repository, target_path) {
        None => Err(LayerError::of(ErrorKind::LayerNotFound, "Layer not found")),
        Some(i) => {
            layers[i].staged = staged;
            Ok(())
        },
    }
}

/// The layers after updates of current revisions, made one after the other.
pub open spec fn with_updates(layers: Seq<Layer>, updates: Seq<UpdateView>) -> Seq<Layer>
    decreases updates.len(),
{
    if updates.len() == 0 {
        layers
    } else {
        let (repository, target_path, current) = updates.last();
        with_revisions(
            with_updates(layers, updates.drop_last()),
            repository,
            target_path,
            Some(current),
            None,
        )
    }
}

/// A new current revision of a layer, as contracts speak of it: the repository and
/// the path of the layer, and the revision.
pub type UpdateView = (RepositoryId, Seq<char>, ContentHash);

/// Updates, as contracts speak of them.
pub open spec fn update_views(updates: Seq<LayerUpdate>) -> Seq<UpdateView> {
    updates.map_values(
        |update: LayerUpdate| (update.repository, update.target_path@, update.current),
    )
}

/// A new current revision of a layer.
#[derive(Debug)]
pub struct LayerUpdate {
    pub repository: RepositoryId,
    pub target_path: String,
    pub current: ContentHash,
}

/// Sets the current revisions of several layers. An update of a layer that is
/// not configured is passed over. Tells whether the layers are saved: without
/// updates they are left alone.
pub fn store_layer_current_batch(layers: &mut Vec<Layer>, updates: &Vec<LayerUpdate>) -> (save: bool)
    ensures
        save == (updates@.len() > 0),
        final(layers)@ == with_updates(old(layers)@, update_views(updates@)),
{
    let ghost all = update_views(updates@);
    let mut i: usize = 0;
    assert(all.take(0) =~= Seq::empty());
    while i < updates.len()
        invariant
            i <= updates@.len(),
            all == update_views(updates@),
            layers@ == with_updates(old(layers)@, all.take(i as int)),
        decreases updates@.len() - i,
    {
        assert(all.take(i + 1).drop_last() =~= all.take(i as int));
        assert(all.take(i + 1).last() == all[i as int]);
        let update = &updates[i];
        let _ = store_layer_current(
            layers,
            update.target_path.as_str(),
            update.repository,
            update.current,
            None,
        );
        i = i + 1;
    }
    assert(all.take(i as int) =~= all);
    updates.len() > 0
}

/// Updates of current revisions keep the number of layers, where they are
/// placed and what is staged in them.
pub proof fn law_updates_keep_layers(layers: Seq<Layer>, updates: Seq<UpdateView>)
    ensures
        with_updates(layers, updates).len() == layers.len(),
        forall|i: int|
            0 <= i < layers.len() ==> {
                let after = #[trigger] with_updates(layers, updates)[i];
                &&& after.target_path == layers[i].target_path
                &&& after.source_path == layers[i].source_path
                &&& after.repository == layers[i].repository
                &&& after.metadata == layers[i].metadata
                &&& after.staged == layers[i].staged
            },
    decreases updates.len(),
{
    if updates.len() > 0 {
        law_updates_keep_layers(layers, updates.drop_last());
        let before = with_updates(layers, updates.drop_last());
        lemma_layer_position(before, updates.last().0, updates.last().1);
    }
}

/// No layer before a position is of the same repository at the same path.
pub open spec fn is_first_at_its_place(layers: Seq<Layer>, position: int) -> bool {
    forall|i: int|
        0 <= i < position ==> !(#[trigger] layers[i]).is_at(
            layers[position].repository,
            layers[position].target_path@,
        )
}

/// An update of a layer changes its current revision, and no other layer.
pub proof fn law_update_changes_one_layer(layers: Seq<Layer>, position: int, current: ContentHash)
    requires
        0 <= position < layers.len(),
        is_first_at_its_place(layers, position),
    ensures
        ({
            let layer = layers[position];
            with_revisions(layers, layer.repository, layer.target_path@, Some(current), None)
                == layers.update(position, Layer { current, ..layer })
        }),
{
    let layer = layers[position];
    lemma_layer_position(layers, layer.repository, layer.target_path@);
    assert(layer.is_at(layer.repository, layer.target_path@));
}

/// An update of a layer leaves a layer of another repository or at another path
/// alone.
pub proof fn law_update_keeps_other_places(
    layers: Seq<Layer>,
    repository: RepositoryId,
    target_path: Seq<char>,
    current: ContentHash,
    other: int,
)
    requires
        0 <= other < layers.len(),
        !layers[other].is_at(repository, target_path),
    ensures
        with_revisions(layers, repository, target_path, Some(current), None)[other]
            == layers[other],
{
    lemma_layer_position(layers, repository, target_path);
}

/// The current revision that was stored for a layer is the one that is read
/// back.
pub proof fn law_stored_current_is_read(
    layers: Seq<Layer>,
    repository: RepositoryId,
    target_path: Seq<char>,
    current: ContentHash,
    staged: Option<ContentHash>,
)
    requires
        has_layer(layers, repository, target_path),
    ensures
        ({
            let after = with_revisions(layers, repository, target_path, Some(current), staged);
            &&& has_layer(after, repository, target_path)
            &&& layer_position(after, repository, target_path) == layer_position(
                layers,
                repository,
                target_path,
            )
            &&& after[layer_position(after, repository, target_path)].current == current
        }),
{
    let after = with_revisions(layers, repository, target_path, Some(current), staged);
    lemma_layer_position(layers, repository, target_path);
    lemma_layer_position(after, repository, target_path);
    let i = layer_position(layers, repository, target_path);
    let j = layer_position(after, repository, target_path);
    assert(after[i].is_at(repository, target_path));
    if j < i {
        assert(after[j] == layers[j]);
        assert(!layers[j].is_at(repository, target_path));
        assert(j < after.len());
    }
}

// ---------------------------------------------------------------------------
// Adding a layer
// ---------------------------------------------------------------------------

/// The branch to create in a layer's repository that does not have it: it
/// leaves the default branch at its latest revision.
pub fn layer_branch_request(
    branch_id: BranchId,
    branch_name: &str,
    branch_category: Option<&str>,
    default_branch: BranchId,
    default_latest: ContentHash,
) -> (request: LinkBranchRequest)
    ensures
        request.branch_id == branch_id,
        request.branch_name@ == branch_name@,
        request.branch_category@ == match branch_category {
            Some(category) => category@,
            None => Seq::empty(),
        },
        request.branch_stack@ == seq![
            BranchPoint { branch: default_branch, revision: default_latest },
        ],
{
    let mut stack: Vec<BranchPoint> = Vec::new();
    stack.push(BranchPoint { branch: default_branch, revision: default_latest });
    assert(stack@ =~= seq![BranchPoint { branch: default_branch, revision: default_latest }]);
    LinkBranchRequest {
        branch_id,
        branch_name: branch_name.to_owned(),
        branch_category: match branch_category {
            Some(category) => category.to_owned(),
            None => String::new(),
        },
        branch_stack: stack,
    }
}

/// Where the source path of a new layer leads.
#[derive(Clone, Copy, Debug)]
pub enum LayerSourceNode {
    /// Looking it up failed.
    Failed(ErrorKind),
    /// A node, the root among them, or none where the node is invalid.
    Found(NodeLink, NodeKind),
}

/// The source of a layer is a directory of the layer's own repository.
pub open spec fn is_layer_source(source: LayerSourceNode, repository: RepositoryId) -> bool {
    source matches LayerSourceNode::Found(link, kind) && link.node != INVALID_NODE
        && link.repository == repository && kind == NodeKind::Directory
}

fn invalid_path(source_path: &str, kind: ErrorKind) -> (error: LayerError)
    ensures
        error.kind == kind,
        error.detail@ == "Invalid path "@ + source_path@,
{
    let mut detail = "Invalid path ".to_owned();
    detail.append(source_path);
    LayerError { kind, detail }
}

/// Adds a layer to the configured ones. Its source must be a directory of the
/// layer's own repository, and the repository must not have a layer at the path
/// yet.
pub fn add(
    layers: &mut Vec<Layer>,
    target_path: &str,
    source_repository: RepositoryId,
    source_path: &str,
    metadata: Option<&str>,
    revision: ContentHash,
    source: LayerSourceNode,
) -> (result: Result<LoreLayerAddEventData, LayerError>)
    ensures
        result is Ok <==> is_layer_source(source, source_repository) && !has_layer(
            old(layers)@,
            source_repository,
            target_path@,
        ),
        result matches Ok(event) ==> {
            &&& final(layers)@.len() == old(layers)@.len() + 1
            &&& final(layers)@.drop_last() == old(layers)@
            &&& final(layers)@.last().is_at(source_repository, target_path@)
            &&& final(layers)@.last().source_path@ == source_path@
            &&& final(layers)@.last().current == revision
            &&& final(layers)@.last().staged.is_zero()
            &&& final(layers)@.last().metadata is Some <==> metadata is Some
            &&& metadata matches Some(key) ==> final(layers)@.last().metadata->0@ == key@
            &&& event.target_path@ == target_path@
            &&& event.source_repository == source_repository
            &&& event.source_path@ == source_path@
            &&& event.metadata@ == match metadata {
                Some(key) => key@,
                None => Seq::empty(),
            }
            &&& event.revision == revision
        },
        result matches Err(e) ==> {
            &&& final(layers)@ == old(layers)@
            &&& match source {
                LayerSourceNode::Failed(kind) => e.kind == kind && e.detail@ == "Invalid path "@
                    + source_path@,
                LayerSourceNode::Found(link, kind) => if link.node == INVALID_NODE {
                    e.kind == ErrorKind::Internal && e.detail@ == "Invalid path "@ + source_path@
                } else if link.repository != source_repository {
                    e.kind == ErrorKind::Internal && e.detail@
                        == "Layer path is in a linked repository itself, create the layer using the target repository directly"@
                } else if kind != NodeKind::Directory {
                    e.kind == ErrorKind::Internal && e.detail@
                        == "Layer target path must be a directory in the layer repository"@
                } else {
                    e.kind == ErrorKind::AlreadyLinked
                },
            }
        },
{
    match source {
        LayerSourceNode::Failed(kind) => {
            return Err(invalid_path(source_path, kind));
        },
        LayerSourceNode::Found(link, kind) => {
            if link.node == INVALID_NODE {
                return Err(invalid_path(source_path, ErrorKind::Internal));
            }
            if link.repository != source_repository {
                return Err(
                    LayerError::of(
                        ErrorKind::Internal,
                        "Layer path is in a linked repository itself, create the layer using the target repository directly",
                    ),
                );
            }
            if kind != NodeKind::Directory {
                return Err(
                    LayerError::of(
                        ErrorKind::Internal,
                        "Layer target path must be a directory in the layer repository",
                    ),
                );
            }
        },
    }
    if find_layer(layers, source_repository, target_path).is_some() {
        return Err(LayerError::of(ErrorKind::AlreadyLinked, "Already linked"));
    }
    let key = match metadata {
        Some(key) => Some(key.to_owned()),
        None => None,
    };
    layers.push(
        Layer {
            target_path: target_path.to_owned(),
            source_path: source_path.to_owned(),
            repository: source_repository,
            metadata: key,
            current: revision,
            staged: ContentHash::default(),
        },
    );
    assert(layers@.drop_last() =~= old(layers)@);
    Ok(
        LoreLayerAddEventData {
            target_path: target_path.to_owned(),
            source_repository,
            source_path: source_path.to_owned(),
            metadata: match metadata {
                Some(key) => key.to_owned(),
                None => String::new(),
            },
            revision,
        },
    )
}

// ---------------------------------------------------------------------------
// Removing a layer
// ---------------------------------------------------------------------------

/// What a file of a layer is like on disk.
#[derive(Clone, Copy, Debug, PartialEq, Eq, Structural)]
pub enum LayerFileStat {
    /// A file. It counts as modified where comparing it failed.
    File { modified: bool },
    /// Something else.
    OtherType,
    Missing,
    Failed,
}

/// What a layer has placed in the working tree.
pub struct LayerFiles {
    pub files: Vec<String>,
    pub directories: Vec<String>,
    /// Paths that differ from the layer, with the way in which they do.
    pub modified: Vec<String>,
}

/// How a modified path is reported.
pub open spec fn modified_text(path: Seq<char>, stat: LayerFileStat) -> Option<Seq<char>> {
    match stat {
        LayerFileStat::File { modified } => if modified {
            Some(path)
        } else {
            None
        },
        LayerFileStat::OtherType => Some(path + " (type changed)"@),
        LayerFileStat::Missing => Some(path + " (missing)"@),
        LayerFileStat::Failed => Some(path + " (stat failed)"@),
    }
}

/// The file is in the working tree.
pub open spec fn is_on_disk(stat: LayerFileStat) -> bool {
    stat is File || stat is OtherType
}

fn text_with(path: &str, suffix: &str) -> (text: String)
    ensures
        text@ == path@ + suffix@,
{
    let mut text = path.to_owned();
    text.append(suffix);
    text
}

/// What a layer has placed in the working tree, as contracts speak of it.
#[verifier::ext_equal]
pub struct LayerFilesView {
    pub files: Seq<Seq<char>>,
    pub directories: Seq<Seq<char>>,
    pub modified: Seq<Seq<char>>,
}

impl View for LayerFiles {
    type V = LayerFilesView;

    open spec fn view(&self) -> LayerFilesView {
        LayerFilesView {
            files: views(self.files@),
            directories: views(self.directories@),
            modified: views(self.modified@),
        }
    }
}

/// What was found after a child of a layer directory was noted. A child without a
/// name is passed over.
pub open spec fn noted(
    found: LayerFilesView,
    directory: Seq<char>,
    name: Seq<char>,
    kind: NodeKind,
    stat: LayerFileStat,
) -> LayerFilesView {
    let path = joined(directory, name);
    let text = modified_text(path, stat);
    if name.len() == 0 {
        found
    } else if kind == NodeKind::Directory {
        LayerFilesView { directories: found.directories.push(path), ..found }
    } else {
        LayerFilesView {
            files: if is_on_disk(stat) {
                found.files.push(path)
            } else {
                found.files
            },
            modified: if text is Some {
                found.modified.push(text->0)
            } else {
                found.modified
            },
            ..found
        }
    }
}

/// Notes a child of a layer directory, and returns its path when it is a
/// directory to go down into. A child without a name is passed over.
pub fn note_layer_child(
    filesystem_path: &str,
    name: &str,
    kind: NodeKind,
    stat: LayerFileStat,
    found: &mut LayerFiles,
) -> (descend: Option<String>)
    ensures
        final(found)@ == noted(old(found)@, filesystem_path@, name@, kind, stat),
        descend is Some <==> name@.len() > 0 && kind == NodeKind::Directory,
        descend matches Some(below) ==> below@ == joined(filesystem_path@, name@),
{
    if name.is_empty() {
        return None;
    }
    let path = join(filesystem_path, name);
    if kind == NodeKind::Directory {
        let listed = path.clone();
        found.directories.push(listed);
        assert(views(found.directories@) =~= views(old(found).directories@).push(path@));
        return Some(path);
    }
    match stat {
        LayerFileStat::File { modified } => {
            if modified {
                found.modified.push(path.clone());
            }
            found.files.push(path);
        },
        LayerFileStat::OtherType => {
            found.modified.push(text_with(path.as_str(), " (type changed)"));
            found.files.push(path);
        },
        LayerFileStat::Missing => {
            found.modified.push(text_with(path.as_str(), " (missing)"));
        },
        LayerFileStat::Failed => {
            found.modified.push(text_with(path.as_str(), " (stat failed)"));
        },
    }
    proof {
        let at = joined(filesystem_path@, name@);
        if is_on_disk(stat) {
            assert(views(found.files@) =~= views(old(found).files@).push(at));
        }
        if let Some(text) = modified_text(at, stat) {
            assert(views(found.modified@) =~= views(old(found).modified@).push(text));
        }
    }
    None
}

/// Number of names in a path.
pub open spec fn depth(path: Seq<char>) -> nat {
    separators(path) + 1
}

/// Number of separators in a path.
pub open spec fn separators(path: Seq<char>) -> nat
    decreases path.len(),
{
    if path.len() == 0 {
        0
    } else {
        separators(path.drop_last()) + if path.last() == '/' {
            1nat
        } else {
            0
        }
    }
}

fn separator_count(path: &str) -> (count: usize)
    ensures
        count == separators(path@),
{
    let chars = chars_of(path);
    let mut count: usize = 0;
    let mut i: usize = 0;
    assert(chars@.take(0) =~= Seq::empty());
    while i < chars.len()
        invariant
            i <= chars@.len(),
            chars.len() == chars@.len(),
            count == separators(chars@.take(i as int)),
            count <= i,
        decreases chars@.len() - i,
    {
        assert(chars@.take(i + 1).drop_last() =~= chars@.take(i as int));
        if chars[i] == '/' {
            count = count + 1;
        }
        i = i + 1;
    }
    assert(chars@.take(i as int) =~= chars@);
    count
}

/// Where a path goes among paths that stand deepest first: behind those that
/// are as deep.
pub open spec fn place(paths: Seq<Seq<char>>, path: Seq<char>) -> int
    decreases paths.len(),
{
    if paths.len() == 0 || depth(paths[0]) < depth(path) {
        0
    } else {
        1 + place(paths.drop_first(), path)
    }
}

/// Paths, deepest first; those that are as deep keep their order.
pub open spec fn deepest_first(paths: Seq<Seq<char>>) -> Seq<Seq<char>>
    decreases paths.len(),
{
    if paths.len() == 0 {
        paths
    } else {
        let sorted = deepest_first(paths.drop_last());
        sorted.insert(place(sorted, paths.last()), paths.last())
    }
}

/// Paths stand deepest first.
pub open spec fn is_deepest_first(paths: Seq<Seq<char>>) -> bool {
    forall|i: int, j: int|
        0 <= i < j < paths.len() ==> depth(#[trigger] paths[i]) >= depth(#[trigger] paths[j])
}

proof fn lemma_place(paths: Seq<Seq<char>>, path: Seq<char>)
    ensures
        0 <= place(paths, path) <= paths.len(),
        forall|i: int| 0 <= i < place(paths, path) ==> depth(#[trigger] paths[i]) >= depth(path),
        place(paths, path) < paths.len() ==> depth(paths[place(paths, path)]) < depth(path),
    decreases paths.len(),
{
    if paths.len() > 0 && depth(paths[0]) >= depth(path) {
        let rest = paths.drop_first();
        lemma_place(rest, path);
        assert forall|i: int| 0 <= i < place(paths, path) implies depth(#[trigger] paths[i])
            >= depth(path) by {
            if i > 0 {
                assert(paths[i] == rest[i - 1]);
            }
        }
        if place(paths, path) < paths.len() {
            assert(paths[place(paths, path)] == rest[place(rest, path)]);
        }
    }
}

/// Sorting directories puts the deepest first and keeps each of them, so that a
/// directory is removed after everything below it.
pub proof fn law_deepest_first_is_sorted(paths: Seq<Seq<char>>)
    ensures
        is_deepest_first(deepest_first(paths)),
        deepest_first(paths).len() == paths.len(),
        deepest_first(paths).to_multiset() == paths.to_multiset(),
    decreases paths.len(),
{
    broadcast use vstd::seq_lib::group_to_multiset_ensures;

    if paths.len() > 0 {
        let before = deepest_first(paths.drop_last());
        let path = paths.last();
        let at = place(before, path);
        let after = before.insert(at, path);
        law_deepest_first_is_sorted(paths.drop_last());
        lemma_place(before, path);
        assert forall|i: int, j: int| 0 <= i < j < after.len() implies depth(#[trigger] after[i])
            >= depth(#[trigger] after[j]) by {
            if j < at {
                assert(after[i] == before[i] && after[j] == before[j]);
            } else if j == at {
                assert(after[i] == before[i]);
            } else {
                assert(after[j] == before[j - 1]);
                if i < at {
                    assert(after[i] == before[i]);
                } else if i == at {
                    assert(depth(before[at]) < depth(path));
                    assert(depth(before[at]) >= depth(before[j - 1]));
                } else {
                    assert(after[i] == before[i - 1]);
                }
            }
        }
        assert(paths =~= paths.drop_last().push(path));
        assert(after =~= before.take(at).push(path) + before.skip(at));
        vstd::seq_lib::lemma_multiset_commutative(before.take(at).push(path), before.skip(at));
        vstd::seq_lib::lemma_multiset_commutative(before.take(at), before.skip(at));
        assert(before.take(at) + before.skip(at) =~= before);
    } else {
        assert(deepest_first(paths) =~= paths);
    }
}

/// Sorts directories so that each comes after those below it.
pub fn sort_deepest_first(paths: &Vec<String>) -> (sorted: Vec<String>)
    ensures
        views(sorted@) == deepest_first(views(paths@)),
{
    let mut sorted: Vec<String> = Vec::new();
    let mut i: usize = 0;
    assert(views(paths@).take(0) =~= Seq::empty());
    assert(views(sorted@) =~= Seq::empty());
    while i < paths.len()
        invariant
            i <= paths@.len(),
            views(sorted@) == deepest_first(views(paths@).take(i as int)),
        decreases paths@.len() - i,
    {
        let parts = separator_count(paths[i].as_str());
        let mut at: usize = 0;
        let ghost path = paths@[i as int]@;
        let ghost before = views(sorted@);
        assert(before.skip(0) =~= before);
        while at < sorted.len()
            invariant_except_break
                at <= sorted@.len(),
                place(before, path) == at + place(before.skip(at as int), path),
            invariant
                before == views(sorted@),
                parts == separators(path),
            ensures
                at <= sorted@.len(),
                place(before, path) == at,
            decreases sorted@.len() - at,
        {
            assert(before.skip(at as int)[0] == sorted@[at as int]@);
            assert(before.skip(at as int).drop_first() =~= before.skip(at + 1));
            if separator_count(sorted[at].as_str()) < parts {
                break ;
            }
            at = at + 1;
            if at == sorted.len() {
                assert(before.skip(at as int).len() == 0);
            }
        }
        sorted.insert(at, paths[i].clone());
        assert(views(sorted@) =~= before.insert(at as int, path));
        assert(views(paths@).take(i + 1).drop_last() =~= views(paths@).take(i as int));
        assert(views(paths@).take(i + 1).last() == path);
        i = i + 1;
    }
    assert(views(paths@).take(i as int) =~= views(paths@));
    sorted
}

/// How a layer is taken out of the working tree.
#[derive(Debug)]
pub enum LayerRemoval {
    /// The whole mount goes, with whatever lies in it.
    Purge,
    /// The files go, then the directories in order, then the mount itself
    /// unless it is the repository root. Directories that are not empty stay.
    Files { directories: Vec<String>, root: bool },
}

/// Removes a layer from the configured ones. A layer with modified files is kept
/// unless the removal is forced.
pub fn remove(
    layers: &mut Vec<Layer>,
    layer_index: usize,
    target_path: &str,
    found: &LayerFiles,
    force: bool,
    purge: bool,
) -> (result: Result<(LayerRemoval, LoreLayerRemoveEventData), LayerError>)
    requires
        layer_index < old(layers)@.len(),
    ensures
        result is Ok <==> found.modified@.len() == 0 || force,
        result matches Err(e) ==> e.kind == ErrorKind::LocalModifications && final(layers)@ == old(
            layers,
        )@,
        result matches Ok(removed) ==> {
            let layer = old(layers)@[layer_index as int];
            let event = removed.1;
            &&& final(layers)@ == old(layers)@.remove(layer_index as int)
            &&& removed.0 is Purge <==> purge
            &&& removed.0 matches LayerRemoval::Files { directories, root } ==> {
                &&& views(directories@) == deepest_first(views(found.directories@))
                &&& root == (target_path@.len() > 0)
            }
            &&& event.target_path@ == target_path@
            &&& event.source_repository == layer.repository
            &&& event.source_path@ == layer.source_path@
            &&& event.revision == layer.current
            &&& event.forced == flag_of(force && found.modified@.len() > 0)
            &&& event.purged == flag_of(purge)
            &&& event.file_count == found.files@.len()
            &&& event.directory_count == found.directories@.len()
            &&& event.modified_count == found.modified@.len()
        },
{
    if found.modified.len() > 0 && !force {
        return Err(
            LayerError::of(
                ErrorKind::LocalModifications,
                "Layer has locally modified files",
            ),
        );
    }
    let removal = if purge {
        LayerRemoval::Purge
    } else {
        LayerRemoval::Files {
            directories: sort_deepest_first(&found.directories),
            root: !target_path.is_empty(),
        }
    };
    let layer = layers.remove(layer_index);
    let event = LoreLayerRemoveEventData {
        target_path: target_path.to_owned(),
        source_repository: layer.repository,
        source_path: layer.source_path.clone(),
        revision: layer.current,
        forced: flag(force && found.modified.len() > 0),
        purged: flag(purge),
        file_count: found.files.len() as u64,
        directory_count: found.directories.len() as u64,
        modified_count: found.modified.len() as u64,
    };
    Ok((removal, event))
}

// ---------------------------------------------------------------------------
// Staged layers
// ---------------------------------------------------------------------------

/// Information about a layer with staged changes, including the count of files
/// modified since the layer's `current` revision.
#[derive(Debug)]
pub struct StagedLayerInfo {
    pub target_path: String,
    pub repository: RepositoryId,
    pub staged_file_count: u64,
}

/// The entry of a layer in the list of staged layers. A layer without staged
/// files is not listed.
pub fn list_staged(layer: &Layer, staged_file_count: u64) -> (listed: Option<
    (StagedLayerInfo, LoreLayerStagedEntryEventData),
>)
    ensures
        listed is Some <==> layer.spec_has_staged() && staged_file_count > 0,
        listed matches Some(entry) ==> {
            &&& entry.0.target_path@ == layer.target_path@
            &&& entry.0.repository == layer.repository
            &&& entry.0.staged_file_count == staged_file_count
            &&& entry.1.target_path@ == layer.target_path@
            &&& entry.1.source_repository == layer.repository
            &&& entry.1.staged_file_count == staged_file_count
        },
{
    if !layer.has_staged() || staged_file_count == 0 {
        return None;
    }
    Some(
        (
            StagedLayerInfo {
                target_path: layer.target_path.clone(),
                repository: layer.repository,
                staged_file_count,
            },
            LoreLayerStagedEntryEventData {
                target_path: layer.target_path.clone(),
                source_repository: layer.repository,
                staged_file_count,
            },
        ),
    )
}

/// Number of staged files in a list of nodes and below its staged directories,
/// down to a number of levels.
pub open spec fn staged_files(nodes: Seq<Node>, ids: Seq<NodeID>, levels: nat) -> nat
    decreases levels, ids.len(),
{
    if ids.len() == 0 {
        0
    } else {
        let id = ids.last();
        let node = nodes[id as int];
        let before = staged_files(nodes, ids.drop_last(), levels);
        if !node.staged {
            before
        } else if node.kind == NodeKind::File {
            before + 1
        } else if node.kind == NodeKind::Directory && levels > 0 {
            before + staged_files(
                nodes,
                sound_siblings(nodes, id, node.child, nodes.len()),
                (levels - 1) as nat,
            )
        } else {
            before
        }
    }
}

/// Number of staged files below a node. What lies behind a broken link is not
/// counted.
pub open spec fn staged_files_below(nodes: Seq<Node>, id: NodeID) -> nat {
    staged_files(
        nodes,
        sound_siblings(nodes, id, nodes[id as int].child, nodes.len()),
        nodes.len(),
    )
}

proof fn lemma_staged_files_grow(nodes: Seq<Node>, ids: Seq<NodeID>, levels: nat, i: int)
    requires
        0 <= i <= ids.len(),
    ensures
        staged_files(nodes, ids.take(i), levels) <= staged_files(nodes, ids, levels),
    decreases ids.len(),
{
    if i == ids.len() {
        assert(ids.take(i) =~= ids);
    } else {
        lemma_staged_files_grow(nodes, ids.drop_last(), levels, i);
        assert(ids.drop_last().take(i) =~= ids.take(i));
    }
}

/// The staged files of two lists together are those of both.
pub proof fn law_staged_files_add_up(
    nodes: Seq<Node>,
    a: Seq<NodeID>,
    b: Seq<NodeID>,
    levels: nat,
)
    ensures
        staged_files(nodes, a + b, levels) == staged_files(nodes, a, levels) + staged_files(
            nodes,
            b,
            levels,
        ),
    decreases b.len(),
{
    if b.len() == 0 {
        assert(a + b =~= a);
    } else {
        assert((a + b).drop_last() =~= a + b.drop_last());
        law_staged_files_add_up(nodes, a, b.drop_last(), levels);
    }
}

proof fn lemma_more_levels_count_more(
    nodes: Seq<Node>,
    ids: Seq<NodeID>,
    levels: nat,
    more: nat,
)
    requires
        levels <= more,
    ensures
        staged_files(nodes, ids, levels) <= staged_files(nodes, ids, more),
    decreases levels, ids.len(),
{
    if ids.len() > 0 {
        let id = ids.last();
        lemma_more_levels_count_more(nodes, ids.drop_last(), levels, more);
        if levels > 0 {
            lemma_more_levels_count_more(
                nodes,
                sound_siblings(nodes, id, nodes[id as int].child, nodes.len()),
                (levels - 1) as nat,
                (more - 1) as nat,
            );
        }
    }
}

/// Staged files are counted as deep as the tree has nodes: no count over fewer levels
/// has more of them.
pub proof fn law_staged_files_are_counted_to_the_bottom(
    nodes: Seq<Node>,
    id: NodeID,
    levels: nat,
)
    requires
        levels <= nodes.len(),
        children(nodes, id) is Some,
    ensures
        staged_files(nodes, children(nodes, id)->0, levels) <= staged_files_below(nodes, id),
        staged_files_below(nodes, id) == staged_files(
            nodes,
            children(nodes, id)->0,
            nodes.len(),
        ),
{
    let ids = children(nodes, id)->0;
    crate::node::law_sound_chain_is_whole(nodes, id, nodes[id as int].child, nodes.len());
    lemma_more_levels_count_more(nodes, ids, levels, nodes.len());
}

/// A staged file counts once, a staged directory for what its children hold, and
/// anything that is not staged for nothing.
pub proof fn law_staged_node_counts(nodes: Seq<Node>, id: NodeID, levels: nat)
    ensures
        ({
            let node = nodes[id as int];
            let count = staged_files(nodes, seq![id], levels);
            &&& node.staged && node.kind == NodeKind::File ==> count == 1
            &&& node.staged && node.kind == NodeKind::Link ==> count == 0
            &&& !node.staged ==> count == 0
            &&& node.staged && node.kind == NodeKind::Directory && levels > 0 ==> (children(
                nodes,
                id,
            ) matches Some(ids) ==> count == staged_files(nodes, ids, (levels - 1) as nat))
        }),
{
    assert(seq![id].drop_last() =~= Seq::empty());
    assert(staged_files(nodes, Seq::empty(), levels) == 0);
    if children(nodes, id) is Some {
        crate::node::law_sound_chain_is_whole(nodes, id, nodes[id as int].child, nodes.len());
    }
}

proof fn lemma_sound_siblings_in_range(nodes: Seq<Node>, parent: NodeID, from: NodeID, limit: nat)
    ensures
        forall|i: int|
            0 <= i < sound_siblings(nodes, parent, from, limit).len()
                ==> #[trigger] sound_siblings(nodes, parent, from, limit)[i] < nodes.len(),
    decreases limit,
{
    let all = sound_siblings(nodes, parent, from, limit);
    if all.len() > 0 {
        let sibling = nodes[from as int].sibling;
        lemma_sound_siblings_in_range(nodes, parent, sibling, (limit - 1) as nat);
        let rest = sound_siblings(nodes, parent, sibling, (limit - 1) as nat);
        assert forall|i: int| 0 <= i < all.len() implies #[trigger] all[i] < nodes.len() by {
            if i > 0 {
                assert(all[i] == rest[i - 1]);
            }
        }
    }
}

fn count_staged(tree: &NodeTree, ids: &Vec<NodeID>, levels: usize) -> (count: u64)
    requires
        forall|i: int| 0 <= i < ids@.len() ==> (#[trigger] ids@[i]) < tree@.len(),
        staged_files(tree@, ids@, levels as nat) <= u64::MAX,
    ensures
        count == staged_files(tree@, ids@, levels as nat),
    decreases levels,
{
    let mut count: u64 = 0;
    let mut i: usize = 0;
    assert(ids@.take(0) =~= Seq::empty());
    while i < ids.len()
        invariant
            i <= ids@.len(),
            forall|j: int| 0 <= j < ids@.len() ==> (#[trigger] ids@[j]) < tree@.len(),
            staged_files(tree@, ids@, levels as nat) <= u64::MAX,
            count == staged_files(tree@, ids@.take(i as int), levels as nat),
        decreases ids@.len() - i,
    {
        let id = ids[i];
        let node = tree.nodes[id as usize];
        assert(ids@.take(i + 1).drop_last() =~= ids@.take(i as int));
        assert(ids@.take(i + 1).last() == id);
        proof {
            lemma_staged_files_grow(tree@, ids@, levels as nat, i + 1);
        }
        i = i + 1;
        if !node.staged {
            continue ;
        }
        if node.is_file() {
            count = count + 1;
        } else if node.is_directory() && levels > 0 {
            let (below, _) = tree.walk_children(id);
            proof {
                lemma_sound_siblings_in_range(tree@, id, node.child, tree@.len());
            }
            count = count + count_staged(tree, &below, levels - 1);
        }
    }
    assert(ids@.take(i as int) =~= ids@);
    count
}

/// Counts the staged files below a node.
pub fn count_staged_files(tree: &NodeTree, node_id: NodeID) -> (count: u64)
    requires
        node_id < tree@.len() ==> staged_files_below(tree@, node_id) <= u64::MAX,
    ensures
        count == if node_id < tree@.len() {
            staged_files_below(tree@, node_id)
        } else {
            0
        },
{
    if node_id as usize >= tree.nodes.len() {
        return 0;
    }
    let (ids, _) = tree.walk_children(node_id);
    proof {
        lemma_sound_siblings_in_range(tree@, node_id, tree@[node_id as int].child, tree@.len());
    }
    count_staged(tree, &ids, tree.nodes.len())
}

// ---------------------------------------------------------------------------
// Synchronizing a layer
// ---------------------------------------------------------------------------

/// The part of a layer that is compared for synchronization: its source path, or
/// everything. A layer whose place in the working tree differs from its source
/// path cannot be synchronized.
pub fn sync(target_path: &str, source_path: &str) -> (result: Result<Option<String>, LayerError>)
    ensures
        result is Ok <==> target_path@ == source_path@,
        result matches Ok(path) ==> {
            &&& path is Some <==> source_path@.len() > 0
            &&& path matches Some(p) ==> p@ == source_path@
        },
        result matches Err(e) ==> e.kind == ErrorKind::Internal && e.detail@ == "Not implemented"@,
{
    if !text_equal(target_path, source_path) {
        return Err(LayerError::of(ErrorKind::Internal, "Not implemented"));
    }
    if source_path.is_empty() {
        Ok(None)
    } else {
        Ok(Some(source_path.to_owned()))
    }
}

/// Tells whether changes are compared with the working tree before they are
/// made.
pub fn verifies_changes(change_count: usize, force: bool) -> (verify: bool)
    ensures
        verify == (change_count > 0 && !force),
{
    change_count > 0 && !force
}

/// The latest revision of a branch in a layer's repository: the remote one,
/// unless the local one has a higher number, or is the only one that exists or
/// can be read. Where there is no remote, the local one stands for it.
pub fn latest_revision(
    local_latest: ContentHash,
    remote_latest: Option<ContentHash>,
    local_number: Option<u64>,
    remote_number: Option<u64>,
) -> (result: Result<ContentHash, LayerError>)
    ensures
        ({
            let remote = match remote_latest {
                Some(latest) => latest,
                None => local_latest,
            };
            &&& result is Ok <==> !local_latest.is_zero() || !remote.is_zero()
            &&& result matches Ok(latest) ==> latest == if local_latest.is_zero() {
                remote
            } else if remote.is_zero() {
                local_latest
            } else if local_number is None {
                remote
            } else if remote_number is None || local_number->0 > remote_number->0 {
                local_latest
            } else {
                remote
            }
        }),
        result matches Err(e) ==> e.kind == ErrorKind::Internal && e.detail@
            == "Failed to find latest revision for layer branch"@,
{
    let remote = match remote_latest {
        Some(latest) => latest,
        None => local_latest,
    };
    if local_latest.is_zero() {
        if remote.is_zero() {
            return Err(
                LayerError::of(
                    ErrorKind::Internal,
                    "Failed to find latest revision for layer branch",
                ),
            );
        }
        return Ok(remote);
    } else if remote.is_zero() {
        return Ok(local_latest);
    }
    match local_number {
        None => Ok(remote),
        Some(local) => match remote_number {
            None => Ok(local_latest),
            Some(number) => if local > number {
                Ok(local_latest)
            } else {
                Ok(remote)
            },
        },
    }
}

/// A revision whose metadata may match, with its value once it is read.
#[derive(Debug)]
pub struct MatchCandidate {
    pub revision: ContentHash,
    pub value: Option<Vec<u8>>,
}

/// The value of a candidate was read.
pub open spec fn is_read(candidate: MatchCandidate) -> bool {
    candidate.value is Some
}

/// Two candidates were read and have the same value.
pub open spec fn same_value(a: MatchCandidate, b: MatchCandidate) -> bool {
    a.value is Some && b.value is Some && a.value->0@ == b.value->0@
}

/// No target up to a position matches a source, and all of them were read.
pub open spec fn mismatched_until(source: MatchCandidate, targets: Seq<MatchCandidate>, until: int) -> bool {
    until > 0 ==> is_read(source) && forall|j: int|
        0 <= j < until ==> is_read(#[trigger] targets[j]) && !same_value(source, targets[j])
}

/// A search for the revision of a layer that matches one of the outer
/// repository by a metadata value. Every source revision is compared with every
/// target revision, in order.
pub struct MatchSearch {
    sources: Vec<MatchCandidate>,
    targets: Vec<MatchCandidate>,
    /// Where the comparison stands.
    source: usize,
    target: usize,
    /// Number of target revisions loaded so far.
    searched: usize,
    limit: usize,
    nearest: bool,
}

/// What a search holds.
pub struct MatchSearchView {
    pub sources: Seq<MatchCandidate>,
    pub targets: Seq<MatchCandidate>,
    pub source: int,
    pub target: int,
    pub searched: int,
    pub limit: int,
    pub nearest: bool,
}

impl View for MatchSearch {
    type V = MatchSearchView;

    closed spec fn view(&self) -> MatchSearchView {
        MatchSearchView {
            sources: self.sources@,
            targets: self.targets@,
            source: self.source as int,
            target: self.target as int,
            searched: self.searched as int,
            limit: self.limit as int,
            nearest: self.nearest,
        }
    }
}

impl MatchSearchView {
    /// Everything before the position of the comparison was read and does not
    /// match.
    pub open spec fn well_formed(self) -> bool {
        &&& 0 <= self.source <= self.sources.len()
        &&& 0 <= self.target <= self.targets.len()
        &&& self.source == self.sources.len() ==> self.target == 0
        &&& forall|i: int|
            0 <= i < self.source ==> is_read(#[trigger] self.sources[i]) && mismatched_until(
                self.sources[i],
                self.targets,
                self.targets.len() as int,
            )
        &&& self.source < self.sources.len() ==> mismatched_until(
            self.sources[self.source],
            self.targets,
            self.target,
        )
    }

    /// The search with the same candidates and bounds.
    pub open spec fn same_candidates(self, other: MatchSearchView) -> bool {
        &&& self.sources == other.sources
        &&& self.targets == other.targets
        &&& self.searched == other.searched
        &&& self.limit == other.limit
        &&& self.nearest == other.nearest
    }
}

/// What a search needs next.
#[derive(Clone, Copy, Debug)]
pub enum MatchStep {
    /// The value of the source revision at a position.
    ReadSource(usize),
    /// The value of the target revision at a position.
    ReadTarget(usize),
    /// The search is over.
    Found { target: ContentHash, source: ContentHash },
    /// More history: before this source revision if given, and before this
    /// target revision. Either is zero where the search has none.
    LoadMore { before_source: Option<ContentHash>, before_target: ContentHash },
    /// As many revisions were searched as allowed.
    Exhausted,
}

/// Candidates that were not read yet.
pub open spec fn are_unread(candidates: Seq<MatchCandidate>, revisions: Seq<ContentHash>) -> bool {
    &&& candidates.len() == revisions.len()
    &&& forall|i: int|
        0 <= i < candidates.len() ==> (#[trigger] candidates[i]).revision == revisions[i]
            && candidates[i].value is None
}

fn unread(revisions: &Vec<ContentHash>) -> (candidates: Vec<MatchCandidate>)
    ensures
        are_unread(candidates@, revisions@),
{
    let mut candidates: Vec<MatchCandidate> = Vec::new();
    let mut i: usize = 0;
    while i < revisions.len()
        invariant
            i <= revisions@.len(),
            are_unread(candidates@, revisions@.take(i as int)),
        decreases revisions@.len() - i,
    {
        candidates.push(MatchCandidate { revision: revisions[i], value: None });
        i = i + 1;
        assert(are_unread(candidates@, revisions@.take(i as int)));
    }
    assert(revisions@.take(i as int) =~= revisions@);
    candidates
}

/// The last revision of a list of candidates, or zero.
pub open spec fn is_last_revision(revision: ContentHash, candidates: Seq<MatchCandidate>) -> bool {
    if candidates.len() == 0 {
        revision.is_zero()
    } else {
        revision == candidates.last().revision
    }
}

fn last_revision(candidates: &Vec<MatchCandidate>) -> (revision: ContentHash)
    ensures
        is_last_revision(revision, candidates@),
{
    if candidates.len() == 0 {
        ContentHash::default()
    } else {
        candidates[candidates.len() - 1].revision
    }
}

/// The start of a search: there is nothing to search for where a layer is not
/// linked by metadata, and the latest revision is taken.
pub fn find_revision_match(
    metadata: Option<&str>,
    latest: ContentHash,
    revision: ContentHash,
) -> (found: Option<(ContentHash, ContentHash)>)
    ensures
        found is Some <==> metadata is None,
        found matches Some(pair) ==> pair.0 == latest && pair.1 == revision,
{
    match metadata {
        None => Some((latest, revision)),
        Some(_) => None,
    }
}

impl MatchSearch {
    /// Starts a search. The source revisions are the history that was loaded, or
    /// the revision itself where there is none.
    pub fn new(
        revision: ContentHash,
        source_history: &Vec<ContentHash>,
        target_history: &Vec<ContentHash>,
        limit: usize,
        nearest: bool,
    ) -> (search: MatchSearch)
        ensures
            search@.well_formed(),
            search@.source == 0,
            search@.target == 0,
            are_unread(
                search@.sources,
                if source_history@.len() == 0 {
                    seq![revision]
                } else {
                    source_history@
                },
            ),
            are_unread(search@.targets, target_history@),
            search@.searched == target_history@.len(),
            search@.limit == limit,
            search@.nearest == nearest,
    {
        let mut sources = unread(source_history);
        if sources.len() == 0 {
            sources.push(MatchCandidate { revision, value: None });
        }
        let targets = unread(target_history);
        let searched = targets.len();
        MatchSearch { sources, targets, source: 0, target: 0, searched, limit, nearest }
    }

    /// Compares until a value is missing, a match is found, or everything was
    /// compared.
    pub fn step(&mut self) -> (step: MatchStep)
        requires
            old(self)@.well_formed(),
        ensures
            final(self)@.well_formed(),
            final(self)@.same_candidates(old(self)@),
            ({
                let view = final(self)@;
                match step {
                    MatchStep::ReadSource(i) => {
                        &&& i == view.source
                        &&& i < view.sources.len()
                        &&& !is_read(view.sources[i as int])
                    },
                    MatchStep::ReadTarget(j) => {
                        &&& j == view.target
                        &&& view.source < view.sources.len()
                        &&& j < view.targets.len()
                        &&& !is_read(view.targets[j as int])
                    },
                    MatchStep::Found { target, source } => {
                        &&& view.source < view.sources.len()
                        &&& view.target < view.targets.len()
                        &&& same_value(view.sources[view.source], view.targets[view.target])
                        &&& target == view.targets[view.target].revision
                        &&& source == view.sources[view.source].revision
                    },
                    MatchStep::LoadMore { before_source, before_target } => {
                        &&& view.source == view.sources.len()
                        &&& view.searched < view.limit
                        &&& before_source is Some <==> view.nearest
                        &&& before_source matches Some(last) ==> is_last_revision(
                            last,
                            view.sources,
                        )
                        &&& is_last_revision(before_target, view.targets)
                    },
                    MatchStep::Exhausted => view.source == view.sources.len() && view.searched
                        >= view.limit,
                }
            }),
    {
        loop
            invariant
                self@.well_formed(),
                self@.same_candidates(old(self)@),
            decreases self.sources@.len() - self.source, self.targets@.len() - self.target,
        {
            if self.source == self.sources.len() {
                if self.searched >= self.limit {
                    return MatchStep::Exhausted;
                }
                let before_source = if self.nearest {
                    Some(last_revision(&self.sources))
                } else {
                    None
                };
                return MatchStep::LoadMore {
                    before_source,
                    before_target: last_revision(&self.targets),
                };
            }
            match &self.sources[self.source].value {
                None => {
                    return MatchStep::ReadSource(self.source);
                },
                Some(source_value) => {
                    if self.target == self.targets.len() {
                        self.source = self.source + 1;
                        self.target = 0;
                        continue ;
                    }
                    match &self.targets[self.target].value {
                        None => {
                            return MatchStep::ReadTarget(self.target);
                        },
                        Some(target_value) => {
                            if bytes_equal(target_value.as_slice(), source_value.as_slice()) {
                                return MatchStep::Found {
                                    target: self.targets[self.target].revision,
                                    source: self.sources[self.source].revision,
                                };
                            }
                        },
                    }
                },
            }
            self.target = self.target + 1;
        }
    }

    /// Takes the value of the source revision that was asked for.
    pub fn read_source(&mut self, value: Vec<u8>)
        requires
            old(self)@.well_formed(),
            old(self)@.source < old(self)@.sources.len(),
            !is_read(old(self)@.sources[old(self)@.source]),
        ensures
            final(self)@.well_formed(),
            final(self)@ == (MatchSearchView {
                sources: old(self)@.sources.update(
                    old(self)@.source,
                    MatchCandidate {
                        revision: old(self)@.sources[old(self)@.source].revision,
                        value: Some(value),
                    },
                ),
                ..old(self)@
            }),
    {
        let i = self.source;
        let revision = self.sources[i].revision;
        self.sources.set(i, MatchCandidate { revision, value: Some(value) });
    }

    /// Takes the value of the target revision that was asked for.
    pub fn read_target(&mut self, value: Vec<u8>)
        requires
            old(self)@.well_formed(),
            old(self)@.source < old(self)@.sources.len(),
            old(self)@.target < old(self)@.targets.len(),
            !is_read(old(self)@.targets[old(self)@.target]),
        ensures
            final(self)@.well_formed(),
            final(self)@ == (MatchSearchView {
                targets: old(self)@.targets.update(
                    old(self)@.target,
                    MatchCandidate {
                        revision: old(self)@.targets[old(self)@.target].revision,
                        value: Some(value),
                    },
                ),
                ..old(self)@
            }),
    {
        let j = self.target;
        let revision = self.targets[j].revision;
        proof {
            if self.source > 0 {
                assert(is_read(self@.sources[0]));
                assert(mismatched_until(
                    self@.sources[0],
                    self@.targets,
                    self@.targets.len() as int,
                ));
                assert(is_read(self@.targets[j as int]));
            }
        }
        self.targets.set(j, MatchCandidate { revision, value: Some(value) });
    }

    /// Takes more history and starts over. The targets that were compared with
    /// the one source are dropped; with several sources they are kept.
    pub fn load_more(
        &mut self,
        source_history: &Vec<ContentHash>,
        target_history: &Vec<ContentHash>,
    )
        requires
            old(self)@.well_formed(),
            old(self)@.searched + target_history@.len() <= usize::MAX,
        ensures
            final(self)@.well_formed(),
            final(self)@.source == 0,
            final(self)@.target == 0,
            final(self)@.limit == old(self)@.limit,
            final(self)@.nearest == old(self)@.nearest,
            final(self)@.searched == old(self)@.searched + target_history@.len(),
            exists|more: Seq<MatchCandidate>|
                are_unread(more, source_history@) && final(self)@.sources == if old(
                    self,
                )@.nearest {
                    old(self)@.sources + more
                } else {
                    old(self)@.sources
                },
            exists|more: Seq<MatchCandidate>|
                are_unread(more, target_history@) && final(self)@.targets == if final(self)@.sources.len() > 1 {
                    old(self)@.targets + more
                } else {
                    more
                },
    {
        let mut more_sources = unread(source_history);
        let ghost added_sources = more_sources@;
        assert(are_unread(added_sources, source_history@));
        if self.nearest {
            self.sources.append(&mut more_sources);
        }
        let mut more = unread(target_history);
        let ghost added_targets = more@;
        assert(are_unread(added_targets, target_history@));
        self.searched = self.searched + more.len();
        if self.sources.len() > 1 {
            self.targets.append(&mut more);
        } else {
            self.targets = more;
        }
        self.source = 0;
        self.target = 0;
    }
}

/// A match is the first one: no earlier source revision matches any target, and
/// no earlier target matches the source.
pub proof fn law_match_is_the_first(search: MatchSearchView)
    requires
        search.well_formed(),
        search.source < search.sources.len(),
        search.target < search.targets.len(),
    ensures
        forall|i: int, j: int|
            #![trigger search.sources[i], search.targets[j]]
            0 <= i < search.sources.len() && 0 <= j < search.targets.len() && (i < search.source
                || (i == search.source && j < search.target)) ==> !same_value(
                search.sources[i],
                search.targets[j],
            ),
{
    assert forall|i: int, j: int|
        #![trigger search.sources[i], search.targets[j]]
        0 <= i < search.sources.len() && 0 <= j < search.targets.len() && (i < search.source || (i
            == search.source && j < search.target)) implies !same_value(
        search.sources[i],
        search.targets[j],
    ) by {
        if i < search.source {
            assert(mismatched_until(
                search.sources[i],
                search.targets,
                search.targets.len() as int,
            ));
        }
    }
}

/// A search that compared everything has no match at all.
pub proof fn law_exhausted_search_has_no_match(search: MatchSearchView)
    requires
        search.well_formed(),
        search.source == search.sources.len(),
    ensures
        forall|i: int, j: int|
            #![trigger search.sources[i], search.targets[j]]
            0 <= i < search.sources.len() && 0 <= j < search.targets.len() ==> !same_value(
                search.sources[i],
                search.targets[j],
            ),
{
    assert forall|i: int, j: int|
        #![trigger search.sources[i], search.targets[j]]
        0 <= i < search.sources.len() && 0 <= j < search.targets.len() implies !same_value(
        search.sources[i],
        search.targets[j],
    ) by {
        assert(mismatched_until(search.sources[i], search.targets, search.targets.len() as int));
    }
}

/// The failure of a search that found nothing.
pub fn match_exhausted() -> (error: LayerError)
    ensures
        error.kind == ErrorKind::Internal,
        error.detail@ == "Failed to find matching revision for link metadata"@,
{
    LayerError::of(ErrorKind::Internal, "Failed to find matching revision for link metadata")
}

} // verus!
