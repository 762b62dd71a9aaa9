//! Switching the branch of a layer, step by step.

use vstd::prelude::*;
use vstd::string::*;

use crate::errors::ErrorKind;
use crate::layer::is_first_at_its_place;
use crate::layer::law_update_changes_one_layer;
use crate::layer::law_update_keeps_other_places;
use crate::layer::law_updates_keep_layers;
use crate::layer::store_layer_current_batch;
use crate::layer::update_views;
use crate::layer::with_updates;
use crate::layer::Layer;
use crate::layer::LayerUpdate;
use crate::layer::UpdateView;
use crate::repository::switch::check_layer_staged;
use crate::repository::switch::layer_branch;
use crate::repository::switch::layer_created;
use crate::repository::switch::layer_target;
use crate::repository::switch::LayerBranch;
use crate::repository::switch::LayerCreate;
use crate::repository::switch::LayerCreated;
use crate::repository::switch::LAST_NAME;
use crate::repository::RepositoryError;
use crate::types::BranchId;
use crate::types::ContentHash;

verus! {

/// Why the switch of a layer failed.
#[derive(Clone, Copy, Debug, PartialEq, Eq, Structural)]
pub enum LayerSwitchFailure {
    /// The layer has staged changes, and the switch is not forced.
    Staged,
    /// The layer could not be changed.
    Layer(ErrorKind),
    /// The state of the layer could not be read.
    State(ErrorKind),
    /// The metadata of its branch could not be read.
    Metadata(ErrorKind),
    /// No name could be found for the branch.
    Names,
}

/// What the switch of a layer needs next.
#[derive(Clone, Copy, Debug)]
pub enum LayerSwitch {
    /// Take back what is staged in the layer.
    ClearStaged,
    /// Tell whether the layer has the branch.
    FindBranch,
    /// Tell the branch of the layer's current revision.
    ReadCurrent,
    /// Create the branch under its own name.
    Create,
    /// Create the branch under a name made for the layer, by its number.
    CreateAs(u32),
    /// Tell the latest revision of the branch.
    FindLatest,
    /// Find the revision with the same metadata, from the latest on.
    FindMatch(ContentHash),
    /// Bring the files of the layer to a revision.
    Sync(ContentHash),
    /// The layer is switched, to another revision if there is one.
    Done(Option<ContentHash>),
    Failed(LayerSwitchFailure),
}

/// What came of a step.
#[derive(Clone, Copy, Debug)]
pub enum LayerReply {
    Cleared,
    Exists(bool),
    CurrentBranch(BranchId),
    Created(LayerCreate),
    Latest(Option<ContentHash>),
    Matched(Option<ContentHash>),
    Synced(bool),
    /// The layer or its state could not be read or written.
    Failed(ErrorKind),
    /// The metadata of the branch could not be read.
    NoMetadata(ErrorKind),
    /// A path of the layer is none.
    NoPath(ErrorKind),
}

/// A switch goes on from a layer's latest revision on the branch.
pub open spec fn from_latest(layer: Layer, latest: Option<ContentHash>) -> LayerSwitch {
    if latest is Some && !latest->0.is_zero() && layer.metadata is Some {
        LayerSwitch::FindMatch(latest->0)
    } else {
        to_revision(
            layer,
            if latest is Some && !latest->0.is_zero() {
                latest->0
            } else {
                layer.current
            },
        )
    }
}

/// A switch goes on to a revision: files are brought there unless the layer is
/// there already.
pub open spec fn to_revision(layer: Layer, revision: ContentHash) -> LayerSwitch {
    if revision == layer.current {
        LayerSwitch::Done(None)
    } else {
        LayerSwitch::Sync(revision)
    }
}

/// A switch goes on once it was tried to create the branch under a numbered name.
pub open spec fn after_name(number: u32, outcome: LayerCreate) -> LayerSwitch {
    match outcome {
        LayerCreate::Created => LayerSwitch::FindLatest,
        LayerCreate::NameTaken(_) => if number < LAST_NAME {
            LayerSwitch::CreateAs((number + 1) as u32)
        } else {
            LayerSwitch::Failed(LayerSwitchFailure::Names)
        },
        LayerCreate::Failed => LayerSwitch::Failed(LayerSwitchFailure::Names),
    }
}

/// A switch goes on once it was tried to create the branch under its own name: a
/// name that stands for another branch is replaced, and a layer in which the
/// branch cannot be created is left alone.
pub open spec fn after_create(outcome: LayerCreate, branch: BranchId) -> LayerSwitch {
    match outcome {
        LayerCreate::Created => LayerSwitch::FindLatest,
        LayerCreate::NameTaken(owner) => match owner {
            None => LayerSwitch::Failed(LayerSwitchFailure::Names),
            Some(id) => if id == branch {
                LayerSwitch::FindLatest
            } else {
                LayerSwitch::CreateAs(1)
            },
        },
        LayerCreate::Failed => LayerSwitch::Done(None),
    }
}

/// The step after a reply. A reply that does not answer the step changes nothing.
pub open spec fn after_reply(
    step: LayerSwitch,
    reply: LayerReply,
    layer: Layer,
    branch: BranchId,
) -> LayerSwitch {
    match (step, reply) {
        (LayerSwitch::ClearStaged, LayerReply::Cleared) => LayerSwitch::FindBranch,
        (LayerSwitch::ClearStaged, LayerReply::Failed(kind)) => LayerSwitch::Failed(
            LayerSwitchFailure::Layer(kind),
        ),
        (LayerSwitch::FindBranch, LayerReply::Exists(exists)) => if exists {
            LayerSwitch::FindLatest
        } else {
            LayerSwitch::ReadCurrent
        },
        (LayerSwitch::ReadCurrent, LayerReply::CurrentBranch(current)) => if current == branch {
            LayerSwitch::Done(None)
        } else {
            LayerSwitch::Create
        },
        (LayerSwitch::ReadCurrent, LayerReply::Failed(kind)) => LayerSwitch::Failed(
            LayerSwitchFailure::State(kind),
        ),
        (LayerSwitch::Create, LayerReply::Created(outcome)) => after_create(outcome, branch),
        (LayerSwitch::Create, LayerReply::NoMetadata(kind)) => LayerSwitch::Failed(
            LayerSwitchFailure::Metadata(kind),
        ),
        (LayerSwitch::CreateAs(number), LayerReply::Created(outcome)) => after_name(
            number,
            outcome,
        ),
        (LayerSwitch::FindLatest, LayerReply::Latest(latest)) => from_latest(layer, latest),
        (LayerSwitch::FindMatch(latest), LayerReply::Matched(matched)) => to_revision(
            layer,
            match matched {
                Some(revision) => revision,
                None => latest,
            },
        ),
        (LayerSwitch::FindMatch(_), LayerReply::Failed(kind)) => LayerSwitch::Failed(
            LayerSwitchFailure::State(kind),
        ),
        (LayerSwitch::Sync(revision), LayerReply::Synced(synced)) => if synced {
            LayerSwitch::Done(Some(revision))
        } else {
            LayerSwitch::Done(None)
        },
        (LayerSwitch::Sync(_), LayerReply::Failed(kind)) => LayerSwitch::Failed(
            LayerSwitchFailure::State(kind),
        ),
        (LayerSwitch::Sync(_), LayerReply::NoPath(kind)) => LayerSwitch::Failed(
            LayerSwitchFailure::Layer(kind),
        ),
        _ => step,
    }
}

/// The first step of the switch of a layer.
pub open spec fn first_step(layer: Layer, force: bool) -> LayerSwitch {
    if !layer.spec_has_staged() {
        LayerSwitch::FindBranch
    } else if force {
        LayerSwitch::ClearStaged
    } else {
        LayerSwitch::Failed(LayerSwitchFailure::Staged)
    }
}

/// Starts the switch of a layer. Staged changes keep it from being switched unless
/// it is forced, and then are taken back.
pub fn start_layer_switch(layer: &Layer, force: bool) -> (step: LayerSwitch)
    ensures
        step == first_step(*layer, force),
{
    match check_layer_staged(layer, force) {
        Ok(clear) => if clear {
            LayerSwitch::ClearStaged
        } else {
            LayerSwitch::FindBranch
        },
        Err(_) => LayerSwitch::Failed(LayerSwitchFailure::Staged),
    }
}

fn go_to_revision(layer: &Layer, revision: ContentHash) -> (step: LayerSwitch)
    ensures
        step == to_revision(*layer, revision),
{
    if revision == layer.current {
        LayerSwitch::Done(None)
    } else {
        LayerSwitch::Sync(revision)
    }
}

fn create_outcome(outcome: LayerCreate, branch: BranchId) -> (step: LayerSwitch)
    ensures
        step == after_create(outcome, branch),
{
    match layer_created(outcome, branch) {
        Ok(LayerCreated::Resolve) => LayerSwitch::FindLatest,
        Ok(LayerCreated::Rename) => LayerSwitch::CreateAs(1),
        Ok(LayerCreated::Skip) => LayerSwitch::Done(None),
        Err(_) => LayerSwitch::Failed(LayerSwitchFailure::Names),
    }
}

fn name_outcome(number: u32, outcome: LayerCreate) -> (step: LayerSwitch)
    ensures
        step == after_name(number, outcome),
{
    match outcome {
        LayerCreate::Created => LayerSwitch::FindLatest,
        LayerCreate::NameTaken(_) => if number < LAST_NAME {
            LayerSwitch::CreateAs(number + 1)
        } else {
            LayerSwitch::Failed(LayerSwitchFailure::Names)
        },
        LayerCreate::Failed => LayerSwitch::Failed(LayerSwitchFailure::Names),
    }
}

/// The step after a reply.
pub fn layer_switch(step: LayerSwitch, reply: LayerReply, layer: &Layer, branch: BranchId) -> (next:
    LayerSwitch)
    ensures
        next == after_reply(step, reply, *layer, branch),
{
    match (step, reply) {
        (LayerSwitch::ClearStaged, LayerReply::Cleared) => LayerSwitch::FindBranch,
        (LayerSwitch::ClearStaged, LayerReply::Failed(kind)) => LayerSwitch::Failed(
            LayerSwitchFailure::Layer(kind),
        ),
        (LayerSwitch::FindBranch, LayerReply::Exists(exists)) => if exists {
            LayerSwitch::FindLatest
        } else {
            LayerSwitch::ReadCurrent
        },
        (LayerSwitch::ReadCurrent, LayerReply::CurrentBranch(current)) => match layer_branch(
            false,
            current,
            branch,
        ) {
            LayerBranch::AlreadyOn => LayerSwitch::Done(None),
            _ => LayerSwitch::Create,
        },
        (LayerSwitch::ReadCurrent, LayerReply::Failed(kind)) => LayerSwitch::Failed(
            LayerSwitchFailure::State(kind),
        ),
        (LayerSwitch::Create, LayerReply::Created(outcome)) => create_outcome(outcome, branch),
        (LayerSwitch::Create, LayerReply::NoMetadata(kind)) => LayerSwitch::Failed(
            LayerSwitchFailure::Metadata(kind),
        ),
        (LayerSwitch::CreateAs(number), LayerReply::Created(outcome)) => name_outcome(
            number,
            outcome,
        ),
        (LayerSwitch::FindLatest, LayerReply::Latest(latest)) => {
            match latest {
                Some(revision) => {
                    if !revision.is_zero() && layer.metadata.is_some() {
                        LayerSwitch::FindMatch(revision)
                    } else {
                        go_to_revision(layer, layer_target(layer, latest, None))
                    }
                },
                None => go_to_revision(layer, layer.current),
            }
        },
        (LayerSwitch::FindMatch(latest), LayerReply::Matched(matched)) => match matched {
            Some(revision) => go_to_revision(layer, revision),
            None => go_to_revision(layer, latest),
        },
        (LayerSwitch::FindMatch(_), LayerReply::Failed(kind)) => LayerSwitch::Failed(
            LayerSwitchFailure::State(kind),
        ),
        (LayerSwitch::Sync(revision), LayerReply::Synced(synced)) => if synced {
            LayerSwitch::Done(Some(revision))
        } else {
            LayerSwitch::Done(None)
        },
        (LayerSwitch::Sync(_), LayerReply::Failed(kind)) => LayerSwitch::Failed(
            LayerSwitchFailure::State(kind),
        ),
        (LayerSwitch::Sync(_), LayerReply::NoPath(kind)) => LayerSwitch::Failed(
            LayerSwitchFailure::Layer(kind),
        ),
        _ => step,
    }
}

/// The error that a failed switch ends with.
pub open spec fn failure_of(failure: LayerSwitchFailure) -> (ErrorKind, Seq<char>) {
    match failure {
        LayerSwitchFailure::Staged => (
            ErrorKind::Internal,
            "Layer has uncommitted staged changes, commit or use --force"@,
        ),
        LayerSwitchFailure::Layer(kind) => (kind, "Failed to switch branch in layer"@),
        LayerSwitchFailure::State(kind) => (kind, "Failed to deserialize repository state"@),
        LayerSwitchFailure::Metadata(kind) => (kind, "Failed to load branch metadata"@),
        LayerSwitchFailure::Names => (ErrorKind::Internal, "Failed to switch branch in layer"@),
    }
}

/// The error that a failed switch ends with.
pub fn layer_switch_error(failure: LayerSwitchFailure) -> (error: RepositoryError)
    ensures
        (error.kind, error.detail@) == failure_of(failure),
{
    match failure {
        LayerSwitchFailure::Staged => RepositoryError {
            kind: ErrorKind::Internal,
            detail: "Layer has uncommitted staged changes, commit or use --force".to_owned(),
        },
        LayerSwitchFailure::Layer(kind) => RepositoryError {
            kind,
            detail: "Failed to switch branch in layer".to_owned(),
        },
        LayerSwitchFailure::State(kind) => RepositoryError {
            kind,
            detail: "Failed to deserialize repository state".to_owned(),
        },
        LayerSwitchFailure::Metadata(kind) => RepositoryError {
            kind,
            detail: "Failed to load branch metadata".to_owned(),
        },
        LayerSwitchFailure::Names => RepositoryError {
            kind: ErrorKind::Internal,
            detail: "Failed to switch branch in layer".to_owned(),
        },
    }
}

/// How many steps may still follow.
pub open spec fn steps_left(step: LayerSwitch) -> nat {
    match step {
        LayerSwitch::ClearStaged => 20,
        LayerSwitch::FindBranch => 19,
        LayerSwitch::ReadCurrent => 18,
        LayerSwitch::Create => 17,
        LayerSwitch::CreateAs(number) => if number <= LAST_NAME {
            (13 - number) as nat
        } else {
            4
        },
        LayerSwitch::FindLatest => 3,
        LayerSwitch::FindMatch(_) => 2,
        LayerSwitch::Sync(_) => 1,
        _ => 0,
    }
}

/// A reply that answers a step.
pub open spec fn answers(step: LayerSwitch, reply: LayerReply) -> bool {
    match step {
        LayerSwitch::ClearStaged => reply is Cleared || reply is Failed,
        LayerSwitch::FindBranch => reply is Exists,
        LayerSwitch::ReadCurrent => reply is CurrentBranch || reply is Failed,
        LayerSwitch::Create => reply is Created || reply is NoMetadata,
        LayerSwitch::CreateAs(_) => reply is Created,
        LayerSwitch::FindLatest => reply is Latest,
        LayerSwitch::FindMatch(_) => reply is Matched || reply is Failed,
        LayerSwitch::Sync(_) => reply is Synced || reply is Failed || reply is NoPath,
        _ => false,
    }
}

/// The switch of a layer ends: every answer brings it closer to its end.
pub proof fn law_layer_switch_ends(
    step: LayerSwitch,
    reply: LayerReply,
    layer: Layer,
    branch: BranchId,
)
    requires
        answers(step, reply),
    ensures
        steps_left(after_reply(step, reply, layer, branch)) < steps_left(step),
{
}

/// A layer whose files could not be brought to another revision stays where it
/// is, and one that is switched to another revision had its files brought there.
pub proof fn law_layer_moves_with_its_files(
    step: LayerSwitch,
    reply: LayerReply,
    layer: Layer,
    branch: BranchId,
    revision: ContentHash,
)
    requires
        answers(step, reply),
        after_reply(step, reply, layer, branch) == LayerSwitch::Done(Some(revision)),
    ensures
        step == LayerSwitch::Sync(revision),
        reply == LayerReply::Synced(true),
{
}

/// Files are only brought to a revision that the layer is not at.
pub proof fn law_layer_sync_is_needed(
    step: LayerSwitch,
    reply: LayerReply,
    layer: Layer,
    branch: BranchId,
    revision: ContentHash,
)
    requires
        answers(step, reply),
        after_reply(step, reply, layer, branch) == LayerSwitch::Sync(revision),
    ensures
        revision != layer.current,
{
}

/// What the repository of a layer answers, where nothing fails.
pub struct LayerAnswers {
    /// The layer has the branch.
    pub has_branch: bool,
    /// The branch of the layer's current revision.
    pub current_branch: BranchId,
    /// What comes of creating the branch under its own name.
    pub created: LayerCreate,
    /// What comes of creating the branch under a numbered name.
    pub named: spec_fn(u32) -> LayerCreate,
    pub latest: Option<ContentHash>,
    pub matched: Option<ContentHash>,
    /// The files can be brought to another revision.
    pub synced: bool,
}

impl LayerAnswers {
    /// The answer to a step.
    pub open spec fn reply(self, step: LayerSwitch) -> LayerReply {
        match step {
            LayerSwitch::FindBranch => LayerReply::Exists(self.has_branch),
            LayerSwitch::ReadCurrent => LayerReply::CurrentBranch(self.current_branch),
            LayerSwitch::Create => LayerReply::Created(self.created),
            LayerSwitch::CreateAs(number) => LayerReply::Created((self.named)(number)),
            LayerSwitch::FindLatest => LayerReply::Latest(self.latest),
            LayerSwitch::FindMatch(_) => LayerReply::Matched(self.matched),
            LayerSwitch::Sync(_) => LayerReply::Synced(self.synced),
            _ => LayerReply::Cleared,
        }
    }
}

/// Where the switch of a layer ends, when every step is answered.
pub open spec fn switched(
    step: LayerSwitch,
    layer: Layer,
    branch: BranchId,
    world: LayerAnswers,
    limit: nat,
) -> LayerSwitch
    decreases limit,
{
    if limit == 0 || step is Done || step is Failed {
        step
    } else {
        switched(
            after_reply(step, world.reply(step), layer, branch),
            layer,
            branch,
            world,
            (limit - 1) as nat,
        )
    }
}

/// The revision that the branch has for a layer: the one that matches the metadata
/// where the layer is matched and there is one, and the latest otherwise.
pub open spec fn branch_revision(layer: Layer, world: LayerAnswers) -> ContentHash {
    match (layer.metadata, world.matched) {
        (Some(_), Some(revision)) => revision,
        _ => world.latest->0,
    }
}

/// A layer that has the branch is brought to the branch's revision, unless it is there
/// already or its files cannot be brought there; on a branch without revisions it
/// stays. Staged changes are taken back first where that is forced.
pub proof fn law_layer_goes_to_the_branch(
    layer: Layer,
    branch: BranchId,
    force: bool,
    world: LayerAnswers,
    limit: nat,
)
    requires
        world.has_branch,
        force || !layer.spec_has_staged(),
        limit >= 5,
    ensures
        ({
            let end = switched(first_step(layer, force), layer, branch, world, limit);
            let revision = branch_revision(layer, world);
            let known = world.latest is Some && !world.latest->0.is_zero();
            &&& known && revision != layer.current && world.synced ==> end == LayerSwitch::Done(
                Some(revision),
            )
            &&& !known || revision == layer.current || !world.synced ==> end == LayerSwitch::Done(
                None,
            )
        }),
{
    let first = first_step(layer, force);
    if first is ClearStaged {
        assert(switched(first, layer, branch, world, limit) == switched(
            LayerSwitch::FindBranch,
            layer,
            branch,
            world,
            (limit - 1) as nat,
        ));
        lemma_branch_is_found(layer, branch, world, (limit - 1) as nat);
    } else {
        lemma_branch_is_found(layer, branch, world, limit);
    }
}

proof fn lemma_branch_is_found(layer: Layer, branch: BranchId, world: LayerAnswers, limit: nat)
    requires
        world.has_branch,
        limit >= 4,
    ensures
        switched(LayerSwitch::FindBranch, layer, branch, world, limit) == switched(
            LayerSwitch::FindLatest,
            layer,
            branch,
            world,
            (limit - 1) as nat,
        ),
        ({
            let end = switched(LayerSwitch::FindBranch, layer, branch, world, limit);
            let revision = branch_revision(layer, world);
            let known = world.latest is Some && !world.latest->0.is_zero();
            &&& known && revision != layer.current && world.synced ==> end == LayerSwitch::Done(
                Some(revision),
            )
            &&& !known || revision == layer.current || !world.synced ==> end == LayerSwitch::Done(
                None,
            )
        }),
{
    lemma_latest_is_found(layer, branch, world, (limit - 1) as nat);
}

proof fn lemma_latest_is_found(layer: Layer, branch: BranchId, world: LayerAnswers, limit: nat)
    requires
        limit >= 3,
    ensures
        ({
            let end = switched(LayerSwitch::FindLatest, layer, branch, world, limit);
            let revision = branch_revision(layer, world);
            let known = world.latest is Some && !world.latest->0.is_zero();
            &&& known && revision != layer.current && world.synced ==> end == LayerSwitch::Done(
                Some(revision),
            )
            &&& !known || revision == layer.current || !world.synced ==> end == LayerSwitch::Done(
                None,
            )
        }),
{
    let known = world.latest is Some && !world.latest->0.is_zero();
    let end = switched(LayerSwitch::FindLatest, layer, branch, world, limit);
    let next = from_latest(layer, world.latest);
    assert(end == switched(next, layer, branch, world, (limit - 1) as nat));
    if known {
        let revision = branch_revision(layer, world);
        if let Some(_) = layer.metadata {
            assert(next == LayerSwitch::FindMatch(world.latest->0));
            let matched = after_reply(next, world.reply(next), layer, branch);
            assert(matched == to_revision(layer, revision));
            assert(end == switched(matched, layer, branch, world, (limit - 2) as nat));
            lemma_files_are_brought(layer, branch, world, revision, (limit - 2) as nat);
        } else {
            assert(next == to_revision(layer, revision));
            lemma_files_are_brought(layer, branch, world, revision, (limit - 1) as nat);
        }
    } else {
        lemma_files_are_brought(layer, branch, world, layer.current, (limit - 1) as nat);
        assert(end == LayerSwitch::Done(None));
    }
}

proof fn lemma_files_are_brought(
    layer: Layer,
    branch: BranchId,
    world: LayerAnswers,
    revision: ContentHash,
    limit: nat,
)
    requires
        limit >= 1,
    ensures
        switched(to_revision(layer, revision), layer, branch, world, limit) == if revision
            != layer.current && world.synced {
            LayerSwitch::Done(Some(revision))
        } else {
            LayerSwitch::Done(None)
        },
{
    reveal_with_fuel(switched, 2);
}

/// A layer that lacks the branch and is not on it has the branch created, under its
/// own name or, where that stands for another branch, under the first numbered name
/// that is free; from there it goes on as one that has the branch.
pub proof fn law_layer_branch_is_created(
    layer: Layer,
    branch: BranchId,
    world: LayerAnswers,
    number: u32,
    limit: nat,
)
    requires
        !world.has_branch,
        world.current_branch != branch,
        limit >= 15,
        ({
            ||| world.created is Created
            ||| world.created matches LayerCreate::NameTaken(owner) && owner == Some(branch)
            ||| {
                &&& world.created matches LayerCreate::NameTaken(owner) && owner is Some
                    && owner != Some(branch)
                &&& 1 <= number <= LAST_NAME
                &&& (world.named)(number) is Created
                &&& forall|n: u32| 1 <= n < number ==> (#[trigger] (world.named)(n)) is NameTaken
            }
        }),
    ensures
        switched(LayerSwitch::FindBranch, layer, branch, world, limit) == switched(
            LayerSwitch::FindBranch,
            layer,
            branch,
            (LayerAnswers { has_branch: true, ..world }),
            limit,
        ),
{
    let other = LayerAnswers { has_branch: true, ..world };
    lemma_branch_is_found(layer, branch, other, limit);
    let start = switched(LayerSwitch::FindBranch, layer, branch, world, limit);
    assert(start == switched(
        LayerSwitch::ReadCurrent,
        layer,
        branch,
        world,
        (limit - 1) as nat,
    ));
    assert(start == switched(LayerSwitch::Create, layer, branch, world, (limit - 2) as nat)) by {
        reveal_with_fuel(switched, 2);
    }
    let created = switched(LayerSwitch::Create, layer, branch, world, (limit - 2) as nat);
    if world.created is Created || world.created == LayerCreate::NameTaken(Some(branch)) {
        lemma_latest_is_found(layer, branch, world, (limit - 3) as nat);
        assert(created == switched(
            LayerSwitch::FindLatest,
            layer,
            branch,
            world,
            (limit - 3) as nat,
        ));
    } else {
        assert(created == switched(
            LayerSwitch::CreateAs(1),
            layer,
            branch,
            world,
            (limit - 3) as nat,
        ));
        lemma_name_is_found(layer, branch, world, 1, number, (limit - 3) as nat);
    }
}

proof fn lemma_name_is_found(
    layer: Layer,
    branch: BranchId,
    world: LayerAnswers,
    from: u32,
    number: u32,
    limit: nat,
)
    requires
        1 <= from <= number <= LAST_NAME,
        (world.named)(number) is Created,
        forall|n: u32| 1 <= n < number ==> (#[trigger] (world.named)(n)) is NameTaken,
        limit >= 4 + (number - from),
    ensures
        ({
            let end = switched(LayerSwitch::CreateAs(from), layer, branch, world, limit);
            let revision = branch_revision(layer, world);
            let known = world.latest is Some && !world.latest->0.is_zero();
            &&& known && revision != layer.current && world.synced ==> end == LayerSwitch::Done(
                Some(revision),
            )
            &&& !known || revision == layer.current || !world.synced ==> end == LayerSwitch::Done(
                None,
            )
        }),
    decreases number - from,
{
    if from == number {
        lemma_latest_is_found(layer, branch, world, (limit - 1) as nat);
    } else {
        assert((world.named)(from) is NameTaken);
        lemma_name_is_found(layer, branch, world, (from + 1) as u32, number, (limit - 1) as nat);
    }
}

/// A layer that is on the branch already, though its repository does not know the
/// branch, stays where it is; and staged changes keep a layer from being switched
/// unless that is forced.
pub proof fn law_layer_is_left_alone(
    layer: Layer,
    branch: BranchId,
    world: LayerAnswers,
    limit: nat,
)
    requires
        limit >= 2,
    ensures
        !world.has_branch && world.current_branch == branch ==> switched(
            LayerSwitch::FindBranch,
            layer,
            branch,
            world,
            limit,
        ) == LayerSwitch::Done(None),
        layer.spec_has_staged() ==> first_step(layer, false) == LayerSwitch::Failed(
            LayerSwitchFailure::Staged,
        ),
{
    reveal_with_fuel(switched, 3);
}

// ---------------------------------------------------------------------------
// All layers
// ---------------------------------------------------------------------------

/// The updates of layers that were switched to another revision, in order, or the
/// first failure.
pub open spec fn layer_changes(layers: Seq<Layer>, outcomes: Seq<LayerSwitch>) -> Result<
    Seq<UpdateView>,
    (ErrorKind, Seq<char>),
>
    decreases outcomes.len(),
{
    if outcomes.len() == 0 {
        Ok(Seq::empty())
    } else {
        let layer = layers[outcomes.len() - 1];
        match layer_changes(layers, outcomes.drop_last()) {
            Err(fault) => Err(fault),
            Ok(before) => match outcomes.last() {
                LayerSwitch::Failed(failure) => Err(failure_of(failure)),
                LayerSwitch::Done(Some(revision)) => Ok(
                    before.push((layer.repository, layer.target_path@, revision)),
                ),
                _ => Ok(before),
            },
        }
    }
}

proof fn lemma_failure_stays(layers: Seq<Layer>, outcomes: Seq<LayerSwitch>, count: int)
    requires
        0 <= count <= outcomes.len(),
        layer_changes(layers, outcomes.take(count)) is Err,
    ensures
        layer_changes(layers, outcomes) == layer_changes(layers, outcomes.take(count)),
    decreases outcomes.len(),
{
    if count == outcomes.len() {
        assert(outcomes.take(count) =~= outcomes);
    } else {
        assert(outcomes.drop_last().take(count) =~= outcomes.take(count));
        lemma_failure_stays(layers, outcomes.drop_last(), count);
    }
}

proof fn lemma_changes(layers: Seq<Layer>, outcomes: Seq<LayerSwitch>)
    ensures
        layer_changes(layers, outcomes) is Err <==> exists|i: int|
            0 <= i < outcomes.len() && (#[trigger] outcomes[i]) is Failed,
    decreases outcomes.len(),
{
    if outcomes.len() > 0 {
        let first = outcomes.drop_last();
        lemma_changes(layers, first);
        if layer_changes(layers, first) is Err {
            let i = choose|i: int| 0 <= i < first.len() && (#[trigger] first[i]) is Failed;
            assert(outcomes[i] is Failed);
        } else if exists|i: int| 0 <= i < outcomes.len() && (#[trigger] outcomes[i]) is Failed {
            let i = choose|i: int| 0 <= i < outcomes.len() && (#[trigger] outcomes[i]) is Failed;
            if i < first.len() {
                assert(first[i] is Failed);
            }
        }
    }
}

/// The updates to save once layers were switched, given how the switch of each
/// ended. There are none to save where one failed.
pub fn layer_updates(layers: &Vec<Layer>, outcomes: &Vec<LayerSwitch>) -> (result: Result<
    Vec<LayerUpdate>,
    RepositoryError,
>)
    requires
        outcomes@.len() <= layers@.len(),
    ensures
        result is Err <==> exists|i: int|
            0 <= i < outcomes@.len() && (#[trigger] outcomes@[i]) is Failed,
        ({
            let changes = layer_changes(layers@, outcomes@);
            &&& result is Ok <==> changes is Ok
            &&& result matches Ok(updates) ==> update_views(updates@) == changes->Ok_0
            &&& result matches Err(e) ==> (e.kind, e.detail@) == changes->Err_0
        }),
{
    proof {
        lemma_changes(layers@, outcomes@);
    }
    let mut updates: Vec<LayerUpdate> = Vec::new();
    let mut i: usize = 0;
    assert(outcomes@.take(0) =~= Seq::empty());
    assert(update_views(updates@) =~= Seq::empty());
    while i < outcomes.len()
        invariant
            i <= outcomes@.len() <= layers@.len(),
            layer_changes(layers@, outcomes@.take(i as int)) == Ok::<
                Seq<UpdateView>,
                (ErrorKind, Seq<char>),
            >(update_views(updates@)),
            layer_changes(layers@, outcomes@) is Err <==> exists|n: int|
                0 <= n < outcomes@.len() && (#[trigger] outcomes@[n]) is Failed,
        decreases outcomes@.len() - i,
    {
        let ghost before = updates@;
        proof {
            assert(outcomes@.take(i + 1).drop_last() =~= outcomes@.take(i as int));
            assert(outcomes@.take(i + 1).last() == outcomes@[i as int]);
        }
        match outcomes[i] {
            LayerSwitch::Failed(failure) => {
                proof {
                    assert(outcomes@[i as int] is Failed);
                    lemma_failure_stays(layers@, outcomes@, i + 1);
                }
                return Err(layer_switch_error(failure));
            },
            LayerSwitch::Done(Some(revision)) => {
                let layer = &layers[i];
                updates.push(
                    LayerUpdate {
                        repository: layer.repository,
                        target_path: layer.target_path.clone(),
                        current: revision,
                    },
                );
                assert(update_views(updates@) =~= update_views(before).push(
                    (layer.repository, layer.target_path@, revision),
                ));
            },
            _ => {},
        }
        i = i + 1;
    }
    assert(outcomes@.take(i as int) =~= outcomes@);
    Ok(updates)
}

/// Takes over into the saved layers where the layers were switched to, and tells
/// whether they are saved anew. Where a layer failed, all saved layers stay as they
/// are; without a layer that went to another revision, there is nothing to save.
pub fn layer_branch_switch(
    layers: &Vec<Layer>,
    outcomes: &Vec<LayerSwitch>,
    saved: &mut Vec<Layer>,
) -> (result: Result<bool, RepositoryError>)
    requires
        outcomes@.len() <= layers@.len(),
    ensures
        match layer_changes(layers@, outcomes@) {
            Ok(changes) => {
                &&& result matches Ok(save) && save == (changes.len() > 0)
                &&& final(saved)@ == with_updates(old(saved)@, changes)
            },
            Err(fault) => {
                &&& result matches Err(e) && (e.kind, e.detail@) == fault
                &&& *final(saved) == *old(saved)
            },
        },
{
    match layer_updates(layers, outcomes) {
        Ok(updates) => Ok(store_layer_current_batch(saved, &updates)),
        Err(error) => Err(error),
    }
}

/// A failed layer fails the switch of all layers: there is nothing to save.
pub proof fn law_failed_layer_saves_nothing(
    layers: Seq<Layer>,
    outcomes: Seq<LayerSwitch>,
    position: int,
)
    requires
        0 <= position < outcomes.len(),
        outcomes[position] is Failed,
    ensures
        layer_changes(layers, outcomes) is Err,
{
    lemma_changes(layers, outcomes);
}

/// A layer with staged changes fails the switch of all layers unless it is forced.
pub proof fn law_staged_layer_saves_nothing(
    layers: Seq<Layer>,
    outcomes: Seq<LayerSwitch>,
    position: int,
)
    requires
        0 <= position < outcomes.len(),
        layers[position].spec_has_staged(),
        outcomes[position] == first_step(layers[position], false),
    ensures
        layer_changes(layers, outcomes) is Err,
{
    lemma_changes(layers, outcomes);
}

/// Without layers there is nothing to save.
pub proof fn law_no_layers_save_nothing(layers: Seq<Layer>)
    ensures
        layer_changes(layers, Seq::empty()) == Ok::<Seq<UpdateView>, (ErrorKind, Seq<char>)>(
            Seq::empty(),
        ),
{
}

/// Layers of two lists are placed alike.
pub open spec fn same_places(a: Seq<Layer>, b: Seq<Layer>) -> bool {
    &&& a.len() == b.len()
    &&& forall|i: int|
        0 <= i < a.len() ==> (#[trigger] a[i]).repository == b[i].repository && a[i].target_path@
            == b[i].target_path@
}

/// The current revision that a layer has once it was switched.
pub open spec fn revision_after(layer: Layer, outcome: LayerSwitch) -> ContentHash {
    match outcome {
        LayerSwitch::Done(Some(revision)) => revision,
        _ => layer.current,
    }
}

/// No other layer of a list is of the same repository at the same path.
pub open spec fn is_alone(layers: Seq<Layer>, position: int) -> bool {
    forall|i: int|
        0 <= i < layers.len() && i != position ==> !(#[trigger] layers[i]).is_at(
            layers[position].repository,
            layers[position].target_path@,
        )
}

/// Where all layers were switched, the saved current revision of a layer that shares
/// its place with no other is the one that its files were brought to, and stays
/// where they were not brought to another.
pub proof fn law_saved_layers_are_where_they_were_switched(
    layers: Seq<Layer>,
    outcomes: Seq<LayerSwitch>,
    saved: Seq<Layer>,
    position: int,
)
    requires
        outcomes.len() <= layers.len(),
        same_places(saved, layers),
        is_alone(saved, position),
        layer_changes(layers, outcomes) is Ok,
        0 <= position < saved.len(),
    ensures
        with_updates(saved, layer_changes(layers, outcomes)->Ok_0)[position].current == if position
            < outcomes.len() {
            revision_after(saved[position], outcomes[position])
        } else {
            saved[position].current
        },
    decreases outcomes.len(),
{
    if outcomes.len() > 0 {
        let last = outcomes.len() - 1;
        let first = outcomes.drop_last();
        law_saved_layers_are_where_they_were_switched(layers, first, saved, position);
        let before = layer_changes(layers, first)->Ok_0;
        let after = with_updates(saved, before);
        law_updates_keep_layers(saved, before);
        if let LayerSwitch::Done(Some(revision)) = outcomes.last() {
            assert(after[last].target_path == saved[last].target_path);
            assert(after[last].repository == saved[last].repository);
            assert(saved[last].repository == layers[last].repository);
            if last == position {
                assert forall|i: int| 0 <= i < position implies !(#[trigger] after[i]).is_at(
                    after[position].repository,
                    after[position].target_path@,
                ) by {
                    assert(!saved[i].is_at(saved[position].repository, saved[position].target_path@));
                }
                assert(is_first_at_its_place(after, position));
                law_update_changes_one_layer(after, position, revision);
            } else {
                assert(!saved[last].is_at(
                    saved[position].repository,
                    saved[position].target_path@,
                ));
                law_update_keeps_other_places(
                    after,
                    layers[last].repository,
                    layers[last].target_path@,
                    revision,
                    position,
                );
            }
            let changes = layer_changes(layers, outcomes)->Ok_0;
            assert(changes.drop_last() =~= before);
        }
    }
}

} // verus!
