//! Switching a repository, and the layers over it, to another branch.

pub mod layers;

use vstd::prelude::*;
use vstd::string::*;

use crate::errors::ErrorKind;
use crate::hexadecimal::hex_text;
use crate::layer::Layer;
use crate::link::BranchPoint;
use crate::repository::RepositoryError;
use crate::text::chars_of;
use crate::text::decimal;
use crate::text::decimal_digits;
use crate::text::law_decimal_round_trip;
use crate::text::text_of;
use crate::types::BranchId;
use crate::types::ContentHash;
use crate::types::RepositoryId;

verus! {

/// Where a branch is taken from.
#[derive(Clone, Copy, Debug, PartialEq, Eq, Structural)]
pub enum LoreBranchLocation {
    Local,
    Remote,
}

/// Details of the branch involved in a branch switch.
#[derive(Debug)]
pub struct LoreBranchSwitchData {
    /// Branch identifier.
    pub id: BranchId,
    /// Branch name.
    pub name: String,
    /// Latest revision known locally for the branch.
    pub latest_local: ContentHash,
    /// Latest revision known on the remote for the branch.
    pub latest_remote: ContentHash,
    /// Revision the branch is switched to.
    pub revision: ContentHash,
    /// Where the branch exists: local, remote, or both.
    pub location: LoreBranchLocation,
}

impl LoreBranchSwitchData {
    /// The details made of their parts.
    pub fn new(
        id: BranchId,
        name: &str,
        latest_local: ContentHash,
        latest_remote: ContentHash,
        revision: ContentHash,
        location: LoreBranchLocation,
    ) -> (data: LoreBranchSwitchData)
        ensures
            data.id == id,
            data.name@ == name@,
            data.latest_local == latest_local,
            data.latest_remote == latest_remote,
            data.revision == revision,
            data.location == location,
    {
        LoreBranchSwitchData {
            id,
            name: name.to_owned(),
            latest_local,
            latest_remote,
            revision,
            location,
        }
    }
}

/// Data for the event emitted when a branch switch starts.
#[derive(Debug)]
pub struct LoreBranchSwitchBeginEventData {
    /// Details of the branch being switched to.
    pub branch: LoreBranchSwitchData,
}

/// Data for the event emitted when a branch switch finishes.
#[derive(Debug)]
pub struct LoreBranchSwitchEndEventData {
    /// Details of the branch that was switched to.
    pub branch: LoreBranchSwitchData,
}

/// Options of a branch switch.
#[derive(Debug)]
pub struct BranchSwitchOptions {
    /// Optional revision signature
    pub signature: Option<String>,
    /// Keep last local latest revision, do not sync latest revision from remote
    pub local: bool,
    /// Reset local modified files to match the incoming revision
    pub reset: bool,
    /// Search nearest when matching revisions
    pub search_nearest: bool,
    /// Only update anchor tracking without modifying or verifying files
    pub bare: bool,
}

// ---------------------------------------------------------------------------
// Choosing the revision to switch to
// ---------------------------------------------------------------------------

/// Checks a revision that a switch asks for: it must be made on the branch, or
/// be the point where the branch leaves its parent.
pub fn check_switch_revision(
    revision: ContentHash,
    revision_branch: BranchId,
    branch: BranchId,
    branch_point: ContentHash,
) -> (result: Result<ContentHash, RepositoryError>)
    ensures
        result is Ok <==> revision_branch == branch || revision == branch_point,
        result matches Ok(signature) ==> signature == revision,
        result matches Err(e) ==> e.kind == ErrorKind::Internal && e.detail@
            == "Given revision is not on the target branch"@,
{
    if revision_branch != branch && revision != branch_point {
        return Err(
            RepositoryError::of(
                ErrorKind::Internal,
                "Given revision is not on the target branch",
            ),
        );
    }
    Ok(revision)
}

/// What a remote has of a branch.
#[derive(Clone, Copy, Debug)]
pub struct RemoteBranchStatus {
    pub latest: ContentHash,
    /// Hash of the branch metadata.
    pub metadata: ContentHash,
}

/// What asking the remote for a branch gave.
#[derive(Clone, Copy, Debug)]
pub enum RemoteLookup {
    Found(RemoteBranchStatus),
    BranchNotFound,
    /// The remote cannot be reached, or failed to answer.
    Failed(ErrorKind),
}

/// The remote side of a branch as a switch uses it. It is not used where the
/// switch is local, or the remote does not have the branch; and a remote that
/// fails is passed over where the branch is known locally.
pub fn remote_branch(local_only: bool, lookup: RemoteLookup, has_local: bool) -> (result: Result<
    Option<RemoteBranchStatus>,
    RepositoryError,
>)
    ensures
        result is Err <==> !local_only && lookup is Failed && !has_local,
        result matches Ok(remote) ==> remote == match lookup {
            RemoteLookup::Found(status) => if local_only {
                None
            } else {
                Some(status)
            },
            _ => None,
        },
        result matches Err(e) ==> e.kind == lookup->Failed_0 && e.detail@
            == "Failed to load remote branch latest revision"@,
{
    if local_only {
        return Ok(None);
    }
    match lookup {
        RemoteLookup::Found(status) => Ok(Some(status)),
        RemoteLookup::BranchNotFound => Ok(None),
        RemoteLookup::Failed(kind) => if has_local {
            Ok(None)
        } else {
            Err(RepositoryError::of(kind, "Failed to load remote branch latest revision"))
        },
    }
}

/// A revision, as far as a switch compares it.
#[derive(Clone, Copy, Debug)]
pub struct RevisionNumber {
    pub revision: ContentHash,
    pub number: u64,
}

/// Tells whether the history of the remote is searched for the local revision:
/// only where both can be read and the remote one has a higher number.
pub fn searches_history(local: Option<RevisionNumber>, remote: Option<RevisionNumber>) -> (search:
    bool)
    ensures
        search == (local is Some && remote is Some && remote->0.number > local->0.number),
{
    match local {
        Some(l) => match remote {
            Some(r) => r.number > l.number,
            None => false,
        },
        None => false,
    }
}

/// What a revision means to a history search.
#[derive(Clone, Copy, Debug, PartialEq, Eq, Structural)]
pub enum FindMatchResult {
    Match,
    Continue,
    Abort,
}

/// Tells what a revision of the remote history means to the search for the local
/// one: it is found by itself or as merged in, and a history that passed its
/// number diverged.
pub fn match_local_revision(
    revision: ContentHash,
    parent_other: ContentHash,
    number: u64,
    local: RevisionNumber,
) -> (result: FindMatchResult)
    ensures
        result == if revision == local.revision || parent_other == local.revision {
            FindMatchResult::Match
        } else if number < local.number {
            FindMatchResult::Abort
        } else {
            FindMatchResult::Continue
        },
{
    if revision == local.revision || parent_other == local.revision {
        FindMatchResult::Match
    } else if number < local.number {
        FindMatchResult::Abort
    } else {
        FindMatchResult::Continue
    }
}

/// What a switch knows of a branch.
#[derive(Clone, Copy, Debug)]
pub struct SwitchSides {
    /// Latest local revision, if the branch is known locally.
    pub local_head: Option<ContentHash>,
    /// Latest remote revision, if the remote side is used.
    pub remote_head: Option<ContentHash>,
    /// The local head, if it can be read.
    pub local_state: Option<RevisionNumber>,
    /// The remote head, if it can be read.
    pub remote_state: Option<RevisionNumber>,
    /// The remote history holds the local head.
    pub coherent: bool,
}

/// Where a switch goes.
#[derive(Clone, Copy, Debug)]
pub struct SwitchHeads {
    pub latest_local: ContentHash,
    /// Zero where the remote side is not used.
    pub latest_remote: ContentHash,
    pub location: LoreBranchLocation,
    /// The revision to switch to.
    pub signature: ContentHash,
    /// The branch is created locally first.
    pub create: bool,
}

/// A switch takes the remote side of a branch: the branch is only there, or the
/// local head cannot be read, or is the remote one, or is in the history of a
/// remote that moved on.
pub open spec fn takes_remote(sides: SwitchSides) -> bool {
    &&& sides.remote_head is Some
    &&& {
        ||| sides.local_head is None
        ||| sides.remote_state is Some && (sides.local_state is None || {
            let local = sides.local_state->0;
            let remote = sides.remote_state->0;
            if remote.number > local.number {
                sides.coherent
            } else {
                remote.revision == local.revision
            }
        })
    }
}

/// Chooses where a switch goes. A revision that is asked for wins over the
/// latest one of the side that is taken.
pub fn switch_heads(branch_name: &str, sides: SwitchSides, signature: ContentHash) -> (result: Result<
    SwitchHeads,
    RepositoryError,
>)
    ensures
        result is Ok <==> sides.local_head is Some || sides.remote_head is Some,
        result matches Ok(heads) ==> {
            &&& heads.location == if takes_remote(sides) {
                LoreBranchLocation::Remote
            } else {
                LoreBranchLocation::Local
            }
            &&& heads.latest_local == if takes_remote(sides) {
                sides.remote_head->0
            } else {
                sides.local_head->0
            }
            &&& match sides.remote_head {
                Some(head) => heads.latest_remote == head,
                None => heads.latest_remote.is_zero(),
            }
            &&& heads.signature == if signature.is_zero() {
                heads.latest_local
            } else {
                signature
            }
            &&& heads.create == (sides.local_head is None)
        },
        result matches Err(e) ==> e.kind == ErrorKind::BranchNotFound && e.detail@ == branch_name@,
{
    let local_head = match sides.local_head {
        Some(head) => head,
        None => match sides.remote_head {
            Some(remote_head) => {
                return Ok(
                    SwitchHeads {
                        latest_local: remote_head,
                        latest_remote: remote_head,
                        location: LoreBranchLocation::Remote,
                        signature: if signature.is_zero() {
                            remote_head
                        } else {
                            signature
                        },
                        create: true,
                    },
                );
            },
            None => {
                return Err(
                    RepositoryError {
                        kind: ErrorKind::BranchNotFound,
                        detail: branch_name.to_owned(),
                    },
                );
            },
        },
    };
    let remote_head = match sides.remote_head {
        Some(head) => head,
        None => {
            return Ok(
                SwitchHeads {
                    latest_local: local_head,
                    latest_remote: ContentHash::default(),
                    location: LoreBranchLocation::Local,
                    signature: if signature.is_zero() {
                        local_head
                    } else {
                        signature
                    },
                    create: false,
                },
            );
        },
    };
    let take_remote = match sides.remote_state {
        None => false,
        Some(remote) => match sides.local_state {
            None => true,
            Some(local) => if remote.number > local.number {
                sides.coherent
            } else {
                remote.revision == local.revision
            },
        },
    };
    let latest = if take_remote {
        remote_head
    } else {
        local_head
    };
    Ok(
        SwitchHeads {
            latest_local: latest,
            latest_remote: remote_head,
            location: if take_remote {
                LoreBranchLocation::Remote
            } else {
                LoreBranchLocation::Local
            },
            signature: if signature.is_zero() {
                latest
            } else {
                signature
            },
            create: false,
        },
    )
}

/// A branch that only one side has is taken from that side.
pub proof fn law_switch_takes_the_only_side(sides: SwitchSides)
    ensures
        sides.remote_head is None ==> !takes_remote(sides),
        sides.local_head is None && sides.remote_head is Some ==> takes_remote(sides),
{
}

/// Where both sides have the branch, a side that cannot be read is not taken, and
/// the local one is where neither can.
pub proof fn law_switch_takes_a_readable_side(sides: SwitchSides)
    requires
        sides.local_head is Some,
        sides.remote_head is Some,
    ensures
        sides.remote_state is None ==> !takes_remote(sides),
        sides.local_state is None && sides.remote_state is Some ==> takes_remote(sides),
{
}

/// A switch follows a remote that moved on from the local head, and counts as
/// synchronized where both sides are at the same revision.
pub proof fn law_switch_follows_the_remote(sides: SwitchSides)
    requires
        sides.local_head is Some,
        sides.remote_head is Some,
        sides.local_state is Some,
        sides.remote_state is Some,
    ensures
        sides.remote_state->0.number > sides.local_state->0.number && sides.coherent
            ==> takes_remote(sides),
        sides.remote_state->0.number <= sides.local_state->0.number
            && sides.remote_state->0.revision == sides.local_state->0.revision ==> takes_remote(
            sides,
        ),
{
}

/// A switch does not go back behind a local head that the remote does not have.
pub proof fn law_switch_keeps_a_local_head_that_is_ahead(sides: SwitchSides)
    requires
        sides.local_head is Some,
        sides.local_state is Some,
        sides.remote_state is Some ==> sides.remote_state->0.number
            <= sides.local_state->0.number && sides.remote_state->0.revision
            != sides.local_state->0.revision,
    ensures
        !takes_remote(sides),
{
}

/// A switch never gives up a local head that can be read and that the remote
/// history does not hold.
pub proof fn law_switch_keeps_diverged_local(sides: SwitchSides)
    requires
        sides.local_head is Some,
        sides.local_state is Some,
        sides.remote_state is Some ==> sides.remote_state->0.revision
            != sides.local_state->0.revision,
        !sides.coherent,
    ensures
        !takes_remote(sides),
{
}

// ---------------------------------------------------------------------------
// Creating the branch
// ---------------------------------------------------------------------------

/// How a branch that is only on the remote is created locally.
#[derive(Clone, Copy, Debug)]
pub enum BranchCreation {
    /// This branch, which it comes from, is created first.
    Parent(BranchId),
    /// It is created now.
    Create,
}

/// Tells how a branch is created locally: after the branch it comes from, unless
/// that is known locally or there is none.
pub fn branch_switch_create(stack: &Vec<BranchPoint>, parent_is_local: bool) -> (creation:
    BranchCreation)
    ensures
        creation == if stack@.len() > 0 && !stack@[0].branch.is_zero() && !parent_is_local {
            BranchCreation::Parent(stack@[0].branch)
        } else {
            BranchCreation::Create
        },
{
    if stack.len() > 0 && !stack[0].branch.is_zero() && !parent_is_local {
        BranchCreation::Parent(stack[0].branch)
    } else {
        BranchCreation::Create
    }
}

// ---------------------------------------------------------------------------
// The switch
// ---------------------------------------------------------------------------

/// Rejects a switch that would discard a staged change. Dirty flags are carried
/// over. A switch that is forced, or that resets files, discards staged changes
/// on purpose.
pub fn check_staged_state(
    force: bool,
    reset: bool,
    staged_revision: Option<ContentHash>,
    has_staged_nodes: bool,
) -> (result: Result<(), RepositoryError>)
    ensures
        result is Err <==> discards_staged(force, reset, staged_revision, has_staged_nodes),
        result matches Err(e) ==> e.kind == ErrorKind::InvalidArguments && e.detail@
            == "Unable to switch branch when there is a staged state"@,
{
    if force || reset {
        return Ok(());
    }
    match staged_revision {
        Some(revision) => if !revision.is_zero() && has_staged_nodes {
            Err(
                RepositoryError::of(
                    ErrorKind::InvalidArguments,
                    "Unable to switch branch when there is a staged state",
                ),
            )
        } else {
            Ok(())
        },
        None => Ok(()),
    }
}

/// A step of a switch.
#[derive(Clone, Copy, Debug)]
pub enum SwitchAction {
    /// Bring the working tree to a revision.
    Sync { revision: ContentHash, reset: bool, forward_changes: bool },
    /// Store the latest local revision of the branch.
    StoreLatest { latest: ContentHash, divergent: bool },
    /// Warn of other instances on the branch.
    WarnInstances,
    /// Make the branch the current one.
    StoreCurrentBranch,
    /// Make a revision the current one.
    StoreCurrentRevision(ContentHash),
    /// Drop the staged revision.
    DeleteStaged,
    /// Move the staged revision onto a revision.
    RebaseStaged(ContentHash),
    /// Store the revision of the last synchronization.
    StoreLastSync(ContentHash),
    /// Switch the layers.
    SwitchLayers,
}

/// The steps that store where a switch went.
pub open spec fn stored_actions(heads: SwitchHeads, bare: bool, force: bool) -> Seq<SwitchAction> {
    let anchors = seq![
        SwitchAction::StoreLatest {
            latest: heads.latest_local,
            divergent: heads.location == LoreBranchLocation::Local,
        },
        SwitchAction::WarnInstances,
        SwitchAction::StoreCurrentBranch,
        SwitchAction::StoreCurrentRevision(heads.signature),
        if force {
            SwitchAction::DeleteStaged
        } else {
            SwitchAction::RebaseStaged(heads.signature)
        },
    ];
    let synced = if heads.location == LoreBranchLocation::Remote {
        anchors.push(SwitchAction::StoreLastSync(heads.latest_local))
    } else {
        anchors
    };
    if bare {
        synced
    } else {
        synced.push(SwitchAction::SwitchLayers)
    }
}

/// The steps of a switch: the working tree is brought to the revision first,
/// unless only anchors are moved, and a dry run stores nothing.
pub open spec fn switch_actions(
    heads: SwitchHeads,
    reset: bool,
    bare: bool,
    force: bool,
    dry_run: bool,
) -> Seq<SwitchAction> {
    let synced = if bare {
        Seq::empty()
    } else {
        seq![
            SwitchAction::Sync { revision: heads.signature, reset, forward_changes: force },
        ]
    };
    if dry_run {
        synced
    } else {
        synced + stored_actions(heads, bare, force)
    }
}

/// A switch would discard a staged change: it is neither forced nor resets files,
/// and the staged revision has staged nodes.
pub open spec fn discards_staged(
    force: bool,
    reset: bool,
    staged_revision: Option<ContentHash>,
    has_staged_nodes: bool,
) -> bool {
    &&& !force
    &&& !reset
    &&& staged_revision matches Some(revision)
    &&& !revision.is_zero()
    &&& has_staged_nodes
}

/// The steps of a switch to where it goes. There are none where it would discard a
/// staged change, which fails the switch.
pub fn branch_switch(
    heads: &SwitchHeads,
    options: &BranchSwitchOptions,
    force: bool,
    dry_run: bool,
    staged_revision: Option<ContentHash>,
    has_staged_nodes: bool,
) -> (result: Result<Vec<SwitchAction>, RepositoryError>)
    ensures
        result is Err <==> discards_staged(force, options.reset, staged_revision, has_staged_nodes),
        result matches Err(e) ==> e.kind == ErrorKind::InvalidArguments && e.detail@
            == "Unable to switch branch when there is a staged state"@,
        result matches Ok(actions) ==> actions@ == switch_actions(
            *heads,
            options.reset,
            options.bare,
            force,
            dry_run,
        ),
{
    match check_staged_state(force, options.reset, staged_revision, has_staged_nodes) {
        Ok(()) => {},
        Err(error) => {
            return Err(error);
        },
    }
    let mut actions: Vec<SwitchAction> = Vec::new();
    if !options.bare {
        actions.push(
            SwitchAction::Sync {
                revision: heads.signature,
                reset: options.reset,
                forward_changes: force,
            },
        );
    }
    let ghost synced = actions@;
    if !dry_run {
        actions.push(
            SwitchAction::StoreLatest {
                latest: heads.latest_local,
                divergent: heads.location == LoreBranchLocation::Local,
            },
        );
        actions.push(SwitchAction::WarnInstances);
        actions.push(SwitchAction::StoreCurrentBranch);
        actions.push(SwitchAction::StoreCurrentRevision(heads.signature));
        if force {
            actions.push(SwitchAction::DeleteStaged);
        } else {
            actions.push(SwitchAction::RebaseStaged(heads.signature));
        }
        if heads.location == LoreBranchLocation::Remote {
            actions.push(SwitchAction::StoreLastSync(heads.latest_local));
        }
        if !options.bare {
            actions.push(SwitchAction::SwitchLayers);
        }
        assert(actions@ =~= synced + stored_actions(*heads, options.bare, force));
    }
    assert(actions@ =~= switch_actions(*heads, options.reset, options.bare, force, dry_run));
    Ok(actions)
}

/// What becomes of the staged revision.
pub enum StagedPlace {
    Kept,
    Dropped,
    /// It is moved onto a revision.
    Onto(ContentHash),
}

/// Where a repository stands: what a switch finds and what it leaves.
#[verifier::ext_equal]
pub struct SwitchPlace {
    /// The revision that the files of the working tree are at.
    pub files: ContentHash,
    /// Files that were modified are reset, and local changes are carried forward.
    pub synced: Option<(bool, bool)>,
    /// The latest revision of the target branch, and whether the remote lacks it.
    pub latest: (ContentHash, bool),
    pub current_branch: BranchId,
    pub current_revision: ContentHash,
    pub staged: StagedPlace,
    /// The revision in which the target branch was last synchronized.
    pub last_sync: ContentHash,
    /// Other instances on the branch are warned about.
    pub warned: bool,
    /// The branch that the layers follow.
    pub layers: BranchId,
}

/// Where a repository stands after one step towards a branch.
pub open spec fn after_action(
    place: SwitchPlace,
    action: SwitchAction,
    branch: BranchId,
) -> SwitchPlace {
    match action {
        SwitchAction::Sync { revision, reset, forward_changes } => SwitchPlace {
            files: revision,
            synced: Some((reset, forward_changes)),
            ..place
        },
        SwitchAction::StoreLatest { latest, divergent } => SwitchPlace {
            latest: (latest, divergent),
            ..place
        },
        SwitchAction::WarnInstances => SwitchPlace { warned: true, ..place },
        SwitchAction::StoreCurrentBranch => SwitchPlace { current_branch: branch, ..place },
        SwitchAction::StoreCurrentRevision(revision) => SwitchPlace {
            current_revision: revision,
            ..place
        },
        SwitchAction::DeleteStaged => SwitchPlace { staged: StagedPlace::Dropped, ..place },
        SwitchAction::RebaseStaged(revision) => SwitchPlace {
            staged: StagedPlace::Onto(revision),
            ..place
        },
        SwitchAction::StoreLastSync(revision) => SwitchPlace { last_sync: revision, ..place },
        SwitchAction::SwitchLayers => SwitchPlace { layers: branch, ..place },
    }
}

/// Where a repository stands after steps towards a branch, carried out in order.
pub open spec fn carried_out(
    place: SwitchPlace,
    actions: Seq<SwitchAction>,
    branch: BranchId,
) -> SwitchPlace
    decreases actions.len(),
{
    if actions.len() == 0 {
        place
    } else {
        after_action(carried_out(place, actions.drop_last(), branch), actions.last(), branch)
    }
}

proof fn lemma_one_more(
    place: SwitchPlace,
    actions: Seq<SwitchAction>,
    action: SwitchAction,
    branch: BranchId,
)
    ensures
        carried_out(place, actions.push(action), branch) == after_action(
            carried_out(place, actions, branch),
            action,
            branch,
        ),
{
    assert(actions.push(action).drop_last() =~= actions);
}

proof fn lemma_anchors_stored(
    place: SwitchPlace,
    first: Seq<SwitchAction>,
    heads: SwitchHeads,
    branch: BranchId,
    force: bool,
)
    ensures
        ({
            let a0 = SwitchAction::StoreLatest {
                latest: heads.latest_local,
                divergent: heads.location == LoreBranchLocation::Local,
            };
            let a4 = if force {
                SwitchAction::DeleteStaged
            } else {
                SwitchAction::RebaseStaged(heads.signature)
            };
            let anchors = first.push(a0).push(SwitchAction::WarnInstances).push(
                SwitchAction::StoreCurrentBranch,
            ).push(SwitchAction::StoreCurrentRevision(heads.signature)).push(a4);
            carried_out(place, anchors, branch) == (SwitchPlace {
                latest: (heads.latest_local, heads.location == LoreBranchLocation::Local),
                warned: true,
                current_branch: branch,
                current_revision: heads.signature,
                staged: if force {
                    StagedPlace::Dropped
                } else {
                    StagedPlace::Onto(heads.signature)
                },
                ..carried_out(place, first, branch)
            })
        }),
{
    let a0 = SwitchAction::StoreLatest {
        latest: heads.latest_local,
        divergent: heads.location == LoreBranchLocation::Local,
    };
    let a4 = if force {
        SwitchAction::DeleteStaged
    } else {
        SwitchAction::RebaseStaged(heads.signature)
    };
    let s1 = first.push(a0);
    let s2 = s1.push(SwitchAction::WarnInstances);
    let s3 = s2.push(SwitchAction::StoreCurrentBranch);
    let s4 = s3.push(SwitchAction::StoreCurrentRevision(heads.signature));
    lemma_one_more(place, first, a0, branch);
    lemma_one_more(place, s1, SwitchAction::WarnInstances, branch);
    lemma_one_more(place, s2, SwitchAction::StoreCurrentBranch, branch);
    lemma_one_more(place, s3, SwitchAction::StoreCurrentRevision(heads.signature), branch);
    lemma_one_more(place, s4, a4, branch);
}

/// A switch ends on the target branch at the revision it goes to. The branch has its
/// latest revision, which the remote lacks where the local side was taken; what was
/// staged is dropped by force and moved onto the revision otherwise; a branch that
/// was taken from the remote is synchronized. The files are at the revision and the
/// layers follow the branch, unless only anchors are moved.
pub proof fn law_switch_ends_on_the_branch(
    place: SwitchPlace,
    heads: SwitchHeads,
    branch: BranchId,
    reset: bool,
    bare: bool,
    force: bool,
)
    ensures
        ({
            let actions = switch_actions(heads, reset, bare, force, false);
            let after = carried_out(place, actions, branch);
            &&& after.current_branch == branch
            &&& after.current_revision == heads.signature
            &&& after.latest.0 == heads.latest_local
            &&& after.latest.1 == (heads.location is Local)
            &&& force ==> after.staged is Dropped
            &&& !force ==> after.staged == StagedPlace::Onto(heads.signature)
            &&& heads.location is Remote ==> after.last_sync == heads.latest_local
            &&& heads.location is Local ==> after.last_sync == place.last_sync
            &&& after.warned
            &&& !bare ==> after.files == heads.signature && after.synced == Some((reset, force))
                && after.layers == branch
            &&& bare ==> after.files == place.files && after.synced == place.synced
                && after.layers == place.layers
        }),
{
    let actions = switch_actions(heads, reset, bare, force, false);
    let none = Seq::<SwitchAction>::empty();
    let sync = SwitchAction::Sync { revision: heads.signature, reset, forward_changes: force };
    let first = if bare {
        none
    } else {
        none.push(sync)
    };
    lemma_one_more(place, none, sync, branch);
    lemma_anchors_stored(place, first, heads, branch, force);
    let a0 = SwitchAction::StoreLatest {
        latest: heads.latest_local,
        divergent: heads.location == LoreBranchLocation::Local,
    };
    let a4 = if force {
        SwitchAction::DeleteStaged
    } else {
        SwitchAction::RebaseStaged(heads.signature)
    };
    let anchors = first.push(a0).push(SwitchAction::WarnInstances).push(
        SwitchAction::StoreCurrentBranch,
    ).push(SwitchAction::StoreCurrentRevision(heads.signature)).push(a4);
    let last_sync = SwitchAction::StoreLastSync(heads.latest_local);
    let synced = if heads.location == LoreBranchLocation::Remote {
        anchors.push(last_sync)
    } else {
        anchors
    };
    lemma_one_more(place, anchors, last_sync, branch);
    lemma_one_more(place, synced, SwitchAction::SwitchLayers, branch);
    if bare {
        assert(actions =~= synced);
    } else {
        assert(actions =~= synced.push(SwitchAction::SwitchLayers));
    }
}

/// A dry run brings the files to where the switch would bring them, and changes
/// nothing else.
pub proof fn law_dry_run_looks_at_files_only(
    place: SwitchPlace,
    heads: SwitchHeads,
    branch: BranchId,
    reset: bool,
    bare: bool,
    force: bool,
)
    ensures
        ({
            let after = carried_out(
                place,
                switch_actions(heads, reset, bare, force, true),
                branch,
            );
            if bare {
                after == place
            } else {
                after == (SwitchPlace {
                    files: heads.signature,
                    synced: Some((reset, force)),
                    ..place
                })
            }
        }),
{
    reveal_with_fuel(carried_out, 2);
    if !bare {
        let sync = SwitchAction::Sync {
            revision: heads.signature,
            reset,
            forward_changes: force,
        };
        lemma_one_more(place, Seq::empty(), sync, branch);
        assert(switch_actions(heads, reset, bare, force, true) =~= Seq::empty().push(sync));
    }
}

/// The place of a step among the steps of a switch: files come first, so that a
/// switch whose files cannot be brought to the revision stores nothing; the branch
/// and its revision become current before what is staged follows them; layers come
/// last.
pub open spec fn action_rank(action: SwitchAction) -> nat {
    match action {
        SwitchAction::Sync { .. } => 0,
        SwitchAction::StoreLatest { .. } => 1,
        SwitchAction::WarnInstances => 2,
        SwitchAction::StoreCurrentBranch => 3,
        SwitchAction::StoreCurrentRevision(_) => 4,
        SwitchAction::DeleteStaged => 5,
        SwitchAction::RebaseStaged(_) => 5,
        SwitchAction::StoreLastSync(_) => 6,
        SwitchAction::SwitchLayers => 7,
    }
}

/// The steps of a switch come in their order, and none of them twice.
pub proof fn law_switch_steps_keep_their_order(
    heads: SwitchHeads,
    reset: bool,
    bare: bool,
    force: bool,
    dry_run: bool,
    i: int,
    j: int,
)
    requires
        0 <= i < j < switch_actions(heads, reset, bare, force, dry_run).len(),
    ensures
        ({
            let actions = switch_actions(heads, reset, bare, force, dry_run);
            action_rank(actions[i]) < action_rank(actions[j])
        }),
{
}

/// A dry run changes at most the view of the working tree: it stores nothing.
pub proof fn law_dry_run_stores_nothing(
    heads: SwitchHeads,
    reset: bool,
    bare: bool,
    force: bool,
    i: int,
)
    requires
        0 <= i < switch_actions(heads, reset, bare, force, true).len(),
    ensures
        switch_actions(heads, reset, bare, force, true)[i] is Sync,
{
}

/// The data of the event that ends a switch, and of the one that starts it.
pub fn switch_data(branch: BranchId, branch_name: &str, heads: &SwitchHeads) -> (data:
    LoreBranchSwitchData)
    ensures
        data.id == branch,
        data.name@ == branch_name@,
        data.latest_local == heads.latest_local,
        data.latest_remote == heads.latest_remote,
        data.revision == heads.signature,
        data.location == heads.location,
{
    LoreBranchSwitchData::new(
        branch,
        branch_name,
        heads.latest_local,
        heads.latest_remote,
        heads.signature,
        heads.location,
    )
}

// ---------------------------------------------------------------------------
// Layers
// ---------------------------------------------------------------------------

/// The name of a branch in a layer whose repository uses the name for another
/// branch.
pub open spec fn layer_name(branch_name: Seq<char>, layer: RepositoryId) -> Seq<char> {
    branch_name.push('-') + hex_text(layer.data@).take(8)
}

/// The name of a branch in a layer whose repository uses the name for another
/// branch: the start of the repository's identifier is appended.
pub fn layer_branch_name(branch_name: &str, layer_id: RepositoryId) -> (name: String)
    ensures
        name@ == layer_name(branch_name@, layer_id),
{
    let digits = chars_of(layer_id.to_text().as_str());
    let start = text_of(vstd::slice::slice_subrange(digits.as_slice(), 0, 8));
    assert(start@ =~= hex_text(layer_id.data@).take(8));
    let mut name = branch_name.to_owned();
    name.push('-');
    name.append(start.as_str());
    name
}

/// Checks a layer before it is switched, and tells whether its staged revision
/// is dropped. Staged changes are discarded only by force.
pub fn check_layer_staged(layer: &Layer, force: bool) -> (result: Result<bool, RepositoryError>)
    ensures
        result is Err <==> layer.spec_has_staged() && !force,
        result matches Ok(clear) ==> clear == layer.spec_has_staged(),
        result matches Err(e) ==> e.kind == ErrorKind::Internal && e.detail@
            == "Layer has uncommitted staged changes, commit or use --force"@,
{
    if !layer.has_staged() {
        return Ok(false);
    }
    if !force {
        return Err(
            RepositoryError::of(
                ErrorKind::Internal,
                "Layer has uncommitted staged changes, commit or use --force",
            ),
        );
    }
    Ok(true)
}

/// How the branch comes about in a layer's repository.
#[derive(Clone, Copy, Debug, PartialEq, Eq, Structural)]
pub enum LayerBranch {
    /// It is there.
    Exists,
    /// The layer is on it already, and is left alone.
    AlreadyOn,
    /// It is created.
    Create,
}

/// Tells how the branch comes about in a layer's repository.
pub fn layer_branch(exists_locally: bool, current_branch: BranchId, branch: BranchId) -> (step:
    LayerBranch)
    ensures
        step == if exists_locally {
            LayerBranch::Exists
        } else if current_branch == branch {
            LayerBranch::AlreadyOn
        } else {
            LayerBranch::Create
        },
{
    if exists_locally {
        LayerBranch::Exists
    } else if current_branch == branch {
        LayerBranch::AlreadyOn
    } else {
        LayerBranch::Create
    }
}

/// The stack of a branch that leaves the current one of a layer at its current
/// revision.
pub fn layer_branch_stack(
    current_branch: BranchId,
    current_revision: ContentHash,
    parent_stack: &Vec<BranchPoint>,
) -> (stack: Vec<BranchPoint>)
    ensures
        stack@ == seq![BranchPoint { branch: current_branch, revision: current_revision }]
            + parent_stack@,
{
    let mut stack: Vec<BranchPoint> = Vec::new();
    stack.push(BranchPoint { branch: current_branch, revision: current_revision });
    let mut i: usize = 0;
    assert(stack@ =~= seq![BranchPoint { branch: current_branch, revision: current_revision }]
        + parent_stack@.take(0));
    while i < parent_stack.len()
        invariant
            i <= parent_stack@.len(),
            stack@ == seq![BranchPoint { branch: current_branch, revision: current_revision }]
                + parent_stack@.take(i as int),
        decreases parent_stack@.len() - i,
    {
        stack.push(parent_stack[i]);
        i = i + 1;
        assert(stack@ =~= seq![BranchPoint { branch: current_branch, revision: current_revision }]
            + parent_stack@.take(i as int));
    }
    assert(parent_stack@.take(i as int) =~= parent_stack@);
    stack
}

/// What creating a branch in a layer's repository gave.
#[derive(Clone, Copy, Debug)]
pub enum LayerCreate {
    Created,
    /// The name is taken, by this branch where it is known.
    NameTaken(Option<BranchId>),
    Failed,
}

/// How a layer is switched once its branch was to be created.
#[derive(Clone, Copy, Debug, PartialEq, Eq, Structural)]
pub enum LayerCreated {
    /// Go on to the revision.
    Resolve,
    /// Try other names.
    Rename,
    /// Leave the layer alone.
    Skip,
}

/// Goes on once a branch was to be created in a layer's repository. A name that
/// the branch itself has is no conflict.
pub fn layer_created(outcome: LayerCreate, branch: BranchId) -> (result: Result<
    LayerCreated,
    RepositoryError,
>)
    ensures
        result is Err <==> (outcome matches LayerCreate::NameTaken(owner) && owner is None),
        result matches Ok(step) ==> step == match outcome {
            LayerCreate::Created => LayerCreated::Resolve,
            LayerCreate::NameTaken(owner) => if owner == Some(branch) {
                LayerCreated::Resolve
            } else {
                LayerCreated::Rename
            },
            LayerCreate::Failed => LayerCreated::Skip,
        },
        result matches Err(e) ==> e.kind == ErrorKind::Internal && e.detail@
            == "Failed to switch branch in layer"@,
{
    match outcome {
        LayerCreate::Created => Ok(LayerCreated::Resolve),
        LayerCreate::NameTaken(owner) => match owner {
            Some(id) => if id == branch {
                Ok(LayerCreated::Resolve)
            } else {
                Ok(LayerCreated::Rename)
            },
            None => Err(
                RepositoryError::of(ErrorKind::Internal, "Failed to switch branch in layer"),
            ),
        },
        LayerCreate::Failed => Ok(LayerCreated::Skip),
    }
}

/// Largest number that is appended to a name.
pub const LAST_NAME: u32 = 9;

/// The names that are tried: a base, and the base with a number from two on.
pub open spec fn attempt_name(base: Seq<char>, number: nat) -> Seq<char> {
    if number == 1 {
        base
    } else {
        base.push('-') + decimal_digits(number)
    }
}

/// A name that is tried for a branch whose name is taken.
pub fn numbered_name(branch_name: &str, layer_id: RepositoryId, number: u32) -> (name: String)
    ensures
        name@ == attempt_name(layer_name(branch_name@, layer_id), number as nat),
{
    let mut name = layer_branch_name(branch_name, layer_id);
    if number != 1 {
        name.push('-');
        name.append(decimal(number as u64).as_str());
    }
    name
}

/// No name is tried twice.
pub proof fn law_attempt_names_differ(base: Seq<char>, a: u64, b: u64)
    requires
        1 <= a < b,
    ensures
        attempt_name(base, a as nat) != attempt_name(base, b as nat),
{
    law_decimal_round_trip(a);
    law_decimal_round_trip(b);
    let second = attempt_name(base, b as nat);
    assert(second.skip(base.len() + 1int) =~= decimal_digits(b as nat));
    if a == 1 {
        assert(second.len() > base.len());
    } else {
        assert(attempt_name(base, a as nat).skip(base.len() + 1int) =~= decimal_digits(a as nat));
    }
}

/// The revision that a layer is switched to: its current one where the branch
/// has none yet, the one that matches by metadata where the layer is linked that
/// way and there is one, and the latest one otherwise.
pub fn layer_target(
    layer: &Layer,
    latest: Option<ContentHash>,
    matched: Option<ContentHash>,
) -> (revision: ContentHash)
    ensures
        revision == if latest is None || latest->0.is_zero() {
            layer.current
        } else if layer.metadata is Some && matched is Some {
            matched->0
        } else {
            latest->0
        },
{
    match latest {
        None => layer.current,
        Some(hash) => {
            if hash.is_zero() {
                return layer.current;
            }
            if layer.metadata.is_some() {
                if let Some(revision) = matched {
                    return revision;
                }
            }
            hash
        },
    }
}

} // verus!
