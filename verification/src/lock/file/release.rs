//! Releasing locks.

use vstd::prelude::*;
use vstd::string::*;

use crate::errors::ErrorKind;
use crate::lock::add_resource;
use crate::lock::are_distinct;
use crate::lock::resource_views;
use crate::lock::LockData;
use crate::lock::LockError;
use crate::lock::LockResource;
use crate::order::in_batches;
use crate::order::sort_by_text;
use crate::order::sorted_positions;
use crate::text::views;
use crate::types::BranchId;

verus! {

/// Options of releasing locks.
#[derive(Debug)]
pub struct ReleaseOptions {
    pub paths: Vec<String>,
    pub branch: String,
    pub owner: String,
    pub owner_id: String,
}

/// Failure of releasing locks.
pub type ReleaseError = LockError;

/// Data for an event reporting a path whose lock was released.
#[derive(Debug)]
pub struct LoreLockFileReleaseEventData {
    /// Path whose lock was released.
    pub path: String,
}

/// Data for an event reporting that no matching lock was found to release.
#[derive(Clone, Copy, Debug, PartialEq, Eq, Structural)]
pub struct LoreLockFileReleaseNotFoundEventData {
    /// Placeholder field; carries no meaningful value.
    pub unused: u32,
}

/// Which locks are released.
#[derive(Clone, Copy, Debug, PartialEq, Eq, Structural)]
pub enum ReleaseScope {
    /// Those of the given paths.
    Paths,
    /// Every lock of the branch and user.
    All,
    /// None.
    Nothing,
}

/// Tells which locks are released: those of the given paths, or without any, by
/// force, all.
pub fn release_scope(options: &ReleaseOptions, force: bool) -> (scope: ReleaseScope)
    ensures
        scope == if options.paths@.len() > 0 {
            ReleaseScope::Paths
        } else if force {
            ReleaseScope::All
        } else {
            ReleaseScope::Nothing
        },
{
    if options.paths.len() > 0 {
        ReleaseScope::Paths
    } else if force {
        ReleaseScope::All
    } else {
        ReleaseScope::Nothing
    }
}

/// Tells whether the lock of a path is released. By force every path is; else a
/// path that the filter excludes is passed over, and any other must be in the
/// repository. Since locks are released as one operation, a path that is not
/// there fails it.
pub fn release_path(path: &str, force: bool, excluded: bool, in_repository: bool) -> (result: Result<
    bool,
    ReleaseError,
>)
    ensures
        result is Err <==> !force && !excluded && !in_repository,
        result matches Ok(release) ==> release == (force || !excluded),
        result matches Err(e) ==> e.kind == ErrorKind::Internal && e.detail@ == "Invalid path: "@
            + path@,
{
    if force {
        return Ok(true);
    }
    if excluded {
        return Ok(false);
    }
    if !in_repository {
        return Err(LockError::invalid_path(path));
    }
    Ok(true)
}

/// A path whose lock is to be released, with what is known of it.
#[derive(Debug)]
pub struct ReleasePath {
    /// The path as it was given.
    pub path: String,
    /// The path in the repository, where it lies in it.
    pub relative: Option<String>,
    /// A filter excludes the path.
    pub excluded: bool,
    pub in_repository: bool,
}

/// Resources with one more, unless it is listed.
pub open spec fn with_resource(
    resources: Seq<(BranchId, Seq<char>)>,
    resource: (BranchId, Seq<char>),
) -> Seq<(BranchId, Seq<char>)> {
    if resources.contains(resource) {
        resources
    } else {
        resources.push(resource)
    }
}

/// The resources of given paths, or the first failure. A path that the filter
/// excludes has none, unless by force.
pub open spec fn resources_of_paths(
    paths: Seq<ReleasePath>,
    force: bool,
    branch: BranchId,
) -> Result<Seq<(BranchId, Seq<char>)>, (ErrorKind, Seq<char>)>
    decreases paths.len(),
{
    if paths.len() == 0 {
        Ok(Seq::empty())
    } else {
        let path = paths.last();
        match resources_of_paths(paths.drop_last(), force, branch) {
            Err(fault) => Err(fault),
            Ok(before) => match path.relative {
                None => Err((ErrorKind::InvalidPath, "Invalid path: "@ + path.path@)),
                Some(relative) => if !force && path.excluded {
                    Ok(before)
                } else if !force && !path.in_repository {
                    Err((ErrorKind::Internal, "Invalid path: "@ + path.path@))
                } else {
                    Ok(with_resource(before, (branch, relative@)))
                },
            },
        }
    }
}

/// The resources of locks that are held.
pub open spec fn resources_of_locks(locks: Seq<LockData>, branch: BranchId) -> Seq<
    (BranchId, Seq<char>),
>
    decreases locks.len(),
{
    if locks.len() == 0 {
        Seq::empty()
    } else {
        with_resource(
            resources_of_locks(locks.drop_last(), branch),
            (branch, locks.last().resource.description@),
        )
    }
}

/// The resources to release: those of the given paths, or without any, by force,
/// those of all locks held.
pub open spec fn released_resources(
    paths: Seq<ReleasePath>,
    held: Seq<LockData>,
    force: bool,
    branch: BranchId,
) -> Result<Seq<(BranchId, Seq<char>)>, (ErrorKind, Seq<char>)> {
    if paths.len() > 0 {
        resources_of_paths(paths, force, branch)
    } else if force {
        Ok(resources_of_locks(held, branch))
    } else {
        Ok(Seq::empty())
    }
}

proof fn lemma_failure_stays(paths: Seq<ReleasePath>, force: bool, branch: BranchId, count: int)
    requires
        0 <= count <= paths.len(),
        resources_of_paths(paths.take(count), force, branch) is Err,
    ensures
        resources_of_paths(paths, force, branch) == resources_of_paths(
            paths.take(count),
            force,
            branch,
        ),
    decreases paths.len(),
{
    if count == paths.len() {
        assert(paths.take(count) =~= paths);
    } else {
        assert(paths.drop_last().take(count) =~= paths.take(count));
        lemma_failure_stays(paths.drop_last(), force, branch, count);
    }
}

fn resources_for_paths(paths: &Vec<ReleasePath>, force: bool, branch: BranchId) -> (result: Result<
    Vec<LockResource>,
    ReleaseError,
>)
    ensures
        ({
            let wanted = resources_of_paths(paths@, force, branch);
            &&& result is Ok <==> wanted is Ok
            &&& result matches Ok(resources) ==> resource_views(resources@) == wanted->Ok_0
            &&& result matches Err(e) ==> (e.kind, e.detail@) == wanted->Err_0
        }),
{
    let mut resources: Vec<LockResource> = Vec::new();
    let mut i: usize = 0;
    assert(paths@.take(0) =~= Seq::empty());
    assert(resource_views(resources@) =~= Seq::empty());
    while i < paths.len()
        invariant
            i <= paths@.len(),
            are_distinct(resources@),
            resources_of_paths(paths@.take(i as int), force, branch) == Ok::<
                Seq<(BranchId, Seq<char>)>,
                (ErrorKind, Seq<char>),
            >(resource_views(resources@)),
        decreases paths@.len() - i,
    {
        let path = &paths[i];
        proof {
            assert(paths@.take(i + 1).drop_last() =~= paths@.take(i as int));
            assert(paths@.take(i + 1).last() == *path);
            if resources_of_paths(paths@.take(i + 1), force, branch) is Err {
                lemma_failure_stays(paths@, force, branch, i + 1);
            }
        }
        let relative = match &path.relative {
            Some(relative) => relative.as_str(),
            None => {
                let error = LockError::invalid_path(path.path.as_str());
                return Err(LockError { kind: ErrorKind::InvalidPath, detail: error.detail });
            },
        };
        match release_path(path.path.as_str(), force, path.excluded, path.in_repository) {
            Ok(release) => {
                if release {
                    add_resource(&mut resources, relative, branch);
                }
            },
            Err(error) => {
                return Err(error);
            },
        }
        i = i + 1;
    }
    assert(paths@.take(i as int) =~= paths@);
    Ok(resources)
}

/// The resources to release. There is no request to send where there are none.
pub fn release_resources(
    paths: &Vec<ReleasePath>,
    held: &Vec<LockData>,
    force: bool,
    branch: BranchId,
) -> (result: Result<Vec<LockResource>, ReleaseError>)
    ensures
        ({
            let wanted = released_resources(paths@, held@, force, branch);
            &&& result is Ok <==> wanted is Ok
            &&& result matches Ok(resources) ==> resource_views(resources@) == wanted->Ok_0
            &&& result matches Err(e) ==> (e.kind, e.detail@) == wanted->Err_0
        }),
{
    if paths.len() > 0 {
        return resources_for_paths(paths, force, branch);
    }
    let mut resources: Vec<LockResource> = Vec::new();
    assert(resource_views(resources@) =~= Seq::empty());
    if force {
        let mut i: usize = 0;
        assert(held@.take(0) =~= Seq::empty());
        while i < held.len()
            invariant
                i <= held@.len(),
                are_distinct(resources@),
                resource_views(resources@) == resources_of_locks(held@.take(i as int), branch),
            decreases held@.len() - i,
        {
            assert(held@.take(i + 1).drop_last() =~= held@.take(i as int));
            assert(held@.take(i + 1).last() == held@[i as int]);
            add_resource(&mut resources, held[i].resource.description.as_str(), branch);
            i = i + 1;
        }
        assert(held@.take(i as int) =~= held@);
    }
    Ok(resources)
}

/// Where nothing is asked for, or a filter excludes everything that is, there is
/// nothing to release.
pub proof fn law_excluded_paths_release_nothing(
    paths: Seq<ReleasePath>,
    held: Seq<LockData>,
    branch: BranchId,
)
    requires
        forall|i: int|
            0 <= i < paths.len() ==> (#[trigger] paths[i]).excluded && paths[i].relative is Some,
    ensures
        released_resources(paths, held, false, branch) == Ok::<
            Seq<(BranchId, Seq<char>)>,
            (ErrorKind, Seq<char>),
        >(Seq::empty()),
    decreases paths.len(),
{
    if paths.len() > 0 {
        let first = paths.drop_last();
        assert forall|i: int| 0 <= i < first.len() implies (#[trigger] first[i]).excluded
            && first[i].relative is Some by {
            assert(first[i] == paths[i]);
        }
        law_excluded_paths_release_nothing(first, held, branch);
    }
}

/// Every path that is asked for is released, unless the filter excludes it and nothing
/// is forced, and nothing else is; no resource is released twice.
pub proof fn law_asked_paths_are_released(
    paths: Seq<ReleasePath>,
    force: bool,
    branch: BranchId,
    resources: Seq<(BranchId, Seq<char>)>,
)
    requires
        resources_of_paths(paths, force, branch) == Ok::<
            Seq<(BranchId, Seq<char>)>,
            (ErrorKind, Seq<char>),
        >(resources),
    ensures
        resources.no_duplicates(),
        forall|i: int|
            0 <= i < paths.len() ==> (#[trigger] paths[i]).relative is Some && (force
                || !paths[i].excluded ==> resources.contains((branch, paths[i].relative->0@))),
        forall|n: int|
            0 <= n < resources.len() ==> exists|i: int|
                0 <= i < paths.len() && (#[trigger] paths[i]).relative is Some && (force
                    || !paths[i].excluded) && #[trigger] resources[n] == (
                    branch,
                    paths[i].relative->0@,
                ),
    decreases paths.len(),
{
    if paths.len() > 0 {
        let earlier = paths.drop_last();
        let last = paths.len() - 1;
        let before = resources_of_paths(earlier, force, branch)->Ok_0;
        law_asked_paths_are_released(earlier, force, branch, before);
        lemma_with_resource(before, (branch, paths.last().relative->0@));
        assert forall|i: int| 0 <= i < paths.len() implies (#[trigger] paths[i]).relative is Some
            && (force || !paths[i].excluded ==> resources.contains(
            (branch, paths[i].relative->0@),
        )) by {
            if i < last {
                assert(earlier[i] == paths[i]);
            }
        }
        assert forall|n: int| 0 <= n < resources.len() implies exists|i: int|
            0 <= i < paths.len() && (#[trigger] paths[i]).relative is Some && (force
                || !paths[i].excluded) && #[trigger] resources[n] == (
                branch,
                paths[i].relative->0@,
            ) by {
            if n < before.len() {
                assert(resources[n] == before[n]);
                let i = choose|i: int|
                    0 <= i < earlier.len() && (#[trigger] earlier[i]).relative is Some && (force
                        || !earlier[i].excluded) && before[n] == (
                        branch,
                        earlier[i].relative->0@,
                    );
                assert(paths[i] == earlier[i]);
            } else {
                assert(paths[last].relative is Some);
            }
        }
    }
}

proof fn lemma_with_resource(
    resources: Seq<(BranchId, Seq<char>)>,
    resource: (BranchId, Seq<char>),
)
    requires
        resources.no_duplicates(),
    ensures
        with_resource(resources, resource).no_duplicates(),
        with_resource(resources, resource).contains(resource),
        forall|r: (BranchId, Seq<char>)|
            resources.contains(r) ==> #[trigger] with_resource(resources, resource).contains(r),
{
    let after = with_resource(resources, resource);
    if !resources.contains(resource) {
        assert(after[resources.len() as int] == resource);
        assert forall|r: (BranchId, Seq<char>)| resources.contains(r) implies
            #[trigger] after.contains(r) by {
            let i = resources.index_of(r);
            assert(after[i] == r);
        }
    }
}

/// A forced release without paths releases every lock that is held, once, and nothing
/// else; without force nothing is released.
pub proof fn law_forced_release_takes_every_lock(
    held: Seq<LockData>,
    branch: BranchId,
    no_paths: Seq<ReleasePath>,
)
    requires
        no_paths.len() == 0,
    ensures
        released_resources(no_paths, held, true, branch) is Ok,
        released_resources(no_paths, held, false, branch) is Ok,
        released_resources(no_paths, held, false, branch)->Ok_0.len() == 0,
        ({
            let resources = released_resources(no_paths, held, true, branch)->Ok_0;
            &&& resources.no_duplicates()
            &&& forall|i: int|
                0 <= i < held.len() ==> resources.contains(
                    (branch, (#[trigger] held[i]).resource.description@),
                )
            &&& forall|n: int|
                0 <= n < resources.len() ==> exists|i: int|
                    0 <= i < held.len() && #[trigger] resources[n] == (
                        branch,
                        (#[trigger] held[i]).resource.description@,
                    )
        }),
    decreases held.len(),
{
    if held.len() > 0 {
        let earlier = held.drop_last();
        let last = held.len() - 1;
        law_forced_release_takes_every_lock(earlier, branch, no_paths);
        let before = resources_of_locks(earlier, branch);
        let resources = resources_of_locks(held, branch);
        lemma_with_resource(before, (branch, held.last().resource.description@));
        assert forall|i: int| 0 <= i < held.len() implies resources.contains(
            (branch, (#[trigger] held[i]).resource.description@),
        ) by {
            if i < last {
                assert(earlier[i] == held[i]);
            }
        }
        assert forall|n: int| 0 <= n < resources.len() implies exists|i: int|
            0 <= i < held.len() && #[trigger] resources[n] == (
                branch,
                (#[trigger] held[i]).resource.description@,
            ) by {
            if n < before.len() {
                assert(resources[n] == before[n]);
                let i = choose|i: int|
                    0 <= i < earlier.len() && before[n] == (
                        branch,
                        (#[trigger] earlier[i]).resource.description@,
                    );
                assert(held[i] == earlier[i]);
            } else {
                assert(held[last].resource.description@ == held.last().resource.description@);
            }
        }
    }
}

/// The paths that some batches and more released are those of both, and every resource
/// of a batch that succeeded is among them.
pub proof fn law_released_paths_are_all_paths(
    batches: Seq<ReleaseBatch>,
    more: Seq<ReleaseBatch>,
    resources: Vec<LockResource>,
)
    ensures
        released_paths(batches + more) == released_paths(batches) + released_paths(more),
        released_paths(seq![ReleaseBatch::Released(resources)]) == resources@.map_values(
            |resource: LockResource| resource.description@,
        ),
        released_paths(seq![ReleaseBatch::Failed]).len() == 0,
    decreases more.len(),
{
    if more.len() > 0 {
        law_released_paths_are_all_paths(batches, more.drop_last(), resources);
        assert((batches + more).drop_last() =~= batches + more.drop_last());
    } else {
        assert(batches + more =~= batches);
    }
    assert(released_paths(batches + more) =~= released_paths(batches) + released_paths(more));
    reveal_with_fuel(released_paths, 2);
    let one = seq![ReleaseBatch::Released(resources)];
    assert(one.drop_last() =~= Seq::empty());
    assert(released_paths(one) =~= resources@.map_values(
        |resource: LockResource| resource.description@,
    ));
    let none = seq![ReleaseBatch::Failed];
    assert(none.drop_last() =~= Seq::empty());
}

/// Requests are sent exactly where there is something to release.
pub proof fn law_requests_are_sent_for_resources(resources: Seq<LockResource>, size: nat)
    requires
        size > 0,
    ensures
        in_batches(resources, size).len() == 0 <==> resources.len() == 0,
{
}

/// What came of releasing a batch of locks.
pub enum ReleaseBatch {
    Released(Vec<LockResource>),
    Failed,
}

/// The paths that batches released, one batch after the other.
pub open spec fn released_paths(batches: Seq<ReleaseBatch>) -> Seq<Seq<char>>
    decreases batches.len(),
{
    if batches.len() == 0 {
        Seq::empty()
    } else {
        let before = released_paths(batches.drop_last());
        match batches.last() {
            ReleaseBatch::Released(resources) => before + resources@.map_values(
                |resource: LockResource| resource.description@,
            ),
            ReleaseBatch::Failed => before,
        }
    }
}

/// A batch succeeded.
pub open spec fn any_released(batches: Seq<ReleaseBatch>) -> bool {
    exists|i: int| 0 <= i < batches.len() && (#[trigger] batches[i]) is Released
}

/// What releasing locks is reported as.
#[derive(Debug)]
pub enum ReleaseReport {
    /// There was nothing to release.
    Nothing,
    /// There was no matching lock.
    NotFound(LoreLockFileReleaseNotFoundEventData),
    /// The released paths, sorted.
    Released(Vec<LoreLockFileReleaseEventData>),
}

fn collect_released(batches: &Vec<ReleaseBatch>) -> (collected: (Vec<String>, bool))
    ensures
        views(collected.0@) == released_paths(batches@),
        collected.1 == any_released(batches@),
{
    let mut paths: Vec<String> = Vec::new();
    let mut any = false;
    let mut i: usize = 0;
    assert(batches@.take(0) =~= Seq::empty());
    assert(views(paths@) =~= Seq::empty());
    while i < batches.len()
        invariant
            i <= batches@.len(),
            views(paths@) == released_paths(batches@.take(i as int)),
            any <==> exists|j: int| 0 <= j < i && (#[trigger] batches@[j]) is Released,
        decreases batches@.len() - i,
    {
        assert(batches@.take(i + 1).drop_last() =~= batches@.take(i as int));
        assert(batches@.take(i + 1).last() == batches@[i as int]);
        match &batches[i] {
            ReleaseBatch::Released(resources) => {
                any = true;
                assert(batches@[i as int] is Released);
                let ghost before = views(paths@);
                let ghost found = resources@.map_values(
                    |resource: LockResource| resource.description@,
                );
                let mut j: usize = 0;
                assert(before + found.take(0) =~= before);
                while j < resources.len()
                    invariant
                        j <= resources@.len(),
                        found == resources@.map_values(
                            |resource: LockResource| resource.description@,
                        ),
                        views(paths@) == before + found.take(j as int),
                    decreases resources@.len() - j,
                {
                    let ghost listed = views(paths@);
                    paths.push(resources[j].description.clone());
                    j = j + 1;
                    assert(views(paths@) =~= listed.push(found[j - 1]));
                    assert(before + found.take(j as int) =~= (before + found.take(j - 1)).push(
                        found[j - 1],
                    ));
                }
                assert(found.take(j as int) =~= found);
            },
            ReleaseBatch::Failed => {},
        }
        i = i + 1;
    }
    assert(batches@.take(i as int) =~= batches@);
    (paths, any)
}

/// Reports the outcome of releasing locks in batches. A batch that failed is
/// passed over as long as another succeeded. Without any batch there was nothing to
/// release, which is no failure.
pub fn release(batches: &Vec<ReleaseBatch>, task_failed: bool) -> (result: Result<
    ReleaseReport,
    ReleaseError,
>)
    ensures
        ({
            let paths = released_paths(batches@);
            &&& result is Ok <==> !task_failed && (batches@.len() == 0 || any_released(batches@))
            &&& result matches Ok(report) ==> {
                &&& report is Nothing <==> batches@.len() == 0
                &&& report is NotFound <==> batches@.len() > 0 && paths.len() == 0
                &&& report matches ReleaseReport::NotFound(event) ==> event.unused == 0
                &&& report matches ReleaseReport::Released(events) ==> {
                    let order = sorted_positions(paths, paths.len());
                    &&& events@.len() == paths.len()
                    &&& forall|i: int|
                        0 <= i < events@.len() ==> (#[trigger] events@[i]).path@ == paths[order[i]]
                }
            }
            &&& result matches Err(e) ==> {
                &&& e.kind == ErrorKind::Internal
                &&& e.detail@ == if task_failed {
                    "Failed executing batch task"@
                } else {
                    "Failed to release the lock"@
                }
            }
        }),
{
    if task_failed {
        return Err(LockError::of(ErrorKind::Internal, "Failed executing batch task"));
    }
    if batches.len() == 0 {
        return Ok(ReleaseReport::Nothing);
    }
    let (paths, any) = collect_released(batches);
    if !any {
        return Err(LockError::of(ErrorKind::Internal, "Failed to release the lock"));
    }
    if paths.len() == 0 {
        return Ok(ReleaseReport::NotFound(LoreLockFileReleaseNotFoundEventData { unused: 0 }));
    }
    let order = sort_by_text(&paths);
    let mut events: Vec<LoreLockFileReleaseEventData> = Vec::new();
    let ghost sorted = order@.map_values(|p: usize| p as int);
    let mut i: usize = 0;
    while i < order.len()
        invariant
            i <= order@.len(),
            order@.len() == paths@.len(),
            sorted == order@.map_values(|p: usize| p as int),
            events@.len() == i,
            forall|j: int| 0 <= j < order@.len() ==> #[trigger] order@[j] < paths@.len(),
            forall|j: int|
                0 <= j < i ==> (#[trigger] events@[j]).path@ == views(paths@)[sorted[j]],
        decreases order@.len() - i,
    {
        let position = order[i];
        events.push(LoreLockFileReleaseEventData { path: paths[position].clone() });
        assert(sorted[i as int] == position as int);
        i = i + 1;
    }
    Ok(ReleaseReport::Released(events))
}

} // verus!
