//! The locks of given paths.

use vstd::prelude::*;
use vstd::string::*;

use crate::errors::ErrorKind;
use crate::lock::lock_paths;
use crate::lock::sort_locks;
use crate::lock::LockData;
use crate::lock::LockError;
use crate::lock::LockResource;
use crate::order::sorted_positions;
use crate::path::emit_path_ignore;
use crate::path::LorePathIgnoreEventData;

verus! {

/// Options of a lock status.
#[derive(Debug)]
pub struct StatusOptions {
    pub paths: Vec<String>,
    pub branch: String,
}

/// Failure of a lock status.
pub type StatusError = LockError;

/// Data for an event that marks the start of a lock status report.
#[derive(Clone, Copy, Debug, PartialEq, Eq, Structural)]
pub struct LoreLockFileStatusBeginEventData {
    /// Number of status entries that follow.
    pub count: u64,
}

/// Data for an event reporting the lock status of a single path.
#[derive(Debug)]
pub struct LoreLockFileStatusEventData {
    /// Path the status applies to.
    pub path: String,
    /// Identifier of the user that holds the lock.
    pub owner: String,
    /// Timestamp recorded when the lock was acquired.
    pub locked_at: u64,
}

/// What becomes of a path whose lock is asked for.
#[derive(Debug)]
pub enum StatusPath {
    /// Its lock is looked up.
    Include,
    /// The filter excludes it.
    Skip,
    /// It is not in the repository, which is reported.
    Ignore(LorePathIgnoreEventData),
}

/// Tells whether the lock of a path is looked up. A path that the filter
/// excludes is, only by force, and one that is not in the repository never.
pub fn status_path(path: &str, force: bool, excluded: bool, in_repository: bool) -> (step: StatusPath)
    ensures
        match step {
            StatusPath::Include => (force || !excluded) && in_repository,
            StatusPath::Skip => !force && excluded,
            StatusPath::Ignore(event) => (force || !excluded) && !in_repository && event.path@
                == path@,
        },
{
    if !force && excluded {
        return StatusPath::Skip;
    }
    if !in_repository {
        return StatusPath::Ignore(emit_path_ignore(path));
    }
    StatusPath::Include
}

/// What looking up a batch of locks gave.
pub enum StatusBatch {
    Found(Vec<LockData>),
    Failed,
}

/// Every batch succeeded.
pub open spec fn all_found(batches: Seq<StatusBatch>) -> bool {
    forall|i: int| 0 <= i < batches.len() ==> (#[trigger] batches[i]) is Found
}

/// The locks of batches, one batch after the other.
pub open spec fn found_locks(batches: Seq<StatusBatch>) -> Seq<LockData>
    decreases batches.len(),
{
    if batches.len() == 0 {
        Seq::empty()
    } else {
        let before = found_locks(batches.drop_last());
        match batches.last() {
            StatusBatch::Found(locks) => before + locks@,
            StatusBatch::Failed => before,
        }
    }
}

/// An event reports a lock.
pub open spec fn reports_lock(event: LoreLockFileStatusEventData, lock: LockData) -> bool {
    &&& event.path@ == lock.resource.description@
    &&& event.owner@ == lock.owner@
    &&& event.locked_at == lock.locked_at
}

fn copy_lock(lock: &LockData) -> (copy: LockData)
    ensures
        same_lock(copy, *lock),
{
    LockData {
        resource: LockResource {
            branch: lock.resource.branch,
            description: lock.resource.description.clone(),
        },
        owner: lock.owner.clone(),
        locked_at: lock.locked_at,
    }
}

/// Two locks are the same.
pub open spec fn same_lock(a: LockData, b: LockData) -> bool {
    &&& a.resource.branch == b.resource.branch
    &&& a.resource.description@ == b.resource.description@
    &&& a.owner@ == b.owner@
    &&& a.locked_at == b.locked_at
}

fn collect_locks(batches: &Vec<StatusBatch>) -> (collected: (Vec<LockData>, bool))
    ensures
        collected.0@.len() == found_locks(batches@).len(),
        forall|i: int|
            0 <= i < collected.0@.len() ==> same_lock(
                #[trigger] collected.0@[i],
                found_locks(batches@)[i],
            ),
        collected.1 == all_found(batches@),
{
    let mut locks: Vec<LockData> = Vec::new();
    let mut all = true;
    let mut i: usize = 0;
    assert(batches@.take(0) =~= Seq::empty());
    while i < batches.len()
        invariant
            i <= batches@.len(),
            locks@.len() == found_locks(batches@.take(i as int)).len(),
            forall|j: int|
                0 <= j < locks@.len() ==> same_lock(
                    #[trigger] locks@[j],
                    found_locks(batches@.take(i as int))[j],
                ),
            all <==> forall|j: int| 0 <= j < i ==> (#[trigger] batches@[j]) is Found,
        decreases batches@.len() - i,
    {
        assert(batches@.take(i + 1).drop_last() =~= batches@.take(i as int));
        assert(batches@.take(i + 1).last() == batches@[i as int]);
        match &batches[i] {
            StatusBatch::Found(found) => {
                let ghost before = found_locks(batches@.take(i as int));
                let mut j: usize = 0;
                while j < found.len()
                    invariant
                        j <= found@.len(),
                        locks@.len() == before.len() + j,
                        forall|k: int|
                            0 <= k < locks@.len() ==> same_lock(
                                #[trigger] locks@[k],
                                (before + found@)[k],
                            ),
                    decreases found@.len() - j,
                {
                    locks.push(copy_lock(&found[j]));
                    j = j + 1;
                }
            },
            StatusBatch::Failed => {
                all = false;
                assert(!(batches@[i as int] is Found));
            },
        }
        i = i + 1;
    }
    assert(batches@.take(i as int) =~= batches@);
    (locks, all)
}

/// Reports the locks that were looked up in batches, sorted by path. Every batch
/// must have succeeded.
pub fn status(batches: &Vec<StatusBatch>, task_failed: bool) -> (result: Result<
    (LoreLockFileStatusBeginEventData, Vec<LoreLockFileStatusEventData>),
    StatusError,
>)
    ensures
        ({
            let locks = found_locks(batches@);
            let order = sorted_positions(lock_paths(locks), locks.len());
            &&& result is Ok <==> !task_failed && all_found(batches@)
            &&& result matches Ok(report) ==> {
                &&& report.0.count == locks.len()
                &&& report.1@.len() == locks.len()
                &&& forall|i: int|
                    0 <= i < locks.len() ==> reports_lock(#[trigger] report.1@[i], locks[order[i]])
            }
            &&& result matches Err(e) ==> {
                &&& e.kind == ErrorKind::Internal
                &&& e.detail@ == if task_failed {
                    "Failed executing batch task"@
                } else {
                    "Failed to fetch lock status"@
                }
            }
        }),
{
    if task_failed {
        return Err(LockError::of(ErrorKind::Internal, "Failed executing batch task"));
    }
    let (locks, all) = collect_locks(batches);
    if !all {
        return Err(LockError::of(ErrorKind::Internal, "Failed to fetch lock status"));
    }
    let ghost wanted = found_locks(batches@);
    assert(lock_paths(locks@) =~= lock_paths(wanted));
    let order = sort_locks(&locks);
    let ghost sorted = order@.map_values(|p: usize| p as int);
    let mut events: Vec<LoreLockFileStatusEventData> = Vec::new();
    let mut i: usize = 0;
    while i < order.len()
        invariant
            i <= order@.len(),
            order@.len() == locks@.len(),
            locks@.len() == wanted.len(),
            sorted == order@.map_values(|p: usize| p as int),
            events@.len() == i,
            forall|j: int| 0 <= j < locks@.len() ==> same_lock(#[trigger] locks@[j], wanted[j]),
            forall|j: int| 0 <= j < order@.len() ==> #[trigger] order@[j] < locks@.len(),
            forall|j: int| 0 <= j < i ==> reports_lock(#[trigger] events@[j], wanted[sorted[j]]),
        decreases order@.len() - i,
    {
        let position = order[i];
        let lock = &locks[position];
        assert(same_lock(locks@[position as int], wanted[position as int]));
        assert(sorted[i as int] == position as int);
        events.push(
            LoreLockFileStatusEventData {
                path: lock.resource.description.clone(),
                owner: lock.owner.clone(),
                locked_at: lock.locked_at,
            },
        );
        i = i + 1;
    }
    Ok((LoreLockFileStatusBeginEventData { count: locks.len() as u64 }, events))
}

/// The locks of some batches and more are those of both, and a batch that succeeded
/// has all of its locks.
pub proof fn law_found_locks_are_all_locks(
    batches: Seq<StatusBatch>,
    more: Seq<StatusBatch>,
    locks: Vec<LockData>,
)
    ensures
        found_locks(batches + more) == found_locks(batches) + found_locks(more),
        found_locks(seq![StatusBatch::Found(locks)]) == locks@,
        found_locks(seq![StatusBatch::Failed]).len() == 0,
    decreases more.len(),
{
    if more.len() > 0 {
        law_found_locks_are_all_locks(batches, more.drop_last(), locks);
        assert((batches + more).drop_last() =~= batches + more.drop_last());
    } else {
        assert(batches + more =~= batches);
    }
    assert(found_locks(batches + more) =~= found_locks(batches) + found_locks(more));
    reveal_with_fuel(found_locks, 2);
    let one = seq![StatusBatch::Found(locks)];
    assert(one.drop_last() =~= Seq::empty());
    assert(found_locks(one) =~= locks@);
    let none = seq![StatusBatch::Failed];
    assert(none.drop_last() =~= Seq::empty());
}

} // verus!
