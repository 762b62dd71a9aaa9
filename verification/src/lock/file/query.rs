//! Querying locks.

use vstd::prelude::*;
use vstd::string::*;

use crate::errors::ErrorKind;
use crate::lock::lock_paths;
use crate::lock::sort_locks;
use crate::lock::LockData;
use crate::lock::LockError;
use crate::order::sorted_positions;
use crate::types::BranchId;

verus! {

/// Options of a lock query.
#[derive(Debug)]
pub struct QueryOptions {
    pub branch: String,
    pub owner: String,
    pub path: String,
}

/// Failure of a lock query.
pub type QueryError = LockError;

/// Data for an event that marks the start of a lock query result.
#[derive(Clone, Copy, Debug, PartialEq, Eq, Structural)]
pub struct LoreLockFileQueryBeginEventData {
    /// Number of query entries that follow.
    pub count: u64,
}

/// Data for an event reporting a single lock matched by a query.
#[derive(Debug)]
pub struct LoreLockFileQueryEventData {
    /// Identifier of the branch the lock belongs to.
    pub branch: BranchId,
    /// Path the lock applies to.
    pub path: String,
    /// Identifier of the user that holds the lock.
    pub owner: String,
    /// Timestamp recorded when the lock was acquired.
    pub locked_at: u64,
}

/// The branch that a query is limited to: the named one, which must be found, or
/// none.
pub fn query_branch(name: &str, resolved: Option<BranchId>) -> (result: Result<
    Option<BranchId>,
    QueryError,
>)
    ensures
        result is Ok <==> name@.len() == 0 || resolved is Some,
        result matches Ok(branch) ==> branch == if name@.len() == 0 {
            None
        } else {
            resolved
        },
        result matches Err(e) ==> e.kind == ErrorKind::Internal && e.detail@ == "Invalid branch"@,
{
    if name.is_empty() {
        return Ok(None);
    }
    match resolved {
        Some(branch) => Ok(Some(branch)),
        None => Err(LockError::of(ErrorKind::Internal, "Invalid branch")),
    }
}

/// The path that a query is limited to.
#[derive(Debug)]
pub enum QueryPath {
    /// Any path.
    Any,
    /// This path, relative to the repository.
    Only(String),
    /// The filter excludes the path, and nothing is queried.
    Excluded,
}

/// The path that a query is limited to. A path that the filter excludes is
/// queried only by force.
pub fn query_path(path: &str, relative: &str, force: bool, excluded: bool) -> (limit: QueryPath)
    ensures
        match limit {
            QueryPath::Any => path@.len() == 0,
            QueryPath::Only(only) => path@.len() > 0 && (force || !excluded) && only@ == relative@,
            QueryPath::Excluded => path@.len() > 0 && !force && excluded,
        },
{
    if path.is_empty() {
        return QueryPath::Any;
    }
    if !force && excluded {
        return QueryPath::Excluded;
    }
    QueryPath::Only(relative.to_owned())
}

/// An event reports a lock.
pub open spec fn reports_lock(event: LoreLockFileQueryEventData, lock: LockData) -> bool {
    &&& event.branch == lock.resource.branch
    &&& event.path@ == lock.resource.description@
    &&& event.owner@ == lock.owner@
    &&& event.locked_at == lock.locked_at
}

/// Reports the locks that a query found, sorted by path.
pub fn query(locks: &Vec<LockData>) -> (report: (
    LoreLockFileQueryBeginEventData,
    Vec<LoreLockFileQueryEventData>,
))
    ensures
        report.0.count == locks@.len(),
        report.1@.len() == locks@.len(),
        ({
            let order = sorted_positions(lock_paths(locks@), locks@.len());
            forall|i: int|
                0 <= i < locks@.len() ==> reports_lock(#[trigger] report.1@[i], locks@[order[i]])
        }),
{
    let order = sort_locks(locks);
    let ghost sorted = order@.map_values(|p: usize| p as int);
    let mut events: Vec<LoreLockFileQueryEventData> = Vec::new();
    let mut i: usize = 0;
    while i < order.len()
        invariant
            i <= order@.len(),
            order@.len() == locks@.len(),
            sorted == order@.map_values(|p: usize| p as int),
            events@.len() == i,
            forall|j: int| 0 <= j < order@.len() ==> #[trigger] order@[j] < locks@.len(),
            forall|j: int|
                0 <= j < i ==> reports_lock(#[trigger] events@[j], locks@[sorted[j]]),
        decreases order@.len() - i,
    {
        let lock = &locks[order[i]];
        assert(sorted[i as int] == order@[i as int] as int);
        events.push(
            LoreLockFileQueryEventData {
                branch: lock.resource.branch,
                path: lock.resource.description.clone(),
                owner: lock.owner.clone(),
                locked_at: lock.locked_at,
            },
        );
        i = i + 1;
    }
    (LoreLockFileQueryBeginEventData { count: locks.len() as u64 }, events)
}

} // verus!
