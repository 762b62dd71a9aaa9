//! Locks on files of a repository.

pub mod file;

use vstd::prelude::*;
use vstd::string::*;

use crate::errors::ErrorKind;
use crate::errors::LoreError;
use crate::order::in_batches;
use crate::order::sort_by_text;
use crate::order::sorted_positions;
use crate::text::text_equal;
use crate::text::views;
use crate::types::BranchId;

verus! {

/// A path of a branch that can be locked.
#[derive(Debug)]
pub struct LockResource {
    pub branch: BranchId,
    /// The path.
    pub description: String,
}

/// A lock.
#[derive(Debug)]
pub struct LockData {
    pub resource: LockResource,
    /// Identifier of the user that holds the lock.
    pub owner: String,
    /// When the lock was acquired.
    pub locked_at: u64,
}

/// A resource, as contracts speak of it.
pub open spec fn resource_view(resource: LockResource) -> (BranchId, Seq<char>) {
    (resource.branch, resource.description@)
}

/// Resources, as contracts speak of them.
pub open spec fn resource_views(resources: Seq<LockResource>) -> Seq<(BranchId, Seq<char>)> {
    resources.map_values(|resource: LockResource| resource_view(resource))
}

/// Failure of a lock operation.
#[derive(Debug)]
pub struct LockError {
    pub kind: ErrorKind,
    pub detail: String,
}

impl LockError {
    /// The code reported to callers of the engine.
    pub fn translated(&self) -> (code: LoreError)
        ensures
            code == LoreError::Internal,
    {
        LoreError::Internal
    }

    /// The text of the failure.
    pub fn inner(&self) -> (text: String)
        ensures
            text@ == self.detail@,
    {
        self.detail.clone()
    }

    pub(crate) fn of(kind: ErrorKind, detail: &str) -> (error: LockError)
        ensures
            error.kind == kind,
            error.detail@ == detail@,
    {
        LockError { kind, detail: detail.to_owned() }
    }

    pub(crate) fn invalid_path(path: &str) -> (error: LockError)
        ensures
            error.kind == ErrorKind::Internal,
            error.detail@ == "Invalid path: "@ + path@,
    {
        let mut detail = "Invalid path: ".to_owned();
        detail.append(path);
        LockError { kind: ErrorKind::Internal, detail }
    }
}

/// The branch that an operation acts on: the named one, which must be found, or
/// the current one.
pub fn lock_branch(name: &str, resolved: Option<BranchId>, current: BranchId) -> (result: Result<
    BranchId,
    LockError,
>)
    ensures
        result is Ok <==> name@.len() == 0 || resolved is Some,
        result matches Ok(branch) ==> branch == if name@.len() == 0 {
            current
        } else {
            resolved->0
        },
        result matches Err(e) ==> e.kind == ErrorKind::Internal && e.detail@ == "Invalid branch"@,
{
    if name.is_empty() {
        return Ok(current);
    }
    match resolved {
        Some(branch) => Ok(branch),
        None => Err(LockError::of(ErrorKind::Internal, "Invalid branch")),
    }
}

/// The user that an operation is about: the one with the identifier, the named
/// one, which must be found, or any.
pub fn lock_owner(owner_id: &str, owner: &str, resolved: Option<String>) -> (result: Result<
    Option<String>,
    LockError,
>)
    ensures
        result is Ok <==> owner_id@.len() > 0 || owner@.len() == 0 || resolved is Some,
        result matches Ok(user) ==> {
            &&& user is Some <==> owner_id@.len() > 0 || owner@.len() > 0
            &&& user matches Some(id) ==> id@ == if owner_id@.len() > 0 {
                owner_id@
            } else {
                resolved->0@
            }
        },
        result matches Err(e) ==> e.kind == ErrorKind::Internal && e.detail@
            == "Failed to resolve user id from user name"@,
{
    if !owner_id.is_empty() {
        return Ok(Some(owner_id.to_owned()));
    }
    if owner.is_empty() {
        return Ok(None);
    }
    match resolved {
        Some(id) => Ok(Some(id)),
        None => Err(
            LockError::of(ErrorKind::Internal, "Failed to resolve user id from user name"),
        ),
    }
}

/// No resource is listed twice.
pub open spec fn are_distinct(resources: Seq<LockResource>) -> bool {
    resource_views(resources).no_duplicates()
}

/// Adds the resource of a path, unless it is listed.
pub fn add_resource(resources: &mut Vec<LockResource>, path: &str, branch: BranchId)
    requires
        are_distinct(old(resources)@),
    ensures
        are_distinct(final(resources)@),
        resource_views(final(resources)@) == if resource_views(old(resources)@).contains(
            (branch, path@),
        ) {
            resource_views(old(resources)@)
        } else {
            resource_views(old(resources)@).push((branch, path@))
        },
{
    let ghost before = resource_views(resources@);
    let mut i: usize = 0;
    while i < resources.len()
        invariant
            i <= resources@.len(),
            resources@ == old(resources)@,
            before == resource_views(resources@),
            are_distinct(resources@),
            forall|j: int| 0 <= j < i ==> #[trigger] before[j] != (branch, path@),
        decreases resources@.len() - i,
    {
        if resources[i].branch == branch && text_equal(resources[i].description.as_str(), path) {
            assert(before[i as int] == (branch, path@));
            return ;
        }
        assert(before[i as int] != (branch, path@));
        i = i + 1;
    }
    assert(!before.contains((branch, path@)));
    resources.push(LockResource { branch, description: path.to_owned() });
    assert(resource_views(resources@) =~= before.push((branch, path@)));
    let ghost after = resource_views(resources@);
    assert forall|a: int, b: int| 0 <= a < after.len() && 0 <= b < after.len() && a != b implies
        #[trigger] after[a] != #[trigger] after[b] by {
        if a < before.len() && b < before.len() {
            assert(before[a] != before[b]);
        }
    }
}

/// The resources, in batches of a size.
pub fn resource_batches(resources: Vec<LockResource>, size: usize) -> (batches: Vec<
    Vec<LockResource>,
>)
    requires
        size > 0,
    ensures
        batches@.map_values(|batch: Vec<LockResource>| batch@) == in_batches(
            resources@,
            size as nat,
        ),
{
    let mut rest = resources;
    let mut batches: Vec<Vec<LockResource>> = Vec::new();
    let ghost empty = Seq::<Seq<LockResource>>::empty();
    assert(batches@.map_values(|batch: Vec<LockResource>| batch@) =~= empty);
    assert(empty + in_batches(rest@, size as nat) =~= in_batches(rest@, size as nat));
    while rest.len() > size
        invariant
            size > 0,
            batches@.map_values(|batch: Vec<LockResource>| batch@) + in_batches(rest@, size as nat)
                == in_batches(resources@, size as nat),
        decreases rest@.len(),
    {
        let ghost before = batches@.map_values(|batch: Vec<LockResource>| batch@);
        let ghost items = rest@;
        let tail = rest.split_off(size);
        assert(rest@ =~= items.take(size as int));
        assert(tail@ =~= items.skip(size as int));
        batches.push(rest);
        assert(batches@.map_values(|batch: Vec<LockResource>| batch@) =~= before.push(
            items.take(size as int),
        ));
        rest = tail;
        assert(before + (seq![items.take(size as int)] + in_batches(rest@, size as nat))
            =~= before.push(items.take(size as int)) + in_batches(rest@, size as nat));
    }
    let ghost before = batches@.map_values(|batch: Vec<LockResource>| batch@);
    if rest.len() > 0 {
        let ghost items = rest@;
        batches.push(rest);
        assert(batches@.map_values(|batch: Vec<LockResource>| batch@) =~= before + seq![items]);
    } else {
        assert(before + empty =~= before);
    }
    batches
}

/// The paths of locks.
pub open spec fn lock_paths(locks: Seq<LockData>) -> Seq<Seq<char>> {
    locks.map_values(|lock: LockData| lock.resource.description@)
}

/// The positions of locks in the order of their paths. Locks of the same path
/// keep their order.
pub(crate) fn sort_locks(locks: &Vec<LockData>) -> (positions: Vec<usize>)
    ensures
        positions@.map_values(|p: usize| p as int) == sorted_positions(
            lock_paths(locks@),
            locks@.len(),
        ),
        positions@.len() == locks@.len(),
        forall|i: int| 0 <= i < positions@.len() ==> #[trigger] positions@[i] < locks@.len(),
{
    let mut paths: Vec<String> = Vec::new();
    let mut i: usize = 0;
    while i < locks.len()
        invariant
            i <= locks@.len(),
            paths@.len() == i,
            forall|j: int|
                0 <= j < i ==> (#[trigger] paths@[j])@ == locks@[j].resource.description@,
        decreases locks@.len() - i,
    {
        paths.push(locks[i].resource.description.clone());
        i = i + 1;
    }
    assert(views(paths@) =~= lock_paths(locks@));
    sort_by_text(&paths)
}

} // verus!
