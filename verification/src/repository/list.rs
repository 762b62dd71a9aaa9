//! The repositories that a remote has.

use vstd::prelude::*;
use vstd::string::*;

use crate::types::RepositoryId;

verus! {

/// One entry in a repository listing.
#[derive(Debug)]
pub struct LoreRepositoryListEntryEventData {
    /// Repository identifier.
    pub id: RepositoryId,
    /// Repository name.
    pub name: String,
}

/// A repository that a remote has.
#[derive(Debug)]
pub struct RemoteRepository {
    pub id: RepositoryId,
    pub name: String,
}

/// Reports every repository that a remote listed, in its order.
pub fn list(repositories: &Vec<RemoteRepository>) -> (events: Vec<LoreRepositoryListEntryEventData>)
    ensures
        events@.len() == repositories@.len(),
        forall|i: int|
            0 <= i < events@.len() ==> (#[trigger] events@[i]).id == repositories@[i].id
                && events@[i].name@ == repositories@[i].name@,
{
    let mut events: Vec<LoreRepositoryListEntryEventData> = Vec::new();
    let mut i: usize = 0;
    while i < repositories.len()
        invariant
            i <= repositories@.len(),
            events@.len() == i,
            forall|j: int|
                0 <= j < i ==> (#[trigger] events@[j]).id == repositories@[j].id
                    && events@[j].name@ == repositories@[j].name@,
        decreases repositories@.len() - i,
    {
        let name = repositories[i].name.clone();
        events.push(LoreRepositoryListEntryEventData { id: repositories[i].id, name });
        i = i + 1;
    }
    events
}

} // verus!
