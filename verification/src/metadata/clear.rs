//! Clearing the metadata of a revision or of a file.

use vstd::prelude::*;
use vstd::string::*;

use crate::errors::ErrorKind;
use crate::metadata::MetadataErrors;
use crate::node::NodeID;
use crate::state::RevisionState;
use crate::types::lemma_zero_hash_unique;
use crate::types::ContentHash;

verus! {

/// Data for an event reporting that revision metadata was cleared.
#[derive(Clone, Copy, Debug)]
pub struct LoreMetadataClearRevisionEventData {
    /// Hash of the revision whose metadata was cleared.
    pub revision: ContentHash,
}

/// Data for an event reporting that a file's metadata was cleared.
#[derive(Debug)]
pub struct LoreMetadataClearFileEventData {
    /// Path of the file whose metadata was cleared.
    pub path: String,
}

/// Clears the metadata of a revision.
pub fn clear_revision(state: &mut RevisionState)
    ensures
        final(state).metadata_hash.is_zero(),
        final(state).revision == old(state).revision,
        final(state).revision_number == old(state).revision_number,
        final(state).parent_self == old(state).parent_self,
        final(state).parent_other == old(state).parent_other,
        final(state).tree == old(state).tree,
        final(state).links == old(state).links,
{
    state.metadata_hash = ContentHash::default();
}

/// The metadata of one node are cleared, and no others.
pub open spec fn is_cleared(before: Seq<ContentHash>, after: Seq<ContentHash>, node: NodeID) -> bool {
    &&& after.len() == before.len()
    &&& forall|i: int|
        0 <= i < before.len() ==> if i == node {
            (#[trigger] after[i]).is_zero()
        } else {
            after[i] == before[i]
        }
}

/// Clears the metadata of a file, given its node where it was found, in the
/// metadata hashes of all nodes.
pub fn clear_file(path: &str, node: Option<NodeID>, metadata: &mut Vec<ContentHash>) -> (result:
    Result<(), MetadataErrors>)
    requires
        node is Some ==> node->0 < old(metadata)@.len(),
    ensures
        result is Ok <==> node is Some,
        result is Ok ==> is_cleared(old(metadata)@, final(metadata)@, node->0),
        result matches Err(e) ==> {
            &&& e.kind == ErrorKind::FileNotFound && e.detail@ == path@
            &&& final(metadata)@ == old(metadata)@
        },
{
    match node {
        Some(id) => {
            metadata.set(id as usize, ContentHash::default());
            Ok(())
        },
        None => Err(
            MetadataErrors { kind: ErrorKind::FileNotFound, detail: path.to_owned() },
        ),
    }
}

/// Makes a changed state the next staged one: it gets no number yet, and its
/// parent is the current revision. Where it was made from the current revision
/// nothing is merged into it. Tells whether the state must be written.
pub fn finish_clear(
    state: &mut RevisionState,
    current: ContentHash,
    source: ContentHash,
    dirty: bool,
) -> (write: bool)
    ensures
        write == dirty,
        !dirty ==> *final(state) == *old(state),
        dirty ==> {
            &&& final(state).revision_number == 0
            &&& final(state).parent_self == current
            &&& if source == current {
                final(state).parent_other.is_zero()
            } else {
                final(state).parent_other == old(state).parent_other
            }
        },
        final(state).revision == old(state).revision,
        final(state).metadata_hash == old(state).metadata_hash,
        final(state).tree == old(state).tree,
        final(state).links == old(state).links,
{
    if dirty {
        state.revision_number = 0;
        state.parent_self = current;
        if source == current {
            state.parent_other = ContentHash::default();
        }
    }
    dirty
}

/// Clearing what is cleared changes nothing.
pub proof fn law_clearing_twice_is_clearing_once(
    before: Seq<ContentHash>,
    once: Seq<ContentHash>,
    twice: Seq<ContentHash>,
    node: NodeID,
)
    requires
        is_cleared(before, once, node),
        is_cleared(once, twice, node),
    ensures
        twice == once,
{
    assert forall|i: int| 0 <= i < once.len() implies #[trigger] twice[i] == once[i] by {
        if i == node {
            assert(once[i].is_zero() && twice[i].is_zero());
            lemma_zero_hash_unique(twice[i], once[i]);
        }
    }
    assert(twice =~= once);
}

} // verus!
