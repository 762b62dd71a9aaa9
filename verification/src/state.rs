//! A revision state, as far as commands read and edit it: its place in the
//! history, its node tree and its link registry.

use vstd::prelude::*;

use crate::errors::ErrorKind;
use crate::node::NodeID;
use crate::node::NodeTree;
use crate::types::BranchId;
use crate::types::ContentHash;
use crate::types::RepositoryId;

verus! {

/// Registry entry of a link.
#[derive(Clone, Copy, Debug)]
pub struct LinkReference {
    /// The repository the link points to.
    pub repository: RepositoryId,
    /// The branch the link is pinned to.
    pub branch: BranchId,
    /// The revision the link is pinned to.
    pub signature: ContentHash,
    /// The link node in the parent repository.
    pub local_node: NodeID,
    pub flags: u32,
}

/// A revision state.
pub struct RevisionState {
    pub revision: ContentHash,
    pub revision_number: u64,
    pub parent_self: ContentHash,
    /// The merged-in revision, zero when there is none.
    pub parent_other: ContentHash,
    pub metadata_hash: ContentHash,
    pub tree: NodeTree,
    pub links: Vec<LinkReference>,
}

/// The revision that a command works on: the staged one, or the current one where
/// nothing is staged.
pub open spec fn spec_staged_or_current(staged: Option<ContentHash>, current: ContentHash) -> ContentHash {
    match staged {
        Some(revision) => revision,
        None => current,
    }
}

/// The revision that a command works on: the staged one, or the current one where
/// nothing is staged.
#[verifier::when_used_as_spec(spec_staged_or_current)]
pub fn staged_or_current(staged: Option<ContentHash>, current: ContentHash) -> (revision: ContentHash)
    ensures
        revision == spec_staged_or_current(staged, current),
{
    match staged {
        Some(revision) => revision,
        None => current,
    }
}

/// Position of the first registry entry of a link, or the number of entries.
pub open spec fn link_position(
    links: Seq<LinkReference>,
    repository: RepositoryId,
    node: NodeID,
) -> int
    decreases links.len(),
{
    if links.len() == 0 || (links[0].repository == repository && links[0].local_node == node) {
        0
    } else {
        1 + link_position(links.drop_first(), repository, node)
    }
}

/// A link has a registry entry.
pub open spec fn has_link(links: Seq<LinkReference>, repository: RepositoryId, node: NodeID) -> bool {
    link_position(links, repository, node) < links.len()
}

/// The first registry entry of a link is the first with its repository and
/// node.
pub proof fn lemma_link_position(links: Seq<LinkReference>, repository: RepositoryId, node: NodeID)
    ensures
        0 <= link_position(links, repository, node) <= links.len(),
        forall|i: int|
            0 <= i < link_position(links, repository, node) ==> !((#[trigger] links[i]).repository
                == repository && links[i].local_node == node),
        has_link(links, repository, node) ==> {
            let found = links[link_position(links, repository, node)];
            found.repository == repository && found.local_node == node
        },
    decreases links.len(),
{
    if links.len() > 0 && !(links[0].repository == repository && links[0].local_node == node) {
        let rest = links.drop_first();
        lemma_link_position(rest, repository, node);
        assert forall|i: int| 0 <= i < link_position(links, repository, node) implies !((
        #[trigger] links[i]).repository == repository && links[i].local_node == node) by {
            if i > 0 {
                assert(links[i] == rest[i - 1]);
            }
        }
    }
}

/// The index of the first registry entry of a link, or the number of entries.
fn find_link(links: &Vec<LinkReference>, repository: RepositoryId, node: NodeID) -> (at: usize)
    ensures
        at == link_position(links@, repository, node),
        at <= links@.len(),
{
    proof {
        lemma_link_position(links@, repository, node);
    }
    let ghost found = link_position(links@, repository, node);
    let mut i: usize = 0;
    while i < links.len()
        invariant
            i <= found <= links@.len(),
            found == link_position(links@, repository, node),
            found < links@.len() ==> links@[found].repository == repository
                && links@[found].local_node == node,
            forall|j: int|
                0 <= j < found ==> !((#[trigger] links@[j]).repository == repository
                    && links@[j].local_node == node),
        decreases links@.len() - i,
    {
        if links[i].repository == repository && links[i].local_node == node {
            return i;
        }
        i = i + 1;
    }
    i
}

/// What a revision state holds besides its tree and link registry, as contracts
/// speak of it.
pub struct HeaderView {
    pub revision: ContentHash,
    pub revision_number: u64,
    pub parent_self: ContentHash,
    pub parent_other: ContentHash,
    pub metadata_hash: ContentHash,
}

impl RevisionState {
    /// Everything but the tree and the link registry.
    pub open spec fn header(&self) -> HeaderView {
        HeaderView {
            revision: self.revision,
            revision_number: self.revision_number,
            parent_self: self.parent_self,
            parent_other: self.parent_other,
            metadata_hash: self.metadata_hash,
        }
    }

    /// Everything but the tree and the link registry is the same.
    pub open spec fn same_header(&self, other: RevisionState) -> bool {
        self.header() == other.header()
    }

    /// The registry entry of a link.
    pub fn link_find(&self, repository: RepositoryId, node: NodeID) -> (result: Result<
        LinkReference,
        ErrorKind,
    >)
        ensures
            result is Ok <==> has_link(self.links@, repository, node),
            result matches Ok(found) ==> found == self.links@[link_position(
                self.links@,
                repository,
                node,
            )],
            result matches Err(kind) ==> kind == ErrorKind::LinkNotFound,
    {
        let at = find_link(&self.links, repository, node);
        if at < self.links.len() {
            Ok(self.links[at])
        } else {
            Err(ErrorKind::LinkNotFound)
        }
    }

    /// Adds a registry entry.
    pub fn link_add(&mut self, reference: LinkReference)
        ensures
            final(self).links@ == old(self).links@.push(reference),
            final(self).same_header(*old(self)),
            final(self).tree@ == old(self).tree@,
            final(self).tree.modified,
    {
        self.links.push(reference);
        self.tree.modified = true;
    }

    /// Removes the registry entry of a link.
    pub fn link_remove(&mut self, repository: RepositoryId, node: NodeID) -> (result: Result<
        (),
        ErrorKind,
    >)
        ensures
            result is Ok <==> has_link(old(self).links@, repository, node),
            result is Ok ==> final(self).links@ == old(self).links@.remove(
                link_position(old(self).links@, repository, node),
            ) && final(self).tree.modified,
            result matches Err(kind) ==> kind == ErrorKind::LinkNotFound && *final(self) == *old(
                self,
            ),
            final(self).same_header(*old(self)),
            final(self).tree@ == old(self).tree@,
    {
        let at = find_link(&self.links, repository, node);
        if at < self.links.len() {
            self.links.remove(at);
            self.tree.modified = true;
            Ok(())
        } else {
            Err(ErrorKind::LinkNotFound)
        }
    }

    /// Pins a link to another branch and revision.
    pub fn link_update(
        &mut self,
        repository: RepositoryId,
        branch: BranchId,
        signature: ContentHash,
        node: NodeID,
    ) -> (result: Result<(), ErrorKind>)
        ensures
            result is Ok <==> has_link(old(self).links@, repository, node),
            result is Ok ==> {
                let at = link_position(old(self).links@, repository, node);
                final(self).links@ == old(self).links@.update(
                    at,
                    LinkReference { branch, signature, ..old(self).links@[at] },
                )
            },
            result matches Err(kind) ==> kind == ErrorKind::LinkNotFound && *final(self) == *old(
                self,
            ),
            final(self).same_header(*old(self)),
            final(self).tree@ == old(self).tree@,
            result is Ok ==> final(self).tree.modified,
    {
        let at = find_link(&self.links, repository, node);
        if at < self.links.len() {
            let mut reference = self.links[at];
            reference.branch = branch;
            reference.signature = signature;
            self.links.set(at, reference);
            self.tree.modified = true;
            Ok(())
        } else {
            Err(ErrorKind::LinkNotFound)
        }
    }
}

} // verus!
