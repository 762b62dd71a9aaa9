//! The node tree of a revision state, as far as working tree commands read and
//! edit it: node kinds, pending changes and the parent, child and sibling links.

use vstd::prelude::*;

use crate::errors::ErrorKind;
use crate::types::ContentHash;
use crate::types::RepositoryId;

verus! {

/// Identifier of a node within its tree.
pub type NodeID = u32;

/// The node that every tree starts from.
pub const ROOT_NODE: NodeID = 0;

/// Stands for "no node" in a child, sibling or parent link.
pub const INVALID_NODE: NodeID = 0xFFFF_FFFF;

/// The identifier names a node below the root.
pub open spec fn spec_is_valid_node_id(id: NodeID) -> bool {
    id != ROOT_NODE && id != INVALID_NODE
}

/// Tells whether an identifier names a node below the root.
#[verifier::when_used_as_spec(spec_is_valid_node_id)]
pub fn is_valid_node_id(id: NodeID) -> (valid: bool)
    ensures
        valid == spec_is_valid_node_id(id),
{
    id != ROOT_NODE && id != INVALID_NODE
}

/// Tells whether an identifier names a node, the root among them.
pub fn is_valid_or_root_node_id(id: NodeID) -> (valid: bool)
    ensures
        valid == (id != INVALID_NODE),
{
    id != INVALID_NODE
}

/// What a node stands for.
#[derive(Clone, Copy, Debug, PartialEq, Eq, Structural)]
pub enum NodeKind {
    Directory,
    File,
    Link,
}

/// Pending change of a node.
#[derive(Clone, Copy, Debug, PartialEq, Eq, Structural)]
pub enum NodeAction {
    Unchanged,
    Add,
    Modify,
    Delete,
    Move,
    Copy,
}

/// A node in a revision of some repository.
#[derive(Clone, Copy, Debug)]
pub struct NodeLink {
    pub repository: RepositoryId,
    pub revision: ContentHash,
    pub node: NodeID,
}

/// A file, directory or link in a revision state.
#[derive(Clone, Copy, Debug)]
pub struct Node {
    pub kind: NodeKind,
    /// The pending change is part of the staged revision.
    pub staged: bool,
    /// The working tree is known to differ from the revision.
    pub dirty: bool,
    /// The pending change of a staged or dirty node.
    pub action: NodeAction,
    /// The node is unused.
    pub discarded: bool,
    pub parent: NodeID,
    pub sibling: NodeID,
    /// First child of a directory, or the node that a link leads to.
    pub child: NodeID,
    pub name_hash: u64,
    pub mode: u32,
    pub size: u64,
    /// Where a link leads.
    pub link: NodeLink,
}

impl Node {
    /// Tells whether the node is a file.
    pub fn is_file(&self) -> (yes: bool)
        ensures
            yes == (self.kind == NodeKind::File),
    {
        self.kind == NodeKind::File
    }

    /// Tells whether the node is a directory.
    pub fn is_directory(&self) -> (yes: bool)
        ensures
            yes == (self.kind == NodeKind::Directory),
    {
        self.kind == NodeKind::Directory
    }

    /// Tells whether the node is a link.
    pub fn is_link(&self) -> (yes: bool)
        ensures
            yes == (self.kind == NodeKind::Link),
    {
        self.kind == NodeKind::Link
    }

    /// The node is staged with the given change.
    pub open spec fn staged_as(&self, action: NodeAction) -> bool {
        self.staged && self.action == action
    }

    /// Tells whether the node is a staged addition.
    pub fn is_staged_add(&self) -> (yes: bool)
        ensures
            yes == self.staged_as(NodeAction::Add),
    {
        self.staged && self.action == NodeAction::Add
    }

    /// Tells whether the node is a staged modification.
    pub fn is_staged_modify(&self) -> (yes: bool)
        ensures
            yes == self.staged_as(NodeAction::Modify),
    {
        self.staged && self.action == NodeAction::Modify
    }

    /// Tells whether the node is a staged deletion.
    pub fn is_staged_delete(&self) -> (yes: bool)
        ensures
            yes == self.staged_as(NodeAction::Delete),
    {
        self.staged && self.action == NodeAction::Delete
    }

    /// Tells whether the node is an addition that is not staged.
    pub fn is_dirty_add(&self) -> (yes: bool)
        ensures
            yes == (self.dirty && self.action == NodeAction::Add),
    {
        self.dirty && self.action == NodeAction::Add
    }

    /// The node after its staged flags are cleared: a dirty node keeps its
    /// pending change.
    pub open spec fn without_staged(self) -> Node {
        Node {
            staged: false,
            action: if self.dirty {
                self.action
            } else {
                NodeAction::Unchanged
            },
            ..self
        }
    }

    /// The node after its dirty flags are cleared: a staged node keeps its
    /// pending change.
    pub open spec fn without_dirty(self) -> Node {
        Node {
            dirty: false,
            action: if self.staged {
                self.action
            } else {
                NodeAction::Unchanged
            },
            ..self
        }
    }

    /// The node without any pending change.
    pub open spec fn unchanged(self) -> Node {
        Node { staged: false, dirty: false, action: NodeAction::Unchanged, ..self }
    }

    /// Clears the staged flags.
    pub fn clear_staged_flags(&mut self)
        ensures
            *final(self) == old(self).without_staged(),
    {
        self.staged = false;
        if !self.dirty {
            self.action = NodeAction::Unchanged;
        }
    }

    /// Clears the dirty flags.
    pub fn clear_dirty_flags(&mut self)
        ensures
            *final(self) == old(self).without_dirty(),
    {
        self.dirty = false;
        if !self.staged {
            self.action = NodeAction::Unchanged;
        }
    }

    /// Clears every pending change.
    pub fn clear_all_change_flags(&mut self)
        ensures
            *final(self) == old(self).unchanged(),
    {
        self.staged = false;
        self.dirty = false;
        self.action = NodeAction::Unchanged;
    }
}

/// The nodes of one revision state. Its view is the nodes alone; contracts speak of
/// `modified` by its name.
pub struct NodeTree {
    pub nodes: Vec<Node>,
    /// The tree was changed since it was read.
    pub modified: bool,
}

impl View for NodeTree {
    type V = Seq<Node>;

    open spec fn view(&self) -> Seq<Node> {
        self.nodes@
    }
}

/// The chain of siblings that starts at a node, in which every node names the
/// same parent. There is none when the chain is broken or runs in a circle.
pub open spec fn siblings(nodes: Seq<Node>, parent: NodeID, from: NodeID, limit: nat) -> Option<
    Seq<NodeID>,
>
    decreases limit,
{
    if !is_valid_node_id(from) {
        Some(Seq::empty())
    } else if limit == 0 || from >= nodes.len() || nodes[from as int].parent != parent {
        None
    } else {
        match siblings(nodes, parent, nodes[from as int].sibling, (limit - 1) as nat) {
            Some(rest) => Some(seq![from] + rest),
            None => None,
        }
    }
}

/// The children of a node in sibling order, if its links are sound.
pub open spec fn children(nodes: Seq<Node>, id: NodeID) -> Option<Seq<NodeID>> {
    if id < nodes.len() {
        siblings(nodes, id, nodes[id as int].child, nodes.len())
    } else {
        None
    }
}

/// Some node of a list is staged.
pub open spec fn any_staged(nodes: Seq<Node>, ids: Seq<NodeID>) -> bool {
    exists|i: int| 0 <= i < ids.len() && nodes[#[trigger] ids[i] as int].staged
}

/// Some node of a list is dirty.
pub open spec fn any_dirty(nodes: Seq<Node>, ids: Seq<NodeID>) -> bool {
    exists|i: int| 0 <= i < ids.len() && nodes[#[trigger] ids[i] as int].dirty
}

/// Whether a node has staged children, if its links are sound.
pub open spec fn staged_children(nodes: Seq<Node>, id: NodeID) -> Option<bool> {
    match children(nodes, id) {
        Some(ids) => Some(any_staged(nodes, ids)),
        None => None,
    }
}

/// Whether a node has dirty children, if its links are sound.
pub open spec fn dirty_children(nodes: Seq<Node>, id: NodeID) -> Option<bool> {
    match children(nodes, id) {
        Some(ids) => Some(any_dirty(nodes, ids)),
        None => None,
    }
}

/// A walk over the tree failed: a node is missing, or the links are not sound.
pub open spec fn is_broken_walk(kind: ErrorKind) -> bool {
    kind == ErrorKind::NodeNotFound || kind == ErrorKind::InvalidNodeHierarchy
}

/// The failure of a walk over broken links.
pub open spec fn broken_links(nodes: Seq<Node>, id: NodeID) -> ErrorKind {
    if id < nodes.len() {
        ErrorKind::InvalidNodeHierarchy
    } else {
        ErrorKind::NodeNotFound
    }
}

proof fn lemma_siblings_in_range(nodes: Seq<Node>, parent: NodeID, from: NodeID, limit: nat)
    requires
        siblings(nodes, parent, from, limit) is Some,
    ensures
        ({
            let ids = siblings(nodes, parent, from, limit)->0;
            &&& ids.len() <= limit
            &&& forall|i: int|
                0 <= i < ids.len() ==> {
                    &&& is_valid_node_id(#[trigger] ids[i])
                    &&& ids[i] < nodes.len()
                    &&& nodes[ids[i] as int].parent == parent
                }
        }),
    decreases limit,
{
    if is_valid_node_id(from) {
        let next = nodes[from as int].sibling;
        lemma_siblings_in_range(nodes, parent, next, (limit - 1) as nat);
        let rest = siblings(nodes, parent, next, (limit - 1) as nat)->0;
        let ids = siblings(nodes, parent, from, limit)->0;
        assert(ids == seq![from] + rest);
        assert forall|i: int| 0 <= i < ids.len() implies {
            &&& is_valid_node_id(#[trigger] ids[i])
            &&& ids[i] < nodes.len()
            &&& nodes[ids[i] as int].parent == parent
        } by {
            if i > 0 {
                assert(ids[i] == rest[i - 1]);
            }
        }
    }
}

/// Every child of a node lies in the tree, below the root, and names the node
/// as its parent.
pub proof fn law_children_name_their_parent(nodes: Seq<Node>, id: NodeID, i: int)
    requires
        children(nodes, id) is Some,
        0 <= i < children(nodes, id)->0.len(),
    ensures
        is_valid_node_id(children(nodes, id)->0[i]),
        children(nodes, id)->0[i] < nodes.len(),
        nodes[children(nodes, id)->0[i] as int].parent == id,
{
    lemma_siblings_in_range(nodes, id, nodes[id as int].child, nodes.len());
}

/// Two trees have the same links.
pub open spec fn same_links(a: Seq<Node>, b: Seq<Node>) -> bool {
    &&& a.len() == b.len()
    &&& forall|i: int|
        0 <= i < a.len() ==> {
            &&& (#[trigger] a[i]).parent == b[i].parent
            &&& a[i].sibling == b[i].sibling
            &&& a[i].child == b[i].child
        }
}

/// The children of a node depend on the links alone.
pub proof fn law_children_follow_links(a: Seq<Node>, b: Seq<Node>, id: NodeID)
    requires
        same_links(a, b),
    ensures
        children(a, id) == children(b, id),
{
    if id < a.len() {
        assert(a[id as int].child == b[id as int].child);
        lemma_same_siblings(a, b, id, a[id as int].child, a.len());
    }
}

proof fn lemma_same_siblings(
    a: Seq<Node>,
    b: Seq<Node>,
    parent: NodeID,
    from: NodeID,
    limit: nat,
)
    requires
        same_links(a, b),
    ensures
        siblings(a, parent, from, limit) == siblings(b, parent, from, limit),
    decreases limit,
{
    if is_valid_node_id(from) && limit > 0 && from < a.len() {
        assert(a[from as int].parent == b[from as int].parent);
        lemma_same_siblings(a, b, parent, a[from as int].sibling, (limit - 1) as nat);
    }
}

/// The part of a chain of siblings before it breaks or closes a circle.
pub open spec fn sound_siblings(nodes: Seq<Node>, parent: NodeID, from: NodeID, limit: nat) -> Seq<
    NodeID,
>
    decreases limit,
{
    if !is_valid_node_id(from) || limit == 0 || from >= nodes.len() || nodes[from as int].parent
        != parent {
        Seq::empty()
    } else {
        seq![from] + sound_siblings(
            nodes,
            parent,
            nodes[from as int].sibling,
            (limit - 1) as nat,
        )
    }
}

/// A sound chain has no other part.
pub proof fn law_sound_chain_is_whole(nodes: Seq<Node>, parent: NodeID, from: NodeID, limit: nat)
    requires
        siblings(nodes, parent, from, limit) is Some,
    ensures
        sound_siblings(nodes, parent, from, limit) == siblings(nodes, parent, from, limit)->0,
    decreases limit,
{
    if is_valid_node_id(from) {
        law_sound_chain_is_whole(
            nodes,
            parent,
            nodes[from as int].sibling,
            (limit - 1) as nat,
        );
    }
}

impl NodeTree {
    /// The node with an identifier.
    pub fn node(&self, id: NodeID) -> (result: Result<Node, ErrorKind>)
        ensures
            result is Ok <==> id < self@.len(),
            result matches Ok(node) ==> node == self@[id as int],
            result matches Err(kind) ==> kind == ErrorKind::NodeNotFound,
    {
        if (id as usize) < self.nodes.len() {
            Ok(self.nodes[id as usize])
        } else {
            Err(ErrorKind::NodeNotFound)
        }
    }

    /// Writes a node and marks the tree as modified.
    pub fn set_node(&mut self, id: NodeID, node: Node)
        requires
            id < old(self)@.len(),
        ensures
            final(self)@ == old(self)@.update(id as int, node),
            final(self).modified,
    {
        self.nodes.set(id as usize, node);
        self.modified = true;
    }

    /// The children of a node, in sibling order.
    pub fn node_children(&self, id: NodeID) -> (result: Result<Vec<NodeID>, ErrorKind>)
        ensures
            result is Ok <==> children(self@, id) is Some,
            result matches Ok(ids) ==> children(self@, id) == Some(ids@),
            result matches Err(kind) ==> kind == broken_links(self@, id),
    {
        if (id as usize) >= self.nodes.len() {
            return Err(ErrorKind::NodeNotFound);
        }
        let mut ids: Vec<NodeID> = Vec::new();
        let mut from: NodeID = self.nodes[id as usize].child;
        let mut limit: usize = self.nodes.len();
        while is_valid_node_id(from)
            invariant
                id < self@.len(),
                children(self@, id) == match siblings(self@, id, from, limit as nat) {
                    Some(rest) => Some(ids@ + rest),
                    None => None,
                },
            decreases limit,
        {
            if limit == 0 || from as usize >= self.nodes.len() || self.nodes[from as usize].parent
                != id {
                return Err(ErrorKind::InvalidNodeHierarchy);
            }
            let ghost before = ids@;
            let ghost rest = siblings(
                self@,
                id,
                self@[from as int].sibling,
                (limit - 1) as nat,
            );
            ids.push(from);
            proof {
                if rest is Some {
                    assert(before + (seq![from] + rest->0) =~= ids@ + rest->0);
                }
            }
            from = self.nodes[from as usize].sibling;
            limit = limit - 1;
        }
        assert(ids@ + Seq::<NodeID>::empty() =~= ids@);
        Ok(ids)
    }

    /// The children of a node up to a broken link, and the failure if there is
    /// one.
    pub fn walk_children(&self, id: NodeID) -> (walked: (Vec<NodeID>, Option<ErrorKind>))
        requires
            id < self@.len(),
        ensures
            walked.0@ == sound_siblings(self@, id, self@[id as int].child, self@.len()),
            walked.1 is None <==> children(self@, id) is Some,
            walked.1 matches Some(kind) ==> kind == ErrorKind::InvalidNodeHierarchy,
    {
        let mut ids: Vec<NodeID> = Vec::new();
        let mut from: NodeID = self.nodes[id as usize].child;
        let mut limit: usize = self.nodes.len();
        while is_valid_node_id(from)
            invariant
                id < self@.len(),
                sound_siblings(self@, id, self@[id as int].child, self@.len()) == ids@
                    + sound_siblings(self@, id, from, limit as nat),
                children(self@, id) is Some == siblings(self@, id, from, limit as nat) is Some,
            decreases limit,
        {
            if limit == 0 || from as usize >= self.nodes.len() || self.nodes[from as usize].parent
                != id {
                assert(ids@ + Seq::<NodeID>::empty() =~= ids@);
                return (ids, Some(ErrorKind::InvalidNodeHierarchy));
            }
            let ghost before = ids@;
            let ghost rest = sound_siblings(
                self@,
                id,
                self@[from as int].sibling,
                (limit - 1) as nat,
            );
            ids.push(from);
            assert(before + (seq![from] + rest) =~= ids@ + rest);
            from = self.nodes[from as usize].sibling;
            limit = limit - 1;
        }
        assert(ids@ + Seq::<NodeID>::empty() =~= ids@);
        (ids, None)
    }

    /// Tells whether a node has staged children.
    pub fn node_has_staged_children(&self, id: NodeID) -> (result: Result<bool, ErrorKind>)
        ensures
            result is Ok <==> staged_children(self@, id) is Some,
            result matches Ok(yes) ==> staged_children(self@, id) == Some(yes),
            result matches Err(kind) ==> kind == broken_links(self@, id),
    {
        let ids = match self.node_children(id) {
            Ok(ids) => ids,
            Err(kind) => {
                return Err(kind);
            },
        };
        proof {
            lemma_siblings_in_range(self@, id, self@[id as int].child, self@.len());
        }
        let mut i: usize = 0;
        while i < ids.len()
            invariant
                i <= ids@.len(),
                forall|j: int| 0 <= j < ids@.len() ==> (#[trigger] ids@[j]) < self@.len(),
                forall|j: int| 0 <= j < i ==> !self@[#[trigger] ids@[j] as int].staged,
                children(self@, id) == Some(ids@),
            decreases ids@.len() - i,
        {
            if self.nodes[ids[i] as usize].staged {
                assert(self@[ids@[i as int] as int].staged);
                return Ok(true);
            }
            i = i + 1;
        }
        Ok(false)
    }

    /// Tells whether a node has dirty children.
    pub fn node_has_dirty_children(&self, id: NodeID) -> (result: Result<bool, ErrorKind>)
        ensures
            result is Ok <==> dirty_children(self@, id) is Some,
            result matches Ok(yes) ==> dirty_children(self@, id) == Some(yes),
            result matches Err(kind) ==> kind == broken_links(self@, id),
    {
        let ids = match self.node_children(id) {
            Ok(ids) => ids,
            Err(kind) => {
                return Err(kind);
            },
        };
        proof {
            lemma_siblings_in_range(self@, id, self@[id as int].child, self@.len());
        }
        let mut i: usize = 0;
        while i < ids.len()
            invariant
                i <= ids@.len(),
                forall|j: int| 0 <= j < ids@.len() ==> (#[trigger] ids@[j]) < self@.len(),
                forall|j: int| 0 <= j < i ==> !self@[#[trigger] ids@[j] as int].dirty,
                children(self@, id) == Some(ids@),
            decreases ids@.len() - i,
        {
            if self.nodes[ids[i] as usize].dirty {
                assert(self@[ids@[i as int] as int].dirty);
                return Ok(true);
            }
            i = i + 1;
        }
        Ok(false)
    }

    /// Clears the staged flags of a node and of the nodes above it, up to one
    /// that still has staged children or is itself a staged addition.
    pub fn clear_staged_parents(&mut self, id: NodeID) -> (result: Result<(), ErrorKind>)
        ensures
            ({
                let climb = unstaging(old(self)@, id, old(self)@.len());
                &&& final(self)@ == climb.nodes
                &&& final(self).modified == (old(self).modified || climb.wrote)
                &&& result is Ok <==> climb.fault is None
                &&& result matches Err(kind) ==> climb.fault == Some(kind)
            }),
            final(self)@.len() == old(self)@.len(),
    {
        let mut at: NodeID = id;
        let mut limit: usize = self.nodes.len();
        loop
            invariant
                self@.len() == old(self)@.len(),
                ({
                    let climb = unstaging(old(self)@, id, old(self)@.len());
                    let above = unstaging(self@, at, limit as nat);
                    &&& climb.nodes == above.nodes
                    &&& climb.fault == above.fault
                    &&& (old(self).modified || climb.wrote) == (self.modified || above.wrote)
                }),
            decreases limit,
        {
            if limit == 0 {
                return Err(ErrorKind::InvalidNodeHierarchy);
            }
            let has_staged = match self.node_has_staged_children(at) {
                Ok(has_staged) => has_staged,
                Err(kind) => {
                    return Err(kind);
                },
            };
            if has_staged {
                return Ok(());
            }
            let parent = self.nodes[at as usize];
            if parent.is_staged_add() {
                return Ok(());
            }
            let mut cleared = parent;
            cleared.clear_staged_flags();
            self.set_node(at, cleared);
            if at == ROOT_NODE {
                return Ok(());
            }
            at = parent.parent;
            limit = limit - 1;
        }
    }

    /// Clears the dirty flags of a node and of the nodes above it, up to one
    /// that still has dirty children. The root is left alone.
    pub fn clear_dirty_parents(&mut self, id: NodeID) -> (result: Result<(), ErrorKind>)
        ensures
            ({
                let climb = cleaning(old(self)@, id, old(self)@.len());
                &&& final(self)@ == climb.nodes
                &&& final(self).modified == (old(self).modified || climb.wrote)
                &&& result is Ok <==> climb.fault is None
                &&& result matches Err(kind) ==> climb.fault == Some(kind)
            }),
            keeps_staged(old(self)@, final(self)@),
    {
        let mut at: NodeID = id;
        let mut limit: usize = self.nodes.len();
        while is_valid_node_id(at)
            invariant
                self@.len() == old(self)@.len(),
                ({
                    let climb = cleaning(old(self)@, id, old(self)@.len());
                    let above = cleaning(self@, at, limit as nat);
                    &&& climb.nodes == above.nodes
                    &&& climb.fault == above.fault
                    &&& (old(self).modified || climb.wrote) == (self.modified || above.wrote)
                }),
                keeps_staged(old(self)@, self@),
            decreases limit,
        {
            if limit == 0 {
                return Err(ErrorKind::InvalidNodeHierarchy);
            }
            let has_dirty = match self.node_has_dirty_children(at) {
                Ok(has_dirty) => has_dirty,
                Err(kind) => {
                    return Err(kind);
                },
            };
            if has_dirty {
                return Ok(());
            }
            let parent = self.nodes[at as usize];
            let mut cleared = parent;
            cleared.clear_dirty_flags();
            self.set_node(at, cleared);
            at = parent.parent;
            limit = limit - 1;
        }
        Ok(())
    }

    /// Clears the dirty flags of a node, and those of the nodes above it that
    /// have no other dirty children.
    pub fn node_clear_dirty(&mut self, id: NodeID) -> (result: Result<(), ErrorKind>)
        requires
            id < old(self)@.len(),
        ensures
            ({
                let climb = cleaning_node(old(self)@, id);
                &&& final(self)@ == climb.nodes
                &&& result is Ok <==> climb.fault is None
                &&& result matches Err(kind) ==> climb.fault == Some(kind)
            }),
            final(self)@.len() == old(self)@.len(),
            final(self).modified,
    {
        let node = self.nodes[id as usize];
        let mut cleared = node;
        cleared.clear_dirty_flags();
        self.set_node(id, cleared);
        self.clear_dirty_parents(node.parent)
    }

    /// A list of nodes, each followed by what lies below it when it is a
    /// directory.
    fn descend(&self, ids: &Vec<NodeID>, limit: usize) -> (result: Result<Vec<NodeID>, ErrorKind>)
        requires
            forall|i: int| 0 <= i < ids@.len() ==> (#[trigger] ids@[i]) < self@.len(),
        ensures
            result is Ok <==> descended(self@, ids@, limit as nat) is Some,
            result matches Ok(found) ==> descended(self@, ids@, limit as nat) == Some(found@),
            result matches Err(kind) ==> kind == ErrorKind::InvalidNodeHierarchy,
        decreases limit,
    {
        let mut found: Vec<NodeID> = Vec::new();
        let mut i: usize = 0;
        assert(ids@.skip(0) =~= ids@);
        while i < ids.len()
            invariant
                i <= ids@.len(),
                forall|j: int| 0 <= j < ids@.len() ==> (#[trigger] ids@[j]) < self@.len(),
                descended(self@, ids@, limit as nat) == match descended(
                    self@,
                    ids@.skip(i as int),
                    limit as nat,
                ) {
                    Some(rest) => Some(found@ + rest),
                    None => None,
                },
            decreases ids@.len() - i,
        {
            let id = ids[i];
            let ghost before = found@;
            let ghost rest = descended(self@, ids@.skip(i + 1), limit as nat);
            assert(ids@.skip(i as int)[0] == id);
            assert(ids@.skip(i as int).drop_first() =~= ids@.skip(i + 1));
            found.push(id);
            if self.nodes[id as usize].is_directory() {
                if limit == 0 {
                    return Err(ErrorKind::InvalidNodeHierarchy);
                }
                let below = match self.node_children(id) {
                    Ok(below) => below,
                    Err(kind) => {
                        return Err(kind);
                    },
                };
                proof {
                    lemma_siblings_in_range(self@, id, self@[id as int].child, self@.len());
                }
                let mut deeper = match self.descend(&below, limit - 1) {
                    Ok(deeper) => deeper,
                    Err(kind) => {
                        return Err(kind);
                    },
                };
                let ghost deep = deeper@;
                found.append(&mut deeper);
                proof {
                    if rest is Some {
                        assert(before + (seq![id] + deep + rest->0) =~= found@ + rest->0);
                    }
                }
            } else {
                proof {
                    if rest is Some {
                        assert(before + (seq![id] + Seq::<NodeID>::empty() + rest->0) =~= found@
                            + rest->0);
                    }
                }
            }
            i = i + 1;
        }
        assert(ids@.skip(i as int).len() == 0);
        assert(found@ + Seq::<NodeID>::empty() =~= found@);
        Ok(found)
    }

    /// Every node below a node, parents before their children.
    pub fn node_descendants(&self, id: NodeID) -> (result: Result<Vec<NodeID>, ErrorKind>)
        ensures
            result is Ok <==> descendants(self@, id) is Some,
            result matches Ok(ids) ==> descendants(self@, id) == Some(ids@),
            result matches Err(kind) ==> kind == broken_links(self@, id),
    {
        let ids = match self.node_children(id) {
            Ok(ids) => ids,
            Err(kind) => {
                return Err(kind);
            },
        };
        proof {
            lemma_siblings_in_range(self@, id, self@[id as int].child, self@.len());
        }
        self.descend(&ids, self.nodes.len())
    }

    /// Clears the staged flags of the listed nodes.
    pub fn clear_staged_of(&mut self, ids: &Vec<NodeID>)
        requires
            forall|i: int| 0 <= i < ids@.len() ==> (#[trigger] ids@[i]) < old(self)@.len(),
        ensures
            final(self)@ == unstaged_all(old(self)@, ids@),
            final(self).modified == (old(self).modified || ids@.len() > 0),
    {
        let mut i: usize = 0;
        assert(self@ =~= unstaged_all(old(self)@, ids@.take(0)));
        while i < ids.len()
            invariant
                i <= ids@.len(),
                self@ == unstaged_all(old(self)@, ids@.take(i as int)),
                forall|j: int| 0 <= j < ids@.len() ==> (#[trigger] ids@[j]) < old(self)@.len(),
                self.modified == (old(self).modified || i > 0),
            decreases ids@.len() - i,
        {
            let id = ids[i];
            let mut node = self.nodes[id as usize];
            node.clear_staged_flags();
            let ghost before = self@;
            self.set_node(id, node);
            proof {
                let done = ids@.take(i as int);
                let next = ids@.take(i + 1);
                assert(next =~= done.push(id));
                assert forall|j: int| 0 <= j < self@.len() implies self@[j] == #[trigger] unstaged_all(
                    old(self)@,
                    next,
                )[j] by {
                    assert(listed(next, j) == (listed(done, j) || j == id)) by {
                        if listed(done, j) {
                            let n = choose|n: int| 0 <= n < done.len() && #[trigger] done[n] == j;
                            assert(next[n] == j);
                        }
                        if j == id {
                            assert(next[i as int] == id);
                        }
                        if listed(next, j) {
                            let n = choose|n: int| 0 <= n < next.len() && #[trigger] next[n] == j;
                            if n < i {
                                assert(done[n] == j);
                            }
                        }
                    }
                }
                assert(self@ =~= unstaged_all(old(self)@, next));
            }
            i = i + 1;
        }
        assert(ids@.take(ids@.len() as int) =~= ids@);
    }
}

/// Where clearing flags upwards ended.
#[verifier::ext_equal]
pub struct Climb {
    /// The nodes as they stand.
    pub nodes: Seq<Node>,
    /// Some node was written.
    pub wrote: bool,
    /// Why it failed, if it did.
    pub fault: Option<ErrorKind>,
}

/// Clearing staged flags upwards from a node.
pub open spec fn unstaging(nodes: Seq<Node>, id: NodeID, limit: nat) -> Climb
    decreases limit,
{
    if limit == 0 {
        Climb { nodes, wrote: false, fault: Some(ErrorKind::InvalidNodeHierarchy) }
    } else {
        match staged_children(nodes, id) {
            None => Climb { nodes, wrote: false, fault: Some(broken_links(nodes, id)) },
            Some(has_staged) => if has_staged || nodes[id as int].staged_as(NodeAction::Add) {
                Climb { nodes, wrote: false, fault: None }
            } else {
                let cleared = nodes.update(id as int, nodes[id as int].without_staged());
                if id == ROOT_NODE {
                    Climb { nodes: cleared, wrote: true, fault: None }
                } else {
                    let above = unstaging(cleared, nodes[id as int].parent, (limit - 1) as nat);
                    Climb { wrote: true, ..above }
                }
            },
        }
    }
}

/// Clearing dirty flags upwards from a node, below the root.
pub open spec fn cleaning(nodes: Seq<Node>, id: NodeID, limit: nat) -> Climb
    decreases limit,
{
    if !is_valid_node_id(id) {
        Climb { nodes, wrote: false, fault: None }
    } else if limit == 0 {
        Climb { nodes, wrote: false, fault: Some(ErrorKind::InvalidNodeHierarchy) }
    } else {
        match dirty_children(nodes, id) {
            None => Climb { nodes, wrote: false, fault: Some(broken_links(nodes, id)) },
            Some(has_dirty) => if has_dirty {
                Climb { nodes, wrote: false, fault: None }
            } else {
                let above = cleaning(
                    nodes.update(id as int, nodes[id as int].without_dirty()),
                    nodes[id as int].parent,
                    (limit - 1) as nat,
                );
                Climb { wrote: true, ..above }
            },
        }
    }
}

/// No staged flag of a tree differs.
pub open spec fn keeps_staged(before: Seq<Node>, after: Seq<Node>) -> bool {
    &&& after.len() == before.len()
    &&& forall|i: int| 0 <= i < before.len() ==> (#[trigger] after[i]).staged == before[i].staged
}

/// Cleaning a dirty node, together with parents that have no other dirty
/// children.
pub open spec fn cleaning_node(nodes: Seq<Node>, id: NodeID) -> Climb {
    cleaning(
        nodes.update(id as int, nodes[id as int].without_dirty()),
        nodes[id as int].parent,
        nodes.len(),
    )
}

/// A list of nodes, each followed by what lies below it when it is a directory.
pub open spec fn descended(nodes: Seq<Node>, ids: Seq<NodeID>, limit: nat) -> Option<Seq<NodeID>>
    decreases limit, ids.len(),
{
    if ids.len() == 0 {
        Some(Seq::empty())
    } else {
        let id = ids[0];
        let below = if nodes[id as int].kind != NodeKind::Directory {
            Some(Seq::empty())
        } else if limit == 0 {
            None
        } else {
            match children(nodes, id) {
                Some(next) => descended(nodes, next, (limit - 1) as nat),
                None => None,
            }
        };
        match (below, descended(nodes, ids.drop_first(), limit)) {
            (Some(b), Some(rest)) => Some(seq![id] + b + rest),
            _ => None,
        }
    }
}

/// Every node below a node, parents before their children, if the links are
/// sound.
pub open spec fn descendants(nodes: Seq<Node>, id: NodeID) -> Option<Seq<NodeID>> {
    match children(nodes, id) {
        Some(ids) => descended(nodes, ids, nodes.len()),
        None => None,
    }
}

/// An identifier is in a list.
pub open spec fn listed(ids: Seq<NodeID>, id: int) -> bool {
    exists|n: int| 0 <= n < ids.len() && #[trigger] ids[n] == id
}

/// The nodes after clearing the staged flags of the listed ones.
pub open spec fn unstaged_all(nodes: Seq<Node>, ids: Seq<NodeID>) -> Seq<Node> {
    Seq::new(
        nodes.len(),
        |i: int|
            if listed(ids, i) {
                nodes[i].without_staged()
            } else {
                nodes[i]
            },
    )
}

/// Clearing staged flags upwards changes nothing but the staged flags of nodes
/// that were not staged additions, whether it succeeds or not: links, kinds and
/// dirty flags stay.
pub proof fn law_unstaging_upwards_only_clears(nodes: Seq<Node>, id: NodeID, limit: nat)
    ensures
        ({
            let after = unstaging(nodes, id, limit).nodes;
            &&& after.len() == nodes.len()
            &&& forall|i: int|
                0 <= i < nodes.len() ==> #[trigger] after[i] == nodes[i] || (after[i]
                    == nodes[i].without_staged() && !nodes[i].staged_as(NodeAction::Add))
        }),
    decreases limit,
{
    if limit > 0 && staged_children(nodes, id) == Some(false) && !nodes[id as int].staged_as(
        NodeAction::Add,
    ) && id != ROOT_NODE {
        let cleared = nodes.update(id as int, nodes[id as int].without_staged());
        law_unstaging_upwards_only_clears(
            cleared,
            nodes[id as int].parent,
            (limit - 1) as nat,
        );
        let after = unstaging(nodes, id, limit).nodes;
        assert forall|i: int| 0 <= i < nodes.len() implies #[trigger] after[i] == nodes[i] || (
        after[i] == nodes[i].without_staged() && !nodes[i].staged_as(NodeAction::Add)) by {
            if i == id {
                assert(cleared[i] == nodes[i].without_staged());
                assert(nodes[i].without_staged().without_staged() == nodes[i].without_staged());
            }
        }
    }
}

/// Clearing dirty flags upwards changes nothing but dirty flags, whether it succeeds
/// or not: links, kinds and staged flags stay, and the root is not touched.
pub proof fn law_cleaning_upwards_only_clears(nodes: Seq<Node>, id: NodeID, limit: nat)
    ensures
        ({
            let after = cleaning(nodes, id, limit).nodes;
            &&& after.len() == nodes.len()
            &&& forall|i: int|
                0 <= i < nodes.len() ==> #[trigger] after[i] == nodes[i] || (after[i]
                    == nodes[i].without_dirty() && i != ROOT_NODE)
        }),
    decreases limit,
{
    if limit > 0 && is_valid_node_id(id) && dirty_children(nodes, id) == Some(false) {
        let cleared = nodes.update(id as int, nodes[id as int].without_dirty());
        law_cleaning_upwards_only_clears(cleared, nodes[id as int].parent, (limit - 1) as nat);
        let after = cleaning(nodes, id, limit).nodes;
        assert forall|i: int| 0 <= i < nodes.len() implies #[trigger] after[i] == nodes[i] || (
        after[i] == nodes[i].without_dirty() && i != ROOT_NODE) by {
            if i == id {
                assert(cleared[i] == nodes[i].without_dirty());
                assert(nodes[i].without_dirty().without_dirty() == nodes[i].without_dirty());
            }
        }
    }
}

proof fn lemma_descended_in_range(nodes: Seq<Node>, ids: Seq<NodeID>, limit: nat)
    requires
        descended(nodes, ids, limit) is Some,
        forall|i: int| 0 <= i < ids.len() ==> (#[trigger] ids[i]) < nodes.len(),
    ensures
        forall|i: int|
            0 <= i < descended(nodes, ids, limit)->0.len() ==> (#[trigger] descended(
                nodes,
                ids,
                limit,
            )->0[i]) < nodes.len(),
    decreases limit, ids.len(),
{
    if ids.len() > 0 {
        let id = ids[0];
        let rest = descended(nodes, ids.drop_first(), limit)->0;
        lemma_descended_in_range(nodes, ids.drop_first(), limit);
        let below = if nodes[id as int].kind != NodeKind::Directory {
            Seq::<NodeID>::empty()
        } else {
            let next = children(nodes, id)->0;
            lemma_siblings_in_range(nodes, id, nodes[id as int].child, nodes.len());
            lemma_descended_in_range(nodes, next, (limit - 1) as nat);
            descended(nodes, next, (limit - 1) as nat)->0
        };
        let all = descended(nodes, ids, limit)->0;
        assert(all == seq![id] + below + rest);
        assert forall|i: int| 0 <= i < all.len() implies (#[trigger] all[i]) < nodes.len() by {
            if i == 0 {
                assert(all[i] == id);
            } else if i <= below.len() {
                assert(all[i] == below[i - 1]);
            } else {
                assert(all[i] == rest[i - 1 - below.len()]);
            }
        }
    }
}

/// Everything below a node lies in the tree.
pub proof fn law_descendants_in_tree(nodes: Seq<Node>, id: NodeID)
    requires
        descendants(nodes, id) is Some,
    ensures
        forall|i: int|
            0 <= i < descendants(nodes, id)->0.len() ==> (#[trigger] descendants(nodes, id)->0[i])
                < nodes.len(),
{
    lemma_siblings_in_range(nodes, id, nodes[id as int].child, nodes.len());
    lemma_descended_in_range(nodes, children(nodes, id)->0, nodes.len());
}

/// Identifiers are a chain of siblings below a parent, from a node on: each names the
/// parent, and the last one has no sibling.
pub open spec fn is_chain(
    nodes: Seq<Node>,
    parent: NodeID,
    from: NodeID,
    ids: Seq<NodeID>,
) -> bool {
    &&& if ids.len() == 0 {
        !is_valid_node_id(from)
    } else {
        ids[0] == from && !is_valid_node_id(nodes[ids.last() as int].sibling)
    }
    &&& forall|i: int|
        0 <= i < ids.len() ==> {
            &&& is_valid_node_id(#[trigger] ids[i])
            &&& ids[i] < nodes.len()
            &&& nodes[ids[i] as int].parent == parent
            &&& i + 1 < ids.len() ==> nodes[ids[i] as int].sibling == ids[i + 1]
        }
}

proof fn lemma_chain_is_found(
    nodes: Seq<Node>,
    parent: NodeID,
    from: NodeID,
    ids: Seq<NodeID>,
    limit: nat,
)
    requires
        is_chain(nodes, parent, from, ids),
        ids.len() <= limit,
    ensures
        siblings(nodes, parent, from, limit) == Some(ids),
    decreases limit,
{
    if ids.len() > 0 {
        assert(is_valid_node_id(ids[0]));
        let rest = ids.drop_first();
        let next = nodes[from as int].sibling;
        if rest.len() > 0 {
            assert(rest.last() == ids.last());
            assert(rest[0] == ids[1]);
        }
        assert forall|i: int| 0 <= i < rest.len() implies {
            &&& is_valid_node_id(#[trigger] rest[i])
            &&& rest[i] < nodes.len()
            &&& nodes[rest[i] as int].parent == parent
            &&& i + 1 < rest.len() ==> nodes[rest[i] as int].sibling == rest[i + 1]
        } by {
            assert(rest[i] == ids[i + 1]);
        }
        lemma_chain_is_found(nodes, parent, next, rest, (limit - 1) as nat);
        assert(seq![from] + rest =~= ids);
    } else {
        assert(ids =~= Seq::empty());
    }
}

/// The children of a node are the chain that starts at its child: where there is such
/// a chain, no longer than the tree has nodes, it is found whole.
pub proof fn law_children_are_the_chain(nodes: Seq<Node>, id: NodeID, ids: Seq<NodeID>)
    requires
        id < nodes.len(),
        is_chain(nodes, id, nodes[id as int].child, ids),
        ids.len() <= nodes.len(),
    ensures
        children(nodes, id) == Some(ids),
{
    lemma_chain_is_found(nodes, id, nodes[id as int].child, ids, nodes.len());
}

proof fn lemma_descended_is_closed(
    nodes: Seq<Node>,
    ids: Seq<NodeID>,
    limit: nat,
    id: NodeID,
    below: NodeID,
)
    requires
        descended(nodes, ids, limit) is Some,
    ensures
        ids.contains(id) ==> descended(nodes, ids, limit)->0.contains(id),
        descended(nodes, ids, limit)->0.contains(id) && nodes[id as int].kind
            == NodeKind::Directory ==> children(nodes, id) is Some,
        descended(nodes, ids, limit)->0.contains(id) && nodes[id as int].kind
            == NodeKind::Directory && children(nodes, id)->0.contains(below) ==> descended(
            nodes,
            ids,
            limit,
        )->0.contains(below),
    decreases limit, ids.len(),
{
    if ids.len() > 0 {
        let first = ids[0];
        let rest_ids = ids.drop_first();
        lemma_descended_is_closed(nodes, rest_ids, limit, id, below);
        let rest = descended(nodes, rest_ids, limit)->0;
        let all = descended(nodes, ids, limit)->0;
        let under = if nodes[first as int].kind != NodeKind::Directory {
            Seq::<NodeID>::empty()
        } else {
            let next = children(nodes, first)->0;
            lemma_descended_is_closed(nodes, next, (limit - 1) as nat, id, below);
            lemma_descended_is_closed(nodes, next, (limit - 1) as nat, below, below);
            descended(nodes, next, (limit - 1) as nat)->0
        };
        assert(all == seq![first] + under + rest);
        assert(all[0] == first);
        assert forall|x: NodeID| under.contains(x) implies all.contains(x) by {
            let n = under.index_of(x);
            assert(all[n + 1] == x);
        }
        assert forall|x: NodeID| rest.contains(x) implies all.contains(x) by {
            let n = rest.index_of(x);
            assert(all[n + 1 + under.len()] == x);
        }
        if ids.contains(id) && id != first {
            let n = ids.index_of(id);
            assert(rest_ids[n - 1] == id);
        }
        if all.contains(id) && id != first && !under.contains(id) {
            let n = all.index_of(id);
            if n > under.len() {
                assert(rest[n - 1 - under.len()] == id);
            } else if n > 0 {
                assert(under[n - 1] == id);
            }
            assert(rest.contains(id));
        }
    }
}

/// Everything below a node is listed, at whatever depth: its children are, and the
/// children of every directory that is.
pub proof fn law_descendants_are_complete(
    nodes: Seq<Node>,
    top: NodeID,
    id: NodeID,
    below: NodeID,
)
    requires
        descendants(nodes, top) is Some,
    ensures
        children(nodes, top)->0.contains(below) ==> descendants(nodes, top)->0.contains(below),
        descendants(nodes, top)->0.contains(id) && nodes[id as int].kind == NodeKind::Directory
            ==> children(nodes, id) is Some && (children(nodes, id)->0.contains(below)
            ==> descendants(nodes, top)->0.contains(below)),
{
    let ids = children(nodes, top)->0;
    lemma_descended_is_closed(nodes, ids, nodes.len(), id, below);
    lemma_descended_is_closed(nodes, ids, nodes.len(), below, below);
}

/// A way up a tree: each node is the parent of the one in front of it.
pub open spec fn is_way_up(nodes: Seq<Node>, from: NodeID, way: Seq<NodeID>) -> bool {
    &&& way.len() > 0
    &&& way[0] == from
    &&& forall|i: int|
        0 <= i < way.len() - 1 ==> nodes[(#[trigger] way[i]) as int].parent == way[i + 1]
}

proof fn lemma_way_up_grows(nodes: Seq<Node>, after: Seq<Node>, id: NodeID, above: Seq<NodeID>)
    requires
        id < nodes.len(),
        after.len() == nodes.len(),
        forall|i: int| 0 <= i < nodes.len() ==> (#[trigger] after[i]).parent == nodes[i].parent,
        is_way_up(after, nodes[id as int].parent, above),
        forall|i: int| 0 <= i < above.len() ==> (#[trigger] above[i]) < nodes.len(),
    ensures
        is_way_up(nodes, id, seq![id] + above),
{
    let way = seq![id] + above;
    assert forall|i: int| 0 <= i < way.len() - 1 implies nodes[(
    #[trigger] way[i]) as int].parent == way[i + 1] by {
        if i > 0 {
            assert(way[i] == above[i - 1]);
            assert(way[i + 1] == above[i]);
            assert(after[above[i - 1] as int].parent == nodes[above[i - 1] as int].parent);
        } else {
            assert(way[1] == above[0]);
        }
    }
}

/// Clearing staged flags upwards, where it does not fail, clears the flag of every
/// node on the way up to where it has a reason to stop: a node with a staged child, a
/// staged addition, or the root, which is cleared too.
pub proof fn law_unstaging_upwards_goes_as_far_as_it_can(
    nodes: Seq<Node>,
    id: NodeID,
    limit: nat,
) -> (way: Seq<NodeID>)
    requires
        unstaging(nodes, id, limit).fault is None,
    ensures
        is_way_up(nodes, id, way),
        forall|i: int| 0 <= i < way.len() ==> (#[trigger] way[i]) < nodes.len(),
        forall|i: int|
            0 <= i < way.len() - 1 ==> !unstaging(nodes, id, limit).nodes[(
            #[trigger] way[i]) as int].staged,
        ({
            let after = unstaging(nodes, id, limit).nodes;
            let last = way.last();
            ||| staged_children(after, last) == Some(true)
            ||| after[last as int].staged_as(NodeAction::Add)
            ||| last == ROOT_NODE && !after[last as int].staged
        }),
    decreases limit,
{
    let node = nodes[id as int];
    if staged_children(nodes, id) == Some(false) && !node.staged_as(NodeAction::Add) && id
        != ROOT_NODE {
        let cleared = nodes.update(id as int, node.without_staged());
        let above = law_unstaging_upwards_goes_as_far_as_it_can(
            cleared,
            node.parent,
            (limit - 1) as nat,
        );
        law_unstaging_upwards_only_clears(cleared, node.parent, (limit - 1) as nat);
        lemma_way_up_grows(nodes, cleared, id, above);
        let way = seq![id] + above;
        let after = unstaging(nodes, id, limit).nodes;
        assert forall|i: int| 0 <= i < way.len() implies (#[trigger] way[i]) < nodes.len() by {
            if i > 0 {
                assert(way[i] == above[i - 1]);
            }
        }
        assert forall|i: int| 0 <= i < way.len() - 1 implies !after[(
        #[trigger] way[i]) as int].staged by {
            if i > 0 {
                assert(way[i] == above[i - 1]);
            } else {
                assert(!cleared[id as int].staged);
            }
        }
        assert(way.last() == above.last());
        way
    } else {
        seq![id]
    }
}

/// Clearing dirty flags upwards, where it does not fail, clears the flag of every node
/// on the way up to where it has a reason to stop: a node with a dirty child, or the
/// root.
pub proof fn law_cleaning_upwards_goes_as_far_as_it_can(
    nodes: Seq<Node>,
    id: NodeID,
    limit: nat,
) -> (way: Seq<NodeID>)
    requires
        cleaning(nodes, id, limit).fault is None,
    ensures
        is_way_up(nodes, id, way),
        forall|i: int| 0 <= i < way.len() - 1 ==> (#[trigger] way[i]) < nodes.len(),
        forall|i: int|
            0 <= i < way.len() - 1 ==> !cleaning(nodes, id, limit).nodes[(
            #[trigger] way[i]) as int].dirty,
        !is_valid_node_id(way.last()) || dirty_children(
            cleaning(nodes, id, limit).nodes,
            way.last(),
        ) == Some(true),
    decreases limit,
{
    if is_valid_node_id(id) && dirty_children(nodes, id) == Some(false) {
        let node = nodes[id as int];
        let cleared = nodes.update(id as int, node.without_dirty());
        let above = law_cleaning_upwards_goes_as_far_as_it_can(
            cleared,
            node.parent,
            (limit - 1) as nat,
        );
        law_cleaning_upwards_only_clears(cleared, node.parent, (limit - 1) as nat);
        let way = seq![id] + above;
        let after = cleaning(nodes, id, limit).nodes;
        assert forall|i: int| 0 <= i < way.len() - 1 implies nodes[(
        #[trigger] way[i]) as int].parent == way[i + 1] by {
            if i > 0 {
                assert(way[i] == above[i - 1]);
                assert(way[i + 1] == above[i]);
            } else {
                assert(way[1] == above[0]);
            }
        }
        assert forall|i: int| 0 <= i < way.len() - 1 implies (#[trigger] way[i])
            < nodes.len() && !after[way[i] as int].dirty by {
            if i > 0 {
                assert(way[i] == above[i - 1]);
            } else {
                assert(!cleared[id as int].dirty);
            }
        }
        assert(way.last() == above.last());
        way
    } else {
        seq![id]
    }
}

proof fn lemma_descended_follows_links(
    a: Seq<Node>,
    b: Seq<Node>,
    ids: Seq<NodeID>,
    limit: nat,
)
    requires
        same_links(a, b),
        forall|i: int| 0 <= i < a.len() ==> (#[trigger] a[i]).kind == b[i].kind,
        forall|i: int| 0 <= i < ids.len() ==> (#[trigger] ids[i]) < a.len(),
    ensures
        descended(a, ids, limit) == descended(b, ids, limit),
    decreases limit, ids.len(),
{
    if ids.len() > 0 {
        let id = ids[0];
        assert(a[id as int].kind == b[id as int].kind);
        lemma_descended_follows_links(a, b, ids.drop_first(), limit);
        law_children_follow_links(a, b, id);
        if a[id as int].kind == NodeKind::Directory && limit > 0 && children(a, id) is Some {
            lemma_siblings_in_range(a, id, a[id as int].child, a.len());
            lemma_descended_follows_links(a, b, children(a, id)->0, (limit - 1) as nat);
        }
    }
}

/// What lies below a node depends on the links and kinds of the nodes alone.
pub proof fn law_descendants_follow_links(a: Seq<Node>, b: Seq<Node>, id: NodeID)
    requires
        same_links(a, b),
        forall|i: int| 0 <= i < a.len() ==> (#[trigger] a[i]).kind == b[i].kind,
    ensures
        descendants(a, id) == descendants(b, id),
{
    law_children_follow_links(a, b, id);
    if children(a, id) is Some {
        lemma_siblings_in_range(a, id, a[id as int].child, a.len());
        lemma_descended_follows_links(a, b, children(a, id)->0, a.len());
    }
}

/// The sound part of a chain of siblings goes as far as the links are sound: it begins
/// with every run of nodes that follow each other and name the parent.
pub proof fn law_sound_part_goes_as_far_as_it_can(
    nodes: Seq<Node>,
    parent: NodeID,
    from: NodeID,
    limit: nat,
    ids: Seq<NodeID>,
)
    requires
        ids.len() <= limit,
        ids.len() > 0 ==> ids[0] == from,
        forall|i: int|
            0 <= i < ids.len() ==> {
                &&& is_valid_node_id(#[trigger] ids[i])
                &&& ids[i] < nodes.len()
                &&& nodes[ids[i] as int].parent == parent
                &&& i + 1 < ids.len() ==> nodes[ids[i] as int].sibling == ids[i + 1]
            },
    ensures
        ids.is_prefix_of(sound_siblings(nodes, parent, from, limit)),
    decreases limit,
{
    if ids.len() > 0 {
        assert(is_valid_node_id(ids[0]));
        let rest = ids.drop_first();
        let sibling = nodes[from as int].sibling;
        if rest.len() > 0 {
            assert(rest[0] == ids[1]);
        }
        assert forall|i: int| 0 <= i < rest.len() implies {
            &&& is_valid_node_id(#[trigger] rest[i])
            &&& rest[i] < nodes.len()
            &&& nodes[rest[i] as int].parent == parent
            &&& i + 1 < rest.len() ==> nodes[rest[i] as int].sibling == rest[i + 1]
        } by {
            assert(rest[i] == ids[i + 1]);
        }
        law_sound_part_goes_as_far_as_it_can(nodes, parent, sibling, (limit - 1) as nat, rest);
        let later = sound_siblings(nodes, parent, sibling, (limit - 1) as nat);
        let all = sound_siblings(nodes, parent, from, limit);
        assert(all == seq![from] + later);
        assert(ids =~= seq![from] + rest);
        assert(all.take(ids.len() as int) =~= seq![from] + later.take(rest.len() as int));
        assert(rest =~= later.take(rest.len() as int));
    }
}

proof fn lemma_more_levels_descend_alike(
    nodes: Seq<Node>,
    ids: Seq<NodeID>,
    levels: nat,
    more: nat,
)
    requires
        levels <= more,
        descended(nodes, ids, levels) is Some,
    ensures
        descended(nodes, ids, more) == descended(nodes, ids, levels),
    decreases levels, ids.len(),
{
    if ids.len() > 0 {
        let id = ids[0];
        lemma_more_levels_descend_alike(nodes, ids.drop_first(), levels, more);
        if nodes[id as int].kind == NodeKind::Directory {
            lemma_more_levels_descend_alike(
                nodes,
                children(nodes, id)->0,
                (levels - 1) as nat,
                (more - 1) as nat,
            );
        }
    }
}

/// What lies below a node is listed as deep as the tree has nodes: whatever a list over
/// no more levels than that has, the list has.
pub proof fn law_descendants_go_to_the_bottom(nodes: Seq<Node>, id: NodeID, levels: nat)
    requires
        levels <= nodes.len(),
        children(nodes, id) is Some,
        descended(nodes, children(nodes, id)->0, levels) is Some,
    ensures
        descendants(nodes, id) == descended(nodes, children(nodes, id)->0, levels),
{
    lemma_more_levels_descend_alike(nodes, children(nodes, id)->0, levels, nodes.len());
}

} // verus!
