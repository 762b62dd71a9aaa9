//! Verifying a repository: the node hierarchy of its state, and single
//! fragments of its store.

use vstd::prelude::*;
use vstd::string::*;

use crate::errors::ErrorKind;
use crate::hexadecimal::hex_bytes;
use crate::hexadecimal::hex_digits;
use crate::hexadecimal::hex_number;
use crate::hexadecimal::is_hex;
use crate::node::children;
use crate::node::descendants;
use crate::node::descended;
use crate::node::is_valid_node_id;
use crate::node::siblings;
use crate::node::Node;
use crate::node::NodeAction;
use crate::node::NodeID;
use crate::node::NodeKind;
use crate::node::NodeTree;
use crate::node::INVALID_NODE;
use crate::node::ROOT_NODE;
use crate::repository::RepositoryError;
use crate::state::RevisionState;
use crate::text::decimal;
use crate::text::decimal_digits;
use crate::types::flag;
use crate::types::flag_of;
use crate::types::Address;
use crate::types::ContentHash;
use crate::types::Context;
use crate::types::RepositoryId;
use crate::types::CONTEXT_SIZE;
use crate::types::HASH_SIZE;

verus! {

/// Data for the event emitted when state verification starts.
#[derive(Clone, Copy, Debug, PartialEq, Eq, Structural)]
pub struct LoreRepositoryVerifyStateBeginEventData {
    /// Placeholder field. The event carries no data.
    pub unused: u32,
}

/// Data for the event emitted when state verification finishes.
#[derive(Clone, Copy, Debug)]
pub struct LoreRepositoryVerifyStateEndEventData {
    /// Identifier of the staged state after healing. Zero when nothing was healed.
    pub healed_staged_state: ContentHash,
}

/// One stored copy of a fragment found during fragment verification.
#[derive(Clone, Copy, Debug)]
pub struct LoreRepositoryVerifyFragmentMatchEventData {
    /// Slot the match was found in.
    pub slot: u32,
    /// Index of the match within the slot.
    pub index: u32,
    /// Identifier of the repository the match belongs to.
    pub repository: RepositoryId,
    /// Hash part of the fragment address.
    pub address_hash: ContentHash,
    /// Context part of the fragment address.
    pub address_context: Context,
    /// Storage flags recorded for the fragment.
    pub flags: u32,
    /// Stored size of the fragment payload in bytes.
    pub size_payload: u32,
    /// Size of the fragment content in bytes.
    pub size_content: u64,
    /// Offset of the fragment within its pack file.
    pub pack_offset: u32,
    /// Index of the pack file holding the fragment.
    pub pack_file: u32,
    /// Time the fragment was last accessed, in seconds since the Unix epoch.
    pub last_access: u64,
}

/// Result of verifying a single fragment, including every stored copy found.
#[derive(Debug)]
pub struct LoreRepositoryVerifyFragmentEventData {
    /// Hash of the fragment that was verified.
    pub hash: ContentHash,
    /// Index of the group the fragment belongs to.
    pub group_index: u32,
    /// Index of the bucket the fragment belongs to.
    pub bucket_index: u32,
    /// Path of the index file examined for the fragment.
    pub index_path: String,
    /// Number of entries in the index.
    pub entry_count: u32,
    /// Number of entries in the pack file.
    pub packfile_entry_count: u32,
    /// Number of stored copies found for the fragment.
    pub match_count: u32,
    /// The stored copies found for the fragment.
    pub matches: Vec<LoreRepositoryVerifyFragmentMatchEventData>,
    /// Error message produced during verification. Empty on success.
    pub error: String,
}

/// Result of verifying a single fragment on the remote.
#[derive(Debug)]
pub struct LoreRepositoryVerifyFragmentRemoteEventData {
    /// Hash part of the fragment address.
    pub address_hash: ContentHash,
    /// Context part of the fragment address.
    pub address_context: Context,
    /// Non-zero when the fragment was found to be corrupted.
    pub corrupted: u8,
    /// Non-zero when the fragment was healed.
    pub healed: u8,
    /// Error message produced during verification. Empty on success.
    pub error: String,
}

/// Arguments for verifying a fragment.
#[derive(Debug)]
pub struct VerifyFragmentArgs {
    pub hash: String,
    pub context: String,
    pub heal: bool,
}

// ---------------------------------------------------------------------------
// The node hierarchy
// ---------------------------------------------------------------------------

/// What is known of a node beside its links and pending change.
#[derive(Debug)]
pub struct NodeFacts {
    /// Index of the block that holds the node.
    pub block: u32,
    /// Index of the node in its block.
    pub index: u32,
    /// The flags as they are stored.
    pub flags: u32,
    /// Path of the node, if it leads to the root.
    pub path: Option<String>,
    pub name: String,
    /// Hash of the name.
    pub name_hash: u64,
}

/// A failed check: its category and text.
pub type Failure = (ErrorKind, Seq<char>);

/// What the check of one node gives.
pub enum NodeOutcome {
    /// The node is sound.
    Sound,
    /// The node is unused, and its sibling leads to the next unused one.
    Unused,
    /// The node is not sound.
    Failed(Failure),
}

/// Where a node is stored, in the text of a failure.
pub open spec fn located(facts: NodeFacts) -> Seq<char> {
    "Repository verification failed: Block "@ + decimal_digits(facts.block as nat) + " node "@
        + decimal_digits(facts.index as nat)
}

/// The text for a flag that a committed node must not have.
pub open spec fn flag_failure(facts: NodeFacts, what: Seq<char>) -> Failure {
    (
        ErrorKind::Internal,
        located(facts) + what + facts.path->0@ + " 0x"@ + hex_digits(facts.flags as nat) + ")"@,
    )
}

/// The text for a name that its hash does not fit.
pub open spec fn name_failure(node: Node, facts: NodeFacts) -> Failure {
    (
        ErrorKind::Internal,
        located(facts) + " has invalid name hash for name: "@ + facts.name@ + " hash is "@
            + hex_digits(facts.name_hash as nat) + " found "@ + hex_digits(node.name_hash as nat),
    )
}

/// The check of one node: a committed one is neither staged nor unused, and its
/// name has the hash that is stored. Flags are reported only where the node has
/// a path.
pub open spec fn checked(node: Node, id: NodeID, facts: NodeFacts, is_staged: bool) -> NodeOutcome {
    if !is_staged && node.staged_as(NodeAction::Delete) && facts.path is Some {
        NodeOutcome::Failed(flag_failure(facts, " has deleted flag: "@))
    } else if !is_staged && node.discarded && facts.path is Some {
        NodeOutcome::Failed(flag_failure(facts, " is discarded: "@))
    } else if !is_staged && node.discarded {
        NodeOutcome::Unused
    } else if !is_staged && node.staged && facts.path is Some {
        NodeOutcome::Failed(flag_failure(facts, " has staged flag: "@))
    } else if id != ROOT_NODE && node.name_hash != facts.name_hash {
        NodeOutcome::Failed(name_failure(node, facts))
    } else {
        NodeOutcome::Sound
    }
}

fn location(facts: &NodeFacts) -> (text: String)
    ensures
        text@ == located(*facts),
{
    let mut text = "Repository verification failed: Block ".to_owned();
    text.append(decimal(facts.block as u64).as_str());
    text.append(" node ");
    text.append(decimal(facts.index as u64).as_str());
    text
}

fn fail_flag(facts: &NodeFacts, path: &str, what: &str) -> (error: RepositoryError)
    requires
        facts.path is Some,
        facts.path->0@ == path@,
    ensures
        (error.kind, error.detail@) == flag_failure(*facts, what@),
{
    let mut detail = location(facts);
    detail.append(what);
    detail.append(path);
    detail.append(" 0x");
    detail.append(hex_number(facts.flags as u64).as_str());
    detail.append(")");
    RepositoryError { kind: ErrorKind::Internal, detail }
}

/// Checks one node, and tells whether it is in use.
pub fn verify_node_single(node: &Node, id: NodeID, facts: &NodeFacts, is_staged: bool) -> (result: Result<
    bool,
    RepositoryError,
>)
    ensures
        match checked(*node, id, *facts, is_staged) {
            NodeOutcome::Sound => result == Ok::<bool, RepositoryError>(true),
            NodeOutcome::Unused => result == Ok::<bool, RepositoryError>(false),
            NodeOutcome::Failed(failure) => result matches Err(e) && (e.kind, e.detail@) == failure,
        },
{
    if !is_staged {
        if let Some(path) = &facts.path {
            if node.is_staged_delete() {
                return Err(fail_flag(facts, path.as_str(), " has deleted flag: "));
            }
            if node.discarded {
                return Err(fail_flag(facts, path.as_str(), " is discarded: "));
            }
            if node.staged {
                return Err(fail_flag(facts, path.as_str(), " has staged flag: "));
            }
        } else if node.discarded {
            return Ok(false);
        }
    }
    if id != ROOT_NODE && node.name_hash != facts.name_hash {
        let mut detail = location(facts);
        detail.append(" has invalid name hash for name: ");
        detail.append(facts.name.as_str());
        detail.append(" hash is ");
        detail.append(hex_number(facts.name_hash).as_str());
        detail.append(" found ");
        detail.append(hex_number(node.name_hash).as_str());
        return Err(RepositoryError { kind: ErrorKind::Internal, detail });
    }
    Ok(true)
}

/// A link of the hierarchy that is broken.
pub open spec fn broken_hierarchy() -> Failure {
    (ErrorKind::InvalidNodeHierarchy, "Invalid node hierarchy in revision state"@)
}

/// A node that cannot be read.
pub open spec fn unreadable_node() -> Failure {
    (ErrorKind::NodeNotFound, "Failed to deserialize repository state"@)
}

fn hierarchy_error() -> (error: RepositoryError)
    ensures
        (error.kind, error.detail@) == broken_hierarchy(),
{
    RepositoryError::of(
        ErrorKind::InvalidNodeHierarchy,
        "Invalid node hierarchy in revision state",
    )
}

fn unreadable_error() -> (error: RepositoryError)
    ensures
        (error.kind, error.detail@) == unreadable_node(),
{
    RepositoryError::of(ErrorKind::NodeNotFound, "Failed to deserialize repository state")
}

/// A directory with something below it.
pub open spec fn has_child(node: Node) -> bool {
    node.kind == NodeKind::Directory && is_valid_node_id(node.child)
}

/// Checks a chain of siblings: the directories in it to go down into, and the
/// first failure. Every node must name the same parent, and the chain must not
/// run in a circle; it ends at an unused node.
pub open spec fn checked_chain(
    nodes: Seq<Node>,
    facts: Seq<NodeFacts>,
    is_staged: bool,
    parent: NodeID,
    from: NodeID,
    limit: nat,
) -> (Seq<NodeID>, Option<Failure>)
    decreases limit,
{
    if !is_valid_node_id(from) {
        (Seq::empty(), None)
    } else if limit == 0 {
        (Seq::empty(), Some(broken_hierarchy()))
    } else if from >= nodes.len() {
        (Seq::empty(), Some(unreadable_node()))
    } else if nodes[from as int].parent != parent {
        (Seq::empty(), Some(broken_hierarchy()))
    } else {
        match checked(nodes[from as int], from, facts[from as int], is_staged) {
            NodeOutcome::Failed(failure) => (Seq::empty(), Some(failure)),
            NodeOutcome::Unused => (Seq::empty(), None),
            NodeOutcome::Sound => {
                let (directories, failure) = checked_chain(
                    nodes,
                    facts,
                    is_staged,
                    parent,
                    nodes[from as int].sibling,
                    (limit - 1) as nat,
                );
                if has_child(nodes[from as int]) {
                    (seq![from] + directories, failure)
                } else {
                    (directories, failure)
                }
            },
        }
    }
}

/// The first failure of a chain of siblings and of what lies below them, down to
/// a number of levels.
pub open spec fn chain_failure(
    nodes: Seq<Node>,
    facts: Seq<NodeFacts>,
    is_staged: bool,
    parent: NodeID,
    from: NodeID,
    levels: nat,
) -> Option<Failure>
    decreases levels, 1nat, 0nat,
{
    let (directories, failure) = checked_chain(nodes, facts, is_staged, parent, from, nodes.len());
    if failure is Some {
        failure
    } else {
        below_failure(nodes, facts, is_staged, directories, levels)
    }
}

/// The first failure below directories, in order.
pub open spec fn below_failure(
    nodes: Seq<Node>,
    facts: Seq<NodeFacts>,
    is_staged: bool,
    directories: Seq<NodeID>,
    levels: nat,
) -> Option<Failure>
    decreases levels, 0nat, directories.len(),
{
    if directories.len() == 0 {
        None
    } else if levels == 0 {
        Some(broken_hierarchy())
    } else {
        let id = directories[0];
        match chain_failure(
            nodes,
            facts,
            is_staged,
            id,
            nodes[id as int].child,
            (levels - 1) as nat,
        ) {
            Some(failure) => Some(failure),
            None => below_failure(nodes, facts, is_staged, directories.drop_first(), levels),
        }
    }
}

/// The first failure of a node and of what lies below it.
pub open spec fn node_failure(
    nodes: Seq<Node>,
    facts: Seq<NodeFacts>,
    is_staged: bool,
    id: NodeID,
) -> Option<Failure> {
    if id >= nodes.len() {
        Some(unreadable_node())
    } else {
        match checked(nodes[id as int], id, facts[id as int], is_staged) {
            NodeOutcome::Failed(failure) => Some(failure),
            NodeOutcome::Unused => None,
            NodeOutcome::Sound => if has_child(nodes[id as int]) {
                chain_failure(nodes, facts, is_staged, id, nodes[id as int].child, nodes.len())
            } else {
                None
            },
        }
    }
}

/// The directories of a chain are nodes.
proof fn lemma_chain_in_range(
    nodes: Seq<Node>,
    facts: Seq<NodeFacts>,
    is_staged: bool,
    parent: NodeID,
    from: NodeID,
    limit: nat,
)
    ensures
        forall|i: int|
            0 <= i < checked_chain(nodes, facts, is_staged, parent, from, limit).0.len()
                ==> #[trigger] checked_chain(nodes, facts, is_staged, parent, from, limit).0[i]
                < nodes.len(),
    decreases limit,
{
    let all = checked_chain(nodes, facts, is_staged, parent, from, limit).0;
    if all.len() > 0 {
        let sibling = nodes[from as int].sibling;
        lemma_chain_in_range(nodes, facts, is_staged, parent, sibling, (limit - 1) as nat);
        let rest = checked_chain(
            nodes,
            facts,
            is_staged,
            parent,
            sibling,
            (limit - 1) as nat,
        ).0;
        assert forall|i: int| 0 <= i < all.len() implies #[trigger] all[i] < nodes.len() by {
            if has_child(nodes[from as int]) {
                if i > 0 {
                    assert(all[i] == rest[i - 1]);
                }
            } else {
                assert(all[i] == rest[i]);
            }
        }
    }
}

fn verify_chain(
    tree: &NodeTree,
    facts: &Vec<NodeFacts>,
    is_staged: bool,
    parent: NodeID,
    first: NodeID,
) -> (result: Result<Vec<NodeID>, RepositoryError>)
    requires
        facts@.len() == tree@.len(),
    ensures
        ({
            let (directories, failure) = checked_chain(
                tree@,
                facts@,
                is_staged,
                parent,
                first,
                tree@.len(),
            );
            &&& result is Ok <==> failure is None
            &&& result matches Ok(found) ==> found@ == directories
            &&& result matches Err(e) ==> failure == Some((e.kind, e.detail@))
        }),
{
    let mut directories: Vec<NodeID> = Vec::new();
    let mut from: NodeID = first;
    let mut limit: usize = tree.nodes.len();
    let ghost all = checked_chain(tree@, facts@, is_staged, parent, first, tree@.len());
    assert(directories@ + all.0 =~= all.0);
    while is_valid_node_id(from)
        invariant
            facts@.len() == tree@.len(),
            all == checked_chain(tree@, facts@, is_staged, parent, first, tree@.len()),
            ({
                let rest = checked_chain(tree@, facts@, is_staged, parent, from, limit as nat);
                all.1 == rest.1 && all.0 == directories@ + rest.0
            }),
        decreases limit,
    {
        if limit == 0 {
            return Err(hierarchy_error());
        }
        if from as usize >= tree.nodes.len() {
            return Err(unreadable_error());
        }
        let node = tree.nodes[from as usize];
        if node.parent != parent {
            return Err(hierarchy_error());
        }
        match verify_node_single(&node, from, &facts[from as usize], is_staged) {
            Err(error) => {
                return Err(error);
            },
            Ok(in_use) => {
                if !in_use {
                    assert(directories@ + Seq::<NodeID>::empty() =~= directories@);
                    return Ok(directories);
                }
            },
        }
        let ghost before = directories@;
        let ghost rest = checked_chain(
            tree@,
            facts@,
            is_staged,
            parent,
            node.sibling,
            (limit - 1) as nat,
        ).0;
        if node.is_directory() && is_valid_node_id(node.child) {
            directories.push(from);
            assert(before + (seq![from] + rest) =~= directories@ + rest);
        }
        from = node.sibling;
        limit = limit - 1;
    }
    assert(directories@ + Seq::<NodeID>::empty() =~= directories@);
    Ok(directories)
}

/// Checks a chain of siblings and what lies below them.
pub fn verify_node_and_siblings(
    tree: &NodeTree,
    facts: &Vec<NodeFacts>,
    is_staged: bool,
    parent: NodeID,
    first: NodeID,
    levels: usize,
) -> (result: Result<(), RepositoryError>)
    requires
        facts@.len() == tree@.len(),
    ensures
        ({
            let failure = chain_failure(tree@, facts@, is_staged, parent, first, levels as nat);
            &&& result is Ok <==> failure is None
            &&& result matches Err(e) ==> failure == Some((e.kind, e.detail@))
        }),
    decreases levels,
{
    let directories = match verify_chain(tree, facts, is_staged, parent, first) {
        Ok(directories) => directories,
        Err(error) => {
            return Err(error);
        },
    };
    proof {
        lemma_chain_in_range(tree@, facts@, is_staged, parent, first, tree@.len());
    }
    let mut i: usize = 0;
    assert(directories@.skip(0) =~= directories@);
    while i < directories.len()
        invariant
            i <= directories@.len(),
            facts@.len() == tree@.len(),
            forall|j: int|
                0 <= j < directories@.len() ==> (#[trigger] directories@[j]) < tree@.len(),
            chain_failure(tree@, facts@, is_staged, parent, first, levels as nat) == below_failure(
                tree@,
                facts@,
                is_staged,
                directories@.skip(i as int),
                levels as nat,
            ),
        decreases directories@.len() - i,
    {
        assert(directories@.skip(i as int)[0] == directories@[i as int]);
        assert(directories@.skip(i as int).drop_first() =~= directories@.skip(i + 1));
        if levels == 0 {
            return Err(hierarchy_error());
        }
        let id = directories[i];
        match verify_node_and_siblings(
            tree,
            facts,
            is_staged,
            id,
            tree.nodes[id as usize].child,
            levels - 1,
        ) {
            Ok(()) => {},
            Err(error) => {
                return Err(error);
            },
        }
        i = i + 1;
    }
    assert(directories@.skip(i as int).len() == 0);
    Ok(())
}

/// Checks a node and everything below it.
pub fn verify_node(tree: &NodeTree, facts: &Vec<NodeFacts>, is_staged: bool, id: NodeID) -> (result: Result<
    (),
    RepositoryError,
>)
    requires
        facts@.len() == tree@.len(),
    ensures
        ({
            let failure = node_failure(tree@, facts@, is_staged, id);
            &&& result is Ok <==> failure is None
            &&& result matches Err(e) ==> failure == Some((e.kind, e.detail@))
        }),
{
    if id as usize >= tree.nodes.len() {
        return Err(unreadable_error());
    }
    let node = tree.nodes[id as usize];
    match verify_node_single(&node, id, &facts[id as usize], is_staged) {
        Err(error) => Err(error),
        Ok(in_use) => if in_use && node.is_directory() && is_valid_node_id(node.child) {
            verify_node_and_siblings(
                tree,
                facts,
                is_staged,
                id,
                node.child,
                tree.nodes.len(),
            )
        } else {
            Ok(())
        },
    }
}

/// A chain of a staged state that passes the check is sound: every node in it
/// names its parent, and it comes to an end.
pub proof fn law_verified_chain_is_sound(
    nodes: Seq<Node>,
    facts: Seq<NodeFacts>,
    parent: NodeID,
    from: NodeID,
    limit: nat,
)
    requires
        checked_chain(nodes, facts, true, parent, from, limit).1 is None,
    ensures
        siblings(nodes, parent, from, limit) is Some,
    decreases limit,
{
    if is_valid_node_id(from) {
        law_verified_chain_is_sound(
            nodes,
            facts,
            parent,
            nodes[from as int].sibling,
            (limit - 1) as nat,
        );
    }
}

/// A way down a tree: each node is a child of the one in front of it, which is a
/// directory.
pub open spec fn is_way(nodes: Seq<Node>, way: Seq<NodeID>) -> bool {
    &&& way.len() > 0
    &&& forall|i: int|
        0 <= i < way.len() - 1 ==> {
            &&& nodes[(#[trigger] way[i]) as int].kind == NodeKind::Directory
            &&& children(nodes, way[i]) is Some
            &&& children(nodes, way[i])->0.contains(way[i + 1])
        }
}

/// A node passes the check of its state: its name has the hash that is stored, unless
/// it is the root, and in a committed state it is neither staged nor unused, as far as
/// it has a path.
pub open spec fn passes(node: Node, id: NodeID, facts: NodeFacts, is_staged: bool) -> bool {
    &&& id == ROOT_NODE || node.name_hash == facts.name_hash
    &&& !is_staged && facts.path is Some ==> !node.staged && !node.discarded
}

proof fn lemma_checked_chain(
    nodes: Seq<Node>,
    facts: Seq<NodeFacts>,
    is_staged: bool,
    parent: NodeID,
    from: NodeID,
    limit: nat,
    id: NodeID,
)
    requires
        is_staged || forall|i: int| 0 <= i < nodes.len() ==> !(#[trigger] nodes[i]).discarded,
        checked_chain(nodes, facts, is_staged, parent, from, limit).1 is None,
        siblings(nodes, parent, from, limit) is Some,
        siblings(nodes, parent, from, limit)->0.contains(id),
    ensures
        id < nodes.len(),
        checked(nodes[id as int], id, facts[id as int], is_staged) is Sound,
        has_child(nodes[id as int]) ==> checked_chain(
            nodes,
            facts,
            is_staged,
            parent,
            from,
            limit,
        ).0.contains(id),
    decreases limit,
{
    let sibling = nodes[from as int].sibling;
    let rest = siblings(nodes, parent, sibling, (limit - 1) as nat)->0;
    let all = siblings(nodes, parent, from, limit)->0;
    assert(all == seq![from] + rest);
    assert(!nodes[from as int].discarded || is_staged);
    let found = checked_chain(nodes, facts, is_staged, parent, from, limit).0;
    let later = checked_chain(nodes, facts, is_staged, parent, sibling, (limit - 1) as nat).0;
    if id == from {
        if has_child(nodes[from as int]) {
            assert(found[0] == from);
        }
    } else {
        let n = all.index_of(id);
        assert(rest[n - 1] == id);
        lemma_checked_chain(nodes, facts, is_staged, parent, sibling, (limit - 1) as nat, id);
        if has_child(nodes[id as int]) {
            let m = later.index_of(id);
            if has_child(nodes[from as int]) {
                assert(found[m + 1] == id);
            } else {
                assert(found[m] == id);
            }
        }
    }
}

proof fn lemma_below_is_checked(
    nodes: Seq<Node>,
    facts: Seq<NodeFacts>,
    is_staged: bool,
    directories: Seq<NodeID>,
    levels: nat,
    id: NodeID,
)
    requires
        below_failure(nodes, facts, is_staged, directories, levels) is None,
        directories.contains(id),
    ensures
        levels > 0,
        chain_failure(
            nodes,
            facts,
            is_staged,
            id,
            nodes[id as int].child,
            (levels - 1) as nat,
        ) is None,
    decreases directories.len(),
{
    if directories[0] != id {
        let n = directories.index_of(id);
        assert(directories.drop_first()[n - 1] == id);
        lemma_below_is_checked(nodes, facts, is_staged, directories.drop_first(), levels, id);
    }
}

proof fn lemma_chain_is_checked(
    nodes: Seq<Node>,
    facts: Seq<NodeFacts>,
    is_staged: bool,
    parent: NodeID,
    way: Seq<NodeID>,
    levels: nat,
)
    requires
        is_staged || forall|i: int| 0 <= i < nodes.len() ==> !(#[trigger] nodes[i]).discarded,
        is_way(nodes, way),
        parent < nodes.len(),
        children(nodes, parent) is Some,
        children(nodes, parent)->0.contains(way[0]),
        chain_failure(nodes, facts, is_staged, parent, nodes[parent as int].child, levels) is None,
    ensures
        way.last() < nodes.len(),
        checked(
            nodes[way.last() as int],
            way.last(),
            facts[way.last() as int],
            is_staged,
        ) is Sound,
    decreases way.len(),
{
    let child = nodes[parent as int].child;
    lemma_checked_chain(nodes, facts, is_staged, parent, child, nodes.len(), way[0]);
    if way.len() > 1 {
        let below = way.drop_first();
        assert(nodes[way[0] as int].kind == NodeKind::Directory);
        assert(children(nodes, way[0])->0.contains(way[1]));
        assert(has_child(nodes[way[0] as int]));
        let directories = checked_chain(nodes, facts, is_staged, parent, child, nodes.len()).0;
        lemma_below_is_checked(nodes, facts, is_staged, directories, levels, way[0]);
        assert forall|i: int| 0 <= i < below.len() - 1 implies {
            &&& nodes[(#[trigger] below[i]) as int].kind == NodeKind::Directory
            &&& children(nodes, below[i]) is Some
            &&& children(nodes, below[i])->0.contains(below[i + 1])
        } by {
            assert(below[i] == way[i + 1]);
        }
        lemma_chain_is_checked(nodes, facts, is_staged, way[0], below, (levels - 1) as nat);
        assert(below.last() == way.last());
    }
}

/// A tree that is found sound was checked everywhere: every node that a way leads to
/// from where the check started passes, at whatever depth. (In a committed state an
/// unused node ends the chain that it stands in.)
pub proof fn law_verification_reaches_every_node(
    nodes: Seq<Node>,
    facts: Seq<NodeFacts>,
    is_staged: bool,
    way: Seq<NodeID>,
)
    requires
        is_staged || forall|i: int| 0 <= i < nodes.len() ==> !(#[trigger] nodes[i]).discarded,
        is_way(nodes, way),
        node_failure(nodes, facts, is_staged, way[0]) is None,
    ensures
        way.last() < nodes.len(),
        passes(nodes[way.last() as int], way.last(), facts[way.last() as int], is_staged),
{
    let id = way[0];
    if way.len() > 1 {
        let below = way.drop_first();
        assert(nodes[way[0] as int].kind == NodeKind::Directory);
        assert(children(nodes, way[0])->0.contains(way[1]));
        assert(has_child(nodes[id as int]));
        assert forall|i: int| 0 <= i < below.len() - 1 implies {
            &&& nodes[(#[trigger] below[i]) as int].kind == NodeKind::Directory
            &&& children(nodes, below[i]) is Some
            &&& children(nodes, below[i])->0.contains(below[i + 1])
        } by {
            assert(below[i] == way[i + 1]);
        }
        lemma_chain_is_checked(nodes, facts, is_staged, id, below, nodes.len());
        assert(below.last() == way.last());
    }
}

proof fn lemma_sound_chain_has_no_failure(
    nodes: Seq<Node>,
    facts: Seq<NodeFacts>,
    is_staged: bool,
    parent: NodeID,
    from: NodeID,
    limit: nat,
)
    requires
        siblings(nodes, parent, from, limit) is Some,
        forall|i: int|
            0 <= i < nodes.len() ==> passes(#[trigger] nodes[i], i as NodeID, facts[i], is_staged)
                && (is_staged || !nodes[i].discarded && !nodes[i].staged),
        nodes.len() <= NodeID::MAX,
    ensures
        ({
            let found = checked_chain(nodes, facts, is_staged, parent, from, limit);
            &&& found.1 is None
            &&& forall|n: int|
                0 <= n < found.0.len() ==> has_child(nodes[(#[trigger] found.0[n]) as int])
                    && siblings(nodes, parent, from, limit)->0.contains(found.0[n])
        }),
    decreases limit,
{
    if is_valid_node_id(from) {
        let sibling = nodes[from as int].sibling;
        lemma_sound_chain_has_no_failure(
            nodes,
            facts,
            is_staged,
            parent,
            sibling,
            (limit - 1) as nat,
        );
        assert(passes(nodes[from as int], from, facts[from as int], is_staged));
        let all = siblings(nodes, parent, from, limit)->0;
        let rest = siblings(nodes, parent, sibling, (limit - 1) as nat)->0;
        assert(all == seq![from] + rest);
        let found = checked_chain(nodes, facts, is_staged, parent, from, limit).0;
        let later = checked_chain(nodes, facts, is_staged, parent, sibling, (limit - 1) as nat).0;
        assert forall|n: int| 0 <= n < found.len() implies has_child(
            nodes[(#[trigger] found[n]) as int],
        ) && all.contains(found[n]) by {
            if has_child(nodes[from as int]) {
                if n == 0 {
                    assert(all[0] == found[0]);
                } else {
                    assert(found[n] == later[n - 1]);
                    let m = rest.index_of(later[n - 1]);
                    assert(all[m + 1] == found[n]);
                }
            } else {
                let m = rest.index_of(later[n]);
                assert(all[m + 1] == found[n]);
            }
        }
    }
}

proof fn lemma_descended_below(nodes: Seq<Node>, ids: Seq<NodeID>, limit: nat, id: NodeID)
    requires
        descended(nodes, ids, limit) is Some,
        ids.contains(id),
        nodes[id as int].kind == NodeKind::Directory,
    ensures
        limit > 0,
        children(nodes, id) is Some,
        descended(nodes, children(nodes, id)->0, (limit - 1) as nat) is Some,
    decreases ids.len(),
{
    if ids[0] != id {
        let n = ids.index_of(id);
        assert(ids.drop_first()[n - 1] == id);
        lemma_descended_below(nodes, ids.drop_first(), limit, id);
    }
}

proof fn lemma_sound_below_has_no_failure(
    nodes: Seq<Node>,
    facts: Seq<NodeFacts>,
    is_staged: bool,
    directories: Seq<NodeID>,
    ids: Seq<NodeID>,
    levels: nat,
)
    requires
        descended(nodes, ids, levels) is Some,
        forall|n: int|
            0 <= n < directories.len() ==> has_child(nodes[(#[trigger] directories[n]) as int])
                && ids.contains(directories[n]),
        forall|i: int|
            0 <= i < nodes.len() ==> passes(#[trigger] nodes[i], i as NodeID, facts[i], is_staged)
                && (is_staged || !nodes[i].discarded && !nodes[i].staged),
        nodes.len() <= NodeID::MAX,
    ensures
        below_failure(nodes, facts, is_staged, directories, levels) is None,
    decreases levels, directories.len(),
{
    if directories.len() > 0 {
        let id = directories[0];
        assert(has_child(nodes[id as int]));
        lemma_descended_below(nodes, ids, levels, id);
        let child = nodes[id as int].child;
        let next = children(nodes, id)->0;
        lemma_sound_chain_has_no_failure(nodes, facts, is_staged, id, child, nodes.len());
        let found = checked_chain(nodes, facts, is_staged, id, child, nodes.len()).0;
        lemma_sound_below_has_no_failure(
            nodes,
            facts,
            is_staged,
            found,
            next,
            (levels - 1) as nat,
        );
        let rest = directories.drop_first();
        assert forall|n: int| 0 <= n < rest.len() implies has_child(
            nodes[(#[trigger] rest[n]) as int],
        ) && ids.contains(rest[n]) by {
            assert(rest[n] == directories[n + 1]);
        }
        assert(chain_failure(
            nodes,
            facts,
            is_staged,
            id,
            child,
            (levels - 1) as nat,
        ) is None);
        lemma_sound_below_has_no_failure(nodes, facts, is_staged, rest, ids, levels);
    }
}

/// A tree whose links are sound and whose nodes all pass is found sound.
pub proof fn law_sound_tree_is_accepted(
    nodes: Seq<Node>,
    facts: Seq<NodeFacts>,
    is_staged: bool,
    id: NodeID,
)
    requires
        id < nodes.len() <= NodeID::MAX,
        descendants(nodes, id) is Some,
        forall|i: int|
            0 <= i < nodes.len() ==> passes(#[trigger] nodes[i], i as NodeID, facts[i], is_staged)
                && (is_staged || !nodes[i].discarded && !nodes[i].staged),
    ensures
        node_failure(nodes, facts, is_staged, id) is None,
{
    let child = nodes[id as int].child;
    let ids = children(nodes, id)->0;
    assert(passes(nodes[id as int], id, facts[id as int], is_staged));
    lemma_sound_chain_has_no_failure(nodes, facts, is_staged, id, child, nodes.len());
    let found = checked_chain(nodes, facts, is_staged, id, child, nodes.len()).0;
    lemma_sound_below_has_no_failure(nodes, facts, is_staged, found, ids, nodes.len());
}

/// The node that a verification starts at: the one that the path leads to, or
/// the root.
pub fn verify_start(path: Option<&str>, found: Option<NodeID>) -> (result: Result<
    NodeID,
    RepositoryError,
>)
    ensures
        result is Ok <==> path is None || (found is Some && found->0 != INVALID_NODE),
        result matches Ok(id) ==> id == if path is None {
            ROOT_NODE
        } else {
            found->0
        },
        result matches Err(e) ==> e.kind == ErrorKind::Internal && e.detail@
            == "Invalid repository path"@,
{
    match path {
        None => Ok(ROOT_NODE),
        Some(_) => match found {
            Some(id) => if id != INVALID_NODE {
                Ok(id)
            } else {
                Err(RepositoryError::of(ErrorKind::Internal, "Invalid repository path"))
            },
            None => Err(RepositoryError::of(ErrorKind::Internal, "Invalid repository path")),
        },
    }
}

/// Prepares a state that was healed for being written as the staged one, and
/// tells whether it is written: only where it was changed and the repository may
/// be written. A committed state is staged anew without metadata.
pub fn verify(state: &mut RevisionState, is_staged: bool, may_write: bool, current: ContentHash) -> (write:
    bool)
    ensures
        write == (old(state).tree.modified && may_write),
        final(state).tree == old(state).tree,
        final(state).links == old(state).links,
        final(state).revision == old(state).revision,
        !write ==> *final(state) == *old(state),
        write ==> final(state).parent_self == current && final(state).revision_number == 0,
        write && is_staged ==> final(state).parent_other == old(state).parent_other
            && final(state).metadata_hash == old(state).metadata_hash,
        write && !is_staged ==> final(state).parent_other.is_zero()
            && final(state).metadata_hash.is_zero(),
{
    if !(state.tree.modified && may_write) {
        return false;
    }
    state.parent_self = current;
    state.revision_number = 0;
    if !is_staged {
        state.parent_other = ContentHash::default();
        state.metadata_hash = ContentHash::default();
    }
    true
}

/// The event that ends a verification, with the state that was written.
pub fn verify_end(written: Option<ContentHash>) -> (event: LoreRepositoryVerifyStateEndEventData)
    ensures
        match written {
            Some(signature) => event.healed_staged_state == signature,
            None => event.healed_staged_state.is_zero(),
        },
{
    LoreRepositoryVerifyStateEndEventData {
        healed_staged_state: match written {
            Some(signature) => signature,
            None => ContentHash::default(),
        },
    }
}

// ---------------------------------------------------------------------------
// Fragments
// ---------------------------------------------------------------------------

/// How closely a stored copy must match an address.
#[derive(Clone, Copy, Debug, PartialEq, Eq, Structural)]
pub enum StoreMatch {
    MatchFull,
    MatchHash,
}

/// Arguments name a fragment: a hash, and a context or none.
pub open spec fn names_fragment(args: VerifyFragmentArgs) -> bool {
    let hash = vstd::utf8::encode_utf8(args.hash@);
    let context = vstd::utf8::encode_utf8(args.context@);
    &&& is_hex(hash) && hex_bytes(hash).len() == HASH_SIZE
    &&& args.context@.len() == 0 || (is_hex(context) && hex_bytes(context).len() == CONTEXT_SIZE)
}

/// The address of a fragment to verify, and how closely a stored copy must match
/// it: without a context the hash is enough.
pub fn verify_fragment(args: &VerifyFragmentArgs) -> (result: Result<
    (Address, StoreMatch),
    RepositoryError,
>)
    ensures
        result is Ok <==> names_fragment(*args),
        result matches Ok(fragment) ==> {
            &&& fragment.0.hash.data@ == hex_bytes(vstd::utf8::encode_utf8(args.hash@))
            &&& args.context@.len() == 0 ==> fragment.0.context.is_zero()
            &&& args.context@.len() > 0 ==> fragment.0.context.data@ == hex_bytes(
                vstd::utf8::encode_utf8(args.context@),
            )
            &&& fragment.1 == if args.context@.len() == 0 {
                StoreMatch::MatchHash
            } else {
                StoreMatch::MatchFull
            }
        },
        result matches Err(e) ==> e.kind == ErrorKind::Internal && e.detail@ == "Invalid address"@,
{
    let hash = match ContentHash::from_text(args.hash.as_str()) {
        Some(hash) => hash,
        None => {
            return Err(RepositoryError::of(ErrorKind::Internal, "Invalid address"));
        },
    };
    if args.context.as_str().is_empty() {
        return Ok((Address { hash, context: Context::default() }, StoreMatch::MatchHash));
    }
    match Context::from_text(args.context.as_str()) {
        Some(context) => Ok((Address { hash, context }, StoreMatch::MatchFull)),
        None => Err(RepositoryError::of(ErrorKind::Internal, "Invalid address")),
    }
}

/// A stored copy of a fragment.
#[derive(Clone, Copy, Debug)]
pub struct FragmentMatch {
    pub slot: usize,
    pub index: usize,
    pub partition: RepositoryId,
    pub address: Address,
    pub flags: u32,
    pub size_payload: u32,
    pub size_content: u64,
    pub pack_offset: u32,
    pub pack_file: u32,
    pub last_access: u64,
}

/// What verifying a fragment in the local store gave.
#[derive(Debug)]
pub struct FragmentReport {
    pub group_index: usize,
    pub bucket_index: usize,
    pub index_path: String,
    pub entry_count: usize,
    pub packfile_entry_count: usize,
    pub matches: Vec<FragmentMatch>,
    /// Why verification failed, if it did.
    pub failure: Option<String>,
}

/// An event entry describes a stored copy. Positions are cut to their low 32
/// bits.
pub open spec fn describes_match(
    event: LoreRepositoryVerifyFragmentMatchEventData,
    found: FragmentMatch,
) -> bool {
    &&& event.slot == found.slot as u32
    &&& event.index == found.index as u32
    &&& event.repository == found.partition
    &&& event.address_hash == found.address.hash
    &&& event.address_context == found.address.context
    &&& event.flags == found.flags
    &&& event.size_payload == found.size_payload
    &&& event.size_content == found.size_content
    &&& event.pack_offset == found.pack_offset
    &&& event.pack_file == found.pack_file
    &&& event.last_access == found.last_access
}

/// Reports the verification of a fragment in the local store. Positions and
/// counts are cut to their low 32 bits.
pub fn verify_fragment_local(hash: ContentHash, report: &FragmentReport) -> (event:
    LoreRepositoryVerifyFragmentEventData)
    ensures
        event.hash == hash,
        event.group_index == report.group_index as u32,
        event.bucket_index == report.bucket_index as u32,
        event.index_path@ == report.index_path@,
        event.entry_count == report.entry_count as u32,
        event.packfile_entry_count == report.packfile_entry_count as u32,
        event.match_count == report.matches@.len() as u32,
        event.matches@.len() == report.matches@.len(),
        forall|i: int|
            0 <= i < report.matches@.len() ==> describes_match(
                #[trigger] event.matches@[i],
                report.matches@[i],
            ),
        event.error@ == match report.failure {
            Some(text) => text@,
            None => Seq::empty(),
        },
{
    let mut matches: Vec<LoreRepositoryVerifyFragmentMatchEventData> = Vec::new();
    let mut i: usize = 0;
    while i < report.matches.len()
        invariant
            i <= report.matches@.len(),
            matches@.len() == i,
            forall|j: int|
                0 <= j < i ==> describes_match(#[trigger] matches@[j], report.matches@[j]),
        decreases report.matches@.len() - i,
    {
        let found = report.matches[i];
        matches.push(
            LoreRepositoryVerifyFragmentMatchEventData {
                slot: found.slot as u32,
                index: found.index as u32,
                repository: found.partition,
                address_hash: found.address.hash,
                address_context: found.address.context,
                flags: found.flags,
                size_payload: found.size_payload,
                size_content: found.size_content,
                pack_offset: found.pack_offset,
                pack_file: found.pack_file,
                last_access: found.last_access,
            },
        );
        i = i + 1;
    }
    LoreRepositoryVerifyFragmentEventData {
        hash,
        group_index: report.group_index as u32,
        bucket_index: report.bucket_index as u32,
        index_path: report.index_path.clone(),
        entry_count: report.entry_count as u32,
        packfile_entry_count: report.packfile_entry_count as u32,
        match_count: matches.len() as u32,
        matches,
        error: match &report.failure {
            Some(text) => text.clone(),
            None => String::new(),
        },
    }
}

/// What a remote answered to the verification of a fragment.
#[derive(Debug)]
pub enum RemoteVerification {
    Verified { corrupted: bool, healed: bool },
    NotFound,
    /// It failed, with this text.
    Failed(String),
}

/// The text for a verification that failed on the remote.
pub open spec fn remote_failure(answer: RemoteVerification) -> Seq<char> {
    match answer {
        RemoteVerification::Verified { .. } => Seq::empty(),
        RemoteVerification::NotFound => "Fragment not found"@,
        RemoteVerification::Failed(text) => "Verification failed: "@ + text@,
    }
}

/// Reports the verification of a fragment on the remote. It is reported also
/// where it failed, and then fails the operation.
pub fn verify_fragment_remote(address: Address, answer: &RemoteVerification) -> (report: (
    LoreRepositoryVerifyFragmentRemoteEventData,
    Result<(), RepositoryError>,
))
    ensures
        report.0.address_hash == address.hash,
        report.0.address_context == address.context,
        report.0.error@ == remote_failure(*answer),
        answer matches RemoteVerification::Verified { corrupted, healed } ==> {
            &&& report.0.corrupted == flag_of(*corrupted)
            &&& report.0.healed == flag_of(*healed)
            &&& report.1 is Ok
        },
        !(answer is Verified) ==> {
            &&& report.0.corrupted == 0
            &&& report.0.healed == 0
            &&& report.1 matches Err(e)
            &&& e.kind == ErrorKind::Internal
            &&& e.detail@ == "Repository verification failed: "@ + remote_failure(*answer)
        },
{
    let text = match answer {
        RemoteVerification::Verified { corrupted, healed } => {
            return (
                LoreRepositoryVerifyFragmentRemoteEventData {
                    address_hash: address.hash,
                    address_context: address.context,
                    corrupted: flag(*corrupted),
                    healed: flag(*healed),
                    error: String::new(),
                },
                Ok(()),
            );
        },
        RemoteVerification::NotFound => "Fragment not found".to_owned(),
        RemoteVerification::Failed(text) => {
            let mut message = "Verification failed: ".to_owned();
            message.append(text.as_str());
            message
        },
    };
    let mut detail = "Repository verification failed: ".to_owned();
    detail.append(text.as_str());
    (
        LoreRepositoryVerifyFragmentRemoteEventData {
            address_hash: address.hash,
            address_context: address.context,
            corrupted: 0,
            healed: 0,
            error: text,
        },
        Err(RepositoryError { kind: ErrorKind::Internal, detail }),
    )
}

} // verus!
