//! What a layer has placed in the working tree.

use vstd::prelude::*;
use vstd::string::*;

use crate::errors::ErrorKind;
use crate::layer::is_on_disk;
use crate::layer::modified_text;
use crate::layer::note_layer_child;
use crate::layer::noted;
use crate::layer::LayerError;
use crate::layer::LayerFileStat;
use crate::layer::LayerFiles;
use crate::layer::LayerFilesView;
use crate::node::broken_links;
use crate::node::children;
use crate::node::law_children_name_their_parent;
use crate::node::Node;
use crate::node::NodeID;
use crate::node::NodeKind;
use crate::node::NodeTree;
use crate::path::joined;

verus! {

/// What is known of the nodes of a layer, by node.
pub struct LayerFacts {
    pub names: Vec<String>,
    /// What is at the node's path in the working tree.
    pub stats: Vec<LayerFileStat>,
}

impl LayerFacts {
    /// Every node of a tree is known.
    pub open spec fn cover(&self, nodes: Seq<Node>) -> bool {
        self.names@.len() == nodes.len() && self.stats@.len() == nodes.len()
    }
}

/// What a walk has found, and whether broken links ended it.
#[verifier::ext_equal]
pub struct LayerWalk {
    pub found: LayerFilesView,
    pub broken: bool,
}

/// What was found after the nodes of a directory were walked, in order, down to a
/// number of levels. A directory comes before what it holds.
pub open spec fn walked(
    found: LayerFilesView,
    nodes: Seq<Node>,
    facts: LayerFacts,
    ids: Seq<NodeID>,
    path: Seq<char>,
    levels: nat,
) -> LayerWalk
    decreases levels, ids.len(),
{
    if ids.len() == 0 {
        LayerWalk { found, broken: false }
    } else {
        let id = ids[0];
        let node = nodes[id as int];
        let name = facts.names@[id as int]@;
        let own = noted(found, path, name, node.kind, facts.stats@[id as int]);
        let below = if name.len() == 0 || node.kind != NodeKind::Directory {
            LayerWalk { found: own, broken: false }
        } else if levels == 0 || children(nodes, id) is None {
            LayerWalk { found: own, broken: true }
        } else {
            walked(
                own,
                nodes,
                facts,
                children(nodes, id)->0,
                joined(path, name),
                (levels - 1) as nat,
            )
        };
        if below.broken {
            below
        } else {
            walked(below.found, nodes, facts, ids.drop_first(), path, levels)
        }
    }
}

fn children_error(kind: ErrorKind) -> (error: LayerError)
    ensures
        error.kind == kind,
        error.detail@ == "Failed to iterate layer state children"@,
{
    LayerError { kind, detail: "Failed to iterate layer state children".to_owned() }
}

fn walk_list(
    tree: &NodeTree,
    facts: &LayerFacts,
    ids: &Vec<NodeID>,
    path: &str,
    levels: usize,
    found: &mut LayerFiles,
) -> (result: Result<(), LayerError>)
    requires
        facts.cover(tree@),
        forall|i: int| 0 <= i < ids@.len() ==> (#[trigger] ids@[i]) < tree@.len(),
    ensures
        ({
            let after = walked(old(found)@, tree@, *facts, ids@, path@, levels as nat);
            &&& final(found)@ == after.found
            &&& result is Ok <==> !after.broken
            &&& result matches Err(e) ==> e.kind == ErrorKind::InvalidNodeHierarchy && e.detail@
                == "Failed to iterate layer state children"@
        }),
    decreases levels,
{
    let mut i: usize = 0;
    assert(ids@.skip(0) =~= ids@);
    while i < ids.len()
        invariant
            i <= ids@.len(),
            facts.cover(tree@),
            forall|j: int| 0 <= j < ids@.len() ==> (#[trigger] ids@[j]) < tree@.len(),
            walked(old(found)@, tree@, *facts, ids@, path@, levels as nat) == walked(
                found@,
                tree@,
                *facts,
                ids@.skip(i as int),
                path@,
                levels as nat,
            ),
        decreases ids@.len() - i,
    {
        let id = ids[i];
        assert(ids@.skip(i as int)[0] == id);
        assert(ids@.skip(i as int).drop_first() =~= ids@.skip(i + 1));
        let descend = note_layer_child(
            path,
            facts.names[id as usize].as_str(),
            tree.nodes[id as usize].kind,
            facts.stats[id as usize],
            found,
        );
        if let Some(below) = descend {
            if levels == 0 {
                return Err(children_error(ErrorKind::InvalidNodeHierarchy));
            }
            let next = match tree.node_children(id) {
                Ok(next) => next,
                Err(kind) => {
                    return Err(children_error(kind));
                },
            };
            proof {
                assert forall|j: int| 0 <= j < next@.len() implies (#[trigger] next@[j])
                    < tree@.len() by {
                    law_children_name_their_parent(tree@, id, j);
                }
            }
            match walk_list(tree, facts, &next, below.as_str(), levels - 1, found) {
                Ok(()) => {},
                Err(error) => {
                    return Err(error);
                },
            }
        }
        i = i + 1;
    }
    assert(ids@.skip(i as int).len() == 0);
    Ok(())
}

/// What was found after everything below a node was walked.
pub open spec fn subtree_walked(
    found: LayerFilesView,
    nodes: Seq<Node>,
    facts: LayerFacts,
    node: NodeID,
    path: Seq<char>,
) -> LayerWalk {
    match children(nodes, node) {
        Some(ids) => walked(found, nodes, facts, ids, path, nodes.len()),
        None => LayerWalk { found, broken: true },
    }
}

/// Finds what a layer has placed below a directory of the working tree. No path of
/// a sound tree is longer than the tree has nodes.
pub fn walk_layer_subtree(
    tree: &NodeTree,
    facts: &LayerFacts,
    node: NodeID,
    filesystem_path: &str,
    found: &mut LayerFiles,
) -> (result: Result<(), LayerError>)
    requires
        facts.cover(tree@),
    ensures
        ({
            let after = subtree_walked(old(found)@, tree@, *facts, node, filesystem_path@);
            &&& final(found)@ == after.found
            &&& result is Ok <==> !after.broken
            &&& result matches Err(e) ==> e.kind == broken_links(tree@, node) && e.detail@
                == "Failed to iterate layer state children"@
        }),
{
    let ids = match tree.node_children(node) {
        Ok(ids) => ids,
        Err(kind) => {
            return Err(children_error(kind));
        },
    };
    proof {
        assert forall|i: int| 0 <= i < ids@.len() implies (#[trigger] ids@[i]) < tree@.len() by {
            law_children_name_their_parent(tree@, node, i);
        }
    }
    walk_list(tree, facts, &ids, filesystem_path, tree.nodes.len(), found)
}

/// A walk keeps what was found before, whether it succeeds or not.
pub proof fn law_walk_keeps_findings(
    found: LayerFilesView,
    nodes: Seq<Node>,
    facts: LayerFacts,
    ids: Seq<NodeID>,
    path: Seq<char>,
    levels: nat,
)
    ensures
        ({
            let after = walked(found, nodes, facts, ids, path, levels).found;
            &&& found.files.is_prefix_of(after.files)
            &&& found.directories.is_prefix_of(after.directories)
            &&& found.modified.is_prefix_of(after.modified)
        }),
    decreases levels, ids.len(),
{
    if ids.len() > 0 {
        let id = ids[0];
        let node = nodes[id as int];
        let name = facts.names@[id as int]@;
        let own = noted(found, path, name, node.kind, facts.stats@[id as int]);
        assert(found.files.is_prefix_of(own.files));
        assert(found.directories.is_prefix_of(own.directories));
        assert(found.modified.is_prefix_of(own.modified));
        let after = if name.len() == 0 || node.kind != NodeKind::Directory || levels == 0
            || children(nodes, id) is None {
            own
        } else {
            let next = children(nodes, id)->0;
            law_walk_keeps_findings(
                own,
                nodes,
                facts,
                next,
                joined(path, name),
                (levels - 1) as nat,
            );
            walked(own, nodes, facts, next, joined(path, name), (levels - 1) as nat).found
        };
        law_walk_keeps_findings(after, nodes, facts, ids.drop_first(), path, levels);
        let end = walked(found, nodes, facts, ids, path, levels).found;
        assert(end == after || end == walked(
            after,
            nodes,
            facts,
            ids.drop_first(),
            path,
            levels,
        ).found);
        assert(found.files.is_prefix_of(end.files));
        assert(found.directories.is_prefix_of(end.directories));
        assert(found.modified.is_prefix_of(end.modified));
    }
}

/// A way down the tree of a layer: each node has a name and is a child of the one in
/// front of it, which is a directory.
pub open spec fn is_way(nodes: Seq<Node>, facts: LayerFacts, way: Seq<NodeID>) -> bool {
    &&& way.len() > 0
    &&& forall|i: int| 0 <= i < way.len() ==> facts.names@[(#[trigger] way[i]) as int]@.len() > 0
    &&& forall|i: int|
        0 <= i < way.len() - 1 ==> {
            &&& nodes[(#[trigger] way[i]) as int].kind == NodeKind::Directory
            &&& children(nodes, way[i]) is Some
            &&& children(nodes, way[i])->0.contains(way[i + 1])
        }
}

/// The path of the last node of a way, where the first one lies in a directory.
pub open spec fn path_along(facts: LayerFacts, path: Seq<char>, way: Seq<NodeID>) -> Seq<char>
    decreases way.len(),
{
    if way.len() == 0 {
        path
    } else {
        path_along(facts, joined(path, facts.names@[way[0] as int]@), way.drop_first())
    }
}

/// A node was found at a path: a directory is listed, a file is where the working tree
/// has it, and a file that is not as the layer has it is told with what is wrong.
pub open spec fn is_found(
    found: LayerFilesView,
    kind: NodeKind,
    stat: LayerFileStat,
    path: Seq<char>,
) -> bool {
    if kind == NodeKind::Directory {
        found.directories.contains(path)
    } else {
        match stat {
            LayerFileStat::File { modified } => found.files.contains(path) && (modified
                ==> found.modified.contains(path)),
            LayerFileStat::OtherType => found.files.contains(path) && found.modified.contains(
                path + " (type changed)"@,
            ),
            LayerFileStat::Missing => found.modified.contains(path + " (missing)"@),
            LayerFileStat::Failed => found.modified.contains(path + " (stat failed)"@),
        }
    }
}

proof fn lemma_still_found(
    before: LayerFilesView,
    after: LayerFilesView,
    kind: NodeKind,
    stat: LayerFileStat,
    path: Seq<char>,
)
    requires
        is_found(before, kind, stat, path),
        before.files.is_prefix_of(after.files),
        before.directories.is_prefix_of(after.directories),
        before.modified.is_prefix_of(after.modified),
    ensures
        is_found(after, kind, stat, path),
{
    assert forall|x: Seq<char>| before.files.contains(x) implies after.files.contains(x) by {
        let i = before.files.index_of(x);
        assert(after.files[i] == x);
    }
    assert forall|x: Seq<char>| before.directories.contains(x) implies
        after.directories.contains(x) by {
        let i = before.directories.index_of(x);
        assert(after.directories[i] == x);
    }
    assert forall|x: Seq<char>| before.modified.contains(x) implies after.modified.contains(
        x,
    ) by {
        let i = before.modified.index_of(x);
        assert(after.modified[i] == x);
    }
}

/// A walk over sound links finds every node that a way leads to, at whatever depth,
/// each at its path.
pub proof fn law_walk_finds_every_node(
    found: LayerFilesView,
    nodes: Seq<Node>,
    facts: LayerFacts,
    ids: Seq<NodeID>,
    way: Seq<NodeID>,
    path: Seq<char>,
    levels: nat,
)
    requires
        is_way(nodes, facts, way),
        ids.contains(way[0]),
        !walked(found, nodes, facts, ids, path, levels).broken,
    ensures
        is_found(
            walked(found, nodes, facts, ids, path, levels).found,
            nodes[way.last() as int].kind,
            facts.stats@[way.last() as int],
            path_along(facts, path, way),
        ),
    decreases way.len(), ids.len(),
{
    let id = ids[0];
    let node = nodes[id as int];
    let name = facts.names@[id as int]@;
    let own = noted(found, path, name, node.kind, facts.stats@[id as int]);
    let rest = ids.drop_first();
    let enters = name.len() > 0 && node.kind == NodeKind::Directory;
    let after = if enters {
        walked(own, nodes, facts, children(nodes, id)->0, joined(path, name), (levels - 1) as nat)
    } else {
        LayerWalk { found: own, broken: false }
    };
    let end = walked(found, nodes, facts, ids, path, levels);
    assert(end == walked(after.found, nodes, facts, rest, path, levels));
    law_walk_keeps_findings(after.found, nodes, facts, rest, path, levels);
    if id == way[0] {
        let last = way.last();
        let below = way.drop_first();
        assert(facts.names@[way[0] as int]@.len() > 0);
        if way.len() == 1 {
            let at = joined(path, name);
            assert(path_along(facts, path, way) == at) by {
                assert(below.len() == 0);
                reveal_with_fuel(path_along, 2);
            }
            if node.kind == NodeKind::Directory {
                assert(own.directories.last() == at);
            } else {
                assert(is_on_disk(facts.stats@[id as int]) ==> own.files.last() == at);
                assert(modified_text(at, facts.stats@[id as int]) is Some ==> own.modified.last()
                    == modified_text(at, facts.stats@[id as int])->0);
            }
            assert(is_found(own, node.kind, facts.stats@[id as int], at));
            if enters {
                law_walk_keeps_findings(
                    own,
                    nodes,
                    facts,
                    children(nodes, id)->0,
                    joined(path, name),
                    (levels - 1) as nat,
                );
                lemma_still_found(own, after.found, node.kind, facts.stats@[id as int], at);
            }
        } else {
            assert(node.kind == NodeKind::Directory);
            assert forall|i: int| 0 <= i < below.len() implies facts.names@[(
            #[trigger] below[i]) as int]@.len() > 0 by {
                assert(below[i] == way[i + 1]);
            }
            assert forall|i: int| 0 <= i < below.len() - 1 implies {
                &&& nodes[(#[trigger] below[i]) as int].kind == NodeKind::Directory
                &&& children(nodes, below[i]) is Some
                &&& children(nodes, below[i])->0.contains(below[i + 1])
            } by {
                assert(below[i] == way[i + 1]);
            }
            law_walk_finds_every_node(
                own,
                nodes,
                facts,
                children(nodes, id)->0,
                below,
                joined(path, name),
                (levels - 1) as nat,
            );
            assert(below.last() == last);
        }
        lemma_still_found(
            after.found,
            end.found,
            nodes[last as int].kind,
            facts.stats@[last as int],
            path_along(facts, path, way),
        );
    } else {
        let n = ids.index_of(way[0]);
        assert(rest[n - 1] == way[0]);
        law_walk_finds_every_node(after.found, nodes, facts, rest, way, path, levels);
    }
}

/// A file that is as the layer has it is not told as modified, and a node without a
/// name is passed over.
pub proof fn law_unmodified_files_are_not_told(
    found: LayerFilesView,
    path: Seq<char>,
    name: Seq<char>,
    kind: NodeKind,
)
    ensures
        noted(found, path, name, kind, LayerFileStat::File { modified: false }).modified
            == found.modified,
        name.len() == 0 ==> forall|stat: LayerFileStat|
            #[trigger] noted(found, path, name, kind, stat) == found,
{
}

proof fn lemma_more_levels_find_alike(
    found: LayerFilesView,
    nodes: Seq<Node>,
    facts: LayerFacts,
    ids: Seq<NodeID>,
    path: Seq<char>,
    levels: nat,
    more: nat,
)
    requires
        levels <= more,
        !walked(found, nodes, facts, ids, path, levels).broken,
    ensures
        walked(found, nodes, facts, ids, path, more) == walked(
            found,
            nodes,
            facts,
            ids,
            path,
            levels,
        ),
    decreases levels, ids.len(),
{
    if ids.len() > 0 {
        let id = ids[0];
        let node = nodes[id as int];
        let name = facts.names@[id as int]@;
        let own = noted(found, path, name, node.kind, facts.stats@[id as int]);
        let rest = ids.drop_first();
        if name.len() > 0 && node.kind == NodeKind::Directory {
            let next = children(nodes, id)->0;
            let below = joined(path, name);
            lemma_more_levels_find_alike(
                own,
                nodes,
                facts,
                next,
                below,
                (levels - 1) as nat,
                (more - 1) as nat,
            );
            let after = walked(own, nodes, facts, next, below, (levels - 1) as nat);
            lemma_more_levels_find_alike(after.found, nodes, facts, rest, path, levels, more);
        } else {
            lemma_more_levels_find_alike(own, nodes, facts, rest, path, levels, more);
        }
    }
}

/// A walk goes as deep as the tree has nodes: whatever a walk over no more levels than
/// that finds, the walk of the subtree finds.
pub proof fn law_walk_goes_to_the_bottom(
    found: LayerFilesView,
    nodes: Seq<Node>,
    facts: LayerFacts,
    node: NodeID,
    path: Seq<char>,
    levels: nat,
)
    requires
        levels <= nodes.len(),
        children(nodes, node) is Some,
        !walked(found, nodes, facts, children(nodes, node)->0, path, levels).broken,
    ensures
        subtree_walked(found, nodes, facts, node, path) == walked(
            found,
            nodes,
            facts,
            children(nodes, node)->0,
            path,
            levels,
        ),
{
    let ids = children(nodes, node)->0;
    lemma_more_levels_find_alike(found, nodes, facts, ids, path, levels, nodes.len());
}

} // verus!
