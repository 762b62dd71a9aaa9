//! Changes between two revision states.

use vstd::prelude::*;

use crate::node::NodeID;
use crate::node::NodeKind;

verus! {

/// What happened to a path.
#[derive(Clone, Copy, Debug, PartialEq, Eq, Structural)]
pub enum FileAction {
    /// The path stays; its content may differ.
    Keep,
    Add,
    Delete,
    Move,
    Copy,
}

/// What happened to a path, as reported in events.
#[derive(Clone, Copy, Debug, PartialEq, Eq, Structural)]
pub enum LoreFileAction {
    Keep,
    Add,
    Delete,
    Move,
    Copy,
}

impl LoreFileAction {
    /// The reported form of an action.
    pub open spec fn spec_of(action: FileAction) -> LoreFileAction {
        match action {
            FileAction::Keep => LoreFileAction::Keep,
            FileAction::Add => LoreFileAction::Add,
            FileAction::Delete => LoreFileAction::Delete,
            FileAction::Move => LoreFileAction::Move,
            FileAction::Copy => LoreFileAction::Copy,
        }
    }

    /// The reported form of an action.
    pub fn of(action: FileAction) -> (reported: LoreFileAction)
        ensures
            reported == LoreFileAction::spec_of(action),
    {
        match action {
            FileAction::Keep => LoreFileAction::Keep,
            FileAction::Add => LoreFileAction::Add,
            FileAction::Delete => LoreFileAction::Delete,
            FileAction::Move => LoreFileAction::Move,
            FileAction::Copy => LoreFileAction::Copy,
        }
    }
}

/// What a path stands for, as reported in events.
#[derive(Clone, Copy, Debug, PartialEq, Eq, Structural)]
pub enum LoreNodeType {
    Directory,
    File,
    Link,
}

impl LoreNodeType {
    /// The reported form of a node kind.
    pub open spec fn spec_of(kind: NodeKind) -> LoreNodeType {
        match kind {
            NodeKind::Directory => LoreNodeType::Directory,
            NodeKind::File => LoreNodeType::File,
            NodeKind::Link => LoreNodeType::Link,
        }
    }

    /// The reported form of a node kind.
    pub fn of(kind: NodeKind) -> (reported: LoreNodeType)
        ensures
            reported == LoreNodeType::spec_of(kind),
    {
        match kind {
            NodeKind::Directory => LoreNodeType::Directory,
            NodeKind::File => LoreNodeType::File,
            NodeKind::Link => LoreNodeType::Link,
        }
    }
}

/// One side of a change.
#[derive(Clone, Copy, Debug, PartialEq, Eq, Structural)]
pub struct ChangeSide {
    /// Number of the tree that has the node, among the trees that are compared. A
    /// linked repository has a tree of its own.
    pub tree: usize,
    pub node: NodeID,
    pub kind: NodeKind,
}

/// Where a change comes from and what became of it.
#[derive(Clone, Copy, Debug, PartialEq, Eq, Structural)]
pub struct ChangeFlags {
    pub stage: bool,
    pub dirty: bool,
    pub merge: bool,
    pub conflict: bool,
    pub conflict_unresolved: bool,
    pub conflict_automerged: bool,
    pub conflict_mine: bool,
    pub conflict_theirs: bool,
}

/// A path that differs between two states.
#[derive(Debug)]
pub struct NodeChange {
    pub path: String,
    /// Previous path of a moved or copied node.
    pub from_path: Option<String>,
    pub action: FileAction,
    pub from: ChangeSide,
    pub to: ChangeSide,
    pub flags: ChangeFlags,
}

} // verus!
