//! The indexed tree: one node per filesystem entry.

use vstd::prelude::*;
use crate::observed::sum;

verus! {

/// What kind of entry a node stands for.
#[derive(Clone, Copy, Debug, PartialEq, Eq, Structural)]
pub enum NodeType {
    File,
    Directory,
    /// A directory excluded by its ignore rules, collapsed into one leaf
    /// that carries the byte total of everything below it.
    IgnoredDirectory,
}

/// One node of the indexed tree. It owns its children.
#[derive(Debug, PartialEq, Eq)]
pub struct FileNode {
    /// The entry's base name; for an ignored directory, its full path.
    pub name: String,
    /// Bytes in the entry and everything below it.
    pub size: u64,
    pub node_type: NodeType,
    /// The nodes of a directory's entries; empty for the two leaf kinds.
    pub children: Vec<FileNode>,
}

/// Mathematical value of a [`FileNode`].
pub struct NodeModel {
    pub name: Seq<char>,
    pub size: nat,
    pub kind: NodeType,
    pub children: Seq<NodeModel>,
}

/// The mathematical value of a node and of everything below it.
pub open spec fn node_of(node: FileNode) -> NodeModel
    decreases node,
{
    NodeModel {
        name: node.name@,
        size: node.size as nat,
        kind: node.node_type,
        children: Seq::new(
            node.children@.len(),
            |i: int|
                if 0 <= i < node.children@.len() {
                    node_of(node.children@[i])
                } else {
                    arbitrary()
                },
        ),
    }
}

impl View for FileNode {
    type V = NodeModel;

    open spec fn view(&self) -> NodeModel {
        node_of(*self)
    }
}

/// The sizes of a sequence of nodes, in order.
pub open spec fn sizes(nodes: Seq<NodeModel>) -> Seq<nat> {
    Seq::new(nodes.len(), |i: int| nodes[i].size)
}

/// The invariant of the indexed tree, at this node and at every node below
/// it: a directory's size is the sum of its children's sizes, and only a
/// directory has children.
pub open spec fn well_formed(node: NodeModel) -> bool
    decreases node,
{
    match node.kind {
        NodeType::Directory => {
            &&& node.size == sum(sizes(node.children))
            &&& forall|i: int| 0 <= i < node.children.len() ==> well_formed(#[trigger] node.children[i])
        },
        NodeType::File | NodeType::IgnoredDirectory => node.children.len() == 0,
    }
}

impl FileNode {
    /// The tree invariant holds at this node and below.
    pub open spec fn wf(&self) -> bool {
        well_formed(self@)
    }

    /// The children of a node's value are the values of its children.
    pub proof fn lemma_children_view(&self)
        ensures
            self@.name == self.name@,
            self@.size == self.size,
            self@.kind == self.node_type,
            self@.children.len() == self.children@.len(),
            forall|i: int|
                0 <= i < self.children@.len() ==> #[trigger] self@.children[i] == self.children@[i]@,
    {
    }

    /// A node without children. A directory starts empty, so its size is 0.
    pub fn new(name: String, size: u64, node_type: NodeType) -> (node: FileNode)
        requires
            node_type is Directory ==> size == 0,
        ensures
            node@ == (NodeModel { name: name@, size: size as nat, kind: node_type, children: Seq::empty() }),
            node.wf(),
    {
        let node = FileNode { name, size, node_type, children: Vec::new() };
        proof {
            node.lemma_children_view();
            assert(node@.children =~= Seq::empty());
            assert(sizes(node@.children) =~= Seq::empty());
        }
        node
    }

    /// Appends `child` to a directory and adds the child's size to its own.
    pub fn add_child(&mut self, child: FileNode)
        requires
            old(self).wf(),
            child.wf(),
            old(self).node_type is Directory,
            old(self).size + child.size <= u64::MAX,
        ensures
            final(self)@ == (NodeModel {
                size: old(self)@.size + child@.size,
                children: old(self)@.children.push(child@),
                ..old(self)@
            }),
            final(self).wf(),
    {
        proof {
            self.lemma_children_view();
            child.lemma_children_view();
        }
        let ghost before = self@;
        self.size += child.size;
        self.children.push(child);
        proof {
            self.lemma_children_view();
            assert(self@.children =~= before.children.push(child@));
            assert(sizes(self@.children).drop_last() =~= sizes(before.children));
        }
    }
}

} // verus!
