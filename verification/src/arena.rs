//! Append-only storage for tree nodes.

use crate::ast::Node;
use vstd::prelude::*;

verus! {

/// A stable handle to a node stored in an [`Arena`].
///
/// Two handles of one arena are equal exactly when they name the same stored node.
#[derive(Clone, Copy, Debug, PartialEq, Eq, Structural, Hash)]
pub struct NodeId {
    pub index: usize,
}

/// Whether every child handle of `node` names one of the first `bound` nodes.
pub open spec fn children_below<N: Node>(node: N, bound: int) -> bool {
    forall|j: int| 0 <= j < node.children_view().len() ==> (#[trigger] node.children_view()[j]).index < bound
}

/// Whether every stored node only points at nodes stored before it.
pub open spec fn nodes_wf<N: Node>(nodes: Seq<N>) -> bool {
    forall|i: int| 0 <= i < nodes.len() ==> children_below(#[trigger] nodes[i], i)
}

/// Owns every node allocated during an editing session.  Nodes are never
/// removed or moved, so a handle stays valid for as long as the arena lives.
pub struct Arena<N: Node> {
    nodes: Vec<N>,
}

impl<N: Node> View for Arena<N> {
    type V = Seq<N>;

    closed spec fn view(&self) -> Seq<N> {
        self.nodes@
    }
}

impl<N: Node> Arena<N> {
    /// The stored nodes form a directed acyclic graph: children precede parents.
    pub open spec fn wf(&self) -> bool {
        nodes_wf(self@)
    }

    /// Whether `id` names a node of this arena.
    pub open spec fn has(&self, id: NodeId) -> bool {
        id.index < self@.len()
    }

    /// Whether `node` could be stored next: all its children are already stored.
    pub open spec fn accepts(&self, node: N) -> bool {
        children_below(node, self@.len() as int)
    }

    /// An arena that holds no node.
    pub fn new() -> (arena: Self)
        ensures
            arena@ == Seq::<N>::empty(),
            arena.wf(),
    {
        Arena { nodes: Vec::new() }
    }

    /// The number of nodes allocated so far.
    pub fn len(&self) -> (n: usize)
        ensures
            n == self@.len(),
    {
        self.nodes.len()
    }

    /// Tests whether `id` names a node of this arena.
    pub fn contains(&self, id: NodeId) -> (b: bool)
        ensures
            b == self.has(id),
    {
        id.index < self.nodes.len()
    }

    /// Tests whether every child handle of `node` names a node of this arena.
    pub fn admits(&self, node: &N) -> (b: bool)
        ensures
            b == self.accepts(*node),
    {
        let children = node.children();
        let mut j: usize = 0;
        while j < children.len()
            invariant
                j <= children.len(),
                children@ == node.children_view(),
                forall|k: int| 0 <= k < j ==> (#[trigger] children@[k]).index < self@.len(),
            decreases children.len() - j,
        {
            if children[j].index >= self.nodes.len() {
                return false;
            }
            j += 1;
        }
        true
    }

    /// Stores `node` and returns its handle.  Every node stored before keeps its
    /// handle and its value.
    pub fn allocate(&mut self, node: N) -> (id: NodeId)
        requires
            old(self).wf(),
            old(self).accepts(node),
        ensures
            final(self).wf(),
            final(self)@ == old(self)@.push(node),
            id.index == old(self)@.len(),
    {
        let id = NodeId { index: self.nodes.len() };
        self.nodes.push(node);
        id
    }

    /// The node that `id` names.
    pub fn get(&self, id: NodeId) -> (node: &N)
        requires
            self.has(id),
        ensures
            *node == self@[id.index as int],
    {
        &self.nodes[id.index]
    }
}

} // verus!
