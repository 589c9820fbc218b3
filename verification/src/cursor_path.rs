//! Locating a node by the child indices that lead to it from a root.

use crate::arena::{children_below, nodes_wf, Arena, NodeId};
use crate::ast::Node;
use vstd::prelude::*;

verus! {

/// The node reached from `root` by following the child indices of `path` in order.
pub open spec fn node_at<N: Node>(nodes: Seq<N>, root: NodeId, path: Seq<usize>) -> NodeId
    decreases path.len(),
{
    if path.len() == 0 {
        root
    } else {
        nodes[node_at(nodes, root, path.drop_last()).index as int].children_view()[path.last() as int]
    }
}

/// Whether `path` can be followed from `root`: the root is stored, and every
/// index names an existing child of the node reached so far.
pub open spec fn path_valid<N: Node>(nodes: Seq<N>, root: NodeId, path: Seq<usize>) -> bool
    decreases path.len(),
{
    if path.len() == 0 {
        root.index < nodes.len()
    } else {
        &&& path_valid(nodes, root, path.drop_last())
        &&& path.last() < nodes[node_at(nodes, root, path.drop_last()).index as int].children_view().len()
    }
}

/// Following a valid path in a well-formed arena ends at a stored node.
pub proof fn lemma_node_at_stored<N: Node>(nodes: Seq<N>, root: NodeId, path: Seq<usize>)
    requires
        nodes_wf(nodes),
        path_valid(nodes, root, path),
    ensures
        node_at(nodes, root, path).index < nodes.len(),
    decreases path.len(),
{
    if path.len() > 0 {
        lemma_node_at_stored(nodes, root, path.drop_last());
        let parent = node_at(nodes, root, path.drop_last());
        assert(children_below(nodes[parent.index as int], parent.index as int));
    }
}

/// Every prefix of a valid path is valid.
pub proof fn lemma_prefix_valid<N: Node>(nodes: Seq<N>, root: NodeId, path: Seq<usize>, k: int)
    requires
        path_valid(nodes, root, path),
        0 <= k <= path.len(),
    ensures
        path_valid(nodes, root, path.take(k)),
    decreases path.len() - k,
{
    if k < path.len() {
        lemma_prefix_valid(nodes, root, path, k + 1);
        assert(path.take(k + 1).drop_last() =~= path.take(k));
    } else {
        assert(path.take(k) =~= path);
    }
}

/// One step further along a valid path: the node after `k + 1` indices is the
/// child, at index `path[k]`, of the node after `k` indices.
pub proof fn lemma_step<N: Node>(nodes: Seq<N>, root: NodeId, path: Seq<usize>, k: int)
    requires
        nodes_wf(nodes),
        path_valid(nodes, root, path),
        0 <= k < path.len(),
    ensures
        node_at(nodes, root, path.take(k)).index < nodes.len(),
        path[k] < nodes[node_at(nodes, root, path.take(k)).index as int].children_view().len(),
        node_at(nodes, root, path.take(k + 1)) == nodes[node_at(
            nodes,
            root,
            path.take(k),
        ).index as int].children_view()[path[k] as int],
{
    lemma_prefix_valid(nodes, root, path, k);
    lemma_prefix_valid(nodes, root, path, k + 1);
    lemma_node_at_stored(nodes, root, path.take(k));
    assert(path.take(k + 1).drop_last() =~= path.take(k));
}

/// The position of the cursor: the child indices to follow from a root, top
/// down.  The empty path is the root itself.
#[derive(Debug)]
pub struct CursorPath {
    indices: Vec<usize>,
}

impl View for CursorPath {
    type V = Seq<usize>;

    closed spec fn view(&self) -> Seq<usize> {
        self.indices@
    }
}

impl Clone for CursorPath {
    fn clone(&self) -> (copy: Self)
        ensures
            copy@ == self@,
    {
        let mut indices: Vec<usize> = Vec::new();
        let mut k: usize = 0;
        while k < self.indices.len()
            invariant
                k <= self.indices.len(),
                indices@ == self.indices@.take(k as int),
            decreases self.indices.len() - k,
        {
            indices.push(self.indices[k]);
            assert(self.indices@.take(k + 1) =~= self.indices@.take(k as int).push(self.indices@[k as int]));
            k += 1;
        }
        assert(self.indices@.take(k as int) =~= self.indices@);
        CursorPath { indices }
    }
}

impl CursorPath {
    /// The path of the root.
    pub fn root() -> (path: Self)
        ensures
            path@ == Seq::<usize>::empty(),
    {
        CursorPath { indices: Vec::new() }
    }

    /// Whether this path is the root's.
    pub fn is_root(&self) -> (b: bool)
        ensures
            b == (self@.len() == 0),
    {
        self.indices.len() == 0
    }

    /// The number of steps from the root.
    pub fn depth(&self) -> (n: usize)
        ensures
            n == self@.len(),
    {
        self.indices.len()
    }

    /// The child indices, top down.
    pub fn indices(&self) -> (indices: &Vec<usize>)
        ensures
            indices@ == self@,
    {
        &self.indices
    }

    /// Descends one level, to the child at `index`.
    pub fn push(&mut self, index: usize)
        ensures
            final(self)@ == old(self)@.push(index),
    {
        self.indices.push(index);
    }

    /// Ascends one level.  At the root there is nowhere to go and the path is unchanged.
    pub fn pop(&mut self)
        ensures
            old(self)@.len() > 0 ==> final(self)@ == old(self)@.drop_last(),
            old(self)@.len() == 0 ==> final(self)@ == old(self)@,
    {
        let _ = self.indices.pop();
    }

    /// The last index, open to change; `None` at the root.
    pub fn last_mut(&mut self) -> (last: Option<&mut usize>)
        ensures
            old(self)@.len() == 0 ==> last is None && final(self)@ == old(self)@,
            old(self)@.len() > 0 ==> match last {
                Some(index) => *index == old(self)@.last() && final(self)@ == old(self)@.drop_last().push(
                    *final(index),
                ),
                None => false,
            },
    {
        let n = self.indices.len();
        if n == 0 {
            None
        } else {
            Some(&mut self.indices[n - 1])
        }
    }

    /// The nodes from `root` down to the cursor: the root, then each node on
    /// the way, then the cursor node itself.
    pub fn node_iter<N: Node>(&self, arena: &Arena<N>, root: NodeId) -> (nodes: Vec<NodeId>)
        requires
            arena.wf(),
            path_valid(arena@, root, self@),
        ensures
            nodes@.len() == self@.len() + 1,
            forall|k: int| 0 <= k <= self@.len() ==> #[trigger] nodes@[k] == node_at(arena@, root, self@.take(k)),
    {
        let mut nodes: Vec<NodeId> = Vec::new();
        let mut current = root;
        nodes.push(current);
        let mut k: usize = 0;
        while k < self.indices.len()
            invariant
                k <= self.indices.len(),
                arena.wf(),
                path_valid(arena@, root, self@),
                nodes@.len() == k + 1,
                current == node_at(arena@, root, self@.take(k as int)),
                forall|j: int| 0 <= j <= k ==> #[trigger] nodes@[j] == node_at(arena@, root, self@.take(j)),
            decreases self.indices.len() - k,
        {
            proof {
                lemma_step(arena@, root, self@, k as int);
            }
            let node = arena.get(current);
            current = node.children()[self.indices[k]];
            nodes.push(current);
            k += 1;
        }
        nodes
    }

    /// The node under the cursor.
    pub fn cursor<N: Node>(&self, arena: &Arena<N>, root: NodeId) -> (cursor: NodeId)
        requires
            arena.wf(),
            path_valid(arena@, root, self@),
        ensures
            cursor == node_at(arena@, root, self@),
            arena.has(cursor),
    {
        let (cursor, _) = self.cursor_and_parent(arena, root);
        cursor
    }

    /// The node under the cursor and its parent; the root has no parent.
    pub fn cursor_and_parent<N: Node>(&self, arena: &Arena<N>, root: NodeId) -> (found: (
        NodeId,
        Option<NodeId>,
    ))
        requires
            arena.wf(),
            path_valid(arena@, root, self@),
        ensures
            found.0 == node_at(arena@, root, self@),
            arena.has(found.0),
            self@.len() == 0 ==> found.1 is None,
            self@.len() > 0 ==> found.1 == Some(node_at(arena@, root, self@.drop_last())) && arena.has(
                found.1.unwrap(),
            ),
    {
        let mut parent: Option<NodeId> = None;
        let mut current = root;
        let mut k: usize = 0;
        while k < self.indices.len()
            invariant
                k <= self.indices.len(),
                arena.wf(),
                path_valid(arena@, root, self@),
                current == node_at(arena@, root, self@.take(k as int)),
                k == 0 ==> parent is None,
                k > 0 ==> parent == Some(node_at(arena@, root, self@.take(k - 1))),
            decreases self.indices.len() - k,
        {
            proof {
                lemma_step(arena@, root, self@, k as int);
            }
            let node = arena.get(current);
            parent = Some(current);
            current = node.children()[self.indices[k]];
            k += 1;
        }
        proof {
            assert(self@.take(k as int) =~= self@);
            lemma_node_at_stored(arena@, root, self@);
            if k > 0 {
                assert(self@.take(k - 1) =~= self@.drop_last());
                lemma_prefix_valid(arena@, root, self@, k - 1);
                lemma_node_at_stored(arena@, root, self@.drop_last());
            }
        }
        (current, parent)
    }
}

} // verus!
