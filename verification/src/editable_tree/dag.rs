//! The edit history as a graph of immutable nodes: an edit copies the nodes
//! between the cursor and the root and shares everything else.

use crate::arena::{children_below, nodes_wf, Arena, NodeId};
use crate::ast::display_token::text_of;
use crate::ast::{write_text, Ast, Node};
use crate::cursor_path::{lemma_node_at_stored, lemma_prefix_valid, lemma_step, node_at, path_valid, CursorPath};
use crate::editable_tree::Direction;
use vstd::prelude::*;
use vstd::string::*;

verus! {

/// The history of a tree, as mathematics: the recorded `(root, cursor path)`
/// pairs, which of them is current, and where the cursor is now.
pub struct History {
    pub entries: Seq<(NodeId, Seq<usize>)>,
    pub index: int,
    pub cursor: Seq<usize>,
}

impl History {
    /// There is always a current entry.
    pub open spec fn wf(self) -> bool {
        &&& self.entries.len() >= 1
        &&& 0 <= self.index < self.entries.len()
    }

    /// The root of the current entry.
    pub open spec fn root(self) -> NodeId {
        self.entries[self.index].0
    }

    /// Whether an earlier entry exists.
    pub open spec fn can_undo(self) -> bool {
        self.index > 0
    }

    /// Whether a later entry exists.
    pub open spec fn can_redo(self) -> bool {
        self.index < self.entries.len() - 1
    }

    /// One entry back, with the cursor where that entry recorded it; unchanged
    /// where there is no earlier entry.
    pub open spec fn undo(self) -> History {
        if self.can_undo() {
            History { entries: self.entries, index: self.index - 1, cursor: self.entries[self.index - 1].1 }
        } else {
            self
        }
    }

    /// One entry forward, with the cursor where that entry recorded it;
    /// unchanged where there is no later entry.
    pub open spec fn redo(self) -> History {
        if self.can_redo() {
            History { entries: self.entries, index: self.index + 1, cursor: self.entries[self.index + 1].1 }
        } else {
            self
        }
    }

    /// The cursor somewhere else, the entries untouched.
    pub open spec fn moved(self, cursor: Seq<usize>) -> History {
        History { entries: self.entries, index: self.index, cursor }
    }

    /// A new entry `(root, cursor)` right after the current one, which becomes
    /// current; the entries that were later are gone.
    pub open spec fn commit(self, root: NodeId) -> History {
        History {
            entries: self.entries.take(self.index + 1).push((root, self.cursor)),
            index: self.index + 1,
            cursor: self.cursor,
        }
    }

    /// `undo` applied `n` times.
    pub open spec fn undo_times(self, n: nat) -> History
        decreases n,
    {
        if n == 0 {
            self
        } else {
            self.undo().undo_times((n - 1) as nat)
        }
    }

    /// `redo` applied `n` times.
    pub open spec fn redo_times(self, n: nat) -> History
        decreases n,
    {
        if n == 0 {
            self
        } else {
            self.redo().redo_times((n - 1) as nat)
        }
    }

    /// A run of edits, each made with the cursor at a path of its own: the
    /// cursor moves to `edits[i].0` and the root `edits[i].1` is committed.
    pub open spec fn edited(self, edits: Seq<(Seq<usize>, NodeId)>) -> History
        decreases edits.len(),
    {
        if edits.len() == 0 {
            self
        } else {
            self.edited(edits.drop_last()).moved(edits.last().0).commit(edits.last().1)
        }
    }
}

/// Where a move in `direction` takes the cursor, or `None` where the tree
/// has no node there.
pub open spec fn move_target<N: Node>(nodes: Seq<N>, root: NodeId, cursor: Seq<usize>, direction: Direction) -> Option<
    Seq<usize>,
> {
    match direction {
        Direction::Down => if nodes[node_at(nodes, root, cursor).index as int].children_view().len() == 0 {
            None
        } else {
            Some(cursor.push(0))
        },
        Direction::Up => if cursor.len() == 0 {
            None
        } else {
            Some(cursor.drop_last())
        },
        Direction::Prev => if cursor.len() == 0 || cursor.last() == 0 {
            None
        } else {
            Some(cursor.drop_last().push((cursor.last() - 1) as usize))
        },
        Direction::Next => if cursor.len() == 0 || cursor.last() + 1 >= nodes[node_at(
            nodes,
            root,
            cursor.drop_last(),
        ).index as int].children_view().len() {
            None
        } else {
            Some(cursor.drop_last().push((cursor.last() + 1) as usize))
        },
    }
}

/// What the user is told when a move in `direction` is refused.
pub open spec fn move_refusal(cursor: Seq<usize>, direction: Direction) -> Seq<char> {
    match direction {
        Direction::Down => "Cannot move down the tree if the cursor has no children."@,
        Direction::Up => "Cannot move to the parent of the root."@,
        Direction::Prev => if cursor.len() == 0 {
            "Cannot move to a sibling of the root."@
        } else {
            "Cannot move before the first child of a node."@
        },
        Direction::Next => if cursor.len() == 0 {
            "Cannot move to a sibling of the root."@
        } else {
            "Cannot move past the last sibling of a node."@
        },
    }
}

/// What an edit at `path` under `old_root` leaves in the arena: the nodes of
/// before, then `node`, then one copy of each node between the cursor and the
/// root, bottom up, ending with `new_root`.  Each copy has the content of its
/// original and its children, but for the slot on the path, which holds the
/// node allocated just before the copy.
pub open spec fn path_copied<N: Node>(
    old_nodes: Seq<N>,
    new_nodes: Seq<N>,
    old_root: NodeId,
    new_root: NodeId,
    path: Seq<usize>,
    node: N,
) -> bool {
    let base = old_nodes.len() as int;
    let depth = path.len() as int;
    &&& new_nodes.len() == base + depth + 1
    &&& new_nodes.take(base) == old_nodes
    &&& new_nodes[base] == node
    &&& new_root.index == base + depth
    &&& forall|i: int|
        base < i <= base + depth ==> {
            let level = base + depth - i;
            let original = old_nodes[node_at(old_nodes, old_root, path.take(level)).index as int];
            let copy = #[trigger] new_nodes[i];
            &&& copy.content() == original.content()
            &&& copy.children_view() == original.children_view().update(
                path[level] as int,
                NodeId { index: (i - 1) as usize },
            )
        }
}

/// Allocating more nodes changes nothing below a root of before: a path that
/// could be followed still can, and ends at the same node.
pub proof fn lemma_extension<N: Node>(old_nodes: Seq<N>, new_nodes: Seq<N>, root: NodeId, path: Seq<usize>)
    requires
        nodes_wf(old_nodes),
        old_nodes.len() <= new_nodes.len(),
        new_nodes.take(old_nodes.len() as int) == old_nodes,
        path_valid(old_nodes, root, path),
    ensures
        path_valid(new_nodes, root, path),
        node_at(new_nodes, root, path) == node_at(old_nodes, root, path),
    decreases path.len(),
{
    if path.len() > 0 {
        lemma_extension(old_nodes, new_nodes, root, path.drop_last());
        lemma_node_at_stored(old_nodes, root, path.drop_last());
        let parent = node_at(old_nodes, root, path.drop_last()).index as int;
        assert(new_nodes.take(old_nodes.len() as int)[parent] == new_nodes[parent]);
    }
}

/// After an edit, the cursor path can be followed from the new root, and
/// its first `level` steps lead to the copy made for that level (at the
/// last level, to the node that was put in).
pub proof fn lemma_copied_path<N: Node>(
    old_nodes: Seq<N>,
    new_nodes: Seq<N>,
    old_root: NodeId,
    new_root: NodeId,
    path: Seq<usize>,
    node: N,
    level: int,
)
    requires
        nodes_wf(old_nodes),
        path_valid(old_nodes, old_root, path),
        path_copied(old_nodes, new_nodes, old_root, new_root, path, node),
        0 <= level <= path.len(),
    ensures
        path_valid(new_nodes, new_root, path.take(level)),
        node_at(new_nodes, new_root, path.take(level)).index == old_nodes.len() + path.len() - level,
    decreases level,
{
    if level > 0 {
        lemma_copied_path(old_nodes, new_nodes, old_root, new_root, path, node, level - 1);
        lemma_step(old_nodes, old_root, path, level - 1);
        assert(path.take(level).drop_last() =~= path.take(level - 1));
        let i = old_nodes.len() + path.len() - (level - 1);
        let copy = new_nodes[i];
        assert(copy.children_view().len() == old_nodes[node_at(
            old_nodes,
            old_root,
            path.take(level - 1),
        ).index as int].children_view().len());
    }
}

/// Two paths of which neither continues the other part ways somewhere: they
/// agree on their first `at` steps and differ in the next.
pub proof fn lemma_parting(path: Seq<usize>, other: Seq<usize>, from: int) -> (at: int)
    requires
        !path.is_prefix_of(other),
        !other.is_prefix_of(path),
        0 <= from <= path.len(),
        from <= other.len(),
        path.take(from) == other.take(from),
    ensures
        from <= at < path.len(),
        at < other.len(),
        path.take(at) == other.take(at),
        path[at] != other[at],
    decreases path.len() - from,
{
    if from == path.len() {
        assert(path.take(from) =~= path);
        assert(other.take(from) =~= other.subrange(0, path.len() as int));
        assert(false);
        from
    } else if from == other.len() {
        assert(other.take(from) =~= other);
        assert(path.take(from) =~= path.subrange(0, other.len() as int));
        assert(false);
        from
    } else if path[from] != other[from] {
        from
    } else {
        assert(path.take(from + 1) =~= path.take(from).push(path[from]));
        assert(other.take(from + 1) =~= other.take(from).push(other[from]));
        lemma_parting(path, other, from + 1)
    }
}

/// The induction behind [`lemma_edit_shares_untouched`]: once `position` has
/// left the cursor path, at step `at`, each further step stays in the tree of before.
proof fn lemma_shared_below_parting<N: Node>(
    old_nodes: Seq<N>,
    new_nodes: Seq<N>,
    old_root: NodeId,
    new_root: NodeId,
    path: Seq<usize>,
    node: N,
    position: Seq<usize>,
    at: int,
    steps: int,
)
    requires
        nodes_wf(old_nodes),
        path_valid(old_nodes, old_root, path),
        path_copied(old_nodes, new_nodes, old_root, new_root, path, node),
        path_valid(new_nodes, new_root, position),
        0 <= at < path.len(),
        at < steps <= position.len(),
        path.take(at) == position.take(at),
        path[at] != position[at],
    ensures
        path_valid(old_nodes, old_root, position.take(steps)),
        node_at(new_nodes, new_root, position.take(steps)) == node_at(old_nodes, old_root, position.take(steps)),
    decreases steps,
{
    let base = old_nodes.len() as int;
    lemma_prefix_valid(new_nodes, new_root, position, steps);
    assert(position.take(steps).drop_last() =~= position.take(steps - 1));
    if steps == at + 1 {
        lemma_copied_path(old_nodes, new_nodes, old_root, new_root, path, node, at);
        lemma_step(old_nodes, old_root, path, at);
        lemma_prefix_valid(old_nodes, old_root, path, at);
        let i = base + path.len() - at;
        let copy = new_nodes[i];
        let original = old_nodes[node_at(old_nodes, old_root, path.take(at)).index as int];
        assert(copy.children_view() == original.children_view().update(
            path[at] as int,
            NodeId { index: (i - 1) as usize },
        ));
    } else {
        lemma_shared_below_parting(old_nodes, new_nodes, old_root, new_root, path, node, position, at, steps - 1);
        lemma_node_at_stored(old_nodes, old_root, position.take(steps - 1));
        let parent = node_at(old_nodes, old_root, position.take(steps - 1)).index as int;
        assert(new_nodes.take(base)[parent] == new_nodes[parent]);
    }
}

/// An edit shares every node that it does not have to copy.
///
/// Let `position` be a path that can be followed from the root after an edit
/// at `path`.  If `position` is not on the way from the root to the cursor,
/// and not below the cursor, then it could be followed before the edit too,
/// and it leads to the same handle, which still names the same node.
/// (Below the cursor the tree is whatever the node that was put in holds.)
pub proof fn lemma_edit_shares_untouched<N: Node>(
    old_nodes: Seq<N>,
    new_nodes: Seq<N>,
    old_root: NodeId,
    new_root: NodeId,
    path: Seq<usize>,
    node: N,
    position: Seq<usize>,
)
    requires
        nodes_wf(old_nodes),
        path_valid(old_nodes, old_root, path),
        path_copied(old_nodes, new_nodes, old_root, new_root, path, node),
        path_valid(new_nodes, new_root, position),
        !position.is_prefix_of(path),
        !path.is_prefix_of(position),
    ensures
        path_valid(old_nodes, old_root, position),
        node_at(new_nodes, new_root, position) == node_at(old_nodes, old_root, position),
        node_at(old_nodes, old_root, position).index < old_nodes.len(),
        new_nodes[node_at(new_nodes, new_root, position).index as int] == old_nodes[node_at(
            old_nodes,
            old_root,
            position,
        ).index as int],
{
    assert(path.take(0) =~= position.take(0));
    let at = lemma_parting(path, position, 0);
    lemma_shared_below_parting(
        old_nodes,
        new_nodes,
        old_root,
        new_root,
        path,
        node,
        position,
        at,
        position.len() as int,
    );
    assert(position.take(position.len() as int) =~= position);
    lemma_node_at_stored(old_nodes, old_root, position);
    let shared = node_at(old_nodes, old_root, position).index as int;
    assert(new_nodes.take(old_nodes.len() as int)[shared] == new_nodes[shared]);
}

/// An edit allocates one node for the replacement and one for each step of
/// the cursor path, however large the tree is.
pub proof fn lemma_edit_cost<N: Node>(
    old_nodes: Seq<N>,
    new_nodes: Seq<N>,
    old_root: NodeId,
    new_root: NodeId,
    path: Seq<usize>,
    node: N,
)
    requires
        path_copied(old_nodes, new_nodes, old_root, new_root, path, node),
    ensures
        new_nodes.len() - old_nodes.len() == path.len() + 1,
{
}

/// A valid history stays valid under undo, redo, cursor moves and commits:
/// there is always a current entry.
pub proof fn lemma_history_stays_valid(history: History, cursor: Seq<usize>, root: NodeId)
    requires
        history.wf(),
    ensures
        history.undo().wf(),
        history.redo().wf(),
        history.moved(cursor).wf(),
        history.commit(root).wf(),
        history.entries.len() >= 1,
        0 <= history.index < history.entries.len(),
{
}

/// What a run of edits leaves: one entry more for each edit, the last of
/// them current and, if there was an edit, last; the entries up to the one
/// that was current are untouched.
pub proof fn lemma_edited(history: History, edits: Seq<(Seq<usize>, NodeId)>)
    requires
        history.wf(),
    ensures
        history.edited(edits).wf(),
        history.edited(edits).index == history.index + edits.len(),
        edits.len() > 0 ==> history.edited(edits).entries.len() == history.index + edits.len() + 1,
        history.edited(edits).entries.take(history.index + 1) == history.entries.take(history.index + 1),
        edits.len() > 0 ==> history.edited(edits).root() == edits.last().1,
    decreases edits.len(),
{
    if edits.len() > 0 {
        lemma_edited(history, edits.drop_last());
        let earlier = history.edited(edits.drop_last()).moved(edits.last().0);
        let later = earlier.commit(edits.last().1);
        assert(later.entries.take(history.index + 1) =~= earlier.entries.take(history.index + 1));
    }
}

/// `steps` undos, where that many earlier entries exist, go back that many
/// entries and change none.
pub proof fn lemma_undo_times(history: History, steps: nat)
    requires
        history.wf(),
        steps <= history.index,
    ensures
        history.undo_times(steps).entries == history.entries,
        history.undo_times(steps).index == history.index - steps,
        steps > 0 ==> history.undo_times(steps).cursor == history.entries[history.index - steps].1,
    decreases steps,
{
    if steps > 0 {
        lemma_undo_times(history.undo(), (steps - 1) as nat);
    }
}

/// `steps` redos, where that many later entries exist, go forward that many
/// entries and change none.
pub proof fn lemma_redo_times(history: History, steps: nat)
    requires
        history.wf(),
        history.index + steps < history.entries.len(),
    ensures
        history.redo_times(steps).entries == history.entries,
        history.redo_times(steps).index == history.index + steps,
        steps > 0 ==> history.redo_times(steps).cursor == history.entries[history.index + steps].1,
    decreases steps,
{
    if steps > 0 {
        lemma_redo_times(history.redo(), (steps - 1) as nat);
    }
}

/// Undo takes edits back, and redo brings them again.
///
/// After any run of edits, as many undos as there were edits make the root
/// of before the edits current again, and as many redos after that make the
/// root of the last edit current again.
pub proof fn lemma_undo_redo_inverse(history: History, edits: Seq<(Seq<usize>, NodeId)>)
    requires
        history.wf(),
    ensures
        history.edited(edits).undo_times(edits.len()).root() == history.root(),
        history.edited(edits).undo_times(edits.len()).index == history.index,
        history.edited(edits).undo_times(edits.len()).redo_times(edits.len()).root() == history.edited(edits).root(),
        history.edited(edits).undo_times(edits.len()).redo_times(edits.len()).index == history.edited(edits).index,
{
    let after = history.edited(edits);
    lemma_edited(history, edits);
    lemma_undo_times(after, edits.len());
    let back = after.undo_times(edits.len());
    assert(after.entries.take(history.index + 1)[history.index] == history.entries.take(history.index + 1)[history.index]);
    lemma_redo_times(back, edits.len());
}

/// An edit abandons what could be redone: after a commit, whether or not
/// undos came before it, there is nothing to redo.
pub proof fn lemma_commit_discards_redo(history: History, root: NodeId)
    requires
        history.wf(),
    ensures
        !history.commit(root).can_redo(),
        !history.undo().commit(root).can_redo(),
        history.commit(root).redo() == history.commit(root),
{
}

/// A tree with its edit history.  Every edit commits a new root; undo and
/// redo move between the committed roots without changing any of them.
pub struct DAG<N: Node> {
    /// Owns every node of every root.
    arena: Arena<N>,
    /// The committed roots, oldest first, each with the cursor path of its commit.
    root_history: Vec<(NodeId, CursorPath)>,
    /// Which entry of `root_history` is current.
    history_index: usize,
    /// Where the cursor is, relative to the current root.
    current_cursor_path: CursorPath,
}

impl<N: Node> View for DAG<N> {
    type V = History;

    closed spec fn view(&self) -> History {
        History {
            entries: Seq::new(self.root_history@.len(), |i: int| (self.root_history@[i].0, self.root_history@[i].1@)),
            index: self.history_index as int,
            cursor: self.current_cursor_path@,
        }
    }
}

impl<N: Node> DAG<N> {
    /// The nodes of the arena, by handle.
    pub closed spec fn nodes(&self) -> Seq<N> {
        self.arena@
    }

    /// The invariant of the tree: the arena is acyclic, a current entry
    /// exists, every recorded cursor path can be followed from its root, and
    /// so can the cursor's from the current root.
    pub open spec fn wf(&self) -> bool {
        &&& nodes_wf(self.nodes())
        &&& self@.wf()
        &&& forall|i: int|
            0 <= i < self@.entries.len() ==> path_valid(self.nodes(), (#[trigger] self@.entries[i]).0, self@.entries[i].1)
        &&& path_valid(self.nodes(), self@.root(), self@.cursor)
    }

    /// Whether `id` names a node of this tree's arena.
    pub open spec fn has(&self, id: NodeId) -> bool {
        id.index < self.nodes().len()
    }

    /// The node under the cursor.
    pub open spec fn cursor_node(&self) -> NodeId {
        node_at(self.nodes(), self@.root(), self@.cursor)
    }

    /// A tree whose history holds `root` alone, with the cursor on it.
    pub fn new(arena: Arena<N>, root: NodeId) -> (tree: Self)
        requires
            arena.wf(),
            arena.has(root),
        ensures
            tree.wf(),
            tree.nodes() == arena@,
            tree@ == (History { entries: seq![(root, Seq::<usize>::empty())], index: 0, cursor: Seq::<usize>::empty() }),
    {
        let mut root_history: Vec<(NodeId, CursorPath)> = Vec::new();
        root_history.push((root, CursorPath::root()));
        let tree = DAG { arena, root_history, history_index: 0, current_cursor_path: CursorPath::root() };
        assert(tree@.entries =~= seq![(root, Seq::<usize>::empty())]);
        tree
    }

    /// The arena that owns the nodes of this tree.
    pub fn arena(&self) -> (arena: &Arena<N>)
        ensures
            arena@ == self.nodes(),
    {
        &self.arena
    }

    /// The number of history entries.
    pub fn history_len(&self) -> (n: usize)
        ensures
            n == self@.entries.len(),
    {
        self.root_history.len()
    }

    /// The position of the current entry in the history.
    pub fn history_index(&self) -> (i: usize)
        ensures
            i == self@.index,
    {
        self.history_index
    }

    /// The path of the cursor from the current root.
    pub fn cursor_path(&self) -> (path: &CursorPath)
        ensures
            path@ == self@.cursor,
    {
        &self.current_cursor_path
    }

    /// Goes one entry back in the history and puts the cursor where that
    /// entry recorded it.  Returns whether there was an entry to go back to.
    pub fn undo(&mut self) -> (undone: bool)
        requires
            old(self).wf(),
        ensures
            final(self).wf(),
            undone == old(self)@.can_undo(),
            final(self)@ == old(self)@.undo(),
            final(self).nodes() == old(self).nodes(),
    {
        if self.history_index > 0 {
            self.history_index -= 1;
            self.current_cursor_path = self.root_history[self.history_index].1.clone();
            assert(self@.entries =~= old(self)@.entries);
            true
        } else {
            false
        }
    }

    /// Goes one entry forward in the history and puts the cursor where that
    /// entry recorded it.  Returns whether there was an entry to go forward to.
    pub fn redo(&mut self) -> (redone: bool)
        requires
            old(self).wf(),
        ensures
            final(self).wf(),
            redone == old(self)@.can_redo(),
            final(self)@ == old(self)@.redo(),
            final(self).nodes() == old(self).nodes(),
    {
        if self.history_index < self.root_history.len() - 1 {
            self.history_index += 1;
            self.current_cursor_path = self.root_history[self.history_index].1.clone();
            assert(self@.entries =~= old(self)@.entries);
            true
        } else {
            false
        }
    }

    /// The root of the current entry.
    pub fn root(&self) -> (root: NodeId)
        requires
            self.wf(),
        ensures
            root == self@.root(),
            self.has(root),
    {
        proof {
            assert(path_valid(self.nodes(), self@.entries[self@.index].0, self@.entries[self@.index].1));
            lemma_prefix_valid(self.nodes(), self@.root(), self@.cursor, 0);
        }
        self.root_history[self.history_index].0
    }

    /// The node under the cursor.
    pub fn cursor(&self) -> (cursor: NodeId)
        requires
            self.wf(),
        ensures
            cursor == self.cursor_node(),
            self.has(cursor),
    {
        self.current_cursor_path.cursor(&self.arena, self.root())
    }

    /// The node under the cursor and its parent; the root has no parent.
    pub fn cursor_and_parent(&self) -> (found: (NodeId, Option<NodeId>))
        requires
            self.wf(),
        ensures
            found.0 == self.cursor_node(),
            self.has(found.0),
            self@.cursor.len() == 0 ==> found.1 is None,
            self@.cursor.len() > 0 ==> found.1 == Some(node_at(self.nodes(), self@.root(), self@.cursor.drop_last()))
                && self.has(found.1.unwrap()),
    {
        self.current_cursor_path.cursor_and_parent(&self.arena, self.root())
    }
    /// Moves the cursor one step in `direction`.  Where the tree has no node
    /// there, the cursor stays and the reason is returned.  The history is
    /// never touched.
    pub fn move_cursor(&mut self, direction: Direction) -> (refusal: Option<String>)
        requires
            old(self).wf(),
        ensures
            final(self).wf(),
            final(self).nodes() == old(self).nodes(),
            match move_target(old(self).nodes(), old(self)@.root(), old(self)@.cursor, direction) {
                Some(target) => refusal is None && final(self)@ == old(self)@.moved(target),
                None => final(self)@ == old(self)@ && refusal is Some && refusal->0@ == move_refusal(
                    old(self)@.cursor,
                    direction,
                ),
            },
    {
        let (current_cursor, cursor_parent) = self.cursor_and_parent();
        let ghost before = self@.cursor;
        let ghost nodes = self.nodes();
        let ghost root = self@.root();
        match direction {
            Direction::Down => {
                if self.arena.get(current_cursor).children().len() == 0 {
                    Some(String::from_str("Cannot move down the tree if the cursor has no children."))
                } else {
                    self.current_cursor_path.push(0);
                    proof {
                        assert(self@.entries =~= old(self)@.entries);
                        assert(before.push(0).drop_last() =~= before);
                    }
                    None
                }
            },
            Direction::Up => {
                if self.current_cursor_path.is_root() {
                    return Some(String::from_str("Cannot move to the parent of the root."));
                }
                self.current_cursor_path.pop();
                proof {
                    assert(self@.entries =~= old(self)@.entries);
                }
                None
            },
            Direction::Prev => {
                let refusal = match self.current_cursor_path.last_mut() {
                    Some(index) => {
                        if *index == 0 {
                            Some(String::from_str("Cannot move before the first child of a node."))
                        } else {
                            *index -= 1;
                            None
                        }
                    },
                    None => Some(String::from_str("Cannot move to a sibling of the root.")),
                };
                proof {
                    assert(self@.entries =~= old(self)@.entries);
                    if before.len() > 0 {
                        if before.last() == 0 {
                            assert(self@.cursor =~= before);
                        } else {
                            let target = before.drop_last().push((before.last() - 1) as usize);
                            assert(self@.cursor =~= target);
                            assert(target.drop_last() =~= before.drop_last());
                        }
                    }
                }
                refusal
            },
            Direction::Next => {
                let refusal = match self.current_cursor_path.last_mut() {
                    Some(last_index) => {
                        let siblings = self.arena.get(cursor_parent.unwrap()).children().len();
                        if *last_index + 1 < siblings {
                            *last_index += 1;
                            None
                        } else {
                            Some(String::from_str("Cannot move past the last sibling of a node."))
                        }
                    },
                    None => Some(String::from_str("Cannot move to a sibling of the root.")),
                };
                proof {
                    assert(self@.entries =~= old(self)@.entries);
                    if before.len() > 0 {
                        let siblings = nodes[node_at(nodes, root, before.drop_last()).index as int].children_view().len();
                        if before.last() + 1 < siblings {
                            let target = before.drop_last().push((before.last() + 1) as usize);
                            assert(self@.cursor =~= target);
                            assert(target.drop_last() =~= before.drop_last());
                        } else {
                            assert(self@.cursor =~= before);
                        }
                    }
                }
                refusal
            },
        }
    }

    /// Puts `new_node` in place of the node under the cursor and commits the
    /// tree that results as a new history entry, which becomes the last one.
    ///
    /// Only the nodes between the cursor and the root are copied; every other
    /// node of the new tree is shared with the tree before.
    pub fn replace_cursor(&mut self, new_node: N)
        requires
            old(self).wf(),
            children_below(new_node, old(self).nodes().len() as int),
        ensures
            final(self).wf(),
            path_copied(
                old(self).nodes(),
                final(self).nodes(),
                old(self)@.root(),
                final(self)@.root(),
                old(self)@.cursor,
                new_node,
            ),
            final(self).nodes().len() == old(self).nodes().len() + old(self)@.cursor.len() + 1,
            final(self)@ == old(self)@.commit(final(self)@.root()),
            final(self).cursor_node() == (NodeId { index: old(self).nodes().len() as usize }),
    {
        let ghost old_nodes = self.nodes();
        let ghost old_view = self@;
        let ghost path = self@.cursor;
        let ghost base = old_nodes.len() as int;
        let ghost depth = path.len() as int;
        let root = self.root();
        // Entries after the current one are abandoned.
        let recorded = self.root_history.len();
        assert(self.history_index < recorded) by {
            assert(self@.entries.len() == self.root_history@.len());
        }
        self.root_history.truncate(self.history_index + 1);
        // The nodes from the root down to the parent of the cursor are the ones to copy.
        let mut nodes_to_clone = self.current_cursor_path.node_iter(&self.arena, root);
        let _ = nodes_to_clone.pop();
        let mut node = self.arena.allocate(new_node);
        let ghost kept = self.root_history;
        let ghost cursor_path = self.current_cursor_path;
        let mut level: usize = nodes_to_clone.len();
        while level > 0
            invariant
                level <= depth,
                depth == path.len(),
                base == old_nodes.len(),
                nodes_wf(old_nodes),
                path_valid(old_nodes, root, path),
                self.root_history == kept,
                self.current_cursor_path == cursor_path,
                self.history_index == old(self).history_index,
                cursor_path@ == path,
                nodes_to_clone@.len() == depth,
                forall|k: int| 0 <= k < depth ==> #[trigger] nodes_to_clone@[k] == node_at(old_nodes, root, path.take(k)),
                self.arena.wf(),
                self.arena@.len() == base + depth - level + 1,
                self.arena@.take(base) == old_nodes,
                self.arena@[base] == new_node,
                node.index == base + depth - level,
                forall|i: int|
                    base < i <= base + depth - level ==> {
                        let original = old_nodes[node_at(old_nodes, root, path.take(base + depth - i)).index as int];
                        let copy = #[trigger] self.arena@[i];
                        &&& copy.content() == original.content()
                        &&& copy.children_view() == original.children_view().update(
                            path[base + depth - i] as int,
                            NodeId { index: (i - 1) as usize },
                        )
                    },
            decreases level,
        {
            level -= 1;
            proof {
                lemma_step(old_nodes, root, path, level as int);
            }
            let ghost before = self.arena@;
            let original_id = nodes_to_clone[level];
            assert(before.take(base)[original_id.index as int] == before[original_id.index as int]);
            let mut copy = self.arena.get(original_id).duplicate();
            let child_index = self.current_cursor_path.indices()[level];
            let children = copy.children_mut();
            children[child_index] = node;
            proof {
                let original = old_nodes[original_id.index as int];
                assert(children_below(original, original_id.index as int));
                assert(copy.children_view() == original.children_view().update(child_index as int, node));
                assert forall|j: int| 0 <= j < copy.children_view().len() implies (#[trigger] copy.children_view()[j]).index
                    < before.len() by {
                    if j != child_index {
                        assert(copy.children_view()[j] == original.children_view()[j]);
                    }
                }
            }
            node = self.arena.allocate(copy);
            proof {
                assert(self.arena@.take(base) =~= before.take(base));
                assert forall|i: int| base < i <= base + depth - level implies {
                    let original = old_nodes[node_at(old_nodes, root, path.take(base + depth - i)).index as int];
                    let copy = #[trigger] self.arena@[i];
                    &&& copy.content() == original.content()
                    &&& copy.children_view() == original.children_view().update(
                        path[base + depth - i] as int,
                        NodeId { index: (i - 1) as usize },
                    )
                } by {
                    if i < base + depth - level {
                        assert(self.arena@[i] == before[i]);
                    }
                }
            }
        }
        self.root_history.push((node, self.current_cursor_path.clone()));
        self.history_index = self.root_history.len() - 1;
        proof {
            let new_nodes = self.nodes();
            assert(path_copied(old_nodes, new_nodes, root, node, path, new_node));
            assert(self@.entries =~= old_view.commit(node).entries);
            lemma_copied_path(old_nodes, new_nodes, root, node, path, new_node, depth);
            assert(path.take(depth) =~= path);
            assert forall|i: int| 0 <= i < self@.entries.len() implies path_valid(
                new_nodes,
                (#[trigger] self@.entries[i]).0,
                self@.entries[i].1,
            ) by {
                if i < self@.entries.len() - 1 {
                    assert(self@.entries[i] == old_view.entries[i]);
                    lemma_extension(old_nodes, new_nodes, old_view.entries[i].0, old_view.entries[i].1);
                }
            }
        }
    }
}

impl<N: Ast> DAG<N> {
    /// Appends to `string` the text of the current tree, laid out in `format`.
    pub fn write_text(&self, string: &mut String, format: &N::FormatStyle)
        requires
            self.wf(),
        ensures
            final(string)@ == old(string)@ + text_of(N::tokens(self.nodes(), self@.root(), *format)),
    {
        write_text(&self.arena, self.root(), string, format);
    }
}

} // verus!
