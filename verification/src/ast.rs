//! The capabilities that the editor requires of every tree node type.

use crate::arena::{Arena, NodeId};
use crate::ast::display_token::{text_of, token_views, write_tokens, DisplayToken, TokenView};
use vstd::prelude::*;

pub mod display_token;
pub mod json;
pub mod size;

verus! {

/// What the arena and the edit history require of a tree node.
///
/// A node owns the ordered list of handles to its children; the children
/// themselves live in the arena that issued the handles.
pub trait Node: Sized {
    /// What a node holds besides its children.
    type Content;

    /// The ordered child handles of this node.
    spec fn children_view(&self) -> Seq<NodeId>;

    /// Everything that this node holds besides its children.
    spec fn content(&self) -> Self::Content;

    /// Read-only access to the child handles.
    fn children(&self) -> (children: &Vec<NodeId>)
        ensures
            children@ == self.children_view(),
    ;

    /// Writable access to the child handles: what the caller leaves in the
    /// list is what the node holds afterwards.
    fn children_mut(&mut self) -> (children: &mut Vec<NodeId>)
        ensures
            children@ == old(self).children_view(),
            final(self).children_view() == final(children)@,
            final(self).content() == old(self).content(),
    ;

    /// A copy of this node, equal in content and children, in storage of its own.
    fn duplicate(&self) -> (copy: Self)
        ensures
            copy.children_view() == self.children_view(),
            copy.content() == self.content(),
    ;
}

/// A node of an editable syntax tree: a [`Node`] that can also be displayed
/// and that says which characters stand for nodes to put in its place.
pub trait Ast: Node {
    /// The ways in which a tree of these nodes can be laid out as text.
    type FormatStyle;

    /// A number that depends on nothing but this node's value.  It picks the
    /// colour in which the node is shown and matters for nothing else.
    spec fn stable_hash_view(&self) -> u64;

    /// Computes [`Ast::stable_hash_view`].
    fn stable_hash(&self) -> (hash: u64)
        ensures
            hash == self.stable_hash_view(),
    ;

    /// The display tokens of the subtree under `id`, each with the node that
    /// it belongs to.
    spec fn tokens(nodes: Seq<Self>, id: NodeId, format: Self::FormatStyle) -> Seq<(NodeId, TokenView)>;

    /// Computes [`Ast::tokens`] for a node of `arena`.
    fn display_tokens(arena: &Arena<Self>, id: NodeId, format: &Self::FormatStyle) -> (tokens: Vec<
        (NodeId, DisplayToken),
    >)
        requires
            arena.wf(),
            arena.has(id),
        ensures
            token_views(tokens@) == Self::tokens(arena@, id, *format),
            forall|k: int| 0 <= k < tokens@.len() ==> arena.has((#[trigger] tokens@[k]).0),
    ;

    /// Whether typing `c` asks for a node that can stand in place of this one.
    spec fn replace_char(&self, c: char) -> bool;

    /// Computes [`Ast::replace_char`].
    fn is_replace_char(&self, c: char) -> (b: bool)
        ensures
            b == self.replace_char(c),
    ;

    /// The node that typing `c` asks for in place of this one.  There is one
    /// for every character that [`Ast::is_replace_char`] accepts.
    fn from_char(&self, c: char) -> (node: Option<Self>)
        ensures
            self.replace_char(c) ==> node is Some,
    ;

    /// Whether typing `c` asks for a node that can become the first child of this one.
    spec fn insert_char(&self, c: char) -> bool;

    /// Computes [`Ast::insert_char`].
    fn is_insert_char(&self, c: char) -> (b: bool)
        ensures
            b == self.insert_char(c),
    ;
}

/// Appends to `buffer` the text of the subtree under `id`, laid out in `format`.
pub fn write_text<N: Ast>(arena: &Arena<N>, id: NodeId, buffer: &mut String, format: &N::FormatStyle)
    requires
        arena.wf(),
        arena.has(id),
    ensures
        final(buffer)@ == old(buffer)@ + text_of(N::tokens(arena@, id, *format)),
{
    let tokens = N::display_tokens(arena, id, format);
    write_tokens(&tokens, buffer);
}

} // verus!
