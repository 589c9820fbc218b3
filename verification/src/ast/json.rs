//! A small JSON-like tree: the three literals and arrays of values.

use crate::arena::{children_below, Arena, NodeId};
use crate::ast::display_token::{lemma_token_views_add, token_views, DisplayToken, TokenView};
use crate::ast::{Ast, Node};
use vstd::prelude::*;
use vstd::string::*;

verus! {

/// The kinds of JSON value that a node can be.
#[derive(Clone, Copy, Debug, PartialEq, Eq, Structural, Hash)]
pub enum JsonKind {
    /// The literal `true`.
    True,
    /// The literal `false`.
    False,
    /// The literal `null`.
    Null,
    /// An array, whose items are the children of the node.
    Array,
}

/// The layouts in which JSON can be written.
#[derive(Clone, Copy, Debug, PartialEq, Eq, Structural, Hash)]
pub enum JsonFormat {
    /// Everything on one line.
    Compact,
    /// Every array item on a line of its own, indented.
    Pretty,
}

/// A node of a JSON tree.
#[derive(Debug)]
pub struct Json {
    kind: JsonKind,
    children: Vec<NodeId>,
}

/// The kind of value that the character `c` stands for, if it stands for one.
pub open spec fn kind_of_char(c: char) -> Option<JsonKind> {
    if c == 't' {
        Some(JsonKind::True)
    } else if c == 'f' {
        Some(JsonKind::False)
    } else if c == 'n' {
        Some(JsonKind::Null)
    } else if c == 'a' {
        Some(JsonKind::Array)
    } else {
        None
    }
}

/// The text of a literal; the empty text for an array, which has none.
pub open spec fn literal_text(kind: JsonKind) -> Seq<char> {
    match kind {
        JsonKind::True => "true"@,
        JsonKind::False => "false"@,
        JsonKind::Null => "null"@,
        JsonKind::Array => Seq::empty(),
    }
}

/// What comes between the opening bracket and item `position` of the array `id`.
pub open spec fn item_lead(id: NodeId, format: JsonFormat, position: int) -> Seq<(NodeId, TokenView)> {
    match format {
        JsonFormat::Compact => if position == 0 {
            Seq::empty()
        } else {
            seq![(id, TokenView::Text(","@)), (id, TokenView::Whitespace(1))]
        },
        JsonFormat::Pretty => if position == 0 {
            seq![(id, TokenView::Indent), (id, TokenView::Newline)]
        } else {
            seq![(id, TokenView::Text(","@)), (id, TokenView::Newline)]
        },
    }
}

/// What comes between the last item and the closing bracket of the array
/// `id`, which has `items` items.
pub open spec fn items_trail(id: NodeId, format: JsonFormat, items: int) -> Seq<(NodeId, TokenView)> {
    match format {
        JsonFormat::Compact => Seq::empty(),
        JsonFormat::Pretty => if items == 0 {
            Seq::empty()
        } else {
            seq![(id, TokenView::Dedent), (id, TokenView::Newline)]
        },
    }
}

/// The tokens of the first `count` items of the array `id`, each after its lead.
pub open spec fn items_tokens(nodes: Seq<Json>, id: NodeId, format: JsonFormat, count: nat) -> Seq<
    (NodeId, TokenView),
>
    decreases id.index, count,
{
    if count == 0 {
        Seq::empty()
    } else {
        let position = (count - 1) as nat;
        let child = nodes[id.index as int].children_view()[position as int];
        let item = if child.index < id.index {
            json_tokens(nodes, child, format)
        } else {
            Seq::empty()
        };
        items_tokens(nodes, id, format, position) + item_lead(id, format, position as int) + item
    }
}

/// The display tokens of the value under `id`: the text of a literal, or
/// the brackets of an array around the tokens of its items.  Every token
/// that is not part of an item belongs to `id`.
pub open spec fn json_tokens(nodes: Seq<Json>, id: NodeId, format: JsonFormat) -> Seq<(NodeId, TokenView)>
    decreases id.index, nodes[id.index as int].children_view().len() + 1,
{
    let node = nodes[id.index as int];
    match node.content() {
        JsonKind::Array => seq![(id, TokenView::Text("["@))] + items_tokens(
            nodes,
            id,
            format,
            node.children_view().len(),
        ) + items_trail(id, format, node.children_view().len() as int).push((id, TokenView::Text("]"@))),
        _ => seq![(id, TokenView::Text(literal_text(node.content())))],
    }
}

impl Json {
    /// A node of the given kind that holds the given children.
    pub fn new(kind: JsonKind, children: Vec<NodeId>) -> (node: Self)
        ensures
            node.content() == kind,
            node.children_view() == children@,
    {
        Json { kind, children }
    }

    /// The kind of value that this node is.
    pub fn kind(&self) -> (kind: JsonKind)
        ensures
            kind == self.content(),
    {
        self.kind
    }
}

impl Node for Json {
    type Content = JsonKind;

    closed spec fn children_view(&self) -> Seq<NodeId> {
        self.children@
    }

    closed spec fn content(&self) -> JsonKind {
        self.kind
    }

    fn children(&self) -> (children: &Vec<NodeId>) {
        &self.children
    }

    fn children_mut(&mut self) -> (children: &mut Vec<NodeId>) {
        &mut self.children
    }

    fn duplicate(&self) -> (copy: Self) {
        let mut children: Vec<NodeId> = Vec::new();
        let mut k: usize = 0;
        while k < self.children.len()
            invariant
                k <= self.children.len(),
                children@ == self.children@.take(k as int),
            decreases self.children.len() - k,
        {
            children.push(self.children[k]);
            assert(self.children@.take(k + 1) =~= self.children@.take(k as int).push(self.children@[k as int]));
            k += 1;
        }
        assert(self.children@.take(k as int) =~= self.children@);
        Json { kind: self.kind, children }
    }
}

impl Ast for Json {
    type FormatStyle = JsonFormat;

    open spec fn stable_hash_view(&self) -> u64 {
        match self.content() {
            JsonKind::True => 1,
            JsonKind::False => 2,
            JsonKind::Null => 3,
            JsonKind::Array => 4,
        }
    }

    fn stable_hash(&self) -> (hash: u64) {
        match self.kind {
            JsonKind::True => 1,
            JsonKind::False => 2,
            JsonKind::Null => 3,
            JsonKind::Array => 4,
        }
    }

    open spec fn tokens(nodes: Seq<Self>, id: NodeId, format: JsonFormat) -> Seq<(NodeId, TokenView)> {
        json_tokens(nodes, id, format)
    }

    fn display_tokens(arena: &Arena<Self>, id: NodeId, format: &JsonFormat) -> (tokens: Vec<(NodeId, DisplayToken)>)
        decreases id.index,
    {
        let node = arena.get(id);
        let mut tokens: Vec<(NodeId, DisplayToken)> = Vec::new();
        match node.kind {
            JsonKind::True => {
                tokens.push((id, DisplayToken::Text(String::from_str("true"))));
            },
            JsonKind::False => {
                tokens.push((id, DisplayToken::Text(String::from_str("false"))));
            },
            JsonKind::Null => {
                tokens.push((id, DisplayToken::Text(String::from_str("null"))));
            },
            JsonKind::Array => {
                tokens.push((id, DisplayToken::Text(String::from_str("["))));
                let ghost open = token_views(tokens@);
                assert(open =~= seq![(id, TokenView::Text("["@))]);
                let items = node.children.len();
                let mut position: usize = 0;
                assert(token_views(tokens@) =~= open + items_tokens(arena@, id, *format, 0));
                while position < items
                    invariant
                        position <= items,
                        items == node.children@.len(),
                        arena.wf(),
                        arena.has(id),
                        *node == arena@[id.index as int],
                        token_views(tokens@) == open + items_tokens(arena@, id, *format, position as nat),
                        forall|k: int| 0 <= k < tokens@.len() ==> arena.has((#[trigger] tokens@[k]).0),
                    decreases items - position,
                {
                    let ghost before = tokens@;
                    let child = node.children[position];
                    proof {
                        assert(children_below(arena@[id.index as int], id.index as int));
                        assert(node.children_view()[position as int].index < id.index);
                    }
                    match format {
                        JsonFormat::Compact => {
                            if position > 0 {
                                tokens.push((id, DisplayToken::Text(String::from_str(","))));
                                tokens.push((id, DisplayToken::Whitespace(1)));
                            }
                        },
                        JsonFormat::Pretty => {
                            if position == 0 {
                                tokens.push((id, DisplayToken::Indent));
                            } else {
                                tokens.push((id, DisplayToken::Text(String::from_str(","))));
                            }
                            tokens.push((id, DisplayToken::Newline));
                        },
                    }
                    assert(token_views(tokens@) =~= token_views(before) + item_lead(id, *format, position as int));
                    let ghost led = tokens@;
                    let mut item = Self::display_tokens(arena, child, format);
                    let ghost item_view = item@;
                    tokens.append(&mut item);
                    proof {
                        lemma_token_views_add(led, item_view);
                        assert(token_views(tokens@) =~= open + items_tokens(
                            arena@,
                            id,
                            *format,
                            (position + 1) as nat,
                        ));
                    }
                    position += 1;
                }
                let ghost filled = tokens@;
                match format {
                    JsonFormat::Compact => {},
                    JsonFormat::Pretty => {
                        if items > 0 {
                            tokens.push((id, DisplayToken::Dedent));
                            tokens.push((id, DisplayToken::Newline));
                        }
                    },
                }
                tokens.push((id, DisplayToken::Text(String::from_str("]"))));
                assert(token_views(tokens@) =~= token_views(filled) + items_trail(id, *format, items as int).push(
                    (id, TokenView::Text("]"@)),
                ));
            },
        }
        assert(token_views(tokens@) =~= json_tokens(arena@, id, *format));
        tokens
    }

    open spec fn replace_char(&self, c: char) -> bool {
        kind_of_char(c) is Some
    }

    fn is_replace_char(&self, c: char) -> (b: bool) {
        c == 't' || c == 'f' || c == 'n' || c == 'a'
    }

    fn from_char(&self, c: char) -> (node: Option<Self>)
        ensures
            match kind_of_char(c) {
                Some(kind) => node is Some && node->0.content() == kind && node->0.children_view().len() == 0,
                None => node is None,
            },
    {
        let kind = if c == 't' {
            JsonKind::True
        } else if c == 'f' {
            JsonKind::False
        } else if c == 'n' {
            JsonKind::Null
        } else if c == 'a' {
            JsonKind::Array
        } else {
            return None;
        };
        Some(Json { kind, children: Vec::new() })
    }

    open spec fn insert_char(&self, c: char) -> bool {
        self.content() == JsonKind::Array && kind_of_char(c) is Some
    }

    fn is_insert_char(&self, c: char) -> (b: bool) {
        self.kind == JsonKind::Array && self.is_replace_char(c)
    }
}

} // verus!
