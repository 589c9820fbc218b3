//! The units in which a tree is handed to whoever displays it.

use crate::arena::NodeId;
use vstd::prelude::*;
use vstd::string::*;

verus! {

/// One unit of display output.
#[derive(Debug, PartialEq, Eq)]
pub enum DisplayToken {
    /// A run of text.
    Text(String),
    /// A number of spaces.
    Whitespace(usize),
    /// The start of a new line, indented by the current indentation.
    Newline,
    /// One level more of indentation from the next new line on.
    Indent,
    /// One level less of indentation from the next new line on.
    Dedent,
}

/// A [`DisplayToken`] as mathematics.
pub enum TokenView {
    Text(Seq<char>),
    Whitespace(nat),
    Newline,
    Indent,
    Dedent,
}

impl View for DisplayToken {
    type V = TokenView;

    open spec fn view(&self) -> TokenView {
        match self {
            DisplayToken::Text(s) => TokenView::Text(s@),
            DisplayToken::Whitespace(n) => TokenView::Whitespace(*n as nat),
            DisplayToken::Newline => TokenView::Newline,
            DisplayToken::Indent => TokenView::Indent,
            DisplayToken::Dedent => TokenView::Dedent,
        }
    }
}

/// The tokens of a tree, each with the node that it belongs to, as mathematics.
pub open spec fn token_views(tokens: Seq<(NodeId, DisplayToken)>) -> Seq<(NodeId, TokenView)> {
    Seq::new(tokens.len(), |i: int| (tokens[i].0, tokens[i].1@))
}

/// The views of two token lists, one after the other, are the view of the
/// lists joined.
pub proof fn lemma_token_views_add(first: Seq<(NodeId, DisplayToken)>, second: Seq<(NodeId, DisplayToken)>)
    ensures
        token_views(first + second) == token_views(first) + token_views(second),
{
    assert(token_views(first + second) =~= token_views(first) + token_views(second));
}

/// The number of spaces by which one level of indentation moves the text.
pub const INDENT_WIDTH: usize = 4;

/// `n` spaces.
pub open spec fn spaces(n: nat) -> Seq<char> {
    Seq::new(n, |i: int| ' ')
}

/// The number of indentation levels in force after `tokens`.  A `Dedent`
/// that no `Indent` came before has no effect.
pub open spec fn indentation_after(tokens: Seq<(NodeId, TokenView)>) -> nat
    decreases tokens.len(),
{
    if tokens.len() == 0 {
        0
    } else {
        let before = indentation_after(tokens.drop_last());
        match tokens.last().1 {
            TokenView::Indent => before + 1,
            TokenView::Dedent => if before > 0 {
                (before - 1) as nat
            } else {
                0
            },
            _ => before,
        }
    }
}

/// The text that `tokens` stand for: the text runs as they are, spaces for
/// whitespace, and after each line break the indentation then in force.
pub open spec fn text_of(tokens: Seq<(NodeId, TokenView)>) -> Seq<char>
    decreases tokens.len(),
{
    if tokens.len() == 0 {
        Seq::empty()
    } else {
        let before = text_of(tokens.drop_last());
        match tokens.last().1 {
            TokenView::Text(s) => before + s,
            TokenView::Whitespace(n) => before + spaces(n),
            TokenView::Newline => before.push('\n') + spaces(
                indentation_after(tokens.drop_last()) * (INDENT_WIDTH as nat),
            ),
            _ => before,
        }
    }
}

/// Appends `n` spaces to `buffer`.
pub fn write_spaces(buffer: &mut String, n: usize)
    ensures
        final(buffer)@ == old(buffer)@ + spaces(n as nat),
{
    let mut written: usize = 0;
    assert(buffer@ =~= old(buffer)@ + spaces(0));
    while written < n
        invariant
            written <= n,
            buffer@ == old(buffer)@ + spaces(written as nat),
        decreases n - written,
    {
        let ghost before = buffer@;
        buffer.append(" ");
        proof {
            reveal_strlit(" ");
            assert(" "@ =~= seq![' ']);
            assert(buffer@ =~= old(buffer)@ + spaces((written + 1) as nat));
        }
        written += 1;
    }
}

/// Appends to `buffer` the text that `tokens` stand for.
pub fn write_tokens(tokens: &Vec<(NodeId, DisplayToken)>, buffer: &mut String)
    ensures
        final(buffer)@ == old(buffer)@ + text_of(token_views(tokens@)),
{
    let ghost views = token_views(tokens@);
    let mut levels: usize = 0;
    let mut k: usize = 0;
    assert(buffer@ =~= old(buffer)@ + text_of(views.take(0)));
    while k < tokens.len()
        invariant
            k <= tokens.len(),
            views == token_views(tokens@),
            levels == indentation_after(views.take(k as int)),
            levels <= k,
            buffer@ == old(buffer)@ + text_of(views.take(k as int)),
        decreases tokens.len() - k,
    {
        let ghost before = buffer@;
        let ghost done = views.take(k as int);
        proof {
            assert(views.take(k + 1).drop_last() =~= done);
            assert(views.take(k + 1).last() == (tokens@[k as int].0, tokens@[k as int].1@));
        }
        match &tokens[k].1 {
            DisplayToken::Text(s) => {
                buffer.append(s.as_str());
                assert(buffer@ =~= old(buffer)@ + text_of(views.take(k + 1)));
            },
            DisplayToken::Whitespace(n) => {
                write_spaces(buffer, *n);
                assert(buffer@ =~= old(buffer)@ + text_of(views.take(k + 1)));
            },
            DisplayToken::Newline => {
                buffer.append("\n");
                proof {
                    reveal_strlit("\n");
                    assert("\n"@ =~= seq!['\n']);
                }
                let mut level: usize = 0;
                assert(buffer@ =~= before.push('\n') + spaces(0));
                while level < levels
                    invariant
                        level <= levels,
                        levels <= k < tokens.len(),
                        buffer@ == before.push('\n') + spaces((level * INDENT_WIDTH) as nat),
                    decreases levels - level,
                {
                    let ghost line = buffer@;
                    write_spaces(buffer, INDENT_WIDTH);
                    assert(buffer@ =~= before.push('\n') + spaces(((level + 1) * INDENT_WIDTH) as nat));
                    level += 1;
                }
                assert(buffer@ =~= old(buffer)@ + text_of(views.take(k + 1)));
            },
            DisplayToken::Indent => {
                levels += 1;
            },
            DisplayToken::Dedent => {
                if levels > 0 {
                    levels -= 1;
                }
            },
        }
        k += 1;
    }
    assert(views.take(k as int) =~= views);
}

} // verus!
