//! The editing session: commands, the key map that names them, and the
//! editor that applies them to a tree.

use crate::arena::{children_below, NodeId};
use crate::ast::display_token::{token_views, DisplayToken, TokenView, INDENT_WIDTH};
use crate::ast::size::{last_line_length_of, lines_of, Size};
use crate::ast::{Ast, Node};
use crate::editable_tree::dag::{move_refusal, move_target, path_copied, History, DAG};
use crate::editable_tree::Direction;
use std::collections::HashMap;
use vstd::prelude::*;
use vstd::string::*;

verus! {

/// The colours in which the editor shows text.
#[derive(Clone, Copy, Debug, PartialEq, Eq, Structural, Hash)]
pub enum Color {
    Black,
    Red,
    Green,
    Yellow,
    Blue,
    Magenta,
    Cyan,
    White,
    LightRed,
    LightGreen,
    LightYellow,
    LightBlue,
    LightMagenta,
    LightCyan,
    LightWhite,
}

/// The possible log levels, from the least to the most urgent.
#[derive(Clone, Copy, Debug, PartialEq, Eq, Structural, PartialOrd, Ord, Hash)]
pub enum LogLevel {
    /// Minute details, of use only when debugging the editor.
    VerboseDebug,
    /// Details of use when debugging the editor.
    Debug,
    /// Information for the user.
    Info,
    /// Something has gone wrong or is about to.
    Warning,
    /// Something that is always logged.
    Error,
}

impl LogLevel {
    /// The colour in which an entry of this level is shown.
    pub open spec fn color(self) -> Color {
        match self {
            LogLevel::VerboseDebug => Color::Blue,
            LogLevel::Debug => Color::LightBlue,
            LogLevel::Info => Color::Green,
            LogLevel::Warning => Color::Yellow,
            LogLevel::Error => Color::Red,
        }
    }

    /// The colour in which an entry of this level is shown.
    pub fn to_color(&self) -> (color: Color)
        ensures
            color == self.color(),
    {
        match self {
            LogLevel::VerboseDebug => Color::Blue,
            LogLevel::Debug => Color::LightBlue,
            LogLevel::Info => Color::Green,
            LogLevel::Warning => Color::Yellow,
            LogLevel::Error => Color::Red,
        }
    }
}

/// What a single key can be bound to.  `Replace` and `InsertChild` take the
/// next key as their argument.
#[derive(Clone, Copy, Debug, PartialEq, Eq, Structural, Hash)]
pub enum Command {
    /// Leave the editor.
    Quit,
    /// Replace the node under the cursor.
    Replace,
    /// Insert a node as the first child of the node under the cursor.
    InsertChild,
    /// Move the cursor.
    MoveCursor(Direction),
    /// Take back the last change.
    Undo,
    /// Bring back the change that was taken back last.
    Redo,
}

/// What a typed command asks the editor to do.
#[derive(Clone, Copy, Debug, PartialEq, Eq, Structural)]
pub enum Action {
    /// The key is bound to nothing.
    Undefined,
    /// Leave the editor.
    Quit,
    /// Replace the node under the cursor with the node that the character stands for.
    Replace(char),
    /// Insert the node that the character stands for as the first child of
    /// the node under the cursor.
    InsertChild(char),
    /// Move the cursor.
    MoveCursor(Direction),
    /// Take back the last change.
    Undo,
    /// Bring back the change that was taken back last.
    Redo,
}

/// The code point of a character.
pub open spec fn code_point(key: char) -> u32 {
    key as u32
}

/// Different characters have different code points.
proof fn lemma_code_points_differ(a: char, b: char)
    requires
        a != b,
    ensures
        code_point(a) != code_point(b),
{
    assert(a as int != b as int);
    assert(a as u32 as int == a as int);
    assert(b as u32 as int == b as int);
}

/// The commands that keys are bound to.
pub struct KeyMap {
    /// The bindings, by the code point of the key.
    bindings: HashMap<u32, Command>,
}

impl View for KeyMap {
    type V = Map<char, Command>;

    closed spec fn view(&self) -> Map<char, Command> {
        Map::new(
            |key: char| self.bindings@.contains_key(code_point(key)),
            |key: char| self.bindings@[code_point(key)],
        )
    }
}

impl KeyMap {
    /// A key map that binds no key.
    pub fn new() -> (keymap: Self)
        ensures
            keymap@ == Map::<char, Command>::empty(),
    {
        let keymap = KeyMap { bindings: HashMap::new() };
        assert(keymap@ =~= Map::<char, Command>::empty());
        keymap
    }

    /// Binds `key` to `command`, in place of what it was bound to.
    pub fn insert(&mut self, key: char, command: Command)
        ensures
            final(self)@ == old(self)@.insert(key, command),
    {
        broadcast use vstd::std_specs::hash::group_hash_axioms;

        let _ = self.bindings.insert(key as u32, command);
        assert forall|other: char| other != key implies #[trigger] code_point(other) != code_point(key) by {
            lemma_code_points_differ(other, key);
        }
        assert(self@ =~= old(self)@.insert(key, command));
    }

    /// The command that `key` is bound to.
    pub fn get(&self, key: char) -> (command: Option<Command>)
        ensures
            command == (if self@.contains_key(key) {
                Some(self@[key])
            } else {
                None
            }),
    {
        broadcast use vstd::std_specs::hash::group_hash_axioms;

        let code = key as u32;
        match self.bindings.get(&code) {
            Some(command) => Some(*command),
            None => None,
        }
    }
}

/// The bindings that the editor starts with.
pub open spec fn default_bindings() -> Map<char, Command> {
    Map::<char, Command>::empty().insert('q', Command::Quit).insert('i', Command::InsertChild).insert(
        'r',
        Command::Replace,
    ).insert('c', Command::MoveCursor(Direction::Down)).insert('p', Command::MoveCursor(Direction::Up)).insert(
        'k',
        Command::MoveCursor(Direction::Prev),
    ).insert('j', Command::MoveCursor(Direction::Next)).insert('u', Command::Undo).insert('R', Command::Redo)
}

/// The key map that the editor starts with.
pub fn default_keymap() -> (keymap: KeyMap)
    ensures
        keymap@ == default_bindings(),
{
    let mut keymap = KeyMap::new();
    keymap.insert('q', Command::Quit);
    keymap.insert('i', Command::InsertChild);
    keymap.insert('r', Command::Replace);
    keymap.insert('c', Command::MoveCursor(Direction::Down));
    keymap.insert('p', Command::MoveCursor(Direction::Up));
    keymap.insert('k', Command::MoveCursor(Direction::Prev));
    keymap.insert('j', Command::MoveCursor(Direction::Next));
    keymap.insert('u', Command::Undo);
    keymap.insert('R', Command::Redo);
    keymap
}

/// What the typed text `command` means under `bindings`.
///
/// Only the start of the text counts: its first character names the
/// command, and for a command that takes an argument the second character
/// is the argument.  `None` stands for a command that is not complete yet:
/// no text, or a command whose argument is still to come.
pub open spec fn parsed(bindings: Map<char, Command>, command: Seq<char>) -> Option<Action> {
    if command.len() == 0 {
        None
    } else if !bindings.contains_key(command[0]) {
        Some(Action::Undefined)
    } else {
        match bindings[command[0]] {
            Command::Quit => Some(Action::Quit),
            Command::InsertChild => if command.len() >= 2 {
                Some(Action::InsertChild(command[1]))
            } else {
                None
            },
            Command::Replace => if command.len() >= 2 {
                Some(Action::Replace(command[1]))
            } else {
                None
            },
            Command::MoveCursor(direction) => Some(Action::MoveCursor(direction)),
            Command::Undo => Some(Action::Undo),
            Command::Redo => Some(Action::Redo),
        }
    }
}

/// Reads the typed text `command` as an [`Action`]; `None` where the
/// command is not complete yet.
pub fn parse_command(keymap: &KeyMap, command: &str) -> (action: Option<Action>)
    ensures
        action == parsed(keymap@, command@),
{
    let typed = command.unicode_len();
    if typed == 0 {
        return None;
    }
    match keymap.get(command.get_char(0)) {
        Some(Command::Quit) => Some(Action::Quit),
        Some(Command::InsertChild) => {
            if typed >= 2 {
                Some(Action::InsertChild(command.get_char(1)))
            } else {
                None
            }
        },
        Some(Command::Replace) => {
            if typed >= 2 {
                Some(Action::Replace(command.get_char(1)))
            } else {
                None
            }
        },
        Some(Command::MoveCursor(direction)) => Some(Action::MoveCursor(direction)),
        Some(Command::Undo) => Some(Action::Undo),
        Some(Command::Redo) => Some(Action::Redo),
        None => Some(Action::Undefined),
    }
}

/// `String::push` appends the character to the text: afterwards the string
/// holds the characters of before, then `c`.
pub assume_specification[ String::push ](s: &mut String, c: char)
    ensures
        final(s)@ == old(s)@.push(c),
;

/// The keys that the editor tells apart.
#[derive(Clone, Copy, Debug, PartialEq, Eq, Structural)]
pub enum Key {
    /// A key that types a character.
    Char(char),
    /// The escape key.
    Esc,
    /// Any other key.
    Other,
}

/// `opening`, then `c`, then `closing`.
pub open spec fn quoted(opening: Seq<char>, c: char, closing: Seq<char>) -> Seq<char> {
    opening.push(c) + closing
}

/// The log message for a character that stands for no replacement.
pub open spec fn cannot_replace_message(c: char) -> Seq<char> {
    quoted("Cannot replace node with '"@, c, "'"@)
}

/// The log message for a replacement.
pub open spec fn replacing_message(c: char) -> Seq<char> {
    quoted("Replacing with '"@, c, "'"@)
}

/// The log message for an insertion.
pub open spec fn inserting_message(c: char) -> Seq<char> {
    quoted("Inserting with '"@, c, "'"@)
}

/// The log message for typed text that is no command.
pub open spec fn undefined_message(typed: Seq<char>) -> Seq<char> {
    "'"@ + typed + "' not a command."@
}

/// Builds the text `opening`, `c`, `closing`.
fn quote(opening: &str, c: char, closing: &str) -> (message: String)
    ensures
        message@ == quoted(opening@, c, closing@),
{
    let mut message = String::from_str(opening);
    message.push(c);
    message.append(closing);
    message
}

/// An editing session on one tree: the tree, the log shown beside it, the
/// command typed so far and the key map that gives it meaning.
pub struct Editor<N: Ast> {
    /// The tree that is edited.
    tree: DAG<N>,
    /// The logged messages, oldest first.
    log: Vec<(LogLevel, String)>,
    /// The layout in which the tree is shown.
    format_style: N::FormatStyle,
    /// What has been typed of the current command.
    command: String,
    /// The configured key map.
    keymap: KeyMap,
}

impl<N: Ast> Editor<N> {
    /// The tree that is edited.
    pub closed spec fn tree_view(&self) -> DAG<N> {
        self.tree
    }

    /// The history of the tree.
    pub open spec fn history(&self) -> History {
        self.tree_view()@
    }

    /// The nodes of the tree's arena.
    pub open spec fn nodes(&self) -> Seq<N> {
        self.tree_view().nodes()
    }

    /// The node under the cursor.
    pub open spec fn cursor_value(&self) -> N {
        self.nodes()[self.tree_view().cursor_node().index as int]
    }

    /// The logged messages, oldest first.
    pub closed spec fn log_view(&self) -> Seq<(LogLevel, Seq<char>)> {
        Seq::new(self.log@.len(), |i: int| (self.log@[i].0, self.log@[i].1@))
    }

    /// What has been typed of the current command.
    pub closed spec fn command_view(&self) -> Seq<char> {
        self.command@
    }

    /// The key map.
    pub closed spec fn keymap_view(&self) -> Map<char, Command> {
        self.keymap@
    }

    /// The layout in which the tree is shown.
    pub closed spec fn format_view(&self) -> N::FormatStyle {
        self.format_style
    }

    /// The invariant of the session: that of its tree.
    pub open spec fn wf(&self) -> bool {
        self.tree_view().wf()
    }

    /// Whether the key map, the layout and the typed command are those of `before`.
    pub open spec fn same_setup(&self, before: &Self) -> bool {
        &&& self.keymap_view() == before.keymap_view()
        &&& self.format_view() == before.format_view()
        &&& self.command_view() == before.command_view()
    }

    /// Whether the tree is that of `before`: the same nodes, history and cursor.
    pub open spec fn same_tree(&self, before: &Self) -> bool {
        &&& self.nodes() == before.nodes()
        &&& self.history() == before.history()
    }

    /// Whether the log is that of `before` with one entry more.
    pub open spec fn logged(&self, before: &Self, level: LogLevel, message: Seq<char>) -> bool {
        self.log_view() == before.log_view().push((level, message))
    }

    /// What a move in `direction` does to the tree and the log: the cursor
    /// moves, or it stays and the refusal is logged as a warning.
    pub open spec fn moved(before: &Self, after: &Self, direction: Direction) -> bool {
        &&& after.nodes() == before.nodes()
        &&& match move_target(before.nodes(), before.history().root(), before.history().cursor, direction) {
            Some(target) => after.history() == before.history().moved(target) && after.log_view() == before.log_view(),
            None => after.history() == before.history() && after.logged(
                before,
                LogLevel::Warning,
                move_refusal(before.history().cursor, direction),
            ),
        }
    }

    /// What putting `node`, which the node type made of the character `c`,
    /// in place of the node under the cursor does to the tree and the log.
    ///
    /// A node that holds children which the arena does not know leaves the
    /// tree alone and is logged as a warning.  Any other node takes the
    /// place of the node under the cursor, which is logged.
    pub open spec fn replaced_with(before: &Self, after: &Self, c: char, node: N) -> bool {
        if children_below(node, before.nodes().len() as int) {
            &&& path_copied(
                before.nodes(),
                after.nodes(),
                before.history().root(),
                after.history().root(),
                before.history().cursor,
                node,
            )
            &&& after.history() == before.history().commit(after.history().root())
            &&& after.logged(before, LogLevel::Debug, replacing_message(c))
        } else {
            after.same_tree(before) && after.logged(before, LogLevel::Warning, cannot_replace_message(c))
        }
    }

    /// What typing `c` for an insertion does: the tree stays and the log
    /// says whether the node under the cursor takes `c` as a first child.
    pub open spec fn inserted(before: &Self, after: &Self, c: char) -> bool {
        &&& after.same_tree(before)
        &&& if before.cursor_value().insert_char(c) {
            after.logged(before, LogLevel::Debug, inserting_message(c))
        } else {
            after.logged(before, LogLevel::Warning, cannot_replace_message(c))
        }
    }

    /// What an undo does to the tree and the log.
    pub open spec fn undone(before: &Self, after: &Self) -> bool {
        &&& after.nodes() == before.nodes()
        &&& after.history() == before.history().undo()
        &&& if before.history().can_undo() {
            after.logged(before, LogLevel::Debug, "Undo successful"@)
        } else {
            after.logged(before, LogLevel::Info, "No changes to undo"@)
        }
    }

    /// What a redo does to the tree and the log.
    pub open spec fn redone(before: &Self, after: &Self) -> bool {
        &&& after.nodes() == before.nodes()
        &&& after.history() == before.history().redo()
        &&& if before.history().can_redo() {
            after.logged(before, LogLevel::Debug, "Redo successful"@)
        } else {
            after.logged(before, LogLevel::Info, "No changes to redo"@)
        }
    }

    /// An editor on `tree`, with an empty log and nothing typed.
    pub fn new(tree: DAG<N>, format_style: N::FormatStyle, keymap: KeyMap) -> (editor: Self)
        requires
            tree.wf(),
        ensures
            editor.wf(),
            editor.tree_view() == tree,
            editor.log_view() == Seq::<(LogLevel, Seq<char>)>::empty(),
            editor.command_view() == Seq::<char>::empty(),
            editor.keymap_view() == keymap@,
            editor.format_view() == format_style,
    {
        let editor = Editor { tree, log: Vec::new(), format_style, command: String::new(), keymap };
        assert(editor.log_view() =~= Seq::<(LogLevel, Seq<char>)>::empty());
        editor
    }

    /// The tree that is edited.
    pub fn tree(&self) -> (tree: &DAG<N>)
        ensures
            *tree == self.tree_view(),
    {
        &self.tree
    }

    /// The logged messages, oldest first.
    pub fn log_entries(&self) -> (log: &Vec<(LogLevel, String)>)
        ensures
            log@.len() == self.log_view().len(),
            forall|i: int| 0 <= i < log@.len() ==> (#[trigger] log@[i]).0 == self.log_view()[i].0 && log@[i].1@ == self.log_view()[i].1,
    {
        &self.log
    }

    /// What has been typed of the current command.
    pub fn command(&self) -> (command: &str)
        ensures
            command@ == self.command_view(),
    {
        self.command.as_str()
    }

    /// Adds a message to the log.
    pub fn log(&mut self, level: LogLevel, message: String)
        ensures
            final(self).logged(old(self), level, message@),
            final(self).tree_view() == old(self).tree_view(),
            final(self).same_setup(old(self)),
    {
        self.log.push((level, message));
        assert(self.log_view() =~= old(self).log_view().push((level, message@)));
    }

    /// Replaces the node under the cursor with the node that `c` stands
    /// for, if the node under the cursor takes `c` as a replacement.
    ///
    /// What the node type makes of `c` is up to it; whatever it is,
    /// [`Editor::replace_cursor_with`] says what is done with it.
    pub fn replace_cursor(&mut self, c: char)
        requires
            old(self).wf(),
        ensures
            final(self).wf(),
            final(self).same_setup(old(self)),
            !old(self).cursor_value().replace_char(c) ==> final(self).same_tree(old(self)) && final(self).logged(
                old(self),
                LogLevel::Warning,
                cannot_replace_message(c),
            ),
            old(self).cursor_value().replace_char(c) ==> exists|node: N| #[trigger]
                Self::replaced_with(old(self), final(self), c, node),
    {
        let cursor = self.tree.cursor();
        if self.tree.arena().get(cursor).is_replace_char(c) {
            let node = self.tree.arena().get(cursor).from_char(c).unwrap();
            let ghost made = node;
            self.replace_cursor_with(c, node);
            assert(Self::replaced_with(old(self), self, c, made));
        } else {
            self.log(LogLevel::Warning, quote("Cannot replace node with '", c, "'"));
        }
    }

    /// Puts `node`, which the node type made of the character `c`, in place
    /// of the node under the cursor, unless it holds children that the
    /// arena does not know.
    pub fn replace_cursor_with(&mut self, c: char, node: N)
        requires
            old(self).wf(),
        ensures
            final(self).wf(),
            final(self).same_setup(old(self)),
            Self::replaced_with(old(self), final(self), c, node),
    {
        if self.tree.arena().admits(&node) {
            self.tree.replace_cursor(node);
            self.log(LogLevel::Debug, quote("Replacing with '", c, "'"));
        } else {
            self.log(LogLevel::Warning, quote("Cannot replace node with '", c, "'"));
        }
    }

    /// Moves the cursor; a move that the tree refuses is logged as a warning.
    pub fn move_cursor(&mut self, direction: Direction)
        requires
            old(self).wf(),
        ensures
            final(self).wf(),
            final(self).same_setup(old(self)),
            Self::moved(old(self), final(self), direction),
    {
        if let Some(error_message) = self.tree.move_cursor(direction) {
            self.log(LogLevel::Warning, error_message);
        }
    }

    /// Answers a request to insert the node that `c` stands for as the
    /// first child of the node under the cursor.  The tree is not changed:
    /// the log says whether the node under the cursor would take `c`.
    pub fn insert_child(&mut self, c: char)
        requires
            old(self).wf(),
        ensures
            final(self).wf(),
            final(self).same_setup(old(self)),
            Self::inserted(old(self), final(self), c),
    {
        let cursor = self.tree.cursor();
        if self.tree.arena().get(cursor).is_insert_char(c) {
            self.log(LogLevel::Debug, quote("Inserting with '", c, "'"));
        } else {
            self.log(LogLevel::Warning, quote("Cannot replace node with '", c, "'"));
        }
    }

    /// Takes back the last change, and logs whether there was one.
    pub fn undo(&mut self)
        requires
            old(self).wf(),
        ensures
            final(self).wf(),
            final(self).same_setup(old(self)),
            Self::undone(old(self), final(self)),
    {
        if self.tree.undo() {
            self.log(LogLevel::Debug, String::from_str("Undo successful"));
        } else {
            self.log(LogLevel::Info, String::from_str("No changes to undo"));
        }
    }

    /// Brings back the change that was taken back last, and logs whether
    /// there was one.
    pub fn redo(&mut self)
        requires
            old(self).wf(),
        ensures
            final(self).wf(),
            final(self).same_setup(old(self)),
            Self::redone(old(self), final(self)),
    {
        if self.tree.redo() {
            self.log(LogLevel::Debug, String::from_str("Redo successful"));
        } else {
            self.log(LogLevel::Info, String::from_str("No changes to redo"));
        }
    }
}

/// Where the next text goes on the screen, and how far new lines are indented.
#[derive(Clone, Copy, Debug, PartialEq, Eq, Structural)]
pub struct Pen {
    pub row: usize,
    pub col: usize,
    pub indentation: usize,
}

/// A run of text on the screen: where it starts and in which colours it is
/// shown.  `None` stands for the terminal's own colour.
#[derive(Debug, PartialEq, Eq)]
pub struct Span {
    pub row: usize,
    pub col: usize,
    pub text: String,
    pub fg: Option<Color>,
    pub bg: Option<Color>,
}

/// A [`Span`] as mathematics.
pub struct SpanView {
    pub row: usize,
    pub col: usize,
    pub text: Seq<char>,
    pub fg: Option<Color>,
    pub bg: Option<Color>,
}

impl View for Span {
    type V = SpanView;

    open spec fn view(&self) -> SpanView {
        SpanView { row: self.row, col: self.col, text: self.text@, fg: self.fg, bg: self.bg }
    }
}

/// A list of spans as mathematics.
pub open spec fn span_views(spans: Seq<Span>) -> Seq<SpanView> {
    Seq::new(spans.len(), |i: int| spans[i]@)
}

/// `a + b`, or the largest position where the sum is beyond it.
pub open spec fn advance(a: usize, b: int) -> usize {
    if a + b > usize::MAX {
        usize::MAX
    } else {
        (a + b) as usize
    }
}

/// The colour that a node with the given hash is shown in.
pub open spec fn palette(hash: u64) -> Color {
    let pick = hash % 14;
    if pick == 0 {
        Color::Magenta
    } else if pick == 1 {
        Color::Red
    } else if pick == 2 {
        Color::Yellow
    } else if pick == 3 {
        Color::Green
    } else if pick == 4 {
        Color::Cyan
    } else if pick == 5 {
        Color::Blue
    } else if pick == 6 {
        Color::White
    } else if pick == 7 {
        Color::LightRed
    } else if pick == 8 {
        Color::LightBlue
    } else if pick == 9 {
        Color::LightCyan
    } else if pick == 10 {
        Color::LightGreen
    } else if pick == 11 {
        Color::LightYellow
    } else if pick == 12 {
        Color::LightMagenta
    } else {
        Color::LightWhite
    }
}

/// Computes [`palette`].
pub fn pick_color(hash: u64) -> (color: Color)
    ensures
        color == palette(hash),
{
    let pick = hash % 14;
    if pick == 0 {
        Color::Magenta
    } else if pick == 1 {
        Color::Red
    } else if pick == 2 {
        Color::Yellow
    } else if pick == 3 {
        Color::Green
    } else if pick == 4 {
        Color::Cyan
    } else if pick == 5 {
        Color::Blue
    } else if pick == 6 {
        Color::White
    } else if pick == 7 {
        Color::LightRed
    } else if pick == 8 {
        Color::LightBlue
    } else if pick == 9 {
        Color::LightCyan
    } else if pick == 10 {
        Color::LightGreen
    } else if pick == 11 {
        Color::LightYellow
    } else if pick == 12 {
        Color::LightMagenta
    } else {
        Color::LightWhite
    }
}

/// Where the pen is after `token`.  Text moves it by the room that the text
/// takes, whitespace to the right, a new line down and to the indentation;
/// `Indent` and `Dedent` change the indentation by one level.  Positions
/// stop at the largest one, and the indentation at none.
pub open spec fn pen_after_token(pen: Pen, token: TokenView) -> Pen {
    match token {
        TokenView::Text(text) => if lines_of(text) == 0 {
            Pen { row: pen.row, col: advance(pen.col, last_line_length_of(text) as int), indentation: pen.indentation }
        } else {
            Pen {
                row: advance(pen.row, lines_of(text) as int),
                col: advance(0, last_line_length_of(text) as int),
                indentation: pen.indentation,
            }
        },
        TokenView::Whitespace(n) => Pen { row: pen.row, col: advance(pen.col, n as int), indentation: pen.indentation },
        TokenView::Newline => Pen { row: advance(pen.row, 1), col: pen.indentation, indentation: pen.indentation },
        TokenView::Indent => Pen { row: pen.row, col: pen.col, indentation: advance(pen.indentation, INDENT_WIDTH as int) },
        TokenView::Dedent => Pen {
            row: pen.row,
            col: pen.col,
            indentation: if pen.indentation >= INDENT_WIDTH {
                (pen.indentation - INDENT_WIDTH) as usize
            } else {
                0
            },
        },
    }
}

/// Where the pen is after `tokens`, having started at `start`.
pub open spec fn pen_after(tokens: Seq<(NodeId, TokenView)>, start: Pen) -> Pen
    decreases tokens.len(),
{
    if tokens.len() == 0 {
        start
    } else {
        pen_after_token(pen_after(tokens.drop_last(), start), tokens.last().1)
    }
}

/// The span for a text token of the node `owner`, written at `pen`: in the
/// colour of the node, and on that colour in black where the node is the one
/// under the cursor.
pub open spec fn text_span(hash: u64, selected: bool, text: Seq<char>, pen: Pen) -> SpanView {
    SpanView {
        row: pen.row,
        col: pen.col,
        text,
        fg: Some(if selected {
            Color::Black
        } else {
            palette(hash)
        }),
        bg: if selected {
            Some(palette(hash))
        } else {
            None
        },
    }
}

/// The spans that show `tokens`, written from `start`: one for each text
/// token, at the place the pen has reached.
pub open spec fn spans_of<N: Ast>(
    nodes: Seq<N>,
    cursor: NodeId,
    tokens: Seq<(NodeId, TokenView)>,
    start: Pen,
) -> Seq<SpanView>
    decreases tokens.len(),
{
    if tokens.len() == 0 {
        Seq::empty()
    } else {
        let before = spans_of(nodes, cursor, tokens.drop_last(), start);
        match tokens.last().1 {
            TokenView::Text(text) => before.push(
                text_span(
                    nodes[tokens.last().0.index as int].stable_hash_view(),
                    tokens.last().0 == cursor,
                    text,
                    pen_after(tokens.drop_last(), start),
                ),
            ),
            _ => before,
        }
    }
}

/// The spans that show the log: entry `i` on row `i`, from the middle of
/// the screen, in the colour of its level.
pub open spec fn log_spans(log: Seq<(LogLevel, Seq<char>)>, width: usize) -> Seq<SpanView> {
    Seq::new(
        log.len(),
        |i: int| SpanView { row: i as usize, col: (width / 2) as usize, text: log[i].1, fg: Some(log[i].0.color()), bg: None },
    )
}

/// The spans of the bottom bar: the hint at the left, and what has been
/// typed of the current command ending five columns from the right.
pub open spec fn bar_spans(command: Seq<char>, width: usize, height: usize) -> Seq<SpanView> {
    seq![
        SpanView { row: (height - 1) as usize, col: 0, text: "Press 'q' to exit."@, fg: None, bg: None },
        SpanView {
            row: (height - 1) as usize,
            col: (width - 5 - command.len()) as usize,
            text: command,
            fg: None,
            bg: None,
        },
    ]
}

/// Moves `pen` over `token`.
pub fn move_pen(pen: Pen, token: &DisplayToken) -> (moved: Pen)
    ensures
        moved == pen_after_token(pen, token@),
{
    match token {
        DisplayToken::Text(text) => {
            let size = Size::from(text.as_str());
            if size.lines() == 0 {
                Pen { row: pen.row, col: pen.col.saturating_add(size.last_line_length()), indentation: pen.indentation }
            } else {
                Pen {
                    row: pen.row.saturating_add(size.lines()),
                    col: size.last_line_length(),
                    indentation: pen.indentation,
                }
            }
        },
        DisplayToken::Whitespace(n) => Pen { row: pen.row, col: pen.col.saturating_add(*n), indentation: pen.indentation },
        DisplayToken::Newline => Pen { row: pen.row.saturating_add(1), col: pen.indentation, indentation: pen.indentation },
        DisplayToken::Indent => Pen {
            row: pen.row,
            col: pen.col,
            indentation: pen.indentation.saturating_add(INDENT_WIDTH),
        },
        DisplayToken::Dedent => Pen {
            row: pen.row,
            col: pen.col,
            indentation: pen.indentation.saturating_sub(INDENT_WIDTH),
        },
    }
}

impl<N: Ast> Editor<N> {
    /// The spans that show the tree, written from row `row` and column
    /// `col`: the text tokens of the current root, each in the colour that
    /// the hash of its node picks, the node under the cursor highlighted.
    pub fn render_tree(&self, row: usize, col: usize) -> (spans: Vec<Span>)
        requires
            self.wf(),
        ensures
            span_views(spans@) == spans_of(
                self.nodes(),
                self.tree_view().cursor_node(),
                N::tokens(self.nodes(), self.history().root(), self.format_view()),
                Pen { row, col, indentation: 0 },
            ),
    {
        let start = Pen { row, col, indentation: 0 };
        let cursor = self.tree.cursor();
        let tokens = N::display_tokens(self.tree.arena(), self.tree.root(), &self.format_style);
        let ghost views = token_views(tokens@);
        let ghost nodes = self.nodes();
        let mut pen = start;
        let mut spans: Vec<Span> = Vec::new();
        let mut k: usize = 0;
        assert(span_views(spans@) =~= spans_of(nodes, cursor, views.take(0), start));
        while k < tokens.len()
            invariant
                k <= tokens.len(),
                views == token_views(tokens@),
                nodes == self.nodes(),
                self.wf(),
                forall|j: int| 0 <= j < tokens@.len() ==> (#[trigger] tokens@[j]).0.index < nodes.len(),
                pen == pen_after(views.take(k as int), start),
                span_views(spans@) == spans_of(nodes, cursor, views.take(k as int), start),
            decreases tokens.len() - k,
        {
            proof {
                assert(views.take(k + 1).drop_last() =~= views.take(k as int));
                assert(views.take(k + 1).last() == (tokens@[k as int].0, tokens@[k as int].1@));
            }
            let ghost shown = spans@;
            let owner = tokens[k].0;
            match &tokens[k].1 {
                DisplayToken::Text(text) => {
                    let color = pick_color(self.tree.arena().get(owner).stable_hash());
                    let span = if owner == cursor {
                        Span { row: pen.row, col: pen.col, text: text.clone(), fg: Some(Color::Black), bg: Some(color) }
                    } else {
                        Span { row: pen.row, col: pen.col, text: text.clone(), fg: Some(color), bg: None }
                    };
                    spans.push(span);
                    assert(span_views(spans@) =~= span_views(shown).push(span@));
                },
                _ => {},
            }
            pen = move_pen(pen, &tokens[k].1);
            k += 1;
        }
        assert(views.take(k as int) =~= views);
        spans
    }

    /// Everything that the screen shows, for a screen of `width` columns
    /// and `height` rows: the tree from the top left corner, the log in the
    /// right half, and the bottom bar.
    pub fn display(&self, width: usize, height: usize) -> (spans: Vec<Span>)
        requires
            self.wf(),
            height >= 1,
            width >= 5 + self.command_view().len(),
        ensures
            span_views(spans@) == spans_of(
                self.nodes(),
                self.tree_view().cursor_node(),
                N::tokens(self.nodes(), self.history().root(), self.format_view()),
                Pen { row: 0, col: 0, indentation: 0 },
            ) + log_spans(self.log_view(), width) + bar_spans(self.command_view(), width, height),
    {
        let mut spans = self.render_tree(0, 0);
        let ghost tree_spans = span_views(spans@);
        let mut i: usize = 0;
        assert(span_views(spans@) =~= tree_spans + log_spans(self.log_view(), width).take(0));
        while i < self.log.len()
            invariant
                i <= self.log.len(),
                span_views(spans@) == tree_spans + log_spans(self.log_view(), width).take(i as int),
            decreases self.log.len() - i,
        {
            let ghost shown = spans@;
            let span = Span {
                row: i,
                col: width / 2,
                text: self.log[i].1.clone(),
                fg: Some(self.log[i].0.to_color()),
                bg: None,
            };
            assert(span@ == log_spans(self.log_view(), width)[i as int]);
            spans.push(span);
            assert(span_views(spans@) =~= span_views(shown).push(span@));
            assert(span_views(spans@) =~= tree_spans + log_spans(self.log_view(), width).take(i + 1));
            i += 1;
        }
        assert(log_spans(self.log_view(), width).take(i as int) =~= log_spans(self.log_view(), width));
        let ghost upper = spans@;
        let typed = self.command.as_str().unicode_len();
        spans.push(Span { row: height - 1, col: 0, text: String::from_str("Press 'q' to exit."), fg: None, bg: None });
        spans.push(Span { row: height - 1, col: width - 5 - typed, text: self.command.clone(), fg: None, bg: None });
        assert(span_views(spans@) =~= span_views(upper) + bar_spans(self.command_view(), width, height));
        spans
    }

    /// What an action does to the tree and the log.  `typed` is the text
    /// that was read as the action.
    pub open spec fn applied(before: &Self, after: &Self, action: Action, typed: Seq<char>) -> bool {
        match action {
            Action::Undefined => after.same_tree(before) && after.logged(
                before,
                LogLevel::Warning,
                undefined_message(typed),
            ),
            Action::Quit => after.same_tree(before) && after.log_view() == before.log_view(),
            Action::MoveCursor(direction) => Self::moved(before, after, direction),
            Action::Replace(c) => if before.cursor_value().replace_char(c) {
                exists|node: N| #[trigger] Self::replaced_with(before, after, c, node)
            } else {
                after.same_tree(before) && after.logged(before, LogLevel::Warning, cannot_replace_message(c))
            },
            Action::InsertChild(c) => Self::inserted(before, after, c),
            Action::Undo => Self::undone(before, after),
            Action::Redo => Self::redone(before, after),
        }
    }

    /// What a key does to the session, and whether it ends it.
    ///
    /// A character is added to the typed command.  While the command is not
    /// complete nothing else happens.  A complete command is carried out
    /// and the typed text is cleared; the command to quit ends the session
    /// instead and leaves everything as it is.  Escape clears the typed
    /// text, and any other key does nothing.
    pub open spec fn handled(before: &Self, after: &Self, key: Key, quit: bool) -> bool {
        match key {
            Key::Char(c) => {
                let typed = before.command_view().push(c);
                match parsed(before.keymap_view(), typed) {
                    None => !quit && after.same_tree(before) && after.log_view() == before.log_view()
                        && after.command_view() == typed,
                    Some(Action::Quit) => quit && after.same_tree(before) && after.log_view() == before.log_view()
                        && after.command_view() == typed,
                    Some(action) => !quit && after.command_view() == Seq::<char>::empty() && Self::applied(
                        before,
                        after,
                        action,
                        typed,
                    ),
                }
            },
            Key::Esc => !quit && after.same_tree(before) && after.log_view() == before.log_view()
                && after.command_view() == Seq::<char>::empty(),
            Key::Other => !quit && after.same_tree(before) && after.log_view() == before.log_view()
                && after.command_view() == before.command_view(),
        }
    }

    /// What an action does depends on the tree and the log alone: sessions
    /// that agree on them before and after agree on what was done.
    proof fn lemma_applied_elsewhere(
        before: &Self,
        after: &Self,
        before_too: &Self,
        after_too: &Self,
        action: Action,
        typed: Seq<char>,
    )
        requires
            Self::applied(before, after, action, typed),
            before_too.same_tree(before),
            before_too.log_view() == before.log_view(),
            after_too.same_tree(after),
            after_too.log_view() == after.log_view(),
        ensures
            Self::applied(before_too, after_too, action, typed),
    {
        match action {
            Action::Replace(c) => {
                if before.cursor_value().replace_char(c) {
                    let node = choose|node: N| #[trigger] Self::replaced_with(before, after, c, node);
                    assert(Self::replaced_with(before_too, after_too, c, node));
                }
            },
            _ => {},
        }
    }

    /// Responds to a key, and returns whether the session is to end.
    pub fn handle_key(&mut self, key: Key) -> (quit: bool)
        requires
            old(self).wf(),
        ensures
            final(self).wf(),
            final(self).keymap_view() == old(self).keymap_view(),
            final(self).format_view() == old(self).format_view(),
            Self::handled(old(self), final(self), key, quit),
    {
        match key {
            Key::Char(c) => {
                self.command.push(c);
                let ghost typing = *self;
                let ghost typed = self.command@;
                if let Some(action) = parse_command(&self.keymap, self.command.as_str()) {
                    match action {
                        Action::Undefined => {
                            let mut message = String::from_str("'");
                            message.append(self.command.as_str());
                            message.append("' not a command.");
                            self.log(LogLevel::Warning, message);
                        },
                        Action::Quit => {
                            return true;
                        },
                        Action::MoveCursor(direction) => {
                            self.move_cursor(direction);
                        },
                        Action::Replace(c) => {
                            self.replace_cursor(c);
                        },
                        Action::InsertChild(c) => {
                            self.insert_child(c);
                        },
                        Action::Undo => {
                            self.undo();
                        },
                        Action::Redo => {
                            self.redo();
                        },
                    }
                    let ghost done = *self;
                    assert(Self::applied(&typing, &done, action, typed));
                    self.command = String::new();
                    proof {
                        Self::lemma_applied_elsewhere(&typing, &done, old(self), self, action, typed);
                    }
                }
                false
            },
            Key::Esc => {
                self.command = String::new();
                false
            },
            Key::Other => false,
        }
    }
}

} // verus!
