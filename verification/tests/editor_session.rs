use sapling::arena::{Arena, NodeId};
use sapling::ast::json::{Json, JsonFormat, JsonKind};
use sapling::ast::Node;
use sapling::editable_tree::dag::DAG;
use sapling::editable_tree::Direction;
use sapling::editor::{
    default_keymap, move_pen, pick_color, Color, Editor, Key, LogLevel, Pen, Span,
};
use sapling::ast::display_token::DisplayToken;

/// An editor on the tree `[true, false]`, shown on one line.
fn session() -> (Editor<Json>, NodeId, NodeId, NodeId) {
    let mut arena: Arena<Json> = Arena::new();
    let a = arena.allocate(Json::new(JsonKind::True, vec![]));
    let b = arena.allocate(Json::new(JsonKind::False, vec![]));
    let root = arena.allocate(Json::new(JsonKind::Array, vec![a, b]));
    (Editor::new(DAG::new(arena, root), JsonFormat::Compact, default_keymap()), root, a, b)
}

fn log_of(editor: &Editor<Json>) -> Vec<(LogLevel, String)> {
    editor.log_entries().iter().map(|(level, message)| (*level, message.clone())).collect()
}

fn text_of(editor: &Editor<Json>) -> String {
    let mut s = String::new();
    editor.tree().write_text(&mut s, &JsonFormat::Compact);
    s
}

fn span(row: usize, col: usize, text: &str, fg: Option<Color>, bg: Option<Color>) -> Span {
    Span { row, col, text: text.to_string(), fg, bg }
}

fn type_keys(editor: &mut Editor<Json>, keys: &str) -> bool {
    let mut quit = false;
    for c in keys.chars() {
        quit = editor.handle_key(Key::Char(c));
    }
    quit
}

#[test]
fn new_editor_has_an_empty_log_and_command() {
    let (editor, root, _a, _b) = session();
    assert!(editor.log_entries().is_empty());
    assert_eq!(editor.command(), "");
    assert_eq!(editor.tree().root(), root);
    assert_eq!(editor.tree().cursor(), root);
}

#[test]
fn log_appends_entries_in_order() {
    let (mut editor, _root, _a, _b) = session();
    editor.log(LogLevel::Info, "Starting Up...".to_string());
    editor.log(LogLevel::Error, "second".to_string());
    assert_eq!(
        log_of(&editor),
        vec![(LogLevel::Info, "Starting Up...".to_string()), (LogLevel::Error, "second".to_string())]
    );
}

#[test]
fn replace_with_an_accepted_char_edits_and_logs() {
    let (mut editor, root, _a, b) = session();
    editor.move_cursor(Direction::Down);
    editor.replace_cursor('n');
    assert_eq!(text_of(&editor), "[null, false]");
    assert_ne!(editor.tree().root(), root);
    assert_eq!(editor.tree().history_len(), 2);
    let new_root = editor.tree().root();
    assert_eq!(editor.tree().arena().get(new_root).children()[1], b);
    assert_eq!(log_of(&editor), vec![(LogLevel::Debug, "Replacing with 'n'".to_string())]);
}

#[test]
fn replace_with_a_refused_char_only_logs() {
    let (mut editor, root, _a, _b) = session();
    editor.replace_cursor('x');
    assert_eq!(editor.tree().root(), root);
    assert_eq!(editor.tree().history_len(), 1);
    assert_eq!(editor.tree().arena().len(), 3);
    assert_eq!(log_of(&editor), vec![(LogLevel::Warning, "Cannot replace node with 'x'".to_string())]);
}

#[test]
fn replace_with_a_node_of_unknown_children_is_refused() {
    let (mut editor, root, a, _b) = session();
    editor.replace_cursor_with('a', Json::new(JsonKind::Array, vec![a, NodeId { index: 17 }]));
    assert_eq!(editor.tree().root(), root);
    assert_eq!(editor.tree().history_len(), 1);
    assert_eq!(log_of(&editor), vec![(LogLevel::Warning, "Cannot replace node with 'a'".to_string())]);
    editor.replace_cursor_with('a', Json::new(JsonKind::Array, vec![a, a]));
    assert_eq!(text_of(&editor), "[true, true]");
    assert_eq!(editor.tree().history_len(), 2);
    assert_eq!(log_of(&editor)[1], (LogLevel::Debug, "Replacing with 'a'".to_string()));
}

#[test]
fn refused_move_is_logged_as_a_warning() {
    let (mut editor, root, a, _b) = session();
    editor.move_cursor(Direction::Up);
    assert_eq!(editor.tree().cursor(), root);
    assert_eq!(log_of(&editor), vec![(LogLevel::Warning, "Cannot move to the parent of the root.".to_string())]);
    editor.move_cursor(Direction::Down);
    assert_eq!(editor.tree().cursor(), a);
    assert_eq!(log_of(&editor).len(), 1);
}

#[test]
fn insert_child_only_logs() {
    let (mut editor, root, _a, _b) = session();
    editor.insert_child('t');
    editor.insert_child('x');
    editor.move_cursor(Direction::Down);
    editor.insert_child('t');
    assert_eq!(editor.tree().root(), root);
    assert_eq!(editor.tree().history_len(), 1);
    assert_eq!(editor.tree().arena().len(), 3);
    assert_eq!(
        log_of(&editor),
        vec![
            (LogLevel::Debug, "Inserting with 't'".to_string()),
            (LogLevel::Warning, "Cannot replace node with 'x'".to_string()),
            (LogLevel::Warning, "Cannot replace node with 't'".to_string()),
        ]
    );
}

#[test]
fn undo_and_redo_log_their_outcome() {
    let (mut editor, root, _a, _b) = session();
    editor.undo();
    editor.redo();
    editor.replace_cursor('t');
    let edited = editor.tree().root();
    editor.undo();
    assert_eq!(editor.tree().root(), root);
    editor.redo();
    assert_eq!(editor.tree().root(), edited);
    assert_eq!(
        log_of(&editor),
        vec![
            (LogLevel::Info, "No changes to undo".to_string()),
            (LogLevel::Info, "No changes to redo".to_string()),
            (LogLevel::Debug, "Replacing with 't'".to_string()),
            (LogLevel::Debug, "Undo successful".to_string()),
            (LogLevel::Debug, "Redo successful".to_string()),
        ]
    );
}

#[test]
fn keys_build_a_command_until_it_is_complete() {
    let (mut editor, _root, a, _b) = session();
    assert!(!editor.handle_key(Key::Char('c')));
    assert_eq!(editor.command(), "");
    assert_eq!(editor.tree().cursor(), a);
    assert!(!editor.handle_key(Key::Char('r')));
    assert_eq!(editor.command(), "r");
    assert_eq!(editor.tree().history_len(), 1);
    assert!(!editor.handle_key(Key::Char('n')));
    assert_eq!(editor.command(), "");
    assert_eq!(text_of(&editor), "[null, false]");
    assert!(!type_keys(&mut editor, "u"));
    assert_eq!(text_of(&editor), "[true, false]");
    assert!(!type_keys(&mut editor, "R"));
    assert_eq!(text_of(&editor), "[null, false]");
    // Redo has put the cursor back on the first item, which is a leaf.
    assert!(!type_keys(&mut editor, "cjkp"));
    assert_eq!(editor.tree().cursor(), editor.tree().root());
    assert!(!type_keys(&mut editor, "kjp"));
    assert_eq!(
        log_of(&editor),
        vec![
            (LogLevel::Debug, "Replacing with 'n'".to_string()),
            (LogLevel::Debug, "Undo successful".to_string()),
            (LogLevel::Debug, "Redo successful".to_string()),
            (LogLevel::Warning, "Cannot move down the tree if the cursor has no children.".to_string()),
            (LogLevel::Warning, "Cannot move to a sibling of the root.".to_string()),
            (LogLevel::Warning, "Cannot move to a sibling of the root.".to_string()),
            (LogLevel::Warning, "Cannot move to the parent of the root.".to_string()),
        ]
    );
}

#[test]
fn undefined_key_is_logged_and_cleared() {
    let (mut editor, root, _a, _b) = session();
    assert!(!editor.handle_key(Key::Char('x')));
    assert_eq!(editor.command(), "");
    assert_eq!(editor.tree().root(), root);
    assert_eq!(log_of(&editor), vec![(LogLevel::Warning, "'x' not a command.".to_string())]);
}

#[test]
fn insert_command_takes_its_argument() {
    let (mut editor, _root, _a, _b) = session();
    assert!(!type_keys(&mut editor, "i"));
    assert_eq!(editor.command(), "i");
    assert!(!type_keys(&mut editor, "f"));
    assert_eq!(editor.command(), "");
    assert_eq!(log_of(&editor), vec![(LogLevel::Debug, "Inserting with 'f'".to_string())]);
}

#[test]
fn escape_clears_the_command_and_other_keys_do_nothing() {
    let (mut editor, _root, _a, _b) = session();
    assert!(!editor.handle_key(Key::Char('r')));
    assert!(!editor.handle_key(Key::Other));
    assert_eq!(editor.command(), "r");
    assert!(!editor.handle_key(Key::Esc));
    assert_eq!(editor.command(), "");
    assert!(!editor.handle_key(Key::Char('t')));
    assert_eq!(editor.tree().history_len(), 1);
    assert_eq!(log_of(&editor), vec![(LogLevel::Warning, "'t' not a command.".to_string())]);
}

#[test]
fn quit_ends_the_session_and_keeps_the_command() {
    let (mut editor, _root, _a, _b) = session();
    assert!(editor.handle_key(Key::Char('q')));
    assert_eq!(editor.command(), "q");
    assert!(editor.log_entries().is_empty());
}

#[test]
fn colours_are_picked_by_the_hash_modulo_fourteen() {
    let expected = [
        Color::Magenta,
        Color::Red,
        Color::Yellow,
        Color::Green,
        Color::Cyan,
        Color::Blue,
        Color::White,
        Color::LightRed,
        Color::LightBlue,
        Color::LightCyan,
        Color::LightGreen,
        Color::LightYellow,
        Color::LightMagenta,
        Color::LightWhite,
    ];
    for (hash, color) in expected.iter().enumerate() {
        assert_eq!(pick_color(hash as u64), *color);
        assert_eq!(pick_color(hash as u64 + 14 * 1000), *color);
    }
    assert_eq!(pick_color(u64::MAX), Color::Red);
}

#[test]
fn pen_moves_over_each_kind_of_token() {
    let pen = Pen { row: 2, col: 3, indentation: 8 };
    assert_eq!(move_pen(pen, &DisplayToken::Text("abc".to_string())), Pen { row: 2, col: 6, indentation: 8 });
    assert_eq!(move_pen(pen, &DisplayToken::Text("a\nbc\nd".to_string())), Pen { row: 4, col: 1, indentation: 8 });
    assert_eq!(move_pen(pen, &DisplayToken::Text("a\n".to_string())), Pen { row: 3, col: 0, indentation: 8 });
    assert_eq!(move_pen(pen, &DisplayToken::Whitespace(5)), Pen { row: 2, col: 8, indentation: 8 });
    assert_eq!(move_pen(pen, &DisplayToken::Newline), Pen { row: 3, col: 8, indentation: 8 });
    assert_eq!(move_pen(pen, &DisplayToken::Indent), Pen { row: 2, col: 3, indentation: 12 });
    assert_eq!(move_pen(pen, &DisplayToken::Dedent), Pen { row: 2, col: 3, indentation: 4 });
}

#[test]
fn pen_stops_at_the_ends_of_its_range() {
    let far = Pen { row: usize::MAX, col: usize::MAX - 1, indentation: 0 };
    assert_eq!(move_pen(far, &DisplayToken::Whitespace(7)), Pen { row: usize::MAX, col: usize::MAX, indentation: 0 });
    assert_eq!(move_pen(far, &DisplayToken::Newline), Pen { row: usize::MAX, col: 0, indentation: 0 });
    assert_eq!(move_pen(far, &DisplayToken::Dedent), far);
    let deep = Pen { row: 0, col: 0, indentation: usize::MAX - 2 };
    assert_eq!(move_pen(deep, &DisplayToken::Indent), Pen { row: 0, col: 0, indentation: usize::MAX });
}

#[test]
fn render_tree_places_and_colours_the_text() {
    let (mut editor, _root, _a, _b) = session();
    // The cursor is on the root: its brackets and comma are highlighted.
    assert_eq!(
        editor.render_tree(0, 0),
        vec![
            span(0, 0, "[", Some(Color::Black), Some(Color::Cyan)),
            span(0, 1, "true", Some(Color::Red), None),
            span(0, 5, ",", Some(Color::Black), Some(Color::Cyan)),
            span(0, 7, "false", Some(Color::Yellow), None),
            span(0, 12, "]", Some(Color::Black), Some(Color::Cyan)),
        ]
    );
    editor.move_cursor(Direction::Down);
    editor.move_cursor(Direction::Next);
    assert_eq!(
        editor.render_tree(3, 10),
        vec![
            span(3, 10, "[", Some(Color::Cyan), None),
            span(3, 11, "true", Some(Color::Red), None),
            span(3, 15, ",", Some(Color::Cyan), None),
            span(3, 17, "false", Some(Color::Black), Some(Color::Yellow)),
            span(3, 22, "]", Some(Color::Cyan), None),
        ]
    );
}

#[test]
fn render_tree_follows_new_lines_and_indentation() {
    let mut arena: Arena<Json> = Arena::new();
    let t = arena.allocate(Json::new(JsonKind::True, vec![]));
    let inner = arena.allocate(Json::new(JsonKind::Array, vec![t]));
    let n = arena.allocate(Json::new(JsonKind::Null, vec![]));
    let root = arena.allocate(Json::new(JsonKind::Array, vec![inner, n]));
    let mut editor = Editor::new(DAG::new(arena, root), JsonFormat::Pretty, default_keymap());
    editor.move_cursor(Direction::Down);
    let on = |text: &str, row: usize, col: usize| span(row, col, text, Some(Color::Black), Some(Color::Cyan));
    let off = |text: &str, row: usize, col: usize, color: Color| span(row, col, text, Some(color), None);
    assert_eq!(
        editor.render_tree(0, 2),
        vec![
            off("[", 0, 2, Color::Cyan),
            on("[", 1, 4),
            off("true", 2, 8, Color::Red),
            on("]", 3, 4),
            off(",", 3, 5, Color::Cyan),
            off("null", 4, 4, Color::Green),
            off("]", 5, 0, Color::Cyan),
        ]
    );
}

#[test]
fn display_shows_tree_log_and_bottom_bar() {
    let (mut editor, _root, _a, _b) = session();
    editor.handle_key(Key::Char('x'));
    editor.handle_key(Key::Char('u'));
    editor.handle_key(Key::Char('r'));
    let spans = editor.display(80, 24);
    assert_eq!(
        spans,
        vec![
            span(0, 0, "[", Some(Color::Black), Some(Color::Cyan)),
            span(0, 1, "true", Some(Color::Red), None),
            span(0, 5, ",", Some(Color::Black), Some(Color::Cyan)),
            span(0, 7, "false", Some(Color::Yellow), None),
            span(0, 12, "]", Some(Color::Black), Some(Color::Cyan)),
            span(0, 40, "'x' not a command.", Some(Color::Yellow), None),
            span(1, 40, "No changes to undo", Some(Color::Green), None),
            span(23, 0, "Press 'q' to exit.", None, None),
            span(23, 74, "r", None, None),
        ]
    );
}

#[test]
fn display_fits_the_smallest_screen_that_it_is_meant_for() {
    let (editor, _root, _a, _b) = session();
    let spans = editor.display(5, 1);
    assert_eq!(spans.len(), 7);
    assert_eq!(spans[5], span(0, 0, "Press 'q' to exit.", None, None));
    assert_eq!(spans[6], span(0, 0, "", None, None));
}
