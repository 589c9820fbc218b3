use sapling::arena::{Arena, NodeId};
use sapling::ast::json::{Json, JsonFormat, JsonKind};
use sapling::ast::Node;
use sapling::cursor_path::CursorPath;
use sapling::editable_tree::dag::DAG;
use sapling::editable_tree::Direction;

/// A tree `[true, false]`: the handles of the root and of its two items.
fn two_item_tree() -> (DAG<Json>, NodeId, NodeId, NodeId) {
    let mut arena: Arena<Json> = Arena::new();
    let a = arena.allocate(Json::new(JsonKind::True, vec![]));
    let b = arena.allocate(Json::new(JsonKind::False, vec![]));
    let root = arena.allocate(Json::new(JsonKind::Array, vec![a, b]));
    (DAG::new(arena, root), root, a, b)
}

/// A tree `[[true, null], false]`.
fn nested_tree() -> (DAG<Json>, NodeId, NodeId, NodeId, NodeId, NodeId) {
    let mut arena: Arena<Json> = Arena::new();
    let t = arena.allocate(Json::new(JsonKind::True, vec![]));
    let n = arena.allocate(Json::new(JsonKind::Null, vec![]));
    let inner = arena.allocate(Json::new(JsonKind::Array, vec![t, n]));
    let f = arena.allocate(Json::new(JsonKind::False, vec![]));
    let root = arena.allocate(Json::new(JsonKind::Array, vec![inner, f]));
    (DAG::new(arena, root), root, inner, t, n, f)
}

fn text(tree: &DAG<Json>) -> String {
    let mut s = String::new();
    tree.write_text(&mut s, &JsonFormat::Compact);
    s
}

#[test]
fn arena_hands_out_consecutive_stable_handles() {
    let mut arena: Arena<Json> = Arena::new();
    assert_eq!(arena.len(), 0);
    let a = arena.allocate(Json::new(JsonKind::True, vec![]));
    let b = arena.allocate(Json::new(JsonKind::Null, vec![]));
    assert_eq!(a.index, 0);
    assert_eq!(b.index, 1);
    assert_ne!(a, b);
    assert_eq!(arena.len(), 2);
    assert!(arena.contains(a));
    assert!(arena.contains(b));
    assert!(!arena.contains(NodeId { index: 2 }));
    let c = arena.allocate(Json::new(JsonKind::Array, vec![a, b]));
    assert_eq!(arena.get(a).kind(), JsonKind::True);
    assert_eq!(arena.get(b).kind(), JsonKind::Null);
    assert_eq!(arena.get(c).kind(), JsonKind::Array);
    assert_eq!(arena.get(c).children(), &vec![a, b]);
}

#[test]
fn arena_admits_only_nodes_whose_children_are_stored() {
    let mut arena: Arena<Json> = Arena::new();
    let a = arena.allocate(Json::new(JsonKind::True, vec![]));
    assert!(arena.admits(&Json::new(JsonKind::Array, vec![a, a])));
    assert!(arena.admits(&Json::new(JsonKind::Array, vec![])));
    assert!(!arena.admits(&Json::new(JsonKind::Array, vec![a, NodeId { index: 1 }])));
}

#[test]
fn cursor_path_root_push_pop() {
    let mut path = CursorPath::root();
    assert!(path.is_root());
    assert_eq!(path.depth(), 0);
    path.pop();
    assert!(path.is_root());
    path.push(0);
    path.push(3);
    assert!(!path.is_root());
    assert_eq!(path.indices(), &vec![0, 3]);
    path.pop();
    assert_eq!(path.indices(), &vec![0]);
    let copy = path.clone();
    path.pop();
    assert!(path.is_root());
    assert_eq!(copy.indices(), &vec![0]);
}

#[test]
fn cursor_path_last_mut_changes_the_last_index() {
    let mut path = CursorPath::root();
    assert!(path.last_mut().is_none());
    path.push(1);
    path.push(2);
    match path.last_mut() {
        Some(index) => {
            assert_eq!(*index, 2);
            *index = 7;
        }
        None => panic!("a path of two steps has a last index"),
    }
    assert_eq!(path.indices(), &vec![1, 7]);
}

#[test]
fn cursor_path_node_iter_yields_root_to_cursor() {
    let (tree, root, inner, _t, n, _f) = nested_tree();
    let mut path = CursorPath::root();
    assert_eq!(path.node_iter(tree.arena(), root), vec![root]);
    assert_eq!(path.cursor(tree.arena(), root), root);
    assert_eq!(path.cursor_and_parent(tree.arena(), root), (root, None));
    path.push(0);
    path.push(1);
    assert_eq!(path.node_iter(tree.arena(), root), vec![root, inner, n]);
    assert_eq!(path.cursor(tree.arena(), root), n);
    assert_eq!(path.cursor_and_parent(tree.arena(), root), (n, Some(inner)));
}

#[test]
fn new_tree_has_one_entry_and_cursor_at_root() {
    let (tree, root, _a, _b) = two_item_tree();
    assert_eq!(tree.history_len(), 1);
    assert_eq!(tree.history_index(), 0);
    assert_eq!(tree.root(), root);
    assert_eq!(tree.cursor(), root);
    assert!(tree.cursor_path().is_root());
    assert_eq!(tree.cursor_and_parent(), (root, None));
}

#[test]
fn undo_and_redo_on_a_new_tree_do_nothing() {
    let (mut tree, root, _a, _b) = two_item_tree();
    assert!(!tree.undo());
    assert!(!tree.redo());
    assert_eq!(tree.root(), root);
    assert_eq!(tree.history_len(), 1);
    assert_eq!(tree.history_index(), 0);
}

#[test]
fn move_up_at_root_is_refused() {
    let (mut tree, root, _a, _b) = two_item_tree();
    assert_eq!(tree.move_cursor(Direction::Up), Some("Cannot move to the parent of the root.".to_string()));
    assert_eq!(tree.cursor(), root);
    assert!(tree.cursor_path().is_root());
}

#[test]
fn move_to_a_sibling_of_the_root_is_refused() {
    let (mut tree, root, _a, _b) = two_item_tree();
    assert_eq!(tree.move_cursor(Direction::Prev), Some("Cannot move to a sibling of the root.".to_string()));
    assert_eq!(tree.move_cursor(Direction::Next), Some("Cannot move to a sibling of the root.".to_string()));
    assert_eq!(tree.cursor(), root);
}

#[test]
fn move_down_at_a_leaf_is_refused() {
    let (mut tree, _root, a, _b) = two_item_tree();
    assert_eq!(tree.move_cursor(Direction::Down), None);
    assert_eq!(tree.cursor(), a);
    assert_eq!(
        tree.move_cursor(Direction::Down),
        Some("Cannot move down the tree if the cursor has no children.".to_string())
    );
    assert_eq!(tree.cursor(), a);
    assert_eq!(tree.cursor_path().indices(), &vec![0]);
}

#[test]
fn move_prev_at_the_first_child_is_refused() {
    let (mut tree, _root, a, _b) = two_item_tree();
    assert_eq!(tree.move_cursor(Direction::Down), None);
    assert_eq!(
        tree.move_cursor(Direction::Prev),
        Some("Cannot move before the first child of a node.".to_string())
    );
    assert_eq!(tree.cursor(), a);
}

#[test]
fn move_next_at_the_last_child_is_refused() {
    let (mut tree, root, _a, b) = two_item_tree();
    assert_eq!(tree.move_cursor(Direction::Down), None);
    assert_eq!(tree.move_cursor(Direction::Next), None);
    assert_eq!(tree.cursor(), b);
    assert_eq!(tree.cursor_and_parent(), (b, Some(root)));
    assert_eq!(
        tree.move_cursor(Direction::Next),
        Some("Cannot move past the last sibling of a node.".to_string())
    );
    assert_eq!(tree.cursor(), b);
    assert_eq!(tree.cursor_path().indices(), &vec![1]);
}

#[test]
fn moves_walk_the_tree_and_leave_the_history_alone() {
    let (mut tree, root, inner, t, n, f) = nested_tree();
    assert_eq!(tree.move_cursor(Direction::Down), None);
    assert_eq!(tree.cursor(), inner);
    assert_eq!(tree.move_cursor(Direction::Down), None);
    assert_eq!(tree.cursor(), t);
    assert_eq!(tree.move_cursor(Direction::Next), None);
    assert_eq!(tree.cursor(), n);
    assert_eq!(tree.move_cursor(Direction::Prev), None);
    assert_eq!(tree.cursor(), t);
    assert_eq!(tree.move_cursor(Direction::Up), None);
    assert_eq!(tree.cursor(), inner);
    assert_eq!(tree.move_cursor(Direction::Next), None);
    assert_eq!(tree.cursor(), f);
    assert_eq!(tree.move_cursor(Direction::Up), None);
    assert_eq!(tree.cursor(), root);
    assert_eq!(tree.history_len(), 1);
    assert_eq!(tree.history_index(), 0);
    assert_eq!(tree.arena().len(), 5);
}

#[test]
fn replace_then_undo_end_to_end() {
    let (mut tree, root, a, b) = two_item_tree();
    assert_eq!(tree.move_cursor(Direction::Down), None);
    assert_eq!(tree.cursor(), a);
    let allocated = tree.arena().len();
    tree.replace_cursor(Json::new(JsonKind::Null, vec![]));
    let new_root = tree.root();
    assert_ne!(new_root, root);
    let new_a = tree.cursor();
    assert_ne!(new_a, a);
    assert_eq!(new_a, NodeId { index: allocated });
    assert_eq!(tree.arena().get(new_a).kind(), JsonKind::Null);
    assert_eq!(tree.arena().get(new_root).kind(), JsonKind::Array);
    assert_eq!(tree.arena().get(new_root).children(), &vec![new_a, b]);
    assert_eq!(tree.history_len(), 2);
    assert_eq!(tree.history_index(), 1);
    assert_eq!(text(&tree), "[null, false]");
    // The tree of before is untouched.
    assert_eq!(tree.arena().get(root).children(), &vec![a, b]);
    assert!(tree.undo());
    assert_eq!(tree.root(), root);
    assert_eq!(tree.arena().get(tree.root()).children(), &vec![a, b]);
    assert_eq!(tree.cursor_path().indices(), &Vec::<usize>::new());
    assert_eq!(tree.history_len(), 2);
    assert_eq!(tree.history_index(), 0);
    assert_eq!(text(&tree), "[true, false]");
}

#[test]
fn undo_restores_the_cursor_path_of_the_entry() {
    let (mut tree, _root, _inner, _t, _n, _f) = nested_tree();
    tree.move_cursor(Direction::Down);
    tree.move_cursor(Direction::Down);
    tree.replace_cursor(Json::new(JsonKind::False, vec![]));
    tree.move_cursor(Direction::Next);
    tree.replace_cursor(Json::new(JsonKind::True, vec![]));
    assert_eq!(tree.cursor_path().indices(), &vec![0, 1]);
    tree.move_cursor(Direction::Up);
    assert!(tree.undo());
    assert_eq!(tree.cursor_path().indices(), &vec![0, 0]);
    assert!(tree.redo());
    assert_eq!(tree.cursor_path().indices(), &vec![0, 1]);
    assert!(tree.undo());
    assert!(tree.undo());
    assert!(tree.cursor_path().is_root());
}

#[test]
fn replace_allocates_depth_plus_one_nodes() {
    let (mut tree, _root, _inner, _t, _n, _f) = nested_tree();
    let before = tree.arena().len();
    tree.replace_cursor(Json::new(JsonKind::Array, vec![]));
    assert_eq!(tree.arena().len(), before + 1);
    let (mut tree, _root, _inner, _t, _n, _f) = nested_tree();
    tree.move_cursor(Direction::Down);
    let before = tree.arena().len();
    tree.replace_cursor(Json::new(JsonKind::Null, vec![]));
    assert_eq!(tree.arena().len(), before + 2);
    let (mut tree, _root, _inner, _t, _n, _f) = nested_tree();
    tree.move_cursor(Direction::Down);
    tree.move_cursor(Direction::Down);
    tree.move_cursor(Direction::Next);
    let before = tree.arena().len();
    tree.replace_cursor(Json::new(JsonKind::Null, vec![]));
    assert_eq!(tree.arena().len(), before + 3);
}

#[test]
fn replace_shares_every_node_off_the_cursor_path() {
    let (mut tree, root, inner, t, n, f) = nested_tree();
    tree.move_cursor(Direction::Down);
    tree.move_cursor(Direction::Down);
    tree.move_cursor(Direction::Next);
    assert_eq!(tree.cursor(), n);
    tree.replace_cursor(Json::new(JsonKind::False, vec![]));
    let new_root = tree.root();
    let new_inner = tree.arena().get(new_root).children()[0];
    let new_n = tree.cursor();
    assert_ne!(new_root, root);
    assert_ne!(new_inner, inner);
    assert_ne!(new_n, n);
    // The siblings along the way are the very same nodes.
    assert_eq!(tree.arena().get(new_root).children(), &vec![new_inner, f]);
    assert_eq!(tree.arena().get(new_inner).children(), &vec![t, new_n]);
    assert_eq!(tree.arena().get(new_inner).kind(), JsonKind::Array);
    assert_eq!(text(&tree), "[[true, false], false]");
    // The copies are new allocations, made bottom up.
    assert_eq!(new_n.index, 5);
    assert_eq!(new_inner.index, 6);
    assert_eq!(new_root.index, 7);
}

#[test]
fn replace_at_the_root_commits_the_node_as_root() {
    let (mut tree, root, _a, _b) = two_item_tree();
    tree.replace_cursor(Json::new(JsonKind::True, vec![]));
    assert_ne!(tree.root(), root);
    assert_eq!(tree.root(), tree.cursor());
    assert_eq!(tree.arena().get(tree.root()).kind(), JsonKind::True);
    assert_eq!(text(&tree), "true");
    assert!(tree.undo());
    assert_eq!(tree.root(), root);
}

#[test]
fn replacement_may_hold_nodes_of_the_tree() {
    let (mut tree, _root, a, b) = two_item_tree();
    tree.move_cursor(Direction::Down);
    tree.replace_cursor(Json::new(JsonKind::Array, vec![b, a]));
    assert_eq!(text(&tree), "[[false, true], false]");
    assert_eq!(tree.move_cursor(Direction::Down), None);
    assert_eq!(tree.cursor(), b);
}

#[test]
fn k_undos_after_k_edits_restore_the_root_and_k_redos_the_last() {
    let (mut tree, root, _a, _b) = two_item_tree();
    tree.move_cursor(Direction::Down);
    let mut roots = vec![root];
    for kind in [JsonKind::Null, JsonKind::False, JsonKind::Array, JsonKind::True] {
        tree.replace_cursor(Json::new(kind, vec![]));
        roots.push(tree.root());
    }
    assert_eq!(tree.history_len(), 5);
    assert_eq!(tree.history_index(), 4);
    for k in (0..4).rev() {
        assert!(tree.undo());
        assert_eq!(tree.root(), roots[k]);
        assert_eq!(tree.history_index(), k);
    }
    assert_eq!(tree.root(), root);
    assert!(!tree.undo());
    for k in 1..5 {
        assert!(tree.redo());
        assert_eq!(tree.root(), roots[k]);
    }
    assert!(!tree.redo());
    assert_eq!(tree.root(), roots[4]);
    assert_eq!(tree.history_len(), 5);
}

#[test]
fn edit_after_undo_discards_the_redo_branch() {
    let (mut tree, root, _a, _b) = two_item_tree();
    tree.move_cursor(Direction::Down);
    tree.replace_cursor(Json::new(JsonKind::Null, vec![]));
    tree.replace_cursor(Json::new(JsonKind::Array, vec![]));
    assert_eq!(tree.history_len(), 3);
    assert!(tree.undo());
    assert!(tree.undo());
    assert_eq!(tree.root(), root);
    tree.move_cursor(Direction::Down);
    tree.move_cursor(Direction::Next);
    tree.replace_cursor(Json::new(JsonKind::True, vec![]));
    assert_eq!(tree.history_len(), 2);
    assert_eq!(tree.history_index(), 1);
    assert!(!tree.redo());
    assert_eq!(text(&tree), "[true, true]");
    assert!(tree.undo());
    assert_eq!(tree.root(), root);
    assert!(tree.redo());
    assert_eq!(text(&tree), "[true, true]");
}

#[test]
fn history_index_stays_within_the_history() {
    let (mut tree, _root, _a, _b) = two_item_tree();
    let check = |tree: &DAG<Json>| {
        assert!(tree.history_len() >= 1);
        assert!(tree.history_index() < tree.history_len());
    };
    check(&tree);
    tree.undo();
    check(&tree);
    tree.redo();
    check(&tree);
    tree.move_cursor(Direction::Down);
    tree.replace_cursor(Json::new(JsonKind::Null, vec![]));
    check(&tree);
    tree.replace_cursor(Json::new(JsonKind::True, vec![]));
    check(&tree);
    tree.undo();
    check(&tree);
    tree.undo();
    check(&tree);
    tree.undo();
    check(&tree);
    tree.redo();
    check(&tree);
    tree.replace_cursor(Json::new(JsonKind::False, vec![]));
    check(&tree);
    tree.redo();
    check(&tree);
}

#[test]
fn write_text_appends_to_the_buffer() {
    let (tree, _root, _inner, _t, _n, _f) = nested_tree();
    let mut compact = String::from("> ");
    tree.write_text(&mut compact, &JsonFormat::Compact);
    assert_eq!(compact, "> [[true, null], false]");
    let mut pretty = String::new();
    tree.write_text(&mut pretty, &JsonFormat::Pretty);
    assert_eq!(pretty, "[\n    [\n        true,\n        null\n    ],\n    false\n]");
}
