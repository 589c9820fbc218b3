//! A structural editor core: documents are trees of immutable nodes kept in an
//! append-only arena, and every edit commits a new root that shares all
//! untouched subtrees with the roots before it.

pub mod arena;
pub mod ast;
pub mod cursor_path;
pub mod editable_tree;
pub mod editor;
