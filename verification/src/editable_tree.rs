//! Trees that can be navigated and edited, with a history of their edits.

use vstd::prelude::*;

pub mod dag;

verus! {

/// The ways in which the cursor can move.
#[derive(Clone, Copy, Debug, PartialEq, Eq, Structural, Hash)]
pub enum Direction {
    /// To the first child of the cursor node.
    Down,
    /// To the parent of the cursor node.
    Up,
    /// To the sibling before the cursor node.
    Prev,
    /// To the sibling after the cursor node.
    Next,
}

} // verus!
