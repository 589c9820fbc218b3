//! How much room a piece of text takes when it is printed.

use vstd::prelude::*;
use vstd::string::*;

verus! {

/// The number of line breaks in `text`.
pub open spec fn lines_of(text: Seq<char>) -> nat
    decreases text.len(),
{
    if text.len() == 0 {
        0
    } else if text.last() == '\n' {
        lines_of(text.drop_last()) + 1
    } else {
        lines_of(text.drop_last())
    }
}

/// The number of characters after the last line break of `text`, or in the
/// whole of it where it has none.
pub open spec fn last_line_length_of(text: Seq<char>) -> nat
    decreases text.len(),
{
    if text.len() == 0 {
        0
    } else if text.last() == '\n' {
        0
    } else {
        last_line_length_of(text.drop_last()) + 1
    }
}

/// The room that a piece of text takes: the line breaks in it and the
/// length of its last line.
#[derive(Clone, Copy, Debug, PartialEq, Eq, Structural)]
pub struct Size {
    lines: usize,
    last_line_length: usize,
}

impl Size {
    /// The room that `text` takes.
    pub fn from(text: &str) -> (size: Size)
        ensures
            size.lines_view() == lines_of(text@),
            size.last_line_length_view() == last_line_length_of(text@),
    {
        let length = text.unicode_len();
        let mut lines: usize = 0;
        let mut last_line_length: usize = 0;
        let mut k: usize = 0;
        while k < length
            invariant
                k <= length,
                length == text@.len(),
                lines == lines_of(text@.take(k as int)),
                last_line_length == last_line_length_of(text@.take(k as int)),
                lines <= k,
                last_line_length <= k,
            decreases length - k,
        {
            assert(text@.take(k + 1).drop_last() =~= text@.take(k as int));
            if text.get_char(k) == '\n' {
                lines += 1;
                last_line_length = 0;
            } else {
                last_line_length += 1;
            }
            k += 1;
        }
        assert(text@.take(k as int) =~= text@);
        Size { lines, last_line_length }
    }

    /// The number of line breaks.
    pub closed spec fn lines_view(&self) -> nat {
        self.lines as nat
    }

    /// The length of the last line.
    pub closed spec fn last_line_length_view(&self) -> nat {
        self.last_line_length as nat
    }

    /// The number of line breaks.
    pub fn lines(&self) -> (lines: usize)
        ensures
            lines == self.lines_view(),
    {
        self.lines
    }

    /// The length of the last line.
    pub fn last_line_length(&self) -> (length: usize)
        ensures
            length == self.last_line_length_view(),
    {
        self.last_line_length
    }
}

} // verus!
