//! The characters that draw the marks beside source lines.
use vstd::prelude::*;

verus! {

/// The parts of the marks that join the lines of a multiline annotation.
#[derive(Debug, Clone, Copy, PartialEq, Eq, Structural)]
pub enum MarkKind {
    Vertical,
    Horizontal,
    DownRight,
    UpRight,
    UpLeft,
}

impl MarkKind {
    /// The ASCII character of a mark.
    pub fn get(t: MarkKind) -> (c: char)
        ensures
            c == (match t {
                MarkKind::Vertical => '|',
                MarkKind::Horizontal => '-',
                MarkKind::DownRight => '/',
                MarkKind::UpRight => '|',
                MarkKind::UpLeft => '^',
            }),
    {
        match t {
            MarkKind::Vertical => '|',
            MarkKind::Horizontal => '-',
            MarkKind::DownRight => '/',
            MarkKind::UpRight => '|',
            MarkKind::UpLeft => '^',
        }
    }
}

} // verus!
