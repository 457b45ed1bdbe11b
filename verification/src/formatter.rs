//! The lines a snippet is formatted into, ready to be rendered.
use vstd::prelude::*;
use std::ops::Range;

use crate::input::{Level, Message, Title};

verus! {

/// A formatted snippet: its lines, in order.
#[derive(Debug)]
pub struct FormattedSnippet<'d> {
    pub lines: Vec<DisplayLine<'d>>,
}

/// A line of a formatted snippet.
#[derive(Debug)]
pub enum DisplayLine<'d> {
    /// A line of the source area, with its line number and the marks in
    /// front of it.
    Source { lineno: Option<usize>, inline_marks: Vec<Mark>, line: SourceLine<'d> },
    /// A line outside the source area.
    Raw(RawLine<'d>),
}

/// The content of a line of the source area.
#[derive(Debug)]
pub enum SourceLine<'d> {
    /// The bytes `subspan` of `span`.
    Content { span: &'d str, subspan: Range<usize> },
    /// An underline from column `underline.0`, `underline.1` wide, with a message.
    Annotation { message: Option<Message<'d>>, underline: (usize, usize) },
    Empty,
}

/// A line outside the source area.
#[derive(Debug, Copy, Clone)]
pub enum RawLine<'d> {
    Origin { path: &'d str, pos: Option<(usize, usize)> },
    Title { title: Title<'d> },
    Message { message: Message<'d> },
}

/// A mark in front of a source line, drawn in the colour of its level.
#[derive(Debug, Copy, Clone)]
pub struct Mark {
    pub kind: MarkKind,
    pub level: Level,
}

/// Where a multiline annotation stands on a line: it starts, goes on, or
/// ends here.
#[derive(Debug, Copy, Clone, PartialEq, Eq, Structural)]
pub enum MarkKind {
    Start,
    Continue,
    Here,
}

} // verus!
