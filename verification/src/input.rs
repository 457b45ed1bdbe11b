//! The input of the line-oriented formatter: a snippet of titled slices of
//! source, each with annotations and footer messages.
use vstd::prelude::*;
use std::ops::Range;

verus! {

/// A level of severity for an annotation message.
#[derive(Debug, Copy, Clone, PartialEq, Eq, Structural)]
pub enum Level {
    /// Typically displayed using a red color.
    Error,
    /// Typically displayed using a blue color.
    Warning,
    Info,
    Note,
    Help,
}

/// A message with an associated level.
#[derive(Debug, Copy, Clone)]
pub struct Message<'s> {
    pub text: &'s str,
    pub level: Level,
}

/// The title line of a snippet: an optional code, and a message.
#[derive(Debug, Copy, Clone)]
pub struct Title<'s> {
    pub code: Option<&'s str>,
    pub message: Message<'s>,
}

/// An annotation for a byte range of a slice's source.
#[derive(Debug)]
pub struct Annotation<'s> {
    pub span: Range<usize>,
    pub message: Option<Message<'s>>,
}

/// A slice of source text with annotations, starting at line `line_num`.
#[derive(Debug, Copy, Clone)]
pub struct Slice<'s> {
    pub span: &'s str,
    pub line_num: usize,
    pub origin: Option<&'s str>,
    pub annotations: &'s [Annotation<'s>],
    pub footer: &'s [Message<'s>],
}

/// A titled set of slices.
#[derive(Debug, Copy, Clone)]
pub struct Snippet<'s> {
    pub title: Option<Title<'s>>,
    pub slices: &'s [Slice<'s>],
}

} // verus!
