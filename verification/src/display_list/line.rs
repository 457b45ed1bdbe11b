//! The lines of a display list that borrows its text from the slice.
use vstd::prelude::*;

use super::annotation::Annotation;
use crate::annotation::AnnotationType;
use std::ops::Range;

verus! {

/// A line of output: a source line, possibly with a number, or a line
/// outside the source.
pub enum DisplayLine<'d> {
    Source { lineno: Option<usize>, inline_marks: Vec<DisplayMark>, line: DisplaySourceLine<'d> },
    Raw(DisplayRawLine<'d>),
}

/// What a source line shows.
pub enum DisplaySourceLine<'d> {
    /// A line of the source text.
    Content { text: &'d str },
    /// An annotation under the characters `range` of the line above.
    Annotation { annotation: Annotation<'d>, range: Range<usize> },
    /// An empty line.
    Empty,
}

/// A line outside the source.
pub enum DisplayRawLine<'d> {
    /// Where the slice comes from, with its line and column when known.
    Origin { path: &'d str, pos: (Option<usize>, Option<usize>) },
    Annotation { annotation: Annotation<'d>, source_aligned: bool, continuation: bool },
}

/// A mark in the column before the source, and the type of the annotation
/// it belongs to.
#[derive(Debug, Clone, Copy, PartialEq, Eq, Structural)]
pub struct DisplayMark {
    pub mark_type: DisplayMarkType,
    pub annotation_type: AnnotationType,
}

#[derive(Debug, Clone, Copy, PartialEq, Eq, Structural)]
pub enum DisplayMarkType {
    AnnotationThrough,
    AnnotationStart,
}

/// What a source line shows, as plain values.
pub enum SourceLineView {
    Content(Seq<char>),
    Annotation { annotation_type: AnnotationType, id: Option<Seq<char>>, label: Seq<char>, start: usize, end: usize },
    Empty,
}

/// A line, as plain values.
pub enum LineView {
    Source { lineno: Option<usize>, inline_marks: Seq<DisplayMark>, line: SourceLineView },
    Origin { path: Seq<char>, pos: (Option<usize>, Option<usize>) },
    Message {
        annotation_type: AnnotationType,
        id: Option<Seq<char>>,
        label: Seq<char>,
        source_aligned: bool,
        continuation: bool,
    },
}

/// The text of an optional string slice.
pub open spec fn opt_view(s: Option<&str>) -> Option<Seq<char>> {
    match s {
        Some(t) => Some(t@),
        None => None,
    }
}

impl<'d> View for DisplaySourceLine<'d> {
    type V = SourceLineView;

    open spec fn view(&self) -> SourceLineView {
        match *self {
            DisplaySourceLine::Content { text } => SourceLineView::Content(text@),
            DisplaySourceLine::Annotation { annotation, range } => SourceLineView::Annotation {
                annotation_type: annotation.annotation_type,
                id: opt_view(annotation.id),
                label: annotation.label@,
                start: range.start,
                end: range.end,
            },
            DisplaySourceLine::Empty => SourceLineView::Empty,
        }
    }
}

impl<'d> View for DisplayLine<'d> {
    type V = LineView;

    open spec fn view(&self) -> LineView {
        match *self {
            DisplayLine::Source { lineno, inline_marks, line } => LineView::Source {
                lineno,
                inline_marks: inline_marks@,
                line: line@,
            },
            DisplayLine::Raw(DisplayRawLine::Origin { path, pos }) => LineView::Origin { path: path@, pos },
            DisplayLine::Raw(DisplayRawLine::Annotation { annotation, source_aligned, continuation }) =>
                LineView::Message {
                annotation_type: annotation.annotation_type,
                id: opt_view(annotation.id),
                label: annotation.label@,
                source_aligned,
                continuation,
            },
        }
    }
}

} // verus!
