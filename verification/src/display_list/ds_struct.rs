//! The flat output model with typed inline marks: each mark carries the
//! type of the annotation it belongs to, so that it can be styled.
use vstd::prelude::*;

verus! {

/// The lines to be displayed.
pub struct DisplayList {
    pub body: Vec<DisplayLine>,
}

/// A line of output.
pub enum DisplayLine {
    /// A message line: a title, or an annotation aligned to the source.
    Annotation {
        label: Vec<DisplayTextFragment>,
        id: Option<String>,
        aligned: bool,
        annotation_type: DisplayAnnotationType,
    },
    /// Where the slice comes from.
    Origin { path: String, pos: Option<(usize, usize)>, header_type: DisplayHeaderType },
    /// The empty line that opens or closes a slice.
    EmptySource,
    /// A line of source with its number.
    Source { lineno: usize, inline_marks: Vec<DisplayMark>, content: String, range: (usize, usize) },
    /// The marks and label under the annotated part of a source line.
    SourceAnnotation {
        inline_marks: Vec<DisplayMark>,
        range: (usize, usize),
        label: Vec<DisplayTextFragment>,
        annotation_type: DisplayAnnotationType,
        annotation_part: DisplayAnnotationPart,
    },
    /// Stands for source lines left out.
    Fold { inline_marks: Vec<DisplayMark> },
}

/// A piece of a label with its style.
pub struct DisplayTextFragment {
    pub content: String,
    pub style: DisplayTextStyle,
}

#[derive(Debug, Clone, Copy, PartialEq, Eq, Structural)]
pub enum DisplayTextStyle {
    Regular,
    Emphasis,
}

/// Which part of an annotation a source annotation line draws.
#[derive(Debug, Clone, Copy, PartialEq, Eq, Structural)]
pub enum DisplayAnnotationPart {
    Singleline,
    MultilineStart,
    MultilineEnd,
}

/// A mark in the column between the line number and the source, and the
/// type of the annotation it belongs to.
#[derive(Debug, Clone, Copy, PartialEq, Eq, Structural)]
pub struct DisplayMark {
    pub mark_type: DisplayMarkType,
    pub annotation_type: DisplayAnnotationType,
}

#[derive(Debug, Clone, Copy, PartialEq, Eq, Structural)]
pub enum DisplayMarkType {
    AnnotationThrough,
    AnnotationStart,
}

#[derive(Debug, Clone, Copy, PartialEq, Eq, Structural)]
pub enum DisplayAnnotationType {
    Error,
    Warning,
    Info,
    Note,
    Help,
}

/// Whether an origin line is the first of the snippet or a later one.
#[derive(Debug, Clone, Copy, PartialEq, Eq, Structural)]
pub enum DisplayHeaderType {
    Initial,
    Continuation,
}

} // verus!
