//! Annotations as a caller writes them: a message for a whole snippet, and
//! one attached to a range of a slice's source.
use vstd::prelude::*;

verus! {

/// A message that belongs to a snippet as a whole, such as its title or a
/// footer.
#[derive(Debug, Clone, Copy)]
pub struct Annotation<'s> {
    pub id: Option<&'s str>,
    pub label: Option<&'s str>,
    pub annotation_type: AnnotationType,
}

/// The kind of an annotation, which decides its name and marks in output.
#[derive(Debug, Clone, Copy, PartialEq, Eq, Structural)]
pub enum AnnotationType {
    Error,
    Warning,
    Info,
    Note,
    Help,
}

/// A message attached to the characters `range.0..range.1` of a slice's
/// source.
#[derive(Debug, Clone, Copy)]
pub struct SourceAnnotation<'s> {
    pub range: (usize, usize),
    pub label: &'s str,
    pub annotation_type: AnnotationType,
}

} // verus!
