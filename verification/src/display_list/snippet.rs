//! The input of the flat output model: a snippet made of a title, slices of
//! source with annotations on them, and a footer.
use vstd::prelude::*;

use crate::annotation::{Annotation, SourceAnnotation};

verus! {

/// A piece of source with the number of its first line, where it comes
/// from, the annotations on ranges of its characters, and whether long runs
/// of unannotated lines are folded.
pub struct Slice<'s> {
    pub source: &'s str,
    pub line_start: usize,
    pub origin: Option<&'s str>,
    pub annotations: Vec<SourceAnnotation<'s>>,
    pub fold: bool,
}

/// A whole snippet: an optional title, its slices, an optional footer.
pub struct Snippet<'s> {
    pub title: Option<Annotation<'s>>,
    pub footer: Option<Annotation<'s>>,
    pub slices: Vec<Slice<'s>>,
}

} // verus!
