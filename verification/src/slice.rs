//! A piece of source text with the annotations on it.
use vstd::prelude::*;

use crate::annotation::SourceAnnotation;

verus! {

/// A piece of source text: where it comes from, the number of its first
/// line, and the annotations on ranges of its characters.
#[derive(Debug, Clone, Copy)]
pub struct Slice<'s> {
    pub source: &'s str,
    pub line_start: Option<usize>,
    pub origin: Option<&'s str>,
    pub annotations: &'s [SourceAnnotation<'s>],
}

} // verus!
