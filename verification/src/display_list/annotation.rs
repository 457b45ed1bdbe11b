//! The annotation shown on a line of a display list.
use vstd::prelude::*;

use crate::annotation::AnnotationType;

verus! {

/// An annotation's type, id and label, as shown.
#[derive(Debug, Clone, Copy)]
pub struct Annotation<'d> {
    pub annotation_type: AnnotationType,
    pub id: Option<&'d str>,
    pub label: &'d str,
}

} // verus!
