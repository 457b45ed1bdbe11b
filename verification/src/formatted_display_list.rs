//! Display lines already turned into text, column by column.
use vstd::prelude::*;

verus! {

/// The formatted lines.
pub struct FormattedDisplayList {
    pub body: Vec<FormattedDisplayLine>,
}

/// A line whose columns are already text: the line number column, the
/// inline marks and the content.
#[derive(Debug)]
pub enum FormattedDisplayLine {
    Raw(String),
    EmptySource { lineno: String },
    Source { lineno: String, inline_marks: String, content: String },
    Annotation { lineno: String, inline_marks: String, content: String },
    Fold,
}

} // verus!
