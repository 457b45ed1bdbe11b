//! Styles that paint the parts of a rendered snippet.
use vstd::prelude::*;

pub mod plain;
pub mod color;
pub mod color2;

verus! {

/// The parts of a rendered snippet a style can paint.
#[derive(Debug, Clone, Copy, PartialEq, Eq, Structural)]
pub enum StyleType {
    Emphasis,
    Error,
    Warning,
    Info,
    Note,
    Help,
    LineNo,
    NoStyle,
}

/// Writes a text painted for the given style types.
pub trait Style {
    /// The text as this style paints it for the given style types.
    spec fn painted(pattern: Seq<char>, styles: Seq<StyleType>) -> Seq<char>;

    fn fmt(out: &mut String, pattern: &str, styles: &[StyleType])
        ensures
            final(out)@ == old(out)@ + Self::painted(pattern@, styles@),
    ;
}

} // verus!
