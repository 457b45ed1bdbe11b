//! Stylesheets that paint the parts of a formatted list.
use vstd::prelude::*;
use vstd::string::StringExecFns;

use crate::term_paint::{ansi_term_paint, paint_ansi_term, TermColour};

verus! {

/// The parts of a formatted list a stylesheet can paint.
#[derive(Debug, Clone, Copy, PartialEq, Eq, Structural)]
pub enum StyleClass {
    TitleLineAnnotationType,
    TitleLine,
    AnnotationTypeError,
}

/// Writes a text painted for the given style classes.
pub trait Stylesheet {
    fn format(&self, out: &mut String, pattern: &str, style: &[StyleClass]);
}

/// The stylesheet that paints nothing.
#[derive(Debug, Clone, Copy)]
pub struct StylesheetPlain {}

/// The stylesheet that paints titles bold and errors red, with ANSI codes.
#[derive(Debug, Clone, Copy)]
pub struct StylesheetColor {}

/// Whether the classes make the text bold, and its colour: the title classes
/// are bold, the error class red.
pub open spec fn class_style(styles: Seq<StyleClass>) -> (bool, Option<TermColour>)
    decreases styles.len(),
{
    if styles.len() == 0 {
        (false, None)
    } else {
        let (bold, fg) = class_style(styles.drop_last());
        match styles.last() {
            StyleClass::TitleLineAnnotationType => (true, fg),
            StyleClass::TitleLine => (true, fg),
            StyleClass::AnnotationTypeError => (bold, Some(TermColour::Red)),
        }
    }
}

impl Stylesheet for StylesheetPlain {
    /// Writes the text as it is.
    fn format(&self, out: &mut String, pattern: &str, style: &[StyleClass])
        ensures
            final(out)@ == old(out)@ + pattern@,
    {
        out.append(pattern);
    }
}

impl Stylesheet for StylesheetColor {
    /// Writes the text painted as `class_style` says.
    fn format(&self, out: &mut String, pattern: &str, style: &[StyleClass])
        ensures
            final(out)@ == old(out)@ + ansi_term_paint(class_style(style@).0, class_style(style@).1, pattern@),
    {
        let mut bold = false;
        let mut fg: Option<TermColour> = None;
        let mut i: usize = 0;
        while i < style.len()
            invariant
                i <= style@.len(),
                (bold, fg) == class_style(style@.take(i as int)),
            decreases style.len() - i,
        {
            assert(style@.take(i + 1).drop_last() =~= style@.take(i as int));
            match style[i] {
                StyleClass::TitleLineAnnotationType => bold = true,
                StyleClass::TitleLine => bold = true,
                StyleClass::AnnotationTypeError => fg = Some(TermColour::Red),
            }
            i += 1;
        }
        assert(style@.take(i as int) =~= style@);
        let painted = paint_ansi_term(bold, fg, pattern);
        out.append(painted.as_str());
    }
}

/// The stylesheet used when no colour support is built in: the plain one.
pub fn get_stylesheet() -> (s: StylesheetPlain) {
    StylesheetPlain {}
}

} // verus!
