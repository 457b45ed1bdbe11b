//! The style that paints through a `termcolor` writer.
use vstd::prelude::*;
use vstd::string::StringExecFns;

use crate::ascii_styles::{Style as StyleTrait, StyleType};
use crate::term_paint::{paint_termcolor, termcolor_paint, TermcolorColor};

verus! {

/// The style that paints with `termcolor`'s ANSI writer.
#[derive(Debug, Clone, Copy)]
pub struct Style {}

/// Whether the style types make the text bold, and its colour; a later type
/// overrides the colour of an earlier one, and the types without a colour
/// of their own change nothing.
pub open spec fn termcolor_style(styles: Seq<StyleType>) -> (bool, Option<TermcolorColor>)
    decreases styles.len(),
{
    if styles.len() == 0 {
        (false, None)
    } else {
        let (bold, fg) = termcolor_style(styles.drop_last());
        match styles.last() {
            StyleType::Emphasis => (true, fg),
            StyleType::Error => (bold, Some(TermcolorColor::Red)),
            StyleType::Warning => (bold, Some(TermcolorColor::Yellow)),
            StyleType::LineNo => (bold, Some(TermcolorColor::Ansi256(12))),
            _ => (bold, fg),
        }
    }
}

impl StyleTrait for Style {
    open spec fn painted(pattern: Seq<char>, styles: Seq<StyleType>) -> Seq<char> {
        termcolor_paint(termcolor_style(styles).0, termcolor_style(styles).1, pattern)
    }

    /// Writes the text painted as `termcolor_style` says.
    fn fmt(out: &mut String, pattern: &str, styles: &[StyleType]) {
        let mut bold = false;
        let mut fg: Option<TermcolorColor> = None;
        let mut i: usize = 0;
        while i < styles.len()
            invariant
                i <= styles@.len(),
                (bold, fg) == termcolor_style(styles@.take(i as int)),
            decreases styles.len() - i,
        {
            assert(styles@.take(i + 1).drop_last() =~= styles@.take(i as int));
            match styles[i] {
                StyleType::Emphasis => bold = true,
                StyleType::Error => fg = Some(TermcolorColor::Red),
                StyleType::Warning => fg = Some(TermcolorColor::Yellow),
                StyleType::LineNo => fg = Some(TermcolorColor::Ansi256(12)),
                _ => {},
            }
            i += 1;
        }
        assert(styles@.take(i as int) =~= styles@);
        let painted = paint_termcolor(bold, fg, pattern);
        out.append(painted.as_str());
    }
}

} // verus!
