//! The style that paints with `ansi_term` codes.
use vstd::prelude::*;
use vstd::string::StringExecFns;

use crate::ascii_styles::{Style as StyleTrait, StyleType};
use crate::term_paint::{ansi_term_paint, paint_ansi_term, TermColour};

verus! {

/// The style that paints with 256-colour ANSI codes.
#[derive(Debug, Clone, Copy)]
pub struct Style {}

/// Whether the style types make the text bold, and its colour; a later type
/// overrides the colour of an earlier one.
pub open spec fn ansi_style(styles: Seq<StyleType>) -> (bool, Option<TermColour>)
    decreases styles.len(),
{
    if styles.len() == 0 {
        (false, None)
    } else {
        let (bold, fg) = ansi_style(styles.drop_last());
        match styles.last() {
            StyleType::Emphasis => (true, fg),
            StyleType::Error => (bold, Some(TermColour::Fixed(9))),
            StyleType::Warning => (bold, Some(TermColour::Fixed(11))),
            StyleType::Info => (bold, Some(TermColour::Fixed(12))),
            StyleType::Note => (bold, fg),
            StyleType::Help => (bold, Some(TermColour::Fixed(14))),
            StyleType::LineNo => (bold, Some(TermColour::Fixed(12))),
            StyleType::NoStyle => (bold, fg),
        }
    }
}

impl StyleTrait for Style {
    open spec fn painted(pattern: Seq<char>, styles: Seq<StyleType>) -> Seq<char> {
        ansi_term_paint(ansi_style(styles).0, ansi_style(styles).1, pattern)
    }

    /// Writes the text painted as `ansi_style` says.
    fn fmt(out: &mut String, pattern: &str, styles: &[StyleType]) {
        let mut bold = false;
        let mut fg: Option<TermColour> = None;
        let mut i: usize = 0;
        while i < styles.len()
            invariant
                i <= styles@.len(),
                (bold, fg) == ansi_style(styles@.take(i as int)),
            decreases styles.len() - i,
        {
            assert(styles@.take(i + 1).drop_last() =~= styles@.take(i as int));
            match styles[i] {
                StyleType::Emphasis => bold = true,
                StyleType::Error => fg = Some(TermColour::Fixed(9)),
                StyleType::Warning => fg = Some(TermColour::Fixed(11)),
                StyleType::Info => fg = Some(TermColour::Fixed(12)),
                StyleType::Note => {},
                StyleType::Help => fg = Some(TermColour::Fixed(14)),
                StyleType::LineNo => fg = Some(TermColour::Fixed(12)),
                StyleType::NoStyle => {},
            }
            i += 1;
        }
        assert(styles@.take(i as int) =~= styles@);
        let painted = paint_ansi_term(bold, fg, pattern);
        out.append(painted.as_str());
    }
}

} // verus!
