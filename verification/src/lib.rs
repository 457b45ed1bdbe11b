//! Formatting of text or source code snippets with annotations, rendered as
//! an ASCII-graphical report.
use vstd::prelude::*;

pub mod text;
pub mod cursor_line;
pub mod input;
pub mod message;
pub mod renderer;
pub mod level;
pub mod snippet;
pub mod laws;
pub mod label_laws;
pub mod output;
pub mod formatter;
pub mod span;
pub mod term_paint;
pub mod styles;
pub mod ascii_styles;
pub mod marks;
pub mod html;
pub mod ascii_default;
pub mod annotation;
pub mod slice;
pub mod display_list;
pub mod format;
pub mod display_list_formatting;
pub mod format_color;
pub mod formatted_display_list;

verus! {

/// The text with the characters that terminals show inconsistently replaced:
/// tabs become four spaces, and control characters other than the newline,
/// zero-width joiners and text direction controls are dropped. Untrusted
/// input goes through this before it is shown.
pub fn normalize_untrusted_str(s: &str) -> (res: String)
    ensures
        res@ == renderer::normalize::normalized(s@),
{
    renderer::normalize::normalize_whitespace(s)
}

} // verus!
