pub mod display_list;
pub mod display_body;
pub mod display_message;
pub mod normalize;
pub mod decor;
pub mod preprocess;
pub mod source_map;
pub mod line_filter;
pub mod line_annotations;
pub mod annotated_lines;
pub mod ascii;
pub mod no_graphics;
pub mod stylesheet;
pub mod display_output;
pub mod label_layout;

use vstd::prelude::*;

use self::decor::DecorStyle;
use self::stylesheet::{basic_style_codes, is_basic_style, StyleCodes, Stylesheet};

verus! {

/// The width that a renderer renders within unless it is given another.
pub const DEFAULT_TERM_WIDTH: usize = 140;

/// The settings a report is rendered with: whether line numbers are hidden,
/// the width to render within, the characters of the decor, the styles, and
/// whether the message is abbreviated.
pub struct Renderer {
    pub anonymized_line_numbers: bool,
    pub term_width: usize,
    pub decor_style: DecorStyle,
    pub stylesheet: Stylesheet,
    pub short_message: bool,
}

/// The settings of a plain renderer, the styles aside: line numbers shown,
/// the default width, ASCII decor, the full message.
pub open spec fn default_settings(r: Renderer) -> bool {
    &&& !r.anonymized_line_numbers
    &&& r.term_width == DEFAULT_TERM_WIDTH
    &&& r.decor_style == DecorStyle::Ascii
    &&& !r.short_message
}

/// The styles of a styled renderer: bold bright red errors, bold yellow
/// warnings, bold bright blue information, line numbers and context, bold
/// bright green notes, bold bright cyan help, bold emphasis, plain text
/// unstyled, bright green additions and bright red removals.
pub open spec fn is_styled_sheet(s: Stylesheet) -> bool {
    &&& is_basic_style(s.error, Some(9u8), true)
    &&& is_basic_style(s.warning, Some(3u8), true)
    &&& is_basic_style(s.info, Some(12u8), true)
    &&& is_basic_style(s.note, Some(10u8), true)
    &&& is_basic_style(s.help, Some(14u8), true)
    &&& is_basic_style(s.line_no, Some(12u8), true)
    &&& is_basic_style(s.emphasis, None, true)
    &&& s.none.is_plain()
    &&& is_basic_style(s.context, Some(12u8), true)
    &&& is_basic_style(s.addition, Some(10u8), false)
    &&& is_basic_style(s.removal, Some(9u8), false)
}

impl Renderer {
    /// No terminal styling.
    pub fn plain() -> (r: Renderer)
        ensures
            default_settings(r),
            r.stylesheet.is_plain(),
    {
        Renderer {
            anonymized_line_numbers: false,
            term_width: DEFAULT_TERM_WIDTH,
            decor_style: DecorStyle::Ascii,
            stylesheet: Stylesheet::plain(),
            short_message: false,
        }
    }

    /// The default terminal styling, with the settings of a plain renderer.
    pub fn styled() -> (r: Renderer)
        ensures
            default_settings(r),
            is_styled_sheet(r.stylesheet),
    {
        let stylesheet = Stylesheet {
            error: basic_style_codes(Some(9), true),
            warning: basic_style_codes(Some(3), true),
            info: basic_style_codes(Some(12), true),
            note: basic_style_codes(Some(10), true),
            help: basic_style_codes(Some(14), true),
            line_no: basic_style_codes(Some(12), true),
            emphasis: basic_style_codes(None, true),
            none: StyleCodes::plain(),
            context: basic_style_codes(Some(12), true),
            addition: basic_style_codes(Some(10), false),
            removal: basic_style_codes(Some(9), false),
        };
        let plain = Renderer::plain();
        Renderer { stylesheet, ..plain }
    }

    /// Abbreviate the message.
    pub fn short_message(self, short_message: bool) -> (r: Renderer)
        ensures
            r == (Renderer { short_message, ..self }),
    {
        Renderer { short_message, ..self }
    }

    /// Set the width to render within.
    pub fn term_width(self, term_width: usize) -> (r: Renderer)
        ensures
            r == (Renderer { term_width, ..self }),
    {
        Renderer { term_width, ..self }
    }

    /// Set the character set the decor is drawn with.
    pub fn decor_style(self, decor_style: DecorStyle) -> (r: Renderer)
        ensures
            r == (Renderer { decor_style, ..self }),
    {
        Renderer { decor_style, ..self }
    }

    /// Show `LL` in place of each line number, which keeps expected output
    /// in tests stable.
    pub fn anonymized_line_numbers(self, anonymized_line_numbers: bool) -> (r: Renderer)
        ensures
            r == (Renderer { anonymized_line_numbers, ..self }),
    {
        Renderer { anonymized_line_numbers, ..self }
    }
}


/// Override the styles of a styled renderer.
impl Renderer {
    /// Override the style of `error`.
    pub fn error(self, style: StyleCodes) -> (r: Renderer)
        ensures
            r == (Renderer { stylesheet: Stylesheet { error: style, ..self.stylesheet }, ..self }),
    {
        let stylesheet = Stylesheet { error: style, ..self.stylesheet };
        Renderer { stylesheet, ..self }
    }

    /// Override the style of `warning`.
    pub fn warning(self, style: StyleCodes) -> (r: Renderer)
        ensures
            r == (Renderer { stylesheet: Stylesheet { warning: style, ..self.stylesheet }, ..self }),
    {
        let stylesheet = Stylesheet { warning: style, ..self.stylesheet };
        Renderer { stylesheet, ..self }
    }

    /// Override the style of `info`.
    pub fn info(self, style: StyleCodes) -> (r: Renderer)
        ensures
            r == (Renderer { stylesheet: Stylesheet { info: style, ..self.stylesheet }, ..self }),
    {
        let stylesheet = Stylesheet { info: style, ..self.stylesheet };
        Renderer { stylesheet, ..self }
    }

    /// Override the style of `note`.
    pub fn note(self, style: StyleCodes) -> (r: Renderer)
        ensures
            r == (Renderer { stylesheet: Stylesheet { note: style, ..self.stylesheet }, ..self }),
    {
        let stylesheet = Stylesheet { note: style, ..self.stylesheet };
        Renderer { stylesheet, ..self }
    }

    /// Override the style of `help`.
    pub fn help(self, style: StyleCodes) -> (r: Renderer)
        ensures
            r == (Renderer { stylesheet: Stylesheet { help: style, ..self.stylesheet }, ..self }),
    {
        let stylesheet = Stylesheet { help: style, ..self.stylesheet };
        Renderer { stylesheet, ..self }
    }

    /// Override the style of line numbers.
    pub fn line_num(self, style: StyleCodes) -> (r: Renderer)
        ensures
            r == (Renderer { stylesheet: Stylesheet { line_no: style, ..self.stylesheet }, ..self }),
    {
        let stylesheet = Stylesheet { line_no: style, ..self.stylesheet };
        Renderer { stylesheet, ..self }
    }

    /// Override the style of emphasis.
    pub fn emphasis(self, style: StyleCodes) -> (r: Renderer)
        ensures
            r == (Renderer { stylesheet: Stylesheet { emphasis: style, ..self.stylesheet }, ..self }),
    {
        let stylesheet = Stylesheet { emphasis: style, ..self.stylesheet };
        Renderer { stylesheet, ..self }
    }

    /// Override the style of unstyled text.
    pub fn none(self, style: StyleCodes) -> (r: Renderer)
        ensures
            r == (Renderer { stylesheet: Stylesheet { none: style, ..self.stylesheet }, ..self }),
    {
        let stylesheet = Stylesheet { none: style, ..self.stylesheet };
        Renderer { stylesheet, ..self }
    }

    /// Override the style of context annotations.
    pub fn context(self, style: StyleCodes) -> (r: Renderer)
        ensures
            r == (Renderer { stylesheet: Stylesheet { context: style, ..self.stylesheet }, ..self }),
    {
        let stylesheet = Stylesheet { context: style, ..self.stylesheet };
        Renderer { stylesheet, ..self }
    }

    /// Override the style of additions.
    pub fn addition(self, style: StyleCodes) -> (r: Renderer)
        ensures
            r == (Renderer { stylesheet: Stylesheet { addition: style, ..self.stylesheet }, ..self }),
    {
        let stylesheet = Stylesheet { addition: style, ..self.stylesheet };
        Renderer { stylesheet, ..self }
    }

    /// Override the style of removals.
    pub fn removal(self, style: StyleCodes) -> (r: Renderer)
        ensures
            r == (Renderer { stylesheet: Stylesheet { removal: style, ..self.stylesheet }, ..self }),
    {
        let stylesheet = Stylesheet { removal: style, ..self.stylesheet };
        Renderer { stylesheet, ..self }
    }

}

} // verus!
