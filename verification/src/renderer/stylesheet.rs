//! The styles of the parts of a rendered message, held as the escape codes
//! that switch each style on and off.
use vstd::prelude::*;

verus! {

/// The codes written before (`on`) and after (`off`) text in one style. A
/// plain style writes none.
pub struct StyleCodes {
    pub on: String,
    pub off: String,
}

impl StyleCodes {
    /// A style that writes no codes.
    pub fn plain() -> (s: StyleCodes)
        ensures
            s.on@.len() == 0,
            s.off@.len() == 0,
    {
        StyleCodes { on: String::new(), off: String::new() }
    }

    pub open spec fn is_plain(&self) -> bool {
        self.on@.len() == 0 && self.off@.len() == 0
    }
}

/// The digit of `d`, for `d` below eight.
pub open spec fn octal_digit(d: int) -> char {
    if d == 0 { '0' }
    else if d == 1 { '1' }
    else if d == 2 { '2' }
    else if d == 3 { '3' }
    else if d == 4 { '4' }
    else if d == 5 { '5' }
    else if d == 6 { '6' }
    else { '7' }
}

/// The select graphic rendition sequence `ESC [ params m`.
pub open spec fn sgr(params: Seq<char>) -> Seq<char> {
    seq!['\x1b', '['] + params + seq!['m']
}

/// The code that switches on one of the sixteen basic foreground colours,
/// by its index: `3x` for the eight normal ones, `9x` for the bright ones.
pub open spec fn basic_fg_code(index: u8) -> Seq<char> {
    sgr(seq![if index < 8 { '3' } else { '9' }, octal_digit(index as int % 8)])
}

/// The codes that switch on a style made of an optional basic foreground
/// colour and an optional bold effect: the effect first, then the colour.
pub open spec fn basic_on_codes(color: Option<u8>, bold: bool) -> Seq<char> {
    (if bold { sgr(seq!['1']) } else { Seq::empty() }) + match color {
        Some(index) => basic_fg_code(index),
        None => Seq::empty(),
    }
}

/// The code that resets a style: none for the plain style, else `ESC [0m`.
pub open spec fn basic_off_codes(color: Option<u8>, bold: bool) -> Seq<char> {
    if color is Some || bold { sgr(seq!['0']) } else { Seq::empty() }
}

/// The codes of a style of an optional basic foreground colour and an
/// optional bold effect.
pub open spec fn is_basic_style(c: StyleCodes, color: Option<u8>, bold: bool) -> bool {
    c.on@ == basic_on_codes(color, bold) && c.off@ == basic_off_codes(color, bold)
}

/// The codes `anstyle` renders for a style with the given basic foreground
/// colour (`anstyle::Ansi256Color::into_ansi` of the index) and the bold
/// effect when `bold` is set: `Style::render` writes the effects' codes and
/// then the colour's, `Style::render_reset` writes `ESC [0m` unless the style
/// is the plain one. The contract states both as the source shows them.
#[verifier::external_body]
pub(crate) fn basic_style_codes(color: Option<u8>, bold: bool) -> (c: StyleCodes)
    requires
        color matches Some(index) ==> index < 16,
    ensures
        is_basic_style(c, color, bold),
{
    let fg = color.map(anstyle::Ansi256Color).and_then(anstyle::Ansi256Color::into_ansi).map(anstyle::Color::Ansi);
    let effects = anstyle::Effects::new().set(anstyle::Effects::BOLD, bold);
    let style = anstyle::Style::new().fg_color(fg).effects(effects);
    StyleCodes { on: style.render().to_string(), off: style.render_reset().to_string() }
}

/// The style of each part of a message.
pub struct Stylesheet {
    pub error: StyleCodes,
    pub warning: StyleCodes,
    pub info: StyleCodes,
    pub note: StyleCodes,
    pub help: StyleCodes,
    pub line_no: StyleCodes,
    pub emphasis: StyleCodes,
    pub none: StyleCodes,
    pub context: StyleCodes,
    pub addition: StyleCodes,
    pub removal: StyleCodes,
}

impl Stylesheet {
    pub open spec fn is_plain(&self) -> bool {
        &&& self.error.is_plain()
        &&& self.warning.is_plain()
        &&& self.info.is_plain()
        &&& self.note.is_plain()
        &&& self.help.is_plain()
        &&& self.line_no.is_plain()
        &&& self.emphasis.is_plain()
        &&& self.none.is_plain()
        &&& self.context.is_plain()
        &&& self.addition.is_plain()
        &&& self.removal.is_plain()
    }

    /// No styling at all.
    pub fn plain() -> (s: Stylesheet)
        ensures
            s.is_plain(),
    {
        Stylesheet {
            error: StyleCodes::plain(),
            warning: StyleCodes::plain(),
            info: StyleCodes::plain(),
            note: StyleCodes::plain(),
            help: StyleCodes::plain(),
            line_no: StyleCodes::plain(),
            emphasis: StyleCodes::plain(),
            none: StyleCodes::plain(),
            context: StyleCodes::plain(),
            addition: StyleCodes::plain(),
            removal: StyleCodes::plain(),
        }
    }
}

} // verus!
