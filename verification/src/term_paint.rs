//! Painting text with terminal escape codes, through `ansi_term` and
//! `termcolor`.
use vstd::prelude::*;
use std::io::Write;
use termcolor::{Ansi, Color, ColorSpec, WriteColor};

use crate::output::decimal;

verus! {

/// The foreground colours painted through `ansi_term`.
#[derive(Debug, Clone, Copy, PartialEq, Eq, Structural)]
pub enum TermColour {
    Red,
    Fixed(u8),
}

/// The foreground colours painted through `termcolor`.
#[derive(Debug, Clone, Copy, PartialEq, Eq, Structural)]
pub enum TermcolorColor {
    Red,
    Yellow,
    Ansi256(u8),
}

/// The code `ansi_term` writes for a foreground colour.
pub open spec fn ansi_term_colour_code(c: TermColour) -> Seq<char> {
    match c {
        TermColour::Red => seq!['3', '1'],
        TermColour::Fixed(n) => seq!['3', '8', ';', '5', ';'] + decimal(n as nat),
    }
}

/// Text painted by `ansi_term`: a style with neither bold nor colour
/// writes the text alone; otherwise the codes `1` for bold and the colour's,
/// joined by `;`, go between `ESC [` and `m` before the text, and the reset
/// code `ESC [0m` after it.
pub open spec fn ansi_term_paint(bold: bool, fg: Option<TermColour>, text: Seq<char>) -> Seq<char> {
    if !bold && fg is None {
        text
    } else {
        seq!['\x1B', '['] + (if bold {
            seq!['1']
        } else {
            Seq::empty()
        }) + (if bold && fg is Some {
            seq![';']
        } else {
            Seq::empty()
        }) + match fg {
            Some(c) => ansi_term_colour_code(c),
            None => Seq::empty(),
        } + seq!['m'] + text + seq!['\x1B', '[', '0', 'm']
    }
}

/// The code `termcolor` writes for a foreground colour that is not intense.
pub open spec fn termcolor_colour_code(c: TermcolorColor) -> Seq<char> {
    match c {
        TermcolorColor::Red => seq!['\x1B', '[', '3', '1', 'm'],
        TermcolorColor::Yellow => seq!['\x1B', '[', '3', '3', 'm'],
        TermcolorColor::Ansi256(n) => seq!['\x1B', '[', '3', '8', ';', '5', ';'] + decimal(n as nat) + seq!['m'],
    }
}

/// Text written through a `termcolor::Ansi` writer: setting a fresh colour
/// specification first resets (`ESC [0m`), then writes `ESC [1m` for bold
/// and the colour's code; after the text, resetting writes `ESC [0m`.
pub open spec fn termcolor_paint(bold: bool, fg: Option<TermcolorColor>, text: Seq<char>) -> Seq<char> {
    seq!['\x1B', '[', '0', 'm'] + (if bold {
        seq!['\x1B', '[', '1', 'm']
    } else {
        Seq::empty()
    }) + match fg {
        Some(c) => termcolor_colour_code(c),
        None => Seq::empty(),
    } + text + seq!['\x1B', '[', '0', 'm']
}

/// Paints `text` with `ansi_term::Style`, bold or not, in the foreground
/// colour `fg` if any, and displays it. As `ansi_term`'s source
/// (`ansi.rs`, `display.rs`) shows, the result is `ansi_term_paint`.
#[verifier::external_body]
pub(crate) fn paint_ansi_term(bold: bool, fg: Option<TermColour>, text: &str) -> (s: String)
    ensures
        s@ == ansi_term_paint(bold, fg, text@),
{
    let foreground = match fg {
        Some(TermColour::Red) => Some(ansi_term::Colour::Red),
        Some(TermColour::Fixed(n)) => Some(ansi_term::Colour::Fixed(n)),
        None => None,
    };
    let style = ansi_term::Style { is_bold: bold, foreground, ..ansi_term::Style::default() };
    style.paint(text).to_string()
}

/// Writes `text` through a `termcolor::Ansi` writer over a buffer: a fresh
/// `ColorSpec` with bold set as given and the foreground colour `fg`, the
/// text, then a reset. As `termcolor`'s source shows (`Ansi::set_color`,
/// `Ansi::reset`, `ColorSpec::default` with `reset` set), the result is
/// `termcolor_paint`.
#[verifier::external_body]
pub(crate) fn paint_termcolor(bold: bool, fg: Option<TermcolorColor>, text: &str) -> (s: String)
    ensures
        s@ == termcolor_paint(bold, fg, text@),
{
    let color = match fg {
        Some(TermcolorColor::Red) => Some(Color::Red),
        Some(TermcolorColor::Yellow) => Some(Color::Yellow),
        Some(TermcolorColor::Ansi256(n)) => Some(Color::Ansi256(n)),
        None => None,
    };
    let mut ansi = Ansi::new(Vec::new());
    ansi.set_color(ColorSpec::new().set_bold(bold).set_fg(color)).unwrap();
    ansi.write_all(text.as_bytes()).unwrap();
    ansi.reset().unwrap();
    String::from_utf8(ansi.into_inner()).unwrap()
}

} // verus!
