//! The characters that draw a report's decor, in ASCII or in Unicode.
use vstd::prelude::*;

verus! {

/// The character set used to draw decor.
#[derive(Debug, Clone, Copy, PartialEq, Eq, Structural)]
pub enum DecorStyle {
    Ascii,
    Unicode,
}

/// The style an underline is drawn in.
#[derive(Debug, Clone, Copy, PartialEq, Eq, Structural)]
pub enum ElementStyle {
    UnderlinePrimary,
    UnderlineSecondary,
}

/// The characters that draw the underline of an annotation and the lines
/// that join the ends of a multiline annotation.
#[derive(Debug, Clone, Copy, PartialEq, Eq, Structural)]
pub struct UnderlineParts {
    pub style: ElementStyle,
    pub underline: char,
    pub label_start: char,
    pub vertical_text_line: char,
    pub multiline_vertical: char,
    pub multiline_horizontal: char,
    pub multiline_whole_line: char,
    pub multiline_start_down: char,
    pub bottom_right: char,
    pub top_left: char,
    pub top_right_flat: char,
    pub bottom_left: char,
    pub multiline_end_up: char,
    pub multiline_end_same_line: char,
    pub multiline_bottom_right_with_text: char,
}

/// The parts an underline is drawn with, for a decor style and for primary
/// or secondary annotations.
pub open spec fn underline_parts(decor: DecorStyle, is_primary: bool) -> UnderlineParts {
    match (decor, is_primary) {
        (DecorStyle::Ascii, true) => UnderlineParts {
            style: ElementStyle::UnderlinePrimary,
            underline: '^',
            label_start: '^',
            vertical_text_line: '|',
            multiline_vertical: '|',
            multiline_horizontal: '_',
            multiline_whole_line: '/',
            multiline_start_down: '^',
            bottom_right: '|',
            top_left: ' ',
            top_right_flat: '^',
            bottom_left: '|',
            multiline_end_up: '^',
            multiline_end_same_line: '^',
            multiline_bottom_right_with_text: '|',
        },
        (DecorStyle::Ascii, false) => UnderlineParts {
            style: ElementStyle::UnderlineSecondary,
            underline: '-',
            label_start: '-',
            vertical_text_line: '|',
            multiline_vertical: '|',
            multiline_horizontal: '_',
            multiline_whole_line: '/',
            multiline_start_down: '-',
            bottom_right: '|',
            top_left: ' ',
            top_right_flat: '-',
            bottom_left: '|',
            multiline_end_up: '-',
            multiline_end_same_line: '-',
            multiline_bottom_right_with_text: '|',
        },
        (DecorStyle::Unicode, true) => UnderlineParts {
            style: ElementStyle::UnderlinePrimary,
            underline: '━',
            label_start: '┯',
            vertical_text_line: '│',
            multiline_vertical: '┃',
            multiline_horizontal: '━',
            multiline_whole_line: '┏',
            multiline_start_down: '╿',
            bottom_right: '┙',
            top_left: '┏',
            top_right_flat: '┛',
            bottom_left: '┗',
            multiline_end_up: '╿',
            multiline_end_same_line: '┛',
            multiline_bottom_right_with_text: '┥',
        },
        (DecorStyle::Unicode, false) => UnderlineParts {
            style: ElementStyle::UnderlineSecondary,
            underline: '─',
            label_start: '┬',
            vertical_text_line: '│',
            multiline_vertical: '│',
            multiline_horizontal: '─',
            multiline_whole_line: '┌',
            multiline_start_down: '│',
            bottom_right: '┘',
            top_left: '┌',
            top_right_flat: '┘',
            bottom_left: '└',
            multiline_end_up: '│',
            multiline_end_same_line: '┘',
            multiline_bottom_right_with_text: '┤',
        },
    }
}

impl DecorStyle {
    /// The separator between line numbers and source.
    pub fn col_separator(&self) -> (c: char)
        ensures
            c == (match *self {
                DecorStyle::Ascii => '|',
                DecorStyle::Unicode => '│',
            }),
    {
        match self {
            DecorStyle::Ascii => '|',
            DecorStyle::Unicode => '│',
        }
    }

    /// What starts a note line; in Unicode it tells whether more notes follow.
    pub fn note_separator(&self, is_cont: bool) -> (s: &'static str)
        ensures
            s@ == (match *self {
                DecorStyle::Ascii => "= "@,
                DecorStyle::Unicode => if is_cont {
                    "├ "@
                } else {
                    "╰ "@
                },
            }),
    {
        match self {
            DecorStyle::Ascii => "= ",
            DecorStyle::Unicode => {
                if is_cont {
                    "├ "
                } else {
                    "╰ "
                }
            },
        }
    }

    /// The separator between several suggestions.
    pub fn multi_suggestion_separator(&self) -> (s: &'static str)
        ensures
            s@ == (match *self {
                DecorStyle::Ascii => "|"@,
                DecorStyle::Unicode => "├╴"@,
            }),
    {
        match self {
            DecorStyle::Ascii => "|",
            DecorStyle::Unicode => "├╴",
        }
    }

    /// What comes before the path of a file; in Unicode it tells whether it
    /// is the first.
    pub fn file_start(&self, is_first: bool) -> (s: &'static str)
        ensures
            s@ == (match *self {
                DecorStyle::Ascii => "--> "@,
                DecorStyle::Unicode => if is_first {
                    " ╭▸ "@
                } else {
                    " ├▸ "@
                },
            }),
    {
        match self {
            DecorStyle::Ascii => "--> ",
            DecorStyle::Unicode => {
                if is_first {
                    " ╭▸ "
                } else {
                    " ├▸ "
                }
            },
        }
    }

    /// What comes before the path of a secondary file.
    pub fn secondary_file_start(&self) -> (s: &'static str)
        ensures
            s@ == (match *self {
                DecorStyle::Ascii => "::: "@,
                DecorStyle::Unicode => " ⸬  "@,
            }),
    {
        match self {
            DecorStyle::Ascii => "::: ",
            DecorStyle::Unicode => " ⸬  ",
        }
    }

    /// The character that marks a changed line of a diff.
    pub fn diff(&self) -> (c: char)
        ensures
            c == (match *self {
                DecorStyle::Ascii => '~',
                DecorStyle::Unicode => '±',
            }),
    {
        match self {
            DecorStyle::Ascii => '~',
            DecorStyle::Unicode => '±',
        }
    }

    /// What stands for text left out of a line.
    pub fn margin(&self) -> (s: &'static str)
        ensures
            s@ == (match *self {
                DecorStyle::Ascii => "..."@,
                DecorStyle::Unicode => "…"@,
            }),
    {
        match self {
            DecorStyle::Ascii => "...",
            DecorStyle::Unicode => "…",
        }
    }

    /// The parts an underline is drawn with.
    pub fn underline(&self, is_primary: bool) -> (res: UnderlineParts)
        ensures
            res == underline_parts(*self, is_primary),
    {
        match (self, is_primary) {
            (DecorStyle::Ascii, true) => UnderlineParts {
                style: ElementStyle::UnderlinePrimary,
                underline: '^',
                label_start: '^',
                vertical_text_line: '|',
                multiline_vertical: '|',
                multiline_horizontal: '_',
                multiline_whole_line: '/',
                multiline_start_down: '^',
                bottom_right: '|',
                top_left: ' ',
                top_right_flat: '^',
                bottom_left: '|',
                multiline_end_up: '^',
                multiline_end_same_line: '^',
                multiline_bottom_right_with_text: '|',
            },
            (DecorStyle::Ascii, false) => UnderlineParts {
                style: ElementStyle::UnderlineSecondary,
                underline: '-',
                label_start: '-',
                vertical_text_line: '|',
                multiline_vertical: '|',
                multiline_horizontal: '_',
                multiline_whole_line: '/',
                multiline_start_down: '-',
                bottom_right: '|',
                top_left: ' ',
                top_right_flat: '-',
                bottom_left: '|',
                multiline_end_up: '-',
                multiline_end_same_line: '-',
                multiline_bottom_right_with_text: '|',
            },
            (DecorStyle::Unicode, true) => UnderlineParts {
                style: ElementStyle::UnderlinePrimary,
                underline: '━',
                label_start: '┯',
                vertical_text_line: '│',
                multiline_vertical: '┃',
                multiline_horizontal: '━',
                multiline_whole_line: '┏',
                multiline_start_down: '╿',
                bottom_right: '┙',
                top_left: '┏',
                top_right_flat: '┛',
                bottom_left: '┗',
                multiline_end_up: '╿',
                multiline_end_same_line: '┛',
                multiline_bottom_right_with_text: '┥',
            },
            (DecorStyle::Unicode, false) => UnderlineParts {
                style: ElementStyle::UnderlineSecondary,
                underline: '─',
                label_start: '┬',
                vertical_text_line: '│',
                multiline_vertical: '│',
                multiline_horizontal: '─',
                multiline_whole_line: '┌',
                multiline_start_down: '│',
                bottom_right: '┘',
                top_left: '┌',
                top_right_flat: '┘',
                bottom_left: '└',
                multiline_end_up: '│',
                multiline_end_same_line: '┘',
                multiline_bottom_right_with_text: '┤',
            },
        }
    }
}

} // verus!
