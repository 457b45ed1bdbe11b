//! Rendering a formatted snippet as text, optionally with ANSI colours and
//! box-drawing characters.
use vstd::prelude::*;
use vstd::string::StringExecFns;

use crate::formatter::{DisplayLine, FormattedSnippet, Mark, MarkKind, RawLine, SourceLine};
use crate::html::{digit_count, digits};
use crate::input::Level;
use crate::output::{decimal, pad_left, push_decimal, push_decimal_padded, push_repeat, push_spaces, repeat_char};
use crate::text::{bytes_of, chars_of, is_boundary, lemma_boundary_ends, lemma_boundary_in_slice, lemma_chars_of_str};

verus! {

/// The settings of the text renderer.
#[derive(Debug, Copy, Clone)]
pub struct Ascii {
    /// Write ANSI colour codes.
    pub ansi: bool,
    pub fold: bool,
    /// Draw with box-drawing characters.
    pub box_drawing: bool,
}

/// `c` when the renderer writes ANSI codes, nothing otherwise.
pub open spec fn ansi_code(a: Ascii, c: Seq<char>) -> Seq<char> {
    if a.ansi {
        c
    } else {
        Seq::empty()
    }
}

/// The code that resets the style.
pub open spec fn reset_code(a: Ascii) -> Seq<char> {
    ansi_code(a, "\x1B[0m"@)
}

/// The code for a level's colour.
pub open spec fn style_code(a: Ascii, level: Level) -> Seq<char> {
    match level {
        Level::Error => ansi_code(a, "\x1B[0;31;1m"@),
        Level::Warning => ansi_code(a, "\x1B[0;33;1m"@),
        Level::Info => ansi_code(a, "\x1B[0;34;1m"@),
        Level::Note => reset_code(a),
        Level::Help => ansi_code(a, "\x1B[0;36;1m"@),
    }
}

/// The code for a level's colour, in bold.
pub open spec fn style_bold_code(a: Ascii, level: Level) -> Seq<char> {
    match level {
        Level::Error => ansi_code(a, "\x1B[1;31;1m"@),
        Level::Warning => ansi_code(a, "\x1B[1;33;1m"@),
        Level::Info => ansi_code(a, "\x1B[1;34;1m"@),
        Level::Note => reset_code(a),
        Level::Help => ansi_code(a, "\x1B[1;36;1m"@),
    }
}

/// The character of a mark.
pub open spec fn mark_char(a: Ascii, kind: MarkKind) -> char {
    if a.box_drawing {
        match kind {
            MarkKind::Start => '┌',
            MarkKind::Continue => '│',
            MarkKind::Here => '└',
        }
    } else {
        match kind {
            MarkKind::Start => '/',
            MarkKind::Continue => '|',
            MarkKind::Here => '\\',
        }
    }
}

/// The marks, each in the colour of its level.
pub open spec fn marks_text(a: Ascii, marks: Seq<Mark>) -> Seq<char>
    decreases marks.len(),
{
    if marks.len() == 0 {
        Seq::empty()
    } else {
        marks_text(a, marks.drop_last()) + style_code(a, marks.last().level) + seq![
            mark_char(a, marks.last().kind),
        ]
    }
}

/// The name of a level.
pub open spec fn level_name(level: Level) -> Seq<char> {
    match level {
        Level::Error => "error"@,
        Level::Warning => "warning"@,
        Level::Info => "info"@,
        Level::Note => "note"@,
        Level::Help => "help"@,
    }
}

/// The underline character of a level.
pub open spec fn underline_char(level: Level) -> char {
    match level {
        Level::Error => '^',
        Level::Warning => '~',
        _ => '-',
    }
}

/// `c` right-aligned in a field `width` wide, filled with `fill`.
pub open spec fn fill_left(fill: char, c: char, width: nat) -> Seq<char> {
    if width > 1 {
        repeat_char(fill, (width - 1) as nat) + seq![c]
    } else {
        seq![c]
    }
}

/// An underline with its message; `is_long` when it ends a multiline
/// annotation, drawn from the first column.
pub open spec fn annotation_line_text<'d>(
    a: Ascii,
    message: Option<crate::input::Message<'d>>,
    underline: (usize, usize),
    is_long: bool,
) -> Seq<char> {
    let (indent, len): (int, int) = if is_long {
        (0, underline.0 + underline.1 + 1)
    } else {
        (underline.0 + 1, underline.1 as int)
    };
    let level = match message {
        Some(m) => m.level,
        None => Level::Info,
    };
    repeat_char(' ', indent as nat) + style_bold_code(a, level) + (if is_long {
        if a.box_drawing {
            fill_left('─', '┘', len as nat)
        } else {
            fill_left('_', '^', len as nat)
        }
    } else {
        repeat_char(underline_char(level), len as nat)
    }) + seq![' '] + match message {
        Some(m) => m.text@,
        None => Seq::empty(),
    }
}

/// The text of a source line; `is_long` when it ends a multiline annotation.
pub open spec fn source_line_text<'d>(a: Ascii, line: SourceLine<'d>, is_long: bool) -> Seq<char> {
    match line {
        SourceLine::Content { span, subspan } => seq![' '] + chars_of(
            bytes_of(span).subrange(subspan.start as int, subspan.end as int),
        ),
        SourceLine::Annotation { message, underline } => annotation_line_text(a, message, underline, is_long),
        SourceLine::Empty => Seq::empty(),
    }
}

/// The text of a line outside the source area, with its line end.
pub open spec fn raw_line_text<'d>(a: Ascii, line: RawLine<'d>, width: usize) -> Seq<char> {
    match line {
        RawLine::Origin { path, pos } => repeat_char(' ', width as nat) + ansi_code(a, "\x1B[1;34;1m"@) + (
        if a.box_drawing {
            "═╦═"@
        } else {
            "-->"@
        }) + reset_code(a) + seq![' '] + path@ + match pos {
            Some((l, c)) => seq![':'] + decimal(l as nat) + seq![':'] + decimal(c as nat),
            None => Seq::empty(),
        } + seq!['\n'],
        RawLine::Message { message } => style_code(a, message.level) + repeat_char(' ', width as nat) + " = "@
            + level_name(message.level) + ": "@ + message.text@ + seq!['\n'],
        RawLine::Title { title } => style_bold_code(a, title.message.level) + level_name(title.message.level)
            + match title.code {
            Some(code) => seq!['['] + code@ + seq![']'],
            None => Seq::empty(),
        } + ansi_code(a, "\x1B[0;1m"@) + ": "@ + title.message.text@ + seq!['\n'],
    }
}

/// A line of a formatted snippet, with its line end.
pub open spec fn line_text<'d>(a: Ascii, line: DisplayLine<'d>, line_num_width: usize, marks_width: usize) -> Seq<
    char,
> {
    match line {
        DisplayLine::Source { lineno, inline_marks, line } => {
            let marks = inline_marks@;
            let is_long = marks.len() > 0 && marks.last().kind == MarkKind::Here;
            ansi_code(a, "\x1B[1;34;1m"@) + match lineno {
                Some(n) => pad_left(decimal(n as nat), line_num_width as nat),
                None => repeat_char(' ', line_num_width as nat),
            } + seq![' ', if a.box_drawing { '║' } else { '|' }, ' '] + reset_code(a) + repeat_char(
                ' ',
                (marks_width - marks.len()) as nat,
            ) + marks_text(a, marks) + reset_code(a) + source_line_text(a, line, is_long) + seq!['\n']
        },
        DisplayLine::Raw(raw) => raw_line_text(a, raw, line_num_width),
    }
}

/// A source line can be written: its bytes are a piece of its text.
pub open spec fn line_writable<'d>(line: DisplayLine<'d>) -> bool {
    match line {
        DisplayLine::Source { line, .. } => match line {
            SourceLine::Content { span, subspan } => subspan.start <= subspan.end <= bytes_of(span).len()
                && is_boundary(span, subspan.start as int) && is_boundary(span, subspan.end as int),
            SourceLine::Annotation { underline, .. } => underline.0 + underline.1 + 1 <= usize::MAX,
            SourceLine::Empty => true,
        },
        DisplayLine::Raw(_) => true,
    }
}

/// The greatest line number of the snippet, if any line has one.
pub open spec fn max_lineno<'d>(lines: Seq<DisplayLine<'d>>) -> Option<usize>
    decreases lines.len(),
{
    if lines.len() == 0 {
        None
    } else {
        let rest = max_lineno(lines.drop_last());
        match lines.last() {
            DisplayLine::Source { lineno: Some(n), .. } => match rest {
                Some(m) => if m >= n {
                    Some(m)
                } else {
                    Some(n)
                },
                None => Some(n),
            },
            _ => rest,
        }
    }
}

/// The greatest number of marks in front of a line.
pub open spec fn max_marks<'d>(lines: Seq<DisplayLine<'d>>) -> nat
    decreases lines.len(),
{
    if lines.len() == 0 {
        0
    } else {
        let rest = max_marks(lines.drop_last());
        match lines.last() {
            DisplayLine::Source { inline_marks, .. } => if inline_marks@.len() > rest {
                inline_marks@.len()
            } else {
                rest
            },
            _ => rest,
        }
    }
}

/// The lines, each rendered with the width of the widest line number and
/// of the most marks.
pub open spec fn lines_text<'d>(a: Ascii, lines: Seq<DisplayLine<'d>>, width: usize, marks_width: usize) -> Seq<
    char,
>
    decreases lines.len(),
{
    if lines.len() == 0 {
        Seq::empty()
    } else {
        lines_text(a, lines.drop_last(), width, marks_width) + line_text(a, lines.last(), width, marks_width)
    }
}

/// A whole formatted snippet rendered, then the style reset.
pub open spec fn snippet_text<'d>(a: Ascii, lines: Seq<DisplayLine<'d>>) -> Seq<char> {
    let n = match max_lineno(lines) {
        Some(n) => n as nat,
        None => 0,
    };
    lines_text(a, lines, digit_count(n) as usize, max_marks(lines) as usize) + reset_code(a)
}

impl Ascii {
    /// A renderer with no colours, no folding and no box drawing.
    pub fn new() -> (res: Ascii)
        ensures
            !res.ansi,
            !res.fold,
            !res.box_drawing,
    {
        Ascii { ansi: false, fold: false, box_drawing: false }
    }

    /// Writes ANSI colour codes or not.
    pub fn ansi(&mut self, b: bool) -> (res: &mut Ascii)
        ensures
            res.ansi == b,
            res.fold == old(self).fold,
            res.box_drawing == old(self).box_drawing,
            *final(self) == *final(res),
    {
        self.ansi = b;
        self
    }

    /// Draws with box-drawing characters or not.
    pub fn box_drawing(&mut self, b: bool) -> (res: &mut Ascii)
        ensures
            res.box_drawing == b,
            res.fold == old(self).fold,
            res.ansi == old(self).ansi,
            *final(self) == *final(res),
    {
        self.box_drawing = b;
        self
    }

    fn reset(self, out: &mut String)
        ensures
            final(out)@ == old(out)@ + reset_code(self),
    {
        if self.ansi {
            out.append("\x1B[0m");
        }
    }

    fn bold(self, out: &mut String)
        ensures
            final(out)@ == old(out)@ + ansi_code(self, "\x1B[0;1m"@),
    {
        if self.ansi {
            out.append("\x1B[0;1m");
        }
    }

    fn bold_bright_blue(self, out: &mut String)
        ensures
            final(out)@ == old(out)@ + ansi_code(self, "\x1B[1;34;1m"@),
    {
        if self.ansi {
            out.append("\x1B[1;34;1m");
        }
    }

    fn style_for(self, level: Level, out: &mut String)
        ensures
            final(out)@ == old(out)@ + style_code(self, level),
    {
        if self.ansi {
            match level {
                Level::Error => out.append("\x1B[0;31;1m"),
                Level::Warning => out.append("\x1B[0;33;1m"),
                Level::Info => out.append("\x1B[0;34;1m"),
                Level::Note => self.reset(out),
                Level::Help => out.append("\x1B[0;36;1m"),
            }
        }
    }

    fn style_bold_for(self, level: Level, out: &mut String)
        ensures
            final(out)@ == old(out)@ + style_bold_code(self, level),
    {
        if self.ansi {
            match level {
                Level::Error => out.append("\x1B[1;31;1m"),
                Level::Warning => out.append("\x1B[1;33;1m"),
                Level::Info => out.append("\x1B[1;34;1m"),
                Level::Note => self.reset(out),
                Level::Help => out.append("\x1B[1;36;1m"),
            }
        }
    }

    fn mark_str(self, kind: MarkKind) -> (s: &'static str)
        ensures
            s@ == seq![mark_char(self, kind)],
    {
        proof {
            reveal_strlit("┌");
            reveal_strlit("│");
            reveal_strlit("└");
            reveal_strlit("/");
            reveal_strlit("|");
            reveal_strlit("\\");
        }
        if self.box_drawing {
            match kind {
                MarkKind::Start => "┌",
                MarkKind::Continue => "│",
                MarkKind::Here => "└",
            }
        } else {
            match kind {
                MarkKind::Start => "/",
                MarkKind::Continue => "|",
                MarkKind::Here => "\\",
            }
        }
    }

    fn render_marks(self, marks: &Vec<Mark>, out: &mut String)
        ensures
            final(out)@ == old(out)@ + marks_text(self, marks@) + reset_code(self),
    {
        let ghost start = out@;
        let mut i: usize = 0;
        while i < marks.len()
            invariant
                i <= marks@.len(),
                out@ == start + marks_text(self, marks@.take(i as int)),
            decreases marks.len() - i,
        {
            let mark = marks[i];
            self.style_for(mark.level, out);
            out.append(self.mark_str(mark.kind));
            assert(marks@.take(i + 1).drop_last() =~= marks@.take(i as int));
            i += 1;
        }
        assert(marks@.take(i as int) =~= marks@);
        self.reset(out);
    }

    fn level_str(level: Level) -> (s: &'static str)
        ensures
            s@ == level_name(level),
    {
        match level {
            Level::Error => "error",
            Level::Warning => "warning",
            Level::Info => "info",
            Level::Note => "note",
            Level::Help => "help",
        }
    }

    fn push_slice(out: &mut String, span: &str, from: usize, to: usize)
        requires
            from <= to <= bytes_of(span).len(),
            is_boundary(span, from as int),
            is_boundary(span, to as int),
        ensures
            final(out)@ == old(out)@ + chars_of(bytes_of(span).subrange(from as int, to as int)),
    {
        let (_, rest) = span.split_at(from);
        proof {
            lemma_boundary_ends(rest);
            lemma_boundary_in_slice(span, rest, from as int, (to - from) as int);
        }
        let (mid, _) = rest.split_at(to - from);
        proof {
            lemma_chars_of_str(mid);
            assert(bytes_of(mid) =~= bytes_of(span).subrange(from as int, to as int));
        }
        out.append(mid);
    }

    fn push_underline(self, level: Level, is_long: bool, len: usize, out: &mut String)
        ensures
            final(out)@ == old(out)@ + (if is_long {
                if self.box_drawing {
                    fill_left('─', '┘', len as nat)
                } else {
                    fill_left('_', '^', len as nat)
                }
            } else {
                repeat_char(underline_char(level), len as nat)
            }),
    {
        proof {
            reveal_strlit("─");
            reveal_strlit("┘");
            reveal_strlit("_");
            reveal_strlit("^");
            reveal_strlit("~");
            reveal_strlit("-");
        }
        if is_long {
            let (fill, c) = if self.box_drawing {
                ("─", "┘")
            } else {
                ("_", "^")
            };
            if len > 1 {
                push_repeat(out, fill, len - 1);
            }
            out.append(c);
        } else {
            let u = match level {
                Level::Error => "^",
                Level::Warning => "~",
                _ => "-",
            };
            push_repeat(out, u, len);
        }
    }

    fn render_annotation_line(
        self,
        message: Option<crate::input::Message<'_>>,
        underline: (usize, usize),
        is_long: bool,
        out: &mut String,
    )
        requires
            underline.0 + underline.1 + 1 <= usize::MAX,
        ensures
            final(out)@ == old(out)@ + annotation_line_text(self, message, underline, is_long),
    {
        proof {
            reveal_strlit(" ");
        }
        let ghost start = out@;
        let (indent, len) = if is_long {
            (0, underline.0 + underline.1 + 1)
        } else {
            (underline.0 + 1, underline.1)
        };
        push_spaces(out, indent);
        let level = match message {
            Some(m) => m.level,
            None => Level::Info,
        };
        self.style_bold_for(level, out);
        self.push_underline(level, is_long, len, out);
        out.append(" ");
        match message {
            Some(m) => out.append(m.text),
            None => {},
        }
        assert(out@ =~= start + annotation_line_text(self, message, underline, is_long));
    }

    fn render_source_line(self, line: &SourceLine<'_>, is_long: bool, out: &mut String)
        requires
            match *line {
                SourceLine::Content { span, subspan } => subspan.start <= subspan.end <= bytes_of(span).len()
                    && is_boundary(span, subspan.start as int) && is_boundary(span, subspan.end as int),
                SourceLine::Annotation { underline, .. } => underline.0 + underline.1 + 1 <= usize::MAX,
                SourceLine::Empty => true,
            },
        ensures
            final(out)@ == old(out)@ + source_line_text(self, *line, is_long),
    {
        proof {
            reveal_strlit(" ");
        }
        let ghost start = out@;
        match line {
            SourceLine::Content { span, subspan } => {
                out.append(" ");
                Self::push_slice(out, span, subspan.start, subspan.end);
                assert(out@ =~= start + source_line_text(self, *line, is_long));
            },
            SourceLine::Annotation { message, underline } => {
                self.render_annotation_line(*message, *underline, is_long, out);
            },
            SourceLine::Empty => {
                assert(out@ =~= start + source_line_text(self, *line, is_long));
            },
        }
    }

    #[verifier::rlimit(60)]
    fn render_raw_line(self, line: &RawLine<'_>, line_num_width: usize, out: &mut String)
        ensures
            final(out)@ == old(out)@ + raw_line_text(self, *line, line_num_width),
    {
        proof {
            reveal_strlit(" ");
            reveal_strlit(":");
            reveal_strlit("\n");
            reveal_strlit("[");
            reveal_strlit("]");
        }
        match line {
            RawLine::Origin { path, pos } => {
                push_spaces(out, line_num_width);
                self.bold_bright_blue(out);
                if self.box_drawing {
                    out.append("═╦═");
                } else {
                    out.append("-->");
                }
                self.reset(out);
                out.append(" ");
                out.append(path);
                match pos {
                    Some((l, c)) => {
                        out.append(":");
                        push_decimal(out, *l);
                        out.append(":");
                        push_decimal(out, *c);
                    },
                    None => {},
                }
                out.append("\n");
            },
            RawLine::Message { message } => {
                self.style_for(message.level, out);
                push_spaces(out, line_num_width);
                out.append(" = ");
                out.append(Self::level_str(message.level));
                out.append(": ");
                out.append(message.text);
                out.append("\n");
            },
            RawLine::Title { title } => {
                self.style_bold_for(title.message.level, out);
                out.append(Self::level_str(title.message.level));
                match title.code {
                    Some(code) => {
                        out.append("[");
                        out.append(code);
                        out.append("]");
                    },
                    None => {},
                }
                self.bold(out);
                out.append(": ");
                out.append(title.message.text);
                out.append("\n");
            },
        }
    }

    fn render_gutter(self, lineno: Option<usize>, line_num_width: usize, out: &mut String)
        ensures
            final(out)@ == old(out)@ + ansi_code(self, "\x1B[1;34;1m"@) + match lineno {
                Some(n) => pad_left(decimal(n as nat), line_num_width as nat),
                None => repeat_char(' ', line_num_width as nat),
            } + seq![' ', if self.box_drawing { '║' } else { '|' }, ' '] + reset_code(self),
    {
        proof {
            reveal_strlit(" ");
            reveal_strlit("║");
            reveal_strlit("|");
        }
        let ghost start = out@;
        self.bold_bright_blue(out);
        let ghost p1 = out@;
        match lineno {
            Some(n) => push_decimal_padded(out, n, line_num_width),
            None => push_spaces(out, line_num_width),
        }
        let ghost p2 = out@;
        out.append(" ");
        if self.box_drawing {
            out.append("║");
        } else {
            out.append("|");
        }
        out.append(" ");
        let ghost p3 = out@;
        self.reset(out);
        let sep = if self.box_drawing { '║' } else { '|' };
        assert(p3 =~= p2 + seq![' ', sep, ' ']);
    }

    /// Renders one line of a formatted snippet.
    #[verifier::rlimit(60)]
    pub fn render_line(self, line: &DisplayLine<'_>, line_num_width: usize, marks_width: usize, out: &mut String)
        requires
            line_writable(*line),
            match *line {
                DisplayLine::Source { inline_marks, .. } => inline_marks@.len() <= marks_width,
                DisplayLine::Raw(_) => true,
            },
        ensures
            final(out)@ == old(out)@ + line_text(self, *line, line_num_width, marks_width),
    {
        proof {
            reveal_strlit("\n");
        }
        match line {
            DisplayLine::Source { lineno, inline_marks, line: source } => {
                let ghost start = out@;
                self.render_gutter(*lineno, line_num_width, out);
                let ghost p1 = out@;
                push_spaces(out, marks_width - inline_marks.len());
                let ghost p2 = out@;
                self.render_marks(inline_marks, out);
                let ghost p3 = out@;
                let is_long = inline_marks.len() > 0 && inline_marks[inline_marks.len() - 1].kind == MarkKind::Here;
                self.render_source_line(source, is_long, out);
                let ghost p4 = out@;
                out.append("\n");
                assert(out@ =~= start + line_text(self, *line, line_num_width, marks_width));
            },
            DisplayLine::Raw(raw) => self.render_raw_line(raw, line_num_width, out),
        }
    }

    /// Renders a formatted snippet, line numbers right-aligned to the widest
    /// and marks to the most, then resets the style.
    pub fn render(self, snippet: &FormattedSnippet<'_>, out: &mut String)
        requires
            forall|i: int| 0 <= i < snippet.lines@.len() ==> line_writable(#[trigger] snippet.lines@[i]),
        ensures
            final(out)@ == old(out)@ + snippet_text(self, snippet.lines@),
    {
        let lines = &snippet.lines;
        let ghost ls = lines@;
        let mut max_n: Option<usize> = None;
        let mut marks_width: usize = 0;
        let mut i: usize = 0;
        while i < lines.len()
            invariant
                i <= ls.len(),
                ls == lines@,
                max_n == max_lineno(ls.take(i as int)),
                marks_width == max_marks(ls.take(i as int)),
            decreases lines.len() - i,
        {
            assert(ls.take(i + 1).drop_last() =~= ls.take(i as int));
            match &lines[i] {
                DisplayLine::Source { lineno, inline_marks, .. } => {
                    match lineno {
                        Some(n) => {
                            max_n = match max_n {
                                Some(m) => if m >= *n {
                                    Some(m)
                                } else {
                                    Some(*n)
                                },
                                None => Some(*n),
                            };
                        },
                        None => {},
                    }
                    if inline_marks.len() > marks_width {
                        marks_width = inline_marks.len();
                    }
                },
                DisplayLine::Raw(_) => {},
            }
            i += 1;
        }
        assert(ls.take(i as int) =~= ls);
        let n = match max_n {
            Some(n) => n,
            None => 0,
        };
        let width = digits(n);
        let ghost start = out@;
        let mut j: usize = 0;
        while j < lines.len()
            invariant
                j <= ls.len(),
                ls == lines@,
                forall|t: int| 0 <= t < ls.len() ==> line_writable(#[trigger] ls[t]),
                marks_width == max_marks(ls),
                out@ == start + lines_text(self, ls.take(j as int), width, marks_width),
            decreases lines.len() - j,
        {
            proof {
                lemma_max_marks(ls, j as int);
            }
            self.render_line(&lines[j], width, marks_width, out);
            assert(ls.take(j + 1).drop_last() =~= ls.take(j as int));
            j += 1;
        }
        assert(ls.take(j as int) =~= ls);
        self.reset(out);
    }
}

proof fn lemma_max_marks<'d>(ls: Seq<DisplayLine<'d>>, j: int)
    requires
        0 <= j < ls.len(),
    ensures
        match ls[j] {
            DisplayLine::Source { inline_marks, .. } => inline_marks@.len() <= max_marks(ls),
            DisplayLine::Raw(_) => true,
        },
    decreases ls.len(),
{
    if j < ls.len() - 1 {
        lemma_max_marks(ls.drop_last(), j);
        assert(ls.drop_last()[j] == ls[j]);
    }
}


/// A title without an error code is, in plain mode, the level's name, `: `,
/// the message and a line end: nothing stands between the name and the
/// colon.
pub proof fn law_title_without_code<'d>(a: Ascii, title: crate::input::Title<'d>, width: usize)
    requires
        !a.ansi,
        title.code is None,
    ensures
        raw_line_text(a, RawLine::Title { title }, width) == level_name(title.message.level) + seq![':', ' ']
            + title.message.text@ + seq!['\n'],
{
    reveal_strlit(": ");
    assert(raw_line_text(a, RawLine::Title { title }, width) =~= level_name(title.message.level) + seq![':', ' ']
        + title.message.text@ + seq!['\n']);
}


/// A title line, in either mode, is the level's name in its bold style,
/// then `[CODE]` exactly when the title has a code, then the code that ends
/// the bold style (in ANSI mode), `: `, the message and a line end.
pub proof fn law_title_line_layout<'d>(a: Ascii, title: crate::input::Title<'d>, width: usize)
    ensures
        raw_line_text(a, RawLine::Title { title }, width) == style_bold_code(a, title.message.level) + level_name(
            title.message.level,
        ) + (match title.code {
            Some(c) => seq!['['] + c@ + seq![']'],
            None => Seq::<char>::empty(),
        }) + ansi_code(a, seq!['\x1B', '[', '0', ';', '1', 'm']) + seq![':', ' '] + title.message.text@ + seq!['\n'],
{
    reveal_strlit(": ");
    reveal_strlit("\x1B[0;1m");
    assert(raw_line_text(a, RawLine::Title { title }, width) =~= style_bold_code(a, title.message.level) + level_name(
        title.message.level,
    ) + (match title.code {
        Some(c) => seq!['['] + c@ + seq![']'],
        None => Seq::<char>::empty(),
    }) + ansi_code(a, seq!['\x1B', '[', '0', ';', '1', 'm']) + seq![':', ' '] + title.message.text@ + seq!['\n']);
}

} // verus!
