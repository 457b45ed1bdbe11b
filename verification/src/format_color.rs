//! The pieces of the coloured output of a `ds_struct::DisplayList`, painted
//! through `ansi_term`: bold, in a 256-colour code chosen by the annotation
//! type, with the line numbers in colour 12.
use vstd::prelude::*;
use vstd::string::StringExecFns;

use crate::cursor_line::{collect_lines, EndLine};
use crate::display_list::ds_struct::{
    DisplayAnnotationPart, DisplayAnnotationType, DisplayHeaderType, DisplayLine, DisplayList, DisplayMark,
    DisplayMarkType, DisplayTextFragment, DisplayTextStyle,
};
use crate::display_list_formatting::{
    lemma_marks_width_covers, lemma_name_text_bytes, list_widths, marks_width, name_text, number_width, opt_chars,
    styled_line_writable, styled_list_writable, type_text,
};
use crate::format::{lemma_lines_view, lines_block, piece_texts, push_lines_block, text_lines};
use crate::output::{decimal, pad_left, push_char, push_decimal, push_decimal_padded, push_spaces};
use crate::term_paint::{ansi_term_paint, paint_ansi_term, TermColour};

verus! {

/// The colour of an annotation type (the note type has none; all are bold).
pub open spec fn type_colour(t: DisplayAnnotationType) -> Option<TermColour> {
    match t {
        DisplayAnnotationType::Error => Some(TermColour::Fixed(9)),
        DisplayAnnotationType::Warning => Some(TermColour::Fixed(11)),
        DisplayAnnotationType::Info => Some(TermColour::Fixed(12)),
        DisplayAnnotationType::Note => None,
        DisplayAnnotationType::Help => Some(TermColour::Fixed(14)),
    }
}

/// A label as painted: emphasised fragments in bold.
pub open spec fn painted_label(label: Seq<DisplayTextFragment>) -> Seq<char>
    decreases label.len(),
{
    if label.len() == 0 {
        Seq::empty()
    } else {
        let f = label.last();
        painted_label(label.drop_last()) + match f.style {
            DisplayTextStyle::Regular => f.content@,
            DisplayTextStyle::Emphasis => ansi_term_paint(true, None, f.content@),
        }
    }
}

/// `n` copies of `c`.
fn repeat_char(c: char, n: usize) -> (s: String)
    ensures
        s@ == crate::output::repeat_char(c, n as nat),
{
    let mut s = String::new();
    let mut k: usize = 0;
    while k < n
        invariant
            k <= n,
            s@ == crate::output::repeat_char(c, k as nat),
        decreases n - k,
    {
        push_char(&mut s, c);
        assert(crate::output::repeat_char(c, (k + 1) as nat) =~= crate::output::repeat_char(c, k as nat).push(c));
        k += 1;
    }
    s
}

fn colour_of(annotation_type: &DisplayAnnotationType) -> (c: Option<TermColour>)
    ensures
        c == type_colour(*annotation_type),
{
    match annotation_type {
        DisplayAnnotationType::Error => Some(TermColour::Fixed(9)),
        DisplayAnnotationType::Warning => Some(TermColour::Fixed(11)),
        DisplayAnnotationType::Info => Some(TermColour::Fixed(12)),
        DisplayAnnotationType::Note => None,
        DisplayAnnotationType::Help => Some(TermColour::Fixed(14)),
    }
}

/// Painting the parts of the output.
pub struct Formatter;

impl Formatter {
    /// The parts of an underline: the painted line number column, the
    /// lead-in (painted unless it is spaces) and the painted marks.
    pub fn format_source_annotation_parts(
        annotation_type: &DisplayAnnotationType,
        indent_char: char,
        mark: char,
        range: &(usize, usize),
        lineno_width: usize,
    ) -> (res: (String, String, String))
        requires
            range.0 <= range.1,
        ensures
            res.0@ == ansi_term_paint(
                true,
                Some(TermColour::Fixed(12)),
                crate::output::repeat_char(' ', lineno_width as nat) + seq![' ', '|'],
            ),
            res.1@ == if indent_char == ' ' {
                crate::output::repeat_char(' ', range.0 as nat)
            } else {
                ansi_term_paint(true, type_colour(*annotation_type), crate::output::repeat_char(indent_char, range.0 as nat))
            },
            res.2@ == ansi_term_paint(
                true,
                type_colour(*annotation_type),
                crate::output::repeat_char(mark, (range.1 - range.0) as nat),
            ),
    {
        let color = colour_of(annotation_type);
        let mut gutter = repeat_char(' ', lineno_width);
        push_char(&mut gutter, ' ');
        push_char(&mut gutter, '|');
        let lineno = paint_ansi_term(true, Some(TermColour::Fixed(12)), gutter.as_str());
        let indent = if indent_char == ' ' {
            repeat_char(indent_char, range.0)
        } else {
            let run = repeat_char(indent_char, range.0);
            paint_ansi_term(true, color, run.as_str())
        };
        let marks = repeat_char(mark, range.1 - range.0);
        let pointer = paint_ansi_term(true, color, marks.as_str());
        (lineno, indent, pointer)
    }

    /// A line of a label, painted in the colour of its annotation.
    pub fn format_label_line(annotation_type: &DisplayAnnotationType, line: &str) -> (res: String)
        ensures
            res@ == ansi_term_paint(true, type_colour(*annotation_type), line@),
    {
        paint_ansi_term(true, colour_of(annotation_type), line)
    }

    /// A label, its emphasised fragments painted bold.
    pub fn format_label(label: &[DisplayTextFragment]) -> (res: String)
        ensures
            res@ == painted_label(label@),
    {
        let mut s = String::new();
        let mut i: usize = 0;
        while i < label.len()
            invariant
                i <= label@.len(),
                s@ == painted_label(label@.take(i as int)),
            decreases label.len() - i,
        {
            assert(label@.take(i + 1).drop_last() =~= label@.take(i as int));
            match label[i].style {
                DisplayTextStyle::Regular => s.append(label[i].content.as_str()),
                DisplayTextStyle::Emphasis => {
                    let painted = paint_ansi_term(true, None, label[i].content.as_str());
                    s.append(painted.as_str());
                },
            }
            i += 1;
        }
        assert(label@.take(i as int) =~= label@);
        s
    }
}

impl Formatter {
    /// An inline mark's sigil (`|` through, `/` start), painted in the colour
    /// of its annotation.
    pub fn format_inline_mark(inline_mark: &DisplayMark) -> (res: String)
        ensures
            res@ == ansi_term_paint(
                true,
                type_colour(inline_mark.annotation_type),
                seq![
                    match inline_mark.mark_type {
                        DisplayMarkType::AnnotationThrough => '|',
                        DisplayMarkType::AnnotationStart => '/',
                    },
                ],
            ),
    {
        proof {
            reveal_strlit("|");
            reveal_strlit("/");
        }
        let sigil: &str = match inline_mark.mark_type {
            DisplayMarkType::AnnotationThrough => "|",
            DisplayMarkType::AnnotationStart => "/",
        };
        paint_ansi_term(true, colour_of(&inline_mark.annotation_type), sigil)
    }
}


/// Paints bold in the colour of the line numbers.
pub open spec fn lineno_paint(t: Seq<char>) -> Seq<char> {
    ansi_term_paint(true, Some(TermColour::Fixed(12)), t)
}

/// The sigil of an inline mark painted in its annotation's colour.
pub open spec fn painted_sigil(m: DisplayMark) -> Seq<char> {
    ansi_term_paint(
        true,
        type_colour(m.annotation_type),
        seq![
            match m.mark_type {
                DisplayMarkType::AnnotationThrough => '|',
                DisplayMarkType::AnnotationStart => '/',
            },
        ],
    )
}

/// The painted sigils of the marks, one after another.
pub open spec fn painted_sigils(marks: Seq<DisplayMark>) -> Seq<char>
    decreases marks.len(),
{
    if marks.len() == 0 {
        Seq::empty()
    } else {
        painted_sigils(marks.drop_last()) + painted_sigil(marks.last())
    }
}

/// The marks column: spaces to fill it, then the painted sigils.
pub open spec fn colour_marks_text(marks: Seq<DisplayMark>, width: nat) -> Seq<char> {
    crate::output::repeat_char(' ', (width - marks.len()) as nat) + painted_sigils(marks)
}

/// Each line behind `prefix`, painted in a colour, each ended by a newline.
pub open spec fn colour_block(prefix: Seq<char>, colour: Option<TermColour>, ls: Seq<Seq<char>>) -> Seq<char>
    decreases ls.len(),
{
    if ls.len() == 0 {
        Seq::empty()
    } else {
        colour_block(prefix, colour, ls.drop_last()) + prefix + ansi_term_paint(true, colour, ls.last()) + seq!['\n']
    }
}

/// The character that leads an underline up to its range.
pub open spec fn indent_char_of(part: DisplayAnnotationPart) -> char {
    match part {
        DisplayAnnotationPart::Singleline => ' ',
        _ => '_',
    }
}

/// The character that marks an underlined range.
pub open spec fn mark_char_of(t: DisplayAnnotationType) -> char {
    match t {
        DisplayAnnotationType::Error => '^',
        _ => '-',
    }
}

/// The underline of a range under a source line: the painted line number
/// column, the marks, the lead-in and the painted marks, then the first
/// label line painted after a space; further label lines below, each after
/// the column, the marks and spaces up to the end of the range.
pub open spec fn colour_underline_text(
    lineno_width: nat,
    marks: Seq<char>,
    range: (usize, usize),
    label: Seq<DisplayTextFragment>,
    t: DisplayAnnotationType,
    part: DisplayAnnotationPart,
) -> Seq<char> {
    let c = type_colour(t);
    let ic = indent_char_of(part);
    let lineno = lineno_paint(crate::output::repeat_char(' ', lineno_width) + seq![' ', '|']);
    let indent = if ic == ' ' {
        crate::output::repeat_char(' ', range.0 as nat)
    } else {
        ansi_term_paint(true, c, crate::output::repeat_char(ic, range.0 as nat))
    };
    let pointer = ansi_term_paint(true, c, crate::output::repeat_char(mark_char_of(t), (range.1 - range.0) as nat));
    let ls = text_lines(painted_label(label));
    if ls.len() == 0 {
        lineno + marks + indent + pointer + seq!['\n']
    } else {
        lineno + marks + indent + pointer + seq![' '] + ansi_term_paint(true, c, ls[0]) + seq!['\n'] + colour_block(
            lineno + marks + crate::output::repeat_char(' ', range.1 as nat) + seq![' '],
            c,
            ls.skip(1),
        )
    }
}

/// A message line: the alignment painted as line numbers, the name in the
/// type's colour, `: ` and the first line of the painted label; each further
/// label line indented by the byte length of what precedes the first. A
/// label without lines writes nothing.
pub open spec fn colour_message_text(
    lineno_width: nat,
    t: DisplayAnnotationType,
    id: Option<Seq<char>>,
    aligned: bool,
    label: Seq<DisplayTextFragment>,
) -> Seq<char> {
    let lead = colour_lead(lineno_width, t, id, aligned);
    let ls = text_lines(painted_label(label));
    if ls.len() == 0 {
        Seq::empty()
    } else {
        lead.0 + ls[0] + seq!['\n'] + lines_block(crate::output::repeat_char(' ', lead.1), ls.skip(1))
    }
}

/// What precedes the first label line of a message, and its byte length:
/// the alignment painted as line numbers, the name in the type's colour,
/// and `: `.
pub open spec fn colour_lead(lineno_width: nat, t: DisplayAnnotationType, id: Option<Seq<char>>, aligned: bool) -> (
    Seq<char>,
    nat,
) {
    let name = name_text(t, id);
    let prefix = if aligned {
        crate::output::repeat_char(' ', lineno_width) + seq![' ', '=', ' ']
    } else {
        Seq::empty()
    };
    (
        lineno_paint(prefix) + ansi_term_paint(true, type_colour(t), name) + seq![':', ' '],
        vstd::utf8::encode_utf8(prefix).len() + vstd::utf8::encode_utf8(name).len() + 2,
    )
}

/// The coloured text of one line of the list, each of its output lines
/// ended by a newline.
pub open spec fn colour_line_text(dl: DisplayLine, lineno_width: nat, inline_marks_width: nat) -> Seq<char> {
    match dl {
        DisplayLine::Annotation { label, id, aligned, annotation_type } => colour_message_text(
            lineno_width,
            annotation_type,
            opt_chars(id),
            aligned,
            label@,
        ),
        DisplayLine::Origin { path, pos, header_type } => crate::output::repeat_char(' ', lineno_width) + lineno_paint(
            match header_type {
                DisplayHeaderType::Initial => seq!['-', '-', '>'],
                DisplayHeaderType::Continuation => seq![':', ':', ':'],
            },
        ) + seq![' '] + path@ + match pos {
            Some((row, col)) => seq![':'] + decimal(row as nat) + seq![':'] + decimal(col as nat),
            None => Seq::empty(),
        } + seq!['\n'],
        DisplayLine::EmptySource => lineno_paint(crate::output::repeat_char(' ', lineno_width) + seq![' ', '|']) + seq![
            '\n',
        ],
        DisplayLine::Source { lineno, inline_marks, content, .. } => lineno_paint(
            pad_left(decimal(lineno as nat), lineno_width) + seq![' ', '|'],
        ) + colour_marks_text(inline_marks@, inline_marks_width) + seq![' '] + content@ + seq!['\n'],
        DisplayLine::SourceAnnotation { inline_marks, range, label, annotation_type, annotation_part } =>
            colour_underline_text(
            lineno_width,
            colour_marks_text(inline_marks@, inline_marks_width),
            range,
            label@,
            annotation_type,
            annotation_part,
        ),
        DisplayLine::Fold { inline_marks } => seq!['.', '.', '.', ' '] + colour_marks_text(
            inline_marks@,
            inline_marks_width,
        ) + seq!['\n'],
    }
}

/// The coloured text of the lines of a list, each with the same columns.
pub open spec fn colour_lines_text(body: Seq<DisplayLine>, lw: nat, mw: nat) -> Seq<char>
    decreases body.len(),
{
    if body.len() == 0 {
        Seq::empty()
    } else {
        colour_lines_text(body.drop_last(), lw, mw) + colour_line_text(body.last(), lw, mw)
    }
}


/// Appends each line from `from` on behind `prefix`, painted, each ended by
/// a newline.
fn push_colour_block<'a>(
    out: &mut String,
    prefix: &str,
    colour: Option<TermColour>,
    lines: &Vec<(&'a str, EndLine)>,
    from: usize,
)
    requires
        from <= lines@.len(),
    ensures
        final(out)@ == old(out)@ + colour_block(prefix@, colour, piece_texts(lines@).skip(from as int)),
{
    let ghost start = out@;
    let ghost all = piece_texts(lines@);
    let mut i: usize = from;
    assert(all.subrange(from as int, from as int) =~= Seq::<Seq<char>>::empty());
    while i < lines.len()
        invariant
            from <= i <= lines@.len(),
            all == piece_texts(lines@),
            out@ == start + colour_block(prefix@, colour, all.subrange(from as int, i as int)),
        decreases lines.len() - i,
    {
        out.append(prefix);
        let painted = paint_ansi_term(true, colour, lines[i].0);
        out.append(painted.as_str());
        push_char(out, '\n');
        assert(all.subrange(from as int, i + 1).drop_last() =~= all.subrange(from as int, i as int));
        i += 1;
    }
    assert(all.subrange(from as int, i as int) =~= all.skip(from as int));
}

impl Formatter {
    /// The marks column: spaces to fill it, then the painted sigils.
    pub fn format_inline_marks(inline_marks: &[DisplayMark], inline_marks_width: usize) -> (res: String)
        requires
            inline_marks@.len() <= inline_marks_width,
        ensures
            res@ == colour_marks_text(inline_marks@, inline_marks_width as nat),
    {
        let mut s = String::new();
        push_spaces(&mut s, inline_marks_width - inline_marks.len());
        let ghost lead = s@;
        let mut i: usize = 0;
        while i < inline_marks.len()
            invariant
                i <= inline_marks@.len(),
                s@ == lead + painted_sigils(inline_marks@.take(i as int)),
            decreases inline_marks.len() - i,
        {
            assert(inline_marks@.take(i + 1).drop_last() =~= inline_marks@.take(i as int));
            let m = Self::format_inline_mark(&inline_marks[i]);
            s.append(m.as_str());
            i += 1;
        }
        assert(inline_marks@.take(i as int) =~= inline_marks@);
        s
    }

    /// Writes the underline of `range` under a source line, with the label's
    /// first line beside it and its further lines below.
    #[verifier::spinoff_prover]
    #[verifier::rlimit(100)]
    pub fn format_source_annotation_lines(
        out: &mut String,
        lineno_width: usize,
        inline_marks: String,
        range: &(usize, usize),
        label: &[DisplayTextFragment],
        annotation_type: &DisplayAnnotationType,
        annotation_part: &DisplayAnnotationPart,
    )
        requires
            range.0 <= range.1,
        ensures
            final(out)@ == old(out)@ + colour_underline_text(
                lineno_width as nat,
                inline_marks@,
                *range,
                label@,
                *annotation_type,
                *annotation_part,
            ),
    {
        let ghost start = out@;
        let indent_char = match annotation_part {
            DisplayAnnotationPart::Singleline => ' ',
            _ => '_',
        };
        let mark = match annotation_type {
            DisplayAnnotationType::Error => '^',
            _ => '-',
        };
        let (lineno, indent, pointer) = Self::format_source_annotation_parts(
            annotation_type,
            indent_char,
            mark,
            range,
            lineno_width,
        );
        let text = Self::format_label(label);
        let text_str = text.as_str();
        let lines = collect_lines(text_str);
        proof {
            lemma_lines_view(text_str, lines@);
        }
        let ghost ls = text_lines(painted_label(label@));
        assert(piece_texts(lines@) == ls);
        assert(indent_char == indent_char_of(*annotation_part));
        assert(mark == mark_char_of(*annotation_type));
        out.append(lineno.as_str());
        out.append(inline_marks.as_str());
        out.append(indent.as_str());
        out.append(pointer.as_str());
        let ghost head = out@;
        assert(head == start + lineno@ + inline_marks@ + indent@ + pointer@);
        if lines.len() > 0 {
            push_char(out, ' ');
            let first = Self::format_label_line(annotation_type, lines[0].0);
            out.append(first.as_str());
            push_char(out, '\n');
            assert(first@ == ansi_term_paint(true, type_colour(*annotation_type), ls[0]));
            let mut prefix = String::new();
            prefix.append(lineno.as_str());
            prefix.append(inline_marks.as_str());
            push_spaces(&mut prefix, range.1);
            push_char(&mut prefix, ' ');
            let ghost mid = out@;
            assert(mid == head + seq![' '] + first@ + seq!['\n']);
            assert(prefix@ =~= lineno@ + inline_marks@ + crate::output::repeat_char(' ', range.1 as nat) + seq![' ']);
            push_colour_block(out, prefix.as_str(), colour_of(annotation_type), &lines, 1);
            assert(out@ == mid + colour_block(prefix@, type_colour(*annotation_type), ls.skip(1)));
            assert(out@ =~= start + (lineno@ + inline_marks@ + indent@ + pointer@ + seq![' '] + first@ + seq!['\n']
                + colour_block(prefix@, type_colour(*annotation_type), ls.skip(1))));
        } else {
            push_char(out, '\n');
            assert(out@ =~= start + (lineno@ + inline_marks@ + indent@ + pointer@ + seq!['\n']));
        }
        assert(out@ =~= start + colour_underline_text(
            lineno_width as nat,
            inline_marks@,
            *range,
            label@,
            *annotation_type,
            *annotation_part,
        ));
    }

    /// The lead of a message line and its byte length.
    #[verifier::spinoff_prover]
    fn message_lead(
        lineno_width: usize,
        annotation_type: &DisplayAnnotationType,
        id: &Option<String>,
        aligned: bool,
    ) -> (res: (String, usize))
        requires
            match id {
                Some(i) => lineno_width + vstd::utf8::encode_utf8(i@).len() + 32 <= usize::MAX,
                None => lineno_width + 32 <= usize::MAX,
            },
        ensures
            res.0@ == colour_lead(lineno_width as nat, *annotation_type, opt_chars(*id), aligned).0,
            res.1 == colour_lead(lineno_width as nat, *annotation_type, opt_chars(*id), aligned).1,
    {
        proof {
            reveal_strlit("error");
            reveal_strlit("warning");
            reveal_strlit("info");
            reveal_strlit("note");
            reveal_strlit("help");
        }
        let mut prefix = String::new();
        if aligned {
            push_spaces(&mut prefix, lineno_width);
            push_char(&mut prefix, ' ');
            push_char(&mut prefix, '=');
            push_char(&mut prefix, ' ');
        }
        let mut name = String::new();
        match annotation_type {
            DisplayAnnotationType::Error => name.append("error"),
            DisplayAnnotationType::Warning => name.append("warning"),
            DisplayAnnotationType::Info => name.append("info"),
            DisplayAnnotationType::Note => name.append("note"),
            DisplayAnnotationType::Help => name.append("help"),
        }
        match id {
            Some(i) => {
                push_char(&mut name, '[');
                name.append(i.as_str());
                push_char(&mut name, ']');
            },
            None => {},
        }
        let ghost pfx = if aligned {
            crate::output::repeat_char(' ', lineno_width as nat) + seq![' ', '=', ' ']
        } else {
            Seq::<char>::empty()
        };
        assert(prefix@ =~= pfx);
        assert(name@ =~= name_text(*annotation_type, opt_chars(*id)));
        proof {
            assert(vstd::utf8::is_ascii_chars(pfx));
            vstd::utf8::is_ascii_chars_encode_utf8(pfx);
            lemma_name_text_bytes(*annotation_type, opt_chars(*id));
        }
        let indent = prefix.as_str().len() + name.as_str().len() + 2;
        let mut lead = paint_ansi_term(true, Some(TermColour::Fixed(12)), prefix.as_str());
        let p2 = paint_ansi_term(true, colour_of(annotation_type), name.as_str());
        lead.append(p2.as_str());
        push_char(&mut lead, ':');
        push_char(&mut lead, ' ');
        assert(lead@ =~= colour_lead(lineno_width as nat, *annotation_type, opt_chars(*id), aligned).0);
        (lead, indent)
    }

    /// Writes a message line, as `colour_message_text` describes it.
    #[verifier::spinoff_prover]
    fn write_message(
        out: &mut String,
        lineno_width: usize,
        annotation_type: &DisplayAnnotationType,
        id: &Option<String>,
        aligned: bool,
        label: &[DisplayTextFragment],
    )
        requires
            match id {
                Some(i) => lineno_width + vstd::utf8::encode_utf8(i@).len() + 32 <= usize::MAX,
                None => lineno_width + 32 <= usize::MAX,
            },
        ensures
            final(out)@ == old(out)@ + colour_message_text(lineno_width as nat, *annotation_type, opt_chars(*id), aligned, label@),
    {
        let ghost start = out@;
        let text = Self::format_label(label);
        let text_str = text.as_str();
        let lines = collect_lines(text_str);
        proof {
            lemma_lines_view(text_str, lines@);
        }
        let ghost ls = text_lines(painted_label(label@));
        assert(piece_texts(lines@) == ls);
        if lines.len() > 0 {
            let (lead, indent) = Self::message_lead(lineno_width, annotation_type, id, aligned);
            out.append(lead.as_str());
            out.append(lines[0].0);
            push_char(out, '\n');
            let ghost mid = out@;
            let mut pad = String::new();
            push_spaces(&mut pad, indent);
            push_lines_block(out, pad.as_str(), &lines, 1);
            let ghost lead_v = colour_lead(lineno_width as nat, *annotation_type, opt_chars(*id), aligned);
            assert(mid == start + lead_v.0 + ls[0] + seq!['\n']);
            assert(out@ == mid + lines_block(crate::output::repeat_char(' ', lead_v.1), ls.skip(1)));
        }
        assert(out@ =~= start + colour_message_text(lineno_width as nat, *annotation_type, opt_chars(*id), aligned, label@));
    }

    /// Writes one line of the list in colour, with columns `lineno_width`
    /// and `inline_marks_width` wide.
    pub fn format_line(out: &mut String, dl: &DisplayLine, lineno_width: usize, inline_marks_width: usize)
        requires
            styled_line_writable(*dl, lineno_width as nat, inline_marks_width as nat),
        ensures
            final(out)@ == old(out)@ + colour_line_text(*dl, lineno_width as nat, inline_marks_width as nat),
    {
        proof {
            reveal_strlit("-->");
            reveal_strlit(":::");
            reveal_strlit("... ");
        }
        let ghost start = out@;
        match dl {
            DisplayLine::Annotation { annotation_type, id, aligned, label } => {
                Self::write_message(out, lineno_width, annotation_type, id, *aligned, label.as_slice());
            },
            DisplayLine::Origin { path, pos, header_type } => {
                let sigil: &str = match header_type {
                    DisplayHeaderType::Initial => "-->",
                    DisplayHeaderType::Continuation => ":::",
                };
                push_spaces(out, lineno_width);
                let painted = paint_ansi_term(true, Some(TermColour::Fixed(12)), sigil);
                out.append(painted.as_str());
                push_char(out, ' ');
                out.append(path.as_str());
                match pos {
                    Some((row, col)) => {
                        push_char(out, ':');
                        push_decimal(out, *row);
                        push_char(out, ':');
                        push_decimal(out, *col);
                    },
                    None => {},
                }
                push_char(out, '\n');
                assert(out@ =~= start + colour_line_text(*dl, lineno_width as nat, inline_marks_width as nat));
            },
            DisplayLine::EmptySource => {
                let mut gutter = String::new();
                push_spaces(&mut gutter, lineno_width);
                push_char(&mut gutter, ' ');
                push_char(&mut gutter, '|');
                let painted = paint_ansi_term(true, Some(TermColour::Fixed(12)), gutter.as_str());
                out.append(painted.as_str());
                push_char(out, '\n');
                assert(out@ =~= start + colour_line_text(*dl, lineno_width as nat, inline_marks_width as nat));
            },
            DisplayLine::Source { lineno, inline_marks, content, .. } => {
                let mut prefix = String::new();
                push_decimal_padded(&mut prefix, *lineno, lineno_width);
                push_char(&mut prefix, ' ');
                push_char(&mut prefix, '|');
                let painted = paint_ansi_term(true, Some(TermColour::Fixed(12)), prefix.as_str());
                out.append(painted.as_str());
                let marks = Self::format_inline_marks(inline_marks.as_slice(), inline_marks_width);
                out.append(marks.as_str());
                push_char(out, ' ');
                out.append(content.as_str());
                push_char(out, '\n');
                assert(out@ =~= start + colour_line_text(*dl, lineno_width as nat, inline_marks_width as nat));
            },
            DisplayLine::SourceAnnotation { inline_marks, range, label, annotation_type, annotation_part } => {
                let marks = Self::format_inline_marks(inline_marks.as_slice(), inline_marks_width);
                Self::format_source_annotation_lines(
                    out,
                    lineno_width,
                    marks,
                    range,
                    label.as_slice(),
                    annotation_type,
                    annotation_part,
                );
            },
            DisplayLine::Fold { inline_marks } => {
                out.append("... ");
                let marks = Self::format_inline_marks(inline_marks.as_slice(), inline_marks_width);
                out.append(marks.as_str());
                push_char(out, '\n');
                assert(out@ =~= start + colour_line_text(*dl, lineno_width as nat, inline_marks_width as nat));
            },
        }
    }
}


impl DisplayList {
    /// The list as coloured text: each line written as `format_line` writes
    /// it, with the line number column as wide as the longest number and the
    /// marks column one wider than the most marks of a source line.
    pub fn format_colored(&self) -> (res: String)
        requires
            styled_list_writable(self.body@),
        ensures
            res@ == colour_lines_text(self.body@, number_width(self.body@), marks_width(self.body@)),
    {
        let body = &self.body;
        let (lineno_width, inline_marks_width) = list_widths(body);
        let mut out = String::new();
        let mut j: usize = 0;
        while j < body.len()
            invariant
                j <= body@.len(),
                styled_list_writable(body@),
                lineno_width == number_width(body@),
                inline_marks_width == marks_width(body@),
                lineno_width <= 20,
                out@ == colour_lines_text(body@.take(j as int), lineno_width as nat, inline_marks_width as nat),
            decreases body.len() - j,
        {
            assert(body@.take(j + 1).drop_last() =~= body@.take(j as int));
            assert(body@.take(j + 1).last() == body@[j as int]);
            proof {
                lemma_marks_width_covers(body@, j as int);
            }
            Formatter::format_line(&mut out, &body[j], lineno_width, inline_marks_width);
            j += 1;
        }
        assert(body@.take(j as int) =~= body@);
        out
    }
}

} // verus!
