//! Plain-text output of a `display_list::DisplayList`, one line of text per
//! line of the list (labels may spread over several).
use vstd::prelude::*;
use vstd::string::StringExecFns;

use crate::cursor_line::{collect_lines, cursor_lines, EndLine};
use crate::display_list::{
    DisplayAnnotationPart, DisplayAnnotationType, DisplayHeaderType, DisplayLine, DisplayList,
    DisplayMark, DisplayTextFragment,
};
use crate::output::{decimal, pad_left, push_decimal, push_decimal_padded, push_repeat, push_spaces, repeat_char};
use crate::text::{bytes_of, chars_of, decimal_digits, decimal_len, lemma_chars_of_str, lemma_encode_concat};

verus! {

/// The name written for an annotation type.
pub open spec fn annotation_type_name(t: DisplayAnnotationType) -> Seq<char> {
    match t {
        DisplayAnnotationType::Error => seq!['e', 'r', 'r', 'o', 'r'],
        DisplayAnnotationType::Warning => seq!['w', 'a', 'r', 'n', 'i', 'n', 'g'],
        DisplayAnnotationType::Info => seq!['i', 'n', 'f', 'o'],
        DisplayAnnotationType::Note => seq!['n', 'o', 't', 'e'],
        DisplayAnnotationType::Help => seq!['h', 'e', 'l', 'p'],
    }
}

/// The sigil of an inline mark.
pub open spec fn mark_sigil(m: DisplayMark) -> char {
    match m {
        DisplayMark::AnnotationThrough => '|',
        DisplayMark::AnnotationStart => '/',
    }
}

/// The inline marks, right-aligned in a column `width` characters wide.
pub open spec fn inline_marks_text(marks: Seq<DisplayMark>, width: nat) -> Seq<char> {
    pad_left(Seq::new(marks.len(), |i: int| mark_sigil(marks[i])), width)
}

/// The text of a label: its fragments one after another.
pub open spec fn label_text(label: Seq<DisplayTextFragment>) -> Seq<char>
    decreases label.len(),
{
    if label.len() == 0 {
        Seq::empty()
    } else {
        label_text(label.drop_last()) + label.last().content@
    }
}

/// The lines of a text, as `str::lines` splits it.
pub open spec fn text_lines(t: Seq<char>) -> Seq<Seq<char>> {
    cursor_lines(vstd::utf8::encode_utf8(t)).map_values(|p: (Seq<u8>, EndLine)| chars_of(p.0))
}

/// Each line behind `prefix`, each ended by a newline.
pub open spec fn lines_block(prefix: Seq<char>, ls: Seq<Seq<char>>) -> Seq<char>
    decreases ls.len(),
{
    if ls.len() == 0 {
        Seq::empty()
    } else {
        lines_block(prefix, ls.drop_last()) + prefix + ls.last() + seq!['\n']
    }
}

/// The line number column left blank, and its delimiter.
pub open spec fn gutter(lineno_width: nat) -> Seq<char> {
    repeat_char(' ', lineno_width) + seq![' ', '|']
}

/// The character that leads up to the underline.
pub open spec fn indent_char(part: DisplayAnnotationPart) -> char {
    match part {
        DisplayAnnotationPart::Singleline => ' ',
        _ => '_',
    }
}

/// The character that underlines the annotated part.
pub open spec fn underline_char(t: DisplayAnnotationType) -> char {
    match t {
        DisplayAnnotationType::Error => '^',
        _ => '-',
    }
}

/// The lines drawn under a source line: the underline of `range` with the
/// first label line beside it, and each further label line below it,
/// indented to the end of the underline.
pub open spec fn source_annotation_text(
    lineno_width: nat,
    marks: Seq<char>,
    range: (usize, usize),
    label: Seq<DisplayTextFragment>,
    t: DisplayAnnotationType,
    part: DisplayAnnotationPart,
) -> Seq<char> {
    let ls = text_lines(label_text(label));
    let head = gutter(lineno_width) + marks + repeat_char(indent_char(part), range.0 as nat)
        + repeat_char(underline_char(t), (range.1 - range.0) as nat);
    if ls.len() == 0 {
        head + seq!['\n']
    } else {
        head + seq![' '] + ls[0] + seq!['\n'] + lines_block(
            gutter(lineno_width) + marks + repeat_char(' ', range.1 as nat) + seq![' '],
            ls.skip(1),
        )
    }
}

/// The view of an optional owned text.
pub open spec fn opt_text(id: Option<String>) -> Option<Seq<char>> {
    match id {
        Some(s) => Some(s@),
        None => None,
    }
}

/// The annotation's name: its type, and its id in brackets.
pub open spec fn annotation_name(t: DisplayAnnotationType, id: Option<Seq<char>>) -> Seq<char> {
    match id {
        Some(i) => annotation_type_name(t) + seq!['['] + i + seq![']'],
        None => annotation_type_name(t),
    }
}

/// What a message line puts before its label: the alignment, the name and
/// its colon; and the byte length of the alignment and the name, plus two.
pub open spec fn annotation_lead(lineno_width: nat, t: DisplayAnnotationType, id: Option<Seq<char>>, aligned: bool) -> (
    Seq<char>,
    nat,
) {
    let name = annotation_name(t, id);
    let prefix = if aligned {
        repeat_char(' ', lineno_width) + seq![' ', '=', ' ']
    } else {
        Seq::empty()
    };
    (
        prefix + name + seq![':', ' '],
        vstd::utf8::encode_utf8(prefix).len() + vstd::utf8::encode_utf8(name).len() + 2,
    )
}

/// A message line: `name: ` and the first label line, aligned to the line
/// number delimiter when `aligned`; each further label line indented by the
/// byte length of what precedes the first. A label without lines writes
/// nothing.
pub open spec fn annotation_text(
    lineno_width: nat,
    t: DisplayAnnotationType,
    id: Option<Seq<char>>,
    aligned: bool,
    label: Seq<DisplayTextFragment>,
) -> Seq<char> {
    let ls = text_lines(label_text(label));
    let lead = annotation_lead(lineno_width, t, id, aligned);
    if ls.len() == 0 {
        Seq::empty()
    } else {
        lead.0 + ls[0] + seq!['\n'] + lines_block(repeat_char(' ', lead.1), ls.skip(1))
    }
}

/// The sigil of an origin line.
pub open spec fn header_sigil(h: DisplayHeaderType) -> Seq<char> {
    match h {
        DisplayHeaderType::Initial => seq!['-', '-', '>'],
        DisplayHeaderType::Continuation => seq![':', ':', ':'],
    }
}

/// The text of one line of the list.
pub open spec fn line_text(dl: DisplayLine, lineno_width: nat, inline_marks_width: nat) -> Seq<char> {
    match dl {
        DisplayLine::Annotation { label, id, aligned, annotation_type } => annotation_text(
            lineno_width,
            annotation_type,
            opt_text(id),
            aligned,
            label@,
        ),
        DisplayLine::Origin { path, pos, header_type } => repeat_char(' ', lineno_width) + header_sigil(
            header_type,
        ) + seq![' '] + path@ + match pos {
            Some((row, col)) => seq![':'] + decimal(row as nat) + seq![':'] + decimal(col as nat),
            None => Seq::empty(),
        } + seq!['\n'],
        DisplayLine::EmptySource => gutter(lineno_width) + seq!['\n'],
        DisplayLine::Source { lineno, inline_marks, content, .. } => pad_left(
            decimal(lineno as nat),
            lineno_width,
        ) + seq![' ', '|'] + inline_marks_text(inline_marks@, inline_marks_width) + seq![' '] + content@
            + seq!['\n'],
        DisplayLine::SourceAnnotation { inline_marks, range, label, annotation_type, annotation_part } =>
            source_annotation_text(
            lineno_width,
            inline_marks_text(inline_marks@, inline_marks_width),
            range,
            label@,
            annotation_type,
            annotation_part,
        ),
        DisplayLine::Fold { inline_marks } => seq!['.', '.', '.', ' '] + inline_marks_text(
            inline_marks@,
            inline_marks_width,
        ) + seq!['\n'],
    }
}

/// What a line needs to be written without overflow or an underline that
/// ends before it starts.
pub open spec fn line_writable(dl: DisplayLine, lineno_width: nat) -> bool {
    match dl {
        DisplayLine::Annotation { id, .. } => match id {
            Some(i) => lineno_width + vstd::utf8::encode_utf8(i@).len() + 32 <= usize::MAX,
            None => lineno_width + 32 <= usize::MAX,
        },
        DisplayLine::SourceAnnotation { range, .. } => range.0 <= range.1,
        _ => true,
    }
}

/// Writing the output of a `DisplayList`.
pub struct Formatter;

impl Formatter {
    /// The name of an annotation type.
    pub fn format_annotation_type(annotation_type: &DisplayAnnotationType) -> (res: String)
        ensures
            res@ == annotation_type_name(*annotation_type),
    {
        proof {
            reveal_strlit("error");
            reveal_strlit("warning");
            reveal_strlit("info");
            reveal_strlit("note");
            reveal_strlit("help");
        }
        match annotation_type {
            DisplayAnnotationType::Error => "error".to_owned(),
            DisplayAnnotationType::Warning => "warning".to_owned(),
            DisplayAnnotationType::Info => "info".to_owned(),
            DisplayAnnotationType::Note => "note".to_owned(),
            DisplayAnnotationType::Help => "help".to_owned(),
        }
    }

    /// The inline marks' sigils, right-aligned to `inline_marks_width`.
    pub fn format_inline_marks(inline_marks: &[DisplayMark], inline_marks_width: usize) -> (res: String)
        ensures
            res@ == inline_marks_text(inline_marks@, inline_marks_width as nat),
    {
        let mut s = String::new();
        if inline_marks.len() < inline_marks_width {
            push_spaces(&mut s, inline_marks_width - inline_marks.len());
        }
        let ghost start = s@;
        let ghost sig = Seq::new(inline_marks@.len(), |i: int| mark_sigil(inline_marks@[i]));
        proof {
            reveal_strlit("|");
            reveal_strlit("/");
        }
        let mut i: usize = 0;
        while i < inline_marks.len()
            invariant
                i <= inline_marks@.len(),
                sig == Seq::new(inline_marks@.len(), |k: int| mark_sigil(inline_marks@[k])),
                s@ == start + sig.take(i as int),
            decreases inline_marks.len() - i,
        {
            proof {
                reveal_strlit("|");
                reveal_strlit("/");
            }
            let sg: &str = match inline_marks[i] {
                DisplayMark::AnnotationThrough => "|",
                DisplayMark::AnnotationStart => "/",
            };
            assert(sg@ =~= seq![sig[i as int]]);
            s.append(sg);
            assert(sig.take(i + 1) =~= sig.take(i as int).push(sig[i as int]));
            i += 1;
        }
        assert(sig.take(i as int) =~= sig);
        assert(s@ =~= inline_marks_text(inline_marks@, inline_marks_width as nat));
        s
    }

    /// The text of a label, its fragments joined.
    pub fn format_label(label: &[DisplayTextFragment]) -> (res: String)
        ensures
            res@ == label_text(label@),
    {
        let mut s = String::new();
        let mut i: usize = 0;
        while i < label.len()
            invariant
                i <= label@.len(),
                s@ == label_text(label@.take(i as int)),
            decreases label.len() - i,
        {
            assert(label@.take(i + 1).drop_last() =~= label@.take(i as int));
            s.append(label[i].content.as_str());
            i += 1;
        }
        assert(label@.take(i as int) =~= label@);
        s
    }
}

/// The text of each line that `collect_lines` gave for `s`.
pub open spec fn piece_texts<'a>(lines: Seq<(&'a str, EndLine)>) -> Seq<Seq<char>> {
    lines.map_values(|p: (&'a str, EndLine)| p.0@)
}

pub proof fn lemma_lines_view<'a>(s: &str, lines: Seq<(&'a str, EndLine)>)
    requires
        lines.len() == cursor_lines(bytes_of(s)).len(),
        forall|i: int|
            0 <= i < lines.len() ==> bytes_of(#[trigger] lines[i].0) == cursor_lines(bytes_of(s))[i].0,
    ensures
        piece_texts(lines) == text_lines(s@),
{
    assert forall|i: int| 0 <= i < lines.len() implies #[trigger] piece_texts(lines)[i] == text_lines(s@)[i] by {
        lemma_chars_of_str(lines[i].0);
    }
    assert(piece_texts(lines) =~= text_lines(s@));
}

/// Appends each line from `from` on behind `prefix`, each ended by a newline.
pub(crate) fn push_lines_block<'a>(out: &mut String, prefix: &str, lines: &Vec<(&'a str, EndLine)>, from: usize)
    requires
        from <= lines@.len(),
    ensures
        final(out)@ == old(out)@ + lines_block(prefix@, piece_texts(lines@).skip(from as int)),
{
    let ghost start = out@;
    let ghost all = piece_texts(lines@);
    let mut i: usize = from;
    proof {
        assert(all.subrange(from as int, from as int) =~= Seq::<Seq<char>>::empty());
    }
    while i < lines.len()
        invariant
            from <= i <= lines@.len(),
            all == piece_texts(lines@),
            out@ == start + lines_block(prefix@, all.subrange(from as int, i as int)),
        decreases lines.len() - i,
    {
        proof {
            reveal_strlit("\n");
        }
        out.append(prefix);
        out.append(lines[i].0);
        out.append("\n");
        assert(all.subrange(from as int, i + 1).drop_last() =~= all.subrange(from as int, i as int));
        i += 1;
    }
    assert(all.subrange(from as int, i as int) =~= all.skip(from as int));
}

impl Formatter {
    /// Writes the underline of `range` under a source line, with the label's
    /// first line beside it and its further lines below.
    #[verifier::spinoff_prover]
    #[verifier::rlimit(40)]
    pub fn format_source_annotation_lines(
        out: &mut String,
        lineno_width: usize,
        inline_marks: String,
        range: &(usize, usize),
        label: &[DisplayTextFragment],
        annotation_type: &DisplayAnnotationType,
        annotation_part: &DisplayAnnotationPart,
    )
        requires
            range.0 <= range.1,
        ensures
            final(out)@ == old(out)@ + source_annotation_text(
                lineno_width as nat,
                inline_marks@,
                *range,
                label@,
                *annotation_type,
                *annotation_part,
            ),
    {
        proof {
            reveal_strlit(" ");
            reveal_strlit("_");
            reveal_strlit("^");
            reveal_strlit("-");
            reveal_strlit(" |");
            reveal_strlit("\n");
        }
        let indent: &str = match annotation_part {
            DisplayAnnotationPart::Singleline => " ",
            _ => "_",
        };
        let mark: &str = match annotation_type {
            DisplayAnnotationType::Error => "^",
            _ => "-",
        };
        let text = Self::format_label(label);
        let text_str = text.as_str();
        let lines = collect_lines(text_str);
        proof {
            lemma_lines_view(text_str, lines@);
        }
        let ghost ls = text_lines(label_text(label@));
        assert(piece_texts(lines@) == ls);
        let ghost start = out@;
        push_spaces(out, lineno_width);
        out.append(" |");
        out.append(inline_marks.as_str());
        push_repeat(out, indent, range.0);
        push_repeat(out, mark, range.1 - range.0);
        let ghost head = out@;
        assert(head == start + (gutter(lineno_width as nat) + inline_marks@ + repeat_char(
            indent_char(*annotation_part),
            range.0 as nat,
        ) + repeat_char(underline_char(*annotation_type), (range.1 - range.0) as nat)));
        if lines.len() > 0 {
            out.append(" ");
            out.append(lines[0].0);
            out.append("\n");
            let mut prefix = String::new();
            push_spaces(&mut prefix, lineno_width);
            prefix.append(" |");
            prefix.append(inline_marks.as_str());
            push_spaces(&mut prefix, range.1);
            prefix.append(" ");
            assert(prefix@ =~= gutter(lineno_width as nat) + inline_marks@ + repeat_char(' ', range.1 as nat)
                + seq![' ']);
            let ghost mid = out@;
            assert(mid =~= head + seq![' '] + ls[0] + seq!['\n']);
            push_lines_block(out, prefix.as_str(), &lines, 1);
            assert(out@ =~= start + source_annotation_text(
                lineno_width as nat,
                inline_marks@,
                *range,
                label@,
                *annotation_type,
                *annotation_part,
            ));
        } else {
            out.append("\n");
            assert(out@ =~= start + source_annotation_text(
                lineno_width as nat,
                inline_marks@,
                *range,
                label@,
                *annotation_type,
                *annotation_part,
            ));
        }
    }
}

/// The byte length of an annotation's name.
proof fn lemma_name_bytes(t: DisplayAnnotationType, id: Option<Seq<char>>)
    ensures
        vstd::utf8::encode_utf8(annotation_name(t, id)).len() == annotation_type_name(t).len() + match id {
            Some(i) => vstd::utf8::encode_utf8(i).len() + 2,
            None => 0,
        },
{
    let n = annotation_type_name(t);
    assert(vstd::utf8::is_ascii_chars(n));
    vstd::utf8::is_ascii_chars_encode_utf8(n);
    match id {
        Some(i) => {
            let open = seq!['['];
            let close = seq![']'];
            assert(vstd::utf8::is_ascii_chars(open));
            assert(vstd::utf8::is_ascii_chars(close));
            vstd::utf8::is_ascii_chars_encode_utf8(open);
            vstd::utf8::is_ascii_chars_encode_utf8(close);
            lemma_encode_concat(n, open);
            lemma_encode_concat(n + open, i);
            lemma_encode_concat(n + open + i, close);
        },
        None => {},
    }
}

fn write_annotation_lead(
    lineno_width: usize,
    annotation_type: &DisplayAnnotationType,
    id: &Option<String>,
    aligned: bool,
) -> (res: (String, usize))
    requires
        match id {
            Some(i) => lineno_width + vstd::utf8::encode_utf8(i@).len() + 32 <= usize::MAX,
            None => lineno_width + 32 <= usize::MAX,
        },
    ensures
        res.0@ == annotation_lead(lineno_width as nat, *annotation_type, opt_text(*id), aligned).0,
        res.1 == annotation_lead(lineno_width as nat, *annotation_type, opt_text(*id), aligned).1,
{
    proof {
        reveal_strlit(" = ");
        reveal_strlit("[");
        reveal_strlit("]");
        reveal_strlit(": ");
    }
    let mut prefix = String::new();
    if aligned {
        push_spaces(&mut prefix, lineno_width);
        prefix.append(" = ");
    }
    let mut name = Formatter::format_annotation_type(annotation_type);
    match id {
        Some(i) => {
            name.append("[");
            name.append(i.as_str());
            name.append("]");
        },
        None => {},
    }
    let ghost pfx = if aligned {
        repeat_char(' ', lineno_width as nat) + seq![' ', '=', ' ']
    } else {
        Seq::<char>::empty()
    };
    assert(prefix@ =~= pfx);
    assert(name@ =~= annotation_name(*annotation_type, opt_text(*id)));
    proof {
        assert(vstd::utf8::is_ascii_chars(pfx));
        vstd::utf8::is_ascii_chars_encode_utf8(pfx);
        lemma_name_bytes(*annotation_type, opt_text(*id));
    }
    let indent = prefix.as_str().len() + name.as_str().len() + 2;
    let mut lead = prefix;
    lead.append(name.as_str());
    lead.append(": ");
    (lead, indent)
}

/// Writes a message line and its continuation lines.
fn write_annotation_line(
    out: &mut String,
    lineno_width: usize,
    annotation_type: &DisplayAnnotationType,
    id: &Option<String>,
    aligned: bool,
    label: &[DisplayTextFragment],
)
    requires
        match id {
            Some(i) => lineno_width + vstd::utf8::encode_utf8(i@).len() + 32 <= usize::MAX,
            None => lineno_width + 32 <= usize::MAX,
        },
    ensures
        final(out)@ == old(out)@ + annotation_text(lineno_width as nat, *annotation_type, opt_text(*id), aligned, label@),
{
    proof {
        reveal_strlit("\n");
    }
    let text = Formatter::format_label(label);
    let text_str = text.as_str();
    let lines = collect_lines(text_str);
    proof {
        lemma_lines_view(text_str, lines@);
    }
    let ghost ls = text_lines(label_text(label@));
    assert(piece_texts(lines@) == ls);
    let ghost start = out@;
    if lines.len() > 0 {
        let (lead, indent) = write_annotation_lead(lineno_width, annotation_type, id, aligned);
        out.append(lead.as_str());
        out.append(lines[0].0);
        out.append("\n");
        let mut pad = String::new();
        push_spaces(&mut pad, indent);
        let ghost mid = out@;
        push_lines_block(out, pad.as_str(), &lines, 1);
        let ghost lead_v = annotation_lead(lineno_width as nat, *annotation_type, opt_text(*id), aligned);
        assert(mid == start + lead_v.0 + ls[0] + seq!['\n']);
        assert(out@ == mid + lines_block(repeat_char(' ', lead_v.1), ls.skip(1)));
        assert(out@ =~= start + annotation_text(lineno_width as nat, *annotation_type, opt_text(*id), aligned, label@));
    }
}

/// The width of the line number column: the most digits of a source line's
/// number.
pub open spec fn lineno_width_of(body: Seq<DisplayLine>) -> nat
    decreases body.len(),
{
    if body.len() == 0 {
        0
    } else {
        let m = lineno_width_of(body.drop_last());
        match body.last() {
            DisplayLine::Source { lineno, .. } => if decimal(lineno as nat).len() > m {
                decimal(lineno as nat).len()
            } else {
                m
            },
            _ => m,
        }
    }
}

/// The width of the inline marks column: each source line with more marks
/// than the lines before it widens it to one more than its number of marks.
pub open spec fn inline_marks_width_of(body: Seq<DisplayLine>) -> nat
    decreases body.len(),
{
    if body.len() == 0 {
        0
    } else {
        let m = inline_marks_width_of(body.drop_last());
        match body.last() {
            DisplayLine::Source { inline_marks, .. } => if inline_marks@.len() > m {
                inline_marks@.len() + 1
            } else {
                m
            },
            _ => m,
        }
    }
}

/// The text of lines `..n` of the list.
pub open spec fn lines_text(body: Seq<DisplayLine>, lineno_width: nat, inline_marks_width: nat) -> Seq<char>
    decreases body.len(),
{
    if body.len() == 0 {
        Seq::empty()
    } else {
        lines_text(body.drop_last(), lineno_width, inline_marks_width) + line_text(
            body.last(),
            lineno_width,
            inline_marks_width,
        )
    }
}

/// The text of a whole list: each line in turn, with the columns as wide as
/// the list needs.
pub open spec fn list_text(body: Seq<DisplayLine>) -> Seq<char> {
    lines_text(body, lineno_width_of(body), inline_marks_width_of(body))
}

/// What each line needs so that the list can be written: ids short enough
/// to add up their indent, underlines that do not end before they start,
/// and fewer marks than the largest length.
pub open spec fn list_writable(body: Seq<DisplayLine>) -> bool {
    forall|i: int|
        0 <= i < body.len() ==> match #[trigger] body[i] {
            DisplayLine::Annotation { id, .. } => match id {
                Some(t) => vstd::utf8::encode_utf8(t@).len() + 64 <= usize::MAX,
                None => true,
            },
            DisplayLine::SourceAnnotation { range, .. } => range.0 <= range.1,
            DisplayLine::Source { inline_marks, .. } => inline_marks@.len() < usize::MAX,
            _ => true,
        }
}

proof fn lemma_decimal_len(n: nat)
    ensures
        decimal(n).len() == decimal_len(n),
    decreases n,
{
    if n >= 10 {
        lemma_decimal_len(n / 10);
    }
}

impl Formatter {
    /// Writes one line of the list, with columns `lineno_width` and
    /// `inline_marks_width` wide.
    pub fn format_line(out: &mut String, dl: &DisplayLine, lineno_width: usize, inline_marks_width: usize)
        requires
            line_writable(*dl, lineno_width as nat),
        ensures
            final(out)@ == old(out)@ + line_text(*dl, lineno_width as nat, inline_marks_width as nat),
    {
        proof {
            reveal_strlit("-->");
            reveal_strlit(":::");
            reveal_strlit(" ");
            reveal_strlit(":");
            reveal_strlit("\n");
            reveal_strlit(" |");
            reveal_strlit(" |\n");
            reveal_strlit("... ");
        }
        let ghost start = out@;
        match dl {
            DisplayLine::Annotation { annotation_type, id, aligned, label } => {
                write_annotation_line(out, lineno_width, annotation_type, id, *aligned, label.as_slice());
            },
            DisplayLine::Origin { path, pos, header_type } => {
                let header_sigil: &str = match header_type {
                    DisplayHeaderType::Initial => "-->",
                    DisplayHeaderType::Continuation => ":::",
                };
                push_spaces(out, lineno_width);
                out.append(header_sigil);
                out.append(" ");
                out.append(path.as_str());
                match pos {
                    Some((row, col)) => {
                        out.append(":");
                        push_decimal(out, *row);
                        out.append(":");
                        push_decimal(out, *col);
                    },
                    None => {},
                }
                out.append("\n");
                assert(out@ =~= start + line_text(*dl, lineno_width as nat, inline_marks_width as nat));
            },
            DisplayLine::EmptySource => {
                push_spaces(out, lineno_width);
                out.append(" |\n");
                assert(out@ =~= start + line_text(*dl, lineno_width as nat, inline_marks_width as nat));
            },
            DisplayLine::Source { lineno, inline_marks, content, .. } => {
                push_decimal_padded(out, *lineno, lineno_width);
                out.append(" |");
                let marks = Self::format_inline_marks(inline_marks.as_slice(), inline_marks_width);
                out.append(marks.as_str());
                out.append(" ");
                out.append(content.as_str());
                out.append("\n");
                assert(out@ =~= start + line_text(*dl, lineno_width as nat, inline_marks_width as nat));
            },
            DisplayLine::SourceAnnotation { inline_marks, range, label, annotation_type, annotation_part } => {
                let marks = Self::format_inline_marks(inline_marks.as_slice(), inline_marks_width);
                Self::format_source_annotation_lines(
                    out,
                    lineno_width,
                    marks,
                    range,
                    label.as_slice(),
                    annotation_type,
                    annotation_part,
                );
            },
            DisplayLine::Fold { inline_marks } => {
                out.append("... ");
                let marks = Self::format_inline_marks(inline_marks.as_slice(), inline_marks_width);
                out.append(marks.as_str());
                out.append("\n");
                assert(out@ =~= start + line_text(*dl, lineno_width as nat, inline_marks_width as nat));
            },
        }
    }
}

impl DisplayList {
    /// The whole list as text, with the line number column as wide as the
    /// largest line number.
    pub fn format(&self) -> (res: String)
        requires
            list_writable(self.body@),
        ensures
            res@ == list_text(self.body@),
    {
        let body = &self.body;
        let mut lineno_width: usize = 0;
        let mut inline_marks_width: usize = 0;
        let mut i: usize = 0;
        while i < body.len()
            invariant
                i <= body@.len(),
                list_writable(body@),
                lineno_width == lineno_width_of(body@.take(i as int)),
                inline_marks_width == inline_marks_width_of(body@.take(i as int)),
                lineno_width <= 20,
            decreases body.len() - i,
        {
            assert(body@.take(i + 1).drop_last() =~= body@.take(i as int));
            assert(body@.take(i + 1).last() == body@[i as int]);
            match &body[i] {
                DisplayLine::Source { lineno, inline_marks, .. } => {
                    let width = decimal_digits(*lineno);
                    proof {
                        lemma_decimal_len(*lineno as nat);
                    }
                    if width > lineno_width {
                        lineno_width = width;
                    }
                    let marks = inline_marks.len();
                    if marks > inline_marks_width {
                        inline_marks_width = marks + 1;
                    }
                },
                _ => {},
            }
            i += 1;
        }
        assert(body@.take(i as int) =~= body@);
        let mut out = String::new();
        let mut j: usize = 0;
        while j < body.len()
            invariant
                j <= body@.len(),
                list_writable(body@),
                lineno_width == lineno_width_of(body@),
                inline_marks_width == inline_marks_width_of(body@),
                lineno_width <= 20,
                out@ == lines_text(body@.take(j as int), lineno_width as nat, inline_marks_width as nat),
            decreases body.len() - j,
        {
            assert(body@.take(j + 1).drop_last() =~= body@.take(j as int));
            assert(body@.take(j + 1).last() == body@[j as int]);
            Self::format_line_of(&mut out, &body[j], lineno_width, inline_marks_width);
            j += 1;
        }
        assert(body@.take(j as int) =~= body@);
        out
    }

    fn format_line_of(out: &mut String, dl: &DisplayLine, lineno_width: usize, inline_marks_width: usize)
        requires
            lineno_width <= 20,
            match *dl {
                DisplayLine::Annotation { id, .. } => match id {
                    Some(t) => vstd::utf8::encode_utf8(t@).len() + 64 <= usize::MAX,
                    None => true,
                },
                DisplayLine::SourceAnnotation { range, .. } => range.0 <= range.1,
                _ => true,
            },
        ensures
            final(out)@ == old(out)@ + line_text(*dl, lineno_width as nat, inline_marks_width as nat),
    {
        Formatter::format_line(out, dl, lineno_width, inline_marks_width);
    }
}

} // verus!
