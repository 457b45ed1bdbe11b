//! Writing the parts of a `DisplayList` as styled text: repeated
//! characters, annotation names and labels, lines outside the source, inline
//! marks, and the underlines under source lines.
use vstd::prelude::*;
use vstd::string::StringExecFns;

use crate::output::{decimal, push_char, push_decimal, repeat_char};
use crate::renderer::display_list::{
    annotation_type_len, annotation_type_str, annotation_type_text, is_annotation_empty, label_is_empty, Annotation,
    DisplayAnnotationPart, DisplayAnnotationType, DisplayHeaderType, DisplayMark, DisplayMarkType, DisplayRawLine,
    DisplaySet, DisplaySourceAnnotation, DisplayTextFragment, DisplayTextStyle,
};
use crate::renderer::stylesheet::{StyleCodes, Stylesheet};
use crate::text::bytes_of;

verus! {

/// The style an annotation type is shown in.
pub open spec fn annotation_style(t: DisplayAnnotationType, ss: &Stylesheet) -> &StyleCodes {
    match t {
        DisplayAnnotationType::Error => &ss.error,
        DisplayAnnotationType::Warning => &ss.warning,
        DisplayAnnotationType::Info => &ss.info,
        DisplayAnnotationType::Note => &ss.note,
        DisplayAnnotationType::Help => &ss.help,
        DisplayAnnotationType::Untyped => &ss.none,
    }
}

/// `text` between the codes of `style`.
pub open spec fn styled(style: &StyleCodes, text: Seq<char>) -> Seq<char> {
    style.on@ + text + style.off@
}

/// A label as written: regular fragments as they are, emphasised ones in the
/// emphasis style.
pub open spec fn label_out(label: Seq<DisplayTextFragment>, ss: &Stylesheet) -> Seq<char>
    decreases label.len(),
{
    if label.len() == 0 {
        Seq::empty()
    } else {
        let f = label.last();
        label_out(label.drop_last(), ss) + match f.style {
            DisplayTextStyle::Regular => f.content@,
            DisplayTextStyle::Emphasis => styled(&ss.emphasis, f.content@),
        }
    }
}

/// The byte length of an annotation's name and id, as `type[id]`.
pub open spec fn formatted_len(a: &Annotation) -> nat {
    match a.id {
        Some(id) => 2 + bytes_of(id).len() + annotation_type_text(a.annotation_type).len(),
        None => annotation_type_text(a.annotation_type).len(),
    }
}

/// The name of an annotation: its type and, in brackets, its id.
pub open spec fn annotation_name_text(a: &Annotation) -> Seq<char> {
    annotation_type_text(a.annotation_type) + match a.id {
        Some(id) => seq!['['] + id@ + seq![']'],
        None => Seq::empty(),
    }
}

/// What follows an annotation's name: `: ` and the label (in `color` when
/// `in_source`), or nothing for an empty label.
pub open spec fn annotation_tail(a: &Annotation, in_source: bool, color: &StyleCodes, ss: &Stylesheet) -> Seq<char> {
    if label_is_empty(a.label@) {
        Seq::empty()
    } else if in_source {
        styled(color, seq![':', ' '] + label_out(a.label@, ss))
    } else {
        seq![':', ' '] + label_out(a.label@, ss)
    }
}

/// An annotation as written: `type[id]: label`, the name in the
/// annotation's style (the label too when `in_source`); only the label when
/// there is no name; and, for a continuation, the label indented past where
/// the name would be.
pub open spec fn annotation_out(a: &Annotation, continuation: bool, in_source: bool, ss: &Stylesheet) -> Seq<char> {
    let color = annotation_style(a.annotation_type, ss);
    if continuation {
        repeat_char(' ', formatted_len(a) + 2) + label_out(a.label@, ss)
    } else if formatted_len(a) == 0 {
        label_out(a.label@, ss)
    } else {
        styled(color, annotation_name_text(a)) + annotation_tail(a, in_source, color, ss)
    }
}

/// The sigil of an origin line.
pub open spec fn origin_sigil(h: DisplayHeaderType) -> Seq<char> {
    match h {
        DisplayHeaderType::Initial => seq!['-', '-', '>'],
        DisplayHeaderType::Continuation => seq![':', ':', ':'],
    }
}

/// A line outside the source as written: an origin with its sigil in the
/// line number style, or an annotation, aligned to the line number
/// delimiter when `source_aligned`.
pub open spec fn raw_line_out(line: &DisplayRawLine, lineno_width: nat, ss: &Stylesheet) -> Seq<char> {
    match *line {
        DisplayRawLine::Origin { path, pos, header_type } => repeat_char(' ', lineno_width) + styled(
            &ss.line_no,
            origin_sigil(header_type),
        ) + seq![' '] + path@ + match pos {
            Some((col, row)) => seq![':'] + decimal(col as nat) + seq![':'] + decimal(row as nat),
            None => Seq::empty(),
        },
        DisplayRawLine::Annotation { annotation, source_aligned, continuation } => (if source_aligned {
            if continuation {
                repeat_char(' ', lineno_width + 3)
            } else {
                repeat_char(' ', lineno_width) + seq![' '] + styled(&ss.line_no, seq!['=']) + seq![' ']
            }
        } else {
            Seq::empty()
        }) + annotation_out(&annotation, continuation, false, ss),
    }
}

/// The sigil of an inline mark.
pub open spec fn mark_sigil(t: DisplayMarkType) -> char {
    match t {
        DisplayMarkType::AnnotationThrough => '|',
        DisplayMarkType::AnnotationStart => '/',
    }
}

/// Inline marks, each in the style of its annotation.
pub open spec fn marks_out(marks: Seq<DisplayMark>, ss: &Stylesheet) -> Seq<char>
    decreases marks.len(),
{
    if marks.len() == 0 {
        Seq::empty()
    } else {
        let m = marks.last();
        marks_out(marks.drop_last(), ss) + styled(annotation_style(m.annotation_type, ss), seq![mark_sigil(m.mark_type)])
    }
}

/// Inline marks right-aligned in a column `width` wide.
pub open spec fn inline_marks_out(marks: Seq<DisplayMark>, width: nat, ss: &Stylesheet) -> Seq<char> {
    repeat_char(' ', (width - marks.len()) as nat) + marks_out(marks, ss)
}

/// The character leading up to an underline.
pub open spec fn indent_char_of(part: DisplayAnnotationPart) -> char {
    match part {
        DisplayAnnotationPart::Standalone => ' ',
        DisplayAnnotationPart::LabelContinuation => ' ',
        DisplayAnnotationPart::MultilineStart => '_',
        DisplayAnnotationPart::MultilineEnd => '_',
    }
}

/// The character of an underline.
pub open spec fn mark_char_of(t: DisplayAnnotationType) -> char {
    match t {
        DisplayAnnotationType::Error => '^',
        DisplayAnnotationType::Untyped => ' ',
        _ => '-',
    }
}

/// `a - b`, or zero when `b` is larger.
pub open spec fn sat_sub(a: usize, b: usize) -> nat {
    if a >= b {
        (a - b) as nat
    } else {
        0
    }
}

/// Where the underline of a source annotation ends its lead-in: at the end
/// of its range for a label continuation, else at its start; both shifted
/// left by `left` columns.
pub open spec fn lead_in_length(a: &DisplaySourceAnnotation, left: usize) -> nat {
    match a.annotation_part {
        DisplayAnnotationPart::LabelContinuation => sat_sub(a.range.1, left),
        _ => sat_sub(a.range.0, left),
    }
}

/// The underline of a source annotation, in the style of its type: the
/// lead-in, then the marks up to the end of its range.
pub open spec fn underline_out(a: &DisplaySourceAnnotation, left: usize, ss: &Stylesheet) -> Seq<char> {
    let indent = lead_in_length(a, left);
    styled(
        annotation_style(a.annotation_type, ss),
        repeat_char(indent_char_of(a.annotation_part), indent + 1) + repeat_char(
            mark_char_of(a.annotation_type),
            (sat_sub(a.range.1, left) - indent) as nat,
        ),
    )
}

/// The annotation written after an underline, when it has a label.
pub open spec fn source_label_out(a: &DisplaySourceAnnotation, ss: &Stylesheet) -> Seq<char> {
    if label_is_empty(a.annotation.label@) {
        Seq::empty()
    } else {
        seq![' '] + styled(
            annotation_style(a.annotation_type, ss),
            annotation_out(
                &a.annotation,
                a.annotation_part == DisplayAnnotationPart::LabelContinuation,
                true,
                ss,
            ),
        )
    }
}

/// A source annotation as written: its underline, shifted left by `left`
/// columns, and then its annotation when it has a label.
pub open spec fn source_annotation_out(a: &DisplaySourceAnnotation, left: usize, ss: &Stylesheet) -> Seq<char> {
    underline_out(a, left, ss) + source_label_out(a, ss)
}

/// Appends `n` copies of `c`.
pub fn format_repeat_char(c: char, n: usize, out: &mut String)
    ensures
        final(out)@ == old(out)@ + repeat_char(c, n as nat),
{
    let ghost start = out@;
    let mut i: usize = 0;
    while i < n
        invariant
            i <= n,
            out@ == start + repeat_char(c, i as nat),
        decreases n - i,
    {
        push_char(out, c);
        assert(repeat_char(c, (i + 1) as nat) =~= repeat_char(c, i as nat).push(c));
        i += 1;
    }
}

/// Appends the name of an annotation type (nothing for an untyped one).
pub fn format_annotation_type(annotation_type: &DisplayAnnotationType, out: &mut String)
    ensures
        final(out)@ == old(out)@ + annotation_type_text(*annotation_type),
{
    out.append(annotation_type_str(annotation_type));
}

/// The style of an annotation type.
pub fn get_annotation_style<'s>(annotation_type: &DisplayAnnotationType, stylesheet: &'s Stylesheet) -> (res: &'s StyleCodes)
    ensures
        res == annotation_style(*annotation_type, stylesheet),
{
    match annotation_type {
        DisplayAnnotationType::Error => &stylesheet.error,
        DisplayAnnotationType::Warning => &stylesheet.warning,
        DisplayAnnotationType::Info => &stylesheet.info,
        DisplayAnnotationType::Note => &stylesheet.note,
        DisplayAnnotationType::Help => &stylesheet.help,
        DisplayAnnotationType::Untyped => &stylesheet.none,
    }
}

fn push_styled(out: &mut String, style: &StyleCodes, text: &str)
    ensures
        final(out)@ == old(out)@ + styled(style, text@),
{
    out.append(style.on.as_str());
    out.append(text);
    out.append(style.off.as_str());
}

impl<'a> DisplaySet<'a> {
    /// Appends a label, emphasised fragments in the emphasis style.
    pub fn format_label(&self, label: &[DisplayTextFragment<'_>], stylesheet: &Stylesheet, out: &mut String)
        ensures
            final(out)@ == old(out)@ + label_out(label@, stylesheet),
    {
        let ghost start = out@;
        let mut i: usize = 0;
        while i < label.len()
            invariant
                i <= label@.len(),
                out@ == start + label_out(label@.take(i as int), stylesheet),
            decreases label.len() - i,
        {
            let fragment = label[i];
            match fragment.style {
                DisplayTextStyle::Regular => out.append(fragment.content),
                DisplayTextStyle::Emphasis => push_styled(out, &stylesheet.emphasis, fragment.content),
            }
            assert(label@.take(i + 1).drop_last() =~= label@.take(i as int));
            i += 1;
        }
        assert(label@.take(i as int) =~= label@);
    }
}

impl<'a> DisplaySet<'a> {
    /// Appends an annotation as `annotation_out` describes it.
    pub fn format_annotation(
        &self,
        annotation: &Annotation<'_>,
        continuation: bool,
        in_source: bool,
        stylesheet: &Stylesheet,
        out: &mut String,
    )
        requires
            formatted_len(annotation) + 2 <= usize::MAX,
        ensures
            final(out)@ == old(out)@ + annotation_out(annotation, continuation, in_source, stylesheet),
    {
        proof {
            reveal_strlit(": ");
        }
        let ghost start = out@;
        let color = get_annotation_style(&annotation.annotation_type, stylesheet);
        let formatted_len = match annotation.id {
            Some(id) => 2 + id.len() + annotation_type_len(&annotation.annotation_type),
            None => annotation_type_len(&annotation.annotation_type),
        };
        if continuation {
            format_repeat_char(' ', formatted_len + 2, out);
            self.format_label(annotation.label.as_slice(), stylesheet, out);
            return ;
        }
        if formatted_len == 0 {
            self.format_label(annotation.label.as_slice(), stylesheet, out);
        } else {
            self.format_annotation_name(annotation, color, out);
            self.format_annotation_tail(annotation, in_source, color, stylesheet, out);
            assert(out@ =~= start + annotation_out(annotation, continuation, in_source, stylesheet));
        }
    }

    /// Appends a line outside the source as `raw_line_out` describes it.
    pub fn format_raw_line(&self, line: &DisplayRawLine<'_>, lineno_width: usize, stylesheet: &Stylesheet, out: &mut String)
        requires
            lineno_width + 3 <= usize::MAX,
            line matches DisplayRawLine::Annotation { annotation, .. } ==> formatted_len(&annotation) + 2 <= usize::MAX,
        ensures
            final(out)@ == old(out)@ + raw_line_out(line, lineno_width as nat, stylesheet),
    {
        proof {
            reveal_strlit("-->");
            reveal_strlit(":::");
        }
        let ghost start = out@;
        match line {
            DisplayRawLine::Origin { path, pos, header_type } => {
                let header_sigil: &str = match header_type {
                    DisplayHeaderType::Initial => "-->",
                    DisplayHeaderType::Continuation => ":::",
                };
                let lineno_color = &stylesheet.line_no;
                format_repeat_char(' ', lineno_width, out);
                push_styled(out, lineno_color, header_sigil);
                push_char(out, ' ');
                out.append(path);
                match pos {
                    Some((col, row)) => {
                        push_char(out, ':');
                        push_decimal(out, *col);
                        push_char(out, ':');
                        push_decimal(out, *row);
                    },
                    None => {},
                }
                assert(out@ =~= start + raw_line_out(line, lineno_width as nat, stylesheet));
            },
            DisplayRawLine::Annotation { annotation, source_aligned, continuation } => {
                if *source_aligned {
                    if *continuation {
                        format_repeat_char(' ', lineno_width + 3, out);
                    } else {
                        let lineno_color = &stylesheet.line_no;
                        format_repeat_char(' ', lineno_width, out);
                        push_char(out, ' ');
                        out.append(lineno_color.on.as_str());
                        push_char(out, '=');
                        out.append(lineno_color.off.as_str());
                        push_char(out, ' ');
                    }
                }
                let ghost lead = out@;
                self.format_annotation(annotation, *continuation, false, stylesheet, out);
                assert(out@ =~= start + raw_line_out(line, lineno_width as nat, stylesheet));
            },
        }
    }

    /// Appends the inline marks right-aligned in a column
    /// `inline_marks_width` wide, each in the style of its annotation.
    pub fn format_inline_marks(
        &self,
        inline_marks: &[DisplayMark],
        inline_marks_width: usize,
        stylesheet: &Stylesheet,
        out: &mut String,
    )
        requires
            inline_marks@.len() <= inline_marks_width,
        ensures
            final(out)@ == old(out)@ + inline_marks_out(inline_marks@, inline_marks_width as nat, stylesheet),
    {
        let ghost start = out@;
        format_repeat_char(' ', inline_marks_width - inline_marks.len(), out);
        let ghost pad = out@;
        let mut i: usize = 0;
        while i < inline_marks.len()
            invariant
                i <= inline_marks@.len(),
                out@ == pad + marks_out(inline_marks@.take(i as int), stylesheet),
            decreases inline_marks.len() - i,
        {
            let mark = inline_marks[i];
            let annotation_style = get_annotation_style(&mark.annotation_type, stylesheet);
            out.append(annotation_style.on.as_str());
            push_char(
                out,
                match mark.mark_type {
                    DisplayMarkType::AnnotationThrough => '|',
                    DisplayMarkType::AnnotationStart => '/',
                },
            );
            out.append(annotation_style.off.as_str());
            assert(inline_marks@.take(i + 1).drop_last() =~= inline_marks@.take(i as int));
            i += 1;
        }
        assert(inline_marks@.take(i as int) =~= inline_marks@);
    }

    /// Appends the underline of a source annotation, shifted left by `left`
    /// columns, as `source_annotation_out` describes it.
    #[verifier::spinoff_prover]
    pub fn format_source_annotation(
        &self,
        annotation: &DisplaySourceAnnotation<'_>,
        left: usize,
        stylesheet: &Stylesheet,
        out: &mut String,
    )
        requires
            annotation.annotation_part != DisplayAnnotationPart::LabelContinuation ==> sat_sub(annotation.range.0, left)
                <= sat_sub(annotation.range.1, left),
            annotation.range.1 < usize::MAX,
            formatted_len(&annotation.annotation) + 2 <= usize::MAX,
        ensures
            final(out)@ == old(out)@ + source_annotation_out(annotation, left, stylesheet),
    {
        let ghost start = out@;
        let indent_char = match annotation.annotation_part {
            DisplayAnnotationPart::Standalone => ' ',
            DisplayAnnotationPart::LabelContinuation => ' ',
            DisplayAnnotationPart::MultilineStart => '_',
            DisplayAnnotationPart::MultilineEnd => '_',
        };
        let mark = match annotation.annotation_type {
            DisplayAnnotationType::Error => '^',
            DisplayAnnotationType::Warning => '-',
            DisplayAnnotationType::Info => '-',
            DisplayAnnotationType::Note => '-',
            DisplayAnnotationType::Help => '-',
            DisplayAnnotationType::Untyped => ' ',
        };
        let color = get_annotation_style(&annotation.annotation_type, stylesheet);
        let range = (annotation.range.0.saturating_sub(left), annotation.range.1.saturating_sub(left));
        let indent_length = match annotation.annotation_part {
            DisplayAnnotationPart::LabelContinuation => range.1,
            _ => range.0,
        };
        assert(indent_char == indent_char_of(annotation.annotation_part));
        assert(mark == mark_char_of(annotation.annotation_type));
        assert(indent_length == lead_in_length(annotation, left));
        assert(range.1 == sat_sub(annotation.range.1, left));
        self.format_underline(indent_char, indent_length, mark, range.1, color, out);
        assert(out@ == start + underline_out(annotation, left, stylesheet));
        self.format_source_label(annotation, color, stylesheet, out);
        assert(out@ =~= start + source_annotation_out(annotation, left, stylesheet));
    }
}

impl<'a> DisplaySet<'a> {
    fn format_annotation_name(&self, annotation: &Annotation<'_>, color: &StyleCodes, out: &mut String)
        ensures
            final(out)@ == old(out)@ + styled(color, annotation_name_text(annotation)),
    {
        let ghost start = out@;
        out.append(color.on.as_str());
        format_annotation_type(&annotation.annotation_type, out);
        match annotation.id {
            Some(id) => {
                push_char(out, '[');
                out.append(id);
                push_char(out, ']');
            },
            None => {},
        }
        out.append(color.off.as_str());
        assert(out@ =~= start + styled(color, annotation_name_text(annotation)));
    }

    fn format_annotation_tail(
        &self,
        annotation: &Annotation<'_>,
        in_source: bool,
        color: &StyleCodes,
        stylesheet: &Stylesheet,
        out: &mut String,
    )
        ensures
            final(out)@ == old(out)@ + annotation_tail(annotation, in_source, color, stylesheet),
    {
        proof {
            reveal_strlit(": ");
        }
        let ghost start = out@;
        if !is_annotation_empty(annotation) {
            if in_source {
                out.append(color.on.as_str());
                out.append(": ");
                self.format_label(annotation.label.as_slice(), stylesheet, out);
                out.append(color.off.as_str());
            } else {
                out.append(": ");
                self.format_label(annotation.label.as_slice(), stylesheet, out);
            }
        }
        assert(out@ =~= start + annotation_tail(annotation, in_source, color, stylesheet));
    }

    fn format_underline(&self, indent_char: char, indent_length: usize, mark: char, end: usize, color: &StyleCodes, out: &mut String)
        requires
            indent_length <= end,
            end < usize::MAX,
        ensures
            final(out)@ == old(out)@ + styled(
                color,
                repeat_char(indent_char, (indent_length + 1) as nat) + repeat_char(mark, (end - indent_length) as nat),
            ),
    {
        let ghost start = out@;
        out.append(color.on.as_str());
        format_repeat_char(indent_char, indent_length + 1, out);
        format_repeat_char(mark, end - indent_length, out);
        out.append(color.off.as_str());
        assert(out@ =~= start + styled(
            color,
            repeat_char(indent_char, (indent_length + 1) as nat) + repeat_char(mark, (end - indent_length) as nat),
        ));
    }
}

impl<'a> DisplaySet<'a> {
    fn format_source_label(
        &self,
        annotation: &DisplaySourceAnnotation<'_>,
        color: &StyleCodes,
        stylesheet: &Stylesheet,
        out: &mut String,
    )
        requires
            color == annotation_style(annotation.annotation_type, stylesheet),
            formatted_len(&annotation.annotation) + 2 <= usize::MAX,
        ensures
            final(out)@ == old(out)@ + source_label_out(annotation, stylesheet),
    {
        let ghost start = out@;
        let continuation = match annotation.annotation_part {
            DisplayAnnotationPart::LabelContinuation => true,
            _ => false,
        };
        if !is_annotation_empty(&annotation.annotation) {
            push_char(out, ' ');
            out.append(color.on.as_str());
            self.format_annotation(&annotation.annotation, continuation, true, stylesheet, out);
            out.append(color.off.as_str());
        }
        assert(out@ =~= start + source_label_out(annotation, stylesheet));
    }
}

} // verus!
