//! The plain ASCII renderer of a `display_list::list::DisplayList`: a line
//! number column, ` | `, the inline marks, and the source or the
//! annotation drawn under it; origin lines are written through a `Style`.
use vstd::prelude::*;
use vstd::string::StringExecFns;

use crate::annotation::AnnotationType;
use crate::ascii_styles::{Style as StyleTrait, StyleType};
use crate::display_list::line::{
    DisplayLine, DisplayMark, DisplayMarkType, DisplayRawLine, DisplaySourceLine, LineView, SourceLineView,
};
use crate::display_list::list::{lines_view, DisplayList};
use crate::html::{digit_count, digits};
use crate::output::{decimal, pad_left, push_char, push_decimal, push_decimal_padded, push_spaces, repeat_char};
use std::marker::PhantomData;

verus! {

/// The renderer, writing origin lines through the style `S`.
pub struct Renderer<S: StyleTrait> {
    style: PhantomData<S>,
}

/// The name of an annotation type.
pub open spec fn type_label(t: AnnotationType) -> Seq<char> {
    match t {
        AnnotationType::Error => seq!['e', 'r', 'r', 'o', 'r'],
        AnnotationType::Warning => seq!['w', 'a', 'r', 'n', 'i', 'n', 'g'],
        AnnotationType::Info => seq!['i', 'n', 'f', 'o'],
        AnnotationType::Note => seq!['n', 'o', 't', 'e'],
        AnnotationType::Help => seq!['h', 'e', 'l', 'p'],
    }
}

/// The sigil of an inline mark.
pub open spec fn sigil(m: DisplayMark) -> char {
    match m.mark_type {
        DisplayMarkType::AnnotationStart => '/',
        DisplayMarkType::AnnotationThrough => '|',
    }
}

/// What a source line shows after the marks: the text after a space; or,
/// for an annotation, its range drawn with `^` (led by `_` from column 0)
/// or with `-`, then its label.
pub open spec fn source_line_text(l: SourceLineView) -> Seq<char> {
    match l {
        SourceLineView::Content(text) => seq![' '] + text,
        SourceLineView::Annotation { label, start, end, .. } => repeat_char(
            ' ',
            (if start == 0 {
                0
            } else {
                start + 1
            }) as nat,
        ) + (if start == 0 {
            repeat_char('_', (end - start) as nat) + seq!['^']
        } else {
            repeat_char('-', (end - start) as nat)
        }) + seq![' '] + label,
        SourceLineView::Empty => Seq::empty(),
    }
}

/// A line as the renderer writes it, with the line number column
/// `lineno_max` wide (1 when there is no number at all) and the marks column
/// `inline_marks_width` wide.
pub open spec fn line_text<S: StyleTrait>(l: LineView, lineno_max: Option<nat>, inline_marks_width: nat) -> Seq<char> {
    let lm = match lineno_max {
        Some(w) => w,
        None => 1,
    };
    match l {
        LineView::Source { lineno, inline_marks, line } => (match lineno {
            Some(n) => pad_left(decimal(n as nat), lm),
            None => repeat_char(' ', lm),
        }) + seq![' ', '|', ' '] + repeat_char(' ', (inline_marks_width - inline_marks.len()) as nat) + Seq::new(
            inline_marks.len(),
            |i: int| sigil(inline_marks[i]),
        ) + source_line_text(line) + seq!['\n'],
        LineView::Origin { path, pos } => S::painted(repeat_char(' ', lm), Seq::empty()) + S::painted(
            seq!['-', '-', '>', ' '] + path,
            Seq::empty(),
        ) + (match pos.0 {
            Some(line) => S::painted(seq![':'] + decimal(line as nat), Seq::empty()),
            None => Seq::empty(),
        }) + seq!['\n'],
        LineView::Message { annotation_type, id, label, .. } => type_label(annotation_type) + (match id {
            Some(i) => seq!['['] + i + seq![']'],
            None => Seq::empty(),
        }) + seq![':', ' '] + label + seq!['\n'],
    }
}

/// The number of digits of the last line number of the list, if any line
/// has one.
pub open spec fn lineno_max_of(body: Seq<LineView>) -> Option<nat>
    decreases body.len(),
{
    if body.len() == 0 {
        None
    } else {
        match body.last() {
            LineView::Source { lineno: Some(n), .. } => Some(digit_count(n as nat)),
            _ => lineno_max_of(body.drop_last()),
        }
    }
}

/// The most inline marks on a source line.
pub open spec fn marks_max(body: Seq<LineView>) -> nat
    decreases body.len(),
{
    if body.len() == 0 {
        0
    } else {
        let m = marks_max(body.drop_last());
        match body.last() {
            LineView::Source { inline_marks, .. } => if inline_marks.len() > m {
                inline_marks.len()
            } else {
                m
            },
            _ => m,
        }
    }
}

/// The lines of a list as the renderer writes them.
pub open spec fn body_text<S: StyleTrait>(body: Seq<LineView>, lineno_max: Option<nat>, inline_marks_width: nat) -> Seq<
    char,
>
    decreases body.len(),
{
    if body.len() == 0 {
        Seq::empty()
    } else {
        body_text::<S>(body.drop_last(), lineno_max, inline_marks_width) + line_text::<S>(
            body.last(),
            lineno_max,
            inline_marks_width,
        )
    }
}

/// What a line needs to be written: marks that fit their column and an
/// annotation range that does not end before it starts.
pub open spec fn line_fits(l: LineView, inline_marks_width: nat) -> bool {
    match l {
        LineView::Source { inline_marks, line, .. } => inline_marks.len() <= inline_marks_width && match line {
            SourceLineView::Annotation { start, end, .. } => start <= end && start < usize::MAX,
            _ => true,
        },
        _ => true,
    }
}

impl<S: StyleTrait> Renderer<S> {
    pub fn new() -> (r: Self) {
        Renderer { style: PhantomData }
    }

    fn fmt_annotation(&self, out: &mut String, annotation_type: AnnotationType)
        ensures
            final(out)@ == old(out)@ + type_label(annotation_type),
    {
        proof {
            reveal_strlit("error");
            reveal_strlit("warning");
            reveal_strlit("info");
            reveal_strlit("note");
            reveal_strlit("help");
        }
        match annotation_type {
            AnnotationType::Error => out.append("error"),
            AnnotationType::Warning => out.append("warning"),
            AnnotationType::Info => out.append("info"),
            AnnotationType::Note => out.append("note"),
            AnnotationType::Help => out.append("help"),
        }
    }

    fn fmt_display_mark(&self, out: &mut String, display_mark: &DisplayMark)
        ensures
            final(out)@ == old(out)@.push(sigil(*display_mark)),
    {
        match display_mark.mark_type {
            DisplayMarkType::AnnotationStart => push_char(out, '/'),
            DisplayMarkType::AnnotationThrough => push_char(out, '|'),
        }
    }

    fn fmt_source_line(&self, out: &mut String, line: &DisplaySourceLine)
        requires
            line matches DisplaySourceLine::Annotation { range, .. } ==> range.start <= range.end && range.start
                < usize::MAX,
        ensures
            final(out)@ == old(out)@ + source_line_text(line@),
    {
        let ghost start = out@;
        match line {
            DisplaySourceLine::Content { text } => {
                push_char(out, ' ');
                out.append(text);
            },
            DisplaySourceLine::Annotation { annotation, range } => {
                let indent = if range.start == 0 {
                    0
                } else {
                    range.start + 1
                };
                push_spaces(out, indent);
                if range.start == 0 {
                    let mut k: usize = 0;
                    let ghost at = out@;
                    while k < range.end - range.start
                        invariant
                            k <= range.end - range.start,
                            out@ == at + repeat_char('_', k as nat),
                        decreases range.end - range.start - k,
                    {
                        push_char(out, '_');
                        assert(repeat_char('_', (k + 1) as nat) =~= repeat_char('_', k as nat).push('_'));
                        k += 1;
                    }
                    push_char(out, '^');
                } else {
                    let mut k: usize = 0;
                    let ghost at = out@;
                    while k < range.end - range.start
                        invariant
                            k <= range.end - range.start,
                            out@ == at + repeat_char('-', k as nat),
                        decreases range.end - range.start - k,
                    {
                        push_char(out, '-');
                        assert(repeat_char('-', (k + 1) as nat) =~= repeat_char('-', k as nat).push('-'));
                        k += 1;
                    }
                }
                push_char(out, ' ');
                out.append(annotation.label);
            },
            DisplaySourceLine::Empty => {},
        }
        assert(out@ =~= start + source_line_text(line@));
    }

    fn fmt_raw_line(&self, out: &mut String, line: &DisplayRawLine, lineno_max: usize)
        ensures
            final(out)@ == old(out)@ + line_text::<S>(DisplayLine::Raw(*line)@, Some(lineno_max as nat), 0),
    {
        proof {
            reveal_strlit("--> ");
            reveal_strlit(": ");
        }
        let ghost start = out@;
        let no_styles: &[StyleType] = &[];
        assert(no_styles@ =~= Seq::<StyleType>::empty());
        match line {
            DisplayRawLine::Origin { path, pos } => {
                let mut spaces = String::new();
                push_spaces(&mut spaces, lineno_max);
                S::fmt(out, spaces.as_str(), no_styles);
                let mut origin = String::new();
                origin.append("--> ");
                origin.append(path);
                assert(origin@ =~= seq!['-', '-', '>', ' '] + path@);
                S::fmt(out, origin.as_str(), no_styles);
                match pos.0 {
                    Some(l) => {
                        let mut at = String::new();
                        push_char(&mut at, ':');
                        push_decimal(&mut at, l);
                        assert(at@ =~= seq![':'] + decimal(l as nat));
                        S::fmt(out, at.as_str(), no_styles);
                    },
                    None => {},
                }
                push_char(out, '\n');
                assert(out@ =~= start + line_text::<S>(DisplayLine::Raw(*line)@, Some(lineno_max as nat), 0));
            },
            DisplayRawLine::Annotation { annotation, .. } => {
                self.fmt_annotation(out, annotation.annotation_type);
                match annotation.id {
                    Some(id) => {
                        push_char(out, '[');
                        out.append(id);
                        push_char(out, ']');
                    },
                    None => {},
                }
                out.append(": ");
                out.append(annotation.label);
                push_char(out, '\n');
                assert(out@ =~= start + line_text::<S>(DisplayLine::Raw(*line)@, Some(lineno_max as nat), 0));
            },
        }
        assert(out@ =~= start + line_text::<S>(DisplayLine::Raw(*line)@, Some(lineno_max as nat), 0));
    }
}

/// The ranges of the list's annotation lines do not end before they start.
pub open spec fn ranges_ordered(body: Seq<LineView>) -> bool {
    forall|i: int|
        0 <= i < body.len() ==> match #[trigger] body[i] {
            LineView::Source { line: SourceLineView::Annotation { start, end, .. }, .. } => start <= end && start
                < usize::MAX,
            _ => true,
        }
}

proof fn lemma_marks_max_covers(body: Seq<LineView>, i: int)
    requires
        0 <= i < body.len(),
    ensures
        body[i] matches LineView::Source { inline_marks, .. } ==> inline_marks.len() <= marks_max(body),
    decreases body.len(),
{
    if i < body.len() - 1 {
        lemma_marks_max_covers(body.drop_last(), i);
        assert(body.drop_last()[i] == body[i]);
    }
}

impl<S: StyleTrait> Renderer<S> {
    fn fmt_line(&self, out: &mut String, line: &DisplayLine, lineno_max: Option<usize>, inline_marks_width: usize)
        requires
            line_fits(line@, inline_marks_width as nat),
        ensures
            final(out)@ == old(out)@ + line_text::<S>(
                line@,
                match lineno_max {
                    Some(w) => Some(w as nat),
                    None => None,
                },
                inline_marks_width as nat,
            ),
    {
        let ghost start = out@;
        let lineno_max = match lineno_max {
            Some(w) => w,
            None => 1,
        };
        match line {
            DisplayLine::Source { lineno, inline_marks, line: source_line } => {
                self.fmt_source_display_line(out, *lineno, inline_marks, source_line, lineno_max, inline_marks_width);
            },
            DisplayLine::Raw(l) => self.fmt_raw_line(out, l, lineno_max),
        }
    }

    /// Writes the list: each line in turn, with the line number column as
    /// wide as the last line number and the marks column as wide as the
    /// most marks on a line.
    pub fn fmt(&self, out: &mut String, dl: &DisplayList)
        requires
            ranges_ordered(lines_view(dl.body@)),
        ensures
            final(out)@ == old(out)@ + body_text::<S>(
                lines_view(dl.body@),
                lineno_max_of(lines_view(dl.body@)),
                marks_max(lines_view(dl.body@)),
            ),
    {
        let ghost v = lines_view(dl.body@);
        let mut lineno_max: Option<usize> = None;
        let mut r: usize = dl.body.len();
        assert(v.take(r as int) =~= v);
        while r > 0
            invariant
                r <= dl.body@.len(),
                v == lines_view(dl.body@),
                lineno_max_of(v) == match lineno_max {
                    Some(w) => Some(w as nat),
                    None => lineno_max_of(v.take(r as int)),
                },
            decreases r,
        {
            assert(v.take(r as int).drop_last() =~= v.take(r - 1));
            assert(v.take(r as int).last() == dl.body@[r - 1]@);
            if lineno_max.is_none() {
                match &dl.body[r - 1] {
                    DisplayLine::Source { lineno: Some(n), .. } => {
                        lineno_max = Some(digits(*n));
                    },
                    _ => {},
                }
            }
            r -= 1;
        }
        let mut inline_marks_width: usize = 0;
        let mut i: usize = 0;
        while i < dl.body.len()
            invariant
                i <= dl.body@.len(),
                v == lines_view(dl.body@),
                inline_marks_width == marks_max(v.take(i as int)),
            decreases dl.body.len() - i,
        {
            assert(v.take(i + 1).drop_last() =~= v.take(i as int));
            assert(v.take(i + 1).last() == dl.body@[i as int]@);
            match &dl.body[i] {
                DisplayLine::Source { inline_marks, .. } => {
                    if inline_marks.len() > inline_marks_width {
                        inline_marks_width = inline_marks.len();
                    }
                },
                _ => {},
            }
            i += 1;
        }
        assert(v.take(i as int) =~= v);
        let ghost start = out@;
        let mut j: usize = 0;
        while j < dl.body.len()
            invariant
                j <= dl.body@.len(),
                v == lines_view(dl.body@),
                ranges_ordered(v),
                inline_marks_width == marks_max(v),
                lineno_max_of(v) == match lineno_max {
                    Some(w) => Some(w as nat),
                    None => None,
                },
                out@ == start + body_text::<S>(v.take(j as int), lineno_max_of(v), marks_max(v)),
            decreases dl.body.len() - j,
        {
            assert(v.take(j + 1).drop_last() =~= v.take(j as int));
            assert(v.take(j + 1).last() == dl.body@[j as int]@);
            proof {
                lemma_marks_max_covers(v, j as int);
                assert(v[j as int] == dl.body@[j as int]@);
            }
            self.fmt_line(out, &dl.body[j], lineno_max, inline_marks_width);
            j += 1;
        }
        assert(v.take(j as int) =~= v);
    }
}

impl<S: StyleTrait> Renderer<S> {
    fn fmt_source_display_line(
        &self,
        out: &mut String,
        lineno: Option<usize>,
        inline_marks: &Vec<DisplayMark>,
        line: &DisplaySourceLine,
        lineno_max: usize,
        inline_marks_width: usize,
    )
        requires
            line_fits(LineView::Source { lineno, inline_marks: inline_marks@, line: line@ }, inline_marks_width as nat),
        ensures
            final(out)@ == old(out)@ + line_text::<S>(
                LineView::Source { lineno, inline_marks: inline_marks@, line: line@ },
                Some(lineno_max as nat),
                inline_marks_width as nat,
            ),
    {
        let ghost start = out@;
        match lineno {
            Some(n) => push_decimal_padded(out, n, lineno_max),
            None => push_spaces(out, lineno_max),
        }
        push_char(out, ' ');
        push_char(out, '|');
        push_char(out, ' ');
        push_spaces(out, inline_marks_width - inline_marks.len());
        let ghost at = out@;
        let mut k: usize = 0;
        while k < inline_marks.len()
            invariant
                k <= inline_marks@.len(),
                out@ == at + Seq::new(k as nat, |i: int| sigil(inline_marks@[i])),
            decreases inline_marks.len() - k,
        {
            self.fmt_display_mark(out, &inline_marks[k]);
            assert(Seq::new((k + 1) as nat, |i: int| sigil(inline_marks@[i])) =~= Seq::new(
                k as nat,
                |i: int| sigil(inline_marks@[i]),
            ).push(sigil(inline_marks@[k as int])));
            k += 1;
        }
        let ghost marked = out@;
        self.fmt_source_line(out, line);
        push_char(out, '\n');
        assert(out@ =~= start + line_text::<S>(
            LineView::Source { lineno, inline_marks: inline_marks@, line: line@ },
            Some(lineno_max as nat),
            inline_marks_width as nat,
        ));
    }
}

} // verus!
