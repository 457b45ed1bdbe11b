//! The renderer that draws marks with box-drawing characters and writes
//! the lines as an HTML page.
use vstd::prelude::*;
use vstd::string::StringExecFns;

use crate::annotation::AnnotationType;
use crate::ascii_default::{lineno_max_of, marks_max, type_label};
use crate::display_list::line::{
    DisplayLine, DisplayMark, DisplayMarkType, DisplayRawLine, DisplaySourceLine, LineView, SourceLineView,
};
use crate::display_list::list::{lines_view, DisplayList};
use crate::output::{decimal, pad_left, push_char, push_decimal_padded, push_spaces, repeat_char};

verus! {

/// The box-drawing renderer.
#[derive(Debug, Clone, Copy)]
pub struct Renderer {}

/// The parts of the marks that join the lines of a multiline annotation.
#[derive(Debug, Clone, Copy, PartialEq, Eq, Structural)]
pub enum MarkKind {
    Vertical,
    Horizontal,
    DownRight,
    UpRight,
    UpLeft,
}

impl MarkKind {
    /// The box-drawing character of a mark.
    pub fn get(t: MarkKind) -> (c: char)
        ensures
            c == (match t {
                MarkKind::Vertical => '│',
                MarkKind::Horizontal => '─',
                MarkKind::DownRight => '┌',
                MarkKind::UpRight => '└',
                MarkKind::UpLeft => '┘',
            }),
    {
        match t {
            MarkKind::Vertical => '│',
            MarkKind::Horizontal => '─',
            MarkKind::DownRight => '┌',
            MarkKind::UpRight => '└',
            MarkKind::UpLeft => '┘',
        }
    }
}

impl Renderer {
    /// A renderer.
    pub fn new() -> (r: Renderer) {
        Renderer {}
    }
}

/// The renderer.
pub fn get_renderer() -> (r: Renderer) {
    Renderer::new()
}

/// The number of decimal digits of `n`, none for 0.
pub open spec fn digit_count(n: nat) -> nat
    decreases n,
{
    if n == 0 {
        0
    } else {
        1 + digit_count(n / 10)
    }
}

proof fn lemma_digit_count_le(n: nat)
    ensures
        digit_count(n) <= n,
        n > 0 ==> digit_count(n) >= 1,
    decreases n,
{
    if n > 0 {
        lemma_digit_count_le(n / 10);
    }
}

/// The number of decimal digits of `n`, none for 0.
pub fn digits(n: usize) -> (d: usize)
    ensures
        d == digit_count(n as nat),
{
    proof {
        lemma_digit_count_le(n as nat);
    }
    let mut m = n;
    let mut sum: usize = 0;
    while m != 0
        invariant
            sum + digit_count(m as nat) == digit_count(n as nat),
            digit_count(n as nat) <= n,
        decreases m,
    {
        proof {
            lemma_digit_count_le(m as nat);
        }
        m = m / 10;
        sum = sum + 1;
    }
    sum
}

/// The box-drawing character of an inline mark.
pub open spec fn box_sigil(m: DisplayMark) -> char {
    match m.mark_type {
        DisplayMarkType::AnnotationStart => '┌',
        DisplayMarkType::AnnotationThrough => '│',
    }
}

/// What a source line shows after the marks: the text in a `source` span;
/// or, for an annotation, a `─` over each character of its range (closed by
/// `┘` from column 0), then its label.
pub open spec fn html_source_line(l: SourceLineView) -> Seq<char> {
    match l {
        SourceLineView::Content(text) => " <span class=\"source\">"@ + text + "</span>"@,
        SourceLineView::Annotation { label, start, end, .. } => repeat_char(
            ' ',
            (if start == 0 {
                0
            } else {
                start + 1
            }) as nat,
        ) + repeat_char('─', (if end > start {
            end - start
        } else {
            0
        }) as nat) + (if start == 0 {
            seq!['┘']
        } else {
            Seq::empty()
        }) + seq![' '] + label,
        SourceLineView::Empty => Seq::empty(),
    }
}

/// A line as the page shows it: the number in a `lineno` span
/// `lineno_max` wide (1 when no line has a number), the delimiter in a
/// `line` span, the marks, and the source line; an origin line holds only
/// the blank number column, and a message line nothing.
pub open spec fn html_line(l: LineView, lineno_max: Option<nat>, inline_marks_width: nat) -> Seq<char> {
    let lm = match lineno_max {
        Some(w) => w,
        None => 1,
    };
    match l {
        LineView::Source { lineno, inline_marks, line } => "<span class=\"lineno\">"@ + (match lineno {
            Some(n) => pad_left(decimal(n as nat), lm),
            None => repeat_char(' ', lm),
        }) + "</span> <span class=\"line\">"@ + seq!['│'] + "</span> "@ + repeat_char(
            ' ',
            (inline_marks_width - inline_marks.len()) as nat,
        ) + Seq::new(inline_marks.len(), |i: int| box_sigil(inline_marks[i])) + html_source_line(line) + seq!['\n'],
        LineView::Origin { .. } => repeat_char(' ', lm) + seq!['\n'],
        LineView::Message { .. } => Seq::empty(),
    }
}

/// The opening of the page, up to the preformatted block.
pub open spec fn html_header() -> Seq<char> {
    "<html><head><style>\n"@ + ".lineno { color: red; }\n"@ + ".line { color: blue; }\n"@
        + ".source { color: gray; }\n"@ + "</style></head><body><pre>"@
}

/// The close of the page.
pub open spec fn html_footer() -> Seq<char> {
    "</pre></body></html>"@
}

/// The lines of a list as the page shows them.
pub open spec fn html_body(body: Seq<LineView>, lineno_max: Option<nat>, inline_marks_width: nat) -> Seq<char>
    decreases body.len(),
{
    if body.len() == 0 {
        Seq::empty()
    } else {
        html_body(body.drop_last(), lineno_max, inline_marks_width) + html_line(body.last(), lineno_max, inline_marks_width)
    }
}

/// No annotation line starts at the largest column.
pub open spec fn starts_fit(body: Seq<LineView>) -> bool {
    forall|i: int|
        0 <= i < body.len() ==> match #[trigger] body[i] {
            LineView::Source { line: SourceLineView::Annotation { start, .. }, .. } => start < usize::MAX,
            _ => true,
        }
}

proof fn lemma_html_marks_max_covers(body: Seq<LineView>, i: int)
    requires
        0 <= i < body.len(),
    ensures
        body[i] matches LineView::Source { inline_marks, .. } ==> inline_marks.len() <= marks_max(body),
    decreases body.len(),
{
    if i < body.len() - 1 {
        lemma_html_marks_max_covers(body.drop_last(), i);
        assert(body.drop_last()[i] == body[i]);
    }
}

impl Renderer {
    /// The name of an annotation type.
    pub fn get_annotation_type_style(&self, annotation_type: &AnnotationType) -> (s: &'static str)
        ensures
            s@ == type_label(*annotation_type),
    {
        proof {
            reveal_strlit("error");
            reveal_strlit("warning");
            reveal_strlit("info");
            reveal_strlit("note");
            reveal_strlit("help");
        }
        match annotation_type {
            AnnotationType::Error => "error",
            AnnotationType::Warning => "warning",
            AnnotationType::Info => "info",
            AnnotationType::Note => "note",
            AnnotationType::Help => "help",
        }
    }

    fn fmt_display_mark(&self, out: &mut String, display_mark: &DisplayMark)
        ensures
            final(out)@ == old(out)@.push(box_sigil(*display_mark)),
    {
        let ch = match display_mark.mark_type {
            DisplayMarkType::AnnotationStart => MarkKind::get(MarkKind::DownRight),
            DisplayMarkType::AnnotationThrough => MarkKind::get(MarkKind::Vertical),
        };
        push_char(out, ch);
    }

    fn fmt_header(&self, out: &mut String)
        ensures
            final(out)@ == old(out)@ + html_header(),
    {
        out.append("<html><head><style>\n");
        out.append(".lineno { color: red; }\n");
        out.append(".line { color: blue; }\n");
        out.append(".source { color: gray; }\n");
        out.append("</style></head><body><pre>");
    }

    fn fmt_footer(&self, out: &mut String)
        ensures
            final(out)@ == old(out)@ + html_footer(),
    {
        out.append("</pre></body></html>");
    }

    fn fmt_source_line(&self, out: &mut String, line: &DisplaySourceLine)
        requires
            line matches DisplaySourceLine::Annotation { range, .. } ==> range.start < usize::MAX,
        ensures
            final(out)@ == old(out)@ + html_source_line(line@),
    {
        let ghost start = out@;
        match line {
            DisplaySourceLine::Content { text } => {
                out.append(" <span class=\"source\">");
                out.append(text);
                out.append("</span>");
            },
            DisplaySourceLine::Annotation { annotation, range } => {
                let indent = if range.start == 0 {
                    0
                } else {
                    range.start + 1
                };
                push_spaces(out, indent);
                let horizontal_mark = MarkKind::get(MarkKind::Horizontal);
                let len = if range.end > range.start {
                    range.end - range.start
                } else {
                    0
                };
                let ghost at = out@;
                let mut k: usize = 0;
                while k < len
                    invariant
                        k <= len,
                        horizontal_mark == '─',
                        out@ == at + repeat_char('─', k as nat),
                    decreases len - k,
                {
                    push_char(out, horizontal_mark);
                    assert(repeat_char('─', (k + 1) as nat) =~= repeat_char('─', k as nat).push('─'));
                    k += 1;
                }
                if range.start == 0 {
                    push_char(out, MarkKind::get(MarkKind::UpLeft));
                }
                push_char(out, ' ');
                out.append(annotation.label);
            },
            DisplaySourceLine::Empty => {},
        }
        assert(out@ =~= start + html_source_line(line@));
    }

    fn fmt_source_display_line(
        &self,
        out: &mut String,
        lineno: Option<usize>,
        inline_marks: &Vec<DisplayMark>,
        line: &DisplaySourceLine,
        lineno_max: usize,
        inline_marks_width: usize,
    )
        requires
            inline_marks@.len() <= inline_marks_width,
            line matches DisplaySourceLine::Annotation { range, .. } ==> range.start < usize::MAX,
        ensures
            final(out)@ == old(out)@ + html_line(
                LineView::Source { lineno, inline_marks: inline_marks@, line: line@ },
                Some(lineno_max as nat),
                inline_marks_width as nat,
            ),
    {
        let ghost start = out@;
        let vertical_mark = MarkKind::get(MarkKind::Vertical);
        out.append("<span class=\"lineno\">");
        match lineno {
            Some(n) => push_decimal_padded(out, n, lineno_max),
            None => push_spaces(out, lineno_max),
        }
        out.append("</span> <span class=\"line\">");
        push_char(out, vertical_mark);
        out.append("</span> ");
        push_spaces(out, inline_marks_width - inline_marks.len());
        let ghost at = out@;
        let mut k: usize = 0;
        while k < inline_marks.len()
            invariant
                k <= inline_marks@.len(),
                out@ == at + Seq::new(k as nat, |i: int| box_sigil(inline_marks@[i])),
            decreases inline_marks.len() - k,
        {
            self.fmt_display_mark(out, &inline_marks[k]);
            assert(Seq::new((k + 1) as nat, |i: int| box_sigil(inline_marks@[i])) =~= Seq::new(
                k as nat,
                |i: int| box_sigil(inline_marks@[i]),
            ).push(box_sigil(inline_marks@[k as int])));
            k += 1;
        }
        self.fmt_source_line(out, line);
        push_char(out, '\n');
        assert(out@ =~= start + html_line(
            LineView::Source { lineno, inline_marks: inline_marks@, line: line@ },
            Some(lineno_max as nat),
            inline_marks_width as nat,
        ));
    }

    fn fmt_line(&self, out: &mut String, line: &DisplayLine, lineno_max: Option<usize>, inline_marks_width: usize)
        requires
            line@ matches LineView::Source { inline_marks, line: l, .. } ==> inline_marks.len() <= inline_marks_width
                && (l matches SourceLineView::Annotation { start, .. } ==> start < usize::MAX),
        ensures
            final(out)@ == old(out)@ + html_line(
                line@,
                match lineno_max {
                    Some(w) => Some(w as nat),
                    None => None,
                },
                inline_marks_width as nat,
            ),
    {
        let lineno_max = match lineno_max {
            Some(w) => w,
            None => 1,
        };
        match line {
            DisplayLine::Source { lineno, inline_marks, line: source_line } => {
                self.fmt_source_display_line(out, *lineno, inline_marks, source_line, lineno_max, inline_marks_width);
            },
            DisplayLine::Raw(DisplayRawLine::Origin { .. }) => {
                push_spaces(out, lineno_max);
                push_char(out, '\n');
            },
            DisplayLine::Raw(DisplayRawLine::Annotation { annotation, .. }) => {
                let _desc = self.get_annotation_type_style(&annotation.annotation_type);
            },
        }
    }

    /// Writes the page: the header, each line in turn with the columns as
    /// wide as the last line number and the most marks, and the footer.
    pub fn fmt(&self, out: &mut String, dl: &DisplayList)
        requires
            starts_fit(lines_view(dl.body@)),
        ensures
            final(out)@ == old(out)@ + html_header() + html_body(
                lines_view(dl.body@),
                lineno_max_of(lines_view(dl.body@)),
                marks_max(lines_view(dl.body@)),
            ) + html_footer(),
    {
        let ghost v = lines_view(dl.body@);
        let ghost start = out@;
        self.fmt_header(out);
        let mut lineno_max: Option<usize> = None;
        let mut r: usize = dl.body.len();
        assert(v.take(r as int) =~= v);
        while r > 0
            invariant
                r <= dl.body@.len(),
                v == lines_view(dl.body@),
                lineno_max_of(v) == match lineno_max {
                    Some(w) => Some(w as nat),
                    None => lineno_max_of(v.take(r as int)),
                },
            decreases r,
        {
            assert(v.take(r as int).drop_last() =~= v.take(r - 1));
            assert(v.take(r as int).last() == dl.body@[r - 1]@);
            if lineno_max.is_none() {
                match &dl.body[r - 1] {
                    DisplayLine::Source { lineno: Some(n), .. } => {
                        lineno_max = Some(digits(*n));
                    },
                    _ => {},
                }
            }
            r -= 1;
        }
        let mut inline_marks_width: usize = 0;
        let mut i: usize = 0;
        while i < dl.body.len()
            invariant
                i <= dl.body@.len(),
                v == lines_view(dl.body@),
                inline_marks_width == marks_max(v.take(i as int)),
            decreases dl.body.len() - i,
        {
            assert(v.take(i + 1).drop_last() =~= v.take(i as int));
            assert(v.take(i + 1).last() == dl.body@[i as int]@);
            match &dl.body[i] {
                DisplayLine::Source { inline_marks, .. } => {
                    if inline_marks.len() > inline_marks_width {
                        inline_marks_width = inline_marks.len();
                    }
                },
                _ => {},
            }
            i += 1;
        }
        assert(v.take(i as int) =~= v);
        let ghost body_start = out@;
        let mut j: usize = 0;
        while j < dl.body.len()
            invariant
                j <= dl.body@.len(),
                v == lines_view(dl.body@),
                starts_fit(v),
                inline_marks_width == marks_max(v),
                lineno_max_of(v) == match lineno_max {
                    Some(w) => Some(w as nat),
                    None => None,
                },
                out@ == body_start + html_body(v.take(j as int), lineno_max_of(v), marks_max(v)),
            decreases dl.body.len() - j,
        {
            assert(v.take(j + 1).drop_last() =~= v.take(j as int));
            assert(v.take(j + 1).last() == dl.body@[j as int]@);
            proof {
                lemma_html_marks_max_covers(v, j as int);
                assert(v[j as int] == dl.body@[j as int]@);
            }
            self.fmt_line(out, &dl.body[j], lineno_max, inline_marks_width);
            j += 1;
        }
        assert(v.take(j as int) =~= v);
        self.fmt_footer(out);
    }
}


/// On every annotation line of the page, the annotation's label follows its
/// underline after one space, whatever column the annotation starts at: the
/// line ends with a space, the label and the line end.
pub proof fn law_html_label_follows_underline(l: LineView, lineno_max: Option<nat>, inline_marks_width: nat)
    ensures
        l matches LineView::Source { line: SourceLineView::Annotation { label, .. }, .. } ==> ({
            let t = html_line(l, lineno_max, inline_marks_width);
            let tail = seq![' '] + label + seq!['\n'];
            &&& t.len() >= tail.len()
            &&& t.subrange(t.len() - tail.len(), t.len() as int) == tail
        }),
{
    match l {
        LineView::Source { lineno, inline_marks, line } => match line {
            SourceLineView::Annotation { label, start, end, .. } => {
                let t = html_line(l, lineno_max, inline_marks_width);
                let tail = seq![' '] + label + seq!['\n'];
                let lm = match lineno_max {
                    Some(w) => w,
                    None => 1,
                };
                let head = "<span class=\"lineno\">"@ + (match lineno {
                    Some(n) => pad_left(decimal(n as nat), lm),
                    None => repeat_char(' ', lm),
                }) + "</span> <span class=\"line\">"@ + seq!['│'] + "</span> "@ + repeat_char(
                    ' ',
                    (inline_marks_width - inline_marks.len()) as nat,
                ) + Seq::new(inline_marks.len(), |i: int| box_sigil(inline_marks[i]));
                let under = repeat_char(' ', (if start == 0 { 0 } else { start + 1 }) as nat) + repeat_char(
                    '─',
                    (if end > start { end - start } else { 0 }) as nat,
                ) + (if start == 0 {
                    seq!['┘']
                } else {
                    Seq::empty()
                });
                assert(html_source_line(line) == under + seq![' '] + label);
                assert(t =~= (head + under) + tail);
                assert(t.subrange(t.len() - tail.len(), t.len() as int) =~= tail);
            },
            _ => {},
        },
        _ => {},
    }
}

} // verus!
