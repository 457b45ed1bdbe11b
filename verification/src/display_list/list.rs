//! Building the display list of a slice: its origin, its source lines with
//! the marks of the multiline annotations that cross them, and a line for
//! each annotation under the line where it ends.
use vstd::prelude::*;

use super::annotation::Annotation;
use super::line::{DisplayLine, DisplayMark, DisplayMarkType, DisplayRawLine, DisplaySourceLine, LineView, SourceLineView};
use crate::annotation::{AnnotationType, SourceAnnotation};
use crate::cursor_line::{collect_lines, cursor_lines, lemma_cursor_line_at, lemma_cursor_step, line_offset, cursor_step};
use crate::format::{lemma_lines_view, piece_texts, text_lines};
use crate::slice::Slice;
use crate::text::{bytes_of, lemma_empty_str, str_chars};
use std::ops::Range;

verus! {

/// The lines to be displayed.
pub struct DisplayList<'d> {
    pub body: Vec<DisplayLine<'d>>,
}

/// The annotation lies within the line that starts at character `p` and
/// has `n` characters.
pub open spec fn within(a: SourceAnnotation, p: int, n: int) -> bool {
    a.range.0 >= p && a.range.1 <= p + n
}

/// The annotation starts on the line and goes on past it.
pub open spec fn starts_in(a: SourceAnnotation, p: int, n: int) -> bool {
    !within(a, p, n) && a.range.0 >= p && a.range.0 <= p + n
}

/// The annotation started before the line and goes on past it.
pub open spec fn passes(a: SourceAnnotation, p: int, n: int) -> bool {
    a.range.0 < p && a.range.1 > p + n
}

/// The annotation started before the line and ends on it.
pub open spec fn ends_in(a: SourceAnnotation, p: int, n: int) -> bool {
    a.range.0 < p && a.range.1 >= p && a.range.1 <= p + n
}

/// An inline mark of the error type.
pub open spec fn error_mark(t: DisplayMarkType) -> DisplayMark {
    DisplayMark { mark_type: t, annotation_type: AnnotationType::Error }
}

/// The marks a line gets: a start mark for each annotation starting on it,
/// and a through mark for each one crossing or ending on it, in order.
pub open spec fn line_marks<'a>(anns: Seq<SourceAnnotation<'a>>, p: int, n: int) -> Seq<DisplayMark>
    decreases anns.len(),
{
    if anns.len() == 0 {
        Seq::empty()
    } else {
        let a = anns.last();
        line_marks(anns.drop_last(), p, n) + if starts_in(a, p, n) {
            seq![error_mark(DisplayMarkType::AnnotationStart)]
        } else if passes(a, p, n) || ends_in(a, p, n) {
            seq![error_mark(DisplayMarkType::AnnotationThrough)]
        } else {
            Seq::empty()
        }
    }
}

/// The annotations shown under a line: those within it or ending on it,
/// in order.
pub open spec fn line_current<'a>(anns: Seq<SourceAnnotation<'a>>, p: int, n: int) -> Seq<SourceAnnotation<'a>>
    decreases anns.len(),
{
    if anns.len() == 0 {
        Seq::empty()
    } else {
        let a = anns.last();
        if within(a, p, n) || ends_in(a, p, n) {
            line_current(anns.drop_last(), p, n).push(a)
        } else {
            line_current(anns.drop_last(), p, n)
        }
    }
}

/// The annotations left for the following lines, in order.
pub open spec fn line_rest<'a>(anns: Seq<SourceAnnotation<'a>>, p: int, n: int) -> Seq<SourceAnnotation<'a>>
    decreases anns.len(),
{
    if anns.len() == 0 {
        Seq::empty()
    } else {
        let a = anns.last();
        if within(a, p, n) || ends_in(a, p, n) {
            line_rest(anns.drop_last(), p, n)
        } else {
            line_rest(anns.drop_last(), p, n).push(a)
        }
    }
}

/// The line showing an annotation under the line that starts at character
/// `p`: with a through mark when it started on an earlier line, its range
/// counted from the line's start (from its start when it began earlier).
pub open spec fn annotation_line_view(a: SourceAnnotation, p: int) -> LineView {
    LineView::Source {
        lineno: None,
        inline_marks: if a.range.0 < p {
            seq![error_mark(DisplayMarkType::AnnotationThrough)]
        } else {
            Seq::empty()
        },
        line: SourceLineView::Annotation {
            annotation_type: AnnotationType::Error,
            id: None,
            label: a.label@,
            start: if a.range.0 >= p {
                (a.range.0 - p) as usize
            } else {
                0
            },
            end: (a.range.1 - p) as usize,
        },
    }
}

/// The body of a slice from line `lines[0]` on, which starts at character
/// `p` and has the number `lineno`, with the annotations `anns` not yet
/// shown: each source line followed by the annotations shown under it.
pub open spec fn body_view<'a>(lines: Seq<Seq<char>>, anns: Seq<SourceAnnotation<'a>>, p: int, lineno: int) -> Seq<
    LineView,
>
    decreases lines.len(),
{
    if lines.len() == 0 {
        Seq::empty()
    } else {
        let n = lines[0].len() as int;
        seq![
            LineView::Source {
                lineno: Some(lineno as usize),
                inline_marks: line_marks(anns, p, n),
                line: SourceLineView::Content(lines[0]),
            },
        ] + line_current(anns, p, n).map_values(|a: SourceAnnotation<'a>| annotation_line_view(a, p))
            + body_view(lines.drop_first(), line_rest(anns, p, n), p + n + 1, lineno + 1)
    }
}

/// An empty source line.
pub open spec fn empty_line_view() -> LineView {
    LineView::Source { lineno: None, inline_marks: Seq::empty(), line: SourceLineView::Empty }
}

/// The first line of a slice's source is numbered `line_start`, or 1.
pub open spec fn first_lineno(slice: Slice) -> int {
    match slice.line_start {
        Some(l) => l as int,
        None => 1,
    }
}

/// The display list of a slice: its origin when it has one, an empty line,
/// the body, and another empty line.
pub open spec fn slice_view(slice: Slice) -> Seq<LineView> {
    (match slice.origin {
        Some(path) => seq![LineView::Origin { path: path@, pos: (slice.line_start, None) }],
        None => Seq::empty(),
    }) + seq![empty_line_view()] + body_view(text_lines(slice.source@), slice.annotations@, 0, first_lineno(slice))
        + seq![empty_line_view()]
}

/// The views of a list's lines.
pub open spec fn lines_view<'d>(body: Seq<DisplayLine<'d>>) -> Seq<LineView> {
    body.map_values(|l: DisplayLine<'d>| l@)
}

/// What `from_slice` needs: a source whose character count fits, line
/// numbers that fit, and annotations that do not end before they start.
pub open spec fn slice_fits(slice: Slice) -> bool {
    &&& bytes_of(slice.source).len() + 2 <= usize::MAX
    &&& first_lineno(slice) + text_lines(slice.source@).len() <= usize::MAX
    &&& forall|i: int| 0 <= i < slice.annotations@.len() ==> (#[trigger] slice.annotations@[i]).range.0
        <= slice.annotations@[i].range.1
}

/// The position shown in the origin line: the slice's first line number,
/// and no column.
pub fn get_header_pos(slice: &Slice) -> (res: (Option<usize>, Option<usize>))
    ensures
        res == (slice.line_start, None::<usize>),
{
    let line = slice.line_start;
    (line, None)
}

proof fn lemma_only_last_line_ends_at_eof(b: Seq<u8>, k: int)
    requires
        0 <= k < cursor_lines(b).len() - 1,
    ensures
        !(cursor_lines(b)[k].1 is Eof),
    decreases b.len(),
{
    let (l, e, r) = cursor_step(b);
    lemma_cursor_step(b);
    assert(cursor_lines(b) == seq![(l, e)] + cursor_lines(r));
    if k == 0 {
        if e is Eof {
            assert(r.len() == 0);
            assert(cursor_lines(r).len() == 0);
        }
    } else {
        lemma_only_last_line_ends_at_eof(r, k - 1);
        assert(cursor_lines(b)[k] == cursor_lines(r)[k - 1]);
    }
}

/// Sorts the annotations for a line that starts at character `p` and has
/// `n` characters: those shown under it, its marks, and those left over.
fn sort_annotations<'a>(anns: &Vec<SourceAnnotation<'a>>, p: usize, n: usize) -> (res: (
    Vec<SourceAnnotation<'a>>,
    Vec<DisplayMark>,
    Vec<SourceAnnotation<'a>>,
))
    requires
        p + n <= usize::MAX,
    ensures
        res.0@ == line_current(anns@, p as int, n as int),
        res.1@ == line_marks(anns@, p as int, n as int),
        res.2@ == line_rest(anns@, p as int, n as int),
{
    let mut current: Vec<SourceAnnotation<'a>> = Vec::new();
    let mut marks: Vec<DisplayMark> = Vec::new();
    let mut rest: Vec<SourceAnnotation<'a>> = Vec::new();
    let end = p + n;
    let mut j: usize = 0;
    while j < anns.len()
        invariant
            j <= anns@.len(),
            end == p + n,
            current@ == line_current(anns@.take(j as int), p as int, n as int),
            marks@ == line_marks(anns@.take(j as int), p as int, n as int),
            rest@ == line_rest(anns@.take(j as int), p as int, n as int),
        decreases anns.len() - j,
    {
        let ann = anns[j];
        assert(anns@.take(j + 1).drop_last() =~= anns@.take(j as int));
        assert(anns@.take(j + 1).last() == ann);
        if ann.range.0 >= p && ann.range.1 <= end {
            current.push(ann);
        } else if ann.range.0 >= p && ann.range.0 <= end {
            marks.push(DisplayMark { mark_type: DisplayMarkType::AnnotationStart, annotation_type: AnnotationType::Error });
            rest.push(ann);
        } else if ann.range.0 < p && ann.range.1 > end {
            marks.push(DisplayMark { mark_type: DisplayMarkType::AnnotationThrough, annotation_type: AnnotationType::Error });
            rest.push(ann);
        } else if ann.range.0 < p && ann.range.1 >= p && ann.range.1 <= end {
            marks.push(DisplayMark { mark_type: DisplayMarkType::AnnotationThrough, annotation_type: AnnotationType::Error });
            current.push(ann);
        } else {
            rest.push(ann);
        }
        assert(marks@ =~= line_marks(anns@.take(j + 1), p as int, n as int));
        j += 1;
    }
    assert(anns@.take(j as int) =~= anns@);
    (current, marks, rest)
}

/// Appends the line of each annotation shown under the line that starts at
/// character `p`.
fn push_annotation_lines<'d>(body: &mut Vec<DisplayLine<'d>>, current: &Vec<SourceAnnotation<'d>>, p: usize)
    requires
        forall|i: int|
            0 <= i < current@.len() ==> (#[trigger] current@[i]).range.0 <= current@[i].range.1 && p
                <= current@[i].range.1,
    ensures
        lines_view(final(body)@) == lines_view(old(body)@) + current@.map_values(
            |a: SourceAnnotation<'d>| annotation_line_view(a, p as int),
        ),
{
    let ghost start = lines_view(body@);
    let mut k: usize = 0;
    while k < current.len()
        invariant
            k <= current@.len(),
            forall|i: int|
                0 <= i < current@.len() ==> (#[trigger] current@[i]).range.0 <= current@[i].range.1 && p
                    <= current@[i].range.1,
            lines_view(body@) == start + current@.take(k as int).map_values(
                |a: SourceAnnotation<'d>| annotation_line_view(a, p as int),
            ),
        decreases current.len() - k,
    {
        let ann = current[k];
        assert(current@[k as int] == ann);
        let start_col = if ann.range.0 >= p {
            ann.range.0 - p
        } else {
            0
        };
        let mut inline_marks: Vec<DisplayMark> = Vec::new();
        if ann.range.0 < p {
            inline_marks.push(
                DisplayMark { mark_type: DisplayMarkType::AnnotationThrough, annotation_type: AnnotationType::Error },
            );
        }
        assert(inline_marks@ =~= if ann.range.0 < p {
            seq![error_mark(DisplayMarkType::AnnotationThrough)]
        } else {
            Seq::<DisplayMark>::empty()
        });
        let ghost before = body@;
        body.push(
            DisplayLine::Source {
                lineno: None,
                inline_marks,
                line: DisplaySourceLine::Annotation {
                    annotation: Annotation { annotation_type: AnnotationType::Error, id: None, label: ann.label },
                    range: Range { start: start_col, end: ann.range.1 - p },
                },
            },
        );
        assert(body@ == before.push(body@.last()));
        assert(body@.last()@ == annotation_line_view(ann, p as int));
        assert(lines_view(body@) =~= lines_view(before).push(annotation_line_view(ann, p as int)));
        assert(current@.take(k + 1).map_values(|a: SourceAnnotation<'d>| annotation_line_view(a, p as int))
            =~= current@.take(k as int).map_values(|a: SourceAnnotation<'d>| annotation_line_view(a, p as int)).push(
            annotation_line_view(ann, p as int),
        ));
        k += 1;
    }
    assert(current@.take(k as int) =~= current@);
}

/// The annotations kept or shown for a line keep their ranges ordered, and
/// those shown end at or after the line's start.
proof fn lemma_sorted_ranges<'a>(anns: Seq<SourceAnnotation<'a>>, p: int, n: int)
    requires
        forall|i: int| 0 <= i < anns.len() ==> (#[trigger] anns[i]).range.0 <= anns[i].range.1,
    ensures
        forall|i: int|
            0 <= i < line_current(anns, p, n).len() ==> (#[trigger] line_current(anns, p, n)[i]).range.0
                <= line_current(anns, p, n)[i].range.1 && p <= line_current(anns, p, n)[i].range.1,
        forall|i: int|
            0 <= i < line_rest(anns, p, n).len() ==> (#[trigger] line_rest(anns, p, n)[i]).range.0 <= line_rest(
                anns,
                p,
                n,
            )[i].range.1,
    decreases anns.len(),
{
    if anns.len() > 0 {
        let d = anns.drop_last();
        assert forall|i: int| 0 <= i < d.len() implies (#[trigger] d[i]).range.0 <= d[i].range.1 by {
            assert(d[i] == anns[i]);
        }
        lemma_sorted_ranges(d, p, n);
        assert(anns.last() == anns[anns.len() - 1]);
    }
}

impl<'d> DisplayList<'d> {
    /// The display list of a slice, as `slice_view` describes it.
    #[verifier::rlimit(40)]
    pub fn from_slice(slice: &Slice<'d>) -> (res: DisplayList<'d>)
        requires
            slice_fits(*slice),
        ensures
            lines_view(res.body@) == slice_view(*slice),
    {
        let mut body: Vec<DisplayLine<'d>> = Vec::new();
        match slice.origin {
            Some(path) => {
                body.push(DisplayLine::Raw(DisplayRawLine::Origin { path, pos: get_header_pos(slice) }));
            },
            None => {},
        }
        body.push(DisplayLine::Source { lineno: None, inline_marks: Vec::new(), line: DisplaySourceLine::Empty });
        let mut annotations: Vec<SourceAnnotation<'d>> = Vec::new();
        let mut a: usize = 0;
        while a < slice.annotations.len()
            invariant
                a <= slice.annotations@.len(),
                annotations@ == slice.annotations@.take(a as int),
            decreases slice.annotations.len() - a,
        {
            annotations.push(slice.annotations[a]);
            assert(slice.annotations@.take(a + 1) =~= slice.annotations@.take(a as int).push(slice.annotations@[a as int]));
            a += 1;
        }
        assert(slice.annotations@.take(a as int) =~= slice.annotations@);
        let lines = collect_lines(slice.source);
        proof {
            lemma_lines_view(slice.source, lines@);
        }
        let ghost ls = text_lines(slice.source@);
        let ghost b = bytes_of(slice.source);
        let ghost cl = cursor_lines(b);
        let ghost head = lines_view(body@);
        assert(head =~= (match slice.origin {
            Some(path) => seq![LineView::Origin { path: path@, pos: (slice.line_start, None) }],
            None => Seq::empty(),
        }) + seq![empty_line_view()]);
        assert(ls.skip(0) =~= ls);
        let mut line_start_pos: usize = 0;
        let mut i: usize = match slice.line_start {
            Some(l) => l,
            None => 1,
        };
        let mut k: usize = 0;
        while k < lines.len()
            invariant
                k <= lines@.len(),
                lines@.len() == ls.len(),
                cl.len() == ls.len(),
                ls == text_lines(slice.source@),
                cl == cursor_lines(b),
                b == bytes_of(slice.source),
                piece_texts(lines@) == ls,
                forall|j: int| 0 <= j < lines@.len() ==> bytes_of(#[trigger] lines@[j].0) == cl[j].0,
                lines_view(body@) + body_view(ls.skip(k as int), annotations@, line_start_pos as int, i as int)
                    + seq![empty_line_view()] == slice_view(*slice),
                i + (ls.len() - k) <= usize::MAX,
                k < ls.len() ==> line_start_pos <= line_offset(cl, k as int),
                b.len() + 2 <= usize::MAX,
                forall|j: int| 0 <= j < annotations@.len() ==> (#[trigger] annotations@[j]).range.0
                    <= annotations@[j].range.1,
            decreases lines.len() - k,
        {
            let line = lines[k].0;
            let line_length = str_chars(line).len();
            proof {
                lemma_cursor_line_at(b, k as int);
                lemma_empty_str(line);
                lemma_sorted_ranges(annotations@, line_start_pos as int, line_length as int);
                assert(line@ == ls[k as int]);
            }
            let ghost p = line_start_pos as int;
            let ghost n = line_length as int;
            let ghost old_anns = annotations@;
            let ghost before = lines_view(body@);
            let (current, inline_marks, rest) = sort_annotations(&annotations, line_start_pos, line_length);
            body.push(DisplayLine::Source { lineno: Some(i), inline_marks, line: DisplaySourceLine::Content { text: line } });
            let ghost with_line = lines_view(body@);
            assert(with_line =~= before.push(LineView::Source {
                lineno: Some(i),
                inline_marks: line_marks(old_anns, p, n),
                line: SourceLineView::Content(ls[k as int]),
            }));
            push_annotation_lines(&mut body, &current, line_start_pos);
            annotations = rest;
            proof {
                let rest_ls = ls.skip(k as int);
                assert(rest_ls[0] == ls[k as int]);
                assert(rest_ls.drop_first() =~= ls.skip(k + 1));
                assert(body_view(rest_ls, old_anns, p, i as int) == seq![
                    LineView::Source {
                        lineno: Some(i),
                        inline_marks: line_marks(old_anns, p, n),
                        line: SourceLineView::Content(ls[k as int]),
                    },
                ] + line_current(old_anns, p, n).map_values(|x: SourceAnnotation<'d>| annotation_line_view(x, p))
                    + body_view(ls.skip(k + 1), line_rest(old_anns, p, n), p + n + 1, i + 1));
                assert(lines_view(body@) + body_view(ls.skip(k + 1), annotations@, p + n + 1, i + 1) =~= before
                    + body_view(rest_ls, old_anns, p, i as int));
                if k + 1 < ls.len() {
                    lemma_only_last_line_ends_at_eof(b, k as int);
                }
            }
            line_start_pos = line_start_pos + line_length + 1;
            i = i + 1;
            k = k + 1;
        }
        assert(ls.skip(k as int) =~= Seq::<Seq<char>>::empty());
        body.push(DisplayLine::Source { lineno: None, inline_marks: Vec::new(), line: DisplaySourceLine::Empty });
        assert(lines_view(body@) =~= slice_view(*slice));
        DisplayList { body }
    }
}

} // verus!
