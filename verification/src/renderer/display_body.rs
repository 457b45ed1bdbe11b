//! Building the display lines of a snippet's body.
use vstd::prelude::*;
use vstd::string::StringSliceAdditionalSpecFns;

use crate::cursor_line::{
    collect_lines, cursor_lines, lemma_cursor_line_at, lemma_cursor_lines_total, lemma_line_count,
    lemma_line_offset_mono, lemma_newlines_concat, line_offset, EndLine,
};
use crate::input::Level;
use crate::message::{Annotation as SrcAnnotation, AnnotationModel, Snippet, SnippetModel};
use crate::renderer::display_list::{
    annotation_type_of, format_label, opt_bytes, zip_opt, DisplayHeaderType, DisplayRawLine, RawLineView, lines_view, Annotation, AnnotationView, DisplaySourceAnnotation, DisplayAnnotationPart, DisplayAnnotationType,
    DisplayLine, DisplaySet, DisplaySourceLine, DisplayMark, DisplayMarkType, DisplayTextStyle, FragmentView, LineView, Margin,
    SourceAnnotationView, SourceLineView,
};
use crate::text::{
    bytes_of, char_is_whitespace, char_width, chars_of, decimal_digits, decimal_len, is_boundary, is_whitespace,
    lemma_boundary_ends, lemma_boundary_in_slice, lemma_chars_of_str, lemma_prefix_chars_len, prefix_chars, str_chars,
    width_sum, find_byte, first_index_of, last_index_of, lemma_first_index_of, lemma_last_index_of,
    rfind_byte, split_after_ascii, split_at_ascii,
};

verus! {

/// Lines that carry an annotation, or the start of a multiline annotation,
/// are never folded away.
pub open spec fn is_highlighted(l: LineView) -> bool {
    match l {
        LineView::Source { annotations, inline_marks, .. } => annotations.len() != 0 || exists|k: int|
            0 <= k < inline_marks.len() && (#[trigger] inline_marks[k]).mark_type
                == DisplayMarkType::AnnotationStart,
        _ => false,
    }
}

/// The marks shown on a fold line: those of the context line above it, all
/// turned into marks that go through.
pub open spec fn fold_marks(ctx: LineView) -> Seq<DisplayMark> {
    match ctx {
        LineView::Source { inline_marks, .. } => inline_marks.map_values(
            |m: DisplayMark| DisplayMark { mark_type: DisplayMarkType::AnnotationThrough, ..m },
        ),
        _ => Seq::empty(),
    }
}

/// How many unhighlighted lines are shown around a fold.
pub open spec fn inner_context() -> int {
    1
}

/// Folding scans the lines, holding back unhighlighted lines (`pending`) until
/// the next highlighted line decides what becomes of them: leading ones are
/// dropped, runs of at most three are kept, longer runs keep one line at each
/// end with a fold line between them. Unhighlighted lines after the last
/// highlighted one are dropped.
pub open spec fn fold_step(state: (Seq<LineView>, Seq<LineView>), l: LineView) -> (
    Seq<LineView>,
    Seq<LineView>,
) {
    let (lines, pending) = state;
    if is_highlighted(l) {
        let pending = if lines.len() == 0 {
            Seq::empty()
        } else {
            pending
        };
        let n = pending.len();
        if n <= 2 * inner_context() + 1 {
            (lines + pending + seq![l], Seq::empty())
        } else {
            (
                lines + seq![
                    pending[0],
                    LineView::Fold { inline_marks: fold_marks(pending[0]) },
                    pending[n - 1],
                    l,
                ],
                Seq::empty(),
            )
        }
    } else {
        (lines, pending.push(l))
    }
}

pub open spec fn fold_scan(body: Seq<LineView>) -> (Seq<LineView>, Seq<LineView>)
    decreases body.len(),
{
    if body.len() == 0 {
        (Seq::empty(), Seq::empty())
    } else {
        fold_step(fold_scan(body.drop_last()), body.last())
    }
}

/// The lines that remain after folding.
pub open spec fn spec_fold_body(body: Seq<LineView>) -> Seq<LineView> {
    fold_scan(body).0
}

fn is_highlighted_line(line: &DisplayLine<'_>) -> (res: bool)
    ensures
        res == is_highlighted(line@),
{
    match line {
        DisplayLine::Source { annotations, inline_marks, .. } => {
            if annotations.len() != 0 {
                return true;
            }
            let mut k: usize = 0;
            while k < inline_marks.len()
                invariant
                    k <= inline_marks@.len(),
                    line@ matches LineView::Source { inline_marks: im, .. } && im == inline_marks@,
                    forall|j: int|
                        0 <= j < k ==> (#[trigger] inline_marks@[j]).mark_type
                            != DisplayMarkType::AnnotationStart,
                decreases inline_marks.len() - k,
            {
                if inline_marks[k].mark_type == DisplayMarkType::AnnotationStart {
                    assert(inline_marks@[k as int].mark_type == DisplayMarkType::AnnotationStart);
                    return true;
                }
                k += 1;
            }
            false
        },
        _ => false,
    }
}

fn through_marks(line: &DisplayLine<'_>) -> (res: Vec<DisplayMark>)
    ensures
        res@ == fold_marks(line@),
{
    let mut res: Vec<DisplayMark> = Vec::new();
    match line {
        DisplayLine::Source { inline_marks, .. } => {
            let mut k: usize = 0;
            while k < inline_marks.len()
                invariant
                    k <= inline_marks@.len(),
                    res@ == inline_marks@.take(k as int).map_values(
                        |m: DisplayMark|
                            DisplayMark { mark_type: DisplayMarkType::AnnotationThrough, ..m },
                    ),
                decreases inline_marks.len() - k,
            {
                let m = inline_marks[k];
                res.push(DisplayMark { mark_type: DisplayMarkType::AnnotationThrough, ..m });
                k += 1;
                assert(inline_marks@.take(k as int).drop_last() =~= inline_marks@.take(k - 1));
            }
            assert(inline_marks@.take(k as int) =~= inline_marks@);
        },
        _ => {},
    }
    res
}

/// Hides long runs of lines that carry no annotation.
pub fn fold_body<'a>(body: Vec<DisplayLine<'a>>) -> (res: Vec<DisplayLine<'a>>)
    ensures
        lines_view(res@) == spec_fold_body(lines_view(body@)),
{
    let ghost input = lines_view(body@);
    let mut rev: Vec<DisplayLine<'a>> = Vec::new();
    let mut body = body;
    while body.len() > 0
        invariant
            lines_view(body@) + lines_view(rev@).reverse() == input,
        decreases body.len(),
    {
        let ghost b0 = body@;
        let ghost r0 = rev@;
        let l = body.pop().unwrap();
        rev.push(l);
        assert(lines_view(rev@).reverse() =~= seq![l@] + lines_view(r0).reverse());
        assert(lines_view(b0) =~= lines_view(body@).push(l@));
    }
    assert(lines_view(rev@).reverse() =~= input);
    let mut lines: Vec<DisplayLine<'a>> = Vec::new();
    let mut pending: Vec<DisplayLine<'a>> = Vec::new();
    let ghost mut done: int = 0;
    while rev.len() > 0
        invariant
            0 <= done <= input.len(),
            lines_view(rev@).reverse() == input.skip(done),
            fold_scan(input.take(done)) == (lines_view(lines@), lines_view(pending@)),
        decreases rev.len(),
    {
        let ghost r0 = rev@;
        let line = rev.pop().unwrap();
        proof {
            assert(lines_view(r0).reverse() =~= seq![line@] + lines_view(rev@).reverse());
            assert(input.skip(done)[0] == line@);
            assert(input.take(done + 1).drop_last() =~= input.take(done));
            assert(input.take(done + 1).last() == input[done]);
            assert(input.skip(done + 1) =~= input.skip(done).drop_first());
        }
        let ghost lv = lines_view(lines@);
        let ghost pv = lines_view(pending@);
        if is_highlighted_line(&line) {
            if lines.len() == 0 {
                pending = Vec::new();
            }
            let n = pending.len();
            if n <= 3 {
                let ghost p1 = lines_view(pending@);
                lines.append(&mut pending);
                assert(lines_view(lines@) =~= lv + p1);
            } else {
                let last = pending.pop().unwrap();
                let first = pending.remove(0);
                let marks = through_marks(&first);
                let ghost pv2 = if lv.len() == 0 { Seq::<LineView>::empty() } else { pv };
                assert(first@ == pv2[0]);
                assert(last@ == pv2[n - 1]);
                lines.push(first);
                lines.push(DisplayLine::Fold { inline_marks: marks });
                lines.push(last);
                pending = Vec::new();
            }
            lines.push(line);
            proof {
                assert(lines_view(lines@) =~= fold_step((lv, pv), line@).0);
                assert(lines_view(pending@) =~= fold_step((lv, pv), line@).1);
            }
        } else {
            pending.push(line);
            proof {
                assert(lines_view(pending@) =~= pv.push(line@));
            }
        }
        proof {
            done = done + 1;
        }
    }
    assert(input.take(done) =~= input);
    lines
}

} // verus!

verus! {

/// Where an annotation stands relative to one source line.
#[derive(Debug, Clone, Copy, PartialEq, Eq, Structural)]
pub enum Placement {
    /// It starts after this line.
    After,
    /// It lies within this line (line ending included).
    Single,
    /// A multiline annotation starting on this line.
    Start,
    /// A multiline annotation going through this line.
    Through,
    /// A multiline annotation ending on this line.
    End,
    /// None of the above.
    Other,
}

pub open spec fn sat_sub(a: int, b: int) -> int {
    if a > b {
        a - b
    } else {
        0
    }
}

pub open spec fn at_least_one(n: int) -> int {
    if n > 1 {
        n
    } else {
        1
    }
}

/// The placement of a byte range `start..end` relative to a line that spans
/// `ls..le` and is followed by `eol` bytes of line ending. One position past
/// the end of the line may be highlighted.
pub open spec fn placement(start: int, end: int, ls: int, le: int, eol: int) -> Placement {
    if start > le + eol {
        Placement::After
    } else if start >= ls && end <= le + at_least_one(eol) {
        Placement::Single
    } else if start >= ls && start <= le + sat_sub(eol, 1) && end > le {
        Placement::Start
    } else if start < ls && end > le + at_least_one(eol) {
        Placement::Through
    } else if start < ls && end >= ls && end <= le + at_least_one(eol) {
        Placement::End
    } else {
        Placement::Other
    }
}

pub open spec fn place_at(a: AnnotationModel, lines: Seq<(Seq<u8>, EndLine)>, i: int) -> Placement {
    placement(
        a.start as int,
        a.end as int,
        line_offset(lines, i),
        line_offset(lines, i) + lines[i].0.len(),
        lines[i].1.spec_len() as int,
    )
}

/// An annotation is done with once it has been shown whole or has ended.
pub open spec fn consumes(p: Placement) -> bool {
    p == Placement::Single || p == Placement::End
}

/// The annotation is still pending when line `i` is reached.
pub open spec fn live_at(a: AnnotationModel, lines: Seq<(Seq<u8>, EndLine)>, i: int) -> bool {
    forall|j: int| 0 <= j < i ==> !consumes(#[trigger] place_at(a, lines, j))
}

/// Display column of byte offset `k` into a line (clipped to the line).
pub open spec fn col(line: Seq<u8>, k: int) -> nat {
    width_sum(
        chars_of(
            line.take(
                if k < line.len() {
                    k
                } else {
                    line.len() as int
                },
            ),
        ),
        0,
    )
}

/// The type shown inside an annotation's label: errors and warnings show none.
pub open spec fn inner_type(level: Level) -> DisplayAnnotationType {
    match level {
        Level::Error => DisplayAnnotationType::Untyped,
        Level::Warning => DisplayAnnotationType::Untyped,
        _ => annotation_type_of(level),
    }
}

pub open spec fn label_views(label: Option<Seq<u8>>) -> Seq<FragmentView> {
    match label {
        Some(l) => seq![FragmentView { content: l, style: DisplayTextStyle::Regular }],
        None => Seq::empty(),
    }
}

/// The columns underlined for an annotation on line `i`, if it shows there.
pub open spec fn ann_range(a: AnnotationModel, lines: Seq<(Seq<u8>, EndLine)>, i: int) -> Option<
    (nat, nat),
> {
    let line = lines[i].0;
    let ls = line_offset(lines, i);
    let le = ls + line.len();
    let eol = lines[i].1.spec_len() as int;
    let start = a.start as int;
    let end = a.end as int;
    match place_at(a, lines, i) {
        Placement::Single => {
            let s = col(line, start - ls);
            let e = col(line, end - ls);
            Some((s, if s == e { e + 1 } else { e }))
        },
        Placement::Start => if start - ls == 0 {
            None
        } else {
            Some((col(line, start - ls), col(line, start - ls) + 1))
        },
        Placement::End => {
            let m = sat_sub(col(line, end - ls) as int, 1) as nat;
            if end > le || (end == le + 1 && eol == 0) {
                Some((m + 1, m + 2))
            } else {
                Some((m, m + 1))
            }
        },
        _ => None,
    }
}

pub open spec fn ann_part(p: Placement) -> DisplayAnnotationPart {
    match p {
        Placement::Start => DisplayAnnotationPart::MultilineStart,
        Placement::End => DisplayAnnotationPart::MultilineEnd,
        _ => DisplayAnnotationPart::Standalone,
    }
}

/// The annotation shown under line `i` for `a`, if any.
pub open spec fn ann_view(a: AnnotationModel, lines: Seq<(Seq<u8>, EndLine)>, i: int) -> Option<
    SourceAnnotationView,
> {
    match ann_range(a, lines, i) {
        Some(r) => Some(
            SourceAnnotationView {
                annotation: AnnotationView {
                    annotation_type: inner_type(a.level),
                    id: None,
                    label: if place_at(a, lines, i) == Placement::Start {
                        Seq::empty()
                    } else {
                        label_views(a.label)
                    },
                },
                range: (r.0 as usize, r.1 as usize),
                annotation_type: annotation_type_of(a.level),
                annotation_part: ann_part(place_at(a, lines, i)),
            },
        ),
        None => None,
    }
}

/// The inline mark shown on line `i` for `a`, if any.
pub open spec fn mark_view(a: AnnotationModel, lines: Seq<(Seq<u8>, EndLine)>, i: int) -> Option<
    DisplayMark,
> {
    match place_at(a, lines, i) {
        Placement::Start => if a.start as int == line_offset(lines, i) {
            Some(
                DisplayMark {
                    mark_type: DisplayMarkType::AnnotationStart,
                    annotation_type: annotation_type_of(a.level),
                },
            )
        } else {
            None
        },
        Placement::Through | Placement::End => Some(
            DisplayMark {
                mark_type: DisplayMarkType::AnnotationThrough,
                annotation_type: annotation_type_of(a.level),
            },
        ),
        _ => None,
    }
}

/// The annotations of line `i`, in the order of `anns`.
pub open spec fn line_anns(anns: Seq<AnnotationModel>, lines: Seq<(Seq<u8>, EndLine)>, i: int) -> Seq<
    SourceAnnotationView,
>
    decreases anns.len(),
{
    if anns.len() == 0 {
        Seq::empty()
    } else {
        let rest = line_anns(anns.drop_last(), lines, i);
        let a = anns.last();
        if live_at(a, lines, i) && ann_view(a, lines, i) is Some {
            rest.push(ann_view(a, lines, i).unwrap())
        } else {
            rest
        }
    }
}

/// The inline marks of line `i`, in the order of `anns`.
pub open spec fn line_marks(anns: Seq<AnnotationModel>, lines: Seq<(Seq<u8>, EndLine)>, i: int) -> Seq<
    DisplayMark,
>
    decreases anns.len(),
{
    if anns.len() == 0 {
        Seq::empty()
    } else {
        let rest = line_marks(anns.drop_last(), lines, i);
        let a = anns.last();
        if live_at(a, lines, i) && mark_view(a, lines, i) is Some {
            rest.push(mark_view(a, lines, i).unwrap())
        } else {
            rest
        }
    }
}

pub open spec fn source_lines(s: Seq<u8>) -> Seq<(Seq<u8>, EndLine)> {
    cursor_lines(s)
}

/// Source line `i` of a snippet, numbered from the snippet's first line.
pub open spec fn body_line(snippet: SnippetModel, i: int) -> LineView {
    let lines = source_lines(snippet.source);
    let ls = line_offset(lines, i);
    LineView::Source {
        lineno: Some((snippet.line_start + i) as usize),
        inline_marks: line_marks(snippet.annotations, lines, i),
        line: SourceLineView::Content {
            text: lines[i].0,
            range: (ls as usize, (ls + lines[i].0.len()) as usize),
            end_line: lines[i].1,
        },
        annotations: line_anns(snippet.annotations, lines, i),
    }
}

/// One display line per source line, before folding.
pub open spec fn raw_body(snippet: SnippetModel) -> Seq<LineView> {
    Seq::new(source_lines(snippet.source).len(), |i: int| body_line(snippet, i))
}

pub open spec fn empty_source_line() -> LineView {
    LineView::Source {
        lineno: None,
        inline_marks: Seq::empty(),
        line: SourceLineView::Empty,
        annotations: Seq::empty(),
    }
}

/// The lines of a snippet's body: folded if asked, with an empty line above
/// when a header is needed and an empty line below when a footer follows or
/// the body ends in a source line.
pub open spec fn spec_body_lines(snippet: SnippetModel, need_empty_header: bool, has_footer: bool) -> Seq<
    LineView,
> {
    let b0 = raw_body(snippet);
    let b1 = if snippet.fold {
        spec_fold_body(b0)
    } else {
        b0
    };
    let b2 = if need_empty_header {
        seq![empty_source_line()] + b1
    } else {
        b1
    };
    if has_footer || (b2.len() > 0 && b2.last() is Source) {
        b2.push(empty_source_line())
    } else {
        b2
    }
}

/// Running widths gathered while building the body.
pub struct BodyMargins {
    pub ws: int,
    pub sl: int,
    pub sr: int,
    pub lr: int,
    pub mll: int,
}

pub open spec fn min_int(a: int, b: int) -> int {
    if a < b {
        a
    } else {
        b
    }
}

pub open spec fn max_int(a: int, b: int) -> int {
    if a > b {
        a
    } else {
        b
    }
}

/// Room a label takes to the right of its underline.
pub open spec fn label_right(a: AnnotationModel) -> int {
    match a.label {
        Some(l) => l.len() + 1int,
        None => 0,
    }
}

pub open spec fn ann_margins(
    m: BodyMargins,
    anns: Seq<AnnotationModel>,
    lines: Seq<(Seq<u8>, EndLine)>,
    i: int,
) -> BodyMargins
    decreases anns.len(),
{
    if anns.len() == 0 {
        m
    } else {
        let m2 = ann_margins(m, anns.drop_last(), lines, i);
        let a = anns.last();
        if live_at(a, lines, i) && ann_range(a, lines, i) is Some {
            let r = ann_range(a, lines, i).unwrap();
            BodyMargins {
                sl: min_int(m2.sl, r.0 as int),
                sr: max_int(m2.sr, r.1 as int),
                lr: max_int(m2.lr, r.1 + label_right(a)),
                ..m2
            }
        } else {
            m2
        }
    }
}

/// Width of the leading whitespace of a line; a tab counts four.
pub open spec fn leading_ws(cs: Seq<char>) -> int
    decreases cs.len(),
{
    if cs.len() == 0 || !char_is_whitespace(cs[0]) {
        0
    } else {
        (if cs[0] == '\t' {
            4int
        } else {
            1int
        }) + leading_ws(cs.drop_first())
    }
}

pub open spec fn has_non_ws(cs: Seq<char>) -> bool {
    exists|k: int| 0 <= k < cs.len() && !char_is_whitespace(#[trigger] cs[k])
}

pub open spec fn line_margins(m: BodyMargins, snippet: SnippetModel, i: int) -> BodyMargins {
    let lines = source_lines(snippet.source);
    let cs = chars_of(lines[i].0);
    ann_margins(
        BodyMargins {
            ws: if has_non_ws(cs) {
                min_int(m.ws, leading_ws(cs))
            } else {
                m.ws
            },
            mll: max_int(m.mll, lines[i].0.len() as int),
            ..m
        },
        snippet.annotations,
        lines,
        i,
    )
}

pub open spec fn initial_margins() -> BodyMargins {
    BodyMargins { ws: usize::MAX as int, sl: usize::MAX as int, sr: 0, lr: 0, mll: 0 }
}

/// The widths gathered over the first `n` lines.
pub open spec fn margins_upto(snippet: SnippetModel, n: int) -> BodyMargins
    decreases n,
{
    if n <= 0 {
        initial_margins()
    } else {
        line_margins(margins_upto(snippet, n - 1), snippet, n - 1)
    }
}

/// The margin of a snippet's body.
pub open spec fn spec_body_margin(snippet: SnippetModel, term_width: usize, anonymized: bool) -> Margin {
    let n = source_lines(snippet.source).len() as int;
    let m = margins_upto(snippet, n);
    let num_len = if anonymized {
        2
    } else {
        decimal_len((snippet.line_start + n) as nat) as int
    };
    Margin {
        whitespace_left: m.ws as usize,
        span_left: if m.sl == usize::MAX as int {
            0
        } else {
            m.sl as usize
        },
        span_right: m.sr as usize,
        label_right: m.lr as usize,
        column_width: sat_sub(term_width as int, 3 + num_len) as usize,
        max_line_len: m.mll as usize,
    }
}

/// A reversed range (one that ends before it starts) that is shown whole
/// on a line does not end before that line starts, which would take a
/// negative offset into the line.
pub open spec fn ends_within_its_line(a: AnnotationModel, lines: Seq<(Seq<u8>, EndLine)>) -> bool {
    forall|i: int|
        0 <= i < lines.len() && live_at(a, lines, i) && #[trigger] place_at(a, lines, i) == Placement::Single
            ==> a.end >= line_offset(lines, i)
}

/// What `format_body` needs of a snippet: annotations end at most one past
/// the source, cut the source only between characters, and, where shown
/// whole on a line, do not end before the line starts; sizes leave room for
/// the arithmetic. Reversed ranges are accepted otherwise.
pub open spec fn body_requires(snippet: SnippetModel) -> bool {
    let len = snippet.source.len();
    &&& len <= usize::MAX / 8
    &&& snippet.line_start + source_lines(snippet.source).len() <= usize::MAX
    &&& forall|k: int|
        #![trigger snippet.annotations[k]]
        0 <= k < snippet.annotations.len() ==> {
            let a = snippet.annotations[k];
            &&& ends_within_its_line(a, source_lines(snippet.source))
            &&& a.end <= len + 1
            &&& (a.start <= len ==> vstd::utf8::is_char_boundary(snippet.source, a.start as int))
            &&& (a.end <= len ==> vstd::utf8::is_char_boundary(snippet.source, a.end as int))
            &&& (a.label matches Some(l) ==> l.len() <= usize::MAX / 8)
        }
}

} // verus!

verus! {

proof fn lemma_live_step(a: AnnotationModel, lines: Seq<(Seq<u8>, EndLine)>, i: int)
    requires
        0 <= i,
    ensures
        live_at(a, lines, i + 1) == (live_at(a, lines, i) && !consumes(place_at(a, lines, i))),
{
    if live_at(a, lines, i) && !consumes(place_at(a, lines, i)) {
        assert forall|j: int| 0 <= j < i + 1 implies !consumes(#[trigger] place_at(a, lines, j)) by {
            if j < i {
                assert(!consumes(place_at(a, lines, j)));
            }
        }
    }
    if live_at(a, lines, i + 1) {
        assert forall|j: int| 0 <= j < i implies !consumes(#[trigger] place_at(a, lines, j)) by {
            assert(0 <= j < i + 1);
        }
        assert(!consumes(place_at(a, lines, i)));
    }
}

/// A column position computed for line `i` of `src` cuts that line only
/// between characters.
proof fn lemma_col_boundary(src: &str, line: &str, i: int, x: int)
    requires
        0 <= i < source_lines(bytes_of(src)).len(),
        bytes_of(line) == source_lines(bytes_of(src))[i].0,
        x >= line_offset(source_lines(bytes_of(src)), i),
        x <= bytes_of(src).len() ==> is_boundary(src, x),
    ensures
        is_boundary(
            line,
            if x - line_offset(source_lines(bytes_of(src)), i) < bytes_of(line).len() {
                x - line_offset(source_lines(bytes_of(src)), i)
            } else {
                bytes_of(line).len() as int
            },
        ),
{
    let lines = source_lines(bytes_of(src));
    lemma_cursor_line_at(bytes_of(src), i);
    let ls = line_offset(lines, i);
    lemma_chars_of_str(line);
    if x - ls < bytes_of(line).len() {
        lemma_boundary_in_slice(src, line, ls, x - ls);
    } else {
        lemma_boundary_ends(line);
    }
}

/// The display column of byte offset `x` into `line`.
fn col_at(line: &str, x: usize) -> (c: usize)
    requires
        bytes_of(line).len() <= usize::MAX / 8,
        is_boundary(
            line,
            if x < bytes_of(line).len() {
                x as int
            } else {
                bytes_of(line).len() as int
            },
        ),
    ensures
        c == col(bytes_of(line), x as int),
        c <= 3 * bytes_of(line).len(),
{
    let n = line.len();
    let k = if x < n {
        x
    } else {
        n
    };
    proof {
        lemma_prefix_chars_len(line, k as int);
    }
    let cs = prefix_chars(line, k);
    let w = chars_width_bounded(&cs);
    w
}

/// Sum of display widths, control characters counting zero.
fn chars_width_bounded(cs: &Vec<char>) -> (w: usize)
    requires
        cs@.len() <= usize::MAX / 8,
    ensures
        w == width_sum(cs@, 0),
        w <= 3 * cs@.len(),
{
    let mut w: usize = 0;
    let mut i: usize = 0;
    while i < cs.len()
        invariant
            i <= cs@.len(),
            cs@.len() <= usize::MAX / 8,
            w == width_sum(cs@.take(i as int), 0),
            w <= 3 * i,
        decreases cs.len() - i,
    {
        let c = cs[i];
        let cw = match char_width(c) {
            Some(n) => n,
            None => 0,
        };
        assert(cs@.take(i + 1).drop_last() =~= cs@.take(i as int));
        w = w + cw;
        i += 1;
    }
    assert(cs@.take(i as int) =~= cs@);
    w
}

/// Width of the leading whitespace of a line, and whether the line holds
/// anything but whitespace.
fn line_leading(line: &str) -> (res: (usize, bool))
    requires
        bytes_of(line).len() <= usize::MAX / 8,
    ensures
        res.0 == leading_ws(chars_of(bytes_of(line))),
        res.1 == has_non_ws(chars_of(bytes_of(line))),
{
    proof {
        lemma_boundary_ends(line);
    }
    let cs = str_chars(line);
    let ghost s = cs@;
    assert(s.skip(0) =~= s);
    let mut lw: usize = 0;
    let mut k: usize = 0;
    let mut in_prefix = true;
    let mut non_ws = false;
    while k < cs.len()
        invariant
            s == cs@,
            k <= s.len(),
            s.len() <= usize::MAX / 8,
            lw <= 4 * k,
            in_prefix ==> lw + leading_ws(s.skip(k as int)) == leading_ws(s),
            !in_prefix ==> lw == leading_ws(s),
            non_ws == (exists|j: int| 0 <= j < k && !char_is_whitespace(#[trigger] s[j])),
            in_prefix == !non_ws,
        decreases cs.len() - k,
    {
        let c = cs[k];
        let w = is_whitespace(c);
        proof {
            assert(s.skip(k as int)[0] == c);
            assert(s.skip(k as int).drop_first() =~= s.skip(k + 1));
        }
        if w {
            if in_prefix {
                lw = lw + if c == '\t' {
                    4
                } else {
                    1
                };
            }
        } else {
            non_ws = true;
            in_prefix = false;
            assert(!char_is_whitespace(s[k as int]));
        }
        k += 1;
    }
    assert(s.skip(k as int) =~= Seq::<char>::empty());
    (lw, non_ws)
}

/// The placement of an annotation's range relative to a line.
fn place(start: usize, end: usize, ls: usize, le: usize, eol: usize) -> (p: Placement)
    requires
        le + eol + 2 <= usize::MAX,
        ls <= le,
    ensures
        p == placement(start as int, end as int, ls as int, le as int, eol as int),
{
    let one = if eol > 1 {
        eol
    } else {
        1
    };
    let eol_m1 = if eol > 0 {
        eol - 1
    } else {
        0
    };
    if start > le + eol {
        Placement::After
    } else if start >= ls && end <= le + one {
        Placement::Single
    } else if start >= ls && start <= le + eol_m1 && end > le {
        Placement::Start
    } else if start < ls && end > le + one {
        Placement::Through
    } else if start < ls && end >= ls && end <= le + one {
        Placement::End
    } else {
        Placement::Other
    }
}

} // verus!

verus! {

pub open spec fn src_view<'a>(d: Seq<DisplaySourceAnnotation<'a>>) -> Seq<SourceAnnotationView> {
    d.map_values(|a: DisplaySourceAnnotation<'a>| a@)
}

pub open spec fn col_bound() -> int {
    3 * (usize::MAX / 8) + 2
}

pub open spec fn label_bound() -> int {
    4 * (usize::MAX / 8) + 3
}

/// What a pending annotation contributes to line `i`: an underline, an
/// inline mark, and whether it is done with after this line.
fn annotation_on_line<'a>(
    snippet: &Snippet<'a>,
    a: &SrcAnnotation<'a>,
    line: &'a str,
    i: usize,
    ls: usize,
    le: usize,
    eol: usize,
) -> (res: (Option<DisplaySourceAnnotation<'a>>, Option<DisplayMark>, bool))
    requires
        body_requires(snippet@),
        snippet@.annotations.contains(a@),
        i < source_lines(snippet@.source).len(),
        live_at(a@, source_lines(snippet@.source), i as int),
        bytes_of(line) == source_lines(snippet@.source)[i as int].0,
        ls == line_offset(source_lines(snippet@.source), i as int),
        le == ls + bytes_of(line).len(),
        eol == source_lines(snippet@.source)[i as int].1.spec_len(),
        le + eol <= bytes_of(snippet.source).len(),
    ensures
        match res.0 {
            Some(d) => ann_view(a@, source_lines(snippet@.source), i as int) == Some(d@)
                && ann_range(a@, source_lines(snippet@.source), i as int) == Some(
                (d.range.0 as nat, d.range.1 as nat),
            ) && d.range.1 <= col_bound(),
            None => ann_view(a@, source_lines(snippet@.source), i as int) is None && ann_range(
                a@,
                source_lines(snippet@.source),
                i as int,
            ) is None,
        },
        res.1 == mark_view(a@, source_lines(snippet@.source), i as int),
        res.2 == consumes(place_at(a@, source_lines(snippet@.source), i as int)),
{
    let ghost lines = source_lines(snippet@.source);
    proof {
        let q = choose|q: int| 0 <= q < snippet@.annotations.len() && snippet@.annotations[q] == a@;
        assert(snippet@.annotations[q] == a@);
    }
    let start = a.range.start;
    let end = a.range.end;
    let p = place(start, end, ls, le, eol);
    match p {
        Placement::Single => {
            proof {
                let q = choose|q: int| 0 <= q < snippet@.annotations.len() && snippet@.annotations[q] == a@;
                assert(ends_within_its_line(snippet@.annotations[q], lines));
                assert(place_at(a@, lines, i as int) == Placement::Single);
                assert(end >= ls);
                lemma_col_boundary(snippet.source, line, i as int, start as int);
                lemma_col_boundary(snippet.source, line, i as int, end as int);
            }
            let s = col_at(line, start - ls);
            let e0 = col_at(line, end - ls);
            let e = if s == e0 {
                e0 + 1
            } else {
                e0
            };
            let d = DisplaySourceAnnotation {
                annotation: Annotation {
                    annotation_type: annotation_inner_type(a.level),
                    id: None,
                    label: format_label(a.label, None),
                },
                range: (s, e),
                annotation_type: DisplayAnnotationType::from_level(a.level),
                annotation_part: DisplayAnnotationPart::Standalone,
            };
            assert(d@.annotation.label =~= label_views(a@.label));
            (Some(d), None, true)
        },
        Placement::Start => {
            if start - ls == 0 {
                (
                    None,
                    Some(
                        DisplayMark {
                            mark_type: DisplayMarkType::AnnotationStart,
                            annotation_type: DisplayAnnotationType::from_level(a.level),
                        },
                    ),
                    false,
                )
            } else {
                proof {
                    lemma_col_boundary(snippet.source, line, i as int, start as int);
                }
                let s = col_at(line, start - ls);
                let d = DisplaySourceAnnotation {
                    annotation: Annotation {
                        annotation_type: annotation_inner_type(a.level),
                        id: None,
                        label: Vec::new(),
                    },
                    range: (s, s + 1),
                    annotation_type: DisplayAnnotationType::from_level(a.level),
                    annotation_part: DisplayAnnotationPart::MultilineStart,
                };
                assert(d@.annotation.label =~= Seq::<FragmentView>::empty());
                (Some(d), None, false)
            }
        },
        Placement::Through => (
            None,
            Some(
                DisplayMark {
                    mark_type: DisplayMarkType::AnnotationThrough,
                    annotation_type: DisplayAnnotationType::from_level(a.level),
                },
            ),
            false,
        ),
        Placement::End => {
            proof {
                lemma_col_boundary(snippet.source, line, i as int, end as int);
            }
            let c = col_at(line, end - ls);
            let m = if c > 0 {
                c - 1
            } else {
                0
            };
            let (s, e) = if end > le || (end == le + 1 && eol == 0) {
                (m + 1, m + 2)
            } else {
                (m, m + 1)
            };
            let d = DisplaySourceAnnotation {
                annotation: Annotation {
                    annotation_type: annotation_inner_type(a.level),
                    id: None,
                    label: format_label(a.label, None),
                },
                range: (s, e),
                annotation_type: DisplayAnnotationType::from_level(a.level),
                annotation_part: DisplayAnnotationPart::MultilineEnd,
            };
            assert(d@.annotation.label =~= label_views(a@.label));
            (
                Some(d),
                Some(
                    DisplayMark {
                        mark_type: DisplayMarkType::AnnotationThrough,
                        annotation_type: DisplayAnnotationType::from_level(a.level),
                    },
                ),
                true,
            )
        },
        _ => (None, None, false),
    }
}

/// The annotations and inline marks of line `i`, updating which annotations
/// are still pending and the span margins.
fn annotate_line<'a>(
    snippet: &Snippet<'a>,
    live: &mut Vec<bool>,
    line: &'a str,
    i: usize,
    ls: usize,
    eol: usize,
    sl: &mut usize,
    sr: &mut usize,
    lr: &mut usize,
) -> (res: (Vec<DisplaySourceAnnotation<'a>>, Vec<DisplayMark>))
    requires
        body_requires(snippet@),
        i < source_lines(snippet@.source).len(),
        bytes_of(line) == source_lines(snippet@.source)[i as int].0,
        ls == line_offset(source_lines(snippet@.source), i as int),
        eol == source_lines(snippet@.source)[i as int].1.spec_len(),
        old(live)@.len() == snippet@.annotations.len(),
        forall|q: int|
            0 <= q < old(live)@.len() ==> old(live)@[q] == live_at(
                #[trigger] snippet@.annotations[q],
                source_lines(snippet@.source),
                i as int,
            ),
        *old(sr) <= col_bound(),
        *old(lr) <= label_bound(),
    ensures
        final(live)@.len() == snippet@.annotations.len(),
        forall|q: int|
            0 <= q < final(live)@.len() ==> final(live)@[q] == live_at(
                #[trigger] snippet@.annotations[q],
                source_lines(snippet@.source),
                i + 1,
            ),
        src_view(res.0@) == line_anns(snippet@.annotations, source_lines(snippet@.source), i as int),
        res.1@ == line_marks(snippet@.annotations, source_lines(snippet@.source), i as int),
        ({
            let m = ann_margins(
                BodyMargins { ws: 0, sl: *old(sl) as int, sr: *old(sr) as int, lr: *old(lr) as int, mll: 0 },
                snippet@.annotations,
                source_lines(snippet@.source),
                i as int,
            );
            &&& *final(sl) == m.sl
            &&& *final(sr) == m.sr
            &&& *final(lr) == m.lr
        }),
        *final(sr) <= col_bound(),
        *final(lr) <= label_bound(),
{
    let ghost lines = source_lines(snippet@.source);
    let ghost anns = snippet@.annotations;
    let ghost m0 = BodyMargins { ws: 0, sl: *sl as int, sr: *sr as int, lr: *lr as int, mll: 0 };
    proof {
        lemma_cursor_line_at(bytes_of(snippet.source), i as int);
    }
    let le = ls + line.len();
    let mut dsas: Vec<DisplaySourceAnnotation<'a>> = Vec::new();
    let mut marks: Vec<DisplayMark> = Vec::new();
    let mut k: usize = 0;
    assert(anns.take(0) =~= Seq::<AnnotationModel>::empty());
    while k < snippet.annotations.len()
        invariant
            body_requires(snippet@),
            lines == source_lines(snippet@.source),
            anns == snippet@.annotations,
            i < lines.len(),
            bytes_of(line) == lines[i as int].0,
            ls == line_offset(lines, i as int),
            le == ls + bytes_of(line).len(),
            eol == lines[i as int].1.spec_len(),
            le + eol <= bytes_of(snippet.source).len(),
            k <= anns.len(),
            live@.len() == anns.len(),
            forall|q: int|
                0 <= q < k ==> live@[q] == live_at(#[trigger] anns[q], lines, i + 1),
            forall|q: int|
                k <= q < anns.len() ==> live@[q] == live_at(#[trigger] anns[q], lines, i as int),
            src_view(dsas@) == line_anns(anns.take(k as int), lines, i as int),
            marks@ == line_marks(anns.take(k as int), lines, i as int),
            ({
                let m = ann_margins(m0, anns.take(k as int), lines, i as int);
                &&& *sl == m.sl
                &&& *sr == m.sr
                &&& *lr == m.lr
            }),
            *sr <= col_bound(),
            *lr <= label_bound(),
        decreases anns.len() - k,
    {
        let ghost a_g = anns[k as int];
        assert(snippet.annotations@[k as int]@ == a_g);
        assert(anns.take(k + 1).drop_last() =~= anns.take(k as int));
        assert(anns.take(k + 1).last() == anns[k as int]);
        let a = &snippet.annotations[k];
        proof {
            lemma_live_step(a_g, lines, i as int);
            assert(anns.contains(a_g));
        }
        if live[k] {
            let lab_right: usize = match a.label {
                Some(l) => l.len() + 1,
                None => 0,
            };
            let (d, m, consumed) = annotation_on_line(snippet, a, line, i, ls, le, eol);
            if let Some(d) = d {
                let (s, e) = d.range;
                if s < *sl {
                    *sl = s;
                }
                if e > *sr {
                    *sr = e;
                }
                if e + lab_right > *lr {
                    *lr = e + lab_right;
                }
                dsas.push(d);
            }
            if let Some(m) = m {
                marks.push(m);
            }
            if consumed {
                live.set(k, false);
            }
        }
        proof {
            assert(src_view(dsas@) =~= line_anns(anns.take(k + 1), lines, i as int));
            assert(marks@ =~= line_marks(anns.take(k + 1), lines, i as int));
        }
        k += 1;
    }
    assert(anns.take(k as int) =~= anns);
    (dsas, marks)
}

/// The type shown inside an annotation's label.
fn annotation_inner_type(level: Level) -> (t: DisplayAnnotationType)
    ensures
        t == inner_type(level),
{
    match level {
        Level::Error => DisplayAnnotationType::Untyped,
        Level::Warning => DisplayAnnotationType::Untyped,
        _ => DisplayAnnotationType::from_level(level),
    }
}

} // verus!

verus! {

proof fn lemma_ann_margins_fields(
    m1: BodyMargins,
    m2: BodyMargins,
    anns: Seq<AnnotationModel>,
    lines: Seq<(Seq<u8>, EndLine)>,
    i: int,
)
    requires
        m1.sl == m2.sl,
        m1.sr == m2.sr,
        m1.lr == m2.lr,
    ensures
        ann_margins(m1, anns, lines, i).sl == ann_margins(m2, anns, lines, i).sl,
        ann_margins(m1, anns, lines, i).sr == ann_margins(m2, anns, lines, i).sr,
        ann_margins(m1, anns, lines, i).lr == ann_margins(m2, anns, lines, i).lr,
        ann_margins(m1, anns, lines, i).ws == m1.ws,
        ann_margins(m1, anns, lines, i).mll == m1.mll,
    decreases anns.len(),
{
    if anns.len() > 0 {
        lemma_ann_margins_fields(m1, m2, anns.drop_last(), lines, i);
    }
}

fn empty_line<'a>() -> (l: DisplayLine<'a>)
    ensures
        l@ == empty_source_line(),
{
    let l = DisplayLine::Source {
        lineno: None,
        inline_marks: Vec::new(),
        line: DisplaySourceLine::Empty,
        annotations: Vec::new(),
    };
    assert(l@->Source_annotations =~= Seq::<SourceAnnotationView>::empty());
    l
}

/// The display lines of a snippet's source, with its annotations placed under
/// the lines they point at, and the margin that fits them to the terminal.
///
/// An annotation that ends more than one byte past the source would make
/// this panic; `body_requires` excludes such inputs.
pub fn format_body<'a>(
    snippet: Snippet<'a>,
    need_empty_header: bool,
    has_footer: bool,
    term_width: usize,
    anonymized_line_numbers: bool,
) -> (res: DisplaySet<'a>)
    requires
        body_requires(snippet@),
    ensures
        lines_view(res.display_lines@) == spec_body_lines(snippet@, need_empty_header, has_footer),
        res.margin == spec_body_margin(snippet@, term_width, anonymized_line_numbers),
{
    let ghost lines_g = source_lines(snippet@.source);
    let lines = collect_lines(snippet.source);
    proof {
        lemma_cursor_lines_total(bytes_of(snippet.source));
    }
    let n_anns = snippet.annotations.len();
    let mut live: Vec<bool> = Vec::new();
    while live.len() < n_anns
        invariant
            live@.len() <= n_anns,
            n_anns == snippet@.annotations.len(),
            forall|q: int| 0 <= q < live@.len() ==> live@[q],
        decreases n_anns - live.len(),
    {
        live.push(true);
    }
    let mut body: Vec<DisplayLine<'a>> = Vec::new();
    let mut current_line = snippet.line_start;
    let mut current_index: usize = 0;
    let mut ws: usize = usize::MAX;
    let mut sl: usize = usize::MAX;
    let mut sr: usize = 0;
    let mut lr: usize = 0;
    let mut mll: usize = 0;
    let mut i: usize = 0;
    while i < lines.len()
        invariant
            body_requires(snippet@),
            lines_g == source_lines(snippet@.source),
            lines@.len() == lines_g.len(),
            forall|j: int|
                0 <= j < lines@.len() ==> bytes_of(#[trigger] lines@[j].0) == lines_g[j].0
                    && lines@[j].1 == lines_g[j].1,
            line_offset(lines_g, lines_g.len() as int) == bytes_of(snippet.source).len(),
            i <= lines@.len(),
            live@.len() == snippet@.annotations.len(),
            forall|q: int|
                0 <= q < live@.len() ==> live@[q] == live_at(
                    #[trigger] snippet@.annotations[q],
                    lines_g,
                    i as int,
                ),
            lines_view(body@) == raw_body(snippet@).take(i as int),
            current_index == line_offset(lines_g, i as int),
            current_line == snippet.line_start + i,
            ({
                let m = margins_upto(snippet@, i as int);
                &&& ws == m.ws
                &&& sl == m.sl
                &&& sr == m.sr
                &&& lr == m.lr
                &&& mll == m.mll
            }),
            sr <= col_bound(),
            lr <= label_bound(),
        decreases lines.len() - i,
    {
        let (line, end_line) = lines[i];
        proof {
            lemma_cursor_line_at(bytes_of(snippet.source), i as int);
            lemma_line_offset_mono(lines_g, i + 1, lines_g.len() as int);
        }
        let ll = line.len();
        let eol = end_line.len();
        let (lead, non_ws) = line_leading(line);
        let ghost m_prev = margins_upto(snippet@, i as int);
        if non_ws && lead < ws {
            ws = lead;
        }
        if ll > mll {
            mll = ll;
        }
        let ghost m_line = BodyMargins { ws: ws as int, mll: mll as int, ..m_prev };
        let (dsas, marks) = annotate_line(
            &snippet,
            &mut live,
            line,
            i,
            current_index,
            eol,
            &mut sl,
            &mut sr,
            &mut lr,
        );
        proof {
            lemma_ann_margins_fields(
                m_line,
                BodyMargins { ws: 0, mll: 0, ..m_prev },
                snippet@.annotations,
                lines_g,
                i as int,
            );
            assert(margins_upto(snippet@, i + 1) == line_margins(m_prev, snippet@, i as int));
        }
        let dl = DisplayLine::Source {
            lineno: Some(current_line),
            inline_marks: marks,
            line: DisplaySourceLine::Content {
                text: line,
                range: (current_index, current_index + ll),
                end_line,
            },
            annotations: dsas,
        };
        let ghost old_body = lines_view(body@);
        body.push(dl);
        proof {
            assert(dl@ == body_line(snippet@, i as int));
            assert(lines_view(body@) =~= old_body.push(dl@));
            assert(raw_body(snippet@).take(i + 1) =~= raw_body(snippet@).take(i as int).push(
                body_line(snippet@, i as int),
            ));
        }
        current_line = current_line + 1;
        current_index = current_index + ll + eol;
        i += 1;
    }
    assert(raw_body(snippet@).take(i as int) =~= raw_body(snippet@));
    let ghost b0 = lines_view(body@);
    let mut body = if snippet.fold {
        fold_body(body)
    } else {
        body
    };
    let ghost b1 = lines_view(body@);
    if need_empty_header {
        let e = empty_line();
        body.insert(0, e);
        assert(lines_view(body@) =~= seq![empty_source_line()] + b1);
    }
    let ghost b2 = lines_view(body@);
    let last_is_source = body.len() > 0 && matches!(body[body.len() - 1], DisplayLine::Source { .. });
    assert(last_is_source == (b2.len() > 0 && b2.last() is Source));
    if has_footer || last_is_source {
        let e = empty_line();
        body.push(e);
        assert(lines_view(body@) =~= b2.push(empty_source_line()));
    }
    let max_line_num_len = if anonymized_line_numbers {
        2
    } else {
        decimal_digits(current_line)
    };
    let width_offset = 3 + max_line_num_len;
    if sl == usize::MAX {
        sl = 0;
    }
    let column_width = if term_width > width_offset {
        term_width - width_offset
    } else {
        0
    };
    let margin = Margin::new(ws, sl, sr, lr, column_width, mll);
    DisplaySet { display_lines: body, margin }
}

} // verus!

verus! {

/// Line `l` shows the byte offset `main` (its line ending included).
pub open spec fn header_match(l: LineView, main: usize) -> bool {
    match l {
        LineView::Source { line: SourceLineView::Content { range, end_line, .. }, .. } => main
            >= range.0 && main <= range.1 + end_line.spec_len(),
        _ => false,
    }
}

/// The first line showing `main`.
pub open spec fn first_match(ls: Seq<LineView>, main: usize) -> Option<int>
    decreases ls.len(),
{
    if ls.len() == 0 {
        None
    } else {
        match first_match(ls.drop_last(), main) {
            Some(j) => Some(j),
            None => if header_match(ls.last(), main) {
                Some(ls.len() - 1)
            } else {
                None
            },
        }
    }
}

/// The byte position of `main` inside the text of the matched line.
pub open spec fn header_cut(l: LineView, main: usize) -> int {
    match l {
        LineView::Source { line: SourceLineView::Content { text, range, .. }, .. } => if main
            - range.0 < text.len() {
            main - range.0
        } else {
            text.len() as int
        },
        _ => 0,
    }
}

/// Line number and (1-based) character column of `main` in the matched line.
pub open spec fn header_pos(l: LineView, main: usize) -> (usize, usize) {
    match l {
        LineView::Source { lineno, line: SourceLineView::Content { text, .. }, .. } => (
            match lineno {
                Some(n) => n,
                None => 1,
            },
            (chars_of(text.take(header_cut(l, main))).len() + 1) as usize,
        ),
        _ => (1, 1),
    }
}

pub open spec fn header_type_of(is_first: bool) -> DisplayHeaderType {
    if is_first {
        DisplayHeaderType::Initial
    } else {
        DisplayHeaderType::Continuation
    }
}

/// The origin line of a snippet: the path, and the position of `main_range`
/// when both are known (line 1, column 1 when no line shows it).
pub open spec fn spec_format_header(
    origin: Option<Seq<u8>>,
    main_range: Option<usize>,
    body: Seq<LineView>,
    is_first: bool,
) -> Option<LineView> {
    match (main_range, origin) {
        (Some(main), Some(path)) => Some(
            LineView::Raw(
                RawLineView::Origin {
                    path,
                    pos: Some(
                        match first_match(body, main) {
                            Some(j) => header_pos(body[j], main),
                            None => (1, 1),
                        },
                    ),
                    header_type: header_type_of(is_first),
                },
            ),
        ),
        (None, Some(path)) => Some(
            LineView::Raw(
                RawLineView::Origin { path, pos: None, header_type: header_type_of(is_first) },
            ),
        ),
        _ => None,
    }
}

/// What `format_header` needs: the position is cut between characters.
pub open spec fn header_requires(main_range: Option<usize>, body: Seq<LineView>) -> bool {
    match main_range {
        Some(main) => match first_match(body, main) {
            Some(j) => body[j] matches LineView::Source {
                line: SourceLineView::Content { text, .. },
                ..
            } && vstd::utf8::is_char_boundary(text, header_cut(body[j], main)) && text.len()
                <= usize::MAX / 8,
            None => true,
        },
        None => true,
    }
}

proof fn lemma_first_match(ls: Seq<LineView>, main: usize)
    ensures
        first_match(ls, main) matches Some(j) ==> 0 <= j < ls.len() && header_match(ls[j], main)
            && forall|k: int| 0 <= k < j ==> !header_match(#[trigger] ls[k], main),
        first_match(ls, main) is None ==> forall|k: int|
            0 <= k < ls.len() ==> !header_match(#[trigger] ls[k], main),
    decreases ls.len(),
{
    if ls.len() > 0 {
        lemma_first_match(ls.drop_last(), main);
        assert forall|k: int| 0 <= k < ls.len() - 1 implies ls.drop_last()[k] == ls[k] by {}
    }
}

pub open spec fn opt_view<'a>(o: Option<DisplayLine<'a>>) -> Option<LineView> {
    match o {
        Some(l) => Some(l@),
        None => None,
    }
}

/// The header line naming where a snippet comes from.
pub fn format_header<'a>(
    origin: Option<&'a str>,
    main_range: Option<usize>,
    body: &[DisplayLine<'_>],
    is_first: bool,
) -> (res: Option<DisplayLine<'a>>)
    requires
        header_requires(main_range, lines_view(body@)),
    ensures
        opt_view(res) == spec_format_header(
            opt_bytes(origin),
            main_range,
            lines_view(body@),
            is_first,
        ),
{
    let ghost bv = lines_view(body@);
    let display_header = if is_first {
        DisplayHeaderType::Initial
    } else {
        DisplayHeaderType::Continuation
    };
    if let Some((main_range, path)) = zip_opt(main_range, origin) {
        let mut col: usize = 1;
        let mut line_offset: usize = 1;
        let mut k: usize = 0;
        proof {
            lemma_first_match(bv, main_range);
        }
        while k < body.len()
            invariant_except_break
                col == 1 && line_offset == 1,
            invariant
                bv == lines_view(body@),
                header_requires(Some(main_range), bv),
                first_match(bv, main_range) matches Some(j) ==> 0 <= j < bv.len() && header_match(
                    bv[j],
                    main_range,
                ) && forall|q: int| 0 <= q < j ==> !header_match(#[trigger] bv[q], main_range),
                first_match(bv, main_range) is None ==> forall|q: int|
                    0 <= q < bv.len() ==> !header_match(#[trigger] bv[q], main_range),
                k <= body@.len(),
                forall|q: int| 0 <= q < k ==> !header_match(#[trigger] bv[q], main_range),
            ensures
                match first_match(bv, main_range) {
                    Some(j) => header_pos(bv[j], main_range) == (line_offset, col),
                    None => col == 1 && line_offset == 1,
                },
            decreases body.len() - k,
        {
            let item = &body[k];
            assert(bv[k as int] == item@);
            if let DisplayLine::Source {
                line: DisplaySourceLine::Content { text, range, end_line },
                lineno,
                ..
            } = item {
                if main_range >= range.0 && (main_range <= range.1 || main_range - range.1
                    <= end_line.len()) {
                    assert(header_match(bv[k as int], main_range));
                    assert(first_match(bv, main_range) == Some(k as int));
                    assert(bytes_of(*text) == bv[k as int]->Source_line->Content_text);
                    let cut = if main_range - range.0 < text.len() {
                        main_range - range.0
                    } else {
                        text.len()
                    };
                    proof {
                        lemma_prefix_chars_len(text, cut as int);
                    }
                    let cs = prefix_chars(text, cut);
                    col = cs.len() + 1;
                    line_offset = match lineno {
                        Some(n) => *n,
                        None => 1,
                    };
                    break ;
                }
            }
            k += 1;
        }
        proof {
            if k == body.len() {
                assert(first_match(bv, main_range) is None);
            }
        }
        let l = DisplayLine::Raw(
            DisplayRawLine::Origin {
                path,
                pos: Some((line_offset, col)),
                header_type: display_header,
            },
        );
        return Some(l);
    }
    if let Some(path) = origin {
        return Some(
            DisplayLine::Raw(DisplayRawLine::Origin { path, pos: None, header_type: display_header }),
        );
    }
    None
}

} // verus!

verus! {

pub open spec fn from_input(l: LineView, body: Seq<LineView>) -> bool {
    l is Fold || exists|j: int| 0 <= j < body.len() && body[j] == l
}

proof fn lemma_fold_scan_origin(body: Seq<LineView>)
    ensures
        forall|k: int|
            0 <= k < fold_scan(body).0.len() ==> from_input(#[trigger] fold_scan(body).0[k], body),
        forall|k: int|
            0 <= k < fold_scan(body).1.len() ==> from_input(#[trigger] fold_scan(body).1[k], body),
    decreases body.len(),
{
    if body.len() > 0 {
        let prev = body.drop_last();
        lemma_fold_scan_origin(prev);
        let (lines, pending) = fold_scan(prev);
        let l = body.last();
        assert forall|x: LineView| from_input(x, prev) implies from_input(x, body) by {
            if !(x is Fold) {
                let j = choose|j: int| 0 <= j < prev.len() && prev[j] == x;
                assert(body[j] == x);
            }
        }
        assert(from_input(l, body)) by {
            assert(body[body.len() - 1] == l);
        }
        let r = fold_scan(body);
        assert forall|k: int| 0 <= k < r.0.len() implies from_input(#[trigger] r.0[k], body) by {
            if is_highlighted(l) {
                let p = if lines.len() == 0 {
                    Seq::<LineView>::empty()
                } else {
                    pending
                };
                if p.len() <= 3 {
                    let all = lines + p + seq![l];
                    assert(r.0 == all);
                    if k < lines.len() {
                        assert(all[k] == lines[k]);
                    } else if k < lines.len() + p.len() {
                        assert(all[k] == p[k - lines.len()]);
                    }
                } else {
                    let all = lines + seq![p[0], LineView::Fold { inline_marks: fold_marks(p[0]) }, p[p.len() - 1], l];
                    assert(r.0 == all);
                    if k < lines.len() {
                        assert(all[k] == lines[k]);
                    } else if k == lines.len() {
                        assert(all[k] == p[0]);
                    } else if k == lines.len() + 2 {
                        assert(all[k] == p[p.len() - 1]);
                    }
                }
            }
        }
        assert forall|k: int| 0 <= k < r.1.len() implies from_input(#[trigger] r.1[k], body) by {
            if !is_highlighted(l) {
                assert(r.1 == pending.push(l));
                if k < pending.len() {
                    assert(r.1[k] == pending[k]);
                }
            }
        }
    }
}

/// Every content line of a body shows a line of the snippet's source.
proof fn lemma_body_line_origin(snippet: SnippetModel, need_empty_header: bool, has_footer: bool, k: int)
    requires
        0 <= k < spec_body_lines(snippet, need_empty_header, has_footer).len(),
        spec_body_lines(snippet, need_empty_header, has_footer)[k] matches LineView::Source {
            line: SourceLineView::Content { .. },
            ..
        },
    ensures
        exists|i: int|
            0 <= i < source_lines(snippet.source).len() && spec_body_lines(
                snippet,
                need_empty_header,
                has_footer,
            )[k] == body_line(snippet, i),
{
    let b0 = raw_body(snippet);
    let b1 = if snippet.fold {
        spec_fold_body(b0)
    } else {
        b0
    };
    let b2 = if need_empty_header {
        seq![empty_source_line()] + b1
    } else {
        b1
    };
    let all = spec_body_lines(snippet, need_empty_header, has_footer);
    let x = all[k];
    let k2: int = if need_empty_header {
        k - 1
    } else {
        k
    };
    assert(k2 >= 0 && k2 < b1.len() && b1[k2] == x) by {
        if has_footer || (b2.len() > 0 && b2.last() is Source) {
            assert(all == b2.push(empty_source_line()));
            assert(k < b2.len());
            assert(all[k] == b2[k]);
        }
        if need_empty_header {
            assert(k > 0);
            assert(b2[k] == b1[k - 1]);
        }
    }
    if snippet.fold {
        lemma_fold_scan_origin(b0);
        assert(from_input(b1[k2], b0));
    }
    let i = choose|i: int| 0 <= i < b0.len() && b0[i] == x;
    assert(b0[i] == body_line(snippet, i));
}

/// The display lines of one snippet: its header followed by its body.
pub fn format_snippet<'a>(
    snippet: Snippet<'a>,
    is_first: bool,
    has_footer: bool,
    term_width: usize,
    anonymized_line_numbers: bool,
) -> (res: DisplaySet<'a>)
    requires
        body_requires(snippet@),
    ensures
        ({
            let main_range = if snippet@.annotations.len() > 0 {
                Some(snippet@.annotations[0].start)
            } else {
                None
            };
            let need_empty_header = snippet.origin is Some || is_first;
            let body = spec_body_lines(snippet@, need_empty_header, has_footer);
            lines_view(res.display_lines@) == match spec_format_header(
                opt_bytes(snippet.origin),
                main_range,
                body,
                is_first,
            ) {
                Some(h) => seq![h] + body,
                None => body,
            }
        }),
        res.margin == spec_body_margin(snippet@, term_width, anonymized_line_numbers),
{
    let ghost s = snippet;
    let main_range = if snippet.annotations.len() > 0 {
        Some(snippet.annotations[0].range.start)
    } else {
        None
    };
    let origin = snippet.origin;
    let need_empty_header = origin.is_some() || is_first;
    let mut body = format_body(snippet, need_empty_header, has_footer, term_width, anonymized_line_numbers);
    proof {
        let bv = lines_view(body.display_lines@);
        if let Some(main) = main_range {
            lemma_first_match(bv, main);
            if let Some(j) = first_match(bv, main) {
                lemma_body_line_origin(s@, need_empty_header, has_footer, j);
                let i = choose|i: int|
                    0 <= i < source_lines(s@.source).len() && bv[j] == body_line(s@, i);
                let dl = body.display_lines@[j];
                assert(dl@ == bv[j]);
                let text = dl->Source_line->Content_text;
                let lines = source_lines(s@.source);
                lemma_cursor_line_at(bytes_of(s.source), i);
                lemma_cursor_lines_total(bytes_of(s.source));
                lemma_line_offset_mono(lines, i + 1, lines.len() as int);
                let ls = line_offset(lines, i);
                assert(bytes_of(text) == lines[i].0);
                assert(s@.annotations[0].start == main);
                if main - ls < bytes_of(text).len() {
                    lemma_boundary_in_slice(s.source, text, ls, main - ls);
                } else {
                    lemma_boundary_ends(text);
                }
            }
        }
    }
    let header = format_header(origin, main_range, body.display_lines.as_slice(), is_first);
    if let Some(header) = header {
        let ghost old_lines = lines_view(body.display_lines@);
        body.display_lines.insert(0, header);
        assert(lines_view(body.display_lines@) =~= seq![header@] + old_lines);
    }
    body
}

} // verus!

verus! {

/// The smallest annotation start (0 when there is no annotation).
pub open spec fn min_start(anns: Seq<AnnotationModel>) -> int
    decreases anns.len(),
{
    if anns.len() == 0 {
        0
    } else if anns.len() == 1 {
        anns[0].start as int
    } else {
        min_int(min_start(anns.drop_last()), anns.last().start as int)
    }
}

/// The largest annotation end (`dflt` when there is no annotation).
pub open spec fn max_end(anns: Seq<AnnotationModel>, dflt: int) -> int
    decreases anns.len(),
{
    if anns.len() == 0 {
        dflt
    } else if anns.len() == 1 {
        anns[0].end as int
    } else {
        max_int(max_end(anns.drop_last(), dflt), anns.last().end as int)
    }
}

/// The annotation moved `n` bytes to the left.
pub open spec fn shifted(a: AnnotationModel, n: int) -> AnnotationModel {
    AnnotationModel { start: (a.start - n) as usize, end: (a.end - n) as usize, ..a }
}

/// Where folding cuts off the lines before the first annotation.
pub open spec fn fold_cut(snippet: SnippetModel) -> int {
    match last_index_of(snippet.source.take(min_start(snippet.annotations)), 10u8) {
        Some(x) => x + 1,
        None => 0,
    }
}

/// What folding needs: the first annotation start and last annotation end
/// are positions in the source between characters, and no annotation ends
/// before the line where the first one starts, from which the source is cut.
pub open spec fn fold_requires(snippet: SnippetModel) -> bool {
    let b = snippet.source;
    let st = min_start(snippet.annotations);
    let en = max_end(snippet.annotations, b.len() as int);
    &&& b.len() <= usize::MAX / 8
    &&& 0 <= st <= b.len()
    &&& vstd::utf8::is_char_boundary(b, st)
    &&& 0 <= en <= b.len()
    &&& vstd::utf8::is_char_boundary(b, en)
    &&& snippet.line_start + cursor_lines(b).len() <= usize::MAX
    &&& forall|k: int|
        0 <= k < snippet.annotations.len() ==> (#[trigger] snippet.annotations[k]).end >= fold_cut(snippet)
}

pub open spec fn fold_result_source(snippet: SnippetModel) -> Seq<u8> {
    let b = snippet.source;
    let ns = fold_cut(snippet);
    let b2 = b.skip(ns);
    let en = if snippet.annotations.len() == 0 {
        b2.len() as int
    } else {
        max_end(snippet.annotations, b.len() as int) - ns
    };
    match first_index_of(b2.skip(en), 10u8) {
        Some(o) => b2.take(en + o),
        None => b2,
    }
}

/// The snippet that folding leaves: the source cut down to the lines from the
/// first annotation's line to the last annotation's line, the annotations
/// moved with it, and the first line number moved by the lines cut off.
pub open spec fn spec_fold_prefix_suffix(snippet: SnippetModel) -> SnippetModel {
    if !snippet.fold {
        snippet
    } else {
        let ns = fold_cut(snippet);
        SnippetModel {
            line_start: (snippet.line_start + (if ns > 0 {
                cursor_lines(snippet.source.take(ns)).len() as int
            } else {
                0
            })) as usize,
            source: fold_result_source(snippet),
            annotations: snippet.annotations.map_values(|a: AnnotationModel| shifted(a, ns)),
            ..snippet
        }
    }
}

proof fn lemma_min_start(anns: Seq<AnnotationModel>)
    ensures
        forall|k: int| 0 <= k < anns.len() ==> min_start(anns) <= (#[trigger] anns[k]).start,
        anns.len() == 0 ==> min_start(anns) == 0,
    decreases anns.len(),
{
    if anns.len() > 1 {
        lemma_min_start(anns.drop_last());
        assert forall|k: int| 0 <= k < anns.len() - 1 implies anns.drop_last()[k] == anns[k] by {}
    }
}

proof fn lemma_max_end(anns: Seq<AnnotationModel>, dflt: int)
    ensures
        forall|k: int| 0 <= k < anns.len() ==> max_end(anns, dflt) >= (#[trigger] anns[k]).end,
        anns.len() > 0 ==> exists|k: int| 0 <= k < anns.len() && max_end(anns, dflt) == (#[trigger] anns[k]).end,
        anns.len() == 0 ==> max_end(anns, dflt) == dflt,
    decreases anns.len(),
{
    if anns.len() > 1 {
        lemma_max_end(anns.drop_last(), dflt);
        assert forall|k: int| 0 <= k < anns.len() - 1 implies anns.drop_last()[k] == anns[k] by {}
        if max_end(anns.drop_last(), dflt) >= anns.last().end {
            let k = choose|k: int| 0 <= k < anns.drop_last().len() && max_end(anns.drop_last(), dflt) == (#[trigger] anns.drop_last()[k]).end;
            assert(anns[k] == anns.drop_last()[k]);
        } else {
            assert(anns[anns.len() - 1] == anns.last());
        }
    }
}

proof fn lemma_max_end_shifted(
    orig: Seq<AnnotationModel>,
    moved: Seq<AnnotationModel>,
    ns: int,
    d1: int,
    d2: int,
)
    requires
        orig.len() == moved.len(),
        orig.len() > 0,
        0 <= ns,
        forall|k: int| 0 <= k < moved.len() ==> #[trigger] moved[k] == shifted(orig[k], ns),
        forall|k: int| 0 <= k < orig.len() ==> (#[trigger] orig[k]).end >= ns,
    ensures
        max_end(moved, d2) == max_end(orig, d1) - ns,
{
    lemma_max_end(orig, d1);
    lemma_max_end(moved, d2);
    let k = choose|k: int| 0 <= k < orig.len() && max_end(orig, d1) == (#[trigger] orig[k]).end;
    let k2 = choose|k2: int| 0 <= k2 < moved.len() && max_end(moved, d2) == (#[trigger] moved[k2]).end;
    assert(moved[k] == shifted(orig[k], ns));
    assert(moved[k2] == shifted(orig[k2], ns));
    assert(moved[k2].end == orig[k2].end - ns);
    assert(moved[k].end == orig[k].end - ns);
    assert(max_end(moved, d2) >= moved[k].end);
    assert(max_end(orig, d1) >= orig[k2].end);
}

pub open spec fn anns_model<'a>(anns: Seq<SrcAnnotation<'a>>) -> Seq<AnnotationModel> {
    anns.map_values(|a: SrcAnnotation<'a>| a@)
}

fn compute_min_start(anns: &Vec<SrcAnnotation<'_>>) -> (r: usize)
    ensures
        r == min_start(anns_model(anns@)),
{
    let ghost m = anns_model(anns@);
    let mut r: usize = 0;
    let mut k: usize = 0;
    while k < anns.len()
        invariant
            m == anns_model(anns@),
            k <= anns@.len(),
            r == min_start(m.take(k as int)),
        decreases anns.len() - k,
    {
        assert(m.take(k + 1).drop_last() =~= m.take(k as int));
        assert(m.take(k + 1).last() == anns@[k as int]@);
        let s = anns[k].range.start;
        if k == 0 || s < r {
            r = s;
        }
        k += 1;
    }
    assert(m.take(k as int) =~= m);
    r
}

fn compute_max_end(anns: &Vec<SrcAnnotation<'_>>, dflt: usize) -> (r: usize)
    ensures
        r == max_end(anns_model(anns@), dflt as int),
{
    let ghost m = anns_model(anns@);
    let mut r: usize = dflt;
    let mut k: usize = 0;
    while k < anns.len()
        invariant
            m == anns_model(anns@),
            k <= anns@.len(),
            r == max_end(m.take(k as int), dflt as int),
        decreases anns.len() - k,
    {
        assert(m.take(k + 1).drop_last() =~= m.take(k as int));
        assert(m.take(k + 1).last() == anns@[k as int]@);
        let e = anns[k].range.end;
        if k == 0 || e > r {
            r = e;
        }
        k += 1;
    }
    assert(m.take(k as int) =~= m);
    r
}

/// Drops the lines before the line of the first annotation.
fn fold_prefix<'a>(snippet: Snippet<'a>) -> (res: Snippet<'a>)
    requires
        snippet@.fold,
        fold_requires(snippet@),
    ensures
        ({
            let ns = fold_cut(snippet@);
            &&& res@ == (SnippetModel {
                source: snippet@.source.skip(ns),
                ..spec_fold_prefix_suffix(snippet@)
            })
            &&& 0 <= ns <= min_start(snippet@.annotations)
        }),
        res.origin == snippet.origin,
{
    let ghost s0 = snippet@;
    let ghost b = bytes_of(snippet.source);
    let mut snippet = snippet;
    proof {
        lemma_min_start(s0.annotations);
    }
    let ann_start = compute_min_start(&snippet.annotations);
    let (prefix, _) = snippet.source.split_at(ann_start);
    assert(bytes_of(prefix) =~= b.take(ann_start as int));
    if let Some(before_new_start) = rfind_byte(prefix.as_bytes(), 10u8) {
        proof {
            lemma_last_index_of(bytes_of(prefix), 10u8);
        }
        let new_start = before_new_start + 1;
        assert(new_start == fold_cut(s0));
        let (head, tail) = split_after_ascii(snippet.source, new_start);
        assert(bytes_of(head) =~= b.take(new_start as int));
        let line_offset = collect_lines(head).len();
        proof {
            lemma_line_count(bytes_of(head));
            lemma_line_count(b);
            assert(b =~= bytes_of(head) + b.skip(new_start as int));
            lemma_newlines_concat(bytes_of(head), b.skip(new_start as int));
        }
        snippet.line_start = snippet.line_start + line_offset;
        snippet.source = tail;
        let mut moved: Vec<SrcAnnotation<'a>> = Vec::new();
        let mut k: usize = 0;
        while k < snippet.annotations.len()
            invariant
                s0.annotations == anns_model(snippet.annotations@),
                k <= snippet.annotations@.len(),
                new_start <= ann_start,
                ann_start == min_start(s0.annotations),
                forall|q: int| 0 <= q < s0.annotations.len() ==> min_start(s0.annotations) <= (#[trigger] s0.annotations[q]).start,
                forall|q: int| 0 <= q < s0.annotations.len() ==> (#[trigger] s0.annotations[q]).end >= new_start,
                moved@.len() == k,
                forall|q: int| 0 <= q < k ==> #[trigger] moved@[q]@ == shifted(s0.annotations[q], new_start as int),
            decreases snippet.annotations.len() - k,
        {
            let a = &snippet.annotations[k];
            assert(s0.annotations[k as int] == a@);
            let m = SrcAnnotation {
                range: (a.range.start - new_start)..(a.range.end - new_start),
                label: a.label,
                level: a.level,
            };
            moved.push(m);
            k += 1;
        }
        snippet.annotations = moved;
        assert(bytes_of(snippet.source) =~= b.skip(new_start as int));
        assert(anns_model(snippet.annotations@) =~= s0.annotations.map_values(
            |a: AnnotationModel| shifted(a, new_start as int),
        ));
        return snippet;
    }
    assert(b.skip(0) =~= b);
    assert(anns_model(snippet.annotations@) =~= s0.annotations.map_values(
        |a: AnnotationModel| shifted(a, 0),
    ));
    snippet
}

/// The source up to the end of the line where the last annotation ends.
pub open spec fn suffix_cut(snippet: SnippetModel) -> Seq<u8> {
    let b = snippet.source;
    let en = max_end(snippet.annotations, b.len() as int);
    match first_index_of(b.skip(en), 10u8) {
        Some(o) => b.take(en + o),
        None => b,
    }
}

/// Drops the lines after the line of the last annotation end.
fn fold_suffix<'a>(snippet: Snippet<'a>) -> (res: Snippet<'a>)
    requires
        ({
            let en = max_end(snippet@.annotations, snippet@.source.len() as int);
            &&& 0 <= en <= snippet@.source.len()
            &&& snippet@.source.len() <= usize::MAX / 8
            &&& is_boundary(snippet.source, en)
        }),
    ensures
        res@ == (SnippetModel { source: suffix_cut(snippet@), ..snippet@ }),
        res.origin == snippet.origin,
{
    let ghost b = bytes_of(snippet.source);
    let mut snippet = snippet;
    let ann_end = compute_max_end(&snippet.annotations, snippet.source.len());
    let (_, rest) = snippet.source.split_at(ann_end);
    assert(bytes_of(rest) =~= b.skip(ann_end as int));
    if let Some(end_offset) = find_byte(rest.as_bytes(), 10u8) {
        proof {
            lemma_first_index_of(bytes_of(rest), 10u8);
        }
        let new_end = ann_end + end_offset;
        let (kept, _) = split_at_ascii(snippet.source, new_end);
        assert(bytes_of(kept) =~= b.take(new_end as int));
        snippet.source = kept;
    }
    snippet
}

/// When folding, drops the source lines before the line of the first
/// annotation (shifting the annotations and the first line number) and the
/// lines after the line of the last annotation end.
pub fn fold_prefix_suffix<'a>(snippet: Snippet<'a>) -> (res: Snippet<'a>)
    requires
        snippet.fold ==> fold_requires(snippet@),
    ensures
        res@ == spec_fold_prefix_suffix(snippet@),
        res.origin == snippet.origin,
{
    if !snippet.fold {
        return snippet;
    }
    let ghost s0 = snippet@;
    let ghost b = bytes_of(snippet.source);
    let s1 = fold_prefix(snippet);
    let ghost ns = fold_cut(s0);
    let ghost b2 = bytes_of(s1.source);
    proof {
        lemma_max_end(s0.annotations, b.len() as int);
        lemma_min_start(s0.annotations);
        let src = snippet.source;
        lemma_chars_of_str(src);
        if s0.annotations.len() > 0 {
            if ns > 0 {
                assert forall|k: int| 0 <= k < s0.annotations.len() implies (#[trigger] s0.annotations[k]).end >= ns by {
                    assert(min_start(s0.annotations) <= s0.annotations[k].start);
                }
                assert forall|k: int| 0 <= k < s1@.annotations.len() implies #[trigger] s1@.annotations[k] == shifted(s0.annotations[k], ns) by {}
                lemma_max_end_shifted(s0.annotations, s1@.annotations, ns, b.len() as int, b2.len() as int);
                lemma_boundary_in_slice(src, s1.source, ns, max_end(s0.annotations, b.len() as int) - ns);
            } else {
                assert forall|k: int| 0 <= k < s0.annotations.len() implies s1@.annotations[k] == s0.annotations[k] by {
                    assert(s1@.annotations[k] == shifted(s0.annotations[k], 0));
                }
                assert(s1@.annotations =~= s0.annotations);
                lemma_boundary_in_slice(src, s1.source, 0, max_end(s0.annotations, b.len() as int));
            }
        } else {
            lemma_boundary_ends(s1.source);
        }
    }
    let res = fold_suffix(s1);
    assert(res@ == spec_fold_prefix_suffix(s0));
    res
}

} // verus!
