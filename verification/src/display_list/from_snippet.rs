//! Building the display list with source and raw lines out of a snippet.
use vstd::prelude::*;
use vstd::string::StringExecFns;

use super::snippet::Slice;
use super::structs::{
    body_view, label_view, Annotation, AnnotationView, DisplayAnnotationPart, DisplayAnnotationType,
    DisplayHeaderType, DisplayLine, DisplayList, DisplayMark, DisplayMarkType, DisplayRawLine,
    DisplaySourceLine, DisplayTextFragment, DisplayTextStyle, LineView, RawLineView, SourceLineView,
};
use super::{
    annotations_fit, body_fits, copy_id, copy_label, format_label, header_type_of, label_or_empty, label_views,
    lemma_label_views, lemma_line_index_mono, line_index, line_range, fits_lines, same_id, starts_within,
};
use crate::annotation::{Annotation as InputAnnotation, AnnotationType, SourceAnnotation};
use crate::cursor_line::collect_lines;
use crate::format::{lemma_lines_view, text_lines};

verus! {

/// A whole snippet: an optional title, its slices, and its footers.
pub struct Snippet<'s> {
    pub title: Option<InputAnnotation<'s>>,
    pub footer: Vec<InputAnnotation<'s>>,
    pub slices: Vec<Slice<'s>>,
}

/// The display kind of each annotation kind.
pub open spec fn display_type_of(at: AnnotationType) -> DisplayAnnotationType {
    match at {
        AnnotationType::Error => DisplayAnnotationType::Error,
        AnnotationType::Warning => DisplayAnnotationType::Warning,
        AnnotationType::Info => DisplayAnnotationType::Info,
        AnnotationType::Note => DisplayAnnotationType::Note,
        AnnotationType::Help => DisplayAnnotationType::Help,
    }
}

impl From<AnnotationType> for DisplayAnnotationType {
    fn from(at: AnnotationType) -> (res: Self) {
        match at {
            AnnotationType::Error => DisplayAnnotationType::Error,
            AnnotationType::Warning => DisplayAnnotationType::Warning,
            AnnotationType::Info => DisplayAnnotationType::Info,
            AnnotationType::Note => DisplayAnnotationType::Note,
            AnnotationType::Help => DisplayAnnotationType::Help,
        }
    }
}

impl vstd::std_specs::convert::FromSpecImpl<AnnotationType> for DisplayAnnotationType {
    open spec fn obeys_from_spec() -> bool {
        true
    }

    open spec fn from_spec(at: AnnotationType) -> Self {
        display_type_of(at)
    }
}

/// The kind shown in the label of a source annotation: none for errors and
/// warnings, whose marks already tell them apart.
pub open spec fn label_type_of(at: AnnotationType) -> DisplayAnnotationType {
    match at {
        AnnotationType::Error => DisplayAnnotationType::Untyped,
        AnnotationType::Warning => DisplayAnnotationType::Untyped,
        _ => display_type_of(at),
    }
}

/// The title line of a snippet.
pub open spec fn title_view<'a>(a: InputAnnotation<'a>) -> LineView {
    LineView::Raw(
        RawLineView::Annotation {
            annotation: AnnotationView {
                annotation_type: display_type_of(a.annotation_type),
                id: match a.id {
                    Some(i) => Some(i@),
                    None => None,
                },
                label: label_views(label_or_empty(a.label), Some(DisplayTextStyle::Emphasis)),
            },
            source_aligned: false,
            continuation: false,
        },
    )
}

/// The lines of a footer: one per line of its label, aligned to the source,
/// each after the first a continuation.
pub open spec fn footer_views<'a>(a: InputAnnotation<'a>) -> Seq<LineView> {
    let ls = text_lines(label_or_empty(a.label));
    Seq::new(
        ls.len(),
        |i: int|
            LineView::Raw(
                RawLineView::Annotation {
                    annotation: AnnotationView {
                        annotation_type: display_type_of(a.annotation_type),
                        id: None,
                        label: label_views(ls[i], None),
                    },
                    source_aligned: true,
                    continuation: i != 0,
                },
            ),
    )
}

/// Source line `i`, numbered from `first`, with no marks yet.
pub open spec fn source_line_view(ls: Seq<Seq<char>>, first: int, i: int) -> LineView {
    LineView::Source {
        lineno: Some((first + i) as usize),
        inline_marks: Seq::empty(),
        line: SourceLineView::Content {
            text: ls[i],
            range: (line_range(ls, i).0 as usize, line_range(ls, i).1 as usize),
        },
    }
}

/// The source lines of a text, numbered from `first`.
pub open spec fn source_line_views(ls: Seq<Seq<char>>, first: int) -> Seq<LineView> {
    Seq::new(ls.len(), |i: int| source_line_view(ls, first, i))
}

/// The empty source line.
pub open spec fn empty_line() -> LineView {
    LineView::Source { lineno: None, inline_marks: Seq::empty(), line: SourceLineView::Empty }
}

/// The body with `m` added to the marks of line `i` when it is a line of
/// the source columns (source text, an annotation, or empty).
pub open spec fn add_mark(body: Seq<LineView>, i: int, m: DisplayMark) -> Seq<LineView> {
    match body[i] {
        LineView::Source { lineno, inline_marks, line } => body.update(
            i,
            LineView::Source { lineno, inline_marks: inline_marks.push(m), line },
        ),
        _ => body,
    }
}

/// A mark of an annotation of kind `t`.
pub open spec fn mark_of(mark_type: DisplayMarkType, t: AnnotationType) -> DisplayMark {
    DisplayMark { mark_type, annotation_type: display_type_of(t) }
}

/// An annotation line under a source line.
pub open spec fn annotation_line_view(
    marks: Seq<DisplayMark>,
    label_type: DisplayAnnotationType,
    label: Seq<(Seq<char>, DisplayTextStyle)>,
    from: int,
    to: int,
    t: AnnotationType,
    part: DisplayAnnotationPart,
) -> LineView {
    LineView::Source {
        lineno: None,
        inline_marks: marks,
        line: SourceLineView::Annotation {
            annotation: AnnotationView { annotation_type: label_type, id: None, label },
            range: (from as usize, to as usize),
            annotation_type: display_type_of(t),
            annotation_part: part,
        },
    }
}

/// What one annotation does at source line `idx`, whose range is
/// `(ls, le)`, after `count` annotation lines were inserted, as for the flat
/// model: a standalone line for one within the line, a start mark or a
/// start line for one starting on it, a through mark for one crossing it, a
/// through mark and an end line for one ending on it. A mark goes to the
/// line at `idx + count`, the line written last for this source line, when
/// that is a line of the source columns. The last value says whether the
/// annotation stays for the following lines.
pub open spec fn annotation_step<'a>(
    body: Seq<LineView>,
    count: int,
    idx: int,
    ls: int,
    le: int,
    a: SourceAnnotation<'a>,
) -> (Seq<LineView>, int, bool) {
    let at = idx + count;
    let start = a.range.0 as int;
    let end = a.range.1 as int;
    let t = a.annotation_type;
    if start > le {
        (body, count, true)
    } else if start >= ls && end <= le + 1 {
        (
            body.insert(
                at + 1,
                annotation_line_view(
                    Seq::empty(),
                    label_type_of(t),
                    label_views(a.label@, None),
                    start - ls,
                    end - ls,
                    t,
                    DisplayAnnotationPart::Standalone,
                ),
            ),
            count + 1,
            false,
        )
    } else if start >= ls && start <= le && end > le {
        if start == ls {
            (add_mark(body, at, mark_of(DisplayMarkType::AnnotationStart, t)), count, true)
        } else {
            (
                body.insert(
                    at + 1,
                    annotation_line_view(
                        Seq::empty(),
                        DisplayAnnotationType::Untyped,
                        Seq::empty(),
                        start - ls,
                        start - ls + 1,
                        t,
                        DisplayAnnotationPart::MultilineStart,
                    ),
                ),
                count + 1,
                true,
            )
        }
    } else if start < ls && end > le {
        (add_mark(body, at, mark_of(DisplayMarkType::AnnotationThrough, t)), count, true)
    } else if start < ls && end >= ls && end <= le {
        (
            add_mark(body, at, mark_of(DisplayMarkType::AnnotationThrough, t)).insert(
                at + 1,
                annotation_line_view(
                    seq![mark_of(DisplayMarkType::AnnotationThrough, t)],
                    label_type_of(t),
                    label_views(a.label@, None),
                    end - ls,
                    end - ls + 1,
                    t,
                    DisplayAnnotationPart::MultilineEnd,
                ),
            ),
            count + 1,
            false,
        )
    } else {
        (body, count, true)
    }
}

/// The annotations taken in order at one source line: the body, the count,
/// and the annotations that stay, in order.
pub open spec fn drain_line<'a>(
    body: Seq<LineView>,
    count: int,
    idx: int,
    ls: int,
    le: int,
    anns: Seq<SourceAnnotation<'a>>,
) -> (Seq<LineView>, int, Seq<SourceAnnotation<'a>>)
    decreases anns.len(),
{
    if anns.len() == 0 {
        (body, count, Seq::empty())
    } else {
        let (b1, c1, stays) = annotation_step(body, count, idx, ls, le, anns[0]);
        let (b2, c2, rest) = drain_line(b1, c1, idx, ls, le, anns.skip(1));
        (b2, c2, if stays { seq![anns[0]] + rest } else { rest })
    }
}

/// The source lines from `idx` on taken in turn, each with the annotations
/// that are still waiting.
pub open spec fn annotate_from<'a>(
    body: Seq<LineView>,
    count: int,
    anns: Seq<SourceAnnotation<'a>>,
    ls: Seq<Seq<char>>,
    idx: int,
) -> Seq<LineView>
    decreases ls.len() - idx,
{
    if idx < 0 || idx >= ls.len() {
        body
    } else {
        let (b1, c1, rest) = drain_line(body, count, idx, line_range(ls, idx).0, line_range(ls, idx).1, anns);
        annotate_from(b1, c1, rest, ls, idx + 1)
    }
}

/// Folding from line `idx` on, with `counter` lines seen since the last
/// annotation line: an annotation line brings back the lines before it, and
/// when there are more than two of them only the first four (none unless
/// there are more than eight), a fold line with the annotation line's marks,
/// and the last two (one unless there are more than eight); then itself.
/// Other lines of the source columns wait to be brought back that way and
/// are dropped when no annotation line follows; any other line is kept
/// where it is, and counted.
pub open spec fn fold_from(body: Seq<LineView>, idx: int, counter: int) -> Seq<LineView>
    decreases body.len() - idx,
{
    if idx < 0 || idx >= body.len() {
        Seq::empty()
    } else {
        match body[idx] {
            LineView::Source { inline_marks, line: SourceLineView::Annotation { .. }, .. } => (if counter > 2 {
                let pre = if counter > 8 { 4int } else { 0int };
                let post = if counter > 8 { 2int } else { 1int };
                body.subrange(idx - counter, idx - counter + pre) + seq![LineView::Fold { inline_marks }]
                    + body.subrange(idx - post, idx)
            } else {
                body.subrange(idx - counter, idx)
            }) + seq![body[idx]] + fold_from(body, idx + 1, 0),
            LineView::Source { .. } => fold_from(body, idx + 1, counter + 1),
            _ => seq![body[idx]] + fold_from(body, idx + 1, counter + 1),
        }
    }
}

/// The body of a slice: its source lines with the annotation lines and
/// marks, folded when the slice asks for it, opened by an empty line and
/// closed by one when a footer follows or the last line is in the source
/// columns.
pub open spec fn body_spec<'a>(slice: Slice<'a>, has_footer: bool) -> Seq<LineView> {
    let ls = text_lines(slice.source@);
    let annotated = annotate_from(source_line_views(ls, slice.line_start as int), 0, slice.annotations@, ls, 0);
    let folded = if slice.fold { fold_from(annotated, 0, 0) } else { annotated };
    let opened = seq![empty_line()] + folded;
    if has_footer || opened.last() is Source {
        opened.push(empty_line())
    } else {
        opened
    }
}

/// Where the first annotation starts, as a line number and a column: line
/// numbers count the lines of source text from `row` on until the first
/// whose range holds `start`, and the column is `start`'s offset in that
/// line, or 1 when no line holds it.
pub open spec fn header_pos(body: Seq<LineView>, start: int, row: int, from: int) -> (int, int)
    decreases body.len() - from,
{
    if from < 0 || from >= body.len() {
        (row, 1)
    } else {
        match body[from] {
            LineView::Source { line: SourceLineView::Content { range, .. }, .. } => if start >= range.0 && start
                <= range.1 {
                (row, start - range.0)
            } else {
                header_pos(body, start, row + 1, from + 1)
            },
            _ => header_pos(body, start, row, from + 1),
        }
    }
}

/// The origin line of a slice, when it has an origin: with the position of
/// its first annotation when it has one.
pub open spec fn header_spec<'a>(slice: Slice<'a>, body: Seq<LineView>, is_first: bool) -> Option<LineView> {
    match slice.origin {
        None => None,
        Some(path) => Some(
            LineView::Raw(
                RawLineView::Origin {
                    path: path@,
                    pos: if slice.annotations@.len() > 0 {
                        let p = header_pos(body, slice.annotations@[0].range.0 as int, slice.line_start as int, 0);
                        Some((p.0 as usize, p.1 as usize))
                    } else {
                        None
                    },
                    header_type: header_type_of(is_first),
                },
            ),
        ),
    }
}

/// The line number of the first annotation fits in `usize`.
pub open spec fn header_fits<'a>(slice: Slice<'a>, body: Seq<LineView>) -> bool {
    slice.annotations@.len() > 0 ==> header_pos(
        body,
        slice.annotations@[0].range.0 as int,
        slice.line_start as int,
        0,
    ).0 <= usize::MAX
}

/// The lines of a slice: its origin line, when it has one, then its body.
pub open spec fn slice_spec<'a>(slice: Slice<'a>, is_first: bool, has_footer: bool) -> Seq<LineView> {
    let body = body_spec(slice, has_footer);
    match header_spec(slice, body, is_first) {
        Some(h) => seq![h] + body,
        None => body,
    }
}

/// A slice can be laid out without a number overflowing, and none of its
/// annotations starts on a line and ends before it.
pub open spec fn slice_fits<'a>(slice: Slice<'a>, has_footer: bool) -> bool {
    &&& body_fits(slice)
    &&& annotations_fit(text_lines(slice.source@), slice.annotations@)
    &&& header_fits(slice, body_spec(slice, has_footer))
}

/// The lines of the slices one after another, the first with an initial
/// origin line and the others with continuation ones.
pub open spec fn slices_spec<'a>(slices: Seq<Slice<'a>>, has_footer: bool) -> Seq<LineView>
    decreases slices.len(),
{
    if slices.len() == 0 {
        Seq::empty()
    } else {
        slices_spec(slices.drop_last(), has_footer) + slice_spec(slices.last(), slices.len() == 1, has_footer)
    }
}

/// The lines of the footers one after another.
pub open spec fn footers_spec<'a>(footer: Seq<InputAnnotation<'a>>) -> Seq<LineView>
    decreases footer.len(),
{
    if footer.len() == 0 {
        Seq::empty()
    } else {
        footers_spec(footer.drop_last()) + footer_views(footer.last())
    }
}

/// The lines of a snippet: its title line, its slices, its footers.
pub open spec fn snippet_spec<'a>(snippet: Snippet<'a>) -> Seq<LineView> {
    (match snippet.title {
        Some(a) => seq![title_view(a)],
        None => Seq::empty(),
    }) + slices_spec(snippet.slices@, snippet.footer@.len() > 0) + footers_spec(snippet.footer@)
}

/// Every slice of the snippet fits, as `slice_fits` says.
pub open spec fn snippet_fits<'a>(snippet: Snippet<'a>) -> bool {
    forall|i: int|
        0 <= i < snippet.slices@.len() ==> slice_fits(#[trigger] snippet.slices@[i], snippet.footer@.len() > 0)
}


/// The title line: a message not aligned to the source, with the
/// annotation's kind and id and its label split at `__`, all emphasised.
pub fn format_title(annotation: &InputAnnotation) -> (res: DisplayLine)
    ensures
        res@ == title_view(*annotation),
{
    let label = copy_label(annotation.label);
    let fragments = format_label(Some(label), Some(DisplayTextStyle::Emphasis));
    proof {
        lemma_label_views(fragments@, label@, Some(DisplayTextStyle::Emphasis));
    }
    let id = copy_id(annotation.id);
    let res = DisplayLine::Raw(
        DisplayRawLine::Annotation {
            annotation: Annotation {
                annotation_type: DisplayAnnotationType::from(annotation.annotation_type),
                id,
                label: fragments,
            },
            source_aligned: false,
            continuation: false,
        },
    );
    assert(same_id(id, annotation.id));
    res
}

/// The footer lines: one per line of the label, aligned to the source,
/// without id, each split at `__` and emphasised in turn; each after the
/// first is a continuation.
pub fn format_annotation(annotation: &InputAnnotation) -> (res: Vec<DisplayLine>)
    ensures
        body_view(res@) == footer_views(*annotation),
{
    let label = copy_label(annotation.label);
    let lines = collect_lines(label);
    proof {
        lemma_lines_view(label, lines@);
    }
    let ghost ls = text_lines(label@);
    let mut result: Vec<DisplayLine> = Vec::new();
    let mut i: usize = 0;
    while i < lines.len()
        invariant
            i <= lines@.len(),
            ls == crate::format::piece_texts(lines@),
            ls == text_lines(label_or_empty(annotation.label)),
            body_view(result@) == footer_views(*annotation).take(i as int),
        decreases lines.len() - i,
    {
        let text = lines[i].0;
        assert(text@ == ls[i as int]);
        let fragments = format_label(Some(text), None);
        proof {
            lemma_label_views(fragments@, text@, None);
        }
        let line = DisplayLine::Raw(
            DisplayRawLine::Annotation {
                annotation: Annotation {
                    annotation_type: DisplayAnnotationType::from(annotation.annotation_type),
                    id: None,
                    label: fragments,
                },
                source_aligned: true,
                continuation: i != 0,
            },
        );
        assert(line@ == footer_views(*annotation)[i as int]);
        let ghost prev = result@;
        result.push(line);
        assert(result@ == prev.push(line));
        assert(body_view(result@) =~= body_view(prev).push(line@));
        assert(footer_views(*annotation).take(i + 1) =~= footer_views(*annotation).take(i as int).push(
            footer_views(*annotation)[i as int],
        ));
        i += 1;
    }
    assert(footer_views(*annotation).take(i as int) =~= footer_views(*annotation));
    result
}

fn push_copies(out: &mut Vec<DisplayLine>, body: &[DisplayLine], from: usize, to: usize)
    requires
        from <= to <= body@.len(),
    ensures
        body_view(final(out)@) == body_view(old(out)@) + body_view(body@).subrange(from as int, to as int),
{
    let ghost start = body_view(out@);
    let mut i: usize = from;
    while i < to
        invariant
            from <= i <= to,
            to <= body@.len(),
            body_view(out@) == start + body_view(body@).subrange(from as int, i as int),
        decreases to - i,
    {
        let c = body[i].clone();
        assert(c@ == body@[i as int]@);
        let ghost prev = out@;
        out.push(c);
        assert(out@ == prev.push(c));
        assert(body_view(out@) =~= body_view(prev).push(c@));
        assert(body_view(out@) =~= start + body_view(body@).subrange(from as int, i + 1));
        i += 1;
    }
}

/// The body with long runs of lines without annotations folded, as
/// `fold_from` describes it.
pub fn fold_body(body: &[DisplayLine]) -> (res: Vec<DisplayLine>)
    ensures
        body_view(res@) == fold_from(body_view(body@), 0, 0),
{
    let ghost v = body_view(body@);
    let mut new_body: Vec<DisplayLine> = Vec::new();
    let mut no_annotation_lines_counter: usize = 0;
    let mut idx: usize = 0;
    while idx < body.len()
        invariant
            idx <= body@.len(),
            v == body_view(body@),
            no_annotation_lines_counter <= idx,
            body_view(new_body@) + fold_from(v, idx as int, no_annotation_lines_counter as int) == fold_from(v, 0, 0),
        decreases body.len() - idx,
    {
        let ghost before = body_view(new_body@);
        let ghost c0 = no_annotation_lines_counter as int;
        assert(v[idx as int] == body@[idx as int]@);
        match &body[idx] {
            DisplayLine::Source { line: DisplaySourceLine::Annotation { .. }, inline_marks, .. } => {
                if no_annotation_lines_counter > 2 {
                    let fold_start = idx - no_annotation_lines_counter;
                    let fold_end = idx;
                    let pre_len: usize = if no_annotation_lines_counter > 8 {
                        4
                    } else {
                        0
                    };
                    let post_len: usize = if no_annotation_lines_counter > 8 {
                        2
                    } else {
                        1
                    };
                    push_copies(&mut new_body, body, fold_start, fold_start + pre_len);
                    let mut marks: Vec<DisplayMark> = Vec::new();
                    let mut k: usize = 0;
                    while k < inline_marks.len()
                        invariant
                            k <= inline_marks@.len(),
                            marks@ == inline_marks@.take(k as int),
                        decreases inline_marks.len() - k,
                    {
                        marks.push(inline_marks[k]);
                        assert(inline_marks@.take(k + 1) =~= inline_marks@.take(k as int).push(inline_marks@[k as int]));
                        k += 1;
                    }
                    assert(inline_marks@.take(k as int) =~= inline_marks@);
                    let ghost prev = new_body@;
                    let fold_line = DisplayLine::Fold { inline_marks: marks };
                    assert(fold_line@ == LineView::Fold { inline_marks: inline_marks@ });
                    new_body.push(fold_line);
                    assert(new_body@ == prev.push(fold_line));
                    assert(body_view(new_body@) =~= body_view(prev).push(fold_line@));
                    push_copies(&mut new_body, body, fold_end - post_len, fold_end);
                } else {
                    let start = idx - no_annotation_lines_counter;
                    push_copies(&mut new_body, body, start, idx);
                }
                no_annotation_lines_counter = 0;
            },
            DisplayLine::Source { .. } => {
                no_annotation_lines_counter += 1;
                idx += 1;
                continue ;
            },
            _ => {
                no_annotation_lines_counter += 1;
            },
        }
        let ghost mid = body_view(new_body@);
        let c = body[idx].clone();
        assert(c@ == v[idx as int]);
        let ghost prev = new_body@;
        new_body.push(c);
        assert(new_body@ == prev.push(c));
        assert(body_view(new_body@) =~= mid.push(v[idx as int]));
        assert(body_view(new_body@) + fold_from(v, idx + 1, no_annotation_lines_counter as int) =~= before
            + fold_from(v, idx as int, c0));
        idx += 1;
    }
    new_body
}


/// Adds `m` to the marks of line `i` when it is in the source columns.
fn add_mark_at(body: &mut Vec<DisplayLine>, i: usize, m: DisplayMark)
    requires
        i < old(body)@.len(),
    ensures
        body_view(final(body)@) == add_mark(body_view(old(body)@), i as int, m),
        final(body)@.len() == old(body)@.len(),
{
    let ghost bv = body_view(body@);
    assert(bv[i as int] == body@[i as int]@);
    let new_line = match &body[i] {
        DisplayLine::Source { lineno, inline_marks, line } => {
            let mut marks: Vec<DisplayMark> = Vec::new();
            let mut k: usize = 0;
            while k < inline_marks.len()
                invariant
                    k <= inline_marks@.len(),
                    marks@ == inline_marks@.take(k as int),
                decreases inline_marks.len() - k,
            {
                marks.push(inline_marks[k]);
                assert(inline_marks@.take(k + 1) =~= inline_marks@.take(k as int).push(inline_marks@[k as int]));
                k += 1;
            }
            assert(inline_marks@.take(k as int) =~= inline_marks@);
            marks.push(m);
            Some(DisplayLine::Source { lineno: *lineno, inline_marks: marks, line: line.clone() })
        },
        _ => None,
    };
    match new_line {
        Some(l) => {
            let ghost prev = body@;
            body.set(i, l);
            assert(body@ == prev.update(i as int, l));
            assert(body_view(body@) =~= bv.update(i as int, l@));
        },
        None => {},
    }
}

/// Inserts `line` at `i`.
fn insert_line(body: &mut Vec<DisplayLine>, i: usize, line: DisplayLine)
    requires
        i <= old(body)@.len(),
    ensures
        body_view(final(body)@) == body_view(old(body)@).insert(i as int, line@),
        final(body)@.len() == old(body)@.len() + 1,
{
    let ghost prev = body@;
    body.insert(i, line);
    assert(body@ == prev.insert(i as int, line));
    assert(body_view(body@) =~= body_view(prev).insert(i as int, line@));
}

/// The source lines of a slice, numbered from its first line number, and
/// the range of each.
fn source_lines(slice: &Slice) -> (res: (Vec<DisplayLine>, Vec<(usize, usize)>))
    requires
        body_fits(*slice),
    ensures
        body_view(res.0@) == source_line_views(text_lines(slice.source@), slice.line_start as int),
        res.1@.len() == text_lines(slice.source@).len(),
        forall|j: int|
            0 <= j < res.1@.len() ==> #[trigger] res.1@[j].0 == line_range(text_lines(slice.source@), j).0
                && res.1@[j].1 == line_range(text_lines(slice.source@), j).1 && res.1@[j].1 < usize::MAX,
{
    let lines = collect_lines(slice.source);
    proof {
        lemma_lines_view(slice.source, lines@);
    }
    let ghost ls = text_lines(slice.source@);
    let ghost n = ls.len() as int;
    let mut body: Vec<DisplayLine> = Vec::new();
    let mut ranges: Vec<(usize, usize)> = Vec::new();
    let mut current_line: usize = slice.line_start;
    let mut current_index: usize = 0;
    let mut i: usize = 0;
    while i < lines.len()
        invariant
            i <= lines@.len(),
            n == lines@.len(),
            ls == crate::format::piece_texts(lines@),
            ls == text_lines(slice.source@),
            body_fits(*slice),
            current_line == slice.line_start + i,
            current_index == line_index(ls, i as int),
            body_view(body@) == source_line_views(ls, slice.line_start as int).take(i as int),
            ranges@.len() == i,
            forall|j: int|
                0 <= j < i ==> #[trigger] ranges@[j].0 == line_range(ls, j).0 && ranges@[j].1 == line_range(ls, j).1
                    && ranges@[j].1 < usize::MAX,
        decreases lines.len() - i,
    {
        let text = lines[i].0;
        assert(text@ == ls[i as int]);
        proof {
            lemma_line_index_mono(ls, i + 1, n);
            assert(line_index(ls, i + 1) == line_index(ls, i as int) + ls[i as int].len() + 2);
        }
        let line_length = text.unicode_len() + 1;
        let range = (current_index, current_index + line_length);
        let line = DisplayLine::Source {
            lineno: Some(current_line),
            inline_marks: Vec::new(),
            line: DisplaySourceLine::Content { text: text.to_owned(), range },
        };
        assert(line@ == source_line_view(ls, slice.line_start as int, i as int));
        let ghost prev = body@;
        body.push(line);
        assert(body@ == prev.push(line));
        assert(source_line_views(ls, slice.line_start as int).take(i + 1) =~= source_line_views(
            ls,
            slice.line_start as int,
        ).take(i as int).push(source_line_view(ls, slice.line_start as int, i as int)));
        assert(body_view(body@) =~= body_view(prev).push(line@));
        ranges.push(range);
        current_line += 1;
        current_index += line_length + 1;
        i += 1;
    }
    assert(source_line_views(ls, slice.line_start as int).take(n) =~= source_line_views(ls, slice.line_start as int));
    (body, ranges)
}

proof fn lemma_drain_keeps_fit<'a>(
    body: Seq<LineView>,
    count: int,
    idx: int,
    ls: int,
    le: int,
    anns: Seq<SourceAnnotation<'a>>,
    lines: Seq<Seq<char>>,
)
    requires
        annotations_fit(lines, anns),
    ensures
        annotations_fit(lines, drain_line(body, count, idx, ls, le, anns).2),
    decreases anns.len(),
{
    if anns.len() > 0 {
        let (b1, c1, stays) = annotation_step(body, count, idx, ls, le, anns[0]);
        assert(annotations_fit(lines, anns.skip(1))) by {
            assert forall|j: int| 0 <= j < anns.skip(1).len() implies fits_lines(lines, #[trigger] anns.skip(1)[j]) by {
                assert(anns.skip(1)[j] == anns[j + 1]);
            }
        }
        lemma_drain_keeps_fit(b1, c1, idx, ls, le, anns.skip(1), lines);
        let rest = drain_line(b1, c1, idx, ls, le, anns.skip(1)).2;
        if stays {
            let r = seq![anns[0]] + rest;
            assert forall|j: int| 0 <= j < r.len() implies fits_lines(lines, #[trigger] r[j]) by {
                if j > 0 {
                    assert(r[j] == rest[j - 1]);
                }
            }
        }
    }
}

/// The label line of a source annotation.
fn annotation_line(
    marks: Vec<DisplayMark>,
    label_type: DisplayAnnotationType,
    label: Vec<DisplayTextFragment>,
    from: usize,
    to: usize,
    t: AnnotationType,
    part: DisplayAnnotationPart,
) -> (res: DisplayLine)
    ensures
        res@ == annotation_line_view(marks@, label_type, label_view(label@), from as int, to as int, t, part),
{
    DisplayLine::Source {
        lineno: None,
        inline_marks: marks,
        line: DisplaySourceLine::Annotation {
            annotation: Annotation { annotation_type: label_type, id: None, label },
            range: (from, to),
            annotation_type: DisplayAnnotationType::from(t),
            annotation_part: part,
        },
    }
}

/// The kind shown in a source annotation's label.
fn label_type(t: AnnotationType) -> (res: DisplayAnnotationType)
    ensures
        res == label_type_of(t),
{
    match t {
        AnnotationType::Error => DisplayAnnotationType::Untyped,
        AnnotationType::Warning => DisplayAnnotationType::Untyped,
        _ => DisplayAnnotationType::from(t),
    }
}

/// Takes the annotations in order at source line `idx`, whose range is
/// `(line_start, line_end)`, as `drain_line` describes; returns the count of
/// annotation lines inserted so far and the annotations that stay.
fn drain_annotations<'a>(
    body: &mut Vec<DisplayLine>,
    count: usize,
    n: usize,
    idx: usize,
    line_start: usize,
    line_end: usize,
    anns: &Vec<SourceAnnotation<'a>>,
) -> (res: (usize, Vec<SourceAnnotation<'a>>))
    requires
        old(body)@.len() == n + count,
        idx < n,
        line_end < usize::MAX,
        forall|j: int|
            0 <= j < anns@.len() ==> starts_within(#[trigger] anns@[j], line_start as int, line_end as int),
    ensures
        (body_view(final(body)@), res.0 as int, res.1@) == drain_line(
            body_view(old(body)@),
            count as int,
            idx as int,
            line_start as int,
            line_end as int,
            anns@,
        ),
        final(body)@.len() == n + res.0,
{
    let ghost b0 = body_view(body@);
    let mut count = count;
    let ghost c0 = count as int;
    let mut kept: Vec<SourceAnnotation<'a>> = Vec::new();
    let mut k: usize = 0;
    proof {
        assert(anns@.skip(0) =~= anns@);
        let (b, c, rest) = drain_line(b0, c0, idx as int, line_start as int, line_end as int, anns@);
        assert(kept@ + rest =~= rest);
    }
    while k < anns.len()
        invariant
            k <= anns@.len(),
            body@.len() == n + count,
            idx < n,
            line_end < usize::MAX,
            forall|j: int|
                0 <= j < anns@.len() ==> starts_within(#[trigger] anns@[j], line_start as int, line_end as int),
            ({
                let (b, c, rest) = drain_line(
                    body_view(body@),
                    count as int,
                    idx as int,
                    line_start as int,
                    line_end as int,
                    anns@.skip(k as int),
                );
                (b, c, kept@ + rest)
            }) == drain_line(b0, c0, idx as int, line_start as int, line_end as int, anns@),
        decreases anns.len() - k,
    {
        let ghost bv = body_view(body@);
        let ghost cv = count as int;
        let ann = anns[k];
        let ghost step = annotation_step(bv, cv, idx as int, line_start as int, line_end as int, ann);
        assert(anns@.skip(k as int)[0] == ann);
        assert(anns@.skip(k as int).skip(1) =~= anns@.skip(k + 1));
        let len = body.len();
        let body_idx = idx + count;
        let (start, end) = ann.range;
        let t = ann.annotation_type;
        let stays: bool;
        if start > line_end {
            stays = true;
        } else if start >= line_start && end <= line_end + 1 {
            let label = format_label(Some(ann.label), None);
            proof {
                lemma_label_views(label@, ann.label@, None);
            }
            let line = annotation_line(
                Vec::new(),
                label_type(t),
                label,
                start - line_start,
                end - line_start,
                t,
                DisplayAnnotationPart::Standalone,
            );
            insert_line(body, body_idx + 1, line);
            count += 1;
            stays = false;
        } else if start >= line_start && start <= line_end && end > line_end {
            if start - line_start == 0 {
                add_mark_at(
                    body,
                    body_idx,
                    DisplayMark { mark_type: DisplayMarkType::AnnotationStart, annotation_type: DisplayAnnotationType::from(t) },
                );
            } else {
                let label: Vec<DisplayTextFragment> = Vec::new();
                assert(label_view(label@) =~= Seq::empty());
                let line = annotation_line(
                    Vec::new(),
                    DisplayAnnotationType::Untyped,
                    label,
                    start - line_start,
                    start - line_start + 1,
                    t,
                    DisplayAnnotationPart::MultilineStart,
                );
                insert_line(body, body_idx + 1, line);
                count += 1;
            }
            stays = true;
        } else if start < line_start && end > line_end {
            add_mark_at(
                body,
                body_idx,
                DisplayMark { mark_type: DisplayMarkType::AnnotationThrough, annotation_type: DisplayAnnotationType::from(t) },
            );
            stays = true;
        } else if start < line_start && end >= line_start && end <= line_end {
            let through = DisplayMark {
                mark_type: DisplayMarkType::AnnotationThrough,
                annotation_type: DisplayAnnotationType::from(t),
            };
            add_mark_at(body, body_idx, through);
            let label = format_label(Some(ann.label), None);
            proof {
                lemma_label_views(label@, ann.label@, None);
            }
            let mut marks: Vec<DisplayMark> = Vec::new();
            marks.push(through);
            assert(marks@ =~= seq![mark_of(DisplayMarkType::AnnotationThrough, t)]);
            let line = annotation_line(
                marks,
                label_type(t),
                label,
                end - line_start,
                end - line_start + 1,
                t,
                DisplayAnnotationPart::MultilineEnd,
            );
            insert_line(body, body_idx + 1, line);
            count += 1;
            stays = false;
        } else {
            stays = true;
        }
        assert(step == (body_view(body@), count as int, stays));
        let ghost kept_before = kept@;
        if stays {
            kept.push(ann);
        }
        proof {
            let (b2, c2, rest) = drain_line(
                body_view(body@),
                count as int,
                idx as int,
                line_start as int,
                line_end as int,
                anns@.skip(k + 1),
            );
            if stays {
                assert(kept@ + rest =~= kept_before + (seq![ann] + rest));
            } else {
                assert(kept@ == kept_before);
            }
        }
        k += 1;
    }
    assert(anns@.skip(k as int) =~= Seq::<SourceAnnotation<'a>>::empty());
    assert(kept@ + Seq::<SourceAnnotation<'a>>::empty() =~= kept@);
    (count, kept)
}


/// Adds the annotation lines and marks of the annotations to the source
/// lines, as `annotate_from` describes.
fn annotate_body<'a>(
    body: &mut Vec<DisplayLine>,
    ranges: &Vec<(usize, usize)>,
    anns: &Vec<SourceAnnotation<'a>>,
    Ghost(ls): Ghost<Seq<Seq<char>>>,
)
    requires
        old(body)@.len() == ls.len(),
        ranges@.len() == ls.len(),
        forall|j: int|
            0 <= j < ranges@.len() ==> #[trigger] ranges@[j].0 == line_range(ls, j).0 && ranges@[j].1 == line_range(ls, j).1
                && ranges@[j].1 < usize::MAX,
        annotations_fit(ls, anns@),
    ensures
        body_view(final(body)@) == annotate_from(body_view(old(body)@), 0, anns@, ls, 0),
{
    let ghost b0 = body_view(body@);
    let n = ranges.len();
    let mut count: usize = 0;
    let mut annotations: Vec<SourceAnnotation<'a>> = Vec::new();
    let mut k: usize = 0;
    while k < anns.len()
        invariant
            k <= anns@.len(),
            annotations@ == anns@.take(k as int),
        decreases anns.len() - k,
    {
        annotations.push(anns[k]);
        assert(anns@.take(k + 1) =~= anns@.take(k as int).push(anns@[k as int]));
        k += 1;
    }
    assert(anns@.take(k as int) =~= anns@);
    let mut idx: usize = 0;
    while idx < n
        invariant
            idx <= n,
            n == ls.len(),
            body@.len() == n + count,
            ranges@.len() == n,
            forall|j: int|
                0 <= j < ranges@.len() ==> #[trigger] ranges@[j].0 == line_range(ls, j).0 && ranges@[j].1 == line_range(
                    ls,
                    j,
                ).1 && ranges@[j].1 < usize::MAX,
            annotations_fit(ls, annotations@),
            annotate_from(body_view(body@), count as int, annotations@, ls, idx as int) == annotate_from(
                b0,
                0,
                anns@,
                ls,
                0,
            ),
        decreases n - idx,
    {
        let (line_start, line_end) = ranges[idx];
        assert(line_start == line_range(ls, idx as int).0 && line_end == line_range(ls, idx as int).1);
        assert forall|j: int| 0 <= j < annotations@.len() implies starts_within(
            #[trigger] annotations@[j],
            line_start as int,
            line_end as int,
        ) by {
            assert(fits_lines(ls, annotations@[j]));
            assert(starts_within(annotations@[j], line_range(ls, idx as int).0, line_range(ls, idx as int).1));
        }
        let ghost bv = body_view(body@);
        let ghost cv = count as int;
        let ghost av = annotations@;
        let (c, kept) = drain_annotations(body, count, n, idx, line_start, line_end, &annotations);
        proof {
            lemma_drain_keeps_fit(bv, cv, idx as int, line_start as int, line_end as int, av, ls);
        }
        count = c;
        annotations = kept;
        idx += 1;
    }
}

fn empty_source_line() -> (res: DisplayLine)
    ensures
        res@ == empty_line(),
{
    DisplayLine::Source { lineno: None, inline_marks: Vec::new(), line: DisplaySourceLine::Empty }
}

/// The body of a slice, as `body_spec` describes it.
pub fn format_body(slice: &Slice, has_footer: bool) -> (res: Vec<DisplayLine>)
    requires
        body_fits(*slice),
        annotations_fit(text_lines(slice.source@), slice.annotations@),
    ensures
        body_view(res@) == body_spec(*slice, has_footer),
{
    let ghost ls = text_lines(slice.source@);
    let (mut body, ranges) = source_lines(slice);
    assert(body@.len() == body_view(body@).len());
    annotate_body(&mut body, &ranges, &slice.annotations, Ghost(ls));
    if slice.fold {
        body = fold_body(body.as_slice());
    }
    let ghost folded = body_view(body@);
    insert_line(&mut body, 0, empty_source_line());
    assert(body_view(body@) =~= seq![empty_line()] + folded);
    if has_footer {
        let ghost prev = body@;
        body.push(empty_source_line());
        assert(body_view(body@) =~= body_view(prev).push(empty_line()));
    } else {
        let last = body.len() - 1;
        assert(body_view(body@).last() == body@[last as int]@);
        let is_source = match &body[last] {
            DisplayLine::Source { .. } => true,
            _ => false,
        };
        if is_source {
            let ghost prev = body@;
            body.push(empty_source_line());
            assert(body_view(body@) =~= body_view(prev).push(empty_line()));
        }
    }
    body
}

proof fn lemma_header_row_grows(body: Seq<LineView>, start: int, row: int, from: int)
    ensures
        header_pos(body, start, row, from).0 >= row,
    decreases body.len() - from,
{
    if 0 <= from < body.len() {
        match body[from] {
            LineView::Source { line: SourceLineView::Content { range, .. }, .. } => if !(start >= range.0 && start
                <= range.1) {
                lemma_header_row_grows(body, start, row + 1, from + 1);
            },
            _ => lemma_header_row_grows(body, start, row, from + 1),
        }
    }
}

/// An optional line as an optional view.
pub open spec fn opt_line_view(l: Option<DisplayLine>) -> Option<LineView> {
    match l {
        Some(l) => Some(l@),
        None => None,
    }
}

/// The origin line of a slice, as `header_spec` describes it.
pub fn format_header(slice: &Slice, body: &[DisplayLine], is_first: bool) -> (res: Option<DisplayLine>)
    requires
        header_fits(*slice, body_view(body@)),
    ensures
        opt_line_view(res) == header_spec(*slice, body_view(body@), is_first),
{
    let display_header = if is_first {
        DisplayHeaderType::Initial
    } else {
        DisplayHeaderType::Continuation
    };
    if slice.annotations.len() > 0 {
        let annotation = slice.annotations[0];
        let ghost bv = body_view(body@);
        let ghost start = annotation.range.0 as int;
        let ghost target = header_pos(bv, start, slice.line_start as int, 0);
        let mut col: usize = 1;
        let mut row: usize = slice.line_start;
        let mut idx: usize = 0;
        loop
            invariant_except_break
                idx <= body@.len(),
                bv == body_view(body@),
                col == 1,
                header_pos(bv, start, row as int, idx as int) == target,
                target.0 <= usize::MAX,
                start == annotation.range.0,
            ensures
                (row as int, col as int) == target,
            decreases body.len() - idx,
        {
            if idx >= body.len() {
                break;
            }
            assert(bv[idx as int] == body@[idx as int]@);
            match &body[idx] {
                DisplayLine::Source { line: DisplaySourceLine::Content { range, .. }, .. } => {
                    if annotation.range.0 >= range.0 && annotation.range.0 <= range.1 {
                        col = annotation.range.0 - range.0;
                        break;
                    }
                    proof {
                        lemma_header_row_grows(bv, start, row + 1, idx + 1);
                    }
                    row += 1;
                },
                _ => {},
            }
            idx += 1;
        }
        match slice.origin {
            Some(path) => Some(
                DisplayLine::Raw(
                    DisplayRawLine::Origin { path: path.to_owned(), pos: Some((row, col)), header_type: display_header },
                ),
            ),
            None => None,
        }
    } else {
        match slice.origin {
            Some(path) => Some(
                DisplayLine::Raw(DisplayRawLine::Origin { path: path.to_owned(), pos: None, header_type: display_header }),
            ),
            None => None,
        }
    }
}

/// The lines of a slice, as `slice_spec` describes them.
pub fn format_slice(slice: &Slice, is_first: bool, has_footer: bool) -> (res: Vec<DisplayLine>)
    requires
        slice_fits(*slice, has_footer),
    ensures
        body_view(res@) == slice_spec(*slice, is_first, has_footer),
{
    let mut body = format_body(slice, has_footer);
    let mut result: Vec<DisplayLine> = Vec::new();
    let header = format_header(slice, body.as_slice(), is_first);
    match header {
        Some(header) => {
            result.push(header);
        },
        None => {},
    }
    let ghost start = body_view(result@);
    let ghost b = body_view(body@);
    result.append(&mut body);
    assert(body_view(result@) =~= start + b);
    assert(match header_spec(*slice, b, is_first) {
        Some(h) => start =~= seq![h],
        None => start =~= Seq::<LineView>::empty(),
    });
    result
}

impl DisplayList {
    /// The display list of a snippet, as `snippet_spec` describes it.
    pub fn from_snippet(snippet: Snippet) -> (res: DisplayList)
        requires
            snippet_fits(snippet),
        ensures
            body_view(res.body@) == snippet_spec(snippet),
    {
        let mut body: Vec<DisplayLine> = Vec::new();
        let has_footer = snippet.footer.len() > 0;
        match snippet.title {
            Some(annotation) => {
                let line = format_title(&annotation);
                body.push(line);
                assert(body_view(body@) =~= seq![title_view(annotation)]);
            },
            None => {
                assert(body_view(body@) =~= Seq::<LineView>::empty());
            },
        }
        let ghost head = body_view(body@);
        let mut slice_idx: usize = 0;
        while slice_idx < snippet.slices.len()
            invariant
                slice_idx <= snippet.slices@.len(),
                has_footer == (snippet.footer@.len() > 0),
                snippet_fits(snippet),
                body_view(body@) == head + slices_spec(snippet.slices@.take(slice_idx as int), has_footer),
            decreases snippet.slices.len() - slice_idx,
        {
            let ghost prev = body_view(body@);
            assert(slice_fits(snippet.slices@[slice_idx as int], has_footer));
            let mut lines = format_slice(&snippet.slices[slice_idx], slice_idx == 0, has_footer);
            let ghost ls = body_view(lines@);
            body.append(&mut lines);
            assert(body_view(body@) =~= prev + ls);
            let ghost taken = snippet.slices@.take(slice_idx + 1);
            assert(taken.drop_last() =~= snippet.slices@.take(slice_idx as int));
            assert(taken.last() == snippet.slices@[slice_idx as int]);
            slice_idx += 1;
        }
        assert(snippet.slices@.take(slice_idx as int) =~= snippet.slices@);
        let ghost mid = body_view(body@);
        let mut f: usize = 0;
        while f < snippet.footer.len()
            invariant
                f <= snippet.footer@.len(),
                body_view(body@) == mid + footers_spec(snippet.footer@.take(f as int)),
            decreases snippet.footer.len() - f,
        {
            let ghost prev = body_view(body@);
            let mut lines = format_annotation(&snippet.footer[f]);
            let ghost ls = body_view(lines@);
            body.append(&mut lines);
            assert(body_view(body@) =~= prev + ls);
            let ghost taken = snippet.footer@.take(f + 1);
            assert(taken.drop_last() =~= snippet.footer@.take(f as int));
            assert(taken.last() == snippet.footer@[f as int]);
            f += 1;
        }
        assert(snippet.footer@.take(f as int) =~= snippet.footer@);
        DisplayList { body }
    }
}

} // verus!
