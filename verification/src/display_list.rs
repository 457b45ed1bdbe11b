//! A flat output model for a snippet: one `DisplayLine` per line of output,
//! holding owned text.
use vstd::prelude::*;
use vstd::string::StringExecFns;

use crate::annotation::{Annotation, AnnotationType, SourceAnnotation};
use crate::cursor_line::collect_lines;
use crate::format::{lemma_lines_view, text_lines};
use crate::text::{lemma_empty_str, split_first_char, str_chars};
use self::snippet::{Slice, Snippet};

pub mod ds_struct;
pub mod annotation;
pub mod line;
pub mod list;
pub mod snippet;
pub mod structs;
pub mod from_snippet;

verus! {

/// The lines to be displayed.
pub struct DisplayList {
    pub body: Vec<DisplayLine>,
}

/// A line of output.
pub enum DisplayLine {
    /// A message line: a title, or an annotation aligned to the source.
    Annotation {
        label: Vec<DisplayTextFragment>,
        id: Option<String>,
        aligned: bool,
        annotation_type: DisplayAnnotationType,
    },
    /// Where the slice comes from.
    Origin { path: String, pos: Option<(usize, usize)>, header_type: DisplayHeaderType },
    /// The empty line that opens or closes a slice.
    EmptySource,
    /// A line of source with its number.
    Source { lineno: usize, inline_marks: Vec<DisplayMark>, content: String, range: (usize, usize) },
    /// The marks and label under the annotated part of a source line.
    SourceAnnotation {
        inline_marks: Vec<DisplayMark>,
        range: (usize, usize),
        label: Vec<DisplayTextFragment>,
        annotation_type: DisplayAnnotationType,
        annotation_part: DisplayAnnotationPart,
    },
    /// Stands for source lines left out.
    Fold { inline_marks: Vec<DisplayMark> },
}

/// A piece of a label with its style.
pub struct DisplayTextFragment {
    pub content: String,
    pub style: DisplayTextStyle,
}

#[derive(Debug, Clone, Copy, PartialEq, Eq, Structural)]
pub enum DisplayTextStyle {
    Regular,
    Emphasis,
}

/// Which part of an annotation a source annotation line draws.
#[derive(Debug, Clone, Copy, PartialEq, Eq, Structural)]
pub enum DisplayAnnotationPart {
    Singleline,
    MultilineStart,
    MultilineEnd,
}

/// A mark in the column between the line number and the source.
#[derive(Debug, Clone, Copy, PartialEq, Eq, Structural)]
pub enum DisplayMark {
    AnnotationThrough,
    AnnotationStart,
}

#[derive(Debug, Clone, Copy, PartialEq, Eq, Structural)]
pub enum DisplayAnnotationType {
    Error,
    Warning,
    Info,
    Note,
    Help,
}

/// Whether an origin line is the first of the snippet or a later one.
#[derive(Debug, Clone, Copy, PartialEq, Eq, Structural)]
pub enum DisplayHeaderType {
    Initial,
    Continuation,
}

/// The pieces of `cur + rest` when `rest` is split at each `__`, found
/// from the left and not overlapping.
pub open spec fn split_dunder_from(cur: Seq<char>, rest: Seq<char>) -> Seq<Seq<char>>
    decreases rest.len(),
{
    if rest.len() == 0 {
        seq![cur]
    } else if rest.len() >= 2 && rest[0] == '_' && rest[1] == '_' {
        seq![cur] + split_dunder_from(Seq::empty(), rest.skip(2))
    } else {
        split_dunder_from(cur.push(rest[0]), rest.skip(1))
    }
}

/// The pieces of a text split at each `__`.
pub open spec fn split_dunder(t: Seq<char>) -> Seq<Seq<char>> {
    split_dunder_from(Seq::empty(), t)
}

/// The style of the piece at `idx`: the given one, or else regular and
/// emphasised in turn.
pub open spec fn fragment_style(style: Option<DisplayTextStyle>, idx: int) -> DisplayTextStyle {
    match style {
        Some(s) => s,
        None => if idx % 2 == 0 {
            DisplayTextStyle::Regular
        } else {
            DisplayTextStyle::Emphasis
        },
    }
}

/// True when `label` holds the pieces of `text` split at `__`, styled as
/// `fragment_style` says.
pub open spec fn is_label_of(label: Seq<DisplayTextFragment>, text: Seq<char>, style: Option<DisplayTextStyle>) -> bool {
    &&& label.len() == split_dunder(text).len()
    &&& forall|i: int|
        0 <= i < label.len() ==> (#[trigger] label[i]).content@ == split_dunder(text)[i]
            && label[i].style == fragment_style(style, i)
}

fn first_char(s: &str) -> (c: char)
    requires
        s@.len() > 0,
    ensures
        c == s@[0],
{
    let cs = str_chars(s);
    cs[0]
}

/// Splits the label at each `__` into fragments; without a given style the
/// fragments are regular and emphasised in turn. No label gives no fragments.
pub fn format_label(label: Option<&str>, style: Option<DisplayTextStyle>) -> (res: Vec<DisplayTextFragment>)
    ensures
        match label {
            Some(l) => is_label_of(res@, l@, style),
            None => res@.len() == 0,
        },
{
    let mut result: Vec<DisplayTextFragment> = Vec::new();
    if let Some(label) = label {
        let mut cur = String::new();
        let mut rest = label;
        let ghost mut done: Seq<Seq<char>> = Seq::empty();
        loop
            invariant_except_break
                done + split_dunder_from(cur@, rest@) == split_dunder(label@),
                result@.len() == done.len(),
                forall|j: int|
                    0 <= j < result@.len() ==> (#[trigger] result@[j]).content@ == done[j]
                        && result@[j].style == fragment_style(style, j),
            ensures
                is_label_of(result@, label@, style),
            decreases rest@.len(),
        {
            proof {
                lemma_empty_str(rest);
            }
            if rest.is_empty() {
                let element_style = match style {
                    Some(s) => s,
                    None => if result.len() % 2 == 0 {
                        DisplayTextStyle::Regular
                    } else {
                        DisplayTextStyle::Emphasis
                    },
                };
                proof {
                    done = done.push(cur@);
                }
                result.push(DisplayTextFragment { content: cur, style: element_style });
                assert(done == split_dunder(label@));
                break;
            }
            let (head, tail) = split_first_char(rest);
            let c = first_char(head);
            let mut split_here = false;
            if c == '_' {
                proof {
                    lemma_empty_str(tail);
                }
                if !tail.is_empty() {
                    let (head2, tail2) = split_first_char(tail);
                    let c2 = first_char(head2);
                    if c2 == '_' {
                        split_here = true;
                        let element_style = match style {
                            Some(s) => s,
                            None => if result.len() % 2 == 0 {
                                DisplayTextStyle::Regular
                            } else {
                                DisplayTextStyle::Emphasis
                            },
                        };
                        proof {
                            assert(tail2@ =~= rest@.skip(2));
                            assert(split_dunder_from(cur@, rest@) == seq![cur@] + split_dunder_from(
                                Seq::empty(),
                                tail2@,
                            ));
                            assert(done.push(cur@) + split_dunder_from(Seq::empty(), tail2@) =~= done
                                + split_dunder_from(cur@, rest@));
                            done = done.push(cur@);
                        }
                        result.push(DisplayTextFragment { content: cur, style: element_style });
                        cur = String::new();
                        rest = tail2;
                    }
                }
            }
            if !split_here {
                proof {
                    assert(tail@ =~= rest@.skip(1));
                    assert(cur@.push(c) =~= cur@ + head@);
                }
                cur.append(head);
                rest = tail;
            }
        }
    }
    result
}

/// The display kind of each annotation kind.
pub open spec fn display_type_of(at: AnnotationType) -> DisplayAnnotationType {
    match at {
        AnnotationType::Error => DisplayAnnotationType::Error,
        AnnotationType::Warning => DisplayAnnotationType::Warning,
        AnnotationType::Info => DisplayAnnotationType::Info,
        AnnotationType::Note => DisplayAnnotationType::Note,
        AnnotationType::Help => DisplayAnnotationType::Help,
    }
}

impl From<AnnotationType> for DisplayAnnotationType {
    fn from(at: AnnotationType) -> (res: Self) {
        match at {
            AnnotationType::Error => DisplayAnnotationType::Error,
            AnnotationType::Warning => DisplayAnnotationType::Warning,
            AnnotationType::Info => DisplayAnnotationType::Info,
            AnnotationType::Note => DisplayAnnotationType::Note,
            AnnotationType::Help => DisplayAnnotationType::Help,
        }
    }
}

impl vstd::std_specs::convert::FromSpecImpl<AnnotationType> for DisplayAnnotationType {
    open spec fn obeys_from_spec() -> bool {
        true
    }

    open spec fn from_spec(at: AnnotationType) -> Self {
        display_type_of(at)
    }
}

/// The text of an optional label, empty when there is none.
pub open spec fn label_or_empty(label: Option<&str>) -> Seq<char> {
    match label {
        Some(l) => l@,
        None => Seq::empty(),
    }
}

/// True when `id` holds the same text as `given`, or both are absent.
pub open spec fn same_id(id: Option<String>, given: Option<&str>) -> bool {
    match (id, given) {
        (Some(a), Some(b)) => a@ == b@,
        (None, None) => true,
        _ => false,
    }
}

pub(crate) fn copy_label(label: Option<&str>) -> (res: &str)
    ensures
        res@ == label_or_empty(label),
{
    match label {
        Some(l) => l,
        None => {
            proof {
                reveal_strlit("");
            }
            ""
        },
    }
}

pub(crate) fn copy_id(id: Option<&str>) -> (res: Option<String>)
    ensures
        same_id(res, id),
{
    match id {
        Some(i) => Some(i.to_owned()),
        None => None,
    }
}

/// The title line: the annotation's kind and id, and its label split at
/// `__`, all emphasised.
pub fn format_title(annotation: &Annotation) -> (res: DisplayLine)
    ensures
        res matches DisplayLine::Annotation { label, id, aligned, annotation_type }
            && annotation_type == display_type_of(annotation.annotation_type)
            && same_id(id, annotation.id) && !aligned
            && is_label_of(label@, label_or_empty(annotation.label), Some(DisplayTextStyle::Emphasis)),
{
    let label = copy_label(annotation.label);
    DisplayLine::Annotation {
        annotation_type: DisplayAnnotationType::from(annotation.annotation_type),
        id: copy_id(annotation.id),
        aligned: false,
        label: format_label(Some(label), Some(DisplayTextStyle::Emphasis)),
    }
}

/// A footer line: the annotation's kind, aligned to the source, without id,
/// with its label split at `__` and emphasised in turn.
pub fn format_annotation(annotation: &Annotation) -> (res: DisplayLine)
    ensures
        res matches DisplayLine::Annotation { label, id, aligned, annotation_type }
            && annotation_type == display_type_of(annotation.annotation_type)
            && id is None && aligned
            && is_label_of(label@, label_or_empty(annotation.label), None),
{
    let label = copy_label(annotation.label);
    DisplayLine::Annotation {
        annotation_type: DisplayAnnotationType::from(annotation.annotation_type),
        aligned: true,
        id: None,
        label: format_label(Some(label), None),
    }
}

/// A label fragment as plain values.
pub open spec fn fragment_view(f: DisplayTextFragment) -> (Seq<char>, DisplayTextStyle) {
    (f.content@, f.style)
}

/// A line as plain values.
pub enum LineView {
    Annotation {
        label: Seq<(Seq<char>, DisplayTextStyle)>,
        id: Option<Seq<char>>,
        aligned: bool,
        annotation_type: DisplayAnnotationType,
    },
    Origin { path: Seq<char>, pos: Option<(usize, usize)>, header_type: DisplayHeaderType },
    EmptySource,
    Source { lineno: usize, inline_marks: Seq<DisplayMark>, content: Seq<char>, range: (usize, usize) },
    SourceAnnotation {
        inline_marks: Seq<DisplayMark>,
        range: (usize, usize),
        label: Seq<(Seq<char>, DisplayTextStyle)>,
        annotation_type: DisplayAnnotationType,
        annotation_part: DisplayAnnotationPart,
    },
    Fold { inline_marks: Seq<DisplayMark> },
}

impl View for DisplayLine {
    type V = LineView;

    open spec fn view(&self) -> LineView {
        match self {
            DisplayLine::Annotation { label, id, aligned, annotation_type } => LineView::Annotation {
                label: label@.map_values(|f: DisplayTextFragment| fragment_view(f)),
                id: match id {
                    Some(i) => Some(i@),
                    None => None,
                },
                aligned: *aligned,
                annotation_type: *annotation_type,
            },
            DisplayLine::Origin { path, pos, header_type } => LineView::Origin {
                path: path@,
                pos: *pos,
                header_type: *header_type,
            },
            DisplayLine::EmptySource => LineView::EmptySource,
            DisplayLine::Source { lineno, inline_marks, content, range } => LineView::Source {
                lineno: *lineno,
                inline_marks: inline_marks@,
                content: content@,
                range: *range,
            },
            DisplayLine::SourceAnnotation { inline_marks, range, label, annotation_type, annotation_part } =>
                LineView::SourceAnnotation {
                inline_marks: inline_marks@,
                range: *range,
                label: label@.map_values(|f: DisplayTextFragment| fragment_view(f)),
                annotation_type: *annotation_type,
                annotation_part: *annotation_part,
            },
            DisplayLine::Fold { inline_marks } => LineView::Fold { inline_marks: inline_marks@ },
        }
    }
}

fn copy_marks(marks: &Vec<DisplayMark>) -> (res: Vec<DisplayMark>)
    ensures
        res@ == marks@,
{
    let mut out: Vec<DisplayMark> = Vec::new();
    let mut i: usize = 0;
    while i < marks.len()
        invariant
            i <= marks@.len(),
            out@ == marks@.take(i as int),
        decreases marks.len() - i,
    {
        out.push(marks[i]);
        assert(marks@.take(i + 1) =~= marks@.take(i as int).push(marks@[i as int]));
        i += 1;
    }
    assert(marks@.take(i as int) =~= marks@);
    out
}

fn copy_label_fragments(label: &Vec<DisplayTextFragment>) -> (res: Vec<DisplayTextFragment>)
    ensures
        res@.map_values(|f: DisplayTextFragment| fragment_view(f)) == label@.map_values(
            |f: DisplayTextFragment| fragment_view(f),
        ),
{
    let mut out: Vec<DisplayTextFragment> = Vec::new();
    let mut i: usize = 0;
    while i < label.len()
        invariant
            i <= label@.len(),
            out@.map_values(|f: DisplayTextFragment| fragment_view(f)) == label@.take(i as int).map_values(
                |f: DisplayTextFragment| fragment_view(f),
            ),
        decreases label.len() - i,
    {
        let f = DisplayTextFragment { content: label[i].content.clone(), style: label[i].style };
        assert(fragment_view(f) == fragment_view(label@[i as int]));
        let ghost prev = out@;
        out.push(f);
        assert(out@ == prev.push(f));
        assert(out@.map_values(|f: DisplayTextFragment| fragment_view(f)) =~= prev.map_values(
            |f: DisplayTextFragment| fragment_view(f),
        ).push(fragment_view(f)));
        assert(label@.take(i + 1).map_values(|f: DisplayTextFragment| fragment_view(f)) =~= label@.take(
            i as int,
        ).map_values(|f: DisplayTextFragment| fragment_view(f)).push(fragment_view(label@[i as int])));
        assert(out@.map_values(|f: DisplayTextFragment| fragment_view(f)) =~= label@.take(i + 1).map_values(
            |f: DisplayTextFragment| fragment_view(f),
        ));
        i += 1;
    }
    assert(label@.take(i as int) =~= label@);
    out
}

impl Clone for DisplayLine {
    fn clone(&self) -> (res: Self)
        ensures
            res@ == self@,
    {
        match self {
            DisplayLine::Annotation { label, id, aligned, annotation_type } => DisplayLine::Annotation {
                label: copy_label_fragments(label),
                id: match id {
                    Some(i) => Some(i.clone()),
                    None => None,
                },
                aligned: *aligned,
                annotation_type: *annotation_type,
            },
            DisplayLine::Origin { path, pos, header_type } => DisplayLine::Origin {
                path: path.clone(),
                pos: *pos,
                header_type: *header_type,
            },
            DisplayLine::EmptySource => DisplayLine::EmptySource,
            DisplayLine::Source { lineno, inline_marks, content, range } => DisplayLine::Source {
                lineno: *lineno,
                inline_marks: copy_marks(inline_marks),
                content: content.clone(),
                range: *range,
            },
            DisplayLine::SourceAnnotation { inline_marks, range, label, annotation_type, annotation_part } =>
                DisplayLine::SourceAnnotation {
                inline_marks: copy_marks(inline_marks),
                range: *range,
                label: copy_label_fragments(label),
                annotation_type: *annotation_type,
                annotation_part: *annotation_part,
            },
            DisplayLine::Fold { inline_marks } => DisplayLine::Fold { inline_marks: copy_marks(inline_marks) },
        }
    }
}

/// The views of lines.
pub open spec fn body_view(body: Seq<DisplayLine>) -> Seq<LineView> {
    body.map_values(|l: DisplayLine| l@)
}

/// Folding from line `idx` on, with `counter` lines seen since the last
/// annotation: each annotation line brings back the lines before it (when
/// there are more than ten of them, only the first four, a fold line with
/// the annotation's marks, and the last two), then itself; source lines wait
/// to be brought back that way, and are dropped when no annotation follows;
/// every other line is kept where it is (and counted, so an annotation
/// after it brings it back once more).
pub open spec fn fold_from(body: Seq<LineView>, idx: int, counter: int) -> Seq<LineView>
    decreases body.len() - idx,
{
    if idx < 0 || idx >= body.len() {
        Seq::empty()
    } else {
        match body[idx] {
            LineView::SourceAnnotation { inline_marks, .. } => (if counter > 10 {
                body.subrange(idx - counter, idx - counter + 4) + seq![LineView::Fold { inline_marks }]
                    + body.subrange(idx - 2, idx)
            } else {
                body.subrange(idx - counter, idx)
            }) + seq![body[idx]] + fold_from(body, idx + 1, 0),
            LineView::Source { .. } => fold_from(body, idx + 1, counter + 1),
            _ => seq![body[idx]] + fold_from(body, idx + 1, counter + 1),
        }
    }
}

fn push_copies(out: &mut Vec<DisplayLine>, body: &[DisplayLine], from: usize, to: usize)
    requires
        from <= to <= body@.len(),
    ensures
        body_view(final(out)@) == body_view(old(out)@) + body_view(body@).subrange(from as int, to as int),
{
    let ghost start = body_view(out@);
    let mut i: usize = from;
    while i < to
        invariant
            from <= i <= to,
            to <= body@.len(),
            body_view(out@) == start + body_view(body@).subrange(from as int, i as int),
        decreases to - i,
    {
        let c = body[i].clone();
        assert(c@ == body@[i as int]@);
        let ghost prev = out@;
        out.push(c);
        assert(out@ == prev.push(c));
        assert(body_view(out@) =~= body_view(prev).push(c@));
        assert(body_view(out@) =~= start + body_view(body@).subrange(from as int, i + 1));
        i += 1;
    }
}

/// The body with long runs of unannotated lines folded, as `fold_from`
/// describes it.
pub fn fold_body(body: &[DisplayLine]) -> (res: Vec<DisplayLine>)
    ensures
        body_view(res@) == fold_from(body_view(body@), 0, 0),
{
    let ghost v = body_view(body@);
    let mut new_body: Vec<DisplayLine> = Vec::new();
    let mut no_annotation_lines_counter: usize = 0;
    let mut idx: usize = 0;
    while idx < body.len()
        invariant
            idx <= body@.len(),
            v == body_view(body@),
            no_annotation_lines_counter <= idx,
            body_view(new_body@) + fold_from(v, idx as int, no_annotation_lines_counter as int) == fold_from(v, 0, 0),
        decreases body.len() - idx,
    {
        let ghost before = body_view(new_body@);
        let ghost c0 = no_annotation_lines_counter as int;
        assert(v[idx as int] == body@[idx as int]@);
        match &body[idx] {
            DisplayLine::SourceAnnotation { inline_marks, .. } => {
                if no_annotation_lines_counter > 10 {
                    let fold_start = idx - no_annotation_lines_counter;
                    let fold_end = idx;
                    push_copies(&mut new_body, body, fold_start, fold_start + 4);
                    let marks = copy_marks(inline_marks);
                    let ghost prev = new_body@;
                    let fold_line = DisplayLine::Fold { inline_marks: marks };
                    assert(fold_line@ == LineView::Fold { inline_marks: inline_marks@ });
                    new_body.push(fold_line);
                    assert(new_body@ == prev.push(fold_line));
                    assert(body_view(new_body@) =~= body_view(prev).push(fold_line@));
                    push_copies(&mut new_body, body, fold_end - 2, fold_end);
                } else {
                    let start = idx - no_annotation_lines_counter;
                    push_copies(&mut new_body, body, start, idx);
                }
                no_annotation_lines_counter = 0;
            },
            DisplayLine::Source { .. } => {
                no_annotation_lines_counter += 1;
                idx += 1;
                continue ;
            },
            _ => {
                no_annotation_lines_counter += 1;
            },
        }
        let ghost mid = body_view(new_body@);
        let c = body[idx].clone();
        assert(c@ == v[idx as int]);
        let ghost prev = new_body@;
        new_body.push(c);
        assert(new_body@ == prev.push(c));
        assert(body_view(new_body@) =~= mid.push(v[idx as int]));
        assert(body_view(new_body@) + fold_from(v, idx + 1, no_annotation_lines_counter as int) =~= before
            + fold_from(v, idx as int, c0));
        idx += 1;
    }
    new_body
}


/// The view of the label split from `text` at `__`, styled as
/// `fragment_style` says.
pub open spec fn label_views(text: Seq<char>, style: Option<DisplayTextStyle>) -> Seq<(Seq<char>, DisplayTextStyle)> {
    Seq::new(split_dunder(text).len(), |i: int| (split_dunder(text)[i], fragment_style(style, i)))
}

pub(crate) proof fn lemma_label_views(label: Seq<DisplayTextFragment>, text: Seq<char>, style: Option<DisplayTextStyle>)
    requires
        is_label_of(label, text, style),
    ensures
        label.map_values(|f: DisplayTextFragment| fragment_view(f)) == label_views(text, style),
{
    assert(label.map_values(|f: DisplayTextFragment| fragment_view(f)) =~= label_views(text, style));
}

/// Where line `i` of `ls` starts, each earlier line taking its length in
/// characters plus two.
pub open spec fn line_index(ls: Seq<Seq<char>>, i: int) -> int
    decreases i,
{
    if i <= 0 {
        0
    } else {
        line_index(ls, i - 1) + ls[i - 1].len() + 2
    }
}

/// The range given to line `i`: from where it starts to one past its end.
pub open spec fn line_range(ls: Seq<Seq<char>>, i: int) -> (int, int) {
    (line_index(ls, i), line_index(ls, i) + ls[i].len() + 1)
}

pub(crate) proof fn lemma_line_index_mono(ls: Seq<Seq<char>>, i: int, j: int)
    requires
        0 <= i <= j,
    ensures
        line_index(ls, i) <= line_index(ls, j),
    decreases j - i,
{
    if i < j {
        lemma_line_index_mono(ls, i, j - 1);
    }
}

/// Source line `i`, numbered from `first`, with no marks yet.
pub open spec fn source_line_view(ls: Seq<Seq<char>>, first: int, i: int) -> LineView {
    LineView::Source {
        lineno: (first + i) as usize,
        inline_marks: Seq::empty(),
        content: ls[i],
        range: (line_range(ls, i).0 as usize, line_range(ls, i).1 as usize),
    }
}

/// The source lines of a text, numbered from `first`.
pub open spec fn source_line_views(ls: Seq<Seq<char>>, first: int) -> Seq<LineView> {
    Seq::new(ls.len(), |i: int| source_line_view(ls, first, i))
}

/// The body with `m` added to the marks of line `i` when that is a source
/// line; any other line is left as it is.
pub open spec fn add_mark(body: Seq<LineView>, i: int, m: DisplayMark) -> Seq<LineView> {
    match body[i] {
        LineView::Source { lineno, inline_marks, content, range } => body.update(
            i,
            LineView::Source { lineno, inline_marks: inline_marks.push(m), content, range },
        ),
        _ => body,
    }
}

/// A source annotation line.
pub open spec fn annotation_line_view(
    marks: Seq<DisplayMark>,
    from: int,
    to: int,
    label: Seq<(Seq<char>, DisplayTextStyle)>,
    t: AnnotationType,
    part: DisplayAnnotationPart,
) -> LineView {
    LineView::SourceAnnotation {
        inline_marks: marks,
        range: (from as usize, to as usize),
        label,
        annotation_type: display_type_of(t),
        annotation_part: part,
    }
}

/// What one annotation does at source line `idx`, whose range is
/// `(ls, le)`, after `count` annotation lines were inserted, so that the
/// line written last for this source line stands at `idx + count`. It
/// returns the body, the count, and whether the annotation stays for the
/// following lines:
/// - one starting after the line waits;
/// - one within the line gets a single-line annotation line below, and is
///   done;
/// - one starting on the line and ending after it marks the line's start
///   when it starts at its first character, and else gets a line with a
///   one-character start mark; it stays;
/// - one crossing the line marks it as passed through, and stays;
/// - one ending on the line marks it as passed through and gets an end line
///   with its label, and is done;
/// - one that ended before the line waits.
/// A mark goes to the line at `idx + count` only when that is the source
/// line itself.
pub open spec fn annotation_step<'a>(
    body: Seq<LineView>,
    count: int,
    idx: int,
    ls: int,
    le: int,
    a: SourceAnnotation<'a>,
) -> (Seq<LineView>, int, bool) {
    let at = idx + count;
    let start = a.range.0 as int;
    let end = a.range.1 as int;
    if start > le {
        (body, count, true)
    } else if start >= ls && end <= le + 1 {
        (
            body.insert(
                at + 1,
                annotation_line_view(
                    Seq::empty(),
                    start - ls,
                    end - ls,
                    label_views(a.label@, None),
                    a.annotation_type,
                    DisplayAnnotationPart::Singleline,
                ),
            ),
            count + 1,
            false,
        )
    } else if start >= ls && start <= le && end > le {
        if start == ls {
            (add_mark(body, at, DisplayMark::AnnotationStart), count, true)
        } else {
            (
                body.insert(
                    at + 1,
                    annotation_line_view(
                        Seq::empty(),
                        start - ls,
                        start - ls + 1,
                        Seq::empty(),
                        a.annotation_type,
                        DisplayAnnotationPart::MultilineStart,
                    ),
                ),
                count + 1,
                true,
            )
        }
    } else if start < ls && end > le {
        (add_mark(body, at, DisplayMark::AnnotationThrough), count, true)
    } else if start < ls && end >= ls && end <= le {
        (
            add_mark(body, at, DisplayMark::AnnotationThrough).insert(
                at + 1,
                annotation_line_view(
                    seq![DisplayMark::AnnotationThrough],
                    end - ls,
                    end - ls + 1,
                    label_views(a.label@, None),
                    a.annotation_type,
                    DisplayAnnotationPart::MultilineEnd,
                ),
            ),
            count + 1,
            false,
        )
    } else {
        (body, count, true)
    }
}

/// The annotations taken in order at one source line: the body, the count,
/// and the annotations that stay, in order.
pub open spec fn drain_line<'a>(
    body: Seq<LineView>,
    count: int,
    idx: int,
    ls: int,
    le: int,
    anns: Seq<SourceAnnotation<'a>>,
) -> (Seq<LineView>, int, Seq<SourceAnnotation<'a>>)
    decreases anns.len(),
{
    if anns.len() == 0 {
        (body, count, Seq::empty())
    } else {
        let (b1, c1, stays) = annotation_step(body, count, idx, ls, le, anns[0]);
        let (b2, c2, rest) = drain_line(b1, c1, idx, ls, le, anns.skip(1));
        (b2, c2, if stays { seq![anns[0]] + rest } else { rest })
    }
}

/// The source lines from `idx` on taken in turn, each with the annotations
/// that are still waiting.
pub open spec fn annotate_from<'a>(
    body: Seq<LineView>,
    count: int,
    anns: Seq<SourceAnnotation<'a>>,
    ls: Seq<Seq<char>>,
    idx: int,
) -> Seq<LineView>
    decreases ls.len() - idx,
{
    if idx < 0 || idx >= ls.len() {
        body
    } else {
        let (b1, c1, rest) = drain_line(body, count, idx, line_range(ls, idx).0, line_range(ls, idx).1, anns);
        annotate_from(b1, c1, rest, ls, idx + 1)
    }
}

/// The body of a slice: its source lines with the annotation lines and
/// marks, folded when the slice asks for it, opened by an empty line and
/// closed by one when a footer follows or the last line is a source line.
pub open spec fn body_spec<'a>(slice: Slice<'a>, has_footer: bool) -> Seq<LineView> {
    let ls = text_lines(slice.source@);
    let annotated = annotate_from(source_line_views(ls, slice.line_start as int), 0, slice.annotations@, ls, 0);
    let folded = if slice.fold { fold_from(annotated, 0, 0) } else { annotated };
    let opened = seq![LineView::EmptySource] + folded;
    if has_footer || opened.last() is Source {
        opened.push(LineView::EmptySource)
    } else {
        opened
    }
}

/// An annotation that starts within the range `(ls, le)` does not end
/// before it.
pub open spec fn starts_within<'a>(a: SourceAnnotation<'a>, ls: int, le: int) -> bool {
    ls <= a.range.0 <= le ==> a.range.1 >= ls
}

/// The annotation does not start on a line and end before that line's
/// start.
pub open spec fn fits_lines<'a>(ls: Seq<Seq<char>>, a: SourceAnnotation<'a>) -> bool {
    forall|i: int| 0 <= i < ls.len() ==> #[trigger] starts_within(a, line_range(ls, i).0, line_range(ls, i).1)
}

/// No annotation starts on a line and ends before that line's start.
pub open spec fn annotations_fit<'a>(ls: Seq<Seq<char>>, anns: Seq<SourceAnnotation<'a>>) -> bool {
    forall|j: int| 0 <= j < anns.len() ==> fits_lines(ls, #[trigger] anns[j])
}

proof fn lemma_drain_keeps_fit<'a>(
    body: Seq<LineView>,
    count: int,
    idx: int,
    ls: int,
    le: int,
    anns: Seq<SourceAnnotation<'a>>,
    lines: Seq<Seq<char>>,
)
    requires
        annotations_fit(lines, anns),
    ensures
        annotations_fit(lines, drain_line(body, count, idx, ls, le, anns).2),
    decreases anns.len(),
{
    if anns.len() > 0 {
        let (b1, c1, stays) = annotation_step(body, count, idx, ls, le, anns[0]);
        assert(annotations_fit(lines, anns.skip(1))) by {
            assert forall|j: int| 0 <= j < anns.skip(1).len() implies fits_lines(lines, #[trigger] anns.skip(1)[j]) by {
                assert(anns.skip(1)[j] == anns[j + 1]);
            }
        }
        lemma_drain_keeps_fit(b1, c1, idx, ls, le, anns.skip(1), lines);
        let rest = drain_line(b1, c1, idx, ls, le, anns.skip(1)).2;
        if stays {
            let r = seq![anns[0]] + rest;
            assert forall|j: int| 0 <= j < r.len() implies fits_lines(lines, #[trigger] r[j]) by {
                if j > 0 {
                    assert(r[j] == rest[j - 1]);
                }
            }
        }
    }
}

/// The line numbers and the character positions of a slice fit in `usize`.
pub open spec fn body_fits<'a>(slice: Slice<'a>) -> bool {
    let ls = text_lines(slice.source@);
    &&& slice.line_start + ls.len() <= usize::MAX
    &&& line_index(ls, ls.len() as int) <= usize::MAX
}


/// Adds `m` to the marks of line `i` when it is a source line.
fn add_mark_at(body: &mut Vec<DisplayLine>, i: usize, m: DisplayMark)
    requires
        i < old(body)@.len(),
    ensures
        body_view(final(body)@) == add_mark(body_view(old(body)@), i as int, m),
        final(body)@.len() == old(body)@.len(),
{
    let ghost bv = body_view(body@);
    assert(bv[i as int] == body@[i as int]@);
    let new_line = match &body[i] {
        DisplayLine::Source { lineno, inline_marks, content, range } => {
            let mut marks = copy_marks(inline_marks);
            marks.push(m);
            Some(DisplayLine::Source { lineno: *lineno, inline_marks: marks, content: content.clone(), range: *range })
        },
        _ => None,
    };
    match new_line {
        Some(l) => {
            let ghost prev = body@;
            body.set(i, l);
            assert(body@ == prev.update(i as int, l));
            assert(body_view(body@) =~= bv.update(i as int, l@));
        },
        None => {},
    }
}

/// Inserts `line` at `i`.
fn insert_line(body: &mut Vec<DisplayLine>, i: usize, line: DisplayLine)
    requires
        i <= old(body)@.len(),
    ensures
        body_view(final(body)@) == body_view(old(body)@).insert(i as int, line@),
        final(body)@.len() == old(body)@.len() + 1,
{
    let ghost prev = body@;
    body.insert(i, line);
    assert(body@ == prev.insert(i as int, line));
    assert(body_view(body@) =~= body_view(prev).insert(i as int, line@));
}

/// The source lines of a slice, numbered from its first line number, and
/// the range of each.
fn source_lines(slice: &Slice) -> (res: (Vec<DisplayLine>, Vec<(usize, usize)>))
    requires
        body_fits(*slice),
    ensures
        body_view(res.0@) == source_line_views(text_lines(slice.source@), slice.line_start as int),
        res.1@.len() == text_lines(slice.source@).len(),
        forall|j: int|
            0 <= j < res.1@.len() ==> #[trigger] res.1@[j].0 == line_range(text_lines(slice.source@), j).0
                && res.1@[j].1 == line_range(text_lines(slice.source@), j).1 && res.1@[j].1 < usize::MAX,
{
    let lines = collect_lines(slice.source);
    proof {
        lemma_lines_view(slice.source, lines@);
    }
    let ghost ls = text_lines(slice.source@);
    let ghost n = ls.len() as int;
    let mut body: Vec<DisplayLine> = Vec::new();
    let mut ranges: Vec<(usize, usize)> = Vec::new();
    let mut current_line: usize = slice.line_start;
    let mut current_index: usize = 0;
    let mut i: usize = 0;
    while i < lines.len()
        invariant
            i <= lines@.len(),
            n == lines@.len(),
            ls == crate::format::piece_texts(lines@),
            ls == text_lines(slice.source@),
            body_fits(*slice),
            current_line == slice.line_start + i,
            current_index == line_index(ls, i as int),
            body_view(body@) == source_line_views(ls, slice.line_start as int).take(i as int),
            ranges@.len() == i,
            forall|j: int|
                0 <= j < i ==> #[trigger] ranges@[j].0 == line_range(ls, j).0 && ranges@[j].1 == line_range(ls, j).1
                    && ranges@[j].1 < usize::MAX,
        decreases lines.len() - i,
    {
        let text = lines[i].0;
        assert(text@ == ls[i as int]);
        proof {
            lemma_line_index_mono(ls, i + 1, n);
            assert(line_index(ls, i + 1) == line_index(ls, i as int) + ls[i as int].len() + 2);
        }
        let line_length = text.unicode_len() + 1;
        let range = (current_index, current_index + line_length);
        let line = DisplayLine::Source {
            lineno: current_line,
            inline_marks: Vec::new(),
            content: text.to_owned(),
            range,
        };
        assert(line@ == source_line_view(ls, slice.line_start as int, i as int));
        let ghost prev = body@;
        body.push(line);
        assert(body@ == prev.push(line));
        assert(source_line_views(ls, slice.line_start as int).take(i + 1) =~= source_line_views(
            ls,
            slice.line_start as int,
        ).take(i as int).push(source_line_view(ls, slice.line_start as int, i as int)));
        assert(body_view(body@) =~= body_view(prev).push(line@));
        ranges.push(range);
        current_line += 1;
        current_index += line_length + 1;
        i += 1;
    }
    assert(source_line_views(ls, slice.line_start as int).take(n) =~= source_line_views(ls, slice.line_start as int));
    (body, ranges)
}


/// Takes the annotations in order at source line `idx`, whose range is
/// `(line_start, line_end)`, as `drain_line` describes; returns the count of
/// annotation lines inserted so far and the annotations that stay.
fn drain_annotations<'a>(
    body: &mut Vec<DisplayLine>,
    count: usize,
    n: usize,
    idx: usize,
    line_start: usize,
    line_end: usize,
    anns: &Vec<SourceAnnotation<'a>>,
) -> (res: (usize, Vec<SourceAnnotation<'a>>))
    requires
        old(body)@.len() == n + count,
        idx < n,
        line_end < usize::MAX,
        forall|j: int|
            0 <= j < anns@.len() ==> starts_within(#[trigger] anns@[j], line_start as int, line_end as int),
    ensures
        (body_view(final(body)@), res.0 as int, res.1@) == drain_line(
            body_view(old(body)@),
            count as int,
            idx as int,
            line_start as int,
            line_end as int,
            anns@,
        ),
        final(body)@.len() == n + res.0,
{
    let ghost b0 = body_view(body@);
    let mut count = count;
    let ghost c0 = count as int;
    let mut kept: Vec<SourceAnnotation<'a>> = Vec::new();
    let mut k: usize = 0;
    proof {
        assert(anns@.skip(0) =~= anns@);
        let (b, c, rest) = drain_line(b0, c0, idx as int, line_start as int, line_end as int, anns@);
        assert(kept@ + rest =~= rest);
    }
    while k < anns.len()
        invariant
            k <= anns@.len(),
            body@.len() == n + count,
            idx < n,
            line_end < usize::MAX,
            forall|j: int|
                0 <= j < anns@.len() ==> starts_within(#[trigger] anns@[j], line_start as int, line_end as int),
            ({
                let (b, c, rest) = drain_line(
                    body_view(body@),
                    count as int,
                    idx as int,
                    line_start as int,
                    line_end as int,
                    anns@.skip(k as int),
                );
                (b, c, kept@ + rest)
            }) == drain_line(b0, c0, idx as int, line_start as int, line_end as int, anns@),
        decreases anns.len() - k,
    {
        let ghost bv = body_view(body@);
        let ghost cv = count as int;
        let ann = anns[k];
        let ghost step = annotation_step(bv, cv, idx as int, line_start as int, line_end as int, ann);
        assert(anns@.skip(k as int)[0] == ann);
        assert(anns@.skip(k as int).skip(1) =~= anns@.skip(k + 1));
        let len = body.len();
        let body_idx = idx + count;
        let (start, end) = ann.range;
        let stays: bool;
        if start > line_end {
            stays = true;
        } else if start >= line_start && end <= line_end + 1 {
            let label = format_label(Some(ann.label), None);
            proof {
                lemma_label_views(label@, ann.label@, None);
            }
            let line = DisplayLine::SourceAnnotation {
                inline_marks: Vec::new(),
                range: (start - line_start, end - line_start),
                label,
                annotation_type: DisplayAnnotationType::from(ann.annotation_type),
                annotation_part: DisplayAnnotationPart::Singleline,
            };
            assert(line@ == annotation_line_view(
                Seq::empty(),
                start - line_start,
                end - line_start,
                label_views(ann.label@, None),
                ann.annotation_type,
                DisplayAnnotationPart::Singleline,
            ));
            insert_line(body, body_idx + 1, line);
            count += 1;
            stays = false;
        } else if start >= line_start && start <= line_end && end > line_end {
            if start - line_start == 0 {
                add_mark_at(body, body_idx, DisplayMark::AnnotationStart);
            } else {
                let label: Vec<DisplayTextFragment> = Vec::new();
                assert(label@.map_values(|f: DisplayTextFragment| fragment_view(f)) =~= Seq::empty());
                let line = DisplayLine::SourceAnnotation {
                    inline_marks: Vec::new(),
                    range: (start - line_start, start - line_start + 1),
                    label,
                    annotation_type: DisplayAnnotationType::from(ann.annotation_type),
                    annotation_part: DisplayAnnotationPart::MultilineStart,
                };
                assert(line@ == annotation_line_view(
                    Seq::empty(),
                    start - line_start,
                    start - line_start + 1,
                    Seq::empty(),
                    ann.annotation_type,
                    DisplayAnnotationPart::MultilineStart,
                ));
                insert_line(body, body_idx + 1, line);
                count += 1;
            }
            stays = true;
        } else if start < line_start && end > line_end {
            add_mark_at(body, body_idx, DisplayMark::AnnotationThrough);
            stays = true;
        } else if start < line_start && end >= line_start && end <= line_end {
            add_mark_at(body, body_idx, DisplayMark::AnnotationThrough);
            let label = format_label(Some(ann.label), None);
            proof {
                lemma_label_views(label@, ann.label@, None);
            }
            let mut marks: Vec<DisplayMark> = Vec::new();
            marks.push(DisplayMark::AnnotationThrough);
            let line = DisplayLine::SourceAnnotation {
                inline_marks: marks,
                range: (end - line_start, end - line_start + 1),
                label,
                annotation_type: DisplayAnnotationType::from(ann.annotation_type),
                annotation_part: DisplayAnnotationPart::MultilineEnd,
            };
            assert(marks@ =~= seq![DisplayMark::AnnotationThrough]);
            assert(line@ == annotation_line_view(
                seq![DisplayMark::AnnotationThrough],
                end - line_start,
                end - line_start + 1,
                label_views(ann.label@, None),
                ann.annotation_type,
                DisplayAnnotationPart::MultilineEnd,
            ));
            insert_line(body, body_idx + 1, line);
            count += 1;
            stays = false;
        } else {
            stays = true;
        }
        assert(step == (body_view(body@), count as int, stays));
        let ghost kept_before = kept@;
        if stays {
            kept.push(ann);
        }
        proof {
            let (b2, c2, rest) = drain_line(
                body_view(body@),
                count as int,
                idx as int,
                line_start as int,
                line_end as int,
                anns@.skip(k + 1),
            );
            if stays {
                assert(kept@ + rest =~= kept_before + (seq![ann] + rest));
            } else {
                assert(kept@ == kept_before);
            }
        }
        k += 1;
    }
    assert(anns@.skip(k as int) =~= Seq::<SourceAnnotation<'a>>::empty());
    assert(kept@ + Seq::<SourceAnnotation<'a>>::empty() =~= kept@);
    (count, kept)
}


/// Adds the annotation lines and marks of the annotations to the source
/// lines, as `annotate_from` describes.
fn annotate_body<'a>(
    body: &mut Vec<DisplayLine>,
    ranges: &Vec<(usize, usize)>,
    anns: &Vec<SourceAnnotation<'a>>,
    Ghost(ls): Ghost<Seq<Seq<char>>>,
)
    requires
        old(body)@.len() == ls.len(),
        ranges@.len() == ls.len(),
        forall|j: int|
            0 <= j < ranges@.len() ==> #[trigger] ranges@[j].0 == line_range(ls, j).0 && ranges@[j].1 == line_range(ls, j).1
                && ranges@[j].1 < usize::MAX,
        annotations_fit(ls, anns@),
    ensures
        body_view(final(body)@) == annotate_from(body_view(old(body)@), 0, anns@, ls, 0),
{
    let ghost b0 = body_view(body@);
    let n = ranges.len();
    let mut count: usize = 0;
    let mut annotations: Vec<SourceAnnotation<'a>> = Vec::new();
    let mut k: usize = 0;
    while k < anns.len()
        invariant
            k <= anns@.len(),
            annotations@ == anns@.take(k as int),
        decreases anns.len() - k,
    {
        annotations.push(anns[k]);
        assert(anns@.take(k + 1) =~= anns@.take(k as int).push(anns@[k as int]));
        k += 1;
    }
    assert(anns@.take(k as int) =~= anns@);
    let mut idx: usize = 0;
    while idx < n
        invariant
            idx <= n,
            n == ls.len(),
            body@.len() == n + count,
            ranges@.len() == n,
            forall|j: int|
                0 <= j < ranges@.len() ==> #[trigger] ranges@[j].0 == line_range(ls, j).0 && ranges@[j].1 == line_range(
                    ls,
                    j,
                ).1 && ranges@[j].1 < usize::MAX,
            annotations_fit(ls, annotations@),
            annotate_from(body_view(body@), count as int, annotations@, ls, idx as int) == annotate_from(
                b0,
                0,
                anns@,
                ls,
                0,
            ),
        decreases n - idx,
    {
        let (line_start, line_end) = ranges[idx];
        assert(line_start == line_range(ls, idx as int).0 && line_end == line_range(ls, idx as int).1);
        assert forall|j: int| 0 <= j < annotations@.len() implies starts_within(
            #[trigger] annotations@[j],
            line_start as int,
            line_end as int,
        ) by {
            assert(fits_lines(ls, annotations@[j]));
            assert(starts_within(annotations@[j], line_range(ls, idx as int).0, line_range(ls, idx as int).1));
        }
        let ghost bv = body_view(body@);
        let ghost cv = count as int;
        let ghost av = annotations@;
        let (c, kept) = drain_annotations(body, count, n, idx, line_start, line_end, &annotations);
        proof {
            lemma_drain_keeps_fit(bv, cv, idx as int, line_start as int, line_end as int, av, ls);
        }
        count = c;
        annotations = kept;
        idx += 1;
    }
}


/// The body of a slice, as `body_spec` describes it: its source lines, each
/// followed by the lines of the annotations under it, with the marks of the
/// multiline annotations, folded when the slice asks for it, and opened and
/// closed by empty lines.
pub fn format_body(slice: &Slice, has_footer: bool) -> (res: Vec<DisplayLine>)
    requires
        body_fits(*slice),
        annotations_fit(text_lines(slice.source@), slice.annotations@),
    ensures
        body_view(res@) == body_spec(*slice, has_footer),
{
    let ghost ls = text_lines(slice.source@);
    let (mut body, ranges) = source_lines(slice);
    assert(body@.len() == body_view(body@).len());
    annotate_body(&mut body, &ranges, &slice.annotations, Ghost(ls));
    if slice.fold {
        body = fold_body(body.as_slice());
    }
    let ghost folded = body_view(body@);
    insert_line(&mut body, 0, DisplayLine::EmptySource);
    assert(body_view(body@) =~= seq![LineView::EmptySource] + folded);
    if has_footer {
        let ghost prev = body@;
        body.push(DisplayLine::EmptySource);
        assert(body_view(body@) =~= body_view(prev).push(LineView::EmptySource));
    } else {
        let last = body.len() - 1;
        assert(body_view(body@).last() == body@[last as int]@);
        let is_source = match &body[last] {
            DisplayLine::Source { .. } => true,
            _ => false,
        };
        if is_source {
            let ghost prev = body@;
            body.push(DisplayLine::EmptySource);
            assert(body_view(body@) =~= body_view(prev).push(LineView::EmptySource));
        }
    }
    body
}


/// Where the first annotation starts, as a line number and a column: line
/// numbers count the source lines from `row` on until the first whose range
/// holds `start`, and the column is `start`'s offset in that line, or 1 when
/// no line holds it.
pub open spec fn header_pos(body: Seq<LineView>, start: int, row: int, from: int) -> (int, int)
    decreases body.len() - from,
{
    if from < 0 || from >= body.len() {
        (row, 1)
    } else {
        match body[from] {
            LineView::Source { range, .. } => if start >= range.0 && start <= range.1 {
                (row, start - range.0)
            } else {
                header_pos(body, start, row + 1, from + 1)
            },
            _ => header_pos(body, start, row, from + 1),
        }
    }
}

proof fn lemma_header_row_grows(body: Seq<LineView>, start: int, row: int, from: int)
    ensures
        header_pos(body, start, row, from).0 >= row,
    decreases body.len() - from,
{
    if 0 <= from < body.len() {
        match body[from] {
            LineView::Source { range, .. } => if !(start >= range.0 && start <= range.1) {
                lemma_header_row_grows(body, start, row + 1, from + 1);
            },
            _ => lemma_header_row_grows(body, start, row, from + 1),
        }
    }
}

/// The kind of a slice's origin line: initial for the first slice.
pub open spec fn header_type_of(is_first: bool) -> DisplayHeaderType {
    if is_first {
        DisplayHeaderType::Initial
    } else {
        DisplayHeaderType::Continuation
    }
}

/// The origin line of a slice, when it has an origin: with the position of
/// its first annotation when it has one.
pub open spec fn header_spec<'a>(slice: Slice<'a>, body: Seq<LineView>, is_first: bool) -> Option<LineView> {
    match slice.origin {
        None => None,
        Some(path) => Some(
            LineView::Origin {
                path: path@,
                pos: if slice.annotations@.len() > 0 {
                    let p = header_pos(body, slice.annotations@[0].range.0 as int, slice.line_start as int, 0);
                    Some((p.0 as usize, p.1 as usize))
                } else {
                    None
                },
                header_type: header_type_of(is_first),
            },
        ),
    }
}

/// The line number of the first annotation fits in `usize`.
pub open spec fn header_fits<'a>(slice: Slice<'a>, body: Seq<LineView>) -> bool {
    slice.annotations@.len() > 0 ==> header_pos(
        body,
        slice.annotations@[0].range.0 as int,
        slice.line_start as int,
        0,
    ).0 <= usize::MAX
}

/// An optional line as an optional view.
pub open spec fn opt_line_view(l: Option<DisplayLine>) -> Option<LineView> {
    match l {
        Some(l) => Some(l@),
        None => None,
    }
}

/// The origin line of a slice, as `header_spec` describes it.
pub fn format_header(slice: &Slice, body: &[DisplayLine], is_first: bool) -> (res: Option<DisplayLine>)
    requires
        header_fits(*slice, body_view(body@)),
    ensures
        opt_line_view(res) == header_spec(*slice, body_view(body@), is_first),
{
    let display_header = if is_first {
        DisplayHeaderType::Initial
    } else {
        DisplayHeaderType::Continuation
    };
    if slice.annotations.len() > 0 {
        let annotation = slice.annotations[0];
        let ghost bv = body_view(body@);
        let ghost start = annotation.range.0 as int;
        let ghost target = header_pos(bv, start, slice.line_start as int, 0);
        let mut col: usize = 1;
        let mut row: usize = slice.line_start;
        let mut idx: usize = 0;
        loop
            invariant_except_break
                idx <= body@.len(),
                bv == body_view(body@),
                col == 1,
                header_pos(bv, start, row as int, idx as int) == target,
                target.0 <= usize::MAX,
                start == annotation.range.0,
            ensures
                (row as int, col as int) == target,
            decreases body.len() - idx,
        {
            if idx >= body.len() {
                break;
            }
            assert(bv[idx as int] == body@[idx as int]@);
            match &body[idx] {
                DisplayLine::Source { range, .. } => {
                    if annotation.range.0 >= range.0 && annotation.range.0 <= range.1 {
                        col = annotation.range.0 - range.0;
                        break;
                    }
                    proof {
                        lemma_header_row_grows(bv, start, row + 1, idx + 1);
                    }
                    row += 1;
                },
                _ => {},
            }
            idx += 1;
        }
        match slice.origin {
            Some(path) => Some(
                DisplayLine::Origin { path: path.to_owned(), pos: Some((row, col)), header_type: display_header },
            ),
            None => None,
        }
    } else {
        match slice.origin {
            Some(path) => Some(DisplayLine::Origin { path: path.to_owned(), pos: None, header_type: display_header }),
            None => None,
        }
    }
}

/// The lines of a slice: its origin line, when it has one, then its body.
pub open spec fn slice_spec<'a>(slice: Slice<'a>, is_first: bool, has_footer: bool) -> Seq<LineView> {
    let body = body_spec(slice, has_footer);
    match header_spec(slice, body, is_first) {
        Some(h) => seq![h] + body,
        None => body,
    }
}

/// A slice can be laid out without a number overflowing, and none of its
/// annotations starts on a line and ends before it.
pub open spec fn slice_fits<'a>(slice: Slice<'a>, has_footer: bool) -> bool {
    &&& body_fits(slice)
    &&& annotations_fit(text_lines(slice.source@), slice.annotations@)
    &&& header_fits(slice, body_spec(slice, has_footer))
}

/// The lines of a slice, as `slice_spec` describes them.
pub fn format_slice(slice: &Slice, is_first: bool, has_footer: bool) -> (res: Vec<DisplayLine>)
    requires
        slice_fits(*slice, has_footer),
    ensures
        body_view(res@) == slice_spec(*slice, is_first, has_footer),
{
    let mut body = format_body(slice, has_footer);
    let mut result: Vec<DisplayLine> = Vec::new();
    let header = format_header(slice, body.as_slice(), is_first);
    match header {
        Some(header) => {
            result.push(header);
        },
        None => {},
    }
    let ghost start = body_view(result@);
    let ghost b = body_view(body@);
    result.append(&mut body);
    assert(body_view(result@) =~= start + b);
    assert(match header_spec(*slice, b, is_first) {
        Some(h) => start =~= seq![h],
        None => start =~= Seq::<LineView>::empty(),
    });
    result
}


/// The view of the title line of a snippet.
pub open spec fn title_view<'a>(a: Annotation<'a>) -> LineView {
    LineView::Annotation {
        label: label_views(label_or_empty(a.label), Some(DisplayTextStyle::Emphasis)),
        id: match a.id {
            Some(i) => Some(i@),
            None => None,
        },
        aligned: false,
        annotation_type: display_type_of(a.annotation_type),
    }
}

/// The view of the footer line of a snippet.
pub open spec fn footer_view<'a>(a: Annotation<'a>) -> LineView {
    LineView::Annotation {
        label: label_views(label_or_empty(a.label), None),
        id: None,
        aligned: true,
        annotation_type: display_type_of(a.annotation_type),
    }
}

/// The lines of the slices one after another, the first with an initial
/// origin line and the others with continuation ones.
pub open spec fn slices_spec<'a>(slices: Seq<Slice<'a>>, has_footer: bool) -> Seq<LineView>
    decreases slices.len(),
{
    if slices.len() == 0 {
        Seq::empty()
    } else {
        slices_spec(slices.drop_last(), has_footer) + slice_spec(slices.last(), slices.len() == 1, has_footer)
    }
}

/// The lines of a snippet: its title line, its slices, its footer line.
pub open spec fn snippet_spec<'a>(snippet: Snippet<'a>) -> Seq<LineView> {
    (match snippet.title {
        Some(a) => seq![title_view(a)],
        None => Seq::empty(),
    }) + slices_spec(snippet.slices@, snippet.footer is Some) + (match snippet.footer {
        Some(a) => seq![footer_view(a)],
        None => Seq::empty(),
    })
}

/// Every slice of the snippet fits, as `slice_fits` says.
pub open spec fn snippet_fits<'a>(snippet: Snippet<'a>) -> bool {
    forall|i: int|
        0 <= i < snippet.slices@.len() ==> slice_fits(#[trigger] snippet.slices@[i], snippet.footer is Some)
}

impl DisplayList {
    /// The display list of a snippet, as `snippet_spec` describes it.
    pub fn from_snippet(snippet: Snippet) -> (res: DisplayList)
        requires
            snippet_fits(snippet),
        ensures
            body_view(res.body@) == snippet_spec(snippet),
    {
        let mut body: Vec<DisplayLine> = Vec::new();
        let has_footer = snippet.footer.is_some();
        match snippet.title {
            Some(annotation) => {
                let line = format_title(&annotation);
                proof {
                    if let DisplayLine::Annotation { label, .. } = &line {
                        lemma_label_views(label@, label_or_empty(annotation.label), Some(DisplayTextStyle::Emphasis));
                    }
                }
                assert(line@ == title_view(annotation));
                body.push(line);
                assert(body_view(body@) =~= seq![title_view(annotation)]);
            },
            None => {
                assert(body_view(body@) =~= Seq::<LineView>::empty());
            },
        }
        let ghost head = body_view(body@);
        let mut slice_idx: usize = 0;
        while slice_idx < snippet.slices.len()
            invariant
                slice_idx <= snippet.slices@.len(),
                has_footer == snippet.footer is Some,
                snippet_fits(snippet),
                body_view(body@) == head + slices_spec(snippet.slices@.take(slice_idx as int), has_footer),
            decreases snippet.slices.len() - slice_idx,
        {
            let ghost prev = body_view(body@);
            assert(slice_fits(snippet.slices@[slice_idx as int], has_footer));
            let mut lines = format_slice(&snippet.slices[slice_idx], slice_idx == 0, has_footer);
            let ghost ls = body_view(lines@);
            body.append(&mut lines);
            assert(body_view(body@) =~= prev + ls);
            let ghost taken = snippet.slices@.take(slice_idx + 1);
            assert(taken.drop_last() =~= snippet.slices@.take(slice_idx as int));
            assert(taken.last() == snippet.slices@[slice_idx as int]);
            slice_idx += 1;
        }
        assert(snippet.slices@.take(slice_idx as int) =~= snippet.slices@);
        let ghost mid = body_view(body@);
        match snippet.footer {
            Some(annotation) => {
                let line = format_annotation(&annotation);
                proof {
                    if let DisplayLine::Annotation { label, .. } = &line {
                        lemma_label_views(label@, label_or_empty(annotation.label), None);
                    }
                }
                assert(line@ == footer_view(annotation));
                body.push(line);
                assert(body_view(body@) =~= mid + seq![footer_view(annotation)]);
            },
            None => {
                assert(mid + Seq::<LineView>::empty() =~= mid);
            },
        }
        DisplayList { body }
    }
}

} // verus!
