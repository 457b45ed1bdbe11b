//! The output model with source and raw lines: source lines carry a line
//! number column, a column of marks and either source text, an annotation
//! under it, or nothing; raw lines are origins and messages.
use vstd::prelude::*;

pub use super::{DisplayHeaderType, DisplayTextFragment, DisplayTextStyle};
use super::fragment_view;

verus! {

/// The lines to be displayed.
pub struct DisplayList {
    pub body: Vec<DisplayLine>,
}

impl From<Vec<DisplayLine>> for DisplayList {
    fn from(body: Vec<DisplayLine>) -> (res: Self) {
        DisplayList { body }
    }
}

impl vstd::std_specs::convert::FromSpecImpl<Vec<DisplayLine>> for DisplayList {
    open spec fn obeys_from_spec() -> bool {
        true
    }

    open spec fn from_spec(body: Vec<DisplayLine>) -> Self {
        DisplayList { body }
    }
}

/// A message: its kind, an optional id, and its label.
pub struct Annotation {
    pub annotation_type: DisplayAnnotationType,
    pub id: Option<String>,
    pub label: Vec<DisplayTextFragment>,
}

/// A line of output.
pub enum DisplayLine {
    /// A line in the source columns: a line number (or none), marks, and
    /// what the line shows.
    Source { lineno: Option<usize>, inline_marks: Vec<DisplayMark>, line: DisplaySourceLine },
    /// Stands for source lines left out.
    Fold { inline_marks: Vec<DisplayMark> },
    /// A line outside the source columns.
    Raw(DisplayRawLine),
}

/// What a source line shows.
pub enum DisplaySourceLine {
    /// A line of source text and its range in the slice's characters.
    Content { text: String, range: (usize, usize) },
    /// The marks and label under the annotated part of a source line.
    Annotation {
        annotation: Annotation,
        range: (usize, usize),
        annotation_type: DisplayAnnotationType,
        annotation_part: DisplayAnnotationPart,
    },
    /// Nothing: the empty line that opens or closes a slice.
    Empty,
}

/// A line outside the source columns.
pub enum DisplayRawLine {
    /// Where a slice comes from, with the position of its first annotation.
    Origin { path: String, pos: Option<(usize, usize)>, header_type: DisplayHeaderType },
    /// A message, aligned to the source columns or not, and maybe the
    /// continuation of the message above it.
    Annotation { annotation: Annotation, source_aligned: bool, continuation: bool },
}

/// Which part of an annotation an annotation line draws.
#[derive(Debug, Clone, Copy, PartialEq, Eq, Structural)]
pub enum DisplayAnnotationPart {
    Standalone,
    LabelContinuation,
    Consequitive,
    MultilineStart,
    MultilineEnd,
}

/// A mark in the column between the line number and the source, with the
/// kind of the annotation it belongs to.
#[derive(Debug, Clone, Copy, PartialEq, Eq, Structural)]
pub struct DisplayMark {
    pub mark_type: DisplayMarkType,
    pub annotation_type: DisplayAnnotationType,
}

/// A multiline annotation passing through a line, or starting on it.
#[derive(Debug, Clone, Copy, PartialEq, Eq, Structural)]
pub enum DisplayMarkType {
    AnnotationThrough,
    AnnotationStart,
}

/// The kind of an annotation as it is displayed; `Untyped` shows no name.
#[derive(Debug, Clone, Copy, PartialEq, Eq, Structural)]
pub enum DisplayAnnotationType {
    Untyped,
    Error,
    Warning,
    Info,
    Note,
    Help,
}

/// A message as plain values.
pub struct AnnotationView {
    pub annotation_type: DisplayAnnotationType,
    pub id: Option<Seq<char>>,
    pub label: Seq<(Seq<char>, DisplayTextStyle)>,
}

/// What a source line shows, as plain values.
pub enum SourceLineView {
    Content { text: Seq<char>, range: (usize, usize) },
    Annotation {
        annotation: AnnotationView,
        range: (usize, usize),
        annotation_type: DisplayAnnotationType,
        annotation_part: DisplayAnnotationPart,
    },
    Empty,
}

/// A raw line as plain values.
pub enum RawLineView {
    Origin { path: Seq<char>, pos: Option<(usize, usize)>, header_type: DisplayHeaderType },
    Annotation { annotation: AnnotationView, source_aligned: bool, continuation: bool },
}

/// A line as plain values.
pub enum LineView {
    Source { lineno: Option<usize>, inline_marks: Seq<DisplayMark>, line: SourceLineView },
    Fold { inline_marks: Seq<DisplayMark> },
    Raw(RawLineView),
}

/// A label as plain values.
pub open spec fn label_view(label: Seq<DisplayTextFragment>) -> Seq<(Seq<char>, DisplayTextStyle)> {
    label.map_values(|f: DisplayTextFragment| fragment_view(f))
}

impl View for Annotation {
    type V = AnnotationView;

    open spec fn view(&self) -> AnnotationView {
        AnnotationView {
            annotation_type: self.annotation_type,
            id: match self.id {
                Some(i) => Some(i@),
                None => None,
            },
            label: label_view(self.label@),
        }
    }
}

impl View for DisplaySourceLine {
    type V = SourceLineView;

    open spec fn view(&self) -> SourceLineView {
        match self {
            DisplaySourceLine::Content { text, range } => SourceLineView::Content { text: text@, range: *range },
            DisplaySourceLine::Annotation { annotation, range, annotation_type, annotation_part } =>
                SourceLineView::Annotation {
                annotation: annotation@,
                range: *range,
                annotation_type: *annotation_type,
                annotation_part: *annotation_part,
            },
            DisplaySourceLine::Empty => SourceLineView::Empty,
        }
    }
}

impl View for DisplayRawLine {
    type V = RawLineView;

    open spec fn view(&self) -> RawLineView {
        match self {
            DisplayRawLine::Origin { path, pos, header_type } => RawLineView::Origin {
                path: path@,
                pos: *pos,
                header_type: *header_type,
            },
            DisplayRawLine::Annotation { annotation, source_aligned, continuation } => RawLineView::Annotation {
                annotation: annotation@,
                source_aligned: *source_aligned,
                continuation: *continuation,
            },
        }
    }
}

impl View for DisplayLine {
    type V = LineView;

    open spec fn view(&self) -> LineView {
        match self {
            DisplayLine::Source { lineno, inline_marks, line } => LineView::Source {
                lineno: *lineno,
                inline_marks: inline_marks@,
                line: line@,
            },
            DisplayLine::Fold { inline_marks } => LineView::Fold { inline_marks: inline_marks@ },
            DisplayLine::Raw(raw) => LineView::Raw(raw@),
        }
    }
}

/// The views of lines.
pub open spec fn body_view(body: Seq<DisplayLine>) -> Seq<LineView> {
    body.map_values(|l: DisplayLine| l@)
}

fn copy_marks(marks: &Vec<DisplayMark>) -> (res: Vec<DisplayMark>)
    ensures
        res@ == marks@,
{
    let mut out: Vec<DisplayMark> = Vec::new();
    let mut i: usize = 0;
    while i < marks.len()
        invariant
            i <= marks@.len(),
            out@ == marks@.take(i as int),
        decreases marks.len() - i,
    {
        out.push(marks[i]);
        assert(marks@.take(i + 1) =~= marks@.take(i as int).push(marks@[i as int]));
        i += 1;
    }
    assert(marks@.take(i as int) =~= marks@);
    out
}

fn copy_label(label: &Vec<DisplayTextFragment>) -> (res: Vec<DisplayTextFragment>)
    ensures
        label_view(res@) == label_view(label@),
{
    let mut out: Vec<DisplayTextFragment> = Vec::new();
    let mut i: usize = 0;
    while i < label.len()
        invariant
            i <= label@.len(),
            label_view(out@) == label_view(label@.take(i as int)),
        decreases label.len() - i,
    {
        let f = DisplayTextFragment { content: label[i].content.clone(), style: label[i].style };
        let ghost prev = out@;
        out.push(f);
        assert(out@ == prev.push(f));
        assert(label_view(out@) =~= label_view(prev).push(fragment_view(f)));
        assert(label_view(label@.take(i + 1)) =~= label_view(label@.take(i as int)).push(
            fragment_view(label@[i as int]),
        ));
        i += 1;
    }
    assert(label@.take(i as int) =~= label@);
    out
}

impl Clone for Annotation {
    fn clone(&self) -> (res: Self)
        ensures
            res@ == self@,
    {
        Annotation {
            annotation_type: self.annotation_type,
            id: match &self.id {
                Some(i) => Some(i.clone()),
                None => None,
            },
            label: copy_label(&self.label),
        }
    }
}

impl Clone for DisplaySourceLine {
    fn clone(&self) -> (res: Self)
        ensures
            res@ == self@,
    {
        match self {
            DisplaySourceLine::Content { text, range } => DisplaySourceLine::Content { text: text.clone(), range: *range },
            DisplaySourceLine::Annotation { annotation, range, annotation_type, annotation_part } =>
                DisplaySourceLine::Annotation {
                annotation: annotation.clone(),
                range: *range,
                annotation_type: *annotation_type,
                annotation_part: *annotation_part,
            },
            DisplaySourceLine::Empty => DisplaySourceLine::Empty,
        }
    }
}

impl Clone for DisplayRawLine {
    fn clone(&self) -> (res: Self)
        ensures
            res@ == self@,
    {
        match self {
            DisplayRawLine::Origin { path, pos, header_type } => DisplayRawLine::Origin {
                path: path.clone(),
                pos: *pos,
                header_type: *header_type,
            },
            DisplayRawLine::Annotation { annotation, source_aligned, continuation } => DisplayRawLine::Annotation {
                annotation: annotation.clone(),
                source_aligned: *source_aligned,
                continuation: *continuation,
            },
        }
    }
}

impl Clone for DisplayLine {
    fn clone(&self) -> (res: Self)
        ensures
            res@ == self@,
    {
        match self {
            DisplayLine::Source { lineno, inline_marks, line } => DisplayLine::Source {
                lineno: *lineno,
                inline_marks: copy_marks(inline_marks),
                line: line.clone(),
            },
            DisplayLine::Fold { inline_marks } => DisplayLine::Fold { inline_marks: copy_marks(inline_marks) },
            DisplayLine::Raw(raw) => DisplayLine::Raw(raw.clone()),
        }
    }
}

} // verus!
