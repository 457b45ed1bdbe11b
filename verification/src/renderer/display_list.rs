//! The output model for a message: the lines to be displayed.
//!
//! A `DisplayList` is made of sets of lines. `Source` lines are laid out in
//! four columns (line number, delimiter, inline marks, content); `Raw` lines
//! stand outside the snippets (titles, footers, origins).
use vstd::prelude::*;
use vstd::string::StringSliceAdditionalSpecFns;

use crate::cursor_line::{collect_lines, cursor_lines, EndLine};
use crate::input::Level;
use crate::text::bytes_of;

verus! {



/// Widths and cut positions that the renderer uses to fit long lines into
/// the terminal.
#[derive(Clone, Copy, Debug, PartialEq, Eq, Structural)]
pub struct Margin {
    pub whitespace_left: usize,
    pub span_left: usize,
    pub span_right: usize,
    pub label_right: usize,
    pub column_width: usize,
    pub max_line_len: usize,
}

impl Margin {
    pub fn new(
        whitespace_left: usize,
        span_left: usize,
        span_right: usize,
        label_right: usize,
        column_width: usize,
        max_line_len: usize,
    ) -> (m: Margin)
        ensures
            m == (Margin { whitespace_left, span_left, span_right, label_right, column_width, max_line_len }),
    {
        Margin { whitespace_left, span_left, span_right, label_right, column_width, max_line_len }
    }
}

/// List of lines to be displayed.
pub struct DisplayList<'a> {
    pub body: Vec<DisplaySet<'a>>,
    pub anonymized_line_numbers: bool,
}

/// The lines of one snippet (or of a title without snippets) and its margin.
pub struct DisplaySet<'a> {
    pub display_lines: Vec<DisplayLine<'a>>,
    pub margin: Margin,
}

/// Inline annotation which can be used in either Raw or Source line.
pub struct Annotation<'a> {
    pub annotation_type: DisplayAnnotationType,
    pub id: Option<&'a str>,
    pub label: Vec<DisplayTextFragment<'a>>,
}

/// A single line used in `DisplayList`.
pub enum DisplayLine<'a> {
    /// A line with `lineno` portion of the slice.
    Source {
        lineno: Option<usize>,
        inline_marks: Vec<DisplayMark>,
        line: DisplaySourceLine<'a>,
        annotations: Vec<DisplaySourceAnnotation<'a>>,
    },
    /// A line indicating a folded part of the slice.
    Fold { inline_marks: Vec<DisplayMark> },
    /// A line which is displayed outside of slices.
    Raw(DisplayRawLine<'a>),
}

/// A source line.
pub enum DisplaySourceLine<'a> {
    /// A line with the content of the Snippet.
    Content { text: &'a str, range: (usize, usize), end_line: EndLine },
    /// An empty source line.
    Empty,
}

pub struct DisplaySourceAnnotation<'a> {
    pub annotation: Annotation<'a>,
    pub range: (usize, usize),
    pub annotation_type: DisplayAnnotationType,
    pub annotation_part: DisplayAnnotationPart,
}

impl<'a> DisplaySourceAnnotation<'a> {
    /// Whether some fragment of the label has text.
    pub fn has_label(&self) -> (b: bool)
        ensures
            b == exists|i: int|
                0 <= i < self.annotation.label@.len() && (#[trigger] self.annotation.label@[i]).content@.len() > 0,
    {
        let mut i: usize = 0;
        while i < self.annotation.label.len()
            invariant
                i <= self.annotation.label@.len(),
                forall|j: int| 0 <= j < i ==> (#[trigger] self.annotation.label@[j]).content@.len() == 0,
            decreases self.annotation.label.len() - i,
        {
            if !self.annotation.label[i].content.is_empty() {
                return true;
            }
            i += 1;
        }
        false
    }

    /// The distance between the two ends of the range.
    pub fn len(&self) -> (n: usize)
        ensures
            n == (if self.range.1 > self.range.0 {
                self.range.1 - self.range.0
            } else {
                self.range.0 - self.range.1
            }),
    {
        if self.range.1 > self.range.0 {
            self.range.1 - self.range.0
        } else {
            self.range.0 - self.range.1
        }
    }

    /// Whether the annotation starts or ends a multiline annotation.
    pub fn takes_space(&self) -> (b: bool)
        ensures
            b == (self.annotation_part == DisplayAnnotationPart::MultilineStart || self.annotation_part
                == DisplayAnnotationPart::MultilineEnd),
    {
        match self.annotation_part {
            DisplayAnnotationPart::MultilineStart => true,
            DisplayAnnotationPart::MultilineEnd => true,
            _ => false,
        }
    }
}

/// Whether the second annotation starts inside the first (widened by
/// `padding`), or the first inside the second.
pub fn overlaps(a1: &DisplaySourceAnnotation<'_>, a2: &DisplaySourceAnnotation<'_>, padding: usize) -> (b: bool)
    requires
        a1.range.1 + padding <= usize::MAX,
    ensures
        b == ((a2.range.0 <= a1.range.0 && a1.range.0 < a2.range.1) || (a1.range.0 <= a2.range.0 && a2.range.0
            < a1.range.1 + padding)),
{
    (a2.range.0 <= a1.range.0 && a1.range.0 < a2.range.1) || (a1.range.0 <= a2.range.0 && a2.range.0 < a1.range.1
        + padding)
}

/// A line which does not have the `lineno` part and is not considered a part
/// of the snippet.
pub enum DisplayRawLine<'a> {
    /// The location of the given slice in the project structure.
    Origin { path: &'a str, pos: Option<(usize, usize)>, header_type: DisplayHeaderType },
    /// An annotation line which is not part of any snippet.
    Annotation {
        annotation: Annotation<'a>,
        /// Aligned to the line number delimiter of the snippet.
        source_aligned: bool,
        /// Only the label is displayed (a continued multi-line label).
        continuation: bool,
    },
}

/// An inline text fragment which any label is composed of.
#[derive(Clone, Copy)]
pub struct DisplayTextFragment<'a> {
    pub content: &'a str,
    pub style: DisplayTextStyle,
}

/// A style for the `DisplayTextFragment` which can be visually formatted.
#[derive(Debug, Clone, Copy, PartialEq, Eq, Structural)]
pub enum DisplayTextStyle {
    Regular,
    Emphasis,
}

/// What part of the annotation a given `Annotation` is.
#[derive(Debug, Clone, Copy, PartialEq, Eq, Structural)]
pub enum DisplayAnnotationPart {
    /// A standalone, single-line annotation.
    Standalone,
    /// A continuation of a multi-line label of an annotation.
    LabelContinuation,
    /// A line starting a multiline annotation.
    MultilineStart,
    /// A line ending a multiline annotation.
    MultilineEnd,
}

/// A visual mark used in `inline_marks` field of the `DisplaySourceLine`.
#[derive(Debug, Clone, Copy, PartialEq, Eq, Structural)]
pub struct DisplayMark {
    pub mark_type: DisplayMarkType,
    pub annotation_type: DisplayAnnotationType,
}

/// A type of the `DisplayMark`.
#[derive(Debug, Clone, Copy, PartialEq, Eq, Structural)]
pub enum DisplayMarkType {
    /// A multiline annotation going through the current line.
    AnnotationThrough,
    /// A multiline annotation starting on the given line.
    AnnotationStart,
}

/// A type of the `Annotation` which may impact the sigils, style or text displayed.
#[derive(Debug, Clone, Copy, PartialEq, Eq, Structural)]
pub enum DisplayAnnotationType {
    Untyped,
    Error,
    Warning,
    Info,
    Note,
    Help,
}

/// Whether the header is the first one or a following one for multi-slice cases.
#[derive(Debug, Clone, Copy, PartialEq, Eq, Structural)]
pub enum DisplayHeaderType {
    /// Initial header is the first header in the snippet.
    Initial,
    /// Continuation marks all headers of following slices in the snippet.
    Continuation,
}

pub open spec fn annotation_type_of(level: Level) -> DisplayAnnotationType {
    match level {
        Level::Error => DisplayAnnotationType::Error,
        Level::Warning => DisplayAnnotationType::Warning,
        Level::Info => DisplayAnnotationType::Info,
        Level::Note => DisplayAnnotationType::Note,
        Level::Help => DisplayAnnotationType::Help,
    }
}

impl DisplayAnnotationType {
    /// The annotation type that shows a message of the given level.
    pub fn from_level(level: Level) -> (res: DisplayAnnotationType)
        ensures
            res == annotation_type_of(level),
    {
        match level {
            Level::Error => DisplayAnnotationType::Error,
            Level::Warning => DisplayAnnotationType::Warning,
            Level::Info => DisplayAnnotationType::Info,
            Level::Note => DisplayAnnotationType::Note,
            Level::Help => DisplayAnnotationType::Help,
        }
    }
}

/// The name shown for an annotation type.
pub open spec fn annotation_type_text(t: DisplayAnnotationType) -> Seq<char> {
    match t {
        DisplayAnnotationType::Error => seq!['e', 'r', 'r', 'o', 'r'],
        DisplayAnnotationType::Help => seq!['h', 'e', 'l', 'p'],
        DisplayAnnotationType::Info => seq!['i', 'n', 'f', 'o'],
        DisplayAnnotationType::Note => seq!['n', 'o', 't', 'e'],
        DisplayAnnotationType::Warning => seq!['w', 'a', 'r', 'n', 'i', 'n', 'g'],
        DisplayAnnotationType::Untyped => Seq::empty(),
    }
}

/// The name shown for an annotation type, e.g. `error`.
pub fn annotation_type_str(annotation_type: &DisplayAnnotationType) -> (s: &'static str)
    ensures
        s@ == annotation_type_text(*annotation_type),
{
    proof {
        reveal_strlit("error");
        reveal_strlit("help");
        reveal_strlit("info");
        reveal_strlit("note");
        reveal_strlit("warning");
        reveal_strlit("");
    }
    match annotation_type {
        DisplayAnnotationType::Error => "error",
        DisplayAnnotationType::Help => "help",
        DisplayAnnotationType::Info => "info",
        DisplayAnnotationType::Note => "note",
        DisplayAnnotationType::Warning => "warning",
        DisplayAnnotationType::Untyped => "",
    }
}

/// The length in bytes of the name shown for an annotation type.
pub fn annotation_type_len(annotation_type: &DisplayAnnotationType) -> (n: usize)
    ensures
        n == annotation_type_text(*annotation_type).len(),
{
    match annotation_type {
        DisplayAnnotationType::Error => 5,
        DisplayAnnotationType::Help => 4,
        DisplayAnnotationType::Info => 4,
        DisplayAnnotationType::Note => 4,
        DisplayAnnotationType::Warning => 7,
        DisplayAnnotationType::Untyped => 0,
    }
}

/// True when every fragment of the label is empty.
pub open spec fn label_is_empty(label: Seq<DisplayTextFragment>) -> bool {
    forall|i: int| 0 <= i < label.len() ==> (#[trigger] label[i]).content@.len() == 0
}

/// Whether an annotation has no visible label.
pub fn is_annotation_empty(annotation: &Annotation<'_>) -> (res: bool)
    ensures
        res == label_is_empty(annotation.label@),
{
    let mut i: usize = 0;
    while i < annotation.label.len()
        invariant
            i <= annotation.label@.len(),
            forall|j: int| 0 <= j < i ==> (#[trigger] annotation.label@[j]).content@.len() == 0,
        decreases annotation.label.len() - i,
    {
        if !annotation.label[i].content.is_empty() {
            return false;
        }
        i += 1;
    }
    true
}

/// The label made of one fragment holding `label`, if there is one.
pub open spec fn spec_format_label<'a>(label: Option<&'a str>, style: Option<DisplayTextStyle>) -> Seq<
    DisplayTextFragment<'a>,
> {
    match label {
        Some(l) => seq![DisplayTextFragment { content: l, style: match style {
            Some(s) => s,
            None => DisplayTextStyle::Regular,
        } }],
        None => Seq::empty(),
    }
}

pub fn format_label<'a>(label: Option<&'a str>, style: Option<DisplayTextStyle>) -> (res: Vec<
    DisplayTextFragment<'a>,
>)
    ensures
        res@ == spec_format_label(label, style),
{
    let mut result = Vec::new();
    if let Some(label) = label {
        let element_style = match style {
            Some(s) => s,
            None => DisplayTextStyle::Regular,
        };
        result.push(DisplayTextFragment { content: label, style: element_style });
    }
    result
}

/// The title line of a message.
pub fn format_title<'a>(level: Level, id: Option<&'a str>, label: &'a str) -> (res: DisplayLine<'a>)
    ensures
        res matches DisplayLine::Raw(DisplayRawLine::Annotation { annotation, source_aligned, continuation })
            && annotation.annotation_type == annotation_type_of(level) && annotation.id == id
            && annotation.label@ == spec_format_label(Some(label), Some(DisplayTextStyle::Emphasis))
            && !source_aligned && !continuation,
{
    DisplayLine::Raw(
        DisplayRawLine::Annotation {
            annotation: Annotation {
                annotation_type: DisplayAnnotationType::from_level(level),
                id,
                label: format_label(Some(label), Some(DisplayTextStyle::Emphasis)),
            },
            source_aligned: false,
            continuation: false,
        },
    )
}

/// The footer line number `i` of a message whose text line is `line`.
pub open spec fn is_footer_line<'a>(
    dl: DisplayLine<'a>,
    level: Level,
    id: Option<&'a str>,
    line: Seq<u8>,
    i: int,
) -> bool {
    dl matches DisplayLine::Raw(DisplayRawLine::Annotation { annotation, source_aligned, continuation })
        && annotation.annotation_type == annotation_type_of(level) && annotation.id == id
        && annotation.label@.len() == 1 && bytes_of(annotation.label@[0].content) == line
        && annotation.label@[0].style == DisplayTextStyle::Regular && source_aligned
        && continuation == (i != 0)
}

/// One aligned line per line of the footer text; all but the first are
/// continuations.
pub fn format_footer<'a>(level: Level, id: Option<&'a str>, label: &'a str) -> (res: Vec<DisplayLine<'a>>)
    ensures
        res@.len() == cursor_lines(bytes_of(label)).len(),
        forall|i: int|
            0 <= i < res@.len() ==> is_footer_line(
                #[trigger] res@[i],
                level,
                id,
                cursor_lines(bytes_of(label))[i].0,
                i,
            ),
{
    let lines = collect_lines(label);
    let mut result: Vec<DisplayLine<'a>> = Vec::new();
    let mut i: usize = 0;
    while i < lines.len()
        invariant
            i <= lines@.len(),
            lines@.len() == cursor_lines(bytes_of(label)).len(),
            forall|j: int|
                0 <= j < lines@.len() ==> bytes_of(#[trigger] lines@[j].0) == cursor_lines(
                    bytes_of(label),
                )[j].0,
            result@.len() == i,
            forall|j: int|
                0 <= j < i ==> is_footer_line(
                    #[trigger] result@[j],
                    level,
                    id,
                    cursor_lines(bytes_of(label))[j].0,
                    j,
                ),
        decreases lines.len() - i,
    {
        let line = lines[i].0;
        let dl = DisplayLine::Raw(
            DisplayRawLine::Annotation {
                annotation: Annotation {
                    annotation_type: DisplayAnnotationType::from_level(level),
                    id,
                    label: format_label(Some(line), None),
                },
                source_aligned: true,
                continuation: i != 0,
            },
        );
        result.push(dl);
        i += 1;
    }
    result
}

/// Both values, when both are present.
pub fn zip_opt<A, B>(a: Option<A>, b: Option<B>) -> (res: Option<(A, B)>)
    ensures
        res == (match (a, b) {
            (Some(x), Some(y)) => Some((x, y)),
            _ => None,
        }),
{
    match a {
        Some(x) => match b {
            Some(y) => Some((x, y)),
            None => None,
        },
        None => None,
    }
}

/// A text fragment with its content as bytes.
pub struct FragmentView {
    pub content: Seq<u8>,
    pub style: DisplayTextStyle,
}

pub struct AnnotationView {
    pub annotation_type: DisplayAnnotationType,
    pub id: Option<Seq<u8>>,
    pub label: Seq<FragmentView>,
}

pub enum SourceLineView {
    Content { text: Seq<u8>, range: (usize, usize), end_line: EndLine },
    Empty,
}

pub struct SourceAnnotationView {
    pub annotation: AnnotationView,
    pub range: (usize, usize),
    pub annotation_type: DisplayAnnotationType,
    pub annotation_part: DisplayAnnotationPart,
}

pub enum RawLineView {
    Origin { path: Seq<u8>, pos: Option<(usize, usize)>, header_type: DisplayHeaderType },
    Annotation { annotation: AnnotationView, source_aligned: bool, continuation: bool },
}

/// A display line with the text it shows given as bytes.
pub enum LineView {
    Source {
        lineno: Option<usize>,
        inline_marks: Seq<DisplayMark>,
        line: SourceLineView,
        annotations: Seq<SourceAnnotationView>,
    },
    Fold { inline_marks: Seq<DisplayMark> },
    Raw(RawLineView),
}

pub open spec fn opt_bytes(o: Option<&str>) -> Option<Seq<u8>> {
    match o {
        Some(s) => Some(bytes_of(s)),
        None => None,
    }
}

impl<'a> View for DisplayTextFragment<'a> {
    type V = FragmentView;

    open spec fn view(&self) -> FragmentView {
        FragmentView { content: bytes_of(self.content), style: self.style }
    }
}

impl<'a> View for Annotation<'a> {
    type V = AnnotationView;

    open spec fn view(&self) -> AnnotationView {
        AnnotationView {
            annotation_type: self.annotation_type,
            id: opt_bytes(self.id),
            label: self.label@.map_values(|f: DisplayTextFragment<'a>| f@),
        }
    }
}

impl<'a> View for DisplaySourceLine<'a> {
    type V = SourceLineView;

    open spec fn view(&self) -> SourceLineView {
        match self {
            DisplaySourceLine::Content { text, range, end_line } => SourceLineView::Content {
                text: bytes_of(*text),
                range: *range,
                end_line: *end_line,
            },
            DisplaySourceLine::Empty => SourceLineView::Empty,
        }
    }
}

impl<'a> View for DisplaySourceAnnotation<'a> {
    type V = SourceAnnotationView;

    open spec fn view(&self) -> SourceAnnotationView {
        SourceAnnotationView {
            annotation: self.annotation@,
            range: self.range,
            annotation_type: self.annotation_type,
            annotation_part: self.annotation_part,
        }
    }
}

impl<'a> View for DisplayRawLine<'a> {
    type V = RawLineView;

    open spec fn view(&self) -> RawLineView {
        match self {
            DisplayRawLine::Origin { path, pos, header_type } => RawLineView::Origin {
                path: bytes_of(*path),
                pos: *pos,
                header_type: *header_type,
            },
            DisplayRawLine::Annotation { annotation, source_aligned, continuation } =>
                RawLineView::Annotation {
                annotation: annotation@,
                source_aligned: *source_aligned,
                continuation: *continuation,
            },
        }
    }
}

impl<'a> View for DisplayLine<'a> {
    type V = LineView;

    open spec fn view(&self) -> LineView {
        match self {
            DisplayLine::Source { lineno, inline_marks, line, annotations } => LineView::Source {
                lineno: *lineno,
                inline_marks: inline_marks@,
                line: line@,
                annotations: annotations@.map_values(|a: DisplaySourceAnnotation<'a>| a@),
            },
            DisplayLine::Fold { inline_marks } => LineView::Fold { inline_marks: inline_marks@ },
            DisplayLine::Raw(r) => LineView::Raw(r@),
        }
    }
}

/// The views of a sequence of display lines.
pub open spec fn lines_view<'a>(lines: Seq<DisplayLine<'a>>) -> Seq<LineView> {
    lines.map_values(|l: DisplayLine<'a>| l@)
}

} // verus!
