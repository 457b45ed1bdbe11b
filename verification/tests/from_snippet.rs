use annotate_snippets::annotation::{Annotation as InputAnnotation, AnnotationType, SourceAnnotation};
use annotate_snippets::display_list::from_snippet::{fold_body, format_body, format_header, Snippet};
use annotate_snippets::display_list::snippet::Slice;
use annotate_snippets::display_list::structs::{
    Annotation, DisplayAnnotationPart, DisplayAnnotationType, DisplayLine, DisplayList, DisplayMark, DisplayMarkType,
    DisplayRawLine,
    DisplaySourceLine, DisplayTextFragment,
};

fn frags(label: &[DisplayTextFragment]) -> String {
    let parts: Vec<String> = label.iter().map(|f| format!("{}:{:?}", f.content, f.style)).collect();
    format!("[{}]", parts.join(","))
}

fn ann_text(a: &Annotation) -> String {
    format!("{:?} {:?} {}", a.annotation_type, a.id, frags(&a.label))
}

fn marks(m: &[DisplayMark]) -> String {
    let parts: Vec<String> = m.iter().map(|m| format!("{:?}:{:?}", m.mark_type, m.annotation_type)).collect();
    format!("[{}]", parts.join(","))
}

fn show(l: &DisplayLine) -> String {
    match l {
        DisplayLine::Source { lineno, inline_marks, line } => {
            let what = match line {
                DisplaySourceLine::Content { text, range } => format!("{} {:?}", text, range),
                DisplaySourceLine::Annotation { annotation, range, annotation_type, annotation_part } => {
                    format!("({}) {:?} {:?} {:?}", ann_text(annotation), range, annotation_type, annotation_part)
                }
                DisplaySourceLine::Empty => "empty".to_string(),
            };
            format!("S {:?} {} {}", lineno, marks(inline_marks), what)
        }
        DisplayLine::Fold { inline_marks } => format!("F {}", marks(inline_marks)),
        DisplayLine::Raw(DisplayRawLine::Origin { path, pos, header_type }) => {
            format!("O {} {:?} {:?}", path, pos, header_type)
        }
        DisplayLine::Raw(DisplayRawLine::Annotation { annotation, source_aligned, continuation }) => {
            format!("A ({}) {} {}", ann_text(annotation), source_aligned, continuation)
        }
    }
}

fn show_all(lines: &[DisplayLine]) -> Vec<String> {
    lines.iter().map(show).collect()
}

fn ann(start: usize, end: usize, label: &'static str, t: AnnotationType) -> SourceAnnotation<'static> {
    SourceAnnotation { range: (start, end), label, annotation_type: t }
}

fn slice(
    source: &'static str,
    line_start: usize,
    origin: Option<&'static str>,
    annotations: Vec<SourceAnnotation<'static>>,
    fold: bool,
) -> Slice<'static> {
    Slice { source, line_start, origin, annotations, fold }
}

#[test]
fn snippet_with_title_slice_and_footer_lines() {
    let snippet = Snippet {
        title: Some(InputAnnotation { id: Some("E1"), label: Some("T__x"), annotation_type: AnnotationType::Error }),
        footer: vec![InputAnnotation { id: None, label: Some("n1\nn2__b"), annotation_type: AnnotationType::Note }],
        slices: vec![slice("ab\ncd", 5, Some("x.rs"), vec![ann(1, 2, "lbl", AnnotationType::Error)], false)],
    };
    let dl = DisplayList::from_snippet(snippet);
    assert_eq!(
        show_all(&dl.body),
        vec![
            "A (Error Some(\"E1\") [T:Emphasis,x:Emphasis]) false false",
            "O x.rs Some((5, 1)) Initial",
            "S None [] empty",
            "S Some(5) [] ab (0, 3)",
            "S None [] (Untyped None [lbl:Regular]) (1, 2) Error Standalone",
            "S Some(6) [] cd (4, 7)",
            "S None [] empty",
            "A (Note None [n1:Regular]) true false",
            "A (Note None [n2:Regular,b:Emphasis]) true true",
        ]
    );
}

#[test]
fn marks_carry_their_kind_and_can_land_on_annotation_lines() {
    let s = slice(
        "abc\ndef",
        1,
        None,
        vec![ann(0, 1, "a", AnnotationType::Error), ann(0, 6, "b", AnnotationType::Warning)],
        false,
    );
    assert_eq!(
        show_all(&format_body(&s, false)),
        vec![
            "S None [] empty",
            "S Some(1) [] abc (0, 4)",
            "S None [AnnotationStart:Warning] (Untyped None [a:Regular]) (0, 1) Error Standalone",
            "S Some(2) [AnnotationThrough:Warning] def (5, 9)",
            "S None [AnnotationThrough:Warning] (Untyped None [b:Regular]) (1, 2) Warning MultilineEnd",
            "S None [] empty",
        ]
    );
}

#[test]
fn multiline_start_line_has_no_label() {
    let s = slice("abc\ndef", 3, None, vec![ann(2, 7, "n", AnnotationType::Note)], false);
    assert_eq!(
        show_all(&format_body(&s, false)),
        vec![
            "S None [] empty",
            "S Some(3) [] abc (0, 4)",
            "S None [] (Untyped None []) (2, 3) Note MultilineStart",
            "S Some(4) [AnnotationThrough:Note] def (5, 9)",
            "S None [AnnotationThrough:Note] (Note None [n:Regular]) (2, 3) Note MultilineEnd",
            "S None [] empty",
        ]
    );
}

#[test]
fn short_runs_fold_to_the_last_line() {
    let s = slice("a\nb\nc\nd", 1, None, vec![ann(9, 10, "z", AnnotationType::Info)], true);
    assert_eq!(
        show_all(&format_body(&s, false)),
        vec![
            "S None [] empty",
            "F []",
            "S Some(4) [] d (9, 11)",
            "S None [] (Info None [z:Regular]) (0, 1) Info Standalone",
            "S None [] empty",
        ]
    );
}

#[test]
fn long_runs_keep_four_lines_and_two() {
    let content = |n: usize| DisplayLine::Source {
        lineno: Some(n),
        inline_marks: vec![],
        line: DisplaySourceLine::Content { text: format!("l{n}"), range: (0, 0) },
    };
    let mut body: Vec<DisplayLine> = (1..=9).map(content).collect();
    body.push(DisplayLine::Source {
        lineno: None,
        inline_marks: vec![DisplayMark {
            mark_type: DisplayMarkType::AnnotationThrough,
            annotation_type: DisplayAnnotationType::Help,
        }],
        line: DisplaySourceLine::Annotation {
            annotation: Annotation { annotation_type: DisplayAnnotationType::Help, id: None, label: vec![] },
            range: (0, 1),
            annotation_type: DisplayAnnotationType::Help,
            annotation_part: DisplayAnnotationPart::Standalone,
        },
    });
    let folded = fold_body(&body);
    let shown = show_all(&folded);
    assert_eq!(shown.len(), 8);
    assert_eq!(shown[0], "S Some(1) [] l1 (0, 0)");
    assert_eq!(shown[3], "S Some(4) [] l4 (0, 0)");
    assert_eq!(shown[4], "F [AnnotationThrough:Help]");
    assert_eq!(shown[5], "S Some(8) [] l8 (0, 0)");
    assert_eq!(shown[6], "S Some(9) [] l9 (0, 0)");
}

#[test]
fn footer_without_label_adds_no_line() {
    let snippet = Snippet {
        title: None,
        footer: vec![InputAnnotation { id: None, label: None, annotation_type: AnnotationType::Help }],
        slices: vec![slice("", 1, Some("f"), vec![], false)],
    };
    let dl = DisplayList::from_snippet(snippet);
    assert_eq!(show_all(&dl.body), vec!["O f None Initial", "S None [] empty", "S None [] empty"]);
}

#[test]
fn header_counts_only_source_text_lines() {
    let s = slice("ab\ncd", 2, Some("p"), vec![ann(5, 6, "x", AnnotationType::Error), ann(0, 1, "y", AnnotationType::Error)], false);
    let body = format_body(&s, false);
    assert_eq!(show(&format_header(&s, &body, true).unwrap()), "O p Some((3, 1)) Initial");
}

#[test]
fn display_list_from_lines() {
    let dl = DisplayList::from(vec![DisplayLine::Fold { inline_marks: vec![] }]);
    assert_eq!(show_all(&dl.body), vec!["F []"]);
}
