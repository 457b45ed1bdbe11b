use annotate_snippets::cursor_line::EndLine;
use annotate_snippets::renderer::display_body::fold_body;
use annotate_snippets::renderer::display_list::{
    overlaps, Annotation, DisplayAnnotationPart, DisplayAnnotationType, DisplayLine, DisplayMark, DisplayMarkType,
    DisplaySourceAnnotation, DisplaySourceLine,
};

fn plain(text: &'static str, n: usize) -> DisplayLine<'static> {
    DisplayLine::Source {
        lineno: Some(n),
        inline_marks: vec![],
        line: DisplaySourceLine::Content { text, range: (0, text.len()), end_line: EndLine::Lf },
        annotations: vec![],
    }
}

fn annotated(text: &'static str, n: usize) -> DisplayLine<'static> {
    DisplayLine::Source {
        lineno: Some(n),
        inline_marks: vec![DisplayMark {
            mark_type: DisplayMarkType::AnnotationThrough,
            annotation_type: DisplayAnnotationType::Error,
        }],
        line: DisplaySourceLine::Content { text, range: (0, text.len()), end_line: EndLine::Lf },
        annotations: vec![DisplaySourceAnnotation {
            annotation: Annotation { annotation_type: DisplayAnnotationType::Error, id: None, label: vec![] },
            range: (0, 1),
            annotation_type: DisplayAnnotationType::Error,
            annotation_part: DisplayAnnotationPart::Standalone,
        }],
    }
}

fn lineno(l: &DisplayLine) -> Option<usize> {
    match l {
        DisplayLine::Source { lineno, .. } => *lineno,
        _ => None,
    }
}

#[test]
fn long_runs_are_folded_and_annotated_lines_kept() {
    let body = vec![
        plain("u0", 1),
        annotated("h1", 2),
        plain("u1", 3),
        plain("u2", 4),
        plain("u3", 5),
        plain("u4", 6),
        plain("u5", 7),
        annotated("h2", 8),
        plain("u6", 9),
    ];
    let folded = fold_body(body);
    assert_eq!(folded.len(), 5);
    assert_eq!(lineno(&folded[0]), Some(2));
    assert_eq!(lineno(&folded[1]), Some(3));
    match &folded[2] {
        DisplayLine::Fold { inline_marks } => assert!(inline_marks.is_empty()),
        _ => panic!("expected a fold"),
    }
    assert_eq!(lineno(&folded[3]), Some(7));
    assert_eq!(lineno(&folded[4]), Some(8));
}

#[test]
fn short_runs_are_kept_whole() {
    let body = vec![annotated("h1", 1), plain("a", 2), plain("b", 3), plain("c", 4), annotated("h2", 5)];
    let folded = fold_body(body);
    assert_eq!(folded.len(), 5);
    let nums: Vec<Option<usize>> = folded.iter().map(lineno).collect();
    assert_eq!(nums, vec![Some(1), Some(2), Some(3), Some(4), Some(5)]);
}

#[test]
fn fold_marks_go_through() {
    let mut start = annotated("h1", 1);
    if let DisplayLine::Source { inline_marks, .. } = &mut start {
        inline_marks[0].mark_type = DisplayMarkType::AnnotationStart;
    }
    let mut with_mark = plain("m", 2);
    if let DisplayLine::Source { inline_marks, .. } = &mut with_mark {
        inline_marks.push(DisplayMark {
            mark_type: DisplayMarkType::AnnotationStart,
            annotation_type: DisplayAnnotationType::Warning,
        });
    }
    let body = vec![
        annotated("h0", 1),
        plain("x", 2),
        plain("y", 3),
        plain("z", 4),
        plain("w", 5),
        annotated("h2", 6),
    ];
    let folded = fold_body(body);
    assert_eq!(folded.len(), 5);
    assert!(matches!(folded[2], DisplayLine::Fold { .. }));
    let _ = (start, with_mark);
}

#[test]
fn overlapping_source_annotations() {
    let a = |r: (usize, usize)| DisplaySourceAnnotation {
        annotation: Annotation { annotation_type: DisplayAnnotationType::Untyped, id: None, label: vec![] },
        range: r,
        annotation_type: DisplayAnnotationType::Untyped,
        annotation_part: DisplayAnnotationPart::Standalone,
    };
    assert!(overlaps(&a((2, 5)), &a((0, 3)), 0));
    assert!(overlaps(&a((0, 3)), &a((3, 4)), 1));
    assert!(!overlaps(&a((0, 3)), &a((3, 4)), 0));
}
