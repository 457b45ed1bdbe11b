use annotate_snippets::annotation::{Annotation, AnnotationType};
use annotate_snippets::display_list::{
    fold_body, format_annotation, format_label, format_title, DisplayAnnotationPart, DisplayAnnotationType,
    DisplayHeaderType, DisplayLine, DisplayList, DisplayMark, DisplayTextFragment, DisplayTextStyle,
};
use annotate_snippets::format::Formatter;

fn fragment(content: &str, style: DisplayTextStyle) -> DisplayTextFragment {
    DisplayTextFragment {
        content: content.to_string(),
        style,
    }
}

fn line_text(dl: &DisplayLine, lineno_width: usize, inline_marks_width: usize) -> String {
    let mut out = String::new();
    Formatter::format_line(&mut out, dl, lineno_width, inline_marks_width);
    out
}

#[test]
fn label_split_at_double_underscores() {
    let frags = format_label(Some("a__b__c"), None);
    assert_eq!(frags.len(), 3);
    assert_eq!(frags[0].content, "a");
    assert_eq!(frags[0].style, DisplayTextStyle::Regular);
    assert_eq!(frags[1].content, "b");
    assert_eq!(frags[1].style, DisplayTextStyle::Emphasis);
    assert_eq!(frags[2].content, "c");
    assert_eq!(frags[2].style, DisplayTextStyle::Regular);
}

#[test]
fn label_split_takes_pairs_from_the_left() {
    let frags = format_label(Some("a___b__"), None);
    assert_eq!(frags.len(), 3);
    assert_eq!(frags[0].content, "a");
    assert_eq!(frags[1].content, "_b");
    assert_eq!(frags[2].content, "");
}

#[test]
fn label_with_given_style_and_without_label() {
    let frags = format_label(Some("x__y"), Some(DisplayTextStyle::Emphasis));
    assert_eq!(frags.len(), 2);
    assert_eq!(frags[0].style, DisplayTextStyle::Emphasis);
    assert_eq!(frags[1].style, DisplayTextStyle::Emphasis);
    assert_eq!(format_label(None, None).len(), 0);
    let empty = format_label(Some(""), None);
    assert_eq!(empty.len(), 1);
    assert_eq!(empty[0].content, "");
}

#[test]
fn title_and_footer_lines() {
    let title = Annotation {
        id: Some("E0308"),
        label: Some("mismatched types"),
        annotation_type: AnnotationType::Error,
    };
    match format_title(&title) {
        DisplayLine::Annotation {
            label,
            id,
            aligned,
            annotation_type,
        } => {
            assert_eq!(annotation_type, DisplayAnnotationType::Error);
            assert_eq!(id.as_deref(), Some("E0308"));
            assert!(!aligned);
            assert_eq!(label.len(), 1);
            assert_eq!(label[0].content, "mismatched types");
            assert_eq!(label[0].style, DisplayTextStyle::Emphasis);
        }
        _ => panic!("expected an annotation line"),
    }
    let footer = Annotation {
        id: Some("E0308"),
        label: None,
        annotation_type: AnnotationType::Info,
    };
    match format_annotation(&footer) {
        DisplayLine::Annotation {
            label,
            id,
            aligned,
            annotation_type,
        } => {
            assert_eq!(annotation_type, DisplayAnnotationType::Info);
            assert!(id.is_none());
            assert!(aligned);
            assert_eq!(label.len(), 1);
            assert_eq!(label[0].content, "");
            assert_eq!(label[0].style, DisplayTextStyle::Regular);
        }
        _ => panic!("expected an annotation line"),
    }
}

#[test]
fn annotation_type_names_and_marks() {
    assert_eq!(Formatter::format_annotation_type(&DisplayAnnotationType::Error), "error");
    assert_eq!(Formatter::format_annotation_type(&DisplayAnnotationType::Warning), "warning");
    assert_eq!(Formatter::format_annotation_type(&DisplayAnnotationType::Info), "info");
    assert_eq!(Formatter::format_annotation_type(&DisplayAnnotationType::Note), "note");
    assert_eq!(Formatter::format_annotation_type(&DisplayAnnotationType::Help), "help");
    let marks = [DisplayMark::AnnotationThrough, DisplayMark::AnnotationStart];
    assert_eq!(Formatter::format_inline_marks(&marks, 4), "  |/");
    assert_eq!(Formatter::format_inline_marks(&marks, 1), "|/");
    let label = [
        fragment("ab", DisplayTextStyle::Regular),
        fragment("cd", DisplayTextStyle::Emphasis),
    ];
    assert_eq!(Formatter::format_label(&label), "abcd");
}

#[test]
fn source_and_plain_lines() {
    let source = DisplayLine::Source {
        lineno: 5,
        inline_marks: vec![DisplayMark::AnnotationThrough],
        content: "let x = 1;".to_string(),
        range: (0, 11),
    };
    assert_eq!(line_text(&source, 2, 2), " 5 | | let x = 1;\n");
    assert_eq!(line_text(&DisplayLine::EmptySource, 2, 0), "   |\n");
    let fold = DisplayLine::Fold {
        inline_marks: vec![DisplayMark::AnnotationStart],
    };
    assert_eq!(line_text(&fold, 2, 1), "... /\n");
    let origin = DisplayLine::Origin {
        path: "src/main.rs".to_string(),
        pos: Some((3, 9)),
        header_type: DisplayHeaderType::Initial,
    };
    assert_eq!(line_text(&origin, 2, 0), "  --> src/main.rs:3:9\n");
    let next = DisplayLine::Origin {
        path: "lib.rs".to_string(),
        pos: None,
        header_type: DisplayHeaderType::Continuation,
    };
    assert_eq!(line_text(&next, 1, 0), " ::: lib.rs\n");
}

#[test]
fn source_annotation_lines() {
    let single = DisplayLine::SourceAnnotation {
        inline_marks: vec![],
        range: (4, 5),
        label: vec![fragment("unused", DisplayTextStyle::Regular)],
        annotation_type: DisplayAnnotationType::Error,
        annotation_part: DisplayAnnotationPart::Singleline,
    };
    assert_eq!(line_text(&single, 2, 0), "   |    ^ unused\n");
    let end = DisplayLine::SourceAnnotation {
        inline_marks: vec![DisplayMark::AnnotationThrough],
        range: (2, 3),
        label: vec![fragment("first\nsecond", DisplayTextStyle::Regular)],
        annotation_type: DisplayAnnotationType::Warning,
        annotation_part: DisplayAnnotationPart::MultilineEnd,
    };
    assert_eq!(line_text(&end, 1, 1), "  ||__- first\n  ||    second\n");
    let unlabelled = DisplayLine::SourceAnnotation {
        inline_marks: vec![],
        range: (1, 3),
        label: vec![],
        annotation_type: DisplayAnnotationType::Help,
        annotation_part: DisplayAnnotationPart::MultilineStart,
    };
    assert_eq!(line_text(&unlabelled, 1, 0), "  |_--\n");
}

#[test]
fn annotation_lines() {
    let title = DisplayLine::Annotation {
        label: vec![fragment("mismatched types", DisplayTextStyle::Emphasis)],
        id: Some("E0308".to_string()),
        aligned: false,
        annotation_type: DisplayAnnotationType::Error,
    };
    assert_eq!(line_text(&title, 2, 0), "error[E0308]: mismatched types\n");
    let note = DisplayLine::Annotation {
        label: vec![fragment("first line\nsecond", DisplayTextStyle::Regular)],
        id: None,
        aligned: true,
        annotation_type: DisplayAnnotationType::Note,
    };
    assert_eq!(line_text(&note, 2, 0), "   = note: first line\n           second\n");
    let empty = DisplayLine::Annotation {
        label: vec![],
        id: None,
        aligned: true,
        annotation_type: DisplayAnnotationType::Note,
    };
    assert_eq!(line_text(&empty, 2, 0), "");
}

#[test]
fn whole_list() {
    let dl = DisplayList {
        body: vec![
            DisplayLine::Annotation {
                label: vec![fragment("mismatched types", DisplayTextStyle::Emphasis)],
                id: Some("E0308".to_string()),
                aligned: false,
                annotation_type: DisplayAnnotationType::Error,
            },
            DisplayLine::Origin {
                path: "src/format.rs".to_string(),
                pos: Some((51, 5)),
                header_type: DisplayHeaderType::Initial,
            },
            DisplayLine::EmptySource,
            DisplayLine::Source {
                lineno: 9,
                inline_marks: vec![],
                content: "let x = 1;".to_string(),
                range: (0, 11),
            },
            DisplayLine::Source {
                lineno: 10,
                inline_marks: vec![],
                content: "x".to_string(),
                range: (12, 14),
            },
            DisplayLine::SourceAnnotation {
                inline_marks: vec![],
                range: (0, 1),
                label: vec![fragment("here", DisplayTextStyle::Regular)],
                annotation_type: DisplayAnnotationType::Error,
                annotation_part: DisplayAnnotationPart::Singleline,
            },
            DisplayLine::EmptySource,
        ],
    };
    assert_eq!(
        dl.format(),
        "error[E0308]: mismatched types\n  --> src/format.rs:51:5\n   |\n 9 | let x = 1;\n10 | x\n   |^ here\n   |\n"
    );
}

#[test]
fn marks_column_widens_by_one() {
    let dl = DisplayList {
        body: vec![DisplayLine::Source {
            lineno: 1,
            inline_marks: vec![DisplayMark::AnnotationStart],
            content: "a".to_string(),
            range: (0, 2),
        }],
    };
    assert_eq!(dl.format(), "1 | / a\n");
}

#[test]
fn label_fragments_rejoin() {
    for text in ["a__b___c", "__", "plain", "", "x____y", "_a_"] {
        let frags = format_label(Some(text), None);
        let joined = frags
            .iter()
            .map(|f| f.content.as_str())
            .collect::<Vec<_>>()
            .join("__");
        assert_eq!(joined, text);
    }
}

fn tag(dl: &DisplayLine) -> String {
    match dl {
        DisplayLine::Source { lineno, .. } => format!("S{lineno}"),
        DisplayLine::SourceAnnotation { .. } => "A".to_string(),
        DisplayLine::Fold { inline_marks } => format!("F{}", inline_marks.len()),
        DisplayLine::EmptySource => "E".to_string(),
        DisplayLine::Annotation { .. } => "M".to_string(),
        DisplayLine::Origin { .. } => "O".to_string(),
    }
}

fn source(lineno: usize) -> DisplayLine {
    DisplayLine::Source {
        lineno,
        inline_marks: vec![],
        content: format!("line {lineno}"),
        range: (0, 0),
    }
}

fn underline() -> DisplayLine {
    DisplayLine::SourceAnnotation {
        inline_marks: vec![DisplayMark::AnnotationThrough],
        range: (0, 1),
        label: vec![],
        annotation_type: DisplayAnnotationType::Error,
        annotation_part: DisplayAnnotationPart::Singleline,
    }
}

#[test]
fn long_unannotated_runs_fold() {
    let mut body: Vec<DisplayLine> = (1..=14).map(source).collect();
    body.push(underline());
    body.push(source(15));
    let folded = fold_body(&body);
    let tags: Vec<String> = folded.iter().map(tag).collect();
    assert_eq!(tags, ["S1", "S2", "S3", "S4", "F1", "S13", "S14", "A"]);
    match &folded[5] {
        DisplayLine::Source { content, .. } => assert_eq!(content, "line 13"),
        _ => panic!("expected a source line"),
    }
}

#[test]
fn short_runs_are_kept_and_other_lines_counted() {
    let body = vec![DisplayLine::EmptySource, source(1), underline()];
    let tags: Vec<String> = fold_body(&body).iter().map(tag).collect();
    assert_eq!(tags, ["E", "E", "S1", "A"]);
}
