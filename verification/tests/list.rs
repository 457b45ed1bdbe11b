use annotate_snippets::annotation::{AnnotationType, SourceAnnotation};
use annotate_snippets::ascii_default::Renderer as AsciiRenderer;
use annotate_snippets::ascii_styles::plain;
use annotate_snippets::display_list::line::{
    DisplayLine, DisplayMark, DisplayMarkType, DisplayRawLine, DisplaySourceLine,
};
use annotate_snippets::display_list::list::{get_header_pos, DisplayList};
use annotate_snippets::html::Renderer as HtmlRenderer;
use annotate_snippets::slice::Slice;

const SOURCE: &str = "fn main() {\n    let x = 1;\n}";

fn annotations() -> Vec<SourceAnnotation<'static>> {
    vec![
        SourceAnnotation {
            range: (3, 7),
            label: "function",
            annotation_type: AnnotationType::Warning,
        },
        SourceAnnotation {
            range: (10, 28),
            label: "end",
            annotation_type: AnnotationType::Note,
        },
    ]
}

fn marks(line: &DisplayLine) -> Vec<DisplayMarkType> {
    match line {
        DisplayLine::Source { inline_marks, .. } => {
            inline_marks.iter().map(|m: &DisplayMark| m.mark_type).collect()
        }
        DisplayLine::Raw(_) => panic!("expected a source line"),
    }
}

#[test]
fn header_position() {
    let anns = annotations();
    let slice = Slice {
        source: SOURCE,
        line_start: Some(5),
        origin: Some("src/main.rs"),
        annotations: &anns,
    };
    assert_eq!(get_header_pos(&slice), (Some(5), None));
}

#[test]
fn slice_body() {
    let anns = annotations();
    let slice = Slice {
        source: SOURCE,
        line_start: Some(5),
        origin: Some("src/main.rs"),
        annotations: &anns,
    };
    let dl = DisplayList::from_slice(&slice);
    assert_eq!(dl.body.len(), 8);
    match &dl.body[0] {
        DisplayLine::Raw(DisplayRawLine::Origin { path, pos }) => {
            assert_eq!(*path, "src/main.rs");
            assert_eq!(*pos, (Some(5), None));
        }
        _ => panic!("expected the origin"),
    }
    match &dl.body[2] {
        DisplayLine::Source {
            lineno,
            line: DisplaySourceLine::Content { text },
            ..
        } => {
            assert_eq!(*lineno, Some(5));
            assert_eq!(*text, "fn main() {");
        }
        _ => panic!("expected a source line"),
    }
    assert_eq!(marks(&dl.body[2]), vec![DisplayMarkType::AnnotationStart]);
    match &dl.body[3] {
        DisplayLine::Source {
            lineno: None,
            line: DisplaySourceLine::Annotation { annotation, range },
            ..
        } => {
            assert_eq!(annotation.label, "function");
            assert_eq!(annotation.annotation_type, AnnotationType::Error);
            assert_eq!(range.clone(), 3..7);
        }
        _ => panic!("expected an annotation line"),
    }
    assert_eq!(marks(&dl.body[4]), vec![DisplayMarkType::AnnotationThrough]);
    assert_eq!(marks(&dl.body[5]), vec![DisplayMarkType::AnnotationThrough]);
    match &dl.body[6] {
        DisplayLine::Source {
            lineno: None,
            line: DisplaySourceLine::Annotation { annotation, range },
            ..
        } => {
            assert_eq!(annotation.label, "end");
            assert_eq!(range.clone(), 0..1);
        }
        _ => panic!("expected an annotation line"),
    }
    assert_eq!(marks(&dl.body[6]), vec![DisplayMarkType::AnnotationThrough]);
    assert!(matches!(
        dl.body[7],
        DisplayLine::Source {
            lineno: None,
            line: DisplaySourceLine::Empty,
            ..
        }
    ));
}

#[test]
fn slice_without_origin_or_line_start() {
    let slice = Slice {
        source: "a\nb",
        line_start: None,
        origin: None,
        annotations: &[],
    };
    let dl = DisplayList::from_slice(&slice);
    assert_eq!(dl.body.len(), 4);
    match &dl.body[2] {
        DisplayLine::Source { lineno, .. } => assert_eq!(*lineno, Some(2)),
        _ => panic!("expected a source line"),
    }
}

#[test]
fn ascii_rendering() {
    let anns = annotations();
    let slice = Slice {
        source: SOURCE,
        line_start: Some(5),
        origin: Some("src/main.rs"),
        annotations: &anns,
    };
    let dl = DisplayList::from_slice(&slice);
    let mut out = String::new();
    AsciiRenderer::<plain::Style>::new().fmt(&mut out, &dl);
    let expected = [
        " --> src/main.rs:5\n".to_string(),
        "  |  \n".to_string(),
        "5 | / fn main() {\n".to_string(),
        format!("  |  {}---- function\n", " ".repeat(4)),
        "6 | |     let x = 1;\n".to_string(),
        "7 | | }\n".to_string(),
        "  | |_^ end\n".to_string(),
        "  |  \n".to_string(),
    ]
    .concat();
    assert_eq!(out, expected);
}

#[test]
fn html_rendering() {
    let anns = [SourceAnnotation {
        range: (0, 2),
        label: "both",
        annotation_type: AnnotationType::Error,
    }];
    let slice = Slice {
        source: "ab",
        line_start: Some(12),
        origin: Some("x.rs"),
        annotations: &anns,
    };
    let dl = DisplayList::from_slice(&slice);
    let mut out = String::new();
    HtmlRenderer::new().fmt(&mut out, &dl);
    let prefix = "<span class=\"lineno\">";
    let line = "</span> <span class=\"line\">│</span> ";
    let expected = [
        "<html><head><style>\n.lineno { color: red; }\n.line { color: blue; }\n.source { color: gray; }\n</style></head><body><pre>".to_string(),
        "  \n".to_string(),
        format!("{prefix}  {line}\n"),
        format!("{prefix}12{line} <span class=\"source\">ab</span>\n"),
        format!("{prefix}  {line}──┘ both\n"),
        format!("{prefix}  {line}\n"),
        "</pre></body></html>".to_string(),
    ]
    .concat();
    assert_eq!(out, expected);
    assert_eq!(HtmlRenderer::new().get_annotation_type_style(&AnnotationType::Help), "help");
}
