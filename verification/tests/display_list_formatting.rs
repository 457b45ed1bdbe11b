use annotate_snippets::display_list::ds_struct::{
    DisplayAnnotationPart, DisplayAnnotationType, DisplayHeaderType, DisplayLine, DisplayList,
    DisplayMark, DisplayMarkType, DisplayTextFragment, DisplayTextStyle,
};
use annotate_snippets::display_list_formatting::{
    ClassStyle, DisplayListFormatter, StyleClass, Stylesheet,
};

fn class(name: &str) -> ClassStyle {
    ClassStyle {
        on: format!("<{name}>"),
        off: format!("</{name}>"),
        bold_on: format!("<{name}!>"),
        bold_off: format!("</{name}!>"),
    }
}

fn tagged() -> DisplayListFormatter {
    DisplayListFormatter {
        stylesheet: Stylesheet {
            error: class("e"),
            warning: class("w"),
            info: class("i"),
            note: class("n"),
            help: class("h"),
            line_no: class("l"),
        },
    }
}

fn text(content: &str) -> DisplayTextFragment {
    DisplayTextFragment {
        content: content.to_string(),
        style: DisplayTextStyle::Regular,
    }
}

fn mark(mark_type: DisplayMarkType, annotation_type: DisplayAnnotationType) -> DisplayMark {
    DisplayMark {
        mark_type,
        annotation_type,
    }
}

fn line(dlf: &DisplayListFormatter, dl: &DisplayLine, lw: usize, mw: usize) -> String {
    let mut out = String::new();
    dlf.format_line(&mut out, dl, lw, mw);
    out
}

#[test]
fn formatter_without_colors() {
    for color in [false, true] {
        let dlf = DisplayListFormatter::new(color);
        assert_eq!(dlf.stylesheet.get_style(StyleClass::Error).on, "");
        assert_eq!(dlf.stylesheet.get_style(StyleClass::LineNo).bold_off, "");
    }
    let dlf = DisplayListFormatter::new(false);
    assert_eq!(dlf.format_annotation_type(&DisplayAnnotationType::Help), "help");
    assert_eq!(dlf.format_annotation_type(&DisplayAnnotationType::Info), "info");
    let label = [
        text("a"),
        DisplayTextFragment {
            content: "b".to_string(),
            style: DisplayTextStyle::Emphasis,
        },
    ];
    assert_eq!(dlf.format_label(&label), "ab");
}

#[test]
fn marks_are_painted() {
    let dlf = tagged();
    let marks = [
        mark(DisplayMarkType::AnnotationThrough, DisplayAnnotationType::Error),
        mark(DisplayMarkType::AnnotationStart, DisplayAnnotationType::Help),
    ];
    assert_eq!(dlf.format_inline_marks(&marks, 3), " <e>|</e><h>/</h>");
    assert_eq!(DisplayListFormatter::new(false).format_inline_marks(&marks, 2), "|/");
}

#[test]
fn painted_lines() {
    let dlf = tagged();
    let source = DisplayLine::Source {
        lineno: 51,
        inline_marks: vec![mark(DisplayMarkType::AnnotationThrough, DisplayAnnotationType::Error)],
        content: "Example".to_string(),
        range: (0, 7),
    };
    assert_eq!(line(&dlf, &source, 2, 2), "<l>51 |</l> <e>|</e> Example");
    assert_eq!(line(&dlf, &DisplayLine::EmptySource, 2, 0), "<l>   |</l>");
    let origin = DisplayLine::Origin {
        path: "file1.rs".to_string(),
        pos: Some((51, 5)),
        header_type: DisplayHeaderType::Continuation,
    };
    assert_eq!(line(&dlf, &origin, 0, 0), "<l>:::</l> file1.rs:51:5");
    let title = DisplayLine::Annotation {
        label: vec![text("oops")],
        id: Some("E0001".to_string()),
        aligned: false,
        annotation_type: DisplayAnnotationType::Warning,
    };
    assert_eq!(line(&dlf, &title, 2, 0), "<l!></l!><w!>warning[E0001]</w!>: oops");
    let aligned = DisplayLine::Annotation {
        label: vec![text("one\ntwo")],
        id: None,
        aligned: true,
        annotation_type: DisplayAnnotationType::Note,
    };
    assert_eq!(
        line(&DisplayListFormatter::new(false), &aligned, 1, 0),
        "  = note: one\n          two"
    );
    let fold = DisplayLine::Fold {
        inline_marks: vec![],
    };
    assert_eq!(line(&dlf, &fold, 2, 1), "...  ");
}

#[test]
fn painted_underlines() {
    let dlf = tagged();
    let single = DisplayLine::SourceAnnotation {
        inline_marks: vec![],
        range: (2, 4),
        label: vec![text("here\nand here")],
        annotation_type: DisplayAnnotationType::Error,
        annotation_part: DisplayAnnotationPart::Singleline,
    };
    assert_eq!(
        line(&dlf, &single, 1, 0),
        "<l>  |</l>  <e>^^</e> <e>here</e>\n<l>  |</l>     <e>and here</e>"
    );
    let start = DisplayLine::SourceAnnotation {
        inline_marks: vec![],
        range: (1, 2),
        label: vec![],
        annotation_type: DisplayAnnotationType::Warning,
        annotation_part: DisplayAnnotationPart::MultilineStart,
    };
    assert_eq!(line(&dlf, &start, 1, 0), "<l>  |</l><w>_</w><w>-</w>");
}

#[test]
fn whole_list_without_colors() {
    let dl = DisplayList {
        body: vec![
            DisplayLine::Annotation {
                label: vec![text("mismatched types")],
                id: Some("E0308".to_string()),
                aligned: false,
                annotation_type: DisplayAnnotationType::Error,
            },
            DisplayLine::EmptySource,
            DisplayLine::Source {
                lineno: 51,
                inline_marks: vec![mark(DisplayMarkType::AnnotationThrough, DisplayAnnotationType::Error)],
                content: "Example".to_string(),
                range: (0, 7),
            },
            DisplayLine::SourceAnnotation {
                inline_marks: vec![],
                range: (0, 3),
                label: vec![text("here")],
                annotation_type: DisplayAnnotationType::Error,
                annotation_part: DisplayAnnotationPart::Singleline,
            },
        ],
    };
    assert_eq!(
        dl.format(),
        "error[E0308]: mismatched types\n   |\n51 | | Example\n   |  ^^^ here"
    );
}

#[test]
fn one_line_lists_render_without_a_trailing_newline() {
    let through = DisplayList {
        body: vec![DisplayLine::Source {
            lineno: 51,
            inline_marks: vec![mark(DisplayMarkType::AnnotationThrough, DisplayAnnotationType::Error)],
            content: "Example".to_string(),
            range: (0, 7),
        }],
    };
    assert_eq!(through.format(), "51 | | Example");
    let start = DisplayList {
        body: vec![DisplayLine::Source {
            lineno: 51,
            inline_marks: vec![mark(DisplayMarkType::AnnotationStart, DisplayAnnotationType::Error)],
            content: "Example".to_string(),
            range: (0, 7),
        }],
    };
    assert_eq!(start.format(), "51 | / Example");
    let initial = DisplayList {
        body: vec![DisplayLine::Origin {
            path: "file1.rs".to_string(),
            pos: Some((51, 5)),
            header_type: DisplayHeaderType::Initial,
        }],
    };
    assert_eq!(initial.format(), "--> file1.rs:51:5");
    let continuation = DisplayList {
        body: vec![DisplayLine::Origin {
            path: "file1.rs".to_string(),
            pos: Some((51, 5)),
            header_type: DisplayHeaderType::Continuation,
        }],
    };
    assert_eq!(continuation.format(), "::: file1.rs:51:5");
}
