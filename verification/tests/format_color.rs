use annotate_snippets::display_list::ds_struct::{
    DisplayAnnotationPart, DisplayAnnotationType, DisplayLine, DisplayList, DisplayMark, DisplayMarkType,
    DisplayTextFragment, DisplayTextStyle,
};
use annotate_snippets::format_color::Formatter;

#[test]
fn underline_parts_are_painted() {
    let (lineno, indent, pointer) =
        Formatter::format_source_annotation_parts(&DisplayAnnotationType::Error, ' ', '^', &(2, 5), 1);
    assert_eq!(lineno, "\u{1b}[1;38;5;12m  |\u{1b}[0m");
    assert_eq!(indent, "  ");
    assert_eq!(pointer, "\u{1b}[1;38;5;9m^^^\u{1b}[0m");
    let (_, indent, pointer) =
        Formatter::format_source_annotation_parts(&DisplayAnnotationType::Note, '_', '-', &(1, 2), 0);
    assert_eq!(indent, "\u{1b}[1m_\u{1b}[0m");
    assert_eq!(pointer, "\u{1b}[1m-\u{1b}[0m");
}

#[test]
fn label_lines_and_marks_are_painted() {
    assert_eq!(
        Formatter::format_label_line(&DisplayAnnotationType::Help, "hint"),
        "\u{1b}[1;38;5;14mhint\u{1b}[0m"
    );
    let mark = DisplayMark {
        mark_type: DisplayMarkType::AnnotationStart,
        annotation_type: DisplayAnnotationType::Warning,
    };
    assert_eq!(Formatter::format_inline_mark(&mark), "\u{1b}[1;38;5;11m/\u{1b}[0m");
    let label = [
        DisplayTextFragment {
            content: "a".to_string(),
            style: DisplayTextStyle::Regular,
        },
        DisplayTextFragment {
            content: "b".to_string(),
            style: DisplayTextStyle::Emphasis,
        },
    ];
    assert_eq!(Formatter::format_label(&label), "a\u{1b}[1mb\u{1b}[0m");
}

#[test]
fn coloured_source_and_fold_lines() {
    let mut out = String::new();
    let line = DisplayLine::Source {
        lineno: 51,
        inline_marks: vec![DisplayMark {
            mark_type: DisplayMarkType::AnnotationThrough,
            annotation_type: DisplayAnnotationType::Error,
        }],
        content: "Example".to_string(),
        range: (0, 7),
    };
    Formatter::format_line(&mut out, &line, 2, 2);
    assert_eq!(
        out,
        "\u{1b}[1;38;5;12m51 |\u{1b}[0m \u{1b}[1;38;5;9m|\u{1b}[0m Example\n"
    );
    let mut out = String::new();
    Formatter::format_line(&mut out, &DisplayLine::Fold { inline_marks: vec![] }, 2, 0);
    assert_eq!(out, "... \n");
}

#[test]
fn coloured_underline_line() {
    let mut out = String::new();
    let line = DisplayLine::SourceAnnotation {
        inline_marks: vec![],
        range: (2, 4),
        label: vec![DisplayTextFragment {
            content: "oops".to_string(),
            style: DisplayTextStyle::Regular,
        }],
        annotation_type: DisplayAnnotationType::Error,
        annotation_part: DisplayAnnotationPart::Singleline,
    };
    Formatter::format_line(&mut out, &line, 1, 0);
    assert_eq!(
        out,
        "\u{1b}[1;38;5;12m  |\u{1b}[0m  \u{1b}[1;38;5;9m^^\u{1b}[0m \u{1b}[1;38;5;9moops\u{1b}[0m\n"
    );
}

#[test]
fn coloured_list_shares_its_columns() {
    let list = DisplayList {
        body: vec![
            DisplayLine::Source {
                lineno: 5,
                inline_marks: vec![],
                content: "x".to_string(),
                range: (0, 1),
            },
            DisplayLine::EmptySource,
        ],
    };
    assert_eq!(
        list.format_colored(),
        "\u{1b}[1;38;5;12m5 |\u{1b}[0m x\n\u{1b}[1;38;5;12m  |\u{1b}[0m\n"
    );
}
