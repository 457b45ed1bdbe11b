use annotate_snippets::level::{Level, LevelInner};
use annotate_snippets::renderer::display_list::{
    Annotation, DisplayAnnotationPart, DisplayAnnotationType, DisplayHeaderType, DisplayMark,
    DisplayMarkType, DisplayRawLine, DisplaySet, DisplaySourceAnnotation, DisplayTextFragment,
    DisplayTextStyle, Margin,
};
use annotate_snippets::renderer::display_output::{
    format_annotation_type, format_repeat_char, get_annotation_style,
};
use annotate_snippets::renderer::stylesheet::{StyleCodes, Stylesheet};

fn codes(on: &str, off: &str) -> StyleCodes {
    StyleCodes {
        on: on.to_string(),
        off: off.to_string(),
    }
}

fn tagged() -> Stylesheet {
    Stylesheet {
        error: codes("<e>", "</e>"),
        warning: codes("<w>", "</w>"),
        info: codes("<i>", "</i>"),
        note: codes("<n>", "</n>"),
        help: codes("<h>", "</h>"),
        line_no: codes("<l>", "</l>"),
        emphasis: codes("<em>", "</em>"),
        none: codes("", ""),
        context: codes("<c>", "</c>"),
        addition: codes("<a>", "</a>"),
        removal: codes("<r>", "</r>"),
    }
}

fn set() -> DisplaySet<'static> {
    DisplaySet {
        display_lines: vec![],
        margin: Margin::new(0, 0, 0, 0, 140, 0),
    }
}

fn regular(content: &str) -> DisplayTextFragment<'_> {
    DisplayTextFragment {
        content,
        style: DisplayTextStyle::Regular,
    }
}

#[test]
fn repeat_and_type_names() {
    let mut out = String::new();
    format_repeat_char('x', 3, &mut out);
    format_repeat_char('y', 0, &mut out);
    assert_eq!(out, "xxx");
    let mut out = String::new();
    format_annotation_type(&DisplayAnnotationType::Warning, &mut out);
    format_annotation_type(&DisplayAnnotationType::Untyped, &mut out);
    format_annotation_type(&DisplayAnnotationType::Help, &mut out);
    assert_eq!(out, "warninghelp");
}

#[test]
fn styles_by_type() {
    let ss = tagged();
    assert_eq!(get_annotation_style(&DisplayAnnotationType::Error, &ss).on, "<e>");
    assert_eq!(get_annotation_style(&DisplayAnnotationType::Warning, &ss).off, "</w>");
    assert_eq!(get_annotation_style(&DisplayAnnotationType::Info, &ss).on, "<i>");
    assert_eq!(get_annotation_style(&DisplayAnnotationType::Note, &ss).on, "<n>");
    assert_eq!(get_annotation_style(&DisplayAnnotationType::Help, &ss).on, "<h>");
    assert_eq!(get_annotation_style(&DisplayAnnotationType::Untyped, &ss).on, "");
    let plain = Stylesheet::plain();
    assert_eq!(plain.error.on, "");
    assert_eq!(plain.line_no.off, "");
}

#[test]
fn labels_emphasis() {
    let ss = tagged();
    let label = [
        regular("a"),
        DisplayTextFragment {
            content: "b",
            style: DisplayTextStyle::Emphasis,
        },
        regular("c"),
    ];
    let mut out = String::new();
    set().format_label(&label, &ss, &mut out);
    assert_eq!(out, "a<em>b</em>c");
}

#[test]
fn annotations_with_name_and_label() {
    let ss = tagged();
    let annotation = Annotation {
        annotation_type: DisplayAnnotationType::Error,
        id: Some("E0308"),
        label: vec![regular("mismatched types")],
    };
    let mut out = String::new();
    set().format_annotation(&annotation, false, false, &ss, &mut out);
    assert_eq!(out, "<e>error[E0308]</e>: mismatched types");
    let mut out = String::new();
    set().format_annotation(&annotation, false, true, &ss, &mut out);
    assert_eq!(out, "<e>error[E0308]</e><e>: mismatched types</e>");
    let mut out = String::new();
    set().format_annotation(&annotation, true, false, &ss, &mut out);
    assert_eq!(out, format!("{}mismatched types", " ".repeat(14)));
    let bare = Annotation {
        annotation_type: DisplayAnnotationType::Untyped,
        id: None,
        label: vec![regular("just a label")],
    };
    let mut out = String::new();
    set().format_annotation(&bare, false, false, &ss, &mut out);
    assert_eq!(out, "just a label");
    let unlabelled = Annotation {
        annotation_type: DisplayAnnotationType::Note,
        id: None,
        label: vec![regular("")],
    };
    let mut out = String::new();
    set().format_annotation(&unlabelled, false, false, &ss, &mut out);
    assert_eq!(out, "<n>note</n>");
}

#[test]
fn raw_lines() {
    let ss = tagged();
    let origin = DisplayRawLine::Origin {
        path: "src/x.rs",
        pos: Some((3, 7)),
        header_type: DisplayHeaderType::Initial,
    };
    let mut out = String::new();
    set().format_raw_line(&origin, 2, &ss, &mut out);
    assert_eq!(out, "  <l>--></l> src/x.rs:3:7");
    let next = DisplayRawLine::Origin {
        path: "lib.rs",
        pos: None,
        header_type: DisplayHeaderType::Continuation,
    };
    let mut out = String::new();
    set().format_raw_line(&next, 0, &Stylesheet::plain(), &mut out);
    assert_eq!(out, "::: lib.rs");
    let footer = DisplayRawLine::Annotation {
        annotation: Annotation {
            annotation_type: DisplayAnnotationType::Note,
            id: None,
            label: vec![regular("text")],
        },
        source_aligned: true,
        continuation: false,
    };
    let mut out = String::new();
    set().format_raw_line(&footer, 2, &ss, &mut out);
    assert_eq!(out, "   <l>=</l> <n>note</n>: text");
    let more = DisplayRawLine::Annotation {
        annotation: Annotation {
            annotation_type: DisplayAnnotationType::Note,
            id: None,
            label: vec![regular("more")],
        },
        source_aligned: true,
        continuation: true,
    };
    let mut out = String::new();
    set().format_raw_line(&more, 2, &Stylesheet::plain(), &mut out);
    assert_eq!(out, format!("{}{}more", " ".repeat(5), " ".repeat(6)));
}

#[test]
fn inline_marks_column() {
    let ss = tagged();
    let marks = [
        DisplayMark {
            mark_type: DisplayMarkType::AnnotationThrough,
            annotation_type: DisplayAnnotationType::Error,
        },
        DisplayMark {
            mark_type: DisplayMarkType::AnnotationStart,
            annotation_type: DisplayAnnotationType::Warning,
        },
    ];
    let mut out = String::new();
    set().format_inline_marks(&marks, 3, &Stylesheet::plain(), &mut out);
    assert_eq!(out, " |/");
    let mut out = String::new();
    set().format_inline_marks(&marks, 2, &ss, &mut out);
    assert_eq!(out, "<e>|</e><w>/</w>");
}

fn source_annotation(
    range: (usize, usize),
    t: DisplayAnnotationType,
    part: DisplayAnnotationPart,
    label: &str,
) -> DisplaySourceAnnotation<'_> {
    DisplaySourceAnnotation {
        annotation: Annotation {
            annotation_type: DisplayAnnotationType::Untyped,
            id: None,
            label: vec![regular(label)],
        },
        range,
        annotation_type: t,
        annotation_part: part,
    }
}

#[test]
fn source_annotations() {
    let plain = Stylesheet::plain();
    let here = source_annotation(
        (2, 5),
        DisplayAnnotationType::Error,
        DisplayAnnotationPart::Standalone,
        "here",
    );
    let mut out = String::new();
    set().format_source_annotation(&here, 0, &plain, &mut out);
    assert_eq!(out, "   ^^^ here");
    let mut out = String::new();
    set().format_source_annotation(&here, 1, &plain, &mut out);
    assert_eq!(out, "  ^^^ here");
    let mut out = String::new();
    set().format_source_annotation(&here, 0, &tagged(), &mut out);
    assert_eq!(out, "<e>   ^^^</e> <e>here</e>");
    let more = source_annotation(
        (2, 5),
        DisplayAnnotationType::Warning,
        DisplayAnnotationPart::LabelContinuation,
        "more",
    );
    let mut out = String::new();
    set().format_source_annotation(&more, 0, &plain, &mut out);
    assert_eq!(out, format!("{}more", " ".repeat(9)));
    let start = source_annotation(
        (0, 1),
        DisplayAnnotationType::Warning,
        DisplayAnnotationPart::MultilineStart,
        "",
    );
    let mut out = String::new();
    set().format_source_annotation(&start, 0, &plain, &mut out);
    assert_eq!(out, "_-");
    let untyped = source_annotation(
        (1, 3),
        DisplayAnnotationType::Untyped,
        DisplayAnnotationPart::MultilineEnd,
        "",
    );
    let mut out = String::new();
    set().format_source_annotation(&untyped, 0, &plain, &mut out);
    assert_eq!(out, "__  ");
}

#[test]
fn plain_label_is_bare_text() {
    let label = [
        regular("a"),
        DisplayTextFragment {
            content: "b",
            style: DisplayTextStyle::Emphasis,
        },
    ];
    let mut out = String::new();
    set().format_label(&label, &Stylesheet::plain(), &mut out);
    assert_eq!(out, "ab");
}

#[test]
fn level_styles() {
    let ss = tagged();
    assert_eq!(Level::error().style(&ss).on, "<e>");
    assert_eq!(Level::warning().style(&ss).off, "</w>");
    assert_eq!(Level::info().style(&ss).on, "<i>");
    assert_eq!(LevelInner::Note.style(&ss).on, "<n>");
    assert_eq!(LevelInner::Help.style(&ss).on, "<h>");
}
