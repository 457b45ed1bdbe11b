use annotate_snippets::renderer::no_graphics::{render_cause, render_origin, render_path};
use annotate_snippets::snippet::{Annotation, AnnotationKind, Origin, Snippet};

const SOURCE: &str = "fn main() {\n    let x = 1;\n}";

fn cause(markers: Vec<Annotation<'static>>) -> Snippet<'static, Annotation<'static>> {
    Snippet::<Annotation>::source(SOURCE)
        .line_start(1)
        .path("src/main.rs".into())
        .annotations(markers)
}

fn text(snippet: &Snippet<'_, Annotation<'_>>, has_next: bool) -> String {
    let mut out = String::new();
    render_cause(&mut out, snippet, has_next);
    out
}

#[test]
fn positions_in_words() {
    let mut out = String::new();
    render_path(&mut out, Some("a.rs"), Some(3), Some(9));
    assert_eq!(out, "at a.rs:3:9");
    let mut out = String::new();
    render_path(&mut out, None, Some(3), None);
    assert_eq!(out, "on line 3");
}

#[test]
fn primary_first_then_labelled_context() {
    let snippet = cause(vec![
        AnnotationKind::Context.span(16..21).label("binding".into()),
        AnnotationKind::Primary.span(3..7).label("name".into()),
    ]);
    assert_eq!(
        text(&snippet, false),
        " at src/main.rs:1:4: name\n  on line 2: binding"
    );
    assert_eq!(
        text(&snippet, true),
        " at src/main.rs:1:4: name\n  on line 2: binding\n"
    );
}

#[test]
fn multiline_spans_name_both_ends() {
    let snippet = cause(vec![
        AnnotationKind::Primary.span(3..7),
        AnnotationKind::Context.span(10..20).label("block".into()),
    ]);
    assert_eq!(
        text(&snippet, false),
        " at src/main.rs:1:4\n  on line 1, column 11 to line 2, column 9: block"
    );
    let first = cause(vec![AnnotationKind::Primary.span(10..20)]);
    assert_eq!(text(&first, false), " at src/main.rs:1:11 to 2:9");
}

#[test]
fn unlabelled_later_annotations_are_left_out() {
    let snippet = cause(vec![
        AnnotationKind::Primary.span(3..7).label("name".into()),
        AnnotationKind::Context.span(16..21),
        AnnotationKind::Context.span(0..2).label("".into()),
    ]);
    assert_eq!(text(&snippet, true), " at src/main.rs:1:4: name\n");
}

#[test]
fn without_annotations_or_path() {
    let empty = cause(vec![]);
    assert_eq!(text(&empty, true), " at src/main.rs:1\n");
    let no_path = Snippet::<Annotation>::source(SOURCE)
        .line_start(1)
        .annotation(AnnotationKind::Primary.span(3..7).label("name".into()));
    assert_eq!(text(&no_path, false), "  on line 1, column 4: name");
}

#[test]
fn origins_in_words() {
    let origin = Origin {
        path: "x.rs",
        line: Some(3),
        char_column: Some(5),
        primary: false,
    };
    let mut out = String::new();
    render_origin(&mut out, &origin, true);
    assert_eq!(out, " at x.rs:3:5\n");
    let mut out = String::new();
    render_origin(&mut out, &Origin::path("y.rs"), false);
    assert_eq!(out, " at y.rs");
}
