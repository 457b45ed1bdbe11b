use annotate_snippets::level::{Level, LevelInner};
use annotate_snippets::renderer::no_graphics::render_no_graphics;
use annotate_snippets::snippet::{Annotation, AnnotationKind, Element, Group, Id, Message, Origin, Padding, Patch, Snippet, Title};

fn cause(path: Option<&'static str>, source: &'static str, start: usize, end: usize, label: Option<&'static str>) -> Element<'static> {
    Element::Cause(Snippet {
        path,
        line_start: 1,
        source,
        markers: vec![Annotation { span: start..end, label, kind: AnnotationKind::Primary, highlight_source: false }],
        fold: false,
    })
}

fn suggestion(path: Option<&'static str>, source: &'static str, start: usize, end: usize, replacement: &'static str) -> Element<'static> {
    Element::Suggestion(Snippet {
        path,
        line_start: 1,
        source,
        markers: vec![Patch { span: start..end, replacement }],
        fold: false,
    })
}

fn title(level: Level<'static>, id: Option<&'static str>, text: &'static str) -> Element<'static> {
    Element::Title(Title { level, id: id.map(|i| Id { id: Some(i), url: None }), text })
}

#[test]
fn report_with_cause_and_suggestion() {
    let groups = vec![
        Group {
            primary_level: Level::error(),
            elements: vec![
                title(Level::error(), Some("E0308"), "mismatched types"),
                cause(Some("a.rs"), "let x = 1;\n", 4, 5, Some("here")),
            ],
        },
        Group {
            primary_level: Level::help(),
            elements: vec![title(Level::help(), None, "try"), suggestion(Some("a.rs"), "let x = 1;\n", 8, 9, "2")],
        },
    ];
    assert_eq!(
        render_no_graphics(&groups),
        "error E0308: mismatched types\n at a.rs:1:5: here\nhelp: try\n on line 1, column 8, replace with `2`"
    );
}

#[test]
fn message_lines_are_indented_under_the_lead() {
    let groups = vec![Group {
        primary_level: Level::note(),
        elements: vec![Element::Message(Message { level: Level::note(), text: "a\nb" })],
    }];
    assert_eq!(render_no_graphics(&groups), "note: a\n      b");
}

#[test]
fn nameless_level_shows_only_the_text() {
    let hidden = Level { name: Some(None), level: LevelInner::Error };
    let groups = vec![Group { primary_level: hidden, elements: vec![title(hidden, Some("E1"), "plain")] }];
    assert_eq!(render_no_graphics(&groups), "plain");
}

#[test]
fn several_suggestions_are_listed() {
    let groups = vec![Group {
        primary_level: Level::help(),
        elements: vec![
            title(Level::help(), None, "use one"),
            suggestion(Some("b.rs"), "fn f() {}\n", 3, 4, "g"),
            suggestion(Some("b.rs"), "fn f() {}\n", 3, 4, "h\n"),
            Element::Padding(Padding),
            Element::Origin(Origin { path: "c.rs", line: Some(2), char_column: Some(3), primary: false }),
        ],
    }];
    assert_eq!(
        render_no_graphics(&groups),
        "help: use one\n at b.rs:1:3, replace with one of\n  g\n  h\n at c.rs:2:3"
    );
}
