use annotate_snippets::formatter::{DisplayLine, FormattedSnippet, Mark, MarkKind, RawLine, SourceLine};
use annotate_snippets::input::{Level, Message, Title};
use annotate_snippets::renderer::ascii::Ascii;

fn example() -> FormattedSnippet<'static> {
    FormattedSnippet {
        lines: vec![
            DisplayLine::Raw(RawLine::Title {
                title: Title {
                    code: Some("E0308"),
                    message: Message { text: "mismatched types", level: Level::Error },
                },
            }),
            DisplayLine::Raw(RawLine::Origin { path: "src/x.rs", pos: Some((2, 5)) }),
            DisplayLine::Source { lineno: None, inline_marks: vec![], line: SourceLine::Empty },
            DisplayLine::Source {
                lineno: Some(2),
                inline_marks: vec![],
                line: SourceLine::Content { span: "let x: u32 = \"a\";", subspan: 0..17 },
            },
            DisplayLine::Source {
                lineno: None,
                inline_marks: vec![],
                line: SourceLine::Annotation {
                    message: Some(Message { text: "expected u32", level: Level::Error }),
                    underline: (13, 3),
                },
            },
            DisplayLine::Raw(RawLine::Message { message: Message { text: "note text", level: Level::Note } }),
        ],
    }
}

#[test]
fn renders_plain_text() {
    let mut out = String::new();
    Ascii::new().render(&example(), &mut out);
    let expected = String::from("error[E0308]: mismatched types\n")
        + " --> src/x.rs:2:5\n"
        + "  | \n"
        + "2 |  let x: u32 = \"a\";\n"
        + "  | "
        + &" ".repeat(14)
        + "^^^ expected u32\n"
        + "  = note: note text\n";
    assert_eq!(out, expected);
}

#[test]
fn renders_ansi_title() {
    let mut a = Ascii::new();
    a.ansi(true);
    let mut out = String::new();
    a.render_line(&example().lines[0], 1, 0, &mut out);
    assert_eq!(out, "\x1B[1;31;1merror[E0308]\x1B[0;1m: mismatched types\n");
}

#[test]
fn renders_marks_and_long_underlines() {
    let mut a = Ascii::new();
    a.box_drawing(true);
    let line = DisplayLine::Source {
        lineno: Some(10),
        inline_marks: vec![Mark { kind: MarkKind::Here, level: Level::Warning }],
        line: SourceLine::Annotation {
            message: Some(Message { text: "ends here", level: Level::Warning }),
            underline: (2, 1),
        },
    };
    let mut out = String::new();
    a.render_line(&line, 2, 1, &mut out);
    assert_eq!(out, "10 ║ └───┘ ends here\n");
    let mut b = Ascii::new();
    b.box_drawing(false);
    let mut out = String::new();
    b.render_line(&line, 2, 2, &mut out);
    assert_eq!(out, "10 |  \\___^ ends here\n");
}

#[test]
fn warning_underline_uses_tildes() {
    let line = DisplayLine::Source {
        lineno: None,
        inline_marks: vec![Mark { kind: MarkKind::Start, level: Level::Info }],
        line: SourceLine::Annotation { message: None, underline: (0, 2) },
    };
    let mut out = String::new();
    Ascii::new().render_line(&line, 1, 1, &mut out);
    assert_eq!(out, "  | / -- \n");
}
