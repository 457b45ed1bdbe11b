use annotate_snippets::renderer::display_body::format_body;
use annotate_snippets::input::Level;
use annotate_snippets::message::{Annotation, Message, Snippet};
use annotate_snippets::renderer::display_list::{
    DisplayAnnotationPart, DisplayAnnotationType, DisplayHeaderType, DisplayLine, DisplayList, DisplayRawLine,
    DisplaySourceLine, DisplayTextStyle,
};
use annotate_snippets::renderer::display_message::format_message;
use annotate_snippets::renderer::preprocess::newline_count;

fn message<'a>(title: &'a str, snippets: Vec<Snippet<'a>>, footer: Vec<Message<'a>>) -> Message<'a> {
    Message { level: Level::Error, id: Some("E0001"), title, snippets, footer }
}

#[test]
fn title_only_message_is_one_set() {
    let sets = format_message(message("oops", vec![], vec![]), 140, false, true);
    assert_eq!(sets.len(), 1);
    assert_eq!(sets[0].display_lines.len(), 1);
    match &sets[0].display_lines[0] {
        DisplayLine::Raw(DisplayRawLine::Annotation { annotation, source_aligned, continuation }) => {
            assert_eq!(annotation.annotation_type, DisplayAnnotationType::Error);
            assert_eq!(annotation.id, Some("E0001"));
            assert_eq!(annotation.label.len(), 1);
            assert_eq!(annotation.label[0].content, "oops");
            assert_eq!(annotation.label[0].style, DisplayTextStyle::Emphasis);
            assert!(!source_aligned);
            assert!(!continuation);
        }
        _ => panic!("expected the title"),
    }
    assert_eq!(sets[0].margin.column_width, 140);
}

#[test]
fn footer_messages_follow_as_aligned_lines() {
    let footer = vec![Message { level: Level::Note, id: None, title: "first\nsecond", snippets: vec![], footer: vec![] }];
    let sets = format_message(message("oops", vec![], footer), 140, false, true);
    assert_eq!(sets.len(), 2);
    let lines = &sets[1].display_lines;
    assert_eq!(lines.len(), 2);
    for (i, (line, text)) in lines.iter().zip(["first", "second"]).enumerate() {
        match line {
            DisplayLine::Raw(DisplayRawLine::Annotation { annotation, source_aligned, continuation }) => {
                assert_eq!(annotation.annotation_type, DisplayAnnotationType::Note);
                assert_eq!(annotation.label[0].content, text);
                assert_eq!(annotation.label[0].style, DisplayTextStyle::Regular);
                assert!(*source_aligned);
                assert_eq!(*continuation, i != 0);
            }
            _ => panic!("expected a footer line"),
        }
    }
}

#[test]
fn snippet_lines_carry_their_annotation() {
    let snippet = Snippet {
        origin: Some("file.rs"),
        line_start: 7,
        source: "abc",
        annotations: vec![Annotation { range: 0..1, label: Some("here"), level: Level::Warning }],
        fold: false,
    };
    let sets = format_message(message("oops", vec![snippet], vec![]), 140, false, true);
    assert_eq!(sets.len(), 1);
    let lines = &sets[0].display_lines;
    assert!(matches!(lines[0], DisplayLine::Raw(DisplayRawLine::Annotation { .. })));
    match &lines[1] {
        DisplayLine::Raw(DisplayRawLine::Origin { path, header_type, .. }) => {
            assert_eq!(*path, "file.rs");
            assert_eq!(*header_type, DisplayHeaderType::Initial);
        }
        _ => panic!("expected the origin"),
    }
    let source = lines
        .iter()
        .find_map(|l| match l {
            DisplayLine::Source { lineno: Some(n), line: DisplaySourceLine::Content { text, .. }, annotations, .. } => {
                Some((*n, *text, annotations))
            }
            _ => None,
        })
        .unwrap();
    assert_eq!(source.0, 7);
    assert_eq!(source.1, "abc");
    assert_eq!(source.2.len(), 1);
    assert_eq!(source.2[0].range, (0, 1));
    assert_eq!(source.2[0].annotation_type, DisplayAnnotationType::Warning);
    assert_eq!(source.2[0].annotation_part, DisplayAnnotationPart::Standalone);
    assert!(source.2[0].has_label());
    assert_eq!(source.2[0].len(), 1);
    assert!(!source.2[0].takes_space());
}

#[test]
fn display_list_of_a_message() {
    let list = DisplayList::new(message("oops", vec![], vec![]), true, 80);
    assert!(list.anonymized_line_numbers);
    assert_eq!(list.body.len(), 1);
    assert_eq!(list.body[0].display_lines.len(), 1);
}

#[test]
fn newline_count_of_sources() {
    assert_eq!(newline_count("a\nb\nc"), 2);
    assert_eq!(newline_count("a\r\n"), 0);
}

#[test]
fn reversed_range_is_shown_whole_on_its_line() {
    let snippet = Snippet {
        origin: None,
        line_start: 1,
        source: "abcd",
        annotations: vec![Annotation { range: 3..1, label: Some("back"), level: Level::Error }],
        fold: false,
    };
    let set = format_body(snippet, false, false, 140, false);
    let anns = set
        .display_lines
        .iter()
        .find_map(|l| match l {
            DisplayLine::Source { line: DisplaySourceLine::Content { .. }, annotations, .. } => Some(annotations),
            _ => None,
        })
        .unwrap();
    assert_eq!(anns.len(), 1);
    assert_eq!(anns[0].range, (3, 1));
    assert_eq!(anns[0].annotation_part, DisplayAnnotationPart::Standalone);
}
