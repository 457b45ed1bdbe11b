use annotate_snippets::input::Level;
use annotate_snippets::message::Annotation;
use annotate_snippets::renderer::source_map::{LineAnnotationType, Loc, MultilineAnnotation, SourceMap};
use annotate_snippets::renderer::line_filter::{line_is_kept, num_overlap};

fn loc(line: usize, char: usize, display: usize, byte: usize) -> Loc {
    Loc { line, char, display, byte }
}

#[test]
fn lines_are_numbered_and_placed() {
    let sm = SourceMap::new("ab\ncd\r\nef", 10);
    assert_eq!(sm.lines.len(), 3);
    assert_eq!(sm.lines[0].line, "ab");
    assert_eq!((sm.lines[0].line_index, sm.lines[0].start_byte, sm.lines[0].end_byte), (10, 0, 3));
    assert_eq!(sm.lines[1].line, "cd");
    assert_eq!((sm.lines[1].line_index, sm.lines[1].start_byte, sm.lines[1].end_byte), (11, 3, 7));
    assert_eq!(sm.lines[1].end_line_size, 2);
    assert_eq!(sm.lines[2].line, "ef");
    assert_eq!((sm.lines[2].start_byte, sm.lines[2].end_byte, sm.lines[2].end_line_size), (7, 9, 0));
}

#[test]
fn get_line_by_number() {
    let sm = SourceMap::new("ab\ncd\r\nef", 10);
    assert_eq!(sm.get_line(11), Some("cd"));
    assert_eq!(sm.get_line(12), Some("ef"));
    assert_eq!(sm.get_line(13), None);
    assert_eq!(sm.get_line(9), None);
}

#[test]
fn span_on_one_line() {
    let sm = SourceMap::new("ab\ncd\r\nef", 10);
    assert_eq!(sm.span_to_locations(4..5), (loc(11, 1, 1, 4), loc(11, 2, 2, 5)));
    assert_eq!(sm.span_to_locations(4..4), (loc(11, 1, 1, 4), loc(11, 1, 1, 4)));
}

#[test]
fn span_over_lines() {
    let sm = SourceMap::new("ab\ncd\r\nef", 10);
    assert_eq!(sm.span_to_locations(1..8), (loc(10, 1, 1, 1), loc(12, 1, 1, 8)));
    // ending on the line terminator of a later line counts one more column
    assert_eq!(sm.span_to_locations(0..6), (loc(10, 0, 0, 0), loc(11, 4, 3, 6)));
}

#[test]
fn wide_characters_count_their_display_width() {
    let sm = SourceMap::new("a中b", 1);
    assert_eq!(sm.span_to_locations(4..5), (loc(1, 2, 3, 4), loc(1, 3, 4, 5)));
}

#[test]
fn annotated_lines_place_single_and_multiline_annotations() {
    let source = "fn a() {\n    x\n}\n";
    let sm = SourceMap::new(source, 1);
    let anns = vec![
        Annotation { range: 3..4, label: Some("name"), level: Level::Error },
        Annotation { range: 7..16, label: Some("body"), level: Level::Warning },
    ];
    let lines = sm.annotated_lines(anns, false);
    assert_eq!(lines.len(), 3);
    assert_eq!(lines[0].line_index, 1);
    assert_eq!(lines[0].annotations.len(), 2);
    let a = &lines[0].annotations[0];
    assert_eq!((a.start, a.end, a.label), (loc(1, 3, 3, 3), loc(1, 4, 4, 4), Some("name")));
    assert_eq!(a.annotation_type, LineAnnotationType::Singleline);
    let s = &lines[0].annotations[1];
    assert_eq!((s.start, s.end, s.label), (loc(1, 7, 7, 7), loc(1, 8, 8, 8), None));
    assert_eq!(s.annotation_type, LineAnnotationType::MultilineStart(1));
    assert_eq!(lines[1].annotations.len(), 1);
    assert_eq!(lines[1].annotations[0].annotation_type, LineAnnotationType::MultilineLine(1));
    assert_eq!(lines[2].annotations.len(), 1);
    let e = &lines[2].annotations[0];
    assert_eq!((e.start, e.end, e.label), (loc(3, 0, 0, 15), loc(3, 1, 1, 16), Some("body")));
    assert_eq!(e.annotation_type, LineAnnotationType::MultilineEnd(1));
    assert_eq!(e.level, Level::Warning);
}

#[test]
fn folding_keeps_only_annotated_lines() {
    let source = "a\nb\nc\n";
    let sm = SourceMap::new(source, 1);
    let anns = vec![Annotation { range: 2..3, label: None, level: Level::Note }];
    let lines = sm.annotated_lines(anns, true);
    assert_eq!(lines.len(), 1);
    assert_eq!(lines[0].line, "b");
    assert_eq!(lines[0].line_index, 2);
    let all = sm.annotated_lines(vec![], false);
    assert_eq!(all.len(), 3);
    assert!(all.iter().all(|l| l.annotations.is_empty()));
}

#[test]
fn annotations_on_a_line_are_sorted_by_start() {
    let sm = SourceMap::new("abcdef", 1);
    let anns = vec![
        Annotation { range: 4..5, label: Some("second"), level: Level::Error },
        Annotation { range: 1..2, label: Some("first"), level: Level::Error },
    ];
    let lines = sm.annotated_lines(anns, true);
    assert_eq!(lines[0].annotations[0].label, Some("first"));
    assert_eq!(lines[0].annotations[1].label, Some("second"));
}

#[test]
fn empty_span_is_one_column_wide() {
    let sm = SourceMap::new("abc", 1);
    let lines = sm.annotated_lines(vec![Annotation { range: 1..1, label: None, level: Level::Error }], true);
    let a = &lines[0].annotations[0];
    assert_eq!(a.start, loc(1, 1, 1, 1));
    assert_eq!(a.end, loc(1, 1, 2, 1));
}

#[test]
fn overlapping_multiline_annotations_get_different_depths() {
    let source = "a\nb\nc\nd\n";
    let sm = SourceMap::new(source, 1);
    let anns = vec![
        Annotation { range: 0..5, label: Some("outer"), level: Level::Error },
        Annotation { range: 2..7, label: Some("inner"), level: Level::Error },
    ];
    let lines = sm.annotated_lines(anns, true);
    let depth_of = |label: &str| {
        lines
            .iter()
            .flat_map(|l| l.annotations.iter())
            .find(|a| a.label == Some(label))
            .map(|a| a.annotation_type)
            .unwrap()
    };
    assert_eq!(depth_of("outer"), LineAnnotationType::MultilineEnd(1));
    assert_eq!(depth_of("inner"), LineAnnotationType::MultilineEnd(2));
}

#[test]
fn multiline_marks() {
    let m = MultilineAnnotation {
        depth: 2,
        start: loc(1, 3, 3, 3),
        end: loc(4, 0, 0, 20),
        level: Level::Help,
        label: Some("l"),
        overlaps_exactly: false,
    };
    let s = m.as_start();
    assert_eq!(s.end, loc(1, 4, 4, 4));
    assert_eq!(s.annotation_type, LineAnnotationType::MultilineStart(2));
    let e = m.as_end();
    assert_eq!(e.start, loc(4, 0, 0, 19));
    assert_eq!(e.label, Some("l"));
    let l = m.as_line();
    assert_eq!(l.start, loc(0, 0, 0, 0));
    assert_eq!(l.annotation_type, LineAnnotationType::MultilineLine(2));
    let mut m2 = m;
    m2.increase_depth();
    assert_eq!(m2.depth, 3);
    assert!(m.same_span(&m2));
}

#[test]
fn kept_lines_and_overlaps() {
    assert!(line_is_kept("  let x = 1;"));
    assert!(!line_is_kept("   "));
    assert!(!line_is_kept("  }  "));
    assert!(!line_is_kept("// comment"));
    assert!(line_is_kept("/// doc comment"));
    assert!(line_is_kept("//! inner doc"));
    assert!(num_overlap(1, 3, 3, 5, true));
    assert!(!num_overlap(1, 3, 3, 5, false));
    assert!(num_overlap(2, 2, 1, 4, false));
    assert!(!num_overlap(5, 6, 1, 2, true));
}
