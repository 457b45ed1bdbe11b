use annotate_snippets::span::{Span, SpanFormatter, SpanWriter, WithLineNumber};

#[test]
fn text_lines_are_numbered_from_one() {
    let text: &str = "ab\ncd";
    let first = ().first_line(&text);
    assert_eq!(first.data, 0..2);
    assert_eq!(first.line_num, 1);
    let second = ().next_line(&text, &first).unwrap();
    assert_eq!(second.data, 3..5);
    assert_eq!(second.line_num, 2);
    assert!(().next_line(&text, &second).is_none());
}

#[test]
fn a_trailing_line_feed_gives_an_empty_last_line() {
    let text: &str = "ab\n";
    let first = ().first_line(&text);
    let second = ().next_line(&text, &first).unwrap();
    assert_eq!(second.data, 3..3);
    assert_eq!(second.line_num, 2);
}

#[test]
fn columns_count_characters() {
    let text: &str = "héllo";
    assert_eq!(().count_columns(&text, &(0..3)), 2);
    assert_eq!(().count_columns(&text, &(0..6)), 5);
}

#[test]
fn range_lines_are_numbered_by_preceding_line_feeds() {
    let src: &str = "ab\ncd\nef";
    let first = src.first_line(&(4..5));
    assert_eq!(first.data, 3..5);
    assert_eq!(first.line_num, 1);
    assert!(src.next_line(&(4..5), &first).is_none());
    let next = src.next_line(&(4..8), &first).unwrap();
    assert_eq!(next.data, 6..8);
    assert_eq!(next.line_num, 2);
    assert_eq!(src.count_columns(&(4..8), &(3..5)), 2);
}

#[test]
fn range_first_line_without_line_feed_ends_at_range_length() {
    let src: &str = "abcdef";
    let first = src.first_line(&(2..4));
    assert_eq!(first.data, 0..2);
    assert_eq!(first.line_num, 0);
}

#[test]
fn writers_write_the_piece() {
    let text: &str = "héllo";
    let mut out = String::new();
    ().write(&mut out, &text, &(1..3));
    assert_eq!(out, "é");
    let src: &str = "abc";
    src.write(&mut out, &(0..3), &(0..2));
    assert_eq!(out, "éab");
}

#[test]
fn spans_have_ends() {
    let text: &str = "abc";
    assert_eq!(text.start(), 0);
    assert_eq!(text.end(), 3);
    assert_eq!(text.slice(1..2), 1..2);
    let r = 2..5;
    assert_eq!(Span::start(&r), 2);
    assert_eq!(Span::end(&r), 5);
    let w = WithLineNumber { line_num: 4, data: 1..3 };
    assert_eq!(Span::start(&w), 1);
    assert_eq!(Span::end(&w), 3);
    assert_eq!(w.slice(0..1), 0..1);
}

#[test]
fn numbered_span_answers_as_its_span() {
    let text: &str = "hello";
    let w = WithLineNumber { line_num: 7, data: text };
    assert_eq!(w.start(), 0);
    assert_eq!(w.end(), 5);
    assert_eq!(w.slice(1..3), 1..3);
    let r = WithLineNumber { line_num: 1, data: 4..9 };
    assert_eq!(r.start(), 4);
    assert_eq!(r.end(), 9);
}
