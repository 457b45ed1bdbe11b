use annotate_snippets::level::Level;
use annotate_snippets::renderer::preprocess::{preprocess, PreprocessedElement};
use annotate_snippets::snippet::{Annotation, AnnotationKind, Element, Group, Origin, Padding, Snippet};

fn cause(path: Option<&'static str>, source: &'static str, line_start: usize, end: usize, fold: bool) -> Element<'static> {
    Element::Cause(Snippet {
        path,
        line_start,
        source,
        markers: vec![Annotation { span: 0..end, label: None, kind: AnnotationKind::Primary, highlight_source: false }],
        fold,
    })
}

#[test]
fn groups_keep_their_elements_and_find_their_paths() {
    let groups = vec![
        Group { primary_level: Level::error(), elements: vec![Element::Padding(Padding)] },
        Group {
            primary_level: Level::note(),
            elements: vec![
                Element::Origin(Origin { path: "b.rs", line: None, char_column: None, primary: false }),
                cause(Some("a.rs"), "x\ny\nz\n", 3, 1, false),
            ],
        },
    ];
    let pre = preprocess(&groups);
    assert_eq!(pre.groups.len(), 2);
    assert_eq!(pre.groups[0].primary_path, None);
    assert_eq!(pre.groups[1].primary_path, Some("b.rs"));
    assert_eq!(pre.report_primary_path, Some("b.rs"));
    assert_eq!(pre.groups[1].elements.len(), 2);
    assert!(matches!(pre.groups[1].elements[0], PreprocessedElement::Origin(_)));
    assert!(matches!(pre.groups[1].elements[1], PreprocessedElement::Cause(_, _)));
    // three lines numbered from 3: the last is 5
    assert_eq!(pre.max_line_num, Some(5));
}

#[test]
fn folded_cause_counts_lines_up_to_its_last_annotation() {
    let groups = vec![Group {
        primary_level: Level::error(),
        elements: vec![cause(None, "a\nb\nc\nd\n", 10, 3, true), cause(None, "a\n", 1, 1, false)],
    }];
    let pre = preprocess(&groups);
    // "a\nb" is shown: lines 10 and 11
    assert_eq!(pre.max_line_num, Some(11));
    assert_eq!(pre.report_primary_path, None);
}

#[test]
fn report_without_causes_has_no_line_number() {
    let groups = vec![Group { primary_level: Level::error(), elements: vec![Element::Padding(Padding)] }];
    assert_eq!(preprocess(&groups).max_line_num, None);
}
