use annotate_snippets::renderer::display_list::{
    Annotation, DisplayAnnotationPart, DisplayAnnotationType, DisplaySourceAnnotation, DisplayTextFragment,
    DisplayTextStyle,
};
use annotate_snippets::renderer::label_layout::label_positions;

fn ann(range: (usize, usize), label: &'static str, part: DisplayAnnotationPart) -> DisplaySourceAnnotation<'static> {
    DisplaySourceAnnotation {
        annotation: Annotation {
            annotation_type: DisplayAnnotationType::Error,
            id: None,
            label: vec![DisplayTextFragment { content: label, style: DisplayTextStyle::Regular }],
        },
        range,
        annotation_type: DisplayAnnotationType::Error,
        annotation_part: part,
    }
}

#[test]
fn distant_labels_share_the_underline_line() {
    let anns = [
        ann((0, 3), "first", DisplayAnnotationPart::Standalone),
        ann((10, 13), "second", DisplayAnnotationPart::Standalone),
    ];
    let (positions, line_len) = label_positions(&anns);
    // the later-starting annotation is taken first
    assert_eq!(positions, vec![(0, 1), (0, 0)]);
    assert_eq!(line_len, 0);
}

#[test]
fn close_labels_move_the_earlier_one_down() {
    let anns = [
        ann((0, 3), "first", DisplayAnnotationPart::Standalone),
        ann((4, 7), "second", DisplayAnnotationPart::Standalone),
    ];
    let (positions, line_len) = label_positions(&anns);
    assert_eq!(positions, vec![(0, 1), (1, 0)]);
    assert_eq!(line_len, 2);
}

#[test]
fn overlapping_labelled_annotation_leaves_the_underline() {
    let anns = [
        ann((0, 6), "outer", DisplayAnnotationPart::Standalone),
        ann((2, 4), "inner", DisplayAnnotationPart::Standalone),
    ];
    let (positions, line_len) = label_positions(&anns);
    // inner (index 1) starts later; it overlaps outer, so it leaves the
    // underline's line, and outer's label goes below it
    assert_eq!(positions, vec![(1, 1), (2, 0)]);
    assert_eq!(line_len, 3);
}

#[test]
fn multiline_starts_are_turned_upside_down() {
    let anns = [
        ann((2, 3), "", DisplayAnnotationPart::MultilineStart),
        ann((5, 6), "", DisplayAnnotationPart::MultilineStart),
    ];
    let (positions, line_len) = label_positions(&anns);
    // taken: index 1 at line 0, then index 0 one line down; turned over
    assert_eq!(positions, vec![(1, 1), (0, 0)]);
    assert_eq!(line_len, 1);
}
