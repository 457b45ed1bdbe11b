use annotate_snippets::annotation::{Annotation, AnnotationType, SourceAnnotation};
use annotate_snippets::display_list::snippet::{Slice, Snippet};
use annotate_snippets::display_list::{
    format_body, format_header, format_slice, DisplayLine, DisplayList, DisplayTextFragment,
};

fn frags(label: &[DisplayTextFragment]) -> String {
    let parts: Vec<String> = label.iter().map(|f| format!("{}:{:?}", f.content, f.style)).collect();
    format!("[{}]", parts.join(","))
}

fn show(l: &DisplayLine) -> String {
    match l {
        DisplayLine::Annotation { label, id, aligned, annotation_type } => {
            format!("A {:?} {:?} {} {}", annotation_type, id, aligned, frags(label))
        }
        DisplayLine::Origin { path, pos, header_type } => format!("O {} {:?} {:?}", path, pos, header_type),
        DisplayLine::EmptySource => "E".to_string(),
        DisplayLine::Source { lineno, inline_marks, content, range } => {
            format!("S {} {:?} {} {:?}", lineno, inline_marks, content, range)
        }
        DisplayLine::SourceAnnotation { inline_marks, range, label, annotation_type, annotation_part } => format!(
            "SA {:?} {:?} {} {:?} {:?}",
            inline_marks,
            range,
            frags(label),
            annotation_type,
            annotation_part
        ),
        DisplayLine::Fold { inline_marks } => format!("F {:?}", inline_marks),
    }
}

fn show_all(lines: &[DisplayLine]) -> Vec<String> {
    lines.iter().map(show).collect()
}

fn ann(start: usize, end: usize, label: &'static str, t: AnnotationType) -> SourceAnnotation<'static> {
    SourceAnnotation { range: (start, end), label, annotation_type: t }
}

fn slice(
    source: &'static str,
    line_start: usize,
    origin: Option<&'static str>,
    annotations: Vec<SourceAnnotation<'static>>,
    fold: bool,
) -> Slice<'static> {
    Slice { source, line_start, origin, annotations, fold }
}

#[test]
fn snippet_with_title_slice_and_footer() {
    let snippet = Snippet {
        title: Some(Annotation { id: Some("E1"), label: Some("T__x__y"), annotation_type: AnnotationType::Error }),
        footer: Some(Annotation { id: None, label: Some("n__m"), annotation_type: AnnotationType::Note }),
        slices: vec![slice("ab\ncd\nef", 5, Some("x.rs"), vec![ann(1, 2, "lbl", AnnotationType::Error)], false)],
    };
    let dl = DisplayList::from_snippet(snippet);
    assert_eq!(
        show_all(&dl.body),
        vec![
            "A Error Some(\"E1\") false [T:Emphasis,x:Emphasis,y:Emphasis]",
            "O x.rs Some((5, 1)) Initial",
            "E",
            "S 5 [] ab (0, 3)",
            "SA [] (1, 2) [lbl:Regular] Error Singleline",
            "S 6 [] cd (4, 7)",
            "S 7 [] ef (8, 11)",
            "E",
            "A Note None true [n:Regular,m:Emphasis]",
        ]
    );
}

#[test]
fn multiline_annotation_marks_its_lines() {
    let s = slice("abc\ndef\nghi", 1, None, vec![ann(0, 9, "m", AnnotationType::Warning)], false);
    assert_eq!(
        show_all(&format_body(&s, false)),
        vec![
            "E",
            "S 1 [AnnotationStart] abc (0, 4)",
            "S 2 [AnnotationThrough] def (5, 9)",
            "SA [AnnotationThrough] (4, 5) [m:Regular] Warning MultilineEnd",
            "S 3 [] ghi (10, 14)",
            "E",
        ]
    );
}

#[test]
fn multiline_annotation_starting_inside_a_line() {
    let s = slice("abc\ndef", 1, None, vec![ann(1, 6, "x__y", AnnotationType::Help)], false);
    assert_eq!(
        show_all(&format_body(&s, true)),
        vec![
            "E",
            "S 1 [] abc (0, 4)",
            "SA [] (1, 2) [] Help MultilineStart",
            "S 2 [AnnotationThrough] def (5, 9)",
            "SA [AnnotationThrough] (1, 2) [x:Regular,y:Emphasis] Help MultilineEnd",
            "E",
        ]
    );
}

#[test]
fn start_mark_is_lost_after_an_annotation_line() {
    let s = slice(
        "abc\ndef",
        1,
        None,
        vec![ann(0, 1, "a", AnnotationType::Error), ann(0, 6, "b", AnnotationType::Error)],
        false,
    );
    assert_eq!(
        show_all(&format_body(&s, false)),
        vec![
            "E",
            "S 1 [] abc (0, 4)",
            "SA [] (0, 1) [a:Regular] Error Singleline",
            "S 2 [AnnotationThrough] def (5, 9)",
            "SA [AnnotationThrough] (1, 2) [b:Regular] Error MultilineEnd",
        ]
    );
}

#[test]
fn folding_without_annotations_drops_the_source() {
    let s = slice("a\nb", 1, None, vec![], true);
    assert_eq!(show_all(&format_body(&s, false)), vec!["E"]);
    assert_eq!(show_all(&format_body(&s, true)), vec!["E", "E"]);
}

#[test]
fn folding_keeps_the_lines_before_an_annotation() {
    let s = slice("a\nb\nc", 1, None, vec![ann(8, 9, "z", AnnotationType::Info)], true);
    assert_eq!(
        show_all(&format_body(&s, false)),
        vec![
            "E",
            "S 1 [] a (0, 2)",
            "S 2 [] b (3, 5)",
            "S 3 [] c (6, 8)",
            "SA [] (2, 3) [z:Regular] Info Singleline",
        ]
    );
}

#[test]
fn header_of_annotation_past_the_lines() {
    let s = slice("ab", 7, Some("p"), vec![ann(50, 51, "far", AnnotationType::Error)], false);
    let body = format_body(&s, false);
    assert_eq!(show_all(&body), vec!["E", "S 7 [] ab (0, 3)", "E"]);
    let header = format_header(&s, &body, false).unwrap();
    assert_eq!(show(&header), "O p Some((8, 1)) Continuation");
}

#[test]
fn header_without_origin_or_annotations() {
    let no_origin = slice("ab", 1, None, vec![ann(0, 1, "a", AnnotationType::Error)], false);
    let body = format_body(&no_origin, false);
    assert!(format_header(&no_origin, &body, true).is_none());
    let no_annotation = slice("ab", 1, Some("f"), vec![], false);
    let body = format_body(&no_annotation, false);
    assert_eq!(show(&format_header(&no_annotation, &body, true).unwrap()), "O f None Initial");
    let lines = format_slice(&no_annotation, true, false);
    assert_eq!(show_all(&lines), vec!["O f None Initial", "E", "S 1 [] ab (0, 3)", "E"]);
}

#[test]
fn second_slice_gets_a_continuation_origin() {
    let snippet = Snippet {
        title: None,
        footer: None,
        slices: vec![
            slice("a", 1, Some("one"), vec![], false),
            slice("b", 9, Some("two"), vec![ann(0, 1, "here", AnnotationType::Warning)], false),
        ],
    };
    let dl = DisplayList::from_snippet(snippet);
    assert_eq!(
        show_all(&dl.body),
        vec![
            "O one None Initial",
            "E",
            "S 1 [] a (0, 2)",
            "E",
            "O two Some((9, 0)) Continuation",
            "E",
            "S 9 [] b (0, 2)",
            "SA [] (0, 1) [here:Regular] Warning Singleline",
        ]
    );
}
