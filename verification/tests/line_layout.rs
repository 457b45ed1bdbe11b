use annotate_snippets::cursor_line::{collect_lines, EndLine};
use annotate_snippets::renderer::source_map::SourceMap;

fn end_text(e: EndLine) -> &'static str {
    match e {
        EndLine::Eof => "",
        EndLine::Lf => "\n",
        EndLine::Crlf => "\r\n",
    }
}

#[test]
fn lines_rejoin_to_the_text() {
    for src in ["", "a", "a\n", "a\r\nb\n\nc", "\n\n", "x\ry\n"] {
        let lines = collect_lines(src);
        let joined: String = lines.iter().map(|(l, e)| format!("{}{}", l, end_text(*e))).collect();
        assert_eq!(joined, src);
        assert_eq!(lines.is_empty(), src.is_empty());
        for (i, (l, e)) in lines.iter().enumerate() {
            assert!(!l.contains('\n'));
            if i + 1 < lines.len() {
                assert_ne!(*e, EndLine::Eof);
            }
        }
    }
}

#[test]
fn source_map_lays_out_the_source() {
    let src = "ab\r\ncd\n\nef";
    let sm = SourceMap::new(src, 3);
    let l = &sm.lines;
    assert_eq!(l.len(), 4);
    assert_eq!(l[0].start_byte, 0);
    for i in 0..l.len() {
        assert_eq!(l[i].line_index, 3 + i);
        assert_eq!(l[i].end_byte - l[i].start_byte, l[i].line.len() + l[i].end_line_size);
        assert_eq!(&src[l[i].start_byte..l[i].start_byte + l[i].line.len()], l[i].line);
        if i + 1 < l.len() {
            assert_eq!(l[i + 1].start_byte, l[i].end_byte);
        }
    }
    assert_eq!(l[3].end_byte, src.len());
    assert_eq!(l[0].end_line_size, 2);
}
