use annotate_snippets::renderer::preprocess::newline_count;

#[test]
fn ensure_newline_count_correct() {
    let source = r#"
                cargo-features = ["path-bases"]

                [package]
                name = "foo"
                version = "0.5.0"
                authors = ["wycats@example.com"]

                [dependencies]
                bar = { base = '^^not-valid^^', path = 'bar' }
            "#;
    assert_eq!(newline_count(source), 10);

    assert_eq!(newline_count(""), 0);

    assert_eq!(newline_count("one"), 0);

    assert_eq!(newline_count("one\n"), 0);

    assert_eq!(newline_count("one\ntwo"), 1);

    assert_eq!(newline_count("one\ntwo\n"), 1);

    assert_eq!(newline_count("one\n\n"), 1);

    assert_eq!(newline_count("one\r\ntwo\r\n"), 1);
}
