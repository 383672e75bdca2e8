use koda_core::{ScanConfig, SourceFile, scan};

fn file(path: &str, content: &str) -> SourceFile {
    SourceFile { path: path.to_owned(), content: content.as_bytes().to_vec() }
}

#[test]
fn scan_only_matches_in_comments() {
    let contents = "\nfn main() {\n    let s = \"TODO: not a comment\";\n    let t = \"// TODO: not a comment either\";\n    // TODO: in line comment\n    /*\n        FIXME: in block comment\n    */\n}\n";
    let files = vec![file("lib.rs", contents)];

    let config = ScanConfig::builder().root(".".to_owned()).build();
    let result = scan(config, files).unwrap();

    let mut marks = result
        .marks
        .iter()
        .map(|mark| (mark.line, mark.mark.clone()))
        .collect::<Vec<_>>();
    marks.sort();

    assert_eq!(marks.len(), 2);
    assert_eq!(marks[0].1, "TODO");
    assert_eq!(marks[1].1, "FIXME");
}

#[test]
fn scan_ignores_backtick_strings_in_js() {
    let contents = "\nconst note = `// TODO: not a comment`;\n// TODO: comment\n";
    let files = vec![file("main.ts", contents)];

    let config = ScanConfig::builder().root(".".to_owned()).build();
    let result = scan(config, files).unwrap();

    let marks = result
        .marks
        .iter()
        .map(|mark| (mark.line, mark.mark.clone()))
        .collect::<Vec<_>>();

    assert_eq!(marks.len(), 1);
    assert_eq!(marks[0].1, "TODO");
    assert_eq!(marks[0].0, 3);
}

#[test]
fn scan_respects_python_triple_quotes() {
    let contents = "\ndoc = \"\"\"// TODO: not a comment\"\"\"\n# TODO: comment\n";
    let files = vec![file("main.py", contents)];

    let config = ScanConfig::builder().root(".".to_owned()).build();
    let result = scan(config, files).unwrap();

    assert_eq!(result.stats.matches, 1);
    assert_eq!(result.marks[0].line, 3);
}

#[test]
fn scan_ignores_go_raw_string_literals() {
    let contents = "\npackage main\n\nconst note = `// TODO: not a comment`\n// TODO: comment\n";
    let files = vec![file("main.go", contents)];

    let config = ScanConfig::builder().root(".".to_owned()).build();
    let result = scan(config, files).unwrap();

    assert_eq!(result.stats.matches, 1);
    assert_eq!(result.marks[0].line, 5);
}

#[test]
fn scan_handles_rust_raw_strings() {
    let contents = "let s = r#\"// TODO: not \" a comment\"#;\n// TODO: yes\n";
    let files = vec![file("raw.rs", contents)];

    let config = ScanConfig::builder().root(".".to_owned()).build();
    let result = scan(config, files).unwrap();

    assert_eq!(result.stats.matches, 1);
    assert_eq!(result.marks[0].line, 2);
}

#[test]
fn scan_block_comment_spanning_lines() {
    let contents = "/* NOTE: first\nstill inside TODO ignored?\n*/\n// WARN: after\n";
    let files = vec![file("block.c", contents)];

    let config = ScanConfig::builder().root(".".to_owned()).build();
    let result = scan(config, files).unwrap();

    // NOTE leads the block comment; TODO on the continuation line is not
    // at the leading position; WARN leads its own line comment.
    let mut marks = result
        .marks
        .iter()
        .map(|mark| (mark.line, mark.mark.clone()))
        .collect::<Vec<_>>();
    marks.sort();
    assert_eq!(marks.len(), 2);
    assert_eq!(marks[0], (1, "NOTE".to_owned()));
    assert_eq!(marks[1], (4, "WARN".to_owned()));
}

#[test]
fn find_comment_ranges_reports_block_and_line() {
    let mut state = koda_core::BlockState::default();
    let info = koda_core::syntax_for_path("x.rs").unwrap();
    let line = b"a /* x */ b // tail";
    let ranges = koda_core::find_comment_ranges(line, &mut state, &info.syntax);
    assert_eq!(ranges, vec![(2, 9), (12, 19)]);
    assert!(!state.in_block);

    let open_line = b"code /* starts";
    let ranges = koda_core::find_comment_ranges(open_line, &mut state, &info.syntax);
    assert_eq!(ranges, vec![(5, 14)]);
    assert!(state.in_block);

    let close_line = b"ends */ after";
    let ranges = koda_core::find_comment_ranges(close_line, &mut state, &info.syntax);
    assert_eq!(ranges, vec![(0, 7)]);
    assert!(!state.in_block);
}

#[test]
fn syntax_registry_maps_extensions_and_names() {
    assert_eq!(syntax_tag("src/app/main.rs"), Some("rs".to_owned()));
    assert_eq!(syntax_tag("Makefile"), Some("makefile".to_owned()));
    assert_eq!(syntax_tag("Dockerfile"), Some("dockerfile".to_owned()));
    assert_eq!(syntax_tag("a/b/script.PY"), Some("py".to_owned()));
    assert_eq!(syntax_tag("conf.yml"), Some("yaml".to_owned()));
    assert_eq!(syntax_tag("a.kts"), Some("kotlin".to_owned()));
    assert_eq!(syntax_tag("noext"), None);
    assert_eq!(syntax_tag(".hidden"), None);
    assert_eq!(syntax_tag("archive.tar"), None);
}

fn syntax_tag(path: &str) -> Option<String> {
    koda_core::syntax_for_path(path).map(|info| info.language)
}

#[test]
fn normalize_mark_recognises_the_six_words() {
    assert_eq!(koda_core::normalize_mark("todo"), Some("TODO".to_owned()));
    assert_eq!(koda_core::normalize_mark("Fixme"), Some("FIXME".to_owned()));
    assert_eq!(koda_core::normalize_mark("ERROR"), Some("ERROR".to_owned()));
    assert_eq!(koda_core::normalize_mark("todos"), None);
    assert_eq!(koda_core::normalize_mark(""), None);
}

#[test]
fn scan_shell_strings_span_lines() {
    let contents = "msg=\"first line\n# TODO: not a comment\nlast line\"\n# TODO: comment\n";
    let files = vec![file("run.sh", contents)];

    let config = ScanConfig::builder().root(".".to_owned()).build();
    let result = scan(config, files).unwrap();

    assert_eq!(result.stats.matches, 1);
    assert_eq!(result.marks[0].line, 4);
}

#[test]
fn scan_toml_literal_strings_do_not_escape() {
    // The closing quote of a literal string is not escaped by a backslash.
    let contents = "path = 'C:\\' # TODO: comment\n";
    let files = vec![file("conf.toml", contents)];

    let config = ScanConfig::builder().root(".".to_owned()).build();
    let result = scan(config, files).unwrap();

    assert_eq!(result.stats.matches, 1);
    assert_eq!(result.marks[0].line, 1);
}
