use koda_core::{ScanConfig, SourceFile, scan};

fn file(path: &str, content: &str) -> SourceFile {
    SourceFile { path: path.to_owned(), content: content.as_bytes().to_vec() }
}

#[test]
fn scan_default_regex_finds_marks() {
    let files = vec![file("main.rs", "fn main() {\n// TODO: one\n// FIXME: two\n}\n")];

    let config = ScanConfig::builder().root("main.rs".to_owned()).build();
    let result = scan(config, files).unwrap();

    assert_eq!(result.stats.files_scanned, 1);
    assert_eq!(result.stats.matches, 2);

    let mut marks = result
        .marks
        .iter()
        .map(|mark| (mark.path.clone(), mark.line, mark.mark.clone()))
        .collect::<Vec<_>>();
    marks.sort_by(|a, b| a.1.cmp(&b.1));

    assert_eq!(marks.len(), 2);
    assert_eq!(marks[0].0, "main.rs");
    assert_eq!(marks[0].1, 2);
    assert_eq!(marks[0].2, "TODO");
    assert_eq!(marks[1].0, "main.rs");
    assert_eq!(marks[1].1, 3);
    assert_eq!(marks[1].2, "FIXME");
}

#[test]
fn scan_custom_regex() {
    let files = vec![file("notes.sh", "# NOTE: keep\n# TODO: keep\n")];

    let config = ScanConfig::builder()
        .root("notes.sh".to_owned())
        .regex("\\bNOTE\\b".to_owned())
        .build();
    let result = scan(config, files).unwrap();

    assert_eq!(result.stats.files_scanned, 1);
    assert_eq!(result.stats.matches, 1);
    assert_eq!(result.marks.len(), 1);
    assert_eq!(result.marks[0].path, "notes.sh");
    assert_eq!(result.marks[0].line, 1);
    assert_eq!(result.marks[0].mark, "NOTE");
}

#[test]
fn scan_scenario_columns_and_languages() {
    let files = vec![file("main.rs", "fn main() {\n// TODO: one\n// FIXME: two\n}\n")];

    let config = ScanConfig::builder().root("main.rs".to_owned()).build();
    let result = scan(config, files).unwrap();

    // The default pipeline orders FIXME (priority 2) before TODO (3).
    assert_eq!(result.marks.len(), 2);
    assert_eq!(result.marks[0].mark, "FIXME");
    assert_eq!(result.marks[0].line, 3);
    assert_eq!(result.marks[0].column, 4);
    assert_eq!(result.marks[0].language, "rs");
    assert_eq!(result.marks[1].mark, "TODO");
    assert_eq!(result.marks[1].line, 2);
    assert_eq!(result.marks[1].column, 4);
}

#[test]
fn scan_empty_roots_is_an_error() {
    let config = ScanConfig::builder().build();
    let result = scan(config, Vec::new());
    assert!(matches!(result, Err(koda_core::ScanError::EmptyRoots)));
}

#[test]
fn scan_invalid_regex_is_an_error() {
    let config = ScanConfig::builder()
        .root(".".to_owned())
        .regex("(".to_owned())
        .build();
    let result = scan(config, Vec::new());
    assert!(matches!(result, Err(koda_core::ScanError::InvalidRegex)));
}

#[test]
fn scan_invalid_glob_is_an_error() {
    let config = ScanConfig::builder()
        .root(".".to_owned())
        .includes("x[".to_owned())
        .build();
    let result = scan(config, Vec::new());
    assert!(matches!(result, Err(koda_core::ScanError::InvalidPattern)));
}

#[test]
fn scan_no_supported_files_is_empty_and_ok() {
    let files = vec![file("readme.txt", "TODO everywhere\n")];
    let config = ScanConfig::builder().root(".".to_owned()).build();
    let result = scan(config, files).unwrap();
    assert_eq!(result.stats.matches, 0);
    assert_eq!(result.stats.files_scanned, 0);
    assert_eq!(result.stats.files_skipped, 1);
    assert_eq!(result.stats.skips.unsupported_syntax, 1);
    assert!(result.marks.is_empty());
}

#[test]
fn scan_last_line_without_newline_still_matches() {
    let files = vec![file("end.rs", "// TODO: end")];
    let config = ScanConfig::builder().root(".".to_owned()).build();
    let result = scan(config, files).unwrap();
    assert_eq!(result.stats.matches, 1);
    assert_eq!(result.marks[0].line, 1);
    assert_eq!(result.marks[0].mark, "TODO");
}

#[test]
fn scan_cancelled_before_start_reports_cancelled() {
    let token = koda_core::CancellationToken::new();
    token.cancel();
    let files = vec![file("a.rs", "// TODO: a\n")];
    let config = ScanConfig::builder()
        .root(".".to_owned())
        .cancellation_token(token)
        .build();
    let result = scan(config, files).unwrap();
    assert!(result.stats.cancelled);
    assert_eq!(result.stats.matches, 0);
}
