use koda_core::{
    DimensionValue, FilterConfig, FilterRule, LanguageSortConfig, DimensionStage, ScanConfig,
    SourceFile, ValuePredicate, scan,
};

fn file(path: &str, content: &str) -> SourceFile {
    SourceFile { path: path.to_owned(), content: content.as_bytes().to_vec() }
}

#[test]
fn scan_respects_max_file_size() {
    let content = "TODO\n".repeat(128);
    let files = vec![file("large.rs", &content)];

    let config = ScanConfig::builder()
        .root(".".to_owned())
        .max_file_size(Some(8))
        .build();
    let result = scan(config, files).unwrap();

    assert_eq!(result.stats.files_scanned, 0);
    assert_eq!(result.stats.files_skipped, 1);
    assert_eq!(result.stats.matches, 0);
}

#[test]
fn file_exactly_at_max_size_is_scanned() {
    let content = "// TODO\n";
    assert_eq!(content.len(), 8);
    let files = vec![file("edge.rs", content), file("over.rs", "// FIXME!\n")];

    let config = ScanConfig::builder()
        .root(".".to_owned())
        .max_file_size(Some(8))
        .build();
    let result = scan(config, files).unwrap();

    // The 8-byte file is accepted; the 10-byte one is over the limit.
    assert_eq!(result.stats.files_scanned, 1);
    assert_eq!(result.stats.files_skipped, 1);
    assert_eq!(result.stats.skips.max_file_size, 1);
    assert_eq!(result.stats.matches, 1);
    assert_eq!(result.marks[0].mark, "TODO");
}

#[test]
fn filter_allow_keeps_only_listed_languages() {
    let files = vec![
        file("a.rs", "// TODO: rust\n"),
        file("b.ts", "// TODO: ts\n"),
    ];

    let filter = FilterConfig {
        rules: vec![FilterRule {
            stage: DimensionStage::Language(LanguageSortConfig::default()),
            predicate: ValuePredicate::Allow {
                values: vec![DimensionValue::Language("rs".to_owned())],
            },
        }],
    };

    let config = ScanConfig::builder()
        .root(".".to_owned())
        .filter_config(filter)
        .build();
    let result = scan(config, files).unwrap();

    // Both marks are counted; the filter drops the TypeScript one.
    assert_eq!(result.stats.matches, 2);
    assert_eq!(result.marks.len(), 1);
    assert_eq!(result.marks[0].language, "rs");
}

#[test]
fn filter_deny_drops_listed_marks() {
    let files = vec![file("a.rs", "// TODO: keep?\n// FIXME: deny\n")];

    let filter = FilterConfig {
        rules: vec![FilterRule {
            stage: DimensionStage::Mark(koda_core::MarkSortConfig::default()),
            predicate: ValuePredicate::Deny {
                values: vec![DimensionValue::Mark("fixme".to_owned())],
            },
        }],
    };

    let config = ScanConfig::builder()
        .root(".".to_owned())
        .filter_config(filter)
        .build();
    let result = scan(config, files).unwrap();

    assert_eq!(result.stats.matches, 2);
    assert_eq!(result.marks.len(), 1);
    assert_eq!(result.marks[0].mark, "TODO");
}

#[test]
fn builder_clamps_read_buffer_and_collects_globs() {
    let config = ScanConfig::builder()
        .root(".".to_owned())
        .read_buffer_size(1)
        .includes("*.rs".to_owned())
        .exclude("skip.rs".to_owned())
        .follow_gitignore(false)
        .include_hidden(true)
        .builtin_excludes(false)
        .threads(Some(2))
        .build();

    assert_eq!(config.read_buffer_size(), 8192);
    assert_eq!(config.includes().len(), 1);
    assert_eq!(config.exclude().len(), 1);
    assert!(!config.follow_gitignore());
    assert!(config.include_hidden());
    assert!(!config.builtin_excludes());
    assert_eq!(config.threads(), Some(2));
    assert_eq!(config.max_file_size(), None);
}

#[test]
fn builtin_excludes_and_override_globs() {
    let globs = koda_core::builtin_exclude_globs();
    assert_eq!(globs.len(), 19);
    assert_eq!(globs[0], "node_modules/");

    assert_eq!(koda_core::override_exclude_glob("dist/"), "!dist/");
    assert_eq!(koda_core::override_exclude_glob("!kept"), "!kept");
}

#[test]
fn cancellation_token_reports_cancelled() {
    let token = koda_core::CancellationToken::new();
    assert!(!token.is_cancelled());
    let shared = token.clone();
    shared.cancel();
    assert!(token.is_cancelled());
}

#[test]
fn error_messages_name_the_failure() {
    assert_eq!(
        koda_core::ScanError::EmptyRoots.message(),
        "no scan roots were provided"
    );
    assert_eq!(koda_core::ScanError::InvalidRegex.message(), "invalid detection regex");
    assert_eq!(
        koda_core::ScanError::InvalidPattern.message(),
        "invalid include/exclude pattern"
    );
}

#[test]
fn default_mark_priorities_cover_the_six_words() {
    let priorities = koda_core::default_mark_priorities();
    let listed = priorities
        .iter()
        .map(|p| (p.mark.clone(), p.priority))
        .collect::<Vec<_>>();
    assert_eq!(listed, vec![
        ("ERROR".to_owned(), 0),
        ("WARN".to_owned(), 1),
        ("FIXME".to_owned(), 2),
        ("TODO".to_owned(), 3),
        ("NOTE".to_owned(), 4),
        ("INFO".to_owned(), 5),
    ]);
}

#[test]
fn record_skip_leaves_files_skipped_to_the_caller() {
    let mut counters = koda_core::ScanCounters::new();
    counters.record_skip(koda_core::SkipReason::MaxFileSize);
    assert_eq!(counters.stats.files_skipped, 0);
    assert_eq!(counters.stats.skips.max_file_size, 1);
    assert_eq!(counters.stats.skipped_expected, 1);
    counters.record_skip(koda_core::SkipReason::Io);
    assert_eq!(counters.stats.skips.io, 1);
    assert_eq!(counters.stats.skipped_issues, 1);
    assert_eq!(counters.stats.files_skipped, 0);
}
