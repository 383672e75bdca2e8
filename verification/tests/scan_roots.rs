use koda_core::{
    DimensionStage, FolderSortConfig, GroupedScanResult, ScanConfig, SourceFile, scan,
    scan_grouped,
};

fn file(path: &str, content: &str) -> SourceFile {
    SourceFile { path: path.to_owned(), content: content.as_bytes().to_vec() }
}

#[test]
fn scan_multiple_roots() {
    let files = vec![file("a/a.rs", "// TODO a\n"), file("b/b.rs", "// TODO b\n")];

    let config = ScanConfig::builder()
        .root("a".to_owned())
        .root("b".to_owned())
        .build();
    let result = scan(config, files).unwrap();

    let mut paths = result
        .marks
        .iter()
        .map(|mark| mark.path.clone())
        .collect::<Vec<_>>();
    paths.sort();

    assert_eq!(result.stats.matches, 2);
    assert_eq!(paths, vec!["a/a.rs".to_owned(), "b/b.rs".to_owned()]);
}

#[test]
fn scan_grouped_totals_match_filtered_marks() {
    let files = vec![
        file("a.rs", "// TODO: one\n// FIXME: two\n"),
        file("b.ts", "// TODO: three\n"),
    ];

    let config = ScanConfig::builder().root(".".to_owned()).build();
    let result: GroupedScanResult = scan_grouped(config, files).unwrap();

    assert_eq!(result.stats.matches, 3);
    assert_eq!(result.tree.total(), 3);
    // Default pipeline: FIXME group first, then TODO split by language.
    assert_eq!(result.tree.groups.len(), 2);
    assert_eq!(result.tree.groups[0].key.text(), "FIXME");
    assert_eq!(result.tree.groups[0].count, 1);
    assert_eq!(result.tree.groups[1].key.text(), "TODO");
    assert_eq!(result.tree.groups[1].count, 2);
    let langs = &result.tree.groups[1].groups;
    assert_eq!(langs.len(), 2);
    assert_eq!(langs[0].key.text(), "rs");
    assert_eq!(langs[1].key.text(), "ts");
}

#[test]
fn scan_grouped_by_folder_uses_root_relative_components() {
    let files = vec![
        file("r/sub/a.rs", "// TODO: a\n"),
        file("r/sub/deep/b.rs", "// TODO: b\n"),
        file("r/c.rs", "// TODO: c\n"),
    ];

    let pipeline = vec![DimensionStage::Folder(FolderSortConfig { depth: 1, ..Default::default() })];
    let config = ScanConfig::builder()
        .root("r".to_owned())
        .sort_pipeline(pipeline)
        .build();
    let result = scan_grouped(config, files).unwrap();

    // Folder keys relative to the root: "" for r/c.rs, "sub" for the rest.
    assert_eq!(result.tree.total(), 3);
    assert_eq!(result.tree.groups.len(), 2);
    assert_eq!(result.tree.groups[0].key.text(), "");
    assert_eq!(result.tree.groups[0].count, 1);
    assert_eq!(result.tree.groups[1].key.text(), "sub");
    assert_eq!(result.tree.groups[1].count, 2);
}

#[test]
fn group_tree_total_sums_top_level_counts() {
    let tree = koda_core::GroupTree {
        groups: vec![
            koda_core::GroupNode {
                key: koda_core::DimensionValue::Mark("TODO".to_owned()),
                count: 2,
                groups: Vec::new(),
                items: Vec::new(),
            },
            koda_core::GroupNode {
                key: koda_core::DimensionValue::Mark("FIXME".to_owned()),
                count: 3,
                groups: Vec::new(),
                items: Vec::new(),
            },
        ],
        items: Vec::new(),
    };
    assert_eq!(tree.total(), 5);
}

#[test]
fn folder_key_helpers_take_leading_components() {
    let roots = vec!["r".to_owned()];
    assert_eq!(koda_core::folder_key("r/sub/deep/a.rs", &roots, 1), "sub");
    assert_eq!(koda_core::folder_key("r/sub/deep/a.rs", &roots, 2), "sub/deep");
    assert_eq!(koda_core::folder_key("r/a.rs", &roots, 1), "");
    assert_eq!(koda_core::folder_key("elsewhere/x/a.rs", &roots, 1), "elsewhere");
    assert_eq!(koda_core::folder_key("r/sub/a.rs", &roots, 0), "");
    assert_eq!(koda_core::prefix_components("a/b/c", 2), "a/b");
    assert_eq!(koda_core::prefix_components("//a//b", 1), "a");
}

#[test]
fn tree_total_counts_marks_left_after_filtering() {
    let files = vec![file("a.rs", "// FIXME: drop\n// TODO: keep\n")];
    let filter = koda_core::FilterConfig {
        rules: vec![koda_core::FilterRule {
            stage: DimensionStage::Mark(koda_core::MarkSortConfig::default()),
            predicate: koda_core::ValuePredicate::Deny {
                values: vec![koda_core::DimensionValue::Mark("FIXME".to_owned())],
            },
        }],
    };
    let config = ScanConfig::builder()
        .root(".".to_owned())
        .filter_config(filter)
        .build();
    let result = scan_grouped(config, files).unwrap();
    let filtered_out = 1;
    assert_eq!(result.tree.total() as u64, result.stats.matches - filtered_out);
    assert_eq!(result.tree.total(), 1);
}
