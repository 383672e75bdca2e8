use koda_core::{
    DimensionStage, LanguageSortConfig, MarkPriorityOverride, MarkSortConfig, PathSortConfig,
    ScanConfig, SortConfig, SourceFile, scan,
};

fn file(path: &str, content: &str) -> SourceFile {
    SourceFile { path: path.to_owned(), content: content.as_bytes().to_vec() }
}

#[test]
fn scan_applies_sort_pipeline() {
    let files = vec![
        file("a.rs", "// TODO: a\n"),
        file("z.rs", "// TODO: z\n"),
        file("b.ts", "// TODO: ts\n"),
        file("c.ts", "// FIXME: ts\n"),
    ];

    let pipeline = vec![
        DimensionStage::Mark(MarkSortConfig::default()),
        DimensionStage::Language(LanguageSortConfig::default()),
        DimensionStage::Path(PathSortConfig::default()),
    ];

    let config = ScanConfig::builder()
        .root(".".to_owned())
        .sort_pipeline(pipeline)
        .build();
    let result = scan(config, files).unwrap();

    let ordered = result
        .marks
        .iter()
        .map(|mark| (mark.mark.clone(), mark.path.clone()))
        .collect::<Vec<_>>();

    assert_eq!(ordered.len(), 4);
    assert_eq!(ordered[0].0, "FIXME");
    assert_eq!(ordered[0].1, "c.ts");
    assert_eq!(ordered[1].0, "TODO");
    assert_eq!(ordered[1].1, "a.rs");
    assert_eq!(ordered[2].0, "TODO");
    assert_eq!(ordered[2].1, "z.rs");
    assert_eq!(ordered[3].0, "TODO");
    assert_eq!(ordered[3].1, "b.ts");
}

#[test]
fn mark_priority_overrides_reorder_groups() {
    let files = vec![
        file("a.rs", "// TODO: a\n"),
        file("b.rs", "// FIXME: b\n"),
    ];

    let pipeline = vec![DimensionStage::Mark(MarkSortConfig {
        overrides: vec![MarkPriorityOverride { mark: "todo".to_owned(), priority: 0 }],
    })];

    let config = ScanConfig::builder()
        .root(".".to_owned())
        .sort_pipeline(pipeline)
        .build();
    let result = scan(config, files).unwrap();

    assert_eq!(result.marks.len(), 2);
    assert_eq!(result.marks[0].mark, "TODO");
    assert_eq!(result.marks[1].mark, "FIXME");
}

#[test]
fn empty_pipeline_keeps_input_order() {
    let files = vec![
        file("z.rs", "// TODO: z\n// ERROR: z\n"),
        file("a.rs", "// NOTE: a\n"),
    ];

    let config = ScanConfig::builder()
        .root(".".to_owned())
        .sort_pipeline(Vec::new())
        .build();
    let result = scan(config, files).unwrap();

    let ordered = result
        .marks
        .iter()
        .map(|mark| mark.mark.clone())
        .collect::<Vec<_>>();
    assert_eq!(ordered, vec!["TODO".to_owned(), "ERROR".to_owned(), "NOTE".to_owned()]);
}

#[test]
fn apply_sort_pipeline_orders_marks_directly() {
    let marks = vec![
        mark("b.rs", 1, "TODO"),
        mark("a.rs", 1, "TODO"),
        mark("c.rs", 1, "ERROR"),
    ];
    let config = SortConfig { pipeline: vec![
        DimensionStage::Mark(MarkSortConfig::default()),
        DimensionStage::Path(PathSortConfig::default()),
    ] };
    let roots: Vec<String> = Vec::new();
    let sorted = koda_core::apply_sort_pipeline(marks, &config, &roots);
    let ordered = sorted
        .iter()
        .map(|m| (m.mark.clone(), m.path.clone()))
        .collect::<Vec<_>>();
    assert_eq!(ordered, vec![
        ("ERROR".to_owned(), "c.rs".to_owned()),
        ("TODO".to_owned(), "a.rs".to_owned()),
        ("TODO".to_owned(), "b.rs".to_owned()),
    ]);
}

fn mark(path: &str, line: u32, word: &str) -> koda_core::Mark {
    koda_core::Mark {
        path: path.to_owned(),
        line,
        column: 1,
        mark: word.to_owned(),
        language: "rs".to_owned(),
    }
}

#[test]
fn sorting_twice_equals_sorting_once() {
    let marks = vec![
        mark("b.rs", 1, "TODO"),
        mark("a.ts", 2, "NOTE"),
        mark("c.rs", 3, "ERROR"),
        mark("a.rs", 4, "TODO"),
    ];
    let once_input = marks.iter().map(clone_mark).collect::<Vec<_>>();
    let config = SortConfig { pipeline: vec![
        DimensionStage::Mark(MarkSortConfig::default()),
        DimensionStage::Language(LanguageSortConfig::default()),
        DimensionStage::Path(PathSortConfig::default()),
    ] };
    let roots: Vec<String> = Vec::new();
    let once = koda_core::apply_sort_pipeline(once_input, &config, &roots);
    let twice_input = once.iter().map(clone_mark).collect::<Vec<_>>();
    let twice = koda_core::apply_sort_pipeline(twice_input, &config, &roots);
    let view = |ms: &Vec<koda_core::Mark>| {
        ms.iter().map(|m| (m.mark.clone(), m.path.clone(), m.line)).collect::<Vec<_>>()
    };
    assert_eq!(view(&once), view(&twice));
}

fn clone_mark(m: &koda_core::Mark) -> koda_core::Mark {
    koda_core::Mark {
        path: m.path.clone(),
        line: m.line,
        column: m.column,
        mark: m.mark.clone(),
        language: m.language.clone(),
    }
}

#[test]
fn non_canonical_marks_are_kept_unranked() {
    // A mark stage cannot rank words outside the canonical six; they are
    // retained after the ranked groups, in input order.
    let marks = vec![
        mark("a.rs", 1, "HACK"),
        mark("b.rs", 2, "TODO"),
        mark("c.rs", 3, "XXX"),
        mark("d.rs", 4, "ERROR"),
    ];
    let config = SortConfig { pipeline: vec![DimensionStage::Mark(MarkSortConfig::default())] };
    let roots: Vec<String> = Vec::new();
    let sorted = koda_core::apply_sort_pipeline(marks, &config, &roots);
    let ordered = sorted.iter().map(|m| m.mark.clone()).collect::<Vec<_>>();
    assert_eq!(ordered, vec![
        "ERROR".to_owned(),
        "TODO".to_owned(),
        "HACK".to_owned(),
        "XXX".to_owned(),
    ]);
}

#[test]
fn tree_keeps_non_canonical_marks_in_an_unranked_group() {
    let marks = vec![mark("a.rs", 1, "HACK"), mark("b.rs", 2, "TODO")];
    let config = SortConfig { pipeline: vec![DimensionStage::Mark(MarkSortConfig::default())] };
    let roots: Vec<String> = Vec::new();
    let tree = koda_core::build_group_tree(marks, &config, &roots);
    assert_eq!(tree.total(), 2);
    assert_eq!(tree.groups.len(), 2);
    assert_eq!(tree.groups[0].key.text(), "TODO");
    assert_eq!(tree.groups[0].count, 1);
    // The unranked trailing group carries an empty key text.
    assert_eq!(tree.groups[1].key.text(), "");
    assert_eq!(tree.groups[1].count, 1);
    assert_eq!(tree.groups[1].items[0].mark, "HACK");
}
