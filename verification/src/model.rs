use vstd::prelude::*;

verus! {

/// One source file handed to the scanner: its path and raw bytes.
///
/// The scan engine itself performs no I/O; the caller reads files (or
/// fabricates them) and passes them in arrival order.
#[derive(Clone, Debug)]
pub struct SourceFile {
    pub path: String,
    pub content: Vec<u8>,
}

/// A recognised annotation inside a comment: where it was found and the
/// canonical spelling of the mark word.
#[derive(Clone, Debug)]
pub struct Mark {
    /// Path of the file the mark was found in, as handed to the scanner.
    pub path: String,
    /// 1-based line number.
    pub line: u32,
    /// 1-based byte column of the first byte of the mark word.
    pub column: u32,
    /// Canonical mark spelling, one of the six recognised words.
    pub mark: String,
    /// Canonical language tag of the file's syntax profile.
    pub language: String,
}

/// Ghost image of a source file.
#[verifier::ext_equal]
pub ghost struct SourceFileV {
    pub path: Seq<char>,
    pub content: Seq<u8>,
}

impl View for SourceFile {
    type V = SourceFileV;

    open spec fn view(&self) -> SourceFileV {
        SourceFileV { path: self.path@, content: self.content@ }
    }
}

/// Ghost image of a vector of source files.
pub open spec fn files_v(s: Seq<SourceFile>) -> Seq<SourceFileV> {
    s.map_values(|f: SourceFile| f@)
}

impl Mark {
    /// A value-equal copy of this mark.
    pub fn duplicate(&self) -> (r: Mark)
        ensures
            r@ == self@,
    {
        Mark {
            path: self.path.clone(),
            line: self.line,
            column: self.column,
            mark: self.mark.clone(),
            language: self.language.clone(),
        }
    }
}

/// Ghost image of a mark.
#[verifier::ext_equal]
pub ghost struct MarkV {
    pub path: Seq<char>,
    pub line: int,
    pub column: int,
    pub mark: Seq<char>,
    pub language: Seq<char>,
}

impl View for Mark {
    type V = MarkV;

    open spec fn view(&self) -> MarkV {
        MarkV {
            path: self.path@,
            line: self.line as int,
            column: self.column as int,
            mark: self.mark@,
            language: self.language@,
        }
    }
}

/// Ghost image of a vector of marks.
pub open spec fn marks_v(s: Seq<Mark>) -> Seq<MarkV> {
    s.map_values(|m: Mark| m@)
}

/// Per-reason counters for skipped files.
#[derive(Clone, Debug, Eq, PartialEq, Structural)]
pub struct ScanSkipCounts {
    pub max_file_size: u64,
    pub metadata: u64,
    pub io: u64,
    pub unsupported_syntax: u64,
    pub binary: u64,
}

impl Default for ScanSkipCounts {
    fn default() -> (r: ScanSkipCounts)
        ensures
            r == (ScanSkipCounts {
                max_file_size: 0u64,
                metadata: 0u64,
                io: 0u64,
                unsupported_syntax: 0u64,
                binary: 0u64,
            }),
    {
        ScanSkipCounts { max_file_size: 0, metadata: 0, io: 0, unsupported_syntax: 0, binary: 0 }
    }
}

/// Per-kind counters for problems encountered while scanning.
#[derive(Clone, Debug, Eq, PartialEq, Structural)]
pub struct ScanIssueCounts {
    pub walk_errors: u64,
    pub metadata_errors: u64,
    pub io_errors: u64,
}

impl Default for ScanIssueCounts {
    fn default() -> (r: ScanIssueCounts)
        ensures
            r == (ScanIssueCounts { walk_errors: 0u64, metadata_errors: 0u64, io_errors: 0u64 }),
    {
        ScanIssueCounts { walk_errors: 0, metadata_errors: 0, io_errors: 0 }
    }
}

/// Monotonic counters populated during a single scan.
#[derive(Clone, Debug, Eq, PartialEq, Structural)]
pub struct ScanStats {
    pub files_scanned: u64,
    pub files_skipped: u64,
    pub matches: u64,
    pub cancelled: bool,
    /// Skips that are part of normal operation: size, syntax, binary.
    pub skipped_expected: u64,
    /// Skips caused by problems: metadata or I/O failures.
    pub skipped_issues: u64,
    pub skips: ScanSkipCounts,
    pub issues: ScanIssueCounts,
}

impl ScanStats {
    /// All counters at zero, nothing cancelled.
    pub open spec fn spec_zero() -> ScanStats {
        ScanStats {
            files_scanned: 0u64,
            files_skipped: 0u64,
            matches: 0u64,
            cancelled: false,
            skipped_expected: 0u64,
            skipped_issues: 0u64,
            skips: ScanSkipCounts {
                max_file_size: 0u64,
                metadata: 0u64,
                io: 0u64,
                unsupported_syntax: 0u64,
                binary: 0u64,
            },
            issues: ScanIssueCounts { walk_errors: 0u64, metadata_errors: 0u64, io_errors: 0u64 },
        }
    }

    /// The five per-reason skip counters always sum to `files_skipped`.
    pub open spec fn skip_counts_consistent(&self) -> bool {
        self.files_skipped == self.skips.max_file_size + self.skips.metadata + self.skips.io
            + self.skips.unsupported_syntax + self.skips.binary
        && self.skipped_expected == self.skips.max_file_size + self.skips.unsupported_syntax
            + self.skips.binary
        && self.skipped_issues == self.skips.metadata + self.skips.io
    }
}

impl Default for ScanStats {
    fn default() -> (r: ScanStats)
        ensures
            r.files_scanned == 0,
            r.files_skipped == 0,
            r.matches == 0,
            !r.cancelled,
            r.skipped_expected == 0,
            r.skipped_issues == 0,
            r.skips == (ScanSkipCounts {
                max_file_size: 0u64,
                metadata: 0u64,
                io: 0u64,
                unsupported_syntax: 0u64,
                binary: 0u64,
            }),
            r.issues == (ScanIssueCounts {
                walk_errors: 0u64,
                metadata_errors: 0u64,
                io_errors: 0u64,
            }),
            r.skip_counts_consistent(),
    {
        ScanStats {
            files_scanned: 0,
            files_skipped: 0,
            matches: 0,
            cancelled: false,
            skipped_expected: 0,
            skipped_issues: 0,
            skips: ScanSkipCounts::default(),
            issues: ScanIssueCounts::default(),
        }
    }
}

/// The flat scan result: marks ordered by the sort pipeline, plus counters.
#[derive(Clone, Debug)]
pub struct ScanResult {
    pub marks: Vec<Mark>,
    pub stats: ScanStats,
}

/// The grouped scan result: a group tree, plus counters.
#[derive(Debug)]
pub struct GroupedScanResult {
    pub tree: GroupTree,
    pub stats: ScanStats,
}

/// A groupable attribute of a mark.
#[derive(Clone, Copy, Debug, Eq, PartialEq, Structural)]
pub enum Dimension {
    Mark,
    Language,
    Path,
    Folder,
}

/// A concrete value of one dimension, used as a group key and in filters.
#[derive(Clone, Debug)]
pub enum DimensionValue {
    Mark(String),
    Language(String),
    Path(String),
    Folder(String),
}

impl DimensionValue {
    /// The value's text.
    pub open spec fn value_seq(&self) -> Seq<char> {
        match self {
            DimensionValue::Mark(s) => s@,
            DimensionValue::Language(s) => s@,
            DimensionValue::Path(s) => s@,
            DimensionValue::Folder(s) => s@,
        }
    }

    pub open spec fn spec_dimension(&self) -> Dimension {
        match self {
            DimensionValue::Mark(_) => Dimension::Mark,
            DimensionValue::Language(_) => Dimension::Language,
            DimensionValue::Path(_) => Dimension::Path,
            DimensionValue::Folder(_) => Dimension::Folder,
        }
    }

    /// The value's dimension.
    pub fn dimension(&self) -> (r: Dimension)
        ensures
            r == self.spec_dimension(),
    {
        match self {
            DimensionValue::Mark(_) => Dimension::Mark,
            DimensionValue::Language(_) => Dimension::Language,
            DimensionValue::Path(_) => Dimension::Path,
            DimensionValue::Folder(_) => Dimension::Folder,
        }
    }

    /// The value's text.
    pub fn text(&self) -> (r: &str)
        ensures
            r@ == self.value_seq(),
    {
        match self {
            DimensionValue::Mark(s) => s.as_str(),
            DimensionValue::Language(s) => s.as_str(),
            DimensionValue::Path(s) => s.as_str(),
            DimensionValue::Folder(s) => s.as_str(),
        }
    }
}

/// The root of a group tree. With an empty pipeline the tree degenerates
/// to the flat `items` list and `groups` is empty.
#[derive(Debug)]
pub struct GroupTree {
    pub groups: Vec<GroupNode>,
    pub items: Vec<Mark>,
}

/// One group: its key, the number of marks below it, and either child
/// groups or the marks themselves.
#[derive(Debug)]
pub struct GroupNode {
    pub key: DimensionValue,
    pub count: usize,
    pub groups: Vec<GroupNode>,
    pub items: Vec<Mark>,
}

impl GroupTree {
    /// Number of marks in the tree: the leaf list when there are no
    /// groups, else the sum of the top-level group counts.
    pub fn total(&self) -> (r: usize)
        requires
            self.spec_total() <= usize::MAX,
        ensures
            r == self.spec_total(),
    {
        if self.groups.len() == 0 {
            return self.items.len();
        }
        let mut sum: usize = 0;
        let mut i: usize = 0;
        while i < self.groups.len()
            invariant
                i <= self.groups@.len(),
                sum == sum_group_counts(self.groups@.take(i as int)),
                sum_group_counts(self.groups@) <= usize::MAX,
                self.spec_total() == sum_group_counts(self.groups@),
            decreases self.groups@.len() - i,
        {
            proof {
                lemma_sum_group_counts_take(self.groups@, i as int);
                lemma_sum_group_counts_prefix_bound(self.groups@, i + 1);
            }
            sum = sum + self.groups[i].count;
            i = i + 1;
        }
        proof {
            assert(self.groups@.take(self.groups@.len() as int) =~= self.groups@);
        }
        sum
    }

    pub open spec fn spec_total(&self) -> int {
        if self.groups@.len() == 0 {
            self.items@.len() as int
        } else {
            sum_group_counts(self.groups@)
        }
    }
}

/// Sum of the `count` fields of a sequence of group nodes.
pub open spec fn sum_group_counts(groups: Seq<GroupNode>) -> int
    decreases groups.len(),
{
    if groups.len() == 0 {
        0
    } else {
        sum_group_counts(groups.drop_last()) + groups.last().count
    }
}

proof fn lemma_sum_group_counts_take(groups: Seq<GroupNode>, i: int)
    requires
        0 <= i < groups.len(),
    ensures
        sum_group_counts(groups.take(i + 1)) == sum_group_counts(groups.take(i)) + groups[i].count,
{
    assert(groups.take(i + 1).drop_last() =~= groups.take(i));
    assert(groups.take(i + 1).last() == groups[i]);
}

proof fn lemma_sum_group_counts_prefix_bound(groups: Seq<GroupNode>, i: int)
    requires
        0 <= i <= groups.len(),
    ensures
        sum_group_counts(groups.take(i)) <= sum_group_counts(groups),
    decreases groups.len() - i,
{
    if i == groups.len() {
        assert(groups.take(i) =~= groups);
    } else {
        lemma_sum_group_counts_take(groups, i);
        lemma_sum_group_counts_prefix_bound(groups, i + 1);
    }
}

} // verus!
