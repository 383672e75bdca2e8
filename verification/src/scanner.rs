use vstd::prelude::*;

use crate::config::{DetectionConfig, ScanConfig};
use crate::constants::{default_mark_regex, spec_default_mark_regex};
use crate::control::{CancellationToken, SkipReason};
use crate::detect::{Detection, compile_regex, regex_pattern_ok};
use crate::error::ScanError;
use crate::model::{
    GroupedScanResult, Mark, MarkV, ScanIssueCounts, ScanResult, SourceFile, SourceFileV, files_v,
    marks_v,
};
use crate::scanfile::{ScanOutcome, scan_file, spec_scan_file_marks};
use crate::sort::pipeline::{apply_sort_pipeline, spec_apply_pipeline};
use crate::sort::tree::build_group_tree;
use crate::filter::spec_apply_filter;
use crate::stats::ScanCounters;
use crate::syntax::spec_syntax_for;
use crate::utils::str_eq;

verus! {

/// Whether a glob is accepted by the ignore crate's override parser; a
/// function of the pattern alone.
pub uninterp spec fn glob_pattern_ok(p: Seq<char>) -> bool;

/// Relies on ignore::overrides::OverrideBuilder::add: returns `Err`
/// exactly when the glob fails to parse.
#[verifier::external_body]
fn glob_compiles(pattern: &str) -> (r: bool)
    ensures
        r == glob_pattern_ok(pattern@),
{
    ignore::overrides::OverrideBuilder::new(".").add(pattern).is_ok()
}

/// The custom detection pattern compiles, or is the default pattern that
/// the built-in matcher serves.
pub open spec fn spec_detection_ok(d: DetectionConfig) -> bool {
    d.spec_pattern() == spec_default_mark_regex() || regex_pattern_ok(d.spec_pattern())
}

/// Every includes and exclude glob parses.
pub open spec fn spec_globs_ok(includes: Seq<Seq<char>>, exclude: Seq<Seq<char>>) -> bool {
    &&& forall|i: int| 0 <= i < includes.len() ==> glob_pattern_ok(#[trigger] includes[i])
    &&& forall|i: int| 0 <= i < exclude.len() ==> glob_pattern_ok(#[trigger] exclude[i])
}

/// The construction-time error a configuration provokes, or `None` when a
/// scanner can be built from it.
pub open spec fn spec_config_error(c: ScanConfig) -> Option<ScanError> {
    if c.roots@.len() == 0 {
        Some(ScanError::EmptyRoots)
    } else if !spec_detection_ok(c.detection) {
        Some(ScanError::InvalidRegex)
    } else if !spec_globs_ok(c.includes.deep_view(), c.exclude.deep_view()) {
        Some(ScanError::InvalidPattern)
    } else {
        None
    }
}

/// Why one file is passed over, or `None` when it is scanned.
pub open spec fn spec_file_skip(max: Option<u64>, f: SourceFileV) -> Option<SkipReason> {
    if max is Some && f.content.len() > max.unwrap() {
        Some(SkipReason::MaxFileSize)
    } else if spec_syntax_for(f.path) is None {
        Some(SkipReason::UnsupportedSyntax)
    } else {
        None
    }
}

/// How many of the first `n` files are scanned.
pub open spec fn spec_scanned_upto(max: Option<u64>, files: Seq<SourceFileV>, n: int) -> int
    decreases n,
{
    if n <= 0 {
        0
    } else {
        spec_scanned_upto(max, files, n - 1) + if spec_file_skip(max, files[n - 1]) is None {
            1int
        } else {
            0int
        }
    }
}

/// How many of the first `n` files are skipped for `reason`.
pub open spec fn spec_skipped_upto(
    max: Option<u64>,
    files: Seq<SourceFileV>,
    n: int,
    reason: SkipReason,
) -> int
    decreases n,
{
    if n <= 0 {
        0
    } else {
        spec_skipped_upto(max, files, n - 1, reason) + if spec_file_skip(max, files[n - 1])
            == Some(reason) {
            1int
        } else {
            0int
        }
    }
}

/// The marks of the first `n` files under the built-in matcher, in file
/// order.
pub open spec fn spec_marks_upto(max: Option<u64>, files: Seq<SourceFileV>, n: int) -> Seq<MarkV>
    decreases n,
{
    if n <= 0 {
        Seq::<MarkV>::empty()
    } else {
        spec_marks_upto(max, files, n - 1) + if spec_file_skip(max, files[n - 1]) is None {
            spec_scan_file_marks(files[n - 1].path, files[n - 1].content)
        } else {
            Seq::<MarkV>::empty()
        }
    }
}

/// The counter values after the first `n` files.
pub open spec fn spec_counts_match(
    max: Option<u64>,
    files: Seq<SourceFileV>,
    n: int,
    stats: crate::model::ScanStats,
) -> bool {
    &&& stats.files_scanned == spec_scanned_upto(max, files, n)
    &&& stats.skips.max_file_size == spec_skipped_upto(max, files, n, SkipReason::MaxFileSize)
    &&& stats.skips.unsupported_syntax == spec_skipped_upto(
        max,
        files,
        n,
        SkipReason::UnsupportedSyntax,
    )
    &&& stats.skips.metadata == 0
    &&& stats.skips.io == 0
    &&& stats.skips.binary == 0
    &&& stats.issues == (ScanIssueCounts { walk_errors: 0u64, metadata_errors: 0u64, io_errors: 0u64 })
}

/// The counters describe some scanned prefix of the files: all of them
/// unless the scan was cancelled.
pub open spec fn spec_counts_settled(
    max: Option<u64>,
    files: Seq<SourceFileV>,
    stats: crate::model::ScanStats,
) -> bool {
    exists|n: int|
        0 <= n <= files.len() && #[trigger] spec_counts_match(max, files, n, stats) && (
        !stats.cancelled ==> n == files.len())
}

/// The tree accounts for the collected marks: `matches` counted them
/// all, and the tree's total counts exactly those the filter kept.
pub open spec fn spec_tree_accounts(
    matches: u64,
    total: int,
    rules: Seq<crate::filter::FilterRule>,
    roots: Seq<Seq<char>>,
    collected: Seq<MarkV>,
) -> bool {
    matches == collected.len() && total == spec_apply_filter(rules, collected, roots).len()
}

/// Some collected mark list reconciles `matches` with the tree's total:
/// the total is `matches` minus the marks the filter removed.
pub open spec fn spec_grouped_accounted(
    matches: u64,
    total: int,
    rules: Seq<crate::filter::FilterRule>,
    roots: Seq<Seq<char>>,
) -> bool {
    exists|collected: Seq<MarkV>|
        #[trigger] spec_tree_accounts(matches, total, rules, roots, collected)
}

/// A configured scan: the validated configuration and its compiled
/// detection.
pub struct Scanner {
    pub config: ScanConfig,
    pub detection: Detection,
}

impl Scanner {
    /// Validate a configuration: roots must be present, the detection
    /// pattern and every override glob must compile.
    pub fn new(config: ScanConfig) -> (r: Result<Scanner, ScanError>)
        ensures
            match r {
                Ok(s) => spec_config_error(config) is None && s.config == config
                    && (s.detection.is_builtin() <==> config.detection.spec_pattern()
                    == spec_default_mark_regex()),
                Err(e) => spec_config_error(config) == Some(e),
            },
    {
        if config.roots().len() == 0 {
            return Err(ScanError::EmptyRoots);
        }
        let default_pattern = default_mark_regex();
        let pattern: &String = match config.detection() {
            DetectionConfig::Regex { pattern } => pattern,
        };
        proof {
            assert(config.detection.spec_pattern() == pattern@);
        }
        let is_default = str_eq(pattern.as_str(), default_pattern.as_str());
        let detection = if is_default {
            Detection::Builtin
        } else {
            match compile_regex(pattern.as_str()) {
                Some(re) => Detection::Custom(re),
                None => {
                    return Err(ScanError::InvalidRegex);
                },
            }
        };
        let mut i: usize = 0;
        while i < config.includes().len()
            invariant
                config.roots@.len() > 0,
                spec_detection_ok(config.detection),
                detection.is_builtin() <==> config.detection.spec_pattern()
                    == spec_default_mark_regex(),
                i <= config.includes@.len(),
                forall|t: int|
                    0 <= t < i ==> glob_pattern_ok(#[trigger] config.includes.deep_view()[t]),
            decreases config.includes@.len() - i,
        {
            proof {
                assert(config.includes.deep_view()[i as int] == config.includes@[i as int]@);
            }
            if !glob_compiles(config.includes()[i].as_str()) {
                proof {
                    assert(!glob_pattern_ok(config.includes.deep_view()[i as int]));
                    assert(!spec_globs_ok(config.includes.deep_view(), config.exclude.deep_view()));
                }
                return Err(ScanError::InvalidPattern);
            }
            i = i + 1;
        }
        let mut j: usize = 0;
        while j < config.exclude().len()
            invariant
                config.roots@.len() > 0,
                spec_detection_ok(config.detection),
                detection.is_builtin() <==> config.detection.spec_pattern()
                    == spec_default_mark_regex(),
                j <= config.exclude@.len(),
                forall|t: int|
                    0 <= t < i ==> glob_pattern_ok(#[trigger] config.includes.deep_view()[t]),
                forall|t: int|
                    0 <= t < j ==> glob_pattern_ok(#[trigger] config.exclude.deep_view()[t]),
            decreases config.exclude@.len() - j,
        {
            proof {
                assert(config.exclude.deep_view()[j as int] == config.exclude@[j as int]@);
            }
            if !glob_compiles(config.exclude()[j].as_str()) {
                proof {
                    assert(!glob_pattern_ok(config.exclude.deep_view()[j as int]));
                    assert(!spec_globs_ok(config.includes.deep_view(), config.exclude.deep_view()));
                }
                return Err(ScanError::InvalidPattern);
            }
            j = j + 1;
        }
        Ok(Scanner { config, detection })
    }

    /// Scan the files in order, stopping early only on cancellation, and
    /// accumulate marks and counters.
    #[verifier::rlimit(60)]
    fn scan_raw(&self, files: &Vec<SourceFile>) -> (r: (Vec<Mark>, ScanCounters))
        ensures
            r.1.stats.skip_counts_consistent(),
            r.1.stats.matches == r.0@.len(),
            forall|j: int|
                0 <= j < r.0@.len() ==> {
                    let m = (#[trigger] r.0@[j])@;
                    crate::constants::spec_is_canonical_mark(m.mark) && m.column >= 1 && m.line
                        >= 1
                },
            self.config.cancellation is None ==> !r.1.stats.cancelled,
            spec_counts_settled(self.config.max_file_size, files_v(files@), r.1.stats),
            (self.detection.is_builtin() && self.config.cancellation is None) ==> marks_v(r.0@)
                == spec_marks_upto(
                self.config.max_file_size,
                files_v(files@),
                files_v(files@).len() as int,
            ),
            (self.detection.is_builtin() && self.config.cancellation is None) ==> r.1.stats.matches
                == spec_marks_upto(
                self.config.max_file_size,
                files_v(files@),
                files_v(files@).len() as int,
            ).len(),
            (self.detection.is_builtin() && self.config.cancellation is None) ==> spec_counts_match(
                self.config.max_file_size,
                files_v(files@),
                files_v(files@).len() as int,
                r.1.stats,
            ),
    {
        let ghost fv = files_v(files@);
        let ghost max = self.config.max_file_size;
        let mut counters = ScanCounters::new();
        let mut marks: Vec<Mark> = Vec::new();
        let cancel: Option<&CancellationToken> = match &self.config.cancellation {
            Some(token) => Some(token),
            None => None,
        };
        let mut k: usize = 0;

        while k < files.len()
            invariant
                fv == files_v(files@),
                max == self.config.max_file_size,
                (cancel is Some) == (self.config.cancellation is Some),
                k <= files@.len(),
                counters.stats.skip_counts_consistent(),
                !counters.stats.cancelled,
                counters.stats.files_skipped <= k,
                counters.stats.files_scanned <= k,
                counters.stats.matches == marks@.len(),
                forall|j: int|
                    0 <= j < marks@.len() ==> {
                        let m = (#[trigger] marks@[j])@;
                        crate::constants::spec_is_canonical_mark(m.mark) && m.column >= 1
                            && m.line >= 1
                    },
                spec_counts_match(max, fv, k as int, counters.stats),
                self.detection.is_builtin() && cancel is None ==> marks_v(marks@)
                    == spec_marks_upto(max, fv, k as int),
            decreases files@.len() - k,
        {
            if poll_cancelled_ref(cancel) {
                counters.stats.cancelled = true;
                proof {
                    assert(fv.len() == files@.len());
                    assert(spec_counts_match(
                        self.config.max_file_size,
                        files_v(files@),
                        k as int,
                        counters.stats,
                    ));
                    assert(0 <= k as int <= files_v(files@).len());
                    assert(spec_counts_settled(
                        self.config.max_file_size,
                        files_v(files@),
                        counters.stats,
                    ));
                }
                return (marks, counters);
            }
            proof {
                assert(fv[k as int] == files@[k as int]@);
            }
            let file = &files[k];
            let ghost marks_pre = marks@;
            let oversize = match self.config.max_file_size {
                Some(mx) => (file.content.len() as u64) > mx,
                None => false,
            };
            if oversize {
                proof {
                    assert(counters.stats.files_skipped < u64::MAX);
                }
                counters.stats.files_skipped = counters.stats.files_skipped + 1;
                counters.record_skip(SkipReason::MaxFileSize);
            } else {
                let ghost marks_before = marks@;
                let outcome = scan_file(
                    file.path.as_str(),
                    file.content.as_slice(),
                    &self.detection,
                    cancel,
                    &mut marks,
                );
                match outcome {
                    ScanOutcome::Completed => {
                        proof {
                            assert(counters.stats.files_scanned < u64::MAX);
                        }
                        counters.stats.files_scanned = counters.stats.files_scanned + 1;
                        counters.stats.matches = marks.len() as u64;
                    },
                    ScanOutcome::Skipped(reason) => {
                        proof {
                            assert(counters.stats.files_skipped < u64::MAX);
                        }
                        counters.stats.files_skipped = counters.stats.files_skipped + 1;
                        counters.record_skip(reason);
                        proof {
                            assert(marks@ == marks_before);
                        }
                    },
                    ScanOutcome::Cancelled => {
                        counters.stats.matches = marks.len() as u64;
                        counters.stats.cancelled = true;
                        proof {
                            assert forall|j: int| 0 <= j < marks@.len() implies {
                                let m = (#[trigger] marks@[j])@;
                                crate::constants::spec_is_canonical_mark(m.mark) && m.column >= 1
                                    && m.line >= 1
                            } by {
                                if j < marks_pre.len() {
                                    assert(marks@[j] == marks_pre[j]) by {
                                        assert(marks@.take(marks_pre.len() as int) == marks_pre);
                                        assert(marks@.take(marks_pre.len() as int)[j]
                                            == marks@[j]);
                                    }
                                }
                            }
                            assert(fv.len() == files@.len());
                            assert(spec_counts_match(
                                self.config.max_file_size,
                                files_v(files@),
                                k as int,
                                counters.stats,
                            ));
                            assert(0 <= k as int <= files_v(files@).len());
                            assert(spec_counts_settled(
                                self.config.max_file_size,
                                files_v(files@),
                                counters.stats,
                            ));
                            if cancel is None {
                                assert(false) by {
                                    let n0 = choose|n: int|
                                        #[trigger] crate::scanfile::scan_file_steps(
                                            files@[k as int].path@,
                                            files@[k as int].content@,
                                            self.detection.is_builtin(),
                                            marks_v(marks_before),
                                            marks_v(marks@),
                                            ScanOutcome::Cancelled,
                                            cancel is Some,
                                            n,
                                        );
                                };
                            }
                        }
                        let result = (marks, counters);
                        proof {
                            assert(spec_counts_match(
                                self.config.max_file_size,
                                files_v(files@),
                                k as int,
                                result.1.stats,
                            ));
                        }
                        return result;
                    },
                }
            }
            proof {
                assert forall|j: int| 0 <= j < marks@.len() implies {
                    let m = (#[trigger] marks@[j])@;
                    crate::constants::spec_is_canonical_mark(m.mark) && m.column >= 1 && m.line
                        >= 1
                } by {
                    if j < marks_pre.len() {
                        assert(marks@[j] == marks_pre[j]) by {
                            assert(marks@.take(marks_pre.len() as int) == marks_pre);
                            assert(marks@.take(marks_pre.len() as int)[j] == marks@[j]);
                        }
                    }
                }
            }
            k = k + 1;
        }
        proof {
            assert(spec_counts_match(
                self.config.max_file_size,
                files_v(files@),
                files_v(files@).len() as int,
                counters.stats,
            ));
            assert(spec_counts_settled(
                self.config.max_file_size,
                files_v(files@),
                counters.stats,
            ));
        }
        (marks, counters)
    }

    /// Scan the files and return the marks ordered by the pipeline,
    /// together with the counters.
    pub fn scan(&self, files: Vec<SourceFile>) -> (r: Result<ScanResult, ScanError>)
        ensures
            r is Ok,
            r.unwrap().stats.skip_counts_consistent(),
            self.config.cancellation is None ==> !r.unwrap().stats.cancelled,
            spec_counts_settled(self.config.max_file_size, files_v(files@), r.unwrap().stats),
            forall|j: int|
                0 <= j < r.unwrap().marks@.len() ==> crate::constants::spec_is_canonical_mark(
                    (#[trigger] r.unwrap().marks@[j])@.mark,
                ),
            (self.detection.is_builtin() && self.config.cancellation is None) ==> r.unwrap().stats.matches
                == spec_marks_upto(
                self.config.max_file_size,
                files_v(files@),
                files_v(files@).len() as int,
            ).len(),
            (self.detection.is_builtin() && self.config.cancellation is None) ==> spec_counts_match(
                self.config.max_file_size,
                files_v(files@),
                files_v(files@).len() as int,
                r.unwrap().stats,
            ),
            (self.detection.is_builtin() && self.config.cancellation is None) ==> marks_v(
                r.unwrap().marks@,
            ) == spec_apply_pipeline(
                self.config.sort_config.pipeline@,
                spec_apply_filter(
                    self.config.filter_config.rules@,
                    spec_marks_upto(
                        self.config.max_file_size,
                        files_v(files@),
                        files_v(files@).len() as int,
                    ),
                    self.config.roots.deep_view(),
                ),
                self.config.roots.deep_view(),
            ),
    {
        let raw = self.scan_raw(&files);
        let (raw_marks, counters) = raw;
        let ghost all_marks = marks_v(raw_marks@);
        let ghost rules = self.config.filter_config.rules@;
        let ghost rv = self.config.roots.deep_view();
        let filtered = self.config.filter_config.apply(raw_marks, &self.config.roots);
        proof {
            lemma_filtered_canonical(rules, all_marks, rv);
        }
        let sorted = apply_sort_pipeline(filtered, &self.config.sort_config, &self.config.roots);
        let result = ScanResult { marks: sorted, stats: counters.stats };
        proof {
            assert(result.stats == raw.1.stats);
            crate::sort::laws::lemma_apply_pipeline_canonical(
                self.config.sort_config.pipeline@,
                marks_v(filtered@),
                rv,
            );
            assert forall|j: int|
                0 <= j < result.marks@.len() implies crate::constants::spec_is_canonical_mark(
                (#[trigger] result.marks@[j])@.mark,
            ) by {
                assert(marks_v(result.marks@)[j] == result.marks@[j]@);
            }
        }
        Ok(result)
    }

    /// Scan the files and return the group tree, together with the
    /// counters.
    pub fn scan_grouped(&self, files: Vec<SourceFile>) -> (r: Result<GroupedScanResult, ScanError>)
        ensures
            r is Ok,
            r.unwrap().stats.skip_counts_consistent(),
            self.config.cancellation is None ==> !r.unwrap().stats.cancelled,
            spec_counts_settled(self.config.max_file_size, files_v(files@), r.unwrap().stats),
            spec_grouped_accounted(
                r.unwrap().stats.matches,
                r.unwrap().tree.spec_total(),
                self.config.filter_config.rules@,
                self.config.roots.deep_view(),
            ),
            (self.detection.is_builtin() && self.config.cancellation is None) ==> r.unwrap().stats.matches
                == spec_marks_upto(
                self.config.max_file_size,
                files_v(files@),
                files_v(files@).len() as int,
            ).len(),
            (self.detection.is_builtin() && self.config.cancellation is None) ==> spec_counts_match(
                self.config.max_file_size,
                files_v(files@),
                files_v(files@).len() as int,
                r.unwrap().stats,
            ),
            (self.detection.is_builtin() && self.config.cancellation is None)
                ==> r.unwrap().tree.spec_total() == spec_apply_filter(
                self.config.filter_config.rules@,
                spec_marks_upto(
                    self.config.max_file_size,
                    files_v(files@),
                    files_v(files@).len() as int,
                ),
                self.config.roots.deep_view(),
            ).len(),
    {
        let raw = self.scan_raw(&files);
        let (raw_marks, counters) = raw;
        let ghost all_marks = marks_v(raw_marks@);
        let filtered = self.config.filter_config.apply(raw_marks, &self.config.roots);
        let tree = build_group_tree(filtered, &self.config.sort_config, &self.config.roots);
        let result = GroupedScanResult { tree, stats: counters.stats };
        proof {
            assert(result.stats == raw.1.stats);
            assert(spec_tree_accounts(
                result.stats.matches,
                result.tree.spec_total(),
                self.config.filter_config.rules@,
                self.config.roots.deep_view(),
                all_marks,
            ));
        }
        Ok(result)
    }
}

fn poll_cancelled_ref(cancel: Option<&CancellationToken>) -> (r: bool)
    ensures
        cancel is None ==> !r,
{
    match cancel {
        Some(token) => token.is_cancelled(),
        None => false,
    }
}

/// Filtering keeps marks canonical: the kept marks are among the
/// collected ones.
proof fn lemma_filtered_canonical(
    rules: Seq<crate::filter::FilterRule>,
    collected: Seq<MarkV>,
    rv: Seq<Seq<char>>,
)
    requires
        forall|i: int|
            0 <= i < collected.len() ==> crate::constants::spec_is_canonical_mark(
                (#[trigger] collected[i]).mark,
            ),
    ensures
        crate::sort::laws::all_canonical(spec_apply_filter(rules, collected, rv)),
{
    let filtered = spec_apply_filter(rules, collected, rv);
    assert forall|i: int|
        0 <= i < filtered.len() implies crate::constants::spec_is_canonical_mark(
        (#[trigger] filtered[i]).mark,
    ) by {
        crate::utils::lemma_filter_subset(
            collected,
            |m: MarkV| crate::filter::spec_filter_allows(rules, m, rv),
            i,
        );
        let w = choose|w: int| 0 <= w < collected.len() && collected[w] == filtered[i];
    }
}

/// Every mark of the first `n` files spells a canonical mark word and has
/// a 1-based line and column.
pub proof fn lemma_marks_upto_canonical(max: Option<u64>, fv: Seq<SourceFileV>, n: int)
    ensures
        forall|i: int|
            0 <= i < spec_marks_upto(max, fv, n).len() ==> {
                let m = #[trigger] spec_marks_upto(max, fv, n)[i];
                crate::constants::spec_is_canonical_mark(m.mark) && m.line >= 1 && m.column >= 1
            },
    decreases n,
{
    if n > 0 {
        lemma_marks_upto_canonical(max, fv, n - 1);
        let res = spec_marks_upto(max, fv, n);
        let prev = spec_marks_upto(max, fv, n - 1);
        let this = if spec_file_skip(max, fv[n - 1]) is None {
            spec_scan_file_marks(fv[n - 1].path, fv[n - 1].content)
        } else {
            Seq::<MarkV>::empty()
        };
        if spec_file_skip(max, fv[n - 1]) is None {
            crate::scanfile::lemma_scan_file_marks_canonical(fv[n - 1].path, fv[n - 1].content);
        }
        assert(res == prev + this);
        assert forall|i: int| 0 <= i < res.len() implies {
            let m = #[trigger] res[i];
            crate::constants::spec_is_canonical_mark(m.mark) && m.line >= 1 && m.column >= 1
        } by {
            if i < prev.len() {
                assert(res[i] == prev[i]);
            } else {
                assert(res[i] == this[i - prev.len()]);
            }
        }
    }
}

} // verus!

verus! {

/// Every mark a whole scan returns spells a canonical word: the emitted
/// marks do, and neither the filter nor the pipeline invents one.
pub proof fn lemma_scan_result_marks_canonical(
    pipeline: Seq<crate::sort::config::DimensionStage>,
    rules: Seq<crate::filter::FilterRule>,
    max: Option<u64>,
    fv: Seq<SourceFileV>,
    rv: Seq<Seq<char>>,
)
    ensures
        crate::sort::laws::all_canonical(
            spec_apply_pipeline(
                pipeline,
                spec_apply_filter(rules, spec_marks_upto(max, fv, fv.len() as int), rv),
                rv,
            ),
        ),
{
    let all = spec_marks_upto(max, fv, fv.len() as int);
    lemma_marks_upto_canonical(max, fv, fv.len() as int);
    let filtered = spec_apply_filter(rules, all, rv);
    assert(crate::sort::laws::all_canonical(filtered)) by {
        assert forall|i: int|
            0 <= i < filtered.len() implies crate::constants::spec_is_canonical_mark(
            (#[trigger] filtered[i]).mark,
        ) by {
            crate::utils::lemma_filter_subset(
                all,
                |m: MarkV| crate::filter::spec_filter_allows(rules, m, rv),
                i,
            );
            let w = choose|w: int| 0 <= w < all.len() && all[w] == filtered[i];
        }
    }
    crate::sort::laws::lemma_apply_pipeline_canonical(pipeline, filtered, rv);
}

} // verus!
