//! Core scanning engine for tracking TODO/FIXME style marks in a workspace.
//!
//! The library walks a set of in-memory source files, classifies each line
//! into code, string and comment regions per a per-language syntax profile,
//! recognises mark words at the leading position of comments, and groups and
//! orders the findings. Directory traversal and terminal output live outside
//! the library; callers hand it plain values and receive plain values back.

mod comments;
mod config;
mod constants;
mod control;
mod detect;
mod error;
mod filter;
mod model;
mod scanfile;
mod scanner;
mod sort;
mod stats;
mod syntax;
mod utils;

pub use comments::{BlockState, StringDelim, SyntaxInfo, SyntaxSpec, find_comment_ranges};
pub use config::{DetectionConfig, ScanConfig, ScanConfigBuilder};
pub use constants::{
    MarkPriority, builtin_exclude_globs, default_mark_priorities, default_mark_regex,
    normalize_mark, normalize_mark_bytes, override_exclude_glob,
};
pub use control::{CancellationToken, SkipReason};
pub use detect::Detection;
pub use error::ScanError;
pub use filter::{FilterConfig, FilterRule, ValuePredicate, extract_dimension_value};
pub use model::{
    Dimension, DimensionValue, GroupNode, GroupTree, GroupedScanResult, Mark, ScanIssueCounts,
    ScanResult, ScanSkipCounts, ScanStats, SourceFile,
};
pub use scanfile::{
    ScanOutcome, lemma_scan_file_marks_canonical, lemma_scan_file_marks_locate, scan_file,
    scan_line,
};
pub use scanner::{Scanner, lemma_scan_result_marks_canonical};
pub use sort::config::{
    DimensionStage, FolderSortConfig, LanguageOrder, LanguageSortConfig, MarkPriorityOverride,
    MarkSortConfig, Order, PathSortConfig, SortConfig,
};
pub use sort::group::{Group, GroupKey};
pub use sort::laws::{lemma_apply_pipeline_canonical, lemma_pipeline_idempotent};
pub use sort::pipeline::apply_sort_pipeline;
pub use sort::stages::group_for_stage;
pub use sort::tree::build_group_tree;
pub use stats::{ScanCounters, WarningKind};
pub use syntax::syntax_for_path;
pub use utils::{folder_key, prefix_components};

use vstd::prelude::*;

verus! {

/// Scan the given files under this configuration and return the marks
/// ordered by the sort pipeline.
///
/// Fails only at construction time: no roots, a detection pattern that
/// does not compile, or an include or exclude glob that does not parse.
/// On success the counters describe a scanned prefix of the files (all of
/// them unless cancelled), every returned mark spells a canonical word,
/// and — under the default detection with no cancellation token — the
/// returned marks are exactly the pipeline ordering of the filtered
/// emitted marks.
pub fn scan(config: ScanConfig, files: Vec<SourceFile>) -> (r: Result<ScanResult, ScanError>)
    ensures
        r is Ok <==> crate::scanner::spec_config_error(config) is None,
        r matches Err(e) ==> crate::scanner::spec_config_error(config) == Some(e),
        r matches Ok(res) ==> {
            &&& res.stats.skip_counts_consistent()
            &&& (config.cancellation is None ==> !res.stats.cancelled)
            &&& crate::scanner::spec_counts_settled(
                config.max_file_size,
                crate::model::files_v(files@),
                res.stats,
            )
            &&& forall|j: int|
                0 <= j < res.marks@.len() ==> crate::constants::spec_is_canonical_mark(
                    (#[trigger] res.marks@[j])@.mark,
                )
        },
        (r is Ok && config.detection.spec_pattern() == crate::constants::spec_default_mark_regex()
            && config.cancellation is None) ==> {
            let res = r.unwrap();
            let fv = crate::model::files_v(files@);
            &&& res.stats.matches == crate::scanner::spec_marks_upto(
                config.max_file_size,
                fv,
                fv.len() as int,
            ).len()
            &&& crate::scanner::spec_counts_match(
                config.max_file_size,
                fv,
                fv.len() as int,
                res.stats,
            )
            &&& crate::model::marks_v(res.marks@) == crate::sort::pipeline::spec_apply_pipeline(
                config.sort_config.pipeline@,
                crate::filter::spec_apply_filter(
                    config.filter_config.rules@,
                    crate::scanner::spec_marks_upto(config.max_file_size, fv, fv.len() as int),
                    config.roots.deep_view(),
                ),
                config.roots.deep_view(),
            )
        },
{
    let scanner = match Scanner::new(config) {
        Ok(scanner) => scanner,
        Err(e) => {
            return Err(e);
        },
    };
    scanner.scan(files)
}

/// Scan the given files under this configuration and return the group
/// tree. On success the tree's total accounts for every collected mark
/// the filter kept: `total == matches - filtered_out`.
pub fn scan_grouped(config: ScanConfig, files: Vec<SourceFile>) -> (r: Result<
    GroupedScanResult,
    ScanError,
>)
    ensures
        r is Ok <==> crate::scanner::spec_config_error(config) is None,
        r matches Err(e) ==> crate::scanner::spec_config_error(config) == Some(e),
        r matches Ok(res) ==> {
            &&& res.stats.skip_counts_consistent()
            &&& (config.cancellation is None ==> !res.stats.cancelled)
            &&& crate::scanner::spec_counts_settled(
                config.max_file_size,
                crate::model::files_v(files@),
                res.stats,
            )
            &&& crate::scanner::spec_grouped_accounted(
                res.stats.matches,
                res.tree.spec_total(),
                config.filter_config.rules@,
                config.roots.deep_view(),
            )
        },
        (r is Ok && config.detection.spec_pattern() == crate::constants::spec_default_mark_regex()
            && config.cancellation is None) ==> {
            let res = r.unwrap();
            let fv = crate::model::files_v(files@);
            &&& res.stats.matches == crate::scanner::spec_marks_upto(
                config.max_file_size,
                fv,
                fv.len() as int,
            ).len()
            &&& crate::scanner::spec_counts_match(
                config.max_file_size,
                fv,
                fv.len() as int,
                res.stats,
            )
        },
{
    let scanner = match Scanner::new(config) {
        Ok(scanner) => scanner,
        Err(e) => {
            return Err(e);
        },
    };
    scanner.scan_grouped(files)
}

} // verus!
