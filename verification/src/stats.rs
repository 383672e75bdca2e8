use vstd::prelude::*;

use crate::control::SkipReason;
use crate::model::{ScanIssueCounts, ScanSkipCounts, ScanStats};

verus! {

/// Which kind of problem a scan recorded.
#[derive(Clone, Copy, Debug, Eq, PartialEq, Structural)]
pub enum WarningKind {
    Walk,
    Metadata,
    Io,
}

/// The counters of one scan in progress. All counters saturate at
/// `u64::MAX` rather than wrap.
#[derive(Clone, Debug, Eq, PartialEq, Structural)]
pub struct ScanCounters {
    pub stats: ScanStats,
}

/// A saturating increment.
pub open spec fn spec_inc(n: u64) -> u64 {
    if n == u64::MAX {
        n
    } else {
        (n + 1) as u64
    }
}

fn inc(n: u64) -> (r: u64)
    ensures
        r == spec_inc(n),
{
    if n == u64::MAX {
        n
    } else {
        n + 1
    }
}

impl ScanCounters {
    pub fn new() -> (r: ScanCounters)
        ensures
            r.stats == ScanStats::spec_zero(),
            r.stats.skip_counts_consistent(),
    {
        ScanCounters { stats: ScanStats::default() }
    }

    /// Record one skipped file's reason: the per-reason counter and its
    /// total bucket advance together; `files_skipped` itself is the
    /// caller's to advance, as are all other counters.
    pub fn record_skip(&mut self, reason: SkipReason)
        requires
            reason == SkipReason::MaxFileSize ==> old(self).stats.skips.max_file_size < u64::MAX
                && old(self).stats.skipped_expected < u64::MAX,
            reason == SkipReason::Metadata ==> old(self).stats.skips.metadata < u64::MAX && old(self).stats.skipped_issues < u64::MAX,
            reason == SkipReason::Io ==> old(self).stats.skips.io < u64::MAX && old(self).stats.skipped_issues < u64::MAX,
            reason == SkipReason::UnsupportedSyntax ==> old(self).stats.skips.unsupported_syntax
                < u64::MAX && old(self).stats.skipped_expected < u64::MAX,
            reason == SkipReason::Binary ==> old(self).stats.skips.binary < u64::MAX && old(self).stats.skipped_expected < u64::MAX,
        ensures
            final(self).stats.files_skipped == old(self).stats.files_skipped,
            final(self).stats.files_scanned == old(self).stats.files_scanned,
            final(self).stats.matches == old(self).stats.matches,
            final(self).stats.cancelled == old(self).stats.cancelled,
            final(self).stats.issues == old(self).stats.issues,
            reason == SkipReason::MaxFileSize || reason == SkipReason::UnsupportedSyntax || reason
                == SkipReason::Binary ==> final(self).stats.skipped_expected == old(self).stats.skipped_expected + 1 && final(self).stats.skipped_issues == old(self).stats.skipped_issues,
            reason == SkipReason::Metadata || reason == SkipReason::Io ==> final(self).stats.skipped_issues == old(self).stats.skipped_issues + 1 && final(self).stats.skipped_expected == old(self).stats.skipped_expected,
            reason == SkipReason::MaxFileSize ==> final(self).stats.skips == (ScanSkipCounts {
                max_file_size: (old(self).stats.skips.max_file_size + 1) as u64,
                ..old(self).stats.skips
            }),
            reason == SkipReason::Metadata ==> final(self).stats.skips == (ScanSkipCounts {
                metadata: (old(self).stats.skips.metadata + 1) as u64,
                ..old(self).stats.skips
            }),
            reason == SkipReason::Io ==> final(self).stats.skips == (ScanSkipCounts {
                io: (old(self).stats.skips.io + 1) as u64,
                ..old(self).stats.skips
            }),
            reason == SkipReason::UnsupportedSyntax ==> final(self).stats.skips == (ScanSkipCounts {
                unsupported_syntax: (old(self).stats.skips.unsupported_syntax + 1) as u64,
                ..old(self).stats.skips
            }),
            reason == SkipReason::Binary ==> final(self).stats.skips == (ScanSkipCounts {
                binary: (old(self).stats.skips.binary + 1) as u64,
                ..old(self).stats.skips
            }),
    {
        match reason {
            SkipReason::MaxFileSize => {
                self.stats.skips.max_file_size = self.stats.skips.max_file_size + 1;
                self.stats.skipped_expected = self.stats.skipped_expected + 1;
            },
            SkipReason::Metadata => {
                self.stats.skips.metadata = self.stats.skips.metadata + 1;
                self.stats.skipped_issues = self.stats.skipped_issues + 1;
            },
            SkipReason::Io => {
                self.stats.skips.io = self.stats.skips.io + 1;
                self.stats.skipped_issues = self.stats.skipped_issues + 1;
            },
            SkipReason::UnsupportedSyntax => {
                self.stats.skips.unsupported_syntax = self.stats.skips.unsupported_syntax + 1;
                self.stats.skipped_expected = self.stats.skipped_expected + 1;
            },
            SkipReason::Binary => {
                self.stats.skips.binary = self.stats.skips.binary + 1;
                self.stats.skipped_expected = self.stats.skipped_expected + 1;
            },
        }
    }

    /// Record one problem counter; nothing else moves.
    pub fn record_issue(&mut self, kind: WarningKind)
        ensures
            final(self).stats.files_scanned == old(self).stats.files_scanned,
            final(self).stats.files_skipped == old(self).stats.files_skipped,
            final(self).stats.matches == old(self).stats.matches,
            final(self).stats.cancelled == old(self).stats.cancelled,
            final(self).stats.skips == old(self).stats.skips,
            final(self).stats.skipped_expected == old(self).stats.skipped_expected,
            final(self).stats.skipped_issues == old(self).stats.skipped_issues,
            old(self).stats.skip_counts_consistent() ==> final(self).stats.skip_counts_consistent(),
            kind == WarningKind::Walk ==> final(self).stats.issues == (ScanIssueCounts {
                walk_errors: spec_inc(old(self).stats.issues.walk_errors),
                ..old(self).stats.issues
            }),
            kind == WarningKind::Metadata ==> final(self).stats.issues == (ScanIssueCounts {
                metadata_errors: spec_inc(old(self).stats.issues.metadata_errors),
                ..old(self).stats.issues
            }),
            kind == WarningKind::Io ==> final(self).stats.issues == (ScanIssueCounts {
                io_errors: spec_inc(old(self).stats.issues.io_errors),
                ..old(self).stats.issues
            }),
    {
        match kind {
            WarningKind::Walk => {
                self.stats.issues.walk_errors = inc(self.stats.issues.walk_errors);
            },
            WarningKind::Metadata => {
                self.stats.issues.metadata_errors = inc(self.stats.issues.metadata_errors);
            },
            WarningKind::Io => {
                self.stats.issues.io_errors = inc(self.stats.issues.io_errors);
            },
        }
    }
}

} // verus!
