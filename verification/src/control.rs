use vstd::prelude::*;

use std::sync::atomic::AtomicBool;
use std::sync::atomic::Ordering;
use std::sync::Arc;

verus! {

/// Why a candidate file was skipped rather than scanned.
#[derive(Clone, Copy, Debug, Eq, PartialEq, Structural)]
pub enum SkipReason {
    MaxFileSize,
    Metadata,
    Io,
    UnsupportedSyntax,
    Binary,
}

/// A shared flag that a scan polls at well-defined points to abort early.
///
/// Cancellation is cooperative: `cancel` raises the flag, and the scanner
/// observes it between files and between lines. Nothing is assumed about
/// when an observation sees the flag, so every contract downstream only
/// promises that the scanned output is a prefix of the full scan.
#[derive(Clone, Debug)]
pub struct CancellationToken {
    flag: Arc<AtomicBool>,
}

impl CancellationToken {
    pub fn new() -> CancellationToken {
        CancellationToken { flag: Arc::new(AtomicBool::new(false)) }
    }

    pub fn cancel(&self) {
        self.flag.store(true, Ordering::Relaxed);
    }

    pub fn is_cancelled(&self) -> bool {
        self.flag.load(Ordering::Relaxed)
    }
}

impl Default for CancellationToken {
    fn default() -> CancellationToken {
        CancellationToken::new()
    }
}

} // verus!
