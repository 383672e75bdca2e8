use vstd::prelude::*;

verus! {

/// Construction-time failures; runtime problems are recorded as counters
/// in the scan statistics instead of aborting the scan.
#[derive(Clone, Copy, Debug, Eq, PartialEq, Structural)]
pub enum ScanError {
    /// No scan roots were provided.
    EmptyRoots,
    /// The custom detection pattern failed to compile.
    InvalidRegex,
    /// An include or exclude glob failed to compile.
    InvalidPattern,
}

impl ScanError {
    pub fn message(&self) -> (r: String)
        ensures
            r@ == self.spec_message(),
    {
        match self {
            ScanError::EmptyRoots => "no scan roots were provided".to_owned(),
            ScanError::InvalidRegex => "invalid detection regex".to_owned(),
            ScanError::InvalidPattern => "invalid include/exclude pattern".to_owned(),
        }
    }

    pub open spec fn spec_message(&self) -> Seq<char> {
        match self {
            ScanError::EmptyRoots => "no scan roots were provided"@,
            ScanError::InvalidRegex => "invalid detection regex"@,
            ScanError::InvalidPattern => "invalid include/exclude pattern"@,
        }
    }
}

} // verus!
