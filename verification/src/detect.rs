use vstd::prelude::*;

verus! {

/// regex::bytes::Regex, declared so compiled patterns can stand in fields
/// and signatures; opaque to verification.
#[verifier::external_type_specification]
#[verifier::external_body]
pub struct ExRegex(regex::bytes::Regex);

/// Whether a pattern is accepted by the regex crate's compiler (within its
/// default size limit); a function of the pattern alone.
pub uninterp spec fn regex_pattern_ok(p: Seq<char>) -> bool;

/// Relies on regex::bytes::Regex::new: returns `Ok` exactly when the
/// pattern is a valid regular expression within the default size limit.
#[verifier::external_body]
pub(crate) fn compile_regex(pattern: &str) -> (r: Option<regex::bytes::Regex>)
    ensures
        r is Some <==> regex_pattern_ok(pattern@),
{
    regex::bytes::Regex::new(pattern).ok()
}

/// Relies on regex::bytes::Regex::find_iter: yields the successive
/// non-overlapping matches. The contract states only what every caller
/// needs: each returned range is well-formed and lies within the
/// haystack. The callers re-check every match against the comment's
/// leading position and the canonical words, so nothing further is
/// assumed of the match set.
#[verifier::external_body]
pub(crate) fn regex_find_ranges(re: &regex::bytes::Regex, hay: &[u8]) -> (r: Vec<(usize, usize)>)
    ensures
        forall|i: int| 0 <= i < r@.len() ==> (#[trigger] r@[i]).0 <= r@[i].1 <= hay@.len(),
{
    re.find_iter(hay).map(|m| (m.start(), m.end())).collect()
}

/// How marks are recognised: the built-in word matcher that the default
/// pattern compiles to, or a custom compiled regular expression whose
/// matches must still normalise to a canonical word.
pub enum Detection {
    Builtin,
    Custom(regex::bytes::Regex),
}

impl Detection {
    pub open spec fn is_builtin(&self) -> bool {
        match self {
            Detection::Builtin => true,
            Detection::Custom(_) => false,
        }
    }
}

} // verus!
