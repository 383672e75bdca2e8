use vstd::prelude::*;

use crate::syntax::{lower_seq, str_eq_ignore_ascii_case};

verus! {

/// The default detection pattern, as a character sequence.
pub open spec fn spec_default_mark_regex() -> Seq<char> {
    "(?i)\\b(?:ERROR|WARN|FIXME|TODO|NOTE|INFO)\\b"@
}

/// The default detection pattern: one of the six canonical mark words, as a
/// whole word, case-insensitively.
pub fn default_mark_regex() -> (r: String)
    ensures
        r@ == spec_default_mark_regex(),
{
    "(?i)\\b(?:ERROR|WARN|FIXME|TODO|NOTE|INFO)\\b".to_owned()
}

/// A canonical mark word together with its default ordering priority.
#[derive(Clone, Debug)]
pub struct MarkPriority {
    pub mark: String,
    pub priority: u8,
}

impl View for MarkPriority {
    type V = (Seq<char>, u8);

    open spec fn view(&self) -> (Seq<char>, u8) {
        (self.mark@, self.priority)
    }
}

/// The canonical mark words in default priority order.
pub open spec fn spec_mark_priorities() -> Seq<(Seq<char>, u8)> {
    seq![
        ("ERROR"@, 0u8),
        ("WARN"@, 1u8),
        ("FIXME"@, 2u8),
        ("TODO"@, 3u8),
        ("NOTE"@, 4u8),
        ("INFO"@, 5u8),
    ]
}

/// The canonical mark words in default priority order: `ERROR`, `WARN`,
/// `FIXME`, `TODO`, `NOTE`, `INFO`.
pub fn default_mark_priorities() -> (r: Vec<MarkPriority>)
    ensures
        r@.map_values(|m: MarkPriority| m@) =~~= spec_mark_priorities(),
{
    let r = vec![
        MarkPriority { mark: "ERROR".to_owned(), priority: 0 },
        MarkPriority { mark: "WARN".to_owned(), priority: 1 },
        MarkPriority { mark: "FIXME".to_owned(), priority: 2 },
        MarkPriority { mark: "TODO".to_owned(), priority: 3 },
        MarkPriority { mark: "NOTE".to_owned(), priority: 4 },
        MarkPriority { mark: "INFO".to_owned(), priority: 5 },
    ];
    assert(r@.map_values(|m: MarkPriority| m@) =~~= spec_mark_priorities());
    r
}

/// True when `s` spells a canonical mark word, up to ASCII case.
pub open spec fn spec_is_canonical_mark(s: Seq<char>) -> bool {
    spec_normalize_mark(s) is Some
}

/// The canonical spelling of a mark word, matched case-insensitively;
/// `None` for any other spelling.
pub open spec fn spec_normalize_mark(s: Seq<char>) -> Option<Seq<char>> {
    if lower_seq(s) == lower_seq("ERROR"@) {
        Some("ERROR"@)
    } else if lower_seq(s) == lower_seq("WARN"@) {
        Some("WARN"@)
    } else if lower_seq(s) == lower_seq("FIXME"@) {
        Some("FIXME"@)
    } else if lower_seq(s) == lower_seq("TODO"@) {
        Some("TODO"@)
    } else if lower_seq(s) == lower_seq("NOTE"@) {
        Some("NOTE"@)
    } else if lower_seq(s) == lower_seq("INFO"@) {
        Some("INFO"@)
    } else {
        None
    }
}

/// The canonical spelling of a mark word, matched case-insensitively.
pub fn normalize_mark(input: &str) -> (r: Option<String>)
    ensures
        match r {
            Some(m) => spec_normalize_mark(input@) == Some(m@),
            None => spec_normalize_mark(input@) is None,
        },
{
    if str_eq_ignore_ascii_case(input, "ERROR") {
        Some("ERROR".to_owned())
    } else if str_eq_ignore_ascii_case(input, "WARN") {
        Some("WARN".to_owned())
    } else if str_eq_ignore_ascii_case(input, "FIXME") {
        Some("FIXME".to_owned())
    } else if str_eq_ignore_ascii_case(input, "TODO") {
        Some("TODO".to_owned())
    } else if str_eq_ignore_ascii_case(input, "NOTE") {
        Some("NOTE".to_owned())
    } else if str_eq_ignore_ascii_case(input, "INFO") {
        Some("INFO".to_owned())
    } else {
        None
    }
}

/// ASCII uppercasing of one byte.
pub open spec fn upper_byte(b: u8) -> u8 {
    if 97 <= b <= 122 {
        (b - 32) as u8
    } else {
        b
    }
}

fn upper_byte_exec(b: u8) -> (r: u8)
    ensures
        r == upper_byte(b),
{
    if 97 <= b && b <= 122 {
        b - 32
    } else {
        b
    }
}

/// The byte spelling of each canonical mark word, in priority order.
pub open spec fn mark_word_bytes(i: int) -> Seq<u8> {
    if i == 0 {
        seq![69u8, 82u8, 82u8, 79u8, 82u8]
    } else if i == 1 {
        seq![87u8, 65u8, 82u8, 78u8]
    } else if i == 2 {
        seq![70u8, 73u8, 88u8, 77u8, 69u8]
    } else if i == 3 {
        seq![84u8, 79u8, 68u8, 79u8]
    } else if i == 4 {
        seq![78u8, 79u8, 84u8, 69u8]
    } else {
        seq![73u8, 78u8, 70u8, 79u8]
    }
}

/// The character spelling of each canonical mark word, in priority order.
pub open spec fn mark_word_chars(i: int) -> Seq<char> {
    if i == 0 {
        "ERROR"@
    } else if i == 1 {
        "WARN"@
    } else if i == 2 {
        "FIXME"@
    } else if i == 3 {
        "TODO"@
    } else if i == 4 {
        "NOTE"@
    } else {
        "INFO"@
    }
}

/// The canonical mark word spelled by the bytes `s`, up to ASCII case.
pub open spec fn spec_normalize_mark_bytes(s: Seq<u8>) -> Option<int> {
    if s.map_values(|b: u8| upper_byte(b)) == mark_word_bytes(0) {
        Some(0)
    } else if s.map_values(|b: u8| upper_byte(b)) == mark_word_bytes(1) {
        Some(1)
    } else if s.map_values(|b: u8| upper_byte(b)) == mark_word_bytes(2) {
        Some(2)
    } else if s.map_values(|b: u8| upper_byte(b)) == mark_word_bytes(3) {
        Some(3)
    } else if s.map_values(|b: u8| upper_byte(b)) == mark_word_bytes(4) {
        Some(4)
    } else if s.map_values(|b: u8| upper_byte(b)) == mark_word_bytes(5) {
        Some(5)
    } else {
        None
    }
}

fn eq_bytes_upper(input: &[u8], word: &Vec<u8>) -> (r: bool)
    ensures
        r == (input@.map_values(|b: u8| upper_byte(b)) == word@),
{
    if input.len() != word.len() {
        assert(input@.map_values(|b: u8| upper_byte(b)).len() != word@.len());
        return false;
    }
    let mut i: usize = 0;
    while i < input.len()
        invariant
            input@.len() == word@.len(),
            i <= input@.len(),
            forall|t: int|
                0 <= t < i ==> input@.map_values(|b: u8| upper_byte(b))[t] == word@[t],
        decreases input@.len() - i,
    {
        if upper_byte_exec(input[i]) != word[i] {
            assert(input@.map_values(|b: u8| upper_byte(b))[i as int] != word@[i as int]);
            return false;
        }
        assert(input@.map_values(|b: u8| upper_byte(b))[i as int] == word@[i as int]);
        i = i + 1;
    }
    assert(input@.map_values(|b: u8| upper_byte(b)) =~= word@);
    true
}

/// The canonical mark word spelled by the bytes `input`, up to ASCII case:
/// its spelling and its index in priority order.
pub fn normalize_mark_bytes(input: &[u8]) -> (r: Option<(usize, String)>)
    ensures
        match r {
            Some(p) => spec_normalize_mark_bytes(input@) == Some(p.0 as int) && p.1@
                == mark_word_chars(p.0 as int) && p.0 < 6,
            None => spec_normalize_mark_bytes(input@) is None,
        },
{
    let words: Vec<Vec<u8>> = mark_word_list();
    if eq_bytes_upper(input, &words[0]) {
        Some((0, "ERROR".to_owned()))
    } else if eq_bytes_upper(input, &words[1]) {
        Some((1, "WARN".to_owned()))
    } else if eq_bytes_upper(input, &words[2]) {
        Some((2, "FIXME".to_owned()))
    } else if eq_bytes_upper(input, &words[3]) {
        Some((3, "TODO".to_owned()))
    } else if eq_bytes_upper(input, &words[4]) {
        Some((4, "NOTE".to_owned()))
    } else if eq_bytes_upper(input, &words[5]) {
        Some((5, "INFO".to_owned()))
    } else {
        None
    }
}

/// The byte spellings of the six canonical mark words, in priority order.
pub fn mark_word_list() -> (r: Vec<Vec<u8>>)
    ensures
        r@.len() == 6,
        forall|i: int| 0 <= i < 6 ==> (#[trigger] r@[i])@ == mark_word_bytes(i),
{
    let r = vec![
        vec![69u8, 82u8, 82u8, 79u8, 82u8],
        vec![87u8, 65u8, 82u8, 78u8],
        vec![70u8, 73u8, 88u8, 77u8, 69u8],
        vec![84u8, 79u8, 68u8, 79u8],
        vec![78u8, 79u8, 84u8, 69u8],
        vec![73u8, 78u8, 70u8, 79u8],
    ];
    assert forall|i: int| 0 <= i < 6 implies (#[trigger] r@[i])@ == mark_word_bytes(i) by {
        if i == 0 {
            assert(r@[0]@ =~= mark_word_bytes(0));
        } else if i == 1 {
            assert(r@[1]@ =~= mark_word_bytes(1));
        } else if i == 2 {
            assert(r@[2]@ =~= mark_word_bytes(2));
        } else if i == 3 {
            assert(r@[3]@ =~= mark_word_bytes(3));
        } else if i == 4 {
            assert(r@[4]@ =~= mark_word_bytes(4));
        } else {
            assert(r@[5]@ =~= mark_word_bytes(5));
        }
    }
    r
}

/// The built-in exclude list, as a ghost sequence.
pub open spec fn spec_builtin_exclude_globs() -> Seq<Seq<char>> {
    seq![
        "node_modules/"@,
        "target/"@,
        "dist/"@,
        "build/"@,
        "out/"@,
        ".git/"@,
        ".hg/"@,
        ".svn/"@,
        ".idea/"@,
        ".vscode/"@,
        "vendor/"@,
        "Pods/"@,
        ".next/"@,
        ".nuxt/"@,
        ".svelte-kit/"@,
        "coverage/"@,
        ".cache/"@,
        ".tmp/"@,
        ".DS_Store"@,
    ]
}

/// Directory names that are excluded from a scan by default.
pub fn builtin_exclude_globs() -> (r: Vec<String>)
    ensures
        r.deep_view() == spec_builtin_exclude_globs(),
        r@.len() == 19,
{
    let r = vec![
        "node_modules/".to_owned(),
        "target/".to_owned(),
        "dist/".to_owned(),
        "build/".to_owned(),
        "out/".to_owned(),
        ".git/".to_owned(),
        ".hg/".to_owned(),
        ".svn/".to_owned(),
        ".idea/".to_owned(),
        ".vscode/".to_owned(),
        "vendor/".to_owned(),
        "Pods/".to_owned(),
        ".next/".to_owned(),
        ".nuxt/".to_owned(),
        ".svelte-kit/".to_owned(),
        "coverage/".to_owned(),
        ".cache/".to_owned(),
        ".tmp/".to_owned(),
        ".DS_Store".to_owned(),
    ];
    assert(r.deep_view() =~~= spec_builtin_exclude_globs());
    r
}

/// An exclude pattern as an override glob: `!`-prefixed unless the caller
/// already negated it.
pub fn override_exclude_glob(pattern: &str) -> (r: String)
    ensures
        r@ == if pattern@.len() > 0 && pattern@[0] == '!' {
            pattern@
        } else {
            "!"@ + pattern@
        },
{
    let starts_bang = pattern.unicode_len() > 0 && pattern.get_char(0) == '!';
    if starts_bang {
        pattern.to_owned()
    } else {
        let r = "!".to_owned().concat(pattern);
        r
    }
}

} // verus!

verus! {

/// Each of the six canonical spellings is, indeed, canonical.
pub proof fn lemma_mark_word_chars_canonical(w: int)
    requires
        0 <= w < 6,
    ensures
        spec_is_canonical_mark(mark_word_chars(w)),
{
    if w == 0 {
    } else if w == 1 {
    } else if w == 2 {
    } else if w == 3 {
    } else if w == 4 {
    } else {
    }
}

} // verus!
