use vstd::prelude::*;

use crate::comments::{
    BlockState, SyntaxInfo, SyntaxSpec, SyntaxSpecV, TkSt, find_comment_ranges, ranges_within,
    spec_initial_state, spec_line_ranges, spec_starts_with, starts_with, lemma_line_ranges_bounds,
};
use crate::constants::{mark_word_bytes, mark_word_chars, upper_byte};
use crate::control::{CancellationToken, SkipReason};
use crate::detect::{Detection, regex_find_ranges};
use crate::model::{Mark, MarkV, marks_v};

verus! {

/// First position at or after `i` where byte `b` occurs in `s`.
pub open spec fn spec_find_byte_from(s: Seq<u8>, b: u8, i: int) -> Option<int>
    decreases s.len() - i,
{
    if i < 0 || i >= s.len() {
        None
    } else if s[i] == b {
        Some(i)
    } else {
        spec_find_byte_from(s, b, i + 1)
    }
}

proof fn lemma_find_byte_some(s: Seq<u8>, b: u8, i: int, j: int)
    requires
        0 <= i <= j < s.len(),
        s[j] == b,
        forall|t: int| i <= t < j ==> s[t] != b,
    ensures
        spec_find_byte_from(s, b, i) == Some(j),
    decreases j - i,
{
    if i < j {
        lemma_find_byte_some(s, b, i + 1, j);
    }
}

proof fn lemma_find_byte_none(s: Seq<u8>, b: u8, i: int)
    requires
        0 <= i,
        forall|t: int| i <= t < s.len() ==> s[t] != b,
    ensures
        spec_find_byte_from(s, b, i) is None,
    decreases s.len() - i,
{
    if i < s.len() {
        lemma_find_byte_none(s, b, i + 1);
    }
}

proof fn lemma_find_byte_bounds(s: Seq<u8>, b: u8, i: int)
    requires
        spec_find_byte_from(s, b, i) is Some,
    ensures
        i <= spec_find_byte_from(s, b, i).unwrap() < s.len(),
        s[spec_find_byte_from(s, b, i).unwrap()] == b,
    decreases s.len() - i,
{
    if i < 0 || i >= s.len() {
    } else if s[i] == b {
    } else {
        lemma_find_byte_bounds(s, b, i + 1);
    }
}

/// Relies on memchr::memchr: the index of the first occurrence of the
/// needle byte in the haystack, or `None` when it does not occur.
pub assume_specification [ memchr::memchr ](needle: u8, haystack: &[u8]) -> (r: Option<usize>)
    ensures
        match r {
            Some(i) => i < haystack@.len() && haystack@[i as int] == needle && forall|j: int|
                0 <= j < i ==> haystack@[j] != needle,
            None => forall|j: int| 0 <= j < haystack@.len() ==> haystack@[j] != needle,
        },
;

/// First position where byte `b` occurs in `hay`.
pub fn find_byte(hay: &[u8], b: u8) -> (r: Option<usize>)
    ensures
        match r {
            Some(i) => spec_find_byte_from(hay@, b, 0) == Some(i as int),
            None => spec_find_byte_from(hay@, b, 0) is None,
        },
{
    let r = memchr::memchr(b, hay);
    proof {
        match r {
            Some(i) => {
                lemma_find_byte_some(hay@, b, 0, i as int);
            },
            None => {
                lemma_find_byte_none(hay@, b, 0);
            },
        }
    }
    r
}

/// ASCII whitespace, as `u8::is_ascii_whitespace` has it.
pub open spec fn spec_is_ws(b: u8) -> bool {
    b == 32 || b == 9 || b == 10 || b == 12 || b == 13
}

/// A word byte: ASCII alphanumeric or underscore.
pub open spec fn spec_word_byte(b: u8) -> bool {
    (48 <= b <= 57) || (65 <= b <= 90) || (97 <= b <= 122) || b == 95
}

fn is_word_char(byte: u8) -> (r: bool)
    ensures
        r == spec_word_byte(byte),
{
    (48 <= byte && byte <= 57) || (65 <= byte && byte <= 90) || (97 <= byte && byte <= 122)
        || byte == 95
}

/// First position at or after `pos` (and before `e`) that is not ASCII
/// whitespace.
pub open spec fn spec_skip_ws(line: Seq<u8>, pos: int, e: int) -> int
    decreases e - pos,
{
    if pos < e && 0 <= pos < line.len() && spec_is_ws(line[pos]) {
        spec_skip_ws(line, pos + 1, e)
    } else {
        pos
    }
}

proof fn lemma_skip_ws_bounds(line: Seq<u8>, pos: int, e: int)
    requires
        pos <= e,
    ensures
        pos <= spec_skip_ws(line, pos, e) <= e,
    decreases e - pos,
{
    if pos < e && 0 <= pos < line.len() && spec_is_ws(line[pos]) {
        lemma_skip_ws_bounds(line, pos + 1, e);
    }
}

fn skip_ws(line: &[u8], pos: usize, e: usize) -> (r: usize)
    requires
        pos <= e <= line@.len(),
    ensures
        r == spec_skip_ws(line@, pos as int, e as int),
        pos <= r <= e,
{
    let mut p = pos;
    while p < e && is_ws_byte(line[p])
        invariant
            pos <= p <= e <= line@.len(),
            spec_skip_ws(line@, pos as int, e as int) == spec_skip_ws(line@, p as int, e as int),
        decreases e - p,
    {
        p = p + 1;
    }
    p
}

fn is_ws_byte(b: u8) -> (r: bool)
    ensures
        r == spec_is_ws(b),
{
    b == 32 || b == 9 || b == 10 || b == 12 || b == 13
}

/// First position at or after `pos` (and before `e`) that is neither `/`
/// nor `!`: the doc-comment decoration after a slash-style line comment.
pub open spec fn spec_skip_slash_bang(line: Seq<u8>, pos: int, e: int) -> int
    decreases e - pos,
{
    if pos < e && 0 <= pos < line.len() && (line[pos] == 47u8 || line[pos] == 33u8) {
        spec_skip_slash_bang(line, pos + 1, e)
    } else {
        pos
    }
}

proof fn lemma_skip_slash_bang_bounds(line: Seq<u8>, pos: int, e: int)
    requires
        pos <= e,
    ensures
        pos <= spec_skip_slash_bang(line, pos, e) <= e,
    decreases e - pos,
{
    if pos < e && 0 <= pos < line.len() && (line[pos] == 47u8 || line[pos] == 33u8) {
        lemma_skip_slash_bang_bounds(line, pos + 1, e);
    }
}

fn skip_slash_bang(line: &[u8], pos: usize, e: usize) -> (r: usize)
    requires
        pos <= e <= line@.len(),
    ensures
        r == spec_skip_slash_bang(line@, pos as int, e as int),
        pos <= r <= e,
{
    let mut p = pos;
    while p < e && is_slash_or_bang(line[p])
        invariant
            pos <= p <= e <= line@.len(),
            spec_skip_slash_bang(line@, pos as int, e as int) == spec_skip_slash_bang(
                line@,
                p as int,
                e as int,
            ),
        decreases e - p,
    {
        p = p + 1;
    }
    p
}

fn is_slash_or_bang(b: u8) -> (r: bool)
    ensures
        r == (b == 47 || b == 33),
{
    b == 47 || b == 33
}

/// The leading position of the comment range `[s, e)`: the first byte
/// after the comment opener, one optional decoration byte, and ASCII
/// whitespace; `None` when only whitespace follows the opener.
pub open spec fn spec_leading_pos(line: Seq<u8>, s: int, e: int, sp: SyntaxSpecV) -> Option<int> {
    if sp.line_comment is Some && spec_starts_with(line, sp.line_comment.unwrap(), s) {
        let tok = sp.line_comment.unwrap();
        let p1 = s + tok.len();
        let p2 = if tok[0] == 47u8 {
            spec_skip_slash_bang(line, p1, e)
        } else if tok[0] == 35u8 {
            if p1 < e && 0 <= p1 < line.len() && line[p1] == 33u8 {
                p1 + 1
            } else {
                p1
            }
        } else {
            p1
        };
        let p3 = spec_skip_ws(line, p2, e);
        if p3 < e {
            Some(p3)
        } else {
            None
        }
    } else {
        let opened = sp.block_comment is Some && spec_starts_with(
            line,
            sp.block_comment.unwrap().0,
            s,
        );
        let p1 = if opened {
            s + sp.block_comment.unwrap().0.len()
        } else {
            s
        };
        let allow = opened || (sp.block_comment is Some && s == 0);
        let p2 = if allow && p1 < e && 0 <= p1 < line.len() && (line[p1] == 42u8 || line[p1]
            == 33u8) {
            p1 + 1
        } else {
            p1
        };
        let p3 = spec_skip_ws(line, p2, e);
        if p3 < e {
            Some(p3)
        } else {
            None
        }
    }
}

/// A leading position lies inside its range.
pub proof fn lemma_leading_pos_bounds(line: Seq<u8>, s: int, e: int, sp: SyntaxSpecV)
    requires
        0 <= s <= e <= line.len(),
        spec_leading_pos(line, s, e, sp) is Some,
    ensures
        s <= spec_leading_pos(line, s, e, sp).unwrap() < e,
{
    if sp.line_comment is Some && spec_starts_with(line, sp.line_comment.unwrap(), s) {
        let tok = sp.line_comment.unwrap();
        let p1 = s + tok.len();
        if p1 <= e {
            if tok[0] == 47u8 {
                lemma_skip_slash_bang_bounds(line, p1, e);
                lemma_skip_ws_bounds(line, spec_skip_slash_bang(line, p1, e), e);
            } else if tok[0] == 35u8 {
                if p1 < e && 0 <= p1 < line.len() && line[p1] == 33u8 {
                    lemma_skip_ws_bounds(line, p1 + 1, e);
                } else {
                    lemma_skip_ws_bounds(line, p1, e);
                }
            } else {
                lemma_skip_ws_bounds(line, p1, e);
            }
        } else {
            lemma_skip_ws_p_past(line, p1, e);
        }
    } else {
        let opened = sp.block_comment is Some && spec_starts_with(
            line,
            sp.block_comment.unwrap().0,
            s,
        );
        let p1 = if opened {
            s + sp.block_comment.unwrap().0.len()
        } else {
            s
        };
        if p1 <= e {
            let allow = opened || (sp.block_comment is Some && s == 0);
            let p2 = if allow && p1 < e && 0 <= p1 < line.len() && (line[p1] == 42u8 || line[p1]
                == 33u8) {
                p1 + 1
            } else {
                p1
            };
            lemma_skip_ws_bounds(line, p2, e);
        } else {
            lemma_skip_ws_p_past(line, p1, e);
        }
    }
}

proof fn lemma_skip_ws_p_past(line: Seq<u8>, pos: int, e: int)
    requires
        pos > e,
    ensures
        spec_skip_ws(line, pos, e) == pos,
{
}

/// The leading position of one comment range.
pub fn leading_mark_pos(line: &[u8], range_start: usize, range_end: usize, syntax: &SyntaxSpec) -> (r:
    Option<usize>)
    requires
        syntax.wf(),
        range_start <= range_end <= line@.len(),
    ensures
        match r {
            Some(p) => spec_leading_pos(line@, range_start as int, range_end as int, syntax@)
                == Some(p as int) && range_start <= p < range_end,
            None => spec_leading_pos(line@, range_start as int, range_end as int, syntax@)
                is None,
        },
{
    let s = range_start;
    let e = range_end;
    let n = line.len();

    match &syntax.line_comment {
        Some(tok) => {
            if starts_with(line, tok.as_slice(), s) {
                proof {
                    assert(tok@ == syntax@.line_comment.unwrap());
                    assert(tok@.len() >= 1);
                    assert(s + tok@.len() <= line@.len());
                }
                let p1 = s + tok.len();
                let p2 = if tok[0] == 47u8 {
                    if p1 > e {
                        p1
                    } else {
                        skip_slash_bang(line, p1, e)
                    }
                } else if tok[0] == 35u8 {
                    if p1 < e && line[p1] == 33u8 {
                        p1 + 1
                    } else {
                        p1
                    }
                } else {
                    p1
                };
                let p3 = if p2 > e {
                    proof {
                        lemma_skip_ws_p_past(line@, p2 as int, e as int);
                    }
                    p2
                } else {
                    skip_ws(line, p2, e)
                };
                if p3 < e {
                    proof {
                        lemma_leading_pos_bounds(line@, s as int, e as int, syntax@);
                    }
                    return Some(p3);
                }
                return None;
            }
        },
        None => {},
    }

    let step = match &syntax.block_comment {
        Some(bc) => {
            if starts_with(line, bc.0.as_slice(), s) {
                proof {
                    assert(bc.0@ == syntax@.block_comment.unwrap().0);
                    assert(bc.0@.len() >= 1);
                    assert(s + bc.0@.len() <= line@.len());
                }
                (true, s + bc.0.len(), true)
            } else {
                (true, s, s == 0)
            }
        },
        None => (false, s, false),
    };
    let p1 = step.1;
    let allow = step.2;
    let p2 = if allow && p1 < e && (line[p1] == 42u8 || line[p1] == 33u8) {
        p1 + 1
    } else {
        p1
    };
    let p3 = if p2 > e {
        proof {
            lemma_skip_ws_p_past(line@, p2 as int, e as int);
        }
        p2
    } else {
        skip_ws(line, p2, e)
    };
    if p3 < e {
        proof {
            lemma_leading_pos_bounds(line@, s as int, e as int, syntax@);
        }
        Some(p3)
    } else {
        None
    }
}

/// True when the recognised word at `match_start` stands exactly at the
/// leading position of the comment range.
pub fn is_leading_mark(
    line: &[u8],
    range_start: usize,
    range_end: usize,
    match_start: usize,
    syntax: &SyntaxSpec,
) -> (r: bool)
    requires
        syntax.wf(),
        range_start <= range_end <= line@.len(),
    ensures
        r == (spec_leading_pos(line@, range_start as int, range_end as int, syntax@) == Some(
            match_start as int,
        )),
{
    match leading_mark_pos(line, range_start, range_end, syntax) {
        Some(pos) => pos == match_start,
        None => false,
    }
}

/// `s` begins with the canonical word `i` (exact uppercase bytes) on a word
/// boundary.
pub open spec fn spec_word_prefix(s: Seq<u8>, i: int) -> bool {
    let w = mark_word_bytes(i);
    &&& w.len() <= s.len()
    &&& s.subrange(0, w.len() as int) == w
    &&& (s.len() == w.len() || !spec_word_byte(s[w.len() as int]))
}

/// The first canonical word (in priority order) standing at the start of
/// `s` on a word boundary, case-sensitively.
pub open spec fn spec_match_builtin(s: Seq<u8>) -> Option<int> {
    if spec_word_prefix(s, 0) {
        Some(0)
    } else if spec_word_prefix(s, 1) {
        Some(1)
    } else if spec_word_prefix(s, 2) {
        Some(2)
    } else if spec_word_prefix(s, 3) {
        Some(3)
    } else if spec_word_prefix(s, 4) {
        Some(4)
    } else if spec_word_prefix(s, 5) {
        Some(5)
    } else {
        None
    }
}

fn word_prefix_at(input: &[u8], word: &Vec<u8>) -> (r: bool)
    ensures
        r == (word@.len() <= input@.len() && input@.subrange(0, word@.len() as int) == word@ && (
        input@.len() == word@.len() || !spec_word_byte(input@[word@.len() as int]))),
{
    if !starts_with(input, word.as_slice(), 0) {
        if word.len() <= input.len() {
            assert(spec_starts_with(input@, word@, 0) == (input@.subrange(0, word@.len() as int)
                == word@));
        }
        return false;
    }
    if input.len() == word.len() {
        true
    } else {
        !is_word_char(input[word.len()])
    }
}

/// The first canonical word standing at the start of `input` on a word
/// boundary: its index in priority order and its canonical spelling.
pub fn match_builtin_mark(input: &[u8]) -> (r: Option<(usize, String)>)
    ensures
        match r {
            Some(p) => spec_match_builtin(input@) == Some(p.0 as int) && p.1@ == mark_word_chars(
                p.0 as int,
            ) && p.0 < 6,
            None => spec_match_builtin(input@) is None,
        },
{
    let words = crate::constants::mark_word_list();
    if word_prefix_at(input, &words[0]) {
        Some((0, "ERROR".to_owned()))
    } else if word_prefix_at(input, &words[1]) {
        Some((1, "WARN".to_owned()))
    } else if word_prefix_at(input, &words[2]) {
        Some((2, "FIXME".to_owned()))
    } else if word_prefix_at(input, &words[3]) {
        Some((3, "TODO".to_owned()))
    } else if word_prefix_at(input, &words[4]) {
        Some((4, "NOTE".to_owned()))
    } else if word_prefix_at(input, &words[5]) {
        Some((5, "INFO".to_owned()))
    } else {
        None
    }
}

/// One of the bytes that a canonical word can begin with occurs in
/// `[start, end)` of `line`.
pub open spec fn spec_contains_mark_initial(line: Seq<u8>, start: int, end: int) -> bool {
    &&& 0 <= start < end <= line.len()
    &&& exists|j: int|
        start <= j < end && {
            let b = #[trigger] line[j];
            b == 69u8 || b == 87u8 || b == 70u8 || b == 84u8 || b == 78u8 || b == 73u8
        }
}

/// Cheap screen before mark recognition: does any byte of the range begin
/// one of the six words?
pub fn contains_mark_initial(line: &[u8], start: usize, end: usize) -> (r: bool)
    ensures
        r == spec_contains_mark_initial(line@, start as int, end as int),
{
    if start >= end || end > line.len() {
        return false;
    }
    let hay = &line[start..end];
    assert(hay@ =~= line@.subrange(start as int, end as int));
    let f1 = find_byte(hay, 69);
    let f2 = find_byte(hay, 87);
    let f3 = find_byte(hay, 70);
    let f4 = find_byte(hay, 84);
    let f5 = find_byte(hay, 78);
    let f6 = find_byte(hay, 73);
    let found = f1.is_some() || f2.is_some() || f3.is_some() || f4.is_some() || f5.is_some()
        || f6.is_some();
    proof {
        if found {
            if f1 is Some {
                lemma_find_byte_bounds(hay@, 69, 0);
                let i = spec_find_byte_from(hay@, 69, 0).unwrap();
                assert(line@[start + i] == 69u8);
            } else if f2 is Some {
                lemma_find_byte_bounds(hay@, 87, 0);
                let i = spec_find_byte_from(hay@, 87, 0).unwrap();
                assert(line@[start + i] == 87u8);
            } else if f3 is Some {
                lemma_find_byte_bounds(hay@, 70, 0);
                let i = spec_find_byte_from(hay@, 70, 0).unwrap();
                assert(line@[start + i] == 70u8);
            } else if f4 is Some {
                lemma_find_byte_bounds(hay@, 84, 0);
                let i = spec_find_byte_from(hay@, 84, 0).unwrap();
                assert(line@[start + i] == 84u8);
            } else if f5 is Some {
                lemma_find_byte_bounds(hay@, 78, 0);
                let i = spec_find_byte_from(hay@, 78, 0).unwrap();
                assert(line@[start + i] == 78u8);
            } else {
                lemma_find_byte_bounds(hay@, 73, 0);
                let i = spec_find_byte_from(hay@, 73, 0).unwrap();
                assert(line@[start + i] == 73u8);
            }
            assert(spec_contains_mark_initial(line@, start as int, end as int));
        } else {
            lemma_find_byte_none_charac(hay@, 69, 0);
            lemma_find_byte_none_charac(hay@, 87, 0);
            lemma_find_byte_none_charac(hay@, 70, 0);
            lemma_find_byte_none_charac(hay@, 84, 0);
            lemma_find_byte_none_charac(hay@, 78, 0);
            lemma_find_byte_none_charac(hay@, 73, 0);
            assert forall|j: int| start <= j < end implies !{
                let b = #[trigger] line@[j];
                b == 69u8 || b == 87u8 || b == 70u8 || b == 84u8 || b == 78u8 || b == 73u8
            } by {
                assert(line@[j] == hay@[j - start]);
            }
        }
    }
    found
}

proof fn lemma_find_byte_none_charac(s: Seq<u8>, b: u8, i: int)
    requires
        0 <= i,
        spec_find_byte_from(s, b, i) is None,
    ensures
        forall|t: int| i <= t < s.len() ==> s[t] != b,
    decreases s.len() - i,
{
    if i < s.len() {
        lemma_find_byte_none_charac(s, b, i + 1);
    }
}

} // verus!

verus! {

/// A 32-bit saturating value: counters clamp at `u32::MAX`.
pub open spec fn spec_sat_u32(n: int) -> int {
    if n > u32::MAX {
        u32::MAX as int
    } else {
        n
    }
}

/// The mark recognised at the leading position of one comment range by the
/// built-in matcher, if any.
pub open spec fn spec_range_mark(
    path: Seq<char>,
    lang: Seq<char>,
    line: Seq<u8>,
    line_no: int,
    sp: SyntaxSpecV,
    rg: (int, int),
) -> Option<MarkV> {
    match spec_leading_pos(line, rg.0, rg.1, sp) {
        Some(pos) => match spec_match_builtin(line.subrange(pos, rg.1)) {
            Some(w) => Some(
                MarkV {
                    path,
                    line: line_no,
                    column: spec_sat_u32(pos + 1),
                    mark: mark_word_chars(w),
                    language: lang,
                },
            ),
            None => None,
        },
        None => None,
    }
}

/// The marks of one line's comment ranges, in range order.
pub open spec fn spec_marks_of_ranges(
    path: Seq<char>,
    lang: Seq<char>,
    line: Seq<u8>,
    line_no: int,
    sp: SyntaxSpecV,
    ranges: Seq<(int, int)>,
) -> Seq<MarkV>
    decreases ranges.len(),
{
    if ranges.len() == 0 {
        Seq::<MarkV>::empty()
    } else {
        let head = match spec_range_mark(path, lang, line, line_no, sp, ranges[0]) {
            Some(m) => seq![m],
            None => Seq::<MarkV>::empty(),
        };
        head + spec_marks_of_ranges(path, lang, line, line_no, sp, ranges.drop_first())
    }
}

/// The marks of one line under the built-in matcher.
pub open spec fn spec_line_marks(
    path: Seq<char>,
    lang: Seq<char>,
    line: Seq<u8>,
    line_no: int,
    sp: SyntaxSpecV,
    st: TkSt,
) -> Seq<MarkV> {
    spec_marks_of_ranges(path, lang, line, line_no, sp, spec_line_ranges(line, sp, st).0)
}

/// A mark emitted by the custom-regex path: it stands at the leading
/// position of a comment range of the line and spells a canonical word up
/// to ASCII case.
pub open spec fn custom_mark_ok(
    m: MarkV,
    path: Seq<char>,
    lang: Seq<char>,
    line: Seq<u8>,
    line_no: int,
    sp: SyntaxSpecV,
    st: TkSt,
) -> bool {
    &&& m.path == path
    &&& m.language == lang
    &&& m.line == line_no
    &&& exists|ri: int, w: int| custom_mark_at(m, line, sp, st, ri, w)
}

pub open spec fn custom_mark_at(m: MarkV, line: Seq<u8>, sp: SyntaxSpecV, st: TkSt, ri: int, w: int) -> bool {
    let rgs = spec_line_ranges(line, sp, st).0;
    &&& 0 <= ri < rgs.len()
    &&& 0 <= w < 6
    &&& spec_leading_pos(line, rgs[ri].0, rgs[ri].1, sp) is Some
    &&& {
        let pos = spec_leading_pos(line, rgs[ri].0, rgs[ri].1, sp).unwrap();
        &&& m.column == spec_sat_u32(pos + 1)
        &&& 1 <= m.column
        &&& pos + mark_word_bytes(w).len() <= rgs[ri].1 <= line.len()
        &&& line.subrange(pos, pos + mark_word_bytes(w).len() as int).map_values(
            |b: u8| upper_byte(b),
        ) == mark_word_bytes(w)
        &&& m.mark == mark_word_chars(w)
    }
}

/// Without a mark-initial byte in the range no built-in word can match at
/// its leading position.
proof fn lemma_no_initial_no_mark(
    path: Seq<char>,
    lang: Seq<char>,
    line: Seq<u8>,
    line_no: int,
    sp: SyntaxSpecV,
    s: int,
    e: int,
)
    requires
        0 <= s <= e <= line.len(),
        !spec_contains_mark_initial(line, s, e),
    ensures
        spec_range_mark(path, lang, line, line_no, sp, (s, e)) is None,
{
    match spec_leading_pos(line, s, e, sp) {
        Some(pos) => {
            lemma_leading_pos_bounds(line, s, e, sp);
            let sub = line.subrange(pos, e);
            match spec_match_builtin(sub) {
                Some(w) => {
                    assert(0 <= w < 6);
                    let word = mark_word_bytes(w);
                    assert(sub.subrange(0, word.len() as int) == word);
                    assert(sub[0] == word[0]);
                    assert(line[pos] == sub[0]);
                    assert(word[0] == 69u8 || word[0] == 87u8 || word[0] == 70u8 || word[0]
                        == 84u8 || word[0] == 78u8 || word[0] == 73u8) by {
                        if w == 0 {
                        } else if w == 1 {
                        } else if w == 2 {
                        } else if w == 3 {
                        } else if w == 4 {
                        } else {
                        }
                    }
                    assert(spec_contains_mark_initial(line, s, e));
                },
                None => {},
            }
        },
        None => {},
    }
}

fn sat_col(pos: usize) -> (c: u32)
    ensures
        c == spec_sat_u32(pos + 1),
{
    if pos >= (u32::MAX as usize) {
        u32::MAX
    } else {
        (pos + 1) as u32
    }
}

/// Scan one line: compute its comment ranges, recognise marks at their
/// leading positions, and append them to `output`; `state` is advanced
/// for the next line.
pub fn scan_line(
    path: &str,
    language: &str,
    line: &[u8],
    line_no: u32,
    syntax: &SyntaxSpec,
    state: &mut BlockState,
    det: &Detection,
    output: &mut Vec<Mark>,
)
    requires
        syntax.wf(),
        old(state).wf(syntax),
    ensures
        final(state)@ == spec_line_ranges(line@, syntax@, old(state)@).1,
        final(state).wf(syntax),
        final(output)@.len() >= old(output)@.len(),
        final(output)@.take(old(output)@.len() as int) == old(output)@,
        forall|j: int|
            old(output)@.len() <= j < final(output)@.len() ==> {
                let m = (#[trigger] final(output)@[j])@;
                crate::constants::spec_is_canonical_mark(m.mark) && m.column >= 1 && m.line
                    == line_no
            },
        det.is_builtin() ==> marks_v(final(output)@) == marks_v(old(output)@) + spec_line_marks(
            path@,
            language@,
            line@,
            line_no as int,
            syntax@,
            old(state)@,
        ),
        !det.is_builtin() ==> forall|j: int|
            old(output)@.len() <= j < final(output)@.len() ==> custom_mark_ok(
                (#[trigger] final(output)@[j])@,
                path@,
                language@,
                line@,
                line_no as int,
                syntax@,
                old(state)@,
            ),
{
    let ghost pre_st = state@;
    let n_line = line.len();
    let ranges = find_comment_ranges(line, state, syntax);
    let ghost rgs = spec_line_ranges(line@, syntax@, pre_st).0;
    proof {
        lemma_line_ranges_bounds(line@, syntax@, pre_st);
    }
    let ghost base = output@;

    let mut ri: usize = 0;
    while ri < ranges.len()
        invariant
            syntax.wf(),
            rgs == spec_line_ranges(line@, syntax@, pre_st).0,
            crate::comments::ranges_v(ranges@) == rgs,
            ranges_within(rgs, 0, line@.len() as int),
            line@.len() <= usize::MAX,
            ri <= ranges@.len(),
            output@.len() >= base.len(),
            output@.take(base.len() as int) == base,
            forall|j: int|
                base.len() <= j < output@.len() ==> {
                    let m = (#[trigger] output@[j])@;
                    crate::constants::spec_is_canonical_mark(m.mark) && m.column >= 1 && m.line
                        == line_no
                },
            det.is_builtin() ==> marks_v(output@) == marks_v(base) + spec_marks_of_ranges(
                path@,
                language@,
                line@,
                line_no as int,
                syntax@,
                rgs.take(ri as int),
            ),
            !det.is_builtin() ==> forall|j: int|
                base.len() <= j < output@.len() ==> custom_mark_ok(
                    (#[trigger] output@[j])@,
                    path@,
                    language@,
                    line@,
                    line_no as int,
                    syntax@,
                    pre_st,
                ),
        decreases ranges@.len() - ri,
    {
        let s = ranges[ri].0;
        let e = ranges[ri].1;
        proof {
            assert(rgs[ri as int] == (s as int, e as int));
            assert(0 <= s as int <= e as int <= line@.len());
        }
        let ghost marks_before = output@;

        if contains_mark_initial(line, s, e) {
            match det {
                Detection::Builtin => {
                    match leading_mark_pos(line, s, e, syntax) {
                        Some(pos) => {
                            let seg = &line[pos..e];
                            proof {
                                assert(seg@ =~= line@.subrange(pos as int, e as int));
                            }
                            match match_builtin_mark(seg) {
                                Some(wn) => {
                                    let m = Mark {
                                        path: path.to_owned(),
                                        line: line_no,
                                        column: sat_col(pos),
                                        mark: wn.1,
                                        language: language.to_owned(),
                                    };
                                    output.push(m);
                                    proof {
                                        crate::constants::lemma_mark_word_chars_canonical(
                                            wn.0 as int,
                                        );
                                        assert(output@.take(base.len() as int) =~= base);
                                    }
                                },
                                None => {},
                            }
                        },
                        None => {},
                    }
                },
                Detection::Custom(re) => {
                    let hay = &line[s..e];
                    proof {
                        assert(hay@ =~= line@.subrange(s as int, e as int));
                    }
                    let found = regex_find_ranges(re, hay);
                    let mut fi: usize = 0;
                    while fi < found.len()
                        invariant
                            syntax.wf(),
                            fi <= found@.len(),
                            s <= e <= line@.len(),
                            line@.len() <= usize::MAX,
                            forall|i: int| 0 <= i < found@.len() ==> (#[trigger] found@[i]).0
                                <= found@[i].1 <= e - s,
                            rgs == spec_line_ranges(line@, syntax@, pre_st).0,
                            0 <= ri < rgs.len(),
                            rgs[ri as int] == (s as int, e as int),
                            output@.len() >= base.len(),
                            output@.take(base.len() as int) == base,
                            forall|j: int|
                                base.len() <= j < output@.len() ==> custom_mark_ok(
                                    (#[trigger] output@[j])@,
                                    path@,
                                    language@,
                                    line@,
                                    line_no as int,
                                    syntax@,
                                    pre_st,
                                ),
                            forall|j: int|
                                base.len() <= j < output@.len() ==> {
                                    let m = (#[trigger] output@[j])@;
                                    crate::constants::spec_is_canonical_mark(m.mark) && m.column
                                        >= 1 && m.line == line_no
                                },
                        decreases found@.len() - fi,
                    {
                        let fs = found[fi].0;
                        let fe = found[fi].1;
                        let match_start = s + fs;
                        let match_end = s + fe;
                        if is_leading_mark(line, s, e, match_start, syntax) {
                            let raw = &line[match_start..match_end];
                            proof {
                                assert(raw@ =~= line@.subrange(
                                    match_start as int,
                                    match_end as int,
                                ));
                            }
                            match crate::constants::normalize_mark_bytes(raw) {
                                Some(wn) => {
                                    let m = Mark {
                                        path: path.to_owned(),
                                        line: line_no,
                                        column: sat_col(match_start),
                                        mark: wn.1,
                                        language: language.to_owned(),
                                    };
                                    proof {
                                        lemma_leading_pos_bounds(
                                            line@,
                                            s as int,
                                            e as int,
                                            syntax@,
                                        );
                                        assert(match_start < e);
                                    }
                                    output.push(m);
                                    proof {
                                        let mv = m@;
                                        assert(mv.column == spec_sat_u32(match_start + 1));
                                        assert(custom_mark_at(
                                            mv,
                                            line@,
                                            syntax@,
                                            pre_st,
                                            ri as int,
                                            wn.0 as int,
                                        )) by {
                                            assert(raw@.map_values(|b: u8| upper_byte(b))
                                                == mark_word_bytes(wn.0 as int));
                                            assert(raw@.len() == mark_word_bytes(
                                                wn.0 as int,
                                            ).len());
                                        };
                                        assert(custom_mark_ok(
                                            mv,
                                            path@,
                                            language@,
                                            line@,
                                            line_no as int,
                                            syntax@,
                                            pre_st,
                                        ));
                                        crate::constants::lemma_mark_word_chars_canonical(
                                            wn.0 as int,
                                        );
                                        assert(output@.take(base.len() as int) =~= base);
                                    }
                                },
                                None => {},
                            }
                        }
                        fi = fi + 1;
                    }
                },
            }
        } else {
            proof {
                if det.is_builtin() {
                    lemma_no_initial_no_mark(
                        path@,
                        language@,
                        line@,
                        line_no as int,
                        syntax@,
                        s as int,
                        e as int,
                    );
                }
            }
        }

        proof {
            if det.is_builtin() {
                lemma_marks_of_ranges_take(
                    path@,
                    language@,
                    line@,
                    line_no as int,
                    syntax@,
                    rgs,
                    ri as int,
                );
                if marks_before != output@ {
                    assert(output@.take(base.len() as int) =~= base);
                    assert(marks_v(output@) =~= marks_v(marks_before).push(
                        output@.last()@,
                    ));
                }
            }
        }
        ri = ri + 1;
    }
    proof {
        assert(rgs.take(rgs.len() as int) =~= rgs);
    }
}

/// One step of the range fold.
proof fn lemma_marks_of_ranges_take(
    path: Seq<char>,
    lang: Seq<char>,
    line: Seq<u8>,
    line_no: int,
    sp: SyntaxSpecV,
    ranges: Seq<(int, int)>,
    i: int,
)
    requires
        0 <= i < ranges.len(),
    ensures
        spec_marks_of_ranges(path, lang, line, line_no, sp, ranges.take(i + 1))
            == spec_marks_of_ranges(path, lang, line, line_no, sp, ranges.take(i)) + match
            spec_range_mark(path, lang, line, line_no, sp, ranges[i]) {
            Some(m) => seq![m],
            None => Seq::<MarkV>::empty(),
        },
    decreases i,
{
    let head = match spec_range_mark(path, lang, line, line_no, sp, ranges[0]) {
        Some(m) => seq![m],
        None => Seq::<MarkV>::empty(),
    };
    let step = match spec_range_mark(path, lang, line, line_no, sp, ranges[i]) {
        Some(m) => seq![m],
        None => Seq::<MarkV>::empty(),
    };
    if i == 0 {
        assert(ranges.take(1).drop_first() =~= ranges.take(0));
        assert(ranges.take(1)[0] == ranges[0]);
        assert(ranges.take(0).len() == 0);
        assert(spec_marks_of_ranges(path, lang, line, line_no, sp, ranges.take(0)) =~= Seq::<
            MarkV,
        >::empty());
        assert(spec_marks_of_ranges(path, lang, line, line_no, sp, ranges.take(1)) =~= step);
        assert(spec_marks_of_ranges(path, lang, line, line_no, sp, ranges.take(0)) + step =~= step);
    } else {
        let rs2 = ranges.drop_first();
        lemma_marks_of_ranges_take(path, lang, line, line_no, sp, rs2, i - 1);
        assert(rs2[i - 1] == ranges[i]);
        assert(ranges.take(i + 1)[0] == ranges[0]);
        assert(ranges.take(i)[0] == ranges[0]);
        assert(ranges.take(i + 1).drop_first() =~= rs2.take(i));
        assert(ranges.take(i).drop_first() =~= rs2.take(i - 1));
        assert(spec_marks_of_ranges(path, lang, line, line_no, sp, ranges.take(i + 1)) == head
            + spec_marks_of_ranges(path, lang, line, line_no, sp, rs2.take(i)));
        assert(spec_marks_of_ranges(path, lang, line, line_no, sp, ranges.take(i)) == head
            + spec_marks_of_ranges(path, lang, line, line_no, sp, rs2.take(i - 1)));
        assert(head + (spec_marks_of_ranges(path, lang, line, line_no, sp, rs2.take(i - 1))
            + step) =~= (head + spec_marks_of_ranges(path, lang, line, line_no, sp, rs2.take(i - 1)))
            + step);
    }
}

} // verus!

verus! {

/// The lines of a file's bytes: each line keeps its trailing newline; a
/// final fragment without a newline is still a line.
pub open spec fn spec_split_lines(c: Seq<u8>) -> Seq<Seq<u8>>
    decreases c.len()
        via spec_split_lines_decreases
{
    if c.len() == 0 {
        Seq::<Seq<u8>>::empty()
    } else {
        match spec_find_byte_from(c, 10u8, 0) {
            Some(i) => seq![c.subrange(0, i + 1)] + spec_split_lines(
                c.subrange(i + 1, c.len() as int),
            ),
            None => seq![c],
        }
    }
}

#[via_fn]
proof fn spec_split_lines_decreases(c: Seq<u8>) {
    if c.len() > 0 {
        if spec_find_byte_from(c, 10u8, 0) is Some {
            lemma_find_byte_bounds(c, 10u8, 0);
        }
    }
}

/// The tokeniser state before line `i` of a file.
pub open spec fn spec_line_state(lines: Seq<Seq<u8>>, sp: SyntaxSpecV, i: int) -> TkSt
    decreases i,
{
    if i <= 0 {
        spec_initial_state()
    } else {
        spec_line_ranges(lines[i - 1], sp, spec_line_state(lines, sp, i - 1)).1
    }
}

/// The marks of the first `n` lines of a file under the built-in matcher,
/// with 1-based line numbers that saturate at `u32::MAX`.
pub open spec fn spec_scan_lines_upto(
    path: Seq<char>,
    lang: Seq<char>,
    lines: Seq<Seq<u8>>,
    sp: SyntaxSpecV,
    n: int,
) -> Seq<MarkV>
    decreases n,
{
    if n <= 0 {
        Seq::<MarkV>::empty()
    } else {
        spec_scan_lines_upto(path, lang, lines, sp, n - 1) + spec_line_marks(
            path,
            lang,
            lines[n - 1],
            spec_sat_u32(n),
            sp,
            spec_line_state(lines, sp, n - 1),
        )
    }
}

/// The marks of a whole file under the built-in matcher, or nothing when
/// the path's language is unsupported.
pub open spec fn spec_scan_file_marks(path: Seq<char>, content: Seq<u8>) -> Seq<MarkV> {
    match crate::syntax::spec_syntax_for(path) {
        Some(pair) => {
            let lines = spec_split_lines(content);
            spec_scan_lines_upto(path, pair.1, lines, pair.0, lines.len() as int)
        },
        None => Seq::<MarkV>::empty(),
    }
}

/// What one file scan did: `Completed`, or `Skipped` before any line was
/// read, or `Cancelled` between lines.
#[derive(Clone, Copy, Debug, Eq, PartialEq, Structural)]
pub enum ScanOutcome {
    Completed,
    Skipped(SkipReason),
    Cancelled,
}

/// The mark stands at the leading position of a comment range of one of
/// the first `n` lines of the file, and spells a canonical word up to
/// ASCII case.
pub open spec fn custom_mark_somewhere(m: MarkV, path: Seq<char>, content: Seq<u8>, n: int) -> bool {
    let pair = crate::syntax::spec_syntax_for(path).unwrap();
    let lines = spec_split_lines(content);
    exists|i: int|
        0 <= i < n && custom_mark_ok(
            m,
            path,
            pair.1,
            #[trigger] lines[i],
            spec_sat_u32(i + 1),
            pair.0,
            spec_line_state(lines, pair.0, i),
        )
}

proof fn lemma_custom_somewhere_mono(m: MarkV, path: Seq<char>, content: Seq<u8>, n1: int, n2: int)
    requires
        n1 <= n2,
        custom_mark_somewhere(m, path, content, n1),
    ensures
        custom_mark_somewhere(m, path, content, n2),
{
    let pair = crate::syntax::spec_syntax_for(path).unwrap();
    let lines = spec_split_lines(content);
    let i0 = choose|i: int|
        0 <= i < n1 && custom_mark_ok(
            m,
            path,
            pair.1,
            #[trigger] lines[i],
            spec_sat_u32(i + 1),
            pair.0,
            spec_line_state(lines, pair.0, i),
        );
    assert(0 <= i0 < n2 && custom_mark_ok(
        m,
        path,
        pair.1,
        lines[i0],
        spec_sat_u32(i0 + 1),
        pair.0,
        spec_line_state(lines, pair.0, i0),
    ));
}

/// The result of scanning the first `n` lines of a supported file.
pub open spec fn scan_file_steps(
    path: Seq<char>,
    content: Seq<u8>,
    builtin: bool,
    old_marks: Seq<MarkV>,
    new_marks: Seq<MarkV>,
    r: ScanOutcome,
    may_cancel: bool,
    n: int,
) -> bool {
    let pair = crate::syntax::spec_syntax_for(path).unwrap();
    let lines = spec_split_lines(content);
    &&& 0 <= n <= lines.len()
    &&& (r == ScanOutcome::Completed || r == ScanOutcome::Cancelled)
    &&& (r == ScanOutcome::Completed ==> n == lines.len())
    &&& (!may_cancel ==> r == ScanOutcome::Completed)
    &&& (builtin ==> new_marks == old_marks + spec_scan_lines_upto(path, pair.1, lines, pair.0, n))
    &&& (!builtin ==> new_marks.len() >= old_marks.len() && new_marks.take(
        old_marks.len() as int,
    ) == old_marks && forall|j: int|
        old_marks.len() <= j < new_marks.len() ==> custom_mark_somewhere(
            #[trigger] new_marks[j],
            path,
            content,
            n,
        ))
}

fn poll_cancelled(cancel: Option<&CancellationToken>) -> (r: bool)
    ensures
        cancel is None ==> !r,
{
    match cancel {
        Some(token) => token.is_cancelled(),
        None => false,
    }
}


/// Package the scan loop's invariants into the per-file postcondition.
proof fn lemma_scan_file_steps_bridge(
    path: Seq<char>,
    content: Seq<u8>,
    builtin: bool,
    base: Seq<Mark>,
    out: Seq<Mark>,
    r: ScanOutcome,
    may_cancel: bool,
    k: int,
)
    requires
        crate::syntax::spec_syntax_for(path) is Some,
        0 <= k <= spec_split_lines(content).len(),
        r == ScanOutcome::Completed || r == ScanOutcome::Cancelled,
        r == ScanOutcome::Completed ==> k == spec_split_lines(content).len(),
        !may_cancel ==> r == ScanOutcome::Completed,
        out.len() >= base.len(),
        out.take(base.len() as int) == base,
        builtin ==> marks_v(out) == marks_v(base) + spec_scan_lines_upto(
            path,
            crate::syntax::spec_syntax_for(path).unwrap().1,
            spec_split_lines(content),
            crate::syntax::spec_syntax_for(path).unwrap().0,
            k,
        ),
        !builtin ==> forall|j: int|
            base.len() <= j < out.len() ==> custom_mark_somewhere(
                (#[trigger] out[j])@,
                path,
                content,
                k,
            ),
    ensures
        scan_file_steps(path, content, builtin, marks_v(base), marks_v(out), r, may_cancel, k),
{
    let pair = crate::syntax::spec_syntax_for(path).unwrap();
    let lines = spec_split_lines(content);
    assert(marks_v(out).len() == out.len());
    assert(marks_v(base).len() == base.len());
    assert forall|j: int| 0 <= j < base.len() implies marks_v(out)[j] == marks_v(base)[j] by {
        assert(out.take(base.len() as int)[j] == out[j]);
        assert(out[j] == base[j]);
    }
    assert(marks_v(out).take(base.len() as int) =~= marks_v(base));
    if !builtin {
        assert forall|j: int|
            marks_v(base).len() <= j < marks_v(out).len() implies custom_mark_somewhere(
            #[trigger] marks_v(out)[j],
            path,
            content,
            k,
        ) by {
            assert(marks_v(out)[j] == out[j]@);
        }
    }
}

/// Scan one in-memory file: split it into lines, stream them through the
/// tokeniser, and append every recognised mark to `output`. The
/// cancellation token, when present, is polled between lines; marks
/// already emitted are kept.
pub fn scan_file(
    path: &str,
    content: &[u8],
    det: &Detection,
    cancel: Option<&CancellationToken>,
    output: &mut Vec<Mark>,
) -> (r: ScanOutcome)
    ensures
        final(output)@.len() >= old(output)@.len(),
        final(output)@.take(old(output)@.len() as int) == old(output)@,
        forall|j: int|
            old(output)@.len() <= j < final(output)@.len() ==> {
                let m = (#[trigger] final(output)@[j])@;
                crate::constants::spec_is_canonical_mark(m.mark) && m.column >= 1 && m.line >= 1
            },
        crate::syntax::spec_syntax_for(path@) is None ==> r == ScanOutcome::Skipped(
            SkipReason::UnsupportedSyntax,
        ) && final(output)@ == old(output)@,
        crate::syntax::spec_syntax_for(path@) is Some ==> exists|n: int|
            #[trigger] scan_file_steps(
                path@,
                content@,
                det.is_builtin(),
                marks_v(old(output)@),
                marks_v(final(output)@),
                r,
                cancel is Some,
                n,
            ),
        (crate::syntax::spec_syntax_for(path@) is Some && det.is_builtin() && cancel is None)
            ==> r == ScanOutcome::Completed && marks_v(final(output)@) == marks_v(old(output)@)
            + spec_scan_file_marks(path@, content@),
{
    let info = match crate::syntax::syntax_for_path(path) {
        Some(info) => info,
        None => {
            return ScanOutcome::Skipped(SkipReason::UnsupportedSyntax);
        },
    };
    let syntax = &info.syntax;
    let language: &str = info.language.as_str();
    let ghost pair = crate::syntax::spec_syntax_for(path@).unwrap();
    let ghost lines = spec_split_lines(content@);
    let ghost base = output@;

    let mut state = BlockState::new();
    let mut start: usize = 0;
    let mut line_no: u32 = 0;
    let ghost mut k: int = 0;
    let len = content.len();
    proof {
        assert(content@.subrange(0, len as int) =~= content@);
        assert(lines.skip(0) =~= lines);
        assert(output@.take(base.len() as int) =~= base);
    }

    while start < len
        invariant
            len == content@.len() <= usize::MAX,
            syntax.wf(),
            state.wf(syntax),
            syntax@ == pair.0,
            language@ == pair.1,
            lines == spec_split_lines(content@),
            start <= len,
            0 <= k <= lines.len(),
            spec_split_lines(content@.subrange(start as int, len as int)) =~= lines.skip(k),
            (start == len) == (k == lines.len()),
            state@ == spec_line_state(lines, pair.0, k),
            line_no == spec_sat_u32(k),
            base == old(output)@,
            crate::syntax::spec_syntax_for(path@) is Some,
            pair == crate::syntax::spec_syntax_for(path@).unwrap(),
            output@.len() >= base.len(),
            output@.take(base.len() as int) == base,
            forall|j: int|
                base.len() <= j < output@.len() ==> {
                    let m = (#[trigger] output@[j])@;
                    crate::constants::spec_is_canonical_mark(m.mark) && m.column >= 1 && m.line
                        >= 1
                },
            det.is_builtin() ==> marks_v(output@) == marks_v(base) + spec_scan_lines_upto(
                path@,
                pair.1,
                lines,
                pair.0,
                k,
            ),
            output@.len() >= base.len(),
            !det.is_builtin() ==> forall|j: int|
                base.len() <= j < output@.len() ==> custom_mark_somewhere(
                    (#[trigger] output@[j])@,
                    path@,
                    content@,
                    k,
                ),
        decreases len - start,
    {
        if poll_cancelled(cancel) {
            proof {
                lemma_scan_file_steps_bridge(
                    path@,
                    content@,
                    det.is_builtin(),
                    base,
                    output@,
                    ScanOutcome::Cancelled,
                    cancel is Some,
                    k,
                );
            }
            return ScanOutcome::Cancelled;
        }

        let rest = &content[start..len];
        proof {
            assert(rest@ =~= content@.subrange(start as int, len as int));
        }
        let nl = find_byte(rest, 10);
        let line_end: usize = match nl {
            Some(i) => {
                proof {
                    lemma_find_byte_bounds(rest@, 10u8, 0);
                }
                start + i + 1
            },
            None => len,
        };
        let line = &content[start..line_end];
        proof {
            assert(line@ =~= content@.subrange(start as int, line_end as int));
            let suffix = content@.subrange(start as int, len as int);
            assert(suffix.len() > 0);
            // One unfolding of the line splitter on the remaining bytes.
            match nl {
                Some(i) => {
                    assert(spec_split_lines(suffix) == seq![suffix.subrange(0, i + 1)]
                        + spec_split_lines(suffix.subrange(i + 1, suffix.len() as int)));
                    assert(suffix.subrange(0, i + 1) =~= line@);
                    assert(suffix.subrange(i + 1, suffix.len() as int) =~= content@.subrange(
                        line_end as int,
                        len as int,
                    ));
                },
                None => {
                    assert(spec_split_lines(suffix) == seq![suffix]);
                    assert(suffix =~= line@);
                    assert(content@.subrange(line_end as int, len as int) =~= Seq::<u8>::empty());
                },
            }
            assert(lines.skip(k)[0] == line@);
            assert(lines[k] == line@);
            assert(lines.skip(k).drop_first() =~= lines.skip(k + 1));
            assert(spec_split_lines(content@.subrange(line_end as int, len as int)) =~= lines.skip(
                k + 1,
            ));
        }

        line_no = if line_no < u32::MAX {
            line_no + 1
        } else {
            line_no
        };
        proof {
            assert(line_no == spec_sat_u32(k + 1));
        }

        let ghost out_before = output@;
        let ghost state_before = state@;
        scan_line(path, language, line, line_no, syntax, &mut state, det, output);

        proof {
            let kk = k;
            k = k + 1;
            assert(output@.take(base.len() as int) =~= base);
            assert forall|j: int| base.len() <= j < output@.len() implies {
                let m = (#[trigger] output@[j])@;
                crate::constants::spec_is_canonical_mark(m.mark) && m.column >= 1 && m.line >= 1
            } by {
                if j < out_before.len() {
                    assert(output@[j] == out_before[j]) by {
                        assert(output@.take(out_before.len() as int) == out_before);
                        assert(output@.take(out_before.len() as int)[j] == output@[j]);
                    }
                }
            }
            if !det.is_builtin() {
                assert forall|j: int|
                    base.len() <= j < output@.len() implies custom_mark_somewhere(
                    (#[trigger] output@[j])@,
                    path@,
                    content@,
                    k,
                ) by {
                    if j < out_before.len() {
                        assert(output@[j] == out_before[j]) by {
                            assert(output@.take(out_before.len() as int) == out_before);
                            assert(output@.take(out_before.len() as int)[j] == output@[j]);
                        }
                        lemma_custom_somewhere_mono(output@[j]@, path@, content@, kk, k);
                    } else {
                        assert(custom_mark_ok(
                            output@[j]@,
                            path@,
                            pair.1,
                            lines[kk],
                            spec_sat_u32(kk + 1),
                            pair.0,
                            spec_line_state(lines, pair.0, kk),
                        ));
                        assert(custom_mark_somewhere(output@[j]@, path@, content@, k)) by {
                            assert(0 <= kk < k && custom_mark_ok(
                                output@[j]@,
                                path@,
                                pair.1,
                                lines[kk],
                                spec_sat_u32(kk + 1),
                                pair.0,
                                spec_line_state(lines, pair.0, kk),
                            ));
                        }
                    }
                }
            }
        }
        start = line_end;
    }

    proof {
        lemma_scan_file_steps_bridge(
            path@,
            content@,
            det.is_builtin(),
            base,
            output@,
            ScanOutcome::Completed,
            cancel is Some,
            k,
        );
    }
    ScanOutcome::Completed
}

} // verus!

verus! {

/// The state carried into each line of a file is well-formed.
pub proof fn lemma_line_state_wf(lines: Seq<Seq<u8>>, sp: SyntaxSpecV, i: int)
    requires
        crate::comments::wf_syntax_v(sp),
        0 <= i,
    ensures
        crate::comments::wf_state_v(spec_line_state(lines, sp, i), sp),
    decreases i,
{
    if i > 0 {
        lemma_line_state_wf(lines, sp, i - 1);
        crate::comments::lemma_line_ranges_wf(lines[i - 1], sp, spec_line_state(lines, sp, i - 1));
    }
}

/// Every mark of one line spells a canonical word and has 1-based
/// positions.
proof fn lemma_range_marks_canonical(
    path: Seq<char>,
    lang: Seq<char>,
    line: Seq<u8>,
    line_no: int,
    sp: SyntaxSpecV,
    ranges: Seq<(int, int)>,
)
    requires
        line_no >= 1,
        ranges_within(ranges, 0, line.len() as int),
    ensures
        forall|i: int|
            0 <= i < spec_marks_of_ranges(path, lang, line, line_no, sp, ranges).len() ==> {
                let m = #[trigger] spec_marks_of_ranges(path, lang, line, line_no, sp, ranges)[i];
                crate::constants::spec_is_canonical_mark(m.mark) && m.line >= 1 && m.column >= 1
                    && m.path == path && m.language == lang
            },
    decreases ranges.len(),
{
    if ranges.len() > 0 {
        assert(ranges_within(ranges.drop_first(), 0, line.len() as int)) by {
            assert(forall|j: int|
                0 <= j < ranges.drop_first().len() ==> ranges.drop_first()[j] == ranges[j + 1]);
        }
        lemma_range_marks_canonical(path, lang, line, line_no, sp, ranges.drop_first());
        let res = spec_marks_of_ranges(path, lang, line, line_no, sp, ranges);
        let rest = spec_marks_of_ranges(path, lang, line, line_no, sp, ranges.drop_first());
        let rg = ranges[0];
        let head_ok: bool = match spec_range_mark(path, lang, line, line_no, sp, rg) {
            Some(m) => {
                assert(0 <= rg.0 <= rg.1 <= line.len());
                lemma_leading_pos_bounds(line, rg.0, rg.1, sp);
                let pos = spec_leading_pos(line, rg.0, rg.1, sp).unwrap();
                assert(m.column == spec_sat_u32(pos + 1));
                assert(m.column >= 1);
                let w = spec_match_builtin(line.subrange(pos, rg.1)).unwrap();
                assert(m.mark == mark_word_chars(w));
                assert(crate::constants::spec_is_canonical_mark(mark_word_chars(w))) by {
                    if w == 0 {
                    } else if w == 1 {
                    } else if w == 2 {
                    } else if w == 3 {
                    } else if w == 4 {
                    } else {
                    }
                }
                true
            },
            None => true,
        };
        assert(head_ok);
        assert forall|i: int| 0 <= i < res.len() implies {
            let m = #[trigger] res[i];
            crate::constants::spec_is_canonical_mark(m.mark) && m.line >= 1 && m.column >= 1
                && m.path == path && m.language == lang
        } by {
            match spec_range_mark(path, lang, line, line_no, sp, rg) {
                Some(m0) => {
                    assert(res == seq![m0] + rest);
                    if i == 0 {
                        assert(res[0] == m0);
                    } else {
                        assert(res[i] == rest[i - 1]);
                    }
                },
                None => {
                    assert(res == Seq::<MarkV>::empty() + rest);
                    assert(res[i] == rest[i]);
                },
            }
        }
    }
}

proof fn lemma_scan_lines_canonical(
    path: Seq<char>,
    lang: Seq<char>,
    lines: Seq<Seq<u8>>,
    sp: SyntaxSpecV,
    n: int,
)
    requires
        crate::comments::wf_syntax_v(sp),
    ensures
        forall|i: int|
            0 <= i < spec_scan_lines_upto(path, lang, lines, sp, n).len() ==> {
                let m = #[trigger] spec_scan_lines_upto(path, lang, lines, sp, n)[i];
                crate::constants::spec_is_canonical_mark(m.mark) && m.line >= 1 && m.column >= 1
                    && m.path == path && m.language == lang
            },
    decreases n,
{
    if n > 0 {
        lemma_scan_lines_canonical(path, lang, lines, sp, n - 1);
        lemma_line_state_wf(lines, sp, n - 1);
        crate::comments::lemma_line_ranges_bounds(
            lines[n - 1],
            sp,
            spec_line_state(lines, sp, n - 1),
        );
        lemma_range_marks_canonical(
            path,
            lang,
            lines[n - 1],
            spec_sat_u32(n),
            sp,
            spec_line_ranges(lines[n - 1], sp, spec_line_state(lines, sp, n - 1)).0,
        );
        let res = spec_scan_lines_upto(path, lang, lines, sp, n);
        let prev = spec_scan_lines_upto(path, lang, lines, sp, n - 1);
        let this = spec_line_marks(
            path,
            lang,
            lines[n - 1],
            spec_sat_u32(n),
            sp,
            spec_line_state(lines, sp, n - 1),
        );
        assert(res == prev + this);
        assert forall|i: int| 0 <= i < res.len() implies {
            let m = #[trigger] res[i];
            crate::constants::spec_is_canonical_mark(m.mark) && m.line >= 1 && m.column >= 1
                && m.path == path && m.language == lang
        } by {
            if i < prev.len() {
                assert(res[i] == prev[i]);
            } else {
                assert(res[i] == this[i - prev.len()]);
            }
        }
    }
}

/// Every mark a file scan emits spells a canonical word, has 1-based
/// positions, and carries the file's path and language tag.
pub proof fn lemma_scan_file_marks_canonical(path: Seq<char>, content: Seq<u8>)
    ensures
        forall|i: int|
            0 <= i < spec_scan_file_marks(path, content).len() ==> {
                let m = #[trigger] spec_scan_file_marks(path, content)[i];
                crate::constants::spec_is_canonical_mark(m.mark) && m.line >= 1 && m.column >= 1
                    && m.path == path
            },
{
    match crate::syntax::spec_syntax_for(path) {
        Some(pair) => {
            crate::syntax::lemma_syntax_for_wf(path);
            let lines = spec_split_lines(content);
            lemma_scan_lines_canonical(path, pair.1, lines, pair.0, lines.len() as int);
        },
        None => {},
    }
}

} // verus!

verus! {

/// The mark's word stands in `line`: at some position `pos` the exact
/// uppercase bytes of the canonical word appear, the mark's column is the
/// 1-based (saturating) image of `pos`, and its line number is the
/// saturating image of `n`.
pub open spec fn mark_word_at(m: MarkV, line: Seq<u8>, n: int) -> bool {
    &&& m.line == spec_sat_u32(n)
    &&& exists|w: int, pos: int|
        0 <= w < 6 && 0 <= pos && m.mark == mark_word_chars(w) && m.column == spec_sat_u32(pos + 1)
            && pos + mark_word_bytes(w).len() <= line.len() && #[trigger] line.subrange(
            pos,
            pos + mark_word_bytes(w).len() as int,
        ) == mark_word_bytes(w)
}

proof fn lemma_range_marks_locate(
    path: Seq<char>,
    lang: Seq<char>,
    line: Seq<u8>,
    line_no: int,
    sp: SyntaxSpecV,
    ranges: Seq<(int, int)>,
)
    requires
        1 <= line_no <= u32::MAX,
        ranges_within(ranges, 0, line.len() as int),
    ensures
        forall|i: int|
            0 <= i < spec_marks_of_ranges(path, lang, line, line_no, sp, ranges).len()
                ==> mark_word_at(
                #[trigger] spec_marks_of_ranges(path, lang, line, line_no, sp, ranges)[i],
                line,
                line_no,
            ),
    decreases ranges.len(),
{
    if ranges.len() > 0 {
        assert(ranges_within(ranges.drop_first(), 0, line.len() as int)) by {
            assert(forall|j: int|
                0 <= j < ranges.drop_first().len() ==> ranges.drop_first()[j] == ranges[j + 1]);
        }
        lemma_range_marks_locate(path, lang, line, line_no, sp, ranges.drop_first());
        let res = spec_marks_of_ranges(path, lang, line, line_no, sp, ranges);
        let rest = spec_marks_of_ranges(path, lang, line, line_no, sp, ranges.drop_first());
        let rg = ranges[0];
        match spec_range_mark(path, lang, line, line_no, sp, rg) {
            Some(m0) => {
                assert(0 <= rg.0 <= rg.1 <= line.len());
                lemma_leading_pos_bounds(line, rg.0, rg.1, sp);
                let pos = spec_leading_pos(line, rg.0, rg.1, sp).unwrap();
                let w = spec_match_builtin(line.subrange(pos, rg.1)).unwrap();
                assert(spec_word_prefix(line.subrange(pos, rg.1), w));
                assert(line.subrange(pos, rg.1).subrange(0, mark_word_bytes(w).len() as int)
                    =~= line.subrange(pos, pos + mark_word_bytes(w).len() as int));
                assert(mark_word_at(m0, line, line_no)) by {
                    assert(0 <= w < 6 && 0 <= pos && m0.mark == mark_word_chars(w) && m0.column
                        == spec_sat_u32(pos + 1) && pos + mark_word_bytes(w).len() <= line.len()
                        && line.subrange(pos, pos + mark_word_bytes(w).len() as int)
                        == mark_word_bytes(w));
                }
                assert(res == seq![m0] + rest);
                assert forall|i: int| 0 <= i < res.len() implies mark_word_at(
                    #[trigger] res[i],
                    line,
                    line_no,
                ) by {
                    if i == 0 {
                        assert(res[0] == m0);
                    } else {
                        assert(res[i] == rest[i - 1]);
                    }
                }
            },
            None => {
                assert(res == Seq::<MarkV>::empty() + rest);
                assert forall|i: int| 0 <= i < res.len() implies mark_word_at(
                    #[trigger] res[i],
                    line,
                    line_no,
                ) by {
                    assert(res[i] == rest[i]);
                }
            },
        }
    }
}

proof fn lemma_scan_lines_locate(
    path: Seq<char>,
    lang: Seq<char>,
    lines: Seq<Seq<u8>>,
    sp: SyntaxSpecV,
    n: int,
)
    requires
        crate::comments::wf_syntax_v(sp),
        n <= lines.len(),
    ensures
        forall|i: int|
            0 <= i < spec_scan_lines_upto(path, lang, lines, sp, n).len() ==> {
                let m = #[trigger] spec_scan_lines_upto(path, lang, lines, sp, n)[i];
                &&& 1 <= m.line <= lines.len()
                &&& (m.line < u32::MAX ==> mark_word_at(m, lines[m.line - 1], m.line))
            },
    decreases n,
{
    if n > 0 {
        lemma_scan_lines_locate(path, lang, lines, sp, n - 1);
        lemma_line_state_wf(lines, sp, n - 1);
        crate::comments::lemma_line_ranges_bounds(
            lines[n - 1],
            sp,
            spec_line_state(lines, sp, n - 1),
        );
        lemma_range_marks_locate(
            path,
            lang,
            lines[n - 1],
            spec_sat_u32(n),
            sp,
            spec_line_ranges(lines[n - 1], sp, spec_line_state(lines, sp, n - 1)).0,
        );
        let res = spec_scan_lines_upto(path, lang, lines, sp, n);
        let prev = spec_scan_lines_upto(path, lang, lines, sp, n - 1);
        let this = spec_line_marks(
            path,
            lang,
            lines[n - 1],
            spec_sat_u32(n),
            sp,
            spec_line_state(lines, sp, n - 1),
        );
        assert(res == prev + this);
        assert forall|i: int| 0 <= i < res.len() implies {
            let m = #[trigger] res[i];
            &&& 1 <= m.line <= lines.len()
            &&& (m.line < u32::MAX ==> mark_word_at(m, lines[m.line - 1], m.line))
        } by {
            if i < prev.len() {
                assert(res[i] == prev[i]);
            } else {
                assert(res[i] == this[i - prev.len()]);
                let m = res[i];
                assert(mark_word_at(m, lines[n - 1], spec_sat_u32(n)));
                assert(m.line == spec_sat_u32(spec_sat_u32(n)));
                assert(m.line == spec_sat_u32(n));
                if m.line < u32::MAX {
                    assert(m.line == n);
                }
            }
        }
    }
}

/// Every mark a file scan emits names the byte where its word begins: the
/// canonical word's bytes stand in the mark's line at its column (for
/// positions that fit their 32-bit counters unsaturated).
pub proof fn lemma_scan_file_marks_locate(path: Seq<char>, content: Seq<u8>)
    ensures
        forall|i: int|
            0 <= i < spec_scan_file_marks(path, content).len() ==> {
                let m = #[trigger] spec_scan_file_marks(path, content)[i];
                &&& 1 <= m.line <= spec_split_lines(content).len()
                &&& (m.line < u32::MAX ==> mark_word_at(
                    m,
                    spec_split_lines(content)[m.line - 1],
                    m.line,
                ))
            },
{
    match crate::syntax::spec_syntax_for(path) {
        Some(pair) => {
            crate::syntax::lemma_syntax_for_wf(path);
            let lines = spec_split_lines(content);
            lemma_scan_lines_locate(path, pair.1, lines, pair.0, lines.len() as int);
        },
        None => {},
    }
}

} // verus!
