use vstd::prelude::*;

verus! {

/// One string delimiter of a language: its token bytes, whether newlines may
/// appear inside the string, and whether backslash escapes the delimiter.
#[derive(Clone, Debug)]
pub struct StringDelim {
    pub token: Vec<u8>,
    pub multiline: bool,
    pub escape: bool,
}

/// A language's comment and string syntax. Delimiters are listed
/// longest-first so longer tokens win over their prefixes.
#[derive(Clone, Debug)]
pub struct SyntaxSpec {
    pub line_comment: Option<Vec<u8>>,
    pub block_comment: Option<(Vec<u8>, Vec<u8>)>,
    pub strings: Vec<StringDelim>,
    pub raw_string: bool,
}

/// A syntax profile together with its canonical language tag.
#[derive(Clone, Debug)]
pub struct SyntaxInfo {
    pub syntax: SyntaxSpec,
    pub language: String,
}

/// Ghost image of a string delimiter.
#[verifier::ext_equal]
pub ghost struct DelimV {
    pub token: Seq<u8>,
    pub multiline: bool,
    pub escape: bool,
}

/// Ghost image of a syntax profile.
#[verifier::ext_equal]
pub ghost struct SyntaxSpecV {
    pub line_comment: Option<Seq<u8>>,
    pub block_comment: Option<(Seq<u8>, Seq<u8>)>,
    pub strings: Seq<DelimV>,
    pub raw_string: bool,
}

impl View for StringDelim {
    type V = DelimV;

    open spec fn view(&self) -> DelimV {
        DelimV { token: self.token@, multiline: self.multiline, escape: self.escape }
    }
}

impl View for SyntaxSpec {
    type V = SyntaxSpecV;

    open spec fn view(&self) -> SyntaxSpecV {
        SyntaxSpecV {
            line_comment: match self.line_comment {
                Some(t) => Some(t@),
                None => None,
            },
            block_comment: match self.block_comment {
                Some(p) => Some((p.0@, p.1@)),
                None => None,
            },
            strings: self.strings@.map_values(|d: StringDelim| d@),
            raw_string: self.raw_string,
        }
    }
}

/// Every delimiter token of a well-formed profile is non-empty, so the
/// tokeniser always advances.
pub open spec fn wf_syntax_v(sp: SyntaxSpecV) -> bool {
    &&& match sp.line_comment {
        Some(t) => t.len() >= 1,
        None => true,
    }
    &&& match sp.block_comment {
        Some(p) => p.0.len() >= 1 && p.1.len() >= 1,
        None => true,
    }
    &&& forall|k: int| 0 <= k < sp.strings.len() ==> (#[trigger] sp.strings[k]).token.len() >= 1
}

impl SyntaxSpec {
    pub open spec fn wf(&self) -> bool {
        wf_syntax_v(self@)
    }
}

/// True when `needle` occurs in `line` starting exactly at `i`.
pub open spec fn spec_starts_with(line: Seq<u8>, needle: Seq<u8>, i: int) -> bool {
    0 <= i && i + needle.len() <= line.len() && line.subrange(i, i + needle.len() as int)
        == needle
}

/// First position `>= from` where the non-empty `needle` occurs in `line`.
pub open spec fn spec_find_sub(line: Seq<u8>, needle: Seq<u8>, from: int) -> Option<int>
    decreases line.len() - from,
{
    if needle.len() == 0 || from < 0 || from + needle.len() > line.len() {
        None
    } else if spec_starts_with(line, needle, from) {
        Some(from)
    } else {
        spec_find_sub(line, needle, from + 1)
    }
}

/// Index of the first delimiter (at or after position `k` in the list) whose
/// token occurs in `line` at position `i`.
pub open spec fn spec_find_string_start(line: Seq<u8>, strings: Seq<DelimV>, i: int, k: int) -> Option<
    int,
>
    decreases strings.len() - k,
{
    if k < 0 || k >= strings.len() {
        None
    } else if spec_starts_with(line, strings[k].token, i) {
        Some(k)
    } else {
        spec_find_string_start(line, strings, i, k + 1)
    }
}

/// Number of consecutive `#` bytes starting at `pos`.
pub open spec fn spec_count_hashes(line: Seq<u8>, pos: int) -> int
    decreases line.len() - pos,
{
    if 0 <= pos < line.len() && line[pos] == 35u8 {
        1 + spec_count_hashes(line, pos + 1)
    } else {
        0
    }
}

pub open spec fn spec_is_alnum(b: u8) -> bool {
    (48 <= b <= 57) || (65 <= b <= 90) || (97 <= b <= 122)
}

/// A raw string opener `r#…#"` at position `i`: the number of hashes and the
/// number of bytes consumed, provided the previous byte is not alphanumeric.
pub open spec fn spec_parse_raw_start(line: Seq<u8>, i: int) -> Option<(int, int)> {
    if i < 0 || i >= line.len() || line[i] != 114u8 {
        None
    } else if i > 0 && spec_is_alnum(line[i - 1]) {
        None
    } else {
        let hashes = spec_count_hashes(line, i + 1);
        let pos = i + 1 + hashes;
        if pos < line.len() && line[pos] == 34u8 {
            Some((hashes, pos - i + 1))
        } else {
            None
        }
    }
}

/// The closer of a raw string with `hashes` hashes stands at `i`: a quote
/// followed by exactly that many `#` bytes.
pub open spec fn spec_raw_closes_at(line: Seq<u8>, i: int, hashes: int) -> bool {
    &&& 0 <= i < line.len()
    &&& line[i] == 34u8
    &&& i + 1 + hashes <= line.len()
    &&& forall|o: int| 0 <= o < hashes ==> #[trigger] line[i + 1 + o] == 35u8
}

/// Position one past the raw-string closer found at or after `start`.
pub open spec fn spec_find_raw_end(line: Seq<u8>, start: int, hashes: int) -> Option<int>
    decreases line.len() - start,
{
    if start < 0 || start >= line.len() {
        None
    } else if spec_raw_closes_at(line, start, hashes) {
        Some(start + 1 + hashes)
    } else {
        spec_find_raw_end(line, start + 1, hashes)
    }
}

proof fn lemma_find_sub_bounds(line: Seq<u8>, needle: Seq<u8>, from: int)
    requires
        spec_find_sub(line, needle, from) is Some,
    ensures
        from <= spec_find_sub(line, needle, from).unwrap(),
        spec_find_sub(line, needle, from).unwrap() + needle.len() <= line.len(),
        needle.len() >= 1,
        spec_starts_with(line, needle, spec_find_sub(line, needle, from).unwrap()),
    decreases line.len() - from,
{
    if needle.len() == 0 || from < 0 || from + needle.len() > line.len() {
    } else if spec_starts_with(line, needle, from) {
    } else {
        lemma_find_sub_bounds(line, needle, from + 1);
    }
}

proof fn lemma_find_string_start_bounds(line: Seq<u8>, strings: Seq<DelimV>, i: int, k: int)
    requires
        spec_find_string_start(line, strings, i, k) is Some,
    ensures
        k <= spec_find_string_start(line, strings, i, k).unwrap() < strings.len(),
        spec_starts_with(
            line,
            strings[spec_find_string_start(line, strings, i, k).unwrap()].token,
            i,
        ),
    decreases strings.len() - k,
{
    if k < 0 || k >= strings.len() {
    } else if spec_starts_with(line, strings[k].token, i) {
    } else {
        lemma_find_string_start_bounds(line, strings, i, k + 1);
    }
}

proof fn lemma_count_hashes_bounds(line: Seq<u8>, pos: int)
    requires
        0 <= pos <= line.len(),
    ensures
        0 <= spec_count_hashes(line, pos),
        pos + spec_count_hashes(line, pos) <= line.len(),
    decreases line.len() - pos,
{
    if 0 <= pos < line.len() && line[pos] == 35u8 {
        lemma_count_hashes_bounds(line, pos + 1);
    }
}

proof fn lemma_parse_raw_bounds(line: Seq<u8>, i: int)
    requires
        spec_parse_raw_start(line, i) is Some,
    ensures
        spec_parse_raw_start(line, i).unwrap().0 >= 0,
        spec_parse_raw_start(line, i).unwrap().1 >= 2,
        i + spec_parse_raw_start(line, i).unwrap().1 <= line.len(),
{
    lemma_count_hashes_bounds(line, i + 1);
}

proof fn lemma_find_raw_end_bounds(line: Seq<u8>, start: int, hashes: int)
    requires
        hashes >= 0,
        spec_find_raw_end(line, start, hashes) is Some,
    ensures
        start < spec_find_raw_end(line, start, hashes).unwrap(),
        spec_find_raw_end(line, start, hashes).unwrap() <= line.len(),
    decreases line.len() - start,
{
    if start < 0 || start >= line.len() {
    } else if spec_raw_closes_at(line, start, hashes) {
    } else {
        lemma_find_raw_end_bounds(line, start + 1, hashes);
    }
}

/// True when `needle` occurs in `line` starting exactly at `idx`.
pub fn starts_with(line: &[u8], needle: &[u8], idx: usize) -> (r: bool)
    ensures
        r == spec_starts_with(line@, needle@, idx as int),
{
    if needle.len() > line.len() || idx > line.len() - needle.len() {
        assert(!spec_starts_with(line@, needle@, idx as int));
        return false;
    }
    let mut j: usize = 0;
    while j < needle.len()
        invariant
            idx + needle.len() <= line.len(),
            j <= needle.len(),
            forall|t: int| 0 <= t < j ==> line@[idx + t] == needle@[t],
        decreases needle.len() - j,
    {
        if line[idx + j] != needle[j] {
            assert(line@.subrange(idx as int, idx + needle@.len() as int) != needle@) by {
                assert(line@.subrange(idx as int, idx + needle@.len() as int)[j as int]
                    != needle@[j as int]);
            }
            return false;
        }
        j = j + 1;
    }
    assert(line@.subrange(idx as int, idx + needle@.len() as int) =~= needle@);
    true
}

/// Converts an `Option<usize>` to its ghost `Option<int>` image.
pub open spec fn opt_v(o: Option<usize>) -> Option<int> {
    match o {
        Some(v) => Some(v as int),
        None => None,
    }
}

/// First position at or after `start` where `needle` occurs in `line`.
pub fn find_subslice_from(line: &[u8], needle: &[u8], start: usize) -> (r: Option<usize>)
    ensures
        opt_v(r) == spec_find_sub(line@, needle@, start as int),
{
    if needle.len() == 0 || line.len() < needle.len() || start >= line.len() {
        assert(spec_find_sub(line@, needle@, start as int) is None) by {
            lemma_find_sub_none_when_out(line@, needle@, start as int);
        }
        return None;
    }
    let end = line.len() - needle.len();
    if start > end {
        return None;
    }
    let mut idx = start;
    while idx <= end
        invariant
            start <= idx <= end + 1,
            needle@.len() >= 1,
            line@.len() <= usize::MAX,
            end == line@.len() - needle@.len(),
            spec_find_sub(line@, needle@, start as int) == spec_find_sub(
                line@,
                needle@,
                idx as int,
            ),
        decreases end + 1 - idx,
    {
        if starts_with(line, needle, idx) {
            return Some(idx);
        }
        idx = idx + 1;
    }
    None
}

proof fn lemma_find_sub_none_when_out(line: Seq<u8>, needle: Seq<u8>, from: int)
    requires
        needle.len() == 0 || line.len() < needle.len() || from >= line.len(),
        from >= 0,
    ensures
        spec_find_sub(line, needle, from) is None,
    decreases line.len() - from,
{
    if needle.len() == 0 || from < 0 || from + needle.len() > line.len() {
    } else {
        assert(needle.len() >= 1);
        lemma_find_sub_none_when_out(line, needle, from + 1);
    }
}

/// Index of the first delimiter in the list whose token occurs at `idx`.
pub fn find_string_start(line: &[u8], strings: &Vec<StringDelim>, idx: usize) -> (r: Option<usize>)
    ensures
        opt_v(r) == spec_find_string_start(
            line@,
            strings@.map_values(|d: StringDelim| d@),
            idx as int,
            0,
        ),
{
    let ghost sv = strings@.map_values(|d: StringDelim| d@);
    let mut k: usize = 0;
    while k < strings.len()
        invariant
            k <= strings@.len(),
            sv == strings@.map_values(|d: StringDelim| d@),
            spec_find_string_start(line@, sv, idx as int, 0) == spec_find_string_start(
                line@,
                sv,
                idx as int,
                k as int,
            ),
        decreases strings@.len() - k,
    {
        if starts_with(line, strings[k].token.as_slice(), idx) {
            return Some(k);
        }
        k = k + 1;
    }
    None
}

/// A raw string opener at `idx`: the hash count and the bytes consumed.
pub fn parse_raw_string_start(line: &[u8], idx: usize) -> (r: Option<(usize, usize)>)
    ensures
        match r {
            Some(p) => spec_parse_raw_start(line@, idx as int) == Some((p.0 as int, p.1 as int)),
            None => spec_parse_raw_start(line@, idx as int) is None,
        },
{
    if idx >= line.len() || line[idx] != 114u8 {
        return None;
    }
    if idx > 0 && is_alnum_byte(line[idx - 1]) {
        return None;
    }
    let mut pos = idx + 1;
    let mut hashes: usize = 0;
    while pos < line.len() && line[pos] == 35u8
        invariant
            idx + 1 <= pos <= line@.len(),
            pos == idx + 1 + hashes,
            spec_count_hashes(line@, idx + 1) == hashes + spec_count_hashes(line@, pos as int),
        decreases line@.len() - pos,
    {
        hashes = hashes + 1;
        pos = pos + 1;
    }
    assert(spec_count_hashes(line@, pos as int) == 0);
    if pos < line.len() && line[pos] == 34u8 {
        Some((hashes, pos - idx + 1))
    } else {
        None
    }
}

fn is_alnum_byte(b: u8) -> (r: bool)
    ensures
        r == spec_is_alnum(b),
{
    (48 <= b && b <= 57) || (65 <= b && b <= 90) || (97 <= b && b <= 122)
}

/// Position one past the closer of a raw string with `hashes` hashes.
pub fn find_raw_string_end(line: &[u8], start: usize, hashes: usize) -> (r: Option<usize>)
    ensures
        opt_v(r) == spec_find_raw_end(line@, start as int, hashes as int),
{
    if start >= line.len() {
        return None;
    }
    let mut idx = start;
    while idx < line.len()
        invariant
            start <= idx,
            spec_find_raw_end(line@, start as int, hashes as int) == spec_find_raw_end(
                line@,
                idx as int,
                hashes as int,
            ),
        decreases line@.len() - idx,
    {
        if line[idx] == 34u8 {
            if raw_closer_hashes_at(line, idx, hashes) {
                proof {
                    lemma_raw_end_fits(line@, idx as int, hashes as int);
                }
                return Some(idx + 1 + hashes);
            }
        }
        proof {
            assert(!spec_raw_closes_at(line@, idx as int, hashes as int));
        }
        idx = idx + 1;
    }
    None
}

proof fn lemma_raw_end_fits(line: Seq<u8>, i: int, hashes: int)
    requires
        spec_raw_closes_at(line, i, hashes),
    ensures
        i + 1 + hashes <= line.len(),
{
}

/// True when exactly `hashes` hash bytes follow position `idx` (which must
/// hold a quote) without running off the line.
fn raw_closer_hashes_at(line: &[u8], idx: usize, hashes: usize) -> (r: bool)
    requires
        idx < line@.len(),
        line@[idx as int] == 34u8,
    ensures
        r == spec_raw_closes_at(line@, idx as int, hashes as int),
{
    let mut offset: usize = 0;
    let n = line.len();
    while offset < hashes
        invariant
            n == line@.len() <= usize::MAX,
            idx < line@.len(),
            line@[idx as int] == 34u8,
            offset <= hashes,
            idx + 1 + offset <= line@.len(),
            forall|o: int| 0 <= o < offset ==> #[trigger] line@[idx + 1 + o] == 35u8,
        decreases hashes - offset,
    {
        let pos = idx + 1 + offset;
        if pos >= n || line[pos] != 35u8 {
            return false;
        }
        assert(line@[idx + 1 + offset] == 35u8);
        offset = offset + 1;
    }
    true
}

} // verus!

verus! {

/// Ghost image of the tokeniser state carried from line to line.
#[verifier::ext_equal]
pub ghost struct TkSt {
    pub in_block: bool,
    pub in_string: Option<int>,
    pub escape: bool,
    pub raw_string_hash: Option<int>,
}

/// The carried string index stays inside the delimiter list and the raw
/// hash count is non-negative.
pub open spec fn wf_state_v(st: TkSt, sp: SyntaxSpecV) -> bool {
    &&& match st.in_string {
        Some(k) => 0 <= k < sp.strings.len(),
        None => true,
    }
    &&& match st.raw_string_hash {
        Some(h) => h >= 0,
        None => true,
    }
}

/// At end of line a non-multiline open string is closed.
pub open spec fn spec_eol_close(sp: SyntaxSpecV, st: TkSt) -> TkSt {
    match st.in_string {
        Some(k) => if !sp.strings[k].multiline {
            TkSt { in_string: None, escape: false, ..st }
        } else {
            st
        },
        None => st,
    }
}

/// One pass of the tokeniser from byte position `idx` to the end of the
/// line: the comment ranges emitted and the state carried to the next line.
///
/// Mirrors the scanning order: an open string is consumed first (honouring
/// escapes), then an open raw string, then a raw-string opener, then any
/// string delimiter (in list order), then the line-comment token, then the
/// block-comment opener; any other byte is skipped.
pub open spec fn spec_tok_loop(line: Seq<u8>, sp: SyntaxSpecV, st: TkSt, idx: int) -> (Seq<
    (int, int),
>, TkSt)
    decreases line.len() - idx
        when 0 <= idx && wf_syntax_v(sp) && wf_state_v(st, sp)
        via spec_tok_loop_decreases
{
    let len = line.len() as int;
    if idx >= len {
        (Seq::<(int, int)>::empty(), spec_eol_close(sp, st))
    } else {
        match st.in_string {
            Some(k) => {
                let d = sp.strings[k];
                if d.escape && st.escape {
                    spec_tok_loop(line, sp, TkSt { escape: false, ..st }, idx + 1)
                } else if d.escape && line[idx] == 92u8 {
                    spec_tok_loop(line, sp, TkSt { escape: true, ..st }, idx + 1)
                } else if spec_starts_with(line, d.token, idx) {
                    spec_tok_loop(
                        line,
                        sp,
                        TkSt { in_string: None, escape: false, ..st },
                        idx + d.token.len() as int,
                    )
                } else {
                    spec_tok_loop(line, sp, st, idx + 1)
                }
            },
            None => match st.raw_string_hash {
                Some(h) => match spec_find_raw_end(line, idx, h) {
                    Some(e) => spec_tok_loop(line, sp, TkSt { raw_string_hash: None, ..st }, e),
                    None => (Seq::<(int, int)>::empty(), st),
                },
                None => if sp.raw_string && spec_parse_raw_start(line, idx) is Some {
                    let p = spec_parse_raw_start(line, idx).unwrap();
                    spec_tok_loop(
                        line,
                        sp,
                        TkSt { raw_string_hash: Some(p.0), ..st },
                        idx + p.1,
                    )
                } else {
                    match spec_find_string_start(line, sp.strings, idx, 0) {
                        Some(si) => spec_tok_loop(
                            line,
                            sp,
                            TkSt { in_string: Some(si), escape: false, ..st },
                            idx + sp.strings[si].token.len() as int,
                        ),
                        None => if sp.line_comment is Some && spec_starts_with(
                            line,
                            sp.line_comment.unwrap(),
                            idx,
                        ) {
                            (seq![(idx, len)], st)
                        } else {
                            match sp.block_comment {
                                Some(bc) => if spec_starts_with(line, bc.0, idx) {
                                    match spec_find_sub(line, bc.1, idx + bc.0.len() as int) {
                                        Some(e) => {
                                            let rest = spec_tok_loop(
                                                line,
                                                sp,
                                                st,
                                                e + bc.1.len() as int,
                                            );
                                            (
                                                seq![(idx, e + bc.1.len() as int)] + rest.0,
                                                rest.1,
                                            )
                                        },
                                        None => (seq![(idx, len)], TkSt { in_block: true, ..st }),
                                    }
                                } else {
                                    spec_tok_loop(line, sp, st, idx + 1)
                                },
                                None => spec_tok_loop(line, sp, st, idx + 1),
                            }
                        },
                    }
                },
            },
        }
    }
}

#[via_fn]
proof fn spec_tok_loop_decreases(line: Seq<u8>, sp: SyntaxSpecV, st: TkSt, idx: int) {
    let len = line.len() as int;
    if idx < len {
        match st.in_string {
            Some(k) => {
                assert(sp.strings[k].token.len() >= 1);
            },
            None => match st.raw_string_hash {
                Some(h) => {
                    if spec_find_raw_end(line, idx, h) is Some {
                        lemma_find_raw_end_bounds(line, idx, h);
                    }
                },
                None => {
                    if sp.raw_string && spec_parse_raw_start(line, idx) is Some {
                        lemma_parse_raw_bounds(line, idx);
                    } else {
                        if spec_find_string_start(line, sp.strings, idx, 0) is Some {
                            lemma_find_string_start_bounds(line, sp.strings, idx, 0);
                        }
                        match sp.block_comment {
                            Some(bc) => {
                                if spec_starts_with(line, bc.0, idx) && spec_find_sub(
                                    line,
                                    bc.1,
                                    idx + bc.0.len() as int,
                                ) is Some {
                                    lemma_find_sub_bounds(line, bc.1, idx + bc.0.len() as int);
                                }
                            },
                            None => {},
                        }
                    }
                },
            },
        }
    }
}

/// The ranges of one whole line given the carried state: the resumed block
/// comment (if any) is closed or extended first, then the line is scanned.
pub open spec fn spec_line_ranges(line: Seq<u8>, sp: SyntaxSpecV, st: TkSt) -> (Seq<(int, int)>, TkSt) {
    let len = line.len() as int;
    if st.in_block {
        match sp.block_comment {
            None => (
                Seq::<(int, int)>::empty(),
                TkSt { in_block: false, in_string: None, escape: false, raw_string_hash: None },
            ),
            Some(bc) => match spec_find_sub(line, bc.1, 0) {
                Some(e) => {
                    let rest = spec_tok_loop(
                        line,
                        sp,
                        TkSt { in_block: false, ..st },
                        e + bc.1.len() as int,
                    );
                    (seq![(0int, e + bc.1.len() as int)] + rest.0, rest.1)
                },
                None => (seq![(0int, len)], st),
            },
        }
    } else {
        spec_tok_loop(line, sp, st, 0)
    }
}

} // verus!

verus! {

/// Tokeniser state carried between successive lines of one file.
#[derive(Clone, Copy, Debug)]
pub struct BlockState {
    pub in_block: bool,
    pub in_string: Option<usize>,
    pub escape: bool,
    pub raw_string_hash: Option<usize>,
}

impl View for BlockState {
    type V = TkSt;

    open spec fn view(&self) -> TkSt {
        TkSt {
            in_block: self.in_block,
            in_string: match self.in_string {
                Some(k) => Some(k as int),
                None => None,
            },
            escape: self.escape,
            raw_string_hash: match self.raw_string_hash {
                Some(h) => Some(h as int),
                None => None,
            },
        }
    }
}

/// The state at the start of a file: nothing is open.
pub open spec fn spec_initial_state() -> TkSt {
    TkSt { in_block: false, in_string: None, escape: false, raw_string_hash: None }
}

impl BlockState {
    pub open spec fn wf(&self, syntax: &SyntaxSpec) -> bool {
        wf_state_v(self@, syntax@)
    }

    pub fn new() -> (r: BlockState)
        ensures
            r@ == spec_initial_state(),
    {
        BlockState { in_block: false, in_string: None, escape: false, raw_string_hash: None }
    }
}

impl Default for BlockState {
    fn default() -> (r: BlockState)
        ensures
            r@ == spec_initial_state(),
    {
        BlockState::new()
    }
}

/// Ghost image of a vector of byte ranges.
pub open spec fn ranges_v(s: Seq<(usize, usize)>) -> Seq<(int, int)> {
    s.map_values(|p: (usize, usize)| (p.0 as int, p.1 as int))
}

/// The `[start, end)` byte ranges of `line` that lie inside a comment,
/// given the state carried from the previous line; the state is advanced
/// for the next line. Callers stream successive lines of one file and
/// forward the same state each time.
pub fn find_comment_ranges(line: &[u8], state: &mut BlockState, syntax: &SyntaxSpec) -> (ranges:
    Vec<(usize, usize)>)
    requires
        syntax.wf(),
        old(state).wf(syntax),
    ensures
        ranges_v(ranges@) == spec_line_ranges(line@, syntax@, old(state)@).0,
        final(state)@ == spec_line_ranges(line@, syntax@, old(state)@).1,
        final(state).wf(syntax),
{
    let ghost target = spec_line_ranges(line@, syntax@, old(state)@);
    let len = line.len();
    let mut ranges: Vec<(usize, usize)> = Vec::new();
    let mut idx: usize = 0;

    if state.in_block {
        match &syntax.block_comment {
            None => {
                state.in_block = false;
                state.in_string = None;
                state.escape = false;
                state.raw_string_hash = None;
                assert(ranges_v(ranges@) =~= target.0);
                return ranges;
            },
            Some(bc) => {
                match find_subslice_from(line, bc.1.as_slice(), 0) {
                    Some(e) => {
                        proof {
                            lemma_find_sub_bounds(line@, bc.1@, 0);
                        }
                        ranges.push((0, e + bc.1.len()));
                        state.in_block = false;
                        idx = e + bc.1.len();
                        proof {
                            assert(ranges_v(ranges@) =~= seq![(0int, idx as int)]);
                        }
                    },
                    None => {
                        ranges.push((0, len));
                        assert(ranges_v(ranges@) =~= seq![(0int, len as int)]);
                        return ranges;
                    },
                }
            },
        }
    }

    while idx < len
        invariant
            len == line@.len() <= usize::MAX,
            idx <= len,
            syntax.wf(),
            state.wf(syntax),
            !state@.in_block,
            target == spec_line_ranges(line@, syntax@, old(state)@),
            target.0 =~= ranges_v(ranges@) + spec_tok_loop(line@, syntax@, state@, idx as int).0,
            target.1 == spec_tok_loop(line@, syntax@, state@, idx as int).1,
        decreases len - idx,
    {
        let ghost pre_st = state@;
        let ghost pre_idx = idx as int;
        let ghost step = spec_tok_loop(line@, syntax@, pre_st, pre_idx);

        if let Some(active) = state.in_string {
            let d = &syntax.strings[active];
            if d.escape && state.escape {
                state.escape = false;
                idx = idx + 1;
            } else if d.escape && line[idx] == 92u8 {
                state.escape = true;
                idx = idx + 1;
            } else if starts_with(line, d.token.as_slice(), idx) {
                state.in_string = None;
                state.escape = false;
                idx = idx + d.token.len();
            } else {
                idx = idx + 1;
            }
            proof {
                assert(step == spec_tok_loop(line@, syntax@, state@, idx as int));
            }
        } else if let Some(hash_count) = state.raw_string_hash {
            match find_raw_string_end(line, idx, hash_count) {
                Some(end_idx) => {
                    proof {
                        lemma_find_raw_end_bounds(line@, pre_idx, hash_count as int);
                    }
                    idx = end_idx;
                    state.raw_string_hash = None;
                    proof {
                        assert(step == spec_tok_loop(line@, syntax@, state@, idx as int));
                    }
                },
                None => {
                    proof {
                        assert(step.0 =~= Seq::<(int, int)>::empty());
                        assert(target.0 =~= ranges_v(ranges@));
                    }
                    return ranges;
                },
            }
        } else {
            let raw = if syntax.raw_string {
                parse_raw_string_start(line, idx)
            } else {
                None
            };
            match raw {
                Some(rs) => {
                    proof {
                        lemma_parse_raw_bounds(line@, pre_idx);
                    }
                    state.raw_string_hash = Some(rs.0);
                    idx = idx + rs.1;
                    proof {
                        assert(step == spec_tok_loop(line@, syntax@, state@, idx as int));
                    }
                },
                None => {
                    match find_string_start(line, &syntax.strings, idx) {
                        Some(si) => {
                            proof {
                                lemma_find_string_start_bounds(
                                    line@,
                                    syntax@.strings,
                                    pre_idx,
                                    0,
                                );
                            }
                            let tok_len = syntax.strings[si].token.len();
                            state.in_string = Some(si);
                            state.escape = false;
                            idx = idx + tok_len;
                            proof {
                                assert(step == spec_tok_loop(line@, syntax@, state@, idx as int));
                            }
                        },
                        None => {
                            let lc_hit = match &syntax.line_comment {
                                Some(t) => starts_with(line, t.as_slice(), idx),
                                None => false,
                            };
                            if lc_hit {
                                ranges.push((idx, len));
                                proof {
                                    assert(step.0 =~= seq![(pre_idx, len as int)]);
                                    assert(ranges_v(ranges@) =~= ranges_v(
                                        ranges@.drop_last(),
                                    ).push((pre_idx, len as int)));
                                    assert(target.0 =~= ranges_v(ranges@));
                                }
                                return ranges;
                            }
                            match &syntax.block_comment {
                                Some(bc) => {
                                    if starts_with(line, bc.0.as_slice(), idx) {
                                        match find_subslice_from(
                                            line,
                                            bc.1.as_slice(),
                                            idx + bc.0.len(),
                                        ) {
                                            Some(ei) => {
                                                proof {
                                                    lemma_find_sub_bounds(
                                                        line@,
                                                        bc.1@,
                                                        pre_idx + bc.0@.len(),
                                                    );
                                                }
                                                ranges.push((idx, ei + bc.1.len()));
                                                idx = ei + bc.1.len();
                                                proof {
                                                    assert(ranges_v(ranges@) =~= ranges_v(
                                                        ranges@.drop_last(),
                                                    ).push((pre_idx, idx as int)));
                                                    assert(step.0 =~= seq![
                                                        (pre_idx, idx as int),
                                                    ] + spec_tok_loop(
                                                        line@,
                                                        syntax@,
                                                        state@,
                                                        idx as int,
                                                    ).0);
                                                }
                                            },
                                            None => {
                                                ranges.push((idx, len));
                                                state.in_block = true;
                                                proof {
                                                    assert(step.0 =~= seq![
                                                        (pre_idx, len as int),
                                                    ]);
                                                    assert(ranges_v(ranges@) =~= ranges_v(
                                                        ranges@.drop_last(),
                                                    ).push((pre_idx, len as int)));
                                                    assert(target.0 =~= ranges_v(ranges@));
                                                    assert(target.1 == state@);
                                                }
                                                return ranges;
                                            },
                                        }
                                    } else {
                                        idx = idx + 1;
                                        proof {
                                            assert(step == spec_tok_loop(
                                                line@,
                                                syntax@,
                                                state@,
                                                idx as int,
                                            ));
                                        }
                                    }
                                },
                                None => {
                                    idx = idx + 1;
                                    proof {
                                        assert(step == spec_tok_loop(
                                            line@,
                                            syntax@,
                                            state@,
                                            idx as int,
                                        ));
                                    }
                                },
                            }
                        },
                    }
                },
            }
        }
    }

    proof {
        assert(spec_tok_loop(line@, syntax@, state@, idx as int).0 =~= Seq::<(int, int)>::empty());
        assert(target.0 =~= ranges_v(ranges@));
    }
    if let Some(k) = state.in_string {
        let close = !syntax.strings[k].multiline;
        if close {
            state.in_string = None;
            state.escape = false;
        }
    }
    ranges
}

} // verus!

verus! {

/// Every range of `rs` lies within `[lo, hi]` and is well-ordered.
pub open spec fn ranges_within(rs: Seq<(int, int)>, lo: int, hi: int) -> bool {
    forall|j: int| 0 <= j < rs.len() ==> lo <= (#[trigger] rs[j]).0 && rs[j].0 <= rs[j].1 <= hi
}

proof fn lemma_ranges_within_weaken(rs: Seq<(int, int)>, lo2: int, lo: int, hi: int)
    requires
        lo2 <= lo,
        ranges_within(rs, lo, hi),
    ensures
        ranges_within(rs, lo2, hi),
{
}

proof fn lemma_ranges_within_cons(head: (int, int), tail: Seq<(int, int)>, lo: int, hi: int)
    requires
        lo <= head.0 <= head.1 <= hi,
        ranges_within(tail, lo, hi),
    ensures
        ranges_within(seq![head] + tail, lo, hi),
{
    let rs = seq![head] + tail;
    assert forall|j: int| 0 <= j < rs.len() implies lo <= (#[trigger] rs[j]).0 && rs[j].0
        <= rs[j].1 <= hi by {
        if j == 0 {
            assert(rs[0] == head);
        } else {
            assert(rs[j] == tail[j - 1]);
        }
    }
}

/// Every range the tokeniser emits from position `idx` lies inside the
/// line, starts no earlier than `idx`, and is well-ordered.
pub proof fn lemma_tok_loop_ranges_bounds(line: Seq<u8>, sp: SyntaxSpecV, st: TkSt, idx: int)
    requires
        0 <= idx,
        wf_syntax_v(sp),
        wf_state_v(st, sp),
    ensures
        ranges_within(spec_tok_loop(line, sp, st, idx).0, idx, line.len() as int),
    decreases line.len() - idx,
{
    let len = line.len() as int;
    let res = spec_tok_loop(line, sp, st, idx);
    if idx >= len {
        assert(res.0 =~= Seq::<(int, int)>::empty());
    } else {
        match st.in_string {
            Some(k) => {
                let d = sp.strings[k];
                if d.escape && st.escape {
                    lemma_tok_loop_ranges_bounds(line, sp, TkSt { escape: false, ..st }, idx + 1);
                    lemma_ranges_within_weaken(res.0, idx, idx + 1, len);
                } else if d.escape && line[idx] == 92u8 {
                    lemma_tok_loop_ranges_bounds(line, sp, TkSt { escape: true, ..st }, idx + 1);
                    lemma_ranges_within_weaken(res.0, idx, idx + 1, len);
                } else if spec_starts_with(line, d.token, idx) {
                    lemma_tok_loop_ranges_bounds(
                        line,
                        sp,
                        TkSt { in_string: None, escape: false, ..st },
                        idx + d.token.len() as int,
                    );
                    lemma_ranges_within_weaken(res.0, idx, idx + d.token.len() as int, len);
                } else {
                    lemma_tok_loop_ranges_bounds(line, sp, st, idx + 1);
                    lemma_ranges_within_weaken(res.0, idx, idx + 1, len);
                }
            },
            None => match st.raw_string_hash {
                Some(h) => match spec_find_raw_end(line, idx, h) {
                    Some(e) => {
                        lemma_find_raw_end_bounds(line, idx, h);
                        lemma_tok_loop_ranges_bounds(
                            line,
                            sp,
                            TkSt { raw_string_hash: None, ..st },
                            e,
                        );
                        lemma_ranges_within_weaken(res.0, idx, e, len);
                    },
                    None => {},
                },
                None => if sp.raw_string && spec_parse_raw_start(line, idx) is Some {
                    let p = spec_parse_raw_start(line, idx).unwrap();
                    lemma_parse_raw_bounds(line, idx);
                    lemma_tok_loop_ranges_bounds(
                        line,
                        sp,
                        TkSt { raw_string_hash: Some(p.0), ..st },
                        idx + p.1,
                    );
                    lemma_ranges_within_weaken(res.0, idx, idx + p.1, len);
                } else {
                    match spec_find_string_start(line, sp.strings, idx, 0) {
                        Some(si) => {
                            lemma_find_string_start_bounds(line, sp.strings, idx, 0);
                            lemma_tok_loop_ranges_bounds(
                                line,
                                sp,
                                TkSt { in_string: Some(si), escape: false, ..st },
                                idx + sp.strings[si].token.len() as int,
                            );
                            lemma_ranges_within_weaken(
                                res.0,
                                idx,
                                idx + sp.strings[si].token.len() as int,
                                len,
                            );
                        },
                        None => if sp.line_comment is Some && spec_starts_with(
                            line,
                            sp.line_comment.unwrap(),
                            idx,
                        ) {
                            assert(res.0 =~= seq![(idx, len)]);
                        } else {
                            match sp.block_comment {
                                Some(bc) => if spec_starts_with(line, bc.0, idx) {
                                    match spec_find_sub(line, bc.1, idx + bc.0.len() as int) {
                                        Some(e) => {
                                            lemma_find_sub_bounds(
                                                line,
                                                bc.1,
                                                idx + bc.0.len() as int,
                                            );
                                            let close = e + bc.1.len() as int;
                                            let rest = spec_tok_loop(line, sp, st, close);
                                            lemma_tok_loop_ranges_bounds(line, sp, st, close);
                                            lemma_ranges_within_weaken(rest.0, idx, close, len);
                                            lemma_ranges_within_cons(
                                                (idx, close),
                                                rest.0,
                                                idx,
                                                len,
                                            );
                                        },
                                        None => {
                                            assert(res.0 =~= seq![(idx, len)]);
                                        },
                                    }
                                } else {
                                    lemma_tok_loop_ranges_bounds(line, sp, st, idx + 1);
                                    lemma_ranges_within_weaken(res.0, idx, idx + 1, len);
                                },
                                None => {
                                    lemma_tok_loop_ranges_bounds(line, sp, st, idx + 1);
                                    lemma_ranges_within_weaken(res.0, idx, idx + 1, len);
                                },
                            }
                        },
                    }
                },
            },
        }
    }
}

/// Every range of a whole line lies inside the line and is well-ordered.
pub proof fn lemma_line_ranges_bounds(line: Seq<u8>, sp: SyntaxSpecV, st: TkSt)
    requires
        wf_syntax_v(sp),
        wf_state_v(st, sp),
    ensures
        ranges_within(spec_line_ranges(line, sp, st).0, 0, line.len() as int),
{
    let len = line.len() as int;
    if st.in_block {
        match sp.block_comment {
            None => {},
            Some(bc) => match spec_find_sub(line, bc.1, 0) {
                Some(e) => {
                    lemma_find_sub_bounds(line, bc.1, 0);
                    let close = e + bc.1.len() as int;
                    let rest = spec_tok_loop(line, sp, TkSt { in_block: false, ..st }, close);
                    lemma_tok_loop_ranges_bounds(
                        line,
                        sp,
                        TkSt { in_block: false, ..st },
                        close,
                    );
                    lemma_ranges_within_weaken(rest.0, 0, close, len);
                    lemma_ranges_within_cons((0, close), rest.0, 0, len);
                },
                None => {},
            },
        }
    } else {
        lemma_tok_loop_ranges_bounds(line, sp, st, 0);
    }
}

} // verus!

verus! {

/// One tokeniser step keeps the carried state well-formed.
pub proof fn lemma_tok_loop_wf(line: Seq<u8>, sp: SyntaxSpecV, st: TkSt, idx: int)
    requires
        0 <= idx,
        wf_syntax_v(sp),
        wf_state_v(st, sp),
    ensures
        wf_state_v(spec_tok_loop(line, sp, st, idx).1, sp),
    decreases line.len() - idx,
{
    let len = line.len() as int;
    if idx >= len {
    } else {
        match st.in_string {
            Some(k) => {
                let d = sp.strings[k];
                if d.escape && st.escape {
                    lemma_tok_loop_wf(line, sp, TkSt { escape: false, ..st }, idx + 1);
                } else if d.escape && line[idx] == 92u8 {
                    lemma_tok_loop_wf(line, sp, TkSt { escape: true, ..st }, idx + 1);
                } else if spec_starts_with(line, d.token, idx) {
                    lemma_tok_loop_wf(
                        line,
                        sp,
                        TkSt { in_string: None, escape: false, ..st },
                        idx + d.token.len() as int,
                    );
                } else {
                    lemma_tok_loop_wf(line, sp, st, idx + 1);
                }
            },
            None => match st.raw_string_hash {
                Some(h) => match spec_find_raw_end(line, idx, h) {
                    Some(e) => {
                        lemma_find_raw_end_bounds(line, idx, h);
                        lemma_tok_loop_wf(line, sp, TkSt { raw_string_hash: None, ..st }, e);
                    },
                    None => {},
                },
                None => if sp.raw_string && spec_parse_raw_start(line, idx) is Some {
                    let p = spec_parse_raw_start(line, idx).unwrap();
                    lemma_parse_raw_bounds(line, idx);
                    lemma_tok_loop_wf(
                        line,
                        sp,
                        TkSt { raw_string_hash: Some(p.0), ..st },
                        idx + p.1,
                    );
                } else {
                    match spec_find_string_start(line, sp.strings, idx, 0) {
                        Some(si) => {
                            lemma_find_string_start_bounds(line, sp.strings, idx, 0);
                            lemma_tok_loop_wf(
                                line,
                                sp,
                                TkSt { in_string: Some(si), escape: false, ..st },
                                idx + sp.strings[si].token.len() as int,
                            );
                        },
                        None => if sp.line_comment is Some && spec_starts_with(
                            line,
                            sp.line_comment.unwrap(),
                            idx,
                        ) {
                        } else {
                            match sp.block_comment {
                                Some(bc) => if spec_starts_with(line, bc.0, idx) {
                                    match spec_find_sub(line, bc.1, idx + bc.0.len() as int) {
                                        Some(e) => {
                                            lemma_find_sub_bounds(
                                                line,
                                                bc.1,
                                                idx + bc.0.len() as int,
                                            );
                                            lemma_tok_loop_wf(line, sp, st, e + bc.1.len() as int);
                                        },
                                        None => {},
                                    }
                                } else {
                                    lemma_tok_loop_wf(line, sp, st, idx + 1);
                                },
                                None => {
                                    lemma_tok_loop_wf(line, sp, st, idx + 1);
                                },
                            }
                        },
                    }
                },
            },
        }
    }
}

/// A whole line keeps the carried state well-formed.
pub proof fn lemma_line_ranges_wf(line: Seq<u8>, sp: SyntaxSpecV, st: TkSt)
    requires
        wf_syntax_v(sp),
        wf_state_v(st, sp),
    ensures
        wf_state_v(spec_line_ranges(line, sp, st).1, sp),
{
    if st.in_block {
        match sp.block_comment {
            None => {},
            Some(bc) => match spec_find_sub(line, bc.1, 0) {
                Some(e) => {
                    lemma_find_sub_bounds(line, bc.1, 0);
                    lemma_tok_loop_wf(
                        line,
                        sp,
                        TkSt { in_block: false, ..st },
                        e + bc.1.len() as int,
                    );
                },
                None => {},
            },
        }
    } else {
        lemma_tok_loop_wf(line, sp, st, 0);
    }
}

} // verus!
