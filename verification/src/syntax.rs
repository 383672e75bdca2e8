use vstd::prelude::*;

use crate::comments::{DelimV, StringDelim, SyntaxInfo, SyntaxSpec, SyntaxSpecV, wf_syntax_v};

verus! {

/// ASCII lowercasing of one character; other characters are unchanged.
pub open spec fn lower_char(c: char) -> char {
    if c == 'A' {
        'a'
    } else if c == 'B' {
        'b'
    } else if c == 'C' {
        'c'
    } else if c == 'D' {
        'd'
    } else if c == 'E' {
        'e'
    } else if c == 'F' {
        'f'
    } else if c == 'G' {
        'g'
    } else if c == 'H' {
        'h'
    } else if c == 'I' {
        'i'
    } else if c == 'J' {
        'j'
    } else if c == 'K' {
        'k'
    } else if c == 'L' {
        'l'
    } else if c == 'M' {
        'm'
    } else if c == 'N' {
        'n'
    } else if c == 'O' {
        'o'
    } else if c == 'P' {
        'p'
    } else if c == 'Q' {
        'q'
    } else if c == 'R' {
        'r'
    } else if c == 'S' {
        's'
    } else if c == 'T' {
        't'
    } else if c == 'U' {
        'u'
    } else if c == 'V' {
        'v'
    } else if c == 'W' {
        'w'
    } else if c == 'X' {
        'x'
    } else if c == 'Y' {
        'y'
    } else if c == 'Z' {
        'z'
    } else {
        c
    }
}

/// ASCII lowercasing of a character sequence.
pub open spec fn lower_seq(s: Seq<char>) -> Seq<char> {
    s.map_values(|c: char| lower_char(c))
}

/// ASCII lowercasing of one character.
pub fn lower_char_exec(c: char) -> (r: char)
    ensures
        r == lower_char(c),
{
    match c {
        'A' => 'a',
        'B' => 'b',
        'C' => 'c',
        'D' => 'd',
        'E' => 'e',
        'F' => 'f',
        'G' => 'g',
        'H' => 'h',
        'I' => 'i',
        'J' => 'j',
        'K' => 'k',
        'L' => 'l',
        'M' => 'm',
        'N' => 'n',
        'O' => 'o',
        'P' => 'p',
        'Q' => 'q',
        'R' => 'r',
        'S' => 's',
        'T' => 't',
        'U' => 'u',
        'V' => 'v',
        'W' => 'w',
        'X' => 'x',
        'Y' => 'y',
        'Z' => 'z',
        _ => c,
    }
}

/// True when the two strings are equal after ASCII lowercasing.
pub fn str_eq_ignore_ascii_case(a: &str, b: &str) -> (r: bool)
    ensures
        r == (lower_seq(a@) == lower_seq(b@)),
{
    let an = a.unicode_len();
    let bn = b.unicode_len();
    if an != bn {
        assert(lower_seq(a@).len() != lower_seq(b@).len());
        return false;
    }
    let mut i: usize = 0;
    while i < an
        invariant
            an == a@.len(),
            an == b@.len(),
            i <= an,
            forall|t: int| 0 <= t < i ==> lower_seq(a@)[t] == lower_seq(b@)[t],
        decreases an - i,
    {
        let ca = a.get_char(i);
        let cb = b.get_char(i);
        if lower_char_exec(ca) != lower_char_exec(cb) {
            assert(lower_seq(a@)[i as int] != lower_seq(b@)[i as int]);
            return false;
        }
        assert(lower_seq(a@)[i as int] == lower_seq(b@)[i as int]);
        i = i + 1;
    }
    assert(lower_seq(a@) =~= lower_seq(b@));
    true
}

/// Index of the last occurrence of `c` in `s`.
pub open spec fn spec_rlast(s: Seq<char>, c: char) -> Option<int>
    decreases s.len(),
{
    if s.len() == 0 {
        None
    } else if s.last() == c {
        Some(s.len() - 1)
    } else {
        spec_rlast(s.drop_last(), c)
    }
}

/// The file name of a path: everything after the last `/`.
pub open spec fn spec_file_name(p: Seq<char>) -> Seq<char> {
    match spec_rlast(p, '/') {
        Some(q) => p.subrange(q + 1, p.len() as int),
        None => p,
    }
}

/// The extension of a file name: everything after the last `.`, unless the
/// only `.` is the leading character of a hidden file.
pub open spec fn spec_extension(name: Seq<char>) -> Option<Seq<char>> {
    match spec_rlast(name, '.') {
        Some(q) => if q > 0 {
            Some(name.subrange(q + 1, name.len() as int))
        } else {
            None
        },
        None => None,
    }
}

/// Index of the last occurrence of `c` in `s`.
pub fn rfind_char(s: &str, c: char) -> (r: Option<usize>)
    ensures
        match r {
            Some(q) => spec_rlast(s@, c) == Some(q as int),
            None => spec_rlast(s@, c) is None,
        },
{
    let n = s.unicode_len();
    let mut i: usize = n;
    proof {
        assert(s@.take(n as int) =~= s@);
    }
    while i > 0
        invariant
            n == s@.len(),
            i <= n,
            spec_rlast(s@, c) == spec_rlast(s@.take(i as int), c),
        decreases i,
    {
        i = i - 1;
        let ch = s.get_char(i);
        proof {
            assert(s@.take(i + 1).drop_last() =~= s@.take(i as int));
            assert(s@.take(i + 1).last() == s@[i as int]);
        }
        if ch == c {
            return Some(i);
        }
    }
    proof {
        assert(s@.take(0) =~= Seq::<char>::empty());
    }
    None
}

} // verus!

verus! {

pub proof fn lemma_rlast_bounds(s: Seq<char>, c: char)
    requires
        spec_rlast(s, c) is Some,
    ensures
        0 <= spec_rlast(s, c).unwrap() < s.len(),
        s[spec_rlast(s, c).unwrap()] == c,
    decreases s.len(),
{
    if s.len() == 0 {
    } else if s.last() == c {
    } else {
        lemma_rlast_bounds(s.drop_last(), c);
    }
}

pub open spec fn dv(token: Seq<u8>, multiline: bool, escape: bool) -> DelimV {
    DelimV { token, multiline, escape }
}

pub open spec fn c_style_strings_v() -> Seq<DelimV> {
    seq![dv(seq![34u8], false, true), dv(seq![39u8], false, true)]
}

pub open spec fn js_strings_v() -> Seq<DelimV> {
    seq![dv(seq![96u8], true, true), dv(seq![34u8], false, true), dv(seq![39u8], false, true)]
}

pub open spec fn py_strings_v() -> Seq<DelimV> {
    seq![
        dv(seq![34u8, 34u8, 34u8], true, true),
        dv(seq![39u8, 39u8, 39u8], true, true),
        dv(seq![34u8], false, true),
        dv(seq![39u8], false, true),
    ]
}

pub open spec fn toml_strings_v() -> Seq<DelimV> {
    seq![
        dv(seq![34u8, 34u8, 34u8], true, true),
        dv(seq![39u8, 39u8, 39u8], true, false),
        dv(seq![34u8], false, true),
        dv(seq![39u8], false, false),
    ]
}

pub open spec fn shell_strings_v() -> Seq<DelimV> {
    seq![dv(seq![34u8], true, true), dv(seq![39u8], true, false)]
}

pub open spec fn go_strings_v() -> Seq<DelimV> {
    seq![dv(seq![96u8], true, false), dv(seq![34u8], false, true), dv(seq![39u8], false, true)]
}

pub open spec fn c_style_v() -> SyntaxSpecV {
    SyntaxSpecV {
        line_comment: Some(seq![47u8, 47u8]),
        block_comment: Some((seq![47u8, 42u8], seq![42u8, 47u8])),
        strings: c_style_strings_v(),
        raw_string: false,
    }
}

pub open spec fn c_style_js_v() -> SyntaxSpecV {
    SyntaxSpecV { strings: js_strings_v(), ..c_style_v() }
}

pub open spec fn hash_simple_v() -> SyntaxSpecV {
    SyntaxSpecV {
        line_comment: Some(seq![35u8]),
        block_comment: None,
        strings: c_style_strings_v(),
        raw_string: false,
    }
}

pub open spec fn hash_py_v() -> SyntaxSpecV {
    SyntaxSpecV { strings: py_strings_v(), ..hash_simple_v() }
}

pub open spec fn hash_toml_v() -> SyntaxSpecV {
    SyntaxSpecV { strings: toml_strings_v(), ..hash_simple_v() }
}

pub open spec fn hash_shell_v() -> SyntaxSpecV {
    SyntaxSpecV { strings: shell_strings_v(), ..hash_simple_v() }
}

pub open spec fn lua_v() -> SyntaxSpecV {
    SyntaxSpecV { line_comment: Some(seq![45u8, 45u8]), ..hash_simple_v() }
}

pub open spec fn go_v() -> SyntaxSpecV {
    SyntaxSpecV { strings: go_strings_v(), ..c_style_v() }
}

pub open spec fn rust_v() -> SyntaxSpecV {
    SyntaxSpecV { raw_string: true, ..c_style_v() }
}

fn delim(token: Vec<u8>, multiline: bool, escape: bool) -> (r: StringDelim)
    ensures
        r@ == dv(token@, multiline, escape),
{
    StringDelim { token, multiline, escape }
}

fn c_style_strings() -> (r: Vec<StringDelim>)
    ensures
        r@.map_values(|d: StringDelim| d@) =~~= c_style_strings_v(),
{
    let r = vec![delim(vec![34u8], false, true), delim(vec![39u8], false, true)];
    assert(r@.map_values(|d: StringDelim| d@) =~~= c_style_strings_v());
    r
}

fn c_style() -> (r: SyntaxSpec)
    ensures
        r@ =~~= c_style_v(),
        wf_syntax_v(r@),
{
    let r = SyntaxSpec {
        line_comment: Some(vec![47u8, 47u8]),
        block_comment: Some((vec![47u8, 42u8], vec![42u8, 47u8])),
        strings: c_style_strings(),
        raw_string: false,
    };
    proof {
        assert(r@ =~~= c_style_v());
        lemma_profiles_wf();
    }
    r
}

fn c_style_js() -> (r: SyntaxSpec)
    ensures
        r@ =~~= c_style_js_v(),
        wf_syntax_v(r@),
{
    let strings = vec![
        delim(vec![96u8], true, true),
        delim(vec![34u8], false, true),
        delim(vec![39u8], false, true),
    ];
    let r = SyntaxSpec {
        line_comment: Some(vec![47u8, 47u8]),
        block_comment: Some((vec![47u8, 42u8], vec![42u8, 47u8])),
        strings,
        raw_string: false,
    };
    proof {
        assert(r@ =~~= c_style_js_v());
        lemma_profiles_wf();
    }
    r
}

fn hash_simple() -> (r: SyntaxSpec)
    ensures
        r@ =~~= hash_simple_v(),
        wf_syntax_v(r@),
{
    let r = SyntaxSpec {
        line_comment: Some(vec![35u8]),
        block_comment: None,
        strings: c_style_strings(),
        raw_string: false,
    };
    proof {
        assert(r@ =~~= hash_simple_v());
        lemma_profiles_wf();
    }
    r
}

fn hash_py() -> (r: SyntaxSpec)
    ensures
        r@ =~~= hash_py_v(),
        wf_syntax_v(r@),
{
    let strings = vec![
        delim(vec![34u8, 34u8, 34u8], true, true),
        delim(vec![39u8, 39u8, 39u8], true, true),
        delim(vec![34u8], false, true),
        delim(vec![39u8], false, true),
    ];
    let r = SyntaxSpec {
        line_comment: Some(vec![35u8]),
        block_comment: None,
        strings,
        raw_string: false,
    };
    proof {
        assert(r@ =~~= hash_py_v());
        lemma_profiles_wf();
    }
    r
}

fn hash_toml() -> (r: SyntaxSpec)
    ensures
        r@ =~~= hash_toml_v(),
        wf_syntax_v(r@),
{
    let strings = vec![
        delim(vec![34u8, 34u8, 34u8], true, true),
        delim(vec![39u8, 39u8, 39u8], true, false),
        delim(vec![34u8], false, true),
        delim(vec![39u8], false, false),
    ];
    let r = SyntaxSpec {
        line_comment: Some(vec![35u8]),
        block_comment: None,
        strings,
        raw_string: false,
    };
    proof {
        assert(r@ =~~= hash_toml_v());
        lemma_profiles_wf();
    }
    r
}

fn hash_shell() -> (r: SyntaxSpec)
    ensures
        r@ =~~= hash_shell_v(),
        wf_syntax_v(r@),
{
    let strings = vec![delim(vec![34u8], true, true), delim(vec![39u8], true, false)];
    let r = SyntaxSpec {
        line_comment: Some(vec![35u8]),
        block_comment: None,
        strings,
        raw_string: false,
    };
    proof {
        assert(r@ =~~= hash_shell_v());
        lemma_profiles_wf();
    }
    r
}

fn lua() -> (r: SyntaxSpec)
    ensures
        r@ =~~= lua_v(),
        wf_syntax_v(r@),
{
    let r = SyntaxSpec {
        line_comment: Some(vec![45u8, 45u8]),
        block_comment: None,
        strings: c_style_strings(),
        raw_string: false,
    };
    proof {
        assert(r@ =~~= lua_v());
        lemma_profiles_wf();
    }
    r
}

fn go_syntax() -> (r: SyntaxSpec)
    ensures
        r@ =~~= go_v(),
        wf_syntax_v(r@),
{
    let strings = vec![
        delim(vec![96u8], true, false),
        delim(vec![34u8], false, true),
        delim(vec![39u8], false, true),
    ];
    let r = SyntaxSpec {
        line_comment: Some(vec![47u8, 47u8]),
        block_comment: Some((vec![47u8, 42u8], vec![42u8, 47u8])),
        strings,
        raw_string: false,
    };
    proof {
        assert(r@ =~~= go_v());
        lemma_profiles_wf();
    }
    r
}

fn rust_syntax() -> (r: SyntaxSpec)
    ensures
        r@ =~~= rust_v(),
        wf_syntax_v(r@),
{
    let r = SyntaxSpec {
        line_comment: Some(vec![47u8, 47u8]),
        block_comment: Some((vec![47u8, 42u8], vec![42u8, 47u8])),
        strings: c_style_strings(),
        raw_string: true,
    };
    proof {
        assert(r@ =~~= rust_v());
        lemma_profiles_wf();
    }
    r
}

/// All nine built-in profiles are well-formed.
proof fn lemma_profiles_wf()
    ensures
        wf_syntax_v(c_style_v()),
        wf_syntax_v(c_style_js_v()),
        wf_syntax_v(hash_simple_v()),
        wf_syntax_v(hash_py_v()),
        wf_syntax_v(hash_toml_v()),
        wf_syntax_v(hash_shell_v()),
        wf_syntax_v(lua_v()),
        wf_syntax_v(go_v()),
        wf_syntax_v(rust_v()),
{
    assert forall|k: int| 0 <= k < c_style_strings_v().len() implies (#[trigger] c_style_strings_v()[
        k
    ]).token.len() >= 1 by {
        if k == 0 {
        } else {
            assert(k == 1);
        }
    }
    assert forall|k: int| 0 <= k < js_strings_v().len() implies (#[trigger] js_strings_v()[
        k
    ]).token.len() >= 1 by {
        if k == 0 {
        } else if k == 1 {
        } else {
            assert(k == 2);
        }
    }
    assert forall|k: int| 0 <= k < py_strings_v().len() implies (#[trigger] py_strings_v()[
        k
    ]).token.len() >= 1 by {
        if k == 0 {
        } else if k == 1 {
        } else if k == 2 {
        } else {
            assert(k == 3);
        }
    }
    assert forall|k: int| 0 <= k < toml_strings_v().len() implies (#[trigger] toml_strings_v()[
        k
    ]).token.len() >= 1 by {
        if k == 0 {
        } else if k == 1 {
        } else if k == 2 {
        } else {
            assert(k == 3);
        }
    }
    assert forall|k: int| 0 <= k < shell_strings_v().len() implies (#[trigger] shell_strings_v()[
        k
    ]).token.len() >= 1 by {
        if k == 0 {
        } else {
            assert(k == 1);
        }
    }
    assert forall|k: int| 0 <= k < go_strings_v().len() implies (#[trigger] go_strings_v()[
        k
    ]).token.len() >= 1 by {
        if k == 0 {
        } else if k == 1 {
        } else {
            assert(k == 2);
        }
    }
}

} // verus!

verus! {

/// The profile and canonical language tag for a path, selected by file
/// extension with a fallback on the file name for makefiles and
/// dockerfiles; `None` when the path is unsupported.
pub open spec fn spec_syntax_for(p: Seq<char>) -> Option<(SyntaxSpecV, Seq<char>)> {
    let name = spec_file_name(p);
    if lower_seq(name) == lower_seq("makefile"@) {
        Some((hash_simple_v(), "makefile"@))
    } else if lower_seq(name) == lower_seq("dockerfile"@) {
        Some((hash_simple_v(), "dockerfile"@))
    } else {
        match spec_extension(name) {
            None => None,
            Some(e0) => {
                let e = lower_seq(e0);
                if e == lower_seq("rs"@) {
                    Some((rust_v(), "rs"@))
                } else if e == lower_seq("c"@) || e == lower_seq("h"@) {
                    Some((c_style_v(), "c"@))
                } else if e == lower_seq("cpp"@) || e == lower_seq("cc"@) || e == lower_seq("cxx"@)
                    || e == lower_seq("hpp"@) || e == lower_seq("hh"@) || e == lower_seq("hxx"@) {
                    Some((c_style_v(), "cpp"@))
                } else if e == lower_seq("java"@) {
                    Some((c_style_v(), "java"@))
                } else if e == lower_seq("kt"@) || e == lower_seq("kts"@) {
                    Some((c_style_v(), "kotlin"@))
                } else if e == lower_seq("swift"@) {
                    Some((c_style_v(), "swift"@))
                } else if e == lower_seq("go"@) {
                    Some((go_v(), "go"@))
                } else if e == lower_seq("cs"@) {
                    Some((c_style_v(), "cs"@))
                } else if e == lower_seq("scala"@) {
                    Some((c_style_v(), "scala"@))
                } else if e == lower_seq("dart"@) {
                    Some((c_style_v(), "dart"@))
                } else if e == lower_seq("js"@) || e == lower_seq("jsx"@) {
                    Some((c_style_js_v(), "js"@))
                } else if e == lower_seq("ts"@) || e == lower_seq("tsx"@) {
                    Some((c_style_js_v(), "ts"@))
                } else if e == lower_seq("py"@) {
                    Some((hash_py_v(), "py"@))
                } else if e == lower_seq("sh"@) || e == lower_seq("bash"@) || e == lower_seq(
                    "zsh"@,
                ) {
                    Some((hash_shell_v(), "sh"@))
                } else if e == lower_seq("toml"@) {
                    Some((hash_toml_v(), "toml"@))
                } else if e == lower_seq("rb"@) {
                    Some((hash_simple_v(), "rb"@))
                } else if e == lower_seq("yml"@) || e == lower_seq("yaml"@) {
                    Some((hash_simple_v(), "yaml"@))
                } else if e == lower_seq("ini"@) || e == lower_seq("cfg"@) || e == lower_seq(
                    "conf"@,
                ) || e == lower_seq("env"@) {
                    Some((hash_simple_v(), "ini"@))
                } else if e == lower_seq("lua"@) {
                    Some((lua_v(), "lua"@))
                } else if e == lower_seq("mk"@) {
                    Some((hash_simple_v(), "make"@))
                } else {
                    None
                }
            },
        }
    }
}

/// Map a path to its syntax profile and canonical language tag, or `None`
/// when the file's language is not supported.
pub fn syntax_for_path(path: &str) -> (r: Option<SyntaxInfo>)
    ensures
        r is Some <==> spec_syntax_for(path@) is Some,
        r matches Some(info) ==> {
            &&& spec_syntax_for(path@) matches Some(pair) && info.syntax@ == pair.0
                && info.language@ == pair.1
            &&& wf_syntax_v(info.syntax@)
        },
{
    let n = path.unicode_len();
    let name: &str = match rfind_char(path, '/') {
        Some(q) => {
            proof {
                lemma_rlast_bounds(path@, '/');
            }
            path.substring_char(q + 1, n)
        },
        None => path,
    };
    assert(name@ == spec_file_name(path@));

    if str_eq_ignore_ascii_case(name, "makefile") {
        return Some(SyntaxInfo { syntax: hash_simple(), language: "makefile".to_owned() });
    }
    if str_eq_ignore_ascii_case(name, "dockerfile") {
        return Some(SyntaxInfo { syntax: hash_simple(), language: "dockerfile".to_owned() });
    }

    let nn = name.unicode_len();
    let ext: &str = match rfind_char(name, '.') {
        Some(q) => {
            if q == 0 {
                return None;
            }
            proof {
                lemma_rlast_bounds(name@, '.');
            }
            name.substring_char(q + 1, nn)
        },
        None => {
            return None;
        },
    };
    assert(spec_extension(name@) == Some(ext@));

    if str_eq_ignore_ascii_case(ext, "rs") {
        Some(SyntaxInfo { syntax: rust_syntax(), language: "rs".to_owned() })
    } else if str_eq_ignore_ascii_case(ext, "c") || str_eq_ignore_ascii_case(ext, "h") {
        Some(SyntaxInfo { syntax: c_style(), language: "c".to_owned() })
    } else if str_eq_ignore_ascii_case(ext, "cpp") || str_eq_ignore_ascii_case(ext, "cc")
        || str_eq_ignore_ascii_case(ext, "cxx") || str_eq_ignore_ascii_case(ext, "hpp")
        || str_eq_ignore_ascii_case(ext, "hh") || str_eq_ignore_ascii_case(ext, "hxx") {
        Some(SyntaxInfo { syntax: c_style(), language: "cpp".to_owned() })
    } else if str_eq_ignore_ascii_case(ext, "java") {
        Some(SyntaxInfo { syntax: c_style(), language: "java".to_owned() })
    } else if str_eq_ignore_ascii_case(ext, "kt") || str_eq_ignore_ascii_case(ext, "kts") {
        Some(SyntaxInfo { syntax: c_style(), language: "kotlin".to_owned() })
    } else if str_eq_ignore_ascii_case(ext, "swift") {
        Some(SyntaxInfo { syntax: c_style(), language: "swift".to_owned() })
    } else if str_eq_ignore_ascii_case(ext, "go") {
        Some(SyntaxInfo { syntax: go_syntax(), language: "go".to_owned() })
    } else if str_eq_ignore_ascii_case(ext, "cs") {
        Some(SyntaxInfo { syntax: c_style(), language: "cs".to_owned() })
    } else if str_eq_ignore_ascii_case(ext, "scala") {
        Some(SyntaxInfo { syntax: c_style(), language: "scala".to_owned() })
    } else if str_eq_ignore_ascii_case(ext, "dart") {
        Some(SyntaxInfo { syntax: c_style(), language: "dart".to_owned() })
    } else if str_eq_ignore_ascii_case(ext, "js") || str_eq_ignore_ascii_case(ext, "jsx") {
        Some(SyntaxInfo { syntax: c_style_js(), language: "js".to_owned() })
    } else if str_eq_ignore_ascii_case(ext, "ts") || str_eq_ignore_ascii_case(ext, "tsx") {
        Some(SyntaxInfo { syntax: c_style_js(), language: "ts".to_owned() })
    } else if str_eq_ignore_ascii_case(ext, "py") {
        Some(SyntaxInfo { syntax: hash_py(), language: "py".to_owned() })
    } else if str_eq_ignore_ascii_case(ext, "sh") || str_eq_ignore_ascii_case(ext, "bash")
        || str_eq_ignore_ascii_case(ext, "zsh") {
        Some(SyntaxInfo { syntax: hash_shell(), language: "sh".to_owned() })
    } else if str_eq_ignore_ascii_case(ext, "toml") {
        Some(SyntaxInfo { syntax: hash_toml(), language: "toml".to_owned() })
    } else if str_eq_ignore_ascii_case(ext, "rb") {
        Some(SyntaxInfo { syntax: hash_simple(), language: "rb".to_owned() })
    } else if str_eq_ignore_ascii_case(ext, "yml") || str_eq_ignore_ascii_case(ext, "yaml") {
        Some(SyntaxInfo { syntax: hash_simple(), language: "yaml".to_owned() })
    } else if str_eq_ignore_ascii_case(ext, "ini") || str_eq_ignore_ascii_case(ext, "cfg")
        || str_eq_ignore_ascii_case(ext, "conf") || str_eq_ignore_ascii_case(ext, "env") {
        Some(SyntaxInfo { syntax: hash_simple(), language: "ini".to_owned() })
    } else if str_eq_ignore_ascii_case(ext, "lua") {
        Some(SyntaxInfo { syntax: lua(), language: "lua".to_owned() })
    } else if str_eq_ignore_ascii_case(ext, "mk") {
        Some(SyntaxInfo { syntax: hash_simple(), language: "make".to_owned() })
    } else {
        None
    }
}

} // verus!

verus! {

/// Every profile the registry hands out is well-formed.
pub proof fn lemma_syntax_for_wf(p: Seq<char>)
    requires
        spec_syntax_for(p) is Some,
    ensures
        wf_syntax_v(spec_syntax_for(p).unwrap().0),
{
    lemma_profiles_wf();
}

} // verus!
