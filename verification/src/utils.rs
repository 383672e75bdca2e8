use vstd::prelude::*;

use crate::syntax::{rfind_char, spec_rlast};

verus! {

/// Lexicographic order on character sequences, by code point.
pub open spec fn seq_char_lt(a: Seq<char>, b: Seq<char>) -> bool
    decreases a.len(),
{
    if b.len() == 0 {
        false
    } else if a.len() == 0 {
        true
    } else if a[0] != b[0] {
        a[0] < b[0]
    } else {
        seq_char_lt(a.drop_first(), b.drop_first())
    }
}

/// Lexicographic comparison of two strings, by code point.
pub fn str_lt(a: &str, b: &str) -> (r: bool)
    ensures
        r == seq_char_lt(a@, b@),
{
    let an = a.unicode_len();
    let bn = b.unicode_len();
    let mut i: usize = 0;
    proof {
        assert(a@.skip(0) =~= a@);
        assert(b@.skip(0) =~= b@);
    }
    while i < an && i < bn
        invariant
            an == a@.len(),
            bn == b@.len(),
            i <= an,
            i <= bn,
            seq_char_lt(a@, b@) == seq_char_lt(a@.skip(i as int), b@.skip(i as int)),
        decreases an - i,
    {
        let ca = a.get_char(i);
        let cb = b.get_char(i);
        proof {
            assert(a@.skip(i as int)[0] == a@[i as int]);
            assert(b@.skip(i as int)[0] == b@[i as int]);
            assert(a@.skip(i as int).drop_first() =~= a@.skip(i + 1));
            assert(b@.skip(i as int).drop_first() =~= b@.skip(i + 1));
        }
        if ca != cb {
            return ca < cb;
        }
        i = i + 1;
    }
    proof {
        assert(a@.skip(i as int).len() == an - i);
        assert(b@.skip(i as int).len() == bn - i);
    }
    an < bn
}

/// First position at or after `i` where `c` occurs in `s`.
pub open spec fn spec_find_char_from(s: Seq<char>, c: char, i: int) -> Option<int>
    decreases s.len() - i,
{
    if i < 0 || i >= s.len() {
        None
    } else if s[i] == c {
        Some(i)
    } else {
        spec_find_char_from(s, c, i + 1)
    }
}

proof fn lemma_find_char_bounds(s: Seq<char>, c: char, i: int)
    requires
        spec_find_char_from(s, c, i) is Some,
    ensures
        i <= spec_find_char_from(s, c, i).unwrap() < s.len(),
        s[spec_find_char_from(s, c, i).unwrap()] == c,
    decreases s.len() - i,
{
    if i < 0 || i >= s.len() {
    } else if s[i] == c {
    } else {
        lemma_find_char_bounds(s, c, i + 1);
    }
}

/// First position where `c` occurs in `s`.
pub fn find_char(s: &str, c: char) -> (r: Option<usize>)
    ensures
        match r {
            Some(i) => spec_find_char_from(s@, c, 0) == Some(i as int),
            None => spec_find_char_from(s@, c, 0) is None,
        },
{
    let n = s.unicode_len();
    let mut i: usize = 0;
    while i < n
        invariant
            n == s@.len(),
            i <= n,
            spec_find_char_from(s@, c, 0) == spec_find_char_from(s@, c, i as int),
        decreases n - i,
    {
        if s.get_char(i) == c {
            return Some(i);
        }
        i = i + 1;
    }
    None
}

/// The `/`-separated prefix of `q` that keeps its first `depth` non-empty
/// components.
pub open spec fn spec_prefix_components(q: Seq<char>, depth: int) -> Seq<char>
    decreases q.len()
        via spec_prefix_components_decreases
{
    if depth <= 0 || q.len() == 0 {
        Seq::<char>::empty()
    } else {
        match spec_find_char_from(q, '/', 0) {
            Some(i) => if i == 0 {
                spec_prefix_components(q.skip(1), depth)
            } else {
                let rest = spec_prefix_components(q.skip(i + 1), depth - 1);
                if rest.len() == 0 {
                    q.take(i)
                } else {
                    q.take(i) + seq!['/'] + rest
                }
            },
            None => q,
        }
    }
}

#[via_fn]
proof fn spec_prefix_components_decreases(q: Seq<char>, depth: int) {
    if depth > 0 && q.len() > 0 {
        if spec_find_char_from(q, '/', 0) is Some {
            lemma_find_char_bounds(q, '/', 0);
        }
    }
}

/// The `/`-separated prefix of `q` that keeps its first `depth` non-empty
/// components.
pub fn prefix_components(q: &str, depth: usize) -> (r: String)
    ensures
        r@ == spec_prefix_components(q@, depth as int),
    decreases q@.len(),
{
    let n = q.unicode_len();
    if depth == 0 || n == 0 {
        let r = String::new();
        return r;
    }
    match find_char(q, '/') {
        Some(i) => {
            proof {
                lemma_find_char_bounds(q@, '/', 0);
            }
            if i == 0 {
                let tail = q.substring_char(1, n);
                prefix_components(tail, depth)
            } else {
                let tail = q.substring_char(i + 1, n);
                let rest = prefix_components(tail, depth - 1);
                let head = q.substring_char(0, i);
                if rest.as_str().unicode_len() == 0 {
                    proof {
                        assert(rest@.len() == 0);
                    }
                    head.to_owned()
                } else {
                    let out = head.to_owned().concat("/").concat(rest.as_str());
                    proof {
                        assert(out@ =~= q@.take(i as int) + seq!['/'] + rest@) by {
                            reveal_strlit("/");
                        }
                    }
                    out
                }
            }
        },
        None => q.to_owned(),
    }
}

/// `p` lies under the root `r`: `r` is a whole-component prefix of `p`.
pub open spec fn spec_path_starts_with(p: Seq<char>, r: Seq<char>) -> bool {
    &&& r.len() <= p.len()
    &&& p.take(r.len() as int) == r
    &&& (p.len() == r.len() || p[r.len() as int] == '/' || (r.len() > 0 && r[r.len() - 1] == '/'))
}

/// `p` lies under the root `r`.
pub fn path_starts_with(p: &str, r: &str) -> (res: bool)
    ensures
        res == spec_path_starts_with(p@, r@),
{
    let pn = p.unicode_len();
    let rn = r.unicode_len();
    if rn > pn {
        return false;
    }
    let mut i: usize = 0;
    while i < rn
        invariant
            pn == p@.len(),
            rn == r@.len(),
            rn <= pn,
            i <= rn,
            forall|t: int| 0 <= t < i ==> p@[t] == r@[t],
        decreases rn - i,
    {
        if p.get_char(i) != r.get_char(i) {
            assert(p@.take(rn as int)[i as int] != r@[i as int]);
            return false;
        }
        i = i + 1;
    }
    proof {
        assert(p@.take(rn as int) =~= r@);
    }
    if pn == rn {
        return true;
    }
    if p.get_char(rn) == '/' {
        return true;
    }
    rn > 0 && r.get_char(rn - 1) == '/'
}

/// The part of `p` below the root `r`: the bytes after `r` and one
/// separating `/`.
pub open spec fn spec_strip_root(p: Seq<char>, r: Seq<char>) -> Seq<char> {
    if p.len() > r.len() && p[r.len() as int] == '/' {
        p.skip(r.len() as int + 1)
    } else {
        p.skip(r.len() as int)
    }
}

/// The parent of a path: everything before the last `/`, or nothing.
pub open spec fn spec_parent(q: Seq<char>) -> Seq<char> {
    match spec_rlast(q, '/') {
        Some(i) => q.take(i),
        None => Seq::<char>::empty(),
    }
}

/// The parent of a path as a string slice.
pub fn parent_of<'a>(q: &'a str) -> (r: &'a str)
    ensures
        r@ == spec_parent(q@),
{
    match rfind_char(q, '/') {
        Some(i) => {
            proof {
                crate::syntax::lemma_rlast_bounds(q@, '/');
            }
            q.substring_char(0, i)
        },
        None => {
            let r = q.substring_char(0, 0);
            proof {
                assert(r@ =~= Seq::<char>::empty());
            }
            r
        },
    }
}

proof fn lemma_first_root_props(p: Seq<char>, roots: Seq<Seq<char>>, k: int)
    requires
        spec_first_root(p, roots, k) is Some,
    ensures
        k <= spec_first_root(p, roots, k).unwrap() < roots.len(),
        spec_path_starts_with(p, roots[spec_first_root(p, roots, k).unwrap()]),
    decreases roots.len() - k,
{
    if k < 0 || k >= roots.len() {
    } else if spec_path_starts_with(p, roots[k]) {
    } else {
        lemma_first_root_props(p, roots, k + 1);
    }
}

/// The index of the first configured root that contains `p`.
pub open spec fn spec_first_root(p: Seq<char>, roots: Seq<Seq<char>>, k: int) -> Option<int>
    decreases roots.len() - k,
{
    if k < 0 || k >= roots.len() {
        None
    } else if spec_path_starts_with(p, roots[k]) {
        Some(k)
    } else {
        spec_first_root(p, roots, k + 1)
    }
}

/// The folder group key of a path: the first `depth` components of its
/// parent directory, taken relative to the first configured root that
/// contains it, or to its own parent when no root does.
pub open spec fn spec_folder_key(p: Seq<char>, roots: Seq<Seq<char>>, depth: int) -> Seq<char> {
    if depth <= 0 {
        Seq::<char>::empty()
    } else {
        match spec_first_root(p, roots, 0) {
            Some(ri) => {
                let rel = spec_strip_root(p, roots[ri]);
                if rel.len() > 0 {
                    spec_prefix_components(spec_parent(rel), depth)
                } else {
                    spec_prefix_components(spec_parent(p), depth)
                }
            },
            None => spec_prefix_components(spec_parent(p), depth),
        }
    }
}

/// The folder group key of a path.
pub fn folder_key(path: &str, roots: &Vec<String>, depth: usize) -> (r: String)
    ensures
        r@ == spec_folder_key(path@, roots.deep_view(), depth as int),
{
    let ghost rv = roots.deep_view();
    if depth == 0 {
        let r = String::new();
        return r;
    }
    let n = path.unicode_len();
    let mut k: usize = 0;
    let mut hit: Option<usize> = None;
    while k < roots.len() && hit.is_none()
        invariant
            rv == roots.deep_view(),
            n == path@.len(),
            k <= roots@.len(),
            match hit {
                Some(h) => spec_first_root(path@, rv, 0) == Some(h as int) && (h as int) < rv.len(),
                None => spec_first_root(path@, rv, 0) == spec_first_root(path@, rv, k as int),
            },
        decreases roots@.len() - k + (if hit is None {
            1int
        } else {
            0int
        }),
    {
        proof {
            assert(rv[k as int] == roots@[k as int]@);
        }
        if path_starts_with(path, roots[k].as_str()) {
            hit = Some(k);
        } else {
            k = k + 1;
        }
    }
    match hit {
        Some(ri) => {
            let root: &String = &roots[ri];
            let rn = root.as_str().unicode_len();
            proof {
                assert(rv[ri as int] == roots@[ri as int]@);
                lemma_first_root_props(path@, rv, 0);
                assert(spec_path_starts_with(path@, rv[ri as int]));
            }
            let start = if n > rn && path.get_char(rn) == '/' {
                rn + 1
            } else {
                rn
            };
            let rel = path.substring_char(start, n);
            proof {
                assert(rel@ =~= spec_strip_root(path@, rv[ri as int]));
            }
            if rel.unicode_len() > 0 {
                prefix_components(parent_of(rel), depth)
            } else {
                prefix_components(parent_of(path), depth)
            }
        },
        None => prefix_components(parent_of(path), depth),
    }
}

} // verus!

verus! {

/// Character-for-character equality of two strings.
pub fn str_eq(a: &str, b: &str) -> (r: bool)
    ensures
        r == (a@ == b@),
{
    let an = a.unicode_len();
    let bn = b.unicode_len();
    if an != bn {
        return false;
    }
    let mut i: usize = 0;
    while i < an
        invariant
            an == a@.len(),
            bn == b@.len(),
            an == bn,
            i <= an,
            forall|t: int| 0 <= t < i ==> a@[t] == b@[t],
        decreases an - i,
    {
        if a.get_char(i) != b.get_char(i) {
            return false;
        }
        i = i + 1;
    }
    proof {
        assert(a@ =~= b@);
    }
    true
}

} // verus!

verus! {

/// Appending one element extends the filtered sequence exactly when the
/// predicate holds of it.
pub proof fn lemma_filter_push<A>(s: Seq<A>, pred: spec_fn(A) -> bool, x: A)
    ensures
        s.push(x).filter(pred) == if pred(x) {
            s.filter(pred).push(x)
        } else {
            s.filter(pred)
        },
{
    reveal(Seq::filter);
    assert(s.push(x).drop_last() =~= s);
    assert(s.push(x).last() == x);
}

/// Filtering nothing yields nothing.
pub proof fn lemma_filter_empty<A>(pred: spec_fn(A) -> bool)
    ensures
        Seq::<A>::empty().filter(pred) == Seq::<A>::empty(),
{
    reveal(Seq::filter);
}

/// Every element of a filtered sequence comes from the original.
pub proof fn lemma_filter_subset<A>(s: Seq<A>, pred: spec_fn(A) -> bool, i: int)
    requires
        0 <= i < s.filter(pred).len(),
    ensures
        exists|w: int| 0 <= w < s.len() && s[w] == s.filter(pred)[i],
    decreases s.len(),
{
    if s.len() > 0 {
        lemma_filter_unfold(s, pred);
        let sub = s.drop_last().filter(pred);
        if i < sub.len() {
            lemma_filter_subset(s.drop_last(), pred, i);
            let w = choose|w: int| 0 <= w < s.drop_last().len() && s.drop_last()[w] == sub[i];
            assert(s[w] == s.filter(pred)[i]);
        } else {
            assert(s.filter(pred)[i] == s.last());
            assert(s[s.len() - 1] == s.filter(pred)[i]);
        }
    } else {
        lemma_filter_empty(pred);
    }
}

/// A filter whose predicate holds of every element keeps the sequence.
pub proof fn lemma_filter_all<A>(s: Seq<A>, pred: spec_fn(A) -> bool)
    requires
        forall|i: int| 0 <= i < s.len() ==> pred(#[trigger] s[i]),
    ensures
        s.filter(pred) == s,
    decreases s.len(),
{
    if s.len() == 0 {
        lemma_filter_empty(pred);
        assert(s =~= Seq::<A>::empty());
        assert(s.filter(pred) =~= s);
    } else {
        lemma_filter_all(s.drop_last(), pred);
        assert(pred(s.last()));
        lemma_filter_unfold(s, pred);
        assert(s.filter(pred) =~= s.drop_last().filter(pred).push(s.last()));
        assert(s.drop_last().push(s.last()) =~= s);
    }
}

/// One unfolding of the filter on a non-empty sequence.
pub proof fn lemma_filter_unfold<A>(s: Seq<A>, pred: spec_fn(A) -> bool)
    requires
        s.len() > 0,
    ensures
        s.filter(pred) == if pred(s.last()) {
            s.drop_last().filter(pred).push(s.last())
        } else {
            s.drop_last().filter(pred)
        },
{
    reveal(Seq::filter);
}

} // verus!

verus! {

/// A filter whose predicate holds of no element keeps nothing.
pub proof fn lemma_filter_none<A>(s: Seq<A>, pred: spec_fn(A) -> bool)
    requires
        forall|i: int| 0 <= i < s.len() ==> !pred(#[trigger] s[i]),
    ensures
        s.filter(pred) == Seq::<A>::empty(),
    decreases s.len(),
{
    if s.len() == 0 {
        lemma_filter_empty(pred);
        assert(s =~= Seq::<A>::empty());
    } else {
        lemma_filter_none(s.drop_last(), pred);
        lemma_filter_unfold(s, pred);
    }
}

} // verus!

verus! {

/// Membership in a concatenation splits over the halves.
pub proof fn lemma_contains_concat<A>(a: Seq<A>, b: Seq<A>, x: A)
    ensures
        (a + b).contains(x) <==> (a.contains(x) || b.contains(x)),
{
    if (a + b).contains(x) {
        let w = choose|w: int| 0 <= w < (a + b).len() && (a + b)[w] == x;
        if w < a.len() {
            assert(a[w] == x);
        } else {
            assert(b[w - a.len()] == x);
        }
    }
    if a.contains(x) {
        let w = choose|w: int| 0 <= w < a.len() && a[w] == x;
        assert((a + b)[w] == x);
    }
    if b.contains(x) {
        let w = choose|w: int| 0 <= w < b.len() && b[w] == x;
        assert((a + b)[w + a.len()] == x);
    }
}

} // verus!

verus! {

/// A predicate and its negation split a sequence: the two filters'
/// lengths add up to the whole.
pub proof fn lemma_filter_split_len<A>(s: Seq<A>, p: spec_fn(A) -> bool, q: spec_fn(A) -> bool)
    requires
        forall|x: A| #[trigger] q(x) <==> !p(x),
    ensures
        s.filter(p).len() + s.filter(q).len() == s.len(),
    decreases s.len(),
{
    if s.len() == 0 {
        lemma_filter_empty(p);
        lemma_filter_empty(q);
        assert(s =~= Seq::<A>::empty());
        assert(s.filter(p) =~= Seq::<A>::empty());
        assert(s.filter(q) =~= Seq::<A>::empty());
    } else {
        lemma_filter_split_len(s.drop_last(), p, q);
        lemma_filter_unfold(s, p);
        lemma_filter_unfold(s, q);
        assert(q(s.last()) <==> !p(s.last()));
    }
}

} // verus!
