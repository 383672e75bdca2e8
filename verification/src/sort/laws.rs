use vstd::prelude::*;

use crate::constants::spec_is_canonical_mark;
use crate::model::MarkV;
use crate::sort::config::{DimensionStage, LanguageOrder, Order};
use crate::sort::pipeline::{spec_apply_pipeline, spec_concat_blocks, spec_pipeline};
use crate::sort::stages::{
    key_block, key_count, spec_group_lt, spec_insert_key, spec_keys_in_order, spec_mark_priority,
    spec_sort_keys_from, spec_sorted_keys, spec_stage_key, spec_unranked,
    lemma_keys_in_order_sound,
};
use crate::utils::{lemma_filter_empty, lemma_filter_unfold, seq_char_lt};

verus! {

proof fn lemma_char_lt_asym(a: Seq<char>, b: Seq<char>)
    ensures
        seq_char_lt(a, b) ==> !seq_char_lt(b, a),
    decreases a.len(),
{
    if b.len() == 0 || a.len() == 0 {
    } else if a[0] != b[0] {
    } else {
        lemma_char_lt_asym(a.drop_first(), b.drop_first());
    }
}

proof fn lemma_char_lt_trichotomy(a: Seq<char>, b: Seq<char>)
    ensures
        a != b ==> seq_char_lt(a, b) || seq_char_lt(b, a),
    decreases a.len(),
{
    if a.len() == 0 && b.len() == 0 {
        assert(a =~= b);
    } else if b.len() == 0 || a.len() == 0 {
    } else if a[0] != b[0] {
    } else {
        lemma_char_lt_trichotomy(a.drop_first(), b.drop_first());
        if a.drop_first() == b.drop_first() {
            assert(a =~= b) by {
                assert(a.drop_first().len() == b.drop_first().len());
                assert forall|i: int| 0 <= i < a.len() implies a[i] == b[i] by {
                    if i > 0 {
                        assert(a[i] == a.drop_first()[i - 1]);
                        assert(b[i] == b.drop_first()[i - 1]);
                    }
                }
            }
        }
    }
}

proof fn lemma_char_lt_trans(a: Seq<char>, b: Seq<char>, c: Seq<char>)
    ensures
        (seq_char_lt(a, b) && seq_char_lt(b, c)) ==> seq_char_lt(a, c),
    decreases a.len() + b.len() + c.len(),
{
    if seq_char_lt(a, b) && seq_char_lt(b, c) {
        if b.len() == 0 || c.len() == 0 {
        } else if a.len() == 0 {
        } else if a[0] != b[0] || b[0] != c[0] {
        } else {
            lemma_char_lt_trans(a.drop_first(), b.drop_first(), c.drop_first());
        }
    }
}

/// The stage's group order is asymmetric.
proof fn lemma_group_lt_asym(stage: DimensionStage, a: Seq<char>, ca: int, b: Seq<char>, cb: int)
    ensures
        spec_group_lt(stage, a, ca, b, cb) ==> !spec_group_lt(stage, b, cb, a, ca),
{
    lemma_char_lt_asym(a, b);
    lemma_char_lt_asym(b, a);
}

/// On distinct keys the stage's group order is total.
proof fn lemma_group_lt_trichotomy(
    stage: DimensionStage,
    a: Seq<char>,
    ca: int,
    b: Seq<char>,
    cb: int,
)
    requires
        a != b,
    ensures
        spec_group_lt(stage, a, ca, b, cb) || spec_group_lt(stage, b, cb, a, ca),
{
    lemma_char_lt_trichotomy(a, b);
    lemma_char_lt_trichotomy(b, a);
}

/// The stage's group order is transitive.
proof fn lemma_group_lt_trans(
    stage: DimensionStage,
    a: Seq<char>,
    ca: int,
    b: Seq<char>,
    cb: int,
    c: Seq<char>,
    cc: int,
)
    requires
        spec_group_lt(stage, a, ca, b, cb),
        spec_group_lt(stage, b, cb, c, cc),
    ensures
        spec_group_lt(stage, a, ca, c, cc),
{
    lemma_char_lt_trans(a, b, c);
    lemma_char_lt_trans(c, b, a);
}

} // verus!

verus! {

/// Keys pairwise distinct.
pub open spec fn keys_distinct(keys: Seq<Seq<char>>) -> bool {
    forall|i: int, j: int| 0 <= i < j < keys.len() ==> keys[i] != keys[j]
}

/// Keys in ascending group order (with counts taken over `ms`).
pub open spec fn keys_sorted(
    stage: DimensionStage,
    keys: Seq<Seq<char>>,
    ms: Seq<MarkV>,
    roots: Seq<Seq<char>>,
) -> bool {
    forall|i: int, j: int|
        0 <= i < j < keys.len() ==> spec_group_lt(
            stage,
            #[trigger] keys[i],
            key_count(stage, ms, roots, keys[i]),
            #[trigger] keys[j],
            key_count(stage, ms, roots, keys[j]),
        )
}

proof fn lemma_insert_contents(
    stage: DimensionStage,
    acc: Seq<Seq<char>>,
    k: Seq<char>,
    ms: Seq<MarkV>,
    roots: Seq<Seq<char>>,
    x: Seq<char>,
)
    ensures
        spec_insert_key(stage, acc, k, ms, roots).contains(x) <==> (acc.contains(x) || x == k),
    decreases acc.len(),
{
    let out = spec_insert_key(stage, acc, k, ms, roots);
    if acc.len() == 0 {
        assert(out == seq![k]);
        assert(out.contains(x) <==> x == k) by {
            if out.contains(x) {
                let w = choose|w: int| 0 <= w < out.len() && out[w] == x;
            }
            if x == k {
                assert(out[0] == x);
            }
        }
    } else if spec_group_lt(
        stage,
        k,
        key_count(stage, ms, roots, k),
        acc[0],
        key_count(stage, ms, roots, acc[0]),
    ) {
        assert(out == seq![k] + acc);
        assert(out.contains(x) <==> (acc.contains(x) || x == k)) by {
            if out.contains(x) {
                let w = choose|w: int| 0 <= w < out.len() && out[w] == x;
                if w == 0 {
                } else {
                    assert(acc[w - 1] == x);
                }
            }
            if x == k {
                assert(out[0] == x);
            }
            if acc.contains(x) {
                let w = choose|w: int| 0 <= w < acc.len() && acc[w] == x;
                assert(out[w + 1] == x);
            }
        }
    } else {
        lemma_insert_contents(stage, acc.drop_first(), k, ms, roots, x);
        let inner = spec_insert_key(stage, acc.drop_first(), k, ms, roots);
        assert(out == seq![acc[0]] + inner);
        assert(out.contains(x) <==> (acc.contains(x) || x == k)) by {
            if out.contains(x) {
                let w = choose|w: int| 0 <= w < out.len() && out[w] == x;
                if w == 0 {
                    assert(acc[0] == x);
                } else {
                    assert(inner[w - 1] == x);
                    assert(inner.contains(x));
                    if acc.drop_first().contains(x) {
                        let v = choose|v: int|
                            0 <= v < acc.drop_first().len() && acc.drop_first()[v] == x;
                        assert(acc[v + 1] == x);
                    }
                }
            }
            if x == k {
                assert(inner.contains(x));
                let w = choose|w: int| 0 <= w < inner.len() && inner[w] == x;
                assert(out[w + 1] == x);
            }
            if acc.contains(x) {
                let w = choose|w: int| 0 <= w < acc.len() && acc[w] == x;
                if w == 0 {
                    assert(out[0] == x);
                } else {
                    assert(acc.drop_first()[w - 1] == x);
                    assert(acc.drop_first().contains(x));
                    assert(inner.contains(x));
                    let v = choose|v: int| 0 <= v < inner.len() && inner[v] == x;
                    assert(out[v + 1] == x);
                }
            }
        }
    }
}

/// A key that no present key precedes lands at the end.
proof fn lemma_insert_append(
    stage: DimensionStage,
    acc: Seq<Seq<char>>,
    k: Seq<char>,
    ms: Seq<MarkV>,
    roots: Seq<Seq<char>>,
)
    requires
        forall|t: int|
            0 <= t < acc.len() ==> !spec_group_lt(
                stage,
                k,
                key_count(stage, ms, roots, k),
                #[trigger] acc[t],
                key_count(stage, ms, roots, acc[t]),
            ),
    ensures
        spec_insert_key(stage, acc, k, ms, roots) == acc.push(k),
    decreases acc.len(),
{
    if acc.len() == 0 {
        assert(spec_insert_key(stage, acc, k, ms, roots) =~= acc.push(k));
    } else {
        assert(!spec_group_lt(
            stage,
            k,
            key_count(stage, ms, roots, k),
            acc[0],
            key_count(stage, ms, roots, acc[0]),
        ));
        assert(forall|t: int|
            0 <= t < acc.drop_first().len() ==> acc.drop_first()[t] == acc[t + 1]);
        lemma_insert_append(stage, acc.drop_first(), k, ms, roots);
        assert(seq![acc[0]] + acc.drop_first().push(k) =~= acc.push(k));
    }
}

/// Inserting a fresh key keeps the list sorted.
proof fn lemma_insert_sorted(
    stage: DimensionStage,
    acc: Seq<Seq<char>>,
    k: Seq<char>,
    ms: Seq<MarkV>,
    roots: Seq<Seq<char>>,
)
    requires
        keys_sorted(stage, acc, ms, roots),
        keys_distinct(acc),
        !acc.contains(k),
    ensures
        keys_sorted(stage, spec_insert_key(stage, acc, k, ms, roots), ms, roots),
        keys_distinct(spec_insert_key(stage, acc, k, ms, roots)),
    decreases acc.len(),
{
    let out = spec_insert_key(stage, acc, k, ms, roots);
    let ck = key_count(stage, ms, roots, k);
    if acc.len() == 0 {
        assert(out == seq![k]);
    } else {
        let c0 = key_count(stage, ms, roots, acc[0]);
        assert(acc[0] != k) by {
            if acc[0] == k {
                assert(acc.contains(k));
            }
        }
        lemma_group_lt_trichotomy(stage, k, ck, acc[0], c0);
        if spec_group_lt(stage, k, ck, acc[0], c0) {
            assert(out == seq![k] + acc);
            assert forall|i: int, j: int| 0 <= i < j < out.len() implies spec_group_lt(
                stage,
                #[trigger] out[i],
                key_count(stage, ms, roots, out[i]),
                #[trigger] out[j],
                key_count(stage, ms, roots, out[j]),
            ) by {
                if i == 0 {
                    assert(out[0] == k);
                    assert(out[j] == acc[j - 1]);
                    if j >= 2 {
                        lemma_group_lt_trans(
                            stage,
                            k,
                            ck,
                            acc[0],
                            c0,
                            acc[j - 1],
                            key_count(stage, ms, roots, acc[j - 1]),
                        );
                    }
                } else {
                    assert(out[i] == acc[i - 1]);
                    assert(out[j] == acc[j - 1]);
                }
            }
            assert forall|i: int, j: int| 0 <= i < j < out.len() implies out[i] != out[j] by {
                if i == 0 {
                    assert(out[j] == acc[j - 1]);
                    if out[0] == out[j] {
                        assert(acc.contains(k));
                    }
                } else {
                    assert(out[i] == acc[i - 1]);
                    assert(out[j] == acc[j - 1]);
                }
            }
        } else {
            assert(acc.drop_first().len() < acc.len());
            assert(keys_sorted(stage, acc.drop_first(), ms, roots)) by {
                assert(forall|t: int|
                    0 <= t < acc.drop_first().len() ==> acc.drop_first()[t] == acc[t + 1]);
            }
            assert(keys_distinct(acc.drop_first())) by {
                assert(forall|t: int|
                    0 <= t < acc.drop_first().len() ==> acc.drop_first()[t] == acc[t + 1]);
            }
            assert(!acc.drop_first().contains(k)) by {
                if acc.drop_first().contains(k) {
                    let w = choose|w: int|
                        0 <= w < acc.drop_first().len() && acc.drop_first()[w] == k;
                    assert(acc[w + 1] == k);
                    assert(acc.contains(k));
                }
            }
            lemma_insert_sorted(stage, acc.drop_first(), k, ms, roots);
            let inner = spec_insert_key(stage, acc.drop_first(), k, ms, roots);
            assert(out == seq![acc[0]] + inner);
            // acc[0] precedes everything inside inner.
            assert forall|t: int| 0 <= t < inner.len() implies spec_group_lt(
                stage,
                acc[0],
                c0,
                #[trigger] inner[t],
                key_count(stage, ms, roots, inner[t]),
            ) by {
                lemma_insert_contents(stage, acc.drop_first(), k, ms, roots, inner[t]);
                assert(inner.contains(inner[t]));
                if inner[t] == k {
                    lemma_group_lt_trichotomy(stage, k, ck, acc[0], c0);
                } else {
                    assert(acc.drop_first().contains(inner[t]));
                    let w = choose|w: int|
                        0 <= w < acc.drop_first().len() && acc.drop_first()[w] == inner[t];
                    assert(acc[w + 1] == inner[t]);
                }
            }
            assert forall|i: int, j: int| 0 <= i < j < out.len() implies spec_group_lt(
                stage,
                #[trigger] out[i],
                key_count(stage, ms, roots, out[i]),
                #[trigger] out[j],
                key_count(stage, ms, roots, out[j]),
            ) by {
                if i == 0 {
                    assert(out[j] == inner[j - 1]);
                } else {
                    assert(out[i] == inner[i - 1]);
                    assert(out[j] == inner[j - 1]);
                }
            }
            assert forall|i: int, j: int| 0 <= i < j < out.len() implies out[i] != out[j] by {
                if i == 0 {
                    assert(out[j] == inner[j - 1]);
                    lemma_group_lt_asym(
                        stage,
                        acc[0],
                        c0,
                        inner[j - 1],
                        key_count(stage, ms, roots, inner[j - 1]),
                    );
                    if out[i] == out[j] {
                        assert(spec_group_lt(
                            stage,
                            acc[0],
                            c0,
                            inner[j - 1],
                            key_count(stage, ms, roots, inner[j - 1]),
                        ));
                    }
                } else {
                    assert(out[i] == inner[i - 1]);
                    assert(out[j] == inner[j - 1]);
                }
            }
        }
    }
}

} // verus!

verus! {

proof fn lemma_sort_from_props(
    stage: DimensionStage,
    acc: Seq<Seq<char>>,
    keys: Seq<Seq<char>>,
    ms: Seq<MarkV>,
    roots: Seq<Seq<char>>,
)
    requires
        keys_sorted(stage, acc, ms, roots),
        keys_distinct(acc),
        keys_distinct(keys),
        forall|t: int| 0 <= t < keys.len() ==> !acc.contains(#[trigger] keys[t]),
    ensures
        keys_sorted(stage, spec_sort_keys_from(stage, acc, keys, ms, roots), ms, roots),
        keys_distinct(spec_sort_keys_from(stage, acc, keys, ms, roots)),
        forall|x: Seq<char>|
            #[trigger] spec_sort_keys_from(stage, acc, keys, ms, roots).contains(x) <==> (
            acc.contains(x) || keys.contains(x)),
    decreases keys.len(),
{
    if keys.len() == 0 {
        assert forall|x: Seq<char>|
            #[trigger] spec_sort_keys_from(stage, acc, keys, ms, roots).contains(x) <==> (
            acc.contains(x) || keys.contains(x)) by {
            if keys.contains(x) {
                let w = choose|w: int| 0 <= w < keys.len() && keys[w] == x;
            }
        }
    } else {
        lemma_insert_sorted(stage, acc, keys[0], ms, roots);
        let acc2 = spec_insert_key(stage, acc, keys[0], ms, roots);
        assert forall|x: Seq<char>| acc2.contains(x) <==> (acc.contains(x) || x == keys[0]) by {
            lemma_insert_contents(stage, acc, keys[0], ms, roots, x);
        }
        assert(keys_distinct(keys.drop_first())) by {
            assert(forall|t: int|
                0 <= t < keys.drop_first().len() ==> keys.drop_first()[t] == keys[t + 1]);
        }
        assert forall|t: int| 0 <= t < keys.drop_first().len() implies !acc2.contains(
            #[trigger] keys.drop_first()[t],
        ) by {
            assert(keys.drop_first()[t] == keys[t + 1]);
            if acc2.contains(keys[t + 1]) {
                assert(acc.contains(keys[t + 1]) || keys[t + 1] == keys[0]);
            }
        }
        lemma_sort_from_props(stage, acc2, keys.drop_first(), ms, roots);
        assert forall|x: Seq<char>|
            #[trigger] spec_sort_keys_from(stage, acc, keys, ms, roots).contains(x) <==> (
            acc.contains(x) || keys.contains(x)) by {
            assert(spec_sort_keys_from(stage, acc, keys, ms, roots) == spec_sort_keys_from(
                stage,
                acc2,
                keys.drop_first(),
                ms,
                roots,
            ));
            if keys.contains(x) {
                let w = choose|w: int| 0 <= w < keys.len() && keys[w] == x;
                if w > 0 {
                    assert(keys.drop_first()[w - 1] == x);
                    assert(keys.drop_first().contains(x));
                }
            }
            if keys.drop_first().contains(x) {
                let w = choose|w: int| 0 <= w < keys.drop_first().len() && keys.drop_first()[w] == x;
                assert(keys[w + 1] == x);
                assert(keys.contains(x));
            }
        }
    }
}

/// The sorted key list of a stage is sorted, has distinct keys, and holds
/// exactly the first-occurrence keys.
pub proof fn lemma_sorted_keys_props(stage: DimensionStage, ms: Seq<MarkV>, roots: Seq<Seq<char>>)
    ensures
        keys_sorted(stage, spec_sorted_keys(stage, ms, roots), ms, roots),
        keys_distinct(spec_sorted_keys(stage, ms, roots)),
        forall|x: Seq<char>|
            #[trigger] spec_sorted_keys(stage, ms, roots).contains(x) <==> spec_keys_in_order(
                stage,
                ms,
                roots,
            ).contains(x),
{
    lemma_keys_in_order_sound(stage, ms, roots);
    let base = spec_keys_in_order(stage, ms, roots);
    assert(keys_distinct(base));
    lemma_sort_from_props(stage, Seq::<Seq<char>>::empty(), base, ms, roots);
}

/// Sorting an already sorted distinct key list gives it back.
proof fn lemma_sort_of_sorted(
    stage: DimensionStage,
    ks: Seq<Seq<char>>,
    i: int,
    ms: Seq<MarkV>,
    roots: Seq<Seq<char>>,
)
    requires
        keys_sorted(stage, ks, ms, roots),
        keys_distinct(ks),
        0 <= i <= ks.len(),
    ensures
        spec_sort_keys_from(stage, ks.take(i), ks.skip(i), ms, roots) == ks,
    decreases ks.len() - i,
{
    if i == ks.len() {
        assert(ks.take(i) =~= ks);
        assert(ks.skip(i).len() == 0);
    } else {
        assert(ks.skip(i)[0] == ks[i]);
        assert forall|t: int| 0 <= t < ks.take(i).len() implies !spec_group_lt(
            stage,
            ks[i],
            key_count(stage, ms, roots, ks[i]),
            #[trigger] ks.take(i)[t],
            key_count(stage, ms, roots, ks.take(i)[t]),
        ) by {
            assert(ks.take(i)[t] == ks[t]);
            assert(spec_group_lt(
                stage,
                ks[t],
                key_count(stage, ms, roots, ks[t]),
                ks[i],
                key_count(stage, ms, roots, ks[i]),
            ));
            lemma_group_lt_asym(
                stage,
                ks[t],
                key_count(stage, ms, roots, ks[t]),
                ks[i],
                key_count(stage, ms, roots, ks[i]),
            );
        }
        lemma_insert_append(stage, ks.take(i), ks[i], ms, roots);
        assert(ks.take(i).push(ks[i]) =~= ks.take(i + 1));
        assert(ks.skip(i).drop_first() =~= ks.skip(i + 1));
        lemma_sort_of_sorted(stage, ks, i + 1, ms, roots);
    }
}

} // verus!

verus! {

/// Every mark of `ms` spells a canonical word.
pub open spec fn all_canonical(ms: Seq<MarkV>) -> bool {
    forall|i: int| 0 <= i < ms.len() ==> spec_is_canonical_mark((#[trigger] ms[i]).mark)
}

/// Every element of the pipeline's output comes from its input.
proof fn lemma_pipeline_mem(
    stages: Seq<DimensionStage>,
    ms: Seq<MarkV>,
    roots: Seq<Seq<char>>,
    j: int,
)
    requires
        0 <= j < spec_pipeline(stages, ms, roots).len(),
    ensures
        exists|t: int| 0 <= t < ms.len() && ms[t] == spec_pipeline(stages, ms, roots)[j],
    decreases stages.len(), 1int, 0int,
{
    if stages.len() == 0 {
        assert(ms[j] == spec_pipeline(stages, ms, roots)[j]);
    } else {
        let blocks = spec_concat_blocks(stages, spec_sorted_keys(stages[0], ms, roots), ms, roots);
        let tail = spec_pipeline(stages.drop_first(), spec_unranked(stages[0], ms, roots), roots);
        assert(spec_pipeline(stages, ms, roots) == blocks + tail);
        if j < blocks.len() {
            lemma_concat_mem(stages, spec_sorted_keys(stages[0], ms, roots), ms, roots, j);
            let t0 = choose|t: int| 0 <= t < ms.len() && ms[t] == blocks[j];
            assert(ms[t0] == spec_pipeline(stages, ms, roots)[j]);
        } else {
            lemma_pipeline_mem(
                stages.drop_first(),
                spec_unranked(stages[0], ms, roots),
                roots,
                j - blocks.len(),
            );
            let unr = spec_unranked(stages[0], ms, roots);
            let t0 = choose|t: int| 0 <= t < unr.len() && unr[t] == tail[j - blocks.len()];
            crate::utils::lemma_filter_subset(
                ms,
                |m: MarkV| spec_stage_key(stages[0], m, roots) is None,
                t0,
            );
            let w = choose|w: int| 0 <= w < ms.len() && ms[w] == unr[t0];
            assert(ms[w] == spec_pipeline(stages, ms, roots)[j]);
        }
    }
}

proof fn lemma_concat_mem(
    stages: Seq<DimensionStage>,
    keys: Seq<Seq<char>>,
    ms: Seq<MarkV>,
    roots: Seq<Seq<char>>,
    j: int,
)
    requires
        stages.len() > 0,
        0 <= j < spec_concat_blocks(stages, keys, ms, roots).len(),
    ensures
        exists|t: int|
            0 <= t < ms.len() && ms[t] == spec_concat_blocks(stages, keys, ms, roots)[j],
    decreases stages.len(), 0int, keys.len(),
{
    let out = spec_concat_blocks(stages, keys, ms, roots);
    let block = key_block(stages[0], ms, roots, keys[0]);
    let seg = spec_pipeline(stages.drop_first(), block, roots);
    let rest = spec_concat_blocks(stages, keys.drop_first(), ms, roots);
    assert(out == seg + rest);
    if j < seg.len() {
        lemma_pipeline_mem(stages.drop_first(), block, roots, j);
        let t0 = choose|t: int| 0 <= t < block.len() && block[t] == seg[j];
        crate::utils::lemma_filter_subset(
            ms,
            |m: MarkV| spec_stage_key(stages[0], m, roots) == Some(keys[0]),
            t0,
        );
        let w = choose|w: int| 0 <= w < ms.len() && ms[w] == block[t0];
        assert(ms[w] == out[j]);
    } else {
        lemma_concat_mem(stages, keys.drop_first(), ms, roots, j - seg.len());
        let t0 = choose|t: int| 0 <= t < ms.len() && ms[t] == rest[j - seg.len()];
        assert(ms[t0] == out[j]);
    }
}

/// The pipeline neither drops nor invents anything: the output length is
/// the input length.
proof fn lemma_pipeline_len(stages: Seq<DimensionStage>, ms: Seq<MarkV>, roots: Seq<Seq<char>>)
    ensures
        spec_pipeline(stages, ms, roots).len() == ms.len(),
    decreases stages.len(), 1int, 0int,
{
    if stages.len() > 0 {
        let ks = spec_sorted_keys(stages[0], ms, roots);
        lemma_concat_len(stages, ks, ms, roots);
        crate::sort::tree::lemma_sorted_keys_sum(stages[0], ms, roots);
        lemma_pipeline_len(stages.drop_first(), spec_unranked(stages[0], ms, roots), roots);
        crate::utils::lemma_filter_split_len(
            ms,
            |m: MarkV| spec_stage_key(stages[0], m, roots) is Some,
            |m: MarkV| spec_stage_key(stages[0], m, roots) is None,
        );
    }
}

proof fn lemma_concat_len(
    stages: Seq<DimensionStage>,
    keys: Seq<Seq<char>>,
    ms: Seq<MarkV>,
    roots: Seq<Seq<char>>,
)
    requires
        stages.len() > 0,
    ensures
        spec_concat_blocks(stages, keys, ms, roots).len() == crate::sort::tree::sum_key_counts(
            stages[0],
            keys,
            ms,
            roots,
        ),
    decreases stages.len(), 0int, keys.len(),
{
    if keys.len() == 0 {
        assert(crate::sort::tree::sum_key_counts(stages[0], keys, ms, roots) == 0);
    } else {
        let block = key_block(stages[0], ms, roots, keys[0]);
        lemma_pipeline_len(stages.drop_first(), block, roots);
        lemma_concat_len(stages, keys.drop_first(), ms, roots);
        crate::sort::tree::lemma_sum_front_split(stages[0], keys, ms, roots);
    }
}

/// Every element of one key's pipelined block carries that key.
proof fn lemma_segment_pure(
    stages: Seq<DimensionStage>,
    ms: Seq<MarkV>,
    roots: Seq<Seq<char>>,
    k: Seq<char>,
)
    requires
        stages.len() > 0,
    ensures
        forall|j: int|
            0 <= j < spec_pipeline(
                stages.drop_first(),
                key_block(stages[0], ms, roots, k),
                roots,
            ).len() ==> spec_stage_key(
                stages[0],
                #[trigger] spec_pipeline(
                    stages.drop_first(),
                    key_block(stages[0], ms, roots, k),
                    roots,
                )[j],
                roots,
            ) == Some(k),
{
    let block = key_block(stages[0], ms, roots, k);
    let seg = spec_pipeline(stages.drop_first(), block, roots);
    assert forall|j: int| 0 <= j < seg.len() implies spec_stage_key(
        stages[0],
        #[trigger] seg[j],
        roots,
    ) == Some(k) by {
        lemma_pipeline_mem(stages.drop_first(), block, roots, j);
        let t = choose|t: int| 0 <= t < block.len() && block[t] == seg[j];
        ms.lemma_filter_pred(|m: MarkV| spec_stage_key(stages[0], m, roots) == Some(k), t);
    }
}

/// Filtering the concatenated output by one of its distinct keys yields
/// exactly that key's segment.
proof fn lemma_concat_filter(
    stages: Seq<DimensionStage>,
    keys: Seq<Seq<char>>,
    ms: Seq<MarkV>,
    roots: Seq<Seq<char>>,
    k: Seq<char>,
)
    requires
        stages.len() > 0,
        keys_distinct(keys),
    ensures
        spec_concat_blocks(stages, keys, ms, roots).filter(
            |m: MarkV| spec_stage_key(stages[0], m, roots) == Some(k),
        ) == if keys.contains(k) {
            spec_pipeline(stages.drop_first(), key_block(stages[0], ms, roots, k), roots)
        } else {
            Seq::<MarkV>::empty()
        },
    decreases keys.len(),
{
    let pred = |m: MarkV| spec_stage_key(stages[0], m, roots) == Some(k);
    let out = spec_concat_blocks(stages, keys, ms, roots);
    if keys.len() == 0 {
        crate::utils::lemma_filter_empty(pred);
        assert(out =~= Seq::<MarkV>::empty());
        if keys.contains(k) {
            let w = choose|w: int| 0 <= w < keys.len() && keys[w] == k;
        }
        assert(out.filter(pred) =~= Seq::<MarkV>::empty());
    } else {
        let seg = spec_pipeline(stages.drop_first(), key_block(stages[0], ms, roots, keys[0]), roots);
        let rest = spec_concat_blocks(stages, keys.drop_first(), ms, roots);
        assert(out == seg + rest);
        Seq::filter_distributes_over_add(seg, rest, pred);
        lemma_segment_pure(stages, ms, roots, keys[0]);
        assert(keys_distinct(keys.drop_first())) by {
            assert(forall|t: int|
                0 <= t < keys.drop_first().len() ==> keys.drop_first()[t] == keys[t + 1]);
        }
        lemma_concat_filter(stages, keys.drop_first(), ms, roots, k);
        if keys[0] == k {
            crate::utils::lemma_filter_all(seg, pred);
            assert(!keys.drop_first().contains(k)) by {
                if keys.drop_first().contains(k) {
                    let w = choose|w: int|
                        0 <= w < keys.drop_first().len() && keys.drop_first()[w] == k;
                    assert(keys[w + 1] == k);
                }
            }
            assert(rest.filter(pred) == Seq::<MarkV>::empty());
            assert(out.filter(pred) =~= seg);
            assert(keys.contains(k)) by {
                assert(keys[0] == k);
            }
        } else {
            assert forall|j: int| 0 <= j < seg.len() implies !pred(#[trigger] seg[j]) by {
                assert(spec_stage_key(stages[0], seg[j], roots) == Some(keys[0]));
            }
            crate::utils::lemma_filter_none(seg, pred);
            assert(out.filter(pred) =~= rest.filter(pred));
            assert(keys.contains(k) <==> keys.drop_first().contains(k)) by {
                if keys.contains(k) {
                    let w = choose|w: int| 0 <= w < keys.len() && keys[w] == k;
                    assert(w > 0);
                    assert(keys.drop_first()[w - 1] == k);
                }
                if keys.drop_first().contains(k) {
                    let w = choose|w: int|
                        0 <= w < keys.drop_first().len() && keys.drop_first()[w] == k;
                    assert(keys[w + 1] == k);
                }
            }
        }
    }
}

} // verus!

verus! {

/// A key listed for a sequence names the key of one of its elements.
proof fn lemma_kio_key_has_elem(
    stage: DimensionStage,
    ms: Seq<MarkV>,
    roots: Seq<Seq<char>>,
    k: Seq<char>,
)
    requires
        spec_keys_in_order(stage, ms, roots).contains(k),
    ensures
        exists|t: int| 0 <= t < ms.len() && spec_stage_key(stage, #[trigger] ms[t], roots) == Some(
            k,
        ),
{
    lemma_keys_in_order_sound(stage, ms, roots);
    let w = choose|w: int|
        0 <= w < spec_keys_in_order(stage, ms, roots).len() && spec_keys_in_order(
            stage,
            ms,
            roots,
        )[w] == k;
    let block = key_block(stage, ms, roots, k);
    assert(block.len() >= 1);
    crate::utils::lemma_filter_subset(
        ms,
        |m: MarkV| spec_stage_key(stage, m, roots) == Some(k),
        0,
    );
    ms.lemma_filter_pred(|m: MarkV| spec_stage_key(stage, m, roots) == Some(k), 0);
    let t = choose|t: int| 0 <= t < ms.len() && ms[t] == block[0];
    assert(spec_stage_key(stage, ms[t], roots) == Some(k));
}

/// Sequences with no key in common list their keys one after the other.
proof fn lemma_kio_concat_disjoint(
    stage: DimensionStage,
    a: Seq<MarkV>,
    b: Seq<MarkV>,
    roots: Seq<Seq<char>>,
)
    requires
        forall|s: int, t: int|
            0 <= s < a.len() && 0 <= t < b.len() ==> !(spec_stage_key(
                stage,
                #[trigger] a[s],
                roots,
            ) is Some && spec_stage_key(stage, a[s], roots) == spec_stage_key(
                stage,
                #[trigger] b[t],
                roots,
            )),
    ensures
        spec_keys_in_order(stage, a + b, roots) == spec_keys_in_order(stage, a, roots)
            + spec_keys_in_order(stage, b, roots),
    decreases b.len(),
{
    if b.len() == 0 {
        assert(a + b =~= a);
        assert(spec_keys_in_order(stage, b, roots) =~= Seq::<Seq<char>>::empty());
        assert(spec_keys_in_order(stage, a, roots) + spec_keys_in_order(stage, b, roots)
            =~= spec_keys_in_order(stage, a, roots));
    } else {
        let b2 = b.drop_last();
        assert(forall|t: int| 0 <= t < b2.len() ==> b2[t] == b[t]);
        lemma_kio_concat_disjoint(stage, a, b2, roots);
        assert((a + b).drop_last() =~= a + b2);
        assert((a + b).last() == b.last());
        let prev = spec_keys_in_order(stage, a + b2, roots);
        let ka = spec_keys_in_order(stage, a, roots);
        let kb2 = spec_keys_in_order(stage, b2, roots);
        assert(prev == ka + kb2);
        match spec_stage_key(stage, b.last(), roots) {
            None => {
                assert(spec_keys_in_order(stage, b, roots) == kb2);
                assert(spec_keys_in_order(stage, a + b, roots) == prev);
            },
            Some(k) => {
                assert(!ka.contains(k)) by {
                    if ka.contains(k) {
                        lemma_kio_key_has_elem(stage, a, roots, k);
                        let s = choose|s: int|
                            0 <= s < a.len() && spec_stage_key(stage, a[s], roots) == Some(k);
                        assert(b[b.len() - 1] == b.last());
                    }
                }
                crate::utils::lemma_contains_concat(ka, kb2, k);
                if kb2.contains(k) {
                    assert(spec_keys_in_order(stage, b, roots) == kb2);
                    assert(prev.contains(k));
                    assert(spec_keys_in_order(stage, a + b, roots) == prev);
                } else {
                    assert(!prev.contains(k));
                    assert(spec_keys_in_order(stage, a + b, roots) == prev.push(k));
                    assert(spec_keys_in_order(stage, b, roots) == kb2.push(k));
                    assert(prev.push(k) =~= ka + kb2.push(k));
                }
            },
        }
    }
}

/// A non-empty sequence whose elements all carry one key lists exactly
/// that key.
proof fn lemma_kio_pure(stage: DimensionStage, seg: Seq<MarkV>, roots: Seq<Seq<char>>, k: Seq<char>)
    requires
        seg.len() > 0,
        forall|j: int|
            0 <= j < seg.len() ==> spec_stage_key(stage, #[trigger] seg[j], roots) == Some(k),
    ensures
        spec_keys_in_order(stage, seg, roots) == seq![k],
    decreases seg.len(),
{
    let prev = spec_keys_in_order(stage, seg.drop_last(), roots);
    if seg.len() == 1 {
        assert(prev =~= Seq::<Seq<char>>::empty());
        assert(!prev.contains(k));
        assert(spec_keys_in_order(stage, seg, roots) =~= seq![k]);
    } else {
        assert(forall|j: int| 0 <= j < seg.drop_last().len() ==> seg.drop_last()[j] == seg[j]);
        lemma_kio_pure(stage, seg.drop_last(), roots, k);
        assert(prev == seq![k]);
        assert(prev.contains(k)) by {
            assert(prev[0] == k);
        }
        assert(spec_keys_in_order(stage, seg, roots) == prev);
    }
}

/// Every element of the concatenated blocks carries one of the listed
/// keys.
proof fn lemma_concat_elem_keys(
    stages: Seq<DimensionStage>,
    keys: Seq<Seq<char>>,
    ms: Seq<MarkV>,
    roots: Seq<Seq<char>>,
    j: int,
)
    requires
        stages.len() > 0,
        0 <= j < spec_concat_blocks(stages, keys, ms, roots).len(),
    ensures
        exists|t: int|
            0 <= t < keys.len() && spec_stage_key(
                stage_of(stages),
                #[trigger] spec_concat_blocks(stages, keys, ms, roots)[j],
                roots,
            ) == Some(keys[t]),
    decreases keys.len(),
{
    let out = spec_concat_blocks(stages, keys, ms, roots);
    let seg = spec_pipeline(stages.drop_first(), key_block(stages[0], ms, roots, keys[0]), roots);
    let rest = spec_concat_blocks(stages, keys.drop_first(), ms, roots);
    assert(out == seg + rest);
    if j < seg.len() {
        lemma_segment_pure(stages, ms, roots, keys[0]);
        assert(spec_stage_key(stage_of(stages), out[j], roots) == Some(keys[0]));
    } else {
        lemma_concat_elem_keys(stages, keys.drop_first(), ms, roots, j - seg.len());
        let t = choose|t: int|
            0 <= t < keys.drop_first().len() && spec_stage_key(
                stage_of(stages),
                rest[j - seg.len()],
                roots,
            ) == Some(keys.drop_first()[t]);
        assert(keys[t + 1] == keys.drop_first()[t]);
        assert(spec_stage_key(stage_of(stages), out[j], roots) == Some(keys[t + 1]));
    }
}

/// The first stage of a non-empty pipeline.
pub open spec fn stage_of(stages: Seq<DimensionStage>) -> DimensionStage {
    stages[0]
}

/// Concatenating the blocks of distinct keys with non-empty blocks lists
/// exactly those keys, in order.
proof fn lemma_concat_keys(
    stages: Seq<DimensionStage>,
    keys: Seq<Seq<char>>,
    ms: Seq<MarkV>,
    roots: Seq<Seq<char>>,
)
    requires
        stages.len() > 0,
        keys_distinct(keys),
        forall|t: int|
            0 <= t < keys.len() ==> key_block(stages[0], ms, roots, #[trigger] keys[t]).len() >= 1,
    ensures
        spec_keys_in_order(stage_of(stages), spec_concat_blocks(stages, keys, ms, roots), roots)
            == keys,
    decreases keys.len(),
{
    let out = spec_concat_blocks(stages, keys, ms, roots);
    if keys.len() == 0 {
        assert(out.len() == 0);
        assert(spec_keys_in_order(stage_of(stages), out, roots) =~= keys);
    } else {
        let block = key_block(stages[0], ms, roots, keys[0]);
        let seg = spec_pipeline(stages.drop_first(), block, roots);
        let rest = spec_concat_blocks(stages, keys.drop_first(), ms, roots);
        assert(out == seg + rest);
        lemma_pipeline_len(stages.drop_first(), block, roots);
        assert(seg.len() == block.len() >= 1);
        lemma_segment_pure(stages, ms, roots, keys[0]);
        lemma_kio_pure(stage_of(stages), seg, roots, keys[0]);
        assert(keys_distinct(keys.drop_first())) by {
            assert(forall|t: int|
                0 <= t < keys.drop_first().len() ==> keys.drop_first()[t] == keys[t + 1]);
        }
        assert(forall|t: int|
            0 <= t < keys.drop_first().len() ==> key_block(
                stages[0],
                ms,
                roots,
                #[trigger] keys.drop_first()[t],
            ).len() >= 1) by {
            assert(forall|t: int|
                0 <= t < keys.drop_first().len() ==> keys.drop_first()[t] == keys[t + 1]);
        }
        lemma_concat_keys(stages, keys.drop_first(), ms, roots);
        assert forall|s: int, t: int|
            0 <= s < seg.len() && 0 <= t < rest.len() implies !(spec_stage_key(
            stage_of(stages),
            #[trigger] seg[s],
            roots,
        ) is Some && spec_stage_key(stage_of(stages), seg[s], roots) == spec_stage_key(
            stage_of(stages),
            #[trigger] rest[t],
            roots,
        )) by {
            assert(spec_stage_key(stage_of(stages), seg[s], roots) == Some(keys[0]));
            lemma_concat_elem_keys(stages, keys.drop_first(), ms, roots, t);
            let u = choose|u: int|
                0 <= u < keys.drop_first().len() && spec_stage_key(
                    stage_of(stages),
                    rest[t],
                    roots,
                ) == Some(keys.drop_first()[u]);
            assert(keys.drop_first()[u] == keys[u + 1]);
        }
        lemma_kio_concat_disjoint(stage_of(stages), seg, rest, roots);
        assert(seq![keys[0]] + keys.drop_first() =~= keys);
    }
}

} // verus!

verus! {

proof fn lemma_insert_congruent(
    stage: DimensionStage,
    acc: Seq<Seq<char>>,
    k: Seq<char>,
    ms1: Seq<MarkV>,
    ms2: Seq<MarkV>,
    roots: Seq<Seq<char>>,
)
    requires
        forall|x: Seq<char>| #[trigger] key_count(stage, ms1, roots, x) == key_count(
            stage,
            ms2,
            roots,
            x,
        ),
    ensures
        spec_insert_key(stage, acc, k, ms1, roots) == spec_insert_key(stage, acc, k, ms2, roots),
    decreases acc.len(),
{
    if acc.len() == 0 {
    } else {
        lemma_insert_congruent(stage, acc.drop_first(), k, ms1, ms2, roots);
    }
}

proof fn lemma_sort_from_congruent(
    stage: DimensionStage,
    acc: Seq<Seq<char>>,
    keys: Seq<Seq<char>>,
    ms1: Seq<MarkV>,
    ms2: Seq<MarkV>,
    roots: Seq<Seq<char>>,
)
    requires
        forall|x: Seq<char>| #[trigger] key_count(stage, ms1, roots, x) == key_count(
            stage,
            ms2,
            roots,
            x,
        ),
    ensures
        spec_sort_keys_from(stage, acc, keys, ms1, roots) == spec_sort_keys_from(
            stage,
            acc,
            keys,
            ms2,
            roots,
        ),
    decreases keys.len(),
{
    if keys.len() > 0 {
        lemma_insert_congruent(stage, acc, keys[0], ms1, ms2, roots);
        lemma_sort_from_congruent(
            stage,
            spec_insert_key(stage, acc, keys[0], ms1, roots),
            keys.drop_first(),
            ms1,
            ms2,
            roots,
        );
    }
}

proof fn lemma_concat_congruent(
    stages: Seq<DimensionStage>,
    keys: Seq<Seq<char>>,
    out: Seq<MarkV>,
    ms: Seq<MarkV>,
    roots: Seq<Seq<char>>,
)
    requires
        stages.len() > 0,
        forall|t: int|
            0 <= t < keys.len() ==> spec_pipeline(
                stages.drop_first(),
                key_block(stages[0], out, roots, #[trigger] keys[t]),
                roots,
            ) == spec_pipeline(
                stages.drop_first(),
                key_block(stages[0], ms, roots, keys[t]),
                roots,
            ),
    ensures
        spec_concat_blocks(stages, keys, out, roots) == spec_concat_blocks(
            stages,
            keys,
            ms,
            roots,
        ),
    decreases keys.len(),
{
    if keys.len() > 0 {
        assert(forall|t: int|
            0 <= t < keys.drop_first().len() ==> keys.drop_first()[t] == keys[t + 1]);
        lemma_concat_congruent(stages, keys.drop_first(), out, ms, roots);
    }
}

/// A sequence whose elements all lack a key at this stage lists no keys.
proof fn lemma_kio_all_none(stage: DimensionStage, seg: Seq<MarkV>, roots: Seq<Seq<char>>)
    requires
        forall|j: int|
            0 <= j < seg.len() ==> spec_stage_key(stage, #[trigger] seg[j], roots) is None,
    ensures
        spec_keys_in_order(stage, seg, roots) == Seq::<Seq<char>>::empty(),
    decreases seg.len(),
{
    if seg.len() > 0 {
        assert(forall|j: int| 0 <= j < seg.drop_last().len() ==> seg.drop_last()[j] == seg[j]);
        lemma_kio_all_none(stage, seg.drop_last(), roots);
    }
}

/// Every mark of the unranked tail still has no key at this stage.
proof fn lemma_tail_keys_none(stages: Seq<DimensionStage>, ms: Seq<MarkV>, roots: Seq<Seq<char>>)
    requires
        stages.len() > 0,
    ensures
        forall|j: int|
            0 <= j < spec_pipeline(
                stages.drop_first(),
                spec_unranked(stages[0], ms, roots),
                roots,
            ).len() ==> spec_stage_key(
                stages[0],
                #[trigger] spec_pipeline(
                    stages.drop_first(),
                    spec_unranked(stages[0], ms, roots),
                    roots,
                )[j],
                roots,
            ) is None,
{
    let st = stages[0];
    let tail = spec_pipeline(stages.drop_first(), spec_unranked(st, ms, roots), roots);
    assert forall|j: int| 0 <= j < tail.len() implies spec_stage_key(
        st,
        #[trigger] tail[j],
        roots,
    ) is None by {
        lemma_pipeline_mem(stages.drop_first(), spec_unranked(st, ms, roots), roots, j);
        let t0 = choose|t: int|
            0 <= t < spec_unranked(st, ms, roots).len() && spec_unranked(st, ms, roots)[t]
                == tail[j];
        ms.lemma_filter_pred(|m: MarkV| spec_stage_key(st, m, roots) is None, t0);
    }
}

/// Every mark of the ranked part carries a key at this stage.
proof fn lemma_blocks_keys_some(
    stages: Seq<DimensionStage>,
    keys: Seq<Seq<char>>,
    ms: Seq<MarkV>,
    roots: Seq<Seq<char>>,
)
    requires
        stages.len() > 0,
    ensures
        forall|j: int|
            0 <= j < spec_concat_blocks(stages, keys, ms, roots).len() ==> spec_stage_key(
                stages[0],
                #[trigger] spec_concat_blocks(stages, keys, ms, roots)[j],
                roots,
            ) is Some,
{
    let blocks = spec_concat_blocks(stages, keys, ms, roots);
    assert forall|j: int| 0 <= j < blocks.len() implies spec_stage_key(
        stages[0],
        #[trigger] blocks[j],
        roots,
    ) is Some by {
        lemma_concat_elem_keys(stages, keys, ms, roots, j);
    }
}

/// A filter for one ranked key passes over the unranked tail and lands on
/// that key's segment of the ranked part.
proof fn lemma_out_filter(
    stages: Seq<DimensionStage>,
    ms: Seq<MarkV>,
    roots: Seq<Seq<char>>,
    x: Seq<char>,
)
    requires
        stages.len() > 0,
    ensures
        spec_pipeline(stages, ms, roots).filter(
            |m: MarkV| spec_stage_key(stages[0], m, roots) == Some(x),
        ) == if spec_sorted_keys(stages[0], ms, roots).contains(x) {
            spec_pipeline(stages.drop_first(), key_block(stages[0], ms, roots, x), roots)
        } else {
            Seq::<MarkV>::empty()
        },
{
    let st = stages[0];
    let ks = spec_sorted_keys(st, ms, roots);
    let blocks = spec_concat_blocks(stages, ks, ms, roots);
    let tail = spec_pipeline(stages.drop_first(), spec_unranked(st, ms, roots), roots);
    let pred = |m: MarkV| spec_stage_key(st, m, roots) == Some(x);
    assert(spec_pipeline(stages, ms, roots) == blocks + tail);
    Seq::filter_distributes_over_add(blocks, tail, pred);
    lemma_tail_keys_none(stages, ms, roots);
    assert forall|j: int| 0 <= j < tail.len() implies !pred(#[trigger] tail[j]) by {
        assert(spec_stage_key(st, tail[j], roots) is None);
    }
    crate::utils::lemma_filter_none(tail, pred);
    lemma_sorted_keys_props(st, ms, roots);
    lemma_concat_filter(stages, ks, ms, roots, x);
    assert(spec_pipeline(stages, ms, roots).filter(pred) =~= blocks.filter(pred));
}

/// Every key keeps its count in the pipeline's output.
proof fn lemma_out_counts(
    stages: Seq<DimensionStage>,
    ms: Seq<MarkV>,
    roots: Seq<Seq<char>>,
    x: Seq<char>,
)
    requires
        stages.len() > 0,
    ensures
        key_count(stages[0], spec_pipeline(stages, ms, roots), roots, x) == key_count(
            stages[0],
            ms,
            roots,
            x,
        ),
{
    let st = stages[0];
    let ks = spec_sorted_keys(st, ms, roots);
    lemma_out_filter(stages, ms, roots, x);
    lemma_sorted_keys_props(st, ms, roots);
    lemma_keys_in_order_sound(st, ms, roots);
    if ks.contains(x) {
        lemma_pipeline_len(stages.drop_first(), key_block(st, ms, roots, x), roots);
    } else {
        assert(key_count(st, spec_pipeline(stages, ms, roots), roots, x) == 0);
        assert(key_count(st, ms, roots, x) == 0) by {
            let block = key_block(st, ms, roots, x);
            if block.len() > 0 {
                crate::utils::lemma_filter_subset(
                    ms,
                    |m: MarkV| spec_stage_key(st, m, roots) == Some(x),
                    0,
                );
                ms.lemma_filter_pred(|m: MarkV| spec_stage_key(st, m, roots) == Some(x), 0);
                let w = choose|w: int| 0 <= w < ms.len() && ms[w] == block[0];
                assert(spec_keys_in_order(st, ms, roots).contains(x));
                assert(ks.contains(x));
            }
        }
    }
}

/// Regrouping the output finds the same keys, in the same order.
proof fn lemma_out_kio(stages: Seq<DimensionStage>, ms: Seq<MarkV>, roots: Seq<Seq<char>>)
    requires
        stages.len() > 0,
    ensures
        spec_keys_in_order(stages[0], spec_pipeline(stages, ms, roots), roots)
            == spec_sorted_keys(stages[0], ms, roots),
{
    let st = stages[0];
    let ks = spec_sorted_keys(st, ms, roots);
    let blocks = spec_concat_blocks(stages, ks, ms, roots);
    let tail = spec_pipeline(stages.drop_first(), spec_unranked(st, ms, roots), roots);
    assert(spec_pipeline(stages, ms, roots) == blocks + tail);
    lemma_sorted_keys_props(st, ms, roots);
    lemma_keys_in_order_sound(st, ms, roots);
    assert forall|t: int|
        0 <= t < ks.len() implies key_block(st, ms, roots, #[trigger] ks[t]).len() >= 1 by {
        assert(ks.contains(ks[t]));
        assert(spec_keys_in_order(st, ms, roots).contains(ks[t]));
        let w = choose|w: int|
            0 <= w < spec_keys_in_order(st, ms, roots).len() && spec_keys_in_order(
                st,
                ms,
                roots,
            )[w] == ks[t];
    }
    lemma_concat_keys(stages, ks, ms, roots);
    lemma_tail_keys_none(stages, ms, roots);
    lemma_blocks_keys_some(stages, ks, ms, roots);
    assert forall|u: int, v: int|
        0 <= u < blocks.len() && 0 <= v < tail.len() implies !(spec_stage_key(
        st,
        #[trigger] blocks[u],
        roots,
    ) is Some && spec_stage_key(st, blocks[u], roots) == spec_stage_key(
        st,
        #[trigger] tail[v],
        roots,
    )) by {
        assert(spec_stage_key(st, tail[v], roots) is None);
    }
    lemma_kio_concat_disjoint(st, blocks, tail, roots);
    lemma_kio_all_none(st, tail, roots);
    assert(spec_keys_in_order(st, blocks + tail, roots) =~= ks);
}

/// The output's unranked remainder is exactly the pipelined tail.
proof fn lemma_out_unranked(stages: Seq<DimensionStage>, ms: Seq<MarkV>, roots: Seq<Seq<char>>)
    requires
        stages.len() > 0,
    ensures
        spec_unranked(stages[0], spec_pipeline(stages, ms, roots), roots) == spec_pipeline(
            stages.drop_first(),
            spec_unranked(stages[0], ms, roots),
            roots,
        ),
{
    let st = stages[0];
    let ks = spec_sorted_keys(st, ms, roots);
    let blocks = spec_concat_blocks(stages, ks, ms, roots);
    let tail = spec_pipeline(stages.drop_first(), spec_unranked(st, ms, roots), roots);
    let nonep = |m: MarkV| spec_stage_key(st, m, roots) is None;
    assert(spec_pipeline(stages, ms, roots) == blocks + tail);
    Seq::filter_distributes_over_add(blocks, tail, nonep);
    lemma_blocks_keys_some(stages, ks, ms, roots);
    assert forall|j: int| 0 <= j < blocks.len() implies !nonep(#[trigger] blocks[j]) by {
        assert(spec_stage_key(st, blocks[j], roots) is Some);
    }
    crate::utils::lemma_filter_none(blocks, nonep);
    lemma_tail_keys_none(stages, ms, roots);
    assert forall|j: int| 0 <= j < tail.len() implies nonep(#[trigger] tail[j]) by {
        assert(spec_stage_key(st, tail[j], roots) is None);
    }
    crate::utils::lemma_filter_all(tail, nonep);
    assert(spec_unranked(st, blocks + tail, roots) =~= tail);
}

/// Applying a pipeline to its own output changes nothing: every mark is
/// retained (ranked or unranked), so regrouping finds the same keys with
/// the same counts, and the unranked tail is already in place.
proof fn lemma_pipeline_idempotent_core(
    stages: Seq<DimensionStage>,
    ms: Seq<MarkV>,
    roots: Seq<Seq<char>>,
)
    ensures
        spec_pipeline(stages, spec_pipeline(stages, ms, roots), roots) == spec_pipeline(
            stages,
            ms,
            roots,
        ),
    decreases stages.len(),
{
    if stages.len() == 0 {
    } else {
        let st = stages[0];
        let rest = stages.drop_first();
        let ks = spec_sorted_keys(st, ms, roots);
        let blocks = spec_concat_blocks(stages, ks, ms, roots);
        let tail = spec_pipeline(rest, spec_unranked(st, ms, roots), roots);
        let out = spec_pipeline(stages, ms, roots);
        assert(out == blocks + tail);

        lemma_sorted_keys_props(st, ms, roots);
        lemma_out_kio(stages, ms, roots);
        assert forall|x: Seq<char>| #[trigger] key_count(st, out, roots, x) == key_count(
            st,
            ms,
            roots,
            x,
        ) by {
            lemma_out_counts(stages, ms, roots, x);
        }

        // Sorting the same keys with the same counts changes nothing.
        assert(spec_sorted_keys(st, out, roots) == ks) by {
            lemma_sort_from_congruent(st, Seq::<Seq<char>>::empty(), ks, out, ms, roots);
            assert(ks.take(0) =~= Seq::<Seq<char>>::empty());
            assert(ks.skip(0) =~= ks);
            lemma_sort_of_sorted(st, ks, 0, ms, roots);
        }

        // Each regrouped block is the segment it came from, and the inner
        // pipeline leaves it unchanged.
        assert forall|t: int|
            0 <= t < ks.len() implies spec_pipeline(
            rest,
            key_block(st, out, roots, #[trigger] ks[t]),
            roots,
        ) == spec_pipeline(rest, key_block(st, ms, roots, ks[t]), roots) by {
            lemma_out_filter(stages, ms, roots, ks[t]);
            assert(ks.contains(ks[t]));
            let block = key_block(st, ms, roots, ks[t]);
            assert(key_block(st, out, roots, ks[t]) == spec_pipeline(rest, block, roots));
            lemma_pipeline_idempotent_core(rest, block, roots);
        }
        lemma_concat_congruent(stages, ks, out, ms, roots);

        // The output's own unranked tail pipelines to itself.
        lemma_out_unranked(stages, ms, roots);
        lemma_pipeline_idempotent_core(rest, spec_unranked(st, ms, roots), roots);

        assert(spec_pipeline(stages, out, roots) == spec_concat_blocks(stages, ks, out, roots)
            + spec_pipeline(rest, spec_unranked(st, out, roots), roots));
    }
}

/// Round-trip ordering: applying the sort pipeline twice yields the same
/// sequence as applying it once.
pub proof fn lemma_pipeline_idempotent(
    pipeline: Seq<DimensionStage>,
    ms: Seq<MarkV>,
    roots: Seq<Seq<char>>,
)
    ensures
        spec_apply_pipeline(pipeline, spec_apply_pipeline(pipeline, ms, roots), roots)
            == spec_apply_pipeline(pipeline, ms, roots),
{
    if ms.len() <= 1 || pipeline.len() == 0 {
    } else {
        let out = spec_pipeline(pipeline, ms, roots);
        lemma_pipeline_len(pipeline, ms, roots);
        assert(out.len() == ms.len());
        lemma_pipeline_idempotent_core(pipeline, ms, roots);
    }
}

/// The pipeline's output marks all spell canonical words whenever its
/// input marks do: ordering marks never invents one.
pub proof fn lemma_apply_pipeline_canonical(
    pipeline: Seq<DimensionStage>,
    ms: Seq<MarkV>,
    roots: Seq<Seq<char>>,
)
    requires
        all_canonical(ms),
    ensures
        all_canonical(spec_apply_pipeline(pipeline, ms, roots)),
{
    if ms.len() <= 1 || pipeline.len() == 0 {
    } else {
        let out = spec_pipeline(pipeline, ms, roots);
        assert forall|j: int|
            0 <= j < out.len() implies spec_is_canonical_mark((#[trigger] out[j]).mark) by {
            lemma_pipeline_mem(pipeline, ms, roots, j);
            let t = choose|t: int| 0 <= t < ms.len() && ms[t] == out[j];
        }
    }
}

} // verus!
