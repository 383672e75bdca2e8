use vstd::prelude::*;

use crate::model::{DimensionValue, GroupNode, GroupTree, Mark, MarkV, marks_v, sum_group_counts};
use crate::sort::config::{DimensionStage, SortConfig};
use crate::sort::group::{GroupKey, group_keys_v};
use crate::sort::stages::{
    group_for_stage, key_block, key_count, key_matches_stage, spec_insert_key, spec_keys_in_order,
    spec_group_lt, spec_sort_keys_from, spec_sorted_keys, spec_stage_key, spec_unranked,
    lemma_keys_in_order_sound,
};

verus! {

/// The number of marks that have a key at this stage.
pub open spec fn spec_keyed_count(stage: DimensionStage, ms: Seq<MarkV>, roots: Seq<Seq<char>>) -> int {
    ms.filter(|m: MarkV| spec_stage_key(stage, m, roots) is Some).len() as int
}

/// The sum of the key counts of a list of keys.
pub open spec fn sum_key_counts(
    stage: DimensionStage,
    keys: Seq<Seq<char>>,
    ms: Seq<MarkV>,
    roots: Seq<Seq<char>>,
) -> int
    decreases keys.len(),
{
    if keys.len() == 0 {
        0
    } else {
        sum_key_counts(stage, keys.drop_last(), ms, roots) + key_count(
            stage,
            ms,
            roots,
            keys.last(),
        )
    }
}

proof fn lemma_sum_insert(
    stage: DimensionStage,
    acc: Seq<Seq<char>>,
    k: Seq<char>,
    ms: Seq<MarkV>,
    roots: Seq<Seq<char>>,
)
    ensures
        sum_key_counts(stage, spec_insert_key(stage, acc, k, ms, roots), ms, roots)
            == sum_key_counts(stage, acc, ms, roots) + key_count(stage, ms, roots, k),
    decreases acc.len(),
{
    if acc.len() == 0 {
        assert(spec_insert_key(stage, acc, k, ms, roots) =~= seq![k]);
        assert(seq![k].drop_last() =~= Seq::<Seq<char>>::empty());
        assert(sum_key_counts(stage, seq![k], ms, roots) == sum_key_counts(
            stage,
            Seq::<Seq<char>>::empty(),
            ms,
            roots,
        ) + key_count(stage, ms, roots, k));
    } else if spec_group_lt(
        stage,
        k,
        key_count(stage, ms, roots, k),
        acc[0],
        key_count(stage, ms, roots, acc[0]),
    ) {
        let out = seq![k] + acc;
        lemma_sum_prepend(stage, acc, k, ms, roots);
        assert(spec_insert_key(stage, acc, k, ms, roots) == out);
    } else {
        lemma_sum_insert(stage, acc.drop_first(), k, ms, roots);
        let inner = spec_insert_key(stage, acc.drop_first(), k, ms, roots);
        let out = seq![acc[0]] + inner;
        lemma_sum_prepend(stage, inner, acc[0], ms, roots);
        lemma_sum_prepend(stage, acc.drop_first(), acc[0], ms, roots);
        assert(seq![acc[0]] + acc.drop_first() =~= acc);
        assert(spec_insert_key(stage, acc, k, ms, roots) == out);
        assert(sum_key_counts(stage, out, ms, roots) == key_count(stage, ms, roots, acc[0])
            + sum_key_counts(stage, inner, ms, roots));
        assert(sum_key_counts(stage, acc, ms, roots) == key_count(stage, ms, roots, acc[0])
            + sum_key_counts(stage, acc.drop_first(), ms, roots));
    }
}

/// Prepending a key adds its count to the sum.
proof fn lemma_sum_prepend(
    stage: DimensionStage,
    keys: Seq<Seq<char>>,
    k: Seq<char>,
    ms: Seq<MarkV>,
    roots: Seq<Seq<char>>,
)
    ensures
        sum_key_counts(stage, seq![k] + keys, ms, roots) == key_count(stage, ms, roots, k)
            + sum_key_counts(stage, keys, ms, roots),
    decreases keys.len(),
{
    let out = seq![k] + keys;
    if keys.len() == 0 {
        assert(out.drop_last() =~= Seq::<Seq<char>>::empty());
        assert(out.last() == k);
        assert(sum_key_counts(stage, out, ms, roots) == sum_key_counts(
            stage,
            Seq::<Seq<char>>::empty(),
            ms,
            roots,
        ) + key_count(stage, ms, roots, k));
        assert(sum_key_counts(stage, Seq::<Seq<char>>::empty(), ms, roots) == 0);
        assert(sum_key_counts(stage, keys, ms, roots) == 0);
    } else {
        assert(out.drop_last() =~= seq![k] + keys.drop_last());
        assert(out.last() == keys.last());
        lemma_sum_prepend(stage, keys.drop_last(), k, ms, roots);
        assert(sum_key_counts(stage, out, ms, roots) == sum_key_counts(
            stage,
            out.drop_last(),
            ms,
            roots,
        ) + key_count(stage, ms, roots, out.last()));
        assert(sum_key_counts(stage, keys, ms, roots) == sum_key_counts(
            stage,
            keys.drop_last(),
            ms,
            roots,
        ) + key_count(stage, ms, roots, keys.last()));
    }
}

proof fn lemma_sum_sort_from(
    stage: DimensionStage,
    acc: Seq<Seq<char>>,
    keys: Seq<Seq<char>>,
    ms: Seq<MarkV>,
    roots: Seq<Seq<char>>,
)
    ensures
        sum_key_counts(stage, spec_sort_keys_from(stage, acc, keys, ms, roots), ms, roots)
            == sum_key_counts(stage, acc, ms, roots) + sum_key_counts(stage, keys, ms, roots),
    decreases keys.len(),
{
    if keys.len() > 0 {
        lemma_sum_insert(stage, acc, keys[0], ms, roots);
        lemma_sum_sort_from(
            stage,
            spec_insert_key(stage, acc, keys[0], ms, roots),
            keys.drop_first(),
            ms,
            roots,
        );
        lemma_sum_front_split(stage, keys, ms, roots);
    }
}

/// The sum taken from the front: first key plus the rest.
pub proof fn lemma_sum_front_split(
    stage: DimensionStage,
    keys: Seq<Seq<char>>,
    ms: Seq<MarkV>,
    roots: Seq<Seq<char>>,
)
    requires
        keys.len() > 0,
    ensures
        sum_key_counts(stage, keys, ms, roots) == key_count(stage, ms, roots, keys[0])
            + sum_key_counts(stage, keys.drop_first(), ms, roots),
{
    assert(keys =~= seq![keys[0]] + keys.drop_first());
    lemma_sum_prepend(stage, keys.drop_first(), keys[0], ms, roots);
}

/// For distinct keys covering every keyed mark, the blocks partition the
/// keyed marks.
proof fn lemma_sum_partition(
    stage: DimensionStage,
    keys: Seq<Seq<char>>,
    ms: Seq<MarkV>,
    roots: Seq<Seq<char>>,
)
    requires
        forall|i: int, j: int| 0 <= i < j < keys.len() ==> keys[i] != keys[j],
        forall|t: int|
            0 <= t < ms.len() && spec_stage_key(stage, #[trigger] ms[t], roots) is Some
                ==> keys.contains(spec_stage_key(stage, ms[t], roots).unwrap()),
    ensures
        sum_key_counts(stage, keys, ms, roots) == spec_keyed_count(stage, ms, roots),
    decreases ms.len(),
{
    if ms.len() == 0 {
        lemma_sum_empty_ms(stage, keys, ms, roots);
    } else {
        let prev = ms.drop_last();
        assert forall|t: int|
            0 <= t < prev.len() && spec_stage_key(stage, #[trigger] prev[t], roots)
                is Some implies keys.contains(spec_stage_key(stage, prev[t], roots).unwrap()) by {
            assert(prev[t] == ms[t]);
        }
        lemma_sum_partition(stage, keys, prev, roots);
        crate::utils::lemma_filter_unfold(
            ms,
            |m: MarkV| spec_stage_key(stage, m, roots) is Some,
        );
        match spec_stage_key(stage, ms.last(), roots) {
            Some(k) => {
                assert(keys.contains(k));
                lemma_sum_grow_one(stage, keys, ms, roots, k);
            },
            None => {
                lemma_sum_grow_none(stage, keys, ms, roots);
            },
        }
    }
}

proof fn lemma_sum_empty_ms(
    stage: DimensionStage,
    keys: Seq<Seq<char>>,
    ms: Seq<MarkV>,
    roots: Seq<Seq<char>>,
)
    requires
        ms.len() == 0,
    ensures
        sum_key_counts(stage, keys, ms, roots) == 0,
    decreases keys.len(),
{
    if keys.len() > 0 {
        lemma_sum_empty_ms(stage, keys.drop_last(), ms, roots);
    }
}

/// Appending a mark whose key is `k` grows the sum by one when `k` is
/// among the distinct keys.
proof fn lemma_sum_grow_one(
    stage: DimensionStage,
    keys: Seq<Seq<char>>,
    ms: Seq<MarkV>,
    roots: Seq<Seq<char>>,
    k: Seq<char>,
)
    requires
        ms.len() > 0,
        spec_stage_key(stage, ms.last(), roots) == Some(k),
        keys.contains(k),
        forall|i: int, j: int| 0 <= i < j < keys.len() ==> keys[i] != keys[j],
    ensures
        sum_key_counts(stage, keys, ms, roots) == sum_key_counts(stage, keys, ms.drop_last(), roots)
            + 1,
    decreases keys.len(),
{
    let prev = ms.drop_last();
    if keys.last() == k {
        crate::utils::lemma_filter_unfold(
            ms,
            |m: MarkV| spec_stage_key(stage, m, roots) == Some(k),
        );
        assert(key_count(stage, ms, roots, k) == key_count(stage, prev, roots, k) + 1);
        lemma_sum_grow_none_partial(stage, keys.drop_last(), ms, roots, k);
    } else {
        assert(keys.drop_last().contains(k)) by {
            let w = choose|w: int| 0 <= w < keys.len() && keys[w] == k;
            assert(keys.drop_last()[w] == k);
        }
        lemma_sum_grow_one(stage, keys.drop_last(), ms, roots, k);
        crate::utils::lemma_filter_unfold(
            ms,
            |m: MarkV| spec_stage_key(stage, m, roots) == Some(keys.last()),
        );
        assert(key_count(stage, ms, roots, keys.last()) == key_count(
            stage,
            prev,
            roots,
            keys.last(),
        ));
    }
}

/// Keys different from the appended mark's key keep their counts.
proof fn lemma_sum_grow_none_partial(
    stage: DimensionStage,
    keys: Seq<Seq<char>>,
    ms: Seq<MarkV>,
    roots: Seq<Seq<char>>,
    k: Seq<char>,
)
    requires
        ms.len() > 0,
        spec_stage_key(stage, ms.last(), roots) == Some(k),
        !keys.contains(k),
    ensures
        sum_key_counts(stage, keys, ms, roots) == sum_key_counts(
            stage,
            keys,
            ms.drop_last(),
            roots,
        ),
    decreases keys.len(),
{
    if keys.len() > 0 {
        assert(keys.last() != k) by {
            if keys.last() == k {
                assert(keys[keys.len() - 1] == k);
            }
        }
        assert(!keys.drop_last().contains(k)) by {
            if keys.drop_last().contains(k) {
                let w = choose|w: int| 0 <= w < keys.drop_last().len() && keys.drop_last()[w] == k;
                assert(keys[w] == k);
            }
        }
        lemma_sum_grow_none_partial(stage, keys.drop_last(), ms, roots, k);
        crate::utils::lemma_filter_unfold(
            ms,
            |m: MarkV| spec_stage_key(stage, m, roots) == Some(keys.last()),
        );
        assert(key_count(stage, ms, roots, keys.last()) == key_count(
            stage,
            ms.drop_last(),
            roots,
            keys.last(),
        ));
    }
}

/// Appending a keyless mark changes no count.
proof fn lemma_sum_grow_none(
    stage: DimensionStage,
    keys: Seq<Seq<char>>,
    ms: Seq<MarkV>,
    roots: Seq<Seq<char>>,
)
    requires
        ms.len() > 0,
        spec_stage_key(stage, ms.last(), roots) is None,
    ensures
        sum_key_counts(stage, keys, ms, roots) == sum_key_counts(
            stage,
            keys,
            ms.drop_last(),
            roots,
        ),
    decreases keys.len(),
{
    if keys.len() > 0 {
        lemma_sum_grow_none(stage, keys.drop_last(), ms, roots);
        crate::utils::lemma_filter_unfold(
            ms,
            |m: MarkV| spec_stage_key(stage, m, roots) == Some(keys.last()),
        );
        assert(key_count(stage, ms, roots, keys.last()) == key_count(
            stage,
            ms.drop_last(),
            roots,
            keys.last(),
        ));
    }
}

/// The sorted keys' blocks partition the keyed marks.
pub proof fn lemma_sorted_keys_sum(stage: DimensionStage, ms: Seq<MarkV>, roots: Seq<Seq<char>>)
    ensures
        sum_key_counts(stage, spec_sorted_keys(stage, ms, roots), ms, roots) == spec_keyed_count(
            stage,
            ms,
            roots,
        ),
{
    lemma_keys_in_order_sound(stage, ms, roots);
    lemma_sum_partition(stage, spec_keys_in_order(stage, ms, roots), ms, roots);
    lemma_sum_sort_from(
        stage,
        Seq::<Seq<char>>::empty(),
        spec_keys_in_order(stage, ms, roots),
        ms,
        roots,
    );
}

/// Well-formedness of a group node: a node with child groups carries no
/// items of its own and counts exactly the marks its children count; a
/// node without child groups counts exactly its items.
pub open spec fn node_wf(n: GroupNode) -> bool
    decreases n,
{
    if n.groups@.len() == 0 {
        n.count == n.items@.len()
    } else {
        &&& n.items@.len() == 0
        &&& sum_group_counts(n.groups@) == n.count
        &&& forall|i: int| 0 <= i < n.groups@.len() ==> node_wf(#[trigger] n.groups@[i])
    }
}

/// The key texts of a list of group nodes, in order.
pub open spec fn node_keys_v(ns: Seq<GroupNode>) -> Seq<Seq<char>> {
    ns.map_values(|n: GroupNode| n.key.value_seq())
}

fn key_to_value(stage: &DimensionStage, k: GroupKey) -> (r: DimensionValue)
    ensures
        r.value_seq() == k.key_seq(),
        r.spec_dimension() == stage.spec_dimension(),
{
    match (stage, k) {
        (DimensionStage::Mark(_), GroupKey::Mark(s)) => DimensionValue::Mark(s),
        (DimensionStage::Mark(_), GroupKey::Language(s)) => DimensionValue::Mark(s),
        (DimensionStage::Mark(_), GroupKey::Path(s)) => DimensionValue::Mark(s),
        (DimensionStage::Mark(_), GroupKey::Folder(s)) => DimensionValue::Mark(s),
        (DimensionStage::Language(_), GroupKey::Mark(s)) => DimensionValue::Language(s),
        (DimensionStage::Language(_), GroupKey::Language(s)) => DimensionValue::Language(s),
        (DimensionStage::Language(_), GroupKey::Path(s)) => DimensionValue::Language(s),
        (DimensionStage::Language(_), GroupKey::Folder(s)) => DimensionValue::Language(s),
        (DimensionStage::Path(_), GroupKey::Mark(s)) => DimensionValue::Path(s),
        (DimensionStage::Path(_), GroupKey::Language(s)) => DimensionValue::Path(s),
        (DimensionStage::Path(_), GroupKey::Path(s)) => DimensionValue::Path(s),
        (DimensionStage::Path(_), GroupKey::Folder(s)) => DimensionValue::Path(s),
        (DimensionStage::Folder(_), GroupKey::Mark(s)) => DimensionValue::Folder(s),
        (DimensionStage::Folder(_), GroupKey::Language(s)) => DimensionValue::Folder(s),
        (DimensionStage::Folder(_), GroupKey::Path(s)) => DimensionValue::Folder(s),
        (DimensionStage::Folder(_), GroupKey::Folder(s)) => DimensionValue::Folder(s),
    }
}

/// Build the group nodes of one stage and, recursively, of the stages
/// after it. The ranked groups come first, in the stage's order; marks
/// the stage cannot rank follow as one final unranked node (its key text
/// is empty), so no mark is ever dropped.
pub fn build_groups(
    stages: &Vec<DimensionStage>,
    si: usize,
    items: Vec<Mark>,
    roots: &Vec<String>,
) -> (r: Vec<GroupNode>)
    requires
        si < stages@.len(),
    ensures
        ({
            let ks = spec_sorted_keys(stages@[si as int], marks_v(items@), roots.deep_view());
            let unr = spec_unranked(stages@[si as int], marks_v(items@), roots.deep_view());
            &&& r@.len() == ks.len() + if unr.len() == 0 {
                0int
            } else {
                1int
            }
            &&& forall|i: int|
                0 <= i < ks.len() ==> (#[trigger] r@[i]).key.value_seq() == ks[i] && r@[i].count
                    == key_count(
                    stages@[si as int],
                    marks_v(items@),
                    roots.deep_view(),
                    ks[i],
                )
            &&& (unr.len() > 0 ==> r@[ks.len() as int].count == unr.len() && r@[
                ks.len() as int
            ].key.value_seq() == Seq::<char>::empty())
            &&& (unr.len() > 0 && si + 1 == stages@.len() ==> r@[ks.len() as int].groups@.len()
                == 0 && marks_v(r@[ks.len() as int].items@) == unr)
        }),
        sum_group_counts(r@) == marks_v(items@).len(),
        forall|i: int| 0 <= i < r@.len() ==> node_wf(#[trigger] r@[i]),
        forall|i: int|
            0 <= i < r@.len() ==> (#[trigger] r@[i]).key.spec_dimension() == stages@[
                si as int
            ].spec_dimension(),
        forall|i: int|
            0 <= i < spec_sorted_keys(
                stages@[si as int],
                marks_v(items@),
                roots.deep_view(),
            ).len() && si + 1 == stages@.len() ==> (#[trigger] r@[i]).groups@.len() == 0
                && marks_v(r@[i].items@) == key_block(
                stages@[si as int],
                marks_v(items@),
                roots.deep_view(),
                r@[i].key.value_seq(),
            ),
    decreases stages@.len() - si,
{
    let ghost ms = marks_v(items@);
    let ghost rv = roots.deep_view();
    let ghost all_keys = spec_sorted_keys(stages@[si as int], ms, rv);
    let ghost unr = spec_unranked(stages@[si as int], ms, rv);
    let n_stages = stages.len();
    proof {
        assert(si < n_stages);
    }
    let last_stage = si + 1 == n_stages;
    let (mut groups, unranked) = group_for_stage(&stages[si], items, roots);
    let mut out: Vec<GroupNode> = Vec::new();

    proof {
        lemma_sorted_keys_sum(stages@[si as int], ms, rv);
    }

    while groups.len() > 0
        invariant
            si < stages@.len() <= usize::MAX,
            rv == roots.deep_view(),
            last_stage == (si + 1 == stages@.len()),
            all_keys == spec_sorted_keys(stages@[si as int], ms, rv),
            node_keys_v(out@) + group_keys_v(groups@) =~= all_keys,
            forall|i: int|
                0 <= i < groups@.len() ==> marks_v((#[trigger] groups@[i]).items@) == key_block(
                    stages@[si as int],
                    ms,
                    rv,
                    groups@[i].key.key_seq(),
                ),
            forall|i: int|
                0 <= i < out@.len() ==> (#[trigger] out@[i]).count == key_count(
                    stages@[si as int],
                    ms,
                    rv,
                    out@[i].key.value_seq(),
                ),
            sum_group_counts(out@) == sum_key_counts(stages@[si as int], node_keys_v(out@), ms, rv),
            forall|i: int| 0 <= i < out@.len() ==> node_wf(#[trigger] out@[i]),
            forall|i: int|
                0 <= i < out@.len() ==> (#[trigger] out@[i]).key.spec_dimension() == stages@[
                    si as int
                ].spec_dimension(),
            forall|i: int|
                0 <= i < out@.len() && si + 1 == stages@.len() ==> (#[trigger] out@[
                    i
                ]).groups@.len() == 0 && marks_v(out@[i].items@) == key_block(
                    stages@[si as int],
                    ms,
                    rv,
                    out@[i].key.value_seq(),
                ),
        decreases groups@.len(),
    {
        let ghost groups_old = groups@;
        let ghost out_old = out@;
        let g = groups.remove(0);
        proof {
            assert(groups@ =~= groups_old.drop_first());
            assert(group_keys_v(groups_old)[0] == g.key.key_seq());
            assert(group_keys_v(groups@) =~= group_keys_v(groups_old).drop_first());
        }
        let count = g.items.len();
        let node: GroupNode = if last_stage {
            GroupNode {
                key: key_to_value(&stages[si], g.key),
                count,
                groups: Vec::new(),
                items: g.items,
            }
        } else {
            let children = build_groups(stages, si + 1, g.items, roots);
            GroupNode {
                key: key_to_value(&stages[si], g.key),
                count,
                groups: children,
                items: Vec::new(),
            }
        };
        proof {
            assert(node_wf(node));
        }
        out.push(node);
        proof {
            assert(node_keys_v(out@) =~= node_keys_v(out_old).push(node.key.value_seq()));
            assert(node_keys_v(out@) + group_keys_v(groups@) =~= all_keys);
            assert(out@.drop_last() =~= out_old);
            assert(node_keys_v(out@).drop_last() =~= node_keys_v(out_old));
            assert(node_keys_v(out@).last() == node.key.value_seq());
            assert(sum_group_counts(out@) == sum_key_counts(
                stages@[si as int],
                node_keys_v(out@),
                ms,
                rv,
            ));
        }
    }
    proof {
        assert(group_keys_v(groups@).len() == 0);
        assert(node_keys_v(out@) =~= all_keys);
        crate::utils::lemma_filter_split_len(
            ms,
            |m: MarkV| spec_stage_key(stages@[si as int], m, rv) is Some,
            |m: MarkV| spec_stage_key(stages@[si as int], m, rv) is None,
        );
    }

    if unranked.len() > 0 {
        let ghost out_keyed = out@;
        let count = unranked.len();
        let node: GroupNode = if last_stage {
            GroupNode {
                key: unranked_key(&stages[si]),
                count,
                groups: Vec::new(),
                items: unranked,
            }
        } else {
            let children = build_groups(stages, si + 1, unranked, roots);
            GroupNode {
                key: unranked_key(&stages[si]),
                count,
                groups: children,
                items: Vec::new(),
            }
        };
        proof {
            assert(node_wf(node));
        }
        out.push(node);
        proof {
            assert(out@.drop_last() =~= out_keyed);
            assert(forall|i: int| 0 <= i < all_keys.len() ==> out@[i] == out_keyed[i]);
            assert(sum_group_counts(out@) == sum_group_counts(out_keyed) + node.count);
        }
    }
    out
}

/// The key of the unranked trailing group: the stage's dimension with an
/// empty text.
fn unranked_key(stage: &DimensionStage) -> (r: DimensionValue)
    ensures
        r.value_seq() == Seq::<char>::empty(),
        r.spec_dimension() == stage.spec_dimension(),
{
    let empty = String::new();
    proof {
        assert(empty@ =~= Seq::<char>::empty());
    }
    match stage {
        DimensionStage::Mark(_) => DimensionValue::Mark(empty),
        DimensionStage::Language(_) => DimensionValue::Language(empty),
        DimensionStage::Path(_) => DimensionValue::Path(empty),
        DimensionStage::Folder(_) => DimensionValue::Folder(empty),
    }
}

/// Transform a flat mark list into the grouped tree of the configured
/// pipeline. With an empty pipeline or no marks the tree degenerates to
/// the flat list; otherwise every mark of the input is counted somewhere
/// in the tree, so the tree's total equals the number of input marks.
pub fn build_group_tree(marks: Vec<Mark>, config: &SortConfig, roots: &Vec<String>) -> (r: GroupTree)
    ensures
        (marks@.len() == 0 || config.pipeline@.len() == 0) ==> r.groups@.len() == 0 && marks_v(
            r.items@,
        ) == marks_v(marks@),
        r.spec_total() == marks@.len(),
        (marks@.len() > 0 && config.pipeline@.len() > 0) ==> {
            &&& r.items@.len() == 0
            &&& forall|i: int|
                0 <= i < spec_sorted_keys(
                    config.pipeline@[0],
                    marks_v(marks@),
                    roots.deep_view(),
                ).len() ==> (#[trigger] r.groups@[i]).key.value_seq() == spec_sorted_keys(
                    config.pipeline@[0],
                    marks_v(marks@),
                    roots.deep_view(),
                )[i]
            &&& forall|i: int| 0 <= i < r.groups@.len() ==> node_wf(#[trigger] r.groups@[i])
        },
{
    if marks.len() == 0 || config.pipeline.len() == 0 {
        return GroupTree { groups: Vec::new(), items: marks };
    }
    let groups = build_groups(&config.pipeline, 0, marks, roots);
    let r = GroupTree { groups, items: Vec::new() };
    proof {
        if r.groups@.len() == 0 {
            assert(sum_group_counts(r.groups@) == 0);
        }
    }
    r
}

} // verus!
