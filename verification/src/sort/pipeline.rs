use vstd::prelude::*;

use crate::model::{Mark, MarkV, marks_v};
use crate::sort::config::{DimensionStage, SortConfig};
use crate::sort::group::group_keys_v;
use crate::sort::stages::{
    group_for_stage, key_block, key_count, spec_insert_key, spec_keys_in_order, spec_sort_keys_from,
    spec_sorted_keys, spec_stage_key, spec_unranked,
};

verus! {

proof fn lemma_keys_in_order_len(stage: DimensionStage, ms: Seq<MarkV>, roots: Seq<Seq<char>>)
    ensures
        spec_keys_in_order(stage, ms, roots).len() <= ms.len(),
    decreases ms.len(),
{
    if ms.len() > 0 {
        lemma_keys_in_order_len(stage, ms.drop_last(), roots);
    }
}

proof fn lemma_insert_key_len(
    stage: DimensionStage,
    sorted: Seq<Seq<char>>,
    k: Seq<char>,
    ms: Seq<MarkV>,
    roots: Seq<Seq<char>>,
)
    ensures
        spec_insert_key(stage, sorted, k, ms, roots).len() == sorted.len() + 1,
    decreases sorted.len(),
{
    if sorted.len() == 0 {
    } else if crate::sort::stages::spec_group_lt(
        stage,
        k,
        key_count(stage, ms, roots, k),
        sorted[0],
        key_count(stage, ms, roots, sorted[0]),
    ) {
    } else {
        lemma_insert_key_len(stage, sorted.drop_first(), k, ms, roots);
    }
}

proof fn lemma_sort_keys_from_len(
    stage: DimensionStage,
    acc: Seq<Seq<char>>,
    keys: Seq<Seq<char>>,
    ms: Seq<MarkV>,
    roots: Seq<Seq<char>>,
)
    ensures
        spec_sort_keys_from(stage, acc, keys, ms, roots).len() == acc.len() + keys.len(),
    decreases keys.len(),
{
    if keys.len() > 0 {
        lemma_insert_key_len(stage, acc, keys[0], ms, roots);
        lemma_sort_keys_from_len(
            stage,
            spec_insert_key(stage, acc, keys[0], ms, roots),
            keys.drop_first(),
            ms,
            roots,
        );
    }
}

/// The number of stage keys is at most the number of marks.
pub proof fn lemma_sorted_keys_len(stage: DimensionStage, ms: Seq<MarkV>, roots: Seq<Seq<char>>)
    ensures
        spec_sorted_keys(stage, ms, roots).len() <= ms.len(),
{
    lemma_keys_in_order_len(stage, ms, roots);
    lemma_sort_keys_from_len(
        stage,
        Seq::<Seq<char>>::empty(),
        spec_keys_in_order(stage, ms, roots),
        ms,
        roots,
    );
}

/// The pipeline's flat output: group by the first stage, order the groups,
/// recurse into each group with the remaining stages, and concatenate;
/// marks the stage cannot rank follow the ranked groups, unranked but
/// retained, and the remaining stages still group them.
pub open spec fn spec_pipeline(stages: Seq<DimensionStage>, ms: Seq<MarkV>, roots: Seq<Seq<char>>) -> Seq<
    MarkV,
>
    decreases stages.len(), ms.len() + 1
        via spec_pipeline_decreases
{
    if stages.len() == 0 {
        ms
    } else {
        spec_concat_blocks(stages, spec_sorted_keys(stages[0], ms, roots), ms, roots)
            + spec_pipeline(
            stages.drop_first(),
            spec_unranked(stages[0], ms, roots),
            roots,
        )
    }
}

/// The concatenation of the recursive outputs of the given key blocks.
pub open spec fn spec_concat_blocks(
    stages: Seq<DimensionStage>,
    keys: Seq<Seq<char>>,
    ms: Seq<MarkV>,
    roots: Seq<Seq<char>>,
) -> Seq<MarkV>
    decreases stages.len(), keys.len()
        via spec_concat_blocks_decreases
{
    if keys.len() == 0 || stages.len() == 0 {
        Seq::<MarkV>::empty()
    } else {
        spec_pipeline(stages.drop_first(), key_block(stages[0], ms, roots, keys[0]), roots)
            + spec_concat_blocks(stages, keys.drop_first(), ms, roots)
    }
}

#[via_fn]
proof fn spec_pipeline_decreases(stages: Seq<DimensionStage>, ms: Seq<MarkV>, roots: Seq<Seq<char>>) {
    if stages.len() > 0 {
        lemma_sorted_keys_len(stages[0], ms, roots);
        ms.lemma_filter_len(|m: MarkV| spec_stage_key(stages[0], m, roots) is None);
    }
}

#[via_fn]
proof fn spec_concat_blocks_decreases(
    stages: Seq<DimensionStage>,
    keys: Seq<Seq<char>>,
    ms: Seq<MarkV>,
    roots: Seq<Seq<char>>,
) {
}

/// What the sort pipeline returns: the input unchanged when it is trivial
/// or the pipeline is empty, else the grouped and ordered output.
pub open spec fn spec_apply_pipeline(
    pipeline: Seq<DimensionStage>,
    ms: Seq<MarkV>,
    roots: Seq<Seq<char>>,
) -> Seq<MarkV> {
    if ms.len() <= 1 || pipeline.len() == 0 {
        ms
    } else {
        spec_pipeline(pipeline, ms, roots)
    }
}

fn sort_recursive(
    stages: &Vec<DimensionStage>,
    si: usize,
    roots: &Vec<String>,
    items: Vec<Mark>,
    output: &mut Vec<Mark>,
)
    requires
        si <= stages@.len(),
    ensures
        marks_v(final(output)@) == marks_v(old(output)@) + spec_pipeline(
            stages@.skip(si as int),
            marks_v(items@),
            roots.deep_view(),
        ),
    decreases stages@.len() - si,
{
    let ghost rv = roots.deep_view();
    let ghost base = output@;
    if si == stages.len() {
        let mut moved = items;
        output.append(&mut moved);
        proof {
            assert(stages@.skip(si as int).len() == 0);
            assert(marks_v(output@) =~= marks_v(base) + marks_v(items@));
        }
        return ;
    }
    let ghost ms = marks_v(items@);
    let ghost rest_stages = stages@.skip(si as int);
    proof {
        assert(rest_stages[0] == stages@[si as int]);
        assert(rest_stages.drop_first() =~= stages@.skip(si + 1));
    }
    let stage = &stages[si];
    let (mut groups, unranked) = group_for_stage(stage, items, roots);
    let ghost all_keys = spec_sorted_keys(stages@[si as int], ms, rv);
    proof {
        assert(spec_pipeline(rest_stages, ms, rv) == spec_concat_blocks(
            rest_stages,
            all_keys,
            ms,
            rv,
        ) + spec_pipeline(
            rest_stages.drop_first(),
            spec_unranked(stages@[si as int], ms, rv),
            rv,
        ));
    }

    while groups.len() > 0
        invariant
            si < stages@.len() <= usize::MAX,
            rv == roots.deep_view(),
            rest_stages == stages@.skip(si as int),
            rest_stages[0] == stages@[si as int],
            rest_stages.drop_first() =~= stages@.skip(si + 1),
            forall|i: int|
                0 <= i < groups@.len() ==> marks_v((#[trigger] groups@[i]).items@) == key_block(
                    stages@[si as int],
                    ms,
                    rv,
                    groups@[i].key.key_seq(),
                ),
            marks_v(output@) + spec_concat_blocks(rest_stages, group_keys_v(groups@), ms, rv)
                + spec_pipeline(
                rest_stages.drop_first(),
                spec_unranked(stages@[si as int], ms, rv),
                rv,
            ) == marks_v(base) + spec_pipeline(rest_stages, ms, rv),
        decreases groups@.len(),
    {
        let ghost groups_old = groups@;
        let g = groups.remove(0);
        proof {
            assert(groups@ =~= groups_old.drop_first());
            assert(group_keys_v(groups_old)[0] == g.key.key_seq());
            assert(group_keys_v(groups@) =~= group_keys_v(groups_old).drop_first());
            assert(spec_concat_blocks(rest_stages, group_keys_v(groups_old), ms, rv)
                == spec_pipeline(
                rest_stages.drop_first(),
                key_block(rest_stages[0], ms, rv, group_keys_v(groups_old)[0]),
                rv,
            ) + spec_concat_blocks(rest_stages, group_keys_v(groups@), ms, rv));
        }
        let ghost out_before = output@;
        sort_recursive(stages, si + 1, roots, g.items, output);
        proof {
            assert(marks_v(out_before).len() + spec_pipeline(
                stages@.skip(si + 1),
                key_block(stages@[si as int], ms, rv, g.key.key_seq()),
                rv,
            ).len() == marks_v(output@).len());
            assert(marks_v(output@) =~= marks_v(out_before) + spec_pipeline(
                stages@.skip(si + 1),
                key_block(stages@[si as int], ms, rv, g.key.key_seq()),
                rv,
            ));
            assert((marks_v(base) + spec_pipeline(rest_stages, ms, rv)) =~= (marks_v(output@)
                + spec_concat_blocks(rest_stages, group_keys_v(groups@), ms, rv)
                + spec_pipeline(
                rest_stages.drop_first(),
                spec_unranked(stages@[si as int], ms, rv),
                rv,
            )));
        }
    }
    proof {
        assert(group_keys_v(groups@).len() == 0);
        assert(spec_concat_blocks(rest_stages, group_keys_v(groups@), ms, rv) =~= Seq::<
            MarkV,
        >::empty());
        assert(marks_v(output@) + spec_pipeline(
            rest_stages.drop_first(),
            spec_unranked(stages@[si as int], ms, rv),
            rv,
        ) =~= marks_v(base) + spec_pipeline(rest_stages, ms, rv));
    }
    let ghost out_mid = output@;
    sort_recursive(stages, si + 1, roots, unranked, output);
    proof {
        assert(marks_v(output@) =~= marks_v(out_mid) + spec_pipeline(
            stages@.skip(si + 1),
            spec_unranked(stages@[si as int], ms, rv),
            rv,
        ));
        assert(marks_v(output@) =~= marks_v(base) + spec_pipeline(rest_stages, ms, rv));
    }
}

/// Order a flat mark list by the configured pipeline: a stable nested
/// sort. An empty pipeline or a trivial input is returned unchanged.
pub fn apply_sort_pipeline(marks: Vec<Mark>, config: &SortConfig, roots: &Vec<String>) -> (r: Vec<
    Mark,
>)
    ensures
        marks_v(r@) == spec_apply_pipeline(
            config.pipeline@,
            marks_v(marks@),
            roots.deep_view(),
        ),
{
    if marks.len() <= 1 || config.pipeline.len() == 0 {
        return marks;
    }
    let mut output: Vec<Mark> = Vec::new();
    let ghost ms = marks_v(marks@);
    sort_recursive(&config.pipeline, 0, roots, marks, &mut output);
    proof {
        assert(config.pipeline@.skip(0) =~= config.pipeline@);
        assert(marks_v(output@) =~= spec_pipeline(config.pipeline@, ms, roots.deep_view()));
    }
    output
}

} // verus!
