use vstd::prelude::*;

use crate::constants::spec_normalize_mark;
use crate::model::{Mark, MarkV, marks_v};
use crate::sort::config::{DimensionStage, LanguageOrder, MarkPriorityOverride, Order};
use crate::sort::group::{Group, GroupKey, group_keys_v};
use crate::syntax::lower_seq;
use crate::utils::{folder_key, seq_char_lt, spec_folder_key, str_eq, str_lt};

verus! {

/// The value by which a stage groups a mark: the canonical mark word, the
/// language tag, the path, or the folder key; `None` when the mark word is
/// not canonical.
pub open spec fn spec_stage_key(stage: DimensionStage, m: MarkV, roots: Seq<Seq<char>>) -> Option<
    Seq<char>,
> {
    match stage {
        DimensionStage::Mark(_) => spec_normalize_mark(m.mark),
        DimensionStage::Language(_) => Some(m.language),
        DimensionStage::Path(_) => Some(m.path),
        DimensionStage::Folder(cfg) => Some(spec_folder_key(m.path, roots, cfg.depth as int)),
    }
}

/// The marks of `ms` whose stage key is `k`, in input order.
pub open spec fn key_block(stage: DimensionStage, ms: Seq<MarkV>, roots: Seq<Seq<char>>, k: Seq<
    char,
>) -> Seq<MarkV> {
    ms.filter(|m: MarkV| spec_stage_key(stage, m, roots) == Some(k))
}

/// The number of marks of `ms` whose stage key is `k`.
pub open spec fn key_count(stage: DimensionStage, ms: Seq<MarkV>, roots: Seq<Seq<char>>, k: Seq<
    char,
>) -> int {
    key_block(stage, ms, roots, k).len() as int
}

/// The marks of `ms` that have no key at this stage (a mark word that is
/// not canonical), in input order. These are never dropped: a stage
/// carries them behind its ranked groups, unranked.
pub open spec fn spec_unranked(stage: DimensionStage, ms: Seq<MarkV>, roots: Seq<Seq<char>>) -> Seq<
    MarkV,
> {
    ms.filter(|m: MarkV| spec_stage_key(stage, m, roots) is None)
}

/// The priority of an override entry whose word matches `key`, first match
/// wins, matched case-insensitively.
pub open spec fn spec_override_priority(ovs: Seq<MarkPriorityOverride>, key: Seq<char>) -> Option<
    u8,
>
    decreases ovs.len(),
{
    if ovs.len() == 0 {
        None
    } else if lower_seq(ovs[0].mark@) == lower_seq(key) {
        Some(ovs[0].priority)
    } else {
        spec_override_priority(ovs.drop_first(), key)
    }
}

/// The default priority of a canonical mark word.
pub open spec fn spec_default_priority(key: Seq<char>) -> Option<u8> {
    if key == "ERROR"@ {
        Some(0u8)
    } else if key == "WARN"@ {
        Some(1u8)
    } else if key == "FIXME"@ {
        Some(2u8)
    } else if key == "TODO"@ {
        Some(3u8)
    } else if key == "NOTE"@ {
        Some(4u8)
    } else if key == "INFO"@ {
        Some(5u8)
    } else {
        None
    }
}

/// The effective priority of a mark group key: an override, else the
/// default, else last.
pub open spec fn spec_mark_priority(ovs: Seq<MarkPriorityOverride>, key: Seq<char>) -> int {
    match spec_override_priority(ovs, key) {
        Some(p) => p as int,
        None => match spec_default_priority(key) {
            Some(p) => p as int,
            None => 255,
        },
    }
}

/// The strict group order of a stage: priority then name for marks; count
/// or name for languages; name for paths and folders, possibly reversed.
pub open spec fn spec_group_lt(
    stage: DimensionStage,
    akey: Seq<char>,
    acount: int,
    bkey: Seq<char>,
    bcount: int,
) -> bool {
    match stage {
        DimensionStage::Mark(cfg) => {
            let pa = spec_mark_priority(cfg.overrides@, akey);
            let pb = spec_mark_priority(cfg.overrides@, bkey);
            pa < pb || (pa == pb && seq_char_lt(akey, bkey))
        },
        DimensionStage::Language(cfg) => match cfg.order {
            LanguageOrder::CountDescNameAsc => acount > bcount || (acount == bcount && seq_char_lt(
                akey,
                bkey,
            )),
            LanguageOrder::NameAsc => seq_char_lt(akey, bkey),
        },
        DimensionStage::Path(cfg) => match cfg.order {
            Order::Asc => seq_char_lt(akey, bkey),
            Order::Desc => seq_char_lt(bkey, akey),
        },
        DimensionStage::Folder(cfg) => match cfg.order {
            Order::Asc => seq_char_lt(akey, bkey),
            Order::Desc => seq_char_lt(bkey, akey),
        },
    }
}

/// The distinct stage keys of `ms` in order of first occurrence.
pub open spec fn spec_keys_in_order(stage: DimensionStage, ms: Seq<MarkV>, roots: Seq<Seq<char>>) -> Seq<
    Seq<char>,
>
    decreases ms.len(),
{
    if ms.len() == 0 {
        Seq::<Seq<char>>::empty()
    } else {
        let prev = spec_keys_in_order(stage, ms.drop_last(), roots);
        match spec_stage_key(stage, ms.last(), roots) {
            None => prev,
            Some(k) => if prev.contains(k) {
                prev
            } else {
                prev.push(k)
            },
        }
    }
}

/// `k` inserted into `sorted` before the first key it precedes.
pub open spec fn spec_insert_key(
    stage: DimensionStage,
    sorted: Seq<Seq<char>>,
    k: Seq<char>,
    ms: Seq<MarkV>,
    roots: Seq<Seq<char>>,
) -> Seq<Seq<char>>
    decreases sorted.len(),
{
    if sorted.len() == 0 {
        seq![k]
    } else if spec_group_lt(
        stage,
        k,
        key_count(stage, ms, roots, k),
        sorted[0],
        key_count(stage, ms, roots, sorted[0]),
    ) {
        seq![k] + sorted
    } else {
        seq![sorted[0]] + spec_insert_key(stage, sorted.drop_first(), k, ms, roots)
    }
}

/// The keys of `keys` inserted in turn into `acc`.
pub open spec fn spec_sort_keys_from(
    stage: DimensionStage,
    acc: Seq<Seq<char>>,
    keys: Seq<Seq<char>>,
    ms: Seq<MarkV>,
    roots: Seq<Seq<char>>,
) -> Seq<Seq<char>>
    decreases keys.len(),
{
    if keys.len() == 0 {
        acc
    } else {
        spec_sort_keys_from(
            stage,
            spec_insert_key(stage, acc, keys[0], ms, roots),
            keys.drop_first(),
            ms,
            roots,
        )
    }
}

/// The stage keys of `ms`, ordered by the stage's group order.
pub open spec fn spec_sorted_keys(stage: DimensionStage, ms: Seq<MarkV>, roots: Seq<Seq<char>>) -> Seq<
    Seq<char>,
> {
    spec_sort_keys_from(
        stage,
        Seq::<Seq<char>>::empty(),
        spec_keys_in_order(stage, ms, roots),
        ms,
        roots,
    )
}

/// The group key constructor of a stage.
pub open spec fn key_matches_stage(key: GroupKey, stage: DimensionStage) -> bool {
    match stage {
        DimensionStage::Mark(_) => key is Mark,
        DimensionStage::Language(_) => key is Language,
        DimensionStage::Path(_) => key is Path,
        DimensionStage::Folder(_) => key is Folder,
    }
}

/// The value by which this stage groups a mark.
pub fn stage_key(stage: &DimensionStage, m: &Mark, roots: &Vec<String>) -> (r: Option<String>)
    ensures
        match r {
            Some(s) => spec_stage_key(*stage, m@, roots.deep_view()) == Some(s@),
            None => spec_stage_key(*stage, m@, roots.deep_view()) is None,
        },
{
    match stage {
        DimensionStage::Mark(_) => crate::constants::normalize_mark(m.mark.as_str()),
        DimensionStage::Language(_) => Some(m.language.clone()),
        DimensionStage::Path(_) => Some(m.path.clone()),
        DimensionStage::Folder(cfg) => Some(folder_key(m.path.as_str(), roots, cfg.depth)),
    }
}

fn wrap_key(stage: &DimensionStage, key: String) -> (r: GroupKey)
    ensures
        r.key_seq() == key@,
        key_matches_stage(r, *stage),
{
    match stage {
        DimensionStage::Mark(_) => GroupKey::Mark(key),
        DimensionStage::Language(_) => GroupKey::Language(key),
        DimensionStage::Path(_) => GroupKey::Path(key),
        DimensionStage::Folder(_) => GroupKey::Folder(key),
    }
}

/// The effective priority of a mark group key.
fn mark_priority(key: &str, overrides: &Vec<MarkPriorityOverride>) -> (r: u8)
    ensures
        r as int == spec_mark_priority(overrides@, key@),
{
    let mut i: usize = 0;
    proof {
        assert(overrides@.skip(0) =~= overrides@);
    }
    while i < overrides.len()
        invariant
            i <= overrides@.len(),
            spec_override_priority(overrides@, key@) == spec_override_priority(
                overrides@.skip(i as int),
                key@,
            ),
        decreases overrides@.len() - i,
    {
        proof {
            assert(overrides@.skip(i as int)[0] == overrides@[i as int]);
            assert(overrides@.skip(i as int).drop_first() =~= overrides@.skip(i + 1));
        }
        if crate::syntax::str_eq_ignore_ascii_case(overrides[i].mark.as_str(), key) {
            return overrides[i].priority;
        }
        i = i + 1;
    }
    if str_eq(key, "ERROR") {
        0
    } else if str_eq(key, "WARN") {
        1
    } else if str_eq(key, "FIXME") {
        2
    } else if str_eq(key, "TODO") {
        3
    } else if str_eq(key, "NOTE") {
        4
    } else if str_eq(key, "INFO") {
        5
    } else {
        255
    }
}

/// The stage's strict group order on two groups.
fn group_lt(stage: &DimensionStage, a: &Group, b: &Group) -> (r: bool)
    ensures
        r == spec_group_lt(
            *stage,
            a.key.key_seq(),
            a.items@.len() as int,
            b.key.key_seq(),
            b.items@.len() as int,
        ),
{
    match stage {
        DimensionStage::Mark(cfg) => {
            let pa = mark_priority(a.key.text(), &cfg.overrides);
            let pb = mark_priority(b.key.text(), &cfg.overrides);
            pa < pb || (pa == pb && str_lt(a.key.text(), b.key.text()))
        },
        DimensionStage::Language(cfg) => match cfg.order {
            LanguageOrder::CountDescNameAsc => a.items.len() > b.items.len() || (a.items.len()
                == b.items.len() && str_lt(a.key.text(), b.key.text())),
            LanguageOrder::NameAsc => str_lt(a.key.text(), b.key.text()),
        },
        DimensionStage::Path(cfg) => match cfg.order {
            Order::Asc => str_lt(a.key.text(), b.key.text()),
            Order::Desc => str_lt(b.key.text(), a.key.text()),
        },
        DimensionStage::Folder(cfg) => match cfg.order {
            Order::Asc => str_lt(a.key.text(), b.key.text()),
            Order::Desc => str_lt(b.key.text(), a.key.text()),
        },
    }
}

} // verus!

verus! {

/// Every key listed by `spec_keys_in_order` has a non-empty block, the
/// keys are distinct, and every keyed mark is covered.
pub proof fn lemma_keys_in_order_sound(stage: DimensionStage, ms: Seq<MarkV>, roots: Seq<Seq<char>>)
    ensures
        forall|i: int|
            0 <= i < spec_keys_in_order(stage, ms, roots).len() ==> key_block(
                stage,
                ms,
                roots,
                #[trigger] spec_keys_in_order(stage, ms, roots)[i],
            ).len() >= 1,
        forall|i: int, j: int|
            0 <= i < j < spec_keys_in_order(stage, ms, roots).len() ==> spec_keys_in_order(
                stage,
                ms,
                roots,
            )[i] != spec_keys_in_order(stage, ms, roots)[j],
        forall|t: int|
            0 <= t < ms.len() && spec_stage_key(stage, #[trigger] ms[t], roots) is Some
                ==> spec_keys_in_order(stage, ms, roots).contains(
                spec_stage_key(stage, ms[t], roots).unwrap(),
            ),
    decreases ms.len(),
{
    if ms.len() == 0 {
    } else {
        let prev_ms = ms.drop_last();
        lemma_keys_in_order_sound(stage, prev_ms, roots);
        let prev = spec_keys_in_order(stage, prev_ms, roots);
        let keys = spec_keys_in_order(stage, ms, roots);
        assert forall|kk: Seq<char>| true implies #[trigger] key_block(stage, ms, roots, kk)
            == (if spec_stage_key(stage, ms.last(), roots) == Some(kk) {
            key_block(stage, prev_ms, roots, kk).push(ms.last())
        } else {
            key_block(stage, prev_ms, roots, kk)
        }) by {
            crate::utils::lemma_filter_unfold(
                ms,
                |m: MarkV| spec_stage_key(stage, m, roots) == Some(kk),
            );
        }
        match spec_stage_key(stage, ms.last(), roots) {
            None => {
                assert(keys == prev);
                assert forall|i: int| 0 <= i < keys.len() implies key_block(
                    stage,
                    ms,
                    roots,
                    #[trigger] keys[i],
                ).len() >= 1 by {
                    assert(key_block(stage, ms, roots, keys[i]) == key_block(
                        stage,
                        prev_ms,
                        roots,
                        keys[i],
                    ));
                }
                assert forall|t: int|
                    0 <= t < ms.len() && spec_stage_key(stage, #[trigger] ms[t], roots)
                        is Some implies keys.contains(
                    spec_stage_key(stage, ms[t], roots).unwrap()) by {
                    if t < ms.len() - 1 {
                        assert(prev_ms[t] == ms[t]);
                    }
                }
            },
            Some(k) => {
                if prev.contains(k) {
                    assert(keys == prev);
                    assert forall|i: int| 0 <= i < keys.len() implies key_block(
                        stage,
                        ms,
                        roots,
                        #[trigger] keys[i],
                    ).len() >= 1 by {
                        assert(key_block(stage, ms, roots, keys[i]).len() >= key_block(
                            stage,
                            prev_ms,
                            roots,
                            keys[i],
                        ).len());
                    }
                    assert forall|t: int|
                        0 <= t < ms.len() && spec_stage_key(stage, #[trigger] ms[t], roots)
                            is Some implies keys.contains(
                        spec_stage_key(stage, ms[t], roots).unwrap()) by {
                        if t < ms.len() - 1 {
                            assert(prev_ms[t] == ms[t]);
                        } else {
                            assert(ms[t] == ms.last());
                        }
                    }
                } else {
                    assert(keys == prev.push(k));
                    assert forall|i: int| 0 <= i < keys.len() implies key_block(
                        stage,
                        ms,
                        roots,
                        #[trigger] keys[i],
                    ).len() >= 1 by {
                        if i < prev.len() {
                            assert(keys[i] == prev[i]);
                            assert(key_block(stage, ms, roots, keys[i]).len() >= key_block(
                                stage,
                                prev_ms,
                                roots,
                                keys[i],
                            ).len());
                        } else {
                            assert(keys[i] == k);
                            assert(key_block(stage, ms, roots, k) == key_block(
                                stage,
                                prev_ms,
                                roots,
                                k,
                            ).push(ms.last()));
                        }
                    }
                    assert forall|i: int, j: int| 0 <= i < j < keys.len() implies keys[i]
                        != keys[j] by {
                        if j == keys.len() - 1 {
                            assert(keys[j] == k);
                            assert(prev[i] == keys[i]);
                            if keys[i] == k {
                                assert(prev.contains(k));
                            }
                        }
                    }
                    assert forall|t: int|
                        0 <= t < ms.len() && spec_stage_key(stage, #[trigger] ms[t], roots)
                            is Some implies keys.contains(
                        spec_stage_key(stage, ms[t], roots).unwrap()) by {
                        if t < ms.len() - 1 {
                            assert(prev_ms[t] == ms[t]);
                            let kt = spec_stage_key(stage, ms[t], roots).unwrap();
                            assert(prev.contains(kt));
                            let w = choose|w: int| 0 <= w < prev.len() && prev[w] == kt;
                            assert(keys[w] == kt);
                        } else {
                            assert(keys[keys.len() - 1] == k);
                        }
                    }
                }
            },
        }
    }
}

/// Inserting at the first position whose key the new key precedes is what
/// `spec_insert_key` does.
proof fn lemma_insert_at_pos(
    stage: DimensionStage,
    sorted: Seq<Seq<char>>,
    k: Seq<char>,
    ms: Seq<MarkV>,
    roots: Seq<Seq<char>>,
    pos: int,
)
    requires
        0 <= pos <= sorted.len(),
        forall|t: int|
            0 <= t < pos ==> !spec_group_lt(
                stage,
                k,
                key_count(stage, ms, roots, k),
                #[trigger] sorted[t],
                key_count(stage, ms, roots, sorted[t]),
            ),
        pos < sorted.len() ==> spec_group_lt(
            stage,
            k,
            key_count(stage, ms, roots, k),
            sorted[pos],
            key_count(stage, ms, roots, sorted[pos]),
        ),
    ensures
        spec_insert_key(stage, sorted, k, ms, roots) == sorted.insert(pos, k),
    decreases sorted.len(),
{
    if sorted.len() == 0 {
        assert(spec_insert_key(stage, sorted, k, ms, roots) =~= sorted.insert(0, k));
    } else if spec_group_lt(
        stage,
        k,
        key_count(stage, ms, roots, k),
        sorted[0],
        key_count(stage, ms, roots, sorted[0]),
    ) {
        assert(pos == 0);
        assert(spec_insert_key(stage, sorted, k, ms, roots) =~= sorted.insert(0, k));
    } else {
        assert(pos >= 1);
        lemma_insert_at_pos(stage, sorted.drop_first(), k, ms, roots, pos - 1);
        assert(seq![sorted[0]] + sorted.drop_first().insert(pos - 1, k) =~= sorted.insert(
            pos,
            k,
        ));
    }
}

/// Group the marks by this stage's dimension value: one group per distinct
/// key, each holding its marks in input order, groups ordered by the
/// stage's group order. Marks without a key (a non-canonical mark word)
/// are returned separately, in input order, as the stage's unranked
/// remainder.
pub fn group_for_stage(stage: &DimensionStage, items: Vec<Mark>, roots: &Vec<String>) -> (r: (
    Vec<Group>,
    Vec<Mark>,
))
    ensures
        ({
            let gs = r.0;
            &&& group_keys_v(gs@) == spec_sorted_keys(*stage, marks_v(items@), roots.deep_view())
            &&& forall|i: int|
                0 <= i < gs@.len() ==> marks_v((#[trigger] gs@[i]).items@) == key_block(
                    *stage,
                    marks_v(items@),
                    roots.deep_view(),
                    gs@[i].key.key_seq(),
                )
            &&& forall|i: int|
                0 <= i < gs@.len() ==> key_matches_stage((#[trigger] gs@[i]).key, *stage)
            &&& forall|i: int| 0 <= i < gs@.len() ==> (#[trigger] gs@[i]).items@.len() >= 1
        }),
        marks_v(r.1@) == spec_unranked(*stage, marks_v(items@), roots.deep_view()),
{
    let ghost ms = marks_v(items@);
    let ghost rv = roots.deep_view();
    proof {
        assert(ms.take(ms.len() as int) =~= ms);
    }

    // Distinct keys in first-occurrence order.
    let mut keys: Vec<String> = Vec::new();
    let mut j: usize = 0;
    while j < items.len()
        invariant
            ms == marks_v(items@),
            rv == roots.deep_view(),
            j <= items@.len(),
            keys.deep_view() == spec_keys_in_order(*stage, ms.take(j as int), rv),
        decreases items@.len() - j,
    {
        proof {
            assert(ms.take(j + 1).drop_last() =~= ms.take(j as int));
            assert(ms.take(j + 1).last() == ms[j as int]);
            assert(ms[j as int] == items@[j as int]@);
        }
        let ghost kv_old = keys.deep_view();
        match stage_key(stage, &items[j], roots) {
            Some(k) => {
                let mut t: usize = 0;
                let mut found = false;
                while t < keys.len() && !found
                    invariant
                        kv_old == keys.deep_view(),
                        t <= keys@.len(),
                        found ==> exists|u: int|
                            0 <= u < keys.deep_view().len() && keys.deep_view()[u] == k@,
                        !found ==> forall|u: int| 0 <= u < t ==> keys.deep_view()[u] != k@,
                    decreases keys@.len() - t + (if found {
                        0int
                    } else {
                        1int
                    }),
                {
                    proof {
                        assert(keys.deep_view()[t as int] == keys@[t as int]@);
                    }
                    if str_eq(keys[t].as_str(), k.as_str()) {
                        found = true;
                    } else {
                        t = t + 1;
                    }
                }
                if !found {
                    proof {
                        assert(!keys.deep_view().contains(k@));
                    }
                    keys.push(k);
                    proof {
                        assert(keys.deep_view() =~= kv_old.push(k@));
                    }
                } else {
                    proof {
                        assert(keys.deep_view().contains(k@));
                    }
                }
            },
            None => {},
        }
        j = j + 1;
    }
    let ghost all_keys = spec_keys_in_order(*stage, ms, rv);
    proof {
        assert(keys.deep_view() == all_keys);
        lemma_keys_in_order_sound(*stage, ms, rv);
    }

    // One group per key, marks in input order.
    let mut raw: Vec<Group> = Vec::new();
    let mut ki: usize = 0;
    while ki < keys.len()
        invariant
            ms == marks_v(items@),
            rv == roots.deep_view(),
            keys.deep_view() == all_keys,
            forall|i: int|
                0 <= i < all_keys.len() ==> key_block(*stage, ms, rv, #[trigger] all_keys[i]).len()
                    >= 1,
            ki <= keys@.len(),
            raw@.len() == ki,
            forall|i: int|
                0 <= i < ki ==> (#[trigger] raw@[i]).key.key_seq() == all_keys[i],
            forall|i: int|
                0 <= i < ki ==> marks_v((#[trigger] raw@[i]).items@) == key_block(
                    *stage,
                    ms,
                    rv,
                    all_keys[i],
                ),
            forall|i: int| 0 <= i < ki ==> key_matches_stage((#[trigger] raw@[i]).key, *stage),
            forall|i: int| 0 <= i < ki ==> (#[trigger] raw@[i]).items@.len() >= 1,
        decreases keys@.len() - ki,
    {
        proof {
            assert(keys.deep_view()[ki as int] == keys@[ki as int]@);
        }
        let ghost this_key = all_keys[ki as int];
        let mut bucket: Vec<Mark> = Vec::new();
        let mut j2: usize = 0;
        proof {
            crate::utils::lemma_filter_empty(
                |m: MarkV| spec_stage_key(*stage, m, rv) == Some(this_key),
            );
            assert(ms.take(0) =~= Seq::<MarkV>::empty());
        }
        while j2 < items.len()
            invariant
                ms == marks_v(items@),
                rv == roots.deep_view(),
                j2 <= items@.len(),
                this_key == keys@[ki as int]@,
                ki < keys@.len(),
                marks_v(bucket@) == key_block(*stage, ms.take(j2 as int), rv, this_key),
            decreases items@.len() - j2,
        {
            proof {
                assert(ms.take(j2 + 1).drop_last() =~= ms.take(j2 as int));
                assert(ms.take(j2 + 1).last() == ms[j2 as int]);
                assert(ms[j2 as int] == items@[j2 as int]@);
            }
            let ghost bucket_old = bucket@;
            match stage_key(stage, &items[j2], roots) {
                Some(k2) => {
                    if str_eq(k2.as_str(), keys[ki].as_str()) {
                        bucket.push(items[j2].duplicate());
                        proof {
                            assert(marks_v(bucket@) =~= marks_v(bucket_old).push(
                                items@[j2 as int]@,
                            ));
                        }
                    }
                },
                None => {},
            }
            proof {
                crate::utils::lemma_filter_unfold(
                    ms.take(j2 + 1),
                    |m: MarkV| spec_stage_key(*stage, m, rv) == Some(this_key),
                );
            }
            j2 = j2 + 1;
        }
        proof {
            assert(ms.take(ms.len() as int) =~= ms);
            assert(marks_v(bucket@) == key_block(*stage, ms, rv, this_key));
            assert(bucket@.len() >= 1) by {
                assert(key_block(*stage, ms, rv, this_key).len() >= 1);
                assert(marks_v(bucket@).len() == bucket@.len());
            }
        }
        let key_string = keys[ki].clone();
        let g = Group { key: wrap_key(stage, key_string), items: bucket };
        raw.push(g);
        ki = ki + 1;
    }

    // Order the groups by the stage's group order.
    let mut gs: Vec<Group> = Vec::new();
    proof {
        assert(group_keys_v(gs@) =~= Seq::<Seq<char>>::empty());
        assert(group_keys_v(raw@) =~= all_keys);
    }
    while raw.len() > 0
        invariant
            ms == marks_v(items@),
            rv == roots.deep_view(),
            spec_sort_keys_from(*stage, group_keys_v(gs@), group_keys_v(raw@), ms, rv)
                == spec_sorted_keys(*stage, ms, rv),
            forall|i: int|
                0 <= i < gs@.len() ==> marks_v((#[trigger] gs@[i]).items@) == key_block(
                    *stage,
                    ms,
                    rv,
                    gs@[i].key.key_seq(),
                ),
            forall|i: int| 0 <= i < gs@.len() ==> key_matches_stage((#[trigger] gs@[i]).key, *stage),
            forall|i: int| 0 <= i < gs@.len() ==> (#[trigger] gs@[i]).items@.len() >= 1,
            forall|i: int|
                0 <= i < raw@.len() ==> marks_v((#[trigger] raw@[i]).items@) == key_block(
                    *stage,
                    ms,
                    rv,
                    raw@[i].key.key_seq(),
                ),
            forall|i: int| 0 <= i < raw@.len() ==> key_matches_stage(
                (#[trigger] raw@[i]).key,
                *stage,
            ),
            forall|i: int| 0 <= i < raw@.len() ==> (#[trigger] raw@[i]).items@.len() >= 1,
        decreases raw@.len(),
    {
        let ghost raw_old = raw@;
        let ghost gs_old_keys = group_keys_v(gs@);
        let g = raw.remove(0);
        proof {
            assert(raw@ =~= raw_old.drop_first());
            assert(group_keys_v(raw_old)[0] == g.key.key_seq());
            assert(group_keys_v(raw@) =~= group_keys_v(raw_old).drop_first());
        }
        let mut pos: usize = 0;
        while pos < gs.len() && !group_lt(stage, &g, &gs[pos])
            invariant
                pos <= gs@.len(),
                marks_v(g.items@) == key_block(*stage, ms, rv, g.key.key_seq()),
                forall|i: int|
                    0 <= i < gs@.len() ==> marks_v((#[trigger] gs@[i]).items@) == key_block(
                        *stage,
                        ms,
                        rv,
                        gs@[i].key.key_seq(),
                    ),
                forall|t: int|
                    0 <= t < pos ==> !spec_group_lt(
                        *stage,
                        g.key.key_seq(),
                        key_count(*stage, ms, rv, g.key.key_seq()),
                        #[trigger] group_keys_v(gs@)[t],
                        key_count(*stage, ms, rv, group_keys_v(gs@)[t]),
                    ),
            decreases gs@.len() - pos,
        {
            proof {
                assert(group_keys_v(gs@)[pos as int] == gs@[pos as int].key.key_seq());
                assert(gs@[pos as int].items@.len() == key_count(
                    *stage,
                    ms,
                    rv,
                    gs@[pos as int].key.key_seq(),
                ));
                assert(g.items@.len() == key_count(*stage, ms, rv, g.key.key_seq()));
            }
            pos = pos + 1;
        }
        proof {
            if (pos as int) < gs@.len() {
                assert(group_keys_v(gs@)[pos as int] == gs@[pos as int].key.key_seq());
                assert(gs@[pos as int].items@.len() == key_count(
                    *stage,
                    ms,
                    rv,
                    gs@[pos as int].key.key_seq(),
                ));
                assert(g.items@.len() == key_count(*stage, ms, rv, g.key.key_seq()));
            }
            lemma_insert_at_pos(
                *stage,
                group_keys_v(gs@),
                g.key.key_seq(),
                ms,
                rv,
                pos as int,
            );
        }
        let ghost gkey = g.key.key_seq();
        gs.insert(pos, g);
        proof {
            assert(group_keys_v(gs@) =~= gs_old_keys.insert(pos as int, gkey));
        }
    }
    proof {
        assert(group_keys_v(raw@).len() == 0);
        assert(group_keys_v(raw@) =~= Seq::<Seq<char>>::empty());
        assert(group_keys_v(gs@) == spec_sorted_keys(*stage, ms, rv));
    }

    // The marks this stage cannot rank, in input order.
    let mut unranked: Vec<Mark> = Vec::new();
    let mut j3: usize = 0;
    proof {
        crate::utils::lemma_filter_empty(
            |m: MarkV| spec_stage_key(*stage, m, rv) is None,
        );
        assert(ms.take(0) =~= Seq::<MarkV>::empty());
    }
    while j3 < items.len()
        invariant
            ms == marks_v(items@),
            rv == roots.deep_view(),
            j3 <= items@.len(),
            marks_v(unranked@) == spec_unranked(*stage, ms.take(j3 as int), rv),
        decreases items@.len() - j3,
    {
        proof {
            assert(ms.take(j3 + 1).drop_last() =~= ms.take(j3 as int));
            assert(ms.take(j3 + 1).last() == ms[j3 as int]);
            assert(ms[j3 as int] == items@[j3 as int]@);
        }
        let ghost unranked_old = unranked@;
        match stage_key(stage, &items[j3], roots) {
            Some(_) => {},
            None => {
                unranked.push(items[j3].duplicate());
                proof {
                    assert(marks_v(unranked@) =~= marks_v(unranked_old).push(
                        items@[j3 as int]@,
                    ));
                }
            },
        }
        proof {
            crate::utils::lemma_filter_unfold(
                ms.take(j3 + 1),
                |m: MarkV| spec_stage_key(*stage, m, rv) is None,
            );
        }
        j3 = j3 + 1;
    }
    proof {
        assert(ms.take(ms.len() as int) =~= ms);
    }
    (gs, unranked)
}

} // verus!
