use vstd::prelude::*;

use crate::content::content_hash;
use crate::engine::{
    content_keys, has_key_upto, is_grouping, is_hash_candidate, members, members_upto,
    mode_keys, size_count, GroupView,
};
use crate::entry::EntryView;
use crate::keys::{file_name_of, Mode};
use crate::report::{group_text, report};

verus! {

proof fn lemma_members_has(es: Seq<EntryView>, keys: Seq<Option<u64>>, k: u64, n: nat, i: int)
    requires
        n <= es.len(),
        n <= keys.len(),
        0 <= i < n,
        keys[i] == Some(k),
    ensures
        members_upto(es, keys, k, n).contains(es[i]),
    decreases n,
{
    if i < n - 1 {
        lemma_members_has(es, keys, k, (n - 1) as nat, i);
        let prev = members_upto(es, keys, k, (n - 1) as nat);
        let j = choose|j: int| 0 <= j < prev.len() && prev[j] == es[i];
        if keys[n - 1] == Some(k) {
            assert(prev.push(es[n - 1])[j] == es[i]);
        }
    } else {
        assert(members_upto(es, keys, k, n).last() == es[i]);
    }
}

proof fn lemma_members_from(es: Seq<EntryView>, keys: Seq<Option<u64>>, k: u64, n: nat, e: EntryView)
    requires
        n <= es.len(),
        n <= keys.len(),
        members_upto(es, keys, k, n).contains(e),
    ensures
        exists|i: int| 0 <= i < n && keys[i] == Some(k) && es[i] == e,
    decreases n,
{
    let prev = members_upto(es, keys, k, (n - 1) as nat);
    if keys[n - 1] == Some(k) && e == es[n - 1] {
    } else {
        if keys[n - 1] == Some(k) {
            let cur = prev.push(es[n - 1]);
            let j = choose|j: int| 0 <= j < cur.len() && #[trigger] cur[j] == e;
            assert(prev[j] == e);
        }
        lemma_members_from(es, keys, k, (n - 1) as nat, e);
    }
}

proof fn lemma_size_count_pair(es: Seq<EntryView>, n: nat, i: int, j: int)
    requires
        n <= es.len(),
        0 <= i < n,
        0 <= j < n,
        i != j,
        es[i].size == es[j].size,
    ensures
        size_count(es, es[i].size, n) >= 2,
    decreases n,
{
    if i < n - 1 && j < n - 1 {
        lemma_size_count_pair(es, (n - 1) as nat, i, j);
    } else {
        let other = if i == n - 1 {
            j
        } else {
            i
        };
        lemma_size_count_one(es, es[i].size, (n - 1) as nat, other);
    }
}

proof fn lemma_size_count_one(es: Seq<EntryView>, size: u64, n: nat, i: int)
    requires
        n <= es.len(),
        0 <= i < n,
        es[i].size == size,
    ensures
        size_count(es, size, n) >= 1,
    decreases n,
{
    if i < n - 1 {
        lemma_size_count_one(es, size, (n - 1) as nat, i);
    }
}

/// Two entries with the same key share a group.
pub proof fn lemma_same_key_same_group(
    es: Seq<EntryView>,
    keys: Seq<Option<u64>>,
    gs: Seq<GroupView>,
    i: int,
    j: int,
)
    requires
        es.len() == keys.len(),
        is_grouping(es, keys, gs),
        0 <= i < es.len(),
        0 <= j < es.len(),
        keys[i] is Some,
        keys[i] == keys[j],
    ensures
        exists|g: int|
            0 <= g < gs.len() && gs[g].files.contains(es[i]) && gs[g].files.contains(es[j]),
{
    let k = keys[i]->Some_0;
    let g = choose|g: int| 0 <= g < gs.len() && gs[g].key == k;
    lemma_members_has(es, keys, k, es.len(), i);
    lemma_members_has(es, keys, k, es.len(), j);
    assert(gs[g].files == members(es, keys, gs[g].key));
}

/// Under `filename_filesize`, entries with the same basename and the same
/// size share a group; under `filename`, the same basename suffices whatever
/// the sizes.
pub proof fn law_same_name_same_group(mode: Mode, es: Seq<EntryView>, gs: Seq<GroupView>, i: int, j: int)
    requires
        !(mode is Exhaustive),
        is_grouping(es, mode_keys(mode, es, seq![]), gs),
        0 <= i < es.len(),
        0 <= j < es.len(),
        file_name_of(es[i].path) is Some,
        file_name_of(es[i].path) == file_name_of(es[j].path),
        mode is FilenameFilesize ==> es[i].size == es[j].size,
    ensures
        exists|g: int|
            0 <= g < gs.len() && gs[g].files.contains(es[i]) && gs[g].files.contains(es[j]),
{
    lemma_same_key_same_group(es, mode_keys(mode, es, seq![]), gs, i, j);
}

/// Under `exhaustive`, two files with the same non-empty content share a
/// group, where the content hash of every candidate was read.
pub proof fn law_same_content_same_group(
    es: Seq<EntryView>,
    contents: Seq<Seq<u8>>,
    hashes: Seq<Option<u64>>,
    gs: Seq<GroupView>,
    i: int,
    j: int,
)
    requires
        contents.len() == es.len(),
        hashes.len() == es.len(),
        forall|x: int| 0 <= x < es.len() ==> es[x].size == (#[trigger] contents[x]).len(),
        forall|x: int|
            0 <= x < es.len() && #[trigger] is_hash_candidate(es, x) ==> hashes[x] == Some(
                content_hash(contents[x]),
            ),
        is_grouping(es, content_keys(es, hashes), gs),
        0 <= i < es.len(),
        0 <= j < es.len(),
        i != j,
        contents[i] == contents[j],
        contents[i].len() > 0,
    ensures
        exists|g: int|
            0 <= g < gs.len() && gs[g].files.contains(es[i]) && gs[g].files.contains(es[j]),
{
    assert(es[i].size == contents[i].len());
    assert(es[j].size == contents[j].len());
    lemma_size_count_pair(es, es.len(), i, j);
    lemma_size_count_pair(es, es.len(), j, i);
    assert(is_hash_candidate(es, i));
    assert(is_hash_candidate(es, j));
    lemma_same_key_same_group(es, content_keys(es, hashes), gs, i, j);
}

/// Two groupings of the same entries under the same keys have the same
/// groups: the same set of keys, and for each key the same members in the
/// same order. Keys depend on paths, sizes and contents alone, so two runs
/// over an unchanged tree report the same groups.
pub proof fn law_grouping_is_determined(
    es: Seq<EntryView>,
    keys: Seq<Option<u64>>,
    gs1: Seq<GroupView>,
    gs2: Seq<GroupView>,
)
    requires
        is_grouping(es, keys, gs1),
        is_grouping(es, keys, gs2),
    ensures
        forall|j1: int| 0 <= j1 < gs1.len() ==> gs2.contains(#[trigger] gs1[j1]),
        forall|j2: int| 0 <= j2 < gs2.len() ==> gs1.contains(#[trigger] gs2[j2]),
{
    assert forall|j1: int| 0 <= j1 < gs1.len() implies gs2.contains(#[trigger] gs1[j1]) by {
        let k = gs1[j1].key;
        assert(has_key_upto(keys, k, keys.len() as int));
        let i = choose|i: int| 0 <= i < keys.len() && keys[i] == Some(k);
        assert(keys[i] is Some);
        let j2 = choose|j2: int| 0 <= j2 < gs2.len() && gs2[j2].key == keys[i]->Some_0;
        assert(gs2[j2].files == members(es, keys, gs2[j2].key));
        assert(gs1[j1].files == members(es, keys, gs1[j1].key));
        assert(gs2[j2] == gs1[j1]);
    }
    assert forall|j2: int| 0 <= j2 < gs2.len() implies gs1.contains(#[trigger] gs2[j2]) by {
        let k = gs2[j2].key;
        assert(has_key_upto(keys, k, keys.len() as int));
        let i = choose|i: int| 0 <= i < keys.len() && keys[i] == Some(k);
        assert(keys[i] is Some);
        let j1 = choose|j1: int| 0 <= j1 < gs1.len() && gs1[j1].key == keys[i]->Some_0;
        assert(gs2[j2].files == members(es, keys, gs2[j2].key));
        assert(gs1[j1].files == members(es, keys, gs1[j1].key));
        assert(gs2[j2] == gs1[j1]);
    }
}

/// Under `exhaustive`, an empty file is in no group.
pub proof fn law_empty_files_never_grouped(
    es: Seq<EntryView>,
    hashes: Seq<Option<u64>>,
    gs: Seq<GroupView>,
)
    requires
        is_grouping(es, content_keys(es, hashes), gs),
    ensures
        forall|g: int, x: int|
            0 <= g < gs.len() && 0 <= x < gs[g].files.len() ==> #[trigger] gs[g].files[x].size > 0,
{
    let keys = content_keys(es, hashes);
    assert forall|g: int, x: int|
        0 <= g < gs.len() && 0 <= x < gs[g].files.len() implies #[trigger] gs[g].files[x].size
        > 0 by {
        assert(gs[g].files == members(es, keys, gs[g].key));
        assert(gs[g].files.contains(gs[g].files[x]));
        lemma_members_from(es, keys, gs[g].key, es.len(), gs[g].files[x]);
        let i = choose|i: int|
            0 <= i < es.len() && keys[i] == Some(gs[g].key) && es[i] == gs[g].files[x];
        assert(is_hash_candidate(es, i));
    }
}

/// A group with fewer than two members adds nothing to the report: the
/// report is that of the groups with two or more members alone.
pub proof fn law_singletons_not_reported(gs: Seq<GroupView>)
    ensures
        report(gs) == report(gs.filter(|g: GroupView| g.files.len() >= 2)),
    decreases gs.len(),
{
    let pred = |g: GroupView| g.files.len() >= 2;
    if gs.len() > 0 {
        law_singletons_not_reported(gs.drop_last());
        let sub = gs.drop_last().filter(pred);
        reveal(Seq::filter);
        assert(gs.filter(pred) == if pred(gs.last()) {
            sub.push(gs.last())
        } else {
            sub
        });
        if pred(gs.last()) {
            assert(sub.push(gs.last()).drop_last() =~= sub);
        } else {
            assert(group_text(gs.last()) =~= seq![]);
            assert(report(gs) =~= report(gs.drop_last()));
        }
    }
}

} // verus!
