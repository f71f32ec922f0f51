use std::collections::HashMap;
use vstd::prelude::*;

use crate::entry::{entry_views, EntryView, FileEntry};
use crate::keys::{filename_filesize_key, filename_key, name_key, name_size_key, Mode};

verus! {

broadcast use vstd::std_specs::hash::group_hash_axioms;

/// The entries that share one key, in input order.
pub struct FileGroup {
    pub key: u64,
    pub files: Vec<FileEntry>,
}

/// The mathematical view of a [`FileGroup`].
pub ghost struct GroupView {
    pub key: u64,
    pub files: Seq<EntryView>,
}

impl View for FileGroup {
    type V = GroupView;

    open spec fn view(&self) -> GroupView {
        GroupView { key: self.key, files: entry_views(self.files@) }
    }
}

/// Entries partitioned by key: one group per distinct key.
pub struct FileHashTable {
    pub groups: Vec<FileGroup>,
}

impl View for FileHashTable {
    type V = Seq<GroupView>;

    open spec fn view(&self) -> Seq<GroupView> {
        self.groups@.map_values(|g: FileGroup| g@)
    }
}

/// The entries among the first `n` whose key is `k`, in input order.
pub open spec fn members_upto(
    es: Seq<EntryView>,
    keys: Seq<Option<u64>>,
    k: u64,
    n: nat,
) -> Seq<EntryView>
    decreases n,
{
    if n == 0 {
        seq![]
    } else {
        let prev = members_upto(es, keys, k, (n - 1) as nat);
        if keys[n - 1] == Some(k) {
            prev.push(es[n - 1])
        } else {
            prev
        }
    }
}

/// The entries whose key is `k`, in input order.
pub open spec fn members(es: Seq<EntryView>, keys: Seq<Option<u64>>, k: u64) -> Seq<EntryView> {
    members_upto(es, keys, k, es.len())
}

/// Some entry among the first `n` has key `k`.
pub open spec fn has_key_upto(keys: Seq<Option<u64>>, k: u64, n: int) -> bool {
    exists|i: int| 0 <= i < n && keys[i] == Some(k)
}

/// `gs` partitions the entries `es` by their keys `keys`: one group for each
/// key that some entry has, holding exactly the entries with that key in
/// input order; an entry without a key is in no group.
pub open spec fn is_grouping(es: Seq<EntryView>, keys: Seq<Option<u64>>, gs: Seq<GroupView>) -> bool {
    &&& forall|j: int| 0 <= j < gs.len() ==> has_key_upto(keys, #[trigger] gs[j].key, keys.len() as int)
    &&& forall|j: int| 0 <= j < gs.len() ==> #[trigger] gs[j].files == members(es, keys, gs[j].key)
    &&& forall|j1: int, j2: int|
        0 <= j1 < gs.len() && 0 <= j2 < gs.len() && j1 != j2 ==> #[trigger] gs[j1].key != #[trigger] gs[j2].key
    &&& forall|i: int|
        0 <= i < keys.len() && #[trigger] keys[i] is Some ==> exists|j: int|
            0 <= j < gs.len() && gs[j].key == keys[i]->Some_0
}

/// The groups stand in the order in which their keys first occur: every
/// entry with the key of a later group comes after some entry with the key of
/// an earlier one.
pub open spec fn in_first_seen_order(keys: Seq<Option<u64>>, gs: Seq<GroupView>) -> bool {
    forall|j1: int, j2: int, x: int|
        0 <= j1 < j2 < gs.len() && 0 <= x < keys.len() && #[trigger] keys[x] == Some(
            #[trigger] gs[j2].key,
        ) ==> has_key_upto(keys, #[trigger] gs[j1].key, x)
}

proof fn lemma_members_absent(es: Seq<EntryView>, keys: Seq<Option<u64>>, k: u64, n: nat)
    requires
        n <= keys.len(),
        !has_key_upto(keys, k, n as int),
    ensures
        members_upto(es, keys, k, n) == Seq::<EntryView>::empty(),
    decreases n,
{
    if n > 0 {
        assert(keys[n - 1] != Some(k));
        lemma_members_absent(es, keys, k, (n - 1) as nat);
    }
}

/// Partitions `files` by their keys: `keys[i]` is the key of `files[i]`, or
/// `None` where computing it failed, in which case that entry is left out.
pub fn find_equal_files_by_hash(files: &Vec<FileEntry>, keys: &Vec<Option<u64>>) -> (r: FileHashTable)
    requires
        files.len() == keys.len(),
    ensures
        is_grouping(entry_views(files@), keys@, r@),
        in_first_seen_order(keys@, r@),
{
    let ghost es = entry_views(files@);
    let mut groups: Vec<FileGroup> = Vec::new();
    let mut index: HashMap<u64, usize> = HashMap::new();
    let n = files.len();
    for i in 0..n
        invariant
            n == files.len(),
            n == keys.len(),
            es == entry_views(files@),
            forall|k: u64| #[trigger]
                index@.contains_key(k) ==> index@[k] < groups.len() && groups@[index@[k] as int].key == k,
            forall|j: int|
                0 <= j < groups.len() ==> index@.contains_key(#[trigger] groups@[j].key)
                    && index@[groups@[j].key] == j,
            forall|j: int|
                0 <= j < groups.len() ==> has_key_upto(keys@, #[trigger] groups@[j].key, i as int),
            forall|j: int|
                0 <= j < groups.len() ==> #[trigger] entry_views(groups@[j].files@) == members_upto(
                    es,
                    keys@,
                    groups@[j].key,
                    i as nat,
                ),
            forall|x: int|
                0 <= x < i && #[trigger] keys@[x] is Some ==> index@.contains_key(keys@[x]->Some_0),
            forall|j1: int, j2: int, x: int|
                0 <= j1 < j2 < groups.len() && 0 <= x < i && #[trigger] keys@[x] == Some(
                    #[trigger] groups@[j2].key,
                ) ==> has_key_upto(keys@, #[trigger] groups@[j1].key, x),
    {
        let ghost old_groups = groups@;
        match keys[i] {
            None => {
                assert forall|j: int| 0 <= j < groups.len() implies #[trigger] entry_views(
                    groups@[j].files@,
                ) == members_upto(es, keys@, groups@[j].key, (i + 1) as nat) by {
                    assert(has_key_upto(keys@, groups@[j].key, i as int));
                }
                assert forall|j: int| 0 <= j < groups.len() implies has_key_upto(
                    keys@,
                    #[trigger] groups@[j].key,
                    (i + 1) as int,
                ) by {
                    assert(has_key_upto(keys@, groups@[j].key, i as int));
                }
            },
            Some(k) => {
                let copy = files[i].duplicate();
                match index.get(&k) {
                    Some(jr) => {
                        let j = *jr;
                        groups[j].files.push(copy);
                        assert(entry_views(groups@[j as int].files@) =~= entry_views(
                            old_groups[j as int].files@,
                        ).push(es[i as int]));
                        assert forall|j2: int| 0 <= j2 < groups.len() implies #[trigger] entry_views(
                            groups@[j2].files@,
                        ) == members_upto(es, keys@, groups@[j2].key, (i + 1) as nat) by {
                            assert(has_key_upto(keys@, old_groups[j2].key, i as int));
                        }
                        assert forall|j2: int| 0 <= j2 < groups.len() implies has_key_upto(
                            keys@,
                            #[trigger] groups@[j2].key,
                            (i + 1) as int,
                        ) by {
                            assert(has_key_upto(keys@, old_groups[j2].key, i as int));
                        }
                    },
                    None => {
                        proof {
                            lemma_members_absent(es, keys@, k, i as nat);
                        }
                        let mut fs: Vec<FileEntry> = Vec::new();
                        fs.push(copy);
                        let j = groups.len();
                        groups.push(FileGroup { key: k, files: fs });
                        index.insert(k, j);
                        assert(entry_views(groups@[j as int].files@) =~= seq![es[i as int]]);
                        assert forall|j2: int| 0 <= j2 < groups.len() implies #[trigger] entry_views(
                            groups@[j2].files@,
                        ) == members_upto(es, keys@, groups@[j2].key, (i + 1) as nat) by {
                            if j2 < j {
                                assert(has_key_upto(keys@, old_groups[j2].key, i as int));
                            }
                        }
                        assert forall|j2: int| 0 <= j2 < groups.len() implies has_key_upto(
                            keys@,
                            #[trigger] groups@[j2].key,
                            (i + 1) as int,
                        ) by {
                            if j2 < j {
                                assert(has_key_upto(keys@, old_groups[j2].key, i as int));
                            } else {
                                assert(keys@[i as int] == Some(k));
                            }
                        }
                    },
                }
            },
        }
    }
    let r = FileHashTable { groups };
    assert forall|j1: int, j2: int|
        0 <= j1 < r@.len() && 0 <= j2 < r@.len() && j1 != j2 implies #[trigger] r@[j1].key
        != #[trigger] r@[j2].key by {
        assert(index@[r.groups@[j1].key] == j1);
        assert(index@[r.groups@[j2].key] == j2);
    }
    assert forall|x: int| 0 <= x < keys@.len() && #[trigger] keys@[x] is Some implies exists|j: int|
        0 <= j < r@.len() && r@[j].key == keys@[x]->Some_0 by {
        let j = index@[keys@[x]->Some_0] as int;
        assert(r@[j].key == keys@[x]->Some_0);
    }
    assert forall|j: int| 0 <= j < r@.len() implies #[trigger] r@[j].files == members(
        es,
        keys@,
        r@[j].key,
    ) by {
        assert(entry_views(r.groups@[j].files@) == members_upto(es, keys@, r.groups@[j].key, n as nat));
    }
    assert forall|j: int| 0 <= j < r@.len() implies has_key_upto(
        keys@,
        #[trigger] r@[j].key,
        keys@.len() as int,
    ) by {
        assert(has_key_upto(keys@, r.groups@[j].key, n as int));
    }
    assert forall|j1: int, j2: int, x: int|
        0 <= j1 < j2 < r@.len() && 0 <= x < keys@.len() && #[trigger] keys@[x] == Some(
            #[trigger] r@[j2].key,
        ) implies has_key_upto(keys@, #[trigger] r@[j1].key, x) by {
        assert(keys@[x] == Some(r.groups@[j2].key));
        assert(r@[j1].key == r.groups@[j1].key);
    }
    r
}

/// The positions of the entries that have no key and so are in no group,
/// in increasing order: the files whose key could not be computed.
pub fn skipped_entries(keys: &Vec<Option<u64>>) -> (r: Vec<usize>)
    ensures
        forall|a: int, b: int| 0 <= a < b < r.len() ==> r@[a] < r@[b],
        forall|a: int| 0 <= a < r.len() ==> r@[a] < keys.len() && keys@[r@[a] as int] is None,
        forall|i: int| 0 <= i < keys.len() && keys@[i] is None ==> r@.contains(i as usize),
{
    let mut r: Vec<usize> = Vec::new();
    for i in 0..keys.len()
        invariant
            forall|a: int, b: int| 0 <= a < b < r.len() ==> r@[a] < r@[b],
            forall|a: int| 0 <= a < r.len() ==> r@[a] < i && keys@[r@[a] as int] is None,
            forall|x: int| 0 <= x < i && keys@[x] is None ==> r@.contains(x as usize),
    {
        let ghost prev = r@;
        if keys[i].is_none() {
            r.push(i);
            assert(r@[r.len() - 1] == i);
        }
        assert forall|x: int| 0 <= x < i + 1 && keys@[x] is None implies r@.contains(
            x as usize,
        ) by {
            if x < i {
                assert(prev.contains(x as usize));
                let a = choose|a: int| 0 <= a < prev.len() && prev[a] == x as usize;
                assert(r@[a] == x as usize);
            } else {
                assert(r@[r.len() - 1] == i);
            }
        }
    }
    r
}

/// How many of the first `n` entries have size `size`.
pub open spec fn size_count(es: Seq<EntryView>, size: u64, n: nat) -> nat
    decreases n,
{
    if n == 0 {
        0
    } else {
        size_count(es, size, (n - 1) as nat) + if es[n - 1].size == size {
            1nat
        } else {
            0nat
        }
    }
}

/// Entry `i` is worth a content hash: it is not empty, and another entry
/// has the same size.
pub open spec fn is_hash_candidate(es: Seq<EntryView>, i: int) -> bool {
    es[i].size > 0 && size_count(es, es[i].size, es.len()) >= 2
}

/// The key that the `exhaustive` strategy gives entry `i`: its content hash
/// `hashes[i]` where it is a candidate, else none.
pub open spec fn content_keys(es: Seq<EntryView>, hashes: Seq<Option<u64>>) -> Seq<Option<u64>> {
    Seq::new(
        es.len(),
        |i: int|
            if is_hash_candidate(es, i) {
                hashes[i]
            } else {
                None
            },
    )
}

proof fn lemma_size_count_bound(es: Seq<EntryView>, size: u64, n: nat)
    ensures
        size_count(es, size, n) <= n,
    decreases n,
{
    if n > 0 {
        lemma_size_count_bound(es, size, (n - 1) as nat);
    }
}

/// Pre-partition by size: which entries need a content hash. An empty file
/// never does, nor does a file whose size no other entry shares.
pub fn hash_candidates(files: &Vec<FileEntry>) -> (r: Vec<bool>)
    ensures
        r.len() == files.len(),
        forall|i: int| 0 <= i < r.len() ==> r@[i] == is_hash_candidate(entry_views(files@), i),
{
    let ghost es = entry_views(files@);
    let mut counts: HashMap<u64, usize> = HashMap::new();
    let n = files.len();
    for i in 0..n
        invariant
            n == files.len(),
            es == entry_views(files@),
            forall|s: u64| #[trigger]
                counts@.contains_key(s) ==> counts@[s] == size_count(es, s, i as nat),
            forall|s: u64| !#[trigger] counts@.contains_key(s) ==> size_count(es, s, i as nat) == 0,
    {
        let size = files[i].filesize;
        proof {
            lemma_size_count_bound(es, size, i as nat);
        }
        let c: usize = match counts.get(&size) {
            Some(c) => *c,
            None => 0,
        };
        counts.insert(size, c + 1);
    }
    let mut r: Vec<bool> = Vec::new();
    for i in 0..n
        invariant
            n == files.len(),
            es == entry_views(files@),
            r.len() == i,
            forall|s: u64| #[trigger]
                counts@.contains_key(s) ==> counts@[s] == size_count(es, s, n as nat),
            forall|s: u64| !#[trigger] counts@.contains_key(s) ==> size_count(es, s, n as nat) == 0,
            forall|x: int| 0 <= x < i ==> r@[x] == is_hash_candidate(es, x),
    {
        let size = files[i].filesize;
        let c: usize = match counts.get(&size) {
            Some(c) => *c,
            None => 0,
        };
        r.push(size > 0 && c >= 2);
    }
    r
}

/// Groups `files` under the `exhaustive` strategy. `hashes[i]` is the content
/// hash of `files[i]`, or `None` where reading it failed; it is read only for
/// the entries that [`hash_candidates`] selects, all others being in no group.
pub fn find_equal_files_by_content(files: &Vec<FileEntry>, hashes: &Vec<Option<u64>>) -> (r:
    FileHashTable)
    requires
        files.len() == hashes.len(),
    ensures
        is_grouping(entry_views(files@), content_keys(entry_views(files@), hashes@), r@),
        in_first_seen_order(content_keys(entry_views(files@), hashes@), r@),
{
    let candidates = hash_candidates(files);
    let mut keys: Vec<Option<u64>> = Vec::new();
    for i in 0..files.len()
        invariant
            candidates.len() == files.len(),
            files.len() == hashes.len(),
            keys.len() == i,
            forall|x: int|
                0 <= x < candidates.len() ==> candidates@[x] == is_hash_candidate(
                    entry_views(files@),
                    x,
                ),
            forall|x: int|
                0 <= x < i ==> keys@[x] == content_keys(entry_views(files@), hashes@)[x],
    {
        if candidates[i] {
            keys.push(hashes[i]);
        } else {
            keys.push(None);
        }
    }
    assert(keys@ =~= content_keys(entry_views(files@), hashes@));
    find_equal_files_by_hash(files, &keys)
}

/// The keys that `mode` gives the entries `es`, where `hashes` holds the
/// content hashes that were read for the `exhaustive` strategy.
pub open spec fn mode_keys(mode: Mode, es: Seq<EntryView>, hashes: Seq<Option<u64>>) -> Seq<
    Option<u64>,
> {
    match mode {
        Mode::Filename => Seq::new(es.len(), |i: int| name_key(es[i].path)),
        Mode::FilenameFilesize => Seq::new(es.len(), |i: int| name_size_key(es[i].path, es[i].size)),
        Mode::Exhaustive => content_keys(es, hashes),
    }
}

/// The key of each entry under one of the two name strategies.
pub fn name_keys(files: &Vec<FileEntry>, mode: Mode) -> (r: Vec<Option<u64>>)
    requires
        !(mode is Exhaustive),
    ensures
        r@ == mode_keys(mode, entry_views(files@), seq![]),
{
    let mut keys: Vec<Option<u64>> = Vec::new();
    for i in 0..files.len()
        invariant
            !(mode is Exhaustive),
            keys.len() == i,
            forall|x: int|
                0 <= x < i ==> keys@[x] == mode_keys(mode, entry_views(files@), seq![])[x],
    {
        let key = match mode {
            Mode::Filename => filename_key(&files[i]),
            _ => filename_filesize_key(&files[i]),
        };
        keys.push(key);
    }
    assert(keys@ =~= mode_keys(mode, entry_views(files@), seq![]));
    keys
}

/// Groups `files` under `mode`. For the `exhaustive` strategy `hashes[i]` is
/// the content hash of `files[i]` where [`hash_candidates`] selects it (or
/// `None` where reading it failed); the name strategies ignore `hashes`.
pub fn find_duplicates(files: &Vec<FileEntry>, mode: Mode, hashes: &Vec<Option<u64>>) -> (r:
    FileHashTable)
    requires
        mode is Exhaustive ==> hashes.len() == files.len(),
    ensures
        is_grouping(entry_views(files@), mode_keys(mode, entry_views(files@), hashes@), r@),
        in_first_seen_order(mode_keys(mode, entry_views(files@), hashes@), r@),
{
    match mode {
        Mode::Exhaustive => find_equal_files_by_content(files, hashes),
        _ => {
            let keys = name_keys(files, mode);
            assert(mode_keys(mode, entry_views(files@), hashes@) =~= keys@);
            find_equal_files_by_hash(files, &keys)
        },
    }
}

} // verus!
