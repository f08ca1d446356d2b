//! Engine-wide guarantees, stated and proved over the specifications of the
//! scan and clean planners.

use vstd::prelude::*;
use crate::catalog::CategoryDef;
use crate::catalog::cutoff_for;
use crate::model::FsEntry;
use crate::paths::norm_of;
use crate::paths::key_in;
use crate::scan::entry_matches;
use crate::scan::spec_matching;
use crate::scan::spec_scan_count;
use crate::scan::spec_scan_size;
use crate::clean::spec_walk_attempts;
use crate::clean::spec_included_attempts;
use crate::clean::spec_included_failures;
use crate::model::PathProbe;

verus! {

/// The summed size of all file entries of a walk, with no filtering at all.
pub open spec fn total_file_size(entries: Seq<FsEntry>) -> int
    decreases entries.len(),
{
    if entries.len() == 0 {
        0
    } else {
        total_file_size(entries.drop_last()) + if !entries.last().is_dir {
            entries.last().size as int
        } else {
            0
        }
    }
}

/// The count of all file entries of a walk.
pub open spec fn total_file_count(entries: Seq<FsEntry>) -> int
    decreases entries.len(),
{
    if entries.len() == 0 {
        0
    } else {
        total_file_count(entries.drop_last()) + if !entries.last().is_dir {
            1int
        } else {
            0int
        }
    }
}

/// Completeness: a category with no time filter scans the sum of the sizes
/// of all files under its roots, and counts all of them.
pub proof fn lemma_scan_no_filter_complete(def: &CategoryDef, entries: Seq<FsEntry>, now_ms: i64)
    requires
        def.kind is Standard,
    ensures
        cutoff_for(def.kind, now_ms) is None,
        spec_scan_size(entries, cutoff_for(def.kind, now_ms)) == total_file_size(entries),
        spec_scan_count(entries, cutoff_for(def.kind, now_ms)) == total_file_count(entries),
    decreases entries.len(),
{
    if entries.len() > 0 {
        lemma_scan_no_filter_complete(def, entries.drop_last(), now_ms);
    }
}

/// Strict cutoff in scans: an entry whose modification time is at or past
/// the cutoff (or unreadable) contributes nothing to the scanned totals —
/// removing it changes neither sum.
pub proof fn lemma_cutoff_excludes_from_scan(entries: Seq<FsEntry>, c: i64, i: int)
    requires
        0 <= i < entries.len(),
        !(entries[i].modified matches Some(m) && m < c),
    ensures
        spec_scan_size(entries.remove(i), Some(c)) == spec_scan_size(entries, Some(c)),
        spec_scan_count(entries.remove(i), Some(c)) == spec_scan_count(entries, Some(c)),
    decreases entries.len(),
{
    if i == entries.len() - 1 {
        assert(entries.remove(i) =~= entries.drop_last());
    } else {
        lemma_cutoff_excludes_from_scan(entries.drop_last(), c, i);
        assert(entries.remove(i).drop_last() =~= entries.drop_last().remove(i));
        assert(entries.remove(i).last() == entries.last());
    }
}

/// Strict cutoff in listings: every listed entry under an olderThan filter
/// carries a readable modification time strictly earlier than the cutoff.
pub proof fn lemma_cutoff_strict_matching(entries: Seq<FsEntry>, c: i64)
    ensures
        forall|j: int|
            0 <= j < spec_matching(entries, Some(c)).len() ==> ((#[trigger] spec_matching(
                entries,
                Some(c),
            )[j]).modified matches Some(m) && m < c),
{
    let pred = |e: FsEntry| entry_matches(e, Some(c));
    assert forall|j: int|
        0 <= j < spec_matching(entries, Some(c)).len() implies ((#[trigger] spec_matching(
        entries,
        Some(c),
    )[j]).modified matches Some(m) && m < c) by {
        entries.lemma_filter_pred(pred, j);
    }
}

/// Strict cutoff in deletion plans: every planned walk-and-delete attempt
/// stems from an observed entry whose modification time is strictly earlier
/// than the cutoff.
pub proof fn lemma_cutoff_strict_walk(
    entries: Seq<FsEntry>,
    excluded: Seq<Seq<char>>,
    c: i64,
    n: int,
)
    requires
        n <= entries.len(),
    ensures
        forall|j: int|
            0 <= j < spec_walk_attempts(entries, excluded, Some(c), n).len() ==> exists|i: int|
                {
                    &&& 0 <= i < n
                    &&& (#[trigger] spec_walk_attempts(entries, excluded, Some(c), n)[j]).0
                        == entries[i].path@
                    &&& (entries[i].modified matches Some(m) && m < c)
                },
    decreases n,
{
    if n > 0 {
        lemma_cutoff_strict_walk(entries, excluded, c, n - 1);
        let cur = spec_walk_attempts(entries, excluded, Some(c), n);
        let prev = spec_walk_attempts(entries, excluded, Some(c), n - 1);
        assert forall|j: int| 0 <= j < cur.len() implies exists|i: int|
            {
                &&& 0 <= i < n
                &&& (#[trigger] cur[j]).0 == entries[i].path@
                &&& (entries[i].modified matches Some(m) && m < c)
            } by {
            if j < prev.len() {
                assert(cur[j] == prev[j]);
                let i = choose|i: int|
                    {
                        &&& 0 <= i < n - 1
                        &&& prev[j].0 == entries[i].path@
                        &&& (entries[i].modified matches Some(m) && m < c)
                    };
                assert(0 <= i < n && cur[j].0 == entries[i].path@ && (entries[i].modified
                    matches Some(m) && m < c));
            } else {
                assert(cur[j].0 == entries[n - 1].path@);
                assert(0 <= n - 1 < n && cur[j].0 == entries[n - 1].path@ && (entries[n
                    - 1].modified matches Some(m) && m < c));
            }
        }
    }
}

/// Exclusions are honored: no walk-and-delete attempt names a path whose
/// comparison key is in the exclusion set, however eligible the file is
/// otherwise.
pub proof fn lemma_exclusions_respected(
    entries: Seq<FsEntry>,
    excluded: Seq<Seq<char>>,
    cutoff: Option<i64>,
    n: int,
)
    ensures
        forall|j: int|
            0 <= j < spec_walk_attempts(entries, excluded, cutoff, n).len() ==> !excluded.contains(
                norm_of((#[trigger] spec_walk_attempts(entries, excluded, cutoff, n)[j]).0),
            ),
    decreases n,
{
    if n > 0 {
        lemma_exclusions_respected(entries, excluded, cutoff, n - 1);
        let cur = spec_walk_attempts(entries, excluded, cutoff, n);
        let prev = spec_walk_attempts(entries, excluded, cutoff, n - 1);
        assert forall|j: int| 0 <= j < cur.len() implies !excluded.contains(
            norm_of((#[trigger] cur[j]).0),
        ) by {
            if j < prev.len() {
                assert(cur[j] == prev[j]);
            } else {
                assert(cur[j].0 == entries[n - 1].path@);
            }
        }
    }
}

/// An empty exclusion list behaves exactly like omitting exclusions: the
/// planned attempts are the same.
pub proof fn lemma_empty_exclusions_like_omitted(
    entries: Seq<FsEntry>,
    excluded: Seq<Seq<char>>,
    cutoff: Option<i64>,
    n: int,
)
    requires
        excluded.len() == 0,
    ensures
        spec_walk_attempts(entries, excluded, cutoff, n) == spec_walk_attempts(
            entries,
            Seq::empty(),
            cutoff,
            n,
        ),
    decreases n,
{
    if n > 0 {
        lemma_empty_exclusions_like_omitted(entries, excluded, cutoff, n - 1);
        assert(excluded =~= Seq::<Seq<char>>::empty());
    }
}

/// An included path outside all of the category's roots yields the
/// out-of-scope failure and is never planned for deletion: no attempt shares
/// its comparison key.
pub proof fn lemma_out_of_scope_included_fails(
    def: &CategoryDef,
    root_is_file: Seq<bool>,
    included: Seq<Seq<char>>,
    probes: Seq<PathProbe>,
    now_ms: i64,
    i: int,
    n: int,
)
    requires
        0 <= i < n <= included.len(),
        !key_in(included.take(i), included[i]),
        !crate::catalog::spec_within_roots(def, root_is_file, included[i]),
    ensures
        spec_included_failures(def, root_is_file, included, probes, n).contains(
            (included[i], "Path is outside cleanup scope."@),
        ),
        forall|j: int|
            0 <= j < spec_included_attempts(def, root_is_file, included, probes, now_ms, n).len()
                ==> norm_of(
                (#[trigger] spec_included_attempts(
                    def,
                    root_is_file,
                    included,
                    probes,
                    now_ms,
                    n,
                )[j]).0,
            ) != norm_of(included[i]),
    decreases n,
{
    let fails = spec_included_failures(def, root_is_file, included, probes, n);
    let prev_fails = spec_included_failures(def, root_is_file, included, probes, n - 1);
    if i == n - 1 {
        assert(fails.last() == (included[i], "Path is outside cleanup scope."@));
        assert(fails.contains((included[i], "Path is outside cleanup scope."@)));
    } else {
        lemma_out_of_scope_included_fails(def, root_is_file, included, probes, now_ms, i, n - 1);
        let target = (included[i], "Path is outside cleanup scope."@);
        let j = choose|j: int| 0 <= j < prev_fails.len() && prev_fails[j] == target;
        assert(fails[j] == target);
        assert(fails.contains(target));
    }
    let atts = spec_included_attempts(def, root_is_file, included, probes, now_ms, n);
    let prev_atts = spec_included_attempts(def, root_is_file, included, probes, now_ms, n - 1);
    if i < n - 1 {
        assert forall|j: int|
            0 <= j < atts.len() implies norm_of((#[trigger] atts[j]).0) != norm_of(
            included[i],
        ) by {
            if j < prev_atts.len() {
                assert(atts[j] == prev_atts[j]);
            } else {
                assert(atts[j].0 == included[n - 1]);
                assert(!key_in(included.take(n - 1), included[n - 1]));
                if norm_of(included[n - 1]) == norm_of(included[i]) {
                    assert(included.take(n - 1)[i] == included[i]);
                    assert(key_in(included.take(n - 1), included[n - 1]));
                }
            }
        }
    } else {
        assert forall|j: int|
            0 <= j < atts.len() implies norm_of((#[trigger] atts[j]).0) != norm_of(
            included[i],
        ) by {
            if j < prev_atts.len() {
                assert(atts[j] == prev_atts[j]);
                lemma_included_attempt_fresh(
                    def,
                    root_is_file,
                    included,
                    probes,
                    now_ms,
                    n - 1,
                    j,
                );
                let s = choose|s: int|
                    0 <= s < n - 1 && prev_atts[j].0 == included[s] && !key_in(
                        included.take(s),
                        included[s],
                    ) && crate::catalog::spec_within_roots(def, root_is_file, included[s]);
                if norm_of(included[s]) == norm_of(included[i]) {
                    if s < i {
                        assert(included.take(i)[s] == included[s]);
                        assert(key_in(included.take(i), included[i]));
                    } else if s > i {
                        assert(included.take(s)[i] == included[i]);
                        assert(key_in(included.take(s), included[s]));
                    } else {
                        assert(crate::catalog::spec_within_roots(
                            def,
                            root_is_file,
                            included[i],
                        ));
                    }
                }
            }
        }
    }
}

/// Every planned included-path attempt names a fresh (non-duplicate),
/// in-scope path of the included list.
pub proof fn lemma_included_attempt_fresh(
    def: &CategoryDef,
    root_is_file: Seq<bool>,
    included: Seq<Seq<char>>,
    probes: Seq<PathProbe>,
    now_ms: i64,
    n: int,
    j: int,
)
    requires
        n <= included.len(),
        0 <= j < spec_included_attempts(def, root_is_file, included, probes, now_ms, n).len(),
    ensures
        exists|s: int|
            {
                &&& 0 <= s < n
                &&& (#[trigger] spec_included_attempts(
                    def,
                    root_is_file,
                    included,
                    probes,
                    now_ms,
                    n,
                )[j]).0 == included[s]
                &&& !key_in(included.take(s), included[s])
                &&& crate::catalog::spec_within_roots(def, root_is_file, included[s])
            },
    decreases n,
{
    let atts = spec_included_attempts(def, root_is_file, included, probes, now_ms, n);
    let prev = spec_included_attempts(def, root_is_file, included, probes, now_ms, n - 1);
    if n > 0 {
        if j < prev.len() {
            lemma_included_attempt_fresh(def, root_is_file, included, probes, now_ms, n - 1, j);
            let s = choose|s: int|
                {
                    &&& 0 <= s < n - 1
                    &&& prev[j].0 == included[s]
                    &&& !key_in(included.take(s), included[s])
                    &&& crate::catalog::spec_within_roots(def, root_is_file, included[s])
                };
            assert(atts[j] == prev[j]);
            assert(0 <= s < n && atts[j].0 == included[s] && !key_in(included.take(s), included[s])
                && crate::catalog::spec_within_roots(def, root_is_file, included[s]));
        } else {
            assert(atts[j].0 == included[n - 1]);
            assert(0 <= n - 1 < n && atts[j].0 == included[n - 1] && !key_in(
                included.take(n - 1),
                included[n - 1],
            ) && crate::catalog::spec_within_roots(def, root_is_file, included[n - 1]));
        }
    }
}

/// Included paths are deleted at most once: the planned attempts of an
/// included-paths clean carry pairwise distinct comparison keys.
pub proof fn lemma_included_attempts_distinct(
    def: &CategoryDef,
    root_is_file: Seq<bool>,
    included: Seq<Seq<char>>,
    probes: Seq<PathProbe>,
    now_ms: i64,
    n: int,
    j1: int,
    j2: int,
)
    requires
        n <= included.len(),
        0 <= j1 < j2 < spec_included_attempts(
            def,
            root_is_file,
            included,
            probes,
            now_ms,
            n,
        ).len(),
    ensures
        norm_of(spec_included_attempts(def, root_is_file, included, probes, now_ms, n)[j1].0)
            != norm_of(spec_included_attempts(def, root_is_file, included, probes, now_ms, n)[j2].0),
    decreases n,
{
    let atts = spec_included_attempts(def, root_is_file, included, probes, now_ms, n);
    let prev = spec_included_attempts(def, root_is_file, included, probes, now_ms, n - 1);
    if n > 0 {
        if j2 < prev.len() {
            lemma_included_attempts_distinct(
                def,
                root_is_file,
                included,
                probes,
                now_ms,
                n - 1,
                j1,
                j2,
            );
            assert(atts[j1] == prev[j1]);
            assert(atts[j2] == prev[j2]);
        } else {
            assert(atts[j2].0 == included[n - 1]);
            assert(atts[j1] == prev[j1]);
            lemma_included_attempt_fresh(def, root_is_file, included, probes, now_ms, n - 1, j1);
            let s = choose|s: int|
                {
                    &&& 0 <= s < n - 1
                    &&& prev[j1].0 == included[s]
                    &&& !key_in(included.take(s), included[s])
                    &&& crate::catalog::spec_within_roots(def, root_is_file, included[s])
                };
            assert(!key_in(included.take(n - 1), included[n - 1]));
            if norm_of(atts[j1].0) == norm_of(atts[j2].0) {
                assert(included.take(n - 1)[s] == included[s]);
                assert(key_in(included.take(n - 1), included[n - 1]));
            }
        }
    }
}


/// The volume root itself is never planned for deletion by the ad-hoc
/// cleaner: no attempt shares the root's comparison key.
pub proof fn lemma_root_never_attempted(
    root: Seq<char>,
    root_is_file: bool,
    paths: Seq<Seq<char>>,
    probes: Seq<PathProbe>,
    n: int,
)
    ensures
        forall|j: int|
            0 <= j < crate::large::spec_large_attempts(root, root_is_file, paths, probes, n).len()
                ==> norm_of(
                (#[trigger] crate::large::spec_large_attempts(
                    root,
                    root_is_file,
                    paths,
                    probes,
                    n,
                )[j]).0,
            ) != norm_of(root),
    decreases n,
{
    if n > 0 {
        lemma_root_never_attempted(root, root_is_file, paths, probes, n - 1);
        let cur = crate::large::spec_large_attempts(root, root_is_file, paths, probes, n);
        let prev = crate::large::spec_large_attempts(root, root_is_file, paths, probes, n - 1);
        assert forall|j: int| 0 <= j < cur.len() implies norm_of((#[trigger] cur[j]).0)
            != norm_of(root) by {
            if j < prev.len() {
                assert(cur[j] == prev[j]);
            } else {
                assert(cur[j].0 == paths[n - 1]);
            }
        }
    }
}

/// A path naming the volume root (by comparison key, fresh and in scope)
/// draws the dedicated refusal failure from the ad-hoc cleaner.
pub proof fn lemma_volume_root_refused(
    root: Seq<char>,
    root_is_file: bool,
    paths: Seq<Seq<char>>,
    probes: Seq<PathProbe>,
    i: int,
    n: int,
)
    requires
        0 <= i < n <= paths.len(),
        !key_in(paths.take(i), paths[i]),
        crate::paths::spec_within_root(root, root_is_file, paths[i]),
        norm_of(paths[i]) == norm_of(root),
    ensures
        crate::large::spec_large_failures(root, root_is_file, paths, probes, n).contains(
            (paths[i], "Refusing to delete drive root."@),
        ),
    decreases n,
{
    let fails = crate::large::spec_large_failures(root, root_is_file, paths, probes, n);
    let prev = crate::large::spec_large_failures(root, root_is_file, paths, probes, n - 1);
    let target = (paths[i], "Refusing to delete drive root."@);
    if i == n - 1 {
        assert(fails.last() == target);
        assert(fails.contains(target));
    } else {
        lemma_volume_root_refused(root, root_is_file, paths, probes, i, n - 1);
        let j = choose|j: int| 0 <= j < prev.len() && prev[j] == target;
        assert(fails[j] == target);
        assert(fails.contains(target));
    }
}

proof fn lemma_insert_by_size_membership(
    sorted: Seq<crate::large::LargeItemView>,
    x: crate::large::LargeItemView,
)
    ensures
        crate::large::spec_insert_by_size(sorted, x).len() == sorted.len() + 1,
        forall|j: int|
            0 <= j < crate::large::spec_insert_by_size(sorted, x).len()
                ==> (#[trigger] crate::large::spec_insert_by_size(sorted, x)[j]) == x
                || sorted.contains(crate::large::spec_insert_by_size(sorted, x)[j]),
    decreases sorted.len(),
{
    let ins = crate::large::spec_insert_by_size(sorted, x);
    if sorted.len() == 0 {
    } else if sorted.last().2 >= x.2 {
        assert forall|j: int| 0 <= j < ins.len() implies (#[trigger] ins[j]) == x
            || sorted.contains(ins[j]) by {
            if j < sorted.len() {
                assert(ins[j] == sorted[j]);
                assert(sorted.contains(sorted[j]));
            }
        }
    } else {
        lemma_insert_by_size_membership(sorted.drop_last(), x);
        let inner = crate::large::spec_insert_by_size(sorted.drop_last(), x);
        assert forall|j: int| 0 <= j < ins.len() implies (#[trigger] ins[j]) == x
            || sorted.contains(ins[j]) by {
            if j < inner.len() {
                assert(ins[j] == inner[j]);
                if inner[j] != x {
                    let m = choose|m: int|
                        0 <= m < sorted.drop_last().len() && sorted.drop_last()[m] == inner[j];
                    assert(sorted[m] == inner[j]);
                    assert(sorted.contains(ins[j]));
                }
            } else {
                assert(ins[j] == sorted.last());
                assert(sorted.contains(sorted.last()));
            }
        }
    }
}

proof fn lemma_sort_by_size_membership(s: Seq<crate::large::LargeItemView>)
    ensures
        crate::large::spec_sort_by_size(s).len() == s.len(),
        forall|j: int|
            0 <= j < crate::large::spec_sort_by_size(s).len() ==> s.contains(
                #[trigger] crate::large::spec_sort_by_size(s)[j],
            ),
    decreases s.len(),
{
    let sorted = crate::large::spec_sort_by_size(s);
    if s.len() > 0 {
        lemma_sort_by_size_membership(s.drop_last());
        let inner = crate::large::spec_sort_by_size(s.drop_last());
        lemma_insert_by_size_membership(inner, s.last());
        assert forall|j: int| 0 <= j < sorted.len() implies s.contains(
            #[trigger] sorted[j],
        ) by {
            if sorted[j] == s.last() {
                assert(s[s.len() - 1] == s.last());
                assert(s.contains(sorted[j]));
            } else {
                assert(inner.contains(sorted[j]));
                let m = choose|m: int| 0 <= m < inner.len() && inner[m] == sorted[j];
                let m2 = choose|m2: int|
                    0 <= m2 < s.drop_last().len() && s.drop_last()[m2] == inner[m];
                assert(s[m2] == sorted[j]);
                assert(s.contains(sorted[j]));
            }
        }
    }
}

proof fn lemma_large_files_min(
    entries: Seq<FsEntry>,
    min_size: u64,
    catalog: Seq<CategoryDef>,
    root_files: Seq<Seq<bool>>,
    now_ms: i64,
    n: int,
)
    ensures
        forall|j: int|
            0 <= j < crate::large::spec_large_files(
                entries,
                min_size,
                catalog,
                root_files,
                now_ms,
                n,
            ).len() ==> (#[trigger] crate::large::spec_large_files(
                entries,
                min_size,
                catalog,
                root_files,
                now_ms,
                n,
            )[j]).2 >= min_size,
    decreases n,
{
    if n > 0 {
        lemma_large_files_min(entries, min_size, catalog, root_files, now_ms, n - 1);
        let cur = crate::large::spec_large_files(entries, min_size, catalog, root_files, now_ms, n);
        let prev = crate::large::spec_large_files(
            entries,
            min_size,
            catalog,
            root_files,
            now_ms,
            n - 1,
        );
        assert forall|j: int| 0 <= j < cur.len() implies (#[trigger] cur[j]).2 >= min_size by {
            if j < prev.len() {
                assert(cur[j] == prev[j]);
            }
        }
    }
}

proof fn lemma_large_dirs_min(accs: Seq<(Seq<char>, Seq<char>, u64)>, min_size: u64, n: int)
    ensures
        forall|j: int|
            0 <= j < crate::large::spec_large_dirs(accs, min_size, n).len()
                ==> (#[trigger] crate::large::spec_large_dirs(accs, min_size, n)[j]).2 >= min_size,
    decreases n,
{
    if n > 0 {
        lemma_large_dirs_min(accs, min_size, n - 1);
        let cur = crate::large::spec_large_dirs(accs, min_size, n);
        let prev = crate::large::spec_large_dirs(accs, min_size, n - 1);
        assert forall|j: int| 0 <= j < cur.len() implies (#[trigger] cur[j]).2 >= min_size by {
            if j < prev.len() {
                assert(cur[j] == prev[j]);
            }
        }
    }
}

/// Threshold respected: the large-item sweep never reports an item, file or
/// directory, smaller than the requested minimum size.
pub proof fn lemma_large_result_min(
    entries: Seq<FsEntry>,
    min_size: u64,
    catalog: Seq<CategoryDef>,
    root_files: Seq<Seq<bool>>,
    now_ms: i64,
)
    ensures
        forall|j: int|
            0 <= j < crate::large::spec_large_result(
                entries,
                min_size,
                catalog,
                root_files,
                now_ms,
            ).len() ==> (#[trigger] crate::large::spec_large_result(
                entries,
                min_size,
                catalog,
                root_files,
                now_ms,
            )[j]).2 >= min_size,
{
    let files = crate::large::spec_large_files(
        entries,
        min_size,
        catalog,
        root_files,
        now_ms,
        entries.len() as int,
    );
    let accs = crate::large::spec_dir_accs(entries, entries.len() as int);
    let dirs = crate::large::spec_large_dirs(accs, min_size, accs.len() as int);
    let all = files + dirs;
    lemma_large_files_min(entries, min_size, catalog, root_files, now_ms, entries.len() as int);
    lemma_large_dirs_min(accs, min_size, accs.len() as int);
    lemma_sort_by_size_membership(all);
    let sorted = crate::large::spec_sort_by_size(all);
    assert forall|j: int| 0 <= j < sorted.len() implies (#[trigger] sorted[j]).2 >= min_size by {
        assert(all.contains(sorted[j]));
        let m = choose|m: int| 0 <= m < all.len() && all[m] == sorted[j];
        if m < files.len() {
            assert(all[m] == files[m]);
        } else {
            assert(all[m] == dirs[m - files.len()]);
        }
    }
}


/// A walked file credits the bucket of the given key: it is a file whose
/// nearest keyword-named ancestor directory normalizes to that key.
pub open spec fn entry_credits(e: FsEntry, key: Seq<char>) -> bool {
    !e.is_dir && match crate::paths::spec_parent(e.path@) {
        Some(par) => match crate::paths::spec_find_suspicious_dir(
            par,
            crate::paths::spec_suspicious_keywords(),
        ) {
            Some(d) => norm_of(d) == key,
            None => false,
        },
        None => false,
    }
}

/// The saturating sum of the sizes of the first `n` walked files crediting
/// the given bucket key.
pub open spec fn spec_dir_total(entries: Seq<FsEntry>, key: Seq<char>, n: int) -> u64
    decreases n,
{
    if n <= 0 {
        0u64
    } else {
        let prev = spec_dir_total(entries, key, n - 1);
        if entry_credits(entries[n - 1], key) {
            crate::model::clamp_u64(prev + entries[n - 1].size)
        } else {
            prev
        }
    }
}

/// The accumulation is sound: bucket keys are pairwise distinct, each
/// bucket's key is the comparison key of its path, each total is the
/// saturating sum of the observed sizes crediting that key, and a key
/// without a bucket was credited by nothing.
pub proof fn lemma_dir_accs_sound(entries: Seq<FsEntry>, n: int)
    ensures
        ({
            let accs = crate::large::spec_dir_accs(entries, n);
            &&& forall|b1: int, b2: int|
                0 <= b1 < b2 < accs.len() ==> (#[trigger] accs[b1]).0 != (#[trigger] accs[b2]).0
            &&& forall|b: int|
                0 <= b < accs.len() ==> (#[trigger] accs[b]).0 == norm_of(accs[b].1)
            &&& forall|b: int|
                0 <= b < accs.len() ==> (#[trigger] accs[b]).2 == spec_dir_total(
                    entries,
                    accs[b].0,
                    n,
                )
            &&& forall|key: Seq<char>|
                (forall|b: int| 0 <= b < accs.len() ==> (#[trigger] accs[b]).0 != key)
                    ==> #[trigger] spec_dir_total(entries, key, n) == 0
        }),
    decreases n,
{
    if n > 0 {
        lemma_dir_accs_sound(entries, n - 1);
        let prev = crate::large::spec_dir_accs(entries, n - 1);
        let accs = crate::large::spec_dir_accs(entries, n);
        let e = entries[n - 1];
        let credited = !e.is_dir && (crate::paths::spec_parent(e.path@) matches Some(par)
            && crate::paths::spec_find_suspicious_dir(
            par,
            crate::paths::spec_suspicious_keywords(),
        ) is Some);
        if credited {
            let par = crate::paths::spec_parent(e.path@)->Some_0;
            let d = crate::paths::spec_find_suspicious_dir(
                par,
                crate::paths::spec_suspicious_keywords(),
            )->Some_0;
            let k = norm_of(d);
            crate::large::lemma_acc_index_props(prev, k);
            let j = crate::large::spec_acc_index(prev, k);
            assert(accs == crate::large::spec_accumulate(prev, d, e.size));
            assert forall|key: Seq<char>| key != k implies spec_dir_total(entries, key, n)
                == spec_dir_total(entries, key, n - 1) by {
                assert(!entry_credits(e, key));
            }
            assert(entry_credits(e, k));
            if j >= 0 {
                assert(accs =~= prev.update(j, (prev[j].0, prev[j].1, crate::model::clamp_u64(
                    prev[j].2 + e.size,
                ))));
                assert(accs.len() == prev.len());
                assert forall|b: int| 0 <= b < accs.len() && b != j implies accs[b]
                    == prev[b] by {}
                assert(accs[j].0 == prev[j].0 && accs[j].1 == prev[j].1);
                assert forall|b: int| 0 <= b < accs.len() implies (#[trigger] accs[b]).2
                    == spec_dir_total(entries, accs[b].0, n) by {
                    if b == j {
                        assert(prev[j].2 == spec_dir_total(entries, k, n - 1));
                    } else {
                        assert(prev[b].2 == spec_dir_total(entries, prev[b].0, n - 1));
                        if b < j {
                            assert(prev[b].0 != prev[j].0);
                        } else {
                            assert(prev[j].0 != prev[b].0);
                        }
                        assert(accs[b].0 != k);
                    }
                }
                assert forall|key: Seq<char>|
                    (forall|b: int| 0 <= b < accs.len() ==> (#[trigger] accs[b]).0 != key)
                        implies #[trigger] spec_dir_total(entries, key, n) == 0 by {
                    assert(accs[j].0 == k);
                    assert(key != k);
                    assert forall|b: int|
                        0 <= b < prev.len() implies (#[trigger] prev[b]).0 != key by {
                        assert(accs[b].0 == prev[b].0);
                    }
                    assert(spec_dir_total(entries, key, n - 1) == 0);
                }
            } else {
                assert(accs =~= prev.push((k, d, e.size)));
                assert(spec_dir_total(entries, k, n - 1) == 0);
                assert forall|b: int| 0 <= b < accs.len() implies (#[trigger] accs[b]).2
                    == spec_dir_total(entries, accs[b].0, n) by {
                    if b < prev.len() {
                        assert(accs[b] == prev[b]);
                        assert(accs[b].0 != k);
                    } else {
                        assert(accs[b] == (k, d, e.size));
                        assert(spec_dir_total(entries, k, n) == crate::model::clamp_u64(
                            0 + e.size,
                        ));
                    }
                }
                assert forall|b1: int, b2: int| 0 <= b1 < b2 < accs.len() implies (
                #[trigger] accs[b1]).0 != (#[trigger] accs[b2]).0 by {
                    if b2 == prev.len() {
                        assert(accs[b1].0 == prev[b1].0);
                    } else {
                        assert(accs[b1] == prev[b1] && accs[b2] == prev[b2]);
                    }
                }
                assert forall|key: Seq<char>|
                    (forall|b: int| 0 <= b < accs.len() ==> (#[trigger] accs[b]).0 != key)
                        implies #[trigger] spec_dir_total(entries, key, n) == 0 by {
                    assert(accs[accs.len() - 1].0 == k);
                    assert(key != k);
                    assert forall|b: int|
                        0 <= b < prev.len() implies (#[trigger] prev[b]).0 != key by {
                        assert(accs[b].0 == prev[b].0);
                    }
                    assert(spec_dir_total(entries, key, n - 1) == 0);
                }
            }
        } else {
            assert(accs == prev);
            assert forall|key: Seq<char>| #![trigger spec_dir_total(entries, key, n)]
                true implies spec_dir_total(entries, key, n) == spec_dir_total(
                entries,
                key,
                n - 1,
            ) by {
                assert(!entry_credits(e, key));
            }
        }
    }
}

proof fn lemma_large_files_not_dir(
    entries: Seq<FsEntry>,
    min_size: u64,
    catalog: Seq<CategoryDef>,
    root_files: Seq<Seq<bool>>,
    now_ms: i64,
    n: int,
)
    ensures
        forall|j: int|
            0 <= j < crate::large::spec_large_files(
                entries,
                min_size,
                catalog,
                root_files,
                now_ms,
                n,
            ).len() ==> !(#[trigger] crate::large::spec_large_files(
                entries,
                min_size,
                catalog,
                root_files,
                now_ms,
                n,
            )[j]).3,
    decreases n,
{
    if n > 0 {
        lemma_large_files_not_dir(entries, min_size, catalog, root_files, now_ms, n - 1);
        let cur = crate::large::spec_large_files(entries, min_size, catalog, root_files, now_ms, n);
        let prev = crate::large::spec_large_files(
            entries,
            min_size,
            catalog,
            root_files,
            now_ms,
            n - 1,
        );
        assert forall|j: int| 0 <= j < cur.len() implies !(#[trigger] cur[j]).3 by {
            if j < prev.len() {
                assert(cur[j] == prev[j]);
            }
        }
    }
}

proof fn lemma_large_dirs_from_bucket(accs: Seq<(Seq<char>, Seq<char>, u64)>, min_size: u64, n: int)
    requires
        n <= accs.len(),
    ensures
        forall|j: int|
            0 <= j < crate::large::spec_large_dirs(accs, min_size, n).len() ==> exists|b: int|
                {
                    &&& 0 <= b < n
                    &&& (#[trigger] crate::large::spec_large_dirs(accs, min_size, n)[j]).0
                        == accs[b].1
                    &&& crate::large::spec_large_dirs(accs, min_size, n)[j].2 == accs[b].2
                },
    decreases n,
{
    if n > 0 {
        lemma_large_dirs_from_bucket(accs, min_size, n - 1);
        let cur = crate::large::spec_large_dirs(accs, min_size, n);
        let prev = crate::large::spec_large_dirs(accs, min_size, n - 1);
        assert forall|j: int| 0 <= j < cur.len() implies exists|b: int|
            {
                &&& 0 <= b < n
                &&& (#[trigger] cur[j]).0 == accs[b].1
                &&& cur[j].2 == accs[b].2
            } by {
            if j < prev.len() {
                assert(cur[j] == prev[j]);
                let b = choose|b: int|
                    0 <= b < n - 1 && prev[j].0 == accs[b].1 && prev[j].2 == accs[b].2;
                assert(0 <= b < n && cur[j].0 == accs[b].1 && cur[j].2 == accs[b].2);
            } else {
                assert(cur[j].0 == accs[n - 1].1 && cur[j].2 == accs[n - 1].2);
                assert(0 <= n - 1 < n && cur[j].0 == accs[n - 1].1 && cur[j].2 == accs[n
                    - 1].2);
            }
        }
    }
}

/// Observed sums: every directory-typed item of the sweep reports exactly
/// the saturating sum of the file sizes the scanner credited to that
/// directory.
pub proof fn lemma_dir_items_are_observed_sums(
    entries: Seq<FsEntry>,
    min_size: u64,
    catalog: Seq<CategoryDef>,
    root_files: Seq<Seq<bool>>,
    now_ms: i64,
)
    ensures
        forall|j: int|
            0 <= j < crate::large::spec_large_result(
                entries,
                min_size,
                catalog,
                root_files,
                now_ms,
            ).len() && (#[trigger] crate::large::spec_large_result(
                entries,
                min_size,
                catalog,
                root_files,
                now_ms,
            )[j]).3 ==> crate::large::spec_large_result(
                entries,
                min_size,
                catalog,
                root_files,
                now_ms,
            )[j].2 == spec_dir_total(
                entries,
                norm_of(
                    crate::large::spec_large_result(
                        entries,
                        min_size,
                        catalog,
                        root_files,
                        now_ms,
                    )[j].0,
                ),
                entries.len() as int,
            ),
{
    let nlen = entries.len() as int;
    let files = crate::large::spec_large_files(
        entries,
        min_size,
        catalog,
        root_files,
        now_ms,
        nlen,
    );
    let accs = crate::large::spec_dir_accs(entries, nlen);
    let dirs = crate::large::spec_large_dirs(accs, min_size, accs.len() as int);
    let all = files + dirs;
    let sorted = crate::large::spec_sort_by_size(all);
    lemma_dir_accs_sound(entries, nlen);
    lemma_large_files_not_dir(entries, min_size, catalog, root_files, now_ms, nlen);
    lemma_large_dirs_from_bucket(accs, min_size, accs.len() as int);
    lemma_sort_by_size_membership(all);
    assert forall|j: int| 0 <= j < sorted.len() && (#[trigger] sorted[j]).3 implies sorted[j].2
        == spec_dir_total(entries, norm_of(sorted[j].0), nlen) by {
        assert(all.contains(sorted[j]));
        let m = choose|m: int| 0 <= m < all.len() && all[m] == sorted[j];
        if m < files.len() {
            assert(all[m] == files[m]);
        } else {
            assert(all[m] == dirs[m - files.len()]);
            let b = choose|b: int|
                {
                    &&& 0 <= b < accs.len()
                    &&& dirs[m - files.len()].0 == accs[b].1
                    &&& dirs[m - files.len()].2 == accs[b].2
                };
            assert(accs[b].0 == norm_of(accs[b].1));
            assert(accs[b].2 == spec_dir_total(entries, accs[b].0, nlen));
        }
    }
}


/// Strict cutoff in included-path deletion: every planned attempt stems from
/// a probe that found a file whose modification time is strictly earlier
/// than the category's cutoff.
pub proof fn lemma_cutoff_strict_included(
    def: &CategoryDef,
    root_is_file: Seq<bool>,
    included: Seq<Seq<char>>,
    probes: Seq<PathProbe>,
    now_ms: i64,
    c: i64,
    n: int,
)
    requires
        cutoff_for(def.kind, now_ms) == Some(c),
    ensures
        forall|j: int|
            0 <= j < spec_included_attempts(def, root_is_file, included, probes, now_ms, n).len()
                ==> exists|i: int|
                #![trigger probes[i]]
                {
                    &&& 0 <= i < n
                    &&& probes[i] is FileFound
                    &&& (#[trigger] spec_included_attempts(
                        def,
                        root_is_file,
                        included,
                        probes,
                        now_ms,
                        n,
                    )[j]).0 == included[i]
                    &&& probes[i]->FileFound_modified is Some
                    &&& probes[i]->FileFound_modified->0 < c
                },
    decreases n,
{
    if n > 0 {
        lemma_cutoff_strict_included(def, root_is_file, included, probes, now_ms, c, n - 1);
        let cur = spec_included_attempts(def, root_is_file, included, probes, now_ms, n);
        let prev = spec_included_attempts(def, root_is_file, included, probes, now_ms, n - 1);
        assert forall|j: int| 0 <= j < cur.len() implies exists|i: int|
            #![trigger probes[i]]
            {
                &&& 0 <= i < n
                &&& probes[i] is FileFound
                &&& (#[trigger] cur[j]).0 == included[i]
                &&& probes[i]->FileFound_modified is Some
                &&& probes[i]->FileFound_modified->0 < c
            } by {
            if j < prev.len() {
                assert(cur[j] == prev[j]);
                let i = choose|i: int|
                    #![trigger probes[i]]
                    {
                        &&& 0 <= i < n - 1
                        &&& probes[i] is FileFound
                        &&& prev[j].0 == included[i]
                        &&& probes[i]->FileFound_modified is Some
                        &&& probes[i]->FileFound_modified->0 < c
                    };
                assert(0 <= i < n && probes[i] is FileFound && cur[j].0 == included[i]
                    && probes[i]->FileFound_modified is Some && probes[i]->FileFound_modified->0
                    < c);
            } else {
                assert(cur[j].0 == included[n - 1]);
                assert(0 <= n - 1 < n && probes[n - 1] is FileFound && cur[j].0 == included[n - 1]
                    && probes[n - 1]->FileFound_modified is Some
                    && probes[n - 1]->FileFound_modified->0 < c);
            }
        }
    }
}

} // verus!
