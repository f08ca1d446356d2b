//! The whole-volume large-item sweep and the ad-hoc path cleaner.

use vstd::prelude::*;
use crate::catalog::CategoryDef;
use crate::catalog::cutoff_for;
use crate::catalog::spec_within_roots;
use crate::clean::attempt_views;
use crate::clean::failure_views;
use crate::model::CleanupError;
use crate::model::DeleteAttempt;
use crate::model::FsEntry;
use crate::model::LargeItem;
use crate::model::PathProbe;
use crate::model::clamp_u64;
use crate::model::matches_cutoff;
use crate::model::spec_matches_cutoff;
use crate::paths::key_in;
use crate::paths::norm_of;
use crate::paths::normalize_path;
use crate::paths::spec_within_root;
use crate::scan::spec_scan_count;
use crate::scan::spec_scan_size;

verus! {

/// The id of the first category, in table order, whose roots contain the
/// path and whose time filter the file passes; nothing when none does.
pub open spec fn spec_match_category(
    catalog: Seq<CategoryDef>,
    root_files: Seq<Seq<bool>>,
    path: Seq<char>,
    modified: Option<i64>,
    now_ms: i64,
    i: int,
) -> Option<Seq<char>>
    decreases catalog.len() - i,
{
    if i < 0 || i >= catalog.len() {
        None
    } else if spec_within_roots(&catalog[i], root_files[i], path) && spec_matches_cutoff(
        modified,
        cutoff_for(catalog[i].kind, now_ms),
    ) {
        Some(catalog[i].id@)
    } else {
        spec_match_category(catalog, root_files, path, modified, now_ms, i + 1)
    }
}

/// Annotates a path with the first category whose roots contain it and whose
/// time filter its modification time passes.
#[verifier::loop_isolation(false)]
pub fn match_category_id(
    path: &String,
    modified: &Option<i64>,
    catalog: &Vec<CategoryDef>,
    root_files: &Vec<Vec<bool>>,
    now_ms: i64,
) -> (r: Option<String>)
    requires
        root_files@.len() == catalog@.len(),
        forall|i: int|
            0 <= i < catalog@.len() ==> root_files@[i]@.len() == catalog@[i].roots@.len(),
    ensures
        match r {
            Some(id) => spec_match_category(
                catalog@,
                root_files@.map_values(|v: Vec<bool>| v@),
                path@,
                *modified,
                now_ms,
                0,
            ) == Some(id@),
            None => spec_match_category(
                catalog@,
                root_files@.map_values(|v: Vec<bool>| v@),
                path@,
                *modified,
                now_ms,
                0,
            ) is None,
        },
{
    let ghost rfv = root_files@.map_values(|v: Vec<bool>| v@);
    let n = catalog.len();
    let mut i: usize = 0;
    while i < n
        invariant
            i <= n,
            rfv == root_files@.map_values(|v: Vec<bool>| v@),
            spec_match_category(catalog@, rfv, path@, *modified, now_ms, 0)
                == spec_match_category(catalog@, rfv, path@, *modified, now_ms, i as int),
        decreases n - i,
    {
        let def = &catalog[i];
        let cutoff = crate::catalog::cutoff_time(&def.kind, now_ms);
        proof {
            assert(rfv[i as int] == root_files@[i as int]@);
        }
        if crate::catalog::is_within_roots(def, &root_files[i], path) && matches_cutoff(
            modified,
            &cutoff,
        ) {
            return Some(def.id.clone());
        }
        i = i + 1;
    }
    None
}

/// Sums size and file count over an observed walk of a directory, saturating
/// at the largest representable value.
#[verifier::loop_isolation(false)]
pub fn dir_metrics(entries: &Vec<FsEntry>) -> (r: (u64, u64))
    ensures
        r.0 == clamp_u64(spec_scan_size(entries@, None)),
        r.1 == clamp_u64(spec_scan_count(entries@, None)),
{
    let n = entries.len();
    let mut size: u64 = 0;
    let mut count: u64 = 0;
    let mut i: usize = 0;
    proof {
        assert(entries@.take(0) =~= Seq::<FsEntry>::empty());
    }
    while i < n
        invariant
            i <= n,
            size == clamp_u64(spec_scan_size(entries@.take(i as int), None)),
            count == clamp_u64(spec_scan_count(entries@.take(i as int), None)),
        decreases n - i,
    {
        proof {
            assert(entries@.take(i + 1).drop_last() =~= entries@.take(i as int));
            crate::scan::lemma_scan_sums_nonneg(entries@.take(i as int), None);
        }
        let e = &entries[i];
        if !e.is_dir {
            size = size.saturating_add(e.size);
            count = count.saturating_add(1);
        }
        i = i + 1;
    }
    proof {
        assert(entries@.take(n as int) =~= entries@);
    }
    (size, count)
}

/// The effective limit and minimum size of a large-item sweep: the limit
/// defaults to 200 and is capped at 1000; the minimum size defaults to
/// 1024 MiB and is converted to bytes, saturating.
pub fn large_scan_params(limit: Option<u32>, min_size_mb: Option<u64>) -> (r: (usize, u64))
    ensures
        ({
            let l = match limit {
                Some(v) => v,
                None => 200u32,
            };
            r.0 == if l > 1000 {
                1000int
            } else {
                l as int
            }
        }),
        ({
            let mb = match min_size_mb {
                Some(v) => v,
                None => 1024u64,
            };
            r.1 == clamp_u64(mb * 1_048_576)
        }),
{
    let l = match limit {
        Some(v) => v,
        None => 200,
    };
    let l = if l > 1000 {
        1000
    } else {
        l
    };
    let mb = match min_size_mb {
        Some(v) => v,
        None => 1024,
    };
    let step = mb.saturating_mul(1024);
    let bytes = step.saturating_mul(1024);
    proof {
        let m = mb as int;
        assert(m * 1024 * 1024 == m * 1_048_576) by (nonlinear_arith);
        if m * 1024 > u64::MAX {
            assert(m * 1_048_576 >= m * 1024) by (nonlinear_arith)
                requires
                    m >= 0,
            ;
        }
    }
    (l as usize, bytes)
}

/// The effective limit of a category listing: defaults to 200 and is capped
/// at 2000.
pub fn list_limit(limit: Option<u32>) -> (r: usize)
    ensures
        ({
            let l = match limit {
                Some(v) => v,
                None => 200u32,
            };
            r == if l > 2000 {
                2000int
            } else {
                l as int
            }
        }),
{
    let l = match limit {
        Some(v) => v,
        None => 200,
    };
    let l = if l > 2000 {
        2000
    } else {
        l
    };
    l as usize
}

/// The attempts of an ad-hoc path clean, over the first `n` paths: each
/// fresh, in-scope, non-root path whose probe succeeded, crediting a file's
/// size or a directory's measured totals.
pub open spec fn spec_large_attempts(
    root: Seq<char>,
    root_is_file: bool,
    paths: Seq<Seq<char>>,
    probes: Seq<PathProbe>,
    n: int,
) -> Seq<(Seq<char>, u64, u64)>
    decreases n,
{
    if n <= 0 {
        Seq::empty()
    } else {
        let prev = spec_large_attempts(root, root_is_file, paths, probes, n - 1);
        let i = n - 1;
        if key_in(paths.take(i), paths[i]) || !spec_within_root(root, root_is_file, paths[i])
            || norm_of(paths[i]) == norm_of(root) {
            prev
        } else {
            match probes[i] {
                PathProbe::FileFound { size, modified } => prev.push((paths[i], size, 1u64)),
                PathProbe::DirFound { total_bytes, total_files } => prev.push(
                    (paths[i], total_bytes, total_files),
                ),
                PathProbe::Failed(_) => prev,
            }
        }
    }
}

/// The planning failures of an ad-hoc path clean, over the first `n` paths:
/// out-of-scope paths, the volume root itself, and unreadable paths, with
/// their messages, in path order.
pub open spec fn spec_large_failures(
    root: Seq<char>,
    root_is_file: bool,
    paths: Seq<Seq<char>>,
    probes: Seq<PathProbe>,
    n: int,
) -> Seq<(Seq<char>, Seq<char>)>
    decreases n,
{
    if n <= 0 {
        Seq::empty()
    } else {
        let prev = spec_large_failures(root, root_is_file, paths, probes, n - 1);
        let i = n - 1;
        if key_in(paths.take(i), paths[i]) {
            prev
        } else if !spec_within_root(root, root_is_file, paths[i]) {
            prev.push((paths[i], "Path is outside scan scope."@))
        } else if norm_of(paths[i]) == norm_of(root) {
            prev.push((paths[i], "Refusing to delete drive root."@))
        } else {
            match probes[i] {
                PathProbe::Failed(m) => prev.push((paths[i], m@)),
                _ => prev,
            }
        }
    }
}

/// Plans the deletion of an explicit list of user-confirmed paths:
/// duplicates (by comparison key) are processed once, anything outside the
/// volume root fails, the volume root itself is refused, and unreadable
/// paths fail with the underlying message. No time filter applies.
#[verifier::loop_isolation(false)]
pub fn clean_large_items_plan(
    root: &String,
    root_is_file: bool,
    paths: &Vec<String>,
    probes: &Vec<PathProbe>,
) -> (r: (Vec<DeleteAttempt>, Vec<CleanupError>))
    requires
        probes@.len() == paths@.len(),
    ensures
        attempt_views(r.0@) == spec_large_attempts(
            root@,
            root_is_file,
            paths.deep_view(),
            probes@,
            paths@.len() as int,
        ),
        failure_views(r.1@) == spec_large_failures(
            root@,
            root_is_file,
            paths.deep_view(),
            probes@,
            paths@.len() as int,
        ),
{
    let ghost pdv = paths.deep_view();
    let n = paths.len();
    let mut attempts: Vec<DeleteAttempt> = Vec::new();
    let mut failures: Vec<CleanupError> = Vec::new();
    let mut seen: Vec<String> = Vec::new();
    let mut i: usize = 0;
    while i < n
        invariant
            i <= n,
            pdv == paths.deep_view(),
            probes@.len() == n,
            seen.deep_view() =~= pdv.take(i as int).map_values(|p: Seq<char>| norm_of(p)),
            attempt_views(attempts@) =~= spec_large_attempts(
                root@,
                root_is_file,
                pdv,
                probes@,
                i as int,
            ),
            failure_views(failures@) =~= spec_large_failures(
                root@,
                root_is_file,
                pdv,
                probes@,
                i as int,
            ),
        decreases n - i,
    {
        let key = normalize_path(&paths[i]);
        let dup = crate::paths::contains_string(&seen, &key);
        proof {
            let t = pdv.take(i as int);
            if dup {
                let j = choose|j: int|
                    0 <= j < seen.deep_view().len() && seen.deep_view()[j] == key@;
                assert(norm_of(t[j]) == norm_of(pdv[i as int]));
                assert(key_in(t, pdv[i as int]));
            } else {
                if key_in(t, pdv[i as int]) {
                    let j = choose|j: int| 0 <= j < t.len() && norm_of(t[j]) == norm_of(
                        pdv[i as int],
                    );
                    assert(seen.deep_view()[j] == key@);
                    assert(seen.deep_view().contains(key@));
                }
                assert(!key_in(t, pdv[i as int]));
            }
        }
        let ghost seendv = seen.deep_view();
        let ghost key_view = key@;
        seen.push(key);
        proof {
            assert(seen.deep_view() =~= seendv.push(key_view));
            assert(pdv.take(i + 1) =~= pdv.take(i as int).push(pdv[i as int]));
            assert(seen.deep_view() =~= pdv.take(i + 1).map_values(|p: Seq<char>| norm_of(p)));
        }
        if !dup {
            if !crate::paths::is_within_root(root, root_is_file, &paths[i]) {
                let ghost fdv = failures@;
                failures.push(
                    CleanupError {
                        path: paths[i].clone(),
                        message: String::from_str("Path is outside scan scope."),
                    },
                );
                proof {
                    assert(failures@ =~= fdv.push(failures@.last()));
                    assert(failure_views(failures@) =~= failure_views(fdv).push(
                        (pdv[i as int], "Path is outside scan scope."@),
                    ));
                }
            } else if crate::paths::path_eq_ignore_case(&paths[i], root) {
                let ghost fdv = failures@;
                failures.push(
                    CleanupError {
                        path: paths[i].clone(),
                        message: String::from_str("Refusing to delete drive root."),
                    },
                );
                proof {
                    assert(failures@ =~= fdv.push(failures@.last()));
                    assert(failure_views(failures@) =~= failure_views(fdv).push(
                        (pdv[i as int], "Refusing to delete drive root."@),
                    ));
                }
            } else {
                match &probes[i] {
                    PathProbe::Failed(m) => {
                        let ghost fdv = failures@;
                        failures.push(
                            CleanupError { path: paths[i].clone(), message: m.clone() },
                        );
                        proof {
                            assert(failures@ =~= fdv.push(failures@.last()));
                            assert(failure_views(failures@) =~= failure_views(fdv).push(
                                (pdv[i as int], m@),
                            ));
                        }
                    },
                    PathProbe::FileFound { size, modified } => {
                        let ghost adv = attempts@;
                        attempts.push(
                            DeleteAttempt { path: paths[i].clone(), bytes: *size, files: 1 },
                        );
                        proof {
                            assert(attempts@ =~= adv.push(attempts@.last()));
                            assert(attempt_views(attempts@) =~= attempt_views(adv).push(
                                (pdv[i as int], *size, 1u64),
                            ));
                        }
                    },
                    PathProbe::DirFound { total_bytes, total_files } => {
                        let ghost adv = attempts@;
                        attempts.push(
                            DeleteAttempt {
                                path: paths[i].clone(),
                                bytes: *total_bytes,
                                files: *total_files,
                            },
                        );
                        proof {
                            assert(attempts@ =~= adv.push(attempts@.last()));
                            assert(attempt_views(attempts@) =~= attempt_views(adv).push(
                                (pdv[i as int], *total_bytes, *total_files),
                            ));
                        }
                    },
                }
            }
        }
        i = i + 1;
    }
    proof {
        assert(pdv.take(n as int) =~= pdv);
    }
    (attempts, failures)
}


/// The view of one large item: path, display name, size, directory flag,
/// suspicious flag, category back-reference.
pub type LargeItemView = (Seq<char>, Seq<char>, u64, bool, bool, Option<Seq<char>>);

/// The view of one large item.
pub open spec fn li_view(it: LargeItem) -> LargeItemView {
    (
        it.path@,
        it.name@,
        it.size_bytes,
        it.is_dir,
        it.suspicious,
        match it.category_id {
            Some(c) => Some(c@),
            None => None,
        },
    )
}

/// The views of a list of large items.
pub open spec fn item_views(s: Seq<LargeItem>) -> Seq<LargeItemView> {
    s.map_values(|it: LargeItem| li_view(it))
}

/// An item inserted into a size-descending list: it goes after every item of
/// equal or greater size.
pub open spec fn spec_insert_by_size(sorted: Seq<LargeItemView>, x: LargeItemView) -> Seq<
    LargeItemView,
>
    decreases sorted.len(),
{
    if sorted.len() == 0 {
        seq![x]
    } else if sorted.last().2 >= x.2 {
        sorted.push(x)
    } else {
        spec_insert_by_size(sorted.drop_last(), x).push(sorted.last())
    }
}

/// The items reordered by size, largest first; items of equal size keep
/// their relative order.
pub open spec fn spec_sort_by_size(s: Seq<LargeItemView>) -> Seq<LargeItemView>
    decreases s.len(),
{
    if s.len() == 0 {
        s
    } else {
        spec_insert_by_size(spec_sort_by_size(s.drop_last()), s.last())
    }
}

proof fn lemma_insert_by_size_at(sorted: Seq<LargeItemView>, x: LargeItemView, p: int)
    requires
        0 <= p <= sorted.len(),
        forall|j: int| p <= j < sorted.len() ==> (#[trigger] sorted[j]).2 < x.2,
        p > 0 ==> sorted[p - 1].2 >= x.2,
    ensures
        spec_insert_by_size(sorted, x) == sorted.take(p).push(x) + sorted.skip(p),
    decreases sorted.len(),
{
    if sorted.len() == 0 {
        assert(spec_insert_by_size(sorted, x) =~= sorted.take(p).push(x) + sorted.skip(p));
    } else if sorted.last().2 >= x.2 {
        assert(p == sorted.len());
        assert(sorted.take(p) =~= sorted);
        assert(spec_insert_by_size(sorted, x) =~= sorted.take(p).push(x) + sorted.skip(p));
    } else {
        assert(p < sorted.len());
        lemma_insert_by_size_at(sorted.drop_last(), x, p);
        assert(sorted.drop_last().take(p) =~= sorted.take(p));
        assert(spec_insert_by_size(sorted, x) =~= sorted.take(p).push(x) + sorted.skip(p));
    }
}

/// Reorders items by size, largest first, keeping the relative order of
/// items of equal size.
#[verifier::loop_isolation(false)]
fn sort_items_by_size(items: Vec<LargeItem>) -> (r: Vec<LargeItem>)
    ensures
        item_views(r@) == spec_sort_by_size(item_views(items@)),
{
    let ghost idv = item_views(items@);
    let n = items.len();
    let mut out: Vec<LargeItem> = Vec::new();
    let mut i: usize = 0;
    while i < n
        invariant
            i <= n,
            idv == item_views(items@),
            item_views(out@) == spec_sort_by_size(idv.take(i as int)),
        decreases n - i,
    {
        let ghost odv = item_views(out@);
        let x = clone_item(&items[i]);
        let sx = x.size_bytes;
        let mut p: usize = out.len();
        while p > 0 && out[p - 1].size_bytes < sx
            invariant
                p <= out@.len(),
                forall|j: int|
                    p <= j < item_views(out@).len() ==> (#[trigger] item_views(out@)[j]).2
                        < sx,
            decreases p,
        {
            proof {
                assert(item_views(out@)[p - 1].2 == out@[p - 1].size_bytes);
            }
            p = p - 1;
        }
        proof {
            assert(p > 0 ==> item_views(out@)[p - 1].2 == out@[p - 1].size_bytes);
            assert(li_view(x) == idv[i as int]);
            lemma_insert_by_size_at(odv, li_view(x), p as int);
        }
        out.insert(p, x);
        proof {
            assert(item_views(out@) =~= odv.take(p as int).push(idv[i as int]) + odv.skip(
                p as int,
            ));
            assert(idv.take(i + 1).drop_last() =~= idv.take(i as int));
            assert(idv.take(i + 1).last() == idv[i as int]);
        }
        i = i + 1;
    }
    proof {
        assert(idv.take(n as int) =~= idv);
    }
    out
}

fn clone_item(it: &LargeItem) -> (r: LargeItem)
    ensures
        li_view(*it) == li_view(r),
{
    LargeItem {
        path: it.path.clone(),
        name: it.name.clone(),
        size_bytes: it.size_bytes,
        is_dir: it.is_dir,
        suspicious: it.suspicious,
        category_id: match &it.category_id {
            Some(c) => Some(c.clone()),
            None => None,
        },
    }
}

/// The large files among the first `n` walked entries: every file at or
/// above the threshold, flagged suspicious when its name or full path
/// contains a keyword, and annotated with the first matching category.
pub open spec fn spec_large_files(
    entries: Seq<FsEntry>,
    min_size: u64,
    catalog: Seq<CategoryDef>,
    root_files: Seq<Seq<bool>>,
    now_ms: i64,
    n: int,
) -> Seq<LargeItemView>
    decreases n,
{
    if n <= 0 {
        Seq::empty()
    } else {
        let prev = spec_large_files(entries, min_size, catalog, root_files, now_ms, n - 1);
        let e = entries[n - 1];
        if !e.is_dir && e.size >= min_size {
            prev.push(
                (
                    e.path@,
                    crate::paths::spec_file_name(e.path@),
                    e.size,
                    false,
                    crate::paths::spec_contains_keyword(
                        crate::paths::spec_file_name(e.path@),
                        crate::paths::spec_suspicious_keywords(),
                    ) || crate::paths::spec_contains_keyword(
                        e.path@,
                        crate::paths::spec_suspicious_keywords(),
                    ),
                    spec_match_category(catalog, root_files, e.path@, e.modified, now_ms, 0),
                ),
            )
        } else {
            prev
        }
    }
}

/// One accumulation bucket of the suspicious-directory pass: comparison key,
/// the directory path as first discovered, and the running byte total.
pub struct DirAcc {
    pub key: String,
    pub path: String,
    pub total: u64,
}

/// The view of one accumulation bucket.
pub open spec fn acc_view(a: DirAcc) -> (Seq<char>, Seq<char>, u64) {
    (a.key@, a.path@, a.total)
}

/// The views of the accumulation buckets.
pub open spec fn acc_views(s: Seq<DirAcc>) -> Seq<(Seq<char>, Seq<char>, u64)> {
    s.map_values(|a: DirAcc| acc_view(a))
}

/// The index of the bucket with the given key, or -1 when none has it.
pub open spec fn spec_acc_index(accs: Seq<(Seq<char>, Seq<char>, u64)>, key: Seq<char>) -> int
    decreases accs.len(),
{
    if accs.len() == 0 {
        -1
    } else if accs[0].0 == key {
        0
    } else {
        let r = spec_acc_index(accs.drop_first(), key);
        if r < 0 {
            -1
        } else {
            r + 1
        }
    }
}

/// The index returned by the bucket lookup is in range, carries the key
/// when found, and is negative exactly when no bucket carries it.
pub proof fn lemma_acc_index_props(accs: Seq<(Seq<char>, Seq<char>, u64)>, key: Seq<char>)
    ensures
        -1 <= spec_acc_index(accs, key) < accs.len(),
        spec_acc_index(accs, key) >= 0 ==> accs[spec_acc_index(accs, key)].0 == key,
        spec_acc_index(accs, key) < 0 ==> forall|m: int|
            0 <= m < accs.len() ==> (#[trigger] accs[m]).0 != key,
    decreases accs.len(),
{
    if accs.len() > 0 && accs[0].0 != key {
        lemma_acc_index_props(accs.drop_first(), key);
        if spec_acc_index(accs, key) < 0 {
            assert forall|m: int| 0 <= m < accs.len() implies (#[trigger] accs[m]).0 != key by {
                if m > 0 {
                    assert(accs.drop_first()[m - 1] == accs[m]);
                }
            }
        }
    }
}

proof fn lemma_acc_index_found(accs: Seq<(Seq<char>, Seq<char>, u64)>, key: Seq<char>, j: int)
    requires
        0 <= j < accs.len(),
        accs[j].0 == key,
        forall|m: int| 0 <= m < j ==> (#[trigger] accs[m]).0 != key,
    ensures
        spec_acc_index(accs, key) == j,
    decreases j,
{
    if j > 0 {
        lemma_acc_index_found(accs.drop_first(), key, j - 1);
    }
}

proof fn lemma_acc_index_missing(accs: Seq<(Seq<char>, Seq<char>, u64)>, key: Seq<char>)
    requires
        forall|m: int| 0 <= m < accs.len() ==> (#[trigger] accs[m]).0 != key,
    ensures
        spec_acc_index(accs, key) == -1,
    decreases accs.len(),
{
    if accs.len() > 0 {
        lemma_acc_index_missing(accs.drop_first(), key);
    }
}

/// One file's size added to the bucket of its suspicious ancestor: an
/// existing bucket accumulates (saturating), a fresh key opens a bucket
/// holding the directory path as first discovered.
pub open spec fn spec_accumulate(
    accs: Seq<(Seq<char>, Seq<char>, u64)>,
    dir: Seq<char>,
    size: u64,
) -> Seq<(Seq<char>, Seq<char>, u64)> {
    let key = norm_of(dir);
    let j = spec_acc_index(accs, key);
    if j >= 0 {
        accs.update(j, (accs[j].0, accs[j].1, clamp_u64(accs[j].2 + size)))
    } else {
        accs.push((key, dir, size))
    }
}

/// The suspicious-directory buckets after the first `n` walked entries:
/// every file's size is credited to its nearest keyword-named ancestor
/// directory, keyed by comparison key.
pub open spec fn spec_dir_accs(entries: Seq<FsEntry>, n: int) -> Seq<(Seq<char>, Seq<char>, u64)>
    decreases n,
{
    if n <= 0 {
        Seq::empty()
    } else {
        let prev = spec_dir_accs(entries, n - 1);
        let e = entries[n - 1];
        if e.is_dir {
            prev
        } else {
            match crate::paths::spec_parent(e.path@) {
                Some(par) => match crate::paths::spec_find_suspicious_dir(
                    par,
                    crate::paths::spec_suspicious_keywords(),
                ) {
                    Some(d) => spec_accumulate(prev, d, e.size),
                    None => prev,
                },
                None => prev,
            }
        }
    }
}

/// The directory-typed large items: every bucket at or above the threshold,
/// named by its final component (or the whole path when that is empty).
pub open spec fn spec_large_dirs(
    accs: Seq<(Seq<char>, Seq<char>, u64)>,
    min_size: u64,
    n: int,
) -> Seq<LargeItemView>
    decreases n,
{
    if n <= 0 {
        Seq::empty()
    } else {
        let prev = spec_large_dirs(accs, min_size, n - 1);
        let a = accs[n - 1];
        if a.2 >= min_size {
            let name = if crate::paths::spec_file_name(a.1).len() == 0 {
                a.1
            } else {
                crate::paths::spec_file_name(a.1)
            };
            prev.push((a.1, name, a.2, true, true, None))
        } else {
            prev
        }
    }
}

/// The full result of a large-item sweep, before truncation: large files
/// and suspicious directories together, sorted by size descending.
pub open spec fn spec_large_result(
    entries: Seq<FsEntry>,
    min_size: u64,
    catalog: Seq<CategoryDef>,
    root_files: Seq<Seq<bool>>,
    now_ms: i64,
) -> Seq<LargeItemView> {
    let files = spec_large_files(
        entries,
        min_size,
        catalog,
        root_files,
        now_ms,
        entries.len() as int,
    );
    let accs = spec_dir_accs(entries, entries.len() as int);
    let dirs = spec_large_dirs(accs, min_size, accs.len() as int);
    spec_sort_by_size(files + dirs)
}

/// Sweeps an observed whole-volume walk: collects files at or above the
/// threshold (flagged and category-annotated), accumulates per suspicious
/// ancestor directory, emits directories whose accumulated total meets the
/// threshold, sorts everything by size descending and truncates to `limit`.
#[verifier::loop_isolation(false)]
pub fn scan_large_items_sync(
    limit: usize,
    min_size_bytes: u64,
    entries: &Vec<FsEntry>,
    catalog: &Vec<CategoryDef>,
    root_files: &Vec<Vec<bool>>,
    now_ms: i64,
) -> (r: Vec<LargeItem>)
    requires
        root_files@.len() == catalog@.len(),
        forall|i: int|
            0 <= i < catalog@.len() ==> root_files@[i]@.len() == catalog@[i].roots@.len(),
    ensures
        ({
            let sorted = spec_large_result(
                entries@,
                min_size_bytes,
                catalog@,
                root_files@.map_values(|v: Vec<bool>| v@),
                now_ms,
            );
            item_views(r@) == sorted.take(vstd::math::min(limit as int, sorted.len() as int))
        }),
{
    let ghost rfv = root_files@.map_values(|v: Vec<bool>| v@);
    let keywords = crate::paths::suspicious_keywords();
    let n = entries.len();

    let mut files: Vec<LargeItem> = Vec::new();
    let mut i: usize = 0;
    while i < n
        invariant
            i <= n,
            rfv == root_files@.map_values(|v: Vec<bool>| v@),
            rfv.len() == catalog@.len(),
            forall|k: int| 0 <= k < catalog@.len() ==> rfv[k].len() == catalog@[k].roots@.len(),
            keywords.deep_view() == crate::paths::spec_suspicious_keywords(),
            item_views(files@) =~= spec_large_files(
                entries@,
                min_size_bytes,
                catalog@,
                rfv,
                now_ms,
                i as int,
            ),
        decreases n - i,
    {
        let e = &entries[i];
        if !e.is_dir && e.size >= min_size_bytes {
            let name = crate::paths::file_name_of(&e.path);
            let suspicious = crate::paths::contains_keyword(name.as_str(), &keywords)
                || crate::paths::contains_keyword(e.path.as_str(), &keywords);
            let category_id = match_category_id(&e.path, &e.modified, catalog, root_files, now_ms);
            let ghost fdv = item_views(files@);
            files.push(
                LargeItem {
                    path: e.path.clone(),
                    name,
                    size_bytes: e.size,
                    is_dir: false,
                    suspicious,
                    category_id,
                },
            );
            proof {
                assert(item_views(files@) =~= fdv.push(li_view(files@.last())));
            }
        }
        i = i + 1;
    }

    let mut accs: Vec<DirAcc> = Vec::new();
    let mut i2: usize = 0;
    while i2 < n
        invariant
            i2 <= n,
            keywords.deep_view() == crate::paths::spec_suspicious_keywords(),
            acc_views(accs@) =~= spec_dir_accs(entries@, i2 as int),
        decreases n - i2,
    {
        let e = &entries[i2];
        if !e.is_dir {
            match crate::paths::parent_of(&e.path) {
                Some(par) => {
                    match crate::paths::find_suspicious_dir(&par, &keywords) {
                        Some(d) => {
                            let key = crate::paths::normalize_path(&d);
                            let ghost adv = acc_views(accs@);
                            let ghost keyv = key@;
                            let na = accs.len();
                            let mut j: usize = 0;
                            let mut found = false;
                            while j < na && !found
                                invariant
                                    j <= na,
                                    na == accs@.len(),
                                    adv == acc_views(accs@),
                                    keyv == key@,
                                    !found ==> forall|m: int|
                                        0 <= m < j ==> (#[trigger] adv[m]).0 != keyv,
                                    found ==> j < na && adv[j as int].0 == keyv && forall|
                                        m: int,
                                    |
                                        0 <= m < j ==> (#[trigger] adv[m]).0 != keyv,
                                decreases na - j + (if found { 0int } else { 1int }),
                            {
                                proof {
                                    assert(adv[j as int].0 == accs@[j as int].key@);
                                }
                                if accs[j].key.eq(&key) {
                                    found = true;
                                } else {
                                    j = j + 1;
                                }
                            }
                            if found {
                                proof {
                                    lemma_acc_index_found(adv, keyv, j as int);
                                }
                                let old_acc = accs.remove(j);
                                let new_total = old_acc.total.saturating_add(e.size);
                                accs.insert(
                                    j,
                                    DirAcc {
                                        key: old_acc.key,
                                        path: old_acc.path,
                                        total: new_total,
                                    },
                                );
                                proof {
                                    assert(acc_views(accs@) =~= adv.update(
                                        j as int,
                                        (adv[j as int].0, adv[j as int].1, clamp_u64(
                                            adv[j as int].2 + entries@[i2 as int].size,
                                        )),
                                    ));
                                    assert(acc_views(accs@) =~= spec_accumulate(
                                        spec_dir_accs(entries@, i2 as int),
                                        d@,
                                        entries@[i2 as int].size,
                                    ));
                                }
                            } else {
                                proof {
                                    lemma_acc_index_missing(adv, keyv);
                                }
                                accs.push(DirAcc { key, path: d, total: e.size });
                                proof {
                                    assert(acc_views(accs@) =~= adv.push(
                                        acc_view(accs@.last()),
                                    ));
                                }
                            }
                        },
                        None => {},
                    }
                },
                None => {},
            }
        }
        i2 = i2 + 1;
    }

    let ghost accv = acc_views(accs@);
    let na2 = accs.len();
    let mut dirs: Vec<LargeItem> = Vec::new();
    let mut k: usize = 0;
    while k < na2
        invariant
            k <= na2,
            na2 == accs@.len(),
            accv == acc_views(accs@),
            item_views(dirs@) =~= spec_large_dirs(accv, min_size_bytes, k as int),
        decreases na2 - k,
    {
        let a = &accs[k];
        if a.total >= min_size_bytes {
            let fname = crate::paths::file_name_of(&a.path);
            let name = if fname.as_str().unicode_len() == 0 {
                a.path.clone()
            } else {
                fname
            };
            let ghost ddv = item_views(dirs@);
            dirs.push(
                LargeItem {
                    path: a.path.clone(),
                    name,
                    size_bytes: a.total,
                    is_dir: true,
                    suspicious: true,
                    category_id: None,
                },
            );
            proof {
                assert(item_views(dirs@) =~= ddv.push(li_view(dirs@.last())));
            }
        }
        k = k + 1;
    }

    let mut items = files;
    let ghost fv = item_views(items@);
    let ghost dv = item_views(dirs@);
    let mut dirs_in = dirs;
    items.append(&mut dirs_in);
    proof {
        assert(item_views(items@) =~= fv + dv);
    }
    let mut sorted = sort_items_by_size(items);
    if sorted.len() > limit {
        let ghost sv = item_views(sorted@);
        sorted.truncate(limit);
        proof {
            assert(item_views(sorted@) =~= sv.take(limit as int));
        }
    }
    proof {
        let final_spec = spec_large_result(entries@, min_size_bytes, catalog@, rfv, now_ms);
        assert(item_views(sorted@) =~= final_spec.take(
            vstd::math::min(limit as int, final_spec.len() as int),
        ));
    }
    sorted
}

} // verus!
