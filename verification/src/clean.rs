//! The clean engine: strategy selection, deletion planning and accounting.
//!
//! Planning is pure: from the category table, the caller's request and the
//! observed filesystem state it computes exactly which paths may be removed.
//! The caller attempts the removals and hands the outcomes back; accounting
//! credits only what succeeded and records every failed path once.

use vstd::prelude::*;
use crate::catalog::CategoryDef;
use crate::catalog::cutoff_for;
use crate::catalog::cutoff_time;
use crate::catalog::spec_within_roots;
use crate::model::CategoryStats;
use crate::model::CleanupError;
use crate::model::CleanupResult;
use crate::model::DeleteAttempt;
use crate::model::FsEntry;
use crate::model::PathProbe;
use crate::model::RecycleBinStats;
use crate::model::clamp_u64;
use crate::model::matches_cutoff;
use crate::model::spec_matches_cutoff;
use crate::paths::contains_string;
use crate::paths::key_in;
use crate::paths::norm_of;
use crate::paths::normalize_path;
use crate::paths::normalize_exclusions;

verus! {

/// A per-category path list of a clean request.
pub struct PathsByCategory {
    pub id: String,
    pub paths: Vec<String>,
}

/// A per-category previously-computed total of a clean request.
pub struct StatsByCategory {
    pub id: String,
    pub stats: CategoryStats,
}

/// The caller's intent for one clean operation.
pub struct CleanRequest {
    /// Categories to clean under their default time-window semantics.
    pub ids: Vec<String>,
    /// Per category, paths to skip even if otherwise eligible.
    pub excluded_paths: Vec<PathsByCategory>,
    /// Per category, an explicit path list that overrides normal selection.
    pub included_paths: Vec<PathsByCategory>,
    /// Per category, previously computed totals for fast-clear reporting.
    pub category_stats: Vec<StatsByCategory>,
}

/// The path list registered for an id, or the empty list when none is.
pub open spec fn spec_lookup(m: Seq<PathsByCategory>, id: Seq<char>) -> Seq<Seq<char>>
    decreases m.len(),
{
    if m.len() == 0 {
        Seq::empty()
    } else if m[0].id@ == id {
        m[0].paths.deep_view()
    } else {
        spec_lookup(m.drop_first(), id)
    }
}

/// The stats registered for an id, when any are.
pub open spec fn spec_lookup_stats(m: Seq<StatsByCategory>, id: Seq<char>) -> Option<CategoryStats>
    decreases m.len(),
{
    if m.len() == 0 {
        None
    } else if m[0].id@ == id {
        Some(m[0].stats)
    } else {
        spec_lookup_stats(m.drop_first(), id)
    }
}

/// The first path list registered for `id`, or nothing.
#[verifier::loop_isolation(false)]
pub fn lookup_paths<'a>(m: &'a Vec<PathsByCategory>, id: &String) -> (r: Option<&'a Vec<String>>)
    ensures
        match r {
            Some(paths) => paths.deep_view() == spec_lookup(m@, id@),
            None => spec_lookup(m@, id@) == Seq::<Seq<char>>::empty(),
        },
{
    let n = m.len();
    let mut i: usize = 0;
    proof {
        assert(m@.skip(0) =~= m@);
    }
    while i < n
        invariant
            i <= n,
            spec_lookup(m@, id@) == spec_lookup(m@.skip(i as int), id@),
        decreases n - i,
    {
        proof {
            assert(m@.skip(i as int)[0] == m@[i as int]);
            assert(m@.skip(i as int).drop_first() =~= m@.skip(i + 1));
        }
        if m[i].id.eq(id) {
            return Some(&m[i].paths);
        }
        i = i + 1;
    }
    None
}

/// The first stats entry registered for `id`, or nothing.
#[verifier::loop_isolation(false)]
pub fn lookup_stats<'a>(m: &'a Vec<StatsByCategory>, id: &String) -> (r: Option<
    &'a CategoryStats,
>)
    ensures
        match r {
            Some(stats) => spec_lookup_stats(m@, id@) == Some(*stats),
            None => spec_lookup_stats(m@, id@) is None,
        },
{
    let n = m.len();
    let mut i: usize = 0;
    proof {
        assert(m@.skip(0) =~= m@);
    }
    while i < n
        invariant
            i <= n,
            spec_lookup_stats(m@, id@) == spec_lookup_stats(m@.skip(i as int), id@),
        decreases n - i,
    {
        proof {
            assert(m@.skip(i as int)[0] == m@[i as int]);
            assert(m@.skip(i as int).drop_first() =~= m@.skip(i + 1));
        }
        if m[i].id.eq(id) {
            return Some(&m[i].stats);
        }
        i = i + 1;
    }
    None
}

/// A category is bytewise safe to remove wholesale: one of the two cache
/// categories, and flagged for directory cleanup.
pub open spec fn spec_should_fast_clear(def: &CategoryDef) -> bool {
    (def.id@ == "system_cache"@ || def.id@ == "browser_cache"@) && def.cleanup_dirs
}

/// Whether the fast-clear strategy (wholesale root removal) applies to the
/// category.
pub fn should_fast_clear(def: &CategoryDef) -> (r: bool)
    ensures
        r == spec_should_fast_clear(def),
{
    (def.id.eq(&String::from_str("system_cache")) || def.id.eq(&String::from_str("browser_cache")))
        && def.cleanup_dirs
}

/// How one category of a request is processed.
pub enum CategoryAction {
    /// Deletion restricted to exactly the caller-supplied paths.
    Included(Vec<String>),
    /// The category was not selected and has no included paths.
    Skip,
    /// The platform trash capability is queried and emptied.
    RecycleBin,
    /// Each root is removed wholesale.
    FastClear,
    /// Files under the roots are deleted individually, under the given
    /// exclusion keys.
    Walk(Vec<String>),
}

/// Chooses the strategy of one category: a non-empty included list overrides
/// everything; an unselected category is skipped; the recycle-bin category
/// without exclusions uses the trash capability; a fast-clearable category
/// without exclusions removes roots wholesale; anything else walks and
/// deletes per file.
pub fn category_action(def: &CategoryDef, request: &CleanRequest) -> (r: CategoryAction)
    ensures
        ({
            let inc = spec_lookup(request.included_paths@, def.id@);
            let exc = spec_lookup(request.excluded_paths@, def.id@).map_values(
                |p: Seq<char>| norm_of(p),
            );
            if inc.len() > 0 {
                r matches CategoryAction::Included(v) && v.deep_view() == inc
            } else if !request.ids.deep_view().contains(def.id@) {
                r is Skip
            } else if def.id@ == "recycle_bin"@ && exc.len() == 0 {
                r is RecycleBin
            } else if exc.len() == 0 && spec_should_fast_clear(def) {
                r is FastClear
            } else {
                r matches CategoryAction::Walk(v) && v.deep_view() == exc
            }
        }),
{
    let included = lookup_paths(&request.included_paths, &def.id);
    match included {
        Some(paths) if paths.len() > 0 => {
            return CategoryAction::Included(clone_strings(paths));
        },
        _ => {},
    }
    if !contains_string(&request.ids, &def.id) {
        return CategoryAction::Skip;
    }
    let excluded = match lookup_paths(&request.excluded_paths, &def.id) {
        Some(paths) => normalize_exclusions(paths),
        None => Vec::new(),
    };
    proof {
        assert(excluded.deep_view() =~= spec_lookup(request.excluded_paths@, def.id@).map_values(
            |p: Seq<char>| norm_of(p),
        ));
    }
    if excluded.len() == 0 {
        if def.id.eq(&String::from_str("recycle_bin")) {
            return CategoryAction::RecycleBin;
        }
        if should_fast_clear(def) {
            return CategoryAction::FastClear;
        }
    }
    CategoryAction::Walk(excluded)
}

/// A copy of a path list.
#[verifier::loop_isolation(false)]
fn clone_strings(v: &Vec<String>) -> (r: Vec<String>)
    ensures
        r.deep_view() == v.deep_view(),
{
    let n = v.len();
    let mut r: Vec<String> = Vec::new();
    let mut i: usize = 0;
    while i < n
        invariant
            i <= n,
            r.deep_view() =~= v.deep_view().take(i as int),
        decreases n - i,
    {
        let ghost rdv = r.deep_view();
        r.push(v[i].clone());
        proof {
            assert(r.deep_view() =~= rdv.push(v.deep_view()[i as int]));
            assert(v.deep_view().take(i + 1) =~= v.deep_view().take(i as int).push(
                v.deep_view()[i as int],
            ));
        }
        i = i + 1;
    }
    proof {
        assert(v.deep_view().take(n as int) =~= v.deep_view());
    }
    r
}

/// The view of a failure list: each path with its message.
pub open spec fn failure_views(s: Seq<CleanupError>) -> Seq<(Seq<char>, Seq<char>)> {
    s.map_values(|e: CleanupError| (e.path@, e.message@))
}

/// The view of an attempt list: each path with the totals credited on
/// success.
pub open spec fn attempt_views(s: Seq<DeleteAttempt>) -> Seq<(Seq<char>, u64, u64)> {
    s.map_values(|a: DeleteAttempt| (a.path@, a.bytes, a.files))
}

/// What the caller observed for each root of a fast-clear category.
pub enum RootOutcome {
    /// The root did not exist; nothing was attempted.
    Missing,
    /// The root was removed wholesale.
    Removed,
    /// Removal failed with the given message.
    Failed(String),
}

/// The failures of a fast clear: each root whose removal failed, in order.
pub open spec fn spec_root_failures(
    roots: Seq<Seq<char>>,
    outcomes: Seq<RootOutcome>,
    n: int,
) -> Seq<(Seq<char>, Seq<char>)>
    decreases n,
{
    if n <= 0 {
        Seq::empty()
    } else {
        let prev = spec_root_failures(roots, outcomes, n - 1);
        match outcomes[n - 1] {
            RootOutcome::Failed(m) => prev.push((roots[n - 1], m@)),
            _ => prev,
        }
    }
}

/// Accounts a fast clear: with every root removed (or missing), the totals
/// come from the caller-supplied stats, or zero without them; with any
/// failure the totals are zero even though some roots may have been removed,
/// and each failed root is reported.
#[verifier::loop_isolation(false)]
pub fn clean_category_fast_dirs(
    def: &CategoryDef,
    outcomes: &Vec<RootOutcome>,
    stats: Option<&CategoryStats>,
) -> (r: CleanupResult)
    requires
        outcomes@.len() == def.roots@.len(),
    ensures
        failure_views(r.failed@) == spec_root_failures(
            def.roots.deep_view(),
            outcomes@,
            outcomes@.len() as int,
        ),
        (forall|i: int| 0 <= i < outcomes@.len() ==> !(outcomes@[i] is Failed)) ==> {
            match stats {
                Some(s) => r.deleted_bytes == s.size_bytes && r.deleted_count == s.file_count,
                None => r.deleted_bytes == 0 && r.deleted_count == 0,
            }
        },
        (exists|i: int| 0 <= i < outcomes@.len() && outcomes@[i] is Failed) ==> r.deleted_bytes == 0
            && r.deleted_count == 0,
{
    let n = outcomes.len();
    let mut failed: Vec<CleanupError> = Vec::new();
    let mut all_ok = true;
    let mut i: usize = 0;
    while i < n
        invariant
            i <= n,
            failure_views(failed@) =~= spec_root_failures(
                def.roots.deep_view(),
                outcomes@,
                i as int,
            ),
            all_ok == (forall|j: int| 0 <= j < i ==> !(outcomes@[j] is Failed)),
        decreases n - i,
    {
        match &outcomes[i] {
            RootOutcome::Failed(m) => {
                let ghost fdv = failed@;
                failed.push(CleanupError { path: def.roots[i].clone(), message: m.clone() });
                all_ok = false;
                proof {
                    assert(failed@ =~= fdv.push(failed@.last()));
                    assert(failure_views(failed@) =~= failure_views(fdv).push(
                        (def.roots.deep_view()[i as int], m@),
                    ));
                }
            },
            _ => {},
        }
        i = i + 1;
    }
    let (deleted_bytes, deleted_count) = if all_ok {
        match stats {
            Some(s) => (s.size_bytes, s.file_count),
            None => (0, 0),
        }
    } else {
        (0, 0)
    };
    CleanupResult { deleted_bytes, deleted_count, failed }
}

/// Accounts the trash shortcut: the totals are what the trash reported just
/// before emptying (zero when the query failed); a failed emptying yields
/// zero totals and one synthetic failure entry.
pub fn clean_recycle_bin_fast(
    stats: Option<RecycleBinStats>,
    empty_result: Result<(), String>,
) -> (r: CleanupResult)
    ensures
        empty_result matches Err(m) ==> {
            &&& r.deleted_bytes == 0
            &&& r.deleted_count == 0
            &&& failure_views(r.failed@) =~= seq![("$Recycle.Bin"@, m@)]
        },
        empty_result is Ok ==> {
            &&& match stats {
                Some(s) => r.deleted_bytes == s.deleted_bytes && r.deleted_count
                    == s.deleted_count,
                None => r.deleted_bytes == 0 && r.deleted_count == 0,
            }
            &&& r.failed@.len() == 0
        },
{
    let (deleted_bytes, deleted_count) = match stats {
        Some(s) => (s.deleted_bytes, s.deleted_count),
        None => (0, 0),
    };
    match empty_result {
        Ok(()) => CleanupResult { deleted_bytes, deleted_count, failed: Vec::new() },
        Err(m) => {
            let mut failed: Vec<CleanupError> = Vec::new();
            failed.push(CleanupError { path: String::from_str("$Recycle.Bin"), message: m });
            CleanupResult { deleted_bytes: 0, deleted_count: 0, failed }
        },
    }
}


/// The attempts of an included-paths clean, over the first `n` paths: each
/// fresh (non-duplicate), in-scope path whose probe found a file passing the
/// time filter, with its observed size.
pub open spec fn spec_included_attempts(
    def: &CategoryDef,
    root_is_file: Seq<bool>,
    included: Seq<Seq<char>>,
    probes: Seq<PathProbe>,
    now_ms: i64,
    n: int,
) -> Seq<(Seq<char>, u64, u64)>
    decreases n,
{
    if n <= 0 {
        Seq::empty()
    } else {
        let prev = spec_included_attempts(def, root_is_file, included, probes, now_ms, n - 1);
        let i = n - 1;
        if key_in(included.take(i), included[i]) || !spec_within_roots(
            def,
            root_is_file,
            included[i],
        ) {
            prev
        } else {
            match probes[i] {
                PathProbe::FileFound { size, modified } => {
                    if spec_matches_cutoff(modified, cutoff_for(def.kind, now_ms)) {
                        prev.push((included[i], size, 1u64))
                    } else {
                        prev
                    }
                },
                _ => prev,
            }
        }
    }
}

/// The failures of an included-paths clean, over the first `n` paths: each
/// fresh path that is out of scope, unreadable, or a directory, with its
/// message, in path order.
pub open spec fn spec_included_failures(
    def: &CategoryDef,
    root_is_file: Seq<bool>,
    included: Seq<Seq<char>>,
    probes: Seq<PathProbe>,
    n: int,
) -> Seq<(Seq<char>, Seq<char>)>
    decreases n,
{
    if n <= 0 {
        Seq::empty()
    } else {
        let prev = spec_included_failures(def, root_is_file, included, probes, n - 1);
        let i = n - 1;
        if key_in(included.take(i), included[i]) {
            prev
        } else if !spec_within_roots(def, root_is_file, included[i]) {
            prev.push((included[i], "Path is outside cleanup scope."@))
        } else {
            match probes[i] {
                PathProbe::Failed(m) => prev.push((included[i], m@)),
                PathProbe::DirFound { .. } => prev.push((included[i], "Path is a directory."@)),
                PathProbe::FileFound { .. } => prev,
            }
        }
    }
}

/// Plans deletion restricted to an explicit path list: duplicates (by
/// comparison key) are processed once, out-of-scope paths and directories
/// fail per path, and only existing files passing the category's time filter
/// become attempts. Directories are never deletable through this path.
#[verifier::loop_isolation(false)]
pub fn clean_included_paths(
    def: &CategoryDef,
    root_is_file: &Vec<bool>,
    included: &Vec<String>,
    probes: &Vec<PathProbe>,
    now_ms: i64,
) -> (r: (Vec<DeleteAttempt>, Vec<CleanupError>))
    requires
        root_is_file@.len() == def.roots@.len(),
        probes@.len() == included@.len(),
    ensures
        attempt_views(r.0@) == spec_included_attempts(
            def,
            root_is_file@,
            included.deep_view(),
            probes@,
            now_ms,
            included@.len() as int,
        ),
        failure_views(r.1@) == spec_included_failures(
            def,
            root_is_file@,
            included.deep_view(),
            probes@,
            included@.len() as int,
        ),
{
    let ghost idv = included.deep_view();
    let cutoff = cutoff_time(&def.kind, now_ms);
    let n = included.len();
    let mut attempts: Vec<DeleteAttempt> = Vec::new();
    let mut failures: Vec<CleanupError> = Vec::new();
    let mut seen: Vec<String> = Vec::new();
    let mut i: usize = 0;
    while i < n
        invariant
            i <= n,
            idv == included.deep_view(),
            probes@.len() == n,
            root_is_file@.len() == def.roots@.len(),
            cutoff == cutoff_for(def.kind, now_ms),
            seen.deep_view() =~= idv.take(i as int).map_values(|p: Seq<char>| norm_of(p)),
            attempt_views(attempts@) =~= spec_included_attempts(
                def,
                root_is_file@,
                idv,
                probes@,
                now_ms,
                i as int,
            ),
            failure_views(failures@) =~= spec_included_failures(
                def,
                root_is_file@,
                idv,
                probes@,
                i as int,
            ),
        decreases n - i,
    {
        let key = normalize_path(&included[i]);
        let dup = contains_string(&seen, &key);
        proof {
            assert(idv.take(i as int) =~= idv.take(i + 1).take(i as int));
            let t = idv.take(i as int);
            if dup {
                let j = choose|j: int|
                    0 <= j < seen.deep_view().len() && seen.deep_view()[j] == key@;
                assert(norm_of(t[j]) == norm_of(idv[i as int]));
                assert(key_in(t, idv[i as int]));
            } else {
                if key_in(t, idv[i as int]) {
                    let j = choose|j: int| 0 <= j < t.len() && norm_of(t[j]) == norm_of(
                        idv[i as int],
                    );
                    assert(seen.deep_view()[j] == key@);
                    assert(seen.deep_view().contains(key@));
                }
                assert(!key_in(t, idv[i as int]));
            }
        }
        let ghost seendv = seen.deep_view();
        let ghost key_view = key@;
        seen.push(key);
        proof {
            assert(seen.deep_view() =~= seendv.push(key_view));
            assert(idv.take(i + 1) =~= idv.take(i as int).push(idv[i as int]));
            assert(seen.deep_view() =~= idv.take(i + 1).map_values(|p: Seq<char>| norm_of(p)));
        }
        if !dup {
            if !crate::catalog::is_within_roots(def, root_is_file, &included[i]) {
                let ghost fdv = failures@;
                failures.push(
                    CleanupError {
                        path: included[i].clone(),
                        message: String::from_str("Path is outside cleanup scope."),
                    },
                );
                proof {
                    assert(failures@ =~= fdv.push(failures@.last()));
                    assert(failure_views(failures@) =~= failure_views(fdv).push(
                        (idv[i as int], "Path is outside cleanup scope."@),
                    ));
                }
            } else {
                match &probes[i] {
                    PathProbe::Failed(m) => {
                        let ghost fdv = failures@;
                        failures.push(
                            CleanupError { path: included[i].clone(), message: m.clone() },
                        );
                        proof {
                            assert(failures@ =~= fdv.push(failures@.last()));
                            assert(failure_views(failures@) =~= failure_views(fdv).push(
                                (idv[i as int], m@),
                            ));
                        }
                    },
                    PathProbe::DirFound { .. } => {
                        let ghost fdv = failures@;
                        failures.push(
                            CleanupError {
                                path: included[i].clone(),
                                message: String::from_str("Path is a directory."),
                            },
                        );
                        proof {
                            assert(failures@ =~= fdv.push(failures@.last()));
                            assert(failure_views(failures@) =~= failure_views(fdv).push(
                                (idv[i as int], "Path is a directory."@),
                            ));
                        }
                    },
                    PathProbe::FileFound { size, modified } => {
                        if matches_cutoff(modified, &cutoff) {
                            let ghost adv = attempts@;
                            attempts.push(
                                DeleteAttempt {
                                    path: included[i].clone(),
                                    bytes: *size,
                                    files: 1,
                                },
                            );
                            proof {
                                assert(attempts@ =~= adv.push(attempts@.last()));
                                assert(attempt_views(attempts@) =~= attempt_views(adv).push(
                                    (idv[i as int], *size, 1u64),
                                ));
                            }
                        }
                    },
                }
            }
        }
        i = i + 1;
    }
    proof {
        assert(idv.take(n as int) =~= idv);
    }
    (attempts, failures)
}

/// The bytes credited by the successful outcomes among the first `n`
/// attempts.
pub open spec fn spec_outcome_bytes(
    av: Seq<(Seq<char>, u64, u64)>,
    ov: Seq<Result<(), String>>,
    n: int,
) -> int
    decreases n,
{
    if n <= 0 {
        0
    } else {
        spec_outcome_bytes(av, ov, n - 1) + if ov[n - 1] is Ok {
            av[n - 1].1 as int
        } else {
            0
        }
    }
}

/// The files credited by the successful outcomes among the first `n`
/// attempts.
pub open spec fn spec_outcome_files(
    av: Seq<(Seq<char>, u64, u64)>,
    ov: Seq<Result<(), String>>,
    n: int,
) -> int
    decreases n,
{
    if n <= 0 {
        0
    } else {
        spec_outcome_files(av, ov, n - 1) + if ov[n - 1] is Ok {
            av[n - 1].2 as int
        } else {
            0
        }
    }
}

/// The failed outcomes among the first `n` attempts: each attempted path
/// whose removal failed, with the message, in attempt order.
pub open spec fn spec_outcome_failures(
    av: Seq<(Seq<char>, u64, u64)>,
    ov: Seq<Result<(), String>>,
    n: int,
) -> Seq<(Seq<char>, Seq<char>)>
    decreases n,
{
    if n <= 0 {
        Seq::empty()
    } else {
        let prev = spec_outcome_failures(av, ov, n - 1);
        match ov[n - 1] {
            Result::Err(m) => prev.push((av[n - 1].0, m@)),
            Result::Ok(_) => prev,
        }
    }
}

proof fn lemma_outcome_sums_nonneg(
    av: Seq<(Seq<char>, u64, u64)>,
    ov: Seq<Result<(), String>>,
    n: int,
)
    ensures
        spec_outcome_bytes(av, ov, n) >= 0,
        spec_outcome_files(av, ov, n) >= 0,
    decreases n,
{
    if n > 0 {
        lemma_outcome_sums_nonneg(av, ov, n - 1);
    }
}

/// Folds the caller's removal outcomes into the accounting: a successful
/// attempt credits its bytes and files (saturating), a failed one credits
/// nothing and is appended, after the planning failures, to the failure
/// list. Every attempted-but-failed path thus appears exactly once.
#[verifier::loop_isolation(false)]
pub fn finish_deletes(
    attempts: &Vec<DeleteAttempt>,
    outcomes: &Vec<Result<(), String>>,
    prior_failures: Vec<CleanupError>,
) -> (r: CleanupResult)
    requires
        outcomes@.len() == attempts@.len(),
    ensures
        r.deleted_bytes == clamp_u64(
            spec_outcome_bytes(attempt_views(attempts@), outcomes@, outcomes@.len() as int),
        ),
        r.deleted_count == clamp_u64(
            spec_outcome_files(attempt_views(attempts@), outcomes@, outcomes@.len() as int),
        ),
        failure_views(r.failed@) == failure_views(prior_failures@) + spec_outcome_failures(
            attempt_views(attempts@),
            outcomes@,
            outcomes@.len() as int,
        ),
{
    let ghost av = attempt_views(attempts@);
    let ghost priordv = failure_views(prior_failures@);
    let n = attempts.len();
    let mut deleted_bytes: u64 = 0;
    let mut deleted_count: u64 = 0;
    let mut failed = prior_failures;
    let mut i: usize = 0;
    while i < n
        invariant
            i <= n,
            outcomes@.len() == n,
            av == attempt_views(attempts@),
            deleted_bytes == clamp_u64(spec_outcome_bytes(av, outcomes@, i as int)),
            deleted_count == clamp_u64(spec_outcome_files(av, outcomes@, i as int)),
            failure_views(failed@) =~= priordv + spec_outcome_failures(av, outcomes@, i as int),
        decreases n - i,
    {
        proof {
            lemma_outcome_sums_nonneg(av, outcomes@, i as int);
            assert(av[i as int] == (attempts@[i as int].path@, attempts@[i as int].bytes,
            attempts@[i as int].files));
        }
        match &outcomes[i] {
            Result::Ok(_) => {
                deleted_bytes = deleted_bytes.saturating_add(attempts[i].bytes);
                deleted_count = deleted_count.saturating_add(attempts[i].files);
            },
            Result::Err(m) => {
                let ghost fdv = failed@;
                failed.push(CleanupError { path: attempts[i].path.clone(), message: m.clone() });
                proof {
                    assert(failed@ =~= fdv.push(failed@.last()));
                    assert(failure_views(failed@) =~= failure_views(fdv).push(
                        (av[i as int].0, m@),
                    ));
                }
            },
        }
        i = i + 1;
    }
    CleanupResult { deleted_bytes, deleted_count, failed }
}


/// A path inserted into a depth-descending list: it goes after every path of
/// equal or greater component count.
pub open spec fn spec_insert_by_depth(sorted: Seq<Seq<char>>, x: Seq<char>) -> Seq<Seq<char>>
    decreases sorted.len(),
{
    if sorted.len() == 0 {
        seq![x]
    } else if crate::paths::component_count(sorted.last()) >= crate::paths::component_count(x) {
        sorted.push(x)
    } else {
        spec_insert_by_depth(sorted.drop_last(), x).push(sorted.last())
    }
}

/// The paths reordered by component count, deepest first; paths of equal
/// depth keep their relative order.
pub open spec fn spec_sort_by_depth(s: Seq<Seq<char>>) -> Seq<Seq<char>>
    decreases s.len(),
{
    if s.len() == 0 {
        s
    } else {
        spec_insert_by_depth(spec_sort_by_depth(s.drop_last()), s.last())
    }
}

proof fn lemma_insert_by_depth_at(sorted: Seq<Seq<char>>, x: Seq<char>, p: int)
    requires
        0 <= p <= sorted.len(),
        forall|j: int|
            p <= j < sorted.len() ==> crate::paths::component_count(#[trigger] sorted[j])
                < crate::paths::component_count(x),
        p > 0 ==> crate::paths::component_count(sorted[p - 1]) >= crate::paths::component_count(x),
    ensures
        spec_insert_by_depth(sorted, x) == sorted.take(p).push(x) + sorted.skip(p),
    decreases sorted.len(),
{
    if sorted.len() == 0 {
        assert(spec_insert_by_depth(sorted, x) =~= sorted.take(p).push(x) + sorted.skip(p));
    } else if crate::paths::component_count(sorted.last()) >= crate::paths::component_count(x) {
        assert(p == sorted.len());
        assert(sorted.take(p) =~= sorted);
        assert(spec_insert_by_depth(sorted, x) =~= sorted.take(p).push(x) + sorted.skip(p));
    } else {
        assert(p < sorted.len());
        lemma_insert_by_depth_at(sorted.drop_last(), x, p);
        assert(sorted.drop_last().take(p) =~= sorted.take(p));
        assert(spec_insert_by_depth(sorted, x) =~= sorted.take(p).push(x) + sorted.skip(p));
    }
}

/// Reorders paths by component count, deepest first, keeping the relative
/// order of paths of equal depth.
#[verifier::loop_isolation(false)]
pub fn sort_dirs_by_depth(dirs: Vec<String>) -> (r: Vec<String>)
    ensures
        r.deep_view() == spec_sort_by_depth(dirs.deep_view()),
{
    let ghost ddv = dirs.deep_view();
    let n = dirs.len();
    let mut out: Vec<String> = Vec::new();
    let mut i: usize = 0;
    while i < n
        invariant
            i <= n,
            ddv == dirs.deep_view(),
            out.deep_view() == spec_sort_by_depth(ddv.take(i as int)),
        decreases n - i,
    {
        let ghost odv = out.deep_view();
        let x = dirs[i].clone();
        let cx = crate::paths::count_components(&x);
        let mut p: usize = out.len();
        while p > 0 && crate::paths::count_components(&out[p - 1]) < cx
            invariant
                p <= out@.len(),
                forall|j: int|
                    p <= j < out.deep_view().len() ==> crate::paths::component_count(
                        #[trigger] out.deep_view()[j],
                    ) < crate::paths::component_count(x@),
            decreases p,
        {
            proof {
                assert(out.deep_view()[p - 1] == out@[p - 1]@);
            }
            p = p - 1;
        }
        proof {
            assert(p > 0 ==> out.deep_view()[p - 1] == out@[p - 1]@);
            lemma_insert_by_depth_at(odv, x@, p as int);
        }
        out.insert(p, x);
        proof {
            assert(out.deep_view() =~= odv.take(p as int).push(ddv[i as int]) + odv.skip(
                p as int,
            ));
            assert(ddv.take(i + 1).drop_last() =~= ddv.take(i as int));
        }
        i = i + 1;
    }
    proof {
        assert(ddv.take(n as int) =~= ddv);
    }
    out
}

/// The walk-and-delete attempts over the first `n` walked entries: every
/// file passing the time filter whose comparison key is not excluded, with
/// its observed size.
pub open spec fn spec_walk_attempts(
    entries: Seq<FsEntry>,
    excluded: Seq<Seq<char>>,
    cutoff: Option<i64>,
    n: int,
) -> Seq<(Seq<char>, u64, u64)>
    decreases n,
{
    if n <= 0 {
        Seq::empty()
    } else {
        let prev = spec_walk_attempts(entries, excluded, cutoff, n - 1);
        let e = entries[n - 1];
        if !e.is_dir && !excluded.contains(norm_of(e.path@)) && spec_matches_cutoff(
            e.modified,
            cutoff,
        ) {
            prev.push((e.path@, e.size, 1u64))
        } else {
            prev
        }
    }
}

/// The directories queued for bottom-up removal: every walked directory,
/// then every root, when the category removes empty directories; nothing
/// otherwise.
pub open spec fn spec_walk_dirs(
    entries: Seq<FsEntry>,
    roots: Seq<Seq<char>>,
    cleanup_dirs: bool,
) -> Seq<Seq<char>> {
    if cleanup_dirs {
        entries.filter(|e: FsEntry| e.is_dir).map_values(|e: FsEntry| e.path@) + roots
    } else {
        Seq::empty()
    }
}

/// The plan of one walk-and-delete category: the files to remove and the
/// directories to try to remove afterwards, deepest first.
pub struct WalkPlan {
    /// The files to attempt to remove, in walk order.
    pub attempts: Vec<DeleteAttempt>,
    /// The directories to remove if empty afterwards, deepest first.
    pub dirs: Vec<String>,
}

/// Plans the default deletion strategy over an observed walk of the roots:
/// every file passing the time filter and not excluded by key becomes an
/// attempt; when the category removes empty directories, every walked
/// directory plus every root is queued, deepest first.
#[verifier::loop_isolation(false)]
pub fn clean_category_plan(
    def: &CategoryDef,
    entries: &Vec<FsEntry>,
    excluded_keys: &Vec<String>,
    now_ms: i64,
) -> (r: WalkPlan)
    ensures
        attempt_views(r.attempts@) == spec_walk_attempts(
            entries@,
            excluded_keys.deep_view(),
            cutoff_for(def.kind, now_ms),
            entries@.len() as int,
        ),
        r.dirs.deep_view() == spec_sort_by_depth(
            spec_walk_dirs(entries@, def.roots.deep_view(), def.cleanup_dirs),
        ),
{
    let ghost pred = |e: FsEntry| e.is_dir;
    let cutoff = cutoff_time(&def.kind, now_ms);
    let n = entries.len();
    let mut attempts: Vec<DeleteAttempt> = Vec::new();
    let mut dirs: Vec<String> = Vec::new();
    let mut i: usize = 0;
    proof {
        assert(entries@.take(0).filter(pred) =~= Seq::<FsEntry>::empty());
    }
    while i < n
        invariant
            i <= n,
            cutoff == cutoff_for(def.kind, now_ms),
            attempt_views(attempts@) =~= spec_walk_attempts(
                entries@,
                excluded_keys.deep_view(),
                cutoff,
                i as int,
            ),
            def.cleanup_dirs ==> dirs.deep_view() =~= entries@.take(i as int).filter(
                pred,
            ).map_values(|e: FsEntry| e.path@),
            !def.cleanup_dirs ==> dirs.deep_view() =~= Seq::<Seq<char>>::empty(),
        decreases n - i,
    {
        proof {
            broadcast use vstd::prelude::Seq::lemma_filter_push;

            assert(entries@.take(i + 1) =~= entries@.take(i as int).push(entries@[i as int]));
        }
        let e = &entries[i];
        proof {
            if entries@[i as int].is_dir {
                assert(entries@.take(i + 1).filter(pred) =~= entries@.take(i as int).filter(
                    pred,
                ).push(entries@[i as int]));
                assert(entries@.take(i + 1).filter(pred).map_values(|e: FsEntry| e.path@)
                    =~= entries@.take(i as int).filter(pred).map_values(|e: FsEntry| e.path@).push(
                    entries@[i as int].path@,
                ));
            } else {
                assert(entries@.take(i + 1).filter(pred) =~= entries@.take(i as int).filter(pred));
            }
        }
        if e.is_dir {
            if def.cleanup_dirs {
                let ghost ddv = dirs.deep_view();
                dirs.push(e.path.clone());
                proof {
                    assert(dirs.deep_view() =~= ddv.push(entries@[i as int].path@));
                }
            }
        } else {
            let key = normalize_path(&e.path);
            if !contains_string(excluded_keys, &key) {
                if matches_cutoff(&e.modified, &cutoff) {
                    let ghost adv = attempts@;
                    attempts.push(DeleteAttempt { path: e.path.clone(), bytes: e.size, files: 1 });
                    proof {
                        assert(attempts@ =~= adv.push(attempts@.last()));
                        assert(attempt_views(attempts@) =~= attempt_views(adv).push(
                            (entries@[i as int].path@, entries@[i as int].size, 1u64),
                        ));
                    }
                }
            }
        }
        i = i + 1;
    }
    proof {
        assert(entries@.take(n as int) =~= entries@);
    }
    if def.cleanup_dirs {
        let nr = def.roots.len();
        let mut j: usize = 0;
        while j < nr
            invariant
                j <= nr,
                dirs.deep_view() =~= entries@.filter(pred).map_values(|e: FsEntry| e.path@)
                    + def.roots.deep_view().take(j as int),
            decreases nr - j,
        {
            let ghost ddv = dirs.deep_view();
            dirs.push(def.roots[j].clone());
            proof {
                assert(dirs.deep_view() =~= ddv.push(def.roots.deep_view()[j as int]));
                assert(def.roots.deep_view().take(j + 1) =~= def.roots.deep_view().take(
                    j as int,
                ).push(def.roots.deep_view()[j as int]));
                assert(dirs.deep_view() =~= entries@.filter(pred).map_values(
                    |e: FsEntry| e.path@,
                ) + def.roots.deep_view().take(j + 1));
            }
            j = j + 1;
        }
        proof {
            assert(def.roots.deep_view().take(nr as int) =~= def.roots.deep_view());
            assert(dirs.deep_view() =~= spec_walk_dirs(
                entries@,
                def.roots.deep_view(),
                def.cleanup_dirs,
            ));
        }
        let sorted = sort_dirs_by_depth(dirs);
        WalkPlan { attempts, dirs: sorted }
    } else {
        let empty_dirs: Vec<String> = Vec::new();
        proof {
            assert(empty_dirs.deep_view() =~= Seq::<Seq<char>>::empty());
            assert(spec_walk_dirs(entries@, def.roots.deep_view(), def.cleanup_dirs)
                =~= Seq::<Seq<char>>::empty());
        }
        WalkPlan { attempts, dirs: empty_dirs }
    }
}

/// The total bytes over the first `n` per-category results.
pub open spec fn spec_total_bytes(rs: Seq<CleanupResult>, n: int) -> int
    decreases n,
{
    if n <= 0 {
        0
    } else {
        spec_total_bytes(rs, n - 1) + rs[n - 1].deleted_bytes as int
    }
}

/// The total files over the first `n` per-category results.
pub open spec fn spec_total_count(rs: Seq<CleanupResult>, n: int) -> int
    decreases n,
{
    if n <= 0 {
        0
    } else {
        spec_total_count(rs, n - 1) + rs[n - 1].deleted_count as int
    }
}

/// The failure lists of the first `n` per-category results, concatenated in
/// category order.
pub open spec fn spec_total_failures(rs: Seq<CleanupResult>, n: int) -> Seq<(Seq<char>, Seq<char>)>
    decreases n,
{
    if n <= 0 {
        Seq::empty()
    } else {
        spec_total_failures(rs, n - 1) + failure_views(rs[n - 1].failed@)
    }
}

proof fn lemma_total_sums_nonneg(rs: Seq<CleanupResult>, n: int)
    ensures
        spec_total_bytes(rs, n) >= 0,
        spec_total_count(rs, n) >= 0,
    decreases n,
{
    if n > 0 {
        lemma_total_sums_nonneg(rs, n - 1);
    }
}

/// Combines the per-category results of one clean request, in catalog order:
/// totals are summed (saturating) and failure lists concatenated.
#[verifier::loop_isolation(false)]
pub fn clean_categories_sync(results: Vec<CleanupResult>) -> (r: CleanupResult)
    ensures
        r.deleted_bytes == clamp_u64(spec_total_bytes(results@, results@.len() as int)),
        r.deleted_count == clamp_u64(spec_total_count(results@, results@.len() as int)),
        failure_views(r.failed@) == spec_total_failures(results@, results@.len() as int),
{
    let ghost rsv = results@;
    let n = results.len();
    let mut deleted_bytes: u64 = 0;
    let mut deleted_count: u64 = 0;
    let mut failed: Vec<CleanupError> = Vec::new();
    let mut i: usize = 0;
    while i < n
        invariant
            i <= n,
            rsv == results@,
            deleted_bytes == clamp_u64(spec_total_bytes(rsv, i as int)),
            deleted_count == clamp_u64(spec_total_count(rsv, i as int)),
            failure_views(failed@) =~= spec_total_failures(rsv, i as int),
        decreases n - i,
    {
        proof {
            lemma_total_sums_nonneg(rsv, i as int);
        }
        deleted_bytes = deleted_bytes.saturating_add(results[i].deleted_bytes);
        deleted_count = deleted_count.saturating_add(results[i].deleted_count);
        let nf = results[i].failed.len();
        let mut k: usize = 0;
        while k < nf
            invariant
                k <= nf,
                nf == rsv[i as int].failed@.len(),
                i < n,
                rsv == results@,
                failure_views(failed@) =~= spec_total_failures(rsv, i as int) + failure_views(
                    rsv[i as int].failed@.take(k as int),
                ),
            decreases nf - k,
        {
            let ghost fdv = failed@;
            let entry = &results[i].failed[k];
            failed.push(CleanupError { path: entry.path.clone(), message: entry.message.clone() });
            proof {
                let fe = rsv[i as int].failed@[k as int];
                assert(failed@ =~= fdv.push(failed@.last()));
                assert(rsv[i as int].failed@.take(k + 1) =~= rsv[i as int].failed@.take(
                    k as int,
                ).push(fe));
                assert(failure_views(rsv[i as int].failed@.take(k + 1)) =~= failure_views(
                    rsv[i as int].failed@.take(k as int),
                ).push((fe.path@, fe.message@)));
                assert(failure_views(failed@) =~= failure_views(fdv).push((fe.path@, fe.message@)));
                assert(spec_total_failures(rsv, i as int) + failure_views(
                    rsv[i as int].failed@.take(k + 1),
                ) =~= (spec_total_failures(rsv, i as int) + failure_views(
                    rsv[i as int].failed@.take(k as int),
                )).push((fe.path@, fe.message@)));
            }
            k = k + 1;
        }
        proof {
            assert(rsv[i as int].failed@.take(nf as int) =~= rsv[i as int].failed@);
        }
        i = i + 1;
    }
    CleanupResult { deleted_bytes, deleted_count, failed }
}

} // verus!
