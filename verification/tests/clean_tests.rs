use diskclean::catalog::CategoryDef;
use diskclean::catalog::CategoryKind;
use diskclean::clean::category_action;
use diskclean::clean::clean_categories_sync;
use diskclean::clean::clean_category_fast_dirs;
use diskclean::clean::clean_category_plan;
use diskclean::clean::clean_included_paths;
use diskclean::clean::clean_recycle_bin_fast;
use diskclean::clean::finish_deletes;
use diskclean::clean::should_fast_clear;
use diskclean::clean::CategoryAction;
use diskclean::clean::CleanRequest;
use diskclean::clean::PathsByCategory;
use diskclean::clean::RootOutcome;
use diskclean::clean::StatsByCategory;
use diskclean::model::CategoryStats;
use diskclean::model::CleanupResult;
use diskclean::model::FsEntry;
use diskclean::model::PathProbe;
use diskclean::model::RecycleBinStats;

const DAY_MS: i64 = 86_400_000;

fn def_with(id: &str, kind: CategoryKind, roots: Vec<&str>, cleanup_dirs: bool) -> CategoryDef {
    CategoryDef {
        id: String::from(id),
        title: String::from(id),
        description: String::from(id),
        kind,
        roots: roots.into_iter().map(String::from).collect(),
        cleanup_dirs,
    }
}

fn file(path: &str, size: u64, modified: Option<i64>) -> FsEntry {
    FsEntry { path: String::from(path), size, modified, is_dir: false }
}

fn dir(path: &str) -> FsEntry {
    FsEntry { path: String::from(path), size: 0, modified: None, is_dir: true }
}

fn empty_request() -> CleanRequest {
    CleanRequest {
        ids: vec![],
        excluded_paths: vec![],
        included_paths: vec![],
        category_stats: vec![],
    }
}

#[test]
fn fast_clear_applies_to_the_two_cache_categories() {
    assert!(should_fast_clear(&def_with("system_cache", CategoryKind::Standard, vec![], true)));
    assert!(should_fast_clear(&def_with("browser_cache", CategoryKind::Standard, vec![], true)));
    assert!(!should_fast_clear(&def_with("system_cache", CategoryKind::Standard, vec![], false)));
    assert!(!should_fast_clear(&def_with("temp_files", CategoryKind::Standard, vec![], true)));
}

#[test]
fn included_paths_override_everything_else() {
    let def = def_with("temp_files", CategoryKind::Standard, vec!["C:\\T"], true);
    let mut request = empty_request();
    request.included_paths.push(PathsByCategory {
        id: String::from("temp_files"),
        paths: vec![String::from("C:\\T\\a.bin")],
    });
    match category_action(&def, &request) {
        CategoryAction::Included(v) => assert_eq!(v, vec![String::from("C:\\T\\a.bin")]),
        _ => panic!("expected the included branch"),
    }
}

#[test]
fn unselected_categories_are_skipped() {
    let def = def_with("temp_files", CategoryKind::Standard, vec!["C:\\T"], true);
    let request = empty_request();
    assert!(matches!(category_action(&def, &request), CategoryAction::Skip));
}

#[test]
fn recycle_bin_uses_the_trash_capability_without_exclusions() {
    let def = def_with("recycle_bin", CategoryKind::Standard, vec!["C:\\$Recycle.Bin"], true);
    let mut request = empty_request();
    request.ids.push(String::from("recycle_bin"));
    assert!(matches!(category_action(&def, &request), CategoryAction::RecycleBin));
    // With exclusions it falls back to the walk.
    request.excluded_paths.push(PathsByCategory {
        id: String::from("recycle_bin"),
        paths: vec![String::from("C:\\$Recycle.Bin\\keep.bin")],
    });
    match category_action(&def, &request) {
        CategoryAction::Walk(keys) => {
            assert_eq!(keys, vec![String::from("c:\\$recycle.bin\\keep.bin")])
        },
        _ => panic!("expected the walk branch"),
    }
}

#[test]
fn cache_categories_fast_clear_without_exclusions() {
    let def = def_with("system_cache", CategoryKind::Standard, vec!["C:\\W\\SD"], true);
    let mut request = empty_request();
    request.ids.push(String::from("system_cache"));
    assert!(matches!(category_action(&def, &request), CategoryAction::FastClear));
}

#[test]
fn included_duplicates_are_deleted_at_most_once() {
    // Two spellings of one file; only one attempt is planned, and a
    // successful removal reports a single deleted file.
    let def = def_with("temp_files", CategoryKind::Standard, vec!["C:\\Temp"], true);
    let included = vec![String::from("C:\\Temp\\a.txt"), String::from("C:\\Temp\\a.txt")];
    let probes = vec![
        PathProbe::FileFound { size: 7, modified: Some(1) },
        PathProbe::FileFound { size: 7, modified: Some(1) },
    ];
    let (attempts, failures) = clean_included_paths(&def, &vec![false], &included, &probes, 10);
    assert!(failures.is_empty());
    assert_eq!(attempts.len(), 1);
    assert_eq!(attempts[0].path, "C:\\Temp\\a.txt");
    let result = finish_deletes(&attempts, &vec![Ok(())], failures);
    assert_eq!(result.deleted_count, 1);
    assert_eq!(result.deleted_bytes, 7);
    assert!(result.failed.is_empty());
}

#[test]
fn included_path_outside_the_roots_fails_and_is_not_deleted() {
    let def = def_with("temp_files", CategoryKind::Standard, vec!["C:\\Temp"], true);
    let included = vec![String::from("C:\\Windows\\x.bin")];
    let probes = vec![PathProbe::FileFound { size: 7, modified: Some(1) }];
    let (attempts, failures) = clean_included_paths(&def, &vec![false], &included, &probes, 10);
    assert!(attempts.is_empty());
    assert_eq!(failures.len(), 1);
    assert_eq!(failures[0].path, "C:\\Windows\\x.bin");
    assert_eq!(failures[0].message, "Path is outside cleanup scope.");
}

#[test]
fn included_directories_are_never_deletable() {
    let def = def_with("temp_files", CategoryKind::Standard, vec!["C:\\Temp"], true);
    let included = vec![String::from("C:\\Temp\\sub")];
    let probes = vec![PathProbe::DirFound { total_bytes: 10, total_files: 2 }];
    let (attempts, failures) = clean_included_paths(&def, &vec![false], &included, &probes, 10);
    assert!(attempts.is_empty());
    assert_eq!(failures[0].message, "Path is a directory.");
}

#[test]
fn included_paths_failing_the_time_filter_are_skipped_silently() {
    let now = 100 * DAY_MS;
    let def = def_with("downloads_old", CategoryKind::DownloadsOlderThan { days: 30 }, vec!["C:\\D"], false);
    let included = vec![String::from("C:\\D\\new.bin"), String::from("C:\\D\\old.bin")];
    let probes = vec![
        PathProbe::FileFound { size: 5, modified: Some(now - DAY_MS) },
        PathProbe::FileFound { size: 9, modified: Some(now - 40 * DAY_MS) },
    ];
    let (attempts, failures) = clean_included_paths(&def, &vec![false], &included, &probes, now);
    assert!(failures.is_empty());
    assert_eq!(attempts.len(), 1);
    assert_eq!(attempts[0].path, "C:\\D\\old.bin");
}

#[test]
fn unreadable_included_paths_carry_their_error() {
    let def = def_with("temp_files", CategoryKind::Standard, vec!["C:\\Temp"], true);
    let included = vec![String::from("C:\\Temp\\gone.bin")];
    let probes = vec![PathProbe::Failed(String::from("os error 2"))];
    let (attempts, failures) = clean_included_paths(&def, &vec![false], &included, &probes, 10);
    assert!(attempts.is_empty());
    assert_eq!(failures[0].message, "os error 2");
}

#[test]
fn walk_plan_respects_exclusions_and_the_time_filter() {
    let now = 100 * DAY_MS;
    let def = def_with("temp_files", CategoryKind::Standard, vec!["C:\\T"], false);
    let entries = vec![
        dir("C:\\T"),
        file("C:\\T\\keep.bin", 10, Some(1)),
        file("C:\\T\\kill.bin", 20, Some(1)),
    ];
    let excluded = vec![String::from("c:\\t\\keep.bin")];
    let plan = clean_category_plan(&def, &entries, &excluded, now);
    assert_eq!(plan.attempts.len(), 1);
    assert_eq!(plan.attempts[0].path, "C:\\T\\kill.bin");
    assert_eq!(plan.attempts[0].bytes, 20);
    assert!(plan.dirs.is_empty());
}

#[test]
fn empty_exclusions_behave_like_omitted_exclusions() {
    let def = def_with("temp_files", CategoryKind::Standard, vec!["C:\\T"], false);
    let entries = vec![file("C:\\T\\a.bin", 10, Some(1))];
    let with_empty = clean_category_plan(&def, &entries, &vec![], 0);
    let request_without = {
        let mut r = empty_request();
        r.ids.push(String::from("temp_files"));
        r
    };
    match category_action(&def, &request_without) {
        CategoryAction::Walk(keys) => {
            let plan = clean_category_plan(&def, &entries, &keys, 0);
            assert_eq!(plan.attempts.len(), with_empty.attempts.len());
            assert_eq!(plan.attempts[0].path, with_empty.attempts[0].path);
        },
        _ => panic!("expected the walk branch"),
    }
}

#[test]
fn walk_plan_queues_directories_deepest_first() {
    let def = def_with("temp_files", CategoryKind::Standard, vec!["C:\\T"], true);
    let entries = vec![
        dir("C:\\T"),
        dir("C:\\T\\a"),
        dir("C:\\T\\a\\b"),
        file("C:\\T\\a\\b\\f.bin", 1, Some(1)),
    ];
    let plan = clean_category_plan(&def, &entries, &vec![], 0);
    // Walked dirs plus the root, deepest first; the root appears twice since
    // the walk observed it too.
    assert_eq!(
        plan.dirs,
        vec![
            String::from("C:\\T\\a\\b"),
            String::from("C:\\T\\a"),
            String::from("C:\\T"),
            String::from("C:\\T"),
        ]
    );
}

#[test]
fn failed_removals_are_reported_per_path_and_not_counted() {
    let attempts_input = vec![
        file("C:\\T\\a.bin", 10, Some(1)),
        file("C:\\T\\b.bin", 20, Some(1)),
        file("C:\\T\\c.bin", 40, Some(1)),
    ];
    let def = def_with("temp_files", CategoryKind::Standard, vec!["C:\\T"], false);
    let plan = clean_category_plan(&def, &attempts_input, &vec![], 0);
    let outcomes = vec![Ok(()), Err(String::from("access denied")), Ok(())];
    let result = finish_deletes(&plan.attempts, &outcomes, vec![]);
    assert_eq!(result.deleted_bytes, 50);
    assert_eq!(result.deleted_count, 2);
    assert_eq!(result.failed.len(), 1);
    assert_eq!(result.failed[0].path, "C:\\T\\b.bin");
    assert_eq!(result.failed[0].message, "access denied");
}

#[test]
fn fast_clear_reports_caller_stats_when_all_roots_clear() {
    let def = def_with("system_cache", CategoryKind::Standard, vec!["C:\\A", "C:\\B"], true);
    let outcomes = vec![RootOutcome::Removed, RootOutcome::Missing];
    let stats = CategoryStats { size_bytes: 77, file_count: 5 };
    let r = clean_category_fast_dirs(&def, &outcomes, Some(&stats));
    assert_eq!(r.deleted_bytes, 77);
    assert_eq!(r.deleted_count, 5);
    assert!(r.failed.is_empty());
}

#[test]
fn fast_clear_reports_zero_without_stats() {
    let def = def_with("system_cache", CategoryKind::Standard, vec!["C:\\A"], true);
    let r = clean_category_fast_dirs(&def, &vec![RootOutcome::Removed], None);
    assert_eq!(r.deleted_bytes, 0);
    assert_eq!(r.deleted_count, 0);
}

#[test]
fn fast_clear_is_all_or_nothing_on_failure() {
    let def = def_with("system_cache", CategoryKind::Standard, vec!["C:\\A", "C:\\B"], true);
    let outcomes = vec![RootOutcome::Removed, RootOutcome::Failed(String::from("locked"))];
    let stats = CategoryStats { size_bytes: 77, file_count: 5 };
    let r = clean_category_fast_dirs(&def, &outcomes, Some(&stats));
    // Even though one root was removed, the reported totals are zero.
    assert_eq!(r.deleted_bytes, 0);
    assert_eq!(r.deleted_count, 0);
    assert_eq!(r.failed.len(), 1);
    assert_eq!(r.failed[0].path, "C:\\B");
    assert_eq!(r.failed[0].message, "locked");
}

#[test]
fn recycle_bin_reports_queried_stats_on_success() {
    let stats = RecycleBinStats { deleted_bytes: 123, deleted_count: 4 };
    let r = clean_recycle_bin_fast(Some(stats), Ok(()));
    assert_eq!(r.deleted_bytes, 123);
    assert_eq!(r.deleted_count, 4);
    assert!(r.failed.is_empty());
}

#[test]
fn recycle_bin_capability_failure_is_a_synthetic_entry() {
    let r = clean_recycle_bin_fast(None, Err(String::from("unsupported")));
    assert_eq!(r.deleted_bytes, 0);
    assert_eq!(r.deleted_count, 0);
    assert_eq!(r.failed.len(), 1);
    assert_eq!(r.failed[0].path, "$Recycle.Bin");
    assert_eq!(r.failed[0].message, "unsupported");
}

#[test]
fn per_category_results_are_summed_and_failures_concatenated() {
    let r1 = CleanupResult {
        deleted_bytes: 10,
        deleted_count: 1,
        failed: vec![diskclean::model::CleanupError {
            path: String::from("C:\\a"),
            message: String::from("m1"),
        }],
    };
    let r2 = CleanupResult { deleted_bytes: 30, deleted_count: 2, failed: vec![] };
    let total = clean_categories_sync(vec![r1, r2]);
    assert_eq!(total.deleted_bytes, 40);
    assert_eq!(total.deleted_count, 3);
    assert_eq!(total.failed.len(), 1);
    assert_eq!(total.failed[0].path, "C:\\a");
}

#[test]
fn old_large_file_is_cleaned_and_the_new_small_one_kept() {
    // A temp directory with one 10 MB file older than 30 days and one 1 KB
    // file newer than 30 days, under an olderThan(30) category: the scan
    // sees exactly the old file, and the clean removes exactly it.
    let now = 1_000 * DAY_MS;
    let def = def_with("downloads_old", CategoryKind::DownloadsOlderThan { days: 30 }, vec!["C:\\D"], false);
    let entries = vec![
        dir("C:\\D"),
        file("C:\\D\\old.iso", 10 * 1024 * 1024, Some(now - 31 * DAY_MS)),
        file("C:\\D\\new.txt", 1024, Some(now - DAY_MS)),
    ];
    let scan = diskclean::scan::scan_category(&def, &entries, now);
    assert_eq!(scan.size_bytes, 10 * 1024 * 1024);
    assert_eq!(scan.file_count, 1);
    let plan = clean_category_plan(&def, &entries, &vec![], now);
    assert_eq!(plan.attempts.len(), 1);
    assert_eq!(plan.attempts[0].path, "C:\\D\\old.iso");
    let result = finish_deletes(&plan.attempts, &vec![Ok(())], vec![]);
    assert_eq!(result.deleted_bytes, 10 * 1024 * 1024);
    assert_eq!(result.deleted_count, 1);
    assert!(result.failed.is_empty());
}

#[test]
fn caller_stats_are_looked_up_by_category() {
    let mut request = empty_request();
    request.category_stats.push(StatsByCategory {
        id: String::from("system_cache"),
        stats: CategoryStats { size_bytes: 9, file_count: 2 },
    });
    let found = diskclean::clean::lookup_stats(&request.category_stats, &String::from("system_cache"));
    assert_eq!(found.unwrap().size_bytes, 9);
    assert!(diskclean::clean::lookup_stats(&request.category_stats, &String::from("x")).is_none());
}

#[test]
fn an_empty_request_cleans_nothing() {
    let total = clean_categories_sync(vec![]);
    assert_eq!(total.deleted_bytes, 0);
    assert_eq!(total.deleted_count, 0);
    assert!(total.failed.is_empty());
}

#[test]
fn totals_saturate_across_categories() {
    let r1 = CleanupResult { deleted_bytes: u64::MAX, deleted_count: 1, failed: vec![] };
    let r2 = CleanupResult { deleted_bytes: 10, deleted_count: 2, failed: vec![] };
    let total = clean_categories_sync(vec![r1, r2]);
    assert_eq!(total.deleted_bytes, u64::MAX);
    assert_eq!(total.deleted_count, 3);
}
