use diskclean::catalog::CategoryDef;
use diskclean::catalog::CategoryKind;
use diskclean::clean::finish_deletes;
use diskclean::large::clean_large_items_plan;
use diskclean::large::dir_metrics;
use diskclean::large::large_scan_params;
use diskclean::large::list_limit;
use diskclean::large::match_category_id;
use diskclean::large::scan_large_items_sync;
use diskclean::model::FsEntry;
use diskclean::model::PathProbe;

const GIB: u64 = 1024 * 1024 * 1024;

fn file(path: &str, size: u64, modified: Option<i64>) -> FsEntry {
    FsEntry { path: String::from(path), size, modified, is_dir: false }
}

fn dir(path: &str) -> FsEntry {
    FsEntry { path: String::from(path), size: 0, modified: None, is_dir: true }
}

#[test]
fn sweep_parameters_default_and_clamp() {
    assert_eq!(large_scan_params(None, None), (200, GIB));
    assert_eq!(large_scan_params(Some(5000), Some(2)), (1000, 2 * 1024 * 1024));
    assert_eq!(large_scan_params(Some(3), Some(u64::MAX)), (3, u64::MAX));
    assert_eq!(list_limit(None), 200);
    assert_eq!(list_limit(Some(9000)), 2000);
}

#[test]
fn sweep_never_returns_an_item_below_the_threshold() {
    let entries = vec![
        dir("C:\\"),
        file("C:\\Movies\\big.mkv", 2 * GIB, Some(1)),
        file("C:\\Movies\\small.mkv", GIB - 1, Some(1)),
        file("C:\\Docs\\tiny.txt", 10, Some(1)),
    ];
    let items = scan_large_items_sync(200, GIB, &entries, &vec![], &vec![], 0);
    assert_eq!(items.len(), 1);
    assert_eq!(items[0].path, "C:\\Movies\\big.mkv");
    assert!(items[0].size_bytes >= GIB);
    assert!(!items[0].is_dir);
    assert!(!items[0].suspicious);
    assert_eq!(items[0].category_id, None);
}

#[test]
fn sweep_flags_keyword_paths_as_suspicious() {
    let entries = vec![file("C:\\Games\\shadercache\\blob.bin", 3 * GIB, Some(1))];
    let items = scan_large_items_sync(200, GIB, &entries, &vec![], &vec![], 0);
    assert_eq!(items.len(), 2);
    // The file itself is suspicious (its path contains "cache"), and its
    // parent directory accumulated enough bytes to be emitted too.
    assert!(items[0].suspicious);
    let dir_item = items.iter().find(|it| it.is_dir).unwrap();
    assert_eq!(dir_item.path, "C:\\Games\\shadercache");
    assert_eq!(dir_item.name, "shadercache");
    assert_eq!(dir_item.size_bytes, 3 * GIB);
    assert!(dir_item.suspicious);
}

#[test]
fn sweep_accumulates_directory_totals_from_observed_files() {
    // Two 600 MiB files under a keyword-named directory: neither is large
    // alone, but the directory's accumulated total crosses the threshold and
    // equals exactly the sum the scanner observed.
    let entries = vec![
        dir("C:\\Logs"),
        file("C:\\Logs\\a.bin", 600 * 1024 * 1024, Some(1)),
        file("C:\\Logs\\b.bin", 600 * 1024 * 1024, Some(1)),
        file("C:\\Other\\c.bin", 600 * 1024 * 1024, Some(1)),
    ];
    let items = scan_large_items_sync(200, GIB, &entries, &vec![], &vec![], 0);
    assert_eq!(items.len(), 1);
    assert!(items[0].is_dir);
    assert_eq!(items[0].path, "C:\\Logs");
    assert_eq!(items[0].size_bytes, 1200 * 1024 * 1024);
}

#[test]
fn sweep_sorts_by_size_descending_and_truncates() {
    let entries = vec![
        file("C:\\a.bin", 2 * GIB, Some(1)),
        file("C:\\b.bin", 5 * GIB, Some(1)),
        file("C:\\c.bin", 3 * GIB, Some(1)),
    ];
    let items = scan_large_items_sync(200, GIB, &entries, &vec![], &vec![], 0);
    let sizes: Vec<u64> = items.iter().map(|it| it.size_bytes).collect();
    assert_eq!(sizes, vec![5 * GIB, 3 * GIB, 2 * GIB]);
    let top2 = scan_large_items_sync(2, GIB, &entries, &vec![], &vec![], 0);
    assert_eq!(top2.len(), 2);
    assert_eq!(top2[1].size_bytes, 3 * GIB);
}

#[test]
fn sweep_annotates_items_with_the_first_matching_category() {
    let catalog = vec![CategoryDef {
        id: String::from("temp_files"),
        title: String::from("t"),
        description: String::from("t"),
        kind: CategoryKind::Standard,
        roots: vec![String::from("C:\\Temp")],
        cleanup_dirs: true,
    }];
    let root_files = vec![vec![false]];
    let entries = vec![file("C:\\Temp\\huge.bin", 2 * GIB, Some(1))];
    let items = scan_large_items_sync(1, GIB, &entries, &catalog, &root_files, 0);
    assert_eq!(items[0].category_id, Some(String::from("temp_files")));
}

#[test]
fn category_annotation_respects_the_time_filter() {
    let day: i64 = 86_400_000;
    let now = 100 * day;
    let catalog = vec![CategoryDef {
        id: String::from("downloads_old"),
        title: String::from("d"),
        description: String::from("d"),
        kind: CategoryKind::DownloadsOlderThan { days: 30 },
        roots: vec![String::from("C:\\D")],
        cleanup_dirs: false,
    }];
    let root_files = vec![vec![false]];
    let new_file = match_category_id(
        &String::from("C:\\D\\new.bin"),
        &Some(now - day),
        &catalog,
        &root_files,
        now,
    );
    assert_eq!(new_file, None);
    let old_file = match_category_id(
        &String::from("C:\\D\\old.bin"),
        &Some(now - 40 * day),
        &catalog,
        &root_files,
        now,
    );
    assert_eq!(old_file, Some(String::from("downloads_old")));
}

#[test]
fn directory_metrics_sum_files_only() {
    let entries = vec![
        dir("C:\\X"),
        file("C:\\X\\a.bin", 10, Some(1)),
        dir("C:\\X\\sub"),
        file("C:\\X\\sub\\b.bin", 32, None),
    ];
    assert_eq!(dir_metrics(&entries), (42, 2));
}

#[test]
fn adhoc_clean_rejects_the_volume_root() {
    let root = String::from("C:\\");
    let paths = vec![String::from("C:\\")];
    let probes = vec![PathProbe::DirFound { total_bytes: 1, total_files: 1 }];
    let (attempts, failures) = clean_large_items_plan(&root, false, &paths, &probes);
    assert!(attempts.is_empty());
    assert_eq!(failures.len(), 1);
    assert_eq!(failures[0].path, "C:\\");
    assert_eq!(failures[0].message, "Refusing to delete drive root.");
}

#[test]
fn adhoc_clean_rejects_paths_outside_the_volume() {
    let root = String::from("C:\\");
    let paths = vec![String::from("D:\\x.bin")];
    let probes = vec![PathProbe::FileFound { size: 5, modified: None }];
    let (attempts, failures) = clean_large_items_plan(&root, false, &paths, &probes);
    assert!(attempts.is_empty());
    assert_eq!(failures[0].message, "Path is outside scan scope.");
}

#[test]
fn adhoc_clean_credits_files_and_directory_totals() {
    let root = String::from("C:\\");
    let paths = vec![
        String::from("C:\\big.bin"),
        String::from("c:/BIG.BIN"),
        String::from("C:\\cachedir"),
        String::from("C:\\gone.bin"),
    ];
    let probes = vec![
        PathProbe::FileFound { size: 100, modified: Some(1) },
        PathProbe::FileFound { size: 100, modified: Some(1) },
        PathProbe::DirFound { total_bytes: 1000, total_files: 5 },
        PathProbe::Failed(String::from("os error 2")),
    ];
    let (attempts, failures) = clean_large_items_plan(&root, false, &paths, &probes);
    // The duplicate spelling is processed once; the unreadable path fails.
    assert_eq!(attempts.len(), 2);
    assert_eq!(attempts[0].path, "C:\\big.bin");
    assert_eq!(attempts[1].path, "C:\\cachedir");
    assert_eq!(failures.len(), 1);
    assert_eq!(failures[0].message, "os error 2");
    let result = finish_deletes(&attempts, &vec![Ok(()), Ok(())], failures);
    assert_eq!(result.deleted_bytes, 1100);
    assert_eq!(result.deleted_count, 6);
    assert_eq!(result.failed.len(), 1);
}

#[test]
fn an_empty_sweep_returns_nothing() {
    let items = scan_large_items_sync(200, GIB, &vec![], &vec![], &vec![], 0);
    assert!(items.is_empty());
    let (attempts, failures) = clean_large_items_plan(&String::from("C:\\"), false, &vec![], &vec![]);
    assert!(attempts.is_empty());
    assert!(failures.is_empty());
}
