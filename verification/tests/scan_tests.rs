use diskclean::catalog::CategoryDef;
use diskclean::catalog::CategoryKind;
use diskclean::ensure_windows;
use diskclean::model::FsEntry;
use diskclean::scan::list_category_items_for;
use diskclean::scan::list_category_items_sync;
use diskclean::scan::scan_category;
use diskclean::scan::scan_cleanup_items_sync;
use diskclean::volume::disk_usage;
use diskclean::volume::hibernation_info;
use diskclean::volume::FileCheck;

const DAY_MS: i64 = 86_400_000;

fn def(kind: CategoryKind) -> CategoryDef {
    CategoryDef {
        id: String::from("temp_files"),
        title: String::from("Temporary files"),
        description: String::from("d"),
        kind,
        roots: vec![String::from("C:\\T")],
        cleanup_dirs: true,
    }
}

fn file(path: &str, size: u64, modified: Option<i64>) -> FsEntry {
    FsEntry { path: String::from(path), size, modified, is_dir: false }
}

fn dir(path: &str) -> FsEntry {
    FsEntry { path: String::from(path), size: 0, modified: None, is_dir: true }
}

#[test]
fn scan_sums_all_files_without_a_time_filter() {
    let entries = vec![
        dir("C:\\T"),
        file("C:\\T\\a.bin", 100, Some(5)),
        file("C:\\T\\b.bin", 250, None),
        dir("C:\\T\\sub"),
        file("C:\\T\\sub\\c.bin", 50, Some(9)),
    ];
    let scan = scan_category(&def(CategoryKind::Standard), &entries, 1_000_000);
    assert_eq!(scan.size_bytes, 400);
    assert_eq!(scan.file_count, 3);
}

#[test]
fn scan_with_age_filter_counts_only_strictly_older_files() {
    let now = 100 * DAY_MS;
    let cutoff = 70 * DAY_MS;
    let entries = vec![
        file("C:\\T\\old.bin", 10, Some(cutoff - 1)),
        file("C:\\T\\at_cutoff.bin", 20, Some(cutoff)),
        file("C:\\T\\new.bin", 40, Some(cutoff + 1)),
        file("C:\\T\\unknown.bin", 80, None),
    ];
    let scan = scan_category(&def(CategoryKind::DownloadsOlderThan { days: 30 }), &entries, now);
    // Exactly-at-cutoff is excluded (strict <), and an unreadable time never
    // matches.
    assert_eq!(scan.size_bytes, 10);
    assert_eq!(scan.file_count, 1);
}

#[test]
fn scan_totals_saturate_instead_of_overflowing() {
    let entries = vec![
        file("C:\\T\\a.bin", u64::MAX, Some(1)),
        file("C:\\T\\b.bin", u64::MAX, Some(1)),
    ];
    let scan = scan_category(&def(CategoryKind::Standard), &entries, 0);
    assert_eq!(scan.size_bytes, u64::MAX);
    assert_eq!(scan.file_count, 2);
}

#[test]
fn scan_rows_report_each_category() {
    let catalog = vec![def(CategoryKind::Standard)];
    let snapshots = vec![vec![file("C:\\T\\a.bin", 7, Some(1))]];
    let rows = scan_cleanup_items_sync(&catalog, &snapshots, 0);
    assert_eq!(rows.len(), 1);
    assert_eq!(rows[0].id, "temp_files");
    assert_eq!(rows[0].title, "Temporary files");
    assert_eq!(rows[0].size_bytes, 7);
    assert_eq!(rows[0].file_count, 1);
}

#[test]
fn listing_returns_matching_files_in_walk_order() {
    let entries = vec![
        dir("C:\\T"),
        file("C:\\T\\a.bin", 1, Some(10)),
        file("C:\\T\\b.bin", 2, Some(20)),
    ];
    let r = list_category_items_for(&def(CategoryKind::Standard), &entries, 0, 10);
    assert!(!r.has_more);
    assert_eq!(r.items.len(), 2);
    assert_eq!(r.items[0].path, "C:\\T\\a.bin");
    assert_eq!(r.items[0].size_bytes, 1);
    assert_eq!(r.items[0].modified_ms, Some(10));
    assert_eq!(r.items[1].path, "C:\\T\\b.bin");
}

#[test]
fn listing_stops_at_the_limit_and_reports_more() {
    let entries = vec![
        file("C:\\T\\a.bin", 1, Some(10)),
        file("C:\\T\\b.bin", 2, Some(20)),
        file("C:\\T\\c.bin", 3, Some(30)),
    ];
    let r = list_category_items_for(&def(CategoryKind::Standard), &entries, 0, 2);
    assert!(r.has_more);
    assert_eq!(r.items.len(), 2);
    assert_eq!(r.items[1].path, "C:\\T\\b.bin");
}

#[test]
fn listing_exactly_at_the_limit_has_no_more() {
    let entries = vec![file("C:\\T\\a.bin", 1, Some(10)), file("C:\\T\\b.bin", 2, Some(20))];
    let r = list_category_items_for(&def(CategoryKind::Standard), &entries, 0, 2);
    assert!(!r.has_more);
    assert_eq!(r.items.len(), 2);
}

#[test]
fn listing_an_unknown_category_fails() {
    let catalog = vec![def(CategoryKind::Standard)];
    let err = list_category_items_sync(&catalog, &String::from("nope"), &vec![], 0, 10);
    assert_eq!(err.err().unwrap(), "Unknown cleanup category.");
    let ok = list_category_items_sync(&catalog, &String::from("temp_files"), &vec![], 0, 10);
    assert!(ok.is_ok());
}

#[test]
fn windows_gate_reports_the_platform_error() {
    assert!(ensure_windows(true).is_ok());
    assert_eq!(ensure_windows(false).err().unwrap(), "This app currently supports Windows only.");
}

#[test]
fn hibernation_state_follows_the_file_check() {
    let on = hibernation_info(&Some(String::from("C:")), FileCheck::Present { size: 512 }).unwrap();
    assert!(on.enabled);
    assert_eq!(on.size_bytes, 512);
    assert_eq!(on.path, "C:\\hiberfil.sys");
    let off = hibernation_info(&None, FileCheck::Absent).unwrap();
    assert!(!off.enabled);
    assert_eq!(off.size_bytes, 0);
    let err = hibernation_info(&None, FileCheck::Failed(String::from("denied")));
    assert_eq!(err.err().unwrap(), "denied");
}

#[test]
fn disk_usage_never_goes_negative() {
    assert_eq!(disk_usage(100, 30), 70);
    assert_eq!(disk_usage(30, 100), 0);
}

#[test]
fn empty_walks_scan_and_list_to_nothing() {
    let r = scan_category(&def(CategoryKind::Standard), &vec![], 0);
    assert_eq!(r.size_bytes, 0);
    assert_eq!(r.file_count, 0);
    let l = list_category_items_for(&def(CategoryKind::Standard), &vec![], 0, 10);
    assert!(l.items.is_empty());
    assert!(!l.has_more);
}
