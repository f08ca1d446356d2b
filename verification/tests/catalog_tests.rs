use diskclean::catalog::build_categories;
use diskclean::catalog::cutoff_time;
use diskclean::catalog::find_category;
use diskclean::catalog::is_within_roots;
use diskclean::catalog::system_drive_mount;
use diskclean::catalog::CategoryDef;
use diskclean::catalog::CategoryKind;
use diskclean::catalog::EnvInfo;

fn full_env() -> EnvInfo {
    EnvInfo {
        system_drive: Some(String::from("C:")),
        system_root: Some(String::from("C:\\Windows")),
        user_profile: Some(String::from("C:\\Users\\alice")),
        local_app_data: Some(String::from("C:\\Users\\alice\\AppData\\Local")),
        temp_dir: String::from("C:\\Users\\alice\\AppData\\Local\\Temp"),
        volume_mounts: vec![String::from("C:\\"), String::from("D:\\")],
    }
}

#[test]
fn catalog_has_the_seven_categories_in_order() {
    let cats = build_categories(&full_env());
    let ids: Vec<&str> = cats.iter().map(|c| c.id.as_str()).collect();
    assert_eq!(
        ids,
        vec![
            "temp_files",
            "recycle_bin",
            "downloads_old",
            "system_cache",
            "browser_cache",
            "system_logs",
            "windows_old"
        ]
    );
}

#[test]
fn catalog_roots_follow_the_environment() {
    let cats = build_categories(&full_env());
    assert_eq!(
        cats[0].roots,
        vec![
            String::from("C:\\Windows\\Temp"),
            String::from("C:\\Users\\alice\\AppData\\Local\\Temp"),
        ]
    );
    assert_eq!(
        cats[1].roots,
        vec![String::from("C:\\$Recycle.Bin"), String::from("D:\\$Recycle.Bin")]
    );
    assert_eq!(cats[2].roots, vec![String::from("C:\\Users\\alice\\Downloads")]);
    assert_eq!(
        cats[3].roots,
        vec![
            String::from("C:\\Windows\\SoftwareDistribution\\Download"),
            String::from("C:\\Windows\\SoftwareDistribution\\DeliveryOptimization\\Cache"),
        ]
    );
    assert_eq!(cats[4].roots.len(), 5);
    assert_eq!(
        cats[4].roots[0],
        String::from("C:\\Users\\alice\\AppData\\Local\\Microsoft\\Windows\\INetCache")
    );
    assert_eq!(cats[6].roots, vec![String::from("C:\\Windows.old")]);
}

#[test]
fn catalog_kinds_and_flags() {
    let cats = build_categories(&full_env());
    assert!(matches!(cats[0].kind, CategoryKind::Standard));
    assert!(matches!(cats[2].kind, CategoryKind::DownloadsOlderThan { days: 30 }));
    assert!(cats[0].cleanup_dirs);
    assert!(!cats[2].cleanup_dirs);
    assert!(cats[4].cleanup_dirs);
}

#[test]
fn missing_environment_values_fall_back_or_drop_roots() {
    let env = EnvInfo {
        system_drive: None,
        system_root: None,
        user_profile: None,
        local_app_data: None,
        temp_dir: String::from("C:\\Tmp"),
        volume_mounts: vec![],
    };
    let cats = build_categories(&env);
    // The system root defaults under the default drive.
    assert_eq!(cats[0].roots, vec![String::from("C:\\Windows\\Temp"), String::from("C:\\Tmp")]);
    // With no profile there is no downloads root; with no local app data no
    // browser roots.
    assert!(cats[2].roots.is_empty());
    assert!(cats[4].roots.is_empty());
    // With no detected volume the recycle root falls back to the drive.
    assert_eq!(cats[1].roots, vec![String::from("C:\\$Recycle.Bin")]);
}

#[test]
fn catalog_roots_are_deduplicated_by_key() {
    let mut env = full_env();
    env.system_root = Some(String::from("C:\\USERS\\ALICE\\APPDATA\\LOCAL"));
    // The temp category would get "...\Local\Temp" twice (from the system
    // root and from the temp dir); only the first survives.
    let cats = build_categories(&env);
    assert_eq!(cats[0].roots, vec![String::from("C:\\USERS\\ALICE\\APPDATA\\LOCAL\\Temp")]);
}

#[test]
fn find_category_matches_by_id() {
    let cats = build_categories(&full_env());
    let def = find_category(&cats, &String::from("browser_cache")).unwrap();
    assert_eq!(def.id, "browser_cache");
    assert!(find_category(&cats, &String::from("no_such")).is_none());
}

#[test]
fn cutoff_is_none_without_a_time_filter() {
    assert_eq!(cutoff_time(&CategoryKind::Standard, 123456), None);
}

#[test]
fn cutoff_subtracts_whole_days_in_milliseconds() {
    let now: i64 = 100 * 86_400_000;
    let cut = cutoff_time(&CategoryKind::DownloadsOlderThan { days: 30 }, now).unwrap();
    assert_eq!(cut, 70 * 86_400_000);
}

#[test]
fn cutoff_clamps_on_underflow() {
    let cut = cutoff_time(&CategoryKind::DownloadsOlderThan { days: u64::MAX }, 0).unwrap();
    assert_eq!(cut, i64::MIN);
}

#[test]
fn within_roots_checks_every_root() {
    let def = CategoryDef {
        id: String::from("t"),
        title: String::from("t"),
        description: String::from("t"),
        kind: CategoryKind::Standard,
        roots: vec![String::from("C:\\A"), String::from("C:\\B\\f.txt")],
        cleanup_dirs: false,
    };
    let flags = vec![false, true];
    assert!(is_within_roots(&def, &flags, &String::from("c:/a/x.bin")));
    assert!(is_within_roots(&def, &flags, &String::from("C:\\B\\F.TXT")));
    assert!(!is_within_roots(&def, &flags, &String::from("C:\\B\\other.txt")));
    assert!(!is_within_roots(&def, &flags, &String::from("D:\\A\\x.bin")));
}

#[test]
fn system_drive_mount_appends_a_backslash() {
    assert_eq!(system_drive_mount(&Some(String::from("D:"))), "D:\\");
    assert_eq!(system_drive_mount(&None), "C:\\");
}
