use diskclean::paths::contains_keyword;
use diskclean::paths::count_components;
use diskclean::paths::dedup_paths;
use diskclean::paths::file_name_of;
use diskclean::paths::find_suspicious_dir;
use diskclean::paths::is_within_root;
use diskclean::paths::normalize_exclusions;
use diskclean::paths::normalize_path;
use diskclean::paths::normalize_path_str;
use diskclean::paths::parent_of;
use diskclean::paths::path_eq_ignore_case;
use diskclean::paths::root_contains;
use diskclean::paths::suspicious_keywords;

#[test]
fn normalize_lowercases_and_unifies_separators() {
    assert_eq!(normalize_path_str("C:/Temp/X.TXT"), "c:\\temp\\x.txt");
    assert_eq!(normalize_path_str("C:\\Temp"), "c:\\temp");
    assert_eq!(normalize_path_str(""), "");
    assert_eq!(normalize_path(&String::from("D:/A/b")), "d:\\a\\b");
}

#[test]
fn containment_is_case_and_separator_insensitive() {
    // The example from the containment contract: mixed case and mixed
    // separators still count as inside the root.
    let root = String::from("C:\\Temp");
    let path = String::from("c:/temp/x.txt");
    assert!(is_within_root(&root, false, &path));
}

#[test]
fn containment_accepts_the_root_itself() {
    let root = String::from("C:\\Temp");
    assert!(is_within_root(&root, false, &String::from("c:\\TEMP")));
    assert!(root_contains(&root, false, &String::from("C:\\temp")));
}

#[test]
fn containment_rejects_outside_and_sibling_paths() {
    let root = String::from("C:\\Temp");
    assert!(!is_within_root(&root, false, &String::from("C:\\Temperature\\x.txt")));
    assert!(!is_within_root(&root, false, &String::from("D:\\Temp\\x.txt")));
    assert!(!root_contains(&root, false, &String::from("C:\\Windows")));
}

#[test]
fn a_file_root_contains_only_itself() {
    let root = String::from("C:\\T\\file.txt");
    assert!(is_within_root(&root, true, &String::from("c:/t/FILE.TXT")));
    assert!(!is_within_root(&root, true, &String::from("C:\\T\\file.txt\\x")));
}

#[test]
fn volume_root_containment_handles_trailing_backslash() {
    let root = String::from("C:\\");
    assert!(is_within_root(&root, false, &String::from("C:\\Users\\x.bin")));
    assert!(is_within_root(&root, false, &String::from("c:\\")));
    assert!(!is_within_root(&root, false, &String::from("D:\\x.bin")));
}

#[test]
fn path_equality_ignores_case_and_separators() {
    assert!(path_eq_ignore_case(&String::from("C:\\A/b"), &String::from("c:/a\\B")));
    assert!(!path_eq_ignore_case(&String::from("C:\\A"), &String::from("C:\\B")));
}

#[test]
fn keywords_match_case_insensitive_substrings() {
    let kw = suspicious_keywords();
    assert!(contains_keyword("C:\\Windows\\TEMP", &kw));
    assert!(contains_keyword("setup.LOG", &kw));
    assert!(contains_keyword("ShaderCache", &kw));
    assert!(contains_keyword("tmp1234", &kw));
    assert!(!contains_keyword("C:\\Users\\alice\\Documents", &kw));
}

#[test]
fn suspicious_dir_walks_up_to_the_nearest_keyword_name() {
    let kw = suspicious_keywords();
    let found = find_suspicious_dir(&String::from("C:\\Users\\a\\AppData\\Local\\Temp\\sub"), &kw);
    assert_eq!(found.unwrap(), "C:\\Users\\a\\AppData\\Local\\Temp");
    let found2 = find_suspicious_dir(&String::from("C:\\Users\\a\\AppData\\Local\\Temp"), &kw);
    assert_eq!(found2.unwrap(), "C:\\Users\\a\\AppData\\Local\\Temp");
    let none = find_suspicious_dir(&String::from("C:\\Users\\a\\Documents"), &kw);
    assert!(none.is_none());
}

#[test]
fn suspicious_dir_prefers_the_deepest_match() {
    let kw = suspicious_keywords();
    let found = find_suspicious_dir(&String::from("C:\\cache\\logs\\deep"), &kw);
    // "deep" has no keyword; the climb stops at the nearest ancestor whose
    // own name matches, which is "logs", not "cache".
    assert_eq!(found.unwrap(), "C:\\cache\\logs");
}

#[test]
fn parent_and_file_name_split_at_the_last_separator() {
    assert_eq!(file_name_of(&String::from("C:\\a\\b.txt")), "b.txt");
    assert_eq!(file_name_of(&String::from("noseps")), "noseps");
    assert_eq!(parent_of(&String::from("C:\\a\\b.txt")).unwrap(), "C:\\a");
    assert_eq!(parent_of(&String::from("C:\\a")).unwrap(), "C:");
    assert!(parent_of(&String::from("C:")).is_none());
}

#[test]
fn component_count_ignores_empty_segments() {
    assert_eq!(count_components(&String::from("C:\\a\\b")), 3);
    assert_eq!(count_components(&String::from("C:\\")), 1);
    assert_eq!(count_components(&String::from("")), 0);
    assert_eq!(count_components(&String::from("C:\\\\a")), 2);
}

#[test]
fn dedup_keeps_first_occurrence_of_each_key() {
    let out = dedup_paths(vec![
        String::from("C:\\A"),
        String::from("c:/a"),
        String::from("C:\\B"),
        String::from("C:\\a\\"),
    ]);
    assert_eq!(out, vec![String::from("C:\\A"), String::from("C:\\B"), String::from("C:\\a\\")]);
}

#[test]
fn exclusions_are_normalized_in_order() {
    let out = normalize_exclusions(&vec![String::from("C:/X"), String::from("C:\\Y")]);
    assert_eq!(out, vec![String::from("c:\\x"), String::from("c:\\y")]);
}
