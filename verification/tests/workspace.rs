use clawpier::error::{AppError, IoErrorKind};
use clawpier::logs::{
    config_dir_missing, crash_file_name, crash_report, export_logs, log_crash,
};
use clawpier::paths::{is_within, is_within_named};
use clawpier::workspace::{
    check_access, list_workspace_files, path_not_found, read_workspace_file, sort_entries,
    workspace_not_found, DirEntry, FileEntry, KeyedEntry,
};

fn path(parts: &[&str]) -> Vec<Vec<u8>> {
    parts.iter().map(|p| p.as_bytes().to_vec()).collect()
}

fn file(name: &str) -> DirEntry {
    DirEntry { name: name.to_string(), is_dir: false, is_file: true, len: name.len() as u64 }
}

fn dir(name: &str) -> DirEntry {
    DirEntry { name: name.to_string(), is_dir: true, is_file: false, len: 4096 }
}

#[test]
fn directories_come_first_then_names() {
    let entries =
        [file("b"), dir("Z"), file(".hidden"), file("A"), dir("y"), file("aa"), dir(".git"), file("É")];
    let names: Vec<String> =
        list_workspace_files(&entries, None).into_iter().map(|e| e.name).collect();
    assert_eq!(names, ["y", "Z", "A", "aa", "b", "É"]);
}

#[test]
fn equal_names_keep_their_order() {
    let entries = [file("readme"), file("README"), file("a"), file("ReadMe")];
    let names: Vec<String> =
        list_workspace_files(&entries, None).into_iter().map(|e| e.name).collect();
    assert_eq!(names, ["a", "readme", "README", "ReadMe"]);
}

#[test]
fn entries_carry_path_and_size() {
    let mut link = file("link");
    link.is_file = false;
    let listed = list_workspace_files(&[link, file("f"), dir("d")], Some("sub/dir"));
    assert_eq!(listed.len(), 3);
    assert_eq!((listed[0].path.as_str(), listed[0].is_dir, listed[0].size), ("sub/dir/d", true, None));
    assert_eq!((listed[1].path.as_str(), listed[1].is_dir, listed[1].size), ("sub/dir/f", false, Some(1)));
    assert_eq!((listed[2].path.as_str(), listed[2].size), ("sub/dir/link", None));
    assert_eq!(list_workspace_files(&[file("f")], None)[0].path, "f");
    assert_eq!(list_workspace_files(&[file("f")], Some(""))[0].path, "/f");
    assert!(list_workspace_files(&[], None).is_empty());
}

#[test]
fn order_agrees_with_that_of_strings() {
    let names = ["b", "B", "", "ab", "a", "ß", "ss", "İ", "i", "ΑΣ", "ας", "z", "10", "9", "_"];
    let entries: Vec<DirEntry> = names.iter().map(|n| file(n)).collect();
    let listed: Vec<String> =
        list_workspace_files(&entries, None).into_iter().map(|e| e.name).collect();
    let mut expected: Vec<String> = names.iter().map(|n| n.to_string()).collect();
    expected.sort_by(|a, b| a.to_lowercase().cmp(&b.to_lowercase()));
    assert_eq!(listed, expected);
}

#[test]
fn entries_are_sorted_by_the_given_keys() {
    let keyed = |key: &str, name: &str, is_dir: bool| KeyedEntry {
        key: key.to_string(),
        entry: FileEntry { name: name.to_string(), path: String::new(), is_dir, size: None },
    };
    let entries = vec![
        keyed("b", "1", false),
        keyed("a", "2", false),
        keyed("b", "3", true),
        keyed("ab", "4", false),
        keyed("a", "5", false),
        keyed("", "6", false),
    ];
    let names: Vec<String> = sort_entries(entries).into_iter().map(|e| e.name).collect();
    assert_eq!(names, ["3", "6", "2", "5", "4", "1"]);
}

#[test]
fn lying_in_a_directory_is_transitive() {
    let (outer, inner, deep) =
        (path(&["/", "a"]), path(&["/", "a", "b"]), path(&["/", "a", "b", "c"]));
    assert!(is_within(&deep, &inner) && is_within(&inner, &outer) && is_within(&deep, &outer));
}

#[test]
fn paths_are_compared_by_components() {
    let base = path(&["/", "home", "u"]);
    assert!(is_within(&base, &base));
    assert!(is_within(&path(&["/", "home", "u", "x", "y"]), &base));
    assert!(!is_within(&path(&["/", "home", "user"]), &base));
    assert!(!is_within(&path(&["/", "home"]), &base));
    assert!(is_within(&base, &[]));
    assert!(is_within_named(&path(&["/", "home", "u", ".ssh", "k"]), &base, b".ssh"));
    assert!(!is_within_named(&base, &base, b".ssh"));
}

fn io(e: AppError) -> (IoErrorKind, String) {
    match e {
        AppError::Io(kind, message) => (kind, message),
        other => panic!("{:?}", other),
    }
}

#[test]
fn paths_outside_of_the_workspace_are_refused() {
    let base = path(&["/", "w"]);
    assert!(check_access(&path(&["/", "w", "f"]), &base).is_ok());
    assert_eq!(
        io(check_access(&path(&["/", "etc"]), &base).unwrap_err()),
        (IoErrorKind::PermissionDenied, "Path traversal not allowed".to_string())
    );
    assert_eq!(
        io(read_workspace_file(&path(&["/", "etc"]), &base, 9999999).unwrap_err()).1,
        "Path traversal not allowed"
    );
}

#[test]
fn large_files_are_not_read() {
    let base = path(&["/", "w"]);
    let target = path(&["/", "w", "f"]);
    assert!(read_workspace_file(&target, &base, 1048576).is_ok());
    assert_eq!(
        io(read_workspace_file(&target, &base, 1048577).unwrap_err()),
        (IoErrorKind::Other, "File too large (max 1MB)".to_string())
    );
}

#[test]
fn missing_paths_are_reported() {
    assert_eq!(
        io(workspace_not_found("e")),
        (IoErrorKind::NotFound, "Workspace path not found: e".to_string())
    );
    assert_eq!(io(path_not_found("e")), (IoErrorKind::NotFound, "Path not found: e".to_string()));
}

#[test]
fn exports_stay_in_the_home_directory() {
    let home = path(&["/", "home", "u"]);
    let docs = path(&["/", "home", "u", "docs"]);
    assert!(export_logs(true, Some(&docs), Some(&home)).is_ok());
    assert!(export_logs(true, Some(&home), Some(&home)).is_ok());
    let message = |r: Result<(), AppError>| match r {
        Err(AppError::Validation(m)) => m,
        Err(AppError::Other(m)) => m,
        other => panic!("{:?}", other),
    };
    assert_eq!(message(export_logs(false, None, None)), "Invalid export path");
    assert_eq!(message(export_logs(true, None, None)), "Export directory does not exist");
    assert_eq!(message(export_logs(true, Some(&docs), None)), "Cannot determine home directory");
    assert_eq!(
        message(export_logs(true, Some(&path(&["/", "tmp"])), Some(&home))),
        "Export path must be within your home directory"
    );
    for name in [".ssh", ".gnupg"] {
        for dir in [path(&["/", "home", "u", name]), path(&["/", "home", "u", name, "deep"])] {
            assert_eq!(
                message(export_logs(true, Some(&dir), Some(&home))),
                "Cannot export to sensitive directory"
            );
        }
    }
    assert!(export_logs(true, Some(&path(&["/", "home", "u", "x", ".ssh"])), Some(&home)).is_ok());
}

#[test]
fn crashes_are_written_down() {
    assert_eq!(crash_file_name("20260102_030405"), "crash_20260102_030405.log");
    assert_eq!(
        crash_report("T", "m", "s1\ns2", "c"),
        "Crash Report - T\n\nMessage: m\n\nStack:\ns1\ns2\n\nComponent Stack:\nc\n"
    );
    match config_dir_missing() {
        AppError::Other(m) => assert_eq!(m, "Cannot find config directory"),
        other => panic!("{:?}", other),
    }
}

#[test]
fn crash_is_dated() {
    let (name, report) = log_crash("m", "s", "c");
    let stamp = name.strip_prefix("crash_").unwrap().strip_suffix(".log").unwrap();
    let digits: Vec<&str> = stamp.split('_').collect();
    assert_eq!(digits.len(), 2);
    assert!(digits[0].len() == 8 && digits[1].len() == 6, "{}", stamp);
    assert!(stamp.chars().all(|c| c.is_ascii_digit() || c == '_'));
    let rest = report.strip_prefix("Crash Report - ").unwrap();
    let (time, tail) = rest.split_once("\n\n").unwrap();
    assert_eq!(tail, "Message: m\n\nStack:\ns\n\nComponent Stack:\nc\n");
    let offset: Vec<char> = time.chars().rev().take(6).collect();
    assert!(offset[5] == '+' || offset[5] == '-', "{}", time);
    assert_eq!(offset[2], ':');
}
