use storage_cleaner::prefetch::PrefetchIndex;
use storage_cleaner::scanner::{
    classify_file, duplicate_entries, exe_candidate, executable_entry, get_drive_letter,
    is_exe_extension, keep_unused, scan_big_files, scanned_entry, should_skip, should_skip_exe_path,
    ExeEntry, FileCategory, FileEntry, ScanResult, ScanState, Timestamp,
};

fn entry(path: &str, size: u64) -> FileEntry {
    FileEntry {
        path: path.to_string(),
        size_bytes: size,
        extension: String::new(),
        last_modified: None,
        category: FileCategory::Other,
    }
}

fn exe(path: &str, last_run: Option<i64>) -> ExeEntry {
    ExeEntry {
        path: path.to_string(),
        size_bytes: 10,
        last_modified: None,
        last_run: last_run.map(|s| Timestamp { secs: s, nanos: 0 }),
    }
}

#[test]
fn category_labels() {
    assert_eq!(FileCategory::Documents.as_str(), "Documents");
    assert_eq!(FileCategory::Media.as_str(), "Media");
    assert_eq!(FileCategory::Archives.as_str(), "Archives");
    assert_eq!(FileCategory::Executables.as_str(), "Executables");
    assert_eq!(FileCategory::System.as_str(), "System");
    assert_eq!(FileCategory::Temp.as_str(), "Temp");
    assert_eq!(FileCategory::DevBuild.as_str(), "Dev/Build");
    assert_eq!(FileCategory::Other.as_str(), "Other");
}

#[test]
fn classify_by_location() {
    assert_eq!(classify_file("C:\\Users\\a\\AppData\\Local\\Temp\\x.pdf", "pdf"), FileCategory::Temp);
    assert_eq!(classify_file("/var/TEMP/report.pdf", "pdf"), FileCategory::Temp);
    assert_eq!(classify_file("C:\\Stuff\\Cache\\blob.bin", "bin"), FileCategory::Temp);
    assert_eq!(classify_file("C:\\Windows\\System32\\kernel32.dll", "dll"), FileCategory::System);
    assert_eq!(classify_file("C:\\Program Files (x86)\\App\\app.exe", "exe"), FileCategory::System);
    assert_eq!(classify_file("C:\\ProgramData\\x\\y.txt", "txt"), FileCategory::System);
    assert_eq!(classify_file("D:\\code\\proj\\node_modules\\m\\i.js", "js"), FileCategory::DevBuild);
    assert_eq!(classify_file("D:\\code\\proj\\target\\debug\\a.exe", "exe"), FileCategory::DevBuild);
    assert_eq!(classify_file("D:\\code\\.git\\objects\\pack.zip", "zip"), FileCategory::DevBuild);
}

#[test]
fn classify_by_extension() {
    assert_eq!(classify_file("D:\\docs\\a.PDF", "PDF"), FileCategory::Documents);
    assert_eq!(classify_file("D:\\docs\\notes.txt", "txt"), FileCategory::Documents);
    assert_eq!(classify_file("D:\\pics\\cat.JpEg", "JpEg"), FileCategory::Media);
    assert_eq!(classify_file("D:\\music\\song.flac", "flac"), FileCategory::Media);
    assert_eq!(classify_file("D:\\dl\\a.7z", "7z"), FileCategory::Archives);
    assert_eq!(classify_file("D:\\dl\\disk.iso", "iso"), FileCategory::Archives);
    assert_eq!(classify_file("D:\\dl\\setup.msi", "msi"), FileCategory::Executables);
    assert_eq!(classify_file("D:\\dl\\readme", ""), FileCategory::Other);
    assert_eq!(classify_file("D:\\dl\\data.xyz", "xyz"), FileCategory::Other);
    // Forward slashes only count for the temp folder.
    assert_eq!(classify_file("/home/u/windows/a.txt", "txt"), FileCategory::Documents);
}

#[test]
fn skip_system_locations() {
    assert!(should_skip("C:\\$RECYCLE.BIN\\S-1\\a.txt", '\\'));
    assert!(should_skip("C:\\System Volume Information\\x", '\\'));
    assert!(should_skip("C:\\pagefile.sys", '\\'));
    assert!(should_skip("/mnt/c/hiberfil.sys", '/'));
    assert!(!should_skip("C:\\Users\\pagefile.sys.bak", '\\'));
    assert!(!should_skip("C:\\Users\\a\\file.txt", '\\'));
}

#[test]
fn skip_program_folders_for_executables() {
    assert!(should_skip_exe_path("C:\\Windows\\notepad.exe", '\\'));
    assert!(should_skip_exe_path("C:\\Program Files\\App\\app.exe", '\\'));
    assert!(should_skip_exe_path("C:\\Program Files (x86)\\App\\app.exe", '\\'));
    assert!(!should_skip_exe_path("C:\\Games\\Windowsy\\game.exe", '\\'));
    assert!(!should_skip_exe_path("C:\\windows\\notepad.exe", '\\'));
}

#[test]
fn exe_extension_any_case() {
    assert!(is_exe_extension("exe"));
    assert!(is_exe_extension("EXE"));
    assert!(is_exe_extension("ExE"));
    assert!(!is_exe_extension("exes"));
    assert!(!is_exe_extension("dll"));
    assert!(!is_exe_extension(""));
}

#[test]
fn exe_candidates() {
    assert!(exe_candidate("D:\\Tools\\tool.exe", "exe", '\\'));
    assert!(!exe_candidate("D:\\Tools\\tool.dll", "dll", '\\'));
    assert!(!exe_candidate("C:\\Windows\\tool.exe", "exe", '\\'));
    assert!(!exe_candidate("C:\\$RECYCLE.BIN\\tool.exe", "exe", '\\'));
}

#[test]
fn drive_letters() {
    assert_eq!(get_drive_letter("C:\\"), Some('C'));
    assert_eq!(get_drive_letter("D:"), Some('D'));
    assert_eq!(get_drive_letter("E:/"), Some('E'));
    assert_eq!(get_drive_letter("C:\\Users"), None);
    assert_eq!(get_drive_letter("/"), None);
    assert_eq!(get_drive_letter(""), None);
}

#[test]
fn big_files_filter_largest() {
    let result = ScanResult {
        drive: "C:\\".to_string(),
        entries: Vec::new(),
        by_extension: Vec::new(),
        by_folder: Vec::new(),
        by_category: Vec::new(),
        largest_files: vec![entry("a", 300 * 1048576), entry("b", 50 * 1048576), entry("c", 50 * 1048576 - 1)],
        stale_files: Vec::new(),
        total_bytes: 0,
    };
    let big = scan_big_files(Some(result), 50);
    let got: Vec<(String, u64)> = big.into_iter().map(|b| (b.path, b.size_bytes)).collect();
    assert_eq!(got, vec![("a".to_string(), 300 * 1048576), ("b".to_string(), 50 * 1048576)]);
    assert!(scan_big_files(None, 1).is_empty());
}

#[test]
fn scanned_entry_fields() {
    let e = scanned_entry("D:\\music\\a.MP3".to_string(), 42, "MP3".to_string(), Some((1_700_000_000, 5)));
    assert_eq!(e.path, "D:\\music\\a.MP3");
    assert_eq!(e.size_bytes, 42);
    assert_eq!(e.extension, "MP3");
    assert_eq!(e.category, FileCategory::Media);
    assert_eq!(e.last_modified, Some(Timestamp { secs: 1_700_000_000, nanos: 5 }));
    let f = scanned_entry("x".to_string(), 1, String::new(), None);
    assert_eq!(f.last_modified, None);
    assert_eq!(f.category, FileCategory::Other);
    // Nanoseconds beyond a leap second are not an instant.
    let g = scanned_entry("x".to_string(), 1, String::new(), Some((0, 2_000_000_000)));
    assert_eq!(g.last_modified, None);
}

#[test]
fn entries_are_copied() {
    let v = vec![entry("a", 1), entry("b", 2)];
    let w = duplicate_entries(&v);
    assert_eq!(w.len(), 2);
    assert_eq!(w[0].path, "a");
    assert_eq!(w[1].size_bytes, 2);
}

#[test]
fn executable_last_run_from_prefetch() {
    let mut index = PrefetchIndex::new();
    index.insert("NOTEPAD".to_string(), Timestamp { secs: 100, nanos: 0 });
    let e = executable_entry("D:\\x\\notepad.exe".to_string(), 7, None, "notepad", &index);
    assert_eq!(e.last_run, Some(Timestamp { secs: 100, nanos: 0 }));
    assert_eq!(e.size_bytes, 7);
    let f = executable_entry("D:\\x\\calc.exe".to_string(), 7, None, "calc", &index);
    assert_eq!(f.last_run, None);
}

#[test]
fn unused_keeps_never_run_and_old() {
    let now = Timestamp { secs: 1_000_000, nanos: 0 };
    let entries = vec![exe("never", None), exe("old", Some(1_000_000 - 91 * 86400)), exe("recent", Some(999_000)), exe("edge", Some(1_000_000 - 90 * 86400))];
    let kept: Vec<String> = keep_unused(entries, now, 90).into_iter().map(|e| e.path).collect();
    assert_eq!(kept, vec!["never".to_string(), "old".to_string()]);
}

#[test]
fn scan_state_starts_empty() {
    let s = ScanState::default();
    assert_eq!(s.files_scanned, 0);
    assert!(!s.is_done);
    assert!(s.error.is_none());
}

#[test]
fn timestamps_compare() {
    let a = Timestamp { secs: 5, nanos: 10 };
    let b = Timestamp { secs: 5, nanos: 11 };
    let c = Timestamp { secs: 6, nanos: 0 };
    assert!(a.is_before(&b));
    assert!(b.is_before(&c));
    assert!(!b.is_before(&a));
    assert!(!a.is_before(&a));
}
