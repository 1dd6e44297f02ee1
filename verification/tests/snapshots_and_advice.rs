use storage_cleaner::analysis::{analysis_request, merge_suggestions, position_of_path, verdict_count};
use storage_cleaner::listing::{extension_is, newest_first, text_before};
use storage_cleaner::scanner::{FileCategory, FileEntry, ScanResult, Timestamp};
use storage_cleaner::snapshot::{verdict_text, AiSuggestion, AiVerdict, Snapshot};
use storage_cleaner::textmap::TextMap;

fn file(path: &str, size: u64) -> FileEntry {
    FileEntry {
        path: path.to_string(),
        size_bytes: size,
        extension: String::new(),
        last_modified: None,
        category: FileCategory::Other,
    }
}

fn result() -> ScanResult {
    ScanResult {
        drive: "C:\\".to_string(),
        entries: Vec::new(),
        by_extension: Vec::new(),
        by_folder: Vec::new(),
        by_category: Vec::new(),
        largest_files: vec![file("C:\\a.iso", 900), file("C:\\b.log", 400)],
        stale_files: Vec::new(),
        total_bytes: 5000,
    }
}

fn advice(path: &str, verdict: AiVerdict, reason: &str) -> AiSuggestion {
    AiSuggestion { path: path.to_string(), verdict, reason: reason.to_string() }
}

#[test]
fn verdict_labels() {
    assert_eq!(verdict_text(AiVerdict::SafeToDelete), "safe_to_delete");
    assert_eq!(verdict_text(AiVerdict::Review), "review");
    assert_eq!(verdict_text(AiVerdict::Keep), "keep");
}

#[test]
fn snapshot_of_a_scan() {
    let mut verdicts = TextMap::new();
    verdicts.insert("C:\\b.log".to_string(), AiVerdict::SafeToDelete);
    verdicts.insert("C:\\gone.tmp".to_string(), AiVerdict::Keep);
    let s = Snapshot::from_scan_result(&result(), &verdicts, Timestamp { secs: 1_704_164_645, nanos: 9 });
    assert_eq!(s.timestamp, "2024-01-02_03-04-05");
    assert_eq!(s.drive, "C:\\");
    assert_eq!(s.total_bytes, 5000);
    assert_eq!(s.file_count, 2);
    assert_eq!(s.largest_files[0].path, "C:\\a.iso");
    assert_eq!(s.largest_files[0].verdict, None);
    assert_eq!(s.largest_files[1].size_bytes, 400);
    assert_eq!(s.largest_files[1].verdict, Some("safe_to_delete".to_string()));
    assert_eq!(s.verdicts.len(), 2);
    assert_eq!(s.verdicts.get("C:\\gone.tmp"), Some(&"keep".to_string()));
    assert_eq!(s.file_name(), "snapshot_2024-01-02_03-04-05.json");
}

#[test]
fn listing_newest_first() {
    let names: Vec<String> = vec![
        "snapshot_2024-01-02_03-04-05.json".into(),
        "notes.txt".into(),
        "snapshot_2025-06-01_00-00-00.json".into(),
        ".json".into(),
        "snapshot_2023-12-31_23-59-59.json".into(),
        "a.JSON".into(),
    ];
    assert_eq!(
        newest_first(names),
        vec![
            "snapshot_2025-06-01_00-00-00.json".to_string(),
            "snapshot_2024-01-02_03-04-05.json".to_string(),
            "snapshot_2023-12-31_23-59-59.json".to_string(),
        ]
    );
}

#[test]
fn listing_ignores_folder_order() {
    let a: Vec<String> = vec!["b.json".into(), "a.json".into(), "c.json".into(), "ab.json".into()];
    let mut b = a.clone();
    b.reverse();
    assert_eq!(newest_first(a), newest_first(b));
}

#[test]
fn text_order() {
    let v = |s: &str| -> Vec<char> { s.chars().collect() };
    assert!(text_before(&v("a"), &v("b")));
    assert!(text_before(&v("ab"), &v("abc")));
    assert!(!text_before(&v("abc"), &v("ab")));
    assert!(!text_before(&v("x"), &v("x")));
    assert!(text_before(&v("Z"), &v("a")));
    assert!(extension_is(&v("x.tar.gz"), "gz"));
    assert!(!extension_is(&v("gz"), "gz"));
    assert!(!extension_is(&v(".gz"), "gz"));
    assert!(extension_is(&v("..gz"), "gz"));
}

#[test]
fn ai_request_after_scan() {
    let largest: Vec<FileEntry> = (0..60).map(|i| file(&format!("f{}", i), 1000 - i)).collect();
    let r = analysis_request("sk", false, &largest).unwrap();
    assert_eq!(r.len(), 50);
    assert_eq!(r[0], ("f0".to_string(), 1000));
    assert_eq!(r[49], ("f49".to_string(), 951));
    assert!(analysis_request("", false, &largest).is_none());
    assert!(analysis_request("sk", true, &largest).is_none());
    assert!(analysis_request("sk", false, &Vec::new()).is_none());
    assert_eq!(analysis_request("sk", false, &largest[..3].to_vec()).unwrap().len(), 3);
}

#[test]
fn advice_merged_and_counted() {
    let mut m: TextMap<AiSuggestion> = TextMap::new();
    merge_suggestions(
        &mut m,
        vec![
            advice("a", AiVerdict::SafeToDelete, "cache"),
            advice("b", AiVerdict::Review, "?"),
            advice("c", AiVerdict::SafeToDelete, "temp"),
        ],
    );
    merge_suggestions(&mut m, vec![advice("c", AiVerdict::Keep, "needed")]);
    assert_eq!(m.len(), 3);
    assert_eq!(m.get("c").unwrap().reason, "needed");
    assert_eq!(verdict_count(&m, AiVerdict::SafeToDelete), 1);
    assert_eq!(verdict_count(&m, AiVerdict::Review), 1);
    assert_eq!(verdict_count(&m, AiVerdict::Keep), 1);
}

#[test]
fn advice_rows() {
    let files = vec![file("x", 1), file("y", 2), file("x", 3)];
    assert_eq!(position_of_path(&files, "x"), Some(0));
    assert_eq!(position_of_path(&files, "y"), Some(1));
    assert_eq!(position_of_path(&files, "z"), None);
}
