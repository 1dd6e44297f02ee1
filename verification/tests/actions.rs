use storage_cleaner::clean::{default_targets, paths_equal, CleanTarget};
use storage_cleaner::config::{config_location, snapshot_dir, Config};
use storage_cleaner::groups::{add_category, add_text, sort_by_total};
use storage_cleaner::scanner::FileCategory;
use storage_cleaner::selection::{highest_first, selected_paths, without_selected};

fn targets(v: Vec<CleanTarget>) -> Vec<(String, String)> {
    v.into_iter().map(|t| {
        assert!(t.size.is_none());
        (t.path, t.label)
    }).collect()
}

#[test]
fn selection_highest_first() {
    assert_eq!(highest_first(&vec![2, 9, 0, 5]), vec![9, 5, 2, 0]);
    assert_eq!(highest_first(&vec![]), Vec::<usize>::new());
}

#[test]
fn selection_paths_to_delete() {
    let paths: Vec<String> = vec!["a".into(), "b".into(), "c".into(), "d".into()];
    assert_eq!(selected_paths(&paths, &vec![0, 2, 7]), vec!["c".to_string(), "a".to_string()]);
}

#[test]
fn selection_rows_left_after_delete() {
    let items = vec!["a", "b", "c", "d", "e"];
    assert_eq!(without_selected(items, &vec![3, 0, 9]), vec!["b", "c", "e"]);
    assert_eq!(without_selected(vec![1, 2], &vec![]), vec![1, 2]);
}

#[test]
fn quick_clean_targets_windows() {
    let t = targets(default_targets(true, Some("C:\\Users\\a\\AppData\\Local\\Temp".into()), Some("C:/Users/a/AppData/Local/Temp/".into())));
    assert_eq!(
        t,
        vec![
            ("C:\\Users\\a\\AppData\\Local\\Temp".to_string(), "User Temp (%TEMP%)".to_string()),
            ("C:\\Windows\\Temp".to_string(), "Windows Temp (may need admin)".to_string()),
            ("C:\\Windows\\SoftwareDistribution\\Download".to_string(), "Windows Update cache (requires admin)".to_string()),
        ]
    );
    let u = targets(default_targets(true, None, Some("D:\\tmp".into())));
    assert_eq!(u[0], ("D:\\tmp".to_string(), "User TMP (%TMP%)".to_string()));
    assert_eq!(u.len(), 3);
    let w = targets(default_targets(true, Some("D:\\t1".into()), Some("D:\\t2".into())));
    assert_eq!(w.len(), 4);
}

#[test]
fn quick_clean_targets_elsewhere() {
    let t = targets(default_targets(false, Some("/x".into()), None));
    assert_eq!(t, vec![("/tmp".to_string(), "System temp".to_string())]);
}

#[test]
fn same_paths_by_components() {
    assert!(paths_equal("C:\\a\\b", "C:/a//b/", '\\'));
    assert!(!paths_equal("C:\\a\\b", "C:\\a\\B", '\\'));
    assert!(!paths_equal("/a/b", "a/b", '/'));
    assert!(paths_equal("c:\\Temp", "C:\\Temp", '\\'));
}

#[test]
fn model_default() {
    let c = Config { openai_api_key: String::new(), openai_model: String::new() };
    assert_eq!(c.model(), "gpt-5-nano");
    let d = Config { openai_api_key: "k".into(), openai_model: "gpt-4o".into() };
    assert_eq!(d.model(), "gpt-4o");
}

#[test]
fn config_locations() {
    let (dir, file) = config_location(true, Some("C:\\Users\\a\\AppData\\Roaming".into()), None);
    assert_eq!(dir, "C:\\Users\\a\\AppData\\Roaming\\storage-cleaner");
    assert_eq!(file, "C:\\Users\\a\\AppData\\Roaming\\storage-cleaner\\config.json");
    let (dir, file) = config_location(true, None, Some("/home/u".into()));
    assert_eq!(dir, ".\\storage-cleaner");
    assert_eq!(file, ".\\storage-cleaner\\config.json");
    let (dir, file) = config_location(false, Some("C:\\x".into()), Some("/home/u".into()));
    assert_eq!(dir, "/home/u/.config/storage-cleaner");
    assert_eq!(file, "/home/u/.config/storage-cleaner/config.json");
    let (dir, _) = config_location(false, None, Some("/home/u/".into()));
    assert_eq!(dir, "/home/u//.config/storage-cleaner");
    let (dir, _) = config_location(false, None, None);
    assert_eq!(dir, "/.config/storage-cleaner");
    assert_eq!(snapshot_dir("/home/u/.config/storage-cleaner", false), "/home/u/.config/storage-cleaner/snapshots");
    assert_eq!(snapshot_dir("C:\\cfg", true), "C:\\cfg\\snapshots");
}

#[test]
fn group_counting_and_order() {
    let mut g: Vec<(String, u64, u64)> = Vec::new();
    add_text(&mut g, "zip".into(), 10);
    add_text(&mut g, "pdf".into(), 30);
    add_text(&mut g, "zip".into(), 5);
    assert_eq!(g, vec![("zip".to_string(), 15, 2), ("pdf".to_string(), 30, 1)]);
    let s = sort_by_total(g);
    assert_eq!(s, vec![("pdf".to_string(), 30, 1), ("zip".to_string(), 15, 2)]);
    let mut c: Vec<(FileCategory, u64, u64)> = Vec::new();
    add_category(&mut c, FileCategory::Media, 1);
    add_category(&mut c, FileCategory::Temp, 1);
    add_category(&mut c, FileCategory::Media, 2);
    assert_eq!(c, vec![(FileCategory::Media, 3, 2), (FileCategory::Temp, 1, 1)]);
    let ties = sort_by_total(vec![(1u8, 5u64, 1u64), (2, 9, 1), (3, 5, 1)]);
    assert_eq!(ties, vec![(2, 9, 1), (1, 5, 1), (3, 5, 1)]);
}

#[test]
fn delete_partition_counts() {
    let paths: Vec<String> = (0..10).map(|i| format!("p{}", i)).collect();
    let selected = vec![7, 2, 9, 0];
    let sent = selected_paths(&paths, &selected);
    let kept = without_selected(paths.clone(), &selected);
    assert_eq!(sent.len(), selected.len());
    assert_eq!(sent.len() + kept.len(), paths.len());
    for p in &paths {
        assert!(sent.contains(p) != kept.contains(p));
    }
}
