use storage_cleaner::insights::{compute_insights, LARGEST_KEPT, STALE_KEPT};
use storage_cleaner::scanner::{FileCategory, FileEntry, Timestamp};

fn file(path: &str, size: u64, ext: &str, secs: Option<i64>, category: FileCategory) -> FileEntry {
    FileEntry {
        path: path.to_string(),
        size_bytes: size,
        extension: ext.to_string(),
        last_modified: secs.map(|s| Timestamp { secs: s, nanos: 0 }),
        category,
    }
}

const NOW: i64 = 1_700_000_000;

fn sample() -> Vec<FileEntry> {
    vec![
        file("C:\\Users\\a\\big.zip", 500, "zip", Some(0), FileCategory::Archives),
        file("C:\\Users\\b\\doc.pdf", 100, "pdf", Some(NOW), FileCategory::Documents),
        file("C:\\Games\\g.exe", 300, "exe", None, FileCategory::Executables),
        file("C:\\readme", 7, "", None, FileCategory::Other),
    ]
}

#[test]
fn insights_totals_and_groups() {
    let r = compute_insights(sample(), "C:\\".to_string(), Timestamp { secs: NOW, nanos: 0 }, '\\');
    assert_eq!(r.drive, "C:\\");
    assert_eq!(r.total_bytes, 907);
    let ext: Vec<(String, u64, u64)> =
        r.by_extension.iter().map(|s| (s.extension.clone(), s.total_bytes, s.file_count)).collect();
    assert_eq!(ext, vec![("zip".to_string(), 500, 1), ("exe".to_string(), 300, 1), ("pdf".to_string(), 100, 1)]);
    let folders: Vec<(String, u64, u64)> =
        r.by_folder.iter().map(|s| (s.path.clone(), s.total_bytes, s.file_count)).collect();
    assert_eq!(
        folders,
        vec![("C:\\Users".to_string(), 600, 2), ("C:\\Games".to_string(), 300, 1), ("C:\\".to_string(), 7, 1)]
    );
    let cats: Vec<(FileCategory, u64, u64)> =
        r.by_category.iter().map(|s| (s.category, s.total_bytes, s.file_count)).collect();
    assert_eq!(
        cats,
        vec![
            (FileCategory::Archives, 500, 1),
            (FileCategory::Executables, 300, 1),
            (FileCategory::Documents, 100, 1),
            (FileCategory::Other, 7, 1),
        ]
    );
}

#[test]
fn insights_largest_and_stale() {
    let r = compute_insights(sample(), "C:\\".to_string(), Timestamp { secs: NOW, nanos: 0 }, '\\');
    let largest: Vec<u64> = r.largest_files.iter().map(|e| e.size_bytes).collect();
    assert_eq!(largest, vec![500, 300, 100, 7]);
    let stale: Vec<String> = r.stale_files.iter().map(|e| e.path.clone()).collect();
    assert_eq!(
        stale,
        vec!["C:\\Users\\a\\big.zip".to_string(), "C:\\Games\\g.exe".to_string(), "C:\\readme".to_string()]
    );
    assert_eq!(r.entries.len(), r.largest_files.len());
}

#[test]
fn insights_group_sums_cover_scan() {
    let mut v = Vec::new();
    for i in 0..40u64 {
        let ext = if i % 3 == 0 { "" } else if i % 3 == 1 { "log" } else { "dat" };
        v.push(file(&format!("D:\\f{}\\x{}", i % 5, i), i * 11 + 1, ext, None, FileCategory::Other));
    }
    let total: u64 = v.iter().map(|e| e.size_bytes).sum();
    let unextended: u64 = v.iter().filter(|e| e.extension.is_empty()).map(|e| e.size_bytes).sum();
    let r = compute_insights(v, "D:\\".to_string(), Timestamp { secs: NOW, nanos: 0 }, '\\');
    assert_eq!(r.total_bytes, total);
    assert_eq!(r.by_folder.iter().map(|s| s.total_bytes).sum::<u64>(), total);
    assert_eq!(r.by_folder.iter().map(|s| s.file_count).sum::<u64>(), 40);
    assert_eq!(r.by_category.iter().map(|s| s.total_bytes).sum::<u64>(), total);
    assert_eq!(r.by_extension.iter().map(|s| s.total_bytes).sum::<u64>() + unextended, total);
    for w in r.by_folder.windows(2) {
        assert!(w[0].total_bytes >= w[1].total_bytes);
    }
}

#[test]
fn insights_keep_the_largest() {
    let mut v = Vec::new();
    for i in 0..700u64 {
        v.push(file(&format!("/data/f{}", i), (i * 7919) % 1000 + 1, "bin", None, FileCategory::Other));
    }
    let mut sizes: Vec<u64> = v.iter().map(|e| e.size_bytes).collect();
    sizes.sort_by(|a, b| b.cmp(a));
    let r = compute_insights(v, "/".to_string(), Timestamp { secs: NOW, nanos: 0 }, '/');
    assert_eq!(r.largest_files.len(), LARGEST_KEPT);
    assert_eq!(r.stale_files.len(), STALE_KEPT);
    let largest: Vec<u64> = r.largest_files.iter().map(|e| e.size_bytes).collect();
    assert_eq!(largest, sizes[..LARGEST_KEPT].to_vec());
    let stale: Vec<u64> = r.stale_files.iter().map(|e| e.size_bytes).collect();
    assert_eq!(stale, sizes[..STALE_KEPT].to_vec());
}

#[test]
fn insights_stale_cutoff_is_180_days() {
    let day = 86400;
    let v = vec![
        file("/a", 1, "", Some(NOW - 180 * day - 1), FileCategory::Other),
        file("/b", 2, "", Some(NOW - 180 * day), FileCategory::Other),
        file("/c", 3, "", Some(NOW - 179 * day), FileCategory::Other),
    ];
    let r = compute_insights(v, "/".to_string(), Timestamp { secs: NOW, nanos: 0 }, '/');
    let stale: Vec<String> = r.stale_files.iter().map(|e| e.path.clone()).collect();
    assert_eq!(stale, vec!["/a".to_string()]);
}
