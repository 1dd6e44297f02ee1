use std::collections::HashMap;
use storage_cleaner::mft::{
    file_paths, nt_time_to_timestamp, record_number, resolve_path, table_entry, MftCollector, ROOT_RECORD,
};
use storage_cleaner::scanner::{FileCategory, Timestamp};

fn table() -> MftCollector {
    let mut c = MftCollector::new();
    c.add_record(ROOT_RECORD, ROOT_RECORD, ".".to_string(), true);
    c.add_record(40, ROOT_RECORD, "Users".to_string(), true);
    c.add_record(41, 40, "alice".to_string(), true);
    c.add_record((3 << 48) | 90, 41, "notes.txt".to_string(), false);
    c.add_record(70, 0, "top.bin".to_string(), false);
    c.add_record(50, ROOT_RECORD, "$RECYCLE.BIN".to_string(), true);
    c.add_record(51, 50, "junk.dat".to_string(), false);
    c.add_record(60, 999, "orphan.dat".to_string(), false);
    c
}

#[test]
fn collector_takes_records() {
    let mut c = MftCollector::new();
    assert!(!c.add_record(1, 5, ".".to_string(), true));
    assert!(!c.add_record(1, 5, "..".to_string(), false));
    assert!(c.names.is_empty());
    assert!(c.add_record(2, 5, "dir".to_string(), true));
    assert!(!c.add_record(3, 2, "a".to_string(), false));
    assert_eq!(c.files, vec![3]);
    assert_eq!(c.count, 1);
    assert_eq!(c.names.get(&3), Some(&(2, "a".to_string())));
}

#[test]
fn collector_reports_every_fifty_thousand_files() {
    let mut c = MftCollector::new();
    let mut reports = 0;
    for i in 0..100_000u64 {
        if c.add_record(100 + i, 5, format!("f{}", i), false) {
            reports += 1;
        }
    }
    assert_eq!(reports, 2);
    assert_eq!(c.count, 100_000);
}

#[test]
fn paths_follow_parents() {
    let c = table();
    assert_eq!(resolve_path(&c.names, "C:\\", (3 << 48) | 90), Some("C:\\Users\\alice\\notes.txt".to_string()));
    assert_eq!(resolve_path(&c.names, "C:\\", 70), Some("C:\\top.bin".to_string()));
    assert_eq!(resolve_path(&c.names, "C:\\", ROOT_RECORD), Some("C:\\".to_string()));
    assert_eq!(resolve_path(&c.names, "C:\\", 60), None);
    assert_eq!(resolve_path(&c.names, "C:\\", 12345), None);
}

#[test]
fn parent_loops_have_no_path() {
    let mut names: HashMap<u64, (u64, String)> = HashMap::new();
    names.insert(10, (11, "a".to_string()));
    names.insert(11, (10, "b".to_string()));
    names.insert(12, (10, "c".to_string()));
    assert_eq!(resolve_path(&names, "C:\\", 12), None);
}

#[test]
fn files_in_record_order_without_skipped() {
    let c = table();
    let got = file_paths(&c, "C:\\");
    assert_eq!(
        got,
        vec![(70, "C:\\top.bin".to_string()), ((3 << 48) | 90, "C:\\Users\\alice\\notes.txt".to_string())]
    );
}

#[test]
fn record_numbers_drop_the_sequence() {
    assert_eq!(record_number((3 << 48) | 90), 90);
    assert_eq!(record_number(u64::MAX), 0x0000_FFFF_FFFF_FFFF);
}

#[test]
fn ntfs_times() {
    let base: u64 = 11_644_473_600 * 10_000_000;
    assert_eq!(nt_time_to_timestamp(base), Some(Timestamp { secs: 0, nanos: 0 }));
    assert_eq!(nt_time_to_timestamp(base + 19_999_999), Some(Timestamp { secs: 1, nanos: 0 }));
    assert_eq!(nt_time_to_timestamp(0), Some(Timestamp { secs: -11_644_473_600, nanos: 0 }));
    assert_eq!(nt_time_to_timestamp(u64::MAX), Some(Timestamp { secs: -11_644_473_600, nanos: 0 }));
    assert_eq!(nt_time_to_timestamp(0x8000_0000_0000_0000), Some(Timestamp { secs: -933_981_677_285, nanos: 0 }));
}

#[test]
fn table_entries() {
    let base: u64 = 11_644_473_600 * 10_000_000;
    let e = table_entry("C:\\Users\\a\\film.MKV".to_string(), 9, "MKV".to_string(), Some(base + 50_000_000));
    assert_eq!(e.category, FileCategory::Media);
    assert_eq!(e.last_modified, Some(Timestamp { secs: 5, nanos: 0 }));
    assert_eq!(e.size_bytes, 9);
    let f = table_entry("C:\\x".to_string(), 1, String::new(), None);
    assert_eq!(f.last_modified, None);
}
