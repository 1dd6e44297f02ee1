use storage_cleaner::ipc::{
    category_from_name, category_wire_name, drive_root_text, message_of_line, scan_replies, FileEntryWire,
    Response, ServiceScan, ServiceStep, PROGRESS_EVERY,
};
use storage_cleaner::scanner::{FileCategory, FileEntry, Timestamp};

const ALL: [FileCategory; 8] = [
    FileCategory::Documents,
    FileCategory::Media,
    FileCategory::Archives,
    FileCategory::Executables,
    FileCategory::System,
    FileCategory::Temp,
    FileCategory::DevBuild,
    FileCategory::Other,
];

fn wire(path: &str, secs: Option<i64>, category: &str) -> FileEntryWire {
    FileEntryWire {
        path: path.to_string(),
        size_bytes: 12,
        extension: "txt".to_string(),
        last_modified: secs,
        category: category.to_string(),
    }
}

#[test]
fn category_names_round_trip() {
    for c in ALL {
        assert_eq!(category_from_name(&category_wire_name(c)), c);
        assert_eq!(category_wire_name(c), format!("{:?}", c));
    }
    assert_eq!(category_from_name("Dev/Build"), FileCategory::Other);
    assert_eq!(category_from_name(""), FileCategory::Other);
}

#[test]
fn entries_travel_whole_seconds() {
    let e = FileEntry {
        path: "C:\\a.txt".to_string(),
        size_bytes: 99,
        extension: "txt".to_string(),
        last_modified: Some(Timestamp { secs: 1_700_000_000, nanos: 123 }),
        category: FileCategory::Documents,
    };
    let w = FileEntryWire::from_entry(&e);
    assert_eq!(w.last_modified, Some(1_700_000_000));
    assert_eq!(w.category, "Documents");
    let back = w.to_entry();
    assert_eq!(back.path, e.path);
    assert_eq!(back.size_bytes, 99);
    assert_eq!(back.category, FileCategory::Documents);
    assert_eq!(back.last_modified, Some(Timestamp { secs: 1_700_000_000, nanos: 0 }));
    assert_eq!(wire("x", Some(i64::MAX), "Nope").to_entry().last_modified, None);
    assert_eq!(wire("x", Some(i64::MAX), "Nope").to_entry().category, FileCategory::Other);
}

#[test]
fn received_lines() {
    assert_eq!(message_of_line("{\"Done\":null}\n"), Some("{\"Done\":null}".to_string()));
    assert_eq!(message_of_line("  \r\n"), None);
    assert_eq!(message_of_line(""), None);
}

#[test]
fn drive_roots() {
    assert_eq!(drive_root_text('C'), "C:\\");
}

#[test]
fn client_steps() {
    let mut s = ServiceScan::new();
    assert!(matches!(s.step(Response::Accepted), ServiceStep::Continue(None)));
    assert!(matches!(s.step(Response::File(wire("a", None, "Media"))), ServiceStep::Continue(None)));
    assert_eq!(s.entries.len(), 1);
    assert_eq!(s.entries[0].category, FileCategory::Media);
    assert!(matches!(s.step(Response::Done), ServiceStep::Finished));
    assert!(matches!(s.step(Response::Error("x".to_string())), ServiceStep::Failed));
    assert_eq!(s.entries.len(), 1);
}

#[test]
fn client_reports_progress() {
    let mut s = ServiceScan::new();
    let mut reports = Vec::new();
    for i in 0..PROGRESS_EVERY * 2 {
        if let ServiceStep::Continue(Some(n)) = s.step(Response::File(wire(&i.to_string(), None, "Other"))) {
            reports.push(n);
        }
    }
    assert_eq!(reports, vec![PROGRESS_EVERY as u64, 2 * PROGRESS_EVERY as u64]);
}

#[test]
fn service_replies() {
    let e = FileEntry {
        path: "C:\\a".to_string(),
        size_bytes: 1,
        extension: String::new(),
        last_modified: None,
        category: FileCategory::Temp,
    };
    let r = scan_replies(Some(vec![e.duplicate(), e]));
    assert_eq!(r.len(), 3);
    assert!(matches!(&r[0], Response::File(w) if w.path == "C:\\a" && w.category == "Temp"));
    assert!(matches!(r[2], Response::Done));
    let f = scan_replies(None);
    assert_eq!(f.len(), 1);
    assert!(matches!(&f[0], Response::Error(m) if m == "MFT scan failed"));
    let g = scan_replies(Some(Vec::new()));
    assert!(matches!(g[..], [Response::Done]));
}

#[test]
fn service_scan_delivers_found_files() {
    let found: Vec<FileEntry> = (0..5)
        .map(|i| FileEntry {
            path: format!("C:\\f{}", i),
            size_bytes: i,
            extension: "log".to_string(),
            last_modified: Some(Timestamp { secs: 1_000 + i as i64, nanos: 77 }),
            category: FileCategory::Temp,
        })
        .collect();
    let replies = scan_replies(Some(found.iter().map(|e| e.duplicate()).collect()));
    let mut client = ServiceScan::new();
    let mut finished = false;
    for r in replies {
        if let ServiceStep::Finished = client.step(r) {
            finished = true;
        }
    }
    assert!(finished);
    assert_eq!(client.entries.len(), found.len());
    for (got, want) in client.entries.iter().zip(found.iter()) {
        assert_eq!(got.path, want.path);
        assert_eq!(got.size_bytes, want.size_bytes);
        assert_eq!(got.extension, want.extension);
        assert_eq!(got.category, want.category);
        assert_eq!(got.last_modified, Some(Timestamp { secs: want.last_modified.unwrap().secs, nanos: 0 }));
    }
}
