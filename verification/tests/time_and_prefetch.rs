use storage_cleaner::prefetch::{is_prefetch_file, key_for_program, record_run, remove_all_text, PrefetchIndex};
use storage_cleaner::scanner::Timestamp;
use storage_cleaner::time::{day_text, days_earlier, stamp, filetime_to_timestamp, instant, timestamp_from_unix, WINDOWS_EPOCH_OFFSET};

const TICKS: u64 = 10_000_000;

#[test]
fn instants_chrono_represents() {
    assert_eq!(instant(0, 0), Some(Timestamp { secs: 0, nanos: 0 }));
    assert_eq!(instant(-1, 999_999_999), Some(Timestamp { secs: -1, nanos: 999_999_999 }));
    assert_eq!(instant(59, 1_999_999_999), Some(Timestamp { secs: 59, nanos: 1_999_999_999 }));
    assert_eq!(instant(0, 1_000_000_000), None);
    assert_eq!(instant(0, 2_000_000_000), None);
    assert_eq!(instant(i64::MAX, 0), None);
    assert_eq!(instant(i64::MIN, 0), None);
}

#[test]
fn unix_seconds_wrap_as_signed() {
    assert_eq!(timestamp_from_unix(1_700_000_000, 7), Some(Timestamp { secs: 1_700_000_000, nanos: 7 }));
    assert_eq!(timestamp_from_unix(u64::MAX, 0), Some(Timestamp { secs: -1, nanos: 0 }));
}

#[test]
fn filetimes_from_1601() {
    let ft = (WINDOWS_EPOCH_OFFSET as u64) * TICKS;
    assert_eq!(filetime_to_timestamp(ft), Some(Timestamp { secs: 0, nanos: 0 }));
    assert_eq!(filetime_to_timestamp(ft + 15), Some(Timestamp { secs: 0, nanos: 1500 }));
    assert_eq!(filetime_to_timestamp(0), Some(Timestamp { secs: -WINDOWS_EPOCH_OFFSET, nanos: 0 }));
}

#[test]
fn days_back() {
    let t = days_earlier(Timestamp { secs: 1_000_000, nanos: 3 }, 2);
    assert_eq!(t, Timestamp { secs: 1_000_000 - 2 * 86400, nanos: 3 });
}

#[test]
fn removing_patterns() {
    assert_eq!(remove_all_text("NOTEPAD.EXE", ".EXE"), "NOTEPAD");
    assert_eq!(remove_all_text("A.EXE.EXEB", ".EXE"), "AB");
    assert_eq!(remove_all_text("..EXEE", ".EXE"), ".E");
    assert_eq!(remove_all_text("abc", ""), "abc");
}

#[test]
fn program_keys() {
    assert_eq!(key_for_program("notepad.exe"), "NOTEPAD");
    assert_eq!(key_for_program("Setup.Exe.exe"), "SETUP");
    assert_eq!(key_for_program("straße.exe"), "STRASSE");
}

#[test]
fn prefetch_files_by_extension() {
    assert!(is_prefetch_file("NOTEPAD.EXE-1234.pf"));
    assert!(!is_prefetch_file("NOTEPAD.EXE-1234.PF"));
    assert!(!is_prefetch_file(".pf"));
    assert!(!is_prefetch_file("Layout.ini"));
}

#[test]
fn prefetch_index_keeps_last_record() {
    let mut index = PrefetchIndex::new();
    let base = (WINDOWS_EPOCH_OFFSET as u64) * TICKS;
    record_run(&mut index, "notepad.exe", base + 100 * TICKS);
    record_run(&mut index, "NOTEPAD.EXE", base + 200 * TICKS);
    record_run(&mut index, "calc.exe", u64::MAX);
    assert_eq!(index.len(), 2);
    assert_eq!(index.get("NOTEPAD"), Some(&Timestamp { secs: 200, nanos: 0 }));
    assert_eq!(index.get("CALC"), Some(&Timestamp { secs: 1_833_029_933_770, nanos: 955_161_500 }));
    assert_eq!(index.get("WORD"), None);
}

#[test]
fn instants_at_the_calendar_ends() {
    let first = -8_334_601_228_800i64;
    let last = 8_210_266_876_799i64;
    assert!(instant(first, 0).is_some());
    assert!(instant(first - 1, 999_999_999).is_none());
    assert!(instant(last, 999_999_999).is_some());
    assert!(instant(last, 1_999_999_999).is_some());
    assert!(instant(last + 1, 0).is_none());
    assert!(instant(-1, 1_500_000_000).is_some());
    assert!(instant(-2, 1_500_000_000).is_none());
}

#[test]
fn dates_as_text() {
    assert_eq!(day_text(Timestamp { secs: 0, nanos: 0 }), Some("1970-01-01".to_string()));
    assert_eq!(day_text(Timestamp { secs: 1_700_000_000, nanos: 5 }), Some("2023-11-14".to_string()));
    assert_eq!(day_text(Timestamp { secs: -1, nanos: 0 }), Some("1969-12-31".to_string()));
    assert_eq!(day_text(Timestamp { secs: 0, nanos: 2_000_000_000 }), None);
}

fn civil(days: i64) -> (i64, i64, i64) {
    let z = days + 719468;
    let era = z.div_euclid(146097);
    let doe = z - era * 146097;
    let yoe = (doe - doe / 1460 + doe / 36524 - doe / 146096) / 365;
    let doy = doe - (365 * yoe + yoe / 4 - yoe / 100);
    let mp = (5 * doy + 2) / 153;
    let d = doy - (153 * mp + 2) / 5 + 1;
    let m = if mp < 10 { mp + 3 } else { mp - 9 };
    (yoe + era * 400 + if m <= 2 { 1 } else { 0 }, m, d)
}

fn year(y: i64) -> String {
    if (0..=9999).contains(&y) {
        format!("{:04}", y)
    } else if y < 0 {
        format!("-{:04}", -y)
    } else {
        format!("+{:04}", y)
    }
}

fn expected_stamp(secs: i64, nanos: u32) -> String {
    let (y, m, d) = civil(secs.div_euclid(86400));
    let sod = secs.rem_euclid(86400);
    let sec = sod % 60 + if nanos >= 1_000_000_000 { 1 } else { 0 };
    format!("{}-{:02}-{:02}_{:02}-{:02}-{:02}", year(y), m, d, sod / 3600, (sod % 3600) / 60, sec)
}

#[test]
fn stamps_follow_the_calendar() {
    let first = -8_334_601_228_800i64;
    let last = 8_210_266_876_799i64;
    let mut samples = vec![0, -1, 59, 86399, 951_782_400, 1_704_164_645, 253_402_300_799, 253_402_300_800, -62_167_219_200, -62_167_219_201, first, last];
    let mut x: u64 = 0x2545F4914F6CDD1D;
    for _ in 0..20000 {
        x ^= x << 13;
        x ^= x >> 7;
        x ^= x << 17;
        samples.push(first + (x % ((last - first) as u64)) as i64);
        samples.push((x % 8_000_000_000) as i64 - 4_000_000_000);
    }
    for secs in samples {
        let t = Timestamp { secs, nanos: 0 };
        let want = expected_stamp(secs, 0);
        assert_eq!(stamp(t), Some(want.clone()), "{}", secs);
        assert_eq!(day_text(t), Some(want[..want.len() - 9].to_string()), "{}", secs);
    }
    assert_eq!(stamp(Timestamp { secs: 59, nanos: 1_500_000_000 }), Some("1970-01-01_00-00-60".to_string()));
    assert_eq!(stamp(Timestamp { secs: last + 1, nanos: 0 }), None);
}
