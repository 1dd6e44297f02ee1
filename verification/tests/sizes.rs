use storage_cleaner::sizes::format_size;

fn float_size(bytes: u64) -> String {
    const GB: u64 = 1024 * 1024 * 1024;
    const MB: u64 = 1024 * 1024;
    const KB: u64 = 1024;
    if bytes >= GB {
        format!("{:.1} GB", bytes as f64 / GB as f64)
    } else if bytes >= MB {
        format!("{:.1} MB", bytes as f64 / MB as f64)
    } else if bytes >= KB {
        format!("{:.1} KB", bytes as f64 / KB as f64)
    } else {
        format!("{} B", bytes)
    }
}

#[test]
fn format_size_units() {
    assert_eq!(format_size(0), "0 B");
    assert_eq!(format_size(1023), "1023 B");
    assert_eq!(format_size(1024), "1.0 KB");
    assert_eq!(format_size(1536), "1.5 KB");
    assert_eq!(format_size(1048576), "1.0 MB");
    assert_eq!(format_size(1073741824), "1.0 GB");
}

#[test]
fn format_size_matches_double_formatting() {
    let mut samples: Vec<u64> = vec![
        262144, 1024 * 1024 + 52428, 1024 * 1024 + 52429, 3 * 1024 * 1024 / 20,
        u64::MAX, u64::MAX - 1, 1 << 53, (1 << 53) + 1, (1 << 54) + 2, (1 << 54) + 6,
        (1 << 60) + (1 << 7), (1 << 63) + 1024, 1023 * 1024 * 1024 + 1,
    ];
    let mut x: u64 = 0x9E3779B97F4A7C15;
    for _ in 0..20000 {
        x ^= x << 13;
        x ^= x >> 7;
        x ^= x << 17;
        samples.push(x >> (x % 64));
        samples.push((x % 4096) * 512);
        samples.push((x % 100000) * 52428);
    }
    for unit_bits in [10u32, 20, 30] {
        for k in 0..4000u64 {
            samples.push((k << unit_bits) / 20);
            samples.push(((2 * k + 1) << (unit_bits - 1)) / 10);
        }
    }
    for b in samples {
        assert_eq!(format_size(b), float_size(b), "bytes = {}", b);
    }
}
