use downloader::size::format_size;

#[test]
fn test_format_size_zero() {
    assert_eq!(format_size(0), "Unknown");
}

#[test]
fn test_format_size_bytes() {
    assert_eq!(format_size(500), "500 B");
}

#[test]
fn test_format_size_kib() {
    assert_eq!(format_size(2048), "2.00 KiB");
}

#[test]
fn test_format_size_mib() {
    assert_eq!(format_size(5 * 1024 * 1024), "5.00 MiB");
}

#[test]
fn test_format_size_gib() {
    let val = 2 * 1024 * 1024 * 1024;
    assert_eq!(format_size(val), "2.00 GiB");
}

fn float_rendering(bytes: u64) -> String {
    const KB: u64 = 1024;
    const MB: u64 = 1024 * 1024;
    const GB: u64 = 1024 * 1024 * 1024;
    if bytes == 0 {
        "Unknown".to_string()
    } else if bytes >= GB {
        format!("{:.2} GiB", bytes as f64 / GB as f64)
    } else if bytes >= MB {
        format!("{:.2} MiB", bytes as f64 / MB as f64)
    } else if bytes >= KB {
        format!("{:.2} KiB", bytes as f64 / KB as f64)
    } else {
        format!("{} B", bytes)
    }
}

#[test]
fn format_size_unit_boundaries() {
    assert_eq!(format_size(1023), "1023 B");
    assert_eq!(format_size(1024), "1.00 KiB");
    assert_eq!(format_size(1048575), "1024.00 KiB");
    assert_eq!(format_size(1048576), "1.00 MiB");
    assert_eq!(format_size(1073741823), "1024.00 MiB");
    assert_eq!(format_size(1073741824), "1.00 GiB");
    assert_eq!(format_size(1), "1 B");
}

#[test]
fn format_size_rounds_ties_to_even() {
    // 1.125 KiB and 1.375 KiB are exact halfway cases
    assert_eq!(format_size(1152), float_rendering(1152));
    assert_eq!(format_size(1408), float_rendering(1408));
    assert_eq!(format_size(1152), "1.12 KiB");
    assert_eq!(format_size(1408), "1.38 KiB");
}

#[test]
fn format_size_matches_float_rendering() {
    let mut samples: Vec<u64> = vec![
        1, 999, 1000, 1023, 1024, 1025, 1536, 2047, 10_000, 123_456, 999_999, 1_048_575,
        1_048_576, 1_572_864, 8_300_000_000, 12_000_000_000, 1_073_741_823, 1_073_741_824,
        9_007_199_254_740_991, 9_007_199_254_740_992, 9_007_199_254_740_993,
        18_014_398_509_481_985, 18_014_398_509_481_987, u64::MAX - 1, u64::MAX,
    ];
    let mut x: u64 = 0x9E37_79B9_7F4A_7C15;
    for _ in 0..20000 {
        x ^= x << 13;
        x ^= x >> 7;
        x ^= x << 17;
        samples.push(x >> (x % 64));
        samples.push(x % 5_000_000);
        samples.push((x % 4096) * 128);
    }
    for b in samples {
        assert_eq!(format_size(b), float_rendering(b), "bytes = {}", b);
    }
}
