use fumofetch::format::{format_memory_size, format_uptime, uptime_from};

#[test]
fn uptime_with_days() {
    assert_eq!(format_uptime(90000), "1d 1h 0m");
}

#[test]
fn uptime_with_hours() {
    assert_eq!(format_uptime(3661), "1h 1m");
}

#[test]
fn uptime_under_a_minute() {
    assert_eq!(format_uptime(59), "0m");
}

#[test]
fn uptime_days_keep_zero_hours() {
    assert_eq!(format_uptime(86400 * 3 + 120), "3d 0h 2m");
}

#[test]
fn uptime_from_file_content() {
    assert_eq!(uptime_from("90000.55 123456.78\n"), "1d 1h 0m");
    assert_eq!(uptime_from("3661.99 10.00\n"), "1h 1m");
    assert_eq!(uptime_from("  59.00 1.00"), "0m");
}

#[test]
fn uptime_from_malformed_content() {
    assert_eq!(uptime_from(""), "Unknown");
    assert_eq!(uptime_from("abc 12.0"), "Unknown");
    assert_eq!(uptime_from("12.3.4 1"), "Unknown");
    assert_eq!(uptime_from(". 1"), "Unknown");
}

#[test]
fn uptime_from_partial_decimals() {
    assert_eq!(uptime_from(".5 1"), "0m");
    assert_eq!(uptime_from("+7200. 1"), "2h 0m");
}

#[test]
fn memory_sizes_in_gigabytes() {
    assert_eq!(format_memory_size(6000000), "5.72 GB");
    assert_eq!(format_memory_size(8000000), "7.63 GB");
}

#[test]
fn memory_sizes_in_megabytes() {
    assert_eq!(format_memory_size(0), "0.00 MB");
    assert_eq!(format_memory_size(1024), "1.00 MB");
    assert_eq!(format_memory_size(1048576), "1024.00 MB");
    assert_eq!(format_memory_size(1048577), "1.00 GB");
}

#[test]
fn memory_sizes_match_float_formatting() {
    let mut kb: u64 = 0;
    while kb < 300000 {
        let mb = kb as f64 / 1024.0;
        let expected = if mb > 1024.0 {
            format!("{:.2} GB", mb / 1024.0)
        } else {
            format!("{:.2} MB", mb)
        };
        assert_eq!(format_memory_size(kb), expected, "size {}", kb);
        kb += 1;
    }
    for kb in [1048577u64, 5000000, 6000000, 8000000, 16_000_000, 123_456_789, 1u64 << 40] {
        let gb = kb as f64 / 1024.0 / 1024.0;
        assert_eq!(format_memory_size(kb), format!("{:.2} GB", gb), "size {}", kb);
    }
}

#[test]
fn memory_sizes_halves_round_to_even() {
    assert_eq!(format_memory_size(128), "0.12 MB");
    assert_eq!(format_memory_size(384), "0.38 MB");
}
