//! Memory readings.

use wand_render::resources::{
    admission_budget_bytes, budget_for_physical_memory, physical_memory_bytes, rss_bytes,
};

#[test]
fn rss_is_plausible() {
    let bytes = rss_bytes(Some("51234 4821 1200 310 0 9000 0\n"), 4096, None, 1024);
    assert!(bytes > 64 * 1024, "implausible rss: {bytes}");
    assert!(bytes < 64 * 1024 * 1024 * 1024, "implausible rss: {bytes}");
    assert_eq!(bytes, 4821 * 4096);
}

#[test]
fn admission_budget_tracks_host_size_and_caps_at_two_gib() {
    assert_eq!(budget_for_physical_memory(Some(1 << 30)), 256 << 20);
    assert_eq!(budget_for_physical_memory(Some(16 << 30)), 2 << 30);
    assert_eq!(budget_for_physical_memory(None), 512 << 20);
}

#[test]
fn rss_falls_back_to_the_peak() {
    assert_eq!(rss_bytes(None, 4096, Some(2000), 1024), 2000 * 1024);
    assert_eq!(rss_bytes(Some("51234"), 4096, Some(3), 1), 3);
    assert_eq!(rss_bytes(Some("51234 x"), 4096, Some(3), 1), 3);
    assert_eq!(rss_bytes(Some("51234 10"), 0, Some(-5), 1024), 0);
    assert_eq!(rss_bytes(Some("1 18446744073709551615"), 4096, None, 1024), 0);
    assert_eq!(rss_bytes(None, 4096, Some(i64::MAX), 1024), u64::MAX);
}

#[test]
fn memory_is_that_of_the_host_or_the_limit_on_it() {
    let meminfo = "MemFree:  1 kB\r\nMemTotal:       16384 kB\r\nMemTotal: 5 kB\n";
    assert_eq!(physical_memory_bytes(Some(meminfo), None), Some(16384 * 1024));
    assert_eq!(physical_memory_bytes(Some(meminfo), Some("max\n")), Some(16384 * 1024));
    assert_eq!(physical_memory_bytes(Some(meminfo), Some("0\n")), Some(16384 * 1024));
    assert_eq!(physical_memory_bytes(Some(meminfo), Some(" 4096\n")), Some(4096));
    assert_eq!(physical_memory_bytes(Some(meminfo), Some("99999999999\n")), Some(16384 * 1024));
    assert_eq!(physical_memory_bytes(None, Some("4096")), None);
    assert_eq!(physical_memory_bytes(Some(" MemTotal: 5 kB\n"), None), None);
    assert_eq!(physical_memory_bytes(Some("MemTotal:5 kB\n"), None), None);
    assert_eq!(physical_memory_bytes(Some("MemTotal: 18446744073709551615 kB\n"), None), None);
}

#[test]
fn the_budget_follows_from_the_readings() {
    assert_eq!(admission_budget_bytes(Some("MemTotal: 4096 kB"), None), 1024 * 1024);
    assert_eq!(admission_budget_bytes(Some("MemTotal: 16777216 kB"), None), 2 << 30);
    assert_eq!(admission_budget_bytes(Some("MemTotal: 16777216 kB"), Some("8192")), 2048);
    assert_eq!(admission_budget_bytes(None, None), 512 << 20);
    assert_eq!(admission_budget_bytes(Some("MemTotal: 0 kB"), None), 512 << 20);
}
