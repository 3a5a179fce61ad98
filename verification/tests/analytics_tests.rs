use c_drive_cleaner::analytics::{build_scan_analytics_event, SpaceBucket};

#[test]
fn analytics_event_uses_space_buckets() {
    let event = build_scan_analytics_event("0.1.0", 6_000_000_000, vec!["system".to_string()]);
    assert_eq!(event.freed_space_bucket, SpaceBucket::FiveGbPlus);
}

#[test]
fn analytics_event_replaces_paths_with_other_category() {
    let event = build_scan_analytics_event(
        "0.1.0",
        42,
        vec!["C:\\Users\\Administrator\\AppData\\Local\\Temp\\abc.txt".to_string()],
    );
    assert_eq!(event.categories, vec!["other".to_string()]);
    assert_eq!(event.freed_space_bucket, SpaceBucket::ZeroToOneGb);
    assert_eq!(event.event_name, "cleanup_completed");
    assert_eq!(event.app_version, "0.1.0");
}

#[test]
fn analytics_bucket_edges() {
    let one_gb: u64 = 1024 * 1024 * 1024;
    assert_eq!(
        build_scan_analytics_event("v", one_gb - 1, vec![]).freed_space_bucket,
        SpaceBucket::ZeroToOneGb
    );
    assert_eq!(
        build_scan_analytics_event("v", one_gb, vec![]).freed_space_bucket,
        SpaceBucket::OneToFiveGb
    );
    assert_eq!(
        build_scan_analytics_event("v", 5 * one_gb, vec![]).freed_space_bucket,
        SpaceBucket::FiveGbPlus
    );
}

#[test]
fn analytics_event_does_not_include_paths_or_usernames() {
    let event = build_scan_analytics_event(
        "0.1.0",
        42,
        vec!["C:\\Users\\Administrator\\AppData\\Local\\Temp\\abc.txt".to_string()],
    );
    let mut encoded = vec![event.app_version.clone(), event.event_name.clone()];
    encoded.extend(event.categories.iter().cloned());
    let encoded = encoded.join(" ");
    assert!(!encoded.contains("Administrator"));
    assert!(!encoded.contains("AppData"));
    assert!(!encoded.contains("abc.txt"));
}
