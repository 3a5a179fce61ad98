use c_drive_cleaner::timestamps::{format_modified_at, now_rfc3339};

#[test]
fn modification_times_are_rfc3339_utc() {
    assert_eq!(format_modified_at(Some(0), "now"), "1970-01-01T00:00:00Z");
    assert_eq!(
        format_modified_at(Some(1_781_222_400_000_000_000), "now"),
        "2026-06-12T00:00:00Z"
    );
    assert_eq!(format_modified_at(None, "now"), "now");
}

#[test]
fn unwritable_times_fall_back() {
    assert_eq!(format_modified_at(Some(i128::MAX), "now"), "now");
    assert_eq!(now_rfc3339(i128::MAX), "2026-06-12T00:00:00Z");
    assert_eq!(now_rfc3339(0), "1970-01-01T00:00:00Z");
}
