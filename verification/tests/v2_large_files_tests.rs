use c_drive_cleaner::v2::large_files::{
    categorize_large_file, check_cancelled, large_file_is_recommended_for_test,
    large_file_should_skip_dir_for_test, scan_progress_percent, visible_location_hint,
    LargeFileRegistry,
};
use c_drive_cleaner::v2::models::LargeFileCategory;

#[test]
fn large_files_are_categorized_by_lowercased_extension() {
    assert_eq!(categorize_large_file(r"C:\a\movie.MP4"), LargeFileCategory::Video);
    assert_eq!(categorize_large_file(r"C:\a\b.tar.gz"), LargeFileCategory::Archive);
    assert_eq!(categorize_large_file(r"C:\a\setup.exe"), LargeFileCategory::Installer);
    assert_eq!(categorize_large_file(r"C:\a\disk.vhdx"), LargeFileCategory::DiskImage);
    assert_eq!(categorize_large_file(r"C:\a\report.pdf"), LargeFileCategory::Document);
    assert_eq!(categorize_large_file(r"C:\a\noext"), LargeFileCategory::Other);
}

#[test]
fn location_hints_hide_folders() {
    assert_eq!(
        visible_location_hint(r"C:\Users\Alice\Downloads\a.zip"),
        "C:\\...\\用户文件"
    );
    assert_eq!(visible_location_hint(r"D:\Data\a.zip"), "D:\\...\\文件夹");
}

#[test]
fn system_and_program_folders_are_skipped_when_asked() {
    assert!(large_file_should_skip_dir_for_test(r"C:\Windows\System32", true, false));
    assert!(!large_file_should_skip_dir_for_test(r"C:\Windows\System32", false, true));
    assert!(large_file_should_skip_dir_for_test(r"C:\Program Files (x86)\X", false, true));
    assert!(!large_file_should_skip_dir_for_test(r"C:\Users\Alice", true, true));
}

#[test]
fn only_unprotected_user_files_are_recommended() {
    assert!(large_file_is_recommended_for_test(r"C:\Users\Alice\Videos\a.mp4", false));
    assert!(!large_file_is_recommended_for_test(r"C:\Users\Alice\Videos\a.mp4", true));
    assert!(!large_file_is_recommended_for_test(r"D:\Videos\a.mp4", false));
}

#[test]
fn cancellation_and_progress() {
    assert_eq!(check_cancelled(true), Err("操作已取消".to_string()));
    assert_eq!(check_cancelled(false), Ok(()));
    assert_eq!(scan_progress_percent(0), 5);
    assert_eq!(scan_progress_percent(93), 98);
    assert_eq!(scan_progress_percent(1000), 99);
}

#[test]
fn registry_returns_what_was_registered() {
    let mut registry = LargeFileRegistry::new();
    registry.register_test_entry("item-1", r"C:\Users\Alice\a.mp4", false, 20);
    let entry = registry.get("item-1").unwrap();
    assert_eq!(entry.path, r"C:\Users\Alice\a.mp4");
    assert_eq!(entry.size_bytes, 20);
    assert!(!entry.protected);
    assert!(registry.get("item-2").is_none());
}
