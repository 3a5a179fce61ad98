use c_drive_cleaner::errors::CleanerError;
use c_drive_cleaner::paths::{ensure_c_drive_path, ensure_under_root, is_c_drive_path, join, ScanRoots};

#[test]
fn accepts_absolute_c_drive_paths_only() {
    assert!(ensure_c_drive_path(r"C:\Users\Example\AppData\Local").is_ok());
    assert!(ensure_c_drive_path(r"D:\Users\Example\AppData\Local").is_err());
    assert!(ensure_c_drive_path(r"\\server\share\AppData\Local").is_err());
    assert!(ensure_c_drive_path(r"C:relative\Temp").is_err());
}

#[test]
fn c_drive_check_is_case_insensitive_and_rejects_bare_drive() {
    assert!(is_c_drive_path(r"c:\Windows"));
    assert!(is_c_drive_path("C:/Windows"));
    assert!(!is_c_drive_path("C:"));
    assert!(matches!(
        ensure_c_drive_path(r"E:\data"),
        Err(CleanerError::PathOutsideCDrive)
    ));
}

#[test]
fn join_adds_one_separator() {
    assert_eq!(join(r"C:\Users\Example", "Temp"), r"C:\Users\Example\Temp");
    assert_eq!(join(r"C:\", "Windows"), r"C:\Windows");
}

#[test]
fn ensure_under_root_rejects_sibling_prefix() {
    assert!(ensure_under_root(r"C:\Temp\a", r"C:\Temp").is_ok());
    assert!(ensure_under_root(r"C:\Temp", r"C:\Temp").is_ok());
    assert!(matches!(
        ensure_under_root(r"C:\Temporary\a", r"C:\Temp"),
        Err(CleanerError::PathOutsideAllowedRoot)
    ));
}

#[test]
fn scan_roots_need_both_folders() {
    let missing_profile = ScanRoots::from_current_user(None, Some(r"C:\x".to_string()));
    match missing_profile {
        Err(CleanerError::PathResolution(message)) => assert_eq!(message, "USERPROFILE is not set"),
        _ => panic!("expected missing profile error"),
    }
    let missing_local = ScanRoots::from_current_user(Some(r"C:\Users\Example".to_string()), None);
    match missing_local {
        Err(CleanerError::PathResolution(message)) => assert_eq!(message, "LOCALAPPDATA is not set"),
        _ => panic!("expected missing local app data error"),
    }
}
