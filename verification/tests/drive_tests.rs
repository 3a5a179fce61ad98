use c_drive_cleaner::drive::{c_drive_summary, is_c_mount_point, DiskInfo};
use c_drive_cleaner::errors::CleanerError;

#[test]
fn c_drive_summary_takes_the_first_c_mount() {
    let disks = vec![
        DiskInfo {
            mount_point: r"D:\".to_string(),
            total_space: 1,
            available_space: 1,
        },
        DiskInfo {
            mount_point: "c:/".to_string(),
            total_space: 100,
            available_space: 40,
        },
        DiskInfo {
            mount_point: "C:".to_string(),
            total_space: 7,
            available_space: 7,
        },
    ];
    let summary = c_drive_summary(&disks).unwrap();
    assert_eq!(summary.drive, "C:");
    assert_eq!(summary.total_bytes, 100);
    assert_eq!(summary.free_bytes, 40);
}

#[test]
fn missing_c_drive_is_a_path_resolution_error() {
    let disks = vec![DiskInfo {
        mount_point: "/".to_string(),
        total_space: 1,
        available_space: 1,
    }];
    match c_drive_summary(&disks) {
        Err(CleanerError::PathResolution(message)) => assert_eq!(message, "C drive was not found"),
        _ => panic!("expected a path resolution error"),
    }
}

#[test]
fn mount_points_are_compared_upper_cased() {
    assert!(is_c_mount_point(r"c:\"));
    assert!(!is_c_mount_point(r"C:\Windows"));
}
