use c_drive_cleaner::v2::migration::{
    begin_item_migration, reject_parent_dir_traversal, resolve_target_folder, select_best_mount_key_for_target_for_test,
    validate_migration_target, ItemFailure,
};

fn assert_failed_message(result: Result<String, ItemFailure>, expected: &str) {
    match result {
        Err(ItemFailure::Failed(message)) => {
            assert!(message.contains(expected));
            assert!(!message.contains("Alice"));
            assert!(!message.contains("private-movie.mp4"));
        }
        _ => panic!("expected failed item result"),
    }
}

#[test]
fn resolve_target_folder_rejects_empty_target_without_source_drive_default() {
    let error = resolve_target_folder("", r"C:\Users\Alice\Downloads\private-movie.mp4");

    assert_failed_message(error, "目标文件夹不能为空");
}

#[test]
fn resolve_target_folder_rejects_relative_target() {
    let error = resolve_target_folder(
        "Cleaner_MigratedFiles",
        r"C:\Users\Alice\Downloads\private-movie.mp4",
    );

    assert_failed_message(error, "目标文件夹必须是本地磁盘绝对路径");
}

#[test]
fn resolve_target_folder_rejects_unc_target() {
    let error = resolve_target_folder(
        r"\\server\share\Cleaner_MigratedFiles",
        r"C:\Users\Alice\Downloads\private-movie.mp4",
    );

    assert_failed_message(error, "目标文件夹必须是本地磁盘绝对路径");
}

#[test]
fn resolve_target_folder_trims_and_accepts_local_drive_folder() {
    match resolve_target_folder("  D:\\Cleaner_MigratedFiles  ", r"C:\a.mp4") {
        Ok(folder) => assert_eq!(folder, r"D:\Cleaner_MigratedFiles"),
        _ => panic!("expected a folder"),
    }
}

#[test]
fn migration_target_cannot_be_inside_source_folder() {
    let error = validate_migration_target(
        r"C:\Users\Example\Downloads\movie.mp4",
        r"C:\Users\Example\Downloads\Cleaner_MigratedFiles",
        false,
    )
    .unwrap_err();

    assert!(error.to_string().contains("目标位置不能位于源文件目录内"));
}

#[test]
fn migration_target_on_another_drive_is_accepted() {
    assert!(validate_migration_target(
        r"C:\Users\Example\Downloads\movie.mp4",
        r"D:\Cleaner_MigratedFiles",
        false,
    )
    .is_ok());
}

#[test]
fn parent_segments_are_rejected() {
    assert!(reject_parent_dir_traversal(r"D:\a\..\b").is_err());
    assert!(reject_parent_dir_traversal(r"D:\a\..b\c").is_ok());
}

#[test]
fn longest_matching_mount_is_chosen() {
    let mounts = vec!["c:".to_string(), "d:".to_string(), r"d:\data".to_string()];
    assert_eq!(
        select_best_mount_key_for_target_for_test(r"d:\data\out", &mounts),
        Some(r"d:\data".to_string())
    );
    assert_eq!(
        select_best_mount_key_for_target_for_test(r"d:\database", &mounts),
        Some("d:".to_string())
    );
    assert_eq!(select_best_mount_key_for_target_for_test(r"e:\x", &mounts), None);
}

#[test]
fn item_checks_run_in_order_before_copying() {
    let source = r"C:\Users\Example\Videos\movie.mp4";
    assert!(matches!(
        begin_item_migration(r"D:\Out", source, &vec![], true, false, true),
        Err(ItemFailure::Cancelled)
    ));
    match begin_item_migration(r"D:\Out", source, &vec![], false, false, false) {
        Err(ItemFailure::Failed(message)) => assert_eq!(message, "源文件不存在"),
        _ => panic!("expected a missing source"),
    }
    match begin_item_migration(r"D:\Out", source, &vec![], false, true, true) {
        Err(ItemFailure::Failed(message)) => assert_eq!(message, "目标位置不能位于符号链接目录内"),
        _ => panic!("expected a link refusal"),
    }
    match begin_item_migration(r"D:\Out", source, &vec![r"d:\out".to_string()], false, true, false) {
        Err(ItemFailure::Failed(message)) => assert_eq!(message, "目标位置不能位于受保护目录内"),
        _ => panic!("expected a protected target"),
    }
    match begin_item_migration(r" D:\Out ", source, &vec![], false, true, false) {
        Ok(folder) => assert_eq!(folder, r"D:\Out"),
        _ => panic!("expected the folder"),
    }
}
