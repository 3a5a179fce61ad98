use std::sync::{Arc, Mutex};

use c_drive_cleaner::v2::duplicate::{
    apply_duplicate_recommendations, cleanup_finished_progress_for_test, DuplicateEntryRegistry,
    FileFingerprint, FileObservation,
};
use c_drive_cleaner::v2::duplicate_report::reclaimable_totals;
use c_drive_cleaner::v2::duplicate_run::{
    content_hash, file_fingerprint, run_duplicate_cleanup_with_recycle_bin,
    scan_request_with_backend_settings,
};
use c_drive_cleaner::v2::fixtures::duplicate_group_for_selection;
use c_drive_cleaner::v2::models::{
    DuplicateCleanupFileRequest, DuplicateCleanupGroupRequest, DuplicateCleanupReport,
    DuplicateCleanupRequest, DuplicateFileType, DuplicateRecommendedAction, DuplicateScanRequest,
    OperationModule,
};
use c_drive_cleaner::v2::path_safety::{is_protected_duplicate_path, should_skip_scan_location};
use c_drive_cleaner::v2::recycle_bin::{RecycleBin, RecycleBinError};

#[derive(Default)]
struct RecordingRecycleBin {
    paths: Arc<Mutex<Vec<String>>>,
}

impl RecycleBin for RecordingRecycleBin {
    fn move_to_recycle_bin(&self, path: &str) -> Result<(), RecycleBinError> {
        self.paths.lock().unwrap().push(path.to_string());
        Ok(())
    }
}

#[test]
fn c_drive_first_strategy_keeps_non_c_drive_copy_when_possible() {
    let mut group = duplicate_group_for_selection(vec![
        ("C:", "old-c-copy.txt", "2026-01-01T00:00:00Z"),
        ("D:", "backup-copy.txt", "2025-01-01T00:00:00Z"),
    ]);

    apply_duplicate_recommendations(&mut group, &vec![]);

    let c_file = group.files.iter().find(|file| file.drive == "C:").unwrap();
    let d_file = group.files.iter().find(|file| file.drive == "D:").unwrap();
    assert_eq!(c_file.recommended_action, DuplicateRecommendedAction::Clean);
    assert_eq!(d_file.recommended_action, DuplicateRecommendedAction::Keep);
}

#[test]
fn duplicate_scan_settings_failure_returns_path_free_error() {
    let error = scan_request_with_backend_settings(
        DuplicateScanRequest {
            selected_drives: vec![],
            custom_folders: vec![r"C:\Temp\Alice".to_string()],
            file_types: vec![DuplicateFileType::Document],
            custom_extensions: vec![],
            include_suspected: false,
            min_size_bytes: 1,
            protected_paths: vec![],
        },
        Err(r"C:\Users\Alice\AppData\settings.json".to_string()),
    )
    .unwrap_err();

    assert!(error.contains("无法读取清理设置"));
    assert!(!error.contains("Alice"));
    assert!(!error.contains("settings.json"));
    assert!(!error.contains(r"C:\Users"));
}

#[test]
fn backend_protected_paths_are_merged_without_repeats() {
    let request = scan_request_with_backend_settings(
        DuplicateScanRequest {
            selected_drives: vec!["C:".to_string()],
            custom_folders: vec![],
            file_types: vec![DuplicateFileType::Image],
            custom_extensions: vec![],
            include_suspected: true,
            min_size_bytes: 5,
            protected_paths: vec![r"D:\Keep".to_string()],
        },
        Ok(vec![r"D:\Keep".to_string(), r"E:\Private".to_string()]),
    )
    .unwrap();
    assert_eq!(
        request.protected_paths,
        vec![r"D:\Keep".to_string(), r"E:\Private".to_string()]
    );
    assert_eq!(request.min_size_bytes, 5);
    assert!(request.include_suspected);
}

#[test]
fn built_in_protected_paths_are_marked_protected_but_not_hidden_from_scan() {
    assert!(is_protected_duplicate_path(r"C:\Windows\Temp\x.txt", &vec![]));
    assert!(is_protected_duplicate_path(r"\\?\C:\Windows\Temp\x.txt", &vec![]));
    assert!(!should_skip_scan_location(r"C:\Windows", &vec![]));
}

#[test]
fn verbatim_unc_paths_match_configured_unc_protected_paths() {
    assert!(is_protected_duplicate_path(
        r"\\?\UNC\server\share\folder\file.txt",
        &vec![r"\\server\share".to_string()]
    ));
}

#[test]
fn ordinary_user_files_are_not_protected() {
    assert!(!is_protected_duplicate_path(r"D:\Photos\a.jpg", &vec![]));
    assert!(!is_protected_duplicate_path(
        r"D:\Photos\a.jpg",
        &vec![r"D:\Photo".to_string()]
    ));
    assert!(is_protected_duplicate_path(
        r"D:\Photos\a.jpg",
        &vec![r"d:\photos".to_string()]
    ));
}

#[test]
fn final_cleanup_progress_preserves_report_counts() {
    let payload = cleanup_finished_progress_for_test(
        "operation-1",
        &DuplicateCleanupReport {
            processed_files: 3,
            success_count: 1,
            skipped_count: 1,
            failed_count: 1,
            freed_bytes: 42,
            c_drive_freed_bytes: 42,
            other_drive_freed_bytes: 0,
        },
    );

    assert_eq!(payload.module, OperationModule::DuplicateCleanup);
    assert_eq!(payload.stage, "finished");
    assert_eq!(payload.percent, 100);
    assert_eq!(payload.found_bytes, 42);
    assert_eq!(payload.processed_items, 3);
    assert_eq!(payload.success_count, 1);
    assert_eq!(payload.skipped_count, 1);
    assert_eq!(payload.failed_count, 1);
    assert!(payload.current_location_hint.is_empty());
}

#[test]
fn content_hash_is_lowercase_sha256_hex() {
    assert_eq!(
        content_hash(b"abc"),
        "ba7816bf8f01cfea414140de5dae2223b00361a396177a9cb410ff61f20015ad"
    );
    assert_eq!(
        content_hash(b""),
        "e3b0c44298fc1c149afbf4c8996fb92427ae41e4649b934ca495991b7852b855"
    );
    let fingerprint = file_fingerprint(3, b"abc");
    assert_eq!(fingerprint.size_bytes, 3);
    assert_eq!(fingerprint.content_hash, content_hash(b"abc"));
}

fn observation(size: u64, contents: &[u8]) -> FileObservation {
    FileObservation {
        exists: true,
        fingerprint: Some(FileFingerprint {
            size_bytes: size,
            content_hash: content_hash(contents),
        }),
    }
}

#[test]
fn cleanup_recycles_selected_copy_when_retained_copy_matches() {
    let mut registry = DuplicateEntryRegistry::new();
    registry.register_test_entry("group-1", "selected", r"C:\data\selected.txt", false);
    registry.register_test_entry("group-1", "retained", r"D:\data\retained.txt", false);
    let request = DuplicateCleanupRequest {
        groups: vec![DuplicateCleanupGroupRequest {
            group_id: "group-1".to_string(),
            files: vec![
                DuplicateCleanupFileRequest {
                    entry_id: "selected".to_string(),
                    selected: true,
                    protected: false,
                },
                DuplicateCleanupFileRequest {
                    entry_id: "retained".to_string(),
                    selected: false,
                    protected: false,
                },
            ],
        }],
        protected_override_confirmed: false,
    };
    let bin = RecordingRecycleBin::default();
    let observations = vec![vec![observation(4, b"same"), observation(4, b"same")]];

    let run = run_duplicate_cleanup_with_recycle_bin(&request, &registry, &bin, &observations);

    assert_eq!(run.report.success_count, 1);
    assert_eq!(run.report.freed_bytes, 4);
    assert_eq!(run.report.c_drive_freed_bytes, 4);
    assert_eq!(*bin.paths.lock().unwrap(), vec![r"C:\data\selected.txt".to_string()]);
}

#[test]
fn cleanup_skips_when_retained_copy_differs() {
    let mut registry = DuplicateEntryRegistry::new();
    registry.register_test_entry("group-1", "selected", r"C:\data\selected.txt", false);
    registry.register_test_entry("group-1", "retained", r"D:\data\retained.txt", false);
    let request = DuplicateCleanupRequest {
        groups: vec![DuplicateCleanupGroupRequest {
            group_id: "group-1".to_string(),
            files: vec![
                DuplicateCleanupFileRequest {
                    entry_id: "selected".to_string(),
                    selected: true,
                    protected: false,
                },
                DuplicateCleanupFileRequest {
                    entry_id: "retained".to_string(),
                    selected: false,
                    protected: false,
                },
            ],
        }],
        protected_override_confirmed: false,
    };
    let bin = RecordingRecycleBin::default();
    let observations = vec![vec![observation(4, b"same"), observation(4, b"diff")]];

    let run = run_duplicate_cleanup_with_recycle_bin(&request, &registry, &bin, &observations);

    assert_eq!(run.report.success_count, 0);
    assert_eq!(run.report.freed_bytes, 0);
    assert!(bin.paths.lock().unwrap().is_empty());
}

#[test]
fn cleanup_counts_unknown_entries_as_failed() {
    let registry = DuplicateEntryRegistry::new();
    let request = DuplicateCleanupRequest {
        groups: vec![DuplicateCleanupGroupRequest {
            group_id: "group-1".to_string(),
            files: vec![DuplicateCleanupFileRequest {
                entry_id: "missing".to_string(),
                selected: true,
                protected: false,
            }],
        }],
        protected_override_confirmed: false,
    };
    let bin = RecordingRecycleBin::default();
    let observations = vec![vec![observation(1, b"x")]];

    let run = run_duplicate_cleanup_with_recycle_bin(&request, &registry, &bin, &observations);

    assert_eq!(run.report.failed_count, 1);
    assert_eq!(run.report.success_count, 0);
    assert!(bin.paths.lock().unwrap().is_empty());
}

#[test]
fn sample_group_has_numbered_entries_and_location_hints() {
    let group = duplicate_group_for_selection(vec![
        ("C::", "a.txt", "t1"),
        ("D:", "b.txt", "t2"),
        ("E", "c.txt", "t3"),
    ]);
    assert_eq!(group.group_id, "fixture-group");
    assert!(group.strict_duplicate);
    assert_eq!(group.total_bytes, 30);
    assert_eq!(group.reclaimable_bytes, 0);
    assert_eq!(group.files[0].entry_id, "entry-0");
    assert_eq!(group.files[2].entry_id, "entry-2");
    assert_eq!(group.files[0].visible_location_hint, "C 盘 · 文件夹");
    assert_eq!(group.files[2].visible_location_hint, "E 盘 · 文件夹");
    assert_eq!(group.files[1].modified_at, "t2");
    assert!(group
        .files
        .iter()
        .all(|f| f.recommended_action == DuplicateRecommendedAction::ManualReview && !f.selected));
}

#[test]
fn recommendations_never_select_protected_copies_and_keep_one() {
    let mut group = duplicate_group_for_selection(vec![
        ("C:", "a.txt", "2026-01-03T00:00:00Z"),
        ("C:", "b.txt", "2026-01-02T00:00:00Z"),
        ("C:", "c.txt", "2026-01-01T00:00:00Z"),
    ]);
    group.files[0].protected = true;
    apply_duplicate_recommendations(&mut group, &vec![]);
    assert!(!group.files[0].selected);
    assert_eq!(group.files[0].recommended_action, DuplicateRecommendedAction::Keep);
    assert!(!group.files[1].selected);
    assert_eq!(group.files[1].recommended_action, DuplicateRecommendedAction::Keep);
    assert!(group.files[2].selected);
    assert_eq!(group.reclaimable_bytes, 10);
}

#[test]
fn all_protected_group_is_left_for_manual_review() {
    let mut group = duplicate_group_for_selection(vec![("C:", "a.txt", "t"), ("D:", "b.txt", "t")]);
    group.files[0].protected = true;
    group.files[1].protected = true;
    apply_duplicate_recommendations(&mut group, &vec![]);
    assert!(group
        .files
        .iter()
        .all(|f| !f.selected && f.recommended_action == DuplicateRecommendedAction::ManualReview));
    assert_eq!(group.reclaimable_bytes, 0);
    assert_eq!(group.recommended_selection_reason, "No safe cleanup recommendation");
}

#[test]
fn reclaimable_bytes_split_between_c_and_other_drives() {
    let mut first = duplicate_group_for_selection(vec![("D:", "a", "2"), ("C:", "b", "1")]);
    apply_duplicate_recommendations(&mut first, &vec![]);
    let mut second = duplicate_group_for_selection(vec![("E:", "a", "1"), ("D:", "b", "2")]);
    apply_duplicate_recommendations(&mut second, &vec![]);
    let (total, c_drive, other) = reclaimable_totals(&vec![first, second]);
    assert_eq!(total, 20);
    assert_eq!(c_drive, 10);
    assert_eq!(other, 10);
    assert_eq!(total, c_drive + other);
}

#[test]
fn registry_gives_back_registered_entry() {
    let mut registry = DuplicateEntryRegistry::new();
    registry.register_test_entry("g", "e1", r"D:\x\a.txt", true);
    let entry = registry.get("e1").unwrap();
    assert_eq!(entry.group_id, "g");
    assert_eq!(entry.path, r"D:\x\a.txt");
    assert!(entry.protected);
    assert!(registry.get("e2").is_none());
}
