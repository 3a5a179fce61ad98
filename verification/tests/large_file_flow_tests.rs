use std::sync::{Arc, Mutex};

use c_drive_cleaner::v2::large_files::{LargeFileRegistry, LargeFileScanCollector};
use c_drive_cleaner::v2::migration::{
    begin_item_migration, empty_migration_result, finish_copied_item, migration_end_message, migration_history_entry, migration_history_record, migration_progress,
    recycled_item_result,
    plan_migration_item, record_item_outcome, record_protected_item, snapshot_selected_entries,
    validate_migration_target, verify_copied_file, ItemPlan,
};
use c_drive_cleaner::v2::models::{
    LargeFileScanReport, LargeFileScanRequest, MigrationItemStatus, OperationModule, OperationStatus,
    OriginalFilePolicy, OperationProgressPayload,
};
use c_drive_cleaner::v2::recycle_bin::{RecycleBin, RecycleBinError};

#[derive(Default)]
struct RecordingRecycleBin {
    paths: Arc<Mutex<Vec<String>>>,
}

impl RecycleBin for RecordingRecycleBin {
    fn move_to_recycle_bin(&self, path: &str) -> Result<(), RecycleBinError> {
        self.paths.lock().unwrap().push(path.to_string());
        Ok(())
    }
}

struct FailingRecycleBin;

impl RecycleBin for FailingRecycleBin {
    fn move_to_recycle_bin(&self, _path: &str) -> Result<(), RecycleBinError> {
        Err(RecycleBinError::Failed("denied".to_string()))
    }
}

fn request(folder: &str, min_size_bytes: u64, protected_paths: Vec<String>) -> LargeFileScanRequest {
    LargeFileScanRequest {
        selected_drives: vec![],
        custom_folders: vec![folder.to_string()],
        min_size_bytes,
        protected_paths,
        skip_system_dirs: true,
        skip_program_dirs: true,
    }
}

fn scan(request: LargeFileScanRequest, files: &[(&str, u64)], progress: &mut Vec<OperationProgressPayload>) -> LargeFileScanReport {
    let mut collector = LargeFileScanCollector::new(request);
    for (path, size) in files {
        if let Some(payload) = collector.offer_file(path, *size, "2026-06-12T00:00:00Z".to_string(), "scan-1") {
            progress.push(payload);
        }
    }
    collector.finish().report
}

#[test]
fn scan_large_files_returns_items_at_or_above_threshold() {
    let report = scan(
        request(r"D:\tmp", 20, vec![]),
        &[(r"D:\tmp\small.zip", 10), (r"D:\tmp\large.zip", 20)],
        &mut Vec::new(),
    );
    assert_eq!(report.items.len(), 1);
    assert_eq!(report.items[0].display_name, "large.zip");
    assert_eq!(report.items[0].size_bytes, 20);
    assert_eq!(report.scanned_files, 2);
}

#[test]
fn protected_large_files_are_visible_but_not_recommended() {
    let report = scan(
        request(r"C:\Users\Alice\Videos", 20, vec![r"C:\Users\Alice\Videos".to_string()]),
        &[(r"C:\Users\Alice\Videos\protected.mp4", 20)],
        &mut Vec::new(),
    );
    assert_eq!(report.items.len(), 1);
    assert!(report.items[0].protected);
    assert!(!report.items[0].recommended);
}

#[test]
fn large_file_progress_is_path_free() {
    let mut payloads = Vec::new();
    let report = scan(request(r"D:\tmp", 20, vec![]), &[(r"D:\tmp\large.zip", 20)], &mut payloads);
    assert_eq!(report.items.len(), 1);
    assert!(payloads.iter().any(|payload| payload.module == OperationModule::LargeFileScan));
    assert!(payloads.iter().all(|payload| !payload.current_location_hint.contains(r"D:\tmp")));
}

#[test]
fn large_files_are_listed_by_size_then_name_with_drive_totals() {
    let report = scan(
        request(r"C:\data", 1, vec![]),
        &[(r"C:\data\b.zip", 5), (r"D:\data\a.zip", 5), (r"C:\data\c.iso", 9), (r"C:\data\c.iso", 9)],
        &mut Vec::new(),
    );
    let names: Vec<&str> = report.items.iter().map(|item| item.display_name.as_str()).collect();
    assert_eq!(names, vec!["c.iso", "a.zip", "b.zip"]);
    assert_eq!(report.total_bytes, 19);
    assert_eq!(report.c_drive_bytes, 14);
    assert_eq!(report.other_drive_bytes, 5);
    assert_eq!(report.scanned_files, 4);
}

#[test]
fn default_threshold_applies_when_none_is_given() {
    let report = scan(
        request(r"D:\tmp", 0, vec![]),
        &[(r"D:\tmp\a.zip", 524_287_999), (r"D:\tmp\b.zip", 524_288_000)],
        &mut Vec::new(),
    );
    assert_eq!(report.items.len(), 1);
    assert_eq!(report.items[0].display_name, "b.zip");
}

#[test]
fn target_inside_source_parent_is_rejected_for_temp_paths() {
    let error = validate_migration_target(r"D:\tmp\movie.mp4", r"D:\tmp\Cleaner_MigratedFiles", false).unwrap_err();
    assert!(error.to_string().contains("目标位置不能位于源文件目录内"));
}

fn registry_with_item(item_id: &str, path: &str, protected: bool) -> LargeFileRegistry {
    let mut registry = LargeFileRegistry::default();
    registry.register_test_entry(item_id, path, protected, 11);
    registry
}

#[test]
fn verified_copy_moves_original_when_asked() {
    let registry = registry_with_item("item-1", r"C:\Users\A\source\movie.mp4", false);
    let entry = registry.get("item-1").unwrap();
    let bin = RecordingRecycleBin::default();
    let verified = verify_copied_file(11, 11, b"movie-bytes", b"movie-bytes");
    let outcome = finish_copied_item(&entry, OriginalFilePolicy::MoveOriginalToRecycleBin, &verified, false, &bin);
    assert!(outcome.recycle_requested);
    let mut result = empty_migration_result();
    let stop = record_item_outcome(&mut result, "item-1".to_string(), entry.category, &entry.drive, outcome.result);
    assert!(!stop);
    assert_eq!(result.copied_count, 1);
    assert_eq!(result.moved_to_recycle_bin_count, 1);
    assert_eq!(result.total_freed_bytes, 11);
    assert_eq!(result.c_drive_freed_bytes, 11);
    assert_eq!(*bin.paths.lock().unwrap(), vec![r"C:\Users\A\source\movie.mp4".to_string()]);
}

#[test]
fn recycle_failure_counts_copied_but_not_freed() {
    let registry = registry_with_item("item-1", r"C:\Users\A\source\movie.mp4", false);
    let entry = registry.get("item-1").unwrap();
    let verified = verify_copied_file(11, 11, b"movie-bytes", b"movie-bytes");
    let outcome = finish_copied_item(
        &entry,
        OriginalFilePolicy::MoveOriginalToRecycleBin,
        &verified,
        false,
        &FailingRecycleBin,
    );
    let mut result = empty_migration_result();
    record_item_outcome(&mut result, "item-1".to_string(), entry.category, &entry.drive, outcome.result);
    assert_eq!(result.copied_count, 1);
    assert_eq!(result.moved_to_recycle_bin_count, 0);
    assert_eq!(result.total_copied_bytes, 11);
    assert_eq!(result.total_freed_bytes, 0);
    assert_eq!(result.item_results[0].message, "原文件移入回收站失败，已保留复制文件和原文件");
}

#[test]
fn mismatched_copy_is_never_followed_by_a_move() {
    let registry = registry_with_item("item-1", r"C:\Users\A\source\movie.mp4", false);
    let entry = registry.get("item-1").unwrap();
    let bin = RecordingRecycleBin::default();
    let verified = verify_copied_file(11, 11, b"movie-bytes", b"movie-byteX");
    assert_eq!(verified, Err("复制校验失败".to_string()));
    let outcome = finish_copied_item(&entry, OriginalFilePolicy::MoveOriginalToRecycleBin, &verified, false, &bin);
    assert!(!outcome.recycle_requested);
    assert!(bin.paths.lock().unwrap().is_empty());
}

#[test]
fn cancellation_after_copy_keeps_original_and_stops() {
    let registry = registry_with_item("item-1", r"C:\Users\A\source\movie.mp4", false);
    let entry = registry.get("item-1").unwrap();
    let bin = RecordingRecycleBin::default();
    let verified = verify_copied_file(11, 11, b"movie-bytes", b"movie-bytes");
    let outcome = finish_copied_item(&entry, OriginalFilePolicy::MoveOriginalToRecycleBin, &verified, true, &bin);
    assert!(!outcome.recycle_requested);
    let mut result = empty_migration_result();
    let stop = record_item_outcome(&mut result, "item-1".to_string(), entry.category, &entry.drive, outcome.result);
    assert!(stop);
    assert_eq!(result.copied_count, 1);
    assert_eq!(result.moved_to_recycle_bin_count, 0);
    assert!(bin.paths.lock().unwrap().is_empty());
}

#[test]
fn protected_item_is_skipped_without_override() {
    let registry = registry_with_item("item-1", r"C:\Users\A\source\movie.mp4", true);
    let selected = snapshot_selected_entries(&vec!["item-1".to_string(), "item-1".to_string()], &registry);
    assert_eq!(selected.len(), 1);
    let mut result = empty_migration_result();
    match plan_migration_item(&selected[0], &vec![], &vec![], false) {
        ItemPlan::Protected(category) => {
            record_protected_item(&mut result, "item-1".to_string(), category)
        }
        _ => panic!("expected a protected item"),
    }
    assert_eq!(result.copied_count, 0);
    assert_eq!(result.skipped_count, 1);
    assert_eq!(result.item_results[0].status, MigrationItemStatus::Skipped);
    assert!(matches!(
        plan_migration_item(&selected[0], &vec![], &vec![], true),
        ItemPlan::Migrate(_, _)
    ));
}

#[test]
fn target_inside_backend_protected_path_fails_the_item() {
    let outcome = begin_item_migration(
        r"D:\protected\out",
        r"C:\Users\A\source\movie.mp4",
        &vec![r"D:\protected".to_string()],
        false,
        true,
        false,
    );
    let mut result = empty_migration_result();
    let category = c_drive_cleaner::v2::models::LargeFileCategory::Video;
    let outcome = outcome.map(|_| unreachable!());
    record_item_outcome(&mut result, "item-1".to_string(), category, "C:", outcome);
    assert_eq!(result.copied_count, 0);
    assert_eq!(result.failed_count, 1);
    assert_eq!(result.item_results[0].message, "目标位置不能位于受保护目录内");
}

#[test]
fn migration_progress_is_path_free() {
    let result = empty_migration_result();
    let payload = migration_progress("op", &result, 1, 2, "C:\\...\\用户文件");
    assert_eq!(payload.module, OperationModule::LargeFileMigration);
    assert_eq!(payload.stage, "migrating");
    assert_eq!(payload.current_location_hint, "C:\\...\\用户文件");
    assert!(payload.percent <= 100);
}

#[test]
fn recycled_item_result_follows_the_bins_answer() {
    let registry = registry_with_item("item-1", r"C:\Users\A\source\movie.mp4", false);
    let entry = registry.get("item-1").unwrap();
    let freed = recycled_item_result(&entry, &Ok(()));
    assert_eq!(freed.item_id, "item-1");
    assert_eq!(freed.status, MigrationItemStatus::CopiedAndFreed);
    assert_eq!(freed.bytes_copied, 11);
    assert_eq!(freed.bytes_freed, 11);
    assert_eq!(freed.message, "已复制并移入回收站");
    let kept = recycled_item_result(&entry, &Err(RecycleBinError::Failed("denied".to_string())));
    assert_eq!(kept.item_id, "item-1");
    assert_eq!(kept.status, MigrationItemStatus::Copied);
    assert_eq!(kept.bytes_copied, 11);
    assert_eq!(kept.bytes_freed, 0);
    assert_eq!(kept.message, "原文件移入回收站失败，已保留复制文件和原文件");
}

#[test]
fn finished_item_records_whether_the_original_moved() {
    let registry = registry_with_item("item-1", r"C:\Users\A\source\movie.mp4", false);
    let entry = registry.get("item-1").unwrap();
    let verified = verify_copied_file(11, 11, b"movie-bytes", b"movie-bytes");
    let moved = finish_copied_item(
        &entry,
        OriginalFilePolicy::MoveOriginalToRecycleBin,
        &verified,
        false,
        &RecordingRecycleBin::default(),
    );
    assert!(moved.recycle_requested);
    assert!(moved.original_moved);
    assert_eq!(moved.result.unwrap().status, MigrationItemStatus::CopiedAndFreed);
    let failed = finish_copied_item(&entry, OriginalFilePolicy::MoveOriginalToRecycleBin, &verified, false, &FailingRecycleBin);
    assert!(failed.recycle_requested);
    assert!(!failed.original_moved);
    let item = failed.result.unwrap();
    assert_eq!(item.status, MigrationItemStatus::Copied);
    assert_eq!(item.bytes_freed, 0);
    let kept = finish_copied_item(&entry, OriginalFilePolicy::KeepOriginal, &verified, false, &RecordingRecycleBin::default());
    assert!(!kept.recycle_requested);
    assert!(!kept.original_moved);
}

#[test]
fn migration_history_counts_freed_bytes_off_drive_c() {
    let mut report = empty_migration_result();
    report.copied_count = 2;
    report.skipped_count = 1;
    report.total_copied_bytes = 50;
    report.total_freed_bytes = 30;
    report.c_drive_freed_bytes = 10;
    let entry = migration_history_entry(&report, "a".to_string(), "b".to_string());
    assert_eq!(entry.module, OperationModule::LargeFileMigration);
    assert_eq!(entry.total_bytes, 50);
    assert_eq!(entry.freed_bytes, 30);
    assert_eq!(entry.c_drive_freed_bytes, 10);
    assert_eq!(entry.other_drive_freed_bytes, 20);
    assert_eq!(entry.success_count, 2);
    assert_eq!(entry.skipped_count, 1);
    assert_eq!(entry.failed_count, 0);
    report.c_drive_freed_bytes = 40;
    assert_eq!(migration_history_entry(&report, "a".to_string(), "b".to_string()).other_drive_freed_bytes, 0);
}

#[test]
fn only_a_completed_migration_leaves_history() {
    let report = empty_migration_result();
    assert!(migration_history_record(OperationStatus::Completed, &report, "a".to_string(), "b".to_string()).is_some());
    assert!(migration_history_record(OperationStatus::Cancelled, &report, "a".to_string(), "b".to_string()).is_none());
    assert_eq!(migration_end_message(OperationStatus::Cancelled), Some("操作已取消".to_string()));
    assert_eq!(migration_end_message(OperationStatus::Completed), None);
}

#[test]
fn scanned_large_files_get_distinct_ids_matching_their_entries() {
    let mut collector = LargeFileScanCollector::new(request(r"D:\data", 1, vec![]));
    for k in 0..20 {
        collector.offer_file(&format!(r"D:\data\file{}.bin", k), 10 + k, "2026-06-12T00:00:00Z".to_string(), "op");
    }
    let outcome = collector.finish();
    let mut ids: Vec<String> = outcome.report.items.iter().map(|item| item.item_id.clone()).collect();
    let mut entry_ids: Vec<String> = outcome.backend_entries.iter().map(|entry| entry.item_id.clone()).collect();
    assert_eq!(ids.len(), 20);
    ids.sort();
    entry_ids.sort();
    assert_eq!(ids, entry_ids);
    ids.dedup();
    assert_eq!(ids.len(), 20);
}
