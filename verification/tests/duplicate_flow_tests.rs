use std::sync::atomic::{AtomicBool, Ordering};
use std::sync::{Arc, Mutex};

use c_drive_cleaner::v2::duplicate::{
    record_recycle_answer, DuplicateEntryRegistry, FileFingerprint, FileObservation,
};
use c_drive_cleaner::v2::duplicate_report::DuplicateScanOutcome;
use c_drive_cleaner::v2::duplicate_run::{
    content_hash, duplicate_cleanup_history_entry, duplicate_cleanup_history_record, duplicate_cleanup_status, run_duplicate_cleanup,
    run_duplicate_cleanup_with_recycle_bin, scan_request_with_backend_settings,
};
use c_drive_cleaner::v2::large_files::check_cancelled;
use c_drive_cleaner::v2::duplicate_scan::DuplicateScanCollector;
use c_drive_cleaner::v2::models::{
    DuplicateCleanupFileRequest, DuplicateCleanupGroupRequest, DuplicateCleanupReport, DuplicateCleanupRequest,
    DuplicateFileType, DuplicateRecommendedAction, DuplicateScanReport, DuplicateScanRequest,
    OperationModule, OperationProgressPayload, OperationStatus,
};
use c_drive_cleaner::v2::recycle_bin::{RecycleBin, RecycleBinError};

#[derive(Default)]
struct RecordingRecycleBin {
    paths: Arc<Mutex<Vec<String>>>,
}

impl RecycleBin for RecordingRecycleBin {
    fn move_to_recycle_bin(&self, path: &str) -> Result<(), RecycleBinError> {
        self.paths.lock().unwrap().push(path.to_string());
        Ok(())
    }
}

/// A file as a scan meets it: its path, its canonical path and its bytes
/// (`None` when it can no longer be read when hashed).
struct Found<'a> {
    path: String,
    canonical: String,
    bytes: &'a [u8],
    readable: bool,
}

fn found(path: &str, bytes: &'static [u8]) -> Found<'static> {
    Found {
        path: path.to_string(),
        canonical: path.to_string(),
        bytes,
        readable: true,
    }
}

fn scan(request: DuplicateScanRequest, files: &[Found], progress: &mut Vec<OperationProgressPayload>) -> DuplicateScanOutcome {
    let mut collector = DuplicateScanCollector::new(request);
    for file in files {
        if let Some(p) = collector.offer_file(
            &file.path,
            &file.canonical,
            file.bytes.len() as u64,
            "2026-06-12T00:00:00Z".to_string(),
            "scan-1",
        ) {
            progress.push(p);
        }
    }
    for bucket in collector.size_buckets() {
        let mut hashes = Vec::new();
        for &candidate in &bucket {
            progress.push(collector.hashing_progress(candidate, "scan-1"));
            let path = collector.candidates[candidate].path.clone();
            let file = files.iter().find(|f| f.path == path).unwrap();
            hashes.push(if file.readable { Some(content_hash(file.bytes)) } else { None });
        }
        progress.extend(collector.add_bucket_groups(&bucket, &hashes, "scan-1"));
    }
    collector.finish()
}

fn document_request(folder: &str, protected_paths: Vec<String>) -> DuplicateScanRequest {
    DuplicateScanRequest {
        selected_drives: vec![],
        custom_folders: vec![folder.to_string()],
        file_types: vec![DuplicateFileType::Document],
        custom_extensions: vec![],
        include_suspected: false,
        min_size_bytes: 1,
        protected_paths,
    }
}

/// Every text of a report, as it would be sent to the user.
fn report_texts(report: &DuplicateScanReport) -> Vec<String> {
    let mut texts = Vec::new();
    for group in report.strict_groups.iter().chain(report.suspected_groups.iter()) {
        texts.push(group.group_id.clone());
        texts.push(group.recommended_selection_reason.clone());
        for file in &group.files {
            texts.push(file.entry_id.clone());
            texts.push(file.display_name.clone());
            texts.push(file.drive.clone());
            texts.push(file.visible_location_hint.clone());
            texts.push(file.modified_at.clone());
            texts.push(file.hash_fingerprint_id.clone());
        }
    }
    texts
}

fn mentions(report: &DuplicateScanReport, text: &str) -> bool {
    report_texts(report).iter().any(|t| t.contains(text))
}

#[test]
fn strict_duplicates_are_grouped_by_size_and_hash() {
    let outcome = scan(
        document_request(r"D:\tmp", vec![]),
        &[
            found(r"D:\tmp\a.txt", b"same"),
            found(r"D:\tmp\b.txt", b"same"),
            found(r"D:\tmp\c.txt", b"different"),
        ],
        &mut Vec::new(),
    );
    let report = outcome.report;
    assert_eq!(report.strict_groups.len(), 1);
    assert_eq!(report.strict_groups[0].files.len(), 2);
    assert!(report.strict_groups[0].strict_duplicate);
    assert_eq!(outcome.backend_entries.len(), 2);
}

#[test]
fn unreadable_candidate_during_hashing_is_skipped_without_aborting_scan() {
    let mut disappearing = found(r"D:\tmp\disappearing.txt", b"same");
    disappearing.readable = false;
    let outcome = scan(
        document_request(r"D:\tmp", vec![]),
        &[
            found(r"D:\tmp\keep-a.txt", b"same"),
            found(r"D:\tmp\keep-b.txt", b"same"),
            disappearing,
        ],
        &mut Vec::new(),
    );
    let report = outcome.report;
    assert_eq!(report.strict_groups.len(), 1);
    assert_eq!(report.strict_groups[0].files.len(), 2);
    assert_eq!(report.skipped_locations, 1);
    assert!(!mentions(&report, "keep-a"));
    assert!(!mentions(&report, "keep-b"));
    assert!(!mentions(&report, "disappearing"));
    assert!(!mentions(&report, r"D:\tmp"));
}

#[test]
fn protected_duplicate_files_are_reported_but_not_auto_selected() {
    let outcome = scan(
        document_request(r"D:\tmp", vec![r"D:\tmp\protected".to_string()]),
        &[
            found(r"D:\tmp\protected\protected-copy.txt", b"same"),
            found(r"D:\tmp\public\public-copy.txt", b"same"),
        ],
        &mut Vec::new(),
    );
    let report = outcome.report;
    assert_eq!(report.strict_groups.len(), 1);
    let protected_file = report.strict_groups[0].files.iter().find(|file| file.protected).unwrap();
    assert!(protected_file.protected);
    assert!(!protected_file.selected);
    assert_ne!(protected_file.recommended_action, DuplicateRecommendedAction::Clean);
    assert!(!mentions(&report, "protected-copy.txt"));
    assert!(!mentions(&report, "public-copy.txt"));
    assert!(!mentions(&report, r"D:\tmp\protected"));
}

#[test]
fn backend_protected_paths_mark_duplicate_scan_items_when_request_omits_them() {
    let request = scan_request_with_backend_settings(
        document_request(r"D:\tmp", vec![]),
        Ok(vec![r"D:\tmp\protected-root".to_string()]),
    )
    .unwrap();
    let outcome = scan(
        request,
        &[
            found(r"D:\tmp\protected-root\Alice-private-copy.txt", b"same"),
            found(r"D:\tmp\public\ordinary-copy.txt", b"same"),
        ],
        &mut Vec::new(),
    );
    let report = outcome.report;
    assert_eq!(report.strict_groups.len(), 1);
    assert!(report.strict_groups[0].files.iter().any(|file| file.protected));
    assert!(report.strict_groups[0].files.iter().all(|file| !file.display_name.contains("Alice")));
    assert!(!mentions(&report, "Alice-private-copy.txt"));
    assert!(!mentions(&report, "ordinary-copy.txt"));
    assert!(!mentions(&report, r"D:\tmp\protected-root"));
}

#[test]
fn custom_tar_gz_extension_matches_complete_filename_suffix() {
    let outcome = scan(
        DuplicateScanRequest {
            selected_drives: vec![],
            custom_folders: vec![r"D:\tmp".to_string()],
            file_types: vec![DuplicateFileType::Custom],
            custom_extensions: vec!["tar.gz".to_string()],
            include_suspected: false,
            min_size_bytes: 1,
            protected_paths: vec![],
        },
        &[
            found(r"D:\tmp\a.tar.gz", b"same"),
            found(r"D:\tmp\b.tar.gz", b"same"),
            found(r"D:\tmp\c.gz", b"same"),
        ],
        &mut Vec::new(),
    );
    let report = outcome.report;
    assert_eq!(report.strict_groups.len(), 1);
    assert_eq!(report.strict_groups[0].files.len(), 2);
    assert!(!mentions(&report, "a.tar.gz"));
    assert!(!mentions(&report, "b.tar.gz"));
    assert!(!mentions(&report, "c.gz"));
}

#[test]
fn overlapping_scan_roots_do_not_duplicate_the_same_physical_file() {
    let outcome = scan(
        document_request(r"D:\tmp", vec![]),
        &[
            found(r"D:\tmp\child\only.txt", b"same"),
            Found {
                path: r"D:\tmp\child\only.txt".to_string(),
                canonical: r"d:/tmp/child/only.txt".to_string(),
                bytes: b"same",
                readable: true,
            },
        ],
        &mut Vec::new(),
    );
    assert!(outcome.report.strict_groups.is_empty());
    assert_eq!(outcome.report.scanned_files, 1);
}

#[test]
fn scan_progress_callback_reports_desensitized_stage_progress() {
    let mut progress = Vec::new();
    let outcome = scan(
        document_request(r"D:\tmp", vec![]),
        &[found(r"D:\tmp\a.txt", b"same"), found(r"D:\tmp\b.txt", b"same")],
        &mut progress,
    );
    assert_eq!(outcome.report.strict_groups.len(), 1);
    assert!(progress.iter().any(|payload| payload.stage == "scanning"));
    assert!(progress.iter().any(|payload| payload.stage == "hashing"));
    assert!(progress.iter().all(|payload| payload.percent < 100));
    assert!(progress.iter().all(|payload| !payload.current_location_hint.contains(r"D:\tmp")));
}

fn cleanup_request(retained_id: &str) -> DuplicateCleanupRequest {
    DuplicateCleanupRequest {
        groups: vec![DuplicateCleanupGroupRequest {
            group_id: "group-1".to_string(),
            files: vec![
                DuplicateCleanupFileRequest {
                    entry_id: "selected".to_string(),
                    selected: true,
                    protected: false,
                },
                DuplicateCleanupFileRequest {
                    entry_id: retained_id.to_string(),
                    selected: false,
                    protected: false,
                },
            ],
        }],
        protected_override_confirmed: false,
    }
}

fn seen(bytes: &[u8]) -> FileObservation {
    FileObservation {
        exists: true,
        fingerprint: Some(FileFingerprint {
            size_bytes: bytes.len() as u64,
            content_hash: content_hash(bytes),
        }),
    }
}

fn gone() -> FileObservation {
    FileObservation {
        exists: false,
        fingerprint: None,
    }
}

#[test]
fn cleanup_skips_when_same_entry_is_selected_and_retained() {
    let mut registry = DuplicateEntryRegistry::default();
    registry.register_test_entry("group-1", "selected", r"D:\tmp\same.txt", false);
    let recycle_bin = RecordingRecycleBin::default();
    let run = run_duplicate_cleanup_with_recycle_bin(
        &cleanup_request("selected"),
        &registry,
        &recycle_bin,
        &vec![vec![seen(b"same"), seen(b"same")]],
    );
    assert_eq!(run.report.success_count, 0);
    assert_eq!(run.report.skipped_count, 1);
    assert!(recycle_bin.paths.lock().unwrap().is_empty());
}

#[test]
fn cleanup_skips_when_retained_duplicate_disappears() {
    let mut registry = DuplicateEntryRegistry::default();
    registry.register_test_entry("group-1", "selected", r"D:\tmp\selected.txt", false);
    registry.register_test_entry("group-1", "retained", r"D:\tmp\retained.txt", false);
    let recycle_bin = RecordingRecycleBin::default();
    let run = run_duplicate_cleanup_with_recycle_bin(
        &cleanup_request("retained"),
        &registry,
        &recycle_bin,
        &vec![vec![seen(b"same"), gone()]],
    );
    assert_eq!(run.report.success_count, 0);
    assert_eq!(run.report.skipped_count, 1);
    assert!(recycle_bin.paths.lock().unwrap().is_empty());
}

#[test]
fn cleanup_skips_registry_protected_entry_without_client_paths() {
    let mut registry = DuplicateEntryRegistry::default();
    registry.register_test_entry("group-1", "selected", r"D:\tmp\selected.txt", true);
    registry.register_test_entry("group-1", "retained", r"D:\tmp\retained.txt", false);
    let recycle_bin = RecordingRecycleBin::default();
    let run = run_duplicate_cleanup_with_recycle_bin(
        &cleanup_request("retained"),
        &registry,
        &recycle_bin,
        &vec![vec![seen(b"same"), seen(b"same")]],
    );
    assert_eq!(run.report.success_count, 0);
    assert_eq!(run.report.skipped_count, 1);
    assert!(recycle_bin.paths.lock().unwrap().is_empty());
}

#[test]
fn cleanup_progress_callback_reports_counts_without_full_paths() {
    let mut registry = DuplicateEntryRegistry::default();
    registry.register_test_entry("group-1", "selected", r"D:\tmp\selected.txt", false);
    registry.register_test_entry("group-1", "retained", r"D:\tmp\retained.txt", false);
    let recycle_bin = RecordingRecycleBin::default();
    let run = run_duplicate_cleanup_with_recycle_bin(
        &cleanup_request("retained"),
        &registry,
        &recycle_bin,
        &vec![vec![seen(b"same"), seen(b"same")]],
    );
    assert_eq!(run.report.success_count, 1);
    let progress: Vec<&OperationProgressPayload> = run.groups.iter().flat_map(|g| g.progress.iter()).collect();
    assert!(progress
        .iter()
        .any(|payload| payload.processed_items == 1 && payload.success_count == 1 && payload.found_bytes > 0));
    assert!(progress.iter().all(|payload| !payload.current_location_hint.contains(r"D:\tmp")));
}

struct RefusingRecycleBin;

impl RecycleBin for RefusingRecycleBin {
    fn move_to_recycle_bin(&self, _path: &str) -> Result<(), RecycleBinError> {
        Err(RecycleBinError::Failed("denied".to_string()))
    }
}

fn empty_report() -> DuplicateCleanupReport {
    DuplicateCleanupReport {
        processed_files: 0,
        success_count: 0,
        skipped_count: 0,
        failed_count: 0,
        freed_bytes: 0,
        c_drive_freed_bytes: 0,
        other_drive_freed_bytes: 0,
    }
}

#[test]
fn recycle_answer_counts_success_by_drive_or_failure() {
    let mut report = empty_report();
    record_recycle_answer(&mut report, r"c:\data\a.txt", 7, &Ok(()));
    assert_eq!(report.success_count, 1);
    assert_eq!(report.freed_bytes, 7);
    assert_eq!(report.c_drive_freed_bytes, 7);
    assert_eq!(report.other_drive_freed_bytes, 0);
    record_recycle_answer(&mut report, r"D:\data\a.txt", 5, &Ok(()));
    assert_eq!(report.success_count, 2);
    assert_eq!(report.freed_bytes, 12);
    assert_eq!(report.c_drive_freed_bytes, 7);
    assert_eq!(report.other_drive_freed_bytes, 5);
    record_recycle_answer(&mut report, r"D:\data\b.txt", 9, &Err(RecycleBinError::Failed("denied".to_string())));
    assert_eq!(report.success_count, 2);
    assert_eq!(report.failed_count, 1);
    assert_eq!(report.freed_bytes, 12);
    assert_eq!(report.processed_files, 0);
    assert_eq!(report.skipped_count, 0);
}

#[test]
fn cleanup_reports_each_move_and_the_bins_answer() {
    let mut registry = DuplicateEntryRegistry::default();
    registry.register_test_entry("group-1", "selected", r"C:\tmp\selected.txt", false);
    registry.register_test_entry("group-1", "retained", r"D:\tmp\retained.txt", false);
    let recycle_bin = RecordingRecycleBin::default();
    let run = run_duplicate_cleanup_with_recycle_bin(
        &cleanup_request("retained"),
        &registry,
        &recycle_bin,
        &vec![vec![seen(b"same"), seen(b"same")]],
    );
    assert_eq!(run.groups[0].recycle_requests.len(), 1);
    assert_eq!(run.groups[0].recycle_requests[0].entry.entry_id, "selected");
    assert_eq!(run.groups[0].moved, vec![true]);
    assert_eq!(run.report.processed_files, 1);
    assert_eq!(run.report.success_count, 1);
    assert_eq!(run.report.freed_bytes, 4);
    assert_eq!(run.report.c_drive_freed_bytes, 4);
    assert_eq!(run.report.other_drive_freed_bytes, 0);
    assert_eq!(*recycle_bin.paths.lock().unwrap(), vec![r"C:\tmp\selected.txt".to_string()]);
}

#[test]
fn cleanup_counts_a_refused_move_as_failed() {
    let mut registry = DuplicateEntryRegistry::default();
    registry.register_test_entry("group-1", "selected", r"D:\tmp\selected.txt", false);
    registry.register_test_entry("group-1", "retained", r"D:\tmp\retained.txt", false);
    let run = run_duplicate_cleanup_with_recycle_bin(
        &cleanup_request("retained"),
        &registry,
        &RefusingRecycleBin,
        &vec![vec![seen(b"same"), seen(b"same")]],
    );
    assert_eq!(run.groups[0].recycle_requests.len(), 1);
    assert_eq!(run.groups[0].moved, vec![false]);
    assert_eq!(run.report.success_count, 0);
    assert_eq!(run.report.failed_count, 1);
    assert_eq!(run.report.freed_bytes, 0);
}

#[test]
fn cleanup_skips_a_group_without_a_kept_copy() {
    let mut registry = DuplicateEntryRegistry::default();
    registry.register_test_entry("g", "e1", r"C:\d\a.txt", false);
    registry.register_test_entry("g", "e2", r"D:\d\a.txt", false);
    let request = DuplicateCleanupRequest {
        groups: vec![DuplicateCleanupGroupRequest {
            group_id: "g".to_string(),
            files: vec![
                DuplicateCleanupFileRequest { entry_id: "e1".to_string(), selected: true, protected: false },
                DuplicateCleanupFileRequest { entry_id: "e2".to_string(), selected: true, protected: false },
            ],
        }],
        protected_override_confirmed: false,
    };
    let recycle_bin = RecordingRecycleBin::default();
    let run = run_duplicate_cleanup_with_recycle_bin(
        &request,
        &registry,
        &recycle_bin,
        &vec![vec![seen(b"same"), seen(b"same")]],
    );
    assert_eq!(run.report, DuplicateCleanupReport { skipped_count: 2, ..empty_report() });
    assert!(run.groups[0].recycle_requests.is_empty());
    assert_eq!(run.groups[0].progress.len(), 1);
    assert_eq!(run.groups[0].progress[0].skipped_count, 2);
    assert!(recycle_bin.paths.lock().unwrap().is_empty());
}

#[test]
fn cleanup_hands_a_repeated_path_over_once() {
    let mut registry = DuplicateEntryRegistry::default();
    registry.register_test_entry("group-1", "a", r"D:\tmp\copy.txt", false);
    registry.register_test_entry("group-1", "b", r"d:\TMP\copy.txt", false);
    registry.register_test_entry("group-1", "retained", r"D:\tmp\retained.txt", false);
    let request = DuplicateCleanupRequest {
        groups: vec![DuplicateCleanupGroupRequest {
            group_id: "group-1".to_string(),
            files: vec![
                DuplicateCleanupFileRequest { entry_id: "a".to_string(), selected: true, protected: false },
                DuplicateCleanupFileRequest { entry_id: "b".to_string(), selected: true, protected: false },
                DuplicateCleanupFileRequest { entry_id: "retained".to_string(), selected: false, protected: false },
            ],
        }],
        protected_override_confirmed: false,
    };
    let recycle_bin = RecordingRecycleBin::default();
    let run = run_duplicate_cleanup_with_recycle_bin(
        &request,
        &registry,
        &recycle_bin,
        &vec![vec![seen(b"same"), seen(b"same"), seen(b"same")]],
    );
    assert_eq!(run.report.processed_files, 2);
    assert_eq!(run.report.success_count, 1);
    assert_eq!(run.report.skipped_count, 1);
    assert_eq!(recycle_bin.paths.lock().unwrap().len(), 1);
}

/// A cleanup for a running operation, as the shell runs it: the files are
/// looked at first, then the library runs with the operation's flag.
fn cancellable_cleanup(
    request: &DuplicateCleanupRequest,
    registry: &DuplicateEntryRegistry,
    recycle_bin: &dyn RecycleBin,
    observations: &Vec<Vec<FileObservation>>,
    cancelled: &AtomicBool,
) -> Result<DuplicateCleanupReport, String> {
    let run = run_duplicate_cleanup(
        request,
        registry,
        &BinRef(recycle_bin),
        &vec![],
        observations,
        "test",
        Some(cancelled),
    );
    check_cancelled(run.cancelled).map(|_| run.report)
}

struct BinRef<'a>(&'a dyn RecycleBin);

impl RecycleBin for BinRef<'_> {
    fn move_to_recycle_bin(&self, path: &str) -> Result<(), RecycleBinError> {
        self.0.move_to_recycle_bin(path)
    }
}

#[test]
fn cleanup_cancellation_before_selected_hash_prevents_recycle_move() {
    let mut registry = DuplicateEntryRegistry::default();
    registry.register_test_entry("group-1", "selected", r"D:\tmp\selected.txt", false);
    registry.register_test_entry("group-1", "retained", r"D:\tmp\retained.txt", false);
    let recycle_bin = RecordingRecycleBin::default();
    let cancelled = AtomicBool::new(false);
    // The selected copy is hashed while the files are looked at, before the
    // library runs; the cancellation comes then.
    let observations = vec![vec![seen(b"same"), seen(b"same")]];
    cancelled.store(true, Ordering::Relaxed);
    let result = cancellable_cleanup(&cleanup_request("retained"), &registry, &recycle_bin, &observations, &cancelled);
    assert_eq!(result.unwrap_err(), "操作已取消");
    assert!(recycle_bin.paths.lock().unwrap().is_empty());
}

#[test]
fn cleanup_cancellation_after_retained_hash_prevents_recycle_move() {
    let mut registry = DuplicateEntryRegistry::default();
    registry.register_test_entry("group-1", "selected", r"D:\tmp\selected.txt", false);
    registry.register_test_entry("group-1", "retained", r"D:\tmp\retained.txt", false);
    let recycle_bin = RecordingRecycleBin::default();
    let cancelled = AtomicBool::new(false);
    let observations = vec![vec![seen(b"same"), seen(b"same")]];
    cancelled.store(true, Ordering::Relaxed);
    let result = cancellable_cleanup(&cleanup_request("retained"), &registry, &recycle_bin, &observations, &cancelled);
    assert_eq!(result.unwrap_err(), "操作已取消");
    assert!(recycle_bin.paths.lock().unwrap().is_empty());
}

/// A recycle bin that asks the operation to stop once it has moved a file.
struct StoppingRecycleBin<'a> {
    cancelled: &'a AtomicBool,
    paths: Mutex<Vec<String>>,
}

impl RecycleBin for StoppingRecycleBin<'_> {
    fn move_to_recycle_bin(&self, path: &str) -> Result<(), RecycleBinError> {
        self.paths.lock().unwrap().push(path.to_string());
        self.cancelled.store(true, Ordering::Relaxed);
        Ok(())
    }
}

#[test]
fn cleanup_stops_at_the_next_copy_once_cancelled() {
    let mut registry = DuplicateEntryRegistry::default();
    registry.register_test_entry("group-1", "a", r"D:\tmp\a.txt", false);
    registry.register_test_entry("group-1", "b", r"D:\tmp\b.txt", false);
    registry.register_test_entry("group-1", "retained", r"D:\tmp\retained.txt", false);
    let request = DuplicateCleanupRequest {
        groups: vec![DuplicateCleanupGroupRequest {
            group_id: "group-1".to_string(),
            files: vec![
                DuplicateCleanupFileRequest { entry_id: "a".to_string(), selected: true, protected: false },
                DuplicateCleanupFileRequest { entry_id: "b".to_string(), selected: true, protected: false },
                DuplicateCleanupFileRequest { entry_id: "retained".to_string(), selected: false, protected: false },
            ],
        }],
        protected_override_confirmed: false,
    };
    let cancelled = AtomicBool::new(false);
    let bin = StoppingRecycleBin { cancelled: &cancelled, paths: Mutex::new(Vec::new()) };
    let run = run_duplicate_cleanup(
        &request,
        &registry,
        &bin,
        &vec![],
        &vec![vec![seen(b"same"), seen(b"same"), seen(b"same")]],
        "op",
        Some(&cancelled),
    );
    assert!(run.cancelled);
    assert_eq!(run.groups.len(), 1);
    assert!(run.groups[0].stopped);
    assert_eq!(run.groups[0].handled, 1);
    assert_eq!(run.report.processed_files, 1);
    assert_eq!(run.report.success_count, 1);
    assert_eq!(*bin.paths.lock().unwrap(), vec![r"D:\tmp\a.txt".to_string()]);
}

#[test]
fn cleanup_without_a_flag_runs_every_group() {
    let mut registry = DuplicateEntryRegistry::default();
    registry.register_test_entry("group-1", "selected", r"D:\tmp\selected.txt", false);
    registry.register_test_entry("group-1", "retained", r"D:\tmp\retained.txt", false);
    let recycle_bin = RecordingRecycleBin::default();
    let run = run_duplicate_cleanup(
        &cleanup_request("retained"),
        &registry,
        &recycle_bin,
        &vec![],
        &vec![vec![seen(b"same"), seen(b"same")]],
        "op",
        None,
    );
    assert!(!run.cancelled);
    assert_eq!(run.groups.len(), 1);
    assert!(!run.groups[0].stopped);
    assert_eq!(run.report.success_count, 1);
}

#[test]
fn duplicate_cleanup_history_records_the_report() {
    let report = DuplicateCleanupReport {
        processed_files: 3,
        success_count: 2,
        skipped_count: 1,
        failed_count: 0,
        freed_bytes: 30,
        c_drive_freed_bytes: 10,
        other_drive_freed_bytes: 20,
    };
    let entry = duplicate_cleanup_history_entry(&report, "a".to_string(), "b".to_string());
    assert_eq!(entry.module, OperationModule::DuplicateCleanup);
    assert_eq!(entry.started_at, "a");
    assert_eq!(entry.finished_at, "b");
    assert_eq!(entry.total_bytes, 30);
    assert_eq!(entry.freed_bytes, 30);
    assert_eq!(entry.c_drive_freed_bytes, 10);
    assert_eq!(entry.other_drive_freed_bytes, 20);
    assert_eq!(entry.success_count, 2);
    assert_eq!(entry.skipped_count, 1);
    assert_eq!(entry.failed_count, 0);
    assert!(!entry.history_id.is_empty());
}

#[test]
fn duplicate_cleanup_status_follows_cancellation() {
    assert_eq!(duplicate_cleanup_status(true), (OperationStatus::Cancelled, Some("操作已取消".to_string())));
    assert_eq!(duplicate_cleanup_status(false), (OperationStatus::Completed, None));
}

#[test]
fn a_cancelled_duplicate_cleanup_leaves_no_history() {
    let report = empty_report();
    assert!(duplicate_cleanup_history_record(true, &report, "a".to_string(), "b".to_string()).is_none());
    let entry = duplicate_cleanup_history_record(false, &report, "a".to_string(), "b".to_string()).unwrap();
    assert_eq!(entry.module, OperationModule::DuplicateCleanup);
}
