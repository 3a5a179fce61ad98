//! Data exchanged between the scanning, cleanup and migration rules.
use vstd::prelude::*;

verus! {

/// The kind of long-running operation.
#[derive(Debug, Clone, Copy, PartialEq, Eq, Structural)]
pub enum OperationModule {
    DuplicateScan,
    DuplicateCleanup,
    LargeFileScan,
    LargeFileMigration,
    CDriveCleanup,
}

/// How an operation ended, or that it is still running.
#[derive(Debug, Clone, Copy, PartialEq, Eq, Structural)]
pub enum OperationStatus {
    Running,
    Completed,
    Cancelled,
    Failed,
}

/// File families that a duplicate scan can be limited to.
#[derive(Debug, Clone, Copy, PartialEq, Eq, Structural)]
pub enum DuplicateFileType {
    Image,
    Document,
    Audio,
    Video,
    Archive,
    Custom,
}

/// Whether a duplicate group was proved by content or only suspected.
#[derive(Debug, Clone, Copy, PartialEq, Eq, Structural)]
pub enum DuplicateGroupKind {
    Strict,
    Suspected,
}

/// What the cleaner recommends for one copy in a duplicate group.
#[derive(Debug, Clone, Copy, PartialEq, Eq, Structural)]
pub enum DuplicateRecommendedAction {
    Keep,
    Clean,
    ManualReview,
}

/// What happens to the original after a large file was copied.
#[derive(Debug, Clone, Copy, PartialEq, Eq, Structural)]
pub enum OriginalFilePolicy {
    KeepOriginal,
    MoveOriginalToRecycleBin,
}

/// Coarse kind of a large file, from its extension.
#[derive(Debug, Clone, Copy, PartialEq, Eq, Structural)]
pub enum LargeFileCategory {
    Video,
    Archive,
    Installer,
    DiskImage,
    Document,
    Other,
}

/// Which copy a duplicate cleanup keeps by default.
#[derive(Debug, Clone, Copy, PartialEq, Eq, Structural)]
pub enum DuplicateDefaultStrategy {
    CDriveFirstKeepNewest,
    KeepNewest,
    KeepOldest,
}

/// Outcome of one migrated item.
#[derive(Debug, Clone, Copy, PartialEq, Eq, Structural)]
pub enum MigrationItemStatus {
    Copied,
    CopiedAndFreed,
    Skipped,
    Failed,
}

/// The identifier handed out for a started operation.
#[derive(Debug, Clone, PartialEq, Eq)]
pub struct OperationStart {
    pub operation_id: String,
}

/// A progress report of a running operation; it never holds a full path.
#[derive(Debug, Clone, PartialEq, Eq)]
pub struct OperationProgressPayload {
    pub operation_id: String,
    pub module: OperationModule,
    pub stage: String,
    pub percent: u8,
    pub current_location_hint: String,
    pub current_file_type: Option<String>,
    pub scanned_files: u64,
    pub found_groups: u64,
    pub found_items: u64,
    pub found_bytes: u64,
    pub processed_items: u64,
    pub success_count: u64,
    pub skipped_count: u64,
    pub failed_count: u64,
}

/// The user's cleaner settings.
#[derive(Debug, Clone, PartialEq, Eq)]
pub struct CleanerSettings {
    pub protected_paths: Vec<String>,
    pub default_scan_drives: Vec<String>,
    pub duplicate_default_strategy: DuplicateDefaultStrategy,
    pub large_file_default_threshold_bytes: u64,
    pub history_retention_days: u32,
    pub desktop_shortcut_enabled: bool,
    pub c_drive_context_menu_enabled: bool,
    pub scheduled_scan_reminder_enabled: bool,
}

/// One desensitized record of a finished operation.
#[derive(Debug, Clone, PartialEq, Eq)]
pub struct HistoryEntry {
    pub history_id: String,
    pub module: OperationModule,
    pub started_at: String,
    pub finished_at: String,
    pub total_bytes: u64,
    pub freed_bytes: u64,
    pub c_drive_freed_bytes: u64,
    pub other_drive_freed_bytes: u64,
    pub success_count: u64,
    pub skipped_count: u64,
    pub failed_count: u64,
    pub error_categories: Vec<String>,
}

/// What a duplicate scan should look at.
#[derive(Debug, Clone, PartialEq, Eq)]
pub struct DuplicateScanRequest {
    pub selected_drives: Vec<String>,
    pub custom_folders: Vec<String>,
    pub file_types: Vec<DuplicateFileType>,
    pub custom_extensions: Vec<String>,
    pub include_suspected: bool,
    pub min_size_bytes: u64,
    pub protected_paths: Vec<String>,
}

/// The result of a duplicate scan, free of paths and file names.
#[derive(Debug, Clone, PartialEq, Eq)]
pub struct DuplicateScanReport {
    pub strict_groups: Vec<DuplicateFileGroup>,
    pub suspected_groups: Vec<DuplicateFileGroup>,
    pub scanned_files: u64,
    pub skipped_locations: u64,
    pub total_reclaimable_bytes: u64,
    pub c_drive_reclaimable_bytes: u64,
    pub other_drive_reclaimable_bytes: u64,
}

/// Copies of one file found by a duplicate scan.
#[derive(Debug, Clone, PartialEq, Eq)]
pub struct DuplicateFileGroup {
    pub group_id: String,
    pub strict_duplicate: bool,
    pub total_bytes: u64,
    pub reclaimable_bytes: u64,
    pub files: Vec<DuplicateFileEntry>,
    pub recommended_selection_reason: String,
}

/// One copy in a duplicate group, as shown to the user.
#[derive(Debug, Clone, PartialEq, Eq)]
pub struct DuplicateFileEntry {
    pub entry_id: String,
    pub display_name: String,
    pub drive: String,
    pub visible_location_hint: String,
    pub size_bytes: u64,
    pub modified_at: String,
    pub hash_fingerprint_id: String,
    pub selected: bool,
    pub protected: bool,
    pub recommended_action: DuplicateRecommendedAction,
}

/// A request to clean duplicates; files are named by entry id only.
#[derive(Debug, Clone, PartialEq, Eq)]
pub struct DuplicateCleanupRequest {
    pub groups: Vec<DuplicateCleanupGroupRequest>,
    pub protected_override_confirmed: bool,
}

/// The user's choice for one duplicate group.
#[derive(Debug, Clone, PartialEq, Eq)]
pub struct DuplicateCleanupGroupRequest {
    pub group_id: String,
    pub files: Vec<DuplicateCleanupFileRequest>,
}

/// The user's choice for one copy.
#[derive(Debug, Clone, PartialEq, Eq)]
pub struct DuplicateCleanupFileRequest {
    pub entry_id: String,
    pub selected: bool,
    pub protected: bool,
}

/// Counts of a duplicate cleanup.
#[derive(Debug, Clone, PartialEq, Eq)]
pub struct DuplicateCleanupReport {
    pub processed_files: u64,
    pub success_count: u64,
    pub skipped_count: u64,
    pub failed_count: u64,
    pub freed_bytes: u64,
    pub c_drive_freed_bytes: u64,
    pub other_drive_freed_bytes: u64,
}

/// What a large-file scan should look at.
#[derive(Debug, Clone, PartialEq, Eq)]
pub struct LargeFileScanRequest {
    pub selected_drives: Vec<String>,
    pub custom_folders: Vec<String>,
    pub min_size_bytes: u64,
    pub protected_paths: Vec<String>,
    pub skip_system_dirs: bool,
    pub skip_program_dirs: bool,
}

/// One large file, as shown to the user.
#[derive(Debug, Clone, PartialEq, Eq)]
pub struct LargeFileItem {
    pub item_id: String,
    pub display_name: String,
    pub drive: String,
    pub visible_location_hint: String,
    pub size_bytes: u64,
    pub modified_at: String,
    pub category: LargeFileCategory,
    pub selected: bool,
    pub protected: bool,
    pub recommended: bool,
}

/// The result of a large-file scan.
#[derive(Debug, Clone, PartialEq, Eq)]
pub struct LargeFileScanReport {
    pub items: Vec<LargeFileItem>,
    pub scanned_files: u64,
    pub skipped_locations: u64,
    pub total_bytes: u64,
    pub c_drive_bytes: u64,
    pub other_drive_bytes: u64,
}

/// A request to copy large files to another folder.
#[derive(Debug, Clone, PartialEq, Eq)]
pub struct MigrationRequest {
    pub selected_item_ids: Vec<String>,
    pub scan_report: LargeFileScanReport,
    pub target_folder: String,
    pub original_file_policy: OriginalFilePolicy,
    pub protected_override_confirmed: bool,
}

/// Outcome of one migrated item.
#[derive(Debug, Clone, PartialEq, Eq)]
pub struct MigrationItemResult {
    pub item_id: String,
    pub status: MigrationItemStatus,
    pub category: LargeFileCategory,
    pub bytes_copied: u64,
    pub bytes_freed: u64,
    pub message: String,
}

/// Counts and item outcomes of a migration.
#[derive(Debug, Clone, PartialEq, Eq)]
pub struct MigrationResult {
    pub copied_count: u64,
    pub moved_to_recycle_bin_count: u64,
    pub skipped_count: u64,
    pub failed_count: u64,
    pub total_copied_bytes: u64,
    pub total_freed_bytes: u64,
    pub c_drive_freed_bytes: u64,
    pub item_results: Vec<MigrationItemResult>,
}

} // verus!
