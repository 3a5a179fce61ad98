//! What a C drive scan reports and what a cleanup request and result hold.
use vstd::prelude::*;

verus! {

/// How safe it is to clean an item.
#[derive(Debug, Clone, Copy, PartialEq, Eq, Structural)]
pub enum RiskLevel {
    Recommended,
    Optional,
    HighRisk,
    NotCleanable,
}

/// Where the data of an item comes from.
#[derive(Debug, Clone, Copy, PartialEq, Eq, Structural)]
pub enum SourceCategory {
    System,
    CommonSoftware,
    Wechat,
    Qq,
    WorkChat,
    CloudDrive,
    InstallersOldVersions,
    OtherLarge,
}

/// What cleaning an item does, or why it cannot be cleaned.
#[derive(Debug, Clone, Copy, PartialEq, Eq, Structural)]
pub enum CleanupAction {
    DirectDelete,
    ExplainOnly,
    RequiresAdmin,
    BlockedByProcess,
    BlockedByConfigReference,
}

/// Size and free space of a drive.
#[derive(Debug, Clone, PartialEq, Eq)]
pub struct DriveSummary {
    pub drive: String,
    pub total_bytes: u64,
    pub free_bytes: u64,
}

/// One location found by a scan. The technical path stays in the back end.
#[derive(Debug, Clone, PartialEq, Eq)]
pub struct ScanItem {
    pub id: String,
    pub title: String,
    pub description: String,
    pub source_category: SourceCategory,
    pub risk_level: RiskLevel,
    pub cleanup_action: CleanupAction,
    pub estimated_bytes: u64,
    pub default_selected: bool,
    pub user_visible_path_hint: String,
    pub technical_path: Option<String>,
    pub reasons: Vec<String>,
    pub warnings: Vec<String>,
}

/// The result of a C drive scan.
#[derive(Debug, Clone, PartialEq, Eq)]
pub struct ScanReport {
    pub drive_summary: DriveSummary,
    pub items: Vec<ScanItem>,
    pub partial: bool,
    pub scan_started_at: String,
    pub scan_finished_at: String,
}

/// The items the user chose to clean.
#[derive(Debug, Clone, PartialEq, Eq)]
pub struct CleanupSelection {
    pub selected_item_ids: Vec<String>,
    pub high_risk_confirmed: bool,
}

/// Outcome of one cleaned item: `deleted`, `skipped` or `failed`.
#[derive(Debug, Clone, PartialEq, Eq)]
pub struct CleanupItemResult {
    pub item_id: String,
    pub status: String,
    pub freed_bytes: u64,
    pub message: String,
}

/// Outcome of a cleanup.
#[derive(Debug, Clone, PartialEq, Eq)]
pub struct CleanupResult {
    pub results: Vec<CleanupItemResult>,
    pub total_freed_bytes: u64,
    pub finished_at: String,
}

} // verus!
