//! Running duplicate operations: the scan roots and settings of a scan, the
//! content fingerprints, and a whole cleanup request.
use vstd::prelude::*;

use sha2::Digest;

use crate::text::{chars_eq, string_of, to_chars};
use crate::v2::duplicate::{
    cleanup_duplicate_group, group_progress, group_progress_counts, group_requests, group_stop, group_tally,
    group_units, may_recycle, observed_bytes, outcome_count, resolved_well, tally_of, CleanupTally,
    DuplicateBackendEntry, DuplicateEntryRegistry, FileFingerprint,
    FileObservation, GroupCleanupOutcome,
};
use crate::ids::new_identifier;
use crate::v2::models::{
    DuplicateCleanupFileRequest, DuplicateCleanupGroupRequest, DuplicateCleanupReport,
    DuplicateCleanupRequest, DuplicateScanRequest, HistoryEntry, OperationModule, OperationStatus,
};
use crate::v2::path_safety::{
    drive_root_of, is_absolute_path, path_is_absolute, selected_drive_to_root, views,
};
use crate::v2::cancellation::cancellation_requested;
use crate::v2::recycle_bin::RecycleBin;

use std::sync::atomic::AtomicBool;

verus! {

/// The SHA-256 digest of `bytes` as 64 lower-case hexadecimal digits.
pub uninterp spec fn sha256_hex(bytes: Seq<u8>) -> Seq<char>;

/// Calls `sha2::Sha256::digest` on the bytes and formats the digest with
/// `{:x}`. Trusted: the text is `sha256_hex` of the bytes, a function of the
/// bytes alone; nothing more is stated of it.
#[verifier::external_body]
fn sha256_lower_hex(bytes: &[u8]) -> (r: String)
    ensures
        r@ == sha256_hex(bytes@),
{
    format!("{:x}", sha2::Sha256::digest(bytes))
}

/// The content hash of a file's bytes: their SHA-256 digest in hexadecimal.
pub fn content_hash(contents: &[u8]) -> (r: String)
    ensures
        r@ == sha256_hex(contents@),
{
    sha256_lower_hex(contents)
}

/// The fingerprint of a file of `size_bytes` bytes with these contents.
pub fn file_fingerprint(size_bytes: u64, contents: &[u8]) -> (r: FileFingerprint)
    ensures
        r.size_bytes == size_bytes,
        r.content_hash@ == sha256_hex(contents@),
{
    FileFingerprint { size_bytes, content_hash: content_hash(contents) }
}

/// The roots of the selected drives that name a drive, in order.
pub open spec fn drive_roots(drives: Seq<Seq<char>>) -> Seq<Seq<char>>
    decreases drives.len(),
{
    if drives.len() == 0 {
        Seq::empty()
    } else {
        drive_roots(drives.drop_last()) + match drive_root_of(drives.last()) {
            Some(root) => seq![root],
            None => Seq::empty(),
        }
    }
}

/// The custom folders that are absolute paths, in order.
pub open spec fn absolute_folders(folders: Seq<Seq<char>>) -> Seq<Seq<char>>
    decreases folders.len(),
{
    if folders.len() == 0 {
        Seq::empty()
    } else {
        absolute_folders(folders.drop_last()) + if is_absolute_path(folders.last()) {
            seq![folders.last()]
        } else {
            Seq::empty()
        }
    }
}

/// Where a scan looks: the roots of the selected drives, then the custom
/// folders that are absolute paths.
pub fn scan_roots(selected_drives: &Vec<String>, custom_folders: &Vec<String>) -> (r: Vec<String>)
    ensures
        views(r@) == drive_roots(views(selected_drives@)) + absolute_folders(views(custom_folders@)),
{
    let mut roots: Vec<String> = Vec::new();
    let mut i: usize = 0;
    while i < selected_drives.len()
        invariant
            i <= selected_drives@.len(),
            views(roots@) == drive_roots(views(selected_drives@).take(i as int)),
        decreases selected_drives@.len() - i,
    {
        let ghost before = views(roots@);
        proof {
            assert(views(selected_drives@).take(i + 1).drop_last() =~= views(selected_drives@).take(i as int));
            assert(views(selected_drives@).take(i + 1).last() == selected_drives@[i as int]@);
        }
        match selected_drive_to_root(selected_drives[i].as_str()) {
            Some(root) => {
                roots.push(root);
                proof {
                    assert(views(roots@) =~= before + seq![roots@.last()@]);
                }
            },
            None => {
                proof {
                    assert(before + Seq::<Seq<char>>::empty() =~= before);
                }
            },
        }
        i += 1;
    }
    proof {
        assert(views(selected_drives@).take(selected_drives@.len() as int) =~= views(selected_drives@));
    }
    let ghost drive_part = views(roots@);
    let mut j: usize = 0;
    while j < custom_folders.len()
        invariant
            j <= custom_folders@.len(),
            views(roots@) == drive_part + absolute_folders(views(custom_folders@).take(j as int)),
        decreases custom_folders@.len() - j,
    {
        let ghost before = views(roots@);
        proof {
            assert(views(custom_folders@).take(j + 1).drop_last() =~= views(custom_folders@).take(j as int));
            assert(views(custom_folders@).take(j + 1).last() == custom_folders@[j as int]@);
        }
        if path_is_absolute(&to_chars(custom_folders[j].as_str())) {
            roots.push(custom_folders[j].clone());
            proof {
                assert(views(roots@) =~= before + seq![custom_folders@[j as int]@]);
                assert(drive_part + absolute_folders(views(custom_folders@).take(j + 1)) =~= before
                    + seq![custom_folders@[j as int]@]);
            }
        } else {
            proof {
                assert(drive_part + absolute_folders(views(custom_folders@).take(j + 1)) =~= before);
            }
        }
        j += 1;
    }
    proof {
        assert(views(custom_folders@).take(custom_folders@.len() as int) =~= views(custom_folders@));
    }
    roots
}

/// `existing` followed by the paths of `extra` that are not yet present, in
/// order and each once.
pub open spec fn merged_paths(existing: Seq<Seq<char>>, extra: Seq<Seq<char>>) -> Seq<Seq<char>>
    decreases extra.len(),
{
    if extra.len() == 0 {
        existing
    } else {
        let before = merged_paths(existing, extra.drop_last());
        if before.contains(extra.last()) {
            before
        } else {
            before.push(extra.last())
        }
    }
}

pub(crate) fn contains_text(list: &Vec<String>, item: &String) -> (r: bool)
    ensures
        r == views(list@).contains(item@),
{
    let mut k: usize = 0;
    while k < list.len()
        invariant
            k <= list@.len(),
            forall|j: int| 0 <= j < k ==> (#[trigger] list@[j])@ != item@,
        decreases list@.len() - k,
    {
        if list[k] == *item {
            proof {
                assert(views(list@)[k as int] == item@);
            }
            return true;
        }
        k += 1;
    }
    proof {
        if views(list@).contains(item@) {
            let j = choose|j: int| 0 <= j < views(list@).len() && views(list@)[j] == item@;
            assert(list@[j]@ == item@);
        }
    }
    false
}

/// The request with the protected paths from the settings added after its
/// own, each path once.
pub fn request_with_backend_protected_paths(
    request: DuplicateScanRequest,
    backend_protected_paths: Vec<String>,
) -> (r: DuplicateScanRequest)
    ensures
        views(r.protected_paths@) == merged_paths(views(request.protected_paths@), views(backend_protected_paths@)),
        r.selected_drives == request.selected_drives,
        r.custom_folders == request.custom_folders,
        r.file_types == request.file_types,
        r.custom_extensions == request.custom_extensions,
        r.include_suspected == request.include_suspected,
        r.min_size_bytes == request.min_size_bytes,
{
    let ghost given = request;
    let mut request = request;
    let ghost asked = views(request.protected_paths@);
    let mut i: usize = 0;
    while i < backend_protected_paths.len()
        invariant
            i <= backend_protected_paths@.len(),
            views(request.protected_paths@) == merged_paths(asked, views(backend_protected_paths@).take(i as int)),
            request.selected_drives == given.selected_drives,
            request.custom_folders == given.custom_folders,
            request.file_types == given.file_types,
            request.custom_extensions == given.custom_extensions,
            request.include_suspected == given.include_suspected,
            request.min_size_bytes == given.min_size_bytes,
        decreases backend_protected_paths@.len() - i,
    {
        proof {
            assert(views(backend_protected_paths@).take(i + 1).drop_last() =~= views(backend_protected_paths@).take(i as int));
            assert(views(backend_protected_paths@).take(i + 1).last() == backend_protected_paths@[i as int]@);
        }
        let item = &backend_protected_paths[i];
        if !contains_text(&request.protected_paths, item) {
            let ghost before = views(request.protected_paths@);
            request.protected_paths.push(item.clone());
            proof {
                assert(views(request.protected_paths@) =~= before.push(item@));
            }
        }
        i += 1;
    }
    proof {
        assert(views(backend_protected_paths@).take(backend_protected_paths@.len() as int) =~= views(backend_protected_paths@));
    }
    request
}

/// The error of a scan that could not read the cleaner settings.
pub fn scan_settings_unavailable_error() -> (r: String)
    ensures
        r@ == "无法读取清理设置，扫描已停止"@,
{
    string_of("无法读取清理设置，扫描已停止")
}

/// The error of a cleanup that could not read the cleaner settings.
pub fn cleanup_settings_unavailable_error() -> (r: String)
    ensures
        r@ == "无法读取清理设置，清理已停止"@,
{
    string_of("无法读取清理设置，清理已停止")
}

/// The request a scan runs with, given what reading the settings' protected
/// paths gave: their merge into the request, or the settings error.
pub fn scan_request_with_backend_settings(
    request: DuplicateScanRequest,
    backend_protected_paths: Result<Vec<String>, String>,
) -> (r: Result<DuplicateScanRequest, String>)
    ensures
        match backend_protected_paths {
            Ok(paths) => r matches Ok(q) && views(q.protected_paths@) == merged_paths(
                views(request.protected_paths@),
                views(paths@),
            ) && q.selected_drives == request.selected_drives && q.custom_folders == request.custom_folders
                && q.file_types == request.file_types && q.custom_extensions == request.custom_extensions
                && q.include_suspected == request.include_suspected && q.min_size_bytes == request.min_size_bytes,
            Err(_) => r matches Err(e) && e@ == "无法读取清理设置，扫描已停止"@,
        },
{
    match backend_protected_paths {
        Ok(paths) => Ok(request_with_backend_protected_paths(request, paths)),
        Err(_) => Err(scan_settings_unavailable_error()),
    }
}

/// The error categories recorded in history for a duplicate cleanup.
pub open spec fn cleanup_categories(report: DuplicateCleanupReport) -> Seq<Seq<char>> {
    let skipped: Seq<Seq<char>> = if report.skipped_count > 0 {
        seq!["跳过受保护或已变化文件"@]
    } else {
        Seq::empty()
    };
    let failed: Seq<Seq<char>> = if report.failed_count > 0 {
        seq!["回收站移动失败"@]
    } else {
        Seq::empty()
    };
    if report.skipped_count == 0 && report.failed_count == 0 {
        seq!["无错误"@]
    } else {
        skipped + failed
    }
}

/// The error categories recorded in history for a duplicate cleanup.
pub fn cleanup_error_categories(report: &DuplicateCleanupReport) -> (r: Vec<String>)
    ensures
        views(r@) == cleanup_categories(*report),
{
    let mut categories: Vec<String> = Vec::new();
    if report.skipped_count > 0 {
        categories.push(string_of("跳过受保护或已变化文件"));
    }
    if report.failed_count > 0 {
        categories.push(string_of("回收站移动失败"));
    }
    if categories.len() == 0 {
        categories.push(string_of("无错误"));
    }
    assert(views(categories@) =~= cleanup_categories(*report));
    categories
}

/// The history record of a finished duplicate cleanup, under a fresh
/// identifier: its freed bytes are also its total, and its counts and error
/// categories are the report's.
pub fn duplicate_cleanup_history_entry(
    report: &DuplicateCleanupReport,
    started_at: String,
    finished_at: String,
) -> (r: HistoryEntry)
    ensures
        r.module == OperationModule::DuplicateCleanup,
        r.started_at == started_at,
        r.finished_at == finished_at,
        r.total_bytes == report.freed_bytes,
        r.freed_bytes == report.freed_bytes,
        r.c_drive_freed_bytes == report.c_drive_freed_bytes,
        r.other_drive_freed_bytes == report.other_drive_freed_bytes,
        r.success_count == report.success_count,
        r.skipped_count == report.skipped_count,
        r.failed_count == report.failed_count,
        views(r.error_categories@) == cleanup_categories(*report),
{
    HistoryEntry {
        history_id: new_identifier(),
        module: OperationModule::DuplicateCleanup,
        started_at,
        finished_at,
        total_bytes: report.freed_bytes,
        freed_bytes: report.freed_bytes,
        c_drive_freed_bytes: report.c_drive_freed_bytes,
        other_drive_freed_bytes: report.other_drive_freed_bytes,
        success_count: report.success_count,
        skipped_count: report.skipped_count,
        failed_count: report.failed_count,
        error_categories: cleanup_error_categories(report),
    }
}

/// The history record a duplicate cleanup leaves: one (see
/// `duplicate_cleanup_history_entry`) only when it was not cancelled.
pub fn duplicate_cleanup_history_record(
    cancelled_after_cleanup: bool,
    report: &DuplicateCleanupReport,
    started_at: String,
    finished_at: String,
) -> (r: Option<HistoryEntry>)
    ensures
        r is Some <==> !cancelled_after_cleanup,
        r matches Some(h) ==> h.module == OperationModule::DuplicateCleanup && h.started_at == started_at
            && h.finished_at == finished_at && h.total_bytes == report.freed_bytes && h.freed_bytes
            == report.freed_bytes && h.c_drive_freed_bytes == report.c_drive_freed_bytes
            && h.other_drive_freed_bytes == report.other_drive_freed_bytes && h.success_count
            == report.success_count && h.skipped_count == report.skipped_count && h.failed_count
            == report.failed_count && views(h.error_categories@) == cleanup_categories(*report),
{
    if cancelled_after_cleanup {
        None
    } else {
        Some(duplicate_cleanup_history_entry(report, started_at, finished_at))
    }
}

/// How a duplicate cleanup ended: cancelled, with the cancellation message,
/// when the operation was cancelled by then; completed otherwise.
pub fn duplicate_cleanup_status(cancelled_after_cleanup: bool) -> (r: (OperationStatus, Option<String>))
    ensures
        cancelled_after_cleanup ==> r.0 == OperationStatus::Cancelled && (r.1 matches Some(m) && m@ == "操作已取消"@),
        !cancelled_after_cleanup ==> r.0 == OperationStatus::Completed && r.1 is None,
{
    if cancelled_after_cleanup {
        (OperationStatus::Cancelled, Some(string_of("操作已取消")))
    } else {
        (OperationStatus::Completed, None)
    }
}

/// Number of files of the groups.
pub open spec fn total_files(groups: Seq<DuplicateCleanupGroupRequest>) -> int
    decreases groups.len(),
{
    if groups.len() == 0 {
        0
    } else {
        total_files(groups.drop_last()) + groups.last().files@.len()
    }
}

/// Number of selected files of the groups.
pub open spec fn selected_files(groups: Seq<DuplicateCleanupGroupRequest>) -> int
    decreases groups.len(),
{
    if groups.len() == 0 {
        0
    } else {
        selected_files(groups.drop_last()) + selected_in(groups.last().files@, groups.last().files@.len() as int)
    }
}

/// Number of selected files among `files[..n]`.
pub open spec fn selected_in(files: Seq<DuplicateCleanupFileRequest>, n: int) -> int
    decreases n,
{
    if n <= 0 {
        0
    } else {
        selected_in(files, n - 1) + if files[n - 1].selected {
            1int
        } else {
            0
        }
    }
}

/// Sum of the observed sizes over all groups.
pub open spec fn total_observed(observations: Seq<Vec<FileObservation>>) -> int
    decreases observations.len(),
{
    if observations.len() == 0 {
        0
    } else {
        total_observed(observations.drop_last()) + observed_bytes(
            observations.last()@,
            observations.last()@.len() as int,
        )
    }
}

/// Number of outcomes (successes, skips and failures) that the groups
/// account for (see `group_units`).
pub open spec fn outcomes_of(groups: Seq<GroupCleanupOutcome>) -> int
    decreases groups.len(),
{
    if groups.len() == 0 {
        0
    } else {
        outcomes_of(groups.drop_last()) + group_units(groups.last())
    }
}

/// Number of copies handed to the recycle bin over all groups.
pub open spec fn recycled_of(groups: Seq<GroupCleanupOutcome>) -> int
    decreases groups.len(),
{
    if groups.len() == 0 {
        0
    } else {
        recycled_of(groups.drop_last()) + groups.last().recycle_requests@.len()
    }
}

/// The counters of a cleanup that has not started.
pub open spec fn zero_tally() -> CleanupTally {
    CleanupTally {
        processed: 0,
        success: 0,
        skipped: 0,
        failed: 0,
        freed: 0,
        c_drive_freed: 0,
        other_drive_freed: 0,
    }
}

/// The counters after the groups, from `start`: each group counts as
/// `group_tally` says, with the recycle bin's answers it got.
pub open spec fn run_tally(
    start: CleanupTally,
    groups: Seq<GroupCleanupOutcome>,
    observations: Seq<Vec<FileObservation>>,
    protected_paths: Seq<Seq<char>>,
    override_confirmed: bool,
) -> CleanupTally
    decreases groups.len(),
{
    if groups.len() == 0 {
        start
    } else {
        group_tally(
            run_tally(start, groups.drop_last(), observations, protected_paths, override_confirmed),
            groups.last(),
            observations[groups.len() - 1]@,
            protected_paths,
            override_confirmed,
        )
    }
}

/// What a cleanup states of group `g`'s outcome `o`, the group having started
/// from the counters `start`: the group was resolved as `resolved_well` says
/// and stopped only as `group_stop` allows; the copies handed to the recycle
/// bin are those `group_requests` names, each one that `may_recycle`
/// allows, with one answer of the bin each; and its progress reports show
/// the counts and only the drives of its selected copies.
#[verifier::opaque]
pub open spec fn group_record(
    request: DuplicateCleanupRequest,
    registry: Map<Seq<char>, DuplicateBackendEntry>,
    observations: Seq<Vec<FileObservation>>,
    protected_paths: Seq<Seq<char>>,
    operation_id: Seq<char>,
    o: GroupCleanupOutcome,
    g: int,
    start: CleanupTally,
) -> bool {
    let ov = request.protected_override_confirmed;
    let obs = observations[g]@;
    &&& resolved_well(request.groups@[g], registry, o.resolved)
    &&& group_stop(o, obs, protected_paths, ov)
    &&& o.recycle_requests@ == group_requests(o, obs, protected_paths, ov)
    &&& o.moved@.len() == o.recycle_requests@.len()
    &&& forall|k: int|
        0 <= k < o.recycle_requests@.len() ==> may_recycle(
            #[trigger] o.recycle_requests@[k],
            o.resolved.retained@,
            obs,
            protected_paths,
            ov,
        )
    &&& group_progress_counts(o, start, obs, protected_paths, ov)
    &&& forall|k: int| 0 <= k < o.progress@.len() ==> group_progress(#[trigger] o.progress@[k], operation_id, o.resolved)
}

/// A whole duplicate cleanup: the report, what each group did, and whether a
/// cancellation stopped it.
pub struct DuplicateCleanupRun {
    pub report: DuplicateCleanupReport,
    pub groups: Vec<GroupCleanupOutcome>,
    pub cancelled: bool,
}

proof fn lemma_selected_in_le(files: Seq<DuplicateCleanupFileRequest>, n: int)
    requires
        0 <= n,
    ensures
        0 <= selected_in(files, n) <= n,
    decreases n,
{
    if n > 0 {
        lemma_selected_in_le(files, n - 1);
    }
}

proof fn lemma_prefix_totals(groups: Seq<DuplicateCleanupGroupRequest>, observations: Seq<Vec<FileObservation>>, g: int)
    requires
        0 <= g < groups.len(),
        groups.len() == observations.len(),
    ensures
        total_files(groups.take(g)) + groups[g].files@.len() == total_files(groups.take(g + 1)),
        total_files(groups.take(g + 1)) <= total_files(groups),
        total_observed(observations.take(g)) + observed_bytes(observations[g]@, observations[g]@.len() as int)
            == total_observed(observations.take(g + 1)),
        total_observed(observations.take(g + 1)) <= total_observed(observations),
        total_files(groups.take(g)) >= 0,
        total_observed(observations.take(g)) >= 0,
    decreases groups.len() - g,
{
    assert(groups.take(g + 1).drop_last() =~= groups.take(g));
    assert(observations.take(g + 1).drop_last() =~= observations.take(g));
    lemma_totals_nonneg(groups.take(g), observations.take(g));
    if g + 1 < groups.len() {
        lemma_prefix_totals(groups, observations, g + 1);
        crate::v2::duplicate::lemma_observed_bytes_nonneg(observations[g + 1]@, observations[g + 1]@.len() as int);
    } else {
        assert(groups.take(g + 1) =~= groups);
        assert(observations.take(g + 1) =~= observations);
    }
}

proof fn lemma_totals_nonneg(groups: Seq<DuplicateCleanupGroupRequest>, observations: Seq<Vec<FileObservation>>)
    ensures
        total_files(groups) >= 0,
        total_observed(observations) >= 0,
    decreases groups.len() + observations.len(),
{
    if groups.len() > 0 {
        lemma_totals_nonneg(groups.drop_last(), observations);
    }
    if observations.len() > 0 {
        lemma_totals_nonneg(groups, observations.drop_last());
        crate::v2::duplicate::lemma_observed_bytes_nonneg(observations.last()@, observations.last()@.len() as int);
    }
}

/// Runs a duplicate cleanup request group by group (see
/// `cleanup_duplicate_group`). `observations[g][i]` is what was seen of the
/// file behind `request.groups[g].files[i]`; `protected_paths` are the
/// user's protected paths from the settings. No copy is handed to the
/// recycle bin unless `may_recycle` holds of it within its group. A
/// cancellation, read before each group and within groups, stops the run;
/// the groups done so far and the counts so far are returned.
#[verifier::spinoff_prover]
#[verifier::rlimit(100)]
pub fn run_duplicate_cleanup<R: RecycleBin>(
    request: &DuplicateCleanupRequest,
    registry: &DuplicateEntryRegistry,
    recycle_bin: &R,
    protected_paths: &Vec<String>,
    observations: &Vec<Vec<FileObservation>>,
    operation_id: &str,
    cancelled: Option<&AtomicBool>,
) -> (r: DuplicateCleanupRun)
    requires
        observations@.len() == request.groups@.len(),
        forall|g: int| 0 <= g < observations@.len() ==> (#[trigger] observations@[g])@.len() == request.groups@[g].files@.len(),
        total_files(request.groups@) <= u64::MAX,
        total_observed(observations@) <= u64::MAX,
    ensures
        r.groups@.len() <= request.groups@.len(),
        !r.cancelled ==> r.groups@.len() == request.groups@.len(),
        cancelled is None ==> !r.cancelled,
        forall|g: int| 0 <= g < r.groups@.len() ==> (#[trigger] r.groups@[g]).stopped ==> r.cancelled && g == r.groups@.len() - 1,
        forall|g: int|
            0 <= g < r.groups@.len() ==> group_record(
                *request,
                registry@,
                observations@,
                views(protected_paths@),
                operation_id@,
                #[trigger] r.groups@[g],
                g,
                run_tally(
                    zero_tally(),
                    r.groups@.take(g),
                    observations@,
                    views(protected_paths@),
                    request.protected_override_confirmed,
                ),
            ),
        tally_of(r.report) == run_tally(
            zero_tally(),
            r.groups@,
            observations@,
            views(protected_paths@),
            request.protected_override_confirmed,
        ),
        outcome_count(r.report) == outcomes_of(r.groups@),
        r.report.success_count <= recycled_of(r.groups@),
        r.report.freed_bytes == r.report.c_drive_freed_bytes + r.report.other_drive_freed_bytes,
{
    let mut total_selected: u64 = 0;
    proof {
        lemma_totals_nonneg(request.groups@, observations@);
        assert(request.groups@.take(0) =~= Seq::<DuplicateCleanupGroupRequest>::empty());
        assert(observations@.take(0) =~= Seq::<Vec<FileObservation>>::empty());
    }
    let mut g: usize = 0;
    while g < request.groups.len()
        invariant
            g <= request.groups@.len(),
            total_selected == selected_files(request.groups@.take(g as int)),
            total_selected <= total_files(request.groups@.take(g as int)),
            total_files(request.groups@) <= u64::MAX,
            observations@.len() == request.groups@.len(),
            total_files(request.groups@.take(g as int)) <= total_files(request.groups@),
        decreases request.groups@.len() - g,
    {
        let files = &request.groups[g].files;
        proof {
            lemma_prefix_totals(request.groups@, observations@, g as int);
            assert(request.groups@.take(g + 1).drop_last() =~= request.groups@.take(g as int));
        }
        let mut i: usize = 0;
        while i < files.len()
            invariant
                i <= files@.len(),
                g < request.groups@.len(),
                files@ == request.groups@[g as int].files@,
                total_selected == selected_files(request.groups@.take(g as int)) + selected_in(files@, i as int),
                selected_files(request.groups@.take(g as int)) <= total_files(request.groups@.take(g as int)),
                total_files(request.groups@.take(g as int)) + files@.len() <= u64::MAX,
            decreases files@.len() - i,
        {
            proof {
                lemma_selected_in_le(files@, i as int);
            }
            if files[i].selected {
                total_selected = total_selected + 1;
            }
            i += 1;
        }
        proof {
            lemma_selected_in_le(files@, files@.len() as int);
        }
        g += 1;
    }
    proof {
        assert(request.groups@.take(request.groups@.len() as int) =~= request.groups@);
    }
    let mut report = DuplicateCleanupReport {
        processed_files: 0,
        success_count: 0,
        skipped_count: 0,
        failed_count: 0,
        freed_bytes: 0,
        c_drive_freed_bytes: 0,
        other_drive_freed_bytes: 0,
    };
    let mut outcomes: Vec<GroupCleanupOutcome> = Vec::new();
    let mut stop = false;
    let mut g: usize = 0;
    let ghost prot = views(protected_paths@);
    let ghost ov = request.protected_override_confirmed;
    while g < request.groups.len() && !stop
        invariant
            g <= request.groups@.len(),
            prot == views(protected_paths@),
            ov == request.protected_override_confirmed,
            cancelled is None ==> !stop,
            forall|q: int| 0 <= q < g ==> (#[trigger] outcomes@[q]).stopped ==> stop && q == g - 1,
            forall|q: int|
                0 <= q < g ==> group_record(
                    *request,
                    registry@,
                    observations@,
                    prot,
                    operation_id@,
                    #[trigger] outcomes@[q],
                    q,
                    run_tally(zero_tally(), outcomes@.take(q), observations@, prot, ov),
                ),
            observations@.len() == request.groups@.len(),
            forall|q: int| 0 <= q < observations@.len() ==> (#[trigger] observations@[q])@.len() == request.groups@[q].files@.len(),
            total_files(request.groups@) <= u64::MAX,
            total_observed(observations@) <= u64::MAX,
            outcomes@.len() == g,
            report.processed_files <= total_files(request.groups@.take(g as int)),
            outcome_count(report) == outcomes_of(outcomes@),
            outcomes_of(outcomes@) <= total_files(request.groups@.take(g as int)),
            report.success_count <= recycled_of(outcomes@),
            report.freed_bytes <= total_observed(observations@.take(g as int)),
            report.c_drive_freed_bytes <= total_observed(observations@.take(g as int)),
            report.other_drive_freed_bytes <= total_observed(observations@.take(g as int)),
            report.freed_bytes == report.c_drive_freed_bytes + report.other_drive_freed_bytes,
            tally_of(report) == run_tally(zero_tally(), outcomes@, observations@, prot, ov),
        decreases request.groups@.len() - g + if stop {
            0int
        } else {
            1
        },
    {
        if cancellation_requested(cancelled) {
            stop = true;
        } else {
            proof {
                lemma_prefix_totals(request.groups@, observations@, g as int);
            }
            let ghost start = tally_of(report);
            let outcome = cleanup_duplicate_group(
                &request.groups[g],
                registry,
                recycle_bin,
                protected_paths,
                request.protected_override_confirmed,
                &observations[g],
                &mut report,
                total_selected,
                operation_id,
                cancelled,
            );
            let ghost old_outcomes = outcomes@;
            if outcome.stopped {
                stop = true;
            }
            proof {
                assert(group_record(*request, registry@, observations@, prot, operation_id@, outcome, g as int, start))
                    by {
                    reveal(group_record);
                }
            }
            outcomes.push(outcome);
            proof {
                assert(outcomes@.drop_last() =~= old_outcomes);
                assert(outcomes@.take(g as int) =~= old_outcomes);
                assert forall|q: int| 0 <= q < g + 1 implies group_record(
                    *request,
                    registry@,
                    observations@,
                    prot,
                    operation_id@,
                    #[trigger] outcomes@[q],
                    q,
                    run_tally(zero_tally(), outcomes@.take(q), observations@, prot, ov),
                ) && ((outcomes@[q].stopped ==> stop && q == g)) by {
                    if q < g {
                        assert(outcomes@[q] == old_outcomes[q]);
                        assert(outcomes@.take(q) =~= old_outcomes.take(q));
                    }
                }
            }
            g += 1;
        }
    }
    proof {
        assert(request.groups@.take(request.groups@.len() as int) =~= request.groups@);
    }
    DuplicateCleanupRun { report, groups: outcomes, cancelled: stop }
}

/// Runs a duplicate cleanup request with no protected paths from the
/// settings (see `run_duplicate_cleanup`).
pub fn run_duplicate_cleanup_with_recycle_bin<R: RecycleBin>(
    request: &DuplicateCleanupRequest,
    registry: &DuplicateEntryRegistry,
    recycle_bin: &R,
    observations: &Vec<Vec<FileObservation>>,
) -> (r: DuplicateCleanupRun)
    requires
        observations@.len() == request.groups@.len(),
        forall|g: int| 0 <= g < observations@.len() ==> (#[trigger] observations@[g])@.len() == request.groups@[g].files@.len(),
        total_files(request.groups@) <= u64::MAX,
        total_observed(observations@) <= u64::MAX,
    ensures
        !r.cancelled,
        r.groups@.len() == request.groups@.len(),
        forall|g: int|
            0 <= g < r.groups@.len() ==> group_record(
                *request,
                registry@,
                observations@,
                Seq::empty(),
                Seq::empty(),
                #[trigger] r.groups@[g],
                g,
                run_tally(zero_tally(), r.groups@.take(g), observations@, Seq::empty(), request.protected_override_confirmed),
            ),
        tally_of(r.report) == run_tally(
            zero_tally(),
            r.groups@,
            observations@,
            Seq::empty(),
            request.protected_override_confirmed,
        ),
        outcome_count(r.report) == outcomes_of(r.groups@),
        r.report.success_count <= recycled_of(r.groups@),
        r.report.freed_bytes == r.report.c_drive_freed_bytes + r.report.other_drive_freed_bytes,
{
    let none: Vec<String> = Vec::new();
    proof {
        assert(views(none@) =~= Seq::<Seq<char>>::empty());
    }
    let run = run_duplicate_cleanup(request, registry, recycle_bin, &none, observations, "", None);
    proof {
        reveal_strlit("");
        assert(""@ =~= Seq::<char>::empty());
    }
    run
}

} // verus!
