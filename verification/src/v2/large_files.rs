//! Large-file scan: which files are reported, how they are categorized and
//! recommended, and the registry of the last scan's items.
use vstd::prelude::*;

use crate::ids::fresh_identifier;
use crate::text::copy_string;
use crate::order::{is_permutation, order_by_size_desc_then_name, sorted_by_size_desc_name_stable};
use crate::text::{
    ascii_lower, chars_eq, chars_have, chars_start_with, concat_str, contains_seq, from_chars,
    lower_ascii, starts_with, string_of, to_chars,
};
use crate::v2::duplicate::{drive_is_c, is_c_drive_label};
use crate::v2::models::{
    LargeFileCategory, LargeFileItem, LargeFileScanReport, LargeFileScanRequest, OperationModule,
    OperationProgressPayload,
};
use crate::v2::path_safety::{
    drive_label, drive_label_of, extension_chars, extension_of_name, file_name_chars, file_name_of,
    is_protected_duplicate_path, is_protected_path, key_is_same_or_child, path_key, path_key_chars,
    same_or_child, views,
};

verus! {

/// Files smaller than this are not reported when the request gives no
/// threshold (500 MiB).
pub const DEFAULT_MIN_SIZE_BYTES: u64 = 524288000;

/// The category that a lower-cased extension stands for.
pub open spec fn category_of_extension(e: Seq<char>) -> LargeFileCategory {
    if e == "avi"@ || e == "mkv"@ || e == "mov"@ || e == "mp4"@ || e == "mpeg"@ || e == "mpg"@ || e
        == "wmv"@ {
        LargeFileCategory::Video
    } else if e == "7z"@ || e == "gz"@ || e == "rar"@ || e == "tar"@ || e == "tgz"@ || e == "zip"@ {
        LargeFileCategory::Archive
    } else if e == "exe"@ || e == "msi"@ {
        LargeFileCategory::Installer
    } else if e == "dmg"@ || e == "img"@ || e == "iso"@ || e == "vhd"@ || e == "vhdx"@ {
        LargeFileCategory::DiskImage
    } else if e == "csv"@ || e == "doc"@ || e == "docx"@ || e == "pdf"@ || e == "ppt"@ || e == "pptx"@
        || e == "txt"@ || e == "xls"@ || e == "xlsx"@ {
        LargeFileCategory::Document
    } else {
        LargeFileCategory::Other
    }
}

/// The lower-cased extension of a path's file name (empty when it has none).
pub open spec fn lower_extension_of(path: Seq<char>) -> Seq<char> {
    match file_name_of(path) {
        Some(name) => match extension_of_name(name) {
            Some(e) => ascii_lower(e),
            None => Seq::empty(),
        },
        None => Seq::empty(),
    }
}

/// The category of a file, by its extension.
pub open spec fn large_file_category(path: Seq<char>) -> LargeFileCategory {
    category_of_extension(lower_extension_of(path))
}

fn is_one_of(e: &Vec<char>, options: &[&str]) -> (r: bool)
    ensures
        r == exists|k: int| 0 <= k < options@.len() && e@ == (#[trigger] options@[k])@,
{
    let mut k: usize = 0;
    while k < options.len()
        invariant
            k <= options@.len(),
            forall|j: int| 0 <= j < k ==> e@ != (#[trigger] options@[j])@,
        decreases options@.len() - k,
    {
        if chars_eq(e, &to_chars(options[k])) {
            return true;
        }
        k += 1;
    }
    false
}

/// The category of a file, by its extension (see `large_file_category`).
pub fn categorize_large_file(path: &str) -> (r: LargeFileCategory)
    ensures
        r == large_file_category(path@),
{
    let e: Vec<char> = match file_name_chars(&to_chars(path)) {
        Some(name) => match extension_chars(&name) {
            Some(ext) => lower_ascii(&ext),
            None => Vec::new(),
        },
        None => Vec::new(),
    };
    assert(e@ == lower_extension_of(path@));
    let video = ["avi", "mkv", "mov", "mp4", "mpeg", "mpg", "wmv"];
    let archive = ["7z", "gz", "rar", "tar", "tgz", "zip"];
    let installer = ["exe", "msi"];
    let disk = ["dmg", "img", "iso", "vhd", "vhdx"];
    let document = ["csv", "doc", "docx", "pdf", "ppt", "pptx", "txt", "xls", "xlsx"];
    proof {
        reveal_strlit("avi");
        reveal_strlit("mkv");
        reveal_strlit("mov");
        reveal_strlit("mp4");
        reveal_strlit("mpeg");
        reveal_strlit("mpg");
        reveal_strlit("wmv");
        reveal_strlit("7z");
        reveal_strlit("gz");
        reveal_strlit("rar");
        reveal_strlit("tar");
        reveal_strlit("tgz");
        reveal_strlit("zip");
        reveal_strlit("exe");
        reveal_strlit("msi");
        reveal_strlit("dmg");
        reveal_strlit("img");
        reveal_strlit("iso");
        reveal_strlit("vhd");
        reveal_strlit("vhdx");
        reveal_strlit("csv");
        reveal_strlit("doc");
        reveal_strlit("docx");
        reveal_strlit("pdf");
        reveal_strlit("ppt");
        reveal_strlit("pptx");
        reveal_strlit("txt");
        reveal_strlit("xls");
        reveal_strlit("xlsx");
    }
    if is_one_of(&e, &video) {
        LargeFileCategory::Video
    } else if is_one_of(&e, &archive) {
        LargeFileCategory::Archive
    } else if is_one_of(&e, &installer) {
        LargeFileCategory::Installer
    } else if is_one_of(&e, &disk) {
        LargeFileCategory::DiskImage
    } else if is_one_of(&e, &document) {
        LargeFileCategory::Document
    } else {
        LargeFileCategory::Other
    }
}

/// The key names a file inside a user profile folder on the C drive:
/// `c:\users\<user>\...`.
pub open spec fn is_c_user_profile_key(key: Seq<char>) -> bool {
    starts_with(key, "c:\\users\\"@) && key.skip(9).len() > 0 && key.skip(9).contains('\\')
}

/// Whether a file lies inside a user profile folder on the C drive.
pub fn is_c_drive_user_profile_file(path: &str) -> (r: bool)
    ensures
        r == is_c_user_profile_key(path_key(path@)),
{
    let key = path_key_chars(&to_chars(path));
    let prefix = to_chars("c:\\users\\");
    proof {
        reveal_strlit("c:\\users\\");
    }
    if !chars_start_with(&key, &prefix) {
        return false;
    }
    let tail = crate::text::slice_chars(&key, 9, key.len());
    assert(tail@ =~= key@.skip(9));
    tail.len() > 0 && chars_have(&tail, '\\')
}

/// Where a large file lives, without its folders: the drive and whether it
/// is a user's file.
pub open spec fn large_location_hint(path: Seq<char>) -> Seq<char> {
    let d = drive_label_of(path);
    if d.len() == 0 {
        "文件夹"@
    } else if is_c_user_profile_key(path_key(path)) {
        d + "\\...\\用户文件"@
    } else {
        d + "\\...\\文件夹"@
    }
}

/// Where a large file lives, as shown to the user (see
/// `large_location_hint`).
pub fn visible_location_hint(path: &str) -> (r: String)
    ensures
        r@ == large_location_hint(path@),
{
    let drive = drive_label(path);
    if to_chars(drive.as_str()).len() == 0 {
        string_of("文件夹")
    } else if is_c_drive_user_profile_file(path) {
        concat_str(drive.as_str(), "\\...\\用户文件")
    } else {
        concat_str(drive.as_str(), "\\...\\文件夹")
    }
}

/// A large-file scan does not enter this folder: a system folder when system
/// folders are skipped, a program folder when program folders are.
pub open spec fn skips_dir(path: Seq<char>, skip_system_dirs: bool, skip_program_dirs: bool) -> bool {
    let k = path_key(path);
    (skip_system_dirs && same_or_child(k, "c:\\windows"@)) || (skip_program_dirs && (same_or_child(
        k,
        "c:\\program files"@,
    ) || same_or_child(k, "c:\\program files (x86)"@) || same_or_child(k, "c:\\programdata"@)))
}

fn should_skip_dir(path: &str, skip_system_dirs: bool, skip_program_dirs: bool) -> (r: bool)
    ensures
        r == skips_dir(path@, skip_system_dirs, skip_program_dirs),
{
    let key = path_key_chars(&to_chars(path));
    (skip_system_dirs && key_is_same_or_child(&key, &to_chars("c:\\windows"))) || (skip_program_dirs && (
    key_is_same_or_child(&key, &to_chars("c:\\program files")) || key_is_same_or_child(
        &key,
        &to_chars("c:\\program files (x86)"),
    ) || key_is_same_or_child(&key, &to_chars("c:\\programdata"))))
}

/// Whether a large-file scan skips this folder (see `skips_dir`).
pub fn large_file_should_skip_dir_for_test(path: &str, skip_system_dirs: bool, skip_program_dirs: bool) -> (r: bool)
    ensures
        r == skips_dir(path@, skip_system_dirs, skip_program_dirs),
{
    should_skip_dir(path, skip_system_dirs, skip_program_dirs)
}

/// A large file is recommended for migration when it is not protected, lies
/// in a user profile on the C drive, and not in a folder the scan skips.
pub open spec fn recommended_file(path: Seq<char>, protected: bool, skip_system_dirs: bool, skip_program_dirs: bool) -> bool {
    !protected && is_c_user_profile_key(path_key(path)) && !skips_dir(path, skip_system_dirs, skip_program_dirs)
}

fn large_file_is_recommended(path: &str, protected: bool, request: &LargeFileScanRequest) -> (r: bool)
    ensures
        r == recommended_file(path@, protected, request.skip_system_dirs, request.skip_program_dirs),
{
    !protected && is_c_drive_user_profile_file(path) && !should_skip_dir(
        path,
        request.skip_system_dirs,
        request.skip_program_dirs,
    )
}

/// Whether a large file is recommended, with system and program folders
/// skipped (see `recommended_file`).
pub fn large_file_is_recommended_for_test(path: &str, protected: bool) -> (r: bool)
    ensures
        r == recommended_file(path@, protected, true, true),
{
    let request = LargeFileScanRequest {
        selected_drives: Vec::new(),
        custom_folders: Vec::new(),
        min_size_bytes: 0,
        protected_paths: Vec::new(),
        skip_system_dirs: true,
        skip_program_dirs: true,
    };
    large_file_is_recommended(path, protected, &request)
}

/// `Err` with the cancellation message when the operation was cancelled.
pub fn check_cancelled(cancelled: bool) -> (r: Result<(), String>)
    ensures
        cancelled ==> (r matches Err(e) && e@ == "操作已取消"@),
        !cancelled ==> r is Ok,
{
    if cancelled {
        Err(string_of("操作已取消"))
    } else {
        Ok(())
    }
}

/// The percentage shown while a large-file scan runs: 5 plus the number of
/// files so far, at most 99.
pub open spec fn large_scan_percent(scanned_files: u64) -> int {
    if scanned_files < 94 {
        5 + scanned_files
    } else {
        99
    }
}

/// Progress percentage of a large-file scan (see `large_scan_percent`).
pub fn scan_progress_percent(scanned_files: u64) -> (r: u8)
    ensures
        r == large_scan_percent(scanned_files),
{
    if scanned_files < 94 {
        5 + scanned_files as u8
    } else {
        99
    }
}

/// A progress report; the percentage is capped at 100.
pub fn progress_payload(
    operation_id: &str,
    module: OperationModule,
    stage: &str,
    percent: u8,
    current_location_hint: String,
    scanned_files: u64,
    found_groups: u64,
    found_items: u64,
    found_bytes: u64,
    processed_items: u64,
    success_count: u64,
    skipped_count: u64,
    failed_count: u64,
) -> (r: OperationProgressPayload)
    ensures
        r.operation_id@ == operation_id@,
        r.module == module,
        r.stage@ == stage@,
        r.percent == if percent < 100 {
            percent
        } else {
            100
        },
        r.current_location_hint == current_location_hint,
        r.current_file_type is None,
        r.scanned_files == scanned_files,
        r.found_groups == found_groups,
        r.found_items == found_items,
        r.found_bytes == found_bytes,
        r.processed_items == processed_items,
        r.success_count == success_count,
        r.skipped_count == skipped_count,
        r.failed_count == failed_count,
{
    OperationProgressPayload {
        operation_id: string_of(operation_id),
        module: module,
        stage: string_of(stage),
        percent: if percent < 100 {
            percent
        } else {
            100
        },
        current_location_hint: current_location_hint,
        current_file_type: None,
        scanned_files: scanned_files,
        found_groups: found_groups,
        found_items: found_items,
        found_bytes: found_bytes,
        processed_items: processed_items,
        success_count: success_count,
        skipped_count: skipped_count,
        failed_count: failed_count,
    }
}

/// Where a large file of the last scan lives; kept by the back end so that
/// a migration request names files by item id only.
#[derive(Debug, Clone, PartialEq, Eq)]
pub struct LargeFileBackendEntry {
    pub item_id: String,
    pub path: String,
    pub path_key: String,
    pub size_bytes: u64,
    pub drive: String,
    pub category: LargeFileCategory,
    pub protected: bool,
}

/// A copy of a back-end entry.
pub fn copy_large_entry(e: &LargeFileBackendEntry) -> (r: LargeFileBackendEntry)
    ensures
        r == *e,
{
    LargeFileBackendEntry {
        item_id: e.item_id.clone(),
        path: e.path.clone(),
        path_key: e.path_key.clone(),
        size_bytes: e.size_bytes,
        drive: e.drive.clone(),
        category: e.category,
        protected: e.protected,
    }
}

/// The entries keyed by item id; a later entry replaces an earlier one with
/// the same id.
pub open spec fn large_entry_map(s: Seq<LargeFileBackendEntry>) -> Map<Seq<char>, LargeFileBackendEntry>
    decreases s.len(),
{
    if s.len() == 0 {
        Map::empty()
    } else {
        large_entry_map(s.drop_last()).insert(s.last().item_id@, s.last())
    }
}

proof fn lemma_large_map_tail_absent(s: Seq<LargeFileBackendEntry>, id: Seq<char>, i: int)
    requires
        0 <= i <= s.len(),
        forall|j: int| i <= j < s.len() ==> (#[trigger] s[j]).item_id@ != id,
    ensures
        large_entry_map(s).contains_key(id) == large_entry_map(s.take(i)).contains_key(id),
        large_entry_map(s).contains_key(id) ==> large_entry_map(s)[id] == large_entry_map(s.take(i))[id],
    decreases s.len() - i,
{
    if i < s.len() {
        let d = s.drop_last();
        assert forall|j: int| i <= j < d.len() implies (#[trigger] d[j]).item_id@ != id by {
            assert(d[j] == s[j]);
        }
        lemma_large_map_tail_absent(d, id, i);
        assert(d.take(i) =~= s.take(i));
    } else {
        assert(s.take(i) =~= s);
    }
}

/// The items of the last large-file scan, by item id.
pub struct LargeFileRegistry {
    entries: Vec<LargeFileBackendEntry>,
}

impl View for LargeFileRegistry {
    type V = Map<Seq<char>, LargeFileBackendEntry>;

    closed spec fn view(&self) -> Map<Seq<char>, LargeFileBackendEntry> {
        large_entry_map(self.entries@)
    }
}

impl LargeFileRegistry {
    /// An empty registry.
    pub fn new() -> (r: LargeFileRegistry)
        ensures
            r@ == Map::<Seq<char>, LargeFileBackendEntry>::empty(),
    {
        LargeFileRegistry { entries: Vec::new() }
    }

    /// Replaces every entry by the given ones.
    pub fn replace_entries(&mut self, entries: Vec<LargeFileBackendEntry>)
        ensures
            final(self)@ == large_entry_map(entries@),
    {
        self.entries = entries;
    }

    /// The entry with the given id, if any.
    pub fn get(&self, item_id: &str) -> (r: Option<LargeFileBackendEntry>)
        ensures
            r == (if self@.contains_key(item_id@) {
                Some(self@[item_id@])
            } else {
                None
            }),
    {
        let id = to_chars(item_id);
        let mut i: usize = self.entries.len();
        while i > 0
            invariant
                i <= self.entries@.len(),
                id@ == item_id@,
                forall|j: int| i <= j < self.entries@.len() ==> (#[trigger] self.entries@[j]).item_id@ != item_id@,
            decreases i,
        {
            let candidate = to_chars(self.entries[i - 1].item_id.as_str());
            if chars_eq(&candidate, &id) {
                proof {
                    let s = self.entries@;
                    lemma_large_map_tail_absent(s, item_id@, i as int);
                    assert(s.take(i as int).drop_last() =~= s.take(i - 1));
                    assert(s.take(i as int).last() == s[i - 1]);
                }
                return Some(copy_large_entry(&self.entries[i - 1]));
            }
            i -= 1;
        }
        proof {
            lemma_large_map_tail_absent(self.entries@, item_id@, 0);
            assert(self.entries@.take(0) =~= Seq::<LargeFileBackendEntry>::empty());
        }
        None
    }

    /// Records one entry for a file of `size_bytes` bytes at `path`.
    pub fn register_test_entry(&mut self, item_id: &str, path: &str, protected: bool, size_bytes: u64)
        ensures
            final(self)@.contains_key(item_id@),
            final(self)@.remove(item_id@) == old(self)@.remove(item_id@),
            final(self)@[item_id@].item_id@ == item_id@,
            final(self)@[item_id@].path@ == path@,
            final(self)@[item_id@].path_key@ == path_key(path@),
            final(self)@[item_id@].size_bytes == size_bytes,
            final(self)@[item_id@].drive@ == drive_label_of(path@),
            final(self)@[item_id@].category == large_file_category(path@),
            final(self)@[item_id@].protected == protected,
    {
        let e = LargeFileBackendEntry {
            item_id: string_of(item_id),
            path: string_of(path),
            path_key: from_chars(&path_key_chars(&to_chars(path))),
            size_bytes: size_bytes,
            drive: drive_label(path),
            category: categorize_large_file(path),
            protected: protected,
        };
        self.entries.push(e);
        proof {
            assert(self.entries@.drop_last() =~= old(self).entries@);
            assert(large_entry_map(self.entries@).remove(item_id@) =~= large_entry_map(old(self).entries@).remove(item_id@));
        }
    }
}

impl Default for LargeFileRegistry {
    fn default() -> (r: LargeFileRegistry)
        ensures
            r@ == Map::<Seq<char>, LargeFileBackendEntry>::empty(),
    {
        LargeFileRegistry::new()
    }
}

/// The name shown for a large file: its file name, or `file`.
pub open spec fn shown_name(path: Seq<char>) -> Seq<char> {
    match file_name_of(path) {
        Some(name) => name,
        None => "file"@,
    }
}

/// `item` and `entry` report the file at `path` of `size` bytes found by a
/// scan with this request.
pub open spec fn reports_file(
    item: LargeFileItem,
    entry: LargeFileBackendEntry,
    path: Seq<char>,
    size: u64,
    modified_at: Seq<char>,
    request: LargeFileScanRequest,
) -> bool {
    &&& item.display_name@ == shown_name(path)
    &&& item.drive@ == drive_label_of(path)
    &&& item.visible_location_hint@ == large_location_hint(path)
    &&& item.size_bytes == size
    &&& item.modified_at@ == modified_at
    &&& item.category == large_file_category(path)
    &&& item.protected == is_protected_path(path, views(request.protected_paths@))
    &&& item.recommended == recommended_file(path, item.protected, request.skip_system_dirs, request.skip_program_dirs)
    &&& item.selected == item.recommended
    &&& entry.item_id == item.item_id
    &&& entry.path@ == path
    &&& entry.path_key@ == path_key(path)
    &&& entry.size_bytes == size
    &&& entry.drive == item.drive
    &&& entry.category == item.category
    &&& entry.protected == item.protected
}

/// Every item holds at least `min` bytes.
pub open spec fn items_at_least(items: Seq<LargeFileItem>, min: u64) -> bool {
    forall|k: int| 0 <= k < items.len() ==> (#[trigger] items[k]).size_bytes >= min
}

/// State of a running large-file scan.
pub struct LargeFileScanCollector {
    pub request: LargeFileScanRequest,
    pub min_size_bytes: u64,
    pub items: Vec<LargeFileItem>,
    pub backend_entries: Vec<LargeFileBackendEntry>,
    pub seen_path_keys: Vec<String>,
    pub scanned_files: u64,
    pub skipped_locations: u64,
    /// Sum of the item sizes, capped at the largest `u64`.
    pub found_bytes: u64,
}

/// No two items share an id.
pub open spec fn item_ids_distinct(items: Seq<LargeFileItem>) -> bool {
    forall|a: int, b: int| 0 <= a < b < items.len() ==> (#[trigger] items[a]).item_id@ != (#[trigger] items[b]).item_id@
}

/// The back-end entries name the items one for one, in the same order.
pub open spec fn entries_match_items(items: Seq<LargeFileItem>, entries: Seq<LargeFileBackendEntry>) -> bool {
    entries.len() == items.len() && forall|k: int| 0 <= k < items.len() ==> (#[trigger] entries[k]).item_id == items[k].item_id
}

/// The ids of the items, in order.
fn item_ids(items: &Vec<LargeFileItem>) -> (r: Vec<String>)
    ensures
        r@.len() == items@.len(),
        forall|k: int| 0 <= k < items@.len() ==> (#[trigger] r@[k])@ == items@[k].item_id@,
{
    let mut ids: Vec<String> = Vec::new();
    let mut k: usize = 0;
    while k < items.len()
        invariant
            k <= items@.len(),
            ids@.len() == k,
            forall|j: int| 0 <= j < k ==> (#[trigger] ids@[j])@ == items@[j].item_id@,
        decreases items@.len() - k,
    {
        ids.push(copy_string(&items[k].item_id));
        k += 1;
    }
    ids
}

/// Sum of the sizes of the items.
pub open spec fn items_bytes(items: Seq<LargeFileItem>) -> int
    decreases items.len(),
{
    if items.len() == 0 {
        0
    } else {
        items_bytes(items.drop_last()) + items.last().size_bytes
    }
}

fn shown_name_of(path: &str) -> (r: String)
    ensures
        r@ == shown_name(path@),
{
    match file_name_chars(&to_chars(path)) {
        Some(name) => from_chars(&name),
        None => string_of("file"),
    }
}

impl LargeFileScanCollector {
    /// A collector for a new scan; a zero threshold means the default one.
    pub fn new(request: LargeFileScanRequest) -> (r: LargeFileScanCollector)
        ensures
            r.request == request,
            r.min_size_bytes == if request.min_size_bytes == 0 {
                524288000int
            } else {
                request.min_size_bytes as int
            },
            r.items@.len() == 0,
            r.backend_entries@.len() == 0,
            item_ids_distinct(r.items@),
            entries_match_items(r.items@, r.backend_entries@),
            r.seen_path_keys@.len() == 0,
            r.scanned_files == 0,
            r.skipped_locations == 0,
            r.found_bytes == 0,
    {
        let min = if request.min_size_bytes == 0 {
            DEFAULT_MIN_SIZE_BYTES
        } else {
            request.min_size_bytes
        };
        LargeFileScanCollector {
            request: request,
            min_size_bytes: min,
            items: Vec::new(),
            backend_entries: Vec::new(),
            seen_path_keys: Vec::new(),
            scanned_files: 0,
            skipped_locations: 0,
            found_bytes: 0,
        }
    }

    /// Counts a location that could not be scanned or was skipped.
    pub fn note_skipped_location(&mut self)
        requires
            old(self).skipped_locations < u64::MAX,
        ensures
            final(self).skipped_locations == old(self).skipped_locations + 1,
            final(self).request == old(self).request,
            final(self).min_size_bytes == old(self).min_size_bytes,
            final(self).items == old(self).items,
            final(self).backend_entries == old(self).backend_entries,
            final(self).seen_path_keys == old(self).seen_path_keys,
            final(self).scanned_files == old(self).scanned_files,
            final(self).found_bytes == old(self).found_bytes,
    {
        self.skipped_locations = self.skipped_locations + 1;
    }

    /// Whether the scan skips a folder it meets below a root (never a root
    /// itself); see `skips_dir`.
    pub fn skips_directory(&self, path: &str, is_root: bool) -> (r: bool)
        ensures
            r == (!is_root && skips_dir(path@, self.request.skip_system_dirs, self.request.skip_program_dirs)),
    {
        !is_root && should_skip_dir(path, self.request.skip_system_dirs, self.request.skip_program_dirs)
    }

    /// Offers a file found by the scan. Every offered file is counted; it
    /// becomes an item when it reaches the threshold and its path was not
    /// seen yet, and the progress report of that step is returned.
    pub fn offer_file(&mut self, path: &str, size_bytes: u64, modified_at: String, operation_id: &str) -> (r: Option<OperationProgressPayload>)
        requires
            old(self).scanned_files < u64::MAX,
        ensures
            final(self).scanned_files == old(self).scanned_files + 1,
            final(self).request == old(self).request,
            final(self).min_size_bytes == old(self).min_size_bytes,
            final(self).skipped_locations == old(self).skipped_locations,
            ({
                let accepted = size_bytes >= old(self).min_size_bytes
                    && !views(old(self).seen_path_keys@).contains(path_key(path@));
                if accepted {
                    &&& final(self).items@.len() == old(self).items@.len() + 1
                    &&& final(self).items@.drop_last() == old(self).items@
                    &&& final(self).backend_entries@.len() == old(self).backend_entries@.len() + 1
                    &&& final(self).backend_entries@.drop_last() == old(self).backend_entries@
                    &&& forall|k: int|
                        0 <= k < old(self).items@.len() ==> (#[trigger] old(self).items@[k]).item_id@
                            != final(self).items@.last().item_id@
                    &&& reports_file(
                        final(self).items@.last(),
                        final(self).backend_entries@.last(),
                        path@,
                        size_bytes,
                        modified_at@,
                        old(self).request,
                    )
                    &&& views(final(self).seen_path_keys@) == views(old(self).seen_path_keys@).push(path_key(path@))
                    &&& final(self).found_bytes == crate::v2::duplicate_groups::capped(old(self).found_bytes + size_bytes)
                    &&& r matches Some(p) && p.stage@ == "scanning"@ && p.module == OperationModule::LargeFileScan
                        && p.percent == large_scan_percent(final(self).scanned_files)
                        && p.scanned_files == final(self).scanned_files
                        && p.found_items == final(self).items@.len()
                        && p.found_bytes == final(self).found_bytes
                        && p.current_location_hint@ == large_location_hint(path@)
                        && p.operation_id@ == operation_id@
                } else {
                    &&& final(self).items == old(self).items
                    &&& final(self).backend_entries == old(self).backend_entries
                    &&& final(self).seen_path_keys == old(self).seen_path_keys
                    &&& final(self).found_bytes == old(self).found_bytes
                    &&& r is None
                }
            }),
            items_at_least(old(self).items@, old(self).min_size_bytes) ==> items_at_least(
                final(self).items@,
                final(self).min_size_bytes,
            ),
            item_ids_distinct(old(self).items@) ==> item_ids_distinct(final(self).items@),
            entries_match_items(old(self).items@, old(self).backend_entries@) ==> entries_match_items(
                final(self).items@,
                final(self).backend_entries@,
            ),
    {
        self.scanned_files = self.scanned_files + 1;
        if size_bytes < self.min_size_bytes {
            return None;
        }
        let key = path_key_chars(&to_chars(path));
        let mut k: usize = 0;
        while k < self.seen_path_keys.len()
            invariant
                k <= self.seen_path_keys@.len(),
                key@ == path_key(path@),
                forall|j: int| 0 <= j < k ==> (#[trigger] self.seen_path_keys@[j])@ != key@,
                self.scanned_files == old(self).scanned_files + 1,
                self.request == old(self).request,
                self.min_size_bytes == old(self).min_size_bytes,
                self.skipped_locations == old(self).skipped_locations,
                self.items == old(self).items,
                self.backend_entries == old(self).backend_entries,
                self.seen_path_keys == old(self).seen_path_keys,
                self.found_bytes == old(self).found_bytes,
            decreases self.seen_path_keys@.len() - k,
        {
            if chars_eq(&to_chars(self.seen_path_keys[k].as_str()), &key) {
                proof {
                    assert(views(self.seen_path_keys@)[k as int] == key@);
                }
                return None;
            }
            k += 1;
        }
        proof {
            assert forall|j: int| 0 <= j < views(self.seen_path_keys@).len() implies views(self.seen_path_keys@)[j] != key@ by {
                assert(views(self.seen_path_keys@)[j] == self.seen_path_keys@[j]@);
            }
        }
        let ghost old_seen = self.seen_path_keys@;
        self.seen_path_keys.push(from_chars(&key));
        proof {
            assert(views(self.seen_path_keys@) =~= views(old_seen).push(key@));
        }
        let taken = item_ids(&self.items);
        let item_id = fresh_identifier(&taken);
        proof {
            assert forall|k: int| 0 <= k < self.items@.len() implies (#[trigger] self.items@[k]).item_id@ != item_id@ by {
                assert(taken@[k]@ == self.items@[k].item_id@);
            }
        }
        let drive = drive_label(path);
        let protected = is_protected_duplicate_path(path, &self.request.protected_paths);
        let category = categorize_large_file(path);
        let recommended = large_file_is_recommended(path, protected, &self.request);
        let item = LargeFileItem {
            item_id: item_id.clone(),
            display_name: shown_name_of(path),
            drive: drive.clone(),
            visible_location_hint: visible_location_hint(path),
            size_bytes: size_bytes,
            modified_at: modified_at,
            category: category,
            selected: recommended,
            protected: protected,
            recommended: recommended,
        };
        let entry = LargeFileBackendEntry {
            item_id: item_id,
            path: string_of(path),
            path_key: from_chars(&key),
            size_bytes: size_bytes,
            drive: drive,
            category: category,
            protected: protected,
        };
        let ghost old_items = self.items@;
        let ghost old_entries = self.backend_entries@;
        self.items.push(item);
        self.backend_entries.push(entry);
        self.found_bytes = self.found_bytes.saturating_add(size_bytes);
        proof {
            assert(self.items@.drop_last() =~= old_items);
            assert(self.backend_entries@.drop_last() =~= old_entries);
            assert forall|a: int, b: int| 0 <= a < b < self.items@.len() && item_ids_distinct(old_items) implies (
            #[trigger] self.items@[a]).item_id@ != (#[trigger] self.items@[b]).item_id@ by {
                assert(self.items@[a] == old_items[a]);
                if b < old_items.len() {
                    assert(self.items@[b] == old_items[b]);
                }
            }
            assert forall|k: int| 0 <= k < self.items@.len() && entries_match_items(old_items, old_entries) implies (
            #[trigger] self.backend_entries@[k]).item_id == self.items@[k].item_id by {
                if k < old_items.len() {
                    assert(self.items@[k] == old_items[k]);
                    assert(self.backend_entries@[k] == old_entries[k]);
                }
            }
        }
        Some(
            progress_payload(
                operation_id,
                OperationModule::LargeFileScan,
                "scanning",
                scan_progress_percent(self.scanned_files),
                visible_location_hint(path),
                self.scanned_files,
                0,
                self.items.len() as u64,
                self.found_bytes,
                0,
                0,
                0,
                0,
            ),
        )
    }
}

/// Sum of the sizes of the items on the C drive.
pub open spec fn c_items_bytes(items: Seq<LargeFileItem>) -> int
    decreases items.len(),
{
    if items.len() == 0 {
        0
    } else {
        c_items_bytes(items.drop_last()) + if is_c_drive_label(items.last().drive@) {
            items.last().size_bytes as int
        } else {
            0
        }
    }
}

proof fn lemma_c_items_le(items: Seq<LargeFileItem>)
    ensures
        0 <= c_items_bytes(items) <= items_bytes(items),
    decreases items.len(),
{
    if items.len() > 0 {
        lemma_c_items_le(items.drop_last());
    }
}

proof fn lemma_items_prefix(items: Seq<LargeFileItem>, i: int)
    requires
        0 <= i < items.len(),
    ensures
        items_bytes(items.take(i)) + items[i].size_bytes == items_bytes(items.take(i + 1)),
        items_bytes(items.take(i + 1)) <= items_bytes(items),
    decreases items.len() - i,
{
    assert(items.take(i + 1).drop_last() =~= items.take(i));
    if i + 1 < items.len() {
        lemma_items_prefix(items, i + 1);
    } else {
        assert(items.take(i + 1) =~= items);
    }
}

/// The result of a large-file scan: the report, and the registry entries of
/// its items.
pub struct LargeFileScanOutcome {
    pub report: LargeFileScanReport,
    pub backend_entries: Vec<LargeFileBackendEntry>,
    /// Item `k` of the report is item `order[k]` of the collector.
    pub order: Ghost<Seq<usize>>,
}

fn copy_item(i: &LargeFileItem) -> (r: LargeFileItem)
    ensures
        r == *i,
{
    LargeFileItem {
        item_id: i.item_id.clone(),
        display_name: i.display_name.clone(),
        drive: i.drive.clone(),
        visible_location_hint: i.visible_location_hint.clone(),
        size_bytes: i.size_bytes,
        modified_at: i.modified_at.clone(),
        category: i.category,
        selected: i.selected,
        protected: i.protected,
        recommended: i.recommended,
    }
}

impl LargeFileScanCollector {
    /// Finishes the scan: the items by descending size, then by name, and
    /// the totals in all, on the C drive and on other drives.
    pub fn finish(self) -> (r: LargeFileScanOutcome)
        requires
            items_bytes(self.items@) <= u64::MAX,
        ensures
            is_permutation(r.order@, self.items@.len() as int),
            r.report.items@.len() == self.items@.len(),
            forall|k: int| 0 <= k < r.report.items@.len() ==> #[trigger] r.report.items@[k] == self.items@[r.order@[k] as int],
            sorted_by_size_desc_name_stable(
                r.order@,
                Seq::new(self.items@.len(), |j: int| self.items@[j].size_bytes),
                Seq::new(self.items@.len(), |j: int| self.items@[j].display_name@),
            ),
            r.report.scanned_files == self.scanned_files,
            r.report.skipped_locations == self.skipped_locations,
            r.report.total_bytes == items_bytes(self.items@),
            r.report.c_drive_bytes == c_items_bytes(self.items@),
            r.report.other_drive_bytes == items_bytes(self.items@) - c_items_bytes(self.items@),
            r.backend_entries == self.backend_entries,
            items_at_least(self.items@, self.min_size_bytes) ==> items_at_least(r.report.items@, self.min_size_bytes),
            item_ids_distinct(self.items@) ==> item_ids_distinct(r.report.items@),
            entries_match_items(self.items@, self.backend_entries@) ==> forall|k: int|
                0 <= k < r.report.items@.len() ==> (#[trigger] r.backend_entries@[r.order@[k] as int]).item_id
                    == r.report.items@[k].item_id,
    {
        let n = self.items.len();
        let mut sizes: Vec<u64> = Vec::new();
        let mut names: Vec<String> = Vec::new();
        let mut total: u64 = 0;
        let mut c_total: u64 = 0;
        let mut i: usize = 0;
        while i < n
            invariant
                n == self.items@.len(),
                i <= n,
                sizes@.len() == i,
                names@.len() == i,
                forall|j: int| 0 <= j < i ==> #[trigger] sizes@[j] == self.items@[j].size_bytes,
                forall|j: int| 0 <= j < i ==> (#[trigger] names@[j])@ == self.items@[j].display_name@,
                items_bytes(self.items@) <= u64::MAX,
                total == items_bytes(self.items@.take(i as int)),
                c_total == c_items_bytes(self.items@.take(i as int)),
            decreases n - i,
        {
            proof {
                lemma_items_prefix(self.items@, i as int);
                lemma_c_items_le(self.items@.take(i + 1));
                assert(self.items@.take(i + 1).drop_last() =~= self.items@.take(i as int));
            }
            let item = &self.items[i];
            sizes.push(item.size_bytes);
            names.push(item.display_name.clone());
            total = total + item.size_bytes;
            if drive_is_c(item.drive.as_str()) {
                c_total = c_total + item.size_bytes;
            }
            i += 1;
        }
        proof {
            assert(self.items@.take(n as int) =~= self.items@);
            lemma_c_items_le(self.items@);
            assert(sizes@ =~= Seq::new(self.items@.len(), |j: int| self.items@[j].size_bytes));
            assert(Seq::new(names@.len(), |j: int| names@[j]@) =~= Seq::new(self.items@.len(), |j: int| self.items@[j].display_name@));
        }
        let order = order_by_size_desc_then_name(&sizes, &names);
        let mut items: Vec<LargeFileItem> = Vec::new();
        let mut k: usize = 0;
        while k < n
            invariant
                n == self.items@.len(),
                k <= n,
                is_permutation(order@, n as int),
                items@.len() == k,
                forall|j: int| 0 <= j < k ==> #[trigger] items@[j] == self.items@[order@[j] as int],
            decreases n - k,
        {
            items.push(copy_item(&self.items[order[k]]));
            k += 1;
        }
        LargeFileScanOutcome {
            report: LargeFileScanReport {
                items: items,
                scanned_files: self.scanned_files,
                skipped_locations: self.skipped_locations,
                total_bytes: total,
                c_drive_bytes: c_total,
                other_drive_bytes: total - c_total,
            },
            backend_entries: self.backend_entries,
            order: Ghost(order@),
        }
    }
}

/// A large file's category follows the extension of its file name, in any
/// ASCII case (`e` below, empty when the name has none): avi, mkv, mov, mp4,
/// mpeg, mpg and wmv are videos; 7z, gz, rar, tar, tgz and zip archives; exe
/// and msi installers; dmg, img, iso, vhd and vhdx disk images; csv, doc,
/// docx, pdf, ppt, pptx, txt, xls and xlsx documents; anything else is other.
pub proof fn law_large_file_category_by_extension(path: Seq<char>, e: Seq<char>)
    requires
        e == match file_name_of(path) {
            Some(name) => match extension_of_name(name) {
                Some(x) => ascii_lower(x),
                None => Seq::<char>::empty(),
            },
            None => Seq::<char>::empty(),
        },
    ensures
        ("avi"@ == e || "mkv"@ == e || "mov"@ == e || "mp4"@ == e || "mpeg"@ == e || "mpg"@ == e || "wmv"@ == e) ==> large_file_category(path) == LargeFileCategory::Video,
        ("7z"@ == e || "gz"@ == e || "rar"@ == e || "tar"@ == e || "tgz"@ == e || "zip"@ == e) ==> large_file_category(path) == LargeFileCategory::Archive,
        ("exe"@ == e || "msi"@ == e) ==> large_file_category(path) == LargeFileCategory::Installer,
        ("dmg"@ == e || "img"@ == e || "iso"@ == e || "vhd"@ == e || "vhdx"@ == e) ==> large_file_category(path) == LargeFileCategory::DiskImage,
        ("csv"@ == e || "doc"@ == e || "docx"@ == e || "pdf"@ == e || "ppt"@ == e || "pptx"@ == e || "txt"@ == e || "xls"@ == e || "xlsx"@ == e) ==> large_file_category(path) == LargeFileCategory::Document,
        !("avi"@ == e || "mkv"@ == e || "mov"@ == e || "mp4"@ == e || "mpeg"@ == e || "mpg"@ == e || "wmv"@ == e || "7z"@ == e || "gz"@ == e || "rar"@ == e || "tar"@ == e || "tgz"@ == e || "zip"@ == e || "exe"@ == e || "msi"@ == e || "dmg"@ == e || "img"@ == e || "iso"@ == e || "vhd"@ == e || "vhdx"@ == e || "csv"@ == e || "doc"@ == e || "docx"@ == e || "pdf"@ == e || "ppt"@ == e || "pptx"@ == e || "txt"@ == e || "xls"@ == e || "xlsx"@ == e) ==> large_file_category(path) == LargeFileCategory::Other,
{
    reveal_strlit("avi");
    reveal_strlit("mkv");
    reveal_strlit("mov");
    reveal_strlit("mp4");
    reveal_strlit("mpeg");
    reveal_strlit("mpg");
    reveal_strlit("wmv");
    reveal_strlit("7z");
    reveal_strlit("gz");
    reveal_strlit("rar");
    reveal_strlit("tar");
    reveal_strlit("tgz");
    reveal_strlit("zip");
    reveal_strlit("exe");
    reveal_strlit("msi");
    reveal_strlit("dmg");
    reveal_strlit("img");
    reveal_strlit("iso");
    reveal_strlit("vhd");
    reveal_strlit("vhdx");
    reveal_strlit("csv");
    reveal_strlit("doc");
    reveal_strlit("docx");
    reveal_strlit("pdf");
    reveal_strlit("ppt");
    reveal_strlit("pptx");
    reveal_strlit("txt");
    reveal_strlit("xls");
    reveal_strlit("xlsx");
    assert("rar"@[0] != "avi"@[0]);
    assert("rar"@[0] != "mkv"@[0]);
    assert("rar"@[0] != "mov"@[0]);
    assert("rar"@[0] != "mp4"@[0]);
    assert("rar"@[0] != "mpg"@[0]);
    assert("rar"@[0] != "wmv"@[0]);
    assert("tar"@[0] != "avi"@[0]);
    assert("tar"@[0] != "mkv"@[0]);
    assert("tar"@[0] != "mov"@[0]);
    assert("tar"@[0] != "mp4"@[0]);
    assert("tar"@[0] != "mpg"@[0]);
    assert("tar"@[0] != "wmv"@[0]);
    assert("tgz"@[0] != "avi"@[0]);
    assert("tgz"@[0] != "mkv"@[0]);
    assert("tgz"@[0] != "mov"@[0]);
    assert("tgz"@[0] != "mp4"@[0]);
    assert("tgz"@[0] != "mpg"@[0]);
    assert("tgz"@[0] != "wmv"@[0]);
    assert("zip"@[0] != "avi"@[0]);
    assert("zip"@[0] != "mkv"@[0]);
    assert("zip"@[0] != "mov"@[0]);
    assert("zip"@[0] != "mp4"@[0]);
    assert("zip"@[0] != "mpg"@[0]);
    assert("zip"@[0] != "wmv"@[0]);
    assert("exe"@[0] != "avi"@[0]);
    assert("exe"@[0] != "mkv"@[0]);
    assert("exe"@[0] != "mov"@[0]);
    assert("exe"@[0] != "mp4"@[0]);
    assert("exe"@[0] != "mpg"@[0]);
    assert("exe"@[0] != "wmv"@[0]);
    assert("exe"@[0] != "rar"@[0]);
    assert("exe"@[0] != "tar"@[0]);
    assert("exe"@[0] != "tgz"@[0]);
    assert("exe"@[0] != "zip"@[0]);
    assert("msi"@[0] != "avi"@[0]);
    assert("msi"@[1] != "mkv"@[1]);
    assert("msi"@[1] != "mov"@[1]);
    assert("msi"@[1] != "mp4"@[1]);
    assert("msi"@[1] != "mpg"@[1]);
    assert("msi"@[0] != "wmv"@[0]);
    assert("msi"@[0] != "rar"@[0]);
    assert("msi"@[0] != "tar"@[0]);
    assert("msi"@[0] != "tgz"@[0]);
    assert("msi"@[0] != "zip"@[0]);
    assert("dmg"@[0] != "avi"@[0]);
    assert("dmg"@[0] != "mkv"@[0]);
    assert("dmg"@[0] != "mov"@[0]);
    assert("dmg"@[0] != "mp4"@[0]);
    assert("dmg"@[0] != "mpg"@[0]);
    assert("dmg"@[0] != "wmv"@[0]);
    assert("dmg"@[0] != "rar"@[0]);
    assert("dmg"@[0] != "tar"@[0]);
    assert("dmg"@[0] != "tgz"@[0]);
    assert("dmg"@[0] != "zip"@[0]);
    assert("dmg"@[0] != "exe"@[0]);
    assert("dmg"@[0] != "msi"@[0]);
    assert("img"@[0] != "avi"@[0]);
    assert("img"@[0] != "mkv"@[0]);
    assert("img"@[0] != "mov"@[0]);
    assert("img"@[0] != "mp4"@[0]);
    assert("img"@[0] != "mpg"@[0]);
    assert("img"@[0] != "wmv"@[0]);
    assert("img"@[0] != "rar"@[0]);
    assert("img"@[0] != "tar"@[0]);
    assert("img"@[0] != "tgz"@[0]);
    assert("img"@[0] != "zip"@[0]);
    assert("img"@[0] != "exe"@[0]);
    assert("img"@[0] != "msi"@[0]);
    assert("iso"@[0] != "avi"@[0]);
    assert("iso"@[0] != "mkv"@[0]);
    assert("iso"@[0] != "mov"@[0]);
    assert("iso"@[0] != "mp4"@[0]);
    assert("iso"@[0] != "mpg"@[0]);
    assert("iso"@[0] != "wmv"@[0]);
    assert("iso"@[0] != "rar"@[0]);
    assert("iso"@[0] != "tar"@[0]);
    assert("iso"@[0] != "tgz"@[0]);
    assert("iso"@[0] != "zip"@[0]);
    assert("iso"@[0] != "exe"@[0]);
    assert("iso"@[0] != "msi"@[0]);
    assert("vhd"@[0] != "avi"@[0]);
    assert("vhd"@[0] != "mkv"@[0]);
    assert("vhd"@[0] != "mov"@[0]);
    assert("vhd"@[0] != "mp4"@[0]);
    assert("vhd"@[0] != "mpg"@[0]);
    assert("vhd"@[0] != "wmv"@[0]);
    assert("vhd"@[0] != "rar"@[0]);
    assert("vhd"@[0] != "tar"@[0]);
    assert("vhd"@[0] != "tgz"@[0]);
    assert("vhd"@[0] != "zip"@[0]);
    assert("vhd"@[0] != "exe"@[0]);
    assert("vhd"@[0] != "msi"@[0]);
    assert("vhdx"@[0] != "mpeg"@[0]);
    assert("csv"@[0] != "avi"@[0]);
    assert("csv"@[0] != "mkv"@[0]);
    assert("csv"@[0] != "mov"@[0]);
    assert("csv"@[0] != "mp4"@[0]);
    assert("csv"@[0] != "mpg"@[0]);
    assert("csv"@[0] != "wmv"@[0]);
    assert("csv"@[0] != "rar"@[0]);
    assert("csv"@[0] != "tar"@[0]);
    assert("csv"@[0] != "tgz"@[0]);
    assert("csv"@[0] != "zip"@[0]);
    assert("csv"@[0] != "exe"@[0]);
    assert("csv"@[0] != "msi"@[0]);
    assert("csv"@[0] != "dmg"@[0]);
    assert("csv"@[0] != "img"@[0]);
    assert("csv"@[0] != "iso"@[0]);
    assert("csv"@[0] != "vhd"@[0]);
    assert("doc"@[0] != "avi"@[0]);
    assert("doc"@[0] != "mkv"@[0]);
    assert("doc"@[0] != "mov"@[0]);
    assert("doc"@[0] != "mp4"@[0]);
    assert("doc"@[0] != "mpg"@[0]);
    assert("doc"@[0] != "wmv"@[0]);
    assert("doc"@[0] != "rar"@[0]);
    assert("doc"@[0] != "tar"@[0]);
    assert("doc"@[0] != "tgz"@[0]);
    assert("doc"@[0] != "zip"@[0]);
    assert("doc"@[0] != "exe"@[0]);
    assert("doc"@[0] != "msi"@[0]);
    assert("doc"@[1] != "dmg"@[1]);
    assert("doc"@[0] != "img"@[0]);
    assert("doc"@[0] != "iso"@[0]);
    assert("doc"@[0] != "vhd"@[0]);
    assert("docx"@[0] != "mpeg"@[0]);
    assert("docx"@[0] != "vhdx"@[0]);
    assert("pdf"@[0] != "avi"@[0]);
    assert("pdf"@[0] != "mkv"@[0]);
    assert("pdf"@[0] != "mov"@[0]);
    assert("pdf"@[0] != "mp4"@[0]);
    assert("pdf"@[0] != "mpg"@[0]);
    assert("pdf"@[0] != "wmv"@[0]);
    assert("pdf"@[0] != "rar"@[0]);
    assert("pdf"@[0] != "tar"@[0]);
    assert("pdf"@[0] != "tgz"@[0]);
    assert("pdf"@[0] != "zip"@[0]);
    assert("pdf"@[0] != "exe"@[0]);
    assert("pdf"@[0] != "msi"@[0]);
    assert("pdf"@[0] != "dmg"@[0]);
    assert("pdf"@[0] != "img"@[0]);
    assert("pdf"@[0] != "iso"@[0]);
    assert("pdf"@[0] != "vhd"@[0]);
    assert("ppt"@[0] != "avi"@[0]);
    assert("ppt"@[0] != "mkv"@[0]);
    assert("ppt"@[0] != "mov"@[0]);
    assert("ppt"@[0] != "mp4"@[0]);
    assert("ppt"@[0] != "mpg"@[0]);
    assert("ppt"@[0] != "wmv"@[0]);
    assert("ppt"@[0] != "rar"@[0]);
    assert("ppt"@[0] != "tar"@[0]);
    assert("ppt"@[0] != "tgz"@[0]);
    assert("ppt"@[0] != "zip"@[0]);
    assert("ppt"@[0] != "exe"@[0]);
    assert("ppt"@[0] != "msi"@[0]);
    assert("ppt"@[0] != "dmg"@[0]);
    assert("ppt"@[0] != "img"@[0]);
    assert("ppt"@[0] != "iso"@[0]);
    assert("ppt"@[0] != "vhd"@[0]);
    assert("pptx"@[0] != "mpeg"@[0]);
    assert("pptx"@[0] != "vhdx"@[0]);
    assert("txt"@[0] != "avi"@[0]);
    assert("txt"@[0] != "mkv"@[0]);
    assert("txt"@[0] != "mov"@[0]);
    assert("txt"@[0] != "mp4"@[0]);
    assert("txt"@[0] != "mpg"@[0]);
    assert("txt"@[0] != "wmv"@[0]);
    assert("txt"@[0] != "rar"@[0]);
    assert("txt"@[1] != "tar"@[1]);
    assert("txt"@[1] != "tgz"@[1]);
    assert("txt"@[0] != "zip"@[0]);
    assert("txt"@[0] != "exe"@[0]);
    assert("txt"@[0] != "msi"@[0]);
    assert("txt"@[0] != "dmg"@[0]);
    assert("txt"@[0] != "img"@[0]);
    assert("txt"@[0] != "iso"@[0]);
    assert("txt"@[0] != "vhd"@[0]);
    assert("xls"@[0] != "avi"@[0]);
    assert("xls"@[0] != "mkv"@[0]);
    assert("xls"@[0] != "mov"@[0]);
    assert("xls"@[0] != "mp4"@[0]);
    assert("xls"@[0] != "mpg"@[0]);
    assert("xls"@[0] != "wmv"@[0]);
    assert("xls"@[0] != "rar"@[0]);
    assert("xls"@[0] != "tar"@[0]);
    assert("xls"@[0] != "tgz"@[0]);
    assert("xls"@[0] != "zip"@[0]);
    assert("xls"@[0] != "exe"@[0]);
    assert("xls"@[0] != "msi"@[0]);
    assert("xls"@[0] != "dmg"@[0]);
    assert("xls"@[0] != "img"@[0]);
    assert("xls"@[0] != "iso"@[0]);
    assert("xls"@[0] != "vhd"@[0]);
    assert("xlsx"@[0] != "mpeg"@[0]);
    assert("xlsx"@[0] != "vhdx"@[0]);
}

/// The folders a large-file scan does not enter: with system folders
/// skipped, `C:\Windows` and everything below it; with program folders
/// skipped, `C:\Program Files`, `C:\Program Files (x86)`, `C:\ProgramData`
/// and everything below them (all compared by key); with neither, nothing.
pub proof fn law_scan_skips_system_and_program_folders(path: Seq<char>, system: bool, program: bool, root: Seq<char>)
    requires
        root == "c:\\windows"@ || root == "c:\\program files"@ || root == "c:\\program files (x86)"@ || root
            == "c:\\programdata"@,
    ensures
        (path_key(path) == root || (starts_with(path_key(path), root) && path_key(path).len() > root.len()
            && path_key(path)[root.len() as int] == '\\')) ==> (if root == "c:\\windows"@ {
            skips_dir(path, system, program) || !system
        } else {
            skips_dir(path, system, program) || !program
        }),
        !system && !program ==> !skips_dir(path, system, program),
{
    reveal_strlit("c:\\windows");
    reveal_strlit("c:\\program files");
    reveal_strlit("c:\\program files (x86)");
    reveal_strlit("c:\\programdata");
    assert("c:\\windows"@[3] != "c:\\program files"@[3]);
    assert("c:\\windows"@[3] != "c:\\program files (x86)"@[3]);
    assert("c:\\windows"@[3] != "c:\\programdata"@[3]);
    let k = path_key(path);
    if k == root || (starts_with(k, root) && k.len() > root.len() && k[root.len() as int] == '\\') {
        assert(same_or_child(k, root));
    }
}


/// A large file is recommended for migration exactly when it is not
/// protected, the scan does not skip its folder, and its key starts with
/// `c:\users\` and has a further separator after that (it lies in a user's
/// folder).
pub proof fn law_recommended_files_are_unprotected_user_files(path: Seq<char>, protected: bool, system: bool, program: bool)
    ensures
        recommended_file(path, protected, system, program) <==> (!protected && !skips_dir(path, system, program)
            && starts_with(path_key(path), "c:\\users\\"@) && exists|j: int|
            9 <= j < path_key(path).len() && #[trigger] path_key(path)[j] == '\\'),
{
    reveal_strlit("c:\\users\\");
    let k = path_key(path);
    let t = k.skip(9);
    if recommended_file(path, protected, system, program) {
        let j = choose|j: int| 0 <= j < t.len() && t[j] == '\\';
        assert(k[9 + j] == t[j]);
    }
    if starts_with(k, "c:\\users\\"@) && exists|j: int| 9 <= j < k.len() && #[trigger] k[j] == '\\' {
        let j = choose|j: int| 9 <= j < k.len() && #[trigger] k[j] == '\\';
        assert(t[j - 9] == k[j]);
    }
}

} // verus!
