//! Duplicate-file rules: which copy to keep, what may be cleaned, and how a
//! cleanup request is checked before a copy is moved to the recycle bin.
use vstd::prelude::*;

use vstd::string::StringExecFns;

use crate::text::{
    chars_have, lemma_lex_asymmetric, lemma_lex_irreflexive, lemma_lex_total,
    lemma_lex_transitive, lex_compare, lex_le, lex_lt, string_of, to_chars,
};
use crate::v2::models::{
    DuplicateCleanupFileRequest, DuplicateCleanupGroupRequest, DuplicateFileEntry, DuplicateFileGroup,
    DuplicateCleanupReport, DuplicateRecommendedAction, OperationModule, OperationProgressPayload,
};
use crate::v2::cancellation::cancellation_requested;
use crate::v2::recycle_bin::{RecycleBin, RecycleBinError};

use std::sync::atomic::AtomicBool;
use crate::v2::path_safety::{
    canonical_path_key, drive_label, drive_label_of, is_protected_duplicate_path, is_protected_path,
    path_key, views,
};

verus! {

/// `d` is the drive label `C:` in either case.
pub open spec fn is_c_drive_label(d: Seq<char>) -> bool {
    d.len() == 2 && (d[0] == 'c' || d[0] == 'C') && d[1] == ':'
}

/// A copy that may be kept: unprotected, and in the first tier also off the
/// C drive.
pub open spec fn keep_eligible(f: DuplicateFileEntry, off_c_drive_only: bool) -> bool {
    !f.protected && (!off_c_drive_only || !is_c_drive_label(f.drive@))
}

/// Some copy in `files` is eligible in the given tier.
pub open spec fn has_keep_eligible(files: Seq<DuplicateFileEntry>, off_c_drive_only: bool) -> bool {
    exists|i: int| 0 <= i < files.len() && keep_eligible(#[trigger] files[i], off_c_drive_only)
}

/// `k` is the last of the most recently modified eligible copies in the tier.
pub open spec fn is_last_newest(
    files: Seq<DuplicateFileEntry>,
    off_c_drive_only: bool,
    k: int,
    n: int,
) -> bool {
    &&& 0 <= k < n
    &&& keep_eligible(files[k], off_c_drive_only)
    &&& forall|j: int|
        0 <= j < n && keep_eligible(#[trigger] files[j], off_c_drive_only) ==> lex_le(
            files[j].modified_at@,
            files[k].modified_at@,
        )
    &&& forall|j: int|
        k < j < n && keep_eligible(#[trigger] files[j], off_c_drive_only) ==> lex_lt(
            files[j].modified_at@,
            files[k].modified_at@,
        )
}

/// The copy that a strict duplicate group keeps: the newest unprotected copy
/// off the C drive, else the newest unprotected copy; the last one wins a tie.
pub open spec fn is_preferred_keep(files: Seq<DuplicateFileEntry>, r: Option<usize>) -> bool {
    if has_keep_eligible(files, true) {
        r matches Some(k) && is_last_newest(files, true, k as int, files.len() as int)
    } else if has_keep_eligible(files, false) {
        r matches Some(k) && is_last_newest(files, false, k as int, files.len() as int)
    } else {
        r is None
    }
}

/// Sum of the sizes of `files[..n]`.
pub open spec fn size_sum(files: Seq<DuplicateFileEntry>, n: int) -> int
    decreases n,
{
    if n <= 0 {
        0
    } else {
        size_sum(files, n - 1) + files[n - 1].size_bytes
    }
}

/// Sum of the sizes of the copies in `files[..n]` that are neither `keep`
/// nor protected.
pub open spec fn cleanable_sum(files: Seq<DuplicateFileEntry>, keep: int, n: int) -> int
    decreases n,
{
    if n <= 0 {
        0
    } else {
        cleanable_sum(files, keep, n - 1) + if n - 1 != keep && !files[n - 1].protected {
            files[n - 1].size_bytes as int
        } else {
            0
        }
    }
}

/// `new` is `old` with only the selection and the recommended action changed.
pub open spec fn same_entry_except_choice(old: DuplicateFileEntry, new: DuplicateFileEntry) -> bool {
    new == DuplicateFileEntry { selected: new.selected, recommended_action: new.recommended_action, ..old }
}

/// Every copy is left unselected for manual review.
pub open spec fn all_manual_review(files: Seq<DuplicateFileEntry>) -> bool {
    forall|i: int|
        0 <= i < files.len() ==> !(#[trigger] files[i]).selected && files[i].recommended_action
            == DuplicateRecommendedAction::ManualReview
}

/// The recommendation that `apply_duplicate_recommendations` writes into a group.
pub open spec fn recommendation_applied(old: DuplicateFileGroup, new: DuplicateFileGroup) -> bool {
    &&& new.group_id == old.group_id
    &&& new.strict_duplicate == old.strict_duplicate
    &&& new.total_bytes == old.total_bytes
    &&& new.files.len() == old.files.len()
    &&& forall|i: int|
        0 <= i < old.files.len() ==> same_entry_except_choice(
            #[trigger] old.files[i],
            new.files[i],
        )
    &&& if !old.strict_duplicate {
        &&& all_manual_review(new.files@)
        &&& new.reclaimable_bytes == 0
        &&& new.recommended_selection_reason@ == "Suspected duplicates require manual review"@
    } else if !has_keep_eligible(old.files@, false) {
        &&& all_manual_review(new.files@)
        &&& new.reclaimable_bytes == 0
        &&& new.recommended_selection_reason@ == "No safe cleanup recommendation"@
    } else {
        exists|k: usize|
            #![trigger is_preferred_keep(old.files@, Some(k))]
            {
                &&& is_preferred_keep(old.files@, Some(k))
                &&& forall|i: int|
                    0 <= i < old.files.len() ==> if i == k || (#[trigger] old.files[i]).protected {
                        !new.files[i].selected && new.files[i].recommended_action
                            == DuplicateRecommendedAction::Keep
                    } else {
                        new.files[i].selected && new.files[i].recommended_action
                            == DuplicateRecommendedAction::Clean
                    }
                &&& new.reclaimable_bytes == cleanable_sum(old.files@, k as int, old.files.len() as int)
                &&& new.recommended_selection_reason@
                    == "Keep a non-C drive copy when available; clean duplicate C drive copies first"@
            }
    }
}

/// Recommendations never select a protected copy, and never select every
/// copy of a group: at least one copy is always left in place.
pub proof fn law_recommendations_spare_protected_and_one_copy(old: DuplicateFileGroup, new: DuplicateFileGroup)
    requires
        recommendation_applied(old, new),
    ensures
        forall|i: int| 0 <= i < old.files@.len() && (#[trigger] old.files@[i]).protected ==> !new.files@[i].selected,
        old.files@.len() > 0 ==> exists|i: int| 0 <= i < new.files@.len() && !(#[trigger] new.files@[i]).selected,
{
    if !old.strict_duplicate || !has_keep_eligible(old.files@, false) {
        if old.files@.len() > 0 {
            assert(!new.files@[0].selected);
        }
    } else {
        let k = choose|k: usize| #![trigger is_preferred_keep(old.files@, Some(k))]
            {
                &&& is_preferred_keep(old.files@, Some(k))
                &&& forall|i: int|
                    0 <= i < old.files.len() ==> if i == k || (#[trigger] old.files[i]).protected {
                        !new.files[i].selected && new.files[i].recommended_action
                            == DuplicateRecommendedAction::Keep
                    } else {
                        new.files[i].selected && new.files[i].recommended_action
                            == DuplicateRecommendedAction::Clean
                    }
                &&& new.reclaimable_bytes == cleanable_sum(old.files@, k as int, old.files.len() as int)
                &&& new.recommended_selection_reason@
                    == "Keep a non-C drive copy when available; clean duplicate C drive copies first"@
            };
        assert(0 <= k < old.files@.len());
        assert(!new.files@[k as int].selected);
    }
}

/// Whether a drive label is `C:` in either case.
pub fn drive_is_c(drive: &str) -> (r: bool)
    ensures
        r == is_c_drive_label(drive@),
{
    let d = to_chars(drive);
    d.len() == 2 && (d[0] == 'c' || d[0] == 'C') && d[1] == ':'
}

fn keep_eligible_exec(f: &DuplicateFileEntry, off_c_drive_only: bool) -> (r: bool)
    ensures
        r == keep_eligible(*f, off_c_drive_only),
{
    !f.protected && (!off_c_drive_only || !drive_is_c(f.drive.as_str()))
}

fn last_newest_index(files: &Vec<DuplicateFileEntry>, off_c_drive_only: bool) -> (r: Option<usize>)
    ensures
        match r {
            Some(k) => is_last_newest(files@, off_c_drive_only, k as int, files@.len() as int),
            None => !has_keep_eligible(files@, off_c_drive_only),
        },
{
    let mut best: Option<usize> = None;
    let mut i: usize = 0;
    while i < files.len()
        invariant
            i <= files@.len(),
            match best {
                Some(k) => is_last_newest(files@, off_c_drive_only, k as int, i as int),
                None => forall|j: int|
                    0 <= j < i ==> !keep_eligible(#[trigger] files@[j], off_c_drive_only),
            },
        decreases files@.len() - i,
    {
        if keep_eligible_exec(&files[i], off_c_drive_only) {
            match best {
                None => {
                    best = Some(i);
                    proof {
                        lemma_lex_irreflexive(files@[i as int].modified_at@);
                    }
                },
                Some(k) => {
                    let order = lex_compare(
                        to_chars(files[i].modified_at.as_str()).as_slice(),
                        to_chars(files[k].modified_at.as_str()).as_slice(),
                    );
                    if order >= 0 {
                        proof {
                            let x = files@[i as int].modified_at@;
                            let b = files@[k as int].modified_at@;
                            assert(lex_le(b, x));
                            assert forall|j: int|
                                0 <= j < i + 1 && keep_eligible(
                                    #[trigger] files@[j],
                                    off_c_drive_only,
                                ) implies lex_le(files@[j].modified_at@, x) by {
                                if j < i {
                                    let y = files@[j].modified_at@;
                                    if lex_lt(y, b) && lex_lt(b, x) {
                                        lemma_lex_transitive(y, b, x);
                                    }
                                } else {
                                    lemma_lex_irreflexive(x);
                                }
                            }
                        }
                        best = Some(i);
                    } else {
                        proof {
                            let x = files@[i as int].modified_at@;
                            let b = files@[k as int].modified_at@;
                            assert(lex_lt(x, b));
                        }
                    }
                },
            }
        }
        i += 1;
    }
    proof {
        if best is None {
            assert forall|j: int|
                0 <= j < files@.len() implies !keep_eligible(
                #[trigger] files@[j],
                off_c_drive_only,
            ) by {}
        }
    }
    best
}

/// The index of the copy that a strict duplicate group keeps (see
/// `is_preferred_keep`), or `None` when every copy is protected.
pub fn preferred_keep_index(files: &Vec<DuplicateFileEntry>) -> (r: Option<usize>)
    ensures
        is_preferred_keep(files@, r),
{
    match last_newest_index(files, true) {
        Some(k) => Some(k),
        None => {
            let r = last_newest_index(files, false);
            r
        },
    }
}

/// A copy of an entry with a new selection and recommended action.
pub fn entry_with_choice(
    e: &DuplicateFileEntry,
    selected: bool,
    action: DuplicateRecommendedAction,
) -> (r: DuplicateFileEntry)
    ensures
        r == (DuplicateFileEntry { selected: selected, recommended_action: action, ..*e }),
{
    DuplicateFileEntry {
        entry_id: e.entry_id.clone(),
        display_name: e.display_name.clone(),
        drive: e.drive.clone(),
        visible_location_hint: e.visible_location_hint.clone(),
        size_bytes: e.size_bytes,
        modified_at: e.modified_at.clone(),
        hash_fingerprint_id: e.hash_fingerprint_id.clone(),
        selected: selected,
        protected: e.protected,
        recommended_action: action,
    }
}

proof fn lemma_cleanable_le_size(files: Seq<DuplicateFileEntry>, keep: int, n: int)
    ensures
        0 <= cleanable_sum(files, keep, n) <= size_sum(files, n),
    decreases n,
{
    if n > 0 {
        lemma_cleanable_le_size(files, keep, n - 1);
    }
}

/// Marks which copies of a group to keep and which to clean.
///
/// Every copy is first reset to an unselected manual review. A suspected
/// group stays that way. In a strict group the preferred copy (see
/// `is_preferred_keep`) and every protected copy are kept; every other copy
/// is selected for cleaning and counted as reclaimable.
pub fn apply_duplicate_recommendations(group: &mut DuplicateFileGroup, protected_paths: &Vec<String>)
    requires
        size_sum(old(group).files@, old(group).files@.len() as int) <= u64::MAX,
    ensures
        recommendation_applied(*old(group), *final(group)),
{
    let n = group.files.len();
    let mut reset: Vec<DuplicateFileEntry> = Vec::new();
    let mut i: usize = 0;
    while i < n
        invariant
            n == group.files@.len(),
            i <= n,
            reset@.len() == i,
            forall|j: int|
                0 <= j < i ==> #[trigger] reset@[j] == (DuplicateFileEntry {
                    selected: false,
                    recommended_action: DuplicateRecommendedAction::ManualReview,
                    ..group.files@[j]
                }),
        decreases n - i,
    {
        reset.push(entry_with_choice(&group.files[i], false, DuplicateRecommendedAction::ManualReview));
        i += 1;
    }
    if !group.strict_duplicate {
        group.files = reset;
        group.reclaimable_bytes = 0;
        group.recommended_selection_reason = string_of("Suspected duplicates require manual review");
        return;
    }
    let keep_index = preferred_keep_index(&group.files);
    let keep = match keep_index {
        None => {
            group.files = reset;
            group.recommended_selection_reason = string_of("No safe cleanup recommendation");
            group.reclaimable_bytes = 0;
            return;
        },
        Some(k) => k,
    };
    let ghost old_files = group.files@;
    let mut chosen: Vec<DuplicateFileEntry> = Vec::new();
    let mut reclaimable_bytes: u64 = 0;
    let mut i: usize = 0;
    while i < n
        invariant
            n == old_files.len(),
            old_files == group.files@,
            is_preferred_keep(old_files, Some(keep)),
            size_sum(old_files, n as int) <= u64::MAX,
            i <= n,
            chosen@.len() == i,
            reclaimable_bytes == cleanable_sum(old_files, keep as int, i as int),
            forall|j: int|
                0 <= j < i ==> #[trigger] chosen@[j] == if j == keep || old_files[j].protected {
                    DuplicateFileEntry {
                        selected: false,
                        recommended_action: DuplicateRecommendedAction::Keep,
                        ..old_files[j]
                    }
                } else {
                    DuplicateFileEntry {
                        selected: true,
                        recommended_action: DuplicateRecommendedAction::Clean,
                        ..old_files[j]
                    }
                },
        decreases n - i,
    {
        if i == keep || group.files[i].protected {
            chosen.push(entry_with_choice(&group.files[i], false, DuplicateRecommendedAction::Keep));
        } else {
            proof {
                lemma_cleanable_le_size(old_files, keep as int, i + 1);
                lemma_size_sum_monotone(old_files, i + 1, n as int);
            }
            reclaimable_bytes = reclaimable_bytes + group.files[i].size_bytes;
            chosen.push(entry_with_choice(&group.files[i], true, DuplicateRecommendedAction::Clean));
        }
        i += 1;
    }
    group.files = chosen;
    group.reclaimable_bytes = reclaimable_bytes;
    group.recommended_selection_reason = string_of(
        "Keep a non-C drive copy when available; clean duplicate C drive copies first",
    );
}

proof fn lemma_size_sum_monotone(files: Seq<DuplicateFileEntry>, a: int, b: int)
    requires
        0 <= a <= b,
    ensures
        size_sum(files, a) <= size_sum(files, b),
    decreases b - a,
{
    if a < b {
        lemma_size_sum_monotone(files, a, b - 1);
    }
}


/// Where a duplicate copy found by a scan lives; kept by the back end so that
/// cleanup requests name copies by entry id only.
#[derive(Debug, Clone, PartialEq, Eq)]
pub struct DuplicateBackendEntry {
    pub entry_id: String,
    pub group_id: String,
    pub path: String,
    pub path_key: String,
    pub protected: bool,
}

/// The entries keyed by entry id; a later entry replaces an earlier one with
/// the same id.
pub open spec fn entry_map(s: Seq<DuplicateBackendEntry>) -> Map<Seq<char>, DuplicateBackendEntry>
    decreases s.len(),
{
    if s.len() == 0 {
        Map::empty()
    } else {
        entry_map(s.drop_last()).insert(s.last().entry_id@, s.last())
    }
}

/// The entries of the last duplicate scan, by entry id.
pub struct DuplicateEntryRegistry {
    entries: Vec<DuplicateBackendEntry>,
}

impl View for DuplicateEntryRegistry {
    type V = Map<Seq<char>, DuplicateBackendEntry>;

    closed spec fn view(&self) -> Map<Seq<char>, DuplicateBackendEntry> {
        entry_map(self.entries@)
    }
}

/// A copy of a back-end entry.
pub fn copy_backend_entry(e: &DuplicateBackendEntry) -> (r: DuplicateBackendEntry)
    ensures
        r == *e,
{
    DuplicateBackendEntry {
        entry_id: e.entry_id.clone(),
        group_id: e.group_id.clone(),
        path: e.path.clone(),
        path_key: e.path_key.clone(),
        protected: e.protected,
    }
}

proof fn lemma_entry_map_tail_absent(s: Seq<DuplicateBackendEntry>, id: Seq<char>, i: int)
    requires
        0 <= i <= s.len(),
        forall|j: int| i <= j < s.len() ==> (#[trigger] s[j]).entry_id@ != id,
    ensures
        entry_map(s).contains_key(id) == entry_map(s.take(i)).contains_key(id),
        entry_map(s).contains_key(id) ==> entry_map(s)[id] == entry_map(s.take(i))[id],
    decreases s.len() - i,
{
    if i < s.len() {
        let d = s.drop_last();
        assert forall|j: int| i <= j < d.len() implies (#[trigger] d[j]).entry_id@ != id by {
            assert(d[j] == s[j]);
        }
        lemma_entry_map_tail_absent(d, id, i);
        assert(d.take(i) =~= s.take(i));
    } else {
        assert(s.take(i) =~= s);
    }
}

impl DuplicateEntryRegistry {
    /// An empty registry.
    pub fn new() -> (r: DuplicateEntryRegistry)
        ensures
            r@ == Map::<Seq<char>, DuplicateBackendEntry>::empty(),
    {
        DuplicateEntryRegistry { entries: Vec::new() }
    }

    /// Replaces every entry by the given ones.
    pub fn replace_entries(&mut self, entries: Vec<DuplicateBackendEntry>)
        ensures
            final(self)@ == entry_map(entries@),
    {
        self.entries = entries;
    }

    /// The entry with the given id, if any.
    pub fn get(&self, entry_id: &str) -> (r: Option<DuplicateBackendEntry>)
        ensures
            r == (if self@.contains_key(entry_id@) {
                Some(self@[entry_id@])
            } else {
                None
            }),
    {
        let id = to_chars(entry_id);
        let mut i: usize = self.entries.len();
        while i > 0
            invariant
                i <= self.entries@.len(),
                id@ == entry_id@,
                forall|j: int| i <= j < self.entries@.len() ==> (#[trigger] self.entries@[j]).entry_id@ != entry_id@,
            decreases i,
        {
            let candidate = to_chars(self.entries[i - 1].entry_id.as_str());
            if crate::text::chars_eq(&candidate, &id) {
                proof {
                    let s = self.entries@;
                    lemma_entry_map_tail_absent(s, entry_id@, i as int);
                    assert(s.take(i as int).drop_last() =~= s.take(i - 1));
                    assert(s.take(i as int).last() == s[i - 1]);
                }
                return Some(copy_backend_entry(&self.entries[i - 1]));
            }
            i -= 1;
        }
        proof {
            lemma_entry_map_tail_absent(self.entries@, entry_id@, 0);
            assert(self.entries@.take(0) =~= Seq::<DuplicateBackendEntry>::empty());
        }
        None
    }

    /// Records one entry; its path key is the key of the given path.
    pub fn register_test_entry(&mut self, group_id: &str, entry_id: &str, path: &str, protected: bool)
        ensures
            final(self)@ == old(self)@.insert(
                entry_id@,
                DuplicateBackendEntry {
                    entry_id: final(self)@[entry_id@].entry_id,
                    group_id: final(self)@[entry_id@].group_id,
                    path: final(self)@[entry_id@].path,
                    path_key: final(self)@[entry_id@].path_key,
                    protected: protected,
                },
            ),
            final(self)@[entry_id@].entry_id@ == entry_id@,
            final(self)@[entry_id@].group_id@ == group_id@,
            final(self)@[entry_id@].path@ == path@,
            final(self)@[entry_id@].path_key@ == path_key(path@),
    {
        let e = DuplicateBackendEntry {
            entry_id: string_of(entry_id),
            group_id: string_of(group_id),
            path: string_of(path),
            path_key: canonical_path_key(path),
            protected: protected,
        };
        self.entries.push(e);
        proof {
            assert(self.entries@.drop_last() =~= old(self).entries@);
        }
    }
}

impl Default for DuplicateEntryRegistry {
    fn default() -> (r: DuplicateEntryRegistry)
        ensures
            r@ == Map::<Seq<char>, DuplicateBackendEntry>::empty(),
    {
        DuplicateEntryRegistry::new()
    }
}

/// A write to the registry is read back unchanged, and other ids keep their
/// entries.
pub proof fn law_registry_read_after_write(
    before: Map<Seq<char>, DuplicateBackendEntry>,
    after: Map<Seq<char>, DuplicateBackendEntry>,
    id: Seq<char>,
    entry: DuplicateBackendEntry,
    other: Seq<char>,
)
    requires
        after == before.insert(id, entry),
        other != id,
    ensures
        after.contains_key(id) && after[id] == entry,
        after.contains_key(other) == before.contains_key(other),
        before.contains_key(other) ==> after[other] == before[other],
{
}


/// Size and content hash of a file.
#[derive(Debug, Clone, PartialEq, Eq)]
pub struct FileFingerprint {
    pub size_bytes: u64,
    pub content_hash: String,
}

/// What was observed on disk, just before cleanup, about the file behind one
/// file of a cleanup group.
#[derive(Debug, Clone, PartialEq, Eq)]
pub struct FileObservation {
    pub exists: bool,
    pub fingerprint: Option<FileFingerprint>,
}

/// A file of a cleanup group resolved against the registry.
#[derive(Debug, Clone, PartialEq, Eq)]
pub struct ResolvedCleanupEntry {
    pub entry: DuplicateBackendEntry,
    pub request_protected: bool,
    pub file_index: usize,
}

/// A cleanup group split into the copies to clean and the copies to keep.
#[derive(Debug, Clone, PartialEq, Eq)]
pub struct ResolvedGroup {
    pub selected: Vec<ResolvedCleanupEntry>,
    pub retained: Vec<ResolvedCleanupEntry>,
    pub unknown_entries: u64,
    pub foreign_entries: u64,
}

/// What one group of a duplicate cleanup did: how it was resolved, the
/// copies handed to the recycle bin in order, the bin's answer to each (true
/// where the move worked), the progress reports, how many selected copies
/// were handled, and whether a cancellation stopped it (and whether that
/// came just before a move).
#[derive(Debug, Clone, PartialEq, Eq)]
pub struct GroupCleanupOutcome {
    pub resolved: ResolvedGroup,
    pub recycle_requests: Vec<ResolvedCleanupEntry>,
    pub moved: Vec<bool>,
    pub progress: Vec<OperationProgressPayload>,
    pub handled: usize,
    pub stopped: bool,
    pub stopped_before_move: bool,
}

/// Two fingerprints are equal.
pub open spec fn same_fingerprint(a: FileFingerprint, b: FileFingerprint) -> bool {
    a.size_bytes == b.size_bytes && a.content_hash@ == b.content_hash@
}

/// File `i` of the group names a registered entry.
pub open spec fn file_known(
    files: Seq<DuplicateCleanupFileRequest>,
    registry: Map<Seq<char>, DuplicateBackendEntry>,
    i: int,
) -> bool {
    registry.contains_key(files[i].entry_id@)
}

/// File `i` of the group names a registered entry of this group.
pub open spec fn file_in_group(
    group: DuplicateCleanupGroupRequest,
    registry: Map<Seq<char>, DuplicateBackendEntry>,
    i: int,
) -> bool {
    file_known(group.files@, registry, i) && registry[group.files@[i].entry_id@].group_id@
        == group.group_id@
}

/// Number of files among the first `n` that name no registered entry.
pub open spec fn count_unknown(
    files: Seq<DuplicateCleanupFileRequest>,
    registry: Map<Seq<char>, DuplicateBackendEntry>,
    n: int,
) -> int
    decreases n,
{
    if n <= 0 {
        0
    } else {
        count_unknown(files, registry, n - 1) + if !file_known(files, registry, n - 1) {
            1int
        } else {
            0
        }
    }
}

/// Number of files among the first `n` that name an entry of another group.
pub open spec fn count_foreign(
    group: DuplicateCleanupGroupRequest,
    registry: Map<Seq<char>, DuplicateBackendEntry>,
    n: int,
) -> int
    decreases n,
{
    if n <= 0 {
        0
    } else {
        count_foreign(group, registry, n - 1) + if file_known(group.files@, registry, n - 1)
            && !file_in_group(group, registry, n - 1) {
            1int
        } else {
            0
        }
    }
}

/// `r` is file `i` of the group resolved against the registry.
pub open spec fn resolves_file(
    group: DuplicateCleanupGroupRequest,
    registry: Map<Seq<char>, DuplicateBackendEntry>,
    r: ResolvedCleanupEntry,
) -> bool {
    &&& 0 <= r.file_index < group.files@.len()
    &&& file_in_group(group, registry, r.file_index as int)
    &&& r.entry == registry[group.files@[r.file_index as int].entry_id@]
    &&& r.request_protected == group.files@[r.file_index as int].protected
}

/// `list` holds, in file order and once per entry id, exactly the files of
/// the group in this group whose selection flag is `selected`.
pub open spec fn resolved_side(
    group: DuplicateCleanupGroupRequest,
    registry: Map<Seq<char>, DuplicateBackendEntry>,
    list: Seq<ResolvedCleanupEntry>,
    selected: bool,
) -> bool {
    &&& forall|k: int|
        0 <= k < list.len() ==> resolves_file(group, registry, #[trigger] list[k])
            && group.files@[list[k].file_index as int].selected == selected
    &&& forall|a: int, b: int|
        0 <= a < b < list.len() ==> (#[trigger] list[a]).file_index < (#[trigger] list[b]).file_index
            && list[a].entry.entry_id@ != list[b].entry.entry_id@
    &&& forall|i: int|
        0 <= i < group.files@.len() && file_in_group(group, registry, i)
            && (#[trigger] group.files@[i]).selected == selected ==> exists|k: int|
            0 <= k < list.len() && (#[trigger] list[k]).entry.entry_id@ == group.files@[i].entry_id@
}

/// `r` is the split of the group that `resolve_cleanup_group` computes.
pub open spec fn resolved_well(
    group: DuplicateCleanupGroupRequest,
    registry: Map<Seq<char>, DuplicateBackendEntry>,
    r: ResolvedGroup,
) -> bool {
    &&& resolved_side(group, registry, r.selected@, true)
    &&& resolved_side(group, registry, r.retained@, false)
    &&& r.unknown_entries == count_unknown(group.files@, registry, group.files@.len() as int)
    &&& r.foreign_entries == count_foreign(group, registry, group.files@.len() as int)
}

/// A retained copy has the same id or the same path as `e`.
pub open spec fn conflicts_with_retained(
    e: DuplicateBackendEntry,
    retained: Seq<ResolvedCleanupEntry>,
) -> bool {
    exists|j: int|
        0 <= j < retained.len() && ((#[trigger] retained[j]).entry.entry_id@ == e.entry_id@
            || retained[j].entry.path_key@ == e.path_key@)
}

/// The copy is protected (by the request, by the scan, or by the user's
/// protected paths) and the user has not confirmed an override.
pub open spec fn blocked_by_protection(
    s: ResolvedCleanupEntry,
    protected_paths: Seq<Seq<char>>,
    override_confirmed: bool,
) -> bool {
    (s.request_protected || s.entry.protected || is_protected_path(s.entry.path@, protected_paths))
        && !override_confirmed
}

/// Some retained copy at another path was observed with the fingerprint `fp`.
pub open spec fn has_matching_retained_copy(
    s: ResolvedCleanupEntry,
    retained: Seq<ResolvedCleanupEntry>,
    observations: Seq<FileObservation>,
    fp: FileFingerprint,
) -> bool {
    exists|j: int|
        0 <= j < retained.len() && (#[trigger] retained[j]).entry.path_key@ != s.entry.path_key@
            && (observations[retained[j].file_index as int].fingerprint matches Some(f)
            && same_fingerprint(f, fp))
}

/// The conditions under which a selected copy may be moved to the recycle
/// bin: it still exists, it is not also being kept, it is not protected
/// (unless overridden), and a kept copy elsewhere has the same content.
pub open spec fn may_recycle(
    s: ResolvedCleanupEntry,
    retained: Seq<ResolvedCleanupEntry>,
    observations: Seq<FileObservation>,
    protected_paths: Seq<Seq<char>>,
    override_confirmed: bool,
) -> bool {
    &&& observations[s.file_index as int].exists
    &&& !conflicts_with_retained(s.entry, retained)
    &&& !blocked_by_protection(s, protected_paths, override_confirmed)
    &&& (observations[s.file_index as int].fingerprint matches Some(fp)
        && has_matching_retained_copy(s, retained, observations, fp))
}

/// Retained copy `j` stays in place as the twin of `s`: it is kept by the
/// request, lies at another path, was seen with the same content, and no
/// copy handed to the recycle bin is it.
pub open spec fn kept_twin(
    group: DuplicateCleanupGroupRequest,
    retained: Seq<ResolvedCleanupEntry>,
    observations: Seq<FileObservation>,
    requests: Seq<ResolvedCleanupEntry>,
    s: ResolvedCleanupEntry,
    j: int,
) -> bool {
    &&& 0 <= j < retained.len()
    &&& !group.files@[retained[j].file_index as int].selected
    &&& retained[j].entry.path_key@ != s.entry.path_key@
    &&& observations[s.file_index as int].fingerprint matches Some(fp)
    &&& observations[retained[j].file_index as int].fingerprint matches Some(f)
    &&& same_fingerprint(f, fp)
    &&& forall|q: int| 0 <= q < requests.len() ==> (#[trigger] requests[q]).entry.entry_id@ != retained[j].entry.entry_id@
}

/// No copy is moved to the recycle bin without a twin: for every copy a
/// cleanup hands over, a copy the user kept, at another path and with the
/// same content, stays in place.
pub proof fn law_recycled_copy_keeps_a_twin(
    group: DuplicateCleanupGroupRequest,
    registry: Map<Seq<char>, DuplicateBackendEntry>,
    resolved: ResolvedGroup,
    requests: Seq<ResolvedCleanupEntry>,
    observations: Seq<FileObservation>,
    protected_paths: Seq<Seq<char>>,
    override_confirmed: bool,
    k: int,
)
    requires
        resolved_well(group, registry, resolved),
        forall|q: int|
            0 <= q < requests.len() ==> may_recycle(
                #[trigger] requests[q],
                resolved.retained@,
                observations,
                protected_paths,
                override_confirmed,
            ),
        0 <= k < requests.len(),
    ensures
        exists|j: int| #[trigger] kept_twin(group, resolved.retained@, observations, requests, requests[k], j),
{
    let s = requests[k];
    assert(may_recycle(s, resolved.retained@, observations, protected_paths, override_confirmed));
    let fp = observations[s.file_index as int].fingerprint->Some_0;
    let retained = resolved.retained@;
    let j = choose|j: int|
        0 <= j < retained.len() && (#[trigger] retained[j]).entry.path_key@ != s.entry.path_key@
            && (observations[retained[j].file_index as int].fingerprint matches Some(f) && same_fingerprint(f, fp));
    assert(resolves_file(group, registry, retained[j]) && group.files@[retained[j].file_index as int].selected == false);
    assert forall|q: int| 0 <= q < requests.len() implies (#[trigger] requests[q]).entry.entry_id@ != retained[j].entry.entry_id@ by {
        assert(may_recycle(requests[q], retained, observations, protected_paths, override_confirmed));
        if requests[q].entry.entry_id@ == retained[j].entry.entry_id@ {
            assert(conflicts_with_retained(requests[q].entry, retained));
        }
    }
    assert(kept_twin(group, retained, observations, requests, s, j));
}

/// The observed size of a file, or 0 when its fingerprint could not be taken.
pub open spec fn observed_size(o: FileObservation) -> int {
    match o.fingerprint {
        Some(f) => f.size_bytes as int,
        None => 0,
    }
}

/// Sum of the observed sizes of the first `n` observations.
pub open spec fn observed_bytes(observations: Seq<FileObservation>, n: int) -> int
    decreases n,
{
    if n <= 0 {
        0
    } else {
        observed_bytes(observations, n - 1) + observed_size(observations[n - 1])
    }
}

/// Observed sizes never sum to less than zero.
pub proof fn lemma_observed_bytes_nonneg(observations: Seq<FileObservation>, n: int)
    ensures
        observed_bytes(observations, n) >= 0,
    decreases n,
{
    if n > 0 {
        lemma_observed_bytes_nonneg(observations, n - 1);
    }
}

proof fn lemma_observed_bytes_monotone(observations: Seq<FileObservation>, a: int, b: int)
    requires
        0 <= a <= b,
    ensures
        observed_bytes(observations, a) <= observed_bytes(observations, b),
    decreases b - a,
{
    if a < b {
        lemma_observed_bytes_monotone(observations, a, b - 1);
    }
}

proof fn lemma_entry_map_key(s: Seq<DuplicateBackendEntry>, id: Seq<char>)
    requires
        entry_map(s).contains_key(id),
    ensures
        entry_map(s)[id].entry_id@ == id,
    decreases s.len(),
{
    if s.len() > 0 && s.last().entry_id@ != id {
        lemma_entry_map_key(s.drop_last(), id);
    }
}

impl DuplicateEntryRegistry {
    /// Every registered entry is stored under its own id.
    pub proof fn lemma_keys_are_ids(&self, id: Seq<char>)
        requires
            self@.contains_key(id),
        ensures
            self@[id].entry_id@ == id,
    {
        lemma_entry_map_key(self.entries@, id);
    }
}

fn ids_contain(ids: &Vec<String>, id: &str) -> (r: bool)
    ensures
        r == exists|k: int| 0 <= k < ids@.len() && (#[trigger] ids@[k])@ == id@,
{
    let target = to_chars(id);
    let mut k: usize = 0;
    while k < ids.len()
        invariant
            k <= ids@.len(),
            target@ == id@,
            forall|j: int| 0 <= j < k ==> (#[trigger] ids@[j])@ != id@,
        decreases ids@.len() - k,
    {
        if crate::text::chars_eq(&to_chars(ids[k].as_str()), &target) {
            return true;
        }
        k += 1;
    }
    false
}

/// Splits a cleanup group into the copies to clean and the copies to keep,
/// counting the files that name no entry or an entry of another group.
pub fn resolve_cleanup_group(
    group: &DuplicateCleanupGroupRequest,
    registry: &DuplicateEntryRegistry,
) -> (r: ResolvedGroup)
    requires
        group.files@.len() <= u64::MAX,
    ensures
        resolved_well(*group, registry@, r),
        r.selected@.len() + r.retained@.len() + r.unknown_entries + r.foreign_entries
            <= group.files@.len(),
{
    let n = group.files.len();
    let mut selected: Vec<ResolvedCleanupEntry> = Vec::new();
    let mut retained: Vec<ResolvedCleanupEntry> = Vec::new();
    let mut selected_ids: Vec<String> = Vec::new();
    let mut retained_ids: Vec<String> = Vec::new();
    let mut unknown: u64 = 0;
    let mut foreign: u64 = 0;
    let group_id = to_chars(group.group_id.as_str());
    let mut i: usize = 0;
    while i < n
        invariant
            n == group.files@.len(),
            n <= u64::MAX,
            i <= n,
            group_id@ == group.group_id@,
            unknown == count_unknown(group.files@, registry@, i as int),
            foreign == count_foreign(*group, registry@, i as int),
            selected@.len() + retained@.len() + unknown + foreign <= i,
            selected_ids@.len() == selected@.len(),
            retained_ids@.len() == retained@.len(),
            forall|k: int| 0 <= k < selected@.len() ==> (#[trigger] selected_ids@[k])@ == selected@[k].entry.entry_id@,
            forall|k: int| 0 <= k < retained@.len() ==> (#[trigger] retained_ids@[k])@ == retained@[k].entry.entry_id@,
            forall|k: int|
                0 <= k < selected@.len() ==> resolves_file(*group, registry@, #[trigger] selected@[k])
                    && group.files@[selected@[k].file_index as int].selected
                    && selected@[k].file_index < i,
            forall|k: int|
                0 <= k < retained@.len() ==> resolves_file(*group, registry@, #[trigger] retained@[k])
                    && !group.files@[retained@[k].file_index as int].selected
                    && retained@[k].file_index < i,
            forall|a: int, b: int|
                0 <= a < b < selected@.len() ==> (#[trigger] selected@[a]).file_index
                    < (#[trigger] selected@[b]).file_index && selected@[a].entry.entry_id@
                    != selected@[b].entry.entry_id@,
            forall|a: int, b: int|
                0 <= a < b < retained@.len() ==> (#[trigger] retained@[a]).file_index
                    < (#[trigger] retained@[b]).file_index && retained@[a].entry.entry_id@
                    != retained@[b].entry.entry_id@,
            forall|j: int|
                0 <= j < i && file_in_group(*group, registry@, j) && (#[trigger] group.files@[j]).selected
                    ==> exists|k: int|
                    0 <= k < selected@.len() && (#[trigger] selected@[k]).entry.entry_id@
                        == group.files@[j].entry_id@,
            forall|j: int|
                0 <= j < i && file_in_group(*group, registry@, j) && !(#[trigger] group.files@[j]).selected
                    ==> exists|k: int|
                    0 <= k < retained@.len() && (#[trigger] retained@[k]).entry.entry_id@
                        == group.files@[j].entry_id@,
        decreases n - i,
    {
        let file = &group.files[i];
        let ghost old_selected = selected@;
        let ghost old_retained = retained@;
        match registry.get(file.entry_id.as_str()) {
            None => {
                unknown = unknown + 1;
            },
            Some(entry) => {
                proof {
                    registry.lemma_keys_are_ids(file.entry_id@);
                }
                if !crate::text::chars_eq(&to_chars(entry.group_id.as_str()), &group_id) {
                    foreign = foreign + 1;
                } else if file.selected {
                    if !ids_contain(&selected_ids, file.entry_id.as_str()) {
                        proof {
                            assert forall|k: int| 0 <= k < selected@.len() implies (#[trigger] selected@[k]).entry.entry_id@ != entry.entry_id@ by {
                                assert(selected_ids@[k]@ == selected@[k].entry.entry_id@);
                            }
                        }
                        selected_ids.push(file.entry_id.clone());
                        selected.push(
                            ResolvedCleanupEntry {
                                entry: entry,
                                request_protected: file.protected,
                                file_index: i,
                            },
                        );
                    }
                } else {
                    if !ids_contain(&retained_ids, file.entry_id.as_str()) {
                        proof {
                            assert forall|k: int| 0 <= k < retained@.len() implies (#[trigger] retained@[k]).entry.entry_id@ != entry.entry_id@ by {
                                assert(retained_ids@[k]@ == retained@[k].entry.entry_id@);
                            }
                        }
                        retained_ids.push(file.entry_id.clone());
                        retained.push(
                            ResolvedCleanupEntry {
                                entry: entry,
                                request_protected: file.protected,
                                file_index: i,
                            },
                        );
                    }
                }
            },
        }
        proof {
            assert forall|j: int|
                0 <= j < i + 1 && file_in_group(*group, registry@, j) && (#[trigger] group.files@[j]).selected
                    implies exists|k: int|
                    0 <= k < selected@.len() && (#[trigger] selected@[k]).entry.entry_id@
                        == group.files@[j].entry_id@ by {
                if j < i {
                    let k = choose|k: int|
                        0 <= k < old_selected.len() && (#[trigger] old_selected[k]).entry.entry_id@
                            == group.files@[j].entry_id@;
                    assert(selected@[k] == old_selected[k]);
                } else if selected@.len() > old_selected.len() {
                    let k = selected@.len() - 1;
                    assert(selected@[k].entry.entry_id@ == group.files@[j].entry_id@);
                } else {
                    let k = choose|k: int|
                        0 <= k < selected_ids@.len() && (#[trigger] selected_ids@[k])@
                            == group.files@[j].entry_id@;
                    assert(selected@[k].entry.entry_id@ == group.files@[j].entry_id@);
                }
            }
            assert forall|j: int|
                0 <= j < i + 1 && file_in_group(*group, registry@, j) && !(#[trigger] group.files@[j]).selected
                    implies exists|k: int|
                    0 <= k < retained@.len() && (#[trigger] retained@[k]).entry.entry_id@
                        == group.files@[j].entry_id@ by {
                if j < i {
                    let k = choose|k: int|
                        0 <= k < old_retained.len() && (#[trigger] old_retained[k]).entry.entry_id@
                            == group.files@[j].entry_id@;
                    assert(retained@[k] == old_retained[k]);
                } else if retained@.len() > old_retained.len() {
                    let k = retained@.len() - 1;
                    assert(retained@[k].entry.entry_id@ == group.files@[j].entry_id@);
                } else {
                    let k = choose|k: int|
                        0 <= k < retained_ids@.len() && (#[trigger] retained_ids@[k])@
                            == group.files@[j].entry_id@;
                    assert(retained@[k].entry.entry_id@ == group.files@[j].entry_id@);
                }
            }
        }
        i += 1;
    }
    ResolvedGroup {
        selected: selected,
        retained: retained,
        unknown_entries: unknown,
        foreign_entries: foreign,
    }
}


/// The percentage shown while a duplicate cleanup runs: from 10 to 99 as the
/// selected copies are processed.
pub open spec fn cleanup_percent(processed: u64, total: u64) -> int {
    if total == 0 {
        99
    } else {
        let m = if processed * 89 > u64::MAX {
            u64::MAX as int
        } else {
            processed * 89
        };
        let q = m / (total as int);
        10 + if q < 89 {
            q
        } else {
            89
        }
    }
}

/// Progress percentage of a duplicate cleanup.
pub fn cleanup_progress_percent(processed_items: u64, total_items: u64) -> (r: u8)
    ensures
        r == cleanup_percent(processed_items, total_items),
{
    if total_items == 0 {
        return 99;
    }
    let m: u64 = match processed_items.checked_mul(89) {
        Some(v) => v,
        None => u64::MAX,
    };
    let q: u64 = m / total_items;
    let capped: u64 = if q < 89 {
        q
    } else {
        89
    };
    (10 + capped) as u8
}

/// The location hint of a duplicate copy: its drive letter only.
pub open spec fn duplicate_location_hint(path: Seq<char>) -> Seq<char> {
    let drive = drive_label_of(path);
    if drive.len() == 0 {
        "文件夹"@
    } else {
        seq![drive[0]] + " 盘 · 文件夹"@
    }
}

/// A path-free hint of where a duplicate copy lives (`"D 盘 · 文件夹"`).
pub fn visible_location_hint(path: &str) -> (r: String)
    ensures
        r@ == duplicate_location_hint(path@),
{
    let drive = to_chars(drive_label(path).as_str());
    if drive.len() == 0 {
        string_of("文件夹")
    } else {
        let mut v: Vec<char> = Vec::new();
        v.push(drive[0]);
        let mut r = crate::text::from_chars(&v);
        r.append(" 盘 · 文件夹");
        r
    }
}

/// A progress report of a duplicate operation; the percentage is capped at 99
/// while the operation runs.
pub fn progress_payload(
    operation_id: &str,
    module: OperationModule,
    stage: &str,
    percent: u8,
    current_location_hint: String,
    scanned_files: u64,
    found_groups: u64,
    found_items: u64,
    found_bytes: u64,
    processed_items: u64,
    success_count: u64,
    skipped_count: u64,
    failed_count: u64,
) -> (r: OperationProgressPayload)
    ensures
        r.operation_id@ == operation_id@,
        r.module == module,
        r.stage@ == stage@,
        r.percent == if percent < 99 {
            percent
        } else {
            99
        },
        r.current_location_hint == current_location_hint,
        r.current_file_type is None,
        r.scanned_files == scanned_files,
        r.found_groups == found_groups,
        r.found_items == found_items,
        r.found_bytes == found_bytes,
        r.processed_items == processed_items,
        r.success_count == success_count,
        r.skipped_count == skipped_count,
        r.failed_count == failed_count,
{
    OperationProgressPayload {
        operation_id: string_of(operation_id),
        module: module,
        stage: string_of(stage),
        percent: if percent < 99 {
            percent
        } else {
            99
        },
        current_location_hint: current_location_hint,
        current_file_type: None,
        scanned_files: scanned_files,
        found_groups: found_groups,
        found_items: found_items,
        found_bytes: found_bytes,
        processed_items: processed_items,
        success_count: success_count,
        skipped_count: skipped_count,
        failed_count: failed_count,
    }
}

/// The progress report of a running cleanup, from the counts so far.
pub open spec fn is_cleanup_progress(
    p: OperationProgressPayload,
    operation_id: Seq<char>,
    report: DuplicateCleanupReport,
    total_items: u64,
    hint: Seq<char>,
) -> bool {
    &&& p.operation_id@ == operation_id
    &&& p.module == OperationModule::DuplicateCleanup
    &&& p.stage@ == "cleaning"@
    &&& p.percent == cleanup_percent(report.processed_files, total_items)
    &&& p.current_location_hint@ == hint
    &&& p.current_file_type is None
    &&& p.scanned_files == 0 && p.found_groups == 0 && p.found_items == 0
    &&& p.found_bytes == report.freed_bytes
    &&& p.processed_items == report.processed_files
    &&& p.success_count == report.success_count
    &&& p.skipped_count == report.skipped_count
    &&& p.failed_count == report.failed_count
}

/// A cleaning report of the operation whose location hint names only the
/// drive of one of the group's selected copies.
pub open spec fn group_progress(p: OperationProgressPayload, operation_id: Seq<char>, resolved: ResolvedGroup) -> bool {
    &&& p.operation_id@ == operation_id
    &&& p.module == OperationModule::DuplicateCleanup
    &&& p.stage@ == "cleaning"@
    &&& exists|i: int|
        0 <= i < resolved.selected@.len() && p.current_location_hint@ == duplicate_location_hint(
            (#[trigger] resolved.selected@[i]).entry.path@,
        )
}

fn cleanup_progress(
    operation_id: &str,
    report: &DuplicateCleanupReport,
    total_items: u64,
    path: &str,
) -> (r: OperationProgressPayload)
    ensures
        is_cleanup_progress(r, operation_id@, *report, total_items, duplicate_location_hint(path@)),
{
    progress_payload(
        operation_id,
        OperationModule::DuplicateCleanup,
        "cleaning",
        cleanup_progress_percent(report.processed_files, total_items),
        visible_location_hint(path),
        0,
        0,
        0,
        report.freed_bytes,
        report.processed_files,
        report.success_count,
        report.skipped_count,
        report.failed_count,
    )
}

/// The final progress report of a cleanup: 100 percent and the report's counts.
pub fn cleanup_finished_progress_payload(operation_id: &str, report: &DuplicateCleanupReport) -> (r:
    OperationProgressPayload)
    ensures
        r.operation_id@ == operation_id@,
        r.module == OperationModule::DuplicateCleanup,
        r.stage@ == "finished"@,
        r.percent == 100,
        r.current_location_hint@ == Seq::<char>::empty(),
        r.current_file_type is None,
        r.scanned_files == 0 && r.found_groups == 0 && r.found_items == 0,
        r.found_bytes == report.freed_bytes,
        r.processed_items == report.processed_files,
        r.success_count == report.success_count,
        r.skipped_count == report.skipped_count,
        r.failed_count == report.failed_count,
{
    let mut payload = progress_payload(
        operation_id,
        OperationModule::DuplicateCleanup,
        "finished",
        99,
        String::new(),
        0,
        0,
        0,
        report.freed_bytes,
        report.processed_files,
        report.success_count,
        report.skipped_count,
        report.failed_count,
    );
    payload.percent = 100;
    payload
}

/// The final progress report of a cleanup (see
/// `cleanup_finished_progress_payload`).
pub fn cleanup_finished_progress_for_test(operation_id: &str, report: &DuplicateCleanupReport) -> (r:
    OperationProgressPayload)
    ensures
        r.operation_id@ == operation_id@,
        r.module == OperationModule::DuplicateCleanup,
        r.stage@ == "finished"@,
        r.percent == 100,
        r.current_location_hint@ == Seq::<char>::empty(),
        r.found_bytes == report.freed_bytes,
        r.processed_items == report.processed_files,
        r.success_count == report.success_count,
        r.skipped_count == report.skipped_count,
        r.failed_count == report.failed_count,
{
    cleanup_finished_progress_payload(operation_id, report)
}

fn conflicts_with_retained_exec(e: &DuplicateBackendEntry, retained: &Vec<ResolvedCleanupEntry>) -> (r:
    bool)
    ensures
        r == conflicts_with_retained(*e, retained@),
{
    let id = to_chars(e.entry_id.as_str());
    let key = to_chars(e.path_key.as_str());
    let mut j: usize = 0;
    while j < retained.len()
        invariant
            j <= retained@.len(),
            id@ == e.entry_id@,
            key@ == e.path_key@,
            forall|q: int|
                0 <= q < j ==> (#[trigger] retained@[q]).entry.entry_id@ != e.entry_id@
                    && retained@[q].entry.path_key@ != e.path_key@,
        decreases retained@.len() - j,
    {
        if crate::text::chars_eq(&to_chars(retained[j].entry.entry_id.as_str()), &id)
            || crate::text::chars_eq(&to_chars(retained[j].entry.path_key.as_str()), &key) {
            return true;
        }
        j += 1;
    }
    false
}

fn fingerprints_equal(a: &FileFingerprint, b: &FileFingerprint) -> (r: bool)
    ensures
        r == same_fingerprint(*a, *b),
{
    a.size_bytes == b.size_bytes && crate::text::chars_eq(
        &to_chars(a.content_hash.as_str()),
        &to_chars(b.content_hash.as_str()),
    )
}

fn matching_retained_copy_exists(
    s: &ResolvedCleanupEntry,
    retained: &Vec<ResolvedCleanupEntry>,
    observations: &Vec<FileObservation>,
    fp: &FileFingerprint,
) -> (r: bool)
    requires
        forall|q: int|
            0 <= q < retained@.len() ==> (#[trigger] retained@[q]).file_index < observations@.len(),
    ensures
        r == has_matching_retained_copy(*s, retained@, observations@, *fp),
{
    let key = to_chars(s.entry.path_key.as_str());
    let mut j: usize = 0;
    while j < retained.len()
        invariant
            j <= retained@.len(),
            key@ == s.entry.path_key@,
            forall|q: int|
                0 <= q < retained@.len() ==> (#[trigger] retained@[q]).file_index < observations@.len(),
            forall|q: int|
                0 <= q < j ==> !((#[trigger] retained@[q]).entry.path_key@ != s.entry.path_key@
                    && (observations@[retained@[q].file_index as int].fingerprint matches Some(f)
                    && same_fingerprint(f, *fp))),
        decreases retained@.len() - j,
    {
        let other = &retained[j];
        if !crate::text::chars_eq(&to_chars(other.entry.path_key.as_str()), &key) {
            match &observations[other.file_index].fingerprint {
                Some(f) => {
                    if fingerprints_equal(f, fp) {
                        return true;
                    }
                },
                None => {},
            }
        }
        j += 1;
    }
    false
}

fn keys_contain(keys: &Vec<Vec<char>>, key: &[char]) -> (r: bool)
    ensures
        r == exists|k: int| 0 <= k < keys@.len() && (#[trigger] keys@[k])@ == key@,
{
    let mut k: usize = 0;
    while k < keys.len()
        invariant
            k <= keys@.len(),
            forall|j: int| 0 <= j < k ==> (#[trigger] keys@[j])@ != key@,
        decreases keys@.len() - k,
    {
        if crate::text::chars_eq(&keys[k], key) {
            return true;
        }
        k += 1;
    }
    false
}

/// Sum of the three outcome counters of a report.
pub open spec fn outcome_count(r: DuplicateCleanupReport) -> int {
    r.success_count + r.skipped_count + r.failed_count
}

/// The counters of a duplicate cleanup report, as integers.
pub struct CleanupTally {
    pub processed: int,
    pub success: int,
    pub skipped: int,
    pub failed: int,
    pub freed: int,
    pub c_drive_freed: int,
    pub other_drive_freed: int,
}

/// The counters of `r`.
pub open spec fn tally_of(r: DuplicateCleanupReport) -> CleanupTally {
    CleanupTally {
        processed: r.processed_files as int,
        success: r.success_count as int,
        skipped: r.skipped_count as int,
        failed: r.failed_count as int,
        freed: r.freed_bytes as int,
        c_drive_freed: r.c_drive_freed_bytes as int,
        other_drive_freed: r.other_drive_freed_bytes as int,
    }
}

/// `t` with `processed`, `skipped` and `failed` added to those counters.
pub open spec fn add_counts(t: CleanupTally, processed: int, skipped: int, failed: int) -> CleanupTally {
    CleanupTally {
        processed: t.processed + processed,
        success: t.success,
        skipped: t.skipped + skipped,
        failed: t.failed + failed,
        freed: t.freed,
        c_drive_freed: t.c_drive_freed,
        other_drive_freed: t.other_drive_freed,
    }
}

/// `t` with the recycle bin's answer for a copy of `size` bytes counted: a
/// move that worked is a success that frees the bytes, on drive C when
/// `on_c_drive` and on another drive otherwise; a move that failed is a
/// failure.
pub open spec fn answer_tally(t: CleanupTally, size: int, on_c_drive: bool, moved: bool) -> CleanupTally {
    if moved {
        CleanupTally {
            processed: t.processed,
            success: t.success + 1,
            skipped: t.skipped,
            failed: t.failed,
            freed: t.freed + size,
            c_drive_freed: t.c_drive_freed + if on_c_drive {
                size
            } else {
                0
            },
            other_drive_freed: t.other_drive_freed + if on_c_drive {
                0
            } else {
                size
            },
        }
    } else {
        add_counts(t, 0, 0, 1)
    }
}

/// Counts the recycle bin's answer for a copy of `size_bytes` bytes at
/// `path` (see `answer_tally`).
pub fn record_recycle_answer(
    report: &mut DuplicateCleanupReport,
    path: &str,
    size_bytes: u64,
    answer: &Result<(), RecycleBinError>,
)
    requires
        old(report).success_count + 1 <= u64::MAX,
        old(report).failed_count + 1 <= u64::MAX,
        old(report).freed_bytes + size_bytes <= u64::MAX,
        old(report).c_drive_freed_bytes + size_bytes <= u64::MAX,
        old(report).other_drive_freed_bytes + size_bytes <= u64::MAX,
    ensures
        tally_of(*final(report)) == answer_tally(
            tally_of(*old(report)),
            size_bytes as int,
            is_c_drive_label(drive_label_of(path@)),
            answer is Ok,
        ),
{
    match answer {
        Ok(()) => {
            report.success_count = report.success_count + 1;
            report.freed_bytes = report.freed_bytes + size_bytes;
            if drive_is_c(drive_label(path).as_str()) {
                report.c_drive_freed_bytes = report.c_drive_freed_bytes + size_bytes;
            } else {
                report.other_drive_freed_bytes = report.other_drive_freed_bytes + size_bytes;
            }
        },
        Err(_) => {
            report.failed_count = report.failed_count + 1;
        },
    }
}

/// What the cleanup rules make of one selected copy of a group that keeps a
/// copy: a failure, a skip, or a move to the recycle bin.
pub enum CopyVerdict {
    Failed,
    Skipped,
    Recycled,
}

/// The path keys claimed by the first `k` selected copies: a copy that still
/// exists and is not also kept claims its path key unless an earlier copy
/// claimed it.
pub open spec fn keys_taken(
    sel: Seq<ResolvedCleanupEntry>,
    ret: Seq<ResolvedCleanupEntry>,
    obs: Seq<FileObservation>,
    k: int,
) -> Seq<Seq<char>>
    decreases k,
{
    if k <= 0 {
        Seq::empty()
    } else {
        let prev = keys_taken(sel, ret, obs, k - 1);
        let s = sel[k - 1];
        if obs[s.file_index as int].exists && !conflicts_with_retained(s.entry, ret) && !prev.contains(
            s.entry.path_key@,
        ) {
            prev.push(s.entry.path_key@)
        } else {
            prev
        }
    }
}

/// The verdict on selected copy `k`: a copy that is gone fails; one that is
/// also kept, or whose path an earlier copy claimed, is skipped; a protected
/// one is skipped unless overridden; one whose fingerprint could not be
/// taken fails; one without a kept twin is skipped; the rest are moved.
pub open spec fn copy_verdict(
    sel: Seq<ResolvedCleanupEntry>,
    ret: Seq<ResolvedCleanupEntry>,
    obs: Seq<FileObservation>,
    protected_paths: Seq<Seq<char>>,
    override_confirmed: bool,
    k: int,
) -> CopyVerdict {
    let s = sel[k];
    let o = obs[s.file_index as int];
    if !o.exists {
        CopyVerdict::Failed
    } else if conflicts_with_retained(s.entry, ret) || keys_taken(sel, ret, obs, k).contains(s.entry.path_key@) {
        CopyVerdict::Skipped
    } else if blocked_by_protection(s, protected_paths, override_confirmed) {
        CopyVerdict::Skipped
    } else {
        match o.fingerprint {
            None => CopyVerdict::Failed,
            Some(fp) => if has_matching_retained_copy(s, ret, obs, fp) {
                CopyVerdict::Recycled
            } else {
                CopyVerdict::Skipped
            },
        }
    }
}

/// The copies among the first `k` selected ones that are handed to the
/// recycle bin, in order.
pub open spec fn recycle_list(
    sel: Seq<ResolvedCleanupEntry>,
    ret: Seq<ResolvedCleanupEntry>,
    obs: Seq<FileObservation>,
    protected_paths: Seq<Seq<char>>,
    override_confirmed: bool,
    k: int,
) -> Seq<ResolvedCleanupEntry>
    decreases k,
{
    if k <= 0 {
        Seq::empty()
    } else {
        let prev = recycle_list(sel, ret, obs, protected_paths, override_confirmed, k - 1);
        if copy_verdict(sel, ret, obs, protected_paths, override_confirmed, k - 1) is Recycled {
            prev.push(sel[k - 1])
        } else {
            prev
        }
    }
}

/// The counters `t` once the selected file `s` is handled: one more
/// processed file, then one more failure or skip, or the recycle bin's
/// answer `moved` when the verdict is a move.
pub open spec fn copy_tally(
    t: CleanupTally,
    verdict: CopyVerdict,
    s: ResolvedCleanupEntry,
    obs: Seq<FileObservation>,
    moved: bool,
) -> CleanupTally {
    let t1 = add_counts(t, 1, 0, 0);
    match verdict {
        CopyVerdict::Failed => add_counts(t1, 0, 0, 1),
        CopyVerdict::Skipped => add_counts(t1, 0, 1, 0),
        CopyVerdict::Recycled => answer_tally(
            t1,
            observed_size(obs[s.file_index as int]),
            is_c_drive_label(drive_label_of(s.entry.path@)),
            moved,
        ),
    }
}

/// The counters after the first `k` selected copies of a group that keeps a
/// copy, where `moved[j]` is the recycle bin's answer to the `j`-th move.
pub open spec fn cleanup_tally(
    base: CleanupTally,
    sel: Seq<ResolvedCleanupEntry>,
    ret: Seq<ResolvedCleanupEntry>,
    obs: Seq<FileObservation>,
    protected_paths: Seq<Seq<char>>,
    override_confirmed: bool,
    moved: Seq<bool>,
    k: int,
) -> CleanupTally
    decreases k,
{
    if k <= 0 {
        base
    } else {
        copy_tally(
            cleanup_tally(base, sel, ret, obs, protected_paths, override_confirmed, moved, k - 1),
            copy_verdict(sel, ret, obs, protected_paths, override_confirmed, k - 1),
            sel[k - 1],
            obs,
            moved[recycle_list(sel, ret, obs, protected_paths, override_confirmed, k - 1).len() as int],
        )
    }
}

/// The counters after the files of a group that name no entry (failed) or
/// an entry of another group (skipped).
pub open spec fn group_base(start: CleanupTally, resolved: ResolvedGroup) -> CleanupTally {
    add_counts(start, 0, resolved.foreign_entries as int, resolved.unknown_entries as int)
}

/// A progress report shows the counters `t`.
pub open spec fn progress_shows(p: OperationProgressPayload, t: CleanupTally) -> bool {
    &&& p.processed_items == t.processed
    &&& p.success_count == t.success
    &&& p.skipped_count == t.skipped
    &&& p.failed_count == t.failed
    &&& p.found_bytes == t.freed
}

/// The progress reports of a group that started from the counters `start`:
/// none when nothing is selected; one with the group's final counters when
/// no copy is kept; otherwise one per selected copy handled, with the
/// counters after that copy.
pub open spec fn group_progress_counts(
    outcome: GroupCleanupOutcome,
    start: CleanupTally,
    obs: Seq<FileObservation>,
    protected_paths: Seq<Seq<char>>,
    override_confirmed: bool,
) -> bool {
    let resolved = outcome.resolved;
    let p = outcome.progress@;
    if resolved.selected@.len() == 0 {
        p.len() == 0
    } else if resolved.retained@.len() == 0 {
        p.len() == 1 && progress_shows(p[0], group_tally(start, outcome, obs, protected_paths, override_confirmed))
    } else {
        p.len() == outcome.handled && forall|q: int|
            0 <= q < p.len() ==> progress_shows(
                #[trigger] p[q],
                cleanup_tally(
                    group_base(start, resolved),
                    resolved.selected@,
                    resolved.retained@,
                    obs,
                    protected_paths,
                    override_confirmed,
                    outcome.moved@,
                    q + 1,
                ),
            )
    }
}

/// The counters after a whole group: files naming no entry fail, files
/// naming an entry of another group are skipped; a group without a copy to
/// keep skips every selected copy; otherwise each selected copy counts by
/// its verdict (see `cleanup_tally`).
pub open spec fn group_tally(
    start: CleanupTally,
    outcome: GroupCleanupOutcome,
    obs: Seq<FileObservation>,
    protected_paths: Seq<Seq<char>>,
    override_confirmed: bool,
) -> CleanupTally {
    let resolved = outcome.resolved;
    let base = group_base(start, resolved);
    if resolved.selected@.len() == 0 {
        base
    } else if resolved.retained@.len() == 0 {
        add_counts(base, 0, resolved.selected@.len() as int, 0)
    } else {
        let t = cleanup_tally(
            base,
            resolved.selected@,
            resolved.retained@,
            obs,
            protected_paths,
            override_confirmed,
            outcome.moved@,
            outcome.handled as int,
        );
        if outcome.stopped_before_move {
            add_counts(t, 1, 0, 0)
        } else {
            t
        }
    }
}

/// The copies of a group that are handed to the recycle bin, in order.
pub open spec fn group_requests(
    outcome: GroupCleanupOutcome,
    obs: Seq<FileObservation>,
    protected_paths: Seq<Seq<char>>,
    override_confirmed: bool,
) -> Seq<ResolvedCleanupEntry> {
    recycle_list(
        outcome.resolved.selected@,
        outcome.resolved.retained@,
        obs,
        protected_paths,
        override_confirmed,
        outcome.handled as int,
    )
}

/// Where a group stopped: a group runs to its end unless cancelled; a
/// cancellation is seen before a selected copy (those before it being
/// handled) or just before a copy would be moved; a group without a copy to
/// keep is never stopped.
pub open spec fn group_stop(
    outcome: GroupCleanupOutcome,
    obs: Seq<FileObservation>,
    protected_paths: Seq<Seq<char>>,
    override_confirmed: bool,
) -> bool {
    let sel = outcome.resolved.selected@;
    let ret = outcome.resolved.retained@;
    &&& outcome.handled <= sel.len()
    &&& !outcome.stopped ==> outcome.handled == sel.len() && !outcome.stopped_before_move
    &&& (sel.len() == 0 || ret.len() == 0) ==> !outcome.stopped
    &&& outcome.stopped_before_move ==> outcome.stopped && outcome.handled < sel.len() && copy_verdict(
        sel,
        ret,
        obs,
        protected_paths,
        override_confirmed,
        outcome.handled as int,
    ) is Recycled
}

/// Number of outcomes (successes, skips, failures) a group accounts for:
/// every file naming no entry or an entry of another group, and every
/// selected copy it handled.
pub open spec fn group_units(outcome: GroupCleanupOutcome) -> int {
    outcome.resolved.unknown_entries + outcome.resolved.foreign_entries + if outcome.resolved.retained@.len() == 0 {
        outcome.resolved.selected@.len() as int
    } else {
        outcome.handled as int
    }
}

/// The views of a list of path keys.
pub open spec fn key_views(keys: Seq<Vec<char>>) -> Seq<Seq<char>> {
    Seq::new(keys.len(), |i: int| keys[i]@)
}

proof fn lemma_tally_uses_answers_so_far(
    base: CleanupTally,
    sel: Seq<ResolvedCleanupEntry>,
    ret: Seq<ResolvedCleanupEntry>,
    obs: Seq<FileObservation>,
    protected_paths: Seq<Seq<char>>,
    override_confirmed: bool,
    m1: Seq<bool>,
    m2: Seq<bool>,
    k: int,
)
    requires
        0 <= k,
        recycle_list(sel, ret, obs, protected_paths, override_confirmed, k).len() <= m1.len() <= m2.len(),
        forall|i: int| 0 <= i < m1.len() ==> m1[i] == m2[i],
    ensures
        cleanup_tally(base, sel, ret, obs, protected_paths, override_confirmed, m1, k) == cleanup_tally(
            base,
            sel,
            ret,
            obs,
            protected_paths,
            override_confirmed,
            m2,
            k,
        ),
    decreases k,
{
    if k > 0 {
        lemma_tally_uses_answers_so_far(base, sel, ret, obs, protected_paths, override_confirmed, m1, m2, k - 1);
    }
}

proof fn lemma_recycle_list_len_monotone(
    sel: Seq<ResolvedCleanupEntry>,
    ret: Seq<ResolvedCleanupEntry>,
    obs: Seq<FileObservation>,
    protected_paths: Seq<Seq<char>>,
    override_confirmed: bool,
    a: int,
    b: int,
)
    requires
        0 <= a <= b,
    ensures
        recycle_list(sel, ret, obs, protected_paths, override_confirmed, a).len() <= recycle_list(
            sel,
            ret,
            obs,
            protected_paths,
            override_confirmed,
            b,
        ).len(),
    decreases b - a,
{
    if a < b {
        lemma_recycle_list_len_monotone(sel, ret, obs, protected_paths, override_confirmed, a, b - 1);
    }
}

proof fn lemma_recycled_may_recycle(
    sel: Seq<ResolvedCleanupEntry>,
    ret: Seq<ResolvedCleanupEntry>,
    obs: Seq<FileObservation>,
    protected_paths: Seq<Seq<char>>,
    override_confirmed: bool,
    k: int,
)
    requires
        copy_verdict(sel, ret, obs, protected_paths, override_confirmed, k) is Recycled,
    ensures
        may_recycle(sel[k], ret, obs, protected_paths, override_confirmed),
{
}

/// Cleans selected copy `k` of a group that keeps a copy: decides its
/// verdict, hands it to the recycle bin when the verdict says so, and
/// counts it. A cancellation seen just before the move stops it there, the
/// copy then counting as processed only; the result says whether it did.
#[verifier::rlimit(40)]
fn clean_selected_copy<R: RecycleBin>(
    resolved: &ResolvedGroup,
    k: usize,
    recycle_bin: &R,
    protected_paths: &Vec<String>,
    protected_override_confirmed: bool,
    observations: &Vec<FileObservation>,
    report: &mut DuplicateCleanupReport,
    selected_keys: &mut Vec<Vec<char>>,
    recycle_requests: &mut Vec<ResolvedCleanupEntry>,
    moved: &mut Vec<bool>,
    progress: &mut Vec<OperationProgressPayload>,
    total_selected: u64,
    operation_id: &str,
    cancelled: Option<&AtomicBool>,
) -> (stopped: bool)
    requires
        k < resolved.selected@.len(),
        forall|q: int|
            0 <= q < resolved.selected@.len() ==> (#[trigger] resolved.selected@[q]).file_index
                < observations@.len(),
        forall|q: int|
            0 <= q < resolved.retained@.len() ==> (#[trigger] resolved.retained@[q]).file_index
                < observations@.len(),
        key_views(old(selected_keys)@) == keys_taken(resolved.selected@, resolved.retained@, observations@, k as int),
        old(report).processed_files + 1 <= u64::MAX,
        outcome_count(*old(report)) + 1 <= u64::MAX,
        old(report).freed_bytes + observed_size(observations@[resolved.selected@[k as int].file_index as int])
            <= u64::MAX,
        old(report).c_drive_freed_bytes + observed_size(
            observations@[resolved.selected@[k as int].file_index as int],
        ) <= u64::MAX,
        old(report).other_drive_freed_bytes + observed_size(
            observations@[resolved.selected@[k as int].file_index as int],
        ) <= u64::MAX,
    ensures
        key_views(final(selected_keys)@) == keys_taken(
            resolved.selected@,
            resolved.retained@,
            observations@,
            k + 1,
        ),
        cancelled is None ==> !stopped,
        ({
            let v = copy_verdict(
                resolved.selected@,
                resolved.retained@,
                observations@,
                views(protected_paths@),
                protected_override_confirmed,
                k as int,
            );
            if stopped {
                &&& v is Recycled
                &&& final(recycle_requests)@ == old(recycle_requests)@
                &&& final(moved)@ == old(moved)@
                &&& final(progress)@ == old(progress)@
                &&& tally_of(*final(report)) == add_counts(tally_of(*old(report)), 1, 0, 0)
            } else {
                &&& final(recycle_requests)@ == if v is Recycled {
                    old(recycle_requests)@.push(resolved.selected@[k as int])
                } else {
                    old(recycle_requests)@
                }
                &&& final(moved)@.len() == old(moved)@.len() + if v is Recycled {
                    1int
                } else {
                    0
                }
                &&& forall|i: int| 0 <= i < old(moved)@.len() ==> final(moved)@[i] == old(moved)@[i]
                &&& tally_of(*final(report)) == copy_tally(
                    tally_of(*old(report)),
                    v,
                    resolved.selected@[k as int],
                    observations@,
                    final(moved)@[old(moved)@.len() as int],
                )
                &&& final(progress)@.len() == old(progress)@.len() + 1
                &&& forall|i: int| 0 <= i < old(progress)@.len() ==> final(progress)@[i] == old(progress)@[i]
                &&& is_cleanup_progress(
                    final(progress)@.last(),
                    operation_id@,
                    *final(report),
                    total_selected,
                    duplicate_location_hint(resolved.selected@[k as int].entry.path@),
                )
            }
        }),
{
    let ghost sel = resolved.selected@;
    let ghost ret = resolved.retained@;
    let ghost obs = observations@;
    let ghost prot = views(protected_paths@);
    let ghost taken = keys_taken(sel, ret, obs, k as int);
    let ghost old_moved = moved@;
    let s = &resolved.selected[k];
    report.processed_files = report.processed_files + 1;
    let path = s.entry.path.as_str();
    let observation = &observations[s.file_index];
    if !observation.exists {
        report.failed_count = report.failed_count + 1;
        progress.push(cleanup_progress(operation_id, report, total_selected, path));
        return false;
    }
    let key = to_chars(s.entry.path_key.as_str());
    let conflict = conflicts_with_retained_exec(&s.entry, &resolved.retained);
    let claimed = keys_contain(selected_keys, &key);
    proof {
        if claimed {
            let j = choose|j: int| 0 <= j < selected_keys@.len() && (#[trigger] selected_keys@[j])@ == key@;
            assert(key_views(selected_keys@)[j] == key@);
        }
        if taken.contains(key@) {
            let j = choose|j: int| 0 <= j < taken.len() && taken[j] == key@;
            assert(selected_keys@[j]@ == key_views(selected_keys@)[j]);
        }
        assert(claimed == taken.contains(s.entry.path_key@));
    }
    if conflict || claimed {
        report.skipped_count = report.skipped_count + 1;
        progress.push(cleanup_progress(operation_id, report, total_selected, path));
        return false;
    }
    let ghost keys_before = selected_keys@;
    selected_keys.push(key);
    proof {
        assert(key_views(selected_keys@) =~= key_views(keys_before).push(s.entry.path_key@));
    }
    if (s.request_protected || s.entry.protected || is_protected_duplicate_path(path, protected_paths))
        && !protected_override_confirmed {
        report.skipped_count = report.skipped_count + 1;
        progress.push(cleanup_progress(operation_id, report, total_selected, path));
        return false;
    }
    let fp = match &observation.fingerprint {
        Some(fp) => fp,
        None => {
            report.failed_count = report.failed_count + 1;
            progress.push(cleanup_progress(operation_id, report, total_selected, path));
            return false;
        },
    };
    if !matching_retained_copy_exists(s, &resolved.retained, observations, fp) {
        report.skipped_count = report.skipped_count + 1;
        progress.push(cleanup_progress(operation_id, report, total_selected, path));
        return false;
    }
    if cancellation_requested(cancelled) {
        return true;
    }
    recycle_requests.push(
        ResolvedCleanupEntry {
            entry: copy_backend_entry(&s.entry),
            request_protected: s.request_protected,
            file_index: s.file_index,
        },
    );
    let answer = recycle_bin.move_to_recycle_bin(path);
    moved.push(answer.is_ok());
    record_recycle_answer(report, path, fp.size_bytes, &answer);
    progress.push(cleanup_progress(operation_id, report, total_selected, path));
    false
}

/// Cleans one group of a duplicate cleanup request.
///
/// The group is first resolved against the registry; files naming no entry
/// count as failed and files naming an entry of another group as skipped. A
/// group without a copy to keep skips every selected copy. Otherwise each
/// selected copy counts by its verdict (see `copy_verdict`), and the copies
/// whose verdict is a move are handed to the recycle bin in order, the bin's
/// answers being returned in `moved`. A cancellation, read before each
/// selected copy and just before each move, stops the group there (see
/// `group_stop`). `observations[i]` is what was seen of the file behind
/// `group.files[i]`. The progress reports are returned in order.
#[verifier::spinoff_prover]
#[verifier::rlimit(100)]
pub fn cleanup_duplicate_group<R: RecycleBin>(
    group: &DuplicateCleanupGroupRequest,
    registry: &DuplicateEntryRegistry,
    recycle_bin: &R,
    protected_paths: &Vec<String>,
    protected_override_confirmed: bool,
    observations: &Vec<FileObservation>,
    report: &mut DuplicateCleanupReport,
    total_selected: u64,
    operation_id: &str,
    cancelled: Option<&AtomicBool>,
) -> (outcome: GroupCleanupOutcome)
    requires
        observations@.len() == group.files@.len(),
        old(report).processed_files + group.files@.len() <= u64::MAX,
        outcome_count(*old(report)) + group.files@.len() <= u64::MAX,
        old(report).freed_bytes + observed_bytes(observations@, observations@.len() as int)
            <= u64::MAX,
        old(report).c_drive_freed_bytes + observed_bytes(observations@, observations@.len() as int)
            <= u64::MAX,
        old(report).other_drive_freed_bytes + observed_bytes(
            observations@,
            observations@.len() as int,
        ) <= u64::MAX,
    ensures
        resolved_well(*group, registry@, outcome.resolved),
        group_stop(outcome, observations@, views(protected_paths@), protected_override_confirmed),
        cancelled is None ==> !outcome.stopped,
        outcome.recycle_requests@ == group_requests(
            outcome,
            observations@,
            views(protected_paths@),
            protected_override_confirmed,
        ),
        outcome.moved@.len() == outcome.recycle_requests@.len(),
        tally_of(*final(report)) == group_tally(
            tally_of(*old(report)),
            outcome,
            observations@,
            views(protected_paths@),
            protected_override_confirmed,
        ),
        group_progress_counts(
            outcome,
            tally_of(*old(report)),
            observations@,
            views(protected_paths@),
            protected_override_confirmed,
        ),
        forall|k: int|
            0 <= k < outcome.recycle_requests@.len() ==> may_recycle(
                #[trigger] outcome.recycle_requests@[k],
                outcome.resolved.retained@,
                observations@,
                views(protected_paths@),
                protected_override_confirmed,
            ) && outcome.resolved.selected@.contains(outcome.recycle_requests@[k]),
        outcome_count(*final(report)) == outcome_count(*old(report)) + group_units(outcome),
        final(report).processed_files <= old(report).processed_files + outcome.resolved.selected@.len(),
        final(report).success_count <= old(report).success_count + outcome.recycle_requests@.len(),
        final(report).freed_bytes - old(report).freed_bytes == (final(report).c_drive_freed_bytes
            - old(report).c_drive_freed_bytes) + (final(report).other_drive_freed_bytes
            - old(report).other_drive_freed_bytes),
        final(report).freed_bytes >= old(report).freed_bytes,
        final(report).c_drive_freed_bytes >= old(report).c_drive_freed_bytes,
        final(report).other_drive_freed_bytes >= old(report).other_drive_freed_bytes,
        final(report).freed_bytes - old(report).freed_bytes <= observed_bytes(observations@, observations@.len() as int),
        outcome.resolved.selected@.len() + outcome.resolved.retained@.len() + outcome.resolved.unknown_entries
            + outcome.resolved.foreign_entries <= group.files@.len(),
        forall|k: int|
            0 <= k < outcome.progress@.len() ==> group_progress(
                #[trigger] outcome.progress@[k],
                operation_id@,
                outcome.resolved,
            ),
{
    proof {
        lemma_observed_bytes_nonneg(observations@, observations@.len() as int);
    }
    let resolved = resolve_cleanup_group(group, registry);
    report.failed_count = report.failed_count + resolved.unknown_entries;
    report.skipped_count = report.skipped_count + resolved.foreign_entries;
    let mut progress: Vec<OperationProgressPayload> = Vec::new();
    let mut recycle_requests: Vec<ResolvedCleanupEntry> = Vec::new();
    let mut moved: Vec<bool> = Vec::new();
    let ghost sel = resolved.selected@;
    let ghost ret = resolved.retained@;
    let ghost obs = observations@;
    let ghost prot = views(protected_paths@);
    let ghost ov = protected_override_confirmed;
    proof {
        assert(resolved.selected@.len() + resolved.unknown_entries + resolved.foreign_entries <= group.files@.len());
    }
    if resolved.selected.len() == 0 {
        return GroupCleanupOutcome {
            resolved,
            recycle_requests,
            moved,
            progress,
            handled: 0,
            stopped: false,
            stopped_before_move: false,
        };
    }
    if resolved.retained.len() == 0 {
        proof {
            lemma_nothing_recycled_without_kept_copy(sel, ret, obs, prot, ov, sel.len() as int);
        }
        report.skipped_count = report.skipped_count + resolved.selected.len() as u64;
        progress.push(cleanup_progress(operation_id, report, total_selected, resolved.selected[0].entry.path.as_str()));
        let handled = resolved.selected.len();
        return GroupCleanupOutcome {
            resolved,
            recycle_requests,
            moved,
            progress,
            handled,
            stopped: false,
            stopped_before_move: false,
        };
    }
    let ghost old_report = *old(report);
    let ghost base = tally_of(*report);
    let ghost total_obs = observed_bytes(obs, obs.len() as int);
    let ghost base_count = outcome_count(old_report) + resolved.unknown_entries + resolved.foreign_entries;
    let mut selected_keys: Vec<Vec<char>> = Vec::new();
    proof {
        assert(key_views(selected_keys@) =~= Seq::<Seq<char>>::empty());
    }
    let n = resolved.selected.len();
    let mut k: usize = 0;
    let mut stopped = false;
    let mut stopped_before_move = false;
    while k < n && !stopped
        invariant
            n == sel.len(),
            sel == resolved.selected@,
            ret == resolved.retained@,
            prot == views(protected_paths@),
            ov == protected_override_confirmed,
            k <= n,
            cancelled is None ==> !stopped,
            stopped_before_move ==> stopped && k < n && copy_verdict(sel, ret, obs, prot, ov, k as int) is Recycled,
            resolved_well(*group, registry@, resolved),
            resolved.retained@.len() > 0,
            obs == observations@,
            obs.len() == group.files@.len(),
            total_obs == observed_bytes(obs, obs.len() as int),
            resolved.selected@.len() + resolved.unknown_entries + resolved.foreign_entries <= group.files@.len(),
            old_report.processed_files + group.files@.len() <= u64::MAX,
            base_count == outcome_count(old_report) + resolved.unknown_entries + resolved.foreign_entries,
            base_count + n <= u64::MAX,
            base == add_counts(tally_of(old_report), 0, resolved.foreign_entries as int, resolved.unknown_entries as int),
            old_report.freed_bytes + total_obs <= u64::MAX,
            old_report.c_drive_freed_bytes + total_obs <= u64::MAX,
            old_report.other_drive_freed_bytes + total_obs <= u64::MAX,
            report.processed_files == old_report.processed_files + k + if stopped_before_move {
                1int
            } else {
                0
            },
            outcome_count(*report) == base_count + k,
            tally_of(*report) == if stopped_before_move {
                add_counts(cleanup_tally(base, sel, ret, obs, prot, ov, moved@, k as int), 1, 0, 0)
            } else {
                cleanup_tally(base, sel, ret, obs, prot, ov, moved@, k as int)
            },
            !stopped ==> key_views(selected_keys@) == keys_taken(sel, ret, obs, k as int),
            recycle_requests@ == recycle_list(sel, ret, obs, prot, ov, k as int),
            moved@.len() == recycle_requests@.len(),
            progress@.len() == k,
            forall|q: int|
                0 <= q < k ==> progress_shows(
                    #[trigger] progress@[q],
                    cleanup_tally(base, sel, ret, obs, prot, ov, moved@, q + 1),
                ),
            report.success_count <= old_report.success_count + recycle_requests@.len(),
            report.freed_bytes >= old_report.freed_bytes,
            report.c_drive_freed_bytes >= old_report.c_drive_freed_bytes,
            report.other_drive_freed_bytes >= old_report.other_drive_freed_bytes,
            report.freed_bytes - old_report.freed_bytes == (report.c_drive_freed_bytes
                - old_report.c_drive_freed_bytes) + (report.other_drive_freed_bytes
                - old_report.other_drive_freed_bytes),
            report.freed_bytes - old_report.freed_bytes <= observed_bytes(
                obs,
                if k == 0 {
                    0
                } else {
                    resolved.selected@[k - 1].file_index + 1
                },
            ),
            forall|q: int|
                0 <= q < recycle_requests@.len() ==> may_recycle(
                    #[trigger] recycle_requests@[q],
                    resolved.retained@,
                    obs,
                    views(protected_paths@),
                    protected_override_confirmed,
                ) && resolved.selected@.contains(recycle_requests@[q]),
            forall|q: int| 0 <= q < progress@.len() ==> group_progress(#[trigger] progress@[q], operation_id@, resolved),
        decreases n - k + if stopped {
            0int
        } else {
            1
        },
    {
        if cancellation_requested(cancelled) {
            stopped = true;
        } else {
            let ghost budget_before = if k == 0 {
                0
            } else {
                resolved.selected@[k - 1].file_index + 1
            };
            let ghost fi = sel[k as int].file_index as int;
            assert(fi < obs.len() && budget_before <= fi && observed_bytes(obs, budget_before) + observed_size(obs[fi])
                <= observed_bytes(obs, fi + 1) && observed_bytes(obs, fi + 1) <= observed_bytes(obs, obs.len() as int)) by {
                assert(resolves_file(*group, registry@, resolved.selected@[k as int]));
                if k > 0 {
                    assert(resolved.selected@[k - 1].file_index < resolved.selected@[k as int].file_index);
                }
                lemma_observed_bytes_monotone(obs, budget_before, fi);
                lemma_observed_bytes_monotone(obs, fi + 1, obs.len() as int);
                assert(observed_bytes(obs, fi + 1) == observed_bytes(obs, fi) + observed_size(obs[fi]));
            }
            assert(forall|q: int| 0 <= q < resolved.retained@.len() ==> (#[trigger] resolved.retained@[q]).file_index < obs.len()) by {
                assert(forall|q: int| 0 <= q < resolved.retained@.len() ==> resolves_file(*group, registry@, #[trigger] resolved.retained@[q]));
            }
            assert(forall|q: int| 0 <= q < resolved.selected@.len() ==> (#[trigger] resolved.selected@[q]).file_index < obs.len()) by {
                assert(forall|q: int| 0 <= q < resolved.selected@.len() ==> resolves_file(*group, registry@, #[trigger] resolved.selected@[q]));
            }
            let ghost moved_before = moved@;
            let ghost requests_before = recycle_requests@;
            let ghost progress_before = progress@;
            let stop_at_move = clean_selected_copy(
                &resolved,
                k,
                recycle_bin,
                protected_paths,
                protected_override_confirmed,
                observations,
                report,
                &mut selected_keys,
                &mut recycle_requests,
                &mut moved,
                &mut progress,
                total_selected,
                operation_id,
                cancelled,
            );
            if stop_at_move {
                stopped = true;
                stopped_before_move = true;
            } else {
                proof {
                    assert(cleanup_tally(base, sel, ret, obs, prot, ov, moved_before, k as int) == cleanup_tally(
                        base,
                        sel,
                        ret,
                        obs,
                        prot,
                        ov,
                        moved@,
                        k as int,
                    )) by {
                        lemma_tally_uses_answers_so_far(base, sel, ret, obs, prot, ov, moved_before, moved@, k as int);
                    }
                    assert forall|q: int|
                        0 <= q < recycle_requests@.len() implies may_recycle(
                            #[trigger] recycle_requests@[q],
                            resolved.retained@,
                            obs,
                            views(protected_paths@),
                            protected_override_confirmed,
                        ) && resolved.selected@.contains(recycle_requests@[q]) by {
                        if q < requests_before.len() {
                            assert(recycle_requests@[q] == requests_before[q]);
                        } else {
                            lemma_recycled_may_recycle(sel, ret, obs, prot, ov, k as int);
                            assert(recycle_requests@[q] == sel[k as int]);
                            assert(resolved.selected@.contains(resolved.selected@[k as int]));
                        }
                    }
                    assert forall|q: int| 0 <= q < k + 1 implies progress_shows(
                        #[trigger] progress@[q],
                        cleanup_tally(base, sel, ret, obs, prot, ov, moved@, q + 1),
                    ) by {
                        if q < k {
                            assert(progress@[q] == progress_before[q]);
                            lemma_recycle_list_len_monotone(sel, ret, obs, prot, ov, q + 1, k as int);
                            lemma_tally_uses_answers_so_far(base, sel, ret, obs, prot, ov, moved_before, moved@, q + 1);
                        } else {
                            assert(progress@[q] == progress@.last());
                        }
                    }
                    assert forall|q: int| 0 <= q < progress@.len() implies group_progress(#[trigger] progress@[q], operation_id@, resolved) by {
                        if q < progress_before.len() {
                            assert(progress@[q] == progress_before[q]);
                        } else {
                            assert(progress@[q] == progress@.last());
                            assert(resolved.selected@[k as int] == sel[k as int]);
                        }
                    }
                }
                k += 1;
            }
        }
    }
    proof {
        if k > 0 {
            assert(resolves_file(*group, registry@, resolved.selected@[k - 1]));
            lemma_observed_bytes_monotone(obs, resolved.selected@[k - 1].file_index + 1, obs.len() as int);
        }
    }
    GroupCleanupOutcome {
        resolved,
        recycle_requests,
        moved,
        progress,
        handled: k,
        stopped,
        stopped_before_move,
    }
}

proof fn lemma_nothing_recycled_without_kept_copy(
    sel: Seq<ResolvedCleanupEntry>,
    ret: Seq<ResolvedCleanupEntry>,
    obs: Seq<FileObservation>,
    protected_paths: Seq<Seq<char>>,
    override_confirmed: bool,
    k: int,
)
    requires
        ret.len() == 0,
    ensures
        recycle_list(sel, ret, obs, protected_paths, override_confirmed, k).len() == 0,
    decreases k,
{
    if k > 0 {
        lemma_nothing_recycled_without_kept_copy(sel, ret, obs, protected_paths, override_confirmed, k - 1);
    }
}

proof fn lemma_requests_claim_distinct_keys(
    sel: Seq<ResolvedCleanupEntry>,
    ret: Seq<ResolvedCleanupEntry>,
    obs: Seq<FileObservation>,
    protected_paths: Seq<Seq<char>>,
    override_confirmed: bool,
    k: int,
)
    requires
        0 <= k <= sel.len(),
    ensures
        forall|q: int|
            0 <= q < recycle_list(sel, ret, obs, protected_paths, override_confirmed, k).len() ==> keys_taken(
                sel,
                ret,
                obs,
                k,
            ).contains(
                (#[trigger] recycle_list(sel, ret, obs, protected_paths, override_confirmed, k)[q]).entry.path_key@,
            ),
        forall|a: int, b: int|
            0 <= a < b < recycle_list(sel, ret, obs, protected_paths, override_confirmed, k).len() ==> (
            #[trigger] recycle_list(sel, ret, obs, protected_paths, override_confirmed, k)[a]).entry.path_key@
                != (#[trigger] recycle_list(sel, ret, obs, protected_paths, override_confirmed, k)[b]).entry.path_key@,
    decreases k,
{
    if k > 0 {
        lemma_requests_claim_distinct_keys(sel, ret, obs, protected_paths, override_confirmed, k - 1);
        let prev = recycle_list(sel, ret, obs, protected_paths, override_confirmed, k - 1);
        let cur = recycle_list(sel, ret, obs, protected_paths, override_confirmed, k);
        let taken_prev = keys_taken(sel, ret, obs, k - 1);
        let taken = keys_taken(sel, ret, obs, k);
        assert forall|x: Seq<char>| taken_prev.contains(x) implies taken.contains(x) by {
            let j = choose|j: int| 0 <= j < taken_prev.len() && taken_prev[j] == x;
            assert(taken[j] == x);
        }
        if copy_verdict(sel, ret, obs, protected_paths, override_confirmed, k - 1) is Recycled {
            let key = sel[k - 1].entry.path_key@;
            assert(taken == taken_prev.push(key));
            assert(taken[taken_prev.len() as int] == key);
            assert forall|q: int| 0 <= q < cur.len() implies taken.contains((#[trigger] cur[q]).entry.path_key@) by {
                if q < prev.len() {
                    assert(cur[q] == prev[q]);
                    assert(taken_prev.contains(prev[q].entry.path_key@));
                }
            }
            assert forall|a: int, b: int| 0 <= a < b < cur.len() implies (#[trigger] cur[a]).entry.path_key@
                != (#[trigger] cur[b]).entry.path_key@ by {
                assert(cur[a] == prev[a]);
                if b < prev.len() {
                    assert(cur[b] == prev[b]);
                } else {
                    assert(taken_prev.contains(prev[a].entry.path_key@));
                }
            }
        } else {
            assert forall|q: int| 0 <= q < cur.len() implies taken.contains((#[trigger] cur[q]).entry.path_key@) by {
                assert(taken_prev.contains(prev[q].entry.path_key@));
            }
        }
    }
}

/// Within a group, no path is handed to the recycle bin twice: the copies a
/// cleanup hands over have distinct path keys.
pub proof fn law_each_path_handed_over_once(
    outcome: GroupCleanupOutcome,
    obs: Seq<FileObservation>,
    protected_paths: Seq<Seq<char>>,
    override_confirmed: bool,
    a: int,
    b: int,
)
    requires
        outcome.handled <= outcome.resolved.selected@.len(),
        0 <= a < b < group_requests(outcome, obs, protected_paths, override_confirmed).len(),
    ensures
        group_requests(outcome, obs, protected_paths, override_confirmed)[a].entry.path_key@ != group_requests(
            outcome,
            obs,
            protected_paths,
            override_confirmed,
        )[b].entry.path_key@,
{
    lemma_requests_claim_distinct_keys(
        outcome.resolved.selected@,
        outcome.resolved.retained@,
        obs,
        protected_paths,
        override_confirmed,
        outcome.handled as int,
    );
}

} // verus!
