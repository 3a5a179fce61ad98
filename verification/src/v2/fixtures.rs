//! Sample duplicate groups for exercising the selection rules.
use vstd::prelude::*;

use crate::text::{concat_str, decimal, decimal_string, from_chars, string_of, to_chars, trim_end_by};
use crate::v2::models::{DuplicateFileEntry, DuplicateFileGroup, DuplicateRecommendedAction};

verus! {

/// The location shown for a sample copy: the drive letter without its
/// trailing colons, then "盘 · 文件夹".
pub open spec fn sample_location_hint(drive: Seq<char>) -> Seq<char> {
    trim_end_by(drive, |c: char| c == ':') + " 盘 · 文件夹"@
}

/// The sample copy made from `(drive, display name, modified at)` at
/// position `index`.
pub open spec fn is_sample_entry(e: DuplicateFileEntry, index: int, file: (&str, &str, &str)) -> bool {
    &&& e.entry_id@ == "entry-"@ + decimal(index as nat)
    &&& e.display_name@ == file.1@
    &&& e.drive@ == file.0@
    &&& e.visible_location_hint@ == sample_location_hint(file.0@)
    &&& e.size_bytes == 10
    &&& e.modified_at@ == file.2@
    &&& e.hash_fingerprint_id@ == "fixture-fingerprint"@
    &&& !e.selected
    &&& !e.protected
    &&& e.recommended_action == DuplicateRecommendedAction::ManualReview
}

/// The text without its trailing colons.
fn trim_trailing_colons(s: &str) -> (r: String)
    ensures
        r@ == trim_end_by(s@, |c: char| c == ':'),
{
    let v = to_chars(s);
    let n = v.len();
    let mut k: usize = 0;
    while k < n && v[n - 1 - k] == ':'
        invariant
            k <= n,
            n == v@.len(),
            forall|j: int| n - k <= j < n ==> (|c: char| c == ':')(#[trigger] v@[j]),
        decreases n - k,
    {
        k += 1;
    }
    proof {
        crate::text::lemma_trailing_count_is_pub(v@, |c: char| c == ':', k as int);
    }
    from_chars(&crate::text::slice_chars(&v, 0, n - k))
}

/// A strict duplicate group of sample copies, each of 10 bytes, none
/// selected or protected, all left for manual review.
pub fn duplicate_group_for_selection(files: Vec<(&str, &str, &str)>) -> (r: DuplicateFileGroup)
    requires
        files@.len() * 10 <= u64::MAX,
    ensures
        r.group_id@ == "fixture-group"@,
        r.strict_duplicate,
        r.total_bytes == files@.len() * 10,
        r.reclaimable_bytes == 0,
        r.recommended_selection_reason@ == Seq::<char>::empty(),
        r.files@.len() == files@.len(),
        forall|k: int| 0 <= k < files@.len() ==> is_sample_entry(#[trigger] r.files@[k], k, files@[k]),
{
    let mut entries: Vec<DuplicateFileEntry> = Vec::new();
    let mut total: u64 = 0;
    let mut index: usize = 0;
    while index < files.len()
        invariant
            index <= files@.len(),
            files@.len() * 10 <= u64::MAX,
            entries@.len() == index,
            total == index * 10,
            forall|k: int| 0 <= k < index ==> is_sample_entry(#[trigger] entries@[k], k, files@[k]),
        decreases files@.len() - index,
    {
        let (drive, display_name, modified_at) = files[index];
        let hint = concat_str(trim_trailing_colons(drive).as_str(), " 盘 · 文件夹");
        let entry = DuplicateFileEntry {
            entry_id: concat_str("entry-", decimal_string(index as u64).as_str()),
            display_name: string_of(display_name),
            drive: string_of(drive),
            visible_location_hint: hint,
            size_bytes: 10,
            modified_at: string_of(modified_at),
            hash_fingerprint_id: string_of("fixture-fingerprint"),
            selected: false,
            protected: false,
            recommended_action: DuplicateRecommendedAction::ManualReview,
        };
        entries.push(entry);
        total = total + 10;
        index += 1;
    }
    DuplicateFileGroup {
        group_id: string_of("fixture-group"),
        strict_duplicate: true,
        total_bytes: total,
        reclaimable_bytes: 0,
        files: entries,
        recommended_selection_reason: String::new(),
    }
}

} // verus!
