//! The anonymous event sent after a cleanup: a size bucket and coarse
//! categories, never a path or a user name.
use vstd::prelude::*;

use crate::text::{chars_eq, string_of, to_chars};
use crate::v2::path_safety::views;

verus! {

/// A coarse range of freed space.
#[derive(Debug, Clone, Copy, PartialEq, Eq, Structural)]
pub enum SpaceBucket {
    ZeroToOneGb,
    OneToFiveGb,
    FiveGbPlus,
}

/// The event sent after a cleanup.
#[derive(Debug, Clone, PartialEq, Eq)]
pub struct AnalyticsEvent {
    pub app_version: String,
    pub event_name: String,
    pub freed_space_bucket: SpaceBucket,
    pub categories: Vec<String>,
}

/// The bucket of a number of bytes (1 GB is 1024^3 bytes).
pub open spec fn bucket_of(bytes: u64) -> SpaceBucket {
    if bytes < 1073741824 {
        SpaceBucket::ZeroToOneGb
    } else if bytes < 5368709120 {
        SpaceBucket::OneToFiveGb
    } else {
        SpaceBucket::FiveGbPlus
    }
}

/// The bucket of a number of bytes (see `bucket_of`).
pub fn bucket_for_bytes(bytes: u64) -> (r: SpaceBucket)
    ensures
        r == bucket_of(bytes),
{
    let one_gb: u64 = 1073741824;
    if bytes < one_gb {
        SpaceBucket::ZeroToOneGb
    } else if bytes < one_gb * 5 {
        SpaceBucket::OneToFiveGb
    } else {
        SpaceBucket::FiveGbPlus
    }
}

/// The categories an event may name.
pub open spec fn known_categories() -> Seq<Seq<char>> {
    seq!["system"@, "wechat"@, "qq"@, "workChat"@, "cloudDrive"@, "installersOldVersions"@, "commonSoftware"@]
}

/// A known category is kept; anything else becomes `other`.
pub open spec fn sanitized_category(input: Seq<char>) -> Seq<char> {
    if known_categories().contains(input) {
        input
    } else {
        "other"@
    }
}

/// A known category, or `other` (see `sanitized_category`).
pub fn sanitize_category(input: String) -> (r: String)
    ensures
        r@ == sanitized_category(input@),
{
    let known = ["system", "wechat", "qq", "workChat", "cloudDrive", "installersOldVersions", "commonSoftware"];
    let chars = to_chars(input.as_str());
    let mut k: usize = 0;
    while k < 7
        invariant
            k <= 7,
            chars@ == input@,
            forall|j: int| 0 <= j < 7 ==> (#[trigger] known@[j])@ == known_categories()[j],
            forall|j: int| 0 <= j < k ==> known_categories()[j] != input@,
        decreases 7 - k,
    {
        if chars_eq(&chars, &to_chars(known[k])) {
            proof {
                assert(known_categories()[k as int] == input@);
            }
            return input;
        }
        k += 1;
    }
    proof {
        if known_categories().contains(input@) {
            let j = choose|j: int| 0 <= j < 7 && known_categories()[j] == input@;
        }
    }
    string_of("other")
}

/// The event of a completed cleanup: the freed space as a bucket and each
/// category sanitized.
pub fn build_scan_analytics_event(app_version: &str, freed_bytes: u64, raw_categories: Vec<String>) -> (r: AnalyticsEvent)
    ensures
        r.app_version@ == app_version@,
        r.event_name@ == "cleanup_completed"@,
        r.freed_space_bucket == bucket_of(freed_bytes),
        views(r.categories@) == Seq::new(raw_categories@.len(), |k: int| sanitized_category(raw_categories@[k]@)),
{
    let mut categories: Vec<String> = Vec::new();
    let ghost given = raw_categories@;
    let mut k: usize = 0;
    while k < raw_categories.len()
        invariant
            k <= raw_categories@.len(),
            given == raw_categories@,
            categories@.len() == k,
            forall|j: int| 0 <= j < k ==> (#[trigger] categories@[j])@ == sanitized_category(given[j]@),
        decreases raw_categories@.len() - k,
    {
        categories.push(sanitize_category(raw_categories[k].clone()));
        k += 1;
    }
    assert(views(categories@) =~= Seq::new(given.len(), |j: int| sanitized_category(given[j]@)));
    AnalyticsEvent {
        app_version: string_of(app_version),
        event_name: string_of("cleanup_completed"),
        freed_space_bucket: bucket_for_bytes(freed_bytes),
        categories: categories,
    }
}

/// An event names only fixed category tokens: whatever text is given, the
/// category sent is one of the known categories or `other`, never the text
/// itself (so never a path, file name or user name).
pub proof fn law_event_categories_are_fixed_tokens(raw: Seq<char>)
    ensures
        known_categories().contains(sanitized_category(raw)) || sanitized_category(raw) == "other"@,
        !known_categories().contains(raw) ==> sanitized_category(raw) == "other"@,
{
}

} // verus!
