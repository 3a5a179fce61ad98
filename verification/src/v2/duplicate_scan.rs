//! Collecting duplicate candidates during a scan and grouping them into
//! strict and suspected duplicate groups.
use vstd::prelude::*;

use crate::text::{
    ascii_lower, char_is_ascii_alnum, chars_end_with, chars_eq, concat_str, ends_with, from_chars,
    is_ascii_alnum, lower_ascii, string_of, to_chars,
};
use crate::v2::duplicate::{
    duplicate_location_hint, progress_payload, visible_location_hint, DuplicateBackendEntry,
};
use crate::v2::models::{
    DuplicateFileGroup, DuplicateFileType, DuplicateScanRequest, OperationModule, OperationProgressPayload,
};
use crate::v2::path_safety::{
    drive_label, drive_label_of, file_name_chars, file_name_of, is_protected_duplicate_path,
    is_protected_path, path_key, path_key_chars, stem_chars, stem_of_name, views,
};
use crate::text::{is_whitespace, leading_count, lower_char, trailing_count, trim, trim_start_by};
use crate::v2::settings::{
    clean_extension, is_extension_separator, is_safe_extension_spec, law_custom_extensions_are_safe_and_distinct,
    sanitize_custom_extensions, sanitized_extensions, sanitized_prefix, split_tokens,
};

verus! {

/// A file that a duplicate scan kept as a candidate.
#[derive(Debug, Clone, PartialEq, Eq)]
pub struct CandidateFile {
    pub path: String,
    pub path_key: String,
    pub drive: String,
    pub visible_location_hint: String,
    pub size_bytes: u64,
    pub modified_at: String,
    pub protected: bool,
    pub normalized_stem: String,
}

/// The file stem of a path reduced to lower-case ASCII letters and digits,
/// used to find suspected duplicates.
pub open spec fn normalized_stem_of(path: Seq<char>) -> Seq<char> {
    match file_name_of(path) {
        Some(name) => ascii_lower(alnum_filter(stem_of_name(name))),
        None => Seq::empty(),
    }
}

/// The ASCII letters and digits of `s`, in order.
pub open spec fn alnum_filter(s: Seq<char>) -> Seq<char>
    decreases s.len(),
{
    if s.len() == 0 {
        Seq::empty()
    } else if is_ascii_alnum(s.last()) {
        alnum_filter(s.drop_last()).push(s.last())
    } else {
        alnum_filter(s.drop_last())
    }
}

proof fn lemma_alnum_filter_push(s: Seq<char>, c: char)
    ensures
        alnum_filter(s.push(c)) == if is_ascii_alnum(c) {
            alnum_filter(s).push(c)
        } else {
            alnum_filter(s)
        },
{
    assert(s.push(c).drop_last() =~= s);
    assert(s.push(c).last() == c);
}

fn alnum_only(v: &[char]) -> (r: Vec<char>)
    ensures
        r@ == alnum_filter(v@),
{
    let mut r: Vec<char> = Vec::new();
    let mut i: usize = 0;
    while i < v.len()
        invariant
            i <= v@.len(),
            r@ == alnum_filter(v@.take(i as int)),
        decreases v@.len() - i,
    {
        proof {
            assert(v@.take(i + 1) =~= v@.take(i as int).push(v@[i as int]));
            lemma_alnum_filter_push(v@.take(i as int), v@[i as int]);
        }
        if char_is_ascii_alnum(v[i]) {
            r.push(v[i]);
        }
        i += 1;
    }
    assert(v@.take(v@.len() as int) =~= v@);
    r
}

/// The normalized stem of a path (see `normalized_stem_of`).
pub fn normalized_stem(path: &str) -> (r: String)
    ensures
        r@ == normalized_stem_of(path@),
{
    match file_name_chars(&to_chars(path)) {
        Some(name) => {
            let stem = stem_chars(&name);
            from_chars(&lower_ascii(&alnum_only(&stem)))
        },
        None => String::new(),
    }
}

/// The candidate record of a scanned file; `canonical_path` is the same file
/// in canonical form and only decides the comparison key.
pub fn candidate_file(
    path: &str,
    canonical_path: &str,
    size_bytes: u64,
    modified_at: String,
    protected_paths: &Vec<String>,
) -> (r: CandidateFile)
    ensures
        r.path@ == path@,
        r.path_key@ == path_key(canonical_path@),
        r.drive@ == drive_label_of(path@),
        r.visible_location_hint@ == duplicate_location_hint(path@),
        r.size_bytes == size_bytes,
        r.modified_at == modified_at,
        r.protected == is_protected_path(path@, views(protected_paths@)),
        r.normalized_stem@ == normalized_stem_of(path@),
{
    CandidateFile {
        path: string_of(path),
        path_key: from_chars(&path_key_chars(&to_chars(canonical_path))),
        drive: drive_label(path),
        visible_location_hint: visible_location_hint(path),
        size_bytes: size_bytes,
        modified_at: modified_at,
        protected: is_protected_duplicate_path(path, protected_paths),
        normalized_stem: normalized_stem(path),
    }
}

/// The extensions that a file type stands for.
pub open spec fn builtin_extensions(t: DuplicateFileType) -> Seq<Seq<char>> {
    match t {
        DuplicateFileType::Image => seq!["bmp"@, "gif"@, "jpeg"@, "jpg"@, "png"@, "webp"@],
        DuplicateFileType::Document => seq![
            "csv"@,
            "doc"@,
            "docx"@,
            "json"@,
            "log"@,
            "pdf"@,
            "ppt"@,
            "pptx"@,
            "txt"@,
            "xls"@,
            "xlsx"@,
            "xml"@,
        ],
        DuplicateFileType::Audio => seq!["flac"@, "m4a"@, "mp3"@, "ogg"@, "wav"@, "wma"@],
        DuplicateFileType::Video => seq!["avi"@, "mkv"@, "mov"@, "mp4"@, "mpeg"@, "mpg"@, "wmv"@],
        DuplicateFileType::Archive => seq!["7z"@, "gz"@, "rar"@, "tar"@, "tgz"@, "zip"@],
        DuplicateFileType::Custom => Seq::empty(),
    }
}

fn strings_of(items: &[&str]) -> (r: Vec<String>)
    ensures
        r@.len() == items@.len(),
        forall|k: int| 0 <= k < items@.len() ==> (#[trigger] r@[k])@ == items@[k]@,
{
    let mut r: Vec<String> = Vec::new();
    let mut k: usize = 0;
    while k < items.len()
        invariant
            k <= items@.len(),
            r@.len() == k,
            forall|j: int| 0 <= j < k ==> (#[trigger] r@[j])@ == items@[j]@,
        decreases items@.len() - k,
    {
        r.push(string_of(items[k]));
        k += 1;
    }
    r
}

/// The extensions that a file type stands for.
pub fn extensions_for_file_type(file_type: DuplicateFileType) -> (r: Vec<String>)
    ensures
        views(r@) == builtin_extensions(file_type),
{
    let r = match file_type {
        DuplicateFileType::Image => strings_of(&["bmp", "gif", "jpeg", "jpg", "png", "webp"]),
        DuplicateFileType::Document => strings_of(
            &["csv", "doc", "docx", "json", "log", "pdf", "ppt", "pptx", "txt", "xls", "xlsx", "xml"],
        ),
        DuplicateFileType::Audio => strings_of(&["flac", "m4a", "mp3", "ogg", "wav", "wma"]),
        DuplicateFileType::Video => strings_of(&["avi", "mkv", "mov", "mp4", "mpeg", "mpg", "wmv"]),
        DuplicateFileType::Archive => strings_of(&["7z", "gz", "rar", "tar", "tgz", "zip"]),
        DuplicateFileType::Custom => Vec::new(),
    };
    assert(views(r@) =~= builtin_extensions(file_type));
    r
}

/// The texts joined with commas.
pub open spec fn join_with_commas(items: Seq<Seq<char>>) -> Seq<char>
    decreases items.len(),
{
    if items.len() == 0 {
        Seq::empty()
    } else if items.len() == 1 {
        items[0]
    } else {
        join_with_commas(items.drop_last()) + ","@ + items.last()
    }
}

fn join_commas(items: &Vec<String>) -> (r: String)
    ensures
        r@ == join_with_commas(views(items@)),
{
    let mut r = String::new();
    let mut k: usize = 0;
    while k < items.len()
        invariant
            k <= items@.len(),
            r@ == join_with_commas(views(items@).take(k as int)),
        decreases items@.len() - k,
    {
        proof {
            assert(views(items@).take(k + 1).drop_last() =~= views(items@).take(k as int));
            assert(views(items@).take(k + 1).last() == items@[k as int]@);
        }
        if k == 0 {
            r = string_of(items[k].as_str());
            proof {
                assert(views(items@).take(1) =~= seq![items@[0]@]);
            }
        } else {
            r = concat_str(r.as_str(), ",");
            r = concat_str(r.as_str(), items[k].as_str());
        }
        k += 1;
    }
    assert(views(items@).take(items@.len() as int) =~= views(items@));
    r
}

/// The extensions of the file types, one type after the other.
pub open spec fn builtin_concat(file_types: Seq<DuplicateFileType>) -> Seq<Seq<char>>
    decreases file_types.len(),
{
    if file_types.len() == 0 {
        Seq::empty()
    } else {
        builtin_concat(file_types.drop_last()) + builtin_extensions(file_types.last())
    }
}

/// The extensions a duplicate scan is limited to: those of the file types,
/// then the sanitized custom extensions (joined with commas).
pub open spec fn allowed_list(
    file_types: Seq<DuplicateFileType>,
    custom_extensions: Seq<Seq<char>>,
) -> Seq<Seq<char>> {
    builtin_concat(file_types) + sanitized_extensions(join_with_commas(custom_extensions))
}

/// The extensions a duplicate scan is limited to, or `None` (no limit) when
/// neither file types nor custom extensions were given.
pub fn allowed_extensions(
    file_types: &Vec<DuplicateFileType>,
    custom_extensions: &Vec<String>,
) -> (r: Option<Vec<String>>)
    ensures
        (file_types@.len() == 0 && custom_extensions@.len() == 0) ==> r is None,
        !(file_types@.len() == 0 && custom_extensions@.len() == 0) ==> (r matches Some(v)
            && views(v@) == allowed_list(file_types@, views(custom_extensions@))),
{
    if file_types.len() == 0 && custom_extensions.len() == 0 {
        return None;
    }
    let mut all: Vec<String> = Vec::new();
    let mut i: usize = 0;
    while i < file_types.len()
        invariant
            i <= file_types@.len(),
            views(all@) == builtin_concat(file_types@.take(i as int)),
        decreases file_types@.len() - i,
    {
        let exts = extensions_for_file_type(file_types[i]);
        let ghost before = views(all@);
        let mut k: usize = 0;
        while k < exts.len()
            invariant
                k <= exts@.len(),
                views(all@) == before + views(exts@).take(k as int),
            decreases exts@.len() - k,
        {
            let ghost prev = views(all@);
            all.push(exts[k].clone());
            proof {
                assert(views(all@) =~= prev.push(exts@[k as int]@));
                assert(views(exts@).take(k + 1) =~= views(exts@).take(k as int).push(exts@[k as int]@));
                assert(views(all@) =~= before + views(exts@).take(k + 1));
            }
            k += 1;
        }
        proof {
            assert(views(exts@).take(exts@.len() as int) =~= views(exts@));
            assert(file_types@.take(i + 1).drop_last() =~= file_types@.take(i as int));
            assert(file_types@.take(i + 1).last() == file_types@[i as int]);
        }
        i += 1;
    }
    assert(file_types@.take(file_types@.len() as int) =~= file_types@);
    let joined = join_commas(custom_extensions);
    let custom = sanitize_custom_extensions(joined.as_str());
    assert(views(custom@) =~= sanitized_extensions(join_with_commas(views(custom_extensions@))));
    let ghost before = views(all@);
    let mut k: usize = 0;
    while k < custom.len()
        invariant
            k <= custom@.len(),
            views(all@) == before + views(custom@).take(k as int),
        decreases custom@.len() - k,
    {
        let ghost prev = views(all@);
        all.push(custom[k].clone());
        proof {
            assert(views(all@) =~= prev.push(custom@[k as int]@));
            assert(views(custom@).take(k + 1) =~= views(custom@).take(k as int).push(custom@[k as int]@));
            assert(views(all@) =~= before + views(custom@).take(k + 1));
        }
        k += 1;
    }
    assert(views(custom@).take(custom@.len() as int) =~= views(custom@));
    Some(all)
}

/// Whether the file name of `path` ends with `.ext` for an allowed
/// extension; every file passes when there is no limit.
pub open spec fn extension_allowed(path: Seq<char>, allowed: Option<Seq<Seq<char>>>) -> bool {
    match allowed {
        None => true,
        Some(a) => match file_name_of(path) {
            None => false,
            Some(name) => name_has_extension(name, a),
        },
    }
}

/// The lower-cased file name ends with `.ext` for one of the extensions.
pub open spec fn name_has_extension(name: Seq<char>, extensions: Seq<Seq<char>>) -> bool {
    exists|k: int|
        0 <= k < extensions.len() && ends_with(ascii_lower(name), seq!['.'] + #[trigger] extensions[k])
}

proof fn lemma_extension_allowed_intro(path: Seq<char>, a: Seq<Seq<char>>, name: Seq<char>, j: int)
    requires
        file_name_of(path) == Some(name),
        0 <= j < a.len(),
        ends_with(ascii_lower(name), seq!['.'] + a[j]),
    ensures
        extension_allowed(path, Some(a)),
{
    assert(name_has_extension(name, a));
}

/// The allowed extensions as plain sequences.
pub open spec fn allowed_view(allowed: Option<Vec<String>>) -> Option<Seq<Seq<char>>> {
    match allowed {
        None => None,
        Some(v) => Some(views(v@)),
    }
}

/// Whether a file passes the extension limit (see `extension_allowed`).
pub fn extension_is_allowed(path: &str, allowed_extensions: &Option<Vec<String>>) -> (r: bool)
    ensures
        r == extension_allowed(path@, allowed_view(*allowed_extensions)),
{
    let allowed = match allowed_extensions {
        None => return true,
        Some(a) => a,
    };
    let name = match file_name_chars(&to_chars(path)) {
        None => return false,
        Some(n) => n,
    };
    let lower = lower_ascii(&name);
    let mut k: usize = 0;
    while k < allowed.len()
        invariant
            k <= allowed@.len(),
            lower@ == ascii_lower(name@),
            *allowed_extensions == Some(*allowed),
            file_name_of(path@) == Some(name@),
            forall|j: int| 0 <= j < k ==> !ends_with(lower@, seq!['.'] + #[trigger] views(allowed@)[j]),
        decreases allowed@.len() - k,
    {
        let mut suffix: Vec<char> = Vec::new();
        suffix.push('.');
        let ext = to_chars(allowed[k].as_str());
        proof {
            assert(views(allowed@)[k as int] == allowed@[k as int]@);
        }
        let mut q: usize = 0;
        while q < ext.len()
            invariant
                q <= ext@.len(),
                k < allowed@.len(),
                ext@ == views(allowed@)[k as int],
                suffix@ == seq!['.'] + ext@.take(q as int),
            decreases ext@.len() - q,
        {
            suffix.push(ext[q]);
            proof {
                assert(ext@.take(q + 1) =~= ext@.take(q as int).push(ext@[q as int]));
            }
            q += 1;
        }
        proof {
            assert(ext@.take(ext@.len() as int) =~= ext@);
            assert(views(allowed@)[k as int] == allowed@[k as int]@);
        }
        if chars_end_with(&lower, &suffix) {
            proof {
                let a = views(allowed@);
                assert(suffix@ =~= seq!['.'] + a[k as int]);
                assert(ends_with(ascii_lower(name@), seq!['.'] + a[k as int]));
                assert(allowed_view(*allowed_extensions) == Some(a));
                assert(file_name_of(path@) == Some(name@));
                lemma_extension_allowed_intro(path@, a, name@, k as int);
            }
            return true;
        }
        k += 1;
    }
    false
}

/// The percentage shown while a duplicate scan runs: `base` plus the number
/// of files so far (at most 29), capped at 99.
pub open spec fn scan_percent(count: u64, base: u8) -> int {
    let inc: int = if count < 29 {
        count as int
    } else {
        29
    };
    let raw: int = if base + inc > 255 {
        255
    } else {
        base + inc
    };
    if raw < 99 {
        raw
    } else {
        99
    }
}

/// Progress percentage of a duplicate scan (see `scan_percent`).
pub fn scan_progress_percent(count: u64, base: u8) -> (r: u8)
    ensures
        r == scan_percent(count, base),
{
    let inc: u8 = if count < 29 {
        count as u8
    } else {
        29
    };
    let raw = base.saturating_add(inc);
    if raw < 99 {
        raw
    } else {
        99
    }
}

/// Sum of the sizes of the candidates at the listed indices.
pub open spec fn sum_over(list: Seq<usize>, sizes: Seq<u64>) -> int
    decreases list.len(),
{
    if list.len() == 0 {
        0
    } else {
        sum_over(list.drop_last(), sizes) + sizes[list.last() as int]
    }
}

/// Sum of the first `n` sizes.
pub open spec fn total_size(sizes: Seq<u64>, n: int) -> int
    decreases n,
{
    if n <= 0 {
        0
    } else {
        total_size(sizes, n - 1) + sizes[n - 1]
    }
}

/// The listed indices are distinct and below `n`.
pub open spec fn distinct_below(list: Seq<usize>, n: int) -> bool {
    &&& forall|a: int| 0 <= a < list.len() ==> (#[trigger] list[a]) < n
    &&& forall|a: int, b: int| 0 <= a < b < list.len() ==> (#[trigger] list[a]) != (#[trigger] list[b])
}

proof fn lemma_sum_over_remove(list: Seq<usize>, sizes: Seq<u64>, p: int)
    requires
        0 <= p < list.len(),
    ensures
        sum_over(list, sizes) == sum_over(list.remove(p), sizes) + sizes[list[p] as int],
    decreases list.len(),
{
    if p == list.len() - 1 {
        assert(list.remove(p) =~= list.drop_last());
    } else {
        lemma_sum_over_remove(list.drop_last(), sizes, p);
        assert(list.remove(p).drop_last() =~= list.drop_last().remove(p));
        assert(list.remove(p).last() == list.last());
    }
}

proof fn lemma_total_size_monotone(sizes: Seq<u64>, a: int, b: int)
    requires
        0 <= a <= b,
    ensures
        total_size(sizes, a) <= total_size(sizes, b),
    decreases b - a,
{
    if a < b {
        lemma_total_size_monotone(sizes, a, b - 1);
    }
}

/// A sum over distinct indices is at most the sum of all sizes.
pub proof fn lemma_sum_over_le_total(list: Seq<usize>, sizes: Seq<u64>, n: int)
    requires
        distinct_below(list, n),
        0 <= n <= sizes.len(),
    ensures
        0 <= sum_over(list, sizes) <= total_size(sizes, n),
    decreases n, list.len(),
{
    if n == 0 {
        if list.len() > 0 {
            assert(list[0] < 0);
        }
    } else if exists|p: int| 0 <= p < list.len() && list[p] == n - 1 {
        let p = choose|p: int| 0 <= p < list.len() && list[p] == n - 1;
        lemma_sum_over_remove(list, sizes, p);
        let rest = list.remove(p);
        assert forall|a: int| 0 <= a < rest.len() implies (#[trigger] rest[a]) < n - 1 by {
            if a < p {
                assert(rest[a] == list[a]);
                assert(list[a] != list[p]);
            } else {
                assert(rest[a] == list[a + 1]);
                assert(list[a + 1] != list[p]);
            }
        }
        assert forall|a: int, b: int| 0 <= a < b < rest.len() implies (#[trigger] rest[a]) != (#[trigger] rest[b]) by {
            let a2 = if a < p { a } else { a + 1 };
            let b2 = if b < p { b } else { b + 1 };
            assert(rest[a] == list[a2]);
            assert(rest[b] == list[b2]);
        }
        lemma_sum_over_le_total(rest, sizes, n - 1);
    } else {
        assert forall|a: int| 0 <= a < list.len() implies (#[trigger] list[a]) < n - 1 by {}
        lemma_sum_over_le_total(list, sizes, n - 1);
    }
    lemma_sum_over_nonneg(list, sizes);
}

proof fn lemma_sum_over_nonneg(list: Seq<usize>, sizes: Seq<u64>)
    ensures
        sum_over(list, sizes) >= 0,
    decreases list.len(),
{
    if list.len() > 0 {
        lemma_sum_over_nonneg(list.drop_last(), sizes);
    }
}

/// A sum of sizes is never negative.
pub proof fn lemma_sum_over_nonneg_pub(list: Seq<usize>, sizes: Seq<u64>)
    ensures
        sum_over(list, sizes) >= 0,
{
    lemma_sum_over_nonneg(list, sizes);
}

/// Sums over two lists add up.
pub proof fn lemma_sum_over_append(a: Seq<usize>, b: Seq<usize>, sizes: Seq<u64>)
    ensures
        sum_over(a + b, sizes) == sum_over(a, sizes) + sum_over(b, sizes),
    decreases b.len(),
{
    if b.len() == 0 {
        assert(a + b =~= a);
    } else {
        lemma_sum_over_append(a, b.drop_last(), sizes);
        assert((a + b).drop_last() =~= a + b.drop_last());
    }
}

/// The sizes of a list of candidates.
pub open spec fn candidate_sizes(c: Seq<CandidateFile>) -> Seq<u64> {
    Seq::new(c.len(), |k: int| c[k].size_bytes)
}

/// State of a running duplicate scan: the request, the candidates kept so
/// far and the counters.
pub struct DuplicateScanCollector {
    pub request: DuplicateScanRequest,
    pub allowed_extensions: Option<Vec<String>>,
    pub candidates: Vec<CandidateFile>,
    pub seen_path_keys: Vec<String>,
    pub scanned_files: u64,
    pub skipped_locations: u64,
    pub hashed_files: u64,
    pub strict_groups: Vec<DuplicateFileGroup>,
    pub strict_backend_entries: Vec<Vec<DuplicateBackendEntry>>,
    pub found_items: u64,
    pub found_bytes: u64,
    /// The candidates behind each strict group.
    pub strict_members: Ghost<Seq<Seq<usize>>>,
    /// How the copies of each strict group are arranged.
    pub strict_orders: Ghost<Seq<Seq<usize>>>,
}

/// A file passes the size and extension limits of the request.
pub open spec fn passes_limits(
    request: DuplicateScanRequest,
    allowed: Option<Vec<String>>,
    path: Seq<char>,
    size: u64,
) -> bool {
    size >= request.min_size_bytes && extension_allowed(path, allowed_view(allowed))
}

impl DuplicateScanCollector {
    /// A collector for a new scan.
    pub fn new(request: DuplicateScanRequest) -> (r: DuplicateScanCollector)
        ensures
            r.request == request,
            r.candidates@.len() == 0,
            r.seen_path_keys@.len() == 0,
            r.scanned_files == 0,
            r.skipped_locations == 0,
            r.hashed_files == 0,
            r.strict_groups@.len() == 0,
            r.strict_backend_entries@.len() == 0,
            r.found_items == 0,
            r.found_bytes == 0,
            r.strict_members@.len() == 0,
            r.strict_orders@.len() == 0,
            (request.file_types@.len() == 0 && request.custom_extensions@.len() == 0) ==> r.allowed_extensions is None,
            !(request.file_types@.len() == 0 && request.custom_extensions@.len() == 0) ==> (r.allowed_extensions matches Some(v)
                && views(v@) == allowed_list(request.file_types@, views(request.custom_extensions@))),
    {
        let allowed = allowed_extensions(&request.file_types, &request.custom_extensions);
        DuplicateScanCollector {
            request: request,
            allowed_extensions: allowed,
            candidates: Vec::new(),
            seen_path_keys: Vec::new(),
            scanned_files: 0,
            skipped_locations: 0,
            hashed_files: 0,
            strict_groups: Vec::new(),
            strict_backend_entries: Vec::new(),
            found_items: 0,
            found_bytes: 0,
            strict_members: Ghost(Seq::empty()),
            strict_orders: Ghost(Seq::empty()),
        }
    }

    /// Counts a location that could not be scanned.
    pub fn note_skipped_location(&mut self)
        requires
            old(self).skipped_locations < u64::MAX,
        ensures
            final(self).skipped_locations == old(self).skipped_locations + 1,
            final(self).candidates == old(self).candidates,
            final(self).scanned_files == old(self).scanned_files,
            final(self).request == old(self).request,
            final(self).allowed_extensions == old(self).allowed_extensions,
            final(self).seen_path_keys == old(self).seen_path_keys,
            final(self).hashed_files == old(self).hashed_files,
            final(self).strict_groups == old(self).strict_groups,
            final(self).strict_backend_entries == old(self).strict_backend_entries,
            final(self).found_items == old(self).found_items,
            final(self).found_bytes == old(self).found_bytes,
            final(self).strict_members == old(self).strict_members,
            final(self).strict_orders == old(self).strict_orders,
    {
        self.skipped_locations = self.skipped_locations + 1;
    }

    /// Offers a file found by the scan. It becomes a candidate when it passes
    /// the size and extension limits and its canonical path was not seen yet;
    /// the progress report of that step is returned.
    pub fn offer_file(
        &mut self,
        path: &str,
        canonical_path: &str,
        size_bytes: u64,
        modified_at: String,
        operation_id: &str,
    ) -> (r: Option<OperationProgressPayload>)
        requires
            old(self).scanned_files < u64::MAX,
        ensures
            final(self).request == old(self).request,
            final(self).allowed_extensions == old(self).allowed_extensions,
            final(self).skipped_locations == old(self).skipped_locations,
            final(self).hashed_files == old(self).hashed_files,
            final(self).strict_groups == old(self).strict_groups,
            final(self).strict_backend_entries == old(self).strict_backend_entries,
            final(self).found_items == old(self).found_items,
            final(self).found_bytes == old(self).found_bytes,
            final(self).strict_members == old(self).strict_members,
            final(self).strict_orders == old(self).strict_orders,
            ({
                let accepted = passes_limits(old(self).request, old(self).allowed_extensions, path@, size_bytes)
                    && !views(old(self).seen_path_keys@).contains(path_key(canonical_path@));
                if accepted {
                    &&& final(self).scanned_files == old(self).scanned_files + 1
                    &&& final(self).candidates@.len() == old(self).candidates@.len() + 1
                    &&& final(self).candidates@.drop_last() == old(self).candidates@
                    &&& final(self).candidates@.last().path@ == path@
                    &&& final(self).candidates@.last().path_key@ == path_key(canonical_path@)
                    &&& final(self).candidates@.last().size_bytes == size_bytes
                    &&& views(final(self).seen_path_keys@) == views(old(self).seen_path_keys@).push(path_key(canonical_path@))
                    &&& r matches Some(p) && p.stage@ == "scanning"@ && p.module == OperationModule::DuplicateScan
                        && p.scanned_files == final(self).scanned_files
                        && p.current_location_hint@ == duplicate_location_hint(path@)
                } else {
                    &&& final(self).scanned_files == old(self).scanned_files
                    &&& final(self).candidates == old(self).candidates
                    &&& final(self).seen_path_keys == old(self).seen_path_keys
                    &&& r is None
                }
            }),
    {
        if size_bytes < self.request.min_size_bytes || !extension_is_allowed(path, &self.allowed_extensions) {
            return None;
        }
        let key = path_key_chars(&to_chars(canonical_path));
        let mut k: usize = 0;
        while k < self.seen_path_keys.len()
            invariant
                k <= self.seen_path_keys@.len(),
                key@ == path_key(canonical_path@),
                forall|j: int| 0 <= j < k ==> (#[trigger] self.seen_path_keys@[j])@ != key@,
            decreases self.seen_path_keys@.len() - k,
        {
            if chars_eq(&to_chars(self.seen_path_keys[k].as_str()), &key) {
                proof {
                    assert(views(self.seen_path_keys@)[k as int] == key@);
                }
                return None;
            }
            k += 1;
        }
        proof {
            assert forall|j: int| 0 <= j < views(self.seen_path_keys@).len() implies views(self.seen_path_keys@)[j] != key@ by {
                assert(views(self.seen_path_keys@)[j] == self.seen_path_keys@[j]@);
            }
        }
        let ghost old_seen = self.seen_path_keys@;
        self.seen_path_keys.push(from_chars(&key));
        proof {
            assert(views(self.seen_path_keys@) =~= views(old_seen).push(key@));
        }
        self.scanned_files = self.scanned_files + 1;
        let candidate = candidate_file(path, canonical_path, size_bytes, modified_at, &self.request.protected_paths);
        let payload = progress_payload(
            operation_id,
            OperationModule::DuplicateScan,
            "scanning",
            scan_progress_percent(self.scanned_files, 10),
            copy_hint(&candidate.visible_location_hint),
            self.scanned_files,
            0,
            0,
            0,
            0,
            0,
            0,
            0,
        );
        let ghost old_candidates = self.candidates@;
        self.candidates.push(candidate);
        proof {
            assert(self.candidates@.drop_last() =~= old_candidates);
        }
        Some(payload)
    }
}

fn copy_hint(s: &String) -> (r: String)
    ensures
        r == *s,
{
    s.clone()
}

/// `t` holds no extension separator.
pub open spec fn free_of_separators(t: Seq<char>) -> bool {
    forall|i: int| 0 <= i < t.len() ==> !is_extension_separator(#[trigger] t[i])
}

proof fn lemma_split_after_separator(s: Seq<char>, sep: char, t: Seq<char>)
    requires
        is_extension_separator(sep),
        free_of_separators(t),
    ensures
        split_tokens(s.push(sep) + t) == split_tokens(s).push(t),
    decreases t.len(),
{
    if t.len() == 0 {
        assert(s.push(sep) + t =~= s.push(sep));
        assert(s.push(sep).drop_last() =~= s);
        assert(t =~= Seq::<char>::empty());
    } else {
        let u = s.push(sep) + t;
        lemma_split_after_separator(s, sep, t.drop_last());
        assert(u.drop_last() =~= s.push(sep) + t.drop_last());
        assert(u.last() == t.last());
        assert(t.last() == t[t.len() - 1]);
        assert(!is_extension_separator(u.last()));
        assert(t.drop_last().push(t.last()) =~= t);
        assert(split_tokens(s).push(t.drop_last()).update(
            split_tokens(s).len() as int,
            t.drop_last().push(t.last()),
        ) =~= split_tokens(s).push(t));
        assert(t.drop_last().push(t.last()) =~= t);
    }
}

proof fn lemma_split_plain(t: Seq<char>)
    requires
        free_of_separators(t),
    ensures
        split_tokens(t) == seq![t],
    decreases t.len(),
{
    if t.len() == 0 {
        assert(t =~= Seq::<char>::empty());
    } else {
        lemma_split_plain(t.drop_last());
        assert(t.last() == t[t.len() - 1]);
        assert(!is_extension_separator(t.last()));
        assert(t.drop_last().push(t.last()) =~= t);
        assert(seq![t.drop_last()].update(0, t.drop_last().push(t.last())) =~= seq![t]);
    }
}

proof fn lemma_split_of_join(items: Seq<Seq<char>>)
    requires
        items.len() >= 1,
        forall|k: int| 0 <= k < items.len() ==> free_of_separators(#[trigger] items[k]),
    ensures
        split_tokens(join_with_commas(items)) == items,
    decreases items.len(),
{
    if items.len() == 1 {
        lemma_split_plain(items[0]);
        assert(seq![items[0]] =~= items);
    } else {
        let init = items.drop_last();
        lemma_split_of_join(init);
        reveal_strlit(",");
        assert(join_with_commas(init) + ","@ + items.last() =~= join_with_commas(init).push(',') + items.last());
        lemma_split_after_separator(join_with_commas(init), ',', items.last());
        assert(init.push(items.last()) =~= items);
    }
}

proof fn lemma_lower_char_idempotent(c: char)
    ensures
        lower_char(lower_char(c)) == lower_char(c),
{
    if 'A' <= c && c <= 'Z' {
        assert('a' <= lower_char(c) && lower_char(c) <= 'z');
    }
}

proof fn lemma_sanitized_are_lower(tokens: Seq<Seq<char>>, n: int)
    ensures
        forall|k: int| 0 <= k < sanitized_prefix(tokens, n).len() ==> ascii_lower(
            #[trigger] sanitized_prefix(tokens, n)[k],
        ) == sanitized_prefix(tokens, n)[k],
    decreases n,
{
    if n > 0 {
        lemma_sanitized_are_lower(tokens, n - 1);
        let acc = sanitized_prefix(tokens, n - 1);
        let e = clean_extension(tokens[n - 1]);
        let x = trim_start_by(trim(tokens[n - 1]), |c: char| c == '.');
        assert forall|i: int| 0 <= i < e.len() implies #[trigger] lower_char(e[i]) == e[i] by {
            lemma_lower_char_idempotent(x[i]);
        }
        assert(ascii_lower(e) =~= e);
        let cur = sanitized_prefix(tokens, n);
        assert forall|k: int| 0 <= k < cur.len() implies ascii_lower(#[trigger] cur[k]) == cur[k] by {
            if k < acc.len() {
                assert(cur[k] == acc[k]);
            }
        }
    }
}

proof fn lemma_clean_keeps_safe_lower(e: Seq<char>)
    requires
        is_safe_extension_spec(e),
        ascii_lower(e) == e,
    ensures
        clean_extension(e) == e,
        free_of_separators(e),
{
    let ws = |c: char| is_whitespace(c);
    assert(is_ascii_alnum(e[0]) || e[0] == '.');
    assert(leading_count(e, ws) == 0);
    assert(e.skip(0) =~= e);
    assert(is_ascii_alnum(e.last()) || e.last() == '.');
    assert(e.last() == e[e.len() - 1]);
    assert(trailing_count(e, ws) == 0);
    assert(e.take(e.len() as int) =~= e);
    assert(trim(e) == e);
    assert(leading_count(e, |c: char| c == '.') == 0);
    assert(trim_start_by(e, |c: char| c == '.') == e);
    assert forall|i: int| 0 <= i < e.len() implies !is_extension_separator(#[trigger] e[i]) by {
        assert(is_ascii_alnum(e[i]) || e[i] == '.');
    }
}

proof fn lemma_sanitize_keeps_clean_list(items: Seq<Seq<char>>, n: int)
    requires
        0 <= n <= items.len(),
        forall|k: int| 0 <= k < items.len() ==> is_safe_extension_spec(#[trigger] items[k]),
        forall|k: int| 0 <= k < items.len() ==> clean_extension(#[trigger] items[k]) == items[k],
        forall|a: int, b: int| 0 <= a < b < items.len() ==> #[trigger] items[a] != #[trigger] items[b],
    ensures
        sanitized_prefix(items, n) == items.take(n),
    decreases n,
{
    if n > 0 {
        lemma_sanitize_keeps_clean_list(items, n - 1);
        let acc = items.take(n - 1);
        if acc.contains(items[n - 1]) {
            let j = choose|j: int| 0 <= j < acc.len() && acc[j] == items[n - 1];
            assert(items[j] == items[n - 1]);
        }
        assert(acc.push(items[n - 1]) =~= items.take(n));
    }
}

/// Sanitising the custom extensions is stable: the extensions kept from any
/// input, joined with commas and sanitised again, are the same list.
pub proof fn law_sanitized_extensions_survive_rejoining(input: Seq<char>)
    ensures
        sanitized_extensions(join_with_commas(sanitized_extensions(input))) == sanitized_extensions(input),
{
    let items = sanitized_extensions(input);
    law_custom_extensions_are_safe_and_distinct(input);
    let tokens = split_tokens(input);
    lemma_sanitized_are_lower(tokens, tokens.len() as int);
    assert forall|k: int| 0 <= k < items.len() implies clean_extension(#[trigger] items[k]) == items[k]
        && free_of_separators(items[k]) by {
        lemma_clean_keeps_safe_lower(items[k]);
    }
    if items.len() == 0 {
        let joined = join_with_commas(items);
        assert(joined =~= Seq::<char>::empty());
        lemma_split_plain(joined);
        assert(trim(joined).len() == 0);
        assert(clean_extension(joined).len() == 0);
        assert(seq![joined][0] == joined);
        assert(!is_safe_extension_spec(clean_extension(joined)));
        assert(sanitized_prefix(seq![joined], 0) =~= Seq::<Seq<char>>::empty());
        assert(sanitized_prefix(seq![joined], 1) =~= Seq::<Seq<char>>::empty());
    } else {
        lemma_split_of_join(items);
        lemma_sanitize_keeps_clean_list(items, items.len() as int);
        assert(items.take(items.len() as int) =~= items);
    }
}

/// A scan limited to image files keeps exactly the files whose name ends, in
/// any ASCII case, with .bmp, .gif, .jpeg, .jpg, .png or .webp.
pub proof fn law_image_scan_extensions(path: Seq<char>)
    ensures
        extension_allowed(path, Some(builtin_extensions(DuplicateFileType::Image))) <==> (file_name_of(path) matches Some(n)
            && (ends_with(ascii_lower(n), ".bmp"@) || ends_with(ascii_lower(n), ".gif"@) || ends_with(ascii_lower(n), ".jpeg"@) || ends_with(ascii_lower(n), ".jpg"@) || ends_with(ascii_lower(n), ".png"@) || ends_with(ascii_lower(n), ".webp"@))),
{
    reveal_strlit("bmp");
    reveal_strlit(".bmp");
    assert(seq!['.'] + "bmp"@ =~= ".bmp"@);
    reveal_strlit("gif");
    reveal_strlit(".gif");
    assert(seq!['.'] + "gif"@ =~= ".gif"@);
    reveal_strlit("jpeg");
    reveal_strlit(".jpeg");
    assert(seq!['.'] + "jpeg"@ =~= ".jpeg"@);
    reveal_strlit("jpg");
    reveal_strlit(".jpg");
    assert(seq!['.'] + "jpg"@ =~= ".jpg"@);
    reveal_strlit("png");
    reveal_strlit(".png");
    assert(seq!['.'] + "png"@ =~= ".png"@);
    reveal_strlit("webp");
    reveal_strlit(".webp");
    assert(seq!['.'] + "webp"@ =~= ".webp"@);
    let l = builtin_extensions(DuplicateFileType::Image);
    if extension_allowed(path, Some(l)) {
        let n = file_name_of(path)->Some_0;
        let k = choose|k: int| 0 <= k < l.len() && ends_with(ascii_lower(n), seq!['.'] + #[trigger] l[k]);
        if k == 0 {
            assert(l[k] == "bmp"@);
        } else if k == 1 {
            assert(l[k] == "gif"@);
        } else if k == 2 {
            assert(l[k] == "jpeg"@);
        } else if k == 3 {
            assert(l[k] == "jpg"@);
        } else if k == 4 {
            assert(l[k] == "png"@);
        } else if k == 5 {
            assert(l[k] == "webp"@);
        }
    }
    if file_name_of(path) is Some {
        let n = file_name_of(path)->Some_0;
        if ends_with(ascii_lower(n), ".bmp"@) {
            assert(l[0] == "bmp"@);
            lemma_extension_allowed_intro(path, l, n, 0);
        } else if ends_with(ascii_lower(n), ".gif"@) {
            assert(l[1] == "gif"@);
            lemma_extension_allowed_intro(path, l, n, 1);
        } else if ends_with(ascii_lower(n), ".jpeg"@) {
            assert(l[2] == "jpeg"@);
            lemma_extension_allowed_intro(path, l, n, 2);
        } else if ends_with(ascii_lower(n), ".jpg"@) {
            assert(l[3] == "jpg"@);
            lemma_extension_allowed_intro(path, l, n, 3);
        } else if ends_with(ascii_lower(n), ".png"@) {
            assert(l[4] == "png"@);
            lemma_extension_allowed_intro(path, l, n, 4);
        } else if ends_with(ascii_lower(n), ".webp"@) {
            assert(l[5] == "webp"@);
            lemma_extension_allowed_intro(path, l, n, 5);
        }
    }
}

/// A scan limited to document files keeps exactly the files whose name ends, in
/// any ASCII case, with .csv, .doc, .docx, .json, .log, .pdf, .ppt, .pptx, .txt, .xls, .xlsx or .xml.
pub proof fn law_document_scan_extensions(path: Seq<char>)
    ensures
        extension_allowed(path, Some(builtin_extensions(DuplicateFileType::Document))) <==> (file_name_of(path) matches Some(n)
            && (ends_with(ascii_lower(n), ".csv"@) || ends_with(ascii_lower(n), ".doc"@) || ends_with(ascii_lower(n), ".docx"@) || ends_with(ascii_lower(n), ".json"@) || ends_with(ascii_lower(n), ".log"@) || ends_with(ascii_lower(n), ".pdf"@) || ends_with(ascii_lower(n), ".ppt"@) || ends_with(ascii_lower(n), ".pptx"@) || ends_with(ascii_lower(n), ".txt"@) || ends_with(ascii_lower(n), ".xls"@) || ends_with(ascii_lower(n), ".xlsx"@) || ends_with(ascii_lower(n), ".xml"@))),
{
    reveal_strlit("csv");
    reveal_strlit(".csv");
    assert(seq!['.'] + "csv"@ =~= ".csv"@);
    reveal_strlit("doc");
    reveal_strlit(".doc");
    assert(seq!['.'] + "doc"@ =~= ".doc"@);
    reveal_strlit("docx");
    reveal_strlit(".docx");
    assert(seq!['.'] + "docx"@ =~= ".docx"@);
    reveal_strlit("json");
    reveal_strlit(".json");
    assert(seq!['.'] + "json"@ =~= ".json"@);
    reveal_strlit("log");
    reveal_strlit(".log");
    assert(seq!['.'] + "log"@ =~= ".log"@);
    reveal_strlit("pdf");
    reveal_strlit(".pdf");
    assert(seq!['.'] + "pdf"@ =~= ".pdf"@);
    reveal_strlit("ppt");
    reveal_strlit(".ppt");
    assert(seq!['.'] + "ppt"@ =~= ".ppt"@);
    reveal_strlit("pptx");
    reveal_strlit(".pptx");
    assert(seq!['.'] + "pptx"@ =~= ".pptx"@);
    reveal_strlit("txt");
    reveal_strlit(".txt");
    assert(seq!['.'] + "txt"@ =~= ".txt"@);
    reveal_strlit("xls");
    reveal_strlit(".xls");
    assert(seq!['.'] + "xls"@ =~= ".xls"@);
    reveal_strlit("xlsx");
    reveal_strlit(".xlsx");
    assert(seq!['.'] + "xlsx"@ =~= ".xlsx"@);
    reveal_strlit("xml");
    reveal_strlit(".xml");
    assert(seq!['.'] + "xml"@ =~= ".xml"@);
    let l = builtin_extensions(DuplicateFileType::Document);
    if extension_allowed(path, Some(l)) {
        let n = file_name_of(path)->Some_0;
        let k = choose|k: int| 0 <= k < l.len() && ends_with(ascii_lower(n), seq!['.'] + #[trigger] l[k]);
        if k == 0 {
            assert(l[k] == "csv"@);
        } else if k == 1 {
            assert(l[k] == "doc"@);
        } else if k == 2 {
            assert(l[k] == "docx"@);
        } else if k == 3 {
            assert(l[k] == "json"@);
        } else if k == 4 {
            assert(l[k] == "log"@);
        } else if k == 5 {
            assert(l[k] == "pdf"@);
        } else if k == 6 {
            assert(l[k] == "ppt"@);
        } else if k == 7 {
            assert(l[k] == "pptx"@);
        } else if k == 8 {
            assert(l[k] == "txt"@);
        } else if k == 9 {
            assert(l[k] == "xls"@);
        } else if k == 10 {
            assert(l[k] == "xlsx"@);
        } else if k == 11 {
            assert(l[k] == "xml"@);
        }
    }
    if file_name_of(path) is Some {
        let n = file_name_of(path)->Some_0;
        if ends_with(ascii_lower(n), ".csv"@) {
            assert(l[0] == "csv"@);
            lemma_extension_allowed_intro(path, l, n, 0);
        } else if ends_with(ascii_lower(n), ".doc"@) {
            assert(l[1] == "doc"@);
            lemma_extension_allowed_intro(path, l, n, 1);
        } else if ends_with(ascii_lower(n), ".docx"@) {
            assert(l[2] == "docx"@);
            lemma_extension_allowed_intro(path, l, n, 2);
        } else if ends_with(ascii_lower(n), ".json"@) {
            assert(l[3] == "json"@);
            lemma_extension_allowed_intro(path, l, n, 3);
        } else if ends_with(ascii_lower(n), ".log"@) {
            assert(l[4] == "log"@);
            lemma_extension_allowed_intro(path, l, n, 4);
        } else if ends_with(ascii_lower(n), ".pdf"@) {
            assert(l[5] == "pdf"@);
            lemma_extension_allowed_intro(path, l, n, 5);
        } else if ends_with(ascii_lower(n), ".ppt"@) {
            assert(l[6] == "ppt"@);
            lemma_extension_allowed_intro(path, l, n, 6);
        } else if ends_with(ascii_lower(n), ".pptx"@) {
            assert(l[7] == "pptx"@);
            lemma_extension_allowed_intro(path, l, n, 7);
        } else if ends_with(ascii_lower(n), ".txt"@) {
            assert(l[8] == "txt"@);
            lemma_extension_allowed_intro(path, l, n, 8);
        } else if ends_with(ascii_lower(n), ".xls"@) {
            assert(l[9] == "xls"@);
            lemma_extension_allowed_intro(path, l, n, 9);
        } else if ends_with(ascii_lower(n), ".xlsx"@) {
            assert(l[10] == "xlsx"@);
            lemma_extension_allowed_intro(path, l, n, 10);
        } else if ends_with(ascii_lower(n), ".xml"@) {
            assert(l[11] == "xml"@);
            lemma_extension_allowed_intro(path, l, n, 11);
        }
    }
}

/// A scan limited to audio files keeps exactly the files whose name ends, in
/// any ASCII case, with .flac, .m4a, .mp3, .ogg, .wav or .wma.
pub proof fn law_audio_scan_extensions(path: Seq<char>)
    ensures
        extension_allowed(path, Some(builtin_extensions(DuplicateFileType::Audio))) <==> (file_name_of(path) matches Some(n)
            && (ends_with(ascii_lower(n), ".flac"@) || ends_with(ascii_lower(n), ".m4a"@) || ends_with(ascii_lower(n), ".mp3"@) || ends_with(ascii_lower(n), ".ogg"@) || ends_with(ascii_lower(n), ".wav"@) || ends_with(ascii_lower(n), ".wma"@))),
{
    reveal_strlit("flac");
    reveal_strlit(".flac");
    assert(seq!['.'] + "flac"@ =~= ".flac"@);
    reveal_strlit("m4a");
    reveal_strlit(".m4a");
    assert(seq!['.'] + "m4a"@ =~= ".m4a"@);
    reveal_strlit("mp3");
    reveal_strlit(".mp3");
    assert(seq!['.'] + "mp3"@ =~= ".mp3"@);
    reveal_strlit("ogg");
    reveal_strlit(".ogg");
    assert(seq!['.'] + "ogg"@ =~= ".ogg"@);
    reveal_strlit("wav");
    reveal_strlit(".wav");
    assert(seq!['.'] + "wav"@ =~= ".wav"@);
    reveal_strlit("wma");
    reveal_strlit(".wma");
    assert(seq!['.'] + "wma"@ =~= ".wma"@);
    let l = builtin_extensions(DuplicateFileType::Audio);
    if extension_allowed(path, Some(l)) {
        let n = file_name_of(path)->Some_0;
        let k = choose|k: int| 0 <= k < l.len() && ends_with(ascii_lower(n), seq!['.'] + #[trigger] l[k]);
        if k == 0 {
            assert(l[k] == "flac"@);
        } else if k == 1 {
            assert(l[k] == "m4a"@);
        } else if k == 2 {
            assert(l[k] == "mp3"@);
        } else if k == 3 {
            assert(l[k] == "ogg"@);
        } else if k == 4 {
            assert(l[k] == "wav"@);
        } else if k == 5 {
            assert(l[k] == "wma"@);
        }
    }
    if file_name_of(path) is Some {
        let n = file_name_of(path)->Some_0;
        if ends_with(ascii_lower(n), ".flac"@) {
            assert(l[0] == "flac"@);
            lemma_extension_allowed_intro(path, l, n, 0);
        } else if ends_with(ascii_lower(n), ".m4a"@) {
            assert(l[1] == "m4a"@);
            lemma_extension_allowed_intro(path, l, n, 1);
        } else if ends_with(ascii_lower(n), ".mp3"@) {
            assert(l[2] == "mp3"@);
            lemma_extension_allowed_intro(path, l, n, 2);
        } else if ends_with(ascii_lower(n), ".ogg"@) {
            assert(l[3] == "ogg"@);
            lemma_extension_allowed_intro(path, l, n, 3);
        } else if ends_with(ascii_lower(n), ".wav"@) {
            assert(l[4] == "wav"@);
            lemma_extension_allowed_intro(path, l, n, 4);
        } else if ends_with(ascii_lower(n), ".wma"@) {
            assert(l[5] == "wma"@);
            lemma_extension_allowed_intro(path, l, n, 5);
        }
    }
}

/// A scan limited to video files keeps exactly the files whose name ends, in
/// any ASCII case, with .avi, .mkv, .mov, .mp4, .mpeg, .mpg or .wmv.
pub proof fn law_video_scan_extensions(path: Seq<char>)
    ensures
        extension_allowed(path, Some(builtin_extensions(DuplicateFileType::Video))) <==> (file_name_of(path) matches Some(n)
            && (ends_with(ascii_lower(n), ".avi"@) || ends_with(ascii_lower(n), ".mkv"@) || ends_with(ascii_lower(n), ".mov"@) || ends_with(ascii_lower(n), ".mp4"@) || ends_with(ascii_lower(n), ".mpeg"@) || ends_with(ascii_lower(n), ".mpg"@) || ends_with(ascii_lower(n), ".wmv"@))),
{
    reveal_strlit("avi");
    reveal_strlit(".avi");
    assert(seq!['.'] + "avi"@ =~= ".avi"@);
    reveal_strlit("mkv");
    reveal_strlit(".mkv");
    assert(seq!['.'] + "mkv"@ =~= ".mkv"@);
    reveal_strlit("mov");
    reveal_strlit(".mov");
    assert(seq!['.'] + "mov"@ =~= ".mov"@);
    reveal_strlit("mp4");
    reveal_strlit(".mp4");
    assert(seq!['.'] + "mp4"@ =~= ".mp4"@);
    reveal_strlit("mpeg");
    reveal_strlit(".mpeg");
    assert(seq!['.'] + "mpeg"@ =~= ".mpeg"@);
    reveal_strlit("mpg");
    reveal_strlit(".mpg");
    assert(seq!['.'] + "mpg"@ =~= ".mpg"@);
    reveal_strlit("wmv");
    reveal_strlit(".wmv");
    assert(seq!['.'] + "wmv"@ =~= ".wmv"@);
    let l = builtin_extensions(DuplicateFileType::Video);
    if extension_allowed(path, Some(l)) {
        let n = file_name_of(path)->Some_0;
        let k = choose|k: int| 0 <= k < l.len() && ends_with(ascii_lower(n), seq!['.'] + #[trigger] l[k]);
        if k == 0 {
            assert(l[k] == "avi"@);
        } else if k == 1 {
            assert(l[k] == "mkv"@);
        } else if k == 2 {
            assert(l[k] == "mov"@);
        } else if k == 3 {
            assert(l[k] == "mp4"@);
        } else if k == 4 {
            assert(l[k] == "mpeg"@);
        } else if k == 5 {
            assert(l[k] == "mpg"@);
        } else if k == 6 {
            assert(l[k] == "wmv"@);
        }
    }
    if file_name_of(path) is Some {
        let n = file_name_of(path)->Some_0;
        if ends_with(ascii_lower(n), ".avi"@) {
            assert(l[0] == "avi"@);
            lemma_extension_allowed_intro(path, l, n, 0);
        } else if ends_with(ascii_lower(n), ".mkv"@) {
            assert(l[1] == "mkv"@);
            lemma_extension_allowed_intro(path, l, n, 1);
        } else if ends_with(ascii_lower(n), ".mov"@) {
            assert(l[2] == "mov"@);
            lemma_extension_allowed_intro(path, l, n, 2);
        } else if ends_with(ascii_lower(n), ".mp4"@) {
            assert(l[3] == "mp4"@);
            lemma_extension_allowed_intro(path, l, n, 3);
        } else if ends_with(ascii_lower(n), ".mpeg"@) {
            assert(l[4] == "mpeg"@);
            lemma_extension_allowed_intro(path, l, n, 4);
        } else if ends_with(ascii_lower(n), ".mpg"@) {
            assert(l[5] == "mpg"@);
            lemma_extension_allowed_intro(path, l, n, 5);
        } else if ends_with(ascii_lower(n), ".wmv"@) {
            assert(l[6] == "wmv"@);
            lemma_extension_allowed_intro(path, l, n, 6);
        }
    }
}

/// A scan limited to archive files keeps exactly the files whose name ends, in
/// any ASCII case, with .7z, .gz, .rar, .tar, .tgz or .zip.
pub proof fn law_archive_scan_extensions(path: Seq<char>)
    ensures
        extension_allowed(path, Some(builtin_extensions(DuplicateFileType::Archive))) <==> (file_name_of(path) matches Some(n)
            && (ends_with(ascii_lower(n), ".7z"@) || ends_with(ascii_lower(n), ".gz"@) || ends_with(ascii_lower(n), ".rar"@) || ends_with(ascii_lower(n), ".tar"@) || ends_with(ascii_lower(n), ".tgz"@) || ends_with(ascii_lower(n), ".zip"@))),
{
    reveal_strlit("7z");
    reveal_strlit(".7z");
    assert(seq!['.'] + "7z"@ =~= ".7z"@);
    reveal_strlit("gz");
    reveal_strlit(".gz");
    assert(seq!['.'] + "gz"@ =~= ".gz"@);
    reveal_strlit("rar");
    reveal_strlit(".rar");
    assert(seq!['.'] + "rar"@ =~= ".rar"@);
    reveal_strlit("tar");
    reveal_strlit(".tar");
    assert(seq!['.'] + "tar"@ =~= ".tar"@);
    reveal_strlit("tgz");
    reveal_strlit(".tgz");
    assert(seq!['.'] + "tgz"@ =~= ".tgz"@);
    reveal_strlit("zip");
    reveal_strlit(".zip");
    assert(seq!['.'] + "zip"@ =~= ".zip"@);
    let l = builtin_extensions(DuplicateFileType::Archive);
    if extension_allowed(path, Some(l)) {
        let n = file_name_of(path)->Some_0;
        let k = choose|k: int| 0 <= k < l.len() && ends_with(ascii_lower(n), seq!['.'] + #[trigger] l[k]);
        if k == 0 {
            assert(l[k] == "7z"@);
        } else if k == 1 {
            assert(l[k] == "gz"@);
        } else if k == 2 {
            assert(l[k] == "rar"@);
        } else if k == 3 {
            assert(l[k] == "tar"@);
        } else if k == 4 {
            assert(l[k] == "tgz"@);
        } else if k == 5 {
            assert(l[k] == "zip"@);
        }
    }
    if file_name_of(path) is Some {
        let n = file_name_of(path)->Some_0;
        if ends_with(ascii_lower(n), ".7z"@) {
            assert(l[0] == "7z"@);
            lemma_extension_allowed_intro(path, l, n, 0);
        } else if ends_with(ascii_lower(n), ".gz"@) {
            assert(l[1] == "gz"@);
            lemma_extension_allowed_intro(path, l, n, 1);
        } else if ends_with(ascii_lower(n), ".rar"@) {
            assert(l[2] == "rar"@);
            lemma_extension_allowed_intro(path, l, n, 2);
        } else if ends_with(ascii_lower(n), ".tar"@) {
            assert(l[3] == "tar"@);
            lemma_extension_allowed_intro(path, l, n, 3);
        } else if ends_with(ascii_lower(n), ".tgz"@) {
            assert(l[4] == "tgz"@);
            lemma_extension_allowed_intro(path, l, n, 4);
        } else if ends_with(ascii_lower(n), ".zip"@) {
            assert(l[5] == "zip"@);
            lemma_extension_allowed_intro(path, l, n, 5);
        }
    }
}

/// A scan limited to custom extensions keeps no file for its file type
/// alone.
pub proof fn law_custom_type_adds_no_extension(path: Seq<char>)
    ensures
        !extension_allowed(path, Some(builtin_extensions(DuplicateFileType::Custom))),
{
}

proof fn lemma_builtin_concat_contains(file_types: Seq<DuplicateFileType>, g: int, k: int)
    requires
        0 <= g < file_types.len(),
        0 <= k < builtin_extensions(file_types[g]).len(),
    ensures
        builtin_concat(file_types).contains(builtin_extensions(file_types[g])[k]),
    decreases file_types.len(),
{
    let init = file_types.drop_last();
    let last = builtin_extensions(file_types.last());
    if g == file_types.len() - 1 {
        assert((builtin_concat(init) + last)[builtin_concat(init).len() + k] == last[k]);
    } else {
        lemma_builtin_concat_contains(init, g, k);
        let j = choose|j: int| 0 <= j < builtin_concat(init).len() && builtin_concat(init)[j] == builtin_extensions(file_types[g])[k];
        assert((builtin_concat(init) + last)[j] == builtin_concat(init)[j]);
    }
}

/// A scan asked for a file type keeps every file of that type (see the
/// laws above), whatever other file types and custom extensions it is also
/// asked for.
pub proof fn law_scan_keeps_files_of_each_asked_type(
    path: Seq<char>,
    file_types: Seq<DuplicateFileType>,
    custom_extensions: Seq<Seq<char>>,
    g: int,
)
    requires
        0 <= g < file_types.len(),
        extension_allowed(path, Some(builtin_extensions(file_types[g]))),
    ensures
        extension_allowed(path, Some(allowed_list(file_types, custom_extensions))),
{
    let n = file_name_of(path)->Some_0;
    let l = builtin_extensions(file_types[g]);
    let k = choose|k: int| 0 <= k < l.len() && ends_with(ascii_lower(n), seq!['.'] + #[trigger] l[k]);
    lemma_builtin_concat_contains(file_types, g, k);
    let all = allowed_list(file_types, custom_extensions);
    let c = builtin_concat(file_types);
    let j = choose|j: int| 0 <= j < c.len() && c[j] == l[k];
    assert(all[j] == c[j]);
    lemma_extension_allowed_intro(path, all, n, j);
}

} // verus!
