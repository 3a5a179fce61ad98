//! Moving large files to another folder: where a copy may go, how much
//! space it needs, and how each item's outcome is counted.
use vstd::prelude::*;

use crate::text::{
    chars_eq, concat_str, decimal, decimal_string, from_chars, string_of, to_chars, trim, trim_chars,
};
use crate::v2::duplicate::{drive_is_c, is_c_drive_label};
use crate::v2::duplicate_run::{content_hash, merged_paths, sha256_hex};
use crate::v2::large_files::{copy_large_entry, progress_payload, LargeFileBackendEntry, LargeFileRegistry};
use crate::v2::recycle_bin::{RecycleBin, RecycleBinError};
use crate::ids::new_identifier;
use crate::v2::models::{
    HistoryEntry, LargeFileCategory, LargeFileItem, MigrationItemResult, MigrationItemStatus, MigrationResult,
    OperationModule, OperationProgressPayload, OperationStatus, OriginalFilePolicy,
};
use crate::v2::path_safety::{extension_chars, extension_of_name, file_name_chars, file_name_of, stem_chars, stem_of_name};
use crate::v2::path_safety::{
    is_local_drive_absolute, is_local_windows_drive_absolute_path, is_sep, key_is_same_or_child,
    last_sep_index, path_key, path_key_chars, same_or_child, views,
};

verus! {

/// Why one item of a migration did not complete normally.
#[derive(Debug)]
pub enum ItemFailure {
    /// The operation was cancelled before anything was copied.
    Cancelled,
    /// The operation was cancelled after the item was copied.
    CancelledAfterCopy(MigrationItemResult),
    /// The item failed, with a message free of paths and names.
    Failed(String),
}

/// The folder a migration copies into: the trimmed target text, which must
/// be non-empty and an absolute path on a local drive.
pub open spec fn resolved_target(target_folder: Seq<char>) -> Result<Seq<char>, Seq<char>> {
    let t = trim(target_folder);
    if t.len() == 0 {
        Err("目标文件夹不能为空"@)
    } else if !is_local_drive_absolute(t) {
        Err("目标文件夹必须是本地磁盘绝对路径"@)
    } else {
        Ok(t)
    }
}

/// The folder a migration copies into (see `resolved_target`); the source
/// file plays no part.
pub fn resolve_target_folder(target_folder: &str, source_path: &str) -> (r: Result<String, ItemFailure>)
    ensures
        match resolved_target(target_folder@) {
            Ok(t) => r matches Ok(s) && s@ == t,
            Err(m) => r matches Err(ItemFailure::Failed(s)) && s@ == m,
        },
{
    let trimmed = trim_chars(&to_chars(target_folder));
    if trimmed.len() == 0 {
        return Err(ItemFailure::Failed(string_of("目标文件夹不能为空")));
    }
    let text = from_chars(&trimmed);
    if !is_local_windows_drive_absolute_path(text.as_str()) {
        return Err(ItemFailure::Failed(string_of("目标文件夹必须是本地磁盘绝对路径")));
    }
    Ok(text)
}

/// The path, with `/` read as `\`, has a `..` segment.
pub open spec fn has_parent_segment(p: Seq<char>) -> bool {
    exists|i: int|
        0 <= i && i + 2 <= p.len() && #[trigger] p[i] == '.' && p[i + 1] == '.' && (i == 0 || is_sep(p[i - 1]))
            && (i + 2 == p.len() || is_sep(p[i + 2]))
}

fn parent_segment_at(p: &Vec<char>, i: usize) -> (r: bool)
    requires
        i + 1 < p.len(),
    ensures
        r == (p@[i as int] == '.' && p@[i + 1] == '.' && (i == 0 || is_sep(p@[i - 1])) && (i + 2 == p@.len()
            || is_sep(p@[i + 2]))),
{
    p[i] == '.' && p[i + 1] == '.' && (i == 0 || p[i - 1] == '\\' || p[i - 1] == '/') && (i + 1 == p.len()
        - 1 || p[i + 2] == '\\' || p[i + 2] == '/')
}

/// `Err` when the path climbs to a parent folder with `..`.
pub fn reject_parent_dir_traversal(path: &str) -> (r: Result<(), String>)
    ensures
        has_parent_segment(path@) ==> (r matches Err(m) && m@ == "目标位置不能包含上级目录跳转"@),
        !has_parent_segment(path@) ==> r is Ok,
{
    let p = to_chars(path);
    if p.len() < 2 {
        proof {
            assert(!has_parent_segment(path@));
        }
        return Ok(());
    }
    let mut i: usize = 0;
    while i < p.len() - 1
        invariant
            p@ == path@,
            p@.len() >= 2,
            i <= p@.len() - 1,
            forall|j: int|
                0 <= j < i ==> !(#[trigger] p@[j] == '.' && p@[j + 1] == '.' && (j == 0 || is_sep(p@[j - 1]))
                    && (j + 2 == p@.len() || is_sep(p@[j + 2]))),
        decreases p@.len() - i,
    {
        if parent_segment_at(&p, i) {
            return Err(string_of("目标位置不能包含上级目录跳转"));
        }
        i += 1;
    }
    Ok(())
}

/// The folder that holds a path: the text before its last separator
/// (trailing separators ignored); none for an empty path or a bare drive or
/// root.
pub open spec fn parent_dir_of(p: Seq<char>) -> Option<Seq<char>> {
    let t = crate::text::trim_end_by(p, |c: char| is_sep(c));
    if t.len() == 0 || (t.len() == 2 && crate::text::is_ascii_alpha(t[0]) && t[1] == ':') {
        None
    } else if last_sep_index(t) < 0 {
        Some(Seq::empty())
    } else {
        Some(t.take(last_sep_index(t)))
    }
}

/// `key` is `parent` or lies below it (an empty parent contains every key
/// that starts with a separator).
pub open spec fn inside_or_same(key: Seq<char>, parent: Seq<char>) -> bool {
    key == parent || (crate::text::starts_with(key, parent) && key.len() > parent.len() && key[parent.len() as int]
        == '\\')
}

fn inside_or_same_exec(key: &Vec<char>, parent: &Vec<char>) -> (r: bool)
    ensures
        r == inside_or_same(key@, parent@),
{
    chars_eq(key, parent) || (crate::text::chars_start_with(key, parent) && key.len() > parent.len()
        && key[parent.len()] == '\\')
}

/// The folder that holds a path (see `parent_dir_of`).
pub fn parent_dir(path: &str) -> (r: Option<String>)
    ensures
        match r {
            Some(s) => parent_dir_of(path@) == Some(s@),
            None => parent_dir_of(path@) is None,
        },
{
    let t = crate::v2::path_safety::trailing_separators_trimmed(&to_chars(path));
    if t.len() == 0 || (t.len() == 2 && crate::text::char_is_ascii_alpha(t[0]) && t[1] == ':') {
        return None;
    }
    let i = crate::v2::path_safety::last_sep_index_exec(&t);
    if i == 0 {
        Some(String::new())
    } else {
        Some(from_chars(&crate::text::slice_chars(&t, 0, i - 1)))
    }
}

/// What checking a migration target gives: the target must not climb with
/// `..`, must not lie under a link (`target_link_ancestor` says whether one
/// of its folders is a symbolic link or reparse point, or could not be
/// read), and must lie outside the source file's folder.
pub open spec fn target_check(source_file: Seq<char>, target_folder: Seq<char>, target_link_ancestor: bool) -> Result<(), Seq<char>> {
    if has_parent_segment(target_folder) {
        Err("目标位置不能包含上级目录跳转"@)
    } else if target_link_ancestor {
        Err("目标位置不能位于符号链接目录内"@)
    } else {
        match parent_dir_of(source_file) {
            None => Err("无法识别源文件目录"@),
            Some(parent) => if inside_or_same(path_key(target_folder), path_key(parent)) {
                Err("目标位置不能位于源文件目录内"@)
            } else {
                Ok(())
            },
        }
    }
}

/// Checks a migration target against its source file (see `target_check`).
pub fn validate_migration_target(source_file: &str, target_folder: &str, target_link_ancestor: bool) -> (r: Result<(), String>)
    ensures
        match target_check(source_file@, target_folder@, target_link_ancestor) {
            Ok(()) => r is Ok,
            Err(m) => r matches Err(s) && s@ == m,
        },
{
    reject_parent_dir_traversal(target_folder)?;
    if target_link_ancestor {
        return Err(string_of("目标位置不能位于符号链接目录内"));
    }
    let parent = match parent_dir(source_file) {
        Some(p) => p,
        None => return Err(string_of("无法识别源文件目录")),
    };
    let parent_key = path_key_chars(&to_chars(parent.as_str()));
    let target_key = path_key_chars(&to_chars(target_folder));
    if inside_or_same_exec(&target_key, &parent_key) {
        return Err(string_of("目标位置不能位于源文件目录内"));
    }
    Ok(())
}

/// The protected locations a migration target must stay out of.
pub open spec fn protected_target_keys() -> Seq<Seq<char>> {
    seq!["c:\\windows"@, "c:\\program files"@, "c:\\program files (x86)"@, "c:\\programdata"@]
}

/// The target lies in a system folder or in one of the protected paths.
pub open spec fn target_is_protected(target_folder: Seq<char>, protected_paths: Seq<Seq<char>>) -> bool {
    (exists|k: int| 0 <= k < 4 && same_or_child(path_key(target_folder), #[trigger] protected_target_keys()[k]))
        || (exists|k: int| 0 <= k < protected_paths.len() && same_or_child(path_key(target_folder), path_key(#[trigger] protected_paths[k])))
}

/// What checking a target against the protected locations gives.
pub open spec fn protected_target_check(target_folder: Seq<char>, protected_paths: Seq<Seq<char>>, target_link_ancestor: bool) -> Result<(), Seq<char>> {
    if has_parent_segment(target_folder) {
        Err("目标位置不能包含上级目录跳转"@)
    } else if target_link_ancestor {
        Err("目标位置不能位于符号链接目录内"@)
    } else if target_is_protected(target_folder, protected_paths) {
        Err("目标位置不能位于受保护目录内"@)
    } else {
        Ok(())
    }
}

/// Checks that a migration target stays out of protected locations (see
/// `protected_target_check`).
pub fn reject_protected_target(target_folder: &str, protected_paths: &Vec<String>, target_link_ancestor: bool) -> (r: Result<(), String>)
    ensures
        match protected_target_check(target_folder@, views(protected_paths@), target_link_ancestor) {
            Ok(()) => r is Ok,
            Err(m) => r matches Err(s) && s@ == m,
        },
{
    reject_parent_dir_traversal(target_folder)?;
    if target_link_ancestor {
        return Err(string_of("目标位置不能位于符号链接目录内"));
    }
    let key = path_key_chars(&to_chars(target_folder));
    let system = [
        to_chars("c:\\windows"),
        to_chars("c:\\program files"),
        to_chars("c:\\program files (x86)"),
        to_chars("c:\\programdata"),
    ];
    let mut k: usize = 0;
    while k < 4
        invariant
            k <= 4,
            key@ == path_key(target_folder@),
            forall|j: int| 0 <= j < 4 ==> (#[trigger] system@[j])@ == protected_target_keys()[j],
            forall|j: int| 0 <= j < k ==> !same_or_child(key@, #[trigger] protected_target_keys()[j]),
            !has_parent_segment(target_folder@),
            !target_link_ancestor,
        decreases 4 - k,
    {
        if key_is_same_or_child(&key, &system[k]) {
            proof {
                assert(same_or_child(path_key(target_folder@), protected_target_keys()[k as int]));
                assert(target_is_protected(target_folder@, views(protected_paths@)));
            }
            return Err(string_of("目标位置不能位于受保护目录内"));
        }
        k += 1;
    }
    let mut p: usize = 0;
    while p < protected_paths.len()
        invariant
            p <= protected_paths@.len(),
            key@ == path_key(target_folder@),
            forall|j: int| 0 <= j < 4 ==> !same_or_child(key@, #[trigger] protected_target_keys()[j]),
            forall|j: int| 0 <= j < p ==> !same_or_child(key@, path_key(#[trigger] views(protected_paths@)[j])),
            !has_parent_segment(target_folder@),
            !target_link_ancestor,
        decreases protected_paths@.len() - p,
    {
        let pk = path_key_chars(&to_chars(protected_paths[p].as_str()));
        proof {
            assert(views(protected_paths@)[p as int] == protected_paths@[p as int]@);
        }
        if key_is_same_or_child(&key, &pk) {
            proof {
                assert(same_or_child(path_key(target_folder@), path_key(views(protected_paths@)[p as int])));
                assert(target_is_protected(target_folder@, views(protected_paths@)));
            }
            return Err(string_of("目标位置不能位于受保护目录内"));
        }
        p += 1;
    }
    Ok(())
}

/// Checks a migration target against the protected paths from the
/// settings (see `protected_target_check`).
pub fn target_conflicts_with_backend_protected_paths_for_test(
    target_folder: &str,
    backend_protected_paths: &Vec<String>,
    target_link_ancestor: bool,
) -> (r: Result<(), String>)
    ensures
        match protected_target_check(target_folder@, views(backend_protected_paths@), target_link_ancestor) {
            Ok(()) => r is Ok,
            Err(m) => r matches Err(s) && s@ == m,
        },
{
    reject_protected_target(target_folder, backend_protected_paths, target_link_ancestor)
}

/// The mount at `mount_key` holds the target: the key is the target's or a
/// folder above it.
pub fn mount_key_matches_target(target_key: &str, mount_key: &str) -> (r: bool)
    ensures
        r == same_or_child(target_key@, mount_key@),
{
    key_is_same_or_child(&to_chars(target_key), &to_chars(mount_key))
}

/// Mount `i` holds the target and no mount that holds it has a longer key;
/// among equally long keys the last one is taken.
pub open spec fn is_last_best_mount(target_key: Seq<char>, keys: Seq<Seq<char>>, i: int) -> bool {
    &&& 0 <= i < keys.len()
    &&& same_or_child(target_key, keys[i])
    &&& forall|j: int| 0 <= j < keys.len() && same_or_child(target_key, #[trigger] keys[j]) ==> keys[j].len() <= keys[i].len()
    &&& forall|j: int| i < j < keys.len() && same_or_child(target_key, #[trigger] keys[j]) ==> keys[j].len() < keys[i].len()
}

/// Some mount holds the target.
pub open spec fn some_mount_matches(target_key: Seq<char>, keys: Seq<Seq<char>>) -> bool {
    exists|j: int| 0 <= j < keys.len() && same_or_child(target_key, #[trigger] keys[j])
}

/// `m` is the key of the mount chosen for the target (see `is_last_best_mount`).
pub open spec fn best_mount_key(target_key: Seq<char>, keys: Seq<Seq<char>>, m: Seq<char>) -> bool {
    exists|i: int| #[trigger] is_last_best_mount(target_key, keys, i) && keys[i] == m
}

/// The key of the mount that holds the target with the longest key (the
/// last one among equals), or `None` when no mount holds it.
pub fn select_best_mount_key_for_target(target_key: &str, mount_keys: &Vec<String>) -> (r: Option<String>)
    ensures
        r is None <==> !some_mount_matches(target_key@, views(mount_keys@)),
        r matches Some(m) ==> best_mount_key(target_key@, views(mount_keys@), m@),
{
    let ghost keys = views(mount_keys@);
    let mut best: Option<usize> = None;
    let mut i: usize = 0;
    while i < mount_keys.len()
        invariant
            i <= mount_keys@.len(),
            keys == views(mount_keys@),
            best is None <==> !(exists|j: int| 0 <= j < i && same_or_child(target_key@, #[trigger] keys[j])),
            best matches Some(b) ==> (b < i && is_last_best_mount(target_key@, keys.take(i as int), b as int)),
        decreases mount_keys@.len() - i,
    {
        let ghost old_best = best;
        proof {
            assert(keys[i as int] == mount_keys@[i as int]@);
        }
        if mount_key_matches_target(target_key, mount_keys[i].as_str()) {
            let better = match best {
                None => true,
                Some(b) => to_chars(mount_keys[i].as_str()).len() >= to_chars(mount_keys[b].as_str()).len(),
            };
            if better {
                best = Some(i);
            }
        }
        proof {
            let t = keys.take(i + 1);
            assert forall|j: int| 0 <= j < i implies #[trigger] t[j] == keys.take(i as int)[j] by {}
            match best {
                Some(b) => {
                    assert(keys[b as int] == mount_keys@[b as int]@);
                    if b == i {
                        match old_best {
                            Some(ob) => {
                                assert forall|j: int| 0 <= j < t.len() && same_or_child(target_key@, #[trigger] t[j]) implies t[j].len() <= t[b as int].len() by {
                                    if j < i {
                                        assert(keys.take(i as int)[j] == t[j]);
                                        assert(keys.take(i as int)[ob as int] == keys[ob as int]);
                                        assert(keys[ob as int] == mount_keys@[ob as int]@);
                                    }
                                }
                            },
                            None => {
                                assert forall|j: int| 0 <= j < t.len() && same_or_child(target_key@, #[trigger] t[j]) implies t[j].len() <= t[b as int].len() by {
                                    if j < i {
                                        assert(keys.take(i as int)[j] == t[j]);
                                        assert(exists|q: int| 0 <= q < i && same_or_child(target_key@, #[trigger] keys[q]));
                                    }
                                }
                            },
                        }
                    } else {
                        assert(keys.take(i as int)[b as int] == t[b as int]);
                        assert forall|j: int| 0 <= j < t.len() && same_or_child(target_key@, #[trigger] t[j]) implies t[j].len() <= t[b as int].len() by {
                            if j < i {
                                assert(keys.take(i as int)[j] == t[j]);
                            }
                        }
                        assert forall|j: int| b < j < t.len() && same_or_child(target_key@, #[trigger] t[j]) implies t[j].len() < t[b as int].len() by {
                            if j < i {
                                assert(keys.take(i as int)[j] == t[j]);
                            }
                        }
                    }
                },
                None => {},
            }
        }
        i += 1;
    }
    proof {
        assert(keys.take(mount_keys@.len() as int) =~= keys);
    }
    match best {
        Some(b) => {
            proof {
                assert(is_last_best_mount(target_key@, keys, b as int));
                assert(keys[b as int] == mount_keys@[b as int]@);
            }
            Some(mount_keys[b].clone())
        },
        None => None,
    }
}

/// The key of the best mount for the target (see
/// `select_best_mount_key_for_target`).
pub fn select_best_mount_key_for_target_for_test(target_key: &str, mount_keys: &Vec<String>) -> (r: Option<String>)
    ensures
        r is None <==> !some_mount_matches(target_key@, views(mount_keys@)),
        r matches Some(m) ==> best_mount_key(target_key@, views(mount_keys@), m@),
{
    select_best_mount_key_for_target(target_key, mount_keys)
}

/// Mount `i` holds the target and no mount that holds it has a longer key;
/// among equally long keys the first one is taken.
pub open spec fn is_first_best_mount(target_key: Seq<char>, keys: Seq<Seq<char>>, i: int) -> bool {
    &&& 0 <= i < keys.len()
    &&& same_or_child(target_key, keys[i])
    &&& forall|j: int| 0 <= j < keys.len() && same_or_child(target_key, #[trigger] keys[j]) ==> keys[j].len() <= keys[i].len()
    &&& forall|j: int| 0 <= j < i && same_or_child(target_key, #[trigger] keys[j]) ==> keys[j].len() < keys[i].len()
}

/// The keys of the mounts.
pub open spec fn mount_keys_of(mounts: Seq<(String, u64)>) -> Seq<Seq<char>> {
    Seq::new(mounts.len(), |j: int| mounts[j].0@)
}

/// The free bytes of the mounts.
pub open spec fn mount_spaces_of(mounts: Seq<(String, u64)>) -> Seq<u64> {
    Seq::new(mounts.len(), |j: int| mounts[j].1)
}

/// The space check against the mount chosen for the target (see
/// `is_first_best_mount`): no mount holds it, or it has less space than
/// needed, or enough.
pub open spec fn space_check(target_key: Seq<char>, needed_bytes: u64, keys: Seq<Seq<char>>, spaces: Seq<u64>) -> Result<(), Seq<char>> {
    if !some_mount_matches(target_key, keys) {
        Err("无法识别目标磁盘"@)
    } else if exists|i: int| #[trigger] is_first_best_mount(target_key, keys, i) && spaces[i] < needed_bytes {
        Err("目标磁盘空间不足"@)
    } else {
        Ok(())
    }
}

/// Whether the mount that holds the target has the space needed (see
/// `space_check`); `mounts` pairs each mount's key with its free bytes.
pub fn ensure_available_space_for_mounts(target_key: &str, needed_bytes: u64, mounts: &Vec<(String, u64)>) -> (r: Result<(), String>)
    ensures
        match space_check(target_key@, needed_bytes, mount_keys_of(mounts@), mount_spaces_of(mounts@)) {
            Ok(()) => r is Ok,
            Err(m) => r matches Err(s) && s@ == m,
        },
{
    let ghost keys = mount_keys_of(mounts@);
    let mut best: Option<usize> = None;
    let mut i: usize = 0;
    while i < mounts.len()
        invariant
            i <= mounts@.len(),
            keys == mount_keys_of(mounts@),
            best is None <==> !(exists|j: int| 0 <= j < i && same_or_child(target_key@, #[trigger] keys[j])),
            best matches Some(b) ==> (b < i && is_first_best_mount(target_key@, keys.take(i as int), b as int)),
        decreases mounts@.len() - i,
    {
        let ghost old_best = best;
        if mount_key_matches_target(target_key, mounts[i].0.as_str()) {
            let better = match best {
                None => true,
                Some(b) => to_chars(mounts[i].0.as_str()).len() > to_chars(mounts[b].0.as_str()).len(),
            };
            if better {
                best = Some(i);
            }
        }
        proof {
            let t = keys.take(i + 1);
            assert(keys[i as int] == mounts@[i as int].0@);
            assert forall|j: int| 0 <= j < i implies #[trigger] t[j] == keys.take(i as int)[j] by {}
            match best {
                Some(b) => {
                    assert(keys[b as int] == mounts@[b as int].0@);
                    if b == i {
                        match old_best {
                            Some(ob) => {
                                assert(keys[ob as int] == mounts@[ob as int].0@);
                                assert forall|j: int| 0 <= j < t.len() && same_or_child(target_key@, #[trigger] t[j]) implies t[j].len() <= t[b as int].len() by {
                                    if j < i {
                                        assert(keys.take(i as int)[j] == t[j]);
                                        assert(keys.take(i as int)[ob as int] == keys[ob as int]);
                                    }
                                }
                                assert forall|j: int| 0 <= j < b && same_or_child(target_key@, #[trigger] t[j]) implies t[j].len() < t[b as int].len() by {
                                    assert(keys.take(i as int)[j] == t[j]);
                                    assert(keys.take(i as int)[ob as int] == keys[ob as int]);
                                }
                            },
                            None => {
                                assert forall|j: int| 0 <= j < t.len() && same_or_child(target_key@, #[trigger] t[j]) implies t[j].len() <= t[b as int].len() by {
                                    if j < i {
                                        assert(keys.take(i as int)[j] == t[j]);
                                    }
                                }
                                assert forall|j: int| 0 <= j < b && same_or_child(target_key@, #[trigger] t[j]) implies t[j].len() < t[b as int].len() by {
                                    assert(keys.take(i as int)[j] == t[j]);
                                }
                            },
                        }
                    } else {
                        assert(keys.take(i as int)[b as int] == t[b as int]);
                        assert forall|j: int| 0 <= j < t.len() && same_or_child(target_key@, #[trigger] t[j]) implies t[j].len() <= t[b as int].len() by {
                            if j < i {
                                assert(keys.take(i as int)[j] == t[j]);
                            }
                        }
                        assert forall|j: int| 0 <= j < b && same_or_child(target_key@, #[trigger] t[j]) implies t[j].len() < t[b as int].len() by {
                            assert(keys.take(i as int)[j] == t[j]);
                        }
                    }
                },
                None => {},
            }
        }
        i += 1;
    }
    proof {
        assert(keys.take(mounts@.len() as int) =~= keys);
    }
    match best {
        None => Err(string_of("无法识别目标磁盘")),
        Some(b) => {
            proof {
                assert(is_first_best_mount(target_key@, keys, b as int));
                assert forall|i2: int| #[trigger] is_first_best_mount(target_key@, keys, i2) implies i2 == b by {
                    if i2 < b {
                        assert(keys[i2].len() < keys[b as int].len());
                    } else if i2 > b {
                        assert(keys[b as int].len() < keys[i2].len());
                    }
                }
            }
            if mounts[b].1 < needed_bytes {
                Err(string_of("目标磁盘空间不足"))
            } else {
                Ok(())
            }
        },
    }
}

/// The space check for a target folder (see `space_check`), with the mount
/// points given as paths.
pub fn ensure_available_space_for_test(target_folder: &str, needed_bytes: u64, mounts: &Vec<(String, u64)>) -> (r: Result<(), String>)
    ensures
        match space_check(
            path_key(target_folder@),
            needed_bytes,
            Seq::new(mounts@.len(), |j: int| path_key(mounts@[j].0@)),
            mount_spaces_of(mounts@),
        ) {
            Ok(()) => r is Ok,
            Err(m) => r matches Err(s) && s@ == m,
        },
{
    let target_key = from_chars(&path_key_chars(&to_chars(target_folder)));
    let mut keyed: Vec<(String, u64)> = Vec::new();
    let mut i: usize = 0;
    while i < mounts.len()
        invariant
            i <= mounts@.len(),
            keyed@.len() == i,
            forall|j: int| 0 <= j < i ==> (#[trigger] keyed@[j]).0@ == path_key(mounts@[j].0@) && keyed@[j].1 == mounts@[j].1,
        decreases mounts@.len() - i,
    {
        let key = from_chars(&path_key_chars(&to_chars(mounts[i].0.as_str())));
        keyed.push((key, mounts[i].1));
        i += 1;
    }
    proof {
        assert(mount_keys_of(keyed@) =~= Seq::new(mounts@.len(), |j: int| path_key(mounts@[j].0@)));
        assert(mount_spaces_of(keyed@) =~= mount_spaces_of(mounts@));
    }
    ensure_available_space_for_mounts(target_key.as_str(), needed_bytes, &keyed)
}

/// How a migration ended: cancelled when it stopped early, else completed.
pub fn migration_operation_status(
    migration_result: &Result<MigrationResult, MigrationResult>,
    cancelled_after_completion: bool,
) -> (r: OperationStatus)
    ensures
        migration_result is Err ==> r == OperationStatus::Cancelled,
        migration_result is Ok ==> r == OperationStatus::Completed,
{
    match migration_result {
        Err(_) => OperationStatus::Cancelled,
        Ok(_) => OperationStatus::Completed,
    }
}

/// How a migration ended (see `migration_operation_status`).
pub fn migration_operation_status_for_test(
    migration_result: &Result<MigrationResult, MigrationResult>,
    cancelled_after_completion: bool,
) -> (r: OperationStatus)
    ensures
        migration_result is Err ==> r == OperationStatus::Cancelled,
        migration_result is Ok ==> r == OperationStatus::Completed,
{
    migration_operation_status(migration_result, cancelled_after_completion)
}

/// The file name tried for a copy at attempt `index`: the source's own name
/// first, then `stem (index).extension` (or `stem (index)` without an
/// extension); none when the source has no file name.
pub open spec fn target_name_candidate(source_path: Seq<char>, index: nat) -> Option<Seq<char>> {
    match file_name_of(source_path) {
        None => None,
        Some(name) => if index == 0 {
            Some(name)
        } else {
            let base = stem_of_name(name) + " ("@ + decimal(index) + ")"@;
            match extension_of_name(name) {
                Some(e) => if e.len() > 0 {
                    Some(base + "."@ + e)
                } else {
                    Some(base)
                },
                None => Some(base),
            }
        },
    }
}

/// The file name tried for a copy at attempt `index` (see
/// `target_name_candidate`); a migration tries attempts 0 to 999.
pub fn target_file_name(source_path: &str, index: u64) -> (r: Option<String>)
    ensures
        match target_name_candidate(source_path@, index as nat) {
            Some(n) => r matches Some(s) && s@ == n,
            None => r is None,
        },
{
    let name = match file_name_chars(&to_chars(source_path)) {
        None => return None,
        Some(n) => n,
    };
    if index == 0 {
        return Some(from_chars(&name));
    }
    let stem = from_chars(&stem_chars(&name));
    let number = decimal_string(index);
    let base = concat_str(concat_str(concat_str(stem.as_str(), " (").as_str(), number.as_str()).as_str(), ")");
    match extension_chars(&name) {
        Some(e) => {
            if e.len() > 0 {
                let ext = from_chars(&e);
                Some(concat_str(concat_str(base.as_str(), ".").as_str(), ext.as_str()))
            } else {
                Some(base)
            }
        },
        None => Some(base),
    }
}

/// The percentage shown while a migration runs: 100 when there is nothing
/// to do, else from 5 to 99 as items are processed.
pub open spec fn migration_percent(processed_items: u64, total_items: u64) -> int {
    if total_items == 0 {
        100
    } else {
        let scaled = if processed_items * 94 > u64::MAX {
            u64::MAX as int
        } else {
            processed_items * 94
        };
        5 + if scaled / (total_items as int) < 94 {
            scaled / (total_items as int)
        } else {
            94
        }
    }
}

/// The progress report of a running migration.
pub fn migration_progress(
    operation_id: &str,
    report: &MigrationResult,
    processed_items: u64,
    total_items: u64,
    current_location_hint: &str,
) -> (r: OperationProgressPayload)
    ensures
        r.operation_id@ == operation_id@,
        r.module == OperationModule::LargeFileMigration,
        r.stage@ == "migrating"@,
        r.percent == migration_percent(processed_items, total_items),
        r.current_location_hint@ == current_location_hint@,
        r.current_file_type is None,
        r.scanned_files == 0 && r.found_groups == 0 && r.found_items == 0,
        r.found_bytes == report.total_freed_bytes,
        r.processed_items == processed_items,
        r.success_count == report.copied_count,
        r.skipped_count == report.skipped_count,
        r.failed_count == report.failed_count,
{
    let percent: u8 = if total_items == 0 {
        100
    } else {
        let product: u128 = (processed_items as u128) * 94;
        let scaled: u128 = if product > u64::MAX as u128 {
            u64::MAX as u128
        } else {
            product
        };
        let share: u128 = scaled / (total_items as u128);
        5 + if share < 94 {
            share as u8
        } else {
            94
        }
    };
    progress_payload(
        operation_id,
        OperationModule::LargeFileMigration,
        "migrating",
        percent,
        string_of(current_location_hint),
        0,
        0,
        0,
        report.total_freed_bytes,
        processed_items,
        report.copied_count,
        report.skipped_count,
        report.failed_count,
    )
}

/// The error categories recorded in history for a migration.
pub open spec fn migration_categories(report: MigrationResult) -> Seq<Seq<char>> {
    if report.skipped_count == 0 && report.failed_count == 0 {
        seq!["无错误"@]
    } else {
        (if report.skipped_count > 0 {
            seq!["跳过受保护或无效文件"@]
        } else {
            Seq::empty()
        }) + (if report.failed_count > 0 {
            seq!["迁移失败"@]
        } else {
            Seq::empty()
        })
    }
}

/// The error categories recorded in history for a migration.
pub fn migration_error_categories(report: &MigrationResult) -> (r: Vec<String>)
    ensures
        views(r@) == migration_categories(*report),
{
    let mut categories: Vec<String> = Vec::new();
    if report.skipped_count > 0 {
        categories.push(string_of("跳过受保护或无效文件"));
    }
    if report.failed_count > 0 {
        categories.push(string_of("迁移失败"));
    }
    if categories.len() == 0 {
        categories.push(string_of("无错误"));
    }
    assert(views(categories@) =~= migration_categories(*report));
    categories
}

/// The history record of a completed migration, under a fresh identifier:
/// the copied bytes are its total, the freed bytes not on drive C count as
/// freed elsewhere, copied items as successes, and its error categories are
/// the migration's.
pub fn migration_history_entry(report: &MigrationResult, started_at: String, finished_at: String) -> (r:
    HistoryEntry)
    ensures
        r.module == OperationModule::LargeFileMigration,
        r.started_at == started_at,
        r.finished_at == finished_at,
        r.total_bytes == report.total_copied_bytes,
        r.freed_bytes == report.total_freed_bytes,
        r.c_drive_freed_bytes == report.c_drive_freed_bytes,
        r.other_drive_freed_bytes == if report.total_freed_bytes >= report.c_drive_freed_bytes {
            report.total_freed_bytes - report.c_drive_freed_bytes
        } else {
            0
        },
        r.success_count == report.copied_count,
        r.skipped_count == report.skipped_count,
        r.failed_count == report.failed_count,
        views(r.error_categories@) == migration_categories(*report),
{
    HistoryEntry {
        history_id: new_identifier(),
        module: OperationModule::LargeFileMigration,
        started_at,
        finished_at,
        total_bytes: report.total_copied_bytes,
        freed_bytes: report.total_freed_bytes,
        c_drive_freed_bytes: report.c_drive_freed_bytes,
        other_drive_freed_bytes: report.total_freed_bytes.saturating_sub(report.c_drive_freed_bytes),
        success_count: report.copied_count,
        skipped_count: report.skipped_count,
        failed_count: report.failed_count,
        error_categories: migration_error_categories(report),
    }
}

/// The message a migration ends with: the cancellation message when it was
/// cancelled, none otherwise.
pub fn migration_end_message(status: OperationStatus) -> (r: Option<String>)
    ensures
        status == OperationStatus::Cancelled ==> (r matches Some(m) && m@ == "操作已取消"@),
        status != OperationStatus::Cancelled ==> r is None,
{
    if status == OperationStatus::Cancelled {
        Some(string_of("操作已取消"))
    } else {
        None
    }
}

/// The history record a migration leaves: one (see
/// `migration_history_entry`) only when it completed.
pub fn migration_history_record(
    status: OperationStatus,
    report: &MigrationResult,
    started_at: String,
    finished_at: String,
) -> (r: Option<HistoryEntry>)
    ensures
        r is Some <==> status == OperationStatus::Completed,
        r matches Some(h) ==> h.module == OperationModule::LargeFileMigration && h.started_at == started_at
            && h.finished_at == finished_at && h.total_bytes == report.total_copied_bytes && h.freed_bytes
            == report.total_freed_bytes && h.c_drive_freed_bytes == report.c_drive_freed_bytes
            && h.other_drive_freed_bytes == (if report.total_freed_bytes >= report.c_drive_freed_bytes {
            report.total_freed_bytes - report.c_drive_freed_bytes
        } else {
            0
        }) && h.success_count == report.copied_count && h.skipped_count == report.skipped_count
            && h.failed_count == report.failed_count && views(h.error_categories@) == migration_categories(*report),
{
    if status == OperationStatus::Completed {
        Some(migration_history_entry(report, started_at, finished_at))
    } else {
        None
    }
}

/// The error of a migration that could not read the cleaner settings.
pub fn migration_settings_unavailable_error() -> (r: String)
    ensures
        r@ == "无法读取清理设置，迁移已停止"@,
{
    string_of("无法读取清理设置，迁移已停止")
}

/// A migration result with nothing done yet.
pub fn empty_migration_result() -> (r: MigrationResult)
    ensures
        r.copied_count == 0,
        r.moved_to_recycle_bin_count == 0,
        r.skipped_count == 0,
        r.failed_count == 0,
        r.total_copied_bytes == 0,
        r.total_freed_bytes == 0,
        r.c_drive_freed_bytes == 0,
        r.item_results@.len() == 0,
{
    MigrationResult {
        copied_count: 0,
        moved_to_recycle_bin_count: 0,
        skipped_count: 0,
        failed_count: 0,
        total_copied_bytes: 0,
        total_freed_bytes: 0,
        c_drive_freed_bytes: 0,
        item_results: Vec::new(),
    }
}

/// A selected item as found in the registry when the migration started.
pub struct SelectedItem {
    pub item_id: String,
    pub entry: Option<LargeFileBackendEntry>,
}

/// The selected items, each id once in the order first given, with the
/// registry's entry for each.
pub fn snapshot_selected_entries(selected_item_ids: &Vec<String>, registry: &LargeFileRegistry) -> (r: Vec<SelectedItem>)
    ensures
        Seq::new(r@.len(), |k: int| r@[k].item_id@) == merged_paths(Seq::empty(), views(selected_item_ids@)),
        forall|k: int|
            0 <= k < r@.len() ==> (#[trigger] r@[k]).entry == if registry@.contains_key(r@[k].item_id@) {
                Some(registry@[r@[k].item_id@])
            } else {
                None
            },
{
    let mut items: Vec<SelectedItem> = Vec::new();
    let mut ids: Vec<String> = Vec::new();
    let mut i: usize = 0;
    while i < selected_item_ids.len()
        invariant
            i <= selected_item_ids@.len(),
            ids@.len() == items@.len(),
            forall|k: int| 0 <= k < ids@.len() ==> (#[trigger] ids@[k])@ == items@[k].item_id@,
            views(ids@) == merged_paths(Seq::empty(), views(selected_item_ids@).take(i as int)),
            forall|k: int|
                0 <= k < items@.len() ==> (#[trigger] items@[k]).entry == if registry@.contains_key(items@[k].item_id@) {
                    Some(registry@[items@[k].item_id@])
                } else {
                    None
                },
        decreases selected_item_ids@.len() - i,
    {
        proof {
            assert(views(selected_item_ids@).take(i + 1).drop_last() =~= views(selected_item_ids@).take(i as int));
            assert(views(selected_item_ids@).take(i + 1).last() == selected_item_ids@[i as int]@);
        }
        let id = &selected_item_ids[i];
        if !crate::v2::duplicate_run::contains_text(&ids, id) {
            let ghost before_ids = views(ids@);
            let ghost before_items = items@;
            ids.push(id.clone());
            items.push(SelectedItem { item_id: id.clone(), entry: registry.get(id.as_str()) });
            proof {
                assert(views(ids@) =~= before_ids.push(id@));
                assert forall|k: int|
                    0 <= k < items@.len() implies (#[trigger] items@[k]).entry == if registry@.contains_key(items@[k].item_id@) {
                        Some(registry@[items@[k].item_id@])
                    } else {
                        None
                    } by {
                    if k < before_items.len() {
                        assert(items@[k] == before_items[k]);
                    }
                }
                assert forall|k: int| 0 <= k < ids@.len() implies (#[trigger] ids@[k])@ == items@[k].item_id@ by {
                    if k < before_items.len() {
                        assert(items@[k] == before_items[k]);
                    }
                }
            }
        }
        i += 1;
    }
    proof {
        assert(views(selected_item_ids@).take(selected_item_ids@.len() as int) =~= views(selected_item_ids@));
        assert(Seq::new(items@.len(), |k: int| items@[k].item_id@) =~= views(ids@));
    }
    items
}

/// What to do with one selected item before any file is touched.
pub enum ItemPlan {
    /// The registry no longer knows the item.
    Missing,
    /// The item is protected and the user has not confirmed an override.
    Protected(LargeFileCategory),
    /// Copy the item; the category is the one the scan report shows.
    Migrate(LargeFileBackendEntry, LargeFileCategory),
}

/// The last report item with this id, if any.
pub open spec fn report_item_of(items: Seq<LargeFileItem>, id: Seq<char>) -> Option<LargeFileItem>
    decreases items.len(),
{
    if items.len() == 0 {
        None
    } else if items.last().item_id@ == id {
        Some(items.last())
    } else {
        report_item_of(items.drop_last(), id)
    }
}

fn find_report_item(items: &Vec<LargeFileItem>, id: &String) -> (r: Option<usize>)
    ensures
        match r {
            Some(k) => k < items@.len() && report_item_of(items@, id@) == Some(items@[k as int]),
            None => report_item_of(items@, id@) is None,
        },
{
    let mut i: usize = items.len();
    assert(items@.take(items@.len() as int) =~= items@);
    while i > 0
        invariant
            i <= items@.len(),
            report_item_of(items@, id@) == report_item_of(items@.take(i as int), id@),
        decreases i,
    {
        proof {
            assert(items@.take(i as int).drop_last() =~= items@.take(i - 1));
        }
        if items[i - 1].item_id == *id {
            return Some(i - 1);
        }
        i -= 1;
    }
    None
}

/// The plan for one selected item: missing when the registry has no entry;
/// protected when the entry, the report or the protected paths mark it and
/// no override was confirmed; else migrate. The category is the report's,
/// or the entry's when the report does not show the item.
pub open spec fn item_plan_for(
    item_id: Seq<char>,
    entry: Option<LargeFileBackendEntry>,
    report_items: Seq<LargeFileItem>,
    protected_paths: Seq<Seq<char>>,
    override_confirmed: bool,
) -> (int, Option<LargeFileBackendEntry>, LargeFileCategory) {
    match entry {
        None => (0, None, LargeFileCategory::Other),
        Some(e) => {
            let found = report_item_of(report_items, item_id);
            let report_protected = match found {
                Some(it) => it.protected,
                None => false,
            };
            let category = match found {
                Some(it) => it.category,
                None => e.category,
            };
            if (e.protected || report_protected || crate::v2::path_safety::is_protected_path(e.path@, protected_paths))
                && !override_confirmed {
                (1, None, category)
            } else {
                (2, Some(e), category)
            }
        },
    }
}

/// The plan for one selected item (see `item_plan_for`).
pub fn plan_migration_item(
    item: &SelectedItem,
    report_items: &Vec<LargeFileItem>,
    protected_paths: &Vec<String>,
    override_confirmed: bool,
) -> (r: ItemPlan)
    ensures
        ({
            let (kind, entry, category) = item_plan_for(item.item_id@, item.entry, report_items@, views(protected_paths@), override_confirmed);
            match r {
                ItemPlan::Missing => kind == 0,
                ItemPlan::Protected(c) => kind == 1 && c == category,
                ItemPlan::Migrate(e, c) => kind == 2 && entry == Some(e) && c == category,
            }
        }),
{
    let entry = match &item.entry {
        None => return ItemPlan::Missing,
        Some(e) => e,
    };
    let found = find_report_item(report_items, &item.item_id);
    let (report_protected, category) = match found {
        Some(k) => (report_items[k].protected, report_items[k].category),
        None => (false, entry.category),
    };
    if (entry.protected || report_protected || crate::v2::path_safety::is_protected_duplicate_path(entry.path.as_str(), protected_paths))
        && !override_confirmed {
        ItemPlan::Protected(category)
    } else {
        ItemPlan::Migrate(copy_large_entry(entry), category)
    }
}

/// Adds an item result without touching the counts.
pub fn push_item_result(
    result: &mut MigrationResult,
    item_id: String,
    category: LargeFileCategory,
    status: MigrationItemStatus,
    bytes_copied: u64,
    bytes_freed: u64,
    message: String,
)
    ensures
        final(result).item_results@ == old(result).item_results@.push(
            MigrationItemResult { item_id, status, category, bytes_copied, bytes_freed, message },
        ),
        final(result).copied_count == old(result).copied_count,
        final(result).moved_to_recycle_bin_count == old(result).moved_to_recycle_bin_count,
        final(result).skipped_count == old(result).skipped_count,
        final(result).failed_count == old(result).failed_count,
        final(result).total_copied_bytes == old(result).total_copied_bytes,
        final(result).total_freed_bytes == old(result).total_freed_bytes,
        final(result).c_drive_freed_bytes == old(result).c_drive_freed_bytes,
{
    result.item_results.push(MigrationItemResult { item_id, status, category, bytes_copied, bytes_freed, message });
}

/// Counts an item that the registry no longer knows as failed.
pub fn record_missing_item(result: &mut MigrationResult, item_id: String)
    requires
        old(result).failed_count < u64::MAX,
    ensures
        final(result).failed_count == old(result).failed_count + 1,
        final(result).item_results@ == old(result).item_results@.push(
            MigrationItemResult {
                item_id,
                status: MigrationItemStatus::Failed,
                category: LargeFileCategory::Other,
                bytes_copied: 0,
                bytes_freed: 0,
                message: final(result).item_results@.last().message,
            },
        ),
        final(result).item_results@.last().message@ == "文件记录已过期"@,
        final(result).copied_count == old(result).copied_count,
        final(result).moved_to_recycle_bin_count == old(result).moved_to_recycle_bin_count,
        final(result).skipped_count == old(result).skipped_count,
        final(result).total_copied_bytes == old(result).total_copied_bytes,
        final(result).total_freed_bytes == old(result).total_freed_bytes,
        final(result).c_drive_freed_bytes == old(result).c_drive_freed_bytes,
{
    result.failed_count = result.failed_count + 1;
    push_item_result(result, item_id, LargeFileCategory::Other, MigrationItemStatus::Failed, 0, 0, string_of("文件记录已过期"));
}

/// Counts a protected item as skipped.
pub fn record_protected_item(result: &mut MigrationResult, item_id: String, category: LargeFileCategory)
    requires
        old(result).skipped_count < u64::MAX,
    ensures
        final(result).skipped_count == old(result).skipped_count + 1,
        final(result).item_results@ == old(result).item_results@.push(
            MigrationItemResult {
                item_id,
                status: MigrationItemStatus::Skipped,
                category,
                bytes_copied: 0,
                bytes_freed: 0,
                message: final(result).item_results@.last().message,
            },
        ),
        final(result).item_results@.last().message@ == "受保护文件已跳过"@,
        final(result).copied_count == old(result).copied_count,
        final(result).moved_to_recycle_bin_count == old(result).moved_to_recycle_bin_count,
        final(result).failed_count == old(result).failed_count,
        final(result).total_copied_bytes == old(result).total_copied_bytes,
        final(result).total_freed_bytes == old(result).total_freed_bytes,
        final(result).c_drive_freed_bytes == old(result).c_drive_freed_bytes,
{
    result.skipped_count = result.skipped_count + 1;
    push_item_result(result, item_id, category, MigrationItemStatus::Skipped, 0, 0, string_of("受保护文件已跳过"));
}

/// The counters of a result have room for one more item of `bytes` bytes.
pub open spec fn has_room(r: MigrationResult, bytes: u64) -> bool {
    &&& r.copied_count < u64::MAX
    &&& r.moved_to_recycle_bin_count < u64::MAX
    &&& r.skipped_count < u64::MAX
    &&& r.failed_count < u64::MAX
    &&& r.total_copied_bytes + bytes <= u64::MAX
    &&& r.total_freed_bytes + bytes <= u64::MAX
    &&& r.c_drive_freed_bytes + bytes <= u64::MAX
}

/// Counts what migrating one item gave. A completed item is counted by its
/// status and its bytes (freed bytes on the C drive also as such); an item
/// cancelled after its copy counts as copied; a failed one as failed.
/// Returns whether the migration stops here (it was cancelled).
pub fn record_item_outcome(
    result: &mut MigrationResult,
    item_id: String,
    category: LargeFileCategory,
    drive: &str,
    outcome: Result<MigrationItemResult, ItemFailure>,
) -> (stop: bool)
    requires
        has_room(
            *old(result),
            match outcome {
                Ok(r) => if r.bytes_copied > r.bytes_freed {
                    r.bytes_copied
                } else {
                    r.bytes_freed
                },
                Err(ItemFailure::CancelledAfterCopy(r)) => r.bytes_copied,
                Err(_) => 0,
            },
        ),
    ensures
        stop == (outcome matches Err(ItemFailure::Cancelled) || outcome matches Err(ItemFailure::CancelledAfterCopy(_))),
        match outcome {
            Ok(r) => {
                &&& final(result).item_results@ == old(result).item_results@.push(r)
                &&& final(result).copied_count == old(result).copied_count + if r.status == MigrationItemStatus::Copied
                    || r.status == MigrationItemStatus::CopiedAndFreed {
                    1int
                } else {
                    0
                }
                &&& final(result).moved_to_recycle_bin_count == old(result).moved_to_recycle_bin_count + if r.status
                    == MigrationItemStatus::CopiedAndFreed {
                    1int
                } else {
                    0
                }
                &&& final(result).skipped_count == old(result).skipped_count + if r.status == MigrationItemStatus::Skipped {
                    1int
                } else {
                    0
                }
                &&& final(result).failed_count == old(result).failed_count + if r.status == MigrationItemStatus::Failed {
                    1int
                } else {
                    0
                }
                &&& final(result).total_copied_bytes == old(result).total_copied_bytes + r.bytes_copied
                &&& final(result).total_freed_bytes == old(result).total_freed_bytes + r.bytes_freed
                &&& final(result).c_drive_freed_bytes == old(result).c_drive_freed_bytes + if is_c_drive_label(drive@) {
                    r.bytes_freed as int
                } else {
                    0
                }
            },
            Err(ItemFailure::Cancelled) => *final(result) == *old(result),
            Err(ItemFailure::CancelledAfterCopy(r)) => {
                &&& final(result).item_results@ == old(result).item_results@.push(r)
                &&& final(result).copied_count == old(result).copied_count + 1
                &&& final(result).total_copied_bytes == old(result).total_copied_bytes + r.bytes_copied
                &&& final(result).moved_to_recycle_bin_count == old(result).moved_to_recycle_bin_count
                &&& final(result).skipped_count == old(result).skipped_count
                &&& final(result).failed_count == old(result).failed_count
                &&& final(result).total_freed_bytes == old(result).total_freed_bytes
                &&& final(result).c_drive_freed_bytes == old(result).c_drive_freed_bytes
            },
            Err(ItemFailure::Failed(m)) => {
                &&& final(result).item_results@ == old(result).item_results@.push(
                    MigrationItemResult {
                        item_id,
                        status: MigrationItemStatus::Failed,
                        category,
                        bytes_copied: 0,
                        bytes_freed: 0,
                        message: m,
                    },
                )
                &&& final(result).failed_count == old(result).failed_count + 1
                &&& final(result).copied_count == old(result).copied_count
                &&& final(result).moved_to_recycle_bin_count == old(result).moved_to_recycle_bin_count
                &&& final(result).skipped_count == old(result).skipped_count
                &&& final(result).total_copied_bytes == old(result).total_copied_bytes
                &&& final(result).total_freed_bytes == old(result).total_freed_bytes
                &&& final(result).c_drive_freed_bytes == old(result).c_drive_freed_bytes
            },
        },
{
    match outcome {
        Ok(r) => {
            match r.status {
                MigrationItemStatus::Copied => {
                    result.copied_count = result.copied_count + 1;
                },
                MigrationItemStatus::CopiedAndFreed => {
                    result.copied_count = result.copied_count + 1;
                    result.moved_to_recycle_bin_count = result.moved_to_recycle_bin_count + 1;
                },
                MigrationItemStatus::Skipped => {
                    result.skipped_count = result.skipped_count + 1;
                },
                MigrationItemStatus::Failed => {
                    result.failed_count = result.failed_count + 1;
                },
            }
            result.total_copied_bytes = result.total_copied_bytes + r.bytes_copied;
            result.total_freed_bytes = result.total_freed_bytes + r.bytes_freed;
            if drive_is_c(drive) {
                result.c_drive_freed_bytes = result.c_drive_freed_bytes + r.bytes_freed;
            }
            result.item_results.push(r);
            false
        },
        Err(ItemFailure::Cancelled) => true,
        Err(ItemFailure::CancelledAfterCopy(r)) => {
            result.copied_count = result.copied_count + 1;
            result.total_copied_bytes = result.total_copied_bytes + r.bytes_copied;
            result.item_results.push(r);
            true
        },
        Err(ItemFailure::Failed(message)) => {
            result.failed_count = result.failed_count + 1;
            push_item_result(result, item_id, category, MigrationItemStatus::Failed, 0, 0, message);
            false
        },
    }
}

/// The checks of a resolved target folder before an item is copied:
/// against the source (see `target_check`), then against the protected
/// locations (see `protected_target_check`).
pub fn check_item_target(
    source_path: &str,
    target_folder: &str,
    protected_paths: &Vec<String>,
    target_link_ancestor: bool,
) -> (r: Result<(), ItemFailure>)
    ensures
        match target_check(source_path@, target_folder@, target_link_ancestor) {
            Err(m) => r matches Err(ItemFailure::Failed(s)) && s@ == m,
            Ok(()) => match protected_target_check(target_folder@, views(protected_paths@), target_link_ancestor) {
                Err(m) => r matches Err(ItemFailure::Failed(s)) && s@ == m,
                Ok(()) => r is Ok,
            },
        },
{
    match validate_migration_target(source_path, target_folder, target_link_ancestor) {
        Err(m) => return Err(ItemFailure::Failed(m)),
        Ok(()) => {},
    }
    match reject_protected_target(target_folder, protected_paths, target_link_ancestor) {
        Err(m) => Err(ItemFailure::Failed(m)),
        Ok(()) => Ok(()),
    }
}

/// What the checks before copying a migrated file give: a cancelled
/// operation stops, a source that is gone fails, then the target folder must
/// resolve (see `resolved_target`) and pass `target_check` and
/// `protected_target_check`; the resolved folder is given back.
pub open spec fn item_start(
    target_folder: Seq<char>,
    source_path: Seq<char>,
    protected_paths: Seq<Seq<char>>,
    cancelled: bool,
    source_exists: bool,
    target_link_ancestor: bool,
    r: Result<String, ItemFailure>,
) -> bool {
    if cancelled {
        r matches Err(ItemFailure::Cancelled)
    } else if !source_exists {
        r matches Err(ItemFailure::Failed(m)) && m@ == "源文件不存在"@
    } else {
        match resolved_target(target_folder) {
            Err(m) => r matches Err(ItemFailure::Failed(s)) && s@ == m,
            Ok(t) => match target_check(source_path, t, target_link_ancestor) {
                Err(m) => r matches Err(ItemFailure::Failed(s)) && s@ == m,
                Ok(()) => match protected_target_check(t, protected_paths, target_link_ancestor) {
                    Err(m) => r matches Err(ItemFailure::Failed(s)) && s@ == m,
                    Ok(()) => r matches Ok(f) && f@ == t,
                },
            },
        }
    }
}

/// The checks before copying a migrated file (see `item_start`).
/// `target_link_ancestor` says whether the resolved target folder or a
/// folder above it is a link; `source_exists` whether the source file is
/// still there.
pub fn begin_item_migration(
    target_folder: &str,
    source_path: &str,
    protected_paths: &Vec<String>,
    cancelled: bool,
    source_exists: bool,
    target_link_ancestor: bool,
) -> (r: Result<String, ItemFailure>)
    ensures
        item_start(target_folder@, source_path@, views(protected_paths@), cancelled, source_exists, target_link_ancestor, r),
{
    if cancelled {
        return Err(ItemFailure::Cancelled);
    }
    if !source_exists {
        return Err(ItemFailure::Failed(string_of("源文件不存在")));
    }
    let folder = resolve_target_folder(target_folder, source_path)?;
    check_item_target(source_path, folder.as_str(), protected_paths, target_link_ancestor)?;
    Ok(folder)
}

/// A copy is verified when it has the source's size and content hash.
pub open spec fn copy_matches(source_len: u64, target_len: u64, source: Seq<u8>, target: Seq<u8>) -> bool {
    source_len == target_len && sha256_hex(source) == sha256_hex(target)
}

/// Checks a copy against its source by size and SHA-256 content hash.
pub fn verify_copied_file(source_len: u64, target_len: u64, source_contents: &[u8], target_contents: &[u8]) -> (r: Result<(), String>)
    ensures
        copy_matches(source_len, target_len, source_contents@, target_contents@) ==> r is Ok,
        !copy_matches(source_len, target_len, source_contents@, target_contents@) ==> (r matches Err(m) && m@
            == "复制校验失败"@),
{
    if source_len != target_len {
        return Err(string_of("复制校验失败"));
    }
    let source_hash = content_hash(source_contents);
    let target_hash = content_hash(target_contents);
    if source_hash != target_hash {
        return Err(string_of("复制校验失败"));
    }
    Ok(())
}

/// The item result of a verified copy whose original was handed to the
/// recycle bin, where `moved` says whether the move worked: copied and freed
/// when it did, copied but not freed (both files kept) when it did not.
pub open spec fn is_recycled_item_result(entry: LargeFileBackendEntry, moved: bool, it: MigrationItemResult) -> bool {
    &&& it.item_id == entry.item_id
    &&& it.category == entry.category
    &&& it.bytes_copied == entry.size_bytes
    &&& if moved {
        &&& it.status == MigrationItemStatus::CopiedAndFreed
        &&& it.bytes_freed == entry.size_bytes
        &&& it.message@ == "已复制并移入回收站"@
    } else {
        &&& it.status == MigrationItemStatus::Copied
        &&& it.bytes_freed == 0
        &&& it.message@ == "原文件移入回收站失败，已保留复制文件和原文件"@
    }
}

/// The result of a copied item from the recycle bin's answer to the move of
/// its original (see `is_recycled_item_result`).
pub fn recycled_item_result(entry: &LargeFileBackendEntry, answer: &Result<(), RecycleBinError>) -> (r:
    MigrationItemResult)
    ensures
        is_recycled_item_result(*entry, answer is Ok, r),
{
    match answer {
        Ok(()) => MigrationItemResult {
            item_id: entry.item_id.clone(),
            status: MigrationItemStatus::CopiedAndFreed,
            category: entry.category,
            bytes_copied: entry.size_bytes,
            bytes_freed: entry.size_bytes,
            message: string_of("已复制并移入回收站"),
        },
        Err(_) => MigrationItemResult {
            item_id: entry.item_id.clone(),
            status: MigrationItemStatus::Copied,
            category: entry.category,
            bytes_copied: entry.size_bytes,
            bytes_freed: 0,
            message: string_of("原文件移入回收站失败，已保留复制文件和原文件"),
        },
    }
}

/// What finishing a copied item gave, whether its original was handed to the
/// recycle bin, and whether the recycle bin moved it.
pub struct CopiedItemOutcome {
    pub result: Result<MigrationItemResult, ItemFailure>,
    pub recycle_requested: bool,
    pub original_moved: bool,
}

/// Finishes an item whose copy was made: a failed verification fails it;
/// with the keep policy it counts as copied; a cancellation now leaves it
/// copied; else its original is moved to the recycle bin and the result
/// follows the bin's answer (see `recycled_item_result`).
pub fn finish_copied_item<R: RecycleBin>(
    entry: &LargeFileBackendEntry,
    policy: OriginalFilePolicy,
    copy_verified: &Result<(), String>,
    cancelled: bool,
    recycle_bin: &R,
) -> (r: CopiedItemOutcome)
    ensures
        r.recycle_requested <==> (copy_verified is Ok && policy == OriginalFilePolicy::MoveOriginalToRecycleBin && !cancelled),
        r.original_moved ==> r.recycle_requested,
        copy_verified matches Err(e) ==> (r.result matches Err(ItemFailure::Failed(m)) && m@ == e@),
        (copy_verified is Ok && policy == OriginalFilePolicy::KeepOriginal) ==> (r.result matches Ok(it)
            && it.item_id == entry.item_id && it.status == MigrationItemStatus::Copied && it.category == entry.category
            && it.bytes_copied == entry.size_bytes && it.bytes_freed == 0 && it.message@ == "已复制"@),
        (copy_verified is Ok && policy == OriginalFilePolicy::MoveOriginalToRecycleBin && cancelled) ==> (
        r.result matches Err(ItemFailure::CancelledAfterCopy(it)) && it.item_id == entry.item_id && it.status
            == MigrationItemStatus::Copied && it.category == entry.category && it.bytes_copied == entry.size_bytes
            && it.bytes_freed == 0 && it.message@ == "已复制，操作已取消"@),
        r.recycle_requested ==> (r.result matches Ok(it) && is_recycled_item_result(*entry, r.original_moved, it)),
{
    match copy_verified {
        Err(e) => {
            return CopiedItemOutcome {
                result: Err(ItemFailure::Failed(e.clone())),
                recycle_requested: false,
                original_moved: false,
            };
        },
        Ok(()) => {},
    }
    if policy == OriginalFilePolicy::KeepOriginal {
        return CopiedItemOutcome {
            result: Ok(
                MigrationItemResult {
                    item_id: entry.item_id.clone(),
                    status: MigrationItemStatus::Copied,
                    category: entry.category,
                    bytes_copied: entry.size_bytes,
                    bytes_freed: 0,
                    message: string_of("已复制"),
                },
            ),
            recycle_requested: false,
            original_moved: false,
        };
    }
    if cancelled {
        return CopiedItemOutcome {
            result: Err(
                ItemFailure::CancelledAfterCopy(
                    MigrationItemResult {
                        item_id: entry.item_id.clone(),
                        status: MigrationItemStatus::Copied,
                        category: entry.category,
                        bytes_copied: entry.size_bytes,
                        bytes_freed: 0,
                        message: string_of("已复制，操作已取消"),
                    },
                ),
            ),
            recycle_requested: false,
            original_moved: false,
        };
    }
    let answer = recycle_bin.move_to_recycle_bin(entry.path.as_str());
    let original_moved = answer.is_ok();
    CopiedItemOutcome { result: Ok(recycled_item_result(entry, &answer)), recycle_requested: true, original_moved }
}

/// A migration target is refused as lying in the source file's folder when,
/// with no `..` and no link in the way, its key is the key of that folder or
/// a key below it; with the same checks passed and a key elsewhere, it is
/// accepted.
pub proof fn law_target_in_source_folder_is_refused(source: Seq<char>, target: Seq<char>, link: bool)
    ensures
        !has_parent_segment(target) && !link ==> match parent_dir_of(source) {
            Some(parent) => {
                let tk = path_key(target);
                let pk = path_key(parent);
                if tk == pk || (crate::text::starts_with(tk, pk) && tk.len() > pk.len() && tk[pk.len() as int] == '\\') {
                    target_check(source, target, link) == Err::<(), Seq<char>>("目标位置不能位于源文件目录内"@)
                } else {
                    target_check(source, target, link) == Ok::<(), Seq<char>>(())
                }
            },
            None => target_check(source, target, link) == Err::<(), Seq<char>>("无法识别源文件目录"@),
        },
{
}

/// A migration target at or below `C:\Windows`, `C:\Program Files`,
/// `C:\Program Files (x86)` or `C:\ProgramData` (by key) is refused as
/// protected when no `..` and no link come first, whatever the user's
/// protected paths are.
pub proof fn law_system_folders_refused_as_targets(
    target: Seq<char>,
    protected_paths: Seq<Seq<char>>,
    link: bool,
    root: Seq<char>,
)
    requires
        root == "c:\\windows"@ || root == "c:\\program files"@ || root == "c:\\program files (x86)"@ || root
            == "c:\\programdata"@,
        path_key(target) == root || (crate::text::starts_with(path_key(target), root) && path_key(target).len()
            > root.len() && path_key(target)[root.len() as int] == '\\'),
        !has_parent_segment(target),
        !link,
    ensures
        protected_target_check(target, protected_paths, link) == Err::<(), Seq<char>>("目标位置不能位于受保护目录内"@),
{
    reveal_strlit("c:\\windows");
    reveal_strlit("c:\\program files");
    reveal_strlit("c:\\program files (x86)");
    reveal_strlit("c:\\programdata");
    let keys = protected_target_keys();
    if root == keys[0] {
        assert(same_or_child(path_key(target), keys[0]));
    } else if root == keys[1] {
        assert(same_or_child(path_key(target), keys[1]));
    } else if root == keys[2] {
        assert(same_or_child(path_key(target), keys[2]));
    } else {
        assert(same_or_child(path_key(target), keys[3]));
    }
}

} // verus!
