//! The folders a C drive cleanup works in, and the checks that keep every
//! cleaned location on the C drive and under its rule's folder.
use vstd::prelude::*;

use crate::errors::CleanerError;
use crate::rules::{scope_parts, CleanupRule, RuleScope};
use crate::text::{char_is_ascii_alpha, chars_start_with, concat_str, from_chars, is_ascii_alpha, starts_with, string_of, to_chars};
use crate::v2::path_safety::{is_sep, is_absolute_path, path_is_absolute};

verus! {

/// The folders that cleanup rules are resolved against.
#[derive(Debug, Clone, PartialEq, Eq)]
pub struct ScanRoots {
    pub c_drive: String,
    pub user_profile: String,
    pub local_app_data: String,
    pub windows_dir: String,
}

/// A path on the C drive with a root: `C:\...` (or `C:/...`), or the
/// verbatim form `\\?\C:\...`; the drive letter in either case.
pub open spec fn is_c_drive(p: Seq<char>) -> bool {
    (p.len() >= 3 && (p[0] == 'c' || p[0] == 'C') && p[1] == ':' && is_sep(p[2])) || (p.len() >= 7 && p[0] == '\\'
        && p[1] == '\\' && p[2] == '?' && p[3] == '\\' && (p[4] == 'c' || p[4] == 'C') && p[5] == ':' && p[6] == '\\')
}

/// Whether a path is on the C drive (see `is_c_drive`).
pub fn is_c_drive_path(path: &str) -> (r: bool)
    ensures
        r == is_c_drive(path@),
{
    let p = to_chars(path);
    (p.len() >= 3 && (p[0] == 'c' || p[0] == 'C') && p[1] == ':' && (p[2] == '\\' || p[2] == '/')) || (p.len() >= 7
        && p[0] == '\\' && p[1] == '\\' && p[2] == '?' && p[3] == '\\' && (p[4] == 'c' || p[4] == 'C') && p[5] == ':'
        && p[6] == '\\')
}

/// `Err(PathOutsideCDrive)` unless the path is on the C drive.
pub fn ensure_c_drive_path(path: &str) -> (r: Result<(), CleanerError>)
    ensures
        is_c_drive(path@) ==> r is Ok,
        !is_c_drive(path@) ==> r matches Err(CleanerError::PathOutsideCDrive),
{
    if is_c_drive_path(path) {
        Ok(())
    } else {
        Err(CleanerError::PathOutsideCDrive)
    }
}

/// All four folders are on the C drive.
pub open spec fn roots_on_c_drive(roots: ScanRoots) -> bool {
    is_c_drive(roots.c_drive@) && is_c_drive(roots.user_profile@) && is_c_drive(roots.local_app_data@) && is_c_drive(
        roots.windows_dir@,
    )
}

impl ScanRoots {
    /// `Err(PathOutsideCDrive)` unless every folder is on the C drive.
    pub fn ensure_c_drive_scope(&self) -> (r: Result<(), CleanerError>)
        ensures
            roots_on_c_drive(*self) ==> r is Ok,
            !roots_on_c_drive(*self) ==> r matches Err(CleanerError::PathOutsideCDrive),
    {
        ensure_c_drive_path(self.c_drive.as_str())?;
        ensure_c_drive_path(self.user_profile.as_str())?;
        ensure_c_drive_path(self.local_app_data.as_str())?;
        ensure_c_drive_path(self.windows_dir.as_str())?;
        Ok(())
    }

    /// The folders of the current user, given the values of `USERPROFILE`
    /// and `LOCALAPPDATA` (`None` when unset); the C drive is `C:\` and the
    /// Windows folder `C:\Windows`. All must lie on the C drive.
    pub fn from_current_user(user_profile: Option<String>, local_app_data: Option<String>) -> (r: Result<ScanRoots, CleanerError>)
        ensures
            match (user_profile, local_app_data) {
                (None, _) => r matches Err(CleanerError::PathResolution(m)) && m@ == "USERPROFILE is not set"@,
                (Some(_), None) => r matches Err(CleanerError::PathResolution(m)) && m@ == "LOCALAPPDATA is not set"@,
                (Some(u), Some(l)) => if is_c_drive(u@) && is_c_drive(l@) {
                    r matches Ok(v) && v.user_profile == u && v.local_app_data == l && v.c_drive@ == "C:\\"@
                        && v.windows_dir@ == "C:\\Windows"@
                } else {
                    r matches Err(CleanerError::PathOutsideCDrive)
                },
            },
    {
        let user_profile = match user_profile {
            Some(u) => u,
            None => return Err(CleanerError::PathResolution(string_of("USERPROFILE is not set"))),
        };
        let local_app_data = match local_app_data {
            Some(l) => l,
            None => return Err(CleanerError::PathResolution(string_of("LOCALAPPDATA is not set"))),
        };
        let roots = ScanRoots {
            c_drive: string_of("C:\\"),
            user_profile,
            local_app_data,
            windows_dir: string_of("C:\\Windows"),
        };
        proof {
            reveal_strlit("C:\\");
            reveal_strlit("C:\\Windows");
            assert(is_c_drive(roots.c_drive@));
            assert(is_c_drive(roots.windows_dir@));
        }
        roots.ensure_c_drive_scope()?;
        Ok(roots)
    }
}

/// `rel` joined below `root`, as `PathBuf::join` does on Windows: a path
/// with a drive or a double separator replaces the root; one that starts
/// with a separator keeps only the root's drive; otherwise a separator is
/// put between them unless the root is empty, ends with one, or is a bare
/// drive.
pub open spec fn join_path(root: Seq<char>, rel: Seq<char>) -> Seq<char> {
    if (rel.len() >= 2 && is_ascii_alpha(rel[0]) && rel[1] == ':') || (rel.len() >= 2 && is_sep(rel[0]) && is_sep(rel[1])) {
        rel
    } else if rel.len() >= 1 && is_sep(rel[0]) {
        if root.len() >= 2 && is_ascii_alpha(root[0]) && root[1] == ':' {
            root.take(2) + rel
        } else {
            rel
        }
    } else if root.len() == 0 || is_sep(root.last()) || (root.len() == 2 && is_ascii_alpha(root[0]) && root[1] == ':') {
        root + rel
    } else {
        root + "\\"@ + rel
    }
}

/// `rel` joined below `root` (see `join_path`).
pub fn join(root: &str, rel: &str) -> (r: String)
    ensures
        r@ == join_path(root@, rel@),
{
    let p = to_chars(root);
    let q = to_chars(rel);
    if (q.len() >= 2 && char_is_ascii_alpha(q[0]) && q[1] == ':') || (q.len() >= 2 && (q[0] == '\\' || q[0] == '/') && (
    q[1] == '\\' || q[1] == '/')) {
        string_of(rel)
    } else if q.len() >= 1 && (q[0] == '\\' || q[0] == '/') {
        if p.len() >= 2 && char_is_ascii_alpha(p[0]) && p[1] == ':' {
            let drive = from_chars(&crate::text::slice_chars(&p, 0, 2));
            concat_str(drive.as_str(), rel)
        } else {
            string_of(rel)
        }
    } else if p.len() == 0 || p[p.len() - 1] == '\\' || p[p.len() - 1] == '/' || (p.len() == 2 && char_is_ascii_alpha(p[0])
        && p[1] == ':') {
        concat_str(root, rel)
    } else {
        let with_sep = concat_str(root, "\\");
        proof {
            reveal_strlit("\\");
        }
        concat_str(with_sep.as_str(), rel)
    }
}

/// Where a rule's location lies for these folders.
pub open spec fn rule_path(rule: CleanupRule, roots: ScanRoots) -> Seq<char> {
    match rule.scope {
        RuleScope::UserLocalAppDataRelative(rel) => join_path(roots.local_app_data@, rel@),
        RuleScope::UserProfileRelative(rel) => join_path(roots.user_profile@, rel@),
        RuleScope::WindowsRelative(rel) => join_path(roots.windows_dir@, rel@),
        RuleScope::Absolute(p) => p@,
    }
}

/// The folder a rule's location must stay under.
pub open spec fn rule_root(rule: CleanupRule, roots: ScanRoots) -> Seq<char> {
    match rule.scope {
        RuleScope::UserLocalAppDataRelative(_) => roots.local_app_data@,
        RuleScope::UserProfileRelative(_) => roots.user_profile@,
        RuleScope::WindowsRelative(_) => roots.windows_dir@,
        RuleScope::Absolute(_) => roots.c_drive@,
    }
}

/// Where a rule's location lies (see `rule_path`).
pub fn resolve_rule_path(rule: &CleanupRule, roots: &ScanRoots) -> (r: String)
    ensures
        r@ == rule_path(*rule, *roots),
{
    match &rule.scope {
        RuleScope::UserLocalAppDataRelative(rel) => join(roots.local_app_data.as_str(), rel.as_str()),
        RuleScope::UserProfileRelative(rel) => join(roots.user_profile.as_str(), rel.as_str()),
        RuleScope::WindowsRelative(rel) => join(roots.windows_dir.as_str(), rel.as_str()),
        RuleScope::Absolute(p) => p.clone(),
    }
}

/// The folder a rule's location must stay under (see `rule_root`).
pub fn root_for_rule(rule: &CleanupRule, roots: &ScanRoots) -> (r: String)
    ensures
        r@ == rule_root(*rule, *roots),
{
    match &rule.scope {
        RuleScope::UserLocalAppDataRelative(_) => roots.local_app_data.clone(),
        RuleScope::UserProfileRelative(_) => roots.user_profile.clone(),
        RuleScope::WindowsRelative(_) => roots.windows_dir.clone(),
        RuleScope::Absolute(_) => roots.c_drive.clone(),
    }
}

/// `path` is `root` or lies below it, comparing whole components of the
/// two canonical paths.
pub open spec fn lies_under(path: Seq<char>, root: Seq<char>) -> bool {
    starts_with(path, root) && (path.len() == root.len() || (root.len() > 0 && is_sep(root.last())) || is_sep(
        path[root.len() as int],
    ))
}

/// `Err(PathOutsideAllowedRoot)` unless the canonical path lies under the
/// canonical root (see `lies_under`); the caller canonicalizes both.
pub fn ensure_under_root(canonical_path: &str, canonical_root: &str) -> (r: Result<(), CleanerError>)
    ensures
        lies_under(canonical_path@, canonical_root@) ==> r is Ok,
        !lies_under(canonical_path@, canonical_root@) ==> r matches Err(CleanerError::PathOutsideAllowedRoot),
{
    let p = to_chars(canonical_path);
    let q = to_chars(canonical_root);
    if chars_start_with(&p, &q) && (p.len() == q.len() || (q.len() > 0 && (q[q.len() - 1] == '\\' || q[q.len() - 1] == '/'))
        || p[q.len()] == '\\' || p[q.len()] == '/') {
        Ok(())
    } else {
        Err(CleanerError::PathOutsideAllowedRoot)
    }
}

} // verus!
