//! The summary of the C drive among the mounted disks.
use vstd::prelude::*;

use crate::errors::CleanerError;
use crate::models::DriveSummary;
use crate::text::{chars_eq, from_chars, replace_char, replace_chars, string_of, to_chars, to_uppercase, unicode_upper};

verus! {

/// A mounted disk as the system lists it.
#[derive(Debug, Clone, PartialEq, Eq)]
pub struct DiskInfo {
    pub mount_point: String,
    pub total_space: u64,
    pub available_space: u64,
}

/// The form in which mount points are compared: `/` read as `\\`,
/// upper-cased.
pub open spec fn mount_form(mount: Seq<char>) -> Seq<char> {
    unicode_upper(replace_char(mount, '/', '\\'))
}

/// The disk is the C drive: its mount point reads `C:\\` or `C:`.
pub open spec fn is_c_mount(mount: Seq<char>) -> bool {
    mount_form(mount) == "C:\\"@ || mount_form(mount) == "C:"@
}

/// Whether the mount point is that of the C drive (see `is_c_mount`).
pub fn is_c_mount_point(mount: &str) -> (r: bool)
    ensures
        r == is_c_mount(mount@),
{
    let upper = to_uppercase(from_chars(&replace_chars(&to_chars(mount), '/', '\\')).as_str());
    let u = to_chars(upper.as_str());
    chars_eq(&u, &to_chars("C:\\")) || chars_eq(&u, &to_chars("C:"))
}

/// The summary of the first disk mounted as the C drive, or a
/// path-resolution error when none is.
pub fn c_drive_summary(disks: &Vec<DiskInfo>) -> (r: Result<DriveSummary, CleanerError>)
    ensures
        match r {
            Ok(s) => exists|i: int|
                0 <= i < disks@.len() && is_c_mount(#[trigger] disks@[i].mount_point@) && (forall|j: int|
                    0 <= j < i ==> !is_c_mount(#[trigger] disks@[j].mount_point@)) && s.drive@ == "C:"@
                    && s.total_bytes == disks@[i].total_space && s.free_bytes == disks@[i].available_space,
            Err(e) => (forall|j: int| 0 <= j < disks@.len() ==> !is_c_mount(#[trigger] disks@[j].mount_point@)) && (
            match e {
                CleanerError::PathResolution(m) => m@ == "C drive was not found"@,
                _ => false,
            }),
        },
{
    let mut i: usize = 0;
    while i < disks.len()
        invariant
            i <= disks@.len(),
            forall|j: int| 0 <= j < i ==> !is_c_mount(#[trigger] disks@[j].mount_point@),
        decreases disks@.len() - i,
    {
        if is_c_mount_point(disks[i].mount_point.as_str()) {
            return Ok(
                DriveSummary {
                    drive: string_of("C:"),
                    total_bytes: disks[i].total_space,
                    free_bytes: disks[i].available_space,
                },
            );
        }
        i += 1;
    }
    Err(CleanerError::PathResolution(string_of("C drive was not found")))
}

} // verus!
