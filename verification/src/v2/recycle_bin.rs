//! The recycle bin that cleanup moves files into.
use vstd::prelude::*;

use crate::text::copy_string;

verus! {

/// Why a move to the recycle bin failed.
#[derive(Debug)]
pub enum RecycleBinError {
    Failed(String),
}

impl RecycleBinError {
    /// The text of the error.
    pub fn message(&self) -> (r: String)
        ensures
            match self {
                RecycleBinError::Failed(m) => r@ == m@,
            },
    {
        match self {
            RecycleBinError::Failed(m) => copy_string(m),
        }
    }
}

/// Something that can move a file or folder to the recycle bin. Nothing is
/// assumed of what an implementation does; the cleanup rules only decide
/// when it is asked to move a path.
pub trait RecycleBin {
    fn move_to_recycle_bin(&self, path: &str) -> Result<(), RecycleBinError>;
}

} // verus!
