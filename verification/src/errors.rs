//! Errors of the C drive cleaner.
use vstd::prelude::*;

use crate::text::{concat_str, string_of};

verus! {

/// Why a cleaner operation failed.
#[derive(Debug)]
pub enum CleanerError {
    PathOutsideAllowedRoot,
    PathOutsideCDrive,
    PathResolution(String),
    Io(String),
    OperationCancelled,
    RecycleBin(String),
    CopyFailed(String),
    VerificationFailed(String),
    Settings(String),
    InvalidRequest(String),
}

/// The text of an error.
pub open spec fn error_text(e: CleanerError) -> Seq<char> {
    match e {
        CleanerError::PathOutsideAllowedRoot => "path is outside the allowed root"@,
        CleanerError::PathOutsideCDrive => "path is outside the C drive"@,
        CleanerError::PathResolution(m) => "path cannot be resolved: "@ + m@,
        CleanerError::Io(m) => "io error: "@ + m@,
        CleanerError::OperationCancelled => "operation was cancelled"@,
        CleanerError::RecycleBin(m) => "recycle bin error: "@ + m@,
        CleanerError::CopyFailed(m) => "copy failed: "@ + m@,
        CleanerError::VerificationFailed(m) => "verification failed: "@ + m@,
        CleanerError::Settings(m) => "settings error: "@ + m@,
        CleanerError::InvalidRequest(m) => "invalid request: "@ + m@,
    }
}

impl CleanerError {
    /// The text of the error (see `error_text`).
    pub fn message(&self) -> (r: String)
        ensures
            r@ == error_text(*self),
    {
        match self {
            CleanerError::PathOutsideAllowedRoot => string_of("path is outside the allowed root"),
            CleanerError::PathOutsideCDrive => string_of("path is outside the C drive"),
            CleanerError::PathResolution(m) => concat_str("path cannot be resolved: ", m.as_str()),
            CleanerError::Io(m) => concat_str("io error: ", m.as_str()),
            CleanerError::OperationCancelled => string_of("operation was cancelled"),
            CleanerError::RecycleBin(m) => concat_str("recycle bin error: ", m.as_str()),
            CleanerError::CopyFailed(m) => concat_str("copy failed: ", m.as_str()),
            CleanerError::VerificationFailed(m) => concat_str("verification failed: ", m.as_str()),
            CleanerError::Settings(m) => concat_str("settings error: ", m.as_str()),
            CleanerError::InvalidRequest(m) => concat_str("invalid request: ", m.as_str()),
        }
    }
}

} // verus!
