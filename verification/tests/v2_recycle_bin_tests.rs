use std::sync::{Arc, Mutex};

use c_drive_cleaner::cleanup::recycle_bin_error;
use c_drive_cleaner::errors::CleanerError;
use c_drive_cleaner::v2::recycle_bin::{RecycleBin, RecycleBinError};

#[derive(Default)]
struct RecordingRecycleBin {
    paths: Arc<Mutex<Vec<String>>>,
}

impl RecycleBin for RecordingRecycleBin {
    fn move_to_recycle_bin(&self, path: &str) -> Result<(), RecycleBinError> {
        self.paths.lock().unwrap().push(path.to_string());
        Ok(())
    }
}

#[test]
fn recording_recycle_bin_receives_exact_path() {
    let bin = RecordingRecycleBin::default();
    bin.move_to_recycle_bin(r"C:\Users\Example\file.tmp").unwrap();
    assert_eq!(bin.paths.lock().unwrap()[0], r"C:\Users\Example\file.tmp".to_string());
}

#[test]
fn recycle_bin_errors_keep_their_text() {
    let error = RecycleBinError::Failed("busy".to_string());
    assert_eq!(error.message(), "busy");
    match recycle_bin_error(error) {
        CleanerError::RecycleBin(message) => assert_eq!(message, "busy"),
        _ => panic!("expected a recycle bin error"),
    }
    assert_eq!(
        CleanerError::RecycleBin("busy".to_string()).message(),
        "recycle bin error: busy"
    );
}
