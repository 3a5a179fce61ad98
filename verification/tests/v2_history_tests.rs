use c_drive_cleaner::v2::history::{history_entry_is_desensitized, text_is_desensitized};
use c_drive_cleaner::v2::models::{HistoryEntry, OperationModule};

fn entry(categories: Vec<String>) -> HistoryEntry {
    HistoryEntry {
        history_id: "h1".to_string(),
        module: OperationModule::DuplicateCleanup,
        started_at: "2026-06-12T00:00:00Z".to_string(),
        finished_at: "2026-06-12T00:00:01Z".to_string(),
        total_bytes: 10,
        freed_bytes: 10,
        c_drive_freed_bytes: 10,
        other_drive_freed_bytes: 0,
        success_count: 1,
        skipped_count: 0,
        failed_count: 0,
        error_categories: categories,
    }
}

#[test]
fn history_entry_rejects_paths_file_names_hashes_and_usernames() {
    let unsafe_entry = entry(vec!["C:\\Users\\Administrator\\Desktop\\a.zip".to_string()]);

    assert!(!history_entry_is_desensitized(&unsafe_entry, None));
}

#[test]
fn history_entry_with_plain_categories_is_desensitized() {
    assert!(history_entry_is_desensitized(&entry(vec!["skipped".to_string()]), None));
    assert!(history_entry_is_desensitized(&entry(vec![]), Some("Alice")));
}

#[test]
fn history_text_rejects_user_names_and_raw_hashes() {
    assert!(!text_is_desensitized("owner Alice", Some("Alice")));
    assert!(!text_is_desensitized(
        "ba7816bf8f01cfea414140de5dae2223b00361a396177a9cb410ff61f20015ad",
        None
    ));
    assert!(!text_is_desensitized("report.pdf", None));
    assert!(text_is_desensitized("failed", None));
}
