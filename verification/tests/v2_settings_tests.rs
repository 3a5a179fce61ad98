use c_drive_cleaner::v2::models::DuplicateDefaultStrategy;
use c_drive_cleaner::v2::settings::{
    default_settings, sanitize_custom_extensions, settings_load_from_read, SettingsFileRead,
    SettingsLoad,
};

#[test]
fn default_settings_match_v02_product_decisions() {
    let settings = default_settings();
    assert_eq!(settings.default_scan_drives, vec!["C:"]);
    assert_eq!(
        settings.large_file_default_threshold_bytes,
        500 * 1024 * 1024
    );
    assert_eq!(settings.history_retention_days, 30);
    assert!(!settings.desktop_shortcut_enabled);
    assert!(!settings.c_drive_context_menu_enabled);
    assert!(!settings.scheduled_scan_reminder_enabled);
    assert_eq!(
        settings.duplicate_default_strategy,
        DuplicateDefaultStrategy::CDriveFirstKeepNewest
    );
}

#[test]
fn custom_extensions_accept_safe_tokens_and_drop_unsafe_tokens() {
    assert_eq!(
        sanitize_custom_extensions("jpg, .mp4;zip;*.exe;中文;tar.gz"),
        vec!["jpg", "mp4", "zip", "tar.gz"]
    );
}

#[test]
fn missing_settings_file_returns_defaults() {
    assert!(matches!(
        settings_load_from_read(SettingsFileRead::Missing),
        SettingsLoad::Defaults
    ));
}

#[test]
fn unreadable_settings_file_gives_path_free_error() {
    match settings_load_from_read(SettingsFileRead::Unreadable) {
        SettingsLoad::Failed(message) => {
            assert!(!message.contains("settings.json"));
            assert!(!message.is_empty());
        }
        _ => panic!("expected a failure"),
    }
    match settings_load_from_read(SettingsFileRead::Content("{}".to_string())) {
        SettingsLoad::Parse(text) => assert_eq!(text, "{}"),
        _ => panic!("expected the text to parse"),
    }
}

#[test]
fn custom_extensions_are_lowercased_and_deduplicated() {
    assert_eq!(sanitize_custom_extensions("JPG, jpg ,,Png"), vec!["jpg", "png"]);
}

#[test]
fn sanitized_extensions_survive_rejoining() {
    let first = sanitize_custom_extensions("JPG, .mp4;zip;*.exe;中文;tar.gz;jpg");
    assert_eq!(first, vec!["jpg", "mp4", "zip", "tar.gz"]);
    let again = sanitize_custom_extensions(&first.join(","));
    assert_eq!(again, first);
    assert!(sanitize_custom_extensions(&Vec::<String>::new().join(",")).is_empty());
}
