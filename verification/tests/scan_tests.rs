use c_drive_cleaner::models::{CleanupAction, DriveSummary, RiskLevel};
use c_drive_cleaner::paths::ScanRoots;
use c_drive_cleaner::scan::{scan_with_roots, PathProbe};

fn roots() -> ScanRoots {
    ScanRoots {
        c_drive: r"C:\".to_string(),
        user_profile: r"C:\Users\Example".to_string(),
        local_app_data: r"C:\Users\Example\AppData\Local".to_string(),
        windows_dir: r"C:\Windows".to_string(),
    }
}

fn summary() -> DriveSummary {
    DriveSummary {
        drive: "C:".to_string(),
        total_bytes: 1000,
        free_bytes: 500,
    }
}

fn probe(exists: bool, bytes: u64, config: bool, process: bool) -> PathProbe {
    PathProbe {
        exists,
        estimated_bytes: bytes,
        config_referenced: config,
        process_referenced: process,
    }
}

#[test]
fn user_temp_stays_selectable_when_config_references_a_child_temp_file() {
    let mut probes: Vec<PathProbe> = (0..6).map(|_| probe(false, 0, false, false)).collect();
    probes[0] = probe(true, 3, true, false);
    let report = scan_with_roots(&roots(), summary(), &probes, "s".to_string(), "f".to_string());
    let user_temp_item = report
        .items
        .iter()
        .find(|item| item.id == "user-temp")
        .expect("user-temp item");

    assert_eq!(user_temp_item.risk_level, RiskLevel::Recommended);
    assert_eq!(user_temp_item.cleanup_action, CleanupAction::DirectDelete);
    assert!(user_temp_item.default_selected);
}

#[test]
fn missing_locations_are_left_out_and_referenced_ones_blocked() {
    let probes = vec![
        probe(true, 10, false, true),
        probe(false, 0, false, false),
        probe(false, 0, false, false),
        probe(true, 0, false, false),
        probe(false, 0, false, false),
        probe(true, 7, true, false),
    ];
    let report = scan_with_roots(&roots(), summary(), &probes, "s".to_string(), "f".to_string());
    assert_eq!(report.items.len(), 3);
    assert_eq!(report.items[0].id, "user-temp");
    assert_eq!(report.items[0].risk_level, RiskLevel::NotCleanable);
    assert_eq!(report.items[0].cleanup_action, CleanupAction::BlockedByProcess);
    assert!(!report.items[0].default_selected);
    assert_eq!(
        report.items[0].technical_path,
        Some(r"C:\Users\Example\AppData\Local\Temp".to_string())
    );
    assert_eq!(report.items[2].cleanup_action, CleanupAction::BlockedByConfigReference);
    assert_eq!(report.items[2].estimated_bytes, 7);
    assert!(!report.partial);
    assert_eq!(report.scan_started_at, "s");
    assert_eq!(report.drive_summary, summary());
}
