use std::sync::{Arc, Mutex};

use c_drive_cleaner::cleanup::same_location_exec;
use c_drive_cleaner::cleanup::{
    build_c_drive_cleanup_history_entry, build_cleanup_result, decide_checked_item, execute_planned_cleanup, path_is_old_enough,
    plan_selected_cleanup, recycle_path_or_contents, recycled_item_result,
    validate_high_risk_confirmation, CheckFindings, CheckObservation, CheckedItem, ChildListing,
    CleanupStep, LocationListing,
};
use c_drive_cleaner::v2::recycle_bin::{RecycleBin, RecycleBinError};
use c_drive_cleaner::errors::CleanerError;
use c_drive_cleaner::models::{
    CleanupAction, CleanupItemResult, CleanupSelection, RiskLevel, ScanItem, SourceCategory,
};
use c_drive_cleaner::paths::ScanRoots;

fn user_temp_item(path: &str) -> ScanItem {
    ScanItem {
        id: "user-temp".to_string(),
        title: "用户临时文件".to_string(),
        description: "临时文件".to_string(),
        source_category: SourceCategory::System,
        risk_level: RiskLevel::Recommended,
        cleanup_action: CleanupAction::DirectDelete,
        estimated_bytes: 10,
        default_selected: true,
        user_visible_path_hint: "当前用户临时目录".to_string(),
        technical_path: Some(path.to_string()),
        reasons: vec![],
        warnings: vec![],
    }
}

fn example_roots() -> ScanRoots {
    ScanRoots {
        c_drive: r"C:\".to_string(),
        user_profile: r"C:\Users\Example".to_string(),
        local_app_data: r"C:\Users\Example\AppData\Local".to_string(),
        windows_dir: r"C:\Windows".to_string(),
    }
}

fn done(step: &CleanupStep) -> &CleanupItemResult {
    match step {
        CleanupStep::Done(result) => result,
        CleanupStep::Check(_) => panic!("expected a decided step"),
    }
}

#[test]
fn rejects_high_risk_without_second_confirmation() {
    let item = ScanItem {
        id: "wechat-video-cache".to_string(),
        title: "微信视频缓存子目录".to_string(),
        description: "精确命中的微信视频缓存。".to_string(),
        source_category: SourceCategory::Wechat,
        risk_level: RiskLevel::HighRisk,
        cleanup_action: CleanupAction::DirectDelete,
        estimated_bytes: 10,
        default_selected: false,
        user_visible_path_hint: "微信视频缓存子目录".to_string(),
        technical_path: None,
        reasons: vec![],
        warnings: vec![],
    };
    let selection = CleanupSelection {
        selected_item_ids: vec!["wechat-video-cache".to_string()],
        high_risk_confirmed: false,
    };

    assert!(validate_high_risk_confirmation(&selection, &vec![item]).is_err());
}

#[test]
fn reports_selected_item_that_disappeared_before_cleanup() {
    let roots = example_roots();
    let selection = CleanupSelection {
        selected_item_ids: vec!["user-temp".to_string()],
        high_risk_confirmed: false,
    };

    let steps = plan_selected_cleanup(&selection, &vec![], &roots).expect("cleanup result");

    assert_eq!(steps.len(), 1);
    assert_eq!(done(&steps[0]).item_id, "user-temp");
    assert_eq!(done(&steps[0]).status, "skipped");
}

#[test]
fn rejects_selected_cleanup_outside_c_drive_even_when_rule_matches() {
    let roots = ScanRoots {
        c_drive: r"C:\".to_string(),
        user_profile: r"D:\Users\Example".to_string(),
        local_app_data: r"D:\Users\Example\AppData\Local".to_string(),
        windows_dir: r"C:\Windows".to_string(),
    };
    let item = user_temp_item(r"D:\Users\Example\AppData\Local\Temp");
    let selection = CleanupSelection {
        selected_item_ids: vec!["user-temp".to_string()],
        high_risk_confirmed: false,
    };

    let steps = plan_selected_cleanup(&selection, &vec![item], &roots).expect("cleanup result");

    assert_eq!(done(&steps[0]).status, "failed");
    assert!(done(&steps[0]).message.contains("C"));
}

#[test]
fn high_risk_confirmation_message_and_confirmed_pass() {
    let mut item = user_temp_item(r"C:\x");
    item.risk_level = RiskLevel::HighRisk;
    let selection = CleanupSelection {
        selected_item_ids: vec!["user-temp".to_string()],
        high_risk_confirmed: false,
    };
    assert_eq!(
        validate_high_risk_confirmation(&selection, &vec![item.clone()]),
        Err("高风险项目需要二次确认。".to_string())
    );
    let confirmed = CleanupSelection {
        selected_item_ids: vec!["user-temp".to_string()],
        high_risk_confirmed: true,
    };
    assert_eq!(validate_high_risk_confirmation(&confirmed, &vec![item.clone()]), Ok(()));
    let unselected = CleanupSelection {
        selected_item_ids: vec![],
        high_risk_confirmed: false,
    };
    assert_eq!(validate_high_risk_confirmation(&unselected, &vec![item]), Ok(()));
}

#[test]
fn repeated_selection_is_planned_once_and_matching_item_is_checked() {
    let roots = example_roots();
    let item = user_temp_item(r"C:\Users\Example\AppData\Local\Temp");
    let selection = CleanupSelection {
        selected_item_ids: vec!["user-temp".to_string(), "user-temp".to_string()],
        high_risk_confirmed: false,
    };
    let steps = plan_selected_cleanup(&selection, &vec![item], &roots).expect("plan");
    assert_eq!(steps.len(), 1);
    match &steps[0] {
        CleanupStep::Check(check) => {
            assert_eq!(check.item_id, "user-temp");
            assert_eq!(check.expected_path, r"C:\Users\Example\AppData\Local\Temp");
            assert!(!check.protect_config_references);
        }
        CleanupStep::Done(_) => panic!("expected a check"),
    }
}

#[test]
fn mismatched_scan_path_fails() {
    let roots = example_roots();
    let item = user_temp_item(r"C:\Elsewhere\Temp");
    let selection = CleanupSelection {
        selected_item_ids: vec!["user-temp".to_string()],
        high_risk_confirmed: false,
    };
    let steps = plan_selected_cleanup(&selection, &vec![item], &roots).expect("plan");
    assert_eq!(done(&steps[0]).status, "failed");
    assert_eq!(done(&steps[0]).message, "用户临时文件 清理失败：扫描路径和规则路径不一致。");
}

fn sample_check() -> CheckedItem {
    CheckedItem {
        item_id: "user-temp".to_string(),
        title: "用户临时文件".to_string(),
        expected_path: r"C:\Users\Example\AppData\Local\Temp".to_string(),
        expected_root: r"C:\Users\Example\AppData\Local".to_string(),
        contents_only: true,
        min_age_minutes: 60,
        protect_config_references: true,
    }
}

fn clean_observation() -> CheckObservation {
    CheckObservation {
        exists: true,
        root_check: Ok(()),
        config_referenced: false,
        process_referenced: false,
        old_enough: true,
    }
}

#[test]
fn checked_item_outcomes_follow_the_check_order() {
    let check = sample_check();
    assert!(decide_checked_item(&check, &clean_observation()).is_none());

    let mut gone = clean_observation();
    gone.exists = false;
    gone.process_referenced = true;
    let result = decide_checked_item(&check, &gone).unwrap();
    assert_eq!(result.status, "skipped");
    assert_eq!(result.message, "用户临时文件 已跳过：路径已不存在。");

    let mut outside = clean_observation();
    outside.root_check = Err(CleanerError::PathOutsideAllowedRoot);
    let result = decide_checked_item(&check, &outside).unwrap();
    assert_eq!(result.status, "failed");
    assert_eq!(
        result.message,
        "用户临时文件 清理失败：路径安全校验未通过：path is outside the allowed root。"
    );

    let mut referenced = clean_observation();
    referenced.config_referenced = true;
    assert_eq!(
        decide_checked_item(&check, &referenced).unwrap().message,
        "用户临时文件 已跳过：清理前复查发现仍被配置引用。"
    );

    let mut running = clean_observation();
    running.process_referenced = true;
    assert_eq!(
        decide_checked_item(&check, &running).unwrap().message,
        "用户临时文件 已跳过：清理前复查发现仍被运行中的程序使用。"
    );

    let mut recent = clean_observation();
    recent.old_enough = false;
    assert_eq!(
        decide_checked_item(&check, &recent).unwrap().message,
        "用户临时文件 已跳过：最近仍有修改，暂不清理。"
    );
}

#[test]
fn recycle_outcome_becomes_deleted_or_failed() {
    let check = sample_check();
    let ok = recycled_item_result(&check, &Ok(3));
    assert_eq!(ok.status, "deleted");
    assert_eq!(ok.freed_bytes, 3);
    assert_eq!(ok.message, "用户临时文件 已移入回收站。");
    let failed = recycled_item_result(&check, &Err(CleanerError::RecycleBin("x".to_string())));
    assert_eq!(failed.status, "failed");
    assert_eq!(failed.freed_bytes, 0);
    assert_eq!(failed.message, "用户临时文件 移入回收站失败，本项未清理。");
}

#[test]
fn age_check_uses_minutes_and_unknown_times() {
    let minute: u128 = 60_000_000_000;
    assert!(path_is_old_enough(0, None, 0));
    assert!(!path_is_old_enough(1, None, 10 * minute));
    assert!(path_is_old_enough(1, Some(9 * minute), 10 * minute));
    assert!(!path_is_old_enough(1, Some(9 * minute + 1), 10 * minute));
    assert!(path_is_old_enough(5, Some(0), minute));
}

#[test]
fn cleanup_result_totals_freed_bytes() {
    let results = vec![
        CleanupItemResult {
            item_id: "a".to_string(),
            status: "deleted".to_string(),
            freed_bytes: 3,
            message: String::new(),
        },
        CleanupItemResult {
            item_id: "b".to_string(),
            status: "deleted".to_string(),
            freed_bytes: 4,
            message: String::new(),
        },
    ];
    let result = build_cleanup_result(results, "t".to_string());
    assert_eq!(result.total_freed_bytes, 7);
    assert_eq!(result.results.len(), 2);
    assert_eq!(result.finished_at, "t");
}

#[derive(Default)]
struct RecordingRecycleBin {
    paths: Arc<Mutex<Vec<String>>>,
    fail: bool,
}

impl RecycleBin for RecordingRecycleBin {
    fn move_to_recycle_bin(&self, path: &str) -> Result<(), RecycleBinError> {
        self.paths.lock().unwrap().push(path.to_string());
        if self.fail {
            Err(RecycleBinError::Failed("busy".to_string()))
        } else {
            Ok(())
        }
    }
}

fn child(path: &str, link: bool, canonical: Option<&str>, size: u64) -> ChildListing {
    ChildListing {
        path: path.to_string(),
        link_check: Ok(link),
        canonical: Ok(canonical.map(|c| c.to_string())),
        size_bytes: size,
    }
}

fn folder_listing(children: Vec<ChildListing>) -> LocationListing {
    LocationListing {
        exists: true,
        link_check: Ok(false),
        size_bytes: 100,
        contents: Ok((r"C:\T".to_string(), children)),
    }
}

#[test]
fn contents_recycling_skips_links_and_vanished_entries() {
    let bin = RecordingRecycleBin::default();
    let listing = folder_listing(vec![
        child(r"C:\T\a.log", false, Some(r"C:\T\a.log"), 3),
        child(r"C:\T\link", true, Some(r"D:\elsewhere"), 50),
        child(r"C:\T\gone", false, None, 7),
        child(r"C:\T\b", false, Some(r"C:\T\b"), 4),
    ]);
    let outcome = recycle_path_or_contents(r"C:\T", &listing, true, &bin);
    assert_eq!(outcome.result.unwrap(), 7);
    assert_eq!(outcome.requested, vec![r"C:\T\a.log".to_string(), r"C:\T\b".to_string()]);
    assert_eq!(*bin.paths.lock().unwrap(), outcome.requested);
}

#[test]
fn contents_recycling_stops_at_entry_outside_folder() {
    let bin = RecordingRecycleBin::default();
    let listing = folder_listing(vec![
        child(r"C:\T\a", false, Some(r"C:\T\a"), 3),
        child(r"C:\T\escape", false, Some(r"C:\Other\x"), 9),
        child(r"C:\T\c", false, Some(r"C:\T\c"), 4),
    ]);
    let outcome = recycle_path_or_contents(r"C:\T", &listing, true, &bin);
    assert!(matches!(outcome.result, Err(CleanerError::PathOutsideAllowedRoot)));
    assert_eq!(outcome.requested, vec![r"C:\T\a".to_string()]);
}

#[test]
fn link_locations_are_refused() {
    let bin = RecordingRecycleBin::default();
    let mut listing = folder_listing(vec![]);
    listing.link_check = Ok(true);
    let outcome = recycle_path_or_contents(r"C:\T", &listing, false, &bin);
    match outcome.result {
        Err(CleanerError::PathResolution(message)) => {
            assert_eq!(message, "refusing to move a link or reparse point to recycle bin")
        }
        _ => panic!("expected a refusal"),
    }
    assert!(bin.paths.lock().unwrap().is_empty());
}

#[test]
fn whole_location_recycling_reports_bin_failure() {
    let bin = RecordingRecycleBin {
        paths: Arc::new(Mutex::new(Vec::new())),
        fail: true,
    };
    let outcome = recycle_path_or_contents(r"C:\T", &folder_listing(vec![]), false, &bin);
    match outcome.result {
        Err(CleanerError::RecycleBin(message)) => assert_eq!(message, "busy"),
        _ => panic!("expected a recycle bin error"),
    }
    assert_eq!(outcome.requested, vec![r"C:\T".to_string()]);
}

#[test]
fn planned_cleanup_moves_only_items_that_pass_their_checks() {
    let bin = RecordingRecycleBin::default();
    let skipped = CleanupItemResult {
        item_id: "gone".to_string(),
        status: "skipped".to_string(),
        freed_bytes: 0,
        message: "gone 已跳过：清理前复查未再命中该项目。".to_string(),
    };
    let mut busy = sample_check();
    busy.item_id = "busy".to_string();
    let steps = vec![
        CleanupStep::Done(skipped.clone()),
        CleanupStep::Check(sample_check()),
        CleanupStep::Check(busy),
    ];
    let mut running = clean_observation();
    running.process_referenced = true;
    let findings = vec![
        None,
        Some(CheckFindings {
            observation: clean_observation(),
            listing: folder_listing(vec![child(r"C:\T\a", false, Some(r"C:\T\a"), 5)]),
        }),
        Some(CheckFindings {
            observation: running,
            listing: folder_listing(vec![child(r"C:\T\z", false, Some(r"C:\T\z"), 9)]),
        }),
    ];
    let executed = execute_planned_cleanup(&steps, &findings, &bin, "done".to_string());
    assert_eq!(executed.result.results.len(), 3);
    assert_eq!(executed.result.results[0], skipped);
    assert_eq!(executed.result.results[1].status, "deleted");
    assert_eq!(executed.result.results[1].freed_bytes, 5);
    assert_eq!(executed.result.results[2].status, "skipped");
    assert_eq!(executed.result.total_freed_bytes, 5);
    assert_eq!(executed.requested[1], vec![r"C:\T\a".to_string()]);
    assert!(executed.requested[2].is_empty());
    assert_eq!(*bin.paths.lock().unwrap(), vec![r"C:\T\a".to_string()]);
}

#[test]
fn history_entry_counts_each_result_once() {
    let make = |id: &str, status: &str, freed: u64| CleanupItemResult {
        item_id: id.to_string(),
        status: status.to_string(),
        freed_bytes: freed,
        message: String::new(),
    };
    let result = build_cleanup_result(
        vec![
            make("a", "deleted", 5),
            make("b", "skipped", 0),
            make("c", "failed", 0),
            make("d", "deleted", 1),
        ],
        "t1".to_string(),
    );
    let entry = build_c_drive_cleanup_history_entry(&result, "t0".to_string());
    assert_eq!(entry.success_count, 2);
    assert_eq!(entry.skipped_count, 1);
    assert_eq!(entry.failed_count, 1);
    assert_eq!(entry.freed_bytes, 6);
    assert_eq!(entry.other_drive_freed_bytes, 0);
    assert_eq!(
        entry.error_categories,
        vec!["部分项目失败".to_string(), "部分项目跳过".to_string()]
    );
    assert!(entry.history_id.starts_with("history-cdrive-"));
    assert_eq!(entry.started_at, "t0");
    assert_eq!(entry.finished_at, "t1");
}

#[test]
fn locations_compare_by_their_steps() {
    assert!(same_location_exec(r"C:\Users\A\AppData\Local\Temp", r"C:\Users\A\\AppData\.\Local\Temp\"));
    assert!(same_location_exec("C:/Users/A", r"C:\Users\A"));
    assert!(!same_location_exec(r"C:\Users\A", r"C:\Users\B"));
    assert!(!same_location_exec(r"\\server\share", r"\server\share"));
    assert!(!same_location_exec(r"C:\Users\A\..\B", r"C:\Users\B"));
}
