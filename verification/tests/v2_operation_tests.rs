use c_drive_cleaner::v2::models::OperationStatus;
use c_drive_cleaner::v2::operations::{scan_operation_end, OperationRegistry};

#[test]
fn operation_registry_creates_unique_ids_and_cancels_one_operation() {
    let mut registry = OperationRegistry::default();
    let first = registry.register();
    let second = registry.register();

    assert_ne!(first.operation_id, second.operation_id);
    assert!(!first.cancelled.load(std::sync::atomic::Ordering::Relaxed));

    assert!(registry.cancel(&first.operation_id));
    assert!(first.cancelled.load(std::sync::atomic::Ordering::Relaxed));
    assert!(!second.cancelled.load(std::sync::atomic::Ordering::Relaxed));
    assert!(registry.is_cancelled(&first.operation_id));
    assert!(!registry.is_cancelled(&second.operation_id));
}

#[test]
fn operation_registry_returns_false_for_unknown_cancel_request() {
    let mut registry = OperationRegistry::default();
    assert!(!registry.cancel("missing-operation"));
}

#[test]
fn finished_operation_can_no_longer_be_cancelled() {
    let mut registry = OperationRegistry::new();
    let token = registry.register();
    registry.finish(&token.operation_id);
    assert!(!registry.cancel(&token.operation_id));
    assert!(!registry.is_cancelled(&token.operation_id));
    assert!(!token.cancelled.load(std::sync::atomic::Ordering::Relaxed));
}

#[test]
fn operation_ids_are_hyphenated_uuids() {
    let mut registry = OperationRegistry::new();
    let token = registry.register();
    assert_eq!(token.operation_id.len(), 36);
    assert_eq!(token.operation_id.matches('-').count(), 4);
}

#[test]
fn finishing_one_operation_leaves_the_others() {
    let mut registry = OperationRegistry::new();
    let first = registry.register();
    let other = registry.register();
    registry.finish(&first.operation_id);
    assert!(!registry.cancel(&first.operation_id));
    assert!(registry.cancel(&other.operation_id));
    assert!(registry.is_cancelled(&other.operation_id));
    assert!(other.cancelled.load(std::sync::atomic::Ordering::Relaxed));
    assert!(!first.cancelled.load(std::sync::atomic::Ordering::Relaxed));
    registry.finish("unknown");
    assert!(registry.is_cancelled(&other.operation_id));
}

#[test]
fn scan_results_map_to_their_end_status() {
    assert_eq!(scan_operation_end(&Ok::<u8, String>(1)), (OperationStatus::Completed, None));
    assert_eq!(
        scan_operation_end(&Err::<u8, String>("操作已取消".to_string())),
        (OperationStatus::Cancelled, Some("操作已取消".to_string()))
    );
    assert_eq!(
        scan_operation_end(&Err::<u8, String>("扫描失败".to_string())),
        (OperationStatus::Failed, Some("扫描失败".to_string()))
    );
}

#[test]
fn many_registrations_all_get_new_ids() {
    let mut registry = OperationRegistry::new();
    let mut ids: Vec<String> = Vec::new();
    for _ in 0..50 {
        let token = registry.register();
        assert!(!ids.contains(&token.operation_id));
        ids.push(token.operation_id);
    }
}
