use auric_core::database::PmDependency;
use auric_core::database::PmTicket;
use auric_core::database::status_history_updates;
use auric_core::database::validate_no_cycles;

fn dep(id: &str, source: &str, target: &str) -> PmDependency {
    PmDependency {
        id: id.to_string(),
        source_type: "ticket".to_string(),
        source_id: source.to_string(),
        target_type: "ticket".to_string(),
        target_id: target.to_string(),
    }
}

fn ticket(id: &str, status: &str) -> PmTicket {
    PmTicket {
        id: id.to_string(),
        epic_id: "e1".to_string(),
        name: id.to_string(),
        description: String::new(),
        status: status.to_string(),
        status_updated_at: "2026-01-01 00:00:00".to_string(),
        sort_order: 0,
        working_directory: None,
        context: None,
        model_power: None,
        priority: "normal".to_string(),
        needs_human_supervision: false,
        created_at: "2026-01-01 00:00:00".to_string(),
        updated_at: "2026-01-01 00:00:00".to_string(),
    }
}

#[test]
fn test_validate_no_cycles_ok() {
    let deps = vec![dep("d1", "a", "b"), dep("d2", "b", "c"), dep("d3", "a", "c")];
    assert!(validate_no_cycles(&deps).is_ok());
}

#[test]
fn test_validate_no_cycles_detects_cycle() {
    let deps = vec![dep("d1", "a", "b"), dep("d2", "b", "c"), dep("d3", "c", "a")];
    let result = validate_no_cycles(&deps);
    assert!(result.is_err());
    assert!(result.unwrap_err().contains("Cycle"));
}

#[test]
fn test_validate_no_cycles_empty_is_ok() {
    let deps: Vec<PmDependency> = Vec::new();
    assert!(validate_no_cycles(&deps).is_ok());
}

#[test]
fn test_validate_no_cycles_self_loop() {
    let deps = vec![dep("d1", "a", "a")];
    assert!(validate_no_cycles(&deps).is_err());
}

#[test]
fn test_status_history_records_change() {
    let old = vec![("t1".to_string(), "open".to_string())];
    let tickets = vec![ticket("t1", "in_progress")];
    let updates = status_history_updates(&old, &tickets);
    assert_eq!(updates.len(), 1);
    assert_eq!(updates[0].ticket_id, "t1");
    assert_eq!(updates[0].from_status.as_deref(), Some("open"));
    assert_eq!(updates[0].to_status, "in_progress");
}

#[test]
fn test_status_history_records_creation() {
    let old: Vec<(String, String)> = Vec::new();
    let tickets = vec![ticket("t1", "open")];
    let updates = status_history_updates(&old, &tickets);
    assert_eq!(updates.len(), 1);
    assert_eq!(updates[0].ticket_id, "t1");
    assert!(updates[0].from_status.is_none());
    assert_eq!(updates[0].to_status, "open");
}

#[test]
fn test_status_history_skips_unchanged() {
    let old = vec![("t1".to_string(), "open".to_string())];
    let tickets = vec![ticket("t1", "open"), ticket("t2", "open")];
    let updates = status_history_updates(&old, &tickets);
    assert_eq!(updates.len(), 1);
    assert_eq!(updates[0].ticket_id, "t2");
}
