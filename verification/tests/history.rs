use obsidian_vault_mcp::mutation::history::{
    validate_steps, EditRecord, FileChange, MemoryHistory, MAX_RECORDS,
};

fn record(id: &str, path: &str) -> EditRecord {
    EditRecord {
        id: id.to_string(),
        operation: "edit".to_string(),
        timestamp: "2024-01-01T00:00:00Z".to_string(),
        changes: vec![FileChange::replace(path.to_string(), "one\n".to_string(), "two\n".to_string())],
    }
}

#[test]
fn reversing_a_change_twice_restores_it() {
    let change = FileChange::replace("a.md".into(), "one\n".into(), "ONE\n".into());
    let back = change.reversed();
    assert_eq!(back.before.as_deref(), Some("ONE\n"));
    assert_eq!(back.after.as_deref(), Some("one\n"));
    assert_eq!(back.reversed(), change);
}

#[test]
fn undo_then_redo_restores_both_stacks() {
    let mut history = MemoryHistory::new();
    history.remember(record("first", "a.md"), 10);
    history.remember(record("second", "b.md"), 10);
    assert_eq!(history.undo_ids(2), ["second", "first"]);
    history.undo_steps(2);
    assert_eq!(history.undo_len(), 0);
    assert_eq!(history.redo_ids(2), ["first", "second"]);
    history.redo_steps(2);
    assert_eq!(history.undo_ids(2), ["second", "first"]);
    assert_eq!(history.redo_len(), 0);
    let entries = history.entries();
    assert_eq!(entries.undo[0].operation_id, "second");
    assert_eq!(entries.undo[0].affected_files, ["b.md"]);
}

#[test]
fn a_new_edit_clears_redo() {
    let mut history = MemoryHistory::new();
    history.remember(record("first", "a.md"), 10);
    history.undo_steps(1);
    assert_eq!(history.redo_len(), 1);
    history.remember(record("new", "a.md"), 10);
    assert_eq!(history.redo_len(), 0);
    assert_eq!(validate_steps(1, history.redo_len(), "redo").unwrap_err(), "nothing to redo");
}

#[test]
fn history_keeps_at_most_the_record_limit() {
    let mut history = MemoryHistory::new();
    for index in 0..=MAX_RECORDS {
        history.remember(record(&format!("op-{index}"), "a.md"), 1);
    }
    assert_eq!(history.undo_len(), MAX_RECORDS);
    assert_eq!(history.undo_ids(1), [format!("op-{MAX_RECORDS}")]);
    assert_eq!(history.bytes(), MAX_RECORDS);
}

#[test]
fn history_drops_old_records_over_the_byte_limit() {
    let mut history = MemoryHistory::new();
    history.remember(record("big", "a.md"), 60_000_000);
    history.remember(record("bigger", "a.md"), 10_000_000);
    assert_eq!(history.undo_len(), 1);
    assert_eq!(history.undo_ids(1), ["bigger"]);
    history.remember(record("huge", "a.md"), 100_000_000);
    assert_eq!(history.undo_len(), 1);
}

#[test]
fn step_counts_are_checked() {
    assert_eq!(validate_steps(0, 3, "undo").unwrap_err(), "steps must be between 1 and 100");
    assert_eq!(validate_steps(101, 3, "undo").unwrap_err(), "steps must be between 1 and 100");
    assert_eq!(validate_steps(1, 0, "undo").unwrap_err(), "nothing to undo");
    assert_eq!(
        validate_steps(4, 3, "undo").unwrap_err(),
        "cannot undo 4 steps; only 3 available"
    );
    assert!(validate_steps(3, 3, "redo").is_ok());
}

#[test]
fn history_evicts_oldest_operation_at_limit() {
    let mut history = MemoryHistory::new();
    let mut before = "one\n".to_string();
    for index in 0..=MAX_RECORDS {
        let after = format!("version {index}\n");
        let record = EditRecord {
            id: format!("op-{index}"),
            operation: "edit".to_string(),
            timestamp: "2024-01-01T00:00:00Z".to_string(),
            changes: vec![FileChange::replace("a.md".into(), before.clone(), after.clone())],
        };
        history.remember(record, before.len() + after.len());
        before = after;
    }
    assert_eq!(history.undo_len(), MAX_RECORDS);
    assert_eq!(history.undo_ids(MAX_RECORDS).last().map(String::as_str), Some("op-1"));
}
