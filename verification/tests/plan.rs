use obsidian_vault_mcp::mutation::history::{EditRecord, FileChange, MemoryHistory};
use obsidian_vault_mcp::mutation::plan::{plan_steps, record_paths};

fn change(path: &str, before: Option<&str>, after: Option<&str>) -> FileChange {
    FileChange {
        path: path.to_string(),
        before: before.map(str::to_string),
        after: after.map(str::to_string),
    }
}

fn record(id: &str, changes: Vec<FileChange>) -> EditRecord {
    EditRecord {
        id: id.to_string(),
        operation: "edit_note".to_string(),
        timestamp: "0".to_string(),
        changes,
    }
}

#[test]
fn undoing_two_operations_on_one_note_restores_the_first_text() {
    let records = vec![
        record("2", vec![change("a.md", Some("b"), Some("c"))]),
        record("1", vec![change("a.md", Some("a"), Some("b"))]),
    ];
    assert_eq!(record_paths(&records), vec!["a.md".to_string()]);
    let (changes, conflicts) = plan_steps(&records, true, &vec![Some("c".to_string())]);
    assert!(conflicts.is_empty());
    assert_eq!(changes, vec![change("a.md", Some("c"), Some("a"))]);
}

#[test]
fn a_changed_note_is_a_conflict_and_nothing_is_planned() {
    let records = vec![record(
        "1",
        vec![change("b.md", Some("x"), Some("y")), change("a.md", None, Some("new"))],
    )];
    assert_eq!(record_paths(&records), vec!["b.md".to_string(), "a.md".to_string()]);
    let current = vec![Some("edited".to_string()), Some("new".to_string())];
    let (changes, conflicts) = plan_steps(&records, true, &current);
    assert!(changes.is_empty());
    assert_eq!(conflicts, vec!["b.md".to_string()]);
}

#[test]
fn planned_changes_are_sorted_by_path_and_skip_unchanged_notes() {
    let records = vec![record(
        "1",
        vec![
            change("z.md", Some("1"), Some("2")),
            change("m.md", Some("same"), Some("same")),
            change("a.md", None, Some("created")),
        ],
    )];
    let current = vec![Some("2".to_string()), Some("same".to_string()), Some("created".to_string())];
    let (changes, conflicts) = plan_steps(&records, true, &current);
    assert!(conflicts.is_empty());
    assert_eq!(
        changes,
        vec![change("a.md", Some("created"), None), change("z.md", Some("2"), Some("1"))]
    );
}

#[test]
fn redo_replays_forward_and_reports_conflicts_once_each_sorted() {
    let records = vec![
        record("1", vec![change("b.md", Some("1"), Some("2"))]),
        record("2", vec![change("b.md", Some("2"), Some("3")), change("a.md", Some("x"), Some("y"))]),
    ];
    let current = vec![Some("1".to_string()), Some("x".to_string())];
    let (changes, conflicts) = plan_steps(&records, false, &current);
    assert!(conflicts.is_empty());
    assert_eq!(
        changes,
        vec![change("a.md", Some("x"), Some("y")), change("b.md", Some("1"), Some("3"))]
    );
    let stale = vec![Some("9".to_string()), Some("9".to_string())];
    let (none, conflicts) = plan_steps(&records, false, &stale);
    assert!(none.is_empty());
    assert_eq!(conflicts, vec!["a.md".to_string(), "b.md".to_string()]);
}

#[test]
fn the_history_selects_the_most_recent_operations_first() {
    let mut history = MemoryHistory::new();
    history.remember(record("1", vec![change("a.md", Some("a"), Some("b"))]), 10);
    history.remember(record("2", vec![change("a.md", Some("b"), Some("c"))]), 10);
    let selected = history.undo_selection(2);
    assert_eq!(selected[0].id, "2");
    assert_eq!(selected[1].id, "1");
    let (changes, _) = plan_steps(&selected, true, &vec![Some("c".to_string())]);
    assert_eq!(changes, vec![change("a.md", Some("c"), Some("a"))]);
    history.undo_steps(2);
    let again = history.redo_selection(1);
    assert_eq!(again[0].id, "1");
}
