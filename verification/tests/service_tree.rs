use obsidian_vault_mcp::blueprint::model::{BlueprintState, TodoStatus};
use obsidian_vault_mcp::blueprint::service::{
    append_revision, append_revision_with, blueprint_status_of, evidence_closure,
    graph_candidate_edit, todo_from_source, todo_update_graph_candidate,
    validate_complete_close_evidence,
};

fn blueprint_v2(todos: &str, results: &str, revisions: &str) -> String {
    format!(
        "---\nschema: blueprint/v2\nid: bp-01\nstate: active\n---\n\n# 目标\n\n## Record\n\nr\n\n## Intent\n\ni\n\n## Constraints\n\nc\n\n## Definition of Done\n\n- [ ] 完成 ^dod-1\n\n## Plan\n\np\n\n## Rubric\n\nr\n\n## Todos\n\n{todos}\n## Results\n\n{results}\n\n## Evidence\n\n## Revision History\n\n{revisions}\n\n## Notes\n"
    )
}

const TODOS: &str = "- [ ] [写初稿](todos/todo-1.md) ^todo-1\n  - Created By: planner\n- [?] [审阅](todos/todo-2.md) ^todo-2\n  - Created By: planner\n  - Owner: editor\n  - Depends On: todo-1\n  - Block Reason: 等待\n  - Handoff: 交给作者\n";

#[test]
fn reads_a_todo_back_from_the_tree() {
    let source = blueprint_v2(TODOS, "", "");
    let todo = todo_from_source("bp-01", &source, "todo-2").unwrap();
    assert_eq!(todo.title, "审阅");
    assert_eq!(todo.status, TodoStatus::Blocked);
    assert_eq!(todo.depends_on, vec!["todo-1".to_string()]);
    assert_eq!(
        todo_from_source("bp-01", &source, "todo-9").unwrap_err(),
        "Todo was not found after write: todo-9"
    );
}

#[test]
fn status_lists_ready_blocked_unassigned_and_open_todos() {
    let source = blueprint_v2(TODOS, "", "");
    let status = blueprint_status_of("bp-01", BlueprintState::Active, &source).unwrap();
    assert_eq!(status.state, "active");
    assert_eq!(status.ready_todos, vec!["todo-1".to_string()]);
    assert!(status.not_ready_todos.is_empty());
    assert_eq!(status.blocked_todos, vec!["todo-2".to_string()]);
    assert_eq!(status.unassigned_todos, vec!["todo-1".to_string()]);
    assert_eq!(status.open_todos, vec!["todo-1".to_string(), "todo-2".to_string()]);
    assert_eq!(status.open_definition_of_done, vec!["dod-1".to_string()]);
    assert_eq!(status.todos.len(), 2);
}

#[test]
fn graph_edits_rename_and_rewire_todos_but_keep_the_graph_acyclic() {
    let source = blueprint_v2(TODOS, "", "");
    let deps = vec!["todo-1".to_string()];
    let next =
        todo_update_graph_candidate("bp-01", &source, "todo-1", Some("新标题"), None).unwrap();
    assert!(next.contains("- [ ] [新标题](todos/todo-1.md) ^todo-1"), "{next}");
    assert_eq!(
        graph_candidate_edit(&source, "todo-1", Some("  "), None).unwrap_err(),
        "title must not be empty"
    );
    let cyclic = todo_update_graph_candidate("bp-01", &source, "todo-1", None, Some(&vec!["todo-2".to_string()]));
    assert!(cyclic.unwrap_err().contains("cycle"));
    let same = todo_update_graph_candidate("bp-01", &source, "todo-2", None, Some(&deps)).unwrap();
    assert!(same.contains("  - Depends On: todo-1\n"), "{same}");
    assert_eq!(
        graph_candidate_edit(&source, "todo-7", Some("x"), None).unwrap_err(),
        "unknown Todo: todo-7"
    );
}

#[test]
fn revisions_are_appended_after_a_blank_line() {
    let source = blueprint_v2(TODOS, "", "### 初始 ^revision-1\n\n- Changed By: planner");
    let next = append_revision_with(&source, " planner ", " 原因 ", "调整", "01ARZ3NDEKTSV4RRFFQ69G5FAV")
        .unwrap();
    assert!(next.contains(
        "## Revision History\n\n### 初始 ^revision-1\n\n- Changed By: planner\n\n### 调整 ^revision-01ARZ3NDEKTSV4RRFFQ69G5FAV\n\n- Changed By: planner\n- Reason: 原因\n## Notes"
    ), "{next}");
    let fresh = append_revision(&source, "a", "b", "c").unwrap();
    let at = fresh.find("^revision-").unwrap();
    let rest = &fresh[at..];
    assert!(rest.starts_with("^revision-1\n"));
    let second = &fresh[fresh.rfind("^revision-").unwrap() + "^revision-".len()..];
    assert_eq!(second.find('\n'), Some(26));
}

#[test]
fn evidence_closure_reports_unread_documents_duplicates_and_dangling_references() {
    let ok = vec![Ok(vec!["evidence-1".to_string()]), Ok(vec!["evidence-2".to_string()])];
    let refs = vec!["evidence-2".to_string()];
    assert!(evidence_closure(&ok, &refs).is_ok());
    let dup = vec![Ok(vec!["evidence-1".to_string()]), Ok(vec!["evidence-1".to_string()])];
    assert_eq!(evidence_closure(&dup, &refs).unwrap_err(), "duplicate Evidence ID");
    let unread = vec![Ok(vec!["evidence-1".to_string()]), Err("cannot read".to_string())];
    assert_eq!(evidence_closure(&unread, &refs).unwrap_err(), "cannot read");
    let dangling = vec!["evidence-1".to_string(), "evidence-3".to_string()];
    assert_eq!(
        evidence_closure(&ok, &dangling).unwrap_err(),
        "dangling Evidence reference: evidence-3"
    );
}

#[test]
fn complete_close_needs_results_that_reference_evidence() {
    let source = blueprint_v2(TODOS, "", "");
    assert_eq!(
        validate_complete_close_evidence(&source, &Ok(Vec::new())).unwrap_err(),
        "complete Blueprint close requires Results with a valid Evidence reference"
    );
    let linked = blueprint_v2(TODOS, "见 [证据](#^evidence-9)", "");
    let error = validate_complete_close_evidence(&linked, &Err("no index".to_string())).unwrap_err();
    assert!(!error.is_empty());
}
