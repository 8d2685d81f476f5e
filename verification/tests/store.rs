use obsidian_vault_mcp::blueprint::model::{BlueprintState, TodoGraphNode, TodoStatus};
use obsidian_vault_mcp::blueprint::store::{
    check_aggregate_links, check_etag, etag, flatten_todos, state_name_of, validate_blueprint_id,
    validate_todo_id,
};

fn node(id: &str, document: &str, children: Vec<TodoGraphNode>) -> TodoGraphNode {
    TodoGraphNode {
        id: id.to_string(),
        title: id.to_string(),
        document: document.to_string(),
        status: TodoStatus::Pending,
        created_by: None,
        owner: None,
        completed_by: None,
        depends_on: Vec::new(),
        block_reason: None,
        cancel_reason: None,
        children,
    }
}

#[test]
fn ids_need_their_prefix_and_no_path_separators() {
    assert!(validate_blueprint_id("bp-01").is_ok());
    assert_eq!(validate_blueprint_id("bp-").unwrap_err(), "invalid Blueprint ID: bp-");
    assert_eq!(validate_blueprint_id("bp-a/b").unwrap_err(), "invalid Blueprint ID: bp-a/b");
    assert_eq!(validate_blueprint_id("xx-1").unwrap_err(), "invalid Blueprint ID: xx-1");
    assert!(validate_todo_id("todo-1").is_ok());
    assert_eq!(validate_todo_id("todo-").unwrap_err(), "invalid Todo ID: todo-");
    assert_eq!(validate_todo_id("todo-a\\b").unwrap_err(), "invalid Todo ID: todo-a\\b");
}

#[test]
fn etags_are_stable_hex_and_guard_writes() {
    let a = etag("# note\n");
    assert_eq!(a.len(), 16);
    assert!(a.chars().all(|c| c.is_ascii_hexdigit() && !c.is_ascii_uppercase()));
    assert_eq!(a, etag("# note\n"));
    assert_ne!(a, etag("# other\n"));
    assert!(check_etag(None, &a).is_ok());
    assert!(check_etag(Some(&a), &a).is_ok());
    assert_eq!(
        check_etag(Some("0000000000000000"), &a).unwrap_err(),
        "document etag does not match; re-read before writing"
    );
    assert_eq!(state_name_of(BlueprintState::Cancelled), "cancelled");
}

#[test]
fn aggregate_links_must_match_documents() {
    let graph = vec![node("todo-1", "todos/todo-1.md", vec![node("todo-2", "todos/todo-2.md", vec![])])];
    let flat = flatten_todos(&graph);
    assert_eq!(flat.iter().map(|n| n.id.as_str()).collect::<Vec<_>>(), ["todo-1", "todo-2"]);
    let docs = vec!["todo-1".to_string(), "todo-2".to_string()];
    assert!(check_aggregate_links(&flat, &docs).is_ok());
    assert_eq!(
        check_aggregate_links(&flat, &vec!["todo-1".to_string()]).unwrap_err(),
        "missing Todo document: todo-2"
    );
    let mut orphaned = docs.clone();
    orphaned.push("todo-9".to_string());
    assert_eq!(
        check_aggregate_links(&flat, &orphaned).unwrap_err(),
        "orphan Todo document: todo-9"
    );
    let wrong = vec![node("todo-1", "todos/other.md", vec![])];
    assert_eq!(
        check_aggregate_links(&wrong, &vec!["todo-1".to_string()]).unwrap_err(),
        "Todo todo-1 must link to todos/todo-1.md"
    );
}
