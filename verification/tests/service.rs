use obsidian_vault_mcp::blueprint::model::{BlueprintState, CheckItem, CheckUpdate, Todo, TodoStatus};
use obsidian_vault_mcp::blueprint::service::{
    blueprint_state_name, evidence_references, find_todo, flatten_todos, open_dod_ids,
    render_todo, replace_state, todo_graph_node, todo_update_detail_candidate,
};

fn todo(id: &str, children: Vec<Todo>) -> Todo {
    Todo {
        id: id.to_string(),
        title: format!("title {id}"),
        status: TodoStatus::Pending,
        created_by: Some("planner".to_string()),
        owner: None,
        completed_by: None,
        depends_on: vec!["todo-0".to_string()],
        completion_criteria: vec![CheckItem { text: "c".to_string(), completed: false }],
        handoff: Vec::new(),
        result_summary: None,
        references: Vec::new(),
        block_reason: None,
        cancel_reason: None,
        children,
    }
}

#[test]
fn states_change_only_from_active() {
    assert_eq!(
        replace_state("---\nstate: active\n---\n", BlueprintState::Closed).unwrap(),
        "---\nstate: closed\n---\n"
    );
    assert_eq!(
        replace_state("---\nstate: closed\n---\n", BlueprintState::Cancelled).unwrap_err(),
        "Blueprint is not active"
    );
    assert_eq!(blueprint_state_name(BlueprintState::Active), "active");
}

#[test]
fn open_definition_of_done_items_are_listed() {
    let ids = open_dod_ids("- [ ] first ^dod-1\n- [x] done ^dod-2\n- [X] Done ^dod-3\n- [ ] last ^ dod-4 \ntext\n- [ ] x ^dod-5^tail\n");
    assert_eq!(ids, ["dod-1", "dod-5"]);
}

#[test]
fn evidence_references_come_from_link_destinations() {
    assert_eq!(
        evidence_references("See [a](#^evidence-1) and [b](todos/todo-1.md#^evidence-2).").unwrap(),
        ["evidence-1", "evidence-2"]
    );
    assert!(evidence_references("[plain](https://example.com)").unwrap().is_empty());
    assert_eq!(
        evidence_references("[bad](#^note-1)").unwrap_err(),
        "malformed Evidence reference"
    );
    assert_eq!(
        evidence_references("[open](#^evidence-1").unwrap_err(),
        "malformed Evidence reference"
    );
    assert_eq!(
        evidence_references("mentions #^evidence-1 without a link").unwrap_err(),
        "malformed Evidence reference"
    );
}

#[test]
fn new_todo_documents_follow_the_template() {
    let text = render_todo("bp-1", "todo-1", "Write", "why", "how", &vec![" a ".to_string(), "b".to_string()]);
    assert_eq!(
        text,
        "---\nschema: blueprint/todo/v2\nid: todo-1\nblueprint: bp-1\n---\n\n# Write\n\n## Intent\n\nwhy\n\n## Completion Criteria\n\n- [ ] a\n- [ ] b\n\n## Plan\n\nhow\n\n## Handoff\n\n\n## Results\n\n\n## Evidence\n\n\n## Revision History\n\n\n## Notes\n"
    );
}

#[test]
fn todos_are_found_and_flattened_in_document_order() {
    let forest = vec![todo("todo-1", vec![todo("todo-2", vec![])]), todo("todo-3", vec![])];
    assert_eq!(find_todo(&forest, "todo-2").unwrap().id, "todo-2");
    assert!(find_todo(&forest, "todo-9").is_none());
    let ids: Vec<&str> = flatten_todos(&forest).iter().map(|t| t.id.as_str()).collect();
    assert_eq!(ids, ["todo-1", "todo-2", "todo-3"]);
    let node = todo_graph_node(&forest[0]);
    assert_eq!(node.document, "todos/todo-1.md");
    assert_eq!(node.children[0].document, "todos/todo-2.md");
    assert_eq!(node.depends_on, ["todo-0"]);
}

#[test]
fn todo_details_are_edited_section_by_section() {
    let source = "# Old\n\n## Completion Criteria\n\n- [ ] a\n\n## Handoff\n\n\n## Results\n\nnone\n";
    let criteria = vec![CheckUpdate { text: "b".to_string(), completed: true }];
    let handoff = vec![" note ".to_string()];
    let next = todo_update_detail_candidate(source, Some("New"), Some(&criteria), Some(&handoff), Some("done"))
        .unwrap();
    assert_eq!(
        next,
        "# New\n\n## Completion Criteria\n\n- [x] b\n## Handoff\n\n- note\n## Results\n\ndone\n"
    );
    assert_eq!(
        todo_update_detail_candidate(source, Some(" "), None, None, None).unwrap_err(),
        "title must not be empty"
    );
    let empty = vec![CheckUpdate { text: " ".to_string(), completed: false }];
    assert_eq!(
        todo_update_detail_candidate(source, None, Some(&empty), None, None).unwrap_err(),
        "completion criterion must not be empty"
    );
}
