use obsidian_vault_mcp::blueprint::legacy::ParsedBlueprintSource;
use obsidian_vault_mcp::blueprint::model::TodoStatus;

fn blueprint_v2(todos: &str) -> String {
    format!(
        "---\nschema: blueprint/v2\nid: bp-01\nstate: active\n---\n\n# 目标\n\n## Record\n\nr\n\n## Intent\n\ni\n\n## Constraints\n\nc\n\n## Definition of Done\n\n- [ ] 完成\n\n## Plan\n\np\n\n## Rubric\n\nr\n\n## Todos\n\n{todos}\n## Results\n\n## Evidence\n\n## Revision History\n\n## Notes\n"
    )
}

#[test]
fn reads_inline_todo_fields_criteria_and_children() {
    let todos = "- [/] 写初稿 ^todo-1\n  - Created By: planner\n  - Owner: writer\n  - Depends On: todo-0, todo-9\n  - Handoff: 交给审阅\n  - Reference: notes/a.md\n  - Children:\n    - [ ] 子任务 ^todo-2\n      - Completion Criteria:\n        - [x] 核对\n        - [ ] 修改\n      - Children:\n        - [x] 孙任务 ^todo-3\n";
    let source = blueprint_v2(todos);
    let parsed = ParsedBlueprintSource::parse("bp-01.md", &source).unwrap();
    assert_eq!(parsed.todos.len(), 1);
    let top = &parsed.todos[0];
    assert_eq!(top.id, "todo-1");
    assert_eq!(top.title, "写初稿");
    assert_eq!(top.status, TodoStatus::InProgress);
    assert_eq!(top.created_by.as_deref(), Some("planner"));
    assert_eq!(top.owner.as_deref(), Some("writer"));
    assert_eq!(top.depends_on, vec!["todo-0".to_string(), "todo-9".to_string()]);
    assert_eq!(top.handoff, vec!["交给审阅".to_string()]);
    assert_eq!(top.references, vec!["notes/a.md".to_string()]);
    assert_eq!(top.children.len(), 1);
    let child = &top.children[0];
    assert_eq!(child.id, "todo-2");
    assert_eq!(child.completion_criteria.len(), 2);
    assert_eq!(child.completion_criteria[0].text, "核对");
    assert!(child.completion_criteria[0].completed);
    assert!(!child.completion_criteria[1].completed);
    // The child was copied into its parent before its own child was attached.
    assert!(child.children.is_empty());
}

#[test]
fn requires_the_v2_schema() {
    let source = blueprint_v2("- [ ] a ^todo-1\n").replace("blueprint/v2", "blueprint/v3");
    let error = ParsedBlueprintSource::parse("bp-01.md", &source).err().unwrap();
    assert_eq!(error, "unsupported schema: blueprint/v3");
    let error = ParsedBlueprintSource::parse("bp-01.txt", &source).err().unwrap();
    assert_eq!(error, "document path must end with .md: bp-01.txt");
}

#[test]
fn tasks_without_todo_ids_are_not_todos() {
    let source = blueprint_v2("- [ ] 普通任务\n- [x] 完成 ^todo-7\n");
    let parsed = ParsedBlueprintSource::parse("bp-01.md", &source).unwrap();
    assert_eq!(parsed.todos.len(), 1);
    assert_eq!(parsed.todos[0].id, "todo-7");
    assert_eq!(parsed.todos[0].status, TodoStatus::Completed);
}
