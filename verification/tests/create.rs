use obsidian_vault_mcp::blueprint::create::{
    create_splice, render_task_block, todo_create_detail, todo_create_graph_candidate,
    try_todo_create_graph_candidate,
};
use obsidian_vault_mcp::blueprint::legacy::ParsedBlueprintSource;

fn blueprint_v2(todos: &str) -> String {
    format!(
        "---\nschema: blueprint/v2\nid: bp-01\nstate: active\n---\n\n# 目标\n\n## Record\n\nr\n\n## Intent\n\ni\n\n## Constraints\n\nc\n\n## Definition of Done\n\n- [ ] 完成\n\n## Plan\n\np\n\n## Rubric\n\nr\n\n## Todos\n\n{todos}\n## Results\n\n## Evidence\n\n## Revision History\n\n## Notes\n"
    )
}

#[test]
fn task_blocks_carry_the_trimmed_fields_that_are_given() {
    let block = render_task_block("todo-9", "  写测试 ", " planner ", Some(" dev "), &vec!["todo-1".to_string(), "todo-2".to_string()]);
    assert_eq!(
        block,
        "- [ ] [写测试](todos/todo-9.md) ^todo-9\n  - Created By: planner\n  - Owner: dev\n  - Depends On: todo-1, todo-2\n"
    );
    let bare = render_task_block("todo-9", "t", "me", Some("  "), &Vec::new());
    assert_eq!(bare, "- [ ] [t](todos/todo-9.md) ^todo-9\n  - Created By: me\n");
}

#[test]
fn a_top_level_todo_goes_at_the_start_of_the_todos_section() {
    let source = blueprint_v2("- [ ] 旧任务 ^todo-1\n  - Created By: planner\n");
    let next = todo_create_graph_candidate("bp-01", &source, "todo-2", "新任务", "me", None, &vec!["todo-1".to_string()], None)
        .expect("candidate");
    assert!(next.contains("## Todos\n- [ ] [新任务](todos/todo-2.md) ^todo-2\n  - Created By: me\n  - Depends On: todo-1\n"));
    let parsed = ParsedBlueprintSource::parse("bp-01.md", &next).unwrap();
    let ids: Vec<&str> = parsed.todos.iter().map(|t| t.id.as_str()).collect();
    assert_eq!(ids, vec!["todo-2", "todo-1"]);
    assert_eq!(parsed.todos[0].depends_on, vec!["todo-1".to_string()]);
}

#[test]
fn a_child_todo_goes_under_its_parent_children_label() {
    let source = blueprint_v2("- [ ] 父任务 ^todo-1\n  - Created By: planner\n");
    let next = todo_create_graph_candidate("bp-01", &source, "todo-2", "子任务", "me", Some("dev"), &Vec::new(), Some("todo-1"))
        .expect("candidate");
    assert!(next.contains("  - Children:\n    - [ ] [子任务](todos/todo-2.md) ^todo-2\n      - Created By: me\n      - Owner: dev\n"));
    let parsed = ParsedBlueprintSource::parse("bp-01.md", &next).unwrap();
    assert_eq!(parsed.todos.len(), 1);
    assert_eq!(parsed.todos[0].children.len(), 1);
    assert_eq!(parsed.todos[0].children[0].id, "todo-2");
}

#[test]
fn creating_a_todo_refuses_unknown_parents_and_broken_graphs() {
    let source = blueprint_v2("- [ ] 父任务 ^todo-1\n  - Created By: planner\n");
    assert_eq!(
        todo_create_graph_candidate("bp-01", &source, "todo-2", "t", "me", None, &Vec::new(), Some("todo-9")).unwrap_err(),
        "unknown Todo: todo-9"
    );
    assert!(todo_create_graph_candidate("bp-01", &source, "todo-2", "t", "me", None, &vec!["todo-8".to_string()], None).is_err());
    assert!(todo_create_graph_candidate("bp-01", &source, "todo-1", "t", "me", None, &Vec::new(), None).is_err());
    assert_eq!(
        create_splice("# x\n", "- [ ] a\n", None).unwrap_err(),
        "missing required section: Todos"
    );
}

#[test]
fn new_todo_details_refuse_blank_texts() {
    let criteria = vec!["检查".to_string()];
    assert_eq!(
        todo_create_detail("bp-01", "todo-2", " ", "me", "i", "p", &criteria).unwrap_err(),
        "title must not be empty"
    );
    assert_eq!(
        todo_create_detail("bp-01", "todo-2", "t", "", "i", "p", &criteria).unwrap_err(),
        "created_by must not be empty"
    );
    assert_eq!(
        todo_create_detail("bp-01", "todo-2", "t", "me", "i", "p", &vec!["a".to_string(), " ".to_string()]).unwrap_err(),
        "completion criterion must not be empty"
    );
}

#[test]
fn the_checked_entry_creates_where_the_insertion_fits() {
    let source = blueprint_v2("- [ ] 父任务 ^todo-1\n  - Created By: planner\n");
    let next = try_todo_create_graph_candidate("bp-01", &source, "todo-2", "子任务", "me", None, &Vec::new(), Some("todo-1"))
        .expect("the insertion fits")
        .expect("candidate");
    assert!(next.contains("    - [ ] [子任务](todos/todo-2.md) ^todo-2\n"));
    assert_eq!(
        try_todo_create_graph_candidate("bp-01", &source, "todo-2", "t", "me", None, &Vec::new(), Some("todo-9")),
        Some(Err("unknown Todo: todo-9".to_string()))
    );
}
