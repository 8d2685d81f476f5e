use obsidian_vault_mcp::blueprint::edit::{
    append_to_section, children_label_position, ensure_children_label, is_task_line,
    replace_completion_criteria, replace_or_insert_record_field, replace_or_insert_todo_field,
    replace_repeated_todo_field, replace_section, replace_task_status, replace_task_title,
    replace_title, replace_todo_field_values, require_text, section_body, section_bounds,
    section_insertion, todo_children_insertion,
};
use obsidian_vault_mcp::blueprint::model::{CheckUpdate, TodoStatus};

const DOC: &str = "# Title\n\n## Record\n\n- Created By: planner\n\n## Todos\n\n- [ ] [Write](todos/todo-1.md) ^todo-1\n  - Owner: a\n  - Completion Criteria:\n    - [ ] draft\n  - Depends On: todo-0\n- [ ] [Next](todos/todo-2.md) ^todo-2\n\n## Notes\n\nnone\n";

#[test]
fn sections_are_found_by_their_heading_line() {
    let (start, end) = section_bounds(DOC, "Record").unwrap();
    assert_eq!(&DOC[start..end], "\n- Created By: planner\n\n");
    assert_eq!(section_insertion(DOC, "Record").unwrap(), start);
    assert_eq!(section_body(DOC, "Notes"), "none");
    assert_eq!(section_body(DOC, "Missing"), "");
    assert_eq!(
        section_bounds(DOC, "Missing").unwrap_err(),
        "missing required section: Missing"
    );
    let (a, b) = section_bounds("# 标题\n## 记录\n内容\n", "记录").unwrap();
    assert_eq!((a, b), (19, 26));
}

#[test]
fn sections_can_be_replaced_and_appended() {
    let replaced = replace_section(DOC, "Notes", "changed  \n").unwrap();
    assert!(replaced.ends_with("## Notes\n\nchanged\n"));
    let appended = append_to_section("# T\n## A\nx\n## B\n", "A", "y\n").unwrap();
    assert_eq!(appended, "# T\n## A\nx\n\ny## B\n");
    let appended = append_to_section("# T\n## A\nx", "A", "y").unwrap();
    assert_eq!(appended, "# T\n## A\nx\n\ny");
}

#[test]
fn titles_and_tasks_are_rewritten_in_place() {
    assert_eq!(replace_title("a\n# Old\nb", "  New ").unwrap(), "a\n# New\nb");
    assert_eq!(replace_title("no title", "x").unwrap_err(), "Blueprint title must be H1");
    let renamed = replace_task_title(DOC, "todo-1", " Rewrite ").unwrap();
    assert!(renamed.contains("- [ ] [Rewrite](todos/todo-1.md) ^todo-1"));
    assert_eq!(replace_task_title(DOC, "todo-9", "x").unwrap_err(), "unknown Todo: todo-9");
    let started = replace_task_status(DOC, "todo-2", TodoStatus::InProgress).unwrap();
    assert!(started.contains("- [/] [Next](todos/todo-2.md) ^todo-2"));
    assert!(is_task_line("- [x] done"));
    assert!(!is_task_line("- [a] other"));
    assert_eq!(require_text("plan", "  ").unwrap_err(), "plan must not be empty");
}

#[test]
fn record_fields_are_replaced_or_added() {
    let replaced = replace_or_insert_record_field(DOC, "Created By", "writer").unwrap();
    assert!(replaced.contains("- Created By: writer\n"));
    let added = replace_or_insert_record_field(DOC, "Owner", "writer").unwrap();
    assert!(added.contains("- Created By: planner\n\n- Owner: writer\n## Todos"));
}

#[test]
fn todo_fields_replace_only_direct_lines() {
    let owner = replace_or_insert_todo_field(DOC, "todo-1", "Owner", "b").unwrap();
    assert!(owner.contains("^todo-1\n  - Owner: b\n  - Completion Criteria:\n    - [ ] draft\n  - Depends On: todo-0\n- [ ] [Next]"));
    let deps = replace_todo_field_values(DOC, "todo-1", "Depends On", &["x", "y"]).unwrap();
    assert!(deps.contains("^todo-1\n  - Depends On: x\n  - Depends On: y\n  - Owner: a\n"));
    assert!(!deps.contains("todo-0"));
    let repeated =
        replace_repeated_todo_field(DOC, "todo-2", "Reference", &vec![" r1 ".to_string()]).unwrap();
    assert!(repeated.contains("^todo-2\n  - Reference: r1\n\n## Notes"));
    assert_eq!(
        replace_repeated_todo_field(DOC, "todo-2", "Reference", &vec![" ".to_string()]).unwrap_err(),
        "Reference must not be empty"
    );
}

#[test]
fn completion_criteria_are_replaced_under_their_label() {
    let criteria = vec![
        CheckUpdate { text: " one ".to_string(), completed: true },
        CheckUpdate { text: "two".to_string(), completed: false },
    ];
    let updated = replace_completion_criteria(DOC, "todo-1", &criteria).unwrap();
    assert!(updated.contains("  - Completion Criteria:\n    - [x] one\n    - [ ] two\n\n  - Depends On: todo-0\n- [ ] [Next]"));
    let added = replace_completion_criteria(DOC, "todo-2", &criteria).unwrap();
    assert!(added.contains("^todo-2\n  - Completion Criteria:\n    - [x] one\n    - [ ] two\n## Notes"));
}

#[test]
fn children_labels_are_added_once() {
    let labelled = ensure_children_label(DOC, "todo-1").unwrap();
    assert!(labelled.contains("  - Depends On: todo-0\n\n  - Children:\n- [ ] [Next]"));
    assert_eq!(ensure_children_label(&labelled, "todo-1").unwrap(), labelled);
    assert_eq!(children_label_position(&labelled, "todo-1").unwrap(), None);
    let at = todo_children_insertion(&labelled, "todo-1").unwrap();
    assert_eq!(&labelled[at..at + 6], "- [ ] ");
}
