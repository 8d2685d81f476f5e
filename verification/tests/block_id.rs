use obsidian_vault_mcp::mutation::block_id::{
    check_block_selectors, is_valid_block_id, preview_text, set_block_id_plan, BlockCandidate,
    SetBlockIdResult, delete_note_refusal,
};
use obsidian_vault_mcp::mutation::rename::{apply_edits, TextEdit};
use obsidian_vault_mcp::parser::{LinkInfo, NoteParser, SourceSpan};

fn span(path: &str, line: u64, start: usize, end: usize) -> SourceSpan {
    SourceSpan {
        path: path.to_string(),
        line_start: line,
        line_end: line,
        byte_start: start,
        byte_end: end,
        section: None,
    }
}

fn candidate(id: Option<&str>, text: &str, path: &str, line: u64, start: usize) -> BlockCandidate {
    BlockCandidate {
        id: id.map(str::to_string),
        text: text.to_string(),
        source: span(path, line, start, start + text.len()),
    }
}

fn edits_for(plan_edits: &[(String, TextEdit)], path: &str) -> Vec<TextEdit> {
    plan_edits
        .iter()
        .filter(|(p, _)| p == path)
        .map(|(_, e)| TextEdit {
            start: e.start,
            end: e.end,
            replacement: e.replacement.clone(),
        })
        .collect()
}

#[test]
fn set_block_id_replaces_id_without_deleting_block_content_and_updates_references() {
    let note = "# 发动机\n\n段落\n^state\n";
    let referrer = "# 引用\n\n[[发动机.md#^state]]\n[[不存在#^state]]\n";
    let parsed = NoteParser::parse("发动机.md", note, 4096).unwrap();
    let links = NoteParser::parse("引用.md", referrer, 4096).unwrap().links;
    let inbound: Vec<LinkInfo> = links.into_iter().filter(|l| l.target == "发动机.md").collect();
    let start = "# 发动机\n\n".len();
    let candidates = vec![candidate(Some("state"), "段落\n^state", "发动机.md", 3, start)];
    let plan = set_block_id_plan(
        "发动机.md",
        note,
        &candidates,
        &parsed.blocks,
        Some("state"),
        None,
        "status",
        &inbound,
    )
    .expect("plan");
    assert_eq!(plan.previous_block_id.as_deref(), Some("state"));
    assert_eq!(plan.block_id.as_deref(), Some("status"));
    assert_eq!(plan.updated_references, 1);
    assert_eq!(plan.changed_notes, vec!["发动机.md".to_string(), "引用.md".to_string()]);
    assert_eq!(
        apply_edits(note.to_string(), edits_for(&plan.edits, "发动机.md")).unwrap(),
        "# 发动机\n\n段落\n^status\n"
    );
    assert_eq!(
        apply_edits(referrer.to_string(), edits_for(&plan.edits, "引用.md")).unwrap(),
        "# 引用\n\n[[发动机.md#^status]]\n[[不存在#^state]]\n"
    );
}

#[test]
fn set_block_id_finds_unique_block_content_and_adds_an_id() {
    let note = "# 块\n\n目标段落\n\n其他段落\n";
    let first = "# 块\n\n".len();
    let second = "# 块\n\n目标段落\n\n".len();
    let candidates = vec![
        candidate(None, "目标段落", "块.md", 3, first),
        candidate(None, "其他段落", "块.md", 5, second),
    ];
    let plan = set_block_id_plan("块.md", note, &candidates, &Vec::new(), None, Some("目标段落"), "target1", &Vec::new())
        .expect("plan");
    assert_eq!(plan.previous_block_id, None);
    assert_eq!(plan.block_id.as_deref(), Some("target1"));
    assert_eq!(plan.updated_references, 0);
    assert_eq!(
        apply_edits(note.to_string(), edits_for(&plan.edits, "块.md")).unwrap(),
        "# 块\n\n目标段落 ^target1\n\n其他段落\n"
    );
}

#[test]
fn set_block_id_reports_ambiguous_content_with_candidate_previews() {
    let note = "# 块\n\n重复内容 alpha\n\n重复内容 beta\n";
    let candidates = vec![
        candidate(None, "重复内容 alpha", "块.md", 3, "# 块\n\n".len()),
        candidate(None, "重复内容 beta", "块.md", 5, "# 块\n\n重复内容 alpha\n\n".len()),
    ];
    let error = set_block_id_plan("块.md", note, &candidates, &Vec::new(), None, Some("重复内容"), "target1", &Vec::new())
        .unwrap_err();
    assert_eq!(
        error,
        "block content is ambiguous: 2 matches\n- 块.md#L3: 重复内容 alpha\n- 块.md#L5: 重复内容 beta"
    );
}

#[test]
fn set_block_id_plan_refuses_to_delete_a_referenced_id() {
    let note = "# 发动机\n\n段落\n^state\n";
    let referrer = "# 引用\n\n[[发动机.md#^state]]\n";
    let inbound = NoteParser::parse("引用.md", referrer, 4096).unwrap().links;
    let candidates = vec![candidate(Some("state"), "段落\n^state", "发动机.md", 3, "# 发动机\n\n".len())];
    let error = set_block_id_plan("发动机.md", note, &candidates, &Vec::new(), Some("state"), None, "", &inbound)
        .unwrap_err();
    assert_eq!(error, "cannot delete referenced block id `state`:\n- 引用.md#L3: [[发动机.md#^state]]");
}

#[test]
fn set_block_id_plan_deletes_an_unreferenced_id_with_its_separator() {
    let note = "# 发动机\n\n段落\n^state\n";
    let candidates = vec![candidate(Some("state"), "段落\n^state", "发动机.md", 3, "# 发动机\n\n".len())];
    let plan = set_block_id_plan("发动机.md", note, &candidates, &Vec::new(), Some("state"), None, "", &Vec::new())
        .expect("plan");
    assert_eq!(plan.block_id, None);
    assert_eq!(
        apply_edits(note.to_string(), edits_for(&plan.edits, "发动机.md")).unwrap(),
        "# 发动机\n\n段落\n"
    );
}

#[test]
fn set_block_id_plan_refuses_bad_requests() {
    let note = "# 块\n\n目标段落\n";
    let candidates = vec![candidate(None, "目标段落", "块.md", 3, "# 块\n\n".len())];
    let none = Vec::new();
    let run = |old: Option<&str>, content: Option<&str>, new: &str| {
        set_block_id_plan("块.md", note, &candidates, &none, old, content, new, &Vec::new()).unwrap_err()
    };
    assert_eq!(run(None, None, "x"), "provide exactly one block selector: old_block_id or content");
    assert_eq!(run(Some("a"), Some("b"), "x"), "provide exactly one block selector: old_block_id or content");
    assert_eq!(run(None, Some("  "), "x"), "content selector must not be empty");
    assert_eq!(
        run(None, Some("目标"), "Bad_ID"),
        "block_id must be lowercase and contain only ASCII letters, digits, or hyphens"
    );
    assert_eq!(run(None, Some("不存在"), "x"), "block not found: 不存在");
    assert_eq!(run(Some("gone"), None, "x"), "block not found: gone");
    assert_eq!(run(None, Some("目标"), ""), "target block does not have a block id to delete");
}

#[test]
fn set_block_id_plan_refuses_an_id_the_note_already_has() {
    let note = "# 块\n\n目标段落\n\n其他 ^taken\n";
    let parsed = NoteParser::parse("块.md", note, 4096).unwrap();
    let candidates = vec![candidate(None, "目标段落", "块.md", 3, "# 块\n\n".len())];
    let error = set_block_id_plan("块.md", note, &candidates, &parsed.blocks, None, Some("目标"), "taken", &Vec::new())
        .unwrap_err();
    assert_eq!(error, "block id already exists in note: taken");
}

#[test]
fn block_ids_and_previews() {
    assert!(is_valid_block_id("abc-123"));
    assert!(is_valid_block_id(""));
    assert!(!is_valid_block_id("Abc"));
    assert!(!is_valid_block_id("块"));
    assert_eq!(check_block_selectors(Some("a"), None, "ok-1"), None);
    let long = "字".repeat(121);
    assert_eq!(preview_text(&long), format!("{}…", "字".repeat(120)));
    assert_eq!(preview_text("short"), "short");
}

#[test]
fn block_id_reports_carry_the_plan() {
    let note = "# 块\n\n目标段落\n";
    let candidates = vec![candidate(None, "目标段落", "块.md", 3, "# 块\n\n".len())];
    let plan = set_block_id_plan("块.md", note, &candidates, &Vec::new(), None, Some("目标"), "abc", &Vec::new()).unwrap();
    let report = SetBlockIdResult::from_plan(plan, true);
    assert!(report.dry_run);
    assert_eq!(report.previous_block_id, None);
    assert_eq!(report.block_id.as_deref(), Some("abc"));
    assert_eq!(report.updated_references, 0);
    assert_eq!(report.changed_notes, vec!["块.md".to_string()]);
}

#[test]
fn notes_that_links_lead_to_are_not_deleted() {
    assert_eq!(delete_note_refusal("a.md", &Vec::new()), None);
    let refs = vec![
        (span("b.md", 3, 10, 18), "[[a]]".to_string()),
        (span("c.md", 1, 0, 9), "![[a.md]]".to_string()),
    ];
    assert_eq!(
        delete_note_refusal("a.md", &refs).unwrap(),
        "cannot delete referenced note `a.md`:\n- b.md#L3: [[a]]\n- c.md#L1: ![[a.md]]"
    );
}

#[test]
fn set_block_id_rejects_explicit_ids_that_are_not_lowercase_obsidian_ids() {
    let note = "# 块\n\n目标段落\n";
    let candidates = vec![candidate(None, "目标段落", "块.md", 3, "# 块\n\n".len())];
    let error = set_block_id_plan("块.md", note, &candidates, &Vec::new(), None, Some("目标段落"), "Bad_ID", &Vec::new())
        .expect_err("uppercase and underscore should fail");
    assert!(error.contains("lowercase"));
}

#[test]
fn delete_note_refuses_external_links_and_embeds() {
    let external = NoteParser::parse(
        "External.md",
        "[[drafts/Target.md]]\n![[drafts/Target.md]]\n[target](drafts/Target.md)\n",
        4096,
    )
    .unwrap();
    let mut inbound: Vec<(SourceSpan, String)> = external
        .links
        .iter()
        .map(|l| (l.source.clone(), l.raw.clone()))
        .collect();
    inbound.extend(external.embeds.iter().map(|e| (e.source.clone(), e.raw.clone())));
    let error = delete_note_refusal("drafts/Target.md", &inbound).expect("referenced note must not be deleted");
    assert!(error.contains("[[drafts/Target.md]]"));
    assert!(error.contains("![[drafts/Target.md]]"));
    assert!(error.contains("[target](drafts/Target.md)"));
}
