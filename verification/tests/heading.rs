use obsidian_vault_mcp::mutation::heading::{rename_heading_plan, RenameResult};
use obsidian_vault_mcp::mutation::rename::{apply_edits, TextEdit};
use obsidian_vault_mcp::parser::{LinkInfo, NoteParser};

fn edits_for(plan_edits: &[(String, TextEdit)], path: &str) -> Vec<TextEdit> {
    plan_edits
        .iter()
        .filter(|(p, _)| p == path)
        .map(|(_, e)| TextEdit {
            start: e.start,
            end: e.end,
            replacement: e.replacement.clone(),
        })
        .collect()
}

#[test]
fn rename_heading_updates_resolved_wikilink_references_after_preview() {
    let target = "# 发动机\n\n## 原理\n\n链接到 [[林动]]\n";
    let referrer = "# 引用\n\n[[发动机.md#原理]]\n[[发动机#原理|查看原理]]\n[[不存在#原理]]\n";
    let parsed = NoteParser::parse("发动机.md", target, 4096).unwrap();
    let links = NoteParser::parse("引用.md", referrer, 4096).unwrap().links;
    let inbound: Vec<LinkInfo> = links.into_iter().filter(|l| l.target != "不存在").collect();
    let plan = rename_heading_plan("发动机.md", target, &parsed.headings, "原理", "机制", &inbound).expect("plan");
    assert_eq!(plan.updated_references, 2);
    assert_eq!(plan.changed_notes, vec!["发动机.md".to_string(), "引用.md".to_string()]);
    assert_eq!(
        apply_edits(target.to_string(), edits_for(&plan.edits, "发动机.md")).unwrap(),
        "# 发动机\n\n## 机制\n\n链接到 [[林动]]\n"
    );
    assert_eq!(
        apply_edits(referrer.to_string(), edits_for(&plan.edits, "引用.md")).unwrap(),
        "# 引用\n\n[[发动机.md#机制]]\n[[发动机#机制|查看原理]]\n[[不存在#原理]]\n"
    );
    let report = RenameResult::from_plan(plan, true);
    assert!(report.dry_run);
    assert_eq!(report.updated_references, 2);
}

#[test]
fn rename_heading_reports_missing_heading_without_changing_files() {
    let target = "# 发动机\n\n## 原理\n";
    let parsed = NoteParser::parse("发动机.md", target, 4096).unwrap();
    let error = rename_heading_plan("发动机.md", target, &parsed.headings, "不存在", "机制", &Vec::new()).unwrap_err();
    assert_eq!(error, "heading not found: 不存在");
}

#[test]
fn rename_heading_plan_finds_headings_by_anchor_and_keeps_the_last_line() {
    let target = "# Top\n\n## My Section";
    let parsed = NoteParser::parse("n.md", target, 4096).unwrap();
    let anchor = parsed.headings[1].anchor.clone();
    let plan = rename_heading_plan("n.md", target, &parsed.headings, &anchor, "Other", &Vec::new()).unwrap();
    assert_eq!(plan.updated_references, 0);
    assert_eq!(
        apply_edits(target.to_string(), edits_for(&plan.edits, "n.md")).unwrap(),
        "# Top\n\n## Other\n"
    );
}

#[test]
fn rename_heading_plan_updates_self_and_multi_heading_links() {
    let target = "# 发动机\n\n## 原理\n\n自引用 [[#原理]] [[发动机#发动机#原理]]\n";
    let parsed = NoteParser::parse("发动机.md", target, 4096).unwrap();
    let plan = rename_heading_plan("发动机.md", target, &parsed.headings, "原理", "机制", &parsed.links).unwrap();
    assert_eq!(plan.updated_references, 2);
    assert_eq!(plan.changed_notes, vec!["发动机.md".to_string()]);
    assert_eq!(
        apply_edits(target.to_string(), edits_for(&plan.edits, "发动机.md")).unwrap(),
        "# 发动机\n\n## 机制\n\n自引用 [[#机制]] [[发动机#发动机#机制]]\n"
    );
}
