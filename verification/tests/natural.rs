use obsidian_vault_mcp::mutation::heading::rename_note_plan;
use obsidian_vault_mcp::mutation::rename::{apply_edits, TextEdit};
use obsidian_vault_mcp::natural::{sort_natural, sorted_paths};
use obsidian_vault_mcp::parser::{NoteParser, ReferenceInfo};
use obsidian_vault_mcp::query::ambiguous_targets;

fn strings(v: &[&str]) -> Vec<String> {
    v.iter().map(|s| s.to_string()).collect()
}

#[test]
fn paths_sort_with_numbers_by_value() {
    assert_eq!(
        sort_natural(strings(&["note10.md", "note2.md", "a.md", "note1.md"])),
        strings(&["a.md", "note1.md", "note2.md", "note10.md"])
    );
    assert_eq!(sorted_paths(strings(&["b.md", "a2.md", "b.md", "a10.md"])), strings(&["a2.md", "a10.md", "b.md"]));
}

#[test]
fn ambiguous_targets_carry_the_reference_in_natural_order() {
    let reference = Some(ReferenceInfo::Heading { value: "原理".to_string() });
    assert_eq!(
        ambiguous_targets(&strings(&["x10/b.md", "x2/b.md"]), &reference),
        strings(&["x2/b.md#原理", "x10/b.md#原理"])
    );
    assert_eq!(ambiguous_targets(&strings(&["b.md"]), &None), strings(&["b.md"]));
}

#[test]
fn rename_note_plan_retargets_wikilinks_and_lists_changed_notes() {
    let referrer = "# 引用\n\n[[推进器]] [[推进器#原理|看]] [md](推进器.md)\n";
    let own = "# 推进器\n\n[[推进器#原理]]\n";
    let mut inbound = NoteParser::parse("引用.md", referrer, 4096).unwrap().links;
    inbound.extend(NoteParser::parse("推进器.md", own, 4096).unwrap().links);
    let plan = rename_note_plan("推进器.md", "archive/推进器.md", &inbound);
    assert_eq!(plan.updated_references, 2);
    assert_eq!(plan.changed_notes, strings(&["archive/推进器.md", "引用.md"]));
    let edits: Vec<TextEdit> = plan
        .edits
        .iter()
        .filter(|(p, _)| p == "引用.md")
        .map(|(_, e)| TextEdit { start: e.start, end: e.end, replacement: e.replacement.clone() })
        .collect();
    assert_eq!(
        apply_edits(referrer.to_string(), edits).unwrap(),
        "# 引用\n\n[[archive/推进器.md]] [[archive/推进器.md#原理|看]] [md](推进器.md)\n"
    );
}

#[test]
fn texts_the_order_ranks_equal_keep_their_order() {
    assert_eq!(sort_natural(strings(&["ab.md", "a b.md"])), strings(&["ab.md", "a b.md"]));
    assert_eq!(sort_natural(strings(&["a b.md", "ab.md"])), strings(&["a b.md", "ab.md"]));
    assert_eq!(
        sort_natural(strings(&["z.md", "a b.md", "x.md", "ab.md"])),
        strings(&["a b.md", "ab.md", "x.md", "z.md"])
    );
}
