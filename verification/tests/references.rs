use obsidian_vault_mcp::mutation::references::{check_broken_references, check_preserved_references};
use obsidian_vault_mcp::parser::{section_at, source_for_line, NoteParser};

#[test]
fn edits_that_remove_a_linked_heading_or_block_are_refused() {
    let target = NoteParser::parse("Target.md", "# Old\n\nBody ^keep\n", 4096).unwrap();
    let source = NoteParser::parse("Source.md", "[[Target#Old]]\n[[Target#^keep]]\n", 4096).unwrap();
    let notes = vec![target, source];
    let renamed = NoteParser::parse("Target.md", "# New\n\nBody ^keep\n", 4096).unwrap();
    assert_eq!(
        check_broken_references(&notes, "Target.md", &renamed, 0, 5, "replacement").unwrap_err(),
        "replacement would break references:\n- Source.md#L1: [[Target#Old]]"
    );
    let unblocked = NoteParser::parse("Target.md", "# Old\n\nBody ^gone\n", 4096).unwrap();
    assert_eq!(
        check_broken_references(&notes, "Target.md", &unblocked, 7, 17, "edit").unwrap_err(),
        "edit would break references:\n- Source.md#L2: [[Target#^keep]]"
    );
    let kept = NoteParser::parse("Target.md", "# Old\n\nOther ^keep\n", 4096).unwrap();
    assert!(check_broken_references(&notes, "Target.md", &kept, 7, 11, "edit").is_ok());
    assert_eq!(
        check_broken_references(&notes, "Missing.md", &kept, 0, 0, "edit").unwrap_err(),
        "note not found: Missing.md"
    );
}

#[test]
fn lines_belong_to_the_last_heading_before_them() {
    let text = "intro\n# A\n\nx\n## B\ny\n";
    let parsed = NoteParser::parse("n.md", text, 4096).unwrap();
    assert!(section_at(&parsed, 1).is_none());
    let a = section_at(&parsed, 3).unwrap();
    assert_eq!(a.heading, "A");
    assert_eq!(a.heading_path, vec!["A".to_string()]);
    let b = section_at(&parsed, 6).unwrap();
    assert_eq!(b.heading, "B");
    assert_eq!(b.heading_level, 2);
    assert_eq!(b.heading_path, vec!["A".to_string(), "B".to_string()]);
    let span = source_for_line("n.md", text, &parsed, 4, 5);
    assert_eq!(span.byte_start, "intro\n# A\n\n".len());
    assert_eq!(span.byte_end, "intro\n# A\n\nx\n## B\n".len());
    assert_eq!(span.section.unwrap().heading, "A");
    let last = source_for_line("n.md", text, &parsed, 6, 9);
    assert_eq!(last.byte_end, text.len());
}

fn parse(path: &str, text: &str) -> obsidian_vault_mcp::parser::ParsedNote {
    NoteParser::parse(path, text, 4096).unwrap()
}

#[test]
fn edit_note_refuses_to_break_preserved_heading_and_block_links() {
    let original = vec![
        parse("Source.md", "[[Target#Old]]\n[[Target#^keep]]\n"),
        parse("Target.md", "# Old\n\nBody ^keep\n"),
    ];
    let edited = vec!["Target.md".to_string()];
    let heading = vec![original[0].clone(), parse("Target.md", "# New\n\nBody ^keep\n")];
    let error = check_preserved_references(&original, &heading, &edited).expect_err("heading link");
    assert!(error.contains("[[Target#Old]]"), "{error}");
    assert_eq!(error, "edit would break references:\n- Source.md#L1: [[Target#Old]]");
    let block = vec![original[0].clone(), parse("Target.md", "# Old\n\nBody ^gone\n")];
    let error = check_preserved_references(&original, &block, &edited).expect_err("block link");
    assert!(error.contains("[[Target#^keep]]"), "{error}");
}

#[test]
fn references_removed_by_the_edit_do_not_count() {
    let original = vec![parse("Self.md", "# A\n\n[[Self#A]]\n"), parse("Other.md", "x\n")];
    let edited = vec!["Self.md".to_string()];
    let updated = vec![parse("Self.md", "# B\n\nno link\n"), original[1].clone()];
    assert!(check_preserved_references(&original, &updated, &edited).is_ok());
    let kept = vec![parse("Self.md", "# B\n\n[[Self#A]]\n"), original[1].clone()];
    assert_eq!(
        check_preserved_references(&original, &kept, &edited).unwrap_err(),
        "edit would break references:\n- Self.md#L3: [[Self#A]]"
    );
    assert_eq!(
        check_preserved_references(&original, &updated, &vec!["Gone.md".to_string()]).unwrap_err(),
        "note is not visible in vault: Gone.md"
    );
}
