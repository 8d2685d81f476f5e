use obsidian_vault_mcp::mutation::exact::{check_old_text, exact_edit, replace_section_text};

#[test]
fn replaces_the_single_occurrence() {
    assert_eq!(
        exact_edit("甲乙丙", "a.md", "乙", "二").unwrap(),
        "甲二丙"
    );
}

#[test]
fn refuses_missing_repeated_and_empty_texts() {
    assert_eq!(
        exact_edit("abc", "a.md", "x", "y").unwrap_err(),
        "old_text must match exactly once in `a.md`; found 0 matches"
    );
    assert_eq!(
        exact_edit("aaa", "dir/b.md", "aa", "y").unwrap_err(),
        "old_text must match exactly once in `dir/b.md`; found 2 matches"
    );
    assert_eq!(exact_edit("abc", "a.md", "", "y").unwrap_err(), "old_text must not be empty");
    assert!(check_old_text("").is_err());
    assert!(check_old_text("x").is_ok());
}

#[test]
fn section_text_replacement_keeps_lines_apart() {
    let doc = "# A\nold\n# B\nrest";
    assert_eq!(replace_section_text(doc, 4, 8, "new"), "# A\nnew\n# B\nrest");
    assert_eq!(replace_section_text(doc, 4, 8, "new\n"), "# A\nnew\n# B\nrest");
    assert_eq!(replace_section_text(doc, 4, 8, ""), "# A\n# B\nrest");
    let open_end = "# A\ntext";
    assert_eq!(replace_section_text(open_end, 8, 8, "more"), "# A\ntext\nmore");
    assert_eq!(replace_section_text("# A\n", 4, 4, "x"), "# A\nx");
}

#[test]
fn edit_note_rejects_missing_or_ambiguous_text_without_writing() {
    for old in ["", "missing", "old"] {
        assert!(exact_edit("old old\n", "Text.md", old, "new").is_err());
    }
    assert!(exact_edit("banana\n", "Text.md", "ana", "x").is_err());
}
