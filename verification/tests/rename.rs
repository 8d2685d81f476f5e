use obsidian_vault_mcp::mutation::rename::{
    apply_edits, block_id_byte_start, block_id_deletion_start, block_id_insertion_point,
    heading_reference_matches, replace_heading_reference, replace_link_target, TextEdit,
};
use obsidian_vault_mcp::parser::ReferenceInfo;

#[test]
fn block_ids_go_before_the_trailing_line_breaks() {
    let content = "段落内容\r\n\nnext";
    let end = "段落内容\r\n\n".len();
    assert_eq!(block_id_insertion_point(content, 0, end).unwrap(), "段落内容".len());
    assert_eq!(block_id_insertion_point(content, 0, 6).unwrap(), 6);
    assert_eq!(
        block_id_insertion_point(content, 0, 1).unwrap_err(),
        "block source range is invalid"
    );
    assert!(block_id_insertion_point(content, 5, 3).is_err());
}

#[test]
fn block_id_removal_takes_the_separator_with_it() {
    let content = "text ^id\nline\r\n^id2\nx\n^id3";
    assert_eq!(block_id_deletion_start(content, 0, 5).unwrap(), 4);
    assert_eq!(block_id_deletion_start(content, 9, 15).unwrap(), 13);
    let at = content.find("^id3").unwrap();
    assert_eq!(block_id_deletion_start(content, at - 2, at).unwrap(), at - 1);
    assert_eq!(block_id_deletion_start(content, 0, 0).unwrap(), 0);
    assert_eq!(
        block_id_deletion_start(content, 0, 100).unwrap_err(),
        "block id source range is invalid"
    );
}

#[test]
fn the_last_marker_of_a_block_is_found() {
    let content = "前言 ^a 和 ^a\n";
    let last = content.rfind("^a").unwrap();
    assert_eq!(block_id_byte_start(content, 0, content.len(), "a").unwrap(), last);
    assert_eq!(
        block_id_byte_start(content, 0, content.len(), "b").unwrap_err(),
        "block id source not found: b"
    );
    assert_eq!(
        block_id_byte_start(content, 1, 2, "a").unwrap_err(),
        "block source range is invalid"
    );
}

#[test]
fn heading_references_match_the_last_heading_of_a_path() {
    let single = Some(ReferenceInfo::Heading { value: "身体".to_string() });
    let path = Some(ReferenceInfo::MultiHeading {
        value: vec!["人物".to_string(), "身体".to_string()],
    });
    let block = Some(ReferenceInfo::BlockId { value: "身体".to_string() });
    assert!(heading_reference_matches(&single, "身体"));
    assert!(heading_reference_matches(&path, "身体"));
    assert!(!heading_reference_matches(&path, "人物"));
    assert!(!heading_reference_matches(&block, "身体"));
    assert!(!heading_reference_matches(&None, "身体"));
}

#[test]
fn heading_and_note_rewrites_keep_the_rest_of_the_link() {
    assert_eq!(replace_heading_reference("[[a#旧#旧]]", "旧", "新"), "[[a#新#旧]]");
    assert_eq!(replace_heading_reference("[[a]]", "旧", "新"), "[[a]]");
    assert_eq!(replace_link_target("[[old#h|alias]]", "dir/new"), "[[dir/new#h|alias]]");
    assert_eq!(replace_link_target("[[old|x#y]]", "n"), "[[n|x#y]]");
    assert_eq!(replace_link_target("[[old]]", "n"), "[[n]]");
    assert_eq!(replace_link_target("[old](old.md)", "n"), "[old](old.md)");
    assert_eq!(replace_link_target("[[]]", "n"), "[[n]]");
}

#[test]
fn edits_are_applied_from_the_end_backwards() {
    let edits = vec![
        TextEdit { start: 0, end: 1, replacement: "A".to_string() },
        TextEdit { start: 4, end: 5, replacement: "EE".to_string() },
        TextEdit { start: 2, end: 2, replacement: "+".to_string() },
    ];
    assert_eq!(apply_edits("abcde".to_string(), edits).unwrap(), "Ab+cdEE");
    let bad = vec![TextEdit { start: 3, end: 9, replacement: String::new() }];
    assert_eq!(apply_edits("abc".to_string(), bad).unwrap_err(), "rename edit range is invalid");
    let same_start = vec![
        TextEdit { start: 1, end: 1, replacement: "x".to_string() },
        TextEdit { start: 1, end: 1, replacement: "y".to_string() },
    ];
    assert_eq!(apply_edits("ab".to_string(), same_start).unwrap(), "ayxb");
}
