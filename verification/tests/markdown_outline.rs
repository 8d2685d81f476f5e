use obsidian_vault_mcp::markdown::{document_outline, note_outline, MdKind};
use obsidian_vault_mcp::parser::NoteParser;

#[test]
fn parsed_notes_keep_their_last_frontmatter_as_json() {
    let parsed = NoteParser::parse("n.md", "---\ntitle: Hello\n---\n# A\n", 4096).unwrap();
    let text = parsed.frontmatter.expect("frontmatter");
    let json: serde_json::Value = serde_json::from_str(&text).unwrap();
    assert_eq!(json["title"], "Hello");
    let plain = NoteParser::parse("n.md", "# A\n", 4096).unwrap();
    assert_eq!(plain.frontmatter, None);
}

#[test]
fn document_outlines_list_nodes_in_order_with_their_subtrees() {
    let (nodes, fm) = document_outline("---\nid: x\n---\n# Title\n\n- item\n").unwrap();
    assert_eq!(fm, Some(vec![("id".to_string(), "x".to_string())]));
    let heading = nodes.iter().position(|n| n.kind == MdKind::Heading).expect("heading");
    assert_eq!(nodes[heading].level, 1);
    let list = nodes.iter().position(|n| n.kind == MdKind::List).expect("list");
    assert!(heading < list);
    for (i, n) in nodes.iter().enumerate() {
        assert!(i < n.subtree_end && n.subtree_end <= nodes.len());
    }
    assert!(nodes[list].subtree_end > list + 1);
    let (bare, none) = document_outline("plain text\n").unwrap();
    assert_eq!(none, None);
    assert!(bare.iter().any(|n| n.kind == MdKind::Text && n.text == "plain text"));
}

#[test]
fn note_outlines_refuse_input_over_the_limit() {
    assert!(note_outline("# a long enough title\n", 4).is_err());
    assert!(note_outline("# a\n", 4096).is_ok());
}
