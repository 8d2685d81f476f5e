use obsidian_vault_mcp::parser::{LinkKind, NoteParser, ReferenceInfo, TagScope};

#[test]
fn parse_relative_markdown_links_support_current_note_and_percent_decoding() {
    let parsed = NoteParser::parse(
        "正文/001.md",
        "[当前](#身体)\n[编码](../%E5%8F%91%E5%8A%A8%E6%9C%BA.md#%E5%8E%9F%E7%90%86)\n[外链](mailto:test@example.com)\n",
        4096,
    )
    .expect("parse note");

    assert_eq!(parsed.links.len(), 2);
    assert_eq!(parsed.links[0].target, "正文/001.md");
    assert_eq!(
        parsed.links[0].reference,
        Some(ReferenceInfo::Heading {
            value: "身体".to_string()
        })
    );
    assert_eq!(parsed.links[0].kind, LinkKind::Markdown);

    assert_eq!(parsed.links[1].target, "发动机.md");
    assert_eq!(
        parsed.links[1].reference,
        Some(ReferenceInfo::Heading {
            value: "原理".to_string()
        })
    );
}

#[test]
fn parse_markdown_footnote_labels_do_not_create_wikilinks() {
    let parsed = NoteParser::parse(
        "note.md",
        "格雷厄姆^[[[\\[1\\]]{.calibre3}](#index_split_003.html_filepos70626)]{.small}^教派\n",
        4096,
    )
    .expect("parse note");

    assert!(parsed.links.is_empty());
}

#[test]
fn parse_tags_distinguishes_section_and_line_scope() {
    let parsed = NoteParser::parse(
        "note.md",
        "# 标题\n\n首行 #节标签\n继续内容 #行标签\n",
        4096,
    )
    .expect("parse note");

    assert_eq!(parsed.tags.len(), 2);
    assert_eq!(parsed.tags[0].scope, TagScope::Section);
    assert_eq!(parsed.tags[1].scope, TagScope::Line);
}

#[test]
fn parse_headings_preserves_visible_inline_text() {
    let parsed = NoteParser::parse(
        "note.md",
        "# **Bold** and *emphasis* and [Link](other.md) and ==mark==\n",
        4096,
    )
    .expect("parse note");

    assert_eq!(parsed.headings.len(), 1);
    assert_eq!(
        parsed.headings[0].text,
        "Bold and emphasis and Link and mark"
    );
    assert!(parsed.headings[0].path.is_empty());
}

#[test]
fn parse_self_referential_wikilinks_normalizes_heading_and_block_targets() {
    let parsed =
        NoteParser::parse("note.md", "[[#原理]]\n[[#^state]]\n", 4096).expect("parse note");

    assert_eq!(parsed.links[0].target, "");
    assert_eq!(
        parsed.links[0].reference,
        Some(ReferenceInfo::Heading {
            value: "原理".to_string()
        })
    );
    assert_eq!(parsed.links[1].target, "");
    assert_eq!(
        parsed.links[1].reference,
        Some(ReferenceInfo::BlockId {
            value: "state".to_string()
        })
    );
}

#[test]
fn headings_carry_their_enclosing_path_and_sections() {
    let parsed = NoteParser::parse(
        "n.md",
        "# A\n\n## B\n\ntext ^blk\n\n### C\n\n## D\n",
        4096,
    )
    .expect("parse note");
    let texts: Vec<_> = parsed.headings.iter().map(|h| h.text.clone()).collect();
    assert_eq!(texts, vec!["A", "B", "C", "D"]);
    assert!(parsed.headings[0].path.is_empty());
    assert_eq!(parsed.headings[2].path, vec!["A", "B"]);
    assert_eq!(parsed.headings[3].path, vec!["A"]);
    assert_eq!(parsed.headings[3].source.line_start, 9);
    let section = parsed.headings[2].source.section.clone().expect("section of C");
    assert_eq!(section.heading, "B");
    assert_eq!(section.heading_path, vec!["A", "B"]);
    assert_eq!(parsed.blocks.len(), 1);
    assert_eq!(parsed.blocks[0].id, "blk");
    assert_eq!(
        parsed.blocks[0].source.section.as_ref().map(|s| s.heading.as_str()),
        Some("B")
    );
}

#[test]
fn wikilinks_embeds_and_aliases_keep_their_source_text() {
    let parsed = NoteParser::parse("n.md", "See [[target#Part|alias]] and ![[pic.png]].\n", 4096)
        .expect("parse note");
    assert_eq!(parsed.links.len(), 1);
    assert_eq!(parsed.links[0].target, "target");
    assert_eq!(parsed.links[0].alias.as_deref(), Some("alias"));
    assert_eq!(parsed.links[0].kind, LinkKind::Wikilink);
    assert_eq!(parsed.links[0].raw, "[[target#Part|alias]]");
    assert_eq!(parsed.embeds.len(), 1);
    assert_eq!(parsed.embeds[0].target, "pic.png");
    assert!(NoteParser::parse("n.md", "too long", 3).is_err());
}
