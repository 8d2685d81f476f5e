use obsidian_vault_mcp::blueprint::document::{DocumentSchema, ParsedDocument};

fn schema() -> DocumentSchema {
    DocumentSchema {
        name: "test/v2".to_string(),
        required_sections: vec!["Intent".to_string(), "Results".to_string()],
    }
}

#[test]
fn parses_frontmatter_and_ordered_sections_then_preserves_unknown_markdown() {
    let source = "---\nschema: test/v2\nid: doc-1\nstate: active\n---\n\n# 标题\n\n## Intent\n\n目标\n\n## Extra\n\n<!-- keep -->\n\n## Results\n\n结果\n";
    let parsed = ParsedDocument::parse("doc.md", source, &schema()).unwrap();
    assert_eq!(parsed.frontmatter_string("schema").as_deref(), Some("test/v2"));
    assert_eq!(parsed.h1(), "标题");
    assert_eq!(
        parsed.section("Intent").unwrap().body(source).trim(),
        "目标"
    );

    let next = parsed.replace_section(source, "Results", "新结果").unwrap();
    assert!(next.contains("## Extra\n\n<!-- keep -->"));
    assert!(next.contains("## Results\n\n新结果"));
}

#[test]
fn rejects_missing_duplicate_sections_and_wrong_schema() {
    let missing = "---\nschema: test/v2\n---\n\n# T\n\n## Intent\n\nx\n";
    assert!(ParsedDocument::parse("doc.md", missing, &schema())
        .unwrap_err()
        .to_string()
        .contains("missing required section: Results"));
    let duplicate =
        "---\nschema: test/v2\n---\n\n# T\n\n## Intent\n\na\n\n## Intent\n\nb\n\n## Results\n\nr\n";
    assert!(ParsedDocument::parse("doc.md", duplicate, &schema())
        .unwrap_err()
        .to_string()
        .contains("required section must occur exactly once: Intent"));

    let wrong_schema = "---\nschema: other/v2\n---\n\n# T\n\n## Intent\n\nx\n\n## Results\n\nr\n";
    assert!(ParsedDocument::parse("doc.md", wrong_schema, &schema())
        .unwrap_err()
        .to_string()
        .contains("unsupported schema: other/v2"));
}

#[test]
fn appends_to_sections_and_replaces_frontmatter_fields_in_place() {
    let source =
        "---\nschema: test/v2\nid: doc-1\n---\n\n# T\n\n## Intent\n\nx\n\n## Results\n\nr\n";
    let parsed = ParsedDocument::parse("doc.md", source, &schema()).unwrap();

    let appended = parsed.append_section(source, "Results", "more").unwrap();
    assert!(appended.contains("## Results\n\nr\n\nmore\n"));

    let next = parsed
        .replace_frontmatter_field(source, "id", "doc-2")
        .unwrap();
    assert!(
        next.starts_with("---\nschema: test/v2\nid: doc-2\n---"),
        "{next}"
    );
}

#[test]
fn replace_section_trims_the_body_and_keeps_the_rest() {
    let source = "---\nschema: test/v2\n---\n\n# T\n\n## Intent\n\nold\n\n## Results\n\nr\n";
    let parsed = ParsedDocument::parse("doc.md", source, &schema()).unwrap();
    let next = parsed.replace_section(source, "Intent", "  new  \n").unwrap();
    assert_eq!(
        next,
        "---\nschema: test/v2\n---\n\n# T\n\n## Intent\n\nnew\n\n## Results\n\nr\n"
    );
    assert_eq!(
        parsed.replace_section(source, "Missing", "x").unwrap_err(),
        "missing required section: Missing"
    );
}

#[test]
fn append_to_an_empty_section_takes_the_body_alone() {
    let source = "---\nschema: test/v2\n---\n\n# T\n\n## Intent\n\n## Results\n\nr\n";
    let parsed = ParsedDocument::parse("doc.md", source, &schema()).unwrap();
    let next = parsed.append_section(source, "Intent", " first ").unwrap();
    assert_eq!(
        next,
        "---\nschema: test/v2\n---\n\n# T\n\n## Intent\n\nfirst\n\n## Results\n\nr\n"
    );
}

#[test]
fn section_body_range_spans_from_after_the_heading_to_the_next_heading() {
    let source = "---\nschema: test/v2\n---\n\n# T\n\n## Intent\n\nx\n\n## Results\n\nr\n";
    let parsed = ParsedDocument::parse("doc.md", source, &schema()).unwrap();
    let range = parsed.section_body_range("Intent").unwrap();
    assert_eq!(&source[range.clone()], "\nx\n\n");
    let results = parsed.section_body_range("Results").unwrap();
    assert_eq!(results.end, source.len());
    assert!(parsed.section_body_range("Other").is_err());
}

#[test]
fn frontmatter_field_missing_from_the_block_is_inserted_before_the_closing_line() {
    let source = "---\nschema: test/v2\n---\n\n# T\n\n## Intent\n\nx\n\n## Results\n\nr\n";
    let parsed = ParsedDocument::parse("doc.md", source, &schema()).unwrap();
    let next = parsed
        .replace_frontmatter_field(source, "state", "done")
        .unwrap();
    assert!(next.starts_with("---\nschema: test/v2\nstate: done\n---\n"), "{next}");
    assert_eq!(
        parsed
            .replace_frontmatter_field(source, "a:b", "x")
            .unwrap_err(),
        "invalid frontmatter field: a:b"
    );
}

#[test]
fn rejects_paths_without_md_suffix_and_documents_without_h1() {
    assert_eq!(
        ParsedDocument::parse("doc.txt", "# T\n", &schema()).unwrap_err(),
        "document path must end with .md: doc.txt"
    );
    let open = DocumentSchema {
        name: String::new(),
        required_sections: Vec::new(),
    };
    assert_eq!(
        ParsedDocument::parse("doc.md", "text only\n", &open).unwrap_err(),
        "document must contain an H1"
    );
    assert_eq!(
        ParsedDocument::parse("doc.md", "# T\n", &schema()).unwrap_err(),
        "document must contain frontmatter"
    );
}

#[test]
fn rejects_required_sections_out_of_order() {
    let swapped = "---\nschema: test/v2\n---\n\n# T\n\n## Results\n\nr\n\n## Intent\n\nx\n";
    assert_eq!(
        ParsedDocument::parse("doc.md", swapped, &schema()).unwrap_err(),
        "document sections must be exactly: Intent, Results"
    );
}
