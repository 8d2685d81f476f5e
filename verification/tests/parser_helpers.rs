use obsidian_vault_mcp::parser::{
    ReferenceInfo, SectionInfo, SourceSpan, byte_offset_for_line, heading_anchor, inline_raw,
    is_external_or_absolute_url, line_number_for_byte, local_markdown_link_target,
    normalize_relative_markdown_path, path_with_line_ref, percent_decode,
    recover_inline_source_span, reference_suffix, slice_text,
};

#[test]
fn path_with_line_ref_formats_single_and_multi_line_ranges() {
    assert_eq!(path_with_line_ref("note.md", 3, 3), "note.md#L3");
    assert_eq!(path_with_line_ref("note.md", 3, 5), "note.md#L3-L5");
}

#[test]
fn parser_helpers_reject_external_urls_and_invalid_relative_paths() {
    assert!(is_external_or_absolute_url("mailto:test@example.com"));
    assert!(is_external_or_absolute_url("/absolute/path.md"));
    assert!(!is_external_or_absolute_url("#身体"));

    assert_eq!(
        local_markdown_link_target("正文/001.md", "#身体"),
        Some((
            "正文/001.md".to_string(),
            Some(ReferenceInfo::Heading {
                value: "身体".to_string(),
            }),
        ))
    );
    assert!(local_markdown_link_target("正文/001.md", "../note.md?x=1").is_none());
    assert!(normalize_relative_markdown_path("正文/001.md", "../../outside.md").is_none());
}

#[test]
fn parser_helpers_decode_percent_encoding_and_calculate_offsets() {
    assert_eq!(
        percent_decode("%E6%9E%97%E5%8A%A8"),
        Some("林动".to_string())
    );
    assert!(percent_decode("%GG").is_none());

    let text = "林动\n发动机\n";
    assert_eq!(byte_offset_for_line(text, 1), 0);
    assert_eq!(byte_offset_for_line(text, 2), "林动\n".len());
}

#[test]
fn parser_helpers_build_and_recover_inline_ranges() {
    assert_eq!(
        inline_raw(
            "[[",
            "发动机",
            Some(&ReferenceInfo::MultiHeading {
                value: vec!["章节".to_string(), "原理".to_string()],
            }),
            Some(&"查看".to_string()),
        ),
        "[[发动机#章节#原理|查看]]"
    );
    assert_eq!(
        reference_suffix(&ReferenceInfo::BlockId {
            value: "state".to_string()
        }),
        "#^state"
    );

    let original = SourceSpan {
        path: "note.md".to_string(),
        line_start: 1,
        line_end: 1,
        byte_start: 0,
        byte_end: 0,
        section: Some(SectionInfo {
            heading: "原理".to_string(),
            heading_level: 2,
            heading_path: vec!["发动机".to_string(), "原理".to_string()],
            heading_anchor: "原理".to_string(),
        }),
    };
    let mut search_start = 0;
    let recovered = recover_inline_source_span(
        "note.md",
        "前缀 [[发动机#原理]]",
        original.clone(),
        "[[发动机#原理]]",
        &mut search_start,
    );
    assert_eq!(
        slice_text(
            "前缀 [[发动机#原理]]",
            recovered.byte_start,
            recovered.byte_end
        ),
        "[[发动机#原理]]"
    );
    assert_eq!(search_start, recovered.byte_end);

    let unchanged = recover_inline_source_span(
        "note.md",
        "没有匹配",
        original.clone(),
        "[[不存在]]",
        &mut search_start,
    );
    assert_eq!(unchanged.byte_start, original.byte_start);
    assert_eq!(line_number_for_byte("甲\n乙\n", 0), 1);
    assert_eq!(line_number_for_byte("甲\n乙\n", "甲\n".len()), 2);
    assert_eq!(heading_anchor(" 原理\n补充 "), "原理 补充");
}

#[test]
fn slice_text_clamps_and_refuses_offsets_inside_characters() {
    assert_eq!(slice_text("林动abc", 3, 6), "动");
    assert_eq!(slice_text("林动abc", 1, 6), "");
    assert_eq!(slice_text("林动abc", 6, 100), "abc");
    assert_eq!(slice_text("林动abc", 8, 2), "");
    assert_eq!(slice_text("abc", 10, 20), "");
}

#[test]
fn relative_paths_walk_folders() {
    assert_eq!(
        normalize_relative_markdown_path("a/b/c.md", "./../d/./e.md"),
        Some("a/d/e.md".to_string())
    );
    assert_eq!(
        normalize_relative_markdown_path("top.md", "x//y.md"),
        Some("x/y.md".to_string())
    );
    assert!(normalize_relative_markdown_path("top.md", "..").is_none());
    assert_eq!(
        local_markdown_link_target("dir/n.md", "other.md#^blk"),
        Some((
            "dir/other.md".to_string(),
            Some(ReferenceInfo::BlockId {
                value: "blk".to_string()
            })
        ))
    );
    assert!(local_markdown_link_target("dir/n.md", "https://x.org/a.md").is_none());
    assert!(local_markdown_link_target("dir/n.md", "%ZZ.md").is_none());
}

#[test]
fn line_offsets_past_the_end_are_the_length() {
    assert_eq!(byte_offset_for_line("a\nb", 3), 3);
    assert_eq!(byte_offset_for_line("a\nb\n", 3), 4);
    assert_eq!(line_number_for_byte("a\nb\n", 100), 3);
    assert_eq!(percent_decode("%41%62c"), Some("Abc".to_string()));
    assert!(percent_decode("%4").is_none());
    assert!(percent_decode("%C3").is_none());
}
