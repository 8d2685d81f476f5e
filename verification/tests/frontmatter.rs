use obsidian_vault_mcp::blueprint::frontmatter::{
    escape_yaml_string, frontmatter_field_value_range, set_field_in_range, yaml_key,
    yaml_mapping_colon, yaml_value_length,
};

#[test]
fn mapping_colon_skips_quoted_keys() {
    assert_eq!(yaml_mapping_colon("id: x"), Some(2));
    assert_eq!(yaml_mapping_colon("\"a:b\": x"), Some(5));
    assert_eq!(yaml_mapping_colon("'a:b': x"), Some(5));
    assert_eq!(yaml_mapping_colon("\"a\\\":b\": x"), Some(7));
    assert_eq!(yaml_mapping_colon("no colon"), None);
    assert_eq!(yaml_mapping_colon("名字: x"), Some(6));
}

#[test]
fn key_is_trimmed_and_unquoted() {
    assert_eq!(yaml_key("  id ").as_deref(), Some("id"));
    assert_eq!(yaml_key("\"id\"").as_deref(), Some("id"));
    assert_eq!(yaml_key("'id'").as_deref(), Some("id"));
    assert_eq!(yaml_key("   "), None);
}

#[test]
fn value_length_stops_at_comments_and_closing_quotes() {
    assert_eq!(yaml_value_length("plain value  # note"), (11, None));
    assert_eq!(yaml_value_length("#only"), (0, None));
    assert_eq!(yaml_value_length("a#b"), (3, None));
    assert_eq!(yaml_value_length("\"q \\\" x\" # c"), (8, Some('"')));
    assert_eq!(yaml_value_length("'open"), (5, Some('\'')));
}

#[test]
fn escapes_for_the_quote_in_use() {
    assert_eq!(escape_yaml_string("a\"b\\c", '"'), "a\\\"b\\\\c");
    assert_eq!(escape_yaml_string("it's", '\''), "it''s");
    assert_eq!(escape_yaml_string("x\"'", ' '), "x\"'");
}

#[test]
fn finds_the_value_range_of_a_field() {
    let fm = "---\nid: doc-1\nstate: \"a b\"  # keep\n---\n";
    assert_eq!(
        frontmatter_field_value_range(fm, "id"),
        Some((8, 13, None, String::new()))
    );
    assert_eq!(
        frontmatter_field_value_range(fm, "state"),
        Some((21, 26, Some('"'), String::new()))
    );
    assert_eq!(
        frontmatter_field_value_range("---\nstate:  # c\n---\n", "state"),
        Some((12, 12, None, "  ".to_string()))
    );
    assert_eq!(frontmatter_field_value_range(fm, "missing"), None);
}

#[test]
fn sets_quoted_fields_and_keeps_comments() {
    let source = "---\nstate: \"old\"  # keep\n---\nbody\n";
    let next = set_field_in_range(source, (0, 29), "state", "new \"one\"").unwrap();
    assert_eq!(next, "---\nstate: \"new \\\"one\\\"\"  # keep\n---\nbody\n");
    let empty = "---\nstate:  # c\n---\n";
    assert_eq!(
        set_field_in_range(empty, (0, 20), "state", "x").unwrap(),
        "---\nstate:  x  # c\n---\n"
    );
    assert_eq!(
        set_field_in_range(source, (0, 1000), "state", "x").unwrap_err(),
        "frontmatter source range is invalid"
    );
    assert_eq!(
        set_field_in_range(source, (0, 29), "", "x").unwrap_err(),
        "invalid frontmatter field: "
    );
}
