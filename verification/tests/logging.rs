use obsidian_vault_mcp::logging::{input_preview, log_directive, truncate_preview};

#[test]
fn truncates_preview_at_a_utf8_boundary() {
    let input = "界".repeat(400);
    let (preview, truncated) = input_preview(&input);
    assert!(truncated);
    assert!(preview.ends_with('…'));
    assert!(preview.len() <= 1024);
}

#[test]
fn short_previews_are_the_debug_rendering() {
    let (preview, truncated) = input_preview(&"note.md");
    assert!(!truncated);
    assert_eq!(preview, "\"note.md\"");
}

#[test]
fn truncation_keeps_the_longest_prefix_that_fits() {
    let (preview, truncated) = truncate_preview("a".repeat(1025));
    assert!(truncated);
    assert_eq!(preview, format!("{}…", "a".repeat(1021)));
    assert_eq!(preview.len(), 1024);
    let (exact, cut) = truncate_preview("b".repeat(1024));
    assert!(!cut);
    assert_eq!(exact.len(), 1024);
}

#[test]
fn a_bare_level_applies_to_this_crate_with_warnings_elsewhere() {
    assert_eq!(log_directive("debug"), "obsidian_vault_mcp=debug,warn");
    assert_eq!(log_directive("info,hyper=warn"), "info,hyper=warn");
    assert_eq!(log_directive("a=b"), "a=b");
}
