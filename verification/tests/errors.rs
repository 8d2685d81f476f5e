use obsidian_vault_mcp::errors::{format_error_chain, join_error_chain};

#[test]
fn formats_complete_error_chain() {
    let error = anyhow::Error::msg("inner cause").context("outer context");
    assert_eq!(format_error_chain(&error), "outer context: inner cause");
}

#[test]
fn joins_messages_outermost_first() {
    assert_eq!(join_error_chain(&vec!["a".to_string()]), "a");
    assert_eq!(
        join_error_chain(&vec!["a".to_string(), "b".to_string(), "c".to_string()]),
        "a: b: c"
    );
    assert_eq!(join_error_chain(&Vec::new()), "");
}
