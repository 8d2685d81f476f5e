use obsidian_vault_mcp::byte_size::parse_byte_size;

#[test]
fn parses_byte_size_suffixes_and_decimals() {
    assert_eq!(parse_byte_size("1m"), Ok(1024 * 1024));
    assert_eq!(parse_byte_size("2k"), Ok(2 * 1024));
    assert_eq!(parse_byte_size("2b"), Ok(2));
    assert_eq!(parse_byte_size("12.4k"), Ok(12_698));
}

#[test]
fn rejects_invalid_byte_size_literals() {
    assert!(parse_byte_size("1g").is_err());
    assert!(parse_byte_size(".4k").is_err());
    assert!(parse_byte_size("12.4.5k").is_err());
}

#[test]
fn byte_size_trims_and_accepts_upper_case_suffixes() {
    assert_eq!(parse_byte_size("  3K \n"), Ok(3 * 1024));
    assert_eq!(parse_byte_size("7B"), Ok(7));
    assert_eq!(parse_byte_size("4096"), Ok(4096));
    assert_eq!(parse_byte_size("0.5b"), Ok(1));
}

#[test]
fn byte_size_error_names_the_trimmed_input() {
    assert_eq!(
        parse_byte_size(" 1g "),
        Err("invalid byte size '1g'; expected bytes or b, k, m suffixes, such as 4096, 2k, 1m, or 12.4k"
            .to_string())
    );
    assert!(parse_byte_size("1.").is_err());
    assert!(parse_byte_size("").is_err());
}
