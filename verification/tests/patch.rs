use obsidian_vault_mcp::mutation::patch::{
    apply_file_patch, decode_git_quoted_path, parse_unified_patch, parse_usize, patch_path,
    split_lines, FilePatch, PatchLine,
};

fn apply(patch: &str, content: &str) -> Result<String, String> {
    let files = parse_unified_patch(patch)?;
    assert_eq!(files.len(), 1);
    apply_file_patch(content, &files[0])
}

#[test]
fn patch_updates_each_note_of_a_multi_note_patch() {
    let patch = "diff --git a/Target.md b/Target.md\n--- a/Target.md\n+++ b/Target.md\n@@ -1,3 +1,3 @@\n-# Old\n+# New\n \n Body\ndiff --git a/Source.md b/Source.md\n--- a/Source.md\n+++ b/Source.md\n@@ -1 +1 @@\n-[[Target#Old]]\n+[[Target#New]]\n";
    let files = parse_unified_patch(patch).unwrap();
    assert_eq!(files.len(), 2);
    assert_eq!(files[0].path, "Target.md");
    assert_eq!(files[1].path, "Source.md");
    assert_eq!(files[0].hunks[0].old_start, 1);
    assert_eq!(files[0].hunks[0].old_count, 3);
    assert_eq!(files[0].hunks[0].new_count, 3);
    assert_eq!(apply_file_patch("# Old\n\nBody\n", &files[0]).unwrap(), "# New\n\nBody\n");
    assert_eq!(apply_file_patch("[[Target#Old]]\n", &files[1]).unwrap(), "[[Target#New]]\n");
}

#[test]
fn patch_rejects_stale_context() {
    let stale = "--- a/Target.md\n+++ b/Target.md\n@@ -1 +1 @@\n-# Wrong\n+# New\n";
    assert_eq!(
        apply(stale, "# Old\n\nBody\n").unwrap_err(),
        "patch context does not match note: Target.md at line 1"
    );
}

#[test]
fn patch_preserves_a_missing_final_newline() {
    let patch = "--- a/Plain.md\n+++ b/Plain.md\n@@ -1 +1 @@\n-alpha\n\\ No newline at end of file\n+beta\n\\ No newline at end of file\n";
    assert_eq!(apply(patch, "alpha").unwrap(), "beta");
    assert_eq!(
        apply(patch, "alpha\n").unwrap_err(),
        "patch context does not match note: Plain.md at line 1"
    );
}

#[test]
fn patch_paths_outside_the_note_tree_are_kept_verbatim() {
    let escape = "--- a/../outside.md\n+++ b/../outside.md\n@@ -1 +1 @@\n-old\n+new\n";
    let files = parse_unified_patch(escape).unwrap();
    assert_eq!(files[0].path, "../outside.md");
}

#[test]
fn patch_accepts_git_quoted_utf8_paths() {
    let patch = "--- \"a/\\344\\270\\255\\346\\226\\207.md\"\n+++ \"b/\\344\\270\\255\\346\\226\\207.md\"\n@@ -1 +1 @@\n-old\n+new\n";
    let files = parse_unified_patch(patch).unwrap();
    assert_eq!(files[0].path, "中文.md");
    assert_eq!(apply_file_patch("old\n", &files[0]).unwrap(), "new\n");
}

#[test]
fn patch_treats_a_three_dash_hunk_line_as_content() {
    let patch = "--- a/Plain.md\n+++ b/Plain.md\n@@ -1 +1 @@\n--- note\n+fixed\n";
    assert_eq!(apply(patch, "-- note\n").unwrap(), "fixed\n");
}

#[test]
fn patch_header_and_count_errors() {
    assert_eq!(
        parse_unified_patch("").unwrap_err(),
        "patch contains no Markdown file changes"
    );
    assert_eq!(
        parse_unified_patch("hello\n").unwrap_err(),
        "expected --- file header at patch line 1"
    );
    assert_eq!(
        parse_unified_patch("--- a/x.md\n").unwrap_err(),
        "expected +++ file header at patch line 2"
    );
    assert_eq!(
        parse_unified_patch("--- a/x.md\n+++ b/y.md\n@@ -1 +1 @@\n-a\n+b\n").unwrap_err(),
        "patch cannot create, delete, or rename notes: x.md -> y.md"
    );
    assert_eq!(
        parse_unified_patch("--- a/x.md\n+++ b/x.md\n").unwrap_err(),
        "patch has no hunks for x.md"
    );
    assert_eq!(
        parse_unified_patch("--- a/x.md\n+++ b/x.md\n@@ -1,2 +1 @@\n-a\n+b\n").unwrap_err(),
        "hunk line count does not match header for x.md"
    );
    assert_eq!(
        parse_unified_patch("--- a/x.md\n+++ b/x.md\n@@ -1 +1 @@\n-a\n-b\n").unwrap_err(),
        "hunk line count exceeds header for x.md"
    );
    assert_eq!(
        parse_unified_patch("--- a/x.md\n+++ b/x.md\n@@ -1 +1 @@\n*a\n").unwrap_err(),
        "invalid hunk line: *a"
    );
    assert_eq!(
        parse_unified_patch("--- a/x.md\n+++ b/x.md\n@@ -1 +1\n-a\n+b\n").unwrap_err(),
        "invalid hunk header: @@ -1 +1"
    );
    assert_eq!(
        parse_unified_patch("--- a/x.md\n+++ b/x.md\n@@ 1 +1 @@\n-a\n+b\n").unwrap_err(),
        "invalid hunk range: 1"
    );
    assert_eq!(
        parse_unified_patch("--- a/x.txt\n+++ b/x.txt\n@@ -1 +1 @@\n-a\n+b\n").unwrap_err(),
        "patch path must end with .md: x.txt"
    );
    assert_eq!(
        parse_unified_patch("--- x.md\n+++ b/x.md\n@@ -1 +1 @@\n-a\n+b\n").unwrap_err(),
        "expected a/ path: x.md"
    );
    assert_eq!(
        parse_unified_patch("--- a/x.md\n+++ b/x.md\n@@ -1 +1 @@\n\\ No newline at end of file\n")
            .unwrap_err(),
        "orphan no-newline marker"
    );
}

#[test]
fn patch_hunks_must_be_ordered_and_inside_the_note() {
    let patch = "--- a/x.md\n+++ b/x.md\n@@ -5 +5 @@\n-a\n+b\n";
    assert_eq!(apply(patch, "a\n").unwrap_err(), "overlapping or out-of-range hunk in x.md");
    let zero = "--- a/x.md\n+++ b/x.md\n@@ -0,1 +1 @@\n-a\n+b\n";
    assert_eq!(apply(zero, "a\n").unwrap_err(), "invalid zero line in patch");
    let insert_top = "--- a/x.md\n+++ b/x.md\n@@ -0,0 +1 @@\n+top\n";
    assert_eq!(apply(insert_top, "a\n").unwrap(), "top\na\n");
    let beyond = "--- a/x.md\n+++ b/x.md\n@@ -2 +2 @@\n-b\n+c\n";
    assert_eq!(apply(beyond, "a\n").unwrap_err(), "patch context exceeds note: x.md");
}

#[test]
fn quoted_paths_decode_escapes() {
    assert_eq!(decode_git_quoted_path("\"a\\tb\\\\c\\\"d\"").unwrap(), "a\tb\\c\"d");
    assert_eq!(decode_git_quoted_path("\"a").unwrap_err(), "invalid quoted patch path: \"a");
    assert_eq!(decode_git_quoted_path("\"a\\\"").unwrap_err(), "trailing escape in patch path");
    assert_eq!(
        decode_git_quoted_path("\"\\12\"").unwrap_err(),
        "incomplete octal escape in patch path"
    );
    assert_eq!(
        decode_git_quoted_path("\"\\189\"").unwrap_err(),
        "invalid octal escape in patch path"
    );
    assert_eq!(
        decode_git_quoted_path("\"\\777\"").unwrap_err(),
        "octal escape exceeds one byte"
    );
    assert_eq!(decode_git_quoted_path("\"\\q\"").unwrap_err(), "unsupported escape in patch path");
    assert!(decode_git_quoted_path("\"\\377\"").is_err());
    assert_eq!(patch_path("a/x.md\t2024-01-01", "a/").unwrap(), "x.md");
}

#[test]
fn decimal_counts_parse_like_std() {
    let p = |s: &str| parse_usize(&s.chars().collect::<Vec<char>>());
    assert_eq!(p("42"), Ok(42));
    assert_eq!(p("+7"), Ok(7));
    assert_eq!(p(""), Err("cannot parse integer from empty string".to_string()));
    assert_eq!(p("+"), Err("invalid digit found in string".to_string()));
    assert_eq!(p("-1"), Err("invalid digit found in string".to_string()));
    assert_eq!(
        p("99999999999999999999999"),
        Err("number too large to fit in target type".to_string())
    );
}

#[test]
fn split_lines_keeps_the_final_newline_state() {
    let lines = split_lines("a\r\nb\nc");
    assert_eq!(
        lines,
        vec![
            PatchLine { text: "a\r".to_string(), newline: true },
            PatchLine { text: "b".to_string(), newline: true },
            PatchLine { text: "c".to_string(), newline: false },
        ]
    );
    assert!(split_lines("").is_empty());
    let empty = FilePatch { path: "x.md".to_string(), hunks: Vec::new() };
    assert_eq!(apply_file_patch("a\nb", &empty).unwrap(), "a\nb");
}

#[test]
fn quoted_paths_that_decode_to_invalid_utf8_report_the_std_error_text() {
    assert_eq!(
        decode_git_quoted_path("\"a\\377b.md\"").unwrap_err(),
        "invalid utf-8 sequence of 1 bytes from index 1"
    );
    assert_eq!(
        decode_git_quoted_path("\"ab\\303\"").unwrap_err(),
        "incomplete utf-8 byte sequence from index 2"
    );
}
