use obsidian_vault_mcp::parser::{LinkInfo, LinkKind, SourceSpan};
use obsidian_vault_mcp::query::{resolve_link, source_relative_target, LinkResolution};

fn link(kind: LinkKind, target: &str, source: &str) -> LinkInfo {
    LinkInfo {
        raw: format!("[[{target}]]"),
        target: target.to_string(),
        alias: None,
        reference: None,
        kind,
        source: SourceSpan {
            path: source.to_string(),
            line_start: 1,
            line_end: 1,
            byte_start: 0,
            byte_end: target.len() + 4,
            section: None,
        },
    }
}

fn paths(ps: &[&str]) -> Vec<String> {
    ps.iter().map(|p| p.to_string()).collect()
}

fn note_path(r: LinkResolution) -> Option<String> {
    match r {
        LinkResolution::Note { path } => Some(path),
        _ => None,
    }
}

#[test]
fn markdown_links_lead_to_the_path_they_name() {
    let r = resolve_link(&link(LinkKind::Markdown, "dir/a.md", "b.md"), &paths(&[]));
    assert!(matches!(r, LinkResolution::Markdown { path } if path == "dir/a.md"));
}

#[test]
fn a_bare_name_prefers_the_root_note() {
    let r = resolve_link(&link(LinkKind::Wikilink, "note", "x/y.md"), &paths(&["dir/note.md", "note.md"]));
    assert_eq!(note_path(r).as_deref(), Some("note.md"));
}

#[test]
fn a_path_from_the_linking_note_folder_comes_next() {
    let r = resolve_link(&link(LinkKind::Wikilink, "../sub/b", "dir/x/a.md"), &paths(&["dir/sub/b.md", "z/sub/b.md"]));
    assert_eq!(note_path(r).as_deref(), Some("dir/sub/b.md"));
    assert_eq!(source_relative_target("dir/a.md", "./b.md").as_deref(), Some("dir/b.md"));
    assert_eq!(source_relative_target("a.md", "../b"), None);
    assert_eq!(source_relative_target("a.md", ""), None);
}

#[test]
fn a_unique_suffix_match_is_chosen() {
    let r = resolve_link(&link(LinkKind::Wikilink, "b.md.md", "a.md"), &paths(&["x/b.md", "x/cb.md"]));
    assert_eq!(note_path(r).as_deref(), Some("x/b.md"));
}

#[test]
fn ambiguous_references_are_not_guessed() {
    let r = resolve_link(&link(LinkKind::Wikilink, "b", "a.md"), &paths(&["x/b.md", "y/b.md"]));
    match r {
        LinkResolution::Ambiguous { candidates } => assert_eq!(candidates, paths(&["x/b.md", "y/b.md"])),
        _ => panic!("expected an ambiguous result"),
    }
}

#[test]
fn an_empty_target_leads_to_the_linking_note() {
    let r = resolve_link(&link(LinkKind::Wikilink, "", "a.md"), &paths(&["a.md"]));
    assert_eq!(note_path(r).as_deref(), Some("a.md"));
    let r = resolve_link(&link(LinkKind::Wikilink, "", "a.md"), &paths(&["b.md"]));
    assert!(matches!(r, LinkResolution::Unmatched));
    let r = resolve_link(&link(LinkKind::Wikilink, "nothing", "a.md"), &paths(&["b.md"]));
    assert!(matches!(r, LinkResolution::Unmatched));
}
