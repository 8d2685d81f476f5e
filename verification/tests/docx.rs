use obsidian_vault_mcp::docx::{docx_body_text, docx_text, XmlEvent};

#[test]
fn docx_text_keeps_text_elements_and_joins_paragraphs() {
    let xml = "<w:document><w:body><w:p><w:r><w:t>Hello</w:t></w:r><w:r><w:br></w:br><w:t>there</w:t></w:r></w:p><w:p><w:r><w:t>  </w:t></w:r></w:p><w:p><w:r><w:tab></w:tab><w:t>World</w:t></w:r><w:r><w:instr>skip</w:instr></w:r></w:p></w:body></w:document>";
    assert_eq!(docx_text(xml).unwrap(), "Hello\nthere\n\n\tWorld");
}

#[test]
fn docx_tags_are_read_by_local_name() {
    assert_eq!(docx_text("<w:p><w:t>a</w:t></w:p><p><t>b</t></p>").unwrap(), "a\n\nb");
}

#[test]
fn docx_body_text_of_events() {
    let events = vec![
        XmlEvent::Start("p".to_string()),
        XmlEvent::Text("outside".to_string()),
        XmlEvent::Start("t".to_string()),
        XmlEvent::Text("inside".to_string()),
        XmlEvent::End("t".to_string()),
        XmlEvent::End("p".to_string()),
        XmlEvent::Start("p".to_string()),
        XmlEvent::Start("cr".to_string()),
        XmlEvent::End("p".to_string()),
        XmlEvent::Other,
    ];
    assert_eq!(docx_body_text(&events), "inside");
}

#[test]
fn docx_xml_that_does_not_parse_is_refused() {
    let error = docx_text("<w:p><w:t>a</w:x></w:p>").unwrap_err();
    assert!(error.starts_with("could not parse DOCX body XML: "), "{error}");
}
