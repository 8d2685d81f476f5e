use obsidian_vault_mcp::attachment::{
    is_false, kind_from_extension, pdf_native_result, pdf_page_index, with_budget, AttachmentKind, PdfPage,
};

#[test]
fn kinds_follow_the_extension_case_insensitively() {
    assert_eq!(AttachmentKind::parse("docs/a.PDF").unwrap(), AttachmentKind::Pdf);
    assert_eq!(AttachmentKind::parse("a.docx").unwrap(), AttachmentKind::Docx);
    assert_eq!(AttachmentKind::parse("img/x.Png").unwrap(), AttachmentKind::Png);
    assert_eq!(AttachmentKind::parse("x.jpg").unwrap(), AttachmentKind::Jpeg);
    assert_eq!(AttachmentKind::parse("x.JPEG").unwrap(), AttachmentKind::Jpeg);
    assert_eq!(AttachmentKind::Jpeg.format(), "jpeg");
    assert_eq!(AttachmentKind::Pdf.format(), "pdf");
}

#[test]
fn unsupported_or_missing_extensions_are_refused() {
    assert_eq!(
        AttachmentKind::parse("notes/readme").unwrap_err(),
        "unsupported attachment type for notes/readme; supported types are PDF, DOCX, PNG, and JPEG"
    );
    assert!(AttachmentKind::parse("a.txt").is_err());
    assert!(AttachmentKind::parse(".pdf").is_err());
    assert_eq!(
        kind_from_extension("x", Some("TIFF".to_string())).unwrap_err(),
        "unsupported attachment type for x; supported types are PDF, DOCX, PNG, and JPEG"
    );
    assert_eq!(kind_from_extension("x", Some("Docx".to_string())).unwrap(), AttachmentKind::Docx);
}

#[test]
fn is_false_negates() {
    assert!(is_false(&false));
    assert!(!is_false(&true));
}

#[test]
fn pdf_pages_are_checked_against_the_page_count() {
    assert_eq!(pdf_page_index(0, 3).unwrap_err(), "page must be greater than or equal to 1");
    assert_eq!(pdf_page_index(4, 3).unwrap_err(), "PDF page 4 does not exist");
    assert_eq!(pdf_page_index(3, 3).unwrap(), 2);
}

#[test]
fn pdf_native_text_joins_pages_and_reports_pages_that_need_ocr() {
    let pages = vec![
        PdfPage { page: 0, needs_ocr: false, markdown: "First".to_string() },
        PdfPage { page: 1, needs_ocr: true, markdown: String::new() },
        PdfPage { page: 2, needs_ocr: false, markdown: "  \n".to_string() },
        PdfPage { page: 3, needs_ocr: false, markdown: "Fourth".to_string() },
    ];
    let r = pdf_native_result("docs/a.pdf", None, &pages, 1000);
    assert_eq!(r.source, "docs/a.pdf");
    assert_eq!(r.format, "pdf");
    assert_eq!(r.status, "partial");
    assert_eq!(r.extraction, "native_text");
    assert_eq!(r.content, "<!-- Page 1 -->\nFirst\n\n<!-- Page 4 -->\nFourth");
    assert_eq!(r.ocr_required_pages, Some(vec![2]));
    assert_eq!(r.warnings.as_ref().map(|w| w.len()), Some(1));
    assert!(!r.truncated);

    let one = pdf_native_result("a.pdf", Some(1), &pages[..1].to_vec(), 5);
    assert_eq!(one.source, "a.pdf#page=1");
    assert_eq!(one.status, "complete");
    assert_eq!(one.content, "<!-- ");
    assert!(one.truncated);
    assert_eq!(one.ocr_required_pages, None);
    assert_eq!(one.warnings, None);
}

#[test]
fn reads_with_no_text_and_ocr_pages_need_ocr() {
    let r = with_budget("a.png".to_string(), AttachmentKind::Png, "ocr", String::new(), 10, vec![1], Vec::new());
    assert_eq!(r.status, "ocr_required");
    assert_eq!(r.format, "png");
    assert!(!r.truncated);
    let r = with_budget("a.docx".to_string(), AttachmentKind::Docx, "native_text", "ééé".to_string(), 2, Vec::new(), Vec::new());
    assert_eq!(r.content, "éé");
    assert!(r.truncated);
    assert_eq!(r.status, "complete");
}
