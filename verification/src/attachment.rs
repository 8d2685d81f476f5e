//! The kinds of attachment the reader supports, chosen by a path's extension.
use vstd::prelude::*;

use crate::text::{chars_of, decimal, join_with, push_str, str_eq, to_string, trim};

verus! {

/// PDF, DOCX, PNG and JPEG attachments.
#[derive(Clone, Copy, Debug, PartialEq, Eq, Structural)]
pub enum AttachmentKind {
    Pdf,
    Docx,
    Png,
    Jpeg,
}

/// What `camino::Utf8Path::extension` returns for a path: the part of its file name after
/// the final `.`, when the file name has one that does not start it.
pub uninterp spec fn path_extension(path: Seq<char>) -> Option<Seq<char>>;

/// `camino::Utf8Path::new(path).extension()`, as an owned string. Its result is named by
/// `path_extension`; that it holds no `.` is what camino's documentation says of the
/// portion after the final `.`.
#[verifier::external_body]
fn extension_of(path: &str) -> (r: Option<String>)
    ensures
        match r {
            Some(e) => path_extension(path@) == Some(e@) && !e@.contains('.'),
            None => path_extension(path@) is None,
        },
{
    camino::Utf8Path::new(path).extension().map(|e| e.to_string())
}

/// ASCII letters lowered; every other character kept.
pub open spec fn ascii_lower(s: Seq<char>) -> Seq<char> {
    s.map_values(|c: char| if 'A' <= c <= 'Z' { ((c as u32) + 32) as char } else { c })
}

fn lower_ascii(s: &str) -> (r: String)
    ensures
        r@ == ascii_lower(s@),
{
    let cs = crate::text::chars_of(s);
    let mut r = String::new();
    let mut i: usize = 0;
    while i < cs.len()
        invariant
            i <= cs.len(),
            r@ == ascii_lower(cs@.take(i as int)),
        decreases cs.len() - i,
    {
        let c = cs[i];
        let d = if 'A' <= c && c <= 'Z' {
            lower_letter(c)
        } else {
            c
        };
        crate::text::push_char(&mut r, d);
        assert(cs@.take(i + 1) =~= cs@.take(i as int).push(c));
        assert(ascii_lower(cs@.take(i + 1)) =~= ascii_lower(cs@.take(i as int)).push(d));
        i += 1;
    }
    assert(cs@.take(cs.len() as int) =~= cs@);
    r
}

fn lower_letter(c: char) -> (d: char)
    requires
        'A' <= c <= 'Z',
    ensures
        d == ((c as u32) + 32) as char,
{
    let b: u8 = c as u8;
    assert(b as u32 == c as u32);
    let code: u8 = b + 32;
    code as char
}

/// The kind a lower-case extension names.
pub open spec fn kind_of(ext: Seq<char>) -> Option<AttachmentKind> {
    if ext == "pdf"@ {
        Some(AttachmentKind::Pdf)
    } else if ext == "docx"@ {
        Some(AttachmentKind::Docx)
    } else if ext == "png"@ {
        Some(AttachmentKind::Png)
    } else if ext == "jpg"@ || ext == "jpeg"@ {
        Some(AttachmentKind::Jpeg)
    } else {
        None
    }
}

/// The kind of the attachment at `path` with the given extension (case ignored), or the
/// refusal naming the path.
pub open spec fn kind_spec(path: Seq<char>, ext: Option<Seq<char>>) -> Result<AttachmentKind, Seq<char>> {
    let e = ascii_lower(
        match ext {
            Some(e) => e,
            None => Seq::<char>::empty(),
        },
    );
    match kind_of(e) {
        Some(k) => Ok(k),
        None => Err(
            "unsupported attachment type for "@ + path
                + "; supported types are PDF, DOCX, PNG, and JPEG"@,
        ),
    }
}

/// The kind for a path whose extension is known (see `kind_spec`).
pub fn kind_from_extension(path: &str, extension: Option<String>) -> (r: Result<AttachmentKind, String>)
    ensures
        match kind_spec(
            path@,
            match extension {
                Some(e) => Some(e@),
                None => None,
            },
        ) {
            Ok(k) => r == Ok::<AttachmentKind, String>(k),
            Err(m) => r matches Err(e) && e@ == m,
        },
{
    let raw = match extension {
        Some(e) => e,
        None => String::new(),
    };
    let e = lower_ascii(raw.as_str());
    if str_eq(e.as_str(), "pdf") {
        Ok(AttachmentKind::Pdf)
    } else if str_eq(e.as_str(), "docx") {
        Ok(AttachmentKind::Docx)
    } else if str_eq(e.as_str(), "png") {
        Ok(AttachmentKind::Png)
    } else if str_eq(e.as_str(), "jpg") || str_eq(e.as_str(), "jpeg") {
        Ok(AttachmentKind::Jpeg)
    } else {
        let mut m = to_string("unsupported attachment type for ");
        push_str(&mut m, path);
        push_str(&mut m, "; supported types are PDF, DOCX, PNG, and JPEG");
        Err(m)
    }
}

/// The name each kind reports as its format.
pub open spec fn format_name(k: AttachmentKind) -> Seq<char> {
    match k {
        AttachmentKind::Pdf => "pdf"@,
        AttachmentKind::Docx => "docx"@,
        AttachmentKind::Png => "png"@,
        AttachmentKind::Jpeg => "jpeg"@,
    }
}

impl AttachmentKind {
    /// The kind of the attachment at `path`, by its extension (see `kind_spec`).
    pub fn parse(path: &str) -> (r: Result<Self, String>)
        ensures
            match kind_spec(path@, path_extension(path@)) {
                Ok(k) => r == Ok::<AttachmentKind, String>(k),
                Err(m) => r matches Err(e) && e@ == m,
            },
    {
        let extension = extension_of(path);
        kind_from_extension(path, extension)
    }

    /// The format name of the kind.
    pub fn format(self) -> (r: &'static str)
        ensures
            r@ == format_name(self),
    {
        match self {
            AttachmentKind::Pdf => "pdf",
            AttachmentKind::Docx => "docx",
            AttachmentKind::Png => "png",
            AttachmentKind::Jpeg => "jpeg",
        }
    }
}

/// Whether a flag is off (so that serialisation can leave it out).
pub fn is_false(value: &bool) -> (r: bool)
    ensures
        r == !*value,
{
    !*value
}

/// What reading an attachment gives: its source (the path, with `#page=N` for one PDF page),
/// format, status, how its text was extracted, the text within the character budget, the
/// PDF pages that need OCR, warnings, and whether the text was cut. (OCR sources, which carry
/// a floating-point confidence, are attached outside the library.)
#[derive(Clone, Debug)]
pub struct ReadAttachmentResult {
    pub source: String,
    pub format: String,
    pub status: String,
    pub extraction: String,
    pub content: String,
    pub ocr_required_pages: Option<Vec<u32>>,
    pub warnings: Option<Vec<String>>,
    pub truncated: bool,
}

/// An empty list is left out.
pub open spec fn nonempty<T>(v: Seq<T>) -> Option<Seq<T>> {
    if v.len() == 0 {
        None
    } else {
        Some(v)
    }
}

/// The status of a read: complete when no page needs OCR, else OCR required when no text was
/// read, else partial.
pub open spec fn status_spec(ocr_pages: Seq<u32>, content: Seq<char>) -> Seq<char> {
    if ocr_pages.len() == 0 {
        "complete"@
    } else if content.len() == 0 {
        "ocr_required"@
    } else {
        "partial"@
    }
}

/// The result has the given source, kind, extraction, OCR pages and warnings, and the content
/// cut to `budget` characters (`truncated` when it was longer).
pub open spec fn budget_spec(
    r: ReadAttachmentResult,
    source: Seq<char>,
    kind: AttachmentKind,
    extraction: Seq<char>,
    content: Seq<char>,
    budget: nat,
    ocr_pages: Seq<u32>,
    warnings: Seq<Seq<char>>,
) -> bool {
    let cut = if content.len() > budget {
        content.take(budget as int)
    } else {
        content
    };
    &&& r.source@ == source
    &&& r.format@ == format_name(kind)
    &&& r.status@ == status_spec(ocr_pages, cut)
    &&& r.extraction@ == extraction
    &&& r.content@ == cut
    &&& r.truncated == (content.len() > budget)
    &&& match r.ocr_required_pages {
        Some(p) => nonempty(ocr_pages) == Some(p@),
        None => nonempty(ocr_pages) is None,
    }
    &&& match r.warnings {
        Some(w) => nonempty(warnings) == Some(w@.map_values(|x: String| x@)),
        None => nonempty(warnings) is None,
    }
}

/// Builds a read result, keeping at most `budget` characters of the content (see
/// `budget_spec`).
pub fn with_budget(
    source: String,
    kind: AttachmentKind,
    extraction: &str,
    content: String,
    budget: usize,
    ocr_required_pages: Vec<u32>,
    warnings: Vec<String>,
) -> (r: ReadAttachmentResult)
    ensures
        budget_spec(
            r,
            source@,
            kind,
            extraction@,
            content@,
            budget as nat,
            ocr_required_pages@,
            warnings@.map_values(|x: String| x@),
        ),
{
    let cs = chars_of(content.as_str());
    let truncated = cs.len() > budget;
    let content = if truncated {
        crate::text::string_of(&cs, 0, budget)
    } else {
        content
    };
    assert(cs@.subrange(0, budget as int) =~= cs@.take(budget as int));
    let empty = chars_of(content.as_str()).len() == 0;
    let status = if ocr_required_pages.len() == 0 {
        "complete"
    } else if empty {
        "ocr_required"
    } else {
        "partial"
    };
    let ghost ws = warnings@.map_values(|x: String| x@);
    ReadAttachmentResult {
        source,
        format: to_string(kind.format()),
        status: to_string(status),
        extraction: to_string(extraction),
        content,
        ocr_required_pages: if ocr_required_pages.len() == 0 {
            None
        } else {
            Some(ocr_required_pages)
        },
        warnings: if warnings.len() == 0 {
            None
        } else {
            Some(warnings)
        },
        truncated,
    }
}

/// A page of a PDF as its text extractor gives it: its zero-based number, whether it has no
/// trustworthy native text, and its text as Markdown.
#[derive(Clone, Debug)]
pub struct PdfPage {
    pub page: u32,
    pub needs_ocr: bool,
    pub markdown: String,
}

/// The zero-based index of a requested one-based PDF page, or the refusal of page 0 or of a
/// page past the document's end.
pub fn pdf_page_index(page: u32, page_count: u32) -> (r: Result<u32, String>)
    ensures
        page == 0 ==> (r matches Err(e) && e@ == "page must be greater than or equal to 1"@),
        page != 0 && page > page_count ==> (r matches Err(e) && e@ == "PDF page "@ + decimal(page as nat)
            + " does not exist"@),
        page != 0 && page <= page_count ==> r == Ok::<u32, String>((page - 1) as u32),
{
    if page == 0 {
        return Err(to_string("page must be greater than or equal to 1"));
    }
    if page > page_count {
        let mut m = to_string("PDF page ");
        crate::text::push_decimal(&mut m, page as u128);
        push_str(&mut m, " does not exist");
        return Err(m);
    }
    Ok(page - 1)
}

/// The text blocks of the pages with native text, each headed by its one-based number.
pub open spec fn text_pages(pages: Seq<PdfPage>) -> Seq<Seq<char>>
    decreases pages.len(),
{
    if pages.len() == 0 {
        Seq::empty()
    } else {
        let prev = text_pages(pages.drop_last());
        let p = pages.last();
        if !p.needs_ocr && trim(p.markdown@).len() > 0 {
            prev.push("<!-- Page "@ + decimal(p.page as nat + 1) + " -->\n"@ + p.markdown@)
        } else {
            prev
        }
    }
}

/// The one-based numbers of the pages that need OCR.
pub open spec fn ocr_pages(pages: Seq<PdfPage>) -> Seq<u32>
    decreases pages.len(),
{
    if pages.len() == 0 {
        Seq::empty()
    } else {
        let prev = ocr_pages(pages.drop_last());
        if pages.last().needs_ocr {
            prev.push((pages.last().page + 1) as u32)
        } else {
            prev
        }
    }
}

/// The warning of a PDF read with pages that need OCR.
pub open spec fn ocr_warning() -> Seq<char> {
    "some PDF pages have no trustworthy native text; rebuild with --features ocr-local and configure the local OCR runtime"@
}

/// The result of reading a PDF's native text: the path (with `#page=N` when one page was
/// asked for), the pages with text joined by a blank line within the budget, the pages that
/// need OCR, and a warning when there are some.
pub fn pdf_native_result(relative_path: &str, page: Option<u32>, pages: &Vec<PdfPage>, budget: usize) -> (r:
    ReadAttachmentResult)
    requires
        forall|i: int| 0 <= i < pages@.len() ==> (#[trigger] pages@[i]).page < u32::MAX,
    ensures
        budget_spec(
            r,
            match page {
                Some(n) => relative_path@ + "#page="@ + decimal(n as nat),
                None => relative_path@,
            },
            AttachmentKind::Pdf,
            "native_text"@,
            join_with(text_pages(pages@), "\n\n"@),
            budget as nat,
            ocr_pages(pages@),
            if ocr_pages(pages@).len() == 0 {
                Seq::<Seq<char>>::empty()
            } else {
                seq![ocr_warning()]
            },
        ),
{
    proof {
        reveal_strlit("<!-- Page ");
        reveal_strlit(" -->\n");
        reveal_strlit("\n\n");
        reveal_strlit("#page=");
    }
    let mut text = String::new();
    let mut count: usize = 0;
    let mut needs: Vec<u32> = Vec::new();
    let mut i: usize = 0;
    assert(pages@.take(0) =~= Seq::<PdfPage>::empty());
    assert(needs@ =~= Seq::<u32>::empty());
    while i < pages.len()
        invariant
            i <= pages@.len(),
            forall|k: int| 0 <= k < pages@.len() ==> (#[trigger] pages@[k]).page < u32::MAX,
            count as int == text_pages(pages@.take(i as int)).len(),
            text@ == join_with(text_pages(pages@.take(i as int)), "\n\n"@),
            needs@ == ocr_pages(pages@.take(i as int)),
            count <= i,
        decreases pages@.len() - i,
    {
        let p = &pages[i];
        let number = p.page + 1;
        assert(pages@.take(i + 1).drop_last() =~= pages@.take(i as int));
        assert(pages@.take(i + 1).last() == pages@[i as int]);
        let ghost prev = text_pages(pages@.take(i as int));
        if p.needs_ocr {
            needs.push(number);
        } else {
            let ms = chars_of(p.markdown.as_str());
            let (a, b) = crate::text::trim_bounds(&ms, 0, ms.len());
            assert(ms@.subrange(0, ms@.len() as int) =~= ms@);
            if a < b {
                let mut block = to_string("<!-- Page ");
                crate::text::push_decimal(&mut block, number as u128);
                push_str(&mut block, " -->\n");
                push_str(&mut block, p.markdown.as_str());
                let ghost full = prev.push(block@);
                assert(full.drop_last() =~= prev);
                if count > 0 {
                    push_str(&mut text, "\n\n");
                } else {
                    assert(prev.len() == 0);
                    assert(full =~= seq![block@]);
                }
                push_str(&mut text, block.as_str());
                assert(text@ =~= join_with(full, "\n\n"@));
                count = count + 1;
            }
        }
        i = i + 1;
    }
    assert(pages@.take(pages@.len() as int) =~= pages@);
    let source = match page {
        Some(n) => {
            let mut s = to_string(relative_path);
            push_str(&mut s, "#page=");
            crate::text::push_decimal(&mut s, n as u128);
            s
        },
        None => to_string(relative_path),
    };
    let mut warnings: Vec<String> = Vec::new();
    if needs.len() > 0 {
        warnings.push(to_string(
            "some PDF pages have no trustworthy native text; rebuild with --features ocr-local and configure the local OCR runtime",
        ));
    }
    proof {
        reveal_strlit(
            "some PDF pages have no trustworthy native text; rebuild with --features ocr-local and configure the local OCR runtime",
        );
    }
    assert(warnings@.map_values(|x: String| x@) =~= if ocr_pages(pages@).len() == 0 {
        Seq::<Seq<char>>::empty()
    } else {
        seq![ocr_warning()]
    });
    with_budget(source, AttachmentKind::Pdf, "native_text", text, budget, needs, warnings)
}

} // verus!
