//! The text of a DOCX body: the events of its `word/document.xml` (read by `quick_xml`) folded
//! into paragraphs.
use vstd::prelude::*;

use quick_xml::events::Event;
use quick_xml::Reader;

use crate::mutation::block_id::join_texts;
use crate::mutation::history::texts;
use crate::text::{chars_of, join_with, push_char, push_str, str_eq, to_string, trim, trim_bounds};

verus! {

/// An XML event as the DOCX reader sees it: a start tag or an end tag by its local name,
/// text, or anything else.
#[derive(Clone, Debug)]
pub enum XmlEvent {
    Start(String),
    End(String),
    Text(String),
    Other,
}

/// An XML event by its texts.
pub enum XmlEventView {
    Start(Seq<char>),
    End(Seq<char>),
    Text(Seq<char>),
    Other,
}

impl View for XmlEvent {
    type V = XmlEventView;

    open spec fn view(&self) -> XmlEventView {
        match self {
            XmlEvent::Start(n) => XmlEventView::Start(n@),
            XmlEvent::End(n) => XmlEventView::End(n@),
            XmlEvent::Text(t) => XmlEventView::Text(t@),
            XmlEvent::Other => XmlEventView::Other,
        }
    }
}

/// The views of a list of events.
pub open spec fn event_views(v: Seq<XmlEvent>) -> Seq<XmlEventView> {
    v.map_values(|e: XmlEvent| e@)
}

/// The events that `quick_xml::Reader::from_str` (text not trimmed) reads from a text up to its
/// end, or the text of the error that stops it.
pub uninterp spec fn xml_events_of(xml: Seq<char>) -> Result<Seq<XmlEventView>, Seq<char>>;

/// `quick_xml::Reader::read_event` called until `Event::Eof`, each event converted: start and
/// end tags by their local name, text by its content with XML 1.0 line ends
/// (`BytesText::xml10_content`), every other event as `Other`; an error ends the reading with
/// its text. The result is named by `xml_events_of`.
#[verifier::external_body]
fn xml_events(xml: &str) -> (r: Result<Vec<XmlEvent>, String>)
    ensures
        match xml_events_of(xml@) {
            Ok(e) => r matches Ok(v) && event_views(v@) == e,
            Err(m) => r matches Err(x) && x@ == m,
        },
{
    let mut reader = Reader::from_str(xml);
    reader.config_mut().trim_text(false);
    let mut events = Vec::new();
    loop {
        events.push(match reader.read_event().map_err(|error| error.to_string())? {
            Event::Start(e) => XmlEvent::Start(e.local_name().as_ref().to_string()),
            Event::End(e) => XmlEvent::End(e.local_name().as_ref().to_string()),
            Event::Text(e) => XmlEvent::Text(e.xml10_content().into_owned()),
            Event::Eof => return Ok(events),
            _ => XmlEvent::Other,
        });
    }
}

/// What reading a DOCX body has gathered: the finished paragraphs, the current paragraph, and
/// whether the reader is inside a text element.
pub struct DocxState {
    pub paragraphs: Seq<Seq<char>>,
    pub paragraph: Seq<char>,
    pub in_text: bool,
}

/// One event read: `<p>` starts a paragraph afresh, `<t>` opens text, `<tab>` adds a tab,
/// `<br>` and `<cr>` a line break; `</t>` closes text, `</p>` keeps the paragraph when it is
/// not blank; text counts only inside a text element.
pub open spec fn docx_step(s: DocxState, e: XmlEventView) -> DocxState {
    match e {
        XmlEventView::Start(n) => if n == "p"@ {
            DocxState { paragraph: Seq::empty(), ..s }
        } else if n == "t"@ {
            DocxState { in_text: true, ..s }
        } else if n == "tab"@ {
            DocxState { paragraph: s.paragraph.push('\t'), ..s }
        } else if n == "br"@ || n == "cr"@ {
            DocxState { paragraph: s.paragraph.push('\n'), ..s }
        } else {
            s
        },
        XmlEventView::End(n) => if n == "t"@ {
            DocxState { in_text: false, ..s }
        } else if n == "p"@ && trim(s.paragraph).len() > 0 {
            DocxState { paragraphs: s.paragraphs.push(s.paragraph), paragraph: Seq::empty(), ..s }
        } else {
            s
        },
        XmlEventView::Text(t) => if s.in_text {
            DocxState { paragraph: s.paragraph + t, ..s }
        } else {
            s
        },
        XmlEventView::Other => s,
    }
}

/// The state after reading the events in order.
pub open spec fn docx_state(events: Seq<XmlEventView>) -> DocxState
    decreases events.len(),
{
    if events.len() == 0 {
        DocxState { paragraphs: Seq::empty(), paragraph: Seq::empty(), in_text: false }
    } else {
        docx_step(docx_state(events.drop_last()), events.last())
    }
}

/// The body text: the kept paragraphs joined by a blank line.
pub open spec fn docx_text_spec(events: Seq<XmlEventView>) -> Seq<char> {
    join_with(docx_state(events).paragraphs, "\n\n"@)
}

fn is_blank(s: &str) -> (b: bool)
    ensures
        b == (trim(s@).len() == 0),
{
    let cs = chars_of(s);
    let (a, b) = trim_bounds(&cs, 0, cs.len());
    assert(cs@.subrange(0, cs@.len() as int) =~= cs@);
    a == b
}

/// The body text of a DOCX document's events (see `docx_text_spec`).
pub fn docx_body_text(events: &Vec<XmlEvent>) -> (r: String)
    ensures
        r@ == docx_text_spec(event_views(events@)),
{
    proof {
        reveal_strlit("p");
        reveal_strlit("t");
        reveal_strlit("tab");
        reveal_strlit("br");
        reveal_strlit("cr");
    }
    let ghost ev = event_views(events@);
    let mut paragraphs: Vec<String> = Vec::new();
    let mut paragraph = String::new();
    let mut in_text = false;
    let mut i: usize = 0;
    assert(ev.take(0) =~= Seq::<XmlEventView>::empty());
    assert(texts(paragraphs@) =~= Seq::<Seq<char>>::empty());
    assert(paragraph@ =~= Seq::<char>::empty());
    while i < events.len()
        invariant
            i <= events@.len(),
            ev == event_views(events@),
            texts(paragraphs@) == docx_state(ev.take(i as int)).paragraphs,
            paragraph@ == docx_state(ev.take(i as int)).paragraph,
            in_text == docx_state(ev.take(i as int)).in_text,
        decreases events@.len() - i,
    {
        proof {
            reveal_strlit("p");
            reveal_strlit("t");
            reveal_strlit("tab");
            reveal_strlit("br");
            reveal_strlit("cr");
        }
        assert(ev.take(i + 1).drop_last() =~= ev.take(i as int));
        assert(ev.take(i + 1).last() == events@[i as int]@);
        match &events[i] {
            XmlEvent::Start(n) => {
                if str_eq(n.as_str(), "p") {
                    paragraph = String::new();
                    assert(paragraph@ =~= Seq::<char>::empty());
                } else if str_eq(n.as_str(), "t") {
                    in_text = true;
                } else if str_eq(n.as_str(), "tab") {
                    push_char(&mut paragraph, '\t');
                } else if str_eq(n.as_str(), "br") || str_eq(n.as_str(), "cr") {
                    push_char(&mut paragraph, '\n');
                }
            },
            XmlEvent::End(n) => {
                if str_eq(n.as_str(), "t") {
                    in_text = false;
                } else if str_eq(n.as_str(), "p") && !is_blank(paragraph.as_str()) {
                    let ghost before = texts(paragraphs@);
                    let ghost kept = paragraph@;
                    paragraphs.push(paragraph);
                    paragraph = String::new();
                    assert(texts(paragraphs@) =~= before.push(kept));
                    assert(paragraph@ =~= Seq::<char>::empty());
                }
            },
            XmlEvent::Text(t) => {
                if in_text {
                    push_str(&mut paragraph, t.as_str());
                }
            },
            XmlEvent::Other => {},
        }
        i = i + 1;
    }
    assert(ev.take(events@.len() as int) =~= ev);
    proof {
        reveal_strlit("\n\n");
    }
    join_texts(&paragraphs, "\n\n")
}

/// The body text of a DOCX document's `word/document.xml`, or the refusal of XML that does not
/// parse.
pub fn docx_text(xml: &str) -> (r: Result<String, String>)
    ensures
        match xml_events_of(xml@) {
            Ok(e) => r matches Ok(t) && t@ == docx_text_spec(e),
            Err(m) => r matches Err(x) && x@ == "could not parse DOCX body XML: "@ + m,
        },
{
    match xml_events(xml) {
        Ok(events) => Ok(docx_body_text(&events)),
        Err(m) => {
            let mut x = to_string("could not parse DOCX body XML: ");
            push_str(&mut x, m.as_str());
            proof {
                reveal_strlit("could not parse DOCX body XML: ");
            }
            Err(x)
        },
    }
}

} // verus!
