//! Standalone Todo detail documents (`blueprint/todo/v3`): frontmatter metadata, a title, and
//! the Plan, Completion Criteria, Handoff, Result, Evidence, Notes and Revision History
//! sections.
use vstd::prelude::*;

use crate::blueprint::body::{failure_message, parse_leading_spec, parse_spec, ExternalBody};
use crate::blueprint::document::{
    find_section, lookup, DocumentSchema, DocumentView, ParsedDocument, Section, SectionView,
};
use crate::markdown::MdNode;
use crate::blueprint::model::{CheckItem, EvidenceItem, RevisionEntry, TodoDetail};
use crate::blueprint::source::{markdown_entries, pairs_view};
use crate::text::{join_with, push_str, to_string};
use crate::parser::{char_at, slice_spec};
use crate::text::{
    byte_len, chars_of, is_boundary, lemma_byte_len_push, line_bounds, lines_spec,
    ranges_view, skip_ws, string_of, trim, trim_bounds, trim_start, utf8_width,
};

verus! {

/// The check item a line holds: after leading whitespace, `- [`, a marker character, and
/// from byte 5 on the item's text, trimmed; completed when the marker is `x` or `X`. A line
/// with an empty text, or whose byte 5 falls inside a character, holds none.
pub open spec fn check_item_spec(line: Seq<char>) -> Option<(Seq<char>, bool)> {
    let l = trim_start(line);
    if l.len() >= 4 && l[0] == '-' && l[1] == ' ' && l[2] == '[' && is_boundary(l, 5) {
        let t = trim(l.skip(char_at(l, 5)));
        if t.len() > 0 {
            Some((t, l[3] == 'x' || l[3] == 'X'))
        } else {
            None
        }
    } else {
        None
    }
}

/// The check items of the lines, in order.
pub open spec fn check_items_of(lines: Seq<Seq<char>>) -> Seq<(Seq<char>, bool)>
    decreases lines.len(),
{
    if lines.len() == 0 {
        seq![]
    } else {
        match check_item_spec(lines.last()) {
            Some(item) => check_items_of(lines.drop_last()).push(item),
            None => check_items_of(lines.drop_last()),
        }
    }
}

pub open spec fn check_view(c: CheckItem) -> (Seq<char>, bool) {
    (c.text@, c.completed)
}

/// The check item of the line `cs[from..to]`, if it holds one.
fn check_item_of(cs: &Vec<char>, from: usize, to: usize) -> (r: Option<CheckItem>)
    requires
        from <= to <= cs.len(),
    ensures
        match r {
            Some(c) => check_item_spec(cs@.subrange(from as int, to as int)) == Some(check_view(c)),
            None => check_item_spec(cs@.subrange(from as int, to as int)) is None,
        },
{
    let ghost line = cs@.subrange(from as int, to as int);
    let a = skip_ws(cs, from, to);
    let ghost l = trim_start(line);
    assert(l =~= cs@.subrange(a as int, to as int));
    if !(to - a >= 4 && cs[a] == '-' && cs[a + 1] == ' ' && cs[a + 2] == '[') {
        return None;
    }
    let marker = cs[a + 3];
    match crate::parser::char_at_byte(cs, a, to, 5) {
        None => None,
        Some(k) => {
            let (x, y) = trim_bounds(cs, k, to);
            assert(l.skip(k - a) =~= cs@.subrange(k as int, to as int));
            if x == y {
                return None;
            }
            let text = string_of(cs, x, y);
            Some(CheckItem { text, completed: marker == 'x' || marker == 'X' })
        },
    }
}

/// The check items of a section body, one per line of the form `- [m] text`.
pub fn check_items(source: &str) -> (r: Vec<CheckItem>)
    ensures
        r@.map_values(|c: CheckItem| check_view(c)) == check_items_of(lines_spec(source@)),
{
    let cs = chars_of(source);
    let rs = line_bounds(&cs);
    let ghost ls = lines_spec(cs@);
    let mut r: Vec<CheckItem> = Vec::new();
    let mut k: usize = 0;
    while k < rs.len()
        invariant
            k <= rs.len(),
            crate::text::ranges_in(cs@, rs@),
            ranges_view(cs@, rs@) == ls,
            r@.map_values(|c: CheckItem| check_view(c)) == check_items_of(ls.take(k as int)),
        decreases rs.len() - k,
    {
        let (a, b) = rs[k];
        assert(rs@[k as int].0 <= rs@[k as int].1 <= cs.len());
        proof {
            assert(ls.take(k + 1).drop_last() =~= ls.take(k as int));
            assert(ls.take(k + 1).last() == cs@.subrange(a as int, b as int));
        }
        match check_item_of(&cs, a, b) {
            Some(c) => {
                let ghost before = r@;
                r.push(c);
                assert(r@.map_values(|c: CheckItem| check_view(c)) =~= before.map_values(
                    |c: CheckItem| check_view(c),
                ).push(check_view(c)));
            },
            None => {},
        }
        k += 1;
    }
    assert(ls.take(rs.len() as int) =~= ls);
    r
}

/// A Todo detail by its texts.
pub struct TodoDetailView {
    pub id: Seq<char>,
    pub blueprint_id: Seq<char>,
    pub title: Seq<char>,
    pub created_by: Seq<char>,
    pub owner: Seq<char>,
    pub completed_by: Option<Seq<char>>,
    pub block_reason: Option<Seq<char>>,
    pub cancel_reason: Option<Seq<char>>,
    pub plan: Seq<char>,
    pub completion_criteria: Seq<(Seq<char>, bool)>,
    pub handoff: Seq<char>,
    pub result: Seq<char>,
    pub evidence: Seq<(Seq<char>, Seq<char>)>,
    pub revisions: Seq<(Seq<char>, Seq<char>)>,
    pub notes: Seq<char>,
}

pub open spec fn opt_view(o: Option<String>) -> Option<Seq<char>> {
    match o {
        Some(s) => Some(s@),
        None => None,
    }
}

pub open spec fn detail_view(t: TodoDetail) -> TodoDetailView {
    TodoDetailView {
        id: t.id@,
        blueprint_id: t.blueprint_id@,
        title: t.title@,
        created_by: t.created_by@,
        owner: t.owner@,
        completed_by: opt_view(t.completed_by),
        block_reason: opt_view(t.block_reason),
        cancel_reason: opt_view(t.cancel_reason),
        plan: t.plan@,
        completion_criteria: t.completion_criteria@.map_values(|c: CheckItem| check_view(c)),
        handoff: t.handoff@,
        result: t.result@,
        evidence: t.evidence@.map_values(|e: EvidenceItem| (e.id@, e.markdown@)),
        revisions: t.revisions@.map_values(|e: RevisionEntry| (e.id@, e.markdown@)),
        notes: t.notes@,
    }
}

/// A frontmatter field's value, when present and not empty.
pub open spec fn optional_field(d: DocumentView, field: Seq<char>) -> Option<Seq<char>> {
    match lookup(d.frontmatter, field) {
        Some(v) => if v.len() > 0 {
            Some(v)
        } else {
            None
        },
        None => None,
    }
}

/// A frontmatter field's value, which must be present and not empty.
pub open spec fn required_field(d: DocumentView, field: Seq<char>) -> Result<Seq<char>, Seq<char>> {
    match optional_field(d, field) {
        Some(v) => Ok(v),
        None => Err("frontmatter "@ + field + " is missing"@),
    }
}

/// The body text of the first section with the title.
pub open spec fn section_body(source: Seq<char>, d: DocumentView, title: Seq<char>) -> Result<
    Seq<char>,
    Seq<char>,
> {
    match find_section(d.sections, title) {
        Some(i) => Ok(slice_spec(source, d.sections[i].body_start, d.sections[i].body_end)),
        None => Err("missing required section: "@ + title),
    }
}

/// The text of a section's external body.
pub open spec fn external_text(source: Seq<char>, d: DocumentView, title: Seq<char>, required: bool) -> Result<
    Seq<char>,
    Seq<char>,
> {
    match section_body(source, d, title) {
        Err(m) => Err(m),
        Ok(b) => match parse_spec(trim(b), required) {
            Ok(lines) => Ok(join_with(lines, seq!['\n'])),
            Err(e) => Err(failure_message(title, e)),
        },
    }
}

/// The text of the external body that opens a section (text after it is allowed).
pub open spec fn external_prefix_text(source: Seq<char>, d: DocumentView, title: Seq<char>, required: bool) -> Result<
    Seq<char>,
    Seq<char>,
> {
    match section_body(source, d, title) {
        Err(m) => Err(m),
        Ok(b) => match parse_leading_spec(trim(b), required) {
            Ok((lines, _)) => Ok(join_with(lines, seq!['\n'])),
            Err(e) => Err(failure_message(title, e)),
        },
    }
}

/// The Todo detail a parsed `blueprint/todo/v3` document makes, given the entries of its
/// Evidence and Revision History bodies; or the first field it lacks, in document order.
pub open spec fn detail_spec(
    source: Seq<char>,
    d: DocumentView,
    evidence: Seq<(Seq<char>, Seq<char>)>,
    revisions: Seq<(Seq<char>, Seq<char>)>,
) -> Result<TodoDetailView, Seq<char>> {
    let id = required_field(d, "id"@);
    let bp = required_field(d, "blueprint"@);
    let created = required_field(d, "created_by"@);
    let owner = required_field(d, "owner"@);
    let plan = external_text(source, d, "Plan"@, true);
    let criteria = section_body(source, d, "Completion Criteria"@);
    let handoff = external_text(source, d, "Handoff"@, false);
    let result = external_prefix_text(source, d, "Result"@, false);
    let ev = section_body(source, d, "Evidence"@);
    let rv = section_body(source, d, "Revision History"@);
    let notes = external_text(source, d, "Notes"@, false);
    if id is Err {
        Err(id->Err_0)
    } else if bp is Err {
        Err(bp->Err_0)
    } else if created is Err {
        Err(created->Err_0)
    } else if owner is Err {
        Err(owner->Err_0)
    } else if plan is Err {
        Err(plan->Err_0)
    } else if criteria is Err {
        Err(criteria->Err_0)
    } else if handoff is Err {
        Err(handoff->Err_0)
    } else if result is Err {
        Err(result->Err_0)
    } else if ev is Err {
        Err(ev->Err_0)
    } else if rv is Err {
        Err(rv->Err_0)
    } else if notes is Err {
        Err(notes->Err_0)
    } else {
        Ok(
            TodoDetailView {
                id: id->Ok_0,
                blueprint_id: bp->Ok_0,
                title: d.h1,
                created_by: created->Ok_0,
                owner: owner->Ok_0,
                completed_by: optional_field(d, "completed_by"@),
                block_reason: optional_field(d, "block_reason"@),
                cancel_reason: optional_field(d, "cancel_reason"@),
                plan: plan->Ok_0,
                completion_criteria: check_items_of(lines_spec(criteria->Ok_0)),
                handoff: handoff->Ok_0,
                result: result->Ok_0,
                evidence,
                revisions,
                notes: notes->Ok_0,
            },
        )
    }
}

pub(crate) fn optional_frontmatter(doc: &ParsedDocument, field: &str) -> (r: Option<String>)
    ensures
        opt_view(r) == optional_field(doc@, field@),
{
    match doc.frontmatter_string(field) {
        Some(v) => if v.as_str().is_empty() {
            None
        } else {
            Some(v)
        },
        None => None,
    }
}

pub(crate) fn required_frontmatter(doc: &ParsedDocument, field: &str) -> (r: Result<String, String>)
    ensures
        match required_field(doc@, field@) {
            Ok(v) => r matches Ok(x) && x@ == v,
            Err(m) => r matches Err(e) && e@ == m,
        },
{
    match optional_frontmatter(doc, field) {
        Some(v) => Ok(v),
        None => {
            let mut m = String::new();
            push_str(&mut m, "frontmatter ");
            push_str(&mut m, field);
            push_str(&mut m, " is missing");
            Err(m)
        },
    }
}

pub(crate) fn body_of(doc: &ParsedDocument, source: &str, title: &str) -> (r: Result<String, String>)
    ensures
        match section_body(source@, doc@, title@) {
            Ok(v) => r matches Ok(x) && x@ == v,
            Err(m) => r matches Err(e) && e@ == m,
        },
{
    match doc.section(title) {
        Ok(section) => {
            let b = section.body(source);
            proof {
                crate::blueprint::document::lemma_find_section(doc@.sections, title@);
                let i = find_section(doc@.sections, title@)->0;
                assert(doc@.sections[i] == section@);
            }
            Ok(b)
        },
        Err(e) => Err(e),
    }
}

pub(crate) fn trimmed(s: &String) -> (t: String)
    ensures
        t@ == trim(s@),
{
    let cs = chars_of(s.as_str());
    let (a, b) = trim_bounds(&cs, 0, cs.len());
    assert(cs@.subrange(0, cs.len() as int) =~= cs@);
    string_of(&cs, a, b)
}

pub(crate) fn external_section_text(doc: &ParsedDocument, source: &str, title: &str, required: bool) -> (r: Result<
    String,
    String,
>)
    ensures
        match external_text(source@, doc@, title@, required) {
            Ok(v) => r matches Ok(x) && x@ == v,
            Err(m) => r matches Err(e) && e@ == m,
        },
{
    let body = trimmed(&body_of(doc, source, title)?);
    let parsed = if required {
        ExternalBody::parse(title, body.as_str())?
    } else {
        ExternalBody::parse_optional(title, body.as_str())?
    };
    Ok(parsed.text())
}

pub(crate) fn external_section_prefix_text(doc: &ParsedDocument, source: &str, title: &str, required: bool) -> (r: Result<
    String,
    String,
>)
    ensures
        match external_prefix_text(source@, doc@, title@, required) {
            Ok(v) => r matches Ok(x) && x@ == v,
            Err(m) => r matches Err(e) && e@ == m,
        },
{
    let body = trimmed(&body_of(doc, source, title)?);
    let (parsed, _) = ExternalBody::parse_leading(title, body.as_str(), required)?;
    Ok(parsed.text())
}

pub(crate) fn evidence_items(entries: Vec<(String, String)>) -> (r: Vec<EvidenceItem>)
    ensures
        r@.map_values(|e: EvidenceItem| (e.id@, e.markdown@)) == pairs_view(entries@),
{
    let mut r: Vec<EvidenceItem> = Vec::new();
    let mut k: usize = 0;
    while k < entries.len()
        invariant
            k <= entries.len(),
            r.len() == k,
            r@.map_values(|e: EvidenceItem| (e.id@, e.markdown@)) == pairs_view(entries@).take(k as int),
        decreases entries.len() - k,
    {
        let item = EvidenceItem { id: entries[k].0.clone(), markdown: entries[k].1.clone() };
        let ghost before = r@;
        r.push(item);
        assert(r@.map_values(|e: EvidenceItem| (e.id@, e.markdown@)) =~= pairs_view(entries@).take(k + 1));
        k += 1;
    }
    assert(pairs_view(entries@).take(entries.len() as int) =~= pairs_view(entries@));
    r
}

pub(crate) fn revision_entries(entries: Vec<(String, String)>) -> (r: Vec<RevisionEntry>)
    ensures
        r@.map_values(|e: RevisionEntry| (e.id@, e.markdown@)) == pairs_view(entries@),
{
    let mut r: Vec<RevisionEntry> = Vec::new();
    let mut k: usize = 0;
    while k < entries.len()
        invariant
            k <= entries.len(),
            r.len() == k,
            r@.map_values(|e: RevisionEntry| (e.id@, e.markdown@)) == pairs_view(entries@).take(k as int),
        decreases entries.len() - k,
    {
        let item = RevisionEntry { id: entries[k].0.clone(), markdown: entries[k].1.clone() };
        let ghost before = r@;
        r.push(item);
        assert(r@.map_values(|e: RevisionEntry| (e.id@, e.markdown@)) =~= pairs_view(entries@).take(k + 1));
        k += 1;
    }
    assert(pairs_view(entries@).take(entries.len() as int) =~= pairs_view(entries@));
    r
}

/// The sections of a Todo detail document, in order.
pub open spec fn todo_sections() -> Seq<Seq<char>> {
    seq![
        "Plan"@,
        "Completion Criteria"@,
        "Handoff"@,
        "Result"@,
        "Evidence"@,
        "Notes"@,
        "Revision History"@,
    ]
}

/// The schema of Todo detail documents.
pub fn todo_schema() -> (s: DocumentSchema)
    ensures
        s.name@ == "blueprint/todo/v3"@,
        crate::blueprint::document::views(s.required_sections@) == todo_sections(),
{
    let mut required: Vec<String> = Vec::new();
    required.push(to_string("Plan"));
    required.push(to_string("Completion Criteria"));
    required.push(to_string("Handoff"));
    required.push(to_string("Result"));
    required.push(to_string("Evidence"));
    required.push(to_string("Notes"));
    required.push(to_string("Revision History"));
    assert(crate::blueprint::document::views(required@) =~= todo_sections());
    DocumentSchema { name: to_string("blueprint/todo/v3"), required_sections: required }
}

/// The Todo detail of a parsed document, given the entries of its Evidence and Revision
/// History bodies (see `detail_spec`).
pub fn detail_from_document(
    source: &str,
    doc: &ParsedDocument,
    evidence: Vec<(String, String)>,
    revisions: Vec<(String, String)>,
) -> (r: Result<TodoDetail, String>)
    ensures
        match detail_spec(source@, doc@, pairs_view(evidence@), pairs_view(revisions@)) {
            Ok(v) => r matches Ok(t) && detail_view(t) == v,
            Err(m) => r matches Err(e) && e@ == m,
        },
{
    let id = required_frontmatter(doc, "id")?;
    let blueprint_id = required_frontmatter(doc, "blueprint")?;
    let created_by = required_frontmatter(doc, "created_by")?;
    let owner = required_frontmatter(doc, "owner")?;
    let plan = external_section_text(doc, source, "Plan", true)?;
    let criteria = body_of(doc, source, "Completion Criteria")?;
    let handoff = external_section_text(doc, source, "Handoff", false)?;
    let result = external_section_prefix_text(doc, source, "Result", false)?;
    let _evidence_body = body_of(doc, source, "Evidence")?;
    let _revision_body = body_of(doc, source, "Revision History")?;
    let notes = external_section_text(doc, source, "Notes", false)?;
    Ok(TodoDetail {
        id,
        blueprint_id,
        title: doc.h1(),
        created_by,
        owner,
        completed_by: optional_frontmatter(doc, "completed_by"),
        block_reason: optional_frontmatter(doc, "block_reason"),
        cancel_reason: optional_frontmatter(doc, "cancel_reason"),
        plan,
        completion_criteria: check_items(criteria.as_str()),
        handoff,
        result,
        evidence: evidence_items(evidence),
        revisions: revision_entries(revisions),
        notes,
    })
}

/// `es` are the entries of the section's body, read from the outline of its Markdown: none
/// when the section is missing or its body does not parse.
pub open spec fn entries_read(
    source: Seq<char>,
    d: DocumentView,
    title: Seq<char>,
    prefix: Seq<char>,
    es: Seq<(Seq<char>, Seq<char>)>,
) -> bool {
    match section_body(source, d, title) {
        Err(_) => es.len() == 0,
        Ok(body) => if crate::markdown::markdown_accepts(body, false, usize::MAX) {
            exists|nodes: Seq<MdNode>|
                #![trigger crate::blueprint::source::entries_spec(body, prefix, nodes)]
                crate::markdown::document_nodes(body, nodes) && es == crate::blueprint::source::entries_spec(body, prefix, nodes)
        } else {
            es.len() == 0
        },
    }
}

/// The entries of a section body whose block IDs begin with `prefix` (see `entries_read`).
pub(crate) fn section_entries(doc: &ParsedDocument, source: &str, title: &str, prefix: &str) -> (r: Vec<
    (String, String),
>)
    ensures
        entries_read(source@, doc@, title@, prefix@, pairs_view(r@)),
{
    match body_of(doc, source, title) {
        Ok(body) => markdown_entries(body.as_str(), prefix),
        Err(_) => {
            let r: Vec<(String, String)> = Vec::new();
            assert(pairs_view(r@) =~= Seq::<(Seq<char>, Seq<char>)>::empty());
            r
        },
    }
}

/// The outcome of parsing a Todo detail, by its views.
pub open spec fn detail_outcome(r: Result<TodoDetail, String>) -> Result<TodoDetailView, Seq<char>> {
    match r {
        Ok(t) => Ok(detail_view(t)),
        Err(e) => Err(e@),
    }
}

/// The outline and frontmatter of the source's parse make `outcome`: the document's refusal under the Todo schema,
/// or what `detail_spec` makes of the document and its entries (see `entries_read`).
pub open spec fn detail_parsed(path: Seq<char>, source: Seq<char>, outcome: Result<TodoDetailView, Seq<char>>) -> bool {
    exists|nodes: Seq<MdNode>, fm: Option<Seq<(Seq<char>, Seq<char>)>>|
        #![trigger crate::blueprint::document::document_spec(path, source, "blueprint/todo/v3"@, todo_sections(), nodes, fm)]
        crate::markdown::document_read(source, nodes, fm) && match crate::blueprint::document::document_spec(
            path,
            source,
            "blueprint/todo/v3"@,
            todo_sections(),
            nodes,
            fm,
        ) {
            Err(m) => outcome == Err::<TodoDetailView, Seq<char>>(m),
            Ok(d) => exists|ev: Seq<(Seq<char>, Seq<char>)>, rv: Seq<(Seq<char>, Seq<char>)>|
                #![trigger detail_spec(source, d, ev, rv)]
                entries_read(source, d, "Evidence"@, "evidence-"@, ev) && entries_read(
                    source,
                    d,
                    "Revision History"@,
                    "revision-"@,
                    rv,
                ) && detail_spec(source, d, ev, rv) == outcome,
        }
}

/// Parses one standalone `blueprint/todo/v3` detail document: the document must follow the
/// Todo schema, and the detail is what `detail_spec` makes of it.
#[verifier::rlimit(30)]
pub fn parse_todo_source(path: &str, source: &str) -> (r: Result<TodoDetail, String>)
    ensures
        r matches Ok(t) ==> exists|d: DocumentView, ev: Seq<(Seq<char>, Seq<char>)>, rv: Seq<(Seq<char>, Seq<char>)>|
            detail_spec(source@, d, ev, rv) == Ok::<TodoDetailView, Seq<char>>(detail_view(t))
                && crate::blueprint::document::required_order(d.sections, todo_sections()) == todo_sections(),
        !crate::blueprint::document::ends_with(path@, ".md"@) ==> (r matches Err(e) && e@
            == "document path must end with .md: "@ + path@),
        crate::blueprint::document::ends_with(path@, ".md"@) && !crate::markdown::markdown_accepts(
            source@,
            false,
            usize::MAX,
        ) ==> r is Err,
        crate::blueprint::document::ends_with(path@, ".md"@) && crate::markdown::markdown_accepts(
            source@,
            false,
            usize::MAX,
        ) ==> detail_parsed(path@, source@, detail_outcome(r)),
{
    let schema = todo_schema();
    let doc = match ParsedDocument::parse(path, source, &schema) {
        Ok(d) => d,
        Err(e) => {
            proof {
                if crate::blueprint::document::ends_with(path@, ".md"@) && crate::markdown::markdown_accepts(
                    source@,
                    false,
                    usize::MAX,
                ) {
                    let (nodes, fm) = choose|nodes: Seq<MdNode>, fm: Option<Seq<(Seq<char>, Seq<char>)>>|
                        crate::markdown::document_read(source@, nodes, fm) && crate::blueprint::document::document_spec(
                            path@,
                            source@,
                            schema.name@,
                            crate::blueprint::document::views(schema.required_sections@),
                            nodes,
                            fm,
                        ) == Err::<DocumentView, Seq<char>>(e@);
                    assert(crate::blueprint::document::document_spec(path@, source@, "blueprint/todo/v3"@, todo_sections(), nodes, fm)
                        == Err::<DocumentView, Seq<char>>(e@));
                    assert(detail_parsed(path@, source@, Err::<TodoDetailView, Seq<char>>(e@)));
                }
            }
            return Err(e);
        },
    };
    proof {
        let (nodes, fm) = choose|nodes: Seq<MdNode>, fm: Option<Seq<(Seq<char>, Seq<char>)>>|
            crate::markdown::document_read(source@, nodes, fm) && crate::blueprint::document::document_spec(
                path@,
                source@,
                schema.name@,
                crate::blueprint::document::views(schema.required_sections@),
                nodes,
                fm,
            ) == Ok::<DocumentView, Seq<char>>(doc@);
        crate::blueprint::document::lemma_accepted_titles(
            path@,
            source@,
            schema.name@,
            crate::blueprint::document::views(schema.required_sections@),
            nodes,
            fm,
        );
    }
    let evidence = section_entries(&doc, source, "Evidence", "evidence-");
    let revisions = section_entries(&doc, source, "Revision History", "revision-");
    let r = detail_from_document(source, &doc, evidence, revisions);
    proof {
        if crate::blueprint::document::ends_with(path@, ".md"@) && crate::markdown::markdown_accepts(
            source@,
            false,
            usize::MAX,
        ) {
            let (nodes, fm) = choose|nodes: Seq<MdNode>, fm: Option<Seq<(Seq<char>, Seq<char>)>>|
                crate::markdown::document_read(source@, nodes, fm) && crate::blueprint::document::document_spec(
                    path@,
                    source@,
                    schema.name@,
                    crate::blueprint::document::views(schema.required_sections@),
                    nodes,
                    fm,
                ) == Ok::<DocumentView, Seq<char>>(doc@);
            assert(crate::blueprint::document::document_spec(path@, source@, "blueprint/todo/v3"@, todo_sections(), nodes, fm)
                == Ok::<DocumentView, Seq<char>>(doc@));
            assert(detail_spec(source@, doc@, pairs_view(evidence@), pairs_view(revisions@)) == detail_outcome(r));
            assert(detail_parsed(path@, source@, detail_outcome(r)));
        }
    }
    r
}

impl TodoDetail {
    /// Parses one standalone `blueprint/todo/v3` detail document.
    pub fn parse(path: &str, source: &str) -> (r: Result<Self, String>)
        ensures
            r matches Ok(t) ==> exists|d: DocumentView, ev: Seq<(Seq<char>, Seq<char>)>, rv: Seq<(Seq<char>, Seq<char>)>|
                detail_spec(source@, d, ev, rv) == Ok::<TodoDetailView, Seq<char>>(detail_view(t))
                    && crate::blueprint::document::required_order(d.sections, todo_sections()) == todo_sections(),
            !crate::blueprint::document::ends_with(path@, ".md"@) ==> (r matches Err(e) && e@
                == "document path must end with .md: "@ + path@),
            crate::blueprint::document::ends_with(path@, ".md"@) && !crate::markdown::markdown_accepts(
                source@,
                false,
                usize::MAX,
            ) ==> r is Err,
            crate::blueprint::document::ends_with(path@, ".md"@) && crate::markdown::markdown_accepts(
                source@,
                false,
                usize::MAX,
            ) ==> detail_parsed(path@, source@, detail_outcome(r)),
    {
        parse_todo_source(path, source)
    }
}

} // verus!
