//! Evidence across one Blueprint aggregate: Evidence IDs are unique among the Blueprint and
//! its Todo details, and every standard Markdown link to an Evidence block names a document
//! of the aggregate that defines it.
use vstd::prelude::*;

use crate::blueprint::document::{
    DocumentSchema, DocumentView, ParsedDocument, SectionView, document_spec, find_section, views,
};
use crate::blueprint::graph::GraphNodeView;
use crate::blueprint::model::TodoDetail;
use crate::blueprint::todo::{
    detail_parsed, detail_outcome, detail_spec, detail_view, entries_read, section_body, todo_sections,
    TodoDetailView,
};
use crate::blueprint::source::{
    blueprint_spec, blueprint_view, entries_spec, markdown_entries, pairs_view, BlueprintSource,
    BlueprintView,
};
use crate::markdown::{MdKind, MdNode, well_formed};
use crate::parser::{slice_spec, starts_with};
use crate::text::{
    chars_of, is_whitespace, is_ws, occurs_at, push_range, push_str,
    str_eq, string_of, to_string,
};

verus! {

/// `s` with every occurrence of `pat`, scanned left to right without overlaps, replaced by
/// `rep`.
pub open spec fn replace_all(s: Seq<char>, pat: Seq<char>, rep: Seq<char>) -> Seq<char>
    decreases s.len(),
{
    if s.len() == 0 || pat.len() == 0 {
        s
    } else if occurs_at(s, pat, 0) {
        rep + replace_all(s.skip(pat.len() as int), pat, rep)
    } else {
        seq![s[0]] + replace_all(s.skip(1), pat, rep)
    }
}

/// The position of the last occurrence of `pat` in `s`.
pub open spec fn last_occurrence(s: Seq<char>, pat: Seq<char>, k: int) -> Option<int>
    decreases k + 1,
{
    if k < 0 {
        None
    } else if occurs_at(s, pat, k) {
        Some(k)
    } else {
        last_occurrence(s, pat, k - 1)
    }
}

/// The link destination with the `%5E`/`%5e` escapes of `^` undone.
pub open spec fn unescaped(url: Seq<char>) -> Seq<char> {
    replace_all(replace_all(url, "%5E"@, "^"@), "%5e"@, "^"@)
}

/// The Evidence reference a link destination holds: the target before its last `#^` and the
/// ID after it; `None` without a `#^`.
pub open spec fn evidence_reference(url: Seq<char>) -> Option<(Seq<char>, Seq<char>)> {
    let d = unescaped(url);
    match last_occurrence(d, "#^"@, d.len() - "#^"@.len()) {
        Some(p) => Some((d.take(p), d.skip(p + "#^"@.len()))),
        None => None,
    }
}

/// An Evidence ID starts with `evidence-` and holds no whitespace.
pub open spec fn well_formed_id(id: Seq<char>) -> bool {
    starts_with(id, "evidence-"@) && forall|i: int| 0 <= i < id.len() ==> !is_ws(#[trigger] id[i])
}

/// The Evidence references of the Markdown links among the first `k` nodes, in order; or the
/// error for the first malformed one.
pub open spec fn links_spec(nodes: Seq<MdNode>, k: int) -> Result<Seq<(Seq<char>, Seq<char>)>, Seq<char>>
    decreases k,
{
    if k <= 0 {
        Ok(seq![])
    } else {
        match links_spec(nodes, k - 1) {
            Err(m) => Err(m),
            Ok(prev) => if nodes[k - 1].kind == MdKind::MarkdownLink {
                match evidence_reference(nodes[k - 1].text@) {
                    Some((target, id)) => if well_formed_id(id) {
                        Ok(prev.push((target, id)))
                    } else {
                        Err("malformed Evidence reference"@)
                    },
                    None => Ok(prev),
                }
            } else {
                Ok(prev)
            },
        }
    }
}

/// Replaces every occurrence of `pat`, left to right, by `rep`.
pub(crate) fn replace(s: &Vec<char>, pat: &Vec<char>, rep: &Vec<char>) -> (r: Vec<char>)
    requires
        pat.len() > 0,
    ensures
        r@ == replace_all(s@, pat@, rep@),
{
    let mut r: Vec<char> = Vec::new();
    let mut i: usize = 0;
    assert(s@.skip(0) =~= s@);
    assert(r@ + replace_all(s@, pat@, rep@) =~= replace_all(s@, pat@, rep@));
    while i < s.len()
        invariant
            i <= s.len(),
            pat.len() > 0,
            replace_all(s@, pat@, rep@) == r@ + replace_all(s@.skip(i as int), pat@, rep@),
        decreases s.len() - i,
    {
        let ghost rest = s@.skip(i as int);
        if crate::text::matches_at(s, pat, i) {
            proof {
                assert(occurs_at(rest, pat@, 0)) by {
                    assert(rest.subrange(0, pat@.len() as int) =~= s@.subrange(i as int, i + pat@.len()));
                }
                assert(rest.skip(pat@.len() as int) =~= s@.skip(i + pat@.len()));
            }
            let mut k: usize = 0;
            let ghost before = r@;
            while k < rep.len()
                invariant
                    k <= rep.len(),
                    r@ == before + rep@.take(k as int),
                decreases rep.len() - k,
            {
                r.push(rep[k]);
                assert(rep@.take(k + 1) =~= rep@.take(k as int).push(rep@[k as int]));
                k += 1;
            }
            assert(rep@.take(rep.len() as int) =~= rep@);
            assert(r@ + replace_all(s@.skip(i + pat.len()), pat@, rep@) =~= before + (rep@
                + replace_all(rest.skip(pat@.len() as int), pat@, rep@)));
            i = i + pat.len();
        } else {
            proof {
                if occurs_at(rest, pat@, 0) {
                    assert(rest.subrange(0, pat@.len() as int) =~= s@.subrange(i as int, i + pat@.len()));
                }
                assert(rest.skip(1) =~= s@.skip(i + 1));
                assert(rest[0] == s@[i as int]);
            }
            let ghost before = r@;
            r.push(s[i]);
            assert(r@ + replace_all(s@.skip(i + 1), pat@, rep@) =~= before + (seq![s@[i as int]]
                + replace_all(rest.skip(1), pat@, rep@)));
            i += 1;
        }
    }
    assert(s@.skip(s.len() as int) =~= Seq::<char>::empty());
    assert(r@ + Seq::<char>::empty() =~= r@);
    r
}

/// Once the scan of the links has failed, it fails the same way however far it goes on.
proof fn lemma_links_error_stays(nodes: Seq<MdNode>, k: int, n: int)
    requires
        0 <= k <= n,
        links_spec(nodes, k) is Err,
    ensures
        links_spec(nodes, n) == links_spec(nodes, k),
    decreases n - k,
{
    if k < n {
        lemma_links_error_stays(nodes, k, n - 1);
    }
}

/// The last position at or before `d.len() - pat.len()` where `pat` occurs.
pub(crate) fn last_match(d: &Vec<char>, pat: &Vec<char>) -> (r: Option<usize>)
    ensures
        match last_occurrence(d@, pat@, d@.len() - pat@.len()) {
            Some(p) => r == Some(p as usize) && 0 <= p <= d@.len() - pat@.len(),
            None => r is None,
        },
        r matches Some(p) ==> p + pat@.len() <= d@.len(),
{
    if d.len() < pat.len() {
        return None;
    }
    let mut k: usize = d.len() - pat.len();
    loop
        invariant
            k + pat.len() <= d.len(),
            last_occurrence(d@, pat@, d@.len() - pat@.len()) == last_occurrence(d@, pat@, k as int),
        decreases k,
    {
        if crate::text::matches_at(d, pat, k) {
            return Some(k);
        }
        if k == 0 {
            assert(last_occurrence(d@, pat@, -1) is None);
            return None;
        }
        k = k - 1;
    }
}

/// The Evidence reference that a Markdown link destination holds (see `evidence_reference`).
fn reference_of(url: &str) -> (r: Option<(String, String)>)
    ensures
        match evidence_reference(url@) {
            Some((t, i)) => r matches Some(p) && p.0@ == t && p.1@ == i,
            None => r is None,
        },
{
    proof {
        reveal_strlit("%5E");
        reveal_strlit("%5e");
        reveal_strlit("^");
        reveal_strlit("#^");
    }
    let cs = chars_of(url);
    let upper = crate::text::pattern("%5E");
    let lower = crate::text::pattern("%5e");
    let caret = crate::text::pattern("^");
    let once = replace(&cs, &upper, &caret);
    let d = replace(&once, &lower, &caret);
    let marker = crate::text::pattern("#^");
    assert(marker@.len() == 2);
    let found = last_match(&d, &marker);
    match found {
        Some(p) => {
            assert(p + marker@.len() <= d@.len());
            assert(marker@.len() == 2);
            assert(p + 2 <= d.len());
            let target = string_of(&d, 0, p);
            let id = string_of(&d, p + 2, d.len());
            assert(d@.subrange(0, p as int) =~= d@.take(p as int));
            assert(d@.subrange(p + 2, d@.len() as int) =~= d@.skip(p + 2));
            Some((target, id))
        },
        None => None,
    }
}

/// Whether the text is a well-formed Evidence ID (see `well_formed_id`).
pub(crate) fn is_evidence_id(id: &String) -> (b: bool)
    ensures
        b == well_formed_id(id@),
{
    proof {
        reveal_strlit("evidence-");
    }
    let cs = chars_of(id.as_str());
    let prefix = crate::text::pattern("evidence-");
    if !crate::text::matches_at(&cs, &prefix, 0) {
        proof {
            if starts_with(id@, "evidence-"@) {
                assert(cs@.subrange(0, prefix@.len() as int) =~= cs@.take(prefix@.len() as int));
            }
        }
        return false;
    }
    assert(cs@.subrange(0, prefix@.len() as int) =~= cs@.take(prefix@.len() as int));
    let mut i: usize = 0;
    while i < cs.len()
        invariant
            i <= cs.len(),
            cs@ == id@,
            forall|j: int| 0 <= j < i ==> !is_ws(#[trigger] cs@[j]),
        decreases cs.len() - i,
    {
        if is_whitespace(cs[i]) {
            return false;
        }
        i += 1;
    }
    true
}

/// The Evidence references of the Markdown links of an outline, in document order (see
/// `links_spec`): a link whose destination holds `#^` must name a well-formed Evidence ID.
pub fn evidence_links_from_outline(nodes: &Vec<MdNode>) -> (r: Result<Vec<(String, String)>, String>)
    ensures
        match links_spec(nodes@, nodes@.len() as int) {
            Ok(v) => r matches Ok(l) && pairs_view(l@) == v,
            Err(m) => r matches Err(e) && e@ == m,
        },
{
    let mut links: Vec<(String, String)> = Vec::new();
    let mut k: usize = 0;
    assert(pairs_view(links@) =~= Seq::<(Seq<char>, Seq<char>)>::empty());
    while k < nodes.len()
        invariant
            k <= nodes.len(),
            links_spec(nodes@, k as int) == Ok::<Seq<(Seq<char>, Seq<char>)>, Seq<char>>(pairs_view(links@)),
        decreases nodes.len() - k,
    {
        if nodes[k].kind == MdKind::MarkdownLink {
            match reference_of(nodes[k].text.as_str()) {
                Some((target, id)) => {
                    if !is_evidence_id(&id) {
                        proof {
                            lemma_links_error_stays(nodes@, k + 1, nodes@.len() as int);
                        }
                        return Err(to_string("malformed Evidence reference"));
                    }
                    let ghost before = links@;
                    links.push((target, id));
                    assert(pairs_view(links@) =~= pairs_view(before).push((target@, id@)));
                },
                None => {},
            }
        }
        k += 1;
    }
    Ok(links)
}

/// The Evidence references of a Markdown document's standard links (see
/// [`evidence_links_from_outline`]); a document that does not parse is refused as a malformed
/// Evidence reference.
pub fn standard_evidence_links(source: &str) -> (r: Result<Vec<(String, String)>, String>)
    ensures
        r matches Ok(l) ==> exists|nodes: Seq<MdNode>|
            crate::markdown::document_nodes(source@, nodes) && links_spec(nodes, nodes.len() as int) == Ok::<Seq<(Seq<char>, Seq<char>)>, Seq<char>>(pairs_view(l@)),
        !crate::markdown::markdown_accepts(source@, false, usize::MAX) ==> r is Err,
        crate::markdown::markdown_accepts(source@, false, usize::MAX) ==> exists|nodes: Seq<MdNode>|
            crate::markdown::document_nodes(source@, nodes) && links_spec(nodes, nodes.len() as int) == match r {
                Ok(l) => Ok::<Seq<(Seq<char>, Seq<char>)>, Seq<char>>(pairs_view(l@)),
                Err(e) => Err(e@),
            },
{
    match crate::markdown::document_outline(source) {
        Ok((nodes, _)) => evidence_links_from_outline(&nodes),
        Err(e) => {
            let mut m = String::new();
            push_str(&mut m, "malformed Evidence reference: ");
            push_str(&mut m, e.as_str());
            Err(m)
        },
    }
}

/// Where an Evidence link target written in the document at `from` points inside the
/// aggregate. The empty target is the document itself; the Blueprint reaches the details under
/// `todos/` and itself; a detail reaches sibling details (`todo-…`, `./todo-…`), the
/// Blueprint (`../blueprint.md`) and itself. Any other target, and any result that is neither
/// a detail (`todos/todo-…`) nor `blueprint.md`, is invalid.
pub open spec fn resolve_spec(from: Seq<char>, target: Seq<char>) -> Result<Seq<char>, Seq<char>> {
    let bp = "blueprint.md"@;
    let in_todos = starts_with(from, "todos/"@);
    let invalid = "invalid Evidence target: "@ + target;
    if target.len() == 0 {
        Ok(from)
    } else {
        let resolved: Option<Seq<char>> = if from == bp && starts_with(target, "todos/"@) {
            Some(target)
        } else if from == bp && target == bp {
            Some(bp)
        } else if in_todos && starts_with(target, "todo-"@) {
            Some("todos/"@ + target)
        } else if in_todos && starts_with(target, "./todo-"@) {
            Some("todos/"@ + target.skip(2))
        } else if in_todos && target == "../blueprint.md"@ {
            Some(bp)
        } else if in_todos && target == from {
            Some(target)
        } else {
            None
        };
        match resolved {
            Some(r) => if starts_with(r, "todos/todo-"@) || r == bp {
                Ok(r)
            } else {
                Err(invalid)
            },
            None => Err(invalid),
        }
    }
}

/// Whether `s` starts with `p`.
fn begins_with(s: &str, p: &str) -> (b: bool)
    ensures
        b == starts_with(s@, p@),
{
    let cs = chars_of(s);
    let ps = chars_of(p);
    let b = crate::text::matches_at(&cs, &ps, 0);
    proof {
        if ps@.len() <= cs@.len() {
            assert(cs@.subrange(0, ps@.len() as int) =~= cs@.take(ps@.len() as int));
        }
    }
    b
}

fn invalid_target(target: &str) -> (e: String)
    ensures
        e@ == "invalid Evidence target: "@ + target@,
{
    let mut m = String::new();
    push_str(&mut m, "invalid Evidence target: ");
    push_str(&mut m, target);
    m
}

/// Resolves an Evidence link target written in the document at `from` to the path of a
/// document of the aggregate (see `resolve_spec`).
pub fn resolve_evidence_target(from: &str, target: &str) -> (r: Result<String, String>)
    ensures
        match resolve_spec(from@, target@) {
            Ok(v) => r matches Ok(s) && s@ == v,
            Err(m) => r matches Err(e) && e@ == m,
        },
{
    proof {
        reveal_strlit("./todo-");
        reveal_strlit("todos/");
    }
    let tc = chars_of(target);
    if tc.len() == 0 {
        return Ok(to_string(from));
    }
    let from_bp = str_eq(from, "blueprint.md");
    let in_todos = begins_with(from, "todos/");
    let resolved: Option<String> = if from_bp && begins_with(target, "todos/") {
        Some(to_string(target))
    } else if from_bp && str_eq(target, "blueprint.md") {
        Some(to_string("blueprint.md"))
    } else if in_todos && begins_with(target, "todo-") {
        let mut r = to_string("todos/");
        push_str(&mut r, target);
        Some(r)
    } else if in_todos && begins_with(target, "./todo-") {
        let mut r = to_string("todos/");
        push_range(&mut r, &tc, 2, tc.len());
        assert(tc@.subrange(2, tc@.len() as int) =~= target@.skip(2));
        Some(r)
    } else if in_todos && str_eq(target, "../blueprint.md") {
        Some(to_string("blueprint.md"))
    } else if in_todos && str_eq(target, from) {
        Some(to_string(target))
    } else {
        None
    };
    match resolved {
        Some(r) => {
            if begins_with(r.as_str(), "todos/todo-") || str_eq(r.as_str(), "blueprint.md") {
                Ok(r)
            } else {
                Err(invalid_target(target))
            }
        },
        None => Err(invalid_target(target)),
    }
}

/// The Evidence section of a document (parsed without a schema) exists and `ids` are the IDs
/// of its entries, in order.
pub open spec fn section_ids(source: Seq<char>, ids: Seq<Seq<char>>) -> bool {
    exists|nodes: Seq<MdNode>, fm: Option<Seq<(Seq<char>, Seq<char>)>>, d: DocumentView|
        #![trigger document_spec("document.md"@, source, ""@, Seq::<Seq<char>>::empty(), nodes, fm), d.sections]
        crate::markdown::document_read(source, nodes, fm) && document_spec("document.md"@, source, ""@, Seq::<Seq<char>>::empty(), nodes, fm)
            == Ok::<DocumentView, Seq<char>>(d) && find_section(d.sections, "Evidence"@) is Some
            && (ids.len() > 0 ==> exists|body: Seq<MdNode>|
                crate::markdown::document_nodes(
                    slice_spec(
                        source,
                        d.sections[find_section(d.sections, "Evidence"@)->Some_0].body_start,
                        d.sections[find_section(d.sections, "Evidence"@)->Some_0].body_end,
                    ),
                    body,
                ) && ids == entries_spec(
                    slice_spec(
                        source,
                        d.sections[find_section(d.sections, "Evidence"@)->Some_0].body_start,
                        d.sections[find_section(d.sections, "Evidence"@)->Some_0].body_end,
                    ),
                    "evidence-"@,
                    body,
                ).map_values(|e: (Seq<char>, Seq<char>)| e.0))
}

/// The outcome of reading Evidence IDs, by their views.
pub open spec fn ids_outcome(r: Result<Vec<String>, String>) -> Result<Seq<Seq<char>>, Seq<char>> {
    match r {
        Ok(v) => Ok(views(v@)),
        Err(e) => Err(e@),
    }
}

/// The outline and frontmatter of the source's parse make `outcome`: the refusal of the document (parsed without a
/// schema) or of its missing Evidence section, or the IDs of the section's entries (see
/// `entries_read`).
pub open spec fn evidence_ids_read(source: Seq<char>, outcome: Result<Seq<Seq<char>>, Seq<char>>) -> bool {
    exists|nodes: Seq<MdNode>, fm: Option<Seq<(Seq<char>, Seq<char>)>>|
        #![trigger document_spec("document.md"@, source, ""@, Seq::<Seq<char>>::empty(), nodes, fm)]
        crate::markdown::document_read(source, nodes, fm) && match document_spec("document.md"@, source, ""@, Seq::<Seq<char>>::empty(), nodes, fm) {
            Err(m) => outcome == Err::<Seq<Seq<char>>, Seq<char>>(m),
            Ok(d) => match section_body(source, d, "Evidence"@) {
                Err(m) => outcome == Err::<Seq<Seq<char>>, Seq<char>>(m),
                Ok(_) => exists|es: Seq<(Seq<char>, Seq<char>)>|
                    #![trigger entries_read(source, d, "Evidence"@, "evidence-"@, es)]
                    entries_read(source, d, "Evidence"@, "evidence-"@, es) && outcome == Ok::<Seq<Seq<char>>, Seq<char>>(
                        es.map_values(|e: (Seq<char>, Seq<char>)| e.0),
                    ),
            },
        }
}

/// The IDs of the entries of a document's Evidence section (see `evidence_ids_read`).
#[verifier::rlimit(30)]
pub fn evidence_ids_in_section(source: &str) -> (r: Result<Vec<String>, String>)
    ensures
        r matches Ok(ids) ==> section_ids(source@, views(ids@)),
        !crate::markdown::markdown_accepts(source@, false, usize::MAX) ==> r is Err,
        crate::markdown::markdown_accepts(source@, false, usize::MAX) ==> evidence_ids_read(source@, ids_outcome(r)),
{
    let schema = DocumentSchema { name: String::new(), required_sections: Vec::new() };
    assert(views(schema.required_sections@) =~= Seq::<Seq<char>>::empty());
    proof {
        reveal_strlit("document.md");
        reveal_strlit(".md");
        reveal_strlit("");
        assert("document.md"@.skip(8) =~= ".md"@);
        assert(crate::blueprint::document::ends_with("document.md"@, ".md"@));
        assert(schema.name@ =~= ""@);
    }
    let doc = match ParsedDocument::parse("document.md", source, &schema) {
        Ok(d) => d,
        Err(e) => {
            proof {
                if crate::markdown::markdown_accepts(source@, false, usize::MAX) {
                    let (nodes, fm) = choose|nodes: Seq<MdNode>, fm: Option<Seq<(Seq<char>, Seq<char>)>>|
                        crate::markdown::document_read(source@, nodes, fm) && document_spec("document.md"@, source@, schema.name@, views(schema.required_sections@), nodes, fm)
                            == Err::<DocumentView, Seq<char>>(e@);
                    assert(document_spec("document.md"@, source@, ""@, Seq::<Seq<char>>::empty(), nodes, fm)
                        == Err::<DocumentView, Seq<char>>(e@));
                }
            }
            return Err(e);
        },
    };
    let section = match doc.section("Evidence") {
        Ok(x) => x,
        Err(e) => {
            proof {
                if crate::markdown::markdown_accepts(source@, false, usize::MAX) {
                    let (nodes, fm) = choose|nodes: Seq<MdNode>, fm: Option<Seq<(Seq<char>, Seq<char>)>>|
                        crate::markdown::document_read(source@, nodes, fm) && document_spec("document.md"@, source@, schema.name@, views(schema.required_sections@), nodes, fm)
                            == Ok::<DocumentView, Seq<char>>(doc@);
                    assert(document_spec("document.md"@, source@, ""@, Seq::<Seq<char>>::empty(), nodes, fm)
                        == Ok::<DocumentView, Seq<char>>(doc@));
                    assert(section_body(source@, doc@, "Evidence"@) == Err::<Seq<char>, Seq<char>>(e@));
                }
            }
            return Err(e);
        },
    };
    let body = section.body(source);
    let entries = markdown_entries(body.as_str(), "evidence-");
    let mut ids: Vec<String> = Vec::new();
    let mut i: usize = 0;
    while i < entries.len()
        invariant
            i <= entries.len(),
            views(ids@) == pairs_view(entries@).take(i as int).map_values(|e: (Seq<char>, Seq<char>)| e.0),
        decreases entries.len() - i,
    {
        let ghost before = ids@;
        ids.push(entries[i].0.clone());
        assert(views(ids@) =~= views(before).push(entries@[i as int].0@));
        assert(pairs_view(entries@).take(i + 1).map_values(|e: (Seq<char>, Seq<char>)| e.0) =~= pairs_view(
            entries@,
        ).take(i as int).map_values(|e: (Seq<char>, Seq<char>)| e.0).push(entries@[i as int].0@));
        i += 1;
    }
    proof {
        assert(pairs_view(entries@).take(entries.len() as int) =~= pairs_view(entries@));
        let (nodes, fm) = choose|nodes: Seq<MdNode>, fm: Option<Seq<(Seq<char>, Seq<char>)>>|
            crate::markdown::document_read(source@, nodes, fm) && document_spec(
                "document.md"@,
                source@,
                schema.name@,
                views(schema.required_sections@),
                nodes,
                fm,
            ) == Ok::<DocumentView, Seq<char>>(doc@);
        reveal_strlit("");
        assert(schema.name@ =~= ""@);
        crate::blueprint::document::lemma_find_section(doc@.sections, "Evidence"@);
        let k = find_section(doc@.sections, "Evidence"@)->Some_0;
        assert(doc@.sections[k] == section@);
        if ids@.len() > 0 {
            let body_nodes = choose|body_nodes: Seq<MdNode>|
                pairs_view(entries@) == entries_spec(body@, "evidence-"@, body_nodes);
            assert(views(ids@) == entries_spec(
                slice_spec(source@, doc@.sections[k].body_start, doc@.sections[k].body_end),
                "evidence-"@,
                body_nodes,
            ).map_values(|e: (Seq<char>, Seq<char>)| e.0));
        }
        assert(crate::markdown::document_read(source@, nodes, fm) && document_spec("document.md"@, source@, ""@, Seq::<Seq<char>>::empty(), nodes, fm)
            == Ok::<DocumentView, Seq<char>>(doc@) && find_section(doc@.sections, "Evidence"@) is Some);
        assert(section_body(source@, doc@, "Evidence"@) == Ok::<Seq<char>, Seq<char>>(body@));
        assert(entries_read(source@, doc@, "Evidence"@, "evidence-"@, pairs_view(entries@)));
        assert(views(ids@) == pairs_view(entries@).map_values(|e: (Seq<char>, Seq<char>)| e.0));
        assert(evidence_ids_read(source@, ids_outcome(Ok::<Vec<String>, String>(ids))));
    }
    Ok(ids)
}

/// Adds the first `j` of `ids` to `seen`, one by one; the first ID already there is a
/// duplicate.
pub open spec fn add_ids(seen: Seq<Seq<char>>, ids: Seq<Seq<char>>, j: int) -> Result<Seq<Seq<char>>, Seq<char>>
    decreases j,
{
    if j <= 0 {
        Ok(seen)
    } else {
        match add_ids(seen, ids, j - 1) {
            Err(m) => Err(m),
            Ok(s) => if s.contains(ids[j - 1]) {
                Err("duplicate Evidence ID: "@ + ids[j - 1])
            } else {
                Ok(s.push(ids[j - 1]))
            },
        }
    }
}

/// The Evidence IDs of the first `k` documents, in order, given each document's own IDs (or
/// the error that reading it gave); the first ID that occurs twice is a duplicate.
pub open spec fn collect_ids(docs: Seq<Result<Seq<Seq<char>>, Seq<char>>>, k: int) -> Result<Seq<Seq<char>>, Seq<char>>
    decreases k,
{
    if k <= 0 {
        Ok(seq![])
    } else {
        match collect_ids(docs, k - 1) {
            Err(m) => Err(m),
            Ok(seen) => match docs[k - 1] {
                Err(m) => Err(m),
                Ok(ids) => add_ids(seen, ids, ids.len() as int),
            },
        }
    }
}

/// The index of the last of the first `k` documents whose path is `path`: a later document
/// at the same path replaces an earlier one.
pub open spec fn last_at(paths: Seq<Seq<char>>, path: Seq<char>, k: int) -> Option<int>
    decreases k,
{
    if k <= 0 {
        None
    } else if paths[k - 1] == path {
        Some(k - 1)
    } else {
        last_at(paths, path, k - 1)
    }
}

/// What is wrong with one Evidence link of the document at `from`: its target resolves to no
/// document of the aggregate, or that document defines no such Evidence ID.
pub open spec fn link_error(
    paths: Seq<Seq<char>>,
    docs: Seq<Result<Seq<Seq<char>>, Seq<char>>>,
    from: Seq<char>,
    link: (Seq<char>, Seq<char>),
) -> Option<Seq<char>> {
    match resolve_spec(from, link.0) {
        Err(m) => Some(m),
        Ok(r) => match last_at(paths, r, paths.len() as int) {
            None => Some("invalid Evidence target: "@ + link.0),
            Some(j) => match docs[j] {
                Ok(ids) => if ids.contains(link.1) {
                    None
                } else {
                    Some("dangling Evidence reference: "@ + link.1)
                },
                Err(_) => None,
            },
        },
    }
}

/// The error of the first faulty one among the first `j` links of the document at `from`.
pub open spec fn first_link_error(
    paths: Seq<Seq<char>>,
    docs: Seq<Result<Seq<Seq<char>>, Seq<char>>>,
    from: Seq<char>,
    links: Seq<(Seq<char>, Seq<char>)>,
    j: int,
) -> Option<Seq<char>>
    decreases j,
{
    if j <= 0 {
        None
    } else {
        match first_link_error(paths, docs, from, links, j - 1) {
            Some(m) => Some(m),
            None => link_error(paths, docs, from, links[j - 1]),
        }
    }
}

/// The first error among the links of the first `k` documents, in order; a document replaced
/// by a later one at the same path is not read.
pub open spec fn first_document_error(
    paths: Seq<Seq<char>>,
    docs: Seq<Result<Seq<Seq<char>>, Seq<char>>>,
    links: Seq<Result<Seq<(Seq<char>, Seq<char>)>, Seq<char>>>,
    k: int,
) -> Option<Seq<char>>
    decreases k,
{
    if k <= 0 {
        None
    } else {
        match first_document_error(paths, docs, links, k - 1) {
            Some(m) => Some(m),
            None => if last_at(paths, paths[k - 1], paths.len() as int) != Some(k - 1) {
                None
            } else {
                match links[k - 1] {
                    Err(m) => Some(m),
                    Ok(ls) => first_link_error(paths, docs, paths[k - 1], ls, ls.len() as int),
                }
            },
        }
    }
}

/// The outcome of checking an aggregate's Evidence, given the documents' paths, their own
/// Evidence IDs and their Evidence links: IDs must be unique across the aggregate, then every
/// link must name an ID defined by the document it points at.
pub open spec fn aggregate_spec(
    paths: Seq<Seq<char>>,
    docs: Seq<Result<Seq<Seq<char>>, Seq<char>>>,
    links: Seq<Result<Seq<(Seq<char>, Seq<char>)>, Seq<char>>>,
) -> Result<(), Seq<char>> {
    match collect_ids(docs, docs.len() as int) {
        Err(m) => Err(m),
        Ok(_) => match first_document_error(paths, docs, links, paths.len() as int) {
            Some(m) => Err(m),
            None => Ok(()),
        },
    }
}

pub open spec fn id_lists(v: Seq<Result<Vec<String>, String>>) -> Seq<Result<Seq<Seq<char>>, Seq<char>>> {
    v.map_values(
        |r: Result<Vec<String>, String>|
            match r {
                Ok(ids) => Ok::<Seq<Seq<char>>, Seq<char>>(views(ids@)),
                Err(e) => Err::<Seq<Seq<char>>, Seq<char>>(e@),
            },
    )
}

pub open spec fn link_lists(v: Seq<Result<Vec<(String, String)>, String>>) -> Seq<
    Result<Seq<(Seq<char>, Seq<char>)>, Seq<char>>,
> {
    v.map_values(
        |r: Result<Vec<(String, String)>, String>|
            match r {
                Ok(l) => Ok::<Seq<(Seq<char>, Seq<char>)>, Seq<char>>(pairs_view(l@)),
                Err(e) => Err::<Seq<(Seq<char>, Seq<char>)>, Seq<char>>(e@),
            },
    )
}

proof fn lemma_add_ids_error_stays(seen: Seq<Seq<char>>, ids: Seq<Seq<char>>, j: int, n: int)
    requires
        0 <= j <= n,
        add_ids(seen, ids, j) is Err,
    ensures
        add_ids(seen, ids, n) == add_ids(seen, ids, j),
    decreases n - j,
{
    if j < n {
        lemma_add_ids_error_stays(seen, ids, j, n - 1);
    }
}

proof fn lemma_collect_error_stays(docs: Seq<Result<Seq<Seq<char>>, Seq<char>>>, k: int, n: int)
    requires
        0 <= k <= n,
        collect_ids(docs, k) is Err,
    ensures
        collect_ids(docs, n) == collect_ids(docs, k),
    decreases n - k,
{
    if k < n {
        lemma_collect_error_stays(docs, k, n - 1);
    }
}

proof fn lemma_link_error_stays(
    paths: Seq<Seq<char>>,
    docs: Seq<Result<Seq<Seq<char>>, Seq<char>>>,
    from: Seq<char>,
    links: Seq<(Seq<char>, Seq<char>)>,
    j: int,
    n: int,
)
    requires
        0 <= j <= n,
        first_link_error(paths, docs, from, links, j) is Some,
    ensures
        first_link_error(paths, docs, from, links, n) == first_link_error(paths, docs, from, links, j),
    decreases n - j,
{
    if j < n {
        lemma_link_error_stays(paths, docs, from, links, j, n - 1);
    }
}

proof fn lemma_document_error_stays(
    paths: Seq<Seq<char>>,
    docs: Seq<Result<Seq<Seq<char>>, Seq<char>>>,
    links: Seq<Result<Seq<(Seq<char>, Seq<char>)>, Seq<char>>>,
    k: int,
    n: int,
)
    requires
        0 <= k <= n,
        first_document_error(paths, docs, links, k) is Some,
    ensures
        first_document_error(paths, docs, links, n) == first_document_error(paths, docs, links, k),
    decreases n - k,
{
    if k < n {
        lemma_document_error_stays(paths, docs, links, k, n - 1);
    }
}

/// Whether `v` holds a string equal to `s`.
fn contains_text(v: &Vec<String>, s: &str) -> (b: bool)
    ensures
        b == views(v@).contains(s@),
{
    let mut i: usize = 0;
    while i < v.len()
        invariant
            i <= v.len(),
            forall|j: int| 0 <= j < i ==> v@[j]@ != s@,
        decreases v.len() - i,
    {
        if str_eq(v[i].as_str(), s) {
            assert(views(v@)[i as int] == s@);
            return true;
        }
        i += 1;
    }
    proof {
        if views(v@).contains(s@) {
            let j = choose|j: int| 0 <= j < views(v@).len() && views(v@)[j] == s@;
            assert(v@[j]@ == s@);
        }
    }
    false
}

/// Adds a document's Evidence IDs to those seen so far (see `add_ids`).
fn add_document_ids(seen: &mut Vec<String>, ids: &Vec<String>) -> (r: Result<(), String>)
    ensures
        match add_ids(views(old(seen)@), views(ids@), ids@.len() as int) {
            Ok(v) => r is Ok && views(final(seen)@) == v,
            Err(m) => r matches Err(e) && e@ == m,
        },
{
    let ghost start = views(seen@);
    let mut j: usize = 0;
    while j < ids.len()
        invariant
            j <= ids.len(),
            start == views(old(seen)@),
            add_ids(start, views(ids@), j as int) == Ok::<Seq<Seq<char>>, Seq<char>>(views(seen@)),
        decreases ids.len() - j,
    {
        if contains_text(seen, ids[j].as_str()) {
            let mut m = String::new();
            push_str(&mut m, "duplicate Evidence ID: ");
            push_str(&mut m, ids[j].as_str());
            proof {
                assert(views(ids@)[j as int] == ids@[j as int]@);
                lemma_add_ids_error_stays(start, views(ids@), j + 1, ids@.len() as int);
            }
            return Err(m);
        }
        let ghost before = seen@;
        seen.push(ids[j].clone());
        assert(views(seen@) =~= views(before).push(ids@[j as int]@));
        j += 1;
    }
    Ok(())
}

/// The index of the last document at `path`.
fn last_document_at(paths: &Vec<String>, path: &str) -> (r: Option<usize>)
    ensures
        match last_at(views(paths@), path@, paths@.len() as int) {
            Some(j) => r == Some(j as usize) && 0 <= j < paths@.len(),
            None => r is None,
        },
{
    let mut k: usize = paths.len();
    while k > 0
        invariant
            k <= paths.len(),
            last_at(views(paths@), path@, paths@.len() as int) == last_at(views(paths@), path@, k as int),
        decreases k,
    {
        if str_eq(paths[k - 1].as_str(), path) {
            return Some(k - 1);
        }
        k -= 1;
    }
    None
}

/// The error of one Evidence link of the document at `from` (see `link_error`).
fn check_link(
    paths: &Vec<String>,
    docs: &Vec<Result<Vec<String>, String>>,
    from: &str,
    link: &(String, String),
) -> (r: Option<String>)
    requires
        paths.len() == docs.len(),
    ensures
        match link_error(views(paths@), id_lists(docs@), from@, (link.0@, link.1@)) {
            Some(m) => r matches Some(e) && e@ == m,
            None => r is None,
        },
{
    let resolved = match resolve_evidence_target(from, link.0.as_str()) {
        Ok(v) => v,
        Err(e) => {
            return Some(e);
        },
    };
    match last_document_at(paths, resolved.as_str()) {
        None => Some(invalid_target(link.0.as_str())),
        Some(j) => match &docs[j] {
            Ok(ids) => {
                if contains_text(ids, link.1.as_str()) {
                    None
                } else {
                    let mut m = String::new();
                    push_str(&mut m, "dangling Evidence reference: ");
                    push_str(&mut m, link.1.as_str());
                    Some(m)
                }
            },
            Err(_) => None,
        },
    }
}

/// The outcome of checking an aggregate's Evidence (see `aggregate_spec`), given each
/// document's path, its own Evidence IDs (or the error reading them gave) and its Evidence
/// links (or the error reading them gave).
pub fn aggregate_outcome(
    paths: &Vec<String>,
    docs: &Vec<Result<Vec<String>, String>>,
    links: &Vec<Result<Vec<(String, String)>, String>>,
) -> (r: Result<(), String>)
    requires
        paths.len() == docs.len(),
        links.len() == docs.len(),
    ensures
        match aggregate_spec(views(paths@), id_lists(docs@), link_lists(links@)) {
            Ok(_) => r is Ok,
            Err(m) => r matches Err(e) && e@ == m,
        },
{
    let ghost pv = views(paths@);
    let ghost dv = id_lists(docs@);
    let ghost lv = link_lists(links@);
    let mut seen: Vec<String> = Vec::new();
    let mut k: usize = 0;
    assert(views(seen@) =~= Seq::<Seq<char>>::empty());
    while k < docs.len()
        invariant
            k <= docs.len(),
            dv == id_lists(docs@),
            collect_ids(dv, k as int) == Ok::<Seq<Seq<char>>, Seq<char>>(views(seen@)),
        decreases docs.len() - k,
    {
        match &docs[k] {
            Err(e) => {
                proof {
                    lemma_collect_error_stays(dv, k + 1, dv.len() as int);
                }
                return Err(e.clone());
            },
            Ok(ids) => {
                match add_document_ids(&mut seen, ids) {
                    Ok(()) => {},
                    Err(e) => {
                        proof {
                            lemma_collect_error_stays(dv, k + 1, dv.len() as int);
                        }
                        return Err(e);
                    },
                }
            },
        }
        k += 1;
    }
    let mut k: usize = 0;
    while k < paths.len()
        invariant
            k <= paths.len(),
            paths.len() == docs.len(),
            links.len() == docs.len(),
            pv == views(paths@),
            dv == id_lists(docs@),
            lv == link_lists(links@),
            collect_ids(dv, dv.len() as int) is Ok,
            first_document_error(pv, dv, lv, k as int) is None,
        decreases paths.len() - k,
    {
        let last = last_document_at(paths, paths[k].as_str());
        assert(pv[k as int] == paths@[k as int]@);
        if last == Some(k) {
            match &links[k] {
                Err(e) => {
                    proof {
                        assert(lv[k as int] == Err::<Seq<(Seq<char>, Seq<char>)>, Seq<char>>(e@));
                        lemma_document_error_stays(pv, dv, lv, k + 1, pv.len() as int);
                    }
                    return Err(e.clone());
                },
                Ok(ls) => {
                    assert(lv[k as int] == Ok::<Seq<(Seq<char>, Seq<char>)>, Seq<char>>(pairs_view(ls@)));
                    let mut j: usize = 0;
                    while j < ls.len()
                        invariant
                            j <= ls.len(),
                            k < paths.len(),
                            paths.len() == docs.len(),
                            links.len() == docs.len(),
                            lv == link_lists(links@),
                            lv[k as int] == Ok::<Seq<(Seq<char>, Seq<char>)>, Seq<char>>(pairs_view(ls@)),
                            last_at(pv, pv[k as int], pv.len() as int) == Some(k as int),
                            collect_ids(dv, dv.len() as int) is Ok,
                            first_document_error(pv, dv, lv, k as int) is None,
                            pv == views(paths@),
                            dv == id_lists(docs@),
                            first_link_error(pv, dv, pv[k as int], pairs_view(ls@), j as int) is None,
                        decreases ls.len() - j,
                    {
                        match check_link(paths, docs, paths[k].as_str(), &ls[j]) {
                            Some(e) => {
                                proof {
                                    lemma_link_error_stays(pv, dv, pv[k as int], pairs_view(ls@), j + 1, ls@.len() as int);
                                    lemma_document_error_stays(pv, dv, lv, k + 1, pv.len() as int);
                                }
                                return Err(e);
                            },
                            None => {},
                        }
                        j += 1;
                    }
                    assert(first_document_error(pv, dv, lv, k + 1) is None);
                },
            }
        }
        k += 1;
    }
    Ok(())
}

/// The paths of an aggregate's documents: the Blueprint, then each Todo detail.
pub open spec fn aggregate_paths(todos: Seq<(&str, &str)>) -> Seq<Seq<char>> {
    seq!["blueprint.md"@] + todos.map_values(|t: (&str, &str)| t.0@)
}

/// The sources of an aggregate's documents, in the order of `aggregate_paths`.
pub open spec fn aggregate_sources(blueprint: Seq<char>, todos: Seq<(&str, &str)>) -> Seq<Seq<char>> {
    seq![blueprint] + todos.map_values(|t: (&str, &str)| t.1@)
}

/// The source is a Blueprint document that parses.
pub open spec fn blueprint_accepted(source: Seq<char>) -> bool {
    exists|
        d: DocumentView,
        g: Result<Seq<GraphNodeView>, Seq<char>>,
        ev: Seq<(Seq<char>, Seq<char>)>,
        rv: Seq<(Seq<char>, Seq<char>)>,
    | #[trigger] blueprint_spec(source, d, g, ev, rv) is Ok
}

/// The source is a Todo detail document that parses.
pub open spec fn detail_accepted(source: Seq<char>) -> bool {
    exists|d: DocumentView, ev: Seq<(Seq<char>, Seq<char>)>, rv: Seq<(Seq<char>, Seq<char>)>|
        #[trigger] detail_spec(source, d, ev, rv) is Ok
}

/// What reading the document at position `i` of an aggregate gave: IDs only from a document
/// that parses as a Blueprint (the first) or a Todo detail (the others), and they are the IDs
/// of its Evidence section; links are those of the document's Markdown links.
pub open spec fn document_read(
    i: int,
    source: Seq<char>,
    ids: Result<Seq<Seq<char>>, Seq<char>>,
    links: Result<Seq<(Seq<char>, Seq<char>)>, Seq<char>>,
) -> bool {
    &&& ids matches Ok(v) ==> (if i == 0 {
        blueprint_accepted(source)
    } else {
        detail_accepted(source)
    }) && section_ids(source, v)
    &&& links matches Ok(l) ==> exists|nodes: Seq<MdNode>|
        crate::markdown::document_nodes(source, nodes) && links_spec(nodes, nodes.len() as int) == Ok::<Seq<(Seq<char>, Seq<char>)>, Seq<char>>(l)
}

/// Parses a Blueprint document, keeping only whether it parses.
fn check_blueprint(path: &str, source: &str) -> (r: Result<(), String>)
    ensures
        r is Ok ==> blueprint_accepted(source@),
        !crate::blueprint::document::ends_with(path@, ".md"@) ==> (r matches Err(e) && e@
            == "document path must end with .md: "@ + path@),
        crate::blueprint::document::ends_with(path@, ".md"@) && !crate::markdown::markdown_accepts(
            source@,
            false,
            usize::MAX,
        ) ==> r is Err,
        crate::blueprint::document::ends_with(path@, ".md"@) && crate::markdown::markdown_accepts(
            source@,
            false,
            usize::MAX,
        ) ==> exists|o: Result<BlueprintView, Seq<char>>|
            #![trigger crate::blueprint::source::blueprint_parsed(path@, source@, o)]
            crate::blueprint::source::blueprint_parsed(path@, source@, o) && match o {
                Ok(_) => r is Ok,
                Err(m) => r matches Err(e) && e@ == m,
            },
{
    let parsed = BlueprintSource::parse(path, source);
    proof {
        let o = crate::blueprint::source::blueprint_outcome(parsed);
        if crate::blueprint::document::ends_with(path@, ".md"@) && crate::markdown::markdown_accepts(
            source@,
            false,
            usize::MAX,
        ) {
            assert(crate::blueprint::source::blueprint_parsed(path@, source@, o));
        }
    }
    match parsed {
        Ok(b) => {
            proof {
                let (d, g, ev, rv) = choose|
                    d: DocumentView,
                    g: Result<Seq<GraphNodeView>, Seq<char>>,
                    ev: Seq<(Seq<char>, Seq<char>)>,
                    rv: Seq<(Seq<char>, Seq<char>)>,
                |
                    blueprint_spec(source@, d, g, ev, rv) == Ok::<BlueprintView, Seq<char>>(blueprint_view(b));
                assert(blueprint_spec(source@, d, g, ev, rv) is Ok);
            }
            Ok(())
        },
        Err(e) => Err(e),
    }
}

/// Parses a Todo detail document, keeping only whether it parses.
fn check_detail(path: &str, source: &str) -> (r: Result<(), String>)
    ensures
        r is Ok ==> detail_accepted(source@),
        !crate::blueprint::document::ends_with(path@, ".md"@) ==> (r matches Err(e) && e@
            == "document path must end with .md: "@ + path@),
        crate::blueprint::document::ends_with(path@, ".md"@) && !crate::markdown::markdown_accepts(
            source@,
            false,
            usize::MAX,
        ) ==> r is Err,
        crate::blueprint::document::ends_with(path@, ".md"@) && crate::markdown::markdown_accepts(
            source@,
            false,
            usize::MAX,
        ) ==> exists|o: Result<TodoDetailView, Seq<char>>|
            #![trigger detail_parsed(path@, source@, o)]
            detail_parsed(path@, source@, o) && match o {
                Ok(_) => r is Ok,
                Err(m) => r matches Err(e) && e@ == m,
            },
{
    let parsed = TodoDetail::parse(path, source);
    proof {
        let o = detail_outcome(parsed);
        if crate::blueprint::document::ends_with(path@, ".md"@) && crate::markdown::markdown_accepts(
            source@,
            false,
            usize::MAX,
        ) {
            assert(detail_parsed(path@, source@, o));
        }
    }
    match parsed {
        Ok(t) => {
            proof {
                let (d, ev, rv) = choose|
                    d: DocumentView,
                    ev: Seq<(Seq<char>, Seq<char>)>,
                    rv: Seq<(Seq<char>, Seq<char>)>,
                |
                    detail_spec(source@, d, ev, rv) == Ok::<TodoDetailView, Seq<char>>(detail_view(t))
                        && crate::blueprint::document::required_order(d.sections, todo_sections()) == todo_sections();
                assert(detail_spec(source@, d, ev, rv) is Ok);
            }
            Ok(())
        },
        Err(e) => Err(e),
    }
}

/// Reads one document of an aggregate: its own Evidence IDs once it parses as what it stands
/// for, and its Evidence links.
fn read_document(blueprint: bool, path: &str, source: &str, Ghost(i): Ghost<int>) -> (r: (
    Result<Vec<String>, String>,
    Result<Vec<(String, String)>, String>,
))
    requires
        blueprint == (i == 0),
    ensures
        document_read(
            i,
            source@,
            id_lists(seq![r.0])[0],
            link_lists(seq![r.1])[0],
        ),
{
    let parsed = if blueprint {
        check_blueprint(path, source)
    } else {
        check_detail(path, source)
    };
    let ids = match parsed {
        Ok(()) => evidence_ids_in_section(source),
        Err(e) => Err(e),
    };
    let links = standard_evidence_links(source);
    (ids, links)
}

/// Checks Evidence across one Blueprint aggregate: each document must parse as what it stands
/// for (the Blueprint at `blueprint.md`, then each Todo detail at its path), Evidence IDs must
/// be unique across the aggregate, and every standard Markdown link to an Evidence block
/// (`…#^evidence-…`) must resolve to a document of the aggregate that defines that ID (see
/// `aggregate_spec`; documents are checked in order, a later one at the same path replacing
/// an earlier one).
pub fn validate_evidence_aggregate(blueprint_source: &str, todo_sources: &[(&str, &str)]) -> (r: Result<(), String>)
    ensures
        exists|
            docs: Seq<Result<Seq<Seq<char>>, Seq<char>>>,
            links: Seq<Result<Seq<(Seq<char>, Seq<char>)>, Seq<char>>>,
        |
            #![trigger aggregate_spec(aggregate_paths(todo_sources@), docs, links)]
            docs.len() == todo_sources@.len() + 1 && links.len() == docs.len() && (forall|i: int|
                0 <= i < docs.len() ==> #[trigger] document_read(
                    i,
                    aggregate_sources(blueprint_source@, todo_sources@)[i],
                    docs[i],
                    links[i],
                )) && match aggregate_spec(aggregate_paths(todo_sources@), docs, links) {
                Ok(_) => r is Ok,
                Err(m) => r matches Err(e) && e@ == m,
            },
{
    let ghost all_paths = aggregate_paths(todo_sources@);
    let ghost all_sources = aggregate_sources(blueprint_source@, todo_sources@);
    let mut paths: Vec<String> = Vec::new();
    let mut docs: Vec<Result<Vec<String>, String>> = Vec::new();
    let mut links: Vec<Result<Vec<(String, String)>, String>> = Vec::new();
    paths.push(to_string("blueprint.md"));
    let (ids, ls) = read_document(true, "blueprint.md", blueprint_source, Ghost(0));
    docs.push(ids);
    links.push(ls);
    let mut i: usize = 0;
    while i < todo_sources.len()
        invariant
            i <= todo_sources@.len(),
            all_paths == aggregate_paths(todo_sources@),
            all_sources == aggregate_sources(blueprint_source@, todo_sources@),
            paths.len() == i + 1,
            docs.len() == i + 1,
            links.len() == i + 1,
            forall|j: int| 0 <= j <= i ==> views(paths@)[j] == all_paths[j],
            forall|j: int|
                0 <= j <= i ==> #[trigger] document_read(
                    j,
                    all_sources[j],
                    id_lists(docs@)[j],
                    link_lists(links@)[j],
                ),
        decreases todo_sources.len() - i,
    {
        let (path, source) = todo_sources[i];
        let ghost before_docs = docs@;
        let ghost before_links = links@;
        paths.push(to_string(path));
        let (ids, ls) = read_document(false, path, source, Ghost(i + 1));
        docs.push(ids);
        links.push(ls);
        proof {
            assert(id_lists(docs@)[i + 1] == id_lists(seq![ids])[0]);
            assert(link_lists(links@)[i + 1] == link_lists(seq![ls])[0]);
            assert(all_sources[i + 1] == source@);
            assert forall|j: int|
                0 <= j <= i + 1 implies #[trigger] document_read(
                    j,
                    all_sources[j],
                    id_lists(docs@)[j],
                    link_lists(links@)[j],
                ) by {
                if j <= i {
                    assert(id_lists(docs@)[j] == id_lists(before_docs)[j]);
                    assert(link_lists(links@)[j] == link_lists(before_links)[j]);
                }
            }
        }
        i += 1;
    }
    assert(views(paths@) =~= all_paths);
    let r = aggregate_outcome(&paths, &docs, &links);
    assert(id_lists(docs@).len() == todo_sources@.len() + 1);
    r
}

} // verus!
