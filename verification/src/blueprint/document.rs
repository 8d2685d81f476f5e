//! The structure every Blueprint document shares: a `.md` path, frontmatter naming the
//! document's schema, one H1 title, and `##` sections whose titles and order the schema
//! fixes.
use vstd::prelude::*;
use vstd::string::StringSliceAdditionalSpecFns;
use vstd::utf8::encode_utf8;

use crate::markdown::{MdKind, MdNode, document_read, markdown_accepts, well_formed};
use crate::parser::note::{collect_text, node_text};
use crate::parser::{slice_spec, slice_text};
use crate::blueprint::frontmatter::{replace_field_spec, set_field_in_range};
use crate::text::{
    byte_len, chars_of, find_bytes, find_from, is_boundary, join_with, lemma_find_from,
    push_str, str_byte_len, str_eq, string_of, trim, trim_bounds,
};

verus! {

/// The schema a document must follow: the `schema` frontmatter value (none when empty) and
/// the exact sequence of its `##` section titles (any when empty).
pub struct DocumentSchema {
    pub name: String,
    pub required_sections: Vec<String>,
}

/// One `##` section: its title and the byte range of its body.
#[derive(Clone, Debug)]
pub struct Section {
    pub title: String,
    pub body_start: usize,
    pub body_end: usize,
}

/// A parsed Blueprint document.
#[derive(Clone, Debug)]
pub struct ParsedDocument {
    pub h1: String,
    /// The string-valued frontmatter entries.
    pub frontmatter: Vec<(String, String)>,
    /// The byte range of the frontmatter block in the source (empty at 0 without one).
    pub frontmatter_start: usize,
    pub frontmatter_end: usize,
    pub sections: Vec<Section>,
}

pub struct SectionView {
    pub title: Seq<char>,
    pub body_start: int,
    pub body_end: int,
}

pub struct DocumentView {
    pub h1: Seq<char>,
    pub frontmatter: Seq<(Seq<char>, Seq<char>)>,
    pub frontmatter_range: (int, int),
    pub sections: Seq<SectionView>,
}

impl View for Section {
    type V = SectionView;

    open spec fn view(&self) -> SectionView {
        SectionView { title: self.title@, body_start: self.body_start as int, body_end: self.body_end as int }
    }
}

pub open spec fn section_views(v: Seq<Section>) -> Seq<SectionView> {
    v.map_values(|x: Section| x@)
}

pub open spec fn entries_view(e: Seq<(String, String)>) -> Seq<(Seq<char>, Seq<char>)> {
    e.map_values(|p: (String, String)| (p.0@, p.1@))
}

impl View for ParsedDocument {
    type V = DocumentView;

    open spec fn view(&self) -> DocumentView {
        DocumentView {
            h1: self.h1@,
            frontmatter: entries_view(self.frontmatter@),
            frontmatter_range: (self.frontmatter_start as int, self.frontmatter_end as int),
            sections: section_views(self.sections@),
        }
    }
}

/// `s` ends with `p`.
pub open spec fn ends_with(s: Seq<char>, p: Seq<char>) -> bool {
    s.len() >= p.len() && s.skip(s.len() - p.len()) == p
}

/// The value of the first entry with the key.
pub open spec fn lookup(entries: Seq<(Seq<char>, Seq<char>)>, key: Seq<char>) -> Option<Seq<char>>
    decreases entries.len(),
{
    if entries.len() == 0 {
        None
    } else if entries[0].0 == key {
        Some(entries[0].1)
    } else {
        lookup(entries.drop_first(), key)
    }
}

/// The position of the first level-one heading among the first `k` nodes.
pub open spec fn first_h1(nodes: Seq<MdNode>, k: int) -> Option<int>
    decreases k,
{
    if k <= 0 {
        None
    } else {
        match first_h1(nodes, k - 1) {
            Some(i) => Some(i),
            None => if nodes[k - 1].kind == MdKind::Heading && nodes[k - 1].level == 1 {
                Some(k - 1)
            } else {
                None
            },
        }
    }
}

/// The positions of the level-two headings among the first `k` nodes, in order.
pub open spec fn h2_positions(nodes: Seq<MdNode>, k: int) -> Seq<int>
    decreases k,
{
    if k <= 0 {
        seq![]
    } else if nodes[k - 1].kind == MdKind::Heading && nodes[k - 1].level == 2 {
        h2_positions(nodes, k - 1).push(k - 1)
    } else {
        h2_positions(nodes, k - 1)
    }
}

/// The offset of the line after the one holding byte `p`.
pub open spec fn next_line_start(b: Seq<u8>, p: int) -> int {
    match find_from(b, seq![10u8], p) {
        Some(k) => k + 1,
        None => b.len() as int,
    }
}

/// The position of the last frontmatter node among the first `k` nodes.
pub open spec fn last_frontmatter(nodes: Seq<MdNode>, k: int) -> Option<int>
    decreases k,
{
    if k <= 0 {
        None
    } else if nodes[k - 1].kind == MdKind::FrontMatter {
        Some(k - 1)
    } else {
        last_frontmatter(nodes, k - 1)
    }
}

/// The byte range of the frontmatter: from the start of the last frontmatter node to the
/// start of the line after the node's last byte (never before its start); `(0, 0)` without
/// one.
pub open spec fn frontmatter_range_spec(nodes: Seq<MdNode>, b: Seq<u8>) -> (int, int) {
    match last_frontmatter(nodes, nodes.len() as int) {
        Some(i) => {
            let n = nodes[i];
            let e = next_line_start(b, if n.end > 0 { n.end - 1 } else { 0 });
            (n.start as int, if e < n.start { n.start as int } else { e })
        },
        None => (0, 0),
    }
}

/// The sections: each `##` heading's trimmed text, with a body from the line after the
/// heading to the next `##` heading (or the end of the source).
pub open spec fn sections_spec(nodes: Seq<MdNode>, b: Seq<u8>) -> Seq<SectionView> {
    let hs = h2_positions(nodes, nodes.len() as int);
    Seq::new(
        hs.len(),
        |k: int|
            {
                let n = nodes[hs[k]];
                SectionView {
                    title: trim(node_text(nodes, hs[k])),
                    body_start: next_line_start(b, if n.end > 0 { n.end - 1 } else { 0 }),
                    body_end: if k + 1 < hs.len() { nodes[hs[k + 1]].start as int } else { b.len() as int },
                }
            },
    )
}

/// The number of sections with the title.
pub open spec fn title_count(secs: Seq<SectionView>, title: Seq<char>) -> nat
    decreases secs.len(),
{
    if secs.len() == 0 {
        0
    } else {
        title_count(secs.drop_last(), title) + if secs.last().title == title {
            1nat
        } else {
            0nat
        }
    }
}

/// The error for the first required title that no section, or more than one section, has.
pub open spec fn required_error(secs: Seq<SectionView>, required: Seq<Seq<char>>) -> Option<Seq<char>>
    decreases required.len(),
{
    if required.len() == 0 {
        None
    } else {
        match required_error(secs, required.drop_last()) {
            Some(m) => Some(m),
            None => {
                let t = required.last();
                if title_count(secs, t) == 0 {
                    Some("missing required section: "@ + t)
                } else if title_count(secs, t) > 1 {
                    Some("required section must occur exactly once: "@ + t)
                } else {
                    None
                }
            },
        }
    }
}

/// The titles of the sections that the schema requires, in the order the sections come;
/// other sections are left out.
pub open spec fn required_order(secs: Seq<SectionView>, required: Seq<Seq<char>>) -> Seq<Seq<char>>
    decreases secs.len(),
{
    if secs.len() == 0 {
        seq![]
    } else if required.contains(secs.last().title) {
        required_order(secs.drop_last(), required).push(secs.last().title)
    } else {
        required_order(secs.drop_last(), required)
    }
}

/// The document a source with the given outline and frontmatter entries makes under the
/// schema, or the first rule it breaks.
pub open spec fn document_spec(
    path: Seq<char>,
    source: Seq<char>,
    name: Seq<char>,
    required: Seq<Seq<char>>,
    nodes: Seq<MdNode>,
    frontmatter: Option<Seq<(Seq<char>, Seq<char>)>>,
) -> Result<DocumentView, Seq<char>> {
    let b = encode_utf8(source);
    let secs = sections_spec(nodes, b);
    let fm = match frontmatter {
        Some(e) => e,
        None => seq![],
    };
    if !ends_with(path, ".md"@) {
        Err("document path must end with .md: "@ + path)
    } else if first_h1(nodes, nodes.len() as int) is None || trim(
        node_text(nodes, first_h1(nodes, nodes.len() as int)->0),
    ).len() == 0 {
        Err("document must contain an H1"@)
    } else if frontmatter is None && name.len() > 0 {
        Err("document must contain frontmatter"@)
    } else if name.len() > 0 && lookup(fm, "schema"@) is None {
        Err("frontmatter schema is missing"@)
    } else if name.len() > 0 && lookup(fm, "schema"@) != Some(name) {
        Err("unsupported schema: "@ + lookup(fm, "schema"@)->0)
    } else if required_error(secs, required) is Some {
        Err(required_error(secs, required)->0)
    } else if required.len() > 0 && required_order(secs, required) != required {
        Err("document sections must be exactly: "@ + join_with(required, ", "@))
    } else {
        Ok(
            DocumentView {
                h1: trim(node_text(nodes, first_h1(nodes, nodes.len() as int)->0)),
                frontmatter: fm,
                frontmatter_range: frontmatter_range_spec(nodes, b),
                sections: secs,
            },
        )
    }
}

/// The views of a list of strings.
pub open spec fn views(v: Seq<String>) -> Seq<Seq<char>> {
    v.map_values(|x: String| x@)
}

pub(crate) fn has_md_suffix(path: &str) -> (b: bool)
    ensures
        b == ends_with(path@, ".md"@),
{
    let cs = chars_of(path);
    let suffix = chars_of(".md");
    if cs.len() < suffix.len() {
        return false;
    }
    let off = cs.len() - suffix.len();
    let mut k: usize = 0;
    while k < suffix.len()
        invariant
            off + suffix.len() == cs.len(),
            cs@ == path@,
            suffix@ == ".md"@,
            k <= suffix.len(),
            forall|j: int| 0 <= j < k ==> cs@[off + j] == suffix@[j],
        decreases suffix.len() - k,
    {
        if cs[off + k] != suffix[k] {
            assert(cs@.skip(off as int)[k as int] != suffix@[k as int]);
            return false;
        }
        k += 1;
    }
    assert(cs@.skip(off as int) =~= suffix@);
    true
}

/// The trimmed visible text of node `i`.
fn trimmed_text(nodes: &Vec<MdNode>, i: usize) -> (t: String)
    requires
        well_formed(nodes@),
        i < nodes.len(),
    ensures
        t@ == trim(node_text(nodes@, i as int)),
{
    let collected = collect_text(nodes, i);
    let cs = chars_of(collected.as_str());
    let (a, b) = trim_bounds(&cs, 0, cs.len());
    assert(cs@.subrange(0, cs.len() as int) =~= cs@);
    string_of(&cs, a, b)
}

fn find_first_h1(nodes: &Vec<MdNode>) -> (r: Option<usize>)
    ensures
        match r {
            Some(i) => first_h1(nodes@, nodes.len() as int) == Some(i as int),
            None => first_h1(nodes@, nodes.len() as int) is None,
        },
        r matches Some(i) ==> i < nodes.len(),
{
    let mut k: usize = 0;
    while k < nodes.len()
        invariant
            k <= nodes.len(),
            first_h1(nodes@, k as int) is None,
        decreases nodes.len() - k,
    {
        if nodes[k].kind == MdKind::Heading && nodes[k].level == 1 {
            proof {
                lemma_first_h1_stays(nodes@, k + 1);
            }
            return Some(k);
        }
        k += 1;
    }
    None
}

proof fn lemma_first_h1_stays(nodes: Seq<MdNode>, k: int)
    requires
        0 <= k <= nodes.len(),
        first_h1(nodes, k) is Some,
    ensures
        first_h1(nodes, nodes.len() as int) == first_h1(nodes, k),
    decreases nodes.len() - k,
{
    if k < nodes.len() {
        lemma_first_h1_stays(nodes, k + 1);
    }
}

fn h2_list(nodes: &Vec<MdNode>) -> (hs: Vec<usize>)
    ensures
        hs@.map_values(|i: usize| i as int) == h2_positions(nodes@, nodes.len() as int),
        forall|k: int| 0 <= k < hs.len() ==> (#[trigger] hs@[k]) < nodes.len(),
{
    let mut hs: Vec<usize> = Vec::new();
    let mut k: usize = 0;
    while k < nodes.len()
        invariant
            k <= nodes.len(),
            hs@.map_values(|i: usize| i as int) == h2_positions(nodes@, k as int),
            forall|q: int| 0 <= q < hs.len() ==> (#[trigger] hs@[q]) < nodes.len(),
        decreases nodes.len() - k,
    {
        if nodes[k].kind == MdKind::Heading && nodes[k].level == 2 {
            let ghost before = hs@;
            hs.push(k);
            assert(hs@.map_values(|i: usize| i as int) =~= before.map_values(|i: usize| i as int).push(k as int));
        }
        k += 1;
    }
    hs
}

/// The value of the first frontmatter entry with the key.
fn lookup_entry(entries: &Vec<(String, String)>, key: &str) -> (r: Option<String>)
    ensures
        match r {
            Some(v) => lookup(entries_view(entries@), key@) == Some(v@),
            None => lookup(entries_view(entries@), key@) is None,
        },
{
    let mut k: usize = 0;
    assert(entries_view(entries@).skip(0) =~= entries_view(entries@));
    while k < entries.len()
        invariant
            k <= entries.len(),
            lookup(entries_view(entries@), key@) == lookup(entries_view(entries@).skip(k as int), key@),
        decreases entries.len() - k,
    {
        proof {
            let rest = entries_view(entries@).skip(k as int);
            assert(rest.drop_first() =~= entries_view(entries@).skip(k + 1));
            assert(rest[0] == (entries@[k as int].0@, entries@[k as int].1@));
        }
        if str_eq(entries[k].0.as_str(), key) {
            return Some(entries[k].1.clone());
        }
        k += 1;
    }
    None
}

/// The offset of the line after the one holding byte `p`.
fn line_after(b: &[u8], p: usize) -> (r: usize)
    ensures
        r == next_line_start(b@, p as int),
{
    let nl: [u8; 1] = [10u8];
    let nls: &[u8] = &nl;
    assert(nls@ =~= seq![10u8]);
    proof {
        lemma_find_from(b@, nls@, p as int);
    }
    match find_bytes(b, nls, p) {
        Some(k) => {
            assert(crate::text::occurs_at(b@, nls@, k as int));
            assert(k + nls@.len() <= b@.len());
            assert(nls@.len() == 1);
            assert(k < b.len());
            k + 1
        },
        None => b.len(),
    }
}

/// The frontmatter range of the outline (see `frontmatter_range_spec`).
fn frontmatter_range_of(source: &str, nodes: &Vec<MdNode>) -> (r: (usize, usize))
    ensures
        r.0 as int == frontmatter_range_spec(nodes@, encode_utf8(source@)).0,
        r.1 as int == frontmatter_range_spec(nodes@, encode_utf8(source@)).1,
{
    let mut found: Option<usize> = None;
    let mut k: usize = 0;
    while k < nodes.len()
        invariant
            k <= nodes.len(),
            match found {
                Some(i) => i < nodes.len() && last_frontmatter(nodes@, k as int) == Some(i as int),
                None => last_frontmatter(nodes@, k as int) is None,
            },
        decreases nodes.len() - k,
    {
        if nodes[k].kind == MdKind::FrontMatter {
            found = Some(k);
        }
        k += 1;
    }
    match found {
        Some(i) => {
            let b: &[u8] = source.as_bytes();
            assert(b@ == encode_utf8(source@));
            let n = &nodes[i];
            let e = line_after(b, if n.end > 0 { n.end - 1 } else { 0 });
            (n.start, if e < n.start { n.start } else { e })
        },
        None => (0, 0),
    }
}

/// The sections of the outline (see `sections_spec`).
fn build_sections(source: &str, nodes: &Vec<MdNode>) -> (secs: Vec<Section>)
    requires
        well_formed(nodes@),
    ensures
        section_views(secs@) == sections_spec(nodes@, encode_utf8(source@)),
{
    let b: &[u8] = source.as_bytes();
    let ghost bs = b@;
    assert(bs == encode_utf8(source@));
    let hs = h2_list(nodes);
    let ghost hv = h2_positions(nodes@, nodes.len() as int);
    assert(hv.len() == hs.len());
    let mut secs: Vec<Section> = Vec::new();
    let mut k: usize = 0;
    while k < hs.len()
        invariant
            k <= hs.len(),
            well_formed(nodes@),
            bs == b@,
            bs == encode_utf8(source@),
            hv == h2_positions(nodes@, nodes.len() as int),
            hs@.map_values(|i: usize| i as int) == hv,
            forall|q: int| 0 <= q < hs.len() ==> (#[trigger] hs@[q]) < nodes.len(),
            section_views(secs@) == sections_spec(nodes@, bs).take(k as int),
        decreases hs.len() - k,
    {
        let h = hs[k];
        assert(hv[k as int] == h as int);
        let n = &nodes[h];
        let title = trimmed_text(nodes, h);
        let body_start = line_after(b, if n.end > 0 { n.end - 1 } else { 0 });
        let body_end = if k + 1 < hs.len() {
            assert(hv[k + 1] == hs@[k + 1] as int);
            nodes[hs[k + 1]].start
        } else {
            b.len()
        };
        let sec = Section { title, body_start, body_end };
        proof {
            let sp = sections_spec(nodes@, bs);
            assert(sp[k as int].title == sec@.title);
            assert(sp[k as int].body_start == sec@.body_start);
            assert(sp[k as int].body_end == sec@.body_end);
            assert(sp[k as int] == sec@);
        }
        let ghost before = secs@;
        secs.push(sec);
        assert(section_views(secs@) =~= before.map_values(|x: Section| x@).push(sec@));
        assert(sections_spec(nodes@, bs).take(k + 1) =~= sections_spec(nodes@, bs).take(k as int).push(sec@));
        k += 1;
    }
    assert(sections_spec(nodes@, bs).take(hs.len() as int) =~= sections_spec(nodes@, bs));
    secs
}

fn count_title(secs: &Vec<Section>, title: &str) -> (n: usize)
    ensures
        n == title_count(section_views(secs@), title@),
{
    let ghost sv = section_views(secs@);
    let mut n: usize = 0;
    let mut k: usize = 0;
    while k < secs.len()
        invariant
            k <= secs.len(),
            sv == section_views(secs@),
            n == title_count(sv.take(k as int), title@),
            n <= k,
        decreases secs.len() - k,
    {
        assert(sv.take(k + 1).drop_last() =~= sv.take(k as int));
        if str_eq(secs[k].title.as_str(), title) {
            n += 1;
        }
        k += 1;
    }
    assert(sv.take(secs.len() as int) =~= sv);
    n
}

fn check_required(secs: &Vec<Section>, required: &Vec<String>) -> (r: Result<(), String>)
    ensures
        match required_error(section_views(secs@), views(required@)) {
            Some(m) => r matches Err(e) && e@ == m,
            None => r is Ok,
        },
{
    let ghost sv = section_views(secs@);
    let ghost rv = views(required@);
    let mut k: usize = 0;
    while k < required.len()
        invariant
            k <= required.len(),
            sv == section_views(secs@),
            rv == views(required@),
            required_error(sv, rv.take(k as int)) is None,
        decreases required.len() - k,
    {
        proof {
            assert(rv.take(k + 1).drop_last() =~= rv.take(k as int));
            assert(rv.take(k + 1).last() == required@[k as int]@);
        }
        let t = required[k].as_str();
        let c = count_title(secs, t);
        if c == 0 {
            let mut m = String::new();
            push_str(&mut m, "missing required section: ");
            push_str(&mut m, t);
            proof {
                lemma_required_error_extends(sv, rv, k + 1);
            }
            return Err(m);
        } else if c > 1 {
            let mut m = String::new();
            push_str(&mut m, "required section must occur exactly once: ");
            push_str(&mut m, t);
            proof {
                lemma_required_error_extends(sv, rv, k + 1);
            }
            return Err(m);
        }
        k += 1;
    }
    assert(rv.take(required.len() as int) =~= rv);
    Ok(())
}

proof fn lemma_required_error_extends(secs: Seq<SectionView>, req: Seq<Seq<char>>, n: int)
    requires
        0 <= n <= req.len(),
        required_error(secs, req.take(n)) is Some,
    ensures
        required_error(secs, req) == required_error(secs, req.take(n)),
    decreases req.len() - n,
{
    if n < req.len() {
        assert(req.take(n + 1).drop_last() =~= req.take(n));
        lemma_required_error_extends(secs, req, n + 1);
    } else {
        assert(req.take(n) =~= req);
    }
}

proof fn lemma_required_error_none(secs: Seq<SectionView>, req: Seq<Seq<char>>, j: int)
    requires
        0 <= j < req.len(),
        required_error(secs, req) is None,
    ensures
        title_count(secs, req[j]) == 1,
    decreases req.len(),
{
    if j < req.len() - 1 {
        assert(req.drop_last()[j] == req[j]);
        lemma_required_error_none(secs, req.drop_last(), j);
    }
}

fn is_required(title: &str, required: &Vec<String>) -> (b: bool)
    ensures
        b == views(required@).contains(title@),
{
    let mut k: usize = 0;
    while k < required.len()
        invariant
            k <= required.len(),
            forall|q: int| 0 <= q < k ==> views(required@)[q] != title@,
        decreases required.len() - k,
    {
        if str_eq(required[k].as_str(), title) {
            assert(views(required@)[k as int] == title@);
            return true;
        }
        k += 1;
    }
    false
}

fn titles_match(secs: &Vec<Section>, required: &Vec<String>) -> (b: bool)
    ensures
        b == (required_order(section_views(secs@), views(required@)) == views(required@)),
{
    let ghost sv = section_views(secs@);
    let ghost rv = views(required@);
    let mut order: Vec<String> = Vec::new();
    let mut k: usize = 0;
    while k < secs.len()
        invariant
            k <= secs.len(),
            sv == section_views(secs@),
            rv == views(required@),
            views(order@) == required_order(sv.take(k as int), rv),
        decreases secs.len() - k,
    {
        assert(sv.take(k + 1).drop_last() =~= sv.take(k as int));
        if is_required(secs[k].title.as_str(), required) {
            let ghost before = order@;
            order.push(secs[k].title.clone());
            assert(views(order@) =~= views(before).push(secs@[k as int].title@));
        }
        k += 1;
    }
    assert(sv.take(secs.len() as int) =~= sv);
    let ghost t = views(order@);
    if order.len() != required.len() {
        assert(t.len() != rv.len());
        return false;
    }
    let mut q: usize = 0;
    while q < order.len()
        invariant
            q <= order.len() == required.len(),
            t == views(order@),
            rv == views(required@),
            t == required_order(section_views(secs@), rv),
            forall|j: int| 0 <= j < q ==> t[j] == rv[j],
        decreases order.len() - q,
    {
        if !str_eq(order[q].as_str(), required[q].as_str()) {
            assert(t[q as int] != rv[q as int]);
            return false;
        }
        q += 1;
    }
    assert(t =~= rv);
    true
}

pub(crate) fn join_titles(required: &Vec<String>) -> (r: String)
    ensures
        r@ == join_with(views(required@), ", "@),
{
    let mut r = String::new();
    let mut k: usize = 0;
    while k < required.len()
        invariant
            k <= required.len(),
            r@ == join_with(views(required@).take(k as int), ", "@),
        decreases required.len() - k,
    {
        let ghost before = r@;
        if k > 0 {
            push_str(&mut r, ", ");
        }
        push_str(&mut r, required[k].as_str());
        proof {
            let t = views(required@).take(k + 1);
            assert(t.drop_last() =~= views(required@).take(k as int));
            assert(t.last() == required@[k as int]@);
            if k == 0 {
                assert(r@ =~= t[0]);
            }
        }
        k += 1;
    }
    assert(views(required@).take(required.len() as int) =~= views(required@));
    r
}

impl ParsedDocument {
    /// Builds the document from the outline of its Markdown tree and the string-valued
    /// entries of its frontmatter (`None` when it has no frontmatter), checking, in order: the
    /// `.md` path, a non-empty first H1, the frontmatter and its `schema`, each required
    /// section occurring exactly once, and the exact sequence of section titles.
    pub fn from_outline(
        path: &str,
        source: &str,
        schema: &DocumentSchema,
        nodes: &Vec<MdNode>,
        frontmatter: Option<Vec<(String, String)>>,
    ) -> (r: Result<Self, String>)
        requires
            well_formed(nodes@),
        ensures
            match document_spec(
                path@,
                source@,
                schema.name@,
                views(schema.required_sections@),
                nodes@,
                match frontmatter {
                    Some(e) => Some(entries_view(e@)),
                    None => None,
                },
            ) {
                Ok(d) => r matches Ok(doc) && doc@ == d,
                Err(m) => r matches Err(e) && e@ == m,
            },
    {
        if !has_md_suffix(path) {
            let mut m = String::new();
            push_str(&mut m, "document path must end with .md: ");
            push_str(&mut m, path);
            return Err(m);
        }
        let h1 = match find_first_h1(nodes) {
            Some(i) => trimmed_text(nodes, i),
            None => {
                return Err(crate::text::to_string("document must contain an H1"));
            },
        };
        if h1.as_str().is_empty() {
            return Err(crate::text::to_string("document must contain an H1"));
        }
        let named = !schema.name.as_str().is_empty();
        let entries = match frontmatter {
            Some(e) => e,
            None => {
                if named {
                    return Err(crate::text::to_string("document must contain frontmatter"));
                }
                let empty: Vec<(String, String)> = Vec::new();
                assert(entries_view(empty@) =~= Seq::<(Seq<char>, Seq<char>)>::empty());
                empty
            },
        };
        if named {
            match lookup_entry(&entries, "schema") {
                None => {
                    return Err(crate::text::to_string("frontmatter schema is missing"));
                },
                Some(actual) => {
                    if !str_eq(actual.as_str(), schema.name.as_str()) {
                        let mut m = String::new();
                        push_str(&mut m, "unsupported schema: ");
                        push_str(&mut m, actual.as_str());
                        return Err(m);
                    }
                },
            }
        }
        let sections = build_sections(source, nodes);
        check_required(&sections, &schema.required_sections)?;
        if schema.required_sections.len() > 0 && !titles_match(&sections, &schema.required_sections) {
            let mut m = String::new();
            push_str(&mut m, "document sections must be exactly: ");
            let joined = join_titles(&schema.required_sections);
            push_str(&mut m, joined.as_str());
            return Err(m);
        }
        let (frontmatter_start, frontmatter_end) = frontmatter_range_of(source, nodes);
        Ok(ParsedDocument { h1, frontmatter: entries, frontmatter_start, frontmatter_end, sections })
    }
}

/// The first section with the title.
pub open spec fn find_section(secs: Seq<SectionView>, title: Seq<char>) -> Option<int>
    decreases secs.len(),
{
    if secs.len() == 0 {
        None
    } else {
        match find_section(secs.drop_last(), title) {
            Some(i) => Some(i),
            None => if secs.last().title == title {
                Some(secs.len() - 1)
            } else {
                None
            },
        }
    }
}

/// The outcome of parsing a document, by its views.
pub open spec fn doc_outcome(r: Result<ParsedDocument, String>) -> Result<DocumentView, Seq<char>> {
    match r {
        Ok(d) => Ok(d@),
        Err(e) => Err(e@),
    }
}

/// The outline and frontmatter of the source's parse make `outcome` under the schema.
pub open spec fn parsed_as(
    path: Seq<char>,
    source: Seq<char>,
    name: Seq<char>,
    required: Seq<Seq<char>>,
    outcome: Result<DocumentView, Seq<char>>,
) -> bool {
    exists|nodes: Seq<MdNode>, fm: Option<Seq<(Seq<char>, Seq<char>)>>|
        #![trigger document_spec(path, source, name, required, nodes, fm)]
        document_read(source, nodes, fm) && document_spec(path, source, name, required, nodes, fm) == outcome
}

impl ParsedDocument {
    /// Parses a document against a schema: the path must end with `.md`, the Markdown must
    /// parse, and the result is what [`ParsedDocument::from_outline`] makes of the parsed
    /// outline and frontmatter.
    pub fn parse(path: &str, source: &str, schema: &DocumentSchema) -> (r: Result<Self, String>)
        ensures
            !ends_with(path@, ".md"@) ==> (r matches Err(e) && e@ == "document path must end with .md: "@ + path@),
            r matches Ok(doc) ==> exists|nodes: Seq<MdNode>, fm: Option<Seq<(Seq<char>, Seq<char>)>>|
                document_read(source@, nodes, fm) && document_spec(
                    path@,
                    source@,
                    schema.name@,
                    views(schema.required_sections@),
                    nodes,
                    fm,
                ) == Ok::<DocumentView, Seq<char>>(doc@),
            ends_with(path@, ".md"@) && !markdown_accepts(source@, false, usize::MAX) ==> r is Err,
            ends_with(path@, ".md"@) && markdown_accepts(source@, false, usize::MAX) ==> parsed_as(
                path@,
                source@,
                schema.name@,
                views(schema.required_sections@),
                doc_outcome(r),
            ),
    {
        if !has_md_suffix(path) {
            let mut m = String::new();
            push_str(&mut m, "document path must end with .md: ");
            push_str(&mut m, path);
            return Err(m);
        }
        let (nodes, frontmatter) = match crate::markdown::document_outline(source) {
            Ok(o) => o,
            Err(e) => {
                let mut m = String::new();
                push_str(&mut m, "invalid Markdown: ");
                push_str(&mut m, e.as_str());
                return Err(m);
            },
        };
        let ghost fm = match &frontmatter {
            Some(e) => Some(entries_view(e@)),
            None => None,
        };
        let r = Self::from_outline(path, source, schema, &nodes, frontmatter);
        proof {
            assert(document_spec(path@, source@, schema.name@, views(schema.required_sections@), nodes@, fm)
                == doc_outcome(r));
            if r is Ok {
                assert(document_read(source@, nodes@, fm) && document_spec(
                    path@,
                    source@,
                    schema.name@,
                    views(schema.required_sections@),
                    nodes@,
                    fm,
                ) == Ok::<DocumentView, Seq<char>>(r->Ok_0@));
            }
        }
        r
    }

    /// The document's title.
    pub fn h1(&self) -> (t: String)
        ensures
            t@ == self.h1@,
    {
        self.h1.clone()
    }

    /// The value of a string frontmatter field.
    pub fn frontmatter_string(&self, field: &str) -> (r: Option<String>)
        ensures
            match r {
                Some(v) => lookup(entries_view(self.frontmatter@), field@) == Some(v@),
                None => lookup(entries_view(self.frontmatter@), field@) is None,
            },
    {
        lookup_entry(&self.frontmatter, field)
    }

    /// The first section with the title.
    pub fn section(&self, title: &str) -> (r: Result<Section, String>)
        ensures
            match find_section(section_views(self.sections@), title@) {
                Some(i) => r matches Ok(s) && s@ == self.sections@[i]@,
                None => r matches Err(e) && e@ == "missing required section: "@ + title@,
            },
    {
        let ghost sv = section_views(self.sections@);
        let mut k: usize = 0;
        while k < self.sections.len()
            invariant
                k <= self.sections.len(),
                sv == section_views(self.sections@),
                find_section(sv.take(k as int), title@) is None,
            decreases self.sections.len() - k,
        {
            assert(sv.take(k + 1).drop_last() =~= sv.take(k as int));
            if str_eq(self.sections[k].title.as_str(), title) {
                proof {
                    lemma_find_section_extends(sv, k + 1);
                }
                let s = &self.sections[k];
                return Ok(Section { title: s.title.clone(), body_start: s.body_start, body_end: s.body_end });
            }
            k += 1;
        }
        assert(sv.take(self.sections.len() as int) =~= sv);
        let mut m = String::new();
        push_str(&mut m, "missing required section: ");
        push_str(&mut m, title);
        Err(m)
    }
}

/// A section's body range lies on character boundaries of the source, in order.
pub open spec fn fits(source: Seq<char>, s: SectionView) -> bool {
    s.body_start <= s.body_end && is_boundary(source, s.body_start) && is_boundary(source, s.body_end)
}

/// The source with the section's body replaced by the trimmed body, set off by a line break
/// before it and a blank line after it.
pub open spec fn replace_body_spec(source: Seq<char>, s: SectionView, body: Seq<char>) -> Seq<char> {
    slice_spec(source, 0, s.body_start) + "\n"@ + trim(body) + "\n\n"@ + slice_spec(
        source,
        s.body_end,
        byte_len(source) as int,
    )
}

/// The source with the trimmed body added to the section's trimmed body, a blank line
/// between them when the section already had text.
pub open spec fn append_body_spec(source: Seq<char>, s: SectionView, body: Seq<char>) -> Seq<char> {
    let current = trim(slice_spec(source, s.body_start, s.body_end));
    let combined = if current.len() == 0 {
        trim(body)
    } else {
        current + "\n\n"@ + trim(body)
    };
    replace_body_spec(source, s, combined)
}

impl ParsedDocument {
    /// The byte range of the body of the first section with the title.
    pub fn section_body_range(&self, title: &str) -> (r: Result<std::ops::Range<usize>, String>)
        ensures
            match find_section(section_views(self.sections@), title@) {
                Some(i) => r matches Ok(x) && x.start == self.sections@[i].body_start && x.end
                    == self.sections@[i].body_end,
                None => r matches Err(e) && e@ == "missing required section: "@ + title@,
            },
    {
        match self.section(title) {
            Ok(s) => Ok(s.body_start..s.body_end),
            Err(e) => Err(e),
        }
    }

    /// Replaces the body of the first section with the title (see `replace_body_spec`).
    pub fn replace_section(&self, source: &str, title: &str, body: &str) -> (r: Result<String, String>)
        requires
            find_section(section_views(self.sections@), title@) matches Some(i) ==> fits(
                source@,
                self.sections@[i]@,
            ),
        ensures
            match find_section(section_views(self.sections@), title@) {
                Some(i) => r matches Ok(t) && t@ == replace_body_spec(source@, self.sections@[i]@, body@),
                None => r matches Err(e) && e@ == "missing required section: "@ + title@,
            },
    {
        let section = self.section(title)?;
        Ok(replaced_body(source, &section, body))
    }

    /// Appends to the body of the first section with the title (see `append_body_spec`).
    pub fn append_section(&self, source: &str, title: &str, body: &str) -> (r: Result<String, String>)
        requires
            find_section(section_views(self.sections@), title@) matches Some(i) ==> fits(
                source@,
                self.sections@[i]@,
            ),
        ensures
            match find_section(section_views(self.sections@), title@) {
                Some(i) => r matches Ok(t) && t@ == append_body_spec(source@, self.sections@[i]@, body@),
                None => r matches Err(e) && e@ == "missing required section: "@ + title@,
            },
    {
        let section = self.section(title)?;
        let current = trimmed(section.body(source).as_str());
        let added = trimmed(body);
        let combined = if current.as_str().is_empty() {
            added
        } else {
            let mut c = current;
            push_str(&mut c, "\n\n");
            push_str(&mut c, added.as_str());
            c
        };
        proof {
            reveal_strlit("\n\n");
        }
        Ok(replaced_body(source, &section, combined.as_str()))
    }

    /// Sets a frontmatter field inside the document's frontmatter range (see
    /// `replace_field_spec`).
    pub fn replace_frontmatter_field(&self, source: &str, field: &str, value: &str) -> (r: Result<String, String>)
        ensures
            match replace_field_spec(
                source@,
                (self.frontmatter_start as nat, self.frontmatter_end as nat),
                field@,
                value@,
            ) {
                Ok(t) => r matches Ok(x) && x@ == t,
                Err(m) => r matches Err(e) && e@ == m,
            },
    {
        set_field_in_range(source, (self.frontmatter_start, self.frontmatter_end), field, value)
    }
}

fn trimmed(t: &str) -> (r: String)
    ensures
        r@ == trim(t@),
{
    let cs = chars_of(t);
    let (a, b) = trim_bounds(&cs, 0, cs.len());
    assert(cs@.subrange(0, cs.len() as int) =~= cs@);
    string_of(&cs, a, b)
}

fn replaced_body(source: &str, section: &Section, body: &str) -> (r: String)
    ensures
        r@ == replace_body_spec(source@, section@, body@),
{
    let mut out = slice_text(source, 0, section.body_start);
    push_str(&mut out, "\n");
    let b = trimmed(body);
    push_str(&mut out, b.as_str());
    push_str(&mut out, "\n\n");
    let tail = slice_text(source, section.body_end, str_byte_len(source));
    push_str(&mut out, tail.as_str());
    out
}

/// A document that a schema with required sections accepts has each of them exactly once,
/// in the schema's order, whatever other sections it has.
pub proof fn lemma_accepted_titles(
    path: Seq<char>,
    source: Seq<char>,
    name: Seq<char>,
    required: Seq<Seq<char>>,
    nodes: Seq<MdNode>,
    fm: Option<Seq<(Seq<char>, Seq<char>)>>,
)
    requires
        required.len() > 0,
        document_spec(path, source, name, required, nodes, fm) is Ok,
    ensures
        required_order(document_spec(path, source, name, required, nodes, fm)->Ok_0.sections, required)
            == required,
        forall|t: Seq<char>|
            #![trigger required.contains(t)]
            required.contains(t) ==> title_count(
                document_spec(path, source, name, required, nodes, fm)->Ok_0.sections,
                t,
            ) == 1,
{
    let d = document_spec(path, source, name, required, nodes, fm)->Ok_0;
    assert forall|t: Seq<char>| #![trigger required.contains(t)] required.contains(t) implies title_count(
        d.sections,
        t,
    ) == 1 by {
        let j = choose|j: int| 0 <= j < required.len() && required[j] == t;
        lemma_required_error_none(d.sections, required, j);
    }
}

/// The first section with the title has that title.
pub proof fn lemma_find_section(secs: Seq<SectionView>, title: Seq<char>)
    ensures
        find_section(secs, title) matches Some(i) ==> 0 <= i < secs.len() && secs[i].title == title,
    decreases secs.len(),
{
    if secs.len() > 0 {
        lemma_find_section(secs.drop_last(), title);
    }
}

proof fn lemma_find_section_extends(secs: Seq<SectionView>, n: int)
    requires
        0 <= n <= secs.len(),
        find_section(secs.take(n), secs[n - 1].title) is Some,
    ensures
        find_section(secs, secs[n - 1].title) == find_section(secs.take(n), secs[n - 1].title),
    decreases secs.len() - n,
{
    let t = secs[n - 1].title;
    if n < secs.len() {
        assert(secs.take(n + 1).drop_last() =~= secs.take(n));
        lemma_find_section_extends_title(secs, n + 1, t);
    } else {
        assert(secs.take(n) =~= secs);
    }
}

proof fn lemma_find_section_extends_title(secs: Seq<SectionView>, n: int, t: Seq<char>)
    requires
        0 <= n <= secs.len(),
        find_section(secs.take(n), t) is Some,
    ensures
        find_section(secs, t) == find_section(secs.take(n), t),
    decreases secs.len() - n,
{
    if n < secs.len() {
        assert(secs.take(n + 1).drop_last() =~= secs.take(n));
        lemma_find_section_extends_title(secs, n + 1, t);
    } else {
        assert(secs.take(n) =~= secs);
    }
}

impl Section {
    /// The section's body text (the bytes between its bounds, clamped to the source).
    pub fn body(&self, source: &str) -> (t: String)
        ensures
            t@ == slice_spec(source@, self.body_start as int, self.body_end as int),
    {
        slice_text(source, self.body_start, self.body_end)
    }

    /// Whether the one-based line starts inside the section's body.
    pub fn contains_line(&self, source: &str, line: u64) -> (b: bool)
        ensures
            b == (self.body_start <= crate::parser::line_start_spec(source.spec_bytes(), line as int)
                && crate::parser::line_start_spec(source.spec_bytes(), line as int) < self.body_end),
    {
        let offset = crate::parser::byte_offset_for_line(source, line);
        self.body_start <= offset && offset < self.body_end
    }
}

} // verus!
