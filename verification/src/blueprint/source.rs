//! The central Blueprint document (`blueprint/v3`): frontmatter, a title, and its sections,
//! among them the Todo graph written as nested task lists, and the Evidence and Revision
//! History entries marked by block IDs.
use vstd::prelude::*;

use crate::blueprint::body::{failure_message, parse_spec};
use crate::blueprint::document::{
    DocumentSchema, DocumentView, ParsedDocument, Section, SectionView, doc_outcome,
    document_spec, ends_with, find_section, parsed_as, views,
};
use crate::blueprint::graph::{GraphNodeView, graph_nodes_from_outline, graph_spec, graph_views};
use crate::blueprint::model::{
    BlueprintState, CheckItem, EvidenceItem, RevisionEntry, TodoGraphNode, state_error,
    state_name,
};
use crate::blueprint::todo::{
    TodoDetailView, body_of, check_items, check_items_of, check_view, evidence_items,
    external_section_text, external_text, required_field, required_frontmatter,
    revision_entries, section_body, section_entries,
};
use crate::markdown::{MdKind, MdNode, document_nodes, document_read, markdown_accepts, well_formed};
use crate::parser::{char_at, slice_spec, slice_text, starts_with};
use crate::text::{
    byte_len, chars_of, find_chars, find_from, is_boundary, lemma_find_from, line_bounds,
    lines_spec, ranges_in, ranges_view, skip_ws, split_on, split_ranges, str_byte_len,
    string_of, trim, trim_bounds, trim_start,
};

verus! {

/// The starts and IDs of the nodes among the first `k` whose block ID begins with `prefix`.
pub open spec fn entry_starts(nodes: Seq<MdNode>, prefix: Seq<char>, k: int) -> Seq<(int, Seq<char>)>
    decreases k,
{
    if k <= 0 {
        seq![]
    } else {
        let n = nodes[k - 1];
        match n.block_id {
            Some(id) => if starts_with(id@, prefix) {
                entry_starts(nodes, prefix, k - 1).push((n.start as int, id@))
            } else {
                entry_starts(nodes, prefix, k - 1)
            },
            None => entry_starts(nodes, prefix, k - 1),
        }
    }
}

/// The entries of a text: for each node whose block ID begins with `prefix`, its ID and the
/// text from its start to the next such node's start (or the end).
pub open spec fn entries_spec(source: Seq<char>, prefix: Seq<char>, nodes: Seq<MdNode>) -> Seq<
    (Seq<char>, Seq<char>),
> {
    let st = entry_starts(nodes, prefix, nodes.len() as int);
    Seq::new(
        st.len(),
        |k: int|
            (
                st[k].1,
                slice_spec(
                    source,
                    st[k].0,
                    if k + 1 < st.len() { st[k + 1].0 } else { byte_len(source) as int },
                ),
            ),
    )
}

pub open spec fn pairs_view(v: Seq<(String, String)>) -> Seq<(Seq<char>, Seq<char>)> {
    v.map_values(|p: (String, String)| (p.0@, p.1@))
}

fn has_prefix(s: &String, prefix: &Vec<char>) -> (b: bool)
    ensures
        b == starts_with(s@, prefix@),
{
    let cs = chars_of(s.as_str());
    if cs.len() < prefix.len() {
        return false;
    }
    let mut k: usize = 0;
    while k < prefix.len()
        invariant
            prefix.len() <= cs.len(),
            k <= prefix.len(),
            cs@ == s@,
            forall|j: int| 0 <= j < k ==> cs@[j] == prefix@[j],
        decreases prefix.len() - k,
    {
        if cs[k] != prefix[k] {
            assert(cs@.take(prefix.len() as int)[k as int] != prefix@[k as int]);
            return false;
        }
        k += 1;
    }
    assert(cs@.take(prefix.len() as int) =~= prefix@);
    true
}

/// The entries of a text with the given outline (see `entries_spec`).
pub fn entries_from_outline(source: &str, prefix: &str, nodes: &Vec<MdNode>) -> (r: Vec<
    (String, String),
>)
    ensures
        pairs_view(r@) == entries_spec(source@, prefix@, nodes@),
{
    let p = chars_of(prefix);
    let mut starts: Vec<(usize, String)> = Vec::new();
    let mut k: usize = 0;
    while k < nodes.len()
        invariant
            k <= nodes.len(),
            p@ == prefix@,
            starts@.map_values(|x: (usize, String)| (x.0 as int, x.1@)) == entry_starts(
                nodes@,
                prefix@,
                k as int,
            ),
        decreases nodes.len() - k,
    {
        if let Some(id) = &nodes[k].block_id {
            if has_prefix(id, &p) {
                let ghost before = starts@;
                starts.push((nodes[k].start, id.clone()));
                assert(starts@.map_values(|x: (usize, String)| (x.0 as int, x.1@)) =~= before.map_values(
                    |x: (usize, String)| (x.0 as int, x.1@),
                ).push((nodes@[k as int].start as int, id@)));
            }
        }
        k += 1;
    }
    let ghost st = entry_starts(nodes@, prefix@, nodes.len() as int);
    let len = str_byte_len(source);
    let mut r: Vec<(String, String)> = Vec::new();
    let mut i: usize = 0;
    while i < starts.len()
        invariant
            i <= starts.len(),
            st == starts@.map_values(|x: (usize, String)| (x.0 as int, x.1@)),
            st == entry_starts(nodes@, prefix@, nodes.len() as int),
            len == byte_len(source@),
            r.len() == i,
            pairs_view(r@) == entries_spec(source@, prefix@, nodes@).take(i as int),
        decreases starts.len() - i,
    {
        let end = if i + 1 < starts.len() {
            starts[i + 1].0
        } else {
            len
        };
        let text = slice_text(source, starts[i].0, end);
        let ghost before = r@;
        let id = starts[i].1.clone();
        proof {
            let es = entries_spec(source@, prefix@, nodes@);
            assert(st.len() == starts.len());
            assert(st[i as int] == (starts@[i as int].0 as int, starts@[i as int].1@));
            if i + 1 < starts.len() {
                assert(st[i + 1].0 == starts@[i + 1].0 as int);
            }
            assert(es.len() == st.len());
            assert(es[i as int].0 == st[i as int].1);
            assert(es[i as int].1 == slice_spec(
                source@,
                st[i as int].0,
                if i + 1 < st.len() { st[i + 1].0 } else { byte_len(source@) as int },
            ));
            assert(es[i as int] == (id@, text@));
        }
        r.push((id, text));
        assert(pairs_view(r@) =~= pairs_view(before).push((r@[i as int].0@, r@[i as int].1@)));
        assert(pairs_view(r@) =~= entries_spec(source@, prefix@, nodes@).take(i + 1));
        i += 1;
    }
    assert(entries_spec(source@, prefix@, nodes@).take(starts.len() as int) =~= entries_spec(
        source@,
        prefix@,
        nodes@,
    ));
    r
}

/// The entries of a Markdown text whose block IDs begin with `prefix` (see
/// [`entries_from_outline`]); none when the text does not parse.
pub fn markdown_entries(source: &str, prefix: &str) -> (r: Vec<(String, String)>)
    ensures
        r.len() > 0 ==> exists|nodes: Seq<MdNode>|
            document_nodes(source@, nodes) && pairs_view(r@) == entries_spec(source@, prefix@, nodes),
        !markdown_accepts(source@, false, usize::MAX) ==> r.len() == 0,
        markdown_accepts(source@, false, usize::MAX) ==> exists|nodes: Seq<MdNode>|
            document_nodes(source@, nodes) && pairs_view(r@) == entries_spec(source@, prefix@, nodes),
{
    match crate::markdown::document_outline(source) {
        Ok((nodes, _)) => entries_from_outline(source, prefix, &nodes),
        Err(_) => Vec::new(),
    }
}

/// A line that ends the field lines of a task: the next task, or a `##` heading.
pub open spec fn field_stop(l: Seq<char>) -> bool {
    starts_with(trim_start(l), "- ["@) || starts_with(l, "## "@)
}

/// The position of the first line that ends the field lines, or the number of lines.
pub open spec fn first_stop(ls: Seq<Seq<char>>) -> int
    decreases ls.len(),
{
    if ls.len() == 0 {
        0
    } else if field_stop(ls[0]) {
        0
    } else {
        1 + first_stop(ls.drop_first())
    }
}

/// The field lines of the task on line `line` (one-based): the lines after it, up to the next
/// task or `##` heading.
pub open spec fn field_lines(source: Seq<char>, line: int) -> Seq<Seq<char>> {
    let all = lines_spec(source);
    let rest = all.skip(if line < all.len() { line } else { all.len() as int });
    rest.take(first_stop(rest))
}

/// The value a line gives the field: the trimmed text after `- Field:` on the trimmed line.
pub open spec fn field_in(l: Seq<char>, field: Seq<char>) -> Option<Seq<char>> {
    let t = trim(l);
    let p = "- "@ + field + ":"@;
    if starts_with(t, p) {
        Some(trim(t.skip(p.len() as int)))
    } else {
        None
    }
}

/// The value of the first line among `ls` that gives the field.
pub open spec fn first_field(ls: Seq<Seq<char>>, field: Seq<char>) -> Option<Seq<char>>
    decreases ls.len(),
{
    if ls.len() == 0 {
        None
    } else if field_in(ls[0], field) is Some {
        field_in(ls[0], field)
    } else {
        first_field(ls.drop_first(), field)
    }
}

/// A task's field: the first of its field lines that gives it, when its value is not empty.
pub open spec fn field_value_spec(source: Seq<char>, line: int, field: Seq<char>) -> Option<Seq<char>> {
    match first_field(field_lines(source, line), field) {
        Some(v) => if v.len() > 0 {
            Some(v)
        } else {
            None
        },
        None => None,
    }
}

/// The non-empty values that the lines give the field, in order.
pub open spec fn all_fields(ls: Seq<Seq<char>>, field: Seq<char>) -> Seq<Seq<char>>
    decreases ls.len(),
{
    if ls.len() == 0 {
        seq![]
    } else {
        match field_in(ls[0], field) {
            Some(v) => if v.len() > 0 {
                seq![v] + all_fields(ls.drop_first(), field)
            } else {
                all_fields(ls.drop_first(), field)
            },
            None => all_fields(ls.drop_first(), field),
        }
    }
}

/// A repeated task field: the non-empty values its field lines give it, in order.
pub open spec fn field_values_spec(source: Seq<char>, line: int, field: Seq<char>) -> Seq<Seq<char>> {
    all_fields(field_lines(source, line), field)
}

/// The trimmed, non-empty items of a comma-separated list, in order.
pub open spec fn csv_items(ps: Seq<Seq<char>>) -> Seq<Seq<char>>
    decreases ps.len(),
{
    if ps.len() == 0 {
        seq![]
    } else if trim(ps.last()).len() > 0 {
        csv_items(ps.drop_last()).push(trim(ps.last()))
    } else {
        csv_items(ps.drop_last())
    }
}

/// The value the line `cs[a..b]` gives the field, if any.
fn field_of_line(cs: &Vec<char>, a: usize, b: usize, prefix: &Vec<char>) -> (r: Option<String>)
    requires
        a <= b <= cs.len(),
    ensures
        match r {
            Some(v) => {
                let t = trim(cs@.subrange(a as int, b as int));
                starts_with(t, prefix@) && v@ == trim(t.skip(prefix@.len() as int))
            },
            None => !starts_with(trim(cs@.subrange(a as int, b as int)), prefix@),
        },
{
    let (x, y) = trim_bounds(cs, a, b);
    let ghost t = cs@.subrange(x as int, y as int);
    assert(t == trim(cs@.subrange(a as int, b as int)));
    if y - x < prefix.len() {
        assert(t.len() < prefix@.len());
        return None;
    }
    let mut k: usize = 0;
    while k < prefix.len()
        invariant
            x + prefix.len() <= y <= cs.len(),
            a <= b <= cs.len(),
            k <= prefix.len(),
            t == cs@.subrange(x as int, y as int),
            t == trim(cs@.subrange(a as int, b as int)),
            forall|q: int| 0 <= q < k ==> cs@[x + q] == prefix@[q],
        decreases prefix.len() - k,
    {
        if cs[x + k] != prefix[k] {
            assert(t.take(prefix.len() as int)[k as int] != prefix@[k as int]);
            assert(t == trim(cs@.subrange(a as int, b as int)));
            return None;
        }
        k += 1;
    }
    assert(t.take(prefix.len() as int) =~= prefix@);
    let (v0, v1) = trim_bounds(cs, x + prefix.len(), y);
    assert(t.skip(prefix@.len() as int) =~= cs@.subrange(x + prefix.len(), y as int));
    Some(string_of(cs, v0, v1))
}

fn is_field_stop(cs: &Vec<char>, a: usize, b: usize) -> (r: bool)
    requires
        a <= b <= cs.len(),
    ensures
        r == field_stop(cs@.subrange(a as int, b as int)),
{
    let ghost l = cs@.subrange(a as int, b as int);
    let s = skip_ws(cs, a, b);
    let ghost ts = trim_start(l);
    assert(ts =~= cs@.subrange(s as int, b as int));
    let task = b - s >= 3 && cs[s] == '-' && cs[s + 1] == ' ' && cs[s + 2] == '[';
    let heading = b - a >= 3 && cs[a] == '#' && cs[a + 1] == '#' && cs[a + 2] == ' ';
    proof {
        reveal_strlit("- [");
        reveal_strlit("## ");
        if task {
            assert(ts.take(3) =~= "- ["@);
        } else if ts.len() >= 3 {
            assert(ts.take(3)[0] == ts[0] && ts.take(3)[1] == ts[1] && ts.take(3)[2] == ts[2]);
        }
        if heading {
            assert(l.take(3) =~= "## "@);
        } else if l.len() >= 3 {
            assert(l.take(3)[0] == l[0] && l.take(3)[1] == l[1] && l.take(3)[2] == l[2]);
        }
    }
    task || heading
}

/// The field lines of the task on line `line` (see `field_lines`), as bounds into `cs`.
fn field_line_bounds(cs: &Vec<char>, line: u64) -> (r: Vec<(usize, usize)>)
    ensures
        ranges_in(cs@, r@),
        ranges_view(cs@, r@) == field_lines(cs@, line as int),
{
    let all = line_bounds(cs);
    let ghost ls = lines_spec(cs@);
    let start: usize = if (line as u128) < (all.len() as u128) {
        line as usize
    } else {
        all.len()
    };
    let ghost rest = ls.skip(start as int);
    assert(rest.skip(0) =~= rest);
    let mut r: Vec<(usize, usize)> = Vec::new();
    let mut k = start;
    let mut stopped = false;
    while k < all.len() && !stopped
        invariant
            start <= k <= all.len(),
            ranges_in(cs@, all@),
            ranges_view(cs@, all@) == ls,
            rest == ls.skip(start as int),
            ranges_in(cs@, r@),
            r.len() == k - start,
            ranges_view(cs@, r@) =~= rest.take(k - start),
            first_stop(rest) == (k - start) + first_stop(rest.skip(k - start)),
            stopped ==> first_stop(rest.skip(k - start)) == 0,
        decreases all.len() - k + if stopped { 0int } else { 1int },
    {
        let (a, b) = all[k];
        assert(all@[k as int].0 <= all@[k as int].1 <= cs.len());
        assert(rest.skip(k - start)[0] == cs@.subrange(a as int, b as int));
        if is_field_stop(cs, a, b) {
            stopped = true;
        } else {
            proof {
                assert(rest.skip(k - start).drop_first() =~= rest.skip(k - start + 1));
            }
            let ghost before = r@;
            r.push((a, b));
            proof {
                assert forall|q: int| 0 <= q < r@.len() implies ranges_view(cs@, r@)[q] == rest.take(k - start + 1)[q] by {
                    if q < k - start {
                        assert(r@[q] == before[q]);
                        assert(ranges_view(cs@, before)[q] == rest.take(k - start)[q]);
                    } else {
                        assert(r@[q] == (a, b));
                    }
                }
            }
            k += 1;
        }
    }
    proof {
        if !stopped {
            assert(rest.skip(k - start).len() == 0);
        }
        assert(first_stop(rest) == k - start);
        assert(rest.take(first_stop(rest)) =~= rest.take(k - start));
    }
    r
}

fn field_prefix(field: &str) -> (p: Vec<char>)
    ensures
        p@ == "- "@ + field@ + ":"@,
{
    let mut s = String::new();
    crate::text::push_str(&mut s, "- ");
    crate::text::push_str(&mut s, field);
    crate::text::push_str(&mut s, ":");
    chars_of(s.as_str())
}

/// A task's field (see `field_value_spec`).
pub fn field_value(source: &str, task_line: u64, field: &str) -> (r: Option<String>)
    ensures
        match r {
            Some(v) => field_value_spec(source@, task_line as int, field@) == Some(v@),
            None => field_value_spec(source@, task_line as int, field@) is None,
        },
{
    let cs = chars_of(source);
    let rs = field_line_bounds(&cs, task_line);
    let ghost ls = field_lines(cs@, task_line as int);
    let prefix = field_prefix(field);
    let mut k: usize = 0;
    assert(ls.skip(0) =~= ls);
    while k < rs.len()
        invariant
            k <= rs.len(),
            cs@ == source@,
            ls == field_lines(cs@, task_line as int),
            ranges_in(cs@, rs@),
            ranges_view(cs@, rs@) == ls,
            prefix@ == "- "@ + field@ + ":"@,
            first_field(ls, field@) == first_field(ls.skip(k as int), field@),
        decreases rs.len() - k,
    {
        let (a, b) = rs[k];
        assert(rs@[k as int].0 <= rs@[k as int].1 <= cs.len());
        assert(ls.skip(k as int)[0] == cs@.subrange(a as int, b as int));
        assert(ls.skip(k as int).drop_first() =~= ls.skip(k + 1));
        match field_of_line(&cs, a, b, &prefix) {
            Some(v) => {
                if v.as_str().is_empty() {
                    return None;
                }
                return Some(v);
            },
            None => {},
        }
        k += 1;
    }
    None
}

/// A repeated task field (see `field_values_spec`).
pub fn field_values(source: &str, task_line: u64, field: &str) -> (r: Vec<String>)
    ensures
        r@.map_values(|v: String| v@) == field_values_spec(source@, task_line as int, field@),
{
    let cs = chars_of(source);
    let rs = field_line_bounds(&cs, task_line);
    let ghost ls = field_lines(cs@, task_line as int);
    let prefix = field_prefix(field);
    let mut r: Vec<String> = Vec::new();
    let mut k: usize = 0;
    assert(ls.skip(0) =~= ls);
    while k < rs.len()
        invariant
            k <= rs.len(),
            ranges_in(cs@, rs@),
            ranges_view(cs@, rs@) == ls,
            cs@ == source@,
            ls == field_lines(cs@, task_line as int),
            prefix@ == "- "@ + field@ + ":"@,
            all_fields(ls, field@) == r@.map_values(|v: String| v@) + all_fields(ls.skip(k as int), field@),
        decreases rs.len() - k,
    {
        let (a, b) = rs[k];
        assert(rs@[k as int].0 <= rs@[k as int].1 <= cs.len());
        assert(ls.skip(k as int)[0] == cs@.subrange(a as int, b as int));
        assert(ls.skip(k as int).drop_first() =~= ls.skip(k + 1));
        match field_of_line(&cs, a, b, &prefix) {
            Some(v) => {
                if !v.as_str().is_empty() {
                    let ghost before = r@;
                    r.push(v);
                    assert(r@.map_values(|v: String| v@) =~= before.map_values(|v: String| v@).push(
                        r@[before.len() as int]@,
                    ));
                }
            },
            None => {},
        }
        k += 1;
    }
    r
}

/// The trimmed, non-empty items of a comma-separated list.
pub fn split_csv(value: &str) -> (r: Vec<String>)
    ensures
        r@.map_values(|v: String| v@) == csv_items(split_on(value@, ',')),
{
    let cs = chars_of(value);
    let rs = split_ranges(&cs, 0, cs.len(), ',');
    assert(cs@.subrange(0, cs.len() as int) =~= cs@);
    let ghost ps = split_on(value@, ',');
    let mut r: Vec<String> = Vec::new();
    let mut k: usize = 0;
    while k < rs.len()
        invariant
            k <= rs.len(),
            ranges_in(cs@, rs@),
            ranges_view(cs@, rs@) =~~= ps,
            r@.map_values(|v: String| v@) == csv_items(ps.take(k as int)),
        decreases rs.len() - k,
    {
        let (a, b) = rs[k];
        assert(rs@[k as int].0 <= rs@[k as int].1 <= cs.len());
        let (x, y) = trim_bounds(&cs, a, b);
        proof {
            assert(ps[k as int] =~= cs@.subrange(a as int, b as int));
            assert(ps.take(k + 1).drop_last() =~= ps.take(k as int));
            assert(ps.take(k + 1).last() == ps[k as int]);
        }
        if x < y {
            let ghost before = r@;
            let item = string_of(&cs, x, y);
            r.push(item);
            assert(r@.map_values(|v: String| v@) =~= before.map_values(|v: String| v@).push(item@));
        }
        k += 1;
    }
    assert(ps.take(rs.len() as int) =~= ps);
    r
}

/// The title and document of a Todo line written as `- [m] [Title](document)`: the text
/// from byte 3 after `- [`, up to the first `[`, the `](` after it and the `)` after that;
/// both parts trimmed and non-empty.
pub open spec fn markdown_link_spec(line: Seq<char>) -> Option<(Seq<char>, Seq<char>)> {
    let t = trim_start(line);
    if !starts_with(t, "- ["@) {
        None
    } else {
        let rest = t.skip(3);
        if !is_boundary(rest, 3) {
            None
        } else {
            let task = trim_start(rest.skip(char_at(rest, 3)));
            match find_from(task, seq!['['], 0) {
                None => None,
                Some(open) => match find_from(task, seq![']', '('], open) {
                    None => None,
                    Some(close) => match find_from(task, seq![')'], close + 2) {
                        None => None,
                        Some(end) => {
                            let title = trim(task.subrange(open + 1, close));
                            let doc = trim(task.subrange(close + 2, end));
                            if title.len() > 0 && doc.len() > 0 {
                                Some((title, doc))
                            } else {
                                None
                            }
                        },
                    },
                },
            }
        }
    }
}

/// The title and document of a Todo line written as `- [m] [Title](document)` (see
/// `markdown_link_spec`).
#[verifier::spinoff_prover]
#[verifier::rlimit(50)]
pub fn standard_markdown_link(line: &str) -> (r: Option<(String, String)>)
    ensures
        match r {
            Some((t, d)) => markdown_link_spec(line@) == Some((t@, d@)),
            None => markdown_link_spec(line@) is None,
        },
{
    let cs = chars_of(line);
    let s0 = skip_ws(&cs, 0, cs.len());
    let ghost t = trim_start(cs@);
    assert(cs@.subrange(0, cs.len() as int) =~= cs@);
    assert(t =~= cs@.subrange(s0 as int, cs.len() as int));
    proof {
        reveal_strlit("- [");
    }
    if !(cs.len() - s0 >= 3 && cs[s0] == '-' && cs[s0 + 1] == ' ' && cs[s0 + 2] == '[') {
        proof {
            if t.len() >= 3 {
                assert(t.take(3)[0] == t[0] && t.take(3)[1] == t[1] && t.take(3)[2] == t[2]);
            }
        }
        return None;
    }
    assert(t.take(3) =~= "- ["@);
    let r0 = s0 + 3;
    let ghost rest = t.skip(3);
    assert(rest =~= cs@.subrange(r0 as int, cs.len() as int));
    let k = match crate::parser::char_at_byte(&cs, r0, cs.len(), 3) {
        Some(k) => k,
        None => {
            return None;
        },
    };
    let t0 = skip_ws(&cs, k, cs.len());
    let task = crate::parser::chars_range(&cs, t0, cs.len());
    proof {
        assert(rest == cs@.subrange(r0 as int, cs.len() as int));
        assert(char_at(rest, 3) == k - r0);
        assert(rest.skip(k - r0) =~= cs@.subrange(k as int, cs.len() as int));
        let after = cs@.subrange(k as int, cs.len() as int);
        assert(crate::text::lead_ws(after) == t0 - k);
        assert(after.skip(t0 - k) =~= cs@.subrange(t0 as int, cs.len() as int));
    }
    assert(task@ =~= trim_start(rest.skip(char_at(rest, 3))));
    let open_p = vec!['['];
    let close_p = vec![']', '('];
    let end_p = vec![')'];
    proof {
        lemma_find_from(task@, open_p@, 0);
        assert(open_p@ == seq!['[']);
        assert(close_p@ == seq![']', '(']);
        assert(end_p@ == seq![')']);
    }
    let open = match find_chars(&task, &open_p, 0) {
        Some(o) => o,
        None => {
            return None;
        },
    };
    assert(crate::text::occurs_at(task@, open_p@, open as int));
    proof {
        lemma_find_from(task@, close_p@, open as int);
    }
    let close = match find_chars(&task, &close_p, open) {
        Some(c) => c,
        None => {
            return None;
        },
    };
    assert(crate::text::occurs_at(task@, close_p@, close as int));
    proof {
        lemma_find_from(task@, end_p@, close + 2);
    }
    let end = match find_chars(&task, &end_p, close + 2) {
        Some(e) => e,
        None => {
            return None;
        },
    };
    assert(crate::text::occurs_at(task@, end_p@, end as int));
    let (a, b) = trim_bounds(&task, open + 1, close);
    let (c, d) = trim_bounds(&task, close + 2, end);
    if a == b || c == d {
        return None;
    }
    Some((string_of(&task, a, b), string_of(&task, c, d)))
}

/// The typed, aggregate view of a `blueprint/v3` document.
#[derive(Debug, PartialEq, Eq)]
pub struct BlueprintSource {
    pub id: String,
    pub state: BlueprintState,
    pub title: String,
    pub intent: String,
    pub constraints: String,
    pub definition_of_done: Vec<CheckItem>,
    pub plan: String,
    pub rubric: String,
    pub todos: Vec<TodoGraphNode>,
    pub results: String,
    pub evidence: Vec<EvidenceItem>,
    pub revisions: Vec<RevisionEntry>,
    pub notes: String,
}

/// A Blueprint by its texts.
pub struct BlueprintView {
    pub id: Seq<char>,
    pub state: BlueprintState,
    pub title: Seq<char>,
    pub intent: Seq<char>,
    pub constraints: Seq<char>,
    pub definition_of_done: Seq<(Seq<char>, bool)>,
    pub plan: Seq<char>,
    pub rubric: Seq<char>,
    pub todos: Seq<GraphNodeView>,
    pub results: Seq<char>,
    pub evidence: Seq<(Seq<char>, Seq<char>)>,
    pub revisions: Seq<(Seq<char>, Seq<char>)>,
    pub notes: Seq<char>,
}

pub open spec fn blueprint_view(b: BlueprintSource) -> BlueprintView {
    BlueprintView {
        id: b.id@,
        state: b.state,
        title: b.title@,
        intent: b.intent@,
        constraints: b.constraints@,
        definition_of_done: b.definition_of_done@.map_values(|c: CheckItem| check_view(c)),
        plan: b.plan@,
        rubric: b.rubric@,
        todos: graph_views(b.todos@),
        results: b.results@,
        evidence: b.evidence@.map_values(|e: EvidenceItem| (e.id@, e.markdown@)),
        revisions: b.revisions@.map_values(|e: RevisionEntry| (e.id@, e.markdown@)),
        notes: b.notes@,
    }
}

/// The sections of a Blueprint, in order.
pub open spec fn blueprint_sections() -> Seq<Seq<char>> {
    seq![
        "Record"@,
        "Intent"@,
        "Constraints"@,
        "Definition of Done"@,
        "Plan"@,
        "Rubric"@,
        "Todos"@,
        "Results"@,
        "Evidence"@,
        "Revision History"@,
        "Notes"@,
    ]
}

/// The lifecycle state that the frontmatter names.
pub open spec fn state_spec(d: DocumentView) -> Result<BlueprintState, Seq<char>> {
    match required_field(d, "state"@) {
        Err(m) => Err(m),
        Ok(v) => if v == state_name(BlueprintState::Active) {
            Ok(BlueprintState::Active)
        } else if v == state_name(BlueprintState::Closed) {
            Ok(BlueprintState::Closed)
        } else if v == state_name(BlueprintState::Cancelled) {
            Ok(BlueprintState::Cancelled)
        } else {
            Err(state_error(v))
        },
    }
}

/// The Blueprint a parsed `blueprint/v3` document makes, given its Todo graph and the
/// entries of its Evidence and Revision History bodies; or the first rule it breaks: its `id`
/// and `state`, its graph, then its external bodies (Rubric, Intent, Constraints and Plan
/// must hold content; Results and Notes may be blank).
pub open spec fn blueprint_spec(
    source: Seq<char>,
    d: DocumentView,
    graph: Result<Seq<GraphNodeView>, Seq<char>>,
    evidence: Seq<(Seq<char>, Seq<char>)>,
    revisions: Seq<(Seq<char>, Seq<char>)>,
) -> Result<BlueprintView, Seq<char>> {
    let id = required_field(d, "id"@);
    let state = state_spec(d);
    let rubric = external_text(source, d, "Rubric"@, true);
    let intent = external_text(source, d, "Intent"@, true);
    let constraints = external_text(source, d, "Constraints"@, true);
    let dod = section_body(source, d, "Definition of Done"@);
    let plan = external_text(source, d, "Plan"@, true);
    let results = external_text(source, d, "Results"@, false);
    let ev = section_body(source, d, "Evidence"@);
    let rv = section_body(source, d, "Revision History"@);
    let notes = external_text(source, d, "Notes"@, false);
    if id is Err {
        Err(id->Err_0)
    } else if state is Err {
        Err(state->Err_0)
    } else if graph is Err {
        Err(graph->Err_0)
    } else if rubric is Err {
        Err(rubric->Err_0)
    } else if intent is Err {
        Err(intent->Err_0)
    } else if constraints is Err {
        Err(constraints->Err_0)
    } else if dod is Err {
        Err(dod->Err_0)
    } else if plan is Err {
        Err(plan->Err_0)
    } else if results is Err {
        Err(results->Err_0)
    } else if ev is Err {
        Err(ev->Err_0)
    } else if rv is Err {
        Err(rv->Err_0)
    } else if notes is Err {
        Err(notes->Err_0)
    } else {
        Ok(
            BlueprintView {
                id: id->Ok_0,
                state: state->Ok_0,
                title: d.h1,
                intent: intent->Ok_0,
                constraints: constraints->Ok_0,
                definition_of_done: check_items_of(lines_spec(dod->Ok_0)),
                plan: plan->Ok_0,
                rubric: rubric->Ok_0,
                todos: graph->Ok_0,
                results: results->Ok_0,
                evidence,
                revisions,
                notes: notes->Ok_0,
            },
        )
    }
}

/// The schema of Blueprint documents.
pub fn blueprint_schema() -> (s: DocumentSchema)
    ensures
        s.name@ == "blueprint/v3"@,
        views(s.required_sections@) == blueprint_sections(),
{
    let mut required: Vec<String> = Vec::new();
    required.push(crate::text::to_string("Record"));
    required.push(crate::text::to_string("Intent"));
    required.push(crate::text::to_string("Constraints"));
    required.push(crate::text::to_string("Definition of Done"));
    required.push(crate::text::to_string("Plan"));
    required.push(crate::text::to_string("Rubric"));
    required.push(crate::text::to_string("Todos"));
    required.push(crate::text::to_string("Results"));
    required.push(crate::text::to_string("Evidence"));
    required.push(crate::text::to_string("Revision History"));
    required.push(crate::text::to_string("Notes"));
    assert(views(required@) =~= blueprint_sections());
    DocumentSchema { name: crate::text::to_string("blueprint/v3"), required_sections: required }
}

fn parse_state(doc: &ParsedDocument) -> (r: Result<BlueprintState, String>)
    ensures
        match state_spec(doc@) {
            Ok(v) => r == Ok::<BlueprintState, String>(v),
            Err(m) => r matches Err(e) && e@ == m,
        },
{
    let value = required_frontmatter(doc, "state")?;
    let r = BlueprintState::from_name(value.as_str());
    proof {
        reveal_strlit("active");
        reveal_strlit("closed");
        reveal_strlit("cancelled");
        assert("active"@[0] != "closed"@[0]);
        assert("active"@[0] != "cancelled"@[0]);
        assert("closed"@[1] != "cancelled"@[1]);
        assert("active"@ != "closed"@);
        assert("active"@ != "cancelled"@);
        assert("closed"@ != "cancelled"@);
    }
    r
}

/// The Blueprint of a parsed document, given its Todo graph and the entries of its Evidence
/// and Revision History bodies (see `blueprint_spec`).
pub fn blueprint_from_document(
    source: &str,
    doc: &ParsedDocument,
    graph: Result<Vec<TodoGraphNode>, String>,
    evidence: Vec<(String, String)>,
    revisions: Vec<(String, String)>,
) -> (r: Result<BlueprintSource, String>)
    ensures
        match blueprint_spec(
            source@,
            doc@,
            match &graph {
                Ok(g) => Ok(graph_views(g@)),
                Err(e) => Err(e@),
            },
            pairs_view(evidence@),
            pairs_view(revisions@),
        ) {
            Ok(v) => r matches Ok(b) && blueprint_view(b) == v,
            Err(m) => r matches Err(e) && e@ == m,
        },
{
    let id = required_frontmatter(doc, "id")?;
    let state = parse_state(doc)?;
    let todos = graph?;
    let rubric = external_section_text(doc, source, "Rubric", true)?;
    let intent = external_section_text(doc, source, "Intent", true)?;
    let constraints = external_section_text(doc, source, "Constraints", true)?;
    let dod = body_of(doc, source, "Definition of Done")?;
    let plan = external_section_text(doc, source, "Plan", true)?;
    let results = external_section_text(doc, source, "Results", false)?;
    let _evidence_body = body_of(doc, source, "Evidence")?;
    let _revision_body = body_of(doc, source, "Revision History")?;
    let notes = external_section_text(doc, source, "Notes", false)?;
    Ok(BlueprintSource {
        id,
        state,
        title: doc.h1(),
        intent,
        constraints,
        definition_of_done: check_items(dod.as_str()),
        plan,
        rubric,
        todos,
        results,
        evidence: evidence_items(evidence),
        revisions: revision_entries(revisions),
        notes,
    })
}

/// The outcome of reading a Todo graph, by its views.
pub open spec fn graph_outcome_of(r: Result<Vec<TodoGraphNode>, String>) -> Result<Seq<GraphNodeView>, Seq<char>> {
    match r {
        Ok(g) => Ok(graph_views(g@)),
        Err(e) => Err(e@),
    }
}

/// The Todo graph of the Todos section, read from the Blueprint's Markdown (see
/// [`graph_nodes_from_outline`]); the Markdown parser's refusal is reported as invalid
/// Markdown.
pub fn parse_graph_nodes(source: &str, todos_section: &Section) -> (r: Result<Vec<TodoGraphNode>, String>)
    ensures
        r matches Ok(g) ==> exists|nodes: Seq<MdNode>|
            document_nodes(source@, nodes) && graph_spec(source@, todos_section@, nodes) == Ok::<Seq<GraphNodeView>, Seq<char>>(graph_views(g@)),
        !markdown_accepts(source@, false, usize::MAX) ==> r is Err,
        markdown_accepts(source@, false, usize::MAX) ==> exists|nodes: Seq<MdNode>|
            document_nodes(source@, nodes) && graph_spec(source@, todos_section@, nodes) == graph_outcome_of(r),
{
    let (nodes, _) = match crate::markdown::document_outline(source) {
        Ok(o) => o,
        Err(e) => {
            let mut m = String::new();
            crate::text::push_str(&mut m, "invalid Markdown: ");
            crate::text::push_str(&mut m, e.as_str());
            return Err(m);
        },
    };
    graph_nodes_from_outline(source, todos_section, &nodes)
}

/// The Todo graph as read from a parsed Blueprint: the graph of the outline of the source's
/// parse over its Todos section, or the refusal of a document without one.
pub open spec fn graph_read(source: Seq<char>, d: DocumentView, g: Result<Seq<GraphNodeView>, Seq<char>>) -> bool {
    match find_section(d.sections, "Todos"@) {
        None => g == Err::<Seq<GraphNodeView>, Seq<char>>("missing required section: "@ + "Todos"@),
        Some(i) => exists|nodes: Seq<MdNode>|
            #![trigger graph_spec(source, d.sections[i], nodes)]
            document_nodes(source, nodes) && graph_spec(source, d.sections[i], nodes) == g,
    }
}

/// The outcome of parsing a Blueprint, by its views.
pub open spec fn blueprint_outcome(r: Result<BlueprintSource, String>) -> Result<BlueprintView, Seq<char>> {
    match r {
        Ok(b) => Ok(blueprint_view(b)),
        Err(e) => Err(e@),
    }
}

/// The outline and frontmatter of the source's parse make `outcome`: the document's refusal, or what
/// `blueprint_spec` makes of the document, its Todo graph (see `graph_read`) and the entries
/// of its Evidence and Revision History (see `entries_read`).
pub open spec fn blueprint_parsed(path: Seq<char>, source: Seq<char>, outcome: Result<BlueprintView, Seq<char>>) -> bool {
    exists|nodes: Seq<MdNode>, fm: Option<Seq<(Seq<char>, Seq<char>)>>|
        #![trigger document_spec(path, source, "blueprint/v3"@, blueprint_sections(), nodes, fm)]
        document_read(source, nodes, fm) && match document_spec(path, source, "blueprint/v3"@, blueprint_sections(), nodes, fm) {
            Err(m) => outcome == Err::<BlueprintView, Seq<char>>(m),
            Ok(d) => exists|g: Result<Seq<GraphNodeView>, Seq<char>>, ev: Seq<(Seq<char>, Seq<char>)>, rv: Seq<(Seq<char>, Seq<char>)>|
                #![trigger blueprint_spec(source, d, g, ev, rv)]
                graph_read(source, d, g) && crate::blueprint::todo::entries_read(source, d, "Evidence"@, "evidence-"@, ev)
                    && crate::blueprint::todo::entries_read(source, d, "Revision History"@, "revision-"@, rv)
                    && blueprint_spec(source, d, g, ev, rv) == outcome,
        }
}

/// The Todo graph of a parsed Blueprint's Todos section (see `graph_read`).
fn read_graph(doc: &ParsedDocument, source: &str) -> (r: Result<Vec<TodoGraphNode>, String>)
    ensures
        markdown_accepts(source@, false, usize::MAX) ==> graph_read(source@, doc@, graph_outcome_of(r)),
{
    match doc.section("Todos") {
        Ok(section) => {
            let r = parse_graph_nodes(source, &section);
            proof {
                crate::blueprint::document::lemma_find_section(doc@.sections, "Todos"@);
            }
            r
        },
        Err(e) => {
            proof {
                reveal_strlit("Todos");
            }
            Err(e)
        },
    }
}

/// Parses one `blueprint/v3` aggregate document: the document must follow the Blueprint
/// schema, and the Blueprint is what `blueprint_spec` makes of it.
#[verifier::rlimit(30)]
pub fn parse_blueprint_source(path: &str, source: &str) -> (r: Result<BlueprintSource, String>)
    ensures
        r matches Ok(b) ==> exists|d: DocumentView, g: Result<Seq<GraphNodeView>, Seq<char>>, ev: Seq<(Seq<char>, Seq<char>)>, rv: Seq<(Seq<char>, Seq<char>)>|
            blueprint_spec(source@, d, g, ev, rv) == Ok::<BlueprintView, Seq<char>>(blueprint_view(b)),
        !ends_with(path@, ".md"@) ==> (r matches Err(e) && e@ == "document path must end with .md: "@ + path@),
        ends_with(path@, ".md"@) && !markdown_accepts(source@, false, usize::MAX) ==> r is Err,
        ends_with(path@, ".md"@) && markdown_accepts(source@, false, usize::MAX) ==> blueprint_parsed(
            path@,
            source@,
            blueprint_outcome(r),
        ),
{
    let schema = blueprint_schema();
    let doc = match ParsedDocument::parse(path, source, &schema) {
        Ok(d) => d,
        Err(e) => {
            proof {
                if ends_with(path@, ".md"@) && markdown_accepts(source@, false, usize::MAX) {
                    let (nodes, fm) = choose|nodes: Seq<MdNode>, fm: Option<Seq<(Seq<char>, Seq<char>)>>|
                        document_read(source@, nodes, fm) && document_spec(path@, source@, schema.name@, views(schema.required_sections@), nodes, fm)
                            == Err::<DocumentView, Seq<char>>(e@);
                    assert(document_spec(path@, source@, "blueprint/v3"@, blueprint_sections(), nodes, fm)
                        == Err::<DocumentView, Seq<char>>(e@));
                    assert(blueprint_parsed(path@, source@, Err::<BlueprintView, Seq<char>>(e@)));
                }
            }
            return Err(e);
        },
    };
    let graph = read_graph(&doc, source);
    let evidence = section_entries(&doc, source, "Evidence", "evidence-");
    let revisions = section_entries(&doc, source, "Revision History", "revision-");
    let r = blueprint_from_document(source, &doc, graph, evidence, revisions);
    proof {
        let g = graph_outcome_of(graph);
        if ends_with(path@, ".md"@) && markdown_accepts(source@, false, usize::MAX) {
            assert(graph_read(source@, doc@, g));
            let (nodes, fm) = choose|nodes: Seq<MdNode>, fm: Option<Seq<(Seq<char>, Seq<char>)>>|
                document_read(source@, nodes, fm) && document_spec(path@, source@, schema.name@, views(schema.required_sections@), nodes, fm)
                    == Ok::<DocumentView, Seq<char>>(doc@);
            assert(blueprint_spec(source@, doc@, g, pairs_view(evidence@), pairs_view(revisions@)) == blueprint_outcome(r));
            assert(document_spec(path@, source@, "blueprint/v3"@, blueprint_sections(), nodes, fm)
                == Ok::<DocumentView, Seq<char>>(doc@));
            assert(exists|g2: Result<Seq<GraphNodeView>, Seq<char>>, ev: Seq<(Seq<char>, Seq<char>)>, rv: Seq<(Seq<char>, Seq<char>)>|
                #![trigger blueprint_spec(source@, doc@, g2, ev, rv)]
                graph_read(source@, doc@, g2) && crate::blueprint::todo::entries_read(source@, doc@, "Evidence"@, "evidence-"@, ev)
                    && crate::blueprint::todo::entries_read(source@, doc@, "Revision History"@, "revision-"@, rv)
                    && blueprint_spec(source@, doc@, g2, ev, rv) == blueprint_outcome(r));
            assert(document_read(source@, nodes, fm) && match document_spec(path@, source@, "blueprint/v3"@, blueprint_sections(), nodes, fm) {
                Err(m) => blueprint_outcome(r) == Err::<BlueprintView, Seq<char>>(m),
                Ok(d) => exists|g2: Result<Seq<GraphNodeView>, Seq<char>>, ev: Seq<(Seq<char>, Seq<char>)>, rv: Seq<(Seq<char>, Seq<char>)>|
                    #![trigger blueprint_spec(source@, d, g2, ev, rv)]
                    graph_read(source@, d, g2) && crate::blueprint::todo::entries_read(source@, d, "Evidence"@, "evidence-"@, ev)
                        && crate::blueprint::todo::entries_read(source@, d, "Revision History"@, "revision-"@, rv)
                        && blueprint_spec(source@, d, g2, ev, rv) == blueprint_outcome(r),
            });
            assert(blueprint_parsed(path@, source@, blueprint_outcome(r)));
        }
        if r is Ok {
            assert(blueprint_spec(source@, doc@, g, pairs_view(evidence@), pairs_view(revisions@))
                == Ok::<BlueprintView, Seq<char>>(blueprint_view(r->Ok_0)));
        }
    }
    r
}

impl BlueprintSource {
    /// Parses one `blueprint/v3` aggregate document.
    pub fn parse(path: &str, source: &str) -> (r: Result<Self, String>)
        ensures
            r matches Ok(b) ==> exists|d: DocumentView, g: Result<Seq<GraphNodeView>, Seq<char>>, ev: Seq<(Seq<char>, Seq<char>)>, rv: Seq<(Seq<char>, Seq<char>)>|
                blueprint_spec(source@, d, g, ev, rv) == Ok::<BlueprintView, Seq<char>>(blueprint_view(b)),
            !ends_with(path@, ".md"@) ==> (r matches Err(e) && e@ == "document path must end with .md: "@ + path@),
            ends_with(path@, ".md"@) && !markdown_accepts(source@, false, usize::MAX) ==> r is Err,
            ends_with(path@, ".md"@) && markdown_accepts(source@, false, usize::MAX) ==> blueprint_parsed(
                path@,
                source@,
                blueprint_outcome(r),
            ),
    {
        parse_blueprint_source(path, source)
    }
}

} // verus!
