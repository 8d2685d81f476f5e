//! Renaming a heading or a note: the rewrite of the heading's line, or the note's move, and
//! of each wikilink to it.
use vstd::prelude::*;
use vstd::string::StringSliceAdditionalSpecFns;

use crate::mutation::block_id::edit_view;
use crate::mutation::history::texts;
use crate::mutation::order::{insert_text, sorted_texts};
use crate::mutation::rename::{
    EditView, TextEdit, heading_reference_matches, heading_rewrite_spec, link_rewrite_spec, names_heading,
    replace_heading_reference, replace_link_target,
};
use crate::natural::{natural_sort, natural_sorted, sort_natural};
use crate::parser::note::{HeadingInfo, LinkInfo, LinkKind};
use crate::parser::{byte_offset_for_line, line_start_spec, opt_ref_view};
use crate::text::{push_char, push_str, str_eq, to_string};

verus! {

/// The position of the first heading whose text or anchor is `old`.
pub open spec fn heading_index(hs: Seq<HeadingInfo>, old: Seq<char>) -> Option<int>
    decreases hs.len(),
{
    if hs.len() == 0 {
        None
    } else if hs[0].text@ == old || hs[0].anchor@ == old {
        Some(0)
    } else {
        match heading_index(hs.drop_first(), old) {
            Some(k) => Some(k + 1),
            None => None,
        }
    }
}

/// `n` number signs.
pub open spec fn hashes(n: nat) -> Seq<char> {
    Seq::new(n, |i: int| '#')
}

/// The edit of the heading's line: the whole line (up to the start of the next one, or the
/// end of the text) becomes the heading's number signs, a space, the new text and a newline.
pub open spec fn heading_line_edit(b: Seq<u8>, h: HeadingInfo, new: Seq<char>) -> EditView {
    let end = line_start_spec(b, h.source.line_start as int + 1);
    EditView {
        start: line_start_spec(b, h.source.line_start as int),
        end: if end < b.len() {
            end
        } else {
            b.len() as int
        },
        replacement: hashes(h.level as nat) + seq![' '] + new + seq!['\n'],
    }
}

/// The positions of the wikilinks that name the heading `old` and that the rewrite changes.
pub open spec fn heading_refs(links: Seq<LinkInfo>, old: Seq<char>, new: Seq<char>) -> Seq<int>
    decreases links.len(),
{
    if links.len() == 0 {
        Seq::empty()
    } else {
        let p = heading_refs(links.drop_last(), old, new);
        let l = links.last();
        if l.kind == LinkKind::Wikilink && names_heading(opt_ref_view(l.reference), old)
            && heading_rewrite_spec(l.raw@, old, new) != l.raw@ {
            p.push(links.len() - 1)
        } else {
            p
        }
    }
}

/// The rewrite of each chosen link, with the path of its note.
pub open spec fn ref_edits(links: Seq<LinkInfo>, refs: Seq<int>, old: Seq<char>, new: Seq<char>) -> Seq<
    (Seq<char>, EditView),
> {
    refs.map_values(
        |j: int|
            (
                links[j].source.path@,
                EditView {
                    start: links[j].source.byte_start as int,
                    end: links[j].source.byte_end as int,
                    replacement: heading_rewrite_spec(links[j].raw@, old, new),
                },
            ),
    )
}

/// A heading rename by its numbers and texts.
pub struct RenamePlanView {
    pub updated_references: nat,
    pub edits: Seq<(Seq<char>, EditView)>,
}

/// What renaming the heading `old` (by its text or anchor) of the note at `path` to `new`
/// does, given the links `links` that lead to the note: the refusal of a heading the note
/// lacks, or the edit of the heading's line and the rewrite of each wikilink to it.
pub open spec fn rename_heading_spec(
    path: Seq<char>,
    content: Seq<u8>,
    headings: Seq<HeadingInfo>,
    old: Seq<char>,
    new: Seq<char>,
    links: Seq<LinkInfo>,
) -> Result<RenamePlanView, Seq<char>> {
    match heading_index(headings, old) {
        None => Err("heading not found: "@ + old),
        Some(k) => {
            let refs = heading_refs(links, old, new);
            Ok(RenamePlanView {
                updated_references: refs.len(),
                edits: seq![(path, heading_line_edit(content, headings[k], new))] + ref_edits(links, refs, old, new),
            })
        },
    }
}

/// A planned heading rename: how many links it rewrites, the notes it changes (sorted, each
/// once), and the edits, each with the path of its note.
#[derive(Debug)]
pub struct RenamePlan {
    pub updated_references: usize,
    pub changed_notes: Vec<String>,
    pub edits: Vec<(String, TextEdit)>,
}

impl View for RenamePlan {
    type V = RenamePlanView;

    open spec fn view(&self) -> RenamePlanView {
        RenamePlanView {
            updated_references: self.updated_references as nat,
            edits: self.edits@.map_values(|e: (String, TextEdit)| (e.0@, edit_view(e.1))),
        }
    }
}

/// The first heading with the text or anchor (see `heading_index`).
fn find_heading(headings: &Vec<HeadingInfo>, old: &str) -> (r: Option<usize>)
    ensures
        r matches Some(k) ==> k < headings@.len() && heading_index(headings@, old@) == Some(k as int),
        match heading_index(headings@, old@) {
            Some(k) => r == Some(k as usize),
            None => r is None,
        },
{
    let mut k: usize = 0;
    assert(headings@.skip(0) =~= headings@);
    while k < headings.len()
        invariant
            k <= headings@.len(),
            heading_index(headings@, old@) == match heading_index(headings@.skip(k as int), old@) {
                Some(j) => Some(j + k),
                None => None::<int>,
            },
        decreases headings@.len() - k,
    {
        let ghost rest = headings@.skip(k as int);
        assert(rest.drop_first() =~= headings@.skip(k + 1));
        if str_eq(headings[k].text.as_str(), old) || str_eq(headings[k].anchor.as_str(), old) {
            assert(rest[0] == headings@[k as int]);
            return Some(k);
        }
        assert(rest[0] == headings@[k as int]);
        k = k + 1;
    }
    assert(headings@.skip(k as int).len() == 0);
    None
}

/// Plans renaming a heading of the note at `note_path` (see `rename_heading_spec`); `inbound`
/// are the links of the vault's notes that lead to this note.
pub fn rename_heading_plan(
    note_path: &str,
    content: &str,
    headings: &Vec<HeadingInfo>,
    old_heading: &str,
    new_heading: &str,
    inbound: &Vec<LinkInfo>,
) -> (r: Result<RenamePlan, String>)
    requires
        forall|i: int| 0 <= i < headings@.len() ==> (#[trigger] headings@[i]).source.line_start < u64::MAX,
    ensures
        match rename_heading_spec(note_path@, content.spec_bytes(), headings@, old_heading@, new_heading@, inbound@) {
            Ok(p) => r matches Ok(q) && q@ == p && sorted_texts(texts(q.changed_notes@)) && forall|x: Seq<char>|
                texts(q.changed_notes@).contains(x) <==> exists|j: int| 0 <= j < p.edits.len() && (#[trigger] p.edits[j]).0 == x,
            Err(m) => r matches Err(e) && e@ == m,
        },
{
    proof {
        reveal_strlit("heading not found: ");
    }
    let k = match find_heading(headings, old_heading) {
        Some(k) => k,
        None => {
            let mut m = to_string("heading not found: ");
            push_str(&mut m, old_heading);
            return Err(m);
        },
    };
    let h = &headings[k];
    let line = h.source.line_start;
    let start = byte_offset_for_line(content, line);
    let next = byte_offset_for_line(content, line + 1);
    let len = content.as_bytes().len();
    let end = if next < len {
        next
    } else {
        len
    };
    let mut rep = String::new();
    let mut i: u8 = 0;
    while i < h.level
        invariant
            i <= h.level,
            rep@ == hashes(i as nat),
        decreases h.level - i,
    {
        push_char(&mut rep, '#');
        assert(rep@ =~= hashes(i as nat + 1));
        i = i + 1;
    }
    push_char(&mut rep, ' ');
    push_str(&mut rep, new_heading);
    push_char(&mut rep, '\n');
    assert(rep@ =~= hashes(h.level as nat) + seq![' '] + new_heading@ + seq!['\n']);
    let edit = TextEdit { start, end, replacement: rep };
    let ghost ev = edit_view(edit);
    assert(ev == heading_line_edit(content.spec_bytes(), headings@[k as int], new_heading@));
    let ghost head = seq![(note_path@, ev)];
    let mut edits: Vec<(String, TextEdit)> = Vec::new();
    let mut changed: Vec<String> = Vec::new();
    assert(texts(changed@) =~= Seq::<Seq<char>>::empty());
    insert_text(&mut changed, to_string(note_path));
    edits.push((to_string(note_path), edit));
    assert(inbound@.take(0) =~= Seq::<LinkInfo>::empty());
    assert(edits@.map_values(|e: (String, TextEdit)| (e.0@, edit_view(e.1))) =~= head + ref_edits(
        inbound@,
        heading_refs(inbound@.take(0), old_heading@, new_heading@),
        old_heading@,
        new_heading@,
    ));
    assert forall|x: Seq<char>| texts(changed@).contains(x) <==> exists|j: int| 0 <= j < 1 && (#[trigger] edits@[j]).0@ == x by {
        if texts(changed@).contains(x) {
            assert(edits@[0].0@ == x);
        }
    }
    let mut count: usize = 0;
    let mut n: usize = 0;
    while n < inbound.len()
        invariant
            n <= inbound@.len(),
            count <= n,
            edits@.len() == count + 1,
            head == seq![(note_path@, ev)],
            heading_index(headings@, old_heading@) == Some(k as int),
            k < headings@.len(),
            ev == heading_line_edit(content.spec_bytes(), headings@[k as int], new_heading@),
            count as int == heading_refs(inbound@.take(n as int), old_heading@, new_heading@).len(),
            forall|j: int| 0 <= j < count ==> 0 <= #[trigger] heading_refs(inbound@.take(n as int), old_heading@, new_heading@)[j] < n,
            edits@.map_values(|e: (String, TextEdit)| (e.0@, edit_view(e.1))) == head + ref_edits(
                inbound@,
                heading_refs(inbound@.take(n as int), old_heading@, new_heading@),
                old_heading@,
                new_heading@,
            ),
            sorted_texts(texts(changed@)),
            forall|x: Seq<char>| texts(changed@).contains(x) <==> exists|j: int| 0 <= j < count + 1 && (#[trigger] edits@[j]).0@ == x,
        decreases inbound@.len() - n,
    {
        let l = &inbound[n];
        let ghost prev = heading_refs(inbound@.take(n as int), old_heading@, new_heading@);
        assert(inbound@.take(n + 1).drop_last() =~= inbound@.take(n as int));
        assert(inbound@.take(n + 1).last() == inbound@[n as int]);
        let wiki = match l.kind {
            LinkKind::Wikilink => true,
            LinkKind::Markdown => false,
        };
        let mut hit = false;
        if wiki && heading_reference_matches(&l.reference, old_heading) {
            let replacement = replace_heading_reference(l.raw.as_str(), old_heading, new_heading);
            if !str_eq(replacement.as_str(), l.raw.as_str()) {
                let e = TextEdit { start: l.source.byte_start, end: l.source.byte_end, replacement };
                let ghost before = edits@;
                let ghost changed_before = texts(changed@);
                insert_text(&mut changed, to_string(l.source.path.as_str()));
                edits.push((to_string(l.source.path.as_str()), e));
                assert(heading_refs(inbound@.take(n + 1), old_heading@, new_heading@) == prev.push(n as int));
                assert(ref_edits(inbound@, prev.push(n as int), old_heading@, new_heading@) =~= ref_edits(
                    inbound@,
                    prev,
                    old_heading@,
                    new_heading@,
                ).push((inbound@[n as int].source.path@, edit_view(e))));
                assert(edits@.map_values(|e: (String, TextEdit)| (e.0@, edit_view(e.1))) =~= before.map_values(
                    |e: (String, TextEdit)| (e.0@, edit_view(e.1)),
                ).push((inbound@[n as int].source.path@, edit_view(e))));
                assert forall|x: Seq<char>| texts(changed@).contains(x) <==> exists|j: int| 0 <= j < count + 2 && (#[trigger] edits@[j]).0@ == x by {
                    if texts(changed@).contains(x) {
                        if x == l.source.path@ {
                            assert(edits@[count + 1].0@ == x);
                        } else {
                            assert(changed_before.contains(x));
                            let j = choose|j: int| 0 <= j < count + 1 && (#[trigger] before[j]).0@ == x;
                            assert(edits@[j] == before[j]);
                        }
                    }
                    if exists|j: int| 0 <= j < count + 2 && (#[trigger] edits@[j]).0@ == x {
                        let j = choose|j: int| 0 <= j < count + 2 && (#[trigger] edits@[j]).0@ == x;
                        if j < count + 1 {
                            assert(edits@[j] == before[j]);
                            assert(changed_before.contains(x));
                        }
                    }
                }
                count = count + 1;
                hit = true;
            }
        }
        if !hit {
            assert(heading_refs(inbound@.take(n + 1), old_heading@, new_heading@) == prev);
        }
        n = n + 1;
    }
    assert(inbound@.take(inbound@.len() as int) =~= inbound@);
    let plan = RenamePlan { updated_references: count, changed_notes: changed, edits };
    proof {
        let p = rename_heading_spec(note_path@, content.spec_bytes(), headings@, old_heading@, new_heading@, inbound@)->Ok_0;
        assert(plan@.edits == p.edits);
        assert forall|x: Seq<char>| texts(plan.changed_notes@).contains(x) <==> exists|j: int| 0 <= j < p.edits.len() && (#[trigger] p.edits[j]).0 == x by {
            if exists|j: int| 0 <= j < p.edits.len() && (#[trigger] p.edits[j]).0 == x {
                let j = choose|j: int| 0 <= j < p.edits.len() && (#[trigger] p.edits[j]).0 == x;
                assert(plan.edits@[j].0@ == x);
            }
            if texts(plan.changed_notes@).contains(x) {
                let j = choose|j: int| 0 <= j < count + 1 && (#[trigger] plan.edits@[j]).0@ == x;
                assert(p.edits[j].0 == x);
            }
        }
    }
    Ok(plan)
}

/// What a rename reports: whether it was only previewed, how many links it rewrote, and the
/// notes it changed.
#[derive(Clone, Debug)]
pub struct RenameResult {
    pub dry_run: bool,
    pub updated_references: usize,
    pub changed_notes: Vec<String>,
}

impl RenameResult {
    /// The report of a planned rename, applied or previewed.
    pub fn from_plan(plan: RenamePlan, dry_run: bool) -> (r: RenameResult)
        ensures
            r.dry_run == dry_run,
            r.updated_references == plan.updated_references,
            r.changed_notes@ == plan.changed_notes@,
    {
        RenameResult { dry_run, updated_references: plan.updated_references, changed_notes: plan.changed_notes }
    }
}

/// The positions of the wikilinks among the links.
pub open spec fn wikilink_refs(links: Seq<LinkInfo>) -> Seq<int>
    decreases links.len(),
{
    if links.len() == 0 {
        Seq::empty()
    } else {
        let p = wikilink_refs(links.drop_last());
        if links.last().kind == LinkKind::Wikilink {
            p.push(links.len() - 1)
        } else {
            p
        }
    }
}

/// The number of wikilinks that stand in another note than `old`.
pub open spec fn outside_refs(links: Seq<LinkInfo>, old: Seq<char>) -> nat
    decreases links.len(),
{
    if links.len() == 0 {
        0
    } else {
        let c = outside_refs(links.drop_last(), old);
        if links.last().kind == LinkKind::Wikilink && links.last().source.path@ != old {
            c + 1
        } else {
            c
        }
    }
}

/// A note path after the move of `old` to `new`.
pub open spec fn renamed_path(p: Seq<char>, old: Seq<char>, new: Seq<char>) -> Seq<char> {
    if p == old {
        new
    } else {
        p
    }
}

/// The texts in order of first occurrence, each once.
pub open spec fn collect_unique(ps: Seq<Seq<char>>) -> Seq<Seq<char>>
    decreases ps.len(),
{
    if ps.len() == 0 {
        Seq::empty()
    } else {
        let u = collect_unique(ps.drop_last());
        if u.contains(ps.last()) {
            u
        } else {
            u.push(ps.last())
        }
    }
}

/// What moving the note `old` to `new` does, given the links `links` that lead to it: each
/// wikilink gets the new path as its target (keeping its heading, block and alias), and the
/// links that stand in other notes are counted.
pub open spec fn rename_note_spec(old: Seq<char>, new: Seq<char>, links: Seq<LinkInfo>) -> RenamePlanView {
    RenamePlanView {
        updated_references: outside_refs(links, old),
        edits: wikilink_refs(links).map_values(
            |j: int|
                (
                    links[j].source.path@,
                    EditView {
                        start: links[j].source.byte_start as int,
                        end: links[j].source.byte_end as int,
                        replacement: link_rewrite_spec(links[j].raw@, new),
                    },
                ),
        ),
    }
}

/// The notes that moving `old` to `new` changes: the notes of the rewritten links (the moved
/// note under its new path) and the moved note, each once, in natural order.
pub open spec fn rename_changed_spec(old: Seq<char>, new: Seq<char>, links: Seq<LinkInfo>) -> Seq<Seq<char>> {
    natural_sort(
        collect_unique(
            wikilink_refs(links).map_values(|j: int| renamed_path(links[j].source.path@, old, new)).push(new),
        ),
    )
}

/// Whether one of the texts is `p`.
fn has_text(v: &Vec<String>, p: &str) -> (b: bool)
    ensures
        b == texts(v@).contains(p@),
{
    let mut k: usize = 0;
    while k < v.len()
        invariant
            k <= v@.len(),
            forall|j: int| 0 <= j < k ==> texts(v@)[j] != p@,
        decreases v@.len() - k,
    {
        if str_eq(v[k].as_str(), p) {
            assert(texts(v@)[k as int] == p@);
            return true;
        }
        k = k + 1;
    }
    false
}

/// Plans moving the note at `old_path` to `new_path` (see `rename_note_spec` and
/// `rename_changed_spec`); `inbound` are the links of the vault's notes that lead to the note.
pub fn rename_note_plan(old_path: &str, new_path: &str, inbound: &Vec<LinkInfo>) -> (r: RenamePlan)
    ensures
        r@ == rename_note_spec(old_path@, new_path@, inbound@),
        texts(r.changed_notes@) == rename_changed_spec(old_path@, new_path@, inbound@),
        natural_sorted(texts(r.changed_notes@)),
{
    let ghost old = old_path@;
    let ghost new = new_path@;
    let mut edits: Vec<(String, TextEdit)> = Vec::new();
    let mut paths: Vec<String> = Vec::new();
    let mut count: usize = 0;
    let mut n: usize = 0;
    assert(inbound@.take(0) =~= Seq::<LinkInfo>::empty());
    assert(edits@.map_values(|e: (String, TextEdit)| (e.0@, edit_view(e.1))) =~= rename_note_spec(
        old,
        new,
        inbound@.take(0),
    ).edits);
    assert(texts(paths@) =~= Seq::<Seq<char>>::empty());
    while n < inbound.len()
        invariant
            n <= inbound@.len(),
            old == old_path@,
            new == new_path@,
            count <= n,
            count as nat == outside_refs(inbound@.take(n as int), old),
            forall|j: int| 0 <= j < wikilink_refs(inbound@.take(n as int)).len() ==> 0 <= #[trigger] wikilink_refs(inbound@.take(n as int))[j] < n,
            edits@.map_values(|e: (String, TextEdit)| (e.0@, edit_view(e.1))) == rename_note_spec(
                old,
                new,
                inbound@.take(n as int),
            ).edits,
            texts(paths@) == wikilink_refs(inbound@.take(n as int)).map_values(
                |j: int| renamed_path(inbound@.take(n as int)[j].source.path@, old, new),
            ),
        decreases inbound@.len() - n,
    {
        let ghost t = inbound@.take(n as int);
        let ghost t1 = inbound@.take(n + 1);
        assert(t1.drop_last() =~= t);
        assert(t1.last() == inbound@[n as int]);
        let ghost prev = wikilink_refs(t);
        let ghost before = edits@.map_values(|e: (String, TextEdit)| (e.0@, edit_view(e.1)));
        let ghost paths_before = texts(paths@);
        let l = &inbound[n];
        let wiki = match l.kind {
            LinkKind::Wikilink => true,
            LinkKind::Markdown => false,
        };
        if wiki {
            let e = TextEdit {
                start: l.source.byte_start,
                end: l.source.byte_end,
                replacement: replace_link_target(l.raw.as_str(), new_path),
            };
            edits.push((to_string(l.source.path.as_str()), e));
            let moved = str_eq(l.source.path.as_str(), old_path);
            if moved {
                paths.push(to_string(new_path));
            } else {
                paths.push(to_string(l.source.path.as_str()));
                count = count + 1;
            }
            proof {
                assert(wikilink_refs(t1) == prev.push(n as int));
                let s1 = edits@.map_values(|e: (String, TextEdit)| (e.0@, edit_view(e.1)));
                let s2 = rename_note_spec(old, new, t1).edits;
                let s0 = rename_note_spec(old, new, t).edits;
                assert(before.len() == prev.len());
                assert(edits@.len() == before.len() + 1);
                assert(s1.len() == edits@.len());
                assert(s2.len() == prev.len() + 1);
                assert(s1.len() == s2.len());
                assert forall|j: int| 0 <= j < s1.len() implies s1[j] == s2[j] by {
                    if j < prev.len() {
                        assert(s1[j] == before[j]);
                        assert(before[j] == s0[j]);
                        assert(t1[prev[j]] == t[prev[j]]);
                    } else {
                        assert(t1[n as int] == inbound@[n as int]);
                    }
                }
                assert(s1 =~= s2);
                let p1 = texts(paths@);
                let p2 = wikilink_refs(t1).map_values(|j: int| renamed_path(t1[j].source.path@, old, new));
                assert(paths_before.len() == prev.len());
                assert(paths@.len() == paths_before.len() + 1);
                assert(p1.len() == paths@.len());
                assert(p2.len() == prev.len() + 1);
                assert(p1.len() == p2.len());
                assert forall|j: int| 0 <= j < p1.len() implies p1[j] == p2[j] by {
                    if j < prev.len() {
                        assert(p1[j] == paths_before[j]);
                        assert(t1[prev[j]] == t[prev[j]]);
                    } else {
                        assert(t1[n as int] == inbound@[n as int]);
                    }
                }
                assert(p1 =~= p2);
            }
        } else {
            proof {
                assert(wikilink_refs(t1) == prev);
                let s1 = edits@.map_values(|e: (String, TextEdit)| (e.0@, edit_view(e.1)));
                let s2 = rename_note_spec(old, new, t1).edits;
                let s0 = rename_note_spec(old, new, t).edits;
                assert forall|j: int| 0 <= j < s1.len() implies s1[j] == s2[j] by {
                    assert(s1[j] == s0[j]);
                    assert(t1[prev[j]] == t[prev[j]]);
                }
                assert(s1 =~= s2);
                let p2 = wikilink_refs(t1).map_values(|j: int| renamed_path(t1[j].source.path@, old, new));
                assert forall|j: int| 0 <= j < p2.len() implies texts(paths@)[j] == p2[j] by {
                    assert(t1[prev[j]] == t[prev[j]]);
                }
                assert(texts(paths@) =~= p2);
            }
        }
        n = n + 1;
    }
    assert(inbound@.take(inbound@.len() as int) =~= inbound@);
    paths.push(to_string(new_path));
    let ghost all = texts(paths@);
    let mut unique: Vec<String> = Vec::new();
    let mut k: usize = 0;
    assert(all.take(0) =~= Seq::<Seq<char>>::empty());
    assert(texts(unique@) =~= Seq::<Seq<char>>::empty());
    while k < paths.len()
        invariant
            k <= paths@.len(),
            all == texts(paths@),
            texts(unique@) == collect_unique(all.take(k as int)),
        decreases paths@.len() - k,
    {
        assert(all.take(k + 1).drop_last() =~= all.take(k as int));
        assert(all.take(k + 1).last() == paths@[k as int]@);
        if !has_text(&unique, paths[k].as_str()) {
            let ghost before = texts(unique@);
            unique.push(to_string(paths[k].as_str()));
            assert(texts(unique@) =~= before.push(paths@[k as int]@));
        }
        k = k + 1;
    }
    assert(all.take(paths@.len() as int) =~= all);
    let changed = sort_natural(unique);
    assert(all =~= wikilink_refs(inbound@).map_values(|j: int| renamed_path(inbound@[j].source.path@, old, new)).push(new));
    RenamePlan { updated_references: count, changed_notes: changed, edits }
}

/// Renaming a heading keeps its level: the first edit rewrites the renamed heading's line of
/// the note itself as exactly as many `#` as the heading's level, a space, the new text and a
/// newline.
pub proof fn rename_keeps_heading_level(
    path: Seq<char>,
    content: Seq<u8>,
    headings: Seq<HeadingInfo>,
    old: Seq<char>,
    new: Seq<char>,
    links: Seq<LinkInfo>,
)
    ensures
        rename_heading_spec(path, content, headings, old, new, links) matches Ok(p) ==> {
            let h = headings[heading_index(headings, old)->Some_0];
            let r = p.edits[0].1.replacement;
            &&& p.edits.len() >= 1
            &&& p.edits[0].0 == path
            &&& p.edits[0].1.start == crate::parser::line_start_spec(content, h.source.line_start as int)
            &&& p.edits[0].1.end == if crate::parser::line_start_spec(content, h.source.line_start as int + 1)
                < content.len() {
                crate::parser::line_start_spec(content, h.source.line_start as int + 1)
            } else {
                content.len() as int
            }
            &&& r.len() == h.level + new.len() + 2
            &&& forall|i: int| 0 <= i < h.level ==> r[i] == '#'
            &&& r[h.level as int] == ' '
            &&& r.subrange(h.level + 1, r.len() - 1) == new
            &&& r[r.len() - 1] == '\n'
        },
{
    if let Ok(p) = rename_heading_spec(path, content, headings, old, new, links) {
        let k = heading_index(headings, old)->Some_0;
        let h = headings[k];
        let r = p.edits[0].1.replacement;
        let lv = h.level as int;
        assert(r == hashes(h.level as nat) + seq![' '] + new + seq!['\n']);
        assert(r.subrange(lv + 1, r.len() - 1) =~= new);
    }
}

} // verus!
