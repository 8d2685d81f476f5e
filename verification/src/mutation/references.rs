//! Whether an edit of a note would break the references that lead into it: a heading or block
//! that a link or embed names, which the note held before the edit and no longer holds.
use vstd::prelude::*;

use crate::mutation::block_id::join_texts;
use crate::mutation::history::texts;
use crate::parser::note::{EmbedInfo, LinkInfo, LinkKind, ParsedNote, SpanView};
use crate::parser::{ReferenceInfo, ReferenceView, line_ref_spec, opt_ref_view};
use crate::query::{LinkResolution, ResolutionView, leads_to, leads_to_spec, resolve_reference, resolve_spec};
use crate::text::{join_with, push_str, str_eq, to_string};

verus! {

/// A reference of a note: the note it stands in, its target, the heading or block it names,
/// where it stands and its raw text.
pub struct RefItem {
    pub from: Seq<char>,
    pub target: Seq<char>,
    pub reference: Option<ReferenceView>,
    pub source: SpanView,
    pub raw: Seq<char>,
}

/// The references of a note: its links, then its embeds.
pub open spec fn note_refs(n: ParsedNote) -> Seq<RefItem> {
    n.links@.map_values(
        |l: LinkInfo| RefItem { from: n.path@, target: l.target@, reference: opt_ref_view(l.reference), source: l.source@, raw: l.raw@ },
    ) + n.embeds@.map_values(
        |e: EmbedInfo| RefItem { from: n.path@, target: e.target@, reference: opt_ref_view(e.reference), source: e.source@, raw: e.raw@ },
    )
}

/// The references of the notes, note by note.
pub open spec fn vault_refs(notes: Seq<ParsedNote>) -> Seq<RefItem>
    decreases notes.len(),
{
    if notes.len() == 0 {
        Seq::empty()
    } else {
        vault_refs(notes.drop_last()) + note_refs(notes.last())
    }
}

/// The note holds what the reference names: a heading whose text or anchor is the heading
/// (the last one of a heading path), or a block with the ID.
pub open spec fn reference_exists(n: ParsedNote, r: ReferenceView) -> bool {
    match r {
        ReferenceView::Heading(v) => exists|k: int|
            0 <= k < n.headings@.len() && ((#[trigger] n.headings@[k]).text@ == v || n.headings@[k].anchor@ == v),
        ReferenceView::MultiHeading(vs) => vs.len() > 0 && exists|k: int|
            0 <= k < n.headings@.len() && ((#[trigger] n.headings@[k]).text@ == vs.last() || n.headings@[k].anchor@
                == vs.last()),
        ReferenceView::BlockId(v) => exists|k: int| 0 <= k < n.blocks@.len() && (#[trigger] n.blocks@[k]).id@ == v,
    }
}

/// The edit of the note at `path` (replacing its bytes `start..end`, turning `original` into
/// `changed`) breaks the reference: it names a heading or block, does not stand in the
/// replaced text, leads to the note, and names what the note held before and lacks after.
pub open spec fn breaks(
    item: RefItem,
    paths: Seq<Seq<char>>,
    path: Seq<char>,
    start: int,
    end: int,
    original: ParsedNote,
    changed: ParsedNote,
) -> bool {
    &&& item.reference is Some
    &&& !(item.from == path && start <= item.source.byte_start < end)
    &&& leads_to_spec(LinkKind::Wikilink, item.target, item.from, paths, path)
    &&& reference_exists(original, item.reference->Some_0)
    &&& !reference_exists(changed, item.reference->Some_0)
}

/// A line per broken reference: where it stands and its raw text.
pub open spec fn broken_lines(
    items: Seq<RefItem>,
    paths: Seq<Seq<char>>,
    path: Seq<char>,
    start: int,
    end: int,
    original: ParsedNote,
    changed: ParsedNote,
) -> Seq<Seq<char>>
    decreases items.len(),
{
    if items.len() == 0 {
        Seq::empty()
    } else {
        let prev = broken_lines(items.drop_last(), paths, path, start, end, original, changed);
        let it = items.last();
        if breaks(it, paths, path, start, end, original, changed) {
            prev.push(
                "- "@ + line_ref_spec(it.source.path, it.source.line_start as nat, it.source.line_end as nat) + ": "@
                    + it.raw,
            )
        } else {
            prev
        }
    }
}

/// Whether the note holds what the reference names (see `reference_exists`).
fn reference_in(n: &ParsedNote, r: &ReferenceInfo) -> (b: bool)
    ensures
        b == reference_exists(*n, r@),
{
    match r {
        ReferenceInfo::Heading { value } => heading_in(n, value.as_str()),
        ReferenceInfo::MultiHeading { value } => {
            if value.len() == 0 {
                return false;
            }
            let last = value[value.len() - 1].as_str();
            let b = heading_in(n, last);
            assert(r@ == ReferenceView::MultiHeading(value@.map_values(|v: String| v@)));
            assert(value@.map_values(|v: String| v@).last() == last@);
            b
        },
        ReferenceInfo::BlockId { value } => {
            let mut k: usize = 0;
            assert(r@ == ReferenceView::BlockId(value@));
            while k < n.blocks.len()
                invariant
                    r@ == ReferenceView::BlockId(value@),
                    k <= n.blocks@.len(),
                    forall|j: int| 0 <= j < k ==> (#[trigger] n.blocks@[j]).id@ != value@,
                decreases n.blocks@.len() - k,
            {
                if str_eq(n.blocks[k].id.as_str(), value.as_str()) {
                    assert(r@ == ReferenceView::BlockId(value@));
                    assert(n.blocks@[k as int].id@ == value@);
                    return true;
                }
                k = k + 1;
            }
            false
        },
    }
}

fn heading_in(n: &ParsedNote, v: &str) -> (b: bool)
    ensures
        b == exists|k: int|
            0 <= k < n.headings@.len() && ((#[trigger] n.headings@[k]).text@ == v@ || n.headings@[k].anchor@ == v@),
{
    let mut k: usize = 0;
    while k < n.headings.len()
        invariant
            k <= n.headings@.len(),
            forall|j: int| 0 <= j < k ==> (#[trigger] n.headings@[j]).text@ != v@ && n.headings@[j].anchor@ != v@,
        decreases n.headings@.len() - k,
    {
        if str_eq(n.headings[k].text.as_str(), v) || str_eq(n.headings[k].anchor.as_str(), v) {
            return true;
        }
        k = k + 1;
    }
    false
}

/// The line of a reference: where it stands and its raw text.
fn reference_line(source: &crate::parser::SourceSpan, raw: &str) -> (r: String)
    ensures
        r@ == "- "@ + line_ref_spec(source.path@, source.line_start as nat, source.line_end as nat) + ": "@ + raw@,
{
    proof {
        reveal_strlit("- ");
        reveal_strlit(": ");
    }
    let mut line = to_string("- ");
    push_str(&mut line, source.path_with_line_ref().as_str());
    push_str(&mut line, ": ");
    push_str(&mut line, raw);
    line
}

/// The paths of the notes.
pub open spec fn paths_of(notes: Seq<ParsedNote>) -> Seq<Seq<char>> {
    notes.map_values(|n: ParsedNote| n.path@)
}

/// The position of the first note with the path.
pub open spec fn first_note(notes: Seq<ParsedNote>, path: Seq<char>) -> Option<int>
    decreases notes.len(),
{
    if notes.len() == 0 {
        None
    } else if notes[0].path@ == path {
        Some(0)
    } else {
        match first_note(notes.drop_first(), path) {
            Some(k) => Some(k + 1),
            None => None,
        }
    }
}

/// What checking an edit of the note at `path` (its bytes `start..end` replaced, the note
/// parsed afresh as `changed`) against the vault's notes gives: the refusal of a note that is
/// not among them, the refusal that lists each reference the edit would break, or success.
pub open spec fn broken_check_spec(
    notes: Seq<ParsedNote>,
    path: Seq<char>,
    changed: ParsedNote,
    start: int,
    end: int,
    operation: Seq<char>,
) -> Result<(), Seq<char>> {
    match first_note(notes, path) {
        None => Err("note not found: "@ + path),
        Some(k) => {
            let lines = broken_lines(vault_refs(notes), paths_of(notes), path, start, end, notes[k], changed);
            if lines.len() == 0 {
                Ok(())
            } else {
                Err(operation + " would break references:\n"@ + join_with(lines, "\n"@))
            }
        },
    }
}

fn find_note(notes: &Vec<ParsedNote>, path: &str) -> (r: Option<usize>)
    ensures
        r matches Some(x) ==> x < notes@.len() && first_note(notes@, path@) == Some(x as int),
        match first_note(notes@, path@) {
            Some(k) => r == Some(k as usize) && k < notes@.len(),
            None => r is None,
        },
{
    let mut k: usize = 0;
    assert(notes@.skip(0) =~= notes@);
    while k < notes.len()
        invariant
            k <= notes@.len(),
            first_note(notes@, path@) == match first_note(notes@.skip(k as int), path@) {
                Some(j) => Some(j + k),
                None => None::<int>,
            },
        decreases notes@.len() - k,
    {
        let ghost rest = notes@.skip(k as int);
        assert(rest.drop_first() =~= notes@.skip(k + 1));
        assert(rest[0] == notes@[k as int]);
        if str_eq(notes[k].path.as_str(), path) {
            return Some(k);
        }
        k = k + 1;
    }
    assert(notes@.skip(k as int).len() == 0);
    None
}

/// Checks an edit of the note at `path` against the references of the vault's notes (see
/// `broken_check_spec`).
pub fn check_broken_references(
    notes: &Vec<ParsedNote>,
    path: &str,
    changed: &ParsedNote,
    replaced_start: usize,
    replaced_end: usize,
    operation: &str,
) -> (r: Result<(), String>)
    ensures
        match broken_check_spec(notes@, path@, *changed, replaced_start as int, replaced_end as int, operation@) {
            Ok(()) => r is Ok,
            Err(m) => r matches Err(e) && e@ == m,
        },
{
    proof {
        reveal_strlit("note not found: ");
        reveal_strlit(" would break references:\n");
        reveal_strlit("\n");
    }
    let k = match find_note(notes, path) {
        Some(k) => k,
        None => {
            let mut m = to_string("note not found: ");
            push_str(&mut m, path);
            return Err(m);
        },
    };
    let original = &notes[k];
    let mut paths: Vec<String> = Vec::new();
    let mut p: usize = 0;
    while p < notes.len()
        invariant
            p <= notes@.len(),
            texts(paths@) == paths_of(notes@).take(p as int),
        decreases notes@.len() - p,
    {
        let ghost before = texts(paths@);
        paths.push(to_string(notes[p].path.as_str()));
        assert(texts(paths@) =~= before.push(notes@[p as int].path@));
        assert(paths_of(notes@).take(p + 1) =~= paths_of(notes@).take(p as int).push(notes@[p as int].path@));
        p = p + 1;
    }
    assert(paths_of(notes@).take(notes@.len() as int) =~= paths_of(notes@));
    let ghost ps = paths_of(notes@);
    let ghost start = replaced_start as int;
    let ghost end = replaced_end as int;
    let mut lines: Vec<String> = Vec::new();
    let mut i: usize = 0;
    assert(notes@.take(0) =~= Seq::<ParsedNote>::empty());
    assert(texts(lines@) =~= Seq::<Seq<char>>::empty());
    while i < notes.len()
        invariant
            i <= notes@.len(),
            k < notes@.len(),
            original == &notes@[k as int],
            texts(paths@) == ps,
            ps == paths_of(notes@),
            start == replaced_start as int,
            end == replaced_end as int,
            texts(lines@) == broken_lines(vault_refs(notes@.take(i as int)), ps, path@, start, end, *original, *changed),
        decreases notes@.len() - i,
    {
        let n = &notes[i];
        let ghost base = vault_refs(notes@.take(i as int));
        let ghost items = note_refs(*n);
        let ghost nl = n.links@.len();
        assert(base + items.take(0) =~= base);
        let at_self = str_eq(n.path.as_str(), path);
        let mut j: usize = 0;
        while j < n.links.len()
            invariant
                j <= n.links@.len(),
                nl == n.links@.len(),
                items == note_refs(*n),
                at_self == (n.path@ == path@),
                texts(paths@) == ps,
                start == replaced_start as int,
                end == replaced_end as int,
                texts(lines@) == broken_lines(base + items.take(j as int), ps, path@, start, end, *original, *changed),
            decreases n.links@.len() - j,
        {
            let l = &n.links[j];
            let hit = match &l.reference {
                None => false,
                Some(rf) => !(at_self && replaced_start <= l.source.byte_start && l.source.byte_start < replaced_end)
                    && leads_to(LinkKind::Wikilink, l.target.as_str(), n.path.as_str(), &paths, path)
                    && reference_in(original, rf) && !reference_in(changed, rf),
            };
            assert((base + items.take(j + 1)).drop_last() =~= base + items.take(j as int));
            assert((base + items.take(j + 1)).last() == items[j as int]);
            assert(items[j as int] == RefItem {
                from: n.path@,
                target: l.target@,
                reference: opt_ref_view(l.reference),
                source: l.source@,
                raw: l.raw@,
            });
            if hit {
                let ghost before = texts(lines@);
                lines.push(reference_line(&l.source, l.raw.as_str()));
                assert(texts(lines@) =~= before.push(lines@.last()@));
            }
            j = j + 1;
        }
        let mut q: usize = 0;
        while q < n.embeds.len()
            invariant
                q <= n.embeds@.len(),
                nl == n.links@.len(),
                items == note_refs(*n),
                at_self == (n.path@ == path@),
                texts(paths@) == ps,
                start == replaced_start as int,
                end == replaced_end as int,
                texts(lines@) == broken_lines(base + items.take(nl + q), ps, path@, start, end, *original, *changed),
            decreases n.embeds@.len() - q,
        {
            let e = &n.embeds[q];
            let hit = match &e.reference {
                None => false,
                Some(rf) => !(at_self && replaced_start <= e.source.byte_start && e.source.byte_start < replaced_end)
                    && leads_to(LinkKind::Wikilink, e.target.as_str(), n.path.as_str(), &paths, path)
                    && reference_in(original, rf) && !reference_in(changed, rf),
            };
            assert((base + items.take(nl + q + 1)).drop_last() =~= base + items.take(nl + q));
            assert((base + items.take(nl + q + 1)).last() == items[nl + q]);
            assert(items[nl + q] == RefItem {
                from: n.path@,
                target: e.target@,
                reference: opt_ref_view(e.reference),
                source: e.source@,
                raw: e.raw@,
            });
            if hit {
                let ghost before = texts(lines@);
                lines.push(reference_line(&e.source, e.raw.as_str()));
                assert(texts(lines@) =~= before.push(lines@.last()@));
            }
            q = q + 1;
        }
        assert(items.take(items.len() as int) =~= items);
        assert(notes@.take(i + 1).drop_last() =~= notes@.take(i as int));
        assert(notes@.take(i + 1).last() == notes@[i as int]);
        i = i + 1;
    }
    assert(notes@.take(notes@.len() as int) =~= notes@);
    if lines.len() == 0 {
        return Ok(());
    }
    let mut m = to_string(operation);
    push_str(&mut m, " would break references:\n");
    push_str(&mut m, join_texts(&lines, "\n").as_str());
    Err(m)
}

/// The note a reference resolves to: the one note its target picks from the note it stands
/// in.
pub open spec fn target_of(item: RefItem, paths: Seq<Seq<char>>) -> Option<Seq<char>> {
    match resolve_spec(LinkKind::Wikilink, item.target, item.from, paths) {
        ResolutionView::Note(p) => Some(p),
        _ => None,
    }
}

/// The note holds what the reference names, if it names anything.
pub open spec fn names_held(n: ParsedNote, r: Option<ReferenceView>) -> bool {
    match r {
        Some(v) => reference_exists(n, v),
        None => true,
    }
}

/// The edits break the reference: it resolves to a note that held what it names before and
/// lacks it after.
pub open spec fn preserved_breaks(item: RefItem, original: Seq<ParsedNote>, updated: Seq<ParsedNote>) -> bool {
    match target_of(item, paths_of(original)) {
        None => false,
        Some(t) => match first_note(original, t) {
            None => false,
            Some(k) => names_held(original[k], item.reference) && !names_held(updated[k], item.reference),
        },
    }
}

/// Two references are the same: same target, same heading or block, same raw text.
pub open spec fn same_ref(a: RefItem, b: RefItem) -> bool {
    a.target == b.target && a.reference == b.reference && a.raw == b.raw
}

/// The first position of a reference that is the same as `it`.
pub open spec fn find_same(rem: Seq<RefItem>, it: RefItem) -> Option<int>
    decreases rem.len(),
{
    if rem.len() == 0 {
        None
    } else if same_ref(rem[0], it) {
        Some(0)
    } else {
        match find_same(rem.drop_first(), it) {
            Some(k) => Some(k + 1),
            None => None,
        }
    }
}

/// The line of a broken reference, if it breaks.
pub open spec fn preserved_line(it: RefItem, original: Seq<ParsedNote>, updated: Seq<ParsedNote>) -> Seq<Seq<char>> {
    if preserved_breaks(it, original, updated) {
        seq!["- "@ + line_ref_spec(it.source.path, it.source.line_start as nat, it.source.line_end as nat) + ": "@ + it.raw]
    } else {
        Seq::empty()
    }
}

/// The broken references among a note's references `items`, in order. In an edited note, a
/// reference counts only when the edited note still has the same reference (each one matched
/// once, first come first served); the others were removed by the edit.
pub open spec fn preserved_lines(
    items: Seq<RefItem>,
    rem: Seq<RefItem>,
    edited: bool,
    original: Seq<ParsedNote>,
    updated: Seq<ParsedNote>,
) -> Seq<Seq<char>>
    decreases items.len(),
{
    if items.len() == 0 {
        Seq::empty()
    } else {
        let it = items[0];
        if edited {
            match find_same(rem, it) {
                None => preserved_lines(items.drop_first(), rem, edited, original, updated),
                Some(p) => preserved_line(it, original, updated) + preserved_lines(
                    items.drop_first(),
                    rem.remove(p),
                    edited,
                    original,
                    updated,
                ),
            }
        } else {
            preserved_line(it, original, updated) + preserved_lines(items.drop_first(), rem, edited, original, updated)
        }
    }
}

/// The broken references of the notes from the `i`th on.
pub open spec fn vault_preserved_lines(
    original: Seq<ParsedNote>,
    updated: Seq<ParsedNote>,
    edited: Seq<Seq<char>>,
    i: int,
) -> Seq<Seq<char>>
    decreases original.len() - i,
{
    if i < 0 || i >= original.len() {
        Seq::empty()
    } else {
        preserved_lines(
            note_refs(original[i]),
            note_refs(updated[i]),
            edited.contains(original[i].path@),
            original,
            updated,
        ) + vault_preserved_lines(original, updated, edited, i + 1)
    }
}

/// The first edited path that no note has.
pub open spec fn missing_edit(original: Seq<ParsedNote>, edited: Seq<Seq<char>>) -> Option<Seq<char>>
    decreases edited.len(),
{
    if edited.len() == 0 {
        None
    } else if first_note(original, edited[0]) is None {
        Some(edited[0])
    } else {
        missing_edit(original, edited.drop_first())
    }
}

/// What checking edits of several notes gives: the refusal of an edited note that is not in
/// the vault; the refusal that lists each reference the edits would break; or success.
pub open spec fn preserved_check_spec(original: Seq<ParsedNote>, updated: Seq<ParsedNote>, edited: Seq<Seq<char>>) -> Result<
    (),
    Seq<char>,
> {
    match missing_edit(original, edited) {
        Some(p) => Err("note is not visible in vault: "@ + p),
        None => {
            let lines = vault_preserved_lines(original, updated, edited, 0);
            if lines.len() == 0 {
                Ok(())
            } else {
                Err("edit would break references:\n"@ + join_with(lines, "\n"@))
            }
        },
    }
}

/// The `m`th reference of a note (its links, then its embeds) by its parts.
fn item_at(n: &ParsedNote, m: usize) -> (r: (&str, &Option<ReferenceInfo>, &str, &crate::parser::SourceSpan))
    requires
        m < note_refs(*n).len(),
    ensures
        r.0@ == note_refs(*n)[m as int].target,
        opt_ref_view(*r.1) == note_refs(*n)[m as int].reference,
        r.2@ == note_refs(*n)[m as int].raw,
        r.3@ == note_refs(*n)[m as int].source,
        note_refs(*n)[m as int].from == n.path@,
{
    if m < n.links.len() {
        let l = &n.links[m];
        (l.target.as_str(), &l.reference, l.raw.as_str(), &l.source)
    } else {
        let e = &n.embeds[m - n.links.len()];
        (e.target.as_str(), &e.reference, e.raw.as_str(), &e.source)
    }
}

/// Whether two references name the same heading or block.
fn same_reference(a: &Option<ReferenceInfo>, b: &Option<ReferenceInfo>) -> (r: bool)
    ensures
        r == (opt_ref_view(*a) == opt_ref_view(*b)),
{
    match (a, b) {
        (None, None) => true,
        (Some(ReferenceInfo::Heading { value: x }), Some(ReferenceInfo::Heading { value: y })) => str_eq(x.as_str(), y.as_str()),
        (Some(ReferenceInfo::BlockId { value: x }), Some(ReferenceInfo::BlockId { value: y })) => str_eq(x.as_str(), y.as_str()),
        (Some(ReferenceInfo::MultiHeading { value: x }), Some(ReferenceInfo::MultiHeading { value: y })) => {
            let ghost xv = x@.map_values(|v: String| v@);
            let ghost yv = y@.map_values(|v: String| v@);
            if x.len() != y.len() {
                assert(xv.len() != yv.len());
                return false;
            }
            let mut k: usize = 0;
            while k < x.len()
                invariant
                    k <= x@.len(),
                    x@.len() == y@.len(),
                    xv == x@.map_values(|v: String| v@),
                    yv == y@.map_values(|v: String| v@),
                    forall|j: int| 0 <= j < k ==> xv[j] == yv[j],
                    opt_ref_view(*a) == Some(ReferenceView::MultiHeading(xv)),
                    opt_ref_view(*b) == Some(ReferenceView::MultiHeading(yv)),
                decreases x@.len() - k,
            {
                if !str_eq(x[k].as_str(), y[k].as_str()) {
                    assert(xv[k as int] != yv[k as int]);
                    return false;
                }
                k = k + 1;
            }
            assert(xv =~= yv);
            true
        },
        _ => false,
    }
}

/// Whether the note holds what the reference names (see `names_held`).
fn held(n: &ParsedNote, r: &Option<ReferenceInfo>) -> (b: bool)
    ensures
        b == names_held(*n, opt_ref_view(*r)),
{
    match r {
        Some(x) => reference_in(n, x),
        None => true,
    }
}

/// The references at the positions, in order.
pub open spec fn rem_view(items: Seq<RefItem>, rem: Seq<usize>) -> Seq<RefItem> {
    rem.map_values(|j: usize| items[j as int])
}

/// The first position in `rem` of a reference that is the same as the given one.
fn find_same_at(
    n: &ParsedNote,
    rem: &Vec<usize>,
    target: &str,
    reference: &Option<ReferenceInfo>,
    raw: &str,
    it: Ghost<RefItem>,
) -> (r: Option<usize>)
    requires
        forall|q: int| 0 <= q < rem@.len() ==> (#[trigger] rem@[q]) < note_refs(*n).len(),
        target@ == it@.target,
        opt_ref_view(*reference) == it@.reference,
        raw@ == it@.raw,
    ensures
        r matches Some(x) ==> x < rem@.len() && find_same(rem_view(note_refs(*n), rem@), it@) == Some(x as int),
        match find_same(rem_view(note_refs(*n), rem@), it@) {
            Some(k) => r == Some(k as usize) && k < rem@.len(),
            None => r is None,
        },
{
    let ghost rv = rem_view(note_refs(*n), rem@);
    let mut p: usize = 0;
    assert(rv.skip(0) =~= rv);
    while p < rem.len()
        invariant
            p <= rem@.len(),
            rv == rem_view(note_refs(*n), rem@),
            forall|q: int| 0 <= q < rem@.len() ==> (#[trigger] rem@[q]) < note_refs(*n).len(),
            target@ == it@.target,
            opt_ref_view(*reference) == it@.reference,
            raw@ == it@.raw,
            find_same(rv, it@) == match find_same(rv.skip(p as int), it@) {
                Some(j) => Some(j + p),
                None => None::<int>,
            },
        decreases rem@.len() - p,
    {
        let ghost rest = rv.skip(p as int);
        assert(rest.drop_first() =~= rv.skip(p + 1));
        assert(rest[0] == rv[p as int]);
        let (t, rf, w, _) = item_at(n, rem[p]);
        if str_eq(t, target) && same_reference(rf, reference) && str_eq(w, raw) {
            return Some(p);
        }
        p = p + 1;
    }
    assert(rv.skip(p as int).len() == 0);
    None
}

/// Whether the edits break the reference (see `preserved_breaks`).
fn breaks_preserved(
    original: &Vec<ParsedNote>,
    updated: &Vec<ParsedNote>,
    paths: &Vec<String>,
    from: &str,
    target: &str,
    reference: &Option<ReferenceInfo>,
    it: Ghost<RefItem>,
) -> (b: bool)
    requires
        original@.len() == updated@.len(),
        texts(paths@) == paths_of(original@),
        target@ == it@.target,
        from@ == it@.from,
        opt_ref_view(*reference) == it@.reference,
    ensures
        b == preserved_breaks(it@, original@, updated@),
{
    match resolve_reference(LinkKind::Wikilink, target, from, paths) {
        LinkResolution::Note { path } => match find_note(original, path.as_str()) {
            Some(k) => held(&original[k], reference) && !held(&updated[k], reference),
            None => false,
        },
        _ => false,
    }
}

/// Checks edits of several notes against the references of the vault's notes (see
/// `preserved_check_spec`): `updated` holds each note as the edits leave it, in the order of
/// `original`, and `edited` the paths of the edited notes.
pub fn check_preserved_references(
    original: &Vec<ParsedNote>,
    updated: &Vec<ParsedNote>,
    edited: &Vec<String>,
) -> (r: Result<(), String>)
    requires
        original@.len() == updated@.len(),
        forall|i: int| 0 <= i < original@.len() ==> (#[trigger] updated@[i]).path@ == original@[i].path@,
        forall|i: int| 0 <= i < original@.len() ==> (#[trigger] original@[i]).links@.len() + original@[i].embeds@.len() <= usize::MAX,
        forall|i: int| 0 <= i < updated@.len() ==> (#[trigger] updated@[i]).links@.len() + updated@[i].embeds@.len() <= usize::MAX,
    ensures
        match preserved_check_spec(original@, updated@, texts(edited@)) {
            Ok(()) => r is Ok,
            Err(m) => r matches Err(e) && e@ == m,
        },
{
    proof {
        reveal_strlit("note is not visible in vault: ");
        reveal_strlit("edit would break references:\n");
        reveal_strlit("\n");
    }
    let ghost ev = texts(edited@);
    let mut e: usize = 0;
    assert(ev.skip(0) =~= ev);
    while e < edited.len()
        invariant
            e <= edited@.len(),
            ev == texts(edited@),
            missing_edit(original@, ev) == missing_edit(original@, ev.skip(e as int)),
        decreases edited@.len() - e,
    {
        assert(ev.skip(e as int).drop_first() =~= ev.skip(e + 1));
        assert(ev.skip(e as int)[0] == edited@[e as int]@);
        if find_note(original, edited[e].as_str()).is_none() {
            let mut m = to_string("note is not visible in vault: ");
            push_str(&mut m, edited[e].as_str());
            return Err(m);
        }
        e = e + 1;
    }
    assert(ev.skip(e as int).len() == 0);
    let mut paths: Vec<String> = Vec::new();
    let mut p: usize = 0;
    while p < original.len()
        invariant
            p <= original@.len(),
            texts(paths@) == paths_of(original@).take(p as int),
        decreases original@.len() - p,
    {
        let ghost before = texts(paths@);
        paths.push(to_string(original[p].path.as_str()));
        assert(texts(paths@) =~= before.push(original@[p as int].path@));
        assert(paths_of(original@).take(p + 1) =~= paths_of(original@).take(p as int).push(original@[p as int].path@));
        p = p + 1;
    }
    assert(paths_of(original@).take(original@.len() as int) =~= paths_of(original@));
    let ghost total = vault_preserved_lines(original@, updated@, ev, 0);
    let mut lines: Vec<String> = Vec::new();
    let mut i: usize = 0;
    assert(texts(lines@) + total =~= total);
    while i < original.len()
        invariant
            i <= original@.len(),
            original@.len() == updated@.len(),
            forall|q: int| 0 <= q < original@.len() ==> (#[trigger] updated@[q]).path@ == original@[q].path@,
            forall|q: int| 0 <= q < original@.len() ==> (#[trigger] original@[q]).links@.len() + original@[q].embeds@.len() <= usize::MAX,
            forall|q: int| 0 <= q < updated@.len() ==> (#[trigger] updated@[q]).links@.len() + updated@[q].embeds@.len() <= usize::MAX,
            texts(paths@) == paths_of(original@),
            ev == texts(edited@),
            total == vault_preserved_lines(original@, updated@, ev, 0),
            texts(lines@) + vault_preserved_lines(original@, updated@, ev, i as int) == total,
        decreases original@.len() - i,
    {
        let old_note = &original[i];
        let new_note = &updated[i];
        let is_edited = contains_path(edited, old_note.path.as_str());
        let ghost items = note_refs(*old_note);
        let ghost fresh = note_refs(*new_note);
        let ghost rest = vault_preserved_lines(original@, updated@, ev, i + 1);
        let count = new_note.links.len() + new_note.embeds.len();
        let mut rem: Vec<usize> = Vec::new();
        let mut c: usize = 0;
        while c < count
            invariant
                c <= count,
                count == fresh.len(),
                fresh == note_refs(*new_note),
                rem@.len() == c,
                forall|q: int| 0 <= q < c ==> rem@[q] == q,
            decreases count - c,
        {
            rem.push(c);
            c = c + 1;
        }
        assert(rem_view(fresh, rem@) =~= fresh);
        let total_items = old_note.links.len() + old_note.embeds.len();
        let mut m: usize = 0;
        assert(items.skip(0) =~= items);
        while m < total_items
            invariant
                m <= total_items,
                total_items == items.len(),
                items == note_refs(*old_note),
                fresh == note_refs(*new_note),
                old_note == &original@[i as int],
                new_note == &updated@[i as int],
                i < original@.len(),
                original@.len() == updated@.len(),
                texts(paths@) == paths_of(original@),
                is_edited == ev.contains(old_note.path@),
                ev == texts(edited@),
                forall|q: int| 0 <= q < rem@.len() ==> (#[trigger] rem@[q]) < fresh.len(),
                rest == vault_preserved_lines(original@, updated@, ev, i + 1),
                texts(lines@) + preserved_lines(items.skip(m as int), rem_view(fresh, rem@), is_edited, original@, updated@) + rest
                    == total,
            decreases total_items - m,
        {
            let ghost it = items[m as int];
            let ghost rv = rem_view(fresh, rem@);
            assert(items.skip(m as int)[0] == it);
            assert(items.skip(m as int).drop_first() =~= items.skip(m + 1));
            let (target, reference, raw, source) = item_at(old_note, m);
            let mut check = true;
            if is_edited {
                match find_same_at(new_note, &rem, target, reference, raw, Ghost(it)) {
                    None => {
                        check = false;
                    },
                    Some(q) => {
                        let ghost before = rem@;
                        rem.remove(q);
                        assert(rem_view(fresh, rem@) =~= rv.remove(q as int));
                    },
                }
            }
            if check {
                let b = breaks_preserved(original, updated, &paths, old_note.path.as_str(), target, reference, Ghost(it));
                let ghost before = texts(lines@);
                if b {
                    lines.push(reference_line(source, raw));
                    assert(texts(lines@) =~= before + preserved_line(it, original@, updated@));
                } else {
                    assert(texts(lines@) =~= before + preserved_line(it, original@, updated@));
                }
                assert(texts(lines@) + preserved_lines(items.skip(m + 1), rem_view(fresh, rem@), is_edited, original@, updated@)
                    + rest =~= before + (preserved_line(it, original@, updated@) + preserved_lines(
                    items.skip(m + 1),
                    rem_view(fresh, rem@),
                    is_edited,
                    original@,
                    updated@,
                )) + rest);
            }
            m = m + 1;
        }
        assert(items.skip(total_items as int) =~= Seq::<RefItem>::empty());
        assert(texts(lines@) + rest =~= texts(lines@) + Seq::<Seq<char>>::empty() + rest);
        assert(vault_preserved_lines(original@, updated@, ev, i as int) == preserved_lines(
            items,
            fresh,
            ev.contains(original@[i as int].path@),
            original@,
            updated@,
        ) + rest);
        i = i + 1;
    }
    assert(texts(lines@) + Seq::<Seq<char>>::empty() =~= texts(lines@));
    if lines.len() == 0 {
        return Ok(());
    }
    let mut msg = to_string("edit would break references:\n");
    push_str(&mut msg, join_texts(&lines, "\n").as_str());
    Err(msg)
}

/// Whether one of the paths is `p`.
fn contains_path(v: &Vec<String>, p: &str) -> (b: bool)
    ensures
        b == texts(v@).contains(p@),
{
    let mut k: usize = 0;
    while k < v.len()
        invariant
            k <= v@.len(),
            forall|j: int| 0 <= j < k ==> texts(v@)[j] != p@,
        decreases v@.len() - k,
    {
        if str_eq(v[k].as_str(), p) {
            assert(texts(v@)[k as int] == p@);
            return true;
        }
        k = k + 1;
    }
    false
}

} // verus!
