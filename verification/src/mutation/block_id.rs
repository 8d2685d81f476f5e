//! Setting, replacing and deleting a note's block ID: which block a selector picks, when the
//! change is refused, and the text edits that make it (on the note and on the links to it);
//! and the refusal to delete a note that links still lead to.
use vstd::prelude::*;

use crate::markdown::opt_text;
use crate::mutation::history::texts;
use crate::mutation::order::{insert_text, sorted_texts};
use crate::mutation::rename::{
    EditView, TextEdit, block_id_byte_start, block_id_deletion_start, block_id_insertion_point,
    deletion_spec, heading_rewrite_spec, insertion_spec, marker_spec, replace_heading_reference,
};
use crate::parser::note::{BlockInfo, LinkInfo};
use crate::parser::{ReferenceInfo, ReferenceView, SourceSpan, line_ref_spec, opt_ref_view};
use crate::text::{
    byte_len, chars_of, decimal, find_chars, find_from, join_with, push_str, str_byte_len, str_eq,
    to_string, trim, trim_bounds,
};

verus! {

/// A block of a note that a block ID can be given to: its ID, if it has one, its text and
/// where it stands.
#[derive(Debug)]
pub struct BlockCandidate {
    pub id: Option<String>,
    pub text: String,
    pub source: SourceSpan,
}

/// The view of an optional text argument.
pub open spec fn opt_chars(o: Option<&str>) -> Option<Seq<char>> {
    match o {
        Some(s) => Some(s@),
        None => None,
    }
}

/// A block ID as Obsidian writes it: ASCII lower-case letters, digits and hyphens.
pub open spec fn valid_block_id(s: Seq<char>) -> bool {
    forall|i: int| 0 <= i < s.len() ==> ('a' <= #[trigger] s[i] <= 'z' || '0' <= s[i] <= '9' || s[i] == '-')
}

/// The refusal of the selectors and the new ID, if any: exactly one of the old ID and the
/// content selects the block, a content selector is not blank, and the new ID is valid.
pub open spec fn selector_error(old: Option<Seq<char>>, content: Option<Seq<char>>, new: Seq<char>) -> Option<Seq<char>> {
    if old is Some == content is Some {
        Some("provide exactly one block selector: old_block_id or content"@)
    } else if content matches Some(c) && trim(c).len() == 0 {
        Some("content selector must not be empty"@)
    } else if !valid_block_id(new) {
        Some("block_id must be lowercase and contain only ASCII letters, digits, or hyphens"@)
    } else {
        None
    }
}

/// The candidate is selected: by its ID, or by holding the trimmed content.
pub open spec fn candidate_selected(c: BlockCandidate, old: Option<Seq<char>>, content: Option<Seq<char>>) -> bool {
    match (old, content) {
        (Some(o), None) => opt_text(c.id) == Some(o),
        (None, Some(t)) => find_from(c.text@, trim(t), 0) is Some,
        _ => false,
    }
}

/// The positions of the selected candidates, in order.
pub open spec fn selected(cs: Seq<BlockCandidate>, old: Option<Seq<char>>, content: Option<Seq<char>>) -> Seq<int>
    decreases cs.len(),
{
    if cs.len() == 0 {
        Seq::empty()
    } else {
        let p = selected(cs.drop_last(), old, content);
        if candidate_selected(cs.last(), old, content) {
            p.push(cs.len() - 1)
        } else {
            p
        }
    }
}

/// At most 120 characters of a text, with `…` when it was cut.
pub open spec fn preview_spec(t: Seq<char>) -> Seq<char> {
    if t.len() > 120 {
        t.take(120) + seq!['…']
    } else {
        t
    }
}

/// The refusal of a content selector that several blocks hold, with a line per block.
pub open spec fn ambiguous_spec(cs: Seq<BlockCandidate>, chosen: Seq<int>) -> Seq<char> {
    "block content is ambiguous: "@ + decimal(chosen.len()) + " matches\n"@ + join_with(ambiguous_lines(cs, chosen), "\n"@)
}

/// A line per chosen candidate: where it stands and a preview of its text.
pub open spec fn ambiguous_lines(cs: Seq<BlockCandidate>, chosen: Seq<int>) -> Seq<Seq<char>> {
    chosen.map_values(
        |k: int|
            "- "@ + line_ref_spec(cs[k].source.path@, cs[k].source.line_start as nat, cs[k].source.line_end as nat)
                + ": "@ + preview_spec(cs[k].text@),
    )
}

/// The positions of the links whose reference is the block ID `id`, in order.
pub open spec fn block_refs(links: Seq<LinkInfo>, id: Seq<char>) -> Seq<int>
    decreases links.len(),
{
    if links.len() == 0 {
        Seq::empty()
    } else {
        let p = block_refs(links.drop_last(), id);
        if opt_ref_view(links.last().reference) == Some(ReferenceView::BlockId(id)) {
            p.push(links.len() - 1)
        } else {
            p
        }
    }
}

/// The refusal to delete a block ID that links still name, with a line per link.
pub open spec fn referenced_spec(id: Seq<char>, links: Seq<LinkInfo>, refs: Seq<int>) -> Seq<char> {
    "cannot delete referenced block id `"@ + id + "`:\n"@ + join_with(referenced_lines(links, refs), "\n"@)
}

/// A line per referring link: where it stands and its raw text.
pub open spec fn referenced_lines(links: Seq<LinkInfo>, refs: Seq<int>) -> Seq<Seq<char>> {
    refs.map_values(
        |k: int|
            "- "@ + line_ref_spec(links[k].source.path@, links[k].source.line_start as nat, links[k].source.line_end as nat)
                + ": "@ + links[k].raw@,
    )
}

/// The edit of the note's own text: the block's old marker replaced by `^new` (or removed,
/// with the space or line break before it, when `new` is empty), or ` ^new` added at the end
/// of a block without one.
pub open spec fn target_edit_spec(content: Seq<char>, b: BlockCandidate, new: Seq<char>) -> Result<EditView, Seq<char>> {
    let s = b.source.byte_start as int;
    let e = b.source.byte_end as int;
    match opt_text(b.id) {
        Some(p) => match marker_spec(content, s, e, p) {
            Err(m) => Err(m),
            Ok(start) => if start + byte_len(p) + 1 > usize::MAX {
                Err("block id source range is invalid"@)
            } else if new.len() == 0 {
                match deletion_spec(content, s, start) {
                    Err(m) => Err(m),
                    Ok(d) => Ok(EditView { start: d, end: start + byte_len(p) + 1, replacement: Seq::empty() }),
                }
            } else {
                Ok(EditView { start, end: start + byte_len(p) + 1, replacement: seq!['^'] + new })
            },
        },
        None => match insertion_spec(content, s, e) {
            Err(m) => Err(m),
            Ok(start) => Ok(EditView { start, end: start, replacement: " ^"@ + new }),
        },
    }
}

/// The edit of a link that names the block ID `old`: its raw text with `#^old` rewritten to
/// `#^new`, over the link's own bytes.
pub open spec fn reference_edit_spec(l: LinkInfo, old: Seq<char>, new: Seq<char>) -> EditView {
    EditView {
        start: l.source.byte_start as int,
        end: l.source.byte_end as int,
        replacement: heading_rewrite_spec(l.raw@, seq!['^'] + old, seq!['^'] + new),
    }
}

/// Whether the text is a valid block ID (see `valid_block_id`).
pub fn is_valid_block_id(s: &str) -> (b: bool)
    ensures
        b == valid_block_id(s@),
{
    let cs = chars_of(s);
    let mut i: usize = 0;
    while i < cs.len()
        invariant
            cs@ == s@,
            i <= cs@.len(),
            forall|j: int| 0 <= j < i ==> ('a' <= #[trigger] cs@[j] <= 'z' || '0' <= cs@[j] <= '9' || cs@[j] == '-'),
        decreases cs@.len() - i,
    {
        let c = cs[i];
        if !(('a' <= c && c <= 'z') || ('0' <= c && c <= '9') || c == '-') {
            assert(!('a' <= s@[i as int] <= 'z' || '0' <= s@[i as int] <= '9' || s@[i as int] == '-'));
            return false;
        }
        i = i + 1;
    }
    true
}

/// The trimmed text, as characters.
fn trimmed_chars(s: &str) -> (r: Vec<char>)
    ensures
        r@ == trim(s@),
{
    let cs = chars_of(s);
    let (a, b) = trim_bounds(&cs, 0, cs.len());
    assert(cs@.subrange(0, cs@.len() as int) =~= cs@);
    crate::parser::chars_range(&cs, a, b)
}

/// The refusal of the selectors and the new ID (see `selector_error`).
pub fn check_block_selectors(old_block_id: Option<&str>, content: Option<&str>, new_block_id: &str) -> (r: Option<
    String,
>)
    ensures
        opt_text(r) == selector_error(opt_chars(old_block_id), opt_chars(content), new_block_id@),
{
    if old_block_id.is_some() == content.is_some() {
        return Some(to_string("provide exactly one block selector: old_block_id or content"));
    }
    if let Some(c) = content {
        if trimmed_chars(c).len() == 0 {
            return Some(to_string("content selector must not be empty"));
        }
    }
    if !is_valid_block_id(new_block_id) {
        return Some(to_string("block_id must be lowercase and contain only ASCII letters, digits, or hyphens"));
    }
    None
}

/// The positions of the candidates that the selectors pick (see `selected`).
pub fn select_candidates(candidates: &Vec<BlockCandidate>, old_block_id: Option<&str>, content: Option<&str>) -> (r: Vec<
    usize,
>)
    ensures
        r@.map_values(|k: usize| k as int) == selected(candidates@, opt_chars(old_block_id), opt_chars(content)),
{
    let ghost old = opt_chars(old_block_id);
    let ghost sel = opt_chars(content);
    let pattern: Vec<char> = match content {
        Some(c) => trimmed_chars(c),
        None => Vec::new(),
    };
    let mut r: Vec<usize> = Vec::new();
    let mut k: usize = 0;
    assert(candidates@.take(0) =~= Seq::<BlockCandidate>::empty());
    assert(r@.map_values(|k: usize| k as int) =~= Seq::<int>::empty());
    while k < candidates.len()
        invariant
            k <= candidates@.len(),
            old == opt_chars(old_block_id),
            sel == opt_chars(content),
            content matches Some(c) ==> pattern@ == trim(c@),
            r@.map_values(|k: usize| k as int) == selected(candidates@.take(k as int), old, sel),
        decreases candidates@.len() - k,
    {
        let c = &candidates[k];
        let hit = match (old_block_id, content) {
            (Some(o), None) => match &c.id {
                Some(i) => str_eq(i.as_str(), o),
                None => false,
            },
            (None, Some(_)) => {
                let found = find_chars(&chars_of(c.text.as_str()), &pattern, 0);
                assert(found is Some <==> find_from(c.text@, pattern@, 0) is Some);
                found.is_some()
            },
            _ => false,
        };
        assert(candidates@.take(k + 1).drop_last() =~= candidates@.take(k as int));
        assert(candidates@.take(k + 1).last() == candidates@[k as int]);
        assert(hit == candidate_selected(candidates@[k as int], old, sel));
        let ghost before = r@;
        if hit {
            r.push(k);
            assert(r@.map_values(|k: usize| k as int) =~= before.map_values(|k: usize| k as int).push(k as int));
        }
        k = k + 1;
    }
    assert(candidates@.take(candidates@.len() as int) =~= candidates@);
    r
}

/// At most 120 characters of the text (see `preview_spec`).
pub fn preview_text(text: &str) -> (r: String)
    ensures
        r@ == preview_spec(text@),
{
    let cs = chars_of(text);
    if cs.len() > 120 {
        let mut r = crate::text::string_of(&cs, 0, 120);
        crate::text::push_char(&mut r, '…');
        assert(cs@.subrange(0, 120) =~= cs@.take(120));
        r
    } else {
        to_string(text)
    }
}

/// The texts joined with `sep` between consecutive ones.
pub(crate) fn join_texts(lines: &Vec<String>, sep: &str) -> (r: String)
    ensures
        r@ == join_with(texts(lines@), sep@),
{
    let ghost mv = texts(lines@);
    let mut r = String::new();
    let mut i: usize = 0;
    while i < lines.len()
        invariant
            i <= lines@.len(),
            mv == texts(lines@),
            r@ == join_with(mv.take(i as int), sep@),
        decreases lines@.len() - i,
    {
        assert(mv.take(i + 1).drop_last() =~= mv.take(i as int));
        if i > 0 {
            push_str(&mut r, sep);
        } else {
            assert(mv.take(0) =~= Seq::<Seq<char>>::empty());
            assert(mv.take(1) =~= seq![mv[0]]);
        }
        push_str(&mut r, lines[i].as_str());
        i = i + 1;
    }
    assert(mv.take(lines@.len() as int) =~= mv);
    r
}

/// The refusal of an ambiguous content selector (see `ambiguous_spec`).
fn ambiguous_message(candidates: &Vec<BlockCandidate>, chosen: &Vec<usize>) -> (r: String)
    requires
        forall|j: int| 0 <= j < chosen@.len() ==> #[trigger] chosen@[j] < candidates@.len(),
    ensures
        r@ == ambiguous_spec(candidates@, chosen@.map_values(|k: usize| k as int)),
{
    let ghost cs = candidates@;
    let ghost ch = chosen@.map_values(|k: usize| k as int);
    let ghost want = ambiguous_lines(cs, ch);
    let mut lines: Vec<String> = Vec::new();
    let mut i: usize = 0;
    while i < chosen.len()
        invariant
            i <= chosen@.len(),
            cs == candidates@,
            forall|j: int| 0 <= j < chosen@.len() ==> #[trigger] chosen@[j] < candidates@.len(),
            ch == chosen@.map_values(|k: usize| k as int),
            want == ambiguous_lines(cs, ch),
            texts(lines@) == want.take(i as int),
        decreases chosen@.len() - i,
    {
        let c = &candidates[chosen[i]];
        let mut line = to_string("- ");
        push_str(&mut line, c.source.path_with_line_ref().as_str());
        push_str(&mut line, ": ");
        push_str(&mut line, preview_text(c.text.as_str()).as_str());
        proof {
            reveal_strlit("- ");
            reveal_strlit(": ");
        }
        let ghost before = texts(lines@);
        lines.push(line);
        assert(texts(lines@) =~= before.push(line@));
        assert(want.take(i + 1) =~= want.take(i as int).push(want[i as int]));
        assert(want[i as int] =~= line@);
        i = i + 1;
    }
    assert(want.take(chosen@.len() as int) =~= want);
    let mut r = to_string("block content is ambiguous: ");
    crate::text::push_decimal(&mut r, chosen.len() as u128);
    push_str(&mut r, " matches\n");
    push_str(&mut r, join_texts(&lines, "\n").as_str());
    r
}

/// The positions of the links whose reference is the block ID (see `block_refs`).
pub fn block_references(links: &Vec<LinkInfo>, id: &str) -> (r: Vec<usize>)
    ensures
        r@.map_values(|k: usize| k as int) == block_refs(links@, id@),
        forall|j: int| 0 <= j < r@.len() ==> #[trigger] r@[j] < links@.len(),
{
    let mut r: Vec<usize> = Vec::new();
    let mut k: usize = 0;
    assert(links@.take(0) =~= Seq::<LinkInfo>::empty());
    assert(r@.map_values(|k: usize| k as int) =~= Seq::<int>::empty());
    while k < links.len()
        invariant
            k <= links@.len(),
            r@.map_values(|k: usize| k as int) == block_refs(links@.take(k as int), id@),
            forall|j: int| 0 <= j < r@.len() ==> #[trigger] r@[j] < k,
        decreases links@.len() - k,
    {
        let hit = match &links[k].reference {
            Some(ReferenceInfo::BlockId { value }) => str_eq(value.as_str(), id),
            _ => false,
        };
        assert(links@.take(k + 1).drop_last() =~= links@.take(k as int));
        assert(links@.take(k + 1).last() == links@[k as int]);
        assert(hit == (opt_ref_view(links@[k as int].reference) == Some(ReferenceView::BlockId(id@))));
        let ghost before = r@;
        if hit {
            r.push(k);
            assert(r@.map_values(|k: usize| k as int) =~= before.map_values(|k: usize| k as int).push(k as int));
        }
        k = k + 1;
    }
    assert(links@.take(links@.len() as int) =~= links@);
    r
}

/// The refusal to delete a block ID that links name (see `referenced_spec`).
fn referenced_message(id: &str, links: &Vec<LinkInfo>, refs: &Vec<usize>) -> (r: String)
    requires
        forall|j: int| 0 <= j < refs@.len() ==> #[trigger] refs@[j] < links@.len(),
    ensures
        r@ == referenced_spec(id@, links@, refs@.map_values(|k: usize| k as int)),
{
    let ghost ls = links@;
    let ghost ch = refs@.map_values(|k: usize| k as int);
    let ghost want = referenced_lines(ls, ch);
    let mut lines: Vec<String> = Vec::new();
    let mut i: usize = 0;
    while i < refs.len()
        invariant
            i <= refs@.len(),
            ls == links@,
            forall|j: int| 0 <= j < refs@.len() ==> #[trigger] refs@[j] < links@.len(),
            ch == refs@.map_values(|k: usize| k as int),
            want == referenced_lines(ls, ch),
            texts(lines@) == want.take(i as int),
        decreases refs@.len() - i,
    {
        let l = &links[refs[i]];
        let mut line = to_string("- ");
        push_str(&mut line, l.source.path_with_line_ref().as_str());
        push_str(&mut line, ": ");
        push_str(&mut line, l.raw.as_str());
        proof {
            reveal_strlit("- ");
            reveal_strlit(": ");
        }
        let ghost before = texts(lines@);
        lines.push(line);
        assert(texts(lines@) =~= before.push(line@));
        assert(want.take(i + 1) =~= want.take(i as int).push(want[i as int]));
        assert(want[i as int] =~= line@);
        i = i + 1;
    }
    assert(want.take(refs@.len() as int) =~= want);
    let mut r = to_string("cannot delete referenced block id `");
    push_str(&mut r, id);
    push_str(&mut r, "`:\n");
    push_str(&mut r, join_texts(&lines, "\n").as_str());
    r
}

/// An edit by its numbers and text.
pub open spec fn edit_view(e: TextEdit) -> EditView {
    EditView { start: e.start as int, end: e.end as int, replacement: e.replacement@ }
}

/// The edit of the note's own text (see `target_edit_spec`).
pub fn target_edit(content: &str, block: &BlockCandidate, new_block_id: &str) -> (r: Result<TextEdit, String>)
    ensures
        match target_edit_spec(content@, *block, new_block_id@) {
            Ok(e) => r matches Ok(t) && edit_view(t) == e,
            Err(m) => r matches Err(x) && x@ == m,
        },
{
    let bs = block.source.byte_start;
    let be = block.source.byte_end;
    proof {
        reveal_strlit("^");
        reveal_strlit(" ^");
        reveal_strlit("block id source range is invalid");
    }
    match &block.id {
        Some(p) => {
            let start = match block_id_byte_start(content, bs, be, p.as_str()) {
                Ok(s) => s,
                Err(m) => return Err(m),
            };
            let plen = str_byte_len(p.as_str());
            if plen >= usize::MAX - start {
                return Err(to_string("block id source range is invalid"));
            }
            let end = start + plen + 1;
            assert(end == start + byte_len(p@) + 1);
            if chars_of(new_block_id).len() == 0 {
                assert(new_block_id@.len() == 0);
                let d = match block_id_deletion_start(content, bs, start) {
                    Ok(d) => d,
                    Err(m) => return Err(m),
                };
                let t = TextEdit { start: d, end, replacement: String::new() };
                assert(edit_view(t).replacement =~= Seq::<char>::empty());
                Ok(t)
            } else {
                let mut rep = to_string("^");
                push_str(&mut rep, new_block_id);
                assert(rep@ =~= seq!['^'] + new_block_id@);
                Ok(TextEdit { start, end, replacement: rep })
            }
        },
        None => {
            let start = match block_id_insertion_point(content, bs, be) {
                Ok(s) => s,
                Err(m) => return Err(m),
            };
            let mut rep = to_string(" ^");
            push_str(&mut rep, new_block_id);
            assert(rep@ =~= " ^"@ + new_block_id@);
            Ok(TextEdit { start, end: start, replacement: rep })
        },
    }
}

/// What a block ID change does: the block's old and new ID, how many links it rewrites, and
/// the edits, each with the path of the note it applies to.
#[derive(Debug)]
pub struct BlockIdPlan {
    pub previous_block_id: Option<String>,
    pub block_id: Option<String>,
    pub updated_references: usize,
    /// The paths of the notes that the edits change, sorted, each once.
    pub changed_notes: Vec<String>,
    pub edits: Vec<(String, TextEdit)>,
}

/// A block ID change by its texts and numbers.
pub struct BlockIdPlanView {
    pub previous_block_id: Option<Seq<char>>,
    pub block_id: Option<Seq<char>>,
    pub updated_references: nat,
    pub edits: Seq<(Seq<char>, EditView)>,
}

impl View for BlockIdPlan {
    type V = BlockIdPlanView;

    open spec fn view(&self) -> BlockIdPlanView {
        BlockIdPlanView {
            previous_block_id: opt_text(self.previous_block_id),
            block_id: opt_text(self.block_id),
            updated_references: self.updated_references as nat,
            edits: self.edits@.map_values(|e: (String, TextEdit)| (e.0@, edit_view(e.1))),
        }
    }
}

/// What setting the block ID `new` does to the note at `path` with text `content`, whose
/// blocks are `cands` and whose block IDs are `ids`, given the links `links` that lead to the
/// note: the refusal of the selectors, of a missing or ambiguous block, of deleting an ID that
/// the block lacks or that links name, or of an ID that the note already has; else the edit
/// of the block's marker and, when the block had an ID, the rewrite of each link to it.
pub open spec fn set_block_id_spec(
    path: Seq<char>,
    content: Seq<char>,
    cands: Seq<BlockCandidate>,
    ids: Seq<Seq<char>>,
    old: Option<Seq<char>>,
    sel: Option<Seq<char>>,
    new: Seq<char>,
    links: Seq<LinkInfo>,
) -> Result<BlockIdPlanView, Seq<char>> {
    match selector_error(old, sel, new) {
        Some(m) => Err(m),
        None => {
            let chosen = selected(cands, old, sel);
            if chosen.len() == 0 {
                Err("block not found: "@ + match old {
                    Some(o) => o,
                    None => match sel {
                        Some(c) => c,
                        None => Seq::empty(),
                    },
                })
            } else if chosen.len() > 1 {
                Err(ambiguous_spec(cands, chosen))
            } else {
                let b = cands[chosen[0]];
                let prev = opt_text(b.id);
                let refs = match prev {
                    Some(p) => block_refs(links, p),
                    None => Seq::empty(),
                };
                if new.len() == 0 && prev is None {
                    Err("target block does not have a block id to delete"@)
                } else if new.len() == 0 && refs.len() > 0 {
                    Err(referenced_spec(prev->Some_0, links, refs))
                } else if prev != Some(new) && ids.contains(new) {
                    Err("block id already exists in note: "@ + new)
                } else {
                    match target_edit_spec(content, b, new) {
                        Err(m) => Err(m),
                        Ok(e) => Ok(BlockIdPlanView {
                            previous_block_id: prev,
                            block_id: if new.len() == 0 {
                                None
                            } else {
                                Some(new)
                            },
                            updated_references: refs.len(),
                            edits: seq![(path, e)] + refs.map_values(
                                |k: int| (links[k].source.path@, reference_edit_spec(links[k], prev->Some_0, new)),
                            ),
                        }),
                    }
                }
            }
        },
    }
}

/// Whether one of the blocks has the ID.
fn has_block_id(blocks: &Vec<BlockInfo>, id: &str) -> (b: bool)
    ensures
        b == blocks@.map_values(|x: BlockInfo| x.id@).contains(id@),
{
    let ghost ids = blocks@.map_values(|x: BlockInfo| x.id@);
    let mut k: usize = 0;
    while k < blocks.len()
        invariant
            k <= blocks@.len(),
            ids == blocks@.map_values(|x: BlockInfo| x.id@),
            forall|j: int| 0 <= j < k ==> ids[j] != id@,
        decreases blocks@.len() - k,
    {
        if str_eq(blocks[k].id.as_str(), id) {
            assert(ids[k as int] == id@);
            return true;
        }
        k = k + 1;
    }
    false
}

/// Plans setting, replacing or deleting (with an empty `new_block_id`) the block ID of one
/// block of the note at `note_path`, picked by its current ID or by content it holds (see
/// `set_block_id_spec`). `inbound` are the links of the vault's notes that lead to this note.
pub fn set_block_id_plan(
    note_path: &str,
    content: &str,
    candidates: &Vec<BlockCandidate>,
    blocks: &Vec<BlockInfo>,
    old_block_id: Option<&str>,
    content_selector: Option<&str>,
    new_block_id: &str,
    inbound: &Vec<LinkInfo>,
) -> (r: Result<BlockIdPlan, String>)
    ensures
        match set_block_id_spec(
            note_path@,
            content@,
            candidates@,
            blocks@.map_values(|x: BlockInfo| x.id@),
            opt_chars(old_block_id),
            opt_chars(content_selector),
            new_block_id@,
            inbound@,
        ) {
            Ok(p) => r matches Ok(q) && q@ == p && sorted_texts(texts(q.changed_notes@)) && forall|x: Seq<char>|
                texts(q.changed_notes@).contains(x) <==> exists|j: int| 0 <= j < p.edits.len() && (#[trigger] p.edits[j]).0 == x,
            Err(m) => r matches Err(e) && e@ == m,
        },
{
    let ghost old = opt_chars(old_block_id);
    let ghost sel = opt_chars(content_selector);
    let ghost new = new_block_id@;
    let ghost goal = set_block_id_spec(
        note_path@,
        content@,
        candidates@,
        blocks@.map_values(|x: BlockInfo| x.id@),
        old,
        sel,
        new,
        inbound@,
    );
    proof {
        reveal_strlit("block not found: ");
        reveal_strlit("target block does not have a block id to delete");
        reveal_strlit("block id already exists in note: ");
        reveal_strlit("^");
    }
    if let Some(m) = check_block_selectors(old_block_id, content_selector, new_block_id) {
        return Err(m);
    }
    let chosen = select_candidates(candidates, old_block_id, content_selector);
    let ghost ch = chosen@.map_values(|k: usize| k as int);
    assert(forall|j: int| 0 <= j < chosen@.len() ==> #[trigger] chosen@[j] < candidates@.len()) by {
        lemma_selected_in_range(candidates@, old, sel);
        assert forall|j: int| 0 <= j < chosen@.len() implies #[trigger] chosen@[j] < candidates@.len() by {
            assert(ch[j] == chosen@[j] as int);
        }
    }
    if chosen.len() == 0 {
        let mut m = to_string("block not found: ");
        let selector: &str = match old_block_id {
            Some(o) => o,
            None => match content_selector {
                Some(c) => c,
                None => "",
            },
        };
        proof {
            reveal_strlit("");
        }
        push_str(&mut m, selector);
        assert(goal == Err::<BlockIdPlanView, Seq<char>>(m@));
        return Err(m);
    }
    if chosen.len() > 1 {
        let m = ambiguous_message(candidates, &chosen);
        assert(goal == Err::<BlockIdPlanView, Seq<char>>(m@));
        return Err(m);
    }
    let block = &candidates[chosen[0]];
    assert(*block == candidates@[ch[0]]);
    let deleting = chars_of(new_block_id).len() == 0;
    if deleting && block.id.is_none() {
        assert(goal == Err::<BlockIdPlanView, Seq<char>>("target block does not have a block id to delete"@));
        return Err(to_string("target block does not have a block id to delete"));
    }
    let refs: Vec<usize> = match &block.id {
        Some(p) => block_references(inbound, p.as_str()),
        None => Vec::new(),
    };
    let ghost rv = refs@.map_values(|k: usize| k as int);
    assert(rv =~= match opt_text(block.id) {
        Some(p) => block_refs(inbound@, p),
        None => Seq::<int>::empty(),
    });
    if deleting && refs.len() > 0 {
        match &block.id {
            Some(p) => {
                let m = referenced_message(p.as_str(), inbound, &refs);
                assert(goal == Err::<BlockIdPlanView, Seq<char>>(m@));
                return Err(m);
            },
            None => {},
        }
    }
    let same = match &block.id {
        Some(p) => str_eq(p.as_str(), new_block_id),
        None => false,
    };
    if !same && has_block_id(blocks, new_block_id) {
        let mut m = to_string("block id already exists in note: ");
        push_str(&mut m, new_block_id);
        assert(goal == Err::<BlockIdPlanView, Seq<char>>(m@));
        return Err(m);
    }
    let edit = match target_edit(content, block, new_block_id) {
        Ok(e) => e,
        Err(m) => {
            assert(goal == Err::<BlockIdPlanView, Seq<char>>(m@));
            return Err(m);
        },
    };
    let ghost ev = edit_view(edit);
    let mut edits: Vec<(String, TextEdit)> = Vec::new();
    let mut changed: Vec<String> = Vec::new();
    let target_path = to_string(note_path);
    assert(texts(changed@) =~= Seq::<Seq<char>>::empty());
    insert_text(&mut changed, to_string(note_path));
    edits.push((target_path, edit));
    let ghost want = seq![(note_path@, ev)] + rv.map_values(
        |k: int| (inbound@[k].source.path@, reference_edit_spec(inbound@[k], opt_text(block.id)->Some_0, new)),
    );
    assert(edits@.map_values(|e: (String, TextEdit)| (e.0@, edit_view(e.1))) =~= want.take(1));
    let mut i: usize = 0;
    assert(want[0].0 == note_path@);
    assert forall|x: Seq<char>| texts(changed@).contains(x) <==> exists|j: int| 0 <= j < i + 1 && (#[trigger] want[j]).0 == x by {
        if texts(changed@).contains(x) {
            assert(want[0].0 == x);
        }
    }
    if let Some(p) = &block.id {
        let mut from = to_string("^");
        push_str(&mut from, p.as_str());
        let mut to = to_string("^");
        push_str(&mut to, new_block_id);
        assert(from@ =~= seq!['^'] + p@);
        assert(to@ =~= seq!['^'] + new);
        while i < refs.len()
            invariant
                i <= refs@.len(),
                forall|j: int| 0 <= j < refs@.len() ==> #[trigger] refs@[j] < inbound@.len(),
                rv == refs@.map_values(|k: usize| k as int),
                want.len() == refs@.len() + 1,
                want == seq![(note_path@, ev)] + rv.map_values(
                    |k: int| (inbound@[k].source.path@, reference_edit_spec(inbound@[k], p@, new)),
                ),
                from@ == seq!['^'] + p@,
                to@ == seq!['^'] + new,
                edits@.map_values(|e: (String, TextEdit)| (e.0@, edit_view(e.1))) == want.take(i + 1),
                sorted_texts(texts(changed@)),
                forall|x: Seq<char>| texts(changed@).contains(x) <==> exists|j: int| 0 <= j < i + 1 && (#[trigger] want[j]).0 == x,
            decreases refs@.len() - i,
        {
            let l = &inbound[refs[i]];
            let rep = replace_heading_reference(l.raw.as_str(), from.as_str(), to.as_str());
            let e = TextEdit { start: l.source.byte_start, end: l.source.byte_end, replacement: rep };
            let ghost before = edits@.map_values(|e: (String, TextEdit)| (e.0@, edit_view(e.1)));
            let ghost changed_before = texts(changed@);
            insert_text(&mut changed, l.source.path.clone());
            edits.push((l.source.path.clone(), e));
            assert(want[i + 1] == (inbound@[rv[i as int]].source.path@, reference_edit_spec(inbound@[rv[i as int]], p@, new)));
            assert(edits@.map_values(|e: (String, TextEdit)| (e.0@, edit_view(e.1))) =~= before.push(want[i + 1]));
            assert(want.take(i + 2) =~= want.take(i + 1).push(want[i + 1]));
            assert forall|x: Seq<char>| texts(changed@).contains(x) <==> exists|j: int| 0 <= j < i + 2 && (#[trigger] want[j]).0 == x by {
                if texts(changed@).contains(x) && x != want[i + 1].0 {
                    assert(changed_before.contains(x));
                }
                if exists|j: int| 0 <= j < i + 2 && (#[trigger] want[j]).0 == x {
                    let j = choose|j: int| 0 <= j < i + 2 && (#[trigger] want[j]).0 == x;
                    if j < i + 1 {
                        assert(changed_before.contains(x));
                    }
                }
            }
            i = i + 1;
        }
    }
    assert(want.take(refs@.len() as int + 1) =~= want);
    let block_id = if deleting {
        None
    } else {
        Some(to_string(new_block_id))
    };
    let previous_block_id = match &block.id {
        Some(p) => Some(to_string(p.as_str())),
        None => None,
    };
    let plan = BlockIdPlan { previous_block_id, block_id, updated_references: refs.len(), changed_notes: changed, edits };
    assert(goal is Ok);
    assert(plan@.edits == goal->Ok_0.edits);
    assert(plan@ == goal->Ok_0);
    Ok(plan)
}

/// Each selected position is a position of the candidates.
proof fn lemma_selected_in_range(cs: Seq<BlockCandidate>, old: Option<Seq<char>>, sel: Option<Seq<char>>)
    ensures
        forall|j: int| 0 <= j < selected(cs, old, sel).len() ==> 0 <= #[trigger] selected(cs, old, sel)[j] < cs.len(),
    decreases cs.len(),
{
    if cs.len() > 0 {
        lemma_selected_in_range(cs.drop_last(), old, sel);
        let p = selected(cs.drop_last(), old, sel);
        assert forall|j: int| 0 <= j < selected(cs, old, sel).len() implies 0 <= #[trigger] selected(cs, old, sel)[j] < cs.len() by {
            if j < p.len() {
                assert(selected(cs, old, sel)[j] == p[j]);
            }
        }
    }
}

/// What a block ID change reports: whether it was only previewed, the block's old and new
/// IDs, how many links it rewrote, and the notes it changed.
#[derive(Clone, Debug)]
pub struct SetBlockIdResult {
    pub dry_run: bool,
    pub previous_block_id: Option<String>,
    pub block_id: Option<String>,
    pub updated_references: usize,
    pub changed_notes: Vec<String>,
}

impl SetBlockIdResult {
    /// The report of a planned change, applied or previewed.
    pub fn from_plan(plan: BlockIdPlan, dry_run: bool) -> (r: SetBlockIdResult)
        ensures
            r.dry_run == dry_run,
            opt_text(r.previous_block_id) == opt_text(plan.previous_block_id),
            opt_text(r.block_id) == opt_text(plan.block_id),
            r.updated_references == plan.updated_references,
            r.changed_notes@ == plan.changed_notes@,
    {
        SetBlockIdResult {
            dry_run,
            previous_block_id: plan.previous_block_id,
            block_id: plan.block_id,
            updated_references: plan.updated_references,
            changed_notes: plan.changed_notes,
        }
    }
}

/// A line per reference to a note that is to be deleted: where it stands and its raw text.
pub open spec fn reference_lines(refs: Seq<(SourceSpan, String)>) -> Seq<Seq<char>> {
    refs.map_values(
        |r: (SourceSpan, String)|
            "- "@ + line_ref_spec(r.0.path@, r.0.line_start as nat, r.0.line_end as nat) + ": "@ + r.1@,
    )
}

/// The refusal to delete the note at `path` that the links and embeds `inbound` (each with
/// where it stands and its raw text) still lead to; none when nothing leads to it.
pub fn delete_note_refusal(path: &str, inbound: &Vec<(SourceSpan, String)>) -> (r: Option<String>)
    ensures
        inbound@.len() == 0 ==> r is None,
        inbound@.len() > 0 ==> (r matches Some(m) && m@ == "cannot delete referenced note `"@ + path@ + "`:\n"@
            + join_with(reference_lines(inbound@), "\n"@)),
{
    if inbound.len() == 0 {
        return None;
    }
    let ghost want = reference_lines(inbound@);
    let mut lines: Vec<String> = Vec::new();
    let mut i: usize = 0;
    while i < inbound.len()
        invariant
            i <= inbound@.len(),
            want == reference_lines(inbound@),
            texts(lines@) == want.take(i as int),
        decreases inbound@.len() - i,
    {
        let mut line = to_string("- ");
        push_str(&mut line, inbound[i].0.path_with_line_ref().as_str());
        push_str(&mut line, ": ");
        push_str(&mut line, inbound[i].1.as_str());
        proof {
            reveal_strlit("- ");
            reveal_strlit(": ");
        }
        let ghost before = texts(lines@);
        lines.push(line);
        assert(texts(lines@) =~= before.push(line@));
        assert(want.take(i + 1) =~= want.take(i as int).push(want[i as int]));
        assert(want[i as int] =~= line@);
        i = i + 1;
    }
    assert(want.take(inbound@.len() as int) =~= want);
    let mut m = to_string("cannot delete referenced note `");
    push_str(&mut m, path);
    push_str(&mut m, "`:\n");
    push_str(&mut m, join_texts(&lines, "\n").as_str());
    Some(m)
}

/// Setting a block ID is refused, whatever the note and the vault hold: with both selectors or
/// neither; with a blank content selector; with an ID that is not lower-case letters, digits
/// and hyphens; when no block is selected (naming the selector); when several are (one line
/// per block); when deleting the ID of a block that has none; and when deleting an ID that
/// links name (one line per link).
pub proof fn set_block_id_refusals(
    path: Seq<char>,
    content: Seq<char>,
    cands: Seq<BlockCandidate>,
    ids: Seq<Seq<char>>,
    old: Option<Seq<char>>,
    sel: Option<Seq<char>>,
    new: Seq<char>,
    links: Seq<LinkInfo>,
)
    ensures
        (old is Some == sel is Some) ==> set_block_id_spec(path, content, cands, ids, old, sel, new, links) == Err::<
            BlockIdPlanView,
            Seq<char>,
        >("provide exactly one block selector: old_block_id or content"@),
        (old is None && sel is Some && trim(sel->Some_0).len() == 0) ==> set_block_id_spec(
            path,
            content,
            cands,
            ids,
            old,
            sel,
            new,
            links,
        ) == Err::<BlockIdPlanView, Seq<char>>("content selector must not be empty"@),
        (old is Some != sel is Some && (sel is Some ==> trim(sel->Some_0).len() > 0) && !valid_block_id(new))
            ==> set_block_id_spec(path, content, cands, ids, old, sel, new, links) == Err::<BlockIdPlanView, Seq<char>>(
            "block_id must be lowercase and contain only ASCII letters, digits, or hyphens"@,
        ),
        selector_error(old, sel, new) is None && selected(cands, old, sel).len() == 0 ==> set_block_id_spec(
            path,
            content,
            cands,
            ids,
            old,
            sel,
            new,
            links,
        ) == Err::<BlockIdPlanView, Seq<char>>(
            "block not found: "@ + match old {
                Some(o) => o,
                None => sel->Some_0,
            },
        ),
        selector_error(old, sel, new) is None && selected(cands, old, sel).len() > 1 ==> set_block_id_spec(
            path,
            content,
            cands,
            ids,
            old,
            sel,
            new,
            links,
        ) == Err::<BlockIdPlanView, Seq<char>>(ambiguous_spec(cands, selected(cands, old, sel))),
        selector_error(old, sel, new) is None && selected(cands, old, sel).len() == 1 && new.len() == 0 && cands[selected(
            cands,
            old,
            sel,
        )[0]].id is None ==> set_block_id_spec(path, content, cands, ids, old, sel, new, links) == Err::<
            BlockIdPlanView,
            Seq<char>,
        >("target block does not have a block id to delete"@),
        selector_error(old, sel, new) is None && selected(cands, old, sel).len() == 1 && new.len() == 0 && cands[selected(
            cands,
            old,
            sel,
        )[0]].id is Some && block_refs(links, cands[selected(cands, old, sel)[0]].id->Some_0@).len() > 0 ==> set_block_id_spec(
            path,
            content,
            cands,
            ids,
            old,
            sel,
            new,
            links,
        ) == Err::<BlockIdPlanView, Seq<char>>(
            referenced_spec(
                cands[selected(cands, old, sel)[0]].id->Some_0@,
                links,
                block_refs(links, cands[selected(cands, old, sel)[0]].id->Some_0@),
            ),
        ),
{
}

} // verus!
