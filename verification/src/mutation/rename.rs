//! The text edits behind renames and block IDs: where a block ID goes in or comes out of a
//! block, how a heading reference or a wikilink target is rewritten, and a batch of byte-range
//! edits applied from the end of the text backwards.
use vstd::prelude::*;

use crate::blueprint::evidence::{last_match, last_occurrence};
use crate::blueprint::frontmatter::char_index_of_byte;
use crate::parser::{ReferenceInfo, ReferenceView, opt_ref_view, slice_spec, slice_text, starts_with};
use crate::text::{
    byte_len, chars_of, find_chars, find_from, is_boundary, lemma_find_from, push_range, push_str,
    str_byte_len, string_of, to_string,
};

verus! {

/// `a..b` is a range of whole characters of `s`.
pub open spec fn range_ok(s: Seq<char>, a: int, b: int) -> bool {
    a <= b && is_boundary(s, a) && is_boundary(s, b)
}

/// The number of line-break characters (`\r`, `\n`) that end `t`.
pub open spec fn trailing_breaks(t: Seq<char>) -> nat
    decreases t.len(),
{
    if t.len() > 0 && (t.last() == '\r' || t.last() == '\n') {
        trailing_breaks(t.drop_last()) + 1
    } else {
        0
    }
}

/// Where a block ID is added to the block `start..end`: before the line breaks that end it.
pub open spec fn insertion_spec(s: Seq<char>, start: int, end: int) -> Result<int, Seq<char>> {
    if !range_ok(s, start, end) {
        Err("block source range is invalid"@)
    } else {
        Ok(end - trailing_breaks(slice_spec(s, start, end)))
    }
}

/// Checks that `a..b` is a range of whole characters, and gives their positions.
pub(crate) fn char_range(cs: &Vec<char>, a: usize, b: usize) -> (r: Option<(usize, usize)>)
    ensures
        r is Some <==> range_ok(cs@, a as int, b as int),
        r matches Some((x, y)) ==> x <= y <= cs@.len() && byte_len(cs@.take(x as int)) == a && byte_len(
            cs@.take(y as int),
        ) == b,
{
    if a > b {
        return None;
    }
    match (char_index_of_byte(cs, a), char_index_of_byte(cs, b)) {
        (Some(x), Some(y)) => {
            proof {
                if x > y {
                    crate::text::lemma_byte_len_mono(cs@, y as int, x as int);
                }
            }
            Some((x, y))
        },
        _ => None,
    }
}

/// The characters of `s` from position `x` to `y` are the text between their byte offsets.
proof fn lemma_slice_chars(s: Seq<char>, x: int, y: int)
    requires
        0 <= x <= y <= s.len(),
    ensures
        slice_spec(s, byte_len(s.take(x)) as int, byte_len(s.take(y)) as int) == s.subrange(x, y),
{
    crate::parser::lemma_slice_of_chars(s, x, y);
}

/// Where a block ID is added to a block (see `insertion_spec`).
pub fn block_id_insertion_point(content: &str, block_start: usize, block_end: usize) -> (r: Result<usize, String>)
    ensures
        match insertion_spec(content@, block_start as int, block_end as int) {
            Ok(p) => r matches Ok(q) && q == p,
            Err(m) => r matches Err(e) && e@ == m,
        },
{
    let cs = chars_of(content);
    let (x, y) = match char_range(&cs, block_start, block_end) {
        Some(p) => p,
        None => {
            return Err(to_string("block source range is invalid"));
        },
    };
    proof {
        lemma_slice_chars(cs@, x as int, y as int);
    }
    let ghost raw = cs@.subrange(x as int, y as int);
    let mut k = y;
    while k > x && (cs[k - 1] == '\r' || cs[k - 1] == '\n')
        invariant
            x <= k <= y <= cs.len(),
            raw == cs@.subrange(x as int, y as int),
            trailing_breaks(raw) == trailing_breaks(cs@.subrange(x as int, k as int)) + (y - k),
            forall|i: int| k <= i < y ==> (cs@[i] == '\r' || cs@[i] == '\n'),
        decreases k,
    {
        assert(cs@.subrange(x as int, k as int).drop_last() =~= cs@.subrange(x as int, k - 1));
        k -= 1;
    }
    assert(trailing_breaks(cs@.subrange(x as int, k as int)) == 0);
    proof {
        crate::text::lemma_byte_len_mono(cs@, k as int, y as int);
        lemma_ascii_tail(cs@, k as int, y as int);
    }
    Ok(block_end - (y - k))
}

/// Line breaks are one byte each.
proof fn lemma_ascii_tail(s: Seq<char>, k: int, y: int)
    requires
        0 <= k <= y <= s.len(),
        forall|i: int| k <= i < y ==> (s[i] == '\r' || s[i] == '\n'),
    ensures
        byte_len(s.take(y)) == byte_len(s.take(k)) + (y - k),
    decreases y - k,
{
    if y > k {
        lemma_ascii_tail(s, k, y - 1);
        assert(s.take(y).drop_last() =~= s.take(y - 1));
    }
}

/// Where the removal of a block ID marker that starts at `marker` begins: a line break
/// (`\r\n` or `\n`) or a space just before the marker goes with it.
pub open spec fn deletion_spec(s: Seq<char>, start: int, marker: int) -> Result<int, Seq<char>> {
    if !range_ok(s, start, marker) {
        Err("block id source range is invalid"@)
    } else {
        let p = slice_spec(s, start, marker);
        if p.len() >= 2 && p[p.len() - 2] == '\r' && p[p.len() - 1] == '\n' {
            Ok(marker - 2)
        } else if p.len() >= 1 && (p[p.len() - 1] == '\n' || p[p.len() - 1] == ' ') {
            Ok(marker - 1)
        } else {
            Ok(marker)
        }
    }
}

/// Where the removal of a block ID marker begins (see `deletion_spec`).
pub fn block_id_deletion_start(content: &str, block_start: usize, marker_start: usize) -> (r: Result<usize, String>)
    ensures
        match deletion_spec(content@, block_start as int, marker_start as int) {
            Ok(p) => r matches Ok(q) && q == p,
            Err(m) => r matches Err(e) && e@ == m,
        },
{
    let cs = chars_of(content);
    let (x, y) = match char_range(&cs, block_start, marker_start) {
        Some(p) => p,
        None => {
            return Err(to_string("block id source range is invalid"));
        },
    };
    proof {
        lemma_slice_chars(cs@, x as int, y as int);
    }
    let ghost p = cs@.subrange(x as int, y as int);
    let n = y - x;
    if n >= 2 && cs[y - 2] == '\r' && cs[y - 1] == '\n' {
        assert(p[p.len() - 2] == cs@[y - 2]);
        proof {
            lemma_ascii_tail(cs@, y - 2, y as int);
            crate::text::lemma_byte_len_mono(cs@, x as int, y - 2);
        }
        return Ok(marker_start - 2);
    }
    if n >= 1 && (cs[y - 1] == '\n' || cs[y - 1] == ' ') {
        assert(p[p.len() - 1] == cs@[y - 1]);
        proof {
            lemma_one_byte_tail(cs@, y - 1);
            crate::text::lemma_byte_len_mono(cs@, x as int, y - 1);
        }
        return Ok(marker_start - 1);
    }
    proof {
        if n >= 2 {
            assert(p[p.len() - 2] == cs@[y - 2]);
        }
        if n >= 1 {
            assert(p[p.len() - 1] == cs@[y - 1]);
        }
    }
    Ok(marker_start)
}

/// An ASCII character takes one byte.
proof fn lemma_one_byte_tail(s: Seq<char>, k: int)
    requires
        0 <= k < s.len(),
        (s[k] as u32) < 128,
    ensures
        byte_len(s.take(k + 1)) == byte_len(s.take(k)) + 1,
{
    assert(s.take(k + 1).drop_last() =~= s.take(k));
}

/// Where the last `^` + ID marker of the block `start..end` starts.
pub open spec fn marker_spec(s: Seq<char>, start: int, end: int, id: Seq<char>) -> Result<int, Seq<char>> {
    if !range_ok(s, start, end) {
        Err("block source range is invalid"@)
    } else {
        let raw = slice_spec(s, start, end);
        let marker = seq!['^'] + id;
        match last_occurrence(raw, marker, raw.len() - marker.len()) {
            Some(k) => Ok(start + byte_len(raw.take(k))),
            None => Err("block id source not found: "@ + id),
        }
    }
}

/// Where a block ID marker starts in a block (see `marker_spec`).
pub fn block_id_byte_start(content: &str, block_start: usize, block_end: usize, block_id: &str) -> (r: Result<
    usize,
    String,
>)
    ensures
        match marker_spec(content@, block_start as int, block_end as int, block_id@) {
            Ok(p) => r matches Ok(q) && q == p,
            Err(m) => r matches Err(e) && e@ == m,
        },
{
    let cs = chars_of(content);
    let (x, y) = match char_range(&cs, block_start, block_end) {
        Some(p) => p,
        None => {
            return Err(to_string("block source range is invalid"));
        },
    };
    proof {
        lemma_slice_chars(cs@, x as int, y as int);
    }
    let raw = crate::parser::chars_range(&cs, x, y);
    let mut marker_text = to_string("^");
    push_str(&mut marker_text, block_id);
    let marker = chars_of(marker_text.as_str());
    proof {
        reveal_strlit("^");
    }
    assert(marker@ =~= seq!['^'] + block_id@);
    match last_match(&raw, &marker) {
        Some(k) => {
            let off = crate::blueprint::edit::byte_offset(raw_text(&raw).as_str(), &raw, k);
            proof {
                assert(raw@.take(k as int) =~= cs@.subrange(x as int, x + k));
                lemma_prefix_bytes(cs@, x as int, x + k);
                crate::text::lemma_byte_len_mono(cs@, x + k, y as int);
            }
            Ok(block_start + off)
        },
        None => {
            let mut m = to_string("block id source not found: ");
            push_str(&mut m, block_id);
            Err(m)
        },
    }
}

fn raw_text(cs: &Vec<char>) -> (t: String)
    ensures
        t@ == cs@,
{
    let t = string_of(cs, 0, cs.len());
    assert(cs@.subrange(0, cs.len() as int) =~= cs@);
    t
}

/// The bytes of the characters from `x` to `k` are the bytes up to `k` less those up to `x`.
proof fn lemma_prefix_bytes(s: Seq<char>, x: int, k: int)
    requires
        0 <= x <= k <= s.len(),
    ensures
        byte_len(s.take(k)) == byte_len(s.take(x)) + byte_len(s.subrange(x, k)),
    decreases k - x,
{
    if k > x {
        lemma_prefix_bytes(s, x, k - 1);
        assert(s.take(k).drop_last() =~= s.take(k - 1));
        assert(s.subrange(x, k).drop_last() =~= s.subrange(x, k - 1));
    } else {
        assert(s.subrange(x, k) =~= Seq::<char>::empty());
    }
}

/// A reference names the heading `old`: as its single heading, or as the last of a heading
/// path.
pub open spec fn names_heading(r: Option<ReferenceView>, old: Seq<char>) -> bool {
    match r {
        Some(ReferenceView::Heading(v)) => v == old,
        Some(ReferenceView::MultiHeading(v)) => v.len() > 0 && v.last() == old,
        _ => false,
    }
}

/// Whether the reference names the heading `old` (see `names_heading`).
pub fn heading_reference_matches(reference: &Option<ReferenceInfo>, old: &str) -> (b: bool)
    ensures
        b == names_heading(opt_ref_view(*reference), old@),
{
    match reference {
        Some(ReferenceInfo::Heading { value }) => crate::text::str_eq(value.as_str(), old),
        Some(ReferenceInfo::MultiHeading { value }) => {
            if value.len() == 0 {
                false
            } else {
                let b = crate::text::str_eq(value[value.len() - 1].as_str(), old);
                assert(value@.map_values(|v: String| v@).last() == value@[value.len() - 1]@);
                b
            }
        },
        _ => false,
    }
}

/// The text with its first `#` + `old` replaced by `#` + `new`.
pub open spec fn heading_rewrite_spec(raw: Seq<char>, old: Seq<char>, new: Seq<char>) -> Seq<char> {
    let pat = seq!['#'] + old;
    match find_from(raw, pat, 0) {
        Some(k) => raw.take(k) + (seq!['#'] + new) + raw.skip(k + pat.len()),
        None => raw,
    }
}

/// Rewrites the first reference to the heading `old` (see `heading_rewrite_spec`).
pub fn replace_heading_reference(raw: &str, old: &str, new: &str) -> (r: String)
    ensures
        r@ == heading_rewrite_spec(raw@, old@, new@),
{
    proof {
        reveal_strlit("#");
    }
    let cs = chars_of(raw);
    let mut p = to_string("#");
    push_str(&mut p, old);
    let pat = chars_of(p.as_str());
    assert(pat@ =~= seq!['#'] + old@);
    proof {
        lemma_find_from(cs@, pat@, 0);
    }
    match find_chars(&cs, &pat, 0) {
        Some(k) => {
            let mut out = string_of(&cs, 0, k);
            push_str(&mut out, "#");
            push_str(&mut out, new);
            push_range(&mut out, &cs, k + pat.len(), cs.len());
            assert(cs@.subrange(0, k as int) =~= cs@.take(k as int));
            assert(cs@.subrange(k + pat.len(), cs.len() as int) =~= cs@.skip(k + pat.len()));
            assert(out@ =~= cs@.take(k as int) + (seq!['#'] + new@) + cs@.skip(k + pat.len()));
            out
        },
        None => to_string(raw),
    }
}

/// A wikilink `[[target...]]` with its target replaced by `new_path`, keeping what follows
/// the target (from its first `#` or `|`); any other text as it is.
pub open spec fn link_rewrite_spec(raw: Seq<char>, new_path: Seq<char>) -> Seq<char> {
    if raw.len() >= 4 && raw.take(2) == seq!['[', '['] && raw.skip(raw.len() - 2) == seq![']', ']'] {
        let inner = raw.subrange(2, raw.len() - 2);
        let cut = match first_of(inner, '#', '|', 0) {
            Some(k) => k,
            None => inner.len() as int,
        };
        seq!['[', '['] + new_path + inner.skip(cut) + seq![']', ']']
    } else {
        raw
    }
}

/// The first position at or after `i` that holds `a` or `b`.
pub open spec fn first_of(s: Seq<char>, a: char, b: char, i: int) -> Option<int>
    decreases s.len() - i,
{
    if i < 0 || i >= s.len() {
        None
    } else if s[i] == a || s[i] == b {
        Some(i)
    } else {
        first_of(s, a, b, i + 1)
    }
}

/// Points a wikilink at another note (see `link_rewrite_spec`).
pub fn replace_link_target(raw: &str, new_path: &str) -> (r: String)
    ensures
        r@ == link_rewrite_spec(raw@, new_path@),
{
    let cs = chars_of(raw);
    let n = cs.len();
    if !(n >= 4 && cs[0] == '[' && cs[1] == '[' && cs[n - 2] == ']' && cs[n - 1] == ']') {
        proof {
            if n >= 4 {
                if cs@.take(2) == seq!['[', '['] {
                    assert(cs@.take(2)[0] == cs@[0]);
                    assert(cs@.take(2)[1] == cs@[1]);
                }
                if cs@.skip(n - 2) == seq![']', ']'] {
                    assert(cs@.skip(n - 2)[0] == cs@[n - 2]);
                    assert(cs@.skip(n - 2)[1] == cs@[n - 1]);
                }
            }
        }
        return to_string(raw);
    }
    assert(cs@.take(2) =~= seq!['[', '[']);
    assert(cs@.skip(n - 2) =~= seq![']', ']']);
    let ghost inner = cs@.subrange(2, n - 2);
    let mut k: usize = 2;
    while k < n - 2 && cs[k] != '#' && cs[k] != '|'
        invariant
            2 <= k <= n - 2,
            n == cs.len(),
            inner == cs@.subrange(2, n - 2),
            first_of(inner, '#', '|', 0) == first_of(inner, '#', '|', k - 2),
        decreases n - k,
    {
        assert(inner[k - 2] == cs@[k as int]);
        k += 1;
    }
    proof {
        if k < n - 2 {
            assert(inner[k - 2] == cs@[k as int]);
        }
    }
    let mut out = to_string("[[");
    push_str(&mut out, new_path);
    push_range(&mut out, &cs, k, n - 2);
    push_str(&mut out, "]]");
    proof {
        reveal_strlit("[[");
        reveal_strlit("]]");
        assert(inner.skip(k - 2) =~= cs@.subrange(k as int, n - 2));
        assert(out@ =~= seq!['[', '['] + new_path@ + inner.skip(k - 2) + seq![']', ']']);
    }
    out
}

/// A replacement of the bytes `start..end` of a note.
#[derive(Debug)]
pub struct TextEdit {
    pub start: usize,
    pub end: usize,
    pub replacement: String,
}

/// An edit by its numbers and text.
pub struct EditView {
    pub start: int,
    pub end: int,
    pub replacement: Seq<char>,
}

pub open spec fn edit_views(v: Seq<TextEdit>) -> Seq<EditView> {
    v.map_values(|e: TextEdit| EditView { start: e.start as int, end: e.end as int, replacement: e.replacement@ })
}

/// `e` placed after every edit of `s` that starts at or after it.
pub open spec fn insert_desc(s: Seq<EditView>, e: EditView) -> Seq<EditView>
    decreases s.len(),
{
    if s.len() == 0 {
        seq![e]
    } else if s[0].start < e.start {
        seq![e] + s
    } else {
        seq![s[0]] + insert_desc(s.drop_first(), e)
    }
}

/// The edits sorted by start, the last first; edits with the same start keep their order.
pub open spec fn sort_desc(es: Seq<EditView>) -> Seq<EditView>
    decreases es.len(),
{
    if es.len() == 0 {
        seq![]
    } else {
        insert_desc(sort_desc(es.drop_last()), es.last())
    }
}

/// The text with one edit made.
pub open spec fn edit_text(c: Seq<char>, e: EditView) -> Seq<char> {
    slice_spec(c, 0, e.start) + e.replacement + slice_spec(c, e.end, byte_len(c) as int)
}

/// The edits made one after another, each refused when its range is reversed or runs past
/// the text as it then is.
pub open spec fn apply_sorted(c: Seq<char>, es: Seq<EditView>) -> Result<Seq<char>, Seq<char>>
    decreases es.len(),
{
    if es.len() == 0 {
        Ok(c)
    } else {
        let e = es[0];
        if e.end > byte_len(c) || e.start > e.end {
            Err("rename edit range is invalid"@)
        } else {
            apply_sorted(edit_text(c, e), es.drop_first())
        }
    }
}

/// Each edit that is made falls on character boundaries of the text as it then is.
pub open spec fn edits_fit(c: Seq<char>, es: Seq<EditView>) -> bool
    decreases es.len(),
{
    if es.len() == 0 {
        true
    } else {
        let e = es[0];
        if e.end > byte_len(c) || e.start > e.end {
            true
        } else {
            is_boundary(c, e.start) && is_boundary(c, e.end) && edits_fit(edit_text(c, e), es.drop_first())
        }
    }
}

proof fn lemma_insert_desc(s: Seq<EditView>, e: EditView, p: int)
    requires
        0 <= p <= s.len(),
        forall|q: int| 0 <= q < p ==> !(s[q].start < e.start),
        p == s.len() || s[p].start < e.start,
    ensures
        insert_desc(s, e) == s.insert(p, e),
    decreases p,
{
    if s.len() == 0 {
        assert(s.insert(p, e) =~= seq![e]);
    } else if p == 0 {
        assert(s.insert(0, e) =~= seq![e] + s);
    } else {
        lemma_insert_desc(s.drop_first(), e, p - 1);
        assert(s.insert(p, e) =~= seq![s[0]] + s.drop_first().insert(p - 1, e));
    }
}

/// Applies a batch of edits from the last start backwards (see `apply_sorted` and
/// `sort_desc`).
pub fn apply_edits(content: String, edits: Vec<TextEdit>) -> (r: Result<String, String>)
    requires
        edits_fit(content@, sort_desc(edit_views(edits@))),
    ensures
        match apply_sorted(content@, sort_desc(edit_views(edits@))) {
            Ok(t) => r matches Ok(x) && x@ == t,
            Err(m) => r matches Err(e) && e@ == m,
        },
{
    let ghost ev = edit_views(edits@);
    let mut sorted: Vec<TextEdit> = Vec::new();
    let mut rest = edits;
    assert(ev.take(0) =~= Seq::<EditView>::empty());
    assert(edit_views(sorted@) =~= Seq::<EditView>::empty());
    let n = rest.len();
    let mut k: usize = 0;
    assert(ev.skip(0) =~= ev);
    while k < n
        invariant
            k <= n,
            n == ev.len(),
            ev == edit_views(edits@),
            rest.len() == n - k,
            edit_views(rest@) == ev.skip(k as int),
            edit_views(sorted@) == sort_desc(ev.take(k as int)),
        decreases n - k,
    {
        let ghost before_rest = edit_views(rest@);
        let ghost old_rest = rest@;
        let e = rest.remove(0);
        proof {
            assert(before_rest[0] == ev[k as int]);
            assert(rest@ =~= old_rest.subrange(1, old_rest.len() as int));
            assert(edit_views(rest@) =~= before_rest.subrange(1, before_rest.len() as int));
            assert(edit_views(rest@) =~= ev.skip(k + 1));
        }
        let ghost s = edit_views(sorted@);
        let ghost ew = EditView { start: e.start as int, end: e.end as int, replacement: e.replacement@ };
        let mut p: usize = 0;
        while p < sorted.len() && !(sorted[p].start < e.start)
            invariant
                p <= sorted.len(),
                s == edit_views(sorted@),
                ew.start == e.start as int,
                forall|q: int| 0 <= q < p ==> !(s[q].start < ew.start),
            decreases sorted.len() - p,
        {
            assert(s[p as int].start == sorted@[p as int].start as int);
            p += 1;
        }
        proof {
            if p < sorted.len() {
                assert(s[p as int].start == sorted@[p as int].start as int);
            }
        }
        proof {
            lemma_insert_desc(s, ew, p as int);
            assert(ev.take(k + 1).drop_last() =~= ev.take(k as int));
            assert(ev.take(k + 1).last() == ew);
        }
        sorted.insert(p, e);
        assert(edit_views(sorted@) =~= s.insert(p as int, ew));
        k += 1;
    }
    assert(ev.take(n as int) =~= ev);
    let ghost sv = edit_views(sorted@);
    assert(sv == sort_desc(ev));
    let ghost c0 = content@;
    let mut c = content;
    let mut i: usize = 0;
    assert(sv.skip(0) =~= sv);
    while i < sorted.len()
        invariant
            i <= sorted.len(),
            sv == edit_views(sorted@),
            sv == sort_desc(ev),
            ev == edit_views(edits@),
            c0 == content@,
            apply_sorted(c0, sv) == apply_sorted(c@, sv.skip(i as int)),
            edits_fit(c@, sv.skip(i as int)),
        decreases sorted.len() - i,
    {
        let e = &sorted[i];
        assert(sv.skip(i as int)[0] == sv[i as int]);
        assert(sv[i as int].start == e.start as int && sv[i as int].end == e.end as int);
        assert(sv[i as int].replacement == e.replacement@);
        assert(sv.skip(i as int).drop_first() =~= sv.skip(i + 1));
        let len = str_byte_len(c.as_str());
        if e.end > len || e.start > e.end {
            let m = to_string("rename edit range is invalid");
            assert(sv.skip(i as int).len() > 0);
            assert(apply_sorted(c@, sv.skip(i as int)) == Err::<Seq<char>, Seq<char>>(m@));
            return Err(m);
        }
        let mut next = slice_text(c.as_str(), 0, e.start);
        push_str(&mut next, e.replacement.as_str());
        let tail = slice_text(c.as_str(), e.end, len);
        push_str(&mut next, tail.as_str());
        c = next;
        i += 1;
    }
    Ok(c)
}

} // verus!
