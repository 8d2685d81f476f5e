//! Exact-text edits of a note: the text to replace must occur exactly once.
use vstd::prelude::*;

use crate::parser::{slice_spec, slice_text};
use crate::text::{
    byte_len, chars_of, decimal, is_boundary, matches_at, occurs_at, push_decimal, push_range,
    push_str, str_byte_len, string_of, to_string,
};

verus! {

/// The positions before `k` at which `n` occurs in `h`, overlapping ones included.
pub open spec fn match_positions(h: Seq<char>, n: Seq<char>, k: int) -> Seq<int>
    decreases k,
{
    if k <= 0 {
        seq![]
    } else if occurs_at(h, n, k - 1) {
        match_positions(h, n, k - 1).push(k - 1)
    } else {
        match_positions(h, n, k - 1)
    }
}

/// The note with its single occurrence of `old` replaced by `new`; refused when `old` is
/// empty or does not occur exactly once (the refusal names the note and the count).
pub open spec fn exact_edit_spec(original: Seq<char>, path: Seq<char>, old: Seq<char>, new: Seq<char>) -> Result<
    Seq<char>,
    Seq<char>,
> {
    if old.len() == 0 {
        Err("old_text must not be empty"@)
    } else {
        let ms = match_positions(original, old, original.len() + 1 as int);
        if ms.len() == 1 {
            Ok(original.take(ms[0]) + new + original.skip(ms[0] + old.len()))
        } else {
            Err(
                "old_text must match exactly once in `"@ + path + "`; found "@ + decimal(ms.len())
                    + " matches"@,
            )
        }
    }
}

/// Refuses an empty text to replace.
pub fn check_old_text(old_text: &str) -> (r: Result<(), String>)
    ensures
        r is Err <==> old_text@.len() == 0,
        r matches Err(e) ==> e@ == "old_text must not be empty"@,
{
    if old_text.is_empty() {
        return Err(to_string("old_text must not be empty"));
    }
    Ok(())
}

proof fn lemma_positions_bounded(h: Seq<char>, n: Seq<char>, k: int)
    ensures
        match_positions(h, n, k).len() <= if k < 0 {
            0
        } else {
            k
        },
        forall|i: int| 0 <= i < match_positions(h, n, k).len() ==> occurs_at(h, n, #[trigger] match_positions(h, n, k)[i]),
    decreases k,
{
    if k > 0 {
        lemma_positions_bounded(h, n, k - 1);
    }
}

/// Replaces the single occurrence of `old_text` in a note (see `exact_edit_spec`).
pub fn exact_edit(original: &str, path: &str, old_text: &str, new_text: &str) -> (r: Result<String, String>)
    ensures
        match exact_edit_spec(original@, path@, old_text@, new_text@) {
            Ok(t) => r matches Ok(x) && x@ == t,
            Err(m) => r matches Err(e) && e@ == m,
        },
{
    check_old_text(old_text)?;
    let h = chars_of(original);
    let n = chars_of(old_text);
    let mut count: usize = 0;
    let mut first: usize = 0;
    let mut i: usize = 0;
    while i < h.len()
        invariant
            i <= h.len(),
            n@.len() > 0,
            h@ == original@,
            n@ == old_text@,
            count == match_positions(h@, n@, i as int).len(),
            count > 0 ==> first == match_positions(h@, n@, i as int)[0],
        decreases h.len() - i,
    {
        proof {
            lemma_positions_bounded(h@, n@, i as int);
            if count > 0 {
                lemma_first_stays(h@, n@, i as int);
            }
        }
        if matches_at(&h, &n, i) {
            if count == 0 {
                first = i;
            }
            count += 1;
        }
        i += 1;
    }
    assert(!occurs_at(h@, n@, h@.len() as int));
    assert(match_positions(h@, n@, h@.len() + 1 as int) == match_positions(h@, n@, h@.len() as int));
    if count != 1 {
        let mut m = to_string("old_text must match exactly once in `");
        push_str(&mut m, path);
        push_str(&mut m, "`; found ");
        push_decimal(&mut m, count as u128);
        push_str(&mut m, " matches");
        return Err(m);
    }
    proof {
        lemma_positions_bounded(h@, n@, h@.len() + 1 as int);
    }
    let mut out = string_of(&h, 0, first);
    push_str(&mut out, new_text);
    push_range(&mut out, &h, first + n.len(), h.len());
    assert(h@.subrange(0, first as int) =~= h@.take(first as int));
    assert(h@.subrange(first + n.len(), h.len() as int) =~= h@.skip(first + n.len()));
    Ok(out)
}

proof fn lemma_first_stays(h: Seq<char>, n: Seq<char>, k: int)
    requires
        match_positions(h, n, k).len() > 0,
    ensures
        match_positions(h, n, k + 1)[0] == match_positions(h, n, k)[0],
{
}

/// The text that replaces the bytes `start..end` of a document in a section replacement:
/// the content, after a line break when it is added at the end of a document whose last line
/// is open, and with a closing line break when more text follows it.
pub open spec fn section_replacement_spec(document: Seq<char>, start: int, end: int, content: Seq<char>) -> Seq<char> {
    let len = byte_len(document) as int;
    let opened = if start == len && start > 0 && !(document.len() > 0 && document.last() == '\n') && content.len() > 0 {
        seq!['\n'] + content
    } else {
        content
    };
    if end < len && opened.len() > 0 && !(opened.last() == '\n') {
        opened.push('\n')
    } else {
        opened
    }
}

/// The document with the bytes `start..end` replaced (see `section_replacement_spec`).
pub fn replace_section_text(document: &str, start: usize, end: usize, content: &str) -> (r: String)
    requires
        start <= end,
        is_boundary(document@, start as int),
        is_boundary(document@, end as int),
    ensures
        r@ == slice_spec(document@, 0, start as int) + section_replacement_spec(document@, start as int, end as int, content@)
            + slice_spec(document@, end as int, byte_len(document@) as int),
{
    let len = str_byte_len(document);
    let dc = chars_of(document);
    let ends_open = !(dc.len() > 0 && dc[dc.len() - 1] == '\n');
    let mut replacement = String::new();
    let content_empty = content.is_empty();
    if start == len && start > 0 && ends_open && !content_empty {
        push_str(&mut replacement, "\n");
    }
    push_str(&mut replacement, content);
    let rc = chars_of(replacement.as_str());
    if end < len && rc.len() > 0 && rc[rc.len() - 1] != '\n' {
        push_str(&mut replacement, "\n");
    }
    proof {
        reveal_strlit("\n");
    }
    let mut out = slice_text(document, 0, start);
    push_str(&mut out, replacement.as_str());
    let tail = slice_text(document, end, len);
    push_str(&mut out, tail.as_str());
    out
}

} // verus!
