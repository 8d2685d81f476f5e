//! Previews of tool inputs for logs: the `Debug` rendering, cut to at most 1024 bytes at a
//! character boundary and marked with `…` when cut.
use vstd::prelude::*;

use crate::text::{byte_len, chars_of, lemma_byte_len_push, push_char, string_of, utf8_width};

verus! {

/// The longest preview, in bytes.
pub const MAX_INPUT_BYTES: usize = 1024;

/// `k` characters of `s` are the longest prefix whose encoding, followed by the three bytes
/// of `…`, fits in the preview.
pub open spec fn cut_point(s: Seq<char>, k: int) -> bool {
    &&& 0 <= k <= s.len()
    &&& byte_len(s.take(k)) <= MAX_INPUT_BYTES - 3
    &&& (k == s.len() || byte_len(s.take(k + 1)) > MAX_INPUT_BYTES - 3)
}

/// `format!("{value:?}")` from std.
#[verifier::external_body]
fn debug_text<T: std::fmt::Debug + ?Sized>(value: &T) -> (s: String) {
    format!("{value:?}")
}

/// Cuts a rendered input to at most 1024 bytes: unchanged when it fits, else its longest
/// prefix that leaves room for `…`, followed by `…`; the flag says whether it was cut.
pub fn truncate_preview(text: String) -> (r: (String, bool))
    ensures
        r.1 == (byte_len(text@) > MAX_INPUT_BYTES),
        !r.1 ==> r.0@ == text@,
        r.1 ==> exists|k: int| cut_point(text@, k) && r.0@ == text@.take(k).push('…'),
{
    let cs = chars_of(text.as_str());
    let ghost s = cs@;
    let mut total: u128 = 0;
    let mut i: usize = 0;
    while i < cs.len()
        invariant
            i <= cs.len(),
            s == cs@,
            total == byte_len(s.take(i as int)),
            total <= 4 * i,
        decreases cs.len() - i,
    {
        proof {
            assert(s.take(i + 1) =~= s.take(i as int).push(s[i as int]));
            lemma_byte_len_push(s.take(i as int), s[i as int]);
        }
        total = total + utf8_width(cs[i]) as u128;
        i += 1;
    }
    assert(s.take(cs.len() as int) =~= s);
    if total <= MAX_INPUT_BYTES as u128 {
        return (text, false);
    }
    let mut k: usize = 0;
    let mut used: usize = 0;
    while k < cs.len() && used + utf8_width(cs[k]) <= MAX_INPUT_BYTES - 3
        invariant
            k <= cs.len(),
            s == cs@,
            used == byte_len(s.take(k as int)),
            used <= MAX_INPUT_BYTES - 3,
        decreases cs.len() - k,
    {
        proof {
            assert(s.take(k + 1) =~= s.take(k as int).push(s[k as int]));
            lemma_byte_len_push(s.take(k as int), s[k as int]);
        }
        used = used + utf8_width(cs[k]);
        k += 1;
    }
    proof {
        if k < cs.len() {
            assert(s.take(k + 1) =~= s.take(k as int).push(s[k as int]));
            lemma_byte_len_push(s.take(k as int), s[k as int]);
        }
        assert(cut_point(s, k as int));
    }
    let mut preview = string_of(&cs, 0, k);
    push_char(&mut preview, '…');
    assert(s.subrange(0, k as int) =~= s.take(k as int));
    (preview, true)
}

/// The `Debug` rendering of a tool input for logs, cut by [`truncate_preview`]; the flag says
/// whether it was cut. Nothing is claimed of the rendering itself.
pub fn input_preview<T: std::fmt::Debug + ?Sized>(value: &T) -> (r: (String, bool))
    ensures
        exists|text: Seq<char>|
            {
                &&& r.1 == (byte_len(text) > MAX_INPUT_BYTES)
                &&& !r.1 ==> r.0@ == text
                &&& r.1 ==> exists|k: int| cut_point(text, k) && r.0@ == text.take(k).push('…')
            },
{
    let text = debug_text(value);
    let ghost t = text@;
    let r = truncate_preview(text);
    assert(r.1 == (byte_len(t) > MAX_INPUT_BYTES));
    r
}

/// The log filter directive for a level or a directive list: a text that holds `=` or `,` is
/// a directive list already; a bare level applies to this crate, with warnings elsewhere.
pub open spec fn log_directive_spec(input: Seq<char>) -> Seq<char> {
    if input.contains('=') || input.contains(',') {
        input
    } else {
        "obsidian_vault_mcp="@ + input + ",warn"@
    }
}

/// The log filter directive for a level or a directive list (see `log_directive_spec`).
pub fn log_directive(input: &str) -> (r: String)
    ensures
        r@ == log_directive_spec(input@),
{
    let cs = chars_of(input);
    let mut i: usize = 0;
    while i < cs.len()
        invariant
            cs@ == input@,
            i <= cs@.len(),
            forall|j: int| 0 <= j < i ==> cs@[j] != '=' && cs@[j] != ',',
        decreases cs@.len() - i,
    {
        if cs[i] == '=' || cs[i] == ',' {
            assert(input@.contains(cs@[i as int]));
            return crate::text::to_string(input);
        }
        i = i + 1;
    }
    assert(!input@.contains('=') && !input@.contains(',')) by {
        if input@.contains('=') {
            let j = choose|j: int| 0 <= j < input@.len() && input@[j] == '=';
            assert(cs@[j] == '=');
        }
        if input@.contains(',') {
            let j = choose|j: int| 0 <= j < input@.len() && input@[j] == ',';
            assert(cs@[j] == ',');
        }
    }
    let mut r = crate::text::to_string("obsidian_vault_mcp=");
    crate::text::push_str(&mut r, input);
    crate::text::push_str(&mut r, ",warn");
    proof {
        reveal_strlit("obsidian_vault_mcp=");
        reveal_strlit(",warn");
    }
    r
}

} // verus!
