//! Markdown note parsing: headings, links, embeds, tags and block IDs, each with the source
//! span it came from, and the text helpers that locate and normalise them.
pub mod note;

use vstd::prelude::*;
use vstd::string::StringSliceAdditionalSpecFns;
use vstd::utf8::{decode_utf8, encode_utf8, valid_utf8};

use crate::text::{
    byte_len, chars_of, decimal, find_chars, find_from, has_char, is_boundary, join_with,
    lemma_byte_len_mono, lemma_byte_len_push, lemma_boundary_unique, lemma_find_from,
    push_char, push_decimal, push_str, split_on, split_ranges, string_of, trim, trim_bounds,
    utf8_width,
};

pub use note::{
    BlockInfo, EmbedInfo, HeadingInfo, LinkInfo, LinkKind, NoteParser, ParsedNote, TagInfo,
    TagScope, extract, section_at, source_for_line,
};

verus! {

/// The text of `s` between byte offsets `start` and `end`, each first clamped to the text;
/// empty unless both offsets fall between characters.
pub open spec fn slice_spec(s: Seq<char>, start: int, end: int) -> Seq<char> {
    let l = byte_len(s) as int;
    let a = if start < l {
        start
    } else {
        l
    };
    let e = if end < l {
        end
    } else {
        l
    };
    let b = if e < a {
        a
    } else {
        e
    };
    if is_boundary(s, a) && is_boundary(s, b) {
        s.subrange(char_at(s, a), char_at(s, b))
    } else {
        seq![]
    }
}

/// The position of the character that starts at byte offset `byte` (or the length, at the
/// end of the text).
pub open spec fn char_at(s: Seq<char>, byte: int) -> int {
    choose|k: int| 0 <= k <= s.len() && byte_len(#[trigger] s.take(k)) == byte
}

proof fn lemma_take_width_bound(s: Seq<char>, k: int)
    requires
        0 <= k <= s.len(),
    ensures
        byte_len(s.take(k)) <= 4 * k,
    decreases k,
{
    if k > 0 {
        lemma_take_width_bound(s, k - 1);
        assert(s.take(k).drop_last() =~= s.take(k - 1));
    }
}

/// Scans from character `from` (at byte offset `off`) to the first character that starts at
/// or after byte `target`, or to the end of the text.
fn scan_to_byte(cs: &Vec<char>, from: usize, off: u128, target: u128) -> (r: (usize, u128))
    requires
        from <= cs.len(),
        off == byte_len(cs@.take(from as int)),
    ensures
        from <= r.0 <= cs.len(),
        r.1 == byte_len(cs@.take(r.0 as int)),
        r.0 < cs.len() ==> r.1 >= target,
        r.0 > from ==> byte_len(cs@.take(r.0 - 1)) < target,
{
    let mut k = from;
    let mut o = off;
    proof {
        lemma_take_width_bound(cs@, from as int);
    }
    while k < cs.len() && o < target
        invariant
            from <= k <= cs.len(),
            o == byte_len(cs@.take(k as int)),
            o <= 4 * k,
            k > from ==> byte_len(cs@.take(k - 1)) < target,
        decreases cs.len() - k,
    {
        let w = utf8_width(cs[k]);
        proof {
            assert(cs@.take(k + 1) =~= cs@.take(k as int).push(cs@[k as int]));
            lemma_byte_len_push(cs@.take(k as int), cs@[k as int]);
        }
        o = o + w as u128;
        k = k + 1;
    }
    (k, o)
}

proof fn lemma_not_boundary(s: Seq<char>, k: int, b: int)
    requires
        0 < k <= s.len(),
        byte_len(s.take(k - 1)) < b < byte_len(s.take(k)),
    ensures
        !is_boundary(s, b),
{
    if is_boundary(s, b) {
        let m = choose|m: int| 0 <= m <= s.len() && byte_len(#[trigger] s.take(m)) == b;
        if m < k {
            lemma_byte_len_mono(s, m, k - 1);
        } else {
            lemma_byte_len_mono(s, k, m);
        }
    }
}

proof fn lemma_char_at(s: Seq<char>, k: int)
    requires
        0 <= k <= s.len(),
    ensures
        is_boundary(s, byte_len(s.take(k)) as int),
        char_at(s, byte_len(s.take(k)) as int) == k,
{
    let b = byte_len(s.take(k)) as int;
    assert(is_boundary(s, b));
    let m = char_at(s, b);
    lemma_boundary_unique(s, k, m);
}

/// The text between the byte offsets of two character positions is the characters between
/// them.
pub proof fn lemma_slice_of_chars(s: Seq<char>, x: int, y: int)
    requires
        0 <= x <= y <= s.len(),
    ensures
        slice_spec(s, byte_len(s.take(x)) as int, byte_len(s.take(y)) as int) == s.subrange(x, y),
{
    lemma_char_at(s, x);
    lemma_char_at(s, y);
    lemma_byte_len_mono(s, x, y);
    lemma_byte_len_mono(s, y, s.len() as int);
    lemma_full_take(s);
}

proof fn lemma_full_take(s: Seq<char>)
    ensures
        s.take(s.len() as int) == s,
{
    assert(s.take(s.len() as int) =~= s);
}

/// The text between two byte offsets, each first clamped to the text's length; empty when
/// either offset falls inside a character.
pub fn slice_text(text: &str, start: usize, end: usize) -> (r: String)
    ensures
        r@ == slice_spec(text@, start as int, end as int),
{
    let cs = chars_of(text);
    let ghost s = cs@;
    proof {
        lemma_full_take(s);
    }
    let (ka, oa) = scan_to_byte(&cs, 0, 0, start as u128);
    proof {
        lemma_byte_len_mono(s, ka as int, s.len() as int);
    }
    if oa > start as u128 {
        proof {
            lemma_not_boundary(s, ka as int, start as int);
        }
        return String::new();
    }
    proof {
        lemma_char_at(s, ka as int);
        assert(oa == (if (start as int) < byte_len(s) { start as int } else { byte_len(s) as int }));
    }
    if end as u128 <= oa {
        proof {
            assert(s.subrange(ka as int, ka as int) =~= Seq::<char>::empty());
        }
        return String::new();
    }
    let (kb, ob) = scan_to_byte(&cs, ka, oa, end as u128);
    proof {
        lemma_byte_len_mono(s, kb as int, s.len() as int);
    }
    if ob > end as u128 {
        proof {
            lemma_not_boundary(s, kb as int, end as int);
        }
        return String::new();
    }
    proof {
        lemma_char_at(s, kb as int);
        assert(ob == (if (end as int) < byte_len(s) { end as int } else { byte_len(s) as int }));
    }
    string_of(&cs, ka, kb)
}

/// A heading's anchor: its text trimmed, with line breaks turned into spaces.
pub open spec fn anchor_spec(s: Seq<char>) -> Seq<char> {
    trim(s).map_values(|c: char| if c == '\n' { ' ' } else { c })
}

/// The anchor of a heading: its trimmed text with each line break replaced by a space.
pub fn heading_anchor(text: &str) -> (r: String)
    ensures
        r@ == anchor_spec(text@),
{
    let cs = chars_of(text);
    let (a, b) = trim_bounds(&cs, 0, cs.len());
    assert(cs@.subrange(0, cs.len() as int) =~= cs@);
    let ghost t = cs@.subrange(a as int, b as int);
    let mut out = String::new();
    let mut i = a;
    while i < b
        invariant
            a <= i <= b <= cs.len(),
            t == cs@.subrange(a as int, b as int),
            out@ == t.take(i - a).map_values(|c: char| if c == '\n' { ' ' } else { c }),
        decreases b - i,
    {
        let c = if cs[i] == '\n' {
            ' '
        } else {
            cs[i]
        };
        crate::text::push_char(&mut out, c);
        assert(t.take(i + 1 - a) =~= t.take(i - a).push(cs@[i as int]));
        i += 1;
    }
    assert(t.take(b - a) =~= t);
    out
}

/// `path#Lstart`, or `path#Lstart-Lend` for a range of lines.
pub open spec fn line_ref_spec(path: Seq<char>, start: nat, end: nat) -> Seq<char> {
    if start == end {
        path + "#L"@ + decimal(start)
    } else {
        path + "#L"@ + decimal(start) + "-L"@ + decimal(end)
    }
}

/// The note path with a line reference: `note.md#L3`, or `note.md#L3-L5` for several lines.
pub fn path_with_line_ref(path: &str, line_start: u64, line_end: u64) -> (r: String)
    ensures
        r@ == line_ref_spec(path@, line_start as nat, line_end as nat),
{
    let mut r = String::new();
    push_str(&mut r, path);
    push_str(&mut r, "#L");
    push_decimal(&mut r, line_start as u128);
    if line_start != line_end {
        push_str(&mut r, "-L");
        push_decimal(&mut r, line_end as u128);
    }
    r
}

/// The value of an ASCII hexadecimal digit.
pub open spec fn hex_spec(b: u8) -> Option<u8> {
    if 0x30 <= b <= 0x39 {
        Some((b - 0x30) as u8)
    } else if 0x61 <= b <= 0x66 {
        Some((b - 0x61 + 10) as u8)
    } else if 0x41 <= b <= 0x46 {
        Some((b - 0x41 + 10) as u8)
    } else {
        None
    }
}

/// The value of an ASCII hexadecimal digit, if the byte is one.
pub fn hex_value(byte: u8) -> (r: Option<u8>)
    ensures
        r == hex_spec(byte),
        r matches Some(v) ==> v < 16,
{
    if 0x30 <= byte && byte <= 0x39 {
        Some(byte - 0x30)
    } else if 0x61 <= byte && byte <= 0x66 {
        Some(byte - 0x61 + 10)
    } else if 0x41 <= byte && byte <= 0x46 {
        Some(byte - 0x41 + 10)
    } else {
        None
    }
}

/// The bytes that percent-decoding yields from position `i` on: each `%` followed by two
/// hexadecimal digits stands for the byte they spell, and every other byte for itself;
/// `None` when a `%` is not followed by two hexadecimal digits.
pub open spec fn decode_bytes(b: Seq<u8>, i: int) -> Option<Seq<u8>>
    decreases b.len() - i,
{
    if i < 0 || i >= b.len() {
        Some(seq![])
    } else if b[i] == 0x25 {
        if i + 2 < b.len() && hex_spec(b[i + 1]) is Some && hex_spec(b[i + 2]) is Some {
            match decode_bytes(b, i + 3) {
                Some(r) => Some(seq![(hex_spec(b[i + 1])->0 * 16 + hex_spec(b[i + 2])->0) as u8] + r),
                None => None,
            }
        } else {
            None
        }
    } else {
        match decode_bytes(b, i + 1) {
            Some(r) => Some(seq![b[i]] + r),
            None => None,
        }
    }
}

/// The text that percent-decoding the UTF-8 bytes of `s` spells, if the escapes are well
/// formed and the decoded bytes are UTF-8.
pub open spec fn percent_decode_spec(s: Seq<char>) -> Option<Seq<char>> {
    match decode_bytes(encode_utf8(s), 0) {
        Some(bs) => if valid_utf8(bs) {
            Some(decode_utf8(bs))
        } else {
            None
        },
        None => None,
    }
}

/// Decodes `%XX` escapes; `None` when an escape is malformed or the result is not UTF-8.
pub fn percent_decode(input: &str) -> (r: Option<String>)
    ensures
        r is Some <==> percent_decode_spec(input@) is Some,
        r matches Some(t) ==> percent_decode_spec(input@) == Some(t@),
{
    let b: &[u8] = input.as_bytes();
    let ghost bs = b@;
    assert(bs == encode_utf8(input@));
    let mut out: Vec<u8> = Vec::new();
    let mut i: usize = 0;
    while i < b.len()
        invariant
            i <= b.len(),
            bs == b@,
            bs == encode_utf8(input@),
            decode_bytes(bs, 0) == (match decode_bytes(bs, i as int) {
                Some(r) => Some(out@ + r),
                None => None,
            }),
        decreases b.len() - i,
    {
        if b[i] == 0x25 {
            if b.len() - i <= 2 {
                assert(decode_bytes(bs, i as int) is None);
                return None;
            }
            let high = match hex_value(b[i + 1]) {
                Some(v) => v,
                None => {
                    assert(decode_bytes(bs, i as int) is None);
                    return None;
                },
            };
            let low = match hex_value(b[i + 2]) {
                Some(v) => v,
                None => {
                    assert(decode_bytes(bs, i as int) is None);
                    return None;
                },
            };
            let ghost before = out@;
            out.push(high * 16 + low);
            proof {
                match decode_bytes(bs, i + 3) {
                    Some(r) => {
                        assert(before + (seq![(high * 16 + low) as u8] + r) =~= out@ + r);
                    },
                    None => {},
                }
            }
            i += 3;
        } else {
            let ghost before = out@;
            out.push(b[i]);
            proof {
                match decode_bytes(bs, i + 1) {
                    Some(r) => {
                        assert(before + (seq![bs[i as int]] + r) =~= out@ + r);
                    },
                    None => {},
                }
            }
            i += 1;
        }
    }
    assert(out@ + Seq::<u8>::empty() =~= out@);
    match crate::text::string_from_utf8(out) {
        Ok(t) => Some(t),
        Err(_) => None,
    }
}

/// The number of newline bytes in `b`.
pub open spec fn count_newlines(b: Seq<u8>) -> nat
    decreases b.len(),
{
    if b.len() == 0 {
        0
    } else {
        count_newlines(b.drop_last()) + if b.last() == 10 {
            1nat
        } else {
            0nat
        }
    }
}

/// `k` is the offset just after the newline that ends line `n` (one-based).
pub open spec fn ends_line(b: Seq<u8>, k: int, n: int) -> bool {
    0 < k <= b.len() && b[k - 1] == 10 && count_newlines(b.take(k)) == n
}

/// The byte offset at which line `line` (one-based) starts: 0 for the first line, just after
/// the newline that ends the previous line, or the text's length when it has fewer lines.
pub open spec fn line_start_spec(b: Seq<u8>, line: int) -> int {
    if line <= 1 {
        0
    } else if exists|k: int| #[trigger] ends_line(b, k, line - 1) {
        choose|k: int| #[trigger] ends_line(b, k, line - 1)
    } else {
        b.len() as int
    }
}

proof fn lemma_count_newlines_mono(b: Seq<u8>, i: int, j: int)
    requires
        0 <= i <= j <= b.len(),
    ensures
        count_newlines(b.take(i)) <= count_newlines(b.take(j)),
        i < j && b[j - 1] == 10 ==> count_newlines(b.take(i)) < count_newlines(b.take(j)),
    decreases j - i,
{
    if i < j {
        assert(b.take(j).drop_last() =~= b.take(j - 1));
        lemma_count_newlines_mono(b, i, j - 1);
    }
}

proof fn lemma_ends_line_unique(b: Seq<u8>, k: int, m: int, n: int)
    requires
        ends_line(b, k, n),
        ends_line(b, m, n),
    ensures
        k == m,
{
    if k < m {
        lemma_count_newlines_mono(b, k, m);
    } else if m < k {
        lemma_count_newlines_mono(b, m, k);
    }
}

/// The byte offset at which a one-based line starts; past the last line, the text's length.
pub fn byte_offset_for_line(text: &str, line: u64) -> (r: usize)
    ensures
        r == line_start_spec(text.spec_bytes(), line as int),
{
    let b: &[u8] = text.as_bytes();
    let ghost bs = b@;
    if line <= 1 {
        return 0;
    }
    let mut current: u64 = 1;
    let mut index: usize = 0;
    while index < b.len()
        invariant
            index <= b.len(),
            bs == b@,
            bs == text.spec_bytes(),
            line > 1,
            current == 1 + count_newlines(bs.take(index as int)),
            count_newlines(bs.take(index as int)) < line - 1,
        decreases b.len() - index,
    {
        proof {
            assert(bs.take(index + 1).drop_last() =~= bs.take(index as int));
        }
        if b[index] == 10 {
            current += 1;
            if current == line {
                proof {
                    assert(ends_line(bs, index + 1, line - 1));
                    let k = choose|k: int| #[trigger] ends_line(bs, k, line - 1);
                    lemma_ends_line_unique(bs, k, index + 1, line - 1);
                }
                return index + 1;
            }
        }
        index += 1;
    }
    proof {
        assert(bs.take(index as int) =~= bs);
        if exists|k: int| #[trigger] ends_line(bs, k, line - 1) {
            let k = choose|k: int| #[trigger] ends_line(bs, k, line - 1);
            lemma_count_newlines_mono(bs, k, bs.len() as int);
        }
    }
    b.len()
}

/// One more than the number of newlines before byte offset `byte` (offsets past the end
/// count every newline), saturating at `u64::MAX`.
pub open spec fn line_number_spec(b: Seq<u8>, byte: int) -> int {
    let k: int = if byte < b.len() { byte } else { b.len() as int };
    let n: int = 1int + count_newlines(b.take(k)) as int;
    if n > u64::MAX {
        u64::MAX as int
    } else {
        n
    }
}

/// The one-based line that holds byte offset `byte`: one more than the number of newlines
/// before it (offsets past the end count every newline).
pub fn line_number_for_byte(text: &str, byte: usize) -> (r: u64)
    ensures
        r == line_number_spec(text.spec_bytes(), byte as int),
{
    let b: &[u8] = text.as_bytes();
    let ghost bs = b@;
    let end = if byte < b.len() {
        byte
    } else {
        b.len()
    };
    let mut count: u128 = 1;
    let mut index: usize = 0;
    while index < end
        invariant
            index <= end <= b.len(),
            bs == b@,
            bs == text.spec_bytes(),
            count == 1 + count_newlines(bs.take(index as int)),
            count_newlines(bs.take(index as int)) <= index,
        decreases end - index,
    {
        proof {
            assert(bs.take(index + 1).drop_last() =~= bs.take(index as int));
        }
        if b[index] == 10 {
            count += 1;
        }
        index += 1;
    }
    if count > u64::MAX as u128 {
        u64::MAX
    } else {
        count as u64
    }
}

/// The part of a link that names a place inside the target note.
#[derive(Clone, Debug, PartialEq, Eq)]
pub enum ReferenceInfo {
    Heading { value: String },
    MultiHeading { value: Vec<String> },
    BlockId { value: String },
}

/// A reference by its texts.
pub enum ReferenceView {
    Heading(Seq<char>),
    MultiHeading(Seq<Seq<char>>),
    BlockId(Seq<char>),
}

impl View for ReferenceInfo {
    type V = ReferenceView;

    open spec fn view(&self) -> ReferenceView {
        match self {
            ReferenceInfo::Heading { value } => ReferenceView::Heading(value@),
            ReferenceInfo::MultiHeading { value } => ReferenceView::MultiHeading(
                value@.map_values(|v: String| v@),
            ),
            ReferenceInfo::BlockId { value } => ReferenceView::BlockId(value@),
        }
    }
}

/// The view of an optional reference.
pub open spec fn opt_ref_view(r: Option<ReferenceInfo>) -> Option<ReferenceView> {
    match r {
        Some(x) => Some(x@),
        None => None,
    }
}

/// `s` starts with `p`.
pub open spec fn starts_with(s: Seq<char>, p: Seq<char>) -> bool {
    s.len() >= p.len() && s.take(p.len() as int) == p
}

pub open spec fn is_ascii_alpha(c: char) -> bool {
    ('a' <= c && c <= 'z') || ('A' <= c && c <= 'Z')
}

pub open spec fn is_scheme_char(c: char) -> bool {
    is_ascii_alpha(c) || ('0' <= c && c <= '9') || c == '+' || c == '-' || c == '.'
}

/// The text before the first `:` is a URL scheme: a letter followed by letters, digits,
/// `+`, `-` or `.`.
pub open spec fn has_scheme(s: Seq<char>) -> bool {
    match find_from(s, seq![':'], 0) {
        Some(c) => c > 0 && is_ascii_alpha(s[0]) && forall|i: int|
            0 <= i < c ==> is_scheme_char(#[trigger] s[i]),
        None => false,
    }
}

/// A URL that names no note of the vault by a relative path: it is absolute (starts with
/// `/` or `\\`) or has a scheme; a pure fragment (`#...`) is neither.
pub open spec fn external_spec(s: Seq<char>) -> bool {
    ||| starts_with(s, seq!['/'])
    ||| starts_with(s, seq!['\\'])
    ||| starts_with(s, seq!['/', '/'])
    ||| (!starts_with(s, seq!['#']) && has_scheme(s))
}

pub proof fn lemma_starts_with_char(s: Seq<char>, c: char)
    ensures
        starts_with(s, seq![c]) <==> s.len() >= 1 && s[0] == c,
{
    if s.len() >= 1 {
        assert(s.take(1) =~= seq![s[0]]);
        if s.take(1) == seq![c] {
            assert(s.take(1)[0] == c);
        }
    }
}

fn is_ascii_alphabetic(c: char) -> (b: bool)
    ensures
        b == is_ascii_alpha(c),
{
    ('a' <= c && c <= 'z') || ('A' <= c && c <= 'Z')
}

fn scheme_char(c: char) -> (b: bool)
    ensures
        b == is_scheme_char(c),
{
    is_ascii_alphabetic(c) || ('0' <= c && c <= '9') || c == '+' || c == '-' || c == '.'
}

/// Whether a link URL is external or absolute: it starts with `/`, `\\` or `//`, or (unless
/// it is a `#` fragment) begins with a URL scheme such as `mailto:` or `https:`.
#[verifier::loop_isolation(false)]
pub fn is_external_or_absolute_url(url: &str) -> (b: bool)
    ensures
        b == external_spec(url@),
{
    let cs = chars_of(url);
    proof {
        lemma_starts_with_char(cs@, '/');
        lemma_starts_with_char(cs@, '\\');
        lemma_starts_with_char(cs@, '#');
        if starts_with(cs@, seq!['/', '/']) {
            assert(cs@.take(2)[0] == '/');
        }
    }
    if cs.len() >= 1 && (cs[0] == '/' || cs[0] == '\\') {
        return true;
    }
    if cs.len() >= 1 && cs[0] == '#' {
        return false;
    }
    let colon = vec![':'];
    proof {
        lemma_find_from(cs@, colon@, 0);
        assert(colon@ == seq![':']);
    }
    match find_chars(&cs, &colon, 0) {
        None => false,
        Some(c) => {
            if c == 0 || !is_ascii_alphabetic(cs[0]) {
                return false;
            }
            let mut i: usize = 0;
            while i < c
                invariant
                    i <= c < cs.len(),
                    forall|j: int| 0 <= j < i ==> is_scheme_char(#[trigger] cs@[j]),
                decreases c - i,
            {
                if !scheme_char(cs[i]) {
                    assert(!is_scheme_char(cs@[i as int]));
                    return false;
                }
                i += 1;
            }
            true
        },
    }
}

/// The position of the last `c` in `s`.
pub open spec fn last_index_of(s: Seq<char>, c: char) -> Option<int>
    decreases s.len(),
{
    if s.len() == 0 {
        None
    } else if s.last() == c {
        Some(s.len() - 1)
    } else {
        last_index_of(s.drop_last(), c)
    }
}

/// The non-empty pieces, in order.
pub open spec fn nonempty_pieces(ps: Seq<Seq<char>>) -> Seq<Seq<char>>
    decreases ps.len(),
{
    if ps.len() == 0 {
        seq![]
    } else if ps.last().len() > 0 {
        nonempty_pieces(ps.drop_last()).push(ps.last())
    } else {
        nonempty_pieces(ps.drop_last())
    }
}

/// Walks the path segments from the folder `parts`: empty segments and `.` stay put, `..`
/// leaves the current folder (`None` when there is none left), any other segment enters it.
pub open spec fn walk_segments(parts: Seq<Seq<char>>, segs: Seq<Seq<char>>) -> Option<
    Seq<Seq<char>>,
>
    decreases segs.len(),
{
    if segs.len() == 0 {
        Some(parts)
    } else {
        match walk_segments(parts, segs.drop_last()) {
            None => None,
            Some(p) => {
                let seg = segs.last();
                if seg.len() == 0 || seg == seq!['.'] {
                    Some(p)
                } else if seg == seq!['.', '.'] {
                    if p.len() == 0 {
                        None
                    } else {
                        Some(p.drop_last())
                    }
                } else {
                    Some(p.push(seg))
                }
            },
        }
    }
}

/// The folder of the current note, as its non-empty path segments.
pub open spec fn folder_of(current: Seq<char>) -> Seq<Seq<char>> {
    match last_index_of(current, '/') {
        Some(k) => nonempty_pieces(split_on(current.take(k), '/')),
        None => seq![],
    }
}

/// Walks the segments of `link_path` from the folder `parts` (see `walk_segments`).
pub(crate) fn walk_link_segments(parts: Vec<Vec<char>>, link_path: &str) -> (r: Option<Vec<Vec<char>>>)
    ensures
        match walk_segments(views(parts@), split_on(link_path@, '/')) {
            Some(p) => r matches Some(q) && views(q@) == p,
            None => r is None,
        },
{
    let link = chars_of(link_path);
    let rs = split_ranges(&link, 0, link.len(), '/');
    assert(link@.subrange(0, link.len() as int) =~= link@);
    let ghost segs = split_on(link@, '/');
    let ghost base = views(parts@);
    let mut folder = parts;
    let mut k: usize = 0;
    while k < rs.len()
        invariant
            k <= rs.len(),
            crate::text::ranges_in(link@, rs@),
            crate::text::ranges_view(link@, rs@) =~~= segs,
            walk_segments(base, segs.take(k as int)) == Some(views(folder@)),
            segs == split_on(link_path@, '/'),
            base == views(parts@),
        decreases rs.len() - k,
    {
        let (a, b) = rs[k];
        assert(rs@[k as int].0 <= rs@[k as int].1 <= link.len());
        let seg = chars_range(&link, a, b);
        proof {
            assert(segs.take(k + 1).drop_last() =~= segs.take(k as int));
            assert(segs[k as int] =~= seg@);
            assert(segs.take(k + 1).last() == segs[k as int]);
        }
        if seg.len() == 0 || is_dot(&seg) {
        } else if is_dot_dot(&seg) {
            if folder.len() == 0 {
                proof {
                    assert(walk_segments(base, segs.take(k + 1)) is None);
                    lemma_walk_none_extends(base, segs, k + 1);
                }
                return None;
            }
            let ghost before = views(folder@);
            folder.pop();
            assert(views(folder@) =~= before.drop_last());
        } else {
            let ghost before = views(folder@);
            folder.push(seg);
            assert(views(folder@) =~= before.push(segs[k as int]));
        }
        assert(walk_segments(base, segs.take(k + 1)) == Some(views(folder@)));
        k += 1;
    }
    assert(segs.take(rs.len() as int) =~= segs);
    Some(folder)
}

/// The vault path that a relative link path reaches from the current note's folder; `None`
/// when it climbs above the vault root or reaches the root itself.
pub open spec fn normalize_spec(current: Seq<char>, link: Seq<char>) -> Option<Seq<char>> {
    match walk_segments(folder_of(current), split_on(link, '/')) {
        Some(p) => if p.len() > 0 {
            Some(join_with(p, seq!['/']))
        } else {
            None
        },
        None => None,
    }
}

/// The views of a list of character vectors.
pub open spec fn views(v: Seq<Vec<char>>) -> Seq<Seq<char>> {
    v.map_values(|x: Vec<char>| x@)
}

proof fn lemma_walk_none_extends(base: Seq<Seq<char>>, segs: Seq<Seq<char>>, n: int)
    requires
        0 <= n <= segs.len(),
        walk_segments(base, segs.take(n)) is None,
    ensures
        walk_segments(base, segs) is None,
    decreases segs.len() - n,
{
    if n < segs.len() {
        assert(segs.take(n + 1).drop_last() =~= segs.take(n));
        lemma_walk_none_extends(base, segs, n + 1);
    } else {
        assert(segs.take(n) =~= segs);
    }
}

fn last_index(cs: &Vec<char>, c: char) -> (r: Option<usize>)
    ensures
        r matches Some(k) ==> last_index_of(cs@, c) == Some(k as int) && k < cs.len(),
        r is None ==> last_index_of(cs@, c) is None,
{
    let mut i = cs.len();
    assert(cs@.take(i as int) =~= cs@);
    while i > 0
        invariant
            i <= cs.len(),
            last_index_of(cs@, c) == last_index_of(cs@.take(i as int), c),
        decreases i,
    {
        assert(cs@.take(i as int).drop_last() =~= cs@.take(i - 1));
        if cs[i - 1] == c {
            return Some(i - 1);
        }
        i -= 1;
    }
    None
}

pub(crate) fn chars_range(cs: &Vec<char>, a: usize, b: usize) -> (r: Vec<char>)
    requires
        a <= b <= cs.len(),
    ensures
        r@ == cs@.subrange(a as int, b as int),
{
    let mut r: Vec<char> = Vec::new();
    let mut i = a;
    while i < b
        invariant
            a <= i <= b <= cs.len(),
            r@ == cs@.subrange(a as int, i as int),
        decreases b - i,
    {
        r.push(cs[i]);
        assert(cs@.subrange(a as int, i + 1) =~= cs@.subrange(a as int, i as int).push(cs@[i as int]));
        i += 1;
    }
    r
}

/// The non-empty `/`-separated segments of `cs[0..end]`.
fn folder_parts(cs: &Vec<char>, end: usize) -> (parts: Vec<Vec<char>>)
    requires
        end <= cs.len(),
    ensures
        views(parts@) == nonempty_pieces(split_on(cs@.take(end as int), '/')),
{
    let rs = split_ranges(cs, 0, end, '/');
    assert(cs@.subrange(0, end as int) =~= cs@.take(end as int));
    let ghost pieces = split_on(cs@.take(end as int), '/');
    let mut parts: Vec<Vec<char>> = Vec::new();
    let mut k: usize = 0;
    while k < rs.len()
        invariant
            k <= rs.len(),
            crate::text::ranges_in(cs@, rs@),
            crate::text::ranges_view(cs@, rs@) =~~= pieces,
            views(parts@) == nonempty_pieces(pieces.take(k as int)),
        decreases rs.len() - k,
    {
        let (a, b) = rs[k];
        assert(rs@[k as int].0 <= rs@[k as int].1 <= cs.len());
        proof {
            assert(pieces.take(k + 1).drop_last() =~= pieces.take(k as int));
            assert(pieces[k as int] =~= cs@.subrange(a as int, b as int));
        }
        if a < b {
            let piece = chars_range(cs, a, b);
            parts.push(piece);
            assert(views(parts@) =~= nonempty_pieces(pieces.take(k as int)).push(piece@));
        }
        k += 1;
    }
    assert(pieces.take(rs.len() as int) =~= pieces);
    parts
}

fn is_dot(seg: &Vec<char>) -> (b: bool)
    ensures
        b == (seg@ == seq!['.']),
{
    if seg.len() == 1 && seg[0] == '.' {
        assert(seg@ =~= seq!['.']);
        true
    } else {
        false
    }
}

fn is_dot_dot(seg: &Vec<char>) -> (b: bool)
    ensures
        b == (seg@ == seq!['.', '.']),
{
    if seg.len() == 2 && seg[0] == '.' && seg[1] == '.' {
        assert(seg@ =~= seq!['.', '.']);
        true
    } else {
        false
    }
}

pub(crate) fn join_parts(parts: &Vec<Vec<char>>, sep: char) -> (r: String)
    ensures
        r@ == join_with(views(parts@), seq![sep]),
{
    let mut r = String::new();
    let mut k: usize = 0;
    while k < parts.len()
        invariant
            k <= parts.len(),
            r@ == join_with(views(parts@).take(k as int), seq![sep]),
        decreases parts.len() - k,
    {
        let ghost before = r@;
        if k > 0 {
            push_char(&mut r, sep);
        }
        let piece = &parts[k];
        let mut i: usize = 0;
        let ghost mid = r@;
        while i < piece.len()
            invariant
                i <= piece.len(),
                r@ == mid + piece@.take(i as int),
            decreases piece.len() - i,
        {
            push_char(&mut r, piece[i]);
            assert(piece@.take(i + 1) =~= piece@.take(i as int).push(piece@[i as int]));
            i += 1;
        }
        proof {
            let t = views(parts@).take(k + 1);
            assert(t.drop_last() =~= views(parts@).take(k as int));
            assert(piece@.take(piece.len() as int) =~= piece@);
            assert(t.last() == piece@);
            if k == 0 {
                assert(r@ =~= t[0]);
            } else {
                assert(r@ =~= before + seq![sep] + t.last());
            }
        }
        k += 1;
    }
    assert(views(parts@).take(parts.len() as int) =~= views(parts@));
    r
}

/// The vault path that a relative link path reaches from the current note's folder: `.` and
/// empty segments stay, `..` climbs one folder; `None` when it climbs above the vault root or
/// names no segment at all.
pub fn normalize_relative_markdown_path(current_path: &str, link_path: &str) -> (r: Option<
    String,
>)
    ensures
        r is Some <==> normalize_spec(current_path@, link_path@) is Some,
        r matches Some(p) ==> normalize_spec(current_path@, link_path@) == Some(p@),
{
    let cur = chars_of(current_path);
    let parts: Vec<Vec<char>> = match last_index(&cur, '/') {
        Some(k) => folder_parts(&cur, k),
        None => Vec::new(),
    };
    assert(views(parts@) == folder_of(current_path@));
    let parts = match walk_link_segments(parts, link_path) {
        Some(p) => p,
        None => return None,
    };
    if parts.len() == 0 {
        return None;
    }
    Some(join_parts(&parts, '/'))
}

/// What a link fragment names: nothing when empty, a block for `^id`, else a heading.
pub open spec fn fragment_reference(fragment: Seq<char>) -> Option<ReferenceView> {
    if fragment.len() == 0 {
        None
    } else if fragment[0] == '^' {
        Some(ReferenceView::BlockId(fragment.skip(1)))
    } else {
        Some(ReferenceView::Heading(fragment))
    }
}

/// The note and the place inside it that a Markdown link URL names, seen from the current
/// note: `None` for an external or absolute URL, a malformed escape, a query (`?`), or a
/// relative path that climbs out of the vault. The URL is percent-decoded and split at its
/// first `#`; an empty path names the current note.
pub open spec fn link_target_spec(current: Seq<char>, url: Seq<char>) -> Option<
    (Seq<char>, Option<ReferenceView>),
> {
    if external_spec(url) {
        None
    } else {
        match percent_decode_spec(url) {
            None => None,
            Some(d) => {
                let (path_part, fragment) = match find_from(d, seq!['#'], 0) {
                    Some(k) => (d.take(k), d.skip(k + 1)),
                    None => (d, Seq::<char>::empty()),
                };
                if has_char(path_part, '?') {
                    None
                } else {
                    let target = if path_part.len() == 0 {
                        Some(current)
                    } else {
                        normalize_spec(current, path_part)
                    };
                    match target {
                        None => None,
                        Some(t) => Some((t, fragment_reference(fragment))),
                    }
                }
            },
        }
    }
}

fn has_question_mark(cs: &Vec<char>, end: usize) -> (b: bool)
    requires
        end <= cs.len(),
    ensures
        b == has_char(cs@.take(end as int), '?'),
{
    let mut i: usize = 0;
    while i < end
        invariant
            i <= end <= cs.len(),
            forall|j: int| 0 <= j < i ==> cs@[j] != '?',
        decreases end - i,
    {
        if cs[i] == '?' {
            assert(cs@.take(end as int)[i as int] == '?');
            return true;
        }
        i += 1;
    }
    assert forall|j: int| 0 <= j < end implies cs@.take(end as int)[j] != '?' by {}
    false
}

/// The note and the place inside it that a Markdown link URL names, seen from the current
/// note; `None` for links that name no note of the vault.
#[verifier::spinoff_prover]
#[verifier::rlimit(40)]
pub fn local_markdown_link_target(current_path: &str, url: &str) -> (r: Option<
    (String, Option<ReferenceInfo>),
>)
    ensures
        r is Some <==> link_target_spec(current_path@, url@) is Some,
        r matches Some((t, rf)) ==> link_target_spec(current_path@, url@) == Some(
            (t@, opt_ref_view(rf)),
        ),
{
    if is_external_or_absolute_url(url) {
        return None;
    }
    let decoded = match percent_decode(url) {
        Some(d) => d,
        None => {
            return None;
        },
    };
    let d = chars_of(decoded.as_str());
    let hash = vec!['#'];
    proof {
        lemma_find_from(d@, hash@, 0);
        assert(hash@ == seq!['#']);
    }
    let (path_end, fragment_start) = match find_chars(&d, &hash, 0) {
        Some(k) => {
            assert(crate::text::occurs_at(d@, hash@, k as int));
            assert(k + 1 <= d.len());
            (k, k + 1)
        },
        None => (d.len(), d.len()),
    };
    proof {
        assert(d@.skip(d.len() as int) =~= Seq::<char>::empty());
        assert(d@.take(d.len() as int) =~= d@);
    }
    if has_question_mark(&d, path_end) {
        return None;
    }
    let target = if path_end == 0 {
        crate::text::to_string(current_path)
    } else {
        let path_part = string_of(&d, 0, path_end);
        assert(path_part@ =~= d@.take(path_end as int));
        match normalize_relative_markdown_path(current_path, path_part.as_str()) {
            Some(t) => t,
            None => {
                return None;
            },
        }
    };
    let reference = if fragment_start >= d.len() {
        None
    } else if d[fragment_start] == '^' {
        let v = string_of(&d, fragment_start + 1, d.len());
        assert(v@ =~= d@.skip(fragment_start as int).skip(1));
        Some(ReferenceInfo::BlockId { value: v })
    } else {
        let v = string_of(&d, fragment_start, d.len());
        assert(v@ =~= d@.skip(fragment_start as int));
        Some(ReferenceInfo::Heading { value: v })
    };
    Some((target, reference))
}

/// The heading a piece of a note sits under.
#[derive(Clone, Debug, PartialEq, Eq)]
pub struct SectionInfo {
    pub heading: String,
    pub heading_level: u8,
    pub heading_path: Vec<String>,
    pub heading_anchor: String,
}

/// Where a piece of a note comes from: its note, lines (one-based, inclusive), byte range and
/// enclosing heading.
#[derive(Clone, Debug, PartialEq, Eq)]
pub struct SourceSpan {
    pub path: String,
    pub line_start: u64,
    pub line_end: u64,
    pub byte_start: usize,
    pub byte_end: usize,
    pub section: Option<SectionInfo>,
}

impl SourceSpan {
    /// The note path with this span's line reference.
    pub fn path_with_line_ref(&self) -> (r: String)
        ensures
            r@ == line_ref_spec(self.path@, self.line_start as nat, self.line_end as nat),
    {
        path_with_line_ref(self.path.as_str(), self.line_start, self.line_end)
    }
}

/// The text a reference adds after a link target: `#heading`, `#a#b` for a heading path, or
/// `#^id` for a block.
pub open spec fn suffix_spec(r: ReferenceView) -> Seq<char> {
    match r {
        ReferenceView::Heading(v) => seq!['#'] + v,
        ReferenceView::MultiHeading(vs) => seq!['#'] + join_with(vs, seq!['#']),
        ReferenceView::BlockId(v) => seq!['#', '^'] + v,
    }
}

/// The views of a list of strings.
pub open spec fn string_views(v: Seq<String>) -> Seq<Seq<char>> {
    v.map_values(|x: String| x@)
}

/// The text a reference adds after a link target: `#heading`, `#a#b` for a heading path, or
/// `#^id` for a block.
pub fn reference_suffix(reference: &ReferenceInfo) -> (r: String)
    ensures
        r@ == suffix_spec(reference@),
{
    let mut r = String::new();
    match reference {
        ReferenceInfo::Heading { value } => {
            push_char(&mut r, '#');
            push_str(&mut r, value.as_str());
        },
        ReferenceInfo::MultiHeading { value } => {
            push_char(&mut r, '#');
            let ghost start = r@;
            let mut k: usize = 0;
            while k < value.len()
                invariant
                    k <= value.len(),
                    r@ == start + join_with(string_views(value@).take(k as int), seq!['#']),
                decreases value.len() - k,
            {
                let ghost before = r@;
                if k > 0 {
                    push_char(&mut r, '#');
                }
                push_str(&mut r, value[k].as_str());
                proof {
                    let t = string_views(value@).take(k + 1);
                    assert(t.drop_last() =~= string_views(value@).take(k as int));
                    assert(t.last() == value@[k as int]@);
                    if k == 0 {
                        assert(r@ =~= start + t[0]);
                    } else {
                        assert(r@ =~= start + (join_with(t.drop_last(), seq!['#']) + seq!['#'] + t.last()));
                    }
                }
                k += 1;
            }
            assert(string_views(value@).take(value.len() as int) =~= string_views(value@));
            assert(r@ =~= seq!['#'] + join_with(string_views(value@), seq!['#']));
        },
        ReferenceInfo::BlockId { value } => {
            push_char(&mut r, '#');
            push_char(&mut r, '^');
            push_str(&mut r, value.as_str());
            assert(r@ =~= seq!['#', '^'] + value@);
        },
    }
    r
}

/// The source text of an inline link or embed: the opener, the target, the reference, an
/// optional `|alias`, and `]]`.
pub open spec fn inline_raw_spec(
    open: Seq<char>,
    target: Seq<char>,
    reference: Option<ReferenceView>,
    alias: Option<Seq<char>>,
) -> Seq<char> {
    open + target + (match reference {
        Some(r) => suffix_spec(r),
        None => Seq::<char>::empty(),
    }) + (match alias {
        Some(a) => seq!['|'] + a,
        None => Seq::<char>::empty(),
    }) + seq![']', ']']
}

/// The source text of an inline link or embed, such as `[[note#heading|alias]]`.
pub fn inline_raw(
    open: &str,
    target: &str,
    reference: Option<&ReferenceInfo>,
    alias: Option<&String>,
) -> (r: String)
    ensures
        r@ == inline_raw_spec(
            open@,
            target@,
            match reference {
                Some(x) => Some(x@),
                None => None,
            },
            match alias {
                Some(a) => Some(a@),
                None => None,
            },
        ),
{
    let mut r = String::new();
    push_str(&mut r, open);
    push_str(&mut r, target);
    let ghost head = r@;
    if let Some(x) = reference {
        let suffix = reference_suffix(x);
        push_str(&mut r, suffix.as_str());
    }
    let ghost mid = r@;
    if let Some(a) = alias {
        push_char(&mut r, '|');
        push_str(&mut r, a.as_str());
        assert(r@ =~= mid + (seq!['|'] + a@));
    } else {
        assert(r@ =~= mid + Seq::<char>::empty());
    }
    push_char(&mut r, ']');
    push_char(&mut r, ']');
    proof {
        if reference is None {
            assert(mid =~= head + Seq::<char>::empty());
        }
    }
    assert(r@ =~= inline_raw_spec(
        open@,
        target@,
        match reference {
            Some(x) => Some(x@),
            None => None,
        },
        match alias {
            Some(a) => Some(a@),
            None => None,
        },
    ));
    r
}

/// The span of the first occurrence of `raw` at or after byte `from` of the text, and the
/// offset just past it; the span left as it was, and `from` unchanged, when there is none.
pub open spec fn recovered_span(
    path: Seq<char>,
    text: Seq<u8>,
    original: SourceSpan,
    raw: Seq<u8>,
    from: int,
) -> Option<(int, int, int, int)> {
    match find_from(text, raw, from) {
        Some(p) => {
            let end = p + raw.len();
            let line_start = line_number_spec(text, p);
            let last = line_number_spec(text, if raw.len() > 0 { end - 1 } else { p });
            Some((p, end, line_start, if last < line_start { line_start } else { last }))
        },
        None => None,
    }
}

/// Finds the source text of an inline element after byte `search_start` and moves the span
/// onto it: bytes from the match, lines from the bytes, and `search_start` just past the
/// match. Without a match the span and `search_start` stay as they were.
pub fn recover_inline_source_span(
    path: &str,
    text: &str,
    original: SourceSpan,
    raw: &str,
    search_start: &mut usize,
) -> (r: SourceSpan)
    ensures
        match recovered_span(path@, text.spec_bytes(), original, raw.spec_bytes(), *old(search_start) as int) {
            Some((a, b, ls, le)) => {
                &&& r.path@ == path@
                &&& r.byte_start == a
                &&& r.byte_end == b
                &&& r.line_start == ls
                &&& r.line_end == le
                &&& r.section == original.section
                &&& *final(search_start) == b
            },
            None => r == original && *final(search_start) == *old(search_start),
        },
{
    let t: &[u8] = text.as_bytes();
    let n: &[u8] = raw.as_bytes();
    proof {
        lemma_find_from(t@, n@, *search_start as int);
    }
    match crate::text::find_bytes(t, n, *search_start) {
        Some(p) => {
            assert(crate::text::occurs_at(t@, n@, p as int));
            assert(p + n.len() <= t.len());
            let end = p + n.len();
            let line_start = line_number_for_byte(text, p);
            let last = if n.len() > 0 {
                line_number_for_byte(text, end - 1)
            } else {
                line_start
            };
            let line_end = if last < line_start {
                line_start
            } else {
                last
            };
            *search_start = end;
            SourceSpan {
                path: crate::text::to_string(path),
                line_start,
                line_end,
                byte_start: p,
                byte_end: end,
                section: original.section,
            }
        },
        None => original,
    }
}

/// The position of the character that starts at byte `n` of `cs[from..to]`, if one does.
pub fn char_at_byte(cs: &Vec<char>, from: usize, to: usize, n: usize) -> (r: Option<usize>)
    requires
        from <= to <= cs.len(),
        n < 64,
    ensures
        r is Some <==> is_boundary(cs@.subrange(from as int, to as int), n as int),
        r matches Some(k) ==> from <= k <= to && k - from == char_at(
            cs@.subrange(from as int, to as int),
            n as int,
        ),
{
    let ghost l = cs@.subrange(from as int, to as int);
    let mut k = from;
    let mut off: usize = 0;
    while k < to && off < n
        invariant
            from <= k <= to <= cs.len(),
            l == cs@.subrange(from as int, to as int),
            off == byte_len(l.take(k - from)),
            off < n + 4,
            n < 64,
            forall|q: int| 0 <= q < k - from ==> byte_len(#[trigger] l.take(q)) < n,
        decreases to - k,
    {
        proof {
            assert(l.take(k - from + 1) =~= l.take(k - from).push(l[k - from]));
            lemma_byte_len_push(l.take(k - from), l[k - from]);
        }
        off = off + utf8_width(cs[k]);
        k += 1;
    }
    if off == n {
        proof {
            assert(byte_len(l.take(k - from)) == n);
            let m = char_at(l, n as int);
            crate::text::lemma_boundary_unique(l, k - from, m);
        }
        Some(k)
    } else {
        proof {
            if is_boundary(l, n as int) {
                let m = choose|m: int| 0 <= m <= l.len() && byte_len(#[trigger] l.take(m)) == n;
                if m < k - from {
                } else if m > k - from {
                    crate::text::lemma_byte_len_mono(l, k - from, m);
                    if k < to {
                    } else {
                        assert(l.take(k - from) =~= l);
                        assert(l.take(m) =~= l);
                    }
                }
            }
        }
        None
    }
}


} // verus!
