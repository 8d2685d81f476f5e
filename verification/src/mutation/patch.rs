//! Unified patches over notes: parsing a `diff`-style patch into per-note hunks, and
//! applying a note's hunks to its text line by line.
use vstd::prelude::*;

use crate::byte_size::is_digit;
use crate::parser::views;
use vstd::utf8::{decode_utf8, encode_utf8, valid_utf8};

use crate::text::{chars_of, is_whitespace, is_ws, push_str, to_string, utf8_error_text};

verus! {

pub open spec fn digit_value(c: char) -> nat {
    (c as u32 - 48) as nat
}

/// `usize::from_str` on the digits `s[i..]`, with `acc` the value of the digits before: each
/// digit must be `0` to `9`, and the value must stay within `usize`; the first failure met,
/// left to right, is the error.
pub open spec fn scan_digits(s: Seq<char>, i: int, acc: nat) -> Result<nat, Seq<char>>
    decreases s.len() - i,
{
    if i >= s.len() {
        Ok(acc)
    } else if !is_digit(s[i]) {
        Err("invalid digit found in string"@)
    } else if acc * 10 + digit_value(s[i]) > usize::MAX {
        Err("number too large to fit in target type"@)
    } else {
        scan_digits(s, i + 1, acc * 10 + digit_value(s[i]))
    }
}

/// `usize::from_str` (`str::parse::<usize>`): an optional `+` and at least one decimal digit;
/// the error is the text of std's `ParseIntError`.
pub open spec fn parse_usize_spec(s: Seq<char>) -> Result<nat, Seq<char>> {
    if s.len() == 0 {
        Err("cannot parse integer from empty string"@)
    } else if (s[0] == '+' || s[0] == '-') && s.len() == 1 {
        Err("invalid digit found in string"@)
    } else if s[0] == '+' {
        scan_digits(s, 1, 0)
    } else {
        scan_digits(s, 0, 0)
    }
}

fn digit_char(c: char) -> (b: bool)
    ensures
        b == is_digit(c),
{
    '0' <= c && c <= '9'
}

/// Parses a decimal `usize` (see `parse_usize_spec`).
pub fn parse_usize(s: &Vec<char>) -> (r: Result<usize, String>)
    ensures
        match parse_usize_spec(s@) {
            Ok(v) => r == Ok::<usize, String>(v as usize) && v <= usize::MAX,
            Err(m) => r matches Err(e) && e@ == m,
        },
{
    if s.len() == 0 {
        return Err(to_string("cannot parse integer from empty string"));
    }
    if (s[0] == '+' || s[0] == '-') && s.len() == 1 {
        return Err(to_string("invalid digit found in string"));
    }
    let mut i: usize = if s[0] == '+' {
        1
    } else {
        0
    };
    let ghost start = i;
    let mut acc: usize = 0;
    while i < s.len()
        invariant
            i <= s.len(),
            parse_usize_spec(s@) == scan_digits(s@, i as int, acc as nat),
        decreases s.len() - i,
    {
        let c = s[i];
        if !digit_char(c) {
            return Err(to_string("invalid digit found in string"));
        }
        let d = (c as u32 - 48) as usize;
        assert(d == digit_value(c));
        if acc > (usize::MAX - d) / 10 {
            assert(acc * 10 + d > usize::MAX) by (nonlinear_arith)
                requires
                    acc > (usize::MAX - d) / 10,
                    d <= 9,
            ;
            return Err(to_string("number too large to fit in target type"));
        }
        assert(acc * 10 + d <= usize::MAX) by (nonlinear_arith)
            requires
                acc <= (usize::MAX - d) / 10,
                d <= 9,
        ;
        acc = acc * 10 + d;
        i += 1;
    }
    Ok(acc)
}

/// `str::split_whitespace` of `s[i..]`, with `cur` the word being read and `acc` the words
/// already read: the maximal runs of non-whitespace characters.
pub open spec fn words_from(s: Seq<char>, i: int, cur: Seq<char>, acc: Seq<Seq<char>>) -> Seq<Seq<char>>
    decreases s.len() - i,
{
    if i >= s.len() {
        if cur.len() > 0 {
            acc.push(cur)
        } else {
            acc
        }
    } else if is_ws(s[i]) {
        words_from(
            s,
            i + 1,
            seq![],
            if cur.len() > 0 {
                acc.push(cur)
            } else {
                acc
            },
        )
    } else {
        words_from(s, i + 1, cur.push(s[i]), acc)
    }
}

/// The whitespace-separated words of `s`.
pub open spec fn words(s: Seq<char>) -> Seq<Seq<char>> {
    words_from(s, 0, seq![], seq![])
}

/// Splits a text into its whitespace-separated words (see `words`).
fn split_words(s: &Vec<char>) -> (r: Vec<Vec<char>>)
    ensures
        r@.map_values(|w: Vec<char>| w@) == words(s@),
{
    let mut acc: Vec<Vec<char>> = Vec::new();
    let mut cur: Vec<char> = Vec::new();
    let mut i: usize = 0;
    assert(acc@.map_values(|w: Vec<char>| w@) =~= Seq::<Seq<char>>::empty());
    assert(cur@ =~= Seq::<char>::empty());
    while i < s.len()
        invariant
            i <= s.len(),
            words(s@) == words_from(s@, i as int, cur@, acc@.map_values(|w: Vec<char>| w@)),
        decreases s.len() - i,
    {
        if is_whitespace(s[i]) {
            if cur.len() > 0 {
                let ghost before = acc@;
                acc.push(cur);
                assert(acc@.map_values(|w: Vec<char>| w@) =~= before.map_values(|w: Vec<char>| w@).push(cur@));
                cur = Vec::new();
            } else {
                cur = Vec::new();
            }
            assert(cur@ =~= Seq::<char>::empty());
        } else {
            cur.push(s[i]);
        }
        i += 1;
    }
    if cur.len() > 0 {
        let ghost before = acc@;
        let ghost last = cur@;
        acc.push(cur);
        assert(acc@.map_values(|w: Vec<char>| w@) =~= before.map_values(|w: Vec<char>| w@).push(last));
    }
    acc
}

/// A hunk range `-start,count` (or `+start,count`); a missing count is 1.
pub open spec fn range_spec(value: Seq<char>, prefix: char) -> Result<(nat, nat), Seq<char>> {
    if value.len() == 0 || value[0] != prefix {
        Err("invalid hunk range: "@ + value)
    } else {
        let v = value.skip(1);
        let (start, count) = match first_comma(v, 0) {
            Some(k) => (v.take(k), v.skip(k + 1)),
            None => (v, "1"@),
        };
        match parse_usize_spec(start) {
            Err(m) => Err(m),
            Ok(a) => match parse_usize_spec(count) {
                Err(m) => Err(m),
                Ok(b) => Ok((a, b)),
            },
        }
    }
}

/// The position of the first `,` in `s` at or after `i`.
pub open spec fn first_comma(s: Seq<char>, i: int) -> Option<int>
    decreases s.len() - i,
{
    if i < 0 || i >= s.len() {
        None
    } else if s[i] == ',' {
        Some(i)
    } else {
        first_comma(s, i + 1)
    }
}

/// Parses a hunk range (see `range_spec`).
fn parse_range(value: &Vec<char>, prefix: char) -> (r: Result<(usize, usize), String>)
    ensures
        match range_spec(value@, prefix) {
            Ok((a, b)) => r == Ok::<(usize, usize), String>((a as usize, b as usize)) && a <= usize::MAX && b <= usize::MAX,
            Err(m) => r matches Err(e) && e@ == m,
        },
{
    if value.len() == 0 || value[0] != prefix {
        let mut m = to_string("invalid hunk range: ");
        crate::text::push_range(&mut m, value, 0, value.len());
        assert(value@.subrange(0, value@.len() as int) =~= value@);
        return Err(m);
    }
    let ghost v = value@.skip(1);
    let mut k: usize = 1;
    while k < value.len() && value[k] != ','
        invariant
            1 <= k <= value.len(),
            v == value@.skip(1),
            first_comma(v, 0) == first_comma(v, k - 1),
        decreases value.len() - k,
    {
        k += 1;
    }
    let start = crate::parser::chars_range(value, 1, k);
    assert(start@ =~= v.take(k - 1));
    let count = if k < value.len() {
        let c = crate::parser::chars_range(value, k + 1, value.len());
        assert(c@ =~= v.skip(k as int));
        c
    } else {
        proof {
            reveal_strlit("1");
        }
        assert(v.take(k - 1) =~= v);
        crate::text::pattern("1")
    };
    let a = parse_usize(&start)?;
    let b = parse_usize(&count)?;
    Ok((a, b))
}

/// A hunk header `@@ -start,count +start,count @@ …`: the old start, the old count and the
/// new count.
pub open spec fn hunk_header_spec(header: Seq<char>) -> Result<(nat, nat, nat), Seq<char>> {
    let parts = words(header);
    if parts.len() < 4 || parts[0] != "@@"@ || parts[3] != "@@"@ {
        Err("invalid hunk header: "@ + header)
    } else {
        match range_spec(parts[1], '-') {
            Err(m) => Err(m),
            Ok((old_start, old_count)) => match range_spec(parts[2], '+') {
                Err(m) => Err(m),
                Ok((_, new_count)) => Ok((old_start, old_count, new_count)),
            },
        }
    }
}

/// Parses a hunk header (see `hunk_header_spec`).
fn parse_hunk_header(header: &Vec<char>) -> (r: Result<(usize, usize, usize), String>)
    ensures
        match hunk_header_spec(header@) {
            Ok((a, b, c)) => r == Ok::<(usize, usize, usize), String>((a as usize, b as usize, c as usize))
                && a <= usize::MAX && b <= usize::MAX && c <= usize::MAX,
            Err(m) => r matches Err(e) && e@ == m,
        },
{
    let parts = split_words(header);
    let ghost pv = parts@.map_values(|w: Vec<char>| w@);
    let marker = crate::text::pattern("@@");
    if parts.len() < 4 || !crate::text::chars_eq(&parts[0], &marker) || !crate::text::chars_eq(
        &parts[3],
        &marker,
    ) {
        let mut m = to_string("invalid hunk header: ");
        crate::text::push_range(&mut m, header, 0, header.len());
        assert(header@.subrange(0, header@.len() as int) =~= header@);
        return Err(m);
    }
    assert(pv[1] == parts@[1]@ && pv[2] == parts@[2]@);
    let (old_start, old_count) = parse_range(&parts[1], '-')?;
    let (_, new_count) = parse_range(&parts[2], '+')?;
    Ok((old_start, old_count, new_count))
}

pub open spec fn is_octal(b: u8) -> bool {
    48 <= b <= 55
}

/// Prepends a byte to a successful result.
pub open spec fn prepend(b: u8, r: Result<Seq<u8>, Seq<char>>) -> Result<Seq<u8>, Seq<char>> {
    match r {
        Ok(t) => Ok(seq![b] + t),
        Err(m) => Err(m),
    }
}

/// The bytes of a Git-quoted path's inside `b[i..]` with its escapes decoded: `\\`, `\"`,
/// `\t`, `\n`, `\r`, and three octal digits for one byte.
pub open spec fn unquote_bytes(b: Seq<u8>, i: int) -> Result<Seq<u8>, Seq<char>>
    decreases b.len() - i,
{
    if i < 0 || i >= b.len() {
        Ok(seq![])
    } else if b[i] != 92 {
        prepend(b[i], unquote_bytes(b, i + 1))
    } else if i + 1 >= b.len() {
        Err("trailing escape in patch path"@)
    } else {
        let e = b[i + 1];
        if e == 92 || e == 34 {
            prepend(e, unquote_bytes(b, i + 2))
        } else if e == 116 {
            prepend(9, unquote_bytes(b, i + 2))
        } else if e == 110 {
            prepend(10, unquote_bytes(b, i + 2))
        } else if e == 114 {
            prepend(13, unquote_bytes(b, i + 2))
        } else if is_octal(e) {
            if i + 4 > b.len() {
                Err("incomplete octal escape in patch path"@)
            } else if !(is_octal(b[i + 2]) && is_octal(b[i + 3])) {
                Err("invalid octal escape in patch path"@)
            } else {
                let value = (b[i + 1] - 48) * 64 + (b[i + 2] - 48) * 8 + (b[i + 3] - 48);
                if value > 255 {
                    Err("octal escape exceeds one byte"@)
                } else {
                    prepend(value as u8, unquote_bytes(b, i + 4))
                }
            }
        } else {
            Err("unsupported escape in patch path"@)
        }
    }
}

/// A path in Git's quoted form (`"…"` with C-style escapes), decoded; the decoded bytes must
/// be UTF-8.
pub open spec fn quoted_path_spec(q: Seq<char>) -> Result<Seq<char>, Seq<char>> {
    if !(q.len() >= 2 && q[0] == '"' && q.last() == '"') {
        Err("invalid quoted patch path: "@ + q)
    } else {
        match unquote_bytes(encode_utf8(q.subrange(1, q.len() - 1)), 0) {
            Err(m) => Err(m),
            Ok(d) => if valid_utf8(d) {
                Ok(decode_utf8(d))
            } else {
                Err(utf8_error_text(d))
            },
        }
    }
}

/// Decodes a Git-quoted patch path (see `quoted_path_spec`).
pub fn decode_git_quoted_path(quoted: &str) -> (r: Result<String, String>)
    ensures
        match quoted_path_spec(quoted@) {
            Ok(v) => r matches Ok(t) && t@ == v,
            Err(m) => r matches Err(e) && e@ == m,
        },
{
    let cs = chars_of(quoted);
    if !(cs.len() >= 2 && cs[0] == '"' && cs[cs.len() - 1] == '"') {
        let mut m = to_string("invalid quoted patch path: ");
        push_str(&mut m, quoted);
        return Err(m);
    }
    let inner = crate::text::string_of(&cs, 1, cs.len() - 1);
    let b: &[u8] = inner.as_str().as_bytes();
    let ghost bs = b@;
    assert(bs == encode_utf8(quoted@.subrange(1, quoted@.len() - 1)));
    let mut out: Vec<u8> = Vec::new();
    let mut i: usize = 0;
    while i < b.len()
        invariant
            i <= b.len(),
            bs == b@,
            quoted@.len() >= 2 && quoted@[0] == '"' && quoted@.last() == '"',
            bs == encode_utf8(quoted@.subrange(1, quoted@.len() - 1)),
            unquote_bytes(bs, 0) == (match unquote_bytes(bs, i as int) {
                Ok(r) => Ok(out@ + r),
                Err(m) => Err::<Seq<u8>, Seq<char>>(m),
            }),
        decreases b.len() - i,
    {
        let ghost before = out@;
        if b[i] != 92 {
            out.push(b[i]);
            proof {
                match unquote_bytes(bs, i + 1) {
                    Ok(r) => {
                        assert(before + (seq![bs[i as int]] + r) =~= out@ + r);
                    },
                    Err(_) => {},
                }
            }
            i += 1;
        } else {
            if i + 1 >= b.len() {
                return Err(to_string("trailing escape in patch path"));
            }
            let e = b[i + 1];
            let step: usize;
            if e == 92 || e == 34 || e == 116 || e == 110 || e == 114 {
                let v: u8 = if e == 116 {
                    9
                } else if e == 110 {
                    10
                } else if e == 114 {
                    13
                } else {
                    e
                };
                out.push(v);
                step = 2;
            } else if 48 <= e && e <= 55 {
                if b.len() - i < 4 {
                    return Err(to_string("incomplete octal escape in patch path"));
                }
                let d1 = b[i + 2];
                let d2 = b[i + 3];
                if !(48 <= d1 && d1 <= 55 && 48 <= d2 && d2 <= 55) {
                    return Err(to_string("invalid octal escape in patch path"));
                }
                let value: u16 = (e - 48) as u16 * 64 + (d1 - 48) as u16 * 8 + (d2 - 48) as u16;
                if value > 255 {
                    return Err(to_string("octal escape exceeds one byte"));
                }
                out.push(value as u8);
                step = 4;
            } else {
                return Err(to_string("unsupported escape in patch path"));
            }
            proof {
                match unquote_bytes(bs, i + step) {
                    Ok(r) => {
                        assert(before + (seq![out@.last()] + r) =~= out@ + r);
                    },
                    Err(_) => {},
                }
            }
            i += step;
        }
    }
    assert(out@ + Seq::<u8>::empty() =~= out@);
    crate::text::string_from_utf8(out)
}

/// The position of the first tab in `s`, or its length.
pub open spec fn tab_end(s: Seq<char>, i: int) -> int
    decreases s.len() - i,
{
    if i < 0 || i >= s.len() {
        s.len() as int
    } else if s[i] == '\t' {
        i
    } else {
        tab_end(s, i + 1)
    }
}

/// The note path of a `---`/`+++` header: the text before the first tab, decoded when
/// Git-quoted, must start with `prefix` (`a/` or `b/`), and what follows must end with `.md`.
pub open spec fn patch_path_spec(header: Seq<char>, prefix: Seq<char>) -> Result<Seq<char>, Seq<char>> {
    let path = header.take(tab_end(header, 0));
    let decoded = if path.len() > 0 && path[0] == '"' {
        quoted_path_spec(path)
    } else {
        Ok(path)
    };
    match decoded {
        Err(m) => Err(m),
        Ok(d) => if !crate::parser::starts_with(d, prefix) {
            Err("expected "@ + prefix + " path: "@ + path)
        } else if !crate::blueprint::document::ends_with(d.skip(prefix.len() as int), ".md"@) {
            Err("patch path must end with .md: "@ + d.skip(prefix.len() as int))
        } else {
            Ok(d.skip(prefix.len() as int))
        },
    }
}

/// The note path of a patch file header (see `patch_path_spec`).
pub fn patch_path(header: &str, prefix: &str) -> (r: Result<String, String>)
    ensures
        match patch_path_spec(header@, prefix@) {
            Ok(v) => r matches Ok(t) && t@ == v,
            Err(m) => r matches Err(e) && e@ == m,
        },
{
    let hs = chars_of(header);
    let mut k: usize = 0;
    while k < hs.len() && hs[k] != '\t'
        invariant
            k <= hs.len(),
            tab_end(hs@, 0) == tab_end(hs@, k as int),
        decreases hs.len() - k,
    {
        k += 1;
    }
    let path = crate::text::string_of(&hs, 0, k);
    assert(hs@.subrange(0, k as int) =~= hs@.take(k as int));
    let decoded = if k > 0 && hs[0] == '"' {
        decode_git_quoted_path(path.as_str())?
    } else {
        path.clone()
    };
    let ds = chars_of(decoded.as_str());
    let ps = chars_of(prefix);
    if !crate::text::matches_at(&ds, &ps, 0) {
        proof {
            if ps@.len() <= ds@.len() {
                assert(ds@.subrange(0, ps@.len() as int) =~= ds@.take(ps@.len() as int));
            }
        }
        let mut m = to_string("expected ");
        push_str(&mut m, prefix);
        push_str(&mut m, " path: ");
        push_str(&mut m, path.as_str());
        return Err(m);
    }
    assert(ds@.subrange(0, ps@.len() as int) =~= ds@.take(ps@.len() as int));
    let stripped = crate::text::string_of(&ds, ps.len(), ds.len());
    assert(ds@.subrange(ps@.len() as int, ds@.len() as int) =~= ds@.skip(ps@.len() as int));
    if !md_suffix(&stripped) {
        let mut m = to_string("patch path must end with .md: ");
        push_str(&mut m, stripped.as_str());
        return Err(m);
    }
    Ok(stripped)
}

/// Whether the text ends with `.md`.
fn md_suffix(s: &String) -> (b: bool)
    ensures
        b == crate::blueprint::document::ends_with(s@, ".md"@),
{
    proof {
        reveal_strlit(".md");
    }
    let cs = chars_of(s.as_str());
    let n = cs.len();
    let b = n >= 3 && cs[n - 3] == '.' && cs[n - 2] == 'm' && cs[n - 1] == 'd';
    proof {
        if n >= 3 {
            if b {
                assert(cs@.skip(n - 3) =~= ".md"@);
            } else {
                if cs@.skip(n - 3) == ".md"@ {
                    assert(cs@.skip(n - 3)[0] == cs@[n - 3]);
                    assert(cs@.skip(n - 3)[1] == cs@[n - 2]);
                    assert(cs@.skip(n - 3)[2] == cs@[n - 1]);
                }
            }
        }
    }
    b
}

/// One line of a note or of a hunk: its text without the line break, and whether a newline
/// ends it.
#[derive(Clone, Debug, PartialEq, Eq)]
pub struct PatchLine {
    pub text: String,
    pub newline: bool,
}

/// One line of a hunk: ` ` (context), `-` (removed) or `+` (added), and the line.
#[derive(Clone, Debug, PartialEq, Eq)]
pub struct HunkLine {
    pub kind: char,
    pub line: PatchLine,
}

/// A hunk: where it starts in the old note (one-based; zero for an insertion at the top),
/// how many old and new lines it spans, and its lines.
#[derive(Clone, Debug, PartialEq, Eq)]
pub struct Hunk {
    pub old_start: usize,
    pub old_count: usize,
    pub new_count: usize,
    pub lines: Vec<HunkLine>,
}

/// The hunks of one note.
#[derive(Clone, Debug, PartialEq, Eq)]
pub struct FilePatch {
    pub path: String,
    pub hunks: Vec<Hunk>,
}

pub struct LineView {
    pub text: Seq<char>,
    pub newline: bool,
}

pub struct HunkLineView {
    pub kind: char,
    pub line: LineView,
}

pub struct HunkView {
    pub old_start: nat,
    pub old_count: nat,
    pub new_count: nat,
    pub lines: Seq<HunkLineView>,
}

pub struct FilePatchView {
    pub path: Seq<char>,
    pub hunks: Seq<HunkView>,
}

impl View for PatchLine {
    type V = LineView;

    open spec fn view(&self) -> LineView {
        LineView { text: self.text@, newline: self.newline }
    }
}

impl View for HunkLine {
    type V = HunkLineView;

    open spec fn view(&self) -> HunkLineView {
        HunkLineView { kind: self.kind, line: self.line@ }
    }
}

pub open spec fn hunk_line_views(v: Seq<HunkLine>) -> Seq<HunkLineView> {
    v.map_values(|h: HunkLine| h@)
}

impl View for Hunk {
    type V = HunkView;

    open spec fn view(&self) -> HunkView {
        HunkView {
            old_start: self.old_start as nat,
            old_count: self.old_count as nat,
            new_count: self.new_count as nat,
            lines: hunk_line_views(self.lines@),
        }
    }
}

pub open spec fn hunk_views(v: Seq<Hunk>) -> Seq<HunkView> {
    v.map_values(|h: Hunk| h@)
}

impl View for FilePatch {
    type V = FilePatchView;

    open spec fn view(&self) -> FilePatchView {
        FilePatchView { path: self.path@, hunks: hunk_views(self.hunks@) }
    }
}

pub open spec fn file_views(v: Seq<FilePatch>) -> Seq<FilePatchView> {
    v.map_values(|f: FilePatch| f@)
}

/// Every line of the hunk lines is a context, removed or added line.
pub open spec fn lines_known(v: Seq<HunkLine>) -> bool {
    forall|j: int| 0 <= j < v.len() ==> {
        let k = (#[trigger] v[j]).kind;
        k == ' ' || k == '+' || k == '-'
    }
}

/// The marker line that says the line before it has no newline.
pub open spec fn no_newline_marker() -> Seq<char> {
    "\\ No newline at end of file"@
}

/// The lines of a hunk's body from line `c` on, given the counts its header announced, the
/// lines read so far and the old and new lines they cover. The body ends once both counts are
/// reached (a no-newline marker may still follow) or the patch ends.
pub open spec fn body_spec(
    lines: Seq<Seq<char>>,
    c: int,
    old_count: nat,
    new_count: nat,
    path: Seq<char>,
    acc: Seq<HunkLineView>,
    old_seen: nat,
    new_seen: nat,
) -> Result<(Seq<HunkLineView>, int, nat, nat), Seq<char>>
    decreases lines.len() - c,
{
    if c < 0 || c >= lines.len() {
        Ok((acc, c, old_seen, new_seen))
    } else {
        let line = lines[c];
        if old_seen == old_count && new_seen == new_count && line != no_newline_marker() {
            Ok((acc, c, old_seen, new_seen))
        } else if line == no_newline_marker() {
            if acc.len() == 0 {
                Err("orphan no-newline marker"@)
            } else {
                let last = acc.last();
                body_spec(
                    lines,
                    c + 1,
                    old_count,
                    new_count,
                    path,
                    acc.update(
                        acc.len() - 1,
                        HunkLineView { kind: last.kind, line: LineView { text: last.line.text, newline: false } },
                    ),
                    old_seen,
                    new_seen,
                )
            }
        } else if line.len() == 0 {
            Err("empty hunk line"@)
        } else if !(line[0] == ' ' || line[0] == '+' || line[0] == '-') {
            Err("invalid hunk line: "@ + line)
        } else {
            let o = old_seen + if line[0] != '+' { 1nat } else { 0nat };
            let n = new_seen + if line[0] != '-' { 1nat } else { 0nat };
            if o > old_count || n > new_count {
                Err("hunk line count exceeds header for "@ + path)
            } else {
                body_spec(
                    lines,
                    c + 1,
                    old_count,
                    new_count,
                    path,
                    acc.push(HunkLineView { kind: line[0], line: LineView { text: line.skip(1), newline: true } }),
                    o,
                    n,
                )
            }
        }
    }
}

/// Reads the body of a hunk from line `c` (see `body_spec`).
fn read_body(
    lines: &Vec<Vec<char>>,
    c: usize,
    old_count: usize,
    new_count: usize,
    path: &String,
) -> (r: Result<(Vec<HunkLine>, usize, usize, usize), String>)
    requires
        c <= lines.len(),
    ensures
        match body_spec(views(lines@), c as int, old_count as nat, new_count as nat, path@, seq![], 0, 0) {
            Ok((hl, c2, o, n)) => r matches Ok(t) && hunk_line_views(t.0@) == hl && t.1 == c2 && t.2 == o && t.3 == n
                && c <= t.1 <= lines.len(),
            Err(m) => r matches Err(e) && e@ == m,
        },
        r matches Ok(t) ==> lines_known(t.0@),
{
    let ghost lv = views(lines@);
    let mut acc: Vec<HunkLine> = Vec::new();
    let mut old_seen: usize = 0;
    let mut new_seen: usize = 0;
    let mut k: usize = c;
    let marker = crate::text::pattern("\\ No newline at end of file");
    assert(hunk_line_views(acc@) =~= Seq::<HunkLineView>::empty());
    while k < lines.len()
        invariant
            c <= k <= lines.len(),
            lv == views(lines@),
            marker@ == no_newline_marker(),
            old_seen <= old_count,
            new_seen <= new_count,
            lines_known(acc@),
            body_spec(lv, c as int, old_count as nat, new_count as nat, path@, seq![], 0, 0) == body_spec(
                lv,
                k as int,
                old_count as nat,
                new_count as nat,
                path@,
                hunk_line_views(acc@),
                old_seen as nat,
                new_seen as nat,
            ),
        ensures
            k == lines.len() || (old_seen == old_count && new_seen == new_count && lv[k as int]
                != no_newline_marker()),
        decreases lines.len() - k,
    {
        let line = &lines[k];
        assert(lv[k as int] == line@);
        let is_marker = crate::text::chars_eq(line, &marker);
        if old_seen == old_count && new_seen == new_count && !is_marker {
            assert(lv[k as int] != no_newline_marker());
            break;
        }
        if is_marker {
            if acc.len() == 0 {
                return Err(to_string("orphan no-newline marker"));
            }
            let ghost before = hunk_line_views(acc@);
            let last = acc.pop().unwrap();
            let updated = HunkLine { kind: last.kind, line: PatchLine { text: last.line.text, newline: false } };
            acc.push(updated);
            assert(hunk_line_views(acc@) =~= before.update(
                before.len() - 1,
                HunkLineView {
                    kind: before.last().kind,
                    line: LineView { text: before.last().line.text, newline: false },
                },
            ));
        } else {
            if line.len() == 0 {
                return Err(to_string("empty hunk line"));
            }
            let kind = line[0];
            if !(kind == ' ' || kind == '+' || kind == '-') {
                let mut m = to_string("invalid hunk line: ");
                crate::text::push_range(&mut m, line, 0, line.len());
                assert(line@.subrange(0, line@.len() as int) =~= line@);
                return Err(m);
            }
            let adds_old = kind != '+';
            let adds_new = kind != '-';
            if (adds_old && old_seen == old_count) || (adds_new && new_seen == new_count) {
                let mut m = to_string("hunk line count exceeds header for ");
                push_str(&mut m, path.as_str());
                return Err(m);
            }
            if adds_old {
                old_seen += 1;
            }
            if adds_new {
                new_seen += 1;
            }
            let text = crate::text::string_of(line, 1, line.len());
            assert(line@.subrange(1, line@.len() as int) =~= line@.skip(1));
            let ghost before = hunk_line_views(acc@);
            acc.push(HunkLine { kind, line: PatchLine { text, newline: true } });
            assert(hunk_line_views(acc@) =~= before.push(
                HunkLineView { kind, line: LineView { text: line@.skip(1), newline: true } },
            ));
        }
        k += 1;
    }
    Ok((acc, k, old_seen, new_seen))
}

/// The hunks of a note from line `c` on: each starts with an `@@ ` header, and its body must
/// cover exactly the old and new line counts of the header.
pub open spec fn hunks_spec(lines: Seq<Seq<char>>, c: int, path: Seq<char>, acc: Seq<HunkView>) -> Result<
    (Seq<HunkView>, int),
    Seq<char>,
>
    decreases lines.len() - c,
{
    if 0 <= c < lines.len() && crate::parser::starts_with(lines[c], "@@ "@) {
        match hunk_header_spec(lines[c]) {
            Err(m) => Err(m),
            Ok((start, oc, nc)) => match body_spec(lines, c + 1, oc, nc, path, seq![], 0, 0) {
                Err(m) => Err(m),
                Ok((hl, c2, o, n)) => if o != oc || n != nc {
                    Err("hunk line count does not match header for "@ + path)
                } else if c < c2 <= lines.len() {
                    hunks_spec(
                        lines,
                        c2,
                        path,
                        acc.push(HunkView { old_start: start, old_count: oc, new_count: nc, lines: hl }),
                    )
                } else {
                    Ok((acc, c))
                },
            },
        }
    } else {
        Ok((acc, c))
    }
}

/// Reads the hunks of a note from line `c` (see `hunks_spec`).
fn read_hunks(lines: &Vec<Vec<char>>, c: usize, path: &String) -> (r: Result<(Vec<Hunk>, usize), String>)
    requires
        c <= lines.len(),
    ensures
        match hunks_spec(views(lines@), c as int, path@, seq![]) {
            Ok((hs, c2)) => r matches Ok(t) && hunk_views(t.0@) == hs && t.1 == c2 && c <= t.1 <= lines.len(),
            Err(m) => r matches Err(e) && e@ == m,
        },
        r matches Ok(t) ==> forall|h: int| 0 <= h < t.0@.len() ==> lines_known(#[trigger] t.0@[h].lines@),
{
    let ghost lv = views(lines@);
    let mut hunks: Vec<Hunk> = Vec::new();
    let mut k: usize = c;
    let header_start = crate::text::pattern("@@ ");
    assert(hunk_views(hunks@) =~= Seq::<HunkView>::empty());
    loop
        invariant
            c <= k <= lines.len(),
            lv == views(lines@),
            header_start@ == "@@ "@,
            forall|h: int| 0 <= h < hunks@.len() ==> lines_known(#[trigger] hunks@[h].lines@),
            hunks_spec(lv, c as int, path@, seq![]) == hunks_spec(lv, k as int, path@, hunk_views(hunks@)),
        decreases lines.len() - k,
    {
        if k >= lines.len() {
            return Ok((hunks, k));
        }
        assert(lv[k as int] == lines@[k as int]@);
        let is_header = crate::text::matches_at(&lines[k], &header_start, 0);
        proof {
            let l = lines@[k as int]@;
            if header_start@.len() <= l.len() {
                assert(l.subrange(0, header_start@.len() as int) =~= l.take(header_start@.len() as int));
            }
        }
        if !is_header {
            return Ok((hunks, k));
        }
        let (old_start, old_count, new_count) = parse_hunk_header(&lines[k])?;
        let (body, next, old_seen, new_seen) = read_body(lines, k + 1, old_count, new_count, path)?;
        if old_seen != old_count || new_seen != new_count {
            let mut m = to_string("hunk line count does not match header for ");
            push_str(&mut m, path.as_str());
            return Err(m);
        }
        let ghost before = hunk_views(hunks@);
        let hunk = Hunk { old_start, old_count, new_count, lines: body };
        hunks.push(hunk);
        assert(hunk_views(hunks@) =~= before.push(hunk@));
        k = next;
    }
}

/// A file header pair `--- a/…` and `+++ b/…` at line `c`, then the note's hunks: the two
/// paths must name the same note, and it must have a hunk.
pub open spec fn file_spec(lines: Seq<Seq<char>>, c: int) -> Result<(FilePatchView, int), Seq<char>> {
    let starts_with = |l: Seq<char>, p: Seq<char>| crate::parser::starts_with(l, p);
    if !(0 <= c < lines.len()) || !starts_with(lines[c], "--- "@) {
        Err("expected --- file header at patch line "@ + crate::text::decimal((c + 1) as nat))
    } else if c + 1 >= lines.len() || !starts_with(lines[c + 1], "+++ "@) {
        Err("expected +++ file header at patch line "@ + crate::text::decimal((c + 2) as nat))
    } else {
        match patch_path_spec(lines[c].skip(4), "a/"@) {
            Err(m) => Err(m),
            Ok(old) => match patch_path_spec(lines[c + 1].skip(4), "b/"@) {
                Err(m) => Err(m),
                Ok(new) => if old != new {
                    Err("patch cannot create, delete, or rename notes: "@ + old + " -> "@ + new)
                } else {
                    match hunks_spec(lines, c + 2, old, seq![]) {
                        Err(m) => Err(m),
                        Ok((hs, c2)) => if hs.len() == 0 {
                            Err("patch has no hunks for "@ + old)
                        } else {
                            Ok((FilePatchView { path: old, hunks: hs }, c2))
                        },
                    }
                },
            },
        }
    }
}

/// The text of a line, without its first `n` characters.
fn line_rest(line: &Vec<char>, n: usize) -> (r: String)
    requires
        n <= line.len(),
    ensures
        r@ == line@.skip(n as int),
{
    assert(line@.subrange(n as int, line@.len() as int) =~= line@.skip(n as int));
    crate::text::string_of(line, n, line.len())
}

/// Whether a line starts with the pattern.
fn line_starts(line: &Vec<char>, p: &Vec<char>) -> (b: bool)
    ensures
        b == crate::parser::starts_with(line@, p@),
{
    let b = crate::text::matches_at(line, p, 0);
    proof {
        if p@.len() <= line@.len() {
            assert(line@.subrange(0, p@.len() as int) =~= line@.take(p@.len() as int));
        }
    }
    b
}

/// Reads the patch of one note starting at line `c` (see `file_spec`).
fn read_file(lines: &Vec<Vec<char>>, c: usize) -> (r: Result<(FilePatch, usize), String>)
    requires
        c < lines.len(),
    ensures
        match file_spec(views(lines@), c as int) {
            Ok((f, c2)) => r matches Ok(t) && t.0@ == f && t.1 == c2 && c + 2 <= t.1 <= lines.len(),
            Err(m) => r matches Err(e) && e@ == m,
        },
        r matches Ok(t) ==> kinds_known(t.0@),
{
    proof {
        reveal_strlit("--- ");
        reveal_strlit("+++ ");
    }
    let ghost lv = views(lines@);
    assert(lv[c as int] == lines@[c as int]@);
    let minus = crate::text::pattern("--- ");
    let plus = crate::text::pattern("+++ ");
    if !line_starts(&lines[c], &minus) {
        let mut m = to_string("expected --- file header at patch line ");
        crate::text::push_decimal(&mut m, c as u128 + 1);
        return Err(m);
    }
    if c + 1 >= lines.len() || !line_starts(&lines[c + 1], &plus) {
        let mut m = to_string("expected +++ file header at patch line ");
        crate::text::push_decimal(&mut m, c as u128 + 2);
        return Err(m);
    }
    assert(lv[c + 1] == lines@[c + 1]@);
    let old_header = line_rest(&lines[c], 4);
    let new_header = line_rest(&lines[c + 1], 4);
    let old_path = patch_path(old_header.as_str(), "a/")?;
    let new_path = patch_path(new_header.as_str(), "b/")?;
    if !crate::text::str_eq(old_path.as_str(), new_path.as_str()) {
        let mut m = to_string("patch cannot create, delete, or rename notes: ");
        push_str(&mut m, old_path.as_str());
        push_str(&mut m, " -> ");
        push_str(&mut m, new_path.as_str());
        return Err(m);
    }
    let (hunks, next) = read_hunks(lines, c + 2, &old_path)?;
    if hunks.len() == 0 {
        let mut m = to_string("patch has no hunks for ");
        push_str(&mut m, old_path.as_str());
        return Err(m);
    }
    let file = FilePatch { path: old_path, hunks };
    assert forall|h: int, j: int|
        0 <= h < file@.hunks.len() && 0 <= j < file@.hunks[h].lines.len() implies {
            let k = (#[trigger] file@.hunks[h].lines[j]).kind;
            k == ' ' || k == '+' || k == '-'
        } by {
        assert(file@.hunks[h].lines[j] == file.hunks@[h].lines@[j]@);
    }
    Ok((file, next))
}

/// A line that may stand between the file patches: a `diff --git ` or `index ` line, or an
/// empty one.
pub open spec fn is_preamble(l: Seq<char>) -> bool {
    crate::parser::starts_with(l, "diff --git "@) || crate::parser::starts_with(l, "index "@)
        || l.len() == 0
}

/// The first line at or after `c` that is not preamble.
pub open spec fn skip_preamble(lines: Seq<Seq<char>>, c: int) -> int
    decreases lines.len() - c,
{
    if 0 <= c < lines.len() && is_preamble(lines[c]) {
        skip_preamble(lines, c + 1)
    } else {
        c
    }
}

/// The file patches from line `c` on, after those in `acc`; a patch must change at least one
/// note.
pub open spec fn files_spec(lines: Seq<Seq<char>>, c: int, acc: Seq<FilePatchView>) -> Result<
    Seq<FilePatchView>,
    Seq<char>,
>
    decreases lines.len() - c,
{
    let c1 = skip_preamble(lines, c);
    if c < 0 || c1 >= lines.len() {
        if acc.len() == 0 {
            Err("patch contains no Markdown file changes"@)
        } else {
            Ok(acc)
        }
    } else {
        match file_spec(lines, c1) {
            Err(m) => Err(m),
            Ok((f, c2)) => if c < c2 <= lines.len() {
                files_spec(lines, c2, acc.push(f))
            } else {
                Ok(acc)
            },
        }
    }
}

/// A unified patch (as `git diff` writes it) over notes: for each note, a `---`/`+++` header
/// pair naming the same `.md` path and at least one hunk (see `files_spec`).
pub open spec fn unified_patch_spec(patch: Seq<char>) -> Result<Seq<FilePatchView>, Seq<char>> {
    files_spec(crate::text::lines_spec(patch), 0, seq![])
}

/// The lines of a text (see `lines_spec`).
fn text_lines(cs: &Vec<char>) -> (r: Vec<Vec<char>>)
    ensures
        views(r@) == crate::text::lines_spec(cs@),
{
    let bounds = crate::text::line_bounds(cs);
    let mut r: Vec<Vec<char>> = Vec::new();
    let mut k: usize = 0;
    while k < bounds.len()
        invariant
            k <= bounds.len(),
            crate::text::ranges_in(cs@, bounds@),
            views(r@) == crate::text::ranges_view(cs@, bounds@).take(k as int),
        decreases bounds.len() - k,
    {
        let (a, b) = bounds[k];
        assert(bounds@[k as int].0 <= bounds@[k as int].1 <= cs.len());
        let ghost before = r@;
        r.push(crate::parser::chars_range(cs, a, b));
        assert(views(r@) =~= views(before).push(cs@.subrange(a as int, b as int)));
        assert(crate::text::ranges_view(cs@, bounds@).take(k + 1) =~= crate::text::ranges_view(cs@, bounds@).take(
            k as int,
        ).push(cs@.subrange(a as int, b as int)));
        k += 1;
    }
    assert(crate::text::ranges_view(cs@, bounds@).take(bounds.len() as int) =~= crate::text::ranges_view(
        cs@,
        bounds@,
    ));
    r
}

/// Parses a unified patch over notes into the patch of each note, in order (see
/// `unified_patch_spec`).
pub fn parse_unified_patch(patch: &str) -> (r: Result<Vec<FilePatch>, String>)
    ensures
        match unified_patch_spec(patch@) {
            Ok(fs) => r matches Ok(v) && file_views(v@) == fs,
            Err(m) => r matches Err(e) && e@ == m,
        },
        r matches Ok(v) ==> forall|i: int| 0 <= i < v@.len() ==> kinds_known(#[trigger] v@[i]@),
{
    let cs = chars_of(patch);
    let lines = text_lines(&cs);
    let ghost lv = views(lines@);
    let diff = crate::text::pattern("diff --git ");
    let index = crate::text::pattern("index ");
    let mut files: Vec<FilePatch> = Vec::new();
    let mut k: usize = 0;
    assert(file_views(files@) =~= Seq::<FilePatchView>::empty());
    loop
        invariant
            k <= lines.len(),
            lv == views(lines@),
            lv == crate::text::lines_spec(patch@),
            diff@ == "diff --git "@,
            index@ == "index "@,
            forall|i: int| 0 <= i < files@.len() ==> kinds_known(#[trigger] files@[i]@),
            unified_patch_spec(patch@) == files_spec(lv, k as int, file_views(files@)),
        decreases lines.len() - k,
    {
        let ghost start = k;
        while k < lines.len() && (line_starts(&lines[k], &diff) || line_starts(&lines[k], &index)
            || lines[k].len() == 0)
            invariant
                start <= k <= lines.len(),
                lv == views(lines@),
                diff@ == "diff --git "@,
                index@ == "index "@,
                skip_preamble(lv, start as int) == skip_preamble(lv, k as int),
            decreases lines.len() - k,
        {
            assert(lv[k as int] == lines@[k as int]@);
            k += 1;
        }
        proof {
            if k < lines.len() {
                assert(lv[k as int] == lines@[k as int]@);
            }
        }
        if k >= lines.len() {
            if files.len() == 0 {
                return Err(to_string("patch contains no Markdown file changes"));
            }
            return Ok(files);
        }
        let (file, next) = read_file(&lines, k)?;
        let ghost before = file_views(files@);
        files.push(file);
        assert(file_views(files@) =~= before.push(file@));
        k = next;
    }
}

/// The lines of a note as `str::split_inclusive('\n')` cuts them: each piece before a
/// newline, with `newline`, then the rest if it is not empty, without.
pub open spec fn split_lines_spec(s: Seq<char>) -> Seq<LineView> {
    let ps = crate::text::split_on(s, '\n');
    let m = ps.len() - 1;
    let head = Seq::new(m as nat, |k: int| LineView { text: ps[k], newline: true });
    if ps[m].len() == 0 {
        head
    } else {
        head.push(LineView { text: ps[m], newline: false })
    }
}

pub open spec fn line_views(v: Seq<PatchLine>) -> Seq<LineView> {
    v.map_values(|l: PatchLine| l@)
}

/// Cuts a note into its lines (see `split_lines_spec`).
pub fn split_lines(content: &str) -> (r: Vec<PatchLine>)
    ensures
        line_views(r@) == split_lines_spec(content@),
{
    let cs = chars_of(content);
    let rs = crate::text::split_ranges(&cs, 0, cs.len(), '\n');
    assert(cs@.subrange(0, cs.len() as int) =~= cs@);
    let ghost ps = crate::text::split_on(cs@, '\n');
    let m = rs.len() - 1;
    let ghost head = Seq::new(m as nat, |k: int| LineView { text: ps[k], newline: true });
    let mut r: Vec<PatchLine> = Vec::new();
    let mut k: usize = 0;
    while k < m
        invariant
            k <= m,
            m + 1 == rs.len(),
            crate::text::ranges_in(cs@, rs@),
            crate::text::ranges_view(cs@, rs@) =~~= ps,
            head == Seq::new(m as nat, |q: int| LineView { text: ps[q], newline: true }),
            line_views(r@) =~= head.take(k as int),
        decreases m - k,
    {
        let (a, b) = rs[k];
        assert(rs@[k as int].0 <= rs@[k as int].1 <= cs.len());
        assert(ps[k as int] =~= cs@.subrange(a as int, b as int));
        let ghost before = r@;
        r.push(PatchLine { text: crate::text::string_of(&cs, a, b), newline: true });
        assert(line_views(r@) =~= line_views(before).push(head[k as int]));
        assert(head.take(k + 1) =~= head.take(k as int).push(head[k as int]));
        k += 1;
    }
    assert(head.take(m as int) =~= head);
    let (a, b) = rs[m];
    assert(rs@[m as int].0 <= rs@[m as int].1 <= cs.len());
    assert(ps[m as int] =~= cs@.subrange(a as int, b as int));
    if a < b {
        let ghost before = r@;
        r.push(PatchLine { text: crate::text::string_of(&cs, a, b), newline: false });
        assert(line_views(r@) =~= line_views(before).push(LineView { text: ps[m as int], newline: false }));
    }
    assert(cs@ == content@);
    r
}

/// The number of lines of a hunk that are not removed (context and added lines).
pub open spec fn kept_count(lines: Seq<HunkLineView>) -> nat
    decreases lines.len(),
{
    if lines.len() == 0 {
        0
    } else {
        kept_count(lines.drop_last()) + if lines.last().kind != '-' {
            1nat
        } else {
            0nat
        }
    }
}

/// Every hunk line of the patch is a context, removed or added line.
pub open spec fn kinds_known(p: FilePatchView) -> bool {
    forall|h: int, j: int|
        0 <= h < p.hunks.len() && 0 <= j < p.hunks[h].lines.len() ==> {
            let k = (#[trigger] p.hunks[h].lines[j]).kind;
            k == ' ' || k == '+' || k == '-'
        }
}

/// The lines of one hunk from its `j`-th line, applied at note line `cursor` with `out`
/// written so far: context and removed lines must equal the note's lines (text and newline),
/// context lines are kept, added lines are written.
pub open spec fn hunk_apply(
    original: Seq<LineView>,
    path: Seq<char>,
    lines: Seq<HunkLineView>,
    j: int,
    cursor: int,
    out: Seq<LineView>,
) -> Result<(int, Seq<LineView>), Seq<char>>
    decreases lines.len() - j,
{
    if j < 0 || j >= lines.len() {
        Ok((cursor, out))
    } else {
        let l = lines[j];
        if l.kind == '+' {
            hunk_apply(original, path, lines, j + 1, cursor, out.push(l.line))
        } else if cursor < 0 || cursor >= original.len() {
            Err("patch context exceeds note: "@ + path)
        } else if original[cursor] != l.line {
            Err("patch context does not match note: "@ + path + " at line "@ + crate::text::decimal(
                (cursor + 1) as nat,
            ))
        } else {
            hunk_apply(
                original,
                path,
                lines,
                j + 1,
                cursor + 1,
                if l.kind == ' ' {
                    out.push(original[cursor])
                } else {
                    out
                },
            )
        }
    }
}

/// The hunks of a patch from the `h`-th on, applied to the note's lines from `cursor` with
/// `out` written so far. A hunk starts at its old start (one line earlier when it spans old
/// lines), not before the previous hunk's end nor past the note; the lines between hunks are
/// kept, and so are those after the last.
pub open spec fn apply_from(
    original: Seq<LineView>,
    path: Seq<char>,
    hunks: Seq<HunkView>,
    h: int,
    cursor: int,
    out: Seq<LineView>,
) -> Result<Seq<LineView>, Seq<char>>
    decreases hunks.len() - h,
{
    if h < 0 || h >= hunks.len() {
        Ok(out + original.subrange(cursor, original.len() as int))
    } else {
        let hk = hunks[h];
        if hk.old_count != 0 && hk.old_start == 0 {
            Err("invalid zero line in patch"@)
        } else {
            let start: int = if hk.old_count == 0 {
                hk.old_start as int
            } else {
                hk.old_start - 1
            };
            if start < cursor || start > original.len() {
                Err("overlapping or out-of-range hunk in "@ + path)
            } else {
                match hunk_apply(original, path, hk.lines, 0, start, out + original.subrange(cursor, start)) {
                    Err(m) => Err(m),
                    Ok((c2, out2)) => if kept_count(hk.lines) != hk.new_count {
                        Err("invalid new hunk count for "@ + path)
                    } else {
                        apply_from(original, path, hunks, h + 1, c2, out2)
                    },
                }
            }
        }
    }
}

/// The text of lines: each line's text, followed by a newline where it has one.
pub open spec fn render_lines(lines: Seq<LineView>) -> Seq<char>
    decreases lines.len(),
{
    if lines.len() == 0 {
        seq![]
    } else {
        render_lines(lines.drop_last()) + lines.last().text + if lines.last().newline {
            seq!['\n']
        } else {
            seq![]
        }
    }
}

/// A note's text after applying its patch.
pub open spec fn apply_spec(content: Seq<char>, p: FilePatchView) -> Result<Seq<char>, Seq<char>> {
    match apply_from(split_lines_spec(content), p.path, p.hunks, 0, 0, seq![]) {
        Ok(lines) => Ok(render_lines(lines)),
        Err(m) => Err(m),
    }
}

fn copy_line(l: &PatchLine) -> (r: PatchLine)
    ensures
        r@ == l@,
{
    PatchLine { text: to_string(l.text.as_str()), newline: l.newline }
}

/// Whether two lines are equal (text and newline).
fn same_line(a: &PatchLine, b: &PatchLine) -> (r: bool)
    ensures
        r == (a@ == b@),
{
    crate::text::str_eq(a.text.as_str(), b.text.as_str()) && a.newline == b.newline
}

/// Copies `lines[from..to]` onto the end of `out`.
fn copy_lines(out: &mut Vec<PatchLine>, lines: &Vec<PatchLine>, from: usize, to: usize)
    requires
        from <= to <= lines.len(),
    ensures
        line_views(final(out)@) == line_views(old(out)@) + line_views(lines@).subrange(from as int, to as int),
{
    let mut i = from;
    while i < to
        invariant
            from <= i <= to <= lines.len(),
            line_views(out@) == line_views(old(out)@) + line_views(lines@).subrange(from as int, i as int),
        decreases to - i,
    {
        let ghost before = out@;
        out.push(copy_line(&lines[i]));
        assert(line_views(out@) =~= line_views(before).push(lines@[i as int]@));
        assert(line_views(lines@).subrange(from as int, i + 1) =~= line_views(lines@).subrange(
            from as int,
            i as int,
        ).push(lines@[i as int]@));
        i += 1;
    }
}

/// Applies the lines of one hunk at note line `cursor` (see `hunk_apply`), and counts the
/// lines that are not removed.
fn apply_hunk_lines(
    original: &Vec<PatchLine>,
    path: &String,
    hunk: &Hunk,
    cursor: usize,
    out: &mut Vec<PatchLine>,
) -> (r: Result<(usize, usize), String>)
    requires
        cursor <= original.len(),
        forall|j: int|
            0 <= j < hunk.lines.len() ==> {
                let k = (#[trigger] hunk.lines@[j]).kind;
                k == ' ' || k == '+' || k == '-'
            },
    ensures
        match hunk_apply(line_views(original@), path@, hunk_line_views(hunk.lines@), 0, cursor as int, line_views(old(out)@)) {
            Ok((c2, o)) => r matches Ok(t) && t.0 == c2 && line_views(final(out)@) == o && t.1 == kept_count(
                hunk_line_views(hunk.lines@),
            ) && cursor <= t.0 <= original.len(),
            Err(m) => r matches Err(e) && e@ == m,
        },
{
    let ghost ov = line_views(original@);
    let ghost hl = hunk_line_views(hunk.lines@);
    let mut c = cursor;
    let mut kept: usize = 0;
    let mut j: usize = 0;
    while j < hunk.lines.len()
        invariant
            j <= hunk.lines.len(),
            cursor <= c <= original.len(),
            kept <= j,
            ov == line_views(original@),
            hl == hunk_line_views(hunk.lines@),
            kept == kept_count(hl.take(j as int)),
            forall|q: int|
                0 <= q < hunk.lines.len() ==> {
                    let k = (#[trigger] hunk.lines@[q]).kind;
                    k == ' ' || k == '+' || k == '-'
                },
            hunk_apply(ov, path@, hl, 0, cursor as int, line_views(old(out)@)) == hunk_apply(
                ov,
                path@,
                hl,
                j as int,
                c as int,
                line_views(out@),
            ),
        decreases hunk.lines.len() - j,
    {
        let line = &hunk.lines[j];
        assert(hl[j as int] == line@);
        assert(hl.take(j + 1).drop_last() =~= hl.take(j as int));
        let ghost before = out@;
        if line.kind == '+' {
            out.push(copy_line(&line.line));
            assert(line_views(out@) =~= line_views(before).push(line.line@));
        } else {
            if c >= original.len() {
                let mut m = to_string("patch context exceeds note: ");
                push_str(&mut m, path.as_str());
                return Err(m);
            }
            assert(ov[c as int] == original@[c as int]@);
            if !same_line(&original[c], &line.line) {
                let mut m = to_string("patch context does not match note: ");
                push_str(&mut m, path.as_str());
                push_str(&mut m, " at line ");
                crate::text::push_decimal(&mut m, c as u128 + 1);
                return Err(m);
            }
            if line.kind == ' ' {
                out.push(copy_line(&original[c]));
                assert(line_views(out@) =~= line_views(before).push(ov[c as int]));
            }
            c += 1;
        }
        if line.kind != '-' {
            kept += 1;
        }
        j += 1;
    }
    assert(hl.take(hunk.lines.len() as int) =~= hl);
    Ok((c, kept))
}

/// Renders lines as text (see `render_lines`).
fn render(lines: &Vec<PatchLine>) -> (r: String)
    ensures
        r@ == render_lines(line_views(lines@)),
{
    let mut r = String::new();
    let mut i: usize = 0;
    while i < lines.len()
        invariant
            i <= lines.len(),
            r@ == render_lines(line_views(lines@).take(i as int)),
        decreases lines.len() - i,
    {
        assert(line_views(lines@).take(i + 1).drop_last() =~= line_views(lines@).take(i as int));
        push_str(&mut r, lines[i].text.as_str());
        if lines[i].newline {
            crate::text::push_char(&mut r, '\n');
        }
        i += 1;
    }
    assert(line_views(lines@).take(lines.len() as int) =~= line_views(lines@));
    r
}

/// Applies a note's patch to its text (see `apply_spec`).
pub fn apply_file_patch(content: &str, patch: &FilePatch) -> (r: Result<String, String>)
    requires
        kinds_known(patch@),
    ensures
        match apply_spec(content@, patch@) {
            Ok(t) => r matches Ok(s) && s@ == t,
            Err(m) => r matches Err(e) && e@ == m,
        },
{
    let original = split_lines(content);
    let ghost ov = line_views(original@);
    let ghost hv = hunk_views(patch.hunks@);
    let mut out: Vec<PatchLine> = Vec::new();
    let mut cursor: usize = 0;
    let mut h: usize = 0;
    assert(line_views(out@) =~= Seq::<LineView>::empty());
    while h < patch.hunks.len()
        invariant
            h <= patch.hunks.len(),
            cursor <= original.len(),
            ov == line_views(original@),
            ov == split_lines_spec(content@),
            hv == hunk_views(patch.hunks@),
            kinds_known(patch@),
            apply_from(ov, patch.path@, hv, 0, 0, seq![]) == apply_from(
                ov,
                patch.path@,
                hv,
                h as int,
                cursor as int,
                line_views(out@),
            ),
        decreases patch.hunks.len() - h,
    {
        let hunk = &patch.hunks[h];
        assert(hv[h as int] == hunk@);
        if hunk.old_count != 0 && hunk.old_start == 0 {
            return Err(to_string("invalid zero line in patch"));
        }
        let start = if hunk.old_count == 0 {
            hunk.old_start
        } else {
            hunk.old_start - 1
        };
        if start < cursor || start > original.len() {
            let mut m = to_string("overlapping or out-of-range hunk in ");
            push_str(&mut m, patch.path.as_str());
            return Err(m);
        }
        let ghost before = line_views(out@);
        copy_lines(&mut out, &original, cursor, start);
        proof {
            assert forall|j: int| 0 <= j < hunk.lines.len() implies {
                let k = (#[trigger] hunk.lines@[j]).kind;
                k == ' ' || k == '+' || k == '-'
            } by {
                assert(hv[h as int].lines[j] == hunk.lines@[j]@);
            }
        }
        let (next, kept) = apply_hunk_lines(&original, &patch.path, hunk, start, &mut out)?;
        if kept != hunk.new_count {
            let mut m = to_string("invalid new hunk count for ");
            push_str(&mut m, patch.path.as_str());
            return Err(m);
        }
        cursor = next;
        h += 1;
    }
    let ghost before = line_views(out@);
    copy_lines(&mut out, &original, cursor, original.len());
    Ok(render(&out))
}

proof fn lemma_render_head(ps: Seq<Seq<char>>, head: Seq<LineView>, k: int)
    requires
        1 <= k <= head.len(),
        head.len() < ps.len(),
        forall|q: int| 0 <= q < head.len() ==> #[trigger] head[q] == (LineView { text: ps[q], newline: true }),
    ensures
        render_lines(head.take(k)) == crate::text::join_with(ps.take(k), seq!['\n']) + seq!['\n'],
    decreases k,
{
    let t = head.take(k);
    assert(t.drop_last() =~= head.take(k - 1));
    assert(t.last() == head[k - 1]);
    if k == 1 {
        assert(head.take(0) =~= Seq::<LineView>::empty());
        assert(render_lines(Seq::<LineView>::empty()) == Seq::<char>::empty());
        assert(render_lines(t.drop_last()) == Seq::<char>::empty());
        assert(ps.take(1) =~= seq![ps[0]]);
        assert(render_lines(t) =~= ps[0] + seq!['\n']);
    } else {
        lemma_render_head(ps, head, k - 1);
        assert(ps.take(k).drop_last() =~= ps.take(k - 1));
        assert(ps.take(k).last() == ps[k - 1]);
        assert(crate::text::join_with(ps.take(k), seq!['\n']) == crate::text::join_with(ps.take(k - 1), seq!['\n'])
            + seq!['\n'] + ps[k - 1]);
        assert(render_lines(t) =~= crate::text::join_with(ps.take(k), seq!['\n']) + seq!['\n']);
    }
}

/// Cutting a note into its lines and writing them back gives the note unchanged.
pub proof fn lemma_split_lines_render(s: Seq<char>)
    ensures
        render_lines(split_lines_spec(s)) == s,
{
    let ps = crate::text::split_on(s, '\n');
    crate::text::lemma_join_split(s, '\n');
    crate::text::lemma_split_len(s, '\n');
    let m = ps.len() - 1;
    let head = Seq::new(m as nat, |k: int| LineView { text: ps[k], newline: true });
    let sep = seq!['\n'];
    if m >= 1 {
        lemma_render_head(ps, head, m);
        assert(head.take(m) =~= head);
        assert(ps.take(m) =~= ps.drop_last());
        assert(crate::text::join_with(ps, sep) == crate::text::join_with(ps.drop_last(), sep) + sep + ps[m]);
        if ps[m].len() == 0 {
            assert(render_lines(head) + ps[m] =~= render_lines(head));
        } else {
            let all = head.push(LineView { text: ps[m], newline: false });
            assert(all.drop_last() =~= head);
            assert(render_lines(all) =~= render_lines(head) + ps[m]);
        }
    } else {
        assert(head =~= Seq::<LineView>::empty());
        if ps[m].len() > 0 {
            let all = head.push(LineView { text: ps[m], newline: false });
            assert(all.drop_last() =~= head);
            assert(render_lines(Seq::<LineView>::empty()) == Seq::<char>::empty());
            assert(render_lines(all.drop_last()) == Seq::<char>::empty());
            assert(render_lines(all) =~= ps[m]);
        }
    }
}

/// A patch without hunks leaves the note's text as it is.
pub proof fn lemma_apply_no_hunks(content: Seq<char>, path: Seq<char>)
    ensures
        apply_spec(content, FilePatchView { path, hunks: seq![] }) == Ok::<Seq<char>, Seq<char>>(content),
{
    let lines = split_lines_spec(content);
    assert(Seq::<LineView>::empty() + lines.subrange(0, lines.len() as int) =~= lines);
    lemma_split_lines_render(content);
}

/// Every hunk line of the patch is a context line.
pub open spec fn context_only(p: FilePatchView) -> bool {
    forall|h: int, j: int|
        0 <= h < p.hunks.len() && 0 <= j < p.hunks[h].lines.len() ==> (#[trigger] p.hunks[h].lines[j]).kind == ' '
}

proof fn lemma_context_hunk(
    original: Seq<LineView>,
    path: Seq<char>,
    lines: Seq<HunkLineView>,
    j: int,
    cursor: int,
    out: Seq<LineView>,
)
    requires
        0 <= cursor <= original.len(),
        out == original.take(cursor),
        forall|i: int| 0 <= i < lines.len() ==> (#[trigger] lines[i]).kind == ' ',
    ensures
        hunk_apply(original, path, lines, j, cursor, out) matches Ok((c2, o2)) ==> 0 <= c2 <= original.len() && o2
            == original.take(c2),
    decreases lines.len() - j,
{
    if 0 <= j < lines.len() {
        let l = lines[j];
        if 0 <= cursor < original.len() && original[cursor] == l.line {
            assert(out.push(original[cursor]) =~= original.take(cursor + 1));
            lemma_context_hunk(original, path, lines, j + 1, cursor + 1, out.push(original[cursor]));
        }
    }
}

proof fn lemma_context_apply(
    original: Seq<LineView>,
    path: Seq<char>,
    hunks: Seq<HunkView>,
    h: int,
    cursor: int,
    out: Seq<LineView>,
)
    requires
        0 <= h,
        0 <= cursor <= original.len(),
        out == original.take(cursor),
        context_only(FilePatchView { path, hunks }),
    ensures
        apply_from(original, path, hunks, h, cursor, out) matches Ok(o) ==> o == original,
    decreases hunks.len() - h,
{
    if h >= hunks.len() {
        assert(out + original.subrange(cursor, original.len() as int) =~= original);
    } else {
        let hk = hunks[h];
        if !(hk.old_count != 0 && hk.old_start == 0) {
            let start: int = if hk.old_count == 0 {
                hk.old_start as int
            } else {
                hk.old_start - 1
            };
            if !(start < cursor || start > original.len()) {
                let o1 = out + original.subrange(cursor, start);
                assert(o1 =~= original.take(start));
                assert forall|i: int| 0 <= i < hk.lines.len() implies (#[trigger] hk.lines[i]).kind == ' ' by {
                    assert(FilePatchView { path, hunks }.hunks[h].lines[i].kind == ' ');
                }
                lemma_context_hunk(original, path, hk.lines, 0, start, o1);
                if let Ok((c2, o2)) = hunk_apply(original, path, hk.lines, 0, start, o1) {
                    lemma_context_apply(original, path, hunks, h + 1, c2, o2);
                }
            }
        }
    }
}

/// A patch whose hunks hold only context lines leaves the note as it is, whenever it applies:
/// every line of the note is kept, in order, and nothing is added.
pub proof fn context_patch_keeps_note(content: Seq<char>, p: FilePatchView)
    requires
        context_only(p),
    ensures
        apply_spec(content, p) matches Ok(t) ==> t == content,
{
    let lines = split_lines_spec(content);
    assert(Seq::<LineView>::empty() =~= lines.take(0));
    lemma_context_apply(lines, p.path, p.hunks, 0, 0, Seq::<LineView>::empty());
    lemma_split_lines_render(content);
}

proof fn lemma_hunk_prefix(
    original: Seq<LineView>,
    path: Seq<char>,
    lines: Seq<HunkLineView>,
    j: int,
    cursor: int,
    out: Seq<LineView>,
)
    ensures
        hunk_apply(original, path, lines, j, cursor, out) matches Ok((c2, o2)) ==> o2.len() >= out.len() && o2.take(
            out.len() as int,
        ) == out,
    decreases lines.len() - j,
{
    if 0 <= j < lines.len() {
        let l = lines[j];
        if l.kind == '+' {
            lemma_hunk_prefix(original, path, lines, j + 1, cursor, out.push(l.line));
            if let Ok((c2, o2)) = hunk_apply(original, path, lines, j + 1, cursor, out.push(l.line)) {
                assert(o2.take(out.len() as int) =~= out.push(l.line).take(out.len() as int));
                assert(out.push(l.line).take(out.len() as int) =~= out);
            }
        } else if 0 <= cursor < original.len() && original[cursor] == l.line {
            let next = if l.kind == ' ' {
                out.push(original[cursor])
            } else {
                out
            };
            lemma_hunk_prefix(original, path, lines, j + 1, cursor + 1, next);
            if let Ok((c2, o2)) = hunk_apply(original, path, lines, j + 1, cursor + 1, next) {
                assert(o2.take(out.len() as int) =~= next.take(out.len() as int));
                assert(next.take(out.len() as int) =~= out);
            }
        }
    } else {
        assert(out.take(out.len() as int) =~= out);
    }
}

proof fn lemma_apply_prefix(
    original: Seq<LineView>,
    path: Seq<char>,
    hunks: Seq<HunkView>,
    h: int,
    cursor: int,
    out: Seq<LineView>,
)
    ensures
        apply_from(original, path, hunks, h, cursor, out) matches Ok(o) ==> o.len() >= out.len() && o.take(
            out.len() as int,
        ) == out,
    decreases hunks.len() - h,
{
    if h < 0 || h >= hunks.len() {
        assert((out + original.subrange(cursor, original.len() as int)).take(out.len() as int) =~= out);
    } else {
        let hk = hunks[h];
        if !(hk.old_count != 0 && hk.old_start == 0) {
            let start: int = if hk.old_count == 0 {
                hk.old_start as int
            } else {
                hk.old_start - 1
            };
            if !(start < cursor || start > original.len()) {
                let o1 = out + original.subrange(cursor, start);
                lemma_hunk_prefix(original, path, hk.lines, 0, start, o1);
                if let Ok((c2, o2)) = hunk_apply(original, path, hk.lines, 0, start, o1) {
                    lemma_apply_prefix(original, path, hunks, h + 1, c2, o2);
                    if let Ok(o) = apply_from(original, path, hunks, h + 1, c2, o2) {
                        assert(o.take(out.len() as int) =~= o2.take(o1.len() as int).take(out.len() as int));
                        assert(o1.take(out.len() as int) =~= out);
                    }
                }
            }
        }
    }
}

/// The line where a hunk starts replacing the note (zero-based): its old start, one line
/// earlier when it spans old lines.
pub open spec fn hunk_first_line(hk: HunkView) -> int {
    if hk.old_count == 0 {
        hk.old_start as int
    } else {
        hk.old_start - 1
    }
}

proof fn lemma_render_concat(a: Seq<LineView>, b: Seq<LineView>)
    ensures
        render_lines(a + b) == render_lines(a) + render_lines(b),
    decreases b.len(),
{
    if b.len() == 0 {
        assert(a + b =~= a);
        assert(render_lines(a) + render_lines(b) =~= render_lines(a));
    } else {
        lemma_render_concat(a, b.drop_last());
        assert((a + b).drop_last() =~= a + b.drop_last());
        assert((a + b).last() == b.last());
    }
}

/// The lines of the note before the first hunk are kept verbatim: when a patch applies, the
/// note's text up to the first hunk's first line starts the result too.
pub proof fn patch_keeps_lines_before_first_hunk(content: Seq<char>, p: FilePatchView)
    ensures
        apply_spec(content, p) matches Ok(t) ==> (p.hunks.len() > 0 ==> {
            let before = render_lines(split_lines_spec(content).take(hunk_first_line(p.hunks[0])));
            &&& content.take(before.len() as int) == before
            &&& t.len() >= before.len()
            &&& t.take(before.len() as int) == before
        }),
{
    let lines = split_lines_spec(content);
    lemma_apply_prefix(lines, p.path, p.hunks, 0, 0, Seq::<LineView>::empty());
    if p.hunks.len() > 0 {
        if let Ok(o) = apply_from(lines, p.path, p.hunks, 0, 0, seq![]) {
            let hk = p.hunks[0];
            let s = hunk_first_line(hk);
            let o1 = Seq::<LineView>::empty() + lines.subrange(0, s);
            assert(o1 =~= lines.take(s));
            lemma_hunk_prefix(lines, p.path, hk.lines, 0, s, o1);
            let (c2, o2) = hunk_apply(lines, p.path, hk.lines, 0, s, o1)->Ok_0;
            lemma_apply_prefix(lines, p.path, p.hunks, 1, c2, o2);
            assert(o.take(s) =~= o2.take(s));
            assert(o2.take(s) =~= o1);
            assert(o =~= lines.take(s) + o.skip(s));
            lemma_render_concat(lines.take(s), o.skip(s));
            assert(lines =~= lines.take(s) + lines.skip(s));
            lemma_render_concat(lines.take(s), lines.skip(s));
            lemma_split_lines_render(content);
            let before = render_lines(lines.take(s));
            assert(content.take(before.len() as int) =~= before);
        }
    }
}

/// The number of lines of a hunk from its `j`-th on that stand for note lines (context and
/// removed lines).
pub open spec fn old_lines_from(lines: Seq<HunkLineView>, j: int) -> int
    decreases lines.len() - j,
{
    if j < 0 || j >= lines.len() {
        0
    } else {
        (if lines[j].kind != '+' {
            1int
        } else {
            0int
        }) + old_lines_from(lines, j + 1)
    }
}

/// The number of lines of a hunk from its `j`-th on that the result holds (context and added
/// lines).
pub open spec fn new_lines_from(lines: Seq<HunkLineView>, j: int) -> int
    decreases lines.len() - j,
{
    if j < 0 || j >= lines.len() {
        0
    } else {
        (if lines[j].kind == ' ' || lines[j].kind == '+' {
            1int
        } else {
            0int
        }) + new_lines_from(lines, j + 1)
    }
}

/// The lines the hunks from the `h`-th on add, less those they remove.
pub open spec fn line_change_from(hunks: Seq<HunkView>, h: int) -> int
    decreases hunks.len() - h,
{
    if h < 0 || h >= hunks.len() {
        0
    } else {
        new_lines_from(hunks[h].lines, 0) - old_lines_from(hunks[h].lines, 0) + line_change_from(hunks, h + 1)
    }
}

proof fn lemma_hunk_balance(
    original: Seq<LineView>,
    path: Seq<char>,
    lines: Seq<HunkLineView>,
    j: int,
    cursor: int,
    out: Seq<LineView>,
)
    requires
        0 <= j,
    ensures
        hunk_apply(original, path, lines, j, cursor, out) matches Ok((c2, o2)) ==> c2 == cursor + old_lines_from(
            lines,
            j,
        ) && o2.len() == out.len() + new_lines_from(lines, j),
    decreases lines.len() - j,
{
    if j < lines.len() {
        let l = lines[j];
        if l.kind == '+' {
            lemma_hunk_balance(original, path, lines, j + 1, cursor, out.push(l.line));
        } else if 0 <= cursor < original.len() && original[cursor] == l.line {
            let next = if l.kind == ' ' {
                out.push(original[cursor])
            } else {
                out
            };
            lemma_hunk_balance(original, path, lines, j + 1, cursor + 1, next);
        }
    }
}

proof fn lemma_apply_balance(
    original: Seq<LineView>,
    path: Seq<char>,
    hunks: Seq<HunkView>,
    h: int,
    cursor: int,
    out: Seq<LineView>,
)
    requires
        0 <= h,
        0 <= cursor <= original.len(),
    ensures
        apply_from(original, path, hunks, h, cursor, out) matches Ok(o) ==> o.len() == out.len() + (original.len()
            - cursor) + line_change_from(hunks, h),
    decreases hunks.len() - h,
{
    if h < hunks.len() {
        let hk = hunks[h];
        if !(hk.old_count != 0 && hk.old_start == 0) {
            let start: int = if hk.old_count == 0 {
                hk.old_start as int
            } else {
                hk.old_start - 1
            };
            if !(start < cursor || start > original.len()) {
                let o1 = out + original.subrange(cursor, start);
                lemma_hunk_balance(original, path, hk.lines, 0, start, o1);
                if let Ok((c2, o2)) = hunk_apply(original, path, hk.lines, 0, start, o1) {
                    if kept_count(hk.lines) == hk.new_count {
                        lemma_hunk_range(original, path, hk.lines, 0, start, o1);
                        lemma_apply_balance(original, path, hunks, h + 1, c2, o2);
                    }
                }
            }
        }
    }
}

proof fn lemma_hunk_range(
    original: Seq<LineView>,
    path: Seq<char>,
    lines: Seq<HunkLineView>,
    j: int,
    cursor: int,
    out: Seq<LineView>,
)
    requires
        0 <= cursor <= original.len(),
    ensures
        hunk_apply(original, path, lines, j, cursor, out) matches Ok((c2, o2)) ==> cursor <= c2 <= original.len(),
    decreases lines.len() - j,
{
    if 0 <= j < lines.len() {
        let l = lines[j];
        if l.kind == '+' {
            lemma_hunk_range(original, path, lines, j + 1, cursor, out.push(l.line));
        } else if 0 <= cursor < original.len() && original[cursor] == l.line {
            let next = if l.kind == ' ' {
                out.push(original[cursor])
            } else {
                out
            };
            lemma_hunk_range(original, path, lines, j + 1, cursor + 1, next);
        }
    }
}

/// Applying a patch changes the number of lines by exactly what its hunks add less what they
/// remove: every other line of the note is kept once, and nothing else is written.
pub proof fn patch_line_balance(content: Seq<char>, p: FilePatchView)
    ensures
        apply_from(split_lines_spec(content), p.path, p.hunks, 0, 0, seq![]) matches Ok(o) ==> o.len()
            == split_lines_spec(content).len() + line_change_from(p.hunks, 0),
{
    lemma_apply_balance(split_lines_spec(content), p.path, p.hunks, 0, 0, seq![]);
}

} // verus!
