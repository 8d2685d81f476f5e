//! Editing one field of a document's YAML frontmatter in place: finding the field's line,
//! its key and the extent of its value (quoted or plain, before any comment), and writing the
//! new value with the old quoting and comment kept.
use vstd::prelude::*;

use crate::blueprint::evidence::replace_all;
use crate::parser::starts_with;
use crate::text::{byte_len, chars_of, is_ws, push_range, push_str, string_of, to_string, trim, trim_end};

verus! {

/// Scanning a YAML line from position `i`, inside the quote `quote` (if any) and after an
/// escaping backslash (if `escaped`): the position of the first `:` outside quotes.
pub open spec fn colon_from(l: Seq<char>, i: int, quote: Option<char>, escaped: bool) -> Option<int>
    decreases l.len() - i,
{
    if i < 0 || i >= l.len() {
        None
    } else {
        let c = l[i];
        match quote {
            Some(q) => if q == '"' && c == '\\' && !escaped {
                colon_from(l, i + 1, quote, true)
            } else {
                colon_from(
                    l,
                    i + 1,
                    if c == q && !escaped {
                        None
                    } else {
                        quote
                    },
                    false,
                )
            },
            None => if c == '\'' || c == '"' {
                colon_from(l, i + 1, Some(c), escaped)
            } else if c == ':' {
                Some(i)
            } else {
                colon_from(l, i + 1, None, escaped)
            },
        }
    }
}

/// The character position of a YAML line's mapping colon (see `colon_from`).
fn mapping_colon(l: &Vec<char>) -> (r: Option<usize>)
    ensures
        r matches Some(k) ==> colon_from(l@, 0, None, false) == Some(k as int) && k < l@.len(),
        r is None ==> colon_from(l@, 0, None, false) is None,
{
    let mut quote: Option<char> = None;
    let mut escaped = false;
    let mut i: usize = 0;
    while i < l.len()
        invariant
            i <= l.len(),
            colon_from(l@, 0, None, false) == colon_from(l@, i as int, quote, escaped),
        decreases l.len() - i,
    {
        let c = l[i];
        match quote {
            Some(q) => {
                if q == '"' && c == '\\' && !escaped {
                    escaped = true;
                } else {
                    if c == q && !escaped {
                        quote = None;
                    }
                    escaped = false;
                }
            },
            None => {
                if c == '\'' || c == '"' {
                    quote = Some(c);
                } else if c == ':' {
                    return Some(i);
                }
            },
        }
        i += 1;
    }
    None
}

/// The byte offset of a YAML line's mapping colon: the first `:` outside single or double
/// quotes (a backslash escapes inside double quotes).
pub fn yaml_mapping_colon(line: &str) -> (r: Option<usize>)
    ensures
        match colon_from(line@, 0, None, false) {
            Some(k) => r == Some(byte_len(line@.take(k)) as usize),
            None => r is None,
        },
{
    let cs = chars_of(line);
    match mapping_colon(&cs) {
        None => None,
        Some(k) => Some(crate::blueprint::edit::byte_offset(line, &cs, k)),
    }
}

/// A YAML key: the trimmed text, without one pair of surrounding double or single quotes;
/// `None` when it is empty.
pub open spec fn yaml_key_spec(key: Seq<char>) -> Option<Seq<char>> {
    let k = trim(key);
    if k.len() >= 2 && k[0] == '"' && k.last() == '"' {
        Some(k.subrange(1, k.len() - 1))
    } else if k.len() >= 2 && k[0] == '\'' && k.last() == '\'' {
        Some(k.subrange(1, k.len() - 1))
    } else if k.len() > 0 {
        Some(k)
    } else {
        None
    }
}

/// The key of a YAML mapping line's part before its colon (see `yaml_key_spec`).
pub fn yaml_key(key: &str) -> (r: Option<String>)
    ensures
        match yaml_key_spec(key@) {
            Some(k) => r matches Some(x) && x@ == k,
            None => r is None,
        },
{
    let cs = chars_of(key);
    let (p, q) = crate::text::trim_bounds(&cs, 0, cs.len());
    assert(cs@.subrange(0, cs@.len() as int) =~= cs@);
    let n = q - p;
    if n >= 2 && ((cs[p] == '"' && cs[q - 1] == '"') || (cs[p] == '\'' && cs[q - 1] == '\'')) {
        let r = string_of(&cs, p + 1, q - 1);
        assert(cs@.subrange(p + 1, q - 1) =~= trim(key@).subrange(1, trim(key@).len() - 1));
        return Some(r);
    }
    if n > 0 {
        return Some(string_of(&cs, p, q));
    }
    None
}

/// The first position of a plain YAML value that starts a comment: a `#` at the start or
/// after whitespace; else the value's length.
pub open spec fn comment_start(v: Seq<char>, i: int) -> int
    decreases v.len() - i,
{
    if i < 0 || i >= v.len() {
        v.len() as int
    } else if v[i] == '#' && (i == 0 || is_ws(v[i - 1])) {
        i
    } else {
        comment_start(v, i + 1)
    }
}

/// Scanning a quoted value from position `i` for its closing quote (a backslash escapes
/// inside double quotes): the position just past it.
pub open spec fn closing_quote(v: Seq<char>, i: int, quote: char, escaped: bool) -> Option<int>
    decreases v.len() - i,
{
    if i < 0 || i >= v.len() {
        None
    } else if quote == '"' && v[i] == '\\' && !escaped {
        closing_quote(v, i + 1, quote, true)
    } else if v[i] == quote && !escaped {
        Some(i + 1)
    } else {
        closing_quote(v, i + 1, quote, false)
    }
}

/// The extent of a YAML value, in characters, and its quote: a quoted value runs to its
/// closing quote (or the end); a plain value runs to its comment, without trailing
/// whitespace.
pub open spec fn value_extent(v: Seq<char>) -> (int, Option<char>) {
    if v.len() > 0 && (v[0] == '\'' || v[0] == '"') {
        match closing_quote(v, 1, v[0], false) {
            Some(e) => (e, Some(v[0])),
            None => (v.len() as int, Some(v[0])),
        }
    } else {
        (trim_end(v.take(comment_start(v, 0))).len() as int, None)
    }
}

/// The extent of a YAML value (see `value_extent`), in characters.
fn value_extent_of(v: &Vec<char>) -> (r: (usize, Option<char>))
    ensures
        r.0 == value_extent(v@).0,
        r.1 == value_extent(v@).1,
        r.0 <= v@.len(),
{
    let n = v.len();
    if n > 0 && (v[0] == '\'' || v[0] == '"') {
        let quote = v[0];
        let mut escaped = false;
        let mut i: usize = 1;
        while i < n
            invariant
                1 <= i <= n,
                n == v@.len(),
                quote == v@[0],
                quote == '\'' || quote == '"',
                closing_quote(v@, 1, quote, false) == closing_quote(v@, i as int, quote, escaped),
            decreases n - i,
        {
            let c = v[i];
            if quote == '"' && c == '\\' && !escaped {
                escaped = true;
            } else if c == quote && !escaped {
                return (i + 1, Some(quote));
            } else {
                escaped = false;
            }
            i += 1;
        }
        return (n, Some(quote));
    }
    let mut i: usize = 0;
    while i < n && !(v[i] == '#' && (i == 0 || crate::text::is_whitespace(v[i - 1])))
        invariant
            i <= n,
            n == v@.len(),
            comment_start(v@, 0) == comment_start(v@, i as int),
        decreases n - i,
    {
        i += 1;
    }
    let e = crate::text::skip_ws_back(v, 0, i);
    assert(v@.subrange(0, i as int) =~= v@.take(i as int));
    assert(v@.subrange(0, e as int) =~= trim_end(v@.take(i as int)));
    (e, None)
}

/// The byte length of a YAML value (see `value_extent`) and its quote.
pub fn yaml_value_length(value: &str) -> (r: (usize, Option<char>))
    ensures
        r.0 == byte_len(value@.take(value_extent(value@).0)),
        r.1 == value_extent(value@).1,
{
    let cs = chars_of(value);
    let (e, q) = value_extent_of(&cs);
    (crate::blueprint::edit::byte_offset(value, &cs, e), q)
}

/// A value written inside the quote: in double quotes, backslashes and double quotes are
/// escaped with a backslash; in single quotes, a single quote is doubled.
pub open spec fn escape_spec(value: Seq<char>, quote: char) -> Seq<char> {
    if quote == '"' {
        replace_all(replace_all(value, "\\"@, "\\\\"@), "\""@, "\\\""@)
    } else if quote == '\'' {
        replace_all(value, "'"@, "''"@)
    } else {
        value
    }
}

/// Escapes a value for the quote (see `escape_spec`).
pub fn escape_yaml_string(value: &str, quote: char) -> (r: String)
    ensures
        r@ == escape_spec(value@, quote),
{
    proof {
        reveal_strlit("\\");
        reveal_strlit("\"");
        reveal_strlit("'");
    }
    let cs = chars_of(value);
    let out = if quote == '"' {
        let backslash = crate::text::pattern("\\");
        let doubled = crate::text::pattern("\\\\");
        let dq = crate::text::pattern("\"");
        let escaped_dq = crate::text::pattern("\\\"");
        let once = crate::blueprint::evidence::replace(&cs, &backslash, &doubled);
        crate::blueprint::evidence::replace(&once, &dq, &escaped_dq)
    } else if quote == '\'' {
        let sq = crate::text::pattern("'");
        let two = crate::text::pattern("''");
        crate::blueprint::evidence::replace(&cs, &sq, &two)
    } else {
        cs
    };
    let r = string_of(&out, 0, out.len());
    assert(out@.subrange(0, out@.len() as int) =~= out@);
    r
}

/// The first line of a frontmatter text, from position `pos`, that maps the field: where its
/// value starts and ends (in characters), its quote, and the whitespace that separates it
/// from a comment that follows directly.
pub open spec fn field_in_lines(fm: Seq<char>, pos: int, field: Seq<char>) -> Option<(int, int, Option<char>, Seq<char>)>
    decreases fm.len() - pos,
{
    if pos < 0 || pos >= fm.len() {
        None
    } else {
        let e = crate::blueprint::edit::eol(fm, pos);
        let pe = if e < fm.len() {
            e + 1
        } else {
            fm.len() as int
        };
        let content = fm.subrange(pos, e);
        let next = if pos < pe {
            field_in_lines(fm, pe, field)
        } else {
            None
        };
        match colon_from(content, 0, None, false) {
            None => next,
            Some(c) => if yaml_key_spec(content.take(c)) == Some(field) {
                let value = content.skip(c + 1);
                let lw = crate::text::lead_ws(value) as int;
                let sep = if lw > 0 && lw < value.len() && value[lw] == '#' {
                    value.take(lw)
                } else {
                    seq![]
                };
                let start = pos + c + 1 + lw;
                let (len, quote) = value_extent(value.skip(lw));
                Some((start, start + len, quote, sep))
            } else {
                next
            },
        }
    }
}

/// Where the field's value lies in a frontmatter text (see `field_in_lines`), in characters.
fn field_value_chars(fm: &Vec<char>, field: &str) -> (r: Option<(usize, usize, Option<char>, String)>)
    ensures
        match field_in_lines(fm@, 0, field@) {
            Some((a, b, q, sep)) => r matches Some(t) && t.0 == a && t.1 == b && t.2 == q && t.3@ == sep
                && 0 <= a <= b <= fm@.len(),
            None => r is None,
        },
{
    let n = fm.len();
    let mut pos: usize = 0;
    while pos < n
        invariant
            pos <= n,
            n == fm@.len(),
            field_in_lines(fm@, 0, field@) == field_in_lines(fm@, pos as int, field@),
        decreases n - pos,
    {
        let e = crate::blueprint::edit::line_end_of(fm, pos);
        let pe = if e < n {
            e + 1
        } else {
            n
        };
        let content = crate::parser::chars_range(fm, pos, e);
        if let Some(c) = mapping_colon(&content) {
            let key_text = string_of(&content, 0, c);
            assert(content@.subrange(0, c as int) =~= content@.take(c as int));
            let key = yaml_key(key_text.as_str());
            let matches = match &key {
                Some(k) => crate::text::str_eq(k.as_str(), field),
                None => false,
            };
            if matches {
                let value = crate::parser::chars_range(&content, c + 1, content.len());
                assert(value@ =~= content@.skip(c + 1));
                let lw = crate::text::skip_ws(&value, 0, value.len());
                assert(value@.subrange(0, value@.len() as int) =~= value@);
                let sep = if lw > 0 && lw < value.len() && value[lw] == '#' {
                    let x = string_of(&value, 0, lw);
                    assert(value@.subrange(0, lw as int) =~= value@.take(lw as int));
                    x
                } else {
                    String::new()
                };
                let rest = crate::parser::chars_range(&value, lw, value.len());
                assert(rest@ =~= value@.skip(lw as int));
                let (len, quote) = value_extent_of(&rest);
                let start = pos + c + 1 + lw;
                proof {
                    crate::blueprint::edit::lemma_eol_bounds(fm@, pos as int);
                }
                return Some((start, start + len, quote, sep));
            }
        }
        if e >= n {
            assert(field_in_lines(fm@, n as int, field@) is None);
            return None;
        }
        pos = pe;
    }
    None
}

/// Where the field's value lies in a frontmatter text: its start and end as byte offsets,
/// its quote, and the whitespace before a comment that follows it directly.
pub fn frontmatter_field_value_range(frontmatter: &str, field: &str) -> (r: Option<(usize, usize, Option<char>, String)>)
    ensures
        match field_in_lines(frontmatter@, 0, field@) {
            Some((a, b, q, sep)) => r matches Some(t) && t.0 == byte_len(frontmatter@.take(a)) && t.1
                == byte_len(frontmatter@.take(b)) && t.2 == q && t.3@ == sep,
            None => r is None,
        },
{
    let cs = chars_of(frontmatter);
    match field_value_chars(&cs, field) {
        None => None,
        Some((a, b, q, sep)) => Some((
            crate::blueprint::edit::byte_offset(frontmatter, &cs, a),
            crate::blueprint::edit::byte_offset(frontmatter, &cs, b),
            q,
            sep,
        )),
    }
}

/// The text holds the character.
pub open spec fn has(s: Seq<char>, c: char) -> bool {
    exists|i: int| 0 <= i < s.len() && s[i] == c
}

/// A frontmatter field set to a value. The field must be a non-empty name without a newline
/// or colon; the frontmatter's byte range must lie on character boundaries in order. An
/// existing value is replaced with its quoting and the whitespace before a following comment
/// kept (escaped for the quote); otherwise `<field>: <value>` is inserted before the
/// frontmatter's last `---`.
pub open spec fn replace_field_spec(s: Seq<char>, range: (nat, nat), field: Seq<char>, value: Seq<char>) -> Result<Seq<char>, Seq<char>> {
    if field.len() == 0 || has(field, '\n') || has(field, ':') {
        Err("invalid frontmatter field: "@ + field)
    } else if !(range.0 <= range.1 && crate::text::is_boundary(s, range.0 as int) && crate::text::is_boundary(
        s,
        range.1 as int,
    )) {
        Err("frontmatter source range is invalid"@)
    } else {
        let a = crate::blueprint::edit::boundary_index(s, range.0 as int);
        let b = crate::blueprint::edit::boundary_index(s, range.1 as int);
        let fm = s.subrange(a, b);
        match field_in_lines(fm, 0, field) {
            Some((st, en, quote, sep)) => {
                let written = match quote {
                    Some(q) => seq![q] + escape_spec(value, q) + seq![q],
                    None => value,
                };
                Ok(s.take(a + st) + written + sep + s.skip(a + en))
            },
            None => match crate::blueprint::evidence::last_occurrence(fm, "---"@, fm.len() - "---"@.len()) {
                None => Err("frontmatter closing delimiter is missing"@),
                Some(k) => Ok(s.take(a + k) + field + ": "@ + value + seq!['\n'] + s.skip(a + k)),
            },
        }
    }
}

/// The character position of byte offset `b`, when it falls between characters.
pub(crate) fn char_index_of_byte(cs: &Vec<char>, b: usize) -> (r: Option<usize>)
    ensures
        r matches Some(k) ==> k <= cs@.len() && byte_len(cs@.take(k as int)) == b,
        r is None ==> !crate::text::is_boundary(cs@, b as int),
{
    let n = cs.len();
    let mut acc: u128 = 0;
    let mut i: usize = 0;
    assert(cs@.take(0) =~= Seq::<char>::empty());
    while i < n && acc < b as u128
        invariant
            i <= n,
            n == cs@.len(),
            acc == byte_len(cs@.take(i as int)),
            acc <= 4 * i,
            forall|k: int| 0 <= k < i ==> byte_len(#[trigger] cs@.take(k)) < b,
        decreases n - i,
    {
        proof {
            assert(cs@.take(i + 1) =~= cs@.take(i as int).push(cs@[i as int]));
            crate::text::lemma_byte_len_push(cs@.take(i as int), cs@[i as int]);
        }
        acc = acc + crate::text::utf8_width(cs[i]) as u128;
        i += 1;
    }
    if acc == b as u128 {
        return Some(i);
    }
    proof {
        if crate::text::is_boundary(cs@, b as int) {
            let k = choose|k: int| 0 <= k <= cs@.len() && byte_len(#[trigger] cs@.take(k)) == b;
            if k > i {
                crate::text::lemma_byte_len_mono(cs@, i as int, k);
            } else if k == i {
            } else {
            }
            assert(cs@.take(n as int) =~= cs@);
        }
    }
    None
}

/// Sets a frontmatter field (see `replace_field_spec`); `frontmatter` is the byte range of
/// the frontmatter in the source.
pub fn set_field_in_range(source: &str, frontmatter: (usize, usize), field: &str, value: &str) -> (r: Result<String, String>)
    ensures
        match replace_field_spec(source@, (frontmatter.0 as nat, frontmatter.1 as nat), field@, value@) {
            Ok(t) => r matches Ok(x) && x@ == t,
            Err(m) => r matches Err(e) && e@ == m,
        },
{
    proof {
        reveal_strlit("---");
    }
    let fs = chars_of(field);
    let mut bad = fs.len() == 0;
    let mut i: usize = 0;
    while i < fs.len()
        invariant
            i <= fs.len(),
            bad == (fs@.len() == 0 || exists|j: int| 0 <= j < i && (fs@[j] == '\n' || fs@[j] == ':')),
        decreases fs.len() - i,
    {
        if fs[i] == '\n' || fs[i] == ':' {
            bad = true;
        }
        i += 1;
    }
    if bad {
        let mut m = to_string("invalid frontmatter field: ");
        push_str(&mut m, field);
        return Err(m);
    }
    let cs = chars_of(source);
    let n = cs.len();
    let (ra, rb) = frontmatter;
    let ia = char_index_of_byte(&cs, ra);
    let ib = char_index_of_byte(&cs, rb);
    let (a, b) = match (ia, ib) {
        (Some(a), Some(b)) => {
            if ra <= rb {
                (a, b)
            } else {
                return Err(to_string("frontmatter source range is invalid"));
            }
        },
        _ => {
            return Err(to_string("frontmatter source range is invalid"));
        },
    };
    proof {
        let x = crate::blueprint::edit::boundary_index(cs@, ra as int);
        let y = crate::blueprint::edit::boundary_index(cs@, rb as int);
        crate::text::lemma_boundary_unique(cs@, x, a as int);
        crate::text::lemma_boundary_unique(cs@, y, b as int);
        if a > b {
            crate::text::lemma_byte_len_mono(cs@, b as int, a as int);
        }
    }
    let fm = crate::parser::chars_range(&cs, a, b);
    let mut out = String::new();
    match field_value_chars(&fm, field) {
        Some((st, en, quote, sep)) => {
            push_range(&mut out, &cs, 0, a + st);
            match quote {
                Some(q) => {
                    crate::text::push_char(&mut out, q);
                    let escaped = escape_yaml_string(value, q);
                    push_str(&mut out, escaped.as_str());
                    crate::text::push_char(&mut out, q);
                },
                None => {
                    push_str(&mut out, value);
                },
            }
            push_str(&mut out, sep.as_str());
            push_range(&mut out, &cs, a + en, n);
            assert(cs@.subrange(0, a + st) =~= cs@.take(a + st));
            assert(cs@.subrange(a + en, n as int) =~= cs@.skip(a + en));
        },
        None => {
            let dashes = crate::text::pattern("---");
            match crate::blueprint::evidence::last_match(&fm, &dashes) {
                None => {
                    return Err(to_string("frontmatter closing delimiter is missing"));
                },
                Some(k) => {
                    push_range(&mut out, &cs, 0, a + k);
                    push_str(&mut out, field);
                    push_str(&mut out, ": ");
                    push_str(&mut out, value);
                    crate::text::push_char(&mut out, '\n');
                    push_range(&mut out, &cs, a + k, n);
                    assert(cs@.subrange(0, a + k) =~= cs@.take(a + k));
                    assert(cs@.subrange(a + k, n as int) =~= cs@.skip(a + k));
                },
            }
        },
    }
    Ok(out)
}

} // verus!
