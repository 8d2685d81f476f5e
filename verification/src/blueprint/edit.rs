//! Text edits of Blueprint and Todo documents: locating a `##` section or a Todo's task line
//! the way `str::lines` sees the text, and replacing or inserting text there.
use vstd::prelude::*;

use crate::parser::starts_with;
use crate::text::{
    byte_len, chars_of, find_chars, find_from, lemma_find_from, push_range, push_str, string_of,
    to_string, trim, trim_end, without_cr,
};

verus! {

/// The end of the line that holds position `a`: the first newline at or after `a`, or the
/// text's end.
pub open spec fn eol(s: Seq<char>, a: int) -> int {
    match find_from(s, seq!['\n'], a) {
        Some(k) => k,
        None => s.len() as int,
    }
}

/// The line that starts at `a`, as `str::lines` gives it (without its line break).
pub open spec fn line_text(s: Seq<char>, a: int) -> Seq<char> {
    without_cr(s.subrange(a, eol(s, a)))
}

/// How a line is tested.
#[derive(Clone, Copy, Debug, PartialEq, Eq, Structural)]
pub enum LineTest {
    Equals,
    StartsWith,
    Contains,
}

/// The line is the pattern, starts with it, or holds it.
pub open spec fn passes(test: LineTest, pat: Seq<char>, l: Seq<char>) -> bool {
    match test {
        LineTest::Equals => l == pat,
        LineTest::StartsWith => starts_with(l, pat),
        LineTest::Contains => find_from(l, pat, 0) is Some,
    }
}

/// The start of the first line at or after the line start `a` that passes the test
/// (`str::lines().find(..)`).
pub open spec fn first_line(s: Seq<char>, a: int, test: LineTest, pat: Seq<char>) -> Option<int>
    decreases s.len() - a,
{
    if a < 0 || a >= s.len() {
        None
    } else if passes(test, pat, line_text(s, a)) {
        Some(a)
    } else {
        let e = eol(s, a);
        if a <= e < s.len() {
            first_line(s, e + 1, test, pat)
        } else {
            None
        }
    }
}

/// The line found passes the test.
pub proof fn lemma_first_line(s: Seq<char>, a: int, test: LineTest, pat: Seq<char>)
    ensures
        first_line(s, a, test, pat) matches Some(k) ==> a <= k < s.len() && passes(test, pat, line_text(s, k)),
    decreases s.len() - a,
{
    if 0 <= a < s.len() && !passes(test, pat, line_text(s, a)) {
        let e = eol(s, a);
        if a <= e < s.len() {
            lemma_first_line(s, e + 1, test, pat);
        }
    }
}

/// The end of the line holding position `a` (see `eol`).
fn line_end(cs: &Vec<char>, a: usize) -> (e: usize)
    requires
        a <= cs.len(),
    ensures
        e == eol(cs@, a as int),
        a <= e <= cs.len(),
{
    let nl = crate::text::pattern("\n");
    proof {
        reveal_strlit("\n");
        assert(nl@ =~= seq!['\n']);
        lemma_find_from(cs@, seq!['\n'], a as int);
    }
    match find_chars(cs, &nl, a) {
        Some(k) => k,
        None => cs.len(),
    }
}

/// The end of the line holding position `a` (see `eol`).
pub fn line_end_of(cs: &Vec<char>, a: usize) -> (e: usize)
    requires
        a <= cs.len(),
    ensures
        e == eol(cs@, a as int),
        a <= e <= cs.len(),
{
    line_end(cs, a)
}

/// A line's end lies between its start and the text's end.
pub proof fn lemma_eol_bounds(s: Seq<char>, a: int)
    requires
        0 <= a <= s.len(),
    ensures
        a <= eol(s, a) <= s.len(),
{
    lemma_find_from(s, seq!['\n'], a);
}

/// The line that starts at `a`, without its line break.
fn line_chars(cs: &Vec<char>, a: usize) -> (l: Vec<char>)
    requires
        a <= cs.len(),
    ensures
        l@ == line_text(cs@, a as int),
{
    let e = line_end(cs, a);
    let b = if e > a && cs[e - 1] == '\r' {
        e - 1
    } else {
        e
    };
    proof {
        if e > a && cs@[e - 1] == '\r' {
            assert(cs@.subrange(a as int, e as int).drop_last() =~= cs@.subrange(a as int, b as int));
        }
    }
    crate::parser::chars_range(cs, a, b)
}

/// Whether the line passes the test.
fn test_line(test: LineTest, pat: &Vec<char>, l: &Vec<char>) -> (b: bool)
    ensures
        b == passes(test, pat@, l@),
{
    match test {
        LineTest::Equals => crate::text::chars_eq(l, pat),
        LineTest::StartsWith => {
            let b = crate::text::matches_at(l, pat, 0);
            proof {
                if pat@.len() <= l@.len() {
                    assert(l@.subrange(0, pat@.len() as int) =~= l@.take(pat@.len() as int));
                }
            }
            b
        },
        LineTest::Contains => find_chars(l, pat, 0).is_some(),
    }
}

/// The start of the first line that passes the test (see `first_line`).
pub fn find_line(cs: &Vec<char>, test: LineTest, pat: &Vec<char>) -> (r: Option<usize>)
    ensures
        r matches Some(k) ==> first_line(cs@, 0, test, pat@) == Some(k as int) && k < cs@.len()
            && passes(test, pat@, line_text(cs@, k as int)),
        r is None ==> first_line(cs@, 0, test, pat@) is None,
{
    proof {
        lemma_first_line(cs@, 0, test, pat@);
    }
    let mut a: usize = 0;
    while a < cs.len()
        invariant
            a <= cs.len(),
            first_line(cs@, 0, test, pat@) == first_line(cs@, a as int, test, pat@),
        decreases cs.len() - a,
    {
        let l = line_chars(cs, a);
        if test_line(test, pat, &l) {
            return Some(a);
        }
        let e = line_end(cs, a);
        if e >= cs.len() {
            return None;
        }
        a = e + 1;
    }
    None
}

/// The byte offset of the character at position `k` of a string slice's characters.
pub fn byte_offset(source: &str, cs: &Vec<char>, k: usize) -> (b: usize)
    requires
        cs@ == source@,
        k <= cs.len(),
    ensures
        b == byte_len(cs@.take(k as int)),
{
    let total = crate::text::str_byte_len(source);
    let mut b: usize = 0;
    let mut i: usize = 0;
    assert(cs@.take(0) =~= Seq::<char>::empty());
    while i < k
        invariant
            i <= k <= cs.len(),
            b == byte_len(cs@.take(i as int)),
            total == byte_len(cs@),
        decreases k - i,
    {
        proof {
            crate::text::lemma_byte_len_mono(cs@, i + 1, cs@.len() as int);
            assert(cs@.take(cs@.len() as int) =~= cs@);
            assert(cs@.take(i + 1) =~= cs@.take(i as int).push(cs@[i as int]));
            crate::text::lemma_byte_len_push(cs@.take(i as int), cs@[i as int]);
        }
        b = b + crate::text::utf8_width(cs[i]);
        i += 1;
    }
    b
}

/// Where a `## <section>` heading's body runs: from the line after the heading to the
/// newline before the next `## ` heading (or the text's end); `None` without the heading.
/// Character positions.
pub open spec fn section_span(s: Seq<char>, section: Seq<char>) -> Option<(int, int)> {
    let heading = "## "@ + section;
    match first_line(s, 0, LineTest::Equals, heading) {
        None => None,
        Some(start) => {
            let body = match find_from(s, seq!['\n'], start + heading.len()) {
                Some(k) => k + 1,
                None => s.len() as int,
            };
            let end = match find_from(s, "\n## "@, body) {
                Some(k) => k,
                None => s.len() as int,
            };
            Some((body, end))
        },
    }
}

/// The bounds of a section's body as `section_bounds` reports them, in characters: from the
/// line after the heading to the start of the next `## ` heading line (or the text's end).
pub open spec fn section_bounds_spec(s: Seq<char>, section: Seq<char>) -> Result<(int, int), Seq<char>> {
    match section_span(s, section) {
        None => Err("missing required section: "@ + section),
        Some((body, end)) => Ok((
            body,
            if end < s.len() {
                end + 1
            } else {
                end
            },
        )),
    }
}

/// Where a section's body runs, in characters (see `section_span`).
pub(crate) fn section_span_of(cs: &Vec<char>, section: &str) -> (r: Option<(usize, usize)>)
    ensures
        r matches Some((a, b)) ==> section_span(cs@, section@) == Some((a as int, b as int)) && a <= b <= cs@.len(),
        r is None ==> section_span(cs@, section@) is None,
{
    proof {
        reveal_strlit("## ");
        reveal_strlit("\n## ");
        reveal_strlit("\n");
    }
    let mut heading = to_string("## ");
    push_str(&mut heading, section);
    let hs = chars_of(heading.as_str());
    let start = match find_line(cs, LineTest::Equals, &hs) {
        Some(a) => a,
        None => {
            return None;
        },
    };
    let nl = crate::text::pattern("\n");
    assert(nl@ =~= seq!['\n']);
    proof {
        lemma_heading_fits(cs@, start as int, hs@);
        lemma_find_from(cs@, seq!['\n'], start + hs@.len());
    }
    let n = cs.len();
    assert(start + hs@.len() <= n);
    let body = match find_chars(cs, &nl, start + hs.len()) {
        Some(k) => k + 1,
        None => cs.len(),
    };
    let next = crate::text::pattern("\n## ");
    proof {
        lemma_find_from(cs@, next@, body as int);
    }
    let end = match find_chars(cs, &next, body) {
        Some(k) => k,
        None => cs.len(),
    };
    Some((body, end))
}

/// The character bounds of a section's body (see `section_bounds_spec`).
fn section_chars(cs: &Vec<char>, section: &str) -> (r: Result<(usize, usize), String>)
    ensures
        match section_bounds_spec(cs@, section@) {
            Ok((a, b)) => r == Ok::<(usize, usize), String>((a as usize, b as usize)) && 0 <= a <= b <= cs@.len(),
            Err(m) => r matches Err(e) && e@ == m,
        },
{
    match section_span_of(cs, section) {
        None => {
            let mut m = to_string("missing required section: ");
            push_str(&mut m, section);
            Err(m)
        },
        Some((body, end)) => {
            let end1 = if end < cs.len() {
                end + 1
            } else {
                end
            };
            Ok((body, end1))
        },
    }
}

/// The heading that a line equals ends within the text.
proof fn lemma_heading_fits(s: Seq<char>, a: int, h: Seq<char>)
    requires
        0 <= a <= s.len(),
        line_text(s, a) == h,
    ensures
        a + h.len() <= s.len(),
{
    lemma_find_from(s, seq!['\n'], a);
}

/// The byte bounds of the body of the `## <section>` section: from the line after the heading
/// to the start of the next `## ` heading line, or the end of the text.
pub fn section_bounds(source: &str, section: &str) -> (r: Result<(usize, usize), String>)
    ensures
        match section_bounds_spec(source@, section@) {
            Ok((a, b)) => r == Ok::<(usize, usize), String>((
                byte_len(source@.take(a)) as usize,
                byte_len(source@.take(b)) as usize,
            )),
            Err(m) => r matches Err(e) && e@ == m,
        },
{
    let cs = chars_of(source);
    let (a, b) = section_chars(&cs, section)?;
    Ok((byte_offset(source, &cs, a), byte_offset(source, &cs, b)))
}

/// The byte offset where a section's body starts.
pub fn section_insertion(source: &str, section: &str) -> (r: Result<usize, String>)
    ensures
        match section_bounds_spec(source@, section@) {
            Ok((a, _)) => r == Ok::<usize, String>(byte_len(source@.take(a)) as usize),
            Err(m) => r matches Err(e) && e@ == m,
        },
{
    let (start, _) = section_bounds(source, section)?;
    Ok(start)
}

/// The trimmed body of a section (up to the newline before the next `##` heading); empty
/// without the section.
pub open spec fn section_body_spec(s: Seq<char>, section: Seq<char>) -> Seq<char> {
    match section_span(s, section) {
        None => seq![],
        Some((body, end)) => trim(s.subrange(body, end)),
    }
}

/// The trimmed body of a section (see `section_body_spec`).
pub fn section_body(source: &str, section: &str) -> (r: String)
    ensures
        r@ == section_body_spec(source@, section@),
{
    let cs = chars_of(source);
    match section_span_of(&cs, section) {
        None => String::new(),
        Some((a, e)) => {
            let (p, q) = crate::text::trim_bounds(&cs, a, e);
            string_of(&cs, p, q)
        },
    }
}

/// A section's body replaced: the text before it, a newline, the new content without
/// trailing whitespace, a newline, and the text from the next heading on.
pub open spec fn replace_section_spec(s: Seq<char>, section: Seq<char>, content: Seq<char>) -> Result<Seq<char>, Seq<char>> {
    match section_bounds_spec(s, section) {
        Err(m) => Err(m),
        Ok((a, b)) => Ok(s.take(a) + seq!['\n'] + trim_end(content) + seq!['\n'] + s.skip(b)),
    }
}

/// Replaces the body of a section (see `replace_section_spec`).
pub fn replace_section(source: &str, section: &str, content: &str) -> (r: Result<String, String>)
    ensures
        match replace_section_spec(source@, section@, content@) {
            Ok(t) => r matches Ok(x) && x@ == t,
            Err(m) => r matches Err(e) && e@ == m,
        },
{
    let cs = chars_of(source);
    let (a, b) = section_chars(&cs, section)?;
    let mut out = String::new();
    push_range(&mut out, &cs, 0, a);
    crate::text::push_char(&mut out, '\n');
    push_trimmed_end(&mut out, content);
    crate::text::push_char(&mut out, '\n');
    push_range(&mut out, &cs, b, cs.len());
    assert(cs@.subrange(0, a as int) =~= cs@.take(a as int));
    assert(cs@.subrange(b as int, cs@.len() as int) =~= cs@.skip(b as int));
    Ok(out)
}

/// Appends `t` without its trailing whitespace.
fn push_trimmed_end(out: &mut String, t: &str)
    ensures
        final(out)@ == old(out)@ + trim_end(t@),
{
    let ts = chars_of(t);
    let e = crate::text::skip_ws_back(&ts, 0, ts.len());
    assert(ts@.subrange(0, ts@.len() as int) =~= ts@);
    push_range(out, &ts, 0, e);
}

/// Content appended at the end of a section's body: separated by one newline after a line
/// break, else by a blank line.
pub open spec fn append_spec(s: Seq<char>, section: Seq<char>, content: Seq<char>) -> Result<Seq<char>, Seq<char>> {
    match section_bounds_spec(s, section) {
        Err(m) => Err(m),
        Ok((_, b)) => {
            let prefix = if b > 0 && s[b - 1] == '\n' {
                seq!['\n']
            } else {
                seq!['\n', '\n']
            };
            Ok(s.take(b) + prefix + trim_end(content) + s.skip(b))
        },
    }
}

/// Appends content to the end of a section (see `append_spec`).
pub fn append_to_section(source: &str, section: &str, content: &str) -> (r: Result<String, String>)
    ensures
        match append_spec(source@, section@, content@) {
            Ok(t) => r matches Ok(x) && x@ == t,
            Err(m) => r matches Err(e) && e@ == m,
        },
{
    let cs = chars_of(source);
    let (_, b) = section_chars(&cs, section)?;
    let mut out = String::new();
    push_range(&mut out, &cs, 0, b);
    crate::text::push_char(&mut out, '\n');
    if !(b > 0 && cs[b - 1] == '\n') {
        crate::text::push_char(&mut out, '\n');
    }
    push_trimmed_end(&mut out, content);
    push_range(&mut out, &cs, b, cs.len());
    assert(cs@.subrange(0, b as int) =~= cs@.take(b as int));
    assert(cs@.subrange(b as int, cs@.len() as int) =~= cs@.skip(b as int));
    Ok(out)
}

/// The first line starting with `# ` gets the trimmed title (up to its newline, which stays).
pub open spec fn replace_title_spec(s: Seq<char>, title: Seq<char>) -> Result<Seq<char>, Seq<char>> {
    match first_line(s, 0, LineTest::StartsWith, "# "@) {
        None => Err("Blueprint title must be H1"@),
        Some(start) => Ok(s.take(start) + "# "@ + trim(title) + s.skip(eol(s, start))),
    }
}

/// Replaces the document's H1 title (see `replace_title_spec`).
pub fn replace_title(source: &str, title: &str) -> (r: Result<String, String>)
    ensures
        match replace_title_spec(source@, title@) {
            Ok(t) => r matches Ok(x) && x@ == t,
            Err(m) => r matches Err(e) && e@ == m,
        },
{
    let cs = chars_of(source);
    let marker = crate::text::pattern("# ");
    let start = match find_line(&cs, LineTest::StartsWith, &marker) {
        Some(a) => a,
        None => {
            return Err(to_string("Blueprint title must be H1"));
        },
    };
    let end = line_end(&cs, start);
    let mut out = String::new();
    push_range(&mut out, &cs, 0, start);
    push_str(&mut out, "# ");
    let ts = chars_of(title);
    let (p, q) = crate::text::trim_bounds(&ts, 0, ts.len());
    assert(ts@.subrange(0, ts@.len() as int) =~= ts@);
    push_range(&mut out, &ts, p, q);
    push_range(&mut out, &cs, end, cs.len());
    assert(cs@.subrange(0, start as int) =~= cs@.take(start as int));
    assert(cs@.subrange(end as int, cs@.len() as int) =~= cs@.skip(end as int));
    Ok(out)
}

/// A required text must hold more than whitespace.
pub fn require_text(name: &str, value: &str) -> (r: Result<(), String>)
    ensures
        r is Err <==> trim(value@).len() == 0,
        r matches Err(e) ==> e@ == name@ + " must not be empty"@,
{
    let vs = chars_of(value);
    let (p, q) = crate::text::trim_bounds(&vs, 0, vs.len());
    assert(vs@.subrange(0, vs@.len() as int) =~= vs@);
    if p == q {
        let mut m = to_string(name);
        push_str(&mut m, " must not be empty");
        return Err(m);
    }
    Ok(())
}

/// A task line: `- [`, one of the markers ` `, `/`, `x`, `X`, `?`, `-`, then `]`.
pub open spec fn task_line_spec(l: Seq<char>) -> bool {
    l.len() >= 5 && l[0] == '-' && l[1] == ' ' && l[2] == '[' && (l[3] == ' ' || l[3] == '/' || l[3]
        == 'x' || l[3] == 'X' || l[3] == '?' || l[3] == '-') && l[4] == ']'
}

/// Whether a (trimmed) line is a task line (see `task_line_spec`).
pub fn is_task_line(line: &str) -> (b: bool)
    ensures
        b == task_line_spec(line@),
{
    let cs = chars_of(line);
    cs.len() >= 5 && cs[0] == '-' && cs[1] == ' ' && cs[2] == '[' && (cs[3] == ' ' || cs[3] == '/'
        || cs[3] == 'x' || cs[3] == 'X' || cs[3] == '?' || cs[3] == '-') && cs[4] == ']'
}

/// The start of the task line of a Todo: the first line holding `^<id>`.
pub open spec fn task_start(s: Seq<char>, id: Seq<char>) -> Option<int> {
    first_line(s, 0, LineTest::Contains, "^"@ + id)
}

/// The start of a Todo's task line (see `task_start`), or the unknown-Todo error.
fn find_task(cs: &Vec<char>, id: &str) -> (r: Result<usize, String>)
    ensures
        r matches Ok(a) ==> task_start(cs@, id@) == Some(a as int) && a < cs@.len(),
        r matches Err(e) ==> task_start(cs@, id@) is None && e@ == "unknown Todo: "@ + id@,
{
    let mut p = to_string("^");
    push_str(&mut p, id);
    let ps = chars_of(p.as_str());
    match find_line(cs, LineTest::Contains, &ps) {
        Some(a) => Ok(a),
        None => {
            let mut m = to_string("unknown Todo: ");
            push_str(&mut m, id);
            Err(m)
        },
    }
}

/// The task's title (between the `[` after its `] ` marker and the next `](`) replaced by the
/// trimmed title.
pub open spec fn task_title_spec(s: Seq<char>, id: Seq<char>, title: Seq<char>) -> Result<Seq<char>, Seq<char>> {
    match task_start(s, id) {
        None => Err("unknown Todo: "@ + id),
        Some(start) => {
            let line = line_text(s, start);
            match find_from(line, "] "@, 0) {
                None => Err("Todo has no task marker: "@ + id),
                Some(m) => match find_from(line, "["@, m + 2) {
                    None => Err("Todo has no document link: "@ + id),
                    Some(k1) => match find_from(line, "]("@, k1 + 1) {
                        None => Err("Todo has no document link: "@ + id),
                        Some(k2) => Ok(s.take(start + k1 + 1) + trim(title) + s.skip(start + k2)),
                    },
                },
            }
        },
    }
}

/// The line that starts at `a` lies inside the text.
proof fn lemma_line_inside(s: Seq<char>, a: int)
    requires
        0 <= a <= s.len(),
    ensures
        a + line_text(s, a).len() <= s.len(),
        a <= eol(s, a) <= s.len(),
        line_text(s, a).len() <= eol(s, a) - a,
        forall|i: int| 0 <= i < line_text(s, a).len() ==> #[trigger] line_text(s, a)[i] == s[a + i],
{
    lemma_find_from(s, seq!['\n'], a);
}

/// A text's bytes are at most four per character.
proof fn lemma_byte_len_bound(s: Seq<char>)
    ensures
        byte_len(s) <= 4 * s.len(),
    decreases s.len(),
{
    if s.len() > 0 {
        lemma_byte_len_bound(s.drop_last());
    }
}

/// Replaces the title of a Todo's task line (see `task_title_spec`).
pub fn replace_task_title(source: &str, todo_id: &str, title: &str) -> (r: Result<String, String>)
    ensures
        match task_title_spec(source@, todo_id@, title@) {
            Ok(t) => r matches Ok(x) && x@ == t,
            Err(m) => r matches Err(e) && e@ == m,
        },
{
    proof {
        reveal_strlit("] ");
        reveal_strlit("[");
        reveal_strlit("](");
    }
    let cs = chars_of(source);
    let n = cs.len();
    let start = find_task(&cs, todo_id)?;
    let line = line_chars(&cs, start);
    proof {
        lemma_line_inside(cs@, start as int);
    }
    let close = crate::text::pattern("] ");
    let open = crate::text::pattern("[");
    let link = crate::text::pattern("](");
    proof {
        lemma_find_from(line@, close@, 0);
    }
    let m = match find_chars(&line, &close, 0) {
        Some(m) => m,
        None => {
            let mut e = to_string("Todo has no task marker: ");
            push_str(&mut e, todo_id);
            return Err(e);
        },
    };
    proof {
        lemma_find_from(line@, open@, m + 2);
    }
    let k1 = match find_chars(&line, &open, m + 2) {
        Some(k) => k,
        None => {
            let mut e = to_string("Todo has no document link: ");
            push_str(&mut e, todo_id);
            return Err(e);
        },
    };
    proof {
        lemma_find_from(line@, link@, k1 + 1);
    }
    let k2 = match find_chars(&line, &link, k1 + 1) {
        Some(k) => k,
        None => {
            let mut e = to_string("Todo has no document link: ");
            push_str(&mut e, todo_id);
            return Err(e);
        },
    };
    let mut out = String::new();
    push_range(&mut out, &cs, 0, start + k1 + 1);
    let ts = chars_of(title);
    let (p, q) = crate::text::trim_bounds(&ts, 0, ts.len());
    assert(ts@.subrange(0, ts@.len() as int) =~= ts@);
    push_range(&mut out, &ts, p, q);
    push_range(&mut out, &cs, start + k2, n);
    assert(cs@.subrange(0, start + k1 + 1) =~= cs@.take(start + k1 + 1));
    assert(cs@.subrange(start + k2, n as int) =~= cs@.skip(start + k2));
    Ok(out)
}

/// The first of the markers `[ `, `[/`, `[x`, `[?`, `[-` that the line holds (tried in that
/// order), as the position of its marker character.
pub open spec fn marker_position(line: Seq<char>) -> Option<int> {
    match find_from(line, "[ "@, 0) {
        Some(k) => Some(k + 1),
        None => match find_from(line, "[/"@, 0) {
            Some(k) => Some(k + 1),
            None => match find_from(line, "[x"@, 0) {
                Some(k) => Some(k + 1),
                None => match find_from(line, "[?"@, 0) {
                    Some(k) => Some(k + 1),
                    None => match find_from(line, "[-"@, 0) {
                        Some(k) => Some(k + 1),
                        None => None,
                    },
                },
            },
        },
    }
}

/// A Todo's task marker set to the status's marker.
pub open spec fn task_status_spec(s: Seq<char>, id: Seq<char>, status: crate::blueprint::model::TodoStatus) -> Result<Seq<char>, Seq<char>> {
    match task_start(s, id) {
        None => Err("unknown Todo: "@ + id),
        Some(start) => match marker_position(line_text(s, start)) {
            None => Err("Todo has no supported task marker: "@ + id),
            Some(k) => Ok(s.update(start + k, crate::blueprint::model::marker_char(status))),
        },
    }
}

/// The first occurrence of a two-character marker in the line.
fn find_marker(line: &Vec<char>, a: char, b: char) -> (r: Option<usize>)
    ensures
        r matches Some(k) ==> find_from(line@, seq![a, b], 0) == Some(k as int) && k + 2 <= line@.len(),
        r is None ==> find_from(line@, seq![a, b], 0) is None,
{
    let n = line.len();
    let mut pat: Vec<char> = Vec::new();
    pat.push(a);
    pat.push(b);
    assert(pat@ =~= seq![a, b]);
    proof {
        lemma_find_from(line@, pat@, 0);
    }
    find_chars(line, &pat, 0)
}

/// The position of the line's task marker character (see `marker_position`).
fn marker_at(line: &Vec<char>) -> (r: Option<usize>)
    ensures
        r matches Some(k) ==> marker_position(line@) == Some(k as int) && 1 <= k < line@.len(),
        r is None ==> marker_position(line@) is None,
{
    proof {
        reveal_strlit("[ ");
        reveal_strlit("[/");
        reveal_strlit("[x");
        reveal_strlit("[?");
        reveal_strlit("[-");
        assert("[ "@ =~= seq!['[', ' ']);
        assert("[/"@ =~= seq!['[', '/']);
        assert("[x"@ =~= seq!['[', 'x']);
        assert("[?"@ =~= seq!['[', '?']);
        assert("[-"@ =~= seq!['[', '-']);
    }
    let n = line.len();
    if let Some(k) = find_marker(line, '[', ' ') {
        return Some(k + 1);
    }
    if let Some(k) = find_marker(line, '[', '/') {
        return Some(k + 1);
    }
    if let Some(k) = find_marker(line, '[', 'x') {
        return Some(k + 1);
    }
    if let Some(k) = find_marker(line, '[', '?') {
        return Some(k + 1);
    }
    if let Some(k) = find_marker(line, '[', '-') {
        return Some(k + 1);
    }
    None
}

/// Sets the marker of a Todo's task line (see `task_status_spec`).
pub fn replace_task_status(source: &str, todo_id: &str, status: crate::blueprint::model::TodoStatus) -> (r: Result<String, String>)
    ensures
        match task_status_spec(source@, todo_id@, status) {
            Ok(t) => r matches Ok(x) && x@ == t,
            Err(m) => r matches Err(e) && e@ == m,
        },
{
    proof {
        reveal_strlit("[ ");
        reveal_strlit("[/");
        reveal_strlit("[x");
        reveal_strlit("[?");
        reveal_strlit("[-");
        assert("[ "@ =~= seq!['[', ' ']);
        assert("[/"@ =~= seq!['[', '/']);
        assert("[x"@ =~= seq!['[', 'x']);
        assert("[?"@ =~= seq!['[', '?']);
        assert("[-"@ =~= seq!['[', '-']);
    }
    let mut cs = chars_of(source);
    let n = cs.len();
    let start = find_task(&cs, todo_id)?;
    let line = line_chars(&cs, start);
    proof {
        lemma_line_inside(cs@, start as int);
    }
    let k = match marker_at(&line) {
        Some(k) => k,
        None => {
            let mut e = to_string("Todo has no supported task marker: ");
            push_str(&mut e, todo_id);
            return Err(e);
        },
    };
    let ghost before = cs@;
    cs.set(start + k, status.marker_char());
    let mut out = String::new();
    push_range(&mut out, &cs, 0, n);
    assert(cs@.subrange(0, n as int) =~= cs@);
    assert(cs@ =~= before.update(start + k, crate::blueprint::model::marker_char(status)));
    Ok(out)
}

/// A `- <field>: <value>` line of the Record section set: the first line holding
/// `- <field>:` is rewritten from there to its end, or, without one, the field is added at
/// the end of the section.
pub open spec fn record_field_spec(s: Seq<char>, field: Seq<char>, value: Seq<char>) -> Result<Seq<char>, Seq<char>> {
    match section_bounds_spec(s, "Record"@) {
        Err(m) => Err(m),
        Ok((a, b)) => {
            let body = s.subrange(a, b);
            let entry = "- "@ + field + ": "@ + value;
            match find_from(body, "- "@ + field + ":"@, 0) {
                Some(off) => {
                    let le = match find_from(body, seq!['\n'], off) {
                        Some(k) => k,
                        None => body.len() as int,
                    };
                    Ok(s.take(a + off) + entry + s.skip(a + le))
                },
                None => Ok(s.take(b) + entry + seq!['\n'] + s.skip(b)),
            }
        },
    }
}

/// Sets a field of the Record section (see `record_field_spec`).
pub fn replace_or_insert_record_field(source: &str, field: &str, value: &str) -> (r: Result<String, String>)
    ensures
        match record_field_spec(source@, field@, value@) {
            Ok(t) => r matches Ok(x) && x@ == t,
            Err(m) => r matches Err(e) && e@ == m,
        },
{
    proof {
        reveal_strlit("\n");
    }
    let cs = chars_of(source);
    let n = cs.len();
    let (a, b) = section_chars(&cs, "Record")?;
    let body = crate::parser::chars_range(&cs, a, b);
    let mut key = to_string("- ");
    push_str(&mut key, field);
    push_str(&mut key, ":");
    let ks = chars_of(key.as_str());
    let mut entry = to_string("- ");
    push_str(&mut entry, field);
    push_str(&mut entry, ": ");
    push_str(&mut entry, value);
    proof {
        lemma_find_from(body@, ks@, 0);
    }
    let mut out = String::new();
    match find_chars(&body, &ks, 0) {
        Some(off) => {
            let nl = crate::text::pattern("\n");
            assert(nl@ =~= seq!['\n']);
            proof {
                lemma_find_from(body@, seq!['\n'], off as int);
            }
            let le = match find_chars(&body, &nl, off) {
                Some(k) => k,
                None => body.len(),
            };
            push_range(&mut out, &cs, 0, a + off);
            push_str(&mut out, entry.as_str());
            push_range(&mut out, &cs, a + le, n);
            assert(cs@.subrange(0, a + off) =~= cs@.take(a + off));
            assert(cs@.subrange(a + le, n as int) =~= cs@.skip(a + le));
        },
        None => {
            push_range(&mut out, &cs, 0, b);
            push_str(&mut out, entry.as_str());
            crate::text::push_char(&mut out, '\n');
            push_range(&mut out, &cs, b, n);
            assert(cs@.subrange(0, b as int) =~= cs@.take(b as int));
            assert(cs@.subrange(b as int, n as int) =~= cs@.skip(b as int));
        },
    }
    Ok(out)
}

/// `n` spaces.
pub open spec fn spaces(n: nat) -> Seq<char> {
    Seq::new(n, |i: int| ' ')
}

fn push_spaces(s: &mut String, n: u128)
    ensures
        final(s)@ == old(s)@ + spaces(n as nat),
{
    let mut i: u128 = 0;
    while i < n
        invariant
            i <= n,
            s@ == old(s)@ + spaces(i as nat),
        decreases n - i,
    {
        crate::text::push_char(s, ' ');
        assert(spaces((i + 1) as nat) =~= spaces(i as nat).push(' '));
        i += 1;
    }
}

/// The bytes of a line's leading whitespace (`line.len() - line.trim_start().len()`).
pub open spec fn indent_bytes(l: Seq<char>) -> nat {
    byte_len(l.take(crate::text::lead_ws(l) as int))
}

/// The bytes of a line's leading whitespace (see `indent_bytes`).
fn indent_of(l: &Vec<char>) -> (n: u128)
    ensures
        n == indent_bytes(l@),
        n <= 4 * l@.len(),
{
    let k = crate::text::skip_ws(l, 0, l.len());
    assert(l@.subrange(0, l@.len() as int) =~= l@);
    let mut n: u128 = 0;
    let mut i: usize = 0;
    assert(l@.take(0) =~= Seq::<char>::empty());
    while i < k
        invariant
            i <= k <= l.len(),
            n == byte_len(l@.take(i as int)),
            n <= 4 * i,
        decreases k - i,
    {
        proof {
            assert(l@.take(i + 1) =~= l@.take(i as int).push(l@[i as int]));
            crate::text::lemma_byte_len_push(l@.take(i as int), l@[i as int]);
        }
        n = n + crate::text::utf8_width(l[i]) as u128;
        i += 1;
    }
    n
}

/// The field prefix of a Todo whose task line is indented `indent` bytes.
pub open spec fn field_prefix(indent: nat, field: Seq<char>) -> Seq<char> {
    spaces(indent + 2) + "- "@ + field + ":"@
}

/// Where a Todo's body ends, scanning its lines from `pos`: at the first line that is a
/// `## ` heading, or a task line indented no deeper than the Todo's task line; else at the
/// text's end.
pub open spec fn body_end_from(s: Seq<char>, pos: int, task_indent: nat) -> int
    decreases s.len() - pos,
{
    if pos < 0 || pos >= s.len() {
        s.len() as int
    } else {
        let e = eol(s, pos);
        let line = s.subrange(pos, e);
        if starts_with(line, "## "@) || (indent_bytes(line) <= task_indent && task_line_spec(
            crate::text::trim_start(line),
        )) {
            pos
        } else if pos <= e < s.len() {
            body_end_from(s, e + 1, task_indent)
        } else {
            s.len() as int
        }
    }
}

/// A body line is kept unless it is one of the field's lines: its trimmed text starts with
/// the prefix and what follows is empty or starts with a space.
pub open spec fn kept_line(piece: Seq<char>, prefix: Seq<char>) -> bool {
    let l = trim_end(
        if piece.len() > 0 && piece.last() == '\n' {
            piece.drop_last()
        } else {
            piece
        },
    );
    !starts_with(l, prefix) || (l.len() > prefix.len() && l[prefix.len() as int] != ' ')
}

/// The kept lines (with their line breaks) of `s[pos..end]`.
pub open spec fn retained_from(s: Seq<char>, pos: int, end: int, prefix: Seq<char>) -> Seq<char>
    decreases end - pos,
{
    if pos < 0 || pos >= end || end > s.len() {
        seq![]
    } else {
        let e = eol(s, pos);
        let pe = if e < end {
            e + 1
        } else {
            end
        };
        if pe <= pos {
            seq![]
        } else {
            let piece = s.subrange(pos, pe);
            (if kept_line(piece, prefix) {
                piece
            } else {
                seq![]
            }) + retained_from(s, pe, end, prefix)
        }
    }
}

/// One field line per value.
pub open spec fn field_lines(prefix: Seq<char>, values: Seq<Seq<char>>) -> Seq<char>
    decreases values.len(),
{
    if values.len() == 0 {
        seq![]
    } else {
        field_lines(prefix, values.drop_last()) + prefix + " "@ + values.last() + seq!['\n']
    }
}

/// A Todo's direct `<field>` lines replaced: the old ones of its body (down to the next task
/// at its level or the next section) go, and one line per value is written right below the
/// task line; nested criteria and child Todos stay.
pub open spec fn todo_fields_spec(s: Seq<char>, id: Seq<char>, field: Seq<char>, values: Seq<Seq<char>>) -> Result<Seq<char>, Seq<char>> {
    match task_start(s, id) {
        None => Err("unknown Todo: "@ + id),
        Some(start) => {
            let line = line_text(s, start);
            let task_end = start + line.len();
            let indent = indent_bytes(line);
            let prefix = field_prefix(indent, field);
            let body_start = if task_end < s.len() && s[task_end] == '\n' {
                task_end + 1
            } else {
                task_end
            };
            let body_end = body_end_from(s, body_start, indent);
            Ok(s.take(task_end) + seq!['\n'] + field_lines(prefix, values) + retained_from(
                s,
                body_start,
                body_end,
                prefix,
            ) + s.skip(body_end))
        },
    }
}

proof fn lemma_body_end_bounds(s: Seq<char>, pos: int, task_indent: nat)
    requires
        0 <= pos,
    ensures
        pos <= body_end_from(s, pos, task_indent) <= s.len() || (pos > s.len() && body_end_from(s, pos, task_indent) == s.len()),
    decreases s.len() - pos,
{
    if 0 <= pos < s.len() {
        lemma_find_from(s, seq!['\n'], pos);
        let e = eol(s, pos);
        if pos <= e < s.len() {
            lemma_body_end_bounds(s, e + 1, task_indent);
        }
    }
}

/// Whether a body line keeps its place (see `kept_line`).
fn keep_line(cs: &Vec<char>, a: usize, b: usize, prefix: &Vec<char>) -> (k: bool)
    requires
        a <= b <= cs.len(),
    ensures
        k == kept_line(cs@.subrange(a as int, b as int), prefix@),
{
    let piece = crate::parser::chars_range(cs, a, b);
    let stop = if b > a && cs[b - 1] == '\n' {
        b - 1
    } else {
        b
    };
    proof {
        if b > a && cs@[b - 1] == '\n' {
            assert(piece@.drop_last() =~= cs@.subrange(a as int, stop as int));
        }
    }
    let e = crate::text::skip_ws_back(cs, a, stop);
    let l = crate::parser::chars_range(cs, a, e);
    assert(l@ == trim_end(cs@.subrange(a as int, stop as int)));
    let starts = crate::text::matches_at(&l, prefix, 0);
    proof {
        if prefix@.len() <= l@.len() {
            assert(l@.subrange(0, prefix@.len() as int) =~= l@.take(prefix@.len() as int));
        }
    }
    !starts || (l.len() > prefix.len() && l[prefix.len()] != ' ')
}

/// Replaces a Todo's direct field lines by one line per value (see `todo_fields_spec`).
pub fn replace_todo_field_values(source: &str, todo_id: &str, field: &str, values: &[&str]) -> (r: Result<String, String>)
    ensures
        match todo_fields_spec(source@, todo_id@, field@, values@.map_values(|v: &str| v@)) {
            Ok(t) => r matches Ok(x) && x@ == t,
            Err(m) => r matches Err(e) && e@ == m,
        },
{
    proof {
        reveal_strlit("## ");
        reveal_strlit("- ");
        reveal_strlit(":");
        reveal_strlit(" ");
    }
    let cs = chars_of(source);
    let n = cs.len();
    let start = find_task(&cs, todo_id)?;
    let line = line_chars(&cs, start);
    proof {
        lemma_line_inside(cs@, start as int);
    }
    let task_end = start + line.len();
    let indent = indent_of(&line);
    let mut prefix = String::new();
    push_spaces(&mut prefix, indent + 2);
    push_str(&mut prefix, "- ");
    push_str(&mut prefix, field);
    push_str(&mut prefix, ":");
    let ps = chars_of(prefix.as_str());
    let body_start = if task_end < n && cs[task_end] == '\n' {
        task_end + 1
    } else {
        task_end
    };
    let heading = crate::text::pattern("## ");
    // Where the body ends.
    let mut pos = body_start;
    let mut body_end = n;
    while pos < n
        invariant_except_break
            body_end == n,
        invariant
            body_start <= pos <= n,
            n == cs@.len(),
            heading@ == "## "@,
            body_end_from(cs@, body_start as int, indent as nat) == body_end_from(cs@, pos as int, indent as nat),
        ensures
            body_end == body_end_from(cs@, body_start as int, indent as nat),
        decreases n - pos,
    {
        let e = line_end(&cs, pos);
        let l = crate::parser::chars_range(&cs, pos, e);
        let is_heading = crate::text::matches_at(&l, &heading, 0);
        proof {
            if 3 <= l@.len() {
                assert(l@.subrange(0, 3) =~= l@.take(3));
            }
        }
        let lead = crate::text::skip_ws(&l, 0, l.len());
        assert(l@.subrange(0, l@.len() as int) =~= l@);
        let rest = crate::parser::chars_range(&l, lead, l.len());
        assert(rest@ =~= crate::text::trim_start(l@));
        let rest_text = string_of(&rest, 0, rest.len());
        assert(rest@.subrange(0, rest@.len() as int) =~= rest@);
        if is_heading || (indent_of(&l) <= indent && is_task_line(rest_text.as_str())) {
            body_end = pos;
            break;
        }
        if e >= n {
            break;
        }
        pos = e + 1;
    }
    proof {
        lemma_body_end_bounds(cs@, body_start as int, indent as nat);
    }
    let ghost be = body_end_from(cs@, body_start as int, indent as nat);
    assert(body_end == be);
    let mut out = String::new();
    push_range(&mut out, &cs, 0, task_end);
    crate::text::push_char(&mut out, '\n');
    let mut i: usize = 0;
    let ghost vs = values@.map_values(|v: &str| v@);
    let ghost mid = out@;
    while i < values.len()
        invariant
            i <= values.len(),
            vs == values@.map_values(|v: &str| v@),
            out@ == mid + field_lines(prefix@, vs.take(i as int)),
        decreases values.len() - i,
    {
        assert(vs.take(i + 1).drop_last() =~= vs.take(i as int));
        push_str(&mut out, prefix.as_str());
        push_str(&mut out, " ");
        push_str(&mut out, values[i]);
        crate::text::push_char(&mut out, '\n');
        i += 1;
    }
    assert(vs.take(values.len() as int) =~= vs);
    // The kept body lines.
    let mut q = body_start;
    let ghost mid2 = out@;
    let ghost whole = retained_from(cs@, body_start as int, body_end as int, ps@);
    let ghost mut done: Seq<char> = seq![];
    while q < body_end
        invariant
            body_start <= q <= body_end <= n,
            n == cs@.len(),
            whole == done + retained_from(cs@, q as int, body_end as int, ps@),
            out@ == mid2 + done,
        decreases body_end - q,
    {
        let e = line_end(&cs, q);
        let pe = if e < body_end {
            e + 1
        } else {
            body_end
        };
        let keep = keep_line(&cs, q, pe, &ps);
        let ghost here = retained_from(cs@, q as int, body_end as int, ps@);
        let ghost next = retained_from(cs@, pe as int, body_end as int, ps@);
        let ghost piece = cs@.subrange(q as int, pe as int);
        let ghost kept: Seq<char> = if keep { piece } else { seq![] };
        assert(here == kept + next);
        if keep {
            push_range(&mut out, &cs, q, pe);
        }
        proof {
            assert(done + here =~= (done + kept) + next);
            done = done + kept;
        }
        q = pe;
    }
    proof {
        assert(retained_from(cs@, body_end as int, body_end as int, ps@) == Seq::<char>::empty());
        assert(done + Seq::<char>::empty() =~= done);
    }
    push_range(&mut out, &cs, body_end, n);
    assert(cs@.subrange(0, task_end as int) =~= cs@.take(task_end as int));
    assert(cs@.subrange(body_end as int, n as int) =~= cs@.skip(body_end as int));
    Ok(out)
}

/// Sets one direct field of a Todo (see `todo_fields_spec` with the one value).
pub fn replace_or_insert_todo_field(source: &str, todo_id: &str, field: &str, value: &str) -> (r: Result<String, String>)
    ensures
        match todo_fields_spec(source@, todo_id@, field@, seq![value@]) {
            Ok(t) => r matches Ok(x) && x@ == t,
            Err(m) => r matches Err(e) && e@ == m,
        },
{
    let values: [&str; 1] = [value];
    let r = replace_todo_field_values(source, todo_id, field, &values);
    assert(values@.map_values(|v: &str| v@) =~= seq![value@]);
    r
}

/// The position of the first empty (whitespace-only) value.
pub open spec fn first_empty(values: Seq<Seq<char>>) -> Option<int> {
    if exists|i: int| 0 <= i < values.len() && trim(values[i]).len() == 0 {
        Some(choose|i: int| 0 <= i < values.len() && trim(values[i]).len() == 0)
    } else {
        None
    }
}

/// Sets a Todo's repeated field to the trimmed values; every value must hold text.
pub open spec fn repeated_field_spec(s: Seq<char>, id: Seq<char>, field: Seq<char>, values: Seq<Seq<char>>) -> Result<Seq<char>, Seq<char>> {
    if exists|i: int| 0 <= i < values.len() && trim(#[trigger] values[i]).len() == 0 {
        Err(field + " must not be empty"@)
    } else {
        todo_fields_spec(s, id, field, values.map_values(|v: Seq<char>| trim(v)))
    }
}

/// Sets a Todo's repeated field to the trimmed values (see `repeated_field_spec`).
pub fn replace_repeated_todo_field(source: &str, todo_id: &str, field: &str, values: &Vec<String>) -> (r: Result<String, String>)
    ensures
        match repeated_field_spec(source@, todo_id@, field@, values@.map_values(|v: String| v@)) {
            Ok(t) => r matches Ok(x) && x@ == t,
            Err(m) => r matches Err(e) && e@ == m,
        },
{
    let ghost vs = values@.map_values(|v: String| v@);
    let mut trimmed: Vec<String> = Vec::new();
    let mut i: usize = 0;
    while i < values.len()
        invariant
            i <= values.len(),
            vs == values@.map_values(|v: String| v@),
            forall|j: int| 0 <= j < i ==> trim(#[trigger] vs[j]).len() > 0,
            trimmed@.len() == i,
            forall|j: int| 0 <= j < i ==> (#[trigger] trimmed@[j])@ == trim(vs[j]),
        decreases values.len() - i,
    {
        match require_text(field, values[i].as_str()) {
            Ok(()) => {},
            Err(e) => {
                assert(trim(vs[i as int]).len() == 0);
                return Err(e);
            },
        }
        let cs = chars_of(values[i].as_str());
        let (p, q) = crate::text::trim_bounds(&cs, 0, cs.len());
        assert(cs@.subrange(0, cs@.len() as int) =~= cs@);
        trimmed.push(string_of(&cs, p, q));
        i += 1;
    }
    let mut refs: Vec<&str> = Vec::new();
    let mut k: usize = 0;
    while k < trimmed.len()
        invariant
            k <= trimmed.len(),
            refs@.len() == k,
            forall|j: int| 0 <= j < k ==> (#[trigger] refs@[j])@ == trimmed@[j]@,
        decreases trimmed.len() - k,
    {
        refs.push(trimmed[k].as_str());
        k += 1;
    }
    assert(refs@.map_values(|v: &str| v@) =~= vs.map_values(|v: Seq<char>| trim(v)));
    replace_todo_field_values(source, todo_id, field, refs.as_slice())
}

/// The criterion lines written under a Todo indented `indent` bytes.
pub open spec fn criteria_lines(indent: nat, criteria: Seq<(Seq<char>, bool)>) -> Seq<char>
    decreases criteria.len(),
{
    if criteria.len() == 0 {
        seq![]
    } else {
        let c = criteria.last();
        criteria_lines(indent, criteria.drop_last()) + spaces(indent) + "    - ["@ + seq![
            if c.1 {
                'x'
            } else {
                ' '
            },
        ] + "] "@ + trim(c.0) + seq!['\n']
    }
}

pub open spec fn updates_view(v: Seq<crate::blueprint::model::CheckUpdate>) -> Seq<(Seq<char>, bool)> {
    v.map_values(|c: crate::blueprint::model::CheckUpdate| (c.text@, c.completed))
}

/// Where a Todo's block ends, from the end of its task line: after the newline before the
/// next top-level task, else before the next section, else at the text's end.
pub open spec fn block_end_spec(s: Seq<char>, after: int) -> int {
    match find_from(s, "\n- ["@, after) {
        Some(k) => k + 1,
        None => match find_from(s, "\n## "@, after) {
            Some(k) => k + 1,
            None => s.len() as int,
        },
    }
}

/// Where a Todo's block ends (see `block_end_spec`).
fn block_end(cs: &Vec<char>, after: usize) -> (e: usize)
    requires
        after <= cs.len(),
    ensures
        e == block_end_spec(cs@, after as int),
        after <= e <= cs.len(),
{
    proof {
        reveal_strlit("\n- [");
        reveal_strlit("\n## ");
    }
    let n = cs.len();
    let task = crate::text::pattern("\n- [");
    let heading = crate::text::pattern("\n## ");
    proof {
        lemma_find_from(cs@, task@, after as int);
        lemma_find_from(cs@, heading@, after as int);
    }
    if let Some(k) = find_chars(cs, &task, after) {
        return k + 1;
    }
    if let Some(k) = find_chars(cs, &heading, after) {
        return k + 1;
    }
    n
}

/// A Todo's `Completion Criteria:` list replaced: the Todo's block (from its task line to the
/// next top-level task or section) keeps what precedes the label and the first nested item
/// after the old criteria; without the label, one is added at the end of the block.
pub open spec fn criteria_spec(s: Seq<char>, id: Seq<char>, criteria: Seq<(Seq<char>, bool)>) -> Result<Seq<char>, Seq<char>> {
    match task_start(s, id) {
        None => Err("unknown Todo: "@ + id),
        Some(start) => {
            let line = line_text(s, start);
            let indent = indent_bytes(line);
            let after = start + line.len();
            let end = block_end_spec(s, after);
            let existing = s.subrange(start, end);
            let marker = "Completion Criteria:"@;
            let items = criteria_lines(indent, criteria);
            let replacement = match find_from(existing, marker, 0) {
                Some(p) => {
                    let rest = existing.skip(p + marker.len());
                    let suffix = match find_from(rest, marker, 0) {
                        Some(q) => rest.take(q),
                        None => rest,
                    };
                    let tail = match find_from(suffix, "\n  - "@, 0) {
                        Some(o) => suffix.skip(o),
                        None => seq![],
                    };
                    existing.take(p) + marker + seq!['\n'] + items + tail
                },
                None => trim_end(existing) + seq!['\n'] + spaces(indent) + "  - Completion Criteria:\n"@ + items,
            };
            Ok(s.take(start) + trim_end(replacement) + seq!['\n'] + s.skip(end))
        },
    }
}

/// The criterion lines (see `criteria_lines`).
fn push_criteria(out: &mut String, indent: u128, criteria: &Vec<crate::blueprint::model::CheckUpdate>)
    ensures
        final(out)@ == old(out)@ + criteria_lines(indent as nat, updates_view(criteria@)),
{
    let ghost cv = updates_view(criteria@);
    let mut i: usize = 0;
    while i < criteria.len()
        invariant
            i <= criteria.len(),
            cv == updates_view(criteria@),
            out@ == old(out)@ + criteria_lines(indent as nat, cv.take(i as int)),
        decreases criteria.len() - i,
    {
        assert(cv.take(i + 1).drop_last() =~= cv.take(i as int));
        push_spaces(out, indent);
        push_str(out, "    - [");
        crate::text::push_char(out, if criteria[i].completed {
            'x'
        } else {
            ' '
        });
        push_str(out, "] ");
        let cs = chars_of(criteria[i].text.as_str());
        let (p, q) = crate::text::trim_bounds(&cs, 0, cs.len());
        assert(cs@.subrange(0, cs@.len() as int) =~= cs@);
        push_range(out, &cs, p, q);
        crate::text::push_char(out, '\n');
        i += 1;
    }
    assert(cv.take(criteria.len() as int) =~= cv);
}

/// Replaces a Todo's completion criteria in the graph (see `criteria_spec`).
pub fn replace_completion_criteria(source: &str, todo_id: &str, criteria: &Vec<crate::blueprint::model::CheckUpdate>) -> (r: Result<String, String>)
    ensures
        match criteria_spec(source@, todo_id@, updates_view(criteria@)) {
            Ok(t) => r matches Ok(x) && x@ == t,
            Err(m) => r matches Err(e) && e@ == m,
        },
{
    proof {
        reveal_strlit("\n- [");
        reveal_strlit("\n## ");
        reveal_strlit("Completion Criteria:");
        reveal_strlit("\n  - ");
    }
    let cs = chars_of(source);
    let n = cs.len();
    let start = find_task(&cs, todo_id)?;
    let line = line_chars(&cs, start);
    proof {
        lemma_line_inside(cs@, start as int);
    }
    let indent = indent_of(&line);
    let after = start + line.len();
    let end = block_end(&cs, after);
    let existing = crate::parser::chars_range(&cs, start, end);
    let marker = crate::text::pattern("Completion Criteria:");
    let mut repl = String::new();
    let ghost items = criteria_lines(indent as nat, updates_view(criteria@));
    assert(line@ == line_text(cs@, start as int));
    assert(indent == indent_bytes(line_text(cs@, start as int)));
    assert(existing@ == cs@.subrange(start as int, end as int));
    proof {
        lemma_find_from(existing@, marker@, 0);
    }
    match find_chars(&existing, &marker, 0) {
        Some(p) => {
            let rest = crate::parser::chars_range(&existing, p + marker.len(), existing.len());
            assert(rest@ =~= existing@.skip(p + marker@.len()));
            proof {
                lemma_find_from(rest@, marker@, 0);
            }
            let suffix = match find_chars(&rest, &marker, 0) {
                Some(q) => {
                    let x = crate::parser::chars_range(&rest, 0, q);
                    assert(x@ =~= rest@.take(q as int));
                    x
                },
                None => rest,
            };
            let nested = crate::text::pattern("\n  - ");
            proof {
                lemma_find_from(suffix@, nested@, 0);
            }
            push_range(&mut repl, &existing, 0, p);
            assert(existing@.subrange(0, p as int) =~= existing@.take(p as int));
            push_str(&mut repl, "Completion Criteria:");
            crate::text::push_char(&mut repl, '\n');
            push_criteria(&mut repl, indent, criteria);
            match find_chars(&suffix, &nested, 0) {
                Some(o) => {
                    push_range(&mut repl, &suffix, o, suffix.len());
                    assert(suffix@.subrange(o as int, suffix@.len() as int) =~= suffix@.skip(o as int));
                },
                None => {},
            }
            assert(repl@ =~= existing@.take(p as int) + marker@ + seq!['\n'] + items + (match find_from(suffix@, "\n  - "@, 0) {
                Some(o) => suffix@.skip(o),
                None => seq![],
            }));
        },
        None => {
            let e = crate::text::skip_ws_back(&existing, 0, existing.len());
            assert(existing@.subrange(0, existing@.len() as int) =~= existing@);
            push_range(&mut repl, &existing, 0, e);
            crate::text::push_char(&mut repl, '\n');
            push_spaces(&mut repl, indent);
            push_str(&mut repl, "  - Completion Criteria:\n");
            push_criteria(&mut repl, indent, criteria);
            assert(repl@ =~= trim_end(existing@) + seq!['\n'] + spaces(indent as nat) + "  - Completion Criteria:\n"@ + items);
        },
    }
    let mut out = String::new();
    push_range(&mut out, &cs, 0, start);
    push_trimmed_end(&mut out, repl.as_str());
    crate::text::push_char(&mut out, '\n');
    push_range(&mut out, &cs, end, n);
    assert(cs@.subrange(0, start as int) =~= cs@.take(start as int));
    assert(cs@.subrange(end as int, n as int) =~= cs@.skip(end as int));
    Ok(out)
}

/// The byte offset just past the `- Children:` label line of a Todo (the label must follow
/// its task line; one byte is added for the label's line break).
pub open spec fn children_insertion_spec(s: Seq<char>, id: Seq<char>) -> Result<nat, Seq<char>> {
    match task_start(s, id) {
        None => Err("unknown Todo: "@ + id),
        Some(start) => {
            let line = line_text(s, start);
            let after = start + line.len();
            let label = seq!['\n'] + spaces(indent_bytes(line) + 2) + "- Children:"@;
            match find_from(s, label, after) {
                None => Err("Todo Children label was not created: "@ + id),
                Some(k) => Ok(byte_len(s.take(k)) + label.len() + 1),
            }
        },
    }
}

/// An ASCII text found at `k` adds its length in bytes.
proof fn lemma_ascii_span(s: Seq<char>, k: int, t: Seq<char>)
    requires
        crate::text::occurs_at(s, t, k),
        forall|i: int| 0 <= i < t.len() ==> (#[trigger] t[i] as u32) < 0x80,
    ensures
        byte_len(s.take(k + t.len())) == byte_len(s.take(k)) + t.len(),
    decreases t.len(),
{
    if t.len() > 0 {
        let t2 = t.drop_last();
        assert(s.subrange(k, k + t2.len()) =~= t2);
        lemma_ascii_span(s, k, t2);
        assert(s.take(k + t.len()) =~= s.take(k + t2.len()).push(s[k + t2.len()]));
        crate::text::lemma_byte_len_push(s.take(k + t2.len()), s[k + t2.len()]);
        assert(s[k + t2.len()] == t[t.len() - 1]);
    }
}

/// Where a Todo's first child task goes (see `children_insertion_spec`).
pub fn todo_children_insertion(source: &str, parent_id: &str) -> (r: Result<usize, String>)
    requires
        byte_len(source@) < usize::MAX,
    ensures
        match children_insertion_spec(source@, parent_id@) {
            Ok(v) => r matches Ok(x) && x as nat == v,
            Err(m) => r matches Err(e) && e@ == m,
        },
{
    let cs = chars_of(source);
    let start = find_task(&cs, parent_id)?;
    let line = line_chars(&cs, start);
    proof {
        lemma_line_inside(cs@, start as int);
    }
    let after = start + line.len();
    let indent = indent_of(&line);
    let mut label = String::new();
    crate::text::push_char(&mut label, '\n');
    push_spaces(&mut label, indent + 2);
    push_str(&mut label, "- Children:");
    let ls = chars_of(label.as_str());
    proof {
        lemma_find_from(cs@, ls@, after as int);
        reveal_strlit("- Children:");
        assert forall|i: int| 0 <= i < ls@.len() implies (#[trigger] ls@[i] as u32) < 0x80 by {
            if i == 0 {
            } else if i < indent + 3 {
                assert(ls@[i] == ' ');
            } else {
                assert(ls@[i] == "- Children:"@[i - indent - 3]);
            }
        }
    }
    match find_chars(&cs, &ls, after) {
        None => {
            let mut m = to_string("Todo Children label was not created: ");
            push_str(&mut m, parent_id);
            Err(m)
        },
        Some(k) => {
            let b = byte_offset(source, &cs, k);
            proof {
                crate::text::lemma_byte_len_mono(cs@, k as int, k + ls@.len());
                assert(cs@.take(cs@.len() as int) =~= cs@);
                crate::text::lemma_byte_len_mono(cs@, k + ls@.len(), cs@.len() as int);
                crate::text::lemma_encoded_len(source@);
            }
            assert(byte_len(cs@.take(k + ls@.len())) == b + ls@.len()) by {
                lemma_ascii_span(cs@, k as int, ls@);
            }
            Ok(b + ls.len() + 1)
        },
    }
}

/// Scanning the lines after a Todo's task line (from position `a`, with `ins` the byte
/// offset reached): `None` once a line is the `- Children:` label; else the byte offset where
/// a label goes, before the first `## ` heading or task indented no deeper than the Todo's.
/// Each line scanned advances the offset by its bytes and one line break.
pub open spec fn children_scan(s: Seq<char>, a: int, ins: nat, indent: nat) -> Option<nat>
    decreases s.len() - a,
{
    if a < 0 || a >= s.len() {
        Some(ins)
    } else {
        let c = line_text(s, a);
        if trim(c) == "- Children:"@ {
            None
        } else if starts_with(c, "## "@) || (starts_with(crate::text::trim_start(c), "- ["@)
            && indent_bytes(c) <= indent) {
            Some(ins)
        } else {
            let e = eol(s, a);
            let next = ins + byte_len(c) + 1;
            if a <= e < s.len() {
                children_scan(s, e + 1, next, indent)
            } else {
                Some(next)
            }
        }
    }
}

/// Where a Todo's `- Children:` label goes, as a byte offset; `None` when it has one.
pub open spec fn children_label_offset(s: Seq<char>, id: Seq<char>) -> Result<Option<nat>, Seq<char>> {
    match task_start(s, id) {
        None => Err("unknown Todo: "@ + id),
        Some(start) => {
            let line = line_text(s, start);
            let after = start + line.len();
            Ok(children_scan(s, after, byte_len(s.take(after)), indent_bytes(line)))
        },
    }
}

/// The character position of the character boundary at byte `b`.
pub open spec fn boundary_index(s: Seq<char>, b: int) -> int {
    choose|k: int| 0 <= k <= s.len() && byte_len(#[trigger] s.take(k)) == b
}

/// The Todo's `- Children:` label added (indented two spaces deeper than its task) where
/// `children_label_offset` puts it; the text as it is when the Todo has one.
pub open spec fn children_label_spec(s: Seq<char>, id: Seq<char>) -> Result<Seq<char>, Seq<char>> {
    match children_label_offset(s, id) {
        Err(m) => Err(m),
        Ok(None) => Ok(s),
        Ok(Some(ins)) => {
            let k = boundary_index(s, ins as int);
            let indent = indent_bytes(line_text(s, task_start(s, id)->Some_0));
            Ok(s.take(k) + seq!['\n'] + spaces(indent) + "  - Children:\n"@ + s.skip(k))
        },
    }
}

/// Where a Todo's `- Children:` label goes (see `children_label_offset`).
pub fn children_label_position(source: &str, parent_id: &str) -> (r: Result<Option<u128>, String>)
    ensures
        match children_label_offset(source@, parent_id@) {
            Ok(v) => r matches Ok(x) && (match x {
                Some(b) => v == Some(b as nat),
                None => v is None,
            }),
            Err(m) => r matches Err(e) && e@ == m,
        },
{
    proof {
        reveal_strlit("- Children:");
        reveal_strlit("## ");
        reveal_strlit("- [");
    }
    let cs = chars_of(source);
    let n = cs.len();
    let start = find_task(&cs, parent_id)?;
    let line = line_chars(&cs, start);
    proof {
        lemma_line_inside(cs@, start as int);
    }
    let after = start + line.len();
    let indent = indent_of(&line);
    let label = crate::text::pattern("- Children:");
    let heading = crate::text::pattern("## ");
    let item = crate::text::pattern("- [");
    let mut ins: u128 = byte_offset(source, &cs, after) as u128;
    proof {
        lemma_byte_len_bound(cs@.take(after as int));
    }
    assert(children_label_offset(source@, parent_id@) == Ok::<Option<nat>, Seq<char>>(
        children_scan(cs@, after as int, byte_len(cs@.take(after as int)), indent as nat),
    ));
    let mut a = after;
    while a < n
        invariant
            after <= a <= n,
            n == cs@.len(),
            label@ == "- Children:"@,
            heading@ == "## "@,
            item@ == "- ["@,
            ins <= 4 * a,
            children_label_offset(source@, parent_id@) == Ok::<Option<nat>, Seq<char>>(
                children_scan(cs@, after as int, byte_len(cs@.take(after as int)), indent as nat),
            ),
            children_scan(cs@, after as int, byte_len(cs@.take(after as int)), indent as nat) == children_scan(
                cs@,
                a as int,
                ins as nat,
                indent as nat,
            ),
        decreases n - a,
    {
        let c = line_chars(&cs, a);
        let (p, q) = crate::text::trim_bounds(&c, 0, c.len());
        assert(c@.subrange(0, c@.len() as int) =~= c@);
        let t = crate::parser::chars_range(&c, p, q);
        assert(c@ == line_text(cs@, a as int));
        assert(t@ == trim(c@));
        if crate::text::chars_eq(&t, &label) {
            assert(children_scan(cs@, a as int, ins as nat, indent as nat) is None);
            return Ok(None);
        }
        let lead = crate::text::skip_ws(&c, 0, c.len());
        let rest = crate::parser::chars_range(&c, lead, c.len());
        assert(rest@ =~= crate::text::trim_start(c@));
        let is_heading = crate::text::matches_at(&c, &heading, 0);
        let is_item = crate::text::matches_at(&rest, &item, 0);
        proof {
            if 3 <= c@.len() {
                assert(c@.subrange(0, 3) =~= c@.take(3));
            }
            if 3 <= rest@.len() {
                assert(rest@.subrange(0, 3) =~= rest@.take(3));
            }
        }
        if is_heading || (is_item && indent_of(&c) <= indent) {
            return Ok(Some(ins));
        }
        let e = line_end(&cs, a);
        let w = line_bytes(&c);
        proof {
            lemma_line_inside(cs@, a as int);
        }
        ins = ins + w + 1;
        if e >= n {
            return Ok(Some(ins));
        }
        a = e + 1;
    }
    Ok(Some(ins))
}

/// The bytes of a line.
fn line_bytes(l: &Vec<char>) -> (n: u128)
    ensures
        n == byte_len(l@),
        n <= 4 * l@.len(),
{
    let mut n: u128 = 0;
    let mut i: usize = 0;
    assert(l@.take(0) =~= Seq::<char>::empty());
    while i < l.len()
        invariant
            i <= l.len(),
            n == byte_len(l@.take(i as int)),
            n <= 4 * i,
        decreases l.len() - i,
    {
        proof {
            assert(l@.take(i + 1) =~= l@.take(i as int).push(l@[i as int]));
            crate::text::lemma_byte_len_push(l@.take(i as int), l@[i as int]);
        }
        n = n + crate::text::utf8_width(l[i]) as u128;
        i += 1;
    }
    assert(l@.take(l@.len() as int) =~= l@);
    n
}

/// The position of the character boundary at byte `b`.
pub(crate) fn index_at_byte(cs: &Vec<char>, b: u128) -> (k: usize)
    requires
        crate::text::is_boundary(cs@, b as int),
    ensures
        k <= cs@.len(),
        byte_len(cs@.take(k as int)) == b,
{
    let ghost w = choose|w: int| 0 <= w <= cs@.len() && byte_len(#[trigger] cs@.take(w)) == b;
    let n = cs.len();
    let mut acc: u128 = 0;
    let mut i: usize = 0;
    assert(cs@.take(0) =~= Seq::<char>::empty());
    while acc < b
        invariant
            i <= w <= cs@.len(),
            n == cs@.len(),
            acc == byte_len(cs@.take(i as int)),
            acc <= b,
            byte_len(cs@.take(w)) == b,
        decreases w - i,
    {
        proof {
            if w == i {
                assert(false);
            }
            assert(cs@.take(i + 1) =~= cs@.take(i as int).push(cs@[i as int]));
            crate::text::lemma_byte_len_push(cs@.take(i as int), cs@[i as int]);
            crate::text::lemma_byte_len_mono(cs@, i + 1, w);
        }
        acc = acc + crate::text::utf8_width(cs[i]) as u128;
        i += 1;
    }
    i
}

/// Adds a Todo's `- Children:` label unless it has one (see `children_label_spec`). The
/// offset where the label goes must fall between characters.
pub fn ensure_children_label(source: &str, parent_id: &str) -> (r: Result<String, String>)
    requires
        children_label_offset(source@, parent_id@) matches Ok(Some(ins)) ==> crate::text::is_boundary(
            source@,
            ins as int,
        ),
    ensures
        match children_label_spec(source@, parent_id@) {
            Ok(t) => r matches Ok(x) && x@ == t,
            Err(m) => r matches Err(e) && e@ == m,
        },
{
    let pos = children_label_position(source, parent_id)?;
    match pos {
        None => Ok(to_string(source)),
        Some(ins) => {
            let cs = chars_of(source);
            let n = cs.len();
            let start = find_task(&cs, parent_id)?;
            let line = line_chars(&cs, start);
            let indent = indent_of(&line);
            let k = index_at_byte(&cs, ins);
            proof {
                let j = boundary_index(cs@, ins as int);
                crate::text::lemma_boundary_unique(cs@, j, k as int);
            }
            let mut out = String::new();
            push_range(&mut out, &cs, 0, k);
            crate::text::push_char(&mut out, '\n');
            push_spaces(&mut out, indent);
            push_str(&mut out, "  - Children:\n");
            push_range(&mut out, &cs, k, n);
            assert(cs@.subrange(0, k as int) =~= cs@.take(k as int));
            assert(cs@.subrange(k as int, n as int) =~= cs@.skip(k as int));
            Ok(out)
        },
    }
}

} // verus!
