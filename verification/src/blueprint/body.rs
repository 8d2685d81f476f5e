//! External, body-shaped content isolated from Blueprint protocol Markdown by a tilde fence.
use vstd::prelude::*;

use crate::text::{
    all_ws, chars_of, has_char, is_ws, join_with, lead_ws, lemma_join_split, lemma_lead_ws_bound,
    lemma_split_concat, lemma_split_join, lemma_split_len, lemma_split_no_sep,
    lemma_trim_empty_iff_all_ws, piece_bounds, push_char, push_range, push_str, ranges_view,
    shifted, split_on, split_ranges, string_of, trim, trim_start,
};

verus! {

/// External, body-shaped content that is isolated from Blueprint protocol Markdown.
#[derive(Clone, Debug, Default, PartialEq, Eq)]
pub struct ExternalBody {
    pub lines: Vec<String>,
}

impl View for ExternalBody {
    type V = Seq<Seq<char>>;

    open spec fn view(&self) -> Seq<Seq<char>> {
        self.lines@.map_values(|l: String| l@)
    }
}

/// `trim_end_matches('\r')`.
pub open spec fn strip_cr(l: Seq<char>) -> Seq<char>
    decreases l.len(),
{
    if l.len() > 0 && l.last() == '\r' {
        strip_cr(l.drop_last())
    } else {
        l
    }
}

/// Number of leading `~`.
pub open spec fn lead_tildes(l: Seq<char>) -> nat
    decreases l.len(),
{
    if l.len() > 0 && l[0] == '~' {
        1 + lead_tildes(l.drop_first())
    } else {
        0
    }
}

/// The longest run of leading tildes over the (left-trimmed) lines.
pub open spec fn longest_tildes(ls: Seq<Seq<char>>) -> nat
    decreases ls.len(),
{
    if ls.len() == 0 {
        0
    } else {
        let a = longest_tildes(ls.drop_last());
        let b = lead_tildes(trim_start(ls.last()));
        if a >= b {
            a
        } else {
            b
        }
    }
}

pub open spec fn tildes(n: nat) -> Seq<char> {
    Seq::new(n, |i: int| '~')
}

/// The fence: one tilde longer than the longest tilde run in the body, and at least three.
pub open spec fn fence_len(ls: Seq<Seq<char>>) -> nat {
    let l = longest_tildes(ls);
    (if l >= 2 {
        l
    } else {
        2
    }) + 1
}

pub open spec fn blank_body(ls: Seq<Seq<char>>) -> bool {
    forall|k: int| 0 <= k < ls.len() ==> all_ws(#[trigger] ls[k])
}

/// The rendered form: fence, lines joined by newlines, fence.
pub open spec fn rendered(ls: Seq<Seq<char>>) -> Seq<char> {
    let f = tildes(fence_len(ls));
    f + seq!['\n'] + join_with(ls, seq!['\n']) + seq!['\n'] + f
}

pub open spec fn is_fence(l: Seq<char>) -> bool {
    l.len() >= 3 && forall|i: int| 0 <= i < l.len() ==> #[trigger] l[i] == '~'
}

/// The first piece at or after `j` that closes the fence `f`.
pub open spec fn closing_piece(ps: Seq<Seq<char>>, f: Seq<char>, j: int) -> Option<int>
    decreases ps.len() - j,
{
    if j < 0 || j >= ps.len() {
        None
    } else if strip_cr(ps[j]) == f {
        Some(j)
    } else {
        closing_piece(ps, f, j + 1)
    }
}

/// Why a fenced body was refused.
pub enum BodyFailure {
    NotFenced,
    Unclosed,
    Blank,
    TrailingContent,
}

/// Reading a fenced body from the start of `s`: the body lines and what follows the closing
/// fence, or why it fails.
pub open spec fn parse_leading_spec(s: Seq<char>, required: bool) -> Result<
    (Seq<Seq<char>>, Seq<char>),
    BodyFailure,
> {
    let ps = split_on(s, '\n');
    let pb = piece_bounds(s, '\n');
    let opening = strip_cr(ps[0]);
    if !is_fence(opening) {
        Err(BodyFailure::NotFenced)
    } else {
        match closing_piece(ps, opening, 1) {
            None => Err(BodyFailure::Unclosed),
            Some(c) => {
                let body = ps.subrange(1, c).map_values(|l: Seq<char>| strip_cr(l));
                if required && blank_body(body) {
                    Err(BodyFailure::Blank)
                } else {
                    let rest = if c + 1 < pb.len() {
                        s.skip(pb[c + 1].0)
                    } else {
                        Seq::<char>::empty()
                    };
                    Ok((body, rest))
                }
            },
        }
    }
}

/// A whole-section body: the fenced body with nothing but whitespace after it.
pub open spec fn parse_spec(s: Seq<char>, required: bool) -> Result<Seq<Seq<char>>, BodyFailure> {
    match parse_leading_spec(s, required) {
        Err(e) => Err(e),
        Ok((body, rest)) => if all_ws(rest) {
            Ok(body)
        } else {
            Err(BodyFailure::TrailingContent)
        },
    }
}

pub open spec fn failure_message(field: Seq<char>, e: BodyFailure) -> Seq<char> {
    match e {
        BodyFailure::NotFenced => field + " must contain one tilde-fenced external body"@,
        BodyFailure::Unclosed => field + " external body fence is not closed"@,
        BodyFailure::Blank => field + " external body must contain non-whitespace content"@,
        BodyFailure::TrailingContent => field
            + " contains protocol content after its external body"@,
    }
}

fn failure(field: &str, e: BodyFailure) -> (m: String)
    ensures
        m@ == failure_message(field@, e),
{
    let mut m = String::new();
    push_str(&mut m, field);
    match e {
        BodyFailure::NotFenced => push_str(&mut m, " must contain one tilde-fenced external body"),
        BodyFailure::Unclosed => push_str(&mut m, " external body fence is not closed"),
        BodyFailure::Blank => push_str(&mut m, " external body must contain non-whitespace content"),
        BodyFailure::TrailingContent => push_str(
            &mut m,
            " contains protocol content after its external body",
        ),
    }
    m
}

/// End of `s[from..to]` once trailing `\r` are removed.
fn strip_cr_end(s: &Vec<char>, from: usize, to: usize) -> (e: usize)
    requires
        from <= to <= s.len(),
    ensures
        from <= e <= to,
        s@.subrange(from as int, e as int) == strip_cr(s@.subrange(from as int, to as int)),
    decreases to - from,
{
    if to > from && s[to - 1] == '\r' {
        assert(s@.subrange(from as int, to as int).drop_last() =~= s@.subrange(
            from as int,
            to - 1,
        ));
        strip_cr_end(s, from, to - 1)
    } else {
        to
    }
}

/// Whether `s[from..to]` holds only tildes.
fn all_tildes(s: &Vec<char>, from: usize, to: usize) -> (b: bool)
    requires
        from <= to <= s.len(),
    ensures
        b == (s@.subrange(from as int, to as int) == tildes((to - from) as nat)),
        b ==> is_fence(s@.subrange(from as int, to as int)) || to - from < 3,
{
    let mut i = from;
    while i < to
        invariant
            from <= i <= to <= s.len(),
            forall|j: int| from <= j < i ==> s@[j] == '~',
        decreases to - i,
    {
        if s[i] != '~' {
            assert(s@.subrange(from as int, to as int)[i - from] == s@[i as int]);
            assert(tildes((to - from) as nat)[i - from] == '~');
            return false;
        }
        i += 1;
    }
    assert(s@.subrange(from as int, to as int) =~= tildes((to - from) as nat)) by {
        assert forall|j: int| 0 <= j < to - from implies s@.subrange(from as int, to as int)[j]
            == '~' by {
            assert(s@.subrange(from as int, to as int)[j] == s@[from + j]);
        }
    }
    true
}

/// Whether the line `s[from..to]`, without trailing carriage returns, is a fence of `width`.
fn closes(s: &Vec<char>, from: usize, to: usize, width: usize) -> (b: bool)
    requires
        from <= to <= s.len(),
    ensures
        b == (strip_cr(s@.subrange(from as int, to as int)) == tildes(width as nat)),
{
    let e = strip_cr_end(s, from, to);
    if e - from != width {
        assert(s@.subrange(from as int, e as int).len() != tildes(width as nat).len());
        return false;
    }
    all_tildes(s, from, e)
}

/// Number of leading tildes of `s[from..to]`.
fn count_lead_tildes(s: &Vec<char>, from: usize, to: usize) -> (n: usize)
    requires
        from <= to <= s.len(),
    ensures
        n == lead_tildes(s@.subrange(from as int, to as int)),
        n <= to - from,
    decreases to - from,
{
    if from < to && s[from] == '~' {
        assert(s@.subrange(from as int, to as int).drop_first() =~= s@.subrange(
            from + 1,
            to as int,
        ));
        1 + count_lead_tildes(s, from + 1, to)
    } else {
        0
    }
}

/// Whether the view of `s[from..to]` is all whitespace.
fn blank_range(s: &Vec<char>, from: usize, to: usize) -> (b: bool)
    requires
        from <= to <= s.len(),
    ensures
        b == all_ws(s@.subrange(from as int, to as int)),
{
    let mut i = from;
    while i < to
        invariant
            from <= i <= to <= s.len(),
            forall|j: int| from <= j < i ==> is_ws(#[trigger] s@[j]),
        decreases to - i,
    {
        if !crate::text::is_whitespace(s[i]) {
            assert(s@.subrange(from as int, to as int)[i - from] == s@[i as int]);
            return false;
        }
        i += 1;
    }
    assert forall|j: int| 0 <= j < to - from implies is_ws(
        #[trigger] s@.subrange(from as int, to as int)[j],
    ) by {
        assert(s@.subrange(from as int, to as int)[j] == s@[from + j]);
    }
    true
}

fn string_blank(l: &String) -> (b: bool)
    ensures
        b == all_ws(l@),
{
    let cs = chars_of(l.as_str());
    assert(cs@.subrange(0, cs.len() as int) =~= cs@);
    blank_range(&cs, 0, cs.len())
}


proof fn lemma_strip_cr_keep(l: Seq<char>)
    requires
        !(l.len() > 0 && l.last() == '\r'),
    ensures
        strip_cr(l) == l,
{
}

proof fn lemma_lead_tildes_of_tildes(n: nat)
    ensures
        lead_tildes(tildes(n)) == n,
    decreases n,
{
    if n > 0 {
        assert(tildes(n).drop_first() =~= tildes((n - 1) as nat));
        lemma_lead_tildes_of_tildes((n - 1) as nat);
    }
}

proof fn lemma_longest_bounds(ls: Seq<Seq<char>>, k: int)
    requires
        0 <= k < ls.len(),
    ensures
        lead_tildes(trim_start(ls[k])) <= longest_tildes(ls),
    decreases ls.len(),
{
    if k < ls.len() - 1 {
        assert(ls.drop_last()[k] == ls[k]);
        lemma_longest_bounds(ls.drop_last(), k);
    }
}

proof fn lemma_closing_at(ps: Seq<Seq<char>>, f: Seq<char>, j: int, c: int)
    requires
        1 <= j <= c < ps.len(),
        forall|i: int| j <= i < c ==> strip_cr(#[trigger] ps[i]) != f,
        strip_cr(ps[c]) == f,
    ensures
        closing_piece(ps, f, j) == Some(c),
    decreases c - j,
{
    if j < c {
        lemma_closing_at(ps, f, j + 1, c);
    }
}

proof fn lemma_piece_bounds_len(s: Seq<char>, sep: char)
    ensures
        piece_bounds(s, sep).len() == split_on(s, sep).len(),
    decreases s.len(),
{
    if s.len() > 0 {
        lemma_piece_bounds_len(s.drop_last(), sep);
        lemma_split_len(s.drop_last(), sep);
    }
}

/// Rendering a body and parsing it back yields the same lines, for every non-blank body whose
/// lines hold no line break and do not end in a carriage return.
pub proof fn lemma_render_parse_round_trip(ls: Seq<Seq<char>>)
    requires
        !blank_body(ls),
        forall|k: int| 0 <= k < ls.len() ==> !has_char(#[trigger] ls[k], '\n'),
        forall|k: int| 0 <= k < ls.len() ==> !(#[trigger] ls[k].len() > 0 && ls[k].last() == '\r'),
    ensures
        parse_spec(rendered(ls), true) == Ok::<Seq<Seq<char>>, BodyFailure>(ls),
{
    let n = fence_len(ls);
    let f = tildes(n);
    let j = join_with(ls, seq!['\n']);
    let r = rendered(ls);
    assert(ls.len() >= 1);
    assert(!has_char(f, '\n'));
    assert(r =~= f + seq!['\n'] + (j + seq!['\n'] + f));
    lemma_split_concat(f, j + seq!['\n'] + f, '\n');
    lemma_split_concat(j, f, '\n');
    lemma_split_join(ls, '\n');
    lemma_split_no_sep(f, '\n');
    let ps = split_on(r, '\n');
    assert(ps =~~= seq![f] + ls + seq![f]);
    assert(ps[0] == f);
    lemma_strip_cr_keep(f);
    assert(is_fence(f));
    let c = ls.len() + 1int;
    assert forall|i: int| 1 <= i < c implies strip_cr(#[trigger] ps[i]) != f by {
        assert(ps[i] == ls[i - 1]);
        lemma_strip_cr_keep(ls[i - 1]);
        lemma_longest_bounds(ls, i - 1);
        if ls[i - 1] == f {
            lemma_lead_ws_bound(f);
            assert(trim_start(f) =~= f);
            lemma_lead_tildes_of_tildes(n);
        }
    }
    assert(ps[c] == f);
    lemma_closing_at(ps, f, 1, c);
    assert(ps.subrange(1, c).map_values(|l: Seq<char>| strip_cr(l)) =~~= ls) by {
        assert forall|i: int| 0 <= i < ls.len() implies ps.subrange(1, c).map_values(
            |l: Seq<char>| strip_cr(l),
        )[i] == ls[i] by {
            assert(ps[i + 1] == ls[i]);
            lemma_strip_cr_keep(ls[i]);
        }
    }
    lemma_piece_bounds_len(r, '\n');
    assert(all_ws(Seq::<char>::empty()));
}

impl ExternalBody {
    pub fn from_text(text: &str) -> (b: Self)
        ensures
            b@ =~~= split_on(text@, '\n'),
    {
        let cs = chars_of(text);
        let rs = split_ranges(&cs, 0, cs.len(), '\n');
        assert(cs@.subrange(0, cs.len() as int) =~= cs@);
        let mut lines: Vec<String> = Vec::new();
        let mut k: usize = 0;
        while k < rs.len()
            invariant
                k <= rs.len(),
                crate::text::ranges_in(cs@, rs@),
                lines@.map_values(|l: String| l@) =~~= ranges_view(cs@, rs@).take(k as int),
            decreases rs.len() - k,
        {
            let (a, b) = rs[k];
            assert(rs@[k as int].0 <= rs@[k as int].1 <= cs.len());
            let l = string_of(&cs, a, b);
            let ghost before = lines@;
            lines.push(l);
            proof {
                assert(ranges_view(cs@, rs@)[k as int] == l@);
                assert(ranges_view(cs@, rs@).take(k + 1) =~~= ranges_view(cs@, rs@).take(
                    k as int,
                ).push(l@));
                assert(lines@ =~= before.push(l));
                assert(lines@.map_values(|l: String| l@) =~~= before.map_values(|l: String| l@).push(
                    l@,
                ));
            }
            k += 1;
        }
        ExternalBody { lines }
    }

    pub fn text(&self) -> (t: String)
        ensures
            t@ == join_with(self@, seq!['\n']),
    {
        let mut t = String::new();
        let mut k: usize = 0;
        while k < self.lines.len()
            invariant
                k <= self.lines.len(),
                t@ == join_with(self@.take(k as int), seq!['\n']),
            decreases self.lines.len() - k,
        {
            let ghost before = t@;
            if k > 0 {
                push_char(&mut t, '\n');
            }
            push_str(&mut t, self.lines[k].as_str());
            proof {
                let taken = self@.take(k + 1);
                assert(taken.drop_last() =~~= self@.take(k as int));
                assert(taken.last() == self.lines@[k as int]@);
                if k == 0 {
                    assert(t@ =~= taken[0]);
                } else {
                    assert(t@ =~= before + seq!['\n'] + taken.last());
                }
            }
            k += 1;
        }
        assert(self@.take(self.lines.len() as int) =~~= self@);
        t
    }

    /// Renders the body inside a tilde fence; the body must hold non-whitespace content.
    pub fn render(&self) -> (r: Result<String, String>)
        ensures
            r matches Ok(s) ==> !blank_body(self@) && s@ == rendered(self@),
            r matches Err(m) ==> blank_body(self@) && m@
                == "external body must contain non-whitespace content"@,
    {
        self.render_with_required(true)
    }

    pub fn render_optional(&self) -> (r: Result<String, String>)
        ensures
            r matches Ok(s) ==> s@ == rendered(self@),
            r is Ok,
    {
        self.render_with_required(false)
    }

    fn render_with_required(&self, required: bool) -> (r: Result<String, String>)
        ensures
            r matches Ok(s) ==> !(required && blank_body(self@)) && s@ == rendered(self@),
            r matches Err(m) ==> required && blank_body(self@) && m@
                == "external body must contain non-whitespace content"@,
    {
        let n = self.lines.len();
        let mut longest: usize = 0;
        let mut any_content = false;
        let mut k: usize = 0;
        while k < n
            invariant
                k <= n == self.lines.len(),
                longest == longest_tildes(self@.take(k as int)),
                any_content == !blank_body(self@.take(k as int)),
            decreases n - k,
        {
            let cs = chars_of(self.lines[k].as_str());
            let start = crate::text::skip_ws(&cs, 0, cs.len());
            assert(cs@.subrange(0, cs.len() as int) =~= cs@);
            let t = count_lead_tildes(&cs, start, cs.len());
            proof {
                let taken = self@.take(k + 1);
                assert(taken.drop_last() =~~= self@.take(k as int));
                assert(taken.last() == cs@);
                assert(trim_start(cs@) =~= cs@.subrange(start as int, cs.len() as int));
            }
            if t > longest {
                longest = t;
            }
            if !blank_range(&cs, 0, cs.len()) {
                any_content = true;
            }
            proof {
                let taken = self@.take(k + 1);
                if !blank_body(self@.take(k as int)) {
                    let j = choose|j: int|
                        0 <= j < k && !all_ws(#[trigger] self@.take(k as int)[j]);
                    assert(taken[j] == self@.take(k as int)[j]);
                }
                if blank_body(self@.take(k as int)) && all_ws(cs@) {
                    assert forall|j: int| 0 <= j < k + 1 implies all_ws(#[trigger] taken[j]) by {
                        if j < k {
                            assert(taken[j] == self@.take(k as int)[j]);
                        }
                    }
                }
                if !all_ws(cs@) {
                    assert(taken[k as int] == cs@);
                }
            }
            k += 1;
        }
        assert(self@.take(n as int) =~~= self@);
        if required && !any_content {
            let mut m = String::new();
            push_str(&mut m, "external body must contain non-whitespace content");
            return Err(m);
        }
        let width = if longest >= 2 {
            longest
        } else {
            2
        };
        let mut fence = String::new();
        let mut i: usize = 0;
        while i < width
            invariant
                i <= width,
                fence@ == tildes(i as nat),
            decreases width - i,
        {
            push_char(&mut fence, '~');
            assert(fence@ =~= tildes((i + 1) as nat));
            i += 1;
        }
        push_char(&mut fence, '~');
        assert(fence@ =~= tildes(fence_len(self@)));
        let mut out = String::new();
        push_str(&mut out, fence.as_str());
        push_char(&mut out, '\n');
        let body = self.text();
        push_str(&mut out, body.as_str());
        push_char(&mut out, '\n');
        push_str(&mut out, fence.as_str());
        Ok(out)
    }

    /// Parses a section body that holds exactly one fenced external body.
    pub fn parse(field: &str, source: &str) -> (r: Result<Self, String>)
        ensures
            r matches Ok(b) ==> parse_spec(source@, true) == Ok::<Seq<Seq<char>>, BodyFailure>(
                b@,
            ),
            r matches Err(m) ==> parse_spec(source@, true) matches Err(e) && m@
                == failure_message(field@, e),
            r is Ok <==> parse_spec(source@, true) is Ok,
    {
        Self::parse_with_required(field, source, true)
    }

    /// As `parse`, but an all-whitespace body is accepted.
    pub fn parse_optional(field: &str, source: &str) -> (r: Result<Self, String>)
        ensures
            r matches Ok(b) ==> parse_spec(source@, false) == Ok::<Seq<Seq<char>>, BodyFailure>(
                b@,
            ),
            r matches Err(m) ==> parse_spec(source@, false) matches Err(e) && m@
                == failure_message(field@, e),
            r is Ok <==> parse_spec(source@, false) is Ok,
    {
        Self::parse_with_required(field, source, false)
    }

    fn parse_with_required(field: &str, source: &str, required: bool) -> (r: Result<Self, String>)
        ensures
            r matches Ok(b) ==> parse_spec(source@, required) == Ok::<
                Seq<Seq<char>>,
                BodyFailure,
            >(b@),
            r matches Err(m) ==> parse_spec(source@, required) matches Err(e) && m@
                == failure_message(field@, e),
            r is Ok <==> parse_spec(source@, required) is Ok,
    {
        let (body, remainder) = Self::parse_leading(field, source, required)?;
        if !string_blank(&remainder) {
            return Err(failure(field, BodyFailure::TrailingContent));
        }
        Ok(body)
    }

    /// Reads the fenced body at the start of `source` and returns it with the text that
    /// follows the closing fence line.
    pub fn parse_leading(field: &str, source: &str, required: bool) -> (r: Result<
        (Self, String),
        String,
    >)
        ensures
            r matches Ok((b, rest)) ==> parse_leading_spec(source@, required) == Ok::<
                (Seq<Seq<char>>, Seq<char>),
                BodyFailure,
            >((b@, rest@)),
            r matches Err(m) ==> parse_leading_spec(source@, required) matches Err(e) && m@
                == failure_message(field@, e),
            r is Ok <==> parse_leading_spec(source@, required) is Ok,
    {
        let cs = chars_of(source);
        let rs = split_ranges(&cs, 0, cs.len(), '\n');
        let ghost ps = split_on(source@, '\n');
        assert(cs@.subrange(0, cs.len() as int) =~= cs@);
        assert(ranges_view(cs@, rs@)[0] == ps[0]);
        let (o0, o1) = rs[0];
        let oe = strip_cr_end(&cs, o0, o1);
        let ghost opening = strip_cr(ps[0]);
        assert(opening == cs@.subrange(o0 as int, oe as int));
        // The opening line: at least three tildes and nothing else.
        if oe - o0 < 3 || !all_tildes(&cs, o0, oe) {
            proof {
                if is_fence(opening) {
                    assert(opening =~= tildes((oe - o0) as nat));
                }
            }
            return Err(failure(field, BodyFailure::NotFenced));
        }
        let width = oe - o0;
        assert(opening =~= tildes(width as nat));
        // The closing line: the first later line equal to the opening one.
        let mut c: usize = 1;
        while c < rs.len() && !closes(&cs, rs[c].0, rs[c].1, width)
            invariant
                1 <= c <= rs.len(),
                crate::text::ranges_in(cs@, rs@),
                ps == ranges_view(cs@, rs@),
                is_fence(opening),
                opening == tildes(width as nat),
                closing_piece(ps, opening, 1) == closing_piece(ps, opening, c as int),
            decreases rs.len() - c,
        {
            assert(ps[c as int] == cs@.subrange(rs@[c as int].0 as int, rs@[c as int].1 as int));
            c += 1;
        }
        if c == rs.len() {
            assert(closing_piece(ps, opening, c as int) is None);
            return Err(failure(field, BodyFailure::Unclosed));
        }
        assert(ps[c as int] == cs@.subrange(rs@[c as int].0 as int, rs@[c as int].1 as int));
        assert(closing_piece(ps, opening, 1) == Some(c as int));
        // The body lines, with trailing carriage returns removed.
        let mut lines: Vec<String> = Vec::new();
        let mut any_content = false;
        let mut k: usize = 1;
        while k < c
            invariant
                1 <= k <= c < rs.len(),
                crate::text::ranges_in(cs@, rs@),
                ps == ranges_view(cs@, rs@),
                lines@.map_values(|l: String| l@) =~~= ps.subrange(1, k as int).map_values(
                    |l: Seq<char>| strip_cr(l),
                ),
                any_content == !blank_body(ps.subrange(1, k as int).map_values(
                    |l: Seq<char>| strip_cr(l),
                )),
            decreases c - k,
        {
            let (a, b) = rs[k];
            let e = strip_cr_end(&cs, a, b);
            assert(ps[k as int] == cs@.subrange(a as int, b as int));
            let line = string_of(&cs, a, e);
            let blank = blank_range(&cs, a, e);
            proof {
                let before = ps.subrange(1, k as int).map_values(|l: Seq<char>| strip_cr(l));
                let after = ps.subrange(1, k + 1).map_values(|l: Seq<char>| strip_cr(l));
                assert(after =~~= before.push(line@));
                if !blank_body(before) {
                    let j = choose|j: int| 0 <= j < before.len() && !all_ws(#[trigger] before[j]);
                    assert(after[j] == before[j]);
                }
                if blank_body(before) && blank {
                    assert forall|j: int| 0 <= j < after.len() implies all_ws(#[trigger] after[j]) by {
                        if j < before.len() {
                            assert(after[j] == before[j]);
                        }
                    }
                }
                if !blank {
                    assert(after[after.len() - 1] == line@);
                }
            }
            lines.push(line);
            if !blank {
                any_content = true;
            }
            k += 1;
        }
        if required && !any_content {
            return Err(failure(field, BodyFailure::Blank));
        }
        let rest_start = if c + 1 < rs.len() {
            rs[c + 1].0
        } else {
            cs.len()
        };
        proof {
            let pb = piece_bounds(source@, '\n');
            assert(shifted(rs@, 0) =~= pb);
            if c + 1 < rs.len() {
                assert(pb[c + 1].0 == rs@[c + 1].0);
            }
        }
        let rest = string_of(&cs, rest_start, cs.len());
        proof {
            if c + 1 < rs.len() {
                assert(rest@ =~= source@.skip(piece_bounds(source@, '\n')[c + 1].0));
            } else {
                assert(rest@ =~= Seq::<char>::empty());
            }
        }
        Ok((ExternalBody { lines }, rest))
    }
}

} // verus!
