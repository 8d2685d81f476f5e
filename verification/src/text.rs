//! Character-level text primitives shared by the Markdown, Blueprint and patch logic.
//!
//! Texts are modelled by their view, a `Seq<char>`; every operation here states its result
//! over that view.
use vstd::prelude::*;
use vstd::string::StringSliceAdditionalSpecFns;

verus! {

/// Unicode `White_Space`, the property behind `char::is_whitespace`.
pub open spec fn is_ws(c: char) -> bool {
    let v = c as u32;
    ||| 0x09 <= v <= 0x0D
    ||| v == 0x20
    ||| v == 0x85
    ||| v == 0xA0
    ||| v == 0x1680
    ||| 0x2000 <= v <= 0x200A
    ||| v == 0x2028
    ||| v == 0x2029
    ||| v == 0x202F
    ||| v == 0x205F
    ||| v == 0x3000
}

pub fn is_whitespace(c: char) -> (b: bool)
    ensures
        b == is_ws(c),
{
    let v = c as u32;
    (0x09 <= v && v <= 0x0D) || v == 0x20 || v == 0x85 || v == 0xA0 || v == 0x1680 || (0x2000
        <= v && v <= 0x200A) || v == 0x2028 || v == 0x2029 || v == 0x202F || v == 0x205F || v
        == 0x3000
}

/// Number of leading whitespace characters.
pub open spec fn lead_ws(s: Seq<char>) -> nat
    decreases s.len(),
{
    if s.len() > 0 && is_ws(s[0]) {
        1 + lead_ws(s.drop_first())
    } else {
        0
    }
}

/// Number of trailing whitespace characters.
pub open spec fn trail_ws(s: Seq<char>) -> nat
    decreases s.len(),
{
    if s.len() > 0 && is_ws(s.last()) {
        1 + trail_ws(s.drop_last())
    } else {
        0
    }
}

pub open spec fn trim_start(s: Seq<char>) -> Seq<char> {
    s.skip(lead_ws(s) as int)
}

pub open spec fn trim_end(s: Seq<char>) -> Seq<char> {
    s.take(s.len() - trail_ws(s))
}

pub open spec fn trim(s: Seq<char>) -> Seq<char> {
    trim_end(trim_start(s))
}

/// Every character is whitespace (so `trim` gives the empty text).
pub open spec fn all_ws(s: Seq<char>) -> bool {
    forall|i: int| 0 <= i < s.len() ==> is_ws(#[trigger] s[i])
}

pub proof fn lemma_lead_ws_bound(s: Seq<char>)
    ensures
        lead_ws(s) <= s.len(),
        forall|j: int| 0 <= j < lead_ws(s) ==> is_ws(#[trigger] s[j]),
        lead_ws(s) < s.len() ==> !is_ws(s[lead_ws(s) as int]),
    decreases s.len(),
{
    if s.len() > 0 && is_ws(s[0]) {
        lemma_lead_ws_bound(s.drop_first());
        assert forall|j: int| 0 <= j < lead_ws(s) implies is_ws(#[trigger] s[j]) by {
            if j > 0 {
                assert(s[j] == s.drop_first()[j - 1]);
            }
        }
    }
}

/// `lead_ws` is the unique position that ends a whitespace prefix.
pub proof fn lemma_lead_ws_char(s: Seq<char>, n: int)
    requires
        0 <= n <= s.len(),
        forall|j: int| 0 <= j < n ==> is_ws(#[trigger] s[j]),
        n == s.len() || !is_ws(s[n]),
    ensures
        lead_ws(s) == n,
    decreases s.len(),
{
    if n > 0 {
        assert forall|j: int| 0 <= j < n - 1 implies is_ws(#[trigger] s.drop_first()[j]) by {
            assert(s.drop_first()[j] == s[j + 1]);
        }
        if n < s.len() {
            assert(s.drop_first()[n - 1] == s[n]);
        }
        lemma_lead_ws_char(s.drop_first(), n - 1);
    }
}

pub proof fn lemma_trail_ws_bound(s: Seq<char>)
    ensures
        trail_ws(s) <= s.len(),
        forall|j: int| s.len() - trail_ws(s) <= j < s.len() ==> is_ws(#[trigger] s[j]),
        trail_ws(s) < s.len() ==> !is_ws(s[s.len() - trail_ws(s) - 1]),
    decreases s.len(),
{
    if s.len() > 0 && is_ws(s.last()) {
        lemma_trail_ws_bound(s.drop_last());
        assert forall|j: int| s.len() - trail_ws(s) <= j < s.len() implies is_ws(
            #[trigger] s[j],
        ) by {
            if j < s.len() - 1 {
                assert(s[j] == s.drop_last()[j]);
            }
        }
        if trail_ws(s) < s.len() {
            assert(s[s.len() - trail_ws(s) - 1] == s.drop_last()[s.drop_last().len() - trail_ws(
                s.drop_last(),
            ) - 1]);
        }
    }
}

pub proof fn lemma_trail_ws_char(s: Seq<char>, n: int)
    requires
        0 <= n <= s.len(),
        forall|j: int| s.len() - n <= j < s.len() ==> is_ws(#[trigger] s[j]),
        n == s.len() || !is_ws(s[s.len() - n - 1]),
    ensures
        trail_ws(s) == n,
    decreases s.len(),
{
    if n > 0 {
        let t = s.drop_last();
        assert forall|j: int| t.len() - (n - 1) <= j < t.len() implies is_ws(#[trigger] t[j]) by {
            assert(t[j] == s[j]);
        }
        if n < s.len() {
            assert(t[t.len() - (n - 1) - 1] == s[s.len() - n - 1]);
        }
        assert(is_ws(s[s.len() - 1]));
        lemma_trail_ws_char(t, n - 1);
    }
}

/// A text is blank exactly when trimming leaves nothing.
pub proof fn lemma_trim_empty_iff_all_ws(s: Seq<char>)
    ensures
        trim(s).len() == 0 <==> all_ws(s),
        trim_start(s).len() == 0 <==> all_ws(s),
{
    lemma_lead_ws_bound(s);
    let t = trim_start(s);
    lemma_trail_ws_bound(t);
    if all_ws(s) {
        lemma_lead_ws_char(s, s.len() as int);
    }
    if trim(s).len() == 0 && t.len() > 0 {
        assert(is_ws(t[0]));
        assert(t[0] == s[lead_ws(s) as int]);
    }
}

/// Index of the first non-whitespace character of `s[from..to]`, or `to`.
pub fn skip_ws(s: &Vec<char>, from: usize, to: usize) -> (n: usize)
    requires
        from <= to <= s.len(),
    ensures
        from <= n <= to,
        forall|j: int| from <= j < n ==> is_ws(#[trigger] s@[j]),
        n < to ==> !is_ws(s@[n as int]),
        lead_ws(s@.subrange(from as int, to as int)) == n - from,
{
    let mut n = from;
    while n < to && is_whitespace(s[n])
        invariant
            from <= n <= to <= s.len(),
            forall|j: int| from <= j < n ==> is_ws(#[trigger] s@[j]),
        decreases to - n,
    {
        n += 1;
    }
    proof {
        let sub = s@.subrange(from as int, to as int);
        assert forall|j: int| 0 <= j < n - from implies is_ws(#[trigger] sub[j]) by {
            assert(sub[j] == s@[from + j]);
        }
        if n < to {
            assert(sub[n - from] == s@[n as int]);
        }
        lemma_lead_ws_char(sub, n - from);
    }
    n
}

/// One past the last non-whitespace character of `s[from..to]`, or `from`.
pub fn skip_ws_back(s: &Vec<char>, from: usize, to: usize) -> (n: usize)
    requires
        from <= to <= s.len(),
    ensures
        from <= n <= to,
        forall|j: int| n <= j < to ==> is_ws(#[trigger] s@[j]),
        n > from ==> !is_ws(s@[n - 1]),
        trail_ws(s@.subrange(from as int, to as int)) == to - n,
{
    let mut n = to;
    while n > from && is_whitespace(s[n - 1])
        invariant
            from <= n <= to <= s.len(),
            forall|j: int| n <= j < to ==> is_ws(#[trigger] s@[j]),
        decreases n - from,
    {
        n -= 1;
    }
    proof {
        let sub = s@.subrange(from as int, to as int);
        assert forall|j: int| sub.len() - (to - n) <= j < sub.len() implies is_ws(
            #[trigger] sub[j],
        ) by {
            assert(sub[j] == s@[from + j]);
        }
        if n > from {
            assert(sub[sub.len() - (to - n) - 1] == s@[n - 1]);
        }
        lemma_trail_ws_char(sub, to - n);
    }
    n
}

/// The bounds `[a, b)` of `trim(s[from..to])` inside `s`.
pub fn trim_bounds(s: &Vec<char>, from: usize, to: usize) -> (r: (usize, usize))
    requires
        from <= to <= s.len(),
    ensures
        from <= r.0 <= r.1 <= to,
        s@.subrange(r.0 as int, r.1 as int) == trim(s@.subrange(from as int, to as int)),
{
    let a = skip_ws(s, from, to);
    let b = skip_ws_back(s, a, to);
    proof {
        let sub = s@.subrange(from as int, to as int);
        let t = trim_start(sub);
        assert(t =~= s@.subrange(a as int, to as int));
        assert(trim_end(t) =~= s@.subrange(a as int, b as int));
    }
    (a, b)
}

/// Builds a `String` whose view is exactly `s[from..to]`.
pub fn string_of(s: &Vec<char>, from: usize, to: usize) -> (out: String)
    requires
        from <= to <= s.len(),
    ensures
        out@ == s@.subrange(from as int, to as int),
{
    let mut out = String::new();
    let mut i = from;
    while i < to
        invariant
            from <= i <= to <= s.len(),
            out@ == s@.subrange(from as int, i as int),
        decreases to - i,
    {
        push_char(&mut out, s[i]);
        assert(s@.subrange(from as int, i + 1) =~= s@.subrange(from as int, i as int).push(
            s@[i as int],
        ));
        i += 1;
    }
    out
}

/// `String::push` from std: appends one character.
#[verifier::external_body]
pub(crate) fn push_char(s: &mut String, c: char)
    ensures
        final(s)@ == old(s)@.push(c),
{
    s.push(c);
}

/// The characters of a string slice, in order.
pub fn chars_of(s: &str) -> (out: Vec<char>)
    ensures
        out@ == s@,
{
    let mut out: Vec<char> = Vec::new();
    for c in it: s.chars()
        invariant
            out@ == it.seq().take(it.index() as int),
    {
        out.push(c);
    }
    assert(out@ =~= s@);
    out
}

/// Appends the characters of `t` to `s`.
pub fn push_str(s: &mut String, t: &str)
    ensures
        final(s)@ == old(s)@ + t@,
{
    let cs = chars_of(t);
    let mut i: usize = 0;
    while i < cs.len()
        invariant
            i <= cs.len(),
            cs@ == t@,
            s@ == old(s)@ + cs@.take(i as int),
        decreases cs.len() - i,
    {
        push_char(s, cs[i]);
        assert(cs@.take(i + 1) =~= cs@.take(i as int).push(cs@[i as int]));
        i += 1;
    }
    assert(cs@.take(cs.len() as int) =~= cs@);
}

/// Appends `t[from..to]` to `s`.
pub fn push_range(s: &mut String, t: &Vec<char>, from: usize, to: usize)
    requires
        from <= to <= t.len(),
    ensures
        final(s)@ == old(s)@ + t@.subrange(from as int, to as int),
{
    let mut i = from;
    while i < to
        invariant
            from <= i <= to <= t.len(),
            s@ == old(s)@ + t@.subrange(from as int, i as int),
        decreases to - i,
    {
        push_char(s, t[i]);
        assert(t@.subrange(from as int, i + 1) =~= t@.subrange(from as int, i as int).push(
            t@[i as int],
        ));
        i += 1;
    }
}

/// `n` occurs in `h` at position `i`.
pub open spec fn occurs_at<A>(h: Seq<A>, n: Seq<A>, i: int) -> bool {
    0 <= i && i + n.len() <= h.len() && h.subrange(i, i + n.len()) == n
}

/// The first position at or after `i` where `n` occurs in `h`.
pub open spec fn find_from<A>(h: Seq<A>, n: Seq<A>, i: int) -> Option<int>
    decreases h.len() + 1 - i,
{
    if i < 0 || i + n.len() > h.len() {
        None
    } else if occurs_at(h, n, i) {
        Some(i)
    } else {
        find_from(h, n, i + 1)
    }
}

pub proof fn lemma_find_from<A>(h: Seq<A>, n: Seq<A>, i: int)
    requires
        0 <= i,
    ensures
        find_from(h, n, i) matches Some(k) ==> i <= k && occurs_at(h, n, k) && forall|j: int|
            i <= j < k ==> !occurs_at(h, n, j),
        find_from(h, n, i) is None ==> forall|j: int| i <= j ==> !occurs_at(h, n, j),
    decreases h.len() + 1 - i,
{
    if i + n.len() <= h.len() && !occurs_at(h, n, i) {
        lemma_find_from(h, n, i + 1);
    }
}

/// Whether `n` occurs in `h` at position `i` (checked character by character).
pub fn matches_at(h: &Vec<char>, n: &Vec<char>, i: usize) -> (b: bool)
    ensures
        b == occurs_at(h@, n@, i as int),
{
    if n.len() > h.len() || i > h.len() - n.len() {
        return false;
    }
    let mut k: usize = 0;
    while k < n.len()
        invariant
            i + n.len() <= h.len(),
            k <= n.len(),
            forall|j: int| 0 <= j < k ==> h@[i + j] == n@[j],
        decreases n.len() - k,
    {
        if h[i + k] != n[k] {
            assert(h@.subrange(i as int, i + n.len())[k as int] != n@[k as int]);
            return false;
        }
        k += 1;
    }
    assert(h@.subrange(i as int, i + n.len()) =~= n@);
    true
}

/// The first occurrence of `n` in `h` at or after `from`.
pub fn find_chars(h: &Vec<char>, n: &Vec<char>, from: usize) -> (r: Option<usize>)
    ensures
        r matches Some(k) ==> find_from(h@, n@, from as int) == Some(k as int),
        r is None ==> find_from(h@, n@, from as int) is None,
{
    let mut i = from;
    if n.len() > h.len() {
        proof { lemma_find_none_past(h@, n@, from as int) }
        return None;
    }
    while i <= h.len() - n.len()
        invariant
            from <= i,
            n.len() <= h.len(),
            find_from(h@, n@, from as int) == find_from(h@, n@, i as int),
        decreases h.len() + 1 - i,
    {
        if matches_at(h, n, i) {
            return Some(i);
        }
        if i == h.len() - n.len() {
            assert(find_from(h@, n@, i + 1) is None);
            return None;
        }
        i += 1;
    }
    None
}

proof fn lemma_find_none_past<A>(h: Seq<A>, n: Seq<A>, i: int)
    requires
        n.len() > h.len(),
    ensures
        find_from(h, n, i) is None,
{
}

/// Whether `n` occurs in `h` at position `i` (checked byte by byte).
pub fn bytes_match_at(h: &[u8], n: &[u8], i: usize) -> (b: bool)
    ensures
        b == occurs_at(h@, n@, i as int),
{
    if n.len() > h.len() || i > h.len() - n.len() {
        return false;
    }
    let mut k: usize = 0;
    while k < n.len()
        invariant
            i + n.len() <= h.len(),
            k <= n.len(),
            forall|j: int| 0 <= j < k ==> h@[i + j] == n@[j],
        decreases n.len() - k,
    {
        if h[i + k] != n[k] {
            assert(h@.subrange(i as int, i + n.len())[k as int] != n@[k as int]);
            return false;
        }
        k += 1;
    }
    assert(h@.subrange(i as int, i + n.len()) =~= n@);
    true
}

/// The first occurrence of the bytes `n` in `h` at or after `from`.
pub fn find_bytes(h: &[u8], n: &[u8], from: usize) -> (r: Option<usize>)
    ensures
        r matches Some(k) ==> find_from(h@, n@, from as int) == Some(k as int),
        r is None ==> find_from(h@, n@, from as int) is None,
{
    let mut i = from;
    if n.len() > h.len() {
        proof { lemma_find_none_past(h@, n@, from as int) }
        return None;
    }
    while i <= h.len() - n.len()
        invariant
            from <= i,
            n.len() <= h.len(),
            find_from(h@, n@, from as int) == find_from(h@, n@, i as int),
        decreases h.len() + 1 - i,
    {
        if bytes_match_at(h, n, i) {
            return Some(i);
        }
        if i == h.len() - n.len() {
            assert(find_from(h@, n@, i + 1) is None);
            return None;
        }
        i += 1;
    }
    None
}

/// The text of a string literal or slice as a `Vec<char>` (for patterns).
pub fn pattern(s: &str) -> (out: Vec<char>)
    ensures
        out@ == s@,
{
    chars_of(s)
}


/// The pieces of `s` between occurrences of `sep` (`str::split` with a character): always at
/// least one piece, none of which contains `sep`.
pub open spec fn split_on(s: Seq<char>, sep: char) -> Seq<Seq<char>>
    decreases s.len(),
{
    if s.len() == 0 {
        seq![Seq::<char>::empty()]
    } else {
        let p = split_on(s.drop_last(), sep);
        if s.last() == sep {
            p.push(Seq::<char>::empty())
        } else {
            p.update(p.len() - 1, p.last().push(s.last()))
        }
    }
}

/// The pieces joined with `sep` between consecutive pieces (`[..].join(sep)`).
pub open spec fn join_with(ls: Seq<Seq<char>>, sep: Seq<char>) -> Seq<char>
    decreases ls.len(),
{
    if ls.len() == 0 {
        Seq::<char>::empty()
    } else if ls.len() == 1 {
        ls[0]
    } else {
        join_with(ls.drop_last(), sep) + sep + ls.last()
    }
}

pub open spec fn has_char(s: Seq<char>, c: char) -> bool {
    exists|i: int| 0 <= i < s.len() && s[i] == c
}

/// The views of the ranges `[a, b)` of `s`, in order.
pub open spec fn ranges_view(s: Seq<char>, rs: Seq<(usize, usize)>) -> Seq<Seq<char>> {
    Seq::new(rs.len(), |k: int| s.subrange(rs[k].0 as int, rs[k].1 as int))
}

pub open spec fn ranges_in(s: Seq<char>, rs: Seq<(usize, usize)>) -> bool {
    forall|k: int| 0 <= k < rs.len() ==> #[trigger] rs[k].0 <= rs[k].1 <= s.len()
}

pub proof fn lemma_split_len(s: Seq<char>, sep: char)
    ensures
        split_on(s, sep).len() >= 1,
    decreases s.len(),
{
    if s.len() > 0 {
        lemma_split_len(s.drop_last(), sep);
    }
}

pub proof fn lemma_split_no_sep(s: Seq<char>, sep: char)
    requires
        !has_char(s, sep),
    ensures
        split_on(s, sep) =~~= seq![s],
    decreases s.len(),
{
    if s.len() > 0 {
        assert(!has_char(s.drop_last(), sep)) by {
            if has_char(s.drop_last(), sep) {
                let i = choose|i: int| 0 <= i < s.drop_last().len() && s.drop_last()[i] == sep;
                assert(s[i] == sep);
            }
        }
        lemma_split_no_sep(s.drop_last(), sep);
        assert(s.last() != sep);
        assert(s.drop_last().push(s.last()) =~= s);
    }
}

/// Splitting at a separator splits both sides independently.
pub proof fn lemma_split_concat(a: Seq<char>, b: Seq<char>, sep: char)
    ensures
        split_on(a + seq![sep] + b, sep) =~~= split_on(a, sep) + split_on(b, sep),
    decreases b.len(),
{
    let ab = a + seq![sep] + b;
    lemma_split_len(a, sep);
    if b.len() == 0 {
        assert(ab.drop_last() =~= a);
        assert(ab.last() == sep);
    } else {
        assert(ab.drop_last() =~= a + seq![sep] + b.drop_last());
        assert(ab.last() == b.last());
        lemma_split_concat(a, b.drop_last(), sep);
        lemma_split_len(b.drop_last(), sep);
    }
}

/// Splitting a join of separator-free pieces gives the pieces back.
pub proof fn lemma_split_join(ls: Seq<Seq<char>>, sep: char)
    requires
        ls.len() >= 1,
        forall|k: int| 0 <= k < ls.len() ==> !has_char(#[trigger] ls[k], sep),
    ensures
        split_on(join_with(ls, seq![sep]), sep) =~~= ls,
    decreases ls.len(),
{
    if ls.len() == 1 {
        lemma_split_no_sep(ls[0], sep);
    } else {
        lemma_split_join(ls.drop_last(), sep);
        lemma_split_concat(join_with(ls.drop_last(), seq![sep]), ls.last(), sep);
        lemma_split_no_sep(ls.last(), sep);
        assert(ls.drop_last().push(ls.last()) =~~= ls);
    }
}

/// Joining the pieces of a split gives the text back.
pub proof fn lemma_join_split(s: Seq<char>, sep: char)
    ensures
        join_with(split_on(s, sep), seq![sep]) =~= s,
        forall|k: int| 0 <= k < split_on(s, sep).len() ==> !has_char(#[trigger] split_on(s, sep)[k], sep),
    decreases s.len(),
{
    lemma_split_len(s, sep);
    if s.len() > 0 {
        let t = s.drop_last();
        let p = split_on(t, sep);
        lemma_join_split(t, sep);
        lemma_split_len(t, sep);
        if s.last() == sep {
            assert(p.push(Seq::<char>::empty()).drop_last() =~~= p);
            assert(t.push(sep) =~= s);
        } else {
            let q = p.update(p.len() - 1, p.last().push(s.last()));
            assert(q.drop_last() =~~= p.drop_last());
            if p.len() > 1 {
                assert(join_with(p, seq![sep]) == join_with(p.drop_last(), seq![sep]) + seq![sep] + p.last());
            }
            assert(t.push(s.last()) =~= s);
            assert forall|k: int| 0 <= k < q.len() implies !has_char(#[trigger] q[k], sep) by {
                if k == q.len() - 1 {
                    if has_char(q[k], sep) {
                        let i = choose|i: int| 0 <= i < q[k].len() && q[k][i] == sep;
                        if i < p.last().len() {
                            assert(p.last()[i] == sep);
                            assert(has_char(p[p.len() - 1], sep));
                        }
                    }
                }
            }
        }
    }
}

/// The boundaries `[start, end)` of the pieces of `split_on(s, sep)`.
pub open spec fn piece_bounds(s: Seq<char>, sep: char) -> Seq<(int, int)>
    decreases s.len(),
{
    if s.len() == 0 {
        seq![(0int, 0int)]
    } else {
        let p = piece_bounds(s.drop_last(), sep);
        if s.last() == sep {
            p.push((s.len() as int, s.len() as int))
        } else {
            p.update(p.len() - 1, (p.last().0, s.len() as int))
        }
    }
}

pub open spec fn shifted(rs: Seq<(usize, usize)>, from: int) -> Seq<(int, int)> {
    Seq::new(rs.len(), |k: int| (rs[k].0 - from, rs[k].1 - from))
}

/// The boundaries of the pieces of `s[from..to]` split at `sep`.
pub fn split_ranges(s: &Vec<char>, from: usize, to: usize, sep: char) -> (rs: Vec<(usize, usize)>)
    requires
        from <= to <= s.len(),
    ensures
        ranges_in(s@, rs@),
        ranges_view(s@, rs@) =~~= split_on(s@.subrange(from as int, to as int), sep),
        shifted(rs@, from as int) =~= piece_bounds(s@.subrange(from as int, to as int), sep),
        forall|k: int| 0 <= k < rs.len() ==> from <= #[trigger] rs@[k].0,
        rs.len() >= 1,
{
    let mut rs: Vec<(usize, usize)> = Vec::new();
    let mut start = from;
    let mut i = from;
    while i < to
        invariant
            from <= start <= i <= to <= s.len(),
            ranges_in(s@, rs@),
            forall|k: int| 0 <= k < rs.len() ==> from <= #[trigger] rs@[k].0,
            split_on(s@.subrange(from as int, i as int), sep) =~~= ranges_view(s@, rs@).push(
                s@.subrange(start as int, i as int),
            ),
            piece_bounds(s@.subrange(from as int, i as int), sep) =~= shifted(rs@, from as int).push(
                (start - from, i - from),
            ),
        decreases to - i,
    {
        let ghost old_rs = rs@;
        let ghost sub = s@.subrange(from as int, i + 1);
        assert(sub.drop_last() =~= s@.subrange(from as int, i as int));
        assert(sub.last() == s@[i as int]);
        if s[i] == sep {
            rs.push((start, i));
            assert(ranges_view(s@, rs@) =~~= ranges_view(s@, old_rs).push(
                s@.subrange(start as int, i as int),
            ));
            assert(shifted(rs@, from as int) =~= shifted(old_rs, from as int).push(
                (start - from, i - from),
            ));
            start = i + 1;
            assert(s@.subrange(start as int, i + 1) =~= Seq::<char>::empty());
        } else {
            assert(s@.subrange(start as int, i + 1) =~= s@.subrange(start as int, i as int).push(
                s@[i as int],
            ));
        }
        i += 1;
    }
    let ghost before = rs@;
    rs.push((start, to));
    assert(ranges_view(s@, rs@) =~~= ranges_view(s@, before).push(
        s@.subrange(start as int, to as int),
    ));
    assert(shifted(rs@, from as int) =~= shifted(before, from as int).push((start - from, to - from)));
    rs
}

/// Whether two character sequences are equal (element by element).
pub fn chars_eq(a: &Vec<char>, b: &Vec<char>) -> (r: bool)
    ensures
        r == (a@ == b@),
{
    if a.len() != b.len() {
        return false;
    }
    let mut i: usize = 0;
    while i < a.len()
        invariant
            a.len() == b.len(),
            i <= a.len(),
            forall|j: int| 0 <= j < i ==> a@[j] == b@[j],
        decreases a.len() - i,
    {
        if a[i] != b[i] {
            return false;
        }
        i += 1;
    }
    assert(a@ =~= b@);
    true
}

/// Whether two string slices hold the same characters.
pub fn str_eq(a: &str, b: &str) -> (r: bool)
    ensures
        r == (a@ == b@),
{
    let x = chars_of(a);
    let y = chars_of(b);
    chars_eq(&x, &y)
}

/// A fresh `String` holding the characters of `s`.
pub fn to_string(s: &str) -> (r: String)
    ensures
        r@ == s@,
{
    let mut r = String::new();
    push_str(&mut r, s);
    assert(r@ =~= s@);
    r
}

/// The number of bytes of the character's UTF-8 encoding.
pub open spec fn char_width(c: char) -> nat {
    let v = c as u32;
    if v < 0x80 {
        1
    } else if v < 0x800 {
        2
    } else if v < 0x10000 {
        3
    } else {
        4
    }
}

/// The number of bytes of the text's UTF-8 encoding.
pub open spec fn byte_len(s: Seq<char>) -> nat
    decreases s.len(),
{
    if s.len() == 0 {
        0
    } else {
        byte_len(s.drop_last()) + char_width(s.last())
    }
}

/// `byte` is the byte offset of a character of `s`, or of its end.
pub open spec fn is_boundary(s: Seq<char>, byte: int) -> bool {
    exists|k: int| 0 <= k <= s.len() && byte_len(#[trigger] s.take(k)) == byte
}

/// The number of characters of `s` that start before byte offset `byte`.
pub open spec fn chars_before(s: Seq<char>, byte: int) -> nat
    decreases s.len(),
{
    if s.len() == 0 {
        0
    } else if byte_len(s.drop_last()) < byte {
        s.len()
    } else {
        chars_before(s.drop_last(), byte)
    }
}

pub fn utf8_width(c: char) -> (w: usize)
    ensures
        w == char_width(c),
        1 <= w <= 4,
{
    let v = c as u32;
    if v < 0x80 {
        1
    } else if v < 0x800 {
        2
    } else if v < 0x10000 {
        3
    } else {
        4
    }
}

pub proof fn lemma_byte_len_push(s: Seq<char>, c: char)
    ensures
        byte_len(s.push(c)) == byte_len(s) + char_width(c),
{
    assert(s.push(c).drop_last() =~= s);
}

pub proof fn lemma_byte_len_mono(s: Seq<char>, i: int, j: int)
    requires
        0 <= i <= j <= s.len(),
    ensures
        byte_len(s.take(i)) + (j - i) <= byte_len(s.take(j)),
        i < j ==> byte_len(s.take(i)) < byte_len(s.take(j)),
    decreases j - i,
{
    if i < j {
        lemma_byte_len_mono(s, i, j - 1);
        assert(s.take(j).drop_last() =~= s.take(j - 1));
    }
}

/// Boundaries are met in order: the boundary at byte `b` is the `k`-th one exactly.
pub proof fn lemma_boundary_unique(s: Seq<char>, k: int, m: int)
    requires
        0 <= k <= s.len(),
        0 <= m <= s.len(),
        byte_len(s.take(k)) == byte_len(s.take(m)),
    ensures
        k == m,
{
    if k < m {
        lemma_byte_len_mono(s, k, m);
    } else if m < k {
        lemma_byte_len_mono(s, m, k);
    }
}

/// The decimal digits of `n`.
pub open spec fn decimal(n: nat) -> Seq<char>
    decreases n,
{
    if n < 10 {
        seq![digit_char((n % 10) as nat)]
    } else {
        decimal(n / 10).push(digit_char((n % 10) as nat))
    }
}

pub open spec fn digit_char(d: nat) -> char {
    if d == 0 {
        '0'
    } else if d == 1 {
        '1'
    } else if d == 2 {
        '2'
    } else if d == 3 {
        '3'
    } else if d == 4 {
        '4'
    } else if d == 5 {
        '5'
    } else if d == 6 {
        '6'
    } else if d == 7 {
        '7'
    } else if d == 8 {
        '8'
    } else {
        '9'
    }
}

fn digit(d: u128) -> (c: char)
    requires
        d < 10,
    ensures
        c == digit_char(d as nat),
{
    if d == 0 {
        '0'
    } else if d == 1 {
        '1'
    } else if d == 2 {
        '2'
    } else if d == 3 {
        '3'
    } else if d == 4 {
        '4'
    } else if d == 5 {
        '5'
    } else if d == 6 {
        '6'
    } else if d == 7 {
        '7'
    } else if d == 8 {
        '8'
    } else {
        '9'
    }
}

/// Appends the decimal digits of `n`.
pub fn push_decimal(s: &mut String, n: u128)
    ensures
        final(s)@ == old(s)@ + decimal(n as nat),
    decreases n,
{
    if n >= 10 {
        push_decimal(s, n / 10);
    }
    push_char(s, digit(n % 10));
}

/// The line without the one carriage return that may end it.
pub open spec fn without_cr(l: Seq<char>) -> Seq<char> {
    if l.len() > 0 && l.last() == '\r' {
        l.drop_last()
    } else {
        l
    }
}

/// `str::lines`: the pieces between newlines, each without the carriage return of a `\r\n`;
/// a last empty piece (after a final newline, or of an empty text) is no line.
pub open spec fn lines_spec(s: Seq<char>) -> Seq<Seq<char>> {
    let ps = split_on(s, '\n');
    let m = ps.len() - 1;
    let head = Seq::new(m as nat, |k: int| without_cr(ps[k]));
    if ps[m].len() == 0 {
        head
    } else {
        head.push(ps[m])
    }
}

/// The bounds of the lines of `s` (see `lines_spec`).
pub fn line_bounds(s: &Vec<char>) -> (r: Vec<(usize, usize)>)
    ensures
        ranges_in(s@, r@),
        ranges_view(s@, r@) == lines_spec(s@),
{
    let rs = split_ranges(s, 0, s.len(), '\n');
    assert(s@.subrange(0, s.len() as int) =~= s@);
    let ghost ps = split_on(s@, '\n');
    let m = rs.len() - 1;
    let ghost head = Seq::new(m as nat, |k: int| without_cr(ps[k]));
    let mut r: Vec<(usize, usize)> = Vec::new();
    let mut k: usize = 0;
    while k < m
        invariant
            k <= m,
            m + 1 == rs.len(),
            ranges_in(s@, rs@),
            ranges_view(s@, rs@) =~~= ps,
            head == Seq::new(m as nat, |q: int| without_cr(ps[q])),
            ranges_in(s@, r@),
            r.len() == k,
            ranges_view(s@, r@) =~= head.take(k as int),
        decreases m - k,
    {
        let (a, b) = rs[k];
        assert(rs@[k as int].0 <= rs@[k as int].1 <= s.len());
        let e = if b > a && s[b - 1] == '\r' {
            b - 1
        } else {
            b
        };
        proof {
            assert(ps[k as int] =~= s@.subrange(a as int, b as int));
            if b > a && s@[b - 1] == '\r' {
                assert(s@.subrange(a as int, b as int).drop_last() =~= s@.subrange(a as int, e as int));
            }
            assert(head[k as int] =~= s@.subrange(a as int, e as int));
        }
        let ghost before = r@;
        r.push((a, e));
        proof {
            assert forall|q: int| 0 <= q < r@.len() implies ranges_view(s@, r@)[q] == head.take(k + 1)[q] by {
                if q < k {
                    assert(r@[q] == before[q]);
                    assert(ranges_view(s@, before)[q] == head.take(k as int)[q]);
                } else {
                    assert(r@[q] == (a, e));
                }
            }
        }
        assert(ranges_view(s@, r@) =~= head.take(k + 1));
        k += 1;
    }
    assert(head.take(m as int) =~= head);
    let (a, b) = rs[m];
    assert(rs@[m as int].0 <= rs@[m as int].1 <= s.len());
    assert(ps[m as int] =~= s@.subrange(a as int, b as int));
    if a < b {
        let ghost before = r@;
        r.push((a, b));
        proof {
            assert forall|q: int| 0 <= q < r@.len() implies ranges_view(s@, r@)[q] == head.push(ps[m as int])[q] by {
                if q < m {
                    assert(r@[q] == before[q]);
                    assert(ranges_view(s@, before)[q] == head[q]);
                } else {
                    assert(r@[q] == (a, b));
                }
            }
        }
        assert(ranges_view(s@, r@) =~= head.push(ps[m as int]));
    }
    r
}

proof fn lemma_byte_len_prepend(c: char, s: Seq<char>)
    ensures
        byte_len(seq![c] + s) == char_width(c) + byte_len(s),
    decreases s.len(),
{
    if s.len() > 0 {
        assert((seq![c] + s).drop_last() =~= seq![c] + s.drop_last());
        assert((seq![c] + s).last() == s.last());
        lemma_byte_len_prepend(c, s.drop_last());
        assert(byte_len(seq![c] + s) == byte_len((seq![c] + s).drop_last()) + char_width((seq![c] + s).last()));
        assert(byte_len(s) == byte_len(s.drop_last()) + char_width(s.last()));
    } else {
        assert(seq![c] + s =~= seq![c]);
        assert(seq![c].drop_last() =~= Seq::<char>::empty());
        assert(byte_len(Seq::<char>::empty()) == 0);
        assert(byte_len(seq![c]) == byte_len(seq![c].drop_last()) + char_width(c));
    }
}

proof fn lemma_scalar_width(c: char)
    ensures
        vstd::utf8::encode_scalar(c as u32).len() == char_width(c),
{
    vstd::utf8::char_is_scalar(c);
}

/// The UTF-8 encoding of a text has `byte_len` bytes.
pub proof fn lemma_encoded_len(s: Seq<char>)
    ensures
        vstd::utf8::encode_utf8(s).len() == byte_len(s),
    decreases s.len(),
{
    if s.len() > 0 {
        lemma_encoded_len(s.drop_first());
        lemma_scalar_width(s[0]);
        assert(s =~= seq![s[0]] + s.drop_first());
        lemma_byte_len_prepend(s[0], s.drop_first());
    }
}

/// The number of bytes of the text.
pub fn str_byte_len(s: &str) -> (n: usize)
    ensures
        n == byte_len(s@),
{
    let b: &[u8] = s.as_bytes();
    proof {
        lemma_encoded_len(s@);
    }
    b.len()
}

/// What std's `Utf8Error::error_len` gives for bytes that are not valid UTF-8: `None` when
/// the input ends inside a sequence, else the length of the invalid sequence that starts at
/// `utf8_valid_up_to`.
pub uninterp spec fn utf8_error_len(bytes: Seq<u8>) -> Option<u8>;

/// What std's `Utf8Error::valid_up_to` gives: the largest length of a prefix of the bytes that
/// is valid UTF-8.
pub open spec fn utf8_valid_up_to(bytes: Seq<u8>) -> int {
    choose|k: int|
        0 <= k <= bytes.len() && vstd::utf8::valid_utf8(bytes.take(k)) && forall|j: int|
            k < j <= bytes.len() ==> !vstd::utf8::valid_utf8(#[trigger] bytes.take(j))
}

/// The `Display` text of std's `Utf8Error` with the given `error_len` and `valid_up_to`.
pub open spec fn utf8_error_message(error_len: Option<u8>, valid_up_to: int) -> Seq<char> {
    match error_len {
        Some(n) => "invalid utf-8 sequence of "@ + decimal(n as nat) + " bytes from index "@ + decimal(
            valid_up_to as nat,
        ),
        None => "incomplete utf-8 byte sequence from index "@ + decimal(valid_up_to as nat),
    }
}

/// The text of std's `FromUtf8Error` (the `Display` of its `Utf8Error`) for bytes that are not
/// valid UTF-8.
pub open spec fn utf8_error_text(bytes: Seq<u8>) -> Seq<char> {
    utf8_error_message(utf8_error_len(bytes), utf8_valid_up_to(bytes))
}

/// `String::from_utf8` from std: the text that the bytes encode, or, when they are not valid
/// UTF-8, the error's text (std documents `valid_up_to` as the largest valid prefix; the length
/// of the invalid sequence is named by `utf8_error_len`).
#[verifier::external_body]
pub(crate) fn string_from_utf8(bytes: Vec<u8>) -> (r: Result<String, String>)
    ensures
        r is Ok <==> vstd::utf8::valid_utf8(bytes@),
        r matches Ok(s) ==> s@ == vstd::utf8::decode_utf8(bytes@),
        r matches Err(e) ==> e@ == utf8_error_message(utf8_error_len(bytes@), utf8_valid_up_to(bytes@)),
{
    String::from_utf8(bytes).map_err(|error| error.to_string())
}

} // verus!
