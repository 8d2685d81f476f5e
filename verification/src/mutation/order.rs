//! The order of note paths: character by character, by code point, a proper prefix first
//! (the order of their UTF-8 bytes); and lists kept sorted in it.
use vstd::prelude::*;

use crate::mutation::history::{ChangeView, FileChange, texts};
use crate::text::chars_of;

verus! {

/// `a` comes before `b`.
pub open spec fn lex_less(a: Seq<char>, b: Seq<char>) -> bool
    decreases a.len(),
{
    if a.len() == 0 {
        b.len() > 0
    } else if b.len() == 0 {
        false
    } else if a[0] != b[0] {
        a[0] < b[0]
    } else {
        lex_less(a.drop_first(), b.drop_first())
    }
}

/// Each text comes before the next.
pub open spec fn sorted_texts(s: Seq<Seq<char>>) -> bool {
    forall|i: int, j: int| 0 <= i < j < s.len() ==> lex_less(s[i], s[j])
}

pub proof fn lemma_less_irreflexive(a: Seq<char>)
    ensures
        !lex_less(a, a),
    decreases a.len(),
{
    if a.len() > 0 {
        lemma_less_irreflexive(a.drop_first());
    }
}

/// Two different texts are ordered one way or the other, and never both ways.
pub proof fn lemma_less_total(a: Seq<char>, b: Seq<char>)
    ensures
        a != b ==> lex_less(a, b) || lex_less(b, a),
        !(lex_less(a, b) && lex_less(b, a)),
    decreases a.len(),
{
    if a.len() > 0 && b.len() > 0 {
        if a[0] == b[0] {
            lemma_less_total(a.drop_first(), b.drop_first());
            if a != b {
                assert(a =~= seq![a[0]] + a.drop_first());
                assert(b =~= seq![b[0]] + b.drop_first());
            }
        }
    } else if a.len() == 0 && b.len() == 0 {
        assert(a =~= b);
    }
}

pub proof fn lemma_less_transitive(a: Seq<char>, b: Seq<char>, c: Seq<char>)
    requires
        lex_less(a, b),
        lex_less(b, c),
    ensures
        lex_less(a, c),
    decreases a.len(),
{
    if a.len() > 0 && b.len() > 0 && c.len() > 0 {
        if a[0] == b[0] && b[0] == c[0] {
            lemma_less_transitive(a.drop_first(), b.drop_first(), c.drop_first());
        } else if a[0] == b[0] {
        } else if b[0] == c[0] {
        }
    }
}

/// Whether `a` comes before `b`.
pub fn text_less(a: &str, b: &str) -> (r: bool)
    ensures
        r == lex_less(a@, b@),
{
    let x = chars_of(a);
    let y = chars_of(b);
    let mut i: usize = 0;
    assert(x@.skip(0) =~= x@);
    assert(y@.skip(0) =~= y@);
    while i < x.len() && i < y.len() && x[i] == y[i]
        invariant
            i <= x.len(),
            i <= y.len(),
            x@ == a@,
            y@ == b@,
            lex_less(a@, b@) == lex_less(x@.skip(i as int), y@.skip(i as int)),
        decreases x.len() - i,
    {
        assert(x@.skip(i as int).drop_first() =~= x@.skip(i + 1));
        assert(y@.skip(i as int).drop_first() =~= y@.skip(i + 1));
        i += 1;
    }
    if i == x.len() {
        i < y.len()
    } else if i == y.len() {
        false
    } else {
        assert(x@.skip(i as int)[0] == x@[i as int]);
        assert(y@.skip(i as int)[0] == y@[i as int]);
        x[i] < y[i]
    }
}

/// Adds a text to a sorted list without repeats, keeping it sorted.
pub fn insert_text(v: &mut Vec<String>, t: String)
    requires
        sorted_texts(texts(old(v)@)),
    ensures
        sorted_texts(texts(final(v)@)),
        forall|x: Seq<char>| texts(final(v)@).contains(x) <==> (texts(old(v)@).contains(x) || x == t@),
{
    let ghost s = texts(v@);
    let mut p: usize = 0;
    while p < v.len() && text_less(v[p].as_str(), t.as_str())
        invariant
            p <= v.len(),
            s == texts(v@),
            forall|q: int| 0 <= q < p ==> lex_less(#[trigger] s[q], t@),
        decreases v.len() - p,
    {
        p += 1;
    }
    if p < v.len() && v[p] == t {
        proof {
            assert(s[p as int] == t@);
            assert forall|x: Seq<char>| s.contains(x) <==> (s.contains(x) || x == t@) by {
                if x == t@ {
                    assert(s[p as int] == x);
                }
            }
        }
        return;
    }
    proof {
        if p < v.len() {
            lemma_less_total(s[p as int], t@);
        }
    }
    v.insert(p, t);
    proof {
        let n = texts(v@);
        assert(n =~= s.insert(p as int, t@));
        assert forall|i: int, j: int| 0 <= i < j < n.len() implies lex_less(n[i], n[j]) by {
            if j < p {
            } else if j == p {
                assert(n[i] == s[i]);
            } else if i == p {
                assert(n[j] == s[j - 1]);
                if j - 1 > p {
                    lemma_less_transitive(t@, s[p as int], s[j - 1]);
                }
            } else if i < p {
                assert(n[j] == s[j - 1]);
                assert(lex_less(s[i], t@));
                lemma_less_transitive(s[i], t@, s[p as int]);
                if j - 1 > p {
                    lemma_less_transitive(s[i], s[p as int], s[j - 1]);
                }
            } else {
                assert(n[i] == s[i - 1]);
                assert(n[j] == s[j - 1]);
            }
        }
        assert forall|x: Seq<char>| n.contains(x) <==> (s.contains(x) || x == t@) by {
            if n.contains(x) {
                let k = choose|k: int| 0 <= k < n.len() && n[k] == x;
                if k < p {
                    assert(s[k] == x);
                } else if k > p {
                    assert(s[k - 1] == x);
                }
            }
            if s.contains(x) {
                let k = choose|k: int| 0 <= k < s.len() && s[k] == x;
                if k < p {
                    assert(n[k] == x);
                } else {
                    assert(n[k + 1] == x);
                }
            }
            if x == t@ {
                assert(n[p as int] == x);
            }
        }
    }
}

pub open spec fn change_paths(s: Seq<ChangeView>) -> Seq<Seq<char>> {
    s.map_values(|c: ChangeView| c.path)
}

pub open spec fn change_views(v: Seq<FileChange>) -> Seq<ChangeView> {
    v.map_values(|c: FileChange| c@)
}

/// Adds a change, whose path no change of the list has, to a list sorted by path, keeping it
/// sorted.
pub fn insert_change(v: &mut Vec<FileChange>, c: FileChange)
    requires
        sorted_texts(change_paths(change_views(old(v)@))),
        !change_paths(change_views(old(v)@)).contains(c.path@),
    ensures
        sorted_texts(change_paths(change_views(final(v)@))),
        forall|x: ChangeView| change_views(final(v)@).contains(x) <==> (change_views(old(v)@).contains(x) || x == c@),
{
    let ghost cv = change_views(v@);
    let ghost s = change_paths(cv);
    let mut p: usize = 0;
    while p < v.len() && text_less(v[p].path.as_str(), c.path.as_str())
        invariant
            p <= v.len(),
            cv == change_views(v@),
            s == change_paths(cv),
            forall|q: int| 0 <= q < p ==> lex_less(#[trigger] s[q], c.path@),
        decreases v.len() - p,
    {
        p += 1;
    }
    proof {
        if p < v.len() {
            assert(s[p as int] != c.path@);
            lemma_less_total(s[p as int], c.path@);
        }
    }
    let ghost cp = c@;
    v.insert(p, c);
    proof {
        let nv = change_views(v@);
        let n = change_paths(nv);
        assert(nv =~= cv.insert(p as int, cp));
        assert(n =~= s.insert(p as int, cp.path));
        let t = cp.path;
        assert forall|i: int, j: int| 0 <= i < j < n.len() implies lex_less(n[i], n[j]) by {
            if j < p {
            } else if j == p {
                assert(n[i] == s[i]);
            } else if i == p {
                assert(n[j] == s[j - 1]);
                if j - 1 > p {
                    lemma_less_transitive(t, s[p as int], s[j - 1]);
                }
            } else if i < p {
                assert(n[j] == s[j - 1]);
                assert(lex_less(s[i], t));
                lemma_less_transitive(s[i], t, s[p as int]);
                if j - 1 > p {
                    lemma_less_transitive(s[i], s[p as int], s[j - 1]);
                }
            } else {
                assert(n[i] == s[i - 1]);
                assert(n[j] == s[j - 1]);
            }
        }
        assert forall|x: ChangeView| nv.contains(x) <==> (cv.contains(x) || x == cp) by {
            if nv.contains(x) {
                let k = choose|k: int| 0 <= k < nv.len() && nv[k] == x;
                if k < p {
                    assert(cv[k] == x);
                } else if k > p {
                    assert(cv[k - 1] == x);
                }
            }
            if cv.contains(x) {
                let k = choose|k: int| 0 <= k < cv.len() && cv[k] == x;
                if k < p {
                    assert(nv[k] == x);
                } else {
                    assert(nv[k + 1] == x);
                }
            }
            if x == cp {
                assert(nv[p as int] == x);
            }
        }
    }
}

} // verus!
