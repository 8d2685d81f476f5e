//! The natural order of note paths (`natord`: runs of digits compare by value, whitespace is
//! skipped), and lists sorted in it.
use vstd::prelude::*;

use crate::mutation::history::texts;
use crate::text::to_string;

verus! {

/// What `natord::compare` gives for two texts: -1, 0 or 1 for less, equal or greater.
pub uninterp spec fn natural_order_of(a: Seq<char>, b: Seq<char>) -> i8;

/// `natord::compare(a, b)`, its `Ordering` as -1, 0 or 1. The result is named by
/// `natural_order_of`. `compare_iter` treats its two sides alike (every step that returns for
/// one side returns the reverse for the other, and it compares characters and digits by their
/// total orders), so swapping the texts reverses the result.
#[verifier::external_body]
fn natural_order(a: &str, b: &str) -> (r: i8)
    ensures
        r == natural_order_of(a@, b@),
        r == -1 || r == 0 || r == 1,
        natural_order_of(b@, a@) == -r,
{
    match natord::compare(a, b) {
        std::cmp::Ordering::Less => -1,
        std::cmp::Ordering::Equal => 0,
        std::cmp::Ordering::Greater => 1,
    }
}

/// Where `x` goes in `r`, scanning from `p`: before the first text that `x` is less than
/// (after every text it is equal to), or at the end.
pub open spec fn natural_position(r: Seq<Seq<char>>, x: Seq<char>, p: int) -> int
    decreases r.len() - p,
{
    if p < 0 || p >= r.len() || natural_order_of(x, r[p]) == -1 {
        p
    } else {
        natural_position(r, x, p + 1)
    }
}

/// `s` sorted by inserting its texts one by one, each before the first text it is less than,
/// so that texts the order ranks equal keep their order.
pub open spec fn natural_sort(s: Seq<Seq<char>>) -> Seq<Seq<char>>
    decreases s.len(),
{
    if s.len() == 0 {
        Seq::empty()
    } else {
        let r = natural_sort(s.drop_last());
        r.insert(natural_position(r, s.last(), 0), s.last())
    }
}

/// No text is greater than the next.
pub open spec fn natural_sorted(s: Seq<Seq<char>>) -> bool {
    forall|i: int| 0 <= i < s.len() - 1 ==> natural_order_of(#[trigger] s[i], s[i + 1]) != 1
}

/// The texts sorted in natural order (see `natural_sort`): the same texts, each as often, no
/// text greater than the next.
pub fn sort_natural(v: Vec<String>) -> (r: Vec<String>)
    ensures
        texts(r@) == natural_sort(texts(v@)),
        texts(r@).to_multiset() == texts(v@).to_multiset(),
        natural_sorted(texts(r@)),
{
    let ghost vs = texts(v@);
    let mut r: Vec<String> = Vec::new();
    let mut i: usize = 0;
    assert(vs.take(0) =~= Seq::<Seq<char>>::empty());
    assert(texts(r@) =~= Seq::<Seq<char>>::empty());
    while i < v.len()
        invariant
            i <= v@.len(),
            vs == texts(v@),
            texts(r@) == natural_sort(vs.take(i as int)),
            texts(r@).to_multiset() == vs.take(i as int).to_multiset(),
            natural_sorted(texts(r@)),
        decreases v@.len() - i,
    {
        let ghost rs = texts(r@);
        let x = v[i].as_str();
        let mut p: usize = 0;
        while p < r.len() && natural_order(x, r[p].as_str()) != -1
            invariant
                p <= r@.len(),
                rs == texts(r@),
                natural_position(rs, x@, 0) == natural_position(rs, x@, p as int),
                forall|q: int| 0 <= q < p ==> natural_order_of(#[trigger] rs[q], x@) != 1,
            decreases r@.len() - p,
        {
            p = p + 1;
        }
        assert(natural_position(rs, x@, p as int) == p);
        r.insert(p, to_string(x));
        let ghost n = texts(r@);
        assert(n =~= rs.insert(p as int, x@));
        assert(vs.take(i + 1).drop_last() =~= vs.take(i as int));
        assert(vs.take(i + 1).last() == x@);
        proof {
            vstd::seq_lib::to_multiset_insert(rs, p as int, x@);
            let t = vs.take(i as int);
            vstd::seq_lib::to_multiset_insert(t, t.len() as int, x@);
            assert(t.insert(t.len() as int, x@) =~= vs.take(i + 1));
            assert forall|k: int| 0 <= k < n.len() - 1 implies natural_order_of(#[trigger] n[k], n[k + 1]) != 1 by {
                if k < p - 1 {
                    assert(n[k] == rs[k] && n[k + 1] == rs[k + 1]);
                } else if k == p - 1 {
                    assert(n[k] == rs[k] && n[k + 1] == x@);
                } else if k == p {
                    assert(n[k] == x@ && n[k + 1] == rs[k]);
                } else {
                    assert(n[k] == rs[k - 1] && n[k + 1] == rs[k]);
                }
            }
        }
        i = i + 1;
    }
    assert(vs.take(v@.len() as int) =~= vs);
    r
}

/// `s` with each run of equal texts kept once (`Vec::dedup`).
pub open spec fn dedup_spec(s: Seq<Seq<char>>) -> Seq<Seq<char>>
    decreases s.len(),
{
    if s.len() == 0 {
        Seq::empty()
    } else {
        let d = dedup_spec(s.drop_last());
        if d.len() > 0 && d.last() == s.last() {
            d
        } else {
            d.push(s.last())
        }
    }
}

/// Note paths sorted in natural order, each run of equal paths kept once.
pub fn sorted_paths(paths: Vec<String>) -> (r: Vec<String>)
    ensures
        texts(r@) == dedup_spec(natural_sort(texts(paths@))),
{
    let sorted = sort_natural(paths);
    let ghost s = texts(sorted@);
    let mut r: Vec<String> = Vec::new();
    let mut i: usize = 0;
    assert(s.take(0) =~= Seq::<Seq<char>>::empty());
    assert(texts(r@) =~= Seq::<Seq<char>>::empty());
    while i < sorted.len()
        invariant
            i <= sorted@.len(),
            s == texts(sorted@),
            texts(r@) == dedup_spec(s.take(i as int)),
        decreases sorted@.len() - i,
    {
        assert(s.take(i + 1).drop_last() =~= s.take(i as int));
        assert(s.take(i + 1).last() == sorted@[i as int]@);
        let ghost before = texts(r@);
        let same = r.len() > 0 && crate::text::str_eq(r[r.len() - 1].as_str(), sorted[i].as_str());
        if !same {
            r.push(to_string(sorted[i].as_str()));
            assert(texts(r@) =~= before.push(sorted@[i as int]@));
        }
        i = i + 1;
    }
    assert(s.take(sorted@.len() as int) =~= s);
    r
}

} // verus!
