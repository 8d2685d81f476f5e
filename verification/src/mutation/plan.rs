//! Planning an undo or redo of several operations at once: the operations' changes are
//! replayed, in order, over the notes' current texts; a change whose note does not hold the
//! text it expects is a conflict, and the plan is either the conflicting paths or, for each
//! note whose text ends up different, the change from its current text to its new one.
use vstd::prelude::*;

use crate::mutation::history::{
    ChangeView, EditRecord, FileChange, MemoryHistory, StoredRecord, opt_text, texts,
};
use crate::mutation::order::{
    change_paths, change_views, insert_change, insert_text, lex_less, sorted_texts,
};
use crate::text::to_string;

verus! {

/// The changes of the operations, one operation after another.
pub open spec fn flat_changes(rs: Seq<EditRecord>) -> Seq<ChangeView>
    decreases rs.len(),
{
    if rs.len() == 0 {
        seq![]
    } else {
        flat_changes(rs.drop_last()) + change_views(rs.last().changes@)
    }
}

/// The paths the changes touch, each once, in the order they first occur.
pub open spec fn first_paths(cs: Seq<ChangeView>) -> Seq<Seq<char>>
    decreases cs.len(),
{
    if cs.len() == 0 {
        seq![]
    } else {
        let p = first_paths(cs.drop_last());
        if p.contains(cs.last().path) {
            p
        } else {
            p.push(cs.last().path)
        }
    }
}

/// The position of `x` in `ps` (the first, should it occur twice), or -1.
pub open spec fn pos_of(ps: Seq<Seq<char>>, x: Seq<char>) -> int
    decreases ps.len(),
{
    if ps.len() == 0 {
        -1
    } else if ps[0] == x {
        0
    } else {
        let k = pos_of(ps.drop_first(), x);
        if k < 0 {
            -1
        } else {
            k + 1
        }
    }
}

/// The text a change expects to find: the text after it when undoing, before it when redoing.
pub open spec fn expected_text(c: ChangeView, undo: bool) -> Option<Seq<char>> {
    if undo {
        c.after
    } else {
        c.before
    }
}

/// The text a change leaves: the text before it when undoing, after it when redoing.
pub open spec fn replacement_text(c: ChangeView, undo: bool) -> Option<Seq<char>> {
    if undo {
        c.before
    } else {
        c.after
    }
}

/// The notes' texts after replaying the changes over `start` (texts by position in `ps`),
/// and the paths of the changes that met another text than they expected, in order. A
/// conflicting change leaves its note's text as it was.
pub open spec fn replay(
    ps: Seq<Seq<char>>,
    start: Seq<Option<Seq<char>>>,
    cs: Seq<ChangeView>,
    undo: bool,
) -> (Seq<Option<Seq<char>>>, Seq<Seq<char>>)
    decreases cs.len(),
{
    if cs.len() == 0 {
        (start, seq![])
    } else {
        let (st, conflicts) = replay(ps, start, cs.drop_last(), undo);
        let c = cs.last();
        let i = pos_of(ps, c.path);
        if st[i] != expected_text(c, undo) {
            (st, conflicts.push(c.path))
        } else {
            (st.update(i, replacement_text(c, undo)), conflicts)
        }
    }
}

/// What a plan must be: with conflicts, no changes and the conflicting paths, each once and
/// sorted; without, no conflicts and, sorted by path, one change for each note whose text
/// differs after the replay, from its current text to its new one.
pub open spec fn plan_outcome(
    changes: Seq<ChangeView>,
    conflicts: Seq<Seq<char>>,
    ps: Seq<Seq<char>>,
    start: Seq<Option<Seq<char>>>,
    cs: Seq<ChangeView>,
    undo: bool,
) -> bool {
    let (fin, met) = replay(ps, start, cs, undo);
    if met.len() > 0 {
        &&& changes.len() == 0
        &&& sorted_texts(conflicts)
        &&& forall|x: Seq<char>| conflicts.contains(x) <==> met.contains(x)
    } else {
        &&& conflicts.len() == 0
        &&& sorted_texts(change_paths(changes))
        &&& forall|c: ChangeView|
            changes.contains(c) <==> exists|i: int|
                0 <= i < ps.len() && start[i] != fin[i] && c == (ChangeView {
                    path: ps[i],
                    before: start[i],
                    after: fin[i],
                })
    }
}

pub open spec fn opt_texts(v: Seq<Option<String>>) -> Seq<Option<Seq<char>>> {
    v.map_values(|o: Option<String>| opt_text(o))
}

fn copy_text(o: &Option<String>) -> (r: Option<String>)
    ensures
        opt_text(r) == opt_text(*o),
{
    match o {
        Some(s) => Some(to_string(s.as_str())),
        None => None,
    }
}

fn same_text(a: &Option<String>, b: &Option<String>) -> (r: bool)
    ensures
        r == (opt_text(*a) == opt_text(*b)),
{
    match (a, b) {
        (Some(x), Some(y)) => crate::text::str_eq(x.as_str(), y.as_str()),
        (None, None) => true,
        _ => false,
    }
}

fn copy_change(c: &FileChange) -> (r: FileChange)
    ensures
        r@ == c@,
{
    FileChange { path: to_string(c.path.as_str()), before: copy_text(&c.before), after: copy_text(&c.after) }
}

/// The changes of the operations, one operation after another.
fn all_changes(records: &Vec<EditRecord>) -> (r: Vec<FileChange>)
    ensures
        change_views(r@) == flat_changes(records@),
{
    let mut r: Vec<FileChange> = Vec::new();
    let mut k: usize = 0;
    while k < records.len()
        invariant
            k <= records.len(),
            change_views(r@) == flat_changes(records@.take(k as int)),
        decreases records.len() - k,
    {
        assert(records@.take(k + 1).drop_last() =~= records@.take(k as int));
        let ghost base = change_views(r@);
        let cs = &records[k].changes;
        let mut j: usize = 0;
        while j < cs.len()
            invariant
                j <= cs.len(),
                k < records.len(),
                cs == records@[k as int].changes,
                change_views(r@) == base + change_views(cs@).take(j as int),
            decreases cs.len() - j,
        {
            let ghost before = r@;
            r.push(copy_change(&cs[j]));
            assert(change_views(r@) =~= change_views(before).push(cs@[j as int]@));
            assert(change_views(cs@).take(j + 1) =~= change_views(cs@).take(j as int).push(cs@[j as int]@));
            j += 1;
        }
        assert(change_views(cs@).take(cs.len() as int) =~= change_views(cs@));
        k += 1;
    }
    assert(records@.take(records.len() as int) =~= records@);
    r
}

/// Every change's path is among the first paths, and those are distinct.
proof fn lemma_first_paths(cs: Seq<ChangeView>)
    ensures
        forall|i: int| 0 <= i < cs.len() ==> first_paths(cs).contains(#[trigger] cs[i].path),
        forall|a: int, b: int| 0 <= a < b < first_paths(cs).len() ==> first_paths(cs)[a] != first_paths(cs)[b],
    decreases cs.len(),
{
    if cs.len() > 0 {
        lemma_first_paths(cs.drop_last());
        let p = first_paths(cs.drop_last());
        assert forall|i: int| 0 <= i < cs.len() implies first_paths(cs).contains(#[trigger] cs[i].path) by {
            if i < cs.len() - 1 {
                assert(cs.drop_last()[i] == cs[i]);
                let k = choose|k: int| 0 <= k < p.len() && p[k] == cs[i].path;
                assert(first_paths(cs)[k] == cs[i].path);
            } else if !p.contains(cs.last().path) {
                assert(first_paths(cs)[p.len() as int] == cs[i].path);
            }
        }
    }
}

/// The position found by a scan from the front is `pos_of`.
proof fn lemma_pos_of(ps: Seq<Seq<char>>, x: Seq<char>, i: int)
    requires
        0 <= i < ps.len(),
        ps[i] == x,
        forall|q: int| 0 <= q < i ==> ps[q] != x,
    ensures
        pos_of(ps, x) == i,
    decreases i,
{
    if i > 0 {
        lemma_pos_of(ps.drop_first(), x, i - 1);
    }
}

/// The paths the changes touch, each once, in the order they first occur.
fn paths_of_changes(cs: &Vec<FileChange>) -> (r: Vec<String>)
    ensures
        texts(r@) == first_paths(change_views(cs@)),
{
    let ghost cv = change_views(cs@);
    let mut r: Vec<String> = Vec::new();
    let mut k: usize = 0;
    while k < cs.len()
        invariant
            k <= cs.len(),
            cv == change_views(cs@),
            texts(r@) == first_paths(cv.take(k as int)),
        decreases cs.len() - k,
    {
        assert(cv.take(k + 1).drop_last() =~= cv.take(k as int));
        assert(cv.take(k + 1).last() == cs@[k as int]@);
        let mut seen = false;
        let mut q: usize = 0;
        while q < r.len()
            invariant
                q <= r.len(),
                seen == exists|w: int| 0 <= w < q && texts(r@)[w] == cs@[k as int].path@,
                k < cs.len(),
            decreases r.len() - q,
        {
            assert(texts(r@)[q as int] == r@[q as int]@);
            if crate::text::str_eq(r[q].as_str(), cs[k].path.as_str()) {
                seen = true;
            }
            q += 1;
        }
        if !seen {
            let ghost before = r@;
            r.push(to_string(cs[k].path.as_str()));
            assert(texts(r@) =~= texts(before).push(cs@[k as int].path@));
        }
        k += 1;
    }
    assert(cv.take(cs.len() as int) =~= cv);
    r
}

/// The notes an undo or redo of the operations touches, each once, in the order they first
/// occur: the notes whose current texts a plan needs.
pub fn record_paths(records: &Vec<EditRecord>) -> (r: Vec<String>)
    ensures
        texts(r@) == first_paths(flat_changes(records@)),
{
    let cs = all_changes(records);
    paths_of_changes(&cs)
}

/// Plans undoing (or redoing) the operations, in the given order, over the current texts of
/// the notes they touch (`current`, by the positions of [`record_paths`]; `None` for a
/// missing note): the changes to make, or the conflicting paths (see `plan_outcome`).
pub fn plan_steps(records: &Vec<EditRecord>, undo: bool, current: &Vec<Option<String>>) -> (r: (
    Vec<FileChange>,
    Vec<String>,
))
    requires
        current.len() == first_paths(flat_changes(records@)).len(),
    ensures
        plan_outcome(
            change_views(r.0@),
            texts(r.1@),
            first_paths(flat_changes(records@)),
            opt_texts(current@),
            flat_changes(records@),
            undo,
        ),
{
    let cs = all_changes(records);
    let ps = paths_of_changes(&cs);
    let ghost cv = change_views(cs@);
    let ghost pv = texts(ps@);
    let ghost start = opt_texts(current@);
    proof {
        lemma_first_paths(cv);
    }
    let mut st: Vec<Option<String>> = Vec::new();
    let mut i: usize = 0;
    while i < current.len()
        invariant
            i <= current.len(),
            opt_texts(st@) == start.take(i as int),
            start == opt_texts(current@),
        decreases current.len() - i,
    {
        let ghost before = st@;
        st.push(copy_text(&current[i]));
        assert(opt_texts(st@) =~= opt_texts(before).push(start[i as int]));
        assert(start.take(i + 1) =~= start.take(i as int).push(start[i as int]));
        i += 1;
    }
    assert(start.take(current.len() as int) =~= start);
    let mut met: Vec<String> = Vec::new();
    let mut k: usize = 0;
    assert(cv.take(0) =~= Seq::<ChangeView>::empty());
    assert(texts(met@) =~= Seq::<Seq<char>>::empty());
    while k < cs.len()
        invariant
            k <= cs.len(),
            cv == change_views(cs@),
            pv == texts(ps@),
            pv == first_paths(cv),
            st.len() == pv.len(),
            forall|j: int| 0 <= j < cv.len() ==> pv.contains(#[trigger] cv[j].path),
            (opt_texts(st@), texts(met@)) == replay(pv, start, cv.take(k as int), undo),
        decreases cs.len() - k,
    {
        assert(cv.take(k + 1).drop_last() =~= cv.take(k as int));
        assert(cv.take(k + 1).last() == cs@[k as int]@);
        let c = &cs[k];
        assert(pv.contains(cv[k as int].path));
        let mut p: usize = 0;
        while p < ps.len() && !crate::text::str_eq(ps[p].as_str(), c.path.as_str())
            invariant
                p <= ps.len(),
                pv == texts(ps@),
                pv.contains(c.path@),
                forall|q: int| 0 <= q < p ==> pv[q] != c.path@,
            decreases ps.len() - p,
        {
            p += 1;
        }
        proof {
            if p == ps.len() {
                let w = choose|w: int| 0 <= w < pv.len() && pv[w] == c.path@;
                assert(false);
            }
            lemma_pos_of(pv, c.path@, p as int);
        }
        let expected = if undo {
            &c.after
        } else {
            &c.before
        };
        if !same_text(&st[p], expected) {
            let ghost before = met@;
            met.push(to_string(c.path.as_str()));
            assert(texts(met@) =~= texts(before).push(c.path@));
        } else {
            let replacement = if undo {
                copy_text(&c.before)
            } else {
                copy_text(&c.after)
            };
            let ghost before = st@;
            st.set(p, replacement);
            assert(opt_texts(st@) =~= opt_texts(before).update(p as int, opt_text(replacement)));
        }
        k += 1;
    }
    assert(cv.take(cs.len() as int) =~= cv);
    let ghost fin = opt_texts(st@);
    if met.len() > 0 {
        let mut sorted: Vec<String> = Vec::new();
        let mut j: usize = 0;
        while j < met.len()
            invariant
                j <= met.len(),
                sorted_texts(texts(sorted@)),
                forall|x: Seq<char>| texts(sorted@).contains(x) <==> texts(met@).take(j as int).contains(x),
            decreases met.len() - j,
        {
            let ghost mt = texts(met@);
            insert_text(&mut sorted, to_string(met[j].as_str()));
            proof {
                let a = mt.take(j as int);
                let b = mt.take(j + 1);
                assert(b =~= a.push(mt[j as int]));
                assert forall|x: Seq<char>| texts(sorted@).contains(x) <==> b.contains(x) by {
                    if a.contains(x) {
                        let w = choose|w: int| 0 <= w < a.len() && a[w] == x;
                        assert(b[w] == x);
                    }
                    if b.contains(x) {
                        let w = choose|w: int| 0 <= w < b.len() && b[w] == x;
                        if w < j {
                            assert(a[w] == x);
                        }
                    }
                    if x == mt[j as int] {
                        assert(b[j as int] == x);
                    }
                }
            }
            j += 1;
        }
        assert(texts(met@).take(met.len() as int) =~= texts(met@));
        let empty: Vec<FileChange> = Vec::new();
        assert(change_views(empty@) =~= Seq::<ChangeView>::empty());
        return (empty, sorted);
    }
    let mut changes: Vec<FileChange> = Vec::new();
    let mut q: usize = 0;
    assert(change_views(changes@) =~= Seq::<ChangeView>::empty());
    while q < ps.len()
        invariant
            q <= ps.len(),
            pv == texts(ps@),
            st.len() == pv.len(),
            current.len() == pv.len(),
            fin == opt_texts(st@),
            start == opt_texts(current@),
            forall|a: int, b: int| 0 <= a < b < pv.len() ==> pv[a] != pv[b],
            sorted_texts(change_paths(change_views(changes@))),
            forall|x: Seq<char>| change_paths(change_views(changes@)).contains(x) ==> exists|w: int|
                0 <= w < q && pv[w] == x,
            forall|c: ChangeView|
                change_views(changes@).contains(c) <==> exists|i: int|
                    0 <= i < q && start[i] != fin[i] && c == (ChangeView { path: pv[i], before: start[i], after: fin[i] }),
        decreases ps.len() - q,
    {
        if !same_text(&current[q], &st[q]) {
            let c = FileChange {
                path: to_string(ps[q].as_str()),
                before: copy_text(&current[q]),
                after: copy_text(&st[q]),
            };
            proof {
                if change_paths(change_views(changes@)).contains(pv[q as int]) {
                    let w = choose|w: int| 0 <= w < q && pv[w] == pv[q as int];
                    assert(false);
                }
            }
            let ghost old_changes = change_views(changes@);
            let ghost cp = c@;
            insert_change(&mut changes, c);
            proof {
                assert(cp == (ChangeView { path: pv[q as int], before: start[q as int], after: fin[q as int] }));
                assert(start[q as int] != fin[q as int]);
                assert forall|c: ChangeView|
                    change_views(changes@).contains(c) <==> exists|i: int|
                        0 <= i < q + 1 && start[i] != fin[i] && c == (ChangeView { path: pv[i], before: start[i], after: fin[i] }) by {
                    if c == cp {
                        assert(0 <= q < q + 1 && start[q as int] != fin[q as int] && c == (ChangeView {
                            path: pv[q as int],
                            before: start[q as int],
                            after: fin[q as int],
                        }));
                    }
                }
                assert forall|x: Seq<char>| change_paths(change_views(changes@)).contains(x) implies exists|w: int|
                    0 <= w < q + 1 && pv[w] == x by {
                    let k = choose|k: int| 0 <= k < change_views(changes@).len() && change_paths(change_views(changes@))[k] == x;
                    let y = change_views(changes@)[k];
                    assert(change_views(changes@).contains(y));
                    if y != cp {
                        assert(old_changes.contains(y));
                        let m = choose|m: int| 0 <= m < old_changes.len() && old_changes[m] == y;
                        assert(change_paths(old_changes)[m] == x);
                    } else {
                        assert(pv[q as int] == x);
                    }
                }
            }
        } else {
            proof {
                assert(start[q as int] == fin[q as int]);
            }
        }
        q += 1;
    }
    let none: Vec<String> = Vec::new();
    assert(texts(none@) =~= Seq::<Seq<char>>::empty());
    (changes, none)
}

/// The top `steps` operations of a stack, the top first.
pub open spec fn top_records(stack: Seq<StoredRecord>, steps: nat) -> Seq<EditRecord> {
    Seq::new(steps, |i: int| stack[stack.len() - 1 - i].record)
}

/// Operations with the same changes, position by position, replay the same changes.
proof fn lemma_same_changes(a: Seq<EditRecord>, b: Seq<EditRecord>)
    requires
        a.len() == b.len(),
        forall|i: int| 0 <= i < a.len() ==> change_views((#[trigger] a[i]).changes@) == change_views(b[i].changes@),
    ensures
        flat_changes(a) == flat_changes(b),
    decreases a.len(),
{
    if a.len() > 0 {
        lemma_same_changes(a.drop_last(), b.drop_last());
    }
}

fn copy_record(r: &EditRecord) -> (c: EditRecord)
    ensures
        c.id@ == r.id@,
        change_views(c.changes@) == change_views(r.changes@),
{
    let mut changes: Vec<FileChange> = Vec::new();
    let mut i: usize = 0;
    while i < r.changes.len()
        invariant
            i <= r.changes.len(),
            change_views(changes@) == change_views(r.changes@).take(i as int),
        decreases r.changes.len() - i,
    {
        let ghost before = changes@;
        changes.push(copy_change(&r.changes[i]));
        assert(change_views(changes@) =~= change_views(before).push(r.changes@[i as int]@));
        assert(change_views(r.changes@).take(i + 1) =~= change_views(r.changes@).take(i as int).push(
            r.changes@[i as int]@,
        ));
        i += 1;
    }
    assert(change_views(r.changes@).take(r.changes.len() as int) =~= change_views(r.changes@));
    EditRecord {
        id: to_string(r.id.as_str()),
        operation: to_string(r.operation.as_str()),
        timestamp: to_string(r.timestamp.as_str()),
        changes,
    }
}

fn top_of(v: &std::collections::VecDeque<StoredRecord>, steps: usize) -> (r: Vec<EditRecord>)
    requires
        steps <= v.len(),
    ensures
        flat_changes(r@) == flat_changes(top_records(v@, steps as nat)),
        r.len() == steps,
{
    let mut r: Vec<EditRecord> = Vec::new();
    let mut i: usize = 0;
    while i < steps
        invariant
            i <= steps <= v.len(),
            r.len() == i,
            forall|j: int| 0 <= j < i ==> change_views((#[trigger] r@[j]).changes@) == change_views(
                v@[v@.len() - 1 - j].record.changes@,
            ),
        decreases steps - i,
    {
        r.push(copy_record(&v[v.len() - 1 - i].record));
        i += 1;
    }
    proof {
        let t = top_records(v@, steps as nat);
        assert forall|j: int| 0 <= j < r.len() implies change_views((#[trigger] r@[j]).changes@) == change_views(
            t[j].changes@,
        ) by {
            assert(t[j] == v@[v@.len() - 1 - j].record);
        }
        lemma_same_changes(r@, t);
    }
    r
}

impl MemoryHistory {
    /// The top `steps` undoable operations, most recent first: what an undo of that many
    /// steps replays.
    pub fn undo_selection(&self, steps: usize) -> (r: Vec<EditRecord>)
        requires
            steps <= self.undo_stack().len(),
        ensures
            flat_changes(r@) == flat_changes(top_records(self.undo_stack(), steps as nat)),
    {
        top_of(self.undo_ref(), steps)
    }

    /// The top `steps` redoable operations, the next to redo first.
    pub fn redo_selection(&self, steps: usize) -> (r: Vec<EditRecord>)
        requires
            steps <= self.redo_stack().len(),
        ensures
            flat_changes(r@) == flat_changes(top_records(self.redo_stack(), steps as nat)),
    {
        top_of(self.redo_ref(), steps)
    }
}

} // verus!
