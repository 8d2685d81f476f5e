//! The in-memory edit history: a stack of undoable operations and a stack of redoable ones,
//! bounded in number and in bytes, with the stack moves that undo and redo make.
use std::collections::VecDeque;

use vstd::prelude::*;

use crate::text::{push_decimal, push_str, to_string};

verus! {

/// The most operations the history keeps.
pub const MAX_RECORDS: usize = 100;

/// The most bytes the history keeps once it holds more than one operation.
pub const MAX_HISTORY_BYTES: usize = 67108864;

/// One note's change: its text before and after (`None` where the note does not exist).
#[derive(Clone, Debug, PartialEq, Eq)]
pub struct FileChange {
    pub path: String,
    pub before: Option<String>,
    pub after: Option<String>,
}

pub struct ChangeView {
    pub path: Seq<char>,
    pub before: Option<Seq<char>>,
    pub after: Option<Seq<char>>,
}

pub open spec fn opt_text(o: Option<String>) -> Option<Seq<char>> {
    match o {
        Some(s) => Some(s@),
        None => None,
    }
}

impl View for FileChange {
    type V = ChangeView;

    open spec fn view(&self) -> ChangeView {
        ChangeView { path: self.path@, before: opt_text(self.before), after: opt_text(self.after) }
    }
}

/// A change undone: the texts before and after swap.
pub open spec fn reverse_change(c: ChangeView) -> ChangeView {
    ChangeView { path: c.path, before: c.after, after: c.before }
}

fn copy_opt(o: &Option<String>) -> (r: Option<String>)
    ensures
        opt_text(r) == opt_text(*o),
{
    match o {
        Some(s) => Some(to_string(s.as_str())),
        None => None,
    }
}

impl FileChange {
    /// The change of an existing note from one text to another.
    pub fn replace(path: String, before: String, after: String) -> (r: Self)
        ensures
            r@ == (ChangeView { path: path@, before: Some(before@), after: Some(after@) }),
    {
        FileChange { path, before: Some(before), after: Some(after) }
    }

    /// The change that undoes this one.
    pub fn reversed(&self) -> (r: Self)
        ensures
            r@ == reverse_change(self@),
    {
        FileChange { path: to_string(self.path.as_str()), before: copy_opt(&self.after), after: copy_opt(&self.before) }
    }
}

/// Undoing a change twice gives the change back.
pub proof fn lemma_reverse_twice(c: ChangeView)
    ensures
        reverse_change(reverse_change(c)) == c,
{
}

/// One operation: its ID, the command that made it, when, and the notes it changed.
#[derive(Clone, Debug, PartialEq, Eq)]
pub struct EditRecord {
    pub id: String,
    pub operation: String,
    pub timestamp: String,
    pub changes: Vec<FileChange>,
}

/// What the history tells of one operation.
#[derive(Clone, Debug, PartialEq, Eq)]
pub struct EditHistoryEntry {
    /// Unique identifier for this undo or redo operation.
    pub operation_id: String,
    /// Tool or command that created the edit.
    pub command: String,
    /// Time the edit was recorded.
    pub timestamp: String,
    /// Vault-relative paths affected by the edit.
    pub affected_files: Vec<String>,
}

pub open spec fn texts(v: Seq<String>) -> Seq<Seq<char>> {
    v.map_values(|s: String| s@)
}

impl EditRecord {
    /// The operation's ID, command, time and affected paths, in the order of its changes.
    pub fn summary(&self) -> (e: EditHistoryEntry)
        ensures
            e.operation_id@ == self.id@,
            e.command@ == self.operation@,
            e.timestamp@ == self.timestamp@,
            texts(e.affected_files@) == self.changes@.map_values(|c: FileChange| c.path@),
    {
        let mut files: Vec<String> = Vec::new();
        let mut i: usize = 0;
        while i < self.changes.len()
            invariant
                i <= self.changes.len(),
                texts(files@) == self.changes@.take(i as int).map_values(|c: FileChange| c.path@),
            decreases self.changes.len() - i,
        {
            let ghost before = files@;
            files.push(to_string(self.changes[i].path.as_str()));
            assert(texts(files@) =~= texts(before).push(self.changes@[i as int].path@));
            assert(self.changes@.take(i + 1).map_values(|c: FileChange| c.path@) =~= self.changes@.take(
                i as int,
            ).map_values(|c: FileChange| c.path@).push(self.changes@[i as int].path@));
            i += 1;
        }
        assert(self.changes@.take(self.changes.len() as int) =~= self.changes@);
        EditHistoryEntry {
            operation_id: to_string(self.id.as_str()),
            command: to_string(self.operation.as_str()),
            timestamp: to_string(self.timestamp.as_str()),
            affected_files: files,
        }
    }
}

/// An operation kept by the history, with the size it was counted at.
pub struct StoredRecord {
    pub record: EditRecord,
    pub bytes: usize,
}

/// The sum of the sizes of the records.
pub open spec fn total_bytes(v: Seq<StoredRecord>) -> nat
    decreases v.len(),
{
    if v.len() == 0 {
        0
    } else {
        total_bytes(v.drop_last()) + v.last().bytes as nat
    }
}

/// The undo stack after a new operation is pushed: the oldest operations are dropped while
/// there are more than `MAX_RECORDS`, or more than one and over `MAX_HISTORY_BYTES`.
pub open spec fn evict(v: Seq<StoredRecord>) -> Seq<StoredRecord>
    decreases v.len(),
{
    if v.len() > MAX_RECORDS || (v.len() > 1 && total_bytes(v) > MAX_HISTORY_BYTES) {
        evict(v.drop_first())
    } else {
        v
    }
}

/// `k` records moved one by one from the top of `from` to the top of `to`: what is left of
/// `from`, and `to` with the moved records in the order they were taken.
pub open spec fn moved(from: Seq<StoredRecord>, to: Seq<StoredRecord>, k: nat) -> (Seq<StoredRecord>, Seq<StoredRecord>)
    decreases k,
{
    if k == 0 || from.len() == 0 {
        (from, to)
    } else {
        moved(from.drop_last(), to.push(from.last()), (k - 1) as nat)
    }
}

/// The two stacks of the edit history; the top of each is its last record.
pub struct MemoryHistory {
    undo: VecDeque<StoredRecord>,
    redo: VecDeque<StoredRecord>,
    bytes: usize,
}

impl MemoryHistory {
    /// The stacks' records are counted exactly, and there are at most `MAX_RECORDS` of them.
    pub closed spec fn wf(self) -> bool {
        &&& self.bytes == total_bytes(self.undo@) + total_bytes(self.redo@)
        &&& self.undo@.len() + self.redo@.len() <= MAX_RECORDS
    }

    /// The undoable operations, oldest first.
    pub closed spec fn undo_stack(self) -> Seq<StoredRecord> {
        self.undo@
    }

    /// The redoable operations; the next one to redo last.
    pub closed spec fn redo_stack(self) -> Seq<StoredRecord> {
        self.redo@
    }

    /// The undo stack itself.
    pub(crate) fn undo_ref(&self) -> (r: &VecDeque<StoredRecord>)
        ensures
            r@ == self.undo_stack(),
    {
        &self.undo
    }

    /// The redo stack itself.
    pub(crate) fn redo_ref(&self) -> (r: &VecDeque<StoredRecord>)
        ensures
            r@ == self.redo_stack(),
    {
        &self.redo
    }

    /// An empty history.
    pub fn new() -> (h: Self)
        ensures
            h.wf(),
            h.undo_stack() == Seq::<StoredRecord>::empty(),
            h.redo_stack() == Seq::<StoredRecord>::empty(),
    {
        MemoryHistory { undo: VecDeque::new(), redo: VecDeque::new(), bytes: 0 }
    }

    /// The bytes the history holds.
    pub fn bytes(&self) -> (b: usize)
        requires
            self.wf(),
        ensures
            b == total_bytes(self.undo_stack()) + total_bytes(self.redo_stack()),
    {
        self.bytes
    }

    /// How many operations can be undone.
    pub fn undo_len(&self) -> (n: usize)
        ensures
            n == self.undo_stack().len(),
    {
        self.undo.len()
    }

    /// How many operations can be redone.
    pub fn redo_len(&self) -> (n: usize)
        ensures
            n == self.redo_stack().len(),
    {
        self.redo.len()
    }
}

proof fn lemma_total_append(a: Seq<StoredRecord>, b: Seq<StoredRecord>)
    ensures
        total_bytes(a + b) == total_bytes(a) + total_bytes(b),
    decreases b.len(),
{
    if b.len() == 0 {
        assert(a + b =~= a);
    } else {
        lemma_total_append(a, b.drop_last());
        assert((a + b).drop_last() =~= a + b.drop_last());
    }
}

proof fn lemma_total_drop_first(v: Seq<StoredRecord>)
    requires
        v.len() > 0,
    ensures
        total_bytes(v) == v[0].bytes + total_bytes(v.drop_first()),
{
    assert(v =~= seq![v[0]] + v.drop_first());
    lemma_total_append(seq![v[0]], v.drop_first());
    assert(seq![v[0]].drop_last() =~= Seq::<StoredRecord>::empty());
    assert(total_bytes(Seq::<StoredRecord>::empty()) == 0);
    assert(total_bytes(seq![v[0]]) == v[0].bytes);
}

/// Eviction keeps a suffix of the stack, at least its top record, within the limits.
pub proof fn lemma_evict(v: Seq<StoredRecord>)
    requires
        v.len() > 0,
    ensures
        evict(v).len() > 0,
        evict(v).len() <= MAX_RECORDS,
        evict(v).last() == v.last(),
        v.len() >= evict(v).len(),
        evict(v) == v.skip(v.len() - evict(v).len()),
        evict(v).len() > 1 ==> total_bytes(evict(v)) <= MAX_HISTORY_BYTES,
    decreases v.len(),
{
    if v.len() > MAX_RECORDS || (v.len() > 1 && total_bytes(v) > MAX_HISTORY_BYTES) {
        lemma_evict(v.drop_first());
        let e = evict(v.drop_first());
        assert(v.drop_first().skip(v.drop_first().len() - e.len()) =~= v.skip(v.len() - e.len()));
    } else {
        assert(v.skip(0) =~= v);
    }
}

impl MemoryHistory {
    /// Records a new operation: the redo stack is cleared, the operation is pushed on the undo
    /// stack, and the oldest operations are dropped while there are more than `MAX_RECORDS`,
    /// or more than one and over `MAX_HISTORY_BYTES` (see `evict`).
    pub fn remember(&mut self, record: EditRecord, bytes: usize)
        requires
            old(self).wf(),
            total_bytes(old(self).undo_stack()) + bytes <= usize::MAX,
        ensures
            final(self).wf(),
            final(self).redo_stack() == Seq::<StoredRecord>::empty(),
            final(self).undo_stack() == evict(old(self).undo_stack().push(StoredRecord { record, bytes })),
    {
        let ghost pushed = self.undo@.push(StoredRecord { record, bytes });
        while self.redo.len() > 0
            invariant
                self.bytes == total_bytes(self.undo@) + total_bytes(self.redo@),
                self.undo@ == old(self).undo@,
                self.redo@.len() <= old(self).redo@.len(),
                old(self).wf(),
            decreases self.redo.len(),
        {
            let ghost before = self.redo@;
            let discarded = self.redo.pop_front().unwrap();
            proof {
                lemma_total_drop_first(before);
                assert(before.drop_first() =~= self.redo@);
            }
            self.bytes = self.bytes - discarded.bytes;
        }
        assert(total_bytes(self.redo@) == 0);
        self.undo.push_back(StoredRecord { record, bytes });
        assert(self.undo@.drop_last() =~= old(self).undo@);
        self.bytes = self.bytes + bytes;
        assert(self.undo@ == pushed);
        proof {
            lemma_evict(pushed);
        }
        while self.undo.len() > MAX_RECORDS || (self.undo.len() > 1 && self.bytes > MAX_HISTORY_BYTES)
            invariant
                self.bytes == total_bytes(self.undo@),
                self.undo@.len() > 0,
                self.redo@.len() == 0,
                evict(self.undo@) == evict(pushed),
            decreases self.undo.len(),
        {
            let ghost before = self.undo@;
            let oldest = self.undo.pop_front().unwrap();
            proof {
                lemma_total_drop_first(before);
                assert(before.drop_first() =~= self.undo@);
            }
            self.bytes = self.bytes - oldest.bytes;
        }
        proof {
            lemma_evict(self.undo@);
            assert(total_bytes(self.redo@) == 0);
        }
    }
}

/// The records of `s` in reverse order.
pub open spec fn reversed(s: Seq<StoredRecord>) -> Seq<StoredRecord> {
    Seq::new(s.len(), |i: int| s[s.len() - 1 - i])
}

proof fn lemma_moved_closed(from: Seq<StoredRecord>, to: Seq<StoredRecord>, k: nat)
    requires
        k <= from.len(),
    ensures
        moved(from, to, k) == (from.take(from.len() - k), to + reversed(from.skip(from.len() - k))),
    decreases k,
{
    if k == 0 {
        assert(from.take(from.len() as int) =~= from);
        assert(reversed(from.skip(from.len() as int)) =~= Seq::<StoredRecord>::empty());
        assert(to + Seq::<StoredRecord>::empty() =~= to);
    } else {
        let f2 = from.drop_last();
        let t2 = to.push(from.last());
        lemma_moved_closed(f2, t2, (k - 1) as nat);
        assert(f2.take(f2.len() - (k - 1)) =~= from.take(from.len() - k));
        assert(t2 + reversed(f2.skip(f2.len() - (k - 1))) =~= to + reversed(from.skip(from.len() - k)));
    }
}

/// Undoing `k` operations and then redoing `k` gives both stacks back as they were (the
/// redo move takes from the redo stack to the undo stack, so its result reads redo first).
pub proof fn lemma_undo_then_redo(undo: Seq<StoredRecord>, redo: Seq<StoredRecord>, k: nat)
    requires
        k <= undo.len(),
    ensures
        ({
            let (u1, r1) = moved(undo, redo, k);
            moved(r1, u1, k) == (redo, undo)
        }),
{
    let n = undo.len() - k;
    lemma_moved_closed(undo, redo, k);
    let u1 = undo.take(n);
    let r1 = redo + reversed(undo.skip(n));
    lemma_moved_closed(r1, u1, k);
    let sfx = undo.skip(n);
    assert(r1.take(r1.len() - k) =~= redo);
    assert(r1.skip(r1.len() - k) =~= reversed(sfx));
    assert(reversed(reversed(sfx)) =~= sfx);
    assert(u1 + sfx =~= undo);
    assert(moved(r1, u1, k) == (redo, undo));
}

proof fn lemma_total_moved(from: Seq<StoredRecord>, to: Seq<StoredRecord>, k: nat)
    ensures
        total_bytes(moved(from, to, k).0) + total_bytes(moved(from, to, k).1) == total_bytes(from)
            + total_bytes(to),
        moved(from, to, k).0.len() + moved(from, to, k).1.len() == from.len() + to.len(),
    decreases k,
{
    if k > 0 && from.len() > 0 {
        lemma_total_moved(from.drop_last(), to.push(from.last()), (k - 1) as nat);
        assert(to.push(from.last()).drop_last() =~= to);
        assert(total_bytes(to.push(from.last())) == total_bytes(to) + from.last().bytes);
        assert(total_bytes(from) == total_bytes(from.drop_last()) + from.last().bytes);
    }
}

/// The checks of an undo or redo request: 1 to `MAX_RECORDS` steps, and at most as many as
/// are available.
pub open spec fn steps_error(steps: nat, available: nat, action: Seq<char>) -> Option<Seq<char>> {
    if !(1 <= steps <= MAX_RECORDS) {
        Some("steps must be between 1 and 100"@)
    } else if available == 0 {
        Some("nothing to "@ + action)
    } else if steps > available {
        Some(
            "cannot "@ + action + " "@ + crate::text::decimal(steps) + " steps; only "@ + crate::text::decimal(
                available,
            ) + " available"@,
        )
    } else {
        None
    }
}

/// Checks an undo or redo request of `steps` operations when `available` can be undone or
/// redone (see `steps_error`).
pub fn validate_steps(steps: usize, available: usize, action: &str) -> (r: Result<(), String>)
    ensures
        match steps_error(steps as nat, available as nat, action@) {
            Some(m) => r matches Err(e) && e@ == m,
            None => r is Ok,
        },
{
    if !(1 <= steps && steps <= MAX_RECORDS) {
        return Err(to_string("steps must be between 1 and 100"));
    }
    if available == 0 {
        let mut m = to_string("nothing to ");
        push_str(&mut m, action);
        return Err(m);
    }
    if steps > available {
        let mut m = to_string("cannot ");
        push_str(&mut m, action);
        push_str(&mut m, " ");
        push_decimal(&mut m, steps as u128);
        push_str(&mut m, " steps; only ");
        push_decimal(&mut m, available as u128);
        push_str(&mut m, " available");
        return Err(m);
    }
    Ok(())
}

/// What the history lists: the undoable operations, most recent first, and the redoable
/// ones, the next to redo first.
#[derive(Clone, Debug, PartialEq, Eq)]
pub struct EditHistoryResult {
    pub undo: Vec<EditHistoryEntry>,
    pub redo: Vec<EditHistoryEntry>,
}

/// The summaries of records, from the top of the stack down.
fn summaries(v: &VecDeque<StoredRecord>) -> (r: Vec<EditHistoryEntry>)
    ensures
        r@.len() == v@.len(),
        forall|i: int|
            0 <= i < r@.len() ==> (#[trigger] r@[i]).operation_id@ == v@[v@.len() - 1 - i].record.id@,
{
    let mut r: Vec<EditHistoryEntry> = Vec::new();
    let mut k = v.len();
    while k > 0
        invariant
            k <= v.len(),
            r@.len() == v.len() - k,
            forall|i: int|
                0 <= i < r@.len() ==> (#[trigger] r@[i]).operation_id@ == v@[v@.len() - 1 - i].record.id@,
        decreases k,
    {
        r.push(v[k - 1].record.summary());
        k -= 1;
    }
    r
}

impl MemoryHistory {
    /// Moves the top `steps` operations of the undo stack onto the redo stack, one by one.
    pub fn undo_steps(&mut self, steps: usize)
        requires
            old(self).wf(),
            steps <= old(self).undo_stack().len(),
        ensures
            final(self).wf(),
            (final(self).undo_stack(), final(self).redo_stack()) == moved(
                old(self).undo_stack(),
                old(self).redo_stack(),
                steps as nat,
            ),
    {
        let mut k: usize = 0;
        while k < steps
            invariant
                k <= steps <= old(self).undo@.len(),
                (self.undo@, self.redo@) == moved(old(self).undo@, old(self).redo@, k as nat),
                self.undo@.len() == old(self).undo@.len() - k,
                self.bytes == old(self).bytes,
            decreases steps - k,
        {
            proof {
                lemma_moved_closed(old(self).undo@, old(self).redo@, k as nat);
                lemma_moved_closed(old(self).undo@, old(self).redo@, (k + 1) as nat);
                lemma_moved_closed(self.undo@, self.redo@, 1);
                lemma_moved_step(old(self).undo@, old(self).redo@, k as nat);
            }
            let record = self.undo.pop_back().unwrap();
            self.redo.push_back(record);
            k += 1;
        }
        proof {
            lemma_total_moved(old(self).undo@, old(self).redo@, steps as nat);
        }
    }

    /// Moves the top `steps` operations of the redo stack back onto the undo stack, one by
    /// one.
    pub fn redo_steps(&mut self, steps: usize)
        requires
            old(self).wf(),
            steps <= old(self).redo_stack().len(),
        ensures
            final(self).wf(),
            (final(self).redo_stack(), final(self).undo_stack()) == moved(
                old(self).redo_stack(),
                old(self).undo_stack(),
                steps as nat,
            ),
    {
        let mut k: usize = 0;
        while k < steps
            invariant
                k <= steps <= old(self).redo@.len(),
                (self.redo@, self.undo@) == moved(old(self).redo@, old(self).undo@, k as nat),
                self.redo@.len() == old(self).redo@.len() - k,
                self.bytes == old(self).bytes,
            decreases steps - k,
        {
            proof {
                lemma_moved_step(old(self).redo@, old(self).undo@, k as nat);
            }
            let record = self.redo.pop_back().unwrap();
            self.undo.push_back(record);
            k += 1;
        }
        proof {
            lemma_total_moved(old(self).redo@, old(self).undo@, steps as nat);
        }
    }

    /// The summaries of both stacks, each from its top down.
    pub fn entries(&self) -> (r: EditHistoryResult)
        ensures
            r.undo@.len() == self.undo_stack().len(),
            r.redo@.len() == self.redo_stack().len(),
            forall|i: int|
                0 <= i < r.undo@.len() ==> (#[trigger] r.undo@[i]).operation_id@ == self.undo_stack()[self.undo_stack().len() - 1 - i].record.id@,
            forall|i: int|
                0 <= i < r.redo@.len() ==> (#[trigger] r.redo@[i]).operation_id@ == self.redo_stack()[self.redo_stack().len() - 1 - i].record.id@,
    {
        EditHistoryResult { undo: summaries(&self.undo), redo: summaries(&self.redo) }
    }

    /// The IDs of the top `steps` undoable operations, most recent first.
    pub fn undo_ids(&self, steps: usize) -> (r: Vec<String>)
        requires
            steps <= self.undo_stack().len(),
        ensures
            r@.len() == steps,
            forall|i: int|
                0 <= i < steps ==> (#[trigger] r@[i])@ == self.undo_stack()[self.undo_stack().len() - 1 - i].record.id@,
    {
        top_ids(&self.undo, steps)
    }

    /// The IDs of the top `steps` redoable operations, the next to redo first.
    pub fn redo_ids(&self, steps: usize) -> (r: Vec<String>)
        requires
            steps <= self.redo_stack().len(),
        ensures
            r@.len() == steps,
            forall|i: int|
                0 <= i < steps ==> (#[trigger] r@[i])@ == self.redo_stack()[self.redo_stack().len() - 1 - i].record.id@,
    {
        top_ids(&self.redo, steps)
    }
}

fn top_ids(v: &VecDeque<StoredRecord>, steps: usize) -> (r: Vec<String>)
    requires
        steps <= v.len(),
    ensures
        r@.len() == steps,
        forall|i: int| 0 <= i < steps ==> (#[trigger] r@[i])@ == v@[v@.len() - 1 - i].record.id@,
{
    let mut r: Vec<String> = Vec::new();
    let mut i: usize = 0;
    while i < steps
        invariant
            i <= steps <= v.len(),
            r@.len() == i,
            forall|j: int| 0 <= j < i ==> (#[trigger] r@[j])@ == v@[v@.len() - 1 - j].record.id@,
        decreases steps - i,
    {
        r.push(to_string(v[v.len() - 1 - i].record.id.as_str()));
        i += 1;
    }
    r
}

/// One more move takes the next record from the top of `from`.
proof fn lemma_moved_step(from: Seq<StoredRecord>, to: Seq<StoredRecord>, k: nat)
    requires
        k < from.len(),
    ensures
        moved(from, to, k + 1) == ({
            let (f, t) = moved(from, to, k);
            (f.drop_last(), t.push(f.last()))
        }),
        moved(from, to, k).0.len() == from.len() - k,
    decreases k,
{
    if k > 0 {
        lemma_moved_step(from.drop_last(), to.push(from.last()), (k - 1) as nat);
    } else {
        assert(moved(from, to, 0) == (from, to));
        assert(moved(from.drop_last(), to.push(from.last()), 0) == (from.drop_last(), to.push(from.last())));
        assert(moved(from, to, 1) == moved(from.drop_last(), to.push(from.last()), 0));
    }
}

} // verus!
