//! The Todo tree of a `blueprint/v2` document, which keeps each Todo's fields, criteria and
//! children inline in its Todos section.
use vstd::prelude::*;
use vstd::string::StringSliceAdditionalSpecFns;
use vstd::utf8::encode_utf8;

use crate::blueprint::document::{
    DocumentSchema, DocumentView, ParsedDocument, Section, SectionView, document_spec, ends_with, entries_view,
    find_section, has_md_suffix, views,
};
use crate::blueprint::graph::{node_line, opt_view};
use crate::blueprint::model::{CheckItem, Todo, TodoStatus, clone_todo, same_todo};
use crate::blueprint::source::{
    blueprint_sections, csv_items, field_value, field_value_spec, field_values,
    field_values_spec, split_csv,
};
use crate::blueprint::tasks::{
    has_ancestor_label, has_label_ancestor, is_protocol_task, item_block_id,
    list_item_block_id, nearest_todo_ancestor, own_text, own_text_of, protocol_task,
    starts_with_todo, task_status, todo_ancestor,
};
use crate::blueprint::todo::check_view;
use crate::markdown::{MdKind, MdNode, document_read, markdown_accepts, well_formed};
use crate::parser::{byte_offset_for_line, line_number_for_byte, line_start_spec, starts_with};
use crate::text::{push_str, split_on};

verus! {

/// A Todo of the tree by its texts.
pub struct TodoTreeView {
    pub id: Seq<char>,
    pub title: Seq<char>,
    pub status: TodoStatus,
    pub created_by: Option<Seq<char>>,
    pub owner: Option<Seq<char>>,
    pub completed_by: Option<Seq<char>>,
    pub depends_on: Seq<Seq<char>>,
    pub completion_criteria: Seq<(Seq<char>, bool)>,
    pub handoff: Seq<Seq<char>>,
    pub result_summary: Option<Seq<char>>,
    pub references: Seq<Seq<char>>,
    pub block_reason: Option<Seq<char>>,
    pub cancel_reason: Option<Seq<char>>,
    pub children: Seq<TodoTreeView>,
}

/// The view of a Todo and its children.
pub open spec fn tree_view(t: Todo) -> TodoTreeView
    decreases t,
{
    TodoTreeView {
        id: t.id@,
        title: t.title@,
        status: t.status,
        created_by: opt_view(t.created_by),
        owner: opt_view(t.owner),
        completed_by: opt_view(t.completed_by),
        depends_on: t.depends_on@.map_values(|d: String| d@),
        completion_criteria: t.completion_criteria@.map_values(|c: CheckItem| check_view(c)),
        handoff: t.handoff@.map_values(|d: String| d@),
        result_summary: opt_view(t.result_summary),
        references: t.references@.map_values(|d: String| d@),
        block_reason: opt_view(t.block_reason),
        cancel_reason: opt_view(t.cancel_reason),
        children: Seq::new(
            t.children@.len(),
            |k: int|
                {
                    if 0 <= k < t.children@.len() {
                        tree_view(t.children@[k])
                    } else {
                        arbitrary()
                    }
                },
        ),
    }
}

pub open spec fn tree_views(v: Seq<Todo>) -> Seq<TodoTreeView> {
    v.map_values(|t: Todo| tree_view(t))
}

/// Node `j` is a task of the section: a task list item whose marker names a status, starting
/// on a line inside the section and following the protocol.
pub open spec fn section_task(nodes: Seq<MdNode>, b: Seq<u8>, sec: SectionView, j: int) -> bool {
    &&& task_status(nodes[j]) is Some
    &&& sec.body_start <= line_start_spec(b, node_line(b, nodes[j]))
    &&& line_start_spec(b, node_line(b, nodes[j])) < sec.body_end
    &&& protocol_task(nodes, j)
}

/// The positions of the section's tasks among the first `k` nodes, in order.
pub open spec fn section_tasks(nodes: Seq<MdNode>, b: Seq<u8>, sec: SectionView, k: int) -> Seq<int>
    decreases k,
{
    if k <= 0 {
        seq![]
    } else if section_task(nodes, b, sec, k - 1) {
        section_tasks(nodes, b, sec, k - 1).push(k - 1)
    } else {
        section_tasks(nodes, b, sec, k - 1)
    }
}

/// Task `j` carries a `todo-` block ID.
pub open spec fn is_todo(nodes: Seq<MdNode>, j: int) -> bool {
    item_block_id(nodes, j) is Some && starts_with(item_block_id(nodes, j)->0, "todo-"@)
}

/// The Todo that task `j` makes, before criteria and children are attached: its ID, trimmed
/// own text, status, and the fields on the lines below it.
pub open spec fn base_todo(source: Seq<char>, nodes: Seq<MdNode>, j: int) -> TodoTreeView {
    let line = node_line(encode_utf8(source), nodes[j]);
    TodoTreeView {
        id: item_block_id(nodes, j)->0,
        title: own_text(nodes, j),
        status: task_status(nodes[j])->0,
        created_by: field_value_spec(source, line, "Created By"@),
        owner: field_value_spec(source, line, "Owner"@),
        completed_by: field_value_spec(source, line, "Completed By"@),
        depends_on: match field_value_spec(source, line, "Depends On"@) {
            Some(v) => csv_items(split_on(v, ',')),
            None => seq![],
        },
        completion_criteria: seq![],
        handoff: field_values_spec(source, line, "Handoff"@),
        result_summary: field_value_spec(source, line, "Result Summary"@),
        references: field_values_spec(source, line, "Reference"@),
        block_reason: field_value_spec(source, line, "Block Reason"@),
        cancel_reason: field_value_spec(source, line, "Cancel Reason"@),
        children: seq![],
    }
}

/// The Todos of the tasks that carry a `todo-` ID, in order.
pub open spec fn base_todos(source: Seq<char>, nodes: Seq<MdNode>, ts: Seq<int>) -> Seq<TodoTreeView>
    decreases ts.len(),
{
    if ts.len() == 0 {
        seq![]
    } else if is_todo(nodes, ts.last()) {
        base_todos(source, nodes, ts.drop_last()).push(base_todo(source, nodes, ts.last()))
    } else {
        base_todos(source, nodes, ts.drop_last())
    }
}

/// The position of the last Todo with the ID.
pub open spec fn last_todo(todos: Seq<TodoTreeView>, id: Seq<char>) -> Option<int>
    decreases todos.len(),
{
    if todos.len() == 0 {
        None
    } else if todos.last().id == id {
        Some(todos.len() - 1)
    } else {
        last_todo(todos.drop_last(), id)
    }
}

/// The Todos after each of the first `k` tasks under a `Completion Criteria:` item of a Todo
/// was added to that Todo's criteria, checked when the task is completed.
pub open spec fn with_criteria(todos: Seq<TodoTreeView>, nodes: Seq<MdNode>, ts: Seq<int>) -> Seq<TodoTreeView>
    decreases ts.len(),
{
    if ts.len() == 0 {
        todos
    } else {
        let prev = with_criteria(todos, nodes, ts.drop_last());
        let t = ts.last();
        match todo_ancestor(nodes, t) {
            Some(pid) => match last_todo(todos, pid) {
                Some(p) => if has_label_ancestor(nodes, t, "Completion Criteria:"@) {
                    prev.update(
                        p,
                        TodoTreeView {
                            completion_criteria: prev[p].completion_criteria.push(
                                (own_text(nodes, t), task_status(nodes[t]) == Some(TodoStatus::Completed)),
                            ),
                            ..prev[p]
                        },
                    )
                } else {
                    prev
                },
                None => prev,
            },
            None => prev,
        }
    }
}

/// The (parent, child) positions of the `todo-` tasks under a `Children:` item of a Todo, in
/// order; pairs whose IDs name no Todo are left out.
pub open spec fn tree_pairs(nodes: Seq<MdNode>, ts: Seq<int>, todos: Seq<TodoTreeView>) -> Seq<(int, int)>
    decreases ts.len(),
{
    if ts.len() == 0 {
        seq![]
    } else {
        let prev = tree_pairs(nodes, ts.drop_last(), todos);
        let t = ts.last();
        if is_todo(nodes, t) && has_label_ancestor(nodes, t, "Children:"@) && todo_ancestor(nodes, t) is Some {
            match (last_todo(todos, todo_ancestor(nodes, t)->0), last_todo(todos, item_block_id(nodes, t)->0)) {
                (Some(p), Some(c)) => prev.push((p, c)),
                _ => prev,
            }
        } else {
            prev
        }
    }
}

/// The Todos after, for each pair in turn, a copy of the child as it stands then was added to
/// the parent's children (a Todo is never its own child).
pub open spec fn with_children(todos: Seq<TodoTreeView>, pairs: Seq<(int, int)>) -> Seq<TodoTreeView>
    decreases pairs.len(),
{
    if pairs.len() == 0 {
        todos
    } else {
        let prev = with_children(todos, pairs.drop_last());
        let (p, c) = pairs.last();
        if p != c {
            prev.update(p, TodoTreeView { children: prev[p].children.push(prev[c]), ..prev[p] })
        } else {
            prev
        }
    }
}

/// Some Todo holds a child with the ID.
pub open spec fn is_child_id(todos: Seq<TodoTreeView>, id: Seq<char>) -> bool {
    exists|i: int, k: int|
        0 <= i < todos.len() && 0 <= k < todos[i].children.len() && (#[trigger] todos[i].children[k]).id == id
}

/// The Todos whose IDs no Todo holds as a child, in order.
pub open spec fn top_todos(todos: Seq<TodoTreeView>, all: Seq<TodoTreeView>) -> Seq<TodoTreeView>
    decreases todos.len(),
{
    if todos.len() == 0 {
        seq![]
    } else if is_child_id(all, todos.last().id) {
        top_todos(todos.drop_last(), all)
    } else {
        top_todos(todos.drop_last(), all).push(todos.last())
    }
}

/// The Todo tree of a `blueprint/v2` Todos section: every `todo-` task becomes a Todo with
/// its fields; tasks under a Todo's `Completion Criteria:` item become its criteria; `todo-`
/// tasks under a Todo's `Children:` item are copied into its children, pair by pair; Todos
/// held as children are then left out of the top level.
pub open spec fn tree_spec(source: Seq<char>, sec: SectionView, nodes: Seq<MdNode>) -> Seq<TodoTreeView> {
    let ts = section_tasks(nodes, encode_utf8(source), sec, nodes.len() as int);
    let base = base_todos(source, nodes, ts);
    let criteria = with_criteria(base, nodes, ts);
    let done = with_children(criteria, tree_pairs(nodes, ts, base));
    top_todos(done, done)
}

/// Two Todos with the same fields have the same view.
pub proof fn lemma_same_view(a: Todo, b: Todo)
    requires
        same_todo(a, b),
    ensures
        tree_view(a) == tree_view(b),
    decreases a,
{
    assert forall|k: int| 0 <= k < a.children@.len() implies tree_view(a.children@[k]) == tree_view(
        b.children@[k],
    ) by {
        assert(decreases_to!(a => a.children));
        assert(decreases_to!(a.children => a.children@));
        assert(decreases_to!(a.children@ => a.children@[k]));
        lemma_same_view(a.children@[k], b.children@[k]);
    }
    assert(tree_view(a).children =~= tree_view(b).children);
}

/// Whether node `j` is a task of the section.
fn is_section_task(source: &str, sec: &Section, nodes: &Vec<MdNode>, j: usize) -> (b: bool)
    requires
        well_formed(nodes@),
        j < nodes.len(),
    ensures
        b == section_task(nodes@, encode_utf8(source@), sec@, j as int),
{
    let n = &nodes[j];
    if n.kind != MdKind::ListItem {
        return false;
    }
    let status = match n.task {
        Some(c) => TodoStatus::from_marker(c),
        None => None,
    };
    if status.is_none() {
        return false;
    }
    let line = line_number_for_byte(source, n.start);
    let offset = byte_offset_for_line(source, line);
    if !(sec.body_start <= offset && offset < sec.body_end) {
        return false;
    }
    is_protocol_task(nodes, j)
}

/// The positions of the section's tasks, in order.
fn collect_section_tasks(source: &str, sec: &Section, nodes: &Vec<MdNode>) -> (ts: Vec<usize>)
    requires
        well_formed(nodes@),
    ensures
        ts@.map_values(|i: usize| i as int) == section_tasks(
            nodes@,
            encode_utf8(source@),
            sec@,
            nodes.len() as int,
        ),
        forall|k: int| 0 <= k < ts.len() ==> (#[trigger] ts@[k]) < nodes.len(),
{
    let mut ts: Vec<usize> = Vec::new();
    let mut j: usize = 0;
    while j < nodes.len()
        invariant
            j <= nodes.len(),
            well_formed(nodes@),
            ts@.map_values(|i: usize| i as int) == section_tasks(nodes@, encode_utf8(source@), sec@, j as int),
            forall|k: int| 0 <= k < ts.len() ==> (#[trigger] ts@[k]) < nodes.len(),
        decreases nodes.len() - j,
    {
        if is_section_task(source, sec, nodes, j) {
            let ghost before = ts@;
            ts.push(j);
            assert(ts@.map_values(|i: usize| i as int) =~= before.map_values(|i: usize| i as int).push(j as int));
        }
        j += 1;
    }
    ts
}

proof fn lemma_section_tasks_are_tasks(nodes: Seq<MdNode>, b: Seq<u8>, sec: SectionView, n: int, k: int)
    requires
        0 <= k < section_tasks(nodes, b, sec, n).len(),
    ensures
        section_task(nodes, b, sec, section_tasks(nodes, b, sec, n)[k]),
        0 <= section_tasks(nodes, b, sec, n)[k] < n,
    decreases n,
{
    if n > 0 {
        let prev = section_tasks(nodes, b, sec, n - 1);
        if section_task(nodes, b, sec, n - 1) {
            if k < prev.len() {
                lemma_section_tasks_are_tasks(nodes, b, sec, n - 1, k);
            }
        } else {
            lemma_section_tasks_are_tasks(nodes, b, sec, n - 1, k);
        }
    }
}

/// Whether task `j` carries a `todo-` ID.
fn has_todo_id(nodes: &Vec<MdNode>, j: usize) -> (b: bool)
    requires
        well_formed(nodes@),
        j < nodes.len(),
    ensures
        b == is_todo(nodes@, j as int),
{
    match list_item_block_id(nodes, j) {
        Some(id) => starts_with_todo(&id),
        None => false,
    }
}

/// The Todo that task `j` makes, before criteria and children are attached.
fn base_todo_of(source: &str, nodes: &Vec<MdNode>, j: usize) -> (r: Todo)
    requires
        well_formed(nodes@),
        j < nodes.len(),
        task_status(nodes@[j as int]) is Some,
        item_block_id(nodes@, j as int) is Some,
    ensures
        tree_view(r) == base_todo(source@, nodes@, j as int),
{
    let n = &nodes[j];
    let line = line_number_for_byte(source, n.start);
    proof {
        assert(source.spec_bytes() == encode_utf8(source@));
    }
    let id = match list_item_block_id(nodes, j) {
        Some(id) => id,
        None => String::new(),
    };
    let status = match n.task {
        Some(c) => match TodoStatus::from_marker(c) {
            Some(s) => s,
            None => TodoStatus::Pending,
        },
        None => TodoStatus::Pending,
    };
    let depends_on = match field_value(source, line, "Depends On") {
        Some(v) => split_csv(v.as_str()),
        None => Vec::new(),
    };
    let t = Todo {
        id,
        title: own_text_of(nodes, j),
        status,
        created_by: field_value(source, line, "Created By"),
        owner: field_value(source, line, "Owner"),
        completed_by: field_value(source, line, "Completed By"),
        depends_on,
        completion_criteria: Vec::new(),
        handoff: field_values(source, line, "Handoff"),
        result_summary: field_value(source, line, "Result Summary"),
        references: field_values(source, line, "Reference"),
        block_reason: field_value(source, line, "Block Reason"),
        cancel_reason: field_value(source, line, "Cancel Reason"),
        children: Vec::new(),
    };
    proof {
        let e = base_todo(source@, nodes@, j as int);
        assert(tree_view(t).children =~= e.children);
        assert(tree_view(t).completion_criteria =~= e.completion_criteria);
        assert(tree_view(t).depends_on =~= e.depends_on);
        assert(opt_view(t.created_by) == e.created_by);
        assert(opt_view(t.owner) == e.owner);
        assert(opt_view(t.completed_by) == e.completed_by);
        assert(opt_view(t.result_summary) == e.result_summary);
        assert(opt_view(t.block_reason) == e.block_reason);
        assert(opt_view(t.cancel_reason) == e.cancel_reason);
    }
    t
}

/// The Todos of the `todo-` tasks, in order (see `base_todos`).
fn build_base(source: &str, nodes: &Vec<MdNode>, ts: &Vec<usize>) -> (r: Vec<Todo>)
    requires
        well_formed(nodes@),
        forall|k: int| 0 <= k < ts.len() ==> (#[trigger] ts@[k]) < nodes.len(),
        forall|k: int| 0 <= k < ts.len() ==> task_status(nodes@[#[trigger] ts@[k] as int]) is Some,
    ensures
        tree_views(r@) == base_todos(source@, nodes@, ts@.map_values(|i: usize| i as int)),
{
    let ghost tv = ts@.map_values(|i: usize| i as int);
    let mut r: Vec<Todo> = Vec::new();
    let mut k: usize = 0;
    assert(tv.take(0) =~= Seq::<int>::empty());
    assert(tree_views(r@) =~= Seq::<TodoTreeView>::empty());
    while k < ts.len()
        invariant
            k <= ts.len(),
            well_formed(nodes@),
            tv == ts@.map_values(|i: usize| i as int),
            forall|q: int| 0 <= q < ts.len() ==> (#[trigger] ts@[q]) < nodes.len(),
            forall|q: int| 0 <= q < ts.len() ==> task_status(nodes@[#[trigger] ts@[q] as int]) is Some,
            tree_views(r@) == base_todos(source@, nodes@, tv.take(k as int)),
        decreases ts.len() - k,
    {
        let j = ts[k];
        proof {
            assert(tv.take(k + 1).drop_last() =~= tv.take(k as int));
            assert(tv.take(k + 1).last() == j as int);
        }
        if has_todo_id(nodes, j) {
            let t = base_todo_of(source, nodes, j);
            let ghost before = r@;
            r.push(t);
            assert(tree_views(r@) =~= tree_views(before).push(tree_view(t)));
        }
        k += 1;
    }
    assert(tv.take(ts.len() as int) =~= tv);
    r
}

/// The position of the last Todo with the ID.
fn last_todo_index(todos: &Vec<Todo>, id: &String) -> (r: Option<usize>)
    ensures
        match r {
            Some(i) => last_todo(tree_views(todos@), id@) == Some(i as int) && i < todos.len(),
            None => last_todo(tree_views(todos@), id@) is None,
        },
{
    let ghost v = tree_views(todos@);
    let mut i = todos.len();
    assert(v.take(i as int) =~= v);
    while i > 0
        invariant
            i <= todos.len(),
            v == tree_views(todos@),
            last_todo(v, id@) == last_todo(v.take(i as int), id@),
        decreases i,
    {
        assert(v.take(i as int).drop_last() =~= v.take(i - 1));
        if todos[i - 1].id == *id {
            return Some(i - 1);
        }
        i -= 1;
    }
    None
}

/// Todos with the same IDs, position by position, find the same last position for an ID.
proof fn lemma_last_todo_ids(a: Seq<TodoTreeView>, b: Seq<TodoTreeView>, id: Seq<char>)
    requires
        a.len() == b.len(),
        forall|i: int| 0 <= i < a.len() ==> (#[trigger] a[i]).id == b[i].id,
    ensures
        last_todo(a, id) == last_todo(b, id),
    decreases a.len(),
{
    if a.len() > 0 {
        lemma_last_todo_ids(a.drop_last(), b.drop_last(), id);
    }
}

/// The last Todo with an ID lies inside the list and has the ID.
pub proof fn lemma_last_todo(todos: Seq<TodoTreeView>, id: Seq<char>)
    ensures
        last_todo(todos, id) matches Some(p) ==> 0 <= p < todos.len() && todos[p].id == id,
    decreases todos.len(),
{
    if todos.len() > 0 {
        lemma_last_todo(todos.drop_last(), id);
    }
}

proof fn lemma_criteria_ids(todos: Seq<TodoTreeView>, nodes: Seq<MdNode>, ts: Seq<int>)
    ensures
        with_criteria(todos, nodes, ts).len() == todos.len(),
        forall|i: int| 0 <= i < todos.len() ==> (#[trigger] with_criteria(todos, nodes, ts)[i]).id == todos[i].id,
    decreases ts.len(),
{
    if ts.len() > 0 {
        lemma_criteria_ids(todos, nodes, ts.drop_last());
        let t = ts.last();
        if let Some(pid) = todo_ancestor(nodes, t) {
            lemma_last_todo(todos, pid);
        }
    }
}

/// Adds each task under a `Completion Criteria:` item to its Todo's criteria (see
/// `with_criteria`).
fn add_criteria(todos: &mut Vec<Todo>, nodes: &Vec<MdNode>, ts: &Vec<usize>)
    requires
        well_formed(nodes@),
        forall|k: int| 0 <= k < ts.len() ==> (#[trigger] ts@[k]) < nodes.len(),
        forall|k: int| 0 <= k < ts.len() ==> task_status(nodes@[#[trigger] ts@[k] as int]) is Some,
    ensures
        tree_views(final(todos)@) == with_criteria(tree_views(old(todos)@), nodes@, ts@.map_values(|i: usize| i as int)),
{
    let ghost tv = ts@.map_values(|i: usize| i as int);
    let ghost base = tree_views(todos@);
    let mut k: usize = 0;
    assert(tv.take(0) =~= Seq::<int>::empty());
    while k < ts.len()
        invariant
            k <= ts.len(),
            well_formed(nodes@),
            tv == ts@.map_values(|i: usize| i as int),
            forall|q: int| 0 <= q < ts.len() ==> (#[trigger] ts@[q]) < nodes.len(),
            forall|q: int| 0 <= q < ts.len() ==> task_status(nodes@[#[trigger] ts@[q] as int]) is Some,
            tree_views(todos@) == with_criteria(base, nodes@, tv.take(k as int)),
        decreases ts.len() - k,
    {
        let t = ts[k];
        proof {
            assert(tv.take(k + 1).drop_last() =~= tv.take(k as int));
            assert(tv.take(k + 1).last() == t as int);
            lemma_criteria_ids(base, nodes@, tv.take(k as int));
        }
        if let Some(pid) = nearest_todo_ancestor(nodes, t) {
            let found = last_todo_index(todos, &pid);
            proof {
                lemma_last_todo_ids(tree_views(todos@), base, pid@);
            }
            if let Some(p) = found {
                if has_ancestor_label(nodes, t, "Completion Criteria:") {
                    let completed = match nodes[t].task {
                        Some(c) => match TodoStatus::from_marker(c) {
                            Some(TodoStatus::Completed) => true,
                            _ => false,
                        },
                        None => false,
                    };
                    let item = CheckItem { text: own_text_of(nodes, t), completed };
                    let ghost before = todos@;
                    let mut todo = todos.remove(p);
                    let ghost old_todo = todo;
                    todo.completion_criteria.push(item);
                    proof {
                        assert(tree_view(todo).completion_criteria =~= tree_view(old_todo).completion_criteria.push(check_view(item)));
                        assert(tree_view(todo).children =~= tree_view(old_todo).children);
                        assert(check_view(item) == (own_text(nodes@, t as int), task_status(nodes@[t as int]) == Some(TodoStatus::Completed)));
                        assert(tree_view(todo) == TodoTreeView {
                            completion_criteria: tree_view(old_todo).completion_criteria.push(check_view(item)),
                            ..tree_view(old_todo)
                        });
                    }
                    todos.insert(p, todo);
                    assert(todos@ =~= before.update(p as int, todo));
                    assert(tree_views(todos@) =~= tree_views(before).update(p as int, tree_view(todo)));
                }
            }
        }
        k += 1;
    }
    assert(tv.take(ts.len() as int) =~= tv);
}

pub open spec fn pairs_int(v: Seq<(usize, usize)>) -> Seq<(int, int)> {
    v.map_values(|p: (usize, usize)| (p.0 as int, p.1 as int))
}

/// The (parent, child) pairs of the tasks (see `tree_pairs`).
fn collect_tree_pairs(nodes: &Vec<MdNode>, ts: &Vec<usize>, base: &Vec<Todo>) -> (r: Vec<(usize, usize)>)
    requires
        well_formed(nodes@),
        forall|k: int| 0 <= k < ts.len() ==> (#[trigger] ts@[k]) < nodes.len(),
    ensures
        pairs_int(r@) == tree_pairs(nodes@, ts@.map_values(|i: usize| i as int), tree_views(base@)),
        forall|k: int| 0 <= k < r.len() ==> (#[trigger] r@[k]).0 < base.len() && r@[k].1 < base.len(),
{
    let ghost tv = ts@.map_values(|i: usize| i as int);
    let mut r: Vec<(usize, usize)> = Vec::new();
    let mut k: usize = 0;
    while k < ts.len()
        invariant
            k <= ts.len(),
            well_formed(nodes@),
            tv == ts@.map_values(|i: usize| i as int),
            forall|q: int| 0 <= q < ts.len() ==> (#[trigger] ts@[q]) < nodes.len(),
            pairs_int(r@) == tree_pairs(nodes@, tv.take(k as int), tree_views(base@)),
            forall|q: int| 0 <= q < r.len() ==> (#[trigger] r@[q]).0 < base.len() && r@[q].1 < base.len(),
        decreases ts.len() - k,
    {
        let t = ts[k];
        proof {
            assert(tv.take(k + 1).drop_last() =~= tv.take(k as int));
            assert(tv.take(k + 1).last() == t as int);
        }
        if has_todo_id(nodes, t) && has_ancestor_label(nodes, t, "Children:") {
            if let Some(parent_id) = nearest_todo_ancestor(nodes, t) {
                if let Some(child_id) = list_item_block_id(nodes, t) {
                    let p = last_todo_index(base, &parent_id);
                    let c = last_todo_index(base, &child_id);
                    if let (Some(p), Some(c)) = (p, c) {
                        let ghost before = r@;
                        r.push((p, c));
                        assert(pairs_int(r@) =~= pairs_int(before).push((p as int, c as int)));
                    }
                }
            }
        }
        k += 1;
    }
    assert(tv.take(ts.len() as int) =~= tv);
    r
}

proof fn lemma_children_len(todos: Seq<TodoTreeView>, pairs: Seq<(int, int)>)
    requires
        forall|k: int| 0 <= k < pairs.len() ==> 0 <= (#[trigger] pairs[k]).0 < todos.len() && 0 <= pairs[k].1 < todos.len(),
    ensures
        with_children(todos, pairs).len() == todos.len(),
    decreases pairs.len(),
{
    if pairs.len() > 0 {
        lemma_children_len(todos, pairs.drop_last());
    }
}

/// Copies each child into its parent's children, pair by pair (see `with_children`).
fn add_children(todos: &mut Vec<Todo>, pairs: &Vec<(usize, usize)>)
    requires
        forall|k: int| 0 <= k < pairs.len() ==> (#[trigger] pairs@[k]).0 < old(todos).len() && pairs@[k].1 < old(
            todos,
        ).len(),
    ensures
        tree_views(final(todos)@) == with_children(tree_views(old(todos)@), pairs_int(pairs@)),
{
    let ghost pv = pairs_int(pairs@);
    let ghost start = tree_views(todos@);
    let ghost n = todos.len();
    let mut k: usize = 0;
    assert(pv.take(0) =~= Seq::<(int, int)>::empty());
    while k < pairs.len()
        invariant
            k <= pairs.len(),
            pv == pairs_int(pairs@),
            todos.len() == n,
            forall|q: int| 0 <= q < pairs.len() ==> (#[trigger] pairs@[q]).0 < n && pairs@[q].1 < n,
            tree_views(todos@) == with_children(start, pv.take(k as int)),
        decreases pairs.len() - k,
    {
        let (p, c) = pairs[k];
        proof {
            assert(pv.take(k + 1).drop_last() =~= pv.take(k as int));
            assert(pv.take(k + 1).last() == (p as int, c as int));
        }
        if p != c {
            let child = clone_todo(&todos[c]);
            proof {
                lemma_same_view(child, todos@[c as int]);
            }
            let ghost before = todos@;
            let mut todo = todos.remove(p);
            let ghost old_todo = todo;
            todo.children.push(child);
            proof {
                assert(tree_view(todo).children =~= tree_view(old_todo).children.push(tree_view(child)));
                assert(tree_view(todo).completion_criteria =~= tree_view(old_todo).completion_criteria);
                assert(tree_view(todo) == TodoTreeView {
                    children: tree_view(old_todo).children.push(tree_view(child)),
                    ..tree_view(old_todo)
                });
            }
            todos.insert(p, todo);
            assert(todos@ =~= before.update(p as int, todo));
            assert(tree_views(todos@) =~= tree_views(before).update(p as int, tree_view(todo)));
        }
        k += 1;
    }
    assert(pv.take(pairs.len() as int) =~= pv);
}

/// Whether some Todo holds a child with the ID.
fn holds_child(todos: &Vec<Todo>, id: &String) -> (b: bool)
    ensures
        b == is_child_id(tree_views(todos@), id@),
{
    let ghost v = tree_views(todos@);
    let mut i: usize = 0;
    while i < todos.len()
        invariant
            i <= todos.len(),
            v == tree_views(todos@),
            forall|a: int, k: int| 0 <= a < i && 0 <= k < v[a].children.len() ==> (#[trigger] v[a].children[k]).id != id@,
        decreases todos.len() - i,
    {
        let t = &todos[i];
        let mut k: usize = 0;
        while k < t.children.len()
            invariant
                k <= t.children.len(),
                i < todos.len(),
                t == todos@[i as int],
                v == tree_views(todos@),
                forall|q: int| 0 <= q < k ==> (#[trigger] v[i as int].children[q]).id != id@,
            decreases t.children.len() - k,
        {
            assert(v[i as int].children[k as int] == tree_view(t.children@[k as int]));
            if t.children[k].id == *id {
                assert(v[i as int].children[k as int].id == id@);
                return true;
            }
            k += 1;
        }
        i += 1;
    }
    false
}

/// The Todos that no Todo holds as a child, in order (see `top_todos`).
fn keep_top(todos: &Vec<Todo>) -> (r: Vec<Todo>)
    ensures
        tree_views(r@) == top_todos(tree_views(todos@), tree_views(todos@)),
{
    let ghost v = tree_views(todos@);
    let mut out: Vec<Todo> = Vec::new();
    let mut i: usize = 0;
    assert(v.take(0) =~= Seq::<TodoTreeView>::empty());
    assert(tree_views(out@) =~= Seq::<TodoTreeView>::empty());
    while i < todos.len()
        invariant
            i <= todos.len(),
            v == tree_views(todos@),
            tree_views(out@) == top_todos(v.take(i as int), v),
        decreases todos.len() - i,
    {
        assert(v.take(i + 1).drop_last() =~= v.take(i as int));
        assert(v.take(i + 1).last() == tree_view(todos@[i as int]));
        if !holds_child(todos, &todos[i].id) {
            let t = clone_todo(&todos[i]);
            proof {
                lemma_same_view(t, todos@[i as int]);
            }
            let ghost before = out@;
            out.push(t);
            assert(tree_views(out@) =~= tree_views(before).push(tree_view(t)));
        }
        i += 1;
    }
    assert(v.take(todos.len() as int) =~= v);
    out
}

/// The Todo tree of the section, read from the outline of the document's Markdown (see
/// `tree_spec`).
pub fn tree_from_outline(source: &str, sec: &Section, nodes: &Vec<MdNode>) -> (r: Vec<Todo>)
    requires
        well_formed(nodes@),
    ensures
        tree_views(r@) == tree_spec(source@, sec@, nodes@),
{
    let ts = collect_section_tasks(source, sec, nodes);
    let ghost tv = ts@.map_values(|i: usize| i as int);
    proof {
        assert forall|k: int| 0 <= k < ts.len() implies task_status(nodes@[#[trigger] ts@[k] as int]) is Some by {
            lemma_section_tasks_are_tasks(nodes@, encode_utf8(source@), sec@, nodes.len() as int, k);
            assert(tv[k] == ts@[k] as int);
        }
    }
    let base = build_base(source, nodes, &ts);
    let pairs = collect_tree_pairs(nodes, &ts, &base);
    let ghost bv = tree_views(base@);
    let mut todos = base;
    add_criteria(&mut todos, nodes, &ts);
    proof {
        lemma_criteria_ids(bv, nodes@, tv);
    }
    add_children(&mut todos, &pairs);
    keep_top(&todos)
}

/// The schema of `blueprint/v2` documents.
pub fn legacy_schema() -> (s: DocumentSchema)
    ensures
        s.name@ == "blueprint/v2"@,
        views(s.required_sections@) == blueprint_sections(),
{
    let v3 = crate::blueprint::source::blueprint_schema();
    DocumentSchema { name: crate::text::to_string("blueprint/v2"), required_sections: v3.required_sections }
}

/// The outline and frontmatter of the source's parse make a `blueprint/v2` document under the path whose Todos
/// section holds the Todo tree (see `tree_spec`).
pub open spec fn legacy_tree(path: Seq<char>, source: Seq<char>, todos: Seq<TodoTreeView>) -> bool {
    exists|nodes: Seq<MdNode>, fm: Option<Seq<(Seq<char>, Seq<char>)>>|
        #![trigger document_spec(path, source, "blueprint/v2"@, blueprint_sections(), nodes, fm)]
        document_read(source, nodes, fm) && (document_spec(path, source, "blueprint/v2"@, blueprint_sections(), nodes, fm) matches Ok(d)
            && find_section(d.sections, "Todos"@) matches Some(i) && todos == tree_spec(source, d.sections[i], nodes))
}

/// The Todo tree of a `blueprint/v2` document.
pub struct ParsedBlueprintSource {
    pub todos: Vec<Todo>,
}

/// The outline and frontmatter of the source's parse make `outcome`: the refusal of the `blueprint/v2` document or
/// of its missing Todos section, or the Todo tree of that section (see `tree_spec`).
pub open spec fn legacy_parsed(path: Seq<char>, source: Seq<char>, outcome: Result<Seq<TodoTreeView>, Seq<char>>) -> bool {
    exists|nodes: Seq<MdNode>, fm: Option<Seq<(Seq<char>, Seq<char>)>>|
        #![trigger document_spec(path, source, "blueprint/v2"@, blueprint_sections(), nodes, fm)]
        document_read(source, nodes, fm) && match document_spec(path, source, "blueprint/v2"@, blueprint_sections(), nodes, fm) {
            Err(m) => outcome == Err::<Seq<TodoTreeView>, Seq<char>>(m),
            Ok(d) => match find_section(d.sections, "Todos"@) {
                None => outcome == Err::<Seq<TodoTreeView>, Seq<char>>("missing required section: "@ + "Todos"@),
                Some(i) => outcome == Ok::<Seq<TodoTreeView>, Seq<char>>(tree_spec(source, d.sections[i], nodes)),
            },
        }
}

/// The outcome of reading a Todo tree, by its views.
pub open spec fn legacy_outcome(r: Result<ParsedBlueprintSource, String>) -> Result<Seq<TodoTreeView>, Seq<char>> {
    match r {
        Ok(p) => Ok(tree_views(p.todos@)),
        Err(e) => Err(e@),
    }
}

impl ParsedBlueprintSource {
    /// Parses a `blueprint/v2` document and reads the Todo tree of its Todos section (see
    /// `tree_spec`).
    #[verifier::rlimit(30)]
    pub fn parse(path: &str, source: &str) -> (r: Result<Self, String>)
        ensures
            !ends_with(path@, ".md"@) ==> (r matches Err(e) && e@ == "document path must end with .md: "@ + path@),
            r matches Ok(p) ==> legacy_tree(path@, source@, tree_views(p.todos@)),
            ends_with(path@, ".md"@) && !markdown_accepts(source@, false, usize::MAX) ==> r is Err,
            ends_with(path@, ".md"@) && markdown_accepts(source@, false, usize::MAX) ==> legacy_parsed(
                path@,
                source@,
                legacy_outcome(r),
            ),
    {
        if !has_md_suffix(path) {
            let mut m = String::new();
            push_str(&mut m, "document path must end with .md: ");
            push_str(&mut m, path);
            return Err(m);
        }
        let (nodes, frontmatter) = match crate::markdown::document_outline(source) {
            Ok(o) => o,
            Err(e) => {
                let mut m = String::new();
                push_str(&mut m, "invalid Markdown: ");
                push_str(&mut m, e.as_str());
                return Err(m);
            },
        };
        let ghost fm = match &frontmatter {
            Some(e) => Some(entries_view(e@)),
            None => None,
        };
        let schema = legacy_schema();
        let doc = match ParsedDocument::from_outline(path, source, &schema, &nodes, frontmatter) {
            Ok(d) => d,
            Err(e) => {
                proof {
                    assert(document_spec(path@, source@, "blueprint/v2"@, blueprint_sections(), nodes@, fm)
                        == Err::<DocumentView, Seq<char>>(e@));
                    assert(legacy_parsed(path@, source@, Err::<Seq<TodoTreeView>, Seq<char>>(e@)));
                }
                return Err(e);
            },
        };
        let section = match doc.section("Todos") {
            Ok(x) => x,
            Err(e) => {
                proof {
                    reveal_strlit("Todos");
                    assert(document_spec(path@, source@, "blueprint/v2"@, blueprint_sections(), nodes@, fm)
                        == Ok::<DocumentView, Seq<char>>(doc@));
                    assert(legacy_parsed(path@, source@, Err::<Seq<TodoTreeView>, Seq<char>>(e@)));
                }
                return Err(e);
            },
        };
        let todos = tree_from_outline(source, &section, &nodes);
        proof {
            crate::blueprint::document::lemma_find_section(doc@.sections, "Todos"@);
            assert(document_spec(path@, source@, "blueprint/v2"@, blueprint_sections(), nodes@, fm) matches Ok(d)
                && find_section(d.sections, "Todos"@) matches Some(i) && tree_views(todos@) == tree_spec(
                source@,
                d.sections[i],
                nodes@,
            ));
            assert(legacy_parsed(path@, source@, Ok::<Seq<TodoTreeView>, Seq<char>>(tree_views(todos@))));
        }
        Ok(ParsedBlueprintSource { todos })
    }
}

} // verus!
