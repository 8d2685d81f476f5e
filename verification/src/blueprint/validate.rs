//! Validation of the Todo graph: per-state required fields, unique IDs, known dependencies,
//! and the absence of dependency cycles; and the readiness derived from a valid graph.
use vstd::prelude::*;

use crate::blueprint::model::{CheckItem, DependencyStatus, NotReadyTodo, Readiness, Todo, TodoStatus};
use crate::text::{push_str, str_eq};

verus! {

/// A Todo followed by its descendants, in document (pre-)order.
pub open spec fn flat_todo(t: Todo) -> Seq<Todo>
    decreases t, 1int,
{
    seq![t] + flat_forest(t.children@)
}

/// The Todos of a forest and all their descendants, in document (pre-)order.
pub open spec fn flat_forest(s: Seq<Todo>) -> Seq<Todo>
    decreases s, 0int,
{
    if s.len() == 0 {
        seq![]
    } else {
        flat_todo(s[0]) + flat_forest(s.subrange(1, s.len() as int))
    }
}

/// The Todos that a list of references points at.
pub open spec fn derefs(v: Seq<&Todo>) -> Seq<Todo> {
    v.map_values(|r: &Todo| *r)
}

fn collect<'a>(t: &'a Todo, out: &mut Vec<&'a Todo>)
    ensures
        derefs(final(out)@) == derefs(old(out)@) + flat_todo(*t),
    decreases t, 1int,
{
    out.push(t);
    assert(derefs(out@) =~= derefs(old(out)@) + seq![*t]);
    collect_all(&t.children, out);
    assert(derefs(out@) =~= derefs(old(out)@) + flat_todo(*t));
}

fn collect_all<'a>(ts: &'a Vec<Todo>, out: &mut Vec<&'a Todo>)
    ensures
        derefs(final(out)@) == derefs(old(out)@) + flat_forest(ts@),
    decreases ts@, 0int,
{
    let mut i: usize = 0;
    while i < ts.len()
        invariant
            i <= ts.len(),
            derefs(out@) == derefs(old(out)@) + flat_forest(ts@.take(i as int)),
        decreases ts.len() - i,
    {
        collect(&ts[i], out);
        proof {
            lemma_flat_forest_push(ts@.take(i as int), ts@[i as int]);
            assert(ts@.take(i + 1) =~= ts@.take(i as int).push(ts@[i as int]));
        }
        i += 1;
    }
    assert(ts@.take(ts.len() as int) =~= ts@);
}

pub proof fn lemma_flat_forest_push(s: Seq<Todo>, t: Todo)
    ensures
        flat_forest(s.push(t)) == flat_forest(s) + flat_todo(t),
    decreases s.len(),
{
    if s.len() == 0 {
        assert(s.push(t).subrange(1, 1) =~= Seq::<Todo>::empty());
        assert(flat_forest(Seq::<Todo>::empty()) == Seq::<Todo>::empty());
        assert(flat_forest(s.push(t)) =~= flat_todo(t));
    } else {
        let rest = s.subrange(1, s.len() as int);
        assert(s.push(t).subrange(1, s.len() + 1int) =~= rest.push(t));
        lemma_flat_forest_push(rest, t);
        assert(flat_forest(s.push(t)) =~= flat_todo(s[0]) + (flat_forest(rest) + flat_todo(t)));
    }
}

/// Every Todo of the forest, each before its children and in document order.
pub(crate) fn flatten(todos: &[Todo]) -> (out: Vec<&Todo>)
    ensures
        derefs(out@) == flat_forest(todos@),
{
    let mut out: Vec<&Todo> = Vec::new();
    let mut i: usize = 0;
    while i < todos.len()
        invariant
            i <= todos.len(),
            derefs(out@) == flat_forest(todos@.take(i as int)),
        decreases todos.len() - i,
    {
        collect(&todos[i], &mut out);
        proof {
            lemma_flat_forest_push(todos@.take(i as int), todos@[i as int]);
            assert(todos@.take(i + 1) =~= todos@.take(i as int).push(todos@[i as int]));
        }
        i += 1;
    }
    assert(todos@.take(todos.len() as int) =~= todos@);
    out
}

/// An optional field that is present and not empty.
pub open spec fn filled(o: Option<String>) -> bool {
    o matches Some(s) && s@.len() > 0
}

/// The message naming a Todo between two fixed texts.
pub open spec fn todo_message(before: Seq<char>, id: Seq<char>, after: Seq<char>) -> Seq<char> {
    before + id + after
}

/// Some completion criterion of the Todo is still open.
pub open spec fn has_open_criterion(t: Todo) -> bool {
    exists|k: int| 0 <= k < t.completion_criteria.len() && !(#[trigger] t.completion_criteria@[k]).completed
}

/// Some child of the Todo is neither completed nor cancelled.
pub open spec fn has_open_child(t: Todo) -> bool {
    exists|k: int|
        0 <= k < t.children.len() && !((#[trigger] t.children@[k]).status is Completed
            || t.children@[k].status is Cancelled)
}

/// The first field that the Todo's status requires and that it lacks, as the error reported
/// for it; `None` when the Todo has every field its status requires.
pub open spec fn invariant_error(t: Todo) -> Option<Seq<char>> {
    let id = t.id@;
    if !filled(t.created_by) {
        Some(todo_message("Todo "@, id, " is missing Created By"@))
    } else {
        match t.status {
            TodoStatus::Pending => None,
            TodoStatus::InProgress => if !filled(t.owner) {
                Some(todo_message("in_progress Todo "@, id, " is missing Owner"@))
            } else {
                None
            },
            TodoStatus::Completed => if !filled(t.completed_by) {
                Some(todo_message("completed Todo "@, id, " is missing Completed By"@))
            } else if !filled(t.result_summary) {
                Some(todo_message("completed Todo "@, id, " is missing Result Summary"@))
            } else if has_open_criterion(t) {
                Some(todo_message("completed Todo "@, id, " has incomplete Completion Criteria"@))
            } else if has_open_child(t) {
                Some(todo_message("completed Todo "@, id, " has open child Todos"@))
            } else {
                None
            },
            TodoStatus::Blocked => if !filled(t.block_reason) {
                Some(todo_message("blocked Todo "@, id, " is missing Block Reason"@))
            } else if t.handoff.len() == 0 {
                Some(todo_message("blocked Todo "@, id, " is missing Handoff"@))
            } else {
                None
            },
            TodoStatus::Cancelled => if !filled(t.cancel_reason) {
                Some(todo_message("cancelled Todo "@, id, " is missing Cancel Reason"@))
            } else {
                None
            },
        }
    }
}

/// The error of the first Todo in the list that lacks a required field.
pub open spec fn first_invariant_error(f: Seq<Todo>) -> Option<Seq<char>>
    decreases f.len(),
{
    if f.len() == 0 {
        None
    } else {
        match first_invariant_error(f.drop_last()) {
            Some(m) => Some(m),
            None => invariant_error(f.last()),
        }
    }
}

fn message(before: &str, id: &str, after: &str) -> (m: String)
    ensures
        m@ == todo_message(before@, id@, after@),
{
    let mut m = String::new();
    push_str(&mut m, before);
    push_str(&mut m, id);
    push_str(&mut m, after);
    m
}

fn is_filled(o: &Option<String>) -> (b: bool)
    ensures
        b == filled(*o),
{
    match o {
        Some(s) => !s.as_str().is_empty(),
        None => false,
    }
}

fn any_open_criterion(items: &Vec<CheckItem>) -> (b: bool)
    ensures
        b == exists|k: int| 0 <= k < items.len() && !(#[trigger] items@[k]).completed,
{
    let mut i: usize = 0;
    while i < items.len()
        invariant
            i <= items.len(),
            forall|k: int| 0 <= k < i ==> (#[trigger] items@[k]).completed,
        decreases items.len() - i,
    {
        if !items[i].completed {
            return true;
        }
        i += 1;
    }
    false
}

fn any_open_child(children: &Vec<Todo>) -> (b: bool)
    ensures
        b == exists|k: int|
            0 <= k < children.len() && !((#[trigger] children@[k]).status is Completed
                || children@[k].status is Cancelled),
{
    let mut i: usize = 0;
    while i < children.len()
        invariant
            i <= children.len(),
            forall|k: int|
                0 <= k < i ==> ((#[trigger] children@[k]).status is Completed
                    || children@[k].status is Cancelled),
        decreases children.len() - i,
    {
        match children[i].status {
            TodoStatus::Completed | TodoStatus::Cancelled => {},
            _ => {
                return true;
            },
        }
        i += 1;
    }
    false
}

/// The error for the first field that the Todo's status requires and that it lacks.
fn todo_invariant_error(t: &Todo) -> (r: Option<String>)
    ensures
        r is None <==> invariant_error(*t) is None,
        r matches Some(m) ==> invariant_error(*t) == Some(m@),
{
    let id = t.id.as_str();
    if !is_filled(&t.created_by) {
        return Some(message("Todo ", id, " is missing Created By"));
    }
    match t.status {
        TodoStatus::Pending => None,
        TodoStatus::InProgress => if !is_filled(&t.owner) {
            Some(message("in_progress Todo ", id, " is missing Owner"))
        } else {
            None
        },
        TodoStatus::Completed => if !is_filled(&t.completed_by) {
            Some(message("completed Todo ", id, " is missing Completed By"))
        } else if !is_filled(&t.result_summary) {
            Some(message("completed Todo ", id, " is missing Result Summary"))
        } else if any_open_criterion(&t.completion_criteria) {
            Some(message("completed Todo ", id, " has incomplete Completion Criteria"))
        } else if any_open_child(&t.children) {
            Some(message("completed Todo ", id, " has open child Todos"))
        } else {
            None
        },
        TodoStatus::Blocked => if !is_filled(&t.block_reason) {
            Some(message("blocked Todo ", id, " is missing Block Reason"))
        } else if t.handoff.len() == 0 {
            Some(message("blocked Todo ", id, " is missing Handoff"))
        } else {
            None
        },
        TodoStatus::Cancelled => if !is_filled(&t.cancel_reason) {
            Some(message("cancelled Todo ", id, " is missing Cancel Reason"))
        } else {
            None
        },
    }
}

/// Checks, Todo by Todo, that each has the fields its status requires; the first that lacks
/// one is reported.
fn validate_todo_invariants(todos: &Vec<&Todo>) -> (r: Result<(), String>)
    ensures
        r is Ok <==> first_invariant_error(derefs(todos@)) is None,
        r matches Err(m) ==> first_invariant_error(derefs(todos@)) == Some(m@),
{
    let ghost f = derefs(todos@);
    let mut i: usize = 0;
    while i < todos.len()
        invariant
            i <= todos.len(),
            f == derefs(todos@),
            first_invariant_error(f.take(i as int)) is None,
        decreases todos.len() - i,
    {
        let t: &Todo = todos[i];
        assert(f.take(i + 1).drop_last() =~= f.take(i as int));
        assert(f.take(i + 1).last() == *t);
        match todo_invariant_error(t) {
            Some(m) => {
                proof {
                    assert(first_invariant_error(f.take(i + 1)) == Some(m@));
                    lemma_first_error_extends(f, i + 1);
                }
                return Err(m);
            },
            None => {},
        }
        i += 1;
    }
    assert(f.take(todos.len() as int) =~= f);
    Ok(())
}

/// Once a prefix of the list holds an error, the whole list reports that error.
proof fn lemma_first_error_extends(f: Seq<Todo>, n: int)
    requires
        0 <= n <= f.len(),
        first_invariant_error(f.take(n)) is Some,
    ensures
        first_invariant_error(f) == first_invariant_error(f.take(n)),
    decreases f.len() - n,
{
    if n < f.len() {
        assert(f.take(n + 1).drop_last() =~= f.take(n));
        lemma_first_error_extends(f, n + 1);
    } else {
        assert(f.take(n) =~= f);
    }
}

/// The error for the first Todo whose ID an earlier Todo of the list already has.
pub open spec fn duplicate_error(f: Seq<Todo>) -> Option<Seq<char>>
    decreases f.len(),
{
    if f.len() == 0 {
        None
    } else {
        match duplicate_error(f.drop_last()) {
            Some(m) => Some(m),
            None => if exists|i: int| 0 <= i < f.len() - 1 && (#[trigger] f[i]).id@ == f.last().id@ {
                Some("duplicate Todo ID: "@ + f.last().id@)
            } else {
                None
            },
        }
    }
}

/// No two Todos of the list share an ID.
pub open spec fn unique_ids(f: Seq<Todo>) -> bool {
    forall|i: int, j: int| 0 <= i < j < f.len() ==> (#[trigger] f[i]).id@ != (#[trigger] f[j]).id@
}

/// Some Todo of the list has the ID.
pub open spec fn has_id(f: Seq<Todo>, id: Seq<char>) -> bool {
    exists|j: int| 0 <= j < f.len() && (#[trigger] f[j]).id@ == id
}

/// The error for the first of the dependencies that is the Todo itself or names no Todo of
/// the list.
pub open spec fn dependency_list_error(f: Seq<Todo>, t: Todo, deps: Seq<String>) -> Option<
    Seq<char>,
>
    decreases deps.len(),
{
    if deps.len() == 0 {
        None
    } else {
        match dependency_list_error(f, t, deps.drop_last()) {
            Some(m) => Some(m),
            None => {
                let d = deps.last()@;
                if d == t.id@ {
                    Some("Todo "@ + t.id@ + " cannot depend on itself"@)
                } else if !has_id(f, d) {
                    Some("Todo "@ + t.id@ + " depends on unknown Todo "@ + d)
                } else {
                    None
                }
            },
        }
    }
}

/// The error for the first dependency, over the Todos of `g` in order, that is the Todo
/// itself or names no Todo of `f`.
pub open spec fn dependency_error(f: Seq<Todo>, g: Seq<Todo>) -> Option<Seq<char>>
    decreases g.len(),
{
    if g.len() == 0 {
        None
    } else {
        match dependency_error(f, g.drop_last()) {
            Some(m) => Some(m),
            None => dependency_list_error(f, g.last(), g.last().depends_on@),
        }
    }
}

/// The first error that the field, ID and dependency checks report, in that order.
pub open spec fn precheck_error(f: Seq<Todo>) -> Option<Seq<char>> {
    match first_invariant_error(f) {
        Some(m) => Some(m),
        None => match duplicate_error(f) {
            Some(m) => Some(m),
            None => dependency_error(f, f),
        },
    }
}

proof fn lemma_duplicate_error_unique(f: Seq<Todo>)
    ensures
        duplicate_error(f) is None <==> unique_ids(f),
    decreases f.len(),
{
    if f.len() > 0 {
        let p = f.drop_last();
        lemma_duplicate_error_unique(p);
        if unique_ids(f) {
            assert forall|i: int, j: int| 0 <= i < j < p.len() implies (#[trigger] p[i]).id@
                != (#[trigger] p[j]).id@ by {
                assert(p[i] == f[i] && p[j] == f[j]);
            }
            if exists|i: int| 0 <= i < f.len() - 1 && (#[trigger] f[i]).id@ == f.last().id@ {
                let i = choose|i: int| 0 <= i < f.len() - 1 && (#[trigger] f[i]).id@ == f.last().id@;
                assert(f[i].id@ != f[f.len() - 1].id@);
            }
        } else {
            let (i, j) = choose|i: int, j: int|
                0 <= i < j < f.len() && (#[trigger] f[i]).id@ == (#[trigger] f[j]).id@;
            if j < f.len() - 1 {
                assert(p[i] == f[i] && p[j] == f[j]);
            } else {
                assert(f[i].id@ == f.last().id@);
            }
        }
    }
}

proof fn lemma_duplicate_error_extends(f: Seq<Todo>, n: int)
    requires
        0 <= n <= f.len(),
        duplicate_error(f.take(n)) is Some,
    ensures
        duplicate_error(f) == duplicate_error(f.take(n)),
    decreases f.len() - n,
{
    if n < f.len() {
        assert(f.take(n + 1).drop_last() =~= f.take(n));
        lemma_duplicate_error_extends(f, n + 1);
    } else {
        assert(f.take(n) =~= f);
    }
}

/// Checks that no two Todos share an ID; the first Todo whose ID is taken is reported.
fn index_by_id(todos: &Vec<&Todo>) -> (r: Result<(), String>)
    ensures
        r is Ok <==> duplicate_error(derefs(todos@)) is None,
        r matches Err(m) ==> duplicate_error(derefs(todos@)) == Some(m@),
        r is Ok ==> unique_ids(derefs(todos@)),
{
    let ghost f = derefs(todos@);
    let mut j: usize = 0;
    while j < todos.len()
        invariant
            j <= todos.len(),
            f == derefs(todos@),
            duplicate_error(f.take(j as int)) is None,
        decreases todos.len() - j,
    {
        let mut i: usize = 0;
        while i < j
            invariant
                i <= j < todos.len(),
                f == derefs(todos@),
                duplicate_error(f.take(j as int)) is None,
                forall|k: int| 0 <= k < i ==> (#[trigger] f[k]).id@ != f[j as int].id@,
            decreases j - i,
        {
            if todos[i].id == todos[j].id {
                let mut m = String::new();
                push_str(&mut m, "duplicate Todo ID: ");
                push_str(&mut m, todos[j].id.as_str());
                proof {
                    let g = f.take(j + 1);
                    assert(g.drop_last() =~= f.take(j as int));
                    assert(g[i as int] == f[i as int]);
                    assert(g.last() == f[j as int]);
                    assert(f[j as int] == *todos@[j as int]);
                    assert(f[i as int] == *todos@[i as int]);
                    assert(g[i as int].id@ == g.last().id@);
                    assert(duplicate_error(g.drop_last()) is None);
                    assert(exists|k: int| 0 <= k < g.len() - 1 && (#[trigger] g[k]).id@ == g.last().id@);
                    assert(m@ == "duplicate Todo ID: "@ + g.last().id@);
                    assert(duplicate_error(g) == Some(m@));
                    lemma_duplicate_error_extends(f, j + 1);
                }
                return Err(m);
            }
            i += 1;
        }
        proof {
            let g = f.take(j + 1);
            assert(g.drop_last() =~= f.take(j as int));
            assert forall|k: int| 0 <= k < g.len() - 1 implies (#[trigger] g[k]).id@ != g.last().id@ by {
                assert(g[k] == f[k]);
            }
        }
        j += 1;
    }
    assert(f.take(todos.len() as int) =~= f);
    proof {
        lemma_duplicate_error_unique(f);
    }
    Ok(())
}

/// The position of the Todo with the ID, if any.
fn find_id(todos: &Vec<&Todo>, id: &str) -> (r: Option<usize>)
    ensures
        r matches Some(j) ==> j < todos.len() && derefs(todos@)[j as int].id@ == id@,
        r is None ==> !has_id(derefs(todos@), id@),
{
    let ghost f = derefs(todos@);
    let mut j: usize = 0;
    while j < todos.len()
        invariant
            j <= todos.len(),
            f == derefs(todos@),
            forall|k: int| 0 <= k < j ==> (#[trigger] f[k]).id@ != id@,
        decreases todos.len() - j,
    {
        assert(f[j as int] == *todos@[j as int]);
        if str_eq(todos[j].id.as_str(), id) {
            return Some(j);
        }
        j += 1;
    }
    None
}

proof fn lemma_dependency_list_error_extends(f: Seq<Todo>, t: Todo, deps: Seq<String>, n: int)
    requires
        0 <= n <= deps.len(),
        dependency_list_error(f, t, deps.take(n)) is Some,
    ensures
        dependency_list_error(f, t, deps) == dependency_list_error(f, t, deps.take(n)),
    decreases deps.len() - n,
{
    if n < deps.len() {
        assert(deps.take(n + 1).drop_last() =~= deps.take(n));
        lemma_dependency_list_error_extends(f, t, deps, n + 1);
    } else {
        assert(deps.take(n) =~= deps);
    }
}

proof fn lemma_dependency_error_extends(f: Seq<Todo>, g: Seq<Todo>, n: int)
    requires
        0 <= n <= g.len(),
        dependency_error(f, g.take(n)) is Some,
    ensures
        dependency_error(f, g) == dependency_error(f, g.take(n)),
    decreases g.len() - n,
{
    if n < g.len() {
        assert(g.take(n + 1).drop_last() =~= g.take(n));
        lemma_dependency_error_extends(f, g, n + 1);
    } else {
        assert(g.take(n) =~= g);
    }
}

/// Each dependency resolved to the position of the Todo it names.
pub open spec fn resolves(f: Seq<Todo>, g: Seq<Vec<usize>>) -> bool {
    &&& g.len() == f.len()
    &&& forall|i: int|
        0 <= i < f.len() ==> (#[trigger] g[i]).len() == f[i].depends_on.len()
    &&& forall|i: int, k: int|
        0 <= i < f.len() && 0 <= k < g[i].len() ==> {
            &&& (#[trigger] g[i]@[k]) < f.len()
            &&& f[g[i]@[k] as int].id@ == f[i].depends_on@[k]@
        }
}

/// The positions of the Todos that one Todo's dependencies name, or the first dependency
/// that is the Todo itself or names no Todo of the list.
fn resolve_one(todos: &Vec<&Todo>, i: usize) -> (r: Result<Vec<usize>, String>)
    requires
        i < todos.len(),
    ensures
        r is Ok <==> dependency_list_error(derefs(todos@), *todos@[i as int], todos@[i as int].depends_on@) is None,
        r matches Err(m) ==> dependency_list_error(derefs(todos@), *todos@[i as int], todos@[i as int].depends_on@) == Some(m@),
        r matches Ok(row) ==> {
            &&& row.len() == todos@[i as int].depends_on.len()
            &&& forall|k: int| 0 <= k < row.len() ==> {
                &&& (#[trigger] row@[k]) < todos.len()
                &&& derefs(todos@)[row@[k] as int].id@ == todos@[i as int].depends_on@[k]@
            }
        },
{
    let ghost f = derefs(todos@);
    let t: &Todo = todos[i];
    let ghost deps = t.depends_on@;
    let mut row: Vec<usize> = Vec::new();
    let mut k: usize = 0;
    while k < t.depends_on.len()
        invariant
            k <= t.depends_on.len(),
            f == derefs(todos@),
            t == todos@[i as int],
            deps == t.depends_on@,
            row.len() == k,
            dependency_list_error(f, *t, deps.take(k as int)) is None,
            forall|q: int| 0 <= q < k ==> {
                &&& (#[trigger] row@[q]) < todos.len()
                &&& f[row@[q] as int].id@ == deps[q]@
            },
        decreases t.depends_on.len() - k,
    {
        let d: &str = t.depends_on[k].as_str();
        proof {
            assert(deps.take(k + 1).drop_last() =~= deps.take(k as int));
            assert(deps.take(k + 1).last() == deps[k as int]);
        }
        if str_eq(d, t.id.as_str()) {
            let mut m = String::new();
            push_str(&mut m, "Todo ");
            push_str(&mut m, t.id.as_str());
            push_str(&mut m, " cannot depend on itself");
            proof {
                assert(m@ == "Todo "@ + t.id@ + " cannot depend on itself"@);
                lemma_dependency_list_error_extends(f, *t, deps, k + 1);
            }
            return Err(m);
        }
        match find_id(todos, d) {
            Some(j) => {
                row.push(j);
            },
            None => {
                let mut m = String::new();
                push_str(&mut m, "Todo ");
                push_str(&mut m, t.id.as_str());
                push_str(&mut m, " depends on unknown Todo ");
                push_str(&mut m, d);
                proof {
                    assert(m@ == "Todo "@ + t.id@ + " depends on unknown Todo "@ + deps[k as int]@);
                    lemma_dependency_list_error_extends(f, *t, deps, k + 1);
                }
                return Err(m);
            },
        }
        k += 1;
    }
    assert(deps.take(deps.len() as int) =~= deps);
    Ok(row)
}

/// Resolves every dependency to the position of the Todo it names, or reports the first
/// dependency that is its own Todo or names no Todo of the list.
fn resolve_dependencies(todos: &Vec<&Todo>) -> (r: Result<Vec<Vec<usize>>, String>)
    ensures
        r is Ok <==> dependency_error(derefs(todos@), derefs(todos@)) is None,
        r matches Err(m) ==> dependency_error(derefs(todos@), derefs(todos@)) == Some(m@),
        r matches Ok(g) ==> resolves(derefs(todos@), g@),
{
    let ghost f = derefs(todos@);
    let mut g: Vec<Vec<usize>> = Vec::new();
    let mut i: usize = 0;
    while i < todos.len()
        invariant
            i <= todos.len(),
            f == derefs(todos@),
            g.len() == i,
            dependency_error(f, f.take(i as int)) is None,
            forall|p: int| 0 <= p < i ==> (#[trigger] g@[p]).len() == f[p].depends_on.len(),
            forall|p: int, k: int|
                0 <= p < i && 0 <= k < g@[p].len() ==> {
                    &&& (#[trigger] g@[p]@[k]) < f.len()
                    &&& f[g@[p]@[k] as int].id@ == f[p].depends_on@[k]@
                },
        decreases todos.len() - i,
    {
        proof {
            assert(f.take(i + 1).drop_last() =~= f.take(i as int));
            assert(f.take(i + 1).last() == f[i as int]);
            assert(f[i as int] == *todos@[i as int]);
        }
        match resolve_one(todos, i) {
            Ok(row) => {
                g.push(row);
            },
            Err(m) => {
                proof {
                    lemma_dependency_error_extends(f, f, i + 1);
                }
                return Err(m);
            },
        }
        i += 1;
    }
    assert(f.take(todos.len() as int) =~= f);
    Ok(g)
}

/// Todo `i` of the list depends on Todo `j` of the list.
pub open spec fn depends(f: Seq<Todo>, i: int, j: int) -> bool {
    &&& 0 <= i < f.len()
    &&& 0 <= j < f.len()
    &&& exists|k: int|
        0 <= k < f[i].depends_on.len() && (#[trigger] f[i].depends_on@[k])@ == f[j].id@
}

/// A numbering under which each Todo comes after every Todo it depends on.
pub open spec fn ranked(f: Seq<Todo>, rank: Seq<int>) -> bool {
    &&& rank.len() == f.len()
    &&& forall|i: int, j: int| #[trigger] depends(f, i, j) ==> rank[j] < rank[i]
}

/// The dependencies of the list can be put in an order: no Todo depends on itself through
/// a chain of dependencies.
pub open spec fn acyclic(f: Seq<Todo>) -> bool {
    exists|rank: Seq<int>| ranked(f, rank)
}

/// A chain of dependencies that leads from a Todo back to it.
pub open spec fn is_cycle(f: Seq<Todo>, p: Seq<int>) -> bool {
    &&& p.len() >= 2
    &&& p[0] == p.last()
    &&& forall|k: int| 0 <= k < p.len() - 1 ==> #[trigger] depends(f, p[k], p[k + 1])
}

/// Todo `x` depends on itself through a chain of dependencies.
pub open spec fn on_cycle(f: Seq<Todo>, x: int) -> bool {
    exists|p: Seq<int>| #[trigger] is_cycle(f, p) && p[0] == x
}

/// A list of Todos whose dependencies form a cycle has no order in which each Todo comes
/// after the Todos it depends on.
pub proof fn lemma_cycle_has_no_order(f: Seq<Todo>, p: Seq<int>, rank: Seq<int>)
    requires
        is_cycle(f, p),
    ensures
        !ranked(f, rank),
{
    if ranked(f, rank) {
        lemma_rank_falls(f, p, rank, p.len() - 1);
    }
}

proof fn lemma_rank_falls(f: Seq<Todo>, p: Seq<int>, rank: Seq<int>, k: int)
    requires
        is_cycle(f, p),
        ranked(f, rank),
        1 <= k < p.len(),
    ensures
        rank[p[k]] < rank[p[0]],
    decreases k,
{
    let j = k - 1;
    assert(depends(f, p[j], p[j + 1]));
    if k > 1 {
        lemma_rank_falls(f, p, rank, k - 1);
    }
}

/// `j` is among the positions listed for `i`.
pub open spec fn gedge(g: Seq<Vec<usize>>, i: int, j: int) -> bool {
    &&& 0 <= i < g.len()
    &&& exists|k: int| 0 <= k < g[i].len() && (#[trigger] g[i]@[k]) == j
}

/// Every listed position lies inside the list.
pub open spec fn in_bounds(g: Seq<Vec<usize>>) -> bool {
    forall|i: int, k: int| 0 <= i < g.len() && 0 <= k < g[i].len() ==> (#[trigger] g[i]@[k]) < g.len()
}

proof fn lemma_edges_match(f: Seq<Todo>, g: Seq<Vec<usize>>, i: int, j: int)
    requires
        resolves(f, g),
        unique_ids(f),
        0 <= i < f.len(),
        0 <= j < f.len(),
    ensures
        depends(f, i, j) <==> gedge(g, i, j),
{
    if depends(f, i, j) {
        let k = choose|k: int|
            0 <= k < f[i].depends_on.len() && (#[trigger] f[i].depends_on@[k])@ == f[j].id@;
        let j2 = g[i]@[k] as int;
        assert(f[j2].id@ == f[i].depends_on@[k]@);
        if j2 != j {
            if j2 < j {
                assert(f[j2].id@ != f[j].id@);
            } else {
                assert(f[j].id@ != f[j2].id@);
            }
        }
        assert(gedge(g, i, j));
    }
    if gedge(g, i, j) {
        let k = choose|k: int| 0 <= k < g[i].len() && (#[trigger] g[i]@[k]) == j;
        assert(f[i].depends_on@[k]@ == f[j].id@);
    }
}

/// The number of set flags.
pub open spec fn num_true(s: Seq<bool>) -> nat
    decreases s.len(),
{
    if s.len() == 0 {
        0
    } else {
        num_true(s.drop_last()) + if s.last() {
            1nat
        } else {
            0nat
        }
    }
}

proof fn lemma_num_true_set(s: Seq<bool>, i: int)
    requires
        0 <= i < s.len(),
        !s[i],
    ensures
        num_true(s.update(i, true)) == num_true(s) + 1,
    decreases s.len(),
{
    let t = s.update(i, true);
    if i < s.len() - 1 {
        assert(t.drop_last() =~= s.drop_last().update(i, true));
        lemma_num_true_set(s.drop_last(), i);
    } else {
        assert(t.drop_last() =~= s.drop_last());
    }
}

proof fn lemma_num_true_bound(s: Seq<bool>)
    ensures
        num_true(s) <= s.len(),
        num_true(s) == s.len() ==> forall|i: int| 0 <= i < s.len() ==> s[i],
    decreases s.len(),
{
    if s.len() > 0 {
        lemma_num_true_bound(s.drop_last());
        assert forall|i: int| 0 <= i < s.len() - 1 implies s[i] == s.drop_last()[i] by {}
    }
}

/// Every listed position of the row is marked done.
fn all_done(row: &Vec<usize>, done: &Vec<bool>) -> (b: bool)
    requires
        forall|k: int| 0 <= k < row.len() ==> (#[trigger] row@[k]) < done.len(),
    ensures
        b == forall|k: int| 0 <= k < row.len() ==> done@[#[trigger] row@[k] as int],
{
    let mut k: usize = 0;
    while k < row.len()
        invariant
            k <= row.len(),
            forall|q: int| 0 <= q < row.len() ==> (#[trigger] row@[q]) < done.len(),
            forall|q: int| 0 <= q < k ==> done@[#[trigger] row@[q] as int],
        decreases row.len() - k,
    {
        if !done[row[k]] {
            return false;
        }
        k += 1;
    }
    true
}

/// Numbers each position that every position it lists precedes, until no more can be
/// numbered: positions left unnumbered each list one that is also unnumbered.
fn order_positions(g: &Vec<Vec<usize>>) -> (r: (Vec<bool>, Vec<usize>))
    requires
        in_bounds(g@),
    ensures
        r.0.len() == g.len(),
        r.1.len() == g.len(),
        forall|i: int, k: int|
            0 <= i < g.len() && r.0@[i] && 0 <= k < g@[i].len() ==> r.0@[#[trigger] g@[i]@[k] as int]
                && r.1@[g@[i]@[k] as int] < r.1@[i],
        forall|i: int|
            0 <= i < g.len() && !r.0@[i] ==> exists|k: int|
                0 <= k < g@[i].len() && !r.0@[#[trigger] g@[i]@[k] as int],
{
    let n = g.len();
    let mut done: Vec<bool> = Vec::new();
    let mut rank: Vec<usize> = Vec::new();
    let mut q: usize = 0;
    while q < n
        invariant
            q <= n,
            n == g.len(),
            done.len() == q,
            rank.len() == q,
            forall|p: int| 0 <= p < q ==> !done@[p],
        decreases n - q,
    {
        done.push(false);
        rank.push(0);
        q += 1;
    }
    let mut count: usize = 0;
    let mut changed = true;
    proof {
        assert(num_true(done@) == 0) by {
            lemma_num_true_zero(done@);
        }
    }
    while changed
        invariant
            n == g.len(),
            in_bounds(g@),
            done.len() == n,
            rank.len() == n,
            count == num_true(done@),
            forall|i: int| 0 <= i < n && done@[i] ==> rank@[i] < count,
            forall|i: int, k: int|
                0 <= i < n && done@[i] && 0 <= k < g@[i].len() ==> done@[#[trigger] g@[i]@[k] as int]
                    && rank@[g@[i]@[k] as int] < rank@[i],
            !changed ==> forall|i: int|
                0 <= i < n && !done@[i] ==> exists|k: int|
                    0 <= k < g@[i].len() && !done@[#[trigger] g@[i]@[k] as int],
        decreases n - count + if changed { 1int } else { 0int },
    {
        let ghost start_count = count;
        let ghost start = done@;
        changed = false;
        let mut i: usize = 0;
        while i < n
            invariant
                n == g.len(),
                in_bounds(g@),
                i <= n,
                done.len() == n,
                rank.len() == n,
                count == num_true(done@),
                count >= start_count,
                forall|p: int| 0 <= p < n && done@[p] ==> rank@[p] < count,
                forall|p: int, k: int|
                    0 <= p < n && done@[p] && 0 <= k < g@[p].len() ==> done@[#[trigger] g@[p]@[k] as int]
                        && rank@[g@[p]@[k] as int] < rank@[p],
                !changed ==> done@ == start && count == start_count,
                changed ==> count > start_count,
                !changed ==> forall|p: int|
                    0 <= p < i && !done@[p] ==> exists|k: int|
                        0 <= k < g@[p].len() && !done@[#[trigger] g@[p]@[k] as int],
            decreases n - i,
        {
            if !done[i] && all_done(&g[i], &done) {
                proof {
                    lemma_num_true_set(done@, i as int);
                    lemma_num_true_bound(done@.update(i as int, true));
                }
                done.set(i, true);
                rank.set(i, count);
                count = count + 1;
                changed = true;
            }
            i += 1;
        }
        proof {
            lemma_num_true_bound(done@);
        }
    }
    (done, rank)
}

proof fn lemma_num_true_zero(s: Seq<bool>)
    requires
        forall|p: int| 0 <= p < s.len() ==> !s[p],
    ensures
        num_true(s) == 0,
    decreases s.len(),
{
    if s.len() > 0 {
        lemma_num_true_zero(s.drop_last());
    }
}

/// A numbering under which each position comes after every position it lists.
pub open spec fn granked(g: Seq<Vec<usize>>, rank: Seq<int>) -> bool {
    &&& rank.len() == g.len()
    &&& forall|i: int, j: int| #[trigger] gedge(g, i, j) ==> rank[j] < rank[i]
}

/// A chain of listed positions that leads from a position back to it.
pub open spec fn gcycle(g: Seq<Vec<usize>>, p: Seq<int>) -> bool {
    &&& p.len() >= 2
    &&& p[0] == p.last()
    &&& forall|k: int| 0 <= k < p.len() - 1 ==> #[trigger] gedge(g, p[k], p[k + 1])
}

proof fn lemma_distinct_bound(s: Seq<usize>, n: int)
    requires
        s.no_duplicates(),
        forall|k: int| 0 <= k < s.len() ==> (#[trigger] s[k]) < n,
        0 <= n,
    ensures
        s.len() <= n,
{
    let t = s.map_values(|v: usize| v as int);
    assert forall|a: int, b: int| 0 <= a < t.len() && 0 <= b < t.len() && a != b implies t[a]
        != t[b] by {
        assert(s[a] != s[b]);
    }
    assert(t.no_duplicates());
    t.unique_seq_to_set();
    vstd::set_lib::lemma_int_range(0, n);
    assert forall|v: int| #[trigger] t.to_set().contains(v) implies vstd::set_lib::set_int_range(
        0,
        n,
    ).contains(v) by {
        let k = choose|k: int| 0 <= k < t.len() && t[k] == v;
        assert(s[k] < n);
    }
    vstd::set_lib::lemma_len_subset(t.to_set(), vstd::set_lib::set_int_range(0, n));
}

/// A listed position of the row that is not marked done.
fn open_dependency(row: &Vec<usize>, done: &Vec<bool>) -> (j: usize)
    requires
        forall|k: int| 0 <= k < row.len() ==> (#[trigger] row@[k]) < done.len(),
        exists|k: int| 0 <= k < row.len() && !done@[#[trigger] row@[k] as int],
    ensures
        j < done.len(),
        !done@[j as int],
        exists|k: int| 0 <= k < row.len() && (#[trigger] row@[k]) == j,
{
    let mut k: usize = 0;
    while k < row.len()
        invariant
            k <= row.len(),
            forall|q: int| 0 <= q < row.len() ==> (#[trigger] row@[q]) < done.len(),
            exists|q: int| k <= q < row.len() && !done@[#[trigger] row@[q] as int],
        decreases row.len() - k,
    {
        if !done[row[k]] {
            return row[k];
        }
        k += 1;
    }
    k
}

/// The position of the value in the list, if it occurs.
fn position_of(w: &Vec<usize>, y: usize) -> (r: Option<usize>)
    ensures
        r matches Some(p) ==> p < w.len() && w@[p as int] == y,
        r is None ==> !w@.contains(y),
{
    let mut p: usize = 0;
    while p < w.len()
        invariant
            p <= w.len(),
            forall|q: int| 0 <= q < p ==> w@[q] != y,
        decreases w.len() - p,
    {
        if w[p] == y {
            return Some(p);
        }
        p += 1;
    }
    None
}

/// Either a numbering of the positions under which each comes after the positions it lists,
/// or a position that leads back to itself through listed positions.
#[verifier::spinoff_prover]
#[verifier::rlimit(50)]
fn find_cycle(g: &Vec<Vec<usize>>) -> (r: Option<usize>)
    requires
        in_bounds(g@),
    ensures
        r is None ==> exists|rank: Seq<int>| granked(g@, rank),
        r matches Some(x) ==> x < g.len() && exists|p: Seq<int>| #[trigger] gcycle(g@, p) && p[0]
            == x,
{
    let n = g.len();
    let (done, rank) = order_positions(g);
    let mut x0: usize = 0;
    while x0 < n && done[x0]
        invariant
            x0 <= n,
            n == g.len(),
            done.len() == n,
            forall|q: int| 0 <= q < x0 ==> done@[q],
        decreases n - x0,
    {
        x0 += 1;
    }
    if x0 == n {
        let ghost r = rank@.map_values(|v: usize| v as int);
        proof {
            assert forall|i: int, j: int| #[trigger] gedge(g@, i, j) implies r[j] < r[i] by {
                let k = choose|k: int| 0 <= k < g@[i].len() && (#[trigger] g@[i]@[k]) == j;
                assert(done@[i]);
            }
            assert(granked(g@, r));
        }
        return None;
    }
    let mut w: Vec<usize> = Vec::new();
    w.push(x0);
    loop
        invariant
            n == g.len(),
            in_bounds(g@),
            done.len() == n,
            forall|i: int|
                0 <= i < n && !done@[i] ==> exists|k: int|
                    0 <= k < g@[i].len() && !done@[#[trigger] g@[i]@[k] as int],
            1 <= w.len() <= n,
            w@.no_duplicates(),
            forall|q: int| 0 <= q < w.len() ==> (#[trigger] w@[q]) < n && !done@[w@[q] as int],
            forall|q: int| 0 <= q < w.len() - 1 ==> #[trigger] gedge(g@, w@[q] as int, w@[q + 1] as int),
        decreases n - w.len(),
    {
        let last = w[w.len() - 1];
        let y = open_dependency(&g[last], &done);
        assert(gedge(g@, last as int, y as int));
        match position_of(&w, y) {
            Some(p) => {
                proof {
                    lemma_cycle_from_walk(g@, w@, p as int, y);
                }
                return Some(y);
            },
            None => {
                proof {
                    lemma_walk_extends(w@, y, n as int);
                }
                w.push(y);
            },
        }
    }
}

proof fn lemma_cycle_from_walk(g: Seq<Vec<usize>>, w: Seq<usize>, p: int, y: usize)
    requires
        0 <= p < w.len(),
        w[p] == y,
        gedge(g, w.last() as int, y as int),
        forall|q: int| 0 <= q < w.len() - 1 ==> #[trigger] gedge(g, w[q] as int, w[q + 1] as int),
    ensures
        exists|c: Seq<int>| #[trigger] gcycle(g, c) && c[0] == y,
{
    let path = w.subrange(p, w.len() as int).push(y).map_values(|v: usize| v as int);
    assert forall|k: int| 0 <= k < path.len() - 1 implies #[trigger] gedge(g, path[k], path[k + 1]) by {
        if k < path.len() - 2 {
            assert(path[k] == w[p + k] as int);
            assert(path[k + 1] == w[p + k + 1] as int);
            assert(gedge(g, w[p + k] as int, w[(p + k) + 1] as int));
        } else {
            assert(path[k] == w.last() as int);
            assert(path[k + 1] == y as int);
        }
    }
    assert(gcycle(g, path));
}

proof fn lemma_walk_extends(w: Seq<usize>, y: usize, n: int)
    requires
        w.no_duplicates(),
        !w.contains(y),
        forall|q: int| 0 <= q < w.len() ==> (#[trigger] w[q]) < n,
        y < n,
        0 <= n,
    ensures
        w.push(y).no_duplicates(),
        w.len() + 1 <= n,
{
    let w2 = w.push(y);
    assert forall|a: int, b: int| 0 <= a < w2.len() && 0 <= b < w2.len() && a != b implies w2[a]
        != w2[b] by {
        if a < w.len() && b < w.len() {
        } else if a == w.len() {
            assert(w2[b] == w[b]);
        } else {
            assert(w2[a] == w[a]);
        }
    }
    assert forall|q: int| 0 <= q < w2.len() implies (#[trigger] w2[q]) < n by {
        if q < w.len() {
            assert(w2[q] == w[q]);
        }
    }
    lemma_distinct_bound(w2, n);
}

/// The message for a dependency cycle through the Todo.
pub open spec fn cycle_message(id: Seq<char>) -> Seq<char> {
    "Todo dependency cycle includes "@ + id
}

/// What the graph checks report for a list of Todos whose fields, IDs and dependencies are
/// in order: success exactly when the dependencies can be ordered, and otherwise a cycle
/// through the Todo at which the depth-first search finds it (see `dfs_culprit`; should that
/// search find none, through some Todo on a cycle).
pub open spec fn cycle_outcome<T>(f: Seq<Todo>, r: Result<T, String>) -> bool {
    &&& (r is Ok <==> acyclic(f))
    &&& (r matches Err(e) ==> match crate::blueprint::dfs::dfs_culprit(f) {
        Some(c) => 0 <= c < f.len() && e@ == cycle_message(f[c].id@),
        None => exists|x: int| 0 <= x < f.len() && on_cycle(f, x) && e@ == cycle_message(f[x].id@),
    })
}

/// What the graph checks report for a list of Todos: the first failing field, ID or
/// dependency check, else the cycle check's outcome.
pub open spec fn graph_outcome<T>(f: Seq<Todo>, r: Result<T, String>) -> bool {
    match precheck_error(f) {
        Some(m) => r matches Err(e) && e@ == m,
        None => cycle_outcome(f, r),
    }
}

/// Checks that no Todo depends on itself through a chain of dependencies, given that IDs are
/// unique and each dependency is resolved to the position of the Todo it names.
fn check_cycles(todos: &Vec<&Todo>, g: &Vec<Vec<usize>>) -> (r: Result<(), String>)
    requires
        unique_ids(derefs(todos@)),
        resolves(derefs(todos@), g@),
    ensures
        cycle_outcome(derefs(todos@), r),
{
    let ghost f = derefs(todos@);
    assert(in_bounds(g@));
    match find_cycle(g) {
        None => {
            proof {
                let rank = choose|rank: Seq<int>| granked(g@, rank);
                assert forall|i: int, j: int| #[trigger] depends(f, i, j) implies rank[j] < rank[i] by {
                    lemma_edges_match(f, g@, i, j);
                }
                assert(ranked(f, rank));
            }
            Ok(())
        },
        Some(x) => {
            let culprit = crate::blueprint::dfs::find_culprit(g);
            proof {
                crate::blueprint::dfs::lemma_graph_view(f, g@);
            }
            if let Some(c) = culprit {
                let mut m = String::new();
                push_str(&mut m, "Todo dependency cycle includes ");
                push_str(&mut m, todos[c].id.as_str());
                proof {
                    reveal_strlit("Todo dependency cycle includes ");
                    let p = choose|p: Seq<int>| #[trigger] gcycle(g@, p) && p[0] == x;
                    assert forall|k: int| 0 <= k < p.len() - 1 implies #[trigger] depends(f, p[k], p[k + 1]) by {
                        assert(gedge(g@, p[k], p[k + 1]));
                        let q = choose|q: int| 0 <= q < g@[p[k]].len() && (#[trigger] g@[p[k]]@[q]) == p[k + 1];
                        lemma_edges_match(f, g@, p[k], p[k + 1]);
                    }
                    assert(is_cycle(f, p));
                    assert forall|rank: Seq<int>| !ranked(f, rank) by {
                        lemma_cycle_has_no_order(f, p, rank);
                    }
                    assert(f[c as int] == *todos@[c as int]);
                }
                return Err(m);
            }
            let mut m = String::new();
            push_str(&mut m, "Todo dependency cycle includes ");
            push_str(&mut m, todos[x].id.as_str());
            proof {
                let p = choose|p: Seq<int>| #[trigger] gcycle(g@, p) && p[0] == x;
                assert forall|k: int| 0 <= k < p.len() - 1 implies #[trigger] depends(f, p[k], p[k + 1]) by {
                    assert(gedge(g@, p[k], p[k + 1]));
                    let q = choose|q: int| 0 <= q < g@[p[k]].len() && (#[trigger] g@[p[k]]@[q]) == p[k + 1];
                    lemma_edges_match(f, g@, p[k], p[k + 1]);
                }
                assert(is_cycle(f, p));
                assert(on_cycle(f, x as int));
                assert forall|rank: Seq<int>| !ranked(f, rank) by {
                    lemma_cycle_has_no_order(f, p, rank);
                }
                assert(f[x as int] == *todos@[x as int]);
                assert(m@ == cycle_message(f[x as int].id@));
            }
            Err(m)
        },
    }
}

/// Validates a Todo forest: every Todo, children included, has the fields its status
/// requires; no two Todos share an ID; no Todo depends on itself or on an unknown Todo; and
/// no chain of dependencies leads from a Todo back to it. The first failing check is
/// reported, in that order.
pub fn validate_dependency_graph(todos: &[Todo]) -> (r: Result<(), String>)
    ensures
        graph_outcome(flat_forest(todos@), r),
{
    let flattened = flatten(todos);
    validate_todo_invariants(&flattened)?;
    index_by_id(&flattened)?;
    let g = resolve_dependencies(&flattened)?;
    check_cycles(&flattened, &g)
}

/// The status of the Todo with the ID.
pub open spec fn status_of(f: Seq<Todo>, id: Seq<char>) -> TodoStatus {
    f[choose|j: int| 0 <= j < f.len() && (#[trigger] f[j]).id@ == id].status
}

/// The dependencies, in order, whose Todo is not completed, each with that Todo's status.
pub open spec fn unsatisfied(f: Seq<Todo>, deps: Seq<String>) -> Seq<(Seq<char>, TodoStatus)>
    decreases deps.len(),
{
    if deps.len() == 0 {
        seq![]
    } else {
        let rest = unsatisfied(f, deps.drop_last());
        let d = deps.last()@;
        if status_of(f, d) == TodoStatus::Completed {
            rest
        } else {
            rest.push((d, status_of(f, d)))
        }
    }
}

/// The IDs, in order, of the pending Todos of `g` whose dependencies in `f` are all completed.
pub open spec fn ready_ids(f: Seq<Todo>, g: Seq<Todo>) -> Seq<Seq<char>>
    decreases g.len(),
{
    if g.len() == 0 {
        seq![]
    } else {
        let rest = ready_ids(f, g.drop_last());
        let t = g.last();
        if t.status == TodoStatus::Pending && unsatisfied(f, t.depends_on@).len() == 0 {
            rest.push(t.id@)
        } else {
            rest
        }
    }
}

/// The pending Todos of `g`, in order, with a dependency in `f` that is not completed, each
/// with those dependencies.
pub open spec fn waiting(f: Seq<Todo>, g: Seq<Todo>) -> Seq<
    (Seq<char>, Seq<(Seq<char>, TodoStatus)>),
>
    decreases g.len(),
{
    if g.len() == 0 {
        seq![]
    } else {
        let rest = waiting(f, g.drop_last());
        let t = g.last();
        if t.status == TodoStatus::Pending && unsatisfied(f, t.depends_on@).len() > 0 {
            rest.push((t.id@, unsatisfied(f, t.depends_on@)))
        } else {
            rest
        }
    }
}

proof fn lemma_status_of(f: Seq<Todo>, j: int)
    requires
        unique_ids(f),
        0 <= j < f.len(),
    ensures
        status_of(f, f[j].id@) == f[j].status,
{
    let id = f[j].id@;
    let j2 = choose|q: int| 0 <= q < f.len() && (#[trigger] f[q]).id@ == id;
    if j2 != j {
        if j2 < j {
            assert(f[j2].id@ != f[j].id@);
        } else {
            assert(f[j].id@ != f[j2].id@);
        }
    }
}

/// The dependencies of Todo `i` whose Todo is not completed, with that Todo's status.
fn unsatisfied_of(todos: &Vec<&Todo>, g: &Vec<Vec<usize>>, i: usize) -> (r: Vec<DependencyStatus>)
    requires
        unique_ids(derefs(todos@)),
        resolves(derefs(todos@), g@),
        i < todos.len(),
    ensures
        r@.map_values(|d: DependencyStatus| d@) == unsatisfied(derefs(todos@), todos@[i as int].depends_on@),
{
    let ghost f = derefs(todos@);
    let t: &Todo = todos[i];
    let ghost deps = t.depends_on@;
    assert(f[i as int] == *t);
    let mut r: Vec<DependencyStatus> = Vec::new();
    let mut k: usize = 0;
    while k < t.depends_on.len()
        invariant
            k <= t.depends_on.len(),
            f == derefs(todos@),
            unique_ids(f),
            resolves(f, g@),
            i < todos.len(),
            f[i as int] == *t,
            deps == t.depends_on@,
            r@.map_values(|d: DependencyStatus| d@) == unsatisfied(f, deps.take(k as int)),
        decreases t.depends_on.len() - k,
    {
        let j = g[i][k];
        let status = todos[j].status;
        proof {
            assert(f[j as int] == *todos@[j as int]);
            assert(f[j as int].id@ == deps[k as int]@);
            lemma_status_of(f, j as int);
            assert(deps.take(k + 1).drop_last() =~= deps.take(k as int));
        }
        match status {
            TodoStatus::Completed => {},
            _ => {
                let d = DependencyStatus { id: t.depends_on[k].clone(), status };
                r.push(d);
            },
        }
        assert(r@.map_values(|d: DependencyStatus| d@) =~= unsatisfied(f, deps.take(k + 1)));
        k += 1;
    }
    assert(deps.take(deps.len() as int) =~= deps);
    r
}

/// The readiness of a valid Todo forest: the pending Todos, in document order, whose
/// dependencies are all completed are ready; every other pending Todo is listed with its
/// dependencies that are not completed and their statuses. Todos that are not pending appear
/// in neither list. A forest that fails validation yields the validation error.
pub fn derive_readiness(todos: &[Todo]) -> (r: Result<Readiness, String>)
    ensures
        graph_outcome(flat_forest(todos@), r),
        r matches Ok(rd) ==> rd@.0 == ready_ids(flat_forest(todos@), flat_forest(todos@))
            && rd@.1 == waiting(flat_forest(todos@), flat_forest(todos@)),
{
    validate_dependency_graph(todos)?;
    let flattened = flatten(todos);
    let ghost f = derefs(flattened@);
    proof {
        lemma_duplicate_error_unique(f);
    }
    let g = resolve_dependencies(&flattened)?;
    let mut ready: Vec<String> = Vec::new();
    let mut not_ready: Vec<NotReadyTodo> = Vec::new();
    let mut i: usize = 0;
    while i < flattened.len()
        invariant
            i <= flattened.len(),
            f == derefs(flattened@),
            unique_ids(f),
            resolves(f, g@),
            ready@.map_values(|s: String| s@) == ready_ids(f, f.take(i as int)),
            not_ready@.map_values(|n: NotReadyTodo| n@) == waiting(f, f.take(i as int)),
        decreases flattened.len() - i,
    {
        let t: &Todo = flattened[i];
        proof {
            assert(f[i as int] == *t);
            assert(f.take(i + 1).drop_last() =~= f.take(i as int));
            assert(f.take(i + 1).last() == *t);
        }
        match t.status {
            TodoStatus::Pending => {
                let unsatisfied_dependencies = unsatisfied_of(&flattened, &g, i);
                if unsatisfied_dependencies.len() == 0 {
                    ready.push(t.id.clone());
                } else {
                    not_ready.push(NotReadyTodo { id: t.id.clone(), unsatisfied_dependencies });
                }
            },
            _ => {},
        }
        assert(ready@.map_values(|s: String| s@) =~= ready_ids(f, f.take(i + 1)));
        assert(not_ready@.map_values(|n: NotReadyTodo| n@) =~= waiting(f, f.take(i + 1)));
        i += 1;
    }
    assert(f.take(flattened.len() as int) =~= f);
    Ok(Readiness { ready, not_ready })
}

/// Deriving readiness fails exactly when validating the dependency graph fails, and then with
/// the same message when a field, ID or dependency check fails or the search names a Todo on a
/// cycle.
pub proof fn readiness_fails_with_validation(f: Seq<Todo>, v: Result<(), String>, d: Result<Readiness, String>)
    requires
        graph_outcome(f, v),
        graph_outcome(f, d),
    ensures
        v is Err <==> d is Err,
        v is Err && d is Err && (precheck_error(f) is Some || crate::blueprint::dfs::dfs_culprit(f) is Some)
            ==> v->Err_0@ == d->Err_0@,
{
}

} // verus!
