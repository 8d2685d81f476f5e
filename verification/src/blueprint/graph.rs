//! The Todo graph of a Blueprint: the Todo tasks of its Todos section, each with its link,
//! status and fields, nested under the Todos whose `Children:` lists hold them.
use vstd::prelude::*;
use vstd::string::StringSliceAdditionalSpecFns;
use vstd::utf8::encode_utf8;

use crate::blueprint::document::{Section, SectionView};
use crate::blueprint::model::{clone_opt, clone_strings};
use crate::blueprint::tasks::starts_with_todo;
use crate::blueprint::model::{TodoGraphNode, TodoStatus, same_node};
use crate::blueprint::source::{
    csv_items, field_value, field_value_spec, markdown_link_spec, split_csv,
    standard_markdown_link,
};
use crate::blueprint::tasks::{
    has_ancestor_label, has_label_ancestor, is_protocol_task, item_block_id,
    list_item_block_id, nearest_todo_ancestor, protocol_task, task_status, todo_ancestor,
};
use crate::markdown::{MdKind, MdNode, well_formed};
use crate::parser::{byte_offset_for_line, line_number_for_byte, line_number_spec, line_start_spec, starts_with};
use crate::text::{chars_of, line_bounds, lines_spec, push_str, ranges_view, split_on, str_eq, string_of};

verus! {

/// A Todo graph node by its texts.
pub struct GraphNodeView {
    pub id: Seq<char>,
    pub title: Seq<char>,
    pub document: Seq<char>,
    pub status: TodoStatus,
    pub created_by: Option<Seq<char>>,
    pub owner: Option<Seq<char>>,
    pub completed_by: Option<Seq<char>>,
    pub depends_on: Seq<Seq<char>>,
    pub block_reason: Option<Seq<char>>,
    pub cancel_reason: Option<Seq<char>>,
    pub children: Seq<GraphNodeView>,
}

pub open spec fn opt_view(o: Option<String>) -> Option<Seq<char>> {
    match o {
        Some(s) => Some(s@),
        None => None,
    }
}

/// The view of a graph node and its children.
pub open spec fn graph_view(n: TodoGraphNode) -> GraphNodeView
    decreases n,
{
    GraphNodeView {
        id: n.id@,
        title: n.title@,
        document: n.document@,
        status: n.status,
        created_by: opt_view(n.created_by),
        owner: opt_view(n.owner),
        completed_by: opt_view(n.completed_by),
        depends_on: n.depends_on@.map_values(|d: String| d@),
        block_reason: opt_view(n.block_reason),
        cancel_reason: opt_view(n.cancel_reason),
        children: Seq::new(
            n.children@.len(),
            |k: int|
                {
                    if 0 <= k < n.children@.len() {
                        graph_view(n.children@[k])
                    } else {
                        arbitrary()
                    }
                },
        ),
    }
}

/// The one-based line a node starts on.
pub open spec fn node_line(b: Seq<u8>, n: MdNode) -> int {
    line_number_spec(b, n.start as int)
}

/// Node `j` is a Todo task of the section: a task list item whose marker names a status,
/// starting on a line inside the section, following the protocol, with a `todo-` ID.
pub open spec fn todo_task(nodes: Seq<MdNode>, b: Seq<u8>, sec: SectionView, j: int) -> bool {
    &&& task_status(nodes[j]) is Some
    &&& sec.body_start <= line_start_spec(b, node_line(b, nodes[j]))
    &&& line_start_spec(b, node_line(b, nodes[j])) < sec.body_end
    &&& protocol_task(nodes, j)
    &&& item_block_id(nodes, j) is Some
    &&& starts_with(item_block_id(nodes, j)->0, "todo-"@)
}

/// The positions of the Todo tasks among the first `k` nodes, in order.
pub open spec fn todo_tasks(nodes: Seq<MdNode>, b: Seq<u8>, sec: SectionView, k: int) -> Seq<int>
    decreases k,
{
    if k <= 0 {
        seq![]
    } else if todo_task(nodes, b, sec, k - 1) {
        todo_tasks(nodes, b, sec, k - 1).push(k - 1)
    } else {
        todo_tasks(nodes, b, sec, k - 1)
    }
}

/// The source line that a node starts on (empty past the last line).
pub open spec fn task_line_text(source: Seq<char>, line: int) -> Seq<char> {
    let ls = lines_spec(source);
    if 1 <= line <= ls.len() {
        ls[line - 1]
    } else if line <= 0 && ls.len() > 0 {
        ls[0]
    } else {
        Seq::<char>::empty()
    }
}

/// The graph node a Todo task makes, without children; `None` when its line has no
/// standard Markdown link.
pub open spec fn task_node(source: Seq<char>, nodes: Seq<MdNode>, j: int) -> Option<GraphNodeView> {
    let b = encode_utf8(source);
    let line = node_line(b, nodes[j]);
    match markdown_link_spec(task_line_text(source, line)) {
        None => None,
        Some((title, document)) => Some(
            GraphNodeView {
                id: item_block_id(nodes, j)->0,
                title,
                document,
                status: task_status(nodes[j])->0,
                created_by: field_value_spec(source, line, "Created By"@),
                owner: field_value_spec(source, line, "Owner"@),
                completed_by: field_value_spec(source, line, "Completed By"@),
                depends_on: match field_value_spec(source, line, "Depends On"@) {
                    Some(v) => csv_items(split_on(v, ',')),
                    None => seq![],
                },
                block_reason: field_value_spec(source, line, "Block Reason"@),
                cancel_reason: field_value_spec(source, line, "Cancel Reason"@),
                children: seq![],
            },
        ),
    }
}

/// The message for a Todo task without a standard Markdown link.
pub open spec fn link_error(id: Seq<char>) -> Seq<char> {
    "Todo "@ + id + " must use a standard Markdown link to its document"@
}

/// The graph nodes (without children) of the tasks, or the error of the first without a
/// standard link.
pub open spec fn task_nodes(source: Seq<char>, nodes: Seq<MdNode>, ts: Seq<int>) -> Result<
    Seq<GraphNodeView>,
    Seq<char>,
>
    decreases ts.len(),
{
    if ts.len() == 0 {
        Ok(seq![])
    } else {
        match task_nodes(source, nodes, ts.drop_last()) {
            Err(m) => Err(m),
            Ok(prev) => match task_node(source, nodes, ts.last()) {
                None => Err(link_error(item_block_id(nodes, ts.last())->0)),
                Some(n) => Ok(prev.push(n)),
            },
        }
    }
}

/// The position of the last node with the ID.
pub open spec fn last_with_id(ns: Seq<GraphNodeView>, id: Seq<char>) -> Option<int>
    decreases ns.len(),
{
    if ns.len() == 0 {
        None
    } else if ns.last().id == id {
        Some(ns.len() - 1)
    } else {
        last_with_id(ns.drop_last(), id)
    }
}

/// The (parent, child) positions of the tasks under a `Children:` item of a Todo, in order;
/// pairs whose IDs name no node, or name the same node, are left out.
pub open spec fn child_pairs(nodes: Seq<MdNode>, ts: Seq<int>, ns: Seq<GraphNodeView>) -> Seq<(int, int)>
    decreases ts.len(),
{
    if ts.len() == 0 {
        seq![]
    } else {
        let prev = child_pairs(nodes, ts.drop_last(), ns);
        let t = ts.last();
        if has_label_ancestor(nodes, t, "Children:"@) && todo_ancestor(nodes, t) is Some {
            match (last_with_id(ns, todo_ancestor(nodes, t)->0), last_with_id(ns, item_block_id(nodes, t)->0)) {
                (Some(p), Some(c)) => if p != c {
                    prev.push((p, c))
                } else {
                    prev
                },
                _ => prev,
            }
        } else {
            prev
        }
    }
}

/// The children of node `p`, in the order of the pairs.
pub open spec fn children_of(pairs: Seq<(int, int)>, p: int) -> Seq<int>
    decreases pairs.len(),
{
    if pairs.len() == 0 {
        seq![]
    } else if pairs.last().0 == p {
        children_of(pairs.drop_last(), p).push(pairs.last().1)
    } else {
        children_of(pairs.drop_last(), p)
    }
}

/// Node `c` is somebody's child.
pub open spec fn is_child(pairs: Seq<(int, int)>, c: int) -> bool {
    exists|k: int| 0 <= k < pairs.len() && (#[trigger] pairs[k]).1 == c
}

/// Node `i` with its descendants, to the given depth.
pub open spec fn assemble(ns: Seq<GraphNodeView>, pairs: Seq<(int, int)>, i: int, depth: nat) -> GraphNodeView
    decreases depth,
{
    let kids = children_of(pairs, i);
    GraphNodeView {
        children: if depth == 0 {
            seq![]
        } else {
            Seq::new(kids.len(), |k: int| assemble(ns, pairs, kids[k], (depth - 1) as nat))
        },
        ..ns[i]
    }
}

/// The positions of the nodes that are nobody's child, in order.
pub open spec fn roots(pairs: Seq<(int, int)>, n: int) -> Seq<int>
    decreases n,
{
    if n <= 0 {
        seq![]
    } else if is_child(pairs, n - 1) {
        roots(pairs, n - 1)
    } else {
        roots(pairs, n - 1).push(n - 1)
    }
}

/// The Todo graph of a Blueprint's Todos section: the Todo tasks, each nested under the Todo
/// whose `Children:` item holds it, to a depth of the number of Todos; or the first task
/// without a standard Markdown link.
pub open spec fn graph_spec(source: Seq<char>, sec: SectionView, nodes: Seq<MdNode>) -> Result<
    Seq<GraphNodeView>,
    Seq<char>,
> {
    let ts = todo_tasks(nodes, encode_utf8(source), sec, nodes.len() as int);
    match task_nodes(source, nodes, ts) {
        Err(m) => Err(m),
        Ok(ns) => {
            let pairs = child_pairs(nodes, ts, ns);
            let rs = roots(pairs, ns.len() as int);
            Ok(Seq::new(rs.len(), |k: int| assemble(ns, pairs, rs[k], ns.len())))
        },
    }
}

pub open spec fn graph_views(v: Seq<TodoGraphNode>) -> Seq<GraphNodeView> {
    v.map_values(|n: TodoGraphNode| graph_view(n))
}

/// Whether node `j` is a Todo task of the section.
fn is_todo_task(source: &str, sec: &Section, nodes: &Vec<MdNode>, j: usize) -> (b: bool)
    requires
        well_formed(nodes@),
        j < nodes.len(),
    ensures
        b == todo_task(nodes@, encode_utf8(source@), sec@, j as int),
{
    let n = &nodes[j];
    if n.kind != MdKind::ListItem {
        return false;
    }
    let status = match n.task {
        Some(c) => TodoStatus::from_marker(c),
        None => None,
    };
    if status.is_none() {
        return false;
    }
    let line = line_number_for_byte(source, n.start);
    let offset = byte_offset_for_line(source, line);
    if !(sec.body_start <= offset && offset < sec.body_end) {
        return false;
    }
    if !is_protocol_task(nodes, j) {
        return false;
    }
    match list_item_block_id(nodes, j) {
        Some(id) => starts_with_todo(&id),
        None => false,
    }
}

/// The positions of the section's Todo tasks, in order.
fn collect_tasks(source: &str, sec: &Section, nodes: &Vec<MdNode>) -> (ts: Vec<usize>)
    requires
        well_formed(nodes@),
    ensures
        ts@.map_values(|i: usize| i as int) == todo_tasks(nodes@, encode_utf8(source@), sec@, nodes.len() as int),
        forall|k: int| 0 <= k < ts.len() ==> (#[trigger] ts@[k]) < nodes.len(),
{
    let mut ts: Vec<usize> = Vec::new();
    let mut j: usize = 0;
    while j < nodes.len()
        invariant
            j <= nodes.len(),
            well_formed(nodes@),
            ts@.map_values(|i: usize| i as int) == todo_tasks(nodes@, encode_utf8(source@), sec@, j as int),
            forall|k: int| 0 <= k < ts.len() ==> (#[trigger] ts@[k]) < nodes.len(),
        decreases nodes.len() - j,
    {
        if is_todo_task(source, sec, nodes, j) {
            let ghost before = ts@;
            ts.push(j);
            assert(ts@.map_values(|i: usize| i as int) =~= before.map_values(|i: usize| i as int).push(j as int));
        }
        j += 1;
    }
    ts
}

/// The source line `line` (one-based), or the first line for line 0, or empty past the end.
fn line_text(source: &str, line: u64) -> (t: String)
    ensures
        t@ == task_line_text(source@, line as int),
{
    let cs = chars_of(source);
    let rs = line_bounds(&cs);
    assert(ranges_view(cs@, rs@).len() == rs.len());
    let index: usize = if line == 0 {
        0
    } else if (line as u128) <= (rs.len() as u128) {
        (line - 1) as usize
    } else {
        rs.len()
    };
    if index < rs.len() {
        let (a, b) = rs[index];
        assert(rs@[index as int].0 <= rs@[index as int].1 <= cs.len());
        assert(ranges_view(cs@, rs@)[index as int] == cs@.subrange(a as int, b as int));
        string_of(&cs, a, b)
    } else {
        String::new()
    }
}

fn field(source: &str, line: u64, name: &str) -> (r: Option<String>)
    ensures
        opt_view(r) == field_value_spec(source@, line as int, name@),
{
    field_value(source, line, name)
}

/// The graph node that the Todo task `j` makes, without children.
fn task_graph_node(source: &str, nodes: &Vec<MdNode>, j: usize) -> (r: Option<TodoGraphNode>)
    requires
        well_formed(nodes@),
        j < nodes.len(),
        task_status(nodes@[j as int]) is Some,
        item_block_id(nodes@, j as int) is Some,
    ensures
        match r {
            Some(n) => task_node(source@, nodes@, j as int) == Some(graph_view(n)),
            None => task_node(source@, nodes@, j as int) is None,
        },
{
    let n = &nodes[j];
    let line = line_number_for_byte(source, n.start);
    let text = line_text(source, line);
    let (title, document) = match standard_markdown_link(text.as_str()) {
        Some(p) => p,
        None => {
            return None;
        },
    };
    let id = match list_item_block_id(nodes, j) {
        Some(id) => id,
        None => {
            return None;
        },
    };
    let status = match n.task {
        Some(c) => match TodoStatus::from_marker(c) {
            Some(s) => s,
            None => {
                return None;
            },
        },
        None => {
            return None;
        },
    };
    let depends_on = match field(source, line, "Depends On") {
        Some(v) => split_csv(v.as_str()),
        None => Vec::new(),
    };
    let node = TodoGraphNode {
        id,
        title,
        document,
        status,
        created_by: field(source, line, "Created By"),
        owner: field(source, line, "Owner"),
        completed_by: field(source, line, "Completed By"),
        depends_on,
        block_reason: field(source, line, "Block Reason"),
        cancel_reason: field(source, line, "Cancel Reason"),
        children: Vec::new(),
    };
    proof {
        assert(graph_view(node).children =~= Seq::<GraphNodeView>::empty());
        assert(graph_view(node).depends_on =~= (match field_value_spec(source@, line as int, "Depends On"@) {
            Some(v) => csv_items(split_on(v, ',')),
            None => seq![],
        }));
    }
    Some(node)
}

proof fn lemma_task_nodes_extends(source: Seq<char>, nodes: Seq<MdNode>, ts: Seq<int>, n: int)
    requires
        0 <= n <= ts.len(),
        task_nodes(source, nodes, ts.take(n)) is Err,
    ensures
        task_nodes(source, nodes, ts) == task_nodes(source, nodes, ts.take(n)),
    decreases ts.len() - n,
{
    if n < ts.len() {
        assert(ts.take(n + 1).drop_last() =~= ts.take(n));
        lemma_task_nodes_extends(source, nodes, ts, n + 1);
    } else {
        assert(ts.take(n) =~= ts);
    }
}

/// The graph nodes of the tasks, or the error of the first without a standard link.
fn build_task_nodes(source: &str, nodes: &Vec<MdNode>, ts: &Vec<usize>) -> (r: Result<
    Vec<TodoGraphNode>,
    String,
>)
    requires
        well_formed(nodes@),
        forall|k: int| 0 <= k < ts.len() ==> (#[trigger] ts@[k]) < nodes.len(),
        forall|k: int| 0 <= k < ts.len() ==> task_status(nodes@[#[trigger] ts@[k] as int]) is Some
            && item_block_id(nodes@, ts@[k] as int) is Some,
    ensures
        match task_nodes(source@, nodes@, ts@.map_values(|i: usize| i as int)) {
            Ok(v) => r matches Ok(ns) && graph_views(ns@) == v,
            Err(m) => r matches Err(e) && e@ == m,
        },
{
    let ghost tv = ts@.map_values(|i: usize| i as int);
    let mut ns: Vec<TodoGraphNode> = Vec::new();
    let mut k: usize = 0;
    assert(tv.take(0) =~= Seq::<int>::empty());
    assert(graph_views(ns@) =~= Seq::<GraphNodeView>::empty());
    while k < ts.len()
        invariant
            k <= ts.len(),
            well_formed(nodes@),
            tv == ts@.map_values(|i: usize| i as int),
            forall|q: int| 0 <= q < ts.len() ==> (#[trigger] ts@[q]) < nodes.len(),
            forall|q: int| 0 <= q < ts.len() ==> task_status(nodes@[#[trigger] ts@[q] as int]) is Some
                && item_block_id(nodes@, ts@[q] as int) is Some,
            task_nodes(source@, nodes@, tv.take(k as int)) == Ok::<Seq<GraphNodeView>, Seq<char>>(graph_views(ns@)),
        decreases ts.len() - k,
    {
        let j = ts[k];
        proof {
            assert(tv.take(k + 1).drop_last() =~= tv.take(k as int));
            assert(tv.take(k + 1).last() == j as int);
        }
        match task_graph_node(source, nodes, j) {
            Some(n) => {
                let ghost before = ns@;
                ns.push(n);
                assert(graph_views(ns@) =~= graph_views(before).push(graph_view(n)));
            },
            None => {
                let id = match list_item_block_id(nodes, j) {
                    Some(id) => id,
                    None => String::new(),
                };
                let mut m = String::new();
                push_str(&mut m, "Todo ");
                push_str(&mut m, id.as_str());
                push_str(&mut m, " must use a standard Markdown link to its document");
                proof {
                    lemma_task_nodes_extends(source@, nodes@, tv, k + 1);
                }
                return Err(m);
            },
        }
        k += 1;
    }
    assert(tv.take(ts.len() as int) =~= tv);
    Ok(ns)
}

/// The position of the last node with the ID.
fn last_index_with_id(ns: &Vec<TodoGraphNode>, id: &String) -> (r: Option<usize>)
    ensures
        match r {
            Some(i) => last_with_id(graph_views(ns@), id@) == Some(i as int) && i < ns.len(),
            None => last_with_id(graph_views(ns@), id@) is None,
        },
{
    let ghost v = graph_views(ns@);
    let mut i = ns.len();
    assert(v.take(i as int) =~= v);
    while i > 0
        invariant
            i <= ns.len(),
            v == graph_views(ns@),
            last_with_id(v, id@) == last_with_id(v.take(i as int), id@),
        decreases i,
    {
        assert(v.take(i as int).drop_last() =~= v.take(i - 1));
        if ns[i - 1].id == *id {
            return Some(i - 1);
        }
        i -= 1;
    }
    None
}

pub open spec fn pairs_int(v: Seq<(usize, usize)>) -> Seq<(int, int)> {
    v.map_values(|p: (usize, usize)| (p.0 as int, p.1 as int))
}

/// The (parent, child) pairs of the tasks (see `child_pairs`).
fn collect_pairs(nodes: &Vec<MdNode>, ts: &Vec<usize>, ns: &Vec<TodoGraphNode>) -> (r: Vec<(usize, usize)>)
    requires
        well_formed(nodes@),
        forall|k: int| 0 <= k < ts.len() ==> (#[trigger] ts@[k]) < nodes.len(),
        forall|k: int| 0 <= k < ts.len() ==> item_block_id(nodes@, #[trigger] ts@[k] as int) is Some,
    ensures
        pairs_int(r@) == child_pairs(nodes@, ts@.map_values(|i: usize| i as int), graph_views(ns@)),
        forall|k: int| 0 <= k < r.len() ==> (#[trigger] r@[k]).0 < ns.len() && r@[k].1 < ns.len(),
{
    let ghost tv = ts@.map_values(|i: usize| i as int);
    let mut r: Vec<(usize, usize)> = Vec::new();
    let mut k: usize = 0;
    while k < ts.len()
        invariant
            k <= ts.len(),
            well_formed(nodes@),
            tv == ts@.map_values(|i: usize| i as int),
            forall|q: int| 0 <= q < ts.len() ==> (#[trigger] ts@[q]) < nodes.len(),
            forall|q: int| 0 <= q < ts.len() ==> item_block_id(nodes@, #[trigger] ts@[q] as int) is Some,
            pairs_int(r@) == child_pairs(nodes@, tv.take(k as int), graph_views(ns@)),
            forall|q: int| 0 <= q < r.len() ==> (#[trigger] r@[q]).0 < ns.len() && r@[q].1 < ns.len(),
        decreases ts.len() - k,
    {
        let t = ts[k];
        proof {
            assert(tv.take(k + 1).drop_last() =~= tv.take(k as int));
            assert(tv.take(k + 1).last() == t as int);
        }
        if has_ancestor_label(nodes, t, "Children:") {
            if let Some(parent_id) = nearest_todo_ancestor(nodes, t) {
                if let Some(child_id) = list_item_block_id(nodes, t) {
                    let p = last_index_with_id(ns, &parent_id);
                    let c = last_index_with_id(ns, &child_id);
                    if let (Some(p), Some(c)) = (p, c) {
                        if p != c {
                            let ghost before = r@;
                            r.push((p, c));
                            assert(pairs_int(r@) =~= pairs_int(before).push((p as int, c as int)));
                        }
                    }
                }
            }
        }
        k += 1;
    }
    assert(tv.take(ts.len() as int) =~= tv);
    r
}

fn children_list(pairs: &Vec<(usize, usize)>, p: usize) -> (r: Vec<usize>)
    ensures
        r@.map_values(|i: usize| i as int) == children_of(pairs_int(pairs@), p as int),
        forall|k: int| 0 <= k < r.len() ==> exists|q: int| 0 <= q < pairs.len() && (#[trigger] r@[k]) == pairs@[q].1,
{
    let ghost pv = pairs_int(pairs@);
    let mut r: Vec<usize> = Vec::new();
    let mut k: usize = 0;
    while k < pairs.len()
        invariant
            k <= pairs.len(),
            pv == pairs_int(pairs@),
            r@.map_values(|i: usize| i as int) == children_of(pv.take(k as int), p as int),
            forall|q: int| 0 <= q < r.len() ==> exists|w: int| 0 <= w < pairs.len() && (#[trigger] r@[q]) == pairs@[w].1,
        decreases pairs.len() - k,
    {
        assert(pv.take(k + 1).drop_last() =~= pv.take(k as int));
        assert(pv.take(k + 1).last() == (pairs@[k as int].0 as int, pairs@[k as int].1 as int));
        if pairs[k].0 == p {
            let ghost before = r@;
            r.push(pairs[k].1);
            assert(r@.map_values(|i: usize| i as int) =~= before.map_values(|i: usize| i as int).push(pairs@[k as int].1 as int));
            assert(r@[r.len() - 1] == pairs@[k as int].1);
        }
        k += 1;
    }
    assert(pv.take(pairs.len() as int) =~= pv);
    r
}

fn is_a_child(pairs: &Vec<(usize, usize)>, c: usize) -> (b: bool)
    ensures
        b == is_child(pairs_int(pairs@), c as int),
{
    let mut k: usize = 0;
    while k < pairs.len()
        invariant
            k <= pairs.len(),
            forall|q: int| 0 <= q < k ==> pairs@[q].1 != c,
        decreases pairs.len() - k,
    {
        if pairs[k].1 == c {
            assert(pairs_int(pairs@)[k as int].1 == c as int);
            return true;
        }
        k += 1;
    }
    assert forall|q: int| 0 <= q < pairs.len() implies (#[trigger] pairs_int(pairs@)[q]).1 != c as int by {
        assert(pairs_int(pairs@)[q].1 == pairs@[q].1 as int);
    }
    false
}

/// Node `i` with its descendants to the given depth (see `assemble`).
fn assemble_node(ns: &Vec<TodoGraphNode>, pairs: &Vec<(usize, usize)>, i: usize, depth: usize) -> (r: TodoGraphNode)
    requires
        i < ns.len(),
        forall|k: int| 0 <= k < pairs.len() ==> (#[trigger] pairs@[k]).0 < ns.len() && pairs@[k].1 < ns.len(),
    ensures
        graph_view(r) == assemble(graph_views(ns@), pairs_int(pairs@), i as int, depth as nat),
    decreases depth,
{
    let n = &ns[i];
    let kids = children_list(pairs, i);
    let mut children: Vec<TodoGraphNode> = Vec::new();
    if depth > 0 {
        let mut k: usize = 0;
        while k < kids.len()
            invariant
                k <= kids.len(),
                depth > 0,
                forall|q: int| 0 <= q < pairs.len() ==> (#[trigger] pairs@[q]).0 < ns.len() && pairs@[q].1 < ns.len(),
                forall|q: int| 0 <= q < kids.len() ==> exists|w: int| 0 <= w < pairs.len() && (#[trigger] kids@[q]) == pairs@[w].1,
                children.len() == k,
                forall|q: int| 0 <= q < k ==> graph_view(#[trigger] children@[q]) == assemble(
                    graph_views(ns@),
                    pairs_int(pairs@),
                    kids@[q] as int,
                    (depth - 1) as nat,
                ),
            decreases kids.len() - k,
        {
            let c = kids[k];
            assert(exists|w: int| 0 <= w < pairs.len() && kids@[k as int] == pairs@[w].1);
            let child = assemble_node(ns, pairs, c, depth - 1);
            children.push(child);
            k += 1;
        }
    }
    let r = TodoGraphNode {
        id: n.id.clone(),
        title: n.title.clone(),
        document: n.document.clone(),
        status: n.status,
        created_by: clone_opt(&n.created_by),
        owner: clone_opt(&n.owner),
        completed_by: clone_opt(&n.completed_by),
        depends_on: clone_strings(&n.depends_on),
        block_reason: clone_opt(&n.block_reason),
        cancel_reason: clone_opt(&n.cancel_reason),
        children,
    };
    proof {
        let expected = assemble(graph_views(ns@), pairs_int(pairs@), i as int, depth as nat);
        assert(graph_views(ns@)[i as int] == graph_view(ns@[i as int]));
        assert(graph_view(r).children =~= expected.children);
        assert(graph_view(r).depends_on =~= expected.depends_on);
    }
    r
}

/// The Todo graph of the section, read from the outline of the Blueprint's Markdown (see
/// `graph_spec`).
pub fn graph_nodes_from_outline(source: &str, sec: &Section, nodes: &Vec<MdNode>) -> (r: Result<
    Vec<TodoGraphNode>,
    String,
>)
    requires
        well_formed(nodes@),
    ensures
        match graph_spec(source@, sec@, nodes@) {
            Ok(v) => r matches Ok(g) && graph_views(g@) == v,
            Err(m) => r matches Err(e) && e@ == m,
        },
{
    let ts = collect_tasks(source, sec, nodes);
    let ghost tv = ts@.map_values(|i: usize| i as int);
    proof {
        assert forall|k: int| 0 <= k < ts.len() implies task_status(nodes@[#[trigger] ts@[k] as int]) is Some
            && item_block_id(nodes@, ts@[k] as int) is Some by {
            lemma_todo_tasks_are_tasks(nodes@, encode_utf8(source@), sec@, nodes.len() as int, k);
            assert(tv[k] == ts@[k] as int);
        }
    }
    let ns = build_task_nodes(source, nodes, &ts)?;
    let pairs = collect_pairs(nodes, &ts, &ns);
    let ghost pv = pairs_int(pairs@);
    let ghost nv = graph_views(ns@);
    let ghost rs = roots(pv, nv.len() as int);
    let mut out: Vec<TodoGraphNode> = Vec::new();
    let mut i: usize = 0;
    while i < ns.len()
        invariant
            i <= ns.len(),
            nv == graph_views(ns@),
            pv == pairs_int(pairs@),
            forall|q: int| 0 <= q < pairs.len() ==> (#[trigger] pairs@[q]).0 < ns.len() && pairs@[q].1 < ns.len(),
            graph_views(out@) == Seq::new(
                roots(pv, i as int).len(),
                |k: int| assemble(nv, pv, roots(pv, i as int)[k], nv.len()),
            ),
        decreases ns.len() - i,
    {
        if !is_a_child(&pairs, i) {
            let node = assemble_node(&ns, &pairs, i, ns.len());
            let ghost before = out@;
            out.push(node);
            proof {
                let r0 = roots(pv, i as int);
                let r1 = roots(pv, i + 1);
                assert(r1 == r0.push(i as int));
                assert(graph_views(before).len() == r0.len());
                assert forall|k: int| 0 <= k < r1.len() implies graph_views(out@)[k] == assemble(nv, pv, r1[k], nv.len()) by {
                    if k < r0.len() {
                        assert(out@[k] == before[k]);
                        assert(graph_views(before)[k] == assemble(nv, pv, r0[k], nv.len()));
                    } else {
                        assert(out@[k] == node);
                    }
                }
            }
            assert(graph_views(out@) =~= Seq::new(
                roots(pv, i + 1).len(),
                |k: int| assemble(nv, pv, roots(pv, i + 1)[k], nv.len()),
            ));
        } else {
            assert(roots(pv, i + 1) == roots(pv, i as int));
        }
        i += 1;
    }
    Ok(out)
}

proof fn lemma_todo_tasks_are_tasks(nodes: Seq<MdNode>, b: Seq<u8>, sec: SectionView, n: int, k: int)
    requires
        0 <= k < todo_tasks(nodes, b, sec, n).len(),
    ensures
        todo_task(nodes, b, sec, todo_tasks(nodes, b, sec, n)[k]),
        0 <= todo_tasks(nodes, b, sec, n)[k] < n,
    decreases n,
{
    if n > 0 {
        let prev = todo_tasks(nodes, b, sec, n - 1);
        if todo_task(nodes, b, sec, n - 1) {
            if k < prev.len() {
                lemma_todo_tasks_are_tasks(nodes, b, sec, n - 1, k);
            }
        } else {
            lemma_todo_tasks_are_tasks(nodes, b, sec, n - 1, k);
        }
    }
}

} // verus!
