//! Task list items of a Blueprint's outline: their parents, their own text (without nested
//! lists), their block IDs, and the labelled list items they sit under.
use vstd::prelude::*;

use crate::blueprint::model::{TodoStatus, status_of_marker};
use crate::markdown::{MdKind, MdNode, well_formed};
use crate::parser::note::contribution;
use crate::parser::starts_with;
use crate::text::{chars_of, push_char, push_str, str_eq, string_of, trim, trim_bounds};

verus! {

/// The nearest node at or before `i` whose subtree holds node `j`.
pub open spec fn enclosing(nodes: Seq<MdNode>, j: int, i: int) -> Option<int>
    decreases i + 1,
{
    if i < 0 {
        None
    } else if j < nodes[i].subtree_end {
        Some(i)
    } else {
        enclosing(nodes, j, i - 1)
    }
}

/// The parent of node `j`: the nearest earlier node whose subtree holds it (`None` for a
/// node at the top level).
pub open spec fn parent_of(nodes: Seq<MdNode>, j: int) -> Option<int> {
    enclosing(nodes, j, j - 1)
}

proof fn lemma_enclosing_bounds(nodes: Seq<MdNode>, j: int, i: int)
    requires
        i < nodes.len(),
    ensures
        enclosing(nodes, j, i) matches Some(p) ==> 0 <= p <= i,
    decreases i + 1,
{
    if i >= 0 && !(j < nodes[i].subtree_end) {
        lemma_enclosing_bounds(nodes, j, i - 1);
    }
}

/// The parent of node `j`.
pub fn parent(nodes: &Vec<MdNode>, j: usize) -> (r: Option<usize>)
    requires
        j <= nodes.len(),
    ensures
        match r {
            Some(p) => parent_of(nodes@, j as int) == Some(p as int) && p < j,
            None => parent_of(nodes@, j as int) is None,
        },
{
    let mut i = j;
    while i > 0
        invariant
            i <= j <= nodes.len(),
            parent_of(nodes@, j as int) == enclosing(nodes@, j as int, i - 1),
        decreases i,
    {
        if j < nodes[i - 1].subtree_end {
            return Some(i - 1);
        }
        i -= 1;
    }
    None
}

/// The visible text of node `i`'s subtree without the lists nested in it: the nodes
/// `j..end` of the subtree, skipping the subtree of each list below `i`.
pub open spec fn own_text_from(nodes: Seq<MdNode>, i: int, j: int, end: int) -> Seq<char>
    decreases end - j,
{
    if j >= end || j < 0 || j >= nodes.len() {
        Seq::<char>::empty()
    } else if j > i && nodes[j].kind == MdKind::List {
        own_text_from(nodes, i, skip_list(nodes[j], j, end), end)
    } else {
        contribution(nodes[j]) + own_text_from(nodes, i, j + 1, end)
    }
}

/// The position after a nested list at `j`: the end of its subtree, kept inside `j + 1 ..= end`.
pub open spec fn skip_list(n: MdNode, j: int, end: int) -> int {
    if n.subtree_end <= j + 1 {
        j + 1
    } else if n.subtree_end < end {
        n.subtree_end as int
    } else {
        end
    }
}

/// The trimmed visible text of node `i` without its nested lists.
pub open spec fn own_text(nodes: Seq<MdNode>, i: int) -> Seq<char> {
    trim(own_text_from(nodes, i, i, nodes[i].subtree_end as int))
}

/// The trimmed visible text of node `i` without its nested lists.
pub fn own_text_of(nodes: &Vec<MdNode>, i: usize) -> (t: String)
    requires
        well_formed(nodes@),
        i < nodes.len(),
    ensures
        t@ == own_text(nodes@, i as int),
{
    let end = nodes[i].subtree_end;
    let mut pieces: Vec<usize> = Vec::new();
    let mut j = i;
    while j < end
        invariant
            i <= j,
            end == nodes@[i as int].subtree_end,
            end <= nodes.len(),
            well_formed(nodes@),
            forall|q: int| 0 <= q < pieces.len() ==> (#[trigger] pieces@[q]) < nodes.len(),
            own_text_from(nodes@, i as int, i as int, end as int) == text_of_positions(nodes@, pieces@)
                + own_text_from(nodes@, i as int, j as int, end as int),
        decreases end - j,
    {
        if j > i && nodes[j].kind == MdKind::List {
            let next = if nodes[j].subtree_end <= j + 1 {
                j + 1
            } else if nodes[j].subtree_end < end {
                nodes[j].subtree_end
            } else {
                end
            };
            j = next;
        } else {
            let ghost before = pieces@;
            pieces.push(j);
            proof {
                lemma_text_of_positions_push(nodes@, before, j);
                assert(own_text_from(nodes@, i as int, j as int, end as int) == contribution(nodes@[j as int])
                    + own_text_from(nodes@, i as int, j + 1, end as int));
            }
            j += 1;
        }
    }
    proof {
        assert(own_text_from(nodes@, i as int, j as int, end as int) =~= Seq::<char>::empty());
    }
    let mut text = String::new();
    let mut k: usize = 0;
    while k < pieces.len()
        invariant
            k <= pieces.len(),
            forall|q: int| 0 <= q < pieces.len() ==> (#[trigger] pieces@[q]) < nodes.len(),
            text@ == text_of_positions(nodes@, pieces@.take(k as int)),
        decreases pieces.len() - k,
    {
        let n = &nodes[pieces[k]];
        match n.kind {
            MdKind::Text => push_str(&mut text, n.text.as_str()),
            MdKind::LineBreak => push_char(&mut text, '\n'),
            _ => {},
        }
        proof {
            assert(pieces@.take(k + 1) =~= pieces@.take(k as int).push(pieces@[k as int]));
            lemma_text_of_positions_push(nodes@, pieces@.take(k as int), pieces@[k as int]);
        }
        k += 1;
    }
    assert(pieces@.take(pieces.len() as int) =~= pieces@);
    let cs = chars_of(text.as_str());
    let (a, b) = trim_bounds(&cs, 0, cs.len());
    assert(cs@.subrange(0, cs.len() as int) =~= cs@);
    string_of(&cs, a, b)
}

/// The visible text of the nodes at the positions, in order.
pub open spec fn text_of_positions(nodes: Seq<MdNode>, ps: Seq<usize>) -> Seq<char>
    decreases ps.len(),
{
    if ps.len() == 0 {
        Seq::<char>::empty()
    } else {
        text_of_positions(nodes, ps.drop_last()) + contribution(nodes[ps.last() as int])
    }
}

proof fn lemma_text_of_positions_push(nodes: Seq<MdNode>, ps: Seq<usize>, p: usize)
    ensures
        text_of_positions(nodes, ps.push(p)) == text_of_positions(nodes, ps) + contribution(
            nodes[p as int],
        ),
{
    assert(ps.push(p).drop_last() =~= ps);
}

/// The block ID of the first direct child of node `i`, among `j..end`, that has one.
pub open spec fn child_id_from(nodes: Seq<MdNode>, i: int, j: int, end: int) -> Option<Seq<char>>
    decreases end - j,
{
    if j >= end || j < 0 || j >= nodes.len() {
        None
    } else if parent_of(nodes, j) == Some(i) && nodes[j].block_id is Some {
        Some(nodes[j].block_id->0@)
    } else {
        child_id_from(nodes, i, j + 1, end)
    }
}

/// The block ID of a list item: that of its first direct child with one.
pub open spec fn item_block_id(nodes: Seq<MdNode>, i: int) -> Option<Seq<char>> {
    child_id_from(nodes, i, i + 1, nodes[i].subtree_end as int)
}

/// The block ID of a list item (see `item_block_id`).
pub fn list_item_block_id(nodes: &Vec<MdNode>, i: usize) -> (r: Option<String>)
    requires
        well_formed(nodes@),
        i < nodes.len(),
    ensures
        match r {
            Some(id) => item_block_id(nodes@, i as int) == Some(id@),
            None => item_block_id(nodes@, i as int) is None,
        },
{
    let end = nodes[i].subtree_end;
    let mut j = i + 1;
    while j < end
        invariant
            i < j <= end,
            end == nodes@[i as int].subtree_end,
            end <= nodes.len(),
            item_block_id(nodes@, i as int) == child_id_from(nodes@, i as int, j as int, end as int),
        decreases end - j,
    {
        if let Some(id) = &nodes[j].block_id {
            if let Some(p) = parent(nodes, j) {
                if p == i {
                    return Some(id.clone());
                }
            }
        }
        j += 1;
    }
    None
}

/// Some ancestor of node `p`, or `p` itself, has the own text `label`.
pub open spec fn label_from(nodes: Seq<MdNode>, p: int, label: Seq<char>) -> bool
    decreases p + 1,
{
    if p < 0 || p >= nodes.len() {
        false
    } else if own_text(nodes, p) == label {
        true
    } else {
        match parent_of(nodes, p) {
            Some(q) => if 0 <= q < p {
                label_from(nodes, q, label)
            } else {
                false
            },
            None => false,
        }
    }
}

/// Some ancestor of node `j` has the own text `label`.
pub open spec fn has_label_ancestor(nodes: Seq<MdNode>, j: int, label: Seq<char>) -> bool {
    match parent_of(nodes, j) {
        Some(p) => label_from(nodes, p, label),
        None => false,
    }
}

/// Whether some ancestor of node `j` has the own text `label`.
pub fn has_ancestor_label(nodes: &Vec<MdNode>, j: usize, label: &str) -> (b: bool)
    requires
        well_formed(nodes@),
        j < nodes.len(),
    ensures
        b == has_label_ancestor(nodes@, j as int, label@),
{
    let mut current = parent(nodes, j);
    while current.is_some()
        invariant
            well_formed(nodes@),
            j < nodes.len(),
            match current {
                Some(p) => p < nodes.len() && has_label_ancestor(nodes@, j as int, label@) == label_from(nodes@, p as int, label@),
                None => !has_label_ancestor(nodes@, j as int, label@),
            },
        decreases match current {
            Some(p) => p + 1,
            None => 0,
        },
    {
        let p = current.unwrap();
        let text = own_text_of(nodes, p);
        if str_eq(text.as_str(), label) {
            return true;
        }
        current = parent(nodes, p);
    }
    false
}

/// The ID of the nearest Todo list item at or above node `p`.
pub open spec fn todo_from(nodes: Seq<MdNode>, p: int) -> Option<Seq<char>>
    decreases p + 1,
{
    if p < 0 || p >= nodes.len() {
        None
    } else if nodes[p].kind == MdKind::ListItem && item_block_id(nodes, p) is Some && starts_with(
        item_block_id(nodes, p)->0,
        "todo-"@,
    ) {
        item_block_id(nodes, p)
    } else {
        match parent_of(nodes, p) {
            Some(q) => if 0 <= q < p {
                todo_from(nodes, q)
            } else {
                None
            },
            None => None,
        }
    }
}

/// The ID of the nearest Todo list item above node `j`.
pub open spec fn todo_ancestor(nodes: Seq<MdNode>, j: int) -> Option<Seq<char>> {
    match parent_of(nodes, j) {
        Some(p) => todo_from(nodes, p),
        None => None,
    }
}

pub(crate) fn starts_with_todo(id: &String) -> (b: bool)
    ensures
        b == starts_with(id@, "todo-"@),
{
    let cs = chars_of(id.as_str());
    let p = chars_of("todo-");
    if cs.len() < p.len() {
        return false;
    }
    let mut k: usize = 0;
    while k < p.len()
        invariant
            p.len() <= cs.len(),
            k <= p.len(),
            cs@ == id@,
            p@ == "todo-"@,
            forall|q: int| 0 <= q < k ==> cs@[q] == p@[q],
        decreases p.len() - k,
    {
        if cs[k] != p[k] {
            assert(cs@.take(p.len() as int)[k as int] != p@[k as int]);
            return false;
        }
        k += 1;
    }
    assert(cs@.take(p.len() as int) =~= p@);
    true
}

/// The ID of the nearest Todo list item above node `j`.
pub fn nearest_todo_ancestor(nodes: &Vec<MdNode>, j: usize) -> (r: Option<String>)
    requires
        well_formed(nodes@),
        j < nodes.len(),
    ensures
        match r {
            Some(id) => todo_ancestor(nodes@, j as int) == Some(id@),
            None => todo_ancestor(nodes@, j as int) is None,
        },
{
    let mut current = parent(nodes, j);
    while current.is_some()
        invariant
            well_formed(nodes@),
            j < nodes.len(),
            match current {
                Some(p) => p < nodes.len() && todo_ancestor(nodes@, j as int) == todo_from(nodes@, p as int),
                None => todo_ancestor(nodes@, j as int) is None,
            },
        decreases match current {
            Some(p) => p + 1,
            None => 0,
        },
    {
        let p = current.unwrap();
        if nodes[p].kind == MdKind::ListItem {
            if let Some(id) = list_item_block_id(nodes, p) {
                if starts_with_todo(&id) {
                    return Some(id);
                }
            }
        }
        current = parent(nodes, p);
    }
    None
}

/// The status a task list item's marker stands for.
pub open spec fn task_status(n: MdNode) -> Option<TodoStatus> {
    if n.kind == MdKind::ListItem {
        match n.task {
            Some(c) => status_of_marker(c),
            None => None,
        }
    } else {
        None
    }
}

/// A task of the Todos section follows the protocol when its list sits at the top level of
/// the document or the task sits under a `Children:` item.
pub open spec fn protocol_task(nodes: Seq<MdNode>, j: int) -> bool {
    let top = match parent_of(nodes, j) {
        Some(l) => parent_of(nodes, l) is None,
        None => true,
    };
    top || has_label_ancestor(nodes, j, "Children:"@)
}

pub fn is_protocol_task(nodes: &Vec<MdNode>, j: usize) -> (b: bool)
    requires
        well_formed(nodes@),
        j < nodes.len(),
    ensures
        b == protocol_task(nodes@, j as int),
{
    let top = match parent(nodes, j) {
        Some(l) => parent(nodes, l).is_none(),
        None => true,
    };
    top || has_ancestor_label(nodes, j, "Children:")
}

} // verus!
