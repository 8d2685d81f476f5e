//! The document rules behind the Blueprint service's operations: the state change of a
//! Blueprint, the open Definition of Done items, the Evidence references of a Results body,
//! new Todo documents, the graph node of a Todo, and the combined edit of a Todo detail.
use vstd::prelude::*;

use crate::blueprint::document::{join_titles, views};
use crate::blueprint::edit::{
    replace_or_insert_todo_field, replace_section, replace_section_spec, replace_task_title,
    section_body, section_body_spec,
    replace_title, replace_title_spec, require_text, task_title_spec, todo_fields_spec,
};
use crate::blueprint::evidence::{is_evidence_id, last_match, last_occurrence, well_formed_id};
use crate::blueprint::graph::{GraphNodeView, graph_view, opt_view};
use crate::blueprint::model::{
    BlueprintState, CheckUpdate, EvidenceItem, NotReadyTodo, TodoDetail, Todo, TodoGraphNode, TodoStatus, clone_opt,
    clone_strings, state_name,
};
use crate::blueprint::source::BlueprintSource;
use crate::markdown::markdown_accepts;
use crate::blueprint::legacy::{TodoTreeView, legacy_parsed,ParsedBlueprintSource, legacy_tree, lemma_same_view, tree_view, tree_views};
use crate::blueprint::model::clone_todo;
use crate::blueprint::validate::{
    derefs, derive_readiness, flat_forest, flatten, graph_outcome, ready_ids, waiting,
};
use crate::parser::starts_with;
use crate::text::{
    chars_of, find_chars, find_from, join_with, lemma_find_from, lines_spec, push_char,
    push_range, push_str, split_on, string_of, to_string, trim,
};

verus! {

/// The frontmatter name of a lifecycle state.
pub fn blueprint_state_name(state: BlueprintState) -> (n: &'static str)
    ensures
        n@ == state_name(state),
{
    state.name()
}

/// An active Blueprint's state line rewritten: the first `state: active` becomes
/// `state: <new state>`.
pub open spec fn replace_state_spec(s: Seq<char>, state: BlueprintState) -> Result<Seq<char>, Seq<char>> {
    match find_from(s, "state: active"@, 0) {
        None => Err("Blueprint is not active"@),
        Some(k) => Ok(s.take(k) + "state: "@ + state_name(state) + s.skip(k + "state: active"@.len())),
    }
}

/// Rewrites an active Blueprint's state (see `replace_state_spec`).
pub fn replace_state(source: &str, state: BlueprintState) -> (r: Result<String, String>)
    ensures
        match replace_state_spec(source@, state) {
            Ok(t) => r matches Ok(x) && x@ == t,
            Err(m) => r matches Err(e) && e@ == m,
        },
{
    let cs = chars_of(source);
    let n = cs.len();
    let pat = crate::text::pattern("state: active");
    proof {
        lemma_find_from(cs@, pat@, 0);
    }
    match find_chars(&cs, &pat, 0) {
        None => Err(to_string("Blueprint is not active")),
        Some(k) => {
            let mut out = String::new();
            push_range(&mut out, &cs, 0, k);
            push_str(&mut out, "state: ");
            push_str(&mut out, state.name());
            push_range(&mut out, &cs, k + pat.len(), n);
            assert(cs@.subrange(0, k as int) =~= cs@.take(k as int));
            assert(cs@.subrange(k + pat@.len(), n as int) =~= cs@.skip(k + pat@.len()));
            Ok(out)
        },
    }
}

/// The line holds the pattern.
pub open spec fn holds(l: Seq<char>, p: Seq<char>) -> bool {
    find_from(l, p, 0) is Some
}

/// The IDs of the open Definition of Done items among `lines`: each line that holds
/// `^dod-` and neither `- [x]` nor `- [X]` gives the trimmed text between its first and
/// second `^`.
pub open spec fn open_dod_spec(lines: Seq<Seq<char>>) -> Seq<Seq<char>>
    decreases lines.len(),
{
    if lines.len() == 0 {
        seq![]
    } else {
        let l = lines.last();
        open_dod_spec(lines.drop_last()) + if holds(l, "^dod-"@) && !holds(l, "- [x]"@) && !holds(
            l,
            "- [X]"@,
        ) {
            seq![trim(split_on(l, '^')[1])]
        } else {
            seq![]
        }
    }
}

pub open spec fn text_views(v: Seq<String>) -> Seq<Seq<char>> {
    v.map_values(|s: String| s@)
}

/// The IDs of the open Definition of Done items (see `open_dod_spec`).
pub fn open_dod_ids(source: &str) -> (r: Vec<String>)
    ensures
        text_views(r@) == open_dod_spec(lines_spec(source@)),
{
    proof {
        reveal_strlit("^dod-");
    }
    let cs = chars_of(source);
    let bounds = crate::text::line_bounds(&cs);
    let dod = crate::text::pattern("^dod-");
    let done = crate::text::pattern("- [x]");
    let done_upper = crate::text::pattern("- [X]");
    let ghost lines = lines_spec(cs@);
    let mut r: Vec<String> = Vec::new();
    let mut k: usize = 0;
    assert(text_views(r@) =~= Seq::<Seq<char>>::empty());
    while k < bounds.len()
        invariant
            k <= bounds.len(),
            crate::text::ranges_in(cs@, bounds@),
            crate::text::ranges_view(cs@, bounds@) == lines,
            dod@ == "^dod-"@,
            done@ == "- [x]"@,
            done_upper@ == "- [X]"@,
            text_views(r@) == open_dod_spec(lines.take(k as int)),
        decreases bounds.len() - k,
    {
        let (a, b) = bounds[k];
        assert(bounds@[k as int].0 <= bounds@[k as int].1 <= cs.len());
        let l = crate::parser::chars_range(&cs, a, b);
        assert(l@ == lines[k as int]);
        assert(lines.take(k + 1).drop_last() =~= lines.take(k as int));
        let found = find_chars(&l, &dod, 0);
        let open = found.is_some() && find_chars(&l, &done, 0).is_none()
            && find_chars(&l, &done_upper, 0).is_none();
        if open {
            let p = found.unwrap();
            proof {
                reveal_strlit("^dod-");
                lemma_find_from(l@, dod@, 0);
                assert(l@.subrange(p as int, p + 5) == dod@);
                assert(l@[p as int] == l@.subrange(p as int, p + 5)[0]);
                crate::text::lemma_split_len(l@, '^');
                lemma_split_has_second(l@, p as int);
            }
            let pieces = crate::text::split_ranges(&l, 0, l.len(), '^');
            assert(l@.subrange(0, l@.len() as int) =~= l@);
            let (pa, pb) = pieces[1];
            assert(pieces@[1].0 <= pieces@[1].1 <= l.len());
            let (ta, tb) = crate::text::trim_bounds(&l, pa, pb);
            let ghost before = r@;
            r.push(string_of(&l, ta, tb));
            assert(text_views(r@) =~= text_views(before).push(trim(split_on(l@, '^')[1])));
        }
        k += 1;
    }
    assert(lines.take(bounds.len() as int) =~= lines);
    r
}

/// A text with a `^` at position `p` splits into at least two pieces.
proof fn lemma_split_has_second(s: Seq<char>, p: int)
    requires
        0 <= p < s.len(),
        s[p] == '^',
    ensures
        split_on(s, '^').len() >= 2,
    decreases s.len(),
{
    crate::text::lemma_split_len(s.drop_last(), '^');
    if p < s.len() - 1 {
        lemma_split_has_second(s.drop_last(), p);
    }
}

/// The Evidence IDs that the Markdown link destinations of `r[pos..]` name, in order: each
/// `](` must be closed by a `)`, and a destination with `#^` must name a well-formed
/// Evidence ID after its last `#^`.
pub open spec fn references_from(r: Seq<char>, pos: int) -> Result<Seq<Seq<char>>, Seq<char>>
    decreases r.len() - pos,
{
    match find_from(r, "]("@, pos) {
        None => Ok(seq![]),
        Some(st) => {
            if st < pos || st + 2 > r.len() {
                Ok(seq![])
            } else {
                match find_from(r, ")"@, st + 2) {
                    None => Err("malformed Evidence reference"@),
                    Some(end) => {
                        if end < st + 2 || end >= r.len() {
                            Ok(seq![])
                        } else {
                            let dest = r.subrange(st + 2, end);
                            match last_occurrence(dest, "#^"@, dest.len() - "#^"@.len()) {
                                None => references_from(r, end + 1),
                                Some(p) => {
                                    let id = dest.skip(p + "#^"@.len());
                                    if !well_formed_id(id) {
                                        Err("malformed Evidence reference"@)
                                    } else {
                                        match references_from(r, end + 1) {
                                            Err(m) => Err(m),
                                            Ok(rest) => Ok(seq![id] + rest),
                                        }
                                    }
                                },
                            }
                        }
                    },
                }
            }
        },
    }
}

/// The Evidence references of a Results body (see `references_from`); a body that mentions
/// `#^evidence-` must reference Evidence through a link.
pub open spec fn evidence_references_spec(r: Seq<char>) -> Result<Seq<Seq<char>>, Seq<char>> {
    match references_from(r, 0) {
        Err(m) => Err(m),
        Ok(refs) => if holds(r, "#^evidence-"@) && refs.len() == 0 {
            Err("malformed Evidence reference"@)
        } else {
            Ok(refs)
        },
    }
}

/// The Evidence IDs referenced by a Results body (see `evidence_references_spec`).
pub fn evidence_references(results: &str) -> (r: Result<Vec<String>, String>)
    ensures
        match evidence_references_spec(results@) {
            Ok(v) => r matches Ok(x) && text_views(x@) == v,
            Err(m) => r matches Err(e) && e@ == m,
        },
{
    proof {
        reveal_strlit("](");
        reveal_strlit(")");
        reveal_strlit("#^");
    }
    let cs = chars_of(results);
    let n = cs.len();
    let open = crate::text::pattern("](");
    let close = crate::text::pattern(")");
    let marker = crate::text::pattern("#^");
    let mut refs: Vec<String> = Vec::new();
    let mut pos: usize = 0;
    assert(text_views(refs@) =~= Seq::<Seq<char>>::empty());
    let ghost mut acc: Seq<Seq<char>> = seq![];
    loop
        invariant
            pos <= n,
            n == cs@.len(),
            cs@ == results@,
            open@ == "]("@,
            close@ == ")"@,
            marker@ == "#^"@,
            text_views(refs@) == acc,
            references_from(cs@, 0) == (match references_from(cs@, pos as int) {
                Ok(rest) => Ok(acc + rest),
                Err(m) => Err::<Seq<Seq<char>>, Seq<char>>(m),
            }),
        ensures
            text_views(refs@) == acc,
            references_from(cs@, 0) == Ok::<Seq<Seq<char>>, Seq<char>>(acc),
        decreases n - pos,
    {
        proof {
            reveal_strlit("](");
            reveal_strlit(")");
            reveal_strlit("#^");
            lemma_find_from(cs@, open@, pos as int);
        }
        let st = match find_chars(&cs, &open, pos) {
            None => {
                assert(acc + Seq::<Seq<char>>::empty() =~= acc);
                break;
            },
            Some(st) => st,
        };
        proof {
            lemma_find_from(cs@, close@, st + 2);
        }
        let end = match find_chars(&cs, &close, st + 2) {
            None => {
                return Err(to_string("malformed Evidence reference"));
            },
            Some(e) => e,
        };
        let dest = crate::parser::chars_range(&cs, st + 2, end);
        match last_match(&dest, &marker) {
            None => {},
            Some(p) => {
                let id = string_of(&dest, p + 2, dest.len());
                assert(dest@.subrange(p + 2, dest@.len() as int) =~= dest@.skip(p + 2));
                if !is_evidence_id(&id) {
                    return Err(to_string("malformed Evidence reference"));
                }
                let ghost before = refs@;
                proof {
                    assert(acc + (seq![id@] + references_from(cs@, end + 1)->Ok_0) =~= acc.push(id@)
                        + references_from(cs@, end + 1)->Ok_0);
                    acc = acc.push(id@);
                }
                refs.push(id);
                assert(text_views(refs@) =~= text_views(before).push(refs@.last()@));
            },
        }
        pos = end + 1;
    }
    let hash = crate::text::pattern("#^evidence-");
    if refs.len() == 0 && find_chars(&cs, &hash, 0).is_some() {
        return Err(to_string("malformed Evidence reference"));
    }
    Ok(refs)
}

/// Criterion lines `- [ ] <trimmed text>`, joined by newlines.
pub open spec fn criteria_text(items: Seq<Seq<char>>) -> Seq<char>
    decreases items.len(),
{
    if items.len() == 0 {
        seq![]
    } else if items.len() == 1 {
        "- [ ] "@ + trim(items[0])
    } else {
        criteria_text(items.drop_last()) + seq!['\n'] + "- [ ] "@ + trim(items.last())
    }
}

/// A new Todo document: frontmatter naming its ID and Blueprint, the title, and the Intent,
/// Completion Criteria, Plan, Handoff, Results, Evidence, Revision History and Notes sections.
pub open spec fn render_todo_spec(
    blueprint_id: Seq<char>,
    todo_id: Seq<char>,
    title: Seq<char>,
    intent: Seq<char>,
    plan: Seq<char>,
    criteria: Seq<Seq<char>>,
) -> Seq<char> {
    "---\nschema: blueprint/todo/v2\nid: "@ + todo_id + "\nblueprint: "@ + blueprint_id
        + "\n---\n\n# "@ + title + "\n\n## Intent\n\n"@ + intent + "\n\n## Completion Criteria\n\n"@
        + criteria_text(criteria) + "\n\n## Plan\n\n"@ + plan
        + "\n\n## Handoff\n\n\n## Results\n\n\n## Evidence\n\n\n## Revision History\n\n\n## Notes\n"@
}

/// Renders a new Todo document (see `render_todo_spec`).
pub fn render_todo(
    blueprint_id: &str,
    todo_id: &str,
    title: &str,
    intent: &str,
    plan: &str,
    criteria: &Vec<String>,
) -> (r: String)
    ensures
        r@ == render_todo_spec(blueprint_id@, todo_id@, title@, intent@, plan@, text_views(criteria@)),
{
    let ghost cv = text_views(criteria@);
    let mut items = String::new();
    let mut i: usize = 0;
    while i < criteria.len()
        invariant
            i <= criteria.len(),
            cv == text_views(criteria@),
            items@ == criteria_text(cv.take(i as int)),
        decreases criteria.len() - i,
    {
        assert(cv.take(i + 1).drop_last() =~= cv.take(i as int));
        if i > 0 {
            push_char(&mut items, '\n');
        } else {
            assert(cv.take(1)[0] == cv[0]);
        }
        push_str(&mut items, "- [ ] ");
        let cs = chars_of(criteria[i].as_str());
        let (p, q) = crate::text::trim_bounds(&cs, 0, cs.len());
        assert(cs@.subrange(0, cs@.len() as int) =~= cs@);
        push_range(&mut items, &cs, p, q);
        proof {
            if i == 0 {
                assert(criteria_text(cv.take(0)) == Seq::<char>::empty());
            }
        }
        i += 1;
    }
    assert(cv.take(criteria.len() as int) =~= cv);
    let mut out = to_string("---\nschema: blueprint/todo/v2\nid: ");
    push_str(&mut out, todo_id);
    push_str(&mut out, "\nblueprint: ");
    push_str(&mut out, blueprint_id);
    push_str(&mut out, "\n---\n\n# ");
    push_str(&mut out, title);
    push_str(&mut out, "\n\n## Intent\n\n");
    push_str(&mut out, intent);
    push_str(&mut out, "\n\n## Completion Criteria\n\n");
    push_str(&mut out, items.as_str());
    push_str(&mut out, "\n\n## Plan\n\n");
    push_str(&mut out, plan);
    push_str(
        &mut out,
        "\n\n## Handoff\n\n\n## Results\n\n\n## Evidence\n\n\n## Revision History\n\n\n## Notes\n",
    );
    out
}

/// The graph node of a Todo: its document is `todos/<id>.md`, and its children's nodes
/// follow.
pub open spec fn node_of(t: Todo) -> GraphNodeView
    decreases t,
{
    GraphNodeView {
        id: t.id@,
        title: t.title@,
        document: "todos/"@ + t.id@ + ".md"@,
        status: t.status,
        created_by: opt_view(t.created_by),
        owner: opt_view(t.owner),
        completed_by: opt_view(t.completed_by),
        depends_on: t.depends_on@.map_values(|d: String| d@),
        block_reason: opt_view(t.block_reason),
        cancel_reason: opt_view(t.cancel_reason),
        children: Seq::new(
            t.children@.len(),
            |k: int|
                {
                    if 0 <= k < t.children@.len() {
                        node_of(t.children@[k])
                    } else {
                        arbitrary()
                    }
                },
        ),
    }
}

/// The graph node of a Todo (see `node_of`).
pub fn todo_graph_node(todo: &Todo) -> (r: TodoGraphNode)
    ensures
        graph_view(r) == node_of(*todo),
    decreases todo,
{
    let mut children: Vec<TodoGraphNode> = Vec::new();
    let mut i: usize = 0;
    while i < todo.children.len()
        invariant
            i <= todo.children.len(),
            children@.len() == i,
            forall|j: int| 0 <= j < i ==> graph_view(#[trigger] children@[j]) == node_of(todo.children@[j]),
        decreases todo.children.len() - i,
    {
        children.push(todo_graph_node(&todo.children[i]));
        i += 1;
    }
    let mut document = to_string("todos/");
    push_str(&mut document, todo.id.as_str());
    push_str(&mut document, ".md");
    let r = TodoGraphNode {
        id: todo.id.clone(),
        title: todo.title.clone(),
        document,
        status: todo.status,
        created_by: clone_opt(&todo.created_by),
        owner: clone_opt(&todo.owner),
        completed_by: clone_opt(&todo.completed_by),
        depends_on: clone_strings(&todo.depends_on),
        block_reason: clone_opt(&todo.block_reason),
        cancel_reason: clone_opt(&todo.cancel_reason),
        children,
    };
    assert(graph_view(r).children =~= node_of(*todo).children);
    r
}

/// The first Todo with the ID in a tree, the root before its children.
pub open spec fn find_in_tree(t: Todo, id: Seq<char>) -> Option<Todo>
    decreases t, 1int,
{
    if t.id@ == id {
        Some(t)
    } else {
        find_in_forest(t.children@, id)
    }
}

/// The first Todo with the ID in a forest, in document (pre-)order.
pub open spec fn find_in_forest(ts: Seq<Todo>, id: Seq<char>) -> Option<Todo>
    decreases ts, 0int,
{
    if ts.len() == 0 {
        None
    } else {
        match find_in_tree(ts[0], id) {
            Some(x) => Some(x),
            None => find_in_forest(ts.subrange(1, ts.len() as int), id),
        }
    }
}

fn tree_find<'a>(t: &'a Todo, id: &str) -> (r: Option<&'a Todo>)
    ensures
        r matches Some(x) ==> find_in_tree(*t, id@) == Some(*x),
        r is None ==> find_in_tree(*t, id@) is None,
    decreases t, 1int,
{
    if crate::text::str_eq(t.id.as_str(), id) {
        return Some(t);
    }
    forest_find(&t.children, id)
}

fn forest_find<'a>(ts: &'a Vec<Todo>, id: &str) -> (r: Option<&'a Todo>)
    ensures
        r matches Some(x) ==> find_in_forest(ts@, id@) == Some(*x),
        r is None ==> find_in_forest(ts@, id@) is None,
    decreases ts@, 0int,
{
    let mut i: usize = 0;
    assert(ts@.skip(0) =~= ts@);
    while i < ts.len()
        invariant
            i <= ts.len(),
            find_in_forest(ts@, id@) == find_in_forest(ts@.skip(i as int), id@),
        decreases ts.len() - i,
    {
        assert(ts@.skip(i as int)[0] == ts@[i as int]);
        assert(ts@.skip(i as int).subrange(1, ts@.skip(i as int).len() as int) =~= ts@.skip(i + 1));
        if let Some(x) = tree_find(&ts[i], id) {
            return Some(x);
        }
        i += 1;
    }
    None
}

/// The first Todo with the ID, in document (pre-)order.
pub fn find_todo<'a>(todos: &'a [Todo], id: &str) -> (r: Option<&'a Todo>)
    ensures
        r matches Some(x) ==> find_in_forest(todos@, id@) == Some(*x),
        r is None ==> find_in_forest(todos@, id@) is None,
{
    let mut i: usize = 0;
    assert(todos@.skip(0) =~= todos@);
    while i < todos.len()
        invariant
            i <= todos.len(),
            find_in_forest(todos@, id@) == find_in_forest(todos@.skip(i as int), id@),
        decreases todos.len() - i,
    {
        assert(todos@.skip(i as int)[0] == todos@[i as int]);
        assert(todos@.skip(i as int).subrange(1, todos@.skip(i as int).len() as int) =~= todos@.skip(i + 1));
        if let Some(x) = tree_find(&todos[i], id) {
            return Some(x);
        }
        i += 1;
    }
    None
}

/// Every Todo of a forest, each before its children.
pub fn flatten_todos(todos: &[Todo]) -> (r: Vec<&Todo>)
    ensures
        derefs(r@) == flat_forest(todos@),
{
    flatten(todos)
}

/// A completion criterion line: `- [x] <text>` or `- [ ] <text>`, the text trimmed.
pub open spec fn criterion_line(c: (Seq<char>, bool)) -> Seq<char> {
    "- ["@ + seq![
        if c.1 {
            'x'
        } else {
            ' '
        },
    ] + "] "@ + trim(c.0)
}

/// A handoff line: `- <item>`, the item trimmed.
pub open spec fn handoff_line(item: Seq<char>) -> Seq<char> {
    "- "@ + trim(item)
}

/// The title replaced, where one is given; it must hold text.
pub open spec fn title_stage(s: Seq<char>, title: Option<Seq<char>>) -> Result<Seq<char>, Seq<char>> {
    match title {
        None => Ok(s),
        Some(t) => if trim(t).len() == 0 {
            Err("title must not be empty"@)
        } else {
            replace_title_spec(s, t)
        },
    }
}

/// The Completion Criteria section replaced, where criteria are given; each must hold text.
pub open spec fn criteria_stage(s: Result<Seq<char>, Seq<char>>, criteria: Option<Seq<(Seq<char>, bool)>>) -> Result<Seq<char>, Seq<char>> {
    match s {
        Err(m) => Err(m),
        Ok(x) => match criteria {
            None => Ok(x),
            Some(cs) => if exists|i: int| 0 <= i < cs.len() && trim(#[trigger] cs[i].0).len() == 0 {
                Err("completion criterion must not be empty"@)
            } else {
                replace_section_spec(
                    x,
                    "Completion Criteria"@,
                    crate::text::join_with(cs.map_values(|c: (Seq<char>, bool)| criterion_line(c)), seq!['\n']),
                )
            },
        },
    }
}

/// The Handoff section replaced, where items are given.
pub open spec fn handoff_stage(s: Result<Seq<char>, Seq<char>>, handoff: Option<Seq<Seq<char>>>) -> Result<Seq<char>, Seq<char>> {
    match s {
        Err(m) => Err(m),
        Ok(x) => match handoff {
            None => Ok(x),
            Some(hs) => replace_section_spec(
                x,
                "Handoff"@,
                crate::text::join_with(hs.map_values(|h: Seq<char>| handoff_line(h)), seq!['\n']),
            ),
        },
    }
}

/// The Results section replaced, where a summary is given.
pub open spec fn results_stage(s: Result<Seq<char>, Seq<char>>, summary: Option<Seq<char>>) -> Result<Seq<char>, Seq<char>> {
    match s {
        Err(m) => Err(m),
        Ok(x) => match summary {
            None => Ok(x),
            Some(r) => replace_section_spec(x, "Results"@, r),
        },
    }
}

/// A Todo detail edited: the title replaced, then the Completion Criteria, Handoff and
/// Results sections, each where a value is given.
pub open spec fn detail_candidate_spec(
    s: Seq<char>,
    title: Option<Seq<char>>,
    criteria: Option<Seq<(Seq<char>, bool)>>,
    handoff: Option<Seq<Seq<char>>>,
    summary: Option<Seq<char>>,
) -> Result<Seq<char>, Seq<char>> {
    results_stage(handoff_stage(criteria_stage(title_stage(s, title), criteria), handoff), summary)
}

pub open spec fn opt_str(o: Option<&str>) -> Option<Seq<char>> {
    match o {
        Some(t) => Some(t@),
        None => None,
    }
}

/// Lines joined by newlines.
fn push_joined_lines(out: &mut String, lines: &Vec<String>)
    ensures
        final(out)@ == old(out)@ + crate::text::join_with(text_views(lines@), seq!['\n']),
{
    let ghost lv = text_views(lines@);
    let mut i: usize = 0;
    while i < lines.len()
        invariant
            i <= lines.len(),
            lv == text_views(lines@),
            out@ == old(out)@ + crate::text::join_with(lv.take(i as int), seq!['\n']),
        decreases lines.len() - i,
    {
        assert(lv.take(i + 1).drop_last() =~= lv.take(i as int));
        if i > 0 {
            push_char(out, '\n');
        } else {
            assert(lv.take(0) =~= Seq::<Seq<char>>::empty());
            assert(lv.take(1) =~= seq![lv[0]]);
        }
        push_str(out, lines[i].as_str());
        i += 1;
    }
    assert(lv.take(lines.len() as int) =~= lv);
}

/// The trimmed text of a string slice.
fn trimmed(t: &str) -> (r: String)
    ensures
        r@ == trim(t@),
{
    let cs = chars_of(t);
    let (p, q) = crate::text::trim_bounds(&cs, 0, cs.len());
    assert(cs@.subrange(0, cs@.len() as int) =~= cs@);
    string_of(&cs, p, q)
}

/// The criterion lines of the updates, or the error for an empty one.
fn criterion_lines(criteria: &Vec<CheckUpdate>) -> (r: Result<Vec<String>, String>)
    ensures
        match r {
            Ok(lines) => (forall|i: int| 0 <= i < criteria@.len() ==> trim(#[trigger] criteria@[i].text@).len() > 0)
                && text_views(lines@) == crate::blueprint::edit::updates_view(criteria@).map_values(
                |c: (Seq<char>, bool)| criterion_line(c),
            ),
            Err(e) => (exists|i: int| 0 <= i < criteria@.len() && trim(#[trigger] criteria@[i].text@).len() == 0)
                && e@ == "completion criterion must not be empty"@,
        },
{
    proof {
        reveal_strlit("completion criterion");
        reveal_strlit(" must not be empty");
        reveal_strlit("completion criterion must not be empty");
    }
    let ghost cv = crate::blueprint::edit::updates_view(criteria@);
    let mut lines: Vec<String> = Vec::new();
    let mut i: usize = 0;
    while i < criteria.len()
        invariant
            i <= criteria.len(),
            cv == crate::blueprint::edit::updates_view(criteria@),
            forall|j: int| 0 <= j < i ==> trim(#[trigger] criteria@[j].text@).len() > 0,
            text_views(lines@) == cv.take(i as int).map_values(|c: (Seq<char>, bool)| criterion_line(c)),
        decreases criteria.len() - i,
    {
        assert(cv[i as int] == (criteria@[i as int].text@, criteria@[i as int].completed));
        match require_text("completion criterion", criteria[i].text.as_str()) {
            Ok(()) => {},
            Err(e) => {
                proof {
                    reveal_strlit("completion criterion");
                    reveal_strlit(" must not be empty");
                    reveal_strlit("completion criterion must not be empty");
                    assert(e@ =~= "completion criterion must not be empty"@);
                }
                return Err(e);
            },
        }
        let mut line = to_string("- [");
        push_char(&mut line, if criteria[i].completed {
            'x'
        } else {
            ' '
        });
        push_str(&mut line, "] ");
        let t = trimmed(criteria[i].text.as_str());
        push_str(&mut line, t.as_str());
        assert(line@ =~= criterion_line(cv[i as int]));
        let ghost before = lines@;
        lines.push(line);
        assert(text_views(lines@) =~= text_views(before).push(criterion_line(cv[i as int])));
        assert(cv.take(i + 1).map_values(|c: (Seq<char>, bool)| criterion_line(c)) =~= cv.take(
            i as int,
        ).map_values(|c: (Seq<char>, bool)| criterion_line(c)).push(criterion_line(cv[i as int])));
        i += 1;
    }
    assert(cv.take(criteria.len() as int) =~= cv);
    Ok(lines)
}

/// The handoff lines of the items.
fn handoff_lines(items: &Vec<String>) -> (lines: Vec<String>)
    ensures
        text_views(lines@) == text_views(items@).map_values(|h: Seq<char>| handoff_line(h)),
{
    let ghost hv = text_views(items@);
    let mut lines: Vec<String> = Vec::new();
    let mut i: usize = 0;
    while i < items.len()
        invariant
            i <= items.len(),
            hv == text_views(items@),
            text_views(lines@) == hv.take(i as int).map_values(|h: Seq<char>| handoff_line(h)),
        decreases items.len() - i,
    {
        let mut line = to_string("- ");
        let t = trimmed(items[i].as_str());
        push_str(&mut line, t.as_str());
        let ghost before = lines@;
        lines.push(line);
        assert(text_views(lines@) =~= text_views(before).push(handoff_line(hv[i as int])));
        assert(hv.take(i + 1).map_values(|h: Seq<char>| handoff_line(h)) =~= hv.take(i as int).map_values(
            |h: Seq<char>| handoff_line(h),
        ).push(handoff_line(hv[i as int])));
        i += 1;
    }
    assert(hv.take(items.len() as int) =~= hv);
    lines
}

/// Edits a Todo detail document (see `detail_candidate_spec`).
pub fn todo_update_detail_candidate(
    source: &str,
    title: Option<&str>,
    completion_criteria: Option<&Vec<CheckUpdate>>,
    handoff: Option<&Vec<String>>,
    result_summary: Option<&str>,
) -> (r: Result<String, String>)
    ensures
        match detail_candidate_spec(
            source@,
            opt_str(title),
            match completion_criteria {
                Some(c) => Some(crate::blueprint::edit::updates_view(c@)),
                None => None,
            },
            match handoff {
                Some(h) => Some(text_views(h@)),
                None => None,
            },
            opt_str(result_summary),
        ) {
            Ok(t) => r matches Ok(x) && x@ == t,
            Err(m) => r matches Err(e) && e@ == m,
        },
{
    proof {
        reveal_strlit("title");
        reveal_strlit(" must not be empty");
        reveal_strlit("title must not be empty");
    }
    let ghost cview = match completion_criteria {
        Some(c) => Some(crate::blueprint::edit::updates_view(c@)),
        None => None,
    };
    let ghost hview = match handoff {
        Some(h) => Some(text_views(h@)),
        None => None,
    };
    let mut next = to_string(source);
    if let Some(t) = title {
        match require_text("title", t) {
            Ok(()) => {},
            Err(e) => {
                assert(e@ =~= "title must not be empty"@);
                return Err(e);
            },
        }
        next = match replace_title(next.as_str(), t) {
            Ok(x) => x,
            Err(e) => {
                return Err(e);
            },
        };
    }
    assert(title_stage(source@, opt_str(title)) == Ok::<Seq<char>, Seq<char>>(next@));
    if let Some(criteria) = completion_criteria {
        let lines = match criterion_lines(criteria) {
            Ok(l) => l,
            Err(e) => {
                proof {
                    let i = choose|i: int| 0 <= i < criteria@.len() && trim(#[trigger] criteria@[i].text@).len() == 0;
                    assert(crate::blueprint::edit::updates_view(criteria@)[i].0 == criteria@[i].text@);
                }
                return Err(e);
            },
        };
        proof {
            assert forall|i: int| 0 <= i < criteria@.len() implies trim(
                #[trigger] crate::blueprint::edit::updates_view(criteria@)[i].0,
            ).len() > 0 by {
                assert(crate::blueprint::edit::updates_view(criteria@)[i].0 == criteria@[i].text@);
            }
        }
        let mut body = String::new();
        push_joined_lines(&mut body, &lines);
        next = match replace_section(next.as_str(), "Completion Criteria", body.as_str()) {
            Ok(x) => x,
            Err(e) => {
                return Err(e);
            },
        };
    }
    assert(criteria_stage(title_stage(source@, opt_str(title)), cview) == Ok::<Seq<char>, Seq<char>>(next@));
    if let Some(items) = handoff {
        let lines = handoff_lines(items);
        let mut body = String::new();
        push_joined_lines(&mut body, &lines);
        next = match replace_section(next.as_str(), "Handoff", body.as_str()) {
            Ok(x) => x,
            Err(e) => {
                return Err(e);
            },
        };
    }
    assert(handoff_stage(criteria_stage(title_stage(source@, opt_str(title)), cview), hview) == Ok::<
        Seq<char>,
        Seq<char>,
    >(next@));
    if let Some(summary) = result_summary {
        next = match replace_section(next.as_str(), "Results", summary) {
            Ok(x) => x,
            Err(e) => {
                return Err(e);
            },
        };
    }
    Ok(next)
}

/// The document path a Blueprint ID names: the ID followed by `.md`.
pub open spec fn blueprint_path(id: Seq<char>) -> Seq<char> {
    id + ".md"@
}

pub proof fn lemma_blueprint_path(id: Seq<char>)
    ensures
        crate::blueprint::document::ends_with(blueprint_path(id), ".md"@),
{
    reveal_strlit(".md");
    let p = blueprint_path(id);
    assert(p.skip(p.len() - 3) =~= ".md"@);
}

pub(crate) fn path_of(id: &str) -> (r: String)
    ensures
        r@ == blueprint_path(id@),
{
    let mut r = to_string(id);
    push_str(&mut r, ".md");
    r
}

/// The first Todo of the tree with the ID, copied; or the refusal that names the ID.
pub fn todo_in_tree(todos: &Vec<Todo>, todo_id: &str) -> (r: Result<Todo, String>)
    ensures
        match find_in_forest(todos@, todo_id@) {
            Some(x) => r matches Ok(t) && tree_view(t) == tree_view(x),
            None => r matches Err(e) && e@ == "Todo was not found after write: "@ + todo_id@,
        },
{
    match find_todo(todos.as_slice(), todo_id) {
        Some(t) => {
            let c = clone_todo(t);
            proof {
                lemma_same_view(c, *t);
            }
            Ok(c)
        },
        None => {
            let mut m = to_string("Todo was not found after write: ");
            push_str(&mut m, todo_id);
            Err(m)
        },
    }
}

/// Reads a Todo back from a `blueprint/v2` source: what [`todo_in_tree`] finds in the Todo
/// tree of the parsed document.
pub fn todo_from_source(blueprint_id: &str, source: &str, todo_id: &str) -> (r: Result<Todo, String>)
    ensures
        r matches Ok(t) ==> exists|todos: Seq<Todo>|
            #![trigger find_in_forest(todos, todo_id@)]
            legacy_tree(blueprint_path(blueprint_id@), source@, tree_views(todos))
                && (find_in_forest(todos, todo_id@) matches Some(x) && tree_view(t) == tree_view(x)),
        !markdown_accepts(source@, false, usize::MAX) ==> r is Err,
        markdown_accepts(source@, false, usize::MAX) ==> (exists|m: Seq<char>|
            #![trigger legacy_parsed(blueprint_path(blueprint_id@), source@, Err::<Seq<TodoTreeView>, Seq<char>>(m))]
            legacy_parsed(blueprint_path(blueprint_id@), source@, Err::<Seq<TodoTreeView>, Seq<char>>(m))
                && (r matches Err(e) && e@ == m)) || (exists|todos: Seq<Todo>|
            #![trigger legacy_parsed(blueprint_path(blueprint_id@), source@, Ok::<Seq<TodoTreeView>, Seq<char>>(tree_views(todos)))]
            legacy_parsed(blueprint_path(blueprint_id@), source@, Ok::<Seq<TodoTreeView>, Seq<char>>(tree_views(todos)))
                && match find_in_forest(todos, todo_id@) {
                Some(x) => r matches Ok(t) && tree_view(t) == tree_view(x),
                None => r matches Err(e) && e@ == "Todo was not found after write: "@ + todo_id@,
            }),
{
    let path = path_of(blueprint_id);
    proof {
        lemma_blueprint_path(blueprint_id@);
    }
    let parsed = match ParsedBlueprintSource::parse(path.as_str(), source) {
        Ok(p) => p,
        Err(e) => {
            proof {
                if markdown_accepts(source@, false, usize::MAX) {
                    assert(legacy_parsed(blueprint_path(blueprint_id@), source@, Err::<Seq<TodoTreeView>, Seq<char>>(e@)));
                }
            }
            return Err(e);
        },
    };
    let r = todo_in_tree(&parsed.todos, todo_id);
    proof {
        if markdown_accepts(source@, false, usize::MAX) {
            assert(legacy_parsed(
                blueprint_path(blueprint_id@),
                source@,
                Ok::<Seq<TodoTreeView>, Seq<char>>(tree_views(parsed.todos@)),
            ));
        }
        if r is Ok {
            assert(find_in_forest(parsed.todos@, todo_id@) matches Some(x) && tree_view(r->Ok_0) == tree_view(x));
        }
    }
    r
}

/// What the status query reports of a Blueprint: its state, the readiness of its Todos, the
/// blocked, unassigned and open Todos, its open Definition of Done items, and its Todo tree.
pub struct BlueprintStatus {
    pub state: String,
    pub ready_todos: Vec<String>,
    pub not_ready_todos: Vec<NotReadyTodo>,
    pub blocked_todos: Vec<String>,
    pub unassigned_todos: Vec<String>,
    pub open_todos: Vec<String>,
    pub open_definition_of_done: Vec<String>,
    pub todos: Vec<Todo>,
}

/// The IDs of the Todos that satisfy `p`, in order.
pub open spec fn ids_where(f: Seq<Todo>, p: spec_fn(Todo) -> bool) -> Seq<Seq<char>>
    decreases f.len(),
{
    if f.len() == 0 {
        seq![]
    } else if p(f.last()) {
        ids_where(f.drop_last(), p).push(f.last().id@)
    } else {
        ids_where(f.drop_last(), p)
    }
}

pub open spec fn is_blocked(t: Todo) -> bool {
    t.status == TodoStatus::Blocked
}

/// A pending Todo without an owner (or with an empty one).
pub open spec fn is_unassigned(t: Todo) -> bool {
    t.status == TodoStatus::Pending && (t.owner is None || t.owner->0@.len() == 0)
}

/// A Todo that is neither completed nor cancelled.
pub open spec fn is_open(t: Todo) -> bool {
    t.status != TodoStatus::Completed && t.status != TodoStatus::Cancelled
}

/// The blocked, unassigned and open Todos of a flattened forest.
fn status_lists(flat: &Vec<&Todo>) -> (r: (Vec<String>, Vec<String>, Vec<String>))
    ensures
        text_views(r.0@) == ids_where(derefs(flat@), |t: Todo| is_blocked(t)),
        text_views(r.1@) == ids_where(derefs(flat@), |t: Todo| is_unassigned(t)),
        text_views(r.2@) == ids_where(derefs(flat@), |t: Todo| is_open(t)),
{
    let ghost f = derefs(flat@);
    let mut blocked: Vec<String> = Vec::new();
    let mut unassigned: Vec<String> = Vec::new();
    let mut open: Vec<String> = Vec::new();
    let mut i: usize = 0;
    while i < flat.len()
        invariant
            i <= flat.len(),
            f == derefs(flat@),
            text_views(blocked@) == ids_where(f.take(i as int), |t: Todo| is_blocked(t)),
            text_views(unassigned@) == ids_where(f.take(i as int), |t: Todo| is_unassigned(t)),
            text_views(open@) == ids_where(f.take(i as int), |t: Todo| is_open(t)),
        decreases flat.len() - i,
    {
        let t = flat[i];
        proof {
            assert(f.take(i + 1).drop_last() =~= f.take(i as int));
            assert(f.take(i + 1).last() == *t);
        }
        let is_b = match t.status {
            TodoStatus::Blocked => true,
            _ => false,
        };
        let pending = match t.status {
            TodoStatus::Pending => true,
            _ => false,
        };
        let ownerless = match &t.owner {
            Some(o) => o.as_str().is_empty(),
            None => true,
        };
        let is_o = match t.status {
            TodoStatus::Completed | TodoStatus::Cancelled => false,
            _ => true,
        };
        if is_b {
            let ghost before = blocked@;
            blocked.push(t.id.clone());
            assert(text_views(blocked@) =~= text_views(before).push(t.id@));
        }
        if pending && ownerless {
            let ghost before = unassigned@;
            unassigned.push(t.id.clone());
            assert(text_views(unassigned@) =~= text_views(before).push(t.id@));
        }
        if is_o {
            let ghost before = open@;
            open.push(t.id.clone());
            assert(text_views(open@) =~= text_views(before).push(t.id@));
        }
        i += 1;
    }
    assert(f.take(flat.len() as int) =~= f);
    (blocked, unassigned, open)
}

/// What the status of a Blueprint with the given state, source and Todo tree is: the graph
/// checks' outcome, and on success the state's name, the readiness, the blocked, unassigned
/// and open Todos of the flattened tree, the open Definition of Done items, and the tree.
pub open spec fn status_spec(state: BlueprintState, source: Seq<char>, todos: Seq<Todo>, r: Result<BlueprintStatus, String>) -> bool {
    &&& graph_outcome(flat_forest(todos), r)
    &&& r matches Ok(st) ==> {
        let f = flat_forest(todos);
        &&& st.state@ == state_name(state)
        &&& text_views(st.ready_todos@) == ready_ids(f, f)
        &&& st.not_ready_todos@.map_values(|n: NotReadyTodo| n@) == waiting(f, f)
        &&& text_views(st.blocked_todos@) == ids_where(f, |t: Todo| is_blocked(t))
        &&& text_views(st.unassigned_todos@) == ids_where(f, |t: Todo| is_unassigned(t))
        &&& text_views(st.open_todos@) == ids_where(f, |t: Todo| is_open(t))
        &&& text_views(st.open_definition_of_done@) == open_dod_spec(lines_spec(source))
        &&& st.todos@ == todos
    }
}

/// The status of a Blueprint from its state, its source and its Todo tree; a tree that fails
/// validation yields the validation error.
pub fn status_from_tree(state: BlueprintState, source: &str, todos: Vec<Todo>) -> (r: Result<BlueprintStatus, String>)
    ensures
        status_spec(state, source@, todos@, r),
        graph_outcome(flat_forest(todos@), r),
        r matches Ok(st) ==> {
            let f = flat_forest(todos@);
            &&& st.state@ == state_name(state)
            &&& text_views(st.ready_todos@) == ready_ids(f, f)
            &&& st.not_ready_todos@.map_values(|n: NotReadyTodo| n@) == waiting(f, f)
            &&& text_views(st.blocked_todos@) == ids_where(f, |t: Todo| is_blocked(t))
            &&& text_views(st.unassigned_todos@) == ids_where(f, |t: Todo| is_unassigned(t))
            &&& text_views(st.open_todos@) == ids_where(f, |t: Todo| is_open(t))
            &&& text_views(st.open_definition_of_done@) == open_dod_spec(lines_spec(source@))
            &&& st.todos@ == todos@
        },
{
    let readiness = derive_readiness(todos.as_slice())?;
    let (blocked, unassigned, open) = {
        let flattened = flatten(todos.as_slice());
        status_lists(&flattened)
    };
    let name = to_string(blueprint_state_name(state));
    let r = BlueprintStatus {
        state: name,
        ready_todos: readiness.ready,
        not_ready_todos: readiness.not_ready,
        blocked_todos: blocked,
        unassigned_todos: unassigned,
        open_todos: open,
        open_definition_of_done: open_dod_ids(source),
        todos,
    };
    assert(text_views(r.ready_todos@) =~= readiness@.0);
    Ok(r)
}

/// The status of a stored `blueprint/v2` Blueprint: what [`status_from_tree`] reports of the
/// Todo tree of its parsed source.
pub fn blueprint_status_of(id: &str, state: BlueprintState, source: &str) -> (r: Result<BlueprintStatus, String>)
    ensures
        r matches Ok(st) ==> legacy_tree(blueprint_path(id@), source@, tree_views(st.todos@)) && ({
            let f = flat_forest(st.todos@);
            &&& st.state@ == state_name(state)
            &&& text_views(st.ready_todos@) == ready_ids(f, f)
            &&& st.not_ready_todos@.map_values(|n: NotReadyTodo| n@) == waiting(f, f)
            &&& text_views(st.blocked_todos@) == ids_where(f, |t: Todo| is_blocked(t))
            &&& text_views(st.unassigned_todos@) == ids_where(f, |t: Todo| is_unassigned(t))
            &&& text_views(st.open_todos@) == ids_where(f, |t: Todo| is_open(t))
            &&& text_views(st.open_definition_of_done@) == open_dod_spec(lines_spec(source@))
        }),
        !markdown_accepts(source@, false, usize::MAX) ==> r is Err,
        markdown_accepts(source@, false, usize::MAX) ==> (exists|m: Seq<char>|
            #![trigger legacy_parsed(blueprint_path(id@), source@, Err::<Seq<TodoTreeView>, Seq<char>>(m))]
            legacy_parsed(blueprint_path(id@), source@, Err::<Seq<TodoTreeView>, Seq<char>>(m)) && (r matches Err(
                e,
            ) && e@ == m)) || (exists|todos: Seq<Todo>|
            #![trigger legacy_parsed(blueprint_path(id@), source@, Ok::<Seq<TodoTreeView>, Seq<char>>(tree_views(todos)))]
            legacy_parsed(blueprint_path(id@), source@, Ok::<Seq<TodoTreeView>, Seq<char>>(tree_views(todos)))
                && status_spec(state, source@, todos, r)),
{
    let path = path_of(id);
    proof {
        lemma_blueprint_path(id@);
    }
    let parsed = match ParsedBlueprintSource::parse(path.as_str(), source) {
        Ok(p) => p,
        Err(e) => {
            proof {
                if markdown_accepts(source@, false, usize::MAX) {
                    assert(legacy_parsed(blueprint_path(id@), source@, Err::<Seq<TodoTreeView>, Seq<char>>(e@)));
                }
            }
            return Err(e);
        },
    };
    let ghost todos = parsed.todos@;
    let r = status_from_tree(state, source, parsed.todos);
    proof {
        if markdown_accepts(source@, false, usize::MAX) {
            assert(legacy_parsed(blueprint_path(id@), source@, Ok::<Seq<TodoTreeView>, Seq<char>>(tree_views(todos))));
        }
    }
    r
}

/// A graph edit of a Todo: its task title replaced (when given, and not blank), then its
/// `Depends On` field set to the IDs joined by `, ` (when given).
pub open spec fn graph_edit_spec(
    source: Seq<char>,
    todo_id: Seq<char>,
    title: Option<Seq<char>>,
    depends_on: Option<Seq<Seq<char>>>,
) -> Result<Seq<char>, Seq<char>> {
    let titled = match title {
        None => Ok(source),
        Some(t) => if trim(t).len() == 0 {
            Err("title must not be empty"@)
        } else {
            task_title_spec(source, todo_id, t)
        },
    };
    match titled {
        Err(m) => Err(m),
        Ok(s) => match depends_on {
            None => Ok(s),
            Some(d) => todo_fields_spec(s, todo_id, "Depends On"@, seq![join_with(d, ", "@)]),
        },
    }
}

/// Applies a graph edit of a Todo (see `graph_edit_spec`).
pub fn graph_candidate_edit(
    source: &str,
    todo_id: &str,
    title: Option<&str>,
    depends_on: Option<&Vec<String>>,
) -> (r: Result<String, String>)
    ensures
        match graph_edit_spec(
            source@,
            todo_id@,
            match title {
                Some(t) => Some(t@),
                None => None,
            },
            match depends_on {
                Some(d) => Some(text_views(d@)),
                None => None,
            },
        ) {
            Ok(t) => r matches Ok(x) && x@ == t,
            Err(m) => r matches Err(e) && e@ == m,
        },
{
    proof {
        reveal_strlit("title");
        reveal_strlit(" must not be empty");
        reveal_strlit("title must not be empty");
        assert("title"@ + " must not be empty"@ =~= "title must not be empty"@);
    }
    let mut next = to_string(source);
    if let Some(t) = title {
        match require_text("title", t) {
            Ok(()) => {},
            Err(e) => {
                return Err(e);
            },
        }
        next = replace_task_title(next.as_str(), todo_id, t)?;
    }
    if let Some(d) = depends_on {
        let joined = join_titles(d);
        assert(views(d@) =~= text_views(d@));
        next = replace_or_insert_todo_field(next.as_str(), todo_id, "Depends On", joined.as_str())?;
    }
    Ok(next)
}

/// A Todo graph edit on a `blueprint/v2` source that keeps the graph valid: the edited
/// source (see `graph_edit_spec`), accepted only when its Todo tree parses and passes the
/// graph checks.
pub fn todo_update_graph_candidate(
    blueprint_id: &str,
    source: &str,
    todo_id: &str,
    title: Option<&str>,
    depends_on: Option<&Vec<String>>,
) -> (r: Result<String, String>)
    ensures
        graph_edit_spec(
            source@,
            todo_id@,
            match title {
                Some(t) => Some(t@),
                None => None,
            },
            match depends_on {
                Some(d) => Some(text_views(d@)),
                None => None,
            },
        ) matches Err(m) ==> r matches Err(e) && e@ == m,
        r matches Ok(x) ==> graph_edit_spec(
            source@,
            todo_id@,
            match title {
                Some(t) => Some(t@),
                None => None,
            },
            match depends_on {
                Some(d) => Some(text_views(d@)),
                None => None,
            },
        ) == Ok::<Seq<char>, Seq<char>>(x@) && exists|todos: Seq<Todo>|
            #![trigger flat_forest(todos)]
            legacy_tree(blueprint_path(blueprint_id@), x@, tree_views(todos)) && graph_outcome(
                flat_forest(todos),
                Ok::<(), String>(()),
            ),
        graph_edit_spec(
            source@,
            todo_id@,
            match title {
                Some(t) => Some(t@),
                None => None,
            },
            match depends_on {
                Some(d) => Some(text_views(d@)),
                None => None,
            },
        ) matches Ok(x) ==> if markdown_accepts(x, false, usize::MAX) {
            exists|o: Result<Seq<Todo>, Seq<char>>|
                #![trigger crate::blueprint::create::tree_outcome(o)]
                legacy_parsed(blueprint_path(blueprint_id@), x, crate::blueprint::create::tree_outcome(o))
                    && crate::blueprint::create::candidate_agrees(x, o, r)
        } else {
            r is Err
        },
{
    let next = graph_candidate_edit(source, todo_id, title, depends_on)?;
    let path = path_of(blueprint_id);
    proof {
        lemma_blueprint_path(blueprint_id@);
    }
    let parsed = match ParsedBlueprintSource::parse(path.as_str(), next.as_str()) {
        Ok(p) => p,
        Err(e) => {
            proof {
                if markdown_accepts(next@, false, usize::MAX) {
                    let o = Err::<Seq<Todo>, Seq<char>>(e@);
                    assert(crate::blueprint::create::tree_outcome(o) == crate::blueprint::legacy::legacy_outcome(
                        Err::<ParsedBlueprintSource, String>(e),
                    ));
                    assert(crate::blueprint::create::candidate_agrees(next@, o, Err::<String, String>(e)));
                }
            }
            return Err(e);
        },
    };
    let ghost o = Ok::<Seq<Todo>, Seq<char>>(parsed.todos@);
    assert(crate::blueprint::create::tree_outcome(o) == crate::blueprint::legacy::legacy_outcome(
        Ok::<ParsedBlueprintSource, String>(parsed),
    ));
    let readiness = derive_readiness(parsed.todos.as_slice());
    match readiness {
        Ok(_) => {
            proof {
                assert(graph_outcome(flat_forest(parsed.todos@), Ok::<(), String>(())));
                assert(crate::blueprint::create::candidate_agrees(next@, o, Ok::<String, String>(next)));
            }
            Ok(next)
        },
        Err(e) => {
            proof {
                assert(crate::blueprint::create::candidate_agrees(next@, o, Err::<String, String>(e)));
            }
            Err(e)
        },
    }
}

/// The digits of Crockford's Base32, which ULIDs are written in.
pub open spec fn crockford_digit(c: char) -> bool {
    ('0' <= c <= '9') || ('A' <= c <= 'Z' && c != 'I' && c != 'L' && c != 'O' && c != 'U')
}

/// `ulid::Ulid::generate()` written out: a fresh ULID from the clock and a random source. Nothing
/// is claimed of which one; the crate writes every ULID as 26 Crockford Base32 digits.
#[verifier::external_body]
fn new_ulid() -> (r: String)
    ensures
        r@.len() == 26,
        forall|i: int| 0 <= i < 26 ==> crockford_digit(#[trigger] r@[i]),
{
    ulid::Ulid::generate().to_string()
}

/// The revision entry for a change: a level-three heading with the summary and the block ID
/// `revision-` + the ULID, then who changed it and why.
pub open spec fn revision_block(summary: Seq<char>, changed_by: Seq<char>, reason: Seq<char>, ulid: Seq<char>) -> Seq<char> {
    "### "@ + summary + " ^revision-"@ + ulid + "\n\n- Changed By: "@ + trim(changed_by) + "\n- Reason: "@
        + trim(reason) + "\n"@
}

/// The source with a revision entry added to its Revision History, after a blank line.
pub open spec fn append_revision_spec(
    source: Seq<char>,
    changed_by: Seq<char>,
    reason: Seq<char>,
    summary: Seq<char>,
    ulid: Seq<char>,
) -> Result<Seq<char>, Seq<char>> {
    let history = section_body_spec(source, "Revision History"@);
    replace_section_spec(
        source,
        "Revision History"@,
        history + "\n\n"@ + revision_block(summary, changed_by, reason, ulid),
    )
}

/// Adds a revision entry with the given ULID (see `append_revision_spec`).
pub fn append_revision_with(
    source: &str,
    changed_by: &str,
    reason: &str,
    summary: &str,
    ulid: &str,
) -> (r: Result<String, String>)
    ensures
        match append_revision_spec(source@, changed_by@, reason@, summary@, ulid@) {
            Ok(t) => r matches Ok(x) && x@ == t,
            Err(m) => r matches Err(e) && e@ == m,
        },
{
    let mut revision = to_string("### ");
    push_str(&mut revision, summary);
    push_str(&mut revision, " ^revision-");
    push_str(&mut revision, ulid);
    push_str(&mut revision, "\n\n- Changed By: ");
    let by = trimmed(changed_by);
    push_str(&mut revision, by.as_str());
    push_str(&mut revision, "\n- Reason: ");
    let why = trimmed(reason);
    push_str(&mut revision, why.as_str());
    push_str(&mut revision, "\n");
    let mut content = section_body(source, "Revision History");
    push_str(&mut content, "\n\n");
    push_str(&mut content, revision.as_str());
    replace_section(source, "Revision History", content.as_str())
}

/// Adds a revision entry under a fresh ULID (see `append_revision_spec`).
pub fn append_revision(source: &str, changed_by: &str, reason: &str, summary: &str) -> (r: Result<String, String>)
    ensures
        exists|ulid: Seq<char>|
            #![trigger append_revision_spec(source@, changed_by@, reason@, summary@, ulid)]
            ulid.len() == 26 && (forall|i: int| 0 <= i < 26 ==> crockford_digit(#[trigger] ulid[i])) && match append_revision_spec(source@, changed_by@, reason@, summary@, ulid) {
                Ok(t) => r matches Ok(x) && x@ == t,
                Err(m) => r matches Err(e) && e@ == m,
            },
{
    let ulid = new_ulid();
    let r = append_revision_with(source, changed_by, reason, summary, ulid.as_str());
    assert(ulid@.len() == 26 && (forall|i: int| 0 <= i < 26 ==> crockford_digit(#[trigger] ulid@[i])) && match append_revision_spec(source@, changed_by@, reason@, summary@, ulid@) {
        Ok(t) => r matches Ok(x) && x@ == t,
        Err(m) => r matches Err(e) && e@ == m,
    });
    r
}

/// No text occurs twice.
pub open spec fn distinct_texts(s: Seq<Seq<char>>) -> bool {
    forall|i: int, j: int| 0 <= i < j < s.len() ==> s[i] != s[j]
}

/// The Evidence IDs that the documents read so far define, in order.
pub open spec fn defined_ids(lists: Seq<Result<Seq<Seq<char>>, Seq<char>>>) -> Seq<Seq<char>>
    decreases lists.len(),
{
    if lists.len() == 0 {
        seq![]
    } else {
        defined_ids(lists.drop_last()) + match lists.last() {
            Ok(ids) => ids,
            Err(_) => Seq::<Seq<char>>::empty(),
        }
    }
}

/// The first problem met reading the documents in order: a document that could not be read,
/// or an Evidence ID defined a second time.
pub open spec fn evidence_problem(lists: Seq<Result<Seq<Seq<char>>, Seq<char>>>) -> Option<Seq<char>>
    decreases lists.len(),
{
    if lists.len() == 0 {
        None
    } else {
        match evidence_problem(lists.drop_last()) {
            Some(m) => Some(m),
            None => match lists.last() {
                Err(e) => Some(e),
                Ok(ids) => if distinct_texts(defined_ids(lists.drop_last()) + ids) {
                    None
                } else {
                    Some("duplicate Evidence ID"@)
                },
            },
        }
    }
}

/// The first reference that names no defined ID.
pub open spec fn first_dangling(refs: Seq<Seq<char>>, defined: Seq<Seq<char>>) -> Option<Seq<char>>
    decreases refs.len(),
{
    if refs.len() == 0 {
        None
    } else if !defined.contains(refs[0]) {
        Some(refs[0])
    } else {
        first_dangling(refs.drop_first(), defined)
    }
}

/// What closing a Blueprint as complete requires of its Evidence: every document read, no ID
/// defined twice across them, and every reference naming a defined ID.
pub open spec fn closure_spec(lists: Seq<Result<Seq<Seq<char>>, Seq<char>>>, refs: Seq<Seq<char>>) -> Result<(), Seq<char>> {
    match evidence_problem(lists) {
        Some(m) => Err(m),
        None => match first_dangling(refs, defined_ids(lists)) {
            Some(r) => Err("dangling Evidence reference: "@ + r),
            None => Ok(()),
        },
    }
}

pub open spec fn list_views(lists: Seq<Result<Vec<String>, String>>) -> Seq<Result<Seq<Seq<char>>, Seq<char>>> {
    lists.map_values(
        |l: Result<Vec<String>, String>|
            match l {
                Ok(ids) => Ok(text_views(ids@)),
                Err(e) => Err(e@),
            },
    )
}

proof fn lemma_problem_stays(lists: Seq<Result<Seq<Seq<char>>, Seq<char>>>, n: int)
    requires
        0 <= n <= lists.len(),
        evidence_problem(lists.take(n)) is Some,
    ensures
        evidence_problem(lists) == evidence_problem(lists.take(n)),
    decreases lists.len() - n,
{
    if n < lists.len() {
        assert(lists.take(n + 1).drop_last() =~= lists.take(n));
        lemma_problem_stays(lists, n + 1);
    } else {
        assert(lists.take(n) =~= lists);
    }
}

fn contains_text(v: &Vec<String>, t: &String) -> (b: bool)
    ensures
        b == text_views(v@).contains(t@),
{
    let mut i: usize = 0;
    while i < v.len()
        invariant
            i <= v.len(),
            forall|q: int| 0 <= q < i ==> text_views(v@)[q] != t@,
        decreases v.len() - i,
    {
        if v[i] == *t {
            assert(text_views(v@)[i as int] == t@);
            return true;
        }
        i += 1;
    }
    false
}

/// Checks the Evidence of the documents of an aggregate, in order, against the references of
/// the Results (see `closure_spec`).
pub fn evidence_closure(lists: &Vec<Result<Vec<String>, String>>, references: &Vec<String>) -> (r: Result<(), String>)
    ensures
        match closure_spec(list_views(lists@), text_views(references@)) {
            Ok(()) => r is Ok,
            Err(m) => r matches Err(e) && e@ == m,
        },
{
    let ghost lv = list_views(lists@);
    let mut seen: Vec<String> = Vec::new();
    let mut k: usize = 0;
    assert(lv.take(0) =~= Seq::<Result<Seq<Seq<char>>, Seq<char>>>::empty());
    assert(text_views(seen@) =~= Seq::<Seq<char>>::empty());
    while k < lists.len()
        invariant
            k <= lists.len(),
            lv == list_views(lists@),
            text_views(seen@) == defined_ids(lv.take(k as int)),
            evidence_problem(lv.take(k as int)) is None,
            distinct_texts(text_views(seen@)),
        decreases lists.len() - k,
    {
        proof {
            assert(lv.take(k + 1).drop_last() =~= lv.take(k as int));
            assert(lv.take(k + 1).last() == lv[k as int]);
        }
        match &lists[k] {
            Err(e) => {
                proof {
                    lemma_problem_stays(lv, k + 1);
                }
                return Err(e.clone());
            },
            Ok(ids) => {
                let ghost before = text_views(seen@);
                let mut j: usize = 0;
                while j < ids.len()
                    invariant
                        j <= ids.len(),
                        k < lists.len(),
                        lv == list_views(lists@),
                        lists@[k as int] == Ok::<Vec<String>, String>(*ids),
                        lv[k as int] == Ok::<Seq<Seq<char>>, Seq<char>>(text_views(ids@)),
                        before == defined_ids(lv.take(k as int)),
                        lv.take(k + 1).drop_last() == lv.take(k as int),
                        lv.take(k + 1).last() == lv[k as int],
                        evidence_problem(lv.take(k as int)) is None,
                        text_views(seen@) == before + text_views(ids@).take(j as int),
                        distinct_texts(text_views(seen@)),
                    decreases ids.len() - j,
                {
                    if contains_text(&seen, &ids[j]) {
                        proof {
                            let full = before + text_views(ids@);
                            let w = text_views(seen@);
                            let q = choose|q: int| 0 <= q < w.len() && w[q] == ids@[j as int]@;
                            assert(full[q] == w[q]);
                            assert(full[before.len() + j] == ids@[j as int]@);
                            assert(!distinct_texts(full));
                            assert(evidence_problem(lv.take(k + 1)) == Some("duplicate Evidence ID"@));
                            lemma_problem_stays(lv, k + 1);
                        }
                        return Err(to_string("duplicate Evidence ID"));
                    }
                    let ghost prev = text_views(seen@);
                    seen.push(ids[j].clone());
                    proof {
                        assert(text_views(seen@) =~= prev.push(ids@[j as int]@));
                        assert(text_views(ids@).take(j + 1) =~= text_views(ids@).take(j as int).push(ids@[j as int]@));
                        assert forall|a: int, b: int| 0 <= a < b < text_views(seen@).len() implies text_views(seen@)[a]
                            != text_views(seen@)[b] by {
                            if b == prev.len() {
                                assert(!prev.contains(ids@[j as int]@));
                                assert(text_views(seen@)[a] == prev[a]);
                            }
                        }
                    }
                    j += 1;
                }
                assert(text_views(ids@).take(ids.len() as int) =~= text_views(ids@));
            },
        }
        k += 1;
    }
    assert(lv.take(lists.len() as int) =~= lv);
    let ghost defined = defined_ids(lv);
    let mut i: usize = 0;
    let ghost rv = text_views(references@);
    assert(rv.skip(0) =~= rv);
    while i < references.len()
        invariant
            i <= references.len(),
            rv == text_views(references@),
            lv == list_views(lists@),
            evidence_problem(lv) is None,
            defined == defined_ids(lv),
            text_views(seen@) == defined,
            first_dangling(rv, defined) == first_dangling(rv.skip(i as int), defined),
        decreases references.len() - i,
    {
        assert(rv.skip(i as int)[0] == references@[i as int]@);
        assert(rv.skip(i as int).drop_first() =~= rv.skip(i + 1));
        if !contains_text(&seen, &references[i]) {
            let mut m = to_string("dangling Evidence reference: ");
            push_str(&mut m, references[i].as_str());
            return Err(m);
        }
        i += 1;
    }
    Ok(())
}

fn evidence_ids(items: &Vec<EvidenceItem>) -> (r: Vec<String>)
    ensures
        r.len() == items.len(),
{
    let mut r: Vec<String> = Vec::new();
    let mut i: usize = 0;
    while i < items.len()
        invariant
            i <= items.len(),
            r.len() == i,
        decreases items.len() - i,
    {
        r.push(items[i].id.clone());
        i += 1;
    }
    r
}

/// The requirement that a complete close of a Blueprint puts on its Results.
pub open spec fn close_results_error() -> Seq<char> {
    "complete Blueprint close requires Results with a valid Evidence reference"@
}

/// Checks the Evidence of a Blueprint that is closed as complete: its Results must reference
/// Evidence through well-formed links, and (see [`evidence_closure`]) the Evidence of the
/// Blueprint and then of each of its Todo details, read in order, must define each ID once and
/// define every referenced ID. `todo_documents` holds each Todo detail's path and source, or
/// the error met reading it (or listing them).
pub fn validate_complete_close_evidence(
    source: &str,
    todo_documents: &Result<Vec<Result<(String, String), String>>, String>,
) -> (r: Result<(), String>)
    ensures
        ({
            let results = section_body_spec(source@, "Results"@);
            match evidence_references_spec(results) {
                Err(m) => r matches Err(e) && e@ == m,
                Ok(refs) => if results.len() == 0 || refs.len() == 0 {
                    r matches Err(e) && e@ == close_results_error()
                } else {
                    r is Ok ==> exists|lists: Seq<Result<Seq<Seq<char>>, Seq<char>>>|
                        #![trigger closure_spec(lists, refs)]
                        lists.len() >= 1 && closure_spec(lists, refs) == Ok::<(), Seq<char>>(())
                },
            }
        }),
{
    let results = section_body(source, "Results");
    let references = match evidence_references(results.as_str()) {
        Ok(refs) => refs,
        Err(e) => {
            return Err(e);
        },
    };
    if results.as_str().is_empty() || references.len() == 0 {
        return Err(to_string("complete Blueprint close requires Results with a valid Evidence reference"));
    }
    let mut lists: Vec<Result<Vec<String>, String>> = Vec::new();
    match BlueprintSource::parse("blueprint.md", source) {
        Ok(b) => lists.push(Ok(evidence_ids(&b.evidence))),
        Err(e) => lists.push(Err(e)),
    }
    match todo_documents {
        Err(e) => lists.push(Err(e.clone())),
        Ok(docs) => {
            let mut i: usize = 0;
            while i < docs.len()
                invariant
                    i <= docs.len(),
                    lists.len() >= 1,
                decreases docs.len() - i,
            {
                match &docs[i] {
                    Err(e) => lists.push(Err(e.clone())),
                    Ok((path, text)) => match TodoDetail::parse(path.as_str(), text.as_str()) {
                        Ok(d) => lists.push(Ok(evidence_ids(&d.evidence))),
                        Err(e) => lists.push(Err(e)),
                    },
                }
                i += 1;
            }
        },
    }
    let r = evidence_closure(&lists, &references);
    proof {
        reveal_strlit("complete Blueprint close requires Results with a valid Evidence reference");
        if r is Ok {
            assert(list_views(lists@).len() >= 1 && closure_spec(list_views(lists@), text_views(references@))
                == Ok::<(), Seq<char>>(()));
        }
    }
    r
}

} // verus!
