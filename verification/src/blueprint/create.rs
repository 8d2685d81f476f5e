//! A new Todo in a Blueprint's graph: its task block, where the block goes (under its parent's
//! `Children:` label, or at the start of the Todos section), and the checks the new graph must
//! pass.
use vstd::prelude::*;

use crate::blueprint::edit::{
    boundary_index, children_insertion_spec, children_label_offset, children_label_position, children_label_spec,
    ensure_children_label,
    index_at_byte, section_bounds_spec, section_span_of, todo_children_insertion,
};
use crate::blueprint::document::{join_titles, views};
use crate::blueprint::legacy::{ParsedBlueprintSource, legacy_parsed, legacy_tree, tree_views};
use crate::blueprint::model::Todo;
use crate::blueprint::service::{
    blueprint_path, find_in_forest, find_todo, lemma_blueprint_path, path_of, render_todo, render_todo_spec,
    text_views,
};
use crate::blueprint::edit::require_text;
use crate::blueprint::todo::detail_parsed;
use crate::blueprint::model::TodoDetail;
use crate::blueprint::validate::{derive_readiness, flat_forest, graph_outcome};
use crate::markdown::markdown_accepts;
use crate::text::{
    byte_len, chars_of, is_boundary, join_with, line_bounds, lines_spec, push_range,
    push_str, to_string, trim, trim_bounds,
};

verus! {

/// The task block of a new Todo: its task line linking its detail document and carrying its ID
/// as block ID, its creator, its owner when one is given that is not blank, and its
/// dependencies when it has some.
pub open spec fn new_task_block(
    todo_id: Seq<char>,
    title: Seq<char>,
    created_by: Seq<char>,
    owner: Option<Seq<char>>,
    depends_on: Seq<Seq<char>>,
) -> Seq<char> {
    let base = "- [ ] ["@ + trim(title) + "](todos/"@ + todo_id + ".md) ^"@ + todo_id + "\n  - Created By: "@
        + trim(created_by) + "\n"@;
    let owned = match owner {
        Some(o) => if trim(o).len() > 0 {
            base + "  - Owner: "@ + trim(o) + "\n"@
        } else {
            base
        },
        None => base,
    };
    if depends_on.len() > 0 {
        owned + "  - Depends On: "@ + join_with(depends_on, ", "@) + "\n"@
    } else {
        owned
    }
}

/// The lines, each after `indent` and ended by a newline.
pub open spec fn indent_lines(ls: Seq<Seq<char>>, indent: Seq<char>) -> Seq<char>
    decreases ls.len(),
{
    if ls.len() == 0 {
        Seq::empty()
    } else {
        indent_lines(ls.drop_last(), indent) + indent + ls.last() + seq!['\n']
    }
}

/// The Blueprint with the new Todo's block inserted: four spaces deeper, after its parent's
/// `Children:` label (added first when the parent has none); or at the start of the Todos
/// section for a top-level Todo.
pub open spec fn create_splice_spec(
    source: Seq<char>,
    block: Seq<char>,
    parent: Option<Seq<char>>,
) -> Result<Seq<char>, Seq<char>> {
    match parent {
        Some(p) => match children_label_spec(source, p) {
            Err(m) => Err(m),
            Ok(labelled) => match children_insertion_spec(labelled, p) {
                Err(m) => Err(m),
                Ok(at) => {
                    let k = boundary_index(labelled, at as int);
                    Ok(labelled.take(k) + indent_lines(lines_spec(block), "    "@) + labelled.skip(k))
                },
            },
        },
        None => match section_bounds_spec(source, "Todos"@) {
            Err(m) => Err(m),
            Ok((a, _)) => Ok(source.take(a) + indent_lines(lines_spec(block), Seq::empty()) + source.skip(a)),
        },
    }
}

/// The inputs on which the insertion lands on character boundaries (the label's offset in the
/// Blueprint and the block's offset in the labelled text) within a text whose length fits.
pub open spec fn splice_fits(source: Seq<char>, parent: Option<Seq<char>>) -> bool {
    parent matches Some(p) ==> {
        &&& (children_label_offset(source, p) matches Ok(Some(ins)) ==> is_boundary(source, ins as int))
        &&& (children_label_spec(source, p) matches Ok(l) ==> byte_len(l) < usize::MAX && (
        children_insertion_spec(l, p) matches Ok(at) ==> is_boundary(l, at as int)))
    }
}

fn trimmed_text(s: &str) -> (r: String)
    ensures
        r@ == trim(s@),
{
    let cs = chars_of(s);
    let (a, b) = trim_bounds(&cs, 0, cs.len());
    assert(cs@.subrange(0, cs@.len() as int) =~= cs@);
    crate::text::string_of(&cs, a, b)
}

/// The task block of a new Todo (see `new_task_block`).
pub fn render_task_block(
    todo_id: &str,
    title: &str,
    created_by: &str,
    owner: Option<&str>,
    depends_on: &Vec<String>,
) -> (r: String)
    ensures
        r@ == new_task_block(
            todo_id@,
            title@,
            created_by@,
            match owner {
                Some(o) => Some(o@),
                None => None,
            },
            views(depends_on@),
        ),
{
    proof {
        reveal_strlit("- [ ] [");
        reveal_strlit("](todos/");
        reveal_strlit(".md) ^");
        reveal_strlit("\n  - Created By: ");
        reveal_strlit("\n");
        reveal_strlit("  - Owner: ");
        reveal_strlit("  - Depends On: ");
    }
    let mut b = to_string("- [ ] [");
    push_str(&mut b, trimmed_text(title).as_str());
    push_str(&mut b, "](todos/");
    push_str(&mut b, todo_id);
    push_str(&mut b, ".md) ^");
    push_str(&mut b, todo_id);
    push_str(&mut b, "\n  - Created By: ");
    push_str(&mut b, trimmed_text(created_by).as_str());
    push_str(&mut b, "\n");
    if let Some(o) = owner {
        let t = trimmed_text(o);
        if chars_of(t.as_str()).len() > 0 {
            push_str(&mut b, "  - Owner: ");
            push_str(&mut b, t.as_str());
            push_str(&mut b, "\n");
        }
    }
    if depends_on.len() > 0 {
        push_str(&mut b, "  - Depends On: ");
        push_str(&mut b, join_titles(depends_on).as_str());
        push_str(&mut b, "\n");
    }
    b
}

/// The lines of `block`, each after `indent` and ended by a newline (see `indent_lines`).
fn indent_block(block: &str, indent: &str) -> (r: String)
    ensures
        r@ == indent_lines(lines_spec(block@), indent@),
{
    let cs = chars_of(block);
    let rs = line_bounds(&cs);
    let ghost ls = lines_spec(block@);
    let mut out = String::new();
    let mut k: usize = 0;
    assert(ls.take(0) =~= Seq::<Seq<char>>::empty());
    while k < rs.len()
        invariant
            cs@ == block@,
            crate::text::ranges_in(cs@, rs@),
            crate::text::ranges_view(cs@, rs@) == ls,
            ls == lines_spec(block@),
            k <= rs@.len(),
            out@ == indent_lines(ls.take(k as int), indent@),
        decreases rs@.len() - k,
    {
        let (a, b) = rs[k];
        assert(rs@[k as int].0 <= rs@[k as int].1 <= cs@.len());
        push_str(&mut out, indent);
        push_range(&mut out, &cs, a, b);
        crate::text::push_char(&mut out, '\n');
        assert(ls.take(k + 1).drop_last() =~= ls.take(k as int));
        assert(ls.take(k + 1).last() == ls[k as int]);
        assert(ls[k as int] == cs@.subrange(a as int, b as int));
        k = k + 1;
    }
    assert(ls.take(rs@.len() as int) =~= ls);
    out
}

/// The text with `insert` placed at character position `k`.
fn splice_chars(cs: &Vec<char>, k: usize, insert: &str) -> (r: String)
    requires
        k <= cs@.len(),
    ensures
        r@ == cs@.take(k as int) + insert@ + cs@.skip(k as int),
{
    let mut out = String::new();
    push_range(&mut out, cs, 0, k);
    push_str(&mut out, insert);
    push_range(&mut out, cs, k, cs.len());
    assert(cs@.subrange(0, k as int) =~= cs@.take(k as int));
    assert(cs@.subrange(k as int, cs@.len() as int) =~= cs@.skip(k as int));
    out
}

/// Inserts a new Todo's block into the Blueprint (see `create_splice_spec`).
pub fn create_splice(source: &str, block: &str, parent_id: Option<&str>) -> (r: Result<String, String>)
    requires
        splice_fits(
            source@,
            match parent_id {
                Some(p) => Some(p@),
                None => None,
            },
        ),
    ensures
        match create_splice_spec(
            source@,
            block@,
            match parent_id {
                Some(p) => Some(p@),
                None => None,
            },
        ) {
            Ok(t) => r matches Ok(x) && x@ == t,
            Err(m) => r matches Err(e) && e@ == m,
        },
{
    proof {
        reveal_strlit("    ");
        reveal_strlit("");
        reveal_strlit("Todos");
    }
    match parent_id {
        Some(p) => {
            let labelled = ensure_children_label(source, p)?;
            let at = todo_children_insertion(labelled.as_str(), p)?;
            let cs = chars_of(labelled.as_str());
            let k = index_at_byte(&cs, at as u128);
            proof {
                let j = boundary_index(cs@, at as int);
                crate::text::lemma_boundary_unique(cs@, j, k as int);
            }
            let lines = indent_block(block, "    ");
            let r = splice_chars(&cs, k, lines.as_str());
            assert(create_splice_spec(source@, block@, Some(p@)) == Ok::<Seq<char>, Seq<char>>(r@));
            Ok(r)
        },
        None => {
            let cs = chars_of(source);
            match section_span_of(&cs, "Todos") {
                Some((a, _)) => {
                    let lines = indent_block(block, "");
                    assert(""@ =~= Seq::<char>::empty());
                    assert(lines@ == indent_lines(lines_spec(block@), Seq::<char>::empty()));
                    let r = splice_chars(&cs, a, lines.as_str());
                    assert(create_splice_spec(source@, block@, None) == Ok::<Seq<char>, Seq<char>>(r@));
                    Ok(r)
                },
                None => {
                    proof {
                        reveal_strlit("missing required section: ");
                        reveal_strlit("missing required section: Todos");
                    }
                    assert("missing required section: "@ + "Todos"@ =~= "missing required section: Todos"@);
                    Err(to_string("missing required section: Todos"))
                },
            }
        },
    }
}

/// The outcome of a parse of a Blueprint's Todo tree, by its views.
pub open spec fn tree_outcome(o: Result<Seq<Todo>, Seq<char>>) -> Result<Seq<crate::blueprint::legacy::TodoTreeView>, Seq<char>> {
    match o {
        Ok(t) => Ok(tree_views(t)),
        Err(m) => Err(m),
    }
}

/// What checking a new Blueprint gives, from the parse of its text: the parse's refusal, or
/// the outcome of the graph checks on its Todo tree, with the new text on success.
pub open spec fn candidate_agrees(x: Seq<char>, o: Result<Seq<Todo>, Seq<char>>, r: Result<String, String>) -> bool {
    match o {
        Err(m) => r matches Err(e) && e@ == m,
        Ok(t) => graph_outcome(
            flat_forest(t),
            match r {
                Ok(_) => Ok::<(), String>(()),
                Err(e) => Err::<(), String>(e),
            },
        ) && (r matches Ok(y) ==> y@ == x),
    }
}

/// What creating a Todo gives, from the parse of the Blueprint: its refusal; the refusal of a
/// parent that the tree lacks; the refusal of the insertion; or what checking the new
/// Blueprint gives (see `candidate_agrees`).
pub open spec fn create_agrees(
    path: Seq<char>,
    o: Result<Seq<Todo>, Seq<char>>,
    parent: Option<Seq<char>>,
    splice: Result<Seq<char>, Seq<char>>,
    r: Result<String, String>,
) -> bool {
    match o {
        Err(m) => r matches Err(e) && e@ == m,
        Ok(t) => if parent is Some && find_in_forest(t, parent->Some_0) is None {
            r matches Err(e) && e@ == "unknown Todo: "@ + parent->Some_0
        } else {
            match splice {
                Err(m) => r matches Err(e) && e@ == m,
                Ok(x) => if markdown_accepts(x, false, usize::MAX) {
                    exists|o2: Result<Seq<Todo>, Seq<char>>|
                        #![trigger tree_outcome(o2)]
                        legacy_parsed(path, x, tree_outcome(o2)) && candidate_agrees(x, o2, r)
                } else {
                    r is Err
                },
            }
        },
    }
}

/// What creating a Todo in the Blueprint `source` gives: refused when the Blueprint's Markdown
/// does not parse; else what `create_agrees` makes of its parse; and on success the text with
/// the block inserted, whose Todo tree parses and passes the graph checks.
pub open spec fn create_candidate_spec(
    blueprint_id: Seq<char>,
    source: Seq<char>,
    block: Seq<char>,
    parent: Option<Seq<char>>,
    r: Result<String, String>,
) -> bool {
    &&& (!markdown_accepts(source, false, usize::MAX) ==> r is Err)
    &&& (markdown_accepts(source, false, usize::MAX) ==> exists|o: Result<Seq<Todo>, Seq<char>>|
        #![trigger tree_outcome(o)]
        legacy_parsed(blueprint_path(blueprint_id), source, tree_outcome(o)) && create_agrees(
            blueprint_path(blueprint_id),
            o,
            parent,
            create_splice_spec(source, block, parent),
            r,
        ))
    &&& (r matches Ok(x) ==> create_splice_spec(source, block, parent) == Ok::<Seq<char>, Seq<char>>(x@)
        && exists|todos: Seq<Todo>|
        #![trigger flat_forest(todos)]
        legacy_tree(blueprint_path(blueprint_id), x@, tree_views(todos)) && graph_outcome(
            flat_forest(todos),
            Ok::<(), String>(()),
        ))
}

/// The Blueprint with a new Todo in its graph: the Blueprint must parse and hold the parent,
/// the task block (see `new_task_block`) goes where `create_splice_spec` puts it, and the new
/// Blueprint is accepted only when its Todo tree parses and passes the graph checks.
pub fn todo_create_graph_candidate(
    blueprint_id: &str,
    source: &str,
    todo_id: &str,
    title: &str,
    created_by: &str,
    owner: Option<&str>,
    depends_on: &Vec<String>,
    parent_id: Option<&str>,
) -> (r: Result<String, String>)
    requires
        splice_fits(
            source@,
            match parent_id {
                Some(p) => Some(p@),
                None => None,
            },
        ),
    ensures
        create_candidate_spec(
            blueprint_id@,
            source@,
            new_task_block(
                todo_id@,
                title@,
                created_by@,
                match owner {
                    Some(o) => Some(o@),
                    None => None,
                },
                views(depends_on@),
            ),
            match parent_id {
                Some(p) => Some(p@),
                None => None,
            },
            r,
        ),
{
    let ghost parent = match parent_id {
        Some(p) => Some(p@),
        None => None,
    };
    let ghost block_spec = new_task_block(
        todo_id@,
        title@,
        created_by@,
        match owner {
            Some(o) => Some(o@),
            None => None,
        },
        views(depends_on@),
    );
    let path = path_of(blueprint_id);
    proof {
        lemma_blueprint_path(blueprint_id@);
        reveal_strlit("unknown Todo: ");
    }
    let parsed = match ParsedBlueprintSource::parse(path.as_str(), source) {
        Ok(p) => p,
        Err(e) => {
            proof {
                if markdown_accepts(source@, false, usize::MAX) {
                    let o = Err::<Seq<Todo>, Seq<char>>(e@);
                    assert(tree_outcome(o) == crate::blueprint::legacy::legacy_outcome(Err::<ParsedBlueprintSource, String>(e)));
                    assert(create_agrees(blueprint_path(blueprint_id@), o, parent, create_splice_spec(source@, block_spec, parent), Err::<String, String>(e)));
                }
            }
            return Err(e);
        },
    };
    let ghost o = Ok::<Seq<Todo>, Seq<char>>(parsed.todos@);
    assert(tree_outcome(o) == crate::blueprint::legacy::legacy_outcome(Ok::<ParsedBlueprintSource, String>(parsed)));
    if let Some(p) = parent_id {
        if find_todo(parsed.todos.as_slice(), p).is_none() {
            let mut m = to_string("unknown Todo: ");
            push_str(&mut m, p);
            proof {
                assert(create_agrees(blueprint_path(blueprint_id@), o, parent, create_splice_spec(source@, block_spec, parent), Err::<String, String>(m)));
            }
            return Err(m);
        }
    }
    let block = render_task_block(todo_id, title, created_by, owner, depends_on);
    let candidate = match create_splice(source, block.as_str(), parent_id) {
        Ok(c) => c,
        Err(e) => {
            proof {
                assert(create_agrees(blueprint_path(blueprint_id@), o, parent, create_splice_spec(source@, block_spec, parent), Err::<String, String>(e)));
            }
            return Err(e);
        },
    };
    let checked = match ParsedBlueprintSource::parse(path.as_str(), candidate.as_str()) {
        Ok(c) => c,
        Err(e) => {
            proof {
                if markdown_accepts(candidate@, false, usize::MAX) {
                    let o2 = Err::<Seq<Todo>, Seq<char>>(e@);
                    assert(tree_outcome(o2) == crate::blueprint::legacy::legacy_outcome(Err::<ParsedBlueprintSource, String>(e)));
                    assert(candidate_agrees(candidate@, o2, Err::<String, String>(e)));
                }
                assert(create_agrees(blueprint_path(blueprint_id@), o, parent, create_splice_spec(source@, block_spec, parent), Err::<String, String>(e)));
            }
            return Err(e);
        },
    };
    let ghost o2 = Ok::<Seq<Todo>, Seq<char>>(checked.todos@);
    assert(tree_outcome(o2) == crate::blueprint::legacy::legacy_outcome(Ok::<ParsedBlueprintSource, String>(checked)));
    match derive_readiness(checked.todos.as_slice()) {
        Ok(_) => {
            proof {
                assert(candidate_agrees(candidate@, o2, Ok::<String, String>(candidate)));
                assert(graph_outcome(flat_forest(checked.todos@), Ok::<(), String>(())));
                assert(create_agrees(blueprint_path(blueprint_id@), o, parent, create_splice_spec(source@, block_spec, parent), Ok::<String, String>(candidate)));
            }
            Ok(candidate)
        },
        Err(e) => {
            proof {
                assert(candidate_agrees(candidate@, o2, Err::<String, String>(e)));
                assert(create_agrees(blueprint_path(blueprint_id@), o, parent, create_splice_spec(source@, block_spec, parent), Err::<String, String>(e)));
            }
            Err(e)
        },
    }
}

/// The refusal of a new Todo's texts, if any: a blank title, a blank creator, or a blank
/// completion criterion.
pub open spec fn create_text_error(title: Seq<char>, created_by: Seq<char>, criteria: Seq<Seq<char>>) -> Option<
    Seq<char>,
> {
    if trim(title).len() == 0 {
        Some("title must not be empty"@)
    } else if trim(created_by).len() == 0 {
        Some("created_by must not be empty"@)
    } else if exists|i: int| 0 <= i < criteria.len() && trim(#[trigger] criteria[i]).len() == 0 {
        Some("completion criterion must not be empty"@)
    } else {
        None
    }
}

/// The detail document of a new Todo: its texts must not be blank, and the rendered document
/// (see `render_todo_spec`) must parse as a Todo detail.
pub fn todo_create_detail(
    blueprint_id: &str,
    todo_id: &str,
    title: &str,
    created_by: &str,
    intent: &str,
    plan: &str,
    criteria: &Vec<String>,
) -> (r: Result<String, String>)
    ensures
        create_text_error(title@, created_by@, text_views(criteria@)) matches Some(m) ==> (r matches Err(e) && e@ == m),
        r matches Ok(x) ==> create_text_error(title@, created_by@, text_views(criteria@)) is None && x@ == render_todo_spec(
            blueprint_id@,
            todo_id@,
            title@,
            intent@,
            plan@,
            text_views(criteria@),
        ),
        create_text_error(title@, created_by@, text_views(criteria@)) is None && markdown_accepts(
            render_todo_spec(blueprint_id@, todo_id@, title@, intent@, plan@, text_views(criteria@)),
            false,
            usize::MAX,
        ) ==> exists|o: Result<crate::blueprint::todo::TodoDetailView, Seq<char>>|
            #![trigger detail_parsed(todo_id@ + ".md"@, render_todo_spec(blueprint_id@, todo_id@, title@, intent@, plan@, text_views(criteria@)), o)]
            detail_parsed(
                todo_id@ + ".md"@,
                render_todo_spec(blueprint_id@, todo_id@, title@, intent@, plan@, text_views(criteria@)),
                o,
            ) && match o {
                Ok(_) => r is Ok,
                Err(m) => r matches Err(e) && e@ == m,
            },
{
    proof {
        reveal_strlit("title");
        reveal_strlit("created_by");
        reveal_strlit("completion criterion");
        reveal_strlit(" must not be empty");
        reveal_strlit("title must not be empty");
        reveal_strlit("created_by must not be empty");
        reveal_strlit("completion criterion must not be empty");
        assert("title"@ + " must not be empty"@ =~= "title must not be empty"@);
        assert("created_by"@ + " must not be empty"@ =~= "created_by must not be empty"@);
        assert("completion criterion"@ + " must not be empty"@ =~= "completion criterion must not be empty"@);
    }
    require_text("title", title)?;
    require_text("created_by", created_by)?;
    let ghost cv = text_views(criteria@);
    let mut i: usize = 0;
    while i < criteria.len()
        invariant
            i <= criteria@.len(),
            cv == text_views(criteria@),
            trim(title@).len() > 0,
            trim(created_by@).len() > 0,
            forall|j: int| 0 <= j < i ==> trim(#[trigger] cv[j]).len() > 0,
        decreases criteria@.len() - i,
    {
        match require_text("completion criterion", criteria[i].as_str()) {
            Ok(()) => {},
            Err(e) => {
                assert(trim(cv[i as int]).len() == 0);
                assert(exists|j: int| 0 <= j < cv.len() && trim(#[trigger] cv[j]).len() == 0);
                proof {
                    reveal_strlit("completion criterion");
                    reveal_strlit(" must not be empty");
                    reveal_strlit("completion criterion must not be empty");
                    assert("completion criterion"@ + " must not be empty"@ =~= "completion criterion must not be empty"@);
                }
                return Err(e);
            },
        }
        i = i + 1;
    }
    let detail = render_todo(blueprint_id, todo_id, title, intent, plan, criteria);
    let mut path = to_string(todo_id);
    push_str(&mut path, ".md");
    proof {
        reveal_strlit(".md");
        assert(path@.skip(path@.len() - 3) =~= ".md"@);
    }
    let parsed = TodoDetail::parse(path.as_str(), detail.as_str());
    match parsed {
        Ok(_) => Ok(detail),
        Err(e) => Err(e),
    }
}

/// Whether byte `b` of the text is a character boundary.
fn boundary_at(s: &str, b: u128) -> (r: bool)
    ensures
        r == is_boundary(s@, b as int),
{
    let n = crate::text::str_byte_len(s);
    if b > n as u128 {
        proof {
            if is_boundary(s@, b as int) {
                let k = choose|k: int| 0 <= k <= s@.len() && byte_len(#[trigger] s@.take(k)) == b as int;
                crate::text::lemma_byte_len_mono(s@, k, s@.len() as int);
                assert(s@.take(s@.len() as int) =~= s@);
            }
        }
        return false;
    }
    let cs = chars_of(s);
    proof {
        assert(cs@.take(0) =~= Seq::<char>::empty());
        assert(is_boundary(cs@, 0));
    }
    crate::mutation::rename::char_range(&cs, 0, b as usize).is_some()
}

/// Whether the insertion for a new Todo lands on character boundaries (see `splice_fits`).
fn check_splice_fits(source: &str, parent_id: Option<&str>) -> (r: bool)
    ensures
        r == splice_fits(
            source@,
            match parent_id {
                Some(p) => Some(p@),
                None => None,
            },
        ),
{
    let p = match parent_id {
        Some(p) => p,
        None => return true,
    };
    let labelled = match children_label_position(source, p) {
        Err(_) => return true,
        Ok(None) => to_string(source),
        Ok(Some(ins)) => {
            if !boundary_at(source, ins) {
                return false;
            }
            match ensure_children_label(source, p) {
                Ok(l) => l,
                Err(_) => return true,
            }
        },
    };
    if crate::text::str_byte_len(labelled.as_str()) == usize::MAX {
        return false;
    }
    match todo_children_insertion(labelled.as_str(), p) {
        Err(_) => true,
        Ok(at) => boundary_at(labelled.as_str(), at as u128),
    }
}

/// `todo_create_graph_candidate` on every input: `None` exactly where the insertion would not
/// land on character boundaries (see `splice_fits`), else what it gives.
pub fn try_todo_create_graph_candidate(
    blueprint_id: &str,
    source: &str,
    todo_id: &str,
    title: &str,
    created_by: &str,
    owner: Option<&str>,
    depends_on: &Vec<String>,
    parent_id: Option<&str>,
) -> (r: Option<Result<String, String>>)
    ensures
        r is None <==> !splice_fits(
            source@,
            match parent_id {
                Some(p) => Some(p@),
                None => None,
            },
        ),
        r matches Some(x) ==> create_candidate_spec(
            blueprint_id@,
            source@,
            new_task_block(
                todo_id@,
                title@,
                created_by@,
                match owner {
                    Some(o) => Some(o@),
                    None => None,
                },
                views(depends_on@),
            ),
            match parent_id {
                Some(p) => Some(p@),
                None => None,
            },
            x,
        ),
{
    if !check_splice_fits(source, parent_id) {
        return None;
    }
    Some(todo_create_graph_candidate(blueprint_id, source, todo_id, title, created_by, owner, depends_on, parent_id))
}

} // verus!
