//! The rules of the Blueprint workspace store that do not touch the disk: the shapes of
//! Blueprint and Todo IDs, document etags, the check that a document is the one its path
//! names, and the check that the Todo graph and the Todo documents match.
use vstd::prelude::*;

use crate::blueprint::model::{BlueprintState, TodoDetail, TodoGraphNode, clone_node, same_node, state_name};
use crate::blueprint::document::ends_with;
use crate::blueprint::source::{BlueprintSource, BlueprintView, blueprint_outcome, blueprint_parsed, blueprint_view};
use crate::blueprint::todo::{TodoDetailView, detail_outcome, detail_parsed, detail_view};
use crate::markdown::markdown_accepts;
use crate::parser::starts_with;
use crate::text::{chars_of, push_char, push_str, str_eq, to_string};

verus! {

/// An ID made of `prefix` and at least one more character, with no `/` or `\`.
pub open spec fn valid_id(id: Seq<char>, prefix: Seq<char>) -> bool {
    starts_with(id, prefix) && crate::text::byte_len(id) > prefix.len() && forall|i: int|
        0 <= i < id.len() ==> #[trigger] id[i] != '/' && id[i] != '\\'
}

/// Whether the ID starts with the ASCII prefix, is longer than it, and holds no path
/// separator.
fn check_id(id: &str, prefix: &str) -> (b: bool)
    requires
        crate::text::byte_len(prefix@) == prefix@.len(),
    ensures
        b == valid_id(id@, prefix@),
{
    let cs = chars_of(id);
    let ps = chars_of(prefix);
    if !crate::text::matches_at(&cs, &ps, 0) {
        proof {
            if ps@.len() <= cs@.len() {
                assert(cs@.subrange(0, ps@.len() as int) =~= cs@.take(ps@.len() as int));
            }
        }
        return false;
    }
    assert(cs@.subrange(0, ps@.len() as int) =~= cs@.take(ps@.len() as int));
    if crate::text::str_byte_len(id) <= ps.len() {
        return false;
    }
    let mut i: usize = 0;
    while i < cs.len()
        invariant
            i <= cs.len(),
            cs@ == id@,
            forall|j: int| 0 <= j < i ==> #[trigger] cs@[j] != '/' && cs@[j] != '\\',
        decreases cs.len() - i,
    {
        if cs[i] == '/' || cs[i] == '\\' {
            return false;
        }
        i += 1;
    }
    true
}

/// A Blueprint ID: `bp-` and at least one more byte, with no `/` or `\`.
pub fn validate_blueprint_id(id: &str) -> (r: Result<(), String>)
    ensures
        r is Ok <==> valid_id(id@, "bp-"@),
        r matches Err(e) ==> e@ == "invalid Blueprint ID: "@ + id@,
{
    proof {
        reveal_strlit("bp-");
        assert(crate::text::byte_len("bp-"@) == 3) by {
            reveal_with_fuel(crate::text::byte_len, 4);
        }
    }
    if check_id(id, "bp-") {
        Ok(())
    } else {
        let mut m = to_string("invalid Blueprint ID: ");
        push_str(&mut m, id);
        Err(m)
    }
}

/// A Todo ID: `todo-` and at least one more byte, with no `/` or `\`.
pub fn validate_todo_id(id: &str) -> (r: Result<(), String>)
    ensures
        r is Ok <==> valid_id(id@, "todo-"@),
        r matches Err(e) ==> e@ == "invalid Todo ID: "@ + id@,
{
    proof {
        reveal_strlit("todo-");
        assert(crate::text::byte_len("todo-"@) == 5) by {
            reveal_with_fuel(crate::text::byte_len, 6);
        }
    }
    if check_id(id, "todo-") {
        Ok(())
    } else {
        let mut m = to_string("invalid Todo ID: ");
        push_str(&mut m, id);
        Err(m)
    }
}

/// A write that names the etag it read must find the document unchanged.
pub fn check_etag(expected: Option<&str>, actual: &str) -> (r: Result<(), String>)
    ensures
        r is Err <==> (expected matches Some(e) && e@ != actual@),
        r matches Err(m) ==> m@ == "document etag does not match; re-read before writing"@,
{
    match expected {
        Some(e) => {
            if !str_eq(e, actual) {
                return Err(to_string("document etag does not match; re-read before writing"));
            }
            Ok(())
        },
        None => Ok(()),
    }
}

/// The frontmatter name of a lifecycle state.
pub fn state_name_of(state: BlueprintState) -> (n: &'static str)
    ensures
        n@ == state_name(state),
{
    state.name()
}

/// What std's `DefaultHasher` (created by `DefaultHasher::new`, whose keys are fixed) gives
/// for a string slice.
pub uninterp spec fn text_hash(s: Seq<char>) -> u64;

/// Hashes a string slice with std's `DefaultHasher::new()` (`Hash::hash`, then
/// `Hasher::finish`); the result is named by `text_hash`.
#[verifier::external_body]
fn default_hash(s: &str) -> (h: u64)
    ensures
        h == text_hash(s@),
{
    let mut hasher = std::collections::hash_map::DefaultHasher::new();
    std::hash::Hash::hash(s, &mut hasher);
    std::hash::Hasher::finish(&hasher)
}

pub open spec fn hex_char(d: nat) -> char {
    if d < 10 {
        ((48 + d) as u32) as char
    } else {
        ((87 + d) as u32) as char
    }
}

/// The last `k` lowercase hexadecimal digits of `n`, zero-padded.
pub open spec fn hex_digits(n: nat, k: nat) -> Seq<char>
    decreases k,
{
    if k == 0 {
        seq![]
    } else {
        hex_digits(n / 16, (k - 1) as nat).push(hex_char(n % 16))
    }
}

fn hex_digit(d: u64) -> (c: char)
    requires
        d < 16,
    ensures
        c == hex_char(d as nat),
{
    let digits = ['0', '1', '2', '3', '4', '5', '6', '7', '8', '9', 'a', 'b', 'c', 'd', 'e', 'f'];
    let c = digits[d as usize];
    assert(c == hex_char(d as nat)) by {
        assert(digits@[d as int] == c);
    }
    c
}

fn push_hex(s: &mut String, n: u64, k: usize)
    ensures
        final(s)@ == old(s)@ + hex_digits(n as nat, k as nat),
    decreases k,
{
    if k > 0 {
        push_hex(s, n / 16, k - 1);
        push_char(s, hex_digit(n % 16));
    }
}

/// The etag of a document: its `DefaultHasher` hash as 16 lowercase hexadecimal digits.
pub fn etag(source: &str) -> (r: String)
    ensures
        r@ == hex_digits(text_hash(source@) as nat, 16),
{
    let mut r = String::new();
    push_hex(&mut r, default_hash(source), 16);
    r
}

/// The path of the Blueprint document of the aggregate `id`.
pub open spec fn blueprint_doc_path(id: Seq<char>) -> Seq<char> {
    "blueprints/"@ + id + "/blueprint.md"@
}

/// Parses the Blueprint document of the aggregate `id` (at `blueprint_doc_path`).
pub fn parse_blueprint(id: &str, source: &str) -> (r: Result<BlueprintSource, String>)
    ensures
        r matches Ok(b) ==> blueprint_accepted_as(source@, b),
        !markdown_accepts(source@, false, usize::MAX) ==> r is Err,
        markdown_accepts(source@, false, usize::MAX) ==> blueprint_parsed(
            blueprint_doc_path(id@),
            source@,
            blueprint_outcome(r),
        ),
{
    let mut path = to_string("blueprints/");
    push_str(&mut path, id);
    push_str(&mut path, "/blueprint.md");
    proof {
        reveal_strlit("/blueprint.md");
        reveal_strlit(".md");
        let p = path@;
        assert(p.skip(p.len() - 3) =~= ".md"@);
        assert(crate::blueprint::document::ends_with(p, ".md"@));
    }
    BlueprintSource::parse(path.as_str(), source)
}

/// A parsed Blueprint that names the aggregate's ID, else the refusal.
pub open spec fn id_checked(o: Result<BlueprintView, Seq<char>>, id: Seq<char>) -> Result<BlueprintView, Seq<char>> {
    match o {
        Err(m) => Err(m),
        Ok(v) => if v.id == id {
            Ok(v)
        } else {
            Err("Blueprint ID does not match document frontmatter: "@ + id)
        },
    }
}

/// The Blueprint is what `blueprint_spec` makes of the source.
pub open spec fn blueprint_accepted_as(source: Seq<char>, b: BlueprintSource) -> bool {
    exists|
        d: crate::blueprint::document::DocumentView,
        g: Result<Seq<crate::blueprint::graph::GraphNodeView>, Seq<char>>,
        ev: Seq<(Seq<char>, Seq<char>)>,
        rv: Seq<(Seq<char>, Seq<char>)>,
    |
        #[trigger] crate::blueprint::source::blueprint_spec(source, d, g, ev, rv) == Ok::<
            crate::blueprint::source::BlueprintView,
            Seq<char>,
        >(crate::blueprint::source::blueprint_view(b))
}

/// Parses the Blueprint document of the aggregate `id`, which must name that ID in its
/// frontmatter.
pub fn validate_blueprint_source(id: &str, source: &str) -> (r: Result<BlueprintSource, String>)
    ensures
        r matches Ok(b) ==> b.id@ == id@ && blueprint_accepted_as(source@, b),
        !markdown_accepts(source@, false, usize::MAX) ==> r is Err,
        markdown_accepts(source@, false, usize::MAX) ==> exists|o: Result<BlueprintView, Seq<char>>|
            #![trigger id_checked(o, id@)]
            blueprint_parsed(blueprint_doc_path(id@), source@, o) && id_checked(o, id@) == blueprint_outcome(r),
{
    let parsed = match parse_blueprint(id, source) {
        Ok(p) => p,
        Err(e) => {
            proof {
                assert(id_checked(Err::<BlueprintView, Seq<char>>(e@), id@) == Err::<BlueprintView, Seq<char>>(e@));
            }
            return Err(e);
        },
    };
    proof {
        assert(blueprint_view(parsed).id == parsed.id@);
    }
    if !str_eq(parsed.id.as_str(), id) {
        let mut m = to_string("Blueprint ID does not match document frontmatter: ");
        push_str(&mut m, id);
        proof {
            assert(id_checked(Ok::<BlueprintView, Seq<char>>(blueprint_view(parsed)), id@) == Err::<BlueprintView, Seq<char>>(m@));
        }
        return Err(m);
    }
    proof {
        assert(id_checked(Ok::<BlueprintView, Seq<char>>(blueprint_view(parsed)), id@) == Ok::<BlueprintView, Seq<char>>(blueprint_view(parsed)));
    }
    Ok(parsed)
}

/// Parses a Todo document at `path`, which must name its own ID and its Blueprint's ID.
pub fn validate_todo_source(blueprint_id: &str, id: &str, path: &str, source: &str) -> (r: Result<(), String>)
    ensures
        r is Ok ==> exists|t: TodoDetail|
            t.id@ == id@ && t.blueprint_id@ == blueprint_id@ && todo_accepted_as(source@, t),
        !ends_with(path@, ".md"@) ==> (r matches Err(e) && e@ == "document path must end with .md: "@ + path@),
        ends_with(path@, ".md"@) && !markdown_accepts(source@, false, usize::MAX) ==> r is Err,
        ends_with(path@, ".md"@) && markdown_accepts(source@, false, usize::MAX) ==> exists|o: Result<TodoDetailView, Seq<char>>|
            #![trigger todo_checked(o, blueprint_id@, id@)]
            detail_parsed(path@, source@, o) && todo_checked(o, blueprint_id@, id@) == match r {
                Ok(()) => Ok::<(), Seq<char>>(()),
                Err(e) => Err(e@),
            },
{
    let parsed = match TodoDetail::parse(path, source) {
        Ok(p) => p,
        Err(e) => {
            proof {
                assert(todo_checked(Err::<TodoDetailView, Seq<char>>(e@), blueprint_id@, id@) == Err::<(), Seq<char>>(e@));
            }
            return Err(e);
        },
    };
    proof {
        assert(detail_view(parsed).id == parsed.id@);
        assert(detail_view(parsed).blueprint_id == parsed.blueprint_id@);
    }
    if !str_eq(parsed.id.as_str(), id) || !str_eq(parsed.blueprint_id.as_str(), blueprint_id) {
        let m = to_string("Todo frontmatter does not match its aggregate path");
        proof {
            assert(todo_checked(Ok::<TodoDetailView, Seq<char>>(detail_view(parsed)), blueprint_id@, id@) == Err::<(), Seq<char>>(m@));
        }
        return Err(m);
    }
    proof {
        assert(todo_checked(Ok::<TodoDetailView, Seq<char>>(detail_view(parsed)), blueprint_id@, id@) == Ok::<(), Seq<char>>(()));
    }
    assert(parsed.id@ == id@ && parsed.blueprint_id@ == blueprint_id@ && todo_accepted_as(source@, parsed));
    Ok(())
}

/// A parsed Todo detail that names its own ID and its Blueprint's, else the refusal.
pub open spec fn todo_checked(o: Result<TodoDetailView, Seq<char>>, blueprint_id: Seq<char>, id: Seq<char>) -> Result<(), Seq<char>> {
    match o {
        Err(m) => Err(m),
        Ok(v) => if v.id == id && v.blueprint_id == blueprint_id {
            Ok(())
        } else {
            Err("Todo frontmatter does not match its aggregate path"@)
        },
    }
}

/// The Todo detail is what `detail_spec` makes of the source.
pub open spec fn todo_accepted_as(source: Seq<char>, t: TodoDetail) -> bool {
    exists|
        d: crate::blueprint::document::DocumentView,
        ev: Seq<(Seq<char>, Seq<char>)>,
        rv: Seq<(Seq<char>, Seq<char>)>,
    |
        #[trigger] crate::blueprint::todo::detail_spec(source, d, ev, rv) == Ok::<
            crate::blueprint::todo::TodoDetailView,
            Seq<char>,
        >(crate::blueprint::todo::detail_view(t))
}

/// A graph node and all its descendants, each before its children.
pub open spec fn flat_node(t: TodoGraphNode) -> Seq<TodoGraphNode>
    decreases t, 1int,
{
    seq![t] + flat_nodes(t.children@)
}

/// The nodes of a forest and all their descendants, in document (pre-)order.
pub open spec fn flat_nodes(s: Seq<TodoGraphNode>) -> Seq<TodoGraphNode>
    decreases s, 0int,
{
    if s.len() == 0 {
        seq![]
    } else {
        flat_node(s[0]) + flat_nodes(s.subrange(1, s.len() as int))
    }
}

proof fn lemma_flat_nodes_push(s: Seq<TodoGraphNode>, t: TodoGraphNode)
    ensures
        flat_nodes(s.push(t)) == flat_nodes(s) + flat_node(t),
    decreases s.len(),
{
    if s.len() == 0 {
        assert(s.push(t).subrange(1, 1) =~= Seq::<TodoGraphNode>::empty());
        assert(flat_nodes(Seq::<TodoGraphNode>::empty()) == Seq::<TodoGraphNode>::empty());
        assert(flat_nodes(s.push(t)) =~= flat_node(t));
    } else {
        let rest = s.subrange(1, s.len() as int);
        assert(s.push(t).subrange(1, s.len() + 1int) =~= rest.push(t));
        lemma_flat_nodes_push(rest, t);
        assert(flat_nodes(s.push(t)) =~= flat_node(s[0]) + (flat_nodes(rest) + flat_node(t)));
    }
}

proof fn lemma_same_node_refl(a: TodoGraphNode)
    ensures
        same_node(a, a),
    decreases a,
{
    assert forall|i: int| 0 <= i < a.children.len() implies same_node(
        #[trigger] a.children@[i],
        a.children@[i],
    ) by {
        lemma_same_node_refl(a.children@[i]);
    }
}

/// Each node of `a` is a copy of the node of `b` at the same place.
pub open spec fn same_nodes(a: Seq<TodoGraphNode>, b: Seq<TodoGraphNode>) -> bool {
    a.len() == b.len() && forall|i: int| 0 <= i < a.len() ==> same_node(#[trigger] a[i], b[i])
}

fn collect_node(t: &TodoGraphNode, out: &mut Vec<TodoGraphNode>)
    requires
        exists|base: Seq<TodoGraphNode>| same_nodes(old(out)@, base),
    ensures
        forall|base: Seq<TodoGraphNode>|
            same_nodes(old(out)@, base) ==> same_nodes(final(out)@, base + flat_node(*t)),
    decreases t, 1int,
{
    let ghost start = out@;
    out.push(clone_node(t));
    proof {
        assert forall|base: Seq<TodoGraphNode>| same_nodes(start, base) implies same_nodes(out@, base + seq![*t]) by {
            assert forall|i: int| 0 <= i < out@.len() implies same_node(#[trigger] out@[i], (base + seq![*t])[i]) by {
                if i < start.len() {
                    assert(out@[i] == start[i]);
                }
            }
        }
        assert(same_nodes(start, start)) by {
            assert forall|i: int| 0 <= i < start.len() implies same_node(#[trigger] start[i], start[i]) by {
                lemma_same_node_refl(start[i]);
            }
        }
    }
    collect_nodes(&t.children, out);
    proof {
        assert forall|base: Seq<TodoGraphNode>| same_nodes(start, base) implies same_nodes(out@, base + flat_node(*t)) by {
            assert(base + seq![*t] + flat_nodes(t.children@) =~= base + flat_node(*t));
        }
    }
}

fn collect_nodes(ts: &Vec<TodoGraphNode>, out: &mut Vec<TodoGraphNode>)
    requires
        exists|base: Seq<TodoGraphNode>| same_nodes(old(out)@, base),
    ensures
        forall|base: Seq<TodoGraphNode>|
            same_nodes(old(out)@, base) ==> same_nodes(final(out)@, base + flat_nodes(ts@)),
    decreases ts, 0int,
{
    let ghost start = out@;
    let mut i: usize = 0;
    assert(flat_nodes(ts@.take(0)) == Seq::<TodoGraphNode>::empty()) by {
        assert(ts@.take(0) =~= Seq::<TodoGraphNode>::empty());
    }
    while i < ts.len()
        invariant
            i <= ts.len(),
            forall|base: Seq<TodoGraphNode>|
                same_nodes(start, base) ==> same_nodes(out@, base + flat_nodes(ts@.take(i as int))),
            exists|base: Seq<TodoGraphNode>| same_nodes(out@, base),
        decreases ts.len() - i,
    {
        let ghost mid = out@;
        collect_node(&ts[i], out);
        proof {
            lemma_flat_nodes_push(ts@.take(i as int), ts@[i as int]);
            assert(ts@.take(i + 1) =~= ts@.take(i as int).push(ts@[i as int]));
            assert forall|base: Seq<TodoGraphNode>| same_nodes(start, base) implies same_nodes(
                out@,
                base + flat_nodes(ts@.take(i + 1)),
            ) by {
                let b2 = base + flat_nodes(ts@.take(i as int));
                assert(same_nodes(mid, b2));
                assert(b2 + flat_node(ts@[i as int]) =~= base + flat_nodes(ts@.take(i + 1)));
            }
            let b0 = choose|base: Seq<TodoGraphNode>| same_nodes(mid, base);
            assert(same_nodes(out@, b0 + flat_node(ts@[i as int])));
        }
        i += 1;
    }
    assert(ts@.take(ts.len() as int) =~= ts@);
}

/// Every node of a Todo graph, each before its children (copies).
pub fn flatten_todos(todos: &Vec<TodoGraphNode>) -> (r: Vec<TodoGraphNode>)
    ensures
        same_nodes(r@, flat_nodes(todos@)),
{
    let mut out: Vec<TodoGraphNode> = Vec::new();
    assert(same_nodes(out@, Seq::<TodoGraphNode>::empty()));
    collect_nodes(todos, &mut out);
    assert(Seq::<TodoGraphNode>::empty() + flat_nodes(todos@) =~= flat_nodes(todos@));
    out
}

/// The position of the last of the first `k` nodes with the ID (a later node replaces an
/// earlier one with the same ID).
pub open spec fn last_node_with(nodes: Seq<TodoGraphNode>, id: Seq<char>, k: int) -> Option<int>
    decreases k,
{
    if k <= 0 {
        None
    } else if nodes[k - 1].id@ == id {
        Some(k - 1)
    } else {
        last_node_with(nodes, id, k - 1)
    }
}

/// What is wrong with the link of the `i`-th node: it must point at `todos/<id>.md`, and
/// that document must exist.
pub open spec fn link_problem(nodes: Seq<TodoGraphNode>, documents: Seq<Seq<char>>, i: int) -> Option<Seq<char>> {
    let id = nodes[i].id@;
    if last_node_with(nodes, id, nodes.len() as int) != Some(i) {
        None
    } else if nodes[i].document@ != "todos/"@ + id + ".md"@ {
        Some("Todo "@ + id + " must link to todos/"@ + id + ".md"@)
    } else if !documents.contains(id) {
        Some("missing Todo document: "@ + id)
    } else {
        None
    }
}

/// The first problem among the links of the first `k` nodes.
pub open spec fn first_link_problem(nodes: Seq<TodoGraphNode>, documents: Seq<Seq<char>>, k: int) -> Option<Seq<char>>
    decreases k,
{
    if k <= 0 {
        None
    } else {
        match first_link_problem(nodes, documents, k - 1) {
            Some(m) => Some(m),
            None => link_problem(nodes, documents, k - 1),
        }
    }
}

/// The first of the first `k` documents that no node links.
pub open spec fn first_orphan(nodes: Seq<TodoGraphNode>, documents: Seq<Seq<char>>, k: int) -> Option<Seq<char>>
    decreases k,
{
    if k <= 0 {
        None
    } else {
        match first_orphan(nodes, documents, k - 1) {
            Some(m) => Some(m),
            None => if last_node_with(nodes, documents[k - 1], nodes.len() as int) is None {
                Some("orphan Todo document: "@ + documents[k - 1])
            } else {
                None
            },
        }
    }
}

/// A Todo graph (flattened) and the Todo documents of an aggregate match: every Todo links
/// to its own document, which exists, and every document belongs to a Todo. Links are
/// checked first, in graph order, then documents, in the order given.
pub open spec fn aggregate_links_spec(nodes: Seq<TodoGraphNode>, documents: Seq<Seq<char>>) -> Result<(), Seq<char>> {
    match first_link_problem(nodes, documents, nodes.len() as int) {
        Some(m) => Err(m),
        None => match first_orphan(nodes, documents, documents.len() as int) {
            Some(m) => Err(m),
            None => Ok(()),
        },
    }
}

proof fn lemma_link_problem_stays(nodes: Seq<TodoGraphNode>, documents: Seq<Seq<char>>, k: int, n: int)
    requires
        0 <= k <= n,
        first_link_problem(nodes, documents, k) is Some,
    ensures
        first_link_problem(nodes, documents, n) == first_link_problem(nodes, documents, k),
    decreases n - k,
{
    if k < n {
        lemma_link_problem_stays(nodes, documents, k, n - 1);
    }
}

proof fn lemma_orphan_stays(nodes: Seq<TodoGraphNode>, documents: Seq<Seq<char>>, k: int, n: int)
    requires
        0 <= k <= n,
        first_orphan(nodes, documents, k) is Some,
    ensures
        first_orphan(nodes, documents, n) == first_orphan(nodes, documents, k),
    decreases n - k,
{
    if k < n {
        lemma_orphan_stays(nodes, documents, k, n - 1);
    }
}

/// The position of the last node with the ID.
fn last_with_id(nodes: &Vec<TodoGraphNode>, id: &str) -> (r: Option<usize>)
    ensures
        r matches Some(i) ==> last_node_with(nodes@, id@, nodes@.len() as int) == Some(i as int),
        r is None ==> last_node_with(nodes@, id@, nodes@.len() as int) is None,
{
    let mut k = nodes.len();
    while k > 0
        invariant
            k <= nodes.len(),
            last_node_with(nodes@, id@, nodes@.len() as int) == last_node_with(nodes@, id@, k as int),
        decreases k,
    {
        if str_eq(nodes[k - 1].id.as_str(), id) {
            return Some(k - 1);
        }
        k -= 1;
    }
    None
}

/// Whether a list of strings holds the text.
fn holds(v: &Vec<String>, s: &str) -> (b: bool)
    ensures
        b == v@.map_values(|x: String| x@).contains(s@),
{
    let ghost vv = v@.map_values(|x: String| x@);
    let mut i: usize = 0;
    while i < v.len()
        invariant
            i <= v.len(),
            vv == v@.map_values(|x: String| x@),
            forall|j: int| 0 <= j < i ==> vv[j] != s@,
        decreases v.len() - i,
    {
        if str_eq(v[i].as_str(), s) {
            assert(vv[i as int] == s@);
            return true;
        }
        i += 1;
    }
    false
}

/// Checks that a flattened Todo graph and the aggregate's Todo documents match (see
/// `aggregate_links_spec`).
pub fn check_aggregate_links(nodes: &Vec<TodoGraphNode>, documents: &Vec<String>) -> (r: Result<(), String>)
    ensures
        match aggregate_links_spec(nodes@, documents@.map_values(|x: String| x@)) {
            Ok(_) => r is Ok,
            Err(m) => r matches Err(e) && e@ == m,
        },
{
    let ghost dv = documents@.map_values(|x: String| x@);
    let mut k: usize = 0;
    while k < nodes.len()
        invariant
            k <= nodes.len(),
            dv == documents@.map_values(|x: String| x@),
            first_link_problem(nodes@, dv, k as int) is None,
        decreases nodes.len() - k,
    {
        let node = &nodes[k];
        if last_with_id(nodes, node.id.as_str()) == Some(k) {
            let mut expected = to_string("todos/");
            push_str(&mut expected, node.id.as_str());
            push_str(&mut expected, ".md");
            if !str_eq(node.document.as_str(), expected.as_str()) {
                let mut m = to_string("Todo ");
                push_str(&mut m, node.id.as_str());
                push_str(&mut m, " must link to todos/");
                push_str(&mut m, node.id.as_str());
                push_str(&mut m, ".md");
                proof {
                    lemma_link_problem_stays(nodes@, dv, k + 1, nodes@.len() as int);
                }
                return Err(m);
            }
            if !holds(documents, node.id.as_str()) {
                let mut m = to_string("missing Todo document: ");
                push_str(&mut m, node.id.as_str());
                proof {
                    lemma_link_problem_stays(nodes@, dv, k + 1, nodes@.len() as int);
                }
                return Err(m);
            }
        }
        k += 1;
    }
    let mut j: usize = 0;
    while j < documents.len()
        invariant
            j <= documents.len(),
            dv == documents@.map_values(|x: String| x@),
            first_link_problem(nodes@, dv, nodes@.len() as int) is None,
            first_orphan(nodes@, dv, j as int) is None,
        decreases documents.len() - j,
    {
        assert(dv[j as int] == documents@[j as int]@);
        if last_with_id(nodes, documents[j].as_str()).is_none() {
            let mut m = to_string("orphan Todo document: ");
            push_str(&mut m, documents[j].as_str());
            proof {
                lemma_orphan_stays(nodes@, dv, j + 1, dv.len() as int);
            }
            return Err(m);
        }
        j += 1;
    }
    Ok(())
}

} // verus!
