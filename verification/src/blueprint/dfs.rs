//! The depth-first search that names the Todo at which a dependency cycle is found: Todos are
//! visited in order, each through its dependencies in order, and the first Todo reached again
//! while it is still being visited is named.
use vstd::prelude::*;

use crate::blueprint::model::Todo;

verus! {

/// The dependency positions of a list of positions' lists.
pub open spec fn graph_view(g: Seq<Vec<usize>>) -> Seq<Seq<int>> {
    g.map_values(|v: Vec<usize>| v@.map_values(|u: usize| u as int))
}

/// The positions that are set.
pub open spec fn set_of(v: Seq<bool>) -> Set<int> {
    Set::new(|i: int| 0 <= i < v.len() && v[i])
}

/// Visiting `x`: nothing to do when it was visited; the culprit when it is being visited;
/// else its dependencies are visited in order (with `x` being visited), and then it is
/// visited. `fuel` bounds the depth.
pub open spec fn dfs_visit(g: Seq<Seq<int>>, x: int, visiting: Set<int>, visited: Set<int>, fuel: nat) -> Result<
    Set<int>,
    int,
>
    decreases fuel, 0int,
{
    if visited.contains(x) {
        Ok(visited)
    } else if visiting.contains(x) {
        Err(x)
    } else if fuel == 0 {
        Ok(visited)
    } else {
        match dfs_deps(g, x, 0, visiting.insert(x), visited, (fuel - 1) as nat) {
            Err(c) => Err(c),
            Ok(v) => Ok(v.insert(x)),
        }
    }
}

/// Visiting the dependencies of `x` from the `k`th on.
pub open spec fn dfs_deps(g: Seq<Seq<int>>, x: int, k: int, visiting: Set<int>, visited: Set<int>, fuel: nat) -> Result<
    Set<int>,
    int,
>
    decreases fuel, if 0 <= x < g.len() && 0 <= k < g[x].len() { g[x].len() - k } else { 0 },
{
    if 0 <= x < g.len() && 0 <= k < g[x].len() {
        match dfs_visit(g, g[x][k], visiting, visited, fuel) {
            Err(c) => Err(c),
            Ok(v) => dfs_deps(g, x, k + 1, visiting, v, fuel),
        }
    } else {
        Ok(visited)
    }
}

/// The culprit of the search from the `i`th position on, if any.
pub open spec fn dfs_from(g: Seq<Seq<int>>, i: int, visited: Set<int>) -> Option<int>
    decreases g.len() - i,
{
    if i < 0 || i >= g.len() {
        None
    } else {
        match dfs_visit(g, i, Set::empty(), visited, g.len() as nat) {
            Err(c) => Some(c),
            Ok(v) => dfs_from(g, i + 1, v),
        }
    }
}

/// The position of the Todo with the ID.
pub open spec fn position_of(f: Seq<Todo>, id: Seq<char>) -> int {
    choose|j: int| 0 <= j < f.len() && f[j].id@ == id
}

/// The positions of the Todos each Todo depends on, in order.
pub open spec fn dependency_graph(f: Seq<Todo>) -> Seq<Seq<int>> {
    Seq::new(f.len(), |i: int| Seq::new(f[i].depends_on@.len(), |k: int| position_of(f, f[i].depends_on@[k]@)))
}

/// The Todo at which the search finds a dependency cycle, if it finds one.
pub open spec fn dfs_culprit(f: Seq<Todo>) -> Option<int> {
    dfs_from(dependency_graph(f), 0, Set::empty())
}

fn visit(g: &Vec<Vec<usize>>, x: usize, visiting: &mut Vec<bool>, visited: &mut Vec<bool>, fuel: usize) -> (r: Option<usize>)
    requires
        x < g.len(),
        crate::blueprint::validate::in_bounds(g@),
        old(visiting)@.len() == g.len(),
        old(visited)@.len() == g.len(),
    ensures
        final(visiting)@.len() == g.len(),
        final(visited)@.len() == g.len(),
        r matches Some(y) ==> y < g.len(),
        match dfs_visit(graph_view(g@), x as int, set_of(old(visiting)@), set_of(old(visited)@), fuel as nat) {
            Err(c) => r matches Some(y) && y as int == c,
            Ok(v) => r is None && set_of(final(visited)@) == v && final(visiting)@ == old(visiting)@,
        },
    decreases fuel, 0int,
{
    if visited[x] {
        return None;
    }
    if visiting[x] {
        return Some(x);
    }
    if fuel == 0 {
        return None;
    }
    let ghost before = visiting@;
    visiting.set(x, true);
    assert(set_of(visiting@) =~= set_of(before).insert(x as int));
    let r = deps(g, x, 0, visiting, visited, fuel - 1);
    if r.is_some() {
        return r;
    }
    let ghost vd = visited@;
    visiting.set(x, false);
    visited.set(x, true);
    assert(visiting@ =~= before);
    assert(set_of(visited@) =~= set_of(vd).insert(x as int));
    None
}

fn deps(
    g: &Vec<Vec<usize>>,
    x: usize,
    k: usize,
    visiting: &mut Vec<bool>,
    visited: &mut Vec<bool>,
    fuel: usize,
) -> (r: Option<usize>)
    requires
        x < g.len(),
        crate::blueprint::validate::in_bounds(g@),
        old(visiting)@.len() == g.len(),
        old(visited)@.len() == g.len(),
    ensures
        final(visiting)@.len() == g.len(),
        final(visited)@.len() == g.len(),
        r matches Some(y) ==> y < g.len(),
        match dfs_deps(graph_view(g@), x as int, k as int, set_of(old(visiting)@), set_of(old(visited)@), fuel as nat) {
            Err(c) => r matches Some(y) && y as int == c,
            Ok(v) => r is None && set_of(final(visited)@) == v && final(visiting)@ == old(visiting)@,
        },
    decreases fuel, if k < g@[x as int].len() { g@[x as int].len() - k } else { 0 },
{
    if k >= g[x].len() {
        return None;
    }
    let y = g[x][k];
    assert(graph_view(g@)[x as int][k as int] == y as int);
    let r = visit(g, y, visiting, visited, fuel);
    if r.is_some() {
        return r;
    }
    deps(g, x, k + 1, visiting, visited, fuel)
}

/// The position at which the search finds a dependency cycle (see `dfs_from`).
pub fn find_culprit(g: &Vec<Vec<usize>>) -> (r: Option<usize>)
    requires
        crate::blueprint::validate::in_bounds(g@),
    ensures
        r matches Some(y) ==> y < g.len(),
        match dfs_from(graph_view(g@), 0, Set::empty()) {
            Some(c) => r matches Some(y) && y as int == c,
            None => r is None,
        },
{
    let n = g.len();
    let mut visiting: Vec<bool> = Vec::new();
    let mut visited: Vec<bool> = Vec::new();
    let mut j: usize = 0;
    while j < n
        invariant
            j <= n,
            n == g.len(),
            visiting@.len() == j,
            visited@.len() == j,
            forall|q: int| 0 <= q < j ==> !visiting@[q] && !visited@[q],
        decreases n - j,
    {
        visiting.push(false);
        visited.push(false);
        j = j + 1;
    }
    assert(set_of(visited@) =~= Set::<int>::empty());
    let ghost gv = graph_view(g@);
    assert(gv.len() == n);
    let mut i: usize = 0;
    while i < n
        invariant
            i <= n,
            n == g.len(),
            gv == graph_view(g@),
            crate::blueprint::validate::in_bounds(g@),
            visiting@.len() == n,
            visited@.len() == n,
            forall|q: int| 0 <= q < n ==> !visiting@[q],
            dfs_from(gv, 0, Set::empty()) == dfs_from(gv, i as int, set_of(visited@)),
        decreases n - i,
    {
        assert(set_of(visiting@) =~= Set::<int>::empty());
        let r = visit(g, i, &mut visiting, &mut visited, n);
        if r.is_some() {
            return r;
        }
        i = i + 1;
    }
    None
}

/// The positions that a list of Todos with unique IDs resolves its dependencies to are the
/// positions of the Todos with those IDs.
pub proof fn lemma_graph_view(f: Seq<Todo>, g: Seq<Vec<usize>>)
    requires
        crate::blueprint::validate::resolves(f, g),
        crate::blueprint::validate::unique_ids(f),
    ensures
        graph_view(g) == dependency_graph(f),
{
    let a = graph_view(g);
    let b = dependency_graph(f);
    assert forall|i: int| 0 <= i < f.len() implies a[i] =~= b[i] by {
        assert forall|k: int| 0 <= k < a[i].len() implies a[i][k] == b[i][k] by {
            let j = g[i]@[k] as int;
            assert(f[j].id@ == f[i].depends_on@[k]@);
            let c = position_of(f, f[i].depends_on@[k]@);
            assert(0 <= c < f.len() && f[c].id@ == f[i].depends_on@[k]@);
            if c != j {
                if c < j {
                    assert(f[c].id@ != f[j].id@);
                } else {
                    assert(f[j].id@ != f[c].id@);
                }
            }
        }
    }
    assert(a =~= b);
}

} // verus!
