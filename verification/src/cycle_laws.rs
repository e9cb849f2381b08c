//! The search for import cycles misses none: a graph with a cycle has one
//! reported; and each cycle it reports passes no module twice and is
//! reported once.

use vstd::prelude::*;

use crate::index::{
    dfs_deps, dfs_roots, dfs_visit, distinct_graph, graph_deps, import_cycles, is_import_cycle, lemma_cycle_same_edges,
    lemma_distinct_graph_edges, lemma_reported_cycles_are_cycles, lemma_unvisited_bound, lemma_unvisited_mono, search_cycles, unvisited,
    DfsState,
};

verus! {

/// The search has left `u`: visited and no longer on the path.
pub open spec fn finished(st: DfsState, u: usize) -> bool {
    u < st.visited.len() && st.visited[u as int] && !st.stack.contains(u)
}

/// No module the search has left lies on a cycle of the graph.
pub open spec fn no_finished_on_cycle(g: Seq<Seq<usize>>, st: DfsState) -> bool {
    forall|c: Seq<usize>, i: int| #![trigger is_import_cycle(g, c), c[i]]
        is_import_cycle(g, c) && 0 <= i < c.len() ==> !finished(st, c[i])
}

/// The modules on the path have been visited.
pub open spec fn path_visited(st: DfsState) -> bool {
    forall|i: int| 0 <= i < st.stack.len() ==> st.stack[i] < st.visited.len() && st.visited[st.stack[i] as int]
}

/// What a later state keeps of an earlier one: the path, what was
/// visited, and the cycles found.
pub open spec fn grows(st: DfsState, r: DfsState) -> bool {
    &&& r.stack == st.stack
    &&& r.visited.len() == st.visited.len()
    &&& forall|i: int| 0 <= i < st.visited.len() && st.visited[i] ==> r.visited[i]
    &&& r.cycles.len() >= st.cycles.len()
}

/// On a cycle, the module after the one at `i` is one it imports from.
proof fn lemma_cycle_successor(g: Seq<Seq<usize>>, c: Seq<usize>, i: int)
    requires
        is_import_cycle(g, c),
        0 <= i < c.len(),
    ensures
        graph_deps(g, c[i]).contains(c[if i + 1 < c.len() { i + 1 } else { 0 }]),
{
    if i + 1 < c.len() {
        assert(graph_deps(g, c[i]).contains(c[i + 1]));
    } else {
        assert(c[i] == c.last());
    }
}

proof fn lemma_visit_no_miss(g: Seq<Seq<usize>>, node: usize, st: DfsState, fuel: nat)
    requires
        node < g.len(),
        st.visited.len() == g.len(),
        !st.visited[node as int],
        fuel > unvisited(st.visited),
        path_visited(st),
        st.cycles.len() == 0 ==> no_finished_on_cycle(g, st),
    ensures
        grows(st, dfs_visit(g, node, st, fuel)),
        dfs_visit(g, node, st, fuel).visited[node as int],
        dfs_visit(g, node, st, fuel).cycles.len() == 0 ==> no_finished_on_cycle(g, dfs_visit(g, node, st, fuel)),
    decreases fuel, 1nat, 0int,
{
    let st1 = DfsState { visited: st.visited.update(node as int, true), stack: st.stack.push(node), cycles: st.cycles };
    lemma_unvisited_mono(st.visited, st1.visited, node as int);
    assert(!st.stack.contains(node));
    assert(path_visited(st1)) by {
        assert forall|i: int| 0 <= i < st1.stack.len() implies st1.stack[i] < st1.visited.len() && st1.visited[st1.stack[i] as int] by {
            if i < st.stack.len() {
                assert(st1.stack[i] == st.stack[i]);
            }
        }
    }
    assert(st1.cycles.len() == 0 ==> no_finished_on_cycle(g, st1)) by {
        if st1.cycles.len() == 0 {
            assert forall|c: Seq<usize>, i: int| #![trigger is_import_cycle(g, c), c[i]]
                is_import_cycle(g, c) && 0 <= i < c.len() implies !finished(st1, c[i]) by {
                if c[i] != node {
                    assert(!finished(st, c[i]));
                    if st.stack.contains(c[i]) {
                        let j = choose|j: int| 0 <= j < st.stack.len() && st.stack[j] == c[i];
                        assert(st1.stack[j] == c[i]);
                    }
                } else {
                    assert(st1.stack[st1.stack.len() - 1] == node);
                }
            }
        }
    }
    lemma_deps_no_miss(g, node, 0, st1, fuel);
    let st2 = dfs_deps(g, node, 0, st1, fuel);
    let r = DfsState { visited: st2.visited, stack: st2.stack.drop_last(), cycles: st2.cycles };
    assert(st2.stack.drop_last() =~= st.stack);
    assert(r == dfs_visit(g, node, st, fuel));
    if r.cycles.len() == 0 {
        assert forall|c: Seq<usize>, i: int| #![trigger is_import_cycle(g, c), c[i]]
            is_import_cycle(g, c) && 0 <= i < c.len() implies !finished(r, c[i]) by {
            if c[i] == node {
                let k = if i + 1 < c.len() { i + 1 } else { 0 };
                lemma_cycle_successor(g, c, i);
                let w = c[k];
                let j = choose|j: int| 0 <= j < graph_deps(g, node).len() && graph_deps(g, node)[j] == w;
                assert(finished(st2, graph_deps(g, node)[j]));
                assert(!finished(st2, c[k]));
            } else {
                assert(!finished(st2, c[i]));
                if st2.stack.contains(c[i]) {
                    let j = choose|j: int| 0 <= j < st2.stack.len() && st2.stack[j] == c[i];
                    assert(j < st2.stack.len() - 1);
                    assert(r.stack[j] == c[i]);
                }
            }
        }
    }
}

proof fn lemma_deps_no_miss(g: Seq<Seq<usize>>, node: usize, k: int, st: DfsState, fuel: nat)
    requires
        node < g.len(),
        st.visited.len() == g.len(),
        st.visited[node as int],
        st.stack.len() > 0,
        st.stack.last() == node,
        unvisited(st.visited) + 1 < fuel,
        path_visited(st),
        st.cycles.len() == 0 ==> no_finished_on_cycle(g, st),
        0 <= k,
    ensures
        grows(st, dfs_deps(g, node, k, st, fuel)),
        dfs_deps(g, node, k, st, fuel).cycles.len() == 0 ==> no_finished_on_cycle(g, dfs_deps(g, node, k, st, fuel))
            && forall|j: int| k <= j < graph_deps(g, node).len() && #[trigger] graph_deps(g, node)[j] < g.len()
            ==> finished(dfs_deps(g, node, k, st, fuel), graph_deps(g, node)[j]),
    decreases fuel, 0nat, graph_deps(g, node).len() - k,
{
    if k >= graph_deps(g, node).len() {
    } else {
        let dep = graph_deps(g, node)[k];
        let st2 = if dep >= g.len() || dep >= st.visited.len() {
            st
        } else if !st.visited[dep as int] {
            dfs_visit(g, dep, st, (fuel - 1) as nat)
        } else if st.stack.contains(dep) {
            DfsState {
                visited: st.visited,
                stack: st.stack,
                cycles: st.cycles.push(st.stack.subrange(crate::index::first_position(st.stack, dep), st.stack.len() as int)),
            }
        } else {
            st
        };
        if dep >= g.len() || dep >= st.visited.len() {
        } else if !st.visited[dep as int] {
            lemma_visit_no_miss(g, dep, st, (fuel - 1) as nat);
            assert(!st.stack.contains(dep));
        }
        assert(grows(st, st2));
        lemma_unvisited_mono(st.visited, st2.visited, 0);
        assert(path_visited(st2)) by {
            assert forall|i: int| 0 <= i < st2.stack.len() implies st2.stack[i] < st2.visited.len() && st2.visited[st2.stack[i] as int] by {
                assert(st2.stack[i] == st.stack[i]);
            }
        }
        lemma_deps_no_miss(g, node, k + 1, st2, fuel);
        let r = dfs_deps(g, node, k + 1, st2, fuel);
        assert(r == dfs_deps(g, node, k, st, fuel));
        if r.cycles.len() == 0 {
            assert forall|j: int| k <= j < graph_deps(g, node).len() && #[trigger] graph_deps(g, node)[j] < g.len()
                implies finished(r, graph_deps(g, node)[j]) by {
                if j == k {
                    assert(st2.cycles.len() == 0);
                    assert(finished(st2, dep));
                    assert(r.stack == st2.stack);
                }
            }
        }
    }
}

/// The search from the roots before `k`: nothing on the path, and every
/// one of those roots visited.
proof fn lemma_roots_no_miss(g: Seq<Seq<usize>>, k: nat)
    requires
        k <= g.len(),
        g.len() <= usize::MAX,
    ensures
        dfs_roots(g, k).stack.len() == 0,
        dfs_roots(g, k).visited.len() == g.len(),
        forall|u: int| 0 <= u < k ==> dfs_roots(g, k).visited[u],
        dfs_roots(g, k).cycles.len() == 0 ==> no_finished_on_cycle(g, dfs_roots(g, k)),
    decreases k,
{
    if k > 0 {
        lemma_roots_no_miss(g, (k - 1) as nat);
        let st = dfs_roots(g, (k - 1) as nat);
        assert(((k - 1) as usize) as int == k - 1);
        if (k - 1) < st.visited.len() && !st.visited[k - 1] {
            lemma_unvisited_bound(st.visited);
            lemma_visit_no_miss(g, (k - 1) as usize, st, (g.len() + 1) as nat);
            let r = dfs_visit(g, (k - 1) as usize, st, (g.len() + 1) as nat);
            assert(r.stack.len() == 0);
        }
    } else {
        let st = dfs_roots(g, 0);
        assert forall|c: Seq<usize>, i: int| #![trigger is_import_cycle(g, c), c[i]]
            is_import_cycle(g, c) && 0 <= i < c.len() implies !finished(st, c[i]) by {
            assert(!st.visited[c[i] as int]);
        }
    }
}

/// The search misses no cycle: when the import graph (of at most as many
/// modules as a machine can index) has a cycle, at least one cycle is
/// reported.
pub proof fn lemma_cycle_is_reported(g: Seq<Seq<usize>>, c: Seq<usize>)
    requires
        g.len() <= usize::MAX,
        is_import_cycle(g, c),
    ensures
        import_cycles(g).len() > 0,
{
    lemma_cycle_same_edges(g, c);
    lemma_distinct_graph_edges(g);
    lemma_search_misses_none(distinct_graph(g), c);
}

proof fn lemma_search_misses_none(g: Seq<Seq<usize>>, c: Seq<usize>)
    requires
        g.len() <= usize::MAX,
        is_import_cycle(g, c),
    ensures
        search_cycles(g).len() > 0,
{
    lemma_roots_no_miss(g, g.len());
    let st = dfs_roots(g, g.len());
    if st.cycles.len() == 0 {
        assert(st.visited[c[0] as int]);
        assert(!st.stack.contains(c[0]));
        assert(finished(st, c[0]));
        assert(!finished(st, c[0]));
    }
}

/// The search reports a cycle exactly when the import graph has one.
pub proof fn lemma_cycle_reported_iff_cyclic(g: Seq<Seq<usize>>)
    requires
        g.len() <= usize::MAX,
    ensures
        import_cycles(g).len() > 0 <==> exists|c: Seq<usize>| #[trigger] is_import_cycle(g, c),
{
    if import_cycles(g).len() > 0 {
        lemma_reported_cycles_are_cycles(g);
        assert(is_import_cycle(g, import_cycles(g)[0]));
    }
    if exists|c: Seq<usize>| #[trigger] is_import_cycle(g, c) {
        let c = choose|c: Seq<usize>| #[trigger] is_import_cycle(g, c);
        lemma_cycle_is_reported(g, c);
    }
}

/// No module imports from another twice: each module's list of the
/// modules it imports from has no repeats.
pub open spec fn deps_distinct(g: Seq<Seq<usize>>) -> bool {
    forall|u: int, i: int, j: int| 0 <= u < g.len() && 0 <= i < j < g[u].len() ==> #[trigger] g[u][i] != #[trigger] g[u][j]
}

/// The cycles found so far: each a non-empty list of modules without
/// repeats, ending at a module already visited; and no two alike.
pub open spec fn cycles_simple(st: DfsState) -> bool {
    &&& forall|i: int| #![trigger st.cycles[i]] 0 <= i < st.cycles.len() ==> st.cycles[i].len() > 0
        && st.cycles[i].no_duplicates() && st.cycles[i].last() < st.visited.len() && st.visited[st.cycles[i].last() as int]
    &&& forall|i: int, j: int| 0 <= i < j < st.cycles.len() ==> #[trigger] st.cycles[i] != #[trigger] st.cycles[j]
}

/// What a later state keeps of an earlier one, with the cycles found
/// before still first in the list.
pub open spec fn extends(st: DfsState, r: DfsState) -> bool {
    &&& r.stack == st.stack
    &&& r.visited.len() == st.visited.len()
    &&& forall|i: int| 0 <= i < st.visited.len() && st.visited[i] ==> r.visited[i]
    &&& r.cycles.len() >= st.cycles.len()
    &&& forall|i: int| 0 <= i < st.cycles.len() ==> r.cycles[i] == st.cycles[i]
}

proof fn lemma_visit_simple(g: Seq<Seq<usize>>, node: usize, st: DfsState, fuel: nat)
    requires
        node < g.len(),
        st.visited.len() == g.len(),
        !st.visited[node as int],
        path_visited(st),
        st.stack.no_duplicates(),
        cycles_simple(st),
        deps_distinct(g),
    ensures
        extends(st, dfs_visit(g, node, st, fuel)),
        cycles_simple(dfs_visit(g, node, st, fuel)),
        forall|i: int| st.cycles.len() <= i < dfs_visit(g, node, st, fuel).cycles.len() ==> !st.visited[
            #[trigger] dfs_visit(g, node, st, fuel).cycles[i].last() as int],
    decreases fuel, 1nat, 0int,
{
    if fuel > 0 {
        let st1 = DfsState { visited: st.visited.update(node as int, true), stack: st.stack.push(node), cycles: st.cycles };
        assert(!st.stack.contains(node));
        assert(path_visited(st1)) by {
            assert forall|i: int| 0 <= i < st1.stack.len() implies st1.stack[i] < st1.visited.len() && st1.visited[st1.stack[i] as int] by {
                if i < st.stack.len() {
                    assert(st1.stack[i] == st.stack[i]);
                }
            }
        }
        assert(st1.stack.no_duplicates()) by {
            assert forall|i: int, j: int| 0 <= i < st1.stack.len() && 0 <= j < st1.stack.len() && i != j implies st1.stack[i] != st1.stack[j] by {
                if i < st.stack.len() && j < st.stack.len() {
                } else if i < st.stack.len() {
                    assert(st.stack.contains(st.stack[i]));
                } else if j < st.stack.len() {
                    assert(st.stack.contains(st.stack[j]));
                }
            }
        }
        assert(cycles_simple(st1));
        assert forall|i: int| 0 <= i < st1.cycles.len() && #[trigger] st1.cycles[i].last() == node implies exists|j: int|
            0 <= j < 0 && j < graph_deps(g, node).len() && st1.cycles[i][0] == graph_deps(g, node)[j] by {
            assert(st.visited[st.cycles[i].last() as int]);
        }
        lemma_deps_simple(g, node, 0, st1, fuel);
        let st2 = dfs_deps(g, node, 0, st1, fuel);
        let r = DfsState { visited: st2.visited, stack: st2.stack.drop_last(), cycles: st2.cycles };
        assert(st2.stack.drop_last() =~= st.stack);
        assert(r == dfs_visit(g, node, st, fuel));
        assert forall|i: int| st.cycles.len() <= i < r.cycles.len() implies !st.visited[#[trigger] r.cycles[i].last() as int] by {
            if r.cycles[i].last() != node {
                assert(!st1.visited[r.cycles[i].last() as int]);
            }
        }
    }
}

proof fn lemma_deps_simple(g: Seq<Seq<usize>>, node: usize, k: int, st: DfsState, fuel: nat)
    requires
        node < g.len(),
        st.visited.len() == g.len(),
        st.visited[node as int],
        st.stack.len() > 0,
        st.stack.last() == node,
        path_visited(st),
        st.stack.no_duplicates(),
        cycles_simple(st),
        deps_distinct(g),
        0 <= k,
        forall|i: int| 0 <= i < st.cycles.len() && #[trigger] st.cycles[i].last() == node ==> exists|j: int|
            0 <= j < k && j < graph_deps(g, node).len() && st.cycles[i][0] == graph_deps(g, node)[j],
    ensures
        extends(st, dfs_deps(g, node, k, st, fuel)),
        cycles_simple(dfs_deps(g, node, k, st, fuel)),
        forall|i: int| st.cycles.len() <= i < dfs_deps(g, node, k, st, fuel).cycles.len() ==> (#[trigger] dfs_deps(
            g,
            node,
            k,
            st,
            fuel,
        ).cycles[i]).last() == node || !st.visited[dfs_deps(g, node, k, st, fuel).cycles[i].last() as int],
    decreases fuel, 0nat, graph_deps(g, node).len() - k,
{
    if fuel == 0 || k >= graph_deps(g, node).len() {
    } else {
        let deps = graph_deps(g, node);
        let dep = deps[k];
        let st2 = if dep >= g.len() || dep >= st.visited.len() {
            st
        } else if !st.visited[dep as int] {
            dfs_visit(g, dep, st, (fuel - 1) as nat)
        } else if st.stack.contains(dep) {
            DfsState {
                visited: st.visited,
                stack: st.stack,
                cycles: st.cycles.push(st.stack.subrange(crate::index::first_position(st.stack, dep), st.stack.len() as int)),
            }
        } else {
            st
        };
        if dep >= g.len() || dep >= st.visited.len() {
        } else if !st.visited[dep as int] {
            lemma_visit_simple(g, dep, st, (fuel - 1) as nat);
        } else if st.stack.contains(dep) {
            crate::index::lemma_first_position(st.stack, dep);
            let fp = crate::index::first_position(st.stack, dep);
            let c = st.stack.subrange(fp, st.stack.len() as int);
            assert(c.last() == node);
            assert(c[0] == dep);
            assert(c.no_duplicates()) by {
                assert forall|i: int, j: int| 0 <= i < c.len() && 0 <= j < c.len() && i != j implies c[i] != c[j] by {
                    assert(c[i] == st.stack[fp + i] && c[j] == st.stack[fp + j]);
                }
            }
            assert forall|i: int| 0 <= i < st.cycles.len() implies st.cycles[i] != c by {
                if st.cycles[i].last() == node {
                    let j = choose|j: int| 0 <= j < k && j < deps.len() && st.cycles[i][0] == deps[j];
                    assert(deps[j] != deps[k]);
                }
            }
            assert(st2.cycles[st.cycles.len() as int] == c);
            assert(cycles_simple(st2)) by {
                assert forall|i: int, j: int| 0 <= i < j < st2.cycles.len() implies #[trigger] st2.cycles[i] != #[trigger] st2.cycles[j] by {
                    if j < st.cycles.len() {
                        assert(st2.cycles[i] == st.cycles[i] && st2.cycles[j] == st.cycles[j]);
                    } else {
                        assert(st2.cycles[i] == st.cycles[i]);
                    }
                }
                assert forall|i: int| #![trigger st2.cycles[i]] 0 <= i < st2.cycles.len() implies st2.cycles[i].len() > 0
                    && st2.cycles[i].no_duplicates() && st2.cycles[i].last() < st2.visited.len() && st2.visited[st2.cycles[i].last() as int] by {
                    if i < st.cycles.len() {
                        assert(st2.cycles[i] == st.cycles[i]);
                    }
                }
            }
        }
        assert(extends(st, st2));
        assert forall|i: int| st.cycles.len() <= i < st2.cycles.len() implies (#[trigger] st2.cycles[i]).last() == node
            || !st.visited[st2.cycles[i].last() as int] by {}
        assert(path_visited(st2)) by {
            assert forall|i: int| 0 <= i < st2.stack.len() implies st2.stack[i] < st2.visited.len() && st2.visited[st2.stack[i] as int] by {
                assert(st2.stack[i] == st.stack[i]);
            }
        }
        assert forall|i: int| 0 <= i < st2.cycles.len() && #[trigger] st2.cycles[i].last() == node implies exists|j: int|
            0 <= j < k + 1 && j < deps.len() && st2.cycles[i][0] == deps[j] by {
            if i < st.cycles.len() {
                assert(st2.cycles[i] == st.cycles[i]);
                let j = choose|j: int| 0 <= j < k && j < deps.len() && st.cycles[i][0] == deps[j];
            } else {
                assert(st.visited[node as int]);
                assert(st2.cycles[i][0] == deps[k]);
            }
        }
        lemma_deps_simple(g, node, k + 1, st2, fuel);
        let r = dfs_deps(g, node, k + 1, st2, fuel);
        assert(r == dfs_deps(g, node, k, st, fuel));
        assert forall|i: int| st.cycles.len() <= i < r.cycles.len() implies (#[trigger] r.cycles[i]).last() == node
            || !st.visited[r.cycles[i].last() as int] by {
            if i < st2.cycles.len() {
                assert(r.cycles[i] == st2.cycles[i]);
            } else if r.cycles[i].last() != node {
                assert(!st2.visited[r.cycles[i].last() as int]);
            }
        }
    }
}

proof fn lemma_roots_simple(g: Seq<Seq<usize>>, k: nat)
    requires
        k <= g.len(),
        g.len() <= usize::MAX,
        deps_distinct(g),
    ensures
        dfs_roots(g, k).stack.len() == 0,
        dfs_roots(g, k).visited.len() == g.len(),
        cycles_simple(dfs_roots(g, k)),
    decreases k,
{
    if k > 0 {
        lemma_roots_simple(g, (k - 1) as nat);
        let st = dfs_roots(g, (k - 1) as nat);
        assert(((k - 1) as usize) as int == k - 1);
        assert(st.stack =~= Seq::<usize>::empty());
        if (k - 1) < st.visited.len() && !st.visited[k - 1] {
            lemma_visit_simple(g, (k - 1) as usize, st, (g.len() + 1) as nat);
        }
    }
}

/// No reported cycle passes a module twice, and no cycle is reported twice,
/// even where a module lists one import source more than once.
pub proof fn lemma_reported_cycles_simple(g: Seq<Seq<usize>>)
    requires
        g.len() <= usize::MAX,
    ensures
        forall|i: int| 0 <= i < import_cycles(g).len() ==> (#[trigger] import_cycles(g)[i]).no_duplicates(),
        forall|i: int, j: int| 0 <= i < j < import_cycles(g).len() ==> #[trigger] import_cycles(g)[i] != #[trigger] import_cycles(g)[j],
{
    let d = distinct_graph(g);
    lemma_distinct_graph_edges(g);
    assert(deps_distinct(d)) by {
        assert forall|u: int, i: int, j: int| 0 <= u < d.len() && 0 <= i < j < d[u].len() implies #[trigger] d[u][i] != #[trigger] d[u][j] by {
            assert(d[u].no_duplicates());
        }
    }
    lemma_roots_simple(d, d.len());
}

} // verus!
