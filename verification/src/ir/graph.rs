//! Control-flow graphs over small integer handles: which node reaches
//! which, and which node dominates which.
use vstd::prelude::*;

verus! {

/// The successors of each node, as sequences.
pub open spec fn edges(g: Seq<Vec<usize>>) -> Seq<Seq<usize>> {
    g.map_values(|v: Vec<usize>| v@)
}

/// Every successor is a node of the graph.
pub open spec fn closed_graph(g: Seq<Seq<usize>>) -> bool {
    forall|a: int, k: int| 0 <= a < g.len() && 0 <= k < g[a].len() ==> (#[trigger] g[a][k]) < g.len()
}

/// Whether the graph has an edge from `a` to `b`.
pub open spec fn is_edge(g: Seq<Seq<usize>>, a: int, b: int) -> bool {
    0 <= a < g.len() && exists|k: int| 0 <= k < g[a].len() && #[trigger] g[a][k] == b
}

/// Whether `p` is a path of the graph: a run of nodes, each joined to the
/// next by an edge.
pub open spec fn is_path(g: Seq<Seq<usize>>, p: Seq<int>) -> bool {
    &&& p.len() > 0
    &&& forall|i: int| 0 <= i < p.len() ==> 0 <= #[trigger] p[i] < g.len()
    &&& forall|i: int| 0 <= i < p.len() - 1 ==> is_edge(g, #[trigger] p[i], p[i + 1])
}

/// Whether `p` is a path from `from` to `to`.
pub open spec fn joins(g: Seq<Seq<usize>>, p: Seq<int>, from: int, to: int) -> bool {
    is_path(g, p) && p[0] == from && p.last() == to
}

/// Whether some path leads from `from` to `to` without touching `avoid`.
/// With the number of nodes for `avoid` nothing is avoided.
pub open spec fn reaches(g: Seq<Seq<usize>>, from: int, to: int, avoid: int) -> bool {
    exists|p: Seq<int>| joins(g, p, from, to) && !#[trigger] p.contains(avoid)
}

/// Whether some path leads from `from` to `to`.
pub open spec fn reachable(g: Seq<Seq<usize>>, from: int, to: int) -> bool {
    reaches(g, from, to, g.len() as int)
}

/// Whether `d` dominates `n`: `n` can be reached from `entry`, and every
/// path from `entry` to `n` goes through `d`.
pub open spec fn dominates(g: Seq<Seq<usize>>, entry: int, d: int, n: int) -> bool {
    reachable(g, entry, n) && forall|p: Seq<int>| #[trigger] joins(g, p, entry, n) ==> p.contains(d)
}

/// A node dominates another exactly when the other can be reached, but not
/// without touching the first.
pub proof fn dominates_is_unavoidable(g: Seq<Seq<usize>>, entry: int, d: int, n: int)
    requires
        0 <= d < g.len(),
    ensures
        dominates(g, entry, d, n) <==> (reachable(g, entry, n) && (d == n || !reaches(
            g,
            entry,
            n,
            d,
        ))),
{
    if reachable(g, entry, n) {
        if d == n {
            assert forall|p: Seq<int>| #[trigger] joins(g, p, entry, n) implies p.contains(d) by {
                assert(p[p.len() - 1] == d);
            }
        } else {
            if dominates(g, entry, d, n) && reaches(g, entry, n, d) {
                let p = choose|p: Seq<int>| joins(g, p, entry, n) && !#[trigger] p.contains(d);
                assert(p.contains(d));
            }
            if !reaches(g, entry, n, d) {
                assert forall|p: Seq<int>| #[trigger] joins(g, p, entry, n) implies p.contains(
                    d,
                ) by {
                    if !p.contains(d) {
                        assert(joins(g, p, entry, n) && !p.contains(d));
                    }
                }
            }
        }
    }
}

/// A path can be made longer by an edge.
pub proof fn path_extends(g: Seq<Seq<usize>>, p: Seq<int>, b: int, avoid: int)
    requires
        is_path(g, p),
        is_edge(g, p.last(), b),
        0 <= b < g.len(),
        !p.contains(avoid),
        b != avoid,
    ensures
        is_path(g, p.push(b)),
        p.push(b)[0] == p[0],
        p.push(b).last() == b,
        !p.push(b).contains(avoid),
{
    let q = p.push(b);
    assert forall|i: int| 0 <= i < q.len() - 1 implies is_edge(g, #[trigger] q[i], q[i + 1]) by {
        if i < p.len() - 1 {
            assert(q[i] == p[i]);
            assert(q[i + 1] == p[i + 1]);
        } else {
            assert(q[i] == p.last());
        }
    }
    if q.contains(avoid) {
        let i = choose|i: int| 0 <= i < q.len() && q[i] == avoid;
        if i < p.len() {
            assert(p[i] == avoid);
        }
    }
}

/// How many nodes have not been visited.
pub open spec fn unvisited(visited: Seq<bool>) -> nat
    decreases visited.len(),
{
    if visited.len() == 0 {
        0
    } else {
        unvisited(visited.drop_last()) + if visited.last() {
            0nat
        } else {
            1nat
        }
    }
}

proof fn visiting_counts(visited: Seq<bool>, i: int)
    requires
        0 <= i < visited.len(),
        !visited[i],
    ensures
        unvisited(visited.update(i, true)) + 1 == unvisited(visited),
    decreases visited.len(),
{
    let after = visited.update(i, true);
    if i == visited.len() - 1 {
        assert(after.drop_last() =~= visited.drop_last());
    } else {
        assert(after.drop_last() =~= visited.drop_last().update(i, true));
        visiting_counts(visited.drop_last(), i);
    }
}

/// A set of nodes that holds `from` and, with each node, its successors
/// other than `avoid`, holds every node that `from` reaches without
/// touching `avoid`.
proof fn closed_set_holds_paths(
    g: Seq<Seq<usize>>,
    visited: Seq<bool>,
    p: Seq<int>,
    avoid: int,
    i: int,
)
    requires
        is_path(g, p),
        visited.len() == g.len(),
        visited[p[0]],
        !p.contains(avoid),
        forall|m: int, k: int|
            0 <= m < g.len() && visited[m] && 0 <= k < g[m].len() && (#[trigger] g[m][k]) != avoid
                ==> visited[g[m][k] as int],
        0 <= i < p.len(),
    ensures
        visited[p[i]],
    decreases i,
{
    if i > 0 {
        closed_set_holds_paths(g, visited, p, avoid, i - 1);
        assert(is_edge(g, p[i - 1], p[i]));
        let k = choose|k: int| 0 <= k < g[p[i - 1]].len() && #[trigger] g[p[i - 1]][k] == p[i];
        assert(p.contains(p[i]));
        assert(g[p[i - 1]][k] != avoid);
    }
}

fn all_false(n: usize) -> (v: Vec<bool>)
    ensures
        v@.len() == n,
        forall|i: int| 0 <= i < n ==> !v@[i],
{
    let mut v: Vec<bool> = Vec::new();
    while v.len() < n
        invariant
            v@.len() <= n,
            forall|i: int| 0 <= i < v@.len() ==> !v@[i],
        decreases n - v@.len(),
    {
        v.push(false);
    }
    v
}

/// Marks the nodes that `from` reaches without touching `avoid`. With the
/// number of nodes for `avoid` nothing is avoided.
pub fn reachable_from(g: &Vec<Vec<usize>>, from: usize, avoid: usize) -> (visited: Vec<bool>)
    requires
        closed_graph(edges(g@)),
        from < g@.len(),
    ensures
        visited@.len() == g@.len(),
        forall|n: int|
            0 <= n < g@.len() ==> (visited@[n] <==> reaches(edges(g@), from as int, n, avoid as int)),
{
    let n = g.len();
    let ghost e = edges(g@);
    let mut visited = all_false(n);
    if from == avoid {
        proof {
            assert forall|m: int| 0 <= m < n implies !reaches(e, from as int, m, avoid as int) by {
                if reaches(e, from as int, m, avoid as int) {
                    let p = choose|p: Seq<int>|
                        joins(e, p, from as int, m) && !#[trigger] p.contains(avoid as int);
                    assert(p[0] == avoid);
                    assert(p.contains(avoid as int));
                }
            }
        }
        return visited;
    }
    visited.set(from, true);
    let mut stack: Vec<usize> = Vec::new();
    stack.push(from);
    proof {
        let p = seq![from as int];
        assert(joins(e, p, from as int, from as int));
        if p.contains(avoid as int) {
            let i = choose|i: int| 0 <= i < p.len() && p[i] == avoid;
            assert(false);
        }
        assert(reaches(e, from as int, from as int, avoid as int));
        assert(stack@[0] == from);
    }
    while stack.len() > 0
        invariant
            n == g@.len(),
            e == edges(g@),
            closed_graph(e),
            from < n,
            from != avoid,
            visited@.len() == n,
            visited@[from as int],
            forall|i: int| 0 <= i < stack@.len() ==> (#[trigger] stack@[i]) < n && visited@[stack@[i] as int],
            forall|m: int| 0 <= m < n && visited@[m] ==> reaches(e, from as int, m, avoid as int),
            forall|m: int, k: int|
                0 <= m < n && visited@[m] && !stack@.contains(m as usize) && 0 <= k < e[m].len() && (
                #[trigger] e[m][k]) != avoid ==> visited@[e[m][k] as int],
        decreases unvisited(visited@), stack@.len(),
    {
        let ghost stack_before = stack@;
        let ghost visited_before = visited@;
        let a = stack.pop().unwrap();
        let ghost rest = stack@;
        assert(a == stack_before[stack_before.len() - 1]);
        assert(e[a as int] == g@[a as int]@);
        proof {
            assert forall|m: usize| m != a && !#[trigger] rest.contains(m) implies !stack_before.contains(
                m,
            ) by {
                if stack_before.contains(m) {
                    let i = choose|i: int| 0 <= i < stack_before.len() && stack_before[i] == m;
                    if i < rest.len() {
                        assert(rest[i] == m);
                    }
                }
            }
            assert forall|i: int| 0 <= i < rest.len() implies (#[trigger] rest[i]) < n && visited@[rest[i] as int] by {
                assert(rest[i] == stack_before[i]);
            }
        }
        let mut k: usize = 0;
        while k < g[a].len()
            invariant
                n == g@.len(),
                e == edges(g@),
                closed_graph(e),
                from < n,
                from != avoid,
                a < n,
                e[a as int] == g@[a as int]@,
                k <= g@[a as int]@.len(),
                visited@.len() == n,
                visited@[from as int],
                visited@[a as int],
                rest.len() <= stack@.len(),
                unvisited(visited@) + (stack@.len() - rest.len()) == unvisited(visited_before),
                forall|i: int| 0 <= i < stack@.len() ==> (#[trigger] stack@[i]) < n && visited@[stack@[i] as int],
                forall|m: int| 0 <= m < n && visited@[m] ==> reaches(e, from as int, m, avoid as int),
                forall|j: int| 0 <= j < k && (#[trigger] e[a as int][j]) != avoid ==> visited@[e[a as int][j] as int],
                forall|m: int, j: int|
                    0 <= m < n && m != a && visited@[m] && !stack@.contains(m as usize) && 0 <= j
                        < e[m].len() && (#[trigger] e[m][j]) != avoid ==> visited@[e[m][j] as int],
            decreases g@[a as int]@.len() - k,
        {
            let b = g[a][k];
            assert(b == e[a as int][k as int]);
            assert(b < n);
            if b != avoid && !visited[b] {
                let ghost visited_old = visited@;
                let ghost stack_old = stack@;
                proof {
                    visiting_counts(visited@, b as int);
                    let p = choose|p: Seq<int>|
                        joins(e, p, from as int, a as int) && !#[trigger] p.contains(avoid as int);
                    assert(is_edge(e, a as int, b as int));
                    path_extends(e, p, b as int, avoid as int);
                    assert(joins(e, p.push(b as int), from as int, b as int));
                    assert(reaches(e, from as int, b as int, avoid as int));
                }
                visited.set(b, true);
                stack.push(b);
                proof {
                    assert(stack@[stack_old.len() as int] == b);
                    assert forall|m: int, j: int|
                        0 <= m < n && m != a && visited@[m] && !stack@.contains(m as usize) && 0
                            <= j < e[m].len() && (#[trigger] e[m][j]) != avoid implies visited@[e[m][j] as int] by {
                        assert(m != b) by {
                            if m == b {
                                assert(stack@.contains(b));
                            }
                        }
                        assert(visited_old[m]);
                        if stack_old.contains(m as usize) {
                            let i = choose|i: int| 0 <= i < stack_old.len() && stack_old[i] == m;
                            assert(stack@[i] == m);
                        }
                        assert(visited_old[e[m][j] as int]);
                    }
                }
            }
            k += 1;
        }
        proof {
            assert forall|m: int, j: int|
                0 <= m < n && visited@[m] && !stack@.contains(m as usize) && 0 <= j < e[m].len() && (
                #[trigger] e[m][j]) != avoid implies visited@[e[m][j] as int] by {
                if m == a {
                } else {
                }
            }
            assert(stack_before.len() == rest.len() + 1);
        }
    }
    proof {
        assert forall|m: int| 0 <= m < n implies (visited@[m] <==> reaches(
            e,
            from as int,
            m,
            avoid as int,
        )) by {
            if reaches(e, from as int, m, avoid as int) {
                let p = choose|p: Seq<int>|
                    joins(e, p, from as int, m) && !#[trigger] p.contains(avoid as int);
                assert forall|x: int, j: int|
                    0 <= x < e.len() && visited@[x] && 0 <= j < e[x].len() && (#[trigger] e[x][j])
                        != avoid implies visited@[e[x][j] as int] by {
                    assert(!stack@.contains(x as usize));
                }
                closed_set_holds_paths(e, visited@, p, avoid as int, p.len() - 1);
            }
        }
    }
    visited
}

/// For each pair of nodes, whether the first reaches the second.
pub open spec fn reach_matrix(g: Seq<Seq<usize>>) -> Seq<Seq<bool>> {
    Seq::new(g.len(), |a: int| Seq::new(g.len(), |b: int| reachable(g, a, b)))
}

/// For each pair of nodes, whether the first dominates the second on the
/// way from `entry`.
pub open spec fn dominator_matrix(g: Seq<Seq<usize>>, entry: int) -> Seq<Seq<bool>> {
    Seq::new(g.len(), |d: int| Seq::new(g.len(), |n: int| dominates(g, entry, d, n)))
}

/// The rows of a matrix, as sequences.
pub open spec fn rows(m: Seq<Vec<bool>>) -> Seq<Seq<bool>> {
    m.map_values(|r: Vec<bool>| r@)
}

/// Which node reaches which.
pub fn compute_reach(g: &Vec<Vec<usize>>) -> (m: Vec<Vec<bool>>)
    requires
        closed_graph(edges(g@)),
    ensures
        rows(m@) == reach_matrix(edges(g@)),
{
    let n = g.len();
    let mut m: Vec<Vec<bool>> = Vec::new();
    let mut a: usize = 0;
    while a < n
        invariant
            n == g@.len(),
            closed_graph(edges(g@)),
            a <= n,
            m@.len() == a,
            forall|x: int| 0 <= x < a ==> (#[trigger] m@[x])@ == reach_matrix(edges(g@))[x],
        decreases n - a,
    {
        let row = reachable_from(g, a, n);
        assert(row@ =~= reach_matrix(edges(g@))[a as int]);
        m.push(row);
        a += 1;
    }
    assert(rows(m@) =~= reach_matrix(edges(g@)));
    m
}

/// Which node dominates which on the way from `entry`.
pub fn compute_dominators(g: &Vec<Vec<usize>>, entry: usize) -> (m: Vec<Vec<bool>>)
    requires
        closed_graph(edges(g@)),
        entry < g@.len(),
    ensures
        rows(m@) == dominator_matrix(edges(g@), entry as int),
{
    let n = g.len();
    let ghost e = edges(g@);
    let all = reachable_from(g, entry, n);
    let mut m: Vec<Vec<bool>> = Vec::new();
    let mut d: usize = 0;
    while d < n
        invariant
            n == g@.len(),
            e == edges(g@),
            closed_graph(e),
            entry < n,
            d <= n,
            all@.len() == n,
            forall|x: int| 0 <= x < n ==> (all@[x] <==> reaches(e, entry as int, x, n as int)),
            m@.len() == d,
            forall|x: int| 0 <= x < d ==> (#[trigger] m@[x])@ == dominator_matrix(e, entry as int)[x],
        decreases n - d,
    {
        let without = reachable_from(g, entry, d);
        let mut row: Vec<bool> = Vec::new();
        let mut x: usize = 0;
        while x < n
            invariant
                n == g@.len(),
                e == edges(g@),
                d < n,
                x <= n,
                all@.len() == n,
                without@.len() == n,
                forall|y: int| 0 <= y < n ==> (all@[y] <==> reaches(e, entry as int, y, n as int)),
                forall|y: int| 0 <= y < n ==> (without@[y] <==> reaches(e, entry as int, y, d as int)),
                row@.len() == x,
                forall|y: int| 0 <= y < x ==> row@[y] == dominates(e, entry as int, d as int, y),
            decreases n - x,
        {
            proof {
                dominates_is_unavoidable(e, entry as int, d as int, x as int);
            }
            row.push(all[x] && (d == x || !without[x]));
            x += 1;
        }
        assert(row@ =~= dominator_matrix(e, entry as int)[d as int]);
        m.push(row);
        d += 1;
    }
    assert(rows(m@) =~= dominator_matrix(e, entry as int));
    m
}

} // verus!
