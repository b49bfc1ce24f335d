//! Dependency view builder: exact multi-hop reachability along the hard
//! (`All`) prerequisite edges of a supercluster.
//!
//! Reachability is computed as a boolean matrix over the node list, by
//! iterating the one-hop extension step as many times as there are nodes.
//! Every reachable pair of nodes is joined by a path without repeated nodes,
//! hence by a path of at most `nodes.len()` hops, so the bounded relation
//! computed here is exact multi-hop reachability.

use vstd::prelude::*;
use crate::graph::{EdgeType, NodeID, RootedSupercluster};

verus! {

/// Whether `b` can be reached from `a` along one or more `All` edges, using
/// at most `fuel` hops.
pub open spec fn reaches(g: RootedSupercluster, a: NodeID, b: NodeID, fuel: nat) -> bool
    decreases fuel,
{
    fuel > 0 && (g.has_edge(a, b, EdgeType::All) || (exists|c: NodeID|
        g.has_edge(a, c, EdgeType::All) && reaches(g, c, b, (fuel - 1) as nat)))
}

/// Exact reachability along one or more `All` edges: `fuel` set to the node
/// count covers every path without repeated nodes, and a reachable pair is
/// always joined by such a path.
pub open spec fn hard_reachable(g: RootedSupercluster, a: NodeID, b: NodeID) -> bool {
    reaches(g, a, b, g.nodes@.len() as nat)
}

/// In a well-formed graph, the target of an `All` edge is itself a node.
proof fn lemma_edge_target_is_node(g: RootedSupercluster, a: NodeID, c: NodeID)
    requires
        g.wf(),
        g.has_edge(a, c, EdgeType::All),
    ensures
        exists|k: int| 0 <= k < g.nodes@.len() && g.nodes@[k].id == c,
{
    let i = choose|i: int|
        0 <= i < g.edges@.len() && g.edges@[i].source == a && g.edges@[i].target == c
            && g.edges@[i].edge_type == EdgeType::All;
    assert(g.has_node(g.edges@[i].target));
}

/// Whether the graph holds a direct `All` edge `s -> t`, decided by scanning
/// the edge list.
pub fn has_all_edge(g: &RootedSupercluster, s: NodeID, t: NodeID) -> (r: bool)
    ensures
        r == g.has_edge(s, t, EdgeType::All),
{
    let mut i: usize = 0;
    while i < g.edges.len()
        invariant
            i <= g.edges@.len(),
            forall|k: int|
                0 <= k < i ==> !(g.edges@[k].source == s && g.edges@[k].target == t
                    && g.edges@[k].edge_type == EdgeType::All),
        decreases g.edges@.len() - i,
    {
        if g.edges[i].source == s && g.edges[i].target == t && g.edges[i].edge_type
            == EdgeType::All {
            assert(g.has_edge(s, t, EdgeType::All));
            return true;
        }
        i = i + 1;
    }
    false
}

/// A square boolean matrix over the node list, all entries false.
fn false_matrix(n: usize) -> (r: Vec<Vec<bool>>)
    ensures
        r@.len() == n,
        forall|i: int| 0 <= i < n ==> (#[trigger] r@[i])@.len() == n,
        forall|i: int, j: int| 0 <= i < n && 0 <= j < n ==> !(#[trigger] r@[i]@[j]),
{
    let mut r: Vec<Vec<bool>> = Vec::new();
    let mut i: usize = 0;
    while i < n
        invariant
            i <= n,
            r@.len() == i,
            forall|k: int| 0 <= k < i ==> (#[trigger] r@[k])@.len() == n,
            forall|k: int, j: int| 0 <= k < i && 0 <= j < n ==> !(#[trigger] r@[k]@[j]),
        decreases n - i,
    {
        let mut row: Vec<bool> = Vec::new();
        let mut j: usize = 0;
        while j < n
            invariant
                j <= n,
                row@.len() == j,
                forall|k: int| 0 <= k < j ==> !(#[trigger] row@[k]),
            decreases n - j,
        {
            row.push(false);
            j = j + 1;
        }
        r.push(row);
        i = i + 1;
    }
    r
}

/// The direct `All`-edge adjacency matrix over the node list.
fn adjacency_matrix(g: &RootedSupercluster) -> (r: Vec<Vec<bool>>)
    ensures
        r@.len() == g.nodes@.len(),
        forall|i: int| 0 <= i < r@.len() ==> (#[trigger] r@[i])@.len() == g.nodes@.len(),
        forall|i: int, j: int|
            0 <= i < r@.len() && 0 <= j < r@.len() ==> (#[trigger] r@[i]@[j]) == g.has_edge(
                g.nodes@[i].id,
                g.nodes@[j].id,
                EdgeType::All,
            ),
{
    let n = g.nodes.len();
    let mut r: Vec<Vec<bool>> = Vec::new();
    let mut i: usize = 0;
    while i < n
        invariant
            i <= n,
            n == g.nodes@.len(),
            r@.len() == i,
            forall|k: int| 0 <= k < i ==> (#[trigger] r@[k])@.len() == n,
            forall|k: int, j: int|
                0 <= k < i && 0 <= j < n ==> (#[trigger] r@[k]@[j]) == g.has_edge(
                    g.nodes@[k].id,
                    g.nodes@[j].id,
                    EdgeType::All,
                ),
        decreases n - i,
    {
        let mut row: Vec<bool> = Vec::new();
        let mut j: usize = 0;
        while j < n
            invariant
                j <= n,
                i < n,
                n == g.nodes@.len(),
                row@.len() == j,
                forall|k: int|
                    0 <= k < j ==> (#[trigger] row@[k]) == g.has_edge(
                        g.nodes@[i as int].id,
                        g.nodes@[k].id,
                        EdgeType::All,
                    ),
            decreases n - j,
        {
            let b = has_all_edge(g, g.nodes[i].id, g.nodes[j].id);
            row.push(b);
            j = j + 1;
        }
        r.push(row);
        i = i + 1;
    }
    r
}

/// The exact `All`-edge reachability matrix over the node list: entry
/// `(i, j)` says whether node `j` is reachable from node `i` along one or
/// more hard edges.
pub fn reach_matrix(g: &RootedSupercluster) -> (r: Vec<Vec<bool>>)
    requires
        g.wf(),
    ensures
        r@.len() == g.nodes@.len(),
        forall|i: int| 0 <= i < r@.len() ==> (#[trigger] r@[i])@.len() == g.nodes@.len(),
        forall|i: int, j: int|
            0 <= i < r@.len() && 0 <= j < r@.len() ==> (#[trigger] r@[i]@[j]) == hard_reachable(
                *g,
                g.nodes@[i].id,
                g.nodes@[j].id,
            ),
{
    let n = g.nodes.len();
    let adj = adjacency_matrix(g);
    let mut r = false_matrix(n);
    assert(forall|i: int, j: int|
        0 <= i < n && 0 <= j < n ==> (#[trigger] r@[i]@[j]) == reaches(
            *g,
            g.nodes@[i].id,
            g.nodes@[j].id,
            0,
        ));
    let mut round: usize = 0;
    while round < n
        invariant
            round <= n,
            n == g.nodes@.len(),
            g.wf(),
            adj@.len() == n,
            forall|i: int| 0 <= i < n ==> (#[trigger] adj@[i])@.len() == n,
            forall|i: int, j: int|
                0 <= i < n && 0 <= j < n ==> (#[trigger] adj@[i]@[j]) == g.has_edge(
                    g.nodes@[i].id,
                    g.nodes@[j].id,
                    EdgeType::All,
                ),
            r@.len() == n,
            forall|i: int| 0 <= i < n ==> (#[trigger] r@[i])@.len() == n,
            forall|i: int, j: int|
                0 <= i < n && 0 <= j < n ==> (#[trigger] r@[i]@[j]) == reaches(
                    *g,
                    g.nodes@[i].id,
                    g.nodes@[j].id,
                    round as nat,
                ),
        decreases n - round,
    {
        let next = extend_one_hop(g, &adj, &r, round);
        r = next;
        round = round + 1;
    }
    r
}

/// One extension step: from reachability in at most `round` hops to
/// reachability in at most `round + 1` hops.
fn extend_one_hop(
    g: &RootedSupercluster,
    adj: &Vec<Vec<bool>>,
    r: &Vec<Vec<bool>>,
    round: usize,
) -> (next: Vec<Vec<bool>>)
    requires
        g.wf(),
        adj@.len() == g.nodes@.len(),
        forall|i: int| 0 <= i < adj@.len() ==> (#[trigger] adj@[i])@.len() == g.nodes@.len(),
        forall|i: int, j: int|
            0 <= i < adj@.len() && 0 <= j < adj@.len() ==> (#[trigger] adj@[i]@[j]) == g.has_edge(
                g.nodes@[i].id,
                g.nodes@[j].id,
                EdgeType::All,
            ),
        r@.len() == g.nodes@.len(),
        forall|i: int| 0 <= i < r@.len() ==> (#[trigger] r@[i])@.len() == g.nodes@.len(),
        forall|i: int, j: int|
            0 <= i < r@.len() && 0 <= j < r@.len() ==> (#[trigger] r@[i]@[j]) == reaches(
                *g,
                g.nodes@[i].id,
                g.nodes@[j].id,
                round as nat,
            ),
        round < usize::MAX,
    ensures
        next@.len() == g.nodes@.len(),
        forall|i: int| 0 <= i < next@.len() ==> (#[trigger] next@[i])@.len() == g.nodes@.len(),
        forall|i: int, j: int|
            0 <= i < next@.len() && 0 <= j < next@.len() ==> (#[trigger] next@[i]@[j]) == reaches(
                *g,
                g.nodes@[i].id,
                g.nodes@[j].id,
                (round + 1) as nat,
            ),
{
    let n = g.nodes.len();
    let mut next: Vec<Vec<bool>> = Vec::new();
    let mut i: usize = 0;
    while i < n
        invariant
            i <= n,
            n == g.nodes@.len(),
            g.wf(),
            adj@.len() == n,
            forall|k: int| 0 <= k < n ==> (#[trigger] adj@[k])@.len() == n,
            forall|k: int, j: int|
                0 <= k < n && 0 <= j < n ==> (#[trigger] adj@[k]@[j]) == g.has_edge(
                    g.nodes@[k].id,
                    g.nodes@[j].id,
                    EdgeType::All,
                ),
            r@.len() == n,
            forall|k: int| 0 <= k < n ==> (#[trigger] r@[k])@.len() == n,
            forall|k: int, j: int|
                0 <= k < n && 0 <= j < n ==> (#[trigger] r@[k]@[j]) == reaches(
                    *g,
                    g.nodes@[k].id,
                    g.nodes@[j].id,
                    round as nat,
                ),
            round < usize::MAX,
            next@.len() == i,
            forall|k: int| 0 <= k < i ==> (#[trigger] next@[k])@.len() == n,
            forall|k: int, j: int|
                0 <= k < i && 0 <= j < n ==> (#[trigger] next@[k]@[j]) == reaches(
                    *g,
                    g.nodes@[k].id,
                    g.nodes@[j].id,
                    (round + 1) as nat,
                ),
        decreases n - i,
    {
        let row = extend_one_hop_row(g, adj, r, round, i);
        next.push(row);
        i = i + 1;
    }
    next
}

/// One row of the extension step: reachability from node `i` in at most
/// `round + 1` hops, for every target node.
fn extend_one_hop_row(
    g: &RootedSupercluster,
    adj: &Vec<Vec<bool>>,
    r: &Vec<Vec<bool>>,
    round: usize,
    i: usize,
) -> (row: Vec<bool>)
    requires
        g.wf(),
        adj@.len() == g.nodes@.len(),
        forall|k: int| 0 <= k < adj@.len() ==> (#[trigger] adj@[k])@.len() == g.nodes@.len(),
        forall|k: int, j: int|
            0 <= k < adj@.len() && 0 <= j < adj@.len() ==> (#[trigger] adj@[k]@[j]) == g.has_edge(
                g.nodes@[k].id,
                g.nodes@[j].id,
                EdgeType::All,
            ),
        r@.len() == g.nodes@.len(),
        forall|k: int| 0 <= k < r@.len() ==> (#[trigger] r@[k])@.len() == g.nodes@.len(),
        forall|k: int, j: int|
            0 <= k < r@.len() && 0 <= j < r@.len() ==> (#[trigger] r@[k]@[j]) == reaches(
                *g,
                g.nodes@[k].id,
                g.nodes@[j].id,
                round as nat,
            ),
        round < usize::MAX,
        i < g.nodes@.len(),
    ensures
        row@.len() == g.nodes@.len(),
        forall|j: int|
            0 <= j < row@.len() ==> (#[trigger] row@[j]) == reaches(
                *g,
                g.nodes@[i as int].id,
                g.nodes@[j].id,
                (round + 1) as nat,
            ),
{
    let n = g.nodes.len();
    let a = g.nodes[i].id;
    let mut row: Vec<bool> = Vec::new();
    let mut j: usize = 0;
    while j < n
        invariant
            j <= n,
            i < n,
            n == g.nodes@.len(),
            a == g.nodes@[i as int].id,
            g.wf(),
            adj@.len() == n,
            forall|k: int| 0 <= k < n ==> (#[trigger] adj@[k])@.len() == n,
            forall|k: int, l: int|
                0 <= k < n && 0 <= l < n ==> (#[trigger] adj@[k]@[l]) == g.has_edge(
                    g.nodes@[k].id,
                    g.nodes@[l].id,
                    EdgeType::All,
                ),
            r@.len() == n,
            forall|k: int| 0 <= k < n ==> (#[trigger] r@[k])@.len() == n,
            forall|k: int, l: int|
                0 <= k < n && 0 <= l < n ==> (#[trigger] r@[k]@[l]) == reaches(
                    *g,
                    g.nodes@[k].id,
                    g.nodes@[l].id,
                    round as nat,
                ),
            round < usize::MAX,
            row@.len() == j,
            forall|l: int|
                0 <= l < j ==> (#[trigger] row@[l]) == reaches(
                    *g,
                    a,
                    g.nodes@[l].id,
                    (round + 1) as nat,
                ),
        decreases n - j,
    {
        let b = g.nodes[j].id;
        let mut found = adj[i][j];
        let mut c: usize = 0;
        while c < n
            invariant
                c <= n,
                i < n,
                j < n,
                n == g.nodes@.len(),
                a == g.nodes@[i as int].id,
                b == g.nodes@[j as int].id,
                adj@.len() == n,
                forall|k: int| 0 <= k < n ==> (#[trigger] adj@[k])@.len() == n,
                forall|k: int, l: int|
                    0 <= k < n && 0 <= l < n ==> (#[trigger] adj@[k]@[l]) == g.has_edge(
                        g.nodes@[k].id,
                        g.nodes@[l].id,
                        EdgeType::All,
                    ),
                r@.len() == n,
                forall|k: int| 0 <= k < n ==> (#[trigger] r@[k])@.len() == n,
                forall|k: int, l: int|
                    0 <= k < n && 0 <= l < n ==> (#[trigger] r@[k]@[l]) == reaches(
                        *g,
                        g.nodes@[k].id,
                        g.nodes@[l].id,
                        round as nat,
                    ),
                found == (g.has_edge(a, b, EdgeType::All) || (exists|k: int|
                    0 <= k < c && g.has_edge(a, #[trigger] g.nodes@[k].id, EdgeType::All)
                        && reaches(*g, g.nodes@[k].id, b, round as nat))),
            decreases n - c,
        {
            if adj[i][c] && r[c][j] {
                assert(g.has_edge(a, g.nodes@[c as int].id, EdgeType::All) && reaches(
                    *g,
                    g.nodes@[c as int].id,
                    b,
                    round as nat,
                ));
                found = true;
            }
            c = c + 1;
        }
        proof {
            // One definitional step of `reaches`, with intermediate node
            // identifiers bridged to node positions: every `All`-edge target
            // of a well-formed graph is itself a node.
            if found {
                assert(reaches(*g, a, b, (round + 1) as nat));
            } else {
                assert(!reaches(*g, a, b, (round + 1) as nat)) by {
                    if reaches(*g, a, b, (round + 1) as nat) {
                        if !g.has_edge(a, b, EdgeType::All) {
                            let m = choose|m: NodeID|
                                g.has_edge(a, m, EdgeType::All) && reaches(
                                    *g,
                                    m,
                                    b,
                                    round as nat,
                                );
                            lemma_edge_target_is_node(*g, a, m);
                            let k = choose|k: int|
                                0 <= k < g.nodes@.len() && g.nodes@[k].id == m;
                            assert(g.has_edge(a, g.nodes@[k].id, EdgeType::All) && reaches(
                                *g,
                                g.nodes@[k].id,
                                b,
                                round as nat,
                            ));
                            assert(found);
                        }
                    }
                }
            }
        }
        row.push(found);
        j = j + 1;
    }
    row
}

} // verus!
