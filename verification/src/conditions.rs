//! The unlocking condition compiler: for every node of a well-formed
//! supercluster, either `None` (declared roots are always unlocked) or the
//! pair of its hard prerequisites (`all_of`, every transitive `All`
//! predecessor) and its alternative motivators (`one_of`, every node with an
//! `AtLeastOne` edge into the node or anything it transitively unlocks).

use vstd::prelude::*;
use crate::graph::{EdgeType, NodeID, RootedSupercluster};
use crate::closure::{hard_reachable, reach_matrix, reaches};

verus! {

/// An unlocking condition: satisfied when every identifier in `all_of` is
/// completed and, unless `one_of` is empty, at least one identifier in
/// `one_of` is completed. Both lists hold each identifier at most once, in
/// node-list order.
#[derive(Clone, PartialEq, Eq, Debug)]
pub struct UnlockingCondition {
    pub all_of: Vec<NodeID>,
    pub one_of: Vec<NodeID>,
}

/// The hard prerequisites of `n` among the first `k` nodes: every node from
/// which `n` is reachable along one or more `All` edges, in node-list order.
pub open spec fn all_of_prefix(g: RootedSupercluster, n: NodeID, k: int) -> Seq<NodeID>
    decreases k,
{
    if k <= 0 {
        Seq::empty()
    } else {
        all_of_prefix(g, n, k - 1) + (if hard_reachable(g, g.nodes@[k - 1].id, n) {
            seq![g.nodes@[k - 1].id]
        } else {
            Seq::empty()
        })
    }
}

/// The full hard prerequisite list of `n`: every transitive `All`
/// predecessor, in node-list order.
pub open spec fn spec_all_of(g: RootedSupercluster, n: NodeID) -> Seq<NodeID> {
    all_of_prefix(g, n, g.nodes@.len() as int)
}

/// Whether `t` belongs to the dependent set of `n`: `n` itself, or anything
/// transitively unlocked by `n` along `All` edges.
pub open spec fn in_dependents(g: RootedSupercluster, n: NodeID, t: NodeID) -> bool {
    t == n || hard_reachable(g, n, t)
}

/// Whether `m` motivates `n` or one of its dependents: some `AtLeastOne`
/// edge leads from `m` into the dependent set of `n`.
pub open spec fn motivates_into_dependents(g: RootedSupercluster, m: NodeID, n: NodeID) -> bool {
    exists|i: int|
        0 <= i < g.edges@.len() && g.edges@[i].source == m && g.edges@[i].edge_type
            == EdgeType::AtLeastOne && in_dependents(g, n, g.edges@[i].target)
}

/// The alternative motivators of `n` among the first `k` nodes, in node-list
/// order.
pub open spec fn one_of_prefix(g: RootedSupercluster, n: NodeID, k: int) -> Seq<NodeID>
    decreases k,
{
    if k <= 0 {
        Seq::empty()
    } else {
        one_of_prefix(g, n, k - 1) + (if motivates_into_dependents(g, g.nodes@[k - 1].id, n) {
            seq![g.nodes@[k - 1].id]
        } else {
            Seq::empty()
        })
    }
}

/// The full alternative motivator list of `n`, in node-list order.
pub open spec fn spec_one_of(g: RootedSupercluster, n: NodeID) -> Seq<NodeID> {
    one_of_prefix(g, n, g.nodes@.len() as int)
}

/// The view of one condition map entry: the node identifier and, for
/// non-roots, the views of the two prerequisite lists.
pub open spec fn entry_view(p: (NodeID, Option<UnlockingCondition>)) -> (
    NodeID,
    Option<(Seq<NodeID>, Seq<NodeID>)>,
) {
    (
        p.0,
        match p.1 {
            Option::None => Option::None,
            Option::Some(c) => Option::Some((c.all_of@, c.one_of@)),
        },
    )
}

/// What it means for `m` to be the condition map of `g`: one entry per node
/// in node-list order; `None` exactly for declared roots; for every other
/// node the exact hard prerequisite and alternative motivator lists.
pub open spec fn is_condition_map_for(
    g: RootedSupercluster,
    m: Seq<(NodeID, Option<UnlockingCondition>)>,
) -> bool {
    &&& m.len() == g.nodes@.len()
    &&& (forall|i: int| 0 <= i < m.len() ==> (#[trigger] m[i]).0 == g.nodes@[i].id)
    &&& (forall|i: int|
        0 <= i < m.len() ==> (((#[trigger] m[i]).1 is None) == g.is_root(g.nodes@[i].id)))
    &&& (forall|i: int|
        0 <= i < m.len() ==> ((#[trigger] m[i]).1 matches Option::Some(c) ==> c.all_of@
            == spec_all_of(g, g.nodes@[i].id) && c.one_of@ == spec_one_of(g, g.nodes@[i].id)))
}

/// No node reaches itself along `All` edges: the hard-prerequisite subgraph
/// is acyclic.
pub open spec fn acyclic_all(g: RootedSupercluster) -> bool {
    forall|m: NodeID, k: nat| !reaches(g, m, m, k)
}

/// Membership in a hard prerequisite prefix list: exactly the nodes among
/// the first `k` from which `n` is reachable.
pub proof fn lemma_all_of_prefix_contains(g: RootedSupercluster, n: NodeID, k: int, x: NodeID)
    requires
        0 <= k <= g.nodes@.len(),
    ensures
        all_of_prefix(g, n, k).contains(x) <==> (exists|i: int|
            0 <= i < k && g.nodes@[i].id == x && hard_reachable(g, x, n)),
    decreases k,
{
    if k > 0 {
        lemma_all_of_prefix_contains(g, n, k - 1, x);
        if all_of_prefix(g, n, k).contains(x) {
            if !all_of_prefix(g, n, k - 1).contains(x) {
                assert(g.nodes@[k - 1].id == x && hard_reachable(g, x, n));
            }
        }
        if exists|i: int| 0 <= i < k && g.nodes@[i].id == x && hard_reachable(g, x, n) {
            let i = choose|i: int| 0 <= i < k && g.nodes@[i].id == x && hard_reachable(g, x, n);
            if i < k - 1 {
                assert(all_of_prefix(g, n, k - 1).contains(x));
                let j = choose|j: int|
                    0 <= j < all_of_prefix(g, n, k - 1).len() && #[trigger] all_of_prefix(
                        g,
                        n,
                        k - 1,
                    )[j] == x;
                assert(all_of_prefix(g, n, k)[j] == x);
                assert(all_of_prefix(g, n, k).contains(x));
            } else {
                assert(all_of_prefix(g, n, k)[all_of_prefix(g, n, k - 1).len() as int] == x);
                assert(all_of_prefix(g, n, k).contains(x));
            }
        }
    }
}

/// Membership in an alternative motivator prefix list: exactly the nodes
/// among the first `k` with an `AtLeastOne` edge into the dependent set.
pub proof fn lemma_one_of_prefix_contains(g: RootedSupercluster, n: NodeID, k: int, x: NodeID)
    requires
        0 <= k <= g.nodes@.len(),
    ensures
        one_of_prefix(g, n, k).contains(x) <==> (exists|i: int|
            0 <= i < k && g.nodes@[i].id == x && motivates_into_dependents(g, x, n)),
    decreases k,
{
    if k > 0 {
        lemma_one_of_prefix_contains(g, n, k - 1, x);
        if one_of_prefix(g, n, k).contains(x) {
            if !one_of_prefix(g, n, k - 1).contains(x) {
                assert(g.nodes@[k - 1].id == x && motivates_into_dependents(g, x, n));
            }
        }
        if exists|i: int| 0 <= i < k && g.nodes@[i].id == x && motivates_into_dependents(g, x, n) {
            let i = choose|i: int|
                0 <= i < k && g.nodes@[i].id == x && motivates_into_dependents(g, x, n);
            if i < k - 1 {
                assert(one_of_prefix(g, n, k - 1).contains(x));
                let j = choose|j: int|
                    0 <= j < one_of_prefix(g, n, k - 1).len() && #[trigger] one_of_prefix(
                        g,
                        n,
                        k - 1,
                    )[j] == x;
                assert(one_of_prefix(g, n, k)[j] == x);
                assert(one_of_prefix(g, n, k).contains(x));
            } else {
                assert(one_of_prefix(g, n, k)[one_of_prefix(g, n, k - 1).len() as int] == x);
                assert(one_of_prefix(g, n, k).contains(x));
            }
        }
    }
}

/// A declared root is always unlocked: its entry in any condition map of the
/// graph is `None`.
pub proof fn lemma_root_condition(
    g: RootedSupercluster,
    m: Seq<(NodeID, Option<UnlockingCondition>)>,
    i: int,
)
    requires
        is_condition_map_for(g, m),
        0 <= i < m.len(),
        g.is_root(g.nodes@[i].id),
    ensures
        m[i].1 is None,
{
}

/// No self-dependency: when the `All` subgraph is acyclic, no node lists
/// itself among its own hard prerequisites.
pub proof fn lemma_no_self_dependency(g: RootedSupercluster, n: NodeID)
    requires
        acyclic_all(g),
    ensures
        !spec_all_of(g, n).contains(n),
{
    lemma_all_of_prefix_contains(g, n, g.nodes@.len() as int, n);
    assert(!hard_reachable(g, n, n));
}

/// Every listed alternative motivator really motivates the node or one of
/// its dependents: some `AtLeastOne` edge leads from it into the dependent
/// set.
pub proof fn lemma_one_of_motivates(g: RootedSupercluster, n: NodeID, m: NodeID)
    requires
        spec_one_of(g, n).contains(m),
    ensures
        exists|i: int|
            0 <= i < g.edges@.len() && g.edges@[i].source == m && g.edges@[i].edge_type
                == EdgeType::AtLeastOne && in_dependents(g, n, g.edges@[i].target),
{
    lemma_one_of_prefix_contains(g, n, g.nodes@.len() as int, m);
}

/// Compiling the condition map is pure: any two condition maps of the same
/// supercluster agree entry by entry.
pub proof fn lemma_condition_map_deterministic(
    g: RootedSupercluster,
    m1: Seq<(NodeID, Option<UnlockingCondition>)>,
    m2: Seq<(NodeID, Option<UnlockingCondition>)>,
)
    requires
        is_condition_map_for(g, m1),
        is_condition_map_for(g, m2),
    ensures
        m1.len() == m2.len(),
        forall|i: int| 0 <= i < m1.len() ==> entry_view(#[trigger] m1[i]) == entry_view(m2[i]),
{
    assert forall|i: int| 0 <= i < m1.len() implies entry_view(#[trigger] m1[i]) == entry_view(
        m2[i],
    ) by {
        if m1[i].1 is None {
            assert(m2[i].1 is None);
        } else {
            assert(m1[i].1 matches Option::Some(c));
            assert(m2[i].1 matches Option::Some(c));
        }
    }
}

/// Whether `m_id` motivates node `k` (by position) or one of its dependents,
/// decided by scanning the edge list against the reachability matrix.
fn motivates_exec(
    g: &RootedSupercluster,
    reach: &Vec<Vec<bool>>,
    k: usize,
    m_id: NodeID,
) -> (r: bool)
    requires
        g.wf(),
        k < g.nodes@.len(),
        reach@.len() == g.nodes@.len(),
        forall|i: int| 0 <= i < reach@.len() ==> (#[trigger] reach@[i])@.len() == g.nodes@.len(),
        forall|i: int, j: int|
            0 <= i < reach@.len() && 0 <= j < reach@.len() ==> (#[trigger] reach@[i]@[j])
                == hard_reachable(*g, g.nodes@[i].id, g.nodes@[j].id),
    ensures
        r == motivates_into_dependents(*g, m_id, g.nodes@[k as int].id),
{
    let n_id = g.nodes[k].id;
    let mut e: usize = 0;
    let mut found = false;
    while e < g.edges.len()
        invariant
            e <= g.edges@.len(),
            k < g.nodes@.len(),
            n_id == g.nodes@[k as int].id,
            g.wf(),
            reach@.len() == g.nodes@.len(),
            forall|i: int|
                0 <= i < reach@.len() ==> (#[trigger] reach@[i])@.len() == g.nodes@.len(),
            forall|i: int, j: int|
                0 <= i < reach@.len() && 0 <= j < reach@.len() ==> (#[trigger] reach@[i]@[j])
                    == hard_reachable(*g, g.nodes@[i].id, g.nodes@[j].id),
            found == (exists|i: int|
                0 <= i < e && (#[trigger] g.edges@[i]).source == m_id && g.edges@[i].edge_type
                    == EdgeType::AtLeastOne && in_dependents(*g, n_id, g.edges@[i].target)),
        decreases g.edges@.len() - e,
    {
        if g.edges[e].source == m_id && g.edges[e].edge_type == EdgeType::AtLeastOne {
            let t = g.edges[e].target;
            assert(g.has_node(t));
            if t == n_id {
                assert(in_dependents(*g, n_id, g.edges@[e as int].target));
                found = true;
            } else {
                let ti = g.node_index(t);
                if reach[k][ti] {
                    assert(hard_reachable(*g, n_id, t));
                    assert(in_dependents(*g, n_id, g.edges@[e as int].target));
                    found = true;
                }
            }
        }
        e = e + 1;
    }
    found
}

/// Compile the condition map of a well-formed supercluster: one entry per
/// node, `None` for declared roots, and the exact hard prerequisite and
/// alternative motivator lists for every other node.
pub fn compile_conditions(g: &RootedSupercluster) -> (r: Vec<(NodeID, Option<UnlockingCondition>)>)
    requires
        g.wf(),
    ensures
        is_condition_map_for(*g, r@),
{
    let n = g.nodes.len();
    let reach = reach_matrix(g);
    let mut out: Vec<(NodeID, Option<UnlockingCondition>)> = Vec::new();
    let mut k: usize = 0;
    while k < n
        invariant
            k <= n,
            n == g.nodes@.len(),
            g.wf(),
            reach@.len() == n,
            forall|i: int| 0 <= i < n ==> (#[trigger] reach@[i])@.len() == n,
            forall|i: int, j: int|
                0 <= i < n && 0 <= j < n ==> (#[trigger] reach@[i]@[j]) == hard_reachable(
                    *g,
                    g.nodes@[i].id,
                    g.nodes@[j].id,
                ),
            out@.len() == k,
            forall|i: int| 0 <= i < k ==> (#[trigger] out@[i]).0 == g.nodes@[i].id,
            forall|i: int|
                0 <= i < k ==> (((#[trigger] out@[i]).1 is None) == g.is_root(g.nodes@[i].id)),
            forall|i: int|
                0 <= i < k ==> ((#[trigger] out@[i]).1 matches Option::Some(c) ==> c.all_of@
                    == spec_all_of(*g, g.nodes@[i].id) && c.one_of@ == spec_one_of(
                    *g,
                    g.nodes@[i].id,
                )),
        decreases n - k,
    {
        let n_id = g.nodes[k].id;
        if g.is_declared_root(n_id) {
            out.push((n_id, Option::None));
        } else {
            let mut all_of: Vec<NodeID> = Vec::new();
            let mut m: usize = 0;
            while m < n
                invariant
                    m <= n,
                    k < n,
                    n == g.nodes@.len(),
                    n_id == g.nodes@[k as int].id,
                    reach@.len() == n,
                    forall|i: int| 0 <= i < n ==> (#[trigger] reach@[i])@.len() == n,
                    forall|i: int, j: int|
                        0 <= i < n && 0 <= j < n ==> (#[trigger] reach@[i]@[j]) == hard_reachable(
                            *g,
                            g.nodes@[i].id,
                            g.nodes@[j].id,
                        ),
                    all_of@ == all_of_prefix(*g, n_id, m as int),
                decreases n - m,
            {
                if reach[m][k] {
                    all_of.push(g.nodes[m].id);
                }
                m = m + 1;
            }
            let mut one_of: Vec<NodeID> = Vec::new();
            let mut m2: usize = 0;
            while m2 < n
                invariant
                    m2 <= n,
                    k < n,
                    n == g.nodes@.len(),
                    g.wf(),
                    n_id == g.nodes@[k as int].id,
                    reach@.len() == n,
                    forall|i: int| 0 <= i < n ==> (#[trigger] reach@[i])@.len() == n,
                    forall|i: int, j: int|
                        0 <= i < n && 0 <= j < n ==> (#[trigger] reach@[i]@[j]) == hard_reachable(
                            *g,
                            g.nodes@[i].id,
                            g.nodes@[j].id,
                        ),
                    one_of@ == one_of_prefix(*g, n_id, m2 as int),
                decreases n - m2,
            {
                if motivates_exec(g, &reach, k, g.nodes[m2].id) {
                    one_of.push(g.nodes[m2].id);
                }
                m2 = m2 + 1;
            }
            assert(all_of@ == spec_all_of(*g, n_id));
            assert(one_of@ == spec_one_of(*g, n_id));
            out.push((n_id, Option::Some(UnlockingCondition { all_of, one_of })));
        }
        k = k + 1;
    }
    out
}

} // verus!
