//! The supercluster graph model: learning units (nodes), typed prerequisite
//! edges, and declared roots.

use vstd::prelude::*;

verus! {

/// Stable identifier of a learning unit. Identifiers are unique within a
/// graph and are rendered in decimal wherever they appear in serialized
/// output.
pub type NodeID = u64;

/// The two kinds of prerequisite relation an edge can carry.
#[derive(Clone, Copy, PartialEq, Eq, Structural, Debug)]
pub enum EdgeType {
    /// Hard (AND) prerequisite: the source must be completed.
    All,
    /// Soft (OR) alternative motivator: the source can stand in for other
    /// paths to unlocking the target.
    AtLeastOne,
}

/// A learning unit: identity plus a display-only title.
pub struct Node {
    pub id: NodeID,
    pub title: String,
}

/// A directed, typed prerequisite edge. `source -> target` means that
/// completing `source` contributes to unlocking `target`.
pub struct Edge {
    pub source: NodeID,
    pub target: NodeID,
    pub edge_type: EdgeType,
}

/// The complete prerequisite graph for one archive: nodes, typed edges, and
/// the declared roots (nodes that are always unlocked).
pub struct RootedSupercluster {
    pub nodes: Vec<Node>,
    pub edges: Vec<Edge>,
    pub roots: Vec<NodeID>,
}

impl RootedSupercluster {
    /// Whether `id` names a node of the graph.
    pub open spec fn has_node(self, id: NodeID) -> bool {
        exists|i: int| 0 <= i < self.nodes@.len() && self.nodes@[i].id == id
    }

    /// Whether the graph holds a directed edge `s -> t` of type `et`.
    pub open spec fn has_edge(self, s: NodeID, t: NodeID, et: EdgeType) -> bool {
        exists|i: int|
            0 <= i < self.edges@.len() && self.edges@[i].source == s && self.edges@[i].target == t
                && self.edges@[i].edge_type == et
    }

    /// Whether `id` is a declared root.
    pub open spec fn is_root(self, id: NodeID) -> bool {
        self.roots@.contains(id)
    }

    /// Internal consistency of the graph: node identifiers are unique, every
    /// edge endpoint names an existing node, and the declared roots are
    /// existing nodes, listed once each.
    pub open spec fn wf(self) -> bool {
        &&& (forall|i: int, j: int|
            0 <= i < self.nodes@.len() && 0 <= j < self.nodes@.len() && i != j
                ==> self.nodes@[i].id != self.nodes@[j].id)
        &&& (forall|i: int|
            0 <= i < self.edges@.len()
                ==> self.has_node(#[trigger] self.edges@[i].source) && self.has_node(
                self.edges@[i].target,
            ))
        &&& (forall|i: int| 0 <= i < self.roots@.len() ==> self.has_node(#[trigger] self.roots@[i]))
        &&& (forall|i: int, j: int|
            0 <= i < self.roots@.len() && 0 <= j < self.roots@.len() && i != j
                ==> self.roots@[i] != self.roots@[j])
    }

    /// Position of the node named `id` in the node list.
    pub fn node_index(&self, id: NodeID) -> (r: usize)
        requires
            self.has_node(id),
        ensures
            r < self.nodes@.len(),
            self.nodes@[r as int].id == id,
    {
        let mut i: usize = 0;
        while i < self.nodes.len()
            invariant
                i <= self.nodes@.len(),
                self.has_node(id),
                forall|k: int| 0 <= k < i ==> self.nodes@[k].id != id,
            decreases self.nodes@.len() - i,
        {
            if self.nodes[i].id == id {
                return i;
            }
            i = i + 1;
        }
        proof {
            assert(false);
        }
        0
    }

    /// Whether `id` names a node, decided by scanning the node list.
    pub fn has_node_exec(&self, id: NodeID) -> (r: bool)
        ensures
            r == self.has_node(id),
    {
        let mut i: usize = 0;
        while i < self.nodes.len()
            invariant
                i <= self.nodes@.len(),
                forall|k: int| 0 <= k < i ==> self.nodes@[k].id != id,
            decreases self.nodes@.len() - i,
        {
            if self.nodes[i].id == id {
                assert(self.nodes@[i as int].id == id);
                return true;
            }
            i = i + 1;
        }
        false
    }

    /// Decide internal consistency: unique node identifiers, edge endpoints
    /// that exist, and declared roots that exist and are listed once each.
    pub fn check_wf(&self) -> (b: bool)
        ensures
            b == self.wf(),
    {
        let n = self.nodes.len();
        let mut i: usize = 0;
        while i < n
            invariant
                i <= n,
                n == self.nodes@.len(),
                forall|a: int, c: int|
                    0 <= a < i && a < c < n ==> self.nodes@[a].id != self.nodes@[c].id,
            decreases n - i,
        {
            let mut j: usize = i + 1;
            while j < n
                invariant
                    i < n,
                    i < j <= n,
                    n == self.nodes@.len(),
                    forall|c: int| i < c < j ==> self.nodes@[i as int].id != self.nodes@[c].id,
                decreases n - j,
            {
                if self.nodes[i].id == self.nodes[j].id {
                    return false;
                }
                j = j + 1;
            }
            i = i + 1;
        }
        assert forall|a: int, c: int|
            0 <= a < n && 0 <= c < n && a != c implies self.nodes@[a].id != self.nodes@[c].id by {
            if a < c {
                assert(self.nodes@[a].id != self.nodes@[c].id);
            } else {
                assert(self.nodes@[c].id != self.nodes@[a].id);
            }
        }
        let mut e: usize = 0;
        while e < self.edges.len()
            invariant
                e <= self.edges@.len(),
                forall|k: int|
                    0 <= k < e ==> self.has_node(#[trigger] self.edges@[k].source)
                        && self.has_node(self.edges@[k].target),
            decreases self.edges@.len() - e,
        {
            if !self.has_node_exec(self.edges[e].source) {
                return false;
            }
            if !self.has_node_exec(self.edges[e].target) {
                return false;
            }
            proof {
                assert forall|k: int| 0 <= k < e + 1 implies self.has_node(
                    #[trigger] self.edges@[k].source,
                ) && self.has_node(self.edges@[k].target) by {
                    if k == e {
                        assert(self.has_node(self.edges@[e as int].source));
                        assert(self.has_node(self.edges@[e as int].target));
                    }
                }
            }
            e = e + 1;
        }
        let nr = self.roots.len();
        let mut r: usize = 0;
        while r < nr
            invariant
                r <= nr,
                nr == self.roots@.len(),
                forall|k: int| 0 <= k < r ==> self.has_node(#[trigger] self.roots@[k]),
                forall|a: int, c: int|
                    0 <= a < r && a < c < nr ==> self.roots@[a] != self.roots@[c],
            decreases nr - r,
        {
            if !self.has_node_exec(self.roots[r]) {
                return false;
            }
            let mut j: usize = r + 1;
            while j < nr
                invariant
                    r < nr,
                    r < j <= nr,
                    nr == self.roots@.len(),
                    forall|c: int| r < c < j ==> self.roots@[r as int] != self.roots@[c],
                decreases nr - j,
            {
                if self.roots[r] == self.roots[j] {
                    return false;
                }
                j = j + 1;
            }
            r = r + 1;
        }
        assert forall|a: int, c: int|
            0 <= a < nr && 0 <= c < nr && a != c implies self.roots@[a] != self.roots@[c] by {
            if a < c {
                assert(self.roots@[a] != self.roots@[c]);
            } else {
                assert(self.roots@[c] != self.roots@[a]);
            }
        }
        true
    }

    /// Whether `id` is a declared root, decided by scanning the root list.
    pub fn is_declared_root(&self, id: NodeID) -> (r: bool)
        ensures
            r == self.is_root(id),
    {
        let mut i: usize = 0;
        while i < self.roots.len()
            invariant
                i <= self.roots@.len(),
                forall|k: int| 0 <= k < i ==> self.roots@[k] != id,
            decreases self.roots@.len() - i,
        {
            if self.roots[i] == id {
                assert(self.roots@[i as int] == id);
                return true;
            }
            i = i + 1;
        }
        assert(forall|k: int| 0 <= k < self.roots@.len() ==> self.roots@[k] != id);
        false
    }
}

} // verus!
