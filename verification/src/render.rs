//! Textual serialization of the graph and of the condition map, as byte
//! documents built in memory.
//!
//! Node identifiers are always rendered through one canonical encoding —
//! their decimal digits — wherever they appear: node lists, edge lists, root
//! lists and condition-map keys.

use vstd::prelude::*;
use vstd::string::StringSliceAdditionalSpecFns;
use vstd::utf8::encode_utf8;
use crate::graph::{Edge, EdgeType, Node, NodeID, RootedSupercluster};
use crate::conditions::UnlockingCondition;

verus! {

/// The decimal digits of `n`, most significant first.
pub open spec fn dec_of(n: nat) -> Seq<u8>
    decreases n,
{
    if n < 10 {
        seq![(48 + n) as u8]
    } else {
        dec_of(n / 10) + seq![(48 + n % 10) as u8]
    }
}

/// Append the UTF-8 bytes of `s` to `doc`.
pub fn push_str_bytes(doc: &mut Vec<u8>, s: &str)
    ensures
        final(doc)@ == old(doc)@ + s.spec_bytes(),
{
    let b = s.as_bytes();
    let mut i: usize = 0;
    while i < b.len()
        invariant
            i <= b@.len(),
            b@ == s.spec_bytes(),
            doc@ == old(doc)@ + b@.take(i as int),
        decreases b@.len() - i,
    {
        doc.push(b[i]);
        proof {
            assert(b@.take(i + 1) =~= b@.take(i as int).push(b@[i as int]));
            assert(doc@ =~= old(doc)@ + b@.take(i + 1));
        }
        i = i + 1;
    }
    proof {
        assert(b@.take(b@.len() as int) =~= b@);
    }
}

/// Append the decimal digits of `n` to `doc`.
pub fn push_dec(doc: &mut Vec<u8>, n: u64)
    ensures
        final(doc)@ == old(doc)@ + dec_of(n as nat),
    decreases n,
{
    if n >= 10 {
        push_dec(doc, n / 10);
    }
    doc.push(48 + (n % 10) as u8);
    proof {
        if n < 10 {
            assert(doc@ =~= old(doc)@ + dec_of(n as nat));
        } else {
            assert(doc@ =~= old(doc)@ + (dec_of((n / 10) as nat) + seq![(48 + n as nat % 10) as u8]));
            assert(dec_of(n as nat) == dec_of(n as nat / 10) + seq![(48 + n as nat % 10) as u8]);
            assert(n as nat / 10 == (n / 10) as nat);
            assert(doc@ =~= old(doc)@ + dec_of(n as nat));
        }
    }
}

/// The rendered node list entry for one node.
pub open spec fn node_block(nd: Node) -> Seq<u8> {
    "  - id: ".spec_bytes() + dec_of(nd.id as nat) + "\n    title: ".spec_bytes() + encode_utf8(
        nd.title@,
    ) + "\n".spec_bytes()
}

/// The rendered node list entries of the first `k` nodes, in order.
pub open spec fn node_blocks(nodes: Seq<Node>, k: int) -> Seq<u8>
    decreases k,
{
    if k <= 0 {
        Seq::empty()
    } else {
        node_blocks(nodes, k - 1) + node_block(nodes[k - 1])
    }
}

/// The rendered edge list entry for one edge.
pub open spec fn edge_block(e: Edge) -> Seq<u8> {
    "  - start_id: ".spec_bytes() + dec_of(e.source as nat) + "\n    end_id: ".spec_bytes()
        + dec_of(e.target as nat) + "\n".spec_bytes()
}

/// The rendered entries of every edge of type `et` among the first `k`
/// edges, in order.
pub open spec fn edge_blocks(edges: Seq<Edge>, k: int, et: EdgeType) -> Seq<u8>
    decreases k,
{
    if k <= 0 {
        Seq::empty()
    } else {
        edge_blocks(edges, k - 1, et) + (if edges[k - 1].edge_type == et {
            edge_block(edges[k - 1])
        } else {
            Seq::empty()
        })
    }
}

/// The rendered root list entries of the first `k` roots, in order.
pub open spec fn root_blocks(roots: Seq<NodeID>, k: int) -> Seq<u8>
    decreases k,
{
    if k <= 0 {
        Seq::empty()
    } else {
        root_blocks(roots, k - 1) + ("  - ".spec_bytes() + dec_of(roots[k - 1] as nat)
            + "\n".spec_bytes())
    }
}

/// Whether the graph holds any edge of type `et`.
pub open spec fn has_edge_of_type(g: RootedSupercluster, et: EdgeType) -> bool {
    exists|i: int| 0 <= i < g.edges@.len() && g.edges@[i].edge_type == et
}

/// The complete rendered graph document: the node list, then the `All` and
/// `AtLeastOne` edge lists and the root list, each section omitted when
/// empty.
pub open spec fn graph_doc(g: RootedSupercluster) -> Seq<u8> {
    "nodes:\n".spec_bytes() + node_blocks(g.nodes@, g.nodes@.len() as int) + (if has_edge_of_type(
        g,
        EdgeType::All,
    ) {
        "all_type_edges:\n".spec_bytes() + edge_blocks(g.edges@, g.edges@.len() as int, EdgeType::All)
    } else {
        Seq::empty()
    }) + (if has_edge_of_type(g, EdgeType::AtLeastOne) {
        "any_type_edges:\n".spec_bytes() + edge_blocks(
            g.edges@,
            g.edges@.len() as int,
            EdgeType::AtLeastOne,
        )
    } else {
        Seq::empty()
    }) + (if g.roots@.len() > 0 {
        "roots:\n".spec_bytes() + root_blocks(g.roots@, g.roots@.len() as int)
    } else {
        Seq::empty()
    })
}

/// Whether the graph holds any edge of type `et`, decided by scanning the
/// edge list.
fn has_edge_type_exec(g: &RootedSupercluster, et: EdgeType) -> (r: bool)
    ensures
        r == has_edge_of_type(*g, et),
{
    let mut i: usize = 0;
    while i < g.edges.len()
        invariant
            i <= g.edges@.len(),
            forall|k: int| 0 <= k < i ==> (#[trigger] g.edges@[k]).edge_type != et,
        decreases g.edges@.len() - i,
    {
        if g.edges[i].edge_type == et {
            assert(g.edges@[i as int].edge_type == et);
            return true;
        }
        i = i + 1;
    }
    false
}

/// Append the rendered entry of one node.
fn push_node_block(doc: &mut Vec<u8>, nd: &Node)
    ensures
        final(doc)@ == old(doc)@ + node_block(*nd),
{
    push_str_bytes(doc, "  - id: ");
    push_dec(doc, nd.id);
    push_str_bytes(doc, "\n    title: ");
    push_str_bytes(doc, nd.title.as_str());
    push_str_bytes(doc, "\n");
    proof {
        assert(doc@ =~= old(doc)@ + node_block(*nd));
    }
}

/// Append the rendered entry of one edge.
fn push_edge_block(doc: &mut Vec<u8>, e: &Edge)
    ensures
        final(doc)@ == old(doc)@ + edge_block(*e),
{
    push_str_bytes(doc, "  - start_id: ");
    push_dec(doc, e.source);
    push_str_bytes(doc, "\n    end_id: ");
    push_dec(doc, e.target);
    push_str_bytes(doc, "\n");
    proof {
        assert(doc@ =~= old(doc)@ + edge_block(*e));
    }
}

/// Render the graph to its textual document.
pub fn render_graph_doc(g: &RootedSupercluster) -> (r: Vec<u8>)
    ensures
        r@ == graph_doc(*g),
{
    let mut doc: Vec<u8> = Vec::new();
    push_str_bytes(&mut doc, "nodes:\n");
    let mut i: usize = 0;
    while i < g.nodes.len()
        invariant
            i <= g.nodes@.len(),
            doc@ == "nodes:\n".spec_bytes() + node_blocks(g.nodes@, i as int),
        decreases g.nodes@.len() - i,
    {
        push_node_block(&mut doc, &g.nodes[i]);
        proof {
            assert(doc@ =~= "nodes:\n".spec_bytes() + node_blocks(g.nodes@, i + 1));
        }
        i = i + 1;
    }
    let ghost nodes_part = doc@;
    if has_edge_type_exec(g, EdgeType::All) {
        push_str_bytes(&mut doc, "all_type_edges:\n");
        let mut j: usize = 0;
        while j < g.edges.len()
            invariant
                j <= g.edges@.len(),
                doc@ == nodes_part + ("all_type_edges:\n".spec_bytes() + edge_blocks(
                    g.edges@,
                    j as int,
                    EdgeType::All,
                )),
            decreases g.edges@.len() - j,
        {
            if g.edges[j].edge_type == EdgeType::All {
                push_edge_block(&mut doc, &g.edges[j]);
            }
            proof {
                assert(doc@ =~= nodes_part + ("all_type_edges:\n".spec_bytes() + edge_blocks(
                    g.edges@,
                    j + 1,
                    EdgeType::All,
                )));
            }
            j = j + 1;
        }
    }
    let ghost all_part = doc@;
    if has_edge_type_exec(g, EdgeType::AtLeastOne) {
        push_str_bytes(&mut doc, "any_type_edges:\n");
        let mut j: usize = 0;
        while j < g.edges.len()
            invariant
                j <= g.edges@.len(),
                doc@ == all_part + ("any_type_edges:\n".spec_bytes() + edge_blocks(
                    g.edges@,
                    j as int,
                    EdgeType::AtLeastOne,
                )),
            decreases g.edges@.len() - j,
        {
            if g.edges[j].edge_type == EdgeType::AtLeastOne {
                push_edge_block(&mut doc, &g.edges[j]);
            }
            proof {
                assert(doc@ =~= all_part + ("any_type_edges:\n".spec_bytes() + edge_blocks(
                    g.edges@,
                    j + 1,
                    EdgeType::AtLeastOne,
                )));
            }
            j = j + 1;
        }
    }
    let ghost any_part = doc@;
    if g.roots.len() > 0 {
        push_str_bytes(&mut doc, "roots:\n");
        let mut j: usize = 0;
        while j < g.roots.len()
            invariant
                j <= g.roots@.len(),
                doc@ == any_part + ("roots:\n".spec_bytes() + root_blocks(g.roots@, j as int)),
            decreases g.roots@.len() - j,
        {
            push_str_bytes(&mut doc, "  - ");
            push_dec(&mut doc, g.roots[j]);
            push_str_bytes(&mut doc, "\n");
            proof {
                assert(doc@ =~= any_part + ("roots:\n".spec_bytes() + root_blocks(
                    g.roots@,
                    j + 1,
                )));
            }
            j = j + 1;
        }
    }
    proof {
        assert(doc@ =~= graph_doc(*g));
    }
    doc
}

/// One rendered node identifier as a JSON string: its decimal digits in
/// double quotes.
pub open spec fn quoted_id(id: NodeID) -> Seq<u8> {
    "\"".spec_bytes() + dec_of(id as nat) + "\"".spec_bytes()
}

/// The first `k` identifiers rendered as a comma-separated JSON string list.
pub open spec fn id_list_bytes(ids: Seq<NodeID>, k: int) -> Seq<u8>
    decreases k,
{
    if k <= 0 {
        Seq::empty()
    } else if k == 1 {
        quoted_id(ids[0])
    } else {
        id_list_bytes(ids, k - 1) + ",".spec_bytes() + quoted_id(ids[k - 1])
    }
}

/// One rendered condition value: `null` for a root, otherwise a JSON object
/// with the two identifier lists.
pub open spec fn condition_bytes(c: Option<UnlockingCondition>) -> Seq<u8> {
    match c {
        Option::None => "null".spec_bytes(),
        Option::Some(c) => "{\"all_of\":[".spec_bytes() + id_list_bytes(
            c.all_of@,
            c.all_of@.len() as int,
        ) + "],\"one_of\":[".spec_bytes() + id_list_bytes(c.one_of@, c.one_of@.len() as int)
            + "]}".spec_bytes(),
    }
}

/// One rendered condition map entry: the quoted identifier key, a colon, and
/// the condition value.
pub open spec fn entry_bytes(p: (NodeID, Option<UnlockingCondition>)) -> Seq<u8> {
    quoted_id(p.0) + ":".spec_bytes() + condition_bytes(p.1)
}

/// The first `k` condition map entries, comma separated.
pub open spec fn entries_bytes(m: Seq<(NodeID, Option<UnlockingCondition>)>, k: int) -> Seq<u8>
    decreases k,
{
    if k <= 0 {
        Seq::empty()
    } else if k == 1 {
        entry_bytes(m[0])
    } else {
        entries_bytes(m, k - 1) + ",".spec_bytes() + entry_bytes(m[k - 1])
    }
}

/// The complete rendered condition map document: a JSON object keyed by the
/// canonical identifier encoding, in node-list order.
pub open spec fn conditions_doc(m: Seq<(NodeID, Option<UnlockingCondition>)>) -> Seq<u8> {
    "{".spec_bytes() + entries_bytes(m, m.len() as int) + "}".spec_bytes()
}

/// Append one identifier as a quoted JSON string.
fn push_quoted_id(doc: &mut Vec<u8>, id: NodeID)
    ensures
        final(doc)@ == old(doc)@ + quoted_id(id),
{
    push_str_bytes(doc, "\"");
    push_dec(doc, id);
    push_str_bytes(doc, "\"");
    proof {
        assert(doc@ =~= old(doc)@ + quoted_id(id));
    }
}

/// Append a comma-separated JSON string list of identifiers.
fn push_id_list(doc: &mut Vec<u8>, ids: &Vec<NodeID>)
    ensures
        final(doc)@ == old(doc)@ + id_list_bytes(ids@, ids@.len() as int),
{
    let mut i: usize = 0;
    while i < ids.len()
        invariant
            i <= ids@.len(),
            doc@ == old(doc)@ + id_list_bytes(ids@, i as int),
        decreases ids@.len() - i,
    {
        if i > 0 {
            push_str_bytes(doc, ",");
        }
        push_quoted_id(doc, ids[i]);
        proof {
            assert(doc@ =~= old(doc)@ + id_list_bytes(ids@, i + 1));
        }
        i = i + 1;
    }
}

/// Append one rendered condition value.
fn push_condition(doc: &mut Vec<u8>, c: &Option<UnlockingCondition>)
    ensures
        final(doc)@ == old(doc)@ + condition_bytes(*c),
{
    match c {
        Option::None => {
            push_str_bytes(doc, "null");
        },
        Option::Some(cond) => {
            push_str_bytes(doc, "{\"all_of\":[");
            push_id_list(doc, &cond.all_of);
            push_str_bytes(doc, "],\"one_of\":[");
            push_id_list(doc, &cond.one_of);
            push_str_bytes(doc, "]}");
            proof {
                assert(doc@ =~= old(doc)@ + condition_bytes(*c));
            }
        },
    }
}

/// Render the condition map to its textual document.
pub fn render_conditions_doc(m: &Vec<(NodeID, Option<UnlockingCondition>)>) -> (r: Vec<u8>)
    ensures
        r@ == conditions_doc(m@),
{
    let mut doc: Vec<u8> = Vec::new();
    push_str_bytes(&mut doc, "{");
    let mut i: usize = 0;
    while i < m.len()
        invariant
            i <= m@.len(),
            doc@ == "{".spec_bytes() + entries_bytes(m@, i as int),
        decreases m@.len() - i,
    {
        if i > 0 {
            push_str_bytes(&mut doc, ",");
        }
        push_quoted_id(&mut doc, m[i].0);
        push_str_bytes(&mut doc, ":");
        push_condition(&mut doc, &m[i].1);
        proof {
            assert(doc@ =~= "{".spec_bytes() + entries_bytes(m@, i + 1));
        }
        i = i + 1;
    }
    push_str_bytes(&mut doc, "}");
    proof {
        assert(doc@ =~= conditions_doc(m@));
    }
    doc
}

} // verus!
