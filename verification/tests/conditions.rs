use supercluster_archive::conditions::{compile_conditions, UnlockingCondition};
use supercluster_archive::get_params_schema;
use supercluster_archive::graph::{Edge, EdgeType, Node, NodeID, RootedSupercluster};

fn node(id: NodeID, title: &str) -> Node {
    Node { id, title: title.to_string() }
}

fn edge(source: NodeID, target: NodeID, edge_type: EdgeType) -> Edge {
    Edge { source, target, edge_type }
}

fn condition_of(
    map: &Vec<(NodeID, Option<UnlockingCondition>)>,
    id: NodeID,
) -> Option<UnlockingCondition> {
    for (k, v) in map.iter() {
        if *k == id {
            return v.clone();
        }
    }
    panic!("no entry for node {}", id);
}

#[test]
fn params_schema_is_empty() {
    assert_eq!(get_params_schema().schema.len(), 0);
}

#[test]
fn scenario_linear_chain() {
    let g = RootedSupercluster {
        nodes: vec![node(1, "A"), node(2, "B")],
        edges: vec![edge(1, 2, EdgeType::All)],
        roots: vec![1],
    };
    assert!(g.check_wf());
    let map = compile_conditions(&g);
    assert_eq!(map.len(), 2);
    assert_eq!(condition_of(&map, 1), None);
    let b = condition_of(&map, 2).expect("B is not a root");
    assert_eq!(b.all_of, vec![1]);
    assert_eq!(b.one_of, Vec::<NodeID>::new());
}

#[test]
fn scenario_mixed_types() {
    let g = RootedSupercluster {
        nodes: vec![node(1, "A"), node(2, "B"), node(3, "C")],
        edges: vec![edge(1, 2, EdgeType::All), edge(1, 3, EdgeType::AtLeastOne)],
        roots: vec![1],
    };
    assert!(g.check_wf());
    let map = compile_conditions(&g);
    assert_eq!(condition_of(&map, 1), None);
    let c = condition_of(&map, 3).expect("C is not a root");
    assert_eq!(c.all_of, Vec::<NodeID>::new());
    assert_eq!(c.one_of, vec![1]);
    let b = condition_of(&map, 2).expect("B is not a root");
    assert_eq!(b.all_of, vec![1]);
    assert_eq!(b.one_of, Vec::<NodeID>::new());
}

#[test]
fn scenario_diamond_closure() {
    let g = RootedSupercluster {
        nodes: vec![node(1, "A"), node(2, "B"), node(3, "C"), node(4, "D")],
        edges: vec![
            edge(1, 2, EdgeType::All),
            edge(2, 4, EdgeType::All),
            edge(1, 3, EdgeType::All),
            edge(3, 4, EdgeType::All),
        ],
        roots: vec![1],
    };
    assert!(g.check_wf());
    let map = compile_conditions(&g);
    let d = condition_of(&map, 4).expect("D is not a root");
    // Full transitive closure, not just the direct predecessors.
    assert_eq!(d.all_of, vec![1, 2, 3]);
    assert_eq!(d.one_of, Vec::<NodeID>::new());
    // No self-dependency on an acyclic hard-edge subgraph.
    assert!(!d.all_of.contains(&4));
    let b = condition_of(&map, 2).expect("B is not a root");
    assert_eq!(b.all_of, vec![1]);
}

#[test]
fn motivator_of_downstream_node_counts() {
    // 1 -> 2 -> 3 hard; 5 motivates 3. Unlocking 2 can be motivated by 5,
    // since 3 is downstream of 2.
    let g = RootedSupercluster {
        nodes: vec![node(1, "A"), node(2, "B"), node(3, "C"), node(5, "M")],
        edges: vec![
            edge(1, 2, EdgeType::All),
            edge(2, 3, EdgeType::All),
            edge(5, 3, EdgeType::AtLeastOne),
        ],
        roots: vec![1, 5],
    };
    assert!(g.check_wf());
    let map = compile_conditions(&g);
    let b = condition_of(&map, 2).expect("B is not a root");
    assert_eq!(b.one_of, vec![5]);
    let c = condition_of(&map, 3).expect("C is not a root");
    assert_eq!(c.all_of, vec![1, 2]);
    assert_eq!(c.one_of, vec![5]);
    assert_eq!(condition_of(&map, 5), None);
}

#[test]
fn recompilation_is_identical() {
    let g = RootedSupercluster {
        nodes: vec![node(1, "A"), node(2, "B"), node(3, "C"), node(4, "D")],
        edges: vec![
            edge(1, 2, EdgeType::All),
            edge(2, 4, EdgeType::All),
            edge(1, 3, EdgeType::All),
            edge(3, 4, EdgeType::All),
            edge(2, 3, EdgeType::AtLeastOne),
        ],
        roots: vec![1],
    };
    let first = compile_conditions(&g);
    let second = compile_conditions(&g);
    assert_eq!(first, second);
}

#[test]
fn well_formedness_checks() {
    let good = RootedSupercluster {
        nodes: vec![node(1, "A"), node(2, "B")],
        edges: vec![edge(1, 2, EdgeType::All)],
        roots: vec![1],
    };
    assert!(good.check_wf());
    let dup_ids = RootedSupercluster {
        nodes: vec![node(1, "A"), node(1, "B")],
        edges: vec![],
        roots: vec![1],
    };
    assert!(!dup_ids.check_wf());
    let dangling_edge = RootedSupercluster {
        nodes: vec![node(1, "A")],
        edges: vec![edge(1, 9, EdgeType::All)],
        roots: vec![1],
    };
    assert!(!dangling_edge.check_wf());
    let unknown_root = RootedSupercluster { nodes: vec![node(1, "A")], edges: vec![], roots: vec![
        7,
    ] };
    assert!(!unknown_root.check_wf());
    let dup_roots = RootedSupercluster { nodes: vec![node(1, "A")], edges: vec![], roots: vec![
        1,
        1,
    ] };
    assert!(!dup_roots.check_wf());
}

#[test]
fn long_chain_full_closure() {
    // 1 -> 2 -> 3 -> 4 -> 5, all hard: every ancestor is listed, however far.
    let g = RootedSupercluster {
        nodes: vec![node(1, "a"), node(2, "b"), node(3, "c"), node(4, "d"), node(5, "e")],
        edges: vec![
            edge(1, 2, EdgeType::All),
            edge(2, 3, EdgeType::All),
            edge(3, 4, EdgeType::All),
            edge(4, 5, EdgeType::All),
        ],
        roots: vec![1],
    };
    let map = compile_conditions(&g);
    let e = condition_of(&map, 5).expect("node 5 is not a root");
    assert_eq!(e.all_of, vec![1, 2, 3, 4]);
    let c = condition_of(&map, 3).expect("node 3 is not a root");
    assert_eq!(c.all_of, vec![1, 2]);
}

#[test]
fn isolated_non_root_gets_empty_condition() {
    let g = RootedSupercluster {
        nodes: vec![node(1, "A"), node(2, "alone")],
        edges: vec![],
        roots: vec![1],
    };
    let map = compile_conditions(&g);
    let alone = condition_of(&map, 2).expect("node 2 is not a root");
    assert_eq!(alone.all_of, Vec::<NodeID>::new());
    assert_eq!(alone.one_of, Vec::<NodeID>::new());
}
