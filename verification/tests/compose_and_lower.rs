use graph_module::{
    lift, Graph, GraphEdge, GraphModule, GraphModuleError, GraphModuleVariable,
    GraphModuleVariableType, GraphNode, GraphNodeKind,
};

fn input_node(id: usize, name: &str) -> GraphNode {
    GraphNode { id, kind: GraphNodeKind::Input(name.to_string()) }
}

fn output_node(id: usize, name: &str) -> GraphNode {
    GraphNode { id, kind: GraphNodeKind::Output(name.to_string()) }
}

fn sample_graph() -> Graph {
    Graph {
        nodes: vec![
            input_node(0, "a"),
            input_node(1, "b"),
            GraphNode { id: 2, kind: GraphNodeKind::Other },
            output_node(3, "c"),
        ],
        inputs: vec![0, 1],
        outputs: vec![3],
        edges: vec![
            GraphEdge { from: 0, to: 2 },
            GraphEdge { from: 1, to: 2 },
            GraphEdge { from: 2, to: 3 },
        ],
    }
}

fn graph_like(a: &Graph, b: &Graph) -> bool {
    a.inputs == b.inputs && a.outputs == b.outputs && a.edges == b.edges
        && a.nodes.len() == b.nodes.len()
        && a.nodes.iter().zip(b.nodes.iter()).all(|(x, y)| {
            x.id == y.id
                && match (&x.kind, &y.kind) {
                    (GraphNodeKind::Input(n), GraphNodeKind::Input(m)) => n == m,
                    (GraphNodeKind::Output(n), GraphNodeKind::Output(m)) => n == m,
                    (GraphNodeKind::Other, GraphNodeKind::Other) => true,
                    _ => false,
                }
        })
}

#[test]
fn lift_then_lower_round_trips() {
    let g = sample_graph();
    let mut m = lift(g.clone()).unwrap();
    m.numbering_ports(0);
    let out = m.lower().unwrap();
    assert!(graph_like(&out, &g));
}

#[test]
fn round_trip_law_function_agrees() {
    let out = graph_module::laws::lift_lower_round_trip(sample_graph()).unwrap();
    assert!(graph_like(&out, &sample_graph()));
}

#[test]
fn lower_before_numbering_fails_not_initialized() {
    let m = lift(sample_graph()).unwrap();
    assert_eq!(m.lower().unwrap_err(), GraphModuleError::NotInitialized);
}

#[test]
fn lower_without_context_fails_malformed() {
    let mut m = GraphModule::default();
    m.numbering_ports(0);
    assert_eq!(m.lower().unwrap_err(), GraphModuleError::MalformedGraph);
}

#[test]
fn from_instances_rekeys_colliding_module_ids() {
    let p = lift(Graph {
        nodes: vec![output_node(0, "o")],
        inputs: vec![],
        outputs: vec![0],
        edges: vec![],
    })
    .unwrap();
    let q = lift(Graph {
        nodes: vec![input_node(0, "i")],
        inputs: vec![0],
        outputs: vec![],
        edges: vec![],
    })
    .unwrap();
    // Both lifted roots carry module id 0 and graph id 0: a collision.
    assert_eq!(p.id, 0);
    assert_eq!(q.id, 0);
    let parent = GraphModule::from_instances(vec![p, q]).unwrap();
    assert_eq!(parent.instances.len(), 2);
    assert_ne!(parent.instances[0], parent.instances[1]);
    let ctx = parent.context.as_ref().unwrap();
    assert_eq!(ctx.modules.len(), 2);
    assert_eq!(ctx.graphs.len(), 2);
    // Every child is resolvable under its (possibly rewritten) id.
    for &cid in &parent.instances {
        let child = ctx.find_module(cid).unwrap();
        assert_eq!(child.id, cid);
        assert_eq!(child.ports.len(), 1);
    }
    // Only the new root holds a context; merged-in modules hold none.
    assert!(ctx.modules.iter().all(|m| m.context.is_none()));
    // Every child's wrapped-graph tag resolves in the merged arena.
    for m in &ctx.modules {
        let gid = m.graph.unwrap();
        assert!(ctx.find_graph(gid).is_some());
    }
    // No two modules share an id, and the parent's id is fresh.
    let mut ids: Vec<usize> = ctx.modules.iter().map(|m| m.id).collect();
    ids.push(parent.id);
    let n = ids.len();
    ids.sort();
    ids.dedup();
    assert_eq!(ids.len(), n);
}

#[test]
fn from_instances_keeps_distinct_ids() {
    let p = lift(Graph {
        nodes: vec![output_node(0, "o")],
        inputs: vec![],
        outputs: vec![0],
        edges: vec![],
    })
    .unwrap();
    let parent = GraphModule::from_instances(vec![p]).unwrap();
    // A single instance keeps its own id.
    assert_eq!(parent.instances, vec![0]);
    assert_ne!(parent.id, 0);
    assert!(parent.ports.is_empty());
    assert!(parent.vars.is_empty());
    assert!(parent.graph.is_none());
}

#[test]
fn from_instances_of_nothing_yields_empty_arena() {
    let parent = GraphModule::from_instances(Vec::new()).unwrap();
    assert!(parent.instances.is_empty());
    let ctx = parent.context.as_ref().unwrap();
    assert!(ctx.modules.is_empty());
    assert!(ctx.graphs.is_empty());
}

#[test]
fn composed_wire_lowers_to_connected_path() {
    let mut p = lift(Graph {
        nodes: vec![output_node(0, "o")],
        inputs: vec![],
        outputs: vec![0],
        edges: vec![],
    })
    .unwrap();
    let mut q = lift(Graph {
        nodes: vec![input_node(0, "i")],
        inputs: vec![0],
        outputs: vec![],
        edges: vec![],
    })
    .unwrap();
    let next = p.numbering_ports(0);
    let next = q.numbering_ports(next);
    let mut parent = GraphModule::from_instances(vec![p, q]).unwrap();
    parent.vars.push(GraphModuleVariable {
        var_type: GraphModuleVariableType::Wire,
        source: 0, // P.o
        target: 1, // Q.i
    });
    parent.numbering_ports(next);
    let flat = parent.lower().unwrap();
    // P's output node lands first (flat id 0), Q's input node second
    // (flat id 1); the wire becomes the single connecting edge.
    assert_eq!(flat.nodes.len(), 2);
    assert_eq!(flat.edges, vec![GraphEdge { from: 0, to: 1 }]);
    assert!(flat.inputs.is_empty());
    assert!(flat.outputs.is_empty());
}

#[test]
fn nested_composition_preserves_distinct_ids() {
    let p = lift(Graph {
        nodes: vec![output_node(0, "o")],
        inputs: vec![],
        outputs: vec![0],
        edges: vec![],
    })
    .unwrap();
    let parent = GraphModule::from_instances(vec![p]).unwrap();
    let parent_id = parent.id;
    // The single-level hierarchy has ids {0, parent_id}, all distinct, so a
    // further composition re-keys nothing.
    let grand = GraphModule::from_instances(vec![parent]).unwrap();
    assert_eq!(grand.instances, vec![parent_id]);
    let ctx = grand.context.as_ref().unwrap();
    assert_eq!(ctx.modules.len(), 2);
    assert!(ctx.find_module(parent_id).is_some());
    assert!(ctx.find_module(0).is_some());
}

#[test]
fn from_instances_fails_when_id_space_is_exhausted() {
    let mut m = GraphModule::default();
    m.id = usize::MAX;
    assert_eq!(
        GraphModule::from_instances(vec![m]).unwrap_err(),
        GraphModuleError::DuplicateId
    );
}

#[test]
fn root_graph_embeds_first_when_children_follow() {
    let mut child = lift(Graph {
        nodes: vec![input_node(0, "i")],
        inputs: vec![0],
        outputs: vec![],
        edges: vec![],
    })
    .unwrap();
    let next = child.numbering_ports(0);
    let mut parent = GraphModule::from_instances(vec![child]).unwrap();
    // Hand the root its own wrapped graph beside the absorbed child's.
    let ctx = parent.context.as_mut().unwrap();
    ctx.graphs.push(graph_module::UniqueGraph(
        1,
        Graph {
            nodes: vec![GraphNode { id: 5, kind: GraphNodeKind::Other }],
            inputs: vec![],
            outputs: vec![],
            edges: vec![],
        },
    ));
    parent.graph = Some(1);
    parent.numbering_ports(next);
    let flat = parent.lower().unwrap();
    // The root's own node comes first unshifted; the child's node follows,
    // shifted past the root graph's largest id.
    assert_eq!(flat.nodes.len(), 2);
    assert_eq!(flat.nodes[0].id, 5);
    assert_eq!(flat.nodes[1].id, 6);
}
