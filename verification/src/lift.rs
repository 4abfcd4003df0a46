//! Lifting a flat graph into a single-level module.

use vstd::prelude::*;

use crate::error::GraphModuleError;
use crate::graph::{has_node, node_match_at, node_name, Graph, GraphNode, GraphNodeId, GraphNodeKind};
use crate::module::{
    GraphModule, GraphModuleContext, GraphModulePort, GraphModulePortTarget,
    GraphModulePortType, GraphModuleState, UniqueGraph,
};

verus! {

/// The node of `nodes` that a lookup of `id` finds: the one at the first
/// matching position.
pub open spec fn found_node(nodes: Seq<GraphNode>, id: GraphNodeId) -> GraphNode {
    nodes[choose|i: int| node_match_at(nodes, id, i)]
}

/// The first matching position for an id is unique.
pub proof fn lemma_node_match_unique(nodes: Seq<GraphNode>, id: GraphNodeId, i: int, j: int)
    requires
        node_match_at(nodes, id, i),
        node_match_at(nodes, id, j),
    ensures
        i == j,
{
}

/// At a first-matching position, the looked-up node is the node there.
pub proof fn lemma_found_node(nodes: Seq<GraphNode>, id: GraphNodeId, i: int)
    requires
        node_match_at(nodes, id, i),
    ensures
        found_node(nodes, id) == nodes[i],
{
    let i0 = choose|i0: int| node_match_at(nodes, id, i0);
    lemma_node_match_unique(nodes, id, i, i0);
}

/// A declared input node id of `g` resolves to a node of input kind.
pub open spec fn lift_input_ok(g: Graph, id: GraphNodeId) -> bool {
    has_node(g.nodes@, id) && found_node(g.nodes@, id).kind is Input
}

/// A declared output node id of `g` resolves to a node of output kind.
pub open spec fn lift_output_ok(g: Graph, id: GraphNodeId) -> bool {
    has_node(g.nodes@, id) && found_node(g.nodes@, id).kind is Output
}

/// Every declared input and output node id of `g` resolves to a node of
/// the matching kind: the condition under which lifting succeeds.
pub open spec fn graph_lists_ok(g: Graph) -> bool {
    &&& forall|k: int| 0 <= k < g.inputs@.len() ==> lift_input_ok(g, #[trigger] g.inputs@[k])
    &&& forall|k: int| 0 <= k < g.outputs@.len() ==> lift_output_ok(g, #[trigger] g.outputs@[k])
}

/// The port that lifting emits at position `k` for the declared input list.
pub open spec fn lifted_input_port(g: Graph, p: GraphModulePort, k: int) -> bool {
    &&& p.id == 0
    &&& p.port_type is InputNet
    &&& p.target == GraphModulePortTarget::Node(g.inputs@[k])
    &&& p.name@ == node_name(found_node(g.nodes@, g.inputs@[k]).kind)
}

/// The port that lifting emits for the declared output list.
pub open spec fn lifted_output_port(g: Graph, p: GraphModulePort, k: int) -> bool {
    &&& p.id == 0
    &&& p.port_type is OutputNet
    &&& p.target == GraphModulePortTarget::Node(g.outputs@[k])
    &&& p.name@ == node_name(found_node(g.nodes@, g.outputs@[k]).kind)
}

/// Converts a flat graph into a single-level module: one `InputNet` port
/// per declared input node followed by one `OutputNet` port per declared
/// output node, each named after its node's declared name and targeting
/// that node, in the graph's own enumeration order.  The module has id 0
/// inside a brand-new context holding exactly the given graph tagged 0.
/// Its ports are not yet numbered: numbering stays a separate, explicit
/// step so a caller controls the global id space.  Fails with
/// `MalformedGraph` exactly when a declared input or output node id is
/// absent from the graph or resolves to a node of the wrong kind.
pub fn lift(g: Graph) -> (r: Result<GraphModule, GraphModuleError>)
    ensures
        r is Ok <==> graph_lists_ok(g),
        r matches Err(e) ==> e is MalformedGraph,
        r matches Ok(m) ==> {
            &&& m.ports@.len() == g.inputs@.len() + g.outputs@.len()
            &&& forall|k: int|
                0 <= k < g.inputs@.len() ==> lifted_input_port(g, #[trigger] m.ports@[k], k)
            &&& forall|k: int|
                0 <= k < g.outputs@.len() ==> lifted_output_port(
                    g,
                    #[trigger] m.ports@[g.inputs@.len() + k],
                    k,
                )
            &&& m.id == 0
            &&& m.graph == Some(0usize)
            &&& m.instances@ =~= Seq::<usize>::empty()
            &&& m.vars@.len() == 0
            &&& !m.is_initialized()
            &&& m.has_context()
            &&& m.ctx_modules() =~= Seq::<GraphModule>::empty()
            &&& m.ctx_graphs() =~= seq![UniqueGraph(0, g)]
        },
{
    let mut ports: Vec<GraphModulePort> = Vec::new();
    let mut k: usize = 0;
    while k < g.inputs.len()
        invariant
            k <= g.inputs@.len(),
            ports@.len() == k,
            forall|j: int| 0 <= j < k ==> lift_input_ok(g, #[trigger] g.inputs@[j]),
            forall|j: int| 0 <= j < k ==> lifted_input_port(g, #[trigger] ports@[j], j),
        decreases g.inputs@.len() - k,
    {
        let id = g.inputs[k];
        match g.find_node_by_id(id) {
            Some(n) => {
                proof {
                    let i = choose|i: int| node_match_at(g.nodes@, id, i) && *n == g.nodes@[i];
                    lemma_found_node(g.nodes@, id, i);
                }
                match &n.kind {
                    GraphNodeKind::Input(s) => {
                        ports.push(
                            GraphModulePort {
                                id: 0,
                                name: s.clone(),
                                port_type: GraphModulePortType::InputNet,
                                target: GraphModulePortTarget::Node(id),
                            },
                        );
                    },
                    _ => {
                        return Err(GraphModuleError::MalformedGraph);
                    },
                }
            },
            None => {
                return Err(GraphModuleError::MalformedGraph);
            },
        }
        k = k + 1;
    }
    let mut k: usize = 0;
    while k < g.outputs.len()
        invariant
            k <= g.outputs@.len(),
            ports@.len() == g.inputs@.len() + k,
            forall|j: int| 0 <= j < g.inputs@.len() ==> lift_input_ok(g, #[trigger] g.inputs@[j]),
            forall|j: int|
                0 <= j < g.inputs@.len() ==> lifted_input_port(g, #[trigger] ports@[j], j),
            forall|j: int| 0 <= j < k ==> lift_output_ok(g, #[trigger] g.outputs@[j]),
            forall|j: int|
                0 <= j < k ==> lifted_output_port(g, #[trigger] ports@[g.inputs@.len() + j], j),
        decreases g.outputs@.len() - k,
    {
        let id = g.outputs[k];
        match g.find_node_by_id(id) {
            Some(n) => {
                proof {
                    let i = choose|i: int| node_match_at(g.nodes@, id, i) && *n == g.nodes@[i];
                    lemma_found_node(g.nodes@, id, i);
                }
                match &n.kind {
                    GraphNodeKind::Output(s) => {
                        ports.push(
                            GraphModulePort {
                                id: 0,
                                name: s.clone(),
                                port_type: GraphModulePortType::OutputNet,
                                target: GraphModulePortTarget::Node(id),
                            },
                        );
                    },
                    _ => {
                        return Err(GraphModuleError::MalformedGraph);
                    },
                }
            },
            None => {
                return Err(GraphModuleError::MalformedGraph);
            },
        }
        k = k + 1;
    }
    let mut graphs: Vec<UniqueGraph> = Vec::new();
    graphs.push(UniqueGraph(0, g));
    let m = GraphModule {
        state: GraphModuleState::UnInitialized,
        context: Some(GraphModuleContext { modules: Vec::new(), graphs }),
        id: 0,
        graph: Some(0),
        instances: Vec::new(),
        vars: Vec::new(),
        ports,
    };
    proof {
        assert(m.ctx_graphs() =~= seq![UniqueGraph(0, g)]);
        assert(m.ctx_modules() =~= Seq::<GraphModule>::empty());
    }
    Ok(m)
}

} // verus!
