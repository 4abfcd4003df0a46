//! The flat signal graph a module can wrap.
//!
//! The surrounding compiler treats the flat graph as a collaborator: a
//! single-level collection of nodes with identities and kinds, an ordered
//! enumeration of its input and output node ids, and edges between nodes.
//! The module layer only reads node ids, declared names and edges, and
//! builds a fresh flat graph when flattening a hierarchy.

use vstd::prelude::*;

verus! {

/// Identity of a node within one flat graph.
pub type GraphNodeId = usize;

/// What a node of the flat graph is: an external input with its declared
/// name, an external output with its declared name, or an internal node.
#[derive(Debug)]
pub enum GraphNodeKind {
    Input(String),
    Output(String),
    Other,
}

/// One node of a flat graph.
#[derive(Debug)]
pub struct GraphNode {
    pub id: GraphNodeId,
    pub kind: GraphNodeKind,
}

/// A directed connection between two nodes of one flat graph.
#[derive(Clone, Copy, Debug, PartialEq, Eq, Structural)]
pub struct GraphEdge {
    pub from: GraphNodeId,
    pub to: GraphNodeId,
}

/// A flat, single-level signal graph: nodes, the ordered lists of its
/// declared input and output node ids, and directed edges.
#[derive(Debug)]
pub struct Graph {
    pub nodes: Vec<GraphNode>,
    pub inputs: Vec<GraphNodeId>,
    pub outputs: Vec<GraphNodeId>,
    pub edges: Vec<GraphEdge>,
}

/// The declared name carried by a node kind; internal nodes have none.
pub open spec fn node_name(k: GraphNodeKind) -> Seq<char> {
    match k {
        GraphNodeKind::Input(s) => s@,
        GraphNodeKind::Output(s) => s@,
        GraphNodeKind::Other => Seq::empty(),
    }
}

/// Some node of `nodes` carries the id `id`.
pub open spec fn has_node(nodes: Seq<GraphNode>, id: GraphNodeId) -> bool {
    exists|i: int| 0 <= i < nodes.len() && nodes[i].id == id
}

/// `i` is the first position of `nodes` whose node carries the id `id`.
pub open spec fn node_match_at(nodes: Seq<GraphNode>, id: GraphNodeId, i: int) -> bool {
    &&& 0 <= i < nodes.len()
    &&& nodes[i].id == id
    &&& forall|j: int| 0 <= j < i ==> nodes[j].id != id
}

impl Graph {
    /// Node ids are unique within one flat graph.
    pub open spec fn wf(self) -> bool {
        forall|i: int, j: int|
            0 <= i < j < self.nodes@.len() ==> self.nodes@[i].id != self.nodes@[j].id
    }

    /// A brand-new, empty flat graph.
    pub fn new() -> (g: Graph)
        ensures
            g.nodes@ =~= Seq::<GraphNode>::empty(),
            g.inputs@ =~= Seq::<GraphNodeId>::empty(),
            g.outputs@ =~= Seq::<GraphNodeId>::empty(),
            g.edges@ =~= Seq::<GraphEdge>::empty(),
    {
        Graph { nodes: Vec::new(), inputs: Vec::new(), outputs: Vec::new(), edges: Vec::new() }
    }

    /// Looks a node up by its id; the first match is returned.
    pub fn find_node_by_id(&self, id: GraphNodeId) -> (r: Option<&GraphNode>)
        ensures
            match r {
                Some(n) => exists|i: int| node_match_at(self.nodes@, id, i) && *n == self.nodes@[i],
                None => !has_node(self.nodes@, id),
            },
    {
        let mut i: usize = 0;
        while i < self.nodes.len()
            invariant
                0 <= i <= self.nodes@.len(),
                forall|j: int| 0 <= j < i ==> self.nodes@[j].id != id,
            decreases self.nodes@.len() - i,
        {
            if self.nodes[i].id == id {
                return Some(&self.nodes[i]);
            }
            i = i + 1;
        }
        None
    }
}

impl Default for Graph {
    fn default() -> (g: Graph)
        ensures
            g.nodes@ =~= Seq::<GraphNode>::empty(),
            g.inputs@ =~= Seq::<GraphNodeId>::empty(),
            g.outputs@ =~= Seq::<GraphNodeId>::empty(),
            g.edges@ =~= Seq::<GraphEdge>::empty(),
    {
        Graph::new()
    }
}

impl Clone for GraphNodeKind {
    fn clone(&self) -> (r: GraphNodeKind)
        ensures
            r == *self,
    {
        match self {
            GraphNodeKind::Input(s) => GraphNodeKind::Input(s.clone()),
            GraphNodeKind::Output(s) => GraphNodeKind::Output(s.clone()),
            GraphNodeKind::Other => GraphNodeKind::Other,
        }
    }
}

impl Clone for GraphNode {
    fn clone(&self) -> (r: GraphNode)
        ensures
            r == *self,
    {
        GraphNode { id: self.id, kind: self.kind.clone() }
    }
}

impl Clone for Graph {
    fn clone(&self) -> (r: Graph)
        ensures
            r.nodes@ =~= self.nodes@,
            r.inputs@ =~= self.inputs@,
            r.outputs@ =~= self.outputs@,
            r.edges@ =~= self.edges@,
    {
        let mut nodes: Vec<GraphNode> = Vec::new();
        let mut i: usize = 0;
        while i < self.nodes.len()
            invariant
                i <= self.nodes@.len(),
                nodes@ =~= self.nodes@.take(i as int),
            decreases self.nodes@.len() - i,
        {
            nodes.push(self.nodes[i].clone());
            proof {
                assert(self.nodes@.take(i + 1).drop_last() =~= self.nodes@.take(i as int));
            }
            i = i + 1;
        }
        proof {
            assert(self.nodes@.take(self.nodes@.len() as int) =~= self.nodes@);
        }
        Graph {
            nodes,
            inputs: self.inputs.clone(),
            outputs: self.outputs.clone(),
            edges: self.edges.clone(),
        }
    }
}

} // verus!
