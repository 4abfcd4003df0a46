//! Flattening (elaborating) a module hierarchy into one flat graph.
//!
//! Every instance is substituted recursively by its own flattened graph,
//! node identities are renumbered by a disjoint offset per substituted
//! subgraph (deterministic given the instance order), variables become
//! edges connecting the resolved targets of their two ports, and the
//! flat graph's external interface is the root module's ports, each
//! resolved to one concrete node.

use vstd::prelude::*;

use crate::error::GraphModuleError;
use crate::graph::{Graph, GraphEdge, GraphNode, GraphNodeId};
use crate::module::{
    GraphId, GraphModule, GraphModuleContext, GraphModuleId, GraphModulePort,
    GraphModulePortId, GraphModulePortTarget, GraphModulePortType, GraphModuleVariable,
    UniqueGraph,
};

verus! {

/// `post` begins with everything `pre` held, in the same order.
pub open spec fn seq_extends<T>(pre: Seq<T>, post: Seq<T>) -> bool {
    &&& pre.len() <= post.len()
    &&& forall|i: int| 0 <= i < pre.len() ==> post[i] == pre[i]
}

/// Some tagged graph of `gs` carries the id `id`.
pub open spec fn has_graph(gs: Seq<UniqueGraph>, id: GraphId) -> bool {
    exists|i: int| 0 <= i < gs.len() && gs[i].0 == id
}

/// `i` is the first position of `gs` whose tagged graph carries `id`.
pub open spec fn graph_match_at(gs: Seq<UniqueGraph>, id: GraphId, i: int) -> bool {
    &&& 0 <= i < gs.len()
    &&& gs[i].0 == id
    &&& forall|j: int| 0 <= j < i ==> gs[j].0 != id
}

/// The graph that a lookup of `id` finds: the one at the first matching
/// position.
pub open spec fn found_graph(gs: Seq<UniqueGraph>, id: GraphId) -> Graph {
    gs[choose|i: int| graph_match_at(gs, id, i)].1
}

/// At a first-matching position, the looked-up graph is the graph there.
pub proof fn lemma_found_graph(gs: Seq<UniqueGraph>, id: GraphId, i: int)
    requires
        graph_match_at(gs, id, i),
    ensures
        found_graph(gs, id) == gs[i].1,
{
    let i0 = choose|i0: int| graph_match_at(gs, id, i0);
    assert(graph_match_at(gs, id, i0));
}

/// Some module of `ms` carries the id `id`.
pub open spec fn has_module(ms: Seq<GraphModule>, id: GraphModuleId) -> bool {
    exists|i: int| 0 <= i < ms.len() && ms[i].id == id
}

/// `i` is the first position of `ms` whose module carries `id`.
pub open spec fn module_match_at(ms: Seq<GraphModule>, id: GraphModuleId, i: int) -> bool {
    &&& 0 <= i < ms.len()
    &&& ms[i].id == id
    &&& forall|j: int| 0 <= j < i ==> ms[j].id != id
}

/// `nodes` with every node identity shifted up by `off`.
pub open spec fn shifted_nodes(nodes: Seq<GraphNode>, off: int) -> Seq<GraphNode> {
    Seq::new(
        nodes.len(),
        |i: int| GraphNode { id: (nodes[i].id + off) as usize, kind: nodes[i].kind },
    )
}

/// `edges` with both endpoints shifted up by `off`.
pub open spec fn shifted_edges(edges: Seq<GraphEdge>, off: int) -> Seq<GraphEdge> {
    Seq::new(
        edges.len(),
        |i: int|
            GraphEdge {
                from: (edges[i].from + off) as usize,
                to: (edges[i].to + off) as usize,
            },
    )
}

/// The largest node identity in `nodes`; 0 when there is none.
pub open spec fn max_node_id_spec(nodes: Seq<GraphNode>) -> int
    decreases nodes.len(),
{
    if nodes.len() == 0 {
        0
    } else {
        let rest = max_node_id_spec(nodes.drop_last());
        if nodes.last().id > rest {
            nodes.last().id as int
        } else {
            rest
        }
    }
}

/// Every node identity of `nodes` is at most the maximum.
pub proof fn lemma_max_node_id(nodes: Seq<GraphNode>)
    ensures
        forall|i: int| 0 <= i < nodes.len() ==> (#[trigger] nodes[i]).id <= max_node_id_spec(
            nodes,
        ),
    decreases nodes.len(),
{
    if nodes.len() > 0 {
        lemma_max_node_id(nodes.drop_last());
        assert forall|i: int|
            0 <= i < nodes.len() implies (#[trigger] nodes[i]).id <= max_node_id_spec(nodes) by {
            if i < nodes.len() - 1 {
                assert(nodes[i] == nodes.drop_last()[i]);
            } else {
                assert(nodes[i] == nodes.last());
            }
        }
    }
}

/// A port classified as feeding the module from outside.
pub open spec fn is_input_kind(t: GraphModulePortType) -> bool {
    t is InputNet || t is InputReg || t is InOut
}

/// A port classified as driving the outside from the module.
pub open spec fn is_output_kind(t: GraphModulePortType) -> bool {
    t is OutputNet || t is OutputReg || t is InOut
}

/// The node targets of the input-kind ports of `ports`, in port order.
pub open spec fn input_targets(ports: Seq<GraphModulePort>) -> Seq<GraphNodeId>
    decreases ports.len(),
{
    if ports.len() == 0 {
        Seq::empty()
    } else {
        let rest = input_targets(ports.drop_last());
        if is_input_kind(ports.last().port_type) {
            rest.push(ports.last().target->Node_0)
        } else {
            rest
        }
    }
}

/// The node targets of the output-kind ports of `ports`, in port order.
pub open spec fn output_targets(ports: Seq<GraphModulePort>) -> Seq<GraphNodeId>
    decreases ports.len(),
{
    if ports.len() == 0 {
        Seq::empty()
    } else {
        let rest = output_targets(ports.drop_last());
        if is_output_kind(ports.last().port_type) {
            rest.push(ports.last().target->Node_0)
        } else {
            rest
        }
    }
}

/// The input-kind ports of `ports` resolved through the aligned `binds`,
/// in port order.
pub open spec fn iface_inputs(
    ports: Seq<GraphModulePort>,
    binds: Seq<(GraphModulePortId, GraphNodeId)>,
) -> Seq<GraphNodeId>
    decreases ports.len(),
{
    if ports.len() == 0 {
        Seq::empty()
    } else {
        let rest = iface_inputs(ports.drop_last(), binds.drop_last());
        if is_input_kind(ports.last().port_type) {
            rest.push(binds.last().1)
        } else {
            rest
        }
    }
}

/// The output-kind ports of `ports` resolved through the aligned `binds`,
/// in port order.
pub open spec fn iface_outputs(
    ports: Seq<GraphModulePort>,
    binds: Seq<(GraphModulePortId, GraphNodeId)>,
) -> Seq<GraphNodeId>
    decreases ports.len(),
{
    if ports.len() == 0 {
        Seq::empty()
    } else {
        let rest = iface_outputs(ports.drop_last(), binds.drop_last());
        if is_output_kind(ports.last().port_type) {
            rest.push(binds.last().1)
        } else {
            rest
        }
    }
}

/// The module that a lookup of `id` finds: the one at the first matching
/// position.
pub open spec fn found_module(ms: Seq<GraphModule>, id: GraphModuleId) -> GraphModule {
    ms[choose|i: int| module_match_at(ms, id, i)]
}

/// At a first-matching position, the looked-up module is the module there.
pub proof fn lemma_found_module(ms: Seq<GraphModule>, id: GraphModuleId, i: int)
    requires
        module_match_at(ms, id, i),
    ensures
        found_module(ms, id) == ms[i],
{
    let i0 = choose|i0: int| module_match_at(ms, id, i0);
    assert(module_match_at(ms, id, i0));
}

/// What flattening one module occurrence contributes: the nodes and edges
/// it appends, the resolution of its ports to flat nodes, and the next
/// free offset.
pub struct FlatParts {
    pub nodes: Seq<GraphNode>,
    pub edges: Seq<GraphEdge>,
    pub binds: Seq<(GraphModulePortId, GraphNodeId)>,
    pub next: int,
}

/// What flattening a run of child instances contributes, with each
/// child's port resolutions kept by child id.
pub struct ChildParts {
    pub nodes: Seq<GraphNode>,
    pub edges: Seq<GraphEdge>,
    pub child_binds: Seq<(GraphModuleId, Seq<(GraphModulePortId, GraphNodeId)>)>,
    pub next: int,
}

/// The flattened child resolutions as the executable code holds them.
pub open spec fn cbs_view(
    s: Seq<(GraphModuleId, Vec<(GraphModulePortId, GraphNodeId)>)>,
) -> Seq<(GraphModuleId, Seq<(GraphModulePortId, GraphNodeId)>)> {
    s.map_values(|p: (GraphModuleId, Vec<(GraphModulePortId, GraphNodeId)>)| (p.0, p.1@))
}

/// The copy of a module's own wrapped graph, shifted to `off`: its nodes
/// and edges and the next free offset past its largest node id; `None`
/// where the tag does not resolve or the shift leaves the id space.
pub open spec fn own_graph_part(gs: Seq<UniqueGraph>, m: GraphModule, off: int) -> Option<
    (Seq<GraphNode>, Seq<GraphEdge>, int),
> {
    match m.graph {
        None => Some((Seq::empty(), Seq::empty(), off)),
        Some(gid) => if !has_graph(gs, gid) {
            None
        } else {
            let g = found_graph(gs, gid);
            let gmax = max_node_id_spec(g.nodes@);
            if gmax == usize::MAX || off > usize::MAX - gmax - 1 {
                None
            } else if exists|e: int|
                0 <= e < g.edges@.len() && ((#[trigger] g.edges@[e]).from > usize::MAX - off
                    || g.edges@[e].to > usize::MAX - off) {
                None
            } else {
                Some((shifted_nodes(g.nodes@, off), shifted_edges(g.edges@, off), off + gmax + 1))
            }
        },
    }
}

/// First-to-last lookup of a port id among resolved bindings.
pub open spec fn bind_lookup(
    bs: Seq<(GraphModulePortId, GraphNodeId)>,
    pid: GraphModulePortId,
) -> Option<GraphNodeId>
    decreases bs.len(),
{
    if bs.len() == 0 {
        None
    } else if bs[0].0 == pid {
        Some(bs[0].1)
    } else {
        bind_lookup(bs.drop_first(), pid)
    }
}

/// The node that child `cid`'s port `pid` resolved to: the first child
/// entry with that id is consulted, and only that one.
pub open spec fn child_bind_spec(
    cbs: Seq<(GraphModuleId, Seq<(GraphModulePortId, GraphNodeId)>)>,
    cid: GraphModuleId,
    pid: GraphModulePortId,
) -> Option<GraphNodeId>
    decreases cbs.len(),
{
    if cbs.len() == 0 {
        None
    } else if cbs[0].0 == cid {
        bind_lookup(cbs[0].1, pid)
    } else {
        child_bind_spec(cbs.drop_first(), cid, pid)
    }
}

/// A port reference looked up among every child's resolutions in order.
pub open spec fn child_scan(
    cbs: Seq<(GraphModuleId, Seq<(GraphModulePortId, GraphNodeId)>)>,
    pid: GraphModulePortId,
) -> Option<GraphNodeId>
    decreases cbs.len(),
{
    if cbs.len() == 0 {
        None
    } else {
        match bind_lookup(cbs[0].1, pid) {
            Some(n) => Some(n),
            None => child_scan(cbs.drop_first(), pid),
        }
    }
}

/// A variable's port reference resolved: the module's own ports first,
/// then each flattened child in instance order.
pub open spec fn resolve_ref_spec(
    binds: Seq<(GraphModulePortId, GraphNodeId)>,
    cbs: Seq<(GraphModuleId, Seq<(GraphModulePortId, GraphNodeId)>)>,
    pid: GraphModulePortId,
) -> Option<GraphNodeId> {
    match bind_lookup(binds, pid) {
        Some(n) => Some(n),
        None => child_scan(cbs, pid),
    }
}

/// The resolution of every port of the list, in order: a node target is
/// shifted into the module's own copied graph, a pass-through target is
/// looked up among the flattened children; `None` where one fails.
pub open spec fn binds_of(
    ports: Seq<GraphModulePort>,
    has_own: bool,
    off: int,
    cbs: Seq<(GraphModuleId, Seq<(GraphModulePortId, GraphNodeId)>)>,
) -> Option<Seq<(GraphModulePortId, GraphNodeId)>>
    decreases ports.len(),
{
    if ports.len() == 0 {
        Some(Seq::empty())
    } else {
        match binds_of(ports.drop_last(), has_own, off, cbs) {
            None => None,
            Some(bs) => {
                let p = ports.last();
                match p.target {
                    GraphModulePortTarget::Node(n) => if !has_own || n > usize::MAX - off {
                        None
                    } else {
                        Some(bs.push((p.id, (n + off) as usize)))
                    },
                    GraphModulePortTarget::Module(cid, cpid) => match child_bind_spec(
                        cbs,
                        cid,
                        cpid,
                    ) {
                        None => None,
                        Some(nd) => Some(bs.push((p.id, nd))),
                    },
                }
            },
        }
    }
}

/// The edges the module's variables realize, one per variable in order,
/// each connecting its resolved source to its resolved target.
pub open spec fn var_edges(
    vars: Seq<GraphModuleVariable>,
    binds: Seq<(GraphModulePortId, GraphNodeId)>,
    cbs: Seq<(GraphModuleId, Seq<(GraphModulePortId, GraphNodeId)>)>,
) -> Option<Seq<GraphEdge>>
    decreases vars.len(),
{
    if vars.len() == 0 {
        Some(Seq::empty())
    } else {
        match var_edges(vars.drop_last(), binds, cbs) {
            None => None,
            Some(es) => {
                let v = vars.last();
                match (resolve_ref_spec(binds, cbs, v.source), resolve_ref_spec(
                    binds,
                    cbs,
                    v.target,
                )) {
                    (Some(a), Some(bb)) => Some(es.push(GraphEdge { from: a, to: bb })),
                    _ => None,
                }
            },
        }
    }
}

/// The full flattening of one module occurrence at offset `off`: its own
/// graph's shifted copy, every child instance flattened recursively in
/// order with disjoint offsets, its ports resolved, and its variables
/// realized as edges.  `None` exactly where flattening fails: an id that
/// does not resolve, an exhausted id space, or spent fuel (a cyclic
/// hierarchy).
pub open spec fn flatten_module(
    ms: Seq<GraphModule>,
    gs: Seq<UniqueGraph>,
    m: GraphModule,
    fuel: nat,
    off: int,
) -> Option<FlatParts>
    decreases fuel, 1 + m.instances@.len(),
{
    if fuel == 0 {
        None
    } else {
        match own_graph_part(gs, m, off) {
            None => None,
            Some(own) => match flatten_children(ms, gs, m.instances@, fuel, own.2) {
                None => None,
                Some(ch) => match binds_of(m.ports@, m.graph is Some, off, ch.child_binds) {
                    None => None,
                    Some(bs) => match var_edges(m.vars@, bs, ch.child_binds) {
                        None => None,
                        Some(ve) => Some(
                            FlatParts {
                                nodes: own.0 + ch.nodes,
                                edges: own.1 + ch.edges + ve,
                                binds: bs,
                                next: ch.next,
                            },
                        ),
                    },
                },
            },
        }
    }
}

/// The flattening of a run of child instances, each resolved in the arena
/// and flattened with one unit less fuel, offsets chained left to right.
pub open spec fn flatten_children(
    ms: Seq<GraphModule>,
    gs: Seq<UniqueGraph>,
    insts: Seq<GraphModuleId>,
    fuel: nat,
    off: int,
) -> Option<ChildParts>
    decreases fuel, insts.len(),
{
    if insts.len() == 0 {
        Some(ChildParts { nodes: Seq::empty(), edges: Seq::empty(), child_binds: Seq::empty(), next: off })
    } else if fuel == 0 {
        None
    } else if !has_module(ms, insts[0]) {
        None
    } else {
        match flatten_module(ms, gs, found_module(ms, insts[0]), (fuel - 1) as nat, off) {
            None => None,
            Some(fp) => match flatten_children(ms, gs, insts.drop_first(), fuel, fp.next) {
                None => None,
                Some(cp) => Some(
                    ChildParts {
                        nodes: fp.nodes + cp.nodes,
                        edges: fp.edges + cp.edges,
                        child_binds: seq![(insts[0], fp.binds)] + cp.child_binds,
                        next: cp.next,
                    },
                ),
            },
        }
    }
}

/// All graphs an arena owns have internally unique node identities.
pub open spec fn graphs_wf(gs: Seq<UniqueGraph>) -> bool {
    forall|i: int| 0 <= i < gs.len() ==> (#[trigger] gs[i]).1.wf()
}

/// A first matching position for a graph id exists wherever any does.
pub proof fn lemma_first_graph_match(gs: Seq<UniqueGraph>, id: GraphId, i: int)
    requires
        0 <= i < gs.len(),
        gs[i].0 == id,
    ensures
        exists|j: int| graph_match_at(gs, id, j),
    decreases i,
{
    if exists|l: int| 0 <= l < i && gs[l].0 == id {
        let l = choose|l: int| 0 <= l < i && gs[l].0 == id;
        lemma_first_graph_match(gs, id, l);
    } else {
        assert(graph_match_at(gs, id, i));
    }
}

/// The nodes one occurrence contributes carry fresh, pairwise distinct
/// identities: all lie in `[off, next)`, so successive occurrences'
/// blocks are disjoint.
pub proof fn lemma_flatten_nodes_unique(
    ms: Seq<GraphModule>,
    gs: Seq<UniqueGraph>,
    m: GraphModule,
    fuel: nat,
    off: int,
    parts: FlatParts,
)
    requires
        graphs_wf(gs),
        off >= 0,
        flatten_module(ms, gs, m, fuel, off) == Some(parts),
    ensures
        off <= parts.next,
        forall|i: int|
            0 <= i < parts.nodes.len() ==> off <= (#[trigger] parts.nodes[i]).id < parts.next,
        forall|i: int, j: int|
            0 <= i < j < parts.nodes.len() ==> parts.nodes[i].id != parts.nodes[j].id,
    decreases fuel, 1 + m.instances@.len(),
{
    let own = own_graph_part(gs, m, off)->0;
    let ch = flatten_children(ms, gs, m.instances@, fuel, own.2)->0;
    match m.graph {
        Some(gid) => {
            let iw = choose|iw: int| 0 <= iw < gs.len() && gs[iw].0 == gid;
            lemma_first_graph_match(gs, gid, iw);
            let j0 = choose|j0: int| graph_match_at(gs, gid, j0);
            assert(graph_match_at(gs, gid, j0));
            lemma_found_graph(gs, gid, j0);
            let g = found_graph(gs, gid);
            assert(gs[j0].1.wf());
            lemma_max_node_id(g.nodes@);
            assert forall|i: int|
                0 <= i < own.0.len() implies off <= (#[trigger] own.0[i]).id < own.2 by {
                assert(own.0[i].id == g.nodes@[i].id + off);
            }
            assert forall|i: int, j: int|
                0 <= i < j < own.0.len() implies own.0[i].id != own.0[j].id by {
                assert(own.0[i].id == g.nodes@[i].id + off);
                assert(own.0[j].id == g.nodes@[j].id + off);
            }
        },
        None => {},
    }
    lemma_flatten_children_unique(ms, gs, m.instances@, fuel, own.2, ch);
    assert(parts.nodes == own.0 + ch.nodes);
    assert forall|i: int|
        0 <= i < parts.nodes.len() implies off <= (#[trigger] parts.nodes[i]).id < parts.next by {
        if i < own.0.len() {
            assert(parts.nodes[i] == own.0[i]);
        } else {
            assert(parts.nodes[i] == ch.nodes[i - own.0.len()]);
        }
    }
    assert forall|i: int, j: int|
        0 <= i < j < parts.nodes.len() implies parts.nodes[i].id != parts.nodes[j].id by {
        if j < own.0.len() {
            assert(parts.nodes[i] == own.0[i] && parts.nodes[j] == own.0[j]);
        } else if i >= own.0.len() {
            assert(parts.nodes[i] == ch.nodes[i - own.0.len()]);
            assert(parts.nodes[j] == ch.nodes[j - own.0.len()]);
        } else {
            assert(parts.nodes[i] == own.0[i]);
            assert(parts.nodes[j] == ch.nodes[j - own.0.len()]);
        }
    }
}

/// The nodes a run of children contributes carry fresh, pairwise
/// distinct identities in `[off, next)`.
pub proof fn lemma_flatten_children_unique(
    ms: Seq<GraphModule>,
    gs: Seq<UniqueGraph>,
    insts: Seq<GraphModuleId>,
    fuel: nat,
    off: int,
    cp: ChildParts,
)
    requires
        graphs_wf(gs),
        off >= 0,
        flatten_children(ms, gs, insts, fuel, off) == Some(cp),
    ensures
        off <= cp.next,
        forall|i: int|
            0 <= i < cp.nodes.len() ==> off <= (#[trigger] cp.nodes[i]).id < cp.next,
        forall|i: int, j: int|
            0 <= i < j < cp.nodes.len() ==> cp.nodes[i].id != cp.nodes[j].id,
    decreases fuel, insts.len(),
{
    if insts.len() == 0 {
    } else {
        let fp = flatten_module(ms, gs, found_module(ms, insts[0]), (fuel - 1) as nat, off)->0;
        let cp2 = flatten_children(ms, gs, insts.drop_first(), fuel, fp.next)->0;
        lemma_flatten_nodes_unique(ms, gs, found_module(ms, insts[0]), (fuel - 1) as nat, off, fp);
        lemma_flatten_children_unique(ms, gs, insts.drop_first(), fuel, fp.next, cp2);
        assert(cp.nodes == fp.nodes + cp2.nodes);
        assert forall|i: int|
            0 <= i < cp.nodes.len() implies off <= (#[trigger] cp.nodes[i]).id < cp.next by {
            if i < fp.nodes.len() {
                assert(cp.nodes[i] == fp.nodes[i]);
            } else {
                assert(cp.nodes[i] == cp2.nodes[i - fp.nodes.len()]);
            }
        }
        assert forall|i: int, j: int|
            0 <= i < j < cp.nodes.len() implies cp.nodes[i].id != cp.nodes[j].id by {
            if j < fp.nodes.len() {
                assert(cp.nodes[i] == fp.nodes[i] && cp.nodes[j] == fp.nodes[j]);
            } else if i >= fp.nodes.len() {
                assert(cp.nodes[i] == cp2.nodes[i - fp.nodes.len()]);
                assert(cp.nodes[j] == cp2.nodes[j - fp.nodes.len()]);
            } else {
                assert(cp.nodes[i] == fp.nodes[i]);
                assert(cp.nodes[j] == cp2.nodes[j - fp.nodes.len()]);
            }
        }
    }
}

/// `binds_of` fails for the whole list wherever it fails for a prefix.
pub proof fn lemma_binds_of_none(
    ports: Seq<GraphModulePort>,
    has_own: bool,
    off: int,
    cbs: Seq<(GraphModuleId, Seq<(GraphModulePortId, GraphNodeId)>)>,
    k: int,
)
    requires
        0 <= k <= ports.len(),
        binds_of(ports.take(k), has_own, off, cbs) is None,
    ensures
        binds_of(ports, has_own, off, cbs) is None,
    decreases ports.len() - k,
{
    if k == ports.len() {
        assert(ports.take(k) =~= ports);
    } else {
        assert(ports.take(k + 1).drop_last() =~= ports.take(k));
        lemma_binds_of_none(ports, has_own, off, cbs, k + 1);
    }
}

/// `var_edges` fails for the whole list wherever it fails for a prefix.
pub proof fn lemma_var_edges_none(
    vars: Seq<GraphModuleVariable>,
    binds: Seq<(GraphModulePortId, GraphNodeId)>,
    cbs: Seq<(GraphModuleId, Seq<(GraphModulePortId, GraphNodeId)>)>,
    v: int,
)
    requires
        0 <= v <= vars.len(),
        var_edges(vars.take(v), binds, cbs) is None,
    ensures
        var_edges(vars, binds, cbs) is None,
    decreases vars.len() - v,
{
    if v == vars.len() {
        assert(vars.take(v) =~= vars);
    } else {
        assert(vars.take(v + 1).drop_last() =~= vars.take(v));
        lemma_var_edges_none(vars, binds, cbs, v + 1);
    }
}

/// How much fuel the flattening of a root is given: one more than the
/// arena's module count, so only a cyclic hierarchy can spend it.
pub open spec fn root_fuel(n: nat) -> nat {
    if n < usize::MAX {
        (n + 1) as nat
    } else {
        n
    }
}

impl GraphModuleContext {
    /// Looks a tagged graph up by id; the first match is returned.
    pub fn find_graph(&self, id: GraphId) -> (r: Option<&Graph>)
        ensures
            match r {
                Some(g) => has_graph(self.graphs@, id) && *g == found_graph(self.graphs@, id),
                None => !has_graph(self.graphs@, id),
            },
    {
        let mut i: usize = 0;
        while i < self.graphs.len()
            invariant
                i <= self.graphs@.len(),
                forall|j: int| 0 <= j < i ==> (#[trigger] self.graphs@[j]).0 != id,
            decreases self.graphs@.len() - i,
        {
            if self.graphs[i].0 == id {
                proof {
                    lemma_found_graph(self.graphs@, id, i as int);
                }
                return Some(&self.graphs[i].1);
            }
            i = i + 1;
        }
        None
    }

    /// Looks a module up by id; the first match is returned.
    pub fn find_module(&self, id: GraphModuleId) -> (r: Option<&GraphModule>)
        ensures
            match r {
                Some(md) => has_module(self.modules@, id) && *md == found_module(
                    self.modules@,
                    id,
                ),
                None => !has_module(self.modules@, id),
            },
    {
        let mut i: usize = 0;
        while i < self.modules.len()
            invariant
                i <= self.modules@.len(),
                forall|j: int| 0 <= j < i ==> (#[trigger] self.modules@[j]).id != id,
            decreases self.modules@.len() - i,
        {
            if self.modules[i].id == id {
                proof {
                    assert(module_match_at(self.modules@, id, i as int));
                    lemma_found_module(self.modules@, id, i as int);
                }
                return Some(&self.modules[i]);
            }
            i = i + 1;
        }
        None
    }
}

/// The largest node identity of `nodes`; 0 when `nodes` is empty.
fn max_node_id(nodes: &Vec<GraphNode>) -> (mx: usize)
    ensures
        mx == max_node_id_spec(nodes@),
{
    let mut mx: usize = 0;
    let mut t: usize = 0;
    while t < nodes.len()
        invariant
            t <= nodes@.len(),
            mx == max_node_id_spec(nodes@.take(t as int)),
        decreases nodes@.len() - t,
    {
        proof {
            assert(nodes@.take(t + 1).drop_last() =~= nodes@.take(t as int));
            assert(nodes@.take(t + 1).last() == nodes@[t as int]);
        }
        let idv = nodes[t].id;
        if idv > mx {
            mx = idv;
        }
        t = t + 1;
    }
    proof {
        assert(nodes@.take(nodes@.len() as int) =~= nodes@);
    }
    mx
}

/// Looks up, among the flattened children, the node that child `cid`'s
/// port `pid` resolved to; children and ports are matched first-first.
fn find_child_bind(
    child_binds: &Vec<(GraphModuleId, Vec<(GraphModulePortId, GraphNodeId)>)>,
    cid: GraphModuleId,
    pid: GraphModulePortId,
) -> (r: Option<GraphNodeId>)
    ensures
        r == child_bind_spec(cbs_view(child_binds@), cid, pid),
{
    let ghost cbs = cbs_view(child_binds@);
    proof {
        assert(cbs.skip(0) =~= cbs);
    }
    let mut i: usize = 0;
    while i < child_binds.len()
        invariant
            i <= child_binds@.len(),
            cbs == cbs_view(child_binds@),
            child_bind_spec(cbs, cid, pid) == child_bind_spec(cbs.skip(i as int), cid, pid),
        decreases child_binds@.len() - i,
    {
        proof {
            assert(cbs.skip(i as int)[0] == cbs[i as int]);
            assert(cbs[i as int] == (child_binds@[i as int].0, child_binds@[i as int].1@));
        }
        if child_binds[i].0 == cid {
            let entry = &child_binds[i].1;
            proof {
                assert(entry@.skip(0) =~= entry@);
            }
            let mut j: usize = 0;
            while j < entry.len()
                invariant
                    j <= entry@.len(),
                    entry == &child_binds@[i as int].1,
                    i < child_binds@.len(),
                    child_binds@[i as int].0 == cid,
                    cbs == cbs_view(child_binds@),
                    child_bind_spec(cbs, cid, pid) == bind_lookup(entry@, pid),
                    bind_lookup(entry@, pid) == bind_lookup(entry@.skip(j as int), pid),
                decreases entry@.len() - j,
            {
                proof {
                    assert(entry@.skip(j as int)[0] == entry@[j as int]);
                }
                if entry[j].0 == pid {
                    return Some(entry[j].1);
                }
                proof {
                    assert(entry@.skip(j as int).drop_first() =~= entry@.skip(j as int + 1));
                }
                j = j + 1;
            }
            proof {
                assert(entry@.skip(entry@.len() as int) =~= Seq::<(
                    GraphModulePortId,
                    GraphNodeId,
                )>::empty());
            }
            return None;
        }
        proof {
            assert(cbs.skip(i as int).drop_first() =~= cbs.skip(i as int + 1));
        }
        i = i + 1;
    }
    proof {
        assert(cbs.skip(cbs.len() as int) =~= Seq::<(
            GraphModuleId,
            Seq<(GraphModulePortId, GraphNodeId)>,
        )>::empty());
    }
    None
}

/// Resolves a variable's port reference: the module's own resolved ports
/// are searched first, then each flattened child in instance order.
fn resolve_port_ref(
    binds: &Vec<(GraphModulePortId, GraphNodeId)>,
    child_binds: &Vec<(GraphModuleId, Vec<(GraphModulePortId, GraphNodeId)>)>,
    pid: GraphModulePortId,
) -> (r: Option<GraphNodeId>)
    ensures
        r == resolve_ref_spec(binds@, cbs_view(child_binds@), pid),
{
    let ghost cbs = cbs_view(child_binds@);
    proof {
        assert(binds@.skip(0) =~= binds@);
    }
    let mut k: usize = 0;
    while k < binds.len()
        invariant
            k <= binds@.len(),
            bind_lookup(binds@, pid) == bind_lookup(binds@.skip(k as int), pid),
        decreases binds@.len() - k,
    {
        proof {
            assert(binds@.skip(k as int)[0] == binds@[k as int]);
        }
        if binds[k].0 == pid {
            return Some(binds[k].1);
        }
        proof {
            assert(binds@.skip(k as int).drop_first() =~= binds@.skip(k as int + 1));
        }
        k = k + 1;
    }
    proof {
        assert(binds@.skip(binds@.len() as int) =~= Seq::<(
            GraphModulePortId,
            GraphNodeId,
        )>::empty());
        assert(cbs.skip(0) =~= cbs);
    }
    let mut i: usize = 0;
    while i < child_binds.len()
        invariant
            i <= child_binds@.len(),
            cbs == cbs_view(child_binds@),
            bind_lookup(binds@, pid) is None,
            child_scan(cbs, pid) == child_scan(cbs.skip(i as int), pid),
        decreases child_binds@.len() - i,
    {
        proof {
            assert(cbs.skip(i as int)[0] == cbs[i as int]);
            assert(cbs[i as int] == (child_binds@[i as int].0, child_binds@[i as int].1@));
        }
        let entry = &child_binds[i].1;
        proof {
            assert(entry@.skip(0) =~= entry@);
        }
        let mut j: usize = 0;
        while j < entry.len()
            invariant
                j <= entry@.len(),
                entry == &child_binds@[i as int].1,
                i < child_binds@.len(),
                cbs == cbs_view(child_binds@),
                bind_lookup(binds@, pid) is None,
                child_scan(cbs, pid) == child_scan(cbs.skip(i as int), pid),
                cbs.skip(i as int)[0].1 == entry@,
                bind_lookup(entry@, pid) == bind_lookup(entry@.skip(j as int), pid),
            decreases entry@.len() - j,
        {
            proof {
                assert(entry@.skip(j as int)[0] == entry@[j as int]);
            }
            if entry[j].0 == pid {
                return Some(entry[j].1);
            }
            proof {
                assert(entry@.skip(j as int).drop_first() =~= entry@.skip(j as int + 1));
            }
            j = j + 1;
        }
        proof {
            assert(entry@.skip(entry@.len() as int) =~= Seq::<(
                GraphModulePortId,
                GraphNodeId,
            )>::empty());
            assert(cbs.skip(i as int).drop_first() =~= cbs.skip(i as int + 1));
        }
        i = i + 1;
    }
    proof {
        assert(cbs.skip(cbs.len() as int) =~= Seq::<(
            GraphModuleId,
            Seq<(GraphModulePortId, GraphNodeId)>,
        )>::empty());
    }
    None
}

/// Flattens one occurrence of `m` into `out_nodes` / `out_edges`.
///
/// The occurrence's own graph is copied with all node identities shifted
/// by the running offset `next`, children follow recursively in instance
/// order, each with its own disjoint offset, and `m`'s ports are resolved
/// to concrete flat nodes, returned aligned with `m.ports`.  `fuel` bounds
/// the recursion depth: a hierarchy deeper than the arena's module count
/// is cyclic and fails with `MalformedGraph`.  The outcome is exactly
/// `flatten_module`: success, the appended nodes and edges, the returned
/// resolutions and the final offset all agree with it.
fn flatten_rec(
    ctx: &GraphModuleContext,
    m: &GraphModule,
    fuel: usize,
    next: &mut usize,
    out_nodes: &mut Vec<GraphNode>,
    out_edges: &mut Vec<GraphEdge>,
) -> (r: Result<Vec<(GraphModulePortId, GraphNodeId)>, GraphModuleError>)
    ensures
        seq_extends(old(out_nodes)@, final(out_nodes)@),
        seq_extends(old(out_edges)@, final(out_edges)@),
        *old(next) <= *final(next),
        ({
            let sp = flatten_module(ctx.modules@, ctx.graphs@, *m, fuel as nat, *old(next) as int);
            match r {
                Ok(binds) => sp matches Some(parts) && final(out_nodes)@ == old(out_nodes)@
                    + parts.nodes && final(out_edges)@ == old(out_edges)@ + parts.edges && binds@
                    == parts.binds && *final(next) == parts.next,
                Err(_) => sp is None,
            }
        }),
        r matches Ok(binds) ==> {
            &&& binds@.len() == m.ports@.len()
            &&& forall|k: int| 0 <= k < binds@.len() ==> (#[trigger] binds@[k]).0 == m.ports@[k].id
            &&& forall|k: int|
                0 <= k < binds@.len() && m.ports@[k].target is Node ==> (
                #[trigger] binds@[k]).1 == m.ports@[k].target->Node_0 + *old(next)
        },
        (r is Ok && m.graph is Some && has_graph(ctx.graphs@, m.graph->0)) ==> {
            &&& seq_extends(
                old(out_nodes)@ + shifted_nodes(
                    found_graph(ctx.graphs@, m.graph->0).nodes@,
                    *old(next) as int,
                ),
                final(out_nodes)@,
            )
            &&& seq_extends(
                old(out_edges)@ + shifted_edges(
                    found_graph(ctx.graphs@, m.graph->0).edges@,
                    *old(next) as int,
                ),
                final(out_edges)@,
            )
        },
        (r is Ok && m.instances@.len() == 0 && m.vars@.len() == 0 && m.graph is Some && has_graph(
            ctx.graphs@,
            m.graph->0,
        )) ==> {
            &&& final(out_nodes)@ =~= old(out_nodes)@ + shifted_nodes(
                found_graph(ctx.graphs@, m.graph->0).nodes@,
                *old(next) as int,
            )
            &&& final(out_edges)@ =~= old(out_edges)@ + shifted_edges(
                found_graph(ctx.graphs@, m.graph->0).edges@,
                *old(next) as int,
            )
        },
        (fuel > 0 && m.instances@.len() == 0 && m.vars@.len() == 0 && m.graph is Some
            && has_graph(ctx.graphs@, m.graph->0) && max_node_id_spec(
            found_graph(ctx.graphs@, m.graph->0).nodes@,
        ) < usize::MAX && *old(next) == 0 && (forall|k: int|
            0 <= k < m.ports@.len() ==> (#[trigger] m.ports@[k]).target is Node)) ==> r is Ok,
    decreases fuel,
{
    if fuel == 0 {
        return Err(GraphModuleError::MalformedGraph);
    }
    let my_off: usize = *next;
    let mut has_own_graph: bool = false;
    match m.graph {
        Some(gid) => {
            match ctx.find_graph(gid) {
                Some(g) => {
                    has_own_graph = true;
                    let gmax = max_node_id(&g.nodes);
                    if gmax == usize::MAX || my_off > usize::MAX - gmax - 1 {
                        return Err(GraphModuleError::MalformedGraph);
                    }
                    proof {
                        lemma_max_node_id(g.nodes@);
                    }
                    let mut t: usize = 0;
                    while t < g.nodes.len()
                        invariant
                            t <= g.nodes@.len(),
                            my_off + max_node_id_spec(g.nodes@) + 1 <= usize::MAX,
                            forall|j: int|
                                0 <= j < g.nodes@.len() ==> (#[trigger] g.nodes@[j]).id
                                    <= max_node_id_spec(g.nodes@),
                            out_nodes@ =~= old(out_nodes)@ + shifted_nodes(
                                g.nodes@.take(t as int),
                                my_off as int,
                            ),
                            out_edges@ == old(out_edges)@,
                            *next == *old(next),
                            my_off == *old(next),
                        decreases g.nodes@.len() - t,
                    {
                        let nd = &g.nodes[t];
                        out_nodes.push(GraphNode { id: nd.id + my_off, kind: nd.kind.clone() });
                        proof {
                            assert(g.nodes@.take(t + 1).drop_last() =~= g.nodes@.take(t as int));
                            assert(out_nodes@ =~= old(out_nodes)@ + shifted_nodes(
                                g.nodes@.take(t + 1),
                                my_off as int,
                            ));
                        }
                        t = t + 1;
                    }
                    proof {
                        assert(g.nodes@.take(g.nodes@.len() as int) =~= g.nodes@);
                    }
                    let mut e: usize = 0;
                    while e < g.edges.len()
                        invariant
                            e <= g.edges@.len(),
                            fuel >= 1,
                            m.graph is Some,
                            *g == found_graph(ctx.graphs@, m.graph->0),
                            has_graph(ctx.graphs@, m.graph->0),
                            gmax == max_node_id_spec(g.nodes@),
                            gmax < usize::MAX,
                            my_off <= usize::MAX - gmax - 1,
                            forall|j: int|
                                0 <= j < e ==> (#[trigger] g.edges@[j]).from <= usize::MAX - my_off
                                    && g.edges@[j].to <= usize::MAX - my_off,
                            out_edges@ =~= old(out_edges)@ + shifted_edges(
                                g.edges@.take(e as int),
                                my_off as int,
                            ),
                            out_nodes@ =~= old(out_nodes)@ + shifted_nodes(
                                g.nodes@,
                                my_off as int,
                            ),
                            *next == *old(next),
                            my_off == *old(next),
                        decreases g.edges@.len() - e,
                    {
                        let ed = g.edges[e];
                        if ed.from > usize::MAX - my_off || ed.to > usize::MAX - my_off {
                            proof {
                                assert(own_graph_part(ctx.graphs@, *m, my_off as int) is None);
                                assert(flatten_module(
                                    ctx.modules@,
                                    ctx.graphs@,
                                    *m,
                                    fuel as nat,
                                    my_off as int,
                                ) is None);
                            }
                            return Err(GraphModuleError::MalformedGraph);
                        }
                        out_edges.push(GraphEdge { from: ed.from + my_off, to: ed.to + my_off });
                        proof {
                            assert(g.edges@.take(e + 1).drop_last() =~= g.edges@.take(e as int));
                            assert(out_edges@ =~= old(out_edges)@ + shifted_edges(
                                g.edges@.take(e + 1),
                                my_off as int,
                            ));
                        }
                        e = e + 1;
                    }
                    proof {
                        assert(g.edges@.take(g.edges@.len() as int) =~= g.edges@);
                        assert(!(exists|e2: int|
                            0 <= e2 < g.edges@.len() && ((#[trigger] g.edges@[e2]).from
                                > usize::MAX - my_off || g.edges@[e2].to > usize::MAX - my_off)));
                        assert(own_graph_part(ctx.graphs@, *m, my_off as int) == Some(
                            (
                                shifted_nodes(g.nodes@, my_off as int),
                                shifted_edges(g.edges@, my_off as int),
                                my_off + gmax + 1,
                            ),
                        ));
                    }
                    *next = my_off + gmax + 1;
                },
                None => {
                    proof {
                        assert(own_graph_part(ctx.graphs@, *m, my_off as int) is None);
                    }
                    return Err(GraphModuleError::MalformedGraph);
                },
            }
        },
        None => {},
    }
    let ghost nodes_after_own = out_nodes@;
    let ghost edges_after_own = out_edges@;
    let ghost next_after_own = *next;
    proof {
        assert((nodes_after_own.skip(old(out_nodes)@.len() as int)) =~= (
        if m.graph is Some {
            shifted_nodes(found_graph(ctx.graphs@, m.graph->0).nodes@, my_off as int)
        } else {
            Seq::<GraphNode>::empty()
        }));
        assert((edges_after_own.skip(old(out_edges)@.len() as int)) =~= (
        if m.graph is Some {
            shifted_edges(found_graph(ctx.graphs@, m.graph->0).edges@, my_off as int)
        } else {
            Seq::<GraphEdge>::empty()
        }));
        assert(own_graph_part(ctx.graphs@, *m, my_off as int) == Some(
            (
                nodes_after_own.skip(old(out_nodes)@.len() as int),
                edges_after_own.skip(old(out_edges)@.len() as int),
                next_after_own as int,
            ),
        ));
        assert(m.instances@.skip(0) =~= m.instances@);
        assert(out_nodes@.skip(nodes_after_own.len() as int) =~= Seq::<GraphNode>::empty());
        assert(out_edges@.skip(edges_after_own.len() as int) =~= Seq::<GraphEdge>::empty());
    }
    let mut child_binds: Vec<(GraphModuleId, Vec<(GraphModulePortId, GraphNodeId)>)> = Vec::new();
    proof {
        assert(cbs_view(child_binds@) =~= Seq::<(
            GraphModuleId,
            Seq<(GraphModulePortId, GraphNodeId)>,
        )>::empty());
        let full = flatten_children(
            ctx.modules@,
            ctx.graphs@,
            m.instances@,
            fuel as nat,
            next_after_own as int,
        );
        match full {
            None => {},
            Some(cp) => {
                assert(Seq::<GraphNode>::empty() + cp.nodes =~= cp.nodes);
                assert(Seq::<GraphEdge>::empty() + cp.edges =~= cp.edges);
                assert(Seq::<(GraphModuleId, Seq<(GraphModulePortId, GraphNodeId)>)>::empty()
                    + cp.child_binds =~= cp.child_binds);
            },
        }
    }
    let mut c: usize = 0;
    while c < m.instances.len()
        invariant
            c <= m.instances@.len(),
            fuel >= 1,
            my_off == *old(next),
            seq_extends(nodes_after_own, out_nodes@),
            seq_extends(edges_after_own, out_edges@),
            seq_extends(old(out_nodes)@, nodes_after_own),
            seq_extends(old(out_edges)@, edges_after_own),
            m.instances@.len() == 0 ==> out_nodes@ == nodes_after_own,
            m.instances@.len() == 0 ==> out_edges@ == edges_after_own,
            *old(next) <= next_after_own,
            next_after_own <= *next,
            own_graph_part(ctx.graphs@, *m, my_off as int) == Some(
                (
                    nodes_after_own.skip(old(out_nodes)@.len() as int),
                    edges_after_own.skip(old(out_edges)@.len() as int),
                    next_after_own as int,
                ),
            ),
            flatten_children(
                ctx.modules@,
                ctx.graphs@,
                m.instances@,
                fuel as nat,
                next_after_own as int,
            ) == (match flatten_children(
                ctx.modules@,
                ctx.graphs@,
                m.instances@.skip(c as int),
                fuel as nat,
                *next as int,
            ) {
                None => None::<ChildParts>,
                Some(cp) => Some(
                    (ChildParts {
                        nodes: out_nodes@.skip(nodes_after_own.len() as int) + cp.nodes,
                        edges: out_edges@.skip(edges_after_own.len() as int) + cp.edges,
                        child_binds: cbs_view(child_binds@) + cp.child_binds,
                        next: cp.next,
                    }),
                ),
            }),
        decreases m.instances@.len() - c,
    {
        let ghost pre_next = *next;
        let ghost pre_nodes = out_nodes@;
        let ghost pre_edges = out_edges@;
        let ghost pre_cbs = child_binds@;
        let cid = m.instances[c];
        proof {
            assert(m.instances@.skip(c as int)[0] == m.instances@[c as int]);
            assert(m.instances@.skip(c as int).drop_first() =~= m.instances@.skip(c as int + 1));
        }
        match ctx.find_module(cid) {
            Some(child) => {
                let b = match flatten_rec(ctx, child, fuel - 1, next, out_nodes, out_edges) {
                    Ok(b) => b,
                    Err(err) => {
                        proof {
                            assert(flatten_children(
                                ctx.modules@,
                                ctx.graphs@,
                                m.instances@.skip(c as int),
                                fuel as nat,
                                pre_next as int,
                            ) is None);
                            assert(flatten_module(
                                ctx.modules@,
                                ctx.graphs@,
                                *m,
                                fuel as nat,
                                my_off as int,
                            ) is None);
                        }
                        return Err(err);
                    },
                };
                child_binds.push((cid, b));
                proof {
                    let sp = flatten_module(
                        ctx.modules@,
                        ctx.graphs@,
                        found_module(ctx.modules@, cid),
                        (fuel - 1) as nat,
                        pre_next as int,
                    );
                    match sp {
                        Some(fp) => {
                            assert(out_nodes@ == pre_nodes + fp.nodes);
                            assert(out_edges@ == pre_edges + fp.edges);
                            assert(b@ == fp.binds);
                            assert(*next == fp.next);
                            let ln = nodes_after_own.len() as int;
                            let le = edges_after_own.len() as int;
                            assert((pre_nodes + fp.nodes).skip(ln) =~= pre_nodes.skip(ln)
                                + fp.nodes);
                            assert((pre_edges + fp.edges).skip(le) =~= pre_edges.skip(le)
                                + fp.edges);
                            assert(cbs_view(child_binds@) =~= cbs_view(pre_cbs) + seq![
                                (cid, fp.binds),
                            ]);
                            let tail = flatten_children(
                                ctx.modules@,
                                ctx.graphs@,
                                m.instances@.skip(c as int + 1),
                                fuel as nat,
                                fp.next,
                            );
                            match tail {
                                None => {},
                                Some(cp2) => {
                                    assert((pre_nodes.skip(ln) + fp.nodes) + cp2.nodes
                                        =~= pre_nodes.skip(ln) + (fp.nodes + cp2.nodes));
                                    assert((pre_edges.skip(le) + fp.edges) + cp2.edges
                                        =~= pre_edges.skip(le) + (fp.edges + cp2.edges));
                                    assert((cbs_view(pre_cbs) + seq![(cid, fp.binds)])
                                        + cp2.child_binds =~= cbs_view(pre_cbs) + (seq![
                                        (cid, fp.binds),
                                    ] + cp2.child_binds));
                                },
                            }
                        },
                        None => {
                            assert(false);
                        },
                    }
                }
            },
            None => {
                proof {
                    assert(flatten_children(
                        ctx.modules@,
                        ctx.graphs@,
                        m.instances@.skip(c as int),
                        fuel as nat,
                        pre_next as int,
                    ) is None);
                    assert(flatten_module(
                        ctx.modules@,
                        ctx.graphs@,
                        *m,
                        fuel as nat,
                        my_off as int,
                    ) is None);
                }
                return Err(GraphModuleError::MalformedGraph);
            },
        }
        c = c + 1;
    }
    let ghost nodes_done = out_nodes@;
    let ghost edges_done = out_edges@;
    let ghost next_done = *next;
    proof {
        assert(m.instances@.skip(m.instances@.len() as int) =~= Seq::<GraphModuleId>::empty());
        let tailp = flatten_children(
            ctx.modules@,
            ctx.graphs@,
            Seq::<GraphModuleId>::empty(),
            fuel as nat,
            next_done as int,
        );
        assert(tailp matches Some(cp0) && cp0.nodes == Seq::<GraphNode>::empty()
            && cp0.edges == Seq::<GraphEdge>::empty() && cp0.child_binds == Seq::<(
            GraphModuleId,
            Seq<(GraphModulePortId, GraphNodeId)>,
        )>::empty() && cp0.next == next_done as int);
        assert(nodes_done.skip(nodes_after_own.len() as int) + Seq::<GraphNode>::empty()
            =~= nodes_done.skip(nodes_after_own.len() as int));
        assert(edges_done.skip(edges_after_own.len() as int) + Seq::<GraphEdge>::empty()
            =~= edges_done.skip(edges_after_own.len() as int));
        assert(cbs_view(child_binds@) + Seq::<(
            GraphModuleId,
            Seq<(GraphModulePortId, GraphNodeId)>,
        )>::empty() =~= cbs_view(child_binds@));
        assert(flatten_children(
            ctx.modules@,
            ctx.graphs@,
            m.instances@,
            fuel as nat,
            next_after_own as int,
        ) == Some(
            (ChildParts {
                nodes: nodes_done.skip(nodes_after_own.len() as int),
                edges: edges_done.skip(edges_after_own.len() as int),
                child_binds: cbs_view(child_binds@),
                next: next_done as int,
            }),
        ));
        assert(m.ports@.take(0) =~= Seq::<GraphModulePort>::empty());
    }
    let mut binds: Vec<(GraphModulePortId, GraphNodeId)> = Vec::new();
    let mut k: usize = 0;
    while k < m.ports.len()
        invariant
            k <= m.ports@.len(),
            binds@.len() == k,
            forall|j: int| 0 <= j < k ==> (#[trigger] binds@[j]).0 == m.ports@[j].id,
            forall|j: int|
                0 <= j < k && m.ports@[j].target is Node ==> (#[trigger] binds@[j]).1
                    == m.ports@[j].target->Node_0 + my_off,
            my_off == *old(next),
            fuel >= 1,
            has_own_graph == (m.graph is Some),
            seq_extends(nodes_after_own, out_nodes@),
            seq_extends(edges_after_own, out_edges@),
            seq_extends(old(out_nodes)@, out_nodes@),
            seq_extends(old(out_edges)@, out_edges@),
            m.instances@.len() == 0 ==> out_nodes@ == nodes_after_own,
            m.instances@.len() == 0 ==> out_edges@ == edges_after_own,
            *old(next) <= *next,
            out_nodes@ == nodes_done,
            out_edges@ == edges_done,
            *next == next_done,
            own_graph_part(ctx.graphs@, *m, my_off as int) == Some(
                (
                    nodes_after_own.skip(old(out_nodes)@.len() as int),
                    edges_after_own.skip(old(out_edges)@.len() as int),
                    next_after_own as int,
                ),
            ),
            flatten_children(
                ctx.modules@,
                ctx.graphs@,
                m.instances@,
                fuel as nat,
                next_after_own as int,
            ) == Some(
                (ChildParts {
                    nodes: nodes_done.skip(nodes_after_own.len() as int),
                    edges: edges_done.skip(edges_after_own.len() as int),
                    child_binds: cbs_view(child_binds@),
                    next: next_done as int,
                }),
            ),
            binds_of(
                m.ports@.take(k as int),
                m.graph is Some,
                my_off as int,
                cbs_view(child_binds@),
            ) == Some(binds@),
        decreases m.ports@.len() - k,
    {
        proof {
            assert(m.ports@.take(k + 1).drop_last() =~= m.ports@.take(k as int));
            assert(m.ports@.take(k + 1).last() == m.ports@[k as int]);
        }
        let p = &m.ports[k];
        match p.target {
            GraphModulePortTarget::Node(n) => {
                if !has_own_graph {
                    proof {
                        assert(binds_of(
                            m.ports@.take(k + 1),
                            m.graph is Some,
                            my_off as int,
                            cbs_view(child_binds@),
                        ) is None);
                        lemma_binds_of_none(
                            m.ports@,
                            m.graph is Some,
                            my_off as int,
                            cbs_view(child_binds@),
                            k + 1,
                        );
                        assert(flatten_module(
                            ctx.modules@,
                            ctx.graphs@,
                            *m,
                            fuel as nat,
                            my_off as int,
                        ) is None);
                    }
                    return Err(GraphModuleError::MalformedGraph);
                }
                if n > usize::MAX - my_off {
                    proof {
                        assert(binds_of(
                            m.ports@.take(k + 1),
                            m.graph is Some,
                            my_off as int,
                            cbs_view(child_binds@),
                        ) is None);
                        lemma_binds_of_none(
                            m.ports@,
                            m.graph is Some,
                            my_off as int,
                            cbs_view(child_binds@),
                            k + 1,
                        );
                        assert(flatten_module(
                            ctx.modules@,
                            ctx.graphs@,
                            *m,
                            fuel as nat,
                            my_off as int,
                        ) is None);
                    }
                    return Err(GraphModuleError::MalformedGraph);
                }
                binds.push((p.id, n + my_off));
            },
            GraphModulePortTarget::Module(cid, cpid) => {
                match find_child_bind(&child_binds, cid, cpid) {
                    Some(node) => {
                        binds.push((p.id, node));
                    },
                    None => {
                        proof {
                            assert(binds_of(
                                m.ports@.take(k + 1),
                                m.graph is Some,
                                my_off as int,
                                cbs_view(child_binds@),
                            ) is None);
                            lemma_binds_of_none(
                                m.ports@,
                                m.graph is Some,
                                my_off as int,
                                cbs_view(child_binds@),
                                k + 1,
                            );
                            assert(flatten_module(
                                ctx.modules@,
                                ctx.graphs@,
                                *m,
                                fuel as nat,
                                my_off as int,
                            ) is None);
                        }
                        return Err(GraphModuleError::MalformedGraph);
                    },
                }
            },
        }
        k = k + 1;
    }
    proof {
        assert(m.ports@.take(m.ports@.len() as int) =~= m.ports@);
        assert(m.vars@.take(0) =~= Seq::<GraphModuleVariable>::empty());
        assert(out_edges@.skip(edges_done.len() as int) =~= Seq::<GraphEdge>::empty());
    }
    let mut v: usize = 0;
    while v < m.vars.len()
        invariant
            v <= m.vars@.len(),
            binds@.len() == m.ports@.len(),
            forall|j: int| 0 <= j < binds@.len() ==> (#[trigger] binds@[j]).0 == m.ports@[j].id,
            forall|j: int|
                0 <= j < binds@.len() && m.ports@[j].target is Node ==> (#[trigger] binds@[j]).1
                    == m.ports@[j].target->Node_0 + my_off,
            my_off == *old(next),
            fuel >= 1,
            seq_extends(nodes_after_own, out_nodes@),
            seq_extends(edges_after_own, out_edges@),
            seq_extends(old(out_nodes)@, out_nodes@),
            seq_extends(old(out_edges)@, out_edges@),
            m.instances@.len() == 0 ==> out_nodes@ == nodes_after_own,
            m.instances@.len() == 0 && m.vars@.len() == 0 ==> out_edges@ == edges_after_own,
            *old(next) <= *next,
            out_nodes@ == nodes_done,
            seq_extends(edges_done, out_edges@),
            *next == next_done,
            own_graph_part(ctx.graphs@, *m, my_off as int) == Some(
                (
                    nodes_after_own.skip(old(out_nodes)@.len() as int),
                    edges_after_own.skip(old(out_edges)@.len() as int),
                    next_after_own as int,
                ),
            ),
            flatten_children(
                ctx.modules@,
                ctx.graphs@,
                m.instances@,
                fuel as nat,
                next_after_own as int,
            ) == Some(
                (ChildParts {
                    nodes: nodes_done.skip(nodes_after_own.len() as int),
                    edges: edges_done.skip(edges_after_own.len() as int),
                    child_binds: cbs_view(child_binds@),
                    next: next_done as int,
                }),
            ),
            binds_of(m.ports@, m.graph is Some, my_off as int, cbs_view(child_binds@)) == Some(
                binds@,
            ),
            var_edges(m.vars@.take(v as int), binds@, cbs_view(child_binds@)) == Some(
                out_edges@.skip(edges_done.len() as int),
            ),
        decreases m.vars@.len() - v,
    {
        proof {
            assert(m.vars@.take(v + 1).drop_last() =~= m.vars@.take(v as int));
            assert(m.vars@.take(v + 1).last() == m.vars@[v as int]);
        }
        let var = &m.vars[v];
        let src = resolve_port_ref(&binds, &child_binds, var.source);
        let dst = resolve_port_ref(&binds, &child_binds, var.target);
        match (src, dst) {
            (Some(a), Some(bb)) => {
                let ghost pre_ve = out_edges@.skip(edges_done.len() as int);
                out_edges.push(GraphEdge { from: a, to: bb });
                proof {
                    assert(out_edges@.skip(edges_done.len() as int) =~= pre_ve.push(
                        GraphEdge { from: a, to: bb },
                    ));
                }
            },
            _ => {
                proof {
                    assert(var_edges(m.vars@.take(v + 1), binds@, cbs_view(child_binds@))
                        is None);
                    lemma_var_edges_none(m.vars@, binds@, cbs_view(child_binds@), v + 1);
                    assert(flatten_module(
                        ctx.modules@,
                        ctx.graphs@,
                        *m,
                        fuel as nat,
                        my_off as int,
                    ) is None);
                }
                return Err(GraphModuleError::MalformedGraph);
            },
        }
        v = v + 1;
    }
    proof {
        assert(m.vars@.take(m.vars@.len() as int) =~= m.vars@);
    }
    Ok(binds)
}
impl GraphModule {
    /// This root wraps one flat graph directly and instantiates nothing:
    /// the case in which flattening reproduces the wrapped graph exactly.
    pub open spec fn is_single_level(self) -> bool {
        &&& self.instances@.len() == 0
        &&& self.vars@.len() == 0
        &&& self.graph is Some
        &&& has_graph(self.ctx_graphs(), self.graph->0)
        &&& forall|k: int| 0 <= k < self.ports@.len() ==> (#[trigger] self.ports@[k]).target is Node
    }

    /// The flat graph this root wraps, resolved through its context.
    pub open spec fn own_graph(self) -> Graph {
        found_graph(self.ctx_graphs(), self.graph->0)
    }

    /// Flattens this hierarchy root into one flat graph.
    ///
    /// Fails with `NotInitialized` exactly when `numbering_ports` has not
    /// run, and with `MalformedGraph` when the module owns no context or
    /// some id referenced inside the hierarchy does not resolve.  On
    /// success the graph's declared inputs and outputs are the root's
    /// input-kind and output-kind ports in port order, each resolved to
    /// its concrete node; an `InOut` port is listed on both sides.  For a
    /// single-level root the wrapped graph's nodes and edges are
    /// reproduced exactly.
    pub fn lower(&self) -> (r: Result<Graph, GraphModuleError>)
        ensures
            !self.is_initialized() ==> r == Err::<Graph, GraphModuleError>(
                GraphModuleError::NotInitialized,
            ),
            self.is_initialized() && !self.has_context() ==> r == Err::<Graph, GraphModuleError>(
                GraphModuleError::MalformedGraph,
            ),
            r is Ok ==> self.is_initialized() && self.has_context(),
            (self.is_initialized() && self.has_context() && self.is_single_level()
                && max_node_id_spec(self.own_graph().nodes@) < usize::MAX) ==> r is Ok,
            r matches Ok(out) ==> (self.is_single_level() ==> {
                &&& out.nodes@ =~= self.own_graph().nodes@
                &&& out.edges@ =~= self.own_graph().edges@
                &&& out.inputs@ =~= input_targets(self.ports@)
                &&& out.outputs@ =~= output_targets(self.ports@)
            }),
            r matches Ok(out) ==> ((self.graph is Some && has_graph(
                self.ctx_graphs(),
                self.graph->0,
            )) ==> seq_extends(self.own_graph().nodes@, out.nodes@) && seq_extends(
                self.own_graph().edges@,
                out.edges@,
            )),
            (self.is_initialized() && self.has_context()) ==> (r is Ok <==> flatten_module(
                self.ctx_modules(),
                self.ctx_graphs(),
                *self,
                root_fuel(self.ctx_modules().len()),
                0,
            ) is Some),
            r matches Ok(out) ==> (flatten_module(
                self.ctx_modules(),
                self.ctx_graphs(),
                *self,
                root_fuel(self.ctx_modules().len()),
                0,
            ) matches Some(parts) ==> {
                &&& out.nodes@ == parts.nodes
                &&& out.edges@ == parts.edges
                &&& out.inputs@ == iface_inputs(self.ports@, parts.binds)
                &&& out.outputs@ == iface_outputs(self.ports@, parts.binds)
            }),
            r matches Ok(out) ==> (graphs_wf(self.ctx_graphs()) ==> forall|i: int, j: int|
                0 <= i < j < out.nodes@.len() ==> out.nodes@[i].id != out.nodes@[j].id),
    {
        match self.check_init() {
            Ok(()) => {},
            Err(e) => {
                return Err(e);
            },
        }
        let ctx = match &self.context {
            Some(c) => c,
            None => {
                return Err(GraphModuleError::MalformedGraph);
            },
        };
        let mut out_nodes: Vec<GraphNode> = Vec::new();
        let mut out_edges: Vec<GraphEdge> = Vec::new();
        let mut next: usize = 0;
        let fuel: usize = if ctx.modules.len() < usize::MAX {
            ctx.modules.len() + 1
        } else {
            ctx.modules.len()
        };
        proof {
            assert(fuel as nat == root_fuel(self.ctx_modules().len()));
            assert(ctx.modules@ == self.ctx_modules());
            assert(ctx.graphs@ == self.ctx_graphs());
        }
        let binds = match flatten_rec(ctx, self, fuel, &mut next, &mut out_nodes, &mut out_edges) {
            Ok(b) => b,
            Err(e) => {
                return Err(e);
            },
        };
        proof {
            let sp = flatten_module(
                self.ctx_modules(),
                self.ctx_graphs(),
                *self,
                root_fuel(self.ctx_modules().len()),
                0,
            );
            match sp {
                Some(parts) => {
                    assert(Seq::<GraphNode>::empty() + parts.nodes =~= parts.nodes);
                    assert(Seq::<GraphEdge>::empty() + parts.edges =~= parts.edges);
                    assert(out_nodes@ == parts.nodes);
                    assert(out_edges@ == parts.edges);
                    if graphs_wf(self.ctx_graphs()) {
                        lemma_flatten_nodes_unique(
                            self.ctx_modules(),
                            self.ctx_graphs(),
                            *self,
                            root_fuel(self.ctx_modules().len()),
                            0,
                            parts,
                        );
                    }
                },
                None => {
                    assert(false);
                },
            }
            assert(self.ports@.take(0) =~= Seq::<GraphModulePort>::empty());
            assert(binds@.take(0) =~= Seq::<(GraphModulePortId, GraphNodeId)>::empty());
        }
        proof {
            if self.graph is Some && has_graph(self.ctx_graphs(), self.graph->0) {
                assert(shifted_nodes(self.own_graph().nodes@, 0) =~= self.own_graph().nodes@);
                assert(shifted_edges(self.own_graph().edges@, 0) =~= self.own_graph().edges@);
                assert(Seq::<GraphNode>::empty() + self.own_graph().nodes@
                    =~= self.own_graph().nodes@);
                assert(Seq::<GraphEdge>::empty() + self.own_graph().edges@
                    =~= self.own_graph().edges@);
                assert(seq_extends(self.own_graph().nodes@, out_nodes@));
                assert(seq_extends(self.own_graph().edges@, out_edges@));
            }
            if self.is_single_level() {
                assert(out_nodes@ =~= self.own_graph().nodes@);
                assert(out_edges@ =~= self.own_graph().edges@);
            }
        }
        let ghost flat_nodes = out_nodes@;
        let ghost flat_edges = out_edges@;
        let mut inputs: Vec<GraphNodeId> = Vec::new();
        let mut outputs: Vec<GraphNodeId> = Vec::new();
        let mut k: usize = 0;
        while k < self.ports.len()
            invariant
                k <= self.ports@.len(),
                binds@.len() == self.ports@.len(),
                forall|j: int|
                    0 <= j < binds@.len() && self.ports@[j].target is Node ==> (
                    #[trigger] binds@[j]).1 == self.ports@[j].target->Node_0,
                self.is_single_level() ==> inputs@ =~= input_targets(self.ports@.take(k as int)),
                self.is_single_level() ==> outputs@ =~= output_targets(
                    self.ports@.take(k as int),
                ),
                inputs@ =~= iface_inputs(self.ports@.take(k as int), binds@.take(k as int)),
                outputs@ =~= iface_outputs(self.ports@.take(k as int), binds@.take(k as int)),
                out_nodes@ == flat_nodes,
                out_edges@ == flat_edges,
            decreases self.ports@.len() - k,
        {
            proof {
                assert(self.ports@.take(k + 1).drop_last() =~= self.ports@.take(k as int));
                assert(self.ports@.take(k + 1).last() == self.ports@[k as int]);
                assert(binds@.take(k + 1).drop_last() =~= binds@.take(k as int));
                assert(binds@.take(k + 1).last() == binds@[k as int]);
            }
            let node = binds[k].1;
            let is_in = match self.ports[k].port_type {
                GraphModulePortType::InputNet | GraphModulePortType::InputReg
                | GraphModulePortType::InOut => true,
                _ => false,
            };
            let is_out = match self.ports[k].port_type {
                GraphModulePortType::OutputNet | GraphModulePortType::OutputReg
                | GraphModulePortType::InOut => true,
                _ => false,
            };
            if is_in {
                inputs.push(node);
            }
            if is_out {
                outputs.push(node);
            }
            k = k + 1;
        }
        proof {
            assert(self.ports@.take(self.ports@.len() as int) =~= self.ports@);
            assert(binds@.take(binds@.len() as int) =~= binds@);
        }
        Ok(Graph { nodes: out_nodes, inputs, outputs, edges: out_edges })
    }
}

} // verus!
