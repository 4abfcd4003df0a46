//! The library-wide laws, stated and proved once over the public
//! contracts.

use vstd::prelude::*;

use crate::error::GraphModuleError;
use crate::graph::Graph;
use crate::lift::{graph_lists_ok, lift};
use crate::lower::{
    input_targets, is_input_kind, is_output_kind, max_node_id_spec, output_targets,
};
use crate::module::{numbered_ports, GraphModule, GraphModulePort, GraphModulePortTarget};

verus! {

/// Numbering is idempotent: renumbering an already numbered port list
/// from the same base reproduces it unchanged, so a second
/// `numbering_ports` call on an unmodified module assigns identical ids.
pub proof fn lemma_numbering_idempotent(ports: Seq<GraphModulePort>, base: int)
    ensures
        numbered_ports(numbered_ports(ports, base), base) =~= numbered_ports(ports, base),
{
}

/// The interface that a lifted module's port list projects back out: its
/// input-kind targets are exactly `ins` and its output-kind targets
/// exactly `outs`, whenever the list is inputs-then-outputs in order.
proof fn lemma_iface_split(
    ports: Seq<GraphModulePort>,
    ins: Seq<usize>,
    outs: Seq<usize>,
)
    requires
        ports.len() == ins.len() + outs.len(),
        forall|k: int|
            0 <= k < ins.len() ==> is_input_kind(#[trigger] ports[k].port_type) && !is_output_kind(
                ports[k].port_type,
            ) && ports[k].target == GraphModulePortTarget::Node(ins[k]),
        forall|k: int|
            0 <= k < outs.len() ==> is_output_kind(
                #[trigger] ports[ins.len() + k].port_type,
            ) && !is_input_kind(ports[ins.len() + k].port_type) && ports[ins.len() + k].target
                == GraphModulePortTarget::Node(outs[k]),
    ensures
        input_targets(ports) =~= ins,
        output_targets(ports) =~= outs,
    decreases ports.len(),
{
    if outs.len() > 0 {
        assert(ports.drop_last() =~= ports.take(ports.len() - 1));
        lemma_iface_split(ports.drop_last(), ins, outs.drop_last());
    } else if ins.len() > 0 {
        assert(ports.drop_last() =~= ports.take(ports.len() - 1));
        lemma_iface_split(ports.drop_last(), ins.drop_last(), outs);
    }
}

/// Lift-then-lower round trip: lifting any flat graph, numbering the
/// module from 0 and flattening it back reproduces the graph — the same
/// nodes with their declared names, the same declared input and output
/// lists, and the same edges.  Succeeds on every graph whose declared
/// input and output ids resolve to nodes of the matching kind.
pub fn lift_lower_round_trip(g: Graph) -> (r: Result<Graph, GraphModuleError>)
    requires
        g.inputs@.len() + g.outputs@.len() <= usize::MAX,
        max_node_id_spec(g.nodes@) < usize::MAX,
    ensures
        graph_lists_ok(g) ==> r is Ok,
        r matches Ok(out) ==> {
            &&& out.nodes@ =~= g.nodes@
            &&& out.edges@ =~= g.edges@
            &&& out.inputs@ =~= g.inputs@
            &&& out.outputs@ =~= g.outputs@
        },
    {
    let mut m = match lift(g) {
        Ok(m) => m,
        Err(e) => {
            return Err(e);
        },
    };
    let ghost lifted = m;
    m.numbering_ports(0);
    proof {
        assert forall|k: int|
            0 <= k < g.inputs@.len() implies is_input_kind(
            (#[trigger] m.ports@[k]).port_type,
        ) && !is_output_kind(m.ports@[k].port_type) && m.ports@[k].target
            == GraphModulePortTarget::Node(g.inputs@[k]) by {
            assert(crate::lift::lifted_input_port(g, lifted.ports@[k], k));
            assert(m.ports@[k].port_type == lifted.ports@[k].port_type);
            assert(m.ports@[k].target == lifted.ports@[k].target);
        }
        assert forall|k: int|
            0 <= k < g.outputs@.len() implies is_output_kind(
            (#[trigger] m.ports@[g.inputs@.len() + k]).port_type,
        ) && !is_input_kind(m.ports@[g.inputs@.len() + k].port_type) && m.ports@[g.inputs@.len()
            + k].target == GraphModulePortTarget::Node(g.outputs@[k]) by {
            assert(crate::lift::lifted_output_port(g, lifted.ports@[g.inputs@.len() + k], k));
            assert(m.ports@[g.inputs@.len() + k].port_type == lifted.ports@[g.inputs@.len()
                + k].port_type);
            assert(m.ports@[g.inputs@.len() + k].target == lifted.ports@[g.inputs@.len()
                + k].target);
        }
        assert(m.ctx_graphs() == lifted.ctx_graphs());
        assert(m.ctx_graphs()[0] == crate::module::UniqueGraph(0, g));
        assert(crate::lower::graph_match_at(m.ctx_graphs(), 0, 0));
        crate::lower::lemma_found_graph(m.ctx_graphs(), 0, 0);
        assert(m.own_graph() == g);
        assert forall|k: int|
            0 <= k < m.ports@.len() implies (#[trigger] m.ports@[k]).target is Node by {
            if k < g.inputs@.len() {
                assert(m.ports@[k].target == GraphModulePortTarget::Node(g.inputs@[k as int]));
            } else {
                let j = k - g.inputs@.len();
                assert(m.ports@[g.inputs@.len() + j].target == GraphModulePortTarget::Node(
                    g.outputs@[j],
                ));
                assert(g.inputs@.len() + j == k);
            }
        }
        assert(m.is_single_level());
        lemma_iface_split(m.ports@, g.inputs@, g.outputs@);
    }
    m.lower()
}

/// The initialization gate: once `numbering_ports` has run, `check_init`
/// succeeds for the remainder of the module's life (no operation returns
/// a module to the unnumbered state).  Before it has run, `check_init`
/// fails with `NotInitialized`, which is stated by `check_init` itself.
pub fn check_init_after_numbering(m: &mut GraphModule, base: usize) -> (r: Result<
    (),
    GraphModuleError,
>)
    requires
        base + old(m).ports@.len() <= usize::MAX,
    ensures
        r == Ok::<(), GraphModuleError>(()),
{
    m.numbering_ports(base);
    m.check_init()
}

} // verus!
