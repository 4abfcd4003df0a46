//! Composing a parent module from existing instances by merging their
//! arenas into one context.
//!
//! Every instance keeps its structural data; the canonical copies of all
//! modules and graphs of the merged hierarchies move into the new root's
//! context.  An id that would collide with one already merged is re-keyed
//! to a fresh id, and every reference to it inside the merged-in modules
//! (instance lists, pass-through port targets, wrapped-graph tags) is
//! rewritten to the new key, never silently overwritten.

use vstd::prelude::*;

use crate::error::GraphModuleError;
use crate::lower::{found_graph, graph_match_at, has_graph, has_module, lemma_found_graph};
use crate::module::{
    GraphId, GraphModule, GraphModuleContext, GraphModuleId, GraphModulePort,
    GraphModulePortTarget, GraphModuleState, UniqueGraph,
};

verus! {

/// `j` is the first entry of `map` whose key is `x`.
pub open spec fn remap_match_at(map: Seq<(usize, usize)>, x: usize, j: int) -> bool {
    &&& 0 <= j < map.len()
    &&& map[j].0 == x
    &&& forall|l: int| 0 <= l < j ==> map[l].0 != x
}

/// Some entry of `map` has the key `x`.
pub open spec fn has_remap(map: Seq<(usize, usize)>, x: usize) -> bool {
    exists|j: int| 0 <= j < map.len() && map[j].0 == x
}

/// What `x` is rewritten to: the value of the first entry keyed `x`, or
/// `x` itself when no entry has that key.
pub open spec fn remapped(map: Seq<(usize, usize)>, x: usize) -> usize {
    if has_remap(map, x) {
        map[choose|j: int| remap_match_at(map, x, j)].1
    } else {
        x
    }
}

/// `b` is `a` with only its module references rewritten: identity, name,
/// classification and port-of-child index are untouched.
pub open spec fn port_like(a: GraphModulePort, b: GraphModulePort) -> bool {
    &&& a.id == b.id
    &&& a.name == b.name
    &&& a.port_type == b.port_type
    &&& match (a.target, b.target) {
        (GraphModulePortTarget::Node(x), GraphModulePortTarget::Node(y)) => x == y,
        (
            GraphModulePortTarget::Module(_, p1),
            GraphModulePortTarget::Module(_, p2),
        ) => p1 == p2,
        _ => false,
    }
}

/// `b` carries `a`'s structure with only its ids re-keyed: the same
/// ports up to rewritten module references, the same variables, an
/// instance list of the same length (its entries are rewritten ids,
/// which `arena_refs_resolve` ties back to the arena), the same
/// wrapped-graph presence and the same lifecycle state.
pub open spec fn module_like(a: GraphModule, b: GraphModule) -> bool {
    &&& a.ports@.len() == b.ports@.len()
    &&& forall|k: int| 0 <= k < a.ports@.len() ==> port_like(#[trigger] a.ports@[k], b.ports@[k])
    &&& a.vars@ == b.vars@
    &&& a.instances@.len() == b.instances@.len()
    &&& (a.graph is Some) == (b.graph is Some)
    &&& a.state == b.state
}

/// `b` is port `a` after the reference rewrite through `map`.
pub open spec fn port_remapped(map: Seq<(usize, usize)>, a: GraphModulePort, b: GraphModulePort) -> bool {
    &&& b.id == a.id
    &&& b.name == a.name
    &&& b.port_type == a.port_type
    &&& match a.target {
        GraphModulePortTarget::Node(n) => b.target == GraphModulePortTarget::Node(n),
        GraphModulePortTarget::Module(mid, pid) => b.target == GraphModulePortTarget::Module(
            remapped(map, mid),
            pid,
        ),
    }
}

/// The id at position `j` of a bundle: the instance's own id at 0, then
/// the ids of the modules its context owns.
pub open spec fn bundle_member_id(m: GraphModule, j: int) -> usize {
    if j == 0 {
        m.id
    } else {
        m.ctx_modules()[j - 1].id
    }
}

/// No module id occurs twice anywhere across the given bundles: the case
/// in which composition re-keys nothing.
pub open spec fn all_arena_ids_distinct(ins: Seq<GraphModule>) -> bool {
    forall|k1: int, j1: int, k2: int, j2: int|
        #![trigger bundle_member_id(ins[k1], j1), bundle_member_id(ins[k2], j2)]
        (0 <= k1 < ins.len() && 0 <= j1 < 1 + ins[k1].ctx_modules().len() && 0 <= k2 < ins.len()
            && 0 <= j2 < 1 + ins[k2].ctx_modules().len() && (k1 != k2 || j1 != j2))
            ==> bundle_member_id(ins[k1], j1) != bundle_member_id(ins[k2], j2)
}

/// `x` is the id of some bundle member of an instance before position `b`.
pub open spec fn is_member_id_before(ins: Seq<GraphModule>, b: int, x: usize) -> bool {
    exists|k1: int, j1: int|
        0 <= k1 < b && 0 <= j1 < 1 + ins[k1].ctx_modules().len() && x == bundle_member_id(
            ins[k1],
            j1,
        )
}

/// Every id the module references resolves: each instance-list entry and
/// each pass-through port target among `ms`, the wrapped-graph tag among
/// `gs`.
pub open spec fn module_refs_resolve(
    m: GraphModule,
    ms: Seq<GraphModule>,
    gs: Seq<UniqueGraph>,
) -> bool {
    &&& forall|k: int| 0 <= k < m.instances@.len() ==> has_module(ms, #[trigger] m.instances@[k])
    &&& forall|k: int|
        0 <= k < m.ports@.len() ==> ((#[trigger] m.ports@[k]).target matches
            GraphModulePortTarget::Module(mid, _) ==> has_module(ms, mid))
    &&& (m.graph matches Some(g) ==> has_graph(gs, g))
}

/// Every id the module references lies in the given id lists.
pub open spec fn module_refs_in(
    m: GraphModule,
    mod_ids: Seq<usize>,
    graph_ids: Seq<usize>,
) -> bool {
    &&& forall|k: int| 0 <= k < m.instances@.len() ==> mod_ids.contains(#[trigger] m.instances@[k])
    &&& forall|k: int|
        0 <= k < m.ports@.len() ==> ((#[trigger] m.ports@[k]).target matches
            GraphModulePortTarget::Module(mid, _) ==> mod_ids.contains(mid))
    &&& (m.graph matches Some(g) ==> graph_ids.contains(g))
}

/// A hierarchy handed to composition is self-contained: every reference
/// inside the bundle resolves within the bundle, and only the root holds
/// a context.
pub open spec fn bundle_wf(m: GraphModule) -> bool {
    &&& distinct_module_ids(seq![m] + m.ctx_modules())
    &&& distinct_graph_ids(m.ctx_graphs())
    &&& module_refs_resolve(m, seq![m] + m.ctx_modules(), m.ctx_graphs())
    &&& forall|j: int|
        0 <= j < m.ctx_modules().len() ==> module_refs_resolve(
            #[trigger] m.ctx_modules()[j],
            seq![m] + m.ctx_modules(),
            m.ctx_graphs(),
        )
    &&& forall|j: int| 0 <= j < m.ctx_modules().len() ==> !(#[trigger] m.ctx_modules()[j]).has_context()
}

/// The arena entry standing for a composed instance: resolvable under
/// `cid`, structured like the original, and wrapping — if the original
/// wrapped a graph — a graph of identical value under its rewritten tag.
pub open spec fn child_entry_preserved(
    ms: Seq<GraphModule>,
    gs: Seq<UniqueGraph>,
    cid: usize,
    orig: GraphModule,
) -> bool {
    exists|j: int|
        #![auto]
        0 <= j < ms.len() && ms[j].id == cid && module_like(orig, ms[j]) && (orig.graph matches
        Some(og) ==> (ms[j].graph matches Some(ng) && has_graph(gs, ng) && found_graph(gs, ng)
            == found_graph(orig.ctx_graphs(), og)))
}

/// Every module of the arena references only ids the arena itself
/// resolves: the rewrite kept referential integrity.
pub open spec fn arena_refs_resolve(ms: Seq<GraphModule>, gs: Seq<UniqueGraph>) -> bool {
    forall|j: int| 0 <= j < ms.len() ==> module_refs_resolve(#[trigger] ms[j], ms, gs)
}

/// Wherever any entry of `map` is keyed `x`, a first such entry exists.
proof fn lemma_first_remap_match(map: Seq<(usize, usize)>, x: usize, i: int)
    requires
        0 <= i < map.len(),
        map[i].0 == x,
    ensures
        exists|j: int| remap_match_at(map, x, j),
    decreases i,
{
    if exists|l: int| 0 <= l < i && map[l].0 == x {
        let l = choose|l: int| 0 <= l < i && map[l].0 == x;
        lemma_first_remap_match(map, x, l);
    } else {
        assert(remap_match_at(map, x, i));
    }
}

/// A reference that matches some key of `map` is rewritten to one of the
/// map's values.
proof fn lemma_remap_to_values(map: Seq<(usize, usize)>, x: usize, i: int)
    requires
        0 <= i < map.len(),
        map[i].0 == x,
    ensures
        exists|j: int| 0 <= j < map.len() && remapped(map, x) == (#[trigger] map[j]).1,
{
    lemma_first_remap_match(map, x, i);
    let j0 = choose|j0: int| remap_match_at(map, x, j0);
    assert(remap_match_at(map, x, j0));
    assert(remapped(map, x) == map[j0].1);
}

/// Some module of `ms` carries the id `pid` and the same structure as
/// `orig` up to id re-keying: the instance is resolvable in the arena.
pub open spec fn resolvable_as(ms: Seq<GraphModule>, pid: usize, orig: GraphModule) -> bool {
    exists|j: int| 0 <= j < ms.len() && ms[j].id == pid && module_like(orig, ms[j])
}

/// No two modules of `ms` share an id.
pub open spec fn distinct_module_ids(ms: Seq<GraphModule>) -> bool {
    forall|i: int, j: int| 0 <= i < j < ms.len() ==> ms[i].id != ms[j].id
}

/// No two tagged graphs of `gs` share an id.
pub open spec fn distinct_graph_ids(gs: Seq<UniqueGraph>) -> bool {
    forall|i: int, j: int| 0 <= i < j < gs.len() ==> gs[i].0 != gs[j].0
}

/// How many modules the merged arena holds: each instance itself plus
/// everything its own context owned.
pub open spec fn arena_size(ins: Seq<GraphModule>) -> int
    decreases ins.len(),
{
    if ins.len() == 0 {
        0
    } else {
        arena_size(ins.drop_last()) + 1 + ins.last().ctx_modules().len()
    }
}

/// How many flat graphs the merged arena holds.
pub open spec fn graphs_size(ins: Seq<GraphModule>) -> int
    decreases ins.len(),
{
    if ins.len() == 0 {
        0
    } else {
        graphs_size(ins.drop_last()) + ins.last().ctx_graphs().len()
    }
}

/// Every module id of `m`'s bundle (itself and its context) is below
/// `bm`, and every graph id below `bg`.
pub open spec fn bundle_ids_below(m: GraphModule, bm: int, bg: int) -> bool {
    &&& m.id < bm
    &&& forall|j: int| 0 <= j < m.ctx_modules().len() ==> (#[trigger] m.ctx_modules()[j]).id < bm
    &&& forall|j: int| 0 <= j < m.ctx_graphs().len() ==> (#[trigger] m.ctx_graphs()[j]).0 < bg
}

/// `bundle_ids_below` for every instance.
pub open spec fn arena_ids_below(ins: Seq<GraphModule>, bm: int, bg: int) -> bool {
    forall|k: int| 0 <= k < ins.len() ==> bundle_ids_below(#[trigger] ins[k], bm, bg)
}

/// Both arena sizes are sums of lengths, hence never negative.
proof fn lemma_sizes_nonneg(ins: Seq<GraphModule>)
    ensures
        arena_size(ins) >= 0,
        graphs_size(ins) >= 0,
    decreases ins.len(),
{
    if ins.len() > 0 {
        lemma_sizes_nonneg(ins.drop_last());
    }
}

/// One more prefix element adds the element's own bundle to both sizes.
proof fn lemma_sizes_take_step(ins: Seq<GraphModule>, b: int)
    requires
        0 <= b < ins.len(),
    ensures
        arena_size(ins.take(b + 1)) == arena_size(ins.take(b)) + 1 + ins[b].ctx_modules().len(),
        graphs_size(ins.take(b + 1)) == graphs_size(ins.take(b)) + ins[b].ctx_graphs().len(),
{
    assert(ins.take(b + 1).drop_last() =~= ins.take(b));
    assert(ins.take(b + 1).last() == ins[b]);
}

/// A prefix never counts more than the whole.
proof fn lemma_sizes_prefix(ins: Seq<GraphModule>, b: int)
    requires
        0 <= b <= ins.len(),
    ensures
        arena_size(ins.take(b)) <= arena_size(ins),
        graphs_size(ins.take(b)) <= graphs_size(ins),
    decreases ins.len() - b,
{
    if b == ins.len() {
        assert(ins.take(b) =~= ins);
    } else {
        lemma_sizes_take_step(ins, b);
        lemma_sizes_nonneg(ins[b].ctx_modules());
        lemma_sizes_prefix(ins, b + 1);
    }
}

/// Whether `x` occurs in `xs`.
fn id_in_list(xs: &Vec<usize>, x: usize) -> (b: bool)
    ensures
        b == xs@.contains(x),
{
    let mut i: usize = 0;
    while i < xs.len()
        invariant
            i <= xs@.len(),
            forall|j: int| 0 <= j < i ==> xs@[j] != x,
        decreases xs@.len() - i,
    {
        if xs[i] == x {
            return true;
        }
        i = i + 1;
    }
    false
}

/// Whether some module of `ms` carries the id `x`.
fn module_id_used(ms: &Vec<GraphModule>, x: usize) -> (b: bool)
    ensures
        b == has_module(ms@, x),
{
    let mut i: usize = 0;
    while i < ms.len()
        invariant
            i <= ms@.len(),
            forall|j: int| 0 <= j < i ==> (#[trigger] ms@[j]).id != x,
        decreases ms@.len() - i,
    {
        if ms[i].id == x {
            return true;
        }
        i = i + 1;
    }
    false
}

/// Whether some tagged graph of `gs` carries the id `x`.
fn graph_id_used(gs: &Vec<UniqueGraph>, x: usize) -> (b: bool)
    ensures
        b == has_graph(gs@, x),
{
    let mut i: usize = 0;
    while i < gs.len()
        invariant
            i <= gs@.len(),
            forall|j: int| 0 <= j < i ==> (#[trigger] gs@[j]).0 != x,
        decreases gs@.len() - i,
    {
        if gs[i].0 == x {
            return true;
        }
        i = i + 1;
    }
    false
}

/// Rewrites `x` through the first matching entry of `map`, or keeps it.
fn lookup_remap(map: &Vec<(usize, usize)>, x: usize) -> (r: usize)
    ensures
        r == remapped(map@, x),
{
    let mut i: usize = 0;
    while i < map.len()
        invariant
            i <= map@.len(),
            forall|j: int| 0 <= j < i ==> (#[trigger] map@[j]).0 != x,
        decreases map@.len() - i,
    {
        if map[i].0 == x {
            proof {
                assert(remap_match_at(map@, x, i as int));
                let j0 = choose|j0: int| remap_match_at(map@, x, j0);
                assert(remap_match_at(map@, x, j0));
            }
            return map[i].1;
        }
        i = i + 1;
    }
    x
}

/// Rewrites every id reference inside `m` (instance list entries,
/// pass-through port targets, the wrapped-graph tag) through the two
/// remap tables; `m`'s own id, state, context, variables and port
/// identities are untouched.
fn apply_remap(m: &mut GraphModule, mod_map: &Vec<(usize, usize)>, graph_map: &Vec<(usize, usize)>)
    ensures
        final(m).id == old(m).id,
        final(m).state == old(m).state,
        final(m).context == old(m).context,
        final(m).vars == old(m).vars,
        final(m).ports@.len() == old(m).ports@.len(),
        forall|k: int|
            0 <= k < old(m).ports@.len() ==> port_remapped(
                mod_map@,
                old(m).ports@[k],
                #[trigger] final(m).ports@[k],
            ),
        final(m).instances@.len() == old(m).instances@.len(),
        forall|k: int|
            0 <= k < old(m).instances@.len() ==> #[trigger] final(m).instances@[k] == remapped(
                mod_map@,
                old(m).instances@[k],
            ),
        match old(m).graph {
            Some(g) => final(m).graph == Some(remapped(graph_map@, g)),
            None => final(m).graph is None,
        },
{
    match m.graph {
        Some(g) => {
            let ng = lookup_remap(graph_map, g);
            m.graph = Some(ng);
        },
        None => {},
    }
    let mut i: usize = 0;
    while i < m.instances.len()
        invariant
            i <= m.instances@.len(),
            m.instances@.len() == old(m).instances@.len(),
            forall|k: int|
                0 <= k < i ==> #[trigger] m.instances@[k] == remapped(
                    mod_map@,
                    old(m).instances@[k],
                ),
            forall|k: int|
                i <= k < m.instances@.len() ==> #[trigger] m.instances@[k] == old(
                    m,
                ).instances@[k],
            m.id == old(m).id,
            m.state == old(m).state,
            m.context == old(m).context,
            m.vars == old(m).vars,
            m.ports == old(m).ports,
            match old(m).graph {
                Some(g) => m.graph == Some(remapped(graph_map@, g)),
                None => m.graph is None,
            },
        decreases m.instances@.len() - i,
    {
        let v = m.instances[i];
        let nv = lookup_remap(mod_map, v);
        m.instances[i] = nv;
        i = i + 1;
    }
    let mut i: usize = 0;
    while i < m.ports.len()
        invariant
            i <= m.ports@.len(),
            m.ports@.len() == old(m).ports@.len(),
            forall|k: int|
                0 <= k < i ==> port_remapped(
                    mod_map@,
                    old(m).ports@[k],
                    #[trigger] m.ports@[k],
                ),
            forall|k: int| i <= k < m.ports@.len() ==> #[trigger] m.ports@[k] == old(m).ports@[k],
            m.id == old(m).id,
            m.state == old(m).state,
            m.context == old(m).context,
            m.vars == old(m).vars,
            m.instances@.len() == old(m).instances@.len(),
            forall|k: int|
                0 <= k < m.instances@.len() ==> #[trigger] m.instances@[k] == remapped(
                    mod_map@,
                    old(m).instances@[k],
                ),
            match old(m).graph {
                Some(g) => m.graph == Some(remapped(graph_map@, g)),
                None => m.graph is None,
            },
        decreases m.ports@.len() - i,
    {
        match m.ports[i].target {
            GraphModulePortTarget::Module(mid, pid) => {
                let nm = lookup_remap(mod_map, mid);
                m.ports[i].target = GraphModulePortTarget::Module(nm, pid);
            },
            GraphModulePortTarget::Node(_) => {},
        }
        i = i + 1;
    }
}

impl GraphModule {
    /// Composes a new parent module whose children are the given
    /// instances.  The parent allocates a fresh context and absorbs each
    /// instance's own context into it, so exactly one context owns the
    /// resulting hierarchy; colliding ids are re-keyed and every
    /// reference inside the merged-in modules is rewritten to the new
    /// key.  The parent starts uninitialized with an empty port list and
    /// no variables: its interface is authored explicitly afterwards.
    /// Fails with `DuplicateId` only when a collision cannot be resolved
    /// because the id space is exhausted; every arena whose ids leave
    /// room for the merged hierarchy composes successfully.
    #[verifier::rlimit(50)]
    pub fn from_instances(instances: Vec<GraphModule>) -> (r: Result<
        GraphModule,
        GraphModuleError,
    >)
        ensures
            r matches Err(e) ==> e is DuplicateId,
            (arena_ids_below(
                instances@,
                usize::MAX - arena_size(instances@),
                usize::MAX - graphs_size(instances@),
            ) && arena_size(instances@) <= usize::MAX && graphs_size(instances@) <= usize::MAX)
                ==> r is Ok,
            r matches Ok(m) ==> !m.is_initialized(),
            r matches Ok(m) ==> m.has_context(),
            r matches Ok(m) ==> m.graph is None,
            r matches Ok(m) ==> m.ports@.len() == 0,
            r matches Ok(m) ==> m.vars@.len() == 0,
            r matches Ok(m) ==> m.instances@.len() == instances@.len(),
            r matches Ok(m) ==> distinct_module_ids(m.ctx_modules()),
            r matches Ok(m) ==> distinct_graph_ids(m.ctx_graphs()),
            r matches Ok(m) ==> forall|j: int|
                0 <= j < m.ctx_modules().len() ==> (#[trigger] m.ctx_modules()[j]).id != m.id,
            r matches Ok(m) ==> m.ctx_modules().len() == arena_size(instances@),
            r matches Ok(m) ==> m.ctx_graphs().len() == graphs_size(instances@),
            r matches Ok(m) ==> forall|k: int|
                0 <= k < instances@.len() ==> resolvable_as(
                    m.ctx_modules(),
                    #[trigger] m.instances@[k],
                    instances@[k],
                ),
            r matches Ok(m) ==> (all_arena_ids_distinct(instances@) ==> forall|k: int|
                0 <= k < instances@.len() ==> #[trigger] m.instances@[k] == instances@[k].id),
            r matches Ok(m) ==> forall|j: int|
                0 <= j < m.ctx_modules().len() ==> !(#[trigger] m.ctx_modules()[j]).has_context(),
            r matches Ok(m) ==> ((forall|k: int|
                0 <= k < instances@.len() ==> bundle_wf(#[trigger] instances@[k]))
                ==> arena_refs_resolve(m.ctx_modules(), m.ctx_graphs())),
            r matches Ok(m) ==> ((forall|k: int|
                0 <= k < instances@.len() ==> bundle_wf(#[trigger] instances@[k]))
                ==> forall|k: int|
                0 <= k < instances@.len() ==> child_entry_preserved(
                    m.ctx_modules(),
                    m.ctx_graphs(),
                    #[trigger] m.instances@[k],
                    instances@[k],
                )),
    {
        let ghost ins0 = instances@;
        let ghost bm = usize::MAX - arena_size(ins0);
        let ghost bg = usize::MAX - graphs_size(ins0);
        proof {
            lemma_sizes_nonneg(ins0);
        }
        let mut rest = instances;
        let total = rest.len();
        proof {
            assert(ins0.skip(0) =~= ins0);
            assert(ins0.len() == total);
        }
        let mut new_mods: Vec<GraphModule> = Vec::new();
        let mut new_graphs: Vec<UniqueGraph> = Vec::new();
        let mut parent_instances: Vec<GraphModuleId> = Vec::new();
        let mut next_mid: usize = 0;
        let mut next_gid: usize = 0;
        let mut b: usize = 0;
        while rest.len() > 0
            invariant
                b + rest@.len() == ins0.len(),
                rest@ =~= ins0.skip(b as int),
                parent_instances@.len() == b,
                distinct_module_ids(new_mods@),
                distinct_graph_ids(new_graphs@),
                forall|j: int| 0 <= j < new_mods@.len() ==> (#[trigger] new_mods@[j]).id < next_mid,
                forall|j: int|
                    0 <= j < new_graphs@.len() ==> (#[trigger] new_graphs@[j]).0 < next_gid,
                new_mods@.len() == arena_size(ins0.take(b as int)),
                new_graphs@.len() == graphs_size(ins0.take(b as int)),
                forall|k: int|
                    0 <= k < b ==> exists|j: int|
                        0 <= j < new_mods@.len() && #[trigger] parent_instances@[k]
                            == new_mods@[j].id && module_like(ins0[k], new_mods@[j]),
                (arena_ids_below(ins0, bm, bg) && arena_size(ins0) <= usize::MAX && graphs_size(ins0) <= usize::MAX) ==> next_mid <= bm + arena_size(ins0.take(b as int)),
                (arena_ids_below(ins0, bm, bg) && arena_size(ins0) <= usize::MAX && graphs_size(ins0) <= usize::MAX) ==> next_gid <= bg + graphs_size(
                    ins0.take(b as int),
                ),
                arena_size(ins0) >= 0,
                graphs_size(ins0) >= 0,
                bm == usize::MAX - arena_size(ins0),
                bg == usize::MAX - graphs_size(ins0),
                ins0 == instances@,
                ins0.len() <= usize::MAX,
                all_arena_ids_distinct(ins0) ==> forall|k: int|
                    0 <= k < b ==> #[trigger] parent_instances@[k] == ins0[k].id,
                all_arena_ids_distinct(ins0) ==> forall|j: int|
                    0 <= j < new_mods@.len() ==> is_member_id_before(
                        ins0,
                        b as int,
                        (#[trigger] new_mods@[j]).id,
                    ),
                forall|j: int| 0 <= j < new_mods@.len() ==> !(#[trigger] new_mods@[j]).has_context(),
                (forall|k: int| 0 <= k < ins0.len() ==> bundle_wf(#[trigger] ins0[k]))
                    ==> arena_refs_resolve(new_mods@, new_graphs@),
                (forall|k: int| 0 <= k < ins0.len() ==> bundle_wf(#[trigger] ins0[k]))
                    ==> forall|k: int|
                    0 <= k < b ==> child_entry_preserved(
                        new_mods@,
                        new_graphs@,
                        #[trigger] parent_instances@[k],
                        ins0[k],
                    ),
            decreases rest@.len(),
        {
            proof {
                assert(ins0.skip(b as int)[0] == ins0[b as int]);
                lemma_sizes_take_step(ins0, b as int);
                lemma_sizes_prefix(ins0, b as int + 1);
                lemma_sizes_nonneg(ins0.take(b as int));
            }
            let inst = rest.remove(0);
            proof {
                assert(inst == ins0[b as int]);
                assert(ins0.skip(b as int).remove(0) =~= ins0.skip(b as int + 1));
            }
            let GraphModule {
                state: inst_state,
                context: inst_context,
                id: inst_id,
                graph: inst_graph,
                instances: inst_insts,
                vars: inst_vars,
                ports: inst_ports,
            } = inst;
            let root_rest = GraphModule {
                state: inst_state,
                context: None,
                id: inst_id,
                graph: inst_graph,
                instances: inst_insts,
                vars: inst_vars,
                ports: inst_ports,
            };
            let (bundle_mods, bundle_graphs): (Vec<GraphModule>, Vec<UniqueGraph>) =
                match inst_context {
                Some(c) => (c.modules, c.graphs),
                None => (Vec::new(), Vec::new()),
            };
            proof {
                assert(bundle_mods@ =~= ins0[b as int].ctx_modules());
                assert(bundle_graphs@ =~= ins0[b as int].ctx_graphs());
            }
            let ghost mods_before = new_mods@;
            let ghost graphs_before = new_graphs@;
            let bcount = bundle_mods.len();
            let gcount = bundle_graphs.len();
            if bcount == usize::MAX {
                return Err(GraphModuleError::DuplicateId);
            }
            // Phase one: pick a new id for every module of this bundle,
            // keeping an id that is still free.
            let mut mod_map: Vec<(usize, usize)> = Vec::new();
            let mut new_ids: Vec<usize> = Vec::new();
            let mut w: usize = 0;
            while w < 1 + bcount
                invariant
                    bcount == bundle_mods@.len(),
                    w <= 1 + bcount,
                    mod_map@.len() == w,
                    new_ids@.len() == w,
                    forall|j: int| 0 <= j < w ==> !has_module(mods_before, #[trigger] new_ids@[j]),
                    forall|j1: int, j2: int| 0 <= j1 < j2 < w ==> new_ids@[j1] != new_ids@[j2],
                    forall|j: int| 0 <= j < w ==> #[trigger] new_ids@[j] < next_mid,
                    forall|j: int|
                        0 <= j < mods_before.len() ==> (#[trigger] mods_before[j]).id < next_mid,
                    new_mods@ == mods_before,
                    root_rest.id == ins0[b as int].id,
                    bundle_mods@ =~= ins0[b as int].ctx_modules(),
                    b < ins0.len(),
                    (arena_ids_below(ins0, bm, bg) && arena_size(ins0) <= usize::MAX && graphs_size(ins0) <= usize::MAX) ==> next_mid <= bm + arena_size(
                        ins0.take(b as int),
                    ) + w,
                    arena_size(ins0.take(b as int)) + 1 + bcount <= arena_size(ins0),
                    arena_size(ins0.take(b as int)) >= 0,
                    arena_size(ins0) >= 0,
                    bm == usize::MAX - arena_size(ins0),
                    bg == usize::MAX - graphs_size(ins0),
                    ins0 == instances@,
                    bcount < usize::MAX,
                    all_arena_ids_distinct(ins0) ==> forall|j: int|
                        0 <= j < w ==> #[trigger] new_ids@[j] == bundle_member_id(
                            ins0[b as int],
                            j,
                        ),
                    all_arena_ids_distinct(ins0) ==> forall|j: int|
                        0 <= j < new_mods@.len() ==> is_member_id_before(
                            ins0,
                            b as int,
                            (#[trigger] new_mods@[j]).id,
                        ),
                    forall|j: int| 0 <= j < w ==> (#[trigger] mod_map@[j]).1 == new_ids@[j],
                    w > 0 ==> mod_map@[0].0 == ins0[b as int].id,
                    forall|j: int| 1 <= j < w ==> (#[trigger] mod_map@[j]).0 == bundle_mods@[j - 1].id,
                decreases 1 + bcount - w,
            {
                let old_id = if w == 0 {
                    root_rest.id
                } else {
                    bundle_mods[w - 1].id
                };
                proof {
                    if arena_ids_below(ins0, bm, bg) && arena_size(ins0) <= usize::MAX && graphs_size(ins0) <= usize::MAX {
                        assert(bundle_ids_below(ins0[b as int], bm, bg));
                        if w > 0 {
                            assert(ins0[b as int].ctx_modules()[w - 1].id < bm);
                        }
                        assert(old_id < bm);
                    }
                }
                proof {
                    assert(old_id == bundle_member_id(ins0[b as int], w as int));
                }
                let used = module_id_used(&new_mods, old_id) || id_in_list(&new_ids, old_id);
                proof {
                    if used && all_arena_ids_distinct(ins0) {
                        if has_module(new_mods@, old_id) {
                            let j = choose|j: int|
                                0 <= j < new_mods@.len() && new_mods@[j].id == old_id;
                            assert(is_member_id_before(ins0, b as int, new_mods@[j].id));
                            let (k1, j1) = choose|k1: int, j1: int|
                                0 <= k1 < b && 0 <= j1 < 1 + ins0[k1].ctx_modules().len()
                                    && new_mods@[j].id == bundle_member_id(ins0[k1], j1);
                            assert(bundle_member_id(ins0[k1], j1) != bundle_member_id(
                                ins0[b as int],
                                w as int,
                            ));
                            assert(false);
                        } else {
                            let j = choose|j: int| 0 <= j < new_ids@.len() && new_ids@[j] == old_id;
                            assert(new_ids@[j] == bundle_member_id(ins0[b as int], j));
                            assert(bundle_member_id(ins0[b as int], j) != bundle_member_id(
                                ins0[b as int],
                                w as int,
                            ));
                            assert(false);
                        }
                    }
                }
                let nid: usize;
                if !used {
                    nid = old_id;
                    if old_id >= next_mid {
                        if old_id == usize::MAX {
                            return Err(GraphModuleError::DuplicateId);
                        }
                        next_mid = old_id + 1;
                    }
                } else {
                    if next_mid == usize::MAX {
                        return Err(GraphModuleError::DuplicateId);
                    }
                    nid = next_mid;
                    next_mid = next_mid + 1;
                }
                mod_map.push((old_id, nid));
                new_ids.push(nid);
                w = w + 1;
            }
            // Phase one for graphs.
            let mut graph_map: Vec<(usize, usize)> = Vec::new();
            let mut gnew_ids: Vec<usize> = Vec::new();
            let mut w: usize = 0;
            while w < gcount
                invariant
                    gcount == bundle_graphs@.len(),
                    w <= gcount,
                    graph_map@.len() == w,
                    gnew_ids@.len() == w,
                    forall|j: int| 0 <= j < w ==> !has_graph(graphs_before, #[trigger] gnew_ids@[j]),
                    forall|j1: int, j2: int| 0 <= j1 < j2 < w ==> gnew_ids@[j1] != gnew_ids@[j2],
                    forall|j: int| 0 <= j < w ==> #[trigger] gnew_ids@[j] < next_gid,
                    forall|j: int|
                        0 <= j < graphs_before.len() ==> (#[trigger] graphs_before[j]).0 < next_gid,
                    new_graphs@ == graphs_before,
                    bundle_graphs@ =~= ins0[b as int].ctx_graphs(),
                    b < ins0.len(),
                    (arena_ids_below(ins0, bm, bg) && arena_size(ins0) <= usize::MAX && graphs_size(ins0) <= usize::MAX) ==> next_gid <= bg + graphs_size(
                        ins0.take(b as int),
                    ) + w,
                    graphs_size(ins0.take(b as int)) + gcount <= graphs_size(ins0),
                    graphs_size(ins0.take(b as int)) >= 0,
                    graphs_size(ins0) >= 0,
                    bg == usize::MAX - graphs_size(ins0),
                    bm == usize::MAX - arena_size(ins0),
                    ins0 == instances@,
                    arena_size(ins0) >= 0,
                    forall|j: int| 0 <= j < w ==> (#[trigger] graph_map@[j]).1 == gnew_ids@[j],
                    forall|j: int|
                        0 <= j < w ==> (#[trigger] graph_map@[j]).0
                            == ins0[b as int].ctx_graphs()[j].0,
                decreases gcount - w,
            {
                let old_id = bundle_graphs[w].0;
                proof {
                    if arena_ids_below(ins0, bm, bg) && arena_size(ins0) <= usize::MAX && graphs_size(ins0) <= usize::MAX {
                        assert(bundle_ids_below(ins0[b as int], bm, bg));
                        assert(ins0[b as int].ctx_graphs()[w as int].0 < bg);
                        assert(old_id < bg);
                    }
                }
                let used = graph_id_used(&new_graphs, old_id) || id_in_list(&gnew_ids, old_id);
                let nid: usize;
                if !used {
                    nid = old_id;
                    if old_id >= next_gid {
                        if old_id == usize::MAX {
                            return Err(GraphModuleError::DuplicateId);
                        }
                        next_gid = old_id + 1;
                    }
                } else {
                    if next_gid == usize::MAX {
                        return Err(GraphModuleError::DuplicateId);
                    }
                    nid = next_gid;
                    next_gid = next_gid + 1;
                }
                graph_map.push((old_id, nid));
                gnew_ids.push(nid);
                w = w + 1;
            }
            // Phase two: rewrite the bundle through the two tables and
            // move it into the new arena, the instance itself first.
            let ghost base = new_mods@.len();
            let mut md = root_rest;
            apply_remap(&mut md, &mod_map, &graph_map);
            let rid = new_ids[0];
            md.id = rid;
            new_mods.push(md);
            parent_instances.push(rid);
            proof {
                assert forall|i: int, j: int|
                    0 <= i < j < new_mods@.len() implies new_mods@[i].id != new_mods@[j].id by {
                    if j == new_mods@.len() - 1 {
                        assert(!has_module(mods_before, new_ids@[0]));
                        assert(mods_before[i].id != new_ids@[0]);
                    }
                }
                assert forall|k: int|
                    0 <= k < ins0[b as int].ports@.len() implies port_like(
                    #[trigger] ins0[b as int].ports@[k],
                    new_mods@[base as int].ports@[k],
                ) by {
                    assert(port_remapped(
                        mod_map@,
                        ins0[b as int].ports@[k],
                        new_mods@[base as int].ports@[k],
                    ));
                }
                assert(module_like(ins0[b as int], new_mods@[base as int]));
                assert(!(new_mods@[base as int]).has_context());
                if forall|k: int| 0 <= k < ins0.len() ==> bundle_wf(#[trigger] ins0[k]) {
                    assert(bundle_wf(ins0[b as int]));
                    let bms = seq![ins0[b as int]] + ins0[b as int].ctx_modules();
                    assert(module_refs_resolve(ins0[b as int], bms, ins0[b as int].ctx_graphs()));
                    assert forall|k2: int|
                        0 <= k2 < (new_mods@[base as int]).instances@.len() implies new_ids@.contains(
                        #[trigger] (new_mods@[base as int]).instances@[k2],
                    ) by {
                        let x = ins0[b as int].instances@[k2];
                        assert(has_module(bms, x));
                        let i0 = choose|i0: int| 0 <= i0 < bms.len() && bms[i0].id == x;
                        assert(mod_map@[i0].0 == x);
                        lemma_remap_to_values(mod_map@, x, i0);
                        let j0 = choose|j0: int|
                            0 <= j0 < mod_map@.len() && remapped(mod_map@, x) == mod_map@[j0].1;
                        assert(new_ids@[j0] == remapped(mod_map@, x));
                    }
                    assert forall|k2: int|
                        0 <= k2 < (new_mods@[base as int]).ports@.len() implies ((
                    #[trigger] (new_mods@[base as int]).ports@[k2]).target matches
                        GraphModulePortTarget::Module(mid, _) ==> new_ids@.contains(mid)) by {
                        assert(port_remapped(
                            mod_map@,
                            ins0[b as int].ports@[k2],
                            new_mods@[base as int].ports@[k2],
                        ));
                        match ins0[b as int].ports@[k2].target {
                            GraphModulePortTarget::Module(om, _) => {
                                assert(has_module(bms, om));
                                let i0 = choose|i0: int| 0 <= i0 < bms.len() && bms[i0].id == om;
                                if i0 == 0 {
                                    assert(bms[0] == ins0[b as int]);
                                } else {
                                    assert(bms[i0] == ins0[b as int].ctx_modules()[i0 - 1]);
                                }
                                assert(mod_map@[i0].0 == om);
                                lemma_remap_to_values(mod_map@, om, i0);
                                let j0 = choose|j0: int|
                                    0 <= j0 < mod_map@.len() && remapped(mod_map@, om)
                                        == mod_map@[j0].1;
                                assert(new_ids@[j0] == remapped(mod_map@, om));
                            },
                            GraphModulePortTarget::Node(_) => {},
                        }
                    }
                    match ins0[b as int].graph {
                        Some(og) => {
                            assert(has_graph(ins0[b as int].ctx_graphs(), og));
                            let i0 = choose|i0: int|
                                0 <= i0 < ins0[b as int].ctx_graphs().len()
                                    && ins0[b as int].ctx_graphs()[i0].0 == og;
                            assert(graph_map@[i0].0 == og);
                            lemma_remap_to_values(graph_map@, og, i0);
                            let j0 = choose|j0: int|
                                0 <= j0 < graph_map@.len() && remapped(graph_map@, og)
                                    == graph_map@[j0].1;
                            assert(gnew_ids@[j0] == remapped(graph_map@, og));
                            assert(gnew_ids@.contains(remapped(graph_map@, og)));
                        },
                        None => {},
                    }
                    assert(module_refs_in(new_mods@[base as int], new_ids@, gnew_ids@));
                }
                if all_arena_ids_distinct(ins0) {
                    assert(new_ids@[0] == bundle_member_id(ins0[b as int], 0));
                    assert(is_member_id_before(ins0, b as int + 1, new_ids@[0]));
                    assert forall|j: int|
                        0 <= j < new_mods@.len() implies is_member_id_before(
                        ins0,
                        b as int + 1,
                        (#[trigger] new_mods@[j]).id,
                    ) by {
                        if j < base {
                            assert(is_member_id_before(ins0, b as int, new_mods@[j].id));
                            let (k1, j1) = choose|k1: int, j1: int|
                                0 <= k1 < b && 0 <= j1 < 1 + ins0[k1].ctx_modules().len()
                                    && new_mods@[j].id == bundle_member_id(ins0[k1], j1);
                            assert(0 <= k1 < b + 1);
                        }
                    }
                }
            }
            let ghost bundle_mods0 = bundle_mods@;
            let mut rest_mods = bundle_mods;
            let mut w: usize = 1;
            while rest_mods.len() > 0
                invariant
                    1 <= w <= 1 + bcount,
                    bcount == bundle_mods0.len(),
                    w + rest_mods@.len() == 1 + bcount,
                    rest_mods@ =~= bundle_mods0.skip(w - 1),
                    new_ids@.len() == 1 + bcount,
                    forall|j: int| 0 <= j < new_ids@.len() ==> !has_module(
                        mods_before,
                        #[trigger] new_ids@[j],
                    ),
                    forall|j1: int, j2: int|
                        0 <= j1 < j2 < new_ids@.len() ==> new_ids@[j1] != new_ids@[j2],
                    forall|j: int| 0 <= j < new_ids@.len() ==> #[trigger] new_ids@[j] < next_mid,
                    base == mods_before.len(),
                    new_mods@.len() == base + w,
                    forall|j: int| 0 <= j < base ==> #[trigger] new_mods@[j] == mods_before[j],
                    forall|jj: int|
                        0 <= jj < w ==> (#[trigger] new_mods@[base + jj]).id == new_ids@[jj],
                    distinct_module_ids(new_mods@),
                    forall|j: int|
                        0 <= j < new_mods@.len() ==> (#[trigger] new_mods@[j]).id < next_mid,
                    module_like(ins0[b as int], new_mods@[base as int]),
                    b < ins0.len(),
                    bcount < usize::MAX,
                    all_arena_ids_distinct(ins0) ==> forall|j: int|
                        0 <= j < new_mods@.len() ==> is_member_id_before(
                            ins0,
                            b as int + 1,
                            (#[trigger] new_mods@[j]).id,
                        ),
                    all_arena_ids_distinct(ins0) ==> forall|j: int|
                        0 <= j < new_ids@.len() ==> #[trigger] new_ids@[j] == bundle_member_id(
                            ins0[b as int],
                            j,
                        ),
                    bundle_mods0 =~= ins0[b as int].ctx_modules(),
                    forall|j: int|
                        0 <= j < new_mods@.len() ==> !(#[trigger] new_mods@[j]).has_context(),
                    mod_map@.len() == 1 + bcount,
                    forall|j: int| 0 <= j < mod_map@.len() ==> (#[trigger] mod_map@[j]).1 == new_ids@[j],
                    mod_map@[0].0 == ins0[b as int].id,
                    forall|j: int|
                        1 <= j < mod_map@.len() ==> (#[trigger] mod_map@[j]).0 == bundle_mods0[j
                            - 1].id,
                    graph_map@.len() == ins0[b as int].ctx_graphs().len(),
                    gnew_ids@.len() == graph_map@.len(),
                    forall|j: int|
                        0 <= j < graph_map@.len() ==> (#[trigger] graph_map@[j]).1 == gnew_ids@[j],
                    forall|j: int|
                        0 <= j < graph_map@.len() ==> (#[trigger] graph_map@[j]).0
                            == ins0[b as int].ctx_graphs()[j].0,
                    (forall|k: int| 0 <= k < ins0.len() ==> bundle_wf(#[trigger] ins0[k])) ==> forall|jj: int|
                        0 <= jj < w ==> module_refs_in(
                            #[trigger] new_mods@[base + jj],
                            new_ids@,
                            gnew_ids@,
                        ),
                    new_mods@[base as int].graph == (match ins0[b as int].graph {
                        Some(og) => Some(remapped(graph_map@, og)),
                        None => None::<GraphId>,
                    }),
                decreases rest_mods@.len(),
            {
                proof {
                    assert(bundle_mods0.skip(w - 1)[0] == bundle_mods0[w - 1]);
                }
                let mut md = rest_mods.remove(0);
                proof {
                    assert(md == bundle_mods0[w - 1]);
                    assert(bundle_mods0.skip(w - 1).remove(0) =~= bundle_mods0.skip(w as int));
                }
                apply_remap(&mut md, &mod_map, &graph_map);
                let nid = new_ids[w];
                md.id = nid;
                md.context = None;
                new_mods.push(md);
                proof {
                    let ghost pushed = new_mods@[new_mods@.len() - 1];
                    if forall|k: int| 0 <= k < ins0.len() ==> bundle_wf(#[trigger] ins0[k]) {
                        assert(bundle_wf(ins0[b as int]));
                        let old_md = ins0[b as int].ctx_modules()[w - 1];
                        let bms = seq![ins0[b as int]] + ins0[b as int].ctx_modules();
                        assert(module_refs_resolve(old_md, bms, ins0[b as int].ctx_graphs()));
                        assert forall|k2: int|
                            0 <= k2 < pushed.instances@.len() implies new_ids@.contains(
                            #[trigger] pushed.instances@[k2],
                        ) by {
                            let x = old_md.instances@[k2];
                            assert(pushed.instances@[k2] == remapped(mod_map@, x));
                            assert(has_module(bms, x));
                            let i0 = choose|i0: int| 0 <= i0 < bms.len() && bms[i0].id == x;
                            if i0 == 0 {
                                assert(bms[0] == ins0[b as int]);
                            } else {
                                assert(bms[i0] == ins0[b as int].ctx_modules()[i0 - 1]);
                            }
                            assert(mod_map@[i0].0 == x);
                            lemma_remap_to_values(mod_map@, x, i0);
                            let j0 = choose|j0: int|
                                0 <= j0 < mod_map@.len() && remapped(mod_map@, x) == mod_map@[j0].1;
                            assert(new_ids@[j0] == remapped(mod_map@, x));
                        }
                        assert forall|k2: int|
                            0 <= k2 < pushed.ports@.len() implies ((
                        #[trigger] pushed.ports@[k2]).target matches GraphModulePortTarget::Module(
                            mid,
                            _,
                        ) ==> new_ids@.contains(mid)) by {
                            assert(port_remapped(mod_map@, old_md.ports@[k2], pushed.ports@[k2]));
                            match old_md.ports@[k2].target {
                                GraphModulePortTarget::Module(om, _) => {
                                    assert(has_module(bms, om));
                                    let i0 = choose|i0: int|
                                        0 <= i0 < bms.len() && bms[i0].id == om;
                                    if i0 == 0 {
                                        assert(bms[0] == ins0[b as int]);
                                    } else {
                                        assert(bms[i0] == ins0[b as int].ctx_modules()[i0 - 1]);
                                    }
                                    assert(mod_map@[i0].0 == om);
                                    lemma_remap_to_values(mod_map@, om, i0);
                                    let j0 = choose|j0: int|
                                        0 <= j0 < mod_map@.len() && remapped(mod_map@, om)
                                            == mod_map@[j0].1;
                                    assert(new_ids@[j0] == remapped(mod_map@, om));
                                },
                                GraphModulePortTarget::Node(_) => {},
                            }
                        }
                        match old_md.graph {
                            Some(og) => {
                                assert(pushed.graph == Some(remapped(graph_map@, og)));
                                assert(has_graph(ins0[b as int].ctx_graphs(), og));
                                let i0 = choose|i0: int|
                                    0 <= i0 < ins0[b as int].ctx_graphs().len()
                                        && ins0[b as int].ctx_graphs()[i0].0 == og;
                                assert(graph_map@[i0].0 == og);
                                lemma_remap_to_values(graph_map@, og, i0);
                                let j0 = choose|j0: int|
                                    0 <= j0 < graph_map@.len() && remapped(graph_map@, og)
                                        == graph_map@[j0].1;
                                assert(gnew_ids@[j0] == remapped(graph_map@, og));
                                assert(gnew_ids@.contains(remapped(graph_map@, og)));
                            },
                            None => {},
                        }
                        assert(module_refs_in(pushed, new_ids@, gnew_ids@));
                    }
                    if all_arena_ids_distinct(ins0) {
                        assert(new_ids@[w as int] == bundle_member_id(ins0[b as int], w as int));
                        assert(is_member_id_before(ins0, b as int + 1, new_ids@[w as int]));
                    }
                    assert forall|i: int, j: int|
                        0 <= i < j < new_mods@.len() implies new_mods@[i].id != new_mods@[j].id by {
                        if j == new_mods@.len() - 1 {
                            if i < base {
                                assert(!has_module(mods_before, new_ids@[w as int]));
                                assert(mods_before[i].id != new_ids@[w as int]);
                            } else {
                                let jj = i - base;
                                assert((new_mods@[base + jj]).id == new_ids@[jj]);
                                assert(base + jj == i);
                            }
                        }
                    }
                }
                w = w + 1;
            }
            // Phase two for graphs: re-tag and move them in.
            let ghost bundle_graphs0 = bundle_graphs@;
            let mut rest_gs = bundle_graphs;
            let mut w: usize = 0;
            while rest_gs.len() > 0
                invariant
                    w <= gcount,
                    gcount == bundle_graphs0.len(),
                    w + rest_gs@.len() == gcount,
                    rest_gs@ =~= bundle_graphs0.skip(w as int),
                    gnew_ids@.len() == gcount,
                    forall|j: int| 0 <= j < gnew_ids@.len() ==> !has_graph(
                        graphs_before,
                        #[trigger] gnew_ids@[j],
                    ),
                    forall|j1: int, j2: int|
                        0 <= j1 < j2 < gnew_ids@.len() ==> gnew_ids@[j1] != gnew_ids@[j2],
                    forall|j: int| 0 <= j < gnew_ids@.len() ==> #[trigger] gnew_ids@[j] < next_gid,
                    new_graphs@.len() == graphs_before.len() + w,
                    forall|j: int|
                        0 <= j < graphs_before.len() ==> #[trigger] new_graphs@[j]
                            == graphs_before[j],
                    forall|jj: int|
                        0 <= jj < w ==> (#[trigger] new_graphs@[graphs_before.len() + jj]).0
                            == gnew_ids@[jj],
                    forall|jj: int|
                        0 <= jj < w ==> (#[trigger] new_graphs@[graphs_before.len() + jj]).1
                            == bundle_graphs0[jj].1,
                    distinct_graph_ids(new_graphs@),
                    forall|j: int|
                        0 <= j < new_graphs@.len() ==> (#[trigger] new_graphs@[j]).0 < next_gid,
                decreases rest_gs@.len(),
            {
                proof {
                    assert(bundle_graphs0.skip(w as int)[0] == bundle_graphs0[w as int]);
                }
                let ug = rest_gs.remove(0);
                proof {
                    assert(ug == bundle_graphs0[w as int]);
                    assert(bundle_graphs0.skip(w as int).remove(0) =~= bundle_graphs0.skip(
                        w as int + 1,
                    ));
                }
                let UniqueGraph(_, gval) = ug;
                let ngid = gnew_ids[w];
                new_graphs.push(UniqueGraph(ngid, gval));
                proof {
                    assert forall|i: int, j: int|
                        0 <= i < j < new_graphs@.len() implies new_graphs@[i].0
                        != new_graphs@[j].0 by {
                        if j == new_graphs@.len() - 1 {
                            if i < graphs_before.len() {
                                assert(!has_graph(graphs_before, gnew_ids@[w as int]));
                                assert(graphs_before[i].0 != gnew_ids@[w as int]);
                            } else {
                                let jj = i - graphs_before.len();
                                assert((new_graphs@[graphs_before.len() + jj]).0 == gnew_ids@[jj]);
                                assert(graphs_before.len() + jj == i);
                            }
                        }
                    }
                }
                w = w + 1;
            }
            proof {
                lemma_sizes_take_step(ins0, b as int);
                assert(new_mods@.len() == arena_size(ins0.take(b as int + 1)));
                assert(new_graphs@.len() == graphs_size(ins0.take(b as int + 1)));
                assert forall|k: int|
                    0 <= k < b + 1 implies exists|j: int|
                    0 <= j < new_mods@.len() && #[trigger] parent_instances@[k]
                        == new_mods@[j].id && module_like(ins0[k], new_mods@[j]) by {
                    if k < b {
                        let j0 = choose|j0: int|
                            0 <= j0 < mods_before.len() && parent_instances@[k]
                                == mods_before[j0].id && module_like(ins0[k], mods_before[j0]);
                        assert(new_mods@[j0] == mods_before[j0]);
                    } else {
                        assert((new_mods@[base as int + 0]).id == new_ids@[0]);
                        assert(parent_instances@[k] == new_mods@[base as int].id);
                        assert(module_like(ins0[k], new_mods@[base as int]));
                    }
                }
                if all_arena_ids_distinct(ins0) {
                    assert(parent_instances@[b as int] == new_ids@[0]);
                    assert(new_ids@[0] == bundle_member_id(ins0[b as int], 0));
                    assert(parent_instances@[b as int] == ins0[b as int].id);
                }
                if forall|k: int| 0 <= k < ins0.len() ==> bundle_wf(#[trigger] ins0[k]) {
                    assert forall|j: int|
                        0 <= j < new_mods@.len() implies module_refs_resolve(
                        #[trigger] new_mods@[j],
                        new_mods@,
                        new_graphs@,
                    ) by {
                        assert forall|x: usize| has_module(mods_before, x) implies has_module(
                            new_mods@,
                            x,
                        ) by {
                            let i = choose|i: int|
                                0 <= i < mods_before.len() && mods_before[i].id == x;
                            assert(new_mods@[i].id == x);
                        }
                        assert forall|x: usize| has_graph(graphs_before, x) implies has_graph(
                            new_graphs@,
                            x,
                        ) by {
                            let i = choose|i: int|
                                0 <= i < graphs_before.len() && graphs_before[i].0 == x;
                            assert(new_graphs@[i].0 == x);
                        }
                        assert forall|x: usize| new_ids@.contains(x) implies has_module(
                            new_mods@,
                            x,
                        ) by {
                            let i = choose|i: int| 0 <= i < new_ids@.len() && new_ids@[i] == x;
                            assert((new_mods@[base + i]).id == x);
                        }
                        assert forall|x: usize| gnew_ids@.contains(x) implies has_graph(
                            new_graphs@,
                            x,
                        ) by {
                            let i = choose|i: int| 0 <= i < gnew_ids@.len() && gnew_ids@[i] == x;
                            assert((new_graphs@[graphs_before.len() + i]).0 == x);
                        }
                        if j < base {
                            assert(new_mods@[j] == mods_before[j]);
                            assert(module_refs_resolve(mods_before[j], mods_before, graphs_before));
                        } else {
                            let jj = j - base;
                            assert(module_refs_in(new_mods@[base + jj], new_ids@, gnew_ids@));
                            assert(base + jj == j);
                        }
                    }
                    assert(bundle_graphs0 =~= ins0[b as int].ctx_graphs());
                    assert forall|k: int|
                        0 <= k < b + 1 implies child_entry_preserved(
                        new_mods@,
                        new_graphs@,
                        #[trigger] parent_instances@[k],
                        ins0[k],
                    ) by {
                        if k < b {
                            assert(child_entry_preserved(
                                mods_before,
                                graphs_before,
                                parent_instances@[k],
                                ins0[k],
                            ));
                            let j = choose|j: int|
                                #![auto]
                                0 <= j < mods_before.len() && mods_before[j].id
                                    == parent_instances@[k] && module_like(
                                    ins0[k],
                                    mods_before[j],
                                ) && (ins0[k].graph matches Some(og) ==> (
                                mods_before[j].graph matches Some(ng) && has_graph(
                                    graphs_before,
                                    ng,
                                ) && found_graph(graphs_before, ng) == found_graph(
                                    ins0[k].ctx_graphs(),
                                    og,
                                )));
                            assert(new_mods@[j] == mods_before[j]);
                            match ins0[k].graph {
                                Some(og) => {
                                    match mods_before[j].graph {
                                        Some(ng) => {
                                            let i = choose|i: int|
                                                0 <= i < graphs_before.len()
                                                    && graphs_before[i].0 == ng;
                                            assert(graph_match_at(graphs_before, ng, i));
                                            lemma_found_graph(graphs_before, ng, i);
                                            assert(new_graphs@[i] == graphs_before[i]);
                                            assert(graph_match_at(new_graphs@, ng, i));
                                            lemma_found_graph(new_graphs@, ng, i);
                                        },
                                        None => {},
                                    }
                                },
                                None => {},
                            }
                        } else {
                            assert(parent_instances@[k] == new_ids@[0]);
                            assert((new_mods@[base as int]).id == new_ids@[0]);
                            assert(module_like(ins0[b as int], new_mods@[base as int]));
                            match ins0[b as int].graph {
                                Some(og) => {
                                    assert(has_graph(ins0[b as int].ctx_graphs(), og));
                                    let i0 = choose|i0: int|
                                        0 <= i0 < ins0[b as int].ctx_graphs().len()
                                            && ins0[b as int].ctx_graphs()[i0].0 == og;
                                    assert(graph_map@[i0].0 == og);
                                    assert forall|l1: int, l2: int|
                                        0 <= l1 < l2 < graph_map@.len() implies graph_map@[l1].0
                                        != graph_map@[l2].0 by {
                                        assert(graph_map@[l1].0
                                            == ins0[b as int].ctx_graphs()[l1].0);
                                        assert(graph_map@[l2].0
                                            == ins0[b as int].ctx_graphs()[l2].0);
                                    }
                                    lemma_first_remap_match(graph_map@, og, i0);
                                    let j0 = choose|j0: int| remap_match_at(graph_map@, og, j0);
                                    assert(remap_match_at(graph_map@, og, j0));
                                    assert(j0 == i0);
                                    assert(remapped(graph_map@, og) == graph_map@[i0].1);
                                    assert(remapped(graph_map@, og) == gnew_ids@[i0]);
                                    let ng = gnew_ids@[i0];
                                    assert((new_mods@[base as int]).graph == Some(ng));
                                    assert((new_graphs@[graphs_before.len() + i0]).0 == ng);
                                    assert(graph_match_at(
                                        new_graphs@,
                                        ng,
                                        graphs_before.len() + i0,
                                    ));
                                    lemma_found_graph(new_graphs@, ng, graphs_before.len() + i0);
                                    assert((new_graphs@[graphs_before.len() + i0]).1
                                        == bundle_graphs0[i0].1);
                                    assert(graph_match_at(ins0[b as int].ctx_graphs(), og, i0));
                                    lemma_found_graph(ins0[b as int].ctx_graphs(), og, i0);
                                    assert(found_graph(new_graphs@, ng) == found_graph(
                                        ins0[b as int].ctx_graphs(),
                                        og,
                                    ));
                                },
                                None => {},
                            }
                        }
                    }
                }
            }
            b = b + 1;
        }
        let ghost final_mods = new_mods@;
        let ghost final_graphs = new_graphs@;
        let ghost final_insts = parent_instances@;
        proof {
            assert(ins0.take(ins0.len() as int) =~= ins0);
            assert(b == ins0.len());
            assert forall|k: int|
                0 <= k < ins0.len() implies exists|j: int|
                0 <= j < final_mods.len() && #[trigger] final_insts[k] == final_mods[j].id
                    && module_like(ins0[k], final_mods[j]) by {
                assert(final_insts[k] == parent_instances@[k]);
                assert(exists|j: int|
                    0 <= j < new_mods@.len() && parent_instances@[k] == new_mods@[j].id
                        && module_like(ins0[k], new_mods@[j]));
            }
            if all_arena_ids_distinct(ins0) {
                assert forall|k: int|
                    0 <= k < ins0.len() implies #[trigger] final_insts[k] == ins0[k].id by {
                    assert(parent_instances@[k] == ins0[k].id);
                }
            }
        }
        let parent = GraphModule {
            state: GraphModuleState::UnInitialized,
            context: Some(GraphModuleContext { modules: new_mods, graphs: new_graphs }),
            id: next_mid,
            graph: None,
            instances: parent_instances,
            vars: Vec::new(),
            ports: Vec::new(),
        };
        proof {
            assert(parent.ctx_modules() == final_mods);
            assert(parent.ctx_graphs() == final_graphs);
            assert(parent.instances@ == final_insts);
            assert(distinct_module_ids(parent.ctx_modules()));
            assert(distinct_graph_ids(parent.ctx_graphs()));
            assert forall|j: int|
                0 <= j < parent.ctx_modules().len() implies (
                #[trigger] parent.ctx_modules()[j]).id != parent.id by {
                assert(final_mods[j].id < next_mid);
            }
            assert(parent.ports@.len() == 0);
            assert(parent.vars@.len() == 0);
            assert(ins0 == instances@);
            assert(parent.instances@.len() == instances@.len());
            assert(arena_size(ins0) == arena_size(instances@));
            assert(graphs_size(ins0) == graphs_size(instances@));
            assert(parent.ctx_modules().len() == arena_size(instances@));
            assert(parent.ctx_graphs().len() == graphs_size(instances@));
            if all_arena_ids_distinct(instances@) {
                assert(all_arena_ids_distinct(ins0));
                assert forall|k: int|
                    0 <= k < instances@.len() implies #[trigger] parent.instances@[k]
                    == instances@[k].id by {
                    assert(final_insts[k] == ins0[k].id);
                }
            }
            assert forall|j: int|
                0 <= j < parent.ctx_modules().len() implies !(
            #[trigger] parent.ctx_modules()[j]).has_context() by {
                assert(!final_mods[j].has_context());
            }
            if forall|k: int| 0 <= k < instances@.len() ==> bundle_wf(#[trigger] instances@[k]) {
                assert(forall|k: int| 0 <= k < ins0.len() ==> bundle_wf(#[trigger] ins0[k]));
                assert(arena_refs_resolve(final_mods, final_graphs));
                assert(arena_refs_resolve(parent.ctx_modules(), parent.ctx_graphs()));
                assert forall|k: int|
                    0 <= k < instances@.len() implies child_entry_preserved(
                    parent.ctx_modules(),
                    parent.ctx_graphs(),
                    #[trigger] parent.instances@[k],
                    instances@[k],
                ) by {
                    assert(child_entry_preserved(
                        final_mods,
                        final_graphs,
                        final_insts[k],
                        ins0[k],
                    ));
                }
            }
            assert forall|k: int|
                0 <= k < instances@.len() implies resolvable_as(
                parent.ctx_modules(),
                #[trigger] parent.instances@[k],
                instances@[k],
            ) by {
                let j0 = choose|j0: int|
                    0 <= j0 < final_mods.len() && final_insts[k] == final_mods[j0].id
                        && module_like(ins0[k], final_mods[j0]);
                assert(ins0[k] == instances@[k]);
                assert(0 <= j0 < parent.ctx_modules().len() && parent.instances@[k]
                    == parent.ctx_modules()[j0].id && module_like(
                    instances@[k],
                    parent.ctx_modules()[j0],
                ));
            }
        }
        Ok(parent)
    }
}

} // verus!
