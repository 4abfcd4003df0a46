//! Modules, ports, variables and the arena that owns a hierarchy.

use vstd::prelude::*;

use crate::error::GraphModuleError;
use crate::graph::{Graph, GraphNodeId};

verus! {

/// Identity of a module definition; unique within one context.
pub type GraphModuleId = usize;

/// Identity of a port within its owning module; defined only after
/// `numbering_ports` has run.
pub type GraphModulePortId = usize;

/// Identity of a flat graph; unique within one context.
pub type GraphId = usize;

/// Classification of a port: nets are combinational, regs are stateful;
/// the direction is encoded in the variant.
#[derive(Clone, Copy, Debug, PartialEq, Eq, Structural)]
pub enum GraphModulePortType {
    InputNet,
    OutputNet,
    InputReg,
    OutputReg,
    InOut,
}

impl Default for GraphModulePortType {
    fn default() -> (r: Self)
        ensures
            r is InputNet,
    {
        GraphModulePortType::InputNet
    }
}

/// What a port ultimately connects to: a node of the module's own flat
/// graph, or a port on one of the module's child instances.
#[derive(Clone, Copy, Debug, PartialEq, Eq, Structural)]
pub enum GraphModulePortTarget {
    Node(GraphNodeId),
    Module(GraphModuleId, GraphModulePortId),
}

impl Default for GraphModulePortTarget {
    fn default() -> (r: Self)
        ensures
            r == GraphModulePortTarget::Node(0),
    {
        GraphModulePortTarget::Node(0)
    }
}

/// One named external connection point of a module.
#[derive(Debug)]
pub struct GraphModulePort {
    pub id: GraphModulePortId,
    pub name: String,
    pub port_type: GraphModulePortType,
    pub target: GraphModulePortTarget,
}

impl Clone for GraphModulePort {
    fn clone(&self) -> (r: Self)
        ensures
            r == *self,
    {
        GraphModulePort {
            id: self.id,
            name: self.name.clone(),
            port_type: self.port_type,
            target: self.target,
        }
    }
}

impl Default for GraphModulePort {
    fn default() -> (r: Self)
        ensures
            r.id == 0,
            r.name@ == Seq::<char>::empty(),
            r.port_type is InputNet,
            r.target == GraphModulePortTarget::Node(0),
    {
        GraphModulePort {
            id: 0,
            name: String::new(),
            port_type: GraphModulePortType::InputNet,
            target: GraphModulePortTarget::Node(0),
        }
    }
}

/// Internal signal kind of a variable.
#[derive(Clone, Copy, Debug, PartialEq, Eq, Structural)]
pub enum GraphModuleVariableType {
    Wire,
    Reg,
}

impl Default for GraphModuleVariableType {
    fn default() -> (r: Self)
        ensures
            r is Wire,
    {
        GraphModuleVariableType::Wire
    }
}

/// An internal signal binding connecting two port references inside one
/// module: the referenced ports may be the module's own or an instance's.
#[derive(Clone, Copy, Debug, PartialEq, Eq, Structural)]
pub struct GraphModuleVariable {
    pub var_type: GraphModuleVariableType,
    pub source: GraphModulePortId,
    pub target: GraphModulePortId,
}

impl Default for GraphModuleVariable {
    fn default() -> (r: Self)
        ensures
            r.var_type is Wire,
            r.source == 0,
            r.target == 0,
    {
        GraphModuleVariable { var_type: GraphModuleVariableType::Wire, source: 0, target: 0 }
    }
}

/// Lifecycle gate of a module: port ids are undefined until
/// `numbering_ports` has run.
#[derive(Clone, Copy, Debug, PartialEq, Eq, Structural)]
pub enum GraphModuleState {
    UnInitialized,
    Initialized,
}

/// A flat graph tagged with the stable identity it carries inside a
/// context.
#[derive(Debug)]
pub struct UniqueGraph(pub GraphId, pub Graph);

/// The arena owning every module and every flat graph reachable from one
/// hierarchy root; everything else refers to them by id.
#[derive(Debug)]
pub struct GraphModuleContext {
    pub modules: Vec<GraphModule>,
    pub graphs: Vec<UniqueGraph>,
}

/// One node of the hierarchy: ports, internal variables, child instances,
/// optionally a wrapped flat graph.  Only a root module holds a context.
#[derive(Debug)]
pub struct GraphModule {
    pub state: GraphModuleState,
    pub context: Option<GraphModuleContext>,
    pub id: GraphModuleId,
    pub graph: Option<GraphId>,
    pub instances: Vec<GraphModuleId>,
    pub vars: Vec<GraphModuleVariable>,
    pub ports: Vec<GraphModulePort>,
}

impl Default for GraphModule {
    fn default() -> (r: Self)
        ensures
            !r.is_initialized(),
            !r.has_context(),
            r.id == 0,
            r.graph is None,
            r.instances@ =~= Seq::<GraphModuleId>::empty(),
            r.vars@ =~= Seq::<GraphModuleVariable>::empty(),
            r.ports@ =~= Seq::<GraphModulePort>::empty(),
    {
        GraphModule {
            state: GraphModuleState::UnInitialized,
            context: None,
            id: 0,
            graph: None,
            instances: Vec::new(),
            vars: Vec::new(),
            ports: Vec::new(),
        }
    }
}

/// `ports` renumbered from `base`: the port at position `i` carries the id
/// `base + i`; everything else about each port is unchanged.
pub open spec fn numbered_ports(ports: Seq<GraphModulePort>, base: int) -> Seq<GraphModulePort> {
    Seq::new(
        ports.len(),
        |i: int|
            GraphModulePort {
                id: (base + i) as usize,
                name: ports[i].name,
                port_type: ports[i].port_type,
                target: ports[i].target,
            },
    )
}

/// Some port of `ports` carries the name `name`.
pub open spec fn has_port_named(ports: Seq<GraphModulePort>, name: Seq<char>) -> bool {
    exists|i: int| 0 <= i < ports.len() && ports[i].name@ == name
}

/// `i` is the first position of `ports` whose port carries the name `name`.
pub open spec fn port_match_at(ports: Seq<GraphModulePort>, name: Seq<char>, i: int) -> bool {
    &&& 0 <= i < ports.len()
    &&& ports[i].name@ == name
    &&& forall|j: int| 0 <= j < i ==> ports[j].name@ != name
}

impl GraphModule {
    /// The lifecycle gate has been passed: `numbering_ports` has run.
    pub open spec fn is_initialized(self) -> bool {
        self.state is Initialized
    }

    /// Whether this module is a hierarchy root owning a context.
    pub open spec fn has_context(self) -> bool {
        self.context is Some
    }

    /// The modules owned by this root's context, in storage order; empty
    /// for a non-root module.
    pub open spec fn ctx_modules(self) -> Seq<GraphModule> {
        match self.context {
            Some(c) => c.modules@,
            None => Seq::empty(),
        }
    }

    /// The tagged flat graphs owned by this root's context, in storage
    /// order; empty for a non-root module.
    pub open spec fn ctx_graphs(self) -> Seq<UniqueGraph> {
        match self.context {
            Some(c) => c.graphs@,
            None => Seq::empty(),
        }
    }

    /// Assigns the ids `base, base + 1, ...` to this module's ports in list
    /// order and passes the lifecycle gate.  Returns `base + port count` so
    /// a caller can chain numbering across a whole hierarchy and obtain a
    /// globally unique port id space.  Re-numbering is permitted and simply
    /// re-assigns: the module stays initialized.
    pub fn numbering_ports(&mut self, base: usize) -> (next: usize)
        requires
            base + old(self).ports@.len() <= usize::MAX,
        ensures
            next == base + old(self).ports@.len(),
            final(self).ports@ =~= numbered_ports(old(self).ports@, base as int),
            final(self).is_initialized(),
            final(self).id == old(self).id,
            final(self).graph == old(self).graph,
            final(self).instances == old(self).instances,
            final(self).vars == old(self).vars,
            final(self).has_context() == old(self).has_context(),
            final(self).ctx_modules() == old(self).ctx_modules(),
            final(self).ctx_graphs() == old(self).ctx_graphs(),
    {
        let mut i: usize = 0;
        while i < self.ports.len()
            invariant
                i <= self.ports@.len(),
                base + self.ports@.len() <= usize::MAX,
                self.ports@.len() == old(self).ports@.len(),
                forall|j: int|
                    0 <= j < i ==> self.ports@[j] == numbered_ports(
                        old(self).ports@,
                        base as int,
                    )[j],
                forall|j: int| i <= j < self.ports@.len() ==> self.ports@[j] == old(self).ports@[j],
                self.state == old(self).state,
                self.context == old(self).context,
                self.id == old(self).id,
                self.graph == old(self).graph,
                self.instances == old(self).instances,
                self.vars == old(self).vars,
            decreases self.ports@.len() - i,
        {
            let port_id: usize = base + i;
            self.ports[i].id = port_id;
            i = i + 1;
        }
        self.state = GraphModuleState::Initialized;
        base + self.ports.len()
    }

    /// Fails with `NotInitialized` exactly when the module has not passed
    /// its lifecycle gate; callers use it before any operation that reads
    /// resolved port ids or flattens.
    pub fn check_init(&self) -> (r: Result<(), GraphModuleError>)
        ensures
            r == if self.is_initialized() {
                Ok::<(), GraphModuleError>(())
            } else {
                Err::<(), GraphModuleError>(GraphModuleError::NotInitialized)
            },
    {
        match self.state {
            GraphModuleState::UnInitialized => Err(GraphModuleError::NotInitialized),
            GraphModuleState::Initialized => Ok(()),
        }
    }

    /// Looks a port up by name with a linear scan; when several ports share
    /// one name the first in list order is returned — that first-match rule
    /// is this library's explicit policy.  Fails with `PortNotFound` exactly
    /// when no port carries the name.
    pub fn port_by_name(&self, name: &str) -> (r: Result<&GraphModulePort, GraphModuleError>)
        ensures
            match r {
                Ok(p) => exists|i: int|
                    port_match_at(self.ports@, name@, i) && *p == self.ports@[i],
                Err(e) => e is PortNotFound && !has_port_named(self.ports@, name@),
            },
    {
        let wanted: String = name.to_owned();
        let mut i: usize = 0;
        while i < self.ports.len()
            invariant
                wanted@ == name@,
                i <= self.ports@.len(),
                forall|j: int| 0 <= j < i ==> self.ports@[j].name@ != name@,
            decreases self.ports@.len() - i,
        {
            if self.ports[i].name == wanted {
                return Ok(&self.ports[i]);
            }
            i = i + 1;
        }
        Err(GraphModuleError::PortNotFound)
    }
}

} // verus!
