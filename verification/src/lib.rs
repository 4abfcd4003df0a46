//! A hierarchical circuit / netlist intermediate representation.
//!
//! A digital design is a tree of composable modules.  Each module exposes
//! named ports, may wrap a flat signal graph, and may instantiate other
//! modules.  A root module owns a context: the arena that holds every module
//! and every flat graph of its hierarchy.  Hierarchies are built bottom-up by
//! lifting flat graphs into single-level modules, composed with
//! [`module::GraphModule::from_instances`], and flattened back into a single
//! flat graph with [`module::GraphModule::lower`].

pub mod compose;
pub mod error;
pub mod graph;
pub mod laws;
pub mod lift;
pub mod lower;
pub mod module;

pub use error::GraphModuleError;
pub use graph::{Graph, GraphEdge, GraphNode, GraphNodeId, GraphNodeKind};
pub use lift::lift;
pub use module::{
    GraphId, GraphModule, GraphModuleId, GraphModulePort, GraphModulePortId,
    GraphModulePortTarget, GraphModulePortType, GraphModuleVariable, GraphModuleVariableType,
    UniqueGraph,
};
