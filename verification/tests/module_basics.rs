use graph_module::{
    lift, Graph, GraphModule, GraphModuleError, GraphModulePortTarget, GraphModulePortType,
    GraphNode, GraphNodeKind,
};

fn input_node(id: usize, name: &str) -> GraphNode {
    GraphNode { id, kind: GraphNodeKind::Input(name.to_string()) }
}

fn output_node(id: usize, name: &str) -> GraphNode {
    GraphNode { id, kind: GraphNodeKind::Output(name.to_string()) }
}

fn two_in_one_out() -> Graph {
    Graph {
        nodes: vec![input_node(0, "a"), input_node(1, "b"), output_node(2, "c")],
        inputs: vec![0, 1],
        outputs: vec![2],
        edges: vec![],
    }
}

#[test]
fn lift_emits_inputs_then_outputs_in_order() {
    let m = lift(two_in_one_out()).unwrap();
    assert_eq!(m.ports.len(), 3);
    assert_eq!(m.ports[0].name, "a");
    assert_eq!(m.ports[0].port_type, GraphModulePortType::InputNet);
    assert!(matches!(m.ports[0].target, GraphModulePortTarget::Node(0)));
    assert_eq!(m.ports[1].name, "b");
    assert_eq!(m.ports[1].port_type, GraphModulePortType::InputNet);
    assert!(matches!(m.ports[1].target, GraphModulePortTarget::Node(1)));
    assert_eq!(m.ports[2].name, "c");
    assert_eq!(m.ports[2].port_type, GraphModulePortType::OutputNet);
    assert!(matches!(m.ports[2].target, GraphModulePortTarget::Node(2)));
    assert_eq!(m.id, 0);
    assert_eq!(m.graph, Some(0));
    assert!(m.instances.is_empty());
    assert!(m.vars.is_empty());
}

#[test]
fn numbering_from_ten_assigns_sequential_ids_and_returns_thirteen() {
    let mut m = lift(two_in_one_out()).unwrap();
    let next = m.numbering_ports(10);
    assert_eq!(m.ports[0].id, 10);
    assert_eq!(m.ports[1].id, 11);
    assert_eq!(m.ports[2].id, 12);
    assert_eq!(next, 13);
}

#[test]
fn numbering_twice_is_idempotent() {
    let mut m = lift(two_in_one_out()).unwrap();
    let first_next = m.numbering_ports(5);
    let first_ids: Vec<usize> = m.ports.iter().map(|p| p.id).collect();
    let second_next = m.numbering_ports(5);
    let second_ids: Vec<usize> = m.ports.iter().map(|p| p.id).collect();
    assert_eq!(first_ids, second_ids);
    assert_eq!(first_next, 5 + m.ports.len());
    assert_eq!(second_next, first_next);
}

#[test]
fn check_init_gates_on_numbering() {
    let mut m = lift(two_in_one_out()).unwrap();
    assert_eq!(m.check_init(), Err(GraphModuleError::NotInitialized));
    m.numbering_ports(0);
    assert_eq!(m.check_init(), Ok(()));
    m.numbering_ports(7);
    assert_eq!(m.check_init(), Ok(()));
}

#[test]
fn port_by_name_finds_a_port() {
    let m = lift(two_in_one_out()).unwrap();
    let p = m.port_by_name("b").unwrap();
    assert_eq!(p.name, "b");
    assert!(matches!(p.target, GraphModulePortTarget::Node(1)));
}

#[test]
fn port_by_name_misses_with_port_not_found() {
    let m = lift(two_in_one_out()).unwrap();
    assert_eq!(m.port_by_name("zz").unwrap_err(), GraphModuleError::PortNotFound);
}

#[test]
fn port_by_name_duplicate_names_return_first_match() {
    let mut m = GraphModule::default();
    let mut p1 = graph_module::GraphModulePort::default();
    p1.name = "x".to_string();
    p1.target = GraphModulePortTarget::Node(4);
    let mut p2 = graph_module::GraphModulePort::default();
    p2.name = "x".to_string();
    p2.target = GraphModulePortTarget::Node(9);
    m.ports.push(p1);
    m.ports.push(p2);
    let found = m.port_by_name("x").unwrap();
    assert!(matches!(found.target, GraphModulePortTarget::Node(4)));
}

#[test]
fn lift_rejects_missing_declared_input() {
    let g = Graph {
        nodes: vec![input_node(0, "a")],
        inputs: vec![0, 5],
        outputs: vec![],
        edges: vec![],
    };
    assert_eq!(lift(g).unwrap_err(), GraphModuleError::MalformedGraph);
}

#[test]
fn lift_rejects_wrong_node_kind() {
    let g = Graph {
        nodes: vec![output_node(0, "a")],
        inputs: vec![0],
        outputs: vec![],
        edges: vec![],
    };
    assert_eq!(lift(g).unwrap_err(), GraphModuleError::MalformedGraph);
}

#[test]
fn defaults_are_the_documented_values() {
    assert_eq!(GraphModulePortType::default(), GraphModulePortType::InputNet);
    assert!(matches!(
        GraphModulePortTarget::default(),
        GraphModulePortTarget::Node(0)
    ));
    let v = graph_module::GraphModuleVariable::default();
    assert_eq!(v.var_type, graph_module::GraphModuleVariableType::Wire);
    assert_eq!(v.source, 0);
    assert_eq!(v.target, 0);
    let m = GraphModule::default();
    assert_eq!(m.id, 0);
    assert!(m.graph.is_none());
    assert!(m.ports.is_empty());
}
