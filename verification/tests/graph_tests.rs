use zxdiagram::graph::{Graph, GraphError, WireState};
use zxdiagram::vertex::{Vertex, VertexBuilder, VertexType};

#[test]
fn can_create_new_graph() {
    let graph = Graph::new(3);
    assert_eq!(graph.num_edges(), 0);
    assert_eq!(graph.num_vertices(), 0);
    assert_eq!(graph.num_inputs(), 0);
    assert_eq!(graph.num_outputs(), 0);
}

#[test]
fn can_add_vertex() {
    let mut graph = Graph::new(1);
    graph.add_vertex(VertexBuilder::x().build());
    assert_eq!(graph.num_vertices(), 1);
}

#[test]
fn can_add_edge() {
    let mut graph = Graph::new(1);
    let z = graph.add_vertex(VertexBuilder::z().build());
    let x = graph.add_vertex(VertexBuilder::x().build());
    graph.add_edge(z, x);

    assert_eq!(graph.num_vertices(), 2);
    assert_eq!(graph.num_edges(), 1);
}

#[test]
fn new_graph_wires_are_unallocated() {
    let graph = Graph::new(2);
    assert_eq!(graph.state_of(0), WireState::Unallocated);
    assert_eq!(graph.state_of(1), WireState::Unallocated);
    assert_eq!(graph.capacity(), 2);
    assert_eq!(graph.max_qubit(), 2);
}

#[test]
fn add_wire_makes_a_wire_bare() {
    let mut graph = Graph::new(1);
    assert!(graph.add_wire(0).is_ok());
    assert_eq!(graph.state_of(0), WireState::Bare);
    assert_eq!(graph.num_vertices(), 2);
    assert_eq!(graph.num_edges(), 1);
    assert_eq!(graph.num_inputs(), 1);
    assert_eq!(graph.num_outputs(), 1);
}

#[test]
fn add_wire_grows_capacity() {
    let mut graph = Graph::new(0);
    assert!(graph.add_wire(2).is_ok());
    assert_eq!(graph.capacity(), 3);
    assert_eq!(graph.state_of(0), WireState::Unallocated);
    assert_eq!(graph.state_of(2), WireState::Bare);
}

#[test]
fn add_wire_twice_changes_nothing_the_second_time() {
    let mut graph = Graph::new(1);
    assert!(graph.add_wire(0).is_ok());
    let vertices = graph.num_vertices();
    let edges = graph.num_edges();
    assert!(graph.add_wire(0).is_ok());
    assert_eq!(graph.num_vertices(), vertices);
    assert_eq!(graph.num_edges(), edges);
    assert_eq!(graph.state_of(0), WireState::Bare);
}

#[test]
fn add_input_rejects_a_second_input() {
    let mut graph = Graph::new(1);
    let first = graph.add_input(0);
    assert!(first.is_ok());
    match graph.add_input(0) {
        Err(GraphError::Structure { wire, found }) => {
            assert_eq!(wire, 0);
            assert_eq!(found, WireState::Partial);
        },
        other => panic!("expected a structure error, got {:?}", other),
    }
}

#[test]
fn insert_on_wire_occupies_a_bare_wire() {
    let mut graph = Graph::new(1);
    graph.add_wire(0).unwrap();
    let h = graph.insert_on_wire(Vertex::z(), 0).unwrap();
    assert_eq!(graph.state_of(0), WireState::Occupied);
    assert_eq!(graph.num_vertices(), 3);
    assert_eq!(graph.num_edges(), 2);
    assert_eq!(graph.vertex(h).unwrap().vertex_type, VertexType::Z);
}

#[test]
fn insert_on_wire_rejects_unallocated_and_occupied_wires() {
    let mut graph = Graph::new(1);
    match graph.insert_on_wire(Vertex::z(), 0) {
        Err(GraphError::Structure { wire: 0, found: WireState::Unallocated }) => {},
        other => panic!("expected a structure error, got {:?}", other),
    }
    graph.add_wire(0).unwrap();
    graph.insert_on_wire(Vertex::z(), 0).unwrap();
    match graph.insert_on_wire(Vertex::x(), 0) {
        Err(GraphError::Structure { wire: 0, found: WireState::Occupied }) => {},
        other => panic!("expected a structure error, got {:?}", other),
    }
}

#[test]
fn remove_edge_fails_when_no_edge_connects_the_pair() {
    let mut graph = Graph::new(1);
    let z = graph.add_vertex(Vertex::z());
    let x = graph.add_vertex(Vertex::x());
    match graph.remove_edge(z, x) {
        Err(GraphError::Lookup { source, target }) => {
            assert_eq!((source, target), (z, x));
        },
        other => panic!("expected a lookup error, got {:?}", other),
    }
    graph.add_edge(z, x);
    assert!(graph.remove_edge(z, x).is_ok());
    assert_eq!(graph.num_edges(), 0);
}

#[test]
fn remove_wire_needs_a_bare_wire() {
    let mut graph = Graph::new(1);
    graph.add_wire(0).unwrap();
    graph.insert_on_wire(Vertex::y(), 0).unwrap();
    let edges = graph.num_edges();
    match graph.remove_wire(0) {
        Err(GraphError::Structure { wire: 0, found: WireState::Occupied }) => {},
        other => panic!("expected a structure error, got {:?}", other),
    }
    // Nothing was deleted on the failing path.
    assert_eq!(graph.num_edges(), edges);
}

#[test]
fn remove_wire_removes_the_direct_edge() {
    let mut graph = Graph::new(1);
    graph.add_wire(0).unwrap();
    assert!(graph.remove_wire(0).is_ok());
    assert_eq!(graph.state_of(0), WireState::Occupied);
    assert_eq!(graph.num_edges(), 0);
    assert_eq!(graph.num_vertices(), 2);
}

#[test]
fn removing_a_vertex_keeps_every_other_handle_valid() {
    let mut graph = Graph::new(1);
    let a = graph.add_vertex(Vertex::z());
    let b = graph.add_vertex(Vertex::x());
    let c = graph.add_vertex(Vertex::y());
    graph.add_edge(a, b);
    graph.add_edge(b, c);
    let b_before = graph.vertex(b).unwrap();
    let c_before = graph.vertex(c).unwrap();
    let removed = graph.remove_vertex(a);
    assert_eq!(removed.unwrap().vertex_type, VertexType::Z);
    // Handle stability: b and c answer exactly as before.
    assert_eq!(graph.vertex(b).unwrap(), b_before);
    assert_eq!(graph.vertex(c).unwrap(), c_before);
    assert!(graph.vertex(a).is_none());
    // The edge incident to a went away with it; the other stayed.
    assert_eq!(graph.num_edges(), 1);
    assert!(graph.edge_index(b, c).is_some());
    assert!(graph.edge_index(a, b).is_none());
}

#[test]
fn removing_a_boundary_vertex_unregisters_it() {
    let mut graph = Graph::new(1);
    graph.add_wire(0).unwrap();
    let input = graph.input_index(0).unwrap();
    graph.remove_vertex(input);
    assert!(graph.input_index(0).is_none());
    assert!(graph.output_index(0).is_some());
    assert_eq!(graph.state_of(0), WireState::Partial);
}

#[test]
fn boundary_enumeration_follows_wire_order() {
    let mut graph = Graph::new(3);
    graph.add_wire(2).unwrap();
    graph.add_wire(0).unwrap();
    let qubits = graph.input_qubits();
    assert_eq!(qubits, vec![0, 2]);
    assert_eq!(graph.output_qubits(), vec![0, 2]);
    assert_eq!(graph.input_indices().len(), 2);
    assert_eq!(graph.output_indices().len(), 2);
    assert_eq!(graph.input_index(1), None);
}

#[test]
fn is_well_formed_needs_a_spider_with_coordinates() {
    let mut graph = Graph::new(1);
    graph.add_wire(0).unwrap();
    // Only boundaries: no spider yet.
    assert!(!graph.is_well_formed());
    let mut spider = Vertex::z();
    spider.set_coords(zxdiagram::vertex::Coords { x: 0, y: 0 });
    graph.insert_on_wire(spider, 0).unwrap();
    assert!(graph.is_well_formed());
    // A spider without coordinates breaks well-formedness.
    graph.add_vertex(Vertex::x());
    assert!(!graph.is_well_formed());
}

#[test]
fn enumerations_agree_with_counts() {
    let mut graph = Graph::new(2);
    graph.add_wire(0).unwrap();
    graph.add_wire(1).unwrap();
    assert_eq!(graph.enumerate_vertices().len(), 4);
    assert_eq!(graph.enumerate_edges().len(), 2);
    assert_eq!(graph.vertices().len(), 4);
    assert_eq!(graph.edges().len(), 2);
}
