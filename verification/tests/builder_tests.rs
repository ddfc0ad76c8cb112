use zxdiagram::builders::GraphBuilder;
use zxdiagram::graph::{Graph, GraphError, WireState};
use zxdiagram::phase::Phase;
use zxdiagram::vertex::VertexType;

fn non_boundary_count(graph: &Graph) -> usize {
    graph.vertices().iter().filter(|v| v.vertex_type != VertexType::B).count()
}

#[test]
fn pauli_z() {
    let pauli_z = GraphBuilder::pauli_z(0);
    assert_eq!(pauli_z.capacity(), 1);
    assert_eq!(pauli_z.num_inputs(), 1);
    assert_eq!(pauli_z.num_outputs(), 1);
    assert_eq!(pauli_z.num_vertices(), 3);
    assert_eq!(pauli_z.num_edges(), 2);
}

#[test]
fn pauli_x() {
    let pauli_x = GraphBuilder::pauli_x(0);
    assert_eq!(pauli_x.capacity(), 1);
    assert_eq!(pauli_x.num_inputs(), 1);
    assert_eq!(pauli_x.num_outputs(), 1);
    assert_eq!(pauli_x.num_vertices(), 3);
    assert_eq!(pauli_x.num_edges(), 2);
}

#[test]
fn pauli_y() {
    let pauli_y = GraphBuilder::pauli_y(0);
    assert_eq!(pauli_y.capacity(), 1);
    assert_eq!(pauli_y.num_inputs(), 1);
    assert_eq!(pauli_y.num_outputs(), 1);
    assert_eq!(pauli_y.num_vertices(), 3);
    assert_eq!(pauli_y.num_edges(), 2);
}

#[test]
fn pauli_on_a_higher_wire_keeps_the_lower_wires_bare() {
    let g = GraphBuilder::pauli_z(2);
    assert_eq!(g.capacity(), 3);
    assert_eq!(g.num_inputs(), 3);
    assert_eq!(g.num_outputs(), 3);
    assert_eq!(g.num_vertices(), 7);
    assert_eq!(g.num_edges(), 4);
    assert_eq!(g.state_of(0), WireState::Bare);
    assert_eq!(g.state_of(1), WireState::Bare);
    assert_eq!(g.state_of(2), WireState::Occupied);
    assert_eq!(non_boundary_count(&g), 1);
    assert!(g.is_well_formed());
}

#[test]
fn pauli_spider_carries_phase_pi() {
    let g = GraphBuilder::pauli_y(0);
    let spider = g.vertices().into_iter().find(|v| v.vertex_type != VertexType::B).unwrap();
    assert_eq!(spider.vertex_type, VertexType::Y);
    assert_eq!(spider.phase.angle(), (1, 1));
    assert!(spider.coords.is_some());
}

#[test]
fn half_turn_builders_carry_quarter_phases() {
    for (graph, ty, angle) in [
        (GraphBuilder::z_plus(0), VertexType::Z, (1, 2)),
        (GraphBuilder::z_minus(0), VertexType::Z, (3, 2)),
        (GraphBuilder::x_plus(0), VertexType::X, (1, 2)),
        (GraphBuilder::x_minus(0), VertexType::X, (3, 2)),
        (GraphBuilder::y_plus(0), VertexType::Y, (1, 2)),
        (GraphBuilder::y_minus(0), VertexType::Y, (3, 2)),
    ] {
        assert_eq!(graph.num_inputs(), 1);
        assert_eq!(graph.num_outputs(), 1);
        assert_eq!(graph.num_vertices(), 3);
        assert_eq!(graph.num_edges(), 2);
        let spider = graph.vertices().into_iter().find(|v| v.vertex_type != VertexType::B).unwrap();
        assert_eq!(spider.vertex_type, ty);
        assert_eq!(spider.phase.angle(), angle);
        assert!(graph.is_well_formed());
    }
}

#[test]
fn cx() {
    let cx = GraphBuilder::cx(0, 1).unwrap();
    assert_eq!(cx.num_inputs(), 2);
    assert_eq!(cx.num_outputs(), 2);
    assert_eq!(cx.num_vertices(), 6);
    assert_eq!(cx.num_edges(), 5);
    assert_eq!(cx.state_of(0), WireState::Occupied);
    assert_eq!(cx.state_of(1), WireState::Occupied);
    assert_eq!(non_boundary_count(&cx), 2);
    let mut types: Vec<VertexType> = cx
        .vertices()
        .into_iter()
        .filter(|v| v.vertex_type != VertexType::B)
        .map(|v| v.vertex_type)
        .collect();
    types.sort_by_key(|t| format!("{:?}", t));
    assert_eq!(types, vec![VertexType::X, VertexType::Z]);
    assert!(cx.is_well_formed());
}

#[test]
fn cz() {
    let cz = GraphBuilder::cz(0, 1).unwrap();
    assert_eq!(cz.num_inputs(), 2);
    assert_eq!(cz.num_outputs(), 2);
    assert_eq!(cz.num_vertices(), 6);
    assert_eq!(cz.num_edges(), 5);
    let types: Vec<VertexType> = cz
        .vertices()
        .into_iter()
        .filter(|v| v.vertex_type != VertexType::B)
        .map(|v| v.vertex_type)
        .collect();
    assert_eq!(types, vec![VertexType::Z, VertexType::Z]);
}

#[test]
fn cx_wires_each_spider_to_its_own_boundaries() {
    let cx = GraphBuilder::cx(0, 1).unwrap();
    let z = cx
        .enumerate_vertices()
        .into_iter()
        .find(|(_, v)| v.vertex_type == VertexType::Z)
        .unwrap()
        .0;
    let x = cx
        .enumerate_vertices()
        .into_iter()
        .find(|(_, v)| v.vertex_type == VertexType::X)
        .unwrap()
        .0;
    let in0 = cx.input_index(0).unwrap();
    let out0 = cx.output_index(0).unwrap();
    let in1 = cx.input_index(1).unwrap();
    let out1 = cx.output_index(1).unwrap();
    assert!(cx.edge_index(in0, z).is_some());
    assert!(cx.edge_index(z, out0).is_some());
    assert!(cx.edge_index(in1, x).is_some());
    assert!(cx.edge_index(x, out1).is_some());
    assert!(cx.edge_index(z, x).is_some());
    // No spider is wired to the other wire's boundaries.
    assert!(cx.edge_index(in1, z).is_none());
    assert!(cx.edge_index(in0, x).is_none());
}

#[test]
fn gadget_hub_connects_to_each_leg_and_to_nothing_else() {
    let gadget = GraphBuilder::gadget("zx", Phase::minus()).unwrap();
    let hub = gadget
        .enumerate_vertices()
        .into_iter()
        .find(|(_, v)| v.vertex_type != VertexType::B && !v.phase.is_zero())
        .unwrap()
        .0;
    let legs: Vec<usize> = gadget
        .enumerate_vertices()
        .into_iter()
        .filter(|(h, v)| v.vertex_type != VertexType::B && *h != hub)
        .map(|(h, _)| h)
        .collect();
    assert_eq!(legs.len(), 2);
    for leg in legs {
        assert!(gadget.edge_index(hub, leg).is_some());
    }
    for w in 0..2 {
        let inw = gadget.input_index(w).unwrap();
        let outw = gadget.output_index(w).unwrap();
        assert!(gadget.edge_index(hub, inw).is_none());
        assert!(gadget.edge_index(hub, outw).is_none());
    }
}

#[test]
fn cx_rejects_equal_wires() {
    for a in [0usize, 1, 5, 17] {
        match GraphBuilder::cx(a, a) {
            Err(GraphError::Argument { control, target }) => {
                assert_eq!(control, a);
                assert_eq!(target, a);
            },
            other => panic!("expected an argument error, got {:?}", other.map(|_| ())),
        }
        assert!(GraphBuilder::cz(a, a).is_err());
    }
}

#[test]
fn gadget() {
    let gadget = GraphBuilder::gadget("zxy", Phase::zero()).unwrap();
    assert_eq!(gadget.num_inputs(), 3);
    assert_eq!(gadget.num_outputs(), 3);
    // A hub and three legs beside the six boundaries.
    assert_eq!(non_boundary_count(&gadget), 4);
    assert_eq!(gadget.num_vertices(), 10);
    // Two boundary edges per leg wire and one hub edge per leg.
    assert_eq!(gadget.num_edges(), 9);
    assert!(gadget.is_well_formed());
}

#[test]
fn gadget_with_identity_leaves_that_wire_bare() {
    let gadget = GraphBuilder::gadget("IXZ", Phase::plus()).unwrap();
    assert_eq!(gadget.capacity(), 3);
    assert_eq!(gadget.state_of(0), WireState::Bare);
    assert_eq!(gadget.state_of(1), WireState::Occupied);
    assert_eq!(gadget.state_of(2), WireState::Occupied);
    // A hub and two legs.
    assert_eq!(non_boundary_count(&gadget), 3);
    // One bare edge, two boundary edges per leg, one hub edge per leg.
    assert_eq!(gadget.num_edges(), 7);
    assert_eq!(gadget.num_vertices(), 9);
}

#[test]
fn gadget_rejects_an_invalid_character() {
    match GraphBuilder::gadget("ZXH", Phase::zero()) {
        Err(GraphError::PauliFormat { character, position }) => {
            assert_eq!(character, 'H');
            assert_eq!(position, 2);
        },
        other => panic!("expected a format error, got {:?}", other.map(|_| ())),
    }
}

#[test]
fn gadget_hub_carries_the_given_phase() {
    let gadget = GraphBuilder::gadget("zz", Phase::minus()).unwrap();
    let hub = gadget
        .vertices()
        .into_iter()
        .find(|v| v.vertex_type != VertexType::B && !v.phase.is_zero())
        .unwrap();
    assert_eq!(hub.phase.angle(), (3, 2));
    assert_eq!(hub.vertex_type, VertexType::Z);
}

#[test]
fn gadget_accepts_lower_and_upper_case() {
    assert!(GraphBuilder::gadget("iIxXyYzZ", Phase::zero()).is_ok());
    assert!(GraphBuilder::gadget("", Phase::zero()).is_ok());
}
