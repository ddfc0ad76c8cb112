use zxdiagram::builders::GraphBuilder;
use zxdiagram::export::{Exportable, ExportError};
use zxdiagram::graph::Graph;
use zxdiagram::phase::Phase;
use zxdiagram::vertex::{Coords, Vertex, VertexType};

#[test]
fn panics_if_missing_coords() {
    // A spider without coordinates cannot be rendered: the failure is a
    // typed error naming the vertex, not a crash.
    let mut graph = Graph::new(1);
    let h = graph.add_vertex(Vertex::z());
    match graph.to_tex() {
        Err(ExportError::VertexMissingCoords(i)) => assert_eq!(i, h),
        other => panic!("expected a missing-coordinates error, got {:?}", other),
    }
}

#[test]
fn the_first_coordless_spider_is_reported() {
    let mut graph = Graph::new(1);
    let first = graph.add_vertex(Vertex::z());
    let second = graph.add_vertex(Vertex::x());
    assert!(first < second);
    match graph.to_tex() {
        Err(ExportError::VertexMissingCoords(i)) => assert_eq!(i, first),
        other => panic!("expected a missing-coordinates error, got {:?}", other),
    }
}

#[test]
fn missing_coordinates_win_over_a_mismatched_wire() {
    let mut graph = Graph::new(1);
    let h = graph.add_vertex(Vertex::z());
    graph.add_input(0).unwrap();
    match graph.to_tex() {
        Err(ExportError::VertexMissingCoords(i)) => assert_eq!(i, h),
        other => panic!("expected a missing-coordinates error, got {:?}", other),
    }
}

#[test]
fn mismatched_wire_fails_to_render() {
    let mut graph = Graph::new(1);
    graph.add_input(0).unwrap();
    match graph.to_tex() {
        Err(ExportError::QubitInputOutputMismatch(q)) => assert_eq!(q, 0),
        other => panic!("expected a mismatch error, got {:?}", other),
    }
}

#[test]
fn a_bare_wire_renders_as_two_boundaries_and_one_edge() {
    let mut graph = Graph::new(1);
    graph.add_wire(0).unwrap();
    let (vertices, edges) = graph.to_tex_parts().unwrap();
    assert_eq!(
        vertices,
        "\t\t\t\\node [style=boundary] (0) at (-1.00, 0.00) {};\n\
         \t\t\t\\node [style=boundary] (1) at (1.00, 0.00) {};\n"
    );
    assert_eq!(edges, "\t\t\t\\draw [style=simple_edge] (0) to (1);\n");
}

#[test]
fn an_unallocated_wire_renders_as_an_implicit_wire() {
    let graph = Graph::new(1);
    let (vertices, edges) = graph.to_tex_parts().unwrap();
    assert_eq!(
        vertices,
        "\t\t\t\\node [style=boundary] (wire_in0) at (-1.00, 0.00) {};\n\
         \t\t\t\\node [style=boundary] (wire_out0) at (1.00, 0.00) {};\n"
    );
    assert_eq!(edges, "\t\t\t\\draw [style=simple_edge] (wire_in0) to (wire_out0);\n");
}

#[test]
fn a_spider_line_shows_style_coordinates_and_phase() {
    let mut graph = Graph::new(1);
    graph.add_wire(0).unwrap();
    let mut spider = Vertex::z();
    spider.set_phase(Phase::new(1, 2));
    spider.set_coords(Coords { x: 0, y: 0 });
    graph.insert_on_wire(spider, 0).unwrap();
    let (vertices, edges) = graph.to_tex_parts().unwrap();
    assert!(vertices.contains(
        "\t\t\t\\node [style=z_node_phase] (2) at (0.00, 0.00) {$\\frac{\\pi}{2}$};\n"
    ));
    assert!(vertices.contains("\t\t\t\\node [style=boundary] (0) at (-1.00, 0.00) {};\n"));
    assert!(vertices.contains("\t\t\t\\node [style=boundary] (1) at (1.00, 0.00) {};\n"));
    assert!(edges.contains("\t\t\t\\draw [style=simple_edge] (0) to (2);\n"));
    assert!(edges.contains("\t\t\t\\draw [style=simple_edge] (2) to (1);\n"));
}

#[test]
fn vertex_type_styles() {
    assert_eq!(VertexType::B.to_tex().unwrap(), "boundary");
    assert_eq!(VertexType::Z.to_tex().unwrap(), "z_node");
    assert_eq!(VertexType::X.to_tex().unwrap(), "x_node");
    assert_eq!(VertexType::Y.to_tex().unwrap(), "y_node");
    assert_eq!(VertexType::H.to_tex().unwrap(), "hadamard");
}

#[test]
fn coordinates_render_with_two_places_and_a_flipped_row() {
    assert_eq!(Coords { x: 80, y: 300 }.to_tex().unwrap(), "0.80, -3.00");
    assert_eq!(Coords { x: -150, y: -25 }.to_tex().unwrap(), "-1.50, 0.25");
    assert_eq!(Coords { x: 0, y: 0 }.to_tex().unwrap(), "0.00, 0.00");
}

#[test]
fn a_whole_gadget_renders() {
    let gadget = GraphBuilder::gadget("YXIZ", Phase::minus()).unwrap();
    let rendered = gadget.to_tex().unwrap();
    assert!(rendered.contains("y_node"));
    assert!(rendered.contains("x_node"));
    assert!(rendered.contains("z_node_phase"));
    assert!(rendered.contains("$\\frac{3\\pi}{2}$"));
    assert!(rendered.contains("style=boundary"));
    assert!(!rendered.is_empty());
}
