//! Vertex and edge payload types of the diagram.

use crate::phase::Phase;
use vstd::prelude::*;

verus! {

/// The kind of an edge: a plain connection or a color-changing one.
#[derive(Debug, Copy, Clone, PartialEq, Eq, Structural, Hash)]
pub enum EdgeType {
    Simple,
    Hadamard,
}

/// The kind of a vertex: a boundary marker, one of the three interacting
/// spider colors, or the unary color-change marker.
#[derive(Debug, Copy, Clone, PartialEq, Eq, Structural)]
pub enum VertexType {
    B,
    Z,
    X,
    Y,
    H,
}

/// Layout coordinates, stored exactly in hundredths of a display unit.
#[derive(Debug, Clone, Copy, PartialEq, Eq, Structural)]
pub struct Coords {
    pub x: i64,
    pub y: i64,
}

/// A node of the diagram: a type tag, an exact phase, and optional layout
/// coordinates. Coordinates are used only when the diagram is exported and
/// never enter a structural invariant beyond their presence.
#[derive(Debug, Clone, Copy, PartialEq)]
pub struct Vertex {
    pub vertex_type: VertexType,
    pub phase: Phase,
    pub coords: Option<Coords>,
}

/// The vertex that `Vertex::b` builds: a boundary marker with phase zero
/// and no coordinates.
pub open spec fn boundary_vertex() -> Vertex {
    Vertex { vertex_type: VertexType::B, phase: Phase::spec_zero(), coords: None }
}

impl Vertex {
    /// Whether this vertex marks a wire boundary.
    pub open spec fn is_boundary(self) -> bool {
        self.vertex_type == VertexType::B
    }

    /// The type tag of this vertex.
    pub fn vertex_type(&self) -> (t: VertexType)
        ensures
            t == self.vertex_type,
    {
        self.vertex_type
    }

    /// The phase carried by this vertex.
    pub fn phase(&self) -> (p: Phase)
        ensures
            p == self.phase,
    {
        self.phase
    }

    /// The layout coordinates of this vertex, if they have been assigned.
    pub fn coords(&self) -> (c: Option<Coords>)
        ensures
            c == self.coords,
    {
        self.coords
    }

    /// Replaces the type tag.
    pub fn set_vertex_type(&mut self, vertex_type: VertexType)
        ensures
            *final(self) == (Vertex { vertex_type, ..*old(self) }),
    {
        self.vertex_type = vertex_type;
    }

    /// Replaces the phase.
    pub fn set_phase(&mut self, phase: Phase)
        ensures
            *final(self) == (Vertex { phase, ..*old(self) }),
    {
        self.phase = phase;
    }

    /// Assigns layout coordinates.
    pub fn set_coords(&mut self, coords: Coords)
        ensures
            *final(self) == (Vertex { coords: Some(coords), ..*old(self) }),
    {
        self.coords = Some(coords);
    }

    /// A boundary vertex with phase zero and no coordinates.
    pub fn b() -> (v: Vertex)
        ensures
            v == boundary_vertex(),
            v.phase@ == (0nat, 1nat),
            v.phase.wf(),
    {
        proof {
            Phase::lemma_spec_zero();
        }
        Vertex { vertex_type: VertexType::B, phase: Phase::zero(), coords: None }
    }

    /// A Z spider with phase zero and no coordinates.
    pub fn z() -> (v: Vertex)
        ensures
            v.vertex_type == VertexType::Z,
            v.phase@ == (0nat, 1nat),
            v.phase.wf(),
            v.coords is None,
    {
        Vertex { vertex_type: VertexType::Z, phase: Phase::zero(), coords: None }
    }

    /// An X spider with phase zero and no coordinates.
    pub fn x() -> (v: Vertex)
        ensures
            v.vertex_type == VertexType::X,
            v.phase@ == (0nat, 1nat),
            v.phase.wf(),
            v.coords is None,
    {
        Vertex { vertex_type: VertexType::X, phase: Phase::zero(), coords: None }
    }

    /// A Y spider with phase zero and no coordinates.
    pub fn y() -> (v: Vertex)
        ensures
            v.vertex_type == VertexType::Y,
            v.phase@ == (0nat, 1nat),
            v.phase.wf(),
            v.coords is None,
    {
        Vertex { vertex_type: VertexType::Y, phase: Phase::zero(), coords: None }
    }
}

/// Step-by-step construction of a `Vertex`; the type tag must be chosen
/// before `build` is called, the other fields have defaults.
#[derive(Debug, Clone)]
pub struct VertexBuilder {
    pub vertex_type: Option<VertexType>,
    pub phase: Option<Phase>,
    pub coords: Option<Coords>,
}

impl VertexBuilder {
    /// A builder with no field chosen yet.
    pub fn new() -> (b: VertexBuilder)
        ensures
            b.vertex_type is None,
            b.phase is None,
            b.coords is None,
    {
        VertexBuilder { vertex_type: None, phase: None, coords: None }
    }

    /// Finishes the vertex; the phase defaults to zero.
    pub fn build(self) -> (v: Vertex)
        requires
            self.vertex_type is Some,
        ensures
            v.vertex_type == self.vertex_type->0,
            self.phase is Some ==> v.phase == self.phase->0,
            self.phase is None ==> v.phase@ == (0nat, 1nat) && v.phase.wf(),
            v.coords == self.coords,
    {
        let vertex_type = match self.vertex_type {
            Some(t) => t,
            None => VertexType::Z,
        };
        let phase = match self.phase {
            Some(p) => p,
            None => Phase::zero(),
        };
        Vertex { vertex_type, phase, coords: self.coords }
    }

    /// Chooses the type tag.
    pub fn vertex_type(self, vertex_type: VertexType) -> (b: VertexBuilder)
        ensures
            b == (VertexBuilder { vertex_type: Some(vertex_type), ..self }),
    {
        VertexBuilder { vertex_type: Some(vertex_type), ..self }
    }

    /// Chooses the phase.
    pub fn phase(self, phase: Phase) -> (b: VertexBuilder)
        ensures
            b == (VertexBuilder { phase: Some(phase), ..self }),
    {
        VertexBuilder { phase: Some(phase), ..self }
    }

    /// Chooses the layout coordinates, in hundredths of a display unit.
    pub fn coords(self, x: i64, y: i64) -> (b: VertexBuilder)
        ensures
            b == (VertexBuilder { coords: Some(Coords { x, y }), ..self }),
    {
        VertexBuilder { coords: Some(Coords { x, y }), ..self }
    }

    /// A builder for a Z spider.
    pub fn z() -> (b: VertexBuilder)
        ensures
            b.vertex_type == Some(VertexType::Z),
            b.phase is None,
            b.coords is None,
    {
        VertexBuilder::new().vertex_type(VertexType::Z)
    }

    /// A builder for an X spider.
    pub fn x() -> (b: VertexBuilder)
        ensures
            b.vertex_type == Some(VertexType::X),
            b.phase is None,
            b.coords is None,
    {
        VertexBuilder::new().vertex_type(VertexType::X)
    }

    /// A builder for a Y spider.
    pub fn y() -> (b: VertexBuilder)
        ensures
            b.vertex_type == Some(VertexType::Y),
            b.phase is None,
            b.coords is None,
    {
        VertexBuilder::new().vertex_type(VertexType::Y)
    }

    /// A builder for a Z spider with phase pi.
    pub fn z_pauli() -> (b: VertexBuilder)
        ensures
            b.vertex_type == Some(VertexType::Z),
            b.phase is Some && b.phase->0@ == (1nat, 1nat) && b.phase->0.wf(),
            b.coords is None,
    {
        VertexBuilder::z().phase(Phase::one())
    }

    /// A builder for an X spider with phase pi.
    pub fn x_pauli() -> (b: VertexBuilder)
        ensures
            b.vertex_type == Some(VertexType::X),
            b.phase is Some && b.phase->0@ == (1nat, 1nat) && b.phase->0.wf(),
            b.coords is None,
    {
        VertexBuilder::x().phase(Phase::one())
    }

    /// A builder for a Y spider with phase pi.
    pub fn y_pauli() -> (b: VertexBuilder)
        ensures
            b.vertex_type == Some(VertexType::Y),
            b.phase is Some && b.phase->0@ == (1nat, 1nat) && b.phase->0.wf(),
            b.coords is None,
    {
        VertexBuilder::y().phase(Phase::one())
    }

    /// A builder for a Z spider with phase pi / 2.
    pub fn z_plus() -> (b: VertexBuilder)
        ensures
            b.vertex_type == Some(VertexType::Z),
            b.phase is Some && b.phase->0@ == (1nat, 2nat) && b.phase->0.wf(),
            b.coords is None,
    {
        VertexBuilder::z().phase(Phase::plus())
    }

    /// A builder for a Z spider with phase -pi / 2.
    pub fn z_minus() -> (b: VertexBuilder)
        ensures
            b.vertex_type == Some(VertexType::Z),
            b.phase is Some && b.phase->0@ == (3nat, 2nat) && b.phase->0.wf(),
            b.coords is None,
    {
        VertexBuilder::z().phase(Phase::minus())
    }

    /// A builder for an X spider with phase pi / 2.
    pub fn x_plus() -> (b: VertexBuilder)
        ensures
            b.vertex_type == Some(VertexType::X),
            b.phase is Some && b.phase->0@ == (1nat, 2nat) && b.phase->0.wf(),
            b.coords is None,
    {
        VertexBuilder::x().phase(Phase::plus())
    }

    /// A builder for an X spider with phase -pi / 2.
    pub fn x_minus() -> (b: VertexBuilder)
        ensures
            b.vertex_type == Some(VertexType::X),
            b.phase is Some && b.phase->0@ == (3nat, 2nat) && b.phase->0.wf(),
            b.coords is None,
    {
        VertexBuilder::x().phase(Phase::minus())
    }

    /// A builder for a Y spider with phase pi / 2.
    pub fn y_plus() -> (b: VertexBuilder)
        ensures
            b.vertex_type == Some(VertexType::Y),
            b.phase is Some && b.phase->0@ == (1nat, 2nat) && b.phase->0.wf(),
            b.coords is None,
    {
        VertexBuilder::y().phase(Phase::plus())
    }

    /// A builder for a Y spider with phase -pi / 2.
    pub fn y_minus() -> (b: VertexBuilder)
        ensures
            b.vertex_type == Some(VertexType::Y),
            b.phase is Some && b.phase->0@ == (3nat, 2nat) && b.phase->0.wf(),
            b.coords is None,
    {
        VertexBuilder::y().phase(Phase::minus())
    }

    /// A builder for a boundary vertex with phase zero.
    pub fn b() -> (b: VertexBuilder)
        ensures
            b.vertex_type == Some(VertexType::B),
            b.phase is Some && b.phase->0@ == (0nat, 1nat) && b.phase->0.wf(),
            b.coords is None,
    {
        VertexBuilder::new().vertex_type(VertexType::B).phase(Phase::zero())
    }
}

} // verus!
