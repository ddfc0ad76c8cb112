//! Rendering of diagrams in the typesetting notation their export layer
//! consumes: one node line per vertex, one draw line per edge, and the
//! canonical boundary positions of each wire. The file handling around the
//! rendered text is the export layer's concern, not this library's.

use crate::graph::Graph;
use crate::phase::Phase;
use crate::vertex::{Coords, EdgeType, Vertex, VertexType};
use vstd::prelude::*;

verus! {

/// Why a diagram could not be rendered.
#[derive(Debug, Clone, Copy, PartialEq, Eq)]
pub enum ExportError {
    /// A non-boundary vertex has no coordinates; carries its handle.
    VertexMissingCoords(usize),
    /// A wire has exactly one of its two boundaries; carries the wire.
    QubitInputOutputMismatch(usize),
}

/// A value that can render itself in the typesetting notation.
pub trait Exportable {
    /// Renders this value, or says why it cannot be rendered.
    fn to_tex(&self) -> Result<String, ExportError>;
}

/// The decimal digit character for `d` in 0 to 9.
pub open spec fn dec_digit(d: nat) -> char {
    if d == 0 {
        '0'
    } else if d == 1 {
        '1'
    } else if d == 2 {
        '2'
    } else if d == 3 {
        '3'
    } else if d == 4 {
        '4'
    } else if d == 5 {
        '5'
    } else if d == 6 {
        '6'
    } else if d == 7 {
        '7'
    } else if d == 8 {
        '8'
    } else {
        '9'
    }
}

/// The decimal notation of `n`, most significant digit first.
pub open spec fn dec_digits(n: nat) -> Seq<char>
    decreases n,
{
    if n < 10 {
        seq![dec_digit(n)]
    } else {
        dec_digits(n / 10) + seq![dec_digit(n % 10)]
    }
}

/// A count of hundredths written as a plain decimal with two places, the
/// way the export layer writes coordinates: -150 becomes `-1.50`.
pub open spec fn fixed_hundredths(v: int) -> Seq<char> {
    let m = if v < 0 {
        -v
    } else {
        v
    };
    (if v < 0 {
        seq!['-']
    } else {
        Seq::empty()
    }) + dec_digits((m / 100) as nat) + seq!['.'] + seq![
        dec_digit(((m / 10) % 10) as nat),
        dec_digit((m % 10) as nat),
    ]
}

/// One decimal digit as text.
fn digit_str(d: u64) -> (s: &'static str)
    requires
        d < 10,
    ensures
        s@ == seq![dec_digit(d as nat)],
{
    proof {
        reveal_strlit("0");
        reveal_strlit("1");
        reveal_strlit("2");
        reveal_strlit("3");
        reveal_strlit("4");
        reveal_strlit("5");
        reveal_strlit("6");
        reveal_strlit("7");
        reveal_strlit("8");
        reveal_strlit("9");
    }
    let s = if d == 0 {
        "0"
    } else if d == 1 {
        "1"
    } else if d == 2 {
        "2"
    } else if d == 3 {
        "3"
    } else if d == 4 {
        "4"
    } else if d == 5 {
        "5"
    } else if d == 6 {
        "6"
    } else if d == 7 {
        "7"
    } else if d == 8 {
        "8"
    } else {
        "9"
    };
    proof {
        assert(s@ =~= seq![dec_digit(d as nat)]);
    }
    s
}

/// The decimal notation of `n`.
pub fn u64_to_string(n: u64) -> (s: String)
    ensures
        s@ == dec_digits(n as nat),
    decreases n,
{
    if n < 10 {
        digit_str(n).to_owned()
    } else {
        let mut s = u64_to_string(n / 10);
        s.append(digit_str(n % 10));
        proof {
            assert(s@ =~= dec_digits(n as nat));
        }
        s
    }
}

/// The decimal notation of a handle or wire index.
pub fn usize_to_string(n: usize) -> (s: String)
    ensures
        s@ == dec_digits(n as nat),
{
    u64_to_string(n as u64)
}

/// A count of hundredths, given with room for the sign to have been
/// flipped, as a decimal with two places.
fn hundredths_wide_to_string(w: i128) -> (s: String)
    requires
        -(u64::MAX as i128) <= w <= u64::MAX as i128,
    ensures
        s@ == fixed_hundredths(w as int),
{
    let m: u64 = if w < 0 {
        (-w) as u64
    } else {
        w as u64
    };
    let mut s = if w < 0 {
        proof {
            reveal_strlit("-");
        }
        let t = "-".to_owned();
        proof {
            assert(t@ =~= seq!['-']);
        }
        t
    } else {
        String::new()
    };
    s.append(u64_to_string(m / 100).as_str());
    proof {
        reveal_strlit(".");
    }
    s.append(".");
    s.append(digit_str((m / 10) % 10));
    s.append(digit_str(m % 10));
    proof {
        assert("."@ =~= seq!['.']);
        assert(s@ =~= fixed_hundredths(w as int));
    }
    s
}

/// A count of hundredths as a decimal with two places.
pub fn hundredths_to_string(v: i64) -> (s: String)
    ensures
        s@ == fixed_hundredths(v as int),
{
    hundredths_wide_to_string(v as i128)
}

/// A count of hundredths with its sign flipped, as a decimal with two
/// places.
pub fn neg_hundredths_to_string(v: i64) -> (s: String)
    ensures
        s@ == fixed_hundredths(-(v as int)),
{
    hundredths_wide_to_string(-(v as i128))
}

/// The notation for a normalized phase `(numerator, denominator)` in units
/// of pi: nothing for zero, `$\pi$` for pi, and a fraction otherwise, with
/// a numerator of one left implicit.
pub open spec fn phase_tex(p: (nat, nat)) -> Seq<char> {
    if p.0 == 0 && p.1 == 1 {
        Seq::empty()
    } else if p.0 == 1 && p.1 == 1 {
        "$\\pi$"@
    } else if p.0 == 1 {
        "$\\frac{\\pi}{"@ + dec_digits(p.1) + "}$"@
    } else {
        "$\\frac{"@ + dec_digits(p.0) + "\\pi}{"@ + dec_digits(p.1) + "}$"@
    }
}

impl Exportable for Phase {
    /// Renders the phase label; rendering never fails.
    fn to_tex(&self) -> (r: Result<String, ExportError>)
        ensures
            r is Ok,
            r matches Ok(s) ==> s@ == phase_tex(self@),
    {
        let (n, d) = self.angle();
        if n == 0 && d == 1 {
            Ok(String::new())
        } else if n == 1 && d == 1 {
            Ok("$\\pi$".to_owned())
        } else if n == 1 {
            let mut s = "$\\frac{\\pi}{".to_owned();
            s.append(u64_to_string(d).as_str());
            s.append("}$");
            proof {
                assert(s@ =~= phase_tex(self@));
            }
            Ok(s)
        } else {
            let mut s = "$\\frac{".to_owned();
            s.append(u64_to_string(n).as_str());
            s.append("\\pi}{");
            s.append(u64_to_string(d).as_str());
            s.append("}$");
            proof {
                assert(s@ =~= phase_tex(self@));
            }
            Ok(s)
        }
    }
}

/// The style name of each vertex type.
pub open spec fn vertex_type_tex(t: VertexType) -> Seq<char> {
    match t {
        VertexType::B => "boundary"@,
        VertexType::Z => "z_node"@,
        VertexType::X => "x_node"@,
        VertexType::Y => "y_node"@,
        VertexType::H => "hadamard"@,
    }
}

impl Exportable for VertexType {
    /// Renders the style name; rendering never fails.
    fn to_tex(&self) -> (r: Result<String, ExportError>)
        ensures
            r is Ok,
            r matches Ok(s) ==> s@ == vertex_type_tex(*self),
    {
        match self {
            VertexType::B => Ok("boundary".to_owned()),
            VertexType::Z => Ok("z_node".to_owned()),
            VertexType::X => Ok("x_node".to_owned()),
            VertexType::Y => Ok("y_node".to_owned()),
            VertexType::H => Ok("hadamard".to_owned()),
        }
    }
}

/// The notation for a coordinate pair: the horizontal value, then the
/// vertical one with its sign flipped, so that an increasing wire index
/// maps to a decreasing display coordinate.
pub open spec fn coords_tex(c: Coords) -> Seq<char> {
    fixed_hundredths(c.x as int) + ", "@ + fixed_hundredths(-(c.y as int))
}

impl Exportable for Coords {
    /// Renders the coordinate pair; rendering never fails.
    fn to_tex(&self) -> (r: Result<String, ExportError>)
        ensures
            r is Ok,
            r matches Ok(s) ==> s@ == coords_tex(*self),
    {
        let mut s = hundredths_to_string(self.x);
        s.append(", ");
        s.append(neg_hundredths_to_string(self.y).as_str());
        proof {
            reveal_strlit(", ");
            assert(s@ =~= coords_tex(*self));
        }
        Ok(s)
    }
}

/// The style of a vertex: its type's style name, with a `_phase` suffix
/// when a phase label is shown.
pub open spec fn style_tex(v: Vertex) -> Seq<char> {
    vertex_type_tex(v.vertex_type) + (if phase_tex(v.phase@).len() == 0 {
        Seq::empty()
    } else {
        "_phase"@
    })
}

/// One node line of the rendering.
pub open spec fn vertex_line_tex(idx: nat, v: Vertex) -> Seq<char>
    recommends
        v.coords is Some,
{
    "\t\t\t\\node [style="@ + style_tex(v) + "] ("@ + dec_digits(idx) + ") at ("@ + coords_tex(
        v.coords->0,
    ) + ") {"@ + phase_tex(v.phase@) + "};\n"@
}

/// The style name of each edge type.
pub open spec fn edge_style_tex(t: EdgeType) -> Seq<char> {
    match t {
        EdgeType::Simple => "simple_edge"@,
        EdgeType::Hadamard => "hadamard_edge"@,
    }
}

/// One draw line of the rendering, between two node names.
pub open spec fn edge_line_tex(source: Seq<char>, target: Seq<char>, t: EdgeType) -> Seq<char> {
    "\t\t\t\\draw [style="@ + edge_style_tex(t) + "] ("@ + source + ") to ("@ + target + ");\n"@
}

/// The display row of a wire, in hundredths: an increasing wire index maps
/// to a decreasing coordinate, held at the numeric range's edge for indices
/// too large to scale.
pub open spec fn wire_row(w: nat) -> int {
    if 100 * w <= i64::MAX as int {
        0 - 100 * w
    } else {
        0 - i64::MAX as int
    }
}

/// One boundary node line: a node of boundary style at the canonical
/// position of its wire's side.
pub open spec fn boundary_line_tex(name: Seq<char>, x: int, wire: nat) -> Seq<char> {
    "\t\t\t\\node [style=boundary] ("@ + name + ") at ("@ + fixed_hundredths(x) + ", "@
        + fixed_hundredths(wire_row(wire)) + ") {};\n"@
}

/// The display row of a wire as a machine value.
fn wire_row_i64(w: usize) -> (r: i64)
    ensures
        r as int == wire_row(w as nat),
{
    if (w as u128) * 100 <= i64::MAX as u128 {
        (0 - (w as i64) * 100) as i64
    } else {
        0 - i64::MAX
    }
}

/// One node line, rendered exactly.
pub fn vertex_line_string(idx: usize, v: &Vertex) -> (s: String)
    requires
        v.coords is Some,
    ensures
        s@ == vertex_line_tex(idx as nat, *v),
{
    let mut s = "\t\t\t\\node [style=".to_owned();
    let style = match v.vertex_type().to_tex() {
        Ok(t) => t,
        Err(_) => unreached(),
    };
    s.append(style.as_str());
    let label = match v.phase().to_tex() {
        Ok(t) => t,
        Err(_) => unreached(),
    };
    if label.as_str().unicode_len() != 0 {
        s.append("_phase");
    }
    s.append("] (");
    s.append(usize_to_string(idx).as_str());
    s.append(") at (");
    let coords = match v.coords {
        Some(c) => c,
        None => {
            return unreached();
        },
    };
    let ct = match coords.to_tex() {
        Ok(t) => t,
        Err(_) => unreached(),
    };
    s.append(ct.as_str());
    s.append(") {");
    s.append(label.as_str());
    s.append("};\n");
    proof {
        assert(s@ =~= vertex_line_tex(idx as nat, *v));
    }
    s
}

/// One draw line, rendered exactly.
pub fn edge_line_string(source: &str, target: &str, t: EdgeType) -> (s: String)
    ensures
        s@ == edge_line_tex(source@, target@, t),
{
    let mut s = "\t\t\t\\draw [style=".to_owned();
    match t {
        EdgeType::Simple => s.append("simple_edge"),
        EdgeType::Hadamard => s.append("hadamard_edge"),
    }
    s.append("] (");
    s.append(source);
    s.append(") to (");
    s.append(target);
    s.append(");\n");
    proof {
        assert(s@ =~= edge_line_tex(source@, target@, t));
    }
    s
}

/// One boundary node line, rendered exactly.
pub fn boundary_line_string(name: &str, x: i64, wire: usize) -> (s: String)
    ensures
        s@ == boundary_line_tex(name@, x as int, wire as nat),
{
    let mut s = "\t\t\t\\node [style=boundary] (".to_owned();
    s.append(name);
    s.append(") at (");
    s.append(hundredths_to_string(x).as_str());
    s.append(", ");
    s.append(hundredths_to_string(wire_row_i64(wire)).as_str());
    s.append(") {};\n");
    proof {
        assert(s@ =~= boundary_line_tex(name@, x as int, wire as nat));
    }
    s
}

impl Graph {
    /// Renders the diagram as its two blocks of lines: the node lines and
    /// the draw lines. Every non-boundary vertex is drawn at its stored
    /// coordinates with its style and phase label; every allocated wire's
    /// boundaries are drawn at that wire's canonical edge positions; an
    /// unallocated wire is drawn as an implicit free wire. Fails when a
    /// non-boundary vertex has no coordinates or a wire has exactly one
    /// boundary.
    pub fn to_tex_parts(&self) -> (r: Result<(String, String), ExportError>)
        ensures
            match r {
                Ok(_) => {
                    &&& forall|k: nat|
                        self.nodes().dom().contains(k) && (#[trigger] self.nodes()[k]).vertex_type
                            != VertexType::B ==> self.nodes()[k].coords is Some
                    &&& forall|w: int|
                        0 <= w < self.wire_count() ==> (self.input_at(w) is Some
                            <==> #[trigger] self.output_at(w) is Some)
                },
                Err(e) => match e {
                    ExportError::VertexMissingCoords(i) => {
                        &&& self.nodes().dom().contains(i as nat)
                        &&& self.nodes()[i as nat].vertex_type != VertexType::B
                        &&& self.nodes()[i as nat].coords is None
                        &&& forall|k: nat|
                            k < i as nat && self.nodes().dom().contains(k) && (
                            #[trigger] self.nodes()[k]).vertex_type != VertexType::B
                                ==> self.nodes()[k].coords is Some
                    },
                    ExportError::QubitInputOutputMismatch(q) => {
                        &&& (q as int) < self.wire_count()
                        &&& !(self.input_at(q as int) is Some <==> self.output_at(q as int)
                            is Some)
                        &&& forall|k: nat|
                            self.nodes().dom().contains(k) && (#[trigger] self.nodes()[k]).vertex_type
                                != VertexType::B ==> self.nodes()[k].coords is Some
                        &&& forall|w: int|
                            0 <= w < q ==> (self.input_at(w) is Some
                                <==> #[trigger] self.output_at(w) is Some)
                    },
                },
            },
    {
        let verts = self.enumerate_vertices();
        let mut vert_block = String::new();
        let mut i: usize = 0;
        while i < verts.len()
            invariant
                i <= verts@.len(),
                verts@.len() == self.nodes().dom().len(),
                forall|j: int|
                    0 <= j < verts@.len() ==> self.nodes().contains_pair(
                        (#[trigger] verts@[j]).0 as nat,
                        verts@[j].1,
                    ),
                forall|j1: int, j2: int|
                    0 <= j1 < j2 < verts@.len() ==> verts@[j1].0 < verts@[j2].0,
                forall|k: nat|
                    #[trigger] self.nodes().dom().contains(k) ==> exists|j: int|
                        0 <= j < verts@.len() && (#[trigger] verts@[j]).0 as nat == k,
                forall|j: int|
                    0 <= j < i && (#[trigger] verts@[j]).1.vertex_type != VertexType::B
                        ==> verts@[j].1.coords is Some,
            decreases verts@.len() - i,
        {
            let (idx, v) = verts[i];
            match v.vertex_type {
                VertexType::B => {},
                _ => {
                    match v.coords {
                        Some(_) => {
                            let line = vertex_line_string(idx, &v);
                            vert_block.append(line.as_str());
                        },
                        None => {
                            proof {
                                assert(self.nodes().contains_pair(idx as nat, v));
                                // Every vertex with a smaller handle was
                                // already checked: the enumeration is in
                                // ascending handle order.
                                assert forall|k: nat|
                                    k < idx as nat && self.nodes().dom().contains(k) && (
                                #[trigger] self.nodes()[k]).vertex_type != VertexType::B implies (
                                self.nodes()[k].coords is Some) by {
                                    let j = choose|j: int|
                                        0 <= j < verts@.len() && (#[trigger] verts@[j]).0 as nat
                                            == k;
                                    assert(self.nodes().contains_pair(
                                        verts@[j].0 as nat,
                                        verts@[j].1,
                                    ));
                                    assert(j < i as int) by {
                                        if j > i as int {
                                            assert(verts@[i as int].0 < verts@[j].0);
                                        }
                                    }
                                }
                            }
                            return Err(ExportError::VertexMissingCoords(idx));
                        },
                    }
                },
            }
            i = i + 1;
        }
        proof {
            // The vertex pass completed, so every non-boundary vertex has
            // coordinates.
            assert forall|k: nat|
                self.nodes().dom().contains(k) && (#[trigger] self.nodes()[k]).vertex_type
                    != VertexType::B implies (self.nodes()[k].coords is Some) by {
                let j = choose|j: int|
                    0 <= j < verts@.len() && (#[trigger] verts@[j]).0 as nat == k;
                assert(self.nodes().contains_pair(verts@[j].0 as nat, verts@[j].1));
                assert(verts@[j].1.vertex_type != VertexType::B);
                assert(verts@[j].1.coords is Some);
            }
        }
        let edges = self.enumerate_edges();
        let mut edge_block = String::new();
        let mut i: usize = 0;
        while i < edges.len()
            invariant
                i <= edges@.len(),
            decreases edges@.len() - i,
        {
            let e = edges[i];
            let line = edge_line_string(
                usize_to_string(e.source).as_str(),
                usize_to_string(e.target).as_str(),
                e.edge_type,
            );
            edge_block.append(line.as_str());
            i = i + 1;
        }
        let count = self.capacity();
        let mut q: usize = 0;
        while q < count
            invariant
                q <= count,
                count == self.wire_count(),
                forall|w: int|
                    0 <= w < q ==> (self.input_at(w) is Some <==> #[trigger] self.output_at(w)
                        is Some),
                forall|k: nat|
                    self.nodes().dom().contains(k) && (#[trigger] self.nodes()[k]).vertex_type
                        != VertexType::B ==> self.nodes()[k].coords is Some,
            decreases count - q,
        {
            let inp = self.input_index(q);
            let outp = self.output_index(q);
            match (inp, outp) {
                (Some(ih), Some(oh)) => {
                    let in_line = boundary_line_string(usize_to_string(ih).as_str(), -100, q);
                    vert_block.append(in_line.as_str());
                    let out_line = boundary_line_string(usize_to_string(oh).as_str(), 100, q);
                    vert_block.append(out_line.as_str());
                },
                (None, None) => {
                    let mut in_name = "wire_in".to_owned();
                    in_name.append(usize_to_string(q).as_str());
                    let mut out_name = "wire_out".to_owned();
                    out_name.append(usize_to_string(q).as_str());
                    let in_line = boundary_line_string(in_name.as_str(), -100, q);
                    vert_block.append(in_line.as_str());
                    let out_line = boundary_line_string(out_name.as_str(), 100, q);
                    vert_block.append(out_line.as_str());
                    let wire_line = edge_line_string(
                        in_name.as_str(),
                        out_name.as_str(),
                        EdgeType::Simple,
                    );
                    edge_block.append(wire_line.as_str());
                },
                _ => {
                    return Err(ExportError::QubitInputOutputMismatch(q));
                },
            }
            q = q + 1;
        }
        Ok((vert_block, edge_block))
    }
}

impl Exportable for Graph {
    /// Renders the whole diagram: the node lines followed by the draw
    /// lines. Fails exactly as `to_tex_parts` does: on the first
    /// non-boundary vertex without coordinates, in handle order, and
    /// otherwise on the first wire with exactly one boundary.
    fn to_tex(&self) -> (r: Result<String, ExportError>)
        ensures
            match r {
                Ok(_) => {
                    &&& forall|k: nat|
                        self.nodes().dom().contains(k) && (#[trigger] self.nodes()[k]).vertex_type
                            != VertexType::B ==> self.nodes()[k].coords is Some
                    &&& forall|w: int|
                        0 <= w < self.wire_count() ==> (self.input_at(w) is Some
                            <==> #[trigger] self.output_at(w) is Some)
                },
                Err(e) => match e {
                    ExportError::VertexMissingCoords(i) => {
                        &&& self.nodes().dom().contains(i as nat)
                        &&& self.nodes()[i as nat].vertex_type != VertexType::B
                        &&& self.nodes()[i as nat].coords is None
                        &&& forall|k: nat|
                            k < i as nat && self.nodes().dom().contains(k) && (
                            #[trigger] self.nodes()[k]).vertex_type != VertexType::B
                                ==> self.nodes()[k].coords is Some
                    },
                    ExportError::QubitInputOutputMismatch(q) => {
                        &&& (q as int) < self.wire_count()
                        &&& !(self.input_at(q as int) is Some <==> self.output_at(q as int)
                            is Some)
                        &&& forall|k: nat|
                            self.nodes().dom().contains(k) && (#[trigger] self.nodes()[k]).vertex_type
                                != VertexType::B ==> self.nodes()[k].coords is Some
                        &&& forall|w: int|
                            0 <= w < q ==> (self.input_at(w) is Some
                                <==> #[trigger] self.output_at(w) is Some)
                    },
                },
            },
    {
        match self.to_tex_parts() {
            Ok((vert_block, edge_block)) => Ok(vert_block.concat(edge_block.as_str())),
            Err(e) => Err(e),
        }
    }
}

} // verus!
