//! Stateless factories for the standard diagram fragments: single-spider
//! Pauli and Clifford half-turn gates, the two-qubit CX and CZ gates, and
//! multi-leg gadgets. Each one returns a whole, well-formed diagram or a
//! typed error; no half-built diagram is ever observable.

use crate::graph::{
    edges_at, fresh_wire_count, spider_keys, wire_excluded, Graph, GraphError, WireState,
};
use crate::phase::Phase;
use crate::vertex::{Coords, Vertex, VertexType};
use vstd::prelude::*;

verus! {

/// All wires of a fresh diagram count as fresh for a batch allocation that
/// excludes nothing.
proof fn lemma_fresh_wire_count_full(g: Graph, n: int, ex: Seq<usize>)
    requires
        ex.len() == 0,
        forall|w: int| 0 <= w < n ==> g.unallocated(w),
    ensures
        fresh_wire_count(g, n, ex) == if n <= 0 {
            0
        } else {
            n as nat
        },
    decreases n,
{
    if n > 0 {
        lemma_fresh_wire_count_full(g, n - 1, ex);
        assert(!wire_excluded(ex, n - 1));
    }
}

/// The characters an operator string may hold: I, X, Y and Z, in either
/// case.
pub open spec fn is_pauli_char(c: char) -> bool {
    ||| c == 'i'
    ||| c == 'I'
    ||| c == 'x'
    ||| c == 'X'
    ||| c == 'y'
    ||| c == 'Y'
    ||| c == 'z'
    ||| c == 'Z'
}

/// The characters that put a leg on their wire: every operator character
/// except I.
pub open spec fn is_leg_char(c: char) -> bool {
    is_pauli_char(c) && c != 'i' && c != 'I'
}

/// The spider color a leg character names.
pub open spec fn leg_color(c: char) -> VertexType {
    if c == 'z' || c == 'Z' {
        VertexType::Z
    } else if c == 'x' || c == 'X' {
        VertexType::X
    } else {
        VertexType::Y
    }
}

/// How many of the first `n` characters put a leg on their wire.
pub open spec fn leg_count(s: Seq<char>, n: int) -> nat
    decreases n,
{
    if n <= 0 {
        0
    } else {
        leg_count(s, n - 1) + (if is_leg_char(s[n - 1]) {
            1nat
        } else {
            0nat
        })
    }
}

/// Wire `w` carries a leg of the given color: a non-boundary vertex other
/// than the hub, of that color, directly connected to the wire's input
/// boundary, to its output boundary, and to the hub.
pub open spec fn wire_leg(g: Graph, w: int, color: VertexType, hub: nat) -> bool {
    exists|k: nat|
        {
            &&& #[trigger] spider_keys(g.nodes()).contains(k)
            &&& k != hub
            &&& g.nodes()[k].vertex_type == color
            &&& g.direct_edge_between(g.input_at(w)->0 as nat, k)
            &&& g.direct_edge_between(k, g.output_at(w)->0 as nat)
            &&& g.direct_edge_between(k, hub)
        }
}

/// Every edge at the hub joins it to a non-boundary vertex other than the
/// hub itself: no hub edge reaches a boundary, and none is a self-loop.
pub open spec fn hub_edges_reach_spiders(g: Graph, hub: nat) -> bool {
    forall|e: nat|
        #[trigger] edges_at(g.edge_map(), hub).contains(e) ==> {
            let other = if g.edge_map()[e].0 == hub {
                g.edge_map()[e].1
            } else {
                g.edge_map()[e].0
            };
            other != hub && spider_keys(g.nodes()).contains(other)
        }
}

/// The factory for standard diagram fragments.
pub struct GraphBuilder;

impl GraphBuilder {
    /// One wire range of `qubit + 1` wires, all bare but the last, which is
    /// occupied by a single spider of the given type and phase.
    fn single_spider_gate(vertex_type: VertexType, phase: Phase, x_pos: i64, qubit: usize) -> (g:
        Graph)
        requires
            vertex_type != VertexType::B,
            qubit < usize::MAX,
            qubit as int * 100 <= i64::MAX as int,
        ensures
            g.wf(),
            g.well_formed_diagram(),
            g.wire_count() == qubit as int + 1,
            forall|w: int| 0 <= w <= qubit as int ==> g.allocated(w),
            forall|w: int| 0 <= w < qubit as int ==> g.wire_state(w) == WireState::Bare,
            g.occupied(qubit as int),
            g.nodes().dom().len() == 2 * (qubit as int + 1) + 1,
            g.edge_map().dom().len() == (qubit as int + 1) + 1,
            spider_keys(g.nodes()).len() == 1,
            forall|k: nat|
                spider_keys(g.nodes()).contains(k) ==> g.nodes()[k] == (Vertex {
                    vertex_type,
                    phase,
                    coords: Some(Coords { x: x_pos, y: (qubit * 100) as i64 }),
                }),
            forall|k: nat|
                #[trigger] spider_keys(g.nodes()).contains(k) ==> g.direct_edge_between(
                    g.input_at(qubit as int)->0 as nat,
                    k,
                ) && g.direct_edge_between(k, g.output_at(qubit as int)->0 as nat),
    {
        let capacity = qubit + 1;
        let mut g = Graph::new(capacity);
        let excluded: Vec<usize> = Vec::new();
        proof {
            lemma_fresh_wire_count_full(g, capacity as int, excluded@);
            assert(spider_keys(g.nodes()) =~= Set::empty());
        }
        let ghost g0 = g;
        match g.add_wires_excluding(capacity, &excluded) {
            Ok(()) => {},
            Err(_) => {
                proof {
                    assert(forall|w: int|
                        0 <= w < capacity ==> g0.unallocated(w) || g0.bare(w));
                }
                return unreached();
            },
        }
        let ghost g1 = g;
        let v = Vertex {
            vertex_type,
            phase,
            coords: Some(Coords { x: x_pos, y: (qubit as i64) * 100 }),
        };
        let h = match g.insert_on_wire(v, qubit) {
            Ok(h) => h,
            Err(_) => {
                proof {
                    assert(g1.singly_bare(qubit as int));
                }
                return unreached();
            },
        };
        proof {
            assert(spider_keys(g.nodes()) =~= Set::empty().insert(h as nat));
            assert(g.occupied(qubit as int)) by {
                assert(g1.singly_bare(qubit as int));
            }
            assert forall|w: int| 0 <= w < qubit as int implies g.wire_state(w)
                == WireState::Bare by {
                assert(g1.wire_state(w) == WireState::Bare);
            }
            assert forall|w: int| 0 <= w <= qubit as int implies g.allocated(w) by {
                if w < qubit as int {
                    assert(g.wire_state(w) == WireState::Bare);
                }
            }
            assert(g.well_formed_diagram()) by {
                assert(spider_keys(g.nodes()).contains(h as nat));
                assert forall|k: nat|
                    g.nodes().dom().contains(k) && (#[trigger] g.nodes()[k]).vertex_type
                        != VertexType::B implies (g.nodes()[k].coords is Some) by {
                    if k != h as nat {
                        assert(g1.nodes().contains_key(k));
                        assert(g.nodes()[k] == g1.nodes()[k]);
                        assert(!g0.nodes().contains_key(k));
                        assert(g1.nodes()[k] == crate::vertex::boundary_vertex());
                    }
                }
            }
            assert forall|k: nat| spider_keys(g.nodes()).contains(k) implies g.nodes()[k] == (
            Vertex {
                vertex_type,
                phase,
                coords: Some(Coords { x: x_pos, y: (qubit * 100) as i64 }),
            }) by {
                assert(k == h as nat);
            }
            assert forall|k: nat| #[trigger]
                spider_keys(g.nodes()).contains(k) implies g.direct_edge_between(
                g.input_at(qubit as int)->0 as nat,
                k,
            ) && g.direct_edge_between(k, g.output_at(qubit as int)->0 as nat) by {
                assert(k == h as nat);
                assert(g.input_at(qubit as int) == g1.input_at(qubit as int));
                assert(g.output_at(qubit as int) == g1.output_at(qubit as int));
            }
        }
        g
    }

    /// A Pauli Z gate on the given wire: one Z spider with phase pi.
    pub fn pauli_z(qubit: usize) -> (g: Graph)
        requires
            qubit < usize::MAX,
            qubit as int * 100 <= i64::MAX as int,
        ensures
            g.wf(),
            g.well_formed_diagram(),
            g.wire_count() == qubit as int + 1,
            forall|w: int| 0 <= w <= qubit as int ==> g.allocated(w),
            forall|w: int| 0 <= w < qubit as int ==> g.wire_state(w) == WireState::Bare,
            g.occupied(qubit as int),
            g.nodes().dom().len() == 2 * (qubit as int + 1) + 1,
            g.edge_map().dom().len() == (qubit as int + 1) + 1,
            spider_keys(g.nodes()).len() == 1,
            forall|k: nat|
                spider_keys(g.nodes()).contains(k) ==> g.nodes()[k].vertex_type == VertexType::Z
                    && g.nodes()[k].phase@ == (1nat, 1nat),
            forall|k: nat|
                #[trigger] spider_keys(g.nodes()).contains(k) ==> g.direct_edge_between(
                    g.input_at(qubit as int)->0 as nat,
                    k,
                ) && g.direct_edge_between(k, g.output_at(qubit as int)->0 as nat),
    {
        Self::single_spider_gate(VertexType::Z, Phase::one(), 100, qubit)
    }

    /// A Pauli X gate on the given wire: one X spider with phase pi.
    pub fn pauli_x(qubit: usize) -> (g: Graph)
        requires
            qubit < usize::MAX,
            qubit as int * 100 <= i64::MAX as int,
        ensures
            g.wf(),
            g.well_formed_diagram(),
            g.wire_count() == qubit as int + 1,
            forall|w: int| 0 <= w <= qubit as int ==> g.allocated(w),
            forall|w: int| 0 <= w < qubit as int ==> g.wire_state(w) == WireState::Bare,
            g.occupied(qubit as int),
            g.nodes().dom().len() == 2 * (qubit as int + 1) + 1,
            g.edge_map().dom().len() == (qubit as int + 1) + 1,
            spider_keys(g.nodes()).len() == 1,
            forall|k: nat|
                spider_keys(g.nodes()).contains(k) ==> g.nodes()[k].vertex_type == VertexType::X
                    && g.nodes()[k].phase@ == (1nat, 1nat),
            forall|k: nat|
                #[trigger] spider_keys(g.nodes()).contains(k) ==> g.direct_edge_between(
                    g.input_at(qubit as int)->0 as nat,
                    k,
                ) && g.direct_edge_between(k, g.output_at(qubit as int)->0 as nat),
    {
        Self::single_spider_gate(VertexType::X, Phase::one(), 100, qubit)
    }

    /// A Pauli Y gate on the given wire: one Y spider with phase pi.
    pub fn pauli_y(qubit: usize) -> (g: Graph)
        requires
            qubit < usize::MAX,
            qubit as int * 100 <= i64::MAX as int,
        ensures
            g.wf(),
            g.well_formed_diagram(),
            g.wire_count() == qubit as int + 1,
            forall|w: int| 0 <= w <= qubit as int ==> g.allocated(w),
            forall|w: int| 0 <= w < qubit as int ==> g.wire_state(w) == WireState::Bare,
            g.occupied(qubit as int),
            g.nodes().dom().len() == 2 * (qubit as int + 1) + 1,
            g.edge_map().dom().len() == (qubit as int + 1) + 1,
            spider_keys(g.nodes()).len() == 1,
            forall|k: nat|
                spider_keys(g.nodes()).contains(k) ==> g.nodes()[k].vertex_type == VertexType::Y
                    && g.nodes()[k].phase@ == (1nat, 1nat),
            forall|k: nat|
                #[trigger] spider_keys(g.nodes()).contains(k) ==> g.direct_edge_between(
                    g.input_at(qubit as int)->0 as nat,
                    k,
                ) && g.direct_edge_between(k, g.output_at(qubit as int)->0 as nat),
    {
        Self::single_spider_gate(VertexType::Y, Phase::one(), 100, qubit)
    }

    /// A Z half-turn of positive sign: one Z spider with phase pi / 2.
    pub fn z_plus(qubit: usize) -> (g: Graph)
        requires
            qubit < usize::MAX,
            qubit as int * 100 <= i64::MAX as int,
        ensures
            g.wf(),
            g.well_formed_diagram(),
            g.wire_count() == qubit as int + 1,
            forall|w: int| 0 <= w <= qubit as int ==> g.allocated(w),
            forall|w: int| 0 <= w < qubit as int ==> g.wire_state(w) == WireState::Bare,
            g.occupied(qubit as int),
            g.nodes().dom().len() == 2 * (qubit as int + 1) + 1,
            g.edge_map().dom().len() == (qubit as int + 1) + 1,
            spider_keys(g.nodes()).len() == 1,
            forall|k: nat|
                spider_keys(g.nodes()).contains(k) ==> g.nodes()[k].vertex_type == VertexType::Z
                    && g.nodes()[k].phase@ == (1nat, 2nat),
            forall|k: nat|
                #[trigger] spider_keys(g.nodes()).contains(k) ==> g.direct_edge_between(
                    g.input_at(qubit as int)->0 as nat,
                    k,
                ) && g.direct_edge_between(k, g.output_at(qubit as int)->0 as nat),
    {
        Self::single_spider_gate(VertexType::Z, Phase::plus(), 0, qubit)
    }

    /// A Z half-turn of negative sign: one Z spider with phase -pi / 2.
    pub fn z_minus(qubit: usize) -> (g: Graph)
        requires
            qubit < usize::MAX,
            qubit as int * 100 <= i64::MAX as int,
        ensures
            g.wf(),
            g.well_formed_diagram(),
            g.wire_count() == qubit as int + 1,
            forall|w: int| 0 <= w <= qubit as int ==> g.allocated(w),
            forall|w: int| 0 <= w < qubit as int ==> g.wire_state(w) == WireState::Bare,
            g.occupied(qubit as int),
            g.nodes().dom().len() == 2 * (qubit as int + 1) + 1,
            g.edge_map().dom().len() == (qubit as int + 1) + 1,
            spider_keys(g.nodes()).len() == 1,
            forall|k: nat|
                spider_keys(g.nodes()).contains(k) ==> g.nodes()[k].vertex_type == VertexType::Z
                    && g.nodes()[k].phase@ == (3nat, 2nat),
            forall|k: nat|
                #[trigger] spider_keys(g.nodes()).contains(k) ==> g.direct_edge_between(
                    g.input_at(qubit as int)->0 as nat,
                    k,
                ) && g.direct_edge_between(k, g.output_at(qubit as int)->0 as nat),
    {
        Self::single_spider_gate(VertexType::Z, Phase::minus(), 0, qubit)
    }

    /// An X half-turn of positive sign: one X spider with phase pi / 2.
    pub fn x_plus(qubit: usize) -> (g: Graph)
        requires
            qubit < usize::MAX,
            qubit as int * 100 <= i64::MAX as int,
        ensures
            g.wf(),
            g.well_formed_diagram(),
            g.wire_count() == qubit as int + 1,
            forall|w: int| 0 <= w <= qubit as int ==> g.allocated(w),
            forall|w: int| 0 <= w < qubit as int ==> g.wire_state(w) == WireState::Bare,
            g.occupied(qubit as int),
            g.nodes().dom().len() == 2 * (qubit as int + 1) + 1,
            g.edge_map().dom().len() == (qubit as int + 1) + 1,
            spider_keys(g.nodes()).len() == 1,
            forall|k: nat|
                spider_keys(g.nodes()).contains(k) ==> g.nodes()[k].vertex_type == VertexType::X
                    && g.nodes()[k].phase@ == (1nat, 2nat),
            forall|k: nat|
                #[trigger] spider_keys(g.nodes()).contains(k) ==> g.direct_edge_between(
                    g.input_at(qubit as int)->0 as nat,
                    k,
                ) && g.direct_edge_between(k, g.output_at(qubit as int)->0 as nat),
    {
        Self::single_spider_gate(VertexType::X, Phase::plus(), 0, qubit)
    }

    /// An X half-turn of negative sign: one X spider with phase -pi / 2.
    pub fn x_minus(qubit: usize) -> (g: Graph)
        requires
            qubit < usize::MAX,
            qubit as int * 100 <= i64::MAX as int,
        ensures
            g.wf(),
            g.well_formed_diagram(),
            g.wire_count() == qubit as int + 1,
            forall|w: int| 0 <= w <= qubit as int ==> g.allocated(w),
            forall|w: int| 0 <= w < qubit as int ==> g.wire_state(w) == WireState::Bare,
            g.occupied(qubit as int),
            g.nodes().dom().len() == 2 * (qubit as int + 1) + 1,
            g.edge_map().dom().len() == (qubit as int + 1) + 1,
            spider_keys(g.nodes()).len() == 1,
            forall|k: nat|
                spider_keys(g.nodes()).contains(k) ==> g.nodes()[k].vertex_type == VertexType::X
                    && g.nodes()[k].phase@ == (3nat, 2nat),
            forall|k: nat|
                #[trigger] spider_keys(g.nodes()).contains(k) ==> g.direct_edge_between(
                    g.input_at(qubit as int)->0 as nat,
                    k,
                ) && g.direct_edge_between(k, g.output_at(qubit as int)->0 as nat),
    {
        Self::single_spider_gate(VertexType::X, Phase::minus(), 0, qubit)
    }

    /// A Y half-turn of positive sign: one Y spider with phase pi / 2.
    pub fn y_plus(qubit: usize) -> (g: Graph)
        requires
            qubit < usize::MAX,
            qubit as int * 100 <= i64::MAX as int,
        ensures
            g.wf(),
            g.well_formed_diagram(),
            g.wire_count() == qubit as int + 1,
            forall|w: int| 0 <= w <= qubit as int ==> g.allocated(w),
            forall|w: int| 0 <= w < qubit as int ==> g.wire_state(w) == WireState::Bare,
            g.occupied(qubit as int),
            g.nodes().dom().len() == 2 * (qubit as int + 1) + 1,
            g.edge_map().dom().len() == (qubit as int + 1) + 1,
            spider_keys(g.nodes()).len() == 1,
            forall|k: nat|
                spider_keys(g.nodes()).contains(k) ==> g.nodes()[k].vertex_type == VertexType::Y
                    && g.nodes()[k].phase@ == (1nat, 2nat),
            forall|k: nat|
                #[trigger] spider_keys(g.nodes()).contains(k) ==> g.direct_edge_between(
                    g.input_at(qubit as int)->0 as nat,
                    k,
                ) && g.direct_edge_between(k, g.output_at(qubit as int)->0 as nat),
    {
        Self::single_spider_gate(VertexType::Y, Phase::plus(), 0, qubit)
    }

    /// A Y half-turn of negative sign: one Y spider with phase -pi / 2.
    pub fn y_minus(qubit: usize) -> (g: Graph)
        requires
            qubit < usize::MAX,
            qubit as int * 100 <= i64::MAX as int,
        ensures
            g.wf(),
            g.well_formed_diagram(),
            g.wire_count() == qubit as int + 1,
            forall|w: int| 0 <= w <= qubit as int ==> g.allocated(w),
            forall|w: int| 0 <= w < qubit as int ==> g.wire_state(w) == WireState::Bare,
            g.occupied(qubit as int),
            g.nodes().dom().len() == 2 * (qubit as int + 1) + 1,
            g.edge_map().dom().len() == (qubit as int + 1) + 1,
            spider_keys(g.nodes()).len() == 1,
            forall|k: nat|
                spider_keys(g.nodes()).contains(k) ==> g.nodes()[k].vertex_type == VertexType::Y
                    && g.nodes()[k].phase@ == (3nat, 2nat),
            forall|k: nat|
                #[trigger] spider_keys(g.nodes()).contains(k) ==> g.direct_edge_between(
                    g.input_at(qubit as int)->0 as nat,
                    k,
                ) && g.direct_edge_between(k, g.output_at(qubit as int)->0 as nat),
    {
        Self::single_spider_gate(VertexType::Y, Phase::minus(), 0, qubit)
    }
    /// A wire range covering both wires, all bare except the two named ones,
    /// each occupied by one zero-phase spider of the given type, with one
    /// edge joining the two spiders.
    fn two_spider_gate(
        control_type: VertexType,
        target_type: VertexType,
        control: usize,
        target: usize,
    ) -> (g: Graph)
        requires
            control_type != VertexType::B,
            target_type != VertexType::B,
            control != target,
            control < usize::MAX,
            target < usize::MAX,
            control as int * 100 <= i64::MAX as int,
            target as int * 100 <= i64::MAX as int,
        ensures
            g.wf(),
            g.well_formed_diagram(),
            g.wire_count() == (if control > target {
                control as int
            } else {
                target as int
            }) + 1,
            forall|w: int| 0 <= w < g.wire_count() ==> g.allocated(w),
            forall|w: int|
                0 <= w < g.wire_count() && w != control as int && w != target as int
                    ==> g.wire_state(w) == WireState::Bare,
            g.occupied(control as int),
            g.occupied(target as int),
            g.nodes().dom().len() == 2 * g.wire_count() + 2,
            g.edge_map().dom().len() == g.wire_count() + 3,
            spider_keys(g.nodes()).len() == 2,
            exists|hc: nat, ht: nat|
                {
                    &&& hc != ht
                    &&& #[trigger] spider_keys(g.nodes()) =~= Set::empty().insert(hc).insert(ht)
                    &&& g.nodes()[hc] == (Vertex {
                        vertex_type: control_type,
                        phase: Phase::spec_zero(),
                        coords: Some(Coords { x: 0, y: (control * 100) as i64 }),
                    })
                    &&& g.nodes()[ht] == (Vertex {
                        vertex_type: target_type,
                        phase: Phase::spec_zero(),
                        coords: Some(Coords { x: 0, y: (target * 100) as i64 }),
                    })
                    &&& g.direct_edge_between(hc, ht)
                    &&& g.direct_edge_between(g.input_at(control as int)->0 as nat, hc)
                    &&& g.direct_edge_between(g.input_at(target as int)->0 as nat, ht)
                    &&& g.direct_edge_between(hc, g.output_at(control as int)->0 as nat)
                    &&& g.direct_edge_between(ht, g.output_at(target as int)->0 as nat)
                    &&& forall|ea: nat, eb: nat|
                        g.edge_map().dom().contains(ea) && g.edge_map().dom().contains(eb)
                            && crate::storage::edge_connects(#[trigger] g.edge_map()[ea], hc, ht)
                            && crate::storage::edge_connects(#[trigger] g.edge_map()[eb], hc, ht)
                            ==> ea == eb
                },
    {
        let capacity = (if control > target {
            control
        } else {
            target
        }) + 1;
        let mut g = Graph::new(capacity);
        let excluded: Vec<usize> = Vec::new();
        proof {
            lemma_fresh_wire_count_full(g, capacity as int, excluded@);
            assert(spider_keys(g.nodes()) =~= Set::empty());
        }
        let ghost g0 = g;
        match g.add_wires_excluding(capacity, &excluded) {
            Ok(()) => {},
            Err(_) => {
                proof {
                    assert(forall|w: int| 0 <= w < capacity ==> g0.unallocated(w) || g0.bare(w));
                }
                return unreached();
            },
        }
        let ghost g1 = g;
        let vc = Vertex {
            vertex_type: control_type,
            phase: Phase::zero(),
            coords: Some(Coords { x: 0, y: (control as i64) * 100 }),
        };
        let hc = match g.insert_on_wire(vc, control) {
            Ok(h) => h,
            Err(_) => {
                proof {
                    assert(g1.singly_bare(control as int));
                }
                return unreached();
            },
        };
        let ghost g2 = g;
        let vt = Vertex {
            vertex_type: target_type,
            phase: Phase::zero(),
            coords: Some(Coords { x: 0, y: (target as i64) * 100 }),
        };
        let ht = match g.insert_on_wire(vt, target) {
            Ok(h) => h,
            Err(_) => {
                proof {
                    assert(g2.singly_bare(target as int)) by {
                        assert(g1.singly_bare(target as int));
                    }
                }
                return unreached();
            },
        };
        let ghost g3 = g;
        proof {
            assert(g3.nodes().contains_key(hc as nat) && g3.nodes()[hc as nat] == vc) by {
                assert(g2.nodes().contains_key(hc as nat) && g2.nodes()[hc as nat] == vc);
            }
        }
        let e = g.add_edge(hc, ht);
        proof {
            let rec = (hc as nat, ht as nat, crate::vertex::EdgeType::Simple);
            // The new edge joins two spiders, so no wire's boundary pair is
            // touched and every wire keeps its state.
            assert forall|w: int| !(g3.allocated(w) && crate::storage::edge_connects(
                rec,
                g3.input_at(w)->0 as nat,
                g3.output_at(w)->0 as nat,
            )) by {
                if g3.allocated(w) {
                    assert(g3.is_live_boundary(g3.input_at(w)->0));
                    assert(g3.is_live_boundary(g3.output_at(w)->0));
                    assert(g3.nodes()[hc as nat].vertex_type == control_type);
                    assert(g3.nodes()[ht as nat].vertex_type == target_type) by {
                        assert(g3.nodes()[ht as nat] == vt);
                    }
                }
            }
            assert(spider_keys(g.nodes()) =~= Set::empty().insert(hc as nat).insert(ht as nat))
                by {
                assert(spider_keys(g2.nodes()) =~= Set::empty().insert(hc as nat));
                assert(spider_keys(g3.nodes()) =~= Set::empty().insert(hc as nat).insert(
                    ht as nat,
                ));
            }
            assert(spider_keys(g.nodes()).len() == 2) by {
                assert(!Set::empty().insert(hc as nat).contains(ht as nat)) by {
                    assert(!g2.nodes().contains_key(ht as nat));
                    assert(g2.nodes().contains_key(hc as nat));
                }
            }
            assert(g.occupied(control as int)) by {
                assert(g1.singly_bare(control as int));
                assert(g2.occupied(control as int));
                assert(g3.wire_state(control as int) == g2.wire_state(control as int));
                assert(g.wire_state(control as int) == g3.wire_state(control as int));
            }
            assert(g.occupied(target as int)) by {
                assert(g2.singly_bare(target as int)) by {
                    assert(g1.singly_bare(target as int));
                }
                assert(g3.occupied(target as int));
                assert(g.wire_state(target as int) == g3.wire_state(target as int));
            }
            assert forall|w: int|
                0 <= w < g.wire_count() && w != control as int && w != target as int implies g
                .wire_state(w) == WireState::Bare by {
                assert(g1.wire_state(w) == WireState::Bare);
                assert(g2.wire_state(w) == g1.wire_state(w));
                assert(g3.wire_state(w) == g2.wire_state(w));
                assert(g.wire_state(w) == g3.wire_state(w));
            }
            assert forall|w: int| 0 <= w < g.wire_count() implies g.allocated(w) by {
                if w == control as int {
                    assert(g.occupied(control as int));
                } else if w == target as int {
                    assert(g.occupied(target as int));
                } else {
                    assert(g.wire_state(w) == WireState::Bare);
                }
            }
            assert(g.direct_edge_between(hc as nat, ht as nat)) by {
                assert(g.edge_map().dom().contains(e as nat) && crate::storage::edge_connects(
                    g.edge_map()[e as nat],
                    hc as nat,
                    ht as nat,
                ));
            }
            assert(g.nodes()[hc as nat] == vc && g.nodes()[ht as nat] == vt) by {
                assert(g3.nodes()[ht as nat] == vt);
            }
            // Each spider hangs on its own wire.
            assert(g.direct_edge_between(g.input_at(control as int)->0 as nat, hc as nat)) by {
                let ihc = g1.input_at(control as int)->0;
                assert(g2.direct_edge_between(ihc as nat, hc as nat));
                let e4 = choose|e4: nat|
                    g2.edge_map().dom().contains(e4) && crate::storage::edge_connects(
                        #[trigger] g2.edge_map()[e4],
                        ihc as nat,
                        hc as nat,
                    );
                let iht = g2.input_at(target as int)->0;
                let oht = g2.output_at(target as int)->0;
                assert(g2.singly_bare(target as int)) by {
                    assert(g1.singly_bare(target as int));
                }
                assert(g2.is_live_boundary(g2.input_at(control as int)->0));
                assert(g2.is_live_boundary(iht));
                assert(g2.is_live_boundary(oht));
                assert(g2.nodes()[hc as nat].vertex_type == control_type);
                assert(!crate::storage::edge_connects(g2.edge_map()[e4], iht as nat, oht as nat));
                assert(g2.edge_map().contains_key(e4));
                assert(g3.edge_map().contains_key(e4) && g3.edge_map()[e4] == g2.edge_map()[e4]);
                assert(g.edge_map().contains_key(e4) && g.edge_map()[e4] == g3.edge_map()[e4]);
                assert(g.input_at(control as int) == g1.input_at(control as int));
                assert(g.edge_map().dom().contains(e4) && crate::storage::edge_connects(
                    g.edge_map()[e4],
                    g.input_at(control as int)->0 as nat,
                    hc as nat,
                ));
            }
            assert(g.direct_edge_between(g.input_at(target as int)->0 as nat, ht as nat)) by {
                let iht2 = g2.input_at(target as int)->0;
                assert(g3.direct_edge_between(iht2 as nat, ht as nat));
                let e5 = choose|e5: nat|
                    g3.edge_map().dom().contains(e5) && crate::storage::edge_connects(
                        #[trigger] g3.edge_map()[e5],
                        iht2 as nat,
                        ht as nat,
                    );
                assert(g.input_at(target as int) == g2.input_at(target as int));
                assert(g.edge_map().dom().contains(e5) && crate::storage::edge_connects(
                    g.edge_map()[e5],
                    g.input_at(target as int)->0 as nat,
                    ht as nat,
                ));
            }
            assert(g.direct_edge_between(hc as nat, g.output_at(control as int)->0 as nat)) by {
                let ohc = g1.output_at(control as int)->0;
                assert(g2.direct_edge_between(hc as nat, ohc as nat));
                let e6 = choose|e6: nat|
                    g2.edge_map().dom().contains(e6) && crate::storage::edge_connects(
                        #[trigger] g2.edge_map()[e6],
                        hc as nat,
                        ohc as nat,
                    );
                let iht = g2.input_at(target as int)->0;
                let oht = g2.output_at(target as int)->0;
                assert(g2.singly_bare(target as int)) by {
                    assert(g1.singly_bare(target as int));
                }
                assert(g2.is_live_boundary(g2.output_at(control as int)->0));
                assert(g2.is_live_boundary(iht));
                assert(g2.is_live_boundary(oht));
                assert(g2.nodes()[hc as nat].vertex_type == control_type);
                assert(!crate::storage::edge_connects(g2.edge_map()[e6], iht as nat, oht as nat));
                assert(g2.edge_map().contains_key(e6));
                assert(g3.edge_map().contains_key(e6) && g3.edge_map()[e6] == g2.edge_map()[e6]);
                assert(g.edge_map().contains_key(e6) && g.edge_map()[e6] == g3.edge_map()[e6]);
                assert(g.output_at(control as int) == g1.output_at(control as int));
                assert(g.edge_map().dom().contains(e6) && crate::storage::edge_connects(
                    g.edge_map()[e6],
                    hc as nat,
                    g.output_at(control as int)->0 as nat,
                ));
            }
            assert(g.direct_edge_between(ht as nat, g.output_at(target as int)->0 as nat)) by {
                let oht2 = g2.output_at(target as int)->0;
                assert(g3.direct_edge_between(ht as nat, oht2 as nat));
                let e7 = choose|e7: nat|
                    g3.edge_map().dom().contains(e7) && crate::storage::edge_connects(
                        #[trigger] g3.edge_map()[e7],
                        ht as nat,
                        oht2 as nat,
                    );
                assert(g.output_at(target as int) == g2.output_at(target as int));
                assert(g.edge_map().dom().contains(e7) && crate::storage::edge_connects(
                    g.edge_map()[e7],
                    ht as nat,
                    g.output_at(target as int)->0 as nat,
                ));
            }
            // The edge added between the two spiders is the only one that
            // joins them: every other edge at the target spider goes to one
            // of its wire's boundaries, and the control spider is neither.
            assert forall|ec: nat|
                g.edge_map().dom().contains(ec) && crate::storage::edge_connects(
                    #[trigger] g.edge_map()[ec],
                    hc as nat,
                    ht as nat,
                ) implies ec == e as nat by {
                if ec != e as nat {
                    assert(g3.edge_map().dom().contains(ec) && g3.edge_map()[ec]
                        == g.edge_map()[ec]);
                    assert(g3.edge_map()[ec].0 == ht as nat || g3.edge_map()[ec].1 == ht as nat);
                    let iht = g2.input_at(target as int)->0;
                    let oht = g2.output_at(target as int)->0;
                    assert(crate::storage::edge_connects(g3.edge_map()[ec], iht as nat, ht as nat)
                        || crate::storage::edge_connects(g3.edge_map()[ec], ht as nat, oht as nat));
                    assert(g2.singly_bare(target as int)) by {
                        assert(g1.singly_bare(target as int));
                    }
                    assert(g2.is_live_boundary(iht));
                    assert(g2.is_live_boundary(oht));
                    assert(g2.nodes()[hc as nat].vertex_type == control_type);
                    assert(false);
                }
            }
            assert(g.well_formed_diagram()) by {
                assert(spider_keys(g.nodes()).contains(hc as nat));
                assert forall|k: nat|
                    g.nodes().dom().contains(k) && (#[trigger] g.nodes()[k]).vertex_type
                        != VertexType::B implies (g.nodes()[k].coords is Some) by {
                    if k != hc as nat && k != ht as nat {
                        assert(g2.nodes().contains_key(k) || k == ht as nat);
                        assert(g1.nodes().contains_key(k));
                        assert(g.nodes()[k] == g1.nodes()[k]) by {
                            assert(g2.nodes()[k] == g1.nodes()[k]);
                            assert(g3.nodes()[k] == g2.nodes()[k]);
                        }
                        assert(!g0.nodes().contains_key(k));
                        assert(g1.nodes()[k] == crate::vertex::boundary_vertex());
                    }
                }
            }
            assert((if control > target {
                control as int
            } else {
                target as int
            }) + 1 == capacity as int);
        }
        g
    }

    /// A CX gate: a zero-phase Z spider on the control wire and a zero-phase
    /// X spider on the target wire, joined by one edge; every other wire up
    /// to the larger index is bare. Fails with an argument error when the two
    /// wires coincide, and no diagram is observable on that path.
    pub fn cx(control: usize, target: usize) -> (r: Result<Graph, GraphError>)
        requires
            control < usize::MAX,
            target < usize::MAX,
            control as int * 100 <= i64::MAX as int,
            target as int * 100 <= i64::MAX as int,
        ensures
            r is Ok <==> control != target,
            r matches Err(e) ==> e == (GraphError::Argument { control, target }),
            r matches Ok(g) ==> {
                &&& g.wf()
                &&& g.well_formed_diagram()
                &&& g.wire_count() == (if control > target {
                    control as int
                } else {
                    target as int
                }) + 1
                &&& forall|w: int| 0 <= w < g.wire_count() ==> g.allocated(w)
                &&& forall|w: int|
                    0 <= w < g.wire_count() && w != control as int && w != target as int
                        ==> g.wire_state(w) == WireState::Bare
                &&& g.occupied(control as int)
                &&& g.occupied(target as int)
                &&& g.nodes().dom().len() == 2 * g.wire_count() + 2
                &&& g.edge_map().dom().len() == g.wire_count() + 3
                &&& spider_keys(g.nodes()).len() == 2
                &&& exists|hc: nat, ht: nat|
                    {
                        &&& hc != ht
                        &&& #[trigger] spider_keys(g.nodes()) =~= Set::empty().insert(hc).insert(
                            ht,
                        )
                        &&& g.nodes()[hc].vertex_type == VertexType::Z
                        &&& g.nodes()[ht].vertex_type == VertexType::X
                        &&& g.nodes()[hc].phase == Phase::spec_zero()
                        &&& g.nodes()[ht].phase == Phase::spec_zero()
                        &&& g.direct_edge_between(hc, ht)
                        &&& g.direct_edge_between(g.input_at(control as int)->0 as nat, hc)
                        &&& g.direct_edge_between(g.input_at(target as int)->0 as nat, ht)
                        &&& g.direct_edge_between(hc, g.output_at(control as int)->0 as nat)
                        &&& g.direct_edge_between(ht, g.output_at(target as int)->0 as nat)
                        &&& forall|ea: nat, eb: nat|
                            g.edge_map().dom().contains(ea) && g.edge_map().dom().contains(eb)
                                && crate::storage::edge_connects(
                                #[trigger] g.edge_map()[ea],
                                hc,
                                ht,
                            ) && crate::storage::edge_connects(#[trigger] g.edge_map()[eb], hc, ht)
                                ==> ea == eb
                    }
            },
    {
        if control == target {
            return Err(GraphError::Argument { control, target });
        }
        Ok(Self::two_spider_gate(VertexType::Z, VertexType::X, control, target))
    }

    /// A CZ gate: zero-phase Z spiders on both wires, joined by one edge;
    /// every other wire up to the larger index is bare. Fails with an
    /// argument error when the two wires coincide.
    pub fn cz(control: usize, target: usize) -> (r: Result<Graph, GraphError>)
        requires
            control < usize::MAX,
            target < usize::MAX,
            control as int * 100 <= i64::MAX as int,
            target as int * 100 <= i64::MAX as int,
        ensures
            r is Ok <==> control != target,
            r matches Err(e) ==> e == (GraphError::Argument { control, target }),
            r matches Ok(g) ==> {
                &&& g.wf()
                &&& g.well_formed_diagram()
                &&& g.wire_count() == (if control > target {
                    control as int
                } else {
                    target as int
                }) + 1
                &&& forall|w: int| 0 <= w < g.wire_count() ==> g.allocated(w)
                &&& forall|w: int|
                    0 <= w < g.wire_count() && w != control as int && w != target as int
                        ==> g.wire_state(w) == WireState::Bare
                &&& g.occupied(control as int)
                &&& g.occupied(target as int)
                &&& g.nodes().dom().len() == 2 * g.wire_count() + 2
                &&& g.edge_map().dom().len() == g.wire_count() + 3
                &&& spider_keys(g.nodes()).len() == 2
                &&& exists|hc: nat, ht: nat|
                    {
                        &&& hc != ht
                        &&& #[trigger] spider_keys(g.nodes()) =~= Set::empty().insert(hc).insert(
                            ht,
                        )
                        &&& g.nodes()[hc].vertex_type == VertexType::Z
                        &&& g.nodes()[ht].vertex_type == VertexType::Z
                        &&& g.nodes()[hc].phase == Phase::spec_zero()
                        &&& g.nodes()[ht].phase == Phase::spec_zero()
                        &&& g.direct_edge_between(hc, ht)
                        &&& g.direct_edge_between(g.input_at(control as int)->0 as nat, hc)
                        &&& g.direct_edge_between(g.input_at(target as int)->0 as nat, ht)
                        &&& g.direct_edge_between(hc, g.output_at(control as int)->0 as nat)
                        &&& g.direct_edge_between(ht, g.output_at(target as int)->0 as nat)
                        &&& forall|ea: nat, eb: nat|
                            g.edge_map().dom().contains(ea) && g.edge_map().dom().contains(eb)
                                && crate::storage::edge_connects(
                                #[trigger] g.edge_map()[ea],
                                hc,
                                ht,
                            ) && crate::storage::edge_connects(#[trigger] g.edge_map()[eb], hc, ht)
                                ==> ea == eb
                    }
            },
    {
        if control == target {
            return Err(GraphError::Argument { control, target });
        }
        Ok(Self::two_spider_gate(VertexType::Z, VertexType::Z, control, target))
    }

    /// A gadget over one wire per character of the operator string: a hub
    /// spider carrying the phase, placed past the far edge of the wire
    /// range, plus one zero-phase leg spider per non-I character (case
    /// insensitive), each joined to the hub by one edge. An I leaves its
    /// wire bare. A character outside I, X, Y, Z fails with a format error
    /// naming it and its position, and no diagram is observable on that
    /// path.
    pub fn gadget(pauli_string: &str, phase: Phase) -> (r: Result<Graph, GraphError>)
        requires
            pauli_string@.len() * 100 <= i64::MAX as int,
        ensures
            r is Ok <==> (forall|j: int|
                0 <= j < pauli_string@.len() ==> is_pauli_char(#[trigger] pauli_string@[j])),
            r matches Err(e) ==> e matches GraphError::PauliFormat { character, position }
                && (position as int) < pauli_string@.len() && pauli_string@[position as int]
                == character && !is_pauli_char(character) && (forall|j: int|
                0 <= j < position as int ==> is_pauli_char(#[trigger] pauli_string@[j])),
            r matches Ok(g) ==> {
                &&& g.wf()
                &&& g.well_formed_diagram()
                &&& g.wire_count() == pauli_string@.len()
                &&& forall|w: int| 0 <= w < pauli_string@.len() ==> g.allocated(w)
                &&& forall|w: int|
                    0 <= w < pauli_string@.len() ==> #[trigger] g.wire_state(w) == (if is_leg_char(
                        pauli_string@[w],
                    ) {
                        WireState::Occupied
                    } else {
                        WireState::Bare
                    })
                &&& g.nodes().dom().len() == 1 + 2 * pauli_string@.len() + leg_count(
                    pauli_string@,
                    pauli_string@.len() as int,
                )
                &&& g.edge_map().dom().len() == pauli_string@.len() + 2 * leg_count(
                    pauli_string@,
                    pauli_string@.len() as int,
                )
                &&& spider_keys(g.nodes()).len() == 1 + leg_count(
                    pauli_string@,
                    pauli_string@.len() as int,
                )
                &&& exists|hub: nat|
                    {
                        &&& #[trigger] spider_keys(g.nodes()).contains(hub)
                        &&& g.nodes()[hub] == (Vertex {
                            vertex_type: VertexType::Z,
                            phase,
                            coords: Some(
                                Coords { x: 180, y: (pauli_string@.len() * 100) as i64 },
                            ),
                        })
                        &&& edges_at(g.edge_map(), hub).len() == leg_count(
                            pauli_string@,
                            pauli_string@.len() as int,
                        )
                        &&& hub_edges_reach_spiders(g, hub)
                        &&& forall|w: int|
                            0 <= w < pauli_string@.len() && is_leg_char(
                                #[trigger] pauli_string@[w],
                            ) ==> wire_leg(g, w, leg_color(pauli_string@[w]), hub)
                        &&& forall|k: nat|
                            #[trigger] spider_keys(g.nodes()).contains(k) && k != hub
                                ==> g.nodes()[k].phase == Phase::spec_zero() && (g.nodes()[k].coords
                                is Some) && (g.nodes()[k].vertex_type == VertexType::Z
                                || g.nodes()[k].vertex_type == VertexType::X
                                || g.nodes()[k].vertex_type == VertexType::Y)
                    }
            },
    {
        let n = pauli_string.unicode_len();
        let mut i: usize = 0;
        while i < n
            invariant
                n == pauli_string@.len(),
                i <= n,
                forall|j: int| 0 <= j < i ==> is_pauli_char(#[trigger] pauli_string@[j]),
            decreases n - i,
        {
            let c = pauli_string.get_char(i);
            let ok = c == 'i' || c == 'I' || c == 'x' || c == 'X' || c == 'y' || c == 'Y' || c
                == 'z' || c == 'Z';
            if !ok {
                return Err(GraphError::PauliFormat { character: c, position: i });
            }
            i = i + 1;
        }
        let mut g = Graph::new(n);
        let excluded: Vec<usize> = Vec::new();
        let hub_v = Vertex {
            vertex_type: VertexType::Z,
            phase,
            coords: Some(Coords { x: 180, y: (n as i64) * 100 }),
        };
        let ghost gz = g;
        let hub = g.add_vertex(hub_v);
        proof {
            lemma_fresh_wire_count_full(g, n as int, excluded@);
            assert(spider_keys(g.nodes()) =~= Set::empty().insert(hub as nat)) by {
                crate::graph::lemma_spider_keys_insert(gz.nodes(), hub as nat, hub_v);
                assert(spider_keys(gz.nodes()) =~= Set::empty());
            }
            assert(edges_at(g.edge_map(), hub as nat) =~= Set::empty());
        }
        let ghost ga = g;
        match g.add_wires_excluding(n, &excluded) {
            Ok(()) => {},
            Err(_) => {
                proof {
                    assert(forall|w: int| 0 <= w < n ==> ga.unallocated(w) || ga.bare(w));
                }
                return unreached();
            },
        }
        proof {
            assert(ga.nodes().contains_key(hub as nat));
            assert(g.nodes().contains_key(hub as nat) && g.nodes()[hub as nat] == ga.nodes()[hub
                as nat]);
            assert(g.nodes()[hub as nat] == hub_v);
            assert(edges_at(g.edge_map(), hub as nat) =~= Set::empty()) by {
                assert(edges_at(g.edge_map(), hub as nat) =~= edges_at(ga.edge_map(), hub as nat));
            }
            assert(edges_at(g.edge_map(), hub as nat).len() == 0) by {
                assert(edges_at(g.edge_map(), hub as nat) =~= Set::empty());
            }
            assert(spider_keys(g.nodes()) =~= Set::empty().insert(hub as nat));
            assert(spider_keys(g.nodes()).len() == 1);
        }
        let mut q: usize = 0;
        while q < n
            invariant
                g.wf(),
                q <= n,
                n == pauli_string@.len(),
                pauli_string@.len() * 100 <= i64::MAX as int,
                forall|j: int| 0 <= j < n ==> is_pauli_char(#[trigger] pauli_string@[j]),
                g.wire_count() == n,
                g.nodes().contains_key(hub as nat),
                g.nodes()[hub as nat] == hub_v,
                forall|w: int| q <= w < n ==> #[trigger] g.singly_bare(w),
                forall|w: int|
                    0 <= w < q ==> #[trigger] g.wire_state(w) == (if is_leg_char(pauli_string@[w]) {
                        WireState::Occupied
                    } else {
                        WireState::Bare
                    }),
                g.nodes().dom().len() == 1 + 2 * n + leg_count(pauli_string@, q as int),
                g.edge_map().dom().len() == n + 2 * leg_count(pauli_string@, q as int),
                spider_keys(g.nodes()).len() == 1 + leg_count(pauli_string@, q as int),
                spider_keys(g.nodes()).contains(hub as nat),
                edges_at(g.edge_map(), hub as nat).len() == leg_count(pauli_string@, q as int),
                forall|k: nat|
                    #[trigger] spider_keys(g.nodes()).contains(k) && k != hub as nat
                        ==> g.nodes()[k].phase == Phase::spec_zero() && (g.nodes()[k].coords
                        is Some) && (g.nodes()[k].vertex_type == VertexType::Z
                        || g.nodes()[k].vertex_type == VertexType::X || g.nodes()[k].vertex_type
                        == VertexType::Y),
                hub_edges_reach_spiders(g, hub as nat),
                forall|w: int|
                    0 <= w < q && is_leg_char(#[trigger] pauli_string@[w]) ==> wire_leg(
                        g,
                        w,
                        leg_color(pauli_string@[w]),
                        hub as nat,
                    ),
            decreases n - q,
        {
            let c = pauli_string.get_char(q);
            let is_leg = c == 'x' || c == 'X' || c == 'y' || c == 'Y' || c == 'z' || c == 'Z';
            if is_leg {
                let color = if c == 'z' || c == 'Z' {
                    VertexType::Z
                } else if c == 'x' || c == 'X' {
                    VertexType::X
                } else {
                    VertexType::Y
                };
                let leg_v = Vertex {
                    vertex_type: color,
                    phase: Phase::zero(),
                    coords: Some(Coords { x: 0, y: (q as i64) * 100 }),
                };
                let ghost gpre = g;
                let leg = match g.insert_on_wire(leg_v, q) {
                    Ok(h) => h,
                    Err(_) => {
                        proof {
                            assert(gpre.singly_bare(q as int));
                        }
                        return unreached();
                    },
                };
                let ghost gmid = g;
                proof {
                    let ihh = gpre.input_at(q as int)->0;
                    let ohh = gpre.output_at(q as int)->0;
                    assert(gpre.is_live_boundary(ihh));
                    assert(gpre.is_live_boundary(ohh));
                    assert(hub as nat != ihh as nat && hub as nat != ohh as nat);
                    assert(edges_at(gmid.edge_map(), hub as nat) =~= edges_at(
                        gpre.edge_map(),
                        hub as nat,
                    ));
                    assert(edges_at(gmid.edge_map(), hub as nat).len() == leg_count(
                        pauli_string@,
                        q as int,
                    ));
                    assert(gmid.nodes().contains_key(leg as nat));
                    assert(gmid.nodes().contains_key(hub as nat));
                    assert(gmid.nodes()[hub as nat] == hub_v);
                }
                let e = g.add_edge(leg, hub);
                proof {
                    let rec = (leg as nat, hub as nat, crate::vertex::EdgeType::Simple);
                    assert forall|w: int|
                        !(gmid.allocated(w) && crate::storage::edge_connects(
                            rec,
                            gmid.input_at(w)->0 as nat,
                            gmid.output_at(w)->0 as nat,
                        )) by {
                        if gmid.allocated(w) {
                            assert(gmid.is_live_boundary(gmid.input_at(w)->0));
                            assert(gmid.is_live_boundary(gmid.output_at(w)->0));
                            assert(gmid.nodes()[leg as nat] == leg_v);
                            assert(gmid.nodes()[hub as nat] == hub_v);
                        }
                    }
                    // The hub gained exactly this one edge.
                    assert(edges_at(g.edge_map(), hub as nat) =~= edges_at(
                        gmid.edge_map(),
                        hub as nat,
                    ).insert(e as nat));
                    assert(edges_at(gmid.edge_map(), hub as nat).subset_of(gmid.edge_map().dom()));
                    vstd::set_lib::lemma_len_subset(
                        edges_at(gmid.edge_map(), hub as nat),
                        gmid.edge_map().dom(),
                    );
                    assert(!edges_at(gmid.edge_map(), hub as nat).contains(e as nat));
                    assert(edges_at(g.edge_map(), hub as nat).len() == leg_count(
                        pauli_string@,
                        q as int,
                    ) + 1);
                    // Spider bookkeeping.
                    assert(spider_keys(g.nodes()) =~= spider_keys(gpre.nodes()).insert(
                        leg as nat,
                    ));
                    assert(spider_keys(gpre.nodes()).subset_of(gpre.nodes().dom()));
                    vstd::set_lib::lemma_len_subset(
                        spider_keys(gpre.nodes()),
                        gpre.nodes().dom(),
                    );
                    assert(!spider_keys(gpre.nodes()).contains(leg as nat));
                    assert forall|k: nat|
                        #[trigger] spider_keys(g.nodes()).contains(k) && k != hub as nat implies g
                        .nodes()[k].phase == Phase::spec_zero() && (g.nodes()[k].coords
                        is Some) && (g.nodes()[k].vertex_type == VertexType::Z
                        || g.nodes()[k].vertex_type == VertexType::X || g.nodes()[k].vertex_type
                        == VertexType::Y) by {
                        if k == leg as nat {
                            assert(g.nodes()[k] == leg_v);
                        } else {
                            assert(spider_keys(gpre.nodes()).contains(k));
                            assert(gpre.nodes().contains_key(k));
                            assert(g.nodes()[k] == gpre.nodes()[k]);
                            assert(gpre.nodes()[k].phase == Phase::spec_zero());
                        }
                    }
                    // Wire states.
                    assert(g.wire_state(q as int) == WireState::Occupied) by {
                        assert(gmid.occupied(q as int));
                        assert(g.wire_state(q as int) == gmid.wire_state(q as int));
                    }
                    assert forall|w: int| q as int + 1 <= w < n implies #[trigger] g.singly_bare(
                        w,
                    ) by {
                        assert(gmid.singly_bare(w)) by {
                            assert(gpre.singly_bare(w));
                        }
                        assert(g.wire_state(w) == gmid.wire_state(w));
                    }
                    assert forall|w: int| 0 <= w < q as int implies #[trigger] g.wire_state(w) == (
                    if is_leg_char(pauli_string@[w]) {
                        WireState::Occupied
                    } else {
                        WireState::Bare
                    }) by {
                        assert(gmid.wire_state(w) == gpre.wire_state(w));
                        assert(g.wire_state(w) == gmid.wire_state(w));
                    }
                    // The wire just processed carries its leg of the color
                    // its character names.
                    assert(color == leg_color(pauli_string@[q as int]));
                    assert(wire_leg(g, q as int, color, hub as nat)) by {
                        assert(spider_keys(g.nodes()).contains(leg as nat));
                        assert(leg as nat != hub as nat) by {
                            assert(gpre.nodes().contains_key(hub as nat));
                            assert(!gpre.nodes().contains_key(leg as nat));
                        }
                        assert(g.nodes()[leg as nat] == leg_v);
                        assert(g.input_at(q as int) == gpre.input_at(q as int));
                        assert(g.output_at(q as int) == gpre.output_at(q as int));
                        assert(gmid.direct_edge_between(
                            gpre.input_at(q as int)->0 as nat,
                            leg as nat,
                        ));
                        let e4 = choose|e4: nat|
                            gmid.edge_map().dom().contains(e4) && crate::storage::edge_connects(
                                #[trigger] gmid.edge_map()[e4],
                                gpre.input_at(q as int)->0 as nat,
                                leg as nat,
                            );
                        assert(g.edge_map().dom().contains(e4) && crate::storage::edge_connects(
                            g.edge_map()[e4],
                            gpre.input_at(q as int)->0 as nat,
                            leg as nat,
                        ));
                        assert(gmid.direct_edge_between(
                            leg as nat,
                            gpre.output_at(q as int)->0 as nat,
                        ));
                        let e5 = choose|e5: nat|
                            gmid.edge_map().dom().contains(e5) && crate::storage::edge_connects(
                                #[trigger] gmid.edge_map()[e5],
                                leg as nat,
                                gpre.output_at(q as int)->0 as nat,
                            );
                        assert(g.edge_map().dom().contains(e5) && crate::storage::edge_connects(
                            g.edge_map()[e5],
                            leg as nat,
                            gpre.output_at(q as int)->0 as nat,
                        ));
                        assert(g.edge_map().dom().contains(e as nat)
                            && crate::storage::edge_connects(
                            g.edge_map()[e as nat],
                            leg as nat,
                            hub as nat,
                        ));
                    }
                    // The earlier wires keep their legs: each witness edge
                    // joins vertices away from this wire's boundaries, so
                    // its record survives both mutations.
                    assert forall|w: int|
                        0 <= w < q as int && is_leg_char(
                            #[trigger] pauli_string@[w],
                        ) implies wire_leg(g, w, leg_color(pauli_string@[w]), hub as nat) by {
                        let colw = leg_color(pauli_string@[w]);
                        assert(wire_leg(gpre, w, colw, hub as nat));
                        let kw = choose|k: nat|
                            #[trigger] spider_keys(gpre.nodes()).contains(k) && k != hub as nat
                                && gpre.nodes()[k].vertex_type == colw && gpre.direct_edge_between(
                                gpre.input_at(w)->0 as nat,
                                k,
                            ) && gpre.direct_edge_between(k, gpre.output_at(w)->0 as nat)
                                && gpre.direct_edge_between(k, hub as nat);
                        let inw = gpre.input_at(w)->0;
                        let outw = gpre.output_at(w)->0;
                        let e4 = choose|e4: nat|
                            gpre.edge_map().dom().contains(e4) && crate::storage::edge_connects(
                                #[trigger] gpre.edge_map()[e4],
                                inw as nat,
                                kw,
                            );
                        let e5 = choose|e5: nat|
                            gpre.edge_map().dom().contains(e5) && crate::storage::edge_connects(
                                #[trigger] gpre.edge_map()[e5],
                                kw,
                                outw as nat,
                            );
                        let e6 = choose|e6: nat|
                            gpre.edge_map().dom().contains(e6) && crate::storage::edge_connects(
                                #[trigger] gpre.edge_map()[e6],
                                kw,
                                hub as nat,
                            );
                        let ihq = gpre.input_at(q as int)->0;
                        let ohq = gpre.output_at(q as int)->0;
                        assert(gpre.wire_state(w) == WireState::Occupied || gpre.wire_state(w)
                            == WireState::Bare);
                        assert(gpre.allocated(w));
                        assert(gpre.is_live_boundary(gpre.input_at(w)->0));
                        assert(gpre.is_live_boundary(gpre.output_at(w)->0));
                        assert(gpre.is_live_boundary(gpre.input_at(q as int)->0));
                        assert(gpre.is_live_boundary(gpre.output_at(q as int)->0));
                        assert(gpre.nodes()[kw].vertex_type != VertexType::B);
                        assert(gpre.nodes()[hub as nat].vertex_type != VertexType::B);
                        assert(kw != ihq as nat && kw != ohq as nat);
                        assert(hub as nat != ihq as nat && hub as nat != ohq as nat);
                        assert(inw as nat != ihq as nat && inw as nat != ohq as nat);
                        assert(outw as nat != ihq as nat && outw as nat != ohq as nat);
                        assert(!crate::storage::edge_connects(
                            gpre.edge_map()[e4],
                            ihq as nat,
                            ohq as nat,
                        ));
                        assert(!crate::storage::edge_connects(
                            gpre.edge_map()[e5],
                            ihq as nat,
                            ohq as nat,
                        ));
                        assert(!crate::storage::edge_connects(
                            gpre.edge_map()[e6],
                            ihq as nat,
                            ohq as nat,
                        ));
                        assert(gpre.edge_map().contains_key(e4) && gpre.edge_map().contains_key(e5)
                            && gpre.edge_map().contains_key(e6));
                        assert(gmid.edge_map().contains_key(e4) && gmid.edge_map()[e4]
                            == gpre.edge_map()[e4]);
                        assert(gmid.edge_map().contains_key(e5) && gmid.edge_map()[e5]
                            == gpre.edge_map()[e5]);
                        assert(gmid.edge_map().contains_key(e6) && gmid.edge_map()[e6]
                            == gpre.edge_map()[e6]);
                        assert(g.edge_map().contains_key(e4) && g.edge_map()[e4] == gmid.edge_map()[e4]);
                        assert(g.edge_map().contains_key(e5) && g.edge_map()[e5] == gmid.edge_map()[e5]);
                        assert(g.edge_map().contains_key(e6) && g.edge_map()[e6] == gmid.edge_map()[e6]);
                        assert(gpre.nodes().contains_key(kw));
                        assert(gmid.nodes()[kw] == gpre.nodes()[kw]);
                        assert(spider_keys(g.nodes()).contains(kw));
                        assert(g.input_at(w) == gpre.input_at(w));
                        assert(g.output_at(w) == gpre.output_at(w));
                        assert(g.direct_edge_between(g.input_at(w)->0 as nat, kw)) by {
                            assert(g.edge_map().dom().contains(e4) && crate::storage::edge_connects(
                                g.edge_map()[e4],
                                inw as nat,
                                kw,
                            ));
                        }
                        assert(g.direct_edge_between(kw, g.output_at(w)->0 as nat)) by {
                            assert(g.edge_map().dom().contains(e5) && crate::storage::edge_connects(
                                g.edge_map()[e5],
                                kw,
                                outw as nat,
                            ));
                        }
                        assert(g.direct_edge_between(kw, hub as nat)) by {
                            assert(g.edge_map().dom().contains(e6) && crate::storage::edge_connects(
                                g.edge_map()[e6],
                                kw,
                                hub as nat,
                            ));
                        }
                    }
                    // The hub's edges still all reach legs: the old ones kept
                    // their records, and the new one reaches the new leg.
                    assert(hub_edges_reach_spiders(g, hub as nat)) by {
                        let ihq = gpre.input_at(q as int)->0;
                        let ohq = gpre.output_at(q as int)->0;
                        assert(gpre.is_live_boundary(gpre.input_at(q as int)->0));
                        assert(gpre.is_live_boundary(gpre.output_at(q as int)->0));
                        assert(gpre.nodes()[hub as nat].vertex_type != VertexType::B);
                        assert forall|e8: nat| #[trigger]
                            edges_at(g.edge_map(), hub as nat).contains(e8) implies ({
                            let other = if g.edge_map()[e8].0 == hub as nat {
                                g.edge_map()[e8].1
                            } else {
                                g.edge_map()[e8].0
                            };
                            other != hub as nat && spider_keys(g.nodes()).contains(other)
                        }) by {
                            if e8 == e as nat {
                                assert(g.edge_map()[e8] == (
                                    leg as nat,
                                    hub as nat,
                                    crate::vertex::EdgeType::Simple,
                                ));
                                assert(leg as nat != hub as nat) by {
                                    assert(gpre.nodes().contains_key(hub as nat));
                                    assert(!gpre.nodes().contains_key(leg as nat));
                                }
                                assert(spider_keys(g.nodes()).contains(leg as nat));
                            } else {
                                assert(edges_at(gmid.edge_map(), hub as nat).contains(e8));
                                assert(edges_at(gpre.edge_map(), hub as nat).contains(e8));
                                let o0 = if gpre.edge_map()[e8].0 == hub as nat {
                                    gpre.edge_map()[e8].1
                                } else {
                                    gpre.edge_map()[e8].0
                                };
                                assert(o0 != hub as nat && spider_keys(gpre.nodes()).contains(o0));
                                assert(gpre.nodes()[o0].vertex_type != VertexType::B);
                                assert(o0 != ihq as nat && o0 != ohq as nat);
                                assert(!crate::storage::edge_connects(
                                    gpre.edge_map()[e8],
                                    ihq as nat,
                                    ohq as nat,
                                ));
                                assert(gpre.edge_map().contains_key(e8));
                                assert(gmid.edge_map().contains_key(e8) && gmid.edge_map()[e8]
                                    == gpre.edge_map()[e8]);
                                assert(g.edge_map().contains_key(e8) && g.edge_map()[e8]
                                    == gmid.edge_map()[e8]);
                                assert(spider_keys(g.nodes()).contains(o0));
                            }
                        }
                    }
                }
            }
            q = q + 1;
            proof {
                assert(leg_count(pauli_string@, q as int) == leg_count(pauli_string@, q as int - 1)
                    + (if is_leg_char(pauli_string@[q as int - 1]) {
                    1nat
                } else {
                    0nat
                }));
                if !is_leg_char(pauli_string@[q as int - 1]) {
                    assert(g.wire_state(q as int - 1) == WireState::Bare) by {
                        assert(g.singly_bare(q as int - 1));
                    }
                }
            }
        }
        proof {
            assert forall|w: int| 0 <= w < pauli_string@.len() implies g.allocated(w) by {
                if is_leg_char(pauli_string@[w]) {
                    assert(g.wire_state(w) == WireState::Occupied);
                } else {
                    assert(g.wire_state(w) == WireState::Bare);
                }
            }
            assert(g.well_formed_diagram()) by {
                assert(spider_keys(g.nodes()).contains(hub as nat));
                assert(spider_keys(g.nodes()).subset_of(g.nodes().dom()));
                vstd::set_lib::lemma_len_subset(spider_keys(g.nodes()), g.nodes().dom());
                if spider_keys(g.nodes()).len() == 0 {
                    spider_keys(g.nodes()).lemma_len0_is_empty();
                }
                assert forall|k: nat|
                    g.nodes().dom().contains(k) && (#[trigger] g.nodes()[k]).vertex_type
                        != VertexType::B implies (g.nodes()[k].coords is Some) by {
                    assert(spider_keys(g.nodes()).contains(k));
                    if k == hub as nat {
                        assert(g.nodes()[k] == hub_v);
                    }
                }
            }
        }
        Ok(g)
    }
}


} // verus!
