//! The diagram: an arena of vertices and edges plus the two sparse maps from
//! wire index to that wire's input and output boundary vertex.
//!
//! A wire is *unallocated* (no boundary), *bare* (both boundaries present and
//! joined by a direct edge: the identity), or *occupied* (both boundaries
//! present, no direct edge between them). A state with exactly one boundary
//! is *partial* and is rejected by every operation that needs a whole wire.
//!
//! The one allocation convention, held throughout: creation only reserves
//! wire capacity and leaves every wire unallocated; a wire becomes bare
//! explicitly through `add_wire` (the constructors in `builders` bare every
//! wire in their range); and the capacity grows monotonically, never
//! shrinking, whenever a higher wire index is referenced.

use crate::storage::{
    edge_connects, edges_avoiding, no_edges, no_nodes, store_add_edge, store_add_node,
    store_edge_count, store_edge_list, store_find_edge, store_new, store_node_count,
    store_node_list, store_node_weight, store_remove_edge, store_remove_node, Store,
    store_edges, store_nodes,
};
use crate::vertex::{boundary_vertex, EdgeType, Vertex, VertexType};
use vstd::prelude::*;

verus! {

/// What a mutation found a wire, or a pair of arguments, to be when it could
/// not proceed. Every constructor either returns a whole diagram or one of
/// these; no half-built diagram is ever handed back.
#[derive(Debug, Clone, Copy, PartialEq, Eq)]
pub enum GraphError {
    /// A two-qubit constructor was given the same wire twice.
    Argument { control: usize, target: usize },
    /// A character outside I, X, Y, Z (case-insensitive) in an operator
    /// string, with its position.
    PauliFormat { character: char, position: usize },
    /// An operation that needs a specific wire state found another.
    Structure { wire: usize, found: WireState },
    /// No edge connects the two vertices.
    Lookup { source: usize, target: usize },
}

/// The state of a single wire.
#[derive(Debug, Clone, Copy, PartialEq, Eq, Structural)]
pub enum WireState {
    /// Neither boundary is present.
    Unallocated,
    /// Exactly one boundary is present; no operation leaves a wire this way.
    Partial,
    /// Both boundaries are present and directly connected: the identity.
    Bare,
    /// Both boundaries are present and not directly connected.
    Occupied,
}

/// The handles of the non-boundary vertices of a node map.
pub open spec fn spider_keys(m: Map<nat, Vertex>) -> Set<nat> {
    m.dom().filter(|k: nat| m[k].vertex_type != VertexType::B)
}

/// Inserting a vertex under a fresh handle grows the spider handles by that
/// handle exactly when the vertex is not a boundary.
pub proof fn lemma_spider_keys_insert(m: Map<nat, Vertex>, k: nat, v: Vertex)
    requires
        !m.dom().contains(k),
    ensures
        v.vertex_type != VertexType::B ==> spider_keys(m.insert(k, v)) =~= spider_keys(m).insert(
            k,
        ),
        v.vertex_type == VertexType::B ==> spider_keys(m.insert(k, v)) =~= spider_keys(m),
{
}

/// Whether the list of excluded wires contains `w`.
pub open spec fn wire_excluded(ex: Seq<usize>, w: int) -> bool {
    exists|i: int| 0 <= i < ex.len() && ex[i] as int == w
}

/// How many wires in `[0, n)`, not excluded, are unallocated in `g`: the
/// wires a batch allocation will create boundaries for.
pub open spec fn fresh_wire_count(g: Graph, n: int, ex: Seq<usize>) -> nat
    decreases n,
{
    if n <= 0 {
        0
    } else {
        fresh_wire_count(g, n - 1, ex) + (if !wire_excluded(ex, n - 1) && g.unallocated(n - 1) {
            1nat
        } else {
            0nat
        })
    }
}

/// The handle values present in a boundary column, in ascending wire order.
pub open spec fn present_values(s: Seq<Option<usize>>) -> Seq<usize>
    decreases s.len(),
{
    if s.len() == 0 {
        Seq::empty()
    } else {
        present_values(s.drop_last()) + (if s.last() is Some {
            seq![s.last()->0]
        } else {
            Seq::empty()
        })
    }
}

/// The wire indices whose entry is present, in ascending order.
pub open spec fn present_wires(s: Seq<Option<usize>>) -> Seq<usize>
    decreases s.len(),
{
    if s.len() == 0 {
        Seq::empty()
    } else {
        present_wires(s.drop_last()) + (if s.last() is Some {
            seq![(s.len() - 1) as usize]
        } else {
            Seq::empty()
        })
    }
}

/// One edge of an enumeration: its handle, its two endpoint handles, and
/// its type.
#[derive(Debug, Clone, Copy, PartialEq, Eq)]
pub struct EdgeListing {
    pub id: usize,
    pub source: usize,
    pub target: usize,
    pub edge_type: EdgeType,
}

/// The handles of the edges incident to vertex `v`.
pub open spec fn edges_at(m: Map<nat, (nat, nat, EdgeType)>, v: nat) -> Set<nat> {
    m.dom().filter(|e: nat| m[e].0 == v || m[e].1 == v)
}

/// Whether the list holds the wire index `w`.
fn contains_wire(list: &Vec<usize>, w: usize) -> (b: bool)
    ensures
        b == wire_excluded(list@, w as int),
{
    let mut j: usize = 0;
    while j < list.len()
        invariant
            j <= list@.len(),
            forall|k: int| 0 <= k < j ==> #[trigger] list@[k] as int != w as int,
        decreases list@.len() - j,
    {
        if list[j] == w {
            return true;
        }
        j = j + 1;
    }
    false
}

/// Collects the present values of a boundary column, in wire order.
fn collect_present_values(s: &Vec<Option<usize>>) -> (r: Vec<usize>)
    ensures
        r@ == present_values(s@),
{
    let mut r: Vec<usize> = Vec::new();
    let mut i: usize = 0;
    while i < s.len()
        invariant
            i <= s@.len(),
            r@ == present_values(s@.take(i as int)),
        decreases s@.len() - i,
    {
        match s[i] {
            Some(h) => {
                r.push(h);
            },
            None => {},
        }
        proof {
            assert(s@.take(i as int + 1).drop_last() =~= s@.take(i as int));
            assert(s@.take(i as int + 1).last() == s@[i as int]);
            assert(r@ =~= present_values(s@.take(i as int + 1)));
        }
        i = i + 1;
    }
    proof {
        assert(s@.take(s@.len() as int) =~= s@);
    }
    r
}

/// Collects the wire indices whose entry is present, in wire order.
fn collect_present_wires(s: &Vec<Option<usize>>) -> (r: Vec<usize>)
    ensures
        r@ == present_wires(s@),
{
    let mut r: Vec<usize> = Vec::new();
    let mut i: usize = 0;
    while i < s.len()
        invariant
            i <= s@.len(),
            r@ == present_wires(s@.take(i as int)),
        decreases s@.len() - i,
    {
        match s[i] {
            Some(_) => {
                r.push(i);
            },
            None => {},
        }
        proof {
            assert(s@.take(i as int + 1).drop_last() =~= s@.take(i as int));
            assert(s@.take(i as int + 1).last() == s@[i as int]);
            assert(r@ =~= present_wires(s@.take(i as int + 1)));
        }
        i = i + 1;
    }
    proof {
        assert(s@.take(s@.len() as int) =~= s@);
    }
    r
}

/// The diagram. The fields are public so that the specification functions
/// over them can be read everywhere; verified code mutates a diagram only
/// through the operations below, which keep the invariant `wf`. Reading is
/// by value and by enumeration: no accessor hands out a mutable reference
/// into the store.
#[derive(Debug)]
pub struct Graph {
    pub inputs: Vec<Option<usize>>,
    pub outputs: Vec<Option<usize>>,
    pub store: Store,
}

impl Graph {
    /// The live vertices, as a map from handle to payload.
    pub open spec fn nodes(self) -> Map<nat, Vertex> {
        store_nodes(self.store)
    }

    /// The live edges, as a map from handle to endpoints and tag.
    pub open spec fn edge_map(self) -> Map<nat, (nat, nat, EdgeType)> {
        store_edges(self.store)
    }

    /// How many wire indices are addressable.
    pub open spec fn wire_count(self) -> int {
        self.inputs@.len() as int
    }

    /// The input boundary handle of a wire, if one is present.
    pub open spec fn input_at(self, w: int) -> Option<usize> {
        if 0 <= w < self.inputs@.len() {
            self.inputs@[w]
        } else {
            None
        }
    }

    /// The output boundary handle of a wire, if one is present.
    pub open spec fn output_at(self, w: int) -> Option<usize> {
        if 0 <= w < self.outputs@.len() {
            self.outputs@[w]
        } else {
            None
        }
    }

    /// Neither boundary of the wire is present.
    pub open spec fn unallocated(self, w: int) -> bool {
        self.input_at(w) is None && self.output_at(w) is None
    }

    /// Both boundaries of the wire are present.
    pub open spec fn allocated(self, w: int) -> bool {
        self.input_at(w) is Some && self.output_at(w) is Some
    }

    /// Some live edge directly connects the two vertices.
    pub open spec fn direct_edge_between(self, a: nat, b: nat) -> bool {
        exists|e: nat|
            self.edge_map().dom().contains(e) && edge_connects(#[trigger] self.edge_map()[e], a, b)
    }

    /// Both boundaries are present and directly connected: the identity wire.
    pub open spec fn bare(self, w: int) -> bool {
        &&& self.allocated(w)
        &&& self.direct_edge_between(
            self.input_at(w)->0 as nat,
            self.output_at(w)->0 as nat,
        )
    }

    /// Both boundaries are present and not directly connected.
    pub open spec fn occupied(self, w: int) -> bool {
        self.allocated(w) && !self.bare(w)
    }

    /// The state of a wire.
    pub open spec fn wire_state(self, w: int) -> WireState {
        if self.unallocated(w) {
            WireState::Unallocated
        } else if !self.allocated(w) {
            WireState::Partial
        } else if self.bare(w) {
            WireState::Bare
        } else {
            WireState::Occupied
        }
    }

    /// The handle is live and names a boundary vertex.
    pub open spec fn is_live_boundary(self, h: usize) -> bool {
        self.nodes().contains_key(h as nat) && self.nodes()[h as nat].vertex_type == VertexType::B
    }

    /// Every boundary handle on record is a live boundary vertex.
    pub open spec fn boundaries_valid(self) -> bool {
        &&& forall|w: int|
            0 <= w < self.inputs@.len() ==> ((#[trigger] self.inputs@[w]) matches Some(h)
                ==> self.is_live_boundary(h))
        &&& forall|w: int|
            0 <= w < self.outputs@.len() ==> ((#[trigger] self.outputs@[w]) matches Some(h)
                ==> self.is_live_boundary(h))
    }

    /// No two boundary records share a vertex: inputs are distinct, outputs
    /// are distinct, and no input handle is also an output handle.
    pub open spec fn boundaries_injective(self) -> bool {
        &&& forall|w1: int, w2: int|
            0 <= w1 < self.inputs@.len() && 0 <= w2 < self.inputs@.len() && w1 != w2
                && (#[trigger] self.inputs@[w1]) is Some && (#[trigger] self.inputs@[w2]) is Some
                ==> self.inputs@[w1]->0 != self.inputs@[w2]->0
        &&& forall|w1: int, w2: int|
            0 <= w1 < self.outputs@.len() && 0 <= w2 < self.outputs@.len() && w1 != w2
                && (#[trigger] self.outputs@[w1]) is Some && (#[trigger] self.outputs@[w2]) is Some
                ==> self.outputs@[w1]->0 != self.outputs@[w2]->0
        &&& forall|w1: int, w2: int|
            0 <= w1 < self.inputs@.len() && 0 <= w2 < self.outputs@.len()
                && (#[trigger] self.inputs@[w1]) is Some && (#[trigger] self.outputs@[w2]) is Some
                ==> self.inputs@[w1]->0 != self.outputs@[w2]->0
    }

    /// Every edge joins two live vertices.
    pub open spec fn edges_live(self) -> bool {
        forall|e: nat|
            self.edge_map().dom().contains(e) ==> self.nodes().contains_key(
                (#[trigger] self.edge_map()[e]).0,
            ) && self.nodes().contains_key(self.edge_map()[e].1)
    }

    /// The wire is bare through exactly one direct edge.
    pub open spec fn singly_bare(self, w: int) -> bool {
        &&& self.bare(w)
        &&& forall|e1: nat, e2: nat|
            self.edge_map().dom().contains(e1) && self.edge_map().dom().contains(e2) && edge_connects(
                #[trigger] self.edge_map()[e1],
                self.input_at(w)->0 as nat,
                self.output_at(w)->0 as nat,
            ) && edge_connects(
                #[trigger] self.edge_map()[e2],
                self.input_at(w)->0 as nat,
                self.output_at(w)->0 as nat,
            ) ==> e1 == e2
    }

    /// The structural invariant of a diagram.
    pub open spec fn wf(self) -> bool {
        &&& self.inputs@.len() == self.outputs@.len()
        &&& self.nodes().dom().finite()
        &&& self.edge_map().dom().finite()
        &&& self.boundaries_valid()
        &&& self.boundaries_injective()
        &&& self.edges_live()
    }

    /// Creates a diagram with `capacity` addressable wires, all of them
    /// unallocated, and no vertices or edges.
    pub fn new(capacity: usize) -> (g: Graph)
        ensures
            g.wf(),
            g.wire_count() == capacity,
            g.nodes() == no_nodes(),
            g.edge_map() == no_edges(),
            forall|w: int| g.wire_state(w) == WireState::Unallocated,
    {
        let mut inputs: Vec<Option<usize>> = Vec::new();
        let mut outputs: Vec<Option<usize>> = Vec::new();
        let mut i: usize = 0;
        while i < capacity
            invariant
                i <= capacity,
                inputs@.len() == i,
                outputs@.len() == i,
                forall|w: int| 0 <= w < i ==> (#[trigger] inputs@[w]) is None,
                forall|w: int| 0 <= w < i ==> (#[trigger] outputs@[w]) is None,
            decreases capacity - i,
        {
            inputs.push(None);
            outputs.push(None);
            i = i + 1;
        }
        Graph { inputs, outputs, store: store_new(capacity) }
    }

    /// How many wire indices are addressable; grows monotonically and never
    /// shrinks.
    pub fn capacity(&self) -> (n: usize)
        ensures
            n == self.wire_count(),
    {
        self.inputs.len()
    }

    /// The number of addressable wires: every wire index in use is below
    /// this bound.
    pub fn max_qubit(&self) -> (n: usize)
        ensures
            n == self.wire_count(),
    {
        self.inputs.len()
    }

    /// The number of live vertices.
    pub fn num_vertices(&self) -> (n: usize)
        ensures
            n == self.nodes().dom().len(),
    {
        store_node_count(&self.store)
    }

    /// The number of live edges.
    pub fn num_edges(&self) -> (n: usize)
        ensures
            n == self.edge_map().dom().len(),
    {
        store_edge_count(&self.store)
    }

    /// The input boundary handle of a wire, if one is present.
    pub fn input_index(&self, qubit: usize) -> (r: Option<usize>)
        ensures
            r == self.input_at(qubit as int),
    {
        if qubit < self.inputs.len() {
            self.inputs[qubit]
        } else {
            None
        }
    }

    /// The output boundary handle of a wire, if one is present.
    pub fn output_index(&self, qubit: usize) -> (r: Option<usize>)
        ensures
            r == self.output_at(qubit as int),
    {
        if qubit < self.outputs.len() {
            self.outputs[qubit]
        } else {
            None
        }
    }

    /// The payload of a live vertex, or None for a handle that is not live.
    pub fn vertex(&self, index: usize) -> (r: Option<Vertex>)
        ensures
            match r {
                Some(v) => self.nodes().contains_pair(index as nat, v),
                None => !self.nodes().contains_key(index as nat),
            },
    {
        store_node_weight(&self.store, index)
    }

    /// Adds a vertex and returns its fresh handle; every other vertex, every
    /// edge and every boundary record is unchanged.
    pub fn add_vertex(&mut self, v: Vertex) -> (h: usize)
        requires
            old(self).wf(),
        ensures
            final(self).wf(),
            !old(self).nodes().contains_key(h as nat),
            final(self).nodes() == old(self).nodes().insert(h as nat, v),
            final(self).edge_map() == old(self).edge_map(),
            final(self).inputs@ == old(self).inputs@,
            final(self).outputs@ == old(self).outputs@,
            forall|w: int| final(self).wire_state(w) == old(self).wire_state(w),
    {
        let h = store_add_node(&mut self.store, v);
        proof {
            assert(final(self).boundaries_valid()) by {
                assert forall|w: int|
                    0 <= w < final(self).inputs@.len() && (#[trigger] final(self).inputs@[w])
                        is Some implies final(self).is_live_boundary(
                    final(self).inputs@[w]->0,
                ) by {
                    assert(old(self).is_live_boundary(old(self).inputs@[w]->0));
                }
                assert forall|w: int|
                    0 <= w < final(self).outputs@.len() && (#[trigger] final(self).outputs@[w])
                        is Some implies final(self).is_live_boundary(
                    final(self).outputs@[w]->0,
                ) by {
                    assert(old(self).is_live_boundary(old(self).outputs@[w]->0));
                }
            }
            assert(forall|w: int|
                final(self).wire_state(w) == old(self).wire_state(w)) by {
                assert(final(self).edge_map() == old(self).edge_map());
            }
        }
        h
    }

    /// The state of a wire: unallocated, partial, bare or occupied.
    pub fn state_of(&self, wire: usize) -> (st: WireState)
        ensures
            st == self.wire_state(wire as int),
    {
        let inp = self.input_index(wire);
        let outp = self.output_index(wire);
        match (inp, outp) {
            (None, None) => WireState::Unallocated,
            (Some(ih), Some(oh)) => {
                match store_find_edge(&self.store, ih, oh) {
                    Some(e) => {
                        proof {
                            assert(self.direct_edge_between(ih as nat, oh as nat)) by {
                                assert(self.edge_map().dom().contains(e as nat) && edge_connects(
                                    self.edge_map()[e as nat],
                                    ih as nat,
                                    oh as nat,
                                ));
                            }
                        }
                        WireState::Bare
                    },
                    None => WireState::Occupied,
                }
            },
            _ => WireState::Partial,
        }
    }

    /// Grows the addressable wire range to cover `wire`; every wire keeps
    /// its boundaries and state.
    fn grow(&mut self, wire: usize)
        requires
            old(self).wf(),
        ensures
            final(self).wf(),
            final(self).nodes() == old(self).nodes(),
            final(self).edge_map() == old(self).edge_map(),
            final(self).wire_count() >= wire as int + 1,
            final(self).wire_count() >= old(self).wire_count(),
            old(self).wire_count() >= wire as int + 1 ==> final(self).wire_count() == old(self).wire_count(),
            forall|w: int| final(self).input_at(w) == old(self).input_at(w),
            forall|w: int| final(self).output_at(w) == old(self).output_at(w),
            wire as int + 1 > old(self).wire_count() ==> final(self).wire_count() == wire as int
                + 1,
    {
        while self.inputs.len() <= wire
            invariant
                old(self).wf(),
                self.store == old(self).store,
                self.inputs@.len() == self.outputs@.len(),
                self.inputs@.len() >= old(self).inputs@.len(),
                self.inputs@.len() <= vstd::math::max(wire as int + 1, old(self).wire_count()),
                forall|w: int| self.input_at(w) == old(self).input_at(w),
                forall|w: int| self.output_at(w) == old(self).output_at(w),
            decreases wire as int + 1 - self.inputs@.len(),
        {
            let ghost pre = *self;
            self.inputs.push(None);
            self.outputs.push(None);
            proof {
                assert forall|w: int| self.input_at(w) == old(self).input_at(w) by {
                    if 0 <= w < pre.inputs@.len() {
                        assert(self.input_at(w) == pre.input_at(w));
                    }
                }
                assert forall|w: int| self.output_at(w) == old(self).output_at(w) by {
                    if 0 <= w < pre.outputs@.len() {
                        assert(self.output_at(w) == pre.output_at(w));
                    }
                }
            }
        }
        proof {
            let g = *self;
            assert(g.boundaries_valid()) by {
                assert forall|w: int|
                    0 <= w < g.inputs@.len() && (#[trigger] g.inputs@[w]) is Some implies g
                    .is_live_boundary(g.inputs@[w]->0) by {
                    assert(g.input_at(w) == old(self).input_at(w));
                    assert(old(self).is_live_boundary(old(self).inputs@[w]->0));
                }
                assert forall|w: int|
                    0 <= w < g.outputs@.len() && (#[trigger] g.outputs@[w]) is Some implies g
                    .is_live_boundary(g.outputs@[w]->0) by {
                    assert(g.output_at(w) == old(self).output_at(w));
                    assert(old(self).is_live_boundary(old(self).outputs@[w]->0));
                }
            }
            assert(g.boundaries_injective()) by {
                assert forall|w1: int, w2: int|
                    0 <= w1 < g.inputs@.len() && 0 <= w2 < g.inputs@.len() && w1 != w2
                        && (#[trigger] g.inputs@[w1]) is Some && (#[trigger] g.inputs@[w2])
                        is Some implies g.inputs@[w1]->0 != g.inputs@[w2]->0 by {
                    assert(g.input_at(w1) == old(self).input_at(w1));
                    assert(g.input_at(w2) == old(self).input_at(w2));
                }
                assert forall|w1: int, w2: int|
                    0 <= w1 < g.outputs@.len() && 0 <= w2 < g.outputs@.len() && w1 != w2
                        && (#[trigger] g.outputs@[w1]) is Some && (#[trigger] g.outputs@[w2])
                        is Some implies g.outputs@[w1]->0 != g.outputs@[w2]->0 by {
                    assert(g.output_at(w1) == old(self).output_at(w1));
                    assert(g.output_at(w2) == old(self).output_at(w2));
                }
                assert forall|w1: int, w2: int|
                    0 <= w1 < g.inputs@.len() && 0 <= w2 < g.outputs@.len()
                        && (#[trigger] g.inputs@[w1]) is Some && (#[trigger] g.outputs@[w2])
                        is Some implies g.inputs@[w1]->0 != g.outputs@[w2]->0 by {
                    assert(g.input_at(w1) == old(self).input_at(w1));
                    assert(g.output_at(w2) == old(self).output_at(w2));
                }
            }
        }
    }
    /// Creates a boundary vertex and registers it as the wire's input,
    /// growing the wire range to reach the wire. Fails, and changes nothing,
    /// when the wire already has an input: overwriting would orphan a handle
    /// that other code may hold.
    pub fn add_input(&mut self, wire: usize) -> (r: Result<usize, GraphError>)
        requires
            old(self).wf(),
        ensures
            final(self).wf(),
            r is Err <==> old(self).input_at(wire as int) is Some,
            match r {
                Ok(h) => {
                    &&& !old(self).nodes().contains_key(h as nat)
                    &&& final(self).nodes() == old(self).nodes().insert(
                        h as nat,
                        boundary_vertex(),
                    )
                    &&& final(self).edge_map() == old(self).edge_map()
                    &&& final(self).input_at(wire as int) == Some(h)
                    &&& final(self).wire_count() >= wire as int + 1
                    &&& final(self).wire_count() >= old(self).wire_count()
                    &&& old(self).wire_count() >= wire as int + 1 ==> final(self).wire_count()
                        == old(self).wire_count()
                    &&& forall|w: int|
                        w != wire ==> final(self).input_at(w) == old(self).input_at(w)
                    &&& forall|w: int| final(self).output_at(w) == old(self).output_at(w)
                },
                Err(e) => {
                    &&& e == (GraphError::Structure {
                        wire,
                        found: old(self).wire_state(wire as int),
                    })
                    &&& *final(self) == *old(self)
                },
            },
    {
        if self.input_index(wire).is_some() {
            let found = self.state_of(wire);
            return Err(GraphError::Structure { wire, found });
        }
        self.grow(wire);
        let ghost mid = *self;
        let h = store_add_node(&mut self.store, Vertex::b());
        let ghost mid2 = *self;
        self.inputs.set(wire, Some(h));
        proof {
            Self::lemma_boundary_registered(mid, mid2, *self, wire as int, h, true);
        }
        Ok(h)
    }

    /// Creates a boundary vertex and registers it as the wire's output,
    /// growing the wire range to reach the wire. Fails, and changes nothing,
    /// when the wire already has an output.
    pub fn add_output(&mut self, wire: usize) -> (r: Result<usize, GraphError>)
        requires
            old(self).wf(),
        ensures
            final(self).wf(),
            r is Err <==> old(self).output_at(wire as int) is Some,
            match r {
                Ok(h) => {
                    &&& !old(self).nodes().contains_key(h as nat)
                    &&& final(self).nodes() == old(self).nodes().insert(
                        h as nat,
                        boundary_vertex(),
                    )
                    &&& final(self).edge_map() == old(self).edge_map()
                    &&& final(self).output_at(wire as int) == Some(h)
                    &&& final(self).wire_count() >= wire as int + 1
                    &&& final(self).wire_count() >= old(self).wire_count()
                    &&& old(self).wire_count() >= wire as int + 1 ==> final(self).wire_count()
                        == old(self).wire_count()
                    &&& forall|w: int|
                        w != wire ==> final(self).output_at(w) == old(self).output_at(w)
                    &&& forall|w: int| final(self).input_at(w) == old(self).input_at(w)
                },
                Err(e) => {
                    &&& e == (GraphError::Structure {
                        wire,
                        found: old(self).wire_state(wire as int),
                    })
                    &&& *final(self) == *old(self)
                },
            },
    {
        if self.output_index(wire).is_some() {
            let found = self.state_of(wire);
            return Err(GraphError::Structure { wire, found });
        }
        self.grow(wire);
        let ghost mid = *self;
        let h = store_add_node(&mut self.store, Vertex::b());
        let ghost mid2 = *self;
        self.outputs.set(wire, Some(h));
        proof {
            Self::lemma_boundary_registered(mid, mid2, *self, wire as int, h, false);
        }
        Ok(h)
    }

    /// Makes the wire bare. On an unallocated wire this creates both
    /// boundaries and the direct edge between them; on a wire that is
    /// already bare it changes nothing at all; on a partial or occupied
    /// wire it fails and changes nothing.
    pub fn add_wire(&mut self, wire: usize) -> (r: Result<(), GraphError>)
        requires
            old(self).wf(),
        ensures
            final(self).wf(),
            final(self).wire_count() >= old(self).wire_count(),
            r is Ok <==> (old(self).unallocated(wire as int) || old(self).bare(wire as int)),
            old(self).bare(wire as int) ==> *final(self) == *old(self),
            r matches Err(e) ==> *final(self) == *old(self) && e == (GraphError::Structure {
                wire,
                found: old(self).wire_state(wire as int),
            }),
            r is Ok && old(self).unallocated(wire as int) ==> {
                &&& final(self).singly_bare(wire as int)
                &&& final(self).wire_count() >= wire as int + 1
                &&& (old(self).wire_count() >= wire as int + 1 ==> final(self).wire_count()
                    == old(self).wire_count())
                &&& final(self).nodes().dom().len() == old(self).nodes().dom().len() + 2
                &&& final(self).edge_map().dom().len() == old(self).edge_map().dom().len() + 1
                &&& spider_keys(final(self).nodes()) =~= spider_keys(old(self).nodes())
                &&& forall|k: nat|
                    #[trigger] old(self).nodes().contains_key(k) ==> final(self).nodes().contains_key(k) && final(self).nodes()[k] == old(self).nodes()[k]
                &&& forall|k: nat|
                    #[trigger] final(self).nodes().contains_key(k) && !old(self).nodes().contains_key(k) ==> final(self).nodes()[k] == boundary_vertex()
                &&& forall|e: nat|
                    #[trigger] old(self).edge_map().contains_key(e) ==> final(self).edge_map().contains_key(e) && final(self).edge_map()[e] == old(self).edge_map()[e]
                &&& forall|w: int|
                    w != wire ==> final(self).input_at(w) == old(self).input_at(w)
                        && final(self).output_at(w) == old(self).output_at(w)
                &&& forall|w: int|
                    w != wire ==> final(self).wire_state(w) == old(self).wire_state(w)
                &&& forall|w: int|
                    w != wire && old(self).singly_bare(w) ==> final(self).singly_bare(w)
                &&& forall|x: nat|
                    #[trigger] old(self).nodes().contains_key(x) ==> edges_at(
                        final(self).edge_map(),
                        x,
                    ) =~= edges_at(old(self).edge_map(), x)
            },
    {
        let inp = self.input_index(wire);
        let outp = self.output_index(wire);
        match (inp, outp) {
            (None, None) => {
                let ih = match self.add_input(wire) {
                    Ok(h) => h,
                    Err(_) => unreached(),
                };
                let oh = match self.add_output(wire) {
                    Ok(h) => h,
                    Err(_) => unreached(),
                };
                let ghost mid = *self;
                let e = store_add_edge(&mut self.store, ih, oh, EdgeType::Simple);
                proof {
                    self.lemma_wire_created(*old(self), mid, wire as int, ih, oh, e as nat);
                }
                Ok(())
            },
            (Some(ih), Some(oh)) => {
                match store_find_edge(&self.store, ih, oh) {
                    Some(e) => {
                        proof {
                            assert(self.bare(wire as int)) by {
                                assert(self.edge_map().dom().contains(e as nat) && edge_connects(
                                    self.edge_map()[e as nat],
                                    ih as nat,
                                    oh as nat,
                                ));
                            }
                        }
                        Ok(())
                    },
                    None => Err(GraphError::Structure { wire, found: WireState::Occupied }),
                }
            },
            _ => Err(GraphError::Structure { wire, found: WireState::Partial }),
        }
    }

    /// The effect of creating both boundaries of a wire and joining them:
    /// `orig` is the graph before, `mid` after the two boundary insertions,
    /// and `self` after the edge insertion.
    proof fn lemma_wire_created(&self, orig: Graph, mid: Graph, wire: int, ih: usize, oh: usize, e: nat)
        requires
            orig.wf(),
            mid.wf(),
            orig.unallocated(wire),
            0 <= wire < mid.wire_count(),
            !orig.nodes().contains_key(ih as nat),
            !orig.nodes().insert(ih as nat, boundary_vertex()).contains_key(oh as nat),
            mid.nodes() == orig.nodes().insert(ih as nat, boundary_vertex()).insert(
                oh as nat,
                boundary_vertex(),
            ),
            mid.edge_map() == orig.edge_map(),
            mid.input_at(wire) == Some(ih),
            mid.output_at(wire) == Some(oh),
            mid.wire_count() >= wire + 1,
            orig.wire_count() >= wire + 1 ==> mid.wire_count() == orig.wire_count(),
            forall|w: int| w != wire ==> mid.input_at(w) == orig.input_at(w),
            forall|w: int| w != wire ==> mid.output_at(w) == orig.output_at(w),
            !mid.edge_map().dom().contains(e),
            self.edge_map() == mid.edge_map().insert(e, (ih as nat, oh as nat, EdgeType::Simple)),
            self.nodes() == mid.nodes(),
            self.inputs@ == mid.inputs@,
            self.outputs@ == mid.outputs@,
        ensures
            self.wf(),
            self.singly_bare(wire),
            self.wire_count() >= wire + 1,
            orig.wire_count() >= wire + 1 ==> self.wire_count() == orig.wire_count(),
            self.nodes().dom().len() == orig.nodes().dom().len() + 2,
            self.edge_map().dom().len() == orig.edge_map().dom().len() + 1,
            spider_keys(self.nodes()) =~= spider_keys(orig.nodes()),
            forall|k: nat|
                orig.nodes().contains_key(k) ==> self.nodes().contains_key(k) && self.nodes()[k]
                    == orig.nodes()[k],
            forall|k: nat|
                self.nodes().contains_key(k) && !orig.nodes().contains_key(k) ==> self.nodes()[k]
                    == boundary_vertex(),
            forall|e1: nat|
                orig.edge_map().contains_key(e1) ==> self.edge_map().contains_key(e1) && self.edge_map()[e1]
                    == orig.edge_map()[e1],
            forall|w: int|
                w != wire ==> self.input_at(w) == orig.input_at(w) && self.output_at(w)
                    == orig.output_at(w),
            forall|w: int| w != wire ==> self.wire_state(w) == orig.wire_state(w),
            forall|w: int| w != wire && orig.singly_bare(w) ==> self.singly_bare(w),
            forall|x: nat|
                orig.nodes().contains_key(x) ==> edges_at(self.edge_map(), x) =~= edges_at(
                    orig.edge_map(),
                    x,
                ),
    {
        let s = *self;
        assert forall|x: nat| orig.nodes().contains_key(x) implies edges_at(s.edge_map(), x)
            =~= edges_at(orig.edge_map(), x) by {
            assert(x != ih as nat && x != oh as nat);
            assert forall|e1: nat| #[trigger]
                edges_at(s.edge_map(), x).contains(e1) implies edges_at(orig.edge_map(), x).contains(
                e1,
            ) by {
                assert(e1 != e);
                assert(orig.edge_map()[e1] == s.edge_map()[e1]);
            }
            assert forall|e1: nat| #[trigger]
                edges_at(orig.edge_map(), x).contains(e1) implies edges_at(s.edge_map(), x).contains(
                e1,
            ) by {
                assert(e1 != e);
            }
        }
        // The invariant: nodes are unchanged from mid, edges gained one live pair.
        assert(s.boundaries_valid()) by {
            assert forall|w: int|
                0 <= w < s.inputs@.len() && (#[trigger] s.inputs@[w]) is Some implies s
                .is_live_boundary(s.inputs@[w]->0) by {
                assert(mid.inputs@[w] == s.inputs@[w]);
                assert(mid.is_live_boundary(mid.inputs@[w]->0));
            }
            assert forall|w: int|
                0 <= w < s.outputs@.len() && (#[trigger] s.outputs@[w]) is Some implies s
                .is_live_boundary(s.outputs@[w]->0) by {
                assert(mid.outputs@[w] == s.outputs@[w]);
                assert(mid.is_live_boundary(mid.outputs@[w]->0));
            }
        }
        assert(s.edges_live()) by {
            assert forall|e1: nat| s.edge_map().dom().contains(e1) implies s.nodes().contains_key(
                (#[trigger] s.edge_map()[e1]).0,
            ) && s.nodes().contains_key(s.edge_map()[e1].1) by {
                if e1 != e {
                    assert(mid.edge_map()[e1] == s.edge_map()[e1]);
                    assert(mid.nodes().contains_key(mid.edge_map()[e1].0));
                    assert(mid.nodes().contains_key(mid.edge_map()[e1].1));
                }
            }
        }
        assert(s.boundaries_injective()) by {
            assert(s.inputs@ =~= mid.inputs@);
            assert(s.outputs@ =~= mid.outputs@);
        }
        // The new wire is bare through exactly the one new edge.
        assert(s.singly_bare(wire)) by {
            assert(s.edge_map().dom().contains(e) && edge_connects(
                s.edge_map()[e],
                ih as nat,
                oh as nat,
            ));
            assert forall|e1: nat|
                s.edge_map().dom().contains(e1) && edge_connects(
                    #[trigger] s.edge_map()[e1],
                    ih as nat,
                    oh as nat,
                ) implies e1 == e by {
                if e1 != e {
                    assert(orig.edge_map()[e1] == s.edge_map()[e1]);
                    assert(orig.nodes().contains_key(orig.edge_map()[e1].0));
                    assert(orig.nodes().contains_key(orig.edge_map()[e1].1));
                }
            }
        }
        // Counts.
        assert(s.nodes().dom().len() == orig.nodes().dom().len() + 2) by {
            assert(orig.nodes().insert(ih as nat, boundary_vertex()).dom() =~= orig.nodes().dom()
                .insert(ih as nat));
            assert(s.nodes().dom() =~= orig.nodes().dom().insert(ih as nat).insert(oh as nat));
        }
        assert(s.edge_map().dom().len() == orig.edge_map().dom().len() + 1) by {
            assert(s.edge_map().dom() =~= orig.edge_map().dom().insert(e));
        }
        // Spider handles are untouched: both new vertices are boundaries.
        assert(spider_keys(s.nodes()) =~= spider_keys(orig.nodes())) by {
            lemma_spider_keys_insert(orig.nodes(), ih as nat, boundary_vertex());
            lemma_spider_keys_insert(
                orig.nodes().insert(ih as nat, boundary_vertex()),
                oh as nat,
                boundary_vertex(),
            );
        }
        // Other wires keep their boundaries, their state, and their bareness.
        assert forall|w: int| w != wire implies s.wire_state(w) == orig.wire_state(w) by {
            if orig.allocated(w) {
                let x = orig.input_at(w)->0 as nat;
                let y = orig.output_at(w)->0 as nat;
                assert(orig.is_live_boundary(orig.input_at(w)->0));
                assert(orig.is_live_boundary(orig.output_at(w)->0));
                assert(!edge_connects((ih as nat, oh as nat, EdgeType::Simple), x, y));
                Self::lemma_direct_edges_after_insert(
                    orig,
                    s,
                    e,
                    ih as nat,
                    oh as nat,
                    EdgeType::Simple,
                    x,
                    y,
                );
            }
        }
        assert forall|w: int| w != wire && orig.singly_bare(w) implies s.singly_bare(w) by {
            let x = orig.input_at(w)->0 as nat;
            let y = orig.output_at(w)->0 as nat;
            assert(orig.is_live_boundary(orig.input_at(w)->0));
            assert(orig.is_live_boundary(orig.output_at(w)->0));
            assert(!edge_connects((ih as nat, oh as nat, EdgeType::Simple), x, y));
            Self::lemma_direct_edges_after_insert(
                orig,
                s,
                e,
                ih as nat,
                oh as nat,
                EdgeType::Simple,
                x,
                y,
            );
        }
    }

    /// Inserts an edge of the given type between two live vertices and
    /// returns its fresh handle. Self-loops and parallel edges are permitted:
    /// the diagram is a multigraph. A wire's state changes only if the edge
    /// joins that wire's own two boundaries (an occupied wire would become
    /// bare).
    pub fn add_edge_of_type(&mut self, source: usize, target: usize, edge_type: EdgeType) -> (e:
        usize)
        requires
            old(self).wf(),
            old(self).nodes().contains_key(source as nat),
            old(self).nodes().contains_key(target as nat),
        ensures
            final(self).wf(),
            !old(self).edge_map().contains_key(e as nat),
            final(self).edge_map() == old(self).edge_map().insert(
                e as nat,
                (source as nat, target as nat, edge_type),
            ),
            final(self).nodes() == old(self).nodes(),
            final(self).inputs@ == old(self).inputs@,
            final(self).outputs@ == old(self).outputs@,
            final(self).edge_map().dom().len() == old(self).edge_map().dom().len() + 1,
            forall|w: int|
                !(old(self).allocated(w) && edge_connects(
                    (source as nat, target as nat, edge_type),
                    old(self).input_at(w)->0 as nat,
                    old(self).output_at(w)->0 as nat,
                )) ==> #[trigger] final(self).wire_state(w) == old(self).wire_state(w) && (old(self).singly_bare(w) ==> final(self).singly_bare(w)),
            forall|x: nat|
                x != source as nat && x != target as nat ==> edges_at(final(self).edge_map(), x)
                    =~= edges_at(old(self).edge_map(), x),
            edges_at(final(self).edge_map(), source as nat) =~= edges_at(
                old(self).edge_map(),
                source as nat,
            ).insert(e as nat),
            edges_at(final(self).edge_map(), target as nat) =~= edges_at(
                old(self).edge_map(),
                target as nat,
            ).insert(e as nat),
    {
        let e = store_add_edge(&mut self.store, source, target, edge_type);
        proof {
            let s = *self;
            let orig = *old(self);
            let rec = (source as nat, target as nat, edge_type);
            assert(s.edge_map().dom() =~= orig.edge_map().dom().insert(e as nat));
            assert(s.edges_live()) by {
                assert forall|e1: nat| s.edge_map().dom().contains(e1) implies s.nodes().contains_key(
                    (#[trigger] s.edge_map()[e1]).0,
                ) && s.nodes().contains_key(s.edge_map()[e1].1) by {
                    if e1 != e as nat {
                        assert(orig.edge_map()[e1] == s.edge_map()[e1]);
                        assert(orig.nodes().contains_key(orig.edge_map()[e1].0));
                        assert(orig.nodes().contains_key(orig.edge_map()[e1].1));
                    }
                }
            }
            assert forall|w: int|
                !(orig.allocated(w) && edge_connects(
                    rec,
                    orig.input_at(w)->0 as nat,
                    orig.output_at(w)->0 as nat,
                )) implies #[trigger] s.wire_state(w) == orig.wire_state(w) && (orig.singly_bare(w)
                ==> s.singly_bare(w)) by {
                if orig.allocated(w) {
                    Self::lemma_direct_edges_after_insert(
                        orig,
                        s,
                        e as nat,
                        source as nat,
                        target as nat,
                        edge_type,
                        orig.input_at(w)->0 as nat,
                        orig.output_at(w)->0 as nat,
                    );
                }
            }
            assert forall|x: nat|
                x != source as nat && x != target as nat implies edges_at(s.edge_map(), x)
                =~= edges_at(orig.edge_map(), x) by {
                assert forall|e1: nat| #[trigger]
                    edges_at(s.edge_map(), x).contains(e1) implies edges_at(orig.edge_map(), x).contains(
                    e1,
                ) by {
                    assert(e1 != e as nat);
                    assert(orig.edge_map()[e1] == s.edge_map()[e1]);
                }
                assert forall|e1: nat| #[trigger]
                    edges_at(orig.edge_map(), x).contains(e1) implies edges_at(s.edge_map(), x).contains(
                    e1,
                ) by {
                    assert(e1 != e as nat);
                }
            }
        }
        e
    }

    /// Inserts a plain edge between two live vertices; see
    /// `add_edge_of_type`.
    pub fn add_edge(&mut self, source: usize, target: usize) -> (e: usize)
        requires
            old(self).wf(),
            old(self).nodes().contains_key(source as nat),
            old(self).nodes().contains_key(target as nat),
        ensures
            final(self).wf(),
            !old(self).edge_map().contains_key(e as nat),
            final(self).edge_map() == old(self).edge_map().insert(
                e as nat,
                (source as nat, target as nat, EdgeType::Simple),
            ),
            final(self).nodes() == old(self).nodes(),
            final(self).inputs@ == old(self).inputs@,
            final(self).outputs@ == old(self).outputs@,
            final(self).edge_map().dom().len() == old(self).edge_map().dom().len() + 1,
            forall|w: int|
                !(old(self).allocated(w) && edge_connects(
                    (source as nat, target as nat, EdgeType::Simple),
                    old(self).input_at(w)->0 as nat,
                    old(self).output_at(w)->0 as nat,
                )) ==> #[trigger] final(self).wire_state(w) == old(self).wire_state(w) && (old(self).singly_bare(w) ==> final(self).singly_bare(w)),
            forall|x: nat|
                x != source as nat && x != target as nat ==> edges_at(final(self).edge_map(), x)
                    =~= edges_at(old(self).edge_map(), x),
            edges_at(final(self).edge_map(), source as nat) =~= edges_at(
                old(self).edge_map(),
                source as nat,
            ).insert(e as nat),
            edges_at(final(self).edge_map(), target as nat) =~= edges_at(
                old(self).edge_map(),
                target as nat,
            ).insert(e as nat),
    {
        self.add_edge_of_type(source, target, EdgeType::Simple)
    }

    /// The handle of some edge between the two vertices, in either
    /// orientation, or None when no edge connects them.
    pub fn edge_index(&self, source: usize, target: usize) -> (r: Option<usize>)
        ensures
            match r {
                Some(e) => self.edge_map().dom().contains(e as nat) && edge_connects(
                    self.edge_map()[e as nat],
                    source as nat,
                    target as nat,
                ),
                None => !self.direct_edge_between(source as nat, target as nat),
            },
    {
        store_find_edge(&self.store, source, target)
    }

    /// Unregisters the input boundary of a wire; the vertex itself stays.
    pub fn remove_input(&mut self, qubit: usize)
        requires
            old(self).wf(),
        ensures
            final(self).wf(),
            final(self).nodes() == old(self).nodes(),
            final(self).edge_map() == old(self).edge_map(),
            final(self).wire_count() == old(self).wire_count(),
            final(self).input_at(qubit as int) is None,
            forall|w: int| w != qubit ==> final(self).input_at(w) == old(self).input_at(w),
            forall|w: int| final(self).output_at(w) == old(self).output_at(w),
    {
        if qubit < self.inputs.len() {
            self.inputs.set(qubit, None);
            proof {
                let s = *self;
                assert forall|w: int|
                    0 <= w < s.inputs@.len() && (#[trigger] s.inputs@[w]) is Some implies s
                    .is_live_boundary(s.inputs@[w]->0) by {
                    assert(s.inputs@[w] == old(self).inputs@[w]);
                    assert(old(self).is_live_boundary(old(self).inputs@[w]->0));
                }
            }
        }
    }

    /// Unregisters the output boundary of a wire; the vertex itself stays.
    pub fn remove_output(&mut self, qubit: usize)
        requires
            old(self).wf(),
        ensures
            final(self).wf(),
            final(self).nodes() == old(self).nodes(),
            final(self).edge_map() == old(self).edge_map(),
            final(self).wire_count() == old(self).wire_count(),
            final(self).output_at(qubit as int) is None,
            forall|w: int| w != qubit ==> final(self).output_at(w) == old(self).output_at(w),
            forall|w: int| final(self).input_at(w) == old(self).input_at(w),
    {
        if qubit < self.outputs.len() {
            self.outputs.set(qubit, None);
            proof {
                let s = *self;
                assert forall|w: int|
                    0 <= w < s.outputs@.len() && (#[trigger] s.outputs@[w]) is Some implies s
                    .is_live_boundary(s.outputs@[w]->0) by {
                    assert(s.outputs@[w] == old(self).outputs@[w]);
                    assert(old(self).is_live_boundary(old(self).outputs@[w]->0));
                }
            }
        }
    }

    /// The central composition primitive: on a bare wire, removes the direct
    /// edge, inserts the vertex, and connects it to both boundaries, so that
    /// the wire becomes occupied by exactly one interior vertex. On any
    /// other wire it fails and changes nothing.
    pub fn insert_on_wire(&mut self, vertex: Vertex, wire: usize) -> (r: Result<
        usize,
        GraphError,
    >)
        requires
            old(self).wf(),
        ensures
            final(self).wf(),
            r is Ok <==> old(self).bare(wire as int),
            r matches Err(e) ==> *final(self) == *old(self) && e == (GraphError::Structure {
                wire,
                found: old(self).wire_state(wire as int),
            }),
            r matches Ok(h) ==> {
                &&& !old(self).nodes().contains_key(h as nat)
                &&& final(self).nodes() == old(self).nodes().insert(h as nat, vertex)
                &&& final(self).nodes().dom().len() == old(self).nodes().dom().len() + 1
                &&& final(self).edge_map().dom().len() == old(self).edge_map().dom().len() + 1
                &&& spider_keys(final(self).nodes()) =~= (if vertex.vertex_type != VertexType::B {
                    spider_keys(old(self).nodes()).insert(h as nat)
                } else {
                    spider_keys(old(self).nodes())
                })
                &&& forall|w: int|
                    final(self).input_at(w) == old(self).input_at(w) && final(self).output_at(w)
                        == old(self).output_at(w)
                &&& final(self).wire_count() == old(self).wire_count()
                &&& (old(self).singly_bare(wire as int) ==> final(self).occupied(wire as int))
                &&& final(self).direct_edge_between(
                    old(self).input_at(wire as int)->0 as nat,
                    h as nat,
                )
                &&& final(self).direct_edge_between(
                    h as nat,
                    old(self).output_at(wire as int)->0 as nat,
                )
                &&& forall|w: int|
                    w != wire ==> final(self).wire_state(w) == old(self).wire_state(w)
                &&& forall|w: int|
                    w != wire && old(self).singly_bare(w) ==> final(self).singly_bare(w)
                &&& forall|k: nat|
                    #[trigger] old(self).nodes().contains_key(k) ==> final(self).nodes().contains_key(k) && final(self).nodes()[k] == old(self).nodes()[k]
                &&& forall|x: nat|
                    old(self).nodes().contains_key(x) && x != old(self).input_at(
                        wire as int,
                    )->0 as nat && x != old(self).output_at(wire as int)->0 as nat ==> edges_at(
                        final(self).edge_map(),
                        x,
                    ) =~= edges_at(old(self).edge_map(), x)
                &&& forall|e: nat|
                    #[trigger] old(self).edge_map().contains_key(e) && !edge_connects(
                        old(self).edge_map()[e],
                        old(self).input_at(wire as int)->0 as nat,
                        old(self).output_at(wire as int)->0 as nat,
                    ) ==> final(self).edge_map().contains_key(e) && final(self).edge_map()[e] == old(self).edge_map()[e]
                &&& forall|e: nat|
                    #[trigger] final(self).edge_map().dom().contains(e) && (final(self).edge_map()[e].0 == h as nat || final(self).edge_map()[e].1 == h as nat)
                        ==> edge_connects(
                        final(self).edge_map()[e],
                        old(self).input_at(wire as int)->0 as nat,
                        h as nat,
                    ) || edge_connects(
                        final(self).edge_map()[e],
                        h as nat,
                        old(self).output_at(wire as int)->0 as nat,
                    )
            },
    {
        let inp = self.input_index(wire);
        let outp = self.output_index(wire);
        match (inp, outp) {
            (Some(ih), Some(oh)) => {
                match store_find_edge(&self.store, ih, oh) {
                    Some(e) => {
                        proof {
                            assert(old(self).bare(wire as int)) by {
                                assert(self.edge_map().dom().contains(e as nat) && edge_connects(
                                    self.edge_map()[e as nat],
                                    ih as nat,
                                    oh as nat,
                                ));
                            }
                        }
                        let _removed = store_remove_edge(&mut self.store, e);
                        let h = store_add_node(&mut self.store, vertex);
                        let e1 = store_add_edge(&mut self.store, ih, h, EdgeType::Simple);
                        let e2 = store_add_edge(&mut self.store, h, oh, EdgeType::Simple);
                        proof {
                            self.lemma_wire_occupied(
                                *old(self),
                                vertex,
                                wire as int,
                                ih,
                                oh,
                                h,
                                e as nat,
                                e1 as nat,
                                e2 as nat,
                            );
                        }
                        Ok(h)
                    },
                    None => Err(GraphError::Structure { wire, found: WireState::Occupied }),
                }
            },
            (None, None) => Err(GraphError::Structure { wire, found: WireState::Unallocated }),
            _ => Err(GraphError::Structure { wire, found: WireState::Partial }),
        }
    }

    /// The effect of occupying a bare wire: the direct edge `e` went away,
    /// the interior vertex came in under the fresh handle `h`, and the two
    /// boundary edges `e1` and `e2` joined it to the wire's boundaries.
    proof fn lemma_wire_occupied(&self, orig: Graph, vertex: Vertex, wire: int, ih: usize, oh: usize, h: usize, e: nat, e1: nat, e2: nat)
        requires
            orig.wf(),
            orig.input_at(wire) == Some(ih),
            orig.output_at(wire) == Some(oh),
            orig.edge_map().dom().contains(e),
            edge_connects(orig.edge_map()[e], ih as nat, oh as nat),
            !orig.nodes().contains_key(h as nat),
            !orig.edge_map().remove(e).dom().contains(e1),
            !orig.edge_map().remove(e).insert(e1, (ih as nat, h as nat, EdgeType::Simple)).dom()
                .contains(e2),
            self.nodes() == orig.nodes().insert(h as nat, vertex),
            self.edge_map() == orig.edge_map().remove(e).insert(
                e1,
                (ih as nat, h as nat, EdgeType::Simple),
            ).insert(e2, (h as nat, oh as nat, EdgeType::Simple)),
            self.inputs@ == orig.inputs@,
            self.outputs@ == orig.outputs@,
        ensures
            self.wf(),
            self.nodes().dom().len() == orig.nodes().dom().len() + 1,
            self.edge_map().dom().len() == orig.edge_map().dom().len() + 1,
            spider_keys(self.nodes()) =~= (if vertex.vertex_type != VertexType::B {
                spider_keys(orig.nodes()).insert(h as nat)
            } else {
                spider_keys(orig.nodes())
            }),
            orig.singly_bare(wire) ==> self.occupied(wire),
            self.direct_edge_between(ih as nat, h as nat),
            self.direct_edge_between(h as nat, oh as nat),
            forall|w: int| w != wire ==> self.wire_state(w) == orig.wire_state(w),
            forall|w: int| w != wire && orig.singly_bare(w) ==> self.singly_bare(w),
            forall|k: nat|
                orig.nodes().contains_key(k) ==> self.nodes().contains_key(k) && self.nodes()[k]
                    == orig.nodes()[k],
            forall|x: nat|
                orig.nodes().contains_key(x) && x != ih as nat && x != oh as nat ==> edges_at(
                    self.edge_map(),
                    x,
                ) =~= edges_at(orig.edge_map(), x),
            forall|e3: nat|
                #[trigger] orig.edge_map().contains_key(e3) && !edge_connects(
                    orig.edge_map()[e3],
                    ih as nat,
                    oh as nat,
                ) ==> self.edge_map().contains_key(e3) && self.edge_map()[e3] == orig.edge_map()[e3],
            forall|e3: nat|
                #[trigger] self.edge_map().dom().contains(e3) && (self.edge_map()[e3].0 == h as nat
                    || self.edge_map()[e3].1 == h as nat) ==> edge_connects(
                    self.edge_map()[e3],
                    ih as nat,
                    h as nat,
                ) || edge_connects(self.edge_map()[e3], h as nat, oh as nat),
    {
        let s = *self;
        assert forall|e3: nat|
            #[trigger] s.edge_map().dom().contains(e3) && (s.edge_map()[e3].0 == h as nat
                || s.edge_map()[e3].1 == h as nat) implies edge_connects(
            s.edge_map()[e3],
            ih as nat,
            h as nat,
        ) || edge_connects(s.edge_map()[e3], h as nat, oh as nat) by {
            if e3 != e1 && e3 != e2 {
                assert(orig.edge_map().dom().contains(e3));
                assert(s.edge_map()[e3] == orig.edge_map()[e3]);
                assert(orig.nodes().contains_key(orig.edge_map()[e3].0));
                assert(orig.nodes().contains_key(orig.edge_map()[e3].1));
            }
        }
        assert forall|e3: nat|
            #[trigger] orig.edge_map().contains_key(e3) && !edge_connects(
                orig.edge_map()[e3],
                ih as nat,
                oh as nat,
            ) implies s.edge_map().contains_key(e3) && s.edge_map()[e3] == orig.edge_map()[e3] by {
            assert(e3 != e);
            assert(e3 != e1 && e3 != e2);
        }
        assert(orig.is_live_boundary(ih));
        assert(orig.is_live_boundary(oh));
        assert(e2 != e1);
        assert(h as nat != ih as nat && h as nat != oh as nat);
        // Well-formedness.
        assert(s.boundaries_valid()) by {
            assert forall|w: int|
                0 <= w < s.inputs@.len() && (#[trigger] s.inputs@[w]) is Some implies s
                .is_live_boundary(s.inputs@[w]->0) by {
                assert(orig.inputs@[w] == s.inputs@[w]);
                assert(orig.is_live_boundary(orig.inputs@[w]->0));
            }
            assert forall|w: int|
                0 <= w < s.outputs@.len() && (#[trigger] s.outputs@[w]) is Some implies s
                .is_live_boundary(s.outputs@[w]->0) by {
                assert(orig.outputs@[w] == s.outputs@[w]);
                assert(orig.is_live_boundary(orig.outputs@[w]->0));
            }
        }
        assert(s.boundaries_injective()) by {
            assert(s.inputs@ =~= orig.inputs@);
            assert(s.outputs@ =~= orig.outputs@);
        }
        assert(s.edges_live()) by {
            assert forall|ee: nat| s.edge_map().dom().contains(ee) implies s.nodes().contains_key(
                (#[trigger] s.edge_map()[ee]).0,
            ) && s.nodes().contains_key(s.edge_map()[ee].1) by {
                if ee != e1 && ee != e2 {
                    assert(orig.edge_map()[ee] == s.edge_map()[ee]);
                    assert(orig.nodes().contains_key(orig.edge_map()[ee].0));
                    assert(orig.nodes().contains_key(orig.edge_map()[ee].1));
                }
            }
        }
        // Counts.
        assert(s.nodes().dom().len() == orig.nodes().dom().len() + 1) by {
            assert(s.nodes().dom() =~= orig.nodes().dom().insert(h as nat));
        }
        assert(s.edge_map().dom().len() == orig.edge_map().dom().len() + 1) by {
            assert(s.edge_map().dom() =~= orig.edge_map().dom().remove(e).insert(e1).insert(e2));
            assert(orig.edge_map().dom().remove(e).len() == orig.edge_map().dom().len() - 1);
            assert(!orig.edge_map().dom().remove(e).insert(e1).contains(e2));
        }
        assert(spider_keys(s.nodes()) =~= (if vertex.vertex_type != VertexType::B {
            spider_keys(orig.nodes()).insert(h as nat)
        } else {
            spider_keys(orig.nodes())
        })) by {
            lemma_spider_keys_insert(orig.nodes(), h as nat, vertex);
        }
        // The two new boundary edges.
        assert(s.direct_edge_between(ih as nat, h as nat)) by {
            assert(s.edge_map().dom().contains(e1) && edge_connects(s.edge_map()[e1], ih as nat, h as nat));
        }
        assert(s.direct_edge_between(h as nat, oh as nat)) by {
            assert(s.edge_map().dom().contains(e2) && edge_connects(s.edge_map()[e2], h as nat, oh as nat));
        }
        // When the direct edge was unique, the wire is now occupied.
        if orig.singly_bare(wire) {
            assert(!s.direct_edge_between(ih as nat, oh as nat)) by {
                assert forall|ee: nat|
                    s.edge_map().dom().contains(ee) implies !edge_connects(
                    #[trigger] s.edge_map()[ee],
                    ih as nat,
                    oh as nat,
                ) by {
                    if ee != e1 && ee != e2 {
                        assert(orig.edge_map()[ee] == s.edge_map()[ee]);
                        if edge_connects(orig.edge_map()[ee], ih as nat, oh as nat) {
                            assert(ee == e);
                        }
                    }
                }
            }
        }
        // Other wires are untouched.
        assert forall|w: int| w != wire implies s.wire_state(w) == orig.wire_state(w) by {
            if orig.allocated(w) {
                let x = orig.input_at(w)->0 as nat;
                let y = orig.output_at(w)->0 as nat;
                assert(orig.is_live_boundary(orig.input_at(w)->0));
                assert(orig.is_live_boundary(orig.output_at(w)->0));
                Self::lemma_connecting_set_unchanged(orig, s, wire, ih, oh, h, e, e1, e2, x, y);
            }
        }
        assert forall|w: int| w != wire && orig.singly_bare(w) implies s.singly_bare(w) by {
            let x = orig.input_at(w)->0 as nat;
            let y = orig.output_at(w)->0 as nat;
            assert(orig.is_live_boundary(orig.input_at(w)->0));
            assert(orig.is_live_boundary(orig.output_at(w)->0));
            Self::lemma_connecting_set_unchanged(orig, s, wire, ih, oh, h, e, e1, e2, x, y);
        }
        // Edges at any vertex away from this wire are untouched.
        assert forall|x: nat|
            orig.nodes().contains_key(x) && x != ih as nat && x != oh as nat implies edges_at(
            s.edge_map(),
            x,
        ) =~= edges_at(orig.edge_map(), x) by {
            assert forall|ee: nat| #[trigger]
                edges_at(s.edge_map(), x).contains(ee) implies edges_at(orig.edge_map(), x).contains(
                ee,
            ) by {
                assert(ee != e1 && ee != e2);
                assert(orig.edge_map()[ee] == s.edge_map()[ee]);
            }
            assert forall|ee: nat| #[trigger]
                edges_at(orig.edge_map(), x).contains(ee) implies edges_at(s.edge_map(), x).contains(
                ee,
            ) by {
                assert(edge_connects(orig.edge_map()[e], ih as nat, oh as nat));
                assert(ee != e);
                assert(ee != e1 && ee != e2);
            }
        }
    }

    /// After occupying one wire, the set of edges that connect any pair of
    /// old vertices away from that wire's boundaries is unchanged.
    proof fn lemma_connecting_set_unchanged(orig: Graph, s: Graph, wire: int, ih: usize, oh: usize, h: usize, e: nat, e1: nat, e2: nat, x: nat, y: nat)
        requires
            orig.wf(),
            orig.input_at(wire) == Some(ih),
            orig.output_at(wire) == Some(oh),
            orig.edge_map().dom().contains(e),
            edge_connects(orig.edge_map()[e], ih as nat, oh as nat),
            !orig.nodes().contains_key(h as nat),
            !orig.edge_map().remove(e).dom().contains(e1),
            !orig.edge_map().remove(e).insert(e1, (ih as nat, h as nat, EdgeType::Simple)).dom()
                .contains(e2),
            s.edge_map() == orig.edge_map().remove(e).insert(
                e1,
                (ih as nat, h as nat, EdgeType::Simple),
            ).insert(e2, (h as nat, oh as nat, EdgeType::Simple)),
            orig.nodes().contains_key(x),
            orig.nodes().contains_key(y),
            !(x == ih as nat && y == oh as nat) && !(x == oh as nat && y == ih as nat),
        ensures
            s.direct_edge_between(x, y) == orig.direct_edge_between(x, y),
            forall|ee: nat|
                s.edge_map().dom().contains(ee) && edge_connects(#[trigger] s.edge_map()[ee], x, y)
                    <==> orig.edge_map().dom().contains(ee) && edge_connects(
                    #[trigger] orig.edge_map()[ee],
                    x,
                    y,
                ),
    {
        assert(h as nat != x && h as nat != y);
        assert forall|ee: nat|
            s.edge_map().dom().contains(ee) && edge_connects(#[trigger] s.edge_map()[ee], x, y)
                <==> orig.edge_map().dom().contains(ee) && edge_connects(
                #[trigger] orig.edge_map()[ee],
                x,
                y,
            ) by {
            if ee == e1 || ee == e2 {
                assert(!(s.edge_map().dom().contains(ee) && edge_connects(s.edge_map()[ee], x, y)));
                if orig.edge_map().dom().contains(ee) && edge_connects(orig.edge_map()[ee], x, y) {
                    assert(ee != e1 || !orig.edge_map().remove(e).dom().contains(e1));
                    assert(ee == e);
                    assert(edge_connects(orig.edge_map()[e], ih as nat, oh as nat));
                    assert(false);
                }
            } else if ee == e {
                assert(!s.edge_map().dom().contains(ee));
                if orig.edge_map().dom().contains(e) && edge_connects(orig.edge_map()[e], x, y) {
                    assert(edge_connects(orig.edge_map()[e], ih as nat, oh as nat));
                    assert(false);
                }
            } else {
                assert(s.edge_map().dom().contains(ee) <==> orig.edge_map().dom().contains(ee));
                if s.edge_map().dom().contains(ee) {
                    assert(s.edge_map()[ee] == orig.edge_map()[ee]);
                }
            }
        }
        if orig.direct_edge_between(x, y) {
            let w = choose|ee: nat|
                orig.edge_map().dom().contains(ee) && edge_connects(#[trigger] orig.edge_map()[ee], x, y);
            assert(s.edge_map().dom().contains(w) && edge_connects(s.edge_map()[w], x, y));
        }
        if s.direct_edge_between(x, y) {
            let w = choose|ee: nat|
                s.edge_map().dom().contains(ee) && edge_connects(#[trigger] s.edge_map()[ee], x, y);
            assert(orig.edge_map().dom().contains(w) && edge_connects(orig.edge_map()[w], x, y));
        }
    }

    /// Removes a vertex if it is live, together with every incident edge,
    /// and unregisters it from any wire boundary it served. No other handle
    /// is renumbered, invalidated, or has its payload changed.
    pub fn remove_vertex(&mut self, index: usize) -> (r: Option<Vertex>)
        requires
            old(self).wf(),
        ensures
            final(self).wf(),
            match r {
                Some(v) => old(self).nodes().contains_pair(index as nat, v),
                None => !old(self).nodes().contains_key(index as nat),
            },
            final(self).nodes() == old(self).nodes().remove(index as nat),
            final(self).edge_map() == edges_avoiding(old(self).edge_map(), index as nat),
            forall|k: nat|
                k != index as nat ==> (final(self).nodes().contains_key(k) <==> old(self).nodes().contains_key(k)),
            forall|k: nat|
                k != index as nat && old(self).nodes().contains_key(k) ==> final(self).nodes()[k]
                    == old(self).nodes()[k],
            final(self).wire_count() == old(self).wire_count(),
            forall|w: int|
                final(self).input_at(w) == (if old(self).input_at(w) == Some(index) {
                    None
                } else {
                    old(self).input_at(w)
                }),
            forall|w: int|
                final(self).output_at(w) == (if old(self).output_at(w) == Some(index) {
                    None
                } else {
                    old(self).output_at(w)
                }),
    {
        let r = store_remove_node(&mut self.store, index);
        let ghost mid = *self;
        let mut w: usize = 0;
        while w < self.inputs.len()
            invariant
                self.inputs@.len() == mid.inputs@.len(),
                self.outputs@ == mid.outputs@,
                self.store == mid.store,
                w <= self.inputs@.len(),
                forall|w2: int|
                    0 <= w2 < w ==> #[trigger] self.inputs@[w2] == (if mid.inputs@[w2] == Some(
                        index,
                    ) {
                        None
                    } else {
                        mid.inputs@[w2]
                    }),
                forall|w2: int|
                    w <= w2 < self.inputs@.len() ==> #[trigger] self.inputs@[w2]
                        == mid.inputs@[w2],
            decreases self.inputs@.len() - w,
        {
            match self.inputs[w] {
                Some(hh) => {
                    if hh == index {
                        self.inputs.set(w, None);
                    }
                },
                None => {},
            }
            w = w + 1;
        }
        let ghost mid2 = *self;
        let mut w: usize = 0;
        while w < self.outputs.len()
            invariant
                self.outputs@.len() == mid.outputs@.len(),
                self.inputs@ == mid2.inputs@,
                self.store == mid.store,
                w <= self.outputs@.len(),
                forall|w2: int|
                    0 <= w2 < w ==> #[trigger] self.outputs@[w2] == (if mid.outputs@[w2] == Some(
                        index,
                    ) {
                        None
                    } else {
                        mid.outputs@[w2]
                    }),
                forall|w2: int|
                    w <= w2 < self.outputs@.len() ==> #[trigger] self.outputs@[w2]
                        == mid.outputs@[w2],
            decreases self.outputs@.len() - w,
        {
            match self.outputs[w] {
                Some(hh) => {
                    if hh == index {
                        self.outputs.set(w, None);
                    }
                },
                None => {},
            }
            w = w + 1;
        }
        proof {
            let s = *self;
            let orig = *old(self);
            assert(s.boundaries_valid()) by {
                assert forall|w2: int|
                    0 <= w2 < s.inputs@.len() && (#[trigger] s.inputs@[w2]) is Some implies s
                    .is_live_boundary(s.inputs@[w2]->0) by {
                    assert(s.inputs@[w2] == orig.inputs@[w2]);
                    assert(orig.is_live_boundary(orig.inputs@[w2]->0));
                    assert(s.inputs@[w2]->0 != index);
                }
                assert forall|w2: int|
                    0 <= w2 < s.outputs@.len() && (#[trigger] s.outputs@[w2]) is Some implies s
                    .is_live_boundary(s.outputs@[w2]->0) by {
                    assert(s.outputs@[w2] == orig.outputs@[w2]);
                    assert(orig.is_live_boundary(orig.outputs@[w2]->0));
                    assert(s.outputs@[w2]->0 != index);
                }
            }
            assert(s.boundaries_injective()) by {
                assert forall|w1: int, w2: int|
                    0 <= w1 < s.inputs@.len() && 0 <= w2 < s.inputs@.len() && w1 != w2
                        && (#[trigger] s.inputs@[w1]) is Some && (#[trigger] s.inputs@[w2])
                        is Some implies s.inputs@[w1]->0 != s.inputs@[w2]->0 by {
                    assert(s.inputs@[w1] == orig.inputs@[w1] && s.inputs@[w2] == orig.inputs@[w2]);
                }
                assert forall|w1: int, w2: int|
                    0 <= w1 < s.outputs@.len() && 0 <= w2 < s.outputs@.len() && w1 != w2
                        && (#[trigger] s.outputs@[w1]) is Some && (#[trigger] s.outputs@[w2])
                        is Some implies s.outputs@[w1]->0 != s.outputs@[w2]->0 by {
                    assert(s.outputs@[w1] == orig.outputs@[w1] && s.outputs@[w2]
                        == orig.outputs@[w2]);
                }
                assert forall|w1: int, w2: int|
                    0 <= w1 < s.inputs@.len() && 0 <= w2 < s.outputs@.len()
                        && (#[trigger] s.inputs@[w1]) is Some && (#[trigger] s.outputs@[w2])
                        is Some implies s.inputs@[w1]->0 != s.outputs@[w2]->0 by {
                    assert(s.inputs@[w1] == orig.inputs@[w1] && s.outputs@[w2]
                        == orig.outputs@[w2]);
                }
            }
            assert(s.edges_live()) by {
                assert forall|ee: nat| s.edge_map().dom().contains(ee) implies s.nodes().contains_key(
                    (#[trigger] s.edge_map()[ee]).0,
                ) && s.nodes().contains_key(s.edge_map()[ee].1) by {
                    assert(orig.edge_map().dom().contains(ee));
                    assert(s.edge_map()[ee] == orig.edge_map()[ee]);
                    assert(orig.nodes().contains_key(orig.edge_map()[ee].0));
                    assert(orig.nodes().contains_key(orig.edge_map()[ee].1));
                }
            }
            assert(s.edge_map().dom().finite()) by {
                vstd::set_lib::lemma_len_subset(s.edge_map().dom(), orig.edge_map().dom());
            }
        }
        r
    }

    /// Removes one edge between the pair if one exists, in either
    /// orientation, and returns its type; fails with a lookup error, and
    /// changes nothing, when no edge connects them.
    pub fn remove_edge(&mut self, source: usize, target: usize) -> (r: Result<
        EdgeType,
        GraphError,
    >)
        requires
            old(self).wf(),
        ensures
            final(self).wf(),
            r is Ok <==> old(self).direct_edge_between(source as nat, target as nat),
            r matches Err(err) ==> err == (GraphError::Lookup { source, target }) && *final(self)
                == *old(self),
            r matches Ok(t) ==> exists|e: nat|
                {
                    &&& #[trigger] old(self).edge_map().dom().contains(e)
                    &&& edge_connects(old(self).edge_map()[e], source as nat, target as nat)
                    &&& old(self).edge_map()[e].2 == t
                    &&& final(self).edge_map() == old(self).edge_map().remove(e)
                },
            final(self).nodes() == old(self).nodes(),
            final(self).inputs@ == old(self).inputs@,
            final(self).outputs@ == old(self).outputs@,
            r is Ok ==> final(self).edge_map().dom().len() == old(self).edge_map().dom().len() - 1,
    {
        match store_find_edge(&self.store, source, target) {
            Some(e) => {
                match store_remove_edge(&mut self.store, e) {
                    Some(t) => {
                        proof {
                            let s = *self;
                            let orig = *old(self);
                            assert(s.edge_map().dom().finite()) by {
                                vstd::set_lib::lemma_len_subset(s.edge_map().dom(), orig.edge_map().dom());
                            }
                            assert(s.boundaries_valid()) by {
                                assert forall|w: int|
                                    0 <= w < s.inputs@.len() && (#[trigger] s.inputs@[w])
                                        is Some implies s.is_live_boundary(s.inputs@[w]->0) by {
                                    assert(orig.is_live_boundary(orig.inputs@[w]->0));
                                }
                                assert forall|w: int|
                                    0 <= w < s.outputs@.len() && (#[trigger] s.outputs@[w])
                                        is Some implies s.is_live_boundary(s.outputs@[w]->0) by {
                                    assert(orig.is_live_boundary(orig.outputs@[w]->0));
                                }
                            }
                            assert(s.edges_live()) by {
                                assert forall|ee: nat|
                                    s.edge_map().dom().contains(ee) implies s.nodes().contains_key(
                                    (#[trigger] s.edge_map()[ee]).0,
                                ) && s.nodes().contains_key(s.edge_map()[ee].1) by {
                                    assert(orig.edge_map()[ee] == s.edge_map()[ee]);
                                    assert(orig.nodes().contains_key(orig.edge_map()[ee].0));
                                    assert(orig.nodes().contains_key(orig.edge_map()[ee].1));
                                }
                            }
                            assert(old(self).direct_edge_between(source as nat, target as nat))
                                by {
                                assert(orig.edge_map().dom().contains(e as nat) && edge_connects(
                                    orig.edge_map()[e as nat],
                                    source as nat,
                                    target as nat,
                                ));
                            }
                        }
                        Ok(t)
                    },
                    None => unreached(),
                }
            },
            None => Err(GraphError::Lookup { source, target }),
        }
    }

    /// Removes the direct edge of a bare wire, leaving both boundaries in
    /// place. Fails, and changes nothing, unless the wire is bare: on an
    /// occupied wire there is no direct edge, and no unrelated edge is ever
    /// deleted.
    pub fn remove_wire(&mut self, wire: usize) -> (r: Result<EdgeType, GraphError>)
        requires
            old(self).wf(),
        ensures
            final(self).wf(),
            r is Ok <==> old(self).bare(wire as int),
            r matches Err(err) ==> *final(self) == *old(self) && err == (GraphError::Structure {
                wire,
                found: old(self).wire_state(wire as int),
            }),
            r is Ok ==> {
                &&& final(self).nodes() == old(self).nodes()
                &&& final(self).inputs@ == old(self).inputs@
                &&& final(self).outputs@ == old(self).outputs@
                &&& final(self).edge_map().dom().len() == old(self).edge_map().dom().len() - 1
                &&& (old(self).singly_bare(wire as int) ==> final(self).occupied(wire as int))
                &&& exists|e: nat|
                    {
                        &&& #[trigger] old(self).edge_map().dom().contains(e)
                        &&& edge_connects(
                            old(self).edge_map()[e],
                            old(self).input_at(wire as int)->0 as nat,
                            old(self).output_at(wire as int)->0 as nat,
                        )
                        &&& final(self).edge_map() == old(self).edge_map().remove(e)
                    }
            },
    {
        let inp = self.input_index(wire);
        let outp = self.output_index(wire);
        match (inp, outp) {
            (Some(ih), Some(oh)) => {
                match store_find_edge(&self.store, ih, oh) {
                    Some(e) => {
                        proof {
                            assert(old(self).bare(wire as int)) by {
                                assert(self.edge_map().dom().contains(e as nat) && edge_connects(
                                    self.edge_map()[e as nat],
                                    ih as nat,
                                    oh as nat,
                                ));
                            }
                        }
                        match store_remove_edge(&mut self.store, e) {
                            Some(t) => {
                                proof {
                                    let s = *self;
                                    let orig = *old(self);
                                    assert(s.edge_map().dom().finite()) by {
                                        vstd::set_lib::lemma_len_subset(
                                            s.edge_map().dom(),
                                            orig.edge_map().dom(),
                                        );
                                    }
                                    assert(s.boundaries_valid()) by {
                                        assert forall|w: int|
                                            0 <= w < s.inputs@.len() && (#[trigger] s.inputs@[w])
                                                is Some implies s.is_live_boundary(
                                            s.inputs@[w]->0,
                                        ) by {
                                            assert(orig.is_live_boundary(orig.inputs@[w]->0));
                                        }
                                        assert forall|w: int|
                                            0 <= w < s.outputs@.len() && (#[trigger] s.outputs@[w])
                                                is Some implies s.is_live_boundary(
                                            s.outputs@[w]->0,
                                        ) by {
                                            assert(orig.is_live_boundary(orig.outputs@[w]->0));
                                        }
                                    }
                                    assert(s.edges_live()) by {
                                        assert forall|ee: nat|
                                            s.edge_map().dom().contains(ee) implies s
                                            .nodes().contains_key((#[trigger] s.edge_map()[ee]).0)
                                            && s.nodes().contains_key(s.edge_map()[ee].1) by {
                                            assert(orig.edge_map()[ee] == s.edge_map()[ee]);
                                            assert(orig.nodes().contains_key(orig.edge_map()[ee].0));
                                            assert(orig.nodes().contains_key(orig.edge_map()[ee].1));
                                        }
                                    }
                                    if orig.singly_bare(wire as int) {
                                        assert(!s.direct_edge_between(ih as nat, oh as nat)) by {
                                            assert forall|ee: nat|
                                                s.edge_map().dom().contains(ee) implies !edge_connects(
                                                #[trigger] s.edge_map()[ee],
                                                ih as nat,
                                                oh as nat,
                                            ) by {
                                                assert(s.edge_map()[ee] == orig.edge_map()[ee]);
                                                if edge_connects(
                                                    orig.edge_map()[ee],
                                                    ih as nat,
                                                    oh as nat,
                                                ) {
                                                    assert(ee == e as nat);
                                                }
                                            }
                                        }
                                    }
                                }
                                Ok(t)
                            },
                            None => unreached(),
                        }
                    },
                    None => Err(GraphError::Structure { wire, found: WireState::Occupied }),
                }
            },
            (None, None) => Err(GraphError::Structure { wire, found: WireState::Unallocated }),
            _ => Err(GraphError::Structure { wire, found: WireState::Partial }),
        }
    }

    /// Makes every wire in `[0, count)` outside the excluded list bare, by
    /// `add_wire` on each in turn. Stops at the first wire that is partial
    /// or occupied; wires handled before it stay bare.
    #[verifier::loop_isolation(false)]
    pub fn add_wires_excluding(&mut self, count: usize, excluded: &Vec<usize>) -> (r: Result<
        (),
        GraphError,
    >)
        requires
            old(self).wf(),
        ensures
            final(self).wf(),
            final(self).wire_count() >= old(self).wire_count(),
            r is Ok <==> (forall|w: int|
                0 <= w < count && !wire_excluded(excluded@, w) ==> old(self).unallocated(w) || old(self).bare(w)),
            r matches Err(e) ==> (e matches GraphError::Structure { wire: bw, found } ==> {
                &&& 0 <= bw < count
                &&& !wire_excluded(excluded@, bw as int)
                &&& found == old(self).wire_state(bw as int)
                &&& forall|w: int|
                    0 <= w < bw && !wire_excluded(excluded@, w) ==> #[trigger] final(self).wire_state(w) == WireState::Bare
                &&& forall|w: int|
                    (w < 0 || w >= bw as int || wire_excluded(excluded@, w)) ==> #[trigger] final(self).wire_state(w) == old(self).wire_state(w) && final(self).input_at(w) == old(self).input_at(w) && final(self).output_at(w) == old(self).output_at(w)
            }) && (e is Structure),
            r is Ok ==> {
                &&& forall|w: int|
                    0 <= w < count && !wire_excluded(excluded@, w) ==> #[trigger] final(self).wire_state(w) == WireState::Bare
                &&& forall|w: int|
                    0 <= w < count && !wire_excluded(excluded@, w) && old(self).unallocated(w)
                        ==> final(self).singly_bare(w)
                &&& forall|w: int|
                    (w < 0 || w >= count || wire_excluded(excluded@, w)) ==> #[trigger] final(self).wire_state(w) == old(self).wire_state(w) && final(self).input_at(w) == old(self).input_at(w) && final(self).output_at(w) == old(self).output_at(w) && (old(self).singly_bare(w) ==> final(self).singly_bare(w))
                &&& final(self).nodes().dom().len() == old(self).nodes().dom().len() + 2
                    * fresh_wire_count(*old(self), count as int, excluded@)
                &&& final(self).edge_map().dom().len() == old(self).edge_map().dom().len()
                    + fresh_wire_count(*old(self), count as int, excluded@)
                &&& spider_keys(final(self).nodes()) =~= spider_keys(old(self).nodes())
                &&& forall|k: nat|
                    #[trigger] old(self).nodes().contains_key(k) ==> final(self).nodes().contains_key(k) && final(self).nodes()[k] == old(self).nodes()[k]
                &&& forall|k: nat|
                    #[trigger] final(self).nodes().contains_key(k) && !old(self).nodes().contains_key(k) ==> final(self).nodes()[k] == boundary_vertex()
                &&& forall|e: nat|
                    #[trigger] old(self).edge_map().contains_key(e) ==> final(self).edge_map().contains_key(e) && final(self).edge_map()[e] == old(self).edge_map()[e]
                &&& forall|x: nat|
                    #[trigger] old(self).nodes().contains_key(x) ==> edges_at(
                        final(self).edge_map(),
                        x,
                    ) =~= edges_at(old(self).edge_map(), x)
                &&& (old(self).wire_count() >= count ==> final(self).wire_count() == old(self).wire_count())
                &&& final(self).wire_count() >= old(self).wire_count()
            },
    {
        let mut i: usize = 0;
        while i < count
            invariant
                old(self).wf(),
                self.wf(),
                i <= count,
                forall|w: int|
                    0 <= w < i && !wire_excluded(excluded@, w) ==> (old(self).unallocated(w)
                        || old(self).bare(w)),
                forall|w: int|
                    0 <= w < i && !wire_excluded(excluded@, w) ==> #[trigger] self.wire_state(w)
                        == WireState::Bare,
                forall|w: int|
                    0 <= w < i && !wire_excluded(excluded@, w) && old(self).unallocated(w)
                        ==> self.singly_bare(w),
                forall|w: int|
                    (w < 0 || w >= i || wire_excluded(excluded@, w)) ==> #[trigger] self.wire_state(
                        w,
                    ) == old(self).wire_state(w) && self.input_at(w) == old(self).input_at(w)
                        && self.output_at(w) == old(self).output_at(w) && (old(self).singly_bare(w)
                        ==> self.singly_bare(w)),
                self.nodes().dom().len() == old(self).nodes().dom().len() + 2 * fresh_wire_count(
                    *old(self),
                    i as int,
                    excluded@,
                ),
                self.edge_map().dom().len() == old(self).edge_map().dom().len() + fresh_wire_count(
                    *old(self),
                    i as int,
                    excluded@,
                ),
                spider_keys(self.nodes()) =~= spider_keys(old(self).nodes()),
                forall|k: nat|
                    #[trigger] old(self).nodes().contains_key(k) ==> self.nodes().contains_key(k)
                        && self.nodes()[k] == old(self).nodes()[k],
                forall|k: nat|
                    #[trigger] self.nodes().contains_key(k) && !old(self).nodes().contains_key(k)
                        ==> self.nodes()[k] == boundary_vertex(),
                forall|e: nat|
                    #[trigger] old(self).edge_map().contains_key(e) ==> self.edge_map().contains_key(e)
                        && self.edge_map()[e] == old(self).edge_map()[e],
                forall|x: nat|
                    #[trigger] old(self).nodes().contains_key(x) ==> edges_at(self.edge_map(), x)
                        =~= edges_at(old(self).edge_map(), x),
                old(self).wire_count() >= count ==> self.wire_count() == old(self).wire_count(),
                self.wire_count() >= old(self).wire_count(),
            decreases count - i,
        {
            let skip = contains_wire(excluded, i);
            if !skip {
                let ghost pre = *self;
                match self.add_wire(i) {
                    Ok(()) => {
                        proof {
                            assert(pre.wire_state(i as int) == old(self).wire_state(i as int));
                            assert(pre.unallocated(i as int) == old(self).unallocated(i as int));
                            if pre.bare(i as int) {
                                assert(*self == pre);
                            } else {
                                assert(pre.unallocated(i as int));
                                assert forall|k: nat|
                                    old(self).nodes().contains_key(k) implies self
                                    .nodes().contains_key(k) && self.nodes()[k] == old(self).nodes()[k] by {
                                    assert(pre.nodes().contains_key(k) && pre.nodes()[k] == old(self).nodes()[k]);
                                }
                                assert forall|e2: nat|
                                    old(self).edge_map().contains_key(e2) implies self
                                    .edge_map().contains_key(e2) && self.edge_map()[e2] == old(self).edge_map()[e2] by {
                                    assert(pre.edge_map().contains_key(e2) && pre.edge_map()[e2] == old(self).edge_map()[e2]);
                                }
                                assert forall|k: nat|
                                    self.nodes().contains_key(k) && !old(self).nodes().contains_key(k) implies self.nodes()[k]
                                    == boundary_vertex() by {
                                    if pre.nodes().contains_key(k) {
                                        assert(self.nodes()[k] == pre.nodes()[k]);
                                    }
                                }
                                assert forall|x: nat|
                                    old(self).nodes().contains_key(x) implies edges_at(
                                    self.edge_map(),
                                    x,
                                ) =~= edges_at(old(self).edge_map(), x) by {
                                    assert(pre.nodes().contains_key(x));
                                    assert(edges_at(self.edge_map(), x) =~= edges_at(
                                        pre.edge_map(),
                                        x,
                                    ));
                                    assert(edges_at(pre.edge_map(), x) =~= edges_at(
                                        old(self).edge_map(),
                                        x,
                                    ));
                                }
                            }
                        }
                    },
                    Err(e) => {
                        proof {
                            assert(pre.wire_state(i as int) == old(self).wire_state(i as int));
                            assert(!(old(self).unallocated(i as int) || old(self).bare(
                                i as int,
                            )));
                        }
                        return Err(e);
                    },
                }
            }
            i = i + 1;
            proof {
                assert(fresh_wire_count(*old(self), i as int, excluded@) == fresh_wire_count(
                    *old(self),
                    i as int - 1,
                    excluded@,
                ) + (if !wire_excluded(excluded@, i as int - 1) && old(self).unallocated(
                    i as int - 1,
                ) {
                    1nat
                } else {
                    0nat
                }));
            }
        }
        Ok(())
    }

    /// Makes every wire in `[0, count)` bare; see `add_wires_excluding`.
    pub fn add_wires(&mut self, count: usize) -> (r: Result<(), GraphError>)
        requires
            old(self).wf(),
        ensures
            final(self).wf(),
            final(self).wire_count() >= old(self).wire_count(),
            r is Ok <==> (forall|w: int|
                0 <= w < count ==> old(self).unallocated(w) || old(self).bare(w)),
            r is Ok ==> {
                &&& forall|w: int|
                    0 <= w < count ==> #[trigger] final(self).wire_state(w) == WireState::Bare
                &&& forall|w: int|
                    0 <= w < count && old(self).unallocated(w) ==> final(self).singly_bare(w)
                &&& forall|w: int|
                    (w < 0 || w >= count) ==> #[trigger] final(self).wire_state(w) == old(self).wire_state(w) && final(self).input_at(w) == old(self).input_at(w) && final(self).output_at(w) == old(self).output_at(w)
                &&& final(self).nodes().dom().len() == old(self).nodes().dom().len() + 2
                    * fresh_wire_count(*old(self), count as int, Seq::empty())
                &&& final(self).edge_map().dom().len() == old(self).edge_map().dom().len()
                    + fresh_wire_count(*old(self), count as int, Seq::empty())
                &&& spider_keys(final(self).nodes()) =~= spider_keys(old(self).nodes())
                &&& (old(self).wire_count() >= count ==> final(self).wire_count() == old(self).wire_count())
            },
    {
        let empty: Vec<usize> = Vec::new();
        let r = self.add_wires_excluding(count, &empty);
        match r {
            Ok(()) => Ok(()),
            Err(e) => Err(e),
        }
    }

    /// The handles of all registered input boundaries, in ascending wire
    /// order.
    pub fn input_indices(&self) -> (r: Vec<usize>)
        ensures
            r@ == present_values(self.inputs@),
    {
        collect_present_values(&self.inputs)
    }

    /// The handles of all registered output boundaries, in ascending wire
    /// order.
    pub fn output_indices(&self) -> (r: Vec<usize>)
        ensures
            r@ == present_values(self.outputs@),
    {
        collect_present_values(&self.outputs)
    }

    /// The wires that have an input boundary, in ascending order.
    pub fn input_qubits(&self) -> (r: Vec<usize>)
        ensures
            r@ == present_wires(self.inputs@),
    {
        collect_present_wires(&self.inputs)
    }

    /// The wires that have an output boundary, in ascending order.
    pub fn output_qubits(&self) -> (r: Vec<usize>)
        ensures
            r@ == present_wires(self.outputs@),
    {
        collect_present_wires(&self.outputs)
    }

    /// How many wires have an input boundary.
    pub fn num_inputs(&self) -> (n: usize)
        ensures
            n == present_values(self.inputs@).len(),
    {
        let v = self.input_indices();
        v.len()
    }

    /// How many wires have an output boundary.
    pub fn num_outputs(&self) -> (n: usize)
        ensures
            n == present_values(self.outputs@).len(),
    {
        let v = self.output_indices();
        v.len()
    }

    /// Every live vertex with its handle, in ascending handle order.
    pub fn enumerate_vertices(&self) -> (r: Vec<(usize, Vertex)>)
        ensures
            r@.len() == self.nodes().dom().len(),
            forall|i: int|
                0 <= i < r@.len() ==> self.nodes().contains_pair((#[trigger] r@[i]).0 as nat, r@[i].1),
            forall|i: int, j: int| 0 <= i < j < r@.len() ==> r@[i].0 < r@[j].0,
            forall|k: nat|
                #[trigger] self.nodes().dom().contains(k) ==> exists|i: int|
                    0 <= i < r@.len() && (#[trigger] r@[i]).0 as nat == k,
    {
        store_node_list(&self.store)
    }

    /// Every live edge with its handle, endpoints and type, in ascending
    /// handle order.
    pub fn enumerate_edges(&self) -> (r: Vec<EdgeListing>)
        ensures
            r@.len() == self.edge_map().dom().len(),
            forall|i: int|
                0 <= i < r@.len() ==> self.edge_map().contains_pair(
                    (#[trigger] r@[i]).id as nat,
                    (r@[i].source as nat, r@[i].target as nat, r@[i].edge_type),
                ),
            forall|i: int, j: int| 0 <= i < j < r@.len() ==> r@[i].id < r@[j].id,
            forall|k: nat|
                #[trigger] self.edge_map().dom().contains(k) ==> exists|i: int|
                    0 <= i < r@.len() && (#[trigger] r@[i]).id as nat == k,
    {
        let raw = store_edge_list(&self.store);
        let mut r: Vec<EdgeListing> = Vec::new();
        let mut i: usize = 0;
        while i < raw.len()
            invariant
                i <= raw@.len(),
                r@.len() == i,
                forall|j: int|
                    0 <= j < i ==> #[trigger] r@[j] == (EdgeListing {
                        id: raw@[j].0,
                        source: raw@[j].1,
                        target: raw@[j].2,
                        edge_type: raw@[j].3,
                    }),
            decreases raw@.len() - i,
        {
            let (id, source, target, edge_type) = raw[i];
            r.push(EdgeListing { id, source, target, edge_type });
            i = i + 1;
        }
        proof {
            assert forall|k: nat| #[trigger]
                self.edge_map().dom().contains(k) implies exists|i2: int|
                0 <= i2 < r@.len() && (#[trigger] r@[i2]).id as nat == k by {
                let i2 = choose|i2: int|
                    0 <= i2 < raw@.len() && (#[trigger] raw@[i2]).0 as nat == k;
                assert(r@[i2].id as nat == k);
            }
        }
        r
    }

    /// The payloads of all live vertices, in ascending handle order.
    pub fn vertices(&self) -> (r: Vec<Vertex>)
        ensures
            r@.len() == self.nodes().dom().len(),
            forall|k: nat|
                #[trigger] self.nodes().dom().contains(k) ==> exists|i: int|
                    0 <= i < r@.len() && #[trigger] r@[i] == self.nodes()[k],
    {
        let pairs = store_node_list(&self.store);
        let mut r: Vec<Vertex> = Vec::new();
        let mut i: usize = 0;
        while i < pairs.len()
            invariant
                i <= pairs@.len(),
                r@.len() == i,
                forall|j: int| 0 <= j < i ==> #[trigger] r@[j] == pairs@[j].1,
            decreases pairs@.len() - i,
        {
            let (_, v) = pairs[i];
            r.push(v);
            i = i + 1;
        }
        proof {
            assert forall|k: nat| #[trigger]
                self.nodes().dom().contains(k) implies exists|i2: int|
                0 <= i2 < r@.len() && #[trigger] r@[i2] == self.nodes()[k] by {
                let i2 = choose|i2: int|
                    0 <= i2 < pairs@.len() && (#[trigger] pairs@[i2]).0 as nat == k;
                assert(self.nodes().contains_pair(pairs@[i2].0 as nat, pairs@[i2].1));
                assert(r@[i2] == self.nodes()[k]);
            }
        }
        r
    }

    /// The types of all live edges, in ascending handle order.
    pub fn edges(&self) -> (r: Vec<EdgeType>)
        ensures
            r@.len() == self.edge_map().dom().len(),
            forall|k: nat|
                #[trigger] self.edge_map().dom().contains(k) ==> exists|i: int|
                    0 <= i < r@.len() && #[trigger] r@[i] == self.edge_map()[k].2,
    {
        let raw = store_edge_list(&self.store);
        let mut r: Vec<EdgeType> = Vec::new();
        let mut i: usize = 0;
        while i < raw.len()
            invariant
                i <= raw@.len(),
                r@.len() == i,
                forall|j: int| 0 <= j < i ==> #[trigger] r@[j] == raw@[j].3,
            decreases raw@.len() - i,
        {
            let (_, _, _, t) = raw[i];
            r.push(t);
            i = i + 1;
        }
        proof {
            assert forall|k: nat| #[trigger]
                self.edge_map().dom().contains(k) implies exists|i2: int|
                0 <= i2 < r@.len() && #[trigger] r@[i2] == self.edge_map()[k].2 by {
                let i2 = choose|i2: int|
                    0 <= i2 < raw@.len() && (#[trigger] raw@[i2]).0 as nat == k;
                assert(self.edge_map().contains_pair(
                    raw@[i2].0 as nat,
                    (raw@[i2].1 as nat, raw@[i2].2 as nat, raw@[i2].3),
                ));
                assert(r@[i2] == self.edge_map()[k].2);
            }
        }
        r
    }

    /// A diagram is well formed when it holds at least one non-boundary
    /// vertex and every non-boundary vertex has coordinates assigned.
    pub open spec fn well_formed_diagram(self) -> bool {
        &&& spider_keys(self.nodes()).len() > 0
        &&& forall|k: nat|
            self.nodes().dom().contains(k) && (#[trigger] self.nodes()[k]).vertex_type
                != VertexType::B ==> self.nodes()[k].coords is Some
    }

    /// Whether the diagram is well formed and ready for a consumer.
    pub fn is_well_formed(&self) -> (b: bool)
        requires
            self.wf(),
        ensures
            b == self.well_formed_diagram(),
    {
        let pairs = store_node_list(&self.store);
        let mut has_spider: bool = false;
        let mut all_coords: bool = true;
        let mut i: usize = 0;
        while i < pairs.len()
            invariant
                self.wf(),
                i <= pairs@.len(),
                pairs@.len() == self.nodes().dom().len(),
                forall|j: int|
                    0 <= j < pairs@.len() ==> self.nodes().contains_pair(
                        (#[trigger] pairs@[j]).0 as nat,
                        pairs@[j].1,
                    ),
                forall|k: nat|
                    #[trigger] self.nodes().dom().contains(k) ==> exists|j: int|
                        0 <= j < pairs@.len() && (#[trigger] pairs@[j]).0 as nat == k,
                has_spider == exists|j: int|
                    0 <= j < i && (#[trigger] pairs@[j]).1.vertex_type != VertexType::B,
                all_coords == forall|j: int|
                    0 <= j < i && (#[trigger] pairs@[j]).1.vertex_type != VertexType::B
                        ==> pairs@[j].1.coords is Some,
            decreases pairs@.len() - i,
        {
            let (_, v) = pairs[i];
            match v.vertex_type {
                VertexType::B => {},
                _ => {
                    has_spider = true;
                    if v.coords.is_none() {
                        all_coords = false;
                    }
                },
            }
            proof {
                if pairs@[i as int].1.vertex_type != VertexType::B {
                    assert(has_spider == exists|j: int|
                        0 <= j < i + 1 && (#[trigger] pairs@[j]).1.vertex_type != VertexType::B);
                }
            }
            i = i + 1;
        }
        proof {
            let m = self.nodes();
            if has_spider {
                let j = choose|j: int|
                    0 <= j < pairs@.len() && (#[trigger] pairs@[j]).1.vertex_type != VertexType::B;
                let k = pairs@[j].0 as nat;
                assert(m.contains_pair(k, pairs@[j].1));
                assert(spider_keys(m).contains(k));
                vstd::set_lib::lemma_len_subset(spider_keys(m), m.dom());
                if spider_keys(m).len() == 0 {
                    spider_keys(m).lemma_len0_is_empty();
                }
            } else {
                assert(spider_keys(m) =~= Set::empty()) by {
                    assert forall|k: nat| !(#[trigger] spider_keys(m).contains(k)) by {
                        if m.dom().contains(k) {
                            let j = choose|j: int|
                                0 <= j < pairs@.len() && (#[trigger] pairs@[j]).0 as nat == k;
                            assert(m.contains_pair(pairs@[j].0 as nat, pairs@[j].1));
                            assert(m[k].vertex_type == VertexType::B);
                        }
                    }
                }
            }
            if all_coords {
                assert forall|k: nat|
                    m.dom().contains(k) && (#[trigger] m[k]).vertex_type != VertexType::B implies (
                m[k].coords is Some) by {
                    let j = choose|j: int|
                        0 <= j < pairs@.len() && (#[trigger] pairs@[j]).0 as nat == k;
                    assert(m.contains_pair(pairs@[j].0 as nat, pairs@[j].1));
                }
            } else {
                let j = choose|j: int|
                    0 <= j < pairs@.len() && (#[trigger] pairs@[j]).1.vertex_type != VertexType::B
                        && !(pairs@[j].1.coords is Some);
                assert(m.contains_pair(pairs@[j].0 as nat, pairs@[j].1));
            }
        }
        has_spider && all_coords
    }

    /// Inserting one edge with a fresh handle leaves every direct connection
    /// between two old vertices exactly as it was, unless the new edge joins
    /// that very pair.
    pub proof fn lemma_direct_edges_after_insert(g1: Graph, g2: Graph, e: nat, a: nat, b: nat, t: EdgeType, x: nat, y: nat)
        requires
            !g1.edge_map().dom().contains(e),
            g2.edge_map() == g1.edge_map().insert(e, (a, b, t)),
            !edge_connects((a, b, t), x, y),
        ensures
            g2.direct_edge_between(x, y) == g1.direct_edge_between(x, y),
            forall|e1: nat|
                g2.edge_map().dom().contains(e1) && edge_connects(#[trigger] g2.edge_map()[e1], x, y)
                    ==> g1.edge_map().dom().contains(e1) && g1.edge_map()[e1] == g2.edge_map()[e1],
    {
        if g1.direct_edge_between(x, y) {
            let w = choose|e1: nat|
                g1.edge_map().dom().contains(e1) && edge_connects(#[trigger] g1.edge_map()[e1], x, y);
            assert(g2.edge_map().dom().contains(w) && edge_connects(g2.edge_map()[w], x, y));
        }
    }

    /// Registering a freshly inserted boundary vertex on an empty slot keeps
    /// the invariant: `mid` is the graph before the insertion, `mid2` after
    /// the insertion, and `g` after the slot was written.
    proof fn lemma_boundary_registered(mid: Graph, mid2: Graph, g: Graph, wire: int, h: usize, input_side: bool)
        requires
            mid.wf(),
            0 <= wire < mid.wire_count(),
            !mid.nodes().contains_key(h as nat),
            mid2.nodes() == mid.nodes().insert(h as nat, boundary_vertex()),
            mid2.edge_map() == mid.edge_map(),
            mid2.inputs@ == mid.inputs@,
            mid2.outputs@ == mid.outputs@,
            g.nodes() == mid2.nodes(),
            g.edge_map() == mid2.edge_map(),
            input_side ==> {
                &&& mid.input_at(wire) is None
                &&& g.inputs@ == mid.inputs@.update(wire, Some(h))
                &&& g.outputs@ == mid.outputs@
            },
            !input_side ==> {
                &&& mid.output_at(wire) is None
                &&& g.outputs@ == mid.outputs@.update(wire, Some(h))
                &&& g.inputs@ == mid.inputs@
            },
        ensures
            g.wf(),
    {
        assert(g.boundaries_valid()) by {
            assert forall|w: int|
                0 <= w < g.inputs@.len() && (#[trigger] g.inputs@[w]) is Some implies g
                .is_live_boundary(g.inputs@[w]->0) by {
                if input_side && w == wire {
                    assert(g.nodes()[h as nat] == boundary_vertex());
                } else {
                    assert(mid.inputs@[w] == g.inputs@[w]);
                    assert(mid.is_live_boundary(mid.inputs@[w]->0));
                    assert(mid.inputs@[w]->0 as nat != h as nat);
                }
            }
            assert forall|w: int|
                0 <= w < g.outputs@.len() && (#[trigger] g.outputs@[w]) is Some implies g
                .is_live_boundary(g.outputs@[w]->0) by {
                if !input_side && w == wire {
                    assert(g.nodes()[h as nat] == boundary_vertex());
                } else {
                    assert(mid.outputs@[w] == g.outputs@[w]);
                    assert(mid.is_live_boundary(mid.outputs@[w]->0));
                    assert(mid.outputs@[w]->0 as nat != h as nat);
                }
            }
        }
        assert(g.boundaries_injective()) by {
            assert forall|w1: int, w2: int|
                0 <= w1 < g.inputs@.len() && 0 <= w2 < g.inputs@.len() && w1 != w2
                    && (#[trigger] g.inputs@[w1]) is Some && (#[trigger] g.inputs@[w2])
                    is Some implies g.inputs@[w1]->0 != g.inputs@[w2]->0 by {
                if input_side && w1 == wire {
                    assert(mid.is_live_boundary(mid.inputs@[w2]->0));
                } else if input_side && w2 == wire {
                    assert(mid.is_live_boundary(mid.inputs@[w1]->0));
                } else {
                    assert(g.inputs@[w1] == mid.inputs@[w1] && g.inputs@[w2] == mid.inputs@[w2]);
                }
            }
            assert forall|w1: int, w2: int|
                0 <= w1 < g.outputs@.len() && 0 <= w2 < g.outputs@.len() && w1 != w2
                    && (#[trigger] g.outputs@[w1]) is Some && (#[trigger] g.outputs@[w2])
                    is Some implies g.outputs@[w1]->0 != g.outputs@[w2]->0 by {
                if !input_side && w1 == wire {
                    assert(mid.is_live_boundary(mid.outputs@[w2]->0));
                } else if !input_side && w2 == wire {
                    assert(mid.is_live_boundary(mid.outputs@[w1]->0));
                } else {
                    assert(g.outputs@[w1] == mid.outputs@[w1] && g.outputs@[w2]
                        == mid.outputs@[w2]);
                }
            }
            assert forall|w1: int, w2: int|
                0 <= w1 < g.inputs@.len() && 0 <= w2 < g.outputs@.len()
                    && (#[trigger] g.inputs@[w1]) is Some && (#[trigger] g.outputs@[w2])
                    is Some implies g.inputs@[w1]->0 != g.outputs@[w2]->0 by {
                if input_side && w1 == wire {
                    assert(mid.is_live_boundary(mid.outputs@[w2]->0));
                } else if !input_side && w2 == wire {
                    assert(mid.is_live_boundary(mid.inputs@[w1]->0));
                } else {
                    assert(g.inputs@[w1] == mid.inputs@[w1] && g.outputs@[w2]
                        == mid.outputs@[w2]);
                }
            }
        }
        assert(g.edges_live()) by {
            assert forall|e: nat| g.edge_map().dom().contains(e) implies g.nodes().contains_key(
                (#[trigger] g.edge_map()[e]).0,
            ) && g.nodes().contains_key(g.edge_map()[e].1) by {
                assert(mid.edge_map()[e] == g.edge_map()[e]);
                assert(mid.nodes().contains_key(mid.edge_map()[e].0));
                assert(mid.nodes().contains_key(mid.edge_map()[e].1));
            }
        }
    }
}


} // verus!
