//! The dataflow graph of a subscription and its rewiring while traffic is
//! in flight.
//!
//! Engines are the vertices; each holds the edges it writes to and the
//! edges it reads from by their index in the subscription's arena. An
//! addon is attached or detached by replacing edges: a replacement makes a
//! new edge and puts it in one output slot of an engine and one input slot
//! of an engine.

use vstd::prelude::*;
use crate::config::{ConfigError, Direction};
use crate::control::AddonRequest;
use crate::engine::MrpcEngine;
use crate::error::EngineError;
use crate::ids::IdMint;
use crate::interface::EngineStatus;
use crate::queue::{EdgeArena, EdgeId, EdgeState, ErasedMsg};

verus! {

/// Where an engine is in its life.
#[derive(Clone, Copy, Debug, PartialEq, Eq, Structural, Hash)]
pub enum Lifecycle {
    New,
    Running,
    Suspended,
    Terminated,
}

/// Why a change of the graph is refused.
#[derive(Clone, Copy, Debug, PartialEq, Eq, Structural, Hash)]
pub enum GraphError {
    /// An engine of this name is in the graph already.
    Exists,
    /// No engine of the addon's name is in the graph.
    NotFound,
    /// The replacement of this index, in the list of this direction, names
    /// an engine that is not in the graph, or the engine that is being
    /// detached.
    UnknownEngine(Direction, usize),
    /// The replacement of this index, in the list of this direction, names
    /// an engine that is running: an engine is suspended before its edges
    /// are changed.
    Busy(Direction, usize),
    /// The replacement of this index, in the list of this direction, names
    /// a slot that its engine does not have.
    BadIndex(Direction, usize),
    /// After the replacements an engine would still write to an edge that
    /// the addon reads, or read one that the addon writes.
    StillWired,
    /// No engine id is left.
    OutOfIds,
    /// The description of the graph is not sound.
    Invalid(ConfigError),
}

/// A replacement with its engines found: output slot `idx_from` of vertex
/// `from` and input slot `idx_to` of vertex `to` get a new edge.
#[derive(Clone, Copy, Debug, PartialEq, Eq, Structural, Hash)]
pub struct Rewire {
    pub from: usize,
    pub to: usize,
    pub idx_from: usize,
    pub idx_to: usize,
}

/// An engine in the graph.
pub struct Vertex {
    id: u64,
    name: String,
    engine_type: String,
    state: Lifecycle,
    tx_outputs: Vec<EdgeId>,
    rx_inputs: Vec<EdgeId>,
}

/// What a vertex holds.
pub ghost struct VertexView {
    pub id: u64,
    pub name: Seq<char>,
    pub engine_type: Seq<char>,
    pub state: Lifecycle,
    pub tx: Seq<EdgeId>,
    pub rx: Seq<EdgeId>,
}

impl View for Vertex {
    type V = VertexView;

    closed spec fn view(&self) -> VertexView {
        VertexView {
            id: self.id,
            name: self.name@,
            engine_type: self.engine_type@,
            state: self.state,
            tx: self.tx_outputs@,
            rx: self.rx_inputs@,
        }
    }
}

impl VertexView {
    /// Whether the engine has not terminated.
    pub open spec fn live(self) -> bool {
        self.state != Lifecycle::Terminated
    }

    /// Whether the engine is at rest: new or suspended.
    pub open spec fn quiet(self) -> bool {
        self.state == Lifecycle::New || self.state == Lifecycle::Suspended
    }
}

/// What a graph holds.
pub ghost struct GraphView {
    pub vertices: Seq<VertexView>,
    pub edges: Seq<EdgeState>,
}

/// The edge that a replacement makes: open, and holding what was moved to
/// it.
pub open spec fn fresh_edge(items: Seq<ErasedMsg>) -> EdgeState {
    EdgeState { items, closed: false }
}

/// Edge `e` with nothing under way.
pub open spec fn emptied(e: EdgeState) -> EdgeState {
    EdgeState { items: Seq::empty(), ..e }
}

impl GraphView {
    /// Whether vertex `w` is there and has not terminated.
    pub open spec fn live(self, w: int) -> bool {
        0 <= w < self.vertices.len() && self.vertices[w].live()
    }

    /// Whether `w` is the live vertex of the given name.
    pub open spec fn named(self, w: int, name: Seq<char>) -> bool {
        self.live(w) && self.vertices[w].name == name
    }

    /// Whether a live vertex has the given name.
    pub open spec fn has(self, name: Seq<char>) -> bool {
        exists|w: int| self.named(w, name)
    }

    /// The live vertex of the given name.
    pub open spec fn position(self, name: Seq<char>) -> int {
        choose|w: int| self.named(w, name)
    }

    /// The graph's invariant: live vertices differ in name, vertices differ
    /// in id, and every slot holds an edge of the arena.
    pub open spec fn wf(self) -> bool {
        &&& self.edges.len() <= usize::MAX
        &&& forall|a: int, b: int|
            self.live(a) && self.live(b) && a != b ==> self.vertices[a].name
                != self.vertices[b].name
        &&& forall|a: int, b: int|
            0 <= a < b < self.vertices.len() ==> self.vertices[a].id != self.vertices[b].id
        &&& forall|w: int, i: int|
            0 <= w < self.vertices.len() && 0 <= i < self.vertices[w].tx.len() ==> (
            #[trigger] self.vertices[w].tx[i]).0 < self.edges.len()
        &&& forall|w: int, i: int|
            0 <= w < self.vertices.len() && 0 <= i < self.vertices[w].rx.len() ==> (
            #[trigger] self.vertices[w].rx[i]).0 < self.edges.len()
    }

    /// Whether the vertices that `r` names are live and at rest.
    pub open spec fn rests(self, r: Rewire) -> bool {
        &&& self.live(r.from as int)
        &&& self.live(r.to as int)
        &&& self.vertices[r.from as int].quiet()
        &&& self.vertices[r.to as int].quiet()
    }

    /// Whether the slots that `r` names exist, on live vertices that are
    /// at rest.
    pub open spec fn permits(self, r: Rewire) -> bool {
        &&& self.rests(r)
        &&& r.idx_from < self.vertices[r.from as int].tx.len()
        &&& r.idx_to < self.vertices[r.to as int].rx.len()
    }

    /// Whether the graph permits each of `rs`.
    pub open spec fn permits_all(self, rs: Seq<Rewire>) -> bool {
        forall|k: int| 0 <= k < rs.len() ==> self.permits(#[trigger] rs[k])
    }

    /// The graph after replacement `r`.
    ///
    /// A new edge takes the place of the edge in the output slot and of
    /// the edge in the input slot. With `flush`, what is under way on those
    /// two edges moves to the new edge, in its order: first what was on its
    /// way to the reader, then what the writer had sent.
    pub open spec fn replaced(self, r: Rewire, flush: bool) -> GraphView {
        let from = self.vertices[r.from as int];
        let a = self.vertices[r.to as int].rx[r.idx_to as int].0 as int;
        let b = from.tx[r.idx_from as int].0 as int;
        let fresh = EdgeId(self.edges.len() as usize);
        let moved = if !flush {
            Seq::empty()
        } else if a == b {
            self.edges[a].items
        } else {
            self.edges[a].items + self.edges[b].items
        };
        let drained = if flush {
            self.edges.update(a, emptied(self.edges[a])).update(b, emptied(self.edges[b]))
        } else {
            self.edges
        };
        let written = self.vertices.update(
            r.from as int,
            VertexView { tx: from.tx.update(r.idx_from as int, fresh), ..from },
        );
        let to = written[r.to as int];
        GraphView {
            vertices: written.update(
                r.to as int,
                VertexView { rx: to.rx.update(r.idx_to as int, fresh), ..to },
            ),
            edges: drained.push(fresh_edge(moved)),
        }
    }

    /// The graph after the replacements `rs`, one after another.
    pub open spec fn rewired(self, rs: Seq<Rewire>, flush: bool) -> GraphView
        decreases rs.len(),
    {
        if rs.len() == 0 {
            self
        } else {
            self.rewired(rs.drop_last(), flush).replaced(rs.last(), flush)
        }
    }

    /// Whether some live engine other than `x` writes to an edge that `x`
    /// reads, or reads an edge that `x` writes.
    pub open spec fn reaches(self, x: int) -> bool {
        ||| exists|w: int, i: int|
            self.live(w) && w != x && 0 <= i < self.vertices[w].tx.len()
                && self.vertices[x].rx.contains(#[trigger] self.vertices[w].tx[i])
        ||| exists|w: int, i: int|
            self.live(w) && w != x && 0 <= i < self.vertices[w].rx.len()
                && self.vertices[x].tx.contains(#[trigger] self.vertices[w].rx[i])
    }

    /// Whether `rs` replaces output slot `i` of vertex `w`.
    pub open spec fn replaces_tx(rs: Seq<Rewire>, w: int, i: int) -> bool {
        exists|k: int| 0 <= k < rs.len() && (#[trigger] rs[k]).from == w && rs[k].idx_from == i
    }

    /// Whether `rs` replaces input slot `i` of vertex `w`.
    pub open spec fn replaces_rx(rs: Seq<Rewire>, w: int, i: int) -> bool {
        exists|k: int| 0 <= k < rs.len() && (#[trigger] rs[k]).to == w && rs[k].idx_to == i
    }

    /// Whether `rs` replaces every slot through which a live engine other
    /// than `x` writes to an edge that `x` reads or reads an edge that `x`
    /// writes.
    pub open spec fn cuts(self, x: int, rs: Seq<Rewire>) -> bool {
        &&& forall|w: int, i: int|
            self.live(w) && w != x && 0 <= i < self.vertices[w].tx.len()
                && self.vertices[x].rx.contains(#[trigger] self.vertices[w].tx[i])
                ==> Self::replaces_tx(rs, w, i)
        &&& forall|w: int, i: int|
            self.live(w) && w != x && 0 <= i < self.vertices[w].rx.len()
                && self.vertices[x].tx.contains(#[trigger] self.vertices[w].rx[i])
                ==> Self::replaces_rx(rs, w, i)
    }

    /// The graph with vertex `x` terminated.
    pub open spec fn terminated(self, x: int) -> GraphView {
        GraphView {
            vertices: self.vertices.update(
                x,
                VertexView { state: Lifecycle::Terminated, ..self.vertices[x] },
            ),
            ..self
        }
    }
}

/// What one replacement leaves as it was, and what it renews.
pub proof fn lemma_replaced_slots(g: GraphView, r: Rewire, flush: bool)
    requires
        g.wf(),
        g.permits(r),
        g.edges.len() < usize::MAX,
    ensures
        ({
            let h = g.replaced(r, flush);
            let fresh = EdgeId(g.edges.len() as usize);
            &&& h.vertices.len() == g.vertices.len()
            &&& h.edges.len() == g.edges.len() + 1
            &&& fresh.0 == g.edges.len()
            &&& forall|w: int|
                0 <= w < g.vertices.len() ==> {
                    let old_v = g.vertices[w];
                    let new_v = #[trigger] h.vertices[w];
                    &&& new_v.id == old_v.id
                    &&& new_v.name == old_v.name
                    &&& new_v.engine_type == old_v.engine_type
                    &&& new_v.state == old_v.state
                    &&& new_v.tx == if w == r.from {
                        old_v.tx.update(r.idx_from as int, fresh)
                    } else {
                        old_v.tx
                    }
                    &&& new_v.rx == if w == r.to {
                        old_v.rx.update(r.idx_to as int, fresh)
                    } else {
                        old_v.rx
                    }
                }
        }),
{
    let h = g.replaced(r, flush);
    let fresh = EdgeId(g.edges.len() as usize);
    let from = g.vertices[r.from as int];
    let written = g.vertices.update(
        r.from as int,
        VertexView { tx: from.tx.update(r.idx_from as int, fresh), ..from },
    );
    let to = written[r.to as int];
    assert(h.vertices == written.update(
        r.to as int,
        VertexView { rx: to.rx.update(r.idx_to as int, fresh), ..to },
    ));
    assert(g.vertices[r.to as int].rx[r.idx_to as int].0 < g.edges.len());
    assert(g.vertices[r.from as int].tx[r.idx_from as int].0 < g.edges.len());
    assert(h.edges.len() == g.edges.len() + 1);
    assert forall|w: int| 0 <= w < g.vertices.len() implies {
        let old_v = g.vertices[w];
        let new_v = #[trigger] h.vertices[w];
        &&& new_v.id == old_v.id
        &&& new_v.name == old_v.name
        &&& new_v.engine_type == old_v.engine_type
        &&& new_v.state == old_v.state
        &&& new_v.tx == if w == r.from {
            old_v.tx.update(r.idx_from as int, fresh)
        } else {
            old_v.tx
        }
        &&& new_v.rx == if w == r.to {
            old_v.rx.update(r.idx_to as int, fresh)
        } else {
            old_v.rx
        }
    } by {
        if w == r.to {
            assert(h.vertices[w] == (VertexView { rx: to.rx.update(r.idx_to as int, fresh), ..to }));
            if w == r.from {
                assert(to == (VertexView { tx: from.tx.update(r.idx_from as int, fresh), ..from }));
            } else {
                assert(to == g.vertices[w]);
            }
        } else {
            assert(h.vertices[w] == written[w]);
        }
    }
}

/// What replacements leave as it was, and what they renew.
///
/// The vertices keep their ids, names, types, states and numbers of slots.
/// The arena grows by one edge for each replacement. A slot that is
/// replaced holds one of the new edges afterwards; every other slot holds
/// the edge it held.
pub proof fn lemma_rewired_slots(g: GraphView, rs: Seq<Rewire>, flush: bool)
    requires
        g.wf(),
        g.permits_all(rs),
        g.edges.len() + rs.len() <= usize::MAX,
    ensures
        ({
            let h = g.rewired(rs, flush);
            &&& h.wf()
            &&& h.vertices.len() == g.vertices.len()
            &&& h.edges.len() == g.edges.len() + rs.len()
            &&& forall|w: int|
                0 <= w < g.vertices.len() ==> {
                    let old_v = g.vertices[w];
                    let new_v = #[trigger] h.vertices[w];
                    &&& new_v.id == old_v.id
                    &&& new_v.name == old_v.name
                    &&& new_v.engine_type == old_v.engine_type
                    &&& new_v.state == old_v.state
                    &&& new_v.tx.len() == old_v.tx.len()
                    &&& new_v.rx.len() == old_v.rx.len()
                }
            &&& forall|w: int, i: int|
                0 <= w < g.vertices.len() && 0 <= i < g.vertices[w].tx.len() ==> {
                    let e = #[trigger] h.vertices[w].tx[i];
                    if GraphView::replaces_tx(rs, w, i) {
                        g.edges.len() <= e.0 < h.edges.len()
                    } else {
                        e == g.vertices[w].tx[i]
                    }
                }
            &&& forall|w: int, i: int|
                0 <= w < g.vertices.len() && 0 <= i < g.vertices[w].rx.len() ==> {
                    let e = #[trigger] h.vertices[w].rx[i];
                    if GraphView::replaces_rx(rs, w, i) {
                        g.edges.len() <= e.0 < h.edges.len()
                    } else {
                        e == g.vertices[w].rx[i]
                    }
                }
        }),
    decreases rs.len(),
{
    if rs.len() > 0 {
        let init = rs.drop_last();
        let r = rs.last();
        assert forall|k: int| 0 <= k < init.len() implies g.permits(#[trigger] init[k]) by {
            assert(init[k] == rs[k]);
        }
        lemma_rewired_slots(g, init, flush);
        let m = g.rewired(init, flush);
        let h = m.replaced(r, flush);
        assert(h == g.rewired(rs, flush));
        assert(g.permits(rs[rs.len() - 1]));
        assert(m.permits(r));
        lemma_replaced_slots(m, r, flush);
        assert forall|w: int, i: int|
            0 <= w < g.vertices.len() && 0 <= i < g.vertices[w].tx.len() implies {
            let e = #[trigger] h.vertices[w].tx[i];
            if GraphView::replaces_tx(rs, w, i) {
                g.edges.len() <= e.0 < h.edges.len()
            } else {
                e == g.vertices[w].tx[i]
            }
        } by {
            let e0 = m.vertices[w].tx[i];
            if r.from == w && r.idx_from == i {
                assert(rs[rs.len() - 1].from == w);
            } else {
                assert(h.vertices[w].tx[i] == e0);
                if GraphView::replaces_tx(init, w, i) {
                    let k = choose|k: int|
                        0 <= k < init.len() && (#[trigger] init[k]).from == w && init[k].idx_from
                            == i;
                    assert(rs[k] == init[k]);
                } else if GraphView::replaces_tx(rs, w, i) {
                    let k = choose|k: int|
                        0 <= k < rs.len() && (#[trigger] rs[k]).from == w && rs[k].idx_from == i;
                    assert(k < init.len());
                    assert(init[k] == rs[k]);
                }
            }
        }
        assert forall|w: int, i: int|
            0 <= w < g.vertices.len() && 0 <= i < g.vertices[w].rx.len() implies {
            let e = #[trigger] h.vertices[w].rx[i];
            if GraphView::replaces_rx(rs, w, i) {
                g.edges.len() <= e.0 < h.edges.len()
            } else {
                e == g.vertices[w].rx[i]
            }
        } by {
            let e0 = m.vertices[w].rx[i];
            if r.to == w && r.idx_to == i {
                assert(rs[rs.len() - 1].to == w);
            } else {
                assert(h.vertices[w].rx[i] == e0);
                if GraphView::replaces_rx(init, w, i) {
                    let k = choose|k: int|
                        0 <= k < init.len() && (#[trigger] init[k]).to == w && init[k].idx_to == i;
                    assert(rs[k] == init[k]);
                } else if GraphView::replaces_rx(rs, w, i) {
                    let k = choose|k: int|
                        0 <= k < rs.len() && (#[trigger] rs[k]).to == w && rs[k].idx_to == i;
                    assert(k < init.len());
                    assert(init[k] == rs[k]);
                }
            }
        }
        assert(h.wf()) by {
            assert forall|a: int, b: int| h.live(a) && h.live(b) && a != b implies h.vertices[a].name
                != h.vertices[b].name by {
                assert(m.live(a) && m.live(b));
            }
            assert forall|a: int, b: int| 0 <= a < b < h.vertices.len() implies h.vertices[a].id
                != h.vertices[b].id by {
                assert(m.vertices[a].id != m.vertices[b].id);
            }
            assert forall|w: int, i: int|
                0 <= w < h.vertices.len() && 0 <= i < h.vertices[w].tx.len() implies (
            #[trigger] h.vertices[w].tx[i]).0 < h.edges.len() by {
                if !(r.from == w && r.idx_from == i) {
                    assert(h.vertices[w].tx[i] == m.vertices[w].tx[i]);
                }
            }
            assert forall|w: int, i: int|
                0 <= w < h.vertices.len() && 0 <= i < h.vertices[w].rx.len() implies (
            #[trigger] h.vertices[w].rx[i]).0 < h.edges.len() by {
                if !(r.to == w && r.idx_to == i) {
                    assert(h.vertices[w].rx[i] == m.vertices[w].rx[i]);
                }
            }
        }
    }
}

/// Once an addon is detached, no engine that is left writes to an edge
/// that the addon reads or reads an edge that the addon writes: when the
/// replacements, which the graph permits with vertex `x` terminated, replace
/// every slot through which a live engine reaches `x`, then after them no
/// live engine reaches `x`.
pub proof fn lemma_detached_is_unreachable(g: GraphView, x: int, rs: Seq<Rewire>, flush: bool)
    requires
        g.wf(),
        0 <= x < g.vertices.len(),
        g.terminated(x).permits_all(rs),
        g.cuts(x, rs),
        g.edges.len() + rs.len() <= usize::MAX,
    ensures
        !g.terminated(x).rewired(rs, flush).reaches(x),
        g.terminated(x).rewired(rs, flush).wf(),
{
    let t = g.terminated(x);
    lemma_terminated_wf(g, x);
    lemma_rewired_slots(t, rs, flush);
    let h = t.rewired(rs, flush);
    assert(h.vertices[x].rx =~= g.vertices[x].rx) by {
        assert forall|j: int| 0 <= j < g.vertices[x].rx.len() implies h.vertices[x].rx[j]
            == g.vertices[x].rx[j] by {
            if GraphView::replaces_rx(rs, x, j) {
                let k = choose|k: int|
                    0 <= k < rs.len() && (#[trigger] rs[k]).to == x && rs[k].idx_to == j;
                assert(t.permits(rs[k]));
            }
            assert(t.vertices[x].rx[j] == g.vertices[x].rx[j]);
        }
    }
    assert(h.vertices[x].tx =~= g.vertices[x].tx) by {
        assert forall|j: int| 0 <= j < g.vertices[x].tx.len() implies h.vertices[x].tx[j]
            == g.vertices[x].tx[j] by {
            if GraphView::replaces_tx(rs, x, j) {
                let k = choose|k: int|
                    0 <= k < rs.len() && (#[trigger] rs[k]).from == x && rs[k].idx_from == j;
                assert(t.permits(rs[k]));
            }
            assert(t.vertices[x].tx[j] == g.vertices[x].tx[j]);
        }
    }
    assert forall|w: int, i: int|
        h.live(w) && w != x && 0 <= i < h.vertices[w].tx.len() implies !h.vertices[x].rx.contains(
        #[trigger] h.vertices[w].tx[i],
    ) by {
        let e = h.vertices[w].tx[i];
        assert(g.live(w));
        assert(t.vertices[w].tx[i] == g.vertices[w].tx[i]);
        if g.vertices[x].rx.contains(e) {
            let j = choose|j: int| 0 <= j < g.vertices[x].rx.len() && g.vertices[x].rx[j] == e;
            assert(g.vertices[x].rx[j].0 < g.edges.len());
            if !GraphView::replaces_tx(rs, w, i) {
                assert(g.vertices[x].rx.contains(g.vertices[w].tx[i]));
            }
        }
    }
    assert forall|w: int, i: int|
        h.live(w) && w != x && 0 <= i < h.vertices[w].rx.len() implies !h.vertices[x].tx.contains(
        #[trigger] h.vertices[w].rx[i],
    ) by {
        let e = h.vertices[w].rx[i];
        assert(g.live(w));
        assert(t.vertices[w].rx[i] == g.vertices[w].rx[i]);
        if g.vertices[x].tx.contains(e) {
            let j = choose|j: int| 0 <= j < g.vertices[x].tx.len() && g.vertices[x].tx[j] == e;
            assert(g.vertices[x].tx[j].0 < g.edges.len());
            if !GraphView::replaces_rx(rs, w, i) {
                assert(g.vertices[x].tx.contains(g.vertices[w].rx[i]));
            }
        }
    }
}

/// What a new edge between two vertices leaves as it was: the vertices
/// keep their ids, names, types and states, and every slot that was there
/// holds the edge it held. The graph stays well formed.
pub proof fn lemma_connected(g: GraphView, from: int, to: int)
    requires
        g.wf(),
        0 <= from < g.vertices.len(),
        0 <= to < g.vertices.len(),
        g.edges.len() < usize::MAX,
    ensures
        ({
            let h = g.connected(from, to);
            let e = EdgeId(g.edges.len() as usize);
            &&& h.wf()
            &&& h.vertices.len() == g.vertices.len()
            &&& h.edges == g.edges.push(fresh_edge(Seq::empty()))
            &&& forall|w: int|
                0 <= w < g.vertices.len() ==> {
                    let old_v = g.vertices[w];
                    let new_v = #[trigger] h.vertices[w];
                    &&& new_v.id == old_v.id
                    &&& new_v.name == old_v.name
                    &&& new_v.engine_type == old_v.engine_type
                    &&& new_v.state == old_v.state
                    &&& new_v.tx == if w == from {
                        old_v.tx.push(e)
                    } else {
                        old_v.tx
                    }
                    &&& new_v.rx == if w == to {
                        old_v.rx.push(e)
                    } else {
                        old_v.rx
                    }
                }
            &&& forall|name: Seq<char>| h.has(name) == g.has(name)
            &&& forall|name: Seq<char>| g.has(name) ==> h.position(name) == g.position(name)
        }),
{
    let h = g.connected(from, to);
    let e = EdgeId(g.edges.len() as usize);
    let f = g.vertices[from];
    let written = g.vertices.update(from, VertexView { tx: f.tx.push(e), ..f });
    let t = written[to];
    assert(h.vertices == written.update(to, VertexView { rx: t.rx.push(e), ..t }));
    assert forall|w: int| 0 <= w < g.vertices.len() implies {
        let old_v = g.vertices[w];
        let new_v = #[trigger] h.vertices[w];
        &&& new_v.id == old_v.id
        &&& new_v.name == old_v.name
        &&& new_v.engine_type == old_v.engine_type
        &&& new_v.state == old_v.state
        &&& new_v.tx == if w == from {
            old_v.tx.push(e)
        } else {
            old_v.tx
        }
        &&& new_v.rx == if w == to {
            old_v.rx.push(e)
        } else {
            old_v.rx
        }
    } by {
        if w == to {
            assert(h.vertices[w] == (VertexView { rx: t.rx.push(e), ..t }));
            if w == from {
                assert(t == (VertexView { tx: f.tx.push(e), ..f }));
            } else {
                assert(t == g.vertices[w]);
            }
        } else {
            assert(h.vertices[w] == written[w]);
        }
    }
    assert forall|w: int, name: Seq<char>| h.named(w, name) == g.named(w, name) by {
        if 0 <= w < g.vertices.len() {
            assert(h.vertices[w].name == g.vertices[w].name);
            assert(h.vertices[w].state == g.vertices[w].state);
        }
    }
    assert forall|name: Seq<char>| h.has(name) == g.has(name) by {
        if g.has(name) {
            let w = choose|w: int| g.named(w, name);
            assert(h.named(w, name));
        }
        if h.has(name) {
            let w = choose|w: int| h.named(w, name);
            assert(g.named(w, name));
        }
    }
    assert forall|a: int, b: int| h.live(a) && h.live(b) && a != b implies h.vertices[a].name
        != h.vertices[b].name by {
        assert(g.live(a) && g.live(b));
    }
    assert forall|name: Seq<char>| g.has(name) implies h.position(name) == g.position(name) by {
        let w = g.position(name);
        assert(g.named(w, name));
        assert(h.named(w, name));
        let v = h.position(name);
        assert(h.named(v, name));
        if v != w {
            assert(h.live(v) && h.live(w));
        }
    }
    assert forall|a: int, b: int| 0 <= a < b < h.vertices.len() implies h.vertices[a].id
        != h.vertices[b].id by {
        assert(g.vertices[a].id != g.vertices[b].id);
    }
    assert forall|w: int, i: int|
        0 <= w < h.vertices.len() && 0 <= i < h.vertices[w].tx.len() implies (
    #[trigger] h.vertices[w].tx[i]).0 < h.edges.len() by {
        if i < g.vertices[w].tx.len() {
            assert(h.vertices[w].tx[i] == g.vertices[w].tx[i]);
        }
    }
    assert forall|w: int, i: int|
        0 <= w < h.vertices.len() && 0 <= i < h.vertices[w].rx.len() implies (
    #[trigger] h.vertices[w].rx[i]).0 < h.edges.len() by {
        if i < g.vertices[w].rx.len() {
            assert(h.vertices[w].rx[i] == g.vertices[w].rx[i]);
        }
    }
}

/// Terminating a vertex keeps a graph well formed.
pub proof fn lemma_terminated_wf(g: GraphView, x: int)
    requires
        g.wf(),
        0 <= x < g.vertices.len(),
    ensures
        g.terminated(x).wf(),
{
    let t = g.terminated(x);
    assert forall|a: int, b: int| t.live(a) && t.live(b) && a != b implies t.vertices[a].name
        != t.vertices[b].name by {
        assert(g.live(a) && g.live(b));
    }
    assert forall|a: int, b: int| 0 <= a < b < t.vertices.len() implies t.vertices[a].id
        != t.vertices[b].id by {
        assert(g.vertices[a].id != g.vertices[b].id);
    }
    assert forall|w: int, i: int|
        0 <= w < t.vertices.len() && 0 <= i < t.vertices[w].tx.len() implies (
    #[trigger] t.vertices[w].tx[i]).0 < t.edges.len() by {
        assert(t.vertices[w].tx[i] == g.vertices[w].tx[i]);
    }
    assert forall|w: int, i: int|
        0 <= w < t.vertices.len() && 0 <= i < t.vertices[w].rx.len() implies (
    #[trigger] t.vertices[w].rx[i]).0 < t.edges.len() by {
        assert(t.vertices[w].rx[i] == g.vertices[w].rx[i]);
    }
}

/// Whether replacements cut an engine off does not depend on whether that
/// engine has terminated.
pub proof fn lemma_cuts_ignores_state(g: GraphView, x: int, rs: Seq<Rewire>)
    requires
        0 <= x < g.vertices.len(),
    ensures
        g.terminated(x).cuts(x, rs) == g.cuts(x, rs),
{
    let t = g.terminated(x);
    assert forall|w: int| w != x implies t.live(w) == g.live(w) by {}
    assert(t.vertices[x].rx == g.vertices[x].rx);
    assert(t.vertices[x].tx == g.vertices[x].tx);
    if g.cuts(x, rs) {
        assert forall|w: int, i: int|
            t.live(w) && w != x && 0 <= i < t.vertices[w].tx.len() && t.vertices[x].rx.contains(
                #[trigger] t.vertices[w].tx[i],
            ) implies GraphView::replaces_tx(rs, w, i) by {
            assert(t.vertices[w].tx[i] == g.vertices[w].tx[i]);
        }
        assert forall|w: int, i: int|
            t.live(w) && w != x && 0 <= i < t.vertices[w].rx.len() && t.vertices[x].tx.contains(
                #[trigger] t.vertices[w].rx[i],
            ) implies GraphView::replaces_rx(rs, w, i) by {
            assert(t.vertices[w].rx[i] == g.vertices[w].rx[i]);
        }
    }
    if t.cuts(x, rs) {
        assert forall|w: int, i: int|
            g.live(w) && w != x && 0 <= i < g.vertices[w].tx.len() && g.vertices[x].rx.contains(
                #[trigger] g.vertices[w].tx[i],
            ) implies GraphView::replaces_tx(rs, w, i) by {
            assert(t.vertices[w].tx[i] == g.vertices[w].tx[i]);
        }
        assert forall|w: int, i: int|
            g.live(w) && w != x && 0 <= i < g.vertices[w].rx.len() && g.vertices[x].tx.contains(
                #[trigger] g.vertices[w].rx[i],
            ) implies GraphView::replaces_rx(rs, w, i) by {
            assert(t.vertices[w].rx[i] == g.vertices[w].rx[i]);
        }
    }
}

/// The moves that the life of an engine allows.
pub open spec fn may_become(from: Lifecycle, to: Lifecycle) -> bool {
    match (from, to) {
        (Lifecycle::New, Lifecycle::Running) => true,
        (Lifecycle::Running, Lifecycle::Suspended) => true,
        (Lifecycle::Suspended, Lifecycle::Running) => true,
        (Lifecycle::Suspended, Lifecycle::Terminated) => true,
        _ => false,
    }
}

/// A replacement as a request gives it: the names of two engines and a
/// slot of either.
pub type Entry = (Seq<char>, Seq<char>, usize, usize);

/// What a list of replacements says.
pub open spec fn entries_of(list: Seq<(String, String, usize, usize)>) -> Seq<Entry> {
    list.map_values(|e: (String, String, usize, usize)| (e.0@, e.1@, e.2, e.3))
}

impl GraphView {
    /// Whether both engines that `e` names are live vertices.
    pub open spec fn knows(self, e: Entry) -> bool {
        self.has(e.0) && self.has(e.1)
    }

    /// The replacement that `e` asks for.
    pub open spec fn rewire_of(self, e: Entry) -> Rewire {
        Rewire {
            from: self.position(e.0) as usize,
            to: self.position(e.1) as usize,
            idx_from: e.2,
            idx_to: e.3,
        }
    }

    /// Whether `e` names live vertices and slots that they have.
    pub open spec fn resolves(self, e: Entry) -> bool {
        self.knows(e) && self.permits(self.rewire_of(e))
    }

    /// Whether each of the first `n` entries resolves.
    pub open spec fn resolvable_upto(self, es: Seq<Entry>, n: int) -> bool {
        forall|k: int| 0 <= k < n ==> self.resolves(#[trigger] es[k])
    }

    /// Whether each entry resolves.
    pub open spec fn resolvable(self, es: Seq<Entry>) -> bool {
        self.resolvable_upto(es, es.len() as int)
    }

    /// The replacements that `es` asks for.
    pub open spec fn resolved(self, es: Seq<Entry>) -> Seq<Rewire> {
        es.map_values(|e: Entry| self.rewire_of(e))
    }

    /// What is wrong with the list `es` of direction `d`: `err` names the
    /// first entry that does not resolve, and says whether it is an engine
    /// or a slot that is not there.
    pub open spec fn refusal(self, es: Seq<Entry>, d: Direction, err: GraphError) -> bool {
        match err {
            GraphError::UnknownEngine(dir, k) => dir == d && k < es.len() && self.resolvable_upto(
                es,
                k as int,
            ) && !self.knows(es[k as int]),
            GraphError::Busy(dir, k) => dir == d && k < es.len() && self.resolvable_upto(
                es,
                k as int,
            ) && self.knows(es[k as int]) && !self.rests(self.rewire_of(es[k as int])),
            GraphError::BadIndex(dir, k) => dir == d && k < es.len() && self.resolvable_upto(
                es,
                k as int,
            ) && self.knows(es[k as int]) && self.rests(self.rewire_of(es[k as int]))
                && !self.permits(self.rewire_of(es[k as int])),
            _ => false,
        }
    }

    /// What is wrong with the two lists of a request: `err` names the first
    /// entry that does not resolve, the list of the sending direction
    /// coming first.
    pub open spec fn refuses(self, es_tx: Seq<Entry>, es_rx: Seq<Entry>, err: GraphError) -> bool {
        ||| self.refusal(es_tx, Direction::Egress, err)
        ||| self.resolvable(es_tx) && self.refusal(es_rx, Direction::Ingress, err)
    }

    /// The graph with one more vertex, new and with `n_tx` outputs and
    /// `n_rx` inputs, each slot holding an edge of its own that nothing
    /// else holds.
    pub open spec fn added(
        self,
        id: u64,
        name: Seq<char>,
        engine_type: Seq<char>,
        n_tx: nat,
        n_rx: nat,
    ) -> GraphView {
        let base = self.edges.len();
        GraphView {
            vertices: self.vertices.push(
                VertexView {
                    id,
                    name,
                    engine_type,
                    state: Lifecycle::New,
                    tx: Seq::new(n_tx, |i: int| EdgeId((base + i) as usize)),
                    rx: Seq::new(n_rx, |i: int| EdgeId((base + n_tx + i) as usize)),
                },
            ),
            edges: self.edges + Seq::new(n_tx + n_rx, |i: int| fresh_edge(Seq::empty())),
        }
    }

    /// The graph with one more edge, which is one more output of vertex
    /// `from` and one more input of vertex `to`.
    pub open spec fn connected(self, from: int, to: int) -> GraphView {
        let e = EdgeId(self.edges.len() as usize);
        let f = self.vertices[from];
        let written = self.vertices.update(from, VertexView { tx: f.tx.push(e), ..f });
        let t = written[to];
        GraphView {
            vertices: written.update(to, VertexView { rx: t.rx.push(e), ..t }),
            edges: self.edges.push(fresh_edge(Seq::empty())),
        }
    }

    /// Whether no vertex has the id.
    pub open spec fn id_unused(self, id: u64) -> bool {
        forall|w: int| 0 <= w < self.vertices.len() ==> (#[trigger] self.vertices[w]).id != id
    }
}

/// Numbers of output and input slots that an engine of the given name needs
/// for the replacements `es`: for either kind, one more than the largest
/// index under which `es` names a slot of the engine.
pub open spec fn slots_needed(es: Seq<Entry>, name: Seq<char>) -> (nat, nat)
    decreases es.len(),
{
    if es.len() == 0 {
        (0, 0)
    } else {
        let rest = slots_needed(es.drop_last(), name);
        let e = es.last();
        (
            if e.0 == name && e.2 + 1 > rest.0 {
                (e.2 + 1) as nat
            } else {
                rest.0
            },
            if e.1 == name && e.3 + 1 > rest.1 {
                (e.3 + 1) as nat
            } else {
                rest.1
            },
        )
    }
}

/// The larger of two numbers.
pub open spec fn larger(a: nat, b: nat) -> nat {
    if a < b {
        b
    } else {
        a
    }
}

/// Whether entry `k` of `es` names, for the engine of the given name, a
/// slot index after which no number comes.
pub open spec fn overlong(es: Seq<Entry>, name: Seq<char>, k: int) -> bool {
    0 <= k < es.len() && ((es[k].0 == name && es[k].2 == usize::MAX) || (es[k].1 == name && es[k].3
        == usize::MAX))
}

/// What attaching an addon makes of a graph.
///
/// `g0` and `issued0` are the graph and the engine ids handed out before,
/// `g1` and `issued1` those after; `name` is the addon's name, `es_tx` and
/// `es_rx` are the replacements of the two directions. On success the
/// graph has a new vertex for the addon, with as many slots as the
/// replacements name and with a new id, and the replacements are made,
/// those of the sending direction first. A refusal changes nothing.
pub open spec fn attach_post(
    g0: GraphView,
    issued0: Set<u64>,
    name: Seq<char>,
    es_tx: Seq<Entry>,
    es_rx: Seq<Entry>,
    flush: bool,
    res: Result<u64, GraphError>,
    g1: GraphView,
    issued1: Set<u64>,
) -> bool {
    let n_tx = larger(slots_needed(es_tx, name).0, slots_needed(es_rx, name).0);
    let n_rx = larger(slots_needed(es_tx, name).1, slots_needed(es_rx, name).1);
    match res {
        Ok(id) => {
            let g = g0.added(id, name, name, n_tx, n_rx);
            &&& !g0.has(name)
            &&& !issued0.contains(id)
            &&& issued1 == issued0.insert(id)
            &&& g.resolvable(es_tx)
            &&& g.resolvable(es_rx)
            &&& g1 == g.rewired(g.resolved(es_tx) + g.resolved(es_rx), flush)
        },
        Err(e) => {
            &&& g1 == g0
            &&& e == GraphError::Exists <==> g0.has(name)
            &&& match e {
                GraphError::Exists => true,
                GraphError::OutOfIds => issued1 == issued0
                    && forall|id: u64| id < u64::MAX ==> issued0.contains(id),
                GraphError::UnknownEngine(d, k) | GraphError::Busy(d, k) | GraphError::BadIndex(
                    d,
                    k,
                ) => {
                    ||| d == Direction::Egress && overlong(es_tx, name, k as int)
                    ||| d == Direction::Ingress && overlong(es_rx, name, k as int)
                    ||| exists|id: u64|
                        #[trigger] g0.added(
                            id,
                            name,
                            name,
                            n_tx,
                            n_rx,
                        ).refuses(es_tx, es_rx, e) && issued1 == issued0.insert(id)
                },
                _ => false,
            }
        },
    }
}

/// What detaching an addon makes of a graph.
///
/// `g0` is the graph before and `g1` the graph after; `name` is the
/// addon's name, `es_tx` and `es_rx` are the replacements of the two
/// directions, which are resolved as if the addon had terminated already.
/// On success the replacements are made, those of the sending direction
/// first, the addon's vertex is terminated, and no live engine reaches it.
/// A refusal changes nothing.
pub open spec fn detach_post(
    g0: GraphView,
    name: Seq<char>,
    es_tx: Seq<Entry>,
    es_rx: Seq<Entry>,
    flush: bool,
    res: Result<(), GraphError>,
    g1: GraphView,
) -> bool {
    let x = g0.position(name);
    let g = g0.terminated(x);
    let rs = g.resolved(es_tx) + g.resolved(es_rx);
    match res {
        Ok(()) => {
            &&& g0.has(name)
            &&& g.resolvable(es_tx)
            &&& g.resolvable(es_rx)
            &&& g0.cuts(x, rs)
            &&& g1 == g.rewired(rs, flush)
            &&& !g1.reaches(x)
            &&& !g1.live(x)
        },
        Err(e) => {
            &&& g1 == g0
            &&& e == GraphError::NotFound <==> !g0.has(name)
            &&& match e {
                GraphError::NotFound => true,
                GraphError::UnknownEngine(_, _) | GraphError::Busy(_, _) | GraphError::BadIndex(
                    _,
                    _,
                ) => g.refuses(
                    es_tx,
                    es_rx,
                    e,
                ),
                GraphError::StillWired => g.resolvable(es_tx) && g.resolvable(es_rx)
                    && !g0.cuts(x, rs),
                _ => false,
            }
        },
    }
}

/// The dataflow graph of a subscription.
pub struct Graph {
    vertices: Vec<Vertex>,
    edges: EdgeArena,
}

impl View for Graph {
    type V = GraphView;

    closed spec fn view(&self) -> GraphView {
        GraphView {
            vertices: Seq::new(self.vertices@.len(), |i: int| self.vertices@[i]@),
            edges: self.edges@,
        }
    }
}

fn at_rest(s: Lifecycle) -> (b: bool)
    ensures
        b == (s == Lifecycle::New || s == Lifecycle::Suspended),
{
    match s {
        Lifecycle::New => true,
        Lifecycle::Suspended => true,
        _ => false,
    }
}

fn same_text(a: &String, b: &String) -> (r: bool)
    ensures
        r == (a@ == b@),
{
    *a == *b
}

fn holds_edge(ids: &Vec<EdgeId>, e: EdgeId) -> (b: bool)
    ensures
        b == ids@.contains(e),
{
    let mut i: usize = 0;
    while i < ids.len()
        invariant
            i <= ids.len(),
            forall|k: int| 0 <= k < i ==> ids@[k] != e,
        decreases ids.len() - i,
    {
        if ids[i].0 == e.0 {
            return true;
        }
        i += 1;
    }
    false
}

impl Graph {
    /// The graph's invariant.
    pub open spec fn wf(&self) -> bool {
        self@.wf()
    }

    /// A graph without vertices and edges.
    pub fn new() -> (g: Graph)
        ensures
            g.wf(),
            g@.vertices == Seq::<VertexView>::empty(),
            g@.edges == Seq::<EdgeState>::empty(),
    {
        let g = Graph { vertices: Vec::new(), edges: EdgeArena::new() };
        assert(g@.vertices =~= Seq::<VertexView>::empty());
        g
    }

    /// Number of vertices, terminated ones included.
    pub fn len(&self) -> (n: usize)
        ensures
            n == self@.vertices.len(),
    {
        self.vertices.len()
    }

    /// The edges of the graph.
    pub fn edges(&self) -> (a: &EdgeArena)
        ensures
            a@ == self@.edges,
    {
        &self.edges
    }

    /// The edges of the graph, for the engines to send and receive on.
    pub fn edges_mut(&mut self) -> (a: &mut EdgeArena)
        ensures
            a@ == old(self)@.edges,
            final(self)@ == (GraphView { edges: final(a)@, ..old(self)@ }),
    {
        &mut self.edges
    }

    /// One step of `engine`, which is the engine at vertex `w`, at time
    /// `now_ms`, on the edges of this graph. An engine that is not running
    /// takes no step: it and the edges stay as they are.
    pub fn step(&mut self, w: usize, engine: &mut MrpcEngine, now_ms: u64) -> (res: Option<
        Result<EngineStatus, EngineError>,
    >)
        requires
            old(self).wf(),
            w < old(self)@.vertices.len(),
            old(engine).wf(),
            old(engine)@.wired(old(self)@.edges),
        ensures
            final(self).wf(),
            final(engine).wf(),
            final(self)@.vertices == old(self)@.vertices,
            final(engine)@.wired(final(self)@.edges),
            match res {
                Some(r) => old(self)@.vertices[w as int].state == Lifecycle::Running && (
                    final(engine)@,
                    final(self)@.edges,
                    r,
                ) == old(engine)@.resume(old(self)@.edges, now_ms),
                None => old(self)@.vertices[w as int].state != Lifecycle::Running && final(self)@
                    == old(self)@ && final(engine)@ == old(engine)@,
            },
    {
        assert(self@.vertices[w as int] == self.vertices@[w as int]@);
        if !matches!(self.vertices[w].state, Lifecycle::Running) {
            return None;
        }
        let res = Some(engine.resume(&mut self.edges, now_ms));
        proof {
            let g0 = old(self)@;
            let g1 = self@;
            assert(g1.vertices =~= g0.vertices);
            assert(g1.edges.len() == g0.edges.len());
            assert forall|a: int, b: int| g1.live(a) && g1.live(b) && a != b implies g1.vertices[a].name
                != g1.vertices[b].name by {
                assert(g0.live(a) && g0.live(b));
            }
            assert forall|a: int, b: int| 0 <= a < b < g1.vertices.len() implies g1.vertices[a].id
                != g1.vertices[b].id by {
                assert(g0.vertices[a].id != g0.vertices[b].id);
            }
            assert forall|w: int, i: int|
                0 <= w < g1.vertices.len() && 0 <= i < g1.vertices[w].tx.len() implies (
            #[trigger] g1.vertices[w].tx[i]).0 < g1.edges.len() by {
                assert(g0.vertices[w].tx[i].0 < g0.edges.len());
            }
            assert forall|w: int, i: int|
                0 <= w < g1.vertices.len() && 0 <= i < g1.vertices[w].rx.len() implies (
            #[trigger] g1.vertices[w].rx[i]).0 < g1.edges.len() by {
                assert(g0.vertices[w].rx[i].0 < g0.edges.len());
            }
        }
        res
    }

    /// The live vertex of the given name.
    pub fn position(&self, name: &String) -> (res: Option<usize>)
        requires
            self.wf(),
        ensures
            match res {
                Some(w) => self@.named(w as int, name@) && self@.position(name@) == w,
                None => !self@.has(name@),
            },
    {
        let mut w: usize = 0;
        while w < self.vertices.len()
            invariant
                w <= self.vertices.len(),
                self.wf(),
                forall|k: int| 0 <= k < w ==> !self@.named(k, name@),
            decreases self.vertices.len() - w,
        {
            let v = &self.vertices[w];
            assert(v@ == self@.vertices[w as int]);
            if !matches!(v.state, Lifecycle::Terminated) && same_text(&v.name, name) {
                proof {
                    assert(self@.named(w as int, name@));
                    let c = self@.position(name@);
                    assert(self@.named(c, name@));
                }
                return Some(w);
            }
            w += 1;
        }
        proof {
            assert forall|k: int| !self@.named(k, name@) by {}
        }
        None
    }

    /// Id of vertex `w`.
    pub fn engine_id(&self, w: usize) -> (id: u64)
        requires
            w < self@.vertices.len(),
        ensures
            id == self@.vertices[w as int].id,
    {
        self.vertices[w].id
    }

    /// Where vertex `w` is in its life.
    pub fn state(&self, w: usize) -> (s: Lifecycle)
        requires
            w < self@.vertices.len(),
        ensures
            s == self@.vertices[w as int].state,
    {
        self.vertices[w].state
    }

    /// The type of the engine at vertex `w`.
    pub fn engine_type(&self, w: usize) -> (t: &String)
        requires
            w < self@.vertices.len(),
        ensures
            t@ == self@.vertices[w as int].engine_type,
    {
        &self.vertices[w].engine_type
    }

    /// The edges that vertex `w` writes to.
    pub fn tx_outputs(&self, w: usize) -> (ids: &Vec<EdgeId>)
        requires
            w < self@.vertices.len(),
        ensures
            ids@ == self@.vertices[w as int].tx,
    {
        &self.vertices[w].tx_outputs
    }

    /// The edges that vertex `w` reads from.
    pub fn rx_inputs(&self, w: usize) -> (ids: &Vec<EdgeId>)
        requires
            w < self@.vertices.len(),
        ensures
            ids@ == self@.vertices[w as int].rx,
    {
        &self.vertices[w].rx_inputs
    }

    /// Adds a vertex for a new engine with `n_tx` outputs and `n_rx`
    /// inputs. Each slot gets an edge of its own, which nothing else holds
    /// until a replacement connects the slot.
    pub fn add_engine(
        &mut self,
        id: u64,
        name: String,
        engine_type: String,
        n_tx: usize,
        n_rx: usize,
    ) -> (w: usize)
        requires
            old(self).wf(),
            !old(self)@.has(name@),
            old(self)@.id_unused(id),
        ensures
            final(self).wf(),
            w == old(self)@.vertices.len(),
            final(self)@ == old(self)@.added(id, name@, engine_type@, n_tx as nat, n_rx as nat),
    {
        let ghost base = self.edges@.len();
        let mut tx: Vec<EdgeId> = Vec::new();
        let mut i: usize = 0;
        while i < n_tx
            invariant
                i <= n_tx,
                base == old(self)@.edges.len(),
                self.vertices == old(self).vertices,
                self.edges@ == old(self)@.edges + Seq::new(i as nat, |k: int| fresh_edge(Seq::empty())),
                tx@ == Seq::new(i as nat, |k: int| EdgeId((base + k) as usize)),
            decreases n_tx - i,
        {
            let e = self.edges.add_edge();
            tx.push(e);
            i += 1;
            proof {
                assert(self.edges@ =~= old(self)@.edges + Seq::new(
                    i as nat,
                    |k: int| fresh_edge(Seq::empty()),
                ));
                assert(tx@ =~= Seq::new(i as nat, |k: int| EdgeId((base + k) as usize)));
            }
        }
        let mut rx: Vec<EdgeId> = Vec::new();
        let mut j: usize = 0;
        while j < n_rx
            invariant
                j <= n_rx,
                base == old(self)@.edges.len(),
                self.vertices == old(self).vertices,
                self.edges@ == old(self)@.edges + Seq::new(
                    (n_tx + j) as nat,
                    |k: int| fresh_edge(Seq::empty()),
                ),
                rx@ == Seq::new(j as nat, |k: int| EdgeId((base + n_tx + k) as usize)),
            decreases n_rx - j,
        {
            let e = self.edges.add_edge();
            rx.push(e);
            j += 1;
            proof {
                assert(self.edges@ =~= old(self)@.edges + Seq::new(
                    (n_tx + j) as nat,
                    |k: int| fresh_edge(Seq::empty()),
                ));
                assert(rx@ =~= Seq::new(j as nat, |k: int| EdgeId((base + n_tx + k) as usize)));
            }
        }
        let w = self.vertices.len();
        // The length is a machine number: this bounds the arena.
        let _bound = self.edges.len();
        self.vertices.push(
            Vertex { id, name, engine_type, state: Lifecycle::New, tx_outputs: tx, rx_inputs: rx },
        );
        proof {
            let g = old(self)@;
            let h = g.added(id, name@, engine_type@, n_tx as nat, n_rx as nat);
            assert(self@.vertices =~= h.vertices);
            assert(self@.edges =~= h.edges);
            assert(self@.edges.len() == base + n_tx + n_rx);
            assert forall|a: int, b: int| h.live(a) && h.live(b) && a != b implies h.vertices[a].name
                != h.vertices[b].name by {
                if a < w && b < w {
                    assert(g.live(a) && g.live(b));
                } else if a < w {
                    assert(g.named(a, g.vertices[a].name));
                } else {
                    assert(g.named(b, g.vertices[b].name));
                }
            }
            assert forall|a: int, b: int| 0 <= a < b < h.vertices.len() implies h.vertices[a].id
                != h.vertices[b].id by {
                if b < w {
                    assert(g.vertices[a].id != g.vertices[b].id);
                }
            }
            assert forall|v: int, k: int|
                0 <= v < h.vertices.len() && 0 <= k < h.vertices[v].tx.len() implies (
            #[trigger] h.vertices[v].tx[k]).0 < h.edges.len() by {
                if v < w {
                    assert(h.vertices[v].tx[k] == g.vertices[v].tx[k]);
                }
            }
            assert forall|v: int, k: int|
                0 <= v < h.vertices.len() && 0 <= k < h.vertices[v].rx.len() implies (
            #[trigger] h.vertices[v].rx[k]).0 < h.edges.len() by {
                if v < w {
                    assert(h.vertices[v].rx[k] == g.vertices[v].rx[k]);
                }
            }
        }
        w
    }

    /// Connects vertex `from` to vertex `to` by a new edge, which becomes
    /// one more output of the one and one more input of the other.
    pub fn connect(&mut self, from: usize, to: usize) -> (e: EdgeId)
        requires
            old(self).wf(),
            from < old(self)@.vertices.len(),
            to < old(self)@.vertices.len(),
        ensures
            final(self).wf(),
            e.0 == old(self)@.edges.len(),
            final(self)@ == old(self)@.connected(from as int, to as int),
    {
        let e = self.edges.add_edge();
        // The length is a machine number: this bounds the arena.
        let _bound = self.edges.len();
        self.vertices[from].tx_outputs.push(e);
        self.vertices[to].rx_inputs.push(e);
        proof {
            let g = old(self)@;
            let h = g.connected(from as int, to as int);
            lemma_connected(g, from as int, to as int);
            assert(self@.edges =~= h.edges);
            assert(self@.vertices =~= h.vertices) by {
                assert forall|w: int| 0 <= w < h.vertices.len() implies self@.vertices[w]
                    == h.vertices[w] by {
                    assert(self@.vertices[w] == self.vertices@[w]@);
                    assert(g.vertices[w] == old(self).vertices@[w]@);
                }
            }
        }
        e
    }

    /// Replaces the edges of one output slot and one input slot by a new
    /// edge.
    pub fn replace(&mut self, r: Rewire, flush: bool)
        requires
            old(self).wf(),
            old(self)@.permits(r),
        ensures
            final(self).wf(),
            final(self)@ == old(self)@.replaced(r, flush),
    {
        let a = self.vertices[r.to].rx_inputs[r.idx_to];
        let b = self.vertices[r.from].tx_outputs[r.idx_from];
        proof {
            assert(self@.vertices[r.to as int].rx[r.idx_to as int] == a);
            assert(self@.vertices[r.from as int].tx[r.idx_from as int] == b);
        }
        let fresh = self.edges.add_edge();
        // The length is a machine number: this bounds the arena.
        let _bound = self.edges.len();
        if flush {
            self.edges.drain_into(a, fresh);
            if b.0 != a.0 {
                self.edges.drain_into(b, fresh);
            }
        }
        self.vertices[r.from].tx_outputs[r.idx_from] = fresh;
        self.vertices[r.to].rx_inputs[r.idx_to] = fresh;
        proof {
            let g = old(self)@;
            let h = g.replaced(r, flush);
            lemma_replaced_slots(g, r, flush);
            assert(self@.edges =~= h.edges);
            assert(self@.vertices =~= h.vertices) by {
                assert forall|w: int| 0 <= w < h.vertices.len() implies self@.vertices[w]
                    == h.vertices[w] by {
                    assert(self@.vertices[w] == self.vertices@[w]@);
                    assert(g.vertices[w] == old(self).vertices@[w]@);
                }
            }
            lemma_rewired_slots(g, seq![r], flush);
            assert(seq![r].drop_last() =~= Seq::<Rewire>::empty());
            assert(g.rewired(seq![r], flush) == g.rewired(seq![r].drop_last(), flush).replaced(
                seq![r].last(),
                flush,
            ));
        }
    }

    /// Makes the replacements `rs`, one after another.
    pub fn rewire(&mut self, rs: &Vec<Rewire>, flush: bool)
        requires
            old(self).wf(),
            old(self)@.permits_all(rs@),
        ensures
            final(self).wf(),
            final(self)@ == old(self)@.rewired(rs@, flush),
            final(self)@.edges.len() == old(self)@.edges.len() + rs@.len(),
    {
        let mut k: usize = 0;
        assert(rs@.take(0) =~= Seq::<Rewire>::empty());
        while k < rs.len()
            invariant
                k <= rs.len(),
                self.wf(),
                self@.edges.len() == old(self)@.edges.len() + k,
                old(self)@.permits_all(rs@),
                self@ == old(self)@.rewired(rs@.take(k as int), flush),
                self@.vertices.len() == old(self)@.vertices.len(),
                forall|w: int|
                    0 <= w < self@.vertices.len() ==> {
                        let v = #[trigger] self@.vertices[w];
                        let o = old(self)@.vertices[w];
                        v.state == o.state && v.tx.len() == o.tx.len() && v.rx.len() == o.rx.len()
                    },
            decreases rs.len() - k,
        {
            let r = rs[k];
            let ghost before = self@;
            proof {
                assert(old(self)@.permits(rs@[k as int]));
                assert(self@.vertices[r.from as int].state == old(self)@.vertices[r.from as int].state);
                assert(self@.vertices[r.to as int].state == old(self)@.vertices[r.to as int].state);
                assert(rs@.take(k + 1).drop_last() =~= rs@.take(k as int));
                assert(rs@.take(k + 1).last() == r);
            }
            self.replace(r, flush);
            // The length is a machine number: this bounds the arena.
            let _bound = self.edges.len();
            proof {
                assert(before.vertices[r.to as int].rx[r.idx_to as int].0 < before.edges.len());
                assert(before.vertices[r.from as int].tx[r.idx_from as int].0 < before.edges.len());
                assert(self@.edges.len() == before.edges.len() + 1);
                lemma_replaced_slots(before, r, flush);
            }
            k += 1;
        }
        assert(rs@.take(rs@.len() as int) =~= rs@);
    }

    /// Finds the engines that the replacements of `list` name.
    ///
    /// The first entry that names an engine that is not a live vertex, or
    /// a slot that its engine does not have, is reported.
    pub fn resolve(&self, list: &Vec<(String, String, usize, usize)>, d: Direction) -> (res: Result<
        Vec<Rewire>,
        GraphError,
    >)
        requires
            self.wf(),
        ensures
            match res {
                Ok(rs) => self@.resolvable(entries_of(list@)) && rs@ == self@.resolved(
                    entries_of(list@),
                ) && self@.permits_all(rs@),
                Err(e) => self@.refusal(entries_of(list@), d, e),
            },
    {
        let ghost es = entries_of(list@);
        let mut rs: Vec<Rewire> = Vec::new();
        let mut k: usize = 0;
        while k < list.len()
            invariant
                k <= list.len(),
                es == entries_of(list@),
                self.wf(),
                self@.resolvable_upto(es, k as int),
                rs@ == self@.resolved(es.take(k as int)),
            decreases list.len() - k,
        {
            let entry = &list[k];
            proof {
                assert(es[k as int] == (entry.0@, entry.1@, entry.2, entry.3));
            }
            let from = match self.position(&entry.0) {
                Some(w) => w,
                None => {
                    return Err(GraphError::UnknownEngine(d, k));
                },
            };
            let to = match self.position(&entry.1) {
                Some(w) => w,
                None => {
                    return Err(GraphError::UnknownEngine(d, k));
                },
            };
            let r = Rewire { from, to, idx_from: entry.2, idx_to: entry.3 };
            assert(r == self@.rewire_of(es[k as int]));
            assert(self@.vertices[from as int] == self.vertices@[from as int]@);
            assert(self@.vertices[to as int] == self.vertices@[to as int]@);
            if !at_rest(self.vertices[from].state) || !at_rest(self.vertices[to].state) {
                return Err(GraphError::Busy(d, k));
            }
            if r.idx_from >= self.vertices[from].tx_outputs.len() || r.idx_to
                >= self.vertices[to].rx_inputs.len() {
                return Err(GraphError::BadIndex(d, k));
            }
            rs.push(r);
            proof {
                assert(es.take(k + 1) =~= es.take(k as int).push(es[k as int]));
                assert(self@.resolved(es.take(k + 1)) =~= self@.resolved(es.take(k as int)).push(r));
            }
            k += 1;
        }
        proof {
            assert(es.take(es.len() as int) =~= es);
            assert forall|i: int| 0 <= i < rs@.len() implies self@.permits(#[trigger] rs@[i]) by {
                assert(self@.resolves(es[i]));
            }
        }
        Ok(rs)
    }

    /// Whether `rs` replaces output slot `i` of vertex `w`.
    fn replaces_tx(rs: &Vec<Rewire>, w: usize, i: usize) -> (b: bool)
        ensures
            b == GraphView::replaces_tx(rs@, w as int, i as int),
    {
        let mut k: usize = 0;
        while k < rs.len()
            invariant
                k <= rs.len(),
                forall|j: int| 0 <= j < k ==> !((#[trigger] rs@[j]).from == w && rs@[j].idx_from == i),
            decreases rs.len() - k,
        {
            if rs[k].from == w && rs[k].idx_from == i {
                return true;
            }
            k += 1;
        }
        false
    }

    /// Whether `rs` replaces input slot `i` of vertex `w`.
    fn replaces_rx(rs: &Vec<Rewire>, w: usize, i: usize) -> (b: bool)
        ensures
            b == GraphView::replaces_rx(rs@, w as int, i as int),
    {
        let mut k: usize = 0;
        while k < rs.len()
            invariant
                k <= rs.len(),
                forall|j: int| 0 <= j < k ==> !((#[trigger] rs@[j]).to == w && rs@[j].idx_to == i),
            decreases rs.len() - k,
        {
            if rs[k].to == w && rs[k].idx_to == i {
                return true;
            }
            k += 1;
        }
        false
    }

    /// Whether `rs` replaces every slot through which a live engine other
    /// than `x` writes to an edge that `x` reads or reads an edge that `x`
    /// writes.
    pub fn cuts(&self, x: usize, rs: &Vec<Rewire>) -> (b: bool)
        requires
            x < self@.vertices.len(),
        ensures
            b == self@.cuts(x as int, rs@),
    {
        let ghost g = self@;
        let mut w: usize = 0;
        while w < self.vertices.len()
            invariant
                w <= self.vertices.len(),
                x < self.vertices.len(),
                g == self@,
                forall|v: int, i: int|
                    0 <= v < w && g.live(v) && v != x && 0 <= i < g.vertices[v].tx.len()
                        && g.vertices[x as int].rx.contains(#[trigger] g.vertices[v].tx[i])
                        ==> GraphView::replaces_tx(rs@, v, i),
                forall|v: int, i: int|
                    0 <= v < w && g.live(v) && v != x && 0 <= i < g.vertices[v].rx.len()
                        && g.vertices[x as int].tx.contains(#[trigger] g.vertices[v].rx[i])
                        ==> GraphView::replaces_rx(rs@, v, i),
            decreases self.vertices.len() - w,
        {
            let v = &self.vertices[w];
            let addon = &self.vertices[x];
            proof {
                assert(g.vertices[w as int] == v@);
                assert(g.vertices[x as int] == addon@);
            }
            if w != x && !matches!(v.state, Lifecycle::Terminated) {
                let mut i: usize = 0;
                while i < v.tx_outputs.len()
                    invariant
                        i <= v.tx_outputs.len(),
                        w < g.vertices.len(),
                        x < g.vertices.len(),
                        w != x,
                        g == self@,
                        g.live(w as int),
                        g.vertices[w as int] == v@,
                        g.vertices[x as int] == addon@,
                        forall|k: int|
                            0 <= k < i && g.vertices[x as int].rx.contains(
                                #[trigger] g.vertices[w as int].tx[k],
                            ) ==> GraphView::replaces_tx(rs@, w as int, k),
                    decreases v.tx_outputs.len() - i,
                {
                    if holds_edge(&addon.rx_inputs, v.tx_outputs[i]) && !Self::replaces_tx(rs, w, i) {
                        proof {
                            assert(g.live(w as int));
                            assert(g.vertices[x as int].rx.contains(g.vertices[w as int].tx[i as int]));
                        }
                        return false;
                    }
                    i += 1;
                }
                let mut j: usize = 0;
                while j < v.rx_inputs.len()
                    invariant
                        j <= v.rx_inputs.len(),
                        w < g.vertices.len(),
                        x < g.vertices.len(),
                        w != x,
                        g == self@,
                        g.live(w as int),
                        g.vertices[w as int] == v@,
                        g.vertices[x as int] == addon@,
                        forall|k: int|
                            0 <= k < j && g.vertices[x as int].tx.contains(
                                #[trigger] g.vertices[w as int].rx[k],
                            ) ==> GraphView::replaces_rx(rs@, w as int, k),
                    decreases v.rx_inputs.len() - j,
                {
                    if holds_edge(&addon.tx_outputs, v.rx_inputs[j]) && !Self::replaces_rx(rs, w, j) {
                        proof {
                            assert(g.live(w as int));
                            assert(g.vertices[x as int].tx.contains(g.vertices[w as int].rx[j as int]));
                        }
                        return false;
                    }
                    j += 1;
                }
            }
            w += 1;
        }
        true
    }

    /// Numbers of output and input slots that the engine of the given name
    /// needs for the replacements of `list`, or the first entry that names
    /// a slot index after which no number comes.
    fn count_slots(list: &Vec<(String, String, usize, usize)>, name: &String) -> (res: Result<
        (usize, usize),
        usize,
    >)
        ensures
            match res {
                Ok(n) => (n.0 as nat, n.1 as nat) == slots_needed(entries_of(list@), name@),
                Err(k) => overlong(entries_of(list@), name@, k as int),
            },
    {
        let ghost es = entries_of(list@);
        let mut n_tx: usize = 0;
        let mut n_rx: usize = 0;
        let mut k: usize = 0;
        assert(es.take(0) =~= Seq::<Entry>::empty());
        while k < list.len()
            invariant
                k <= list.len(),
                es == entries_of(list@),
                (n_tx as nat, n_rx as nat) == slots_needed(es.take(k as int), name@),
            decreases list.len() - k,
        {
            let entry = &list[k];
            proof {
                assert(es[k as int] == (entry.0@, entry.1@, entry.2, entry.3));
                assert(es.take(k + 1).drop_last() =~= es.take(k as int));
                assert(es.take(k + 1).last() == es[k as int]);
            }
            if same_text(&entry.0, name) {
                if entry.2 == usize::MAX {
                    return Err(k);
                }
                if entry.2 + 1 > n_tx {
                    n_tx = entry.2 + 1;
                }
            }
            if same_text(&entry.1, name) {
                if entry.3 == usize::MAX {
                    return Err(k);
                }
                if entry.3 + 1 > n_rx {
                    n_rx = entry.3 + 1;
                }
            }
            k += 1;
        }
        assert(es.take(es.len() as int) =~= es);
        Ok((n_tx, n_rx))
    }

    /// Attaches an addon: adds a vertex for it and makes the replacements
    /// of the request, those of the sending direction first.
    ///
    /// The addon gets as many outputs and inputs as the replacements name
    /// slots of it, and a new engine id, which is returned. Nothing is
    /// changed when the request is refused: because an engine of the
    /// addon's name is there already, because no id is left, or because a
    /// replacement names an engine or a slot that is not there.
    pub fn attach_addon(&mut self, mint: &mut IdMint, req: &AddonRequest, flush: bool) -> (res:
        Result<u64, GraphError>)
        requires
            old(self).wf(),
            forall|w: int|
                0 <= w < old(self)@.vertices.len() ==> old(mint).issued().contains(
                    (#[trigger] old(self)@.vertices[w]).id,
                ),
        ensures
            final(self).wf(),
            forall|w: int|
                0 <= w < final(self)@.vertices.len() ==> final(mint).issued().contains(
                    (#[trigger] final(self)@.vertices[w]).id,
                ),
            old(mint).issued().subset_of(final(mint).issued()),
            attach_post(
                old(self)@,
                old(mint).issued(),
                req.addon_engine@,
                entries_of(req.tx_channels_replacements@),
                entries_of(req.rx_channels_replacements@),
                flush,
                res,
                final(self)@,
                final(mint).issued(),
            ),
            forall|w: int|
                0 <= w < old(self)@.vertices.len() ==> (#[trigger] final(self)@.vertices[w]).id
                    == old(self)@.vertices[w].id,
            res is Err ==> final(self)@.vertices.len() == old(self)@.vertices.len(),
            res is Ok ==> final(self)@.vertices.len() == old(self)@.vertices.len() + 1,
            res matches Ok(id) ==> final(self)@.vertices[old(self)@.vertices.len() as int].id == id,
    {
        if self.position(&req.addon_engine).is_some() {
            return Err(GraphError::Exists);
        }
        let (tx_a, rx_a) = match Self::count_slots(&req.tx_channels_replacements, &req.addon_engine) {
            Ok(n) => n,
            Err(k) => {
                return Err(GraphError::BadIndex(Direction::Egress, k));
            },
        };
        let (tx_b, rx_b) = match Self::count_slots(&req.rx_channels_replacements, &req.addon_engine) {
            Ok(n) => n,
            Err(k) => {
                return Err(GraphError::BadIndex(Direction::Ingress, k));
            },
        };
        let n_tx = if tx_a < tx_b {
            tx_b
        } else {
            tx_a
        };
        let n_rx = if rx_a < rx_b {
            rx_b
        } else {
            rx_a
        };
        let id = match mint.mint() {
            Some(id) => id,
            None => {
                return Err(GraphError::OutOfIds);
            },
        };
        let n_vertices = self.vertices.len();
        let n_edges = self.edges.len();
        let name = req.addon_engine.clone();
        let engine_type = req.addon_engine.clone();
        proof {
            assert forall|w: int| 0 <= w < self@.vertices.len() implies (
            #[trigger] self@.vertices[w]).id != id by {}
        }
        let w = self.add_engine(id, name, engine_type, n_tx, n_rx);
        let ghost g = self@;
        let ghost es_tx = entries_of(req.tx_channels_replacements@);
        let ghost es_rx = entries_of(req.rx_channels_replacements@);
        let resolved = match self.resolve(&req.tx_channels_replacements, Direction::Egress) {
            Ok(rs_tx) => {
                match self.resolve(&req.rx_channels_replacements, Direction::Ingress) {
                    Ok(mut rs_rx) => {
                        let mut rs = rs_tx;
                        rs.append(&mut rs_rx);
                        Ok(rs)
                    },
                    Err(e) => Err(e),
                }
            },
            Err(e) => Err(e),
        };
        match resolved {
            Ok(rs) => {
                proof {
                    assert forall|k: int| 0 <= k < rs@.len() implies g.permits(#[trigger] rs@[k]) by {
                        if k < es_tx.len() {
                            assert(rs@[k] == g.resolved(es_tx)[k]);
                        } else {
                            assert(rs@[k] == g.resolved(es_rx)[k - es_tx.len()]);
                        }
                    }
                }
                self.rewire(&rs, flush);
                proof {
                    assert(rs@ =~= g.resolved(es_tx) + g.resolved(es_rx));
                    lemma_rewired_ids(g, rs@, flush);
                    assert forall|v: int| 0 <= v < self@.vertices.len() implies mint.issued().contains(
                        (#[trigger] self@.vertices[v]).id,
                    ) by {
                        assert(self@.vertices[v].id == g.vertices[v].id);
                        if v < n_vertices {
                            assert(g.vertices[v] == old(self)@.vertices[v]);
                        }
                    }
                }
                Ok(id)
            },
            Err(e) => {
                self.vertices.pop();
                self.edges.truncate(n_edges);
                proof {
                    assert forall|i: int| 0 <= i < old(self)@.vertices.len() implies self@.vertices[i]
                        == old(self)@.vertices[i] by {
                        assert(g.vertices[i] == old(self)@.vertices[i]);
                    }
                    assert(self@.vertices =~= old(self)@.vertices);
                    assert(self@.edges =~= old(self)@.edges);
                    let name = req.addon_engine@;
                    assert(g.refuses(es_tx, es_rx, e));
                    assert(n_tx as nat == larger(
                        slots_needed(es_tx, name).0,
                        slots_needed(es_rx, name).0,
                    ));
                    assert(n_rx as nat == larger(
                        slots_needed(es_tx, name).1,
                        slots_needed(es_rx, name).1,
                    ));
                    assert(old(self)@.added(id, name, name, n_tx as nat, n_rx as nat).refuses(
                        es_tx,
                        es_rx,
                        e,
                    ));
                    assert(e is UnknownEngine || e is Busy || e is BadIndex);
                }
                Err(e)
            },
        }
    }

    /// Detaches an addon: makes the replacements of the request, those of
    /// the sending direction first, and terminates the addon's vertex.
    ///
    /// The replacements must connect the engines that are left among
    /// themselves: none may name the addon, and every slot through which
    /// another engine writes to an edge that the addon reads, or reads an
    /// edge that the addon writes, must get a new edge. Then, after the
    /// detach, no engine that is left reaches the addon. Nothing is changed
    /// when the request is refused.
    pub fn detach_addon(&mut self, req: &AddonRequest, flush: bool) -> (res: Result<(), GraphError>)
        requires
            old(self).wf(),
        ensures
            final(self).wf(),
            detach_post(
                old(self)@,
                req.addon_engine@,
                entries_of(req.tx_channels_replacements@),
                entries_of(req.rx_channels_replacements@),
                flush,
                res,
                final(self)@,
            ),
            final(self)@.vertices.len() == old(self)@.vertices.len(),
            forall|w: int|
                0 <= w < old(self)@.vertices.len() ==> (#[trigger] final(self)@.vertices[w]).id
                    == old(self)@.vertices[w].id,
    {
        let x = match self.position(&req.addon_engine) {
            Some(x) => x,
            None => {
                return Err(GraphError::NotFound);
            },
        };
        let ghost g0 = old(self)@;
        let ghost g = g0.terminated(x as int);
        let saved = self.vertices[x].state;
        proof {
            assert(g0.vertices[x as int] == self.vertices@[x as int]@);
        }
        self.vertices[x].state = Lifecycle::Terminated;
        proof {
            assert(self@.vertices =~= g.vertices) by {
                assert forall|i: int| 0 <= i < g.vertices.len() implies self@.vertices[i]
                    == g.vertices[i] by {
                    assert(self@.vertices[i] == self.vertices@[i]@);
                    assert(g0.vertices[i] == old(self).vertices@[i]@);
                }
            }
            assert(self@ == g);
            lemma_terminated_wf(g0, x as int);
        }
        let resolved = match self.resolve(&req.tx_channels_replacements, Direction::Egress) {
            Ok(rs_tx) => {
                match self.resolve(&req.rx_channels_replacements, Direction::Ingress) {
                    Ok(mut rs_rx) => {
                        let mut rs = rs_tx;
                        rs.append(&mut rs_rx);
                        Ok(rs)
                    },
                    Err(e) => Err(e),
                }
            },
            Err(e) => Err(e),
        };
        let ghost es_tx = entries_of(req.tx_channels_replacements@);
        let ghost es_rx = entries_of(req.rx_channels_replacements@);
        let outcome = match resolved {
            Ok(rs) => {
                proof {
                    assert(rs@ =~= g.resolved(es_tx) + g.resolved(es_rx));
                    assert forall|k: int| 0 <= k < rs@.len() implies g.permits(#[trigger] rs@[k]) by {
                        if k < es_tx.len() {
                            assert(rs@[k] == g.resolved(es_tx)[k]);
                        } else {
                            assert(rs@[k] == g.resolved(es_rx)[k - es_tx.len()]);
                        }
                    }
                    lemma_cuts_ignores_state(g0, x as int, rs@);
                }
                if self.cuts(x, &rs) {
                    Ok(rs)
                } else {
                    Err(GraphError::StillWired)
                }
            },
            Err(e) => {
                proof {
                    assert(g.refuses(es_tx, es_rx, e));
                }
                Err(e)
            },
        };
        match outcome {
            Ok(rs) => {
                self.rewire(&rs, flush);
                // The length is a machine number: this bounds the arena.
                let _bound = self.edges.len();
                proof {
                    lemma_rewired_ids(g, rs@, flush);
                    lemma_detached_is_unreachable(g0, x as int, rs@, flush);
                }
                Ok(())
            },
            Err(e) => {
                self.vertices[x].state = saved;
                proof {
                    assert(self@.vertices =~= g0.vertices) by {
                        assert forall|i: int| 0 <= i < g0.vertices.len() implies self@.vertices[i]
                            == g0.vertices[i] by {
                            assert(self@.vertices[i] == self.vertices@[i]@);
                            assert(g.vertices[i] == g0.terminated(x as int).vertices[i]);
                        }
                    }
                }
                Err(e)
            },
        }
    }

    /// Moves vertex `w` on in its life: a new engine starts running, a
    /// running one is suspended, a suspended one runs again or terminates.
    /// Any other move is refused and changes nothing.
    pub fn transition(&mut self, w: usize, to: Lifecycle) -> (ok: bool)
        requires
            old(self).wf(),
            w < old(self)@.vertices.len(),
        ensures
            final(self).wf(),
            ok == may_become(old(self)@.vertices[w as int].state, to),
            ok ==> final(self)@ == (GraphView {
                vertices: old(self)@.vertices.update(
                    w as int,
                    VertexView { state: to, ..old(self)@.vertices[w as int] },
                ),
                ..old(self)@
            }),
            !ok ==> final(self)@ == old(self)@,
    {
        let from = self.vertices[w].state;
        proof {
            assert(old(self)@.vertices[w as int] == self.vertices@[w as int]@);
        }
        let ok = match (from, to) {
            (Lifecycle::New, Lifecycle::Running) => true,
            (Lifecycle::Running, Lifecycle::Suspended) => true,
            (Lifecycle::Suspended, Lifecycle::Running) => true,
            (Lifecycle::Suspended, Lifecycle::Terminated) => true,
            _ => false,
        };
        if ok {
            self.vertices[w].state = to;
            proof {
                let g0 = old(self)@;
                let h = GraphView {
                    vertices: g0.vertices.update(
                        w as int,
                        VertexView { state: to, ..g0.vertices[w as int] },
                    ),
                    ..g0
                };
                assert(self@.vertices =~= h.vertices) by {
                    assert forall|i: int| 0 <= i < h.vertices.len() implies self@.vertices[i]
                        == h.vertices[i] by {
                        assert(self@.vertices[i] == self.vertices@[i]@);
                        assert(g0.vertices[i] == old(self).vertices@[i]@);
                    }
                }
                assert forall|a: int, b: int| h.live(a) && h.live(b) && a != b implies h.vertices[a].name
                    != h.vertices[b].name by {
                    assert(g0.live(a) && g0.live(b));
                }
                assert forall|a: int, b: int| 0 <= a < b < h.vertices.len() implies h.vertices[a].id
                    != h.vertices[b].id by {
                    assert(g0.vertices[a].id != g0.vertices[b].id);
                }
                assert forall|v: int, k: int|
                    0 <= v < h.vertices.len() && 0 <= k < h.vertices[v].tx.len() implies (
                #[trigger] h.vertices[v].tx[k]).0 < h.edges.len() by {
                    assert(h.vertices[v].tx[k] == g0.vertices[v].tx[k]);
                }
                assert forall|v: int, k: int|
                    0 <= v < h.vertices.len() && 0 <= k < h.vertices[v].rx.len() implies (
                #[trigger] h.vertices[v].rx[k]).0 < h.edges.len() by {
                    assert(h.vertices[v].rx[k] == g0.vertices[v].rx[k]);
                }
            }
        }
        ok
    }
}

/// Replacements leave the vertices their ids.
pub proof fn lemma_rewired_ids(g: GraphView, rs: Seq<Rewire>, flush: bool)
    requires
        g.wf(),
        g.permits_all(rs),
    ensures
        g.rewired(rs, flush).vertices.len() == g.vertices.len(),
        forall|w: int|
            0 <= w < g.vertices.len() ==> {
                let old_v = g.vertices[w];
                let new_v = #[trigger] g.rewired(rs, flush).vertices[w];
                &&& new_v.id == old_v.id
                &&& new_v.name == old_v.name
                &&& new_v.state == old_v.state
                &&& new_v.tx.len() == old_v.tx.len()
                &&& new_v.rx.len() == old_v.rx.len()
            },
    decreases rs.len(),
{
    if rs.len() > 0 {
        let init = rs.drop_last();
        let r = rs.last();
        assert forall|k: int| 0 <= k < init.len() implies g.permits(#[trigger] init[k]) by {
            assert(init[k] == rs[k]);
        }
        lemma_rewired_ids(g, init, flush);
        let m = g.rewired(init, flush);
        assert(g.permits(rs[rs.len() - 1]));
        let h = m.replaced(r, flush);
        let fresh = EdgeId(m.edges.len() as usize);
        let from = m.vertices[r.from as int];
        let written = m.vertices.update(
            r.from as int,
            VertexView { tx: from.tx.update(r.idx_from as int, fresh), ..from },
        );
        let to = written[r.to as int];
        assert(h.vertices == written.update(
            r.to as int,
            VertexView { rx: to.rx.update(r.idx_to as int, fresh), ..to },
        ));
        assert forall|w: int| 0 <= w < g.vertices.len() implies {
            let old_v = g.vertices[w];
            let new_v = #[trigger] h.vertices[w];
            &&& new_v.id == old_v.id
            &&& new_v.name == old_v.name
            &&& new_v.state == old_v.state
            &&& new_v.tx.len() == old_v.tx.len()
            &&& new_v.rx.len() == old_v.rx.len()
        } by {
            if w == r.to {
                assert(h.vertices[w] == (VertexView { rx: to.rx.update(r.idx_to as int, fresh), ..to }));
                if w == r.from {
                    assert(to == (VertexView { tx: from.tx.update(r.idx_from as int, fresh), ..from }));
                } else {
                    assert(to == m.vertices[w]);
                }
            } else {
                assert(h.vertices[w] == written[w]);
            }
        }
    }
}

} // verus!
