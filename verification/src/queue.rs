//! In-process edges between the engines of a subscription.
//!
//! An edge is a first-in, first-out queue of type-erased messages. The
//! edges of a subscription live in one arena and are known by their index
//! in it, so that an engine keeps its edges when the graph around it is
//! rewired.

use vstd::prelude::*;
use std::collections::VecDeque;
use crate::error::TryRecvError;
use crate::interface::MessageTemplateErased;

verus! {

/// A message as it travels over an edge.
pub type ErasedMsg = MessageTemplateErased;

/// What an edge holds.
pub ghost struct EdgeState {
    /// The messages under way, oldest first.
    pub items: Seq<ErasedMsg>,
    /// Whether the edge has been closed.
    pub closed: bool,
}

/// The message that a closed edge refused.
#[derive(Clone, Copy, Debug, PartialEq, Eq, Structural, Hash)]
pub struct SendError(pub ErasedMsg);

/// Index of an edge in its arena.
#[derive(Clone, Copy, Debug, PartialEq, Eq, Structural, Hash)]
pub struct EdgeId(pub usize);

/// A queue of messages between two engines.
pub struct Edge {
    items: VecDeque<ErasedMsg>,
    closed: bool,
}

impl View for Edge {
    type V = EdgeState;

    closed spec fn view(&self) -> EdgeState {
        EdgeState { items: self.items@, closed: self.closed }
    }
}

impl Edge {
    /// An open edge with nothing under way.
    pub fn new() -> (e: Edge)
        ensures
            e@ == (EdgeState { items: Seq::empty(), closed: false }),
    {
        Edge { items: VecDeque::new(), closed: false }
    }

    /// Number of messages under way.
    pub fn len(&self) -> (n: usize)
        ensures
            n == self@.items.len(),
    {
        self.items.len()
    }

    /// Whether the edge has been closed.
    pub fn is_closed(&self) -> (b: bool)
        ensures
            b == self@.closed,
    {
        self.closed
    }

    /// Appends `msg`, unless the edge is closed.
    pub fn send(&mut self, msg: ErasedMsg) -> (res: Result<(), SendError>)
        ensures
            (res, final(self)@) == spec_send(old(self)@, msg),
    {
        if self.closed {
            Err(SendError(msg))
        } else {
            self.items.push_back(msg);
            Ok(())
        }
    }

    /// Takes the oldest message. An edge with nothing under way is empty
    /// while it is open and disconnected once it is closed.
    pub fn try_recv(&mut self) -> (res: Result<ErasedMsg, TryRecvError>)
        ensures
            res == spec_try_recv(old(self)@).0,
            final(self)@ == spec_try_recv(old(self)@).1,
    {
        match self.items.pop_front() {
            Some(m) => Ok(m),
            None => {
                if self.closed {
                    Err(TryRecvError::Disconnected)
                } else {
                    Err(TryRecvError::Empty)
                }
            },
        }
    }

    /// Closes the edge; what is under way can still be received.
    pub fn close(&mut self)
        ensures
            final(self)@ == (EdgeState { closed: true, ..old(self)@ }),
    {
        self.closed = true;
    }
}

/// Result of a receive on an edge in state `e`, and the edge's state after
/// it.
pub open spec fn spec_try_recv(e: EdgeState) -> (Result<ErasedMsg, TryRecvError>, EdgeState) {
    if e.items.len() > 0 {
        (Ok(e.items[0]), EdgeState { items: e.items.subrange(1, e.items.len() as int), ..e })
    } else if e.closed {
        (Err(TryRecvError::Disconnected), e)
    } else {
        (Err(TryRecvError::Empty), e)
    }
}

/// Result of sending `msg` on an edge in state `e`, and the edge's state
/// after it.
pub open spec fn spec_send(e: EdgeState, msg: ErasedMsg) -> (Result<(), SendError>, EdgeState) {
    if e.closed {
        (Err(SendError(msg)), e)
    } else {
        (Ok(()), EdgeState { items: e.items.push(msg), ..e })
    }
}

/// What the two ends of an edge do to it.
pub ghost enum EdgeOp {
    /// The producer sends a message.
    Send(ErasedMsg),
    /// The consumer tries to receive one.
    Recv,
}

/// What a run of operations makes of an edge.
pub ghost struct Trace {
    /// The edge after the run.
    pub edge: EdgeState,
    /// The messages that the edge accepted, in the order of their sending.
    pub accepted: Seq<ErasedMsg>,
    /// The messages that were received, in the order of their receipt.
    pub delivered: Seq<ErasedMsg>,
}

/// The run of `ops` on an edge that starts in state `e`.
pub open spec fn run(e: EdgeState, ops: Seq<EdgeOp>) -> Trace
    decreases ops.len(),
{
    if ops.len() == 0 {
        Trace { edge: e, accepted: Seq::empty(), delivered: Seq::empty() }
    } else {
        let t = run(e, ops.drop_last());
        match ops.last() {
            EdgeOp::Send(m) => {
                let sent = spec_send(t.edge, m);
                Trace {
                    edge: sent.1,
                    accepted: if sent.0 is Ok {
                        t.accepted.push(m)
                    } else {
                        t.accepted
                    },
                    ..t
                }
            },
            EdgeOp::Recv => {
                let got = spec_try_recv(t.edge);
                Trace {
                    edge: got.1,
                    delivered: match got.0 {
                        Ok(m) => t.delivered.push(m),
                        Err(_) => t.delivered,
                    },
                    ..t
                }
            },
        }
    }
}

/// Messages leave an edge in the order in which they entered it: whatever
/// the two ends do, what has been received, followed by what is under way,
/// is what the edge held at first followed by what it accepted since.
pub proof fn lemma_delivery_order(e: EdgeState, ops: Seq<EdgeOp>)
    ensures
        run(e, ops).delivered + run(e, ops).edge.items == e.items + run(e, ops).accepted,
        run(e, ops).edge.closed == e.closed,
    decreases ops.len(),
{
    let t = run(e, ops);
    if ops.len() == 0 {
        assert(t.delivered + t.edge.items =~= e.items + t.accepted);
    } else {
        lemma_delivery_order(e, ops.drop_last());
        let prev = run(e, ops.drop_last());
        assert(prev.delivered + prev.edge.items == e.items + prev.accepted);
        match ops.last() {
            EdgeOp::Send(m) => {
                if !prev.edge.closed {
                    assert(t.delivered + t.edge.items =~= (prev.delivered + prev.edge.items).push(
                        m,
                    ));
                    assert(e.items + t.accepted =~= (e.items + prev.accepted).push(m));
                }
            },
            EdgeOp::Recv => {
                if prev.edge.items.len() > 0 {
                    assert(t.delivered + t.edge.items =~= prev.delivered + prev.edge.items);
                }
            },
        }
    }
}

/// Of two messages that an edge accepted, the one sent first is received
/// first: the `k`-th message received from an edge that was empty at first
/// is the `k`-th it accepted.
pub proof fn lemma_received_in_sending_order(ops: Seq<EdgeOp>, closed: bool, k: int)
    requires
        0 <= k < run(EdgeState { items: Seq::empty(), closed }, ops).delivered.len(),
    ensures
        k < run(EdgeState { items: Seq::empty(), closed }, ops).accepted.len(),
        run(EdgeState { items: Seq::empty(), closed }, ops).delivered[k] == run(
            EdgeState { items: Seq::empty(), closed },
            ops,
        ).accepted[k],
{
    let e = EdgeState { items: Seq::empty(), closed };
    let t = run(e, ops);
    lemma_delivery_order(e, ops);
    assert(e.items + t.accepted =~= t.accepted);
    assert((t.delivered + t.edge.items)[k] == t.delivered[k]);
}

/// The edges of one subscription.
pub struct EdgeArena {
    edges: Vec<Edge>,
}

impl View for EdgeArena {
    type V = Seq<EdgeState>;

    closed spec fn view(&self) -> Seq<EdgeState> {
        Seq::new(self.edges@.len(), |i: int| self.edges@[i]@)
    }
}

impl EdgeArena {
    /// An arena without edges.
    pub fn new() -> (a: EdgeArena)
        ensures
            a@ == Seq::<EdgeState>::empty(),
    {
        let a = EdgeArena { edges: Vec::new() };
        assert(a@ =~= Seq::<EdgeState>::empty());
        a
    }

    /// Number of edges.
    pub fn len(&self) -> (n: usize)
        ensures
            n == self@.len(),
    {
        self.edges.len()
    }

    /// Adds an open edge with nothing under way and returns its index.
    pub fn add_edge(&mut self) -> (id: EdgeId)
        ensures
            id.0 == old(self)@.len(),
            final(self)@ == old(self)@.push(EdgeState { items: Seq::empty(), closed: false }),
    {
        let id = EdgeId(self.edges.len());
        self.edges.push(Edge::new());
        assert(self@ =~= old(self)@.push(EdgeState { items: Seq::empty(), closed: false }));
        id
    }

    /// Drops the edges from index `len` on.
    pub(crate) fn truncate(&mut self, len: usize)
        requires
            len <= old(self)@.len(),
        ensures
            final(self)@ == old(self)@.take(len as int),
    {
        self.edges.truncate(len);
        assert(self@ =~= old(self)@.take(len as int));
    }

    /// Number of messages under way on edge `id`.
    pub fn pending(&self, id: EdgeId) -> (n: usize)
        requires
            id.0 < self@.len(),
        ensures
            n == self@[id.0 as int].items.len(),
    {
        self.edges[id.0].len()
    }

    /// Whether edge `id` has been closed.
    pub fn is_closed(&self, id: EdgeId) -> (b: bool)
        requires
            id.0 < self@.len(),
        ensures
            b == self@[id.0 as int].closed,
    {
        self.edges[id.0].is_closed()
    }

    /// Appends `msg` to edge `id`, unless that edge is closed.
    pub fn send(&mut self, id: EdgeId, msg: ErasedMsg) -> (res: Result<(), SendError>)
        requires
            id.0 < old(self)@.len(),
        ensures
            res == spec_send(old(self)@[id.0 as int], msg).0,
            final(self)@ == old(self)@.update(
                id.0 as int,
                spec_send(old(self)@[id.0 as int], msg).1,
            ),
    {
        let res = self.edges[id.0].send(msg);
        assert(self@ =~= old(self)@.update(id.0 as int, spec_send(old(self)@[id.0 as int], msg).1));
        res
    }

    /// Takes the oldest message of edge `id`.
    pub fn try_recv(&mut self, id: EdgeId) -> (res: Result<ErasedMsg, TryRecvError>)
        requires
            id.0 < old(self)@.len(),
        ensures
            res == spec_try_recv(old(self)@[id.0 as int]).0,
            final(self)@ == old(self)@.update(
                id.0 as int,
                spec_try_recv(old(self)@[id.0 as int]).1,
            ),
    {
        let res = self.edges[id.0].try_recv();
        assert(self@ =~= old(self)@.update(id.0 as int, spec_try_recv(old(self)@[id.0 as int]).1));
        res
    }

    /// Moves the messages under way on edge `src` to the end of edge `dst`,
    /// in their order.
    pub fn drain_into(&mut self, src: EdgeId, dst: EdgeId)
        requires
            src.0 < old(self)@.len(),
            dst.0 < old(self)@.len(),
            src != dst,
            !old(self)@[dst.0 as int].closed,
        ensures
            final(self)@ == old(self)@.update(
                src.0 as int,
                EdgeState { items: Seq::empty(), ..old(self)@[src.0 as int] },
            ).update(
                dst.0 as int,
                EdgeState {
                    items: old(self)@[dst.0 as int].items + old(self)@[src.0 as int].items,
                    ..old(self)@[dst.0 as int]
                },
            ),
    {
        let ghost from = old(self)@[src.0 as int];
        let ghost to = old(self)@[dst.0 as int];
        let ghost mut moved: int = 0;
        assert(from.items.skip(0) =~= from.items);
        assert(to.items + from.items.take(0) =~= to.items);
        assert(self@ =~= old(self)@.update(src.0 as int, from).update(dst.0 as int, to));
        while self.pending(src) > 0
            invariant
                src.0 < self@.len(),
                dst.0 < self@.len(),
                src.0 < old(self)@.len(),
                dst.0 < old(self)@.len(),
                self@.len() == old(self)@.len(),
                src != dst,
                0 <= moved <= from.items.len(),
                from == old(self)@[src.0 as int],
                to == old(self)@[dst.0 as int],
                !to.closed,
                self@ == old(self)@.update(
                    src.0 as int,
                    EdgeState { items: from.items.skip(moved), ..from },
                ).update(
                    dst.0 as int,
                    EdgeState { items: to.items + from.items.take(moved), ..to },
                ),
            decreases self@[src.0 as int].items.len(),
        {
            proof {
                assert(self@[src.0 as int].items == from.items.skip(moved));
                assert(moved < from.items.len());
            }
            match self.try_recv(src) {
                Ok(m) => {
                    let sent = self.send(dst, m);
                    proof {
                        assert(m == from.items[moved]);
                        assert(from.items.skip(moved).subrange(
                            1,
                            from.items.skip(moved).len() as int,
                        ) =~= from.items.skip(moved + 1));
                        assert((to.items + from.items.take(moved)).push(m) =~= to.items
                            + from.items.take(moved + 1));
                        moved = moved + 1;
                        assert(self@ =~= old(self)@.update(
                            src.0 as int,
                            EdgeState { items: from.items.skip(moved), ..from },
                        ).update(
                            dst.0 as int,
                            EdgeState { items: to.items + from.items.take(moved), ..to },
                        ));
                    }
                },
                Err(_) => {
                    proof {
                        assert(false);
                    }
                },
            }
        }
        proof {
            assert(from.items.skip(moved) =~= Seq::<ErasedMsg>::empty());
            assert(from.items.take(moved) =~= from.items);
        }
    }

    /// Closes edge `id`.
    pub fn close(&mut self, id: EdgeId)
        requires
            id.0 < old(self)@.len(),
        ensures
            final(self)@ == old(self)@.update(
                id.0 as int,
                EdgeState { closed: true, ..old(self)@[id.0 as int] },
            ),
    {
        self.edges[id.0].close();
        assert(self@ =~= old(self)@.update(
            id.0 as int,
            EdgeState { closed: true, ..old(self)@[id.0 as int] },
        ));
    }
}

} // verus!
