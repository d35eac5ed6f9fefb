//! The head engine of a subscription as a transition system.
//!
//! The engine stands between an application and the engines behind it. Its
//! state is what the functions here take and return; each function says
//! what one probe of the engine, or one whole step, makes of a state.

use vstd::prelude::*;
use crate::addr_map::{consistent, inserted, switched, AddressSpace, Region, ShmPtr};
use crate::backoff::{doubled, halved, DP_LIMIT};
use crate::cmd::{Command, Completion, CompletionKind, Pending, TransportType};
use crate::customer::{batched, CompView, CustomerView};
use crate::dp;
use crate::dp::WorkRequest;
use crate::error::{DatapathError, EngineError, Error, IpcError, ResourceError};
use crate::interface::{EngineStatus, MessageTemplateErased, SchedulingMode};
use crate::node::edges_exist;
use crate::queue::{spec_send, spec_try_recv, EdgeId, EdgeState, ErasedMsg};
use crate::upgrade::{Counters, Version};

verus! {

/// Most work requests taken from the work queue by one probe.
pub const BUF_LEN: usize = 32;

/// After this many milliseconds without a look at the control socket, the
/// next exhausted spin budget forces one.
pub const CMD_MAX_INTERVAL_MS: u64 = 1000;

/// What a probe found.
#[derive(Clone, Copy, Debug, PartialEq, Eq, Structural, Hash)]
pub enum Status {
    /// So many records were handled.
    Progress(usize),
    /// The peer of the probed channel is gone.
    Disconnected,
}

/// The functions whose messages the engine can reconstruct.
pub open spec fn known_func(func_id: u32) -> bool {
    func_id == 0
}

/// The messages that a run of work requests carries.
pub open spec fn messages(wrs: Seq<WorkRequest>) -> Seq<ErasedMsg> {
    wrs.map_values(|w: WorkRequest| w.erased())
}

/// Whether `k` is the answer of the transport engine to a command of kind
/// `p`.
pub open spec fn answers(k: CompletionKind, p: Pending) -> bool {
    match p {
        Pending::AllocShm => k is AllocShmInternal,
        Pending::Connect => k is ConnectInternal,
        Pending::Bind => k is Bind,
        Pending::NewMappedAddrs => k is NewMappedAddrsInternal,
    }
}

/// Whether `c` announces an accepted connection.
pub open spec fn is_new_connection(c: Completion) -> bool {
    c.0 matches Ok(k) && k is NewConnectionInternal
}

/// Whether `c` is the answer to the command that is waiting, if one is.
pub open spec fn is_reply(pending: Option<Pending>, c: Completion) -> bool {
    pending matches Some(p) && c.0 matches Ok(k) && answers(k, p)
}

/// The discipline of the channel from the transport engine: it carries
/// announcements of accepted connections and at most one other completion,
/// which answers the command that is waiting.
pub open spec fn stream_ok(pending: Option<Pending>, s: Seq<Completion>) -> bool {
    &&& forall|i: int|
        0 <= i < s.len() ==> is_new_connection(#[trigger] s[i]) || is_reply(pending, s[i])
    &&& forall|i: int, j: int|
        0 <= i < j < s.len() ==> is_new_connection(#[trigger] s[i]) || is_new_connection(
            #[trigger] s[j],
        )
}

/// What registering the regions of `entries` one after another, up to the
/// first that is refused, does to `regions`, and how it ends. An entry
/// gives a region's address in the daemon, its address in the application,
/// and its length.
pub open spec fn insert_all(regions: Set<Region>, entries: Seq<(u64, u64, u64)>) -> (
    Set<Region>,
    Result<(), ResourceError>,
)
    decreases entries.len(),
{
    if entries.len() == 0 {
        (regions, Ok(()))
    } else {
        let e = entries[0];
        let step = inserted(regions, Region { local: e.0, app: e.1, len: e.2 });
        match step.1 {
            Err(err) => (regions, Err(err)),
            Ok(()) => insert_all(step.0, entries.drop_first()),
        }
    }
}

/// How the outcome of a command is reported to the application.
pub open spec fn reply_of(result: Result<CompletionKind, Error>) -> CompView {
    match result {
        Ok(k) => CompView::Done(k),
        Err(e) => CompView::Failed(e.text()),
    }
}

/// The state of a head engine.
pub ghost struct EngineView {
    /// The regions that the daemon and the application both map.
    pub regions: Set<Region>,
    /// The channel to the application.
    pub customer: CustomerView,
    /// The edges that the engine writes to.
    pub tx_outputs: Seq<EdgeId>,
    /// The edges that the engine reads from.
    pub rx_inputs: Seq<EdgeId>,
    /// Commands handed to the transport engine and not yet taken by it.
    pub cmd_tx: Seq<Command>,
    /// Completions of the transport engine, not yet looked at.
    pub cmd_rx: Seq<Completion>,
    /// Whether the transport engine has gone.
    pub cmd_rx_closed: bool,
    /// The kind of the command that waits for its answer, if one does.
    pub pending: Option<Pending>,
    /// Steps taken since the spin budget was last exhausted.
    pub dp_spin_cnt: usize,
    /// The spin budget.
    pub backoff: usize,
    /// The scheduling mode that the application asked for.
    pub mode: SchedulingMode,
    /// The transport, once it has been chosen.
    pub transport_type: Option<TransportType>,
    /// When the control socket was last looked at, in milliseconds.
    pub last_cmd_ts: u64,
    /// The version of the engine.
    pub version: Version,
}

impl EngineView {
    /// The invariant of an engine's state.
    pub open spec fn wf(self) -> bool {
        &&& 1 <= self.backoff <= DP_LIMIT
        &&& self.dp_spin_cnt < self.backoff
        &&& consistent(self.regions)
        &&& forall|i: int|
            0 <= i < self.customer.wq.len() ==> known_func(
                (#[trigger] self.customer.wq[i]).erased().meta.func_id,
            )
        &&& stream_ok(self.pending, self.cmd_rx)
    }

    /// The counters and flags of the engine.
    pub open spec fn counters(self) -> Counters {
        Counters {
            backoff: self.backoff,
            dp_spin_cnt: self.dp_spin_cnt,
            last_cmd_ts: self.last_cmd_ts,
            mode: self.mode,
            transport_type: self.transport_type,
            pending: self.pending,
        }
    }

    /// The engine has an output and an input, and its edges exist.
    pub open spec fn wired(self, edges: Seq<EdgeState>) -> bool {
        &&& self.tx_outputs.len() > 0
        &&& self.rx_inputs.len() > 0
        &&& edges_exist(self.tx_outputs, edges)
        &&& edges_exist(self.rx_inputs, edges)
    }

    /// Index of the first output.
    pub open spec fn tx0(self) -> int {
        self.tx_outputs[0].0 as int
    }

    /// Index of the first input.
    pub open spec fn rx0(self) -> int {
        self.rx_inputs[0].0 as int
    }

    /// This state with `customer` in place of its channel.
    pub open spec fn with_customer(self, customer: CustomerView) -> EngineView {
        EngineView { customer, ..self }
    }

    /// Publishing the message of `req` on the first output; a closed edge
    /// refuses it.
    pub open spec fn process_dp(self, edges: Seq<EdgeState>, req: WorkRequest) -> (
        Seq<EdgeState>,
        Result<(), DatapathError>,
    ) {
        let sent = spec_send(edges[self.tx0()], req.erased());
        (
            edges.update(self.tx0(), sent.1),
            match sent.0 {
                Ok(()) => Ok(()),
                Err(_) => Err(DatapathError::InternalQueueSend),
            },
        )
    }

    /// Number of work requests that the next probe of the work queue takes:
    /// as many as are there, up to the free slots of the completion queue
    /// and up to `BUF_LEN`.
    pub open spec fn batch_len(self) -> nat {
        let avail = self.customer.avail_wc_slots()->0;
        batched(self.customer.wq.len(), batched(avail, BUF_LEN as nat))
    }

    /// The probe of the work queue: a batch of work requests is taken and
    /// the message of each is published, in order, on the first output.
    /// The progress reported is the number of messages published.
    #[verifier::opaque]
    pub open spec fn check_customer(self, edges: Seq<EdgeState>) -> (
        EngineView,
        Seq<EdgeState>,
        Result<Status, DatapathError>,
    ) {
        if self.customer.avail_wc_slots() is None {
            (self, edges, Err(DatapathError::ShmRingbuf))
        } else if self.batch_len() == 0 {
            (self, edges, Ok(Status::Progress(0)))
        } else {
            let n = self.batch_len() as int;
            let taken = self.with_customer(
                CustomerView { wq: self.customer.wq.skip(n), ..self.customer },
            );
            let tx = edges[self.tx0()];
            if tx.closed {
                (taken, edges, Err(DatapathError::InternalQueueSend))
            } else {
                (
                    taken,
                    edges.update(
                        self.tx0(),
                        EdgeState {
                            items: tx.items + messages(self.customer.wq.take(n)),
                            ..tx
                        },
                    ),
                    Ok(Status::Progress(n as usize)),
                )
            }
        }
    }

    /// The completion that reports message `m` to the application, with the
    /// message's address carried over to the application's address space.
    pub open spec fn completion_of(self, m: ErasedMsg) -> Option<dp::Completion> {
        match switched(self.regions, ShmPtr { addr: m.shmptr, space: AddressSpace::Local }) {
            Some(q) => Some(
                dp::Completion { erased: MessageTemplateErased { meta: m.meta, shmptr: q.addr } },
            ),
            None => None,
        }
    }

    /// The probe of the first input: the oldest message, if there is one
    /// and the completion queue has a free slot, is taken and reported to
    /// the application. A message outside every shared region is an error.
    #[verifier::opaque]
    pub open spec fn check_input_queue(self, edges: Seq<EdgeState>) -> (
        EngineView,
        Seq<EdgeState>,
        Result<Status, DatapathError>,
    ) {
        let rx = edges[self.rx0()];
        if rx.items.len() == 0 {
            (
                self,
                edges,
                Ok(
                    if rx.closed {
                        Status::Disconnected
                    } else {
                        Status::Progress(0)
                    },
                ),
            )
        } else if self.customer.avail_wc_slots() is None {
            (self, edges, Err(DatapathError::ShmRingbuf))
        } else if self.customer.avail_wc_slots() == Some(0nat) {
            (self, edges, Ok(Status::Progress(0)))
        } else {
            let rest = edges.update(self.rx0(), spec_try_recv(rx).1);
            match self.completion_of(rx.items[0]) {
                None => (self, rest, Err(DatapathError::Resource(ResourceError::NotFound))),
                Some(wc) => (
                    self.with_customer(
                        CustomerView { cq: self.customer.cq.push(wc), ..self.customer },
                    ),
                    rest,
                    Ok(Status::Progress(0)),
                ),
            }
        }
    }

    /// This state after `req` has been handed to the transport engine.
    pub open spec fn forward(self, req: Command, p: Pending) -> EngineView {
        EngineView { cmd_tx: self.cmd_tx.push(req), pending: Some(p), ..self }
    }

    /// What a command of the application does. The transport is set at most
    /// once. Every other command is handed to the transport engine, and
    /// its completion comes when that engine has answered.
    pub open spec fn process_cmd(self, req: Command) -> (EngineView, Result<CompletionKind, Error>) {
        match req {
            Command::SetTransport(t) => {
                if self.transport_type is Some {
                    (self, Err(Error::TransportType))
                } else {
                    (
                        EngineView { transport_type: Some(t), ..self },
                        Ok(CompletionKind::SetTransport),
                    )
                }
            },
            Command::AllocShm(_) => (self.forward(req, Pending::AllocShm), Err(Error::NoResponse)),
            Command::Connect(_) => (self.forward(req, Pending::Connect), Err(Error::NoResponse)),
            Command::Bind(_) => (self.forward(req, Pending::Bind), Err(Error::NoResponse)),
            Command::NewMappedAddrs(_) => (
                self.forward(req, Pending::NewMappedAddrs),
                Err(Error::NoResponse),
            ),
        }
    }

    /// Sends file descriptors, if any, and then a completion to the
    /// application. Nothing is sent to an application that is gone.
    pub open spec fn deliver(self, fds: Option<Seq<i32>>, c: CompView) -> (
        EngineView,
        Result<Status, Error>,
    ) {
        if !self.customer.connected {
            (self, Err(Error::Customer(IpcError::IpcSend)))
        } else {
            (
                self.with_customer(
                    CustomerView {
                        fds: match fds {
                            Some(f) => self.customer.fds.push(f),
                            None => self.customer.fds,
                        },
                        comps: self.customer.comps.push(c),
                        ..self.customer
                    },
                ),
                Ok(Status::Progress(1)),
            )
        }
    }

    /// The probe of the control socket. While a command waits for its
    /// answer no other is received; that the application is gone is seen
    /// all the same. A received command is processed, and its outcome is
    /// reported unless the completion comes later.
    #[verifier::opaque]
    pub open spec fn check_cmd(self) -> (EngineView, Result<Status, Error>) {
        let c = self.customer;
        if self.pending is Some {
            (
                self,
                Ok(
                    if c.connected {
                        Status::Progress(0)
                    } else {
                        Status::Disconnected
                    },
                ),
            )
        } else if c.recv_fault {
            (
                self.with_customer(CustomerView { recv_fault: false, ..c }),
                Err(Error::IpcTryRecv),
            )
        } else if c.cmds.len() == 0 {
            (
                self,
                Ok(
                    if c.connected {
                        Status::Progress(0)
                    } else {
                        Status::Disconnected
                    },
                ),
            )
        } else {
            let received = self.with_customer(
                CustomerView { cmds: c.cmds.subrange(1, c.cmds.len() as int), ..c },
            );
            let done = received.process_cmd(c.cmds[0]);
            if done.1 == Err::<CompletionKind, Error>(Error::NoResponse) {
                (done.0, Ok(Status::Progress(1)))
            } else {
                done.0.deliver(None, reply_of(done.1))
            }
        }
    }

    /// What a completion of the transport engine does: a new connection is
    /// announced to the application, and the answer to the waiting command
    /// is passed on, after the regions it reports have been registered.
    /// Any other completion breaks the discipline of the channel and is
    /// left out of account.
    pub open spec fn complete(self, comp: Completion) -> (EngineView, Result<Status, Error>) {
        let answered = EngineView { pending: None, ..self };
        match comp.0 {
            Ok(CompletionKind::NewConnectionInternal(handle, recv_mrs, fds)) => self.deliver(
                Some(fds@),
                CompView::Done(CompletionKind::NewConnection(handle, recv_mrs)),
            ),
            Ok(CompletionKind::AllocShmInternal(mr, memfd)) => answered.deliver(
                Some(seq![memfd]),
                CompView::Done(CompletionKind::AllocShm(mr)),
            ),
            Ok(CompletionKind::ConnectInternal(handle, recv_mrs, fds)) => answered.deliver(
                Some(fds@),
                CompView::Done(CompletionKind::Connect(handle, recv_mrs)),
            ),
            Ok(CompletionKind::Bind(handle)) => answered.deliver(
                None,
                CompView::Done(CompletionKind::Bind(handle)),
            ),
            Ok(CompletionKind::NewMappedAddrsInternal(entries)) => {
                let all = insert_all(self.regions, entries@);
                (EngineView { regions: all.0, ..answered }).deliver(
                    None,
                    reply_of(
                        match all.1 {
                            Ok(()) => Ok(CompletionKind::NewMappedAddrs),
                            Err(e) => Err(Error::Resource(e)),
                        },
                    ),
                )
            },
            _ => (self, Ok(Status::Progress(0))),
        }
    }

    /// The probe of the channel from the transport engine: its oldest
    /// completion, if there is one, is taken and acted on.
    #[verifier::opaque]
    pub open spec fn check_new_incoming_connection(self) -> (EngineView, Result<Status, Error>) {
        if self.cmd_rx.len() == 0 {
            (
                self,
                Ok(
                    if self.cmd_rx_closed {
                        Status::Disconnected
                    } else {
                        Status::Progress(0)
                    },
                ),
            )
        } else {
            (EngineView {
                cmd_rx: self.cmd_rx.subrange(1, self.cmd_rx.len() as int),
                ..self
            }).complete(self.cmd_rx[0])
        }
    }

    /// Whether the control socket is to be looked at: something waits on
    /// it, or it has not been looked at for longer than
    /// `CMD_MAX_INTERVAL_MS`.
    pub open spec fn control_due(self, now_ms: u64) -> bool {
        self.customer.has_control_command() || now_ms - self.last_cmd_ts > CMD_MAX_INTERVAL_MS
    }

    /// Whether the step that starts in this state exhausts the spin budget.
    pub open spec fn budget_spent(self) -> bool {
        self.dp_spin_cnt + 1 >= self.backoff
    }

    /// The end of a step whose spin budget is exhausted: the probe of the
    /// channel from the transport engine.
    pub open spec fn finish(self, edges: Seq<EdgeState>) -> (
        EngineView,
        Seq<EdgeState>,
        Result<EngineStatus, EngineError>,
    ) {
        let last = self.check_new_incoming_connection();
        match last.1 {
            Err(e) => (last.0, edges, Err(EngineError::Control(e))),
            Ok(_) => (last.0, edges, Ok(EngineStatus::Continue)),
        }
    }

    /// The part of a step that follows the two datapath probes.
    pub open spec fn control_step(self, edges: Seq<EdgeState>, now_ms: u64) -> (
        EngineView,
        Seq<EdgeState>,
        Result<EngineStatus, EngineError>,
    ) {
        if !self.budget_spent() {
            (EngineView { dp_spin_cnt: (self.dp_spin_cnt + 1) as usize, ..self }, edges, Ok(EngineStatus::Continue))
        } else if self.control_due(now_ms) {
            let probed = (EngineView {
                dp_spin_cnt: 0,
                last_cmd_ts: now_ms,
                backoff: halved(self.backoff),
                ..self
            }).check_cmd();
            match probed.1 {
                Err(e) => (probed.0, edges, Err(EngineError::Control(e))),
                Ok(Status::Disconnected) => (probed.0, edges, Ok(EngineStatus::Complete)),
                Ok(_) => probed.0.finish(edges),
            }
        } else {
            (EngineView { dp_spin_cnt: 0, backoff: doubled(self.backoff), ..self }).finish(edges)
        }
    }

    /// Whether the engine has nothing to do: no work request and no command
    /// waits, nothing is under way on the first input or from the transport
    /// engine, and the application is there.
    pub open spec fn idle(self, edges: Seq<EdgeState>) -> bool {
        &&& self.customer.wq.len() == 0
        &&& self.customer.avail_wc_slots() is Some
        &&& !self.customer.has_control_command()
        &&& self.cmd_rx.len() == 0
        &&& edges[self.rx0()].items.len() == 0
    }

    /// Whether the probe of the work queue reports progress.
    pub open spec fn progresses(self, edges: Seq<EdgeState>) -> bool {
        self.check_customer(edges).2 matches Ok(Status::Progress(n)) && n > 0
    }

    /// The spin budget after the probe of the work queue: doubled if the
    /// probe reported progress.
    pub open spec fn grown(self, edges: Seq<EdgeState>) -> usize {
        if self.progresses(edges) {
            doubled(self.backoff)
        } else {
            self.backoff
        }
    }

    /// One step of the engine at time `now_ms`.
    pub open spec fn resume(self, edges: Seq<EdgeState>, now_ms: u64) -> (
        EngineView,
        Seq<EdgeState>,
        Result<EngineStatus, EngineError>,
    ) {
        let a = self.check_customer(edges);
        match a.2 {
            Err(e) => (a.0, a.1, Err(EngineError::Datapath(e))),
            Ok(found) => {
                let grown = if found matches Status::Progress(n) && n > 0 {
                    EngineView { backoff: doubled(a.0.backoff), ..a.0 }
                } else {
                    a.0
                };
                let b = grown.check_input_queue(a.1);
                match b.2 {
                    Err(e) => (b.0, b.1, Err(EngineError::Datapath(e))),
                    Ok(_) => b.0.control_step(b.1, now_ms),
                }
            },
        }
    }
}

/// What a step makes of the spin budget.
///
/// The budget stays within its bounds. The probe of the work queue doubles
/// it if it reports progress. After that the step keeps the budget, unless
/// it exhausts it: then it halves the budget if it looks at the control
/// socket and doubles it if it leaves the control socket alone. So the
/// budget falls only when control work is done, and rises only on progress
/// or when it is exhausted without control work.
pub proof fn lemma_backoff_step(s: EngineView, edges: Seq<EdgeState>, now_ms: u64)
    requires
        s.wf(),
    ensures
        ({
            let t = s.resume(edges, now_ms).0;
            let g = s.grown(edges);
            let spent = s.dp_spin_cnt + 1 >= g;
            let due = s.control_due(now_ms);
            &&& 1 <= t.backoff <= DP_LIMIT
            &&& t.backoff == g || (spent && due && t.backoff == halved(g)) || (spent && !due
                && t.backoff == doubled(g))
            &&& t.backoff < s.backoff ==> spent && due
            &&& t.backoff > s.backoff ==> s.progresses(edges) || (spent && !due)
        }),
{
    reveal(EngineView::check_customer);
    reveal(EngineView::check_input_queue);
    let a = s.check_customer(edges);
    assert(a.0.backoff == s.backoff && a.0.dp_spin_cnt == s.dp_spin_cnt);
    assert(a.0.customer.has_control_command() == s.customer.has_control_command());
    if a.2 is Ok {
        let grown = if s.progresses(edges) {
            EngineView { backoff: doubled(a.0.backoff), ..a.0 }
        } else {
            a.0
        };
        let b = grown.check_input_queue(a.1);
        assert(b.0.backoff == grown.backoff && b.0.dp_spin_cnt == s.dp_spin_cnt);
        assert(b.0.customer.has_control_command() == s.customer.has_control_command());
        assert(b.0.last_cmd_ts == s.last_cmd_ts);
        if b.2 is Ok {
            lemma_control_keeps_backoff(b.0, b.1, now_ms);
        }
    }
}

/// A step of an engine that has nothing to do moves its counters and
/// nothing else: the queues, the edges and the regions stay as they are,
/// the engine goes on, and it still has nothing to do. So an engine that is
/// found idle can be suspended without losing anything.
pub proof fn lemma_idle_step(s: EngineView, edges: Seq<EdgeState>, now_ms: u64)
    requires
        s.wf(),
        s.wired(edges),
        s.idle(edges),
    ensures
        ({
            let t = s.resume(edges, now_ms);
            &&& t.2 == Ok::<EngineStatus, EngineError>(EngineStatus::Continue)
            &&& t.1 == edges
            &&& t.0 == (EngineView {
                dp_spin_cnt: t.0.dp_spin_cnt,
                backoff: t.0.backoff,
                last_cmd_ts: t.0.last_cmd_ts,
                ..s
            })
            &&& t.0.idle(t.1)
        }),
{
    reveal(EngineView::check_customer);
    reveal(EngineView::check_input_queue);
    reveal(EngineView::check_cmd);
    reveal(EngineView::check_new_incoming_connection);
    let a = s.check_customer(edges);
    assert(s.batch_len() == 0);
    assert(a == (s, edges, Ok::<Status, DatapathError>(Status::Progress(0))));
    let b = s.check_input_queue(edges);
    assert(b.0 == s && b.1 == edges && b.2 is Ok);
}

/// The probes of the control socket and of the channel from the transport
/// engine leave the spin budget alone.
proof fn lemma_control_keeps_backoff(s: EngineView, edges: Seq<EdgeState>, now_ms: u64)
    ensures
        s.check_cmd().0.backoff == s.backoff,
        s.check_new_incoming_connection().0.backoff == s.backoff,
        s.finish(edges).0.backoff == s.backoff,
        ({
            let t = s.control_step(edges, now_ms).0;
            if !s.budget_spent() {
                t.backoff == s.backoff
            } else if s.control_due(now_ms) {
                t.backoff == halved(s.backoff)
            } else {
                t.backoff == doubled(s.backoff)
            }
        }),
{
    reveal(EngineView::check_cmd);
    reveal(EngineView::check_new_incoming_connection);
    let halved_state = EngineView {
        dp_spin_cnt: 0,
        last_cmd_ts: now_ms,
        backoff: halved(s.backoff),
        ..s
    };
    let doubled_state = EngineView { dp_spin_cnt: 0, backoff: doubled(s.backoff), ..s };
    assert(halved_state.check_cmd().0.backoff == halved_state.backoff);
    assert(halved_state.check_cmd().0.finish(edges).0.backoff == halved_state.backoff);
    assert(doubled_state.finish(edges).0.backoff == doubled_state.backoff);
}

} // verus!
