//! The head engine of a subscription: the engine that faces the
//! application.
//!
//! One call of [`MrpcEngine::resume`] is one cooperative step. It never
//! blocks: it looks at what the customer channel, the edges and the channel
//! from the transport engine hold at that moment, and leaves the rest for
//! the next step.

use vstd::prelude::*;
use vstd::pervasive::unreached;
use vstd::string::StringExecFns;
use std::collections::VecDeque;
use crate::addr_map::{lemma_offset_rebases, valid, AddressMap, AddressSpace, ShmBuf, ShmPtr};
use crate::backoff::{double, halve};
use crate::cmd::{Command, Completion, CompletionKind, Pending, TransportType};
use crate::customer::{comp_view, Customer, CustomerView};
use crate::dp;
use crate::dp::WorkRequest;
use crate::error::{DatapathError, EngineError, Error, ResourceError, TryRecvError};
use crate::interface::{EngineStatus, MessageTemplateErased, SchedulingMode};
use crate::model::{
    answers, insert_all, is_new_connection, is_reply, known_func, messages, stream_ok,
    EngineView, Status, BUF_LEN, CMD_MAX_INTERVAL_MS,
};
use crate::node::Node;
use crate::queue::{EdgeArena, EdgeId};
use crate::upgrade::{
    compatible, decode, encode, lemma_decode_encode, spec_decode, spec_encode, Counters, Version,
};

verus! {

/// The head engine of a subscription.
pub struct MrpcEngine {
    addr_map: AddressMap,
    customer: Customer,
    node: Node,
    cmd_tx: VecDeque<Command>,
    cmd_rx: VecDeque<Completion>,
    cmd_rx_closed: bool,
    pending: Option<Pending>,
    dp_spin_cnt: usize,
    backoff: usize,
    mode: SchedulingMode,
    transport_type: Option<TransportType>,
    last_cmd_ts: u64,
    version: Version,
}

/// What an engine hands to its successor: its counters and flags as a
/// versioned blob, and the queues and tables that it owns.
pub struct Dump {
    blob: Vec<u8>,
    addr_map: AddressMap,
    customer: Customer,
    node: Node,
    cmd_tx: VecDeque<Command>,
    cmd_rx: VecDeque<Completion>,
    cmd_rx_closed: bool,
}

/// The version of the engines that this library builds.
pub open spec fn spec_current_version() -> Version {
    Version { major: 0, minor: 1, patch: 0 }
}

/// The version of the engines that this library builds.
#[verifier::when_used_as_spec(spec_current_version)]
pub fn current_version() -> (v: Version)
    ensures
        v == spec_current_version(),
{
    Version { major: 0, minor: 1, patch: 0 }
}

impl Dump {
    /// The blob of the counters and flags.
    pub closed spec fn blob(&self) -> Seq<u8> {
        self.blob@
    }

    /// The engine that wrote the dump, with the version that its blob
    /// names.
    pub closed spec fn engine(&self) -> EngineView {
        let read = spec_decode(self.blob@)->0;
        EngineView {
            regions: self.addr_map.regions(),
            customer: self.customer@,
            tx_outputs: self.node.tx_outputs@,
            rx_inputs: self.node.rx_inputs@,
            cmd_tx: self.cmd_tx@,
            cmd_rx: self.cmd_rx@,
            cmd_rx_closed: self.cmd_rx_closed,
            pending: read.1.pending,
            dp_spin_cnt: read.1.dp_spin_cnt,
            backoff: read.1.backoff,
            mode: read.1.mode,
            transport_type: read.1.transport_type,
            last_cmd_ts: read.1.last_cmd_ts,
            version: read.0,
        }
    }

    /// The dump is one that a well-formed engine wrote.
    pub closed spec fn wf(&self) -> bool {
        &&& spec_decode(self.blob@) is Some
        &&& self.addr_map.wf()
        &&& self.engine().wf()
    }

    /// The blob of the counters and flags.
    pub fn bytes(&self) -> (b: &Vec<u8>)
        ensures
            b@ == self.blob(),
    {
        &self.blob
    }
}

impl View for MrpcEngine {
    type V = EngineView;

    closed spec fn view(&self) -> EngineView {
        EngineView {
            regions: self.addr_map.regions(),
            customer: self.customer@,
            tx_outputs: self.node.tx_outputs@,
            rx_inputs: self.node.rx_inputs@,
            cmd_tx: self.cmd_tx@,
            cmd_rx: self.cmd_rx@,
            cmd_rx_closed: self.cmd_rx_closed,
            pending: self.pending,
            dp_spin_cnt: self.dp_spin_cnt,
            backoff: self.backoff,
            mode: self.mode,
            transport_type: self.transport_type,
            last_cmd_ts: self.last_cmd_ts,
            version: self.version,
        }
    }
}

/// Whether the engine can reconstruct the messages of function `func_id`.
pub fn func_known(func_id: u32) -> (b: bool)
    ensures
        b == known_func(func_id),
{
    func_id == 0
}

fn kind_answers(k: &CompletionKind, p: Pending) -> (b: bool)
    ensures
        b == answers(*k, p),
{
    match p {
        Pending::AllocShm => match k {
            CompletionKind::AllocShmInternal(_, _) => true,
            _ => false,
        },
        Pending::Connect => match k {
            CompletionKind::ConnectInternal(_, _, _) => true,
            _ => false,
        },
        Pending::Bind => match k {
            CompletionKind::Bind(_) => true,
            _ => false,
        },
        Pending::NewMappedAddrs => match k {
            CompletionKind::NewMappedAddrsInternal(_) => true,
            _ => false,
        },
    }
}

fn announces_connection(c: &Completion) -> (b: bool)
    ensures
        b == is_new_connection(*c),
{
    match &c.0 {
        Ok(CompletionKind::NewConnectionInternal(_, _, _)) => true,
        _ => false,
    }
}

impl MrpcEngine {
    /// The index of the regions agrees with the regions.
    pub closed spec fn inv(&self) -> bool {
        self.addr_map.wf()
    }

    /// The engine's invariant.
    pub open spec fn wf(&self) -> bool {
        self.inv() && self@.wf()
    }

    /// An engine for the application behind `customer`, with the edges of
    /// `node`, created at time `now_ms`.
    pub fn new(customer: Customer, node: Node, mode: SchedulingMode, now_ms: u64) -> (e: MrpcEngine)
        requires
            forall|i: int|
                0 <= i < customer@.wq.len() ==> known_func(
                    (#[trigger] customer@.wq[i]).erased().meta.func_id,
                ),
        ensures
            e.wf(),
            e@ == (EngineView {
                regions: Set::empty(),
                customer: customer@,
                tx_outputs: node.tx_outputs@,
                rx_inputs: node.rx_inputs@,
                cmd_tx: Seq::empty(),
                cmd_rx: Seq::empty(),
                cmd_rx_closed: false,
                pending: None,
                dp_spin_cnt: 0,
                backoff: 1,
                mode,
                transport_type: None,
                last_cmd_ts: now_ms,
                version: spec_current_version(),
            }),
    {
        MrpcEngine {
            addr_map: AddressMap::new(),
            customer,
            node,
            cmd_tx: VecDeque::new(),
            cmd_rx: VecDeque::new(),
            cmd_rx_closed: false,
            pending: None,
            dp_spin_cnt: 0,
            backoff: 1,
            mode,
            transport_type: None,
            last_cmd_ts: now_ms,
            version: current_version(),
        }
    }

    /// Records the transport of the subscription.
    pub fn create_transport(&mut self, transport_type: TransportType)
        requires
            old(self).wf(),
        ensures
            final(self).wf(),
            final(self)@ == (EngineView { transport_type: Some(transport_type), ..old(self)@ }),
    {
        self.transport_type = Some(transport_type);
    }

    /// Flushes the datapath. Nothing is buffered on the way to the next
    /// engine, so nothing is left to do.
    pub fn flush_dp(&mut self) -> (res: Result<Status, DatapathError>)
        requires
            old(self).wf(),
        ensures
            final(self).wf(),
            final(self)@ == old(self)@,
            res == Ok::<Status, DatapathError>(Status::Progress(0)),
    {
        Ok(Status::Progress(0))
    }

    /// Publishes the message of `req` on the first output.
    pub fn process_dp(&self, edges: &mut EdgeArena, req: &WorkRequest) -> (res: Result<
        (),
        DatapathError,
    >)
        requires
            self@.wired(old(edges)@),
            known_func(req.erased().meta.func_id),
        ensures
            (final(edges)@, res) == self@.process_dp(old(edges)@, *req),
    {
        let tx = self.node.tx_outputs[0];
        let sent = match req {
            WorkRequest::Call(erased) => edges.send(tx, *erased),
            WorkRequest::Reply(erased) => edges.send(tx, *erased),
        };
        match sent {
            Ok(()) => Ok(()),
            Err(e) => Err(DatapathError::from_send(e)),
        }
    }

    /// Probes the work queue: takes a batch of work requests and publishes
    /// the message of each, in order, on the first output. The batch is as
    /// large as the work queue, the free slots of the completion queue and
    /// `BUF_LEN` allow. The progress reported is the size of the batch.
    pub fn check_customer(&mut self, edges: &mut EdgeArena) -> (res: Result<Status, DatapathError>)
        requires
            old(self).wf(),
            old(self)@.wired(old(edges)@),
        ensures
            final(self).wf(),
            final(self)@.wired(final(edges)@),
            final(edges)@.len() == old(edges)@.len(),
            (final(self)@, final(edges)@, res) == old(self)@.check_customer(old(edges)@),
    {
        proof {
            reveal(EngineView::check_customer);
        }
        let avail = match self.customer.get_avail_wc_slots() {
            Ok(n) => n,
            Err(e) => {
                return Err(DatapathError::from_ipc(e));
            },
        };
        let max_count: usize = if avail < BUF_LEN {
            avail
        } else {
            BUF_LEN
        };
        if max_count == 0 {
            return Ok(Status::Progress(0));
        }
        let batch = self.customer.dequeue_wr(max_count);
        let ghost n = old(self)@.batch_len() as int;
        let ghost tx = old(self)@.tx0();
        let ghost before = old(edges)@[tx];
        proof {
            assert(batch@.len() == n);
            if n == 0 {
                assert(self@.customer.wq =~= old(self)@.customer.wq);
                assert(self@.customer == old(self)@.customer);
            }
            assert forall|i: int| 0 <= i < self@.customer.wq.len() implies known_func(
                (#[trigger] self@.customer.wq[i]).erased().meta.func_id,
            ) by {
                assert(self@.customer.wq[i] == old(self)@.customer.wq[i + n]);
            }
            assert(messages(batch@.take(0)) =~= Seq::<MessageTemplateErased>::empty());
            assert(before.items + messages(batch@.take(0)) =~= before.items);
        }
        if batch.len() == 0 {
            return Ok(Status::Progress(0));
        }
        let mut i: usize = 0;
        while i < batch.len()
            invariant
                i <= batch.len(),
                batch@.len() == n,
                0 < n <= old(self)@.customer.wq.len(),
                n == old(self)@.batch_len(),
                old(self)@.customer.avail_wc_slots() is Some,
                old(self)@.wf(),
                batch@ == old(self)@.customer.wq.take(n),
                self@ == old(self)@.with_customer(
                    CustomerView {
                        wq: old(self)@.customer.wq.skip(n),
                        ..old(self)@.customer
                    },
                ),
                self.wf(),
                self@.wired(edges@),
                edges@.len() == old(edges)@.len(),
                self@.tx0() == tx,
                0 <= tx < old(edges)@.len(),
                before == old(edges)@[tx],
                i > 0 ==> !before.closed,
                i == 0 ==> edges@ == old(edges)@,
                !before.closed ==> edges@ == old(edges)@.update(
                    tx,
                    crate::queue::EdgeState {
                        items: before.items + messages(batch@.take(i as int)),
                        ..before
                    },
                ),
            decreases batch.len() - i,
        {
            proof {
                reveal(EngineView::check_customer);
                assert(batch@[i as int] == old(self)@.customer.wq[i as int]);
            }
            match self.process_dp(edges, &batch[i]) {
                Ok(()) => {},
                Err(e) => {
                    return Err(e);
                },
            }
            proof {
                assert(messages(batch@.take(i + 1)) =~= messages(batch@.take(i as int)).push(
                    batch@[i as int].erased(),
                ));
                assert(before.items + messages(batch@.take(i + 1)) =~= (before.items + messages(
                    batch@.take(i as int),
                )).push(batch@[i as int].erased()));
            }
            i += 1;
        }
        proof {
            assert(batch@.take(n) =~= batch@);
            assert(old(self)@.customer.wq.take(n).take(n) =~= old(self)@.customer.wq.take(n));
        }
        Ok(Status::Progress(batch.len()))
    }

    /// Probes the first input: takes the oldest message, if there is one
    /// and the completion queue has a free slot, and reports it to the
    /// application under the address at which the application sees it.
    pub fn check_input_queue(&mut self, edges: &mut EdgeArena) -> (res: Result<
        Status,
        DatapathError,
    >)
        requires
            old(self).wf(),
            old(self)@.wired(old(edges)@),
        ensures
            final(self).wf(),
            final(self)@.wired(final(edges)@),
            final(edges)@.len() == old(edges)@.len(),
            (final(self)@, final(edges)@, res) == old(self)@.check_input_queue(old(edges)@),
    {
        proof {
            reveal(EngineView::check_input_queue);
        }
        let rx = self.node.rx_inputs[0];
        if edges.pending(rx) == 0 {
            if edges.is_closed(rx) {
                return Ok(Status::Disconnected);
            } else {
                return Ok(Status::Progress(0));
            }
        }
        match self.customer.get_avail_wc_slots() {
            Ok(n) => {
                if n == 0 {
                    return Ok(Status::Progress(0));
                }
            },
            Err(e) => {
                return Err(DatapathError::from_ipc(e));
            },
        }
        let msg = match edges.try_recv(rx) {
            Ok(m) => m,
            Err(_) => {
                proof {
                    assert(false);
                }
                return Ok(Status::Progress(0));
            },
        };
        let p = ShmPtr { addr: msg.shmptr, space: AddressSpace::Local };
        let offset = match self.addr_map.query_shm_offset(p) {
            Ok(o) => o,
            Err(e) => {
                return Err(DatapathError::from_resource(e));
            },
        };
        let base = match self.addr_map.region_base(p, AddressSpace::App) {
            Ok(b) => b,
            Err(e) => {
                return Err(DatapathError::from_resource(e));
            },
        };
        proof {
            lemma_offset_rebases(self@.regions, p);
            assert(valid(crate::addr_map::enclosing(self@.regions, p)->0));
        }
        let remote_msg_addr: u64 = base + offset;
        let erased = MessageTemplateErased { meta: msg.meta, shmptr: remote_msg_addr };
        let sent = self.customer.enqueue_wc(dp::Completion { erased });
        assert(sent);
        Ok(Status::Progress(0))
    }

    /// Hands `req` to the transport engine and remembers that its answer is
    /// awaited.
    fn forward(&mut self, req: Command, p: Pending)
        requires
            old(self).wf(),
            old(self)@.pending is None,
        ensures
            final(self).wf(),
            final(self)@ == old(self)@.forward(req, p),
    {
        self.cmd_tx.push_back(req);
        self.pending = Some(p);
    }

    /// Acts on a command of the application.
    ///
    /// The transport can be set once. Every other command is handed to the
    /// transport engine; the completion follows when that engine has
    /// answered, and until then no other command is processed.
    pub fn process_cmd(&mut self, req: Command) -> (res: Result<CompletionKind, Error>)
        requires
            old(self).wf(),
            old(self)@.pending is None,
        ensures
            final(self).wf(),
            (final(self)@, res) == old(self)@.process_cmd(req),
    {
        match req {
            Command::SetTransport(transport_type) => {
                if self.transport_type.is_some() {
                    Err(Error::TransportType)
                } else {
                    self.create_transport(transport_type);
                    Ok(CompletionKind::SetTransport)
                }
            },
            Command::AllocShm(nbytes) => {
                self.forward(Command::AllocShm(nbytes), Pending::AllocShm);
                Err(Error::NoResponse)
            },
            Command::Connect(addr) => {
                self.forward(Command::Connect(addr), Pending::Connect);
                Err(Error::NoResponse)
            },
            Command::Bind(addr) => {
                self.forward(Command::Bind(addr), Pending::Bind);
                Err(Error::NoResponse)
            },
            Command::NewMappedAddrs(app_vaddrs) => {
                self.forward(Command::NewMappedAddrs(app_vaddrs), Pending::NewMappedAddrs);
                Err(Error::NoResponse)
            },
        }
    }

    /// Sends file descriptors, if any, and then a completion to the
    /// application.
    fn deliver(&mut self, fds: Option<Vec<i32>>, comp: Completion) -> (res: Result<Status, Error>)
        requires
            old(self).wf(),
        ensures
            final(self).wf(),
            (final(self)@, res) == old(self)@.deliver(
                match fds {
                    Some(f) => Some(f@),
                    None => None,
                },
                comp_view(comp),
            ),
    {
        match fds {
            Some(f) => {
                match self.customer.send_fd(f) {
                    Ok(()) => {},
                    Err(e) => {
                        return Err(Error::from_ipc(e));
                    },
                }
            },
            None => {},
        }
        match self.customer.send_comp(comp) {
            Ok(()) => Ok(Status::Progress(1)),
            Err(e) => Err(Error::from_ipc(e)),
        }
    }

    /// Probes the control socket for a command and processes it.
    pub fn check_cmd(&mut self) -> (res: Result<Status, Error>)
        requires
            old(self).wf(),
        ensures
            final(self).wf(),
            (final(self)@, res) == old(self)@.check_cmd(),
            final(self)@.tx_outputs == old(self)@.tx_outputs,
            final(self)@.rx_inputs == old(self)@.rx_inputs,
    {
        proof {
            reveal(EngineView::check_cmd);
        }
        if self.pending.is_some() {
            if self.customer.is_connected() {
                return Ok(Status::Progress(0));
            } else {
                return Ok(Status::Disconnected);
            }
        }
        match self.customer.try_recv_cmd() {
            Ok(req) => {
                let result = self.process_cmd(req);
                match result {
                    Ok(kind) => self.deliver(None, Completion(Ok(kind))),
                    Err(Error::NoResponse) => Ok(Status::Progress(1)),
                    Err(e) => self.deliver(None, Completion(Err(e.into_interface()))),
                }
            },
            Err(TryRecvError::Empty) => Ok(Status::Progress(0)),
            Err(TryRecvError::Disconnected) => Ok(Status::Disconnected),
            Err(TryRecvError::Other) => Err(Error::IpcTryRecv),
        }
    }

    /// Registers the regions of `entries` one after another, up to the
    /// first that is refused.
    fn insert_regions(&mut self, entries: &Vec<(u64, u64, u64)>) -> (res: Result<(), ResourceError>)
        requires
            old(self).wf(),
        ensures
            final(self).wf(),
            final(self)@ == (EngineView {
                regions: insert_all(old(self)@.regions, entries@).0,
                ..old(self)@
            }),
            res == insert_all(old(self)@.regions, entries@).1,
    {
        let mut i: usize = 0;
        assert(entries@.skip(0) =~= entries@);
        while i < entries.len()
            invariant
                i <= entries.len(),
                self.wf(),
                self@ == (EngineView { regions: self@.regions, ..old(self)@ }),
                insert_all(old(self)@.regions, entries@) == insert_all(
                    self@.regions,
                    entries@.skip(i as int),
                ),
            decreases entries.len() - i,
        {
            let tup = entries[i];
            let local_addr = tup.0;
            let buf = ShmBuf { ptr: tup.1, len: tup.2 };
            proof {
                assert(entries@.skip(i as int)[0] == entries@[i as int]);
                assert(entries@.skip(i as int).drop_first() =~= entries@.skip(i + 1));
            }
            match self.addr_map.insert_addr_map(local_addr, buf) {
                Ok(()) => {},
                Err(e) => {
                    return Err(e);
                },
            }
            i += 1;
        }
        Ok(())
    }

    /// Acts on a completion of the transport engine.
    ///
    /// An accepted connection is announced to the application. The answer
    /// to the waiting command is passed on, after the regions that it
    /// reports have been registered. File descriptors go ahead of the
    /// completion that speaks of them.
    pub fn complete(&mut self, comp: Completion) -> (res: Result<Status, Error>)
        requires
            old(self).wf(),
            is_new_connection(comp) || is_reply(old(self)@.pending, comp),
            is_new_connection(comp) || forall|i: int|
                0 <= i < old(self)@.cmd_rx.len() ==> is_new_connection(
                    #[trigger] old(self)@.cmd_rx[i],
                ),
        ensures
            final(self).wf(),
            (final(self)@, res) == old(self)@.complete(comp),
    {
        match comp.0 {
            Ok(CompletionKind::NewConnectionInternal(handle, recv_mrs, fds)) => {
                self.deliver(
                    Some(fds),
                    Completion(Ok(CompletionKind::NewConnection(handle, recv_mrs))),
                )
            },
            Ok(CompletionKind::AllocShmInternal(returned_mr, memfd)) => {
                self.pending = None;
                let mut fds: Vec<i32> = Vec::new();
                fds.push(memfd);
                assert(fds@ =~= seq![memfd]);
                self.deliver(Some(fds), Completion(Ok(CompletionKind::AllocShm(returned_mr))))
            },
            Ok(CompletionKind::ConnectInternal(handle, recv_mrs, fds)) => {
                self.pending = None;
                self.deliver(Some(fds), Completion(Ok(CompletionKind::Connect(handle, recv_mrs))))
            },
            Ok(CompletionKind::Bind(listener_handle)) => {
                self.pending = None;
                self.deliver(None, Completion(Ok(CompletionKind::Bind(listener_handle))))
            },
            Ok(CompletionKind::NewMappedAddrsInternal(addr_map)) => {
                self.pending = None;
                let reply = match self.insert_regions(&addr_map) {
                    Ok(()) => Completion(Ok(CompletionKind::NewMappedAddrs)),
                    Err(e) => Completion(Err(Error::from_resource(e).into_interface())),
                };
                self.deliver(None, reply)
            },
            _ => {
                proof {
                    assert(false);
                }
                Ok(Status::Progress(0))
            },
        }
    }

    /// Probes the channel from the transport engine and acts on its oldest
    /// completion.
    pub fn check_new_incoming_connection(&mut self) -> (res: Result<Status, Error>)
        requires
            old(self).wf(),
        ensures
            final(self).wf(),
            (final(self)@, res) == old(self)@.check_new_incoming_connection(),
            final(self)@.tx_outputs == old(self)@.tx_outputs,
            final(self)@.rx_inputs == old(self)@.rx_inputs,
    {
        proof {
            reveal(EngineView::check_new_incoming_connection);
        }
        match self.cmd_rx.pop_front() {
            Some(comp) => {
                proof {
                    let s = old(self)@.cmd_rx;
                    assert(comp == s[0]);
                    assert forall|i: int| 0 <= i < self@.cmd_rx.len() implies s[i + 1]
                        == #[trigger] self@.cmd_rx[i] by {}
                    if !is_new_connection(comp) {
                        assert forall|i: int| 0 <= i < self@.cmd_rx.len() implies is_new_connection(
                            #[trigger] self@.cmd_rx[i],
                        ) by {
                            assert(is_new_connection(s[0]) || is_new_connection(s[i + 1]));
                        }
                    }
                    assert forall|i: int, j: int|
                        0 <= i < j < self@.cmd_rx.len() implies is_new_connection(
                        #[trigger] self@.cmd_rx[i],
                    ) || is_new_connection(#[trigger] self@.cmd_rx[j]) by {
                        assert(is_new_connection(s[i + 1]) || is_new_connection(s[j + 1]));
                    }
                    assert forall|i: int| 0 <= i < self@.cmd_rx.len() implies is_new_connection(
                        #[trigger] self@.cmd_rx[i],
                    ) || is_reply(self@.pending, self@.cmd_rx[i]) by {
                        assert(is_new_connection(s[i + 1]) || is_reply(self@.pending, s[i + 1]));
                    }
                }
                self.complete(comp)
            },
            None => {
                if self.cmd_rx_closed {
                    Ok(Status::Disconnected)
                } else {
                    Ok(Status::Progress(0))
                }
            },
        }
    }

    /// Whether the control socket is to be looked at.
    fn control_due(&self, now_ms: u64) -> (b: bool)
        ensures
            b == self@.control_due(now_ms),
    {
        self.customer.has_control_command() || (now_ms > self.last_cmd_ts && now_ms
            - self.last_cmd_ts > CMD_MAX_INTERVAL_MS)
    }

    /// One cooperative step at time `now_ms`.
    ///
    /// The two datapath probes run on every step. The control socket and
    /// the channel from the transport engine are looked at only when the
    /// spin budget is exhausted. The budget is halved when the control
    /// socket is looked at, and doubled when it is exhausted and the
    /// control socket is left alone, or when the work queue reported
    /// progress.
    pub fn resume(&mut self, edges: &mut EdgeArena, now_ms: u64) -> (res: Result<
        EngineStatus,
        EngineError,
    >)
        requires
            old(self).wf(),
            old(self)@.wired(old(edges)@),
        ensures
            final(self).wf(),
            final(self)@.wired(final(edges)@),
            final(edges)@.len() == old(edges)@.len(),
            (final(self)@, final(edges)@, res) == old(self)@.resume(old(edges)@, now_ms),
    {
        match self.check_customer(edges) {
            Ok(Status::Progress(n)) => {
                if n > 0 {
                    self.backoff = double(self.backoff);
                }
            },
            Ok(Status::Disconnected) => {},
            Err(e) => {
                return Err(EngineError::Datapath(e));
            },
        }
        match self.check_input_queue(edges) {
            Ok(_) => {},
            Err(e) => {
                return Err(EngineError::Datapath(e));
            },
        }
        self.dp_spin_cnt += 1;
        if self.dp_spin_cnt < self.backoff {
            return Ok(EngineStatus::Continue);
        }
        self.dp_spin_cnt = 0;
        if self.control_due(now_ms) {
            self.last_cmd_ts = now_ms;
            self.backoff = halve(self.backoff);
            match self.flush_dp() {
                Ok(_) => {},
                Err(e) => {
                    return Err(EngineError::Datapath(e));
                },
            }
            match self.check_cmd() {
                Ok(Status::Disconnected) => {
                    return Ok(EngineStatus::Complete);
                },
                Ok(_) => {},
                Err(e) => {
                    return Err(EngineError::Control(e));
                },
            }
        } else {
            self.backoff = double(self.backoff);
        }
        match self.check_new_incoming_connection() {
            Ok(_) => Ok(EngineStatus::Continue),
            Err(e) => Err(EngineError::Control(e)),
        }
    }

    /// The channel to the application.
    pub fn customer(&self) -> (c: &Customer)
        ensures
            c@ == self@.customer,
    {
        &self.customer
    }

    /// The channel to the application, for the side that acts as the
    /// application.
    pub fn customer_mut(&mut self) -> (c: &mut Customer)
        ensures
            c@ == old(self)@.customer,
            final(self)@ == old(self)@.with_customer(final(c)@),
            final(self).inv() == old(self).inv(),
    {
        &mut self.customer
    }

    /// The spin budget.
    pub fn backoff(&self) -> (b: usize)
        ensures
            b == self@.backoff,
    {
        self.backoff
    }

    /// Steps taken since the spin budget was last exhausted.
    pub fn dp_spin_cnt(&self) -> (n: usize)
        ensures
            n == self@.dp_spin_cnt,
    {
        self.dp_spin_cnt
    }

    /// The transport, once it has been chosen.
    pub fn transport_type(&self) -> (t: Option<TransportType>)
        ensures
            t == self@.transport_type,
    {
        self.transport_type
    }

    /// The kind of the command that waits for its answer, if one does.
    pub fn pending(&self) -> (p: Option<Pending>)
        ensures
            p == self@.pending,
    {
        self.pending
    }

    /// When the control socket was last looked at, in milliseconds.
    pub fn last_cmd_ts(&self) -> (t: u64)
        ensures
            t == self@.last_cmd_ts,
    {
        self.last_cmd_ts
    }

    /// The scheduling mode that the application asked for.
    pub fn mode(&self) -> (m: SchedulingMode)
        ensures
            m == self@.mode,
    {
        self.mode
    }

    /// The regions that the daemon and the application both map.
    pub fn addr_map(&self) -> (m: &AddressMap)
        ensures
            m.regions() == self@.regions,
            self.inv() ==> m.wf(),
    {
        &self.addr_map
    }

    /// The edges that the engine writes to, in a stable order.
    pub fn tx_outputs(&self) -> (ids: &Vec<EdgeId>)
        ensures
            ids@ == self@.tx_outputs,
    {
        &self.node.tx_outputs
    }

    /// The edges that the engine reads from, in a stable order.
    pub fn rx_inputs(&self) -> (ids: &Vec<EdgeId>)
        ensures
            ids@ == self@.rx_inputs,
    {
        &self.node.rx_inputs
    }

    /// Makes `id` the output of index `index`.
    pub fn set_tx_output(&mut self, index: usize, id: EdgeId)
        requires
            index < old(self)@.tx_outputs.len(),
        ensures
            final(self)@ == (EngineView {
                tx_outputs: old(self)@.tx_outputs.update(index as int, id),
                ..old(self)@
            }),
            final(self).inv() == old(self).inv(),
    {
        self.node.tx_outputs[index] = id;
    }

    /// Makes `id` the input of index `index`.
    pub fn set_rx_input(&mut self, index: usize, id: EdgeId)
        requires
            index < old(self)@.rx_inputs.len(),
        ensures
            final(self)@ == (EngineView {
                rx_inputs: old(self)@.rx_inputs.update(index as int, id),
                ..old(self)@
            }),
            final(self).inv() == old(self).inv(),
    {
        self.node.rx_inputs[index] = id;
    }

    /// What the engine is.
    pub fn description(&self) -> (s: String)
        ensures
            s@ == "MrpcEngine"@,
    {
        String::from_str("MrpcEngine")
    }

    /// Takes the oldest command that was handed to the transport engine.
    pub fn take_forwarded(&mut self) -> (res: Option<Command>)
        requires
            old(self).wf(),
        ensures
            final(self).wf(),
            old(self)@.cmd_tx.len() == 0 ==> res is None && final(self)@ == old(self)@,
            old(self)@.cmd_tx.len() > 0 ==> res == Some(old(self)@.cmd_tx[0]) && final(self)@ == (
            EngineView {
                cmd_tx: old(self)@.cmd_tx.subrange(1, old(self)@.cmd_tx.len() as int),
                ..old(self)@
            }),
    {
        self.cmd_tx.pop_front()
    }

    /// Whether the channel from the transport engine, which carries
    /// announcements of accepted connections and at most one answer to the
    /// waiting command, can take `comp` next.
    pub fn accepts(&self, comp: &Completion) -> (b: bool)
        requires
            self.wf(),
        ensures
            b == stream_ok(self@.pending, self@.cmd_rx.push(*comp)),
    {
        let ghost s = self@.cmd_rx;
        let ghost t = s.push(*comp);
        if announces_connection(comp) {
            proof {
                assert forall|i: int| 0 <= i < t.len() implies is_new_connection(#[trigger] t[i])
                    || is_reply(self@.pending, t[i]) by {
                    if i < s.len() {
                        assert(t[i] == s[i]);
                    }
                }
                assert forall|i: int, j: int| 0 <= i < j < t.len() implies is_new_connection(
                    #[trigger] t[i],
                ) || is_new_connection(#[trigger] t[j]) by {
                    if j < s.len() {
                        assert(t[i] == s[i] && t[j] == s[j]);
                    }
                }
            }
            return true;
        }
        let answered = match (&comp.0, self.pending) {
            (Ok(k), Some(p)) => kind_answers(k, p),
            _ => false,
        };
        if !answered {
            proof {
                assert(t[s.len() as int] == *comp);
            }
            return false;
        }
        let mut i: usize = 0;
        while i < self.cmd_rx.len()
            invariant
                i <= self.cmd_rx.len(),
                s == self@.cmd_rx,
                t == s.push(*comp),
                !is_new_connection(*comp),
                forall|k: int| 0 <= k < i ==> is_new_connection(#[trigger] s[k]),
            decreases self.cmd_rx.len() - i,
        {
            if !announces_connection(&self.cmd_rx[i]) {
                proof {
                    assert(t[i as int] == s[i as int]);
                    assert(t[s.len() as int] == *comp);
                    assert(!(is_new_connection(t[i as int]) || is_new_connection(
                        t[s.len() as int],
                    )));
                }
                return false;
            }
            i += 1;
        }
        proof {
            assert forall|i: int| 0 <= i < t.len() implies is_new_connection(#[trigger] t[i])
                || is_reply(self@.pending, t[i]) by {
                if i < s.len() {
                    assert(t[i] == s[i]);
                }
            }
            assert forall|i: int, j: int| 0 <= i < j < t.len() implies is_new_connection(
                #[trigger] t[i],
            ) || is_new_connection(#[trigger] t[j]) by {
                assert(t[i] == s[i]);
            }
        }
        true
    }

    /// Queues a completion of the transport engine.
    pub fn deliver_internal(&mut self, comp: Completion)
        requires
            old(self).wf(),
            stream_ok(old(self)@.pending, old(self)@.cmd_rx.push(comp)),
        ensures
            final(self).wf(),
            final(self)@ == (EngineView { cmd_rx: old(self)@.cmd_rx.push(comp), ..old(self)@ }),
    {
        self.cmd_rx.push_back(comp);
    }

    /// Records that the transport engine has gone.
    pub fn close_internal(&mut self)
        requires
            old(self).wf(),
        ensures
            final(self).wf(),
            final(self)@ == (EngineView { cmd_rx_closed: true, ..old(self)@ }),
    {
        self.cmd_rx_closed = true;
    }

    /// The version of the engine.
    pub fn version(&self) -> (v: Version)
        ensures
            v == self@.version,
    {
        self.version
    }

    /// Whether an engine of version `v2` can take over the state of this
    /// engine.
    pub fn check_compatible(&self, v2: Version) -> (b: bool)
        ensures
            b == compatible(self@.version, v2),
    {
        self.version.major == v2.major
    }

    /// Whether the engine has nothing to do: a step would move its counters
    /// and nothing else.
    pub fn is_idle(&self, edges: &EdgeArena) -> (b: bool)
        requires
            self.wf(),
            self@.wired(edges@),
        ensures
            b == self@.idle(edges@),
    {
        let free = match self.customer.get_avail_wc_slots() {
            Ok(_) => true,
            Err(_) => false,
        };
        self.customer.wq_len() == 0 && free && !self.customer.has_control_command()
            && self.cmd_rx.len() == 0 && edges.pending(self.node.rx_inputs[0]) == 0
    }

    /// Brings the engine to rest before it is taken apart or its edges are
    /// changed. The engine buffers nothing of its own: what is under way
    /// lies in the queues, which stay as they are.
    pub fn suspend(&mut self)
        requires
            old(self).wf(),
        ensures
            final(self).wf(),
            final(self)@ == old(self)@,
    {
        let _ = self.flush_dp();
    }

    /// Takes the engine apart for its successor: the counters and flags go
    /// into a blob under the engine's version, the queues and tables are
    /// handed over as they are.
    pub fn dump(self) -> (d: Dump)
        requires
            self.wf(),
        ensures
            d.wf(),
            d.engine() == self@,
            d.blob() == spec_encode(self@.version, self@.counters()),
    {
        let counters = Counters {
            backoff: self.backoff,
            dp_spin_cnt: self.dp_spin_cnt,
            last_cmd_ts: self.last_cmd_ts,
            mode: self.mode,
            transport_type: self.transport_type,
            pending: self.pending,
        };
        proof {
            lemma_decode_encode(self.version, counters);
        }
        Dump {
            blob: encode(self.version, &counters),
            addr_map: self.addr_map,
            customer: self.customer,
            node: self.node,
            cmd_tx: self.cmd_tx,
            cmd_rx: self.cmd_rx,
            cmd_rx_closed: self.cmd_rx_closed,
        }
    }

    /// Builds an engine of version `version` from what its predecessor
    /// handed over. The dump is given back when the version that wrote its
    /// blob is not compatible with `version`.
    pub fn restore(version: Version, d: Dump) -> (res: Result<MrpcEngine, Dump>)
        requires
            d.wf(),
        ensures
            match res {
                Ok(e) => compatible(d.engine().version, version) && e.wf() && e@ == (EngineView {
                    version,
                    ..d.engine()
                }),
                Err(back) => !compatible(d.engine().version, version) && back == d,
            },
    {
        let (from, counters) = match decode(&d.blob) {
            Some(read) => read,
            None => {
                proof {
                    assert(false);
                }
                return Err(d);
            },
        };
        if from.major != version.major {
            return Err(d);
        }
        Ok(
            MrpcEngine {
                addr_map: d.addr_map,
                customer: d.customer,
                node: d.node,
                cmd_tx: d.cmd_tx,
                cmd_rx: d.cmd_rx,
                cmd_rx_closed: d.cmd_rx_closed,
                pending: counters.pending,
                dp_spin_cnt: counters.dp_spin_cnt,
                backoff: counters.backoff,
                mode: counters.mode,
                transport_type: counters.transport_type,
                last_cmd_ts: counters.last_cmd_ts,
                version,
            },
        )
    }

    /// Replaces the engine by one of version `to` that holds the same
    /// state. An upgrade to a version that is not compatible is refused,
    /// and the engine is given back as it was.
    pub fn upgrade(self, to: Version) -> (res: Result<MrpcEngine, MrpcEngine>)
        requires
            self.wf(),
        ensures
            match res {
                Ok(e) => compatible(self@.version, to) && e.wf() && e@ == (EngineView {
                    version: to,
                    ..self@
                }),
                Err(e) => !compatible(self@.version, to) && e == self,
            },
    {
        if !self.check_compatible(to) {
            return Err(self);
        }
        match MrpcEngine::restore(to, self.dump()) {
            Ok(e) => Ok(e),
            Err(_) => unreached(),
        }
    }
}

/// Upgrades every engine of `engines` to version `to`, or none: if one of
/// them is not compatible with `to`, all are given back as they were.
/// After a successful upgrade every engine reports the version `to` and
/// holds the state that it held before.
pub fn upgrade_all(engines: Vec<MrpcEngine>, to: Version) -> (res: Result<
    Vec<MrpcEngine>,
    Vec<MrpcEngine>,
>)
    requires
        forall|i: int| 0 <= i < engines@.len() ==> (#[trigger] engines@[i]).wf(),
    ensures
        res is Ok <==> forall|i: int|
            0 <= i < engines@.len() ==> compatible((#[trigger] engines@[i])@.version, to),
        match res {
            Ok(upgraded) => {
                &&& upgraded@.len() == engines@.len()
                &&& forall|i: int|
                    0 <= i < upgraded@.len() ==> {
                        &&& (#[trigger] upgraded@[i]).wf()
                        &&& upgraded@[i]@ == (EngineView { version: to, ..engines@[i]@ })
                    }
            },
            Err(back) => back == engines,
        },
{
    let mut i: usize = 0;
    while i < engines.len()
        invariant
            i <= engines.len(),
            forall|k: int| 0 <= k < i ==> compatible((#[trigger] engines@[k])@.version, to),
        decreases engines.len() - i,
    {
        if !engines[i].check_compatible(to) {
            return Err(engines);
        }
        i += 1;
    }
    let mut rest = engines;
    let mut upgraded: Vec<MrpcEngine> = Vec::new();
    // The engines are taken from the end, so the result is built in reverse.
    while rest.len() > 0
        invariant
            rest@ == engines@.take(rest@.len() as int),
            rest@.len() <= engines@.len(),
            upgraded@.len() == engines@.len() - rest@.len(),
            forall|k: int| 0 <= k < engines@.len() ==> (#[trigger] engines@[k]).wf(),
            forall|k: int|
                0 <= k < engines@.len() ==> compatible((#[trigger] engines@[k])@.version, to),
            forall|k: int|
                0 <= k < upgraded@.len() ==> {
                    &&& (#[trigger] upgraded@[k]).wf()
                    &&& upgraded@[k]@ == (EngineView {
                        version: to,
                        ..engines@[engines@.len() - 1 - k]@
                    })
                },
        decreases rest@.len(),
    {
        let ghost n = rest@.len() - 1;
        match rest.pop() {
            Some(e) => {
                assert(e == engines@[n]);
                assert(rest@ =~= engines@.take(n));
                match e.upgrade(to) {
                    Ok(next) => {
                        upgraded.push(next);
                    },
                    Err(_) => {
                        proof {
                            assert(false);
                        }
                    },
                }
            },
            None => {
                proof {
                    assert(false);
                }
            },
        }
    }
    let ghost reversed = upgraded@;
    let mut ordered: Vec<MrpcEngine> = Vec::new();
    while upgraded.len() > 0
        invariant
            upgraded@ == reversed.take(upgraded@.len() as int),
            upgraded@.len() <= reversed.len(),
            reversed.len() == engines@.len(),
            ordered@.len() == reversed.len() - upgraded@.len(),
            forall|k: int|
                0 <= k < reversed.len() ==> {
                    &&& (#[trigger] reversed[k]).wf()
                    &&& reversed[k]@ == (EngineView {
                        version: to,
                        ..engines@[engines@.len() - 1 - k]@
                    })
                },
            forall|k: int|
                0 <= k < ordered@.len() ==> #[trigger] ordered@[k] == reversed[reversed.len() - 1 - k],
        decreases upgraded@.len(),
    {
        let ghost n = upgraded@.len() - 1;
        match upgraded.pop() {
            Some(e) => {
                assert(e == reversed[n]);
                assert(upgraded@ =~= reversed.take(n));
                ordered.push(e);
            },
            None => {
                proof {
                    assert(false);
                }
            },
        }
    }
    Ok(ordered)
}

} // verus!
