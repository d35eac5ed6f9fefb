//! The channel between the daemon and one application, as the head engine
//! sees it.
//!
//! The channel has a control side, which carries commands to the engine
//! and completions and file descriptors back, and a datapath side of two
//! bounded rings: the work queue towards the engine and the completion
//! queue towards the application. Whoever moves records between this value
//! and the rings and socket of a live application acts as that application
//! here, through the functions of the second half of this file.

use vstd::prelude::*;
use std::collections::VecDeque;
use crate::cmd::{Command, Completion, CompletionKind};
use crate::interface::InterfaceError;
use crate::dp;
use crate::dp::WorkRequest;
use crate::error::{IpcError, TryRecvError};

verus! {

/// A completion as the application reads it: what the command resulted in,
/// or the wording of the error.
pub ghost enum CompView {
    Done(CompletionKind),
    Failed(Seq<char>),
}

/// The reading of `c`.
pub open spec fn comp_view(c: Completion) -> CompView {
    match c.0 {
        Ok(k) => CompView::Done(k),
        Err(InterfaceError::Generic(m)) => CompView::Failed(m@),
    }
}

/// What a customer channel holds.
pub ghost struct CustomerView {
    /// Commands sent by the application and not yet received, oldest first.
    pub cmds: Seq<Command>,
    /// Whether the application still holds its end of the control socket.
    pub connected: bool,
    /// Whether the next receive on the control socket will fail.
    pub recv_fault: bool,
    /// Completions sent to the application and not yet taken, oldest first.
    pub comps: Seq<CompView>,
    /// Batches of file descriptors sent and not yet taken, oldest first.
    pub fds: Seq<Seq<i32>>,
    /// The work queue, oldest first.
    pub wq: Seq<WorkRequest>,
    /// The completion queue, oldest first.
    pub cq: Seq<dp::Completion>,
    /// Slots of the work queue.
    pub wq_depth: usize,
    /// Slots of the completion queue.
    pub cq_depth: usize,
}

/// The channel between the daemon and one application.
pub struct Customer {
    cmds: VecDeque<Command>,
    connected: bool,
    recv_fault: bool,
    comps: VecDeque<Completion>,
    fds: VecDeque<Vec<i32>>,
    wq: VecDeque<WorkRequest>,
    cq: VecDeque<dp::Completion>,
    wq_depth: usize,
    cq_depth: usize,
}

impl View for Customer {
    type V = CustomerView;

    closed spec fn view(&self) -> CustomerView {
        CustomerView {
            cmds: self.cmds@,
            connected: self.connected,
            recv_fault: self.recv_fault,
            comps: Seq::new(self.comps@.len(), |i: int| comp_view(self.comps@[i])),
            fds: Seq::new(self.fds@.len(), |i: int| self.fds@[i]@),
            wq: self.wq@,
            cq: self.cq@,
            wq_depth: self.wq_depth,
            cq_depth: self.cq_depth,
        }
    }
}

impl CustomerView {
    /// Whether a receive on the control socket would report anything but
    /// emptiness.
    pub open spec fn has_control_command(self) -> bool {
        self.recv_fault || self.cmds.len() > 0 || !self.connected
    }

    /// Free slots of the completion queue, where its capacity holds.
    pub open spec fn avail_wc_slots(self) -> Option<nat> {
        if self.cq.len() <= self.cq_depth {
            Some((self.cq_depth - self.cq.len()) as nat)
        } else {
            None
        }
    }
}

impl Customer {
    /// A connected channel with empty queues and rings of the given numbers
    /// of slots.
    pub fn new(wq_depth: usize, cq_depth: usize) -> (c: Customer)
        ensures
            c@ == (CustomerView {
                cmds: Seq::empty(),
                connected: true,
                recv_fault: false,
                comps: Seq::empty(),
                fds: Seq::empty(),
                wq: Seq::empty(),
                cq: Seq::empty(),
                wq_depth,
                cq_depth,
            }),
    {
        let c = Customer {
            cmds: VecDeque::new(),
            connected: true,
            recv_fault: false,
            comps: VecDeque::new(),
            fds: VecDeque::new(),
            wq: VecDeque::new(),
            cq: VecDeque::new(),
            wq_depth,
            cq_depth,
        };
        assert(c@.fds =~= Seq::<Seq<i32>>::empty());
        assert(c@.comps =~= Seq::<CompView>::empty());
        c
    }

    /// Whether a receive on the control socket would report anything but
    /// emptiness: a command, a failure, or that the application is gone.
    pub fn has_control_command(&self) -> (b: bool)
        ensures
            b == self@.has_control_command(),
    {
        self.recv_fault || self.cmds.len() > 0 || !self.connected
    }

    /// Number of work requests in the work queue.
    pub fn wq_len(&self) -> (n: usize)
        ensures
            n == self@.wq.len(),
    {
        self.wq.len()
    }

    /// Whether the application still holds its end of the control socket.
    pub fn is_connected(&self) -> (b: bool)
        ensures
            b == self@.connected,
    {
        self.connected
    }

    /// Receives the oldest command without blocking.
    ///
    /// A pending receive failure is reported first, and once. With no
    /// command waiting, the channel is disconnected if the application is
    /// gone and empty otherwise.
    pub fn try_recv_cmd(&mut self) -> (res: Result<Command, TryRecvError>)
        ensures
            old(self)@.recv_fault ==> res == Err::<Command, TryRecvError>(TryRecvError::Other)
                && final(self)@ == (CustomerView { recv_fault: false, ..old(self)@ }),
            !old(self)@.recv_fault && old(self)@.cmds.len() > 0 ==> res == Ok::<
                Command,
                TryRecvError,
            >(old(self)@.cmds[0]) && final(self)@ == (CustomerView {
                cmds: old(self)@.cmds.subrange(1, old(self)@.cmds.len() as int),
                ..old(self)@
            }),
            !old(self)@.recv_fault && old(self)@.cmds.len() == 0 ==> final(self)@ == old(self)@
                && res == Err::<Command, TryRecvError>(
                if old(self)@.connected {
                    TryRecvError::Empty
                } else {
                    TryRecvError::Disconnected
                },
            ),
    {
        if self.recv_fault {
            self.recv_fault = false;
            return Err(TryRecvError::Other);
        }
        match self.cmds.pop_front() {
            Some(c) => Ok(c),
            None => {
                if self.connected {
                    Err(TryRecvError::Empty)
                } else {
                    Err(TryRecvError::Disconnected)
                }
            },
        }
    }

    /// Sends a completion to the application; fails if it is gone.
    pub fn send_comp(&mut self, comp: Completion) -> (res: Result<(), IpcError>)
        ensures
            old(self)@.connected ==> res is Ok && final(self)@ == (CustomerView {
                comps: old(self)@.comps.push(comp_view(comp)),
                ..old(self)@
            }),
            !old(self)@.connected ==> res == Err::<(), IpcError>(IpcError::IpcSend) && final(self)@
                == old(self)@,
    {
        if self.connected {
            self.comps.push_back(comp);
            assert(self@.comps =~= old(self)@.comps.push(comp_view(comp)));
            Ok(())
        } else {
            Err(IpcError::IpcSend)
        }
    }

    /// Passes file descriptors to the application; fails if it is gone.
    pub fn send_fd(&mut self, fds: Vec<i32>) -> (res: Result<(), IpcError>)
        ensures
            old(self)@.connected ==> res is Ok && final(self)@ == (CustomerView {
                fds: old(self)@.fds.push(fds@),
                ..old(self)@
            }),
            !old(self)@.connected ==> res == Err::<(), IpcError>(IpcError::IpcSend) && final(self)@
                == old(self)@,
    {
        if self.connected {
            self.fds.push_back(fds);
            assert(self@.fds =~= old(self)@.fds.push(fds@));
            Ok(())
        } else {
            Err(IpcError::IpcSend)
        }
    }

    /// Free slots of the completion queue. A queue that holds more than its
    /// slots has lost its capacity invariant.
    pub fn get_avail_wc_slots(&self) -> (res: Result<usize, IpcError>)
        ensures
            match self@.avail_wc_slots() {
                Some(n) => res == Ok::<usize, IpcError>(n as usize),
                None => res == Err::<usize, IpcError>(IpcError::ShmRingbuf),
            },
    {
        if self.cq.len() <= self.cq_depth {
            Ok(self.cq_depth - self.cq.len())
        } else {
            Err(IpcError::ShmRingbuf)
        }
    }

    /// Takes up to `max_count` work requests from the work queue, oldest
    /// first.
    pub fn dequeue_wr(&mut self, max_count: usize) -> (batch: Vec<WorkRequest>)
        ensures
            batch@ == old(self)@.wq.take(batched(old(self)@.wq.len(), max_count as nat) as int),
            final(self)@ == (CustomerView {
                wq: old(self)@.wq.skip(batched(old(self)@.wq.len(), max_count as nat) as int),
                ..old(self)@
            }),
    {
        let mut batch: Vec<WorkRequest> = Vec::new();
        let n: usize = if self.wq.len() < max_count {
            self.wq.len()
        } else {
            max_count
        };
        let mut i: usize = 0;
        assert(self@.wq.skip(0) =~= self@.wq);
        assert(batch@ =~= self@.wq.take(0));
        while i < n
            invariant
                i <= n <= old(self)@.wq.len(),
                n == batched(old(self)@.wq.len(), max_count as nat),
                batch@ == old(self)@.wq.take(i as int),
                self@ == (CustomerView { wq: old(self)@.wq.skip(i as int), ..old(self)@ }),
            decreases n - i,
        {
            let front = self.wq.pop_front();
            match front {
                Some(wr) => {
                    batch.push(wr);
                },
                None => {
                    assert(false);
                },
            }
            i += 1;
            assert(batch@ =~= old(self)@.wq.take(i as int));
            assert(self@.wq =~= old(self)@.wq.skip(i as int));
        }
        batch
    }

    /// Appends a completion to the completion queue if a slot is free, and
    /// says whether it did.
    pub fn enqueue_wc(&mut self, wc: dp::Completion) -> (sent: bool)
        ensures
            sent == (old(self)@.cq.len() < old(self)@.cq_depth),
            sent ==> final(self)@ == (CustomerView { cq: old(self)@.cq.push(wc), ..old(self)@ }),
            !sent ==> final(self)@ == old(self)@,
    {
        if self.cq.len() < self.cq_depth {
            self.cq.push_back(wc);
            true
        } else {
            false
        }
    }

    /// Queues a command of the application.
    pub fn post_cmd(&mut self, cmd: Command)
        ensures
            final(self)@ == (CustomerView { cmds: old(self)@.cmds.push(cmd), ..old(self)@ }),
    {
        self.cmds.push_back(cmd);
    }

    /// Appends a work request to the work queue if a slot is free, and says
    /// whether it did.
    pub fn post_wr(&mut self, wr: WorkRequest) -> (sent: bool)
        ensures
            sent == (old(self)@.wq.len() < old(self)@.wq_depth),
            sent ==> final(self)@ == (CustomerView { wq: old(self)@.wq.push(wr), ..old(self)@ }),
            !sent ==> final(self)@ == old(self)@,
    {
        if self.wq.len() < self.wq_depth {
            self.wq.push_back(wr);
            true
        } else {
            false
        }
    }

    /// Records that the application has closed the control socket.
    pub fn disconnect(&mut self)
        ensures
            final(self)@ == (CustomerView { connected: false, ..old(self)@ }),
    {
        self.connected = false;
    }

    /// Records that the next receive on the control socket will fail.
    pub fn fail_next_recv(&mut self)
        ensures
            final(self)@ == (CustomerView { recv_fault: true, ..old(self)@ }),
    {
        self.recv_fault = true;
    }

    /// Takes the oldest completion that was sent to the application.
    pub fn take_comp(&mut self) -> (res: Option<Completion>)
        ensures
            old(self)@.comps.len() == 0 ==> res is None && final(self)@ == old(self)@,
            old(self)@.comps.len() > 0 ==> res is Some && comp_view(res->0) == old(self)@.comps[0],
            old(self)@.comps.len() > 0 ==> final(self)@ == (CustomerView {
                comps: old(self)@.comps.subrange(1, old(self)@.comps.len() as int),
                ..old(self)@
            }),
    {
        let res = self.comps.pop_front();
        assert(old(self)@.comps.len() == 0 ==> self@.comps =~= old(self)@.comps);
        assert(old(self)@.comps.len() > 0 ==> self@.comps =~= old(self)@.comps.subrange(
            1,
            old(self)@.comps.len() as int,
        ));
        res
    }

    /// Takes the oldest batch of file descriptors that was passed to the
    /// application.
    pub fn take_fds(&mut self) -> (res: Option<Vec<i32>>)
        ensures
            old(self)@.fds.len() == 0 ==> res is None && final(self)@ == old(self)@,
            old(self)@.fds.len() > 0 ==> res is Some && res->0@ == old(self)@.fds[0],
            old(self)@.fds.len() > 0 ==> final(self)@ == (CustomerView {
                fds: old(self)@.fds.subrange(1, old(self)@.fds.len() as int),
                ..old(self)@
            }),
    {
        let res = self.fds.pop_front();
        assert(old(self)@.fds.len() == 0 ==> self@.fds =~= old(self)@.fds);
        assert(old(self)@.fds.len() > 0 ==> self@.fds =~= old(self)@.fds.subrange(
            1,
            old(self)@.fds.len() as int,
        ));
        res
    }

    /// Takes the oldest entry of the completion queue.
    pub fn take_wc(&mut self) -> (res: Option<dp::Completion>)
        ensures
            old(self)@.cq.len() == 0 ==> res is None && final(self)@ == old(self)@,
            old(self)@.cq.len() > 0 ==> res == Some(old(self)@.cq[0]) && final(self)@ == (
            CustomerView {
                cq: old(self)@.cq.subrange(1, old(self)@.cq.len() as int),
                ..old(self)@
            }),
    {
        self.cq.pop_front()
    }
}

/// Size of a batch taken from `available` records when at most `max_count`
/// are wanted.
pub open spec fn batched(available: nat, max_count: nat) -> nat {
    if available < max_count {
        available
    } else {
        max_count
    }
}

} // verus!
