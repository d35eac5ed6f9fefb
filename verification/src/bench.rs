//! Pacing of a benchmark client: when to send the next request, when to
//! wait for a reply, and what latency to record for it.
//!
//! The client keeps up to `concurrency` requests outstanding. Sending and
//! waiting are the caller's part; this module decides which comes next.

use vstd::prelude::*;

verus! {

/// Settings of the benchmark client.
#[derive(Clone, Debug)]
pub struct Args {
    /// The address to connect, an IP address or a domain name.
    pub ip: String,
    /// The port number to use.
    pub port: u16,
    /// Whether to wait for each reply before the next request.
    pub blocking: bool,
    /// Log level for tracing.
    pub log_level: String,
    /// Log directory.
    pub log_dir: Option<String>,
    /// Request size in bytes.
    pub req_size: usize,
    /// The largest number of requests outstanding at a time.
    pub concurrency: usize,
    /// Total number of requests.
    pub total_iters: usize,
    /// The number of messages to provision; they are sent in turn. Must
    /// be positive.
    pub provision_count: usize,
}

/// What the client does next.
#[derive(Clone, Copy, Debug, PartialEq, Eq, Structural, Hash)]
pub enum Action {
    /// Send the provisioned message of this index.
    Send(usize),
    /// Wait for a reply.
    Await,
    /// All replies are in.
    Done,
}

/// The course of one run.
pub struct Bench {
    total_iters: usize,
    concurrency: usize,
    provision_count: usize,
    starts: Vec<u64>,
    latencies: Vec<u64>,
}

/// What a run holds.
pub ghost struct BenchView {
    pub total_iters: usize,
    pub concurrency: usize,
    pub provision_count: usize,
    /// When each request was sent, in the order of sending.
    pub starts: Seq<u64>,
    /// The latency recorded for each reply, in the order of receipt.
    pub latencies: Seq<u64>,
}

impl View for Bench {
    type V = BenchView;

    closed spec fn view(&self) -> BenchView {
        BenchView {
            total_iters: self.total_iters,
            concurrency: self.concurrency,
            provision_count: self.provision_count,
            starts: self.starts@,
            latencies: self.latencies@,
        }
    }
}

/// Time from `start` to `now`; none if the clock has not advanced.
pub open spec fn elapsed(start: u64, now: u64) -> u64 {
    if now >= start {
        (now - start) as u64
    } else {
        0
    }
}

impl BenchView {
    /// Requests sent and not yet answered.
    pub open spec fn in_flight(self) -> int {
        self.starts.len() - self.latencies.len()
    }

    /// The run's invariant.
    pub open spec fn wf(self) -> bool {
        &&& self.provision_count > 0
        &&& self.latencies.len() <= self.starts.len() <= self.total_iters
        &&& self.in_flight() <= self.concurrency || self.in_flight() <= 1
    }

    /// What comes next: a reply is awaited while as many requests are
    /// outstanding as may be, and at the end until all are answered;
    /// otherwise the next request is sent, the provisioned messages taking
    /// turns.
    pub open spec fn next(self) -> Action {
        if self.in_flight() > 0 && self.in_flight() >= self.concurrency {
            Action::Await
        } else if self.starts.len() < self.total_iters {
            Action::Send((self.starts.len() % (self.provision_count as nat)) as usize)
        } else if self.in_flight() > 0 {
            Action::Await
        } else {
            Action::Done
        }
    }
}

impl Bench {
    /// A run of `total_iters` requests with up to `concurrency`
    /// outstanding, over `provision_count` provisioned messages.
    pub fn new(total_iters: usize, concurrency: usize, provision_count: usize) -> (b: Bench)
        requires
            provision_count > 0,
        ensures
            b@.wf(),
            b@ == (BenchView {
                total_iters,
                concurrency,
                provision_count,
                starts: Seq::empty(),
                latencies: Seq::empty(),
            }),
    {
        Bench { total_iters, concurrency, provision_count, starts: Vec::new(), latencies: Vec::new() }
    }

    /// The run that `args` asks for, if it provisions a message.
    pub fn from_args(args: &Args) -> (res: Option<Bench>)
        ensures
            res is Some <==> args.provision_count > 0,
            res matches Some(b) ==> b@.wf() && b@ == (BenchView {
                total_iters: args.total_iters,
                concurrency: args.concurrency,
                provision_count: args.provision_count,
                starts: Seq::empty(),
                latencies: Seq::empty(),
            }),
    {
        if args.provision_count > 0 {
            Some(Bench::new(args.total_iters, args.concurrency, args.provision_count))
        } else {
            None
        }
    }

    /// What the client does next.
    pub fn next(&self) -> (a: Action)
        requires
            self@.wf(),
        ensures
            a == self@.next(),
    {
        let in_flight = self.starts.len() - self.latencies.len();
        if in_flight > 0 && in_flight >= self.concurrency {
            Action::Await
        } else if self.starts.len() < self.total_iters {
            Action::Send(self.starts.len() % self.provision_count)
        } else if in_flight > 0 {
            Action::Await
        } else {
            Action::Done
        }
    }

    /// Records that the next request was sent at time `now`.
    pub fn sent(&mut self, now: u64)
        requires
            old(self)@.wf(),
            old(self)@.next() is Send,
        ensures
            final(self)@.wf(),
            final(self)@ == (BenchView { starts: old(self)@.starts.push(now), ..old(self)@ }),
    {
        self.starts.push(now);
    }

    /// Records that a reply came in at time `now`. Its latency is counted
    /// from the sending of the oldest request that has no latency yet.
    pub fn received(&mut self, now: u64) -> (latency: u64)
        requires
            old(self)@.wf(),
            old(self)@.in_flight() > 0,
        ensures
            final(self)@.wf(),
            latency == elapsed(old(self)@.starts[old(self)@.latencies.len() as int], now),
            final(self)@ == (BenchView {
                latencies: old(self)@.latencies.push(latency),
                ..old(self)@
            }),
    {
        let start = self.starts[self.latencies.len()];
        let latency = if now >= start {
            now - start
        } else {
            0
        };
        self.latencies.push(latency);
        latency
    }

    /// Requests sent so far.
    pub fn issued(&self) -> (n: usize)
        ensures
            n == self@.starts.len(),
    {
        self.starts.len()
    }

    /// Replies received so far.
    pub fn completed(&self) -> (n: usize)
        ensures
            n == self@.latencies.len(),
    {
        self.latencies.len()
    }

    /// The result of the run: for each reply, when the request it is
    /// counted against was sent, and the latency.
    pub fn finish(self) -> (stats: Vec<(u64, u64)>)
        requires
            self@.wf(),
        ensures
            stats@.len() == self@.latencies.len(),
            forall|i: int|
                0 <= i < stats@.len() ==> #[trigger] stats@[i] == (
                    self@.starts[i],
                    self@.latencies[i],
                ),
    {
        let mut stats: Vec<(u64, u64)> = Vec::new();
        let mut i: usize = 0;
        while i < self.latencies.len()
            invariant
                i <= self.latencies.len() <= self.starts.len(),
                stats@.len() == i,
                forall|k: int|
                    0 <= k < i ==> #[trigger] stats@[k] == (self@.starts[k], self@.latencies[k]),
            decreases self.latencies.len() - i,
        {
            stats.push((self.starts[i], self.latencies[i]));
            i += 1;
        }
        stats
    }
}

/// A run never has more requests outstanding than `concurrency`, or one
/// where `concurrency` is none; and it is done exactly when every request
/// has been sent and answered.
pub proof fn lemma_pacing(b: BenchView)
    requires
        b.wf(),
    ensures
        b.next() is Send ==> b.in_flight() < b.concurrency || b.in_flight() == 0,
        b.next() is Send ==> (BenchView { starts: b.starts.push(0), ..b }).wf(),
        b.next() is Done <==> b.starts.len() == b.total_iters && b.latencies.len()
            == b.total_iters,
        b.next() matches Action::Send(i) ==> i < b.provision_count,
{
    if b.next() is Send {
        assert(b.starts.len() % (b.provision_count as nat) < b.provision_count);
    }
}

} // verus!
