//! The control plane of the daemon: the subscriptions it serves and the
//! requests that change them.
//!
//! A subscription is created for a client, with a graph of engines built
//! from the daemon's description of one. Addons are attached to its graph
//! and detached from it, and it ends when its client is gone. What an
//! upgrade touches is planned here; the engines themselves are suspended,
//! upgraded and resumed by whoever runs them.

use vstd::prelude::*;
use vstd::string::StringExecFns;
use crate::config::{ids_on, Config, ConfigError};
use crate::control::{AddonRequest, PluginType, ServiceSubscriptionInfo, UpgradeRequest};
use crate::error::ResourceError;
use crate::graph::{
    attach_post, detach_post, entries_of, may_become, Graph, GraphError, GraphView, Lifecycle,
    VertexView,
};
use crate::ids::IdMint;
use crate::interface::{Handle, InterfaceError, SchedulingMode};
use crate::engine::MrpcEngine;
use crate::error::EngineError;
use crate::interface::EngineStatus;
use crate::mr::{insert_post, release_post, share_post, MemoryRegion, MrTable};
use crate::text::{decimal, digits};
use crate::topology::{from_config, populated};

verus! {

/// Why the control plane refuses a request.
#[derive(Clone, Copy, Debug, PartialEq, Eq, Structural, Hash)]
pub enum DaemonError {
    /// No subscription id or engine id is left.
    OutOfIds,
    /// The client has no subscription of the id.
    NoSubscription,
    /// The graph of the subscription refuses the change.
    Graph(GraphError),
    /// A table refuses the operation.
    Resource(ResourceError),
}

impl DaemonError {
    /// The wording of this error.
    pub open spec fn text(self) -> Seq<char> {
        match self {
            DaemonError::OutOfIds => "No identifier is left"@,
            DaemonError::NoSubscription => "No such service subscription"@,
            DaemonError::Graph(e) => match e {
                GraphError::Exists => "The addon is attached already"@,
                GraphError::NotFound => "The addon is not attached"@,
                GraphError::UnknownEngine(_, _) => "A replacement names an engine that is not there"@,
                GraphError::Busy(_, _) => "A replacement names an engine that is running"@,
                GraphError::BadIndex(_, _) => "A replacement names a slot that is not there"@,
                GraphError::StillWired => "The addon would stay connected"@,
                GraphError::OutOfIds => "No identifier is left"@,
                GraphError::Invalid(_) => "The graph description is not sound"@,
            },
            DaemonError::Resource(e) => "Resource error: "@ + e.text(),
        }
    }

    pub fn message(&self) -> (s: String)
        ensures
            s@ == self.text(),
    {
        match self {
            DaemonError::OutOfIds => String::from_str("No identifier is left"),
            DaemonError::NoSubscription => String::from_str("No such service subscription"),
            DaemonError::Graph(e) => match e {
                GraphError::Exists => String::from_str("The addon is attached already"),
                GraphError::NotFound => String::from_str("The addon is not attached"),
                GraphError::UnknownEngine(_, _) => String::from_str(
                    "A replacement names an engine that is not there",
                ),
                GraphError::Busy(_, _) => String::from_str(
                    "A replacement names an engine that is running",
                ),
                GraphError::BadIndex(_, _) => String::from_str(
                    "A replacement names a slot that is not there",
                ),
                GraphError::StillWired => String::from_str("The addon would stay connected"),
                GraphError::OutOfIds => String::from_str("No identifier is left"),
                GraphError::Invalid(_) => String::from_str("The graph description is not sound"),
            },
            DaemonError::Resource(e) => {
                let inner = e.message();
                String::from_str("Resource error: ").concat(inner.as_str())
            },
        }
    }

    /// The form in which this error reaches the client: its wording, as a
    /// generic error.
    pub fn into_interface(self) -> (e: InterfaceError)
        ensures
            e matches InterfaceError::Generic(msg) && msg@ == self.text(),
    {
        InterfaceError::Generic(self.message())
    }
}

/// A service subscription: the unit of isolation.
pub struct Subscription {
    sid: u64,
    pid: i32,
    service: String,
    mode: SchedulingMode,
    socket_path: String,
    graph: Graph,
    addons: Vec<String>,
}

/// What a subscription holds.
pub ghost struct SubscriptionView {
    pub sid: u64,
    pub pid: i32,
    pub service: Seq<char>,
    pub mode: SchedulingMode,
    /// Path of the socket that the client connects to.
    pub socket_path: Seq<char>,
    pub graph: GraphView,
    /// Names of the addons that are attached, in the order of attaching.
    pub addons: Seq<Seq<char>>,
}

impl View for Subscription {
    type V = SubscriptionView;

    closed spec fn view(&self) -> SubscriptionView {
        SubscriptionView {
            sid: self.sid,
            pid: self.pid,
            service: self.service@,
            mode: self.mode,
            socket_path: self.socket_path@,
            graph: self.graph@,
            addons: Seq::new(self.addons@.len(), |i: int| self.addons@[i]@),
        }
    }
}

/// The control plane of the daemon.
pub struct Daemon {
    sids: IdMint,
    engine_ids: IdMint,
    template: Config,
    subs: Vec<Subscription>,
    regions: MrTable,
}

/// No two engines, of one subscription or of two, have the same id.
pub open spec fn unique_ids(subs: Seq<SubscriptionView>) -> bool {
    forall|i: int, w: int, j: int, v: int|
        0 <= i < subs.len() && 0 <= j < subs.len() && 0 <= w < subs[i].graph.vertices.len() && 0
            <= v < subs[j].graph.vertices.len() && (i != j || w != v)
            ==> #[trigger] subs[i].graph.vertices[w].id != #[trigger] subs[j].graph.vertices[v].id
}

/// The path of the socket of subscription `sid` under `prefix`.
pub open spec fn socket_path_of(prefix: Seq<char>, sid: u64) -> Seq<char> {
    prefix + "/koala-client-"@ + digits(sid as nat) + ".sock"@
}

impl Daemon {
    /// The subscriptions that are served, in the order of their creation.
    pub closed spec fn subs(&self) -> Seq<SubscriptionView> {
        Seq::new(self.subs@.len(), |i: int| self.subs@[i]@)
    }

    /// The subscription ids handed out so far.
    pub closed spec fn sids(&self) -> Set<u64> {
        self.sids.issued()
    }

    /// The engine ids handed out so far.
    pub closed spec fn engine_ids(&self) -> Set<u64> {
        self.engine_ids.issued()
    }

    /// The id of the next subscription.
    pub closed spec fn next_sid(&self) -> u64 {
        self.sids.peek()
    }

    /// The id of the next engine.
    pub closed spec fn next_engine(&self) -> u64 {
        self.engine_ids.peek()
    }

    /// The description from which the graph of a subscription is built.
    pub closed spec fn template(&self) -> Config {
        self.template
    }

    /// The shared memory regions and the subscriptions that refer to them.
    pub closed spec fn regions(&self) -> MrTable {
        self.regions
    }

    /// The daemon's invariant: the description is sound, the graphs are
    /// well formed, the subscriptions differ in id, and every id in use
    /// was handed out.
    pub open spec fn wf(&self) -> bool {
        &&& self.template().valid()
        &&& self.regions().wf()
        &&& forall|i: int| 0 <= i < self.subs().len() ==> (#[trigger] self.subs()[i]).graph.wf()
        &&& forall|i: int|
            0 <= i < self.subs().len() ==> self.sids().contains((#[trigger] self.subs()[i]).sid)
        &&& forall|i: int, j: int|
            0 <= i < j < self.subs().len() ==> self.subs()[i].sid != self.subs()[j].sid
        &&& forall|i: int, w: int|
            0 <= i < self.subs().len() && 0 <= w < self.subs()[i].graph.vertices.len()
                ==> self.engine_ids().contains((#[trigger] self.subs()[i].graph.vertices[w]).id)
        &&& unique_ids(self.subs())
    }

    /// Whether subscription `i` is the one that client `pid` knows as
    /// `sid`.
    pub open spec fn is_sub(&self, i: int, pid: i32, sid: u64) -> bool {
        0 <= i < self.subs().len() && self.subs()[i].pid == pid && self.subs()[i].sid == sid
    }

    /// A daemon without subscriptions that builds the graph of each from
    /// `config`. A description that is not sound is refused.
    pub fn new(config: Config) -> (res: Result<Daemon, ConfigError>)
        ensures
            res is Ok <==> config.valid(),
            res matches Ok(d) ==> {
                &&& d.wf()
                &&& d.template() == config
                &&& d.subs() == Seq::<SubscriptionView>::empty()
                &&& d.next_sid() == 0
                &&& d.next_engine() == 0
            },
    {
        match config.validate() {
            Ok(()) => {},
            Err(e) => {
                return Err(e);
            },
        }
        let d = Daemon {
            sids: IdMint::new(),
            engine_ids: IdMint::new(),
            template: config,
            subs: Vec::new(),
            regions: MrTable::new(),
        };
        assert(d.subs() =~= Seq::<SubscriptionView>::empty());
        Ok(d)
    }

    /// Number of subscriptions.
    pub fn len(&self) -> (n: usize)
        ensures
            n == self.subs().len(),
    {
        self.subs.len()
    }

    /// The subscription that client `pid` knows as `sid`.
    pub fn find(&self, pid: i32, sid: u64) -> (res: Option<usize>)
        requires
            self.wf(),
        ensures
            match res {
                Some(i) => self.is_sub(i as int, pid, sid),
                None => forall|i: int| !self.is_sub(i, pid, sid),
            },
    {
        let mut i: usize = 0;
        while i < self.subs.len()
            invariant
                i <= self.subs.len(),
                forall|k: int| 0 <= k < i ==> !self.is_sub(k, pid, sid),
            decreases self.subs.len() - i,
        {
            assert(self.subs()[i as int] == self.subs@[i as int]@);
            if self.subs[i].pid == pid && self.subs[i].sid == sid {
                return Some(i);
            }
            i += 1;
        }
        None
    }

    /// Creates a subscription for client `pid`: mints its id, builds its
    /// graph of engines, and names the socket on which the client is
    /// expected. The path of that socket is returned.
    pub fn new_client(&mut self, pid: i32, mode: SchedulingMode, service: String) -> (res: Result<
        String,
        DaemonError,
    >)
        requires
            old(self).wf(),
        ensures
            final(self).wf(),
            final(self).template() == old(self).template(),
            final(self).regions() == old(self).regions(),
            ({
                let config = old(self).template();
                let enough = old(self).next_sid() < u64::MAX && old(self).next_engine()
                    + config.node@.len() <= u64::MAX;
                match res {
                    Ok(path) => {
                        &&& enough
                        &&& path@ == socket_path_of(config.control.prefix@, old(self).next_sid())
                        &&& final(self).next_sid() == old(self).next_sid() + 1
                        &&& final(self).next_engine() == old(self).next_engine()
                            + config.node@.len()
                        &&& final(self).subs() == old(self).subs().push(
                            SubscriptionView {
                                sid: old(self).next_sid(),
                                pid,
                                service: service@,
                                mode,
                                socket_path: path@,
                                graph: populated(config.node@, old(self).next_engine()).linked(
                                    ids_on(config.edges.egress@),
                                ).linked(ids_on(config.edges.ingress@)),
                                addons: Seq::empty(),
                            },
                        )
                    },
                    Err(e) => {
                        &&& !enough
                        &&& e == DaemonError::OutOfIds
                        &&& final(self).subs() == old(self).subs()
                    },
                }
            }),
    {
        if self.sids.count() == u64::MAX {
            return Err(DaemonError::OutOfIds);
        }
        // The count says which ids have been handed out: those below it.
        let _first = self.engine_ids.count();
        let graph = match from_config(&self.template, &mut self.engine_ids) {
            Ok(g) => g,
            Err(_) => {
                proof {
                    assert(self.subs() =~= old(self).subs());
                    assert forall|i: int, w: int|
                        0 <= i < self.subs().len() && 0 <= w
                            < self.subs()[i].graph.vertices.len() implies self.engine_ids().contains(
                        (#[trigger] self.subs()[i].graph.vertices[w]).id,
                    ) by {
                        assert(old(self).engine_ids().contains(
                            old(self).subs()[i].graph.vertices[w].id,
                        ));
                    }
                }
                return Err(DaemonError::OutOfIds);
            },
        };
        // The count says which ids have been handed out: those below it.
        let _next_engine = self.engine_ids.count();
        let sid = match self.sids.mint() {
            Some(sid) => sid,
            None => {
                proof {
                    assert(false);
                }
                return Err(DaemonError::OutOfIds);
            },
        };
        let path = self.template.control.prefix.clone().concat("/koala-client-").concat(
            decimal(sid).as_str(),
        ).concat(".sock");
        let ghost added = SubscriptionView {
            sid,
            pid,
            service: service@,
            mode,
            socket_path: path@,
            graph: graph@,
            addons: Seq::empty(),
        };
        self.subs.push(
            Subscription {
                sid,
                pid,
                service,
                mode,
                socket_path: path.clone(),
                graph,
                addons: Vec::new(),
            },
        );
        proof {
            assert(self.subs@[old(self).subs@.len() as int]@.addons =~= Seq::<Seq<char>>::empty());
            assert(self.subs() =~= old(self).subs().push(added));
            assert forall|i: int| 0 <= i < self.subs().len() implies self.sids().contains(
                (#[trigger] self.subs()[i]).sid,
            ) by {
                if i < old(self).subs().len() {
                    assert(self.subs()[i] == old(self).subs()[i]);
                }
            }
            assert forall|i: int, j: int| 0 <= i < j < self.subs().len() implies self.subs()[i].sid
                != self.subs()[j].sid by {
                assert(self.subs()[i] == old(self).subs()[i]);
                if j < old(self).subs().len() {
                    assert(self.subs()[j] == old(self).subs()[j]);
                } else {
                    assert(old(self).sids().contains(old(self).subs()[i].sid));
                }
            }
            assert forall|i: int, w: int|
                0 <= i < self.subs().len() && 0 <= w
                    < self.subs()[i].graph.vertices.len() implies self.engine_ids().contains(
                (#[trigger] self.subs()[i].graph.vertices[w]).id,
            ) by {
                if i < old(self).subs().len() {
                    assert(self.subs()[i] == old(self).subs()[i]);
                    assert(old(self).engine_ids().contains(old(self).subs()[i].graph.vertices[w].id));
                } else {
                    assert(self.subs()[i] == added);
                    assert(added.graph.vertices[w].id == old(self).next_engine() + w);
                }
            }
            let now = self.subs();
            let was = old(self).subs();
            let n = was.len() as int;
            assert forall|k: int, w: int, j: int, v: int|
                0 <= k < now.len() && 0 <= j < now.len() && 0 <= w < now[k].graph.vertices.len()
                    && 0 <= v < now[j].graph.vertices.len() && (k != j || w != v) implies #[trigger] now[k].graph.vertices[w].id
                != #[trigger] now[j].graph.vertices[v].id by {
                if k < n {
                    assert(now[k] == was[k]);
                    assert(old(self).engine_ids().contains(was[k].graph.vertices[w].id));
                } else {
                    assert(now[k] == added);
                    assert(added.graph.vertices[w].id == old(self).next_engine() + w);
                }
                if j < n {
                    assert(now[j] == was[j]);
                    assert(old(self).engine_ids().contains(was[j].graph.vertices[v].id));
                } else {
                    assert(now[j] == added);
                    assert(added.graph.vertices[v].id == old(self).next_engine() + v);
                }
                if k < n && j < n {
                    assert(was[k].graph.vertices[w].id != was[j].graph.vertices[v].id);
                }
            }
        }
        Ok(path)
    }

    /// Lists the subscriptions: for each, its client, its id, its service,
    /// the id and type of each engine that has not terminated, and its
    /// addons.
    pub fn list_subscription(&self) -> (infos: Vec<ServiceSubscriptionInfo>)
        requires
            self.wf(),
        ensures
            infos@.len() == self.subs().len(),
            forall|i: int|
                0 <= i < infos@.len() ==> info_view(#[trigger] infos@[i]) == info_of(self.subs()[i]),
    {
        let mut infos: Vec<ServiceSubscriptionInfo> = Vec::new();
        let mut i: usize = 0;
        while i < self.subs.len()
            invariant
                i <= self.subs.len(),
                self.wf(),
                infos@.len() == i,
                forall|k: int|
                    0 <= k < i ==> info_view(#[trigger] infos@[k]) == info_of(self.subs()[k]),
            decreases self.subs.len() - i,
        {
            let sub = &self.subs[i];
            assert(self.subs()[i as int] == sub@);
            let mut engines: Vec<(u64, String)> = Vec::new();
            let mut w: usize = 0;
            while w < sub.graph.len()
                invariant
                    w <= sub.graph@.vertices.len(),
                    pairs_view(engines@) == engines_upto(sub.graph@, w as int),
                decreases sub.graph@.vertices.len() - w,
            {
                let ghost before = engines@;
                if !matches!(sub.graph.state(w), Lifecycle::Terminated) {
                    engines.push((sub.graph.engine_id(w), sub.graph.engine_type(w).clone()));
                    proof {
                        assert(pairs_view(engines@) =~= pairs_view(before).push(
                            (sub.graph@.vertices[w as int].id, sub.graph@.vertices[w as int].engine_type),
                        ));
                    }
                }
                w += 1;
            }
            let mut addons: Vec<String> = Vec::new();
            let mut a: usize = 0;
            while a < sub.addons.len()
                invariant
                    a <= sub.addons@.len(),
                    addons@.len() == a,
                    forall|k: int| 0 <= k < a ==> (#[trigger] addons@[k])@ == sub.addons@[k]@,
                decreases sub.addons@.len() - a,
            {
                addons.push(sub.addons[a].clone());
                a += 1;
            }
            let info = ServiceSubscriptionInfo {
                pid: sub.pid,
                sid: sub.sid,
                service: sub.service.clone(),
                engines,
                addons,
            };
            proof {
                assert(names_view(info.addons@) =~= sub@.addons);
            }
            infos.push(info);
            i += 1;
        }
        infos
    }

    /// Attaches an addon to the subscription that the request names.
    ///
    /// The engines whose edges the replacements change must be at rest.
    /// On success the new engine's id is returned.
    pub fn attach_addon(&mut self, req: &AddonRequest, flush: bool) -> (res: Result<u64, DaemonError>)
        requires
            old(self).wf(),
        ensures
            final(self).wf(),
            final(self).template() == old(self).template(),
            final(self).regions() == old(self).regions(),
            final(self).sids() == old(self).sids(),
            final(self).subs().len() == old(self).subs().len(),
            res == Err::<u64, DaemonError>(DaemonError::NoSubscription) <==> forall|i: int|
                !old(self).is_sub(i, req.pid, req.sid),
            forall|i: int| #[trigger]
                old(self).is_sub(i, req.pid, req.sid) ==> {
                    let s0 = old(self).subs()[i];
                    let s1 = final(self).subs()[i];
                    &&& match res {
                        Ok(_) => true,
                        Err(DaemonError::Graph(_)) => true,
                        Err(_) => false,
                    }
                    &&& attach_post(
                        s0.graph,
                        old(self).engine_ids(),
                        req.addon_engine@,
                        entries_of(req.tx_channels_replacements@),
                        entries_of(req.rx_channels_replacements@),
                        flush,
                        graph_outcome(res),
                        s1.graph,
                        final(self).engine_ids(),
                    )
                    &&& s1 == (SubscriptionView {
                        graph: s1.graph,
                        addons: if res is Ok {
                            s0.addons.push(req.addon_engine@)
                        } else {
                            s0.addons
                        },
                        ..s0
                    })
                },
            forall|i: int|
                0 <= i < old(self).subs().len() && !old(self).is_sub(i, req.pid, req.sid)
                    ==> #[trigger] final(self).subs()[i] == old(self).subs()[i],
    {
        let i = match self.find(req.pid, req.sid) {
            Some(i) => i,
            None => {
                return Err(DaemonError::NoSubscription);
            },
        };
        proof {
            assert(old(self).subs()[i as int] == self.subs@[i as int]@);
            assert forall|w: int|
                0 <= w < self.subs@[i as int].graph@.vertices.len() implies self.engine_ids.issued().contains(
                (#[trigger] self.subs@[i as int].graph@.vertices[w]).id,
            ) by {
                assert(self.engine_ids().contains(old(self).subs()[i as int].graph.vertices[w].id));
            }
        }
        let outcome = self.subs[i].graph.attach_addon(&mut self.engine_ids, req, flush);
        let res = match outcome {
            Ok(id) => {
                self.subs[i].addons.push(req.addon_engine.clone());
                Ok(id)
            },
            Err(e) => Err(DaemonError::Graph(e)),
        };
        proof {
            self.lemma_one_changed(old(self), i as int);
            let s0 = old(self).subs()[i as int];
            let s1 = self.subs()[i as int];
            assert(s1 == self.subs@[i as int]@);
            assert(s1.addons =~= if res is Ok {
                s0.addons.push(req.addon_engine@)
            } else {
                s0.addons
            });
            assert forall|k: int| #[trigger] old(self).is_sub(k, req.pid, req.sid) implies k == i by {
                if k < i {
                    assert(old(self).subs()[k].sid != old(self).subs()[i as int].sid);
                } else if i < k {
                    assert(old(self).subs()[i as int].sid != old(self).subs()[k].sid);
                }
            }
            assert(old(self).is_sub(i as int, req.pid, req.sid));
        }
        res
    }

    /// Detaches an addon from the subscription that the request names.
    ///
    /// The engines whose edges the replacements change must be at rest.
    /// After a successful detach no engine of the subscription reaches the
    /// addon.
    pub fn detach_addon(&mut self, req: &AddonRequest, flush: bool) -> (res: Result<(), DaemonError>)
        requires
            old(self).wf(),
        ensures
            final(self).wf(),
            final(self).template() == old(self).template(),
            final(self).regions() == old(self).regions(),
            final(self).sids() == old(self).sids(),
            final(self).engine_ids() == old(self).engine_ids(),
            final(self).subs().len() == old(self).subs().len(),
            res == Err::<(), DaemonError>(DaemonError::NoSubscription) <==> forall|i: int|
                !old(self).is_sub(i, req.pid, req.sid),
            forall|i: int| #[trigger]
                old(self).is_sub(i, req.pid, req.sid) ==> {
                    let s0 = old(self).subs()[i];
                    let s1 = final(self).subs()[i];
                    &&& match res {
                        Ok(_) => true,
                        Err(DaemonError::Graph(_)) => true,
                        Err(_) => false,
                    }
                    &&& detach_post(
                        s0.graph,
                        req.addon_engine@,
                        entries_of(req.tx_channels_replacements@),
                        entries_of(req.rx_channels_replacements@),
                        flush,
                        match res {
                            Ok(()) => Ok(()),
                            Err(DaemonError::Graph(e)) => Err(e),
                            Err(_) => Err(GraphError::NotFound),
                        },
                        s1.graph,
                    )
                    &&& s1 == (SubscriptionView {
                        graph: s1.graph,
                        addons: if res is Ok {
                            without_name(s0.addons, req.addon_engine@)
                        } else {
                            s0.addons
                        },
                        ..s0
                    })
                },
            forall|i: int|
                0 <= i < old(self).subs().len() && !old(self).is_sub(i, req.pid, req.sid)
                    ==> #[trigger] final(self).subs()[i] == old(self).subs()[i],
    {
        let i = match self.find(req.pid, req.sid) {
            Some(i) => i,
            None => {
                return Err(DaemonError::NoSubscription);
            },
        };
        proof {
            assert(old(self).subs()[i as int] == self.subs@[i as int]@);
        }
        let outcome = self.subs[i].graph.detach_addon(req, flush);
        proof {
            assert forall|w: int|
                0 <= w < self.subs@[i as int].graph@.vertices.len() implies self.engine_ids.issued().contains(
                (#[trigger] self.subs@[i as int].graph@.vertices[w]).id,
            ) by {
                assert(old(self).engine_ids().contains(old(self).subs()[i as int].graph.vertices[w].id));
            }
        }
        let res = match outcome {
            Ok(()) => {
                let kept = drop_name(&self.subs[i].addons, &req.addon_engine);
                self.subs[i].addons = kept;
                Ok(())
            },
            Err(e) => Err(DaemonError::Graph(e)),
        };
        proof {
            self.lemma_one_changed(old(self), i as int);
            let s0 = old(self).subs()[i as int];
            let s1 = self.subs()[i as int];
            assert(s1 == self.subs@[i as int]@);
            assert(s1.addons =~= names_view(self.subs@[i as int].addons@));
            assert(s0.addons =~= names_view(old(self).subs@[i as int].addons@));
            assert(s1.addons =~= if res is Ok {
                without_name(s0.addons, req.addon_engine@)
            } else {
                s0.addons
            });
            assert forall|k: int| #[trigger] old(self).is_sub(k, req.pid, req.sid) implies k == i by {
                if k < i {
                    assert(old(self).subs()[k].sid != old(self).subs()[i as int].sid);
                } else if i < k {
                    assert(old(self).subs()[i as int].sid != old(self).subs()[k].sid);
                }
            }
            assert(old(self).is_sub(i as int, req.pid, req.sid));
        }
        res
    }

    /// Whether vertex `w` of subscription `i` is the live engine of the
    /// given id.
    pub open spec fn is_engine(&self, i: int, w: int, id: u64) -> bool {
        &&& 0 <= i < self.subs().len()
        &&& self.subs()[i].graph.live(w)
        &&& self.subs()[i].graph.vertices[w].id == id
    }

    /// Where the engine of the given id is: its subscription and its
    /// vertex there. This is where a request for the engine is sent on.
    pub fn find_engine(&self, id: u64) -> (res: Option<(usize, usize)>)
        requires
            self.wf(),
        ensures
            match res {
                Some((i, w)) => self.is_engine(i as int, w as int, id),
                None => forall|i: int, w: int| !self.is_engine(i, w, id),
            },
    {
        let mut i: usize = 0;
        while i < self.subs.len()
            invariant
                i <= self.subs.len(),
                forall|k: int, w: int| 0 <= k < i ==> !self.is_engine(k, w, id),
            decreases self.subs.len() - i,
        {
            let sub = &self.subs[i];
            assert(self.subs()[i as int] == sub@);
            let mut w: usize = 0;
            while w < sub.graph.len()
                invariant
                    w <= sub.graph@.vertices.len(),
                    i < self.subs().len(),
                    self.subs()[i as int] == sub@,
                    forall|v: int| 0 <= v < w ==> !self.is_engine(i as int, v, id),
                decreases sub.graph@.vertices.len() - w,
            {
                if !matches!(sub.graph.state(w), Lifecycle::Terminated) && sub.graph.engine_id(w)
                    == id {
                    return Some((i, w));
                }
                w += 1;
            }
            i += 1;
        }
        None
    }

    /// The graph of subscription `i`.
    pub fn graph(&self, i: usize) -> (g: &Graph)
        requires
            i < self.subs().len(),
        ensures
            g@ == self.subs()[i as int].graph,
    {
        assert(self.subs()[i as int] == self.subs@[i as int]@);
        &self.subs[i].graph
    }

    /// One step of `engine`, which is the engine at vertex `w` of
    /// subscription `i`, at time `now_ms`, on the edges of that
    /// subscription. An engine that is not running takes no step: it and
    /// the edges stay as they are.
    pub fn step(&mut self, i: usize, w: usize, engine: &mut MrpcEngine, now_ms: u64) -> (res:
        Option<Result<EngineStatus, EngineError>>)
        requires
            old(self).wf(),
            i < old(self).subs().len(),
            w < old(self).subs()[i as int].graph.vertices.len(),
            old(engine).wf(),
            old(engine)@.wired(old(self).subs()[i as int].graph.edges),
        ensures
            final(self).wf(),
            final(engine).wf(),
            final(self).template() == old(self).template(),
            final(self).regions() == old(self).regions(),
            final(self).sids() == old(self).sids(),
            final(self).engine_ids() == old(self).engine_ids(),
            final(self).subs().len() == old(self).subs().len(),
            forall|k: int|
                0 <= k < old(self).subs().len() && k != i ==> #[trigger] final(self).subs()[k]
                    == old(self).subs()[k],
            final(self).subs()[i as int] == (SubscriptionView {
                graph: GraphView {
                    edges: final(self).subs()[i as int].graph.edges,
                    ..old(self).subs()[i as int].graph
                },
                ..old(self).subs()[i as int]
            }),
            final(engine)@.wired(final(self).subs()[i as int].graph.edges),
            match res {
                Some(r) => old(self).subs()[i as int].graph.vertices[w as int].state
                    == Lifecycle::Running && (
                    final(engine)@,
                    final(self).subs()[i as int].graph.edges,
                    r,
                ) == old(engine)@.resume(old(self).subs()[i as int].graph.edges, now_ms),
                None => {
                    &&& old(self).subs()[i as int].graph.vertices[w as int].state
                        != Lifecycle::Running
                    &&& final(self).subs() == old(self).subs()
                    &&& final(engine)@ == old(engine)@
                },
            },
    {
        proof {
            assert(old(self).subs()[i as int] == self.subs@[i as int]@);
        }
        let res = self.subs[i].graph.step(w, engine, now_ms);
        proof {
            let s0 = old(self).subs()[i as int];
            assert forall|v: int|
                0 <= v < self.subs@[i as int].graph@.vertices.len() implies self.engine_ids.issued().contains(
                (#[trigger] self.subs@[i as int].graph@.vertices[v]).id,
            ) by {
                assert(old(self).engine_ids().contains(s0.graph.vertices[v].id));
            }
            self.lemma_one_changed(old(self), i as int);
            let s1 = self.subs()[i as int];
            assert(s1 == self.subs@[i as int]@);
            assert(s1.addons =~= s0.addons);
        }
        res
    }

    /// Moves the engine at vertex `w` of subscription `i` on in its life,
    /// if its life allows the move; says whether it did.
    pub fn transition(&mut self, i: usize, w: usize, to: Lifecycle) -> (ok: bool)
        requires
            old(self).wf(),
            i < old(self).subs().len(),
            w < old(self).subs()[i as int].graph.vertices.len(),
        ensures
            final(self).wf(),
            final(self).template() == old(self).template(),
            final(self).regions() == old(self).regions(),
            final(self).sids() == old(self).sids(),
            final(self).engine_ids() == old(self).engine_ids(),
            final(self).subs().len() == old(self).subs().len(),
            ok == may_become(old(self).subs()[i as int].graph.vertices[w as int].state, to),
            forall|k: int|
                0 <= k < old(self).subs().len() && k != i ==> #[trigger] final(self).subs()[k]
                    == old(self).subs()[k],
            final(self).subs()[i as int] == (SubscriptionView {
                graph: if ok {
                    GraphView {
                        vertices: old(self).subs()[i as int].graph.vertices.update(
                            w as int,
                            VertexView {
                                state: to,
                                ..old(self).subs()[i as int].graph.vertices[w as int]
                            },
                        ),
                        ..old(self).subs()[i as int].graph
                    }
                } else {
                    old(self).subs()[i as int].graph
                },
                ..old(self).subs()[i as int]
            }),
    {
        proof {
            assert(old(self).subs()[i as int] == self.subs@[i as int]@);
        }
        let ok = self.subs[i].graph.transition(w, to);
        proof {
            let s0 = old(self).subs()[i as int];
            assert forall|v: int|
                0 <= v < self.subs@[i as int].graph@.vertices.len() implies self.engine_ids.issued().contains(
                (#[trigger] self.subs@[i as int].graph@.vertices[v]).id,
            ) by {
                assert(old(self).engine_ids().contains(s0.graph.vertices[v].id));
            }
            self.lemma_one_changed(old(self), i as int);
            let s1 = self.subs()[i as int];
            assert(s1 == self.subs@[i as int]@);
            assert(s1.addons =~= s0.addons);
        }
        ok
    }

    /// Records a region that subscription `sid` of client `pid` refers to.
    pub fn register_region(&mut self, pid: i32, sid: u64, mr: MemoryRegion) -> (res: Result<
        (),
        DaemonError,
    >)
        requires
            old(self).wf(),
        ensures
            final(self).wf(),
            final(self).template() == old(self).template(),
            final(self).subs() == old(self).subs(),
            final(self).sids() == old(self).sids(),
            final(self).engine_ids() == old(self).engine_ids(),
            if forall|i: int| !old(self).is_sub(i, pid, sid) {
                res == Err::<(), DaemonError>(DaemonError::NoSubscription) && final(self).regions()
                    == old(self).regions()
            } else {
                insert_post(
                    old(self).regions(),
                    mr,
                    sid,
                    resource_outcome(res),
                    final(self).regions(),
                ) && res != Err::<(), DaemonError>(DaemonError::NoSubscription)
            },
    {
        if self.find(pid, sid).is_none() {
            return Err(DaemonError::NoSubscription);
        }
        let res = match self.regions.insert(mr, sid) {
            Ok(()) => Ok(()),
            Err(e) => Err(DaemonError::Resource(e)),
        };
        proof {
            assert(self.subs() =~= old(self).subs());
        }
        res
    }

    /// Records that subscription `sid` of client `pid` refers to the
    /// region known under `handle` as well.
    pub fn share_region(&mut self, pid: i32, sid: u64, handle: Handle) -> (res: Result<
        (),
        DaemonError,
    >)
        requires
            old(self).wf(),
        ensures
            final(self).wf(),
            final(self).template() == old(self).template(),
            final(self).subs() == old(self).subs(),
            final(self).sids() == old(self).sids(),
            final(self).engine_ids() == old(self).engine_ids(),
            if forall|i: int| !old(self).is_sub(i, pid, sid) {
                res == Err::<(), DaemonError>(DaemonError::NoSubscription) && final(self).regions()
                    == old(self).regions()
            } else {
                share_post(
                    old(self).regions(),
                    handle,
                    sid,
                    resource_outcome(res),
                    final(self).regions(),
                ) && res != Err::<(), DaemonError>(DaemonError::NoSubscription)
            },
    {
        if self.find(pid, sid).is_none() {
            return Err(DaemonError::NoSubscription);
        }
        let res = match self.regions.share(handle, sid) {
            Ok(()) => Ok(()),
            Err(e) => Err(DaemonError::Resource(e)),
        };
        proof {
            assert(self.subs() =~= old(self).subs());
        }
        res
    }

    /// Ends the subscription that client `pid` knows as `sid`. The
    /// subscription is gone, and the regions to which it was the last to
    /// refer are returned, to be deregistered.
    pub fn end_subscription(&mut self, pid: i32, sid: u64) -> (res: Option<Vec<MemoryRegion>>)
        requires
            old(self).wf(),
        ensures
            final(self).wf(),
            final(self).template() == old(self).template(),
            final(self).sids() == old(self).sids(),
            final(self).engine_ids() == old(self).engine_ids(),
            res is None <==> forall|i: int| !old(self).is_sub(i, pid, sid),
            res is None ==> final(self).subs() == old(self).subs() && final(self).regions()
                == old(self).regions(),
            res matches Some(gone) ==> {
                &&& release_post(old(self).regions(), sid, gone@, final(self).regions())
                &&& forall|i: int| #[trigger]
                    old(self).is_sub(i, pid, sid) ==> final(self).subs() == old(self).subs().remove(
                        i,
                    )
            },
    {
        let i = match self.find(pid, sid) {
            Some(i) => i,
            None => {
                return None;
            },
        };
        self.subs.remove(i);
        let gone = self.regions.release(sid);
        proof {
            let before = old(self).subs();
            let after = before.remove(i as int);
            assert(self.subs() =~= after) by {
                assert forall|k: int| 0 <= k < after.len() implies self.subs()[k] == after[k] by {
                    assert(self.subs()[k] == self.subs@[k]@);
                    if k < i {
                        assert(before[k] == old(self).subs@[k]@);
                    } else {
                        assert(before[k + 1] == old(self).subs@[k + 1]@);
                    }
                }
            }
            assert forall|k: int| #[trigger] old(self).is_sub(k, pid, sid) implies k == i by {
                if k < i {
                    assert(before[k].sid != before[i as int].sid);
                } else if i < k {
                    assert(before[i as int].sid != before[k].sid);
                }
            }
            assert(old(self).is_sub(i as int, pid, sid));
            assert forall|k: int| 0 <= k < after.len() implies (#[trigger] after[k]).graph.wf()
                && self.sids().contains(after[k].sid) by {
                let k0 = if k < i {
                    k
                } else {
                    k + 1
                };
                assert(after[k] == before[k0]);
                assert(before[k0].graph.wf());
                assert(old(self).sids().contains(before[k0].sid));
            }
            assert forall|a: int, b: int| 0 <= a < b < after.len() implies after[a].sid
                != after[b].sid by {
                let a0 = if a < i {
                    a
                } else {
                    a + 1
                };
                let b0 = if b < i {
                    b
                } else {
                    b + 1
                };
                assert(after[a] == before[a0] && after[b] == before[b0]);
                assert(before[a0].sid != before[b0].sid);
            }
            assert forall|k: int, w: int|
                0 <= k < after.len() && 0 <= w
                    < after[k].graph.vertices.len() implies self.engine_ids().contains(
                (#[trigger] after[k].graph.vertices[w]).id,
            ) by {
                let k0 = if k < i {
                    k
                } else {
                    k + 1
                };
                assert(after[k] == before[k0]);
                assert(old(self).engine_ids().contains(before[k0].graph.vertices[w].id));
            }
            assert forall|k: int, w: int, j: int, v: int|
                0 <= k < after.len() && 0 <= j < after.len() && 0 <= w
                    < after[k].graph.vertices.len() && 0 <= v < after[j].graph.vertices.len() && (k
                    != j || w != v) implies #[trigger] after[k].graph.vertices[w].id
                != #[trigger] after[j].graph.vertices[v].id by {
                let k0 = if k < i {
                    k
                } else {
                    k + 1
                };
                let j0 = if j < i {
                    j
                } else {
                    j + 1
                };
                assert(after[k] == before[k0] && after[j] == before[j0]);
                assert(before[k0].graph.vertices[w].id != before[j0].graph.vertices[v].id);
            }
        }
        Some(gone)
    }

    /// The engines that an upgrade touches, subscription by subscription
    /// and, within each, in the order of its graph.
    ///
    /// An engine is upgraded if it has not terminated, a plugin of the
    /// request has the name of its type, and it is an addon exactly if the
    /// request is for addons. It is suspended if it is upgraded; where the
    /// request asks for it, every engine of a subscription that has an
    /// engine to upgrade is suspended.
    pub fn upgrade_plan(&self, req: &UpgradeRequest) -> (plan: Vec<Suspension>)
        requires
            self.wf(),
        ensures
            plan@ == plan_upto(self.subs(), *req, self.subs().len() as int),
    {
        let mut plan: Vec<Suspension> = Vec::new();
        let mut i: usize = 0;
        while i < self.subs.len()
            invariant
                i <= self.subs.len(),
                plan@ == plan_upto(self.subs(), *req, i as int),
            decreases self.subs.len() - i,
        {
            let sub = &self.subs[i];
            let ghost s = self.subs()[i as int];
            assert(s == sub@);
            assert(s.addons =~= names_view(sub.addons@));
            let mut any = false;
            let mut w: usize = 0;
            while w < sub.graph.len()
                invariant
                    w <= sub.graph@.vertices.len(),
                    s == sub@,
                    s.addons == names_view(sub.addons@),
                    any == exists|v: int| 0 <= v < w && upgraded(s, *req, v),
                decreases sub.graph@.vertices.len() - w,
            {
                if Self::is_upgraded(sub, req, w) {
                    any = true;
                }
                w += 1;
            }
            proof {
                assert(any == touched(s, *req)) by {
                    if touched(s, *req) {
                        let v = choose|v: int| 0 <= v < s.graph.vertices.len() && upgraded(s, *req, v);
                        assert(0 <= v < w && upgraded(s, *req, v));
                    }
                }
            }
            let ghost head = plan@;
            let mut v: usize = 0;
            while v < sub.graph.len()
                invariant
                    v <= sub.graph@.vertices.len(),
                    s == sub@,
                    s.addons == names_view(sub.addons@),
                    any == touched(s, *req),
                    plan@ == head + sub_plan(s, *req, v as int),
                decreases sub.graph@.vertices.len() - v,
            {
                let up = Self::is_upgraded(sub, req, v);
                let live = !matches!(sub.graph.state(v), Lifecycle::Terminated);
                if live && (up || (req.detach_subscription && any)) {
                    plan.push(Suspension { sid: sub.sid, engine: sub.graph.engine_id(v), upgrade: up });
                }
                proof {
                    assert(plan@ =~= head + sub_plan(s, *req, v + 1));
                }
                v += 1;
            }
            proof {
                assert(head + sub_plan(s, *req, s.graph.vertices.len() as int) == plan_upto(
                    self.subs(),
                    *req,
                    i + 1,
                ));
            }
            i += 1;
        }
        plan
    }

    fn names_type(req: &UpgradeRequest, ty: &String) -> (b: bool)
        ensures
            b == named_by(*req, ty@),
    {
        let mut k: usize = 0;
        while k < req.plugins.len()
            invariant
                k <= req.plugins.len(),
                forall|j: int| 0 <= j < k ==> (#[trigger] req.plugins@[j]).name@ != ty@,
            decreases req.plugins.len() - k,
        {
            if req.plugins[k].name == *ty {
                return true;
            }
            k += 1;
        }
        false
    }

    fn is_upgraded(sub: &Subscription, req: &UpgradeRequest, w: usize) -> (b: bool)
        requires
            w < sub@.graph.vertices.len(),
            sub@.addons == names_view(sub.addons@),
        ensures
            b == upgraded(sub@, *req, w as int),
    {
        if matches!(sub.graph.state(w), Lifecycle::Terminated) {
            return false;
        }
        if !Self::names_type(req, sub.graph.engine_type(w)) {
            return false;
        }
        let ty = sub.graph.engine_type(w);
        let mut addon = false;
        let mut k: usize = 0;
        while k < sub.addons.len()
            invariant
                k <= sub.addons.len(),
                addon == exists|j: int| 0 <= j < k && (#[trigger] sub.addons@[j])@ == ty@,
            decreases sub.addons.len() - k,
        {
            if sub.addons[k] == *ty {
                addon = true;
            }
            k += 1;
        }
        proof {
            let names = names_view(sub.addons@);
            assert(addon == names.contains(ty@)) by {
                if names.contains(ty@) {
                    let j = choose|j: int| 0 <= j < names.len() && names[j] == ty@;
                    assert(sub.addons@[j]@ == ty@);
                }
                if addon {
                    let j = choose|j: int| 0 <= j < k && (#[trigger] sub.addons@[j])@ == ty@;
                    assert(names[j] == ty@);
                }
            }
        }
        match req.ty {
            PluginType::Addon => addon,
            PluginType::Module => !addon,
        }
    }

    /// When subscription `i` alone was changed, kept its id, and every
    /// engine id in it was handed out, the daemon is well formed as it
    /// was.
    proof fn lemma_one_changed(&self, before: &Daemon, i: int)
        requires
            before.wf(),
            0 <= i < before.subs().len(),
            self.template == before.template,
            self.regions == before.regions,
            self.sids == before.sids,
            before.engine_ids.issued().subset_of(self.engine_ids.issued()),
            self.subs@.len() == before.subs@.len(),
            forall|k: int| 0 <= k < self.subs@.len() && k != i ==> self.subs@[k] == before.subs@[k],
            self.subs@[i].sid == before.subs@[i].sid,
            self.subs@[i].pid == before.subs@[i].pid,
            self.subs@[i].service == before.subs@[i].service,
            self.subs@[i].mode == before.subs@[i].mode,
            self.subs@[i].socket_path == before.subs@[i].socket_path,
            self.subs@[i].graph@.wf(),
            forall|w: int|
                0 <= w < self.subs@[i].graph@.vertices.len() ==> self.engine_ids.issued().contains(
                    (#[trigger] self.subs@[i].graph@.vertices[w]).id,
                ),
            forall|w: int|
                0 <= w < self.subs@[i].graph@.vertices.len() ==> {
                    let id = (#[trigger] self.subs@[i].graph@.vertices[w]).id;
                    ||| w < before.subs@[i].graph@.vertices.len()
                        && before.subs@[i].graph@.vertices[w].id == id
                    ||| !before.engine_ids.issued().contains(id)
                },
        ensures
            self.wf(),
            self.template() == before.template(),
            self.regions() == before.regions(),
            self.sids() == before.sids(),
            self.subs().len() == before.subs().len(),
            forall|k: int|
                0 <= k < self.subs().len() && k != i ==> #[trigger] self.subs()[k]
                    == before.subs()[k],
            self.subs()[i] == self.subs@[i]@,
            self.subs()[i].sid == before.subs()[i].sid,
            self.subs()[i].pid == before.subs()[i].pid,
            self.subs()[i].service == before.subs()[i].service,
            self.subs()[i].mode == before.subs()[i].mode,
            self.subs()[i].socket_path == before.subs()[i].socket_path,
    {
        assert forall|k: int| 0 <= k < self.subs().len() && k != i implies #[trigger] self.subs()[k]
            == before.subs()[k] by {
            assert(self.subs()[k] == self.subs@[k]@);
            assert(before.subs()[k] == before.subs@[k]@);
        }
        assert(before.subs()[i] == before.subs@[i]@);
        assert forall|k: int| 0 <= k < self.subs().len() implies (#[trigger] self.subs()[k]).graph.wf() by {
            if k != i {
                assert(before.subs()[k].graph.wf());
            }
        }
        assert forall|k: int| 0 <= k < self.subs().len() implies self.sids().contains(
            (#[trigger] self.subs()[k]).sid,
        ) by {
            assert(before.sids().contains(before.subs()[k].sid));
        }
        assert forall|a: int, b: int| 0 <= a < b < self.subs().len() implies self.subs()[a].sid
            != self.subs()[b].sid by {
            assert(before.subs()[a].sid != before.subs()[b].sid);
            assert(self.subs()[a].sid == before.subs()[a].sid);
            assert(self.subs()[b].sid == before.subs()[b].sid);
        }
        assert forall|k: int, w: int|
            0 <= k < self.subs().len() && 0 <= w
                < self.subs()[k].graph.vertices.len() implies self.engine_ids().contains(
            (#[trigger] self.subs()[k].graph.vertices[w]).id,
        ) by {
            if k != i {
                assert(before.engine_ids().contains(before.subs()[k].graph.vertices[w].id));
            }
        }
        let now = self.subs();
        let was = before.subs();
        assert(now[i] == self.subs@[i]@);
        assert forall|k: int, w: int, j: int, v: int|
            0 <= k < now.len() && 0 <= j < now.len() && 0 <= w < now[k].graph.vertices.len() && 0
                <= v < now[j].graph.vertices.len() && (k != j || w != v) implies #[trigger] now[k].graph.vertices[w].id
            != #[trigger] now[j].graph.vertices[v].id by {
            let a = now[k].graph.vertices[w].id;
            let b = now[j].graph.vertices[v].id;
            if k != i && j != i {
                assert(was[k].graph.vertices[w].id != was[j].graph.vertices[v].id);
            } else if k == i && j == i {
                if w < v {
                    assert(now[i].graph.vertices[w].id != now[i].graph.vertices[v].id);
                } else {
                    assert(now[i].graph.vertices[v].id != now[i].graph.vertices[w].id);
                }
            } else if k == i {
                assert(before.engine_ids().contains(was[j].graph.vertices[v].id));
                if before.engine_ids().contains(a) {
                    assert(was[i].graph.vertices[w].id != was[j].graph.vertices[v].id);
                }
            } else {
                assert(before.engine_ids().contains(was[k].graph.vertices[w].id));
                if before.engine_ids().contains(b) {
                    assert(was[k].graph.vertices[w].id != was[i].graph.vertices[v].id);
                }
            }
        }
    }
}

/// What a listing says of a subscription.
pub ghost struct InfoView {
    pub pid: i32,
    pub sid: u64,
    pub service: Seq<char>,
    pub engines: Seq<(u64, Seq<char>)>,
    pub addons: Seq<Seq<char>>,
}

/// Ids and types as a listing gives them.
pub open spec fn pairs_view(pairs: Seq<(u64, String)>) -> Seq<(u64, Seq<char>)> {
    pairs.map_values(|p: (u64, String)| (p.0, p.1@))
}

/// Names as a listing gives them.
pub open spec fn names_view(names: Seq<String>) -> Seq<Seq<char>> {
    names.map_values(|s: String| s@)
}

/// What `info` says.
pub open spec fn info_view(info: ServiceSubscriptionInfo) -> InfoView {
    InfoView {
        pid: info.pid,
        sid: info.sid,
        service: info.service@,
        engines: pairs_view(info.engines@),
        addons: names_view(info.addons@),
    }
}

/// Id and type of each of the first `n` vertices of `g` that has not
/// terminated.
pub open spec fn engines_upto(g: GraphView, n: int) -> Seq<(u64, Seq<char>)>
    decreases n,
{
    if n <= 0 {
        Seq::empty()
    } else if g.live(n - 1) {
        engines_upto(g, n - 1).push((g.vertices[n - 1].id, g.vertices[n - 1].engine_type))
    } else {
        engines_upto(g, n - 1)
    }
}

/// What a listing is to say of subscription `s`.
pub open spec fn info_of(s: SubscriptionView) -> InfoView {
    InfoView {
        pid: s.pid,
        sid: s.sid,
        service: s.service,
        engines: engines_upto(s.graph, s.graph.vertices.len() as int),
        addons: s.addons,
    }
}

/// An engine that an upgrade touches.
#[derive(Clone, Copy, Debug, PartialEq, Eq, Structural, Hash)]
pub struct Suspension {
    /// The subscription of the engine.
    pub sid: u64,
    /// The id of the engine.
    pub engine: u64,
    /// Whether the engine is upgraded, or only suspended meanwhile.
    pub upgrade: bool,
}

/// Whether a plugin of the request has the name `ty`.
pub open spec fn named_by(req: UpgradeRequest, ty: Seq<char>) -> bool {
    exists|k: int| 0 <= k < req.plugins@.len() && (#[trigger] req.plugins@[k]).name@ == ty
}

/// Whether the request upgrades vertex `w` of subscription `s`.
pub open spec fn upgraded(s: SubscriptionView, req: UpgradeRequest, w: int) -> bool {
    &&& s.graph.live(w)
    &&& named_by(req, s.graph.vertices[w].engine_type)
    &&& (req.ty == PluginType::Addon) == s.addons.contains(s.graph.vertices[w].engine_type)
}

/// Whether the request upgrades an engine of subscription `s`.
pub open spec fn touched(s: SubscriptionView, req: UpgradeRequest) -> bool {
    exists|v: int| 0 <= v < s.graph.vertices.len() && upgraded(s, req, v)
}

/// Whether vertex `w` of subscription `s` is suspended for the request.
pub open spec fn suspended(s: SubscriptionView, req: UpgradeRequest, w: int) -> bool {
    s.graph.live(w) && (upgraded(s, req, w) || (req.detach_subscription && touched(s, req)))
}

/// What the request touches among the first `n` vertices of subscription
/// `s`.
pub open spec fn sub_plan(s: SubscriptionView, req: UpgradeRequest, n: int) -> Seq<Suspension>
    decreases n,
{
    if n <= 0 {
        Seq::empty()
    } else if suspended(s, req, n - 1) {
        sub_plan(s, req, n - 1).push(
            Suspension {
                sid: s.sid,
                engine: s.graph.vertices[n - 1].id,
                upgrade: upgraded(s, req, n - 1),
            },
        )
    } else {
        sub_plan(s, req, n - 1)
    }
}

/// What the request touches in the first `m` subscriptions.
pub open spec fn plan_upto(subs: Seq<SubscriptionView>, req: UpgradeRequest, m: int) -> Seq<
    Suspension,
>
    decreases m,
{
    if m <= 0 {
        Seq::empty()
    } else {
        plan_upto(subs, req, m - 1) + sub_plan(
            subs[m - 1],
            req,
            subs[m - 1].graph.vertices.len() as int,
        )
    }
}

/// The outcome of a change of a table within the outcome of a request.
pub open spec fn resource_outcome(res: Result<(), DaemonError>) -> Result<(), ResourceError> {
    match res {
        Ok(()) => Ok(()),
        Err(DaemonError::Resource(e)) => Err(e),
        Err(_) => Err(ResourceError::NotFound),
    }
}

/// The outcome of a change of a graph within the outcome of a request.
pub open spec fn graph_outcome(res: Result<u64, DaemonError>) -> Result<u64, GraphError> {
    match res {
        Ok(id) => Ok(id),
        Err(DaemonError::Graph(e)) => Err(e),
        Err(_) => Err(GraphError::NotFound),
    }
}

/// `names` without the entries that are `name`.
pub open spec fn without_name(names: Seq<Seq<char>>, name: Seq<char>) -> Seq<Seq<char>> {
    names.filter(|n: Seq<char>| n != name)
}

/// `names` without the entries that are `name`.
fn drop_name(names: &Vec<String>, name: &String) -> (kept: Vec<String>)
    ensures
        names_view(kept@) == without_name(names_view(names@), name@),
{
    let mut kept: Vec<String> = Vec::new();
    let mut i: usize = 0;
    let ghost all = names_view(names@);
    proof {
        assert(all.take(0) =~= Seq::<Seq<char>>::empty());
        assert(names_view(kept@) =~= without_name(all.take(0), name@));
    }
    while i < names.len()
        invariant
            i <= names.len(),
            all == names_view(names@),
            names_view(kept@) == without_name(all.take(i as int), name@),
        decreases names.len() - i,
    {
        let ghost before = names_view(kept@);
        proof {
            assert(all.take(i + 1) =~= all.take(i as int).push(all[i as int]));
            lemma_filter_push(all.take(i as int), all[i as int], name@);
            assert(all[i as int] == names@[i as int]@);
        }
        if names[i] != *name {
            kept.push(names[i].clone());
            proof {
                assert(names_view(kept@) =~= before.push(all[i as int]));
            }
        }
        i += 1;
    }
    proof {
        assert(all.take(all.len() as int) =~= all);
    }
    kept
}

/// Filtering a sequence with one more entry.
proof fn lemma_filter_push(s: Seq<Seq<char>>, x: Seq<char>, name: Seq<char>)
    ensures
        without_name(s.push(x), name) == if x != name {
            without_name(s, name).push(x)
        } else {
            without_name(s, name)
        },
{
    reveal(Seq::filter);
    assert(s.push(x).drop_last() =~= s);
}

} // verus!
