use koala::cmd::{Command, Completion, CompletionKind};
use koala::config::{Config, ConfigError, Control, Direction, Edges, Node as ConfigNode};
use koala::customer::Customer;
use koala::dp::WorkRequest;
use koala::engine::{current_version, MrpcEngine};
use koala::graph::{GraphError, Lifecycle};
use koala::ids::IdMint;
use koala::interface::{
    EngineStatus, EngineType, Handle, MessageMeta, MessageTemplateErased, RemoteKey, RpcMsgType,
    SchedulingMode,
};
use koala::mr::{MemoryRegion, MrTable};
use koala::node::Node;
use koala::queue::{EdgeArena, EdgeId};
use koala::schedule::{group_count, plan};
use koala::topology::from_config;
use koala::upgrade::Version;

const LOCAL: u64 = 0x7f00_0000_0000;
const APP: u64 = 0x5500_0000_0000;

struct Rig {
    engine: MrpcEngine,
    edges: EdgeArena,
    tx: EdgeId,
    rx: EdgeId,
    clock: u64,
}

impl Rig {
    /// An engine whose peer maps one region of 64 KiB.
    fn new() -> Rig {
        let mut edges = EdgeArena::new();
        let tx = edges.add_edge();
        let rx = edges.add_edge();
        let engine = MrpcEngine::new(
            Customer::new(64, 64),
            Node::with_edges(tx, rx),
            SchedulingMode::Dedicated,
            0,
        );
        let mut rig = Rig { engine, edges, tx, rx, clock: 0 };
        rig.engine.customer_mut().post_cmd(Command::NewMappedAddrs(vec![(Handle(1), APP)]));
        while rig.engine.addr_map().len() == 0 {
            rig.step();
        }
        assert!(matches!(
            rig.engine.customer_mut().take_comp(),
            Some(Completion(Ok(CompletionKind::NewMappedAddrs)))
        ));
        rig
    }

    /// One step of the engine, then one of the transport behind it, which
    /// answers every request with a response in the same place.
    fn step(&mut self) {
        self.clock += 1;
        assert_eq!(self.engine.resume(&mut self.edges, self.clock / 1000), Ok(EngineStatus::Continue));
        while let Ok(m) = self.edges.try_recv(self.tx) {
            let reply = MessageTemplateErased {
                meta: MessageMeta { msg_type: RpcMsgType::Response, ..m.meta },
                shmptr: m.shmptr - APP + LOCAL,
            };
            assert_eq!(self.edges.send(self.rx, reply), Ok(()));
        }
        while let Some(cmd) = self.engine.take_forwarded() {
            let answer = match cmd {
                Command::NewMappedAddrs(v) => Completion(Ok(CompletionKind::NewMappedAddrsInternal(
                    v.iter().map(|(_, app)| (LOCAL, *app, 0x10000)).collect(),
                ))),
                other => panic!("unexpected: {:?}", other),
            };
            assert!(self.engine.accepts(&answer));
            self.engine.deliver_internal(answer);
        }
    }

    fn call(&mut self, call_id: u64, len: u64) -> bool {
        self.engine.customer_mut().post_wr(WorkRequest::Call(MessageTemplateErased {
            meta: MessageMeta {
                conn_id: Handle(3),
                func_id: 0,
                call_id,
                len,
                msg_type: RpcMsgType::Request,
            },
            shmptr: APP + 8 * (call_id % 1024),
        }))
    }
}

#[test]
fn one_call_is_answered_by_a_completion() {
    let mut rig = Rig::new();
    assert!(rig.call(7, 1000));
    let mut steps = 0;
    let wc = loop {
        rig.step();
        steps += 1;
        if let Some(wc) = rig.engine.customer_mut().take_wc() {
            break wc;
        }
        assert!(steps < 10);
    };
    assert_eq!(wc.erased.meta.call_id, 7);
    assert_eq!(wc.erased.meta.func_id, 0);
    assert_eq!(wc.erased.meta.len, 1000);
    assert_eq!(wc.erased.meta.msg_type, RpcMsgType::Response);
    assert_eq!(wc.erased.shmptr, APP + 8 * 7);
    assert_eq!(rig.engine.customer_mut().take_wc(), None);
}

#[test]
fn an_upgrade_in_mid_stream_loses_no_call() {
    let mut rig = Rig::new();
    let mut answered = Vec::new();
    let mut sent = 0u64;
    let next = Version { major: 0, minor: 2, patch: 0 };
    while answered.len() < 1000 {
        if sent < 1000 && rig.call(sent, 64) {
            sent += 1;
        }
        if sent == 500 && rig.engine.version() != next {
            let before = rig.engine.version();
            rig.engine.suspend();
            rig.engine = match rig.engine.upgrade(next) {
                Ok(e) => e,
                Err(_) => panic!("refused"),
            };
            assert_ne!(rig.engine.version(), before);
        }
        rig.step();
        while let Some(wc) = rig.engine.customer_mut().take_wc() {
            answered.push(wc.erased.meta.call_id);
        }
    }
    assert_eq!(answered, (0..1000).collect::<Vec<u64>>());
    assert_eq!(rig.engine.version(), next);
    assert_ne!(rig.engine.version(), current_version());
}

#[test]
fn a_crashed_client_ends_its_engine_and_frees_its_regions() {
    let mut rig = Rig::new();
    let mut table = MrTable::new();
    let region = |h: u64| MemoryRegion::new(Handle(h), RemoteKey { rkey: 1, addr: LOCAL }, 0x10000, 5);
    assert_eq!(table.insert(region(1), 42), Ok(()));
    assert_eq!(table.insert(region(2), 42), Ok(()));
    assert_eq!(table.insert(region(3), 43), Ok(()));
    for i in 0..20 {
        assert!(rig.call(i, 64));
    }
    rig.step();
    rig.engine.customer_mut().disconnect();
    // within one polling cycle: one spin budget
    let budget = rig.engine.backoff();
    let mut steps = 0;
    let status = loop {
        steps += 1;
        match rig.engine.resume(&mut rig.edges, 0) {
            Ok(EngineStatus::Continue) => assert!(steps <= budget),
            other => break other,
        }
    };
    assert_eq!(status, Ok(EngineStatus::Complete));
    assert!(steps <= budget);
    let mut gone: Vec<u64> = table.release(42).iter().map(|mr| mr.as_handle().0).collect();
    gone.sort();
    assert_eq!(gone, vec![1, 2]);
    assert!(table.contains(Handle(3)));
}

fn node(id: &str, ty: &str) -> ConfigNode {
    ConfigNode { id: id.to_string(), engine_type: EngineType(ty.to_string()) }
}

fn path(ids: &[&str]) -> Vec<String> {
    ids.iter().map(|s| s.to_string()).collect()
}

fn config(nodes: Vec<ConfigNode>, egress: Vec<Vec<String>>, ingress: Vec<Vec<String>>) -> Config {
    Config {
        log_env: "KOALA_LOG".to_string(),
        default_log_level: "info".to_string(),
        modules: vec![],
        control: Control { prefix: "/tmp/koala".to_string(), path: "control.sock".to_string() },
        transport_rdma: None,
        node: nodes,
        edges: Edges { egress, ingress },
    }
}

#[test]
fn a_graph_is_built_from_its_description() {
    let c = config(
        vec![node("0", "Mrpc"), node("1", "RpcAdapter"), node("2", "RdmaTransport")],
        vec![path(&["0", "1", "2"])],
        vec![path(&["2", "1"]), path(&["1", "0"]), path(&["2"]), path(&[])],
    );
    let mut mint = IdMint::new();
    assert_eq!(mint.mint(), Some(0));
    let g = match from_config(&c, &mut mint) {
        Ok(g) => g,
        Err(e) => panic!("refused: {:?}", e),
    };
    assert_eq!(mint.count(), 4);
    assert_eq!(g.len(), 3);
    for (w, (name, ty)) in [("0", "Mrpc"), ("1", "RpcAdapter"), ("2", "RdmaTransport")].iter().enumerate() {
        assert_eq!(g.position(&name.to_string()), Some(w));
        assert_eq!(g.engine_id(w), w as u64 + 1);
        assert_eq!(g.engine_type(w), ty);
        assert_eq!(g.state(w), Lifecycle::New);
    }
    assert_eq!(g.edges().len(), 4);
    // 0 -> 1 -> 2 in the sending direction, 2 -> 1 -> 0 in the receiving one
    assert_eq!(g.tx_outputs(0), &vec![EdgeId(0)]);
    assert_eq!(g.rx_inputs(1), &vec![EdgeId(0), EdgeId(2)]);
    assert_eq!(g.tx_outputs(1), &vec![EdgeId(1), EdgeId(3)]);
    assert_eq!(g.rx_inputs(2), &vec![EdgeId(1)]);
    assert_eq!(g.tx_outputs(2), &vec![EdgeId(2)]);
    assert_eq!(g.rx_inputs(0), &vec![EdgeId(3)]);
}

#[test]
fn an_unsound_description_builds_no_graph() {
    let mut mint = IdMint::new();
    let c = config(vec![node("a", "Mrpc"), node("a", "Mrpc")], vec![], vec![]);
    assert!(matches!(
        from_config(&c, &mut mint),
        Err(GraphError::Invalid(ConfigError::DuplicateNode(1)))
    ));
    let c = config(vec![node("a", "Mrpc")], vec![], vec![path(&["a", "b"])]);
    assert!(matches!(
        from_config(&c, &mut mint),
        Err(GraphError::Invalid(ConfigError::UnknownNode {
            direction: Direction::Ingress,
            path: 0,
            hop: 1
        }))
    ));
    assert_eq!(mint.count(), 0);
}

#[test]
fn engines_are_connected_one_edge_at_a_time() {
    let c = config(vec![node("a", "Mrpc"), node("b", "Tcp")], vec![], vec![]);
    let mut mint = IdMint::new();
    let mut g = match from_config(&c, &mut mint) {
        Ok(g) => g,
        Err(e) => panic!("refused: {:?}", e),
    };
    assert_eq!(g.edges().len(), 0);
    assert_eq!(g.connect(0, 1), EdgeId(0));
    assert_eq!(g.connect(1, 0), EdgeId(1));
    assert_eq!(g.connect(0, 0), EdgeId(2));
    assert_eq!(g.tx_outputs(0), &vec![EdgeId(0), EdgeId(2)]);
    assert_eq!(g.rx_inputs(0), &vec![EdgeId(1), EdgeId(2)]);
    assert_eq!(g.tx_outputs(1), &vec![EdgeId(1)]);
    assert_eq!(g.rx_inputs(1), &vec![EdgeId(0)]);
}

#[test]
fn scheduling_modes_group_the_engines() {
    assert_eq!(plan(SchedulingMode::Dedicated, 4, 2), vec![0, 1, 2, 3]);
    assert_eq!(plan(SchedulingMode::Compact, 4, 2), vec![0, 0, 0, 0]);
    assert_eq!(plan(SchedulingMode::Spread, 5, 2), vec![0, 1, 0, 1, 0]);
    assert_eq!(plan(SchedulingMode::Spread, 2, 8), vec![0, 1]);
    assert_eq!(plan(SchedulingMode::Spread, 0, 8), Vec::<usize>::new());
    assert_eq!(group_count(SchedulingMode::Dedicated, 4, 2), 4);
    assert_eq!(group_count(SchedulingMode::Compact, 4, 2), 1);
    assert_eq!(group_count(SchedulingMode::Spread, 5, 2), 2);
    assert_eq!(group_count(SchedulingMode::Spread, 2, 8), 2);
    assert_eq!(group_count(SchedulingMode::Compact, 0, 1), 0);
}
