use koala::config::Direction;
use koala::control::AddonRequest;
use koala::error::TryRecvError;
use koala::graph::{Graph, GraphError, Lifecycle, Rewire};
use koala::ids::IdMint;
use koala::interface::{Handle, MessageMeta, MessageTemplateErased, RpcMsgType};
use koala::queue::EdgeId;

fn msg(call_id: u64) -> MessageTemplateErased {
    MessageTemplateErased {
        meta: MessageMeta {
            conn_id: Handle(1),
            func_id: 0,
            call_id,
            len: 8,
            msg_type: RpcMsgType::Request,
        },
        shmptr: call_id,
    }
}

fn entry(from: &str, to: &str, i: usize, j: usize) -> (String, String, usize, usize) {
    (from.to_string(), to.to_string(), i, j)
}

fn request(
    addon: &str,
    tx: Vec<(String, String, usize, usize)>,
    rx: Vec<(String, String, usize, usize)>,
) -> AddonRequest {
    AddonRequest {
        pid: 1234,
        sid: 1,
        addon_engine: addon.to_string(),
        tx_channels_replacements: tx,
        rx_channels_replacements: rx,
        group: vec![],
        config_path: None,
        config_string: None,
    }
}

/// Head and transport, connected by one edge in each direction:
/// head.tx[0] -> transport.rx[0], and transport.tx[0] -> head.rx[0].
fn pair() -> (Graph, IdMint, usize, usize) {
    let mut g = Graph::new();
    let mut mint = IdMint::new();
    let id = mint.mint().unwrap();
    let head = g.add_engine(id, "Mrpc".to_string(), "Mrpc".to_string(), 1, 1);
    let id = mint.mint().unwrap();
    let tail = g.add_engine(id, "RdmaTransport".to_string(), "RdmaTransport".to_string(), 1, 1);
    g.rewire(
        &vec![
            Rewire { from: head, to: tail, idx_from: 0, idx_to: 0 },
            Rewire { from: tail, to: head, idx_from: 0, idx_to: 0 },
        ],
        false,
    );
    (g, mint, head, tail)
}

#[test]
fn an_engine_gets_slots_of_its_own() {
    let mut g = Graph::new();
    assert_eq!(g.len(), 0);
    let w = g.add_engine(7, "Mrpc".to_string(), "MrpcEngine".to_string(), 2, 1);
    assert_eq!(w, 0);
    assert_eq!(g.len(), 1);
    assert_eq!(g.engine_id(w), 7);
    assert_eq!(g.engine_type(w), "MrpcEngine");
    assert_eq!(g.state(w), Lifecycle::New);
    assert_eq!(g.tx_outputs(w), &vec![EdgeId(0), EdgeId(1)]);
    assert_eq!(g.rx_inputs(w), &vec![EdgeId(2)]);
    assert_eq!(g.edges().len(), 3);
    assert_eq!(g.position(&"Mrpc".to_string()), Some(0));
    assert_eq!(g.position(&"mrpc".to_string()), None);
}

#[test]
fn a_replacement_connects_an_output_to_an_input() {
    let (mut g, _mint, head, tail) = pair();
    let down = g.tx_outputs(head)[0];
    let up = g.tx_outputs(tail)[0];
    assert_eq!(g.rx_inputs(tail)[0], down);
    assert_eq!(g.rx_inputs(head)[0], up);
    assert_ne!(down, up);
    assert_eq!(g.edges_mut().send(down, msg(1)), Ok(()));
    let into_tail = g.rx_inputs(tail)[0];
    assert_eq!(g.edges_mut().try_recv(into_tail), Ok(msg(1)));
}

#[test]
fn an_attached_addon_sits_between_its_neighbours() {
    let (mut g, mut mint, head, tail) = pair();
    let old_down = g.tx_outputs(head)[0];
    let old_up = g.tx_outputs(tail)[0];
    let req = request(
        "RateLimit",
        vec![entry("Mrpc", "RateLimit", 0, 0), entry("RateLimit", "RdmaTransport", 0, 0)],
        vec![entry("RdmaTransport", "RateLimit", 0, 1), entry("RateLimit", "Mrpc", 1, 0)],
    );
    let id = g.attach_addon(&mut mint, &req, false).unwrap();
    assert_eq!(id, 2);
    let addon = g.position(&"RateLimit".to_string()).unwrap();
    assert_eq!(addon, 2);
    assert_eq!(g.engine_id(addon), 2);
    assert_eq!(g.engine_type(addon), "RateLimit");
    assert_eq!(g.state(addon), Lifecycle::New);
    assert_eq!(g.tx_outputs(addon).len(), 2);
    assert_eq!(g.rx_inputs(addon).len(), 2);
    // head -> addon -> transport
    assert_eq!(g.tx_outputs(head)[0], g.rx_inputs(addon)[0]);
    assert_eq!(g.tx_outputs(addon)[0], g.rx_inputs(tail)[0]);
    // transport -> addon -> head
    assert_eq!(g.tx_outputs(tail)[0], g.rx_inputs(addon)[1]);
    assert_eq!(g.tx_outputs(addon)[1], g.rx_inputs(head)[0]);
    // the edges are new
    for e in [g.tx_outputs(head)[0], g.tx_outputs(addon)[0], g.tx_outputs(tail)[0], g.tx_outputs(addon)[1]] {
        assert_ne!(e, old_down);
        assert_ne!(e, old_up);
    }
}

#[test]
fn attaching_with_flush_keeps_messages_and_their_order() {
    let (mut g, mut mint, head, tail) = pair();
    let down = g.tx_outputs(head)[0];
    for i in 0..5 {
        assert_eq!(g.edges_mut().send(down, msg(i)), Ok(()));
    }
    let req = request(
        "Logger",
        vec![entry("Mrpc", "Logger", 0, 0), entry("Logger", "RdmaTransport", 0, 0)],
        vec![],
    );
    g.attach_addon(&mut mint, &req, true).unwrap();
    let addon = g.position(&"Logger".to_string()).unwrap();
    // what was under way now waits at the addon, which sees every message
    let into_addon = g.rx_inputs(addon)[0];
    assert_eq!(g.edges().pending(down), 0);
    assert_eq!(g.edges().pending(into_addon), 5);
    // messages sent after the change queue up behind them
    let new_down = g.tx_outputs(head)[0];
    assert_eq!(new_down, into_addon);
    for i in 5..8 {
        assert_eq!(g.edges_mut().send(new_down, msg(i)), Ok(()));
    }
    // the addon passes them on, and the transport sees the sequence
    let out_of_addon = g.tx_outputs(addon)[0];
    while let Ok(m) = g.edges_mut().try_recv(into_addon) {
        assert_eq!(g.edges_mut().send(out_of_addon, m), Ok(()));
    }
    let into_tail = g.rx_inputs(tail)[0];
    for i in 0..8 {
        assert_eq!(g.edges_mut().try_recv(into_tail), Ok(msg(i)));
    }
    assert_eq!(g.edges_mut().try_recv(into_tail), Err(TryRecvError::Empty));
}

#[test]
fn attaching_without_flush_leaves_messages_behind() {
    let (mut g, mut mint, head, _tail) = pair();
    let down = g.tx_outputs(head)[0];
    assert_eq!(g.edges_mut().send(down, msg(1)), Ok(()));
    let req = request(
        "Logger",
        vec![entry("Mrpc", "Logger", 0, 0), entry("Logger", "RdmaTransport", 0, 0)],
        vec![],
    );
    g.attach_addon(&mut mint, &req, false).unwrap();
    assert_eq!(g.edges().pending(down), 1);
    assert_eq!(g.edges().pending(g.tx_outputs(head)[0]), 0);
}

#[test]
fn a_refused_attach_changes_nothing() {
    let (mut g, mut mint, head, tail) = pair();
    let edges = g.edges().len();
    let down = g.tx_outputs(head)[0];
    let req = request("Mrpc", vec![], vec![]);
    assert_eq!(g.attach_addon(&mut mint, &req, false), Err(GraphError::Exists));
    let req = request(
        "Logger",
        vec![entry("Mrpc", "Logger", 0, 0), entry("Logger", "Nobody", 0, 0)],
        vec![],
    );
    assert_eq!(
        g.attach_addon(&mut mint, &req, false),
        Err(GraphError::UnknownEngine(Direction::Egress, 1))
    );
    let req = request(
        "Logger",
        vec![entry("Mrpc", "Logger", 0, 0)],
        vec![entry("Logger", "Mrpc", 0, 3)],
    );
    assert_eq!(
        g.attach_addon(&mut mint, &req, false),
        Err(GraphError::BadIndex(Direction::Ingress, 0))
    );
    let req = request("Logger", vec![entry("Logger", "Mrpc", usize::MAX, 0)], vec![]);
    assert_eq!(
        g.attach_addon(&mut mint, &req, false),
        Err(GraphError::BadIndex(Direction::Egress, 0))
    );
    assert_eq!(g.len(), 2);
    assert_eq!(g.edges().len(), edges);
    assert_eq!(g.tx_outputs(head)[0], down);
    assert_eq!(g.rx_inputs(tail)[0], down);
    assert_eq!(g.position(&"Logger".to_string()), None);
    // an id is not handed out twice, even after a refusal
    let req = request("Logger", vec![entry("Mrpc", "Logger", 0, 0)], vec![]);
    let id = g.attach_addon(&mut mint, &req, false).unwrap();
    assert!(id >= 2);
    assert_ne!(g.engine_id(head), id);
    assert_ne!(g.engine_id(tail), id);
}

fn with_addon() -> (Graph, IdMint, usize, usize, usize) {
    let (mut g, mut mint, head, tail) = pair();
    let req = request(
        "Logger",
        vec![entry("Mrpc", "Logger", 0, 0), entry("Logger", "RdmaTransport", 0, 0)],
        vec![entry("RdmaTransport", "Logger", 0, 1), entry("Logger", "Mrpc", 1, 0)],
    );
    g.attach_addon(&mut mint, &req, false).unwrap();
    let addon = g.position(&"Logger".to_string()).unwrap();
    (g, mint, head, tail, addon)
}

#[test]
fn a_detached_addon_is_cut_off() {
    let (mut g, _mint, head, tail, addon) = with_addon();
    let req = request(
        "Logger",
        vec![entry("Mrpc", "RdmaTransport", 0, 0)],
        vec![entry("RdmaTransport", "Mrpc", 0, 0)],
    );
    assert_eq!(g.detach_addon(&req, false), Ok(()));
    assert_eq!(g.state(addon), Lifecycle::Terminated);
    assert_eq!(g.position(&"Logger".to_string()), None);
    assert_eq!(g.tx_outputs(head)[0], g.rx_inputs(tail)[0]);
    assert_eq!(g.tx_outputs(tail)[0], g.rx_inputs(head)[0]);
    for w in [head, tail] {
        for e in g.tx_outputs(w) {
            assert!(!g.rx_inputs(addon).contains(e));
        }
        for e in g.rx_inputs(w) {
            assert!(!g.tx_outputs(addon).contains(e));
        }
    }
    // nothing that is sent now reaches an edge of the addon
    let e = g.tx_outputs(head)[0];
    assert_eq!(g.edges_mut().send(e, msg(1)), Ok(()));
    for a in g.rx_inputs(addon).clone() {
        assert_eq!(g.edges().pending(a), 0);
    }
    // the name is free again
    assert_eq!(g.detach_addon(&req, false), Err(GraphError::NotFound));
}

#[test]
fn detaching_with_flush_keeps_messages_and_their_order() {
    let (mut g, _mint, head, tail, addon) = with_addon();
    let into_addon = g.tx_outputs(head)[0];
    let out_of_addon = g.tx_outputs(addon)[0];
    // two messages have passed the addon, three wait in front of it
    for i in 0..2 {
        assert_eq!(g.edges_mut().send(out_of_addon, msg(i)), Ok(()));
    }
    for i in 2..5 {
        assert_eq!(g.edges_mut().send(into_addon, msg(i)), Ok(()));
    }
    let req = request(
        "Logger",
        vec![entry("Mrpc", "RdmaTransport", 0, 0)],
        vec![entry("RdmaTransport", "Mrpc", 0, 0)],
    );
    assert_eq!(g.detach_addon(&req, true), Ok(()));
    assert_eq!(g.edges().pending(into_addon), 0);
    assert_eq!(g.edges().pending(out_of_addon), 0);
    let direct = g.tx_outputs(head)[0];
    assert_eq!(g.edges_mut().send(direct, msg(5)), Ok(()));
    let into_tail = g.rx_inputs(tail)[0];
    for i in 0..6 {
        assert_eq!(g.edges_mut().try_recv(into_tail), Ok(msg(i)));
    }
    assert_eq!(g.edges_mut().try_recv(into_tail), Err(TryRecvError::Empty));
}

#[test]
fn a_detach_that_leaves_the_addon_wired_is_refused() {
    let (mut g, _mint, head, tail, addon) = with_addon();
    let before: Vec<EdgeId> = g.tx_outputs(head).clone();
    // the receiving direction is forgotten
    let req = request("Logger", vec![entry("Mrpc", "RdmaTransport", 0, 0)], vec![]);
    assert_eq!(g.detach_addon(&req, false), Err(GraphError::StillWired));
    // a replacement may not name the addon
    let req = request(
        "Logger",
        vec![entry("Mrpc", "Logger", 0, 0)],
        vec![entry("RdmaTransport", "Mrpc", 0, 0)],
    );
    assert_eq!(
        g.detach_addon(&req, false),
        Err(GraphError::UnknownEngine(Direction::Egress, 0))
    );
    let req = request(
        "Logger",
        vec![entry("Mrpc", "RdmaTransport", 0, 0)],
        vec![entry("RdmaTransport", "Mrpc", 0, 9)],
    );
    assert_eq!(g.detach_addon(&req, false), Err(GraphError::BadIndex(Direction::Ingress, 0)));
    let req = request("Nobody", vec![], vec![]);
    assert_eq!(g.detach_addon(&req, false), Err(GraphError::NotFound));
    assert_eq!(g.state(addon), Lifecycle::New);
    assert_eq!(g.position(&"Logger".to_string()), Some(addon));
    assert_eq!(g.tx_outputs(head), &before);
    assert_eq!(g.tx_outputs(head)[0], g.rx_inputs(addon)[0]);
    assert_eq!(g.tx_outputs(addon)[0], g.rx_inputs(tail)[0]);
}

#[test]
fn a_running_engine_is_not_rewired() {
    let (mut g, mut mint, head, _tail) = pair();
    assert!(g.transition(head, Lifecycle::Running));
    let req = request(
        "Logger",
        vec![entry("Logger", "RdmaTransport", 0, 0), entry("Mrpc", "Logger", 0, 0)],
        vec![],
    );
    assert_eq!(
        g.attach_addon(&mut mint, &req, false),
        Err(GraphError::Busy(Direction::Egress, 1))
    );
    assert_eq!(g.len(), 2);
    assert!(g.transition(head, Lifecycle::Suspended));
    assert!(g.attach_addon(&mut mint, &req, false).is_ok());
    assert!(g.transition(head, Lifecycle::Running));
}

#[test]
fn the_cut_check_sees_every_slot() {
    let (g, _mint, head, tail, addon) = with_addon();
    let down = Rewire { from: head, to: tail, idx_from: 0, idx_to: 0 };
    let up = Rewire { from: tail, to: head, idx_from: 0, idx_to: 0 };
    assert!(g.cuts(addon, &vec![down, up]));
    assert!(g.cuts(addon, &vec![up, down]));
    assert!(!g.cuts(addon, &vec![down]));
    assert!(!g.cuts(addon, &vec![up]));
    assert!(!g.cuts(addon, &vec![]));
    assert!(!g.cuts(head, &vec![]));
}

#[test]
fn an_engine_moves_through_its_life() {
    let (mut g, _mint, head, _tail) = pair();
    assert!(!g.transition(head, Lifecycle::Suspended));
    assert!(!g.transition(head, Lifecycle::Terminated));
    assert!(g.transition(head, Lifecycle::Running));
    assert_eq!(g.state(head), Lifecycle::Running);
    assert!(!g.transition(head, Lifecycle::Running));
    assert!(!g.transition(head, Lifecycle::Terminated));
    assert!(g.transition(head, Lifecycle::Suspended));
    assert!(g.transition(head, Lifecycle::Running));
    assert!(g.transition(head, Lifecycle::Suspended));
    assert!(g.transition(head, Lifecycle::Terminated));
    assert_eq!(g.state(head), Lifecycle::Terminated);
    assert!(!g.transition(head, Lifecycle::Running));
    assert!(!g.transition(head, Lifecycle::New));
    assert_eq!(g.position(&"Mrpc".to_string()), None);
}

#[test]
fn resolving_finds_the_engines_by_name() {
    let (g, _mint, head, tail) = pair();
    let list = vec![entry("Mrpc", "RdmaTransport", 0, 0), entry("RdmaTransport", "Mrpc", 0, 0)];
    assert_eq!(
        g.resolve(&list, Direction::Egress),
        Ok(vec![
            Rewire { from: head, to: tail, idx_from: 0, idx_to: 0 },
            Rewire { from: tail, to: head, idx_from: 0, idx_to: 0 },
        ])
    );
    let list = vec![entry("Mrpc", "RdmaTransport", 0, 0), entry("Mrpc", "Mrpc", 1, 0)];
    assert_eq!(g.resolve(&list, Direction::Ingress), Err(GraphError::BadIndex(Direction::Ingress, 1)));
    let list = vec![entry("X", "RdmaTransport", 9, 9)];
    assert_eq!(
        g.resolve(&list, Direction::Egress),
        Err(GraphError::UnknownEngine(Direction::Egress, 0))
    );
}
