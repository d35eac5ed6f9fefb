use koala::cmd::{Command, Completion, CompletionKind, Pending, TransportType};
use koala::customer::Customer;
use koala::backoff::DP_LIMIT;
use koala::dp;
use koala::dp::WorkRequest;
use koala::engine::{func_known, MrpcEngine};
use koala::error::{DatapathError, EngineError, Error, IpcError, ResourceError, TryRecvError};
use koala::interface::{
    EngineStatus, Handle, InterfaceError, MessageMeta, MessageTemplateErased, RemoteKey,
    ReturnedMr, RpcMsgType, SchedulingMode, SockAddr,
};
use koala::model::{Status, BUF_LEN, CMD_MAX_INTERVAL_MS};
use koala::node::Node;
use koala::queue::{EdgeArena, EdgeId};

fn msg(call_id: u64, shmptr: u64, msg_type: RpcMsgType) -> MessageTemplateErased {
    MessageTemplateErased {
        meta: MessageMeta { conn_id: Handle(7), func_id: 0, call_id, len: 1000, msg_type },
        shmptr,
    }
}

fn call(call_id: u64) -> WorkRequest {
    WorkRequest::Call(msg(call_id, 0x5000 + call_id, RpcMsgType::Request))
}

fn mr(handle: u64) -> ReturnedMr {
    ReturnedMr {
        handle: Handle(handle),
        rkey: RemoteKey { rkey: 11, addr: 0x5000 },
        vaddr: 0x5000,
        len: 0x1000,
    }
}

/// An engine with one output (edge 0) and one input (edge 1).
fn setup(wq_depth: usize, cq_depth: usize) -> (MrpcEngine, EdgeArena, EdgeId, EdgeId) {
    let mut edges = EdgeArena::new();
    let tx = edges.add_edge();
    let rx = edges.add_edge();
    let engine = MrpcEngine::new(
        Customer::new(wq_depth, cq_depth),
        Node::with_edges(tx, rx),
        SchedulingMode::Dedicated,
        0,
    );
    (engine, edges, tx, rx)
}

/// Registers one region through the command path.
fn map_region(engine: &mut MrpcEngine, edges: &mut EdgeArena, local: u64, app: u64, len: u64) {
    engine.customer_mut().post_cmd(Command::NewMappedAddrs(vec![(Handle(1), app)]));
    step_until_forwarded(engine, edges);
    let reply = Completion(Ok(CompletionKind::NewMappedAddrsInternal(vec![(local, app, len)])));
    assert!(engine.accepts(&reply));
    engine.deliver_internal(reply);
    step_until_answered(engine, edges);
    match engine.customer_mut().take_comp() {
        Some(Completion(Ok(CompletionKind::NewMappedAddrs))) => {}
        other => panic!("unexpected: {:?}", other),
    }
}

fn step_until_forwarded(engine: &mut MrpcEngine, edges: &mut EdgeArena) {
    for _ in 0..=DP_LIMIT {
        if engine.pending().is_some() {
            return;
        }
        assert_eq!(engine.resume(edges, 0), Ok(EngineStatus::Continue));
    }
    assert!(engine.pending().is_some());
}

fn step_until_answered(engine: &mut MrpcEngine, edges: &mut EdgeArena) {
    for _ in 0..=DP_LIMIT {
        if engine.pending().is_none() {
            return;
        }
        assert_eq!(engine.resume(edges, 0), Ok(EngineStatus::Continue));
    }
    assert!(engine.pending().is_none());
}

#[test]
fn a_new_engine_starts_with_the_smallest_budget() {
    let (engine, _edges, tx, rx) = setup(8, 8);
    assert_eq!(engine.backoff(), 1);
    assert_eq!(engine.dp_spin_cnt(), 0);
    assert_eq!(engine.transport_type(), None);
    assert_eq!(engine.pending(), None);
    assert_eq!(engine.last_cmd_ts(), 0);
    assert_eq!(engine.mode(), SchedulingMode::Dedicated);
    assert_eq!(engine.tx_outputs(), &vec![tx]);
    assert_eq!(engine.rx_inputs(), &vec![rx]);
    assert_eq!(engine.addr_map().len(), 0);
    assert_eq!(engine.description(), "MrpcEngine");
    assert!(func_known(0));
    assert!(!func_known(1));
    assert_eq!(BUF_LEN, 32);
    assert_eq!(CMD_MAX_INTERVAL_MS, 1000);
}

#[test]
fn calls_are_published_in_order_on_the_first_output() {
    let (mut engine, mut edges, tx, _rx) = setup(64, 64);
    for i in 0..5 {
        assert!(engine.customer_mut().post_wr(call(i)));
    }
    assert_eq!(engine.check_customer(&mut edges), Ok(Status::Progress(5)));
    assert_eq!(edges.pending(tx), 5);
    for i in 0..5 {
        assert_eq!(edges.try_recv(tx), Ok(msg(i, 0x5000 + i, RpcMsgType::Request)));
    }
    assert_eq!(engine.check_customer(&mut edges), Ok(Status::Progress(0)));
    // a reply is published like a call
    let reply = msg(77, 0x6000, RpcMsgType::Response);
    assert!(engine.customer_mut().post_wr(WorkRequest::Reply(reply)));
    assert_eq!(engine.check_customer(&mut edges), Ok(Status::Progress(1)));
    assert_eq!(edges.try_recv(tx), Ok(reply));
}

#[test]
fn a_batch_is_bounded_by_the_buffer_and_by_free_completion_slots() {
    let (mut engine, mut edges, tx, _rx) = setup(64, 64);
    for i in 0..40 {
        assert!(engine.customer_mut().post_wr(call(i)));
    }
    assert_eq!(engine.check_customer(&mut edges), Ok(Status::Progress(32)));
    assert_eq!(edges.pending(tx), 32);
    assert_eq!(engine.check_customer(&mut edges), Ok(Status::Progress(8)));
    assert_eq!(edges.pending(tx), 40);
    for i in 0..40 {
        assert_eq!(edges.try_recv(tx).unwrap().meta.call_id, i);
    }

    let (mut engine, mut edges, tx, _rx) = setup(64, 3);
    for i in 0..10 {
        assert!(engine.customer_mut().post_wr(call(i)));
    }
    assert_eq!(engine.check_customer(&mut edges), Ok(Status::Progress(3)));
    assert_eq!(edges.pending(tx), 3);

    let (mut engine, mut edges, tx, _rx) = setup(64, 0);
    assert!(engine.customer_mut().post_wr(call(1)));
    assert_eq!(engine.check_customer(&mut edges), Ok(Status::Progress(0)));
    assert_eq!(edges.pending(tx), 0);
}

#[test]
fn the_work_queue_holds_no_more_than_its_slots() {
    let (mut engine, _edges, _tx, _rx) = setup(2, 2);
    assert!(engine.customer_mut().post_wr(call(1)));
    assert!(engine.customer_mut().post_wr(call(2)));
    assert!(!engine.customer_mut().post_wr(call(3)));
}

#[test]
fn a_closed_output_fails_the_datapath() {
    let (mut engine, mut edges, tx, _rx) = setup(8, 8);
    edges.close(tx);
    assert_eq!(engine.check_customer(&mut edges), Ok(Status::Progress(0)));
    assert!(engine.customer_mut().post_wr(call(1)));
    assert!(engine.customer_mut().post_wr(call(2)));
    assert_eq!(
        engine.resume(&mut edges, 0),
        Err(EngineError::Datapath(DatapathError::InternalQueueSend))
    );
    assert_eq!(edges.pending(tx), 0);
    assert_eq!(engine.process_dp(&mut edges, &call(3)), Err(DatapathError::InternalQueueSend));
}

#[test]
fn a_message_from_the_input_is_reported_at_the_applications_address() {
    let (mut engine, mut edges, _tx, rx) = setup(8, 8);
    map_region(&mut engine, &mut edges, 0x7f00_0000_0000, 0x5500_0000_0000, 0x10000);
    assert_eq!(engine.addr_map().len(), 1);
    let m = msg(42, 0x7f00_0000_0400, RpcMsgType::Response);
    assert_eq!(edges.send(rx, m), Ok(()));
    assert_eq!(engine.check_input_queue(&mut edges), Ok(Status::Progress(0)));
    assert_eq!(edges.pending(rx), 0);
    let wc = engine.customer_mut().take_wc().unwrap();
    assert_eq!(wc.erased.meta, m.meta);
    assert_eq!(wc.erased.meta.call_id, 42);
    assert_eq!(wc.erased.meta.msg_type, RpcMsgType::Response);
    assert_eq!(wc.erased.shmptr, 0x5500_0000_0400);
    assert_eq!(engine.customer_mut().take_wc(), None);
    assert_eq!(
        dp::Completion { erased: MessageTemplateErased { meta: m.meta, shmptr: 0x5500_0000_0400 } },
        wc
    );
}

#[test]
fn messages_are_reported_in_the_order_of_the_input() {
    let (mut engine, mut edges, _tx, rx) = setup(8, 64);
    map_region(&mut engine, &mut edges, 0x10000, 0x90000, 0x1000);
    for i in 0..20 {
        assert_eq!(edges.send(rx, msg(i, 0x10000 + 8 * i, RpcMsgType::Response)), Ok(()));
    }
    for _ in 0..20 {
        assert_eq!(engine.resume(&mut edges, 0), Ok(EngineStatus::Continue));
    }
    for i in 0..20 {
        let wc = engine.customer_mut().take_wc().unwrap();
        assert_eq!(wc.erased.meta.call_id, i);
        assert_eq!(wc.erased.shmptr, 0x90000 + 8 * i);
    }
    assert_eq!(engine.customer_mut().take_wc(), None);
}

#[test]
fn an_empty_or_closed_input_reports_no_message() {
    let (mut engine, mut edges, _tx, rx) = setup(8, 8);
    assert_eq!(engine.check_input_queue(&mut edges), Ok(Status::Progress(0)));
    edges.close(rx);
    assert_eq!(engine.check_input_queue(&mut edges), Ok(Status::Disconnected));
    // the step itself goes on
    assert_eq!(engine.resume(&mut edges, 0), Ok(EngineStatus::Continue));
}

#[test]
fn a_message_outside_every_region_is_an_error() {
    let (mut engine, mut edges, _tx, rx) = setup(8, 8);
    map_region(&mut engine, &mut edges, 0x10000, 0x90000, 0x1000);
    assert_eq!(edges.send(rx, msg(1, 0x11000, RpcMsgType::Response)), Ok(()));
    assert_eq!(
        engine.check_input_queue(&mut edges),
        Err(DatapathError::Resource(ResourceError::NotFound))
    );
    assert_eq!(engine.customer_mut().take_wc(), None);
    assert_eq!(edges.send(rx, msg(2, 0xffff, RpcMsgType::Response)), Ok(()));
    assert_eq!(
        engine.resume(&mut edges, 0),
        Err(EngineError::Datapath(DatapathError::Resource(ResourceError::NotFound)))
    );
}

#[test]
fn a_full_completion_queue_keeps_the_message_on_the_edge() {
    let (mut engine, mut edges, _tx, rx) = setup(8, 2);
    map_region(&mut engine, &mut edges, 0x10000, 0x90000, 0x1000);
    for i in 0..3 {
        assert_eq!(edges.send(rx, msg(i, 0x10000 + i, RpcMsgType::Response)), Ok(()));
    }
    assert_eq!(engine.check_input_queue(&mut edges), Ok(Status::Progress(0)));
    assert_eq!(engine.check_input_queue(&mut edges), Ok(Status::Progress(0)));
    assert_eq!(edges.pending(rx), 1);
    // no slot is free: nothing is taken, nothing is dropped
    for _ in 0..5 {
        assert_eq!(engine.check_input_queue(&mut edges), Ok(Status::Progress(0)));
        assert_eq!(edges.pending(rx), 1);
    }
    assert_eq!(engine.customer_mut().take_wc().unwrap().erased.meta.call_id, 0);
    assert_eq!(engine.check_input_queue(&mut edges), Ok(Status::Progress(0)));
    assert_eq!(edges.pending(rx), 0);
    assert_eq!(engine.customer_mut().take_wc().unwrap().erased.meta.call_id, 1);
    assert_eq!(engine.customer_mut().take_wc().unwrap().erased.meta.call_id, 2);
    assert_eq!(engine.customer_mut().take_wc(), None);
}

#[test]
fn the_transport_is_set_once() {
    let (mut engine, mut edges, _tx, _rx) = setup(8, 8);
    engine.customer_mut().post_cmd(Command::SetTransport(TransportType::Rdma));
    engine.customer_mut().post_cmd(Command::SetTransport(TransportType::Socket));
    assert_eq!(engine.check_cmd(), Ok(Status::Progress(1)));
    assert_eq!(engine.transport_type(), Some(TransportType::Rdma));
    match engine.customer_mut().take_comp() {
        Some(Completion(Ok(CompletionKind::SetTransport))) => {}
        other => panic!("unexpected: {:?}", other),
    }
    assert_eq!(engine.check_cmd(), Ok(Status::Progress(1)));
    assert_eq!(engine.transport_type(), Some(TransportType::Rdma));
    match engine.customer_mut().take_comp() {
        Some(Completion(Err(InterfaceError::Generic(m)))) => {
            assert_eq!(m, "Failed to set transport type")
        }
        other => panic!("unexpected: {:?}", other),
    }
    assert_eq!(engine.check_cmd(), Ok(Status::Progress(0)));
    assert!(engine.customer_mut().take_comp().is_none());
    let _ = edges.len();
}

#[test]
fn process_cmd_sets_the_transport_or_forwards() {
    let (mut engine, _edges, _tx, _rx) = setup(8, 8);
    assert!(matches!(
        engine.process_cmd(Command::SetTransport(TransportType::Socket)),
        Ok(CompletionKind::SetTransport)
    ));
    assert!(matches!(
        engine.process_cmd(Command::SetTransport(TransportType::Socket)),
        Err(Error::TransportType)
    ));
    assert!(matches!(engine.process_cmd(Command::Bind(SockAddr::V4(0, 5000))), Err(Error::NoResponse)));
    assert_eq!(engine.pending(), Some(Pending::Bind));
    match engine.take_forwarded() {
        Some(Command::Bind(SockAddr::V4(0, 5000))) => {}
        other => panic!("unexpected: {:?}", other),
    }
    assert!(engine.take_forwarded().is_none());
}

#[test]
fn a_shared_region_is_allocated_in_two_steps() {
    let (mut engine, mut edges, _tx, _rx) = setup(8, 8);
    engine.customer_mut().post_cmd(Command::AllocShm(4096));
    engine.customer_mut().post_cmd(Command::SetTransport(TransportType::Rdma));
    assert_eq!(engine.resume(&mut edges, 5), Ok(EngineStatus::Continue));
    assert_eq!(engine.pending(), Some(Pending::AllocShm));
    assert_eq!(engine.last_cmd_ts(), 5);
    assert!(engine.customer_mut().take_comp().is_none());
    match engine.take_forwarded() {
        Some(Command::AllocShm(4096)) => {}
        other => panic!("unexpected: {:?}", other),
    }
    // while the answer is awaited, no other command is received
    for _ in 0..4 {
        assert_eq!(engine.resume(&mut edges, 5), Ok(EngineStatus::Continue));
    }
    assert_eq!(engine.transport_type(), None);
    assert!(engine.customer_mut().take_comp().is_none());

    let wrong = Completion(Ok(CompletionKind::Bind(Handle(1))));
    assert!(!engine.accepts(&wrong));
    let failed = Completion(Err(InterfaceError::Generic("no memory".to_string())));
    assert!(!engine.accepts(&failed));
    let answer = Completion(Ok(CompletionKind::AllocShmInternal(mr(3), 9)));
    assert!(engine.accepts(&answer));
    engine.deliver_internal(answer);
    let second = Completion(Ok(CompletionKind::AllocShmInternal(mr(4), 10)));
    assert!(!engine.accepts(&second));

    step_until_answered(&mut engine, &mut edges);
    assert_eq!(engine.customer_mut().take_fds(), Some(vec![9]));
    assert_eq!(engine.customer_mut().take_fds(), None);
    match engine.customer_mut().take_comp() {
        Some(Completion(Ok(CompletionKind::AllocShm(m)))) => assert_eq!(m, mr(3)),
        other => panic!("unexpected: {:?}", other),
    }
    // now the next command is received
    for _ in 0..8 {
        assert_eq!(engine.resume(&mut edges, 5), Ok(EngineStatus::Continue));
    }
    assert_eq!(engine.transport_type(), Some(TransportType::Rdma));
}

#[test]
fn connect_and_bind_are_answered_by_the_transport_engine() {
    let (mut engine, mut edges, _tx, _rx) = setup(8, 8);
    engine.customer_mut().post_cmd(Command::Connect(SockAddr::V4(0xc0a8_d342, 5000)));
    step_until_forwarded(&mut engine, &mut edges);
    assert_eq!(engine.pending(), Some(Pending::Connect));
    match engine.take_forwarded() {
        Some(Command::Connect(SockAddr::V4(0xc0a8_d342, 5000))) => {}
        other => panic!("unexpected: {:?}", other),
    }
    let answer =
        Completion(Ok(CompletionKind::ConnectInternal(Handle(21), vec![mr(1), mr(2)], vec![4, 5])));
    assert!(engine.accepts(&answer));
    engine.deliver_internal(answer);
    step_until_answered(&mut engine, &mut edges);
    assert_eq!(engine.customer_mut().take_fds(), Some(vec![4, 5]));
    match engine.customer_mut().take_comp() {
        Some(Completion(Ok(CompletionKind::Connect(h, mrs)))) => {
            assert_eq!(h, Handle(21));
            assert_eq!(mrs, vec![mr(1), mr(2)]);
        }
        other => panic!("unexpected: {:?}", other),
    }

    engine.customer_mut().post_cmd(Command::Bind(SockAddr::V6(1, 6000)));
    step_until_forwarded(&mut engine, &mut edges);
    assert_eq!(engine.pending(), Some(Pending::Bind));
    let answer = Completion(Ok(CompletionKind::Bind(Handle(99))));
    assert!(engine.accepts(&answer));
    engine.deliver_internal(answer);
    step_until_answered(&mut engine, &mut edges);
    assert_eq!(engine.customer_mut().take_fds(), None);
    match engine.customer_mut().take_comp() {
        Some(Completion(Ok(CompletionKind::Bind(h)))) => assert_eq!(h, Handle(99)),
        other => panic!("unexpected: {:?}", other),
    }
}

#[test]
fn an_accepted_connection_is_announced() {
    let (mut engine, mut edges, _tx, _rx) = setup(8, 8);
    let note = Completion(Ok(CompletionKind::NewConnectionInternal(Handle(5), vec![mr(8)], vec![3])));
    assert!(engine.accepts(&note));
    engine.deliver_internal(note);
    assert_eq!(engine.check_new_incoming_connection(), Ok(Status::Progress(1)));
    assert_eq!(engine.customer_mut().take_fds(), Some(vec![3]));
    match engine.customer_mut().take_comp() {
        Some(Completion(Ok(CompletionKind::NewConnection(h, mrs)))) => {
            assert_eq!(h, Handle(5));
            assert_eq!(mrs, vec![mr(8)]);
        }
        other => panic!("unexpected: {:?}", other),
    }
    assert_eq!(engine.check_new_incoming_connection(), Ok(Status::Progress(0)));
    engine.close_internal();
    assert_eq!(engine.check_new_incoming_connection(), Ok(Status::Disconnected));
    assert_eq!(engine.resume(&mut edges, 0), Ok(EngineStatus::Continue));
}

#[test]
fn complete_passes_an_answer_on() {
    let (mut engine, _edges, _tx, _rx) = setup(8, 8);
    assert!(matches!(engine.process_cmd(Command::AllocShm(64)), Err(Error::NoResponse)));
    assert_eq!(
        engine.complete(Completion(Ok(CompletionKind::AllocShmInternal(mr(1), 12)))),
        Ok(Status::Progress(1))
    );
    assert_eq!(engine.pending(), None);
    assert_eq!(engine.customer_mut().take_fds(), Some(vec![12]));
    assert!(matches!(
        engine.customer_mut().take_comp(),
        Some(Completion(Ok(CompletionKind::AllocShm(_))))
    ));
}

#[test]
fn mapped_regions_are_registered_up_to_the_first_refused() {
    let (mut engine, mut edges, _tx, _rx) = setup(8, 8);
    engine.customer_mut().post_cmd(Command::NewMappedAddrs(vec![(Handle(1), 0x90000)]));
    step_until_forwarded(&mut engine, &mut edges);
    match engine.take_forwarded() {
        Some(Command::NewMappedAddrs(v)) => assert_eq!(v, vec![(Handle(1), 0x90000)]),
        other => panic!("unexpected: {:?}", other),
    }
    let answer = Completion(Ok(CompletionKind::NewMappedAddrsInternal(vec![
        (0x10000, 0x90000, 0x1000),
        (0x20000, 0xa0000, 0x1000),
        (0x10800, 0xb0000, 0x1000),
        (0x30000, 0xc0000, 0x1000),
    ])));
    assert!(engine.accepts(&answer));
    engine.deliver_internal(answer);
    step_until_answered(&mut engine, &mut edges);
    match engine.customer_mut().take_comp() {
        Some(Completion(Err(InterfaceError::Generic(m)))) => {
            assert_eq!(m, "Resource error: Resource exists in table")
        }
        other => panic!("unexpected: {:?}", other),
    }
    assert_eq!(engine.addr_map().len(), 2);
}

#[test]
fn a_failed_receive_is_reported_once() {
    let (mut engine, mut edges, _tx, _rx) = setup(8, 8);
    engine.customer_mut().fail_next_recv();
    assert!(engine.customer().has_control_command());
    assert_eq!(engine.resume(&mut edges, 0), Err(EngineError::Control(Error::IpcTryRecv)));
    assert!(!engine.customer().has_control_command());
    assert_eq!(engine.resume(&mut edges, 0), Ok(EngineStatus::Continue));
    engine.customer_mut().fail_next_recv();
    assert_eq!(engine.customer_mut().try_recv_cmd().unwrap_err(), TryRecvError::Other);
    assert_eq!(engine.customer_mut().try_recv_cmd().unwrap_err(), TryRecvError::Empty);
}

#[test]
fn a_client_that_is_gone_completes_the_engine() {
    let (mut engine, mut edges, tx, _rx) = setup(64, 64);
    for i in 0..10 {
        assert!(engine.customer_mut().post_wr(call(i)));
    }
    assert_eq!(engine.resume(&mut edges, 0), Ok(EngineStatus::Continue));
    engine.customer_mut().disconnect();
    let mut steps = 0;
    let status = loop {
        steps += 1;
        match engine.resume(&mut edges, 1) {
            Ok(EngineStatus::Continue) => assert!(steps <= DP_LIMIT),
            other => break other,
        }
    };
    assert_eq!(status, Ok(EngineStatus::Complete));
    // within one spin budget
    assert!(steps <= DP_LIMIT);
    assert_eq!(edges.pending(tx), 10);
}

#[test]
fn a_client_that_goes_while_a_command_waits_completes_the_engine() {
    let (mut engine, mut edges, _tx, _rx) = setup(8, 8);
    engine.customer_mut().post_cmd(Command::AllocShm(64));
    step_until_forwarded(&mut engine, &mut edges);
    assert_eq!(engine.check_cmd(), Ok(Status::Progress(0)));
    engine.customer_mut().disconnect();
    assert_eq!(engine.check_cmd(), Ok(Status::Disconnected));
    let mut steps = 0;
    let status = loop {
        steps += 1;
        match engine.resume(&mut edges, 0) {
            Ok(EngineStatus::Continue) => assert!(steps <= DP_LIMIT),
            other => break other,
        }
    };
    assert_eq!(status, Ok(EngineStatus::Complete));
}

#[test]
fn a_completion_for_a_client_that_is_gone_is_an_error() {
    let (mut engine, _edges, _tx, _rx) = setup(8, 8);
    engine.customer_mut().post_cmd(Command::SetTransport(TransportType::Rdma));
    engine.customer_mut().disconnect();
    assert_eq!(engine.check_cmd(), Err(Error::Customer(IpcError::IpcSend)));
    assert!(engine.customer_mut().take_comp().is_none());
    assert_eq!(engine.check_cmd(), Ok(Status::Disconnected));
}

#[test]
fn the_budget_follows_progress_and_control_work() {
    let (mut engine, mut edges, _tx, _rx) = setup(64, 64);
    // idle, nothing waiting, clock not advanced: every exhausted budget doubles
    assert_eq!(engine.resume(&mut edges, 0), Ok(EngineStatus::Continue));
    assert_eq!((engine.backoff(), engine.dp_spin_cnt()), (2, 0));
    assert_eq!(engine.resume(&mut edges, 0), Ok(EngineStatus::Continue));
    assert_eq!((engine.backoff(), engine.dp_spin_cnt()), (2, 1));
    assert_eq!(engine.resume(&mut edges, 0), Ok(EngineStatus::Continue));
    assert_eq!((engine.backoff(), engine.dp_spin_cnt()), (4, 0));
    // progress doubles at once
    assert!(engine.customer_mut().post_wr(call(1)));
    assert_eq!(engine.resume(&mut edges, 0), Ok(EngineStatus::Continue));
    assert_eq!((engine.backoff(), engine.dp_spin_cnt()), (8, 1));
    // a waiting command is looked at only when the budget is exhausted
    engine.customer_mut().post_cmd(Command::SetTransport(TransportType::Rdma));
    for spin in 2..8 {
        assert_eq!(engine.resume(&mut edges, 3), Ok(EngineStatus::Continue));
        assert_eq!((engine.backoff(), engine.dp_spin_cnt()), (8, spin));
        assert_eq!(engine.transport_type(), None);
    }
    assert_eq!(engine.resume(&mut edges, 3), Ok(EngineStatus::Continue));
    assert_eq!((engine.backoff(), engine.dp_spin_cnt()), (4, 0));
    assert_eq!(engine.transport_type(), Some(TransportType::Rdma));
    assert_eq!(engine.last_cmd_ts(), 3);
    // an idle second forces a look at the control socket
    for _ in 0..3 {
        assert_eq!(engine.resume(&mut edges, 1003), Ok(EngineStatus::Continue));
    }
    assert_eq!(engine.backoff(), 4);
    assert_eq!(engine.last_cmd_ts(), 3);
    assert_eq!(engine.resume(&mut edges, 1004), Ok(EngineStatus::Continue));
    assert_eq!((engine.backoff(), engine.dp_spin_cnt()), (2, 0));
    assert_eq!(engine.last_cmd_ts(), 1004);
}

#[test]
fn back_to_back_calls_raise_the_budget_to_its_limit() {
    let (mut engine, mut edges, tx, _rx) = setup(64, 64);
    // a thousand steps make a millisecond; a call arrives every 300 steps
    let mut highest = 0;
    let mut longest_gap = 0;
    let mut last_seen = engine.last_cmd_ts();
    let mut calls = 0u64;
    let mut step = 0u64;
    while calls < 10_000 {
        if step % 300 == 0 {
            assert!(engine.customer_mut().post_wr(call(calls)));
            calls += 1;
        }
        let now = step / 1000;
        assert_eq!(engine.resume(&mut edges, now), Ok(EngineStatus::Continue));
        while edges.try_recv(tx).is_ok() {}
        assert!(1 <= engine.backoff() && engine.backoff() <= DP_LIMIT);
        assert!(engine.dp_spin_cnt() < engine.backoff());
        highest = highest.max(engine.backoff());
        if engine.last_cmd_ts() != last_seen {
            longest_gap = longest_gap.max(engine.last_cmd_ts() - last_seen);
            last_seen = engine.last_cmd_ts();
        }
        longest_gap = longest_gap.max(now - last_seen);
        step += 1;
    }
    assert_eq!(highest, DP_LIMIT);
    // the control socket is looked at once a second, give or take one budget
    assert!(step / 1000 > 2 * CMD_MAX_INTERVAL_MS);
    assert!(longest_gap <= CMD_MAX_INTERVAL_MS + (DP_LIMIT as u64) / 1000 + 1);
}

#[test]
fn a_command_is_answered_within_one_budget_under_load() {
    let (mut engine, mut edges, tx, _rx) = setup(64, 64);
    let mut step = 0u64;
    // saturate the datapath until the budget is at its limit
    while engine.backoff() < DP_LIMIT {
        assert!(engine.customer_mut().post_wr(call(step)));
        assert_eq!(engine.resume(&mut edges, step / 1000), Ok(EngineStatus::Continue));
        while edges.try_recv(tx).is_ok() {}
        step += 1;
    }
    engine.customer_mut().post_cmd(Command::SetTransport(TransportType::Socket));
    let asked = step;
    while engine.customer().has_control_command() {
        assert!(engine.customer_mut().post_wr(call(step)));
        assert_eq!(engine.resume(&mut edges, step / 1000), Ok(EngineStatus::Continue));
        while edges.try_recv(tx).is_ok() {}
        step += 1;
    }
    assert!(matches!(
        engine.customer_mut().take_comp(),
        Some(Completion(Ok(CompletionKind::SetTransport)))
    ));
    let waited_ms = (step - asked) / 1000;
    assert!(step - asked <= DP_LIMIT as u64);
    assert!(waited_ms <= CMD_MAX_INTERVAL_MS + 10);
}

#[test]
fn an_idle_engine_moves_only_its_counters() {
    let (mut engine, mut edges, tx, rx) = setup(8, 8);
    assert!(engine.is_idle(&edges));
    for now in 0..50 {
        assert_eq!(engine.resume(&mut edges, now), Ok(EngineStatus::Continue));
        assert!(engine.is_idle(&edges));
    }
    assert_eq!(edges.pending(tx), 0);
    assert!(engine.customer_mut().take_comp().is_none());
    assert!(engine.customer_mut().take_wc().is_none());
    assert!(engine.take_forwarded().is_none());

    assert!(engine.customer_mut().post_wr(call(1)));
    assert!(!engine.is_idle(&edges));
    assert_eq!(engine.resume(&mut edges, 50), Ok(EngineStatus::Continue));
    assert!(engine.is_idle(&edges));
    engine.customer_mut().post_cmd(Command::SetTransport(TransportType::Rdma));
    assert!(!engine.is_idle(&edges));
    while engine.transport_type().is_none() {
        assert_eq!(engine.resume(&mut edges, 50), Ok(EngineStatus::Continue));
    }
    assert!(engine.is_idle(&edges));
    assert_eq!(edges.send(rx, msg(9, 0x10, RpcMsgType::Response)), Ok(()));
    assert!(!engine.is_idle(&edges));
    let note = Completion(Ok(CompletionKind::NewConnectionInternal(Handle(5), vec![], vec![])));
    let (mut other, other_edges, _, _) = setup(8, 8);
    other.deliver_internal(note);
    assert!(!other.is_idle(&other_edges));
    other.suspend();
    assert!(!other.is_idle(&other_edges));
}

#[test]
fn edges_can_be_rewired() {
    let (mut engine, mut edges, tx, rx) = setup(8, 8);
    let other = edges.add_edge();
    engine.set_tx_output(0, other);
    assert_eq!(engine.tx_outputs(), &vec![other]);
    assert!(engine.customer_mut().post_wr(call(1)));
    assert_eq!(engine.resume(&mut edges, 0), Ok(EngineStatus::Continue));
    assert_eq!(edges.pending(tx), 0);
    assert_eq!(edges.pending(other), 1);
    engine.set_rx_input(0, tx);
    assert_eq!(engine.rx_inputs(), &vec![tx]);
    let _ = rx;
}

#[test]
fn flushing_and_setting_the_transport_directly() {
    let (mut engine, _edges, _tx, _rx) = setup(8, 8);
    assert_eq!(engine.flush_dp(), Ok(Status::Progress(0)));
    engine.create_transport(TransportType::Socket);
    assert_eq!(engine.transport_type(), Some(TransportType::Socket));
}
