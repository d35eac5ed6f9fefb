use koala::bench::{Action, Args, Bench};
use koala::cmd::{Pending, TransportType};
use koala::customer::Customer;
use koala::engine::{current_version, upgrade_all, MrpcEngine};
use koala::error::ResourceError;
use koala::ids::IdMint;
use koala::interface::{Handle, RemoteKey, SchedulingMode};
use koala::mr::{Error, MemoryRegion, MrTable};
use koala::node::Node;
use koala::queue::{EdgeArena, EdgeId};
use koala::upgrade::{decode, encode, Counters, Version, BLOB_LEN};

#[test]
fn ids_are_minted_once_and_in_order() {
    let mut mint = IdMint::new();
    assert_eq!(mint.count(), 0);
    let mut seen = Vec::new();
    for expected in 0..1000u64 {
        let id = mint.mint().unwrap();
        assert_eq!(id, expected);
        assert!(!seen.contains(&id));
        seen.push(id);
    }
    assert_eq!(mint.count(), 1000);
}

fn region(handle: u64) -> MemoryRegion {
    MemoryRegion::new(
        Handle(handle),
        RemoteKey { rkey: handle as u32 + 100, addr: 0x1000 * handle },
        4096,
        handle as i32 + 3,
    )
}

#[test]
fn a_region_record_keeps_what_it_was_given() {
    let mr = region(5);
    assert_eq!(mr.as_handle(), Handle(5));
    assert_eq!(mr.rkey(), RemoteKey { rkey: 105, addr: 0x5000 });
    assert_eq!(mr.len(), 4096);
    assert_eq!(mr.memfd(), 8);
    assert_eq!(Error::Memfd("create".to_string()).message(), "Memfd: create.");
    assert_eq!(Error::Io("No such device".to_string()).message(), "IO: No such device.");
}

#[test]
fn a_region_leaves_with_its_last_subscription() {
    let mut t = MrTable::new();
    assert_eq!(t.insert(region(1), 10), Ok(()));
    assert_eq!(t.insert(region(2), 10), Ok(()));
    assert_eq!(t.insert(region(3), 11), Ok(()));
    assert_eq!(t.insert(region(1), 12), Err(ResourceError::Exists));
    assert_eq!(t.share(Handle(2), 11), Ok(()));
    assert_eq!(t.share(Handle(2), 11), Ok(()));
    assert_eq!(t.share(Handle(9), 11), Err(ResourceError::NotFound));
    assert!(t.contains(Handle(1)) && t.contains(Handle(2)) && t.contains(Handle(3)));
    assert!(t.refers(Handle(2), 10) && t.refers(Handle(2), 11));
    assert!(!t.refers(Handle(1), 11));
    assert!(!t.refers(Handle(9), 10));

    // subscription 10 ends: region 1 was its alone, region 2 is shared
    let gone = t.release(10);
    assert_eq!(gone, vec![region(1)]);
    assert!(!t.contains(Handle(1)));
    assert!(t.contains(Handle(2)));
    assert!(!t.refers(Handle(2), 10));
    assert!(t.refers(Handle(2), 11));
    assert!(t.contains(Handle(3)));

    // a subscription that refers to nothing
    assert_eq!(t.release(10), vec![]);
    assert_eq!(t.release(99), vec![]);

    // subscription 11 was the last on both
    let mut gone = t.release(11);
    gone.sort_by_key(|mr| mr.as_handle().0);
    assert_eq!(gone, vec![region(2), region(3)]);
    assert!(!t.contains(Handle(2)) && !t.contains(Handle(3)));
    assert_eq!(t.release(11), vec![]);
}

fn counters() -> Counters {
    Counters {
        backoff: 4096,
        dp_spin_cnt: 77,
        last_cmd_ts: 0x0102_0304_0506_0708,
        mode: SchedulingMode::Compact,
        transport_type: Some(TransportType::Socket),
        pending: Some(Pending::Bind),
    }
}

#[test]
fn a_blob_has_a_fixed_layout() {
    let v = Version { major: 1, minor: 2, patch: 0x0a0b0c0d };
    let blob = encode(v, &counters());
    assert_eq!(blob.len(), BLOB_LEN);
    assert_eq!(
        blob,
        vec![
            1, 0, 0, 0, 2, 0, 0, 0, 0x0d, 0x0c, 0x0b, 0x0a, // version
            0, 0x10, 0, 0, 0, 0, 0, 0, // backoff
            77, 0, 0, 0, 0, 0, 0, 0, // spin count
            8, 7, 6, 5, 4, 3, 2, 1, // time stamp
            1, 2, 3, // mode, transport, waiting command
        ]
    );
    assert_eq!(decode(&blob), Some((v, counters())));
}

#[test]
fn a_damaged_blob_is_not_read() {
    let v = Version { major: 0, minor: 1, patch: 0 };
    let good = encode(v, &counters());
    assert_eq!(decode(&good[..38].to_vec()), None);
    let mut long = good.clone();
    long.push(0);
    assert_eq!(decode(&long), None);
    assert_eq!(decode(&vec![]), None);
    for (at, byte) in [(36usize, 3u8), (37, 3), (38, 5), (36, 255)] {
        let mut bad = good.clone();
        bad[at] = byte;
        assert_eq!(decode(&bad), None);
    }
    // a spin budget of none, one past the limit, and a spin count that has reached the budget
    let mut c = counters();
    c.backoff = 0;
    c.dp_spin_cnt = 0;
    assert_eq!(decode(&encode(v, &c)), None);
    c.backoff = (1 << 17) + 1;
    assert_eq!(decode(&encode(v, &c)), None);
    c.backoff = 1 << 17;
    assert_eq!(decode(&encode(v, &c)), Some((v, c)));
    c.backoff = 8;
    c.dp_spin_cnt = 8;
    assert_eq!(decode(&encode(v, &c)), None);
    c.dp_spin_cnt = 7;
    assert_eq!(decode(&encode(v, &c)), Some((v, c)));
    for mode in [SchedulingMode::Dedicated, SchedulingMode::Compact, SchedulingMode::Spread] {
        for transport_type in [None, Some(TransportType::Rdma), Some(TransportType::Socket)] {
            for pending in [
                None,
                Some(Pending::AllocShm),
                Some(Pending::Connect),
                Some(Pending::Bind),
                Some(Pending::NewMappedAddrs),
            ] {
                let c = Counters { mode, transport_type, pending, ..counters() };
                assert_eq!(decode(&encode(v, &c)), Some((v, c)));
            }
        }
    }
}

fn engine(edges: &mut EdgeArena) -> (MrpcEngine, EdgeId, EdgeId) {
    let tx = edges.add_edge();
    let rx = edges.add_edge();
    let e = MrpcEngine::new(
        Customer::new(8, 8),
        Node::with_edges(tx, rx),
        SchedulingMode::Spread,
        17,
    );
    (e, tx, rx)
}

#[test]
fn an_upgraded_engine_reports_the_new_version_and_keeps_its_state() {
    let mut edges = EdgeArena::new();
    let (mut e, tx, rx) = engine(&mut edges);
    assert_eq!(e.version(), current_version());
    assert_eq!(current_version(), Version { major: 0, minor: 1, patch: 0 });
    e.create_transport(TransportType::Rdma);
    for _ in 0..5 {
        e.resume(&mut edges, 17).unwrap();
    }
    e.customer_mut().post_cmd(koala::cmd::Command::AllocShm(64));
    while e.pending().is_none() {
        e.resume(&mut edges, 20).unwrap();
    }
    let before = (e.backoff(), e.dp_spin_cnt(), e.last_cmd_ts(), e.pending(), e.transport_type());
    let next = Version { major: 0, minor: 2, patch: 5 };
    assert!(e.check_compatible(next));
    let e = match e.upgrade(next) {
        Ok(e) => e,
        Err(_) => panic!("refused"),
    };
    assert_eq!(e.version(), next);
    assert_eq!(
        (e.backoff(), e.dp_spin_cnt(), e.last_cmd_ts(), e.pending(), e.transport_type()),
        before
    );
    assert_eq!(e.mode(), SchedulingMode::Spread);
    assert_eq!(e.tx_outputs(), &vec![tx]);
    assert_eq!(e.rx_inputs(), &vec![rx]);
    // the command that was handed on is still there for the transport engine
    let mut e = e;
    assert!(matches!(e.take_forwarded(), Some(koala::cmd::Command::AllocShm(64))));

    // another major version is refused, and the engine stays as it is
    let far = Version { major: 1, minor: 0, patch: 0 };
    assert!(!e.check_compatible(far));
    let e = match e.upgrade(far) {
        Ok(_) => panic!("accepted"),
        Err(e) => e,
    };
    assert_eq!(e.version(), next);
    assert_eq!(e.pending(), Some(Pending::AllocShm));
}

#[test]
fn a_dump_carries_the_counters_as_a_blob() {
    let mut edges = EdgeArena::new();
    let (e, _tx, _rx) = engine(&mut edges);
    let d = e.dump();
    let expected = encode(
        current_version(),
        &Counters {
            backoff: 1,
            dp_spin_cnt: 0,
            last_cmd_ts: 17,
            mode: SchedulingMode::Spread,
            transport_type: None,
            pending: None,
        },
    );
    assert_eq!(d.bytes(), &expected);
    let d = match MrpcEngine::restore(Version { major: 9, minor: 0, patch: 0 }, d) {
        Ok(_) => panic!("accepted"),
        Err(d) => d,
    };
    let e = match MrpcEngine::restore(Version { major: 0, minor: 9, patch: 0 }, d) {
        Ok(e) => e,
        Err(_) => panic!("refused"),
    };
    assert_eq!(e.version(), Version { major: 0, minor: 9, patch: 0 });
    assert_eq!(e.last_cmd_ts(), 17);
    assert_eq!(e.backoff(), 1);
}

#[test]
fn engines_are_upgraded_together_or_not_at_all() {
    let mut edges = EdgeArena::new();
    let mut engines = Vec::new();
    for i in 0..4u64 {
        let (mut e, _, _) = engine(&mut edges);
        for _ in 0..i {
            e.resume(&mut edges, 17).unwrap();
        }
        engines.push(e);
    }
    let budgets: Vec<usize> = engines.iter().map(|e| e.backoff()).collect();
    let engines = match upgrade_all(engines, Version { major: 3, minor: 0, patch: 0 }) {
        Ok(_) => panic!("accepted"),
        Err(back) => back,
    };
    assert_eq!(engines.len(), 4);
    assert!(engines.iter().all(|e| e.version() == current_version()));
    let next = Version { major: 0, minor: 7, patch: 1 };
    let engines = match upgrade_all(engines, next) {
        Ok(upgraded) => upgraded,
        Err(_) => panic!("refused"),
    };
    assert_eq!(engines.len(), 4);
    assert!(engines.iter().all(|e| e.version() == next));
    assert_eq!(engines.iter().map(|e| e.backoff()).collect::<Vec<_>>(), budgets);
    assert!(matches!(upgrade_all(Vec::new(), next), Ok(v) if v.is_empty()));
}

fn args(total_iters: usize, concurrency: usize, provision_count: usize) -> Args {
    Args {
        ip: "192.168.211.66".to_string(),
        port: 5000,
        blocking: false,
        log_level: "error".to_string(),
        log_dir: None,
        req_size: 1_000_000,
        concurrency,
        total_iters,
        provision_count,
    }
}

#[test]
fn a_run_keeps_the_asked_number_of_requests_outstanding() {
    let mut b = Bench::from_args(&args(10, 3, 4)).unwrap();
    let mut clock = 100;
    let mut sent = Vec::new();
    let mut most = 0;
    loop {
        clock += 10;
        match b.next() {
            Action::Send(i) => {
                sent.push(i);
                b.sent(clock);
            }
            Action::Await => {
                assert!(b.issued() > b.completed());
                b.received(clock);
            }
            Action::Done => break,
        }
        most = most.max(b.issued() - b.completed());
    }
    assert_eq!(sent, vec![0, 1, 2, 3, 0, 1, 2, 3, 0, 1]);
    assert_eq!(most, 3);
    assert_eq!(b.issued(), 10);
    assert_eq!(b.completed(), 10);
    let stats = b.finish();
    assert_eq!(stats.len(), 10);
    // sends at 110, 120, 130; then replies and sends alternate
    assert_eq!(stats[0], (110, 30));
    assert_eq!(stats[1], (120, 40));
    assert_eq!(stats[2], (130, 50));
    assert_eq!(stats[3].0, 150);
}

#[test]
fn a_run_without_concurrency_sends_one_at_a_time() {
    for concurrency in [0, 1] {
        let mut b = Bench::new(3, concurrency, 1);
        let mut trace = Vec::new();
        loop {
            let a = b.next();
            trace.push(a);
            match a {
                Action::Send(_) => b.sent(5),
                Action::Await => {
                    assert_eq!(b.received(3), 0);
                }
                Action::Done => break,
            }
        }
        assert_eq!(
            trace,
            vec![
                Action::Send(0),
                Action::Await,
                Action::Send(0),
                Action::Await,
                Action::Send(0),
                Action::Await,
                Action::Done
            ]
        );
    }
    assert!(Bench::from_args(&args(10, 3, 0)).is_none());
    assert_eq!(Bench::new(0, 32, 128).next(), Action::Done);
}
