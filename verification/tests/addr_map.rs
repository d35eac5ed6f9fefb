use koala::addr_map::{AddressMap, AddressSpace, ShmBuf, ShmPtr};
use koala::error::ResourceError;

fn local(addr: u64) -> ShmPtr {
    ShmPtr { addr, space: AddressSpace::Local }
}

fn app(addr: u64) -> ShmPtr {
    ShmPtr { addr, space: AddressSpace::App }
}

fn sample() -> AddressMap {
    let mut m = AddressMap::new();
    assert_eq!(m.insert_addr_map(0x5000, ShmBuf { ptr: 0x9000, len: 0x1000 }), Ok(()));
    assert_eq!(m.insert_addr_map(0x1000, ShmBuf { ptr: 0x20000, len: 0x800 }), Ok(()));
    assert_eq!(m.insert_addr_map(0x3000, ShmBuf { ptr: 0x100, len: 0x10 }), Ok(()));
    m
}

#[test]
fn new_map_is_empty() {
    let m = AddressMap::new();
    assert_eq!(m.len(), 0);
    assert_eq!(m.switch_address_space(local(0)), Err(ResourceError::NotFound));
    assert_eq!(m.query_shm_offset(app(17)), Err(ResourceError::NotFound));
}

#[test]
fn switch_carries_a_pointer_to_the_peer() {
    let m = sample();
    assert_eq!(m.len(), 3);
    assert_eq!(m.switch_address_space(local(0x5000)), Ok(app(0x9000)));
    assert_eq!(m.switch_address_space(local(0x5fff)), Ok(app(0x9fff)));
    assert_eq!(m.switch_address_space(local(0x1234)), Ok(app(0x20234)));
    assert_eq!(m.switch_address_space(local(0x300f)), Ok(app(0x10f)));
    assert_eq!(m.switch_address_space(app(0x10f)), Ok(local(0x300f)));
    assert_eq!(m.switch_address_space(app(0x20000)), Ok(local(0x1000)));
}

#[test]
fn switch_outside_every_region_is_not_found() {
    let m = sample();
    assert_eq!(m.switch_address_space(local(0xfff)), Err(ResourceError::NotFound));
    assert_eq!(m.switch_address_space(local(0x1800)), Err(ResourceError::NotFound));
    assert_eq!(m.switch_address_space(local(0x3010)), Err(ResourceError::NotFound));
    assert_eq!(m.switch_address_space(local(0x6000)), Err(ResourceError::NotFound));
    assert_eq!(m.switch_address_space(local(u64::MAX)), Err(ResourceError::NotFound));
    assert_eq!(m.switch_address_space(app(0x5000)), Err(ResourceError::NotFound));
    assert_eq!(m.switch_address_space(app(0xff)), Err(ResourceError::NotFound));
    assert_eq!(m.switch_address_space(app(0x110)), Err(ResourceError::NotFound));
}

#[test]
fn switching_twice_gives_the_pointer_back() {
    let m = sample();
    for addr in [0x1000u64, 0x17ff, 0x3000, 0x3007, 0x5000, 0x5abc, 0x5fff] {
        let there = m.switch_address_space(local(addr)).unwrap();
        assert_eq!(there.space, AddressSpace::App);
        assert_eq!(m.switch_address_space(there), Ok(local(addr)));
    }
    for addr in [0x100u64, 0x10f, 0x9000, 0x9800, 0x20000, 0x207ff] {
        let there = m.switch_address_space(app(addr)).unwrap();
        assert_eq!(there.space, AddressSpace::Local);
        assert_eq!(m.switch_address_space(there), Ok(app(addr)));
    }
}

#[test]
fn offset_plus_peer_base_is_the_peer_pointer() {
    let m = sample();
    for addr in [0x1000u64, 0x1001, 0x17ff, 0x3009, 0x5000, 0x5ff0] {
        let p = local(addr);
        let off = m.query_shm_offset(p).unwrap();
        let peer_base = m.region_base(p, AddressSpace::App).unwrap();
        assert_eq!(off + peer_base, m.switch_address_space(p).unwrap().addr);
    }
    assert_eq!(m.query_shm_offset(local(0x5010)), Ok(0x10));
    assert_eq!(m.query_shm_offset(app(0x9010)), Ok(0x10));
    assert_eq!(m.region_base(local(0x5010), AddressSpace::Local), Ok(0x5000));
    assert_eq!(m.region_base(local(0x5010), AddressSpace::App), Ok(0x9000));
    assert_eq!(m.region_base(local(0x4fff), AddressSpace::App), Err(ResourceError::NotFound));
}

#[test]
fn a_region_that_shares_an_address_is_refused() {
    let mut m = sample();
    // same start
    assert_eq!(
        m.insert_addr_map(0x5000, ShmBuf { ptr: 0x40000, len: 1 }),
        Err(ResourceError::Exists)
    );
    // tail reaches into a registered region, daemon side
    assert_eq!(
        m.insert_addr_map(0x4ff0, ShmBuf { ptr: 0x40000, len: 0x11 }),
        Err(ResourceError::Exists)
    );
    // head lies in a registered region, daemon side
    assert_eq!(
        m.insert_addr_map(0x17ff, ShmBuf { ptr: 0x40000, len: 0x100 }),
        Err(ResourceError::Exists)
    );
    // encloses a registered region, daemon side
    assert_eq!(
        m.insert_addr_map(0x2000, ShmBuf { ptr: 0x40000, len: 0x2000 }),
        Err(ResourceError::Exists)
    );
    // free in the daemon, taken in the application
    assert_eq!(
        m.insert_addr_map(0x7000, ShmBuf { ptr: 0x9fff, len: 0x10 }),
        Err(ResourceError::Exists)
    );
    assert_eq!(m.len(), 3);
    assert_eq!(m.switch_address_space(local(0x7000)), Err(ResourceError::NotFound));
    // adjacent on both sides is fine
    assert_eq!(m.insert_addr_map(0x4ff0, ShmBuf { ptr: 0x8ff0, len: 0x10 }), Ok(()));
    assert_eq!(m.insert_addr_map(0x6000, ShmBuf { ptr: 0xa000, len: 0x10 }), Ok(()));
    assert_eq!(m.len(), 5);
    assert_eq!(m.switch_address_space(local(0x4fff)), Ok(app(0x8fff)));
    assert_eq!(m.switch_address_space(local(0x6000)), Ok(app(0xa000)));
}

#[test]
fn an_empty_or_overlong_region_is_invalid() {
    let mut m = AddressMap::new();
    assert_eq!(m.insert_addr_map(0x1000, ShmBuf { ptr: 0x2000, len: 0 }), Err(ResourceError::Invalid));
    assert_eq!(
        m.insert_addr_map(u64::MAX - 3, ShmBuf { ptr: 0x2000, len: 4 }),
        Err(ResourceError::Invalid)
    );
    assert_eq!(
        m.insert_addr_map(0x1000, ShmBuf { ptr: u64::MAX, len: 1 }),
        Err(ResourceError::Invalid)
    );
    assert_eq!(m.len(), 0);
    assert_eq!(m.insert_addr_map(u64::MAX - 4, ShmBuf { ptr: 0x2000, len: 4 }), Ok(()));
    assert_eq!(m.switch_address_space(local(u64::MAX - 1)), Ok(app(0x2003)));
    assert_eq!(m.switch_address_space(local(u64::MAX)), Err(ResourceError::NotFound));
}

#[test]
fn lookups_find_each_of_many_regions() {
    let mut m = AddressMap::new();
    // registered in an order that is sorted in neither space
    for i in [7u64, 2, 9, 0, 5, 3, 8, 1, 6, 4] {
        let l = 0x10000 * (i + 1);
        let a = 0x10000 * (20 - i);
        assert_eq!(m.insert_addr_map(l, ShmBuf { ptr: a, len: 0x100 }), Ok(()));
    }
    assert_eq!(m.len(), 10);
    for i in 0..10u64 {
        let l = 0x10000 * (i + 1);
        let a = 0x10000 * (20 - i);
        assert_eq!(m.switch_address_space(local(l + 0x42)), Ok(app(a + 0x42)));
        assert_eq!(m.switch_address_space(app(a + 0xff)), Ok(local(l + 0xff)));
        assert_eq!(m.switch_address_space(local(l + 0x100)), Err(ResourceError::NotFound));
        assert_eq!(m.switch_address_space(app(a - 1)), Err(ResourceError::NotFound));
    }
}
