//! Carrying addresses over between the daemon's and the application's view of
//! the memory regions that both map.
//!
//! A region occupies one span of addresses in each of the two address
//! spaces. The map keeps the regions of a subscription pairwise disjoint in
//! both spaces, so that a pointer lies in at most one region and can be
//! carried over to the other space and back.

use vstd::prelude::*;
use crate::error::ResourceError;

verus! {

/// One of the two address spaces in which a shared region is mapped.
#[derive(Clone, Copy, Debug, PartialEq, Eq, Structural, Hash)]
pub enum AddressSpace {
    /// The daemon's.
    Local,
    /// The application's.
    App,
}

/// An address together with the space in which it is meaningful.
#[derive(Clone, Copy, Debug, PartialEq, Eq, Structural, Hash)]
pub struct ShmPtr {
    pub addr: u64,
    pub space: AddressSpace,
}

/// A span of the application's address space.
#[derive(Clone, Copy, Debug, PartialEq, Eq, Structural, Hash)]
pub struct ShmBuf {
    pub ptr: u64,
    pub len: u64,
}

/// A shared region: where it starts in each space, and its length.
#[derive(Clone, Copy, Debug, PartialEq, Eq, Structural, Hash)]
pub struct Region {
    pub local: u64,
    pub app: u64,
    pub len: u64,
}

/// The other address space.
pub open spec fn peer(s: AddressSpace) -> AddressSpace {
    match s {
        AddressSpace::Local => AddressSpace::App,
        AddressSpace::App => AddressSpace::Local,
    }
}

/// First address of `r` in space `s`.
pub open spec fn mr_base(r: Region, s: AddressSpace) -> int {
    match s {
        AddressSpace::Local => r.local as int,
        AddressSpace::App => r.app as int,
    }
}

/// One past the last address of `r` in space `s`.
pub open spec fn mr_end(r: Region, s: AddressSpace) -> int {
    mr_base(r, s) + r.len
}

/// A region is valid when it is not empty and both of its spans end within
/// the address space.
pub open spec fn valid(r: Region) -> bool {
    &&& r.len > 0
    &&& r.local + r.len <= u64::MAX
    &&& r.app + r.len <= u64::MAX
}

/// Whether `p` lies inside `r`, in the space that `p` belongs to.
pub open spec fn covers(r: Region, p: ShmPtr) -> bool {
    mr_base(r, p.space) <= p.addr < mr_end(r, p.space)
}

/// Whether the spans of `a` and `b` in space `s` share an address.
pub open spec fn overlap(a: Region, b: Region, s: AddressSpace) -> bool {
    mr_base(a, s) < mr_end(b, s) && mr_base(b, s) < mr_end(a, s)
}

/// Whether `a` and `b` share an address in either space.
pub open spec fn clash(a: Region, b: Region) -> bool {
    overlap(a, b, AddressSpace::Local) || overlap(a, b, AddressSpace::App)
}

/// Byte offset of `p` from the start of `r`.
pub open spec fn offset_in(r: Region, p: ShmPtr) -> int {
    p.addr - mr_base(r, p.space)
}

/// The same byte of `r` as `p`, seen from the other space.
pub open spec fn carried(r: Region, p: ShmPtr) -> ShmPtr {
    ShmPtr { addr: (mr_base(r, peer(p.space)) + offset_in(r, p)) as u64, space: peer(p.space) }
}

/// A set of regions is consistent when each is valid and no two clash.
pub open spec fn consistent(regions: Set<Region>) -> bool {
    &&& forall|r: Region| regions.contains(r) ==> valid(r)
    &&& forall|a: Region, b: Region|
        regions.contains(a) && regions.contains(b) && a != b ==> !clash(a, b)
}

/// The region of `regions` that `p` lies in, if it lies in one.
pub open spec fn enclosing(regions: Set<Region>, p: ShmPtr) -> Option<Region> {
    if exists|r: Region| regions.contains(r) && covers(r, p) {
        Some(choose|r: Region| regions.contains(r) && covers(r, p))
    } else {
        None
    }
}

/// `p` carried over to the other address space.
pub open spec fn switched(regions: Set<Region>, p: ShmPtr) -> Option<ShmPtr> {
    match enclosing(regions, p) {
        Some(r) => Some(carried(r, p)),
        None => None,
    }
}

/// Byte offset of `p` from the start of its region.
pub open spec fn shm_offset(regions: Set<Region>, p: ShmPtr) -> Option<int> {
    match enclosing(regions, p) {
        Some(r) => Some(offset_in(r, p)),
        None => None,
    }
}

/// Whether `r` shares an address with a region of `regions`.
pub open spec fn taken(regions: Set<Region>, r: Region) -> bool {
    exists|x: Region| regions.contains(x) && clash(x, r)
}

/// What registering `r` does to `regions`, and how it ends: an invalid
/// region and one that shares an address with a registered one are
/// refused.
pub open spec fn inserted(regions: Set<Region>, r: Region) -> (Set<Region>, Result<
    (),
    ResourceError,
>) {
    if !valid(r) {
        (regions, Err(ResourceError::Invalid))
    } else if taken(regions, r) {
        (regions, Err(ResourceError::Exists))
    } else {
        (regions.insert(r), Ok(()))
    }
}

/// In a consistent set a pointer lies in at most one region.
pub proof fn lemma_enclosing_unique(regions: Set<Region>, p: ShmPtr, r: Region)
    requires
        consistent(regions),
        regions.contains(r),
        covers(r, p),
    ensures
        enclosing(regions, p) == Some(r),
{
    let c = choose|c: Region| regions.contains(c) && covers(c, p);
    if c != r {
        assert(clash(c, r));
    }
}

/// The spans in space `s` follow one another without sharing an address.
pub open spec fn ordered(v: Seq<Region>, s: AddressSpace) -> bool {
    forall|i: int, j: int| 0 <= i < j < v.len() ==> mr_end(v[i], s) <= mr_base(v[j], s)
}

/// Each entry is a valid region.
pub open spec fn all_valid(v: Seq<Region>) -> bool {
    forall|i: int| 0 <= i < v.len() ==> valid(#[trigger] v[i])
}

fn peer_of(s: AddressSpace) -> (t: AddressSpace)
    ensures
        t == peer(s),
{
    match s {
        AddressSpace::Local => AddressSpace::App,
        AddressSpace::App => AddressSpace::Local,
    }
}

fn base_of(r: &Region, s: AddressSpace) -> (b: u64)
    ensures
        b == mr_base(*r, s),
{
    match s {
        AddressSpace::Local => r.local,
        AddressSpace::App => r.app,
    }
}

/// Number of leading entries that start at or below `addr`.
fn upper_bound(v: &Vec<Region>, s: AddressSpace, addr: u64) -> (k: usize)
    requires
        ordered(v@, s),
    ensures
        k <= v.len(),
        forall|i: int| 0 <= i < k ==> mr_base(#[trigger] v@[i], s) <= addr,
        forall|i: int| k <= i < v.len() ==> mr_base(#[trigger] v@[i], s) > addr,
{
    let mut lo: usize = 0;
    let mut hi: usize = v.len();
    while lo < hi
        invariant
            lo <= hi <= v.len(),
            ordered(v@, s),
            forall|i: int| 0 <= i < lo ==> mr_base(#[trigger] v@[i], s) <= addr,
            forall|i: int| hi <= i < v.len() ==> mr_base(#[trigger] v@[i], s) > addr,
        decreases hi - lo,
    {
        let mid: usize = lo + (hi - lo) / 2;
        if base_of(&v[mid], s) <= addr {
            assert forall|i: int| 0 <= i < mid + 1 implies mr_base(#[trigger] v@[i], s) <= addr by {
                if i < mid {
                    assert(mr_end(v@[i], s) <= mr_base(v@[mid as int], s));
                }
            }
            lo = mid + 1;
        } else {
            assert forall|i: int| mid <= i < v.len() implies mr_base(#[trigger] v@[i], s) > addr by {
                if mid < i {
                    assert(mr_end(v@[mid as int], s) <= mr_base(v@[i], s));
                }
            }
            hi = mid;
        }
    }
    lo
}

/// Index of the entry that covers `addr` in space `s`, if there is one.
fn locate(v: &Vec<Region>, s: AddressSpace, addr: u64) -> (res: Option<usize>)
    requires
        ordered(v@, s),
    ensures
        match res {
            Some(i) => i < v.len() && covers(v@[i as int], ShmPtr { addr, space: s }),
            None => forall|j: int|
                0 <= j < v.len() ==> !covers(#[trigger] v@[j], ShmPtr { addr, space: s }),
        },
{
    let k = upper_bound(v, s, addr);
    if k == 0 {
        return None;
    }
    let b = base_of(&v[k - 1], s);
    if addr - b < v[k - 1].len {
        Some(k - 1)
    } else {
        assert forall|j: int| 0 <= j < v.len() implies !covers(
            #[trigger] v@[j],
            ShmPtr { addr, space: s },
        ) by {
            if j < k - 1 {
                assert(mr_end(v@[j], s) <= mr_base(v@[k - 1], s));
            }
        }
        None
    }
}

/// Where `r` goes among the entries ordered in space `s`, unless its span
/// there shares an address with one of them.
fn slot(v: &Vec<Region>, s: AddressSpace, r: &Region) -> (res: Option<usize>)
    requires
        ordered(v@, s),
        all_valid(v@),
        valid(*r),
    ensures
        match res {
            Some(k) => {
                &&& k <= v.len()
                &&& ordered(v@.insert(k as int, *r), s)
                &&& forall|j: int| 0 <= j < v.len() ==> !overlap(#[trigger] v@[j], *r, s)
            },
            None => exists|j: int| 0 <= j < v.len() && overlap(#[trigger] v@[j], *r, s),
        },
{
    let b = base_of(r, s);
    let k = upper_bound(v, s, b);
    if k > 0 {
        let prev = &v[k - 1];
        let pb = base_of(prev, s);
        assert(valid(v@[k - 1]));
        if pb + prev.len > b {
            assert(overlap(v@[k - 1], *r, s));
            return None;
        }
    }
    if k < v.len() {
        let nb = base_of(&v[k], s);
        if b + r.len > nb {
            assert(overlap(v@[k as int], *r, s));
            return None;
        }
    }
    proof {
        let w = v@.insert(k as int, *r);
        assert forall|i: int, j: int| 0 <= i < j < w.len() implies mr_end(w[i], s) <= mr_base(
            w[j],
            s,
        ) by {
            if j < k {
                assert(w[i] == v@[i] && w[j] == v@[j]);
            } else if j == k {
                assert(w[i] == v@[i]);
                if i < k - 1 {
                    assert(mr_end(v@[i], s) <= mr_base(v@[k - 1], s));
                }
                assert(valid(v@[k - 1]));
            } else if i < k {
                assert(w[i] == v@[i] && w[j] == v@[j - 1]);
                if i < j - 1 {
                    assert(mr_end(v@[i], s) <= mr_base(v@[j - 1], s));
                }
            } else if i == k {
                assert(w[j] == v@[j - 1]);
                if k < j - 1 {
                    assert(mr_end(v@[k as int], s) <= mr_base(v@[j - 1], s));
                }
                assert(valid(v@[k as int]));
            } else {
                assert(w[i] == v@[i - 1] && w[j] == v@[j - 1]);
            }
        }
        assert forall|j: int| 0 <= j < v.len() implies !overlap(#[trigger] v@[j], *r, s) by {
            assert(valid(v@[j]));
            if j < k - 1 {
                assert(mr_end(v@[j], s) <= mr_base(v@[k - 1], s));
            } else if j > k {
                assert(mr_end(v@[k as int], s) <= mr_base(v@[j], s));
            }
        }
    }
    Some(k)
}

/// What inserting `r` at `k` does to membership.
proof fn lemma_insert_contains(v: Seq<Region>, k: int, r: Region)
    requires
        0 <= k <= v.len(),
    ensures
        forall|x: Region| v.insert(k, r).contains(x) <==> (v.contains(x) || x == r),
{
    let w = v.insert(k, r);
    assert forall|x: Region| w.contains(x) <==> (v.contains(x) || x == r) by {
        if w.contains(x) {
            let i = choose|i: int| 0 <= i < w.len() && w[i] == x;
            if i < k {
                assert(v[i] == x);
            } else if i > k {
                assert(v[i - 1] == x);
            }
        }
        if v.contains(x) {
            let i = choose|i: int| 0 <= i < v.len() && v[i] == x;
            if i < k {
                assert(w[i] == x);
            } else {
                assert(w[i + 1] == x);
            }
        }
        if x == r {
            assert(w[k] == x);
        }
    }
}

/// The regions of one subscription, indexed by where they start in each of
/// the two address spaces.
pub struct AddressMap {
    by_local: Vec<Region>,
    by_app: Vec<Region>,
}

impl AddressMap {
    /// The regions that the map holds.
    pub closed spec fn regions(&self) -> Set<Region> {
        Set::new(|r: Region| self.by_local@.contains(r))
    }

    /// The two indexes hold the same regions, each in the order of its space.
    pub closed spec fn indexed(&self) -> bool {
        &&& ordered(self.by_local@, AddressSpace::Local)
        &&& ordered(self.by_app@, AddressSpace::App)
        &&& all_valid(self.by_local@)
        &&& all_valid(self.by_app@)
        &&& forall|r: Region| self.by_local@.contains(r) <==> self.by_app@.contains(r)
    }

    /// The map's invariant.
    pub open spec fn wf(&self) -> bool {
        self.indexed() && consistent(self.regions())
    }

    /// A map without regions.
    pub fn new() -> (m: AddressMap)
        ensures
            m.wf(),
            m.regions() == Set::<Region>::empty(),
    {
        let m = AddressMap { by_local: Vec::new(), by_app: Vec::new() };
        assert(m.regions() =~= Set::<Region>::empty());
        m
    }

    /// Number of regions in the map.
    pub fn len(&self) -> (n: usize)
        requires
            self.wf(),
        ensures
            n == self.regions().len(),
            self.regions().finite(),
    {
        proof {
            self.lemma_distinct();
            self.by_local@.unique_seq_to_set();
            assert(self.regions() =~= self.by_local@.to_set());
        }
        self.by_local.len()
    }

    proof fn lemma_distinct(&self)
        requires
            self.indexed(),
        ensures
            self.by_local@.no_duplicates(),
    {
        assert forall|i: int, j: int|
            0 <= i < self.by_local@.len() && 0 <= j < self.by_local@.len() && i
                != j implies self.by_local@[i] != self.by_local@[j] by {
            assert(valid(self.by_local@[i]));
            assert(valid(self.by_local@[j]));
            if i < j {
                assert(mr_end(self.by_local@[i], AddressSpace::Local) <= mr_base(
                    self.by_local@[j],
                    AddressSpace::Local,
                ));
            } else {
                assert(mr_end(self.by_local@[j], AddressSpace::Local) <= mr_base(
                    self.by_local@[i],
                    AddressSpace::Local,
                ));
            }
        }
    }

    /// Registers the region that starts at `local_addr` in the daemon and
    /// occupies `remote_buf` in the application.
    ///
    /// The region is refused as invalid when it is empty or one of its spans
    /// runs past the end of the address space, and as existing when it
    /// shares an address with a region of the map, in either space.
    pub fn insert_addr_map(&mut self, local_addr: u64, remote_buf: ShmBuf) -> (res: Result<
        (),
        ResourceError,
    >)
        requires
            old(self).wf(),
        ensures
            final(self).wf(),
            (final(self).regions(), res) == inserted(
                old(self).regions(),
                Region { local: local_addr, app: remote_buf.ptr, len: remote_buf.len },
            ),
    {
        let r = Region { local: local_addr, app: remote_buf.ptr, len: remote_buf.len };
        if r.len == 0 || r.len > u64::MAX - r.local || r.len > u64::MAX - r.app {
            return Err(ResourceError::Invalid);
        }
        let at_local = match slot(&self.by_local, AddressSpace::Local, &r) {
            Some(k) => k,
            None => {
                proof {
                    let j = choose|j: int|
                        0 <= j < self.by_local@.len() && overlap(
                            #[trigger] self.by_local@[j],
                            r,
                            AddressSpace::Local,
                        );
                    assert(self.by_local@.contains(self.by_local@[j]));
                    assert(clash(self.by_local@[j], r));
                }
                return Err(ResourceError::Exists);
            },
        };
        let at_app = match slot(&self.by_app, AddressSpace::App, &r) {
            Some(k) => k,
            None => {
                proof {
                    let j = choose|j: int|
                        0 <= j < self.by_app@.len() && overlap(
                            #[trigger] self.by_app@[j],
                            r,
                            AddressSpace::App,
                        );
                    assert(self.by_app@.contains(self.by_app@[j]));
                    assert(clash(self.by_app@[j], r));
                }
                return Err(ResourceError::Exists);
            },
        };
        proof {
            lemma_insert_contains(self.by_local@, at_local as int, r);
            lemma_insert_contains(self.by_app@, at_app as int, r);
            assert forall|x: Region| old(self).regions().contains(x) implies !clash(x, r) by {
                let i = choose|i: int| 0 <= i < self.by_local@.len() && self.by_local@[i] == x;
                assert(!overlap(self.by_local@[i], r, AddressSpace::Local));
                assert(self.by_app@.contains(x));
                let j = choose|j: int| 0 <= j < self.by_app@.len() && self.by_app@[j] == x;
                assert(!overlap(self.by_app@[j], r, AddressSpace::App));
            }
        }
        self.by_local.insert(at_local, r);
        self.by_app.insert(at_app, r);
        proof {
            assert(self.by_local@ == old(self).by_local@.insert(at_local as int, r));
            assert(self.by_app@ == old(self).by_app@.insert(at_app as int, r));
            assert forall|x: Region| self.regions().contains(x) <==> old(self).regions().insert(
                r,
            ).contains(x) by {
                assert(self.by_local@.contains(x) <==> (old(self).by_local@.contains(x) || x == r));
            }
            assert(self.regions() =~= old(self).regions().insert(r));
            assert forall|i: int| 0 <= i < self.by_local@.len() implies valid(
                #[trigger] self.by_local@[i],
            ) by {
                if i < at_local {
                    assert(self.by_local@[i] == old(self).by_local@[i]);
                } else if i > at_local {
                    assert(self.by_local@[i] == old(self).by_local@[i - 1]);
                }
            }
            assert forall|i: int| 0 <= i < self.by_app@.len() implies valid(
                #[trigger] self.by_app@[i],
            ) by {
                if i < at_app {
                    assert(self.by_app@[i] == old(self).by_app@[i]);
                } else if i > at_app {
                    assert(self.by_app@[i] == old(self).by_app@[i - 1]);
                }
            }
            assert forall|a: Region, b: Region|
                self.regions().contains(a) && self.regions().contains(b) && a != b implies !clash(
                a,
                b,
            ) by {
                if a == r {
                    assert(!clash(b, r));
                } else if b == r {
                    assert(!clash(a, r));
                }
            }
            assert forall|x: Region| self.by_local@.contains(x) <==> self.by_app@.contains(x) by {
                assert(self.by_local@.contains(x) <==> (old(self).by_local@.contains(x) || x == r));
                assert(self.by_app@.contains(x) <==> (old(self).by_app@.contains(x) || x == r));
            }
            assert forall|x: Region| self.regions().contains(x) implies valid(x) by {
                if x != r {
                    assert(old(self).regions().contains(x));
                }
            }
            assert(self.indexed());
            assert(consistent(self.regions()));
        }
        Ok(())
    }

    /// The region that `p` lies in, looked up in the index of `p`'s space.
    fn find(&self, p: ShmPtr) -> (res: Option<Region>)
        requires
            self.wf(),
        ensures
            res == enclosing(self.regions(), p),
    {
        let found = match p.space {
            AddressSpace::Local => {
                match locate(&self.by_local, AddressSpace::Local, p.addr) {
                    Some(i) => {
                        assert(self.by_local@.contains(self.by_local@[i as int]));
                        Some(self.by_local[i])
                    },
                    None => None,
                }
            },
            AddressSpace::App => {
                match locate(&self.by_app, AddressSpace::App, p.addr) {
                    Some(i) => {
                        assert(self.by_app@.contains(self.by_app@[i as int]));
                        Some(self.by_app[i])
                    },
                    None => None,
                }
            },
        };
        proof {
            match found {
                Some(r) => {
                    lemma_enclosing_unique(self.regions(), p, r);
                },
                None => {
                    assert forall|x: Region| self.regions().contains(x) implies !covers(x, p) by {
                        match p.space {
                            AddressSpace::Local => {
                                let i = choose|i: int|
                                    0 <= i < self.by_local@.len() && self.by_local@[i] == x;
                                assert(!covers(self.by_local@[i], p));
                            },
                            AddressSpace::App => {
                                assert(self.by_app@.contains(x));
                                let i = choose|i: int|
                                    0 <= i < self.by_app@.len() && self.by_app@[i] == x;
                                assert(!covers(self.by_app@[i], p));
                            },
                        }
                    }
                },
            }
        }
        found
    }

    /// Carries `p` over to the other address space: the same byte of the
    /// region that `p` lies in, as the peer addresses it. A pointer outside
    /// every region is not found.
    pub fn switch_address_space(&self, p: ShmPtr) -> (res: Result<ShmPtr, ResourceError>)
        requires
            self.wf(),
        ensures
            res == match switched(self.regions(), p) {
                Some(q) => Ok::<ShmPtr, ResourceError>(q),
                None => Err(ResourceError::NotFound),
            },
    {
        match self.find(p) {
            Some(r) => {
                let from = base_of(&r, p.space);
                let to = base_of(&r, peer_of(p.space));
                assert(valid(r));
                Ok(ShmPtr { addr: to + (p.addr - from), space: peer_of(p.space) })
            },
            None => Err(ResourceError::NotFound),
        }
    }

    /// Byte offset of `p` from the start of the region that it lies in. A
    /// pointer outside every region is not found.
    pub fn query_shm_offset(&self, p: ShmPtr) -> (res: Result<u64, ResourceError>)
        requires
            self.wf(),
        ensures
            res == match shm_offset(self.regions(), p) {
                Some(off) => Ok::<u64, ResourceError>(off as u64),
                None => Err(ResourceError::NotFound),
            },
            res matches Ok(off) ==> shm_offset(self.regions(), p) == Some(off as int),
    {
        match self.find(p) {
            Some(r) => Ok(p.addr - base_of(&r, p.space)),
            None => Err(ResourceError::NotFound),
        }
    }

    /// First address, in space `s`, of the region that `p` lies in.
    pub fn region_base(&self, p: ShmPtr, s: AddressSpace) -> (res: Result<u64, ResourceError>)
        requires
            self.wf(),
        ensures
            res == match enclosing(self.regions(), p) {
                Some(r) => Ok::<u64, ResourceError>(mr_base(r, s) as u64),
                None => Err(ResourceError::NotFound),
            },
    {
        match self.find(p) {
            Some(r) => Ok(base_of(&r, s)),
            None => Err(ResourceError::NotFound),
        }
    }
}

/// Carrying a pointer to the other address space and back gives the pointer
/// again.
pub proof fn lemma_switch_involution(regions: Set<Region>, p: ShmPtr)
    requires
        consistent(regions),
        enclosing(regions, p) is Some,
    ensures
        switched(regions, p) is Some,
        switched(regions, switched(regions, p)->0) == Some(p),
{
    let r = enclosing(regions, p)->0;
    let q = carried(r, p);
    assert(valid(r));
    assert(covers(r, q));
    lemma_enclosing_unique(regions, q, r);
}

/// The offset of a pointer within its region, added to where the peer maps
/// that region, is the address under which the peer sees the same byte.
pub proof fn lemma_offset_rebases(regions: Set<Region>, p: ShmPtr)
    requires
        consistent(regions),
        enclosing(regions, p) is Some,
    ensures
        shm_offset(regions, p) is Some,
        switched(regions, p) is Some,
        shm_offset(regions, p)->0 + mr_base(enclosing(regions, p)->0, peer(p.space)) == (switched(
            regions,
            p,
        )->0).addr,
        (switched(regions, p)->0).space == peer(p.space),
{
    let r = enclosing(regions, p)->0;
    assert(valid(r));
}

} // verus!
