//! Shared memory regions and who refers to them.
//!
//! A region is backed by a memory file, mapped by the daemon and
//! registered with the transport. The daemon owns it; every subscription
//! whose address map holds the region refers to it. The table here says
//! which regions may be deregistered when a subscription ends: those to
//! which no other subscription refers.

use vstd::prelude::*;
use vstd::string::StringExecFns;
use crate::error::ResourceError;
use crate::interface::{Handle, RemoteKey};

verus! {

/// Why a region could not be created.
#[derive(Clone, Debug)]
pub enum Error {
    /// The memory file could not be made; the payload is the wording of
    /// the failure.
    Memfd(String),
    /// Sizing, mapping or registering failed; the payload is the wording
    /// of the system's error.
    Io(String),
}

impl Error {
    /// The wording of this error.
    pub open spec fn text(self) -> Seq<char> {
        match self {
            Error::Memfd(e) => "Memfd: "@ + e@ + "."@,
            Error::Io(e) => "IO: "@ + e@ + "."@,
        }
    }

    pub fn message(&self) -> (s: String)
        ensures
            s@ == self.text(),
    {
        match self {
            Error::Memfd(e) => String::from_str("Memfd: ").concat(e.as_str()).concat("."),
            Error::Io(e) => String::from_str("IO: ").concat(e.as_str()).concat("."),
        }
    }
}

/// A registered region: what the transport and the application need to
/// know of it.
#[derive(Clone, Copy, Debug, PartialEq, Eq, Structural, Hash)]
pub struct MemoryRegion {
    handle: Handle,
    rkey: RemoteKey,
    len: usize,
    memfd: i32,
}

impl MemoryRegion {
    /// The record of a region of `len` bytes that was registered under
    /// `handle` and `rkey` and is backed by the memory file `memfd`.
    pub fn new(handle: Handle, rkey: RemoteKey, len: usize, memfd: i32) -> (mr: MemoryRegion)
        ensures
            mr.as_handle_spec() == handle,
            mr.rkey_spec() == rkey,
            mr.len_spec() == len,
            mr.memfd_spec() == memfd,
    {
        MemoryRegion { handle, rkey, len, memfd }
    }

    pub closed spec fn as_handle_spec(&self) -> Handle {
        self.handle
    }

    pub closed spec fn rkey_spec(&self) -> RemoteKey {
        self.rkey
    }

    pub closed spec fn len_spec(&self) -> usize {
        self.len
    }

    pub closed spec fn memfd_spec(&self) -> i32 {
        self.memfd
    }

    /// The handle under which the region is known.
    #[verifier::when_used_as_spec(as_handle_spec)]
    pub fn as_handle(&self) -> (h: Handle)
        ensures
            h == self.as_handle_spec(),
    {
        self.handle
    }

    /// Key and base address under which a peer reaches the region.
    #[verifier::when_used_as_spec(rkey_spec)]
    pub fn rkey(&self) -> (k: RemoteKey)
        ensures
            k == self.rkey_spec(),
    {
        self.rkey
    }

    /// Length of the region in bytes.
    #[verifier::when_used_as_spec(len_spec)]
    pub fn len(&self) -> (n: usize)
        ensures
            n == self.len_spec(),
    {
        self.len
    }

    /// Descriptor of the memory file behind the region.
    #[verifier::when_used_as_spec(memfd_spec)]
    pub fn memfd(&self) -> (fd: i32)
        ensures
            fd == self.memfd_spec(),
    {
        self.memfd
    }
}

/// A region and the subscriptions that refer to it.
pub struct Entry {
    mr: MemoryRegion,
    owners: Vec<u64>,
}

/// The regions of the daemon, each with the ids of the subscriptions that
/// refer to it.
pub struct MrTable {
    entries: Vec<Entry>,
}

/// What adding a region does to a table: `t0` is the table before and `t1`
/// the table after. A handle that is in the table already is refused;
/// otherwise the region is in the table, referred to by `sid` alone, and
/// the other regions are as they were.
pub open spec fn insert_post(
    t0: MrTable,
    mr: MemoryRegion,
    sid: u64,
    res: Result<(), ResourceError>,
    t1: MrTable,
) -> bool {
    let h = mr.as_handle_spec();
    if t0.handles().contains(h) {
        res == Err::<(), ResourceError>(ResourceError::Exists) && t1.same_as(&t0)
    } else {
        &&& res is Ok
        &&& t1.handles() == t0.handles().insert(h)
        &&& t1.region(h) == mr
        &&& t1.owners(h) == set![sid]
        &&& forall|o: Handle| #[trigger]
            t0.handles().contains(o) ==> t1.region(o) == t0.region(o) && t1.owners(o) == t0.owners(
                o,
            )
    }
}

/// What one more reference does to a table: a handle that is not in the
/// table is not found; otherwise `sid` refers to the region as well, and
/// nothing else is changed.
pub open spec fn share_post(
    t0: MrTable,
    handle: Handle,
    sid: u64,
    res: Result<(), ResourceError>,
    t1: MrTable,
) -> bool {
    &&& t1.handles() == t0.handles()
    &&& !t0.handles().contains(handle) ==> res == Err::<(), ResourceError>(ResourceError::NotFound)
        && t1.same_as(&t0)
    &&& t0.handles().contains(handle) ==> res is Ok
    &&& forall|h: Handle| #[trigger]
        t0.handles().contains(h) ==> t1.region(h) == t0.region(h) && t1.owners(h) == if h
            == handle {
            t0.owners(h).insert(sid)
        } else {
            t0.owners(h)
        }
}

/// What the end of subscription `sid` does to a table: the regions to
/// which `sid` alone referred leave the table and are `gone`; every other
/// region stays, with the other subscriptions that refer to it.
pub open spec fn release_post(t0: MrTable, sid: u64, gone: Seq<MemoryRegion>, t1: MrTable) -> bool {
    &&& forall|h: Handle|
        t1.handles().contains(h) <==> t0.handles().contains(h) && t0.owners(h) != set![sid]
    &&& forall|h: Handle| #[trigger]
        t1.handles().contains(h) ==> t1.region(h) == t0.region(h) && t1.owners(h) == t0.owners(
            h,
        ).remove(sid)
    &&& forall|mr: MemoryRegion|
        gone.contains(mr) <==> t0.handles().contains(mr.as_handle_spec()) && t0.region(
            mr.as_handle_spec(),
        ) == mr && t0.owners(mr.as_handle_spec()) == set![sid]
}

/// Index of the entry for `handle`.
spec fn index_of(entries: Seq<Entry>, handle: Handle) -> int {
    choose|i: int| 0 <= i < entries.len() && entries[i].mr.handle == handle
}

impl MrTable {
    /// The handles of the regions in the table.
    pub closed spec fn handles(&self) -> Set<Handle> {
        Set::new(
            |h: Handle| exists|i: int| 0 <= i < self.entries@.len() && self.entries@[i].mr.handle == h,
        )
    }

    /// The region known under `handle`.
    pub closed spec fn region(&self, handle: Handle) -> MemoryRegion {
        self.entries@[index_of(self.entries@, handle)].mr
    }

    /// The subscriptions that refer to the region known under `handle`.
    pub closed spec fn owners(&self, handle: Handle) -> Set<u64> {
        self.entries@[index_of(self.entries@, handle)].owners@.to_set()
    }

    /// No two regions share a handle, and each is referred to.
    pub closed spec fn wf(&self) -> bool {
        &&& forall|i: int, j: int|
            0 <= i < j < self.entries@.len() ==> self.entries@[i].mr.handle
                != self.entries@[j].mr.handle
        &&& forall|i: int| 0 <= i < self.entries@.len() ==> (#[trigger] self.entries@[i]).owners@.len() > 0
    }

    /// In a well-formed table every region is referred to by a
    /// subscription, and is known under its own handle.
    pub proof fn lemma_referred(&self, handle: Handle)
        requires
            self.wf(),
            self.handles().contains(handle),
        ensures
            exists|sid: u64| self.owners(handle).contains(sid),
            self.region(handle).as_handle_spec() == handle,
    {
        let i = index_of(self.entries@, handle);
        let o = self.entries@[i].owners@;
        assert(self.handles().contains(handle));
        assert(self.entries@[i].mr.handle == handle);
        assert(o.len() > 0);
        assert(o.contains(o[0]));
        assert(self.owners(handle).contains(o[0]));
    }

    /// A table without regions.
    pub fn new() -> (t: MrTable)
        ensures
            t.wf(),
            t.handles() == Set::<Handle>::empty(),
    {
        let t = MrTable { entries: Vec::new() };
        assert(t.handles() =~= Set::<Handle>::empty());
        t
    }

    fn find(&self, handle: Handle) -> (res: Option<usize>)
        requires
            self.wf(),
        ensures
            match res {
                Some(i) => i < self.entries@.len() && i == index_of(self.entries@, handle)
                    && self.entries@[i as int].mr.handle == handle && self.handles().contains(
                    handle,
                ),
                None => !self.handles().contains(handle),
            },
    {
        let mut i: usize = 0;
        while i < self.entries.len()
            invariant
                i <= self.entries.len(),
                self.wf(),
                forall|k: int| 0 <= k < i ==> self.entries@[k].mr.handle != handle,
            decreases self.entries.len() - i,
        {
            if self.entries[i].mr.handle == handle {
                proof {
                    let c = index_of(self.entries@, handle);
                    if c < i {
                        assert(self.entries@[c].mr.handle != self.entries@[i as int].mr.handle);
                    } else if i < c {
                        assert(self.entries@[i as int].mr.handle != self.entries@[c].mr.handle);
                    }
                }
                return Some(i);
            }
            i += 1;
        }
        None
    }

    /// Whether a region is known under `handle`.
    pub fn contains(&self, handle: Handle) -> (b: bool)
        requires
            self.wf(),
        ensures
            b == self.handles().contains(handle),
    {
        self.find(handle).is_some()
    }

    /// Whether subscription `sid` refers to the region known under
    /// `handle`.
    pub fn refers(&self, handle: Handle, sid: u64) -> (b: bool)
        requires
            self.wf(),
        ensures
            b == (self.handles().contains(handle) && self.owners(handle).contains(sid)),
    {
        match self.find(handle) {
            Some(i) => holds(&self.entries[i].owners, sid),
            None => false,
        }
    }

    /// Adds a region that subscription `sid` refers to. A handle that is in
    /// the table already is refused.
    pub fn insert(&mut self, mr: MemoryRegion, sid: u64) -> (res: Result<(), ResourceError>)
        requires
            old(self).wf(),
        ensures
            final(self).wf(),
            insert_post(*old(self), mr, sid, res, *final(self)),
    {
        if self.find(mr.handle).is_some() {
            return Err(ResourceError::Exists);
        }
        let mut owners: Vec<u64> = Vec::new();
        owners.push(sid);
        self.entries.push(Entry { mr, owners });
        proof {
            let n = old(self).entries@.len() as int;
            assert(self.entries@[n].mr.handle == mr.handle);
            assert(self.handles() =~= old(self).handles().insert(mr.handle)) by {
                assert forall|h: Handle| self.handles().contains(h) <==> old(
                    self,
                ).handles().insert(mr.handle).contains(h) by {
                    if old(self).handles().contains(h) {
                        let i = index_of(old(self).entries@, h);
                        assert(self.entries@[i].mr.handle == h);
                    }
                    if self.handles().contains(h) && h != mr.handle {
                        let i = index_of(self.entries@, h);
                        assert(old(self).entries@[i].mr.handle == h);
                    }
                }
            }
            assert(index_of(self.entries@, mr.handle) == n);
            assert(self.entries@[n].owners@ =~= seq![sid]);
            assert(seq![sid].to_set() =~= set![sid]) by {
                assert(seq![sid][0] == sid);
                assert forall|x: u64| seq![sid].contains(x) implies x == sid by {
                    let k = choose|k: int| 0 <= k < seq![sid].len() && seq![sid][k] == x;
                }
            }
            assert forall|h: Handle| #[trigger] old(self).handles().contains(h) implies self.region(
                h,
            ) == old(self).region(h) && self.owners(h) == old(self).owners(h) by {
                let i = index_of(old(self).entries@, h);
                assert(self.entries@[i].mr.handle == h);
                assert(index_of(self.entries@, h) == i);
            }
        }
        Ok(())
    }

    /// The two tables hold the same regions with the same subscriptions.
    pub open spec fn same_as(&self, other: &MrTable) -> bool {
        &&& self.handles() == other.handles()
        &&& forall|h: Handle| #[trigger]
            self.handles().contains(h) ==> self.region(h) == other.region(h) && self.owners(h)
                == other.owners(h)
    }

    /// Records that subscription `sid` refers to the region known under
    /// `handle`.
    pub fn share(&mut self, handle: Handle, sid: u64) -> (res: Result<(), ResourceError>)
        requires
            old(self).wf(),
        ensures
            final(self).wf(),
            share_post(*old(self), handle, sid, res, *final(self)),
    {
        let i = match self.find(handle) {
            Some(i) => i,
            None => {
                return Err(ResourceError::NotFound);
            },
        };
        if !holds(&self.entries[i].owners, sid) {
            self.entries[i].owners.push(sid);
        }
        proof {
            let before = old(self).entries@;
            let after = self.entries@;
            assert(after.len() == before.len());
            assert forall|k: int| 0 <= k < after.len() implies after[k].mr == before[k].mr && (k
                != i ==> after[k].owners@ == before[k].owners@) by {}
            assert(after[i as int].owners@.to_set() =~= before[i as int].owners@.to_set().insert(
                sid,
            )) by {
                if before[i as int].owners@.contains(sid) {
                    assert(after[i as int].owners@ == before[i as int].owners@);
                } else {
                    let o = before[i as int].owners@;
                    assert(after[i as int].owners@ == o.push(sid));
                    assert forall|x: u64| o.push(sid).to_set().contains(x) <==> o.to_set().insert(
                        sid,
                    ).contains(x) by {
                        if o.push(sid).contains(x) {
                            let k = choose|k: int| 0 <= k < o.push(sid).len() && o.push(sid)[k] == x;
                            if k < o.len() {
                                assert(o[k] == x);
                            }
                        }
                        if o.contains(x) {
                            let k = choose|k: int| 0 <= k < o.len() && o[k] == x;
                            assert(o.push(sid)[k] == x);
                        }
                        if x == sid {
                            assert(o.push(sid)[o.len() as int] == x);
                        }
                    }
                }
            }
            assert(self.handles() =~= old(self).handles()) by {
                assert forall|h: Handle| self.handles().contains(h) <==> old(
                    self,
                ).handles().contains(h) by {
                    if self.handles().contains(h) {
                        let k = index_of(after, h);
                        assert(before[k].mr.handle == h);
                    }
                    if old(self).handles().contains(h) {
                        let k = index_of(before, h);
                        assert(after[k].mr.handle == h);
                    }
                }
            }
            assert forall|h: Handle| #[trigger] old(self).handles().contains(h) implies self.region(
                h,
            ) == old(self).region(h) && self.owners(h) == if h == handle {
                old(self).owners(h).insert(sid)
            } else {
                old(self).owners(h)
            } by {
                let k = index_of(before, h);
                assert(after[k].mr.handle == h);
                assert(index_of(after, h) == k);
            }
        }
        Ok(())
    }

    /// Ends subscription `sid`: it refers to no region any more. The
    /// regions to which no subscription refers after that leave the table
    /// and are returned, to be deregistered.
    ///
    /// A region is returned exactly if `sid` was the last subscription
    /// that referred to it; every other region stays, with the other
    /// subscriptions that refer to it.
    pub fn release(&mut self, sid: u64) -> (gone: Vec<MemoryRegion>)
        requires
            old(self).wf(),
        ensures
            final(self).wf(),
            release_post(*old(self), sid, gone@, *final(self)),
    {
        let mut gone: Vec<MemoryRegion> = Vec::new();
        let mut kept: Vec<Entry> = Vec::new();
        let ghost before = self.entries@;
        let mut rest: Vec<Entry> = Vec::new();
        std::mem::swap(&mut self.entries, &mut rest);
        // `rest` is walked from its end, so that each entry can be taken out of it.
        let ghost mut origin: Seq<int> = Seq::empty();
        while rest.len() > 0
            invariant
                rest@ == before.take(rest@.len() as int),
                rest@.len() <= before.len(),
                forall|i: int, j: int|
                    0 <= i < j < before.len() ==> before[i].mr.handle != before[j].mr.handle,
                forall|i: int| 0 <= i < before.len() ==> (#[trigger] before[i]).owners@.len() > 0,
                origin.len() == kept@.len(),
                forall|k: int|
                    0 <= k < kept@.len() ==> {
                        &&& rest@.len() <= #[trigger] origin[k] < before.len()
                        &&& kept@[k].mr == before[origin[k]].mr
                        &&& kept@[k].owners@.to_set() == before[origin[k]].owners@.to_set().remove(
                            sid,
                        )
                        &&& kept@[k].owners@.len() > 0
                    },
                forall|a: int, b: int|
                    0 <= a < b < kept@.len() ==> #[trigger] origin[a] != #[trigger] origin[b],
                forall|i: int|
                    rest@.len() <= i < before.len() ==> (before[i].owners@.to_set() != set![sid]
                        <==> exists|k: int| 0 <= k < kept@.len() && #[trigger] origin[k] == i),
                forall|mr: MemoryRegion|
                    gone@.contains(mr) <==> exists|i: int|
                        rest@.len() <= i < before.len() && (#[trigger] before[i]).mr == mr
                            && before[i].owners@.to_set() == set![sid],
            decreases rest@.len(),
        {
            let ghost n = rest@.len() - 1;
            let entry = match rest.pop() {
                Some(e) => e,
                None => {
                    proof {
                        assert(false);
                    }
                    return gone;
                },
            };
            assert(entry == before[n]);
            assert(rest@ =~= before.take(n));
            let Entry { mr, owners } = entry;
            let remaining = without(&owners, sid);
            proof {
                assert(owners@.to_set().contains(owners@[0]));
                assert(remaining@.len() == 0 <==> owners@.to_set() == set![sid]) by {
                    if remaining@.len() == 0 {
                        assert(remaining@.to_set() =~= Set::<u64>::empty());
                        assert(owners@.to_set() =~= set![sid]) by {
                            assert forall|x: u64| owners@.to_set().contains(x) implies x == sid by {
                                if x != sid {
                                    assert(owners@.to_set().remove(sid).contains(x));
                                }
                            }
                        }
                    } else {
                        assert(remaining@.to_set().contains(remaining@[0]));
                        assert(owners@.to_set().contains(remaining@[0]) && remaining@[0] != sid);
                    }
                }
            }
            if remaining.len() == 0 {
                let ghost gone_before = gone@;
                gone.push(mr);
                proof {
                    assert forall|m: MemoryRegion| gone@.contains(m) <==> exists|i: int|
                        n <= i < before.len() && (#[trigger] before[i]).mr == m
                            && before[i].owners@.to_set() == set![sid] by {
                        if gone@.contains(m) {
                            let k = choose|k: int| 0 <= k < gone@.len() && gone@[k] == m;
                            if k < gone_before.len() {
                                assert(gone_before[k] == m);
                                assert(gone_before.contains(m));
                            } else {
                                assert(before[n].mr == m);
                            }
                        }
                        if exists|i: int|
                            n <= i < before.len() && (#[trigger] before[i]).mr == m
                                && before[i].owners@.to_set() == set![sid] {
                            let i = choose|i: int|
                                n <= i < before.len() && (#[trigger] before[i]).mr == m
                                    && before[i].owners@.to_set() == set![sid];
                            if i == n {
                                assert(gone@[gone_before.len() as int] == m);
                            } else {
                                assert(gone_before.contains(m));
                                let k = choose|k: int|
                                    0 <= k < gone_before.len() && gone_before[k] == m;
                                assert(gone@[k] == m);
                            }
                        }
                    }
                    assert forall|i: int| n <= i < before.len() implies (before[i].owners@.to_set()
                        != set![sid] <==> exists|k: int|
                        0 <= k < kept@.len() && #[trigger] origin[k] == i) by {
                        if i == n {
                            if exists|k: int| 0 <= k < kept@.len() && #[trigger] origin[k] == i {
                                let k = choose|k: int|
                                    0 <= k < kept@.len() && #[trigger] origin[k] == i;
                                assert(n + 1 <= origin[k]);
                            }
                        }
                    }
                }
            } else {
                let ghost kept_before = kept@;
                let ghost origin_before = origin;
                kept.push(Entry { mr, owners: remaining });
                proof {
                    origin = origin.push(n);
                    assert forall|i: int| n <= i < before.len() implies (before[i].owners@.to_set()
                        != set![sid] <==> exists|k: int|
                        0 <= k < kept@.len() && #[trigger] origin[k] == i) by {
                        if i == n {
                            assert(origin[kept_before.len() as int] == n);
                        } else {
                            if before[i].owners@.to_set() != set![sid] {
                                let k = choose|k: int|
                                    0 <= k < kept_before.len() && #[trigger] origin_before[k] == i;
                                assert(origin[k] == i);
                            }
                            if exists|k: int| 0 <= k < kept@.len() && #[trigger] origin[k] == i {
                                let k = choose|k: int|
                                    0 <= k < kept@.len() && #[trigger] origin[k] == i;
                                assert(k < kept_before.len());
                                assert(origin_before[k] == i);
                            }
                        }
                    }
                    assert forall|m: MemoryRegion| gone@.contains(m) <==> exists|i: int|
                        n <= i < before.len() && (#[trigger] before[i]).mr == m
                            && before[i].owners@.to_set() == set![sid] by {
                        if exists|i: int|
                            n <= i < before.len() && (#[trigger] before[i]).mr == m
                                && before[i].owners@.to_set() == set![sid] {
                            let i = choose|i: int|
                                n <= i < before.len() && (#[trigger] before[i]).mr == m
                                    && before[i].owners@.to_set() == set![sid];
                            assert(i != n);
                        }
                    }
                }
            }
        }
        self.entries = kept;
        proof {
            let after = self.entries@;
            assert forall|i: int, j: int| 0 <= i < j < after.len() implies after[i].mr.handle
                != after[j].mr.handle by {
                assert(origin[i] != origin[j]);
                if origin[i] < origin[j] {
                    assert(before[origin[i]].mr.handle != before[origin[j]].mr.handle);
                } else {
                    assert(before[origin[j]].mr.handle != before[origin[i]].mr.handle);
                }
            }
            assert forall|i: int| 0 <= i < after.len() implies (#[trigger] after[i]).owners@.len()
                > 0 by {
                assert(rest@.len() <= origin[i]);
            }
            assert forall|h: Handle|
                self.handles().contains(h) <==> old(self).handles().contains(h) && old(
                    self,
                ).owners(h) != set![sid] by {
                if self.handles().contains(h) {
                    let k = index_of(after, h);
                    assert(before[origin[k]].mr.handle == h);
                    assert(index_of(before, h) == origin[k]);
                    assert(exists|k2: int| 0 <= k2 < kept@.len() && #[trigger] origin[k2] == origin[k]);
                }
                if old(self).handles().contains(h) && old(self).owners(h) != set![sid] {
                    let i = index_of(before, h);
                    let k = choose|k: int| 0 <= k < kept@.len() && #[trigger] origin[k] == i;
                    assert(after[k].mr.handle == h);
                }
            }
            assert forall|h: Handle| #[trigger] self.handles().contains(h) implies self.region(h)
                == old(self).region(h) && self.owners(h) == old(self).owners(h).remove(sid) by {
                let k = index_of(after, h);
                assert(before[origin[k]].mr.handle == h);
                assert(index_of(before, h) == origin[k]);
            }
            assert forall|mr: MemoryRegion|
                gone@.contains(mr) <==> old(self).handles().contains(mr.as_handle_spec()) && old(
                    self,
                ).region(mr.as_handle_spec()) == mr && old(self).owners(mr.as_handle_spec())
                    == set![sid] by {
                if gone@.contains(mr) {
                    let i = choose|i: int|
                        0 <= i < before.len() && (#[trigger] before[i]).mr == mr
                            && before[i].owners@.to_set() == set![sid];
                    assert(before[i].mr.handle == mr.handle);
                    assert(index_of(before, mr.handle) == i);
                }
                if old(self).handles().contains(mr.as_handle_spec()) && old(self).region(
                    mr.as_handle_spec(),
                ) == mr && old(self).owners(mr.as_handle_spec()) == set![sid] {
                    let i = index_of(before, mr.handle);
                    assert(before[i].mr == mr);
                }
            }
        }
        gone
    }
}

/// Whether `sid` is among `owners`.
fn holds(owners: &Vec<u64>, sid: u64) -> (b: bool)
    ensures
        b == owners@.contains(sid),
        b == owners@.to_set().contains(sid),
{
    let mut i: usize = 0;
    while i < owners.len()
        invariant
            i <= owners.len(),
            forall|k: int| 0 <= k < i ==> owners@[k] != sid,
        decreases owners.len() - i,
    {
        if owners[i] == sid {
            return true;
        }
        i += 1;
    }
    false
}

/// `owners` without `sid`.
fn without(owners: &Vec<u64>, sid: u64) -> (rest: Vec<u64>)
    ensures
        rest@.to_set() == owners@.to_set().remove(sid),
{
    let mut rest: Vec<u64> = Vec::new();
    let mut i: usize = 0;
    while i < owners.len()
        invariant
            i <= owners.len(),
            forall|x: u64| rest@.contains(x) <==> owners@.take(i as int).contains(x) && x != sid,
        decreases owners.len() - i,
    {
        let ghost rest_before = rest@;
        if owners[i] != sid {
            rest.push(owners[i]);
        }
        proof {
            let t0 = owners@.take(i as int);
            let t1 = owners@.take(i + 1);
            assert(t1 =~= t0.push(owners@[i as int]));
            assert forall|x: u64| #[trigger] rest@.contains(x) <==> t1.contains(x) && x != sid by {
                assert(rest_before.contains(x) <==> t0.contains(x) && x != sid);
                if rest@.contains(x) {
                    let k = choose|k: int| 0 <= k < rest@.len() && rest@[k] == x;
                    if k < rest_before.len() {
                        assert(rest_before[k] == x);
                        assert(rest_before.contains(x));
                        let j = choose|j: int| 0 <= j < t0.len() && t0[j] == x;
                        assert(t1[j] == x);
                    } else {
                        assert(t1[i as int] == x);
                    }
                }
                if t1.contains(x) && x != sid {
                    let j = choose|j: int| 0 <= j < t1.len() && t1[j] == x;
                    if j < i {
                        assert(t0[j] == x);
                        assert(t0.contains(x));
                        assert(rest_before.contains(x));
                        let k = choose|k: int| 0 <= k < rest_before.len() && rest_before[k] == x;
                        assert(rest@[k] == x);
                    } else {
                        assert(rest@[rest_before.len() as int] == x);
                    }
                }
            }
        }
        i += 1;
    }
    proof {
        assert(owners@.take(owners@.len() as int) =~= owners@);
        assert(rest@.to_set() =~= owners@.to_set().remove(sid));
    }
    rest
}

} // verus!
