//! Identifiers that the daemon mints: subscription ids, engine ids and
//! handles. An identifier is handed out once in the daemon's lifetime.

use vstd::prelude::*;

verus! {

/// A source of identifiers that never gives the same one twice.
pub struct IdMint {
    next: u64,
}

impl IdMint {
    /// The identifiers handed out so far.
    pub closed spec fn issued(&self) -> Set<u64> {
        Set::new(|id: u64| id < self.next)
    }

    /// The identifier that is handed out next, unless the source is
    /// exhausted.
    pub closed spec fn peek(&self) -> u64 {
        self.next
    }

    /// A source that has handed out nothing.
    pub fn new() -> (m: IdMint)
        ensures
            m.issued() == Set::<u64>::empty(),
            m.peek() == 0,
    {
        let m = IdMint { next: 0 };
        assert(m.issued() =~= Set::<u64>::empty());
        m
    }

    /// Number of identifiers handed out so far.
    pub fn count(&self) -> (n: u64)
        ensures
            n == self.peek(),
            forall|id: u64| self.issued().contains(id) <==> id < n,
    {
        self.next
    }

    /// Hands out an identifier that was never handed out before. Each is
    /// larger than the ones before it. When all but the largest number have
    /// been handed out, the source is exhausted and hands out nothing.
    pub fn mint(&mut self) -> (res: Option<u64>)
        ensures
            match res {
                Some(id) => {
                    &&& id == old(self).peek()
                    &&& final(self).peek() == id + 1
                    &&& !old(self).issued().contains(id)
                    &&& forall|earlier: u64| old(self).issued().contains(earlier) ==> earlier < id
                    &&& final(self).issued() == old(self).issued().insert(id)
                },
                None => {
                    &&& old(self).peek() == u64::MAX
                    &&& final(self).peek() == old(self).peek()
                    &&& final(self).issued() == old(self).issued()
                    &&& forall|id: u64| id < u64::MAX ==> old(self).issued().contains(id)
                },
            },
    {
        if self.next == u64::MAX {
            return None;
        }
        let id = self.next;
        self.next = self.next + 1;
        assert(self.issued() =~= old(self).issued().insert(id));
        Some(id)
    }
}

} // verus!
