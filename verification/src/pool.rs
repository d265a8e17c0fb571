//! The connection-pool discipline: a counter of issued-but-not-released
//! daemon connections, capped at a limit. Connections are never reused;
//! the caller opens a fresh socket per grant and reports the release. The
//! waiting itself is the caller's affair: on a refusal it waits for a
//! release and asks again.

use vstd::prelude::*;

verus! {

/// The state of the connection pool: how many connections are out, and how
/// many may be out at once.
pub struct ConnectionPool {
    size: usize,
    limit: usize,
}

impl ConnectionPool {
    pub closed spec fn size(&self) -> int {
        self.size as int
    }

    pub closed spec fn limit(&self) -> int {
        self.limit as int
    }

    /// Never more connections out than the limit allows.
    pub open spec fn wf(&self) -> bool {
        0 <= self.size() <= self.limit()
    }

    /// A new pool with no connections out.
    pub fn new(limit: usize) -> (r: Self)
        ensures
            r.wf(),
            r.size() == 0,
            r.limit() == limit,
    {
        ConnectionPool { size: 0, limit }
    }

    /// Ask for a connection slot: granted exactly when a slot is free, and
    /// a grant takes the slot.
    pub fn try_acquire(&mut self) -> (granted: bool)
        requires
            old(self).wf(),
        ensures
            final(self).wf(),
            final(self).limit() == old(self).limit(),
            granted == (old(self).size() < old(self).limit()),
            final(self).size() == if granted {
                old(self).size() + 1
            } else {
                old(self).size()
            },
    {
        if self.size < self.limit {
            self.size = self.size + 1;
            true
        } else {
            false
        }
    }

    /// Report a released connection: frees exactly one slot; a stray
    /// release with nothing out changes nothing.
    pub fn release(&mut self)
        requires
            old(self).wf(),
        ensures
            final(self).wf(),
            final(self).limit() == old(self).limit(),
            final(self).size() == if old(self).size() > 0 {
                old(self).size() - 1
            } else {
                0
            },
    {
        if self.size > 0 {
            self.size = self.size - 1;
        }
    }
}

} // verus!
