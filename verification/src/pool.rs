//! The connection pool: a fixed number of handles to one database, each
//! held by one user at a time.

use vstd::prelude::*;

verus! {

/// The number of handles of a pool, where nothing else is asked for.
pub const DEFAULT_POOL_SIZE: usize = 64;

/// A handle taken from a pool. It cannot be copied: whoever holds it is
/// the only one to use the connection with its index until it is given
/// back.
pub struct PooledConnection {
    index: usize,
}

impl PooledConnection {
    /// The index of the connection that this handle stands for.
    pub closed spec fn spec_index(&self) -> usize {
        self.index
    }

    /// The index of the connection that this handle stands for.
    pub fn index(&self) -> (r: usize)
        ensures
            r == self.spec_index(),
    {
        self.index
    }
}

/// A pool of handles to the connections of one database.
pub struct ConnPool {
    busy: Vec<bool>,
}

impl ConnPool {
    /// The number of handles.
    pub closed spec fn capacity(&self) -> nat {
        self.busy@.len()
    }

    /// Whether the handle with index `i` is in the pool.
    pub closed spec fn is_free(&self, i: int) -> bool {
        0 <= i < self.busy@.len() && !self.busy@[i]
    }

    /// A pool of `capacity` handles, all of them free.
    pub fn open(capacity: usize) -> (p: ConnPool)
        ensures
            p.capacity() == capacity,
            forall|i: int| 0 <= i < capacity ==> p.is_free(i),
    {
        let mut busy: Vec<bool> = Vec::new();
        let mut i: usize = 0;
        while i < capacity
            invariant
                i <= capacity,
                busy@.len() == i,
                forall|j: int| 0 <= j < i ==> !busy@[j],
            decreases capacity - i,
        {
            busy.push(false);
            i += 1;
        }
        ConnPool { busy }
    }

    /// Takes the free handle with the lowest index out of the pool. `None`
    /// where every handle is held: the caller waits until one is given
    /// back.
    pub fn get_conn(&mut self) -> (r: Option<PooledConnection>)
        ensures
            final(self).capacity() == old(self).capacity(),
            match r {
                Some(c) => {
                    &&& old(self).is_free(c.spec_index() as int)
                    &&& !final(self).is_free(c.spec_index() as int)
                    &&& forall|i: int| 0 <= i < c.spec_index() ==> !old(self).is_free(i)
                    &&& forall|i: int|
                        i != c.spec_index() ==> final(self).is_free(i) == old(self).is_free(i)
                },
                None => {
                    &&& forall|i: int| !old(self).is_free(i)
                    &&& forall|i: int| final(self).is_free(i) == old(self).is_free(i)
                },
            },
    {
        let mut i: usize = 0;
        while i < self.busy.len()
            invariant
                i <= self.busy.len(),
                self.busy@ == old(self).busy@,
                forall|j: int| 0 <= j < i ==> self.busy@[j],
            decreases self.busy.len() - i,
        {
            if !self.busy[i] {
                self.busy.set(i, true);
                return Some(PooledConnection { index: i });
            }
            i += 1;
        }
        None
    }

    /// Gives a handle back to the pool.
    pub fn release(&mut self, conn: PooledConnection)
        ensures
            final(self).capacity() == old(self).capacity(),
            conn.spec_index() < old(self).capacity() ==> final(self).is_free(
                conn.spec_index() as int,
            ),
            forall|i: int| i != conn.spec_index() ==> final(self).is_free(i) == old(self).is_free(i),
    {
        if conn.index < self.busy.len() {
            self.busy.set(conn.index, false);
        }
    }
}

} // verus!
