//! The connection as a holder sees it.

use vstd::prelude::*;
use crate::view::Entry;

verus! {

/// One connection of a pool together with the slot it fills.
///
/// A pool hands these out and takes them back; nothing else makes one. While a
/// holder has it, the connection is the holder's alone.
pub struct MyPooledConn<C> {
    slot: usize,
    conn: C,
}

impl<C> View for MyPooledConn<C> {
    type V = Entry<C>;

    closed spec fn view(&self) -> Entry<C> {
        Entry { slot: self.slot as nat, conn: self.conn }
    }
}

impl<C> MyPooledConn<C> {
    /// Binds a connection to its slot.
    pub(crate) fn bind(slot: usize, conn: C) -> (lease: Self)
        ensures
            lease@ == (Entry { slot: slot as nat, conn }),
    {
        MyPooledConn { slot, conn }
    }

    /// The slot that this connection fills in its pool.
    pub fn slot(&self) -> (slot: usize)
        ensures
            slot == self@.slot,
    {
        self.slot
    }

    /// The connection, to look at.
    pub fn conn(&self) -> (conn: &C)
        ensures
            *conn == self@.conn,
    {
        &self.conn
    }

    /// The connection, to work with. The slot stays what it is.
    pub fn conn_mut(&mut self) -> (conn: &mut C)
        ensures
            *conn == old(self)@.conn,
            final(self)@ == (Entry { slot: old(self)@.slot, conn: *final(conn) }),
    {
        &mut self.conn
    }

    /// Takes the lease apart.
    pub(crate) fn unbind(self) -> (parts: (usize, C))
        ensures
            parts.0 == self@.slot,
            parts.1 == self@.conn,
    {
        (self.slot, self.conn)
    }
}

} // verus!
