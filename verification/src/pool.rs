//! The pool itself.

use vstd::prelude::*;
use crate::history::Step;
use crate::lease::MyPooledConn;
use crate::view::{Decision, Entry, PoolView};

verus! {

/// The entries of a row of pooled connections.
pub open spec fn entries<C>(row: Seq<MyPooledConn<C>>) -> Seq<Entry<C>> {
    Seq::new(row.len(), |i: int| row[i]@)
}

/// The connection that an answer of `get_conn` lends out, if it lends one out.
pub open spec fn lent<C, E>(r: Result<Option<MyPooledConn<C>>, E>) -> Option<Entry<C>> {
    match r {
        Ok(Some(lease)) => Some(lease@),
        _ => None,
    }
}

/// The step that a call of `get_conn` with the answer `r` adds to the pool's
/// history.
pub open spec fn request<C, E>(r: Result<Option<MyPooledConn<C>>, E>) -> Step<C> {
    Step::Request(
        match r {
            Ok(Some(lease)) => Some(lease@.conn),
            _ => None,
        },
    )
}

/// A bounded pool of connections of type `C`, made from options of type `O`.
///
/// The pool keeps count of the connections it has created and holds those
/// that are not lent out. It never creates more than its capacity.
pub struct MyPool<C, O> {
    opts: O,
    pool: Vec<MyPooledConn<C>>,
    cap: usize,
    count: usize,
}

impl<C, O> View for MyPool<C, O> {
    type V = PoolView<C>;

    closed spec fn view(&self) -> PoolView<C> {
        PoolView { cap: self.cap as nat, created: self.count as nat, idle: entries(self.pool@) }
    }
}

impl<C, O> MyPool<C, O> {
    /// Every pool keeps consistent books.
    #[verifier::type_invariant]
    pub open spec fn inv(&self) -> bool {
        self@.wf()
    }

    /// The options from which this pool's connections are made.
    pub closed spec fn options(&self) -> O {
        self.opts
    }

    /// An empty pool that will create at most `cap` connections from `opts`.
    ///
    /// A capacity of zero is accepted: such a pool answers every request with
    /// "wait".
    pub fn new(cap: usize, opts: O) -> (pool: Self)
        ensures
            pool@ == PoolView::<C>::init(cap as nat),
            pool@.wf(),
            pool.options() == opts,
    {
        MyPool { opts, pool: Vec::new(), cap, count: 0 }
    }

    /// Books a connection that the factory was asked for, or passes its
    /// failure on.
    ///
    /// A new connection takes the next free slot and is lent out at once. A
    /// failure leaves the pool as it was: the slot can be filled later.
    pub fn new_conn<E>(&mut self, made: Result<C, E>) -> (r: Result<MyPooledConn<C>, E>)
        requires
            old(self)@.created < old(self)@.cap,
        ensures
            final(self)@.wf(),
            final(self).options() == old(self).options(),
            (match made {
                Ok(conn) => {
                    &&& r matches Ok(lease)
                    &&& lease@ == old(self)@.fresh(conn)
                    &&& final(self)@ == old(self)@.open()
                },
                Err(err) => r == Err::<MyPooledConn<C>, E>(err) && final(self)@ == old(self)@,
            }),
    {
        proof {
            use_type_invariant(&*self);
        }
        match made {
            Ok(conn) => {
                let lease = MyPooledConn::bind(self.count, conn);
                proof {
                    self@.lemma_open();
                }
                self.count += 1;
                Ok(lease)
            },
            Err(err) => Err(err),
        }
    }

    /// Answers one request for a connection.
    ///
    /// An idle connection is lent out if there is one, the one that came back
    /// last. Otherwise, below capacity, `factory` is called once with the
    /// pool's options: what it makes is lent out, and its failure is returned
    /// as it is, with the pool unchanged. At capacity the answer is
    /// `Ok(None)`: the caller has to wait until a connection comes back and
    /// ask again.
    pub fn get_conn<E, F>(&mut self, factory: F) -> (r: Result<Option<MyPooledConn<C>>, E>) where
        F: FnOnce(&O) -> Result<C, E>,

        requires
            call_requires(factory, (&old(self).options(),)),
        ensures
            final(self)@.wf(),
            final(self).options() == old(self).options(),
            (match old(self)@.decide() {
                Decision::Reuse => {
                    &&& r matches Ok(Some(lease))
                    &&& lease@ == old(self)@.idle.last()
                    &&& final(self)@ == old(self)@.take()
                },
                Decision::Create => match r {
                    Ok(Some(lease)) => {
                        &&& call_ensures(factory, (&old(self).options(),), Ok(lease@.conn))
                        &&& lease@ == old(self)@.fresh(lease@.conn)
                        &&& final(self)@ == old(self)@.open()
                    },
                    Ok(None) => false,
                    Err(err) => {
                        &&& call_ensures(factory, (&old(self).options(),), Err(err))
                        &&& final(self)@ == old(self)@
                    },
                },
                Decision::Wait => r == Ok::<Option<MyPooledConn<C>>, E>(None) && final(self)@ == old(
                    self,
                )@,
            }),
            final(self)@ == old(self)@.after(request(r)),
            lent(r) == old(self)@.issue(request(r)),
    {
        proof {
            use_type_invariant(&*self);
        }
        if self.pool.is_empty() {
            if self.count < self.cap {
                let made = factory(&self.opts);
                match self.new_conn(made) {
                    Ok(lease) => Ok(Some(lease)),
                    Err(err) => Err(err),
                }
            } else {
                Ok(None)
            }
        } else {
            // The row is taken out while it changes and put back afterwards,
            // so that the pool's books are consistent at every point.
            let mut idle: Vec<MyPooledConn<C>> = Vec::new();
            std::mem::swap(&mut idle, &mut self.pool);
            let ghost before = idle@;
            let lease = idle.pop().unwrap();
            proof {
                old(self)@.lemma_take();
                assert(entries(idle@) =~= entries(before).drop_last());
            }
            self.pool = idle;
            Ok(Some(lease))
        }
    }

    /// Takes back a connection that this pool has lent out.
    ///
    /// It becomes the idle connection that is lent out next. Whoever shares
    /// the pool wakes one waiting caller afterwards.
    pub fn put_back(&mut self, lease: MyPooledConn<C>)
        requires
            old(self)@.is_leased(lease@.slot),
        ensures
            final(self)@.wf(),
            final(self).options() == old(self).options(),
            final(self)@ == old(self)@.put_back(lease@),
            final(self)@ == old(self)@.after(Step::Return(lease@)),
    {
        proof {
            use_type_invariant(&*self);
        }
        let mut idle: Vec<MyPooledConn<C>> = Vec::new();
        std::mem::swap(&mut idle, &mut self.pool);
        let ghost before = idle@;
        idle.push(lease);
        proof {
            old(self)@.lemma_put_back(lease@);
            assert(entries(idle@) =~= entries(before).push(lease@));
        }
        self.pool = idle;
    }

    /// Closes the pool and gives up its idle connections, the one that came
    /// back last first. Connections that are lent out stay with their holders.
    pub fn close(self) -> (conns: Vec<C>)
        ensures
            conns@ == self@.closing(),
    {
        let mut idle = self.pool;
        let mut conns: Vec<C> = Vec::new();
        let ghost all = entries(idle@);
        loop
            invariant
                entries(idle@).len() + conns@.len() == all.len(),
                forall|i: int| 0 <= i < idle@.len() ==> (#[trigger] idle@[i])@ == all[i],
                forall|k: int|
                    0 <= k < conns@.len() ==> (#[trigger] conns@[k]) == all[all.len() - 1 - k].conn,
            ensures
                conns@.len() == all.len(),
            decreases idle@.len(),
        {
            match idle.pop() {
                Some(lease) => {
                    let (_, conn) = lease.unbind();
                    conns.push(conn);
                },
                None => {
                    break ;
                },
            }
        }
        assert(conns@ =~= self@.closing());
        conns
    }

    /// The most connections this pool will ever create.
    pub fn cap(&self) -> (cap: usize)
        ensures
            cap == self@.cap,
    {
        self.cap
    }

    /// How many connections this pool has created so far.
    pub fn count(&self) -> (count: usize)
        ensures
            count == self@.created,
            count <= self@.cap,
    {
        proof {
            use_type_invariant(self);
        }
        self.count
    }

    /// How many connections wait in the pool.
    pub fn idle_count(&self) -> (idle: usize)
        ensures
            idle == self@.idle.len(),
    {
        self.pool.len()
    }

    /// How many connections are lent out.
    pub fn leased_count(&self) -> (leased: usize)
        ensures
            leased == self@.leased().len(),
            leased + self@.idle.len() == self@.created,
    {
        proof {
            use_type_invariant(self);
            self@.lemma_count();
        }
        self.count - self.pool.len()
    }

    /// The options from which this pool's connections are made.
    pub fn opts(&self) -> (opts: &O)
        ensures
            *opts == self.options(),
    {
        &self.opts
    }

    /// Whether the connection of `slot` is lent out: created and not idle.
    pub fn is_leased(&self, slot: usize) -> (leased: bool)
        ensures
            leased == self@.is_leased(slot as nat),
    {
        if slot >= self.count {
            return false;
        }
        let mut i: usize = 0;
        while i < self.pool.len()
            invariant
                i <= self.pool@.len(),
                forall|k: int| 0 <= k < i ==> (#[trigger] self@.idle[k]).slot != slot,
            decreases self.pool@.len() - i,
        {
            if self.pool[i].slot() == slot {
                assert(self@.idle[i as int].slot == slot);
                return false;
            }
            i += 1;
        }
        true
    }
}

} // verus!
