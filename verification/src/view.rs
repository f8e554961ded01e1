//! The mathematical picture of a pool, on which every contract is stated.

use vstd::prelude::*;

verus! {

/// One pooled connection as the books see it.
pub struct Entry<C> {
    /// The slot this connection fills: connections are numbered in the order
    /// in which the pool created them, starting at zero.
    pub slot: nat,
    /// The connection itself.
    pub conn: C,
}

/// What a pool does with a request for a connection.
pub enum Decision {
    /// An idle connection is there: lend it out.
    Reuse,
    /// Nothing is idle and the capacity is not used up: create a connection.
    Create,
    /// Nothing is idle and the capacity is used up: the caller has to wait
    /// until a connection comes back.
    Wait,
}

/// The slots below `n`: those of the first `n` connections that a pool creates.
pub open spec fn below(n: nat) -> Set<nat> {
    Set::new(|slot: nat| slot < n)
}

/// There are `n` slots below `n`.
pub proof fn lemma_below(n: nat)
    ensures
        below(n).finite(),
        below(n).len() == n,
    decreases n,
{
    if n == 0 {
        assert(below(0) =~= Set::<nat>::empty());
    } else {
        let m = (n - 1) as nat;
        lemma_below(m);
        assert(below(n) =~= below(m).insert(m));
    }
}

/// The books of a pool.
#[verifier::ext_equal]
pub struct PoolView<C> {
    /// The most connections the pool will ever create.
    pub cap: nat,
    /// How many connections the pool has created so far.
    pub created: nat,
    /// The connections that wait in the pool, in the order in which they came
    /// back. The last one is lent out next.
    pub idle: Seq<Entry<C>>,
}

impl<C> PoolView<C> {
    /// A pool that has created nothing yet.
    pub open spec fn init(cap: nat) -> Self {
        PoolView { cap, created: 0, idle: Seq::empty() }
    }

    /// The connection of `slot` waits in the pool.
    pub open spec fn is_idle(self, slot: nat) -> bool {
        exists|i: int|
            #![trigger self.idle[i]]
            0 <= i < self.idle.len() && self.idle[i].slot == slot
    }

    /// The connection of `slot` exists and is lent out.
    pub open spec fn is_leased(self, slot: nat) -> bool {
        slot < self.created && !self.is_idle(slot)
    }

    /// The slots whose connections are lent out.
    pub open spec fn leased(self) -> Set<nat> {
        Set::new(|slot: nat| self.is_leased(slot))
    }

    /// The books are consistent: no more connections than the capacity, and
    /// every idle entry is a connection that was created, entered once.
    pub open spec fn wf(self) -> bool {
        &&& self.created <= self.cap
        &&& forall|i: int|
            #![trigger self.idle[i]]
            0 <= i < self.idle.len() ==> self.idle[i].slot < self.created
        &&& forall|i: int, j: int|
            #![trigger self.idle[i], self.idle[j]]
            0 <= i < j < self.idle.len() ==> self.idle[i].slot != self.idle[j].slot
    }

    /// What the pool does with the next request.
    pub open spec fn decide(self) -> Decision {
        if self.idle.len() > 0 {
            Decision::Reuse
        } else if self.created < self.cap {
            Decision::Create
        } else {
            Decision::Wait
        }
    }

    /// The books after the idle connection that came back last was lent out.
    pub open spec fn take(self) -> Self {
        PoolView { idle: self.idle.drop_last(), ..self }
    }

    /// The entry of the connection that is created next.
    pub open spec fn fresh(self, conn: C) -> Entry<C> {
        Entry { slot: self.created, conn }
    }

    /// The books after one more connection was created and lent out at once.
    pub open spec fn open(self) -> Self {
        PoolView { created: self.created + 1, ..self }
    }

    /// The books after the connection `e` came back.
    pub open spec fn put_back(self, e: Entry<C>) -> Self {
        PoolView { idle: self.idle.push(e), ..self }
    }

    /// Lending out the idle connection that came back last keeps the books
    /// consistent and makes its slot, which was not lent out, a lent-out one.
    pub proof fn lemma_take(self)
        requires
            self.wf(),
            self.idle.len() > 0,
        ensures
            self.take().wf(),
            !self.is_leased(self.idle.last().slot),
            !self.take().is_idle(self.idle.last().slot),
            self.take().leased() == self.leased().insert(self.idle.last().slot),
    {
        let t = self.take();
        let n = t.idle.len() as int;
        let e = self.idle.last();
        assert(self.idle[n] == e);
        assert forall|i: int| 0 <= i < t.idle.len() implies t.idle[i] == self.idle[i] by {}
        assert(!t.is_idle(e.slot)) by {
            if t.is_idle(e.slot) {
                let i = choose|i: int| 0 <= i < t.idle.len() && (#[trigger] t.idle[i]).slot == e.slot;
                assert(t.idle[i] == self.idle[i]);
            }
        }
        assert forall|slot: nat| t.is_leased(slot) <==> (self.is_leased(slot) || slot
            == e.slot) by {
            if self.is_idle(slot) && slot != e.slot {
                let i = choose|i: int|
                    0 <= i < self.idle.len() && (#[trigger] self.idle[i]).slot == slot;
                assert(t.idle[i] == self.idle[i]);
            }
            if t.is_idle(slot) {
                let i = choose|i: int| 0 <= i < t.idle.len() && (#[trigger] t.idle[i]).slot == slot;
                assert(t.idle[i] == self.idle[i]);
            }
        }
        assert(t.leased() =~= self.leased().insert(e.slot));
    }

    /// Creating a connection below capacity keeps the books consistent and
    /// makes the next slot, which was not lent out, a lent-out one.
    pub proof fn lemma_open(self)
        requires
            self.wf(),
            self.created < self.cap,
        ensures
            self.open().wf(),
            !self.is_leased(self.created),
            !self.open().is_idle(self.created),
            self.open().leased() == self.leased().insert(self.created),
    {
        let t = self.open();
        assert(!t.is_idle(self.created)) by {
            if t.is_idle(self.created) {
                let i = choose|i: int|
                    0 <= i < t.idle.len() && (#[trigger] t.idle[i]).slot == self.created;
                assert(self.idle[i].slot < self.created);
            }
        }
        assert forall|slot: nat| t.is_leased(slot) <==> (self.is_leased(slot) || slot
            == self.created) by {
            if self.is_idle(slot) {
                let i = choose|i: int|
                    0 <= i < self.idle.len() && (#[trigger] self.idle[i]).slot == slot;
                assert(t.idle[i].slot == slot);
            }
            if t.is_idle(slot) {
                let i = choose|i: int| 0 <= i < t.idle.len() && (#[trigger] t.idle[i]).slot == slot;
                assert(self.idle[i].slot == slot);
            }
        }
        assert(t.leased() =~= self.leased().insert(self.created));
    }

    /// Taking back a connection that is lent out keeps the books consistent
    /// and makes its slot an idle one.
    pub proof fn lemma_put_back(self, e: Entry<C>)
        requires
            self.wf(),
            self.is_leased(e.slot),
        ensures
            self.put_back(e).wf(),
            self.put_back(e).is_idle(e.slot),
            self.put_back(e).leased() == self.leased().remove(e.slot),
    {
        let t = self.put_back(e);
        let n = self.idle.len() as int;
        assert(t.idle[n] == e);
        assert forall|i: int| 0 <= i < n implies t.idle[i] == self.idle[i] by {}
        assert forall|slot: nat| t.is_leased(slot) <==> (self.is_leased(slot) && slot
            != e.slot) by {
            if self.is_idle(slot) {
                let i = choose|i: int|
                    0 <= i < self.idle.len() && (#[trigger] self.idle[i]).slot == slot;
                assert(t.idle[i] == self.idle[i]);
            }
            if t.is_idle(slot) && slot != e.slot {
                let i = choose|i: int| 0 <= i < t.idle.len() && (#[trigger] t.idle[i]).slot == slot;
                assert(t.idle[i] == self.idle[i]);
            }
        }
        assert(t.leased() =~= self.leased().remove(e.slot));
    }

    /// Every connection that was created is either idle or lent out: the two
    /// numbers add up to the number created.
    pub proof fn lemma_count(self)
        requires
            self.wf(),
        ensures
            self.leased().finite(),
            self.leased().len() + self.idle.len() == self.created,
        decreases self.idle.len(),
    {
        if self.idle.len() == 0 {
            lemma_below(self.created);
            assert(self.leased() =~= below(self.created));
        } else {
            let t = self.take();
            self.lemma_take();
            t.lemma_count();
            assert(self.leased() =~= t.leased().remove(self.idle.last().slot));
        }
    }

    /// The idle connections in the order in which a pool that is closed gives
    /// them up: the one that came back last goes first.
    pub open spec fn closing(self) -> Seq<C> {
        Seq::new(self.idle.len(), |i: int| self.idle[self.idle.len() - 1 - i].conn)
    }
}

} // verus!
