//! Histories: what a pool's books become over a run of requests and returns.
//!
//! Callers that share a pool take turns at it, so whatever they do
//! concurrently reaches the pool as one row of steps.

use vstd::prelude::*;
use crate::view::{Decision, Entry, PoolView};

verus! {

/// One turn at the pool.
pub enum Step<C> {
    /// A request for a connection, with what the factory makes if the pool
    /// asks it: a connection, or nothing where it fails.
    Request(Option<C>),
    /// The return of a connection.
    Return(Entry<C>),
}

/// The slots that holders have in hand after `step`, where they had `hands`
/// before it and the step lent out `lent`.
pub open spec fn in_hand_after<C>(hands: Set<nat>, step: Step<C>, lent: Option<Entry<C>>) -> Set<nat> {
    match step {
        Step::Request(made) => match lent {
            Some(e) => hands.insert(e.slot),
            None => hands,
        },
        Step::Return(entry) => hands.remove(entry.slot),
    }
}

impl<C> PoolView<C> {
    /// The connection that `step` lends out, if it lends one out.
    pub open spec fn issue(self, step: Step<C>) -> Option<Entry<C>> {
        match step {
            Step::Request(made) => match self.decide() {
                Decision::Reuse => Some(self.idle.last()),
                Decision::Create => match made {
                    Some(conn) => Some(self.fresh(conn)),
                    None => None,
                },
                Decision::Wait => None,
            },
            Step::Return(entry) => None,
        }
    }

    /// The books after `step`.
    pub open spec fn after(self, step: Step<C>) -> Self {
        match step {
            Step::Request(made) => match self.decide() {
                Decision::Reuse => self.take(),
                Decision::Create => match made {
                    Some(conn) => self.open(),
                    None => self,
                },
                Decision::Wait => self,
            },
            Step::Return(entry) => self.put_back(entry),
        }
    }

    /// The books after all of `steps`, taken in order.
    pub open spec fn run(self, steps: Seq<Step<C>>) -> Self
        decreases steps.len(),
    {
        if steps.len() == 0 {
            self
        } else {
            self.run(steps.drop_last()).after(steps.last())
        }
    }

    /// The slots that holders have in hand after `steps`: those lent out at
    /// the start or by a request since, less those returned.
    pub open spec fn held(self, steps: Seq<Step<C>>) -> Set<nat>
        decreases steps.len(),
    {
        if steps.len() == 0 {
            self.leased()
        } else {
            in_hand_after(
                self.held(steps.drop_last()),
                steps.last(),
                self.run(steps.drop_last()).issue(steps.last()),
            )
        }
    }

    /// Every return in `steps` gives back a connection that a holder has in
    /// hand at that moment.
    pub open spec fn orderly(self, steps: Seq<Step<C>>) -> bool
        decreases steps.len(),
    {
        steps.len() == 0 || {
            &&& self.orderly(steps.drop_last())
            &&& steps.last() matches Step::Return(entry) ==> self.held(
                steps.drop_last(),
            ).contains(entry.slot)
        }
    }
}

} // verus!
