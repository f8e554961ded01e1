//! What holds of every pool, proved over its books.

use vstd::prelude::*;
use crate::history::{in_hand_after, Step};
use crate::view::{below, Decision, Entry, PoolView};

verus! {

/// A new pool keeps consistent books, with nothing idle and nothing lent out.
/// Its first request creates a connection, unless the capacity is zero.
pub proof fn lemma_new_pool<C>(cap: nat)
    ensures
        PoolView::<C>::init(cap).wf(),
        PoolView::<C>::init(cap).leased() == Set::<nat>::empty(),
        cap > 0 ==> PoolView::<C>::init(cap).decide() == Decision::Create,
        cap == 0 ==> PoolView::<C>::init(cap).decide() == Decision::Wait,
{
    assert(PoolView::<C>::init(cap).leased() =~= Set::<nat>::empty());
}

/// A pool of capacity zero never serves a connection: over any orderly
/// history it stays as it was made, and every request has to wait.
pub proof fn lemma_zero_capacity<C>(steps: Seq<Step<C>>)
    requires
        PoolView::<C>::init(0).orderly(steps),
    ensures
        PoolView::<C>::init(0).run(steps) == PoolView::<C>::init(0),
        PoolView::<C>::init(0).held(steps) == Set::<nat>::empty(),
        PoolView::<C>::init(0).run(steps).decide() == Decision::Wait,
    decreases steps.len(),
{
    lemma_new_pool::<C>(0);
    if steps.len() > 0 {
        lemma_zero_capacity(steps.drop_last());
    }
}

/// Every connection is in one place. One that was created is idle or lent
/// out and never both, an idle one is entered once, and a slot that no
/// connection fills yet is neither idle nor lent out.
pub proof fn lemma_one_place<C>(s: PoolView<C>, slot: nat)
    requires
        s.wf(),
    ensures
        slot < s.created ==> s.is_idle(slot) != s.is_leased(slot),
        slot >= s.created ==> !s.is_idle(slot) && !s.is_leased(slot),
        forall|i: int, j: int|
            #![trigger s.idle[i], s.idle[j]]
            0 <= i < s.idle.len() && 0 <= j < s.idle.len() && s.idle[i].slot == slot
                && s.idle[j].slot == slot ==> i == j,
{
    if s.is_idle(slot) {
        let i = choose|i: int| 0 <= i < s.idle.len() && (#[trigger] s.idle[i]).slot == slot;
        assert(s.idle[i].slot < s.created);
    }
    assert forall|i: int, j: int|
        #![trigger s.idle[i], s.idle[j]]
        0 <= i < s.idle.len() && 0 <= j < s.idle.len() && s.idle[i].slot == slot
            && s.idle[j].slot == slot implies i == j by {
        if i < j {
            assert(s.idle[i].slot != s.idle[j].slot);
        }
        if j < i {
            assert(s.idle[j].slot != s.idle[i].slot);
        }
    }
}

/// A connection is lent to one holder at a time: whatever a step lends out
/// was not lent out before it, and is lent out and not idle after it.
pub proof fn lemma_lent_to_one<C>(s: PoolView<C>, step: Step<C>, e: Entry<C>)
    requires
        s.wf(),
        s.issue(step) == Some(e),
    ensures
        !s.is_leased(e.slot),
        s.after(step).is_leased(e.slot),
        !s.after(step).is_idle(e.slot),
{
    lemma_step(s, step);
    assert(s.after(step).leased().contains(e.slot));
    match s.decide() {
        Decision::Reuse => s.lemma_take(),
        Decision::Create => s.lemma_open(),
        Decision::Wait => {},
    }
}

/// One step keeps the books consistent and changes the set of lent-out slots
/// by exactly what it lends out or takes back.
pub proof fn lemma_step<C>(s: PoolView<C>, step: Step<C>)
    requires
        s.wf(),
        step matches Step::Return(entry) ==> s.is_leased(entry.slot),
    ensures
        s.after(step).wf(),
        s.after(step).cap == s.cap,
        s.after(step).created >= s.created,
        s.after(step).leased() == in_hand_after(s.leased(), step, s.issue(step)),
{
    match step {
        Step::Request(made) => match s.decide() {
            Decision::Reuse => s.lemma_take(),
            Decision::Create => {
                if made is Some {
                    s.lemma_open();
                }
            },
            Decision::Wait => {},
        },
        Step::Return(entry) => s.lemma_put_back(entry),
    }
}

/// Over any orderly history the books stay consistent, the capacity stays
/// what it was, the number created never goes down, and the books agree with
/// the holders: the slots that the pool counts as lent out are those that
/// holders have in hand.
pub proof fn lemma_history<C>(s: PoolView<C>, steps: Seq<Step<C>>)
    requires
        s.wf(),
        s.orderly(steps),
    ensures
        s.run(steps).wf(),
        s.run(steps).cap == s.cap,
        s.run(steps).created >= s.created,
        s.held(steps) == s.run(steps).leased(),
    decreases steps.len(),
{
    if steps.len() > 0 {
        lemma_history(s, steps.drop_last());
        lemma_step(s.run(steps.drop_last()), steps.last());
    }
}

/// The capacity bounds the pool at every moment of every orderly history: the
/// connections that exist, idle and lent out together, are as many as were
/// created, and never more than the capacity.
pub proof fn lemma_capacity<C>(s: PoolView<C>, steps: Seq<Step<C>>)
    requires
        s.wf(),
        s.orderly(steps),
    ensures
        s.run(steps).leased().finite(),
        s.run(steps).leased().len() + s.run(steps).idle.len() == s.run(steps).created,
        s.run(steps).created <= s.cap,
{
    lemma_history(s, steps);
    s.run(steps).lemma_count();
}

/// No two holders have the same connection in hand: in an orderly history, a
/// step never lends out a slot that a holder has in hand.
pub proof fn lemma_never_shared<C>(s: PoolView<C>, steps: Seq<Step<C>>, step: Step<C>, e: Entry<C>)
    requires
        s.wf(),
        s.orderly(steps),
        s.run(steps).issue(step) == Some(e),
    ensures
        !s.held(steps).contains(e.slot),
        s.held(steps.push(step)).contains(e.slot),
{
    lemma_history(s, steps);
    lemma_lent_to_one(s.run(steps), step, e);
    assert(steps.push(step).drop_last() =~= steps);
}

/// A creation that fails leaves no trace: the books are what they were, so
/// the slot is not used up, and the next request asks the factory again and
/// gets the slot that the failed one would have got.
pub proof fn lemma_failure_leaves_no_trace<C>(s: PoolView<C>, conn: C)
    requires
        s.decide() == Decision::Create,
    ensures
        s.after(Step::Request(None)) == s,
        s.issue(Step::Request(None)) == None::<Entry<C>>,
        s.after(Step::Request(None)).decide() == Decision::Create,
        s.after(Step::Request(None)).issue(Step::Request(Some(conn))) == Some(
            s.fresh(conn),
        ),
        s.after(Step::Request(None)).after(Step::Request(Some(conn)))
            == s.open(),
{
}

/// A return puts exactly the returned connection back among the idle ones,
/// behind all that were there, and creates nothing. The slot is idle and no
/// longer lent out afterwards, so the same lease cannot be returned again.
pub proof fn lemma_return<C>(s: PoolView<C>, e: Entry<C>)
    requires
        s.wf(),
        s.is_leased(e.slot),
    ensures
        s.put_back(e).wf(),
        s.put_back(e).idle.len() == s.idle.len() + 1,
        s.put_back(e).idle.last() == e,
        s.put_back(e).idle.drop_last() == s.idle,
        s.put_back(e).created == s.created,
        s.put_back(e).is_idle(e.slot),
        !s.put_back(e).is_leased(e.slot),
        s.put_back(e).leased() == s.leased().remove(e.slot),
{
    s.lemma_put_back(e);
    assert(s.put_back(e).idle.drop_last() =~= s.idle);
}

/// A pool that tells a request to wait has lent out every connection it may
/// create. With a capacity of one or more, some holder then has a connection
/// whose return ends the wait.
pub proof fn lemma_wait_means_all_lent<C>(s: PoolView<C>)
    requires
        s.wf(),
        s.decide() == Decision::Wait,
    ensures
        s.idle.len() == 0,
        s.created == s.cap,
        s.leased() == below(s.cap),
        s.leased().len() == s.cap,
        forall|slot: nat| slot < s.cap ==> s.is_leased(slot),
{
    s.lemma_count();
    assert(s.leased() =~= below(s.cap));
}

/// The request that follows a return is served, whatever the pool answered
/// before: it gets the connection that came back, and the books are again
/// what they were before the return.
pub proof fn lemma_return_serves_next<C>(s: PoolView<C>, e: Entry<C>, made: Option<C>)
    requires
        s.wf(),
        s.is_leased(e.slot),
    ensures
        s.put_back(e).decide() == Decision::Reuse,
        s.put_back(e).issue(Step::Request(made)) == Some(e),
        s.put_back(e).after(Step::Request(made)) == s,
{
    lemma_return(s, e);
}

/// A wait can end. Where a request has to wait after an orderly history of a
/// pool with a capacity of one or more, holders have connections in hand, as
/// many as the capacity; and as soon as one of them returns its connection,
/// the next request gets it.
pub proof fn lemma_wait_ends<C>(s: PoolView<C>, steps: Seq<Step<C>>)
    requires
        s.wf(),
        s.cap >= 1,
        s.orderly(steps),
        s.run(steps).decide() == Decision::Wait,
    ensures
        s.held(steps) == below(s.cap),
        s.held(steps).len() >= 1,
        forall|e: Entry<C>, made: Option<C>|
            #![trigger s.run(steps.push(Step::Return(e))).issue(Step::Request(made))]
            s.held(steps).contains(e.slot) ==> s.orderly(steps.push(Step::Return(e)))
                && s.run(steps.push(Step::Return(e))).issue(Step::Request(made)) == Some(e),
{
    lemma_history(s, steps);
    lemma_wait_means_all_lent(s.run(steps));
    assert forall|e: Entry<C>, made: Option<C>|
        #![trigger s.run(steps.push(Step::Return(e))).issue(Step::Request(made))]
        s.held(steps).contains(e.slot) implies s.orderly(steps.push(Step::Return(e)))
            && s.run(steps.push(Step::Return(e))).issue(Step::Request(made)) == Some(e) by {
        assert(steps.push(Step::Return(e)).drop_last() =~= steps);
        lemma_return_serves_next(s.run(steps), e, made);
    }
}

/// In an orderly history a lease is returned once: after its return no holder
/// has the slot in hand, until a later request lends it out again.
pub proof fn lemma_returned_once<C>(s: PoolView<C>, steps: Seq<Step<C>>, e: Entry<C>)
    requires
        s.wf(),
        s.orderly(steps.push(Step::Return(e))),
    ensures
        s.held(steps).contains(e.slot),
        !s.held(steps.push(Step::Return(e))).contains(e.slot),
        !s.orderly(steps.push(Step::Return(e)).push(Step::Return(e))),
        s.run(steps.push(Step::Return(e))).idle == s.run(steps).idle.push(e),
{
    let one = steps.push(Step::Return(e));
    let two = one.push(Step::Return(e));
    assert(one.drop_last() =~= steps);
    assert(two.drop_last() =~= one);
}

} // verus!
