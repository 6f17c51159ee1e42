//! The queue of clients that wait for the manager to enter a state.

use crate::docker_mgr::message::ReplyHandle;
use crate::docker_mgr::state::DockerManagerState;
use vstd::prelude::*;

verus! {

/// A waiting client: the state it waits for, and the handle to answer on.
pub type PendingReply = (DockerManagerState, ReplyHandle);

/// Holds of the waiters that wait for a state other than `entered`.
pub open spec fn waits_for_another(entered: DockerManagerState) -> spec_fn(PendingReply) -> bool {
    |waiter: PendingReply| waiter.0 != entered
}

/// Picks the handle of a waiter that waits for `entered`.
pub open spec fn handle_if_waiting_for(entered: DockerManagerState) -> spec_fn(
    PendingReply,
) -> Option<ReplyHandle> {
    |waiter: PendingReply|
        if waiter.0 == entered {
            Some(waiter.1)
        } else {
            None
        }
}

/// The waiters left in the queue once the manager has entered `entered`, in
/// their old order.
pub open spec fn still_waiting(
    pending: Seq<PendingReply>,
    entered: DockerManagerState,
) -> Seq<PendingReply> {
    pending.filter(waits_for_another(entered))
}

/// The handles that are answered when the manager enters `entered`, in the
/// order in which their clients queued.
pub open spec fn ready_handles(
    pending: Seq<PendingReply>,
    entered: DockerManagerState,
) -> Seq<ReplyHandle> {
    pending.filter_map(handle_if_waiting_for(entered))
}

/// The handles of the waiters in a queue, in the order of the queue.
pub open spec fn handles(pending: Seq<PendingReply>) -> Seq<ReplyHandle> {
    pending.map_values(|waiter: PendingReply| waiter.1)
}

/// Both views of a queue grow by its last waiter alone.
pub proof fn lemma_split_last(pending: Seq<PendingReply>, entered: DockerManagerState)
    requires
        pending.len() > 0,
    ensures
        pending.last().0 == entered ==> {
            &&& still_waiting(pending, entered) == still_waiting(pending.drop_last(), entered)
            &&& ready_handles(pending, entered) == ready_handles(
                pending.drop_last(),
                entered,
            ).push(pending.last().1)
        },
        pending.last().0 != entered ==> {
            &&& still_waiting(pending, entered) == still_waiting(
                pending.drop_last(),
                entered,
            ).push(pending.last())
            &&& ready_handles(pending, entered) == ready_handles(pending.drop_last(), entered)
        },
{
    reveal(Seq::filter);
    let picked = ready_handles(pending.drop_last(), entered);
    assert(picked + seq![pending.last().1] =~= picked.push(pending.last().1));
}

/// A waiter for another state than the one entered stays in the queue.
pub proof fn lemma_other_waiters_stay(
    pending: Seq<PendingReply>,
    entered: DockerManagerState,
    i: int,
)
    requires
        0 <= i < pending.len(),
        pending[i].0 != entered,
    ensures
        still_waiting(pending, entered).contains(pending[i]),
{
    pending.lemma_filter_contains(waits_for_another(entered), i);
}

/// A waiter for the state entered has its handle among those answered.
pub proof fn lemma_waiters_for_entered_are_ready(
    pending: Seq<PendingReply>,
    entered: DockerManagerState,
    i: int,
)
    requires
        0 <= i < pending.len(),
        pending[i].0 == entered,
    ensures
        ready_handles(pending, entered).contains(pending[i].1),
    decreases pending.len(),
{
    let ready = ready_handles(pending, entered);
    let earlier = ready_handles(pending.drop_last(), entered);
    lemma_split_last(pending, entered);
    if i == pending.len() - 1 {
        assert(ready[ready.len() - 1] == pending[i].1);
    } else {
        lemma_waiters_for_entered_are_ready(pending.drop_last(), entered, i);
        let k = choose|k: int| 0 <= k < earlier.len() && earlier[k] == pending.drop_last()[i].1;
        assert(ready[k] == pending[i].1);
    }
}

/// Every handle answered on entering a state belonged to a waiter for that
/// state.
pub proof fn lemma_ready_waited_for_entered(
    pending: Seq<PendingReply>,
    entered: DockerManagerState,
    k: int,
)
    requires
        0 <= k < ready_handles(pending, entered).len(),
    ensures
        pending.contains((entered, ready_handles(pending, entered)[k])),
    decreases pending.len(),
{
    let ready = ready_handles(pending, entered);
    if pending.len() == 0 {
    } else {
        let earlier = ready_handles(pending.drop_last(), entered);
        lemma_split_last(pending, entered);
        if k < earlier.len() {
            lemma_ready_waited_for_entered(pending.drop_last(), entered, k);
            let waiter = (entered, ready[k]);
            let i = choose|i: int|
                0 <= i < pending.drop_last().len() && pending.drop_last()[i] == waiter;
            assert(pending[i] == waiter);
        } else {
            assert(pending[pending.len() - 1] == (entered, ready[k]));
        }
    }
}

/// Every waiter left in the queue waits for another state than the one
/// entered, and was in the queue before.
pub proof fn lemma_still_waiting_waited_before(
    pending: Seq<PendingReply>,
    entered: DockerManagerState,
    k: int,
)
    requires
        0 <= k < still_waiting(pending, entered).len(),
    ensures
        still_waiting(pending, entered)[k].0 != entered,
        pending.contains(still_waiting(pending, entered)[k]),
{
    let left = still_waiting(pending, entered);
    pending.lemma_filter_pred(waits_for_another(entered), k);
    assert(left.contains(left[k]));
    pending.lemma_filter_contains_rev(waits_for_another(entered), left[k]);
}

/// When every waiter waits for the state entered, all of them are answered,
/// in the order of the queue, and the queue is left empty.
pub proof fn lemma_all_ready(pending: Seq<PendingReply>, entered: DockerManagerState)
    requires
        forall|i: int| 0 <= i < pending.len() ==> (#[trigger] pending[i]).0 == entered,
    ensures
        still_waiting(pending, entered).len() == 0,
        ready_handles(pending, entered) == handles(pending),
    decreases pending.len(),
{
    if pending.len() == 0 {
        reveal(Seq::filter);
        assert(ready_handles(pending, entered) =~= handles(pending));
    } else {
        let front = pending.drop_last();
        assert forall|i: int| 0 <= i < front.len() implies (#[trigger] front[i]).0 == entered by {
            assert(front[i] == pending[i]);
        }
        lemma_all_ready(front, entered);
        lemma_split_last(pending, entered);
        assert(pending[pending.len() - 1].0 == entered);
        assert(handles(front).push(pending.last().1) =~= handles(pending));
    }
}

/// Takes out of the queue, in order, the handles of the waiters that wait
/// for `entered`, and leaves the others as they stood.
pub fn take_ready(pending: &mut Vec<PendingReply>, entered: DockerManagerState) -> (ready: Vec<
    ReplyHandle,
>)
    ensures
        ready@ == ready_handles(old(pending)@, entered),
        final(pending)@ == still_waiting(old(pending)@, entered),
{
    let ghost before = pending@;
    let ghost mut seen: int = 0;
    let mut ready: Vec<ReplyHandle> = Vec::new();
    let mut i: usize = 0;
    proof {
        reveal(Seq::filter);
        assert(before.take(0) =~= Seq::<PendingReply>::empty());
    }
    while i < pending.len()
        invariant
            0 <= seen <= before.len(),
            i <= pending.len(),
            pending@.skip(i as int) == before.skip(seen),
            pending@.take(i as int) == still_waiting(before.take(seen), entered),
            ready@ == ready_handles(before.take(seen), entered),
        decreases pending.len() - i,
    {
        proof {
            assert(before.skip(seen).len() == pending@.skip(i as int).len());
            assert(seen < before.len());
            assert(pending@[i as int] == pending@.skip(i as int)[0]);
            assert(before[seen] == before.skip(seen)[0]);
            assert(before.take(seen + 1).drop_last() =~= before.take(seen));
            lemma_split_last(before.take(seen + 1), entered);
        }
        if pending[i].0 == entered {
            let ghost longer = pending@;
            let waiter = pending.remove(i);
            ready.push(waiter.1);
            proof {
                let rest = pending@.skip(i as int);
                let unseen = before.skip(seen + 1);
                assert forall|k: int| 0 <= k < rest.len() implies #[trigger] rest[k] == unseen[k] by {
                    assert(pending@[i + k] == longer.skip(i as int)[k + 1]);
                    assert(before.skip(seen)[k + 1] == before[seen + k + 1]);
                }
                assert(rest =~= unseen);
                assert(pending@.take(i as int) =~= longer.take(i as int));
            }
        } else {
            proof {
                let rest = pending@.skip(i + 1);
                let unseen = before.skip(seen + 1);
                assert forall|k: int| 0 <= k < rest.len() implies #[trigger] rest[k] == unseen[k] by {
                    assert(pending@[i + 1 + k] == pending@.skip(i as int)[k + 1]);
                    assert(before.skip(seen)[k + 1] == before[seen + k + 1]);
                }
                assert(rest =~= unseen);
                assert(pending@.take(i + 1) =~= pending@.take(i as int).push(pending@[i as int]));
            }
            i = i + 1;
        }
        proof {
            seen = seen + 1;
        }
    }
    proof {
        assert(before.skip(seen).len() == 0);
        assert(before.take(seen) =~= before);
        assert(pending@.take(i as int) =~= pending@);
    }
    ready
}

} // verus!
