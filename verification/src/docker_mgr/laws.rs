//! What holds of the manager whatever its clients and the container runtime
//! do, proved of the state machine that the service follows.

use crate::docker_mgr::backoff::{grown_stays_within_bounds, within_bounds, POLL_MIN_NANOS};
use crate::docker_mgr::event::{LoopEvent, LoopStep, RuntimeCommand};
use crate::docker_mgr::message::{DockerMessage, DockerMessageType, ReplyHandle};
use crate::docker_mgr::model::ManagerModel;
use crate::docker_mgr::observe::{
    agreed_state, derived_state, observation, ContainerInspection, RuntimeState,
};
use crate::docker_mgr::pending::{
    handles, lemma_all_ready, lemma_other_waiters_stay, lemma_ready_waited_for_entered,
    lemma_split_last, lemma_still_waiting_waited_before, lemma_waiters_for_entered_are_ready,
    ready_handles, still_waiting,
};
use crate::docker_mgr::state::{emitted_transitions, DockerManagerState};
use vstd::prelude::*;

verus! {

/// Holds of a manager that is in order: the wait between two polls lies
/// within its bounds, every queued client waits for `Running`, and nobody is
/// left waiting while the group runs.
pub open spec fn sound(manager: ManagerModel) -> bool {
    &&& within_bounds(manager.poll_period)
    &&& forall|i: int|
        0 <= i < manager.pending_replies.len() ==> (#[trigger] manager.pending_replies[i]).0
            == DockerManagerState::Running
    &&& manager.state == DockerManagerState::Running ==> manager.pending_replies.len() == 0
}

/// The handles answered on the way from `before` to `after`.
pub open spec fn answered_since(before: ManagerModel, after: ManagerModel) -> Seq<ReplyHandle> {
    after.answered.skip(before.answered.len() as int)
}

/// Holds when no client was lost on the way from `before` to `after`: what
/// was answered stays answered, and every client that waited is still in the
/// queue or has been answered on the way.
pub open spec fn keeps_faith(before: ManagerModel, after: ManagerModel) -> bool {
    &&& before.answered.is_prefix_of(after.answered)
    &&& forall|i: int|
        0 <= i < before.pending_replies.len() ==> {
            ||| after.pending_replies.contains(#[trigger] before.pending_replies[i])
            ||| answered_since(before, after).contains(before.pending_replies[i].1)
        }
}

/// A new manager is in order.
pub proof fn initial_is_sound(group: Seq<char>, idle_seconds: nat, origin: tokio::time::Instant)
    ensures
        sound(ManagerModel::initial(group, idle_seconds, origin)),
{
}

/// Entering a state leaves the manager in order.
pub proof fn entering_keeps_sound(manager: ManagerModel, state: DockerManagerState, now: nat)
    requires
        sound(manager),
    ensures
        sound(manager.entered(state, now)),
{
    let after = manager.entered(state, now);
    assert forall|k: int| 0 <= k < after.pending_replies.len() implies (
    #[trigger] after.pending_replies[k]).0 == DockerManagerState::Running by {
        lemma_still_waiting_waited_before(manager.pending_replies, state, k);
        let waiter = after.pending_replies[k];
        let i = choose|i: int|
            0 <= i < manager.pending_replies.len() && manager.pending_replies[i] == waiter;
    }
    if state == DockerManagerState::Running {
        lemma_all_ready(manager.pending_replies, state);
    }
}

/// Entering one state after another leaves the manager in order.
pub proof fn entering_each_keeps_sound(
    manager: ManagerModel,
    path: Seq<DockerManagerState>,
    now: nat,
)
    requires
        sound(manager),
    ensures
        sound(manager.entered_each(path, now)),
    decreases path.len(),
{
    if path.len() > 0 {
        entering_keeps_sound(manager, path[0], now);
        entering_each_keeps_sound(manager.entered(path[0], now), path.skip(1), now);
    }
}

/// Taking note of a client that waits for `Running`, or for the state the
/// manager is in, leaves the manager in order.
pub proof fn queueing_keeps_sound(
    manager: ManagerModel,
    reply_to: Option<ReplyHandle>,
    target: DockerManagerState,
)
    requires
        sound(manager),
        target == DockerManagerState::Running || target == manager.state,
    ensures
        sound(manager.queued(reply_to, target)),
{
}

/// Handling a message leaves the manager in order.
pub proof fn handling_keeps_sound(manager: ManagerModel, msg: DockerMessage, now: nat)
    requires
        sound(manager),
    ensures
        sound(manager.handled(msg, now).0),
{
    match msg.message_type {
        DockerMessageType::ContainerRequire => {
            match manager.state {
                DockerManagerState::Idle => {
                    let queued = manager.queued(msg.reply_to, DockerManagerState::Running);
                    queueing_keeps_sound(manager, msg.reply_to, DockerManagerState::Running);
                    entering_keeps_sound(queued, DockerManagerState::Starting, queued.poke_time);
                },
                DockerManagerState::Starting | DockerManagerState::Running => {
                    queueing_keeps_sound(manager, msg.reply_to, DockerManagerState::Running);
                },
                DockerManagerState::Stopping => {
                    queueing_keeps_sound(
                        ManagerModel { pending_restart: true, ..manager },
                        msg.reply_to,
                        DockerManagerState::Running,
                    );
                },
            }
        },
        DockerMessageType::ContainerPoke => {
            queueing_keeps_sound(
                ManagerModel { poke_time: now, ..manager },
                msg.reply_to,
                manager.state,
            );
        },
    }
}

/// Taking in an observation leaves the manager in order.
pub proof fn observing_keeps_sound(
    manager: ManagerModel,
    inspections: Seq<ContainerInspection>,
    now: nat,
)
    requires
        sound(manager),
    ensures
        sound(manager.observed(inspections, now)),
{
    if let Some(seen) = agreed_state(inspections) {
        entering_each_keeps_sound(manager, emitted_transitions(manager.state, seen), now);
    }
}

/// A poll leaves the manager in order.
pub proof fn polling_keeps_sound(
    manager: ManagerModel,
    inspections: Seq<ContainerInspection>,
    now: nat,
)
    requires
        sound(manager),
    ensures
        sound(manager.polled(inspections, now).0),
{
    let seen = manager.observed(inspections, now);
    observing_keeps_sound(manager, inspections, now);
    entering_keeps_sound(seen, DockerManagerState::Stopping, seen.poke_time);
    entering_keeps_sound(seen, DockerManagerState::Starting, seen.poke_time);
}

/// Lengthening the wait between two polls leaves the manager in order.
pub proof fn backing_off_keeps_sound(manager: ManagerModel)
    requires
        sound(manager),
    ensures
        sound(manager.backed_off()),
{
    grown_stays_within_bounds(manager.poll_period);
}

/// The manager is in order at all times: every event of its loop leaves it
/// so. In particular the wait between two polls never leaves its bounds.
pub proof fn stepping_keeps_sound(manager: ManagerModel, event: LoopEvent, now: nat)
    requires
        sound(manager),
    ensures
        sound(manager.stepped(event, now).0),
        within_bounds(manager.stepped(event, now).0.poll_period),
{
    match event {
        LoopEvent::FirstPoll(inspections) => {
            polling_keeps_sound(manager, inspections@, now);
        },
        LoopEvent::PollDue(inspections) => {
            polling_keeps_sound(manager, inspections@, now);
            grown_stays_within_bounds(manager.polled(inspections@, now).0.poll_period);
        },
        LoopEvent::Message(msg) => {
            handling_keeps_sound(manager, msg, now);
        },
        LoopEvent::QueueClosed => {},
    }
}

/// Whatever the runtime lists and whatever events follow, the manager is in
/// order after them; the wait between two polls lies within its bounds at
/// all times.
pub proof fn always_sound(
    group: Seq<char>,
    idle_seconds: nat,
    origin: tokio::time::Instant,
    listed: Seq<Option<String>>,
    events: Seq<(LoopEvent, nat)>,
)
    ensures
        sound(ManagerModel::initial(group, idle_seconds, origin).adopted(listed).after_events(events)),
        within_bounds(
            ManagerModel::initial(group, idle_seconds, origin).adopted(listed).after_events(
                events,
            ).poll_period,
        ),
    decreases events.len(),
{
    let resolved = ManagerModel::initial(group, idle_seconds, origin).adopted(listed);
    if events.len() > 0 {
        always_sound(group, idle_seconds, origin, listed, events.drop_last());
        stepping_keeps_sound(
            resolved.after_events(events.drop_last()),
            events.last().0,
            events.last().1,
        );
    }
}

/// On entering `Starting` or `Stopping` the wait between two polls is back
/// at its floor; entering another state leaves it as it is.
pub proof fn entering_resets_poll_period(manager: ManagerModel, state: DockerManagerState, now: nat)
    ensures
        state == DockerManagerState::Starting || state == DockerManagerState::Stopping
            ==> manager.entered(state, now).poll_period == POLL_MIN_NANOS,
        state == DockerManagerState::Idle || state == DockerManagerState::Running
            ==> manager.entered(state, now).poll_period == manager.poll_period,
        manager.start_issued().poll_period == POLL_MIN_NANOS,
        manager.stop_issued().poll_period == POLL_MIN_NANOS,
{
}

/// Nothing is lost where the queue and the answers stay as they are.
pub proof fn standing_still_keeps_faith(manager: ManagerModel)
    ensures
        forall|other: ManagerModel|
            other.pending_replies == manager.pending_replies && other.answered
                == manager.answered ==> #[trigger] keeps_faith(manager, other),
{
    assert forall|other: ManagerModel|
        other.pending_replies == manager.pending_replies && other.answered
            == manager.answered implies #[trigger] keeps_faith(manager, other) by {
        assert(manager.answered =~= other.answered.subrange(0, manager.answered.len() as int));
        assert forall|i: int| 0 <= i < manager.pending_replies.len() implies other.pending_replies.contains(
        #[trigger] manager.pending_replies[i]) by {}
    }
}

/// Keeping faith is carried from one stretch of the way to the next.
pub proof fn keeping_faith_adds_up(first: ManagerModel, second: ManagerModel, third: ManagerModel)
    requires
        keeps_faith(first, second),
        keeps_faith(second, third),
    ensures
        keeps_faith(first, third),
{
    let early = answered_since(first, second);
    let late = answered_since(second, third);
    let whole = answered_since(first, third);
    assert(first.answered =~= third.answered.subrange(0, first.answered.len() as int)) by {
        assert(first.answered =~= second.answered.subrange(0, first.answered.len() as int));
        assert(second.answered =~= third.answered.subrange(0, second.answered.len() as int));
    }
    assert forall|i: int| 0 <= i < first.pending_replies.len() implies {
        ||| third.pending_replies.contains(#[trigger] first.pending_replies[i])
        ||| whole.contains(first.pending_replies[i].1)
    } by {
        let waiter = first.pending_replies[i];
        if second.pending_replies.contains(waiter) {
            let j = choose|j: int|
                0 <= j < second.pending_replies.len() && second.pending_replies[j] == waiter;
            if !third.pending_replies.contains(second.pending_replies[j]) {
                let k = choose|k: int| 0 <= k < late.len() && late[k] == waiter.1;
                let shift = second.answered.len() - first.answered.len();
                assert(whole[k + shift] == waiter.1);
            }
        } else {
            let k = choose|k: int| 0 <= k < early.len() && early[k] == waiter.1;
            assert(second.answered =~= third.answered.subrange(0, second.answered.len() as int));
            assert(second.answered[k + first.answered.len()] == third.answered.subrange(
                0,
                second.answered.len() as int,
            )[k + first.answered.len()]);
            assert(whole[k] == waiter.1);
        }
    }
}

/// Entering a state loses no client: the waiters for that state are
/// answered, the others stay queued.
pub proof fn entering_keeps_faith(manager: ManagerModel, state: DockerManagerState, now: nat)
    ensures
        keeps_faith(manager, manager.entered(state, now)),
{
    let after = manager.entered(state, now);
    assert(answered_since(manager, after) =~= ready_handles(manager.pending_replies, state));
    assert forall|i: int| 0 <= i < manager.pending_replies.len() implies {
        ||| after.pending_replies.contains(#[trigger] manager.pending_replies[i])
        ||| answered_since(manager, after).contains(manager.pending_replies[i].1)
    } by {
        if manager.pending_replies[i].0 == state {
            lemma_waiters_for_entered_are_ready(manager.pending_replies, state, i);
        } else {
            lemma_other_waiters_stay(manager.pending_replies, state, i);
        }
    }
}

/// Entering one state after another loses no client.
pub proof fn entering_each_keeps_faith(
    manager: ManagerModel,
    path: Seq<DockerManagerState>,
    now: nat,
)
    ensures
        keeps_faith(manager, manager.entered_each(path, now)),
    decreases path.len(),
{
    if path.len() == 0 {
        standing_still_keeps_faith(manager);
    } else {
        let next = manager.entered(path[0], now);
        entering_keeps_faith(manager, path[0], now);
        entering_each_keeps_faith(next, path.skip(1), now);
        keeping_faith_adds_up(manager, next, next.entered_each(path.skip(1), now));
    }
}

/// Taking note of a client loses no client, and accounts for the new one: a
/// client that left a handle is in the queue with its target, or has been
/// answered.
pub proof fn queueing_keeps_faith(
    manager: ManagerModel,
    reply_to: Option<ReplyHandle>,
    target: DockerManagerState,
)
    ensures
        keeps_faith(manager, manager.queued(reply_to, target)),
        reply_to matches Some(handle) ==> {
            let after = manager.queued(reply_to, target);
            if target == manager.state {
                answered_since(manager, after) == seq![handle] && after.pending_replies
                    == manager.pending_replies
            } else {
                after.pending_replies == manager.pending_replies.push((target, handle))
                    && after.answered == manager.answered
            }
        },
{
    let after = manager.queued(reply_to, target);
    assert(manager.answered =~= after.answered.subrange(0, manager.answered.len() as int));
    assert forall|i: int| 0 <= i < manager.pending_replies.len() implies after.pending_replies.contains(
    #[trigger] manager.pending_replies[i]) by {
        assert(after.pending_replies[i] == manager.pending_replies[i]);
    }
    if let Some(handle) = reply_to {
        if target == manager.state {
            assert(answered_since(manager, after) =~= seq![handle]);
        }
    }
}

/// Handling a message loses no client.
pub proof fn handling_keeps_faith(manager: ManagerModel, msg: DockerMessage, now: nat)
    ensures
        keeps_faith(manager, manager.handled(msg, now).0),
{
    let after = manager.handled(msg, now).0;
    match msg.message_type {
        DockerMessageType::ContainerRequire => {
            match manager.state {
                DockerManagerState::Idle => {
                    let queued = manager.queued(msg.reply_to, DockerManagerState::Running);
                    queueing_keeps_faith(manager, msg.reply_to, DockerManagerState::Running);
                    entering_keeps_faith(queued, DockerManagerState::Starting, queued.poke_time);
                    keeping_faith_adds_up(manager, queued, after);
                },
                DockerManagerState::Starting | DockerManagerState::Running => {
                    queueing_keeps_faith(manager, msg.reply_to, DockerManagerState::Running);
                },
                DockerManagerState::Stopping => {
                    let noted = ManagerModel { pending_restart: true, ..manager };
                    standing_still_keeps_faith(manager);
                    queueing_keeps_faith(noted, msg.reply_to, DockerManagerState::Running);
                    keeping_faith_adds_up(manager, noted, after);
                },
            }
        },
        DockerMessageType::ContainerPoke => {
            let poked = ManagerModel { poke_time: now, ..manager };
            standing_still_keeps_faith(manager);
            queueing_keeps_faith(poked, msg.reply_to, manager.state);
            keeping_faith_adds_up(manager, poked, after);
        },
    }
}

/// A poll loses no client.
pub proof fn polling_keeps_faith(
    manager: ManagerModel,
    inspections: Seq<ContainerInspection>,
    now: nat,
)
    ensures
        keeps_faith(manager, manager.polled(inspections, now).0),
{
    let seen = manager.observed(inspections, now);
    standing_still_keeps_faith(manager);
    if let Some(state) = agreed_state(inspections) {
        entering_each_keeps_faith(manager, emitted_transitions(manager.state, state), now);
    }
    assert(keeps_faith(manager, seen));
    let after = manager.polled(inspections, now).0;
    if seen.idle_too_long(now) {
        entering_keeps_faith(seen, DockerManagerState::Stopping, seen.poke_time);
    } else if seen.state == DockerManagerState::Idle && seen.pending_restart {
        let started = seen.start_issued();
        entering_keeps_faith(seen, DockerManagerState::Starting, seen.poke_time);
        standing_still_keeps_faith(started);
        keeping_faith_adds_up(seen, started, after);
    } else {
        standing_still_keeps_faith(seen);
    }
    keeping_faith_adds_up(manager, seen, after);
}

/// No event of the loop loses a client: whoever waited before the event
/// still waits after it or has been answered by it, and what was answered
/// stays answered.
pub proof fn no_waiter_is_lost(manager: ManagerModel, event: LoopEvent, now: nat)
    ensures
        keeps_faith(manager, manager.stepped(event, now).0),
{
    standing_still_keeps_faith(manager);
    match event {
        LoopEvent::FirstPoll(inspections) => {
            polling_keeps_faith(manager, inspections@, now);
        },
        LoopEvent::PollDue(inspections) => {
            let polled = manager.polled(inspections@, now).0;
            polling_keeps_faith(manager, inspections@, now);
            standing_still_keeps_faith(polled);
            keeping_faith_adds_up(manager, polled, polled.backed_off());
        },
        LoopEvent::Message(msg) => {
            handling_keeps_faith(manager, msg, now);
        },
        LoopEvent::QueueClosed => {},
    }
}

/// No run of events loses a client.
pub proof fn never_loses_a_waiter(manager: ManagerModel, events: Seq<(LoopEvent, nat)>)
    ensures
        keeps_faith(manager, manager.after_events(events)),
    decreases events.len(),
{
    if events.len() == 0 {
        standing_still_keeps_faith(manager);
    } else {
        let earlier = manager.after_events(events.drop_last());
        never_loses_a_waiter(manager, events.drop_last());
        no_waiter_is_lost(earlier, events.last().0, events.last().1);
        keeping_faith_adds_up(manager, earlier, manager.after_events(events));
    }
}

/// A client is answered only while the manager is in the state the client
/// waits for: every handle answered on entering a state was queued for that
/// state, and a client is answered on arrival only when the manager is in
/// its target already.
pub proof fn answered_only_in_target_state(
    manager: ManagerModel,
    state: DockerManagerState,
    now: nat,
    reply_to: Option<ReplyHandle>,
    target: DockerManagerState,
)
    ensures
        manager.entered(state, now).state == state,
        forall|k: int|
            0 <= k < answered_since(manager, manager.entered(state, now)).len()
                ==> manager.pending_replies.contains(
                (state, #[trigger] answered_since(manager, manager.entered(state, now))[k]),
            ),
        answered_since(manager, manager.queued(reply_to, target)).len() > 0 ==> target
            == manager.state && reply_to == Some(
            answered_since(manager, manager.queued(reply_to, target))[0],
        ),
{
    let after = manager.entered(state, now);
    let fresh = answered_since(manager, after);
    assert(fresh =~= ready_handles(manager.pending_replies, state));
    assert forall|k: int| 0 <= k < fresh.len() implies manager.pending_replies.contains(
        (state, #[trigger] fresh[k]),
    ) by {
        lemma_ready_waited_for_entered(manager.pending_replies, state, k);
    }
}

/// When a manager in order enters `Running`, every waiting client is
/// answered within that one transition, in the order in which the clients
/// queued, and the queue is left empty.
pub proof fn entering_running_answers_everyone(manager: ManagerModel, now: nat)
    requires
        sound(manager),
    ensures
        manager.entered(DockerManagerState::Running, now).pending_replies.len() == 0,
        manager.entered(DockerManagerState::Running, now).answered == manager.answered + handles(
            manager.pending_replies,
        ),
{
    lemma_all_ready(manager.pending_replies, DockerManagerState::Running);
}

/// The queue and the answers after a client required a group at rest.
proof fn lemma_require_at_rest(manager: ManagerModel, handle: ReplyHandle)
    requires
        manager.state == DockerManagerState::Idle,
    ensures
        manager.queued(Some(handle), DockerManagerState::Running).start_issued().pending_replies
            == still_waiting(manager.pending_replies, DockerManagerState::Starting).push(
            (DockerManagerState::Running, handle),
        ),
        manager.queued(Some(handle), DockerManagerState::Running).start_issued().answered
            == manager.answered + ready_handles(
            manager.pending_replies,
            DockerManagerState::Starting,
        ),
{
    let longer = manager.pending_replies.push((DockerManagerState::Running, handle));
    assert(longer.drop_last() =~= manager.pending_replies);
    lemma_split_last(longer, DockerManagerState::Starting);
}

/// A client that requires the group and leaves a handle is answered at once
/// when the group runs, and is otherwise the last in the queue, waiting for
/// `Running`, when the message has been handled.
pub proof fn required_client_is_answered_or_queued(
    manager: ManagerModel,
    msg: DockerMessage,
    handle: ReplyHandle,
    now: nat,
)
    requires
        msg.message_type == DockerMessageType::ContainerRequire,
        msg.reply_to == Some(handle),
    ensures
        manager.state == DockerManagerState::Running ==> {
            &&& answered_since(manager, manager.handled(msg, now).0) == seq![handle]
            &&& manager.handled(msg, now).0.pending_replies == manager.pending_replies
        },
        manager.state != DockerManagerState::Running ==> {
            &&& manager.handled(msg, now).0.pending_replies.len() > 0
            &&& manager.handled(msg, now).0.pending_replies.last() == (
                DockerManagerState::Running,
                handle,
            )
        },
{
    let after = manager.handled(msg, now).0;
    queueing_keeps_faith(manager, msg.reply_to, DockerManagerState::Running);
    queueing_keeps_faith(
        ManagerModel { pending_restart: true, ..manager },
        msg.reply_to,
        DockerManagerState::Running,
    );
    if manager.state == DockerManagerState::Idle {
        lemma_require_at_rest(manager, handle);
    }
}

/// When a client requires a group at rest, the client is in the queue by the
/// time the manager hands out the command to start the group, and the
/// manager has entered `Starting`.
pub proof fn require_at_rest_queues_before_start(
    manager: ManagerModel,
    msg: DockerMessage,
    now: nat,
)
    requires
        manager.state == DockerManagerState::Idle,
        msg.message_type == DockerMessageType::ContainerRequire,
    ensures
        manager.handled(msg, now).1 == Some(RuntimeCommand::StartContainers),
        manager.handled(msg, now).0.state == DockerManagerState::Starting,
        msg.reply_to matches Some(handle) ==> manager.handled(msg, now).0.pending_replies.contains(
            (DockerManagerState::Running, handle),
        ),
{
    if let Some(handle) = msg.reply_to {
        required_client_is_answered_or_queued(manager, msg, handle, now);
        let after = manager.handled(msg, now).0;
        assert(after.pending_replies[after.pending_replies.len() - 1] == (
            DockerManagerState::Running,
            handle,
        ));
    }
}

/// No container is ever observed in `Stopping`: the manager enters that
/// state only by its own decision to stop the group, or on the way to rest.
pub proof fn stopping_is_never_observed(
    state: RuntimeState,
    inspections: Seq<ContainerInspection>,
)
    ensures
        derived_state(state) != DockerManagerState::Stopping,
        agreed_state(inspections) != Some(DockerManagerState::Stopping),
{
    if agreed_state(inspections) == Some(DockerManagerState::Stopping) {
        let i = choose|i: int|
            0 <= i < inspections.len() && #[trigger] observation(inspections[i]) == Some(
                DockerManagerState::Stopping,
            );
        assert(derived_state(inspections[i].state->0) == DockerManagerState::Stopping);
    }
}

/// After a path of transitions the manager is in the last state of it.
proof fn lemma_entered_each_ends(manager: ManagerModel, path: Seq<DockerManagerState>, now: nat)
    requires
        path.len() > 0,
    ensures
        manager.entered_each(path, now).state == path.last(),
    decreases path.len(),
{
    let next = manager.entered(path[0], now);
    if path.len() > 1 {
        lemma_entered_each_ends(next, path.skip(1), now);
        assert(path.skip(1).last() == path.last());
    } else {
        assert(path.skip(1).len() == 0);
        assert(next.entered_each(path.skip(1), now) == next);
    }
}

/// An observation that leaves a running group running leaves the time of
/// the last traffic as it is.
proof fn lemma_observed_while_running(
    manager: ManagerModel,
    inspections: Seq<ContainerInspection>,
    now: nat,
)
    requires
        manager.state == DockerManagerState::Running,
        manager.observed(inspections, now).state == DockerManagerState::Running,
    ensures
        manager.observed(inspections, now) == manager,
{
    if let Some(seen) = agreed_state(inspections) {
        let path = emitted_transitions(manager.state, seen);
        if path.len() > 0 {
            lemma_entered_each_ends(manager, path, now);
        }
    }
}

/// Entering states changes nothing but the state, the queue, the answers,
/// the wait between polls and the time of the last traffic.
proof fn lemma_entering_each_keeps_note(
    manager: ManagerModel,
    path: Seq<DockerManagerState>,
    now: nat,
)
    ensures
        manager.entered_each(path, now).pending_restart == manager.pending_restart,
        manager.entered_each(path, now).idle_duration == manager.idle_duration,
        manager.entered_each(path, now).containers == manager.containers,
        manager.entered_each(path, now).group == manager.group,
        manager.entered_each(path, now).origin == manager.origin,
    decreases path.len(),
{
    if path.len() > 0 {
        lemma_entering_each_keeps_note(manager.entered(path[0], now), path.skip(1), now);
    }
}

/// Taking in an observation keeps the note of a restart and what the
/// manager was made with.
proof fn lemma_observing_keeps_note(
    manager: ManagerModel,
    inspections: Seq<ContainerInspection>,
    now: nat,
)
    ensures
        manager.observed(inspections, now).pending_restart == manager.pending_restart,
        manager.observed(inspections, now).idle_duration == manager.idle_duration,
        manager.observed(inspections, now).containers == manager.containers,
        manager.observed(inspections, now).group == manager.group,
        manager.observed(inspections, now).origin == manager.origin,
{
    if let Some(seen) = agreed_state(inspections) {
        lemma_entering_each_keeps_note(manager, emitted_transitions(manager.state, seen), now);
    }
}

/// The group is fixed once it is resolved: no event of the loop changes the
/// containers of the group, its tag, the time it may stay idle or the origin
/// of its clock.
pub proof fn the_group_is_fixed(manager: ManagerModel, event: LoopEvent, now: nat)
    ensures
        manager.stepped(event, now).0.containers == manager.containers,
        manager.stepped(event, now).0.group == manager.group,
        manager.stepped(event, now).0.idle_duration == manager.idle_duration,
        manager.stepped(event, now).0.origin == manager.origin,
{
    match event {
        LoopEvent::FirstPoll(inspections) => {
            lemma_observing_keeps_note(manager, inspections@, now);
        },
        LoopEvent::PollDue(inspections) => {
            lemma_observing_keeps_note(manager, inspections@, now);
        },
        _ => {},
    }
}

/// A poll hands out the command to stop only for a group that runs and has
/// been idle for too long, and the command to start only for a group at rest
/// whose restart was noted.
pub proof fn commands_have_reasons(
    manager: ManagerModel,
    inspections: Seq<ContainerInspection>,
    now: nat,
)
    ensures
        manager.polled(inspections, now).1 == Some(RuntimeCommand::StopContainers) <==> {
            &&& manager.observed(inspections, now).state == DockerManagerState::Running
            &&& now - manager.observed(inspections, now).poke_time > manager.idle_duration
        },
        manager.polled(inspections, now).1 == Some(RuntimeCommand::StartContainers) <==> {
            &&& manager.observed(inspections, now).state == DockerManagerState::Idle
            &&& manager.pending_restart
        },
{
    lemma_observing_keeps_note(manager, inspections, now);
}

/// A running group is stopped by the first poll that finds it running and
/// without traffic for longer than it may be: the manager enters `Stopping`
/// and hands out the command to stop. A poll that finds less idleness hands
/// out no such command.
pub proof fn idle_group_is_stopped(
    manager: ManagerModel,
    inspections: Seq<ContainerInspection>,
    now: nat,
)
    requires
        manager.state == DockerManagerState::Running,
        manager.observed(inspections, now).state == DockerManagerState::Running,
    ensures
        now - manager.poke_time > manager.idle_duration ==> {
            &&& manager.polled(inspections, now).1 == Some(RuntimeCommand::StopContainers)
            &&& manager.polled(inspections, now).0.state == DockerManagerState::Stopping
        },
        now - manager.poke_time <= manager.idle_duration ==> {
            &&& manager.polled(inspections, now).1.is_none()
            &&& manager.polled(inspections, now).0.state == DockerManagerState::Running
        },
{
    lemma_observed_while_running(manager, inspections, now);
}

/// Traffic keeps the group running: after a poke at `now`, a poll at `later`
/// that finds the group running and comes no more than the idle time after
/// the poke hands out no command.
pub proof fn traffic_keeps_the_group_running(
    manager: ManagerModel,
    msg: DockerMessage,
    now: nat,
    inspections: Seq<ContainerInspection>,
    later: nat,
)
    requires
        manager.state == DockerManagerState::Running,
        msg.message_type == DockerMessageType::ContainerPoke,
        manager.handled(msg, now).0.observed(inspections, later).state
            == DockerManagerState::Running,
        later - now <= manager.idle_duration,
    ensures
        manager.handled(msg, now).1.is_none(),
        manager.handled(msg, now).0.poke_time == now,
        manager.handled(msg, now).0.polled(inspections, later).1.is_none(),
        manager.handled(msg, now).0.polled(inspections, later).0.state
            == DockerManagerState::Running,
{
    idle_group_is_stopped(manager.handled(msg, now).0, inspections, later);
}

/// A client that requires the group while it is stopping has the restart
/// noted, and a restart that is noted is not forgotten: every event of the
/// loop either keeps the note or hands out the command to start the group.
pub proof fn restart_is_not_forgotten(
    manager: ManagerModel,
    msg: DockerMessage,
    event: LoopEvent,
    now: nat,
)
    ensures
        manager.state == DockerManagerState::Stopping && msg.message_type
            == DockerMessageType::ContainerRequire ==> {
            &&& manager.handled(msg, now).0.pending_restart
            &&& manager.handled(msg, now).0.state == DockerManagerState::Stopping
            &&& manager.handled(msg, now).1.is_none()
        },
        manager.pending_restart ==> {
            ||| manager.stepped(event, now).0.pending_restart
            ||| manager.stepped(event, now).1 == LoopStep::Continue(
                Some(RuntimeCommand::StartContainers),
            )
        },
{
    match event {
        LoopEvent::FirstPoll(inspections) => {
            lemma_observing_keeps_note(manager, inspections@, now);
        },
        LoopEvent::PollDue(inspections) => {
            lemma_observing_keeps_note(manager, inspections@, now);
        },
        _ => {},
    }
}

/// A group that a client required while it was stopping comes back by
/// itself. The client is queued and the restart noted; the poll that finds
/// the whole group at rest hands out the command to start and enters
/// `Starting`; the poll that then finds the whole group running enters
/// `Running` and answers the client.
pub proof fn restart_after_stop(
    manager: ManagerModel,
    msg: DockerMessage,
    handle: ReplyHandle,
    required_at: nat,
    at_rest: Seq<ContainerInspection>,
    rest_seen_at: nat,
    running: Seq<ContainerInspection>,
    running_seen_at: nat,
)
    requires
        manager.state == DockerManagerState::Stopping,
        msg.message_type == DockerMessageType::ContainerRequire,
        msg.reply_to == Some(handle),
        agreed_state(at_rest) == Some(DockerManagerState::Idle),
        agreed_state(running) == Some(DockerManagerState::Running),
    ensures
        ({
            let (noted, first) = manager.handled(msg, required_at);
            let (restarted, second) = noted.polled(at_rest, rest_seen_at);
            let (ready, third) = restarted.polled(running, running_seen_at);
            &&& first.is_none()
            &&& noted.state == DockerManagerState::Stopping
            &&& noted.pending_restart
            &&& second == Some(RuntimeCommand::StartContainers)
            &&& restarted.state == DockerManagerState::Starting
            &&& !restarted.pending_restart
            &&& restarted.pending_replies.contains((DockerManagerState::Running, handle))
            &&& third.is_none()
            &&& ready.state == DockerManagerState::Running
            &&& ready.poke_time == running_seen_at
            &&& answered_since(manager, ready).contains(handle)
        }),
{
    let (noted, first) = manager.handled(msg, required_at);
    let (restarted, second) = noted.polled(at_rest, rest_seen_at);
    let (ready, third) = restarted.polled(running, running_seen_at);
    let waiter = (DockerManagerState::Running, handle);
    required_client_is_answered_or_queued(manager, msg, handle, required_at);
    assert(noted.pending_replies[noted.pending_replies.len() - 1] == waiter);

    // the group comes to rest, and is started again
    let rested = noted.observed(at_rest, rest_seen_at);
    let to_rest = emitted_transitions(DockerManagerState::Stopping, DockerManagerState::Idle);
    assert(to_rest.skip(1).len() == 0);
    assert(rested == noted.entered(DockerManagerState::Idle, rest_seen_at)) by {
        assert(noted.entered_each(to_rest, rest_seen_at) == noted.entered(
            to_rest[0],
            rest_seen_at,
        ).entered_each(to_rest.skip(1), rest_seen_at));
    }
    lemma_other_waiters_stay(
        noted.pending_replies,
        DockerManagerState::Idle,
        noted.pending_replies.len() - 1,
    );
    let i = choose|i: int| 0 <= i < rested.pending_replies.len() && rested.pending_replies[i] == waiter;
    lemma_other_waiters_stay(rested.pending_replies, DockerManagerState::Starting, i);
    assert(restarted.pending_replies.contains(waiter));

    // the group is found running
    let seen = restarted.observed(running, running_seen_at);
    let to_running = emitted_transitions(DockerManagerState::Starting, DockerManagerState::Running);
    assert(to_running.skip(1).len() == 0);
    assert(seen == restarted.entered(DockerManagerState::Running, running_seen_at)) by {
        assert(restarted.entered_each(to_running, running_seen_at) == restarted.entered(
            to_running[0],
            running_seen_at,
        ).entered_each(to_running.skip(1), running_seen_at));
    }
    assert(ready == seen);
    let j = choose|j: int|
        0 <= j < restarted.pending_replies.len() && restarted.pending_replies[j] == waiter;
    lemma_waiters_for_entered_are_ready(restarted.pending_replies, DockerManagerState::Running, j);
    let fresh = ready_handles(restarted.pending_replies, DockerManagerState::Running);
    let k = choose|k: int| 0 <= k < fresh.len() && fresh[k] == handle;
    handling_keeps_faith(manager, msg, required_at);
    polling_keeps_faith(noted, at_rest, rest_seen_at);
    keeping_faith_adds_up(manager, noted, restarted);
    assert(manager.answered =~= restarted.answered.subrange(0, manager.answered.len() as int));
    assert(answered_since(manager, ready)[k + restarted.answered.len() - manager.answered.len()]
        == handle);
}

} // verus!
