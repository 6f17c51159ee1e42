//! The manager as a state machine over plain values. Every operation of the
//! service is stated as a function from one `ManagerModel` to the next.

use crate::docker_mgr::backoff::{grown, POLL_MIN_NANOS};
use crate::docker_mgr::clock::NANOS_PER_SECOND;
use crate::docker_mgr::event::{LoopEvent, LoopStep, RuntimeCommand};
use crate::docker_mgr::message::{DockerMessage, DockerMessageType, ReplyHandle};
use crate::docker_mgr::observe::{agreed_state, ContainerInspection};
use crate::docker_mgr::pending::{ready_handles, still_waiting, PendingReply};
use crate::docker_mgr::state::{emitted_transitions, DockerManagerState};
use vstd::prelude::*;

verus! {

/// The identifiers among the containers that the runtime listed; a listed
/// container without an identifier is passed over.
pub open spec fn listed_ids(listed: Seq<Option<String>>) -> Seq<Seq<char>> {
    listed.filter_map(
        |entry: Option<String>|
            match entry {
                Some(id) => Some(id@),
                None => None,
            },
    )
}

/// The identifiers that a group holds, as plain text.
pub open spec fn ids_of(containers: Seq<String>) -> Seq<Seq<char>> {
    containers.map_values(|id: String| id@)
}

/// The state of the manager.
pub struct ManagerModel {
    /// The lifecycle state.
    pub state: DockerManagerState,
    /// The clients that wait, oldest first.
    pub pending_replies: Seq<PendingReply>,
    /// Every handle answered so far, oldest first.
    pub answered: Seq<ReplyHandle>,
    /// Set when a client required the group while it was stopping.
    pub pending_restart: bool,
    /// The wait before the next poll, in nanoseconds.
    pub poll_period: nat,
    /// How long the group may stay without traffic, in nanoseconds.
    pub idle_duration: nat,
    /// When traffic was last seen, in nanoseconds since the origin.
    pub poke_time: nat,
    /// The identifiers of the containers of the group.
    pub containers: Seq<Seq<char>>,
    /// The tag that names the group.
    pub group: Seq<char>,
    /// The clock reading that counts as time zero.
    pub origin: tokio::time::Instant,
}

impl ManagerModel {
    /// A manager that has just been made: it assumes the group is starting
    /// until the first poll says otherwise.
    pub open spec fn initial(
        group: Seq<char>,
        idle_seconds: nat,
        origin: tokio::time::Instant,
    ) -> ManagerModel {
        ManagerModel {
            state: DockerManagerState::Starting,
            pending_replies: Seq::empty(),
            answered: Seq::empty(),
            pending_restart: false,
            poll_period: POLL_MIN_NANOS as nat,
            idle_duration: idle_seconds * (NANOS_PER_SECOND as nat),
            poke_time: 0,
            containers: Seq::empty(),
            group,
            origin,
        }
    }

    /// The manager after the runtime listed the containers of the group.
    pub open spec fn adopted(self, listed: Seq<Option<String>>) -> ManagerModel {
        ManagerModel { containers: self.containers + listed_ids(listed), ..self }
    }

    /// Holds once the group has a container.
    pub open spec fn resolved(self) -> bool {
        self.containers.len() > 0
    }

    /// The manager after it entered `state` at time `now`: the waiters for
    /// `state` are answered in order and leave the queue, polling is fast
    /// again on entering `Starting` or `Stopping`, and entering `Running`
    /// counts as traffic.
    pub open spec fn entered(self, state: DockerManagerState, now: nat) -> ManagerModel {
        ManagerModel {
            state,
            pending_replies: still_waiting(self.pending_replies, state),
            answered: self.answered + ready_handles(self.pending_replies, state),
            poll_period: match state {
                DockerManagerState::Starting | DockerManagerState::Stopping => POLL_MIN_NANOS as nat,
                _ => self.poll_period,
            },
            poke_time: if state == DockerManagerState::Running {
                now
            } else {
                self.poke_time
            },
            ..self
        }
    }

    /// The manager after it entered each state of `path` in turn.
    pub open spec fn entered_each(self, path: Seq<DockerManagerState>, now: nat) -> ManagerModel
        decreases path.len(),
    {
        if path.len() == 0 {
            self
        } else {
            self.entered(path[0], now).entered_each(path.skip(1), now)
        }
    }

    /// The manager after a client asked to hear of `target`: a client that
    /// left a handle is answered at once when the manager is in `target`,
    /// and joins the end of the queue otherwise.
    pub open spec fn queued(
        self,
        reply_to: Option<ReplyHandle>,
        target: DockerManagerState,
    ) -> ManagerModel {
        match reply_to {
            Some(handle) => if target == self.state {
                ManagerModel { answered: self.answered.push(handle), ..self }
            } else {
                ManagerModel {
                    pending_replies: self.pending_replies.push((target, handle)),
                    ..self
                }
            },
            None => self,
        }
    }

    /// The manager after it decided to start the group.
    pub open spec fn start_issued(self) -> ManagerModel {
        self.entered(DockerManagerState::Starting, self.poke_time)
    }

    /// The manager after it decided to stop the group.
    pub open spec fn stop_issued(self) -> ManagerModel {
        self.entered(DockerManagerState::Stopping, self.poke_time)
    }

    /// The manager after a message, and the command it gives.
    pub open spec fn handled(self, msg: DockerMessage, now: nat) -> (
        ManagerModel,
        Option<RuntimeCommand>,
    ) {
        match msg.message_type {
            DockerMessageType::ContainerRequire => match self.state {
                DockerManagerState::Idle => (
                    self.queued(msg.reply_to, DockerManagerState::Running).start_issued(),
                    Some(RuntimeCommand::StartContainers),
                ),
                DockerManagerState::Starting | DockerManagerState::Running => (
                    self.queued(msg.reply_to, DockerManagerState::Running),
                    None,
                ),
                DockerManagerState::Stopping => (
                    ManagerModel { pending_restart: true, ..self }.queued(
                        msg.reply_to,
                        DockerManagerState::Running,
                    ),
                    None,
                ),
            },
            DockerMessageType::ContainerPoke => (
                ManagerModel { poke_time: now, ..self }.queued(msg.reply_to, self.state),
                None,
            ),
        }
    }

    /// The manager after it took note of what the group was observed in: an
    /// observation on which the group agrees is followed through the table
    /// of transitions, any other is passed over.
    pub open spec fn observed(self, inspections: Seq<ContainerInspection>, now: nat) -> ManagerModel {
        match agreed_state(inspections) {
            Some(seen) => self.entered_each(emitted_transitions(self.state, seen), now),
            None => self,
        }
    }

    /// Holds when the group is running and has been without traffic for
    /// longer than it may.
    pub open spec fn idle_too_long(self, now: nat) -> bool {
        self.state == DockerManagerState::Running && now - self.poke_time > self.idle_duration
    }

    /// The manager after a poll at time `now`, and the command it gives: the
    /// observation is taken in, then a group that ran idle for too long is
    /// stopped, and a group at rest that a client required while it was
    /// stopping is started again.
    pub open spec fn polled(self, inspections: Seq<ContainerInspection>, now: nat) -> (
        ManagerModel,
        Option<RuntimeCommand>,
    ) {
        let seen = self.observed(inspections, now);
        if seen.idle_too_long(now) {
            (seen.stop_issued(), Some(RuntimeCommand::StopContainers))
        } else if seen.state == DockerManagerState::Idle && seen.pending_restart {
            (
                ManagerModel { pending_restart: false, ..seen.start_issued() },
                Some(RuntimeCommand::StartContainers),
            )
        } else {
            (seen, None)
        }
    }

    /// The manager after the wait before the next poll grew.
    pub open spec fn backed_off(self) -> ManagerModel {
        ManagerModel { poll_period: grown(self.poll_period), ..self }
    }

    /// The manager after one event of its loop at time `now`, and what the
    /// loop does next.
    pub open spec fn stepped(self, event: LoopEvent, now: nat) -> (ManagerModel, LoopStep) {
        match event {
            LoopEvent::FirstPoll(inspections) => {
                let (next, command) = self.polled(inspections@, now);
                (next, LoopStep::Continue(command))
            },
            LoopEvent::PollDue(inspections) => {
                let (next, command) = self.polled(inspections@, now);
                (next.backed_off(), LoopStep::Continue(command))
            },
            LoopEvent::Message(msg) => {
                let (next, command) = self.handled(msg, now);
                (next, LoopStep::Continue(command))
            },
            LoopEvent::QueueClosed => (self, LoopStep::Exit),
        }
    }

    /// The manager after a run of events, each with the time at which it
    /// happened.
    pub open spec fn after_events(self, events: Seq<(LoopEvent, nat)>) -> ManagerModel
        decreases events.len(),
    {
        if events.len() == 0 {
            self
        } else {
            self.after_events(events.drop_last()).stepped(events.last().0, events.last().1).0
        }
    }
}

} // verus!
