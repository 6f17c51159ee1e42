//! The manager itself: the state behind the event loop, and one operation
//! for everything the loop can ask of it.

use crate::docker_mgr::backoff::{grow, POLL_MIN_NANOS};
use crate::docker_mgr::clock::{clock_origin, nanos_since, NANOS_PER_SECOND};
use crate::docker_mgr::event::{LoopEvent, LoopStep, RuntimeCommand};
use crate::docker_mgr::laws::{
    backing_off_keeps_sound, entering_keeps_sound, initial_is_sound, polling_keeps_sound, sound,
};
use crate::docker_mgr::message::{fulfill, DockerMessage, DockerMessageType, ReplyHandle};
use crate::docker_mgr::model::{ids_of, listed_ids, ManagerModel};
use crate::docker_mgr::observe::{consensus, ContainerInspection};
use crate::docker_mgr::pending::{take_ready, PendingReply};
use crate::docker_mgr::state::{transition_path, DockerManagerState};
use vstd::prelude::*;

verus! {

/// How long a group may stay without traffic where nothing else is asked
/// for, in seconds.
pub const DEFAULT_IDLE_SECONDS: u64 = 300;

/// The label whose value is the tag of the group a container belongs to.
pub const GROUP_LABEL: &'static str = "proxytainer.group";

/// What the manager asks the runtime to list in order to find its group.
#[derive(Debug)]
pub struct GroupQuery {
    /// Whether containers that do not run are listed too.
    pub all: bool,
    /// The label that a listed container carries.
    pub label_key: String,
    /// The value of that label.
    pub label_value: String,
}

/// Why a manager cannot go to work.
#[derive(Debug, PartialEq, Eq, Clone, Copy, Structural)]
pub enum StartupError {
    /// No container carries the tag of the group.
    NoContainersFound,
}

impl StartupError {
    /// The error in words.
    pub fn message(&self) -> (text: String)
        ensures
            text@ == "No containers found"@,
    {
        match self {
            StartupError::NoContainersFound => "No containers found".to_owned(),
        }
    }
}

/// The state of the lifecycle manager. Only its event loop touches it.
pub struct DockerManagerService {
    /// The identifiers of the containers of the group.
    containers: Vec<String>,
    /// The wait before the next poll, in nanoseconds.
    poll_period: u64,
    /// How long the group may stay without traffic, in nanoseconds.
    idle_duration: u128,
    /// When traffic was last seen, in nanoseconds since `origin`.
    poke_time: u128,
    /// The tag that names the group.
    group: String,
    /// The clients that wait, oldest first.
    pending_replies: Vec<PendingReply>,
    /// Set when a client required the group while it was stopping.
    pending_restart: bool,
    /// The lifecycle state.
    state: DockerManagerState,
    /// The clock reading that counts as time zero.
    origin: tokio::time::Instant,
    /// The handles answered so far, oldest first. The record exists for the
    /// contracts alone and takes no room in the compiled program.
    answered: Ghost<Seq<ReplyHandle>>,
}

impl View for DockerManagerService {
    type V = ManagerModel;

    closed spec fn view(&self) -> ManagerModel {
        ManagerModel {
            state: self.state,
            pending_replies: self.pending_replies@,
            answered: self.answered@,
            pending_restart: self.pending_restart,
            poll_period: self.poll_period as nat,
            idle_duration: self.idle_duration as nat,
            poke_time: self.poke_time as nat,
            containers: ids_of(self.containers@),
            group: self.group@,
            origin: self.origin,
        }
    }
}

impl DockerManagerService {
    /// Makes a manager for the group tagged `group` that lets the group run
    /// without traffic for `idle` seconds. Time is counted from this moment.
    pub fn new(group: String, idle: u64) -> (service: DockerManagerService)
        ensures
            service@ == ManagerModel::initial(group@, idle as nat, service@.origin),
            sound(service@),
    {
        let service = DockerManagerService {
            containers: Vec::new(),
            poll_period: POLL_MIN_NANOS,
            idle_duration: idle as u128 * NANOS_PER_SECOND as u128,
            poke_time: 0,
            group,
            pending_replies: Vec::new(),
            pending_restart: false,
            state: DockerManagerState::Starting,
            origin: clock_origin(),
            answered: Ghost(Seq::empty()),
        };
        proof {
            assert(ids_of(service.containers@) =~= Seq::<Seq<char>>::empty());
            initial_is_sound(group@, idle as nat, service.origin);
        }
        service
    }

    /// The question that finds the group: every container, stopped ones
    /// too, that carries the group's tag under the group label.
    pub fn group_query(&self) -> (query: GroupQuery)
        ensures
            query.all,
            query.label_key@ == GROUP_LABEL@,
            query.label_value@ == self@.group,
    {
        GroupQuery {
            all: true,
            label_key: GROUP_LABEL.to_owned(),
            label_value: self.group.clone(),
        }
    }

    /// Takes the containers that the runtime listed for the group into the
    /// group. A group that is still empty afterwards cannot be managed.
    pub fn adopt_containers(&mut self, listed: &Vec<Option<String>>) -> (outcome: Result<
        (),
        StartupError,
    >)
        ensures
            final(self)@ == old(self)@.adopted(listed@),
            outcome == if final(self)@.resolved() {
                Ok::<(), StartupError>(())
            } else {
                Err::<(), StartupError>(StartupError::NoContainersFound)
            },
            sound(old(self)@) ==> sound(final(self)@),
    {
        let ghost before = self@;
        let mut i: usize = 0;
        proof {
            assert(listed@.take(0) =~= Seq::<Option<String>>::empty());
            assert(self@.containers =~= before.containers + listed_ids(listed@.take(0)));
        }
        while i < listed.len()
            invariant
                i <= listed.len(),
                self@ == (ManagerModel {
                    containers: before.containers + listed_ids(listed@.take(i as int)),
                    ..before
                }),
            decreases listed.len() - i,
        {
            let ghost held = self.containers@;
            proof {
                assert(listed@.take(i + 1).drop_last() =~= listed@.take(i as int));
            }
            match &listed[i] {
                Some(id) => {
                    self.containers.push(id.clone());
                    proof {
                        assert(ids_of(self.containers@) =~= ids_of(held).push(id@));
                        assert(listed_ids(listed@.take(i + 1)) =~= listed_ids(
                            listed@.take(i as int),
                        ).push(id@));
                        assert(self@.containers =~= before.containers + listed_ids(
                            listed@.take(i + 1),
                        ));
                    }
                },
                None => {},
            }
            i = i + 1;
        }
        proof {
            assert(listed@.take(i as int) =~= listed@);
        }
        if self.containers.len() == 0 {
            Err(StartupError::NoContainersFound)
        } else {
            Ok(())
        }
    }

    /// The lifecycle state the manager is in.
    pub fn state(&self) -> (state: DockerManagerState)
        ensures
            state == self@.state,
    {
        self.state
    }

    /// The wait before the next poll, in nanoseconds.
    pub fn poll_period(&self) -> (nanos: u64)
        ensures
            nanos == self@.poll_period,
    {
        self.poll_period
    }

    /// How long the group may stay without traffic, in nanoseconds.
    pub fn idle_duration(&self) -> (nanos: u128)
        ensures
            nanos == self@.idle_duration,
    {
        self.idle_duration
    }

    /// When traffic was last seen, in nanoseconds since the manager was made.
    pub fn poke_time(&self) -> (nanos: u128)
        ensures
            nanos == self@.poke_time,
    {
        self.poke_time
    }

    /// Whether a client required the group while it was stopping and the
    /// restart is still due.
    pub fn pending_restart(&self) -> (due: bool)
        ensures
            due == self@.pending_restart,
    {
        self.pending_restart
    }

    /// The number of clients in the queue.
    pub fn pending_len(&self) -> (waiting: usize)
        ensures
            waiting == self@.pending_replies.len(),
    {
        self.pending_replies.len()
    }

    /// The identifiers of the containers of the group, in the order in
    /// which the runtime listed them.
    pub fn containers(&self) -> (ids: &Vec<String>)
        ensures
            ids_of(ids@) == self@.containers,
    {
        &self.containers
    }

    /// The tag that names the group.
    pub fn group(&self) -> (tag: &String)
        ensures
            tag@ == self@.group,
    {
        &self.group
    }

    /// Makes polling fast again.
    pub fn reset_poll_period(&mut self)
        ensures
            final(self)@ == (ManagerModel { poll_period: POLL_MIN_NANOS as nat, ..old(self)@ }),
            sound(old(self)@) ==> sound(final(self)@),
    {
        self.poll_period = POLL_MIN_NANOS;
    }

    /// Lengthens the wait before the next poll.
    pub fn grow_poll_period(&mut self)
        ensures
            final(self)@ == old(self)@.backed_off(),
            sound(old(self)@) ==> sound(final(self)@),
    {
        proof {
            if sound(self@) {
                backing_off_keeps_sound(self@);
            }
        }
        self.poll_period = grow(self.poll_period);
    }

    /// Answers a client, and puts the answer on record. Every answer the
    /// manager gives is given here.
    fn answer(&mut self, reply_to: ReplyHandle)
        ensures
            final(self)@ == (ManagerModel {
                answered: old(self)@.answered.push(reply_to),
                ..old(self)@
            }),
    {
        self.answered = Ghost(self.answered@.push(reply_to));
        fulfill(reply_to);
    }

    /// Enters `state` at time `now`, and answers the clients that waited
    /// for it.
    pub fn on_state_change(&mut self, state: DockerManagerState, now: u128)
        ensures
            final(self)@ == old(self)@.entered(state, now as nat),
            sound(old(self)@) ==> sound(final(self)@),
    {
        proof {
            if sound(self@) {
                entering_keeps_sound(self@, state, now as nat);
            }
        }
        self.state = state;
        let ready = take_ready(&mut self.pending_replies, state);
        let ghost queued = self@;
        for handle in turn: ready
            invariant
                turn.seq() == ready@,
                self@ == (ManagerModel {
                    answered: queued.answered + ready@.take(turn.index() as int),
                    ..queued
                }),
        {
            proof {
                assert(ready@.take(turn.index() + 1) =~= ready@.take(turn.index() as int).push(
                    handle,
                ));
            }
            self.answer(handle);
        }
        proof {
            assert(ready@.take(ready@.len() as int) =~= ready@);
        }
        match state {
            DockerManagerState::Idle => {},
            DockerManagerState::Starting | DockerManagerState::Stopping => {
                self.reset_poll_period();
            },
            DockerManagerState::Running => {
                self.poke_time = now;
            },
        }
    }

    /// Takes note of a client that wants to hear of `state`: it is answered
    /// at once when the manager is in `state`, and queued otherwise. A client
    /// that left no handle is passed over.
    pub fn queue_response(&mut self, reply_to: Option<ReplyHandle>, state: DockerManagerState)
        ensures
            final(self)@ == old(self)@.queued(reply_to, state),
            sound(old(self)@) && (state == DockerManagerState::Running || state == old(self)@.state)
                ==> sound(final(self)@),
    {
        match reply_to {
            Some(handle) => {
                if state == self.state {
                    self.answer(handle);
                } else {
                    self.pending_replies.push((state, handle));
                }
            },
            None => {},
        }
    }

    /// Decides to start the group: the manager enters `Starting` before the
    /// runtime is asked.
    pub fn start_container(&mut self) -> (command: RuntimeCommand)
        ensures
            final(self)@ == old(self)@.start_issued(),
            command == RuntimeCommand::StartContainers,
            sound(old(self)@) ==> sound(final(self)@),
    {
        let unchanged = self.poke_time;
        self.on_state_change(DockerManagerState::Starting, unchanged);
        RuntimeCommand::StartContainers
    }

    /// Decides to stop the group: the manager enters `Stopping` before the
    /// runtime is asked.
    pub fn stop_container(&mut self) -> (command: RuntimeCommand)
        ensures
            final(self)@ == old(self)@.stop_issued(),
            command == RuntimeCommand::StopContainers,
            sound(old(self)@) ==> sound(final(self)@),
    {
        let unchanged = self.poke_time;
        self.on_state_change(DockerManagerState::Stopping, unchanged);
        RuntimeCommand::StopContainers
    }

    /// Handles one message that arrived at time `now`.
    pub fn handle_message(&mut self, msg: DockerMessage, now: u128) -> (command: Option<
        RuntimeCommand,
    >)
        ensures
            final(self)@ == old(self)@.handled(msg, now as nat).0,
            command == old(self)@.handled(msg, now as nat).1,
            sound(old(self)@) ==> sound(final(self)@),
    {
        let DockerMessage { message_type, reply_to } = msg;
        match message_type {
            DockerMessageType::ContainerRequire => {
                match self.state {
                    DockerManagerState::Idle => {
                        self.queue_response(reply_to, DockerManagerState::Running);
                        Some(self.start_container())
                    },
                    DockerManagerState::Starting | DockerManagerState::Running => {
                        self.queue_response(reply_to, DockerManagerState::Running);
                        None
                    },
                    DockerManagerState::Stopping => {
                        self.pending_restart = true;
                        self.queue_response(reply_to, DockerManagerState::Running);
                        None
                    },
                }
            },
            DockerMessageType::ContainerPoke => {
                self.poke_time = now;
                let current = self.state;
                self.queue_response(reply_to, current);
                None
            },
        }
    }

    /// Runs one poll at time `now` on what the inspection of every
    /// container of the group returned.
    pub fn poll_container(&mut self, inspections: &Vec<ContainerInspection>, now: u128) -> (command:
        Option<RuntimeCommand>)
        ensures
            final(self)@ == old(self)@.polled(inspections@, now as nat).0,
            command == old(self)@.polled(inspections@, now as nat).1,
            sound(old(self)@) ==> sound(final(self)@),
    {
        let ghost before = self@;
        proof {
            if sound(self@) {
                polling_keeps_sound(self@, inspections@, now as nat);
            }
        }
        match consensus(inspections) {
            Some(seen) => {
                let path = transition_path(self.state, seen);
                let mut i: usize = 0;
                proof {
                    assert(path@.skip(0) =~= path@);
                }
                while i < path.len()
                    invariant
                        i <= path.len(),
                        self@.entered_each(path@.skip(i as int), now as nat) == before.entered_each(
                            path@,
                            now as nat,
                        ),
                    decreases path.len() - i,
                {
                    proof {
                        assert(path@.skip(i as int).skip(1) =~= path@.skip(i + 1));
                    }
                    self.on_state_change(path[i], now);
                    i = i + 1;
                }
            },
            None => {},
        }
        if self.state == DockerManagerState::Running && now > self.poke_time && now
            - self.poke_time > self.idle_duration {
            Some(self.stop_container())
        } else if self.state == DockerManagerState::Idle && self.pending_restart {
            let command = self.start_container();
            self.pending_restart = false;
            Some(command)
        } else {
            None
        }
    }

    /// Takes one event of the event loop that happened at time `now`.
    pub fn step_at(&mut self, event: LoopEvent, now: u128) -> (next: LoopStep)
        ensures
            final(self)@ == old(self)@.stepped(event, now as nat).0,
            next == old(self)@.stepped(event, now as nat).1,
            sound(old(self)@) ==> sound(final(self)@),
    {
        match event {
            LoopEvent::FirstPoll(inspections) => {
                let command = self.poll_container(&inspections, now);
                LoopStep::Continue(command)
            },
            LoopEvent::PollDue(inspections) => {
                let command = self.poll_container(&inspections, now);
                self.grow_poll_period();
                LoopStep::Continue(command)
            },
            LoopEvent::Message(msg) => {
                let command = self.handle_message(msg, now);
                LoopStep::Continue(command)
            },
            LoopEvent::QueueClosed => LoopStep::Exit,
        }
    }

    /// Takes one event of the event loop, at the time the clock shows.
    pub fn step(&mut self, event: LoopEvent) -> (next: LoopStep)
        ensures
            exists|now: nat|
                (final(self)@, next) == #[trigger] old(self)@.stepped(event, now),
            sound(old(self)@) ==> sound(final(self)@),
    {
        let now = nanos_since(&self.origin);
        self.step_at(event, now)
    }
}

} // verus!
