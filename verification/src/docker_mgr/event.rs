//! What the event loop tells the manager, and what the manager tells the
//! loop to do.

use crate::docker_mgr::message::DockerMessage;
use crate::docker_mgr::observe::ContainerInspection;
use vstd::prelude::*;

verus! {

/// What the manager asks of the container runtime. A command is meant for
/// every container of the group, in the order of the group.
#[derive(Debug, PartialEq, Eq, Clone, Copy, Structural)]
pub enum RuntimeCommand {
    StartContainers,
    StopContainers,
}

/// What can happen to the manager's event loop.
pub enum LoopEvent {
    /// The group has been resolved and inspected for the first time.
    FirstPoll(Vec<ContainerInspection>),
    /// The wait for a message ran out, and the group has been inspected.
    PollDue(Vec<ContainerInspection>),
    /// A message arrived.
    Message(DockerMessage),
    /// Every sender of messages is gone.
    QueueClosed,
}

/// What the event loop does after an event.
#[derive(Debug, PartialEq, Eq, Clone, Copy)]
pub enum LoopStep {
    /// Carry out the command, if there is one, and wait for the next event.
    Continue(Option<RuntimeCommand>),
    /// Leave the loop; the waiters still queued are abandoned.
    Exit,
}

} // verus!
