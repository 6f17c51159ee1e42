//! What clients send to the manager, and the one-shot handle on which a
//! client waits for its answer.

use vstd::prelude::*;

verus! {

/// The sending half of a one-shot channel. The manager carries it from the
/// message to the moment the answer is due and never looks inside.
#[verifier::external_type_specification]
#[verifier::external_body]
#[verifier::reject_recursive_types(T)]
pub struct ExOneshotSender<T>(tokio::sync::oneshot::Sender<T>);

/// The error half of the answer a client receives. The manager never makes one.
#[verifier::external_type_specification]
#[verifier::external_body]
pub struct ExAnyhowError(anyhow::Error);

/// The handle on which a client waits to hear that the group is ready.
pub type ReplyHandle = tokio::sync::oneshot::Sender<Result<(), anyhow::Error>>;

/// How many messages may wait for the manager before a sender has to wait.
pub const QUEUE_CAPACITY: usize = 8;

/// What a client asks of the manager.
#[derive(Debug, PartialEq, Eq, Clone, Copy, Structural)]
pub enum DockerMessageType {
    /// The group must be running and healthy.
    ContainerRequire,
    /// Traffic has just been seen.
    ContainerPoke,
}

/// One request to the manager, with the handle to answer on, if the client
/// waits for an answer.
pub struct DockerMessage {
    pub message_type: DockerMessageType,
    pub reply_to: Option<ReplyHandle>,
}

impl DockerMessage {
    /// The message of a client that requires the group and waits on
    /// `reply_to` to hear that it runs.
    pub fn require(reply_to: ReplyHandle) -> (msg: DockerMessage)
        ensures
            msg.message_type == DockerMessageType::ContainerRequire,
            msg.reply_to == Some(reply_to),
    {
        DockerMessage { message_type: DockerMessageType::ContainerRequire, reply_to: Some(reply_to) }
    }

    /// The message that reports traffic, with nobody waiting for an answer.
    pub fn poke() -> (msg: DockerMessage)
        ensures
            msg.message_type == DockerMessageType::ContainerPoke,
            msg.reply_to.is_none(),
    {
        DockerMessage { message_type: DockerMessageType::ContainerPoke, reply_to: None }
    }
}

/// Answers a waiting client with success, through
/// `tokio::sync::oneshot::Sender::send`. The call never blocks and never
/// panics; when the client has stopped waiting the answer is dropped.
/// Nothing is claimed of the outcome.
#[verifier::external_body]
pub(crate) fn fulfill(reply_to: ReplyHandle) {
    let _ = reply_to.send(Ok(()));
}

} // verus!
