//! The rule by which traffic through the proxy keeps the group alive.

use crate::docker_mgr::message::{DockerMessage, DockerMessageType};
use vstd::prelude::*;

verus! {

/// How one read or write on the proxied stream ended.
#[derive(Debug, PartialEq, Eq, Clone, Copy, Structural)]
pub enum IoProgress {
    /// The stream was not ready.
    Pending,
    /// The stream reported an error.
    Failed,
    /// The operation completed and moved this many bytes.
    Completed(usize),
}

/// Holds of an operation that counts as traffic: one that completed and
/// moved at least one byte.
pub open spec fn counts_as_traffic(progress: IoProgress) -> bool {
    progress matches IoProgress::Completed(bytes) && bytes > 0
}

/// Tells whether the manager is to be poked after a read or write.
pub fn emits_poke(progress: IoProgress) -> (poke: bool)
    ensures
        poke == counts_as_traffic(progress),
{
    match progress {
        IoProgress::Completed(bytes) => bytes > 0,
        _ => false,
    }
}

/// The message that traffic sends to the manager, if the operation counts
/// as traffic: a poke that nobody waits on.
pub fn poke_for(progress: IoProgress) -> (msg: Option<DockerMessage>)
    ensures
        msg.is_some() == counts_as_traffic(progress),
        msg matches Some(poke) ==> poke.message_type == DockerMessageType::ContainerPoke
            && poke.reply_to.is_none(),
{
    if emits_poke(progress) {
        Some(DockerMessage::poke())
    } else {
        None
    }
}

} // verus!
