//! The four lifecycle states and the table that turns an observed state into
//! the transitions the manager emits.

use vstd::prelude::*;

verus! {

/// Where the container group is in its lifecycle, as the manager sees it.
#[derive(Debug, PartialEq, Eq, Clone, Copy, Structural)]
pub enum DockerManagerState {
    Idle,
    Starting,
    Running,
    Stopping,
}

/// The moves a container group makes on its own: it is started from rest,
/// becomes ready or is stopped while starting, is stopped while running, and
/// comes to rest once stopped.
pub open spec fn legal_edge(from: DockerManagerState, to: DockerManagerState) -> bool {
    match (from, to) {
        (DockerManagerState::Idle, DockerManagerState::Starting) => true,
        (DockerManagerState::Starting, DockerManagerState::Running) => true,
        (DockerManagerState::Starting, DockerManagerState::Stopping) => true,
        (DockerManagerState::Running, DockerManagerState::Stopping) => true,
        (DockerManagerState::Stopping, DockerManagerState::Idle) => true,
        _ => false,
    }
}

/// The observations the manager does not act on: the runtime should not move
/// there directly, so the manager waits for a later poll.
pub open spec fn ignored_observation(from: DockerManagerState, observed: DockerManagerState) -> bool {
    match (from, observed) {
        (DockerManagerState::Idle, DockerManagerState::Stopping) => true,
        (DockerManagerState::Stopping, DockerManagerState::Running) => true,
        (DockerManagerState::Running, DockerManagerState::Starting) => true,
        _ => false,
    }
}

/// The transitions emitted, in order, when the manager is in `from` and the
/// whole group is observed in `observed`.
pub open spec fn emitted_transitions(
    from: DockerManagerState,
    observed: DockerManagerState,
) -> Seq<DockerManagerState> {
    match (from, observed) {
        (DockerManagerState::Idle, DockerManagerState::Running) => seq![
            DockerManagerState::Starting,
            DockerManagerState::Running,
        ],
        (DockerManagerState::Starting, DockerManagerState::Running) => seq![
            DockerManagerState::Running,
        ],
        (DockerManagerState::Starting, DockerManagerState::Stopping) => seq![
            DockerManagerState::Stopping,
        ],
        (DockerManagerState::Stopping, DockerManagerState::Idle) => seq![DockerManagerState::Idle],
        (DockerManagerState::Running, DockerManagerState::Stopping) => seq![
            DockerManagerState::Stopping,
        ],
        (DockerManagerState::Idle, DockerManagerState::Starting) => seq![
            DockerManagerState::Starting,
        ],
        (DockerManagerState::Stopping, DockerManagerState::Starting) => seq![
            DockerManagerState::Idle,
            DockerManagerState::Starting,
        ],
        (DockerManagerState::Running, DockerManagerState::Idle) => seq![
            DockerManagerState::Stopping,
            DockerManagerState::Idle,
        ],
        (DockerManagerState::Starting, DockerManagerState::Idle) => seq![
            DockerManagerState::Stopping,
            DockerManagerState::Idle,
        ],
        _ => Seq::empty(),
    }
}

/// A lifecycle state is exactly one of the four.
pub proof fn exactly_one_state(state: DockerManagerState)
    ensures
        state is Idle || state is Starting || state is Running || state is Stopping,
        !(state is Idle && state is Starting),
        !(state is Idle && state is Running),
        !(state is Idle && state is Stopping),
        !(state is Starting && state is Running),
        !(state is Starting && state is Stopping),
        !(state is Running && state is Stopping),
{
}

/// The transitions emitted for an observation follow the moves a group
/// makes on its own, one or two of them, from the state the manager is in to
/// the state observed. None is emitted exactly when the observation shows
/// the state the manager is in already, or is one of those passed over.
pub proof fn emitted_transitions_are_legal(from: DockerManagerState, observed: DockerManagerState)
    ensures
        emitted_transitions(from, observed).len() <= 2,
        emitted_transitions(from, observed).len() == 0 <==> (from == observed
            || ignored_observation(from, observed)),
        emitted_transitions(from, observed).len() > 0 ==> {
            &&& legal_edge(from, emitted_transitions(from, observed).first())
            &&& emitted_transitions(from, observed).last() == observed
        },
        emitted_transitions(from, observed).len() == 2 ==> legal_edge(
            emitted_transitions(from, observed)[0],
            emitted_transitions(from, observed)[1],
        ),
{
}

/// Looks up the transitions to emit for an observation.
pub fn transition_path(from: DockerManagerState, observed: DockerManagerState) -> (path: Vec<
    DockerManagerState,
>)
    ensures
        path@ == emitted_transitions(from, observed),
{
    let mut path: Vec<DockerManagerState> = Vec::new();
    match (from, observed) {
        (DockerManagerState::Idle, DockerManagerState::Running) => {
            path.push(DockerManagerState::Starting);
            path.push(DockerManagerState::Running);
        },
        (DockerManagerState::Starting, DockerManagerState::Running)
        | (DockerManagerState::Starting, DockerManagerState::Stopping)
        | (DockerManagerState::Stopping, DockerManagerState::Idle)
        | (DockerManagerState::Running, DockerManagerState::Stopping)
        | (DockerManagerState::Idle, DockerManagerState::Starting) => {
            path.push(observed);
        },
        (DockerManagerState::Stopping, DockerManagerState::Starting) => {
            path.push(DockerManagerState::Idle);
            path.push(DockerManagerState::Starting);
        },
        (DockerManagerState::Running, DockerManagerState::Idle)
        | (DockerManagerState::Starting, DockerManagerState::Idle) => {
            path.push(DockerManagerState::Stopping);
            path.push(DockerManagerState::Idle);
        },
        _ => {},
    }
    path
}

} // verus!
