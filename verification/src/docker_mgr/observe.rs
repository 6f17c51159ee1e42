//! What the container runtime reports of a container, and the lifecycle
//! state the manager reads from it.

use crate::docker_mgr::state::DockerManagerState;
use vstd::prelude::*;
use vstd::string::StringSliceAdditionalSpecFns;

verus! {

/// The health check of a container, as the runtime reports it.
#[derive(Debug)]
pub struct Health {
    pub status: Option<String>,
}

/// The process state of a container, as the runtime reports it.
#[derive(Debug)]
pub struct RuntimeState {
    pub status: Option<String>,
    pub health: Option<Health>,
}

/// The answer to one inspection of a container.
#[derive(Debug)]
pub struct ContainerInspection {
    pub state: Option<RuntimeState>,
}

/// Holds when the runtime reported exactly the word `word`.
pub open spec fn says(reported: Option<String>, word: &str) -> bool {
    reported matches Some(text) && text@ == word@
}

/// The lifecycle state that one container's process state stands for: a
/// running container counts as running when it has no health check or its
/// health is `healthy` or `none`, and as starting with any other health; a
/// restarting container counts as starting; every other container is at rest.
pub open spec fn derived_state(state: RuntimeState) -> DockerManagerState {
    if says(state.status, "running") {
        match state.health {
            None => DockerManagerState::Running,
            Some(health) => if says(health.status, "healthy") || says(health.status, "none") {
                DockerManagerState::Running
            } else {
                DockerManagerState::Starting
            },
        }
    } else if says(state.status, "restarting") {
        DockerManagerState::Starting
    } else {
        DockerManagerState::Idle
    }
}

/// The state that an inspection reports, if it reports a process state at all.
pub open spec fn observation(inspection: ContainerInspection) -> Option<DockerManagerState> {
    match inspection.state {
        Some(state) => Some(derived_state(state)),
        None => None,
    }
}

/// Holds when some inspection reports `state`.
pub open spec fn reported(
    inspections: Seq<ContainerInspection>,
    state: DockerManagerState,
) -> bool {
    exists|i: int|
        0 <= i < inspections.len() && #[trigger] observation(inspections[i]) == Some(state)
}

/// Holds when `state` is reported and no inspection reports another state.
pub open spec fn unanimous(
    inspections: Seq<ContainerInspection>,
    state: DockerManagerState,
) -> bool {
    &&& reported(inspections, state)
    &&& forall|i: int|
        0 <= i < inspections.len() ==> (#[trigger] observation(inspections[i]) matches Some(other)
            ==> other == state)
}

/// The one state that the whole group is observed in, if there is one.
pub open spec fn agreed_state(inspections: Seq<ContainerInspection>) -> Option<
    DockerManagerState,
> {
    if unanimous(inspections, DockerManagerState::Idle) {
        Some(DockerManagerState::Idle)
    } else if unanimous(inspections, DockerManagerState::Starting) {
        Some(DockerManagerState::Starting)
    } else if unanimous(inspections, DockerManagerState::Running) {
        Some(DockerManagerState::Running)
    } else if unanimous(inspections, DockerManagerState::Stopping) {
        Some(DockerManagerState::Stopping)
    } else {
        None
    }
}

/// The states that the inspections report, each once, in the order in which
/// they are first reported.
pub open spec fn distinct_observations(inspections: Seq<ContainerInspection>) -> Seq<
    DockerManagerState,
>
    decreases inspections.len(),
{
    if inspections.len() == 0 {
        Seq::empty()
    } else {
        let earlier = distinct_observations(inspections.drop_last());
        match observation(inspections.last()) {
            Some(state) => if earlier.contains(state) {
                earlier
            } else {
                earlier.push(state)
            },
            None => earlier,
        }
    }
}

/// A state is among the distinct observations exactly when some inspection
/// reports it.
pub proof fn lemma_distinct_holds_reported(
    inspections: Seq<ContainerInspection>,
    state: DockerManagerState,
)
    ensures
        distinct_observations(inspections).contains(state) <==> reported(inspections, state),
    decreases inspections.len(),
{
    let distinct = distinct_observations(inspections);
    if inspections.len() == 0 {
    } else {
        let front = inspections.drop_last();
        let last = inspections.last();
        let earlier = distinct_observations(front);
        lemma_distinct_holds_reported(front, state);
        if distinct.contains(state) {
            if earlier.contains(state) {
                let i = choose|i: int|
                    0 <= i < front.len() && #[trigger] observation(front[i]) == Some(state);
                assert(front[i] == inspections[i]);
                assert(observation(inspections[i]) == Some(state));
            } else {
                let k = choose|k: int| 0 <= k < distinct.len() && distinct[k] == state;
                assert(distinct == earlier.push(state)) by {
                    if k < earlier.len() {
                        assert(earlier[k] == state);
                    }
                }
                assert(observation(inspections[inspections.len() - 1]) == Some(state));
            }
            assert(reported(inspections, state));
        }
        if reported(inspections, state) {
            let i = choose|i: int|
                0 <= i < inspections.len() && #[trigger] observation(inspections[i]) == Some(state);
            if i < front.len() {
                assert(front[i] == inspections[i]);
                assert(observation(front[i]) == Some(state));
                assert(reported(front, state));
                let k = choose|k: int| 0 <= k < earlier.len() && earlier[k] == state;
                assert(distinct[k] == state);
            } else {
                assert(observation(last) == Some(state));
                if earlier.contains(state) {
                    assert(distinct == earlier);
                } else {
                    assert(distinct[earlier.len() as int] == state);
                }
            }
            assert(distinct.contains(state));
        }
    }
}

/// The distinct observations hold no state twice.
pub proof fn lemma_distinct_holds_once(inspections: Seq<ContainerInspection>)
    ensures
        distinct_observations(inspections).no_duplicates(),
    decreases inspections.len(),
{
    if inspections.len() > 0 {
        lemma_distinct_holds_once(inspections.drop_last());
    }
}

/// The group agrees on a state exactly when one distinct state is observed,
/// and then it is that state.
pub proof fn lemma_agreed_state(inspections: Seq<ContainerInspection>)
    ensures
        distinct_observations(inspections).len() == 1 ==> agreed_state(inspections) == Some(
            distinct_observations(inspections)[0],
        ),
        distinct_observations(inspections).len() != 1 ==> agreed_state(inspections).is_none(),
{
    let distinct = distinct_observations(inspections);
    lemma_distinct_holds_once(inspections);
    if distinct.len() == 1 {
        let only = distinct[0];
        assert(distinct.contains(only));
        lemma_distinct_holds_reported(inspections, only);
        assert forall|i: int| 0 <= i < inspections.len() implies (#[trigger] observation(
            inspections[i],
        ) matches Some(other) ==> other == only) by {
            if let Some(other) = observation(inspections[i]) {
                assert(reported(inspections, other));
                lemma_distinct_holds_reported(inspections, other);
                let k = choose|k: int| 0 <= k < distinct.len() && distinct[k] == other;
            }
        }
        assert(unanimous(inspections, only));
        assert forall|state: DockerManagerState| unanimous(inspections, state) implies state
            == only by {
            let i = choose|i: int|
                0 <= i < inspections.len() && #[trigger] observation(inspections[i]) == Some(state);
        }
    } else {
        assert forall|state: DockerManagerState| !unanimous(inspections, state) by {
            if unanimous(inspections, state) {
                lemma_distinct_holds_reported(inspections, state);
                assert(distinct.contains(state));
                assert(distinct.len() >= 2);
                assert(distinct.contains(distinct[0]));
                assert(distinct.contains(distinct[1]));
                lemma_distinct_holds_reported(inspections, distinct[0]);
                lemma_distinct_holds_reported(inspections, distinct[1]);
                let i = choose|i: int|
                    0 <= i < inspections.len() && #[trigger] observation(inspections[i]) == Some(
                        distinct[0],
                    );
                let j = choose|j: int|
                    0 <= j < inspections.len() && #[trigger] observation(inspections[j]) == Some(
                        distinct[1],
                    );
                assert(distinct[0] == state);
                assert(distinct[1] == state);
            }
        }
    }
}

/// The group agrees on a state exactly when that state is reported and no
/// other is; at most one state can be agreed on.
pub proof fn agreement_is_unanimity(
    inspections: Seq<ContainerInspection>,
    state: DockerManagerState,
)
    ensures
        agreed_state(inspections) == Some(state) <==> unanimous(inspections, state),
{
    if unanimous(inspections, state) {
        let i = choose|i: int|
            0 <= i < inspections.len() && #[trigger] observation(inspections[i]) == Some(state);
        assert forall|other: DockerManagerState| unanimous(inspections, other) implies other
            == state by {}
    }
}

/// Compares a reported text with a word, byte by byte.
pub fn text_is(text: &str, word: &str) -> (same: bool)
    ensures
        same == (text@ == word@),
{
    let left = text.as_bytes();
    let right = word.as_bytes();
    proof {
        vstd::utf8::encode_utf8_decode_utf8(text@);
        vstd::utf8::encode_utf8_decode_utf8(word@);
    }
    if left.len() != right.len() {
        return false;
    }
    let mut i: usize = 0;
    while i < left.len()
        invariant
            i <= left.len(),
            left.len() == right.len(),
            forall|k: int| 0 <= k < i ==> left@[k] == right@[k],
            left@ == text.spec_bytes(),
            right@ == word.spec_bytes(),
            text@ == word@ ==> left@ == right@,
        decreases left.len() - i,
    {
        if left[i] != right[i] {
            return false;
        }
        i = i + 1;
    }
    proof {
        assert(left@ =~= right@);
    }
    true
}

/// Tells whether the runtime reported exactly the word `word`.
pub fn reports_word(reported: &Option<String>, word: &str) -> (same: bool)
    ensures
        same == says(*reported, word),
{
    match reported {
        Some(text) => text_is(text.as_str(), word),
        None => false,
    }
}

/// Reads the lifecycle state from the process state of one container.
pub fn derive_state(state: &RuntimeState) -> (derived: DockerManagerState)
    ensures
        derived == derived_state(*state),
{
    if reports_word(&state.status, "running") {
        match &state.health {
            None => DockerManagerState::Running,
            Some(health) => {
                if reports_word(&health.status, "healthy") || reports_word(&health.status, "none") {
                    DockerManagerState::Running
                } else {
                    DockerManagerState::Starting
                }
            },
        }
    } else if reports_word(&state.status, "restarting") {
        DockerManagerState::Starting
    } else {
        DockerManagerState::Idle
    }
}

/// Tells whether `state` is among `seen`.
fn already_seen(seen: &Vec<DockerManagerState>, state: DockerManagerState) -> (found: bool)
    ensures
        found == seen@.contains(state),
{
    let mut i: usize = 0;
    while i < seen.len()
        invariant
            i <= seen.len(),
            forall|k: int| 0 <= k < i ==> seen@[k] != state,
        decreases seen.len() - i,
    {
        if seen[i] == state {
            return true;
        }
        i = i + 1;
    }
    false
}

/// Collects the states that the inspections report, each once, in the order
/// in which they are first reported. An inspection without a process state
/// reports nothing.
pub fn distinct_states(inspections: &Vec<ContainerInspection>) -> (seen: Vec<DockerManagerState>)
    ensures
        seen@ == distinct_observations(inspections@),
{
    let mut seen: Vec<DockerManagerState> = Vec::new();
    let mut i: usize = 0;
    proof {
        assert(inspections@.take(0) =~= Seq::<ContainerInspection>::empty());
    }
    while i < inspections.len()
        invariant
            i <= inspections.len(),
            seen@ == distinct_observations(inspections@.take(i as int)),
        decreases inspections.len() - i,
    {
        proof {
            assert(inspections@.take(i + 1).drop_last() =~= inspections@.take(i as int));
        }
        match &inspections[i].state {
            Some(state) => {
                let derived = derive_state(state);
                if !already_seen(&seen, derived) {
                    seen.push(derived);
                }
            },
            None => {},
        }
        i = i + 1;
    }
    proof {
        assert(inspections@.take(i as int) =~= inspections@);
    }
    seen
}

/// Finds the one state that the whole group is observed in. A group whose
/// containers report different states, or none at all, agrees on nothing.
pub fn consensus(inspections: &Vec<ContainerInspection>) -> (agreed: Option<DockerManagerState>)
    ensures
        agreed == agreed_state(inspections@),
{
    let seen = distinct_states(inspections);
    proof {
        lemma_agreed_state(inspections@);
    }
    if seen.len() == 1 {
        Some(seen[0])
    } else {
        None
    }
}

} // verus!
