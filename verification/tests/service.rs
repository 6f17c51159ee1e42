use proxytainer::docker_mgr::backoff::{POLL_MAX_NANOS, POLL_MIN_NANOS};
use proxytainer::docker_mgr::message::{DockerMessage, DockerMessageType, ReplyHandle};
use proxytainer::docker_mgr::{LoopEvent, LoopStep, RuntimeCommand};
use proxytainer::docker_mgr::observe::{ContainerInspection, Health, RuntimeState};
use proxytainer::docker_mgr::pending::{take_ready, PendingReply};
use proxytainer::docker_mgr::service::{
    DockerManagerService, StartupError, DEFAULT_IDLE_SECONDS, GROUP_LABEL,
};
use proxytainer::docker_mgr::state::DockerManagerState;
use tokio::sync::oneshot::error::TryRecvError;
use tokio::sync::oneshot::{channel, Receiver};

use DockerManagerState::{Idle, Running, Starting, Stopping};

type Answer = Result<(), anyhow::Error>;

const SECOND: u128 = 1_000_000_000;

fn waiter() -> (ReplyHandle, Receiver<Answer>) {
    channel::<Answer>()
}

fn is_answered(rx: &mut Receiver<Answer>) -> bool {
    matches!(rx.try_recv(), Ok(Ok(())))
}

fn is_waiting(rx: &mut Receiver<Answer>) -> bool {
    matches!(rx.try_recv(), Err(TryRecvError::Empty))
}

fn reported(status: &str, health: Option<&str>) -> ContainerInspection {
    ContainerInspection {
        state: Some(RuntimeState {
            status: Some(status.to_string()),
            health: health.map(|h| Health { status: Some(h.to_string()) }),
        }),
    }
}

fn manager_in(state: DockerManagerState, idle_seconds: u64) -> DockerManagerService {
    let mut service = DockerManagerService::new("web".to_string(), idle_seconds);
    assert_eq!(service.adopt_containers(&vec![Some("c1".to_string())]), Ok(()));
    if state != Starting {
        service.on_state_change(state, 0);
    }
    assert_eq!(service.state(), state);
    service
}

fn require(handle: ReplyHandle) -> DockerMessage {
    DockerMessage { message_type: DockerMessageType::ContainerRequire, reply_to: Some(handle) }
}

fn poke(handle: Option<ReplyHandle>) -> DockerMessage {
    DockerMessage { message_type: DockerMessageType::ContainerPoke, reply_to: handle }
}

#[test]
fn new_manager_assumes_the_group_is_starting() {
    let service = DockerManagerService::new("web".to_string(), 300);
    assert_eq!(service.state(), Starting);
    assert_eq!(service.poll_period(), 125_000_000);
    assert_eq!(service.idle_duration(), 300 * SECOND);
    assert_eq!(service.poke_time(), 0);
    assert!(!service.pending_restart());
    assert_eq!(service.pending_len(), 0);
    assert!(service.containers().is_empty());
    assert_eq!(service.group().as_str(), "web");
}

#[test]
fn idle_time_is_counted_in_nanoseconds_without_overflow() {
    assert_eq!(DockerManagerService::new(String::new(), 0).idle_duration(), 0);
    assert_eq!(DockerManagerService::new(String::new(), 1).idle_duration(), SECOND);
    assert_eq!(
        DockerManagerService::new(String::new(), u64::MAX).idle_duration(),
        18_446_744_073_709_551_615_000_000_000
    );
}

#[test]
fn adopt_containers_keeps_the_identifiers_in_order() {
    let mut service = DockerManagerService::new("web".to_string(), 300);
    let listed = vec![Some("b".to_string()), None, Some("a".to_string()), Some("b".to_string())];
    assert_eq!(service.adopt_containers(&listed), Ok(()));
    assert_eq!(service.containers(), &vec!["b".to_string(), "a".to_string(), "b".to_string()]);
    assert_eq!(service.state(), Starting);
    assert_eq!(service.poll_period(), POLL_MIN_NANOS);
}

#[test]
fn adopt_containers_adds_to_the_group() {
    let mut service = DockerManagerService::new("web".to_string(), 300);
    assert_eq!(service.adopt_containers(&vec![Some("a".to_string())]), Ok(()));
    assert_eq!(service.adopt_containers(&vec![None]), Ok(()));
    assert_eq!(service.adopt_containers(&vec![Some("b".to_string())]), Ok(()));
    assert_eq!(service.containers(), &vec!["a".to_string(), "b".to_string()]);
}

#[test]
fn an_empty_group_is_refused() {
    let mut service = DockerManagerService::new("web".to_string(), 300);
    assert_eq!(service.adopt_containers(&Vec::new()), Err(StartupError::NoContainersFound));
    assert_eq!(service.adopt_containers(&vec![None, None]), Err(StartupError::NoContainersFound));
    assert!(service.containers().is_empty());
}

#[test]
fn reset_and_grow_poll_period() {
    let mut service = manager_in(Idle, 300);
    service.grow_poll_period();
    assert_eq!(service.poll_period(), 187_500_000);
    service.grow_poll_period();
    assert_eq!(service.poll_period(), 281_250_000);
    service.reset_poll_period();
    assert_eq!(service.poll_period(), 125_000_000);
    for _ in 0..40 {
        service.grow_poll_period();
        assert!(service.poll_period() >= POLL_MIN_NANOS);
        assert!(service.poll_period() <= POLL_MAX_NANOS);
    }
    assert_eq!(service.poll_period(), 5_000_000_000);
}

#[test]
fn entering_starting_or_stopping_resets_the_poll_period() {
    for state in [Starting, Stopping] {
        let mut service = manager_in(Idle, 300);
        service.grow_poll_period();
        service.grow_poll_period();
        service.on_state_change(state, 77);
        assert_eq!(service.state(), state);
        assert_eq!(service.poll_period(), 125_000_000);
        assert_eq!(service.poke_time(), 0);
    }
}

#[test]
fn entering_idle_has_no_side_effect() {
    let mut service = manager_in(Stopping, 300);
    service.grow_poll_period();
    service.on_state_change(Idle, 77);
    assert_eq!(service.state(), Idle);
    assert_eq!(service.poll_period(), 187_500_000);
    assert_eq!(service.poke_time(), 0);
}

#[test]
fn entering_running_counts_as_traffic() {
    let mut service = manager_in(Starting, 300);
    service.grow_poll_period();
    service.on_state_change(Running, 42 * SECOND);
    assert_eq!(service.state(), Running);
    assert_eq!(service.poke_time(), 42 * SECOND);
    assert_eq!(service.poll_period(), 187_500_000);
}

#[test]
fn on_state_change_answers_only_the_waiters_for_the_new_state() {
    let mut service = manager_in(Idle, 300);
    let (for_running, mut rx_running) = waiter();
    let (for_stopping, mut rx_stopping) = waiter();
    let (for_running_too, mut rx_running_too) = waiter();
    service.queue_response(Some(for_running), Running);
    service.queue_response(Some(for_stopping), Stopping);
    service.queue_response(Some(for_running_too), Running);
    assert_eq!(service.pending_len(), 3);

    service.on_state_change(Starting, 1);
    assert_eq!(service.pending_len(), 3);
    assert!(is_waiting(&mut rx_running));
    assert!(is_waiting(&mut rx_stopping));

    service.on_state_change(Running, 2);
    assert_eq!(service.pending_len(), 1);
    assert!(is_answered(&mut rx_running));
    assert!(is_answered(&mut rx_running_too));
    assert!(is_waiting(&mut rx_stopping));

    service.on_state_change(Stopping, 3);
    assert_eq!(service.pending_len(), 0);
    assert!(is_answered(&mut rx_stopping));
}

#[test]
fn queue_response_answers_at_once_in_the_target_state() {
    let mut service = manager_in(Running, 300);
    let (handle, mut rx) = waiter();
    service.queue_response(Some(handle), Running);
    assert_eq!(service.pending_len(), 0);
    assert!(is_answered(&mut rx));
}

#[test]
fn queue_response_queues_in_any_other_state() {
    for state in [Idle, Starting, Stopping] {
        let mut service = manager_in(state, 300);
        let (handle, mut rx) = waiter();
        service.queue_response(Some(handle), Running);
        assert_eq!(service.pending_len(), 1);
        assert!(is_waiting(&mut rx));
    }
}

#[test]
fn queue_response_without_handle_does_nothing() {
    let mut service = manager_in(Idle, 300);
    service.queue_response(None, Running);
    service.queue_response(None, Idle);
    assert_eq!(service.pending_len(), 0);
    assert_eq!(service.state(), Idle);
}

#[test]
fn a_dropped_waiter_is_answered_in_silence() {
    let mut service = manager_in(Starting, 300);
    let (handle, rx) = waiter();
    service.queue_response(Some(handle), Running);
    drop(rx);
    service.on_state_change(Running, 5);
    assert_eq!(service.pending_len(), 0);
    assert_eq!(service.state(), Running);
}

#[test]
fn take_ready_hands_out_the_waiters_in_queue_order() {
    let mut pending: Vec<PendingReply> = Vec::new();
    let mut receivers = Vec::new();
    let targets = [Running, Idle, Running, Stopping, Running, Idle];
    for target in targets {
        let (handle, rx) = waiter();
        pending.push((target, handle));
        receivers.push(rx);
    }
    let ready = take_ready(&mut pending, Running);
    assert_eq!(ready.len(), 3);
    for (place, handle) in ready.into_iter().enumerate() {
        let _ = handle.send(Err(anyhow::Error::msg(format!("place {}", place))));
    }
    let places: Vec<Option<String>> = receivers
        .iter_mut()
        .map(|rx| match rx.try_recv() {
            Ok(Err(error)) => Some(error.to_string()),
            _ => None,
        })
        .collect();
    assert_eq!(
        places,
        vec![
            Some("place 0".to_string()),
            None,
            Some("place 1".to_string()),
            None,
            Some("place 2".to_string()),
            None
        ]
    );
    let left: Vec<DockerManagerState> = pending.iter().map(|waiter| waiter.0).collect();
    assert_eq!(left, vec![Idle, Stopping, Idle]);

    let ready = take_ready(&mut pending, Idle);
    assert_eq!(ready.len(), 2);
    for (place, handle) in ready.into_iter().enumerate() {
        let _ = handle.send(Err(anyhow::Error::msg(format!("rest {}", place))));
    }
    assert!(matches!(receivers[1].try_recv(), Ok(Err(error)) if error.to_string() == "rest 0"));
    assert!(matches!(receivers[5].try_recv(), Ok(Err(error)) if error.to_string() == "rest 1"));
    assert_eq!(pending.len(), 1);
    assert!(is_waiting(&mut receivers[3]));
}

#[test]
fn take_ready_on_an_empty_queue() {
    let mut pending: Vec<PendingReply> = Vec::new();
    assert!(take_ready(&mut pending, Running).is_empty());
    assert!(pending.is_empty());
}

#[test]
fn require_at_rest_queues_the_client_and_starts_the_group() {
    let mut service = manager_in(Idle, 300);
    service.grow_poll_period();
    let (handle, mut rx) = waiter();
    let command = service.handle_message(require(handle), 9);
    assert_eq!(command, Some(RuntimeCommand::StartContainers));
    assert_eq!(service.state(), Starting);
    assert_eq!(service.pending_len(), 1);
    assert_eq!(service.poll_period(), 125_000_000);
    assert_eq!(service.poke_time(), 0);
    assert!(is_waiting(&mut rx));
}

#[test]
fn require_while_starting_only_queues_the_client() {
    let mut service = manager_in(Starting, 300);
    service.grow_poll_period();
    let (handle, mut rx) = waiter();
    assert_eq!(service.handle_message(require(handle), 9), None);
    assert_eq!(service.state(), Starting);
    assert_eq!(service.pending_len(), 1);
    assert_eq!(service.poll_period(), 187_500_000);
    assert!(!service.pending_restart());
    assert!(is_waiting(&mut rx));
}

#[test]
fn require_while_running_is_answered_at_once() {
    let mut service = manager_in(Running, 300);
    let (handle, mut rx) = waiter();
    assert_eq!(service.handle_message(require(handle), 9 * SECOND), None);
    assert_eq!(service.state(), Running);
    assert_eq!(service.pending_len(), 0);
    assert_eq!(service.poke_time(), 0);
    assert!(is_answered(&mut rx));
}

#[test]
fn require_while_stopping_notes_the_restart() {
    let mut service = manager_in(Stopping, 300);
    let (handle, mut rx) = waiter();
    assert_eq!(service.handle_message(require(handle), 9), None);
    assert_eq!(service.state(), Stopping);
    assert!(service.pending_restart());
    assert_eq!(service.pending_len(), 1);
    assert!(is_waiting(&mut rx));
}

#[test]
fn require_without_handle_still_starts_a_group_at_rest() {
    let mut service = manager_in(Idle, 300);
    let msg = DockerMessage { message_type: DockerMessageType::ContainerRequire, reply_to: None };
    assert_eq!(service.handle_message(msg, 9), Some(RuntimeCommand::StartContainers));
    assert_eq!(service.state(), Starting);
    assert_eq!(service.pending_len(), 0);
}

#[test]
fn poke_resets_the_idle_clock_in_every_state() {
    for state in [Idle, Starting, Running, Stopping] {
        let mut service = manager_in(state, 300);
        assert_eq!(service.handle_message(poke(None), 7 * SECOND), None);
        assert_eq!(service.poke_time(), 7 * SECOND);
        assert_eq!(service.state(), state);
        assert_eq!(service.pending_len(), 0);
        assert!(!service.pending_restart());
    }
}

#[test]
fn poke_with_handle_is_answered_at_once_in_every_state() {
    for state in [Idle, Starting, Running, Stopping] {
        let mut service = manager_in(state, 300);
        let (handle, mut rx) = waiter();
        assert_eq!(service.handle_message(poke(Some(handle)), 3), None);
        assert_eq!(service.pending_len(), 0);
        assert!(is_answered(&mut rx));
    }
}

#[test]
fn message_builders_make_both_messages() {
    let (handle, mut rx) = waiter();
    let msg = DockerMessage::require(handle);
    assert_eq!(msg.message_type, DockerMessageType::ContainerRequire);
    let _ = msg.reply_to.expect("a handle").send(Ok(()));
    assert!(is_answered(&mut rx));
    let msg = DockerMessage::poke();
    assert_eq!(msg.message_type, DockerMessageType::ContainerPoke);
    assert!(msg.reply_to.is_none());
}

#[test]
fn start_and_stop_enter_the_intent_state_at_once() {
    let mut service = manager_in(Idle, 300);
    service.grow_poll_period();
    assert_eq!(service.start_container(), RuntimeCommand::StartContainers);
    assert_eq!(service.state(), Starting);
    assert_eq!(service.poll_period(), 125_000_000);

    let mut service = manager_in(Running, 300);
    service.grow_poll_period();
    assert_eq!(service.stop_container(), RuntimeCommand::StopContainers);
    assert_eq!(service.state(), Stopping);
    assert_eq!(service.poll_period(), 125_000_000);
    assert_eq!(service.poke_time(), 0);
}

#[test]
fn poll_follows_the_table_in_one_hop() {
    let cases = [
        (Starting, "running", Some("healthy"), Running),
        (Stopping, "exited", None, Idle),
        (Idle, "restarting", None, Starting),
        (Idle, "running", Some("starting"), Starting),
    ];
    for (from, status, health, to) in cases {
        let mut service = manager_in(from, 300);
        assert_eq!(service.poll_container(&vec![reported(status, health)], 5), None);
        assert_eq!(service.state(), to);
    }
}

#[test]
fn poll_follows_the_table_in_two_hops() {
    // Idle -> Starting -> Running: the poll period is reset on the way
    let mut service = manager_in(Idle, 300);
    service.grow_poll_period();
    assert_eq!(service.poll_container(&vec![reported("running", None)], 5 * SECOND), None);
    assert_eq!(service.state(), Running);
    assert_eq!(service.poll_period(), 125_000_000);
    assert_eq!(service.poke_time(), 5 * SECOND);

    // Running -> Stopping -> Idle
    let mut service = manager_in(Running, 300);
    service.grow_poll_period();
    assert_eq!(service.poll_container(&vec![reported("exited", None)], 5), None);
    assert_eq!(service.state(), Idle);
    assert_eq!(service.poll_period(), 125_000_000);

    // Starting -> Stopping -> Idle
    let mut service = manager_in(Starting, 300);
    assert_eq!(service.poll_container(&vec![reported("exited", None)], 5), None);
    assert_eq!(service.state(), Idle);

    // Stopping -> Idle -> Starting
    let mut service = manager_in(Stopping, 300);
    assert_eq!(service.poll_container(&vec![reported("restarting", None)], 5), None);
    assert_eq!(service.state(), Starting);
}

#[test]
fn poll_passes_over_observations_the_runtime_should_not_show() {
    // Stopping, observed Running
    let mut service = manager_in(Stopping, 300);
    service.grow_poll_period();
    assert_eq!(service.poll_container(&vec![reported("running", None)], 5), None);
    assert_eq!(service.state(), Stopping);
    assert_eq!(service.poll_period(), 187_500_000);

    // Running, observed Starting
    let mut service = manager_in(Running, 300);
    assert_eq!(service.poll_container(&vec![reported("restarting", None)], 5), None);
    assert_eq!(service.state(), Running);
    assert_eq!(service.poke_time(), 0);
}

#[test]
fn poll_that_confirms_the_state_changes_nothing() {
    let mut service = manager_in(Idle, 300);
    service.grow_poll_period();
    assert_eq!(service.poll_container(&vec![reported("exited", None)], 5), None);
    assert_eq!(service.state(), Idle);
    assert_eq!(service.poll_period(), 187_500_000);
}

#[test]
fn two_hop_transition_answers_the_waiters_of_both_states() {
    let mut service = manager_in(Idle, 300);
    let (for_starting, mut rx_starting) = waiter();
    let (for_running, mut rx_running) = waiter();
    let (for_stopping, mut rx_stopping) = waiter();
    service.queue_response(Some(for_running), Running);
    service.queue_response(Some(for_stopping), Stopping);
    service.queue_response(Some(for_starting), Starting);
    assert_eq!(service.poll_container(&vec![reported("running", Some("healthy"))], 5), None);
    assert_eq!(service.state(), Running);
    assert!(is_answered(&mut rx_starting));
    assert!(is_answered(&mut rx_running));
    assert!(is_waiting(&mut rx_stopping));
    assert_eq!(service.pending_len(), 1);
}

#[test]
fn poll_stops_a_group_that_ran_idle_for_too_long() {
    let mut service = manager_in(Running, 60);
    service.grow_poll_period();
    let running = vec![reported("running", Some("healthy"))];
    assert_eq!(service.poll_container(&running, 60 * SECOND), None);
    assert_eq!(service.state(), Running);
    assert_eq!(
        service.poll_container(&running, 60 * SECOND + 1),
        Some(RuntimeCommand::StopContainers)
    );
    assert_eq!(service.state(), Stopping);
    assert_eq!(service.poll_period(), 125_000_000);
}

#[test]
fn poll_with_zero_idle_time_stops_at_the_first_later_poll() {
    let mut service = manager_in(Starting, 0);
    let running = vec![reported("running", None)];
    // entering Running counts as traffic at that very time
    assert_eq!(service.poll_container(&running, 10), None);
    assert_eq!(service.state(), Running);
    assert_eq!(service.poll_container(&running, 10), None);
    assert_eq!(service.poll_container(&running, 11), Some(RuntimeCommand::StopContainers));
}

#[test]
fn poll_before_the_last_traffic_counts_as_no_idleness() {
    let mut service = manager_in(Running, 1);
    assert_eq!(service.handle_message(poke(None), 100 * SECOND), None);
    assert_eq!(service.poll_container(&vec![reported("running", None)], 5 * SECOND), None);
    assert_eq!(service.state(), Running);
}

#[test]
fn poll_of_a_mixed_group_still_checks_idleness() {
    let mut service = manager_in(Running, 1);
    let mixed = vec![reported("running", None), reported("exited", None)];
    assert_eq!(service.poll_container(&mixed, SECOND), None);
    assert_eq!(service.poll_container(&mixed, SECOND + 1), Some(RuntimeCommand::StopContainers));
    assert_eq!(service.state(), Stopping);
}

#[test]
fn poll_restarts_a_group_at_rest_when_a_restart_is_due() {
    let mut service = manager_in(Stopping, 300);
    let (handle, mut rx) = waiter();
    assert_eq!(service.handle_message(require(handle), 1), None);
    service.grow_poll_period();
    let command = service.poll_container(&vec![reported("exited", None)], 2);
    assert_eq!(command, Some(RuntimeCommand::StartContainers));
    assert_eq!(service.state(), Starting);
    assert!(!service.pending_restart());
    assert_eq!(service.poll_period(), 125_000_000);
    assert_eq!(service.pending_len(), 1);
    assert!(is_waiting(&mut rx));
}

#[test]
fn a_due_restart_waits_until_the_group_is_at_rest() {
    let mut service = manager_in(Stopping, 300);
    assert_eq!(service.handle_message(require(waiter().0), 1), None);
    let mixed = vec![reported("running", None), reported("exited", None)];
    assert_eq!(service.poll_container(&mixed, 2), None);
    assert_eq!(service.state(), Stopping);
    assert!(service.pending_restart());
    assert_eq!(service.poll_container(&Vec::new(), 3), None);
    assert!(service.pending_restart());
}

#[test]
fn step_at_first_poll_does_not_grow_the_poll_period() {
    let mut service = manager_in(Starting, 300);
    let step = service.step_at(LoopEvent::FirstPoll(vec![reported("exited", None)]), 0);
    assert_eq!(step, LoopStep::Continue(None));
    assert_eq!(service.state(), Idle);
    assert_eq!(service.poll_period(), 125_000_000);
}

#[test]
fn step_at_later_polls_grow_the_poll_period() {
    let mut service = manager_in(Idle, 300);
    let step = service.step_at(LoopEvent::PollDue(vec![reported("exited", None)]), 5);
    assert_eq!(step, LoopStep::Continue(None));
    assert_eq!(service.poll_period(), 187_500_000);
    // a transition resets the period, then the poll grows it once
    for _ in 0..4 {
        service.step_at(LoopEvent::PollDue(vec![reported("exited", None)]), 6);
    }
    let step = service.step_at(LoopEvent::PollDue(vec![reported("restarting", None)]), 7);
    assert_eq!(step, LoopStep::Continue(None));
    assert_eq!(service.state(), Starting);
    assert_eq!(service.poll_period(), 187_500_000);
}

#[test]
fn step_at_hands_on_the_command_of_a_poll() {
    let mut service = manager_in(Running, 1);
    let step = service.step_at(LoopEvent::PollDue(vec![reported("running", None)]), 2 * SECOND);
    assert_eq!(step, LoopStep::Continue(Some(RuntimeCommand::StopContainers)));
    assert_eq!(service.state(), Stopping);
    assert_eq!(service.poll_period(), 187_500_000);
}

#[test]
fn step_at_handles_a_message_without_polling() {
    let mut service = manager_in(Idle, 300);
    service.grow_poll_period();
    let (handle, mut rx) = waiter();
    let step = service.step_at(LoopEvent::Message(require(handle)), 5);
    assert_eq!(step, LoopStep::Continue(Some(RuntimeCommand::StartContainers)));
    assert_eq!(service.state(), Starting);
    assert_eq!(service.poll_period(), 125_000_000);
    assert!(is_waiting(&mut rx));
    let step = service.step_at(LoopEvent::Message(poke(None)), 6);
    assert_eq!(step, LoopStep::Continue(None));
    assert_eq!(service.poke_time(), 6);
    assert_eq!(service.poll_period(), 125_000_000);
}

#[test]
fn step_at_leaves_the_loop_when_the_queue_is_closed() {
    let mut service = manager_in(Starting, 300);
    let (handle, mut rx) = waiter();
    service.queue_response(Some(handle), Running);
    assert_eq!(service.step_at(LoopEvent::QueueClosed, 5), LoopStep::Exit);
    assert_eq!(service.state(), Starting);
    assert_eq!(service.pending_len(), 1);
    assert!(is_waiting(&mut rx));
    drop(service);
    assert!(matches!(rx.try_recv(), Err(TryRecvError::Closed)));
}

#[test]
fn step_reads_the_clock() {
    let mut service = manager_in(Running, 300);
    let begun = std::time::Instant::now();
    while begun.elapsed() < std::time::Duration::from_millis(3) {
        std::hint::spin_loop();
    }
    assert_eq!(service.step(LoopEvent::Message(poke(None))), LoopStep::Continue(None));
    let first = service.poke_time();
    assert!(first >= 3_000_000);
    assert!(first < 3600 * SECOND);
    assert_eq!(service.step(LoopEvent::Message(poke(None))), LoopStep::Continue(None));
    assert!(service.poke_time() >= first);
}

#[test]
fn step_on_a_closed_queue_leaves_the_loop() {
    let mut service = manager_in(Idle, 300);
    assert_eq!(service.step(LoopEvent::QueueClosed), LoopStep::Exit);
    assert_eq!(service.state(), Idle);
}

#[test]
fn step_polls_and_answers() {
    let mut service = manager_in(Starting, 300);
    let (handle, mut rx) = waiter();
    assert_eq!(service.step(LoopEvent::Message(require(handle))), LoopStep::Continue(None));
    assert!(is_waiting(&mut rx));
    let step = service.step(LoopEvent::PollDue(vec![reported("running", Some("healthy"))]));
    assert_eq!(step, LoopStep::Continue(None));
    assert_eq!(service.state(), Running);
    assert_eq!(service.poll_period(), 187_500_000);
    assert!(is_answered(&mut rx));
}

#[test]
fn group_query_asks_for_every_container_with_the_tag() {
    let service = DockerManagerService::new("game servers".to_string(), 300);
    let query = service.group_query();
    assert!(query.all);
    assert_eq!(query.label_key, "proxytainer.group");
    assert_eq!(query.label_value, "game servers");
    assert_eq!(GROUP_LABEL, "proxytainer.group");
}

#[test]
fn startup_error_in_words() {
    assert_eq!(StartupError::NoContainersFound.message(), "No containers found");
}

#[test]
fn default_idle_time_is_five_minutes() {
    assert_eq!(DEFAULT_IDLE_SECONDS, 300);
    let service = DockerManagerService::new("web".to_string(), DEFAULT_IDLE_SECONDS);
    assert_eq!(service.idle_duration(), 300 * SECOND);
}

#[test]
fn the_manager_stays_in_order_whatever_happens() {
    let mut service = manager_in(Starting, 2);
    let mut receivers: Vec<Receiver<Answer>> = Vec::new();
    let mut seed: u64 = 0x2545_f491_4f6c_dd1d;
    let mut now: u128 = 0;
    let mut answered = 0;
    for _ in 0..4000 {
        seed = seed.wrapping_mul(6364136223846793005).wrapping_add(1442695040888963407);
        let choice = (seed >> 33) % 8;
        now += ((seed >> 40) % 700) as u128 * 1_000_000;
        let event = match choice {
            0 => LoopEvent::PollDue(vec![reported("running", Some("healthy"))]),
            1 => LoopEvent::PollDue(vec![reported("exited", None)]),
            2 => LoopEvent::PollDue(vec![reported("running", Some("starting"))]),
            3 => LoopEvent::PollDue(vec![reported("running", None), reported("exited", None)]),
            4 | 5 => {
                let (handle, rx) = waiter();
                receivers.push(rx);
                LoopEvent::Message(require(handle))
            }
            6 => LoopEvent::Message(poke(None)),
            _ => LoopEvent::PollDue(vec![reported("restarting", None)]),
        };
        let step = service.step_at(event, now);
        assert!(matches!(step, LoopStep::Continue(_)));
        assert!(matches!(service.state(), Idle | Starting | Running | Stopping));
        assert!(service.poll_period() >= POLL_MIN_NANOS);
        assert!(service.poll_period() <= POLL_MAX_NANOS);
        if matches!(step, LoopStep::Continue(Some(_))) {
            // the period was reset, and has grown at most once since
            assert!(service.poll_period() <= 187_500_000);
        }
        if service.state() == Running {
            assert_eq!(service.pending_len(), 0);
        }
        // every client was answered with success or still waits
        let mut waiting = 0;
        for rx in receivers.iter_mut() {
            match rx.try_recv() {
                Ok(Ok(())) => answered += 1,
                Err(TryRecvError::Empty) => waiting += 1,
                Err(TryRecvError::Closed) => {}
                Ok(Err(_)) => panic!("the manager never answers with an error"),
            }
        }
        assert_eq!(waiting, service.pending_len());
    }
    assert!(answered > 0);
    assert!(answered + service.pending_len() == receivers.len());
}
