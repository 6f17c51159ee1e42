use proxytainer::docker_mgr::observe::{
    consensus, derive_state, distinct_states, reports_word, text_is, ContainerInspection, Health,
    RuntimeState,
};
use proxytainer::docker_mgr::state::{transition_path, DockerManagerState};

use DockerManagerState::{Idle, Running, Starting, Stopping};

fn process(status: Option<&str>, health: Option<Option<&str>>) -> RuntimeState {
    RuntimeState {
        status: status.map(|s| s.to_string()),
        health: health.map(|h| Health { status: h.map(|s| s.to_string()) }),
    }
}

fn inspection(status: Option<&str>, health: Option<Option<&str>>) -> ContainerInspection {
    ContainerInspection { state: Some(process(status, health)) }
}

fn silent() -> ContainerInspection {
    ContainerInspection { state: None }
}

#[test]
fn text_is_compares_whole_words() {
    assert!(text_is("running", "running"));
    assert!(text_is("", ""));
    assert!(!text_is("running", "runnin"));
    assert!(!text_is("runnin", "running"));
    assert!(!text_is("Running", "running"));
    assert!(!text_is("running ", "running"));
    assert!(!text_is("", "none"));
}

#[test]
fn text_is_compares_text_beyond_ascii() {
    assert!(text_is("l\u{e4}uft", "l\u{e4}uft"));
    assert!(!text_is("l\u{e4}uft", "lauft"));
    assert!(!text_is("\u{e9}", "e\u{301}"));
}

#[test]
fn reports_word_needs_a_report() {
    assert!(reports_word(&Some("healthy".to_string()), "healthy"));
    assert!(!reports_word(&Some("unhealthy".to_string()), "healthy"));
    assert!(!reports_word(&None, "healthy"));
    assert!(!reports_word(&None, ""));
}

#[test]
fn running_without_health_check_is_running() {
    assert_eq!(derive_state(&process(Some("running"), None)), Running);
}

#[test]
fn running_and_healthy_is_running() {
    assert_eq!(derive_state(&process(Some("running"), Some(Some("healthy")))), Running);
}

#[test]
fn running_with_health_none_is_running() {
    assert_eq!(derive_state(&process(Some("running"), Some(Some("none")))), Running);
}

#[test]
fn running_with_health_starting_is_starting() {
    assert_eq!(derive_state(&process(Some("running"), Some(Some("starting")))), Starting);
}

#[test]
fn running_with_any_other_health_is_starting() {
    assert_eq!(derive_state(&process(Some("running"), Some(Some("unhealthy")))), Starting);
    assert_eq!(derive_state(&process(Some("running"), Some(Some("Healthy")))), Starting);
    assert_eq!(derive_state(&process(Some("running"), Some(Some("")))), Starting);
    assert_eq!(derive_state(&process(Some("running"), Some(None))), Starting);
}

#[test]
fn restarting_is_starting_whatever_the_health() {
    assert_eq!(derive_state(&process(Some("restarting"), None)), Starting);
    assert_eq!(derive_state(&process(Some("restarting"), Some(Some("healthy")))), Starting);
}

#[test]
fn every_other_status_is_idle() {
    assert_eq!(derive_state(&process(Some("exited"), None)), Idle);
    assert_eq!(derive_state(&process(Some("created"), None)), Idle);
    assert_eq!(derive_state(&process(Some("paused"), Some(Some("healthy")))), Idle);
    assert_eq!(derive_state(&process(Some("dead"), None)), Idle);
    assert_eq!(derive_state(&process(Some("RUNNING"), None)), Idle);
    assert_eq!(derive_state(&process(Some(""), None)), Idle);
    assert_eq!(derive_state(&process(None, None)), Idle);
    assert_eq!(derive_state(&process(None, Some(Some("healthy")))), Idle);
}

#[test]
fn distinct_states_keeps_the_order_of_first_report() {
    let inspections = vec![
        inspection(Some("exited"), None),
        inspection(Some("running"), None),
        inspection(Some("exited"), None),
        inspection(Some("restarting"), None),
        inspection(Some("running"), Some(Some("healthy"))),
    ];
    assert_eq!(distinct_states(&inspections), vec![Idle, Running, Starting]);
}

#[test]
fn distinct_states_passes_over_silent_inspections() {
    let inspections = vec![silent(), inspection(Some("running"), None), silent()];
    assert_eq!(distinct_states(&inspections), vec![Running]);
    assert_eq!(distinct_states(&vec![silent(), silent()]), Vec::<DockerManagerState>::new());
    assert_eq!(distinct_states(&Vec::new()), Vec::<DockerManagerState>::new());
}

#[test]
fn consensus_of_one_container() {
    assert_eq!(consensus(&vec![inspection(Some("running"), None)]), Some(Running));
    assert_eq!(consensus(&vec![inspection(Some("exited"), None)]), Some(Idle));
    assert_eq!(consensus(&vec![inspection(Some("running"), Some(Some("starting")))]), Some(Starting));
}

#[test]
fn consensus_of_a_group_that_agrees() {
    let inspections = vec![
        inspection(Some("running"), Some(Some("healthy"))),
        inspection(Some("running"), None),
        inspection(Some("running"), Some(Some("none"))),
    ];
    assert_eq!(consensus(&inspections), Some(Running));
}

#[test]
fn consensus_fails_on_a_mixed_group() {
    let inspections =
        vec![inspection(Some("running"), Some(Some("healthy"))), inspection(Some("exited"), None)];
    assert_eq!(consensus(&inspections), None);
    let inspections = vec![
        inspection(Some("running"), None),
        inspection(Some("running"), Some(Some("starting"))),
    ];
    assert_eq!(consensus(&inspections), None);
}

#[test]
fn consensus_fails_without_any_report() {
    assert_eq!(consensus(&Vec::new()), None);
    assert_eq!(consensus(&vec![silent()]), None);
}

#[test]
fn consensus_passes_over_silent_inspections() {
    let inspections = vec![silent(), inspection(Some("exited"), None), silent()];
    assert_eq!(consensus(&inspections), Some(Idle));
}

#[test]
fn consensus_never_reports_stopping() {
    let words = ["running", "restarting", "exited", "removing", "stopping", "paused"];
    for word in words {
        assert_ne!(consensus(&vec![inspection(Some(word), None)]), Some(Stopping));
    }
}

#[test]
fn transition_table_one_hop() {
    assert_eq!(transition_path(Starting, Running), vec![Running]);
    assert_eq!(transition_path(Starting, Stopping), vec![Stopping]);
    assert_eq!(transition_path(Stopping, Idle), vec![Idle]);
    assert_eq!(transition_path(Running, Stopping), vec![Stopping]);
    assert_eq!(transition_path(Idle, Starting), vec![Starting]);
}

#[test]
fn transition_table_two_hops() {
    assert_eq!(transition_path(Idle, Running), vec![Starting, Running]);
    assert_eq!(transition_path(Stopping, Starting), vec![Idle, Starting]);
    assert_eq!(transition_path(Running, Idle), vec![Stopping, Idle]);
    assert_eq!(transition_path(Starting, Idle), vec![Stopping, Idle]);
}

#[test]
fn transition_table_passes_over_three_observations() {
    assert_eq!(transition_path(Idle, Stopping), Vec::<DockerManagerState>::new());
    assert_eq!(transition_path(Stopping, Running), Vec::<DockerManagerState>::new());
    assert_eq!(transition_path(Running, Starting), Vec::<DockerManagerState>::new());
}

#[test]
fn transition_table_has_nothing_for_the_same_state() {
    for state in [Idle, Starting, Running, Stopping] {
        assert_eq!(transition_path(state, state), Vec::<DockerManagerState>::new());
    }
}

#[test]
fn every_emitted_path_ends_in_the_observed_state() {
    for from in [Idle, Starting, Running, Stopping] {
        for observed in [Idle, Starting, Running, Stopping] {
            let path = transition_path(from, observed);
            assert!(path.len() <= 2);
            if let Some(last) = path.last() {
                assert_eq!(*last, observed);
            }
        }
    }
}
