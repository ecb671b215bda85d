use pingtest::commands::{
    export_to_excel, get_stats_summary, is_ping_running, set_targets, start_ping, stop_ping, EngineSnapshot,
    EngineState, TargetInput, TargetStatus,
};

fn input(ip: &str, host: &str) -> TargetInput {
    TargetInput { ip: ip.to_string(), hostname: host.to_string() }
}

fn status(is_alive: bool, success_count: u64, fail_count: u64) -> TargetStatus {
    TargetStatus { is_alive, success_count, fail_count }
}

#[test]
fn summary_without_engine_is_zero() {
    let s = get_stats_summary(&None);
    assert_eq!((s.total_targets, s.alive_count, s.dead_count, s.total_success, s.total_fail, s.running), (0, 0, 0, 0, 0, false));
}

#[test]
fn summary_counts_targets() {
    let engine = EngineSnapshot {
        targets: vec![status(true, 5, 1), status(false, 0, 6), status(true, 3, 3)],
        running: true,
    };
    let s = get_stats_summary(&Some(engine));
    assert_eq!((s.total_targets, s.alive_count, s.dead_count, s.total_success, s.total_fail, s.running), (3, 2, 1, 8, 10, true));
}

#[test]
fn summary_of_empty_engine() {
    let s = get_stats_summary(&Some(EngineSnapshot { targets: Vec::new(), running: false }));
    assert_eq!((s.total_targets, s.alive_count, s.dead_count, s.running), (0, 0, 0, false));
}

#[test]
fn start_needs_idle_engine() {
    let mut idle = EngineState::Idle;
    assert_eq!(start_ping(&mut idle), Ok(()));
    assert_eq!(idle, EngineState::Running);
    let mut running = EngineState::Running;
    assert_eq!(start_ping(&mut running), Err("Ping is already running".to_string()));
    assert_eq!(running, EngineState::Running);
    let mut absent = EngineState::Absent;
    assert_eq!(start_ping(&mut absent), Err("No targets configured. Call set_targets first.".to_string()));
    assert_eq!(absent, EngineState::Absent);
}

#[test]
fn stop_needs_engine() {
    let mut idle = EngineState::Idle;
    assert_eq!(stop_ping(&mut idle), Ok(()));
    assert_eq!(idle, EngineState::Idle);
    let mut running = EngineState::Running;
    assert_eq!(stop_ping(&mut running), Ok(()));
    assert_eq!(running, EngineState::Idle);
    assert_eq!(stop_ping(&mut running), Ok(()));
    let mut absent = EngineState::Absent;
    assert_eq!(stop_ping(&mut absent), Err("No ping engine initialized".to_string()));
}

#[test]
fn running_only_when_running() {
    assert!(is_ping_running(&EngineState::Running));
    assert!(!is_ping_running(&EngineState::Idle));
    assert!(!is_ping_running(&EngineState::Absent));
}

#[test]
fn export_needs_results() {
    assert_eq!(export_to_excel(&EngineState::Idle), Ok(()));
    assert_eq!(export_to_excel(&EngineState::Running), Ok(()));
    assert_eq!(export_to_excel(&EngineState::Absent), Err("No ping results to export".to_string()));
}

#[test]
fn run_lifecycle() {
    let mut state = EngineState::Absent;
    assert!(!is_ping_running(&state));
    let inputs = vec![input("1", "a")];
    set_targets(&mut state, &inputs, &parse_all(&inputs)).unwrap();
    assert!(!is_ping_running(&state));
    assert_eq!(start_ping(&mut state), Ok(()));
    assert!(is_ping_running(&state));
    assert_eq!(stop_ping(&mut state), Ok(()));
    assert!(!is_ping_running(&state));
    assert_eq!(stop_ping(&mut state), Ok(()));
}

#[test]
fn new_targets_replace_a_running_engine() {
    let mut state = EngineState::Running;
    let inputs = vec![input("1", "a")];
    set_targets(&mut state, &inputs, &parse_all(&inputs)).unwrap();
    assert_eq!(state, EngineState::Idle);
    assert_eq!(start_ping(&mut state), Ok(()));
}

#[test]
fn refused_targets_change_nothing() {
    let mut state = EngineState::Running;
    let inputs = vec![input("x", "a")];
    assert!(set_targets(&mut state, &inputs, &parse_all(&inputs)).is_err());
    assert_eq!(state, EngineState::Running);
}

fn parse_all(inputs: &[TargetInput]) -> Vec<Option<u32>> {
    inputs.iter().map(|t| t.ip.parse::<u32>().ok()).collect()
}

#[test]
fn targets_are_numbered_in_order() {
    let inputs = vec![input("167772161", "a"), input("1", "b")];
    let targets = set_targets(&mut EngineState::Absent, &inputs, &parse_all(&inputs)).unwrap();
    assert_eq!(targets.len(), 2);
    assert_eq!((targets[0].index, targets[0].hostname.as_str(), targets[0].ip), (0, "a", 167772161));
    assert_eq!((targets[1].index, targets[1].hostname.as_str(), targets[1].ip), (1, "b", 1));
}

#[test]
fn first_bad_address_is_named() {
    let inputs = vec![input("7", "a"), input("10.0.0.300", "b"), input("nope", "c")];
    assert_eq!(set_targets(&mut EngineState::Absent, &inputs, &parse_all(&inputs)).err(), Some("Invalid IP address: 10.0.0.300".to_string()));
}

#[test]
fn no_targets_is_fine() {
    let parsed: Vec<Option<u32>> = Vec::new();
    assert!(set_targets(&mut EngineState::Absent, &Vec::new(), &parsed).unwrap().is_empty());
}
