use std::hash::{Hash, Hasher};
use unimozer_next::launcher::{hash_path, log_path};
use unimozer_next::pending::{Delivery, PendingRequests};
use unimozer_next::session::{
    stop_step, ExitProbe, HandshakeStep, Phase, PollStep, SendError, StartStep, StopStep,
    Supervisor, CRASH_POLL_INTERVAL_MS, REQUEST_TIMEOUT_SECONDS, STOP_WAIT_ATTEMPTS,
};

fn ready_supervisor() -> (Supervisor, u64) {
    let mut sup = Supervisor::new();
    assert_eq!(sup.begin_start(), StartStep::Spawn);
    let generation = sup.spawned().expect("installed");
    assert_eq!(sup.handshake_finished(generation, true), HandshakeStep::Ready);
    (sup, generation)
}

#[test]
fn start_emits_ready_with_hashed_log_path() {
    let (sup, _) = ready_supervisor();
    assert_eq!(sup.phase(), Phase::Ready);
    let log = log_path("/data", "/proj");
    assert_eq!(log, format!("/data/logs/{}.log", hash_path("/proj")));
    let mut hasher = std::collections::hash_map::DefaultHasher::new();
    "/proj".hash(&mut hasher);
    assert_eq!(hash_path("/proj"), format!("{:x}", hasher.finish()));
}

#[test]
fn request_timeout_leaves_session_ready() {
    assert_eq!(REQUEST_TIMEOUT_SECONDS, 15);
    let (sup, _) = ready_supervisor();
    let mut table: PendingRequests<()> = PendingRequests::new();
    let id = table.register(()).unwrap();
    assert_eq!(table.resolve(id), Some(()));
    assert_eq!(sup.phase(), Phase::Ready);
    assert_eq!(sup.check_send(), Ok(()));
    assert!(matches!(table.dispatch(Some(id), None), Delivery::Dropped));
}

#[test]
fn external_kill_is_reported_as_crash() {
    assert_eq!(CRASH_POLL_INTERVAL_MS, 500);
    let (mut sup, generation) = ready_supervisor();
    assert_eq!(sup.poll(generation, ExitProbe::Running), PollStep::Continue);
    assert_eq!(sup.poll(generation, ExitProbe::Exited(Some(137))), PollStep::Crashed(Some(137)));
    assert_eq!(sup.phase(), Phase::Stopped);
    assert_eq!(sup.check_send(), Err(SendError::NotRunning));
    assert_eq!(sup.poll(generation, ExitProbe::Running), PollStep::Quit);
}

#[test]
fn second_start_stops_the_first_process() {
    let (mut sup, first) = ready_supervisor();
    assert_eq!(sup.begin_start(), StartStep::StopFirst);
    assert_eq!(sup.spawned(), None);
    assert_eq!(sup.poll(first, ExitProbe::Running), PollStep::Quit);
    sup.finish_stop();
    let second = sup.spawned().expect("installed after stop");
    assert_ne!(first, second);
    assert_eq!(sup.handshake_finished(first, true), HandshakeStep::Stale);
    assert_eq!(sup.handshake_finished(second, false), HandshakeStep::Failed);
    assert_eq!(sup.phase(), Phase::Starting);
}

#[test]
fn stop_waits_a_bounded_number_of_probes() {
    assert_eq!(STOP_WAIT_ATTEMPTS, 10);
    assert_eq!(stop_step(0, ExitProbe::Running), StopStep::WaitAgain);
    assert_eq!(stop_step(8, ExitProbe::Running), StopStep::WaitAgain);
    assert_eq!(stop_step(9, ExitProbe::Running), StopStep::Kill);
    assert_eq!(stop_step(3, ExitProbe::Exited(None)), StopStep::Done);
    assert_eq!(stop_step(3, ExitProbe::Unknown), StopStep::Kill);
    let mut sup = Supervisor::new();
    assert!(!sup.begin_stop());
    let (mut sup2, _) = ready_supervisor();
    assert!(sup2.begin_stop());
    assert_eq!(sup2.check_send(), Err(SendError::NotRunning));
    sup2.finish_stop();
    assert_eq!(sup2.phase(), Phase::Stopped);
    let _ = &mut sup;
}
