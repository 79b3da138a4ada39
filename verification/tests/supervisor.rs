use jan_gateway::supervisor::{Supervisor, SupervisorAction, SupervisorEvent, WorkerPhase};

#[test]
fn test_supervisor_restart_cap() {
    // two units of budget: two crash cycles, then exactly one notification
    let mut sup = Supervisor::new(2);

    for expected_count in 1..=2u32 {
        assert_eq!(sup.step(SupervisorEvent::Tick), SupervisorAction::SpawnWorker);
        assert_eq!(sup.step(SupervisorEvent::SpawnResult(true)), SupervisorAction::Nothing);
        assert_eq!(sup.step(SupervisorEvent::Terminated(None)), SupervisorAction::Wait);
        assert_eq!(sup.restarts.restart_count, expected_count);
    }

    assert_eq!(sup.step(SupervisorEvent::Tick), SupervisorAction::EmitMaxRestartsReached);
    assert_eq!(sup.phase, WorkerPhase::Stopped { exhausted: true });

    // no further spawn and no second notification, whatever comes in
    assert_eq!(sup.step(SupervisorEvent::Tick), SupervisorAction::Nothing);
    assert_eq!(sup.step(SupervisorEvent::Terminated(Some(1))), SupervisorAction::Nothing);
    assert_eq!(sup.step(SupervisorEvent::Tick), SupervisorAction::Nothing);
    assert_eq!(sup.restarts.restart_count, 2);
}

#[test]
fn test_supervisor_kill_is_clean() {
    let mut sup = Supervisor::new(3);
    assert_eq!(sup.step(SupervisorEvent::Tick), SupervisorAction::SpawnWorker);
    assert_eq!(sup.step(SupervisorEvent::SpawnResult(true)), SupervisorAction::Nothing);

    // the host asks for termination: the handle is released first
    assert_eq!(sup.step(SupervisorEvent::KillRequested), SupervisorAction::KillWorker);
    // the termination that follows is recognised as intentional
    assert_eq!(sup.step(SupervisorEvent::Terminated(Some(9))), SupervisorAction::Nothing);
    assert_eq!(sup.phase, WorkerPhase::Stopped { exhausted: false });
    assert_eq!(sup.restarts.restart_count, 0);

    // and nothing restarts afterwards
    assert_eq!(sup.step(SupervisorEvent::Tick), SupervisorAction::Nothing);
}

#[test]
fn test_supervisor_ready_resets_budget() {
    let mut sup = Supervisor::new(5);
    assert_eq!(sup.step(SupervisorEvent::Tick), SupervisorAction::SpawnWorker);
    assert_eq!(sup.step(SupervisorEvent::SpawnResult(true)), SupervisorAction::Nothing);
    assert_eq!(sup.step(SupervisorEvent::Terminated(Some(1))), SupervisorAction::Wait);
    assert_eq!(sup.restarts.restart_count, 1);

    assert_eq!(sup.step(SupervisorEvent::Tick), SupervisorAction::SpawnWorker);
    assert_eq!(sup.step(SupervisorEvent::SpawnResult(true)), SupervisorAction::Nothing);
    // the worker survives to its ready signal: the budget refills
    assert_eq!(sup.step(SupervisorEvent::Ready), SupervisorAction::Nothing);
    assert_eq!(sup.restarts.restart_count, 0);
}

#[test]
fn test_supervisor_spawn_failure_backs_off() {
    let mut sup = Supervisor::new(5);
    assert_eq!(sup.step(SupervisorEvent::Tick), SupervisorAction::SpawnWorker);
    assert_eq!(sup.step(SupervisorEvent::SpawnResult(false)), SupervisorAction::Wait);
    assert_eq!(sup.phase, WorkerPhase::BackingOff);
    assert_eq!(sup.restarts.restart_count, 1);
}

#[test]
fn test_supervisor_exit_with_handle_restarts() {
    let mut sup = Supervisor::new(5);
    assert_eq!(sup.step(SupervisorEvent::Tick), SupervisorAction::SpawnWorker);
    assert_eq!(sup.step(SupervisorEvent::SpawnResult(true)), SupervisorAction::Nothing);
    // nobody asked for this termination, so it is unexpected even with a
    // zero status code: the handle alone decides
    assert_eq!(sup.step(SupervisorEvent::Terminated(Some(0))), SupervisorAction::Wait);
    assert_eq!(sup.phase, WorkerPhase::BackingOff);
    assert_eq!(sup.restarts.restart_count, 1);
}

#[test]
fn test_supervisor_stream_error_counts() {
    let mut sup = Supervisor::new(5);
    assert_eq!(sup.step(SupervisorEvent::Tick), SupervisorAction::SpawnWorker);
    assert_eq!(sup.step(SupervisorEvent::SpawnResult(true)), SupervisorAction::Nothing);
    assert_eq!(sup.step(SupervisorEvent::StreamError), SupervisorAction::Wait);
    assert_eq!(sup.restarts.restart_count, 1);
}

#[test]
fn test_supervisor_kill_without_worker_ignored() {
    let mut sup = Supervisor::new(5);
    assert_eq!(sup.step(SupervisorEvent::KillRequested), SupervisorAction::Nothing);
    assert_eq!(sup.phase, WorkerPhase::Idle);
}
