use dsh_desktop::host_lifecycle::{HostLifecycle, HostPhase, RestartDecision};

#[test]
fn start_generates_new_generation() {
    let mut lifecycle = HostLifecycle::new(3);
    let generation = lifecycle.begin_start();
    assert_eq!(generation, 1);
    assert_eq!(lifecycle.phase(), HostPhase::Starting);
    assert!(lifecycle.is_current(generation));
}

#[test]
fn accepts_ready_only_for_current_generation() {
    let mut lifecycle = HostLifecycle::new(3);
    let generation = lifecycle.begin_start();
    assert!(lifecycle.accept_ready(generation));
    assert_eq!(lifecycle.phase(), HostPhase::Ready);
    assert!(!lifecycle.accept_ready(generation + 1));
}

#[test]
fn invalidate_ignores_stale_messages() {
    let mut lifecycle = HostLifecycle::new(3);
    let generation = lifecycle.begin_start();
    lifecycle.invalidate();
    assert!(!lifecycle.accept_ready(generation));
    assert_eq!(lifecycle.on_unexpected_exit(generation), RestartDecision::Ignore);
}

#[test]
fn restarts_within_budget_then_fails() {
    let mut lifecycle = HostLifecycle::new(2);
    let mut generation = lifecycle.begin_start();

    for attempt in 1..=2 {
        assert_eq!(
            lifecycle.on_unexpected_exit(generation),
            RestartDecision::Restart { attempt, limit: 2 }
        );
        generation = lifecycle.begin_start();
    }

    assert_eq!(lifecycle.on_unexpected_exit(generation), RestartDecision::Fail);
    assert_eq!(lifecycle.auto_restarts(), 2);
}

#[test]
fn manual_start_resets_restart_budget() {
    let mut lifecycle = HostLifecycle::new(1);
    let mut generation = lifecycle.begin_start();
    assert!(matches!(
        lifecycle.on_unexpected_exit(generation),
        RestartDecision::Restart { .. }
    ));

    lifecycle.reset_restarts();
    generation = lifecycle.begin_start();
    assert!(matches!(
        lifecycle.on_unexpected_exit(generation),
        RestartDecision::Restart { attempt: 1, .. }
    ));
}

#[test]
fn ignores_exit_when_not_running() {
    let mut lifecycle = HostLifecycle::new(3);
    assert_eq!(lifecycle.on_unexpected_exit(1), RestartDecision::Ignore);
}

#[test]
fn exit_after_ready_restarts_and_stops() {
    let mut lifecycle = HostLifecycle::new(3);
    let generation = lifecycle.begin_start();
    assert!(lifecycle.accept_ready(generation));
    assert_eq!(
        lifecycle.on_unexpected_exit(generation),
        RestartDecision::Restart { attempt: 1, limit: 3 }
    );
    assert_eq!(lifecycle.phase(), HostPhase::Stopped);
    assert_eq!(lifecycle.generation(), generation);
    // a second exit report of the same run is ignored once stopped
    assert_eq!(lifecycle.on_unexpected_exit(generation), RestartDecision::Ignore);
}

#[test]
fn zero_budget_fails_at_first_exit() {
    let mut lifecycle = HostLifecycle::new(0);
    let generation = lifecycle.begin_start();
    assert_eq!(lifecycle.on_unexpected_exit(generation), RestartDecision::Fail);
    assert_eq!(lifecycle.auto_restarts(), 0);
}
