use framegate::lease::{
    after_renewal, after_wake, is_active, request_terminate, run_renewal, LeaseState,
    RenewalOutcome, TaskAction,
};

#[test]
fn renewal_failure_is_fatal() {
    // A gateway that granted the mapping once at open time and fails every
    // renewal afterwards: the task's first renewal attempt fails.
    let ok = vec![false, false, false];
    let term = vec![false, false, false];
    let run = run_renewal(&ok, &term);
    assert!(run.exited);
    assert_eq!(run.renewals, 1);
    assert_eq!(run.releases, 1);
    assert_eq!(run.final_state, LeaseState::Error);
    assert!(!is_active(run.final_state));
}

#[test]
fn failure_after_one_good_period() {
    let ok = vec![true, false];
    let term = vec![false, false];
    let run = run_renewal(&ok, &term);
    assert!(run.exited);
    assert_eq!(run.renewals, 2);
    assert_eq!(run.releases, 1);
    assert_eq!(run.final_state, LeaseState::Error);
}

#[test]
fn termination_stops_renewal() {
    // The owner requests termination while the task waits out its first
    // lease period: the task exits without another renewal and releases once.
    let ok = vec![true, true, true];
    let term = vec![true, false, false];
    let run = run_renewal(&ok, &term);
    assert!(run.exited);
    assert_eq!(run.renewals, 1);
    assert_eq!(run.releases, 1);
    assert_eq!(run.final_state, LeaseState::Terminate);
    assert!(!is_active(run.final_state));
}

#[test]
fn steady_running_releases_nothing() {
    let ok = vec![true, true, true];
    let term = vec![false, false, false];
    let run = run_renewal(&ok, &term);
    assert!(!run.exited);
    assert_eq!(run.renewals, 3);
    assert_eq!(run.releases, 0);
    assert_eq!(run.final_state, LeaseState::Running);
    assert!(is_active(run.final_state));
}

#[test]
fn request_terminate_transitions() {
    assert_eq!(request_terminate(LeaseState::Running), LeaseState::Terminate);
    assert_eq!(request_terminate(LeaseState::Terminate), LeaseState::Terminate);
    assert_eq!(request_terminate(LeaseState::Error), LeaseState::Error);
}

#[test]
fn step_functions() {
    assert_eq!(
        after_renewal(LeaseState::Running, RenewalOutcome::Failed),
        (LeaseState::Error, TaskAction::Release)
    );
    assert_eq!(
        after_renewal(LeaseState::Running, RenewalOutcome::Renewed),
        (LeaseState::Running, TaskAction::Wait)
    );
    assert_eq!(
        after_renewal(LeaseState::Terminate, RenewalOutcome::Renewed),
        (LeaseState::Terminate, TaskAction::Release)
    );
    assert_eq!(
        after_renewal(LeaseState::Terminate, RenewalOutcome::Failed),
        (LeaseState::Terminate, TaskAction::Release)
    );
    assert_eq!(after_wake(LeaseState::Running), TaskAction::Renew);
    assert_eq!(after_wake(LeaseState::Terminate), TaskAction::Release);
}

#[test]
fn activity_observation() {
    assert!(is_active(LeaseState::Running));
    assert!(!is_active(LeaseState::Error));
    assert!(!is_active(LeaseState::Terminate));
}
