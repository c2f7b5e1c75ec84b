use repositorymonitor::scheduler::{
    focus_step, poll_interval, poll_step, should_run_poll, FocusStep, PollStep,
};

#[test]
fn polls_only_when_active_and_idle() {
    assert!(should_run_poll(true, false));
    assert!(!should_run_poll(false, false));
    assert!(!should_run_poll(true, true));
    assert!(!should_run_poll(false, true));
}

#[test]
fn poll_interval_is_clamped() {
    assert_eq!(poll_interval(0), 10);
    assert_eq!(poll_interval(9), 10);
    assert_eq!(poll_interval(30), 30);
    assert_eq!(poll_interval(300), 300);
    assert_eq!(poll_interval(301), 300);
}

#[test]
fn poll_step_rescans_when_no_repos() {
    assert_eq!(poll_step(true, false, true), PollStep::ScanThenRefresh);
    assert_eq!(poll_step(true, false, false), PollStep::Refresh);
    assert_eq!(poll_step(false, false, true), PollStep::Skip);
    assert_eq!(poll_step(true, true, false), PollStep::Skip);
}

#[test]
fn gaining_focus_polls_at_once() {
    assert_eq!(focus_step(false, true), FocusStep { polling_active: true, poll_now: true });
    assert_eq!(focus_step(true, true), FocusStep { polling_active: true, poll_now: false });
    assert_eq!(focus_step(true, false), FocusStep { polling_active: false, poll_now: false });
    assert_eq!(focus_step(false, false), FocusStep { polling_active: false, poll_now: false });
}
