//! When the background poll runs, and how often.
use vstd::prelude::*;

verus! {

/// A poll tick runs a status batch only while the window has focus and no
/// batch is in flight.
pub fn should_run_poll(polling_active: bool, in_flight: bool) -> (r: bool)
    ensures
        r == (polling_active && !in_flight),
{
    polling_active && !in_flight
}

/// What a change of window focus does to polling.
#[derive(Debug, Clone, Copy, PartialEq, Eq, Structural)]
pub struct FocusStep {
    /// Whether poll ticks read statuses from now on.
    pub polling_active: bool,
    /// Whether a status batch is started at once.
    pub poll_now: bool,
}

/// The step for a focus event: polling follows the focus, and the moment the
/// window gains focus (it was not active before) a poll runs at once.
pub fn focus_step(was_active: bool, focused: bool) -> (r: FocusStep)
    ensures
        r.polling_active == focused,
        r.poll_now == (focused && !was_active),
{
    FocusStep { polling_active: focused, poll_now: focused && !was_active }
}

/// The configured interval between polls, held between 10 and 300 seconds.
pub open spec fn clamped_interval(secs: u32) -> u64 {
    if secs < 10 {
        10
    } else if secs > 300 {
        300
    } else {
        secs as u64
    }
}

/// Seconds to wait between two poll ticks.
pub fn poll_interval(configured_secs: u32) -> (r: u64)
    ensures
        r == clamped_interval(configured_secs),
        10 <= r <= 300,
{
    if configured_secs < 10 {
        10
    } else if configured_secs > 300 {
        300
    } else {
        configured_secs as u64
    }
}

/// What a poll tick does.
#[derive(Debug, Clone, Copy, PartialEq, Eq, Structural)]
pub enum PollStep {
    /// Nothing this time.
    Skip,
    /// Read the statuses of the known repositories.
    Refresh,
    /// No repository is known yet: discover them first, then read.
    ScanThenRefresh,
}

/// The step of one poll tick. An empty repository list (for instance because
/// folder access was granted only after start) is rediscovered first.
pub fn poll_step(polling_active: bool, in_flight: bool, no_repos: bool) -> (r: PollStep)
    ensures
        !(polling_active && !in_flight) ==> r == PollStep::Skip,
        polling_active && !in_flight && no_repos ==> r == PollStep::ScanThenRefresh,
        polling_active && !in_flight && !no_repos ==> r == PollStep::Refresh,
{
    if !should_run_poll(polling_active, in_flight) {
        PollStep::Skip
    } else if no_repos {
        PollStep::ScanThenRefresh
    } else {
        PollStep::Refresh
    }
}

/// A configured interval between 10 and 300 seconds is used as it is; a
/// shorter one becomes 10 seconds and a longer one 300.
pub proof fn law_interval_clamp(secs: u32)
    ensures
        10 <= secs <= 300 ==> clamped_interval(secs) == secs,
        secs < 10 ==> clamped_interval(secs) == 10,
        secs > 300 ==> clamped_interval(secs) == 300,
{
}

} // verus!
