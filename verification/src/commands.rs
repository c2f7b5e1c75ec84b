//! Coordination of status refreshes: a single refresh in flight, merging with
//! the previous snapshot, pushing only real changes, and numbering the pushes.
//!
//! The refresh itself (running the batch, sending the event) happens outside
//! the library; [`RefreshGate`] makes every decision around it.
use vstd::prelude::*;
use crate::emit_gate::{should_emit, snapshots_differ};
use crate::model::{RepoSnapshot, RepoStatus, RepoStatusView};
use crate::snapshot::{merge_failed_with_previous, merged, views};
use std::time::{Duration, SystemTime};

verus! {

/// `std::time::SystemTime`, a reading of the system clock.
#[verifier::external_type_specification]
#[verifier::external_body]
pub struct ExSystemTime(SystemTime);

/// `SystemTime::now`: the current time of the system clock. Nothing is
/// claimed about the value.
#[verifier::external_body]
fn system_time_now() -> SystemTime {
    SystemTime::now()
}

/// `SystemTime::duration_since(UNIX_EPOCH)`, `None` when `t` is before the
/// epoch. Nothing is claimed about the value.
#[verifier::external_body]
fn since_unix_epoch(t: &SystemTime) -> Option<Duration> {
    t.duration_since(std::time::UNIX_EPOCH).ok()
}

/// `Duration::as_secs`: the whole seconds of `d`. Nothing is claimed about
/// the value.
#[verifier::external_body]
fn whole_secs(d: &Duration) -> u64 {
    d.as_secs()
}

/// Seconds since the Unix epoch as a signed timestamp: the seconds
/// converted with `as i64`, or 0 when the clock is before the epoch.
pub fn epoch_seconds(since_epoch: Option<u64>) -> (r: i64)
    ensures
        r == match since_epoch {
            Some(s) => s as i64,
            None => 0,
        },
{
    match since_epoch {
        Some(s) => s as i64,
        None => 0,
    }
}

/// The current time in seconds since the Unix epoch (0 when the clock is
/// before the epoch).
pub fn now_epoch() -> i64 {
    let t = system_time_now();
    let secs = match since_unix_epoch(&t) {
        Some(d) => Some(whole_secs(&d)),
        None => None,
    };
    epoch_seconds(secs)
}

/// The successor of a push number, wrapping as an atomic counter does.
pub open spec fn next_seq(s: u64) -> u64 {
    if s == u64::MAX {
        0
    } else {
        (s + 1) as u64
    }
}

/// The merge of a whole fresh reading with the previous snapshot.
pub open spec fn merged_all(prev: Seq<RepoStatusView>, fresh: Seq<RepoStatusView>) -> Seq<
    RepoStatusView,
> {
    Seq::new(fresh.len(), |i: int| merged(prev, fresh[i]))
}

/// The refresh state shared by every caller: whether a refresh is in flight,
/// the number of the last push, and the last snapshot.
pub struct RefreshGate {
    pub in_flight: bool,
    pub seq: u64,
    pub last_snapshot: Vec<RepoStatus>,
}

/// Mathematical view of a [`RefreshGate`].
pub struct GateView {
    pub in_flight: bool,
    pub seq: u64,
    pub last: Seq<RepoStatusView>,
}

impl View for RefreshGate {
    type V = GateView;

    open spec fn view(&self) -> GateView {
        GateView { in_flight: self.in_flight, seq: self.seq, last: views(self.last_snapshot@) }
    }
}

/// Claiming the refresh slot: refused, with nothing changed, while a
/// refresh is in flight.
pub open spec fn gate_begin(g: GateView) -> (GateView, bool) {
    if g.in_flight {
        (g, false)
    } else {
        (GateView { in_flight: true, ..g }, true)
    }
}

/// Completing a refresh with a fresh reading: the new state, and the
/// numbered snapshot to push if any.
pub open spec fn gate_finish(g: GateView, fresh: Seq<RepoStatusView>) -> (
    GateView,
    Option<(u64, Seq<RepoStatusView>)>,
) {
    let m = merged_all(g.last, fresh);
    let push = snapshots_differ(g.last, m);
    let seq = if push {
        next_seq(g.seq)
    } else {
        g.seq
    };
    (GateView { in_flight: false, seq: seq, last: m }, if push {
        Some((seq, m))
    } else {
        None
    })
}

/// A copy of a list of statuses.
pub fn clone_statuses(v: &Vec<RepoStatus>) -> (r: Vec<RepoStatus>)
    ensures
        views(r@) == views(v@),
{
    let mut out: Vec<RepoStatus> = Vec::new();
    let n = v.len();
    for i in 0..n
        invariant
            n == v@.len(),
            out@.len() == i,
            forall|k: int| 0 <= k < i ==> (#[trigger] out@[k])@ == v@[k]@,
    {
        out.push(v[i].clone());
    }
    assert(views(out@) =~= views(v@));
    out
}

impl RefreshGate {
    /// No refresh in flight, nothing pushed, an empty snapshot.
    pub fn new() -> (r: RefreshGate)
        ensures
            r@ == (GateView { in_flight: false, seq: 0, last: Seq::empty() }),
    {
        let r = RefreshGate { in_flight: false, seq: 0, last_snapshot: Vec::new() };
        assert(r@.last =~= Seq::<RepoStatusView>::empty());
        r
    }

    /// Claims the single refresh slot. Returns false, changing nothing, when
    /// a refresh is already in flight (the new request is coalesced into it).
    pub fn try_begin(&mut self) -> (started: bool)
        ensures
            (final(self)@, started) == gate_begin(old(self)@),
    {
        if self.in_flight {
            false
        } else {
            self.in_flight = true;
            true
        }
    }

    /// Releases the refresh slot without a new reading (the refresh failed).
    pub fn release(&mut self)
        ensures
            final(self)@ == (GateView { in_flight: false, ..old(self)@ }),
    {
        self.in_flight = false;
    }

    /// Completes a refresh with the fresh reading: merges it with the last
    /// snapshot, keeps the merge as the new snapshot, releases the slot, and
    /// returns the snapshot to push, with the next number, when it differs
    /// from the previous one in anything but check times.
    pub fn finish(&mut self, fresh: Vec<RepoStatus>) -> (r: Option<RepoSnapshot>)
        ensures
            final(self)@ == gate_finish(old(self)@, views(fresh@)).0,
            match r {
                Some(s) => gate_finish(old(self)@, views(fresh@)).1 == Some(
                    (s.seq, views(s.repos@)),
                ),
                None => gate_finish(old(self)@, views(fresh@)).1 is None,
            },
    {
        let ghost prev = views(self.last_snapshot@);
        let ghost fv = views(fresh@);
        let merged_v = merge_failed_with_previous(self.last_snapshot.as_slice(), fresh);
        assert(views(merged_v@) =~= merged_all(prev, fv));
        let emit = should_emit(self.last_snapshot.as_slice(), merged_v.as_slice());
        let out = if emit {
            self.seq = if self.seq == u64::MAX {
                0
            } else {
                self.seq + 1
            };
            Some(RepoSnapshot { seq: self.seq, repos: clone_statuses(&merged_v) })
        } else {
            None
        };
        self.last_snapshot = merged_v;
        self.in_flight = false;
        out
    }
}

/// A refresh requested while another is in flight is refused and changes
/// nothing.
pub proof fn law_coalesce_while_in_flight(g: GateView)
    requires
        g.in_flight,
    ensures
        gate_begin(g) == (g, false),
{
}

/// Once a refresh has finished, the next one can start.
pub proof fn law_finish_reopens(g: GateView, fresh: Seq<RepoStatusView>)
    ensures
        gate_begin(gate_finish(g, fresh).0).1,
{
}

/// The push number changes exactly when a snapshot is pushed, and then it
/// grows by one (wrapping at the end of its range).
pub proof fn law_seq_advances_only_on_push(g: GateView, fresh: Seq<RepoStatusView>)
    ensures
        gate_finish(g, fresh).1 is Some ==> gate_finish(g, fresh).0.seq == next_seq(g.seq),
        gate_finish(g, fresh).1 is Some && g.seq < u64::MAX ==> gate_finish(g, fresh).0.seq == g.seq
            + 1,
        gate_finish(g, fresh).1 is None ==> gate_finish(g, fresh).0.seq == g.seq,
        gate_finish(g, fresh).1 matches Some(p) ==> p.0 == gate_finish(g, fresh).0.seq,
{
}

/// A reading without failures that equals the last snapshot is not pushed.
pub proof fn law_unchanged_reading_is_not_pushed(g: GateView, fresh: Seq<RepoStatusView>)
    requires
        fresh == g.last,
        forall|i: int| 0 <= i < fresh.len() ==> (#[trigger] fresh[i]).error is None,
    ensures
        gate_finish(g, fresh).1 is None,
        gate_finish(g, fresh).0.last == g.last,
{
    let m = merged_all(g.last, fresh);
    assert(m =~= fresh);
    crate::emit_gate::law_emit_reflexive(fresh);
}

/// An idle gate hands out the slot and changes nothing else.
pub proof fn law_begin_claims_idle_slot(g: GateView)
    requires
        !g.in_flight,
    ensures
        gate_begin(g).1,
        gate_begin(g).0.in_flight,
        gate_begin(g).0.seq == g.seq,
        gate_begin(g).0.last == g.last,
{
}

/// Finishing frees the slot and keeps, entry by entry, the fresh reading
/// merged with the last snapshot; exactly when that differs from the last
/// snapshot (in anything but check times) it is pushed, as it was kept.
pub proof fn law_finish_keeps_and_pushes_merge(g: GateView, fresh: Seq<RepoStatusView>)
    ensures
        !gate_finish(g, fresh).0.in_flight,
        gate_finish(g, fresh).0.last.len() == fresh.len(),
        forall|i: int|
            0 <= i < fresh.len() ==> #[trigger] gate_finish(g, fresh).0.last[i] == merged(
                g.last,
                fresh[i],
            ),
        gate_finish(g, fresh).1 is Some <==> snapshots_differ(g.last, gate_finish(g, fresh).0.last),
        gate_finish(g, fresh).1 matches Some(p) ==> p.1 == gate_finish(g, fresh).0.last,
{
}

} // verus!
