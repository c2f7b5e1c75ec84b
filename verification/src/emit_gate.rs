//! Deciding whether a new snapshot is worth pushing to the dashboard.
use vstd::prelude::*;
use crate::model::{opt_i64_eq, opt_string_eq, opt_u32_eq, RepoStatus, RepoStatusView};
use crate::snapshot::views;

verus! {

/// A status with its check time erased.
pub open spec fn without_time(s: RepoStatusView) -> RepoStatusView {
    RepoStatusView { last_checked: 0, ..s }
}

/// Two statuses that differ at most in their check time.
pub open spec fn same_ignoring_time(a: RepoStatusView, b: RepoStatusView) -> bool {
    without_time(a) == without_time(b)
}

/// Two snapshots that differ in length or in some entry other than by its
/// check time.
pub open spec fn snapshots_differ(prev: Seq<RepoStatusView>, next: Seq<RepoStatusView>) -> bool {
    prev.len() != next.len() || exists|i: int|
        0 <= i < prev.len() && !same_ignoring_time(#[trigger] prev[i], next[i])
}

/// Whether two statuses are equal once their check times are ignored.
fn eq_ignoring_time(a: &RepoStatus, b: &RepoStatus) -> (r: bool)
    ensures
        r == same_ignoring_time(a@, b@),
{
    a.path == b.path && a.name == b.name && a.category == b.category && a.vcs == b.vcs
        && opt_string_eq(&a.branch, &b.branch) && opt_string_eq(&a.detached_sha, &b.detached_sha)
        && opt_string_eq(&a.upstream, &b.upstream) && a.has_upstream == b.has_upstream
        && opt_u32_eq(a.ahead, b.ahead) && opt_u32_eq(a.behind, b.behind) && a.staged == b.staged
        && a.modified == b.modified && a.untracked == b.untracked && a.conflicts == b.conflicts
        && a.stash == b.stash && a.is_clean == b.is_clean && a.state == b.state && a.worktrees
        == b.worktrees && opt_i64_eq(a.last_fetch, b.last_fetch) && opt_string_eq(
        &a.error,
        &b.error,
    )
}

/// Whether `next` should be pushed after `prev`: it should when the snapshots
/// differ in anything but the check times.
pub fn should_emit(prev: &[RepoStatus], next: &[RepoStatus]) -> (r: bool)
    ensures
        r == snapshots_differ(views(prev@), views(next@)),
{
    if prev.len() != next.len() {
        return true;
    }
    let n = prev.len();
    for i in 0..n
        invariant
            n == prev@.len(),
            n == next@.len(),
            forall|k: int|
                0 <= k < i ==> same_ignoring_time(
                    #[trigger] views(prev@)[k],
                    views(next@)[k],
                ),
    {
        if !eq_ignoring_time(&prev[i], &next[i]) {
            assert(!same_ignoring_time(views(prev@)[i as int], views(next@)[i as int]));
            return true;
        }
    }
    false
}

/// A snapshot never differs from itself.
pub proof fn law_emit_reflexive(s: Seq<RepoStatusView>)
    ensures
        !snapshots_differ(s, s),
{
}

/// Whether two snapshots differ does not depend on their order.
pub proof fn law_emit_symmetric(a: Seq<RepoStatusView>, b: Seq<RepoStatusView>)
    ensures
        snapshots_differ(a, b) == snapshots_differ(b, a),
{
    if snapshots_differ(a, b) && a.len() == b.len() {
        let i = choose|i: int| 0 <= i < a.len() && !same_ignoring_time(#[trigger] a[i], b[i]);
        assert(!same_ignoring_time(b[i], a[i]));
    }
    if snapshots_differ(b, a) && a.len() == b.len() {
        let i = choose|i: int| 0 <= i < b.len() && !same_ignoring_time(#[trigger] b[i], a[i]);
        assert(!same_ignoring_time(a[i], b[i]));
    }
}

/// A snapshot whose entries changed only in their check times is not pushed.
pub proof fn law_time_only_change_is_silent(a: Seq<RepoStatusView>, b: Seq<RepoStatusView>)
    requires
        a.len() == b.len(),
        forall|i: int| 0 <= i < a.len() ==> #[trigger] without_time(a[i]) == without_time(b[i]),
    ensures
        !snapshots_differ(a, b),
{
    assert forall|i: int| 0 <= i < a.len() implies same_ignoring_time(#[trigger] a[i], b[i]) by {
        assert(without_time(a[i]) == without_time(b[i]));
    }
}

/// A change in any field but the check time of some entry, or a change in
/// the number of entries, is pushed.
pub proof fn law_any_change_is_pushed(a: Seq<RepoStatusView>, b: Seq<RepoStatusView>, i: int)
    requires
        0 <= i < a.len(),
        a.len() == b.len(),
        ({
            let x = a[i];
            let y = b[i];
            ||| x.path != y.path
            ||| x.name != y.name
            ||| x.category != y.category
            ||| x.vcs != y.vcs
            ||| x.branch != y.branch
            ||| x.detached_sha != y.detached_sha
            ||| x.upstream != y.upstream
            ||| x.has_upstream != y.has_upstream
            ||| x.ahead != y.ahead
            ||| x.behind != y.behind
            ||| x.staged != y.staged
            ||| x.modified != y.modified
            ||| x.untracked != y.untracked
            ||| x.conflicts != y.conflicts
            ||| x.stash != y.stash
            ||| x.is_clean != y.is_clean
            ||| x.state != y.state
            ||| x.worktrees != y.worktrees
            ||| x.last_fetch != y.last_fetch
            ||| x.error != y.error
        }),
    ensures
        snapshots_differ(a, b),
        snapshots_differ(a, a.push(b[i])),
{
    assert(!same_ignoring_time(a[i], b[i]));
}

} // verus!
