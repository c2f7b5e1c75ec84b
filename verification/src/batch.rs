//! Rules of the status batch: how many repositories are read at once and what
//! a reading that timed out or failed to run becomes.
use vstd::prelude::*;
use crate::git_reader::{git_status_of, GitExtras};
use crate::model::{placeholder, RepoRef, RepoRefView, RepoState, RepoStatus, RepoStatusView};
use crate::svn_reader::svn_status_of;

verus! {

/// The number of readings run at once: the requested number, at least one.
pub fn batch_concurrency(requested: usize) -> (r: usize)
    ensures
        r == if requested == 0 {
            1
        } else {
            requested
        },
{
    if requested == 0 {
        1
    } else {
        requested
    }
}

/// The message of a reading that timed out or could not run.
pub open spec fn batch_failure_message() -> Seq<char> {
    "git 읽기 timeout 또는 실행 실패"@
}

/// The status reported for a repository whose reading timed out or could not
/// run: the placeholder of `repo` at `now` with the failure message.
pub fn batch_failure_status(repo: &RepoRef, now: i64) -> (r: RepoStatus)
    ensures
        r@ == (RepoStatusView { error: Some(batch_failure_message()), ..placeholder(repo@, now) }),
{
    let mut st = RepoStatus::from_ref(repo, now);
    st.error = Some("git 읽기 timeout 또는 실행 실패".to_owned());
    st
}

/// Every status of a batch, however it was obtained (git reading, Subversion
/// reading, or failure), carries the repository's identity and the batch
/// time.
pub proof fn law_readings_carry_identity_and_batch_time(
    repo: RepoRefView,
    now: i64,
    status: Result<Seq<char>, Seq<char>>,
    info: Result<Seq<char>, Seq<char>>,
    x: GitExtras,
)
    ensures
        git_status_of(repo, now, status, x).last_checked == now,
        git_status_of(repo, now, status, x).path == repo.path,
        git_status_of(repo, now, status, x).vcs == repo.vcs,
        svn_status_of(repo, now, status, info).last_checked == now,
        svn_status_of(repo, now, status, info).path == repo.path,
        svn_status_of(repo, now, status, info).vcs == repo.vcs,
        (RepoStatusView { error: Some(batch_failure_message()), ..placeholder(repo, now) }).last_checked
            == now,
{
}

/// A Subversion status never carries the git-only signals: nothing staged
/// or stashed, no ahead/behind, no operation in progress, one worktree, no
/// fetch time; and it always has an upstream.
pub proof fn law_svn_has_no_git_only_signals(
    repo: RepoRefView,
    now: i64,
    status: Result<Seq<char>, Seq<char>>,
    info: Result<Seq<char>, Seq<char>>,
)
    ensures
        svn_status_of(repo, now, status, info).staged == 0,
        svn_status_of(repo, now, status, info).stash == 0,
        svn_status_of(repo, now, status, info).ahead is None,
        svn_status_of(repo, now, status, info).behind is None,
        svn_status_of(repo, now, status, info).state == RepoState::Clean,
        svn_status_of(repo, now, status, info).worktrees == 1,
        svn_status_of(repo, now, status, info).last_fetch is None,
        svn_status_of(repo, now, status, info).has_upstream,
{
}

} // verus!
