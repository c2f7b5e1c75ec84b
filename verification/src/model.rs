//! The data model shared by every part of the monitor: repositories, their
//! status, and the snapshot pushed to the dashboard.
use vstd::prelude::*;

verus! {

/// Which version-control system a working copy belongs to.
#[derive(Debug, Clone, Copy, PartialEq, Eq, Structural)]
pub enum VcsKind {
    Git,
    Svn,
}

impl Default for VcsKind {
    fn default() -> (r: Self)
        ensures
            r == VcsKind::Git,
    {
        VcsKind::Git
    }
}

/// A repository found by discovery.
#[derive(Debug, PartialEq, Eq)]
pub struct RepoRef {
    pub path: String,
    pub name: String,
    pub category: String,
    pub vcs: VcsKind,
}

/// Mathematical view of a [`RepoRef`].
pub struct RepoRefView {
    pub path: Seq<char>,
    pub name: Seq<char>,
    pub category: Seq<char>,
    pub vcs: VcsKind,
}

impl View for RepoRef {
    type V = RepoRefView;

    open spec fn view(&self) -> RepoRefView {
        RepoRefView { path: self.path@, name: self.name@, category: self.category@, vcs: self.vcs }
    }
}

impl Clone for RepoRef {
    fn clone(&self) -> (r: Self)
        ensures
            r@ == self@,
    {
        RepoRef {
            path: self.path.clone(),
            name: self.name.clone(),
            category: self.category.clone(),
            vcs: self.vcs,
        }
    }
}

/// An operation in progress in a working copy.
#[derive(Debug, Clone, Copy, PartialEq, Eq, Structural)]
pub enum RepoState {
    Clean,
    Merging,
    Rebasing,
    CherryPicking,
    Reverting,
    Bisecting,
}

impl Default for RepoState {
    fn default() -> (r: Self)
        ensures
            r == RepoState::Clean,
    {
        RepoState::Clean
    }
}

/// Everything the dashboard shows of one repository.
#[derive(Debug, PartialEq, Eq)]
pub struct RepoStatus {
    pub path: String,
    pub name: String,
    pub category: String,
    pub vcs: VcsKind,
    pub branch: Option<String>,
    pub detached_sha: Option<String>,
    pub upstream: Option<String>,
    pub has_upstream: bool,
    pub ahead: Option<u32>,
    pub behind: Option<u32>,
    pub staged: u32,
    pub modified: u32,
    pub untracked: u32,
    pub conflicts: u32,
    pub stash: u32,
    pub is_clean: bool,
    pub state: RepoState,
    pub worktrees: u32,
    pub last_fetch: Option<i64>,
    pub last_checked: i64,
    pub error: Option<String>,
}

/// Mathematical view of a [`RepoStatus`]: strings become character sequences.
pub struct RepoStatusView {
    pub path: Seq<char>,
    pub name: Seq<char>,
    pub category: Seq<char>,
    pub vcs: VcsKind,
    pub branch: Option<Seq<char>>,
    pub detached_sha: Option<Seq<char>>,
    pub upstream: Option<Seq<char>>,
    pub has_upstream: bool,
    pub ahead: Option<u32>,
    pub behind: Option<u32>,
    pub staged: u32,
    pub modified: u32,
    pub untracked: u32,
    pub conflicts: u32,
    pub stash: u32,
    pub is_clean: bool,
    pub state: RepoState,
    pub worktrees: u32,
    pub last_fetch: Option<i64>,
    pub last_checked: i64,
    pub error: Option<Seq<char>>,
}

/// The views of a list of strings.
pub open spec fn strs(v: Seq<String>) -> Seq<Seq<char>> {
    v.map_values(|s: String| s@)
}

/// The view of an optional string.
pub open spec fn opt_str(o: Option<String>) -> Option<Seq<char>> {
    match o {
        Some(s) => Some(s@),
        None => None,
    }
}

impl View for RepoStatus {
    type V = RepoStatusView;

    open spec fn view(&self) -> RepoStatusView {
        RepoStatusView {
            path: self.path@,
            name: self.name@,
            category: self.category@,
            vcs: self.vcs,
            branch: opt_str(self.branch),
            detached_sha: opt_str(self.detached_sha),
            upstream: opt_str(self.upstream),
            has_upstream: self.has_upstream,
            ahead: self.ahead,
            behind: self.behind,
            staged: self.staged,
            modified: self.modified,
            untracked: self.untracked,
            conflicts: self.conflicts,
            stash: self.stash,
            is_clean: self.is_clean,
            state: self.state,
            worktrees: self.worktrees,
            last_fetch: self.last_fetch,
            last_checked: self.last_checked,
            error: opt_str(self.error),
        }
    }
}

/// The status a repository has before anything was read from it: clean, no
/// upstream, one worktree, checked at `now`.
pub open spec fn placeholder(r: RepoRefView, now: i64) -> RepoStatusView {
    RepoStatusView {
        path: r.path,
        name: r.name,
        category: r.category,
        vcs: r.vcs,
        branch: None,
        detached_sha: None,
        upstream: None,
        has_upstream: false,
        ahead: None,
        behind: None,
        staged: 0,
        modified: 0,
        untracked: 0,
        conflicts: 0,
        stash: 0,
        is_clean: true,
        state: RepoState::Clean,
        worktrees: 1,
        last_fetch: None,
        last_checked: now,
        error: None,
    }
}

/// A copy of an optional string.
pub fn clone_opt_string(o: &Option<String>) -> (r: Option<String>)
    ensures
        opt_str(r) == opt_str(*o),
{
    match o {
        Some(s) => Some(s.clone()),
        None => None,
    }
}

/// Whether two optional strings are equal.
pub fn opt_string_eq(a: &Option<String>, b: &Option<String>) -> (r: bool)
    ensures
        r == (opt_str(*a) == opt_str(*b)),
{
    match (a, b) {
        (Some(x), Some(y)) => *x == *y,
        (None, None) => true,
        _ => false,
    }
}

/// Whether two optional counts are equal.
pub fn opt_u32_eq(a: Option<u32>, b: Option<u32>) -> (r: bool)
    ensures
        r == (a == b),
{
    match (a, b) {
        (Some(x), Some(y)) => x == y,
        (None, None) => true,
        _ => false,
    }
}

/// Whether two optional timestamps are equal.
pub fn opt_i64_eq(a: Option<i64>, b: Option<i64>) -> (r: bool)
    ensures
        r == (a == b),
{
    match (a, b) {
        (Some(x), Some(y)) => x == y,
        (None, None) => true,
        _ => false,
    }
}

impl RepoStatus {
    /// The status of `repo` before anything was read from it, checked at `now`.
    pub fn from_ref(repo: &RepoRef, now: i64) -> (r: RepoStatus)
        ensures
            r@ == placeholder(repo@, now),
    {
        RepoStatus {
            path: repo.path.clone(),
            name: repo.name.clone(),
            category: repo.category.clone(),
            vcs: repo.vcs,
            branch: None,
            detached_sha: None,
            upstream: None,
            has_upstream: false,
            ahead: None,
            behind: None,
            staged: 0,
            modified: 0,
            untracked: 0,
            conflicts: 0,
            stash: 0,
            is_clean: true,
            state: RepoState::Clean,
            worktrees: 1,
            last_fetch: None,
            last_checked: now,
            error: None,
        }
    }
}

impl Clone for RepoStatus {
    fn clone(&self) -> (r: Self)
        ensures
            r@ == self@,
    {
        RepoStatus {
            path: self.path.clone(),
            name: self.name.clone(),
            category: self.category.clone(),
            vcs: self.vcs,
            branch: clone_opt_string(&self.branch),
            detached_sha: clone_opt_string(&self.detached_sha),
            upstream: clone_opt_string(&self.upstream),
            has_upstream: self.has_upstream,
            ahead: self.ahead,
            behind: self.behind,
            staged: self.staged,
            modified: self.modified,
            untracked: self.untracked,
            conflicts: self.conflicts,
            stash: self.stash,
            is_clean: self.is_clean,
            state: self.state,
            worktrees: self.worktrees,
            last_fetch: self.last_fetch,
            last_checked: self.last_checked,
            error: clone_opt_string(&self.error),
        }
    }
}

/// A request to open a repository in an outside application.
#[derive(Debug, Clone, Copy, PartialEq, Eq, Structural)]
pub enum ActionKind {
    OpenFinder,
    OpenTerminal,
    OpenSourceTree,
}

/// The payload pushed to the dashboard: the statuses and a sequence number
/// that grows with every push, so that an older snapshot can be told apart.
#[derive(Debug, PartialEq, Eq)]
pub struct RepoSnapshot {
    pub seq: u64,
    pub repos: Vec<RepoStatus>,
}

} // verus!
