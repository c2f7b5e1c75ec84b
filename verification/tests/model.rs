use repositorymonitor::batch::{batch_concurrency, batch_failure_status};
use repositorymonitor::model::{RepoRef, RepoState, RepoStatus, VcsKind};

#[test]
fn from_ref_builds_clean_placeholder() {
    let r = RepoRef { path: "/r".into(), name: "r".into(), category: "c".into(), vcs: VcsKind::Svn };
    let st = RepoStatus::from_ref(&r, 999);
    assert_eq!(st.path, "/r");
    assert_eq!(st.name, "r");
    assert_eq!(st.category, "c");
    assert_eq!(st.vcs, VcsKind::Svn);
    assert_eq!(st.last_checked, 999);
    assert!(st.is_clean);
    assert_eq!(st.error, None);
    assert_eq!(st.ahead, None);
    assert_eq!(st.worktrees, 1);
    assert_eq!(st.state, RepoState::Clean);
}

#[test]
fn clone_keeps_every_field() {
    let r = RepoRef { path: "/r".into(), name: "r".into(), category: "c".into(), vcs: VcsKind::Git };
    let mut st = RepoStatus::from_ref(&r, 5);
    st.branch = Some("main".into());
    st.error = Some("x".into());
    st.ahead = Some(2);
    assert_eq!(st.clone(), st);
    assert_eq!(r.clone(), r);
}

#[test]
fn batch_failure_and_concurrency() {
    let r = RepoRef { path: "/x".into(), name: "x".into(), category: "c".into(), vcs: VcsKind::Git };
    let st = batch_failure_status(&r, 1000);
    assert_eq!(st.error.as_deref(), Some("git 읽기 timeout 또는 실행 실패"));
    assert_eq!(st.last_checked, 1000);
    assert_eq!(batch_concurrency(0), 1);
    assert_eq!(batch_concurrency(8), 8);
}
