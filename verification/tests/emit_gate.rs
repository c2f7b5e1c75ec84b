use repositorymonitor::emit_gate::should_emit;
use repositorymonitor::model::{RepoRef, RepoStatus, VcsKind};

fn s(now: i64, staged: u32) -> RepoStatus {
    let mut x = RepoStatus::from_ref(
        &RepoRef { path: "/r".into(), name: "r".into(), category: "c".into(), vcs: VcsKind::Git },
        now,
    );
    x.staged = staged;
    x.is_clean = staged == 0;
    x
}

#[test]
fn same_except_last_checked_does_not_emit() {
    let a = vec![s(100, 0)];
    let b = vec![s(200, 0)];
    assert!(!should_emit(&a, &b));
}

#[test]
fn changed_count_emits() {
    let a = vec![s(100, 0)];
    let b = vec![s(100, 2)];
    assert!(should_emit(&a, &b));
}

#[test]
fn different_len_emits() {
    let a = vec![s(100, 0)];
    let b: Vec<RepoStatus> = vec![];
    assert!(should_emit(&a, &b));
}

#[test]
fn emit_is_symmetric_and_reflexive() {
    let a = vec![s(100, 0), s(100, 1)];
    let mut b = vec![s(5, 0), s(7, 1)];
    assert!(!should_emit(&a, &a));
    assert!(!should_emit(&a, &b));
    b[1].error = Some("e".into());
    assert!(should_emit(&a, &b));
    assert!(should_emit(&b, &a));
}
