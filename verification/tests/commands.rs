use repositorymonitor::commands::{epoch_seconds, now_epoch, RefreshGate};
use repositorymonitor::model::{RepoRef, RepoStatus, VcsKind};

fn rref(path: &str) -> RepoRef {
    RepoRef { path: path.into(), name: "n".into(), category: "c".into(), vcs: VcsKind::Git }
}

#[test]
fn gate_coalesces_when_in_flight() {
    let mut g = RefreshGate::new();
    assert!(g.try_begin());
    assert!(!g.try_begin());
    assert!(g.in_flight);
    assert_eq!(g.seq, 0);
    assert!(g.last_snapshot.is_empty());
}

#[test]
fn gate_no_push_when_unchanged() {
    let mut g = RefreshGate::new();
    assert!(g.try_begin());
    let out = g.finish(vec![]);
    assert!(out.is_none());
    assert_eq!(g.seq, 0);
    assert!(!g.in_flight);
}

#[test]
fn gate_seq_increments_only_on_push() {
    let mut g = RefreshGate::new();
    g.last_snapshot = vec![RepoStatus::from_ref(&rref("/x"), 1)];
    assert!(g.try_begin());
    let out = g.finish(vec![]);
    assert_eq!(out.map(|s| s.seq), Some(1));
    assert_eq!(g.seq, 1);
    assert!(!g.in_flight);
    assert!(g.try_begin());
    let out2 = g.finish(vec![]);
    assert!(out2.is_none());
    assert_eq!(g.seq, 1);
}

#[test]
fn gate_allows_refresh_after_release() {
    let mut g = RefreshGate::new();
    assert!(g.try_begin());
    g.release();
    assert!(!g.in_flight);
    assert!(g.try_begin());
}

#[test]
fn gate_push_carries_merged_snapshot() {
    let mut g = RefreshGate::new();
    let mut good = RepoStatus::from_ref(&rref("/x"), 10);
    good.staged = 3;
    assert!(g.try_begin());
    let first = g.finish(vec![good]).unwrap();
    assert_eq!(first.seq, 1);
    let mut bad = RepoStatus::from_ref(&rref("/x"), 20);
    bad.error = Some("timeout".into());
    assert!(g.try_begin());
    let second = g.finish(vec![bad]).unwrap();
    assert_eq!(second.seq, 2);
    assert_eq!(second.repos[0].staged, 3);
    assert_eq!(second.repos[0].error.as_deref(), Some("timeout"));
    assert_eq!(g.last_snapshot, second.repos);
}

#[test]
fn epoch_seconds_conversion() {
    assert_eq!(epoch_seconds(Some(1_700_000_000)), 1_700_000_000);
    assert_eq!(epoch_seconds(None), 0);
    assert!(now_epoch() > 1_600_000_000);
}
