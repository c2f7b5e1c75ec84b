use repositorymonitor::model::{RepoRef, RepoStatus, VcsKind};
use repositorymonitor::snapshot::merge_failed_with_previous;

fn rref(path: &str) -> RepoRef {
    RepoRef { path: path.into(), name: "n".into(), category: "c".into(), vcs: VcsKind::Git }
}

#[test]
fn failed_repo_keeps_previous_values() {
    let mut prev_x = RepoStatus::from_ref(&rref("/x"), 100);
    prev_x.staged = 3;
    prev_x.branch = Some("main".into());
    let prev = vec![prev_x];

    let mut fresh_x = RepoStatus::from_ref(&rref("/x"), 200);
    fresh_x.error = Some("git 실패".into());
    let fresh = vec![fresh_x];

    let merged = merge_failed_with_previous(&prev, fresh);
    assert_eq!(merged.len(), 1);
    assert_eq!(merged[0].staged, 3);
    assert_eq!(merged[0].branch.as_deref(), Some("main"));
    assert_eq!(merged[0].error.as_deref(), Some("git 실패"));
    assert_eq!(merged[0].last_checked, 200);
}

#[test]
fn ok_repo_passes_through() {
    let mut fresh_x = RepoStatus::from_ref(&rref("/x"), 200);
    fresh_x.staged = 5;
    let merged = merge_failed_with_previous(&[], vec![fresh_x]);
    assert_eq!(merged[0].staged, 5);
    assert_eq!(merged[0].error, None);
}

#[test]
fn failed_repo_with_no_previous_stays_error() {
    let mut fresh_x = RepoStatus::from_ref(&rref("/new"), 200);
    fresh_x.error = Some("e".into());
    let merged = merge_failed_with_previous(&[], vec![fresh_x]);
    assert_eq!(merged[0].error.as_deref(), Some("e"));
}

#[test]
fn previous_failure_is_not_a_good_reading() {
    let mut prev_bad = RepoStatus::from_ref(&rref("/x"), 100);
    prev_bad.error = Some("old".into());
    prev_bad.staged = 9;
    let mut prev_good = RepoStatus::from_ref(&rref("/x"), 100);
    prev_good.staged = 4;
    let mut fresh_x = RepoStatus::from_ref(&rref("/x"), 300);
    fresh_x.error = Some("new".into());
    let merged = merge_failed_with_previous(&[prev_bad, prev_good], vec![fresh_x]);
    assert_eq!(merged[0].staged, 4);
    assert_eq!(merged[0].error.as_deref(), Some("new"));
    assert_eq!(merged[0].last_checked, 300);
}

#[test]
fn merging_twice_changes_nothing() {
    let mut prev_x = RepoStatus::from_ref(&rref("/x"), 100);
    prev_x.modified = 2;
    let prev = vec![prev_x];
    let mut fresh_x = RepoStatus::from_ref(&rref("/x"), 200);
    fresh_x.error = Some("e".into());
    let once = merge_failed_with_previous(&prev, vec![fresh_x]);
    let twice = merge_failed_with_previous(&prev, once.clone());
    assert_eq!(once, twice);
}
