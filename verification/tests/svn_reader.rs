use repositorymonitor::model::{RepoRef, VcsKind};
use repositorymonitor::svn_reader::{parse_svn_status, read_svn_status, svn_branch};

#[test]
fn parses_dirty_fixture() {
    let txt = "\
M       a.txt
A       b.txt
?       untracked.txt
";
    let p = parse_svn_status(txt);
    assert_eq!(p.modified, 2);
    assert_eq!(p.untracked, 1);
    assert_eq!(p.conflicts, 0);
    assert!(!p.is_clean);
}

#[test]
fn parses_clean_empty() {
    let p = parse_svn_status("");
    assert_eq!((p.modified, p.untracked, p.conflicts), (0, 0, 0));
    assert!(p.is_clean);
}

#[test]
fn parses_conflict() {
    let txt = "C       c.txt\n";
    let p = parse_svn_status(txt);
    assert_eq!(p.conflicts, 1);
    assert_eq!(p.modified, 0);
    assert!(!p.is_clean);
}

#[test]
fn parses_prop_only_modified() {
    let txt = " M      props.txt\n";
    let p = parse_svn_status(txt);
    assert_eq!(p.modified, 1);
    assert_eq!(p.untracked, 0);
    assert!(!p.is_clean);
}

#[test]
fn parses_prop_only_conflict() {
    let txt = " C      props.txt\n";
    let p = parse_svn_status(txt);
    assert_eq!(p.conflicts, 1);
    assert!(!p.is_clean);
}

#[test]
fn skips_ignored_and_external() {
    let txt = "I       ignored.txt\nX       ext\n";
    let p = parse_svn_status(txt);
    assert_eq!((p.modified, p.untracked, p.conflicts), (0, 0, 0));
    assert!(p.is_clean);
}

#[test]
fn counts_delete_replace_missing() {
    let txt = "D       d.txt\nR       r.txt\n!       missing.txt\n";
    let p = parse_svn_status(txt);
    assert_eq!(p.modified, 3);
    assert!(!p.is_clean);
}

#[test]
fn branch_trunk() {
    assert_eq!(svn_branch("^/trunk"), Some("trunk".to_string()));
    assert_eq!(svn_branch("^/trunk/sub"), Some("trunk".to_string()));
}

#[test]
fn branch_branches() {
    assert_eq!(svn_branch("^/branches/feat"), Some("feat".to_string()));
    assert_eq!(svn_branch("^/branches/feat/deep"), Some("feat".to_string()));
}

#[test]
fn branch_tags() {
    assert_eq!(svn_branch("^/tags/v1"), Some("tags/v1".to_string()));
}

#[test]
fn branch_root_is_none() {
    assert_eq!(svn_branch("^/"), None);
    assert_eq!(svn_branch(""), None);
}

#[test]
fn branch_other_first_segment() {
    assert_eq!(svn_branch("^/custom/x"), Some("custom".to_string()));
}

#[test]
fn branch_edge_cases() {
    assert_eq!(svn_branch("  ^/trunk\n"), Some("trunk".to_string()));
    assert_eq!(svn_branch("^/branches"), Some("branches".to_string()));
    assert_eq!(svn_branch("^/^//tags/x/y"), Some("tags/x".to_string()));
    assert_eq!(svn_branch("^/branches/"), Some("".to_string()));
}

#[test]
fn blank_and_modified_first_column_lines() {
    let p = parse_svn_status("\n   \n~       obstructed\n");
    assert_eq!(p.modified, 1);
    assert_eq!(p.untracked, 0);
}

fn ref_for(path: &str) -> RepoRef {
    RepoRef { path: path.into(), name: "r".into(), category: "test".into(), vcs: VcsKind::Svn }
}

#[test]
fn svn_status_fills_counts_and_branch() {
    let status: Result<String, String> = Ok("M       a.txt\nA       b.txt\n?       u.txt\n".into());
    let info: Result<String, String> = Ok("^/trunk\n".into());
    let st = read_svn_status(&ref_for("/wc"), 12345, &status, &info);
    assert_eq!(st.error, None);
    assert_eq!(st.branch.as_deref(), Some("trunk"));
    assert!(st.has_upstream);
    assert_eq!(st.modified, 2);
    assert_eq!(st.untracked, 1);
    assert_eq!(st.conflicts, 0);
    assert!(!st.is_clean);
    assert_eq!(st.last_checked, 12345);
    assert_eq!(st.staged, 0);
    assert_eq!(st.stash, 0);
    assert_eq!(st.ahead, None);
    assert_eq!(st.behind, None);
    assert_eq!(st.last_fetch, None);
    assert_eq!(st.vcs, VcsKind::Svn);
}

#[test]
fn svn_status_failure_sets_error_only() {
    let status: Result<String, String> = Err("svn 실행 실패".into());
    let info: Result<String, String> = Ok("^/trunk\n".into());
    let st = read_svn_status(&ref_for("/wc"), 5, &status, &info);
    assert_eq!(st.error.as_deref(), Some("svn 실행 실패"));
    assert_eq!(st.branch, None);
    assert!(st.has_upstream);
    assert!(st.is_clean);
}
