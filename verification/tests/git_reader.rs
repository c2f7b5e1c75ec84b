use repositorymonitor::git_reader::{
    detect_state, parse_porcelain_v2, read_status, resolve_git_path, stash_count, worktree_count,
    GitExtras, StateMarkers,
};
use repositorymonitor::model::{RepoRef, RepoState, VcsKind};

#[test]
fn clean_in_sync() {
    let txt = "\
# branch.oid 14bbe8869730251fa97f51cfae8ccdf81d6337ff
# branch.head master
# branch.upstream origin/main
# branch.ab +0 -0
";
    let p = parse_porcelain_v2(txt);
    assert_eq!(p.branch.as_deref(), Some("master"));
    assert_eq!(p.detached_sha, None);
    assert_eq!(p.upstream.as_deref(), Some("origin/main"));
    assert!(p.has_upstream);
    assert_eq!(p.ahead, Some(0));
    assert_eq!(p.behind, Some(0));
    assert_eq!((p.staged, p.modified, p.untracked, p.conflicts), (0, 0, 0, 0));
    assert!(p.is_clean);
}

#[test]
fn dirty_mm_staged_untracked() {
    let txt = "\
# branch.oid 14bbe8869730251fa97f51cfae8ccdf81d6337ff
# branch.head master
# branch.upstream origin/main
# branch.ab +0 -0
1 MM N... 100644 100644 100644 7898192261 9ad2ebbaff a.txt
1 A. N... 000000 100644 100644 0000000000 b4785957bc staged.txt
? untracked.txt
";
    let p = parse_porcelain_v2(txt);
    assert_eq!(p.staged, 2);
    assert_eq!(p.modified, 1);
    assert_eq!(p.untracked, 1);
    assert_eq!(p.conflicts, 0);
    assert!(!p.is_clean);
}

#[test]
fn no_upstream_has_no_ab_line() {
    let txt = "\
# branch.oid 91269049e9456bed48ceef4a5d6e75df9b53f5f0
# branch.head master
";
    let p = parse_porcelain_v2(txt);
    assert_eq!(p.branch.as_deref(), Some("master"));
    assert!(!p.has_upstream);
    assert_eq!(p.upstream, None);
    assert_eq!(p.ahead, None);
    assert_eq!(p.behind, None);
    assert!(p.is_clean);
}

#[test]
fn detached_head() {
    let txt = "\
# branch.oid 8d42fe5d803a1ee92a51f252eea10c73629a85d3
# branch.head (detached)
";
    let p = parse_porcelain_v2(txt);
    assert_eq!(p.branch, None);
    assert_eq!(p.detached_sha.as_deref(), Some("8d42fe5d803a1ee92a51f252eea10c73629a85d3"));
    assert!(p.is_clean);
}

#[test]
fn empty_repo_initial_oid_is_not_sha() {
    let txt = "\
# branch.oid (initial)
# branch.head main
";
    let p = parse_porcelain_v2(txt);
    assert_eq!(p.branch.as_deref(), Some("main"));
    assert_eq!(p.detached_sha, None);
    assert!(p.is_clean);
}

#[test]
fn conflict_u_line() {
    let txt = "\
# branch.oid 895821ddd416d350bc94fd0687f354581c6a50f8
# branch.head main
u UU N... 100644 100644 100644 100644 df967b c278a3 c77470 f
";
    let p = parse_porcelain_v2(txt);
    assert_eq!(p.conflicts, 1);
    assert_eq!(p.staged, 0);
    assert_eq!(p.modified, 0);
    assert!(!p.is_clean);
}

#[test]
fn rename_2_line_counts_staged_only() {
    let txt = "\
# branch.oid 895821ddd416d350bc94fd0687f354581c6a50f8
# branch.head main
2 R. N... 100644 100644 100644 df967b df967b R100 new.txt\told.txt
";
    let p = parse_porcelain_v2(txt);
    assert_eq!(p.staged, 1);
    assert_eq!(p.modified, 0);
    assert!(!p.is_clean);
}

fn ref_for(path: &str) -> RepoRef {
    RepoRef { path: path.into(), name: "r".into(), category: "test".into(), vcs: VcsKind::Git }
}

fn extras() -> GitExtras {
    GitExtras { stash: 0, state: RepoState::Clean, worktrees: 1, last_fetch: None }
}

#[test]
fn missing_repo_sets_error() {
    let r = ref_for("/no/such/repo/xyz");
    let failed: Result<String, String> = Err("git 실행 실패: No such file or directory".into());
    let st = read_status(&r, 0, &failed, &extras());
    assert!(st.error.is_some());
    assert_eq!(st.error.as_deref(), Some("git 실행 실패: No such file or directory"));
    assert!(st.is_clean);
    assert_eq!(st.worktrees, 1);
    assert_eq!(st.state, RepoState::Clean);
}

#[test]
fn reads_empty_repo() {
    let out: Result<String, String> = Ok("# branch.oid (initial)\n# branch.head main\n".into());
    let st = read_status(&ref_for("/r"), 0, &out, &extras());
    assert_eq!(st.error, None);
    assert!(st.is_clean);
    assert!(st.branch.is_some());
    assert_eq!(st.detached_sha, None);
}

#[test]
fn read_status_takes_extras_and_time() {
    let out: Result<String, String> = Ok("# branch.oid abc\n# branch.head main\n? x\n".into());
    let x = GitExtras { stash: 2, state: RepoState::Merging, worktrees: 3, last_fetch: Some(77) };
    let st = read_status(&ref_for("/r"), 12345, &out, &x);
    assert_eq!(st.last_checked, 12345);
    assert_eq!(st.stash, 2);
    assert_eq!(st.state, RepoState::Merging);
    assert_eq!(st.worktrees, 3);
    assert_eq!(st.last_fetch, Some(77));
    assert_eq!(st.untracked, 1);
    assert!(!st.is_clean);
    assert_eq!(st.path, "/r");
    assert_eq!(st.vcs, VcsKind::Git);
}

#[test]
fn ab_line_ahead_behind_values() {
    let p = parse_porcelain_v2("# branch.head main\n# branch.upstream o/m\n# branch.ab +3 -12\n");
    assert_eq!(p.ahead, Some(3));
    assert_eq!(p.behind, Some(12));
    assert_eq!(p.upstream.as_deref(), Some("o/m"));
}

#[test]
fn ab_line_unparsable_counts_are_zero() {
    let p = parse_porcelain_v2("# branch.ab +x -99999999999\n");
    assert_eq!(p.ahead, Some(0));
    assert_eq!(p.behind, Some(0));
}

#[test]
fn crlf_lines_and_trailing_whitespace() {
    let p = parse_porcelain_v2("# branch.head  feature/x  \r\n1 .M N... a\r\n");
    assert_eq!(p.branch.as_deref(), Some("feature/x"));
    assert_eq!(p.staged, 0);
    assert_eq!(p.modified, 1);
}

#[test]
fn empty_output_is_clean() {
    let p = parse_porcelain_v2("");
    assert!(p.is_clean);
    assert_eq!(p.branch, None);
    assert_eq!(p.ahead, None);
}

#[test]
fn stash_count_counts_non_blank_lines() {
    let ok: Result<String, String> =
        Ok("stash@{0}: WIP on main\n  \nstash@{1}: WIP on main\n".into());
    assert_eq!(stash_count(&ok), 2);
    assert_eq!(stash_count(&Ok(String::new())), 0);
    assert_eq!(stash_count(&Err("fatal".into())), 0);
}

#[test]
fn worktree_count_counts_worktree_lines() {
    let ok: Result<String, String> =
        Ok("worktree /a\nHEAD 1\nbranch refs/heads/main\n\nworktree /b\nHEAD 2\n".into());
    assert_eq!(worktree_count(&ok), 2);
    assert_eq!(worktree_count(&Err("fatal".into())), 1);
    assert_eq!(worktree_count(&Ok(String::new())), 1);
    assert_eq!(worktree_count(&Ok("HEAD abc\nbare\n".into())), 1);
}

#[test]
fn detect_state_priority() {
    let none = StateMarkers {
        merge_head: false,
        rebase_merge: false,
        rebase_apply: false,
        cherry_pick_head: false,
        revert_head: false,
        bisect_log: false,
    };
    assert_eq!(detect_state(&none), RepoState::Clean);
    assert_eq!(detect_state(&StateMarkers { merge_head: true, rebase_apply: true, ..none }), RepoState::Merging);
    assert_eq!(detect_state(&StateMarkers { rebase_apply: true, bisect_log: true, ..none }), RepoState::Rebasing);
    assert_eq!(detect_state(&StateMarkers { cherry_pick_head: true, revert_head: true, ..none }), RepoState::CherryPicking);
    assert_eq!(detect_state(&StateMarkers { revert_head: true, ..none }), RepoState::Reverting);
    assert_eq!(detect_state(&StateMarkers { bisect_log: true, ..none }), RepoState::Bisecting);
}

#[test]
fn resolves_relative_and_absolute_git_paths() {
    assert_eq!(resolve_git_path("/repo", ".git/MERGE_HEAD\n"), "/repo/.git/MERGE_HEAD");
    assert_eq!(resolve_git_path("/repo/", ".git/x"), "/repo/.git/x");
    assert_eq!(resolve_git_path("/repo", " /abs/.git/worktrees/w/MERGE_HEAD \n"), "/abs/.git/worktrees/w/MERGE_HEAD");
}

#[test]
fn entry_line_without_xy_code_is_not_clean() {
    let p = parse_porcelain_v2("# branch.head main\n1 \n");
    assert_eq!(p.staged, 0);
    assert_eq!(p.modified, 0);
    assert!(!p.is_clean);
    let q = parse_porcelain_v2("2 ..\n");
    assert_eq!(q.staged, 0);
    assert_eq!(q.modified, 0);
    assert!(!q.is_clean);
}

#[test]
fn header_and_ignored_lines_keep_clean() {
    let p = parse_porcelain_v2("# branch.oid abc\n# branch.head main\n! ignored.txt\n");
    assert!(p.is_clean);
}

#[test]
fn header_lines_decide_upstream_and_ab() {
    let p = parse_porcelain_v2("# branch.head main\n# branch.upstream origin/main\n");
    assert!(p.has_upstream);
    assert_eq!(p.upstream.as_deref(), Some("origin/main"));
    assert_eq!(p.ahead, None);
    assert_eq!(p.behind, None);
    let q = parse_porcelain_v2("# branch.head main\n# branch.ab +0 -0\n");
    assert!(!q.has_upstream);
    assert_eq!(q.ahead, Some(0));
    assert_eq!(q.behind, Some(0));
    let d = parse_porcelain_v2("# branch.oid 0123abc\n# branch.head (detached)\n");
    assert_eq!(d.detached_sha.as_deref(), Some("0123abc"));
    assert_eq!(d.branch, None);
}
