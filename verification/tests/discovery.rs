use repositorymonitor::discovery::{
    admit_repo, build_exclude_set, category_for, child_depth, exclude_patterns, is_excluded,
    is_pruned_dir, manual_category,
};
use repositorymonitor::model::{RepoRef, VcsKind};

#[test]
fn bare_name_matches_anywhere() {
    let set = build_exclude_set(&vec!["node_modules".to_string()]);
    assert!(is_excluded(&set, "/Users/me/proj/node_modules/pkg"));
    assert!(!is_excluded(&set, "/Users/me/proj/src/main.rs"));
}

#[test]
fn leading_slash_is_absolute() {
    let set = build_exclude_set(&vec!["/Users/me/secret/*".to_string()]);
    assert!(is_excluded(&set, "/Users/me/secret/repo"));
    assert!(!is_excluded(&set, "/Users/other/secret/repo"));
}

#[test]
fn case_insensitive() {
    let set = build_exclude_set(&vec!["Pods".to_string()]);
    assert!(is_excluded(&set, "/a/PODS/x"));
}

#[test]
fn empty_globs_match_nothing() {
    let set = build_exclude_set(&vec![]);
    assert!(!is_excluded(&set, "/anything/at/all"));
}

#[test]
fn category_is_first_segment_under_root() {
    let root = "/Users/me/@Projects";
    assert_eq!(category_for("/Users/me/@Projects/2_App/GitMonitor", root), "2_App");
    assert_eq!(category_for("/Users/me/@Projects/@ITXRtsp/edge-client-swift", root), "@ITXRtsp");
}

#[test]
fn category_root_direct_uses_root_name() {
    let root = "/Users/me/@Projects";
    assert_eq!(category_for("/Users/me/@Projects/loneRepo", root), "@Projects");
}

#[test]
fn category_normalizes_separators() {
    assert_eq!(category_for("/a//b/./c/d", "/a/b/"), "c");
    assert_eq!(category_for("/a/b/c", "/"), "a");
    assert_eq!(category_for("/x/c", "/"), "x");
    assert_eq!(category_for("/x/c", "/a"), "/");
}

#[test]
fn manual_path_category() {
    let roots = vec!["/root".to_string(), "/other".to_string()];
    assert_eq!(manual_category("/elsewhere/manualRepo", &roots), "(manual)");
    assert_eq!(manual_category("/other/cat/repo", &roots), "cat");
    assert_eq!(manual_category("/rootless/repo", &roots), "(manual)");
}

#[test]
fn exclude_patterns_expand_entries() {
    let globs = vec![
        " Pods/ ".to_string(),
        "/abs/path//".to_string(),
        "   ".to_string(),
        "/".to_string(),
    ];
    assert_eq!(
        exclude_patterns(&globs),
        vec!["**/Pods".to_string(), "**/Pods/**".to_string(), "/abs/path".to_string()]
    );
}

#[test]
fn invalid_glob_is_skipped() {
    let set = build_exclude_set(&vec!["[unclosed".to_string(), "keep".to_string()]);
    assert!(is_excluded(&set, "/a/keep"));
}

#[test]
fn pruned_directory_names() {
    for n in ["node_modules", "target", "Pods", ".build", ".git", ".svn"] {
        assert!(is_pruned_dir(n));
    }
    assert!(!is_pruned_dir("src"));
    assert!(!is_pruned_dir("pods"));
}

#[test]
fn walk_enters_directories_below_the_limit_only() {
    assert_eq!(child_depth(0, 3, true, "src"), Some(1));
    assert_eq!(child_depth(2, 3, true, "src"), Some(3));
    assert_eq!(child_depth(3, 3, true, "src"), None);
    assert_eq!(child_depth(0, 3, false, "file.txt"), None);
    assert_eq!(child_depth(0, 3, true, "node_modules"), None);
    assert_eq!(child_depth(0, 0, true, "src"), None);
    assert_eq!(child_depth(u32::MAX - 1, u32::MAX, true, "a"), Some(u32::MAX));
}

fn repo(path: &str, category: &str) -> RepoRef {
    RepoRef {
        path: path.to_string(),
        name: path.rsplit('/').next().unwrap_or("").to_string(),
        category: category.to_string(),
        vcs: VcsKind::Git,
    }
}

#[test]
fn admitted_repos_skip_excluded_and_duplicates() {
    let excl = build_exclude_set(&vec!["vendor".to_string()]);
    let mut found: Vec<RepoRef> = Vec::new();
    assert!(admit_repo(&mut found, repo("/p/a", "p"), &excl));
    assert!(admit_repo(&mut found, repo("/p/b", "p"), &excl));
    assert!(!admit_repo(&mut found, repo("/p/a", "(manual)"), &excl));
    assert!(!admit_repo(&mut found, repo("/p/vendor/c", "p"), &excl));
    assert!(!admit_repo(&mut found, repo("/p/VENDOR", "p"), &excl));
    assert_eq!(found.len(), 2);
    assert_eq!(found[0].path, "/p/a");
    assert_eq!(found[0].category, "p");
    assert_eq!(found[1].path, "/p/b");
}

#[test]
fn blank_entries_exclude_nothing() {
    let set = build_exclude_set(&vec!["  ".to_string(), "//".to_string()]);
    assert!(!is_excluded(&set, "/anything"));
    assert!(!is_excluded(&set, "/"));
}

#[test]
fn star_does_not_cross_separator() {
    let set = build_exclude_set(&vec!["/a/*".to_string()]);
    assert!(is_excluded(&set, "/a/b"));
    assert!(!is_excluded(&set, "/a/b/c"));
}
