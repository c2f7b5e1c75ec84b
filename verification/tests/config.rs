use repositorymonitor::config::{Config, TerminalApp};

#[test]
fn default_values() {
    let c = Config::default();
    assert_eq!(c.version, 1);
    assert_eq!(c.poll_interval_secs, 30);
    assert_eq!(c.scan_depth, 4);
    assert_eq!(c.stale_fetch_days, 7);
    assert_eq!(c.terminal_app, TerminalApp::Terminal);
    assert!(c.roots.is_empty());
}

#[test]
fn default_lists_are_empty_and_terminal_default() {
    let c = Config::default();
    assert!(c.manual_paths.is_empty());
    assert!(c.exclude_globs.is_empty());
    assert_eq!(TerminalApp::default(), TerminalApp::Terminal);
}
