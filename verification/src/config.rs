//! User settings.
use vstd::prelude::*;

verus! {

/// The terminal application that "open terminal" starts.
#[derive(Debug, Clone, PartialEq, Eq)]
pub enum TerminalApp {
    Terminal,
    Iterm,
    Ghostty,
    WindowsTerminal,
    Powershell,
    Cmd,
    /// An application given by name or path.
    Custom(String),
}

impl Default for TerminalApp {
    fn default() -> (r: Self)
        ensures
            r is Terminal,
    {
        TerminalApp::Terminal
    }
}

/// The settings file's content.
#[derive(Debug, Clone, PartialEq, Eq)]
pub struct Config {
    pub version: u32,
    /// Folders scanned for repositories.
    pub roots: Vec<String>,
    /// Repositories added one by one.
    pub manual_paths: Vec<String>,
    /// Glob patterns of repository paths to leave out.
    pub exclude_globs: Vec<String>,
    pub poll_interval_secs: u32,
    pub scan_depth: u32,
    pub stale_fetch_days: u32,
    pub terminal_app: TerminalApp,
}

impl Default for Config {
    fn default() -> (r: Self)
        ensures
            r.version == 1,
            r.roots@.len() == 0,
            r.manual_paths@.len() == 0,
            r.exclude_globs@.len() == 0,
            r.poll_interval_secs == 30,
            r.scan_depth == 4,
            r.stale_fetch_days == 7,
            r.terminal_app is Terminal,
    {
        Config {
            version: 1,
            roots: Vec::new(),
            manual_paths: Vec::new(),
            exclude_globs: Vec::new(),
            poll_interval_secs: 30,
            scan_depth: 4,
            stale_fetch_days: 7,
            terminal_app: TerminalApp::Terminal,
        }
    }
}

} // verus!
