//! The commands that open a repository in outside applications.
//!
//! Which command is used depends on the operating system. The library does
//! not look at the machine it runs on: the caller names the [`Platform`].
use vstd::prelude::*;
use crate::config::TerminalApp;
use crate::model::{strs, ActionKind};

verus! {

/// The operating system whose conventions the commands follow.
#[derive(Debug, Clone, Copy, PartialEq, Eq, Structural)]
pub enum Platform {
    MacOs,
    Windows,
    /// Linux and other Unix-like systems.
    Other,
}

/// The view of a command line: program and arguments.
pub open spec fn argv_view(r: (String, Vec<String>)) -> (Seq<char>, Seq<Seq<char>>) {
    (r.0@, strs(r.1@))
}

/// The file manager command.
pub open spec fn file_manager_argv(path: Seq<char>, p: Platform) -> (Seq<char>, Seq<Seq<char>>) {
    match p {
        Platform::MacOs => ("open"@, seq![path]),
        Platform::Windows => ("explorer"@, seq![path]),
        Platform::Other => ("xdg-open"@, seq![path]),
    }
}

/// The SourceTree command.
pub open spec fn sourcetree_argv(path: Seq<char>, p: Platform) -> (Seq<char>, Seq<Seq<char>>) {
    match p {
        Platform::MacOs => ("open"@, seq!["-a"@, "SourceTree"@, path]),
        Platform::Windows => ("cmd"@, seq!["/C"@, "start"@, ""@, "SourceTree"@, path]),
        Platform::Other => ("sourcetree"@, seq![path]),
    }
}

/// The terminal command for the configured terminal application.
pub open spec fn terminal_argv(path: Seq<char>, t: TerminalApp, p: Platform) -> (
    Seq<char>,
    Seq<Seq<char>>,
) {
    match p {
        Platform::MacOs => {
            let app = match t {
                TerminalApp::Iterm => "iTerm"@,
                TerminalApp::Ghostty => "Ghostty"@,
                TerminalApp::Custom(s) => s@,
                _ => "Terminal"@,
            };
            ("open"@, seq!["-a"@, app, path])
        },
        Platform::Windows => match t {
            TerminalApp::WindowsTerminal | TerminalApp::Terminal => ("wt"@, seq!["-d"@, path]),
            TerminalApp::Cmd => ("cmd"@, seq!["/K"@, "cd"@, "/d"@, path]),
            TerminalApp::Custom(s) => (s@, seq![path]),
            _ => (
                "powershell"@,
                seq!["-NoExit"@, "-Command"@, "Set-Location -LiteralPath $args[0]"@, path],
            ),
        },
        Platform::Other => match t {
            TerminalApp::Custom(s) => (s@, seq![path]),
            _ => ("x-terminal-emulator"@, seq!["--working-directory"@, path]),
        },
    }
}

/// The command line that performs `kind` on `path`.
pub open spec fn action_argv(kind: ActionKind, path: Seq<char>, t: TerminalApp, p: Platform) -> (
    Seq<char>,
    Seq<Seq<char>>,
) {
    match kind {
        ActionKind::OpenFinder => file_manager_argv(path, p),
        ActionKind::OpenSourceTree => sourcetree_argv(path, p),
        ActionKind::OpenTerminal => terminal_argv(path, t, p),
    }
}

fn argv1(prog: &str, a: &str) -> (r: (String, Vec<String>))
    ensures
        argv_view(r) == (prog@, seq![a@]),
{
    let mut v: Vec<String> = Vec::new();
    v.push(a.to_owned());
    assert(strs(v@) =~= seq![a@]);
    (prog.to_owned(), v)
}

fn argv2(prog: &str, a: &str, b: &str) -> (r: (String, Vec<String>))
    ensures
        argv_view(r) == (prog@, seq![a@, b@]),
{
    let mut v: Vec<String> = Vec::new();
    v.push(a.to_owned());
    v.push(b.to_owned());
    assert(strs(v@) =~= seq![a@, b@]);
    (prog.to_owned(), v)
}

fn argv3(prog: &str, a: &str, b: &str, c: &str) -> (r: (String, Vec<String>))
    ensures
        argv_view(r) == (prog@, seq![a@, b@, c@]),
{
    let mut v: Vec<String> = Vec::new();
    v.push(a.to_owned());
    v.push(b.to_owned());
    v.push(c.to_owned());
    assert(strs(v@) =~= seq![a@, b@, c@]);
    (prog.to_owned(), v)
}

fn argv4(prog: &str, a: &str, b: &str, c: &str, d: &str) -> (r: (String, Vec<String>))
    ensures
        argv_view(r) == (prog@, seq![a@, b@, c@, d@]),
{
    let mut v: Vec<String> = Vec::new();
    v.push(a.to_owned());
    v.push(b.to_owned());
    v.push(c.to_owned());
    v.push(d.to_owned());
    assert(strs(v@) =~= seq![a@, b@, c@, d@]);
    (prog.to_owned(), v)
}

fn argv5(prog: &str, a: &str, b: &str, c: &str, d: &str, e: &str) -> (r: (String, Vec<String>))
    ensures
        argv_view(r) == (prog@, seq![a@, b@, c@, d@, e@]),
{
    let mut v: Vec<String> = Vec::new();
    v.push(a.to_owned());
    v.push(b.to_owned());
    v.push(c.to_owned());
    v.push(d.to_owned());
    v.push(e.to_owned());
    assert(strs(v@) =~= seq![a@, b@, c@, d@, e@]);
    (prog.to_owned(), v)
}

fn open_file_manager_argv(path: &str, platform: Platform) -> (r: (String, Vec<String>))
    ensures
        argv_view(r) == file_manager_argv(path@, platform),
{
    match platform {
        Platform::MacOs => argv1("open", path),
        Platform::Windows => argv1("explorer", path),
        Platform::Other => argv1("xdg-open", path),
    }
}

fn open_sourcetree_argv(path: &str, platform: Platform) -> (r: (String, Vec<String>))
    ensures
        argv_view(r) == sourcetree_argv(path@, platform),
{
    match platform {
        Platform::MacOs => argv3("open", "-a", "SourceTree", path),
        Platform::Windows => argv5("cmd", "/C", "start", "", "SourceTree", path),
        Platform::Other => argv1("sourcetree", path),
    }
}

fn open_terminal_argv(path: &str, terminal: &TerminalApp, platform: Platform) -> (r: (
    String,
    Vec<String>,
))
    ensures
        argv_view(r) == terminal_argv(path@, *terminal, platform),
{
    match platform {
        Platform::MacOs => {
            let app: &str = match terminal {
                TerminalApp::Iterm => "iTerm",
                TerminalApp::Ghostty => "Ghostty",
                TerminalApp::Custom(s) => s.as_str(),
                _ => "Terminal",
            };
            argv3("open", "-a", app, path)
        },
        Platform::Windows => match terminal {
            TerminalApp::WindowsTerminal | TerminalApp::Terminal => argv2("wt", "-d", path),
            TerminalApp::Cmd => argv4("cmd", "/K", "cd", "/d", path),
            TerminalApp::Custom(s) => argv1(s.as_str(), path),
            _ => argv4(
                "powershell",
                "-NoExit",
                "-Command",
                "Set-Location -LiteralPath $args[0]",
                path,
            ),
        },
        Platform::Other => match terminal {
            TerminalApp::Custom(s) => argv1(s.as_str(), path),
            _ => argv2("x-terminal-emulator", "--working-directory", path),
        },
    }
}

/// The program and arguments that perform `kind` on the repository at `path`
/// on `platform`.
pub fn open_argv(kind: &ActionKind, path: &str, terminal: &TerminalApp, platform: Platform) -> (r:
    (String, Vec<String>))
    ensures
        argv_view(r) == action_argv(*kind, path@, *terminal, platform),
{
    match kind {
        ActionKind::OpenFinder => open_file_manager_argv(path, platform),
        ActionKind::OpenSourceTree => open_sourcetree_argv(path, platform),
        ActionKind::OpenTerminal => open_terminal_argv(path, terminal, platform),
    }
}

/// Whatever the action, terminal and platform, the repository path is the
/// last argument of the command.
pub proof fn law_path_is_last_argument(
    kind: ActionKind,
    path: Seq<char>,
    t: TerminalApp,
    p: Platform,
)
    ensures
        action_argv(kind, path, t, p).1.len() >= 1,
        action_argv(kind, path, t, p).1.last() == path,
{
}

/// On Windows the default terminal setting opens Windows Terminal in the
/// repository (`wt -d <path>`), exactly as choosing Windows Terminal does.
pub proof fn law_windows_default_terminal_is_wt(path: Seq<char>)
    ensures
        action_argv(ActionKind::OpenTerminal, path, TerminalApp::Terminal, Platform::Windows) == (
            "wt"@,
            seq!["-d"@, path],
        ),
        action_argv(ActionKind::OpenTerminal, path, TerminalApp::Terminal, Platform::Windows)
            == action_argv(
            ActionKind::OpenTerminal,
            path,
            TerminalApp::WindowsTerminal,
            Platform::Windows,
        ),
{
}

/// The terminal commands by platform. On macOS every setting goes through
/// `open -a <application> <path>`, with Terminal for the settings that name
/// no macOS application. On Windows, Command Prompt starts in the path with
/// `cmd /K cd /d`, PowerShell with `Set-Location`. Elsewhere the system's
/// terminal emulator starts in the path. A custom program on Windows or
/// elsewhere gets the path as its only argument.
pub proof fn law_terminal_commands(path: Seq<char>, t: TerminalApp)
    ensures
        action_argv(ActionKind::OpenTerminal, path, t, Platform::MacOs) == (
            "open"@,
            seq![
                "-a"@,
                match t {
                    TerminalApp::Iterm => "iTerm"@,
                    TerminalApp::Ghostty => "Ghostty"@,
                    TerminalApp::Custom(s) => s@,
                    _ => "Terminal"@,
                },
                path,
            ],
        ),
        action_argv(ActionKind::OpenTerminal, path, TerminalApp::Cmd, Platform::Windows) == (
            "cmd"@,
            seq!["/K"@, "cd"@, "/d"@, path],
        ),
        action_argv(ActionKind::OpenTerminal, path, TerminalApp::Powershell, Platform::Windows)
            == ("powershell"@, seq!["-NoExit"@, "-Command"@, "Set-Location -LiteralPath $args[0]"@, path]),
        (t is Iterm || t is Ghostty) ==> action_argv(ActionKind::OpenTerminal, path, t, Platform::Windows)
            == action_argv(ActionKind::OpenTerminal, path, TerminalApp::Powershell, Platform::Windows),
        t matches TerminalApp::Custom(s) ==> action_argv(
            ActionKind::OpenTerminal,
            path,
            t,
            Platform::Windows,
        ) == (s@, seq![path]) && action_argv(ActionKind::OpenTerminal, path, t, Platform::Other) == (
            s@,
            seq![path],
        ),
        !(t is Custom) ==> action_argv(ActionKind::OpenTerminal, path, t, Platform::Other) == (
            "x-terminal-emulator"@,
            seq!["--working-directory"@, path],
        ),
{
}

/// The file manager and SourceTree commands by platform: the file manager
/// is `open`, `explorer` or `xdg-open` with the path; SourceTree is opened by
/// application name on macOS, through `cmd /C start` on Windows, and as the
/// `sourcetree` program elsewhere.
pub proof fn law_finder_and_sourcetree_commands(path: Seq<char>, t: TerminalApp)
    ensures
        action_argv(ActionKind::OpenFinder, path, t, Platform::MacOs) == ("open"@, seq![path]),
        action_argv(ActionKind::OpenFinder, path, t, Platform::Windows) == ("explorer"@, seq![path]),
        action_argv(ActionKind::OpenFinder, path, t, Platform::Other) == ("xdg-open"@, seq![path]),
        action_argv(ActionKind::OpenSourceTree, path, t, Platform::MacOs) == (
            "open"@,
            seq!["-a"@, "SourceTree"@, path],
        ),
        action_argv(ActionKind::OpenSourceTree, path, t, Platform::Windows) == (
            "cmd"@,
            seq!["/C"@, "start"@, ""@, "SourceTree"@, path],
        ),
        action_argv(ActionKind::OpenSourceTree, path, t, Platform::Other) == (
            "sourcetree"@,
            seq![path],
        ),
{
}

} // verus!
