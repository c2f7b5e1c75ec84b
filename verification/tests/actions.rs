use repositorymonitor::actions::{open_argv, Platform};
use repositorymonitor::config::TerminalApp;
use repositorymonitor::model::ActionKind;

#[test]
fn finder_argv() {
    let (prog, args) =
        open_argv(&ActionKind::OpenFinder, "/repo", &TerminalApp::Terminal, Platform::MacOs);
    assert_eq!(prog, "open");
    assert_eq!(args, vec!["/repo".to_string()]);
    let (prog, args) =
        open_argv(&ActionKind::OpenFinder, "/repo", &TerminalApp::Terminal, Platform::Windows);
    assert_eq!(prog, "explorer");
    assert_eq!(args, vec!["/repo".to_string()]);
    let (prog, args) =
        open_argv(&ActionKind::OpenFinder, "/repo", &TerminalApp::Terminal, Platform::Other);
    assert_eq!(prog, "xdg-open");
    assert_eq!(args, vec!["/repo".to_string()]);
}

#[test]
fn sourcetree_argv() {
    let (prog, args) =
        open_argv(&ActionKind::OpenSourceTree, "/repo", &TerminalApp::Terminal, Platform::MacOs);
    assert_eq!(prog, "open");
    assert_eq!(args, vec!["-a".to_string(), "SourceTree".to_string(), "/repo".to_string()]);
    let (prog, args) =
        open_argv(&ActionKind::OpenSourceTree, "/repo", &TerminalApp::Terminal, Platform::Windows);
    assert_eq!(prog, "cmd");
    assert_eq!(args, vec!["/C", "start", "", "SourceTree", "/repo"]);
    let (prog, args) =
        open_argv(&ActionKind::OpenSourceTree, "/repo", &TerminalApp::Terminal, Platform::Other);
    assert_eq!(prog, "sourcetree");
    assert_eq!(args, vec!["/repo".to_string()]);
}

#[test]
fn terminal_argv_variants() {
    let mac = Platform::MacOs;
    let (_, a1) = open_argv(&ActionKind::OpenTerminal, "/r", &TerminalApp::Terminal, mac);
    assert_eq!(a1, vec!["-a".to_string(), "Terminal".to_string(), "/r".to_string()]);
    let (_, a2) = open_argv(&ActionKind::OpenTerminal, "/r", &TerminalApp::Iterm, mac);
    assert_eq!(a2, vec!["-a".to_string(), "iTerm".to_string(), "/r".to_string()]);
    let (_, a3) = open_argv(&ActionKind::OpenTerminal, "/r", &TerminalApp::Ghostty, mac);
    assert_eq!(a3, vec!["-a".to_string(), "Ghostty".to_string(), "/r".to_string()]);
    let (_, a4) = open_argv(
        &ActionKind::OpenTerminal,
        "/r",
        &TerminalApp::Custom("/Applications/Foo.app".into()),
        mac,
    );
    assert_eq!(
        a4,
        vec!["-a".to_string(), "/Applications/Foo.app".to_string(), "/r".to_string()]
    );

    let win = Platform::Windows;
    let (p1, a1) =
        open_argv(&ActionKind::OpenTerminal, "C:\\repo", &TerminalApp::WindowsTerminal, win);
    assert_eq!(p1, "wt");
    assert_eq!(a1, vec!["-d".to_string(), "C:\\repo".to_string()]);
    let (p2, a2) = open_argv(&ActionKind::OpenTerminal, "C:\\repo", &TerminalApp::Powershell, win);
    assert_eq!(p2, "powershell");
    assert_eq!(
        a2,
        vec!["-NoExit", "-Command", "Set-Location -LiteralPath $args[0]", "C:\\repo"]
    );
    let (p3, a3) = open_argv(&ActionKind::OpenTerminal, "C:\\repo", &TerminalApp::Cmd, win);
    assert_eq!(p3, "cmd");
    assert_eq!(a3, vec!["/K", "cd", "/d", "C:\\repo"]);
}

#[test]
fn terminal_argv_other_platforms() {
    let (p, a) = open_argv(&ActionKind::OpenTerminal, "/r", &TerminalApp::Iterm, Platform::Other);
    assert_eq!(p, "x-terminal-emulator");
    assert_eq!(a, vec!["--working-directory", "/r"]);
    let (p, a) = open_argv(
        &ActionKind::OpenTerminal,
        "/r",
        &TerminalApp::Custom("kitty".into()),
        Platform::Other,
    );
    assert_eq!(p, "kitty");
    assert_eq!(a, vec!["/r"]);
    let (p, a) = open_argv(
        &ActionKind::OpenTerminal,
        "C:\\r",
        &TerminalApp::Custom("alacritty".into()),
        Platform::Windows,
    );
    assert_eq!(p, "alacritty");
    assert_eq!(a, vec!["C:\\r"]);
    let (p, _) = open_argv(&ActionKind::OpenTerminal, "C:\\r", &TerminalApp::Iterm, Platform::Windows);
    assert_eq!(p, "powershell");
}

#[test]
fn path_is_always_the_last_argument() {
    let kinds = [ActionKind::OpenFinder, ActionKind::OpenSourceTree, ActionKind::OpenTerminal];
    let terms = [
        TerminalApp::Terminal,
        TerminalApp::Iterm,
        TerminalApp::Ghostty,
        TerminalApp::WindowsTerminal,
        TerminalApp::Powershell,
        TerminalApp::Cmd,
        TerminalApp::Custom("x".into()),
    ];
    for k in kinds.iter() {
        for t in terms.iter() {
            for p in [Platform::MacOs, Platform::Windows, Platform::Other] {
                let (_, args) = open_argv(k, "/some/repo", t, p);
                assert_eq!(args.last().map(|s| s.as_str()), Some("/some/repo"));
            }
        }
    }
}
