use codex_notify::cli::{command_for, notification_suppressed, status_lines, Command};
use codex_notify::config::Config;
use codex_notify::install::{InstallationStatus, Paths};
use codex_notify::payload::{parse_bytes, NotifyPayload};

fn args(list: &[&str]) -> Vec<String> {
    list.iter().map(|a| a.to_string()).collect()
}

#[test]
fn commands_follow_the_first_argument() {
    assert!(matches!(command_for(args(&["--help"]), false), Command::Help));
    assert!(matches!(command_for(args(&["-V"]), false), Command::Version));
    assert!(matches!(command_for(args(&["apply"]), false), Command::Install));
    assert!(matches!(command_for(args(&["remove"]), false), Command::Uninstall));
    assert!(matches!(command_for(args(&["status"]), false), Command::Status));
    assert!(matches!(command_for(args(&[]), true), Command::Ui));
    match command_for(args(&["hook", "x"]), false) {
        Command::Hook(rest) => assert_eq!(rest, args(&["x"])),
        _ => panic!("expected hook"),
    }
    match command_for(args(&["--bogus"]), false) {
        Command::UnknownOption(o) => assert_eq!(o, "--bogus"),
        _ => panic!("expected an unknown option"),
    }
    match command_for(args(&["{\"a\":1}"]), true) {
        Command::Notify(rest) => assert_eq!(rest, args(&["{\"a\":1}"])),
        _ => panic!("expected notify"),
    }
    assert!(matches!(command_for(args(&[]), false), Command::Notify(_)));
}

#[test]
fn subagent_notifications_are_dropped_only_when_asked() {
    let (subagent, _) = parse_bytes(br#"{"type":"agent-turn-complete","agent_type":"worker"}"#);
    let ignore = Config { ignore_subagent_notifications: true, ..Config::default() };
    let keep = Config::default();
    assert_eq!(
        notification_suppressed(true, &ignore, &subagent),
        subagent.is_subagent()
    );
    assert!(!notification_suppressed(false, &ignore, &subagent));
    assert!(!notification_suppressed(true, &keep, &subagent));
    assert!(!notification_suppressed(true, &ignore, &NotifyPayload::default()));
}

#[test]
fn status_lines_describe_each_part() {
    let paths = Paths::from_codex_home("/h".to_string(), false);
    let status = InstallationStatus {
        binary_installed: true,
        binary_current: false,
        hook_configured: true,
        subagent_hook_configured: false,
        legacy_notify_configured: true,
    };
    assert_eq!(
        status_lines(&status, &paths),
        vec![
            "EXE：已安装但需要更新".to_string(),
            "Codex Stop Hook：已配置".to_string(),
            "Codex SubagentStop Hook：未配置（仅通知主代理）".to_string(),
            "旧 notify：仍存在，请重新运行 install 完成迁移".to_string(),
            "路径：/h/bin/codex-notify".to_string(),
            "Hooks：/h/hooks.json".to_string(),
        ]
    );
}
