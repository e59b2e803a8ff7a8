use codex_notify::install::{
    configured_lifecycle_hook, hook_command_text, hook_command_windows_text, installation_status,
    join_path, remove_lifecycle_hooks, set_lifecycle_hooks, uninstall, InstallError,
    InstallationStatus, Paths,
};
use codex_notify::legacy_notify::{
    configured_notify_hook, is_npx_command, is_our_package_spec, remove_notify_hook,
};
use serde_json::Value;

fn event_handlers(root: &Value, event: &str) -> Vec<Value> {
    let mut handlers = Vec::new();
    if let Some(groups) = root["hooks"][event].as_array() {
        for group in groups {
            if let Some(list) = group.get("hooks").and_then(Value::as_array) {
                for handler in list {
                    handlers.push(handler.clone());
                }
            }
        }
    }
    handlers
}

fn test_paths() -> Paths {
    Paths::from_codex_home("/tmp/codex-notify-test/codex".to_string(), false)
}

fn json_of(text: &str) -> Value {
    serde_json::from_str(text.trim_start_matches('\u{feff}')).unwrap()
}

#[test]
fn installs_binary_migrates_notify_and_configures_main_only_hook() {
    let paths = test_paths();
    let config = format!(
        "# keep this comment\r\nmodel = \"gpt-test\"\r\nnotify = [\"{}\"]\r\n\r\n[features]\r\nweb_search = true\r\n",
        paths.installed_binary.replace('\\', "\\\\")
    );

    let hooks = set_lifecycle_hooks(None, &paths.installed_binary, false, false)
        .unwrap()
        .unwrap();
    let updated = remove_notify_hook(Some(config.into_bytes()), &paths, false)
        .unwrap()
        .unwrap();

    assert!(updated.contains("# keep this comment\r\n"));
    assert!(updated.contains("[features]\r\nweb_search = true\r\n"));
    assert!(!updated.contains("notify ="));
    let root = json_of(&hooks);
    let stop_handlers = event_handlers(&root, "Stop");
    assert_eq!(stop_handlers.len(), 1);
    assert_eq!(
        stop_handlers[0]["command"],
        hook_command_text(&paths.installed_binary, false)
    );
    assert!(event_handlers(&root, "SubagentStop").is_empty());
    assert_eq!(
        installation_status(
            &paths,
            false,
            true,
            false,
            Some(hooks.into_bytes()),
            Some(updated.into_bytes()),
        )
        .ok()
        .unwrap(),
        InstallationStatus {
            binary_installed: true,
            binary_current: false,
            hook_configured: true,
            subagent_hook_configured: false,
            legacy_notify_configured: false,
        }
    );
}

#[test]
fn configures_all_agents_and_is_idempotent() {
    let paths = test_paths();
    let first = set_lifecycle_hooks(None, &paths.installed_binary, false, true)
        .unwrap()
        .unwrap();
    let second =
        set_lifecycle_hooks(Some(first.clone().into_bytes()), &paths.installed_binary, false, true)
            .unwrap();

    assert!(second.is_none());
    let root = json_of(&first);
    assert_eq!(event_handlers(&root, "Stop").len(), 1);
    assert_eq!(event_handlers(&root, "SubagentStop").len(), 1);
}

#[test]
fn preserves_unrelated_hooks_and_uninstall_removes_only_ours() {
    let paths = test_paths();
    let original = r#"{
  "description": "keep me",
  "hooks": {
    "Stop": [{"hooks": [{"type": "command", "command": "other-tool"}]}],
    "SessionEnd": [{"hooks": [{"type": "command", "command": "cleanup"}]}]
  }
}
"#;
    let installed = set_lifecycle_hooks(
        Some(original.as_bytes().to_vec()),
        &paths.installed_binary,
        false,
        true,
    )
    .unwrap()
    .unwrap();

    let removed = remove_lifecycle_hooks(Some(installed.into_bytes()), &paths.installed_binary, false)
        .unwrap();
    assert!(removed.is_some());
    let removed = removed.unwrap();
    let root = json_of(&removed);
    assert_eq!(root["description"], "keep me");
    assert_eq!(event_handlers(&root, "Stop").len(), 1);
    assert_eq!(event_handlers(&root, "Stop")[0]["command"], "other-tool");
    assert_eq!(event_handlers(&root, "SessionEnd").len(), 1);
    assert!(remove_lifecycle_hooks(Some(removed.into_bytes()), &paths.installed_binary, false)
        .unwrap()
        .is_none());
}

#[test]
fn switching_to_main_only_removes_only_our_subagent_hook() {
    let paths = test_paths();
    let installed = set_lifecycle_hooks(None, &paths.installed_binary, false, true)
        .unwrap()
        .unwrap();
    let mut hooks = json_of(&installed);
    let extra: Value = serde_json::from_str(
        r#"{"hooks": [{"type": "command", "command": "other-subagent-hook"}]}"#,
    )
    .unwrap();
    hooks["hooks"]["SubagentStop"].as_array_mut().unwrap().push(extra);
    let rewritten = format!("{}\n", serde_json::to_string_pretty(&hooks).unwrap());

    let switched = set_lifecycle_hooks(
        Some(rewritten.into_bytes()),
        &paths.installed_binary,
        false,
        false,
    )
    .unwrap()
    .unwrap();
    let root = json_of(&switched);
    let handlers = event_handlers(&root, "SubagentStop");
    assert_eq!(handlers.len(), 1);
    assert_eq!(handlers[0]["command"], "other-subagent-hook");
}

#[test]
fn preserves_json_bom_and_crlf() {
    let paths = test_paths();
    let original = b"\xef\xbb\xbf{\r\n  \"custom\": true\r\n}\r\n".to_vec();

    let text = set_lifecycle_hooks(Some(original), &paths.installed_binary, false, false)
        .unwrap()
        .unwrap();
    let bytes = text.into_bytes();
    assert!(bytes.starts_with(b"\xef\xbb\xbf"));
    let text = String::from_utf8(bytes).unwrap();
    assert!(text.contains("\r\n"));
    assert!(!text.replace("\r\n", "").contains('\n'));
}

#[test]
fn preserves_other_notify_during_migration() {
    let paths = test_paths();
    let config = "notify = [\"npx\", \"-y\", \"other-tool@latest\"]\n";

    let written = remove_notify_hook(Some(config.as_bytes().to_vec()), &paths, false).unwrap();
    assert!(written.is_none());
    assert!(config.contains("other-tool@latest"));
}

#[test]
fn migrates_legacy_go_package_notify_commands() {
    let paths = test_paths();

    let config = "notify = [\"npx\", \"-y\", \"go-codex-notify@latest\"]\n";
    assert!(configured_notify_hook(Some(config.as_bytes().to_vec()), &paths, false)
        .ok()
        .unwrap());
    let written = remove_notify_hook(Some(config.as_bytes().to_vec()), &paths, false)
        .unwrap()
        .unwrap();
    assert!(!written.contains("notify"));

    let legacy_binary = paths.legacy_binary(false);
    let config = format!("notify = ['{}']\n", legacy_binary);
    assert!(configured_notify_hook(Some(config.clone().into_bytes()), &paths, false)
        .ok()
        .unwrap());
    let written = remove_notify_hook(Some(config.into_bytes()), &paths, false)
        .unwrap()
        .unwrap();
    assert!(!written.contains("notify"));
}

#[test]
fn rejects_malformed_event_without_overwriting_file() {
    let paths = test_paths();
    let original = b"{\n  \"hooks\": {\n    \"Stop\": {}\n  }\n}\n".to_vec();

    let error = set_lifecycle_hooks(Some(original), &paths.installed_binary, false, false);

    match error {
        Err(InstallError::EventNotArray(event)) => assert!(event.contains("Stop")),
        _ => panic!("expected the Stop entry to be refused"),
    }
}

#[test]
fn paths_live_under_codex_home() {
    let paths = Paths::from_codex_home("/home/u/.codex".to_string(), false);
    assert_eq!(paths.bin_dir, "/home/u/.codex/bin");
    assert_eq!(paths.installed_binary, "/home/u/.codex/bin/codex-notify");
    assert_eq!(paths.config, "/home/u/.codex/config.toml");
    assert_eq!(paths.hooks, "/home/u/.codex/hooks.json");
    assert_eq!(paths.legacy_binary(false), "/home/u/.codex/bin/go-codex-notify");
    let windows = Paths::from_codex_home("C:\\Users\\u\\.codex\\".to_string(), true);
    assert_eq!(windows.installed_binary, "C:\\Users\\u\\.codex\\bin\\codex-notify.exe");
    assert_eq!(join_path("", "a", false), "a");
    assert_eq!(join_path("C:", "bin", true), "C:bin");
    assert_eq!(join_path("C:", "bin", false), "C:/bin");
}

#[test]
fn hook_commands_quote_the_program() {
    assert_eq!(hook_command_text("/opt/it's/codex-notify", false), "'/opt/it'\\''s/codex-notify' hook");
    assert_eq!(hook_command_text("C:\\x\\codex-notify.exe", true), "\"C:\\x\\codex-notify.exe\" hook");
    // "& 'a' hook" in UTF-16LE is JgAgACcAYQAnACAAaABvAG8AawA= in base64.
    assert_eq!(
        hook_command_windows_text("a"),
        "powershell.exe -NoProfile -NonInteractive -EncodedCommand JgAgACcAYQAnACAAaABvAG8AawA="
    );
}

#[test]
fn installing_twice_with_subagents_off_changes_nothing() {
    let paths = test_paths();
    let first = set_lifecycle_hooks(None, &paths.installed_binary, false, false)
        .unwrap()
        .unwrap();
    assert!(set_lifecycle_hooks(Some(first.into_bytes()), &paths.installed_binary, false, false)
        .unwrap()
        .is_none());
}

#[test]
fn status_reads_each_hook() {
    let paths = test_paths();
    let hooks = set_lifecycle_hooks(None, &paths.installed_binary, false, true)
        .unwrap()
        .unwrap();
    assert!(configured_lifecycle_hook(Some(hooks.clone().into_bytes()), "Stop", &paths.installed_binary, false)
        .ok()
        .unwrap());
    assert!(configured_lifecycle_hook(Some(hooks.into_bytes()), "SubagentStop", &paths.installed_binary, false)
        .ok()
        .unwrap());
    assert!(!configured_lifecycle_hook(None, "Stop", &paths.installed_binary, false)
        .ok()
        .unwrap());
    assert!(matches!(
        configured_lifecycle_hook(Some(vec![0xff, 0xfe]), "Stop", &paths.installed_binary, false),
        Err(InstallError::HooksNotUtf8)
    ));
    assert!(matches!(
        configured_lifecycle_hook(Some(b"[1]".to_vec()), "Stop", &paths.installed_binary, false),
        Err(InstallError::HooksNotObject)
    ));
    assert!(matches!(
        configured_lifecycle_hook(Some(b"{".to_vec()), "Stop", &paths.installed_binary, false),
        Err(InstallError::HooksInvalid)
    ));
    assert!(matches!(
        set_lifecycle_hooks(Some(b"{\"hooks\": 3}".to_vec()), &paths.installed_binary, false, true),
        Err(InstallError::HooksFieldNotObject)
    ));
}

#[test]
fn uninstall_plans_both_files() {
    let paths = test_paths();
    let hooks = set_lifecycle_hooks(None, &paths.installed_binary, false, true)
        .unwrap()
        .unwrap();
    let config = format!("model = \"m\"\nnotify = [\"{}\"]\n", paths.installed_binary);
    let plan = uninstall(&paths, Some(hooks.into_bytes()), Some(config.into_bytes()), false);
    assert!(plan.changed());
    let hooks_text = plan.hooks.ok().unwrap().unwrap();
    assert_eq!(hooks_text, "{}\n");
    let config_text = plan.config.unwrap().ok().unwrap().unwrap();
    assert!(config_text.contains("model"));
    assert!(!config_text.contains("notify"));
    let nothing = uninstall(&paths, None, None, false);
    assert!(!nothing.changed());
    assert!(matches!(
        remove_notify_hook(Some(b"= broken".to_vec()), &paths, false),
        Err(InstallError::ConfigInvalid)
    ));
    assert!(matches!(
        remove_notify_hook(Some(vec![0xc3]), &paths, false),
        Err(InstallError::ConfigNotUtf8)
    ));
}

#[test]
fn recognises_npx_and_packages() {
    assert!(is_npx_command("npx", false));
    assert!(is_npx_command("/usr/bin/NPX", false));
    assert!(is_npx_command("/usr/bin/npx/.", false));
    assert!(!is_npx_command("/usr/bin/npx/..", false));
    assert!(is_npx_command("C:\\node\\npx.cmd", true));
    assert!(!is_npx_command("C:\\node\\npx.cmd", false));
    assert!(is_npx_command("C:npx.exe", true));
    assert!(!is_npx_command("npm", false));
    assert!(is_our_package_spec("go-codex-notify"));
    assert!(is_our_package_spec("@asural/codex-notify@1.2.3"));
    assert!(!is_our_package_spec("go-codex-notify-extra"));
}
