use codex_notify::config::Config;
use codex_notify::form::{
    config_opened, handle_key, installed, mask, paste, uninstalled, Action, ConfigForm, Key,
    KeyCode, Screen,
};

fn key(code: KeyCode) -> Key {
    Key { code, control: false, alt: false }
}

fn control(code: KeyCode) -> Key {
    Key { code, control: true, alt: false }
}

fn form_of(screen: &Screen) -> &ConfigForm {
    match screen {
        Screen::Config(form) => form,
        Screen::Menu { .. } => panic!("expected the form"),
    }
}

fn menu_of(screen: &Screen) -> (usize, String) {
    match screen {
        Screen::Menu { selected, message } => (*selected, message.clone()),
        Screen::Config(_) => panic!("expected the menu"),
    }
}

#[test]
fn config_form_preserves_fields_not_shown_in_tui() {
    let source = Config {
        openilink_hub_url: "https://hub.example".into(),
        openilink_hub_token: "secret".into(),
        hermes_webhook_secret: "signing-secret".into(),
        ..Config::default()
    };
    let mut form = ConfigForm::from_config(source);
    form.values[2] = " https://bark.example/device ".into();

    let result = form.config_to_save();

    assert_eq!(result.bark_server_url, "https://bark.example/device");
    assert_eq!(result.openilink_hub_url, "https://hub.example");
    assert_eq!(result.openilink_hub_token, "secret");
    assert_eq!(result.hermes_webhook_secret, "signing-secret");
    assert!(!result.ignore_subagent_notifications);
}

#[test]
fn token_mask_uses_character_count() {
    assert_eq!(mask("ab中"), "•••");
}

#[test]
fn menu_moves_within_its_entries_and_starts_work() {
    let screen = Screen::Menu { selected: 0, message: "hello".into() };
    let (screen, action) = handle_key(screen, key(KeyCode::Up));
    assert!(matches!(action, Action::Nothing));
    assert_eq!(menu_of(&screen), (0, "hello".to_string()));
    let (screen, _) = handle_key(screen, key(KeyCode::Char('j')));
    let (screen, _) = handle_key(screen, key(KeyCode::Down));
    let (screen, _) = handle_key(screen, key(KeyCode::Down));
    let (screen, _) = handle_key(screen, key(KeyCode::Down));
    assert_eq!(menu_of(&screen).0, 3);
    let (screen, action) = handle_key(screen, key(KeyCode::Enter));
    assert!(matches!(action, Action::Quit));
    let (screen, _) = handle_key(screen, key(KeyCode::Char('k')));
    let (screen, _) = handle_key(screen, key(KeyCode::Char('k')));
    let (screen, action) = handle_key(screen, key(KeyCode::Enter));
    assert!(matches!(action, Action::Uninstall));
    let (_, action) = handle_key(screen, key(KeyCode::Esc));
    assert!(matches!(action, Action::Quit));
}

#[test]
fn form_edits_toggles_and_saves() {
    let screen = config_opened(
        Screen::Menu { selected: 2, message: String::new() },
        Ok(Config { chat_id: "42".into(), ..Config::default() }),
    );
    let (screen, _) = handle_key(screen, key(KeyCode::Tab));
    assert_eq!(form_of(&screen).focus, 1);
    let (screen, _) = handle_key(screen, key(KeyCode::Enter));
    assert!(form_of(&screen).editing);
    let (screen, _) = handle_key(screen, key(KeyCode::Backspace));
    let (screen, _) = handle_key(screen, key(KeyCode::Char('7')));
    let screen = paste(screen, "89");
    assert_eq!(form_of(&screen).values[1], "4789");
    let (screen, _) = handle_key(screen, control(KeyCode::Char('u')));
    assert_eq!(form_of(&screen).values[1], "");
    let (screen, _) = handle_key(screen, key(KeyCode::Char('5')));
    let (screen, _) = handle_key(screen, key(KeyCode::Enter));
    assert!(!form_of(&screen).editing);
    let (probe, _) = handle_key(screen_clone(&screen), key(KeyCode::BackTab));
    assert_eq!(form_of(&probe).focus, 0);
    let (screen, _) = handle_key(screen, key(KeyCode::Down));
    let (screen, _) = handle_key(screen, key(KeyCode::Down));
    let (screen, _) = handle_key(screen, key(KeyCode::Down));
    let (screen, _) = handle_key(screen, key(KeyCode::Down));
    assert_eq!(form_of(&screen).focus, 4);
    let (screen, _) = handle_key(screen, key(KeyCode::Char(' ')));
    assert!(form_of(&screen).ignore_subagent_notifications);
    let (screen, action) = handle_key(screen, control(KeyCode::Char('s')));
    assert!(matches!(action, Action::Save));
    let saved = form_of(&screen).config_to_save();
    assert_eq!(saved.chat_id, "5");
    assert!(saved.ignore_subagent_notifications);
    let (screen, _) = handle_key(screen, key(KeyCode::Char('q')));
    assert_eq!(menu_of(&screen), (2, "已返回主菜单。".to_string()));
}

fn screen_clone(screen: &Screen) -> Screen {
    match screen {
        Screen::Menu { selected, message } => Screen::Menu { selected: *selected, message: message.clone() },
        Screen::Config(form) => Screen::Config(ConfigForm {
            config: form.config.clone(),
            focus: form.focus,
            values: form.values.clone(),
            ignore_subagent_notifications: form.ignore_subagent_notifications,
            editing: form.editing,
            message: form.message.clone(),
        }),
    }
}

#[test]
fn saved_form_shows_the_saved_configuration() {
    let mut form = ConfigForm::from_config(Config::default());
    form.saved(
        Config { bot_token: "t".into(), ignore_subagent_notifications: true, ..Config::default() },
        Some("/x/codex-notify.json".to_string()),
    );
    assert_eq!(form.values[0], "t");
    assert!(form.ignore_subagent_notifications);
    assert_eq!(form.message, "配置已保存：/x/codex-notify.json");
    form.save_failed("disk full");
    assert_eq!(form.message, "保存失败：disk full");
}

#[test]
fn menu_reports_outcomes() {
    let screen = Screen::Menu { selected: 0, message: String::new() };
    let screen = installed(screen, Ok("/bin/codex-notify".to_string()));
    assert_eq!(menu_of(&screen).1, "配置完成。Codex notify 已指向：/bin/codex-notify");
    let screen = uninstalled(screen, Ok(false));
    assert_eq!(menu_of(&screen).1, "当前 notify 不是本工具配置的，未做修改。");
    let screen = uninstalled(screen, Err("boom".to_string()));
    assert_eq!(menu_of(&screen).1, "移除失败：boom");
    let screen = config_opened(screen, Err("bad json".to_string()));
    assert_eq!(menu_of(&screen).1, "读取通知配置失败：bad json");
}

#[test]
fn form_lines_mask_the_token_and_mark_the_edited_field() {
    let mut form = ConfigForm::from_config(Config {
        bot_token: "123:abc".into(),
        ..Config::default()
    });
    assert_eq!(form.field_line(0), "TELEGRAM_BOT_TOKEN: •••••••");
    assert_eq!(form.field_line(1), "TELEGRAM_CHAT_ID: <未设置>");
    form.focus = 2;
    form.editing = true;
    form.values[2] = "https://b".into();
    assert_eq!(form.field_line(2), "BARK_SERVER_URL: https://b  [编辑中]");
    assert_eq!(form.switch_line(), "忽略 SubAgent 通知: 否（全部通知）");
}
