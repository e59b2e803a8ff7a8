use codex_notify::config::Config;

#[test]
fn fills_only_empty_values() {
    let mut config = Config {
        bot_token: "from-env".into(),
        ..Config::default()
    };
    config.fill_empty_from(Config {
        bot_token: "from-file".into(),
        chat_id: " chat ".into(),
        ..Config::default()
    });
    assert_eq!(config.bot_token, "from-env");
    assert_eq!(config.chat_id, "chat");
}

#[test]
fn environment_wins_and_file_fills_the_rest() {
    let environment = Config {
        bark_server_url: "  https://bark.example/env  ".into(),
        ..Config::default()
    };
    let file = Config {
        bark_server_url: "https://bark.example/file".into(),
        hermes_webhook_secret: " s ".into(),
        ignore_subagent_notifications: true,
        ..Config::default()
    };
    let merged = Config::from_sources(environment.clone(), Some(file));
    assert_eq!(merged.bark_server_url, "https://bark.example/env");
    assert_eq!(merged.hermes_webhook_secret, "s");
    assert!(merged.ignore_subagent_notifications);
    let alone = Config::from_sources(environment, None);
    assert_eq!(alone.bark_server_url, "https://bark.example/env");
    assert!(!alone.ignore_subagent_notifications);
}

#[test]
fn normalized_trims_every_value() {
    let config = Config {
        bot_token: "  newtoken  ".into(),
        openilink_hub_url: " https://example.com/hub ".into(),
        ..Config::default()
    };
    let n = config.normalized();
    assert_eq!(n.bot_token, "newtoken");
    assert_eq!(n.openilink_hub_url, "https://example.com/hub");
    assert_eq!(n.chat_id, "");
}

#[test]
fn load_from_file_returns_empty_if_no_file() {
    let config = Config::load_from_file(None);
    assert_eq!(config.bot_token, "");
    assert_eq!(config.bark_server_url, "");
}

#[test]
fn save_load_preservation() {
    let config = Config {
        bot_token: "  newtoken  ".into(),
        chat_id: "123".into(),
        bark_server_url: "https://example.com/bark".into(),
        hermes_webhook_url: "".into(),
        openilink_hub_url: " https://example.com/hub ".into(),
        ..Config::default()
    };
    let loaded = Config::load_from_file(Some(config.save()));
    assert_eq!(loaded.bot_token, "newtoken");
    assert_eq!(loaded.chat_id, "123");
    assert_eq!(loaded.bark_server_url, "https://example.com/bark");
    assert_eq!(loaded.hermes_webhook_url, "");
    assert_eq!(loaded.openilink_hub_url, "https://example.com/hub");

    let updated = Config {
        bot_token: "updated-token".into(),
        ..loaded
    };
    let reloaded = Config::load_from_file(Some(updated.save()));
    assert_eq!(reloaded.bot_token, "updated-token");
    assert_eq!(reloaded.openilink_hub_url, "https://example.com/hub");
}
