use codex_notify::config::Config;
use codex_notify::notify::{
    bark_body, failure, failure_report, hermes_body, plan_requests, sign_hermes, telegram_body,
    Channel,
};
use codex_notify::payload::NotifyPayload;
use codex_notify::telegram_markdown::render;
use serde_json::Value;

#[test]
fn bark_request_matches_existing_contract() {
    let payload = NotifyPayload::default();
    let body = bark_body("Codex finished", &payload);
    let body: Value = serde_json::from_slice(body.as_bytes()).unwrap();
    assert_eq!(body["title"], "Codex 任务已完成");
    assert_eq!(body["body"], "Codex finished");
    assert_eq!(body["group"], "Codex");
}

#[test]
fn bark_sends_the_text_as_native_markdown() {
    let body = bark_body("**done**", &NotifyPayload::default());
    let body: Value = serde_json::from_str(&body).unwrap();
    assert_eq!(body["markdown"], "**done**");
    assert_eq!(body["body"], "**done**");
}

#[test]
fn hermes_request_contains_only_readable_message() {
    let body = hermes_body("用户输入：测试\nCodex 回应：完成");
    let decoded: Value = serde_json::from_slice(body.as_bytes()).unwrap();
    assert_eq!(decoded["event_type"], "codex_notify");
    assert_eq!(decoded.as_object().unwrap().len(), 2);
    assert_eq!(decoded["message"], "用户输入：测试\nCodex 回应：完成");
    assert_eq!(
        sign_hermes(body.as_bytes(), "test-secret").len(),
        64,
        "SHA-256 HMAC must be lowercase hex"
    );
}

#[test]
fn bodies_are_compact_json_in_field_order() {
    assert_eq!(
        telegram_body("42", "a \"quoted\"\nline\u{1}"),
        "{\"chat_id\":\"42\",\"text\":\"a \\\"quoted\\\"\\nline\\u0001\",\"parse_mode\":\"MarkdownV2\"}"
    );
    assert_eq!(
        hermes_body("hi"),
        "{\"event_type\":\"codex_notify\",\"message\":\"hi\"}"
    );
}

#[test]
fn hermes_signature_is_the_rfc_4231_value() {
    // RFC 4231, test case 2: key "Jefe", data "what do ya want for nothing?".
    assert_eq!(
        sign_hermes(b"what do ya want for nothing?", "Jefe"),
        "5bdcc146bf60754e6a042426089575c75a003f089d2739839dec58b964ec3843"
    );
}

#[test]
fn plans_only_configured_channels_in_order() {
    let config = Config {
        bot_token: "TOKEN".into(),
        chat_id: "7".into(),
        openilink_hub_url: "https://hub.example/send".into(),
        openilink_hub_token: "bad\ntoken".into(),
        bark_server_url: "https://bark.example/key".into(),
        hermes_webhook_url: "https://hermes.example/hook".into(),
        hermes_webhook_secret: "s".into(),
        ..Config::default()
    };
    let plan = plan_requests(&config, "done.", &NotifyPayload::default());
    assert_eq!(plan.len(), 4);
    let telegram = plan[0].as_ref().ok().unwrap();
    assert_eq!(telegram.url, "https://api.telegram.org/botTOKEN/sendMessage");
    let sent: Value = serde_json::from_str(&telegram.body).unwrap();
    assert_eq!(sent["text"], render("done."));
    assert_eq!(sent["text"], "done\\.");
    assert_eq!(sent["parse_mode"], "MarkdownV2");
    assert_eq!(sent["chat_id"], "7");
    assert_eq!(
        telegram.headers,
        vec![("Content-Type".to_string(), "application/json; charset=utf-8".to_string())]
    );
    assert!(matches!(plan[1], Err(Channel::OpeniLink)));
    let hermes = plan[3].as_ref().ok().unwrap();
    assert_eq!(hermes.headers.len(), 2);
    assert_eq!(hermes.headers[0].0, "X-Webhook-Signature");
    assert_eq!(hermes.headers[0].1, sign_hermes(hermes.body.as_bytes(), "s"));

    let quiet = Config { bark_server_url: "https://bark.example/key".into(), ..Config::default() };
    let plan = plan_requests(&quiet, "done", &NotifyPayload::default());
    assert_eq!(plan.len(), 1);
    assert!(matches!(plan[0].as_ref().ok().unwrap().channel, Channel::Bark));
    let good = Config {
        openilink_hub_url: "https://hub.example/send".into(),
        openilink_hub_token: "abc".into(),
        ..Config::default()
    };
    let plan = plan_requests(&good, "done", &NotifyPayload::default());
    assert_eq!(plan[0].as_ref().ok().unwrap().headers[0].1, "Bearer abc");
    assert!(plan_requests(&Config::default(), "done", &NotifyPayload::default()).is_empty());
}

#[test]
fn failures_are_reported_together() {
    assert!(failure_report(&Vec::new()).is_none());
    let lines = vec![failure(Channel::Bark, "timeout"), failure(Channel::Hermes, "500")];
    assert_eq!(
        failure_report(&lines).unwrap(),
        "bark: timeout; hermes webhook: 500"
    );
}
