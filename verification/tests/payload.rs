use codex_notify::payload::{
    add_transcript_input, build_message, from_args, notification_headline, notification_title,
    decode_payload, headline_for, parse_bytes, read_from, transcript_path_to_read,
    transcript_user_input, NotifyPayload,
};

#[test]
fn parses_codex_notify_aliases() {
    let input = r#"{"type":"agent-turn-complete","thread-id":"thread-123","turn-id":"turn-456","cwd":"D:\\repo","input-messages":["修复 Bark 通知",2,true],"last-assistant-message":"已完成"}"#;
    let (payload, raw) = parse_bytes(input.as_bytes());
    assert!(!raw.is_empty());
    assert_eq!(payload.event, "agent-turn-complete");
    assert_eq!(payload.session_id, "thread-123");
    assert_eq!(payload.turn_id, "turn-456");
    assert_eq!(payload.input_messages, ["修复 Bark 通知", "2", "true"]);
}

#[test]
fn invalid_json_becomes_plain_message() {
    let (payload, raw) = parse_bytes(b" plain text ");
    assert_eq!(payload.message, "plain text");
    assert_eq!(raw, "plain text");
}

#[test]
fn builds_completion_and_attention_messages() {
    let complete = NotifyPayload {
        event: "agent-turn-complete".into(),
        session_id: "thread-123".into(),
        input_messages: vec!["修复 Bark 通知".into(), "确认 TUI".into()],
        last_assistant_message: "已完成".into(),
        ..NotifyPayload::default()
    };
    let message = build_message(&complete);
    assert_eq!(
        message,
        "用户输入：修复 Bark 通知 / 确认 TUI\nCodex 回应：已完成"
    );
    assert!(!message.contains("thread-123"));

    let attention = NotifyPayload {
        event: "user-interaction-required".into(),
        message: "Plan Mode 等待用户输入".into(),
        ..NotifyPayload::default()
    };
    assert_eq!(notification_title(&attention), "Codex 需要你继续处理");
}

#[test]
fn reads_latest_user_input_from_codex_transcript() {
    let content = format!(
        "{}\n{}\n",
        r#"{"type":"event_msg","payload":{"type":"user_message","message":"旧问题"}}"#,
        r#"{"type":"response_item","payload":{"type":"message","role":"user","content":[{"type":"input_text","text":"修复通知正文"}]}}"#
    );

    let mut payload = NotifyPayload {
        transcript_path: "/tmp/session.jsonl".into(),
        last_assistant_message: "已只保留可读内容".into(),
        ..NotifyPayload::default()
    };
    assert_eq!(
        transcript_path_to_read(&payload).as_deref(),
        Some("/tmp/session.jsonl")
    );
    add_transcript_input(&mut payload, &content);

    assert_eq!(payload.input_messages, ["修复通知正文"]);
    assert_eq!(
        build_message(&payload),
        "用户输入：修复通知正文\nCodex 回应：已只保留可读内容"
    );
}

#[test]
fn distinguishes_current_codex_subagent_notifications() {
    let (child, _) = parse_bytes(
        br#"{"type":"agent-turn-complete","thread-id":"child-thread","turn-id":"child-turn","cwd":"D:\\repo","input-messages":[],"last-assistant-message":"CHILD_DONE"}"#,
    );
    let (parent, _) = parse_bytes(
        br#"{"type":"agent-turn-complete","thread-id":"parent-thread","turn-id":"parent-turn","cwd":"D:\\repo","client":"codex_exec","input-messages":["do work"],"last-assistant-message":"PARENT_DONE"}"#,
    );

    assert!(child.is_subagent());
    assert!(!parent.is_subagent());
}

#[test]
fn recognizes_explicit_subagent_markers() {
    let (payload, _) = parse_bytes(
        br#"{"type":"agent-turn-complete","thread-id":"child","agent_id":"agent-1","input-messages":["delegated task"]}"#,
    );
    assert!(payload.is_subagent());
}

#[test]
fn subagent_flags_sources_and_events() {
    for input in [
        &br#"{"hook_event_name":"subagentstop"}"#[..],
        br#"{"client":"My-SubAgent-Runner","input-messages":["x"]}"#,
        br#"{"isSubagent":"TRUE","input-messages":["x"]}"#,
        br#"{"is-subagent":1,"input-messages":["x"]}"#,
        br#"{"threadSource":"SubAgent:spawn","input-messages":["x"]}"#,
    ] {
        assert!(parse_bytes(input).0.is_subagent(), "{}", String::from_utf8_lossy(input));
    }
    for input in [
        &br#"{"is_subagent":"0","input-messages":["x"]}"#[..],
        br#"{"agent_id":"  ","input-messages":["x"]}"#,
        br#"{"agent_id":null,"input-messages":["x"]}"#,
        br#"{"type":"agent-turn-complete","input-messages":[]}"#,
    ] {
        assert!(!parse_bytes(input).0.is_subagent(), "{}", String::from_utf8_lossy(input));
    }
}

#[test]
fn first_present_alias_wins_and_blank_strings_are_skipped() {
    let (payload, _) = parse_bytes(
        br#"{"task":"  ","title":" Fix it ","status":3,"summary":false,"inputMessages":"  only one  "}"#,
    );
    assert_eq!(payload.task, "Fix it");
    assert_eq!(payload.status, "3");
    assert_eq!(payload.message, "false");
    assert_eq!(payload.input_messages, ["only one"]);
    assert!(payload.raw.is_some());
}

#[test]
fn non_object_json_is_a_plain_message() {
    let (payload, raw) = parse_bytes(b"[1, 2]");
    assert_eq!(payload.message, "[1, 2]");
    assert_eq!(raw, "[1, 2]");
    assert!(payload.raw.is_none());
}

#[test]
fn message_for_many_inputs_counts_the_rest_and_truncates() {
    let payload = NotifyPayload {
        input_messages: vec!["a".into(), "b".into(), "c".into(), "d".into(), "e".into()],
        message: "done".into(),
        ..NotifyPayload::default()
    };
    assert_eq!(
        build_message(&payload),
        "用户输入：a / b / c / ...(+2)\nCodex 回应：done"
    );
    let long = NotifyPayload {
        input_messages: vec!["x".repeat(600)],
        ..NotifyPayload::default()
    };
    let expected = format!("用户输入：{}...", "x".repeat(500));
    assert_eq!(build_message(&long), expected);
    assert_eq!(build_message(&NotifyPayload::default()), "Codex 回应：任务已完成");
}

#[test]
fn headlines_follow_their_rules() {
    let p = |event: &str, status: &str, message: &str, mode: &str, hook: &str| NotifyPayload {
        event: event.into(),
        status: status.into(),
        message: message.into(),
        permission_mode: mode.into(),
        hook_event_name: hook.into(),
        ..NotifyPayload::default()
    };
    assert_eq!(notification_headline(&p("", "", "", "", "STOP")), "父亲，Codex 任务已完成。");
    assert_eq!(notification_headline(&p("Needs-Approval", "", "", "", "")), "父亲，Codex 等待你审批。");
    assert_eq!(notification_headline(&p("", "", "", "plan", "")), "父亲，Codex Plan Mode 需要你处理。");
    assert_eq!(notification_headline(&p("ping", "", "", "", "")), "父亲，Codex 有新的通知。");
    assert_eq!(notification_headline(&NotifyPayload::default()), "父亲，Codex 任务已完成。");
    assert_eq!(notification_title(&p("", "", "", "plan", "")), "Codex Plan Mode 需要你处理");
}

#[test]
fn arguments_select_the_payload() {
    let args = |v: &[&str]| v.iter().map(|s| s.to_string()).collect::<Vec<_>>();
    assert_eq!(from_args(&args(&[" {\"a\":1}", "x "])).as_deref(), Some("{\"a\":1} x"));
    assert_eq!(from_args(&args(&["hello"])).as_deref(), Some("hello"));
    assert_eq!(from_args(&args(&["hello", "world"])), None);
    assert_eq!(from_args(&args(&["-x"])), None);
    assert_eq!(from_args(&args(&["  "])), None);
    assert_eq!(from_args(&[]), None);

    let (p, raw) = read_from(&[], Some(b" \n\t".to_vec()));
    assert!(p.message.is_empty() && raw.is_empty());
    let (p, _) = read_from(&[], Some(b"  hi ".to_vec()));
    assert_eq!(p.message, "hi");
    let (p, _) = read_from(&args(&["from-args"]), Some(b"stdin".to_vec()));
    assert_eq!(p.message, "from-args");
}

#[test]
fn transcript_skips_unrelated_and_malformed_lines() {
    let content = "{\"type\":\"message\",\"role\":\"USER\",\"content\":[{\"type\":\"input_text\",\"text\":\"a\"},{\"type\":\"image\"},{\"type\":\"input_text\",\"text\":\"b\"}]}\r\nnot json\n{\"type\":\"message\",\"role\":\"assistant\",\"content\":[]}\n\n";
    assert_eq!(transcript_user_input(content).as_deref(), Some("a\nb"));
    assert_eq!(transcript_user_input(""), None);
    let mut with_input = NotifyPayload {
        input_messages: vec!["kept".into()],
        transcript_path: "x".into(),
        ..NotifyPayload::default()
    };
    assert_eq!(transcript_path_to_read(&with_input), None);
    add_transcript_input(&mut with_input, content);
    assert_eq!(with_input.input_messages, ["kept"]);
}

#[test]
fn message_ignores_session_metadata() {
    let (first, _) = parse_bytes(
        br#"{"type":"agent-turn-complete","thread-id":"a","cwd":"/x","model":"m1","input-messages":["q"],"last-assistant-message":"r"}"#,
    );
    let (second, _) = parse_bytes(
        br#"{"type":"agent-turn-complete","thread-id":"b","cwd":"/y","model":"m2","input-messages":["q"],"last-assistant-message":"r"}"#,
    );
    assert_ne!(first.session_id, second.session_id);
    assert_eq!(build_message(&first), build_message(&second));
    assert_eq!(build_message(&first), "用户输入：q\nCodex 回应：r");
}

#[test]
fn headline_decisions_follow_the_lowercased_text() {
    let payload = NotifyPayload::default();
    assert_eq!(headline_for(&payload, "permission request"), "父亲，Codex 等待你审批。");
    assert_eq!(headline_for(&payload, "waiting for input"), "父亲，Codex 需要你继续处理。");
    assert_eq!(headline_for(&payload, "   "), "父亲，Codex 任务已完成。");
}

#[test]
fn parsed_payloads_come_from_the_parser_result() {
    let (plain, text) = decode_payload(None, "hello".to_string());
    assert_eq!(text, "hello");
    assert_eq!(plain.message, "hello");
    let (payload, raw) = parse_bytes(" {\"type\":\"done\"} ".as_bytes());
    assert_eq!(raw, "{\"type\":\"done\"}");
    assert_eq!(payload.event, "done");
}
