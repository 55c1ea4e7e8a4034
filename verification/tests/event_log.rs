use koshell::env::Env;
use koshell::event_log::{
    disabled, event_fields, event_line, event_log_path, identifier, Event, EventLog,
};
use serde_json::Value;

fn env_of(pairs: &[(&str, &str)]) -> Env {
    let mut env = Env::new();
    for (key, value) in pairs {
        env.insert(key, value);
    }
    env
}

/// The line of the one event that was emitted.
fn one_line(log: &mut EventLog) -> String {
    let events = log.take();
    assert_eq!(events.len(), 1);
    String::from_utf8(event_line(1_700_000_000_000, "koshell-test", &events[0])).expect("UTF-8")
}

#[test]
fn event_log_path_is_under_a_koshell_data_directory() {
    let path = event_log_path(&env_of(&[("HOME", "/home/user")]));
    assert!(path.ends_with("koshell/events.jsonl"));
}

#[test]
fn inert_handle_emits_nothing_and_does_not_panic() {
    let mut log = EventLog::default();
    log.emit(Event::SessionEnd {
        exit_code: 0,
        duration_ms: 1,
    });
    assert!(log.take().is_empty());
}

#[test]
fn emitted_lines_carry_the_envelope_and_snake_case_tag() {
    let mut log = EventLog::capture();
    log.emit(Event::QuestionSubmitted {
        question: "why did this fail".to_string(),
        origin: "in_program",
        form: "standalone",
    });
    let line = one_line(&mut log);
    let value: Value = serde_json::from_str(&line).expect("valid JSON");
    assert_eq!(value["event"], "question_submitted");
    assert_eq!(value["session"], "koshell-test");
    assert_eq!(value["question"], "why did this fail");
    assert_eq!(value["origin"], "in_program");
    assert_eq!(value["form"], "standalone");
    assert!(value["ts"].as_u64().is_some_and(|ts| ts > 0));
}

#[test]
fn response_end_serializes_every_metric_field() {
    let mut log = EventLog::capture();
    log.emit(Event::ResponseEnd {
        request_id: "koshell-req-1".to_string(),
        status: "ok",
        total_ms: 1200,
        first_delta_ms: Some(300),
        delta_count: 7,
        began_anchored: true,
        degraded_to_block: false,
        mid_stream_input_chunks: 2,
        tool_calls: 3,
        tool_failures: 1,
    });
    let value: Value =
        serde_json::from_str(&one_line(&mut log)).expect("valid JSON");
    assert_eq!(value["event"], "response_end");
    assert_eq!(value["request_id"], "koshell-req-1");
    assert_eq!(value["status"], "ok");
    assert_eq!(value["total_ms"], 1200);
    assert_eq!(value["first_delta_ms"], 300);
    assert_eq!(value["delta_count"], 7);
    assert_eq!(value["began_anchored"], true);
    assert_eq!(value["degraded_to_block"], false);
    assert_eq!(value["mid_stream_input_chunks"], 2);
    assert_eq!(value["tool_calls"], 3);
    assert_eq!(value["tool_failures"], 1);
}

#[test]
fn a_successful_tool_call_carries_no_error_code() {
    let mut log = EventLog::capture();
    log.emit(Event::ToolCall {
        request_id: "koshell-req-1".to_string(),
        tool_name: "read_command_output".to_string(),
        ok: true,
        code: None,
        duration_us: 42,
    });
    let value: Value =
        serde_json::from_str(&one_line(&mut log)).expect("valid JSON");
    assert_eq!(value["event"], "tool_call");
    assert_eq!(value["tool_name"], "read_command_output");
    assert_eq!(value["ok"], true);
    assert_eq!(value["duration_us"], 42);
    assert!(value.get("code").is_none(), "no failure, no code: {value}");
}

// The tool name and phase are the first schema fields the terminal does not
// author, so the log must not widen into a channel for whatever arrives.
#[test]
fn a_wire_identifier_that_is_not_a_short_lowercase_name_becomes_other() {
    assert_eq!(identifier("web_search"), "web_search");
    assert_eq!(identifier("started"), "started");
    assert_eq!(identifier("read_command_output"), "read_command_output");

    for hostile in [
        "",
        "Web Search",
        "error: /home/me/.ssh/id_rsa not found",
        "tool-1",
        "ls\r\nrm -rf /",
        "webséarch",
        &"a".repeat(33),
    ] {
        assert_eq!(identifier(hostile), "other", "for {hostile:?}");
    }
}

#[test]
fn the_data_directory_is_named_by_the_environment() {
    assert_eq!(
        event_log_path(&env_of(&[("XDG_DATA_HOME", "/data"), ("HOME", "/home/user")])),
        "/data/koshell/events.jsonl"
    );
    assert_eq!(
        event_log_path(&env_of(&[("HOME", "/home/user")])),
        "/home/user/.local/share/koshell/events.jsonl"
    );
}

#[test]
fn the_log_can_be_switched_off() {
    assert!(!disabled(&env_of(&[])));
    assert!(!disabled(&env_of(&[("KOSHELL_NO_EVENT_LOG", "")])));
    assert!(disabled(&env_of(&[("KOSHELL_NO_EVENT_LOG", "1")])));
    assert!(disabled(&env_of(&[("KOSHELL_NO_EVENT_LOG", "   ")])));
}

#[test]
fn every_event_is_tagged() {
    let fields = event_fields(&Event::DispatchFailed {
        request_id: "koshell-req-1".to_string(),
        question: "why".to_string(),
        fire_reason: "max_wait",
        reason: "daemon_unavailable",
    });
    let names: Vec<&str> = fields.iter().map(|(name, _)| name.as_str()).collect();
    for name in ["event", "request_id", "question", "fire_reason", "reason"] {
        assert!(names.contains(&name), "{name} in {names:?}");
    }
}

#[test]
fn a_line_starts_with_its_envelope() {
    let line = event_line(
        7,
        "koshell-1",
        &Event::SessionEnd {
            exit_code: -1,
            duration_ms: 2,
        },
    );
    assert_eq!(
        String::from_utf8(line).expect("UTF-8"),
        r#"{"ts":7,"session":"koshell-1","event":"session_end","exit_code":-1,"duration_ms":2}"#
    );
}
