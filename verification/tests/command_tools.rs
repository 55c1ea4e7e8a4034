use koshell::clock::Moment;
use koshell::command_history::MAX_COMPLETED_COMMANDS;
use koshell::command_tools::{
    pull_inventory, TOOL_LIST_RECENT_COMMANDS, TOOL_READ_COMMAND_OUTPUT,
};
use koshell::json::Json;
use koshell::markers::{MarkerKind, ShellIntegrationMarker};
use koshell::proto::ToolError;
use koshell::trigger::SessionState;
use serde_json::Value;

/// The instant that these tests happen at.
const T0: Moment = Moment {
    mono: 1_000_000,
    wall: 1_700_000_000_000,
};

/// A value as the wire library holds it.
fn value(json: &Json) -> Value {
    match json {
        Json::Null => Value::Null,
        Json::Bool(b) => Value::Bool(*b),
        Json::Int(n) => Value::from(*n),
        Json::Large(n) => Value::from(*n),
        Json::Fraction => panic!("no fraction is expected"),
        Json::Text(s) => Value::from(s.as_str()),
        Json::Array(items) => Value::Array(items.iter().map(value).collect()),
        Json::Object(fields) => Value::Object(
            fields
                .iter()
                .map(|(name, v)| (name.clone(), value(v)))
                .collect(),
        ),
    }
}

fn object(fields: Vec<(&str, Json)>) -> Json {
    Json::Object(
        fields
            .into_iter()
            .map(|(name, v)| (name.to_string(), v))
            .collect(),
    )
}

fn text(value: &str) -> Json {
    Json::Text(value.to_string())
}

fn execute(state: &SessionState, tool: &str, arguments: &Json) -> Result<Value, ToolError> {
    koshell::command_tools::execute(state, tool, arguments).map(|result| value(&result))
}

fn marker(kind: MarkerKind, command: &str, exit_code: Option<i32>) -> ShellIntegrationMarker {
    ShellIntegrationMarker {
        kind,
        command: Some(command.to_string()),
        exit_code,
        cwd: None,
        executed: true,
    }
}

/// Drives a session through one real command span.
fn session_with(commands: &[(&str, &str, i32)]) -> SessionState {
    let mut state = SessionState::new(80, 24, true);
    let now = T0;
    for (command, output, exit_code) in commands {
        state.handle_marker(marker(MarkerKind::CommandStart, command, None), now);
        state.record_output(output.as_bytes(), now);
        state.handle_marker(
            marker(MarkerKind::CommandEnd, command, Some(*exit_code)),
            now,
        );
    }
    state
}

#[test]
fn list_returns_completed_commands_newest_first_without_bodies() {
    let state = session_with(&[("ls", "a\r\nb\r\n", 0), ("false", "", 1)]);
    let result = execute(&state, TOOL_LIST_RECENT_COMMANDS, &object(vec![])).unwrap();

    let commands = result["commands"].as_array().unwrap();
    assert_eq!(commands.len(), 2);
    assert_eq!(commands[0]["commandPreview"], "false");
    assert_eq!(commands[0]["exitCode"], 1);
    assert_eq!(commands[1]["commandPreview"], "ls");
    assert_eq!(result["maxCommands"], MAX_COMPLETED_COMMANDS);
    // Listing never carries output content.
    for command in commands {
        assert!(command.get("content").is_none());
        assert_eq!(command["output"]["format"], "pty_text");
    }
}

#[test]
fn list_is_empty_before_any_command_completes() {
    let state = SessionState::new(80, 24, true);
    let result = execute(&state, TOOL_LIST_RECENT_COMMANDS, &object(vec![])).unwrap();
    assert_eq!(result["commands"].as_array().unwrap().len(), 0);
}

#[test]
fn read_returns_the_span_output_with_truthful_accounting() {
    let state = session_with(&[("ls", "a\r\nb\r\n", 0)]);
    let result = execute(
        &state,
        TOOL_READ_COMMAND_OUTPUT,
        &object(vec![("commandId", text("command-1"))]),
    )
    .unwrap();

    assert_eq!(result["content"], "a\r\nb\r\n");
    assert_eq!(result["offset"], 0);
    assert_eq!(result["nextOffset"], 6);
    assert_eq!(result["hasMore"], false);
    assert_eq!(result["available"], true);
    assert_eq!(result["sourceTruncated"], false);
    assert_eq!(result["totalCharacters"], 6);
}

#[test]
fn an_unknown_tool_name_is_rejected_rather_than_dispatched() {
    let state = SessionState::new(80, 24, true);
    let error = execute(&state, "run_command", &object(vec![])).unwrap_err();
    assert_eq!(error.code, "unsupported_tool");
    // The reply names the whole reachable surface, which is exactly two readers.
    let supported = value(&error.details.unwrap())["supported"].clone();
    assert_eq!(
        supported,
        Value::from(vec![TOOL_LIST_RECENT_COMMANDS, TOOL_READ_COMMAND_OUTPUT])
    );
}

#[test]
fn a_missing_or_mistyped_command_id_is_invalid_arguments() {
    let state = session_with(&[("ls", "x", 0)]);
    for arguments in [
        object(vec![]),
        object(vec![("commandId", Json::Int(7))]),
        object(vec![("commandId", Json::Null)]),
    ] {
        let error = execute(&state, TOOL_READ_COMMAND_OUTPUT, &arguments).unwrap_err();
        assert_eq!(error.code, "invalid_arguments");
    }
}

#[test]
fn a_mistyped_offset_is_rejected_instead_of_coerced() {
    let state = session_with(&[("ls", "x", 0)]);
    for arguments in [
        object(vec![("commandId", text("command-1")), ("offset", text("abc"))]),
        object(vec![("commandId", text("command-1")), ("offset", Json::Int(-1))]),
        object(vec![("commandId", text("command-1")), ("limit", Json::Int(0))]),
    ] {
        let error = execute(&state, TOOL_READ_COMMAND_OUTPUT, &arguments).unwrap_err();
        assert_eq!(error.code, "invalid_arguments", "for {arguments:?}");
    }
}

#[test]
fn an_unknown_command_id_points_at_the_list_tool() {
    let state = session_with(&[("ls", "x", 0)]);
    let error = execute(
        &state,
        TOOL_READ_COMMAND_OUTPUT,
        &object(vec![("commandId", text("command-99"))]),
    )
    .unwrap_err();
    assert_eq!(error.code, "command_not_found");
    assert!(error.message.contains(TOOL_LIST_RECENT_COMMANDS));
}

// A comment-only `#?` line runs nothing, so it must not appear as a command.
#[test]
fn synthetic_trigger_markers_create_no_command_row() {
    let mut state = SessionState::new(80, 24, true);
    let now = T0;
    let mut start = marker(MarkerKind::CommandStart, "#? why", None);
    start.executed = false;
    let mut end = marker(MarkerKind::CommandEnd, "#? why", Some(0));
    end.executed = false;

    state.handle_marker(start, now);
    state.record_output(b"$ ", now);
    state.handle_marker(end, now);

    let result = execute(&state, TOOL_LIST_RECENT_COMMANDS, &object(vec![])).unwrap();
    assert_eq!(result["commands"].as_array().unwrap().len(), 0);
}

#[test]
fn the_returning_prompt_is_not_part_of_the_span() {
    let mut state = SessionState::new(80, 24, true);
    let now = T0;
    state.handle_marker(marker(MarkerKind::CommandStart, "echo hi", None), now);
    state.record_output(b"hi\r\n", now);
    state.handle_marker(marker(MarkerKind::CommandEnd, "echo hi", Some(0)), now);
    // Everything after the end marker belongs to the prompt, not the command.
    state.record_output(b"user@host:~$ ", now);

    let result = execute(
        &state,
        TOOL_READ_COMMAND_OUTPUT,
        &object(vec![("commandId", text("command-1"))]),
    )
    .unwrap();
    assert_eq!(result["content"], "hi\r\n");
}

#[test]
fn the_inventory_advertises_only_what_can_be_read() {
    let empty = SessionState::new(80, 24, true);
    let inventory = value(&pull_inventory(&empty));
    assert_eq!(inventory["available"], false);
    assert_eq!(inventory["recentCompletedCount"], 0);
    assert!(
        inventory.get("latestCommandId").is_none(),
        "an empty index names no id"
    );

    let state = session_with(&[("ls", "x", 0), ("pwd", "/tmp", 0)]);
    let inventory = value(&pull_inventory(&state));
    assert_eq!(inventory["available"], true);
    assert_eq!(inventory["recentCompletedCount"], 2);
    assert_eq!(inventory["latestCommandId"], "command-2");
}

#[test]
fn paging_a_long_span_reassembles_it_exactly() {
    let mut state = SessionState::new(80, 24, true);
    let now = T0;
    let output: String = (0..20_000)
        .map(|n| char::from(b'a' + (n % 26) as u8))
        .collect();
    state.handle_marker(marker(MarkerKind::CommandStart, "seq", None), now);
    state.record_output(output.as_bytes(), now);
    state.handle_marker(marker(MarkerKind::CommandEnd, "seq", Some(0)), now);

    let mut assembled = String::new();
    let mut offset = 0u64;
    loop {
        let page = execute(
            &state,
            TOOL_READ_COMMAND_OUTPUT,
            &object(vec![
                ("commandId", text("command-1")),
                ("offset", Json::Int(offset as i64)),
            ]),
        )
        .unwrap();
        assembled.push_str(page["content"].as_str().unwrap());
        offset = page["nextOffset"].as_u64().unwrap();
        if !page["hasMore"].as_bool().unwrap() {
            break;
        }
    }
    assert_eq!(assembled, output);
}

#[test]
fn an_evicted_offset_names_the_earliest_one() {
    let output = "a".repeat(2 * 1_048_576);
    let state = session_with(&[("yes", output.as_str(), 0)]);
    let error = execute(
        &state,
        TOOL_READ_COMMAND_OUTPUT,
        &object(vec![
            ("commandId", text("command-1")),
            ("offset", Json::Int(0)),
        ]),
    )
    .unwrap_err();
    assert_eq!(error.code, "output_evicted");
    let details = value(&error.details.unwrap());
    let earliest = details["earliestOffset"].as_i64().unwrap();
    assert!(earliest > 0);
    assert!(execute(
        &state,
        TOOL_READ_COMMAND_OUTPUT,
        &object(vec![
            ("commandId", text("command-1")),
            ("offset", Json::Int(earliest)),
        ]),
    )
    .is_ok());
}
