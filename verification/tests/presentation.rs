use koshell::clock::Moment;
use koshell::event_log::{event_line, EventLog};
use koshell::markers::{MarkerKind, ShellIntegrationMarker};
use koshell::mirror::{LiveRegionSnapshot, TerminalMirror};
use koshell::presentation::{
    erase_region, normalize_newlines, notice_before_prompt, restore_region, Presentation,
    PTY_BUFFER_FUSE_BYTES, RECEIPT_NOTICE_DELAY, RESPONSE_MAX_HOLD,
};
use koshell::proto::ServerMessage;
use koshell::trigger::{Action, SessionState};

/// The instant that a test starts at.
const T0: Moment = Moment {
    mono: 1_000_000,
    wall: 1_700_000_000_000,
};

/// The instant some milliseconds later.
fn after(t: Moment, ms: u64) -> Moment {
    Moment {
        mono: t.mono + ms,
        wall: t.wall + ms as i64,
    }
}

fn state() -> SessionState {
    SessionState::new(80, 24, true)
}

/// Replays what the user's terminal received — the setup PTY bytes, then
/// everything presentation wrote — and returns the resulting screen text plus
/// the cursor column. The strongest assertion available: it checks the final
/// picture, not the byte choreography.
fn replay_screen(columns: u16, setup: &[u8], out: &[u8]) -> (String, u16) {
    let mut mirror = TerminalMirror::new(columns, 24);
    mirror.write(setup);
    mirror.write(out);
    let snapshot = mirror.snapshot();
    (snapshot.screen, snapshot.cursor_x)
}

fn delta(request_id: &str, text: &str) -> ServerMessage {
    ServerMessage::AiDelta {
        request_id: request_id.to_string(),
        delta: text.to_string(),
    }
}

fn end(request_id: &str) -> ServerMessage {
    ServerMessage::AiResponseEnd {
        request_id: request_id.to_string(),
    }
}

// Koshell's own chrome must stay safe for legacy/no-color terminals. A reprinted
// prompt is exempt: it replays styling the program itself just rendered on this
// terminal, so the terminal supports those sequences by construction.
fn assert_no_rich_terminal_sequences(output: &[u8]) {
    let text = String::from_utf8_lossy(output);
    for sequence in [
        "\x1b[38;2",
        "\x1b[48;2",
        "\x1b[38:2",
        "\x1b[48:2",
        "\x1b[38;5",
        "\x1b[48;5",
        "\x1b[38:5",
        "\x1b[48:5",
        "\x1b]8;",
    ] {
        assert!(
            !text.contains(sequence),
            "presentation output must stay safe for legacy/no-color terminals; found \
             unsupported sequence {sequence:?} in {text:?}"
        );
    }
}

#[test]
fn stream_mode_buffers_pty_from_dispatch_until_response_end() {
    let mut presentation = Presentation::new();
    let mut state = state();
    let mut out: Vec<u8> = Vec::new();
    let now = T0;

    // The returning prompt arrives before the first delta and must be held.
    presentation.note_dispatch("r1", false, &state, now);
    presentation.pty_output(b"$ ", &mut out, &mut state, now);
    assert!(out.is_empty(), "prompt must be held from dispatch time");

    presentation.handle_server_message(&delta("r1", "The answer."), &mut out, &mut state, now);
    let during = String::from_utf8_lossy(&out).to_string();
    assert!(during.contains("[koshell ai]"));
    assert!(during.contains("The answer."));
    assert!(
        !during.contains("$ "),
        "prompt must stay buffered while streaming"
    );

    presentation.handle_server_message(&end("r1"), &mut out, &mut state, now);
    let ended = String::from_utf8_lossy(&out).to_string();
    assert!(
        ended.ends_with("$ "),
        "buffered prompt flushes after the response"
    );

    // Subsequent PTY output writes through again.
    presentation.pty_output(b"ls\r\n", &mut out, &mut state, now);
    assert!(String::from_utf8_lossy(&out).ends_with("ls\r\n"));
}

#[test]
fn block_mode_lets_pty_flow_and_inserts_one_block_at_end() {
    let mut presentation = Presentation::new();
    let mut state = state();
    let mut out: Vec<u8> = Vec::new();
    let now = T0;

    presentation.note_dispatch("r1", true, &state, now);
    presentation.handle_server_message(&delta("r1", "Still "), &mut out, &mut state, now);
    presentation.pty_output(b"build output\r\n", &mut out, &mut state, now);
    let during = String::from_utf8_lossy(&out).to_string();
    assert!(during.contains("build output"));
    assert!(
        !during.contains("Still "),
        "deltas accumulate in block mode"
    );

    presentation.handle_server_message(&delta("r1", "compiling."), &mut out, &mut state, now);
    presentation.handle_server_message(&end("r1"), &mut out, &mut state, now);
    let ended = String::from_utf8_lossy(&out).to_string();
    assert!(ended.contains("[koshell ai]"));
    assert!(ended.contains("Still compiling."));
}

#[test]
fn newlines_are_normalized_for_raw_mode_across_deltas() {
    let mut presentation = Presentation::new();
    let mut state = state();
    let mut out: Vec<u8> = Vec::new();
    let now = T0;

    presentation.note_dispatch("r1", false, &state, now);
    presentation.handle_server_message(&delta("r1", "line one\n"), &mut out, &mut state, now);
    presentation.handle_server_message(&delta("r1", "line two\r"), &mut out, &mut state, now);
    presentation.handle_server_message(&delta("r1", "\nline three"), &mut out, &mut state, now);
    presentation.handle_server_message(&end("r1"), &mut out, &mut state, now);

    let text = String::from_utf8_lossy(&out).to_string();
    assert!(text.contains("line one\r\nline two\r\nline three"));
    assert!(
        !text.contains("\r\r\n"),
        "a split \\r\\n must not be doubled"
    );
}

#[test]
fn pty_buffer_fuse_flushes_and_interleaves() {
    let mut presentation = Presentation::new();
    let mut state = state();
    let mut out: Vec<u8> = Vec::new();
    let now = T0;

    presentation.note_dispatch("r1", false, &state, now);
    presentation.handle_server_message(&delta("r1", "answer"), &mut out, &mut state, now);

    let big = vec![b'x'; PTY_BUFFER_FUSE_BYTES + 1];
    presentation.pty_output(&big, &mut out, &mut state, now);
    assert!(out.len() > PTY_BUFFER_FUSE_BYTES, "fuse flushed the buffer");

    // Past the fuse, PTY output writes through immediately.
    presentation.pty_output(b"more", &mut out, &mut state, now);
    assert!(String::from_utf8_lossy(&out).ends_with("more"));

    // Response end must not replay already-flushed bytes.
    let len_before = out.len();
    presentation.handle_server_message(&end("r1"), &mut out, &mut state, now);
    assert!(
        out.len() - len_before <= 2,
        "only the closing newline is written"
    );
}

#[test]
fn waiting_notice_fires_once_when_nothing_rendered() {
    let mut presentation = Presentation::new();
    let mut state = state();
    let mut out: Vec<u8> = Vec::new();
    let now = T0;

    presentation.note_dispatch("r1", false, &state, now);
    assert!(presentation.next_deadline(now.mono).is_some());

    presentation.poll(now, &mut out, &mut state);
    assert!(out.is_empty(), "no notice before the delay");

    let later = after(now, RECEIPT_NOTICE_DELAY + 10);
    presentation.poll(later, &mut out, &mut state);
    let text = String::from_utf8_lossy(&out).to_string();
    assert!(text.contains("waiting for the AI answer"));

    let len = out.len();
    presentation.poll(after(later, 1_000), &mut out, &mut state);
    assert_eq!(out.len(), len, "the waiting notice prints only once");
}

#[test]
fn no_waiting_notice_once_the_response_started() {
    let mut presentation = Presentation::new();
    let mut state = state();
    let mut out: Vec<u8> = Vec::new();
    let now = T0;

    presentation.note_dispatch("r1", false, &state, now);
    presentation.handle_server_message(&delta("r1", "quick"), &mut out, &mut state, now);
    let len = out.len();
    let later = after(now, RECEIPT_NOTICE_DELAY + 10);
    presentation.poll(later, &mut out, &mut state);
    assert_eq!(out.len(), len, "streaming output is its own receipt");
}

#[test]
fn max_hold_releases_buffered_output() {
    let mut presentation = Presentation::new();
    let mut state = state();
    let mut out: Vec<u8> = Vec::new();
    let now = T0;

    presentation.note_dispatch("r1", false, &state, now);
    presentation.pty_output(b"$ ", &mut out, &mut state, now);
    assert!(out.is_empty());

    let expired = after(now, RESPONSE_MAX_HOLD + 10);
    presentation.poll(expired, &mut out, &mut state);
    let text = String::from_utf8_lossy(&out).to_string();
    assert!(text.contains("releasing command output"));
    assert!(text.ends_with("$ "), "held prompt flushes on max hold");

    // Buffering stays off for the rest of this response.
    presentation.pty_output(b"typed", &mut out, &mut state, expired);
    assert!(String::from_utf8_lossy(&out).ends_with("typed"));
    assert!(presentation.next_deadline(expired.mono).is_none());
}

#[test]
fn error_mid_stream_flushes_buffer_and_prints_notice() {
    let mut presentation = Presentation::new();
    let mut state = state();
    let mut out: Vec<u8> = Vec::new();
    let now = T0;

    presentation.note_dispatch("r1", false, &state, now);
    presentation.handle_server_message(&delta("r1", "partial"), &mut out, &mut state, now);
    presentation.pty_output(b"$ ", &mut out, &mut state, now);
    presentation.handle_server_message(
        &ServerMessage::AiError {
            request_id: "r1".to_string(),
            message: "provider exploded".to_string(),
        },
        &mut out,
        &mut state,
        now,
    );

    let text = String::from_utf8_lossy(&out).to_string();
    assert!(text.contains("partial"));
    assert!(text.contains("AI error: provider exploded"));
    assert!(
        text.ends_with("$ "),
        "buffered prompt still flushes after an error"
    );
}

#[test]
fn error_before_any_delta_flushes_held_output() {
    let mut presentation = Presentation::new();
    let mut state = state();
    let mut out: Vec<u8> = Vec::new();
    let now = T0;

    presentation.note_dispatch("r1", false, &state, now);
    presentation.pty_output(b"$ ", &mut out, &mut state, now);
    presentation.handle_server_message(
        &ServerMessage::AiError {
            request_id: "r1".to_string(),
            message: "no provider configured".to_string(),
        },
        &mut out,
        &mut state,
        now,
    );
    let text = String::from_utf8_lossy(&out).to_string();
    assert!(text.contains("AI error: no provider configured"));
    assert!(text.ends_with("$ "), "held prompt flushes after the error");
}

#[test]
fn koshell_presentation_output_avoids_rich_color_sequences() {
    let mut presentation = Presentation::new();
    let mut state = state();
    let mut out: Vec<u8> = Vec::new();
    let now = T0;

    presentation.note_dispatch("stream", false, &state, now);
    presentation.handle_server_message(
        &delta("stream", "streamed answer"),
        &mut out,
        &mut state,
        now,
    );
    presentation.handle_server_message(
        &ServerMessage::AiError {
            request_id: "stream".to_string(),
            message: "provider failed".to_string(),
        },
        &mut out,
        &mut state,
        now,
    );

    presentation.note_dispatch("wait", false, &state, now);
    presentation.poll(
        after(now, RECEIPT_NOTICE_DELAY + 10),
        &mut out,
        &mut state,
    );
    presentation.poll(
        after(now, RESPONSE_MAX_HOLD + 10),
        &mut out,
        &mut state,
    );
    presentation.handle_server_message(&end("wait"), &mut out, &mut state, now);

    presentation.note_dispatch("block", true, &state, now);
    presentation.handle_server_message(
        &delta("block", "block answer"),
        &mut out,
        &mut state,
        now,
    );
    presentation.handle_server_message(&end("block"), &mut out, &mut state, now);

    let text = String::from_utf8_lossy(&out);
    assert!(text.contains("[koshell ai]"));
    assert!(text.contains("streamed answer"));
    assert!(text.contains("waiting for the AI answer"));
    assert!(text.contains("block answer"));
    assert_no_rich_terminal_sequences(&out);
}

#[test]
fn presentation_lines_skip_the_leading_blank_at_line_start() {
    let mut presentation = Presentation::new();
    let mut state = state();
    let mut out: Vec<u8> = Vec::new();
    let now = T0;

    // The Enter echo left the cursor at the start of an empty line (the returning
    // prompt is buffered), so the notice starts right there — no blank line.
    state.record_output(b"% #? question\r\n", now);
    presentation.note_dispatch("r1", false, &state, now);
    presentation.poll(
        after(now, RECEIPT_NOTICE_DELAY + 10),
        &mut out,
        &mut state,
    );
    assert!(
        out.starts_with(b"\x1b[2m[koshell] waiting"),
        "no leading blank line at line start: {:?}",
        String::from_utf8_lossy(&out)
    );

    // The header follows the notice directly, again without a blank line.
    presentation.handle_server_message(&delta("r1", "answer"), &mut out, &mut state, now);
    let text = String::from_utf8_lossy(&out).to_string();
    assert!(!text.contains("\r\n\r\n"), "no blank lines: {text:?}");
}

#[test]
fn presentation_lines_keep_the_newline_when_mid_line() {
    let mut presentation = Presentation::new();
    let mut state = state();
    let mut out: Vec<u8> = Vec::new();
    let now = T0;

    // The cursor rests mid-line on non-prompt output; the notice must move to a
    // fresh line first.
    state.record_output(b"downloading", now);
    presentation.note_dispatch("r1", false, &state, now);
    presentation.poll(
        after(now, RECEIPT_NOTICE_DELAY + 10),
        &mut out,
        &mut state,
    );
    assert!(
        out.starts_with(b"\r\n\x1b[2m[koshell] waiting"),
        "mid-line output needs the leading newline: {:?}",
        String::from_utf8_lossy(&out)
    );
}

#[test]
fn anchored_stream_inserts_deltas_above_the_live_prompt() {
    let mut presentation = Presentation::new();
    let mut state = state();
    let mut out: Vec<u8> = Vec::new();
    let now = T0;

    // The REPL case: stabilization fired only after the prompt rendered.
    let setup = b"2\r\n>>> ";
    state.record_output(setup, now);
    presentation.note_dispatch("r1", false, &state, now);
    assert!(
        out.is_empty(),
        "dispatch writes nothing; the prompt stays live"
    );

    presentation.handle_server_message(
        &delta("r1", "The answer is"),
        &mut out,
        &mut state,
        now,
    );
    let (mid, col) = replay_screen(80, setup, &out);
    assert_eq!(mid, "2\n[koshell ai]\nThe answer is\n>>>");
    assert_eq!(col, 4, "cursor parked at the live prompt column");

    presentation.handle_server_message(
        &delta("r1", " two.\nSecond"),
        &mut out,
        &mut state,
        now,
    );
    presentation.handle_server_message(&end("r1"), &mut out, &mut state, now);
    let (screen, col) = replay_screen(80, setup, &out);
    assert_eq!(screen, "2\n[koshell ai]\nThe answer is two.\nSecond\n>>>");
    assert_eq!(col, 4);
}

#[test]
fn anchored_stream_keeps_typed_input_live_across_redraws() {
    let mut presentation = Presentation::new();
    let mut state = state();
    let mut out: Vec<u8> = Vec::new();
    let now = T0;

    let setup = b">>> ";
    state.record_output(setup, now);
    presentation.note_dispatch("r1", false, &state, now);
    presentation.handle_server_message(&delta("r1", "Thinking"), &mut out, &mut state, now);

    // The user types mid-stream: the echo shows immediately (never buffered).
    presentation.pty_output(b"1+1", &mut out, &mut state, now);
    let (mid, col) = replay_screen(80, setup, &out);
    assert_eq!(mid, "[koshell ai]\nThinking\n>>> 1+1");
    assert_eq!(col, 7);

    // The next delta redraw preserves the typed input and cursor column.
    presentation.handle_server_message(&delta("r1", " done"), &mut out, &mut state, now);
    presentation.handle_server_message(&end("r1"), &mut out, &mut state, now);
    let (screen, col) = replay_screen(80, setup, &out);
    assert_eq!(screen, "[koshell ai]\nThinking done\n>>> 1+1");
    assert_eq!(col, 7);
}

#[test]
fn anchored_stream_resumes_an_exactly_full_ai_line_without_loss() {
    let mut presentation = Presentation::new();
    let mut state = SessionState::new(20, 24, true);
    let mut out: Vec<u8> = Vec::new();
    let now = T0;

    let setup = b">>> ";
    state.record_output(setup, now);
    presentation.note_dispatch("r1", false, &state, now);
    // Exactly the terminal width: the AI line ends in the pending-wrap state.
    presentation.handle_server_message(
        &delta("r1", &"a".repeat(20)),
        &mut out,
        &mut state,
        now,
    );
    presentation.handle_server_message(&delta("r1", "bbb"), &mut out, &mut state, now);
    presentation.handle_server_message(&end("r1"), &mut out, &mut state, now);

    let (screen, _) = replay_screen(20, setup, &out);
    assert_eq!(
        screen,
        format!("[koshell ai]\n{}\nbbb\n>>>", "a".repeat(20)),
        "the wrap continuation resumes without losing or shifting characters"
    );
}

#[test]
fn anchored_stream_restores_a_soft_wrapped_live_line() {
    let mut presentation = Presentation::new();
    let mut state = SessionState::new(20, 24, true);
    let mut out: Vec<u8> = Vec::new();
    let now = T0;

    let setup = b">>> ";
    state.record_output(setup, now);
    presentation.note_dispatch("r1", false, &state, now);
    presentation.handle_server_message(&delta("r1", "Answer"), &mut out, &mut state, now);

    // Typed input long enough to wrap the live line onto a second row.
    presentation.pty_output(
        &[b"x".repeat(20).as_slice()].concat(),
        &mut out,
        &mut state,
        now,
    );
    presentation.handle_server_message(&delta("r1", " more"), &mut out, &mut state, now);
    presentation.handle_server_message(&end("r1"), &mut out, &mut state, now);

    let (screen, col) = replay_screen(20, setup, &out);
    assert_eq!(
        screen,
        format!(
            "[koshell ai]\nAnswer more\n>>> {}\n{}",
            "x".repeat(16),
            "x".repeat(4)
        ),
        "both rows of the wrapped live line survive the redraw"
    );
    assert_eq!(col, 4);
}

#[test]
fn intervening_program_output_degrades_to_one_block() {
    let mut presentation = Presentation::new();
    let mut state = state();
    let mut out: Vec<u8> = Vec::new();
    let now = T0;

    let setup = b">>> ";
    state.record_output(setup, now);
    presentation.note_dispatch("r1", false, &state, now);
    presentation.handle_server_message(&delta("r1", "Part one."), &mut out, &mut state, now);

    // A mid-stream command executed: its output breaks the free-zone adjacency.
    presentation.pty_output(b"\r\n2\r\n>>> ", &mut out, &mut state, now);
    presentation.handle_server_message(&delta("r1", "Part two."), &mut out, &mut state, now);
    presentation.handle_server_message(&end("r1"), &mut out, &mut state, now);

    let (screen, col) = replay_screen(80, setup, &out);
    assert_eq!(
        screen, "[koshell ai]\nPart one.\n>>>\n2\n[koshell ai]\nPart two.\n>>>",
        "the remainder arrives as one block above the new prompt, never interleaved"
    );
    assert_eq!(col, 4);
}

#[test]
fn anchored_error_keeps_the_live_line_last() {
    let mut presentation = Presentation::new();
    let mut state = state();
    let mut out: Vec<u8> = Vec::new();
    let now = T0;

    let setup = b">>> ";
    state.record_output(setup, now);
    presentation.note_dispatch("r1", false, &state, now);
    // Typed-ahead input echoes live while the response is in flight.
    presentation.pty_output(b"x", &mut out, &mut state, now);
    presentation.handle_server_message(
        &ServerMessage::AiError {
            request_id: "r1".to_string(),
            message: "provider exploded".to_string(),
        },
        &mut out,
        &mut state,
        now,
    );
    let (screen, col) = replay_screen(80, setup, &out);
    assert_eq!(screen, "[koshell] AI error: provider exploded\n>>> x");
    assert_eq!(col, 5);
}

#[test]
fn anchored_waiting_notice_inserts_above_the_live_prompt() {
    let mut presentation = Presentation::new();
    let mut state = state();
    let mut out: Vec<u8> = Vec::new();
    let now = T0;

    let setup = b">>> ";
    state.record_output(setup, now);
    presentation.note_dispatch("r1", false, &state, now);
    presentation.poll(
        after(now, RECEIPT_NOTICE_DELAY + 10),
        &mut out,
        &mut state,
    );
    let (screen, col) = replay_screen(80, setup, &out);
    assert_eq!(screen, "[koshell] waiting for the AI answer…\n>>>");
    assert_eq!(col, 4, "the prompt stays the last line, cursor on it");
}

#[test]
fn interjected_question_mid_stream_is_captured_and_queued() {
    let mut presentation = Presentation::new();
    let mut state = state();
    let mut out: Vec<u8> = Vec::new();
    let now = T0;

    // Inside a REPL command span, as in real use.
    state.handle_marker(
        ShellIntegrationMarker {
            kind: MarkerKind::CommandStart,
            command: Some("python3".to_string()),
            exit_code: None,
            cwd: None,
            executed: true,
        },
        now,
    );
    state.record_output(b">>> ", now);
    presentation.note_dispatch("r1", false, &state, now);
    presentation.handle_server_message(&delta("r1", "Thinking"), &mut out, &mut state, now);

    // The user interjects: the echo reaches the mirror live, so the ordinary
    // Enter capture sees the line and queues the question.
    presentation.pty_output(b"1+1 #? why", &mut out, &mut state, now);
    state.record_input(b"\r", now);
    assert!(state.has_pending(), "the interjection is pending");

    let actions = state.poll(after(now, 600));
    let questions: Vec<&str> = actions
        .iter()
        .filter_map(|action| match action {
            Action::Fire(trigger) => Some(trigger.question.as_str()),
            _ => None,
        })
        .collect();
    assert_eq!(questions, vec!["why"], "queued question fires normally");
}

#[test]
fn notice_before_prompt_keeps_the_prompt_as_the_last_line() {
    let mut state = state();
    let mut out: Vec<u8> = Vec::new();
    let now = T0;

    state.record_output(b">>> ", now);
    notice_before_prompt("#? cancelled: why", &mut out, &mut state, T0);
    let text = String::from_utf8_lossy(&out).to_string();
    assert!(
        text.starts_with("\r\x1b[K"),
        "prompt line erased first: {text:?}"
    );
    assert!(text.contains("[koshell] #? cancelled: why"));
    assert!(text.ends_with(">>> "), "prompt reprinted below: {text:?}");
}

#[test]
fn unknown_request_id_falls_back_to_block_mode() {
    let mut presentation = Presentation::new();
    let mut state = state();
    let mut out: Vec<u8> = Vec::new();
    let now = T0;

    presentation.handle_server_message(&delta("stale", "ghost"), &mut out, &mut state, now);
    presentation.pty_output(b"live output", &mut out, &mut state, now);
    assert!(
        String::from_utf8_lossy(&out).contains("live output"),
        "unknown responses must not buffer PTY output"
    );
}

#[test]
fn interrupt_stops_an_anchored_stream_and_drops_the_late_tail() {
    let mut presentation = Presentation::new();
    let mut state = state();
    let mut out: Vec<u8> = Vec::new();
    let now = T0;

    let setup = b">>> ";
    state.record_output(setup, now);
    presentation.note_dispatch("r1", false, &state, now);
    presentation.handle_server_message(&delta("r1", "The answer"), &mut out, &mut state, now);
    assert!(presentation.owns_interrupt(), "stream in flight claims ^C");

    let aborted = presentation.user_interrupt(&mut out, &mut state, now);
    assert_eq!(aborted.as_deref(), Some("r1"));
    assert!(!presentation.owns_interrupt(), "window disarms after abort");

    // Everything the daemon still sends for r1 is dropped silently: the
    // local stop is authoritative, the daemon cancel only best-effort.
    let len = out.len();
    presentation.handle_server_message(&delta("r1", " is 42."), &mut out, &mut state, now);
    presentation.handle_server_message(&end("r1"), &mut out, &mut state, now);
    assert_eq!(out.len(), len, "late deltas and the end marker are silent");

    let (screen, col) = replay_screen(80, setup, &out);
    assert_eq!(
        screen,
        "[koshell ai]\nThe answer\n[koshell] answer interrupted (^C)\n>>>"
    );
    assert_eq!(col, 4, "the live prompt stays last and usable");
    assert_no_rich_terminal_sequences(&out);
}

#[test]
fn interrupt_before_the_first_delta_leaves_the_prompt_live() {
    let mut presentation = Presentation::new();
    let mut state = state();
    let mut out: Vec<u8> = Vec::new();
    let now = T0;

    let setup = b">>> ";
    state.record_output(setup, now);
    presentation.note_dispatch("r1", false, &state, now);
    assert!(presentation.owns_interrupt());

    let aborted = presentation.user_interrupt(&mut out, &mut state, now);
    assert_eq!(aborted.as_deref(), Some("r1"));

    let (screen, col) = replay_screen(80, setup, &out);
    assert_eq!(screen, "[koshell] answer interrupted (^C)\n>>>");
    assert_eq!(col, 4);
}

#[test]
fn interrupt_flushes_the_held_prompt_in_buffered_stream_mode() {
    let mut presentation = Presentation::new();
    let mut state = state();
    let mut out: Vec<u8> = Vec::new();
    let now = T0;

    // Shell-integrated path: the returning prompt is buffered at dispatch.
    presentation.note_dispatch("r1", false, &state, now);
    presentation.pty_output(b"$ ", &mut out, &mut state, now);
    presentation.handle_server_message(&delta("r1", "Partial"), &mut out, &mut state, now);
    assert!(presentation.owns_interrupt());

    let aborted = presentation.user_interrupt(&mut out, &mut state, now);
    assert_eq!(aborted.as_deref(), Some("r1"));
    let text = String::from_utf8_lossy(&out).to_string();
    assert!(text.contains("answer interrupted (^C)"));
    assert!(
        text.ends_with("$ "),
        "the held prompt flushes on interrupt: {text:?}"
    );
}

#[test]
fn interrupt_withdraws_a_block_mode_answer() {
    let mut presentation = Presentation::new();
    let mut state = state();
    let mut out: Vec<u8> = Vec::new();
    let now = T0;

    presentation.note_dispatch("r1", true, &state, now);
    presentation.handle_server_message(&delta("r1", "Never shown"), &mut out, &mut state, now);
    assert!(
        !presentation.owns_interrupt(),
        "block mode must never claim ^C from the running program"
    );

    let aborted = presentation.user_interrupt(&mut out, &mut state, now);
    assert_eq!(aborted.as_deref(), Some("r1"));
    presentation.handle_server_message(&delta("r1", " either"), &mut out, &mut state, now);
    presentation.handle_server_message(&end("r1"), &mut out, &mut state, now);

    let text = String::from_utf8_lossy(&out).to_string();
    assert!(text.contains("answer cancelled (^C)"));
    assert!(
        !text.contains("Never shown"),
        "the withdrawn block must not be inserted at response end: {text:?}"
    );
}

#[test]
fn interrupt_with_nothing_active_is_a_no_op() {
    let mut presentation = Presentation::new();
    let mut state = state();
    let mut out: Vec<u8> = Vec::new();
    let now = T0;

    assert!(!presentation.owns_interrupt());
    assert_eq!(presentation.user_interrupt(&mut out, &mut state, now), None);
    assert!(out.is_empty());
}

#[test]
fn a_new_question_streams_normally_after_an_interrupt() {
    let mut presentation = Presentation::new();
    let mut state = state();
    let mut out: Vec<u8> = Vec::new();
    let now = T0;

    let setup = b">>> ";
    state.record_output(setup, now);
    presentation.note_dispatch("r1", false, &state, now);
    presentation.handle_server_message(&delta("r1", "Old"), &mut out, &mut state, now);
    presentation.user_interrupt(&mut out, &mut state, now);

    // The daemon (cancelled or not) eventually terminates r1, then serves r2.
    presentation.handle_server_message(&end("r1"), &mut out, &mut state, now);
    presentation.note_dispatch("r2", false, &state, now);
    presentation.handle_server_message(&delta("r2", "Fresh answer"), &mut out, &mut state, now);
    presentation.handle_server_message(&end("r2"), &mut out, &mut state, now);

    let (screen, _) = replay_screen(80, setup, &out);
    assert!(
        screen.contains("Fresh answer"),
        "the next response must render normally: {screen}"
    );
}

/// Drains every event captured so far and parses its line as JSON.
fn drain_events(presentation: &mut Presentation) -> Vec<serde_json::Value> {
    presentation
        .take_events()
        .iter()
        .map(|event| {
            let line = event_line(1, "koshell-1", event);
            serde_json::from_slice(&line).expect("event lines are valid JSON")
        })
        .collect()
}

#[test]
fn anchored_flow_emits_first_delta_and_response_end() {
    let log = EventLog::capture();
    let mut presentation = Presentation::new();
    presentation.set_event_log(log);
    let mut state = state();
    let mut out: Vec<u8> = Vec::new();
    let now = T0;

    state.record_output(b">>> ", now);
    presentation.note_dispatch("r1", false, &state, now);
    let first = after(now, 300);
    presentation.handle_server_message(&delta("r1", "One"), &mut out, &mut state, first);
    presentation.handle_server_message(&delta("r1", " two"), &mut out, &mut state, first);
    let done = after(now, 1200);
    presentation.handle_server_message(&end("r1"), &mut out, &mut state, done);

    let events = drain_events(&mut presentation);
    assert_eq!(events.len(), 2, "first_delta then response_end: {events:?}");
    assert_eq!(events[0]["event"], "first_delta");
    assert_eq!(events[0]["request_id"], "r1");
    assert_eq!(events[0]["dispatch_to_first_delta_ms"], 300);
    assert_eq!(events[0]["mode"], "stream");
    assert_eq!(events[0]["anchored"], true);
    assert_eq!(events[1]["event"], "response_end");
    assert_eq!(events[1]["status"], "ok");
    assert_eq!(events[1]["total_ms"], 1200);
    assert_eq!(events[1]["first_delta_ms"], 300);
    assert_eq!(events[1]["delta_count"], 2);
    assert_eq!(events[1]["began_anchored"], true);
    assert_eq!(events[1]["degraded_to_block"], false);
    assert_eq!(events[1]["mid_stream_input_chunks"], 0);
}

#[test]
fn degrade_emits_its_reason_and_marks_the_response_end() {
    let log = EventLog::capture();
    let mut presentation = Presentation::new();
    presentation.set_event_log(log);
    let mut state = state();
    let mut out: Vec<u8> = Vec::new();
    let now = T0;

    state.record_output(b">>> ", now);
    presentation.note_dispatch("r1", false, &state, now);
    presentation.handle_server_message(&delta("r1", "Part one."), &mut out, &mut state, now);
    // A mid-stream command's output breaks the free-zone adjacency.
    presentation.pty_output(b"\r\n2\r\n>>> ", &mut out, &mut state, now);
    presentation.handle_server_message(&delta("r1", "Part two."), &mut out, &mut state, now);
    presentation.handle_server_message(&end("r1"), &mut out, &mut state, now);

    let events = drain_events(&mut presentation);
    let kinds: Vec<&str> = events
        .iter()
        .map(|event| event["event"].as_str().unwrap())
        .collect();
    assert_eq!(kinds, ["first_delta", "degrade_to_block", "response_end"]);
    assert_eq!(events[1]["reason"], "tail_mismatch");
    assert_eq!(events[1]["deltas_so_far"], 2);
    assert_eq!(events[2]["began_anchored"], true);
    assert_eq!(events[2]["degraded_to_block"], true);
}

#[test]
fn interrupt_emits_response_end_and_the_late_finish_emits_nothing() {
    let log = EventLog::capture();
    let mut presentation = Presentation::new();
    presentation.set_event_log(log);
    let mut state = state();
    let mut out: Vec<u8> = Vec::new();
    let now = T0;

    state.record_output(b">>> ", now);
    presentation.note_dispatch("r1", false, &state, now);
    presentation.handle_server_message(&delta("r1", "Old"), &mut out, &mut state, now);
    presentation.user_interrupt(&mut out, &mut state, now);
    presentation.handle_server_message(&delta("r1", "late"), &mut out, &mut state, now);
    presentation.handle_server_message(&end("r1"), &mut out, &mut state, now);

    let events = drain_events(&mut presentation);
    let kinds: Vec<&str> = events
        .iter()
        .map(|event| event["event"].as_str().unwrap())
        .collect();
    assert_eq!(
        kinds,
        ["first_delta", "response_end"],
        "the aborted tail must not emit anything: {events:?}"
    );
    assert_eq!(events[1]["status"], "interrupted");
}

#[test]
fn mid_stream_input_chunks_land_on_response_end() {
    let log = EventLog::capture();
    let mut presentation = Presentation::new();
    presentation.set_event_log(log);
    let mut state = state();
    let mut out: Vec<u8> = Vec::new();
    let now = T0;

    state.record_output(b">>> ", now);
    presentation.note_dispatch("r1", false, &state, now);
    presentation.handle_server_message(&delta("r1", "Thinking"), &mut out, &mut state, now);
    presentation.note_mid_stream_input();
    presentation.note_mid_stream_input();
    presentation.handle_server_message(&end("r1"), &mut out, &mut state, now);

    let events = drain_events(&mut presentation);
    assert_eq!(events.last().unwrap()["event"], "response_end");
    assert_eq!(events.last().unwrap()["mid_stream_input_chunks"], 2);
}

#[test]
fn block_mode_never_counts_mid_stream_input() {
    let log = EventLog::capture();
    let mut presentation = Presentation::new();
    presentation.set_event_log(log);
    let mut state = state();
    let mut out: Vec<u8> = Vec::new();
    let now = T0;

    presentation.note_dispatch("r1", true, &state, now);
    presentation.handle_server_message(&delta("r1", "block"), &mut out, &mut state, now);
    // Typing while a command runs is ordinary shell use, not the metric.
    presentation.note_mid_stream_input();
    presentation.handle_server_message(&end("r1"), &mut out, &mut state, now);

    let events = drain_events(&mut presentation);
    assert_eq!(events.last().unwrap()["event"], "response_end");
    assert_eq!(events.last().unwrap()["mid_stream_input_chunks"], 0);
}

#[test]
fn a_live_region_is_erased_bottom_up_and_written_again() {
    let region = LiveRegionSnapshot {
        styled_rows: vec!["$ abcdef".to_string(), "\x1b[1mgh\x1b[0m".to_string()],
        last_row_chars: 2,
        last_row_columns: 2,
        cursor_col: 4,
        needs_wrap: false,
        row_above: None,
    };
    let mut bytes = Vec::new();
    erase_region(&mut bytes, &region);
    assert_eq!(bytes, b"\r\x1b[K\x1b[A\x1b[K");
    bytes.clear();
    restore_region(&mut bytes, &region);
    assert_eq!(bytes, b"$ abcdef\x1b[1mgh\x1b[0m  ");
}

#[test]
fn a_line_break_split_between_chunks_is_not_doubled() {
    let mut out = Vec::new();
    let mut last_was_cr = false;
    normalize_newlines("a\nb\r", &mut last_was_cr, &mut out);
    assert!(last_was_cr);
    normalize_newlines("\nc", &mut last_was_cr, &mut out);
    assert_eq!(out, b"a\r\nb\r\nc");
    assert!(!last_was_cr);
}

#[test]
fn a_restored_cursor_is_back_on_its_column() {
    let restored = |row: &str, columns: u16, cursor_col: u16, needs_wrap: bool| {
        let region = LiveRegionSnapshot {
            styled_rows: vec![row.to_string()],
            last_row_chars: row.chars().count(),
            last_row_columns: columns,
            cursor_col,
            needs_wrap,
            row_above: None,
        };
        let mut bytes = Vec::new();
        restore_region(&mut bytes, &region);
        String::from_utf8(bytes).expect("UTF-8")
    };
    assert_eq!(restored("日", 2, 2, false), "日");
    assert_eq!(restored("日", 2, 3, false), "日 ");
    assert_eq!(restored("$ abc", 5, 2, false), "$ abc\x1b[3G");
    assert_eq!(restored("0123456789", 10, 9, true), "0123456789");
}

#[test]
fn an_insertion_keeps_the_cursor_column_of_the_live_line() {
    for (line, column) in [
        ("$ 日本", 6),
        ("$ 日本 ", 7),
        ("$ abc\x1b[2D", 3),
        ("$ abc\x1b[20G", 19),
    ] {
        let mut state = state();
        state.record_output(line.as_bytes(), T0);
        let mut mirror = TerminalMirror::new(80, 24);
        mirror.write(line.as_bytes());
        let region = mirror.live_region().expect("live region");
        let mut bytes = Vec::new();
        erase_region(&mut bytes, &region);
        restore_region(&mut bytes, &region);
        mirror.write(&bytes);
        assert_eq!(mirror.cursor_row().1, column, "{line:?}");
        assert_eq!(state.cursor_probe().0, column, "{line:?}");
    }
}

#[test]
fn only_an_answer_to_an_ended_command_claims_the_interrupt() {
    let mut presentation = Presentation::new();
    let mut state = state();
    let mut out: Vec<u8> = Vec::new();
    // A reply to nothing that was asked claims nothing.
    presentation.handle_server_message(&delta("stale", "x"), &mut out, &mut state, T0);
    assert!(!presentation.owns_interrupt());
    presentation.handle_server_message(&end("stale"), &mut out, &mut state, T0);
    // Neither does the answer to a command that still runs.
    presentation.note_dispatch("r1", true, &state, T0);
    presentation.handle_server_message(&delta("r1", "x"), &mut out, &mut state, T0);
    assert!(!presentation.owns_interrupt());
    // A queued request claims it once its own answer comes.
    presentation.note_dispatch("r2", false, &state, T0);
    presentation.handle_server_message(&end("r1"), &mut out, &mut state, T0);
    assert!(!presentation.owns_interrupt());
    presentation.handle_server_message(&delta("r2", "y"), &mut out, &mut state, T0);
    assert!(presentation.owns_interrupt());
    presentation.handle_server_message(&end("r2"), &mut out, &mut state, T0);
    assert!(!presentation.owns_interrupt());
}

#[test]
fn an_interrupted_answer_stays_silent_beside_another() {
    let mut presentation = Presentation::new();
    let mut state = state();
    let mut out: Vec<u8> = Vec::new();
    presentation.note_dispatch("r1", false, &state, T0);
    presentation.user_interrupt(&mut out, &mut state, T0);
    presentation.note_dispatch("r2", false, &state, T0);
    presentation.handle_server_message(&delta("r2", "one"), &mut out, &mut state, T0);
    let (written, owns) = (out.len(), presentation.owns_interrupt());
    let deadline = presentation.next_deadline(T0.mono);
    presentation.handle_server_message(&delta("r1", "late"), &mut out, &mut state, T0);
    presentation.handle_server_message(&end("r1"), &mut out, &mut state, T0);
    assert_eq!(out.len(), written);
    assert_eq!(presentation.owns_interrupt(), owns);
    assert_eq!(presentation.next_deadline(T0.mono), deadline);
    presentation.handle_server_message(&delta("r2", " two"), &mut out, &mut state, T0);
    assert!(out.ends_with(b" two"));
}

#[test]
fn late_messages_of_an_interrupted_answer_change_nothing() {
    let mut presentation = Presentation::new();
    let mut state = state();
    let mut out: Vec<u8> = Vec::new();
    let now = T0;

    presentation.note_dispatch("r1", false, &state, now);
    presentation.handle_server_message(&delta("r1", "one"), &mut out, &mut state, now);
    assert_eq!(presentation.user_interrupt(&mut out, &mut state, now).as_deref(), Some("r1"));
    presentation.note_dispatch("r2", false, &state, now);
    presentation.handle_server_message(&delta("r2", "two"), &mut out, &mut state, now);

    let shown = out.clone();
    let deadline = presentation.next_deadline(now.mono);
    let failed = ServerMessage::AiError {
        request_id: "r1".to_string(),
        message: "cancelled".to_string(),
    };
    presentation.handle_server_message(&delta("r1", " more"), &mut out, &mut state, now);
    presentation.handle_server_message(&failed, &mut out, &mut state, now);
    assert_eq!(out, shown, "neither the late delta nor the error shows");
    assert!(presentation.owns_interrupt(), "the answer in flight keeps the interrupt");
    assert_eq!(presentation.next_deadline(now.mono), deadline);
    presentation.handle_server_message(&delta("r2", " more"), &mut out, &mut state, now);
    assert!(out.len() > shown.len());
}
