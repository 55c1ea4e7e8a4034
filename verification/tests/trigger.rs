use koshell::clock::Moment;
use koshell::json::Json;
use koshell::markers::{MarkerKind, ShellIntegrationMarker};
use koshell::trigger::{
    extract_question, question_form, shape_at, Action, CompletionKind, RestingShape, SessionState,
    Trigger, TriggerForm, AI_CONTEXT_CONTRACT_VERSION,
};

/// The instant that a test starts at.
const T0: Moment = Moment {
    mono: 1_000_000,
    wall: 1_700_000_000_000,
};

/// The instant some milliseconds later.
fn after(t: Moment, ms: u64) -> Moment {
    Moment {
        mono: t.mono + ms,
        wall: t.wall + ms as i64,
    }
}

/// A field of an object.
fn field<'a>(value: &'a Json, name: &str) -> &'a Json {
    match value {
        Json::Object(fields) => match fields.iter().find(|(n, _)| n == name) {
            Some((_, v)) => v,
            None => panic!("no field {name}"),
        },
        other => panic!("no object: {other:?}"),
    }
}

fn text(value: &str) -> Json {
    Json::Text(value.to_string())
}

fn end_marker(command: &str, exit_code: i32) -> ShellIntegrationMarker {
    ShellIntegrationMarker {
        kind: MarkerKind::CommandEnd,
        command: Some(command.to_string()),
        exit_code: Some(exit_code),
        cwd: None,
        executed: true,
    }
}

fn start_marker(command: &str) -> ShellIntegrationMarker {
    ShellIntegrationMarker {
        kind: MarkerKind::CommandStart,
        command: Some(command.to_string()),
        exit_code: None,
        cwd: None,
        executed: true,
    }
}

fn fires(actions: &[Action]) -> Vec<&Trigger> {
    actions
        .iter()
        .filter_map(|action| match action {
            Action::Fire(trigger) => Some(trigger),
            Action::Notice(_) => None,
        })
        .collect()
}

fn notices(actions: &[Action]) -> Vec<&str> {
    actions
        .iter()
        .filter_map(|action| match action {
            Action::Notice(text) => Some(text.as_str()),
            Action::Fire(_) => None,
        })
        .collect()
}

#[test]
fn extracts_question_with_quote_parity() {
    let split = extract_question("ls -la #? explain this output").unwrap();
    assert_eq!(split.left, "ls -la ");
    assert_eq!(split.question, "explain this output");

    assert_eq!(
        extract_question("#? what happened").unwrap().question,
        "what happened"
    );
    assert_eq!(extract_question("echo #?").unwrap().question, "");
    assert_eq!(extract_question("ls -la"), None);

    // Inside unclosed quotes: suppressed.
    assert_eq!(extract_question("echo \"#? not a question\""), None);
    assert_eq!(extract_question("echo '#? nope'"), None);
    // Quotes closed before the token: fires.
    assert_eq!(
        extract_question("echo 'done' #? real question")
            .unwrap()
            .question,
        "real question"
    );
    // Escaped quote does not open a string.
    assert_eq!(
        extract_question("echo \\\" #? escaped").unwrap().question,
        "escaped"
    );
}

#[test]
fn classifies_question_form() {
    assert_eq!(question_form(""), TriggerForm::Standalone);
    assert_eq!(question_form("// "), TriggerForm::Standalone);
    assert_eq!(question_form("-- "), TriggerForm::Standalone);
    assert_eq!(question_form(">>> "), TriggerForm::Standalone);
    assert_eq!(question_form("ls -la "), TriggerForm::Inline);
}

#[test]
fn command_end_with_trigger_produces_context_package() {
    let t0 = T0;
    let mut state = SessionState::new(80, 24, true);
    state.record_output(b"file-a\r\nfile-b\r\n", t0);

    let actions = state.handle_marker(end_marker("ls #? explain", 0), t0);
    let fired = fires(&actions);
    assert_eq!(fired.len(), 1);
    let trigger = fired[0];
    assert_eq!(trigger.question, "explain");
    assert_eq!(trigger.completion, CompletionKind::CommandEnd);
    assert!(!trigger.still_running);
    assert_eq!(
        field(&trigger.context_package, "contractVersion"),
        &text(AI_CONTEXT_CONTRACT_VERSION)
    );
    assert_eq!(field(&trigger.context_package, "question"), &text("explain"));
    assert_eq!(field(field(&trigger.context_package, "trigger"), "form"), &text("inline"));
    assert_eq!(
        field(field(&trigger.context_package, "trigger"), "completion"),
        &text("command_end")
    );
    assert_eq!(field(field(&trigger.context_package, "trigger"), "exitCode"), &Json::Int(0));
    assert!(matches!(
        field(&trigger.context_package, "dynamicContext"),
        Json::Object(_)
    ));
}

#[test]
fn command_end_without_trigger_returns_no_actions() {
    let mut state = SessionState::new(80, 24, true);
    let actions = state.handle_marker(end_marker("ls -la", 0), T0);
    assert!(actions.is_empty());
}

#[test]
fn quoted_trigger_in_markers_is_suppressed() {
    let t0 = T0;
    let mut state = SessionState::new(80, 24, true);
    state.handle_marker(start_marker("echo \"#? not a question\""), t0);
    assert!(!state.esc_cancellable());
    let actions = state.handle_marker(end_marker("echo \"#? not a question\"", 0), t0);
    assert!(actions.is_empty());
}

#[test]
fn span_question_from_start_marker_fires_once_at_command_end() {
    let t0 = T0;
    let mut state = SessionState::new(80, 24, true);
    assert!(
        state
            .handle_marker(start_marker("ls #? explain"), t0)
            .is_empty()
    );
    assert!(state.esc_cancellable());

    let actions = state.handle_marker(end_marker("ls #? explain", 0), t0);
    let fired = fires(&actions);
    assert_eq!(fired.len(), 1);
    assert_eq!(fired[0].question, "explain");
    assert_eq!(fired[0].completion, CompletionKind::CommandEnd);
    assert_eq!(field(field(&fired[0].context_package, "trigger"), "form"), &text("inline"));

    // The pending was consumed; nothing is left to fire or cancel.
    assert!(state.poll(after(t0, 60000)).is_empty());
    assert!(!state.esc_cancellable());
}

#[test]
fn rendered_ui_text_at_integrated_prompt_does_not_trigger() {
    // Regression: fzf's Ctrl+R history widget paints `#?` history entries and its
    // own query line right where the cursor rests. Confirming the selection with
    // Enter happens at the prompt (no command span), so the marker layer owns `#?`
    // and the rendered UI text must not be captured.
    let t0 = T0;
    let mut state = SessionState::new(80, 24, true);
    state.record_output(b"  #? a\r\n  2/2\r\n> #?", t0);
    state.record_input(b"\r", t0);
    assert!(!state.esc_cancellable());
    assert!(state.poll(after(t0, 60000)).is_empty());
}

#[test]
fn non_integrated_prompt_capture_fires_via_stabilization() {
    // Without integration hooks no marker will ever come, so the prompt line is
    // Enter-captured and fired by stabilization.
    let t0 = T0;
    let mut state = SessionState::new(80, 24, false);
    state.record_output(b"% ls #? explain", t0);
    state.record_input(b"\r", t0);
    state.record_output(b"\r\nfile-a\r\n% ", after(t0, 30));

    // Resting on a short prompt-like line: the 750 ms prompt-line tier applies.
    let actions = state.poll(after(t0, 1000));
    let fired = fires(&actions);
    assert_eq!(fired.len(), 1);
    assert_eq!(fired[0].question, "explain");
    assert_eq!(fired[0].completion, CompletionKind::Stabilized);
    assert!(!fired[0].still_running);
}

#[test]
fn repeated_enter_without_new_output_captures_once() {
    let t0 = T0;
    let mut state = SessionState::new(80, 24, true);
    state.handle_marker(start_marker("python3"), t0);
    state.record_output(b">>> f() #? explain", t0);
    state.record_input(b"\r\r\n", t0);
    assert!(state.cancel_latest().is_some());
    assert!(state.cancel_latest().is_none());
}

#[test]
fn in_program_question_fires_at_stabilization() {
    let t0 = T0;
    let mut state = SessionState::new(80, 24, true);
    state.handle_marker(start_marker("python3"), t0);
    state.record_output(b">>> print(1) #? why", t0);
    state.record_input(b"\r", t0);

    // Resting line ends in "why" (short, non-prompt): the 500 ms tier applies.
    assert!(state.poll(after(t0, 300)).is_empty());
    let actions = state.poll(after(t0, 600));
    let fired = fires(&actions);
    assert_eq!(fired.len(), 1);
    assert_eq!(fired[0].question, "why");
    assert_eq!(fired[0].completion, CompletionKind::Stabilized);
    assert!(!fired[0].still_running);
    assert_eq!(
        field(field(&fired[0].context_package, "trigger"), "completion"),
        &text("stabilized")
    );
}

#[test]
fn thinking_pause_before_enter_does_not_fire_before_the_echo() {
    // Regression (fix 0003): the user types the question, pauses to think, then
    // presses Enter. The pre-submit silence (last output = the echo of their own
    // typing) must not count as stabilization — otherwise the question fires
    // before the REPL echoes the newline, the dispatch samples a mid-line cursor
    // (no anchored streaming), and the echo gets buffered behind the response.
    let t0 = T0;
    let mut state = SessionState::new(80, 24, true);
    state.handle_marker(start_marker("python3"), t0);
    state.record_output(b">>> #? why", t0);

    let submit = after(t0, 2000);
    assert!(fires(&state.record_input(b"\r", submit)).is_empty());
    assert!(
        state.poll(submit).is_empty(),
        "the question must not fire at the submit instant"
    );

    // The echo arrives; the prompt-shaped resting line stabilizes from there.
    state.record_output(b"\r\n>>> ", after(submit, 20));
    let actions = state.poll(after(submit, 300));
    let fired = fires(&actions);
    assert_eq!(fired.len(), 1);
    assert_eq!(fired[0].completion, CompletionKind::Stabilized);
}

#[test]
fn silent_program_still_fires_a_tier_after_submission() {
    // A program that never responds to the Enter must still get its answer:
    // with no output after the submit, quiescence is measured from the
    // submission itself.
    let t0 = T0;
    let mut state = SessionState::new(80, 24, true);
    state.handle_marker(start_marker("python3"), t0);
    state.record_output(b">>> #? why", t0);

    let submit = after(t0, 2000);
    state.record_input(b"\r", submit);
    // Resting line ends in "why" (short, non-prompt): the 500 ms tier applies.
    assert!(state.poll(after(submit, 300)).is_empty());
    let actions = state.poll(after(submit, 600));
    let fired = fires(&actions);
    assert_eq!(fired.len(), 1);
    assert_eq!(fired[0].completion, CompletionKind::Stabilized);
}

#[test]
fn prompt_shaped_resting_line_selects_the_fast_tier() {
    let t0 = T0;
    let mut state = SessionState::new(80, 24, true);
    state.handle_marker(start_marker("python3"), t0);
    state.record_output(b">>> #? what does this error mean", t0);
    state.record_input(b"\r", t0);
    // Echo of the newline; python prints nothing and the prompt returns.
    state.record_output(b"\r\n>>> ", after(t0, 20));

    let actions = state.poll(after(t0, 200));
    let fired = fires(&actions);
    assert_eq!(fired.len(), 1);
    assert_eq!(fired[0].completion, CompletionKind::Stabilized);
    assert_eq!(field(field(&fired[0].context_package, "trigger"), "form"), &text("standalone"));
}

#[test]
fn span_question_fires_at_stabilization_with_still_running() {
    let t0 = T0;
    let mut state = SessionState::new(80, 24, true);
    // The start marker carries the full typed line (zsh preexec; bash history read).
    state.handle_marker(start_marker("pnpm dev #? explain the startup log"), t0);
    state.record_output(b"server ready on :3000\r\n", after(t0, 50));

    // Resting on an empty line below the log: the conservative 10 s tier applies.
    let actions = state.poll(after(t0, 11000));
    let fired = fires(&actions);
    assert_eq!(fired.len(), 1);
    assert_eq!(fired[0].question, "explain the startup log");
    assert_eq!(fired[0].completion, CompletionKind::Stabilized);
    assert!(fired[0].still_running);
    assert_eq!(field(field(&fired[0].context_package, "trigger"), "stillRunning"), &Json::Bool(true));

    // The later command_end must not re-fire the settled question.
    let end_actions = state.handle_marker(
        end_marker("pnpm dev #? explain the startup log", 130),
        after(t0, 60000),
    );
    assert!(fires(&end_actions).is_empty());
}

#[test]
fn max_wait_fires_when_output_never_settles() {
    let t0 = T0;
    let mut state = SessionState::new(80, 24, true);
    state.handle_marker(start_marker("python3"), t0);
    state.record_output(b">>> stream() #? summarize", t0);
    state.record_input(b"\r", t0);

    // Keep output arriving so quiescence never happens; max-wait (30 s) fires.
    state.record_output(b"tick\r\n", after(t0, 29000));
    let actions = state.poll(after(t0, 31000));
    let fired = fires(&actions);
    assert_eq!(fired.len(), 1);
    assert_eq!(fired[0].completion, CompletionKind::MaxWait);
    assert_eq!(
        field(field(&fired[0].context_package, "trigger"), "completion"),
        &text("max_wait")
    );
}

#[test]
fn receipt_notice_prints_once_after_one_second() {
    let t0 = T0;
    let mut state = SessionState::new(80, 24, true);
    state.handle_marker(
        start_marker("some-quiet-batch-job --with --many --flags #? why is this slow"),
        t0,
    );
    // A long resting line selects the slow tier, keeping the question pending.
    state.record_output(b"working on a long step, please wait patiently...", t0);

    assert!(state.poll(after(t0, 500)).is_empty());
    let first = state.poll(after(t0, 1100));
    let first_notices = notices(&first);
    assert_eq!(first_notices.len(), 1);
    assert!(first_notices[0].contains("waiting for output to settle"));
    // Only once.
    assert!(state.poll(after(t0, 1500)).is_empty());
}

#[test]
fn ctrl_c_cancels_pending_and_suppresses_command_end_refire() {
    let t0 = T0;
    let mut state = SessionState::new(80, 24, true);
    state.handle_marker(start_marker("sleep 30 #? why slow"), t0);

    let actions = state.record_input(&[0x03], after(t0, 2000));
    let cancel_notices = notices(&actions);
    assert_eq!(cancel_notices.len(), 1);
    assert!(cancel_notices[0].contains("cancelled (^C)"));

    // The interrupted command's end marker (exit 130) must not extract and re-fire.
    let end_actions = state.handle_marker(end_marker("sleep 30 #? why slow", 130), t0);
    assert!(fires(&end_actions).is_empty());
    // A later span behaves normally again.
    let next = state.handle_marker(end_marker("ls #? explain", 0), t0);
    assert_eq!(fires(&next).len(), 1);
}

#[test]
fn esc_cancels_most_recent_pending_first() {
    let t0 = T0;
    let mut state = SessionState::new(80, 24, true);
    state.handle_marker(start_marker("python3"), t0);
    state.record_output(b">>> first() #? first question", t0);
    state.record_input(b"\r", t0);
    state.record_output(b"\r\n>>> second() #? second question", t0);
    state.record_input(b"\r", t0);

    let first_cancel = state.cancel_latest().expect("one pending to cancel");
    match first_cancel {
        Action::Notice(text) => assert!(text.contains("second question")),
        Action::Fire(_) => panic!("expected a notice"),
    }
    let second_cancel = state.cancel_latest().expect("another pending to cancel");
    match second_cancel {
        Action::Notice(text) => assert!(text.contains("first question")),
        Action::Fire(_) => panic!("expected a notice"),
    }
    assert!(state.cancel_latest().is_none());
}

#[test]
fn alternate_screen_disarms_capture_and_suspends_deadlines() {
    let t0 = T0;
    let mut state = SessionState::new(80, 24, true);
    // Pending question exists from before the program went full-screen.
    state.handle_marker(start_marker("vim notes.txt #? what is in this file"), t0);
    state.record_output(b"\x1b[?1049h\x1b[2Jfile contents #? decoy", t0);

    // Enter inside the full-screen program captures nothing.
    state.record_input(b"\r", t0);
    // Deadlines and Esc-cancel are suspended while the alternate screen is active.
    assert!(state.next_deadline(after(t0, 60000).mono).is_none());
    assert!(state.poll(after(t0, 60000)).is_empty());
    assert!(!state.esc_cancellable());
    assert!(state.cancel_latest().is_none());

    // Leaving the alternate screen re-arms the pending question.
    state.record_output(b"\x1b[?1049l", after(t0, 61000));
    assert!(state.esc_cancellable());
    assert!(state.next_deadline(after(t0, 61000).mono).is_some());
}

#[test]
fn at_line_start_tracks_the_mirror_cursor() {
    let t0 = T0;
    let mut state = SessionState::new(80, 24, true);
    assert!(state.at_line_start());
    state.record_output(b">>> ", t0);
    assert!(!state.at_line_start());
    state.record_output(b"\r\n", t0);
    assert!(state.at_line_start());
}

#[test]
fn resting_prompt_matches_prompt_shapes_only() {
    let t0 = T0;
    let mut state = SessionState::new(80, 24, true);
    assert!(!state.resting_prompt());

    // A prompt-shaped resting line.
    state.record_output(b"2\r\n>>> ", t0);
    assert!(state.resting_prompt());

    // A short non-prompt resting line is not a prompt.
    state.record_output(b"\r\ndownloading", t0);
    assert!(!state.resting_prompt());

    // Suspended on the alternate screen.
    state.record_output(b"\x1b[?1049h\x1b[2J\x1b[H% ", t0);
    assert!(!state.resting_prompt());
}

#[test]
fn cursor_probe_reports_the_ai_tail_facts() {
    let t0 = T0;
    let mut state = SessionState::new(80, 24, true);
    state.record_output(b"answer line", t0);
    let (col, needs_wrap, tail) = state.cursor_probe();
    assert_eq!(col, 11);
    assert!(!needs_wrap);
    assert_eq!(tail, "answer line");
}

#[test]
fn non_echoing_input_never_triggers() {
    let t0 = T0;
    let mut state = SessionState::new(80, 24, true);
    state.handle_marker(start_marker("read -s answer"), t0);
    state.record_output(b"Password:", t0);
    // The typed `#?` is never echoed, so the mirror read finds nothing.
    state.record_input(b"#? is this armed\r", t0);
    assert!(!state.esc_cancellable());
    assert!(state.poll(after(t0, 60000)).is_empty());
}

#[test]
fn the_shape_of_a_line_depends_on_its_end_and_the_cursor() {
    assert_eq!(shape_at("~/src $", 7, 8), RestingShape::Prompt);
    assert_eq!(shape_at("~/src ❯", 7, 7), RestingShape::Prompt);
    assert_eq!(shape_at("name", 4, 4), RestingShape::Short);
    assert_eq!(shape_at("~/src $", 7, 3), RestingShape::Other);
    assert_eq!(shape_at("", 0, 0), RestingShape::Other);
    assert_eq!(shape_at(&">".repeat(40), 40, 40), RestingShape::Prompt);
    assert_eq!(shape_at(&">".repeat(41), 41, 41), RestingShape::Other);
    // A cursor in the middle of wide characters is not at the end of the line.
    assert_eq!(shape_at("日本語>", 7, 7), RestingShape::Prompt);
    assert_eq!(shape_at("日本語>", 7, 5), RestingShape::Other);
}
