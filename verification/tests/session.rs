use koshell::clock::Moment;
use koshell::control_cli::Control;
use koshell::event_log::{Event, EventLog};
use koshell::markers::{format_marker, MarkerKind, ShellIntegrationMarker};
use koshell::proto::{ClientMessage, ServerMessage};
use koshell::session::{
    ai_cancel, mirror_size, part_keystrokes, sane_size, Msg, Processor, Ticket, Turn, IDLE_TICK,
};
use koshell::trigger::{Action, CompletionKind, Trigger};

/// The instant that a test starts at.
const T0: Moment = Moment {
    mono: 1_000_000,
    wall: 1_700_000_000_000,
};

fn after(t: Moment, ms: u64) -> Moment {
    Moment {
        mono: t.mono + ms,
        wall: t.wall + ms as i64,
    }
}

fn processor() -> Processor {
    Processor::new(80, 24, true, EventLog::capture())
}

fn take(p: &mut Processor, msg: Option<Msg>, out: &mut Vec<u8>, now: Moment) -> Turn {
    p.turn(msg, out, now).expect("the counters have room")
}

fn marker(kind: MarkerKind, command: &str) -> Vec<u8> {
    format_marker(&ShellIntegrationMarker {
        kind,
        command: Some(command.to_string()),
        exit_code: Some(0),
        cwd: None,
        executed: true,
    })
}

fn fired(turn: Turn) -> Vec<Trigger> {
    turn.actions
        .into_iter()
        .filter_map(|action| match action {
            Action::Fire(trigger) => Some(trigger),
            Action::Notice(_) => None,
        })
        .collect()
}

/// Runs a command that asks a question, and hands the question over.
fn ask(p: &mut Processor, out: &mut Vec<u8>, sent: bool) -> (Ticket, Event) {
    let mut bytes = marker(MarkerKind::CommandStart, "ls #? explain");
    bytes.extend_from_slice(b"file-a\r\n");
    bytes.extend(marker(MarkerKind::CommandEnd, "ls #? explain"));
    let turn = take(p, Some(Msg::Pty(bytes)), out, T0);
    let mut triggers = fired(turn);
    assert_eq!(triggers.len(), 1);
    assert!(p.can_dispatch() && p.has_room());
    let dispatch = p.dispatch_trigger(triggers.remove(0));
    match &dispatch.message {
        ClientMessage::AiRequest {
            request_id,
            question,
            trigger,
            ..
        } => {
            assert_eq!(request_id, &dispatch.ticket.request_id);
            assert_eq!(question, "explain");
            assert_eq!(trigger, "#?");
        }
        other => panic!("unexpected request: {other:?}"),
    }
    let event = p.settle_dispatch(&dispatch.ticket, sent, out, T0);
    (dispatch.ticket, event)
}

fn delta(id: &str, text: &str) -> Option<Msg> {
    Some(Msg::Daemon(ServerMessage::AiDelta {
        request_id: id.to_string(),
        delta: text.to_string(),
    }))
}

#[test]
fn a_zero_size_gets_the_defaults() {
    assert_eq!(sane_size((0, 0)), (80, 24));
    assert_eq!(sane_size((120, 0)), (120, 24));
    assert_eq!(sane_size((0, 50)), (80, 50));
    assert_eq!(sane_size((1, 1)), (1, 1));
}

#[test]
fn only_an_armed_interrupt_is_taken_out_of_the_keystrokes() {
    let keys = part_keystrokes(b"ab\x03cd\x03", true);
    assert_eq!(keys.before, b"ab");
    assert!(keys.interrupt);
    assert_eq!(keys.after, b"cd\x03");
    let keys = part_keystrokes(b"ab\x03cd", false);
    assert!(!keys.interrupt && keys.before.is_empty());
    assert_eq!(keys.after, b"ab\x03cd");
    let keys = part_keystrokes(b"abcd", true);
    assert!(!keys.interrupt);
    assert_eq!(keys.after, b"abcd");
    let keys = part_keystrokes(b"\x03", true);
    assert!(keys.interrupt && keys.before.is_empty() && keys.after.is_empty());
}

#[test]
fn plain_output_reaches_the_terminal_at_once() {
    let mut p = processor();
    let mut out = Vec::new();
    let turn = take(&mut p, Some(Msg::Pty(b"hello\r\n".to_vec())), &mut out, T0);
    assert_eq!(out, b"hello\r\n");
    assert!(turn.actions.is_empty() && turn.cancel.is_none() && !turn.forward && !turn.over);
}

#[test]
fn markers_never_reach_the_terminal() {
    let mut p = processor();
    let mut out = Vec::new();
    let mut bytes = b"before ".to_vec();
    bytes.extend(marker(MarkerKind::CommandStart, "ls"));
    bytes.extend_from_slice(b"behind");
    for chunk in bytes.chunks(3) {
        take(&mut p, Some(Msg::Pty(chunk.to_vec())), &mut out, T0);
    }
    assert_eq!(out, b"before behind");
}

#[test]
fn a_question_is_numbered_and_its_answer_streams() {
    let mut p = processor();
    let mut out = Vec::new();
    let (ticket, event) = ask(&mut p, &mut out, true);
    assert_eq!(ticket.request_id, "koshell-req-1");
    assert_eq!(ticket.completion, CompletionKind::CommandEnd);
    assert_eq!(
        event,
        Event::Dispatched {
            request_id: "koshell-req-1".to_string(),
            question: "explain".to_string(),
            fire_reason: "command_end",
            still_running: false,
            submit_to_dispatch_ms: 0,
        }
    );
    assert!(p.interrupt_window());
    take(&mut p, delta("koshell-req-1", "An answer."), &mut out, T0);
    assert!(String::from_utf8_lossy(&out).contains("An answer."));
    let end = Some(Msg::Daemon(ServerMessage::AiResponseEnd {
        request_id: "koshell-req-1".to_string(),
    }));
    take(&mut p, end, &mut out, T0);
    assert!(!p.interrupt_window());
    assert_eq!(p.take_events().len(), 2);
    assert!(p.take_events().is_empty());
    let (second, _) = ask(&mut p, &mut out, true);
    assert_eq!(second.request_id, "koshell-req-2");
}

#[test]
fn a_question_without_a_daemon_is_told() {
    let mut p = processor();
    let mut out = Vec::new();
    let (_, event) = ask(&mut p, &mut out, false);
    assert!(matches!(
        event,
        Event::DispatchFailed {
            reason: "daemon_unavailable",
            ..
        }
    ));
    let text = String::from_utf8_lossy(&out).to_string();
    assert!(text.contains("[koshell] #? received (AI daemon unavailable): explain"));
    assert!(!p.interrupt_window());
}

#[test]
fn the_completion_state_is_told_where_it_matters() {
    for (completion, still_running, annotation) in [
        (CompletionKind::Stabilized, true, " (command may still be running)"),
        (CompletionKind::MaxWait, true, " (command may still be running)"),
        (CompletionKind::MaxWait, false, " (output not settled)"),
        (CompletionKind::Stabilized, false, ""),
        (CompletionKind::CommandEnd, true, ""),
    ] {
        let mut p = processor();
        let mut out = Vec::new();
        let ticket = Ticket {
            request_id: "koshell-req-1".to_string(),
            question: "why".to_string(),
            completion,
            still_running,
            submitted_at: T0.mono,
        };
        p.settle_dispatch(&ticket, false, &mut out, T0);
        let expected = format!("#? received (AI daemon unavailable){annotation}: why");
        assert!(String::from_utf8_lossy(&out).contains(&expected), "{expected}");
    }
}

#[test]
fn a_swallowed_interrupt_cancels_the_answer() {
    let mut p = processor();
    let mut out = Vec::new();
    ask(&mut p, &mut out, true);
    take(&mut p, delta("koshell-req-1", "An answer"), &mut out, T0);
    let turn = take(&mut p, Some(Msg::Interrupt), &mut out, T0);
    assert_eq!(turn.cancel.as_deref(), Some("koshell-req-1"));
    assert!(!turn.forward);
    assert_eq!(
        ai_cancel("koshell-req-1".to_string()),
        ClientMessage::AiCancel {
            request_id: "koshell-req-1".to_string(),
        }
    );
}

#[test]
fn an_interrupt_that_lost_the_race_is_forwarded() {
    let mut p = processor();
    let mut out = Vec::new();
    let turn = take(&mut p, Some(Msg::Interrupt), &mut out, T0);
    assert!(turn.forward);
    assert!(turn.cancel.is_none());
    assert!(out.is_empty());
}

#[test]
fn a_forwarded_interrupt_withdraws_the_answer_too() {
    let mut p = processor();
    let mut out = Vec::new();
    ask(&mut p, &mut out, true);
    let turn = take(&mut p, Some(Msg::Input(vec![0x03])), &mut out, T0);
    assert_eq!(turn.cancel.as_deref(), Some("koshell-req-1"));
    // Nothing is left to withdraw.
    let turn = take(&mut p, Some(Msg::Input(vec![0x03])), &mut out, T0);
    assert!(turn.cancel.is_none());
}

#[test]
fn typing_into_a_streaming_answer_is_counted() {
    let mut p = processor();
    let mut out = Vec::new();
    ask(&mut p, &mut out, true);
    take(&mut p, delta("koshell-req-1", "An answer"), &mut out, T0);
    take(&mut p, Some(Msg::Input(b"x".to_vec())), &mut out, T0);
    let end = Some(Msg::Daemon(ServerMessage::AiResponseEnd {
        request_id: "koshell-req-1".to_string(),
    }));
    take(&mut p, end, &mut out, T0);
    let counted = p.take_events().into_iter().any(|event| {
        matches!(
            event,
            Event::ResponseEnd {
                mid_stream_input_chunks: 1,
                ..
            }
        )
    });
    assert!(counted);
}

#[test]
fn deadlines_bound_the_wait() {
    let mut p = processor();
    let mut out = Vec::new();
    assert_eq!(p.next_wait(T0.mono), None);
    ask(&mut p, &mut out, true);
    assert_eq!(p.next_wait(T0.mono), Some(1_000));
    let later = after(T0, 1_000);
    take(&mut p, None, &mut out, later);
    assert!(String::from_utf8_lossy(&out).contains("waiting for the AI answer"));
}

#[test]
fn the_end_of_the_child_ends_the_session() {
    let mut p = processor();
    let mut out = Vec::new();
    let turn = take(&mut p, Some(Msg::Exit), &mut out, T0);
    assert!(turn.over);
    assert!(out.is_empty());
}

#[test]
fn a_new_size_is_taken_in() {
    let mut p = processor();
    let mut out = Vec::new();
    take(&mut p, Some(Msg::Pty(b"% ".to_vec())), &mut out, T0);
    let turn = take(&mut p, Some(Msg::Resize(40, 10)), &mut out, T0);
    assert!(!turn.over);
    assert!(p.state().resting_prompt());
    p.maintain(after(T0, 60_000));
    p.present_notice("hello", &mut out, T0);
    assert!(String::from_utf8_lossy(&out).contains("[koshell] hello"));
}

#[test]
fn resets_are_gathered_and_carried_out() {
    let mut p = processor();
    let mut out = Vec::new();
    let mut bytes = marker(MarkerKind::CommandStart, "ls");
    bytes.extend_from_slice(b"file-a\r\n");
    bytes.extend(marker(MarkerKind::CommandEnd, "ls"));
    bytes.extend(Control::NewConversation.request());
    bytes.extend(Control::ClearContext.request());
    let turn = take(&mut p, Some(Msg::Pty(bytes)), &mut out, T0);
    assert_eq!(
        turn.controls,
        vec![MarkerKind::NewConversation, MarkerKind::ClearContext]
    );
    assert_eq!(p.state().command_history().completed_count(), 1);
    assert_eq!(
        p.apply_control_marker(MarkerKind::NewConversation, &mut out, T0),
        Some(ClientMessage::ConversationReset {})
    );
    assert!(String::from_utf8_lossy(&out).ends_with("[koshell] new conversation\x1b[0m\r\n"));
    assert_eq!(p.state().command_history().completed_count(), 1);

    out.clear();
    assert_eq!(
        p.apply_control_marker(MarkerKind::ClearContext, &mut out, T0),
        Some(ClientMessage::ConversationReset {})
    );
    assert!(out.starts_with(b"\x1b[2J\x1b[3J\x1b[H"));
    assert_eq!(p.state().command_history().completed_count(), 0);

    out.clear();
    assert_eq!(
        p.apply_control_marker(MarkerKind::Cwd, &mut out, T0),
        None
    );
    assert!(out.is_empty());
}

#[test]
fn a_superseded_capture_is_warned_about_once() {
    let mut p = processor();
    let mut out = Vec::new();
    let mut bytes = marker(MarkerKind::CommandStart, "first");
    bytes.extend(marker(MarkerKind::CommandStart, "second"));
    take(&mut p, Some(Msg::Pty(bytes)), &mut out, T0);
    assert_eq!(
        p.take_warnings(),
        vec![
            "discarded the incomplete capture for command-1 (a new command started before it ended)"
                .to_string()
        ]
    );
    assert!(p.take_warnings().is_empty());
}

#[test]
fn a_mirror_is_wide_enough_for_a_wide_character() {
    assert_eq!(mirror_size((0, 0)), (80, 24));
    assert_eq!(mirror_size((1, 1)), (2, 1));
    assert_eq!(mirror_size((100, 30)), (100, 30));
}

#[test]
fn an_idle_session_rests_until_the_next_tick() {
    let mut p = processor();
    let mut out = Vec::new();
    let rest = p.rest(T0.mono);
    assert!(rest.idle && rest.limit == IDLE_TICK);
    let (ticket, _) = ask(&mut p, &mut out, true);
    assert_eq!(ticket.request_id, "koshell-req-1");
    let rest = p.rest(T0.mono);
    assert!(!rest.idle && Some(rest.limit) == p.next_wait(T0.mono));
}
