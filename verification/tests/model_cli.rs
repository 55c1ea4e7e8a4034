use koshell::auth_cli::{Launch, CLOSED_EARLY};
use koshell::cli::ModelAction;
use koshell::model_cli::{
    draw_picker, ensure_daemon, fetch_catalog, list_request, model_hello, next_request_id, occurs_in_any,
    request, run, run_list, run_set, run_show, set_request, show_request, Exchange, Incoming, ModelError,
    ModelTask, PickerKey, PickerOutcome, PickerState, MISPLACED_FLAG, TOO_OLD_HINT,
};
use koshell::proto::{ClientMessage, ModelCatalogEntry, ServerMessage};

fn entry(model_ref: &str, name: &str) -> ModelCatalogEntry {
    let (provider, id) = model_ref.split_once('/').expect("provider/id");
    ModelCatalogEntry {
        model_ref: model_ref.to_string(),
        provider: provider.to_string(),
        id: id.to_string(),
        name: name.to_string(),
        available: true,
        context_window: 128_000,
        reasoning: false,
    }
}

fn plain(character: char) -> PickerKey {
    PickerKey::Char {
        character,
        control: false,
        alt: false,
    }
}

#[test]
fn picker_filter_covers_provider_id_and_name() {
    let entries = vec![
        entry("anthropic/sonnet", "Sonnet"),
        entry("openai/gpt-5", "GPT Five"),
    ];
    let mut state = PickerState::new();
    state.query = "ANTHROPIC".to_string();
    assert_eq!(
        state.filtered(&entries)[0].model_ref,
        "anthropic/sonnet"
    );
    state.query = "five".to_string();
    assert_eq!(state.filtered(&entries)[0].model_ref, "openai/gpt-5");
    state.query = "gpt-5".to_string();
    assert_eq!(state.filtered(&entries)[0].model_ref, "openai/gpt-5");
}

#[test]
fn picker_selection_clamps_after_filtering() {
    let mut state = PickerState {
        query: String::new(),
        selected: 8,
    };
    state.clamp(2);
    assert_eq!(state.selected, 1);
    state.clamp(0);
    assert_eq!(state.selected, 0);
}

/// Plays what is read over an exchange.
fn exchange(script: Vec<Incoming>) -> Exchange {
    script
        .into_iter()
        .fold(Exchange::AwaitAck, |at, incoming| {
            request(at, "model-test", incoming)
        })
}

fn ack(id: &str) -> Incoming {
    Incoming::Message(Some(ServerMessage::Ack {
        request_id: id.to_string(),
    }))
}

#[test]
fn request_handshakes_and_reads_a_catalog() {
    assert!(matches!(
        model_hello(7, "/".to_string(), 24, 80),
        ClientMessage::Hello { .. }
    ));
    assert!(matches!(
        list_request("model-test".to_string(), false, None),
        ClientMessage::ModelList { .. }
    ));
    let reply = match exchange(vec![
        ack("model-test"),
        Incoming::Message(Some(ServerMessage::ModelCatalog {
            request_id: "model-test".to_string(),
            configured_model: Some("test/one".to_string()),
            entries: vec![entry("test/one", "Test One")],
        })),
    ]) {
        Exchange::Answered(reply) => reply,
        other => panic!("unexpected end: {other:?}"),
    };
    match reply {
        ServerMessage::ModelCatalog {
            configured_model,
            entries,
            ..
        } => {
            assert_eq!(configured_model.as_deref(), Some("test/one"));
            assert_eq!(entries[0].model_ref, "test/one");
        }
        other => panic!("unexpected reply: {other:?}"),
    }
}

#[test]
fn request_reports_upgrade_guidance_when_an_old_daemon_does_not_ack() {
    for end in [Incoming::Closed, Incoming::TimedOut] {
        match exchange(vec![end]) {
            Exchange::Failed(error) => {
                assert!(error.contains("koshell daemon restart"));
                assert_eq!(error, TOO_OLD_HINT);
            }
            other => panic!("old daemon must fail: {other:?}"),
        }
    }
}

#[test]
fn replies_to_other_requests_are_skipped() {
    assert_eq!(exchange(vec![ack("other")]), Exchange::AwaitAck);
    assert_eq!(
        exchange(vec![
            ack("model-test"),
            Incoming::Message(None),
            Incoming::Message(Some(ServerMessage::ModelResult {
                request_id: "other".to_string(),
                ok: true,
                message: String::new(),
            })),
        ]),
        Exchange::AwaitReply
    );
    assert_eq!(
        exchange(vec![ack("model-test"), Incoming::Closed]),
        Exchange::Failed(CLOSED_EARLY.to_string())
    );
    assert_eq!(
        exchange(vec![Incoming::Failed("broken".to_string()), ack("model-test")]),
        Exchange::Failed("broken".to_string())
    );
}

#[test]
fn the_flag_belongs_behind_the_subcommand() {
    assert_eq!(run(true, Some(ModelAction::Show)), Err(MISPLACED_FLAG));
    assert_eq!(run(true, None), Ok(ModelTask::Pick { session_only: true }));
    assert_eq!(run(false, Some(ModelAction::Show)), Ok(ModelTask::Show));
    assert_eq!(
        run(
            false,
            Some(ModelAction::Select {
                model: "a/b".to_string(),
                session_only: true,
            })
        ),
        Ok(ModelTask::Select {
            model: "a/b".to_string(),
            session_only: true,
        })
    );
}

#[test]
fn the_catalog_is_listed_in_columns() {
    let mut missing = entry("x/y", "Why");
    missing.available = false;
    missing.context_window = 8_192;
    let lines = run_list(&vec![entry("test/one", "Test One"), missing]);
    assert_eq!(
        lines[0],
        format!("{:<58} {:<16} {:>7}k  {}", "test/one", "ready", 128, "Test One")
    );
    assert_eq!(
        lines[1],
        format!("{:<58} {:<16} {:>7}k  {}", "x/y", "no credentials", 8, "Why")
    );
}

#[test]
fn a_catalog_reply_is_taken_apart() {
    let refused = ServerMessage::ModelResult {
        request_id: "r".to_string(),
        ok: false,
        message: "no".to_string(),
    };
    assert_eq!(
        fetch_catalog(refused.clone()),
        Err(ModelError::Refused("no".to_string()))
    );
    assert_eq!(
        run_show(refused.clone(), true),
        Err(ModelError::Refused("no".to_string()))
    );
    assert_eq!(run_set(refused), Ok(("no".to_string(), 1)));
    let other = ServerMessage::Ack {
        request_id: "r".to_string(),
    };
    assert_eq!(
        fetch_catalog(other.clone()),
        Err(ModelError::Unexpected(other))
    );
}

#[test]
fn the_active_model_is_shown_inside_a_session() {
    let state = |active: Option<&str>, conversation: bool| ServerMessage::ModelState {
        request_id: "r".to_string(),
        configured_model: None,
        active_model: active.map(str::to_string),
        conversation,
    };
    assert_eq!(
        run_show(state(Some("a/b"), true), false).unwrap(),
        vec!["configured default: —"]
    );
    assert_eq!(
        run_show(state(Some("a/b"), true), true).unwrap()[1],
        "active conversation: a/b"
    );
    assert_eq!(
        run_show(state(None, false), true).unwrap()[1],
        "active conversation: — (no conversation yet)"
    );
}

#[test]
fn a_session_only_selection_needs_a_session() {
    assert_eq!(
        set_request("r".to_string(), "a/b".to_string(), None, true),
        Err(ModelError::OutsideSession)
    );
    assert!(set_request("r".to_string(), "a/b".to_string(), None, false).is_ok());
    assert!(matches!(
        show_request("r".to_string(), None),
        ClientMessage::ModelShow { .. }
    ));
    assert_eq!(next_request_id(7), "koshell-model-7");
}

#[test]
fn keys_drive_the_picker() {
    let entries = vec![entry("a/one", "One"), entry("b/two", "Two")];
    let mut state = PickerState::new();
    assert_eq!(state.pick_model(&entries, PickerKey::Down), PickerOutcome::Open);
    assert_eq!(state.pick_model(&entries, PickerKey::Down), PickerOutcome::Open);
    assert_eq!(state.selected, 1);
    assert_eq!(
        state.pick_model(&entries, PickerKey::Enter),
        PickerOutcome::Closed(Some("b/two".to_string()))
    );
    state.pick_model(&entries, PickerKey::Up);
    assert_eq!(state.selected, 0);
    for c in "two".chars() {
        state.pick_model(&entries, plain(c));
    }
    assert_eq!(state.query, "two");
    assert_eq!(
        state.pick_model(&entries, PickerKey::Enter),
        PickerOutcome::Closed(Some("b/two".to_string()))
    );
    state.pick_model(&entries, plain('x'));
    assert_eq!(
        state.pick_model(&entries, PickerKey::Enter),
        PickerOutcome::Closed(None)
    );
    state.pick_model(&entries, PickerKey::Backspace);
    assert_eq!(state.query, "two");
    let alt = PickerKey::Char {
        character: 'q',
        control: false,
        alt: true,
    };
    assert_eq!(state.pick_model(&entries, alt), PickerOutcome::Open);
    assert_eq!(state.pick_model(&entries, PickerKey::Other), PickerOutcome::Open);
    assert_eq!(state.query, "two");
    let interrupt = PickerKey::Char {
        character: 'c',
        control: true,
        alt: false,
    };
    assert_eq!(
        state.pick_model(&entries, interrupt),
        PickerOutcome::Closed(None)
    );
    assert_eq!(
        state.pick_model(&entries, PickerKey::Esc),
        PickerOutcome::Closed(None)
    );
}

#[test]
fn the_picker_scrolls_to_the_selected_row() {
    let entries: Vec<ModelCatalogEntry> = (0..10)
        .map(|n| entry(&format!("p/m{n}"), &format!("Model {n}")))
        .collect();
    let state = PickerState {
        query: String::new(),
        selected: 5,
    };
    let shown = state.filtered(&entries);
    let frame = draw_picker(&state, &shown, Some("p/m4"), 80, 9);
    assert_eq!(frame.default_line, "Default: p/m4");
    assert_eq!(frame.search_line, "Search: ");
    let rows: Vec<&str> = frame.rows.iter().map(|row| row.text.as_str()).collect();
    assert_eq!(
        rows,
        vec![
            "  p/m3 — Model 3",
            "  p/m4 — Model 4 *",
            "> p/m5 — Model 5",
        ]
    );
    assert!(frame.rows[2].selected);
    assert_eq!(frame.help_row, 8);

    let narrow = draw_picker(&state, &shown, None, 6, 0);
    assert_eq!(narrow.default_line, "Default: —");
    assert_eq!(narrow.rows.len(), 1);
    assert_eq!(narrow.rows[0].text, "> p/m5");
    assert_eq!(narrow.help_row, 0);
}

#[test]
fn a_start_that_went_well_is_silent() {
    let (report, ok) = ensure_daemon(&Launch::Started("path"));
    assert!(ok && report.out.is_empty() && report.err.is_empty());
    let (report, ok) = ensure_daemon(&Launch::Unreachable);
    assert!(!ok);
    assert_eq!(report.err.len(), 1);
    let (report, _) = ensure_daemon(&Launch::Unresolved);
    assert_eq!(report.err.len(), 2);
    let (report, _) = ensure_daemon(&Launch::Refused("x".to_string()));
    assert_eq!(report.err, vec!["failed to start the AI daemon: x"]);
}

#[test]
fn a_query_is_looked_for_in_every_name() {
    let found = |query: &str| occurs_in_any(query, "openai/gpt-5", "openai", "gpt-5", "omni five");
    for query in ["", "ai/g", "open", "gpt", "five"] {
        assert!(found(query), "{query}");
    }
    assert!(!found("GPT"));
    assert!(!found("six"));
}
