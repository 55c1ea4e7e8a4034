use koshell::auth_cli::{
    auth_hello, ensure_daemon, render_status, AuthAsk, AuthFact, AuthRun, Launch, LaunchRun,
    CLOSED_EARLY,
};
use koshell::cli::AuthAction;
use koshell::daemon_cli::{Ask, Fact, Probe};
use koshell::daemon_spawn::SpawnPlan;
use koshell::proto::{
    AuthSelectOption, AuthStatusEntry, ClientMessage, ServerMessage, PROTOCOL_VERSION,
};

/// The id that the requests of these tests carry.
const ID: &str = "koshell-auth-7";

fn login(provider: &str) -> AuthAction {
    AuthAction::Login {
        provider: provider.to_string(),
    }
}

fn message(message: ServerMessage) -> AuthFact {
    AuthFact::Message(Some(message))
}

fn ack() -> AuthFact {
    message(ServerMessage::Ack {
        request_id: ID.to_string(),
    })
}

fn typed(line: &str) -> AuthFact {
    AuthFact::Typed(Some(line.to_string()))
}

/// Plays a script: each fact is taken in, and what was printed and answered is gathered.
fn play(
    action: AuthAction,
    script: Vec<AuthFact>,
) -> (AuthRun, String, Vec<(String, Option<String>)>) {
    let mut run = AuthRun::new(action, 7);
    let mut out = String::new();
    let mut replies = Vec::new();
    for fact in script {
        let effect = run.take(fact);
        out.push_str(&effect.out);
        if let Some(reply) = effect.reply {
            replies.push(reply);
        }
    }
    (run, out, replies)
}

#[test]
fn login_round_trip_answers_the_prompt_and_exits_zero() {
    let run = AuthRun::new(login("anthropic"), 7);
    assert!(matches!(
        auth_hello(7, "/".to_string()),
        ClientMessage::Hello { .. }
    ));
    match run.request() {
        ClientMessage::AuthLogin {
            request_id,
            provider,
        } => {
            assert_eq!(request_id, ID);
            assert_eq!(provider, "anthropic");
        }
        other => panic!("unexpected request: {other:?}"),
    }
    let (run, output, replies) = play(
        login("anthropic"),
        vec![
            ack(),
            message(ServerMessage::AuthUrl {
                request_id: ID.to_string(),
                url: "https://example.test/authorize".to_string(),
                instructions: Some("authorize, then paste the code".to_string()),
            }),
            message(ServerMessage::AuthPrompt {
                request_id: ID.to_string(),
                prompt_id: "prompt-1".to_string(),
                message: "Code".to_string(),
                placeholder: None,
                allow_empty: false,
            }),
            typed("the-code\n"),
            message(ServerMessage::AuthResult {
                request_id: ID.to_string(),
                ok: true,
                message: Some("logged in to Anthropic".to_string()),
            }),
        ],
    );
    assert_eq!(
        replies,
        vec![("prompt-1".to_string(), Some("the-code".to_string()))]
    );
    match run.response("prompt-1".to_string(), Some("the-code".to_string())) {
        ClientMessage::AuthPromptResponse {
            prompt_id, value, ..
        } => {
            assert_eq!(prompt_id, "prompt-1");
            assert_eq!(value.as_deref(), Some("the-code"));
        }
        other => panic!("unexpected response: {other:?}"),
    }
    assert_eq!(run.ask(), AuthAsk::Exit(0));
    assert!(output.contains("https://example.test/authorize"));
    assert!(output.contains("authorize, then paste the code"));
    assert!(output.contains("logged in to Anthropic"));
}

#[test]
fn select_prompt_maps_the_number_to_the_option_id() {
    // "9" is out of range and re-asked; "2" picks the device_code option.
    let (run, output, replies) = play(
        login("openai-codex"),
        vec![
            ack(),
            message(ServerMessage::AuthSelect {
                request_id: ID.to_string(),
                prompt_id: "prompt-1".to_string(),
                message: "How do you want to sign in?".to_string(),
                options: vec![
                    AuthSelectOption {
                        id: "browser".to_string(),
                        label: "Open a browser".to_string(),
                    },
                    AuthSelectOption {
                        id: "device_code".to_string(),
                        label: "Enter a device code".to_string(),
                    },
                ],
            }),
            typed("9\n"),
            typed("2\n"),
            message(ServerMessage::AuthResult {
                request_id: ID.to_string(),
                ok: true,
                message: None,
            }),
        ],
    );
    assert_eq!(
        replies,
        vec![("prompt-1".to_string(), Some("device_code".to_string()))]
    );
    assert_eq!(run.ask(), AuthAsk::Exit(0));
    assert_eq!(
        output,
        "How do you want to sign in?\n  1. Open a browser\n  2. Enter a device code\n\
         Choose [1-2]: (enter a number between 1 and 2)\nChoose [1-2]: "
    );
}

#[test]
fn a_daemon_that_never_acks_reads_as_too_old() {
    for silence in [
        AuthFact::Closed,
        AuthFact::TimedOut("timed out".to_string()),
    ] {
        let (run, _, _) = play(AuthAction::Status { provider: None }, vec![silence]);
        match run.ask() {
            AuthAsk::Fail(error) => assert!(error.contains("koshell daemon restart")),
            other => panic!("unexpected end: {other:?}"),
        }
    }
}

#[test]
fn failed_result_exits_one_with_the_message() {
    let action = AuthAction::Logout {
        provider: "anthropic".to_string(),
    };
    let (run, output, _) = play(
        action,
        vec![
            ack(),
            message(ServerMessage::AuthResult {
                request_id: ID.to_string(),
                ok: false,
                message: Some("saving the credential failed".to_string()),
            }),
        ],
    );
    assert_eq!(run.ask(), AuthAsk::Exit(1));
    assert!(output.contains("saving the credential failed"));
    assert!(matches!(run.request(), ClientMessage::AuthLogout { .. }));
}

#[test]
fn status_renders_the_table_and_reports_a_named_provider_in_the_exit_code() {
    let entries = vec![
        AuthStatusEntry {
            provider: "anthropic".to_string(),
            name: "Anthropic (Pro/Max)".to_string(),
            oauth: true,
            configured: true,
            source: Some("stored".to_string()),
            label: None,
        },
        AuthStatusEntry {
            provider: "github-copilot".to_string(),
            name: "GitHub Copilot".to_string(),
            oauth: true,
            configured: false,
            source: None,
            label: None,
        },
        AuthStatusEntry {
            provider: "mistral".to_string(),
            name: "mistral".to_string(),
            oauth: false,
            configured: true,
            source: Some("environment".to_string()),
            label: Some("MISTRAL_API_KEY".to_string()),
        },
    ];
    let (output, code) = render_status(&AuthAction::Status { provider: None }, &entries);
    assert_eq!(code, 0);
    assert!(output.contains("logged in"));
    assert!(output.contains("koshell auth login github-copilot"));
    assert!(output.contains("configured via $MISTRAL_API_KEY"));
    assert_eq!(
        output.lines().next(),
        Some("anthropic        Anthropic (Pro/Max)                    logged in")
    );

    let (_, code) = render_status(
        &AuthAction::Status {
            provider: Some("github-copilot".to_string()),
        },
        &entries[1..2].to_vec(),
    );
    assert_eq!(code, 1);

    let (_, code) = render_status(
        &AuthAction::Status {
            provider: Some("anthropic".to_string()),
        },
        &entries[..1].to_vec(),
    );
    assert_eq!(code, 0);
}

#[test]
fn credentials_are_described_by_where_they_come_from() {
    let entry = |configured: bool, source: Option<&str>| AuthStatusEntry {
        provider: "p".to_string(),
        name: "P".to_string(),
        oauth: false,
        configured,
        source: source.map(str::to_string),
        label: None,
    };
    for (entry, status) in [
        (entry(true, Some("environment")), "configured via the environment"),
        (entry(true, Some("config")), "configured via config.toml"),
        (entry(true, Some("keychain")), "configured"),
        (entry(true, None), "configured"),
        (entry(false, None), "not configured"),
    ] {
        let (output, _) = render_status(&AuthAction::Status { provider: None }, &vec![entry]);
        assert!(output.ends_with(&format!(" {status}\n")), "{output:?}");
    }
}

#[test]
fn an_empty_answer_is_asked_again_unless_it_is_allowed() {
    let prompt = |allow_empty: bool| {
        message(ServerMessage::AuthPrompt {
            request_id: ID.to_string(),
            prompt_id: "p".to_string(),
            message: "Key".to_string(),
            placeholder: Some("sk-...".to_string()),
            allow_empty,
        })
    };
    let (run, output, replies) = play(
        login("x"),
        vec![ack(), prompt(false), typed("\r\n"), typed("k\r\n")],
    );
    assert_eq!(
        output,
        "Key [sk-...]: (an answer is required)\nKey [sk-...]: "
    );
    assert_eq!(replies, vec![("p".to_string(), Some("k".to_string()))]);
    assert_eq!(run.ask(), AuthAsk::Event);

    let (_, _, replies) = play(login("x"), vec![ack(), prompt(true), typed("\n")]);
    assert_eq!(replies, vec![("p".to_string(), Some(String::new()))]);

    // The end of input declines.
    let (_, output, replies) =
        play(login("x"), vec![ack(), prompt(false), AuthFact::Typed(None)]);
    assert_eq!(replies, vec![("p".to_string(), None)]);
    assert!(output.ends_with(": \n"));
}

#[test]
fn display_events_are_rendered() {
    let mut run = AuthRun::new(login("x"), 7);
    assert_eq!(run.ask(), AuthAsk::Acknowledgement);
    run.take(message(ServerMessage::Ack {
        request_id: "another".to_string(),
    }));
    assert_eq!(run.ask(), AuthAsk::Acknowledgement);
    run.take(ack());
    assert_eq!(run.ask(), AuthAsk::Event);
    let effect = run.take(message(ServerMessage::AuthDeviceCode {
        request_id: ID.to_string(),
        user_code: "AB-12".to_string(),
        verification_uri: "https://example.test/device".to_string(),
        interval_seconds: None,
        expires_in_seconds: Some(900),
    }));
    assert_eq!(
        effect.out,
        "Enter the code AB-12 at:\n  https://example.test/device\nThe code expires in 900s.\n"
    );
    let effect = run.take(message(ServerMessage::AuthProgress {
        request_id: ID.to_string(),
        message: "exchanging".to_string(),
    }));
    assert_eq!(effect.out, "exchanging\n");
    let effect = run.take(message(ServerMessage::AuthUrl {
        request_id: ID.to_string(),
        url: "https://example.test".to_string(),
        instructions: None,
    }));
    assert_eq!(effect.open.as_deref(), Some("https://example.test"));
    // What is unknown, or nothing of ours, is skipped.
    assert_eq!(run.take(AuthFact::Message(None)).out, "");
    assert_eq!(run.ask(), AuthAsk::Event);
    run.take(AuthFact::Closed);
    assert_eq!(run.ask(), AuthAsk::Fail(CLOSED_EARLY.to_string()));
}

#[test]
fn a_failed_read_ends_the_run() {
    let (run, _, _) = play(
        login("x"),
        vec![ack(), AuthFact::Failed("broken pipe".to_string())],
    );
    assert_eq!(run.ask(), AuthAsk::Fail("broken pipe".to_string()));
    let (run, _, _) = play(
        login("x"),
        vec![ack(), AuthFact::TimedOut("timed out".to_string())],
    );
    assert_eq!(run.ask(), AuthAsk::Fail("timed out".to_string()));
}

#[test]
fn the_handshake_names_this_command() {
    assert_eq!(
        auth_hello(7, "/tmp".to_string()),
        ClientMessage::Hello {
            protocol_version: PROTOCOL_VERSION,
            terminal_session_id: ID.to_string(),
            cwd: "/tmp".to_string(),
            shell: "koshell-auth".to_string(),
            rows: 0,
            cols: 0,
            capabilities: Vec::new(),
        }
    );
}

#[test]
fn reaching_the_daemon_is_reported() {
    let log = Some("/var/daemon.log".to_string());
    let (report, ok) = ensure_daemon(&Launch::Running, &log);
    assert!(ok && report.out.is_empty() && report.err.is_empty());
    let (report, ok) = ensure_daemon(&Launch::Started("path"), &log);
    assert!(ok);
    assert_eq!(report.out, vec!["AI daemon: started (path)"]);
    let (report, ok) = ensure_daemon(&Launch::Unresolved, &log);
    assert!(!ok);
    assert_eq!(report.err.len(), 3);
    let (report, ok) = ensure_daemon(&Launch::Refused("no sh".to_string()), &log);
    assert!(!ok);
    assert_eq!(report.err, vec!["failed to start the AI daemon: no sh"]);
    let (report, ok) = ensure_daemon(&Launch::Unreachable, &log);
    assert!(!ok);
    assert_eq!(report.err[1], "  check the log: /var/daemon.log");
}

fn launched(script: Vec<Fact>) -> (Vec<Ask>, Option<Launch>) {
    let mut run = LaunchRun::new();
    let mut asked = Vec::new();
    for fact in script {
        assert_eq!(run.outcome(), None);
        asked.extend(run.ask());
        run.answer(fact);
    }
    assert_eq!(run.ask().is_none(), run.outcome().is_some());
    (asked, run.outcome().cloned())
}

fn a_plan() -> Fact {
    Fact::Planned(Some(SpawnPlan {
        command_line: "exec koshell-ai-daemon".to_string(),
        source: "adjacent",
    }))
}

#[test]
fn a_running_daemon_is_not_started_again() {
    let (asked, launch) = launched(vec![Fact::Probed(Probe::Alive)]);
    assert_eq!(asked, vec![Ask::Probe]);
    assert_eq!(launch, Some(Launch::Running));
}

#[test]
fn a_launch_needs_a_plan() {
    let (asked, launch) = launched(vec![Fact::Probed(Probe::Stale), Fact::Planned(None)]);
    assert_eq!(asked, vec![Ask::Probe, Ask::Plan]);
    assert_eq!(launch, Some(Launch::Unresolved));
}

#[test]
fn a_launch_reports_a_failed_spawn() {
    let (asked, launch) = launched(vec![
        Fact::Probed(Probe::Absent),
        a_plan(),
        Fact::Spawned(Some("no such file".to_string())),
    ]);
    assert_eq!(asked, vec![Ask::Probe, Ask::Plan, Ask::Spawn]);
    assert_eq!(launch, Some(Launch::Refused("no such file".to_string())));
}

#[test]
fn a_started_daemon_counts_once_it_answers() {
    let script = |reached| {
        vec![
            Fact::Probed(Probe::Absent),
            a_plan(),
            Fact::Spawned(None),
            Fact::Reached(reached),
        ]
    };
    let (asked, launch) = launched(script(true));
    assert_eq!(asked, vec![Ask::Probe, Ask::Plan, Ask::Spawn, Ask::AwaitAlive]);
    assert_eq!(launch, Some(Launch::Started("adjacent")));
    assert_eq!(launched(script(false)).1, Some(Launch::Unreachable));
}

#[test]
fn a_launch_ignores_an_answer_to_another_question() {
    let (asked, launch) = launched(vec![Fact::Reached(true), a_plan(), Fact::Removed]);
    assert_eq!(asked, vec![Ask::Probe, Ask::Probe, Ask::Probe]);
    assert_eq!(launch, None);
}
