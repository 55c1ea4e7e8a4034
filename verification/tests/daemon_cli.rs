use koshell::cli::DaemonAction;
use koshell::daemon_cli::{
    detail_lines, format_uptime, run, wait_step, Ask, DaemonStatus, Fact, Places, Probe, WaitStep,
};
use koshell::daemon_spawn::SpawnPlan;

fn places() -> Places {
    Places {
        socket: "/run/koshell/daemon.sock".to_string(),
        log: Some("/var/daemon.log".to_string()),
    }
}

fn status() -> DaemonStatus {
    DaemonStatus {
        pid: 4321,
        version: "9.9.9".to_string(),
        protocol_version: 1,
        uptime_ms: 125_000,
        connections: 1,
    }
}

fn plan() -> SpawnPlan {
    SpawnPlan {
        command_line: "'/k/koshell-ai-daemon'".to_string(),
        source: "adjacent",
    }
}

/// Plays answers to a run; what was printed, and the exit code.
fn play(action: DaemonAction, facts: Vec<Fact>) -> (Vec<String>, Vec<String>, i32) {
    let mut run = run(action);
    let mut out = Vec::new();
    let mut err = Vec::new();
    for fact in facts {
        let report = run.answer(fact, &places());
        out.extend(report.out);
        err.extend(report.err);
    }
    match run.ask() {
        Ask::Exit(code) => (out, err, code),
        other => panic!("the run still asks {other:?}"),
    }
}

#[test]
fn format_uptime_scales_units() {
    assert_eq!(format_uptime(3_000), "3s");
    assert_eq!(format_uptime(125_000), "2m 5s");
    assert_eq!(format_uptime(3_723_000), "1h 2m 3s");
}

#[test]
fn status_of_a_running_daemon_exits_zero() {
    let (out, err, code) = play(
        DaemonAction::Status,
        vec![Fact::Probed(Probe::Alive), Fact::Said(Some(status()))],
    );
    assert_eq!(code, 0);
    assert!(err.is_empty());
    assert_eq!(out[0], "AI daemon: running");
    assert_eq!(out[1..], detail_lines(&Some(status()), &places())[..]);
    assert!(out.iter().any(|line| line.contains("4321")));
    assert!(out.iter().any(|line| line.contains("2m 5s")));
}

#[test]
fn status_of_a_stopped_daemon_exits_one() {
    let (out, _, code) = play(
        DaemonAction::Status,
        vec![Fact::Probed(Probe::Absent), Fact::Planned(Some(plan()))],
    );
    assert_eq!(code, 1);
    assert_eq!(out[0], "AI daemon: not running");
    assert_eq!(out[2], "  would start:  '/k/koshell-ai-daemon' (adjacent)");
    let (out, _, code) = play(
        DaemonAction::Status,
        vec![Fact::Probed(Probe::Stale), Fact::Planned(None)],
    );
    assert_eq!(code, 1);
    assert_eq!(out[2], "  would start:  no launch command resolved");
}

#[test]
fn a_start_waits_until_the_daemon_answers() {
    let (out, err, code) = play(
        DaemonAction::Start,
        vec![
            Fact::Probed(Probe::Absent),
            Fact::Planned(Some(plan())),
            Fact::Spawned(None),
            Fact::Reached(true),
            Fact::Said(Some(status())),
        ],
    );
    assert_eq!(code, 0);
    assert!(err.is_empty());
    assert_eq!(out[0], "AI daemon: started (adjacent)");
}

#[test]
fn each_way_a_start_fails_is_told() {
    let (_, err, code) = play(
        DaemonAction::Start,
        vec![Fact::Probed(Probe::Absent), Fact::Planned(None)],
    );
    assert_eq!(code, 1);
    assert_eq!(
        err[0],
        "cannot start the AI daemon: no launch command resolved."
    );
    let (_, err, code) = play(
        DaemonAction::Start,
        vec![
            Fact::Probed(Probe::Absent),
            Fact::Planned(Some(plan())),
            Fact::Spawned(Some("no sh".to_string())),
        ],
    );
    assert_eq!(code, 1);
    assert_eq!(err, vec!["failed to start the AI daemon: no sh"]);
    let (_, err, code) = play(
        DaemonAction::Start,
        vec![
            Fact::Probed(Probe::Absent),
            Fact::Planned(Some(plan())),
            Fact::Spawned(None),
            Fact::Reached(false),
        ],
    );
    assert_eq!(code, 1);
    assert_eq!(err[1], "  check the log: /var/daemon.log");
}

#[test]
fn a_second_start_finds_the_daemon() {
    let (out, _, code) = play(
        DaemonAction::Start,
        vec![Fact::Probed(Probe::Alive), Fact::Said(None)],
    );
    assert_eq!(code, 0);
    assert_eq!(out[0], "AI daemon: already running");
}

#[test]
fn a_stop_signals_the_daemon_and_waits() {
    let (out, _, code) = play(
        DaemonAction::Stop,
        vec![
            Fact::Probed(Probe::Alive),
            Fact::Said(Some(status())),
            Fact::Signalled(true),
            Fact::Gone(true),
        ],
    );
    assert_eq!(code, 0);
    assert_eq!(out, vec!["AI daemon: stopped (pid 4321)"]);
}

#[test]
fn each_way_a_stop_fails_is_told() {
    for (facts, error) in [
        (
            vec![Fact::Probed(Probe::Alive), Fact::Said(None)],
            "the AI daemon is running but did not report its pid; stop it manually.",
        ),
        (
            vec![
                Fact::Probed(Probe::Alive),
                Fact::Said(Some(status())),
                Fact::Signalled(false),
            ],
            "failed to signal the AI daemon (pid 4321).",
        ),
        (
            vec![
                Fact::Probed(Probe::Alive),
                Fact::Said(Some(status())),
                Fact::Signalled(true),
                Fact::Gone(false),
            ],
            "signalled the AI daemon (pid 4321), but its socket is still present.",
        ),
    ] {
        let (_, err, code) = play(DaemonAction::Stop, facts);
        assert_eq!(code, 1);
        assert_eq!(err, vec![error]);
    }
}

#[test]
fn stopping_what_is_not_running_is_fine() {
    let (out, _, code) = play(DaemonAction::Stop, vec![Fact::Probed(Probe::Absent)]);
    assert_eq!(code, 0);
    assert_eq!(out, vec!["AI daemon: not running"]);
    let (out, _, code) = play(
        DaemonAction::Stop,
        vec![Fact::Probed(Probe::Stale), Fact::Removed],
    );
    assert_eq!(code, 0);
    assert_eq!(out, vec!["AI daemon: not running (removed a stale socket)"]);
}

#[test]
fn a_restart_stops_and_starts() {
    let (out, _, code) = play(
        DaemonAction::Restart,
        vec![
            Fact::Probed(Probe::Alive),
            Fact::Probed(Probe::Alive),
            Fact::Said(Some(status())),
            Fact::Signalled(true),
            Fact::Gone(true),
            Fact::Probed(Probe::Absent),
            Fact::Planned(Some(plan())),
            Fact::Spawned(None),
            Fact::Reached(true),
            Fact::Said(None),
        ],
    );
    assert_eq!(code, 0);
    assert_eq!(out[0], "AI daemon: stopped (pid 4321)");
    assert_eq!(out[1], "AI daemon: started (adjacent)");
}

#[test]
fn an_answer_to_another_question_changes_nothing() {
    let mut run = run(DaemonAction::Stop);
    assert_eq!(run.ask(), Ask::Probe);
    let report = run.answer(Fact::Reached(true), &places());
    assert!(report.out.is_empty() && report.err.is_empty());
    assert_eq!(run.ask(), Ask::Probe);
}

#[test]
fn a_wait_goes_on_until_the_time_is_up() {
    assert_eq!(wait_step(true, 0), WaitStep::Reached);
    assert_eq!(wait_step(false, 0), WaitStep::Pause(50));
    assert_eq!(wait_step(false, 4_999), WaitStep::Pause(50));
    assert_eq!(wait_step(false, 5_000), WaitStep::GaveUp);
    // What has happened counts, however late it is seen.
    assert_eq!(wait_step(true, 60_000), WaitStep::Reached);
}
