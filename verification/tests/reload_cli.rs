use koshell::daemon_cli::Probe;
use koshell::proto::ClientMessage;
use koshell::reload_cli::{reload_report, reload_step, ReloadStep};

#[test]
fn request_reload_sends_the_session_id_and_reads_the_reply() {
    let step = reload_step(Probe::Alive, false, Some("koshell-42".to_string()));
    match step {
        ReloadStep::Send(ClientMessage::ReloadRequest { session_id }) => {
            assert_eq!(session_id.as_deref(), Some("koshell-42"));
        }
        other => panic!("unexpected request: {other:?}"),
    }
    let (report, code) = reload_report(Some((true, Some("reloaded 1 session".to_string()))));
    assert_eq!(code, 0);
    assert_eq!(report.out, vec!["reloaded 1 session"]);
}

#[test]
fn request_reload_all_omits_the_session_id() {
    let step = reload_step(Probe::Alive, true, Some("koshell-42".to_string()));
    assert_eq!(
        step,
        ReloadStep::Send(ClientMessage::ReloadRequest { session_id: None })
    );
    let (report, code) = reload_report(Some((true, None)));
    assert_eq!(code, 0);
    assert_eq!(report.out, vec!["AI daemon: configuration reloaded"]);
}

#[test]
fn request_reload_returns_none_when_the_daemon_hangs_up() {
    let (report, code) = reload_report(None);
    assert_eq!(code, 1);
    assert!(report.err[0].contains("koshell daemon restart"));
}

#[test]
fn a_refused_configuration_exits_one() {
    let (report, code) = reload_report(Some((false, Some("bad key".to_string()))));
    assert_eq!(code, 1);
    assert_eq!(report.out, vec!["bad key"]);
}

#[test]
fn there_is_nothing_to_reload_without_a_daemon() {
    match reload_step(Probe::Stale, true, None) {
        ReloadStep::Exit(report, code) => {
            assert_eq!(code, 0);
            assert_eq!(report.out[0], "AI daemon: not running; nothing to reload");
        }
        other => panic!("unexpected step: {other:?}"),
    }
    match reload_step(Probe::Alive, false, None) {
        ReloadStep::Exit(report, code) => {
            assert_eq!(code, 1);
            assert!(report.err[0].contains("koshell reload --all"));
        }
        other => panic!("unexpected step: {other:?}"),
    }
}
