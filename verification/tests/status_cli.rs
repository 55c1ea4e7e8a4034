use koshell::daemon_cli::Probe;
use koshell::env::Env;
use koshell::proto::ServerMessage;
use koshell::status_cli::{status_head, status_report, NOT_RUNNING, NO_ANSWER};

fn reply(known: bool, model: Option<&str>) -> ServerMessage {
    ServerMessage::InstanceStatus {
        known,
        session_id: "koshell-42".to_string(),
        cwd: Some("/home/u/proj".to_string()),
        shell: Some("/bin/zsh".to_string()),
        model: model.map(str::to_string),
        conversation: known,
        daemon_pid: 1234,
        uptime_ms: 9000,
        version: "0.1.0".to_string(),
        protocol_version: 1,
        connections: 2,
    }
}

#[test]
fn request_status_sends_the_session_id_and_reads_the_reply() {
    let mut env = Env::new();
    env.insert("KOSHELL", "koshell-42,/dev/pts/3");
    let (session_id, head) = status_head(&env).expect("inside a session");
    assert_eq!(session_id, "koshell-42");
    assert_eq!(
        head,
        vec!["koshell instance: koshell-42", "  tty:          /dev/pts/3"]
    );

    let (report, code) = status_report(Probe::Alive, &Some(reply(true, Some("anthropic/sonnet-4-5"))));
    assert_eq!(code, 0);
    assert_eq!(
        report.out,
        vec![
            "  cwd:          /home/u/proj",
            "  shell:        /bin/zsh",
            "  model:        anthropic/sonnet-4-5",
            "  conversation: active",
            "  daemon:",
            "    pid:          1234",
            "    version:      0.1.0",
            "    protocol:     v1",
            "    uptime:       9s",
            "    connections:  2",
        ]
    );
}

#[test]
fn request_status_returns_none_when_the_daemon_hangs_up() {
    let (report, code) = status_report(Probe::Alive, &None);
    assert_eq!(code, 1);
    assert_eq!(report.err, vec![NO_ANSWER]);
}

#[test]
fn an_instance_the_daemon_does_not_know_has_no_conversation_yet() {
    let (report, code) = status_report(Probe::Alive, &Some(reply(false, None)));
    assert_eq!(code, 0);
    assert_eq!(report.out[2], "  model:        —");
    assert!(report.out[4].contains("no conversation yet"));
}

#[test]
fn outside_a_session_there_is_no_instance() {
    assert!(status_head(&Env::new()).is_none());
}

#[test]
fn an_instance_without_a_daemon_exits_one() {
    for probe in [Probe::Stale, Probe::Absent] {
        let (report, code) = status_report(probe, &None);
        assert_eq!(code, 1);
        assert_eq!(report.out, vec![NOT_RUNNING]);
    }
}
