use koshell::daemon_cli::{DaemonStatus, Probe};
use koshell::daemon_spawn::SpawnPlan;
use koshell::env::Env;
use koshell::proto::PROTOCOL_VERSION;
use koshell::version_cli::{
    format_lines, inspect_daemon, inspect_tty, DaemonKoshell, TtyKoshell, LABEL_WIDTH,
};

fn env_of(pairs: &[(&str, &str)]) -> Env {
    let mut env = Env::new();
    for (key, value) in pairs {
        env.insert(key, value);
    }
    env
}

fn stopped() -> DaemonKoshell {
    DaemonKoshell::Stopped {
        would_start: Some("'/usr/local/bin/koshell-ai-daemon' (adjacent)".to_string()),
    }
}

fn line_starting_with<'a>(lines: &'a [String], prefix: &str) -> &'a str {
    lines
        .iter()
        .find(|line| line.starts_with(prefix))
        .unwrap_or_else(|| panic!("no line starting with {prefix:?} in {lines:#?}"))
}

#[test]
fn outside_koshell_there_is_no_terminal_version_to_report() {
    assert_eq!(
        inspect_tty(&env_of(&[]), Some("/dev/pts/3"), None, None),
        TtyKoshell::Outside
    );
    // A brand naming another terminal (the tmux-pane shape) belongs to that pane's
    // koshell; this terminal is simply not wrapped.
    assert_eq!(
        inspect_tty(
            &env_of(&[("KOSHELL", "koshell-1,/dev/pts/999")]),
            Some("/dev/pts/3"),
            Some(1),
            None
        ),
        TtyKoshell::Outside
    );
    // Without a tty of our own, no brand can be claimed as ours.
    assert_eq!(
        inspect_tty(
            &env_of(&[("KOSHELL", "koshell-1,/dev/pts/3")]),
            None,
            Some(1),
            None
        ),
        TtyKoshell::Outside
    );
}

#[test]
fn a_brand_with_no_live_marker_is_unknown_rather_than_absent() {
    // The coarse fallback: inside koshell, but koshell could not brand the child pts,
    // so there is no marker to read a version from.
    assert_eq!(
        inspect_tty(&env_of(&[("KOSHELL", "koshell-1")]), None, None, None),
        TtyKoshell::Unmarked
    );
    // Branded to this tty, but no marker file exists for it (a stale brand on a
    // recycled pts, or a koshell that could not write one).
    assert_eq!(
        inspect_tty(
            &env_of(&[("KOSHELL", "koshell-1,/dev/pts/koshell-version-test")]),
            Some("/dev/pts/koshell-version-test"),
            None,
            None
        ),
        TtyKoshell::Unmarked
    );
}

// The daemon is read, never started: the three shapes it can be found in map to the
// three things reported, and an absent socket is one of them rather than an error.
#[test]
fn the_daemon_is_read_from_its_socket_in_each_of_its_three_states() {
    assert!(matches!(
        inspect_daemon(Probe::Absent, None, None),
        DaemonKoshell::Stopped { .. }
    ));

    let reported = inspect_daemon(
        Probe::Alive,
        Some(DaemonStatus {
            pid: 5120,
            version: "20260730.074101".to_string(),
            protocol_version: PROTOCOL_VERSION,
            uptime_ms: 9000,
            connections: 1,
        }),
        None,
    );
    assert_eq!(
        reported,
        DaemonKoshell::Running {
            version: "20260730.074101".to_string(),
            pid: 5120,
            protocol_version: PROTOCOL_VERSION,
        }
    );

    // Reachable but hanging up without a reply: an older daemon, which is a different
    // answer from "not running": one needs restarting, the other starting.
    assert_eq!(
        inspect_daemon(Probe::Alive, None, None),
        DaemonKoshell::Silent
    );
}

#[test]
fn a_stopped_daemon_is_reported_with_its_plan() {
    let plan = SpawnPlan {
        command_line: "'/k/koshell-ai-daemon'".to_string(),
        source: "adjacent",
    };
    assert_eq!(
        inspect_daemon(Probe::Stale, None, Some(plan)),
        DaemonKoshell::Stopped {
            would_start: Some("'/k/koshell-ai-daemon' (adjacent)".to_string()),
        }
    );
}

#[test]
fn a_live_marker_names_the_wrapper() {
    let env = env_of(&[("KOSHELL", "koshell-1,/dev/pts/3")]);
    assert_eq!(
        inspect_tty(&env, Some("/dev/pts/3"), Some(4821), Some("1.2".to_string())),
        TtyKoshell::Known {
            version: "1.2".to_string(),
            tty: "/dev/pts/3".to_string(),
            pid: 4821,
        }
    );
    assert_eq!(
        inspect_tty(&env, Some("/dev/pts/3"), Some(4821), None),
        TtyKoshell::Unversioned {
            tty: "/dev/pts/3".to_string(),
            pid: 4821,
        }
    );
}

#[test]
fn the_binary_row_names_the_build_and_its_protocol() {
    let lines = format_lines("20260730.074058", &TtyKoshell::Outside, &stopped());
    let first = &lines[0];
    assert!(first.starts_with("koshell:"));
    assert!(first.contains("20260730.074058"));
    assert!(first.contains(&format!("protocol v{PROTOCOL_VERSION}")));
}

// The reason the command exists: an upgraded binary does not reach a terminal that is
// already running, and only this comparison says so.
#[test]
fn a_terminal_running_another_build_is_called_out() {
    let tty = TtyKoshell::Known {
        version: "20260729.183304".to_string(),
        tty: "/dev/ttys003".to_string(),
        pid: 4821,
    };
    let lines = format_lines("20260730.074058", &tty, &stopped());
    let row = line_starting_with(&lines, "this tty:");
    assert!(row.contains("20260729.183304"));
    assert!(row.contains("/dev/ttys003"));
    assert!(row.contains("pid 4821"));
    let joined = lines.join("\n");
    assert!(
        joined.contains("a different build than this binary"),
        "the mismatch is stated, not left to be spotted: {joined}"
    );
    assert!(joined.contains("a new terminal runs 20260730.074058"));
}

#[test]
fn a_terminal_running_this_build_gets_no_note() {
    let tty = TtyKoshell::Known {
        version: "20260730.074058".to_string(),
        tty: "/dev/ttys003".to_string(),
        pid: 4821,
    };
    let lines = format_lines("20260730.074058", &tty, &stopped());
    assert!(!lines.join("\n").contains("a different build"));
}

#[test]
fn an_older_wrapper_is_unknown_rather_than_missing() {
    let tty = TtyKoshell::Unversioned {
        tty: "/dev/ttys003".to_string(),
        pid: 4821,
    };
    let lines = format_lines("20260730.074058", &tty, &stopped());
    let row = line_starting_with(&lines, "this tty:");
    assert!(row.contains("unknown"));
    assert!(row.contains("pid 4821"), "the koshell is still identified");
    assert!(lines.join("\n").contains("predates `koshell version`"));
}

#[test]
fn a_running_daemon_reports_its_version_pid_and_protocol() {
    let daemon = DaemonKoshell::Running {
        version: "20260730.074101".to_string(),
        pid: 5120,
        protocol_version: PROTOCOL_VERSION,
    };
    let lines = format_lines("20260730.074058", &TtyKoshell::Outside, &daemon);
    let row = line_starting_with(&lines, "koshell-ai-daemon:");
    assert!(row.contains("20260730.074101"));
    assert!(row.contains("pid 5120"));
    assert!(row.contains(&format!("protocol v{PROTOCOL_VERSION}")));
    assert!(!lines.join("\n").contains("daemon restart"));
}

// A protocol mismatch is the version difference that actually breaks `#?`, so it comes
// with its fix instead of leaving the user to compare two `v` numbers.
#[test]
fn a_protocol_mismatch_names_the_fix() {
    let daemon = DaemonKoshell::Running {
        version: "20250101.000000".to_string(),
        pid: 5120,
        protocol_version: PROTOCOL_VERSION + 1,
    };
    let lines = format_lines("20260730.074058", &TtyKoshell::Outside, &daemon);
    assert!(lines.join("\n").contains("koshell daemon restart"));
}

#[test]
fn a_stopped_daemon_names_what_would_start_it_instead_of_a_version() {
    let lines = format_lines("20260730.074058", &TtyKoshell::Outside, &stopped());
    let joined = lines.join("\n");
    assert!(line_starting_with(&lines, "koshell-ai-daemon:").contains("not running"));
    assert!(joined.contains("would start:"));
    assert!(joined.contains("koshell-ai-daemon' (adjacent)"));
    assert!(joined.contains("koshell daemon start"));
}

#[test]
fn a_stopped_daemon_with_no_resolvable_command_says_so() {
    let lines = format_lines(
        "20260730.074058",
        &TtyKoshell::Outside,
        &DaemonKoshell::Stopped { would_start: None },
    );
    assert!(lines.join("\n").contains("no launch command resolved"));
}

#[test]
fn a_silent_daemon_is_unknown_and_not_mistaken_for_stopped() {
    let lines = format_lines(
        "20260730.074058",
        &TtyKoshell::Outside,
        &DaemonKoshell::Silent,
    );
    let row = line_starting_with(&lines, "koshell-ai-daemon:");
    assert!(row.contains("unknown"));
    assert!(!row.contains("not running"));
    assert!(lines.join("\n").contains("older daemon"));
}

// The three answers are read as a column; misaligned values would make comparing them
// the user's job.
#[test]
fn the_three_values_share_one_column() {
    let tty = TtyKoshell::Known {
        version: "20260730.074058".to_string(),
        tty: "/dev/ttys003".to_string(),
        pid: 4821,
    };
    let daemon = DaemonKoshell::Running {
        version: "20260730.074101".to_string(),
        pid: 5120,
        protocol_version: PROTOCOL_VERSION,
    };
    let lines = format_lines("20260730.074058", &tty, &daemon);
    for prefix in ["koshell:", "this tty:", "koshell-ai-daemon:"] {
        let row = line_starting_with(&lines, prefix);
        assert_eq!(
            row.find("2026"),
            Some(LABEL_WIDTH),
            "{prefix} value starts off the column: {row}"
        );
    }
}
