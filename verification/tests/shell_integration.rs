use base64::engine::general_purpose::STANDARD as BASE64;
use base64::Engine;
use koshell::env::Env;
use koshell::markers::{
    format_marker, marker_fields, marker_from_fields, parse_marker_payload, MarkerKind,
    MarkerScanner, Segment, ShellIntegrationMarker, MARKER_PREFIX, MARKER_SUFFIX,
    MAX_PENDING_MARKER_BYTES,
};
use koshell::shell_integration::{create_shell_launch_config, ShellIntegrationKind};

/// The directory that the launches of these tests are planned for.
const DIR: &str = "/tmp/koshell-rc";

fn env_of(pairs: &[(&str, &str)]) -> Env {
    let mut env = Env::new();
    for (key, value) in pairs {
        env.insert(key, value);
    }
    env
}

#[test]
fn round_trips_command_start_marker() {
    let marker = ShellIntegrationMarker {
        kind: MarkerKind::CommandStart,
        command: Some("ls #? explain".to_string()),
        exit_code: None,
        cwd: None,
        executed: true,
    };
    let bytes = format_marker(&marker);
    assert!(bytes.starts_with(&MARKER_PREFIX));
    assert_eq!(*bytes.last().unwrap(), MARKER_SUFFIX);
    let payload = &bytes[MARKER_PREFIX.len()..bytes.len() - 1];
    assert_eq!(parse_marker_payload(payload), Some(marker));
}

#[test]
fn round_trips_command_end_marker_with_exit_code() {
    let marker = ShellIntegrationMarker {
        kind: MarkerKind::CommandEnd,
        command: Some("false".to_string()),
        exit_code: Some(1),
        cwd: None,
        executed: true,
    };
    let bytes = format_marker(&marker);
    let payload = &bytes[MARKER_PREFIX.len()..bytes.len() - 1];
    assert_eq!(parse_marker_payload(payload), Some(marker));
}

#[test]
fn round_trips_cwd_marker() {
    let marker = ShellIntegrationMarker {
        kind: MarkerKind::Cwd,
        command: None,
        exit_code: None,
        cwd: Some("/home/user/project".to_string()),
        executed: true,
    };
    let bytes = format_marker(&marker);
    let payload = &bytes[MARKER_PREFIX.len()..bytes.len() - 1];
    assert_eq!(parse_marker_payload(payload), Some(marker));
}

#[test]
fn rejects_invalid_payloads() {
    assert_eq!(parse_marker_payload(b"not-base64!!"), None);
    let bad = BASE64.encode(b"{\"type\":\"nope\"}");
    assert_eq!(parse_marker_payload(bad.as_bytes()), None);
}

#[test]
fn scanner_separates_visible_output_and_markers() {
    let mut scanner = MarkerScanner::new();
    let marker = format_marker(&ShellIntegrationMarker {
        kind: MarkerKind::CommandStart,
        command: Some("ls".to_string()),
        exit_code: None,
        cwd: None,
        executed: true,
    });
    let mut stream = b"before".to_vec();
    stream.extend_from_slice(&marker);
    stream.extend_from_slice(b"after");

    let segments = scanner.feed(&stream);
    assert_eq!(
        segments,
        vec![
            Segment::Visible(b"before".to_vec()),
            Segment::Marker(ShellIntegrationMarker {
                kind: MarkerKind::CommandStart,
                command: Some("ls".to_string()),
                exit_code: None,
                cwd: None,
                executed: true,
            }),
            Segment::Visible(b"after".to_vec()),
        ]
    );
}

#[test]
fn scanner_handles_marker_split_across_chunks() {
    let mut scanner = MarkerScanner::new();
    let marker = format_marker(&ShellIntegrationMarker {
        kind: MarkerKind::CommandEnd,
        command: Some("ls #? explain".to_string()),
        exit_code: Some(0),
        cwd: None,
        executed: true,
    });
    // Split the marker in the middle of the prefix.
    let split = 5;
    let mut first = b"out".to_vec();
    first.extend_from_slice(&marker[..split]);
    let second = &marker[split..];

    let mut segments = scanner.feed(&first);
    segments.extend(scanner.feed(second));

    let visible: Vec<u8> = segments
        .iter()
        .filter_map(|s| match s {
            Segment::Visible(bytes) => Some(bytes.clone()),
            Segment::Marker(_) => None,
        })
        .flatten()
        .collect();
    assert_eq!(visible, b"out");

    let markers: Vec<&ShellIntegrationMarker> = segments
        .iter()
        .filter_map(|s| match s {
            Segment::Marker(m) => Some(m),
            Segment::Visible(_) => None,
        })
        .collect();
    assert_eq!(markers.len(), 1);
    assert_eq!(markers[0].command.as_deref(), Some("ls #? explain"));
}

#[test]
fn incomplete_marker_buffer_is_capped_against_a_spurious_prefix() {
    let mut scanner = MarkerScanner::new();
    // A marker prefix that program output happened to emit, followed by a large
    // blob with no BEL terminator — the terminator may never come.
    let mut stream = MARKER_PREFIX.to_vec();
    stream.extend(std::iter::repeat_n(b'x', MAX_PENDING_MARKER_BYTES + 1_024));
    let segments = scanner.feed(&stream);

    // The bytes are flushed as literal output rather than held forever, and no
    // marker is fabricated from the unterminated prefix.
    let visible_len: usize = segments
        .iter()
        .map(|s| match s {
            Segment::Visible(bytes) => bytes.len(),
            Segment::Marker(_) => 0,
        })
        .sum();
    assert!(
        segments.iter().all(|s| matches!(s, Segment::Visible(_))),
        "no marker fabricated from an unterminated prefix"
    );
    assert!(
        visible_len >= MAX_PENDING_MARKER_BYTES,
        "buffered bytes flushed as visible output, got {visible_len}"
    );
    // The pending buffer did not grow without bound.
    assert!(
        scanner.pending_len() <= MARKER_PREFIX.len(),
        "scanner buffer stayed bounded, got {}",
        scanner.pending_len()
    );
}

#[test]
fn other_shells_get_no_integration() {
    let config = create_shell_launch_config("/bin/sh", &Vec::new(), Env::new(), DIR);
    assert_eq!(config.kind, None);
    assert!(config.args.is_empty());
}

#[test]
fn direct_command_keeps_user_arguments_verbatim() {
    let args = vec!["-i".to_string(), "--flag".to_string()];
    let config = create_shell_launch_config("/usr/bin/python3", &args, Env::new(), DIR);
    assert_eq!(config.kind, None);
    assert_eq!(config.command, "/usr/bin/python3");
    assert_eq!(config.args, args);
}

#[test]
fn explicit_shell_appends_user_arguments_after_integration() {
    let args = vec!["-l".to_string()];
    let config = create_shell_launch_config("/bin/zsh", &args, Env::new(), DIR);
    assert_eq!(config.kind, Some(ShellIntegrationKind::Zsh));
    assert_eq!(config.args, ["-i", "-l"]);
}

#[test]
fn zsh_integration_preserves_custom_zdotdir_and_writes_stage_files() {
    let env = env_of(&[("HOME", "/home/user"), ("ZDOTDIR", "/home/user/cfg/zsh")]);
    let config = create_shell_launch_config("/bin/zsh", &Vec::new(), env, DIR);

    assert_eq!(
        config.env.get("KOSHELL_USER_ZDOTDIR").map(String::as_str),
        Some("/home/user/cfg/zsh")
    );
    let zdotdir = config.env.get("ZDOTDIR").expect("ZDOTDIR set");
    assert_ne!(zdotdir, "/home/user/cfg/zsh");
    assert_eq!(zdotdir, DIR);
    for stage in [".zshenv", ".zprofile", ".zshrc"] {
        assert!(
            config.files.iter().any(|(name, text)| name == stage && !text.is_empty()),
            "missing stage file {stage}"
        );
    }
}

#[test]
fn zsh_integration_falls_back_to_home_for_user_zdotdir() {
    let env = env_of(&[("HOME", "/home/user")]);
    let config = create_shell_launch_config("/bin/zsh", &Vec::new(), env, DIR);
    assert_eq!(
        config.env.get("KOSHELL_USER_ZDOTDIR").map(String::as_str),
        Some("/home/user")
    );
}

#[test]
fn bash_is_launched_with_its_own_rc_file() {
    let env = env_of(&[("HOME", "/home/user")]);
    let args = vec!["-x".to_string()];
    let config = create_shell_launch_config("/bin/bash", &args, env, DIR);
    assert_eq!(config.kind, Some(ShellIntegrationKind::Bash));
    assert_eq!(config.command, "/bin/bash");
    let rc_path = &config.args[1];
    assert!(rc_path.starts_with(DIR));
    assert_eq!(config.args.last().map(String::as_str), Some("-x"));
    let name = &rc_path[DIR.len() + 1..];
    assert!(config.files.iter().any(|(file, _)| file == name));
}

#[test]
fn a_marker_survives_its_own_encoding() {
    for kind in [
        MarkerKind::CommandStart,
        MarkerKind::CommandEnd,
        MarkerKind::Cwd,
        MarkerKind::NewConversation,
        MarkerKind::ClearContext,
    ] {
        let marker = ShellIntegrationMarker {
            kind,
            command: Some("печать 'x' \"y\" \\".to_string()),
            exit_code: Some(-1),
            cwd: Some("/tmp".to_string()),
            executed: true,
        };
        assert_eq!(
            marker_from_fields(&marker_fields(&marker)).map(|m| m.kind),
            Some(kind)
        );
    }
}

#[test]
fn scanning_does_not_depend_on_how_output_is_chunked() {
    let marker = format_marker(&ShellIntegrationMarker {
        kind: MarkerKind::CommandStart,
        command: Some("ls".to_string()),
        exit_code: None,
        cwd: None,
        executed: true,
    });
    let mut stream = b"one\x1b[1m".to_vec();
    stream.extend_from_slice(&marker);
    stream.extend_from_slice(b"two\x1b]777;kosh");
    stream.extend_from_slice(&marker);
    let flat = |segments: Vec<Segment>| -> (Vec<u8>, usize) {
        let mut bytes = Vec::new();
        let mut markers = 0;
        for segment in segments {
            match segment {
                Segment::Visible(visible) => bytes.extend(visible),
                Segment::Marker(_) => markers += 1,
            }
        }
        (bytes, markers)
    };
    let mut whole = MarkerScanner::new();
    let expected = flat(whole.feed(&stream));
    assert_eq!(expected.1, 2);
    for size in 1..20 {
        let mut scanner = MarkerScanner::default();
        let mut segments = Vec::new();
        for chunk in stream.chunks(size) {
            segments.extend(scanner.feed(chunk));
        }
        assert_eq!(flat(segments), expected, "in chunks of {size}");
        assert_eq!(scanner.pending_len(), whole.pending_len());
    }
}

#[test]
fn a_framed_marker_holds_its_terminator_only_at_its_end() {
    let marker = ShellIntegrationMarker {
        kind: MarkerKind::CommandEnd,
        command: Some("printf '\u{7}\u{1b}]0;x\u{7}'\n".to_string()),
        exit_code: Some(-1),
        cwd: None,
        executed: false,
    };
    let framed = format_marker(&marker);
    assert_eq!(framed.iter().position(|&byte| byte == 0x07), Some(framed.len() - 1));
    let segments = MarkerScanner::new().feed(&framed);
    assert_eq!(segments, vec![Segment::Marker(marker)]);
}

// A line that holds nothing but a question runs no command, so the markers sent for it say
// so and the command history keeps no row of it.
#[test]
fn a_bare_question_is_not_reported_as_a_command() {
    for (shell, file) in [("/bin/bash", "bashrc"), ("/bin/zsh", ".zshrc")] {
        let config = create_shell_launch_config(shell, &Vec::new(), env_of(&[("HOME", "/h")]), DIR);
        let script = config
            .files
            .iter()
            .find(|(name, _)| name == file)
            .map(|(_, text)| text.clone())
            .unwrap_or_default();
        let branch = script
            .split("*'#?'*)")
            .nth(1)
            .and_then(|rest| rest.split(";;").next())
            .unwrap_or_default();
        assert!(branch.contains("__koshell_emit_comment"), "{branch}");
        assert!(!branch.contains("__koshell_emit_start"), "{branch}");
        assert!(!branch.contains("__koshell_emit_end"), "{branch}");
        let comment = script
            .split("__koshell_emit_comment() {")
            .nth(1)
            .and_then(|rest| rest.split("\n}").next())
            .unwrap_or_default();
        assert!(comment.contains("__koshell_emit_marker \"command_start\" \"$2\" \"\" 1"));
        assert!(comment.contains("__koshell_emit_marker \"command_end\" \"$2\" \"$1\" 1"));
        assert!(script.contains("',\"executed\":false'"));
    }
    let payload = BASE64.encode("{\"type\":\"command_start\",\"command\":\"#? why\",\"executed\":false}");
    let marker = parse_marker_payload(payload.as_bytes()).expect("a marker");
    assert!(!marker.executed);
    assert_eq!(marker.command.as_deref(), Some("#? why"));
}
