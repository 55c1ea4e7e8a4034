use koshell::control_cli::{inside_live_koshell, Control};
use koshell::env::Env;
use koshell::markers::{
    format_marker, parse_marker_payload, MarkerKind, ShellIntegrationMarker, MARKER_PREFIX,
    MARKER_SUFFIX,
};

fn env_of(pairs: &[(&str, &str)]) -> Env {
    let mut env = Env::new();
    for (key, value) in pairs {
        env.insert(key, value);
    }
    env
}

#[test]
fn outside_koshell_is_refused_without_touching_the_terminal() {
    assert!(!inside_live_koshell(&env_of(&[]), Some("/dev/pts/3"), true));
    // A brand naming another terminal (the tmux-pane shape) is not this terminal's
    // koshell either: that pane's own koshell is the one that would answer.
    assert!(!inside_live_koshell(
        &env_of(&[("KOSHELL", "koshell-1,/dev/pts/999")]),
        Some("/dev/pts/3"),
        true
    ));
}

#[test]
fn the_coarse_brand_is_enough_to_address_the_wrapper() {
    // Without a tty field koshell could not brand the child pts, but the marker still
    // reaches whoever owns /dev/tty — the same fallback the nested guard takes.
    assert!(inside_live_koshell(
        &env_of(&[("KOSHELL", "koshell-1")]),
        Some("/dev/pts/3"),
        false
    ));
}

#[test]
fn each_control_emits_its_own_parseable_marker() {
    for (control, kind) in [
        (Control::NewConversation, MarkerKind::NewConversation),
        (Control::ClearContext, MarkerKind::ClearContext),
    ] {
        let bytes = format_marker(&ShellIntegrationMarker {
            kind: control.marker_kind(),
            command: None,
            exit_code: None,
            cwd: None,
            executed: true,
        });
        assert!(bytes.starts_with(&MARKER_PREFIX));
        assert_eq!(*bytes.last().unwrap(), MARKER_SUFFIX);
        let payload = &bytes[MARKER_PREFIX.len()..bytes.len() - 1];
        let parsed = parse_marker_payload(payload).expect("the wrapper can parse it");
        assert_eq!(parsed.kind, kind);
        assert!(parsed.kind.is_control());
    }
}

#[test]
fn a_request_is_the_marker_itself() {
    for control in [Control::NewConversation, Control::ClearContext] {
        let bytes = control.request();
        assert!(bytes.starts_with(&MARKER_PREFIX));
        let payload = &bytes[MARKER_PREFIX.len()..bytes.len() - 1];
        let parsed = parse_marker_payload(payload).expect("a marker");
        assert_eq!(parsed.kind, control.marker_kind());
    }
}

#[test]
fn a_refusal_names_the_command() {
    let lines = Control::ClearContext.refusal();
    assert_eq!(
        lines[0],
        "koshell clear needs a koshell-wrapped terminal: no live koshell owns this one."
    );
    assert!(Control::NewConversation.refusal()[0].starts_with("koshell new "));
    assert_eq!(Control::NewConversation.command(), "koshell new");
    assert_eq!(
        Control::ClearContext.failure("no tty"),
        "koshell clear could not reach koshell: no tty"
    );
}
