use koshell::env::Env;
use koshell::ipc::session_id;
use koshell::shell::{
    assert_not_nested_koshell, branded_tty, command_candidates, create_pty_env,
    is_nested_koshell, koshell_env_value, koshell_session_id, koshell_tty, marker_owner,
    plan_session, recorded_version, resolve_command, resolve_executable, resolve_shell,
    session_candidates, shell_candidates, tty_marker_path, tty_version_path, ResolveError,
    SessionPlan, StartRefusal, FALLBACK_PATH,
};

const FALLBACK_SHELLS: [&str; 6] = [
    "/bin/zsh",
    "/bin/bash",
    "/bin/sh",
    "/usr/bin/zsh",
    "/usr/bin/bash",
    "/usr/bin/sh",
];

fn env_of(pairs: &[(&str, &str)]) -> Env {
    let mut env = Env::new();
    for (key, value) in pairs {
        env.insert(key, value);
    }
    env
}

/// What the tests take for executable.
fn executables() -> Vec<String> {
    vec!["/bin/sh".to_string()]
}

#[test]
fn create_pty_env_sets_marker_and_keeps_empty_values() {
    let source = env_of(&[("PATH", "/custom/bin"), ("EMPTY", ""), ("FOO", "bar")]);
    let env = create_pty_env(&source, &session_id(4821));
    // The base marker is the session id (field 0); no tty field yet — session.rs
    // adds it once the child pts is known.
    assert_eq!(
        env.get("KOSHELL").map(String::as_str),
        Some(session_id(4821).as_str())
    );
    assert!(
        !env.get("KOSHELL").unwrap().contains(','),
        "no tty field in the base value"
    );
    assert_eq!(env.get("PATH").map(String::as_str), Some("/custom/bin"));
    assert_eq!(env.get("EMPTY").map(String::as_str), Some(""));
    assert_eq!(env.get("FOO").map(String::as_str), Some("bar"));
}

#[test]
fn create_pty_env_replaces_empty_path_with_fallback() {
    let env = create_pty_env(&env_of(&[("PATH", "   ")]), "koshell-1");
    assert_eq!(env.get("PATH").map(String::as_str), Some(FALLBACK_PATH));

    let env_missing = create_pty_env(&env_of(&[]), "koshell-1");
    assert_eq!(
        env_missing.get("PATH").map(String::as_str),
        Some(FALLBACK_PATH)
    );
}

#[test]
fn nested_detection() {
    let tty = Some("/dev/pts/3");
    let live = true;
    let dead = false;

    // Fallback (KOSHELL has no tty field): mere presence is nested; liveness ignored.
    assert!(!is_nested_koshell(&env_of(&[]), tty, dead));
    assert!(!is_nested_koshell(&env_of(&[("KOSHELL", "")]), tty, dead));
    assert!(is_nested_koshell(
        &env_of(&[("KOSHELL", "koshell-1")]),
        tty,
        dead
    ));
    assert!(is_nested_koshell(
        &env_of(&[("KOSHELL", "koshell-1")]),
        None,
        dead
    ));
    // A comma-less legacy value is still a valid presence marker.
    assert!(is_nested_koshell(&env_of(&[("KOSHELL", "1")]), tty, dead));

    // Primary (KOSHELL carries a tty field): tty-scoped AND liveness-gated.
    // Same tty + live koshell → nested (the inner shell / a subshell).
    assert!(is_nested_koshell(
        &env_of(&[("KOSHELL", "koshell-1,/dev/pts/3")]),
        tty,
        live
    ));
    // Same tty but a *dead* marker (recycled pts) → not nested → wraps.
    assert!(!is_nested_koshell(
        &env_of(&[("KOSHELL", "koshell-1,/dev/pts/3")]),
        tty,
        dead
    ));
    // A tmux pane inherits the brand but runs on a different tty → not nested,
    // regardless of liveness.
    assert!(!is_nested_koshell(
        &env_of(&[("KOSHELL", "koshell-1,/dev/pts/3")]),
        Some("/dev/pts/8"),
        live
    ));
    // No current tty can never match a branded tty.
    assert!(!is_nested_koshell(
        &env_of(&[("KOSHELL", "koshell-1,/dev/pts/3")]),
        None,
        live
    ));
    // An empty tty field is treated as absent (falls back to presence → nested).
    assert!(is_nested_koshell(
        &env_of(&[("KOSHELL", "koshell-1,")]),
        tty,
        dead
    ));
}

#[test]
fn koshell_env_value_round_trips() {
    let value = koshell_env_value("koshell-4821", "/dev/pts/3");
    assert_eq!(value, "koshell-4821,/dev/pts/3");
    assert_eq!(koshell_session_id(&value), Some("koshell-4821"));
    assert_eq!(koshell_tty(&value), Some("/dev/pts/3"));
    // Base (no tty) form.
    assert_eq!(koshell_session_id("koshell-4821"), Some("koshell-4821"));
    assert_eq!(koshell_tty("koshell-4821"), None);
    assert_eq!(koshell_tty("koshell-4821,"), None);
    assert_eq!(koshell_session_id(""), None);
}

#[test]
fn tty_marker_path_escapes_the_tty() {
    assert!(
        tty_marker_path(&env_of(&[]), "/dev/pts/3").ends_with("tty/_dev_pts_3"),
        "the marker path escapes slashes so it is a single path component"
    );
}

#[test]
fn assert_not_nested_uses_liveness() {
    // Coarse fallback (no tty field) still trips regardless of tty.
    assert!(
        assert_not_nested_koshell(
            &env_of(&[("KOSHELL", "koshell-1")]),
            Some("/dev/pts/3"),
            false
        )
            .is_err()
    );
    // A branded tty different from ours is never nested (short-circuits before the
    // liveness derivation, so no marker file is needed).
    assert!(
        assert_not_nested_koshell(
            &env_of(&[("KOSHELL", "koshell-1,/dev/pts/3")]),
            Some("/dev/pts/8"),
            true
        )
        .is_ok()
    );
    // Not inside koshell at all.
    assert!(assert_not_nested_koshell(&env_of(&[]), Some("/dev/pts/3"), false).is_ok());
    // The same tty depends on whether its marker is live.
    let same = env_of(&[("KOSHELL", "koshell-1,/dev/pts/3")]);
    assert!(assert_not_nested_koshell(&same, Some("/dev/pts/3"), false).is_ok());
    let error = assert_not_nested_koshell(&same, Some("/dev/pts/3"), true).unwrap_err();
    assert!(error.message().contains("already running"));
}

#[test]
fn resolve_executable_absolute_and_relative() {
    // /bin/sh exists and is executable on macOS and Linux.
    assert_eq!(
        resolve_executable("/bin/sh", None, &executables()).as_deref(),
        Some("/bin/sh")
    );
    assert_eq!(resolve_executable("/bin/definitely-not-here", None, &executables()), None);
    assert_eq!(
        resolve_executable("sh", Some(&"/bin".to_string()), &executables()).as_deref(),
        Some("/bin/sh")
    );
}

#[test]
fn resolve_command_resolves_and_reports_missing() {
    assert_eq!(resolve_command("/bin/sh", &env_of(&[]), &executables()).unwrap(), "/bin/sh");
    assert_eq!(
        resolve_command("sh", &env_of(&[("PATH", "/bin")]), &executables()).unwrap(),
        "/bin/sh"
    );
    let error = resolve_command("definitely-not-here", &env_of(&[]), &executables()).unwrap_err();
    assert!(error.message().contains("definitely-not-here"));
    assert!(resolve_command("   ", &env_of(&[]), &executables()).is_err());
}

#[test]
fn resolve_shell_prefers_configured_then_fallback() {
    assert_eq!(
        resolve_shell(&env_of(&[("SHELL", "/bin/sh")]), &executables()).unwrap(),
        "/bin/sh"
    );
    // Empty SHELL falls back to the first available fallback shell.
    let resolved = resolve_shell(&env_of(&[("SHELL", "")]), &executables()).unwrap();
    assert!(FALLBACK_SHELLS.contains(&resolved.as_str()));
}

#[test]
fn a_marker_names_its_owner() {
    assert_eq!(marker_owner(Some(" 4821\n")), Some(4821));
    assert_eq!(marker_owner(Some("not-a-pid")), None);
    assert_eq!(marker_owner(Some("")), None);
    assert_eq!(marker_owner(None), None);
}

#[test]
fn the_branded_tty_is_read_from_the_environment() {
    let env = env_of(&[("KOSHELL", "koshell-1,/dev/pts/3")]);
    assert_eq!(branded_tty(&env), Some("/dev/pts/3"));
    assert_eq!(branded_tty(&env_of(&[("KOSHELL", "koshell-1")])), None);
    assert_eq!(branded_tty(&env_of(&[])), None);
}

#[test]
fn the_marker_lies_below_the_runtime_directory() {
    let env = env_of(&[("XDG_RUNTIME_DIR", "/run/user/1000")]);
    assert_eq!(
        tty_marker_path(&env, "/dev/pts/3"),
        "/run/user/1000/koshell/tty/_dev_pts_3"
    );
}

#[test]
fn candidates_follow_the_path() {
    assert_eq!(
        command_candidates("vi", Some(&"/a:/b".to_string())),
        vec!["/a/vi", "/b/vi"]
    );
    assert_eq!(
        command_candidates("vi", None),
        vec!["/usr/bin/vi", "/bin/vi", "/usr/sbin/vi", "/sbin/vi"]
    );
    assert_eq!(shell_candidates(&env_of(&[])), FALLBACK_SHELLS.to_vec());
}

#[test]
fn a_missing_shell_says_what_was_configured() {
    let none: Vec<String> = Vec::new();
    let error = resolve_shell(&env_of(&[("SHELL", "/opt/sh")]), &none).unwrap_err();
    assert_eq!(error, ResolveError::NoShell(Some("/opt/sh".to_string())));
    assert_eq!(
        error.message(),
        "No executable shell found. SHELL was \"/opt/sh\"."
    );
    let unset = resolve_shell(&env_of(&[]), &none).unwrap_err();
    assert_eq!(
        unset.message(),
        "No executable shell found. SHELL was unset or empty."
    );
    assert_eq!(
        resolve_command("", &env_of(&[]), &none).unwrap_err(),
        ResolveError::EmptyCommand
    );
}

fn words(command: &[&str]) -> Vec<String> {
    command.iter().map(|word| word.to_string()).collect()
}

#[test]
fn a_session_runs_the_shell_or_the_requested_command() {
    let env = env_of(&[("SHELL", "/opt/fish"), ("PATH", "/one:/two")]);
    assert_eq!(session_candidates(&words(&[]), &env), shell_candidates(&env));
    let found = words(&["/bin/sh", "/opt/fish"]);
    assert_eq!(
        plan_session(&words(&[]), &env, None, false, true, &found),
        Ok(SessionPlan { shell: "/opt/fish".to_string(), args: Vec::new() })
    );
    let command = words(&[" top ", "-n", "1"]);
    assert_eq!(session_candidates(&command, &env), words(&["/one/top", "/two/top"]));
    assert_eq!(
        plan_session(&command, &env, None, false, true, &words(&["/two/top"])),
        Ok(SessionPlan { shell: "/two/top".to_string(), args: words(&["-n", "1"]) })
    );
}

#[test]
fn a_start_is_refused_in_order() {
    let env = env_of(&[("KOSHELL", "koshell-1,/dev/pts/3"), ("SHELL", "/opt/fish")]);
    let none = Vec::new();
    let plan = |command: &[&str], live, interactive| {
        plan_session(&words(command), &env, Some("/dev/pts/3"), live, interactive, &none)
    };
    // A nested start, before a missing terminal, before a missing program.
    assert_eq!(plan(&[], true, false), Err(StartRefusal::Nested));
    assert_eq!(plan(&[" "], false, false), Err(StartRefusal::NotInteractive));
    assert_eq!(
        plan(&[" "], false, true),
        Err(StartRefusal::Unresolved(ResolveError::EmptyCommand))
    );
    assert_eq!(
        plan(&[" top", "x"], false, true),
        Err(StartRefusal::Unresolved(ResolveError::NotFound("top".to_string())))
    );
    assert_eq!(
        plan(&[], false, true),
        Err(StartRefusal::Unresolved(ResolveError::NoShell(Some("/opt/fish".to_string()))))
    );
}

#[test]
fn a_refused_start_says_why() {
    assert_eq!(
        StartRefusal::Nested.message(),
        "koshell is already running in this shell. Start a new regular terminal session before launching koshell again."
    );
    assert_eq!(
        StartRefusal::NotInteractive.message(),
        "koshell must be started from an interactive TTY."
    );
    assert_eq!(
        StartRefusal::Unresolved(ResolveError::NotFound("top".to_string())).message(),
        "Command not found: top"
    );
}

#[test]
fn a_version_is_recorded_beside_the_marker() {
    let env = env_of(&[("XDG_RUNTIME_DIR", "/run/user/7")]);
    assert_eq!(
        tty_version_path(&env, "/dev/pts/3"),
        format!("{}.version", tty_marker_path(&env, "/dev/pts/3"))
    );
    assert_eq!(recorded_version(Some(" 1.2.3\n")), Some("1.2.3".to_string()));
    assert_eq!(recorded_version(Some(" \n")), None);
    assert_eq!(recorded_version(Some("")), None);
    assert_eq!(recorded_version(None), None);
}
