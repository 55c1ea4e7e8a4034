use koshell::env::Env;
use koshell::logging::{log_file_path, resolve_filter, state_dir};

fn env_of(pairs: &[(&str, &str)]) -> Env {
    let mut env = Env::new();
    for (key, value) in pairs {
        env.insert(key, value);
    }
    env
}

fn resolve_state_dir(xdg: Option<&str>, home: Option<&str>) -> Option<String> {
    let mut env = Env::new();
    if let Some(value) = xdg {
        env.insert("XDG_STATE_HOME", value);
    }
    if let Some(value) = home {
        env.insert("HOME", value);
    }
    state_dir(&env)
}

#[test]
fn cli_level_wins_over_default() {
    assert_eq!(resolve_filter(Some("debug"), &env_of(&[])), "debug");
    // With no CLI level the filter is the env value or the default; both are
    // non-empty either way.
    assert!(!resolve_filter(None, &env_of(&[])).is_empty());
    assert_eq!(resolve_filter(None, &env_of(&[])), "warn");
    assert_eq!(
        resolve_filter(None, &env_of(&[("KOSHELL_LOG", "trace")])),
        "trace"
    );
    assert_eq!(
        resolve_filter(Some("info"), &env_of(&[("KOSHELL_LOG", "trace")])),
        "info"
    );
}

#[test]
fn log_path_is_under_a_koshell_state_directory() {
    let path = log_file_path(&env_of(&[("HOME", "/home/user")]))
        .expect("a state directory under the test HOME");
    assert!(path.ends_with("koshell/koshell.log"));
}

#[test]
fn xdg_state_home_wins_and_home_is_the_fallback() {
    assert_eq!(
        resolve_state_dir(Some("/xdg/state"), Some("/home/user")).as_deref(),
        Some("/xdg/state/koshell")
    );
    // Unset and blank both fall through to HOME, matching the other XDG readers.
    for blank in [None, Some(""), Some("   ")] {
        assert_eq!(
            resolve_state_dir(blank, Some("/home/user")).as_deref(),
            Some("/home/user/.local/state/koshell"),
            "XDG_STATE_HOME={blank:?} should fall back to HOME"
        );
    }
}

// A relative base would resolve against the current working directory, and koshell's
// cwd follows the inner shell's `cd`, so the log would land in whatever project
// directory the user was in. No path is the correct answer, not a relative one.
#[test]
fn a_relative_or_absent_base_yields_no_state_directory() {
    assert_eq!(resolve_state_dir(None, None), None);
    for blank in [Some(""), Some("   ")] {
        assert_eq!(resolve_state_dir(None, blank), None, "HOME={blank:?}");
    }
    assert_eq!(resolve_state_dir(Some("relative/state"), None), None);
    assert_eq!(
        resolve_state_dir(Some(".local/state"), Some("/home/user")),
        None,
        "a relative XDG_STATE_HOME is not rescued by an absolute HOME: it was chosen"
    );
    assert_eq!(resolve_state_dir(None, Some("relative/home")), None);
}
