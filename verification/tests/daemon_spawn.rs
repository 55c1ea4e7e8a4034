use koshell::daemon_spawn::{
    cooldown_active, daemon_log_path, kill_switch_set, plan_candidates, resolve_plan, retry_pause,
    sh_quote, spawn_script, DaemonSpawner, SpawnPlan, DAEMON_BIN_NAME, SPAWN_COOLDOWN,
};
use koshell::env::Env;

fn env_of(pairs: &[(&str, &str)]) -> Env {
    let mut env = Env::new();
    for (key, value) in pairs {
        env.insert(key, value);
    }
    env
}

#[test]
fn sh_quote_wraps_and_escapes() {
    assert_eq!(sh_quote("plain"), "'plain'");
    assert_eq!(sh_quote("with space"), "'with space'");
    assert_eq!(sh_quote("it's"), "'it'\\''s'");
}

#[test]
fn env_command_beats_everything() {
    let env = env_of(&[("KOSHELL_DAEMON_CMD", "my-daemon --flag")]);
    let plan = resolve_plan(&env, None, &Vec::new()).expect("a plan");
    assert_eq!(plan.source, "env");
    assert_eq!(plan.command_line, "my-daemon --flag");
}

#[test]
fn empty_env_command_is_ignored() {
    let env = env_of(&[("KOSHELL_DAEMON_CMD", "")]);
    // No adjacent binary and no PATH for bun, so nothing resolves.
    assert!(resolve_plan(&env, None, &Vec::new()).is_none());
}

#[test]
fn adjacent_binary_beats_path() {
    let env = env_of(&[("PATH", "/opt/bin")]);
    let binary = format!("/opt/koshell/{DAEMON_BIN_NAME}");
    // PATH also has a daemon binary, but the adjacent one wins.
    let files = vec![format!("/opt/bin/{DAEMON_BIN_NAME}"), binary.clone()];
    let plan = resolve_plan(&env, Some("/opt/koshell"), &files).expect("a plan");
    assert_eq!(plan.source, "adjacent");
    assert_eq!(plan.command_line, sh_quote(&binary));
}

#[test]
fn path_binary_used_when_no_adjacent() {
    let env = env_of(&[("PATH", "/usr/bin:/opt/bin")]);
    let files = vec![format!("/opt/bin/{DAEMON_BIN_NAME}")];
    let plan = resolve_plan(&env, None, &files).expect("a plan");
    assert_eq!(plan.source, "path");
    assert!(plan.command_line.contains(DAEMON_BIN_NAME));
}

#[test]
fn nothing_resolves_without_env_adjacent_or_path() {
    let env = env_of(&[("PATH", "/empty")]);
    // No override, no adjacent binary, no binary on PATH.
    assert!(resolve_plan(&env, None, &Vec::new()).is_none());
}

#[test]
fn cooldown_blocks_a_second_attempt_within_the_window() {
    let start = 1_000;
    assert!(!cooldown_active(None, start));
    assert!(cooldown_active(Some(start), start + 10_000));
    assert!(!cooldown_active(Some(start), start + SPAWN_COOLDOWN + 1_000));
}

#[test]
fn the_kill_switch_disarms_the_spawner() {
    let plan = || {
        Some(SpawnPlan {
            command_line: "'d'".to_string(),
            source: "path",
        })
    };
    let off = env_of(&[("KOSHELL_NO_DAEMON_SPAWN", "1")]);
    assert!(kill_switch_set(&off));
    assert!(DaemonSpawner::new(&off, plan()).plan().is_none());
    assert!(!DaemonSpawner::new(&off, plan()).try_spawn(0));

    let mut spawner = DaemonSpawner::new(&env_of(&[]), plan());
    assert_eq!(spawner.plan().unwrap().source, "path");
    assert!(spawner.try_spawn(5));
    assert!(!spawner.try_spawn(6));
    assert!(spawner.try_spawn(5 + SPAWN_COOLDOWN));
}

#[test]
fn the_spawn_script_detaches_the_daemon() {
    let plan = SpawnPlan {
        command_line: "my-daemon --flag".to_string(),
        source: "env",
    };
    assert_eq!(
        spawn_script(&plan, "/var/it's.log"),
        "exec my-daemon --flag </dev/null >>'/var/it'\\''s.log' 2>&1 &"
    );
}

#[test]
fn candidates_start_next_to_the_executable() {
    let env = env_of(&[("PATH", "/a")]);
    assert_eq!(
        plan_candidates(&env, Some("/k")),
        vec!["/k/koshell-ai-daemon", "/a/koshell-ai-daemon"]
    );
}

#[test]
fn the_daemon_log_lies_in_the_state_directory() {
    assert_eq!(
        daemon_log_path(&env_of(&[("HOME", "/home/user")])).as_deref(),
        Some("/home/user/.local/state/koshell/daemon.log")
    );
    assert_eq!(daemon_log_path(&env_of(&[])), None);
}

#[test]
fn connecting_is_retried_within_a_second() {
    assert_eq!(retry_pause(0), Some(50));
    assert_eq!(retry_pause(999), Some(50));
    assert_eq!(retry_pause(1_000), None);
}
