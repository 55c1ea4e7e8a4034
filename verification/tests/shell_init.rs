use koshell::cli::InitShell;
use koshell::shell_init::snippet;

#[test]
fn the_snippet_execs_into_koshell_and_can_be_turned_off() {
    for shell in [InitShell::Bash, InitShell::Zsh] {
        let text = snippet(shell);
        assert!(text.starts_with("case $- in\n  *i*)"));
        assert!(text.contains("exec koshell\n"));
        assert!(text.contains("koshell preflight"));
        for guard in [
            "[ -t 0 ]",
            "[ -t 1 ]",
            "!= dumb",
            "${KOSHELL_NO_AUTO:-}",
            ".config/koshell/no-auto",
        ] {
            assert!(text.contains(guard), "missing {guard}");
        }
    }
}

#[test]
fn the_snippet_passes_over_relative_directories() {
    let text = snippet(InitShell::Zsh);
    for name in ["HOME", "XDG_CACHE_HOME", "XDG_RUNTIME_DIR"] {
        let test = format!("case \"${{{name}:-}}\" in\n            /*) __koshell_dir=\"${name}");
        assert!(text.contains(&test), "{name}");
    }
    assert!(text.contains("*) __koshell_dir=/.cache ;;"));
}
