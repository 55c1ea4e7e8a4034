use koshell::env::Env;
use koshell::ipc::{
    current_session_id, default_socket_path, fate_of_line, hello, line_fate, runtime_dir, session_id,
    LineFate,
};
use koshell::proto::{ClientMessage, CAPABILITY_COMMAND_OUTPUT_TOOLS_V1, PROTOCOL_VERSION};

fn env_of(pairs: &[(&str, &str)]) -> Env {
    let mut env = Env::new();
    for (key, value) in pairs {
        env.insert(key, value);
    }
    env
}

#[test]
fn the_runtime_directory_follows_the_xdg_precedence() {
    assert_eq!(
        runtime_dir(&env_of(&[
            ("XDG_RUNTIME_DIR", "/run/user/1000"),
            ("XDG_CACHE_HOME", "/cache"),
            ("HOME", "/home/user"),
        ])),
        "/run/user/1000/koshell"
    );
    // Empty is treated as unset at every step, so the chain keeps falling through.
    assert_eq!(
        runtime_dir(&env_of(&[
            ("XDG_RUNTIME_DIR", ""),
            ("XDG_CACHE_HOME", "/cache"),
            ("HOME", "/home/user"),
        ])),
        "/cache/koshell"
    );
    assert_eq!(
        runtime_dir(&env_of(&[("HOME", "/home/user")])),
        "/home/user/.cache/koshell"
    );
}

// The socket and the per-tty liveness markers hang off this directory and must mean the
// same thing in two processes whose cwd moves independently, so a relative path is never
// an acceptable answer.
#[test]
fn the_runtime_directory_is_always_absolute() {
    // Under every environment: unset, empty, blank, relative and absolute values alike.
    let values = ["", "   ", "run", "./run", "../run", "~", "/", "/run"];
    for runtime in values {
        for cache in values {
            for home in values {
                let env = env_of(&[
                    ("XDG_RUNTIME_DIR", runtime),
                    ("XDG_CACHE_HOME", cache),
                    ("HOME", home),
                ]);
                let path = runtime_dir(&env);
                assert!(path.starts_with('/'), "{path:?} must be absolute");
            }
        }
    }
    // A missing or blank HOME with no XDG override matches the shell snippet's literal
    // `$HOME/.cache`, rooted at `/`.
    for env in [
        env_of(&[]),
        env_of(&[("HOME", "")]),
        env_of(&[("HOME", "   ")]),
    ] {
        let path = runtime_dir(&env);
        assert!(path.starts_with('/'), "{path:?} must be absolute");
        assert_eq!(path, "/.cache/koshell");
    }
}

#[test]
fn a_relative_base_counts_as_unset() {
    let relative = [
        ("XDG_RUNTIME_DIR", "run"),
        ("XDG_CACHE_HOME", "./cache"),
        ("HOME", "home"),
    ];
    assert_eq!(runtime_dir(&env_of(&relative)), "/.cache/koshell");
    assert_eq!(
        runtime_dir(&env_of(&[relative[0], relative[1], ("HOME", "/home/user")])),
        "/home/user/.cache/koshell"
    );
    assert_eq!(
        runtime_dir(&env_of(&[relative[0], ("XDG_CACHE_HOME", "/cache"), relative[2]])),
        "/cache/koshell"
    );
}

#[test]
fn the_socket_lies_in_the_runtime_directory() {
    assert_eq!(
        default_socket_path(&env_of(&[("XDG_RUNTIME_DIR", "/run/user/1000")])),
        "/run/user/1000/koshell/daemon.sock"
    );
}

#[test]
fn a_session_is_named_after_its_process() {
    assert_eq!(session_id(4821), "koshell-4821");
    assert_eq!(
        current_session_id(&env_of(&[("KOSHELL", "koshell-7,/dev/pts/1")])).as_deref(),
        Some("koshell-7")
    );
    assert_eq!(current_session_id(&env_of(&[("KOSHELL", "")])), None);
    assert_eq!(current_session_id(&env_of(&[])), None);
}

#[test]
fn hello_names_the_session_and_its_capabilities() {
    assert_eq!(
        hello(7, "/tmp".to_string(), "/bin/zsh".to_string(), 24, 80),
        ClientMessage::Hello {
            protocol_version: PROTOCOL_VERSION,
            terminal_session_id: "koshell-7".to_string(),
            cwd: "/tmp".to_string(),
            shell: "/bin/zsh".to_string(),
            rows: 24,
            cols: 80,
            capabilities: vec![CAPABILITY_COMMAND_OUTPUT_TOOLS_V1.to_string()],
        }
    );
}

#[test]
fn unknown_messages_are_skipped_and_garbage_fails() {
    assert_eq!(line_fate(true, true), LineFate::Deliver);
    assert_eq!(line_fate(false, true), LineFate::Skip);
    assert_eq!(line_fate(false, false), LineFate::Fail);
}

// A newer daemon may send message types this terminal does not know.
#[test]
fn recv_skips_unknown_message_types_and_reads_eof() {
    let unknown = "{\"type\":\"brand_new_thing\",\"payload\":1}\n";
    let known = "{\"type\":\"ack\",\"request_id\":\"r1\"}\n";
    assert_eq!(fate_of_line(false, unknown), LineFate::Skip);
    assert_eq!(fate_of_line(true, known), LineFate::Deliver);
    // The line break at the end is no part of the text; one within it is.
    assert_eq!(fate_of_line(false, "null \r\n"), LineFate::Skip);
    assert_eq!(fate_of_line(false, "{\"a\":1}\n{\"b\":2}"), LineFate::Fail);
}

#[test]
fn recv_rejects_non_json_lines() {
    assert_eq!(fate_of_line(false, "not json at all\n"), LineFate::Fail);
    assert_eq!(fate_of_line(false, "\n"), LineFate::Fail);
    assert_eq!(fate_of_line(false, "{\"type\":"), LineFate::Fail);
}
