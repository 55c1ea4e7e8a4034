//! `koshell status`: reports the current koshell instance's state: its daemon
//! connection, conversation, and active model, plus a daemon summary. Routed by the
//! session id in `KOSHELL`, so it must be run from inside a koshell shell.

use crate::daemon_cli;
use crate::daemon_cli::{counted, format_uptime, led, push_line, Probe, Report};
use crate::env;
use crate::env::Env;
use crate::ipc::current_session_id;
use crate::proto::ServerMessage;
use crate::shell;
use crate::shell::branded_tty;
use crate::text;
use vstd::prelude::*;

verus! {

/// How long to wait for the daemon's reply, in milliseconds.
pub const STATUS_TIMEOUT: u64 = 1_000;

/// The session id that the environment names.
pub open spec fn session_in(vars: Map<Seq<char>, Seq<char>>) -> Option<Seq<char>> {
    match env::value_in(vars, "KOSHELL"@) {
        Some(value) => shell::session_field(value),
        None => None,
    }
}

/// The head of the report: the instance, and the terminal it wraps where that is known.
pub open spec fn head_lines(session_id: Seq<char>, vars: Map<Seq<char>, Seq<char>>) -> Seq<
    Seq<char>,
> {
    let value = env::value_in(vars, "KOSHELL"@);
    let head = seq!["koshell instance: "@ + session_id];
    if value is Some && shell::tty_field(value->0) is Some {
        head.push("  tty:          "@ + shell::tty_field(value->0)->0)
    } else {
        head
    }
}

/// A line that is there only where there is a text for it.
pub open spec fn told_line(lead: Seq<char>, value: Option<Seq<char>>) -> Seq<Seq<char>> {
    match value {
        Some(v) => seq![lead + v],
        None => seq![],
    }
}

/// The lines of the instance itself.
pub open spec fn instance_lines(
    known: bool,
    cwd: Option<Seq<char>>,
    shell: Option<Seq<char>>,
    model: Option<Seq<char>>,
    conversation: bool,
) -> Seq<Seq<char>> {
    told_line("  cwd:          "@, cwd) + told_line("  shell:        "@, shell) + seq![
        "  model:        "@ + (match model {
            Some(m) => m,
            None => "—"@,
        }),
        "  conversation: "@ + (if conversation {
            "active"@
        } else {
            "none"@
        }),
    ] + (if known {
        seq![]
    } else {
        seq!["  (no conversation yet on this instance — run a `#?` to start one)"@]
    })
}

/// The lines of the daemon behind it.
pub open spec fn daemon_lines(
    pid: u32,
    version: Seq<char>,
    protocol_version: u32,
    uptime_ms: u64,
    connections: u32,
) -> Seq<Seq<char>> {
    seq![
        "  daemon:"@,
        "    pid:          "@ + text::decimal(pid as nat),
        "    version:      "@ + version,
        "    protocol:     v"@ + text::decimal(protocol_version as nat),
        "    uptime:       "@ + daemon_cli::uptime_text(uptime_ms),
        "    connections:  "@ + text::decimal(connections as nat),
    ]
}

/// The rest of the report, from the daemon's reply.
pub open spec fn reply_lines(reply: ServerMessage) -> Seq<Seq<char>> {
    match reply {
        ServerMessage::InstanceStatus {
            known,
            cwd,
            shell,
            model,
            conversation,
            daemon_pid,
            uptime_ms,
            version,
            protocol_version,
            connections,
            ..
        } => instance_lines(
            known,
            text::opt_text(cwd),
            text::opt_text(shell),
            text::opt_text(model),
            conversation,
        ) + daemon_lines(daemon_pid, version@, protocol_version, uptime_ms, connections),
        _ => seq![],
    }
}

/// What to print where this is no koshell session.
pub const NOT_INSIDE: &'static str =
    "not inside a koshell session; run `koshell daemon status` for the daemon itself.";

/// What to print where the daemon does not know the question.
pub const NO_ANSWER: &'static str =
    "  the AI daemon did not answer the status request — it likely predates `koshell status`. Restart it with `koshell daemon restart`.";

/// Begins the report: the session id to ask for and the first lines, or `None` where
/// this is no koshell session.
pub fn status_head(vars: &Env) -> (r: Option<(String, Vec<String>)>)
    ensures
        match session_in(vars@) {
            Some(id) => r is Some && (r->0).0@ == id && text::texts((r->0).1@) == head_lines(
                id,
                vars@,
            ),
            None => r is None,
        },
{
    let session_id = match current_session_id(vars) {
        Some(id) => id,
        None => {
            return None;
        },
    };
    let mut lines: Vec<String> = Vec::new();
    push_line(&mut lines, led("koshell instance: ", session_id.as_str()));
    assert(text::texts(lines@) =~= seq!["koshell instance: "@ + session_id@]);
    if let Some(tty) = branded_tty(vars) {
        push_line(&mut lines, led("  tty:          ", tty));
    }
    Some((session_id, lines))
}

fn push_told(lines: &mut Vec<String>, lead: &str, value: &Option<String>)
    ensures
        text::texts(final(lines)@) == text::texts(old(lines)@) + told_line(
            lead@,
            text::opt_text(*value),
        ),
{
    if let Some(v) = value {
        push_line(lines, led(lead, v.as_str()));
    }
    assert(text::texts(lines@) =~= text::texts(old(lines)@) + told_line(
        lead@,
        text::opt_text(*value),
    ));
}

fn push_instance(
    lines: &mut Vec<String>,
    known: bool,
    cwd: &Option<String>,
    shell: &Option<String>,
    model: &Option<String>,
    conversation: bool,
)
    ensures
        text::texts(final(lines)@) == text::texts(old(lines)@) + instance_lines(
            known,
            text::opt_text(*cwd),
            text::opt_text(*shell),
            text::opt_text(*model),
            conversation,
        ),
{
    push_told(lines, "  cwd:          ", cwd);
    push_told(lines, "  shell:        ", shell);
    let model_text = match model {
        Some(m) => m.as_str(),
        None => "—",
    };
    push_line(lines, led("  model:        ", model_text));
    let conversation_text = if conversation {
        "active"
    } else {
        "none"
    };
    push_line(lines, led("  conversation: ", conversation_text));
    if !known {
        push_line(
            lines,
            "  (no conversation yet on this instance — run a `#?` to start one)".to_owned(),
        );
    }
    assert(text::texts(lines@) =~= text::texts(old(lines)@) + instance_lines(
        known,
        text::opt_text(*cwd),
        text::opt_text(*shell),
        text::opt_text(*model),
        conversation,
    ));
}

fn numbered(lead: &str, n: u64) -> (r: String)
    ensures
        r@ == lead@ + text::decimal(n as nat),
{
    proof {
        reveal_strlit("");
    }
    let r = counted(lead, n, "");
    assert(r@ =~= lead@ + text::decimal(n as nat));
    r
}

fn push_daemon(
    lines: &mut Vec<String>,
    pid: u32,
    version: &str,
    protocol_version: u32,
    uptime_ms: u64,
    connections: u32,
)
    ensures
        text::texts(final(lines)@) == text::texts(old(lines)@) + daemon_lines(
            pid,
            version@,
            protocol_version,
            uptime_ms,
            connections,
        ),
{
    push_line(lines, "  daemon:".to_owned());
    push_line(lines, numbered("    pid:          ", pid as u64));
    push_line(lines, led("    version:      ", version));
    push_line(lines, numbered("    protocol:     v", protocol_version as u64));
    push_line(lines, led("    uptime:       ", format_uptime(uptime_ms).as_str()));
    push_line(lines, numbered("    connections:  ", connections as u64));
    assert(text::texts(lines@) =~= text::texts(old(lines)@) + daemon_lines(
        pid,
        version@,
        protocol_version,
        uptime_ms,
        connections,
    ));
}

/// What to print where no daemon is running.
pub const NOT_RUNNING: &'static str = "  daemon:       not running";

/// Ends the report of an instance, from the daemon's reachability and its reply where it
/// was asked. Returns the exit code beside what to print.
pub fn status_report(probe: Probe, reply: &Option<ServerMessage>) -> (r: (Report, i32))
    ensures
        probe !is Alive ==> r.1 == 1 && r.0@ == daemon_cli::says(seq![NOT_RUNNING@]),
        probe is Alive ==> match *reply {
            Some(m) => if m is InstanceStatus {
                r.1 == 0 && r.0@ == daemon_cli::says(reply_lines(m))
            } else {
                r.1 == 1 && r.0@ == daemon_cli::complains(seq![NO_ANSWER@])
            },
            None => r.1 == 1 && r.0@ == daemon_cli::complains(seq![NO_ANSWER@]),
        },
{
    if probe != Probe::Alive {
        let mut lines: Vec<String> = Vec::new();
        push_line(&mut lines, NOT_RUNNING.to_owned());
        let report = Report { out: lines, err: Vec::new() };
        assert(report@ =~= daemon_cli::says(seq![NOT_RUNNING@]));
        return (report, 1);
    }
    match reply {
        Some(
            ServerMessage::InstanceStatus {
                known,
                session_id: _,
                cwd,
                shell,
                model,
                conversation,
                daemon_pid,
                uptime_ms,
                version,
                protocol_version,
                connections,
            },
        ) => {
            let mut lines: Vec<String> = Vec::new();
            push_instance(&mut lines, *known, cwd, shell, model, *conversation);
            push_daemon(
                &mut lines,
                *daemon_pid,
                version.as_str(),
                *protocol_version,
                *uptime_ms,
                *connections,
            );
            let report = Report { out: lines, err: Vec::new() };
            assert(report@ =~= daemon_cli::says(reply_lines(reply->0)));
            (report, 0)
        },
        _ => {
            let mut lines: Vec<String> = Vec::new();
            push_line(&mut lines, NO_ANSWER.to_owned());
            let report = Report { out: Vec::new(), err: lines };
            assert(report@ =~= daemon_cli::complains(seq![NO_ANSWER@]));
            (report, 1)
        },
    }
}

} // verus!
