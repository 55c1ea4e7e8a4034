//! `koshell reload`: asks the running AI daemon to re-read its configuration and apply
//! it to live terminal sessions. By default it targets the current instance; `--all`
//! targets every active instance.
//!
//! It does not start the daemon: a freshly started daemon already reads the current
//! configuration, so "not running" is nothing to reload.

use crate::daemon_cli;
use crate::daemon_cli::{push_line, Probe, Report};
use crate::proto::ClientMessage;
use vstd::prelude::*;

verus! {

/// How long to wait for the daemon's reply before treating silence as an older daemon
/// that ignored the request, in milliseconds.
pub const RELOAD_TIMEOUT: u64 = 2_000;

/// What a reload does first.
#[derive(Debug, PartialEq, Eq)]
pub enum ReloadStep {
    /// Nothing more: print this and exit with the code.
    Exit(Report, i32),
    /// Send this request, and report on the reply.
    Send(ClientMessage),
}

/// What to print where no daemon is running.
pub open spec fn nothing_to_reload() -> Seq<Seq<char>> {
    seq![
        "AI daemon: not running; nothing to reload"@,
        "  a freshly started daemon reads the current config.toml."@,
    ]
}

/// What to print outside a koshell session.
pub const NOT_INSIDE: &'static str =
    "not inside a koshell session; run `koshell reload --all` to reload every active instance.";

/// What to print where the daemon does not know the request.
pub const NO_ANSWER: &'static str =
    "the AI daemon did not answer the reload request — it likely predates reload support. Restart it with `koshell daemon restart`.";

/// Decides on a reload from the daemon's reachability. `session_id` is the current
/// instance's.
pub fn reload_step(probe: Probe, all: bool, session_id: Option<String>) -> (r: ReloadStep)
    ensures
        probe !is Alive ==> match r {
            ReloadStep::Exit(report, code) => code == 0 && report@ == daemon_cli::says(
                nothing_to_reload(),
            ),
            ReloadStep::Send(_) => false,
        },
        probe is Alive && !all && session_id is None ==> match r {
            ReloadStep::Exit(report, code) => code == 1 && report@ == daemon_cli::complains(
                seq![NOT_INSIDE@],
            ),
            ReloadStep::Send(_) => false,
        },
        probe is Alive && all ==> r == ReloadStep::Send(
            ClientMessage::ReloadRequest { session_id: None },
        ),
        probe is Alive && !all && session_id is Some ==> r == ReloadStep::Send(
            ClientMessage::ReloadRequest { session_id },
        ),
{
    if probe != Probe::Alive {
        let mut lines: Vec<String> = Vec::new();
        push_line(&mut lines, "AI daemon: not running; nothing to reload".to_owned());
        push_line(
            &mut lines,
            "  a freshly started daemon reads the current config.toml.".to_owned(),
        );
        let report = Report { out: lines, err: Vec::new() };
        assert(report@ =~= daemon_cli::says(nothing_to_reload()));
        return ReloadStep::Exit(report, 0);
    }
    if all {
        return ReloadStep::Send(ClientMessage::ReloadRequest { session_id: None });
    }
    match session_id {
        Some(id) => ReloadStep::Send(ClientMessage::ReloadRequest { session_id: Some(id) }),
        None => {
            let mut lines: Vec<String> = Vec::new();
            push_line(&mut lines, NOT_INSIDE.to_owned());
            let report = Report { out: Vec::new(), err: lines };
            assert(report@ =~= daemon_cli::complains(seq![NOT_INSIDE@]));
            ReloadStep::Exit(report, 1)
        },
    }
}

/// Reports on the daemon's reply: whether the new configuration was applied, and its own
/// words. `None` is a daemon that did not answer. Returns the exit code beside what to
/// print.
pub fn reload_report(reply: Option<(bool, Option<String>)>) -> (r: (Report, i32))
    ensures
        match reply {
            Some(said) => {
                &&& r.1 == (if said.0 {
                    0i32
                } else {
                    1i32
                })
                &&& r.0@ == daemon_cli::says(
                    seq![
                        match said.1 {
                            Some(message) => message@,
                            None => "AI daemon: configuration reloaded"@,
                        },
                    ],
                )
            },
            None => r.1 == 1 && r.0@ == daemon_cli::complains(seq![NO_ANSWER@]),
        },
{
    let mut lines: Vec<String> = Vec::new();
    match reply {
        Some((ok, message)) => {
            let line = match message {
                Some(message) => message,
                None => "AI daemon: configuration reloaded".to_owned(),
            };
            let ghost l = line@;
            push_line(&mut lines, line);
            let report = Report { out: lines, err: Vec::new() };
            assert(report@ =~= daemon_cli::says(seq![l]));
            (
                report,
                if ok {
                    0
                } else {
                    1
                },
            )
        },
        None => {
            push_line(&mut lines, NO_ANSWER.to_owned());
            let report = Report { out: Vec::new(), err: lines };
            assert(report@ =~= daemon_cli::complains(seq![NO_ANSWER@]));
            (report, 1)
        },
    }
}

} // verus!
