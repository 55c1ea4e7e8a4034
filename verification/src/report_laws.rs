//! What holds of the reports on the daemon, the session and the versions.

use crate::cli::DaemonAction;
use crate::daemon_cli;
use crate::daemon_cli::{Ask, FactView, Phase, Places, Probe, RunView, StatusView};
use crate::env;
use crate::model_laws;
use crate::proto::{ServerMessage, PROTOCOL_VERSION};
use crate::shell;
use crate::status_cli;
use crate::text;
use crate::version_cli;
use crate::version_cli::{DaemonView, TtyView};
use vstd::prelude::*;

verus! {

proof fn lemma_piece(before: Seq<char>, piece: Seq<char>, after: Seq<char>)
    ensures
        model_laws::holds(before + piece + after, piece),
{
    let all = before + piece + after;
    let i = before.len() as int;
    assert(all.subrange(i, i + piece.len()) =~= piece);
}

proof fn lemma_end(before: Seq<char>, end: Seq<char>)
    ensures
        end.is_suffix_of(before + end),
{
    let all = before + end;
    assert(end =~= all.subrange(all.len() - end.len(), all.len() as int));
}

// ---------------------------------------------------------------------------
// The daemon
// ---------------------------------------------------------------------------

/// An uptime is told in hours, minutes and seconds that add up to it, without leading units
/// of zero.
pub proof fn an_uptime_adds_up(ms: u64, h: nat, m: nat, s: nat)
    requires
        h * 3600 + m * 60 + s == ms / 1000,
        m < 60,
        s < 60,
    ensures
        h > 0 ==> daemon_cli::uptime_text(ms) == text::decimal(h) + "h "@ + text::decimal(m)
            + "m "@ + text::decimal(s) + "s"@,
        h == 0 && m > 0 ==> daemon_cli::uptime_text(ms) == text::decimal(m) + "m "@
            + text::decimal(s) + "s"@,
        h == 0 && m == 0 ==> daemon_cli::uptime_text(ms) == text::decimal(s) + "s"@,
{
    let total = ms as nat / 1000;
    assert(total == h * 3600 + m * 60 + s);
    assert(total / 3600 == h) by (nonlinear_arith)
        requires
            total == h * 3600 + m * 60 + s,
            m < 60,
            s < 60,
    ;
    assert(total % 3600 == m * 60 + s) by (nonlinear_arith)
        requires
            total == h * 3600 + m * 60 + s,
            m < 60,
            s < 60,
    ;
    assert((m * 60 + s) / 60 == m);
    assert(total % 60 == s) by (nonlinear_arith)
        requires
            total == h * 3600 + m * 60 + s,
            s < 60,
    ;
}

/// What a daemon says of itself is told line by line, each value at the end of its line,
/// then the socket, and the log where there is one. One that says nothing is told as such.
pub proof fn a_daemons_details_are_told(status: Option<StatusView>, places: Places)
    ensures
        ({
            let lines = daemon_cli::details(status, places);
            let n: int = match status {
                Some(_) => 5,
                None => 1,
            };
            &&& lines.len() == n + 1 + if places.log is Some {
                1int
            } else {
                0
            }
            &&& status matches Some(s) ==> {
                &&& text::decimal(s.pid as nat).is_suffix_of(lines[0])
                &&& s.version.is_suffix_of(lines[1])
                &&& ("v"@ + text::decimal(s.protocol_version as nat)).is_suffix_of(lines[2])
                &&& daemon_cli::uptime_text(s.uptime_ms).is_suffix_of(lines[3])
                &&& text::decimal(s.connections as nat).is_suffix_of(lines[4])
            }
            &&& places.socket@.is_suffix_of(lines[n])
            &&& places.log matches Some(log) ==> log@.is_suffix_of(lines[n + 1])
        }),
{
    let lines = daemon_cli::details(status, places);
    if let Some(s) = status {
        lemma_end("  pid:          "@, text::decimal(s.pid as nat));
        lemma_end("  version:      "@, s.version);
        reveal_strlit("  protocol:     v");
        reveal_strlit("  protocol:     ");
        reveal_strlit("v");
        let v = "v"@ + text::decimal(s.protocol_version as nat);
        assert("  protocol:     v"@ =~= "  protocol:     "@ + "v"@);
        assert(lines[2] =~= "  protocol:     "@ + v);
        lemma_end("  protocol:     "@, v);
        lemma_end("  uptime:       "@, daemon_cli::uptime_text(s.uptime_ms));
        lemma_end("  connections:  "@, text::decimal(s.connections as nat));
    }
    lemma_end("  socket:       "@, places.socket@);
    if let Some(log) = places.log {
        lemma_end("  log:          "@, log@);
    }
}

/// Asking for the status exits with zero exactly where the daemon runs, with its details;
/// otherwise it says what would be started.
pub proof fn the_status_tells_whether_the_daemon_runs(
    probe: Probe,
    status: Option<StatusView>,
    plan: Option<(Seq<char>, Seq<char>)>,
    places: Places,
)
    ensures
        ({
            let (asked, first) = RunView::of(DaemonAction::Status).answered(
                FactView::Probed(probe),
                places,
            );
            let (found, told) = asked.answered(FactView::Said(status), places);
            let (missed, would) = asked.answered(FactView::Planned(plan), places);
            &&& probe is Alive ==> {
                &&& daemon_cli::question_of(asked.phase) == Ask::Query
                &&& found.phase == Phase::Done(0)
                &&& told.out == daemon_cli::details(status, places)
                &&& told.err.len() == 0
            }
            &&& !(probe is Alive) ==> {
                &&& daemon_cli::question_of(asked.phase) == Ask::Plan
                &&& missed.phase == Phase::Done(1)
                &&& first.out.len() == 2 && places.socket@.is_suffix_of(first.out[1])
                &&& plan matches Some(p) ==> model_laws::holds(would.out[0], p.0) && model_laws::holds(would.out[0], p.1)
            }
        }),
{
    lemma_end("  socket:       "@, places.socket@);
    if let Some(p) = plan {
        let l = "  would start:  "@ + p.0 + " ("@ + p.1 + ")"@;
        let rest = " ("@ + p.1 + ")"@;
        assert(l =~= "  would start:  "@ + p.0 + rest);
        lemma_piece("  would start:  "@, p.0, rest);
        assert(l =~= ("  would start:  "@ + p.0 + " ("@) + p.1 + ")"@);
        lemma_piece("  would start:  "@ + p.0 + " ("@, p.1, ")"@);
    }
}

/// Starting the daemon succeeds where it runs already, or where it was launched and answers
/// in time; every failure exits with one and is told, with the error's own words, what was
/// started, and the log.
pub proof fn a_start_succeeds_once_the_daemon_answers(
    probe: Probe,
    plan: Option<(Seq<char>, Seq<char>)>,
    failure: Option<Seq<char>>,
    reached: bool,
    status: Option<StatusView>,
    places: Places,
)
    ensures
        ({
            let begun = RunView { phase: Phase::StartProbe, source: seq![] };
            let (probed, said) = begun.answered(FactView::Probed(probe), places);
            let (planned, no_plan) = probed.answered(FactView::Planned(plan), places);
            let (spawned, refused) = planned.answered(FactView::Spawned(failure), places);
            let (waited, told) = spawned.answered(FactView::Reached(reached), places);
            let (done, _) = waited.answered(FactView::Said(status), places);
            &&& probe is Alive ==> said.out.len() == 1 && probed.answered(
                FactView::Said(status),
                places,
            ).0.phase == Phase::Done(0)
            &&& !(probe is Alive) ==> {
                &&& plan is None ==> planned.phase == Phase::Done(1) && no_plan.err.len() > 0
                &&& plan is Some && failure is Some ==> spawned.phase == Phase::Done(1)
                    && refused.err.len() == 1 && failure->0.is_suffix_of(refused.err[0])
                &&& plan is Some && failure is None && reached ==> done.phase == Phase::Done(0)
                    && told.err.len() == 0 && model_laws::holds(told.out[0], (plan->0).1)
                &&& plan is Some && failure is None && !reached ==> waited.phase == Phase::Done(1)
                    && told.out.len() == 0 && told.err.len() > 0 && (places.log matches Some(log)
                    ==> log@.is_suffix_of(told.err.last()))
            }
        }),
{
    if let Some(e) = failure {
        lemma_end("failed to start the AI daemon: "@, e);
    }
    if let Some(p) = plan {
        lemma_piece("AI daemon: started ("@, p.1, ")"@);
    }
    if let Some(log) = places.log {
        lemma_end("  check the log: "@, log@);
    }
}

/// Stopping the daemon asks the very process that answered to terminate, and succeeds where
/// there is none or it went away; a dead socket is removed. A process that is not named,
/// does not get the signal or stays is a failure, told with its number where it is known.
pub proof fn a_stop_reaches_the_process_that_answered(
    then_start: bool,
    status: Option<StatusView>,
    delivered: bool,
    gone: bool,
    places: Places,
)
    ensures
        ({
            let begun = RunView { phase: Phase::StopProbe(then_start), source: seq![] };
            let next = if then_start {
                Phase::StartProbe
            } else {
                Phase::Done(0)
            };
            let absent = begun.answered(FactView::Probed(Probe::Absent), places).0;
            let stale = begun.answered(FactView::Probed(Probe::Stale), places).0;
            let alive = begun.answered(FactView::Probed(Probe::Alive), places).0;
            let (asked, unnamed) = alive.answered(FactView::Said(status), places);
            let (signalled, failed) = asked.answered(FactView::Signalled(delivered), places);
            let (waited, told) = signalled.answered(FactView::Gone(gone), places);
            &&& absent.phase == next
            &&& daemon_cli::question_of(stale.phase) == Ask::RemoveSocket
            &&& stale.answered(FactView::Removed, places).0.phase == next
            &&& daemon_cli::question_of(alive.phase) == Ask::Query
            &&& status is None ==> asked.phase == Phase::Done(1) && unnamed.err.len() == 1
            &&& status matches Some(s) ==> {
                let pid = text::decimal(s.pid as nat);
                &&& daemon_cli::question_of(asked.phase) == Ask::Signal(s.pid)
                &&& !delivered ==> signalled.phase == Phase::Done(1) && model_laws::holds(failed.err[0], pid)
                &&& delivered ==> daemon_cli::question_of(signalled.phase) == Ask::AwaitGone
                &&& delivered && gone ==> waited.phase == next && model_laws::holds(told.out[0], pid)
                &&& delivered && !gone ==> waited.phase == Phase::Done(1) && model_laws::holds(
                    told.err[0],
                    pid,
                )
            }
        }),
{
    if let Some(s) = status {
        let pid = text::decimal(s.pid as nat);
        lemma_piece("failed to signal the AI daemon (pid "@, pid, ")."@);
        lemma_piece("AI daemon: stopped (pid "@, pid, ")"@);
        lemma_piece("signalled the AI daemon (pid "@, pid, "), but its socket is still present."@);
    }
}

/// A restart stops a daemon that runs and then starts one, and only starts one otherwise.
pub proof fn a_restart_is_a_stop_and_a_start(probe: Probe, places: Places)
    ensures
        ({
            let after = RunView::of(DaemonAction::Restart).answered(
                FactView::Probed(probe),
                places,
            ).0;
            &&& probe is Alive ==> after.phase == Phase::StopProbe(true)
            &&& !(probe is Alive) ==> after.phase == Phase::StartProbe
            &&& RunView::of(DaemonAction::Start).phase == Phase::StartProbe
            &&& RunView::of(DaemonAction::Stop).phase == Phase::StopProbe(false)
        }),
{
}

// ---------------------------------------------------------------------------
// The session
// ---------------------------------------------------------------------------

/// The report of an instance names it, and its terminal where the brand does.
pub proof fn the_head_names_the_instance(
    session_id: Seq<char>,
    vars: Map<Seq<char>, Seq<char>>,
)
    ensures
        ({
            let lines = status_cli::head_lines(session_id, vars);
            let value = env::value_in(vars, "KOSHELL"@);
            let tty = if value is Some {
                shell::tty_field(value->0)
            } else {
                None
            };
            &&& session_id.is_suffix_of(lines[0])
            &&& tty is Some ==> lines.len() == 2 && tty->0.is_suffix_of(lines[1])
            &&& tty is None ==> lines.len() == 1
        }),
{
    lemma_end("koshell instance: "@, session_id);
    let value = env::value_in(vars, "KOSHELL"@);
    if value is Some {
        if let Some(tty) = shell::tty_field(value->0) {
            lemma_end("  tty:          "@, tty);
        }
    }
}

/// What the daemon knows of an instance is told line by line: where it stands, its shell,
/// its model, whether it has a conversation, and the daemon behind it.
pub proof fn an_instance_is_told_line_by_line(reply: ServerMessage)
    ensures
        reply matches ServerMessage::InstanceStatus {
            known,
            cwd,
            shell,
            model,
            conversation,
            daemon_pid,
            uptime_ms,
            version,
            protocol_version,
            connections,
            ..
        } ==> {
            let lines = status_cli::reply_lines(reply);
            let a: int = if cwd is Some {
                1
            } else {
                0
            };
            let b: int = a + if shell is Some {
                1int
            } else {
                0
            };
            let c: int = b + 2 + if known {
                0int
            } else {
                1
            };
            &&& lines.len() == c + 6
            &&& cwd matches Some(v) ==> v@.is_suffix_of(lines[0])
            &&& shell matches Some(v) ==> v@.is_suffix_of(lines[a])
            &&& model matches Some(v) ==> v@.is_suffix_of(lines[b])
            &&& conversation ==> "active"@.is_suffix_of(lines[b + 1])
            &&& !conversation ==> "none"@.is_suffix_of(lines[b + 1])
            &&& text::decimal(daemon_pid as nat).is_suffix_of(lines[c + 1])
            &&& version@.is_suffix_of(lines[c + 2])
            &&& text::decimal(protocol_version as nat).is_suffix_of(lines[c + 3])
            &&& daemon_cli::uptime_text(uptime_ms).is_suffix_of(lines[c + 4])
            &&& text::decimal(connections as nat).is_suffix_of(lines[c + 5])
        },
{
    if let ServerMessage::InstanceStatus {
        cwd,
        shell,
        model,
        daemon_pid,
        uptime_ms,
        version,
        protocol_version,
        connections,
        ..
    } = reply {
        if let Some(v) = cwd {
            lemma_end("  cwd:          "@, v@);
        }
        if let Some(v) = shell {
            lemma_end("  shell:        "@, v@);
        }
        if let Some(v) = model {
            lemma_end("  model:        "@, v@);
        }
        lemma_end("  conversation: "@, "active"@);
        lemma_end("  conversation: "@, "none"@);
        lemma_end("    pid:          "@, text::decimal(daemon_pid as nat));
        lemma_end("    version:      "@, version@);
        lemma_end("    protocol:     v"@, text::decimal(protocol_version as nat));
        lemma_end("    uptime:       "@, daemon_cli::uptime_text(uptime_ms));
        lemma_end("    connections:  "@, text::decimal(connections as nat));
    }
}

// ---------------------------------------------------------------------------
// The versions
// ---------------------------------------------------------------------------

/// The report tells of this binary first, then of this terminal, then of the daemon.
pub proof fn the_three_versions_are_told_in_order(
    binary: Seq<char>,
    tty: TtyView,
    daemon: DaemonView,
)
    ensures
        ({
            let lines = version_cli::report_lines(binary, tty, daemon);
            let t = version_cli::tty_lines(binary, tty);
            let d = version_cli::daemon_lines(daemon);
            &&& lines.len() == 1 + t.len() + d.len()
            &&& model_laws::holds(lines[0], binary)
            &&& forall|i: int| 0 <= i < t.len() ==> lines[1 + i] == #[trigger] t[i]
            &&& forall|i: int| 0 <= i < d.len() ==> lines[1 + t.len() + i] == #[trigger] d[i]
        }),
{
    let label = text::padded("koshell:"@, 20);
    let rest = "  (this binary, protocol v"@ + text::decimal(PROTOCOL_VERSION as nat) + ")"@;
    let row = version_cli::binary_lines(binary)[0];
    assert(row =~= label + binary + rest);
    lemma_piece(label, binary, rest);
}

/// The koshell of a terminal is told with its version, terminal and process; another build
/// than this one is called out with what a new terminal would run.
pub proof fn a_terminals_koshell_is_told(
    binary: Seq<char>,
    version: Seq<char>,
    tty: Seq<char>,
    pid: i32,
)
    ensures
        ({
            let known = version_cli::tty_lines(binary, TtyView::Known { version, tty, pid });
            let unversioned = version_cli::tty_lines(binary, TtyView::Unversioned { tty, pid });
            &&& model_laws::holds(known[0], version)
            &&& model_laws::holds(known[0], tty)
            &&& model_laws::holds(known[0], text::signed_decimal(pid as int))
            &&& version != binary ==> known.len() == 2 && model_laws::holds(known[1], binary)
            &&& model_laws::holds(unversioned[0], tty)
            &&& model_laws::holds(unversioned[0], text::signed_decimal(pid as int))
        }),
{
    let label = text::padded("this tty:"@, 20);
    let number = text::signed_decimal(pid as int);
    let owner = version_cli::owner_text(tty, pid);
    let row = label + (version + owner);
    let blank = label + ("unknown"@ + owner);
    assert(row =~= label + version + owner);
    lemma_piece(label, version, owner);
    let rest = ", pid "@ + number + ")"@;
    assert(row =~= (label + version + "  ("@) + tty + rest);
    lemma_piece(label + version + "  ("@, tty, rest);
    assert(row =~= (label + version + "  ("@ + tty + ", pid "@) + number + ")"@);
    lemma_piece(label + version + "  ("@ + tty + ", pid "@, number, ")"@);
    assert(blank =~= (label + "unknown"@ + "  ("@) + tty + rest);
    lemma_piece(label + "unknown"@ + "  ("@, tty, rest);
    assert(blank =~= (label + "unknown"@ + "  ("@ + tty + ", pid "@) + number + ")"@);
    lemma_piece(label + "unknown"@ + "  ("@ + tty + ", pid "@, number, ")"@);
    let lead = "  ("@ + "a different build than this binary — a new terminal runs "@;
    let note = version_cli::note_text(
        "a different build than this binary — a new terminal runs "@ + binary,
    );
    assert(note =~= lead + binary + ")"@);
    lemma_piece(lead, binary, ")"@);
}

/// A running daemon is told with its version, process and protocol, and a protocol that is
/// not this binary's is called out; a stopped one with what would start it.
pub proof fn a_daemon_is_told_as_it_is(
    version: Seq<char>,
    pid: u32,
    protocol_version: u32,
    would_start: Option<Seq<char>>,
)
    ensures
        ({
            let running = version_cli::daemon_lines(
                DaemonView::Running { version, pid, protocol_version },
            );
            let stopped = version_cli::daemon_lines(DaemonView::Stopped { would_start });
            &&& model_laws::holds(running[0], version)
            &&& model_laws::holds(running[0], text::decimal(pid as nat))
            &&& model_laws::holds(running[0], text::decimal(protocol_version as nat))
            &&& running.len() == 2 <==> protocol_version != PROTOCOL_VERSION
            &&& would_start matches Some(w) ==> w.is_suffix_of(stopped[1])
        }),
{
    let label = text::padded("koshell-ai-daemon:"@, 20);
    let p = text::decimal(pid as nat);
    let v = text::decimal(protocol_version as nat);
    let value = version + "  (pid "@ + p + ", protocol v"@ + v + ")"@;
    let row = label + value;
    let a = "  (pid "@ + p + ", protocol v"@ + v + ")"@;
    assert(row =~= label + version + a);
    lemma_piece(label, version, a);
    let b = ", protocol v"@ + v + ")"@;
    assert(row =~= (label + version + "  (pid "@) + p + b);
    lemma_piece(label + version + "  (pid "@, p, b);
    let c = label + version + "  (pid "@ + p + ", protocol v"@;
    assert(row =~= c + v + ")"@);
    lemma_piece(c, v, ")"@);
    if let Some(w) = would_start {
        let lead = "  "@ + text::padded("would start:"@, 18);
        assert(version_cli::sub_row_text("would start:"@, w) =~= lead + w);
        lemma_end(lead, w);
    }
}

/// Which koshell wraps a terminal is decided by the marker of that terminal: a brand for
/// another terminal, or none, says that nothing wraps this one, and a marker that no live
/// process stands behind names none.
pub proof fn a_wrapping_koshell_is_a_live_one(
    vars: Map<Seq<char>, Seq<char>>,
    current_tty: Option<Seq<char>>,
    owner_pid: Option<i32>,
    owner_version: Option<Seq<char>>,
)
    ensures
        ({
            let seen = version_cli::wrapping(vars, current_tty, owner_pid, owner_version);
            let value = env::value_in(vars, "KOSHELL"@);
            &&& value is None ==> seen is Outside
            &&& value is Some && value->0.len() == 0 ==> seen is Outside
            &&& value is Some && shell::tty_field(value->0) is Some && shell::tty_field(value->0)
                != current_tty ==> seen is Outside
            &&& owner_pid is None || current_tty is None ==> seen is Outside || seen is Unmarked
            &&& seen matches TtyView::Known { version, tty, pid } ==> owner_version == Some(
                version,
            ) && current_tty == Some(tty) && owner_pid == Some(pid)
            &&& seen matches TtyView::Unversioned { tty, pid } ==> owner_version is None
                && current_tty == Some(tty) && owner_pid == Some(pid)
            &&& value is Some && value->0.len() > 0 && current_tty is Some && owner_pid is Some && (
            shell::tty_field(value->0) is None || shell::tty_field(value->0) == current_tty)
                ==> seen is Known || seen is Unversioned
        }),
{
}

/// What is known of the daemon is what was found: a reachable one is what it says of itself,
/// an unreachable one is stopped, with the launch command that was resolved.
pub proof fn the_daemon_is_what_was_found(
    probe: Probe,
    said: Option<(Seq<char>, u32, u32)>,
    plan: Option<(Seq<char>, Seq<char>)>,
)
    ensures
        ({
            let seen = version_cli::daemon_seen(probe, said, plan);
            &&& probe is Alive && said is None ==> seen is Silent
            &&& probe is Alive ==> (said matches Some(s) ==> seen == DaemonView::Running {
                version: s.0,
                pid: s.1,
                protocol_version: s.2,
            })
            &&& !(probe is Alive) ==> (seen matches DaemonView::Stopped { would_start } && {
                &&& would_start is Some <==> plan is Some
                &&& plan matches Some(p) ==> p.0.is_prefix_of(would_start->0) && model_laws::holds(
                    would_start->0,
                    p.1,
                )
            })
        }),
{
    if let Some(p) = plan {
        let w = p.0 + " ("@ + p.1 + ")"@;
        assert(p.0 =~= w.subrange(0, p.0.len() as int));
        lemma_piece(p.0 + " ("@, p.1, ")"@);
    }
}

} // verus!
