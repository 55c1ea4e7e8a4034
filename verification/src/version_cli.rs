//! `koshell version`: the three koshell versions that can differ on one machine.
//!
//! An upgraded binary does not reach a terminal that is already running, and the daemon
//! is a separate long-lived process that is replaced independently. So three answers are
//! reported side by side:
//!
//! - **koshell**: this binary, the build a new terminal would get.
//! - **this tty**: the koshell actually wrapping this terminal, read from the version
//!   file beside its liveness marker.
//! - **koshell-ai-daemon**: the running daemon. A stopped daemon is reported as stopped
//!   rather than started to be interrogated; the command that would start it is named
//!   instead.
//!
//! Every outcome is a successful report, so the exit code is always 0.

use crate::daemon_cli::{led, line_of, push_line, DaemonStatus, Probe};
use crate::daemon_spawn;
use crate::daemon_spawn::SpawnPlan;
use crate::env;
use crate::env::Env;
use crate::proto::PROTOCOL_VERSION;
use crate::shell;
use crate::shell::{koshell_tty, KOSHELL_ENV_KEY};
use crate::text;
use crate::text::{push_decimal, push_padded, same_text, signed_text};
use vstd::prelude::*;

verus! {

/// Column the version values start at, so the three answers line up under each other.
pub const LABEL_WIDTH: usize = 20;

/// Which koshell, if any, wraps this terminal.
#[derive(Debug, Clone, PartialEq, Eq)]
pub enum TtyKoshell {
    /// A live koshell owns this terminal and recorded its version.
    Known { version: String, tty: String, pid: i32 },
    /// A live koshell owns this terminal but recorded no version.
    Unversioned { tty: String, pid: i32 },
    /// `KOSHELL` says we are inside koshell, but no live marker names this terminal: the
    /// child pts could not be branded, or a stale brand was inherited onto a recycled
    /// pts whose koshell has died.
    Unmarked,
    /// No koshell wraps this terminal.
    Outside,
}

/// What the AI daemon reports about itself.
#[derive(Debug, Clone, PartialEq, Eq)]
pub enum DaemonKoshell {
    Running { version: String, pid: u32, protocol_version: u32 },
    /// Reachable but silent: a daemon old enough not to know the question.
    Silent,
    /// Not running, with the command that would start it.
    Stopped { would_start: Option<String> },
}

/// The model of [`TtyKoshell`].
#[verifier::ext_equal]
pub enum TtyView {
    Known { version: Seq<char>, tty: Seq<char>, pid: i32 },
    Unversioned { tty: Seq<char>, pid: i32 },
    Unmarked,
    Outside,
}

impl View for TtyKoshell {
    type V = TtyView;

    open spec fn view(&self) -> TtyView {
        match *self {
            TtyKoshell::Known { version, tty, pid } => TtyView::Known {
                version: version@,
                tty: tty@,
                pid,
            },
            TtyKoshell::Unversioned { tty, pid } => TtyView::Unversioned { tty: tty@, pid },
            TtyKoshell::Unmarked => TtyView::Unmarked,
            TtyKoshell::Outside => TtyView::Outside,
        }
    }
}

/// The model of [`DaemonKoshell`].
#[verifier::ext_equal]
pub enum DaemonView {
    Running { version: Seq<char>, pid: u32, protocol_version: u32 },
    Silent,
    Stopped { would_start: Option<Seq<char>> },
}

impl View for DaemonKoshell {
    type V = DaemonView;

    open spec fn view(&self) -> DaemonView {
        match *self {
            DaemonKoshell::Running { version, pid, protocol_version } => DaemonView::Running {
                version: version@,
                pid,
                protocol_version,
            },
            DaemonKoshell::Silent => DaemonView::Silent,
            DaemonKoshell::Stopped { would_start } => DaemonView::Stopped {
                would_start: text::opt_text(would_start),
            },
        }
    }
}

/// Which koshell wraps a terminal. The liveness marker of this process's own tty is the
/// authority; the inherited brand only tells the negative answers apart.
pub open spec fn wrapping(
    vars: Map<Seq<char>, Seq<char>>,
    current_tty: Option<Seq<char>>,
    owner_pid: Option<i32>,
    owner_version: Option<Seq<char>>,
) -> TtyView {
    let value = env::value_in(vars, "KOSHELL"@);
    if value is None || value->0.len() == 0 {
        TtyView::Outside
    } else if shell::tty_field(value->0) is Some && current_tty != shell::tty_field(value->0) {
        TtyView::Outside
    } else if current_tty is None || owner_pid is None {
        TtyView::Unmarked
    } else {
        match owner_version {
            Some(version) => TtyView::Known { version, tty: current_tty->0, pid: owner_pid->0 },
            None => TtyView::Unversioned { tty: current_tty->0, pid: owner_pid->0 },
        }
    }
}

/// What is known of the daemon.
pub open spec fn daemon_seen(
    probe: Probe,
    said: Option<(Seq<char>, u32, u32)>,
    plan: Option<(Seq<char>, Seq<char>)>,
) -> DaemonView {
    if probe is Alive {
        match said {
            Some(s) => DaemonView::Running { version: s.0, pid: s.1, protocol_version: s.2 },
            None => DaemonView::Silent,
        }
    } else {
        DaemonView::Stopped {
            would_start: match plan {
                Some(p) => Some(p.0 + " ("@ + p.1 + ")"@),
                None => None,
            },
        }
    }
}

/// One row, its value in the shared column.
pub open spec fn row_text(label: Seq<char>, value: Seq<char>) -> Seq<char> {
    text::padded(label, LABEL_WIDTH as nat) + value
}

/// A note under a row.
pub open spec fn note_text(note: Seq<char>) -> Seq<char> {
    "  ("@ + note + ")"@
}

/// A sub-row under a row.
pub open spec fn sub_row_text(label: Seq<char>, value: Seq<char>) -> Seq<char> {
    "  "@ + text::padded(label, (LABEL_WIDTH - 2) as nat) + value
}

/// The row of this binary.
pub open spec fn binary_lines(binary: Seq<char>) -> Seq<Seq<char>> {
    seq![
        row_text(
            "koshell:"@,
            binary + "  (this binary, protocol v"@ + text::decimal(PROTOCOL_VERSION as nat) + ")"@,
        ),
    ]
}

/// Where a koshell is, for a row.
pub open spec fn owner_text(tty: Seq<char>, pid: i32) -> Seq<char> {
    "  ("@ + tty + ", pid "@ + text::signed_decimal(pid as int) + ")"@
}

/// The rows of this terminal. A build that differs from this binary's is called out.
pub open spec fn tty_lines(binary: Seq<char>, tty: TtyView) -> Seq<Seq<char>> {
    match tty {
        TtyView::Known { version, tty, pid } => {
            let row = seq![row_text("this tty:"@, version + owner_text(tty, pid))];
            if version != binary {
                row.push(
                    note_text(
                        "a different build than this binary — a new terminal runs "@ + binary,
                    ),
                )
            } else {
                row
            }
        },
        TtyView::Unversioned { tty, pid } => seq![
            row_text("this tty:"@, "unknown"@ + owner_text(tty, pid)),
            note_text("that koshell predates `koshell version`, so it recorded none"@),
        ],
        TtyView::Unmarked => seq![
            row_text("this tty:"@, "unknown"@),
            note_text("inside koshell, but no live marker names this terminal"@),
        ],
        TtyView::Outside => seq![
            row_text("this tty:"@, "not wrapped by koshell"@),
            note_text("start koshell, or install the auto-wrap: `koshell shell-init zsh`"@),
        ],
    }
}

/// The rows of the daemon. A protocol mismatch is named with its fix.
pub open spec fn daemon_lines(daemon: DaemonView) -> Seq<Seq<char>> {
    match daemon {
        DaemonView::Running { version, pid, protocol_version } => {
            let row = seq![
                row_text(
                    "koshell-ai-daemon:"@,
                    version + "  (pid "@ + text::decimal(pid as nat) + ", protocol v"@
                        + text::decimal(protocol_version as nat) + ")"@,
                ),
            ];
            if protocol_version != PROTOCOL_VERSION {
                row.push(
                    note_text(
                        "this binary speaks protocol v"@ + text::decimal(PROTOCOL_VERSION as nat)
                            + " — `koshell daemon restart`"@,
                    ),
                )
            } else {
                row
            }
        },
        DaemonView::Silent => seq![
            row_text("koshell-ai-daemon:"@, "unknown"@),
            note_text(
                "running, but it did not answer — an older daemon; `koshell daemon restart`"@,
            ),
        ],
        DaemonView::Stopped { would_start } => seq![
            row_text("koshell-ai-daemon:"@, "not running"@),
            sub_row_text(
                "would start:"@,
                match would_start {
                    Some(w) => w,
                    None => "no launch command resolved"@,
                },
            ),
            note_text(
                "a stopped daemon has no version; `koshell daemon start` or a `#?` starts one"@,
            ),
        ],
    }
}

/// The whole report.
pub open spec fn report_lines(binary: Seq<char>, tty: TtyView, daemon: DaemonView) -> Seq<
    Seq<char>,
> {
    binary_lines(binary) + tty_lines(binary, tty) + daemon_lines(daemon)
}

/// The values share one column: whatever a row's label, up to the column's width, its
/// value begins there.
pub proof fn values_share_one_column(label: Seq<char>, value: Seq<char>)
    requires
        label.len() <= LABEL_WIDTH,
    ensures
        row_text(label, value).skip(LABEL_WIDTH as int) == value,
{
    assert(row_text(label, value).skip(LABEL_WIDTH as int) =~= value);
}

/// A terminal that runs another build is always called out, and one that runs this build
/// never.
pub proof fn another_build_is_called_out(
    binary: Seq<char>,
    version: Seq<char>,
    tty: Seq<char>,
    pid: i32,
)
    ensures
        tty_lines(binary, TtyView::Known { version, tty, pid }).len() == (if version == binary {
            1nat
        } else {
            2nat
        }),
{
}

/// Resolves which koshell wraps this terminal. `owner_pid` is the live process that the
/// marker of `current_tty` names, `owner_version` the version recorded beside it.
///
/// The marker is the authority, not the inherited `KOSHELL` value: the brand can outlive
/// the koshell that wrote it, and it is inherited across tty boundaries. `KOSHELL` is
/// consulted only to tell the two negative answers apart: a brand naming a different
/// terminal means this terminal is simply not wrapped, while a brand naming this one
/// with no live marker means we are inside koshell but cannot identify it.
pub fn inspect_tty(
    vars: &Env,
    current_tty: Option<&str>,
    owner_pid: Option<i32>,
    owner_version: Option<String>,
) -> (r: TtyKoshell)
    ensures
        r@ == wrapping(
            vars@,
            match current_tty {
                Some(t) => Some(t@),
                None => None,
            },
            owner_pid,
            text::opt_text(owner_version),
        ),
{
    let value = match vars.get(KOSHELL_ENV_KEY) {
        Some(value) => value,
        None => {
            return TtyKoshell::Outside;
        },
    };
    if value.as_str().unicode_len() == 0 {
        return TtyKoshell::Outside;
    }
    // A brand for another terminal is that terminal's koshell, not ours; and without a
    // tty of our own we cannot claim any brand as ours either.
    if let Some(branded) = koshell_tty(value.as_str()) {
        let ours = match current_tty {
            Some(tty) => same_text(tty, branded),
            None => false,
        };
        if !ours {
            return TtyKoshell::Outside;
        }
    }
    let tty = match current_tty {
        Some(tty) => tty.to_owned(),
        None => {
            return TtyKoshell::Unmarked;
        },
    };
    let pid = match owner_pid {
        Some(pid) => pid,
        None => {
            return TtyKoshell::Unmarked;
        },
    };
    match owner_version {
        Some(version) => TtyKoshell::Known { version, tty, pid },
        None => TtyKoshell::Unversioned { tty, pid },
    }
}

/// What is known of the daemon, from its reachability, what it said of itself, and how
/// one would be started.
pub fn inspect_daemon(probe: Probe, said: Option<DaemonStatus>, plan: Option<SpawnPlan>) -> (r:
    DaemonKoshell)
    ensures
        r@ == daemon_seen(
            probe,
            match said {
                Some(s) => Some((s.version@, s.pid, s.protocol_version)),
                None => None,
            },
            daemon_spawn::plan_view(plan),
        ),
{
    match probe {
        Probe::Alive => match said {
            Some(s) => DaemonKoshell::Running {
                version: s.version,
                pid: s.pid,
                protocol_version: s.protocol_version,
            },
            None => DaemonKoshell::Silent,
        },
        _ => DaemonKoshell::Stopped {
            would_start: match plan {
                Some(p) => {
                    let mut line = String::new();
                    line.append(p.command_line.as_str());
                    line.append(" (");
                    line.append(p.source);
                    line.append(")");
                    assert(line@ =~= p.command_line@ + " ("@ + p.source@ + ")"@);
                    Some(line)
                },
                None => None,
            },
        },
    }
}

fn row(label: &str, value: &str) -> (r: String)
    ensures
        r@ == row_text(label@, value@),
{
    let mut out = String::new();
    push_padded(&mut out, label, LABEL_WIDTH);
    out.append(value);
    assert(out@ =~= row_text(label@, value@));
    out
}

fn note(text: &str) -> (r: String)
    ensures
        r@ == note_text(text@),
{
    line_of("  (", text, ")")
}

fn sub_row(label: &str, value: &str) -> (r: String)
    ensures
        r@ == sub_row_text(label@, value@),
{
    let mut out = String::new();
    out.append("  ");
    push_padded(&mut out, label, LABEL_WIDTH - 2);
    out.append(value);
    assert(out@ =~= sub_row_text(label@, value@));
    out
}

fn push_owner(value: &mut String, tty: &str, pid: i32)
    ensures
        final(value)@ == old(value)@ + owner_text(tty@, pid),
{
    value.append("  (");
    value.append(tty);
    value.append(", pid ");
    value.append(signed_text(pid).as_str());
    value.append(")");
    assert(value@ =~= old(value)@ + owner_text(tty@, pid));
}

fn push_tty(lines: &mut Vec<String>, binary: &str, tty: &TtyKoshell)
    ensures
        text::texts(final(lines)@) == text::texts(old(lines)@) + tty_lines(binary@, tty@),
{
    match tty {
        TtyKoshell::Known { version, tty, pid } => {
            let mut value = version.clone();
            push_owner(&mut value, tty.as_str(), *pid);
            push_line(lines, row("this tty:", value.as_str()));
            // An upgrade does not reach a terminal that is already running, and nothing
            // else on the system says so.
            if !same_text(version.as_str(), binary) {
                push_line(
                    lines,
                    note(
                        led(
                            "a different build than this binary — a new terminal runs ",
                            binary,
                        ).as_str(),
                    ),
                );
            }
        },
        TtyKoshell::Unversioned { tty, pid } => {
            let mut value = "unknown".to_owned();
            push_owner(&mut value, tty.as_str(), *pid);
            push_line(lines, row("this tty:", value.as_str()));
            push_line(lines, note("that koshell predates `koshell version`, so it recorded none"));
        },
        TtyKoshell::Unmarked => {
            push_line(lines, row("this tty:", "unknown"));
            push_line(lines, note("inside koshell, but no live marker names this terminal"));
        },
        TtyKoshell::Outside => {
            push_line(lines, row("this tty:", "not wrapped by koshell"));
            push_line(
                lines,
                note("start koshell, or install the auto-wrap: `koshell shell-init zsh`"),
            );
        },
    }
    assert(text::texts(lines@) =~= text::texts(old(lines)@) + tty_lines(binary@, tty@));
}

fn push_daemon(lines: &mut Vec<String>, daemon: &DaemonKoshell)
    ensures
        text::texts(final(lines)@) == text::texts(old(lines)@) + daemon_lines(daemon@),
{
    match daemon {
        DaemonKoshell::Running { version, pid, protocol_version } => {
            let mut value = version.clone();
            value.append("  (pid ");
            push_decimal(&mut value, *pid as u64);
            value.append(", protocol v");
            push_decimal(&mut value, *protocol_version as u64);
            value.append(")");
            push_line(lines, row("koshell-ai-daemon:", value.as_str()));
            // A protocol mismatch is the one version difference that stops `#?` working,
            // so it is named here with its fix rather than left to be inferred.
            if *protocol_version != PROTOCOL_VERSION {
                let mut fix = String::new();
                fix.append("this binary speaks protocol v");
                push_decimal(&mut fix, PROTOCOL_VERSION as u64);
                fix.append(" — `koshell daemon restart`");
                push_line(lines, note(fix.as_str()));
            }
        },
        DaemonKoshell::Silent => {
            push_line(lines, row("koshell-ai-daemon:", "unknown"));
            push_line(
                lines,
                note("running, but it did not answer — an older daemon; `koshell daemon restart`"),
            );
        },
        DaemonKoshell::Stopped { would_start } => {
            push_line(lines, row("koshell-ai-daemon:", "not running"));
            let start = match would_start {
                Some(w) => w.as_str(),
                None => "no launch command resolved",
            };
            push_line(lines, sub_row("would start:", start));
            push_line(
                lines,
                note("a stopped daemon has no version; `koshell daemon start` or a `#?` starts one"),
            );
        },
    }
    assert(text::texts(lines@) =~= text::texts(old(lines)@) + daemon_lines(daemon@));
}

/// Renders the whole report.
pub fn format_lines(binary: &str, tty: &TtyKoshell, daemon: &DaemonKoshell) -> (r: Vec<String>)
    ensures
        text::texts(r@) == report_lines(binary@, tty@, daemon@),
{
    let mut value = String::new();
    value.append(binary);
    value.append("  (this binary, protocol v");
    push_decimal(&mut value, PROTOCOL_VERSION as u64);
    value.append(")");
    let mut lines: Vec<String> = Vec::new();
    push_line(&mut lines, row("koshell:", value.as_str()));
    assert(text::texts(lines@) =~= binary_lines(binary@));
    push_tty(&mut lines, binary, tty);
    push_daemon(&mut lines, daemon);
    lines
}

} // verus!
