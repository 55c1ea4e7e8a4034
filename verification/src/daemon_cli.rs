//! `koshell daemon <status|start|stop|restart>`: manual daemon lifecycle control.
//!
//! A run is a sequence of questions put to the outside (is the socket alive, what does
//! the daemon say of itself, did it go away), each with an answer that decides what is
//! printed and what is asked next, until the exit code is known.

use crate::cli::DaemonAction;
use crate::daemon_spawn;
use crate::daemon_spawn::SpawnPlan;
use crate::text;
use crate::text::push_decimal;
use vstd::prelude::*;

verus! {

/// How long to wait for a `status` reply before giving up on a running daemon, in
/// milliseconds.
pub const STATUS_TIMEOUT: u64 = 1_000;

/// How long `start` and `stop` wait for the socket to appear or disappear, in
/// milliseconds.
pub const TRANSITION_TIMEOUT: u64 = 5_000;

/// Poll interval while waiting for a transition, in milliseconds.
pub const POLL_STEP: u64 = 50;

/// What to do while waiting for a transition.
#[derive(Debug, Clone, Copy, PartialEq, Eq, Structural)]
pub enum WaitStep {
    /// The transition has happened.
    Reached,
    /// Look again after that many milliseconds.
    Pause(u64),
    /// The transition did not happen in time.
    GaveUp,
}

/// Decides how a wait goes on, that long after it began: what has happened counts however
/// late it is seen, and what has not is waited for until the time is up.
pub fn wait_step(reached: bool, elapsed_ms: u64) -> (r: WaitStep)
    ensures
        r == (if reached {
            WaitStep::Reached
        } else if elapsed_ms < TRANSITION_TIMEOUT {
            WaitStep::Pause(POLL_STEP)
        } else {
            WaitStep::GaveUp
        }),
{
    if reached {
        WaitStep::Reached
    } else if elapsed_ms < TRANSITION_TIMEOUT {
        WaitStep::Pause(POLL_STEP)
    } else {
        WaitStep::GaveUp
    }
}

/// The daemon's reachability.
#[derive(Debug, Clone, Copy, PartialEq, Eq, Structural)]
pub enum Probe {
    Alive,
    Stale,
    Absent,
}

/// What a running daemon says of itself.
#[derive(Debug, Clone, PartialEq, Eq)]
pub struct DaemonStatus {
    pub pid: u32,
    pub version: String,
    pub protocol_version: u32,
    pub uptime_ms: u64,
    pub connections: u32,
}

/// The model of a status.
#[verifier::ext_equal]
pub struct StatusView {
    pub pid: u32,
    pub version: Seq<char>,
    pub protocol_version: u32,
    pub uptime_ms: u64,
    pub connections: u32,
}

impl View for DaemonStatus {
    type V = StatusView;

    open spec fn view(&self) -> StatusView {
        StatusView {
            pid: self.pid,
            version: self.version@,
            protocol_version: self.protocol_version,
            uptime_ms: self.uptime_ms,
            connections: self.connections,
        }
    }
}

/// A question put to the outside.
#[derive(Debug, Clone, Copy, PartialEq, Eq, Structural)]
pub enum Ask {
    /// Is the socket there, and does anybody answer it?
    Probe,
    /// What does the daemon say of itself?
    Query,
    /// How would a daemon be launched?
    Plan,
    /// Launch it that way.
    Spawn,
    /// Wait until it is reachable.
    AwaitAlive,
    /// Remove the dead socket.
    RemoveSocket,
    /// Ask that process to terminate.
    Signal(u32),
    /// Wait until it is gone.
    AwaitGone,
    /// Nothing more: exit with that code.
    Exit(i32),
}

/// An answer from the outside.
#[derive(Debug, Clone, PartialEq, Eq)]
pub enum Fact {
    Probed(Probe),
    /// `None` where the daemon did not reply in time.
    Said(Option<DaemonStatus>),
    Planned(Option<SpawnPlan>),
    /// The failure, where there was one.
    Spawned(Option<String>),
    /// Whether the daemon became reachable in time.
    Reached(bool),
    Removed,
    /// Whether the signal was delivered.
    Signalled(bool),
    /// Whether the daemon went away in time.
    Gone(bool),
}

/// Where a run stands.
#[derive(Debug, Clone, Copy, PartialEq, Eq, Structural)]
pub enum Phase {
    StatusProbe,
    StatusQuery,
    StatusPlan,
    StartProbe,
    /// Already running.
    StartFound,
    StartPlan,
    StartSpawn,
    StartAwait,
    StartQuery,
    RestartProbe,
    /// Whether a start follows a stop.
    StopProbe(bool),
    StopRemove(bool),
    StopQuery(bool),
    StopSignal(bool, u32),
    StopAwait(bool, u32),
    Done(i32),
}

/// Where the daemon is, for the reports.
#[derive(Debug, Clone, PartialEq, Eq)]
pub struct Places {
    pub socket: String,
    /// `None` where there is no usable state directory.
    pub log: Option<String>,
}

/// What to print.
#[derive(Debug, Clone, PartialEq, Eq)]
pub struct Report {
    pub out: Vec<String>,
    pub err: Vec<String>,
}

// ---------------------------------------------------------------------------
// The model
// ---------------------------------------------------------------------------

/// The model of an answer.
#[verifier::ext_equal]
pub enum FactView {
    Probed(Probe),
    Said(Option<StatusView>),
    Planned(Option<(Seq<char>, Seq<char>)>),
    Spawned(Option<Seq<char>>),
    Reached(bool),
    Removed,
    Signalled(bool),
    Gone(bool),
}

impl View for Fact {
    type V = FactView;

    open spec fn view(&self) -> FactView {
        match *self {
            Fact::Probed(p) => FactView::Probed(p),
            Fact::Said(s) => FactView::Said(
                match s {
                    Some(s) => Some(s@),
                    None => None,
                },
            ),
            Fact::Planned(p) => FactView::Planned(daemon_spawn::plan_view(p)),
            Fact::Spawned(e) => FactView::Spawned(text::opt_text(e)),
            Fact::Reached(b) => FactView::Reached(b),
            Fact::Removed => FactView::Removed,
            Fact::Signalled(b) => FactView::Signalled(b),
            Fact::Gone(b) => FactView::Gone(b),
        }
    }
}

/// The model of a run: where it stands, and the rung of the launch command in use.
#[verifier::ext_equal]
pub struct RunView {
    pub phase: Phase,
    pub source: Seq<char>,
}

/// The model of what is printed.
#[verifier::ext_equal]
pub struct ReportView {
    pub out: Seq<Seq<char>>,
    pub err: Seq<Seq<char>>,
}

impl View for Report {
    type V = ReportView;

    open spec fn view(&self) -> ReportView {
        ReportView { out: text::texts(self.out@), err: text::texts(self.err@) }
    }
}

/// Nothing printed.
pub open spec fn silent() -> ReportView {
    ReportView { out: seq![], err: seq![] }
}

/// Lines printed.
pub open spec fn says(lines: Seq<Seq<char>>) -> ReportView {
    ReportView { out: lines, err: seq![] }
}

/// Lines printed as errors.
pub open spec fn complains(lines: Seq<Seq<char>>) -> ReportView {
    ReportView { out: seq![], err: lines }
}

/// An uptime, in the largest units it fills.
pub open spec fn uptime_text(ms: u64) -> Seq<char> {
    let total = ms as nat / 1000;
    let hours = total / 3600;
    let minutes = (total % 3600) / 60;
    let seconds = total % 60;
    if hours > 0 {
        text::decimal(hours) + "h "@ + text::decimal(minutes) + "m "@ + text::decimal(seconds)
            + "s"@
    } else if minutes > 0 {
        text::decimal(minutes) + "m "@ + text::decimal(seconds) + "s"@
    } else {
        text::decimal(seconds) + "s"@
    }
}

/// A running daemon's details.
pub open spec fn details(status: Option<StatusView>, places: Places) -> Seq<Seq<char>> {
    let said = match status {
        Some(s) => seq![
            "  pid:          "@ + text::decimal(s.pid as nat),
            "  version:      "@ + s.version,
            "  protocol:     v"@ + text::decimal(s.protocol_version as nat),
            "  uptime:       "@ + uptime_text(s.uptime_ms),
            "  connections:  "@ + text::decimal(s.connections as nat),
        ],
        None => seq!["  (no status reply — an older daemon?)"@],
    };
    let at = said.push("  socket:       "@ + places.socket@);
    match places.log {
        Some(log) => at.push("  log:          "@ + log@),
        None => at,
    }
}

/// The question that a phase puts.
pub open spec fn question_of(phase: Phase) -> Ask {
    match phase {
        Phase::StatusProbe => Ask::Probe,
        Phase::StatusQuery => Ask::Query,
        Phase::StatusPlan => Ask::Plan,
        Phase::StartProbe => Ask::Probe,
        Phase::StartFound => Ask::Query,
        Phase::StartPlan => Ask::Plan,
        Phase::StartSpawn => Ask::Spawn,
        Phase::StartAwait => Ask::AwaitAlive,
        Phase::StartQuery => Ask::Query,
        Phase::RestartProbe => Ask::Probe,
        Phase::StopProbe(_) => Ask::Probe,
        Phase::StopRemove(_) => Ask::RemoveSocket,
        Phase::StopQuery(_) => Ask::Query,
        Phase::StopSignal(_, pid) => Ask::Signal(pid),
        Phase::StopAwait(_, _) => Ask::AwaitGone,
        Phase::Done(code) => Ask::Exit(code),
    }
}

/// Whether an answer is one to a question.
pub open spec fn answers(fact: FactView, ask: Ask) -> bool {
    match ask {
        Ask::Probe => fact is Probed,
        Ask::Query => fact is Said,
        Ask::Plan => fact is Planned,
        Ask::Spawn => fact is Spawned,
        Ask::AwaitAlive => fact is Reached,
        Ask::RemoveSocket => fact is Removed,
        Ask::Signal(_) => fact is Signalled,
        Ask::AwaitGone => fact is Gone,
        Ask::Exit(_) => false,
    }
}

/// After a successful stop: the end, or the start that follows.
pub open spec fn after_stop(then_start: bool) -> Phase {
    if then_start {
        Phase::StartProbe
    } else {
        Phase::Done(0)
    }
}

impl RunView {
    /// A run of an action.
    pub open spec fn of(action: DaemonAction) -> RunView {
        RunView {
            phase: match action {
                DaemonAction::Status => Phase::StatusProbe,
                DaemonAction::Start => Phase::StartProbe,
                DaemonAction::Stop => Phase::StopProbe(false),
                DaemonAction::Restart => Phase::RestartProbe,
            },
            source: seq![],
        }
    }

    /// At another phase.
    pub open spec fn at(self, phase: Phase) -> RunView {
        RunView { phase, ..self }
    }

    /// An answer taken in, with what is printed. An answer to another question changes
    /// nothing.
    pub open spec fn answered(self, fact: FactView, places: Places) -> (RunView, ReportView) {
        match (self.phase, fact) {
            (Phase::StatusProbe, FactView::Probed(probe)) => if probe is Alive {
                (self.at(Phase::StatusQuery), says(seq!["AI daemon: running"@]))
            } else {
                (
                    self.at(Phase::StatusPlan),
                    says(
                        seq![
                            "AI daemon: not running"@,
                            "  socket:       "@ + places.socket@,
                        ],
                    ),
                )
            },
            (Phase::StatusQuery, FactView::Said(status)) => (
                self.at(Phase::Done(0)),
                says(details(status, places)),
            ),
            (Phase::StatusPlan, FactView::Planned(plan)) => (
                self.at(Phase::Done(1)),
                says(
                    seq![
                        match plan {
                            Some(p) => "  would start:  "@ + p.0 + " ("@ + p.1 + ")"@,
                            None => "  would start:  no launch command resolved"@,
                        },
                    ],
                ),
            ),
            (Phase::StartProbe, FactView::Probed(probe)) => if probe is Alive {
                (self.at(Phase::StartFound), says(seq!["AI daemon: already running"@]))
            } else {
                (self.at(Phase::StartPlan), silent())
            },
            (Phase::StartFound, FactView::Said(status)) => (
                self.at(Phase::Done(0)),
                says(details(status, places)),
            ),
            (Phase::StartPlan, FactView::Planned(plan)) => match plan {
                Some(p) => (RunView { phase: Phase::StartSpawn, source: p.1 }, silent()),
                None => (
                    self.at(Phase::Done(1)),
                    complains(
                        seq![
                            "cannot start the AI daemon: no launch command resolved."@,
                            "  set KOSHELL_DAEMON_CMD, or install the koshell-ai-daemon binary next to koshell."@,
                        ],
                    ),
                ),
            },
            (Phase::StartSpawn, FactView::Spawned(failure)) => match failure {
                Some(e) => (
                    self.at(Phase::Done(1)),
                    complains(seq!["failed to start the AI daemon: "@ + e]),
                ),
                None => (self.at(Phase::StartAwait), silent()),
            },
            (Phase::StartAwait, FactView::Reached(reached)) => if reached {
                (
                    self.at(Phase::StartQuery),
                    says(seq!["AI daemon: started ("@ + self.source + ")"@]),
                )
            } else {
                (
                    self.at(Phase::Done(1)),
                    complains(
                        seq![
                            "started the AI daemon, but it did not become reachable in time."@,
                        ] + (match places.log {
                            Some(log) => seq!["  check the log: "@ + log@],
                            None => seq![],
                        }),
                    ),
                )
            },
            (Phase::StartQuery, FactView::Said(status)) => (
                self.at(Phase::Done(0)),
                says(details(status, places)),
            ),
            (Phase::RestartProbe, FactView::Probed(probe)) => (
                self.at(
                    if probe is Alive {
                        Phase::StopProbe(true)
                    } else {
                        Phase::StartProbe
                    },
                ),
                silent(),
            ),
            (Phase::StopProbe(then_start), FactView::Probed(probe)) => match probe {
                Probe::Absent => (
                    self.at(after_stop(then_start)),
                    says(seq!["AI daemon: not running"@]),
                ),
                Probe::Stale => (self.at(Phase::StopRemove(then_start)), silent()),
                Probe::Alive => (self.at(Phase::StopQuery(then_start)), silent()),
            },
            (Phase::StopRemove(then_start), FactView::Removed) => (
                self.at(after_stop(then_start)),
                says(seq!["AI daemon: not running (removed a stale socket)"@]),
            ),
            (Phase::StopQuery(then_start), FactView::Said(status)) => match status {
                Some(s) => (self.at(Phase::StopSignal(then_start, s.pid)), silent()),
                None => (
                    self.at(Phase::Done(1)),
                    complains(
                        seq![
                            "the AI daemon is running but did not report its pid; stop it manually."@,
                        ],
                    ),
                ),
            },
            (Phase::StopSignal(then_start, pid), FactView::Signalled(delivered)) => if delivered {
                (self.at(Phase::StopAwait(then_start, pid)), silent())
            } else {
                (
                    self.at(Phase::Done(1)),
                    complains(
                        seq![
                            "failed to signal the AI daemon (pid "@ + text::decimal(pid as nat)
                                + ")."@,
                        ],
                    ),
                )
            },
            (Phase::StopAwait(then_start, pid), FactView::Gone(gone)) => if gone {
                (
                    self.at(after_stop(then_start)),
                    says(seq!["AI daemon: stopped (pid "@ + text::decimal(pid as nat) + ")"@]),
                )
            } else {
                (
                    self.at(Phase::Done(1)),
                    complains(
                        seq![
                            "signalled the AI daemon (pid "@ + text::decimal(pid as nat)
                                + "), but its socket is still present."@,
                        ],
                    ),
                )
            },
            _ => (self, silent()),
        }
    }

    /// The most answers a run still needs.
    pub open spec fn rank(self) -> nat {
        match self.phase {
            Phase::StatusProbe => 2,
            Phase::StatusQuery => 1,
            Phase::StatusPlan => 1,
            Phase::StartProbe => 5,
            Phase::StartFound => 1,
            Phase::StartPlan => 4,
            Phase::StartSpawn => 3,
            Phase::StartAwait => 2,
            Phase::StartQuery => 1,
            Phase::RestartProbe => 10,
            Phase::StopProbe(_) => 9,
            Phase::StopRemove(_) => 6,
            Phase::StopQuery(_) => 8,
            Phase::StopSignal(_, _) => 7,
            Phase::StopAwait(_, _) => 6,
            Phase::Done(_) => 0,
        }
    }
}

// ---------------------------------------------------------------------------
// Laws
// ---------------------------------------------------------------------------

/// Every run ends: each answer to the question put brings it nearer to its exit code.
pub proof fn every_answer_brings_a_run_nearer_to_its_end(
    run: RunView,
    fact: FactView,
    places: Places,
)
    requires
        answers(fact, question_of(run.phase)),
    ensures
        run.answered(fact, places).0.rank() < run.rank(),
{
}

/// Success is never claimed of a failure: no run exits with zero upon an answer that a
/// spawn, a signal or a wait failed.
pub proof fn failures_are_never_reported_as_success(
    run: RunView,
    fact: FactView,
    places: Places,
)
    requires
        answers(fact, question_of(run.phase)),
        fact matches FactView::Spawned(e) && e is Some || fact == FactView::Reached(false) || fact
            == FactView::Signalled(false) || fact == FactView::Gone(false),
    ensures
        run.answered(fact, places).0.phase == Phase::Done(1),
        run.answered(fact, places).1.err.len() > 0,
{
}

// ---------------------------------------------------------------------------
// The run
// ---------------------------------------------------------------------------

/// Renders an uptime in milliseconds as `1h 2m 3s`, `2m 3s` or `3s`.
pub fn format_uptime(ms: u64) -> (r: String)
    ensures
        r@ == uptime_text(ms),
{
    let total: u64 = ms / 1000;
    let hours: u64 = total / 3600;
    let minutes: u64 = (total % 3600) / 60;
    let seconds: u64 = total % 60;
    let mut out = String::new();
    if hours > 0 {
        push_decimal(&mut out, hours);
        out.append("h ");
        push_decimal(&mut out, minutes);
        out.append("m ");
    } else if minutes > 0 {
        push_decimal(&mut out, minutes);
        out.append("m ");
    }
    push_decimal(&mut out, seconds);
    out.append("s");
    assert(out@ =~= uptime_text(ms));
    out
}

/// A line made of a lead, a text and a tail.
pub(crate) fn line_of(lead: &str, text: &str, tail: &str) -> (r: String)
    ensures
        r@ == lead@ + text@ + tail@,
{
    let mut out = String::new();
    out.append(lead);
    out.append(text);
    out.append(tail);
    assert(out@ =~= lead@ + text@ + tail@);
    out
}

/// A line made of a lead and a text.
pub(crate) fn led(lead: &str, text: &str) -> (r: String)
    ensures
        r@ == lead@ + text@,
{
    let mut out = String::new();
    out.append(lead);
    out.append(text);
    assert(out@ =~= lead@ + text@);
    out
}

/// A line made of a lead, a number and a tail.
pub(crate) fn counted(lead: &str, n: u64, tail: &str) -> (r: String)
    ensures
        r@ == lead@ + text::decimal(n as nat) + tail@,
{
    let mut out = String::new();
    out.append(lead);
    push_decimal(&mut out, n);
    out.append(tail);
    assert(out@ =~= lead@ + text::decimal(n as nat) + tail@);
    out
}

/// Adds a line behind the others.
pub(crate) fn push_line(lines: &mut Vec<String>, line: String)
    ensures
        text::texts(final(lines)@) == text::texts(old(lines)@).push(line@),
{
    lines.push(line);
    assert(text::texts(lines@) =~= text::texts(old(lines)@).push(line@));
}

/// A running daemon's details, with the socket and log paths.
pub fn detail_lines(status: &Option<DaemonStatus>, places: &Places) -> (r: Vec<String>)
    ensures
        text::texts(r@) == details(
            match *status {
                Some(s) => Some(s@),
                None => None,
            },
            *places,
        ),
{
    let mut lines: Vec<String> = Vec::new();
    assert(text::texts(lines@) =~= Seq::<Seq<char>>::empty());
    proof {
        reveal_strlit("");
    }
    match status {
        Some(s) => {
            push_line(&mut lines, counted("  pid:          ", s.pid as u64, ""));
            push_line(&mut lines, led("  version:      ", s.version.as_str()));
            push_line(&mut lines, counted("  protocol:     v", s.protocol_version as u64, ""));
            push_line(&mut lines, led("  uptime:       ", format_uptime(s.uptime_ms).as_str()));
            push_line(&mut lines, counted("  connections:  ", s.connections as u64, ""));
            proof {
                let goal = seq![
                    "  pid:          "@ + text::decimal(s.pid as nat),
                    "  version:      "@ + s.version@,
                    "  protocol:     v"@ + text::decimal(s.protocol_version as nat),
                    "  uptime:       "@ + uptime_text(s.uptime_ms),
                    "  connections:  "@ + text::decimal(s.connections as nat),
                ];
                assert(text::texts(lines@)[0] =~= goal[0]);
                assert(text::texts(lines@)[2] =~= goal[2]);
                assert(text::texts(lines@)[4] =~= goal[4]);
                assert(text::texts(lines@) =~= goal);
            }
        },
        None => {
            push_line(&mut lines, "  (no status reply — an older daemon?)".to_owned());
            assert(text::texts(lines@) =~= seq!["  (no status reply — an older daemon?)"@]);
        },
    }
    push_line(&mut lines, led("  socket:       ", places.socket.as_str()));
    if let Some(log) = &places.log {
        push_line(&mut lines, led("  log:          ", log.as_str()));
    }
    lines
}

fn nothing() -> (r: Report)
    ensures
        r@ == silent(),
{
    let r = Report { out: Vec::new(), err: Vec::new() };
    assert(r@ =~= silent());
    r
}

fn tell(lines: Vec<String>) -> (r: Report)
    ensures
        r@ == says(text::texts(lines@)),
{
    let r = Report { out: lines, err: Vec::new() };
    assert(r@.err =~= Seq::<Seq<char>>::empty());
    r
}

fn tell_one(line: String) -> (r: Report)
    ensures
        r@ == says(seq![line@]),
{
    let ghost l = line@;
    let mut lines: Vec<String> = Vec::new();
    lines.push(line);
    assert(text::texts(lines@) =~= seq![l]);
    tell(lines)
}

fn complain(lines: Vec<String>) -> (r: Report)
    ensures
        r@ == complains(text::texts(lines@)),
{
    let r = Report { out: Vec::new(), err: lines };
    assert(r@.out =~= Seq::<Seq<char>>::empty());
    r
}

fn complain_one(line: String) -> (r: Report)
    ensures
        r@ == complains(seq![line@]),
{
    let ghost l = line@;
    let mut lines: Vec<String> = Vec::new();
    lines.push(line);
    assert(text::texts(lines@) =~= seq![l]);
    complain(lines)
}

/// A run of a `koshell daemon` action.
pub struct DaemonRun {
    phase: Phase,
    source: &'static str,
}

impl View for DaemonRun {
    type V = RunView;

    closed spec fn view(&self) -> RunView {
        RunView { phase: self.phase, source: self.source@ }
    }
}

/// Begins a `koshell daemon` action.
pub fn run(action: DaemonAction) -> (r: DaemonRun)
    ensures
        r@ == RunView::of(action),
{
    proof {
        reveal_strlit("");
    }
    let r = DaemonRun {
        phase: match action {
            DaemonAction::Status => Phase::StatusProbe,
            DaemonAction::Start => Phase::StartProbe,
            DaemonAction::Stop => Phase::StopProbe(false),
            DaemonAction::Restart => Phase::RestartProbe,
        },
        source: "",
    };
    assert(r@ =~= RunView::of(action));
    r
}

fn phase_after_stop(then_start: bool) -> (r: Phase)
    ensures
        r == after_stop(then_start),
{
    if then_start {
        Phase::StartProbe
    } else {
        Phase::Done(0)
    }
}

impl DaemonRun {
    /// The question to put next.
    pub fn ask(&self) -> (r: Ask)
        ensures
            r == question_of(self@.phase),
    {
        match self.phase {
            Phase::StatusProbe => Ask::Probe,
            Phase::StatusQuery => Ask::Query,
            Phase::StatusPlan => Ask::Plan,
            Phase::StartProbe => Ask::Probe,
            Phase::StartFound => Ask::Query,
            Phase::StartPlan => Ask::Plan,
            Phase::StartSpawn => Ask::Spawn,
            Phase::StartAwait => Ask::AwaitAlive,
            Phase::StartQuery => Ask::Query,
            Phase::RestartProbe => Ask::Probe,
            Phase::StopProbe(_) => Ask::Probe,
            Phase::StopRemove(_) => Ask::RemoveSocket,
            Phase::StopQuery(_) => Ask::Query,
            Phase::StopSignal(_, pid) => Ask::Signal(pid),
            Phase::StopAwait(_, _) => Ask::AwaitGone,
            Phase::Done(code) => Ask::Exit(code),
        }
    }

    /// Takes in the answer to the question put, and says what to print.
    pub fn answer(&mut self, fact: Fact, places: &Places) -> (r: Report)
        ensures
            (final(self)@, r@) == old(self)@.answered(fact@, *places),
    {
        match (self.phase, fact) {
            (Phase::StatusProbe, Fact::Probed(probe)) => {
                if probe == Probe::Alive {
                    self.phase = Phase::StatusQuery;
                    tell_one("AI daemon: running".to_owned())
                } else {
                    self.phase = Phase::StatusPlan;
                    let mut lines: Vec<String> = Vec::new();
                    push_line(&mut lines, "AI daemon: not running".to_owned());
                    push_line(&mut lines, led("  socket:       ", places.socket.as_str()));
                    assert(text::texts(lines@) =~= seq![
                        "AI daemon: not running"@,
                        "  socket:       "@ + places.socket@,
                    ]);
                    tell(lines)
                }
            },
            (Phase::StatusQuery, Fact::Said(status)) => {
                self.phase = Phase::Done(0);
                tell(detail_lines(&status, places))
            },
            (Phase::StatusPlan, Fact::Planned(plan)) => {
                self.phase = Phase::Done(1);
                match plan {
                    Some(p) => {
                        let mut line = led("  would start:  ", p.command_line.as_str());
                        line.append(" (");
                        line.append(p.source);
                        line.append(")");
                        tell_one(line)
                    },
                    None => tell_one("  would start:  no launch command resolved".to_owned()),
                }
            },
            (Phase::StartProbe, Fact::Probed(probe)) => {
                if probe == Probe::Alive {
                    self.phase = Phase::StartFound;
                    tell_one("AI daemon: already running".to_owned())
                } else {
                    self.phase = Phase::StartPlan;
                    nothing()
                }
            },
            (Phase::StartFound, Fact::Said(status)) => {
                self.phase = Phase::Done(0);
                tell(detail_lines(&status, places))
            },
            (Phase::StartPlan, Fact::Planned(plan)) => match plan {
                Some(p) => {
                    self.phase = Phase::StartSpawn;
                    self.source = p.source;
                    nothing()
                },
                None => {
                    self.phase = Phase::Done(1);
                    let mut lines: Vec<String> = Vec::new();
                    push_line(
                        &mut lines,
                        "cannot start the AI daemon: no launch command resolved.".to_owned(),
                    );
                    push_line(
                        &mut lines,
                        "  set KOSHELL_DAEMON_CMD, or install the koshell-ai-daemon binary next to koshell.".to_owned(),
                    );
                    assert(text::texts(lines@) =~= seq![
                        "cannot start the AI daemon: no launch command resolved."@,
                        "  set KOSHELL_DAEMON_CMD, or install the koshell-ai-daemon binary next to koshell."@,
                    ]);
                    complain(lines)
                },
            },
            (Phase::StartSpawn, Fact::Spawned(failure)) => match failure {
                Some(e) => {
                    self.phase = Phase::Done(1);
                    complain_one(led("failed to start the AI daemon: ", e.as_str()))
                },
                None => {
                    self.phase = Phase::StartAwait;
                    nothing()
                },
            },
            (Phase::StartAwait, Fact::Reached(reached)) => {
                if reached {
                    self.phase = Phase::StartQuery;
                    tell_one(line_of("AI daemon: started (", self.source, ")"))
                } else {
                    self.phase = Phase::Done(1);
                    let mut lines: Vec<String> = Vec::new();
                    push_line(
                        &mut lines,
                        "started the AI daemon, but it did not become reachable in time.".to_owned(),
                    );
                    if let Some(log) = &places.log {
                        push_line(&mut lines, led("  check the log: ", log.as_str()));
                    }
                    assert(text::texts(lines@) =~= seq![
                        "started the AI daemon, but it did not become reachable in time."@,
                    ] + (match places.log {
                        Some(log) => seq!["  check the log: "@ + log@],
                        None => seq![],
                    }));
                    complain(lines)
                }
            },
            (Phase::StartQuery, Fact::Said(status)) => {
                self.phase = Phase::Done(0);
                tell(detail_lines(&status, places))
            },
            (Phase::RestartProbe, Fact::Probed(probe)) => {
                self.phase =
                if probe == Probe::Alive {
                    Phase::StopProbe(true)
                } else {
                    Phase::StartProbe
                };
                nothing()
            },
            (Phase::StopProbe(then_start), Fact::Probed(probe)) => match probe {
                Probe::Absent => {
                    self.phase = phase_after_stop(then_start);
                    tell_one("AI daemon: not running".to_owned())
                },
                Probe::Stale => {
                    self.phase = Phase::StopRemove(then_start);
                    nothing()
                },
                Probe::Alive => {
                    self.phase = Phase::StopQuery(then_start);
                    nothing()
                },
            },
            (Phase::StopRemove(then_start), Fact::Removed) => {
                self.phase = phase_after_stop(then_start);
                tell_one("AI daemon: not running (removed a stale socket)".to_owned())
            },
            (Phase::StopQuery(then_start), Fact::Said(status)) => match status {
                Some(s) => {
                    self.phase = Phase::StopSignal(then_start, s.pid);
                    nothing()
                },
                None => {
                    self.phase = Phase::Done(1);
                    complain_one(
                        "the AI daemon is running but did not report its pid; stop it manually.".to_owned(),
                    )
                },
            },
            (Phase::StopSignal(then_start, pid), Fact::Signalled(delivered)) => {
                if delivered {
                    self.phase = Phase::StopAwait(then_start, pid);
                    nothing()
                } else {
                    self.phase = Phase::Done(1);
                    complain_one(counted("failed to signal the AI daemon (pid ", pid as u64, ")."))
                }
            },
            (Phase::StopAwait(then_start, pid), Fact::Gone(gone)) => {
                if gone {
                    self.phase = phase_after_stop(then_start);
                    tell_one(counted("AI daemon: stopped (pid ", pid as u64, ")"))
                } else {
                    self.phase = Phase::Done(1);
                    complain_one(
                        counted(
                            "signalled the AI daemon (pid ",
                            pid as u64,
                            "), but its socket is still present.",
                        ),
                    )
                }
            },
            _ => nothing(),
        }
    }
}

} // verus!
