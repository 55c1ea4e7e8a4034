//! Terminal-state processing: records PTY facts into the timeline, keeps the mirror and
//! snapshots up to date, tracks command spans from shell-integration markers, and
//! detects `#?` questions. On a fire, assembles the context package the AI daemon
//! consumes.
//!
//! - **Capture** is a mirror read of the cursor's logical line at the submit instant
//!   (Enter). The same read is the echo-verification arming check: input that is never
//!   echoed never appears in the mirror, so it can never trigger. The alternate screen
//!   disarms capture entirely. Capture runs inside command spans and in shells without
//!   integration; at the integrated shell prompt the marker layer owns `#?` instead,
//!   because rendered UI text (a fuzzy history finder's list and query line) is
//!   indistinguishable from typed input in the mirror.
//! - **Firing** follows the layered authority: a shell `command_end` marker is
//!   authoritative (including failures); otherwise output stabilization fires:
//!   quiescence with escalating debounce tiers, a prompt-shape heuristic that only
//!   modulates debounce speed (never gates), and a bounded max-wait fallback so a
//!   pending question is never silently lost.
//! - **Pending-trigger interaction**: a delayed receipt notice, user-typed Ctrl+C
//!   cancels pending questions (autonomous failures still fire via `command_end`), and a
//!   bare Esc cancels the most recent pending question without killing the command.

use crate::clock;
use crate::clock::{elapsed_between, wait_between, Moment};
use crate::command_history;
use crate::command_history::CommandHistory;
use crate::context;
use crate::context::{build_terminal_context, context_json, TerminalContextOptions};
use crate::json;
use crate::json::{put, text_value, Json};
use crate::markers;
use crate::mirror;
use crate::mirror::{LiveRegionSnapshot, TerminalMirror};
use crate::question;
use crate::screen_diff;
use crate::screen_diff::summarize_screen_diff;
use crate::shell_integration::{MarkerKind, ShellIntegrationMarker};
use crate::text;
use crate::text::{clone_opt, push_decimal};
use crate::timeline;
use crate::timeline::{InMemoryTimelineStore, TerminalEvent};
use crate::utf8_stream;
use crate::utf8_stream::lossy;
use vstd::prelude::*;

pub use crate::question::{extract_question, question_form, QuestionSplit, TriggerForm};

verus! {

/// The stable AI context contract version (kept in sync with the daemon).
pub const AI_CONTEXT_CONTRACT_VERSION: &'static str = "koshell_ai_context_v1";

// Stabilization debounce tiers, in milliseconds. The prompt-shape heuristic selects the
// tier; it never gates firing.
//
// In-program tiers apply to questions submitted inside a foreground child (REPLs, remote
// shells), where no `command_end` marker will ever arrive.
pub const IN_PROGRAM_TIER_PROMPT: u64 = 150;

pub const IN_PROGRAM_TIER_SHORT: u64 = 500;

pub const IN_PROGRAM_TIER_OTHER: u64 = 3_000;

pub const IN_PROGRAM_MAX_WAIT: u64 = 30_000;

// Prompt-line tiers apply to questions submitted at the shell prompt. They are
// conservative so that for terminating commands the authoritative `command_end` marker
// wins the race, and stabilization only fires for non-terminating commands, annotated
// that the command may still be running.
pub const PROMPT_LINE_TIER_PROMPT: u64 = 750;

pub const PROMPT_LINE_TIER_SHORT: u64 = 3_000;

pub const PROMPT_LINE_TIER_OTHER: u64 = 10_000;

pub const PROMPT_LINE_MAX_WAIT: u64 = 120_000;

/// How long a question may stay pending before presentation prints the one dim receipt
/// line, in milliseconds.
pub const RECEIPT_NOTICE_DELAY: u64 = 1_000;

/// A resting line longer than this never counts as prompt-like or short.
pub const PROMPT_LIKE_MAX_CHARS: usize = 40;

/// Which completion authority fired a question.
#[derive(Debug, Clone, Copy, PartialEq, Eq, Structural)]
pub enum CompletionKind {
    /// Authoritative shell `command_end` marker (including failures).
    CommandEnd,
    /// Output quiescence reached the debounce tier for the resting screen shape.
    Stabilized,
    /// Output never went quiet; the bounded max-wait fired so the question is not lost.
    MaxWait,
}

/// A detected `#?` question with the terminal context to answer it.
#[derive(Debug)]
pub struct Trigger {
    pub question: String,
    pub completion: CompletionKind,
    /// True when the triggering command had not returned to the prompt at fire time.
    pub still_running: bool,
    /// When the question was submitted, in monotonic milliseconds.
    pub submitted_at: u64,
    pub context_package: Json,
}

/// What the session loop should do as a result of processing terminal events.
#[derive(Debug)]
pub enum Action {
    /// Send the question to the AI daemon and print the local feedback line.
    Fire(Trigger),
    /// Print a one-line presentation notice (receipt delay, cancellation).
    Notice(String),
}

/// Where a pending question was submitted; selects the stabilization tier set and the
/// still-running annotation.
#[derive(Debug, Clone, Copy, PartialEq, Eq, Structural)]
pub enum PendingOrigin {
    /// A shell command line: created from a `command_start` marker (integrated shells)
    /// or Enter-captured at the prompt (shells without integration). A `command_end`
    /// marker, when it exists, is expected to win the race against stabilization.
    PromptLine,
    /// Inside a foreground child (REPL, remote shell): stabilization is the only signal.
    InProgram,
}

/// The shape of the line the cursor is resting on; modulates debounce speed only.
#[derive(Debug, Clone, Copy, PartialEq, Eq, Structural)]
pub enum RestingShape {
    /// Cursor at the end of a short line ending in a prompt-like character.
    Prompt,
    /// Cursor at the end of a short non-prompt line (e.g. an inline question).
    Short,
    /// Anything else: empty line, long line, or cursor resting mid-text.
    Other,
}

/// A submitted `#?` waiting for its line's completion or stabilization point.
struct PendingQuestion {
    question: String,
    form: TriggerForm,
    origin: PendingOrigin,
    submitted_at: u64,
    receipt_notified: bool,
}

/// Owns the timeline and mirror and applies terminal events as they happen.
pub struct SessionState {
    timeline: InMemoryTimelineStore,
    mirror: TerminalMirror,
    history: CommandHistory,
    previous_snapshot: Option<(String, String)>,
    next_snapshot_id: u64,
    next_command_id: u64,
    command_active: bool,
    /// Whether shell-integration markers exist in this session. When they do, the marker
    /// layer owns `#?` at the shell prompt exclusively and submit-time mirror capture is
    /// armed only inside command spans: a marker only ever exists for a line the shell
    /// really accepted.
    shell_integrated: bool,
    pending: Vec<PendingQuestion>,
    last_output_at: Option<u64>,
    /// Guards against a repeated Enter (key repeat, `\r\n` pairs) re-capturing the same
    /// rendered line; cleared whenever new PTY output changes the mirror.
    captured_since_output: bool,
    /// True when the current command span's question was already settled outside the
    /// `command_end` path (fired at stabilization, or cancelled by Ctrl+C / Esc), so the
    /// marker must not extract and fire it again.
    span_settled: bool,
    /// The inner shell's working directory, as last reported.
    cwd: Option<String>,
}

// ---------------------------------------------------------------------------
// The model
// ---------------------------------------------------------------------------

/// The model of a fired question.
#[verifier::ext_equal]
pub struct TriggerView {
    pub question: Seq<char>,
    pub completion: CompletionKind,
    pub still_running: bool,
    pub submitted_at: u64,
    pub context_package: json::JsonView,
}

impl View for Trigger {
    type V = TriggerView;

    open spec fn view(&self) -> TriggerView {
        TriggerView {
            question: self.question@,
            completion: self.completion,
            still_running: self.still_running,
            submitted_at: self.submitted_at,
            context_package: self.context_package@,
        }
    }
}

/// The model of an action.
#[verifier::ext_equal]
pub enum ActionView {
    Fire(TriggerView),
    Notice(Seq<char>),
}

impl View for Action {
    type V = ActionView;

    open spec fn view(&self) -> ActionView {
        match self {
            Action::Fire(t) => ActionView::Fire(t@),
            Action::Notice(s) => ActionView::Notice(s@),
        }
    }
}

/// The models of some actions.
pub open spec fn action_views(actions: Seq<Action>) -> Seq<ActionView> {
    actions.map_values(|a: Action| a@)
}

/// The model of a pending question.
#[verifier::ext_equal]
pub struct PendingView {
    pub question: Seq<char>,
    pub form: TriggerForm,
    pub origin: PendingOrigin,
    pub submitted_at: u64,
    pub receipt_notified: bool,
}

impl View for PendingQuestion {
    type V = PendingView;

    closed spec fn view(&self) -> PendingView {
        PendingView {
            question: self.question@,
            form: self.form,
            origin: self.origin,
            submitted_at: self.submitted_at,
            receipt_notified: self.receipt_notified,
        }
    }
}

spec fn pending_views(pending: Seq<PendingQuestion>) -> Seq<PendingView> {
    pending.map_values(|p: PendingQuestion| p@)
}

/// The model of a session.
#[verifier::ext_equal]
pub struct SessionView {
    pub timeline: timeline::TimelineView,
    pub mirror: mirror::MirrorView,
    pub history: command_history::HistoryView,
    /// The id and the screen of the latest snapshot.
    pub previous_snapshot: Option<(Seq<char>, Seq<char>)>,
    pub next_snapshot_id: nat,
    pub next_command_id: nat,
    pub command_active: bool,
    pub shell_integrated: bool,
    /// The questions waiting, oldest first.
    pub pending: Seq<PendingView>,
    pub last_output_at: Option<u64>,
    pub captured_since_output: bool,
    pub span_settled: bool,
    pub cwd: Option<Seq<char>>,
}

/// How a completion is named on the wire.
pub open spec fn completion_name(kind: CompletionKind) -> Seq<char> {
    match kind {
        CompletionKind::CommandEnd => "command_end"@,
        CompletionKind::Stabilized => "stabilized"@,
        CompletionKind::MaxWait => "max_wait"@,
    }
}

/// How long output must be quiet before a question fires.
pub open spec fn tier(origin: PendingOrigin, shape: RestingShape) -> u64 {
    match (origin, shape) {
        (PendingOrigin::InProgram, RestingShape::Prompt) => IN_PROGRAM_TIER_PROMPT,
        (PendingOrigin::InProgram, RestingShape::Short) => IN_PROGRAM_TIER_SHORT,
        (PendingOrigin::InProgram, RestingShape::Other) => IN_PROGRAM_TIER_OTHER,
        (PendingOrigin::PromptLine, RestingShape::Prompt) => PROMPT_LINE_TIER_PROMPT,
        (PendingOrigin::PromptLine, RestingShape::Short) => PROMPT_LINE_TIER_SHORT,
        (PendingOrigin::PromptLine, RestingShape::Other) => PROMPT_LINE_TIER_OTHER,
    }
}

/// How long a question may wait at most.
pub open spec fn longest_wait(origin: PendingOrigin) -> u64 {
    match origin {
        PendingOrigin::InProgram => IN_PROGRAM_MAX_WAIT,
        PendingOrigin::PromptLine => PROMPT_LINE_MAX_WAIT,
    }
}

/// The instant a pending question's quiescence is measured from: the later of the last
/// PTY output and the question's submission. Output that predates the submit (the echo
/// of the user's own typing before a thinking pause) must not count as settled.
pub open spec fn quiet_since(last_output_at: Option<u64>, submitted_at: u64) -> u64 {
    match last_output_at {
        Some(at) => if at > submitted_at {
            at
        } else {
            submitted_at
        },
        None => submitted_at,
    }
}

/// Characters that commonly end a prompt, plus interactive question and confirmation
/// tails. Shapes only: no learned prompt templates.
pub open spec fn ends_a_prompt(c: char) -> bool {
    c == '$' || c == '#' || c == '%' || c == '>' || c == ':' || c == '?' || c == '❯' || c == '»'
        || c == '›'
}

/// The shape of a line that takes up so many columns, with the cursor on that one.
pub open spec fn shape_of(line: Seq<char>, taken: nat, column: u16) -> RestingShape {
    if line.len() == 0 || column < taken || line.len() > PROMPT_LIKE_MAX_CHARS {
        RestingShape::Other
    } else if ends_a_prompt(line.last()) {
        RestingShape::Prompt
    } else {
        RestingShape::Short
    }
}

/// The budgets a fired question's context is assembled under.
pub open spec fn default_budgets() -> TerminalContextOptions {
    TerminalContextOptions {
        recent_input_max_characters: None,
        recent_pty_output_max_characters: None,
        recent_visible_output_max_characters: None,
        current_screen_max_characters: None,
        recent_screen_changes_limit: None,
    }
}

/// An exit code as a number.
pub open spec fn opt_code(code: Option<i32>) -> Option<int> {
    match code {
        Some(n) => Some(n as int),
        None => None,
    }
}

/// The package that the daemon gets with a question.
pub open spec fn package_of(
    question: Seq<char>,
    form: TriggerForm,
    completion: CompletionKind,
    exit_code: Option<i32>,
    still_running: bool,
    context: context::ContextView,
) -> json::JsonView {
    let trigger = json::with_number(
        Map::<Seq<char>, json::JsonView>::empty().insert(
            "form"@,
            json::JsonView::Text(question::form_name(form)),
        ).insert("completion"@, json::JsonView::Text(completion_name(completion))).insert(
            "stillRunning"@,
            json::JsonView::Bool(still_running),
        ),
        "exitCode"@,
        opt_code(exit_code),
    );
    json::JsonView::Object(
        Map::<Seq<char>, json::JsonView>::empty().insert(
            "contractVersion"@,
            json::JsonView::Text(AI_CONTEXT_CONTRACT_VERSION@),
        ).insert("question"@, json::JsonView::Text(question)).insert(
            "trigger"@,
            json::JsonView::Object(trigger),
        ).insert("dynamicContext"@, context::context_object(context)),
    )
}

/// The notice for a question withdrawn by an interrupt.
pub open spec fn interrupted_notice(question: Seq<char>) -> Seq<char> {
    "#? cancelled (^C): "@ + question
}

/// The notice for a question withdrawn by Esc.
pub open spec fn withdrawn_notice(question: Seq<char>) -> Seq<char> {
    "#? cancelled: "@ + question
}

/// The notice for a question that is still waiting.
pub open spec fn receipt_notice(question: Seq<char>) -> Seq<char> {
    "#? waiting for output to settle: "@ + question
}

/// One notice per question.
pub open spec fn interrupted_notices(pending: Seq<PendingView>) -> Seq<ActionView> {
    Seq::new(pending.len(), |i: int| ActionView::Notice(interrupted_notice(pending[i].question)))
}

/// What a poll makes of the pending questions.
#[verifier::ext_equal]
pub struct Settled {
    pub state: SessionView,
    pub kept: Seq<PendingView>,
    pub fires: Seq<ActionView>,
    pub notices: Seq<ActionView>,
}

impl SessionView {
    /// A session in which nothing happened yet.
    pub open spec fn fresh(columns: u16, rows: u16, shell_integrated: bool) -> SessionView {
        SessionView {
            timeline: timeline::TimelineView::fresh(),
            mirror: mirror::MirrorView::start(columns, rows),
            history: command_history::HistoryView::fresh(),
            previous_snapshot: None,
            next_snapshot_id: 1,
            next_command_id: 1,
            command_active: false,
            shell_integrated,
            pending: seq![],
            last_output_at: None,
            captured_since_output: false,
            span_settled: false,
            cwd: None,
        }
    }

    /// The terminal evidence forgotten: the recorded facts and the completed commands.
    pub open spec fn forgotten(self) -> SessionView {
        SessionView {
            timeline: timeline::TimelineView { entries: seq![], ..self.timeline },
            history: command_history::HistoryView { completed: seq![], ..self.history },
            previous_snapshot: None,
            ..self
        }
    }

    /// Whether the counters have room for that many more events and that many more bytes
    /// of output.
    pub open spec fn room(self, events: nat, bytes: nat) -> bool {
        &&& self.timeline.next_id + events < u64::MAX
        &&& self.next_snapshot_id + events < u64::MAX
        &&& self.next_command_id + events < u64::MAX
        &&& self.history.next_id < u64::MAX
        &&& self.history.can_record(bytes)
    }

    /// An event recorded.
    pub open spec fn logged(self, event: timeline::EventView, wall: i64) -> SessionView {
        SessionView { timeline: self.timeline.recorded(event, wall, wall), ..self }
    }

    /// The id of the next snapshot.
    pub open spec fn snapshot_id(self) -> Seq<char> {
        "snapshot-"@ + text::decimal(self.next_snapshot_id)
    }

    /// The event of a snapshot taken now.
    pub open spec fn snapshot_event(self) -> timeline::EventView {
        let shot = self.mirror.snapshot();
        timeline::EventView::ScreenSnapshot {
            snapshot_id: self.snapshot_id(),
            rows: shot.rows,
            columns: shot.columns,
            alt_screen: shot.alt_screen,
            screen: Some(shot.screen),
            previous_snapshot_id: match self.previous_snapshot {
                Some(previous) => Some(previous.0),
                None => None,
            },
            diff: match self.previous_snapshot {
                Some(previous) => Some(screen_diff::summary_of(previous.1, shot.screen)),
                None => None,
            },
        }
    }

    /// A snapshot taken.
    pub open spec fn snapped(self, wall: i64) -> SessionView {
        SessionView {
            previous_snapshot: Some((self.snapshot_id(), self.mirror.screen())),
            next_snapshot_id: self.next_snapshot_id + 1,
            ..self.logged(self.snapshot_event(), wall)
        }
    }

    /// PTY output recorded.
    pub open spec fn output(self, bytes: Seq<u8>, now: Moment) -> SessionView {
        if bytes.len() == 0 {
            self
        } else {
            let told = self.logged(
                timeline::EventView::PtyOutput { data: utf8_stream::lossy_text(bytes) },
                now.wall,
            );
            SessionView {
                last_output_at: Some(now.mono),
                captured_since_output: false,
                ..(SessionView {
                    history: told.history.recorded(bytes),
                    mirror: told.mirror.written(bytes),
                    ..told
                }).snapped(now.wall)
            }
        }
    }

    /// Presentation output shown.
    pub open spec fn presented(self, bytes: Seq<u8>, wall: i64) -> SessionView {
        if bytes.len() == 0 {
            self
        } else {
            (SessionView { mirror: self.mirror.written(bytes), ..self }).snapped(wall)
        }
    }

    /// The terminal resized.
    pub open spec fn resized(self, columns: u16, rows: u16, wall: i64) -> SessionView {
        (SessionView { mirror: self.mirror.resized(columns, rows), ..self }).snapped(wall)
    }

    /// The shape of the line the cursor rests on.
    pub open spec fn shape(self) -> RestingShape {
        shape_of(
            self.mirror.cursor_text(),
            self.mirror.cursor_columns(),
            self.mirror.cursor().column,
        )
    }

    pub open spec fn resting_prompt(self) -> bool {
        !self.mirror.alternate() && self.shape() is Prompt
    }

    pub open spec fn at_line_start(self) -> bool {
        self.mirror.cursor().column == 0 && self.mirror.cursor_text().len() == 0
    }

    pub open spec fn esc_cancellable(self) -> bool {
        self.pending.len() > 0 && !self.mirror.alternate()
    }

    /// A question put to wait.
    pub open spec fn asked(
        self,
        parts: (Seq<char>, Seq<char>),
        origin: PendingOrigin,
        mono: u64,
    ) -> SessionView {
        SessionView {
            pending: self.pending.push(
                PendingView {
                    question: parts.1,
                    form: question::form_of(parts.0),
                    origin,
                    submitted_at: mono,
                    receipt_notified: false,
                },
            ),
            ..self
        }
    }

    /// Enter pressed where capture is armed.
    pub open spec fn submitted(self, mono: u64) -> SessionView {
        match question::split(self.mirror.logical_line()) {
            None => self,
            Some(parts) => (SessionView { captured_since_output: true, ..self }).asked(
                parts,
                if self.command_active {
                    PendingOrigin::InProgram
                } else {
                    PendingOrigin::PromptLine
                },
                mono,
            ),
        }
    }

    /// Whether Enter reads the rendered line.
    pub open spec fn capture_armed(self) -> bool {
        &&& self.command_active || !self.shell_integrated
        &&& !self.mirror.alternate()
        &&& !self.captured_since_output
    }

    /// Every pending question withdrawn by a user-typed interrupt.
    pub open spec fn interrupted(self) -> SessionView {
        SessionView {
            pending: seq![],
            span_settled: self.span_settled || self.command_active,
            ..self
        }
    }

    /// Some keys pressed, with the actions that follow.
    pub open spec fn typed(self, keys: Seq<u8>, mono: u64) -> (SessionView, Seq<ActionView>)
        decreases keys.len(),
    {
        if keys.len() == 0 {
            (self, seq![])
        } else {
            let (state, actions) = self.typed(keys.drop_last(), mono);
            let key = keys.last();
            if key == 0x03 && !state.mirror.alternate() {
                (state.interrupted(), actions + interrupted_notices(state.pending))
            } else if (key == 0x0d || key == 0x0a) && state.capture_armed() {
                (state.submitted(mono), actions)
            } else {
                (state, actions)
            }
        }
    }

    /// Human input recorded, with the actions that follow.
    pub open spec fn input(self, keys: Seq<u8>, now: Moment) -> (SessionView, Seq<ActionView>) {
        if keys.len() == 0 {
            (self, seq![])
        } else {
            self.logged(
                timeline::EventView::HumanInput {
                    data: utf8_stream::lossy_text(keys),
                    visible: true,
                },
                now.wall,
            ).typed(keys, now.mono)
        }
    }

    /// The most recent pending question withdrawn, with its notice.
    pub open spec fn withdrawn(self) -> Option<(SessionView, ActionView)> {
        if !self.esc_cancellable() {
            None
        } else {
            let p = self.pending.last();
            Some(
                (
                    SessionView {
                        pending: self.pending.drop_last(),
                        span_settled: self.span_settled || (self.command_active
                            && p.origin is PromptLine),
                        ..self
                    },
                    ActionView::Notice(withdrawn_notice(p.question)),
                ),
            )
        }
    }

    /// The earliest deadline of some questions.
    pub open spec fn nearest(self, pending: Seq<PendingView>) -> Option<int>
        decreases pending.len(),
    {
        if pending.len() == 0 {
            None
        } else {
            let p = pending.last();
            let settles = quiet_since(self.last_output_at, p.submitted_at) + tier(
                p.origin,
                self.shape(),
            );
            let own = earlier(p.submitted_at + longest_wait(p.origin), settles);
            let own = if p.receipt_notified {
                own
            } else {
                earlier(p.submitted_at + RECEIPT_NOTICE_DELAY, own)
            };
            match self.nearest(pending.drop_last()) {
                Some(other) => Some(earlier(other, own)),
                None => Some(own),
            }
        }
    }

    /// The wait until the earliest deadline, at least one millisecond. None where there
    /// is nothing to wait for, or on the alternate screen, which suspends deadlines.
    pub open spec fn deadline(self, mono: u64) -> Option<u64> {
        if !self.esc_cancellable() {
            None
        } else {
            match self.nearest(self.pending) {
                Some(at) => Some(
                    if clock::wait_until(at, mono) == 0 {
                        1
                    } else {
                        clock::wait_until(at, mono)
                    },
                ),
                None => None,
            }
        }
    }

    /// Whether a question fires by the clock, and by which authority.
    pub open spec fn due(self, p: PendingView, mono: u64) -> Option<CompletionKind> {
        if clock::elapsed(quiet_since(self.last_output_at, p.submitted_at), mono) >= tier(
            p.origin,
            self.shape(),
        ) {
            Some(CompletionKind::Stabilized)
        } else if clock::elapsed(p.submitted_at, mono) >= longest_wait(p.origin) {
            Some(CompletionKind::MaxWait)
        } else {
            None
        }
    }

    /// Whether a question that keeps waiting is owed its receipt.
    pub open spec fn owed_receipt(p: PendingView, mono: u64) -> bool {
        !p.receipt_notified && clock::elapsed(p.submitted_at, mono) >= RECEIPT_NOTICE_DELAY
    }

    /// A question fired.
    pub open spec fn fired(
        self,
        p: PendingView,
        completion: CompletionKind,
        exit_code: Option<i32>,
        still_running: bool,
        wall: i64,
    ) -> (SessionView, ActionView) {
        (
            SessionView {
                next_command_id: self.next_command_id + 1,
                ..self.logged(
                    timeline::EventView::AiRequest {
                        request_id: "request-command-"@ + text::decimal(self.next_command_id),
                        question: p.question,
                    },
                    wall,
                )
            },
            ActionView::Fire(
                TriggerView {
                    question: p.question,
                    completion,
                    still_running,
                    submitted_at: p.submitted_at,
                    context_package: package_of(
                        p.question,
                        p.form,
                        completion,
                        exit_code,
                        still_running,
                        context::context_of(self.timeline.entries, default_budgets()),
                    ),
                },
            ),
        )
    }

    /// The clock applied to some questions, oldest first.
    pub open spec fn settle(self, pending: Seq<PendingView>, now: Moment) -> Settled
        decreases pending.len(),
    {
        if pending.len() == 0 {
            Settled { state: self, kept: seq![], fires: seq![], notices: seq![] }
        } else {
            let before = self.settle(pending.drop_last(), now);
            let p = pending.last();
            match self.due(p, now.mono) {
                Some(completion) => {
                    let still_running = self.command_active && p.origin is PromptLine;
                    let (state, fire) = (SessionView {
                        span_settled: before.state.span_settled || still_running,
                        ..before.state
                    }).fired(p, completion, None, still_running, now.wall);
                    Settled { state, fires: before.fires.push(fire), ..before }
                },
                None => if Self::owed_receipt(p, now.mono) {
                    Settled {
                        kept: before.kept.push(PendingView { receipt_notified: true, ..p }),
                        notices: before.notices.push(
                            ActionView::Notice(receipt_notice(p.question)),
                        ),
                        ..before
                    }
                } else {
                    Settled { kept: before.kept.push(p), ..before }
                },
            }
        }
    }

    /// Time-based transitions: fires, then receipts for questions that stay pending.
    /// Suspended on the alternate screen.
    pub open spec fn polled(self, now: Moment) -> (SessionView, Seq<ActionView>) {
        if !self.esc_cancellable() {
            (self, seq![])
        } else {
            let r = self.settle(self.pending, now);
            (SessionView { pending: r.kept, ..r.state }, r.fires + r.notices)
        }
    }

    /// Every one of some questions fired by the end of the command.
    pub open spec fn all_fired(
        self,
        pending: Seq<PendingView>,
        exit_code: Option<i32>,
        wall: i64,
    ) -> (SessionView, Seq<ActionView>)
        decreases pending.len(),
    {
        if pending.len() == 0 {
            (self, seq![])
        } else {
            let (state, actions) = self.all_fired(pending.drop_last(), exit_code, wall);
            let (state, fire) = state.fired(
                pending.last(),
                CompletionKind::CommandEnd,
                exit_code,
                false,
                wall,
            );
            (state, actions.push(fire))
        }
    }

    /// The id of the next command event.
    pub open spec fn command_id(self) -> Seq<char> {
        "command-"@ + text::decimal(self.next_command_id)
    }

    /// A command begins. Only a fresh span (a transition from the prompt) resets the
    /// settled flag and may carry a new span question.
    pub open spec fn started(self, m: markers::MarkerView, now: Moment) -> SessionView {
        let opened = if self.command_active {
            self
        } else {
            let reset = SessionView { span_settled: false, ..self };
            match m.command {
                Some(command) => match question::split(command) {
                    Some(parts) => reset.asked(parts, PendingOrigin::PromptLine, now.mono),
                    None => reset,
                },
                None => reset,
            }
        };
        match m.command {
            Some(command) => {
                let told = opened.logged(
                    timeline::EventView::CommandStart {
                        command_id: opened.command_id(),
                        command,
                        cwd: None,
                    },
                    now.wall,
                );
                SessionView {
                    next_command_id: opened.next_command_id + 1,
                    command_active: true,
                    history: if m.executed {
                        opened.history.begun(command, opened.cwd, now.wall)
                    } else {
                        opened.history
                    },
                    ..told
                }
            },
            None => opened,
        }
    }

    /// A command ends: every pending question fires. Where there is none, the command's
    /// own text may hold one, unless the span's question was settled already.
    pub open spec fn ended(self, m: markers::MarkerView, now: Moment) -> (
        SessionView,
        Seq<ActionView>,
    ) {
        let command = match m.command {
            Some(c) => c,
            None => seq![],
        };
        let told = SessionView {
            next_command_id: self.next_command_id + 1,
            command_active: false,
            history: if m.executed {
                self.history.ended(m.exit_code, now.wall)
            } else {
                self.history
            },
            ..self.logged(
                timeline::EventView::CommandEnd {
                    command_id: self.command_id(),
                    command,
                    exit_code: m.exit_code,
                    duration_ms: None,
                },
                now.wall,
            )
        };
        let late = match question::split(command) {
            Some(parts) => if self.pending.len() == 0 && !self.span_settled {
                told.asked(parts, PendingOrigin::PromptLine, now.mono).pending
            } else {
                self.pending
            },
            None => self.pending,
        };
        let (state, actions) = told.all_fired(late, m.exit_code, now.wall);
        (SessionView { pending: seq![], span_settled: false, ..state }, actions)
    }

    /// A marker applied, with the actions that follow.
    pub open spec fn marked(self, m: markers::MarkerView, now: Moment) -> (
        SessionView,
        Seq<ActionView>,
    ) {
        match m.kind {
            MarkerKind::CommandStart => (self.started(m, now), seq![]),
            MarkerKind::CommandEnd => self.ended(m, now),
            MarkerKind::Cwd => match m.cwd {
                Some(cwd) => (SessionView { cwd: Some(cwd), ..self }, seq![]),
                None => (self, seq![]),
            },
            MarkerKind::NewConversation => (self, seq![]),
            MarkerKind::ClearContext => (self, seq![]),
        }
    }
}

/// The earlier of two instants.
pub open spec fn earlier(a: int, b: int) -> int {
    if a <= b {
        a
    } else {
        b
    }
}

// ---------------------------------------------------------------------------
// The session
// ---------------------------------------------------------------------------

spec fn pair_view(p: Option<(String, String)>) -> Option<(Seq<char>, Seq<char>)> {
    match p {
        Some(pair) => Some((pair.0@, pair.1@)),
        None => None,
    }
}

impl View for SessionState {
    type V = SessionView;

    closed spec fn view(&self) -> SessionView {
        SessionView {
            timeline: self.timeline@,
            mirror: self.mirror@,
            history: self.history@,
            previous_snapshot: pair_view(self.previous_snapshot),
            next_snapshot_id: self.next_snapshot_id as nat,
            next_command_id: self.next_command_id as nat,
            command_active: self.command_active,
            shell_integrated: self.shell_integrated,
            pending: pending_views(self.pending@),
            last_output_at: self.last_output_at,
            captured_since_output: self.captured_since_output,
            span_settled: self.span_settled,
            cwd: text::opt_text(self.cwd),
        }
    }
}

impl CompletionKind {
    pub fn as_str(self) -> (r: &'static str)
        ensures
            r@ == completion_name(self),
    {
        match self {
            CompletionKind::CommandEnd => "command_end",
            CompletionKind::Stabilized => "stabilized",
            CompletionKind::MaxWait => "max_wait",
        }
    }
}

fn stabilization_tier(origin: PendingOrigin, shape: RestingShape) -> (r: u64)
    ensures
        r == tier(origin, shape),
{
    match (origin, shape) {
        (PendingOrigin::InProgram, RestingShape::Prompt) => IN_PROGRAM_TIER_PROMPT,
        (PendingOrigin::InProgram, RestingShape::Short) => IN_PROGRAM_TIER_SHORT,
        (PendingOrigin::InProgram, RestingShape::Other) => IN_PROGRAM_TIER_OTHER,
        (PendingOrigin::PromptLine, RestingShape::Prompt) => PROMPT_LINE_TIER_PROMPT,
        (PendingOrigin::PromptLine, RestingShape::Short) => PROMPT_LINE_TIER_SHORT,
        (PendingOrigin::PromptLine, RestingShape::Other) => PROMPT_LINE_TIER_OTHER,
    }
}

fn max_wait(origin: PendingOrigin) -> (r: u64)
    ensures
        r == longest_wait(origin),
{
    match origin {
        PendingOrigin::InProgram => IN_PROGRAM_MAX_WAIT,
        PendingOrigin::PromptLine => PROMPT_LINE_MAX_WAIT,
    }
}

fn quiet_from(last_output_at: Option<u64>, submitted_at: u64) -> (r: u64)
    ensures
        r == quiet_since(last_output_at, submitted_at),
{
    match last_output_at {
        Some(at) => if at > submitted_at {
            at
        } else {
            submitted_at
        },
        None => submitted_at,
    }
}

fn is_prompt_tail(c: char) -> (r: bool)
    ensures
        r == ends_a_prompt(c),
{
    c == '$' || c == '#' || c == '%' || c == '>' || c == ':' || c == '?' || c == '❯' || c == '»'
        || c == '›'
}

/// The shape of a line that takes up so many columns and that the cursor rests on.
pub fn shape_at(line: &str, taken: u16, column: u16) -> (r: RestingShape)
    ensures
        r == shape_of(line@, taken as nat, column),
{
    let char_count: usize = line.unicode_len();
    // The cursor must rest at (or just past) the end of the text; a cursor mid-line means
    // output is being drawn, not awaited.
    if char_count == 0 || column < taken || char_count > PROMPT_LIKE_MAX_CHARS {
        return RestingShape::Other;
    }
    let last = line.get_char(char_count - 1);
    if is_prompt_tail(last) {
        RestingShape::Prompt
    } else {
        RestingShape::Short
    }
}

fn notice_of(prefix: &str, question: &str) -> (r: Action)
    ensures
        r@ == ActionView::Notice(prefix@ + question@),
{
    let mut text = String::new();
    text.append(prefix);
    text.append(question);
    assert(text@ =~= prefix@ + question@);
    Action::Notice(text)
}

fn min_instant(a: u128, b: u128) -> (r: u128)
    ensures
        r == earlier(a as int, b as int),
{
    if a <= b {
        a
    } else {
        b
    }
}

fn take_front(queue: &mut Vec<PendingQuestion>) -> (r: PendingQuestion)
    requires
        old(queue)@.len() > 0,
    ensures
        r@ == pending_views(old(queue)@)[0],
        pending_views(final(queue)@) == pending_views(old(queue)@).drop_first(),
        final(queue)@.len() == old(queue)@.len() - 1,
{
    let ghost before = queue@;
    let r = queue.remove(0);
    proof {
        assert forall|k: int| 0 <= k < queue@.len() implies queue@[k] == #[trigger] before[k + 1] by {
            assert(before.remove(0)[k] == before[k + 1]);
        }
        assert forall|k: int| 0 <= k < queue@.len() implies pending_views(queue@)[k]
            == pending_views(before).drop_first()[k] by {
            assert(queue@[k] == before[k + 1]);
        }
        assert(pending_views(queue@) =~= pending_views(before).drop_first());
    }
    r
}

fn push_action(actions: &mut Vec<Action>, action: Action)
    ensures
        action_views(final(actions)@) == action_views(old(actions)@).push(action@),
{
    actions.push(action);
    assert(action_views(actions@) =~= action_views(old(actions)@).push(action@));
}

fn append_actions(actions: &mut Vec<Action>, more: &mut Vec<Action>)
    ensures
        action_views(final(actions)@) == action_views(old(actions)@) + action_views(old(more)@),
{
    actions.append(more);
    assert(action_views(actions@) =~= action_views(old(actions)@) + action_views(old(more)@));
}

impl SessionState {
    /// The stores and the mirror are well-formed.
    pub closed spec fn wf(self) -> bool {
        self.timeline.wf() && self.mirror.wf() && self.history.wf()
    }

    pub fn new(columns: u16, rows: u16, shell_integrated: bool) -> (r: Self)
        requires
            columns >= 2,
            rows >= 1,
        ensures
            r.wf(),
            r@ == SessionView::fresh(columns, rows, shell_integrated),
            !r@.mirror.alternate(),
    {
        let r = SessionState {
            timeline: InMemoryTimelineStore::new(),
            mirror: TerminalMirror::new(columns, rows),
            history: CommandHistory::new(),
            previous_snapshot: None,
            next_snapshot_id: 1,
            next_command_id: 1,
            command_active: false,
            shell_integrated,
            pending: Vec::new(),
            last_output_at: None,
            captured_since_output: false,
            span_settled: false,
            cwd: None,
        };
        assert(pending_views(r.pending@) =~= Seq::<PendingView>::empty());
        r
    }

    /// Whether the counters have room for that many more events and that many more bytes
    /// of output.
    pub fn has_room(&self, events: u64, bytes: usize) -> (r: bool)
        requires
            self.wf(),
        ensures
            r == self@.room(events as nat, bytes as nat),
    {
        self.timeline.can_record(events) && u64::MAX - self.next_snapshot_id > events && u64::MAX
            - self.next_command_id > events && self.history.can_begin() && self.history.can_record(
            bytes,
        )
    }

    /// The index of completed commands.
    pub fn command_history(&self) -> (r: &CommandHistory)
        requires
            self.wf(),
        ensures
            r.wf(),
            r@ == self@.history,
    {
        &self.history
    }

    /// Takes the warnings that the command index accumulated, for the caller to log.
    pub fn take_history_warnings(&mut self) -> (r: Vec<String>)
        requires
            old(self).wf(),
        ensures
            final(self).wf(),
            r@.map_values(|w: String| w@) == old(self)@.history.warnings,
            final(self)@ == (SessionView {
                history: command_history::HistoryView {
                    warnings: seq![],
                    ..old(self)@.history
                },
                ..old(self)@
            }),
    {
        self.history.take_warnings()
    }

    /// The number of questions waiting.
    pub fn pending_count(&self) -> (r: usize)
        ensures
            r == self@.pending.len(),
    {
        self.pending.len()
    }

    /// Whether a question is waiting.
    pub fn has_pending(&self) -> (r: bool)
        ensures
            r == (self@.pending.len() > 0),
    {
        self.pending.len() > 0
    }

    /// Whether a bare Esc currently cancels a pending question. Armed only while at
    /// least one question is pending and the alternate screen is not active (`vim file
    /// #? q` must never lose vim's Esc).
    pub fn esc_cancellable(&self) -> (r: bool)
        ensures
            r == self@.esc_cancellable(),
    {
        self.pending.len() > 0 && !self.mirror.is_alt_screen()
    }

    /// Whether the alternate screen is active (a full-screen program owns the keys, so
    /// koshell must not claim interrupts or cancels).
    pub fn alt_screen(&self) -> (r: bool)
        ensures
            r == self@.mirror.alternate(),
    {
        self.mirror.is_alt_screen()
    }

    fn log_event(&mut self, event: TerminalEvent, wall: i64)
        requires
            old(self).wf(),
            old(self)@.timeline.next_id < u64::MAX,
        ensures
            final(self).wf(),
            final(self)@ == old(self)@.logged(event@, wall),
    {
        self.timeline.record_at(event, wall);
    }

    fn push_pending(&mut self, split: QuestionSplit, origin: PendingOrigin, mono: u64)
        requires
            old(self).wf(),
        ensures
            final(self).wf(),
            final(self)@ == old(self)@.asked((split.left@, split.question@), origin, mono),
    {
        let form = question_form(split.left.as_str());
        let p = PendingQuestion {
            question: split.question,
            form,
            origin,
            submitted_at: mono,
            receipt_notified: false,
        };
        let ghost view = p@;
        self.pending.push(p);
        assert(pending_views(self.pending@) =~= pending_views(old(self).pending@).push(view));
    }

    /// Records human keystrokes sent to the shell. Detects submits (Enter, which reads
    /// the rendered line) and user interrupts (Ctrl+C, which cancels pending questions).
    pub fn record_input(&mut self, data: &[u8], now: Moment) -> (r: Vec<Action>)
        requires
            old(self).wf(),
            old(self)@.room(1, 0),
        ensures
            final(self).wf(),
            (final(self)@, action_views(r@)) == old(self)@.input(data@, now),
    {
        let mut actions: Vec<Action> = Vec::new();
        assert(action_views(actions@) =~= Seq::<ActionView>::empty());
        if data.len() == 0 {
            return actions;
        }
        let text = lossy(data);
        self.log_event(TerminalEvent::HumanInput { data: text, visible: true }, now.wall);
        let ghost start = self@;
        let mut i: usize = 0;
        assert(data@.take(0) =~= Seq::<u8>::empty());
        while i < data.len()
            invariant
                self.wf(),
                i <= data.len(),
                (self@, action_views(actions@)) == start.typed(data@.take(i as int), now.mono),
            decreases data.len() - i,
        {
            let key: u8 = data[i];
            let ghost before = self@;
            let ghost told = action_views(actions@);
            assert(data@.take(i + 1).drop_last() =~= data@.take(i as int));
            assert(data@.take(i + 1).last() == key);
            if key == 0x03 && !self.mirror.is_alt_screen() {
                // A user-typed interrupt withdraws the line's future output, so pending
                // questions are cancelled; autonomous failures still fire via the
                // authoritative `command_end` marker. Not applied on the alternate
                // screen, where Ctrl+C belongs to the full-screen program.
                if self.command_active {
                    self.span_settled = true;
                }
                let mut notices = self.cancel_all_pending();
                append_actions(&mut actions, &mut notices);
                assert(self@ == before.interrupted());
            } else if (key == 0x0d || key == 0x0a) && (self.command_active
                || !self.shell_integrated) && !self.mirror.is_alt_screen()
                && !self.captured_since_output {
                // Submit-time capture is armed inside command spans (REPLs, remote
                // shells) and in shells without integration hooks. At the integrated
                // shell prompt the marker layer owns `#?`.
                self.capture_submitted_line(now.mono);
            }
            i += 1;
        }
        assert(data@.take(i as int) =~= data@);
        actions
    }

    /// Reads the cursor's logical line from the mirror at the submit instant and records
    /// a pending question when it contains `#?` outside quotes. Reading the rendered
    /// line (not keystrokes) is robust to history recall, arrow edits, and multibyte
    /// input, and doubles as the echo-verification arming check.
    fn capture_submitted_line(&mut self, mono: u64)
        requires
            old(self).wf(),
        ensures
            final(self).wf(),
            final(self)@ == old(self)@.submitted(mono),
    {
        let line = self.mirror.cursor_logical_line();
        match extract_question(line.as_str()) {
            None => {},
            Some(split) => {
                self.captured_since_output = true;
                let origin = if self.command_active {
                    PendingOrigin::InProgram
                } else {
                    PendingOrigin::PromptLine
                };
                self.push_pending(split, origin, mono);
            },
        }
    }

    fn cancel_all_pending(&mut self) -> (r: Vec<Action>)
        requires
            old(self).wf(),
        ensures
            final(self).wf(),
            final(self)@ == (SessionView { pending: seq![], ..old(self)@ }),
            action_views(r@) == interrupted_notices(old(self)@.pending),
    {
        let ghost all = self@.pending;
        let mut pending: Vec<PendingQuestion> = Vec::new();
        std::mem::swap(&mut pending, &mut self.pending);
        assert(pending_views(self.pending@) =~= Seq::<PendingView>::empty());
        let mut actions: Vec<Action> = Vec::new();
        let mut i: usize = 0;
        assert(action_views(actions@) =~= interrupted_notices(all.take(0)));
        while i < pending.len()
            invariant
                i <= pending@.len(),
                all == pending_views(pending@),
                action_views(actions@) == interrupted_notices(all.take(i as int)),
            decreases pending@.len() - i,
        {
            assert(all[i as int].question == pending@[i as int].question@);
            push_action(
                &mut actions,
                notice_of("#? cancelled (^C): ", pending[i].question.as_str()),
            );
            i += 1;
            assert(action_views(actions@) =~= interrupted_notices(all.take(i as int)));
        }
        assert(all.take(i as int) =~= all);
        actions
    }

    /// Cancels the most recently submitted pending question (the bare-Esc path). Returns
    /// `None` when nothing is pending: the caller should forward the Esc.
    pub fn cancel_latest(&mut self) -> (r: Option<Action>)
        requires
            old(self).wf(),
        ensures
            final(self).wf(),
            match old(self)@.withdrawn() {
                Some(done) => r is Some && (final(self)@, r->0@) == done,
                None => r is None && final(self)@ == old(self)@,
            },
    {
        if self.mirror.is_alt_screen() {
            return None;
        }
        match self.pending.pop() {
            None => None,
            Some(p) => {
                assert(p@ == old(self)@.pending.last());
                assert(pending_views(self.pending@) =~= old(self)@.pending.drop_last());
                if self.command_active && p.origin == PendingOrigin::PromptLine {
                    self.span_settled = true;
                }
                Some(notice_of("#? cancelled: ", p.question.as_str()))
            },
        }
    }

    /// Records visible PTY output, updates the mirror, and captures a snapshot. Output
    /// arrival resets the quiescence clock that stabilization firing debounces on.
    pub fn record_output(&mut self, visible: &[u8], now: Moment)
        requires
            old(self).wf(),
            old(self)@.room(2, visible@.len()),
        ensures
            final(self).wf(),
            final(self)@ == old(self)@.output(visible@, now),
    {
        if visible.len() == 0 {
            return;
        }
        let text = lossy(visible);
        self.log_event(TerminalEvent::PtyOutput { data: text }, now.wall);
        self.history.record_output(visible);
        self.mirror.write(visible);
        self.record_snapshot(now.wall);
        self.last_output_at = Some(now.mono);
        self.captured_since_output = false;
    }

    /// Feeds presentation (koshell or AI) output into the mirror, keeping snapshots
    /// truthful to what the user sees. Presentation output is not PTY output: it is
    /// excluded from terminal text context and it does not reset the stabilization
    /// quiescence clock (otherwise our own notices would delay firing).
    pub fn record_presentation_output(&mut self, data: &[u8], now: Moment)
        requires
            old(self).wf(),
            old(self)@.room(1, 0),
        ensures
            final(self).wf(),
            final(self)@ == old(self)@.presented(data@, now.wall),
    {
        if data.len() == 0 {
            return;
        }
        self.mirror.write(data);
        self.record_snapshot(now.wall);
    }

    /// The delay until the nearest pending-question deadline (receipt notice,
    /// stabilization tier, or max-wait), or `None` when there is nothing to wait for.
    /// Deadlines are suspended on the alternate screen; leaving it produces output,
    /// which re-enters this computation.
    pub fn next_deadline(&self, now: u64) -> (r: Option<u64>)
        requires
            self.wf(),
        ensures
            r == self@.deadline(now),
    {
        if self.pending.len() == 0 || self.mirror.is_alt_screen() {
            return None;
        }
        let shape = self.resting_shape();
        let ghost all = self@.pending;
        let mut nearest: Option<u128> = None;
        let mut i: usize = 0;
        assert(all.take(0) =~= Seq::<PendingView>::empty());
        while i < self.pending.len()
            invariant
                self.wf(),
                shape == self@.shape(),
                i <= self.pending@.len(),
                all == self@.pending,
                all == pending_views(self.pending@),
                match self@.nearest(all.take(i as int)) {
                    Some(at) => nearest is Some && nearest->0 == at,
                    None => nearest is None,
                },
                i > 0 ==> nearest is Some,
            decreases self.pending@.len() - i,
        {
            let p = &self.pending[i];
            assert(all.take(i + 1).drop_last() =~= all.take(i as int));
            assert(all.take(i + 1).last() == p@);
            let settles: u128 = quiet_from(self.last_output_at, p.submitted_at) as u128
                + stabilization_tier(p.origin, shape) as u128;
            let mut own: u128 = min_instant(
                p.submitted_at as u128 + max_wait(p.origin) as u128,
                settles,
            );
            if !p.receipt_notified {
                own = min_instant(p.submitted_at as u128 + RECEIPT_NOTICE_DELAY as u128, own);
            }
            nearest =
            match nearest {
                Some(other) => Some(min_instant(other, own)),
                None => Some(own),
            };
            i += 1;
        }
        assert(all.take(i as int) =~= all);
        match nearest {
            Some(deadline) => {
                let wait: u64 = wait_between(deadline, now);
                if wait == 0 {
                    Some(1)
                } else {
                    Some(wait)
                }
            },
            None => None,
        }
    }

    fn due_now(&self, p: &PendingQuestion, shape: RestingShape, mono: u64) -> (r: Option<
        CompletionKind,
    >)
        requires
            shape == self@.shape(),
        ensures
            r == self@.due(p@, mono),
    {
        let quiet: u64 = quiet_from(self.last_output_at, p.submitted_at);
        if elapsed_between(quiet, mono) >= stabilization_tier(p.origin, shape) {
            Some(CompletionKind::Stabilized)
        } else if elapsed_between(p.submitted_at, mono) >= max_wait(p.origin) {
            Some(CompletionKind::MaxWait)
        } else {
            None
        }
    }

    /// Applies time-based transitions: stabilization and max-wait fires, then receipt
    /// notices for questions that stay pending. Suspended on the alternate screen.
    pub fn poll(&mut self, now: Moment) -> (r: Vec<Action>)
        requires
            old(self).wf(),
            old(self)@.room(old(self)@.pending.len(), 0),
        ensures
            final(self).wf(),
            (final(self)@, action_views(r@)) == old(self)@.polled(now),
    {
        let mut fires: Vec<Action> = Vec::new();
        assert(action_views(fires@) =~= Seq::<ActionView>::empty());
        if self.pending.len() == 0 || self.mirror.is_alt_screen() {
            return fires;
        }
        let shape = self.resting_shape();
        let ghost start = self@;
        let ghost all = self@.pending;
        let mut notices: Vec<Action> = Vec::new();
        let mut kept: Vec<PendingQuestion> = Vec::new();
        let mut queue: Vec<PendingQuestion> = Vec::new();
        std::mem::swap(&mut queue, &mut self.pending);
        let count: usize = queue.len();
        let ghost done: int = 0;
        proof {
            assert(all.take(0) =~= Seq::<PendingView>::empty());
            assert(all.skip(0) =~= all);
            assert(pending_views(kept@) =~= Seq::<PendingView>::empty());
            assert(action_views(notices@) =~= Seq::<ActionView>::empty());
            assert(pending_views(self.pending@) =~= Seq::<PendingView>::empty());
            assert((SessionView { pending: all, ..self@ }) =~= start);
        }
        let mut i: usize = 0;
        while i < count
            invariant
                self.wf(),
                count == all.len(),
                i <= count,
                queue@.len() == count - i,
                start.pending == all,
                start.room(all.len(), 0),
                shape == start.shape(),
                pending_views(queue@) == all.skip(i as int),
                self.mirror@ == start.mirror,
                self.last_output_at == start.last_output_at,
                self.command_active == start.command_active,
                self@.timeline.next_id <= start.timeline.next_id + i,
                self@.next_command_id <= start.next_command_id + i,
                ({
                    let r = start.settle(all.take(i as int), now);
                    &&& SessionView { pending: all, ..self@ } == r.state
                    &&& pending_views(kept@) == r.kept
                    &&& action_views(fires@) == r.fires
                    &&& action_views(notices@) == r.notices
                }),
            decreases count - i,
        {
            let ghost before = start.settle(all.take(i as int), now);
            let mut p = take_front(&mut queue);
            proof {
                assert(all.take(i + 1).drop_last() =~= all.take(i as int));
                assert(all.take(i + 1).last() == all[i as int]);
                assert(all.skip(i as int)[0] == all[i as int]);
                assert(p@ == all[i as int]);
                assert(all.skip(i as int).drop_first() =~= all.skip(i + 1));
            }
            let due = self.due_now(&p, shape, now.mono);
            match due {
                Some(completion) => {
                    let still_running = self.command_active && p.origin
                        == PendingOrigin::PromptLine;
                    if still_running {
                        self.span_settled = true;
                    }
                    let ghost held = self@;
                    let fire = self.fire(p, completion, None, still_running, now.wall);
                    push_action(&mut fires, fire);
                    proof {
                        assert((SessionView { pending: all, ..held }) =~= (SessionView {
                            span_settled: before.state.span_settled || still_running,
                            ..before.state
                        }));
                        assert((SessionView { pending: all, ..self@ }) =~= start.settle(
                            all.take(i + 1),
                            now,
                        ).state);
                    }
                },
                None => {
                    if !p.receipt_notified && elapsed_between(p.submitted_at, now.mono)
                        >= RECEIPT_NOTICE_DELAY {
                        push_action(
                            &mut notices,
                            notice_of("#? waiting for output to settle: ", p.question.as_str()),
                        );
                        p.receipt_notified = true;
                    }
                    let ghost stays = p@;
                    let ghost earlier_kept = kept@;
                    kept.push(p);
                    assert(pending_views(kept@) =~= pending_views(earlier_kept).push(stays));
                },
            }
            i += 1;
        }
        assert(all.take(i as int) =~= all);
        self.pending = kept;
        append_actions(&mut fires, &mut notices);
        assert(self@ =~= start.polled(now).0);
        fires
    }

    /// Resizes the mirror and captures a snapshot at the new size.
    pub fn resize(&mut self, columns: u16, rows: u16, now: Moment)
        requires
            old(self).wf(),
            old(self)@.room(1, 0),
            columns >= 2,
            rows >= 1,
        ensures
            final(self).wf(),
            final(self)@ == old(self)@.resized(columns, rows, now.wall),
    {
        self.mirror.resize(columns, rows);
        self.record_snapshot(now.wall);
    }

    /// Forgets the terminal evidence: the recorded facts and the completed commands.
    pub fn forget(&mut self)
        requires
            old(self).wf(),
        ensures
            final(self).wf(),
            final(self)@ == old(self)@.forgotten(),
    {
        self.timeline.reset();
        self.history.forget();
        self.previous_snapshot = None;
    }

    /// Lets recorded facts age out while nothing is recorded.
    pub fn maintain(&mut self, now: Moment)
        requires
            old(self).wf(),
        ensures
            final(self).wf(),
            final(self)@ == (SessionView {
                timeline: old(self)@.timeline.compacted(now.wall),
                ..old(self)@
            }),
    {
        self.timeline.maintain_at(now.wall);
    }

    fn record_snapshot(&mut self, wall: i64)
        requires
            old(self).wf(),
            old(self)@.timeline.next_id < u64::MAX,
            old(self)@.next_snapshot_id < u64::MAX,
        ensures
            final(self).wf(),
            final(self)@ == old(self)@.snapped(wall),
    {
        let snapshot = self.mirror.snapshot();
        let mut snapshot_id = String::new();
        snapshot_id.append("snapshot-");
        push_decimal(&mut snapshot_id, self.next_snapshot_id);
        assert(snapshot_id@ =~= self@.snapshot_id());
        self.next_snapshot_id += 1;
        let (previous_snapshot_id, diff) = match &self.previous_snapshot {
            Some((id, screen)) => (
                Some(id.clone()),
                Some(summarize_screen_diff(screen.as_str(), snapshot.screen.as_str())),
            ),
            None => (None, None),
        };
        let event = TerminalEvent::ScreenSnapshot {
            snapshot_id: snapshot_id.clone(),
            rows: snapshot.rows,
            columns: snapshot.columns,
            alt_screen: snapshot.alt_screen,
            screen: Some(snapshot.screen.clone()),
            previous_snapshot_id,
            diff,
        };
        assert(event@ =~= old(self)@.snapshot_event());
        self.log_event(event, wall);
        self.previous_snapshot = Some((snapshot_id, snapshot.screen));
    }

    fn command_event_id(&mut self) -> (r: String)
        requires
            old(self).wf(),
            old(self)@.next_command_id < u64::MAX,
        ensures
            final(self).wf(),
            final(self)@ == (SessionView {
                next_command_id: old(self)@.next_command_id + 1,
                ..old(self)@
            }),
            r@ == old(self)@.command_id(),
    {
        let mut id = String::new();
        id.append("command-");
        push_decimal(&mut id, self.next_command_id);
        assert(id@ =~= self@.command_id());
        self.next_command_id += 1;
        id
    }

    /// Applies a shell-integration marker.
    ///
    /// `command_start` carries the full typed line and is where a prompt-layer `#?`
    /// becomes a pending question, enabling stabilization firing on non-terminating
    /// commands.
    ///
    /// `command_end` is the authoritative completion signal: it fires every pending
    /// question (including in-program ones: the child has exited, so their completion
    /// points are certainly reached). Extraction from the end marker's command text
    /// remains the fallback when no pending exists, unless the span's question was
    /// already settled by stabilization or a cancel.
    ///
    /// A span that was really executed also opens and closes a row of the command
    /// index; a reported working directory is remembered for the rows to come.
    pub fn handle_marker(&mut self, marker: ShellIntegrationMarker, now: Moment) -> (r: Vec<Action>)
        requires
            old(self).wf(),
            old(self)@.room(old(self)@.pending.len() + 2, 0),
        ensures
            final(self).wf(),
            (final(self)@, action_views(r@)) == old(self)@.marked(marker@, now),
    {
        let none: Vec<Action> = Vec::new();
        assert(action_views(none@) =~= Seq::<ActionView>::empty());
        match marker.kind {
            MarkerKind::CommandStart => {
                self.start_command(marker, now);
                none
            },
            MarkerKind::CommandEnd => self.end_command(marker, now),
            MarkerKind::Cwd => {
                if let Some(cwd) = marker.cwd {
                    self.cwd = Some(cwd);
                }
                none
            },
            MarkerKind::NewConversation => none,
            MarkerKind::ClearContext => none,
        }
    }

    fn start_command(&mut self, marker: ShellIntegrationMarker, now: Moment)
        requires
            old(self).wf(),
            old(self)@.room(1, 0),
        ensures
            final(self).wf(),
            final(self)@ == old(self)@.started(marker@, now),
    {
        if !self.command_active {
            self.span_settled = false;
            if let Some(command) = &marker.command {
                if let Some(split) = extract_question(command.as_str()) {
                    self.push_pending(split, PendingOrigin::PromptLine, now.mono);
                }
            }
        }
        let ghost opened = self@;
        if let Some(command) = marker.command {
            if marker.executed {
                let cwd = clone_opt(&self.cwd);
                self.history.begin_at(command.as_str(), cwd, now.wall);
            }
            let command_id = self.command_event_id();
            self.command_active = true;
            let ghost text = command@;
            self.log_event(
                TerminalEvent::CommandStart { command_id, command, cwd: None },
                now.wall,
            );
            assert(self@ =~= old(self)@.started(marker@, now));
        }
    }

    fn end_command(&mut self, marker: ShellIntegrationMarker, now: Moment) -> (r: Vec<Action>)
        requires
            old(self).wf(),
            old(self)@.room(old(self)@.pending.len() + 2, 0),
        ensures
            final(self).wf(),
            (final(self)@, action_views(r@)) == old(self)@.ended(marker@, now),
    {
        let ghost start = self@;
        let exit_code = marker.exit_code;
        let command = match marker.command {
            Some(c) => c,
            None => String::new(),
        };
        if marker.executed {
            self.history.end_at(exit_code, now.wall);
        }
        let command_id = self.command_event_id();
        self.command_active = false;
        self.log_event(
            TerminalEvent::CommandEnd {
                command_id,
                command: command.clone(),
                exit_code,
                duration_ms: None,
            },
            now.wall,
        );
        let ghost told = self@;
        if self.pending.len() == 0 && !self.span_settled {
            if let Some(split) = extract_question(command.as_str()) {
                self.push_pending(split, PendingOrigin::PromptLine, now.mono);
            }
        }
        let ghost late = self@.pending;
        let actions = self.fire_all(exit_code, now.wall, Ghost(told.pending));
        self.span_settled = false;
        assert(self@ =~= start.ended(marker@, now).0);
        actions
    }

    /// Fires every pending question. `kept` is what the fold keeps in the place of the
    /// queue that is being emptied.
    fn fire_all(&mut self, exit_code: Option<i32>, wall: i64, kept: Ghost<Seq<PendingView>>) -> (r:
        Vec<Action>)
        requires
            old(self).wf(),
            old(self)@.room(old(self)@.pending.len(), 0),
        ensures
            final(self).wf(),
            ({
                let done = (SessionView { pending: kept@, ..old(self)@ }).all_fired(
                    old(self)@.pending,
                    exit_code,
                    wall,
                );
                &&& final(self)@ == (SessionView { pending: seq![], ..done.0 })
                &&& action_views(r@) == done.1
            }),
    {
        let ghost start = SessionView { pending: kept@, ..self@ };
        let ghost all = self@.pending;
        let ghost counters = (self@.timeline.next_id, self@.next_command_id);
        let mut queue: Vec<PendingQuestion> = Vec::new();
        std::mem::swap(&mut queue, &mut self.pending);
        let count: usize = queue.len();
        let mut actions: Vec<Action> = Vec::new();
        let mut i: usize = 0;
        proof {
            assert(pending_views(self.pending@) =~= Seq::<PendingView>::empty());
            assert(action_views(actions@) =~= Seq::<ActionView>::empty());
            assert(all.take(0) =~= Seq::<PendingView>::empty());
            assert(all.skip(0) =~= all);
            assert(self@ =~= (SessionView { pending: seq![], ..start }));
        }
        while i < count
            invariant
                self.wf(),
                i <= count,
                count == all.len(),
                queue@.len() == count - i,
                pending_views(queue@) == all.skip(i as int),
                counters.0 + count < u64::MAX,
                counters.1 + count < u64::MAX,
                self@.timeline.next_id <= counters.0 + i,
                self@.next_command_id <= counters.1 + i,
                self@ == (SessionView {
                    pending: seq![],
                    ..start.all_fired(all.take(i as int), exit_code, wall).0
                }),
                action_views(actions@) == start.all_fired(all.take(i as int), exit_code, wall).1,
            decreases count - i,
        {
            let ghost before = start.all_fired(all.take(i as int), exit_code, wall).0;
            let p = take_front(&mut queue);
            proof {
                assert(all.take(i + 1).drop_last() =~= all.take(i as int));
                assert(all.take(i + 1).last() == all[i as int]);
                assert(all.skip(i as int)[0] == all[i as int]);
                assert(p@ == all[i as int]);
                assert(all.skip(i as int).drop_first() =~= all.skip(i + 1));
            }
            let fire = self.fire(p, CompletionKind::CommandEnd, exit_code, false, wall);
            push_action(&mut actions, fire);
            assert(self@ =~= (SessionView {
                pending: seq![],
                ..start.all_fired(all.take(i + 1), exit_code, wall).0
            }));
            i += 1;
        }
        assert(all.take(i as int) =~= all);
        actions
    }

    /// True when the mirror cursor rests at column 0 of an empty row, so presentation
    /// output can start on the current line without a leading blank line.
    pub fn at_line_start(&self) -> (r: bool)
        requires
            self.wf(),
        ensures
            r == self@.at_line_start(),
    {
        let (text, cursor_x) = self.mirror.cursor_row();
        cursor_x == 0 && text.as_str().unicode_len() == 0
    }

    /// True when the cursor rests on a prompt-shaped line outside the alternate screen.
    /// Presentation uses this to decide on anchored streaming and for notices that
    /// keep the prompt as the last line: stabilization fires only after the prompt has
    /// rendered, so AI content is inserted above the live input line.
    pub fn resting_prompt(&self) -> (r: bool)
        requires
            self.wf(),
        ensures
            r == self@.resting_prompt(),
    {
        !self.mirror.is_alt_screen() && self.resting_shape() == RestingShape::Prompt
    }

    /// The live region (the cursor's logical line, styled) for presentation's anchored
    /// streaming; `None` on the alternate screen or when the cursor rests
    /// mid-logical-line.
    pub fn live_region(&self) -> (r: Option<LiveRegionSnapshot>)
        requires
            self.wf(),
        ensures
            match self@.mirror.region() {
                Some(region) => r is Some && r->0@ == region,
                None => r is None,
            },
    {
        self.mirror.live_region()
    }

    /// Cursor facts sampled after presentation writes AI text: column, terminal
    /// pending-wrap state, and the right-trimmed plain text of the cursor row (the AI
    /// tail used by the anchored-streaming invariant check).
    pub fn cursor_probe(&self) -> (r: (u16, bool, String))
        requires
            self.wf(),
        ensures
            r.0 == self@.mirror.cursor().column,
            r.1 == self@.mirror.cursor().needs_wrap,
            r.2@ == self@.mirror.cursor_text(),
    {
        let (text, cursor_x) = self.mirror.cursor_row();
        (cursor_x, self.mirror.cursor_needs_wrap(), text)
    }

    /// The shape of the line the cursor rests on, for the debounce modulator.
    fn resting_shape(&self) -> (r: RestingShape)
        requires
            self.wf(),
        ensures
            r == self@.shape(),
    {
        let viewport = self.mirror.viewport();
        let (text, cursor_x) = viewport.cursor_row();
        shape_at(text.as_str(), viewport.cursor_columns(), cursor_x)
    }

    fn fire(
        &mut self,
        p: PendingQuestion,
        completion: CompletionKind,
        exit_code: Option<i32>,
        still_running: bool,
        wall: i64,
    ) -> (r: Action)
        requires
            old(self).wf(),
            old(self)@.timeline.next_id < u64::MAX,
            old(self)@.next_command_id < u64::MAX,
        ensures
            final(self).wf(),
            (final(self)@, r@) == old(self)@.fired(p@, completion, exit_code, still_running, wall),
            final(self)@.timeline.next_id == old(self)@.timeline.next_id + 1,
    {
        let context_package = self.build_context_package(
            p.question.as_str(),
            p.form,
            completion,
            exit_code,
            still_running,
        );
        let mut request_id = String::new();
        request_id.append("request-command-");
        push_decimal(&mut request_id, self.next_command_id);
        assert(request_id@ =~= "request-command-"@ + text::decimal(self@.next_command_id));
        self.next_command_id += 1;
        self.log_event(
            TerminalEvent::AiRequest { request_id, question: p.question.clone() },
            wall,
        );
        Action::Fire(
            Trigger {
                question: p.question,
                completion,
                still_running,
                submitted_at: p.submitted_at,
                context_package,
            },
        )
    }

    fn build_context_package(
        &self,
        question: &str,
        form: TriggerForm,
        completion: CompletionKind,
        exit_code: Option<i32>,
        still_running: bool,
    ) -> (r: Json)
        ensures
            r@ == package_of(
                question@,
                form,
                completion,
                exit_code,
                still_running,
                context::context_of(self@.timeline.entries, default_budgets()),
            ),
    {
        let options = TerminalContextOptions::default();
        let context = build_terminal_context(&self.timeline, &options);
        let mut trigger: Vec<(String, Json)> = Vec::new();
        put(&mut trigger, "form", text_value(form.as_str()));
        put(&mut trigger, "completion", text_value(completion.as_str()));
        put(&mut trigger, "stillRunning", Json::Bool(still_running));
        if let Some(code) = exit_code {
            put(&mut trigger, "exitCode", Json::Int(code as i64));
        }
        let mut package: Vec<(String, Json)> = Vec::new();
        put(&mut package, "contractVersion", text_value(AI_CONTEXT_CONTRACT_VERSION));
        put(&mut package, "question", text_value(question));
        put(&mut package, "trigger", Json::Object(trigger));
        put(&mut package, "dynamicContext", context_json(&context));
        Json::Object(package)
    }
}

} // verus!
