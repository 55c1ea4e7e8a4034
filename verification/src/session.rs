//! The interactive session: what the single processor of a wrapped shell does with each
//! thing that happens to it.
//!
//! PTY output, keystrokes, window sizes and daemon replies arrive as messages. The
//! processor owns the terminal state and decides, message by message, what is written to
//! the terminal, which questions are due, and whether the daemon is asked to stop.

use crate::clock;
use crate::clock::{elapsed_between, Moment};
use crate::command_history;
use crate::event_log;
use crate::event_log::{Event, EventLog};
use crate::markers;
use crate::markers::{MarkerKind, MarkerScanner, Segment};
use crate::presentation::{
    notice_before_prompt, show, Presentation, PresentationView, Screen, Stage,
};
use crate::proto::{ClientMessage, ServerMessage};
use crate::text;
use crate::text::push_decimal;
use crate::trigger::{Action, ActionView, CompletionKind, SessionState, SessionView, Trigger};
use vstd::prelude::*;
use vstd::slice::{slice_subrange, slice_to_vec};
use vstd::utf8::encode_utf8;

verus! {

/// The width of a terminal that does not tell its own.
pub const DEFAULT_COLUMNS: u16 = 80;

/// The height of a terminal that does not tell its own.
pub const DEFAULT_ROWS: u16 = 24;

/// What clears the screen and its scrollback, and homes the cursor.
pub const CLEAR_SCREEN: &'static str = "\x1b[2J\x1b[3J\x1b[H";

/// What the user is told of a discarded conversation.
pub const NEW_CONVERSATION_NOTICE: &'static str = "new conversation";

/// What the user is told of discarded evidence.
pub const CLEARED_NOTICE: &'static str = "terminal context cleared; new conversation";

/// How often facts age out while nothing happens, in milliseconds.
pub const IDLE_TICK: u64 = 60_000;

/// The byte of a Ctrl+C.
pub const INTERRUPT: u8 = 0x03;

/// Clamps a terminal size to at least 1x1, substituting defaults for a zero dimension. A
/// PTY without a configured window size reports 0x0.
pub fn sane_size(size: (u16, u16)) -> (r: (u16, u16))
    ensures
        r.0 == if size.0 == 0 {
            DEFAULT_COLUMNS
        } else {
            size.0
        },
        r.1 == if size.1 == 0 {
            DEFAULT_ROWS
        } else {
            size.1
        },
{
    let (columns, rows) = size;
    (
        if columns == 0 {
            DEFAULT_COLUMNS
        } else {
            columns
        },
        if rows == 0 {
            DEFAULT_ROWS
        } else {
            rows
        },
    )
}

/// The size that a terminal's mirror gets: a sane one, and wide enough for a wide
/// character.
pub fn mirror_size(size: (u16, u16)) -> (r: (u16, u16))
    ensures
        r.0 == if size.0 == 0 {
            DEFAULT_COLUMNS
        } else if size.0 == 1 {
            2
        } else {
            size.0
        },
        r.1 == if size.1 == 0 {
            DEFAULT_ROWS
        } else {
            size.1
        },
{
    let (columns, rows) = sane_size(size);
    (
        if columns < 2 {
            2
        } else {
            columns
        },
        rows,
    )
}

// ---------------------------------------------------------------------------
// Keystrokes
// ---------------------------------------------------------------------------

/// A chunk of keystrokes, parted at a Ctrl+C that does not reach the child.
#[derive(Debug, Clone, PartialEq, Eq)]
pub struct Keystrokes {
    /// Forwarded first.
    pub before: Vec<u8>,
    /// Whether a Ctrl+C was swallowed behind that.
    pub interrupt: bool,
    /// Forwarded last.
    pub after: Vec<u8>,
}

/// The position of the first Ctrl+C.
pub open spec fn first_interrupt(keys: Seq<u8>) -> Option<int>
    decreases keys.len(),
{
    if keys.len() == 0 {
        None
    } else if keys[0] == INTERRUPT {
        Some(0int)
    } else {
        match first_interrupt(keys.skip(1)) {
            Some(i) => Some(i + 1),
            None => None,
        }
    }
}

/// A chunk as it is forwarded: while the interrupt window is armed, the first Ctrl+C in
/// it is swallowed. It aborts the streaming answer and never reaches the child, whose
/// line editor would discard the input typed ahead on the live line.
pub open spec fn parted(keys: Seq<u8>, armed: bool) -> (Seq<u8>, bool, Seq<u8>) {
    match first_interrupt(keys) {
        Some(i) if armed => (keys.take(i), true, keys.skip(i + 1)),
        _ => (seq![], false, keys),
    }
}

proof fn lemma_first_interrupt(keys: Seq<u8>)
    ensures
        match first_interrupt(keys) {
            Some(i) => 0 <= i < keys.len() && keys[i] == INTERRUPT && forall|k: int|
                0 <= k < i ==> #[trigger] keys[k] != INTERRUPT,
            None => forall|k: int| 0 <= k < keys.len() ==> #[trigger] keys[k] != INTERRUPT,
        },
    decreases keys.len(),
{
    if keys.len() > 0 && keys[0] != INTERRUPT {
        let rest = keys.skip(1);
        lemma_first_interrupt(rest);
        assert forall|k: int| 0 < k < keys.len() implies #[trigger] keys[k] == rest[k - 1] by {
        }
    }
}

proof fn lemma_first_interrupt_is(keys: Seq<u8>, i: int)
    requires
        0 <= i < keys.len(),
        keys[i] == INTERRUPT,
        forall|k: int| 0 <= k < i ==> #[trigger] keys[k] != INTERRUPT,
    ensures
        first_interrupt(keys) == Some(i),
{
    lemma_first_interrupt(keys);
}

/// Swallowing a Ctrl+C takes exactly that byte out of the keystrokes, and only while the
/// interrupt window is armed; everything else is forwarded, in order.
pub proof fn only_an_armed_interrupt_is_swallowed(keys: Seq<u8>, armed: bool)
    ensures
        ({
            let (before, interrupt, after) = parted(keys, armed);
            &&& interrupt ==> armed && keys == before + seq![INTERRUPT] + after
            &&& !interrupt ==> before + after == keys
            &&& interrupt <==> armed && keys.contains(INTERRUPT)
        }),
{
    lemma_first_interrupt(keys);
    let (before, interrupt, after) = parted(keys, armed);
    if interrupt {
        let i = first_interrupt(keys)->0;
        assert(keys[i] == INTERRUPT);
        assert(keys =~= before + seq![INTERRUPT] + after);
    } else {
        assert(before + after =~= keys);
    }
}

fn interrupt_at(keys: &[u8]) -> (r: Option<usize>)
    ensures
        match r {
            Some(i) => first_interrupt(keys@) == Some(i as int),
            None => first_interrupt(keys@) is None,
        },
        match r {
            Some(i) => i < keys@.len(),
            None => true,
        },
{
    let mut i: usize = 0;
    while i < keys.len()
        invariant
            i <= keys@.len(),
            forall|k: int| 0 <= k < i ==> #[trigger] keys@[k] != INTERRUPT,
        decreases keys@.len() - i,
    {
        if keys[i] == INTERRUPT {
            proof {
                lemma_first_interrupt_is(keys@, i as int);
            }
            return Some(i);
        }
        i += 1;
    }
    proof {
        lemma_first_interrupt(keys@);
    }
    None
}

/// Parts a chunk of keystrokes.
pub fn part_keystrokes(keys: &[u8], armed: bool) -> (r: Keystrokes)
    ensures
        (r.before@, r.interrupt, r.after@) == parted(keys@, armed),
{
    if armed {
        if let Some(i) = interrupt_at(keys) {
            let count: usize = keys.len();
            let r = Keystrokes {
                before: slice_to_vec(slice_subrange(keys, 0, i)),
                interrupt: true,
                after: slice_to_vec(slice_subrange(keys, i + 1, count)),
            };
            assert(r.before@ =~= keys@.take(i as int));
            assert(r.after@ =~= keys@.skip(i + 1));
            return r;
        }
    }
    let r = Keystrokes { before: Vec::new(), interrupt: false, after: slice_to_vec(keys) };
    assert(r.before@ =~= seq![]);
    r
}

/// Whether a chunk holds anything but Ctrl+C.
pub open spec fn is_typing(keys: Seq<u8>) -> bool {
    exists|i: int| 0 <= i < keys.len() && #[trigger] keys[i] != INTERRUPT
}

fn holds_typing(keys: &[u8]) -> (r: bool)
    ensures
        r == is_typing(keys@),
{
    let mut i: usize = 0;
    while i < keys.len()
        invariant
            i <= keys@.len(),
            forall|k: int| 0 <= k < i ==> #[trigger] keys@[k] == INTERRUPT,
        decreases keys@.len() - i,
    {
        if keys[i] != INTERRUPT {
            return true;
        }
        i += 1;
    }
    false
}

// ---------------------------------------------------------------------------
// A turn of the processor
// ---------------------------------------------------------------------------

/// Something that happens to a session.
#[derive(Debug, Clone, PartialEq, Eq)]
pub enum Msg {
    /// PTY output.
    Pty(Vec<u8>),
    /// Keystrokes, as forwarded to the child.
    Input(Vec<u8>),
    /// The window's new size, columns first.
    Resize(u16, u16),
    /// A reply from the AI daemon.
    Daemon(ServerMessage),
    /// A Ctrl+C was swallowed while the interrupt window was armed.
    Interrupt,
    /// The child is gone.
    Exit,
}

/// What follows from a message.
#[derive(Debug)]
pub struct Turn {
    /// What the questions lead to, in order.
    pub actions: Vec<Action>,
    /// The resets that were asked for, in order.
    pub controls: Vec<MarkerKind>,
    /// A request that the daemon should stop serving.
    pub cancel: Option<String>,
    /// Whether a swallowed Ctrl+C is to be written to the child after all.
    pub forward: bool,
    /// Whether the session is over.
    pub over: bool,
}

/// The model of a turn: what the processor knows and what was written, beside what
/// follows.
#[verifier::ext_equal]
pub struct TurnView {
    pub stage: Stage,
    /// The bytes that the marker scanner holds back.
    pub held: Seq<u8>,
    pub actions: Seq<ActionView>,
    pub controls: Seq<MarkerKind>,
    pub cancel: Option<Seq<char>>,
    pub forward: bool,
    pub over: bool,
}

impl TurnView {
    /// The session's facts.
    pub open spec fn session(self) -> SessionView {
        self.stage.screen.session
    }

    /// The session's facts changed, with actions that follow.
    pub open spec fn acted(self, done: (SessionView, Seq<ActionView>)) -> TurnView {
        TurnView {
            stage: Stage {
                screen: Screen { session: done.0, ..self.stage.screen },
                ..self.stage
            },
            actions: self.actions + done.1,
            ..self
        }
    }

    /// Whether the counters have room for a segment.
    #[verifier::opaque]
    pub open spec fn takes(self, segment: markers::SegmentView) -> bool {
        match segment {
            markers::SegmentView::Visible(bytes) => self.counts(bytes.len()),
            markers::SegmentView::Marker(_) => self.session().room(
                self.session().pending.len() + 2,
                0,
            ),
        }
    }

    /// Whether the counters have room for presentation output and that many bytes.
    pub open spec fn counts(self, bytes: nat) -> bool {
        self.stage.presentation.fits(self.session(), bytes)
            && self.stage.presentation.held().len() + bytes <= usize::MAX
    }

    /// A segment of PTY output taken in.
    #[verifier::opaque]
    pub open spec fn segment(self, segment: markers::SegmentView, now: Moment) -> TurnView {
        match segment {
            markers::SegmentView::Visible(bytes) => TurnView {
                stage: self.stage.pty(bytes, now),
                ..self
            },
            markers::SegmentView::Marker(marker) => {
                let done = self.acted(self.session().marked(marker, now));
                if marker.kind is NewConversation || marker.kind is ClearContext {
                    TurnView { controls: done.controls.push(marker.kind), ..done }
                } else {
                    done
                }
            },
        }
    }

    /// Segments of PTY output taken in, in order.
    pub open spec fn fed(self, segments: Seq<markers::SegmentView>, now: Moment) -> TurnView
        decreases segments.len(),
    {
        if segments.len() == 0 {
            self
        } else {
            self.fed(segments.drop_last(), now).segment(segments.last(), now)
        }
    }

    /// Whether the counters have room for each of some segments in turn.
    pub open spec fn takes_all(self, segments: Seq<markers::SegmentView>, now: Moment) -> bool
        decreases segments.len(),
    {
        segments.len() == 0 || (self.takes_all(segments.drop_last(), now) && self.fed(
            segments.drop_last(),
            now,
        ).takes(segments.last()))
    }

    /// A chunk of keystrokes counted, where it is typing.
    pub open spec fn counted(self, keys: Seq<u8>) -> TurnView {
        if is_typing(keys) {
            TurnView {
                stage: Stage { presentation: self.stage.presentation.typed_into(), ..self.stage },
                ..self
            }
        } else {
            self
        }
    }

    /// Keystrokes recorded.
    pub open spec fn recorded(self, keys: Seq<u8>, now: Moment) -> TurnView {
        self.acted(self.session().input(keys, now))
    }

    /// The response in flight withdrawn, where there is one.
    pub open spec fn withdrawn(self, now: Moment) -> TurnView {
        match self.stage.interrupted(now) {
            Some(done) => TurnView { stage: done.0, cancel: Some(done.1), ..self },
            None => self,
        }
    }

    /// Keystrokes taken in. A forwarded Ctrl+C (a command still runs, or the window was
    /// stale) also withdraws the response in flight: pending and dispatched questions
    /// are cancelled alike, so withdrawal never depends on dispatch timing.
    pub open spec fn typed(self, keys: Seq<u8>, now: Moment) -> TurnView {
        let told = self.counted(keys).recorded(keys, now);
        if keys.contains(INTERRUPT) && !told.session().mirror.alternate() {
            told.withdrawn(now)
        } else {
            told
        }
    }

    /// Whether the counters have room for keystrokes.
    pub open spec fn takes_keys(self, keys: Seq<u8>, now: Moment) -> bool {
        let told = self.counted(keys).recorded(keys, now);
        &&& self.counts(0)
        &&& keys.contains(INTERRUPT) && !told.session().mirror.alternate() ==> told.counts(0)
    }

    /// A swallowed Ctrl+C taken in. Where the race was lost (the response finished
    /// first), it is forwarded to the child and treated as ordinary input.
    pub open spec fn interrupted(self, now: Moment) -> TurnView {
        match self.stage.interrupted(now) {
            Some(_) => self.withdrawn(now),
            None => TurnView { forward: true, ..self.recorded(seq![INTERRUPT], now) },
        }
    }

    /// A message taken in.
    pub open spec fn received(self, msg: Option<Msg>, now: Moment) -> TurnView {
        match msg {
            Some(Msg::Pty(bytes)) => {
                let whole = self.held + bytes@;
                TurnView {
                    held: markers::held(whole),
                    ..self.fed(markers::segments(whole), now)
                }
            },
            Some(Msg::Daemon(message)) => TurnView { stage: self.stage.told(message, now), ..self },
            Some(Msg::Input(keys)) => self.typed(keys@, now),
            Some(Msg::Resize(columns, rows)) => self.acted(
                (self.session().resized(columns, rows, now.wall), seq![]),
            ),
            Some(Msg::Interrupt) => self.interrupted(now),
            Some(Msg::Exit) => TurnView { over: true, ..self },
            None => self,
        }
    }

    /// Whether the counters have room for a message.
    pub open spec fn takes_message(self, msg: Option<Msg>, now: Moment) -> bool {
        match msg {
            Some(Msg::Pty(bytes)) => self.takes_all(markers::segments(self.held + bytes@), now),
            Some(Msg::Input(keys)) => self.takes_keys(keys@, now),
            Some(Msg::Exit) => true,
            None => true,
            _ => self.counts(0),
        }
    }

    /// Due deadlines fired: those of the questions, then those of the presentation.
    pub open spec fn settled(self, now: Moment) -> TurnView {
        let asked = self.acted(self.session().polled(now));
        TurnView { stage: asked.stage.polled(now), ..asked }
    }

    /// Whether the counters have room for due deadlines.
    pub open spec fn takes_deadlines(self, now: Moment) -> bool {
        &&& self.session().room(self.session().pending.len(), 0)
        &&& self.acted(self.session().polled(now)).counts(0)
    }

    /// A whole turn: the message, then the deadlines, unless the session is over.
    pub open spec fn turned(self, msg: Option<Msg>, now: Moment) -> TurnView {
        let told = self.received(msg, now);
        if told.over {
            told
        } else {
            told.settled(now)
        }
    }

    /// Whether the counters have room for a whole turn.
    pub open spec fn takes_turn(self, msg: Option<Msg>, now: Moment) -> bool {
        let told = self.received(msg, now);
        &&& self.takes_message(msg, now)
        &&& !told.over ==> told.takes_deadlines(now)
    }
}

// ---------------------------------------------------------------------------
// A question handed over
// ---------------------------------------------------------------------------

/// A question as it is handed to the daemon: the request to send, and what to remember
/// of it.
#[derive(Debug)]
pub struct Dispatch {
    pub message: ClientMessage,
    pub ticket: Ticket,
}

/// What is remembered of a question that was handed over.
#[derive(Debug, Clone, PartialEq, Eq)]
pub struct Ticket {
    pub request_id: String,
    pub question: String,
    pub completion: CompletionKind,
    pub still_running: bool,
    pub submitted_at: u64,
}

/// The id of a session's request, by its number.
pub open spec fn request_name(seq: nat) -> Seq<char> {
    "koshell-req-"@ + text::decimal(seq)
}

/// No two requests of a session share an id.
pub proof fn request_ids_are_distinct(a: nat, b: nat)
    requires
        request_name(a) == request_name(b),
    ensures
        a == b,
{
    let lead = "koshell-req-"@;
    assert(text::decimal(a) =~= request_name(a).skip(lead.len() as int));
    assert(text::decimal(b) =~= request_name(b).skip(lead.len() as int));
    text::lemma_decimal_injective(a, b);
}

/// In what completion state a question fired, where that is worth telling.
pub open spec fn annotation(completion: CompletionKind, still_running: bool) -> Seq<char> {
    if still_running && !(completion is CommandEnd) {
        " (command may still be running)"@
    } else if !still_running && completion is MaxWait {
        " (output not settled)"@
    } else {
        ""@
    }
}

/// What the user is told of a question that will get no answer.
pub open spec fn unavailable_notice(ticket: Ticket) -> Seq<char> {
    "#? received (AI daemon unavailable)"@ + annotation(ticket.completion, ticket.still_running)
        + ": "@ + ticket.question@
}

/// What the event log says of a question handed over.
pub open spec fn dispatch_event(ticket: Ticket, sent: bool, mono: u64) -> event_log::EventView {
    if sent {
        event_log::EventView::Dispatched {
            request_id: ticket.request_id@,
            question: ticket.question@,
            fire_reason: crate::trigger::completion_name(ticket.completion),
            still_running: ticket.still_running,
            submit_to_dispatch_ms: clock::elapsed(ticket.submitted_at, mono) as u64,
        }
    } else {
        event_log::EventView::DispatchFailed {
            request_id: ticket.request_id@,
            question: ticket.question@,
            fire_reason: crate::trigger::completion_name(ticket.completion),
            reason: "daemon_unavailable"@,
        }
    }
}

fn annotate(completion: CompletionKind, still_running: bool) -> (r: &'static str)
    ensures
        r@ == annotation(completion, still_running),
{
    match (completion, still_running) {
        (CompletionKind::Stabilized, true) => " (command may still be running)",
        (CompletionKind::MaxWait, true) => " (command may still be running)",
        (CompletionKind::MaxWait, false) => " (output not settled)",
        _ => "",
    }
}

fn unavailable_text(ticket: &Ticket) -> (r: String)
    ensures
        r@ == unavailable_notice(*ticket),
{
    let mut out = String::new();
    out.append("#? received (AI daemon unavailable)");
    out.append(annotate(ticket.completion, ticket.still_running));
    out.append(": ");
    out.append(ticket.question.as_str());
    assert(out@ =~= unavailable_notice(*ticket));
    out
}

/// The request that withdraws another one.
pub fn ai_cancel(request_id: String) -> (r: ClientMessage)
    ensures
        r == (ClientMessage::AiCancel { request_id }),
{
    ClientMessage::AiCancel { request_id }
}

// ---------------------------------------------------------------------------
// The processor
// ---------------------------------------------------------------------------

/// How long to wait for the next message.
#[derive(Debug, Clone, Copy, PartialEq, Eq, Structural)]
pub struct Rest {
    /// The longest wait, in milliseconds.
    pub limit: u64,
    /// Whether nothing is due at its end but that facts age out.
    pub idle: bool,
}

/// Owns the terminal state of a session.
pub struct Processor {
    state: SessionState,
    scanner: MarkerScanner,
    presentation: Presentation,
    request_seq: u64,
}

/// The model of a processor.
#[verifier::ext_equal]
pub struct ProcessorView {
    pub session: SessionView,
    pub held: Seq<u8>,
    pub presentation: PresentationView,
    /// How many questions were handed over so far.
    pub request_seq: nat,
}

impl View for Processor {
    type V = ProcessorView;

    closed spec fn view(&self) -> ProcessorView {
        ProcessorView {
            session: self.state@,
            held: self.scanner@,
            presentation: self.presentation@,
            request_seq: self.request_seq as nat,
        }
    }
}

impl ProcessorView {
    /// The processor's terminal, with what was written so far.
    pub open spec fn stage(self, out: Seq<u8>) -> Stage {
        Stage {
            presentation: self.presentation,
            screen: Screen { session: self.session, out },
        }
    }

    /// A turn that begins.
    pub open spec fn begins(self, out: Seq<u8>) -> TurnView {
        TurnView {
            stage: self.stage(out),
            held: self.held,
            actions: seq![],
            controls: seq![],
            cancel: None,
            forward: false,
            over: false,
        }
    }

    /// The processor as a turn leaves it.
    pub open spec fn left(self, turn: TurnView) -> ProcessorView {
        ProcessorView {
            session: turn.stage.screen.session,
            held: turn.held,
            presentation: turn.stage.presentation,
            ..self
        }
    }

    /// The wait until something is due: the nearer of the questions' deadline and the
    /// presentation's.
    pub open spec fn wait(self, mono: u64) -> Option<u64> {
        match (self.session.deadline(mono), self.presentation.deadline(mono)) {
            (Some(a), Some(b)) => Some(
                if a <= b {
                    a
                } else {
                    b
                },
            ),
            (Some(a), None) => Some(a),
            (None, other) => other,
        }
    }

    /// Whether a Ctrl+C currently belongs to the AI response instead of the child: a
    /// stream-mode response is in flight and the alternate screen is inactive.
    pub open spec fn armed(self) -> bool {
        self.presentation.owns_interrupt() && !self.session.mirror.alternate()
    }

    /// A reset carried out on the terminal's side: a new conversation is only announced,
    /// while clearing also discards the screen and the terminal evidence.
    pub open spec fn controlled(self, kind: MarkerKind, out: Seq<u8>, wall: i64) -> Stage {
        let stage = self.stage(out);
        match kind {
            MarkerKind::NewConversation => Stage {
                screen: stage.screen.notice_before(NEW_CONVERSATION_NOTICE@, wall),
                ..stage
            },
            MarkerKind::ClearContext => {
                let told = stage.screen.show(encode_utf8(CLEAR_SCREEN@), wall).notice_before(
                    CLEARED_NOTICE@,
                    wall,
                );
                Stage {
                    screen: Screen { session: told.session.forgotten(), ..told },
                    ..stage
                }
            },
            _ => stage,
        }
    }

    /// A question handed over, or not.
    pub open spec fn handed(self, ticket: Ticket, sent: bool, out: Seq<u8>, now: Moment) -> Stage {
        if sent {
            Stage {
                presentation: self.presentation.noted(
                    ticket.request_id@,
                    ticket.still_running,
                    self.session,
                    now.mono,
                ),
                ..self.stage(out)
            }
        } else {
            Stage {
                screen: self.stage(out).screen.notice_before(unavailable_notice(ticket), now.wall),
                ..self.stage(out)
            }
        }
    }
}

/// The model of what follows from a message.
pub open spec fn follows(turn: Turn, t: TurnView) -> bool {
    &&& crate::trigger::action_views(turn.actions@) == t.actions
    &&& turn.controls@ == t.controls
    &&& text::opt_text(turn.cancel) == t.cancel
    &&& turn.forward == t.forward
    &&& turn.over == t.over
}

/// What was gathered of a turn so far.
struct Gathered {
    actions: Vec<Action>,
    controls: Vec<MarkerKind>,
}

impl Gathered {
    fn turn(self, cancel: Option<String>, forward: bool, over: bool) -> (r: Turn)
        ensures
            r == (Turn {
                actions: self.actions,
                controls: self.controls,
                cancel,
                forward,
                over,
            }),
    {
        Turn { actions: self.actions, controls: self.controls, cancel, forward, over }
    }
}

fn append_actions(all: &mut Vec<Action>, more: Vec<Action>)
    ensures
        crate::trigger::action_views(final(all)@) == crate::trigger::action_views(old(all)@)
            + crate::trigger::action_views(more@),
{
    let mut rest = more;
    all.append(&mut rest);
    assert(crate::trigger::action_views(all@) =~= crate::trigger::action_views(old(all)@)
        + crate::trigger::action_views(more@));
}

/// The models of some segments.
pub open spec fn segment_views(segments: Seq<Segment>) -> Seq<markers::SegmentView> {
    segments.map_values(|s: Segment| s@)
}

impl Processor {
    /// The state's own invariants.
    pub closed spec fn wf(self) -> bool {
        self.state.wf()
    }

    /// The turn so far, as a processor, what it wrote and what follows stand for it.
    spec fn so_far(self, out: Seq<u8>, gathered: Gathered) -> TurnView {
        TurnView {
            actions: crate::trigger::action_views(gathered.actions@),
            controls: gathered.controls@,
            ..self@.begins(out)
        }
    }

    /// A session on a terminal of that size, logging into `log`.
    pub fn new(columns: u16, rows: u16, shell_integrated: bool, log: EventLog) -> (r: Self)
        requires
            columns >= 2,
            rows >= 1,
        ensures
            r.wf(),
            r@ == (ProcessorView {
                session: SessionView::fresh(columns, rows, shell_integrated),
                held: seq![],
                presentation: PresentationView { log: log@, ..PresentationView::fresh() },
                request_seq: 0,
            }),
            !r@.session.mirror.alternate(),
    {
        let mut presentation = Presentation::new();
        presentation.set_event_log(log);
        let r = Processor {
            state: SessionState::new(columns, rows, shell_integrated),
            scanner: MarkerScanner::new(),
            presentation,
            request_seq: 0,
        };
        assert(r@.held =~= seq![]);
        r
    }

    /// The wait until something is due, in milliseconds; `None` where nothing is.
    pub fn next_wait(&self, now: u64) -> (r: Option<u64>)
        requires
            self.wf(),
        ensures
            r == self@.wait(now),
    {
        match (self.state.next_deadline(now), self.presentation.next_deadline(now)) {
            (Some(a), Some(b)) => Some(
                if a <= b {
                    a
                } else {
                    b
                },
            ),
            (Some(a), None) => Some(a),
            (None, other) => other,
        }
    }

    /// How long to wait for the next message: until something is due, or until the next
    /// idle tick.
    pub fn rest(&self, now: u64) -> (r: Rest)
        requires
            self.wf(),
        ensures
            match self@.wait(now) {
                Some(wait) => r == (Rest { limit: wait, idle: false }),
                None => r == (Rest { limit: IDLE_TICK, idle: true }),
            },
    {
        match self.next_wait(now) {
            Some(wait) => Rest { limit: wait, idle: false },
            None => Rest { limit: IDLE_TICK, idle: true },
        }
    }

    /// Whether the interrupt window is armed.
    pub fn interrupt_window(&self) -> (r: bool)
        ensures
            r == self@.armed(),
    {
        self.presentation.owns_interrupt() && !self.state.alt_screen()
    }

    /// The session's facts.
    pub fn state(&self) -> (r: &SessionState)
        requires
            self.wf(),
        ensures
            r.wf(),
            r@ == self@.session,
    {
        &self.state
    }

    /// Lets recorded facts age out while nothing happens.
    pub fn maintain(&mut self, now: Moment)
        requires
            old(self).wf(),
        ensures
            final(self).wf(),
            final(self)@ == (ProcessorView {
                session: SessionView {
                    timeline: old(self)@.session.timeline.compacted(now.wall),
                    ..old(self)@.session
                },
                ..old(self)@
            }),
    {
        self.state.maintain(now);
    }

    /// Takes the warnings about discarded captures since the last call.
    pub fn take_warnings(&mut self) -> (r: Vec<String>)
        requires
            old(self).wf(),
        ensures
            final(self).wf(),
            text::texts(r@) == old(self)@.session.history.warnings,
            final(self)@ == (ProcessorView {
                session: SessionView {
                    history: command_history::HistoryView {
                        warnings: seq![],
                        ..old(self)@.session.history
                    },
                    ..old(self)@.session
                },
                ..old(self)@
            }),
    {
        let r = self.state.take_history_warnings();
        assert(text::texts(r@) =~= r@.map_values(|w: String| w@));
        r
    }

    /// Takes the events emitted since the last call.
    pub fn take_events(&mut self) -> (r: Vec<Event>)
        requires
            old(self).wf(),
        ensures
            final(self).wf(),
            event_log::event_views(r@) == old(self)@.presentation.log.events,
            final(self)@ == (ProcessorView {
                presentation: PresentationView {
                    log: event_log::LogView { events: seq![], ..old(self)@.presentation.log },
                    ..old(self)@.presentation
                },
                ..old(self)@
            }),
    {
        self.presentation.take_events()
    }

    fn take_segment(
        &mut self,
        segment: Segment,
        out: &mut Vec<u8>,
        gathered: &mut Gathered,
        now: Moment,
    ) -> (r: bool)
        requires
            old(self).wf(),
        ensures
            final(self).wf(),
            final(self)@.request_seq == old(self)@.request_seq,
            ({
                let turn = old(self).so_far(old(out)@, *old(gathered));
                &&& r == turn.takes(segment@)
                &&& r ==> final(self).so_far(final(out)@, *final(gathered)) == turn.segment(
                    segment@,
                    now,
                )
            }),
    {
        proof {
            reveal(TurnView::takes);
            reveal(TurnView::segment);
        }
        let ghost turn = self.so_far(out@, *gathered);
        match segment {
            Segment::Visible(visible) => {
                if !self.presentation.has_room(&self.state, visible.len()) {
                    return false;
                }
                self.presentation.pty_output(visible.as_slice(), out, &mut self.state, now);
                assert(self.so_far(out@, *gathered) =~= turn.segment(segment@, now));
            },
            Segment::Marker(marker) => {
                let pending: usize = self.state.pending_count();
                if pending as u64 > u64::MAX - 2 || !self.state.has_room(pending as u64 + 2, 0) {
                    return false;
                }
                let kind = marker.kind;
                let more = self.state.handle_marker(marker, now);
                append_actions(&mut gathered.actions, more);
                if kind.is_control() {
                    gathered.controls.push(kind);
                }
                assert(self.so_far(out@, *gathered) =~= turn.segment(segment@, now));
            },
        }
        true
    }

    fn feed(
        &mut self,
        bytes: &Vec<u8>,
        out: &mut Vec<u8>,
        gathered: &mut Gathered,
        now: Moment,
    ) -> (r: bool)
        requires
            old(self).wf(),
        ensures
            final(self).wf(),
            final(self)@.request_seq == old(self)@.request_seq,
            ({
                let turn = old(self).so_far(old(out)@, *old(gathered));
                let segments = markers::segments(turn.held + bytes@);
                &&& r == turn.takes_all(segments, now)
                &&& r ==> final(self).so_far(final(out)@, *final(gathered)) == (TurnView {
                    held: markers::held(turn.held + bytes@),
                    ..turn.fed(segments, now)
                })
            }),
    {
        let ghost begun = self.so_far(out@, *gathered);
        let ghost whole = begun.held + bytes@;
        let mut rest = self.scanner.feed(bytes.as_slice());
        let ghost all = rest@;
        let ghost views = markers::segments(whole);
        assert(segment_views(all) == views);
        let ghost turn = TurnView { held: markers::held(whole), ..begun };
        assert(self.so_far(out@, *gathered) == turn);
        proof {
            lemma_held_apart(begun, markers::held(whole), views, now);
        }
        let ghost mut k: int = 0;
        assert(views.take(0) =~= Seq::<markers::SegmentView>::empty());
        assert(all.skip(0) =~= all);
        while rest.len() > 0
            invariant
                self.wf(),
                0 <= k <= all.len(),
                rest@ == all.skip(k),
                views == segment_views(all),
                views == markers::segments(begun.held + bytes@),
                begun == old(self).so_far(old(out)@, *old(gathered)),
                turn.takes_all(views, now) == begun.takes_all(views, now),
                self@.request_seq == old(self)@.request_seq,
                turn.takes_all(views.take(k), now),
                self.so_far(out@, *gathered) == turn.fed(views.take(k), now),
            decreases rest@.len(),
        {
            let ghost before = rest@;
            let segment = rest.remove(0);
            proof {
                assert(rest@ =~= all.skip(k + 1)) by {
                    assert forall|j: int| 0 <= j < rest@.len() implies rest@[j] == all.skip(k + 1)[j] by {
                        assert(before.remove(0)[j] == before[j + 1]);
                    }
                }
                assert(segment == all[k]);
                assert(views[k] == segment@);
                assert(views.take(k + 1).drop_last() =~= views.take(k));
                assert(views.take(k + 1).last() == segment@);
            }
            if !self.take_segment(segment, out, gathered, now) {
                proof {
                    lemma_takes_prefix(turn, views, k + 1, now);
                }
                return false;
            }
            proof {
                k = k + 1;
            }
        }
        assert(views.take(k) =~= views);
        true
    }

    fn type_in(
        &mut self,
        keys: &Vec<u8>,
        out: &mut Vec<u8>,
        gathered: &mut Gathered,
        now: Moment,
    ) -> (r: Option<Option<String>>)
        requires
            old(self).wf(),
        ensures
            final(self).wf(),
            final(self)@.request_seq == old(self)@.request_seq,
            ({
                let turn = old(self).so_far(old(out)@, *old(gathered));
                &&& r is Some == turn.takes_keys(keys@, now)
                &&& r is Some ==> (TurnView {
                    cancel: text::opt_text(r->0),
                    ..final(self).so_far(final(out)@, *final(gathered))
                }) == turn.typed(keys@, now)
            }),
    {
        let ghost turn = self.so_far(out@, *gathered);
        if !self.presentation.has_room(&self.state, 0) {
            return None;
        }
        if holds_typing(keys.as_slice()) {
            self.presentation.note_mid_stream_input();
        }
        assert(self.so_far(out@, *gathered) =~= turn.counted(keys@));
        let more = self.state.record_input(keys.as_slice(), now);
        append_actions(&mut gathered.actions, more);
        let ghost told = turn.counted(keys@).recorded(keys@, now);
        assert(self.so_far(out@, *gathered) =~= told);
        let interrupted = interrupt_at(keys.as_slice()).is_some();
        proof {
            lemma_first_interrupt(keys@);
        }
        if interrupted && !self.state.alt_screen() {
            if !self.presentation.has_room(&self.state, 0) {
                return None;
            }
            let cancel = self.presentation.user_interrupt(out, &mut self.state, now);
            assert((TurnView { cancel: text::opt_text(cancel), ..self.so_far(out@, *gathered) })
                =~= told.withdrawn(now));
            Some(cancel)
        } else {
            Some(None)
        }
    }

    fn interrupt(
        &mut self,
        out: &mut Vec<u8>,
        gathered: &mut Gathered,
        now: Moment,
    ) -> (r: Option<String>)
        requires
            old(self).wf(),
            old(self)@.begins(old(out)@).counts(0),
        ensures
            final(self).wf(),
            final(self)@.request_seq == old(self)@.request_seq,
            (TurnView {
                cancel: text::opt_text(r),
                forward: r is None,
                ..final(self).so_far(final(out)@, *final(gathered))
            }) == old(self).so_far(old(out)@, *old(gathered)).interrupted(now),
    {
        let ghost turn = self.so_far(out@, *gathered);
        let cancel = self.presentation.user_interrupt(out, &mut self.state, now);
        if cancel.is_none() {
            assert(self.so_far(out@, *gathered) =~= turn);
            let key = [INTERRUPT];
            let more = self.state.record_input(&key, now);
            append_actions(&mut gathered.actions, more);
            assert(key@ =~= seq![INTERRUPT]);
            assert(self.so_far(out@, *gathered) =~= turn.recorded(seq![INTERRUPT], now));
        } else {
            assert((TurnView { cancel: text::opt_text(cancel), ..self.so_far(out@, *gathered) })
                =~= turn.withdrawn(now));
        }
        cancel
    }

    fn settle(&mut self, out: &mut Vec<u8>, gathered: &mut Gathered, now: Moment) -> (r: bool)
        requires
            old(self).wf(),
        ensures
            final(self).wf(),
            final(self)@.request_seq == old(self)@.request_seq,
            ({
                let turn = old(self).so_far(old(out)@, *old(gathered));
                &&& r == turn.takes_deadlines(now)
                &&& r ==> final(self).so_far(final(out)@, *final(gathered)) == turn.settled(now)
            }),
    {
        let ghost turn = self.so_far(out@, *gathered);
        let pending: usize = self.state.pending_count();
        if !self.state.has_room(pending as u64, 0) {
            return false;
        }
        let more = self.state.poll(now);
        append_actions(&mut gathered.actions, more);
        let ghost asked = turn.acted(turn.session().polled(now));
        assert(self.so_far(out@, *gathered) =~= asked);
        if !self.presentation.has_room(&self.state, 0) {
            return false;
        }
        self.presentation.poll(now, out, &mut self.state);
        assert(self.so_far(out@, *gathered) =~= turn.settled(now));
        true
    }

    /// Takes a message in, or the passing of a deadline where there is none, and appends
    /// what is to be written to the terminal. `None` where the session's counters have
    /// run out of room for it.
    pub fn turn(&mut self, msg: Option<Msg>, out: &mut Vec<u8>, now: Moment) -> (r: Option<Turn>)
        requires
            old(self).wf(),
            match msg {
                Some(Msg::Resize(columns, rows)) => columns >= 2 && rows >= 1,
                _ => true,
            },
        ensures
            final(self).wf(),
            ({
                let begins = old(self)@.begins(old(out)@);
                let done = begins.turned(msg, now);
                &&& r is Some == begins.takes_turn(msg, now)
                &&& r is Some ==> {
                    &&& follows(r->0, done)
                    &&& final(self)@ == old(self)@.left(done)
                    &&& final(out)@ == done.stage.screen.out
                }
            }),
    {
        let mut gathered = Gathered { actions: Vec::new(), controls: Vec::new() };
        let mut cancel: Option<String> = None;
        let mut forward = false;
        let ghost begins = self@.begins(out@);
        assert(self.so_far(out@, gathered) =~= begins);
        match &msg {
            Some(Msg::Pty(bytes)) => {
                if !self.feed(bytes, out, &mut gathered, now) {
                    return None;
                }
            },
            Some(Msg::Daemon(message)) => {
                if !self.presentation.has_room(&self.state, 0) {
                    return None;
                }
                self.presentation.handle_server_message(message, out, &mut self.state, now);
            },
            Some(Msg::Input(keys)) => {
                match self.type_in(keys, out, &mut gathered, now) {
                    Some(withdrawn) => {
                        cancel = withdrawn;
                    },
                    None => {
                        return None;
                    },
                }
            },
            Some(Msg::Resize(columns, rows)) => {
                if !self.presentation.has_room(&self.state, 0) {
                    return None;
                }
                self.state.resize(*columns, *rows, now);
            },
            Some(Msg::Interrupt) => {
                if !self.presentation.has_room(&self.state, 0) {
                    return None;
                }
                cancel = self.interrupt(out, &mut gathered, now);
                forward = cancel.is_none();
            },
            Some(Msg::Exit) => {
                return Some(gathered.turn(cancel, forward, true));
            },
            None => {},
        }
        let ghost told = begins.received(msg, now);
        assert(told =~= (TurnView {
            cancel: text::opt_text(cancel),
            forward,
            ..self.so_far(out@, gathered)
        }));
        let ghost plain = self.so_far(out@, gathered);
        proof {
            lemma_settled_apart(plain, text::opt_text(cancel), forward, now);
        }
        if !self.settle(out, &mut gathered, now) {
            return None;
        }
        Some(gathered.turn(cancel, forward, false))
    }

    /// Whether the session's counters have room for a notice or a reset.
    pub fn has_room(&self) -> (r: bool)
        requires
            self.wf(),
        ensures
            r == self@.session.room(2, 0),
    {
        self.state.has_room(2, 0)
    }

    /// Carries out a reset that was asked for, and says what to send to the daemon: it is
    /// asked to discard the conversation, fire-and-forget.
    pub fn apply_control_marker(&mut self, kind: MarkerKind, out: &mut Vec<u8>, now: Moment) -> (r:
        Option<ClientMessage>)
        requires
            old(self).wf(),
            old(self)@.session.room(2, 0),
        ensures
            final(self).wf(),
            r == (if kind is NewConversation || kind is ClearContext {
                Some(ClientMessage::ConversationReset {  })
            } else {
                None
            }),
            final(self)@.stage(final(out)@) == old(self)@.controlled(kind, old(out)@, now.wall),
            final(self)@.held == old(self)@.held,
            final(self)@.request_seq == old(self)@.request_seq,
    {
        match kind {
            MarkerKind::NewConversation => {
                notice_before_prompt(NEW_CONVERSATION_NOTICE, out, &mut self.state, now);
                Some(ClientMessage::ConversationReset {  })
            },
            MarkerKind::ClearContext => {
                show(CLEAR_SCREEN.as_bytes(), out, &mut self.state, now);
                notice_before_prompt(CLEARED_NOTICE, out, &mut self.state, now);
                self.state.forget();
                Some(ClientMessage::ConversationReset {  })
            },
            _ => None,
        }
    }

    /// Prints a notice, keeping a resting prompt as the last line.
    pub fn present_notice(&mut self, text: &str, out: &mut Vec<u8>, now: Moment)
        requires
            old(self).wf(),
            old(self)@.session.room(1, 0),
        ensures
            final(self).wf(),
            final(self)@.stage(final(out)@) == (Stage {
                screen: old(self)@.stage(old(out)@).screen.notice_before(text@, now.wall),
                ..old(self)@.stage(old(out)@)
            }),
            final(self)@.held == old(self)@.held,
            final(self)@.request_seq == old(self)@.request_seq,
    {
        notice_before_prompt(text, out, &mut self.state, now);
    }

    /// Numbers a question and makes the request of it.
    pub fn dispatch_trigger(&mut self, trigger: Trigger) -> (r: Dispatch)
        requires
            old(self).wf(),
            old(self)@.request_seq < u64::MAX,
        ensures
            final(self).wf(),
            final(self)@ == (ProcessorView {
                request_seq: old(self)@.request_seq + 1,
                ..old(self)@
            }),
            r.ticket.request_id@ == request_name(final(self)@.request_seq),
            r.ticket.question@ == trigger.question@,
            r.ticket.completion == trigger.completion,
            r.ticket.still_running == trigger.still_running,
            r.ticket.submitted_at == trigger.submitted_at,
            match r.message {
                ClientMessage::AiRequest { request_id, question, trigger: token, context_package } => {
                    &&& request_id@ == r.ticket.request_id@
                    &&& question@ == trigger.question@
                    &&& token@ == "#?"@
                    &&& context_package == trigger.context_package
                },
                _ => false,
            },
    {
        self.request_seq = self.request_seq + 1;
        let mut request_id = String::new();
        request_id.append("koshell-req-");
        push_decimal(&mut request_id, self.request_seq);
        assert(request_id@ =~= request_name(self.request_seq as nat));
        let Trigger { question, completion, still_running, submitted_at, context_package } = trigger;
        let message = ClientMessage::AiRequest {
            request_id: request_id.clone(),
            question: question.clone(),
            trigger: "#?".to_owned(),
            context_package,
        };
        Dispatch {
            message,
            ticket: Ticket { request_id, question, completion, still_running, submitted_at },
        }
    }

    /// Whether another question can be numbered.
    pub fn can_dispatch(&self) -> (r: bool)
        ensures
            r == (self@.request_seq < u64::MAX),
    {
        self.request_seq < u64::MAX
    }

    /// Takes in whether a question reached the daemon, and says what to log of it. The
    /// streamed response is the user-facing receipt of one that did; of one that did not
    /// the user is told, with the completion state it fired in.
    pub fn settle_dispatch(
        &mut self,
        ticket: &Ticket,
        sent: bool,
        out: &mut Vec<u8>,
        now: Moment,
    ) -> (r: Event)
        requires
            old(self).wf(),
            old(self)@.session.room(1, 0),
        ensures
            final(self).wf(),
            r@ == dispatch_event(*ticket, sent, now.mono),
            final(self)@.stage(final(out)@) == old(self)@.handed(*ticket, sent, old(out)@, now),
            final(self)@.held == old(self)@.held,
            final(self)@.request_seq == old(self)@.request_seq,
    {
        if sent {
            self.presentation.note_dispatch(
                ticket.request_id.as_str(),
                ticket.still_running,
                &self.state,
                now,
            );
            Event::Dispatched {
                request_id: ticket.request_id.clone(),
                question: ticket.question.clone(),
                fire_reason: ticket.completion.as_str(),
                still_running: ticket.still_running,
                submit_to_dispatch_ms: elapsed_between(ticket.submitted_at, now.mono),
            }
        } else {
            notice_before_prompt(unavailable_text(ticket).as_str(), out, &mut self.state, now);
            Event::DispatchFailed {
                request_id: ticket.request_id.clone(),
                question: ticket.question.clone(),
                fire_reason: ticket.completion.as_str(),
                reason: "daemon_unavailable",
            }
        }
    }
}

// ---------------------------------------------------------------------------
// Laws
// ---------------------------------------------------------------------------

/// The wrapper is transparent: while no answer is held up, output without control
/// sequences reaches the terminal byte for byte, at once, and nothing follows from it.
pub proof fn plain_output_is_written_through(turn: TurnView, bytes: Vec<u8>, now: Moment)
    requires
        turn.held.len() == 0,
        turn.stage.presentation.active is Some ==> !turn.stage.presentation.active->0.holding(),
        forall|i: int| 0 <= i < bytes@.len() ==> #[trigger] bytes@[i] != 0x1b,
    ensures
        ({
            let done = turn.received(Some(Msg::Pty(bytes)), now);
            &&& done.stage.screen.out == turn.stage.screen.out + bytes@
            &&& done.stage.presentation == turn.stage.presentation
            &&& done.held.len() == 0
            &&& done.actions == turn.actions
            &&& done.controls == turn.controls
            &&& done.cancel == turn.cancel
            &&& done.forward == turn.forward
            &&& done.over == turn.over
        }),
{
    let whole = turn.held + bytes@;
    assert(whole =~= bytes@);
    markers::plain_output_passes_through(bytes@);
    let segments = markers::segments(bytes@);
    reveal(TurnView::segment);
    if bytes@.len() == 0 {
        assert(segments =~= seq![]);
        assert(turn.stage.screen.out + bytes@ =~= turn.stage.screen.out);
    } else {
        assert(segments =~= seq![markers::SegmentView::Visible(bytes@)]);
        assert(segments.drop_last() =~= seq![]);
        assert(turn.fed(segments.drop_last(), now) == turn);
        assert(turn.fed(segments, now) == turn.segment(segments.last(), now));
    }
}

/// A swallowed Ctrl+C is never lost: it withdraws the answer in flight, or it is
/// forwarded to the child.
pub proof fn a_swallowed_interrupt_is_never_lost(turn: TurnView, now: Moment)
    requires
        turn.cancel is None,
        !turn.forward,
    ensures
        ({
            let done = turn.received(Some(Msg::Interrupt), now);
            match turn.stage.presentation.active {
                Some(a) => done.cancel == Some(a.request_id) && !done.forward,
                None => done.cancel is None && done.forward,
            }
        }),
{
}

/// A withdrawn answer is over: no response is in flight behind an interrupt.
pub proof fn a_withdrawn_answer_is_over(turn: TurnView, now: Moment)
    ensures
        turn.received(Some(Msg::Interrupt), now).stage.presentation.active is None,
{
}

/// When the child is gone, nothing more is written and nothing follows.
pub proof fn the_end_of_the_child_ends_the_session(turn: TurnView, now: Moment)
    ensures
        turn.turned(Some(Msg::Exit), now) == (TurnView { over: true, ..turn }),
{
}

/// With no question waiting and no answer in flight, time passing does nothing.
pub proof fn an_idle_session_stays_as_it_is(turn: TurnView, now: Moment)
    requires
        turn.session().pending.len() == 0,
        turn.stage.presentation.active is None,
        !turn.over,
    ensures
        turn.turned(None, now) == turn,
{
    let session = turn.session();
    let settled = session.settle(session.pending, now);
    assert(session.pending =~= seq![]);
    assert(settled.fires + settled.notices =~= seq![]);
    assert(session.polled(now).0 =~= session);
    assert(turn.actions + session.polled(now).1 =~= turn.actions);
    assert(turn.acted(session.polled(now)) =~= turn);
    assert(turn.turned(None, now) =~= turn);
}

/// The processor never sleeps past a deadline, of a question or of an answer; with
/// neither it sleeps until something happens.
pub proof fn no_deadline_is_slept_through(p: ProcessorView, mono: u64)
    ensures
        match p.wait(mono) {
            Some(wait) => {
                &&& p.session.deadline(mono) matches Some(d) ==> wait <= d
                &&& p.presentation.deadline(mono) matches Some(d) ==> wait <= d
            },
            None => p.session.deadline(mono) is None && p.presentation.deadline(mono) is None,
        },
{
}

/// Clearing leaves nothing for the AI to read: no recorded fact and no completed command.
pub proof fn clearing_leaves_no_evidence(p: ProcessorView, out: Seq<u8>, wall: i64)
    ensures
        ({
            let session = p.controlled(MarkerKind::ClearContext, out, wall).screen.session;
            session.timeline.entries.len() == 0 && session.history.completed.len() == 0
        }),
{
}

/// A question that the daemon did not get leaves no answer awaited; one that it did get
/// writes nothing.
pub proof fn an_unsent_question_awaits_nothing(
    p: ProcessorView,
    ticket: Ticket,
    out: Seq<u8>,
    now: Moment,
)
    ensures
        p.handed(ticket, false, out, now).presentation == p.presentation,
        p.handed(ticket, true, out, now).screen == p.stage(out).screen,
        p.handed(ticket, true, out, now).presentation.dispatched.contains_key(
            ticket.request_id@,
        ),
{
}

/// What a turn does with segments is the same whatever the scanner holds.
proof fn lemma_held_apart(
    turn: TurnView,
    held: Seq<u8>,
    segments: Seq<markers::SegmentView>,
    now: Moment,
)
    ensures
        (TurnView { held, ..turn }).fed(segments, now) == (TurnView {
            held,
            ..turn.fed(segments, now)
        }),
        (TurnView { held, ..turn }).takes_all(segments, now) == turn.takes_all(segments, now),
    decreases segments.len(),
{
    reveal(TurnView::takes);
    reveal(TurnView::segment);
    if segments.len() > 0 {
        lemma_held_apart(turn, held, segments.drop_last(), now);
        let done = turn.fed(segments.drop_last(), now);
        assert((TurnView { held, ..done }).segment(segments.last(), now) =~= (TurnView {
            held,
            ..done.segment(segments.last(), now)
        }));
    }
}

/// Where the counters have room for all of some segments, they have it for the first
/// ones.
proof fn lemma_takes_prefix(
    turn: TurnView,
    segments: Seq<markers::SegmentView>,
    k: int,
    now: Moment,
)
    requires
        0 <= k <= segments.len(),
    ensures
        turn.takes_all(segments, now) ==> turn.takes_all(segments.take(k), now),
    decreases segments.len(),
{
    if k == segments.len() {
        assert(segments.take(k) =~= segments);
    } else {
        lemma_takes_prefix(turn, segments.drop_last(), k, now);
        assert(segments.drop_last().take(k) =~= segments.take(k));
    }
}

/// What deadlines do is the same whatever else follows.
proof fn lemma_settled_apart(turn: TurnView, cancel: Option<Seq<char>>, forward: bool, now: Moment)
    ensures
        (TurnView { cancel, forward, ..turn }).settled(now) == (TurnView {
            cancel,
            forward,
            ..turn.settled(now)
        }),
        (TurnView { cancel, forward, ..turn }).takes_deadlines(now) == turn.takes_deadlines(now),
{
    assert((TurnView { cancel, forward, ..turn }).settled(now) =~= (TurnView {
        cancel,
        forward,
        ..turn.settled(now)
    }));
}

} // verus!
