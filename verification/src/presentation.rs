//! AI response presentation: renders streamed daemon replies into the user's terminal
//! while preserving the mirror-feed invariant (the mirror consumes exactly the bytes
//! written to the terminal, PTY plus presentation output, in the same order).
//!
//! - **Command ended** at fire time: PTY visible output (the returning prompt) is held
//!   back from the moment the request is dispatched, the AI response streams first, and
//!   the held output flushes after it, so `#?` reads like a command that prints its
//!   answer before the next prompt. Two bounds keep the hold safe: a size fuse and a
//!   max-hold deadline; past either, the buffer flushes and output interleaves. If
//!   nothing has been rendered shortly after dispatch, one dim waiting notice tells the
//!   user the answer is coming.
//! - **Command still running**: program output keeps flowing in real time; deltas
//!   accumulate and the whole response is inserted as one block when it completes.
//!
//! Two line-position rules keep the chrome tight:
//! - Presentation lines start with a leading newline only when the cursor is not already
//!   resting at the start of an empty line.
//! - When stabilization fired with an already-rendered prompt under the cursor, the
//!   response runs in **anchored streaming**: the cursor's live input line stays usable
//!   and PTY output writes through in real time, while each delta is inserted directly
//!   above it. A pre-redraw check (the row above the live region must still be the AI
//!   tail) detects intervening program output and degrades the rest of the response to
//!   one block at the end, so program output and AI text never interleave line by line.

use crate::clock;
use crate::clock::{elapsed_between, wait_between, Moment};
use crate::event_log;
use crate::event_log::{Event, EventLog};
use crate::mirror;
use crate::mirror::LiveRegionSnapshot;
use crate::proto::ServerMessage;
use crate::text;
use crate::text::{push_decimal, same_text};
use crate::trigger::{SessionState, SessionView};
use vstd::prelude::*;
use vstd::utf8::encode_utf8;

verus! {

/// Buffered-PTY fuse: past this, buffering gives up and output interleaves, so a user
/// launching a new command mid-response cannot grow the buffer without bound.
pub const PTY_BUFFER_FUSE_BYTES: usize = 262_144;

/// If nothing of the response has rendered this long after dispatch, one dim waiting
/// notice is printed. In milliseconds.
pub const RECEIPT_NOTICE_DELAY: u64 = 1_000;

/// How long stream-mode buffering may hold PTY output while waiting for the response to
/// finish. Past this the buffer flushes and output interleaves, so a hung daemon can
/// never freeze the terminal. In milliseconds.
pub const RESPONSE_MAX_HOLD: u64 = 30_000;

pub const AI_HEADER: &'static str = "\x1b[2m[koshell ai]\x1b[0m\r\n";

/// How an in-flight response is rendered, decided by the trigger's completion state.
#[derive(Debug, Clone, Copy, PartialEq, Eq, Structural)]
pub enum Mode {
    /// Command ended: stream deltas, buffer PTY output until the response ends.
    Stream,
    /// Command still running: PTY flows, accumulate deltas, insert one block at end.
    Block,
}

/// Why an anchored response was degraded to a block.
#[derive(Debug, Clone, Copy, PartialEq, Eq, Structural)]
pub enum Degrade {
    /// The live region cannot be sampled.
    LiveRegionUnavailable,
    /// The row above the live region is no longer the AI tail.
    TailMismatch,
}

// ---------------------------------------------------------------------------
// The model
// ---------------------------------------------------------------------------

/// Where the AI text of an anchored response left off.
#[verifier::ext_equal]
pub struct AiEndView {
    pub col: u16,
    pub needs_wrap: bool,
    pub tail: Seq<char>,
}

/// The response in flight.
#[verifier::ext_equal]
pub struct ActiveView {
    pub request_id: Seq<char>,
    pub mode: Mode,
    pub dispatched_at: u64,
    pub receipt_shown: bool,
    pub started: bool,
    pub last_was_cr: bool,
    pub accumulated: Seq<char>,
    pub buffered_pty: Seq<u8>,
    pub interleaved: bool,
    pub anchored: bool,
    pub ai_end: Option<AiEndView>,
    pub began_anchored: bool,
    pub first_delta_at: Option<u64>,
    pub delta_count: nat,
    pub degrade: Option<Degrade>,
    pub degrade_emitted: bool,
    pub mid_stream_input_chunks: nat,
}

/// The presentation of a session.
#[verifier::ext_equal]
pub struct PresentationView {
    /// Requests handed to the daemon that have not finished: whether the command was
    /// still running at fire time.
    pub dispatched: Map<Seq<char>, bool>,
    pub active: Option<ActiveView>,
    /// Requests withdrawn by the user whose end was not seen yet.
    pub aborted: Set<Seq<char>>,
    pub log: event_log::LogView,
}

/// The terminal: the session's facts, and all the bytes written so far.
#[verifier::ext_equal]
pub struct Screen {
    pub session: SessionView,
    pub out: Seq<u8>,
}

/// A presentation and the terminal it renders into.
#[verifier::ext_equal]
pub struct Stage {
    pub presentation: PresentationView,
    pub screen: Screen,
}

/// How a mode is named in the log.
pub open spec fn mode_name(mode: Mode) -> Seq<char> {
    match mode {
        Mode::Stream => "stream"@,
        Mode::Block => "block"@,
    }
}

/// How a reason is named in the log.
pub open spec fn degrade_name(reason: Degrade) -> Seq<char> {
    match reason {
        Degrade::LiveRegionUnavailable => "live_region_unavailable"@,
        Degrade::TailMismatch => "tail_mismatch"@,
    }
}

/// Bytes for a terminal in raw mode: every line feed has a carriage return before it.
/// `cr` is whether the byte before was one.
pub open spec fn normalized(bytes: Seq<u8>, cr: bool) -> Seq<u8>
    decreases bytes.len(),
{
    if bytes.len() == 0 {
        seq![]
    } else {
        let before = normalized(bytes.drop_last(), cr);
        if bytes.last() == 0x0a && !ends_in_cr(bytes.drop_last(), cr) {
            before.push(0x0d).push(0x0a)
        } else {
            before.push(bytes.last())
        }
    }
}

/// Whether the last byte is a carriage return; `cr` decides where there is none.
pub open spec fn ends_in_cr(bytes: Seq<u8>, cr: bool) -> bool {
    if bytes.len() == 0 {
        cr
    } else {
        bytes.last() == 0x0d
    }
}

/// Some bytes many times over.
pub open spec fn repeated(bytes: Seq<u8>, n: nat) -> Seq<u8>
    decreases n,
{
    if n == 0 {
        seq![]
    } else {
        repeated(bytes, (n - 1) as nat) + bytes
    }
}

/// Some rows one behind the other.
pub open spec fn joined_rows(rows: Seq<Seq<char>>) -> Seq<u8>
    decreases rows.len(),
{
    if rows.len() == 0 {
        seq![]
    } else {
        joined_rows(rows.drop_last()) + encode_utf8(rows.last())
    }
}

/// What erases a live region, bottom-up from the cursor row, ending at column 0 of its
/// top row.
pub open spec fn erasing(region: mirror::LiveRegionView) -> Seq<u8> {
    encode_utf8("\r\x1b[K"@) + repeated(
        encode_utf8("\x1b[A\x1b[K"@),
        if region.styled_rows.len() > 1 {
            (region.styled_rows.len() - 1) as nat
        } else {
            0
        },
    )
}

/// How the cursor gets from the end of a live region to its live column.
pub enum Realign {
    /// It is there.
    Stay,
    /// Over so many spaces.
    Pad(nat),
    /// Back to this column.
    Back(nat),
}

/// How the cursor of a live region is put back. Where the row is exactly full and the next
/// character wraps, writing the row again has restored that; a movement would undo it.
pub open spec fn realigning(region: mirror::LiveRegionView) -> Realign {
    if region.cursor_col > region.last_row_columns {
        Realign::Pad((region.cursor_col - region.last_row_columns) as nat)
    } else if region.cursor_col < region.last_row_columns && !region.needs_wrap {
        Realign::Back(region.cursor_col as nat)
    } else {
        Realign::Stay
    }
}

/// What moves the cursor so.
pub open spec fn realigned(realign: Realign) -> Seq<u8> {
    match realign {
        Realign::Stay => seq![],
        Realign::Pad(n) => repeated(encode_utf8(" "@), n),
        Realign::Back(column) => encode_utf8("\x1b["@ + text::decimal(column + 1) + "G"@),
    }
}

/// The column that the cursor then rests on, behind text of so many columns on a terminal
/// that is `width` wide: text that fills the last column leaves it there.
pub open spec fn column_reached(taken: nat, realign: Realign, width: nat) -> int {
    let rests = |columns: nat|
        if columns < width {
            columns as int
        } else {
            width - 1
        };
    match realign {
        Realign::Stay => rests(taken),
        Realign::Pad(n) => rests(taken + n),
        Realign::Back(column) => column as int,
    }
}

/// What writes a live region again from column 0, and puts the cursor back on its column.
pub open spec fn restoring(region: mirror::LiveRegionView) -> Seq<u8> {
    joined_rows(region.styled_rows) + realigned(realigning(region))
}

/// A dim one-line notice.
pub open spec fn notice_line(text: Seq<char>) -> Seq<char> {
    "\x1b[2m[koshell] "@ + text + "\x1b[0m\r\n"@
}

/// The notice of a failed answer.
pub open spec fn error_text(message: Seq<char>) -> Seq<char> {
    "AI error: "@ + message
}

/// What puts the cursor at the start of a line.
pub open spec fn line_lead(session: SessionView) -> Seq<char> {
    if session.at_line_start() {
        seq![]
    } else {
        "\r\n"@
    }
}

impl Screen {
    /// Presentation output written.
    pub open spec fn show(self, bytes: Seq<u8>, wall: i64) -> Screen {
        Screen { session: self.session.presented(bytes, wall), out: self.out + bytes }
    }

    /// PTY output written.
    pub open spec fn pass(self, bytes: Seq<u8>, now: Moment) -> Screen {
        Screen { session: self.session.output(bytes, now), out: self.out + bytes }
    }

    /// A notice on a line of its own.
    pub open spec fn notice(self, text: Seq<char>, wall: i64) -> Screen {
        self.show(encode_utf8(line_lead(self.session) + notice_line(text)), wall)
    }

    /// Whole lines inserted above the live input line, which is restored below them.
    /// None where the live region cannot be sampled.
    pub open spec fn inserted(self, lines: Seq<u8>, wall: i64) -> Option<Screen> {
        match self.session.mirror.region() {
            Some(region) => Some(self.show(erasing(region) + lines + restoring(region), wall)),
            None => None,
        }
    }

    /// A notice above the live input line, or on a line of its own.
    pub open spec fn notice_above(self, text: Seq<char>, wall: i64) -> Screen {
        match self.inserted(encode_utf8(notice_line(text)), wall) {
            Some(done) => done,
            None => self.notice(text, wall),
        }
    }

    /// A notice that keeps a resting prompt as the last line.
    pub open spec fn notice_before(self, text: Seq<char>, wall: i64) -> Screen {
        if self.session.resting_prompt() {
            self.notice_above(text, wall)
        } else {
            self.notice(text, wall)
        }
    }

    /// A whole answer inserted above a resting prompt, or on lines of its own.
    pub open spec fn block(self, answer: Seq<char>, wall: i64) -> Screen {
        let lines = encode_utf8(AI_HEADER@) + normalized(encode_utf8(answer), false) + encode_utf8(
            "\r\n"@,
        );
        if self.session.resting_prompt() && self.session.mirror.region() is Some {
            self.inserted(lines, wall)->0
        } else {
            self.show(encode_utf8(line_lead(self.session)) + lines, wall)
        }
    }

    /// The text where the cursor rests.
    pub open spec fn ai_end(self) -> AiEndView {
        AiEndView {
            col: self.session.mirror.cursor().column,
            needs_wrap: self.session.mirror.cursor().needs_wrap,
            tail: self.session.mirror.cursor_text(),
        }
    }
}

impl ActiveView {
    /// A response that begins.
    pub open spec fn begun(request_id: Seq<char>, mode: Mode, session: SessionView, mono: u64) -> ActiveView {
        let anchored = mode is Stream && session.resting_prompt();
        ActiveView {
            request_id,
            mode,
            dispatched_at: mono,
            receipt_shown: false,
            started: false,
            last_was_cr: false,
            accumulated: seq![],
            buffered_pty: seq![],
            interleaved: false,
            anchored,
            ai_end: None,
            began_anchored: anchored,
            first_delta_at: None,
            delta_count: 0,
            degrade: None,
            degrade_emitted: false,
            mid_stream_input_chunks: 0,
        }
    }

    /// True while nothing of the response has been rendered to the terminal.
    pub open spec fn nothing_rendered(self) -> bool {
        !self.started && self.accumulated.len() == 0
    }

    /// True while PTY output is held back. Anchored streaming never holds: the live
    /// input line stays usable in real time.
    pub open spec fn holding(self) -> bool {
        self.mode is Stream && !self.interleaved && !self.anchored
    }

    /// Whether the waiting notice is still to come.
    pub open spec fn owes_receipt(self) -> bool {
        !self.receipt_shown && self.nothing_rendered()
    }

    /// The event that closes the books on this response.
    pub open spec fn end_event(self, status: Seq<char>, mono: u64) -> event_log::EventView {
        event_log::EventView::ResponseEnd {
            request_id: self.request_id,
            status,
            total_ms: clock::elapsed(self.dispatched_at, mono) as u64,
            first_delta_ms: match self.first_delta_at {
                Some(at) => Some(clock::elapsed(self.dispatched_at, at) as u64),
                None => None,
            },
            delta_count: self.delta_count as u32,
            began_anchored: self.began_anchored,
            degraded_to_block: self.degrade is Some,
            mid_stream_input_chunks: self.mid_stream_input_chunks as u32,
            tool_calls: 0,
            tool_failures: 0,
        }
    }

    /// The rest of an anchored response put off to one block at the end.
    pub open spec fn degraded(self, delta: Seq<char>, reason: Degrade) -> ActiveView {
        ActiveView {
            mode: Mode::Block,
            anchored: false,
            degrade: Some(reason),
            accumulated: self.accumulated + delta,
            ..self
        }
    }

    /// A delta counted, and the first one's arrival kept.
    pub open spec fn counted(self, mono: u64) -> ActiveView {
        ActiveView {
            delta_count: self.delta_count + 1,
            first_delta_at: if self.first_delta_at is None {
                Some(mono)
            } else {
                self.first_delta_at
            },
            ..self
        }
    }

    /// The log once a delta arrived: the first one is an event.
    pub open spec fn first_noted(self, log: event_log::LogView, mono: u64) -> event_log::LogView {
        if self.first_delta_at is None {
            log.emitted(
                event_log::EventView::FirstDelta {
                    request_id: self.request_id,
                    dispatch_to_first_delta_ms: clock::elapsed(self.dispatched_at, mono) as u64,
                    mode: mode_name(self.mode),
                    anchored: self.anchored,
                },
            )
        } else {
            log
        }
    }

    /// The log once a delta was rendered: degrading is an event, once.
    pub open spec fn degrade_noted(self, log: event_log::LogView, mono: u64) -> (
        ActiveView,
        event_log::LogView,
    ) {
        if self.degrade is Some && !self.degrade_emitted {
            (
                ActiveView { degrade_emitted: true, ..self },
                log.emitted(
                    event_log::EventView::DegradeToBlock {
                        request_id: self.request_id,
                        reason: degrade_name(self.degrade->0),
                        ms_since_dispatch: clock::elapsed(self.dispatched_at, mono) as u64,
                        deltas_so_far: self.delta_count as u32,
                    },
                ),
            )
        } else {
            (self, log)
        }
    }

    /// What leads an anchored delta: the header before the first one; nothing where the
    /// AI line is exactly full, because the erased row below it is its continuation;
    /// otherwise the movement back to where the AI text left off.
    pub open spec fn anchored_lead(self) -> Seq<u8> {
        match self.ai_end {
            None => encode_utf8(AI_HEADER@),
            Some(end) => if end.needs_wrap {
                seq![]
            } else {
                encode_utf8("\x1b[A\x1b["@ + text::decimal((end.col + 1) as nat) + "G"@)
            },
        }
    }

    /// A delta inserted above the live input line.
    pub open spec fn anchored_delta(self, delta: Seq<char>, screen: Screen, wall: i64) -> (
        ActiveView,
        Screen,
    ) {
        match screen.session.mirror.region() {
            None => (self.degraded(delta, Degrade::LiveRegionUnavailable), screen),
            Some(region) => if self.ai_end is Some && region.row_above != Some(
                self.ai_end->0.tail,
            ) {
                (self.degraded(delta, Degrade::TailMismatch), screen)
            } else {
                let bytes = encode_utf8(delta);
                let drawn = screen.show(
                    erasing(region) + self.anchored_lead() + normalized(bytes, self.last_was_cr),
                    wall,
                );
                (
                    ActiveView {
                        started: true,
                        last_was_cr: ends_in_cr(bytes, self.last_was_cr),
                        ai_end: Some(drawn.ai_end()),
                        ..self
                    },
                    drawn.show(encode_utf8("\r\n"@) + restoring(region), wall),
                )
            },
        }
    }

    /// A delta streamed, behind the header where it is the first one.
    pub open spec fn streamed_delta(self, delta: Seq<char>, screen: Screen, wall: i64) -> (
        ActiveView,
        Screen,
    ) {
        let bytes = encode_utf8(delta);
        let headed = if self.started {
            screen
        } else {
            screen.show(encode_utf8(line_lead(screen.session) + AI_HEADER@), wall)
        };
        (
            ActiveView {
                started: true,
                last_was_cr: ends_in_cr(bytes, self.last_was_cr),
                ..self
            },
            headed.show(normalized(bytes, self.last_was_cr), wall),
        )
    }

    /// A delta rendered.
    pub open spec fn rendered(self, delta: Seq<char>, screen: Screen, wall: i64) -> (
        ActiveView,
        Screen,
    ) {
        match self.mode {
            Mode::Stream => if self.anchored {
                self.anchored_delta(delta, screen, wall)
            } else {
                self.streamed_delta(delta, screen, wall)
            },
            Mode::Block => (
                ActiveView { accumulated: self.accumulated + delta, ..self },
                screen,
            ),
        }
    }
}

impl PresentationView {
    /// A presentation with nothing in flight.
    pub open spec fn fresh() -> PresentationView {
        PresentationView {
            dispatched: Map::empty(),
            active: None,
            aborted: Set::empty(),
            log: event_log::LogView::inert(),
        }
    }

    /// The PTY output held back.
    pub open spec fn held(self) -> Seq<u8> {
        match self.active {
            Some(a) => a.buffered_pty,
            None => seq![],
        }
    }

    /// Without any note of a request.
    pub open spec fn forgetting(self, request_id: Seq<char>) -> PresentationView {
        PresentationView {
            dispatched: self.dispatched.remove(request_id),
            aborted: self.aborted.remove(request_id),
            ..self
        }
    }

    /// Output is held back only by a response that holds.
    pub open spec fn sound(self) -> bool {
        self.active is Some && !self.active->0.holding() ==> self.held().len() == 0
    }

    /// Whether the counters have room for one more message, and the session's for that
    /// many bytes of output beside what is held.
    pub open spec fn fits(self, session: SessionView, bytes: nat) -> bool {
        &&& self.active is Some ==> self.active->0.delta_count < u32::MAX
            && self.active->0.mid_stream_input_chunks < u32::MAX
        &&& session.room(4, self.held().len() + bytes)
    }

    /// The mode that a request's response is rendered in. An unknown request id (a stale
    /// reply) falls back to block mode: it cannot disturb PTY flow.
    pub open spec fn mode_for(self, request_id: Seq<char>) -> Mode {
        if self.dispatched.contains_key(request_id) && !self.dispatched[request_id] {
            Mode::Stream
        } else {
            Mode::Block
        }
    }

    /// Whether a request's response is the one in flight.
    pub open spec fn serves(self, request_id: Seq<char>) -> bool {
        self.active is Some && self.active->0.request_id == request_id
    }

    /// A request handed to the daemon.
    pub open spec fn noted(
        self,
        request_id: Seq<char>,
        still_running: bool,
        session: SessionView,
        mono: u64,
    ) -> PresentationView {
        PresentationView {
            dispatched: self.dispatched.insert(request_id, still_running),
            active: match self.active {
                Some(a) => Some(a),
                None => Some(
                    ActiveView::begun(
                        request_id,
                        if still_running {
                            Mode::Block
                        } else {
                            Mode::Stream
                        },
                        session,
                        mono,
                    ),
                ),
            },
            ..self
        }
    }

    /// A stdin chunk counted, where a stream-mode response is in flight.
    pub open spec fn typed_into(self) -> PresentationView {
        match self.active {
            Some(a) => if a.mode is Stream {
                PresentationView {
                    active: Some(
                        ActiveView { mid_stream_input_chunks: a.mid_stream_input_chunks + 1, ..a },
                    ),
                    ..self
                }
            } else {
                self
            },
            None => self,
        }
    }

    /// Whether a Ctrl+C currently belongs to the AI response rather than the child.
    pub open spec fn owns_interrupt(self) -> bool {
        self.active is Some && self.active->0.mode is Stream
    }

    /// The wait until the next deadline: the waiting notice, or the end of the hold.
    pub open spec fn deadline(self, mono: u64) -> Option<u64> {
        match self.active {
            None => None,
            Some(a) => if a.owes_receipt() {
                Some(clock::wait_until(a.dispatched_at + RECEIPT_NOTICE_DELAY, mono))
            } else if a.holding() {
                Some(clock::wait_until(a.dispatched_at + RESPONSE_MAX_HOLD, mono))
            } else {
                None
            },
        }
    }
}

impl Stage {
    /// PTY output arrives: held back while a streamed response is in flight (until the
    /// fuse blows), written through otherwise.
    pub open spec fn pty(self, visible: Seq<u8>, now: Moment) -> Stage {
        match self.presentation.active {
            Some(a) if a.holding() => {
                let held = a.buffered_pty + visible;
                if held.len() > PTY_BUFFER_FUSE_BYTES {
                    Stage {
                        presentation: PresentationView {
                            active: Some(
                                ActiveView { interleaved: true, buffered_pty: seq![], ..a },
                            ),
                            ..self.presentation
                        },
                        screen: self.screen.pass(held, now),
                    }
                } else {
                    Stage {
                        presentation: PresentationView {
                            active: Some(ActiveView { buffered_pty: held, ..a }),
                            ..self.presentation
                        },
                        ..self
                    }
                }
            },
            _ => Stage { screen: self.screen.pass(visible, now), ..self },
        }
    }

    /// The waiting notice, where it is due.
    pub open spec fn receipted(self, now: Moment) -> Stage {
        match self.presentation.active {
            None => self,
            Some(a) => if a.owes_receipt() && now.mono >= a.dispatched_at + RECEIPT_NOTICE_DELAY {
                Stage {
                    presentation: PresentationView {
                        active: Some(ActiveView { receipt_shown: true, ..a }),
                        ..self.presentation
                    },
                    screen: if a.anchored {
                        self.screen.notice_above("waiting for the AI answer…"@, now.wall)
                    } else {
                        self.screen.notice("waiting for the AI answer…"@, now.wall)
                    },
                }
            } else {
                self
            },
        }
    }

    /// The end of the hold, where it is reached.
    pub open spec fn released(self, now: Moment) -> Stage {
        match self.presentation.active {
            None => self,
            Some(a) => if a.holding() && now.mono >= a.dispatched_at + RESPONSE_MAX_HOLD {
                Stage {
                    presentation: PresentationView {
                        active: Some(
                            ActiveView {
                                interleaved: true,
                                receipt_shown: true,
                                buffered_pty: seq![],
                                ..a
                            },
                        ),
                        ..self.presentation
                    },
                    screen: self.screen.notice(
                        "still waiting for the AI answer; releasing command output"@,
                        now.wall,
                    ).pass(a.buffered_pty, now),
                }
            } else {
                self
            },
        }
    }

    /// Due deadlines fired.
    pub open spec fn polled(self, now: Moment) -> Stage {
        self.receipted(now).released(now)
    }

    /// A delta of an answer arrives.
    pub open spec fn delta(self, request_id: Seq<char>, delta: Seq<char>, now: Moment) -> Stage {
        let p = self.presentation;
        if p.aborted.contains(request_id) {
            self
        } else {
            let a = if p.serves(request_id) {
                p.active->0
            } else {
                ActiveView::begun(
                    request_id,
                    p.mode_for(request_id),
                    self.screen.session,
                    now.mono,
                )
            };
            let (drawn, screen) = a.counted(now.mono).rendered(delta, self.screen, now.wall);
            let (noted, log) = drawn.degrade_noted(a.first_noted(p.log, now.mono), now.mono);
            Stage {
                presentation: PresentationView { active: Some(noted), log, ..p },
                screen,
            }
        }
    }

    /// The screen once an answer is over.
    pub open spec fn closed(self, a: ActiveView, error: Option<Seq<char>>, now: Moment) -> Screen {
        match a.mode {
            Mode::Stream => if a.anchored {
                match error {
                    Some(message) => self.screen.notice_above(error_text(message), now.wall),
                    None => self.screen,
                }
            } else {
                let tailed = if a.started {
                    self.screen.show(encode_utf8("\r\n"@), now.wall)
                } else {
                    self.screen
                };
                let told = match error {
                    Some(message) => tailed.notice(error_text(message), now.wall),
                    None => tailed,
                };
                told.pass(a.buffered_pty, now)
            },
            Mode::Block => {
                let placed = if a.accumulated.len() > 0 {
                    self.screen.block(a.accumulated, now.wall)
                } else {
                    self.screen
                };
                match error {
                    Some(message) => placed.notice_before(error_text(message), now.wall),
                    None => placed,
                }
            },
        }
    }

    /// An answer ends, with an error or without.
    pub open spec fn finished(self, request_id: Seq<char>, error: Option<Seq<char>>, now: Moment) -> Stage {
        let p = self.presentation.forgetting(request_id);
        if self.presentation.aborted.contains(request_id) {
            Stage { presentation: p, ..self }
        } else if !p.serves(request_id) {
            Stage {
                presentation: p,
                screen: match error {
                    Some(message) => self.screen.notice(error_text(message), now.wall),
                    None => self.screen,
                },
            }
        } else {
            let a = p.active->0;
            Stage {
                presentation: PresentationView {
                    active: None,
                    log: p.log.emitted(
                        a.end_event(
                            if error is Some {
                                "error"@
                            } else {
                                "ok"@
                            },
                            now.mono,
                        ),
                    ),
                    ..p
                },
                screen: self.closed(a, error, now),
            }
        }
    }

    /// The user interrupts the response in flight.
    pub open spec fn interrupted(self, now: Moment) -> Option<(Stage, Seq<char>)> {
        match self.presentation.active {
            None => None,
            Some(a) => {
                let p = self.presentation;
                let screen = match a.mode {
                    Mode::Stream => if a.anchored {
                        self.screen.notice_above("answer interrupted (^C)"@, now.wall)
                    } else {
                        let tailed = if a.started {
                            self.screen.show(encode_utf8("\r\n"@), now.wall)
                        } else {
                            self.screen
                        };
                        tailed.notice("answer interrupted (^C)"@, now.wall).pass(
                            a.buffered_pty,
                            now,
                        )
                    },
                    Mode::Block => self.screen.notice_before("answer cancelled (^C)"@, now.wall),
                };
                Some(
                    (
                        Stage {
                            presentation: PresentationView {
                                dispatched: p.dispatched.remove(a.request_id),
                                active: None,
                                aborted: p.aborted.insert(a.request_id),
                                log: p.log.emitted(a.end_event("interrupted"@, now.mono)),
                            },
                            screen,
                        },
                        a.request_id,
                    ),
                )
            },
        }
    }

    /// A daemon message arrives. Only the messages of an answer are rendered.
    pub open spec fn told(self, message: ServerMessage, now: Moment) -> Stage {
        match message {
            ServerMessage::AiDelta { request_id, delta } => self.delta(request_id@, delta@, now),
            ServerMessage::AiResponseEnd { request_id } => self.finished(request_id@, None, now),
            ServerMessage::AiError { request_id, message } => self.finished(
                request_id@,
                Some(message@),
                now,
            ),
            _ => self,
        }
    }
}

/// The request whose answer a daemon message is part of.
pub open spec fn answer_of(message: ServerMessage) -> Option<Seq<char>> {
    match message {
        ServerMessage::AiDelta { request_id, .. } => Some(request_id@),
        ServerMessage::AiResponseEnd { request_id } => Some(request_id@),
        ServerMessage::AiError { request_id, .. } => Some(request_id@),
        _ => None,
    }
}

// ---------------------------------------------------------------------------
// Writing to the terminal
// ---------------------------------------------------------------------------

/// The terminal that a session and a byte stream stand for.
pub open spec fn screen_of(state: SessionState, out: Seq<u8>) -> Screen {
    Screen { session: state@, out }
}

proof fn lemma_presented_room(s: SessionView, bytes: Seq<u8>, wall: i64, events: nat, n: nat)
    requires
        s.room(events + 1, n),
    ensures
        s.presented(bytes, wall).room(events, n),
{
}

fn push_text(out: &mut Vec<u8>, s: &str)
    ensures
        final(out)@ == old(out)@ + encode_utf8(s@),
{
    out.extend_from_slice(s.as_bytes());
}

fn push_repeated(out: &mut Vec<u8>, s: &str, n: usize)
    ensures
        final(out)@ == old(out)@ + repeated(encode_utf8(s@), n as nat),
{
    let ghost before = out@;
    let mut i: usize = 0;
    assert(out@ =~= before + repeated(encode_utf8(s@), 0));
    while i < n
        invariant
            i <= n,
            out@ == before + repeated(encode_utf8(s@), i as nat),
        decreases n - i,
    {
        push_text(out, s);
        i += 1;
        assert(out@ =~= before + repeated(encode_utf8(s@), i as nat));
    }
}

/// Normalizes `\n` to `\r\n` for a terminal in raw mode. `last_was_cr` carries the
/// final-byte state across chunks so a `\r\n` split between deltas stays intact.
pub fn normalize_newlines(text: &str, last_was_cr: &mut bool, out: &mut Vec<u8>)
    ensures
        final(out)@ == old(out)@ + normalized(encode_utf8(text@), *old(last_was_cr)),
        *final(last_was_cr) == ends_in_cr(encode_utf8(text@), *old(last_was_cr)),
{
    let bytes = text.as_bytes();
    let ghost all = bytes@;
    let ghost before = out@;
    let ghost cr = *last_was_cr;
    let mut i: usize = 0;
    assert(all.take(0) =~= Seq::<u8>::empty());
    assert(out@ =~= before + normalized(all.take(0), cr));
    while i < bytes.len()
        invariant
            i <= bytes.len(),
            bytes@ == all,
            *last_was_cr == ends_in_cr(all.take(i as int), cr),
            out@ == before + normalized(all.take(i as int), cr),
        decreases bytes.len() - i,
    {
        let byte: u8 = bytes[i];
        assert(all.take(i + 1).drop_last() =~= all.take(i as int));
        assert(all.take(i + 1).last() == byte);
        if byte == 0x0a && !*last_was_cr {
            out.push(0x0d);
        }
        *last_was_cr = byte == 0x0d;
        out.push(byte);
        i += 1;
        assert(out@ =~= before + normalized(all.take(i as int), cr));
    }
    assert(all.take(i as int) =~= all);
}

/// Writes presentation output and feeds the mirror the same bytes.
pub(crate) fn show(bytes: &[u8], out: &mut Vec<u8>, state: &mut SessionState, now: Moment)
    requires
        old(state).wf(),
        old(state)@.room(1, 0),
    ensures
        final(state).wf(),
        screen_of(*final(state), final(out)@) == screen_of(*old(state), old(out)@).show(
            bytes@,
            now.wall,
        ),
{
    out.extend_from_slice(bytes);
    state.record_presentation_output(bytes, now);
}

/// Writes PTY output through.
fn pass(bytes: &[u8], out: &mut Vec<u8>, state: &mut SessionState, now: Moment)
    requires
        old(state).wf(),
        old(state)@.room(2, bytes@.len()),
    ensures
        final(state).wf(),
        screen_of(*final(state), final(out)@) == screen_of(*old(state), old(out)@).pass(bytes@, now),
{
    out.extend_from_slice(bytes);
    state.record_output(bytes, now);
}

/// The prefix that puts presentation output at the start of a line: empty when the
/// cursor already rests at the start of an empty line, a newline otherwise, so a `#?`
/// line is followed directly by koshell output instead of a blank line.
fn line_prefix(state: &SessionState) -> (r: String)
    requires
        state.wf(),
    ensures
        r@ == line_lead(state@),
{
    if state.at_line_start() {
        String::new()
    } else {
        "\r\n".to_owned()
    }
}

fn notice_text(text: &str) -> (r: String)
    ensures
        r@ == notice_line(text@),
{
    let mut line = String::new();
    line.append("\x1b[2m[koshell] ");
    line.append(text);
    line.append("\x1b[0m\r\n");
    assert(line@ =~= notice_line(text@));
    line
}

/// Prints a dim one-line presentation notice, mirror-fed like all output.
pub fn notice(text: &str, out: &mut Vec<u8>, state: &mut SessionState, now: Moment)
    requires
        old(state).wf(),
        old(state)@.room(1, 0),
    ensures
        final(state).wf(),
        screen_of(*final(state), final(out)@) == screen_of(*old(state), old(out)@).notice(
            text@,
            now.wall,
        ),
{
    let mut line = line_prefix(state);
    line.append(notice_text(text).as_str());
    show(line.as_str().as_bytes(), out, state, now);
}

/// Appends the erase sequence for a live region: bottom-up from the cursor row to the
/// region's top row, ending at column 0 of the top row.
pub fn erase_region(bytes: &mut Vec<u8>, region: &LiveRegionSnapshot)
    ensures
        final(bytes)@ == old(bytes)@ + erasing(region@),
{
    push_text(bytes, "\r\x1b[K");
    let rows: usize = region.styled_rows.len();
    let more: usize = if rows > 1 {
        rows - 1
    } else {
        0
    };
    push_repeated(bytes, "\x1b[A\x1b[K", more);
    assert(region@.styled_rows.len() == rows);
    assert(bytes@ =~= old(bytes)@ + erasing(region@));
}

/// Appends the live region's rows (styled, joined so soft wrapping reproduces itself)
/// plus what puts the cursor back on its live column: spaces where that lies past the
/// text, a movement where it lies within. The cursor must be at column 0 of the row where
/// the region should start.
pub fn restore_region(bytes: &mut Vec<u8>, region: &LiveRegionSnapshot)
    ensures
        final(bytes)@ == old(bytes)@ + restoring(region@),
{
    let ghost rows = region@.styled_rows;
    let ghost before = bytes@;
    let mut i: usize = 0;
    assert(bytes@ =~= before + joined_rows(rows.take(0)));
    while i < region.styled_rows.len()
        invariant
            i <= region.styled_rows@.len(),
            rows == region@.styled_rows,
            rows.len() == region.styled_rows@.len(),
            bytes@ == before + joined_rows(rows.take(i as int)),
        decreases region.styled_rows@.len() - i,
    {
        assert(rows.take(i + 1).drop_last() =~= rows.take(i as int));
        assert(rows.take(i + 1).last() == region.styled_rows@[i as int]@);
        push_text(bytes, region.styled_rows[i].as_str());
        i += 1;
        assert(bytes@ =~= before + joined_rows(rows.take(i as int)));
    }
    assert(rows.take(i as int) =~= rows);
    let ghost rewritten = bytes@;
    if region.cursor_col > region.last_row_columns {
        push_repeated(bytes, " ", (region.cursor_col - region.last_row_columns) as usize);
    } else if region.cursor_col < region.last_row_columns && !region.needs_wrap {
        let mut movement = String::new();
        movement.append("\x1b[");
        push_decimal(&mut movement, region.cursor_col as u64 + 1);
        movement.append("G");
        assert(movement@ =~= "\x1b["@ + text::decimal((region.cursor_col + 1) as nat) + "G"@);
        push_text(bytes, movement.as_str());
    }
    assert(bytes@ =~= rewritten + realigned(realigning(region@)));
    assert(bytes@ =~= before + restoring(region@));
}

/// Inserts presentation content (one or more complete lines, `\r\n`-terminated) directly
/// above the cursor's live input line, restoring the line (echoed input, styling, soft
/// wrapping, cursor column) below it. Returns `false` without writing when the live
/// region cannot be sampled (alternate screen, cursor mid-logical-line).
fn insert_above_live(
    lines: &[u8],
    out: &mut Vec<u8>,
    state: &mut SessionState,
    now: Moment,
) -> (r: bool)
    requires
        old(state).wf(),
        old(state)@.room(1, 0),
    ensures
        final(state).wf(),
        match screen_of(*old(state), old(out)@).inserted(lines@, now.wall) {
            Some(done) => r && screen_of(*final(state), final(out)@) == done,
            None => !r && *final(state) == *old(state) && final(out)@ == old(out)@,
        },
{
    match state.live_region() {
        None => false,
        Some(region) => {
            let mut bytes: Vec<u8> = Vec::new();
            erase_region(&mut bytes, &region);
            bytes.extend_from_slice(lines);
            restore_region(&mut bytes, &region);
            assert(bytes@ =~= erasing(region@) + lines@ + restoring(region@));
            show(bytes.as_slice(), out, state, now);
            true
        },
    }
}

/// Prints a notice inserted above the live input line (echoed input and cursor restored
/// below it), falling back to a plain notice when the live region cannot be sampled.
fn notice_above_live(text: &str, out: &mut Vec<u8>, state: &mut SessionState, now: Moment)
    requires
        old(state).wf(),
        old(state)@.room(1, 0),
    ensures
        final(state).wf(),
        screen_of(*final(state), final(out)@) == screen_of(*old(state), old(out)@).notice_above(
            text@,
            now.wall,
        ),
{
    let line = notice_text(text);
    if !insert_above_live(line.as_str().as_bytes(), out, state, now) {
        notice(text, out, state, now);
    }
}

/// Prints a notice keeping the live input line as the last line: when the cursor rests
/// on a prompt-shaped line, the notice is inserted above the live region, so the
/// program's input line stays where the user expects it.
pub fn notice_before_prompt(text: &str, out: &mut Vec<u8>, state: &mut SessionState, now: Moment)
    requires
        old(state).wf(),
        old(state)@.room(1, 0),
    ensures
        final(state).wf(),
        screen_of(*final(state), final(out)@) == screen_of(*old(state), old(out)@).notice_before(
            text@,
            now.wall,
        ),
{
    if state.resting_prompt() {
        notice_above_live(text, out, state, now);
    } else {
        notice(text, out, state, now);
    }
}

/// Places a whole answer: above a resting prompt, or on lines of its own.
fn place_block(answer: &str, out: &mut Vec<u8>, state: &mut SessionState, now: Moment)
    requires
        old(state).wf(),
        old(state)@.room(1, 0),
    ensures
        final(state).wf(),
        screen_of(*final(state), final(out)@) == screen_of(*old(state), old(out)@).block(
            answer@,
            now.wall,
        ),
{
    let mut last_was_cr = false;
    let mut block: Vec<u8> = Vec::new();
    push_text(&mut block, AI_HEADER);
    normalize_newlines(answer, &mut last_was_cr, &mut block);
    push_text(&mut block, "\r\n");
    let ghost lines = encode_utf8(AI_HEADER@) + normalized(encode_utf8(answer@), false)
        + encode_utf8("\r\n"@);
    assert(block@ =~= lines);
    let inserted = state.resting_prompt() && insert_above_live(block.as_slice(), out, state, now);
    if !inserted {
        let mut placed: Vec<u8> = Vec::new();
        push_text(&mut placed, line_prefix(state).as_str());
        placed.extend_from_slice(block.as_slice());
        assert(placed@ =~= encode_utf8(line_lead(state@)) + lines);
        show(placed.as_slice(), out, state, now);
    }
}

fn error_notice(message: &str) -> (r: String)
    ensures
        r@ == error_text(message@),
{
    let mut text = String::new();
    text.append("AI error: ");
    text.append(message);
    assert(text@ =~= error_text(message@));
    text
}

// ---------------------------------------------------------------------------
// The response in flight
// ---------------------------------------------------------------------------

/// The AI text's resume point for anchored streaming, sampled from the mirror after each
/// delta (the mirror cursor is the real cursor, so this is exact).
struct AiEnd {
    /// Cursor column at the end of the AI text.
    col: u16,
    /// Terminal pending-wrap state at the end of the AI text: the line is exactly full
    /// and must be resumed without cursor movement.
    needs_wrap: bool,
    /// Plain text of the AI tail row, for the pre-redraw check.
    tail: String,
}

struct ActiveResponse {
    request_id: String,
    mode: Mode,
    dispatched_at: u64,
    /// Whether the delayed waiting notice was printed.
    receipt_shown: bool,
    /// Stream mode: whether the header was written (deferred to the first delta).
    started: bool,
    /// Stream mode: whether the last written delta byte was a carriage return.
    last_was_cr: bool,
    /// Block mode: accumulated response text.
    accumulated: String,
    /// Non-anchored stream mode: PTY visible bytes held back.
    buffered_pty: Vec<u8>,
    /// Non-anchored stream mode: the fuse blew or the max hold expired.
    interleaved: bool,
    /// The response was dispatched onto an already-rendered prompt.
    anchored: bool,
    /// Anchored streaming: the AI resume point; `None` until the first delta.
    ai_end: Option<AiEnd>,
    began_anchored: bool,
    first_delta_at: Option<u64>,
    delta_count: u32,
    degrade: Option<Degrade>,
    degrade_emitted: bool,
    mid_stream_input_chunks: u32,
}

impl View for AiEnd {
    type V = AiEndView;

    closed spec fn view(&self) -> AiEndView {
        AiEndView { col: self.col, needs_wrap: self.needs_wrap, tail: self.tail@ }
    }
}

impl View for ActiveResponse {
    type V = ActiveView;

    closed spec fn view(&self) -> ActiveView {
        ActiveView {
            request_id: self.request_id@,
            mode: self.mode,
            dispatched_at: self.dispatched_at,
            receipt_shown: self.receipt_shown,
            started: self.started,
            last_was_cr: self.last_was_cr,
            accumulated: self.accumulated@,
            buffered_pty: self.buffered_pty@,
            interleaved: self.interleaved,
            anchored: self.anchored,
            ai_end: match self.ai_end {
                Some(end) => Some(end@),
                None => None,
            },
            began_anchored: self.began_anchored,
            first_delta_at: self.first_delta_at,
            delta_count: self.delta_count as nat,
            degrade: self.degrade,
            degrade_emitted: self.degrade_emitted,
            mid_stream_input_chunks: self.mid_stream_input_chunks as nat,
        }
    }
}

impl ActiveResponse {
    /// In stream mode, when the cursor rests on an already-rendered prompt, the response
    /// runs anchored: deltas insert above the live input line, which stays fully usable
    /// in the meantime. Nothing is written at dispatch time.
    fn begin(request_id: String, mode: Mode, state: &SessionState, mono: u64) -> (r: Self)
        requires
            state.wf(),
        ensures
            r@ == ActiveView::begun(request_id@, mode, state@, mono),
    {
        let anchored = mode == Mode::Stream && state.resting_prompt();
        ActiveResponse {
            request_id,
            mode,
            dispatched_at: mono,
            receipt_shown: false,
            started: false,
            last_was_cr: false,
            accumulated: String::new(),
            buffered_pty: Vec::new(),
            interleaved: false,
            anchored,
            ai_end: None,
            began_anchored: anchored,
            first_delta_at: None,
            delta_count: 0,
            degrade: None,
            degrade_emitted: false,
            mid_stream_input_chunks: 0,
        }
    }

    fn end_event(&self, status: &'static str, mono: u64) -> (r: Event)
        ensures
            r@ == self@.end_event(status@, mono),
    {
        Event::ResponseEnd {
            request_id: self.request_id.clone(),
            status,
            total_ms: elapsed_between(self.dispatched_at, mono),
            first_delta_ms: match self.first_delta_at {
                Some(at) => Some(elapsed_between(self.dispatched_at, at)),
                None => None,
            },
            delta_count: self.delta_count,
            began_anchored: self.began_anchored,
            degraded_to_block: self.degrade.is_some(),
            mid_stream_input_chunks: self.mid_stream_input_chunks,
            tool_calls: 0,
            tool_failures: 0,
        }
    }

    fn nothing_rendered(&self) -> (r: bool)
        ensures
            r == self@.nothing_rendered(),
    {
        !self.started && self.accumulated.as_str().unicode_len() == 0
    }

    fn holding_pty(&self) -> (r: bool)
        ensures
            r == self@.holding(),
    {
        self.mode == Mode::Stream && !self.interleaved && !self.anchored
    }

    /// Switches the rest of an anchored response to block accumulation (the already
    /// streamed part stays where it is; the remainder is inserted as one block at
    /// response end).
    fn degrade_to_block(&mut self, delta: &str, reason: Degrade)
        ensures
            final(self)@ == old(self)@.degraded(delta@, reason),
    {
        self.mode = Mode::Block;
        self.anchored = false;
        self.degrade = Some(reason);
        self.accumulated.append(delta);
    }

    fn push_lead(&self, bytes: &mut Vec<u8>)
        ensures
            final(bytes)@ == old(bytes)@ + self@.anchored_lead(),
    {
        match &self.ai_end {
            None => push_text(bytes, AI_HEADER),
            Some(end) => {
                if !end.needs_wrap {
                    let mut movement = String::new();
                    movement.append("\x1b[A\x1b[");
                    push_decimal(&mut movement, end.col as u64 + 1);
                    movement.append("G");
                    assert(movement@ =~= "\x1b[A\x1b["@ + text::decimal((end.col + 1) as nat)
                        + "G"@);
                    push_text(bytes, movement.as_str());
                }
            },
        }
        assert(bytes@ =~= old(bytes)@ + self@.anchored_lead());
    }

    /// Renders one anchored-streaming delta: erase the live input line, resume the AI
    /// text exactly where it left off in the free zone above, then rewrite the live line
    /// below it, echoed input, styling, soft wrapping, and cursor column intact.
    ///
    /// Before redrawing, the row directly above the live region must still be the AI
    /// tail. When it is not (a mid-stream command printed its result, the screen was
    /// cleared) or the live region cannot be sampled, the rest of the response degrades
    /// to block mode: one seam at the end, never line-level interleaving with program
    /// output.
    fn anchored_delta(
        &mut self,
        delta: &str,
        out: &mut Vec<u8>,
        state: &mut SessionState,
        now: Moment,
    )
        requires
            old(state).wf(),
            old(state)@.room(2, 0),
        ensures
            final(state).wf(),
            (final(self)@, screen_of(*final(state), final(out)@)) == old(self)@.anchored_delta(
                delta@,
                screen_of(*old(state), old(out)@),
                now.wall,
            ),
    {
        let region = match state.live_region() {
            Some(region) => region,
            None => {
                self.degrade_to_block(delta, Degrade::LiveRegionUnavailable);
                return;
            },
        };
        let moved = match &self.ai_end {
            Some(end) => match &region.row_above {
                Some(row) => !same_text(row.as_str(), end.tail.as_str()),
                None => true,
            },
            None => false,
        };
        if moved {
            self.degrade_to_block(delta, Degrade::TailMismatch);
            return;
        }
        // First, lift the live region and resume the AI text.
        let ghost before = self@;
        let ghost screen = screen_of(*state, out@);
        let mut bytes: Vec<u8> = Vec::new();
        erase_region(&mut bytes, &region);
        self.push_lead(&mut bytes);
        self.started = true;
        normalize_newlines(delta, &mut self.last_was_cr, &mut bytes);
        assert(bytes@ =~= erasing(region@) + before.anchored_lead() + normalized(
            encode_utf8(delta@),
            before.last_was_cr,
        ));
        proof {
            lemma_presented_room(state@, bytes@, now.wall, 1, 0);
        }
        show(bytes.as_slice(), out, state, now);
        // The mirror consumed the same bytes, so its cursor is the exact resume point.
        let (col, needs_wrap, tail) = state.cursor_probe();
        self.ai_end = Some(AiEnd { col, needs_wrap, tail });
        // Then, put the live region back below the AI text.
        let mut rest: Vec<u8> = Vec::new();
        push_text(&mut rest, "\r\n");
        restore_region(&mut rest, &region);
        assert(rest@ =~= encode_utf8("\r\n"@) + restoring(region@));
        show(rest.as_slice(), out, state, now);
    }

    fn streamed_delta(
        &mut self,
        delta: &str,
        out: &mut Vec<u8>,
        state: &mut SessionState,
        now: Moment,
    )
        requires
            old(state).wf(),
            old(state)@.room(2, 0),
        ensures
            final(state).wf(),
            (final(self)@, screen_of(*final(state), final(out)@)) == old(self)@.streamed_delta(
                delta@,
                screen_of(*old(state), old(out)@),
                now.wall,
            ),
    {
        if !self.started {
            self.started = true;
            let mut header = line_prefix(state);
            header.append(AI_HEADER);
            proof {
                lemma_presented_room(state@, encode_utf8(header@), now.wall, 1, 0);
            }
            show(header.as_str().as_bytes(), out, state, now);
        }
        let mut bytes: Vec<u8> = Vec::new();
        normalize_newlines(delta, &mut self.last_was_cr, &mut bytes);
        assert(bytes@ =~= normalized(encode_utf8(delta@), old(self)@.last_was_cr));
        show(bytes.as_slice(), out, state, now);
    }

    fn count_delta(&mut self, log: &mut EventLog, mono: u64)
        requires
            old(self)@.delta_count < u32::MAX,
        ensures
            final(self)@ == old(self)@.counted(mono),
            final(log)@ == old(self)@.first_noted(old(log)@, mono),
    {
        if self.first_delta_at.is_none() {
            log.emit(
                Event::FirstDelta {
                    request_id: self.request_id.clone(),
                    dispatch_to_first_delta_ms: elapsed_between(self.dispatched_at, mono),
                    mode: match self.mode {
                        Mode::Stream => "stream",
                        Mode::Block => "block",
                    },
                    anchored: self.anchored,
                },
            );
            self.first_delta_at = Some(mono);
        }
        self.delta_count = self.delta_count + 1;
    }

    fn note_degrade(&mut self, log: &mut EventLog, mono: u64)
        ensures
            (final(self)@, final(log)@) == old(self)@.degrade_noted(old(log)@, mono),
    {
        if let Some(reason) = self.degrade {
            if !self.degrade_emitted {
                self.degrade_emitted = true;
                log.emit(
                    Event::DegradeToBlock {
                        request_id: self.request_id.clone(),
                        reason: match reason {
                            Degrade::LiveRegionUnavailable => "live_region_unavailable",
                            Degrade::TailMismatch => "tail_mismatch",
                        },
                        ms_since_dispatch: elapsed_between(self.dispatched_at, mono),
                        deltas_so_far: self.delta_count,
                    },
                );
            }
        }
    }

    fn render(&mut self, delta: &str, out: &mut Vec<u8>, state: &mut SessionState, now: Moment)
        requires
            old(state).wf(),
            old(state)@.room(2, 0),
        ensures
            final(state).wf(),
            (final(self)@, screen_of(*final(state), final(out)@)) == old(self)@.rendered(
                delta@,
                screen_of(*old(state), old(out)@),
                now.wall,
            ),
    {
        match self.mode {
            Mode::Stream => {
                if self.anchored {
                    self.anchored_delta(delta, out, state, now);
                } else {
                    self.streamed_delta(delta, out, state, now);
                }
            },
            Mode::Block => self.accumulated.append(delta),
        }
    }
}

// ---------------------------------------------------------------------------
// The presentation
// ---------------------------------------------------------------------------

spec fn flags_of(v: Seq<(String, bool)>) -> Map<Seq<char>, bool>
    decreases v.len(),
{
    if v.len() == 0 {
        Map::empty()
    } else {
        flags_of(v.drop_last()).insert(v.last().0@, v.last().1)
    }
}

spec fn names_of(v: Seq<String>) -> Set<Seq<char>>
    decreases v.len(),
{
    if v.len() == 0 {
        Set::empty()
    } else {
        names_of(v.drop_last()).insert(v.last()@)
    }
}

fn flag_under(v: &Vec<(String, bool)>, name: &str) -> (r: Option<bool>)
    ensures
        match r {
            Some(b) => flags_of(v@).contains_key(name@) && flags_of(v@)[name@] == b,
            None => !flags_of(v@).contains_key(name@),
        },
{
    let mut i: usize = v.len();
    assert(v@.take(i as int) =~= v@);
    while i > 0
        invariant
            i <= v@.len(),
            flags_of(v@).contains_key(name@) == flags_of(v@.take(i as int)).contains_key(name@),
            flags_of(v@).contains_key(name@) ==> flags_of(v@)[name@] == flags_of(
                v@.take(i as int),
            )[name@],
        decreases i,
    {
        i -= 1;
        assert(v@.take(i + 1).drop_last() =~= v@.take(i as int));
        assert(v@.take(i + 1).last() == v@[i as int]);
        if same_text(v[i].0.as_str(), name) {
            return Some(v[i].1);
        }
    }
    None
}

fn remove_flag(v: &mut Vec<(String, bool)>, name: &str)
    ensures
        flags_of(final(v)@) == flags_of(old(v)@).remove(name@),
{
    let mut kept: Vec<(String, bool)> = Vec::new();
    let mut i: usize = 0;
    let ghost all = v@;
    assert(all.take(0) =~= Seq::<(String, bool)>::empty());
    assert(flags_of(kept@) =~= flags_of(all.take(0)).remove(name@));
    while i < v.len()
        invariant
            v@ == all,
            i <= v@.len(),
            flags_of(kept@) == flags_of(all.take(i as int)).remove(name@),
        decreases v@.len() - i,
    {
        assert(all.take(i + 1).drop_last() =~= all.take(i as int));
        assert(all.take(i + 1).last() == all[i as int]);
        let ghost before = kept@;
        if !same_text(v[i].0.as_str(), name) {
            kept.push((v[i].0.clone(), v[i].1));
            assert(kept@.drop_last() =~= before);
        }
        i += 1;
        assert(flags_of(kept@) =~= flags_of(all.take(i as int)).remove(name@));
    }
    assert(all.take(i as int) =~= all);
    *v = kept;
}

fn insert_flag(v: &mut Vec<(String, bool)>, name: String, flag: bool)
    ensures
        flags_of(final(v)@) == flags_of(old(v)@).insert(name@, flag),
{
    let ghost before = flags_of(v@);
    remove_flag(v, name.as_str());
    let ghost trimmed = v@;
    let ghost key = name@;
    v.push((name, flag));
    assert(v@.drop_last() =~= trimmed);
    assert(flags_of(v@) =~= before.insert(key, flag));
}

fn has_name(v: &Vec<String>, name: &str) -> (r: bool)
    ensures
        r == names_of(v@).contains(name@),
{
    let mut i: usize = v.len();
    assert(v@.take(i as int) =~= v@);
    while i > 0
        invariant
            i <= v@.len(),
            names_of(v@).contains(name@) == names_of(v@.take(i as int)).contains(name@),
        decreases i,
    {
        i -= 1;
        assert(v@.take(i + 1).drop_last() =~= v@.take(i as int));
        assert(v@.take(i + 1).last() == v@[i as int]);
        if same_text(v[i].as_str(), name) {
            return true;
        }
    }
    false
}

fn remove_name(v: &mut Vec<String>, name: &str)
    ensures
        names_of(final(v)@) == names_of(old(v)@).remove(name@),
{
    let mut kept: Vec<String> = Vec::new();
    let mut i: usize = 0;
    let ghost all = v@;
    assert(all.take(0) =~= Seq::<String>::empty());
    assert(names_of(kept@) =~= names_of(all.take(0)).remove(name@));
    while i < v.len()
        invariant
            v@ == all,
            i <= v@.len(),
            names_of(kept@) == names_of(all.take(i as int)).remove(name@),
        decreases v@.len() - i,
    {
        assert(all.take(i + 1).drop_last() =~= all.take(i as int));
        assert(all.take(i + 1).last() == all[i as int]);
        let ghost before = kept@;
        if !same_text(v[i].as_str(), name) {
            kept.push(v[i].clone());
            assert(kept@.drop_last() =~= before);
        }
        i += 1;
        assert(names_of(kept@) =~= names_of(all.take(i as int)).remove(name@));
    }
    assert(all.take(i as int) =~= all);
    *v = kept;
}

fn insert_name(v: &mut Vec<String>, name: String)
    ensures
        names_of(final(v)@) == names_of(old(v)@).insert(name@),
{
    let ghost before = names_of(v@);
    let ghost key = name@;
    remove_name(v, name.as_str());
    let ghost trimmed = v@;
    v.push(name);
    assert(v@.drop_last() =~= trimmed);
    assert(names_of(v@) =~= before.insert(key));
}

/// Renders daemon server messages into the terminal and decides when PTY output is
/// written through versus buffered. One instance per session. What is to be written is
/// appended to the caller's buffer.
pub struct Presentation {
    dispatched: Vec<(String, bool)>,
    active: Option<ActiveResponse>,
    /// Requests aborted by a user interrupt (Ctrl+C): rendering stopped locally, so late
    /// deltas and the daemon's terminal marker are dropped silently. The local stop is
    /// authoritative; the daemon-side cancel is only best-effort.
    aborted: Vec<String>,
    event_log: EventLog,
}

spec fn active_view(active: Option<ActiveResponse>) -> Option<ActiveView> {
    match active {
        Some(a) => Some(a@),
        None => None,
    }
}

impl View for Presentation {
    type V = PresentationView;

    closed spec fn view(&self) -> PresentationView {
        PresentationView {
            dispatched: flags_of(self.dispatched@),
            active: active_view(self.active),
            aborted: names_of(self.aborted@),
            log: self.event_log@,
        }
    }
}

/// The stage that a presentation, a session and a byte stream stand for.
pub open spec fn stage_of(p: Presentation, state: SessionState, out: Seq<u8>) -> Stage {
    Stage { presentation: p@, screen: screen_of(state, out) }
}

impl Presentation {
    pub fn new() -> (r: Self)
        ensures
            r@ == PresentationView::fresh(),
    {
        Presentation {
            dispatched: Vec::new(),
            active: None,
            aborted: Vec::new(),
            event_log: EventLog::default(),
        }
    }

    /// Whether the counters have room for one more message, and the session's for that
    /// many bytes of output beside what is held.
    pub fn has_room(&self, state: &SessionState, bytes: usize) -> (r: bool)
        requires
            state.wf(),
        ensures
            r == (self@.fits(state@, bytes as nat) && self@.held().len() + bytes <= usize::MAX),
    {
        match &self.active {
            Some(a) => {
                let held: usize = a.buffered_pty.len();
                a.delta_count < u32::MAX && a.mid_stream_input_chunks < u32::MAX && held
                    <= usize::MAX - bytes && state.has_room(4, held + bytes)
            },
            None => state.has_room(4, bytes),
        }
    }

    /// Injects the session's event log; emit points stay inert without one.
    pub fn set_event_log(&mut self, event_log: EventLog)
        ensures
            final(self)@ == (PresentationView { log: event_log@, ..old(self)@ }),
    {
        self.event_log = event_log;
    }

    /// Takes the events emitted since the last call.
    pub fn take_events(&mut self) -> (r: Vec<Event>)
        ensures
            event_log::event_views(r@) == old(self)@.log.events,
            final(self)@ == (PresentationView {
                log: event_log::LogView { events: seq![], ..old(self)@.log },
                ..old(self)@
            }),
    {
        self.event_log.take()
    }

    /// Counts a stdin chunk that arrived while a stream-mode response was in flight. The
    /// bytes themselves are never recorded.
    pub fn note_mid_stream_input(&mut self)
        requires
            old(self)@.active is Some ==> old(self)@.active->0.mid_stream_input_chunks < u32::MAX,
        ensures
            final(self)@ == old(self)@.typed_into(),
    {
        match self.active.take() {
            Some(mut active) => {
                if active.mode == Mode::Stream {
                    active.mid_stream_input_chunks = active.mid_stream_input_chunks + 1;
                }
                self.active = Some(active);
            },
            None => {},
        }
    }

    /// Whether a Ctrl+C currently belongs to the AI response rather than the child
    /// program: a stream-mode response is in flight, meaning the triggering command
    /// already ended and the AI is the only thing occupying the terminal. Block mode
    /// (command still running) never claims Ctrl+C.
    pub fn owns_interrupt(&self) -> (r: bool)
        ensures
            r == self@.owns_interrupt(),
    {
        match &self.active {
            Some(active) => active.mode == Mode::Stream,
            None => false,
        }
    }

    /// Aborts the active response on a user interrupt (Ctrl+C): rendering stops
    /// immediately and everything the daemon still sends for this request is dropped.
    /// Returns the request id so the caller can send a best-effort cancel to the daemon.
    /// `None` when no response is active (the caller treats the interrupt as ordinary
    /// input).
    pub fn user_interrupt(
        &mut self,
        out: &mut Vec<u8>,
        state: &mut SessionState,
        now: Moment,
    ) -> (r: Option<String>)
        requires
            old(state).wf(),
            old(self)@.fits(old(state)@, 0),
        ensures
            final(state).wf(),
            match stage_of(*old(self), *old(state), old(out)@).interrupted(now) {
                Some(done) => r is Some && (
                    stage_of(*final(self), *final(state), final(out)@),
                    r->0@,
                ) == done,
                None => r is None && stage_of(*final(self), *final(state), final(out)@) == stage_of(
                    *old(self),
                    *old(state),
                    old(out)@,
                ),
            },
    {
        let active = match self.active.take() {
            Some(active) => active,
            None => {
                return None;
            },
        };
        remove_flag(&mut self.dispatched, active.request_id.as_str());
        insert_name(&mut self.aborted, active.request_id.clone());
        self.event_log.emit(active.end_event("interrupted", now.mono));
        match active.mode {
            Mode::Stream => {
                if active.anchored {
                    // The streamed part stays in the free zone; close it with an
                    // interrupted marker and keep the live input line last.
                    notice_above_live("answer interrupted (^C)", out, state, now);
                } else {
                    self.close_stream(&active, Some("answer interrupted (^C)"), out, state, now);
                }
            },
            Mode::Block => {
                // The accumulated text was never rendered; drop it. The Ctrl+C was
                // forwarded to the program, so only the withdrawal needs ink.
                notice_before_prompt("answer cancelled (^C)", out, state, now);
            },
        }
        Some(active.request_id)
    }

    /// Closes a streamed answer: ends its line, prints a notice where there is one, and
    /// releases the output held back.
    fn close_stream(
        &self,
        active: &ActiveResponse,
        text: Option<&str>,
        out: &mut Vec<u8>,
        state: &mut SessionState,
        now: Moment,
    )
        requires
            old(state).wf(),
            old(state)@.room(4, active@.buffered_pty.len()),
        ensures
            final(state).wf(),
            screen_of(*final(state), final(out)@) == ({
                let screen = screen_of(*old(state), old(out)@);
                let tailed = if active@.started {
                    screen.show(encode_utf8("\r\n"@), now.wall)
                } else {
                    screen
                };
                let told = match text {
                    Some(t) => tailed.notice(t@, now.wall),
                    None => tailed,
                };
                told.pass(active@.buffered_pty, now)
            }),
    {
        let ghost n = active@.buffered_pty.len();
        if active.started {
            proof {
                lemma_presented_room(state@, encode_utf8("\r\n"@), now.wall, 3, n);
            }
            show("\r\n".as_bytes(), out, state, now);
        }
        if let Some(t) = text {
            proof {
                lemma_presented_room(
                    state@,
                    encode_utf8(line_lead(state@) + notice_line(t@)),
                    now.wall,
                    2,
                    n,
                );
            }
            notice(t, out, state, now);
        }
        pass(active.buffered_pty.as_slice(), out, state, now);
    }

    /// Records a `#?` request handed to the daemon and the bounded-side decision made at
    /// fire time (whether the triggering command was still running). For a command that
    /// ended without a rendered prompt, PTY buffering starts here, before the first
    /// delta, so the returning prompt is already held while the daemon thinks; with a
    /// rendered prompt the response runs anchored instead.
    pub fn note_dispatch(
        &mut self,
        request_id: &str,
        still_running: bool,
        state: &SessionState,
        now: Moment,
    )
        requires
            state.wf(),
        ensures
            final(self)@ == old(self)@.noted(request_id@, still_running, state@, now.mono),
    {
        insert_flag(&mut self.dispatched, request_id.to_owned(), still_running);
        if self.active.is_none() {
            let mode = if still_running {
                Mode::Block
            } else {
                Mode::Stream
            };
            self.active =
            Some(ActiveResponse::begin(request_id.to_owned(), mode, state, now.mono));
        }
    }

    /// Routes PTY visible output: buffered while a stream-mode response is in flight
    /// (until the fuse blows or the hold expires), written through otherwise.
    pub fn pty_output(
        &mut self,
        visible: &[u8],
        out: &mut Vec<u8>,
        state: &mut SessionState,
        now: Moment,
    )
        requires
            old(state).wf(),
            old(self)@.fits(old(state)@, visible@.len()),
        ensures
            final(state).wf(),
            stage_of(*final(self), *final(state), final(out)@) == stage_of(
                *old(self),
                *old(state),
                old(out)@,
            ).pty(visible@, now),
    {
        let ghost before = stage_of(*self, *state, out@);
        proof {
            assert(state@.history.can_record(self@.held().len() + visible@.len()));
            assert(state@.history.can_record(visible@.len()));
        }
        let ghost held = self@.held();
        match self.active.take() {
            Some(mut active) => {
                if active.holding_pty() {
                    active.buffered_pty.extend_from_slice(visible);
                    if active.buffered_pty.len() > PTY_BUFFER_FUSE_BYTES {
                        active.interleaved = true;
                        let mut buffered: Vec<u8> = Vec::new();
                        std::mem::swap(&mut buffered, &mut active.buffered_pty);
                        assert(active.buffered_pty@ =~= Seq::<u8>::empty());
                        assert(buffered@ =~= held + visible@);
                        pass(buffered.as_slice(), out, state, now);
                    } else {
                        assert(active.buffered_pty@ =~= held + visible@);
                    }
                } else {
                    pass(visible, out, state, now);
                }
                self.active = Some(active);
            },
            None => pass(visible, out, state, now),
        }
        assert(stage_of(*self, *state, out@) =~= before.pty(visible@, now));
    }

    /// Time until the next presentation deadline (waiting notice or max hold), in
    /// milliseconds.
    pub fn next_deadline(&self, now: u64) -> (r: Option<u64>)
        ensures
            r == self@.deadline(now),
    {
        match &self.active {
            None => None,
            Some(active) => {
                if !active.receipt_shown && active.nothing_rendered() {
                    Some(
                        wait_between(
                            active.dispatched_at as u128 + RECEIPT_NOTICE_DELAY as u128,
                            now,
                        ),
                    )
                } else if active.holding_pty() {
                    Some(
                        wait_between(active.dispatched_at as u128 + RESPONSE_MAX_HOLD as u128, now),
                    )
                } else {
                    None
                }
            },
        }
    }

    /// Fires due presentation deadlines: the delayed waiting notice, and the max-hold
    /// release of buffered PTY output.
    pub fn poll(&mut self, now: Moment, out: &mut Vec<u8>, state: &mut SessionState)
        requires
            old(state).wf(),
            old(self)@.fits(old(state)@, 0),
        ensures
            final(state).wf(),
            stage_of(*final(self), *final(state), final(out)@) == stage_of(
                *old(self),
                *old(state),
                old(out)@,
            ).polled(now),
    {
        let ghost before = stage_of(*self, *state, out@);
        match self.active.take() {
            None => {},
            Some(mut active) => {
                let ghost n = active@.buffered_pty.len();
                if !active.receipt_shown && active.nothing_rendered() && now.mono as u128
                    >= active.dispatched_at as u128 + RECEIPT_NOTICE_DELAY as u128 {
                    active.receipt_shown = true;
                    if active.anchored {
                        // The live input line stays the last line; the notice goes
                        // above it.
                        notice_above_live("waiting for the AI answer…", out, state, now);
                    } else {
                        notice("waiting for the AI answer…", out, state, now);
                    }
                    assert(state@.room(3, n));
                }
                let ghost middle = Stage {
                    presentation: PresentationView {
                        active: Some(active@),
                        ..before.presentation
                    },
                    screen: screen_of(*state, out@),
                };
                assert(middle =~= before.receipted(now));
                if active.holding_pty() && now.mono as u128 >= active.dispatched_at as u128
                    + RESPONSE_MAX_HOLD as u128 {
                    active.interleaved = true;
                    active.receipt_shown = true;
                    let mut buffered: Vec<u8> = Vec::new();
                    std::mem::swap(&mut buffered, &mut active.buffered_pty);
                    notice(
                        "still waiting for the AI answer; releasing command output",
                        out,
                        state,
                        now,
                    );
                    pass(buffered.as_slice(), out, state, now);
                }
                self.active = Some(active);
                assert(stage_of(*self, *state, out@) =~= middle.released(now));
            },
        }
    }

    /// Applies one daemon message to the terminal. Receipt feedback is deadline-driven,
    /// not ack-driven. What still comes of an interrupted answer is not shown and changes
    /// neither the response in flight nor the log; its end is only struck off the books.
    pub fn handle_server_message(
        &mut self,
        message: &ServerMessage,
        out: &mut Vec<u8>,
        state: &mut SessionState,
        now: Moment,
    )
        requires
            old(state).wf(),
            old(self)@.fits(old(state)@, 0),
        ensures
            final(state).wf(),
            stage_of(*final(self), *final(state), final(out)@) == stage_of(
                *old(self),
                *old(state),
                old(out)@,
            ).told(*message, now),
            answer_of(*message) is Some && old(self)@.aborted.contains(answer_of(*message)->0) ==> {
                &&& final(out)@ == old(out)@
                &&& final(state)@ == old(state)@
                &&& final(self)@.active == old(self)@.active
                &&& final(self)@.log == old(self)@.log
                &&& final(self)@.owns_interrupt() == old(self)@.owns_interrupt()
                &&& forall|mono: u64| #[trigger]
                    final(self)@.deadline(mono) == old(self)@.deadline(mono)
                &&& final(self)@ == if *message is AiDelta {
                    old(self)@
                } else {
                    old(self)@.forgetting(answer_of(*message)->0)
                }
            },
    {
        match message {
            ServerMessage::AiDelta { request_id, delta } => {
                self.on_delta(request_id.as_str(), delta.as_str(), out, state, now);
            },
            ServerMessage::AiResponseEnd { request_id } => {
                self.finish(request_id.as_str(), None, out, state, now);
            },
            ServerMessage::AiError { request_id, message } => {
                self.finish(request_id.as_str(), Some(message.as_str()), out, state, now);
            },
            _ => {},
        }
    }

    /// The response a delta belongs to. The daemon serializes responses, so a delta for
    /// a different request means the previous one already finished.
    fn response_for(&mut self, request_id: &str, state: &SessionState, mono: u64) -> (r:
        ActiveResponse)
        requires
            state.wf(),
        ensures
            final(self)@ == (PresentationView { active: None, ..old(self)@ }),
            r@ == (if old(self)@.serves(request_id@) {
                old(self)@.active->0
            } else {
                ActiveView::begun(request_id@, old(self)@.mode_for(request_id@), state@, mono)
            }),
    {
        match self.active.take() {
            Some(active) if same_text(active.request_id.as_str(), request_id) => active,
            _ => {
                let mode = match flag_under(&self.dispatched, request_id) {
                    Some(false) => Mode::Stream,
                    _ => Mode::Block,
                };
                ActiveResponse::begin(request_id.to_owned(), mode, state, mono)
            },
        }
    }

    fn on_delta(
        &mut self,
        request_id: &str,
        delta: &str,
        out: &mut Vec<u8>,
        state: &mut SessionState,
        now: Moment,
    )
        requires
            old(state).wf(),
            old(self)@.fits(old(state)@, 0),
        ensures
            final(state).wf(),
            stage_of(*final(self), *final(state), final(out)@) == stage_of(
                *old(self),
                *old(state),
                old(out)@,
            ).delta(request_id@, delta@, now),
    {
        let ghost before = stage_of(*self, *state, out@);
        if has_name(&self.aborted, request_id) {
            return;
        }
        let mut active = self.response_for(request_id, state, now.mono);
        active.count_delta(&mut self.event_log, now.mono);
        active.render(delta, out, state, now);
        active.note_degrade(&mut self.event_log, now.mono);
        self.active = Some(active);
        assert(stage_of(*self, *state, out@) =~= before.delta(request_id@, delta@, now));
    }

    fn finish(
        &mut self,
        request_id: &str,
        error: Option<&str>,
        out: &mut Vec<u8>,
        state: &mut SessionState,
        now: Moment,
    )
        requires
            old(state).wf(),
            old(self)@.fits(old(state)@, 0),
        ensures
            final(state).wf(),
            stage_of(*final(self), *final(state), final(out)@) == stage_of(
                *old(self),
                *old(state),
                old(out)@,
            ).finished(
                request_id@,
                match error {
                    Some(m) => Some(m@),
                    None => None,
                },
                now,
            ),
    {
        let ghost before = stage_of(*self, *state, out@);
        let ghost why = match error {
            Some(m) => Some(m@),
            None => None,
        };
        // An aborted request's terminal marker is part of the suppressed tail; dropping
        // it here also completes the abort bookkeeping.
        let was_aborted = has_name(&self.aborted, request_id);
        remove_name(&mut self.aborted, request_id);
        remove_flag(&mut self.dispatched, request_id);
        if was_aborted {
            assert(stage_of(*self, *state, out@) =~= before.finished(request_id@, why, now));
            return;
        }
        let active = match self.active.take() {
            Some(active) => if same_text(active.request_id.as_str(), request_id) {
                active
            } else {
                self.active = Some(active);
                if let Some(message) = error {
                    notice(error_notice(message).as_str(), out, state, now);
                }
                assert(stage_of(*self, *state, out@) =~= before.finished(request_id@, why, now));
                return;
            },
            None => {
                if let Some(message) = error {
                    notice(error_notice(message).as_str(), out, state, now);
                }
                assert(stage_of(*self, *state, out@) =~= before.finished(request_id@, why, now));
                return;
            },
        };
        let status = match error {
            Some(_) => "error",
            None => "ok",
        };
        self.event_log.emit(active.end_event(status, now.mono));
        match active.mode {
            Mode::Stream => {
                if active.anchored {
                    // The screen is already in its final shape: AI text in the free
                    // zone, the live input line last. Only a failure needs ink.
                    if let Some(message) = error {
                        notice_above_live(error_notice(message).as_str(), out, state, now);
                    }
                } else {
                    match error {
                        Some(message) => {
                            let text = error_notice(message);
                            self.close_stream(&active, Some(text.as_str()), out, state, now);
                        },
                        None => self.close_stream(&active, None, out, state, now),
                    }
                }
            },
            Mode::Block => {
                if active.accumulated.as_str().unicode_len() > 0 {
                    place_block(active.accumulated.as_str(), out, state, now);
                }
                if let Some(message) = error {
                    notice_before_prompt(error_notice(message).as_str(), out, state, now);
                }
            },
        }
        assert(stage_of(*self, *state, out@) =~= before.finished(request_id@, why, now));
    }
}

impl Default for Presentation {
    fn default() -> (r: Self)
        ensures
            r@ == PresentationView::fresh(),
    {
        Self::new()
    }
}

} // verus!
