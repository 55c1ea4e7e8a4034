//! Local usage log: append-only JSON lines under the user's data directory. Nothing is
//! ever uploaded.
//!
//! The events have no field that could carry screen content or PTY bytes. The only
//! free-text fields are the question the user typed after `#?`, the request id, and the
//! shell program path; everything else is a tag, a flag, a count, a duration, or a
//! bounded identifier (see [`identifier`]).
//!
//! The log collects what is to be written; the writer's side stamps each event and puts
//! its line on disk.

use crate::codec;
use crate::codec::{natural, push_field, render_fields, Scalar, ScalarView};
use crate::env;
use crate::env::Env;
use crate::ipc;
use crate::paths;
use crate::paths::join_path;
use crate::text;
use crate::text::{chars_of, is_blank};
use vstd::prelude::*;

verus! {

/// Escape hatch: a non-empty value disables the event log entirely (same convention as
/// `KOSHELL_NO_AUTO`).
pub const DISABLE_ENV_KEY: &'static str = "KOSHELL_NO_EVENT_LOG";

/// The longest identifier that is written through.
pub const MAX_IDENTIFIER_CHARS: usize = 32;

/// One event of the log. Duration fields are milliseconds unless named otherwise;
/// `&'static str` fields are closed vocabularies, never runtime text.
#[derive(Debug, Clone, PartialEq, Eq)]
pub enum Event {
    /// A session began.
    SessionStart {
        shell: String,
        integrated: bool,
        cols: u16,
        rows: u16,
        version: String,
    },
    /// A session ended.
    SessionEnd {
        exit_code: i32,
        duration_ms: u64,
    },
    QuestionSubmitted {
        question: String,
        origin: &'static str,
        form: &'static str,
    },
    QuestionCancelled {
        question: String,
        pending_for_ms: u64,
    },
    Dispatched {
        request_id: String,
        question: String,
        fire_reason: &'static str,
        still_running: bool,
        submit_to_dispatch_ms: u64,
    },
    DispatchFailed {
        request_id: String,
        question: String,
        fire_reason: &'static str,
        reason: &'static str,
    },
    FirstDelta {
        request_id: String,
        dispatch_to_first_delta_ms: u64,
        mode: &'static str,
        anchored: bool,
    },
    DegradeToBlock {
        request_id: String,
        reason: &'static str,
        ms_since_dispatch: u64,
        deltas_so_far: u32,
    },
    ResponseEnd {
        request_id: String,
        status: &'static str,
        total_ms: u64,
        first_delta_ms: Option<u64>,
        delta_count: u32,
        began_anchored: bool,
        degraded_to_block: bool,
        mid_stream_input_chunks: u32,
        tool_calls: u32,
        tool_failures: u32,
    },
    /// One tool call announced by the daemon. This is the only record of the tools the daemon
    /// serves itself. `rendered` is false when the line was suppressed (a request the user
    /// already withdrew, or a stale id).
    ToolActivity {
        request_id: String,
        tool_name: String,
        phase: String,
        rendered: bool,
    },
    /// One tool call the terminal served locally, with the outcome and how long the read
    /// took. A success carries no code.
    ToolCall {
        request_id: String,
        tool_name: String,
        ok: bool,
        code: Option<String>,
        duration_us: u64,
    },
}

/// The model of an event.
#[verifier::ext_equal]
pub enum EventView {
    SessionStart {
        shell: Seq<char>,
        integrated: bool,
        cols: u16,
        rows: u16,
        version: Seq<char>,
    },
    SessionEnd {
        exit_code: i32,
        duration_ms: u64,
    },
    QuestionSubmitted {
        question: Seq<char>,
        origin: Seq<char>,
        form: Seq<char>,
    },
    QuestionCancelled {
        question: Seq<char>,
        pending_for_ms: u64,
    },
    Dispatched {
        request_id: Seq<char>,
        question: Seq<char>,
        fire_reason: Seq<char>,
        still_running: bool,
        submit_to_dispatch_ms: u64,
    },
    DispatchFailed {
        request_id: Seq<char>,
        question: Seq<char>,
        fire_reason: Seq<char>,
        reason: Seq<char>,
    },
    FirstDelta {
        request_id: Seq<char>,
        dispatch_to_first_delta_ms: u64,
        mode: Seq<char>,
        anchored: bool,
    },
    DegradeToBlock {
        request_id: Seq<char>,
        reason: Seq<char>,
        ms_since_dispatch: u64,
        deltas_so_far: u32,
    },
    ResponseEnd {
        request_id: Seq<char>,
        status: Seq<char>,
        total_ms: u64,
        first_delta_ms: Option<u64>,
        delta_count: u32,
        began_anchored: bool,
        degraded_to_block: bool,
        mid_stream_input_chunks: u32,
        tool_calls: u32,
        tool_failures: u32,
    },
    ToolActivity {
        request_id: Seq<char>,
        tool_name: Seq<char>,
        phase: Seq<char>,
        rendered: bool,
    },
    ToolCall {
        request_id: Seq<char>,
        tool_name: Seq<char>,
        ok: bool,
        code: Option<Seq<char>>,
        duration_us: u64,
    },
}

impl View for Event {
    type V = EventView;

    open spec fn view(&self) -> EventView {
        match *self {
            Event::SessionStart { shell, integrated, cols, rows, version } => EventView::SessionStart {
                shell: shell@,
                integrated,
                cols,
                rows,
                version: version@,
            },
            Event::SessionEnd { exit_code, duration_ms } => EventView::SessionEnd {
                exit_code,
                duration_ms,
            },
            Event::QuestionSubmitted { question, origin, form } => EventView::QuestionSubmitted {
                question: question@,
                origin: origin@,
                form: form@,
            },
            Event::QuestionCancelled { question, pending_for_ms } => EventView::QuestionCancelled {
                question: question@,
                pending_for_ms,
            },
            Event::Dispatched { request_id, question, fire_reason, still_running, submit_to_dispatch_ms } => EventView::Dispatched {
                request_id: request_id@,
                question: question@,
                fire_reason: fire_reason@,
                still_running,
                submit_to_dispatch_ms,
            },
            Event::DispatchFailed { request_id, question, fire_reason, reason } => EventView::DispatchFailed {
                request_id: request_id@,
                question: question@,
                fire_reason: fire_reason@,
                reason: reason@,
            },
            Event::FirstDelta { request_id, dispatch_to_first_delta_ms, mode, anchored } => EventView::FirstDelta {
                request_id: request_id@,
                dispatch_to_first_delta_ms,
                mode: mode@,
                anchored,
            },
            Event::DegradeToBlock { request_id, reason, ms_since_dispatch, deltas_so_far } => EventView::DegradeToBlock {
                request_id: request_id@,
                reason: reason@,
                ms_since_dispatch,
                deltas_so_far,
            },
            Event::ResponseEnd { request_id, status, total_ms, first_delta_ms, delta_count, began_anchored, degraded_to_block, mid_stream_input_chunks, tool_calls, tool_failures } => EventView::ResponseEnd {
                request_id: request_id@,
                status: status@,
                total_ms,
                first_delta_ms,
                delta_count,
                began_anchored,
                degraded_to_block,
                mid_stream_input_chunks,
                tool_calls,
                tool_failures,
            },
            Event::ToolActivity { request_id, tool_name, phase, rendered } => EventView::ToolActivity {
                request_id: request_id@,
                tool_name: tool_name@,
                phase: phase@,
                rendered,
            },
            Event::ToolCall { request_id, tool_name, ok, code, duration_us } => EventView::ToolCall {
                request_id: request_id@,
                tool_name: tool_name@,
                ok,
                code: text::opt_text(code),
                duration_us,
            },
        }
    }
}

/// A list with one more field behind the others.
pub open spec fn with(
    fields: Seq<(Seq<char>, ScalarView)>,
    name: Seq<char>,
    value: ScalarView,
) -> Seq<(Seq<char>, ScalarView)> {
    fields.push((name, value))
}

/// The value of a duration that may be missing.
pub open spec fn opt_number(n: Option<u64>) -> ScalarView {
    match n {
        Some(n) => ScalarView::Int(n as int),
        None => ScalarView::Null,
    }
}

/// The fields of an event in order, the tag that names it first.
pub open spec fn fields_of(event: EventView) -> Seq<(Seq<char>, ScalarView)> {
    let none = Seq::<(Seq<char>, ScalarView)>::empty();
    match event {
        EventView::SessionStart { shell, integrated, cols, rows, version } => {
            let o = with(none, "event"@, ScalarView::Text("session_start"@));
            let o = with(o, "shell"@, ScalarView::Text(shell));
            let o = with(o, "integrated"@, ScalarView::Flag(integrated));
            let o = with(o, "cols"@, ScalarView::Int(cols as int));
            let o = with(o, "rows"@, ScalarView::Int(rows as int));
            with(o, "version"@, ScalarView::Text(version))
        },
        EventView::SessionEnd { exit_code, duration_ms } => {
            let o = with(none, "event"@, ScalarView::Text("session_end"@));
            let o = with(o, "exit_code"@, ScalarView::Int(exit_code as int));
            with(o, "duration_ms"@, ScalarView::Int(duration_ms as int))
        },
        EventView::QuestionSubmitted { question, origin, form } => {
            let o = with(none, "event"@, ScalarView::Text("question_submitted"@));
            let o = with(o, "question"@, ScalarView::Text(question));
            let o = with(o, "origin"@, ScalarView::Text(origin));
            with(o, "form"@, ScalarView::Text(form))
        },
        EventView::QuestionCancelled { question, pending_for_ms } => {
            let o = with(none, "event"@, ScalarView::Text("question_cancelled"@));
            let o = with(o, "question"@, ScalarView::Text(question));
            with(o, "pending_for_ms"@, ScalarView::Int(pending_for_ms as int))
        },
        EventView::Dispatched { request_id, question, fire_reason, still_running, submit_to_dispatch_ms } => {
            let o = with(none, "event"@, ScalarView::Text("dispatched"@));
            let o = with(o, "request_id"@, ScalarView::Text(request_id));
            let o = with(o, "question"@, ScalarView::Text(question));
            let o = with(o, "fire_reason"@, ScalarView::Text(fire_reason));
            let o = with(o, "still_running"@, ScalarView::Flag(still_running));
            with(o, "submit_to_dispatch_ms"@, ScalarView::Int(submit_to_dispatch_ms as int))
        },
        EventView::DispatchFailed { request_id, question, fire_reason, reason } => {
            let o = with(none, "event"@, ScalarView::Text("dispatch_failed"@));
            let o = with(o, "request_id"@, ScalarView::Text(request_id));
            let o = with(o, "question"@, ScalarView::Text(question));
            let o = with(o, "fire_reason"@, ScalarView::Text(fire_reason));
            with(o, "reason"@, ScalarView::Text(reason))
        },
        EventView::FirstDelta { request_id, dispatch_to_first_delta_ms, mode, anchored } => {
            let o = with(none, "event"@, ScalarView::Text("first_delta"@));
            let o = with(o, "request_id"@, ScalarView::Text(request_id));
            let o = with(o, "dispatch_to_first_delta_ms"@, ScalarView::Int(dispatch_to_first_delta_ms as int));
            let o = with(o, "mode"@, ScalarView::Text(mode));
            with(o, "anchored"@, ScalarView::Flag(anchored))
        },
        EventView::DegradeToBlock { request_id, reason, ms_since_dispatch, deltas_so_far } => {
            let o = with(none, "event"@, ScalarView::Text("degrade_to_block"@));
            let o = with(o, "request_id"@, ScalarView::Text(request_id));
            let o = with(o, "reason"@, ScalarView::Text(reason));
            let o = with(o, "ms_since_dispatch"@, ScalarView::Int(ms_since_dispatch as int));
            with(o, "deltas_so_far"@, ScalarView::Int(deltas_so_far as int))
        },
        EventView::ResponseEnd { request_id, status, total_ms, first_delta_ms, delta_count, began_anchored, degraded_to_block, mid_stream_input_chunks, tool_calls, tool_failures } => {
            let o = with(none, "event"@, ScalarView::Text("response_end"@));
            let o = with(o, "request_id"@, ScalarView::Text(request_id));
            let o = with(o, "status"@, ScalarView::Text(status));
            let o = with(o, "total_ms"@, ScalarView::Int(total_ms as int));
            let o = with(o, "first_delta_ms"@, opt_number(first_delta_ms));
            let o = with(o, "delta_count"@, ScalarView::Int(delta_count as int));
            let o = with(o, "began_anchored"@, ScalarView::Flag(began_anchored));
            let o = with(o, "degraded_to_block"@, ScalarView::Flag(degraded_to_block));
            let o = with(o, "mid_stream_input_chunks"@, ScalarView::Int(mid_stream_input_chunks as int));
            let o = with(o, "tool_calls"@, ScalarView::Int(tool_calls as int));
            with(o, "tool_failures"@, ScalarView::Int(tool_failures as int))
        },
        EventView::ToolActivity { request_id, tool_name, phase, rendered } => {
            let o = with(none, "event"@, ScalarView::Text("tool_activity"@));
            let o = with(o, "request_id"@, ScalarView::Text(request_id));
            let o = with(o, "tool_name"@, ScalarView::Text(tool_name));
            let o = with(o, "phase"@, ScalarView::Text(phase));
            with(o, "rendered"@, ScalarView::Flag(rendered))
        },
        EventView::ToolCall { request_id, tool_name, ok, code, duration_us } => {
            let o = with(none, "event"@, ScalarView::Text("tool_call"@));
            let o = with(o, "request_id"@, ScalarView::Text(request_id));
            let o = with(o, "tool_name"@, ScalarView::Text(tool_name));
            let o = with(o, "ok"@, ScalarView::Flag(ok));
            let o = match code {
                Some(s) => with(o, "code"@, ScalarView::Text(s)),
                None => o,
            };
            with(o, "duration_us"@, ScalarView::Int(duration_us as int))
        },
    }
}

/// The fields of an event in order, the tag that names it first.
pub fn event_fields(event: &Event) -> (r: Vec<(String, Scalar)>)
    ensures
        codec::field_views(r@) == fields_of(event@),
{
    let mut f: Vec<(String, Scalar)> = Vec::new();
    assert(codec::field_views(f@) =~= Seq::<(Seq<char>, ScalarView)>::empty());
    match event {
        Event::SessionStart { shell, integrated, cols, rows, version } => {
            push_field(&mut f, "event", text_scalar("session_start"));
            push_field(&mut f, "shell", Scalar::Text(shell.clone()));
            push_field(&mut f, "integrated", Scalar::Flag(*integrated));
            push_field(&mut f, "cols", natural(*cols as u64));
            push_field(&mut f, "rows", natural(*rows as u64));
            push_field(&mut f, "version", Scalar::Text(version.clone()));
        },
        Event::SessionEnd { exit_code, duration_ms } => {
            push_field(&mut f, "event", text_scalar("session_end"));
            push_field(&mut f, "exit_code", Scalar::Int(*exit_code as i64));
            push_field(&mut f, "duration_ms", natural(*duration_ms));
        },
        Event::QuestionSubmitted { question, origin, form } => {
            push_field(&mut f, "event", text_scalar("question_submitted"));
            push_field(&mut f, "question", Scalar::Text(question.clone()));
            push_field(&mut f, "origin", text_scalar(origin));
            push_field(&mut f, "form", text_scalar(form));
        },
        Event::QuestionCancelled { question, pending_for_ms } => {
            push_field(&mut f, "event", text_scalar("question_cancelled"));
            push_field(&mut f, "question", Scalar::Text(question.clone()));
            push_field(&mut f, "pending_for_ms", natural(*pending_for_ms));
        },
        Event::Dispatched { request_id, question, fire_reason, still_running, submit_to_dispatch_ms } => {
            push_field(&mut f, "event", text_scalar("dispatched"));
            push_field(&mut f, "request_id", Scalar::Text(request_id.clone()));
            push_field(&mut f, "question", Scalar::Text(question.clone()));
            push_field(&mut f, "fire_reason", text_scalar(fire_reason));
            push_field(&mut f, "still_running", Scalar::Flag(*still_running));
            push_field(&mut f, "submit_to_dispatch_ms", natural(*submit_to_dispatch_ms));
        },
        Event::DispatchFailed { request_id, question, fire_reason, reason } => {
            push_field(&mut f, "event", text_scalar("dispatch_failed"));
            push_field(&mut f, "request_id", Scalar::Text(request_id.clone()));
            push_field(&mut f, "question", Scalar::Text(question.clone()));
            push_field(&mut f, "fire_reason", text_scalar(fire_reason));
            push_field(&mut f, "reason", text_scalar(reason));
        },
        Event::FirstDelta { request_id, dispatch_to_first_delta_ms, mode, anchored } => {
            push_field(&mut f, "event", text_scalar("first_delta"));
            push_field(&mut f, "request_id", Scalar::Text(request_id.clone()));
            push_field(&mut f, "dispatch_to_first_delta_ms", natural(*dispatch_to_first_delta_ms));
            push_field(&mut f, "mode", text_scalar(mode));
            push_field(&mut f, "anchored", Scalar::Flag(*anchored));
        },
        Event::DegradeToBlock { request_id, reason, ms_since_dispatch, deltas_so_far } => {
            push_field(&mut f, "event", text_scalar("degrade_to_block"));
            push_field(&mut f, "request_id", Scalar::Text(request_id.clone()));
            push_field(&mut f, "reason", text_scalar(reason));
            push_field(&mut f, "ms_since_dispatch", natural(*ms_since_dispatch));
            push_field(&mut f, "deltas_so_far", natural(*deltas_so_far as u64));
        },
        Event::ResponseEnd { request_id, status, total_ms, first_delta_ms, delta_count, began_anchored, degraded_to_block, mid_stream_input_chunks, tool_calls, tool_failures } => {
            push_field(&mut f, "event", text_scalar("response_end"));
            push_field(&mut f, "request_id", Scalar::Text(request_id.clone()));
            push_field(&mut f, "status", text_scalar(status));
            push_field(&mut f, "total_ms", natural(*total_ms));
            push_field(&mut f, "first_delta_ms", opt_natural(*first_delta_ms));
            push_field(&mut f, "delta_count", natural(*delta_count as u64));
            push_field(&mut f, "began_anchored", Scalar::Flag(*began_anchored));
            push_field(&mut f, "degraded_to_block", Scalar::Flag(*degraded_to_block));
            push_field(&mut f, "mid_stream_input_chunks", natural(*mid_stream_input_chunks as u64));
            push_field(&mut f, "tool_calls", natural(*tool_calls as u64));
            push_field(&mut f, "tool_failures", natural(*tool_failures as u64));
        },
        Event::ToolActivity { request_id, tool_name, phase, rendered } => {
            push_field(&mut f, "event", text_scalar("tool_activity"));
            push_field(&mut f, "request_id", Scalar::Text(request_id.clone()));
            push_field(&mut f, "tool_name", Scalar::Text(tool_name.clone()));
            push_field(&mut f, "phase", Scalar::Text(phase.clone()));
            push_field(&mut f, "rendered", Scalar::Flag(*rendered));
        },
        Event::ToolCall { request_id, tool_name, ok, code, duration_us } => {
            push_field(&mut f, "event", text_scalar("tool_call"));
            push_field(&mut f, "request_id", Scalar::Text(request_id.clone()));
            push_field(&mut f, "tool_name", Scalar::Text(tool_name.clone()));
            push_field(&mut f, "ok", Scalar::Flag(*ok));
            if let Some(s) = code {
                push_field(&mut f, "code", Scalar::Text(s.clone()));
            }
            push_field(&mut f, "duration_us", natural(*duration_us));
        },
    }
    f
}

fn text_scalar(s: &str) -> (r: Scalar)
    ensures
        r@ == ScalarView::Text(s@),
{
    Scalar::Text(s.to_owned())
}

fn opt_natural(n: Option<u64>) -> (r: Scalar)
    ensures
        r@ == opt_number(n),
{
    match n {
        Some(n) => natural(n),
        None => Scalar::Null,
    }
}

/// The fields of a line in order: the time, the session it belongs to, and the event's.
pub open spec fn line_fields(ts: u64, session: Seq<char>, event: EventView) -> Seq<
    (Seq<char>, ScalarView),
> {
    seq![("ts"@, ScalarView::Int(ts as int)), ("session"@, ScalarView::Text(session))] + fields_of(
        event,
    )
}

/// Every value of an event can be written and read back.
proof fn lemma_writable(ts: u64, session: Seq<char>, event: EventView)
    ensures
        codec::writable(line_fields(ts, session, event)),
{
    let all = line_fields(ts, session, event);
    let own = fields_of(event);
    assert(codec::writable(own));
    assert forall|i: int| 0 <= i < all.len() implies (#[trigger] all[i]).1 !is Other by {
        if i >= 2 {
            assert(all[i] == own[i - 2]);
        }
    }
}

/// The line of an event: one flat JSON object, the envelope first. Reading it back gives
/// its fields.
pub fn event_line(ts: u64, session: &str, event: &Event) -> (r: Vec<u8>)
    ensures
        r@ == codec::json_line(line_fields(ts, session@, event@)),
        codec::json_object(r@) == Some(codec::object_from(line_fields(ts, session@, event@))),
{
    let mut fields: Vec<(String, Scalar)> = Vec::new();
    assert(codec::field_views(fields@) =~= Seq::<(Seq<char>, ScalarView)>::empty());
    push_field(&mut fields, "ts", natural(ts));
    push_field(&mut fields, "session", text_scalar(session));
    let ghost envelope = fields@;
    let mut own = event_fields(event);
    let ghost rest = own@;
    fields.append(&mut own);
    proof {
        assert(fields@ =~= envelope + rest);
        assert(codec::field_views(envelope + rest) =~= codec::field_views(envelope)
            + codec::field_views(rest));
        assert(codec::field_views(envelope) =~= seq![
            ("ts"@, ScalarView::Int(ts as int)),
            ("session"@, ScalarView::Text(session@)),
        ]);
        lemma_writable(ts, session@, event@);
    }
    render_fields(&fields)
}

/// A character that an identifier may hold.
pub open spec fn identifier_char(c: char) -> bool {
    ('a' <= c && c <= 'z') || ('0' <= c && c <= '9') || c == '_'
}

/// A short lowercase name.
pub open spec fn is_identifier(s: Seq<char>) -> bool {
    &&& 0 < s.len() <= MAX_IDENTIFIER_CHARS
    &&& forall|i: int| 0 <= i < s.len() ==> identifier_char(#[trigger] s[i])
}

/// Bounds a tool name, phase, or error code before it reaches the log. These values
/// arrive over the socket: anything that is not a short lowercase identifier is recorded
/// as `other` rather than written through, so a malformed or oversized value can carry
/// nothing.
pub fn identifier(value: &str) -> (r: String)
    ensures
        r@ == (if is_identifier(value@) {
            value@
        } else {
            "other"@
        }),
        is_identifier(r@),
{
    let chars = chars_of(value);
    proof {
        reveal_strlit("other");
    }
    if chars.len() == 0 || chars.len() > MAX_IDENTIFIER_CHARS {
        return "other".to_owned();
    }
    let mut i: usize = 0;
    while i < chars.len()
        invariant
            chars@ == value@,
            i <= chars.len(),
            forall|j: int| 0 <= j < i ==> identifier_char(#[trigger] value@[j]),
        decreases chars.len() - i,
    {
        let c = chars[i];
        if !(('a' <= c && c <= 'z') || ('0' <= c && c <= '9') || c == '_') {
            assert(!identifier_char(value@[i as int]));
            proof {
                reveal_strlit("other");
            }
            return "other".to_owned();
        }
        i += 1;
    }
    value.to_owned()
}

/// Collects the events of a session. A default log is inert: what is emitted into it is
/// dropped, so state owners can hold one unconditionally.
#[derive(Debug)]
pub struct EventLog {
    live: bool,
    events: Vec<Event>,
}

/// The model of a log.
#[verifier::ext_equal]
pub struct LogView {
    pub live: bool,
    pub events: Seq<EventView>,
}

impl LogView {
    /// An event emitted.
    pub open spec fn emitted(self, event: EventView) -> LogView {
        if self.live {
            LogView { events: self.events.push(event), ..self }
        } else {
            self
        }
    }

    /// A log that drops everything.
    pub open spec fn inert() -> LogView {
        LogView { live: false, events: seq![] }
    }
}

/// The models of some events.
pub open spec fn event_views(events: Seq<Event>) -> Seq<EventView> {
    events.map_values(|e: Event| e@)
}

impl View for EventLog {
    type V = LogView;

    closed spec fn view(&self) -> LogView {
        LogView { live: self.live, events: event_views(self.events@) }
    }
}

impl Default for EventLog {
    fn default() -> (r: Self)
        ensures
            r@ == LogView::inert(),
    {
        let r = EventLog { live: false, events: Vec::new() };
        assert(event_views(r.events@) =~= Seq::<EventView>::empty());
        r
    }
}

impl EventLog {
    /// A log that keeps what is emitted until it is taken out.
    pub fn capture() -> (r: EventLog)
        ensures
            r@ == (LogView { live: true, events: seq![] }),
    {
        let r = EventLog { live: true, events: Vec::new() };
        assert(event_views(r.events@) =~= Seq::<EventView>::empty());
        r
    }

    /// Adds one event; nothing happens on an inert log.
    pub fn emit(&mut self, event: Event)
        ensures
            final(self)@ == old(self)@.emitted(event@),
    {
        if self.live {
            let ghost before = self.events@;
            self.events.push(event);
            assert(event_views(self.events@) =~= event_views(before).push(event@));
        }
    }

    /// Takes the events out, oldest first.
    pub fn take(&mut self) -> (r: Vec<Event>)
        ensures
            event_views(r@) == old(self)@.events,
            final(self)@ == (LogView { events: seq![], ..old(self)@ }),
    {
        let mut out: Vec<Event> = Vec::new();
        std::mem::swap(&mut out, &mut self.events);
        assert(event_views(self.events@) =~= Seq::<EventView>::empty());
        out
    }
}

/// Where the event log lies: below the data directory that the environment names, or
/// below the home directory's own.
pub open spec fn log_path(vars: Map<Seq<char>, Seq<char>>) -> Seq<char> {
    let named = env::value_in(vars, "XDG_DATA_HOME"@);
    let base = if named is Some && text::trim(named->0).len() > 0 {
        named->0
    } else {
        let home = match env::value_in(vars, "HOME"@) {
            Some(h) => h,
            None => seq![],
        };
        paths::below(paths::below(home, ".local"@), "share"@)
    };
    paths::below(paths::below(base, "koshell"@), "events.jsonl"@)
}

/// The event log path under the XDG data directory.
pub fn event_log_path(vars: &Env) -> (r: String)
    ensures
        r@ == log_path(vars@),
{
    let base = match vars.get("XDG_DATA_HOME") {
        Some(dir) if !is_blank(dir.as_str()) => dir.clone(),
        _ => {
            let home = match vars.get("HOME") {
                Some(h) => h.clone(),
                None => String::new(),
            };
            join_path(join_path(home.as_str(), ".local").as_str(), "share")
        },
    };
    join_path(join_path(base.as_str(), "koshell").as_str(), "events.jsonl")
}

/// Whether the environment switches the log off: any value but an empty one does.
pub fn disabled(vars: &Env) -> (r: bool)
    ensures
        r == (ipc::filled(vars@, "KOSHELL_NO_EVENT_LOG"@) is Some),
{
    match vars.get(DISABLE_ENV_KEY) {
        Some(v) => v.as_str().unicode_len() > 0,
        None => false,
    }
}

} // verus!
