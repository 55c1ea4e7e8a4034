//! What holds of the event log.

use crate::codec::ScalarView;
use crate::event_log;
use crate::event_log::{EventView, LogView};
use vstd::prelude::*;

verus! {

/// Whether a list of fields has one of that name and value.
pub open spec fn has_field(
    fields: Seq<(Seq<char>, ScalarView)>,
    name: Seq<char>,
    value: ScalarView,
) -> bool {
    exists|i: int| 0 <= i < fields.len() && #[trigger] fields[i] == (name, value)
}

/// Every value of an event is in its line under its own name, behind the tag that tells
/// what happened.
pub proof fn an_event_carries_its_values(event: EventView)
    ensures
        match event {
            EventView::SessionStart { shell, integrated, cols, rows, version } => {
                let f = event_log::fields_of(event);
                &&& f[0] == ("event"@, ScalarView::Text("session_start"@))
                &&& has_field(f, "shell"@, ScalarView::Text(shell))
                &&& has_field(f, "integrated"@, ScalarView::Flag(integrated))
                &&& has_field(f, "cols"@, ScalarView::Int(cols as int))
                &&& has_field(f, "rows"@, ScalarView::Int(rows as int))
                &&& has_field(f, "version"@, ScalarView::Text(version))
            },
            EventView::SessionEnd { exit_code, duration_ms } => {
                let f = event_log::fields_of(event);
                &&& f[0] == ("event"@, ScalarView::Text("session_end"@))
                &&& has_field(f, "exit_code"@, ScalarView::Int(exit_code as int))
                &&& has_field(f, "duration_ms"@, ScalarView::Int(duration_ms as int))
            },
            EventView::QuestionSubmitted { question, origin, form } => {
                let f = event_log::fields_of(event);
                &&& f[0] == ("event"@, ScalarView::Text("question_submitted"@))
                &&& has_field(f, "question"@, ScalarView::Text(question))
                &&& has_field(f, "origin"@, ScalarView::Text(origin))
                &&& has_field(f, "form"@, ScalarView::Text(form))
            },
            EventView::QuestionCancelled { question, pending_for_ms } => {
                let f = event_log::fields_of(event);
                &&& f[0] == ("event"@, ScalarView::Text("question_cancelled"@))
                &&& has_field(f, "question"@, ScalarView::Text(question))
                &&& has_field(f, "pending_for_ms"@, ScalarView::Int(pending_for_ms as int))
            },
            EventView::Dispatched { request_id, question, fire_reason, still_running, submit_to_dispatch_ms } => {
                let f = event_log::fields_of(event);
                &&& f[0] == ("event"@, ScalarView::Text("dispatched"@))
                &&& has_field(f, "request_id"@, ScalarView::Text(request_id))
                &&& has_field(f, "question"@, ScalarView::Text(question))
                &&& has_field(f, "fire_reason"@, ScalarView::Text(fire_reason))
                &&& has_field(f, "still_running"@, ScalarView::Flag(still_running))
                &&& has_field(f, "submit_to_dispatch_ms"@, ScalarView::Int(submit_to_dispatch_ms as int))
            },
            EventView::DispatchFailed { request_id, question, fire_reason, reason } => {
                let f = event_log::fields_of(event);
                &&& f[0] == ("event"@, ScalarView::Text("dispatch_failed"@))
                &&& has_field(f, "request_id"@, ScalarView::Text(request_id))
                &&& has_field(f, "question"@, ScalarView::Text(question))
                &&& has_field(f, "fire_reason"@, ScalarView::Text(fire_reason))
                &&& has_field(f, "reason"@, ScalarView::Text(reason))
            },
            EventView::FirstDelta { request_id, dispatch_to_first_delta_ms, mode, anchored } => {
                let f = event_log::fields_of(event);
                &&& f[0] == ("event"@, ScalarView::Text("first_delta"@))
                &&& has_field(f, "request_id"@, ScalarView::Text(request_id))
                &&& has_field(f, "dispatch_to_first_delta_ms"@, ScalarView::Int(dispatch_to_first_delta_ms as int))
                &&& has_field(f, "mode"@, ScalarView::Text(mode))
                &&& has_field(f, "anchored"@, ScalarView::Flag(anchored))
            },
            EventView::DegradeToBlock { request_id, reason, ms_since_dispatch, deltas_so_far } => {
                let f = event_log::fields_of(event);
                &&& f[0] == ("event"@, ScalarView::Text("degrade_to_block"@))
                &&& has_field(f, "request_id"@, ScalarView::Text(request_id))
                &&& has_field(f, "reason"@, ScalarView::Text(reason))
                &&& has_field(f, "ms_since_dispatch"@, ScalarView::Int(ms_since_dispatch as int))
                &&& has_field(f, "deltas_so_far"@, ScalarView::Int(deltas_so_far as int))
            },
            EventView::ResponseEnd { request_id, status, total_ms, first_delta_ms, delta_count, began_anchored, degraded_to_block, mid_stream_input_chunks, tool_calls, tool_failures } => {
                let f = event_log::fields_of(event);
                &&& f[0] == ("event"@, ScalarView::Text("response_end"@))
                &&& has_field(f, "request_id"@, ScalarView::Text(request_id))
                &&& has_field(f, "status"@, ScalarView::Text(status))
                &&& has_field(f, "total_ms"@, ScalarView::Int(total_ms as int))
                &&& first_delta_ms matches Some(n) ==> has_field(f, "first_delta_ms"@, ScalarView::Int(n as int))
                &&& first_delta_ms is None ==> has_field(f, "first_delta_ms"@, ScalarView::Null)
                &&& has_field(f, "delta_count"@, ScalarView::Int(delta_count as int))
                &&& has_field(f, "began_anchored"@, ScalarView::Flag(began_anchored))
                &&& has_field(f, "degraded_to_block"@, ScalarView::Flag(degraded_to_block))
                &&& has_field(f, "mid_stream_input_chunks"@, ScalarView::Int(mid_stream_input_chunks as int))
                &&& has_field(f, "tool_calls"@, ScalarView::Int(tool_calls as int))
                &&& has_field(f, "tool_failures"@, ScalarView::Int(tool_failures as int))
            },
            EventView::ToolActivity { request_id, tool_name, phase, rendered } => {
                let f = event_log::fields_of(event);
                &&& f[0] == ("event"@, ScalarView::Text("tool_activity"@))
                &&& has_field(f, "request_id"@, ScalarView::Text(request_id))
                &&& has_field(f, "tool_name"@, ScalarView::Text(tool_name))
                &&& has_field(f, "phase"@, ScalarView::Text(phase))
                &&& has_field(f, "rendered"@, ScalarView::Flag(rendered))
            },
            EventView::ToolCall { request_id, tool_name, ok, code, duration_us } => {
                let f = event_log::fields_of(event);
                &&& f[0] == ("event"@, ScalarView::Text("tool_call"@))
                &&& has_field(f, "request_id"@, ScalarView::Text(request_id))
                &&& has_field(f, "tool_name"@, ScalarView::Text(tool_name))
                &&& has_field(f, "ok"@, ScalarView::Flag(ok))
                &&& code matches Some(s) ==> has_field(f, "code"@, ScalarView::Text(s))
                &&& has_field(f, "duration_us"@, ScalarView::Int(duration_us as int))
            },
        },
{
    let f = event_log::fields_of(event);
    match event {
        EventView::SessionStart { .. } => {
            assert(f[1] == ("shell"@, ScalarView::Text(event->SessionStart_shell)));
            assert(f[2] == ("integrated"@, ScalarView::Flag(event->SessionStart_integrated)));
            assert(f[3] == ("cols"@, ScalarView::Int(event->SessionStart_cols as int)));
            assert(f[4] == ("rows"@, ScalarView::Int(event->SessionStart_rows as int)));
            assert(f[5] == ("version"@, ScalarView::Text(event->SessionStart_version)));
        },
        EventView::SessionEnd { .. } => {
            assert(f[1] == ("exit_code"@, ScalarView::Int(event->SessionEnd_exit_code as int)));
            assert(f[2] == ("duration_ms"@, ScalarView::Int(event->SessionEnd_duration_ms as int)));
        },
        EventView::QuestionSubmitted { .. } => {
            assert(f[1] == ("question"@, ScalarView::Text(event->QuestionSubmitted_question)));
            assert(f[2] == ("origin"@, ScalarView::Text(event->QuestionSubmitted_origin)));
            assert(f[3] == ("form"@, ScalarView::Text(event->QuestionSubmitted_form)));
        },
        EventView::QuestionCancelled { .. } => {
            assert(f[1] == ("question"@, ScalarView::Text(event->QuestionCancelled_question)));
            assert(f[2] == ("pending_for_ms"@, ScalarView::Int(event->QuestionCancelled_pending_for_ms as int)));
        },
        EventView::Dispatched { .. } => {
            assert(f[1] == ("request_id"@, ScalarView::Text(event->Dispatched_request_id)));
            assert(f[2] == ("question"@, ScalarView::Text(event->Dispatched_question)));
            assert(f[3] == ("fire_reason"@, ScalarView::Text(event->Dispatched_fire_reason)));
            assert(f[4] == ("still_running"@, ScalarView::Flag(event->Dispatched_still_running)));
            assert(f[5] == ("submit_to_dispatch_ms"@, ScalarView::Int(event->Dispatched_submit_to_dispatch_ms as int)));
        },
        EventView::DispatchFailed { .. } => {
            assert(f[1] == ("request_id"@, ScalarView::Text(event->DispatchFailed_request_id)));
            assert(f[2] == ("question"@, ScalarView::Text(event->DispatchFailed_question)));
            assert(f[3] == ("fire_reason"@, ScalarView::Text(event->DispatchFailed_fire_reason)));
            assert(f[4] == ("reason"@, ScalarView::Text(event->DispatchFailed_reason)));
        },
        EventView::FirstDelta { .. } => {
            assert(f[1] == ("request_id"@, ScalarView::Text(event->FirstDelta_request_id)));
            assert(f[2] == ("dispatch_to_first_delta_ms"@, ScalarView::Int(event->FirstDelta_dispatch_to_first_delta_ms as int)));
            assert(f[3] == ("mode"@, ScalarView::Text(event->FirstDelta_mode)));
            assert(f[4] == ("anchored"@, ScalarView::Flag(event->FirstDelta_anchored)));
        },
        EventView::DegradeToBlock { .. } => {
            assert(f[1] == ("request_id"@, ScalarView::Text(event->DegradeToBlock_request_id)));
            assert(f[2] == ("reason"@, ScalarView::Text(event->DegradeToBlock_reason)));
            assert(f[3] == ("ms_since_dispatch"@, ScalarView::Int(event->DegradeToBlock_ms_since_dispatch as int)));
            assert(f[4] == ("deltas_so_far"@, ScalarView::Int(event->DegradeToBlock_deltas_so_far as int)));
        },
        EventView::ResponseEnd { .. } => {
            assert(f[1] == ("request_id"@, ScalarView::Text(event->ResponseEnd_request_id)));
            assert(f[2] == ("status"@, ScalarView::Text(event->ResponseEnd_status)));
            assert(f[3] == ("total_ms"@, ScalarView::Int(event->ResponseEnd_total_ms as int)));
            assert(f[4] == ("first_delta_ms"@, event_log::opt_number(event->ResponseEnd_first_delta_ms)));
            assert(f[5] == ("delta_count"@, ScalarView::Int(event->ResponseEnd_delta_count as int)));
            assert(f[6] == ("began_anchored"@, ScalarView::Flag(event->ResponseEnd_began_anchored)));
            assert(f[7] == ("degraded_to_block"@, ScalarView::Flag(event->ResponseEnd_degraded_to_block)));
            assert(f[8] == ("mid_stream_input_chunks"@, ScalarView::Int(event->ResponseEnd_mid_stream_input_chunks as int)));
            assert(f[9] == ("tool_calls"@, ScalarView::Int(event->ResponseEnd_tool_calls as int)));
            assert(f[10] == ("tool_failures"@, ScalarView::Int(event->ResponseEnd_tool_failures as int)));
        },
        EventView::ToolActivity { .. } => {
            assert(f[1] == ("request_id"@, ScalarView::Text(event->ToolActivity_request_id)));
            assert(f[2] == ("tool_name"@, ScalarView::Text(event->ToolActivity_tool_name)));
            assert(f[3] == ("phase"@, ScalarView::Text(event->ToolActivity_phase)));
            assert(f[4] == ("rendered"@, ScalarView::Flag(event->ToolActivity_rendered)));
        },
        EventView::ToolCall { .. } => {
            assert(has_field(f, "duration_us"@, ScalarView::Int(event->ToolCall_duration_us as int))) by {
                assert(f[f.len() - 1] == ("duration_us"@, ScalarView::Int(event->ToolCall_duration_us as int)));
            }
            if let Some(s) = event->code {
                assert(f[4] == ("code"@, ScalarView::Text(s)));
            }
            assert(f[1] == ("request_id"@, ScalarView::Text(event->ToolCall_request_id)));
            assert(f[2] == ("tool_name"@, ScalarView::Text(event->ToolCall_tool_name)));
            assert(f[3] == ("ok"@, ScalarView::Flag(event->ToolCall_ok)));
        },
    }
}

/// A line of the log begins with the time and the session, and holds the event behind them.
pub proof fn a_line_is_dated_and_placed(ts: u64, session: Seq<char>, event: EventView, i: int)
    requires
        0 <= i < event_log::fields_of(event).len(),
    ensures
        ({
            let line = event_log::line_fields(ts, session, event);
            &&& line.len() == event_log::fields_of(event).len() + 2
            &&& line[0] == ("ts"@, ScalarView::Int(ts as int))
            &&& line[1] == ("session"@, ScalarView::Text(session))
            &&& line[i + 2] == event_log::fields_of(event)[i]
        }),
{
}

/// A live log keeps what is emitted, in order; an inert one keeps nothing.
pub proof fn only_a_live_log_keeps_events(log: LogView, event: EventView)
    ensures
        log.emitted(event).live == log.live,
        log.live ==> log.emitted(event).events == log.events.push(event),
        !log.live ==> log.emitted(event).events == log.events,
        LogView::inert().emitted(event).events.len() == 0,
{
}

} // verus!
