//! What holds of a session's turns.

use crate::clock;
use crate::clock::Moment;
use crate::event_log;
use crate::markers;
use crate::markers::MarkerKind;
use crate::mirror::Step;
use crate::presentation::{PresentationView, Stage};
use crate::proto::ServerMessage;
use crate::session;
use crate::session::{Msg, ProcessorView, Ticket, TurnView};
use crate::text;
use crate::trigger::CompletionKind;
use vstd::prelude::*;

verus! {

/// A marker never reaches the terminal: it writes nothing and leaves the answer in flight
/// alone. What it leads to follows the actions that were there, and a reset is gathered,
/// in order, exactly where the marker asks for one.
pub proof fn a_marker_writes_nothing(turn: TurnView, m: markers::MarkerView, now: Moment)
    ensures
        ({
            let done = turn.segment(markers::SegmentView::Marker(m), now);
            let (session, actions) = turn.session().marked(m, now);
            &&& done.stage.screen.out == turn.stage.screen.out
            &&& done.stage.presentation == turn.stage.presentation
            &&& done.session() == session
            &&& done.actions == turn.actions + actions
            &&& done.controls == if m.kind is NewConversation || m.kind is ClearContext {
                turn.controls.push(m.kind)
            } else {
                turn.controls
            }
            &&& done.cancel == turn.cancel && done.forward == turn.forward && done.over
                == turn.over
        }),
{
    reveal(TurnView::segment);
}

/// Visible output goes to the presentation and asks for nothing.
pub proof fn visible_output_asks_nothing(turn: TurnView, bytes: Seq<u8>, now: Moment)
    ensures
        ({
            let done = turn.segment(markers::SegmentView::Visible(bytes), now);
            &&& done.stage == turn.stage.pty(bytes, now)
            &&& done.actions == turn.actions
            &&& done.controls == turn.controls
            &&& done.cancel == turn.cancel && done.forward == turn.forward && done.over
                == turn.over
        }),
{
    reveal(TurnView::segment);
}

/// Segments are taken in one by one, in order.
pub proof fn segments_are_taken_in_order(
    turn: TurnView,
    segments: Seq<markers::SegmentView>,
    last: markers::SegmentView,
    now: Moment,
)
    ensures
        turn.fed(segments.push(last), now) == turn.fed(segments, now).segment(last, now),
        turn.fed(seq![], now) == turn,
{
    assert(segments.push(last).drop_last() =~= segments);
}

/// A chunk of PTY output is taken in behind what was held back of the last one: what the
/// scanner finds in both together is taken in, and what it still holds back waits.
pub proof fn held_bytes_come_first(turn: TurnView, bytes: Vec<u8>, now: Moment)
    ensures
        ({
            let done = turn.received(Some(Msg::Pty(bytes)), now);
            let whole = turn.held + bytes@;
            &&& done.held == markers::held(whole)
            &&& done.stage == turn.fed(markers::segments(whole), now).stage
            &&& done.actions == turn.fed(markers::segments(whole), now).actions
        }),
{
}

/// A Ctrl+C among forwarded keystrokes withdraws the answer in flight and names it to the
/// daemon; other keystrokes withdraw none. On the alternate screen no keystroke does.
pub proof fn a_forwarded_interrupt_withdraws_the_answer(
    turn: TurnView,
    keys: Vec<u8>,
    now: Moment,
)
    requires
        turn.cancel is None,
    ensures
        ({
            let done = turn.received(Some(Msg::Input(keys)), now);
            let asks = keys@.contains(0x03) && !turn.session().mirror.alternate();
            &&& asks && turn.stage.presentation.active is Some ==> done.cancel == Some(
                turn.stage.presentation.active->0.request_id,
            ) && done.stage.presentation.active is None
            &&& asks && turn.stage.presentation.active is None ==> done.cancel is None
            &&& !asks ==> done.cancel is None && done.stage.screen.out == turn.stage.screen.out
                && (done.stage.presentation.active is Some
                == turn.stage.presentation.active is Some)
            &&& done.forward == turn.forward
            &&& done.over == turn.over
        }),
{
    let counted = turn.counted(keys@);
    let session = turn.session();
    lemma_input_mirror(session, keys@, now);
}

proof fn lemma_input_mirror(s: crate::trigger::SessionView, keys: Seq<u8>, now: Moment)
    ensures
        s.input(keys, now).0.mirror == s.mirror,
{
    if keys.len() > 0 {
        let told = s.logged(
            crate::timeline::EventView::HumanInput {
                data: crate::utf8_stream::lossy_text(keys),
                visible: true,
            },
            now.wall,
        );
        lemma_typed_mirror(told, keys, now.mono);
    }
}

proof fn lemma_typed_mirror(s: crate::trigger::SessionView, keys: Seq<u8>, mono: u64)
    ensures
        s.typed(keys, mono).0.mirror == s.mirror,
    decreases keys.len(),
{
    if keys.len() > 0 {
        lemma_typed_mirror(s, keys.drop_last(), mono);
    }
}

/// Keystrokes reach the session, and what they lead to follows the actions that were there.
pub proof fn keystrokes_reach_the_session(turn: TurnView, keys: Vec<u8>, now: Moment)
    ensures
        ({
            let done = turn.received(Some(Msg::Input(keys)), now);
            let (session, actions) = turn.session().input(keys@, now);
            &&& done.actions == turn.actions + actions
            &&& !keys@.contains(0x03) ==> done.session() == session
        }),
{
}

/// A new window size reaches the session and nothing else follows; a daemon message reaches
/// the presentation and nothing else follows.
pub proof fn other_messages_go_where_they_belong(
    turn: TurnView,
    columns: u16,
    rows: u16,
    message: ServerMessage,
    now: Moment,
)
    ensures
        ({
            let done = turn.received(Some(Msg::Resize(columns, rows)), now);
            &&& done.session().mirror.steps == turn.session().mirror.steps.push(
                Step::Sized(columns, rows),
            )
            &&& done.stage.screen.out == turn.stage.screen.out
            &&& done.stage.presentation == turn.stage.presentation
            &&& done.actions == turn.actions
        }),
        turn.received(Some(Msg::Daemon(message)), now) == (TurnView {
            stage: turn.stage.told(message, now),
            ..turn
        }),
        turn.received(None, now) == turn,
{
    let done = turn.received(Some(Msg::Resize(columns, rows)), now);
    assert(done.actions =~= turn.actions);
}

/// Every turn that does not end the session settles what is due: the questions first, then
/// the answer in flight.
pub proof fn a_turn_settles_what_is_due(turn: TurnView, msg: Option<Msg>, now: Moment)
    requires
        !turn.received(msg, now).over,
    ensures
        ({
            let told = turn.received(msg, now);
            let done = turn.turned(msg, now);
            let (session, actions) = told.session().polled(now);
            let between = Stage {
                screen: crate::presentation::Screen { session, out: told.stage.screen.out },
                presentation: told.stage.presentation,
            };
            &&& done.actions == told.actions + actions
            &&& done.stage == between.polled(now)
            &&& done.controls == told.controls
            &&& done.cancel == told.cancel
            &&& done.forward == told.forward
            &&& !done.over
        }),
{
}

/// The Ctrl+C belongs to the answer only while it streams and the alternate screen is away.
pub proof fn the_window_is_armed_by_a_streaming_answer(p: ProcessorView)
    ensures
        p.armed() ==> p.presentation.active is Some && !p.session.mirror.alternate(),
        p.session.mirror.alternate() ==> !p.armed(),
        p.presentation.owns_interrupt() && !p.session.mirror.alternate() ==> p.armed(),
{
}

/// A new conversation is announced and takes nothing away: the commands, the questions that
/// wait and the answer in flight stay.
pub proof fn a_new_conversation_keeps_the_evidence(p: ProcessorView, out: Seq<u8>, wall: i64)
    ensures
        ({
            let done = p.controlled(MarkerKind::NewConversation, out, wall);
            let session = done.screen.session;
            &&& done.presentation == p.presentation
            &&& session.history == p.session.history
            &&& session.pending == p.session.pending
            &&& session.command_active == p.session.command_active
            &&& session.cwd == p.session.cwd
            &&& out.is_prefix_of(done.screen.out)
            &&& done.screen.out.len() > out.len()
        }),
{
    let screen = p.stage(out).screen;
    lemma_notice_grows(screen, session::NEW_CONVERSATION_NOTICE@, wall);
}

proof fn lemma_notice_grows(screen: crate::presentation::Screen, text: Seq<char>, wall: i64)
    ensures
        ({
            let done = screen.notice_before(text, wall);
            &&& done.session.history == screen.session.history
            &&& done.session.pending == screen.session.pending
            &&& done.session.command_active == screen.session.command_active
            &&& done.session.cwd == screen.session.cwd
            &&& done.session.history == screen.session.history
            &&& screen.out.is_prefix_of(done.out)
            &&& done.out.len() > screen.out.len()
        }),
{
    let done = screen.notice_before(text, wall);
    let line = crate::presentation::notice_line(text);
    reveal_strlit("\x1b[2m[koshell] ");
    text::lemma_byte_len_bounds(line);
    text::lemma_byte_len_bounds(crate::presentation::line_lead(screen.session) + line);
    assert(screen.out =~= done.out.subrange(0, screen.out.len() as int));
}

/// Clearing takes away what was recorded and completed, and nothing else: the questions that
/// wait, the running command, the directory and the answer in flight stay. It wipes the
/// screen and says so.
pub proof fn clearing_keeps_what_is_under_way(p: ProcessorView, out: Seq<u8>, wall: i64)
    ensures
        ({
            let done = p.controlled(MarkerKind::ClearContext, out, wall);
            let session = done.screen.session;
            &&& session.timeline.entries.len() == 0
            &&& session.history.completed.len() == 0
            &&& session.history.active == p.session.history.active
            &&& session.history.next_id == p.session.history.next_id
            &&& session.previous_snapshot is None
            &&& done.presentation == p.presentation
            &&& session.pending == p.session.pending
            &&& session.command_active == p.session.command_active
            &&& session.cwd == p.session.cwd
            &&& (out + vstd::utf8::encode_utf8(session::CLEAR_SCREEN@)).is_prefix_of(
                done.screen.out,
            )
        }),
{
    let screen = p.stage(out).screen;
    let wiped = screen.show(vstd::utf8::encode_utf8(session::CLEAR_SCREEN@), wall);
    lemma_notice_grows(wiped, session::CLEARED_NOTICE@, wall);
}

/// A question that reached the daemon awaits its answer, in the way its command asks for,
/// and the other requests stay as they are.
pub proof fn a_sent_question_awaits_its_answer(
    p: ProcessorView,
    ticket: Ticket,
    out: Seq<u8>,
    now: Moment,
)
    ensures
        ({
            let done = p.handed(ticket, true, out, now);
            let waiting = done.presentation.dispatched;
            &&& waiting.contains_key(ticket.request_id@)
            &&& waiting[ticket.request_id@] == ticket.still_running
            &&& forall|id: Seq<char>|
                id != ticket.request_id@ ==> (#[trigger] waiting.contains_key(id)
                    == p.presentation.dispatched.contains_key(id))
            &&& p.presentation.active is None ==> done.presentation.serves(ticket.request_id@)
            &&& p.presentation.active is Some ==> done.presentation.active
                == p.presentation.active
            &&& done.screen.out == out
        }),
{
}

/// A question that did not reach the daemon is told to the user in its own words.
pub proof fn an_unsent_question_is_told(ticket: Ticket)
    ensures
        ticket.question@.is_suffix_of(session::unavailable_notice(ticket)),
        ticket.still_running && !(ticket.completion is CommandEnd) ==> session::annotation(
            ticket.completion,
            ticket.still_running,
        ) == " (command may still be running)"@,
        !ticket.still_running && ticket.completion is MaxWait ==> session::annotation(
            ticket.completion,
            ticket.still_running,
        ) == " (output not settled)"@,
        ticket.completion is CommandEnd ==> session::annotation(
            ticket.completion,
            ticket.still_running,
        ) == ""@,
{
    let all = session::unavailable_notice(ticket);
    let q = ticket.question@;
    assert(q =~= all.subrange(all.len() - q.len(), all.len() as int));
}

/// The log tells of a question what became of it: which it was, by what authority it fired,
/// and how long it took, or why it was not sent.
pub proof fn a_dispatch_is_logged_as_it_went(ticket: Ticket, mono: u64)
    ensures
        session::dispatch_event(ticket, true, mono) matches event_log::EventView::Dispatched {
            request_id,
            question,
            fire_reason,
            still_running,
            submit_to_dispatch_ms,
        } && request_id == ticket.request_id@ && question == ticket.question@ && fire_reason
            == crate::trigger::completion_name(ticket.completion) && still_running
            == ticket.still_running && (mono >= ticket.submitted_at ==> submit_to_dispatch_ms
            == mono - ticket.submitted_at) && (mono < ticket.submitted_at
            ==> submit_to_dispatch_ms == 0),
        session::dispatch_event(ticket, false, mono) matches event_log::EventView::DispatchFailed {
            request_id,
            question,
            fire_reason,
            reason,
        } && request_id == ticket.request_id@ && question == ticket.question@ && fire_reason
            == crate::trigger::completion_name(ticket.completion) && reason
            == "daemon_unavailable"@,
{
}

/// The wait is exactly the nearer of the two deadlines.
pub proof fn the_wait_is_the_nearer_deadline(p: ProcessorView, mono: u64)
    ensures
        p.wait(mono) is Some ==> p.wait(mono) == p.session.deadline(mono) || p.wait(mono)
            == p.presentation.deadline(mono),
        p.session.deadline(mono) is Some || p.presentation.deadline(mono) is Some ==> p.wait(
            mono,
        ) is Some,
{
}

} // verus!
