//! What holds of everything that is shown.

use crate::clock::Moment;
use crate::event_log;
use crate::mirror::Step;
use crate::presentation;
use crate::presentation::{
    ActiveView, PresentationView, Screen, Stage, PTY_BUFFER_FUSE_BYTES, RESPONSE_MAX_HOLD,
};
use crate::proto::ServerMessage;
use vstd::prelude::*;

verus! {

/// All the bytes that a mirror consumed.
pub open spec fn fed(steps: Seq<Step>) -> Seq<u8>
    decreases steps.len(),
{
    if steps.len() == 0 {
        seq![]
    } else {
        match steps.last() {
            Step::Fed(bytes) => fed(steps.drop_last()) + bytes,
            Step::Sized(_, _) => fed(steps.drop_last()),
        }
    }
}

/// The mirror consumed exactly the bytes written to the terminal.
pub open spec fn in_step(screen: Screen) -> bool {
    fed(screen.session.mirror.steps) == screen.out
}

proof fn lemma_show_in_step(screen: Screen, bytes: Seq<u8>, wall: i64)
    requires
        in_step(screen),
    ensures
        in_step(screen.show(bytes, wall)),
{
    let after = screen.show(bytes, wall);
    if bytes.len() > 0 {
        assert(after.session.mirror.steps.drop_last() =~= screen.session.mirror.steps);
    } else {
        assert(after.out =~= screen.out);
    }
}

proof fn lemma_pass_in_step(screen: Screen, bytes: Seq<u8>, now: Moment)
    requires
        in_step(screen),
    ensures
        in_step(screen.pass(bytes, now)),
{
    let after = screen.pass(bytes, now);
    if bytes.len() > 0 {
        assert(after.session.mirror.steps.drop_last() =~= screen.session.mirror.steps);
    } else {
        assert(after.out =~= screen.out);
    }
}

proof fn lemma_notices_in_step(screen: Screen, text: Seq<char>, wall: i64)
    requires
        in_step(screen),
    ensures
        in_step(screen.notice(text, wall)),
        in_step(screen.notice_above(text, wall)),
        in_step(screen.notice_before(text, wall)),
{
    lemma_show_in_step(
        screen,
        vstd::utf8::encode_utf8(
            presentation::line_lead(screen.session) + presentation::notice_line(text),
        ),
        wall,
    );
    if let Some(region) = screen.session.mirror.region() {
        lemma_show_in_step(
            screen,
            presentation::erasing(region) + vstd::utf8::encode_utf8(
                presentation::notice_line(text),
            ) + presentation::restoring(region),
            wall,
        );
    }
}

proof fn lemma_block_in_step(screen: Screen, answer: Seq<char>, wall: i64)
    requires
        in_step(screen),
    ensures
        in_step(screen.block(answer, wall)),
{
    let lines = vstd::utf8::encode_utf8(presentation::AI_HEADER@) + presentation::normalized(
        vstd::utf8::encode_utf8(answer),
        false,
    ) + vstd::utf8::encode_utf8("\r\n"@);
    lemma_show_in_step(
        screen,
        vstd::utf8::encode_utf8(presentation::line_lead(screen.session)) + lines,
        wall,
    );
    if let Some(region) = screen.session.mirror.region() {
        lemma_show_in_step(
            screen,
            presentation::erasing(region) + lines + presentation::restoring(region),
            wall,
        );
    }
}

proof fn lemma_rendered_in_step(a: ActiveView, delta: Seq<char>, screen: Screen, wall: i64)
    requires
        in_step(screen),
    ensures
        in_step(a.rendered(delta, screen, wall).1),
{
    let bytes = presentation::normalized(vstd::utf8::encode_utf8(delta), a.last_was_cr);
    if a.mode is Stream && a.anchored {
        if let Some(region) = screen.session.mirror.region() {
            let first = presentation::erasing(region) + a.anchored_lead() + bytes;
            lemma_show_in_step(screen, first, wall);
            lemma_show_in_step(
                screen.show(first, wall),
                vstd::utf8::encode_utf8("\r\n"@) + presentation::restoring(region),
                wall,
            );
        }
    } else if a.mode is Stream {
        let header = vstd::utf8::encode_utf8(
            presentation::line_lead(screen.session) + presentation::AI_HEADER@,
        );
        lemma_show_in_step(screen, header, wall);
        lemma_show_in_step(screen, bytes, wall);
        lemma_show_in_step(screen.show(header, wall), bytes, wall);
    }
}

proof fn lemma_closed_in_step(stage: Stage, a: ActiveView, error: Option<Seq<char>>, now: Moment)
    requires
        in_step(stage.screen),
    ensures
        in_step(stage.closed(a, error, now)),
{
    let screen = stage.screen;
    let tail = vstd::utf8::encode_utf8("\r\n"@);
    let text = presentation::error_text(
        match error {
            Some(m) => m,
            None => seq![],
        },
    );
    if a.mode is Stream && a.anchored {
        lemma_notices_in_step(screen, text, now.wall);
    } else if a.mode is Stream {
        lemma_show_in_step(screen, tail, now.wall);
        let tailed = if a.started {
            screen.show(tail, now.wall)
        } else {
            screen
        };
        lemma_notices_in_step(tailed, text, now.wall);
        let told = match error {
            Some(_) => tailed.notice(text, now.wall),
            None => tailed,
        };
        lemma_pass_in_step(told, a.buffered_pty, now);
    } else {
        lemma_block_in_step(screen, a.accumulated, now.wall);
        let placed = if a.accumulated.len() > 0 {
            screen.block(a.accumulated, now.wall)
        } else {
            screen
        };
        lemma_notices_in_step(placed, text, now.wall);
    }
}

/// The mirror-feed invariant: whatever arrives, the mirror consumes exactly the bytes
/// that are written to the terminal, PTY and presentation output alike, in the same
/// order.
pub proof fn the_mirror_consumes_exactly_what_is_written(
    stage: Stage,
    visible: Seq<u8>,
    message: ServerMessage,
    notice: Seq<char>,
    now: Moment,
)
    requires
        in_step(stage.screen),
    ensures
        in_step(stage.pty(visible, now).screen),
        in_step(stage.polled(now).screen),
        in_step(stage.told(message, now).screen),
        in_step(stage.screen.notice_before(notice, now.wall)),
        stage.interrupted(now) is Some ==> in_step((stage.interrupted(now)->0).0.screen),
{
    let p = stage.presentation;
    lemma_pass_in_step(stage.screen, visible, now);
    lemma_notices_in_step(stage.screen, notice, now.wall);
    if let Some(a) = p.active {
        lemma_pass_in_step(stage.screen, a.buffered_pty + visible, now);
        lemma_notices_in_step(stage.screen, "answer interrupted (^C)"@, now.wall);
        lemma_notices_in_step(stage.screen, "answer cancelled (^C)"@, now.wall);
        let tail = vstd::utf8::encode_utf8("\r\n"@);
        lemma_show_in_step(stage.screen, tail, now.wall);
        let tailed = if a.started {
            stage.screen.show(tail, now.wall)
        } else {
            stage.screen
        };
        lemma_notices_in_step(tailed, "answer interrupted (^C)"@, now.wall);
        lemma_pass_in_step(
            tailed.notice("answer interrupted (^C)"@, now.wall),
            a.buffered_pty,
            now,
        );
    }
    lemma_polled_in_step(stage, now);
    match message {
        ServerMessage::AiDelta { request_id, delta } => {
            lemma_delta_in_step(stage, request_id@, delta@, now);
        },
        ServerMessage::AiResponseEnd { request_id } => {
            lemma_finished_in_step(stage, request_id@, None, now);
        },
        ServerMessage::AiError { request_id, message } => {
            lemma_finished_in_step(stage, request_id@, Some(message@), now);
        },
        _ => {},
    }
}

proof fn lemma_polled_in_step(stage: Stage, now: Moment)
    requires
        in_step(stage.screen),
    ensures
        in_step(stage.polled(now).screen),
{
    lemma_notices_in_step(stage.screen, "waiting for the AI answer…"@, now.wall);
    let middle = stage.receipted(now);
    assert(in_step(middle.screen));
    lemma_notices_in_step(
        middle.screen,
        "still waiting for the AI answer; releasing command output"@,
        now.wall,
    );
    if let Some(a) = middle.presentation.active {
        lemma_pass_in_step(
            middle.screen.notice(
                "still waiting for the AI answer; releasing command output"@,
                now.wall,
            ),
            a.buffered_pty,
            now,
        );
    }
}

proof fn lemma_delta_in_step(stage: Stage, request_id: Seq<char>, delta: Seq<char>, now: Moment)
    requires
        in_step(stage.screen),
    ensures
        in_step(stage.delta(request_id, delta, now).screen),
{
    let p = stage.presentation;
    let a = if p.serves(request_id) {
        p.active->0
    } else {
        ActiveView::begun(request_id, p.mode_for(request_id), stage.screen.session, now.mono)
    };
    lemma_rendered_in_step(a.counted(now.mono), delta, stage.screen, now.wall);
}

proof fn lemma_finished_in_step(
    stage: Stage,
    request_id: Seq<char>,
    error: Option<Seq<char>>,
    now: Moment,
)
    requires
        in_step(stage.screen),
    ensures
        in_step(stage.finished(request_id, error, now).screen),
{
    let text = presentation::error_text(
        match error {
            Some(m) => m,
            None => seq![],
        },
    );
    lemma_notices_in_step(stage.screen, text, now.wall);
    if let Some(a) = stage.presentation.active {
        lemma_closed_in_step(stage, a, error, now);
    }
}

/// Only a response that holds ever has output held back, whatever happens.
pub proof fn only_a_holding_response_holds(
    stage: Stage,
    request_id: Seq<char>,
    still_running: bool,
    visible: Seq<u8>,
    message: ServerMessage,
    now: Moment,
)
    requires
        stage.presentation.sound(),
    ensures
        PresentationView::fresh().sound(),
        stage.presentation.noted(
            request_id,
            still_running,
            stage.screen.session,
            now.mono,
        ).sound(),
        stage.presentation.typed_into().sound(),
        stage.pty(visible, now).presentation.sound(),
        stage.polled(now).presentation.sound(),
        stage.told(message, now).presentation.sound(),
        stage.interrupted(now) is Some ==> (stage.interrupted(now)->0).0.presentation.sound(),
{
}

/// Arriving PTY output is never lost and never reordered: what was written, with what is
/// held back behind it, grows by exactly that output.
pub proof fn arriving_output_is_kept_in_order(stage: Stage, visible: Seq<u8>, now: Moment)
    requires
        stage.presentation.sound(),
    ensures
        stage.pty(visible, now).presentation.sound(),
        stage.pty(visible, now).screen.out + stage.pty(visible, now).presentation.held()
            == stage.screen.out + stage.presentation.held() + visible,
{
    let after = stage.pty(visible, now);
    assert(after.screen.out + after.presentation.held() =~= stage.screen.out
        + stage.presentation.held() + visible);
}

/// Output held back is released whole when the answer it waits for ends, is interrupted,
/// or takes too long: it becomes the end of what was written.
pub proof fn held_output_is_released(stage: Stage, error: Option<Seq<char>>, now: Moment)
    requires
        stage.presentation.sound(),
        stage.presentation.active is Some,
    ensures
        ({
            let p = stage.presentation;
            let ended = stage.finished(p.active->0.request_id, error, now);
            let cut = (stage.interrupted(now)->0).0;
            let polled = stage.polled(now);
            &&& !p.aborted.contains(p.active->0.request_id) ==> {
                &&& ended.presentation.held().len() == 0
                &&& p.held().is_suffix_of(ended.screen.out)
            }
            &&& cut.presentation.held().len() == 0
            &&& p.held().is_suffix_of(cut.screen.out)
            &&& polled.presentation.sound()
            &&& polled.presentation.held() == p.held() || (polled.presentation.held().len() == 0
                && p.held().is_suffix_of(polled.screen.out))
        }),
{
    let p = stage.presentation;
    let a = p.active->0;
    let ended = stage.finished(a.request_id, error, now);
    let cut = (stage.interrupted(now)->0).0;
    let polled = stage.polled(now);
    if !p.aborted.contains(a.request_id) {
        lemma_suffix(p.held(), ended.screen.out);
    }
    lemma_suffix(p.held(), cut.screen.out);
    lemma_suffix(p.held(), polled.screen.out);
}

proof fn lemma_suffix(held: Seq<u8>, out: Seq<u8>)
    ensures
        held.len() == 0 ==> held.is_suffix_of(out),
        forall|front: Seq<u8>| out == #[trigger] (front + held) ==> held.is_suffix_of(out),
{
    if held.len() == 0 {
        assert(held =~= out.subrange(out.len() - held.len(), out.len() as int));
    }
    assert forall|front: Seq<u8>| out == #[trigger] (front + held) implies held.is_suffix_of(out) by {
        assert(held =~= out.subrange(out.len() - held.len(), out.len() as int));
    }
}

/// The hold is bounded in size and in time: past the fuse, and past the longest hold,
/// nothing is held back.
pub proof fn the_hold_is_bounded(stage: Stage, visible: Seq<u8>, now: Moment)
    requires
        stage.presentation.sound(),
        stage.presentation.held().len() <= PTY_BUFFER_FUSE_BYTES,
    ensures
        stage.pty(visible, now).presentation.held().len() <= PTY_BUFFER_FUSE_BYTES,
        stage.presentation.active is Some && now.mono >= stage.presentation.active->0.dispatched_at
            + RESPONSE_MAX_HOLD ==> !stage.polled(now).presentation.active->0.holding(),
{
}

/// One thing that can happen to a presentation.
pub enum Call {
    /// A request is handed to the daemon.
    Dispatched { request_id: Seq<char>, still_running: bool, mono: u64 },
    /// PTY output arrives.
    Output { visible: Seq<u8>, now: Moment },
    /// Deadlines may be due.
    Polled { now: Moment },
    /// A daemon message arrives.
    Told { message: ServerMessage, now: Moment },
    /// Keystrokes are counted.
    Typed,
    /// The user interrupts.
    Interrupted { now: Moment },
    /// The log is set or emptied.
    Logged { log: event_log::LogView },
    /// The session moves on without the presentation.
    Moved { screen: Screen },
}

/// A terminal after a call.
pub open spec fn called(stage: Stage, call: Call) -> Stage {
    match call {
        Call::Dispatched { request_id, still_running, mono } => Stage {
            presentation: stage.presentation.noted(
                request_id,
                still_running,
                stage.screen.session,
                mono,
            ),
            ..stage
        },
        Call::Output { visible, now } => stage.pty(visible, now),
        Call::Polled { now } => stage.polled(now),
        Call::Told { message, now } => stage.told(message, now),
        Call::Typed => Stage { presentation: stage.presentation.typed_into(), ..stage },
        Call::Interrupted { now } => match stage.interrupted(now) {
            Some(done) => done.0,
            None => stage,
        },
        Call::Logged { log } => Stage {
            presentation: PresentationView { log, ..stage.presentation },
            ..stage
        },
        Call::Moved { screen } => Stage { screen, ..stage },
    }
}

/// A terminal after some calls.
pub open spec fn after(stage: Stage, calls: Seq<Call>) -> Stage
    decreases calls.len(),
{
    if calls.len() == 0 {
        stage
    } else {
        called(after(stage, calls.drop_last()), calls.last())
    }
}

/// Whether an id names a request that the presentation knows nothing of.
pub open spec fn unused(p: PresentationView, request_id: Seq<char>) -> bool {
    !p.dispatched.contains_key(request_id) && !p.aborted.contains(request_id) && !p.serves(
        request_id,
    )
}

/// Whether every request that some calls dispatch has an id of its own.
pub open spec fn distinct_requests(stage: Stage, calls: Seq<Call>) -> bool
    decreases calls.len(),
{
    calls.len() == 0 || (distinct_requests(stage, calls.drop_last()) && match calls.last() {
        Call::Dispatched { request_id, .. } => unused(
            after(stage, calls.drop_last()).presentation,
            request_id,
        ),
        _ => true,
    })
}

/// Whether the response in flight answers a request that was dispatched with its command
/// ended.
pub open spec fn answers_an_ended_command(p: PresentationView) -> bool {
    p.active matches Some(a) && p.dispatched.contains_key(a.request_id)
        && !p.dispatched[a.request_id]
}

/// The Ctrl+C is claimed exactly by a response that is in flight, was dispatched with its
/// command ended, has not degraded to a block, and was not interrupted.
pub open spec fn claims_rightly(p: PresentationView) -> bool {
    &&& p.owns_interrupt() <==> answers_an_ended_command(p) && p.active->0.degrade is None
    &&& p.active matches Some(a) ==> !p.aborted.contains(a.request_id)
}

/// What a response is to the claim on the Ctrl+C.
spec fn standing(a: ActiveView) -> (Seq<char>, bool, bool) {
    (a.request_id, a.mode is Stream, a.degrade is None)
}

proof fn lemma_rendered_standing(a: ActiveView, delta: Seq<char>, screen: Screen, wall: i64)
    ensures
        ({
            let drawn = a.rendered(delta, screen, wall).0;
            standing(drawn) == standing(a) || (a.mode is Stream && drawn.request_id
                == a.request_id && drawn.mode is Block && drawn.degrade is Some)
        }),
{
}

proof fn lemma_delta_claims(stage: Stage, request_id: Seq<char>, delta: Seq<char>, now: Moment)
    requires
        claims_rightly(stage.presentation),
    ensures
        claims_rightly(stage.delta(request_id, delta, now).presentation),
{
    let p = stage.presentation;
    if !p.aborted.contains(request_id) {
        let a = if p.serves(request_id) {
            p.active->0
        } else {
            ActiveView::begun(request_id, p.mode_for(request_id), stage.screen.session, now.mono)
        };
        let counted = a.counted(now.mono);
        assert(standing(counted) == standing(a));
        lemma_rendered_standing(counted, delta, stage.screen, now.wall);
        let (drawn, screen) = counted.rendered(delta, stage.screen, now.wall);
        let (noted, log) = drawn.degrade_noted(a.first_noted(p.log, now.mono), now.mono);
        assert(standing(noted) == standing(drawn));
        let done = stage.delta(request_id, delta, now).presentation;
        assert(done.active == Some(noted) && done.dispatched == p.dispatched && done.aborted
            == p.aborted);
    }
}

proof fn lemma_polled_claims(stage: Stage, now: Moment)
    requires
        claims_rightly(stage.presentation),
    ensures
        claims_rightly(stage.polled(now).presentation),
{
    assert(claims_rightly(stage.receipted(now).presentation));
}

proof fn lemma_finished_claims(
    stage: Stage,
    request_id: Seq<char>,
    error: Option<Seq<char>>,
    now: Moment,
)
    requires
        claims_rightly(stage.presentation),
    ensures
        claims_rightly(stage.finished(request_id, error, now).presentation),
{
}

/// Every call keeps the claim on the Ctrl+C right.
pub proof fn every_call_claims_rightly(stage: Stage, call: Call)
    requires
        claims_rightly(stage.presentation),
        call matches Call::Dispatched { request_id, .. } ==> unused(stage.presentation, request_id),
    ensures
        claims_rightly(called(stage, call).presentation),
{
    match call {
        Call::Polled { now } => lemma_polled_claims(stage, now),
        Call::Told { message, now } => match message {
            ServerMessage::AiDelta { request_id, delta } => lemma_delta_claims(
                stage,
                request_id@,
                delta@,
                now,
            ),
            ServerMessage::AiResponseEnd { request_id } => lemma_finished_claims(
                stage,
                request_id@,
                None,
                now,
            ),
            ServerMessage::AiError { request_id, message } => lemma_finished_claims(
                stage,
                request_id@,
                Some(message@),
                now,
            ),
            _ => {},
        },
        _ => {},
    }
}

/// A terminal whose presentation has seen nothing yet.
pub open spec fn untouched(screen: Screen) -> Stage {
    Stage { presentation: PresentationView::fresh(), screen }
}

/// After any calls, the Ctrl+C belongs to a response exactly while it is in flight, its
/// request was dispatched with its command ended, it has not degraded to a block, and
/// neither its end nor an interrupt has come. A command that is still running keeps its
/// Ctrl+C, and so does one of a request that was never dispatched.
pub proof fn a_running_command_keeps_its_interrupt(screen: Screen, calls: Seq<Call>)
    requires
        distinct_requests(untouched(screen), calls),
    ensures
        claims_rightly(after(untouched(screen), calls).presentation),
    decreases calls.len(),
{
    if calls.len() > 0 {
        a_running_command_keeps_its_interrupt(screen, calls.drop_last());
        every_call_claims_rightly(after(untouched(screen), calls.drop_last()), calls.last());
    }
}

/// The request that a message ends, with an error or without.
pub open spec fn ended_by(message: ServerMessage) -> Option<Seq<char>> {
    match message {
        ServerMessage::AiResponseEnd { request_id } => Some(request_id@),
        ServerMessage::AiError { request_id, .. } => Some(request_id@),
        _ => None,
    }
}

/// The dispatched requests are those handed over and neither ended nor interrupted since,
/// each with whether its command was still running then.
pub proof fn only_dispatch_end_and_interrupt_change_what_is_outstanding(stage: Stage, call: Call)
    ensures
        called(stage, call).presentation.dispatched == ({
            let outstanding = stage.presentation.dispatched;
            match call {
                Call::Dispatched { request_id, still_running, .. } => outstanding.insert(
                    request_id,
                    still_running,
                ),
                Call::Told { message, .. } => match ended_by(message) {
                    Some(request_id) => outstanding.remove(request_id),
                    None => outstanding,
                },
                Call::Interrupted { .. } => match stage.presentation.active {
                    Some(a) => outstanding.remove(a.request_id),
                    None => outstanding,
                },
                _ => outstanding,
            }
        }),
{
}

/// An interrupted answer stays silent, whatever happened since: its deltas change nothing
/// at all, and its end is not shown, starts nothing and only closes the books. Answers to
/// other requests are rendered as if there had been no interrupt.
pub proof fn an_interrupted_answer_stays_silent(
    stage: Stage,
    request_id: Seq<char>,
    other: Seq<char>,
    delta: Seq<char>,
    error: Option<Seq<char>>,
    now: Moment,
    mono: u64,
)
    requires
        stage.presentation.aborted.contains(request_id),
        other != request_id,
    ensures
        stage.delta(request_id, delta, now) == stage,
        ({
            let before = stage.presentation;
            let done = stage.finished(request_id, error, now);
            &&& done.screen == stage.screen
            &&& done.presentation.active == before.active
            &&& done.presentation.log == before.log
            &&& done.presentation.owns_interrupt() == before.owns_interrupt()
            &&& done.presentation.deadline(mono) == before.deadline(mono)
            &&& !done.presentation.aborted.contains(request_id)
        }),
        ({
            let clear = Stage {
                presentation: PresentationView {
                    aborted: stage.presentation.aborted.remove(request_id),
                    ..stage.presentation
                },
                ..stage
            };
            let rendered = stage.delta(other, delta, now);
            let usual = clear.delta(other, delta, now);
            &&& rendered.screen == usual.screen
            &&& rendered.presentation.active == usual.presentation.active
            &&& rendered.presentation.log == usual.presentation.log
        }),
{
}

/// Whether some calls bring no end of a request.
pub open spec fn without_end(calls: Seq<Call>, request_id: Seq<char>) -> bool {
    forall|i: int|
        0 <= i < calls.len() ==> (#[trigger] calls[i] matches Call::Told { message, .. }
            ==> ended_by(message) != Some(request_id))
}

/// An interrupt is remembered until the end of its answer comes.
pub proof fn an_interrupt_is_remembered(stage: Stage, now: Moment, calls: Seq<Call>)
    requires
        stage.presentation.active is Some,
        without_end(calls, stage.presentation.active->0.request_id),
    ensures
        ({
            let (cut, request_id) = stage.interrupted(now)->0;
            &&& request_id == stage.presentation.active->0.request_id
            &&& cut.presentation.active is None
            &&& after(cut, calls).presentation.aborted.contains(request_id)
        }),
    decreases calls.len(),
{
    if calls.len() > 0 {
        let init = calls.drop_last();
        let request_id = stage.presentation.active->0.request_id;
        assert forall|i: int| 0 <= i < init.len() implies (
        #[trigger] init[i] matches Call::Told { message, .. } ==> ended_by(message) != Some(
            request_id,
        )) by {
            assert(init[i] == calls[i]);
        }
        an_interrupt_is_remembered(stage, now, init);
        assert(calls[calls.len() - 1] == calls.last());
    }
}

/// Nothing of an interrupted answer shows any more: whatever happens after the interrupt,
/// until the answer's end has come, a message of that answer leaves the screen, the session,
/// the response in flight, the log, the interrupt's owner and the next deadline as they are.
pub proof fn late_messages_of_an_interrupted_answer_change_nothing(
    stage: Stage,
    now: Moment,
    calls: Seq<Call>,
    message: ServerMessage,
    late: Moment,
    mono: u64,
)
    requires
        stage.presentation.active is Some,
        without_end(calls, stage.presentation.active->0.request_id),
        presentation::answer_of(message) == Some(stage.presentation.active->0.request_id),
    ensures
        ({
            let (cut, _) = stage.interrupted(now)->0;
            let before = after(cut, calls);
            let told = before.told(message, late);
            &&& told.screen == before.screen
            &&& told.presentation.active == before.presentation.active
            &&& told.presentation.log == before.presentation.log
            &&& told.presentation.owns_interrupt() == before.presentation.owns_interrupt()
            &&& told.presentation.deadline(mono) == before.presentation.deadline(mono)
        }),
{
    an_interrupt_is_remembered(stage, now, calls);
}

/// A live region that is written again has its cursor where it was, whatever characters
/// its last row holds and wherever in it the cursor stood.
pub proof fn the_cursor_returns_to_its_column(region: crate::mirror::LiveRegionView, width: nat)
    requires
        region.last_row_columns <= width,
        region.cursor_col < width,
        region.needs_wrap ==> region.cursor_col == width - 1,
    ensures
        presentation::column_reached(
            region.last_row_columns,
            presentation::realigning(region),
            width,
        ) == region.cursor_col,
{
}

/// Normalizing ignores how a text is cut into deltas, a `\r\n` cut in two included.
pub proof fn normalizing_ignores_chunk_boundaries(a: Seq<u8>, b: Seq<u8>, cr: bool)
    ensures
        presentation::normalized(a + b, cr) == presentation::normalized(a, cr)
            + presentation::normalized(b, presentation::ends_in_cr(a, cr)),
        presentation::ends_in_cr(a + b, cr) == presentation::ends_in_cr(
            b,
            presentation::ends_in_cr(a, cr),
        ),
    decreases b.len(),
{
    if b.len() == 0 {
        assert(a + b =~= a);
        assert(presentation::normalized(a, cr) + presentation::normalized(
            b,
            presentation::ends_in_cr(a, cr),
        ) =~= presentation::normalized(a, cr));
    } else {
        let init = b.drop_last();
        normalizing_ignores_chunk_boundaries(a, init, cr);
        assert((a + b).drop_last() =~= a + init);
        assert((a + b).last() == b.last());
        assert(presentation::normalized(a + b, cr) =~= presentation::normalized(a, cr)
            + presentation::normalized(b, presentation::ends_in_cr(a, cr)));
    }
}

/// Nothing normalized holds a bare line feed: each has a carriage return before it.
pub proof fn no_line_feed_is_bare(bytes: Seq<u8>, i: int)
    requires
        0 <= i < presentation::normalized(bytes, false).len(),
        presentation::normalized(bytes, false)[i] == 0x0a,
    ensures
        i > 0,
        presentation::normalized(bytes, false)[i - 1] == 0x0d,
    decreases bytes.len(),
{
    if bytes.len() > 0 {
        let init = bytes.drop_last();
        let before = presentation::normalized(init, false);
        lemma_normalized_end(init);
        if i < before.len() {
            assert(presentation::normalized(bytes, false)[i] == before[i]);
            no_line_feed_is_bare(init, i);
            assert(presentation::normalized(bytes, false)[i - 1] == before[i - 1]);
        }
    }
}

proof fn lemma_normalized_end(bytes: Seq<u8>)
    ensures
        presentation::normalized(bytes, false).len() == 0 <==> bytes.len() == 0,
        bytes.len() > 0 ==> presentation::normalized(bytes, false).last() == bytes.last(),
{
}

// ---------------------------------------------------------------------------
// What an answer writes
// ---------------------------------------------------------------------------

/// Whether some bytes suit a terminal in raw mode: no line feed without a carriage return
/// right before it. `cr` is whether a carriage return stands before the first one.
pub open spec fn returns_first(bytes: Seq<u8>, cr: bool) -> bool {
    forall|i: int|
        0 <= i < bytes.len() && #[trigger] bytes[i] == 0x0a ==> if i == 0 {
            cr
        } else {
            bytes[i - 1] == 0x0d
        }
}

/// Whether some bytes hold no line feed.
pub open spec fn feedless(bytes: Seq<u8>) -> bool {
    forall|i: int| 0 <= i < bytes.len() ==> #[trigger] bytes[i] != 0x0a
}

/// Whether a text holds no line feed.
pub open spec fn one_line(s: Seq<char>) -> bool {
    forall|i: int| 0 <= i < s.len() ==> #[trigger] s[i] != '\n'
}

proof fn lemma_scalar_bytes(c: char)
    ensures
        ({
            let e = vstd::utf8::encode_scalar(c as u32);
            &&& e.len() > 0
            &&& c == '\n' ==> e == seq![0x0au8]
            &&& c == '\r' ==> e == seq![0x0du8]
            &&& c != '\n' ==> feedless(e)
            &&& c != '\r' ==> forall|i: int| 0 <= i < e.len() ==> #[trigger] e[i] != 0x0d
        }),
{
    let v = c as u32;
    assert(v <= 0x7f ==> (v & 0x7f) as u8 as u32 == v) by (bit_vector);
    assert(forall|x: u8| (0xC0u8 | x) >= 0x80) by (bit_vector);
    assert(forall|x: u8| (0xE0u8 | x) >= 0x80) by (bit_vector);
    assert(forall|x: u8| (0xF0u8 | x) >= 0x80) by (bit_vector);
    assert(forall|x: u8| (0x80u8 | x) >= 0x80) by (bit_vector);
    if c == '\n' {
        assert(vstd::utf8::encode_scalar(v) =~= seq![0x0au8]);
    }
    if c == '\r' {
        assert(vstd::utf8::encode_scalar(v) =~= seq![0x0du8]);
    }
}

proof fn lemma_encode_push(s: Seq<char>)
    requires
        s.len() > 0,
    ensures
        vstd::utf8::encode_utf8(s) == vstd::utf8::encode_utf8(s.drop_last())
            + vstd::utf8::encode_scalar(s.last() as u32),
{
    let one = seq![s.last()];
    assert(s =~= s.drop_last() + one);
    crate::text::lemma_encode_concat(s.drop_last(), one);
    assert(one.drop_first() =~= Seq::<char>::empty());
    assert(vstd::utf8::encode_utf8(one.drop_first()) =~= Seq::<u8>::empty());
    assert(vstd::utf8::encode_utf8(one) =~= vstd::utf8::encode_scalar(s.last() as u32));
}

/// How line feeds and carriage returns of a text show in its bytes.
proof fn lemma_text_bytes(s: Seq<char>)
    ensures
        ({
            let e = vstd::utf8::encode_utf8(s);
            &&& e.len() == 0 <==> s.len() == 0
            &&& one_line(s) ==> feedless(e)
            &&& s.len() > 0 ==> (e.last() == 0x0d <==> s.last() == '\r')
            &&& s.len() > 0 ==> (e[0] == 0x0a <==> s[0] == '\n')
            &&& (forall|i: int|
                0 <= i < s.len() && #[trigger] s[i] == '\n' ==> i > 0 && s[i - 1] == '\r')
                ==> returns_first(e, false)
        }),
    decreases s.len(),
{
    let e = vstd::utf8::encode_utf8(s);
    if s.len() > 0 {
        let init = s.drop_last();
        let before = vstd::utf8::encode_utf8(init);
        let last = vstd::utf8::encode_scalar(s.last() as u32);
        lemma_encode_push(s);
        lemma_text_bytes(init);
        lemma_scalar_bytes(s.last());
        lemma_scalar_bytes(s[0]);
        assert(e == vstd::utf8::encode_scalar(s[0] as u32) + vstd::utf8::encode_utf8(
            s.drop_first(),
        ));
        assert(e[0] == vstd::utf8::encode_scalar(s[0] as u32)[0]);
        assert(e.last() == last.last());
        if one_line(s) {
            assert forall|i: int| 0 <= i < init.len() implies #[trigger] init[i] != '\n' by {
                assert(init[i] == s[i]);
            }
            assert(s[s.len() - 1] != '\n');
        }
        if forall|i: int|
            0 <= i < s.len() && #[trigger] s[i] == '\n' ==> i > 0 && s[i - 1] == '\r' {
            assert forall|i: int| 0 <= i < init.len() && #[trigger] init[i] == '\n' implies i > 0
                && init[i - 1] == '\r' by {
                assert(init[i] == s[i]);
            }
            assert forall|i: int| 0 <= i < e.len() && #[trigger] e[i] == 0x0a implies if i == 0 {
                false
            } else {
                e[i - 1] == 0x0d
            } by {
                if i < before.len() {
                    assert(before[i] == e[i]);
                    assert(before[i - 1] == e[i - 1]);
                } else {
                    assert(last[i - before.len()] == e[i]);
                    assert(s[s.len() - 1] == '\n');
                    assert(s[s.len() - 2] == '\r');
                    assert(init.last() == '\r');
                    assert(before.last() == 0x0d);
                }
            }
        }
    }
}

proof fn lemma_returns_concat(a: Seq<u8>, b: Seq<u8>, cr: bool)
    requires
        returns_first(a, cr),
        returns_first(b, if a.len() > 0 {
            a.last() == 0x0d
        } else {
            cr
        }),
    ensures
        returns_first(a + b, cr),
{
    let all = a + b;
    assert forall|i: int| 0 <= i < all.len() && #[trigger] all[i] == 0x0a implies if i == 0 {
        cr
    } else {
        all[i - 1] == 0x0d
    } by {
        if i < a.len() {
            assert(a[i] == all[i]);
        } else {
            assert(b[i - a.len()] == all[i]);
        }
    }
}

proof fn lemma_returns_weaken(bytes: Seq<u8>, cr: bool)
    requires
        returns_first(bytes, false),
    ensures
        returns_first(bytes, cr),
{
    assert forall|i: int| 0 <= i < bytes.len() && #[trigger] bytes[i] == 0x0a implies if i == 0 {
        cr
    } else {
        bytes[i - 1] == 0x0d
    } by {}
}

proof fn lemma_returns_join(a: Seq<u8>, b: Seq<u8>, cr: bool)
    requires
        returns_first(a, cr),
        returns_first(b, false),
    ensures
        returns_first(a + b, cr),
{
    lemma_returns_weaken(
        b,
        if a.len() > 0 {
            a.last() == 0x0d
        } else {
            cr
        },
    );
    lemma_returns_concat(a, b, cr);
}

proof fn lemma_normalized_returns(bytes: Seq<u8>, cr: bool)
    ensures
        returns_first(presentation::normalized(bytes, cr), cr),
        presentation::normalized(bytes, cr).len() == 0 <==> bytes.len() == 0,
        bytes.len() > 0 ==> presentation::normalized(bytes, cr).last() == bytes.last(),
    decreases bytes.len(),
{
    if bytes.len() > 0 {
        let init = bytes.drop_last();
        lemma_normalized_returns(init, cr);
        let before = presentation::normalized(init, cr);
        let all = presentation::normalized(bytes, cr);
        assert forall|i: int| 0 <= i < all.len() && #[trigger] all[i] == 0x0a implies if i == 0 {
            cr
        } else {
            all[i - 1] == 0x0d
        } by {
            if i < before.len() {
                assert(before[i] == all[i]);
            }
        }
    }
}

proof fn lemma_normalized_any(bytes: Seq<u8>, cr: bool)
    requires
        bytes.len() > 0,
        bytes[0] != 0x0a,
    ensures
        presentation::normalized(bytes, cr) == presentation::normalized(bytes, false),
    decreases bytes.len(),
{
    let init = bytes.drop_last();
    if init.len() > 0 {
        lemma_normalized_any(init, cr);
    } else {
        assert(presentation::normalized(init, cr) =~= presentation::normalized(init, false));
    }
}

proof fn lemma_repeated_feedless(bytes: Seq<u8>, n: nat)
    requires
        feedless(bytes),
    ensures
        feedless(presentation::repeated(bytes, n)),
    decreases n,
{
    if n > 0 {
        lemma_repeated_feedless(bytes, (n - 1) as nat);
    }
}

proof fn lemma_digits_one_line(n: nat)
    ensures
        one_line(crate::text::decimal(n)),
    decreases n,
{
    if n >= 10 {
        lemma_digits_one_line(n / 10);
    }
}

/// Whether the rows of the live region of a mirror hold no line feed.
pub open spec fn rows_are_lines(mirror: crate::mirror::MirrorView) -> bool {
    mirror.region() matches Some(region) ==> forall|i: int|
        0 <= i < region.styled_rows.len() ==> one_line(#[trigger] region.styled_rows[i])
}

/// Whether that holds of the live region now and after whatever is written next.
pub open spec fn live_rows_are_lines(screen: Screen) -> bool {
    rows_are_lines(screen.session.mirror) && forall|bytes: Seq<u8>|
        rows_are_lines(#[trigger] screen.session.mirror.written(bytes))
}

proof fn lemma_rows_feedless(rows: Seq<Seq<char>>)
    requires
        forall|i: int| 0 <= i < rows.len() ==> one_line(#[trigger] rows[i]),
    ensures
        feedless(presentation::joined_rows(rows)),
    decreases rows.len(),
{
    if rows.len() > 0 {
        let init = rows.drop_last();
        assert forall|i: int| 0 <= i < init.len() implies one_line(#[trigger] init[i]) by {
            assert(init[i] == rows[i]);
        }
        lemma_rows_feedless(init);
        assert(rows[rows.len() - 1] == rows.last());
        lemma_text_bytes(rows.last());
    }
}

proof fn lemma_feedless_returns(bytes: Seq<u8>)
    requires
        feedless(bytes),
    ensures
        returns_first(bytes, false),
{
}

proof fn lemma_region_feedless(mirror: crate::mirror::MirrorView)
    requires
        rows_are_lines(mirror),
        mirror.region() is Some,
    ensures
        returns_first(presentation::erasing(mirror.region()->0), false),
        returns_first(presentation::restoring(mirror.region()->0), false),
{
    lemma_region_parts(mirror.region()->0);
}

#[verifier::spinoff_prover]
proof fn lemma_region_parts(region: crate::mirror::LiveRegionView)
    requires
        forall|i: int|
            0 <= i < region.styled_rows.len() ==> one_line(#[trigger] region.styled_rows[i]),
    ensures
        returns_first(presentation::erasing(region), false),
        returns_first(presentation::restoring(region), false),
{
    reveal_strlit("\r\x1b[K");
    reveal_strlit("\x1b[A\x1b[K");
    reveal_strlit(" ");
    reveal_strlit("\x1b[");
    reveal_strlit("G");
    lemma_text_bytes("\r\x1b[K"@);
    lemma_text_bytes("\x1b[A\x1b[K"@);
    lemma_text_bytes(" "@);
    let ups: nat = if region.styled_rows.len() > 1 {
        (region.styled_rows.len() - 1) as nat
    } else {
        0
    };
    lemma_repeated_feedless(vstd::utf8::encode_utf8("\x1b[A\x1b[K"@), ups);
    assert(feedless(presentation::erasing(region)));
    lemma_feedless_returns(presentation::erasing(region));
    lemma_rows_feedless(region.styled_rows);
    match presentation::realigning(region) {
        presentation::Realign::Stay => {},
        presentation::Realign::Pad(n) => {
            lemma_repeated_feedless(vstd::utf8::encode_utf8(" "@), n);
        },
        presentation::Realign::Back(column) => {
            lemma_digits_one_line(column + 1);
            lemma_text_bytes("\x1b["@ + crate::text::decimal(column + 1) + "G"@);
        },
    }
    assert(feedless(presentation::restoring(region)));
    lemma_feedless_returns(presentation::restoring(region));
}

#[verifier::rlimit(40)]
#[verifier::spinoff_prover]
proof fn lemma_fixed_texts(session: crate::trigger::SessionView)
    ensures
        returns_first(vstd::utf8::encode_utf8("\r\n"@), false),
        returns_first(vstd::utf8::encode_utf8(presentation::AI_HEADER@), false),
        returns_first(vstd::utf8::encode_utf8(presentation::line_lead(session)), false),
        returns_first(
            vstd::utf8::encode_utf8(presentation::line_lead(session) + presentation::AI_HEADER@),
            false,
        ),
{
    reveal_strlit("\r\n");
    reveal_strlit("\x1b[2m[koshell ai]\x1b[0m\r\n");
    lemma_text_bytes("\r\n"@);
    lemma_text_bytes(presentation::AI_HEADER@);
    lemma_text_bytes(presentation::line_lead(session));
    crate::text::lemma_encode_concat(presentation::line_lead(session), presentation::AI_HEADER@);
    lemma_returns_join(
        vstd::utf8::encode_utf8(presentation::line_lead(session)),
        vstd::utf8::encode_utf8(presentation::AI_HEADER@),
        false,
    );
}

/// What was added to an output suits a terminal in raw mode, but for the last `open` bytes.
pub open spec fn added_returns(before: Seq<u8>, after: Seq<u8>, open: nat) -> bool {
    &&& before.is_prefix_of(after)
    &&& forall|i: int|
        before.len() <= i < after.len() - open && #[trigger] after[i] == 0x0a ==> i > 0
            && after[i - 1] == 0x0d
}

proof fn lemma_added(before: Seq<u8>, added: Seq<u8>, rest: Seq<u8>)
    requires
        returns_first(added, before.len() > 0 && before.last() == 0x0d),
    ensures
        added_returns(before, before + added + rest, rest.len()),
        added_returns(before, before + added, 0),
        added_returns(before, before, 0),
{
    let after = before + added + rest;
    assert(before =~= after.subrange(0, before.len() as int));
    assert(before =~= (before + added).subrange(0, before.len() as int));
    assert(before =~= before.subrange(0, before.len() as int));
    assert forall|i: int|
        before.len() <= i < after.len() - rest.len() && #[trigger] after[i] == 0x0a implies i > 0
        && after[i - 1] == 0x0d by {
        assert(added[i - before.len()] == after[i]);
        if i > before.len() {
            assert(added[i - before.len() - 1] == after[i - 1]);
        }
    }
    let plain = before + added;
    assert forall|i: int| before.len() <= i < plain.len() && #[trigger] plain[i] == 0x0a implies i
        > 0 && plain[i - 1] == 0x0d by {
        assert(added[i - before.len()] == plain[i]);
        if i > before.len() {
            assert(added[i - before.len() - 1] == plain[i - 1]);
        }
    }
}

proof fn lemma_notice_bytes(session: crate::trigger::SessionView, text: Seq<char>)
    requires
        one_line(text),
    ensures
        returns_first(vstd::utf8::encode_utf8(presentation::notice_line(text)), false),
        returns_first(
            vstd::utf8::encode_utf8(
                presentation::line_lead(session) + presentation::notice_line(text),
            ),
            false,
        ),
{
    reveal_strlit("\x1b[2m[koshell] ");
    reveal_strlit("\x1b[0m\r\n");
    let line = presentation::notice_line(text);
    let head = "\x1b[2m[koshell] "@ + text;
    assert forall|i: int| 0 <= i < line.len() && #[trigger] line[i] == '\n' implies i > 0
        && line[i - 1] == '\r' by {
        if i < head.len() {
            if i >= "\x1b[2m[koshell] "@.len() {
                assert(text[i - "\x1b[2m[koshell] "@.len()] == line[i]);
            }
        } else {
            assert("\x1b[0m\r\n"@[i - head.len()] == line[i]);
            assert("\x1b[0m\r\n"@[i - head.len() - 1] == line[i - 1]);
        }
    }
    lemma_text_bytes(line);
    lemma_fixed_texts(session);
    crate::text::lemma_encode_concat(presentation::line_lead(session), line);
    lemma_returns_join(
        vstd::utf8::encode_utf8(presentation::line_lead(session)),
        vstd::utf8::encode_utf8(line),
        false,
    );
}

/// The bytes that a notice adds, in each of its places.
#[verifier::rlimit(40)]
#[verifier::spinoff_prover]
proof fn lemma_notice_added(screen: Screen, text: Seq<char>, wall: i64) -> (added: (
    Seq<u8>,
    Seq<u8>,
    Seq<u8>,
))
    requires
        rows_are_lines(screen.session.mirror),
        one_line(text),
    ensures
        screen.notice(text, wall).out == screen.out + added.0,
        screen.notice_above(text, wall).out == screen.out + added.1,
        screen.notice_before(text, wall).out == screen.out + added.2,
        returns_first(added.0, false),
        returns_first(added.1, false),
        returns_first(added.2, false),
{
    lemma_notice_bytes(screen.session, text);
    let plain = vstd::utf8::encode_utf8(
        presentation::line_lead(screen.session) + presentation::notice_line(text),
    );
    let above = match screen.session.mirror.region() {
        Some(region) => {
            lemma_region_feedless(screen.session.mirror);
            let line = vstd::utf8::encode_utf8(presentation::notice_line(text));
            lemma_returns_join(presentation::erasing(region), line, false);
            lemma_returns_join(
                presentation::erasing(region) + line,
                presentation::restoring(region),
                false,
            );
            presentation::erasing(region) + line + presentation::restoring(region)
        },
        None => plain,
    };
    (
        plain,
        above,
        if screen.session.resting_prompt() {
            above
        } else {
            plain
        },
    )
}

/// The bytes that a whole answer adds.
#[verifier::rlimit(40)]
#[verifier::spinoff_prover]
proof fn lemma_block_added(screen: Screen, answer: Seq<char>, wall: i64) -> (added: Seq<u8>)
    requires
        rows_are_lines(screen.session.mirror),
    ensures
        screen.block(answer, wall).out == screen.out + added,
        returns_first(added, false),
        holds_text(added, answer),
{
    let header = vstd::utf8::encode_utf8(presentation::AI_HEADER@);
    let bytes = vstd::utf8::encode_utf8(answer);
    let body = presentation::normalized(bytes, false);
    let tail = vstd::utf8::encode_utf8("\r\n"@);
    let lines = header + body + tail;
    lemma_fixed_texts(screen.session);
    lemma_normalized_returns(bytes, false);
    lemma_same_lines(bytes, false);
    lemma_returns_join(header, body, false);
    lemma_returns_join(header + body, tail, false);
    if screen.session.resting_prompt() && screen.session.mirror.region() is Some {
        let region = screen.session.mirror.region()->0;
        lemma_region_feedless(screen.session.mirror);
        let e = presentation::erasing(region);
        let r = presentation::restoring(region);
        lemma_returns_join(e, lines, false);
        lemma_returns_join(e + lines, r, false);
        let added = e + lines + r;
        let i = (e.len() + header.len()) as int;
        assert(added.subrange(i, i + body.len()) =~= body);
        added
    } else {
        let lead = vstd::utf8::encode_utf8(presentation::line_lead(screen.session));
        lemma_returns_join(lead, lines, false);
        let added = lead + lines;
        let i = (lead.len() + header.len()) as int;
        assert(added.subrange(i, i + body.len()) =~= body);
        added
    }
}

/// Some bytes with every line break a bare line feed: what they say, however the breaks are
/// written.
pub open spec fn line_by_line(bytes: Seq<u8>) -> Seq<u8>
    decreases bytes.len(),
{
    if bytes.len() == 0 {
        seq![]
    } else if bytes.last() == 0x0a && bytes.len() >= 2 && bytes[bytes.len() - 2] == 0x0d {
        line_by_line(bytes.take(bytes.len() - 2)).push(0x0a)
    } else {
        line_by_line(bytes.drop_last()).push(bytes.last())
    }
}

/// Whether some bytes hold a text in one piece, but for how its line breaks are written.
pub open spec fn holds_text(bytes: Seq<u8>, text: Seq<char>) -> bool {
    exists|i: int, j: int|
        0 <= i <= j <= bytes.len() && line_by_line(#[trigger] bytes.subrange(i, j))
            == line_by_line(vstd::utf8::encode_utf8(text))
}

proof fn lemma_same_lines(bytes: Seq<u8>, cr: bool)
    ensures
        line_by_line(presentation::normalized(bytes, cr)) == line_by_line(bytes),
    decreases bytes.len(),
{
    if bytes.len() > 0 {
        let init = bytes.drop_last();
        let n = presentation::normalized(bytes, cr);
        let before = presentation::normalized(init, cr);
        lemma_same_lines(init, cr);
        lemma_normalized_returns(init, cr);
        if bytes.last() == 0x0a {
            if init.len() > 0 && init.last() == 0x0d {
                let shorter = bytes.take(bytes.len() - 2);
                assert(shorter =~= init.drop_last());
                lemma_same_lines(shorter, cr);
                assert(before == presentation::normalized(shorter, cr).push(0x0d));
                assert(n.take(n.len() - 2) =~= presentation::normalized(shorter, cr));
            } else if init.len() > 0 || !cr {
                assert(n.take(n.len() - 2) =~= before);
            } else {
                assert(n.drop_last() =~= before);
            }
        } else {
            assert(n.drop_last() =~= before);
        }
    }
}

/// Whether a delta goes on where the answer left off without a line feed that would stand
/// alone: where the last delta ended in a carriage return, this one does not begin with the
/// line feed to it, or what was written last is that carriage return.
pub open spec fn goes_on_cleanly(stage: Stage, request_id: Seq<char>, delta: Seq<char>) -> bool {
    match stage.presentation.active {
        Some(a) => a.request_id == request_id && a.last_was_cr ==> {
            ||| delta.len() == 0
            ||| delta[0] != '\n'
            ||| a.started && !a.anchored && stage.screen.out.len() > 0 && stage.screen.out.last()
                == 0x0d
        },
        None => true,
    }
}

#[verifier::rlimit(40)]
#[verifier::spinoff_prover]
proof fn lemma_delta_added(stage: Stage, request_id: Seq<char>, delta: Seq<char>, now: Moment)
    requires
        rows_are_lines(stage.screen.session.mirror),
        goes_on_cleanly(stage, request_id, delta),
    ensures
        added_returns(
            stage.screen.out,
            stage.delta(request_id, delta, now).screen.out,
            0,
        ),
{
    let p = stage.presentation;
    let out = stage.screen.out;
    let mirror = stage.screen.session.mirror;
    lemma_added(out, Seq::<u8>::empty(), Seq::<u8>::empty());
    if !p.aborted.contains(request_id) {
        let a = if p.serves(request_id) {
            p.active->0
        } else {
            ActiveView::begun(request_id, p.mode_for(request_id), stage.screen.session, now.mono)
        };
        let b = a.counted(now.mono);
        let bytes = vstd::utf8::encode_utf8(delta);
        let body = presentation::normalized(bytes, b.last_was_cr);
        lemma_text_bytes(delta);
        lemma_normalized_returns(bytes, b.last_was_cr);
        if delta.len() > 0 && delta[0] != '\n' {
            lemma_normalized_any(bytes, b.last_was_cr);
            lemma_normalized_returns(bytes, false);
        }
        lemma_fixed_texts(stage.screen.session);
        let (_, screen) = b.rendered(delta, stage.screen, now.wall);
        assert(stage.delta(request_id, delta, now).screen == screen);
        if b.mode is Stream && b.anchored {
            if mirror.region() is Some && !(b.ai_end is Some && (mirror.region()->0).row_above
                != Some(b.ai_end->0.tail)) {
                let region = mirror.region()->0;
                lemma_region_feedless(mirror);
                let e = presentation::erasing(region);
                let lead = b.anchored_lead();
                let tail = vstd::utf8::encode_utf8("\r\n"@) + presentation::restoring(region);
                lemma_lead_returns(b);
                lemma_returns_join(
                    vstd::utf8::encode_utf8("\r\n"@),
                    presentation::restoring(region),
                    false,
                );
                lemma_returns_join(e, lead, false);
                assert(returns_first(body, false));
                lemma_returns_join(e + lead, body, false);
                lemma_returns_join(e + lead + body, tail, false);
                let added = e + lead + body + tail;
                assert(screen.out =~= out + added);
                lemma_returns_weaken(added, out.len() > 0 && out.last() == 0x0d);
                lemma_added(out, added, Seq::<u8>::empty());
            }
        } else if b.mode is Stream {
            if b.started {
                let cr = out.len() > 0 && out.last() == 0x0d;
                if b.last_was_cr && !(delta.len() == 0 || delta[0] != '\n') {
                    assert(cr);
                } else {
                    lemma_returns_weaken(body, cr);
                }
                assert(screen.out =~= out + body);
                lemma_added(out, body, Seq::<u8>::empty());
            } else {
                let header = vstd::utf8::encode_utf8(
                    presentation::line_lead(stage.screen.session) + presentation::AI_HEADER@,
                );
                assert(returns_first(body, false));
                lemma_returns_join(header, body, false);
                let added = header + body;
                assert(screen.out =~= out + added);
                lemma_returns_weaken(added, out.len() > 0 && out.last() == 0x0d);
                lemma_added(out, added, Seq::<u8>::empty());
            }
        }
    }
}

proof fn lemma_lead_returns(a: ActiveView)
    ensures
        returns_first(a.anchored_lead(), false),
{
    reveal_strlit("\x1b[2m[koshell ai]\x1b[0m\r\n");
    lemma_text_bytes(presentation::AI_HEADER@);
    if let Some(end) = a.ai_end {
        reveal_strlit("\x1b[A\x1b[");
        reveal_strlit("G");
        lemma_digits_one_line((end.col + 1) as nat);
        lemma_text_bytes("\x1b[A\x1b["@ + crate::text::decimal((end.col + 1) as nat) + "G"@);
    }
}

#[verifier::rlimit(40)]
#[verifier::spinoff_prover]
proof fn lemma_closed_added(
    stage: Stage,
    a: ActiveView,
    error: Option<Seq<char>>,
    now: Moment,
) -> (added: Seq<u8>)
    requires
        live_rows_are_lines(stage.screen),
        error matches Some(message) ==> one_line(message),
    ensures
        stage.closed(a, error, now).out == stage.screen.out + added + if a.mode is Stream
            && !a.anchored {
            a.buffered_pty
        } else {
            seq![]
        },
        returns_first(added, false),
        a.mode is Block && a.accumulated.len() > 0 ==> holds_text(added, a.accumulated),
{
    let screen = stage.screen;
    let nothing = Seq::<u8>::empty();
    let text = presentation::error_text(
        match error {
            Some(m) => m,
            None => seq![],
        },
    );
    lemma_error_one_line(error);
    lemma_fixed_texts(screen.session);
    if a.mode is Stream && a.anchored {
        let (_, above, _) = lemma_notice_added(screen, text, now.wall);
        let added = if error is Some {
            above
        } else {
            nothing
        };
        assert(stage.closed(a, error, now).out =~= screen.out + added + nothing);
        added
    } else if a.mode is Stream {
        let tail = vstd::utf8::encode_utf8("\r\n"@);
        let tailed = if a.started {
            screen.show(tail, now.wall)
        } else {
            screen
        };
        let first = if a.started {
            tail
        } else {
            nothing
        };
        lemma_show_mirror(screen, tail, now.wall);
        let (plain, _, _) = lemma_notice_added(tailed, text, now.wall);
        lemma_returns_join(first, plain, false);
        let added = if error is Some {
            first + plain
        } else {
            first
        };
        assert(tailed.out =~= screen.out + first);
        assert(stage.closed(a, error, now).out =~= screen.out + added + a.buffered_pty);
        added
    } else {
        let block = lemma_block_added(screen, a.accumulated, now.wall);
        let placed = if a.accumulated.len() > 0 {
            screen.block(a.accumulated, now.wall)
        } else {
            screen
        };
        let first = if a.accumulated.len() > 0 {
            block
        } else {
            nothing
        };
        lemma_block_mirror(screen, a.accumulated, now.wall);
        let (_, _, before) = lemma_notice_added(placed, text, now.wall);
        lemma_returns_join(first, before, false);
        let added = if error is Some {
            first + before
        } else {
            first
        };
        assert(stage.closed(a, error, now).out =~= screen.out + added + nothing);
        if a.accumulated.len() > 0 {
            lemma_holds_more(block, before, a.accumulated);
        }
        added
    }
}

proof fn lemma_holds_more(bytes: Seq<u8>, more: Seq<u8>, text: Seq<char>)
    requires
        holds_text(bytes, text),
    ensures
        holds_text(bytes + more, text),
        holds_text(more + bytes, text),
{
    let (i, j) = choose|i: int, j: int|
        0 <= i <= j <= bytes.len() && line_by_line(#[trigger] bytes.subrange(i, j))
            == line_by_line(vstd::utf8::encode_utf8(text));
    assert((bytes + more).subrange(i, j) =~= bytes.subrange(i, j));
    assert((more + bytes).subrange(more.len() + i, more.len() + j) =~= bytes.subrange(i, j));
}

proof fn lemma_error_one_line(error: Option<Seq<char>>)
    requires
        error matches Some(message) ==> one_line(message),
    ensures
        one_line(
            presentation::error_text(
                match error {
                    Some(m) => m,
                    None => seq![],
                },
            ),
        ),
{
    reveal_strlit("AI error: ");
}

proof fn lemma_show_mirror(screen: Screen, bytes: Seq<u8>, wall: i64)
    requires
        live_rows_are_lines(screen),
    ensures
        rows_are_lines(screen.session.mirror),
        rows_are_lines(screen.show(bytes, wall).session.mirror),
{
    assert(rows_are_lines(screen.session.mirror.written(bytes)));
}

proof fn lemma_block_mirror(screen: Screen, answer: Seq<char>, wall: i64)
    requires
        live_rows_are_lines(screen),
    ensures
        rows_are_lines(screen.block(answer, wall).session.mirror),
{
    let header = vstd::utf8::encode_utf8(presentation::AI_HEADER@);
    let body = presentation::normalized(vstd::utf8::encode_utf8(answer), false);
    let lines = header + body + vstd::utf8::encode_utf8("\r\n"@);
    lemma_show_mirror(
        screen,
        vstd::utf8::encode_utf8(presentation::line_lead(screen.session)) + lines,
        wall,
    );
    if let Some(region) = screen.session.mirror.region() {
        lemma_show_mirror(
            screen,
            presentation::erasing(region) + lines + presentation::restoring(region),
            wall,
        );
    }
}

/// The output that a message releases behind what it writes: what was held back for the
/// answer that it ends.
pub open spec fn releases(stage: Stage, message: ServerMessage) -> Seq<u8> {
    match ended_by(message) {
        Some(request_id) => if stage.presentation.serves(request_id)
            && !stage.presentation.aborted.contains(request_id) && stage.presentation.sound() {
            stage.presentation.held()
        } else {
            seq![]
        },
        None => seq![],
    }
}

/// Every line of an answer starts at the left edge: whatever a message makes the terminal
/// show, in any mode, holds no line feed without a carriage return right before it. Left
/// aside are the output that is released behind it, which is the program's own, an error
/// message of several lines, and a live region that would hold line feeds itself.
pub proof fn an_answer_starts_every_line_at_the_left(
    stage: Stage,
    message: ServerMessage,
    now: Moment,
)
    requires
        stage.presentation.sound(),
        live_rows_are_lines(stage.screen),
        message matches ServerMessage::AiDelta { request_id, delta } ==> goes_on_cleanly(
            stage,
            request_id@,
            delta@,
        ),
        message matches ServerMessage::AiError { message: why, .. } ==> one_line(why@),
    ensures
        added_returns(
            stage.screen.out,
            stage.told(message, now).screen.out,
            releases(stage, message).len(),
        ),
        releases(stage, message).is_suffix_of(stage.told(message, now).screen.out),
{
    let out = stage.screen.out;
    lemma_added(out, Seq::<u8>::empty(), Seq::<u8>::empty());
    match message {
        ServerMessage::AiDelta { request_id, delta } => {
            lemma_delta_added(stage, request_id@, delta@, now);
            lemma_suffix(seq![], stage.told(message, now).screen.out);
        },
        ServerMessage::AiResponseEnd { request_id } => {
            lemma_finished_added(stage, request_id@, None, now);
        },
        ServerMessage::AiError { request_id, message: why } => {
            lemma_finished_added(stage, request_id@, Some(why@), now);
        },
        _ => {
            lemma_suffix(seq![], out);
        },
    }
}

#[verifier::rlimit(40)]
#[verifier::spinoff_prover]
proof fn lemma_finished_added(
    stage: Stage,
    request_id: Seq<char>,
    error: Option<Seq<char>>,
    now: Moment,
)
    requires
        stage.presentation.sound(),
        live_rows_are_lines(stage.screen),
        error matches Some(message) ==> one_line(message),
    ensures
        ({
            let p = stage.presentation;
            let done = stage.finished(request_id, error, now).screen.out;
            let released = if p.serves(request_id) && !p.aborted.contains(request_id) {
                p.held()
            } else {
                seq![]
            };
            &&& added_returns(stage.screen.out, done, released.len())
            &&& released.is_suffix_of(done)
        }),
{
    let out = stage.screen.out;
    let p = stage.presentation;
    let cr = out.len() > 0 && out.last() == 0x0d;
    let nothing = Seq::<u8>::empty();
    let done = stage.finished(request_id, error, now).screen.out;
    lemma_added(out, nothing, nothing);
    lemma_suffix(nothing, done);
    lemma_error_one_line(error);
    if p.aborted.contains(request_id) {
    } else if !p.serves(request_id) {
        if let Some(message) = error {
            let (plain, _, _) = lemma_notice_added(
                stage.screen,
                presentation::error_text(message),
                now.wall,
            );
            lemma_returns_weaken(plain, cr);
            lemma_added(out, plain, nothing);
        }
    } else {
        let a = p.active->0;
        let added = lemma_closed_added(stage, a, error, now);
        let rest = if a.mode is Stream && !a.anchored {
            a.buffered_pty
        } else {
            seq![]
        };
        assert(rest =~= p.held());
        lemma_returns_weaken(added, cr);
        lemma_added(out, added, rest);
        lemma_suffix(rest, done);
        assert(done == (out + added) + rest);
    }
}

/// Whether what was added to an output holds a text in one piece.
pub open spec fn added_holds(before: Seq<u8>, after: Seq<u8>, text: Seq<char>) -> bool {
    before.is_prefix_of(after) && holds_text(after.skip(before.len() as int), text)
}

/// A streamed answer is shown as it comes: each delta is written whole, in one piece, and
/// the rest of the terminal's output stays before it. Where it is put off instead, because
/// the response is a block or its place on the screen is gone, nothing is written and the
/// delta joins what waits for the end.
pub proof fn every_delta_is_shown_or_kept(
    stage: Stage,
    request_id: Seq<char>,
    delta: Seq<char>,
    now: Moment,
)
    requires
        !stage.presentation.aborted.contains(request_id),
    ensures
        ({
            let done = stage.delta(request_id, delta, now);
            let waiting = if stage.presentation.serves(request_id) {
                stage.presentation.active->0.accumulated
            } else {
                seq![]
            };
            &&& done.presentation.active matches Some(a) && a.request_id == request_id && {
                ||| a.accumulated == waiting && added_holds(
                    stage.screen.out,
                    done.screen.out,
                    delta,
                )
                ||| a.accumulated == waiting + delta && done.screen == stage.screen && a.mode is Block
            }
        }),
{
    let p = stage.presentation;
    let out = stage.screen.out;
    let mirror = stage.screen.session.mirror;
    let a = if p.serves(request_id) {
        p.active->0
    } else {
        ActiveView::begun(request_id, p.mode_for(request_id), stage.screen.session, now.mono)
    };
    let b = a.counted(now.mono);
    let bytes = vstd::utf8::encode_utf8(delta);
    let body = presentation::normalized(bytes, b.last_was_cr);
    lemma_same_lines(bytes, b.last_was_cr);
    let (drawn, screen) = b.rendered(delta, stage.screen, now.wall);
    let done = stage.delta(request_id, delta, now);
    assert(done.screen == screen);
    assert(done.presentation.active->0.accumulated == drawn.accumulated);
    if b.mode is Stream && b.anchored {
        if mirror.region() is Some && !(b.ai_end is Some && (mirror.region()->0).row_above
            != Some(b.ai_end->0.tail)) {
            let region = mirror.region()->0;
            let head = presentation::erasing(region) + b.anchored_lead();
            let tail = vstd::utf8::encode_utf8("\r\n"@) + presentation::restoring(region);
            lemma_piece_added(out, head, body, tail, delta);
            assert(screen.out =~= out + (head + body + tail));
        }
    } else if b.mode is Stream {
        let head = if b.started {
            seq![]
        } else {
            vstd::utf8::encode_utf8(
                presentation::line_lead(stage.screen.session) + presentation::AI_HEADER@,
            )
        };
        lemma_piece_added(out, head, body, seq![], delta);
        assert(screen.out =~= out + (head + body + Seq::<u8>::empty()));
    }
}

proof fn lemma_piece_added(
    out: Seq<u8>,
    head: Seq<u8>,
    body: Seq<u8>,
    tail: Seq<u8>,
    text: Seq<char>,
)
    requires
        line_by_line(body) == line_by_line(vstd::utf8::encode_utf8(text)),
    ensures
        added_holds(out, out + (head + body + tail), text),
{
    let after = out + (head + body + tail);
    assert(out =~= after.subrange(0, out.len() as int));
    let added = after.skip(out.len() as int);
    assert(added =~= head + body + tail);
    let i = head.len() as int;
    assert(added.subrange(i, i + body.len()) =~= body);
}

/// An answer that was put off is shown whole, in one piece, when its response ends, with an
/// error or without, and what was shown before stays before it.
pub proof fn a_block_is_shown_whole_at_the_end(
    stage: Stage,
    error: Option<Seq<char>>,
    now: Moment,
)
    requires
        live_rows_are_lines(stage.screen),
        stage.presentation.active is Some,
        (stage.presentation.active->0).mode is Block,
        (stage.presentation.active->0).accumulated.len() > 0,
        !stage.presentation.aborted.contains((stage.presentation.active->0).request_id),
        error matches Some(message) ==> one_line(message),
    ensures
        ({
            let a = stage.presentation.active->0;
            let done = stage.finished(a.request_id, error, now);
            &&& added_holds(stage.screen.out, done.screen.out, a.accumulated)
            &&& done.presentation.active is None
        }),
{
    let a = stage.presentation.active->0;
    let out = stage.screen.out;
    let added = lemma_closed_added(stage, a, error, now);
    let done = stage.finished(a.request_id, error, now).screen.out;
    assert(done =~= out + added);
    assert(out =~= done.subrange(0, out.len() as int));
    assert(done.skip(out.len() as int) =~= added);
}

/// An error is shown in its own words, whatever was in flight, unless the user withdrew the
/// answer.
pub proof fn an_error_is_shown_in_its_own_words(
    stage: Stage,
    request_id: Seq<char>,
    message: Seq<char>,
    now: Moment,
)
    requires
        !stage.presentation.aborted.contains(request_id),
    ensures
        added_holds(
            stage.screen.out,
            stage.finished(request_id, Some(message), now).screen.out,
            message,
        ),
        !stage.finished(request_id, Some(message), now).presentation.serves(request_id),
{
    let p = stage.presentation;
    let screen = stage.screen;
    let text = presentation::error_text(message);
    if !p.serves(request_id) {
        lemma_notice_holds(screen, message, now.wall);
    } else {
        let a = p.active->0;
        let done = stage.finished(request_id, Some(message), now).screen;
        assert(done == stage.closed(a, Some(message), now));
        if a.mode is Stream && a.anchored {
            lemma_notice_holds(screen, message, now.wall);
        } else if a.mode is Stream {
            let tail = vstd::utf8::encode_utf8("\r\n"@);
            let tailed = if a.started {
                screen.show(tail, now.wall)
            } else {
                screen
            };
            lemma_notice_holds(tailed, message, now.wall);
            let told = tailed.notice(text, now.wall);
            if a.started {
                assert(tailed.out == screen.out + tail);
            } else {
                assert(tailed.out =~= screen.out + Seq::<u8>::empty());
            }
            lemma_added_between(
                screen.out,
                if a.started {
                    tail
                } else {
                    seq![]
                },
                tailed.out,
                told.out,
                a.buffered_pty,
                message,
            );
            assert(done.out == told.out + a.buffered_pty);
        } else {
            let placed = if a.accumulated.len() > 0 {
                screen.block(a.accumulated, now.wall)
            } else {
                screen
            };
            lemma_notice_holds(placed, message, now.wall);
            let block = if a.accumulated.len() > 0 {
                lemma_block_prefix(screen, a.accumulated, now.wall)
            } else {
                seq![]
            };
            assert(placed.out =~= screen.out + block);
            lemma_added_between(
                screen.out,
                block,
                placed.out,
                placed.notice_before(text, now.wall).out,
                seq![],
                message,
            );
            assert(done.out =~= placed.notice_before(text, now.wall).out + Seq::<u8>::empty());
        }
    }
}

proof fn lemma_block_prefix(screen: Screen, answer: Seq<char>, wall: i64) -> (added: Seq<u8>)
    ensures
        screen.block(answer, wall).out == screen.out + added,
{
    let done = screen.block(answer, wall).out;
    let added = done.skip(screen.out.len() as int);
    assert(done =~= screen.out + added);
    added
}

proof fn lemma_added_between(
    before: Seq<u8>,
    first: Seq<u8>,
    middle: Seq<u8>,
    after: Seq<u8>,
    rest: Seq<u8>,
    text: Seq<char>,
)
    requires
        middle == before + first,
        added_holds(middle, after, text),
    ensures
        added_holds(before, after + rest, text),
{
    let added = after.skip(middle.len() as int);
    assert(after =~= middle + added) by {
        assert(middle =~= after.subrange(0, middle.len() as int));
    }
    let all = after + rest;
    assert(before =~= all.subrange(0, before.len() as int));
    lemma_holds_more(added, first, text);
    lemma_holds_more(first + added, rest, text);
    assert(all.skip(before.len() as int) =~= first + added + rest);
}

proof fn lemma_notice_holds(screen: Screen, message: Seq<char>, wall: i64)
    ensures
        ({
            let text = presentation::error_text(message);
            &&& added_holds(screen.out, screen.notice(text, wall).out, message)
            &&& added_holds(screen.out, screen.notice_above(text, wall).out, message)
            &&& added_holds(screen.out, screen.notice_before(text, wall).out, message)
        }),
{
    let text = presentation::error_text(message);
    let line = presentation::notice_line(text);
    let head = "\x1b[2m[koshell] "@ + "AI error: "@;
    let tail = "\x1b[0m\r\n"@;
    let lead = presentation::line_lead(screen.session);
    let body = vstd::utf8::encode_utf8(message);
    assert(line =~= head + message + tail);
    crate::text::lemma_encode_concat(head, message);
    crate::text::lemma_encode_concat(head + message, tail);
    crate::text::lemma_encode_concat(lead, line);
    let bytes = vstd::utf8::encode_utf8(line);
    let h = vstd::utf8::encode_utf8(head);
    let t = vstd::utf8::encode_utf8(tail);
    assert(bytes == h + body + t);
    let l = vstd::utf8::encode_utf8(lead);
    lemma_piece_added(screen.out, l + h, body, t, message);
    assert(l + bytes =~= l + h + body + t);
    assert(screen.notice(text, wall).out == screen.out + (l + h + body + t));
    if let Some(region) = screen.session.mirror.region() {
        let e = presentation::erasing(region);
        let r = presentation::restoring(region);
        lemma_piece_added(screen.out, e + h, body, t + r, message);
        assert(e + bytes + r =~= e + h + body + (t + r));
    }
}

// ---------------------------------------------------------------------------
// When things happen to an answer
// ---------------------------------------------------------------------------

/// The waiting notice is due a second after the dispatch, once, as long as nothing was
/// rendered; the hold ends thirty seconds after it. Before that nothing happens, and
/// nothing happens twice.
pub proof fn an_answer_is_waited_for_so_long(stage: Stage, now: Moment)
    ensures
        ({
            let done = stage.polled(now);
            match stage.presentation.active {
                None => done == stage,
                Some(a) => {
                    let notice = !a.receipt_shown && !a.started && a.accumulated.len() == 0
                        && now.mono >= a.dispatched_at + 1_000;
                    let release = a.mode is Stream && !a.interleaved && !a.anchored && now.mono
                        >= a.dispatched_at + 30_000;
                    &&& !notice && !release ==> done == stage
                    &&& notice || release ==> done.presentation.active->0.receipt_shown
                    &&& release ==> done.presentation.active->0.interleaved
                    &&& !release ==> done.presentation.active->0.interleaved == a.interleaved
                        && done.presentation.held() == stage.presentation.held()
                    &&& done.presentation.active->0.request_id == a.request_id
                    &&& done.presentation.dispatched == stage.presentation.dispatched
                },
            }
        }),
        stage.polled(now).polled(now) == stage.polled(now),
{
    let once = stage.polled(now);
    if let Some(a) = stage.presentation.active {
        let b = once.presentation.active->0;
        assert(!(b.owes_receipt() && now.mono >= b.dispatched_at + 1_000));
        assert(!(b.holding() && now.mono >= b.dispatched_at + 30_000));
        assert(once.receipted(now) == once);
    }
}

/// The next deadline of an answer is that of its waiting notice while that is owed, then
/// the end of its hold, and there is none without either.
pub proof fn an_answers_deadline_is_its_next_event(p: PresentationView, mono: u64)
    ensures
        p.active is None ==> p.deadline(mono) is None,
        p.active matches Some(a) ==> {
            let owed = !a.receipt_shown && !a.started && a.accumulated.len() == 0;
            let holds = a.mode is Stream && !a.interleaved && !a.anchored;
            let at: int = if owed {
                a.dispatched_at + 1_000
            } else {
                a.dispatched_at + 30_000
            };
            &&& p.deadline(mono) is Some <==> owed || holds
            &&& p.deadline(mono) is Some && at > mono && at <= u64::MAX ==> mono
                + p.deadline(mono)->0 == at
            &&& p.deadline(mono) is Some && at <= mono ==> p.deadline(mono)->0 == 0
        },
{
}

/// Output is held back exactly while an answer to an ended command streams at the bottom of
/// the screen, up to a quarter of a megabyte; past that everything held is written at once
/// and what follows is written through. At all other times output is written at once.
pub proof fn output_is_held_for_a_streaming_answer(stage: Stage, visible: Seq<u8>, now: Moment)
    ensures
        ({
            let done = stage.pty(visible, now);
            let held = stage.presentation.held() + visible;
            match stage.presentation.active {
                Some(a) if a.mode is Stream && !a.interleaved && !a.anchored => {
                    &&& held.len() <= 262_144 ==> done.screen == stage.screen
                        && done.presentation.held() == held && !(
                    done.presentation.active->0.interleaved)
                    &&& held.len() > 262_144 ==> done.screen.out == stage.screen.out + held
                        && done.presentation.held().len() == 0
                        && done.presentation.active->0.interleaved
                },
                _ => done.screen.out == stage.screen.out + visible && done.presentation
                    == stage.presentation,
            }
        }),
{
}

/// A request that is handed over begins its response at once where none is in flight:
/// streamed where its command has ended, as a block at the end where it still runs. It is
/// anchored above a prompt that is already there.
pub proof fn a_response_begins_in_its_mode(
    p: PresentationView,
    request_id: Seq<char>,
    still_running: bool,
    session: crate::trigger::SessionView,
    mono: u64,
)
    requires
        p.active is None,
    ensures
        ({
            let a = p.noted(request_id, still_running, session, mono).active->0;
            &&& p.noted(request_id, still_running, session, mono).active is Some
            &&& a.request_id == request_id
            &&& a.mode is Block <==> still_running
            &&& a.anchored <==> !still_running && session.resting_prompt()
            &&& a.began_anchored == a.anchored
            &&& a.dispatched_at == mono
            &&& !a.started && !a.receipt_shown && !a.interleaved
            &&& a.accumulated.len() == 0 && a.buffered_pty.len() == 0
            &&& a.delta_count == 0 && a.first_delta_at is None && a.degrade is None
        }),
{
}

/// A response that was not announced is rendered in the mode of its request; one that no
/// request stands behind is a block, which disturbs nothing.
pub proof fn a_stray_answer_disturbs_nothing(
    stage: Stage,
    request_id: Seq<char>,
    delta: Seq<char>,
    now: Moment,
)
    requires
        !stage.presentation.dispatched.contains_key(request_id),
        !stage.presentation.serves(request_id),
        !stage.presentation.aborted.contains(request_id),
    ensures
        ({
            let done = stage.delta(request_id, delta, now);
            &&& done.screen == stage.screen
            &&& done.presentation.active matches Some(a) && a.mode is Block && a.accumulated
                == delta && a.request_id == request_id
        }),
{
    let p = stage.presentation;
    let a = ActiveView::begun(request_id, p.mode_for(request_id), stage.screen.session, now.mono);
    let done = stage.delta(request_id, delta, now);
    assert(done.presentation.active->0.accumulated =~= delta);
}

/// Every delta is counted, the first one's arrival is kept, and the event that closes a
/// response tells both, with how it ended and how long it took.
pub proof fn a_response_is_accounted_for(
    stage: Stage,
    delta: Seq<char>,
    status: Seq<char>,
    now: Moment,
)
    requires
        stage.presentation.active is Some,
        !stage.presentation.aborted.contains((stage.presentation.active->0).request_id),
        (stage.presentation.active->0).delta_count < u32::MAX,
    ensures
        ({
            let a = stage.presentation.active->0;
            let b = stage.delta(a.request_id, delta, now).presentation.active->0;
            &&& b.delta_count == a.delta_count + 1
            &&& b.first_delta_at == if a.first_delta_at is None {
                Some(now.mono)
            } else {
                a.first_delta_at
            }
            &&& b.dispatched_at == a.dispatched_at
            &&& b.began_anchored == a.began_anchored
            &&& b.mid_stream_input_chunks == a.mid_stream_input_chunks
            &&& b.buffered_pty == a.buffered_pty
            &&& b.end_event(status, now.mono) matches event_log::EventView::ResponseEnd {
                request_id,
                status: said,
                total_ms,
                first_delta_ms,
                delta_count,
                began_anchored,
                degraded_to_block,
                ..
            } && {
                &&& request_id == a.request_id
                &&& said == status
                &&& delta_count == a.delta_count + 1
                &&& began_anchored == a.began_anchored
                &&& degraded_to_block <==> b.degrade is Some
                &&& now.mono >= a.dispatched_at ==> total_ms == now.mono - a.dispatched_at
                &&& first_delta_ms is Some
                &&& b.first_delta_at->0 >= a.dispatched_at ==> first_delta_ms->0
                    == b.first_delta_at->0 - a.dispatched_at
            }
        }),
{
    let a = stage.presentation.active->0;
    let counted = a.counted(now.mono);
    let (drawn, screen) = counted.rendered(delta, stage.screen, now.wall);
    assert(drawn.delta_count == counted.delta_count);
    assert(drawn.first_delta_at == counted.first_delta_at);
}

/// An answer that ends is logged once, as it ended; one that was interrupted likewise.
pub proof fn an_end_is_logged_once(stage: Stage, error: Option<Seq<char>>, now: Moment)
    requires
        stage.presentation.active is Some,
        !stage.presentation.aborted.contains((stage.presentation.active->0).request_id),
    ensures
        ({
            let a = stage.presentation.active->0;
            let log = stage.presentation.log;
            let ended = stage.finished(a.request_id, error, now).presentation;
            let (cut, id) = stage.interrupted(now)->0;
            &&& ended.log == log.emitted(
                a.end_event(
                    if error is Some {
                        "error"@
                    } else {
                        "ok"@
                    },
                    now.mono,
                ),
            )
            &&& ended.active is None
            &&& !ended.dispatched.contains_key(a.request_id)
            &&& stage.interrupted(now) is Some
            &&& id == a.request_id
            &&& cut.presentation.log == log.emitted(a.end_event("interrupted"@, now.mono))
            &&& !cut.presentation.dispatched.contains_key(a.request_id)
        }),
{
}

/// Typing into a streaming answer is counted, chunk by chunk; typing beside a block is not.
pub proof fn typing_into_a_stream_is_counted(p: PresentationView)
    ensures
        p.active is None ==> p.typed_into() == p,
        p.active matches Some(a) ==> p.typed_into() == (PresentationView {
            active: Some(
                ActiveView {
                    mid_stream_input_chunks: a.mid_stream_input_chunks + if a.mode is Stream {
                        1nat
                    } else {
                        0
                    },
                    ..a
                },
            ),
            ..p
        }),
{
}

/// What is inserted above a live input line leaves that line last, written out as it was.
pub proof fn an_insertion_leaves_the_live_line_last(
    screen: Screen,
    text: Seq<char>,
    answer: Seq<char>,
    wall: i64,
)
    requires
        screen.session.resting_prompt(),
        screen.session.mirror.region() is Some,
    ensures
        ({
            let region = screen.session.mirror.region()->0;
            let live = presentation::restoring(region);
            &&& live.is_suffix_of(screen.notice_before(text, wall).out)
            &&& live.is_suffix_of(screen.notice_above(text, wall).out)
            &&& live.is_suffix_of(screen.block(answer, wall).out)
            &&& presentation::joined_rows(region.styled_rows).is_prefix_of(live)
        }),
{
    let region = screen.session.mirror.region()->0;
    let live = presentation::restoring(region);
    let rows = presentation::joined_rows(region.styled_rows);
    assert(rows =~= live.subrange(0, rows.len() as int));
    let noticed = screen.notice_above(text, wall).out;
    assert(live =~= noticed.subrange(noticed.len() - live.len(), noticed.len() as int));
    let placed = screen.block(answer, wall).out;
    assert(live =~= placed.subrange(placed.len() - live.len(), placed.len() as int));
}

/// A notice stands on a line of its own: behind text it starts a new one, and where the
/// cursor is at the start of an empty row it starts there. It is dim, says whose it is and
/// ends its line.
pub proof fn a_notice_stands_on_its_own_line(screen: Screen, said: Seq<char>, wall: i64)
    ensures
        ({
            let line = "\x1b[2m[koshell] "@ + said + "\x1b[0m\r\n"@;
            let free = screen.session.mirror.cursor().column == 0
                && screen.session.mirror.cursor_text().len() == 0;
            &&& free ==> screen.notice(said, wall).out == screen.out + vstd::utf8::encode_utf8(line)
            &&& !free ==> screen.notice(said, wall).out == screen.out + vstd::utf8::encode_utf8(
                "\r\n"@ + line,
            )
        }),
{
    let line = "\x1b[2m[koshell] "@ + said + "\x1b[0m\r\n"@;
    assert(Seq::<char>::empty() + line =~= line);
}

/// A live region is erased from its last row up: a single row in its place, and one row up
/// for every further one.
pub proof fn a_region_is_erased_row_by_row(
    region: crate::mirror::LiveRegionView,
    taller: crate::mirror::LiveRegionView,
)
    requires
        region.styled_rows.len() >= 1,
        taller.styled_rows.len() == region.styled_rows.len() + 1,
    ensures
        region.styled_rows.len() == 1 ==> presentation::erasing(region)
            == vstd::utf8::encode_utf8("\r\x1b[K"@),
        presentation::erasing(taller) == presentation::erasing(region) + vstd::utf8::encode_utf8(
            "\x1b[A\x1b[K"@,
        ),
{
    let up = vstd::utf8::encode_utf8("\x1b[A\x1b[K"@);
    let first = vstd::utf8::encode_utf8("\r\x1b[K"@);
    let n = (region.styled_rows.len() - 1) as nat;
    let before = presentation::repeated(up, n);
    assert(presentation::repeated(up, n + 1) == before + up);
    assert(first + (before + up) =~= first + before + up);
    assert(presentation::repeated(up, 0) =~= Seq::<u8>::empty());
    assert(first + Seq::<u8>::empty() =~= first);
}

/// The cursor is put back on its column: over spaces where it lies behind the text, and by
/// a movement to that column, counted from one, where it lies within.
pub proof fn the_cursor_is_put_back(region: crate::mirror::LiveRegionView)
    ensures
        ({
            let rows = presentation::joined_rows(region.styled_rows);
            let back = presentation::restoring(region);
            let col = region.cursor_col as int;
            let taken = region.last_row_columns as int;
            &&& rows.is_prefix_of(back)
            &&& col < taken && !region.needs_wrap ==> back.skip(rows.len() as int)
                == vstd::utf8::encode_utf8(
                "\x1b["@ + crate::text::decimal((col + 1) as nat) + "G"@,
            )
            &&& col > taken ==> back.skip(rows.len() as int) == presentation::repeated(
                vstd::utf8::encode_utf8(" "@),
                (col - taken) as nat,
            )
            &&& col == taken ==> back == rows
        }),
{
    let rows = presentation::joined_rows(region.styled_rows);
    let back = presentation::restoring(region);
    let moved = presentation::realigned(presentation::realigning(region));
    assert(back == rows + moved);
    assert(rows =~= back.subrange(0, rows.len() as int));
    assert(back.skip(rows.len() as int) =~= moved);
    assert(rows + Seq::<u8>::empty() =~= rows);
}

/// Where the row that the cursor rests on is exactly full and the next character wraps,
/// the live line is written again and left so: no movement follows that would undo it.
pub proof fn a_full_row_is_left_as_written(region: crate::mirror::LiveRegionView)
    requires
        region.needs_wrap,
        region.cursor_col <= region.last_row_columns,
    ensures
        presentation::restoring(region) == presentation::joined_rows(region.styled_rows),
{
    let rows = presentation::joined_rows(region.styled_rows);
    assert(rows + Seq::<u8>::empty() =~= rows);
}

/// The first delta of an answer stands under the header: streamed, on a line of its own, and
/// above a live input line, in the place of that line, which is written again below it.
pub proof fn a_first_delta_is_headed(stage: Stage, delta: Seq<char>, now: Moment)
    requires
        stage.presentation.active is Some,
        (stage.presentation.active->0).mode is Stream,
        !stage.presentation.aborted.contains((stage.presentation.active->0).request_id),
        !(stage.presentation.active->0).started,
        (stage.presentation.active->0).ai_end is None,
    ensures
        ({
            let a = stage.presentation.active->0;
            let header = "\x1b[2m[koshell ai]\x1b[0m\r\n"@;
            let body = presentation::normalized(vstd::utf8::encode_utf8(delta), a.last_was_cr);
            let out = stage.delta(a.request_id, delta, now).screen.out;
            let free = stage.screen.session.at_line_start();
            &&& !a.anchored && free ==> out == stage.screen.out + vstd::utf8::encode_utf8(header)
                + body
            &&& !a.anchored && !free ==> out == stage.screen.out + vstd::utf8::encode_utf8(
                "\r\n"@ + header,
            ) + body
            &&& a.anchored ==> (stage.screen.session.mirror.region() matches Some(region) ==> out
                == stage.screen.out + (presentation::erasing(region) + vstd::utf8::encode_utf8(
                header,
            ) + body) + (vstd::utf8::encode_utf8("\r\n"@) + presentation::restoring(region)))
        }),
{
    let header = "\x1b[2m[koshell ai]\x1b[0m\r\n"@;
    assert(Seq::<char>::empty() + header =~= header);
}

/// A later delta above a live input line goes on where the answer left off: one row up and
/// behind its last column, or at once where that row is exactly full. Where the row above
/// the live line is no longer the answer's, or there is no live line, it is kept for a
/// block instead.
pub proof fn a_later_delta_goes_on_behind_the_last(
    a: ActiveView,
    screen: Screen,
    delta: Seq<char>,
    wall: i64,
)
    requires
        a.mode is Stream,
        a.anchored,
        a.ai_end is Some,
    ensures
        ({
            let end = a.ai_end->0;
            let (then, shown) = a.rendered(delta, screen, wall);
            let body = presentation::normalized(vstd::utf8::encode_utf8(delta), a.last_was_cr);
            let moved = if end.needs_wrap {
                Seq::<u8>::empty()
            } else {
                vstd::utf8::encode_utf8(
                    "\x1b[A\x1b["@ + crate::text::decimal((end.col + 1) as nat) + "G"@,
                )
            };
            match screen.session.mirror.region() {
                Some(region) => if region.row_above == Some(end.tail) {
                    &&& shown.out == screen.out + (presentation::erasing(region) + moved + body) + (
                    vstd::utf8::encode_utf8("\r\n"@) + presentation::restoring(region))
                    &&& then.mode is Stream
                    &&& then.anchored
                } else {
                    &&& shown == screen
                    &&& then.mode is Block
                    &&& then.accumulated == a.accumulated + delta
                    &&& then.degrade == Some(presentation::Degrade::TailMismatch)
                },
                None => {
                    &&& shown == screen
                    &&& then.mode is Block
                    &&& then.accumulated == a.accumulated + delta
                    &&& then.degrade == Some(presentation::Degrade::LiveRegionUnavailable)
                },
            }
        }),
{
}

/// The first delta is logged with its delay and its mode, and a change to a block with its
/// reason; neither a second time.
pub proof fn a_first_delta_and_a_change_are_logged(
    a: ActiveView,
    log: crate::event_log::LogView,
    mono: u64,
)
    ensures
        a.first_delta_at is Some ==> a.first_noted(log, mono) == log,
        a.first_delta_at is None ==> a.first_noted(log, mono) == log.emitted(
            crate::event_log::EventView::FirstDelta {
                request_id: a.request_id,
                dispatch_to_first_delta_ms: if mono > a.dispatched_at {
                    (mono - a.dispatched_at) as u64
                } else {
                    0
                },
                mode: if a.mode is Stream {
                    "stream"@
                } else {
                    "block"@
                },
                anchored: a.anchored,
            },
        ),
        a.degrade is None || a.degrade_emitted ==> a.degrade_noted(log, mono) == (a, log),
        a.degrade is Some && !a.degrade_emitted ==> {
            let (then, noted) = a.degrade_noted(log, mono);
            &&& then.degrade_emitted
            &&& noted == log.emitted(
                crate::event_log::EventView::DegradeToBlock {
                    request_id: a.request_id,
                    reason: if a.degrade == Some(presentation::Degrade::TailMismatch) {
                        "tail_mismatch"@
                    } else {
                        "live_region_unavailable"@
                    },
                    ms_since_dispatch: if mono > a.dispatched_at {
                        (mono - a.dispatched_at) as u64
                    } else {
                        0
                    },
                    deltas_so_far: a.delta_count as u32,
                },
            )
        },
{
}

} // verus!
