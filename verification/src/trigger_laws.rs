//! What holds of every session, across its operations.

use crate::clock;
use crate::clock::Moment;
use crate::command_history;
use crate::json;
use crate::markers;
use crate::mirror::Step;
use crate::question;
use crate::text;
use crate::timeline;
use crate::trigger::{
    ActionView, CompletionKind, PendingOrigin, PendingView, RestingShape, SessionView, Settled,
};
use vstd::prelude::*;

verus! {

/// Polling loses no question: each one fires or keeps waiting.
pub proof fn polling_loses_no_question(
    s: SessionView,
    pending: Seq<PendingView>,
    now: Moment,
)
    ensures
        s.settle(pending, now).fires.len() + s.settle(pending, now).kept.len() == pending.len(),
    decreases pending.len(),
{
    if pending.len() > 0 {
        polling_loses_no_question(s, pending.drop_last(), now);
    }
}

/// What keeps waiting after a poll is neither due nor owed a receipt. In particular no
/// question waits longer than its longest wait.
pub proof fn nothing_due_keeps_waiting(s: SessionView, now: Moment, i: int)
    requires
        !s.mirror.alternate(),
        0 <= i < s.polled(now).0.pending.len(),
    ensures
        ({
            let q = s.polled(now).0.pending[i];
            &&& s.due(q, now.mono) is None
            &&& clock::elapsed(q.submitted_at, now.mono) < crate::trigger::longest_wait(q.origin)
            &&& !SessionView::owed_receipt(q, now.mono)
        }),
{
    lemma_kept_not_due(s, s.pending, now, i);
}

proof fn lemma_kept_not_due(
    s: SessionView,
    pending: Seq<PendingView>,
    now: Moment,
    i: int,
)
    requires
        0 <= i < s.settle(pending, now).kept.len(),
    ensures
        s.due(s.settle(pending, now).kept[i], now.mono) is None,
        !SessionView::owed_receipt(s.settle(pending, now).kept[i], now.mono),
    decreases pending.len(),
{
    if pending.len() > 0 {
        let before = s.settle(pending.drop_last(), now);
        if i < before.kept.len() {
            lemma_kept_not_due(s, pending.drop_last(), now, i);
        } else {
            let p = pending.last();
            let q = PendingView { receipt_notified: true, ..p };
            assert(s.due(q, now.mono) == s.due(p, now.mono));
        }
    }
}

/// A fire leaves the screen, the clock and the command as they are, so it hastens no
/// other question.
proof fn lemma_settle_frame(
    s: SessionView,
    pending: Seq<PendingView>,
    now: Moment,
)
    ensures
        s.settle(pending, now).state.mirror == s.mirror,
        s.settle(pending, now).state.last_output_at == s.last_output_at,
        s.settle(pending, now).state.command_active == s.command_active,
        s.settle(pending, now).state.pending == s.pending,
    decreases pending.len(),
{
    if pending.len() > 0 {
        lemma_settle_frame(s, pending.drop_last(), now);
    }
}

proof fn lemma_settled_stay(
    s: SessionView,
    pending: Seq<PendingView>,
    now: Moment,
)
    requires
        forall|i: int|
            0 <= i < pending.len() ==> s.due(#[trigger] pending[i], now.mono) is None
                && !SessionView::owed_receipt(pending[i], now.mono),
    ensures
        s.settle(pending, now) == (Settled {
            state: s,
            kept: pending,
            fires: seq![],
            notices: seq![],
        }),
    decreases pending.len(),
{
    if pending.len() > 0 {
        let init = pending.drop_last();
        assert forall|i: int| 0 <= i < init.len() implies s.due(#[trigger] init[i], now.mono) is None
            && !SessionView::owed_receipt(init[i], now.mono) by {
            assert(init[i] == pending[i]);
        }
        lemma_settled_stay(s, init, now);
        assert(pending.last() == pending[pending.len() - 1]);
        assert(init.push(pending.last()) =~= pending);
    }
}

/// Polling a second time at the same instant does nothing more: every fire and every
/// receipt is given once.
pub proof fn polling_twice_does_nothing_more(s: SessionView, now: Moment)
    ensures
        s.polled(now).0.polled(now) == (s.polled(now).0, Seq::<ActionView>::empty()),
{
    let once = s.polled(now).0;
    if s.esc_cancellable() {
        let r = s.settle(s.pending, now);
        lemma_settle_frame(s, s.pending, now);
        assert(once.shape() == s.shape());
        assert forall|i: int| 0 <= i < once.pending.len() implies once.due(
            #[trigger] once.pending[i],
            now.mono,
        ) is None && !SessionView::owed_receipt(once.pending[i], now.mono) by {
            lemma_kept_not_due(s, s.pending, now, i);
            assert(once.due(once.pending[i], now.mono) == s.due(once.pending[i], now.mono));
        }
        lemma_settled_stay(once, once.pending, now);
        assert(once.polled(now).1 =~= Seq::<ActionView>::empty());
    }
}

/// The alternate screen suspends everything: keys mean nothing, no question is
/// withdrawn, no deadline runs and no question fires by the clock.
pub proof fn the_alternate_screen_suspends_everything(
    s: SessionView,
    keys: Seq<u8>,
    now: Moment,
)
    requires
        s.mirror.alternate(),
    ensures
        s.typed(keys, now.mono) == (s, Seq::<ActionView>::empty()),
        s.withdrawn() is None,
        s.deadline(now.mono) is None,
        s.polled(now) == (s, Seq::<ActionView>::empty()),
    decreases keys.len(),
{
    if keys.len() > 0 {
        the_alternate_screen_suspends_everything(s, keys.drop_last(), now);
    }
}

/// At the integrated shell prompt the markers own `#?`: whatever the screen shows, keys
/// other than an interrupt ask nothing.
pub proof fn the_integrated_prompt_captures_nothing(
    s: SessionView,
    keys: Seq<u8>,
    mono: u64,
)
    requires
        s.shell_integrated,
        !s.command_active,
        forall|i: int| 0 <= i < keys.len() ==> #[trigger] keys[i] != 0x03,
    ensures
        s.typed(keys, mono) == (s, Seq::<ActionView>::empty()),
    decreases keys.len(),
{
    if keys.len() > 0 {
        let init = keys.drop_last();
        assert forall|i: int| 0 <= i < init.len() implies #[trigger] init[i] != 0x03 by {
            assert(init[i] == keys[i]);
        }
        the_integrated_prompt_captures_nothing(s, init, mono);
        assert(keys[keys.len() - 1] != 0x03);
    }
}

/// Repeated Enters without output in between ask once.
pub proof fn repeated_enters_ask_once(s: SessionView, keys: Seq<u8>, mono: u64)
    requires
        s.captured_since_output,
        forall|i: int| 0 <= i < keys.len() ==> #[trigger] keys[i] != 0x03,
    ensures
        s.typed(keys, mono) == (s, Seq::<ActionView>::empty()),
    decreases keys.len(),
{
    if keys.len() > 0 {
        let init = keys.drop_last();
        assert forall|i: int| 0 <= i < init.len() implies #[trigger] init[i] != 0x03 by {
            assert(init[i] == keys[i]);
        }
        repeated_enters_ask_once(s, init, mono);
        assert(keys[keys.len() - 1] != 0x03);
    }
}

/// A user-typed interrupt withdraws every pending question, each with its own notice.
/// The interrupted command's end then fires nothing.
pub proof fn an_interrupt_withdraws_every_question(
    s: SessionView,
    m: markers::MarkerView,
    typed_at: u64,
    now: Moment,
)
    requires
        !s.mirror.alternate(),
    ensures
        ({
            let (after, actions) = s.typed(seq![0x03u8], typed_at);
            &&& after.pending.len() == 0
            &&& actions == crate::trigger::interrupted_notices(s.pending)
            &&& s.command_active ==> after.ended(m, now).1.len() == 0
        }),
{
    let keys = seq![0x03u8];
    assert(keys.drop_last() =~= Seq::<u8>::empty());
    assert(s.typed(keys.drop_last(), typed_at) == (s, Seq::<ActionView>::empty()));
    assert(s.typed(keys, typed_at).1 =~= crate::trigger::interrupted_notices(s.pending));
}

/// A question of the running command's own line that fired by the clock does not fire
/// again when the command ends.
pub proof fn a_span_question_fires_once(
    s: SessionView,
    m: markers::MarkerView,
    now: Moment,
    later: Moment,
)
    requires
        !s.mirror.alternate(),
        s.command_active,
        s.pending.len() == 1,
        s.pending[0].origin is PromptLine,
        s.due(s.pending[0], now.mono) is Some,
    ensures
        s.polled(now).1.len() == 1,
        s.polled(now).0.pending.len() == 0,
        s.polled(now).0.ended(m, later).1.len() == 0,
{
    assert(s.pending.drop_last() =~= Seq::<PendingView>::empty());
    assert(s.pending.last() == s.pending[0]);
    let none = s.settle(s.pending.drop_last(), now);
    assert(none.kept.len() == 0 && none.fires.len() == 0 && none.notices.len() == 0);
}

/// The end of a command fires every pending question at once.
pub proof fn a_command_end_fires_every_question(
    s: SessionView,
    m: markers::MarkerView,
    now: Moment,
)
    requires
        s.pending.len() > 0,
    ensures
        s.ended(m, now).1.len() == s.pending.len(),
        s.ended(m, now).0.pending.len() == 0,
{
    lemma_all_fired_count(
        SessionView {
            next_command_id: s.next_command_id + 1,
            command_active: false,
            history: if m.executed {
                s.history.ended(m.exit_code, now.wall)
            } else {
                s.history
            },
            ..s.logged(
                crate::timeline::EventView::CommandEnd {
                    command_id: s.command_id(),
                    command: match m.command {
                        Some(c) => c,
                        None => seq![],
                    },
                    exit_code: m.exit_code,
                    duration_ms: None,
                },
                now.wall,
            )
        },
        s.pending,
        m.exit_code,
        now.wall,
    );
}

proof fn lemma_all_fired_count(
    s: SessionView,
    pending: Seq<PendingView>,
    exit_code: Option<i32>,
    wall: i64,
)
    ensures
        s.all_fired(pending, exit_code, wall).1.len() == pending.len(),
    decreases pending.len(),
{
    if pending.len() > 0 {
        lemma_all_fired_count(s, pending.drop_last(), exit_code, wall);
    }
}

/// Presentation output is not terminal output: it withdraws no question, delays none,
/// re-arms no capture, and reaches no command's recorded output.
pub proof fn presentation_output_delays_nothing(s: SessionView, bytes: Seq<u8>, wall: i64)
    ensures
        ({
            let after = s.presented(bytes, wall);
            &&& after.pending == s.pending
            &&& after.last_output_at == s.last_output_at
            &&& after.captured_since_output == s.captured_since_output
            &&& after.history == s.history
        }),
{
}

/// Before the nearest deadline a poll does nothing, and at it something happens: the
/// session never wakes too late, nor for nothing.
pub proof fn the_nearest_deadline_is_exact(s: SessionView, now: Moment)
    requires
        s.esc_cancellable(),
    ensures
        s.nearest(s.pending) is Some,
        now.mono < s.nearest(s.pending)->0 ==> s.polled(now) == (
            s,
            Seq::<ActionView>::empty(),
        ),
        now.mono >= s.nearest(s.pending)->0 ==> s.polled(now).1.len() > 0,
{
    lemma_nearest(s, s.pending, now);
    if now.mono < s.nearest(s.pending)->0 {
        lemma_settled_stay(s, s.pending, now);
        assert(s.polled(now).1 =~= Seq::<ActionView>::empty());
    }
}

proof fn lemma_nearest(s: SessionView, pending: Seq<PendingView>, now: Moment)
    requires
        pending.len() > 0,
    ensures
        s.nearest(pending) is Some,
        now.mono < s.nearest(pending)->0 ==> forall|i: int|
            0 <= i < pending.len() ==> s.due(#[trigger] pending[i], now.mono) is None
                && !SessionView::owed_receipt(pending[i], now.mono),
        now.mono >= s.nearest(pending)->0 ==> s.settle(pending, now).fires.len() + s.settle(
            pending,
            now,
        ).notices.len() > 0,
    decreases pending.len(),
{
    let init = pending.drop_last();
    let p = pending.last();
    assert(pending[pending.len() - 1] == p);
    if init.len() > 0 {
        lemma_nearest(s, init, now);
        if now.mono < s.nearest(pending)->0 {
            assert forall|i: int| 0 <= i < pending.len() implies s.due(
                #[trigger] pending[i],
                now.mono,
            ) is None && !SessionView::owed_receipt(pending[i], now.mono) by {
                if i < init.len() {
                    assert(init[i] == pending[i]);
                }
            }
        }
    } else {
        assert(s.nearest(init) is None);
    }
}

// ---------------------------------------------------------------------------
// A question that was withdrawn
// ---------------------------------------------------------------------------

/// Something that happens while a command runs, other than a new question or the command's
/// own end.
pub enum Happening {
    Output { bytes: Seq<u8>, now: Moment },
    Shown { bytes: Seq<u8>, wall: i64 },
    Resized { columns: u16, rows: u16, wall: i64 },
    Polled { now: Moment },
    Typed { keys: Seq<u8>, mono: u64 },
    Moved { cwd: Seq<char> },
}

/// A session after it.
pub open spec fn happened(s: SessionView, h: Happening) -> SessionView {
    match h {
        Happening::Output { bytes, now } => s.output(bytes, now),
        Happening::Shown { bytes, wall } => s.presented(bytes, wall),
        Happening::Resized { columns, rows, wall } => s.resized(columns, rows, wall),
        Happening::Polled { now } => s.polled(now).0,
        Happening::Typed { keys, mono } => s.typed(keys, mono).0,
        Happening::Moved { cwd } => SessionView { cwd: Some(cwd), ..s },
    }
}

/// A session after some of them.
pub open spec fn after(s: SessionView, events: Seq<Happening>) -> SessionView
    decreases events.len(),
{
    if events.len() == 0 {
        s
    } else {
        happened(after(s, events.drop_last()), events.last())
    }
}

/// Whether no Enter is typed in some of them.
pub open spec fn without_enter(events: Seq<Happening>) -> bool {
    forall|i: int|
        0 <= i < events.len() ==> (#[trigger] events[i] matches Happening::Typed { keys, .. }
            ==> forall|k: int| 0 <= k < keys.len() ==> #[trigger] keys[k] != 0x0d && keys[k] != 0x0a)
}

/// Nothing waits, and the running command's own line has had its turn.
spec fn spent(s: SessionView) -> bool {
    s.command_active && s.pending.len() == 0 && s.span_settled
}

proof fn lemma_typed_spent(s: SessionView, keys: Seq<u8>, mono: u64)
    requires
        spent(s),
        forall|k: int| 0 <= k < keys.len() ==> #[trigger] keys[k] != 0x0d && keys[k] != 0x0a,
    ensures
        spent(s.typed(keys, mono).0),
    decreases keys.len(),
{
    if keys.len() > 0 {
        let init = keys.drop_last();
        assert forall|k: int| 0 <= k < init.len() implies #[trigger] init[k] != 0x0d && init[k]
            != 0x0a by {
            assert(init[k] == keys[k]);
        }
        lemma_typed_spent(s, init, mono);
        assert(keys[keys.len() - 1] != 0x0d);
    }
}

proof fn lemma_after_spent(s: SessionView, events: Seq<Happening>)
    requires
        spent(s),
        without_enter(events),
    ensures
        spent(after(s, events)),
    decreases events.len(),
{
    if events.len() > 0 {
        let init = events.drop_last();
        assert forall|i: int| 0 <= i < init.len() implies (
        #[trigger] init[i] matches Happening::Typed { keys, .. } ==> forall|k: int|
            0 <= k < keys.len() ==> #[trigger] keys[k] != 0x0d && keys[k] != 0x0a) by {
            assert(init[i] == events[i]);
        }
        lemma_after_spent(s, init);
        let before = after(s, init);
        let last = events[events.len() - 1];
        assert(last == events.last());
        match last {
            Happening::Typed { keys, mono } => lemma_typed_spent(before, keys, mono),
            _ => {},
        }
    }
}

/// A question of the running command's line that Esc withdrew is never sent: whatever
/// happens until the command ends, short of a new question, the end fires nothing.
pub proof fn a_withdrawn_question_never_fires(
    s: SessionView,
    events: Seq<Happening>,
    m: markers::MarkerView,
    now: Moment,
)
    requires
        !s.mirror.alternate(),
        s.command_active,
        s.pending.len() == 1,
        s.pending[0].origin is PromptLine,
        without_enter(events),
    ensures
        s.withdrawn() is Some,
        ({
            let (left, _) = s.withdrawn()->0;
            &&& left.ended(m, now).1.len() == 0
            &&& after(left, events).ended(m, now).1.len() == 0
        }),
{
    let (left, _) = s.withdrawn()->0;
    lemma_after_spent(left, events);
}

/// The same of an interrupt: it withdraws the running command's question for good.
pub proof fn an_interrupted_question_never_fires(
    s: SessionView,
    typed_at: u64,
    events: Seq<Happening>,
    m: markers::MarkerView,
    now: Moment,
)
    requires
        !s.mirror.alternate(),
        s.command_active,
        without_enter(events),
    ensures
        after(s.typed(seq![0x03u8], typed_at).0, events).ended(m, now).1.len() == 0,
{
    let keys = seq![0x03u8];
    assert(keys.drop_last() =~= Seq::<u8>::empty());
    assert(s.typed(keys.drop_last(), typed_at).0 == s);
    lemma_after_spent(s.typed(keys, typed_at).0, events);
}

/// Esc withdraws the most recent question alone: the others wait on unchanged, the notice
/// names the withdrawn one, and nothing else of the session changes. With no question
/// waiting there is nothing to withdraw.
pub proof fn esc_withdraws_the_most_recent_question(s: SessionView)
    requires
        !s.mirror.alternate(),
    ensures
        s.pending.len() == 0 ==> s.withdrawn() is None,
        s.pending.len() > 0 ==> {
            let (left, notice) = s.withdrawn()->0;
            &&& s.withdrawn() is Some
            &&& left.pending.len() == s.pending.len() - 1
            &&& forall|i: int|
                0 <= i < left.pending.len() ==> #[trigger] left.pending[i] == s.pending[i]
            &&& notice == ActionView::Notice("#? cancelled: "@ + s.pending.last().question)
            &&& left == (SessionView {
                pending: left.pending,
                span_settled: left.span_settled,
                ..s
            })
        },
{
}

/// Withdrawing a question that was asked inside the running program leaves the question of
/// the command's own line to fire at the command's end.
pub proof fn withdrawing_an_inner_question_leaves_the_commands_own(
    s: SessionView,
    m: markers::MarkerView,
    now: Moment,
)
    requires
        !s.mirror.alternate(),
        s.command_active,
        !s.span_settled,
        s.pending.len() == 1,
        s.pending[0].origin is InProgram,
        m.command is Some,
        question::split(m.command->0) is Some,
    ensures
        ({
            let (left, _) = s.withdrawn()->0;
            let (_, actions) = left.ended(m, now);
            &&& actions.len() == 1
            &&& actions[0] matches ActionView::Fire(t) && t.question == (question::split(
                m.command->0,
            )->0).1
        }),
{
    let (left, _) = s.withdrawn()->0;
    assert(left.pending =~= Seq::<PendingView>::empty());
    lemma_one_fired(left, m, now);
}

proof fn lemma_one_fired(s: SessionView, m: markers::MarkerView, now: Moment)
    requires
        s.pending.len() == 0,
        !s.span_settled,
        m.command is Some,
        question::split(m.command->0) is Some,
    ensures
        ({
            let actions = s.ended(m, now).1;
            &&& actions.len() == 1
            &&& actions[0] matches ActionView::Fire(t) && t.question == (question::split(
                m.command->0,
            )->0).1 && t.completion is CommandEnd && !t.still_running
        }),
{
    let parts = question::split(m.command->0)->0;
    let p = PendingView {
        question: parts.1,
        form: question::form_of(parts.0),
        origin: PendingOrigin::PromptLine,
        submitted_at: now.mono,
        receipt_notified: false,
    };
    let one = s.pending.push(p);
    assert(one.drop_last() =~= Seq::<PendingView>::empty());
    let told = told_end(s, m, now);
    assert(told.all_fired(one.drop_last(), m.exit_code, now.wall) == (
        told,
        Seq::<ActionView>::empty(),
    ));
    assert(s.ended(m, now).1 == told.all_fired(one, m.exit_code, now.wall).1);
}

/// The session once a command's end is recorded and before anything fires.
spec fn told_end(s: SessionView, m: markers::MarkerView, now: Moment) -> SessionView {
    SessionView {
        next_command_id: s.next_command_id + 1,
        command_active: false,
        history: if m.executed {
            s.history.ended(m.exit_code, now.wall)
        } else {
            s.history
        },
        ..s.logged(
            timeline::EventView::CommandEnd {
                command_id: s.command_id(),
                command: match m.command {
                    Some(c) => c,
                    None => seq![],
                },
                exit_code: m.exit_code,
                duration_ms: None,
            },
            now.wall,
        )
    }
}

// ---------------------------------------------------------------------------
// What fires
// ---------------------------------------------------------------------------

/// Whether an action sends a question, and how it says the question was completed.
pub open spec fn sends(
    action: ActionView,
    p: PendingView,
    completion: CompletionKind,
    exit_code: Option<i32>,
    still_running: bool,
) -> bool {
    action matches ActionView::Fire(t) && {
        let package = t.context_package;
        let told = package.get("trigger"@)->0;
        &&& t.question == p.question
        &&& t.completion == completion
        &&& t.still_running == still_running
        &&& t.submitted_at == p.submitted_at
        &&& package.get("question"@) == Some(json::JsonView::Text(p.question))
        &&& package.get("trigger"@) is Some
        &&& told.get("stillRunning"@) == Some(json::JsonView::Bool(still_running))
        &&& told.get("exitCode"@) == crate::context_laws::number_field(
            match exit_code {
                Some(n) => Some(n as int),
                None => None,
            },
        )
    }
}

proof fn lemma_fired_sends(
    s: SessionView,
    p: PendingView,
    completion: CompletionKind,
    exit_code: Option<i32>,
    still_running: bool,
    wall: i64,
)
    ensures
        sends(
            s.fired(p, completion, exit_code, still_running, wall).1,
            p,
            completion,
            exit_code,
            still_running,
        ),
{
    crate::context_laws::a_package_is_read_back_field_by_field(
        p.question,
        p.form,
        completion,
        exit_code,
        still_running,
        crate::context::context_of(s.timeline.entries, crate::trigger::default_budgets()),
    );
}

/// A question that fires carries the terminal as it is recorded by then, under the default
/// budgets, and is recorded itself.
pub proof fn a_question_carries_what_was_recorded(
    s: SessionView,
    p: PendingView,
    completion: CompletionKind,
    exit_code: Option<i32>,
    still_running: bool,
    wall: i64,
)
    ensures
        ({
            let (after, action) = s.fired(p, completion, exit_code, still_running, wall);
            let options = crate::context::TerminalContextOptions {
                recent_input_max_characters: None,
                recent_pty_output_max_characters: None,
                recent_visible_output_max_characters: None,
                current_screen_max_characters: None,
                recent_screen_changes_limit: None,
            };
            &&& sends(action, p, completion, exit_code, still_running)
            &&& action matches ActionView::Fire(t) && t.context_package.get("dynamicContext"@)
                == Some(
                crate::context::context_object(
                    crate::context::context_of(s.timeline.entries, options),
                ),
            )
            &&& exists|id: Seq<char>|
                after.timeline == #[trigger] s.timeline.recorded(
                    timeline::EventView::AiRequest { request_id: id, question: p.question },
                    wall,
                    wall,
                )
            &&& after == (SessionView {
                timeline: after.timeline,
                next_command_id: after.next_command_id,
                ..s
            })
        }),
{
    lemma_fired_sends(s, p, completion, exit_code, still_running, wall);
    crate::context_laws::a_package_is_read_back_field_by_field(
        p.question,
        p.form,
        completion,
        exit_code,
        still_running,
        crate::context::context_of(s.timeline.entries, crate::trigger::default_budgets()),
    );
}

/// The end of a command sends every waiting question, in the order they were asked, with
/// the command's exit code, and none of them is called still running.
pub proof fn a_command_end_sends_the_questions_in_order(
    s: SessionView,
    m: markers::MarkerView,
    now: Moment,
    i: int,
)
    requires
        0 <= i < s.pending.len(),
    ensures
        s.ended(m, now).1.len() == s.pending.len(),
        sends(
            s.ended(m, now).1[i],
            s.pending[i],
            CompletionKind::CommandEnd,
            m.exit_code,
            false,
        ),
        s.ended(m, now).0.pending.len() == 0,
        !s.ended(m, now).0.command_active,
{
    let told = told_end(s, m, now);
    assert(s.ended(m, now).1 == told.all_fired(s.pending, m.exit_code, now.wall).1);
    lemma_all_fired_sends(told, s.pending, m.exit_code, now.wall, i);
    lemma_all_fired_history(told, s.pending, m.exit_code, now.wall);
}

proof fn lemma_all_fired_sends(
    s: SessionView,
    pending: Seq<PendingView>,
    exit_code: Option<i32>,
    wall: i64,
    i: int,
)
    requires
        0 <= i < pending.len(),
    ensures
        s.all_fired(pending, exit_code, wall).1.len() == pending.len(),
        sends(
            s.all_fired(pending, exit_code, wall).1[i],
            pending[i],
            CompletionKind::CommandEnd,
            exit_code,
            false,
        ),
    decreases pending.len(),
{
    let init = pending.drop_last();
    let (state, actions) = s.all_fired(init, exit_code, wall);
    lemma_all_fired_count(s, init, exit_code, wall);
    if i < init.len() {
        lemma_all_fired_sends(s, init, exit_code, wall, i);
        assert(init[i] == pending[i]);
    } else {
        lemma_fired_sends(
            state,
            pending.last(),
            CompletionKind::CommandEnd,
            exit_code,
            false,
            wall,
        );
    }
}

/// A command whose line holds a question that was not asked before sends it at its end,
/// once; a line without one sends nothing.
pub proof fn a_command_end_asks_its_own_question(
    s: SessionView,
    m: markers::MarkerView,
    now: Moment,
)
    requires
        s.pending.len() == 0,
        !s.span_settled,
    ensures
        m.command is None ==> s.ended(m, now).1.len() == 0,
        m.command is Some && question::split(m.command->0) is None ==> s.ended(m, now).1.len()
            == 0,
        m.command is Some && question::split(m.command->0) is Some ==> {
            let actions = s.ended(m, now).1;
            &&& actions.len() == 1
            &&& actions[0] matches ActionView::Fire(t) && t.question == (question::split(
                m.command->0,
            )->0).1 && t.completion is CommandEnd && !t.still_running
        },
{
    if m.command is Some && question::split(m.command->0) is Some {
        lemma_one_fired(s, m, now);
    }
}

/// How long output has to be quiet before a question fires, and how long one may wait at
/// most: a prompt under the cursor is quickest, and a question inside a program is sent
/// before one on a command line would be.
pub proof fn questions_settle_at_these_times(s: SessionView, p: PendingView, mono: u64)
    ensures
        ({
            let quiet = clock::elapsed(
                match s.last_output_at {
                    Some(at) => if at > p.submitted_at {
                        at
                    } else {
                        p.submitted_at
                    },
                    None => p.submitted_at,
                },
                mono,
            );
            let waited = clock::elapsed(p.submitted_at, mono);
            let needed: int = match (p.origin, s.shape()) {
                (PendingOrigin::InProgram, RestingShape::Prompt) => 150,
                (PendingOrigin::InProgram, RestingShape::Short) => 500,
                (PendingOrigin::InProgram, RestingShape::Other) => 3_000,
                (PendingOrigin::PromptLine, RestingShape::Prompt) => 750,
                (PendingOrigin::PromptLine, RestingShape::Short) => 3_000,
                (PendingOrigin::PromptLine, RestingShape::Other) => 10_000,
            };
            let longest: int = match p.origin {
                PendingOrigin::InProgram => 30_000,
                PendingOrigin::PromptLine => 120_000,
            };
            &&& s.due(p, mono) == Some(CompletionKind::Stabilized) <==> quiet >= needed
            &&& s.due(p, mono) == Some(CompletionKind::MaxWait) <==> quiet < needed && waited
                >= longest
            &&& SessionView::owed_receipt(p, mono) <==> !p.receipt_notified && waited >= 1_000
        }),
{
}

/// A line rests at a prompt where it is short, the cursor is at its end or past it, and its
/// last character is one that ends prompts; an empty line, a long one, and one with the
/// cursor inside are neither prompt nor short.
pub proof fn a_prompt_is_recognised_by_its_end(line: Seq<char>, taken: nat, column: u16)
    ensures
        ({
            let shape = crate::trigger::shape_of(line, taken, column);
            let awaited = 0 < line.len() <= 40 && column >= taken;
            let tails = seq!['$', '#', '%', '>', ':', '?', '❯', '»', '›'];
            &&& shape is Other <==> !awaited
            &&& shape is Prompt <==> awaited && tails.contains(line.last())
        }),
{
    let tails = seq!['$', '#', '%', '>', ':', '?', '❯', '»', '›'];
    if line.len() > 0 {
        let c = line.last();
        if crate::trigger::ends_a_prompt(c) {
            assert(tails[0] == '$' && tails[1] == '#' && tails[2] == '%' && tails[3] == '>'
                && tails[4] == ':' && tails[5] == '?' && tails[6] == '❯' && tails[7] == '»'
                && tails[8] == '›');
        }
    }
}

/// Each question is settled on its own: a due one is sent, with the authority that made it
/// due; one that is not keeps waiting, with a receipt that names it where that is owed. What
/// becomes of the others is the same without it.
pub proof fn each_question_is_settled_on_its_own(
    s: SessionView,
    pending: Seq<PendingView>,
    p: PendingView,
    now: Moment,
)
    ensures
        ({
            let before = s.settle(pending, now);
            let all = s.settle(pending.push(p), now);
            match s.due(p, now.mono) {
                Some(completion) => {
                    &&& all.kept == before.kept
                    &&& all.notices == before.notices
                    &&& all.fires.len() == before.fires.len() + 1
                    &&& all.fires.drop_last() == before.fires
                    &&& sends(
                        all.fires.last(),
                        p,
                        completion,
                        None,
                        s.command_active && p.origin is PromptLine,
                    )
                },
                None => {
                    let owed = SessionView::owed_receipt(p, now.mono);
                    &&& all.fires == before.fires
                    &&& all.kept == before.kept.push(
                        PendingView { receipt_notified: p.receipt_notified || owed, ..p },
                    )
                    &&& all.notices == if owed {
                        before.notices.push(
                            ActionView::Notice(
                                "#? waiting for output to settle: "@ + p.question,
                            ),
                        )
                    } else {
                        before.notices
                    }
                },
            }
        }),
{
    let more = pending.push(p);
    assert(more.drop_last() =~= pending);
    assert(more.last() == p);
    let before = s.settle(pending, now);
    if let Some(completion) = s.due(p, now.mono) {
        let still_running = s.command_active && p.origin is PromptLine;
        let at = SessionView {
            span_settled: before.state.span_settled || still_running,
            ..before.state
        };
        lemma_fired_sends(at, p, completion, None, still_running, now.wall);
        let all = s.settle(more, now);
        assert(all.fires.drop_last() =~= before.fires);
    }
}

/// A poll sends the due questions before it gives receipts, and settles exactly the ones
/// that wait.
pub proof fn a_poll_sends_before_it_notifies(s: SessionView, now: Moment)
    requires
        s.esc_cancellable(),
    ensures
        ({
            let r = s.settle(s.pending, now);
            let (left, actions) = s.polled(now);
            &&& left.pending == r.kept
            &&& actions.len() == r.fires.len() + r.notices.len()
            &&& forall|i: int|
                0 <= i < r.fires.len() ==> #[trigger] actions[i] == r.fires[i]
            &&& forall|i: int|
                0 <= i < r.notices.len() ==> actions[r.fires.len() + i] == #[trigger] r.notices[i]
            &&& left.mirror == s.mirror
            &&& left.history == s.history
            &&& left.command_active == s.command_active
            &&& left.cwd == s.cwd
        }),
{
    lemma_settle_frame(s, s.pending, now);
    lemma_settle_history(s, s.pending, now);
}

proof fn lemma_settle_history(s: SessionView, pending: Seq<PendingView>, now: Moment)
    ensures
        s.settle(pending, now).state.history == s.history,
        s.settle(pending, now).state.cwd == s.cwd,
    decreases pending.len(),
{
    if pending.len() > 0 {
        lemma_settle_history(s, pending.drop_last(), now);
    }
}

/// The wait until the next deadline ends on that deadline, or one millisecond from now
/// where it is past.
pub proof fn the_wait_ends_on_the_deadline(s: SessionView, mono: u64)
    requires
        s.esc_cancellable(),
        s.nearest(s.pending)->0 <= u64::MAX,
    ensures
        s.deadline(mono) is Some,
        s.nearest(s.pending)->0 > mono ==> mono + s.deadline(mono)->0 == s.nearest(s.pending)->0,
        s.nearest(s.pending)->0 <= mono ==> s.deadline(mono)->0 == 1,
{
    lemma_nearest(s, s.pending, Moment { mono, wall: 0 });
}

// ---------------------------------------------------------------------------
// What is asked
// ---------------------------------------------------------------------------

/// Whether a question joined the ones that wait, behind them.
pub open spec fn joined(
    before: SessionView,
    after: SessionView,
    parts: (Seq<char>, Seq<char>),
    origin: PendingOrigin,
    mono: u64,
) -> bool {
    let p = after.pending.last();
    &&& after.pending.len() == before.pending.len() + 1
    &&& after.pending.drop_last() == before.pending
    &&& p.question == parts.1
    &&& p.form == question::form_of(parts.0)
    &&& p.origin == origin
    &&& p.submitted_at == mono
    &&& !p.receipt_notified
}

/// Enter where the line is read asks the question that the rendered line holds, as one of
/// the program's where a command runs; a line without one asks nothing.
pub proof fn enter_asks_the_rendered_question(s: SessionView, key: u8, mono: u64)
    requires
        key == 0x0d || key == 0x0a,
        !s.mirror.alternate(),
        !s.captured_since_output,
        s.command_active || !s.shell_integrated,
    ensures
        ({
            let (after, actions) = s.typed(seq![key], mono);
            let parts = question::split(s.mirror.logical_line());
            &&& actions.len() == 0
            &&& parts is None ==> after == s
            &&& parts is Some ==> after.captured_since_output && joined(
                s,
                after,
                parts->0,
                if s.command_active {
                    PendingOrigin::InProgram
                } else {
                    PendingOrigin::PromptLine
                },
                mono,
            )
        }),
{
    let keys = seq![key];
    assert(keys.drop_last() =~= Seq::<u8>::empty());
    assert(s.typed(keys.drop_last(), mono) == (s, Seq::<ActionView>::empty()));
    let after = s.typed(keys, mono).0;
    if question::split(s.mirror.logical_line()) is Some {
        assert(after.pending.drop_last() =~= s.pending);
    }
}

/// A key other than Enter and the interrupt asks nothing and withdraws nothing.
pub proof fn other_keys_mean_nothing(s: SessionView, keys: Seq<u8>, mono: u64)
    requires
        forall|i: int|
            0 <= i < keys.len() ==> #[trigger] keys[i] != 0x0d && keys[i] != 0x0a && keys[i] != 0x03,
    ensures
        s.typed(keys, mono) == (s, Seq::<ActionView>::empty()),
    decreases keys.len(),
{
    if keys.len() > 0 {
        let init = keys.drop_last();
        assert forall|i: int| 0 <= i < init.len() implies #[trigger] init[i] != 0x0d && init[i]
            != 0x0a && init[i] != 0x03 by {
            assert(init[i] == keys[i]);
        }
        other_keys_mean_nothing(s, init, mono);
        assert(keys[keys.len() - 1] != 0x0d);
    }
}

/// An interrupt's notices name the withdrawn questions, one each and in order.
pub proof fn an_interrupt_names_what_it_withdraws(s: SessionView, mono: u64, i: int)
    requires
        !s.mirror.alternate(),
        0 <= i < s.pending.len(),
    ensures
        s.typed(seq![0x03u8], mono).1.len() == s.pending.len(),
        s.typed(seq![0x03u8], mono).1[i] == ActionView::Notice(
            "#? cancelled (^C): "@ + s.pending[i].question,
        ),
{
    let keys = seq![0x03u8];
    assert(keys.drop_last() =~= Seq::<u8>::empty());
    assert(s.typed(keys.drop_last(), mono) == (s, Seq::<ActionView>::empty()));
    assert(s.typed(keys, mono).1 =~= crate::trigger::interrupted_notices(s.pending));
}

/// A command that starts from the prompt asks the question of its line, which then waits
/// for the command; one that starts within another asks nothing of its own.
pub proof fn a_command_start_asks_its_lines_question(
    s: SessionView,
    m: markers::MarkerView,
    now: Moment,
)
    requires
        m.command is Some,
    ensures
        ({
            let after = s.started(m, now);
            let parts = question::split(m.command->0);
            &&& after.command_active
            &&& s.command_active || parts is None ==> after.pending == s.pending
            &&& !s.command_active && parts is Some ==> joined(
                s,
                after,
                parts->0,
                PendingOrigin::PromptLine,
                now.mono,
            )
            &&& !s.command_active ==> !after.span_settled
            &&& s.command_active ==> after.span_settled == s.span_settled
            &&& after.mirror == s.mirror
            &&& after.cwd == s.cwd
        }),
{
    let after = s.started(m, now);
    if !s.command_active && question::split(m.command->0) is Some {
        assert(after.pending.drop_last() =~= s.pending);
    }
}

/// Only what was really executed opens and closes a row of the command history: its text,
/// the directory it ran in, and the exit code are the markers' own.
pub proof fn only_executed_commands_reach_the_history(
    s: SessionView,
    m: markers::MarkerView,
    now: Moment,
)
    ensures
        !m.executed ==> s.started(m, now).history == s.history && s.ended(m, now).0.history
            == s.history,
        m.executed && m.command is Some ==> s.started(m, now).history == s.history.begun(
            m.command->0,
            s.cwd,
            now.wall,
        ),
        m.executed ==> s.ended(m, now).0.history == s.history.ended(m.exit_code, now.wall),
{
    let told = told_end(s, m, now);
    let command = match m.command {
        Some(c) => c,
        None => seq![],
    };
    let late = match question::split(command) {
        Some(parts) => if s.pending.len() == 0 && !s.span_settled {
            told.asked(parts, PendingOrigin::PromptLine, now.mono).pending
        } else {
            s.pending
        },
        None => s.pending,
    };
    lemma_all_fired_history(told, late, m.exit_code, now.wall);
}

proof fn lemma_all_fired_history(
    s: SessionView,
    pending: Seq<PendingView>,
    exit_code: Option<i32>,
    wall: i64,
)
    ensures
        s.all_fired(pending, exit_code, wall).0.history == s.history,
        s.all_fired(pending, exit_code, wall).0.command_active == s.command_active,
    decreases pending.len(),
{
    if pending.len() > 0 {
        lemma_all_fired_history(s, pending.drop_last(), exit_code, wall);
    }
}

// ---------------------------------------------------------------------------
// What is recorded
// ---------------------------------------------------------------------------

/// PTY output reaches the mirror as it is, counts as the running command's output, restarts
/// the quiet that questions wait for, and arms the capture again; it neither asks nor
/// withdraws. No output at all changes nothing.
pub proof fn output_is_recorded_everywhere(s: SessionView, bytes: Seq<u8>, now: Moment)
    ensures
        bytes.len() == 0 ==> s.output(bytes, now) == s,
        bytes.len() > 0 ==> {
            let after = s.output(bytes, now);
            &&& after.mirror.steps == s.mirror.steps.push(Step::Fed(bytes))
            &&& after.history == s.history.recorded(bytes)
            &&& after.last_output_at == Some(now.mono)
            &&& !after.captured_since_output
            &&& after.pending == s.pending
            &&& after.span_settled == s.span_settled
            &&& after.command_active == s.command_active
            &&& after.cwd == s.cwd
            &&& after.previous_snapshot == Some((s.snapshot_id(), after.mirror.screen()))
        },
{
}

/// Snapshots follow one another: each names the one before it and counts what changed
/// since, and no two have the same id.
pub proof fn snapshots_form_a_chain(s: SessionView, wall: i64)
    ensures
        ({
            let once = s.snapped(wall);
            let shot = s.mirror.snapshot();
            &&& once.snapshot_id() != s.snapshot_id()
            &&& s.snapshot_event() matches timeline::EventView::ScreenSnapshot {
                snapshot_id,
                rows,
                columns,
                alt_screen,
                screen,
                ..
            } && snapshot_id == s.snapshot_id() && rows == shot.rows && columns == shot.columns
                && alt_screen == shot.alt_screen && screen == Some(s.mirror.screen())
            &&& once.snapshot_event() matches timeline::EventView::ScreenSnapshot {
                previous_snapshot_id,
                diff,
                ..
            } && previous_snapshot_id == Some(s.snapshot_id()) && diff == Some(
                crate::screen_diff::summary_of(s.mirror.screen(), once.mirror.screen()),
            )
        }),
{
    let a = text::decimal(s.next_snapshot_id);
    let b = text::decimal(s.next_snapshot_id + 1);
    if "snapshot-"@ + a == "snapshot-"@ + b {
        assert(("snapshot-"@ + a).skip("snapshot-"@.len() as int) =~= a);
        assert(("snapshot-"@ + b).skip("snapshot-"@.len() as int) =~= b);
        text::lemma_decimal_injective(s.next_snapshot_id, s.next_snapshot_id + 1);
    }
}

/// A resize reaches the mirror and is recorded as a snapshot; nothing else changes.
pub proof fn a_resize_changes_the_screen_alone(
    s: SessionView,
    columns: u16,
    rows: u16,
    wall: i64,
)
    ensures
        ({
            let after = s.resized(columns, rows, wall);
            &&& after.mirror.steps == s.mirror.steps.push(Step::Sized(columns, rows))
            &&& after.history == s.history
            &&& after.pending == s.pending
            &&& after.last_output_at == s.last_output_at
            &&& after.command_active == s.command_active
            &&& after.span_settled == s.span_settled
        }),
{
}

/// A report of the working directory is kept, for the commands that follow; the other
/// control markers leave the session as it is.
pub proof fn a_reported_directory_is_kept(s: SessionView, m: markers::MarkerView, now: Moment)
    ensures
        m.kind is Cwd && m.cwd is Some ==> s.marked(m, now).0 == (SessionView {
            cwd: m.cwd,
            ..s
        }) && s.marked(m, now).1.len() == 0,
        m.kind is Cwd && m.cwd is None ==> s.marked(m, now).0 == s && s.marked(m, now).1.len()
            == 0,
        m.kind is NewConversation || m.kind is ClearContext ==> s.marked(m, now).0 == s
            && s.marked(m, now).1.len() == 0,
        m.kind is CommandStart ==> s.marked(m, now).0 == s.started(m, now) && s.marked(
            m,
            now,
        ).1.len() == 0,
        m.kind is CommandEnd ==> s.marked(m, now) == s.ended(m, now),
{
}

/// A prompt rests only on the primary screen, and there wherever the cursor's line looks
/// like one.
pub proof fn a_prompt_rests_on_the_primary_screen(s: SessionView)
    ensures
        s.mirror.alternate() ==> !s.resting_prompt(),
        !s.mirror.alternate() ==> (s.resting_prompt() <==> s.shape() is Prompt),
{
}

/// The cursor is at the start of a line where it is in the first column and nothing stands
/// on its row, and nowhere else.
pub proof fn a_line_starts_where_nothing_stands(s: SessionView)
    ensures
        s.mirror.cursor().column > 0 ==> !s.at_line_start(),
        s.mirror.cursor_text().len() > 0 ==> !s.at_line_start(),
        s.mirror.cursor().column == 0 && s.mirror.cursor_text().len() == 0 ==> s.at_line_start(),
{
}

} // verus!
