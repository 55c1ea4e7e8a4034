//! Bounded in-memory terminal timeline: an ordered record of terminal facts, plus the
//! queries that context building needs.
//!
//! A long-lived session stays bounded by age-tiered snapshot downsampling, a hard
//! snapshot byte cap, and a recent-character budget for raw text. Nothing here is
//! written to disk.

use crate::clock::{Clock, SystemClock};
use crate::screen_diff;
use crate::screen_diff::{diff_screen_text, ScreenDiffSummary, ScreenTextDiff};
use crate::text;
use crate::text::{byte_size, clone_opt, debug_quoted, push_decimal, same_text};
use vstd::prelude::*;

verus! {

/// Terminal control mode.
#[derive(Debug, Clone, Copy, PartialEq, Eq, Structural)]
pub enum ControlMode {
    Human,
    Shared,
    Ai,
}

/// A terminal fact. Timestamps live on [`TimelineEntry`], not the event.
#[derive(Debug, Clone, PartialEq)]
pub enum TerminalEvent {
    HumanInput {
        data: String,
        /// `false` marks hidden input (e.g. passwords), excluded from text context.
        visible: bool,
    },
    PtyOutput { data: String },
    VisibleOutput { text: String },
    CommandStart { command_id: String, command: String, cwd: Option<String> },
    CommandEnd {
        command_id: String,
        command: String,
        exit_code: Option<i32>,
        duration_ms: Option<u64>,
    },
    ScreenSnapshot {
        snapshot_id: String,
        rows: u16,
        columns: u16,
        alt_screen: bool,
        screen: Option<String>,
        previous_snapshot_id: Option<String>,
        diff: Option<ScreenDiffSummary>,
    },
    AiRequest { request_id: String, question: String },
    AiResponse { request_id: String, text: String },
    ControlModeChange { from: ControlMode, to: ControlMode, reason: String },
}

/// A recorded event with its assigned id and timestamp.
#[derive(Debug, Clone, PartialEq)]
pub struct TimelineEntry {
    pub id: String,
    pub ts: i64,
    pub event: TerminalEvent,
}

/// On-demand detailed diff between two screen snapshots.
#[derive(Debug, Clone, PartialEq)]
pub struct ScreenSnapshotDiff {
    pub from_snapshot_id: String,
    pub to_snapshot_id: String,
    pub diff: ScreenTextDiff,
}

/// A snapshot that was asked for is not in the store.
#[derive(Debug, Clone, PartialEq, Eq)]
pub struct SnapshotNotFound {
    pub snapshot_id: String,
}

/// The horizon past which any event is dropped: seven days.
pub const MAX_AGE_MS: i64 = 604_800_000;

/// Retained-character budget per raw-text event kind. Well above the largest query
/// budget, so recent context is always intact.
pub const RAW_TEXT_RETENTION_CHARS: usize = 32_000;

/// Compaction runs once this many events have been recorded since the last pass.
pub const COMPACT_EVERY: usize = 256;

/// Hard cap on the total retained snapshot screen text, in bytes, enforced whatever the
/// age tiers would keep.
pub const SNAPSHOT_RETENTION_BYTES: usize = 33_554_432;

/// In-memory, bounded terminal timeline store with an injectable clock.
pub struct InMemoryTimelineStore<C = SystemClock> {
    entries: Vec<TimelineEntry>,
    now: C,
    next_id: u64,
    records_since_compaction: usize,
}

// ---------------------------------------------------------------------------
// The model
// ---------------------------------------------------------------------------

/// The model of an event.
#[verifier::ext_equal]
pub enum EventView {
    HumanInput { data: Seq<char>, visible: bool },
    PtyOutput { data: Seq<char> },
    VisibleOutput { text: Seq<char> },
    CommandStart { command_id: Seq<char>, command: Seq<char>, cwd: Option<Seq<char>> },
    CommandEnd {
        command_id: Seq<char>,
        command: Seq<char>,
        exit_code: Option<i32>,
        duration_ms: Option<u64>,
    },
    ScreenSnapshot {
        snapshot_id: Seq<char>,
        rows: u16,
        columns: u16,
        alt_screen: bool,
        screen: Option<Seq<char>>,
        previous_snapshot_id: Option<Seq<char>>,
        diff: Option<ScreenDiffSummary>,
    },
    AiRequest { request_id: Seq<char>, question: Seq<char> },
    AiResponse { request_id: Seq<char>, text: Seq<char> },
    ControlModeChange { from: ControlMode, to: ControlMode, reason: Seq<char> },
}

impl View for TerminalEvent {
    type V = EventView;

    open spec fn view(&self) -> EventView {
        match *self {
            TerminalEvent::HumanInput { data, visible } => EventView::HumanInput {
                data: data@,
                visible,
            },
            TerminalEvent::PtyOutput { data } => EventView::PtyOutput { data: data@ },
            TerminalEvent::VisibleOutput { text } => EventView::VisibleOutput { text: text@ },
            TerminalEvent::CommandStart { command_id, command, cwd } => EventView::CommandStart {
                command_id: command_id@,
                command: command@,
                cwd: text::opt_text(cwd),
            },
            TerminalEvent::CommandEnd { command_id, command, exit_code, duration_ms } => {
                EventView::CommandEnd {
                    command_id: command_id@,
                    command: command@,
                    exit_code,
                    duration_ms,
                }
            },
            TerminalEvent::ScreenSnapshot {
                snapshot_id,
                rows,
                columns,
                alt_screen,
                screen,
                previous_snapshot_id,
                diff,
            } => EventView::ScreenSnapshot {
                snapshot_id: snapshot_id@,
                rows,
                columns,
                alt_screen,
                screen: text::opt_text(screen),
                previous_snapshot_id: text::opt_text(previous_snapshot_id),
                diff,
            },
            TerminalEvent::AiRequest { request_id, question } => EventView::AiRequest {
                request_id: request_id@,
                question: question@,
            },
            TerminalEvent::AiResponse { request_id, text } => EventView::AiResponse {
                request_id: request_id@,
                text: text@,
            },
            TerminalEvent::ControlModeChange { from, to, reason } => EventView::ControlModeChange {
                from,
                to,
                reason: reason@,
            },
        }
    }
}

/// The model of a recorded event.
#[verifier::ext_equal]
pub struct EntryView {
    pub id: Seq<char>,
    pub ts: i64,
    pub event: EventView,
}

impl View for TimelineEntry {
    type V = EntryView;

    open spec fn view(&self) -> EntryView {
        EntryView { id: self.id@, ts: self.ts, event: self.event@ }
    }
}

/// The models of some entries.
pub open spec fn entry_views(entries: Seq<TimelineEntry>) -> Seq<EntryView> {
    entries.map_values(|e: TimelineEntry| e@)
}

/// The model of the store.
#[verifier::ext_equal]
pub struct TimelineView {
    pub entries: Seq<EntryView>,
    pub next_id: nat,
    pub since_compaction: nat,
}

/// The age of something recorded at `ts`, as far as the integers reach.
pub open spec fn age_at(now: i64, ts: i64) -> int {
    if now - ts > i64::MAX {
        i64::MAX as int
    } else if now - ts < i64::MIN {
        i64::MIN as int
    } else {
        now - ts
    }
}

/// The spacing at which snapshots of an age are kept: dense for the last minute,
/// thinning out to hourly across a week, then nothing. Tiers are consulted youngest
/// first.
pub open spec fn spacing_for_age(age: int) -> Option<int> {
    if age <= 60_000 {
        Some(200)
    } else if age <= 300_000 {
        Some(5_000)
    } else if age <= 1_800_000 {
        Some(30_000)
    } else if age <= 3_600_000 {
        Some(60_000)
    } else if age <= 43_200_000 {
        Some(300_000)
    } else if age <= 86_400_000 {
        Some(900_000)
    } else if age <= 604_800_000 {
        Some(3_600_000)
    } else {
        None
    }
}

/// What is left to spend while a compaction pass walks from the newest entry back.
#[verifier::ext_equal]
pub struct Budgets {
    /// Time of the last snapshot kept.
    pub last_snapshot: Option<i64>,
    pub snapshot_bytes: nat,
    pub pty: nat,
    pub visible: nat,
    pub input: nat,
}

/// The budgets at the start of a pass.
pub open spec fn full_budgets() -> Budgets {
    Budgets {
        last_snapshot: None,
        snapshot_bytes: SNAPSHOT_RETENTION_BYTES as nat,
        pty: RAW_TEXT_RETENTION_CHARS as nat,
        visible: RAW_TEXT_RETENTION_CHARS as nat,
        input: RAW_TEXT_RETENTION_CHARS as nat,
    }
}

/// What remains of a budget; the entry that straddles its end takes it to zero.
pub open spec fn spent(budget: nat, cost: nat) -> nat {
    if cost >= budget {
        0
    } else {
        (budget - cost) as nat
    }
}

/// Whether a snapshot taken at `ts` keeps its distance to the next newer one kept.
pub open spec fn spaced(now: i64, ts: i64, newer: Option<i64>) -> bool {
    match (spacing_for_age(age_at(now, ts)), newer) {
        (None, _) => false,
        (Some(_), None) => true,
        (Some(spacing), Some(newer_ts)) => age_at(newer_ts, ts) >= spacing,
    }
}

/// The screen text of a snapshot, in bytes.
pub open spec fn screen_bytes(screen: Option<Seq<char>>) -> nat {
    match screen {
        Some(s) => text::byte_len(s),
        None => 0,
    }
}

/// Whether an entry is kept, and the budgets after it. Snapshots thin against the last
/// one kept and then draw from the byte budget; raw text draws down a budget of its own
/// kind; everything else ages out.
pub open spec fn judged(e: EntryView, now: i64, b: Budgets) -> (bool, Budgets) {
    match e.event {
        EventView::ScreenSnapshot { screen, .. } => if spaced(now, e.ts, b.last_snapshot) {
            if b.snapshot_bytes == 0 {
                (false, Budgets { last_snapshot: Some(e.ts), ..b })
            } else {
                (
                    true,
                    Budgets {
                        last_snapshot: Some(e.ts),
                        snapshot_bytes: spent(b.snapshot_bytes, screen_bytes(screen)),
                        ..b
                    },
                )
            }
        } else {
            (false, b)
        },
        EventView::PtyOutput { data } => (
            b.pty > 0,
            Budgets { pty: spent(b.pty, data.len()), ..b },
        ),
        EventView::VisibleOutput { text } => (
            b.visible > 0,
            Budgets { visible: spent(b.visible, text.len()), ..b },
        ),
        EventView::HumanInput { data, visible } => if visible {
            (b.input > 0, Budgets { input: spent(b.input, data.len()), ..b })
        } else {
            (age_at(now, e.ts) <= MAX_AGE_MS, b)
        },
        _ => (age_at(now, e.ts) <= MAX_AGE_MS, b),
    }
}

/// What a pass that starts with the given budgets keeps, in the original order.
pub open spec fn retained(entries: Seq<EntryView>, now: i64, b: Budgets) -> Seq<EntryView>
    decreases entries.len(),
{
    if entries.len() == 0 {
        seq![]
    } else {
        let verdict = judged(entries.last(), now, b);
        let older = retained(entries.drop_last(), now, verdict.1);
        if verdict.0 {
            older.push(entries.last())
        } else {
            older
        }
    }
}

/// What an event contributes to recent human-visible text.
pub open spec fn event_text(e: EventView) -> Seq<char> {
    match e {
        EventView::HumanInput { data, visible } => if visible {
            data
        } else {
            seq![]
        },
        EventView::PtyOutput { data } => data,
        EventView::VisibleOutput { text } => text,
        EventView::ScreenSnapshot { screen, .. } => match screen {
            Some(s) => s,
            None => seq![],
        },
        EventView::AiRequest { question, .. } => question,
        EventView::AiResponse { text, .. } => text,
        _ => seq![],
    }
}

/// The raw output an event carries.
pub open spec fn pty_text(e: EventView) -> Seq<char> {
    match e {
        EventView::PtyOutput { data } => data,
        _ => seq![],
    }
}

/// The visible text of some entries, in order.
pub open spec fn all_text(entries: Seq<EntryView>) -> Seq<char>
    decreases entries.len(),
{
    if entries.len() == 0 {
        seq![]
    } else {
        all_text(entries.drop_last()) + event_text(entries.last().event)
    }
}

/// The raw output of some entries, in order.
pub open spec fn all_pty(entries: Seq<EntryView>) -> Seq<char>
    decreases entries.len(),
{
    if entries.len() == 0 {
        seq![]
    } else {
        all_pty(entries.drop_last()) + pty_text(entries.last().event)
    }
}

/// The last `max` characters of a text.
pub open spec fn tail(s: Seq<char>, max: nat) -> Seq<char> {
    if s.len() <= max {
        s
    } else {
        s.skip(s.len() - max)
    }
}

/// Whether an event is a snapshot with the given id.
pub open spec fn is_snapshot_with_id(e: EventView, id: Seq<char>) -> bool {
    match e {
        EventView::ScreenSnapshot { snapshot_id, .. } => snapshot_id == id,
        _ => false,
    }
}

/// Whether an event is a snapshot of the alternate screen.
pub open spec fn is_alternate_snapshot(e: EventView) -> bool {
    match e {
        EventView::ScreenSnapshot { alt_screen, .. } => alt_screen,
        _ => false,
    }
}

/// The id of the `n`th event.
pub open spec fn event_id(n: nat) -> Seq<char> {
    "event-"@ + text::decimal(n)
}

impl TimelineView {
    /// A store in which nothing was recorded yet.
    pub open spec fn fresh() -> TimelineView {
        TimelineView { entries: seq![], next_id: 1, since_compaction: 0 }
    }

    /// The retention policy applied at `now`.
    pub open spec fn compacted(self, now: i64) -> TimelineView {
        TimelineView {
            entries: retained(self.entries, now, full_budgets()),
            next_id: self.next_id,
            since_compaction: 0,
        }
    }

    /// The entry that recording an event makes.
    pub open spec fn entry_for(self, event: EventView, now: i64) -> EntryView {
        EntryView { id: event_id(self.next_id), ts: now, event }
    }

    /// An event recorded at `now`; every so often the retention policy follows, at
    /// `later`.
    pub open spec fn recorded(self, event: EventView, now: i64, later: i64) -> TimelineView {
        let grown = TimelineView {
            entries: self.entries.push(self.entry_for(event, now)),
            next_id: self.next_id + 1,
            since_compaction: self.since_compaction + 1,
        };
        if grown.since_compaction >= COMPACT_EVERY {
            grown.compacted(later)
        } else {
            grown
        }
    }

    /// The latest snapshot, of the alternate screen only where asked.
    pub open spec fn latest_snapshot(self, alternate_only: bool) -> Option<EntryView> {
        latest_snapshot_in(self.entries, alternate_only)
    }
}

/// The latest snapshot among some entries.
pub open spec fn latest_snapshot_in(entries: Seq<EntryView>, alternate_only: bool) -> Option<
    EntryView,
>
    decreases entries.len(),
{
    if entries.len() == 0 {
        None
    } else if wanted_snapshot(entries.last().event, alternate_only) {
        Some(entries.last())
    } else {
        latest_snapshot_in(entries.drop_last(), alternate_only)
    }
}

/// Whether an event is a snapshot of the kind asked for.
pub open spec fn wanted_snapshot(e: EventView, alternate_only: bool) -> bool {
    e is ScreenSnapshot && (alternate_only ==> is_alternate_snapshot(e))
}

/// The first snapshot with the given id.
pub open spec fn snapshot_with_id(entries: Seq<EntryView>, id: Seq<char>) -> Option<EntryView>
    decreases entries.len(),
{
    if entries.len() == 0 {
        None
    } else if is_snapshot_with_id(entries[0].event, id) {
        Some(entries[0])
    } else {
        snapshot_with_id(entries.drop_first(), id)
    }
}

/// The snapshots among some entries, in order.
pub open spec fn snapshots_in(entries: Seq<EntryView>) -> Seq<EntryView>
    decreases entries.len(),
{
    if entries.len() == 0 {
        seq![]
    } else if entries.last().event is ScreenSnapshot {
        snapshots_in(entries.drop_last()).push(entries.last())
    } else {
        snapshots_in(entries.drop_last())
    }
}

/// The screen text of a snapshot; empty where it has none.
pub open spec fn snapshot_screen(e: EventView) -> Seq<char> {
    match e {
        EventView::ScreenSnapshot { screen, .. } => match screen {
            Some(s) => s,
            None => seq![],
        },
        _ => seq![],
    }
}

// ---------------------------------------------------------------------------
// Laws
// ---------------------------------------------------------------------------

/// Compaction keeps entries in order and invents none: what it keeps is a subsequence.
pub proof fn compaction_keeps_a_subsequence(entries: Seq<EntryView>, now: i64, b: Budgets)
    ensures
        retained(entries, now, b).len() <= entries.len(),
        exists|picks: Seq<int>| #[trigger] picked(entries, picks, retained(entries, now, b)),
    decreases entries.len(),
{
    if entries.len() == 0 {
        assert(picked(entries, Seq::<int>::empty(), retained(entries, now, b)));
    } else {
        let verdict = judged(entries.last(), now, b);
        let init = entries.drop_last();
        compaction_keeps_a_subsequence(init, now, verdict.1);
        let older = retained(init, now, verdict.1);
        let picks = choose|picks: Seq<int>| #[trigger] picked(init, picks, older);
        if verdict.0 {
            let more = picks.push(entries.len() - 1);
            let out = older.push(entries.last());
            assert forall|i: int| 0 <= i < more.len() implies 0 <= #[trigger] more[i]
                < entries.len() && out[i] == entries[more[i]] by {
                if i < picks.len() {
                    assert(more[i] == picks[i]);
                    assert(init[picks[i]] == older[i]);
                }
            }
            assert(picked(entries, more, out));
        } else {
            assert forall|i: int| 0 <= i < picks.len() implies 0 <= #[trigger] picks[i]
                < entries.len() && older[i] == entries[picks[i]] by {
                assert(init[picks[i]] == older[i]);
            }
            assert(picked(entries, picks, older));
        }
    }
}

/// Whether `out` holds the entries at the ascending positions `picks`.
pub open spec fn picked(entries: Seq<EntryView>, picks: Seq<int>, out: Seq<EntryView>) -> bool {
    &&& picks.len() == out.len()
    &&& forall|i: int, j: int|
        0 <= i < j < picks.len() ==> #[trigger] picks[i] < #[trigger] picks[j]
    &&& forall|i: int|
        0 <= i < picks.len() ==> 0 <= #[trigger] picks[i] < entries.len() && out[i]
            == entries[picks[i]]
}

/// Recent output is always intact: compaction never changes what a query for recent raw
/// output returns, up to the retained-character budget.
pub proof fn compaction_preserves_recent_output(entries: Seq<EntryView>, now: i64, max: nat)
    requires
        max <= RAW_TEXT_RETENTION_CHARS,
    ensures
        tail(all_pty(retained(entries, now, full_budgets())), max) == tail(all_pty(entries), max),
{
    lemma_recent_output(entries, now, full_budgets(), max);
}

proof fn lemma_recent_output(entries: Seq<EntryView>, now: i64, b: Budgets, max: nat)
    requires
        max <= b.pty,
    ensures
        tail(all_pty(retained(entries, now, b)), max) == tail(all_pty(entries), max),
    decreases entries.len(),
{
    if entries.len() > 0 {
        let e = entries.last();
        let verdict = judged(e, now, b);
        let init = entries.drop_last();
        let older = retained(init, now, verdict.1);
        let t = pty_text(e.event);
        let before = all_pty(init);
        if verdict.0 {
            assert(older.push(e).drop_last() =~= older);
        }
        let kept = all_pty(older);
        if max <= t.len() {
            if e.event is PtyOutput {
                if max == 0 {
                    assert(tail(all_pty(retained(entries, now, b)), 0) =~= Seq::<char>::empty());
                    assert(tail(all_pty(entries), 0) =~= Seq::<char>::empty());
                } else {
                    assert(tail(kept + t, max) =~= tail(t, max));
                    assert(tail(before + t, max) =~= tail(t, max));
                }
            } else {
                assert(tail(all_pty(retained(entries, now, b)), 0) =~= Seq::<char>::empty());
                assert(tail(all_pty(entries), 0) =~= Seq::<char>::empty());
            }
        } else {
            let rest = (max - t.len()) as nat;
            lemma_recent_output(init, now, verdict.1, rest);
            assert(kept + t =~= all_pty(retained(entries, now, b)) || !(e.event is PtyOutput));
            assert(tail(kept + t, max) =~= tail(kept, rest) + t);
            assert(tail(before + t, max) =~= tail(before, rest) + t);
            if !(e.event is PtyOutput) {
                assert(kept + t =~= kept);
                assert(before + t =~= before);
            }
        }
    }
}

/// The retained snapshot text is capped: without the oldest snapshot kept it stays below
/// the byte cap, whatever the workload.
pub proof fn snapshot_text_is_capped(entries: Seq<EntryView>, now: i64)
    ensures
        ({
            let kept = snapshots_in(retained(entries, now, full_budgets()));
            kept.len() > 0 ==> snapshot_bytes(kept.drop_first()) < SNAPSHOT_RETENTION_BYTES
        }),
{
    lemma_snapshot_bytes(entries, now, full_budgets());
}

/// The screen text of some snapshots, in bytes.
pub open spec fn snapshot_bytes(entries: Seq<EntryView>) -> nat
    decreases entries.len(),
{
    if entries.len() == 0 {
        0
    } else {
        snapshot_bytes(entries.drop_last()) + match entries.last().event {
            EventView::ScreenSnapshot { screen, .. } => screen_bytes(screen),
            _ => 0,
        }
    }
}

proof fn lemma_snapshot_bytes(entries: Seq<EntryView>, now: i64, b: Budgets)
    ensures
        ({
            let kept = snapshots_in(retained(entries, now, b));
            &&& kept.len() > 0 ==> snapshot_bytes(kept.drop_first()) < b.snapshot_bytes
        }),
    decreases entries.len(),
{
    if entries.len() > 0 {
        let e = entries.last();
        let verdict = judged(e, now, b);
        let init = entries.drop_last();
        lemma_snapshot_bytes(init, now, verdict.1);
        let older = retained(init, now, verdict.1);
        let kept_older = snapshots_in(older);
        if verdict.0 {
            let all = older.push(e);
            assert(all.drop_last() =~= older);
            if e.event is ScreenSnapshot {
                let kept = kept_older.push(e);
                assert(snapshots_in(all) == kept);
                if kept_older.len() == 0 {
                    assert(kept.drop_first() =~= Seq::<EntryView>::empty());
                } else {
                    assert(kept.drop_first() =~= kept_older.drop_first().push(e));
                    assert(kept_older.drop_first().push(e).drop_last() =~= kept_older.drop_first());
                }
            } else {
                assert(snapshots_in(all) == kept_older);
            }
        }
    }
}

/// The three kinds of raw text, each kept within a character budget of its own.
pub enum RawText {
    Output,
    Visible,
    Input,
}

/// The raw text of a kind that an event carries.
pub open spec fn raw_text(e: EventView, kind: RawText) -> Option<Seq<char>> {
    match (e, kind) {
        (EventView::PtyOutput { data }, RawText::Output) => Some(data),
        (EventView::VisibleOutput { text }, RawText::Visible) => Some(text),
        (EventView::HumanInput { data, visible }, RawText::Input) => if visible {
            Some(data)
        } else {
            None
        },
        _ => None,
    }
}

/// The raw texts of a kind, oldest first.
pub open spec fn raw_texts(entries: Seq<EntryView>, kind: RawText) -> Seq<Seq<char>>
    decreases entries.len(),
{
    if entries.len() == 0 {
        seq![]
    } else {
        let older = raw_texts(entries.drop_last(), kind);
        match raw_text(entries.last().event, kind) {
            Some(t) => older.push(t),
            None => older,
        }
    }
}

/// The length of some texts together.
pub open spec fn texts_len(texts: Seq<Seq<char>>) -> nat
    decreases texts.len(),
{
    if texts.len() == 0 {
        0
    } else {
        texts_len(texts.drop_last()) + texts.last().len()
    }
}

/// The raw text of each kind is capped: without the oldest piece kept it stays below the
/// character budget, whatever the workload.
pub proof fn raw_text_is_capped(entries: Seq<EntryView>, now: i64, kind: RawText)
    ensures
        ({
            let kept = raw_texts(retained(entries, now, full_budgets()), kind);
            kept.len() > 0 ==> texts_len(kept.drop_first()) < RAW_TEXT_RETENTION_CHARS
        }),
{
    lemma_raw_text(entries, now, full_budgets(), kind);
}

spec fn raw_budget(b: Budgets, kind: RawText) -> nat {
    match kind {
        RawText::Output => b.pty,
        RawText::Visible => b.visible,
        RawText::Input => b.input,
    }
}

proof fn lemma_raw_text(entries: Seq<EntryView>, now: i64, b: Budgets, kind: RawText)
    ensures
        ({
            let kept = raw_texts(retained(entries, now, b), kind);
            kept.len() > 0 ==> texts_len(kept.drop_first()) < raw_budget(b, kind)
        }),
    decreases entries.len(),
{
    if entries.len() > 0 {
        let e = entries.last();
        let verdict = judged(e, now, b);
        let init = entries.drop_last();
        lemma_raw_text(init, now, verdict.1, kind);
        let older = retained(init, now, verdict.1);
        let kept_older = raw_texts(older, kind);
        if verdict.0 {
            assert(older.push(e).drop_last() =~= older);
            if let Some(t) = raw_text(e.event, kind) {
                let kept = kept_older.push(t);
                if kept_older.len() == 0 {
                    assert(kept.drop_first() =~= Seq::<Seq<char>>::empty());
                } else {
                    assert(kept.drop_first() =~= kept_older.drop_first().push(t));
                    assert(kept_older.drop_first().push(t).drop_last()
                        =~= kept_older.drop_first());
                }
            }
        }
    }
}

/// Nothing but raw text outlives the horizon: every snapshot and every other fact that
/// compaction keeps is at most a week old.
pub proof fn only_raw_text_outlives_the_horizon(entries: Seq<EntryView>, now: i64)
    ensures
        forall|i: int|
            0 <= i < retained(entries, now, full_budgets()).len() ==> within_horizon(
                #[trigger] retained(entries, now, full_budgets())[i],
                now,
            ),
{
    lemma_horizon(entries, now, full_budgets());
}

/// Whether an entry is raw text or recorded within the longest age.
pub open spec fn within_horizon(e: EntryView, now: i64) -> bool {
    ||| raw_text(e.event, RawText::Output) is Some
    ||| raw_text(e.event, RawText::Visible) is Some
    ||| raw_text(e.event, RawText::Input) is Some
    ||| age_at(now, e.ts) <= MAX_AGE_MS
}

proof fn lemma_horizon(entries: Seq<EntryView>, now: i64, b: Budgets)
    ensures
        forall|i: int|
            0 <= i < retained(entries, now, b).len() ==> within_horizon(
                #[trigger] retained(entries, now, b)[i],
                now,
            ),
    decreases entries.len(),
{
    if entries.len() > 0 {
        let e = entries.last();
        let verdict = judged(e, now, b);
        let older = retained(entries.drop_last(), now, verdict.1);
        let kept = retained(entries, now, b);
        lemma_horizon(entries.drop_last(), now, verdict.1);
        assert forall|i: int| 0 <= i < kept.len() implies within_horizon(
            #[trigger] kept[i],
            now,
        ) by {
            if i < older.len() {
                assert(kept[i] == older[i]);
            } else {
                assert(kept[i] == e && verdict.0);
            }
        }
    }
}

/// Compacting twice at one time is compacting once: what a pass keeps, another at that
/// time keeps too.
pub proof fn compacting_twice_is_compacting_once(view: TimelineView, now: i64)
    ensures
        retained(retained(view.entries, now, full_budgets()), now, full_budgets()) == retained(
            view.entries,
            now,
            full_budgets(),
        ),
        view.compacted(now).compacted(now) == view.compacted(now),
{
    lemma_retained_twice(view.entries, now, full_budgets(), full_budgets());
}

/// Whether two states of a pass lead to the same verdicts: once no snapshot can be kept,
/// it does not matter where the last one was.
spec fn same_prospects(a: Budgets, b: Budgets) -> bool {
    &&& a == (Budgets { last_snapshot: a.last_snapshot, ..b })
    &&& a.snapshot_bytes > 0 ==> a.last_snapshot == b.last_snapshot
}

proof fn lemma_retained_twice(entries: Seq<EntryView>, now: i64, first: Budgets, again: Budgets)
    requires
        same_prospects(first, again),
    ensures
        retained(retained(entries, now, first), now, again) == retained(entries, now, first),
    decreases entries.len(),
{
    if entries.len() > 0 {
        let e = entries.last();
        let init = entries.drop_last();
        let verdict = judged(e, now, first);
        let older = retained(init, now, verdict.1);
        if verdict.0 {
            let kept = older.push(e);
            assert(kept.drop_last() =~= older);
            assert(judged(e, now, again).0);
            lemma_retained_twice(init, now, verdict.1, judged(e, now, again).1);
        } else {
            lemma_retained_twice(init, now, verdict.1, again);
        }
    }
}

/// Kept snapshots keep their distance: each one is at least its age band's spacing older
/// than the next one kept.
pub proof fn kept_snapshots_are_spaced(entries: Seq<EntryView>, now: i64)
    ensures
        ({
            let kept = snapshots_in(retained(entries, now, full_budgets()));
            forall|i: int|
                0 <= i < kept.len() - 1 ==> spaced(
                    now,
                    (#[trigger] kept[i]).ts,
                    Some(kept[i + 1].ts),
                )
        }),
{
    lemma_spaced(entries, now, full_budgets());
}

proof fn lemma_spaced(entries: Seq<EntryView>, now: i64, b: Budgets)
    ensures
        ({
            let kept = snapshots_in(retained(entries, now, b));
            &&& forall|i: int|
                0 <= i < kept.len() - 1 ==> spaced(
                    now,
                    (#[trigger] kept[i]).ts,
                    Some(kept[i + 1].ts),
                )
            &&& kept.len() > 0 ==> spaced(now, kept.last().ts, b.last_snapshot)
            &&& b.snapshot_bytes == 0 ==> kept.len() == 0
        }),
    decreases entries.len(),
{
    if entries.len() > 0 {
        let e = entries.last();
        let verdict = judged(e, now, b);
        let init = entries.drop_last();
        lemma_spaced(init, now, verdict.1);
        let older = retained(init, now, verdict.1);
        let kept_older = snapshots_in(older);
        if verdict.0 {
            let all = older.push(e);
            assert(all.drop_last() =~= older);
            if e.event is ScreenSnapshot {
                let kept = kept_older.push(e);
                assert(snapshots_in(all) == kept);
                assert forall|i: int| 0 <= i < kept.len() - 1 implies spaced(
                    now,
                    (#[trigger] kept[i]).ts,
                    Some(kept[i + 1].ts),
                ) by {
                    if i == kept_older.len() - 1 {
                        assert(kept[i] == kept_older.last());
                    } else {
                        assert(kept[i] == kept_older[i]);
                        assert(kept[i + 1] == kept_older[i + 1]);
                    }
                }
            } else {
                assert(snapshots_in(all) == kept_older);
            }
        }
    }
}

/// The newest snapshot survives compaction until it is a week old.
pub proof fn newest_snapshot_survives(entries: Seq<EntryView>, now: i64)
    ensures
        latest_snapshot_in(entries, false) matches Some(e) ==> age_at(now, e.ts) <= MAX_AGE_MS
            ==> latest_snapshot_in(retained(entries, now, full_budgets()), false) == Some(e),
{
    lemma_newest_snapshot(entries, now, full_budgets());
}

proof fn lemma_newest_snapshot(entries: Seq<EntryView>, now: i64, b: Budgets)
    requires
        b.last_snapshot is None,
        b.snapshot_bytes > 0,
    ensures
        latest_snapshot_in(entries, false) matches Some(e) ==> age_at(now, e.ts) <= MAX_AGE_MS
            ==> latest_snapshot_in(retained(entries, now, b), false) == Some(e),
    decreases entries.len(),
{
    if entries.len() > 0 {
        let e = entries.last();
        let verdict = judged(e, now, b);
        let older = retained(entries.drop_last(), now, verdict.1);
        if !(e.event is ScreenSnapshot) {
            lemma_newest_snapshot(entries.drop_last(), now, verdict.1);
        }
        if verdict.0 {
            assert(older.push(e).drop_last() =~= older);
            assert(older.push(e).last() == e);
        }
    }
}

// ---------------------------------------------------------------------------
// The store
// ---------------------------------------------------------------------------

/// A copy of an event.
pub fn copy_event(e: &TerminalEvent) -> (r: TerminalEvent)
    ensures
        r@ == e@,
{
    match e {
        TerminalEvent::HumanInput { data, visible } => TerminalEvent::HumanInput {
            data: data.clone(),
            visible: *visible,
        },
        TerminalEvent::PtyOutput { data } => TerminalEvent::PtyOutput { data: data.clone() },
        TerminalEvent::VisibleOutput { text } => TerminalEvent::VisibleOutput { text: text.clone() },
        TerminalEvent::CommandStart { command_id, command, cwd } => TerminalEvent::CommandStart {
            command_id: command_id.clone(),
            command: command.clone(),
            cwd: clone_opt(cwd),
        },
        TerminalEvent::CommandEnd { command_id, command, exit_code, duration_ms } => {
            TerminalEvent::CommandEnd {
                command_id: command_id.clone(),
                command: command.clone(),
                exit_code: *exit_code,
                duration_ms: *duration_ms,
            }
        },
        TerminalEvent::ScreenSnapshot {
            snapshot_id,
            rows,
            columns,
            alt_screen,
            screen,
            previous_snapshot_id,
            diff,
        } => TerminalEvent::ScreenSnapshot {
            snapshot_id: snapshot_id.clone(),
            rows: *rows,
            columns: *columns,
            alt_screen: *alt_screen,
            screen: clone_opt(screen),
            previous_snapshot_id: clone_opt(previous_snapshot_id),
            diff: *diff,
        },
        TerminalEvent::AiRequest { request_id, question } => TerminalEvent::AiRequest {
            request_id: request_id.clone(),
            question: question.clone(),
        },
        TerminalEvent::AiResponse { request_id, text } => TerminalEvent::AiResponse {
            request_id: request_id.clone(),
            text: text.clone(),
        },
        TerminalEvent::ControlModeChange { from, to, reason } => TerminalEvent::ControlModeChange {
            from: *from,
            to: *to,
            reason: reason.clone(),
        },
    }
}

fn difference(a: i64, b: i64) -> (r: i64)
    ensures
        r == age_at(a, b),
{
    let wide: i128 = a as i128 - b as i128;
    if wide > i64::MAX as i128 {
        i64::MAX
    } else if wide < i64::MIN as i128 {
        i64::MIN
    } else {
        wide as i64
    }
}

/// The retention spacing for a snapshot of the given age, or `None` when it must be
/// dropped.
fn snapshot_spacing_for_age(age_ms: i64) -> (r: Option<i64>)
    ensures
        match r {
            Some(s) => spacing_for_age(age_ms as int) == Some(s as int),
            None => spacing_for_age(age_ms as int) is None,
        },
{
    if age_ms <= 60_000 {
        Some(200)
    } else if age_ms <= 300_000 {
        Some(5_000)
    } else if age_ms <= 1_800_000 {
        Some(30_000)
    } else if age_ms <= 3_600_000 {
        Some(60_000)
    } else if age_ms <= 43_200_000 {
        Some(300_000)
    } else if age_ms <= 86_400_000 {
        Some(900_000)
    } else if age_ms <= 604_800_000 {
        Some(3_600_000)
    } else {
        None
    }
}

/// Draws `cost` from a budget, returning whether the entry is kept. The entry that
/// straddles the boundary is kept, so retention never cuts an event in half.
fn take_from_budget(budget: &mut usize, cost: usize) -> (kept: bool)
    ensures
        kept == (*old(budget) > 0),
        *final(budget) == spent(*old(budget) as nat, cost as nat),
{
    if *budget == 0 {
        return false;
    }
    *budget = if cost >= *budget {
        0
    } else {
        *budget - cost
    };
    true
}

/// The budgets of a running pass.
struct Remaining {
    last_snapshot: Option<i64>,
    snapshot_bytes: usize,
    pty: usize,
    visible: usize,
    input: usize,
}

impl Remaining {
    spec fn view(&self) -> Budgets {
        Budgets {
            last_snapshot: self.last_snapshot,
            snapshot_bytes: self.snapshot_bytes as nat,
            pty: self.pty as nat,
            visible: self.visible as nat,
            input: self.input as nat,
        }
    }

    fn full() -> (r: Self)
        ensures
            r.view() == full_budgets(),
    {
        Remaining {
            last_snapshot: None,
            snapshot_bytes: SNAPSHOT_RETENTION_BYTES,
            pty: RAW_TEXT_RETENTION_CHARS,
            visible: RAW_TEXT_RETENTION_CHARS,
            input: RAW_TEXT_RETENTION_CHARS,
        }
    }

    /// Downsampling decision for one snapshot, called newest first.
    fn keep_snapshot(&mut self, now: i64, ts: i64) -> (keep: bool)
        ensures
            keep == spaced(now, ts, old(self).last_snapshot),
            final(self).view() == (if keep {
                Budgets { last_snapshot: Some(ts), ..old(self).view() }
            } else {
                old(self).view()
            }),
    {
        let keep = match snapshot_spacing_for_age(difference(now, ts)) {
            None => false,
            Some(spacing) => match self.last_snapshot {
                None => true,
                Some(newer) => difference(newer, ts) >= spacing,
            },
        };
        if keep {
            self.last_snapshot = Some(ts);
        }
        keep
    }

    fn judge(&mut self, e: &TimelineEntry, now: i64) -> (keep: bool)
        ensures
            (keep, final(self).view()) == judged(e@, now, old(self).view()),
    {
        match &e.event {
            TerminalEvent::ScreenSnapshot { screen, .. } => {
                if !self.keep_snapshot(now, e.ts) {
                    return false;
                }
                let cost: usize = match screen {
                    Some(s) => byte_size(s.as_str()),
                    None => 0,
                };
                take_from_budget(&mut self.snapshot_bytes, cost)
            },
            TerminalEvent::PtyOutput { data } => take_from_budget(
                &mut self.pty,
                data.as_str().unicode_len(),
            ),
            TerminalEvent::VisibleOutput { text } => take_from_budget(
                &mut self.visible,
                text.as_str().unicode_len(),
            ),
            TerminalEvent::HumanInput { data, visible } => {
                if *visible {
                    take_from_budget(&mut self.input, data.as_str().unicode_len())
                } else {
                    difference(now, e.ts) <= MAX_AGE_MS
                }
            },
            _ => difference(now, e.ts) <= MAX_AGE_MS,
        }
    }
}

impl SnapshotNotFound {
    /// The message shown for this error.
    pub fn message(&self) -> (r: String)
        ensures
            r@ == "Screen snapshot "@ + text::debug_form(self.snapshot_id@) + " was not found."@,
    {
        let mut out = String::new();
        out.append("Screen snapshot ");
        out.append(debug_quoted(self.snapshot_id.as_str()).as_str());
        out.append(" was not found.");
        assert(out@ =~= "Screen snapshot "@ + text::debug_form(self.snapshot_id@)
            + " was not found."@);
        out
    }
}

/// Keeps only the last `max` characters of `text`.
pub fn trim_start_to_max_characters(text: &str, max: usize) -> (r: String)
    ensures
        r@ == tail(text@, max as nat),
{
    let count: usize = text.unicode_len();
    if count <= max {
        text.to_owned()
    } else {
        text.substring_char(count - max, count).to_owned()
    }
}

/// Maps an event to its contribution to recent human-visible text.
fn event_to_text(event: &TerminalEvent) -> (r: &str)
    ensures
        r@ == event_text(event@),
{
    proof {
        reveal_strlit("");
        assert(""@ =~= Seq::<char>::empty());
    }
    match event {
        TerminalEvent::HumanInput { data, visible } => {
            if *visible {
                data.as_str()
            } else {
                ""
            }
        },
        TerminalEvent::PtyOutput { data } => data.as_str(),
        TerminalEvent::VisibleOutput { text } => text.as_str(),
        TerminalEvent::ScreenSnapshot { screen, .. } => match screen {
            Some(s) => s.as_str(),
            None => "",
        },
        TerminalEvent::AiRequest { question, .. } => question.as_str(),
        TerminalEvent::AiResponse { text, .. } => text.as_str(),
        _ => "",
    }
}

impl<C> View for InMemoryTimelineStore<C> {
    type V = TimelineView;

    closed spec fn view(&self) -> TimelineView {
        TimelineView {
            entries: entry_views(self.entries@),
            next_id: self.next_id as nat,
            since_compaction: self.records_since_compaction as nat,
        }
    }
}

impl<C> InMemoryTimelineStore<C> {
    /// Compaction is never overdue.
    pub closed spec fn wf(self) -> bool {
        self.records_since_compaction < COMPACT_EVERY
    }

    /// Whether `n` more event ids can be given out.
    pub fn can_record(&self, n: u64) -> (r: bool)
        ensures
            r == (self@.next_id + n < u64::MAX),
    {
        u64::MAX - self.next_id > n
    }

    /// Applies the retention policy, keeping the newest entries and discarding the rest.
    /// Walks from the newest entry back, so that every decision favours recent ones.
    fn compact_at(&mut self, now: i64)
        ensures
            final(self)@ == old(self)@.compacted(now),
            final(self).wf(),
    {
        let mut entries: Vec<TimelineEntry> = Vec::new();
        std::mem::swap(&mut entries, &mut self.entries);
        let ghost all = entry_views(entries@);
        let mut reversed: Vec<TimelineEntry> = Vec::new();
        let mut left = Remaining::full();
        let ghost goal = retained(all, now, full_budgets());
        assert(all.take(all.len() as int) =~= all);
        assert(goal =~= retained(all, now, full_budgets()) + entry_views(reversed@).reverse());
        while entries.len() > 0
            invariant
                entry_views(entries@) == all.take(entries@.len() as int),
                entries@.len() <= all.len(),
                goal == retained(all.take(entries@.len() as int), now, left.view()) + entry_views(
                    reversed@,
                ).reverse(),
            decreases entries@.len(),
        {
            let ghost part = all.take(entries@.len() as int);
            let ghost before = left.view();
            let ghost done = reversed@;
            match entries.pop() {
                Some(e) => {
                    assert(e@ == part.last());
                    assert(entry_views(entries@) =~= all.take(entries@.len() as int));
                    assert(part.drop_last() =~= all.take(entries@.len() as int));
                    let keep = left.judge(&e, now);
                    proof {
                        let older = retained(part.drop_last(), now, left.view());
                        if keep {
                            let more = entry_views(done).push(e@);
                            assert(more.reverse() =~= seq![e@] + entry_views(done).reverse());
                            assert(older.push(e@) + entry_views(done).reverse() =~= older
                                + more.reverse());
                            assert(entry_views(done.push(e)) =~= more);
                        }
                    }
                    if keep {
                        reversed.push(e);
                    }
                },
                None => {},
            }
        }
        assert(all.take(0) =~= Seq::<EntryView>::empty());
        assert(goal =~= entry_views(reversed@).reverse());
        let mut kept: Vec<TimelineEntry> = Vec::new();
        let ghost rev = entry_views(reversed@);
        while reversed.len() > 0
            invariant
                reversed@.len() <= rev.len(),
                entry_views(reversed@) == rev.take(reversed@.len() as int),
                entry_views(kept@) == rev.skip(reversed@.len() as int).reverse(),
            decreases reversed@.len(),
        {
            let ghost n = reversed@.len() as int;
            let ghost before = kept@;
            assert(rev.take(n)[n - 1] == entry_views(reversed@)[n - 1]);
            match reversed.pop() {
                Some(e) => {
                    assert(e@ == rev[n - 1]);
                    assert(entry_views(reversed@) =~= rev.take(n - 1));
                    kept.push(e);
                    assert(entry_views(kept@) =~= entry_views(before).push(e@));
                    assert(rev.skip(n - 1).reverse() =~= rev.skip(n).reverse().push(e@));
                },
                None => {},
            }
        }
        assert(rev.skip(0) =~= rev);
        self.entries = kept;
        self.records_since_compaction = 0;
        assert(self@ =~= old(self)@.compacted(now));
    }

    /// Records an event at `now`, assigning it the next id. Every so often the retention
    /// policy follows, so the store stays bounded across a long-lived session.
    pub fn record_at(&mut self, event: TerminalEvent, now: i64) -> (r: TimelineEntry)
        requires
            old(self).wf(),
            old(self)@.next_id < u64::MAX,
        ensures
            final(self).wf(),
            final(self)@ == old(self)@.recorded(event@, now, now),
            r@ == old(self)@.entry_for(event@, now),
    {
        let entry = self.push_entry(event, now);
        if self.records_since_compaction >= COMPACT_EVERY {
            self.compact_at(now);
        }
        entry
    }

    fn push_entry(&mut self, event: TerminalEvent, now: i64) -> (r: TimelineEntry)
        requires
            old(self).wf(),
            old(self)@.next_id < u64::MAX,
        ensures
            final(self)@ == (TimelineView {
                entries: old(self)@.entries.push(old(self)@.entry_for(event@, now)),
                next_id: old(self)@.next_id + 1,
                since_compaction: old(self)@.since_compaction + 1,
            }),
            final(self).records_since_compaction <= COMPACT_EVERY,
            final(self).records_since_compaction == final(self)@.since_compaction,
            r@ == old(self)@.entry_for(event@, now),
    {
        let mut id = String::new();
        id.append("event-");
        push_decimal(&mut id, self.next_id);
        assert(id@ =~= event_id(self@.next_id));
        self.next_id += 1;
        let copy = TimelineEntry { id: id.clone(), ts: now, event: copy_event(&event) };
        let ghost before = self.entries@;
        self.entries.push(TimelineEntry { id, ts: now, event });
        assert(entry_views(self.entries@) =~= entry_views(before).push(copy@));
        self.records_since_compaction += 1;
        copy
    }

    /// Re-applies the retention policy at `now`, outside the recording cadence.
    pub fn maintain_at(&mut self, now: i64)
        ensures
            final(self)@ == old(self)@.compacted(now),
            final(self).wf(),
    {
        self.compact_at(now);
    }

    pub fn list_entries(&self) -> (r: &Vec<TimelineEntry>)
        ensures
            entry_views(r@) == self@.entries,
    {
        &self.entries
    }

    /// The recorded events, oldest first.
    pub fn list_events(&self) -> (r: Vec<&TerminalEvent>)
        ensures
            r@.len() == self@.entries.len(),
            forall|i: int|
                0 <= i < r@.len() ==> (#[trigger] r@[i])@ == self@.entries[i].event,
    {
        let mut out: Vec<&TerminalEvent> = Vec::new();
        let mut i: usize = 0;
        while i < self.entries.len()
            invariant
                i <= self.entries@.len(),
                out@.len() == i,
                forall|j: int| 0 <= j < i ==> *(#[trigger] out@[j]) == self.entries@[j].event,
            decreases self.entries@.len() - i,
        {
            out.push(&self.entries[i].event);
            i += 1;
        }
        out
    }

    /// How many entries the store has room for without allocating.
    pub fn capacity(&self) -> (r: usize)
        ensures
            r >= self@.entries.len(),
    {
        entries_capacity(&self.entries)
    }

    /// Recent human-visible terminal text across event kinds, trimmed to `max` chars.
    pub fn get_recent_text(&self, max: usize) -> (r: String)
        ensures
            r@ == tail(all_text(self@.entries), max as nat),
    {
        let ghost all = self@.entries;
        let mut out = String::new();
        let mut i: usize = 0;
        assert(all.take(0) =~= Seq::<EntryView>::empty());
        while i < self.entries.len()
            invariant
                i <= self.entries@.len(),
                all == entry_views(self.entries@),
                out@ == all_text(all.take(i as int)),
            decreases self.entries@.len() - i,
        {
            out.append(event_to_text(&self.entries[i].event));
            assert(all.take(i + 1).drop_last() =~= all.take(i as int));
            assert(all.take(i + 1).last() == self.entries@[i as int]@);
            i += 1;
        }
        assert(all.take(i as int) =~= all);
        trim_start_to_max_characters(out.as_str(), max)
    }

    /// Recent raw output, trimmed to `max` chars.
    pub fn get_recent_pty_output(&self, max: usize) -> (r: String)
        ensures
            r@ == tail(all_pty(self@.entries), max as nat),
    {
        let ghost all = self@.entries;
        let mut out = String::new();
        let mut i: usize = 0;
        assert(all.take(0) =~= Seq::<EntryView>::empty());
        while i < self.entries.len()
            invariant
                i <= self.entries@.len(),
                all == entry_views(self.entries@),
                out@ == all_pty(all.take(i as int)),
            decreases self.entries@.len() - i,
        {
            let ghost before = out@;
            match &self.entries[i].event {
                TerminalEvent::PtyOutput { data } => {
                    out.append(data.as_str());
                },
                _ => {
                    assert(before + Seq::<char>::empty() =~= before);
                },
            }
            assert(all.take(i + 1).drop_last() =~= all.take(i as int));
            assert(all.take(i + 1).last() == self.entries@[i as int]@);
            i += 1;
        }
        assert(all.take(i as int) =~= all);
        trim_start_to_max_characters(out.as_str(), max)
    }

    /// The recorded snapshots, oldest first.
    pub fn list_screen_snapshots(&self) -> (r: Vec<&TimelineEntry>)
        ensures
            r@.map_values(|e: &TimelineEntry| e@) == snapshots_in(self@.entries),
    {
        let ghost all = self@.entries;
        let mut out: Vec<&TimelineEntry> = Vec::new();
        let mut i: usize = 0;
        assert(all.take(0) =~= Seq::<EntryView>::empty());
        assert(out@.map_values(|e: &TimelineEntry| e@) =~= Seq::<EntryView>::empty());
        while i < self.entries.len()
            invariant
                i <= self.entries@.len(),
                all == entry_views(self.entries@),
                out@.map_values(|e: &TimelineEntry| e@) == snapshots_in(all.take(i as int)),
            decreases self.entries@.len() - i,
        {
            let ghost before = out@;
            assert(all.take(i + 1).drop_last() =~= all.take(i as int));
            assert(all.take(i + 1).last() == self.entries@[i as int]@);
            match &self.entries[i].event {
                TerminalEvent::ScreenSnapshot { .. } => {
                    out.push(&self.entries[i]);
                    assert(out@.map_values(|e: &TimelineEntry| e@) =~= before.map_values(
                        |e: &TimelineEntry| e@,
                    ).push(self.entries@[i as int]@));
                },
                _ => {},
            }
            i += 1;
        }
        assert(all.take(i as int) =~= all);
        out
    }

    /// The snapshot with the given id.
    pub fn get_screen_snapshot(&self, snapshot_id: &str) -> (r: Option<&TimelineEntry>)
        ensures
            match snapshot_with_id(self@.entries, snapshot_id@) {
                Some(e) => r is Some && r->0@ == e,
                None => r is None,
            },
    {
        let ghost all = self@.entries;
        let mut i: usize = 0;
        assert(all.skip(0) =~= all);
        while i < self.entries.len()
            invariant
                i <= self.entries@.len(),
                all == entry_views(self.entries@),
                snapshot_with_id(all.skip(i as int), snapshot_id@) == snapshot_with_id(
                    all,
                    snapshot_id@,
                ),
            decreases self.entries@.len() - i,
        {
            assert(all.skip(i as int).drop_first() =~= all.skip(i + 1));
            assert(all.skip(i as int)[0] == self.entries@[i as int]@);
            match &self.entries[i].event {
                TerminalEvent::ScreenSnapshot { snapshot_id: id, .. } => {
                    if same_text(id.as_str(), snapshot_id) {
                        return Some(&self.entries[i]);
                    }
                },
                _ => {},
            }
            i += 1;
        }
        None
    }

    /// The latest snapshot.
    pub fn get_latest_screen_snapshot(&self) -> (r: Option<&TimelineEntry>)
        ensures
            match self@.latest_snapshot(false) {
                Some(e) => r is Some && r->0@ == e,
                None => r is None,
            },
    {
        self.find_latest_screen_snapshot(false)
    }

    /// The latest snapshot of the alternate screen.
    pub fn get_latest_alternate_screen_snapshot(&self) -> (r: Option<&TimelineEntry>)
        ensures
            match self@.latest_snapshot(true) {
                Some(e) => r is Some && r->0@ == e,
                None => r is None,
            },
    {
        self.find_latest_screen_snapshot(true)
    }

    fn find_latest_screen_snapshot(&self, alternate_only: bool) -> (r: Option<&TimelineEntry>)
        ensures
            match self@.latest_snapshot(alternate_only) {
                Some(e) => r is Some && r->0@ == e,
                None => r is None,
            },
    {
        let ghost all = self@.entries;
        let mut i: usize = self.entries.len();
        assert(all.take(i as int) =~= all);
        while i > 0
            invariant
                i <= self.entries@.len(),
                all == entry_views(self.entries@),
                latest_snapshot_in(all.take(i as int), alternate_only) == latest_snapshot_in(
                    all,
                    alternate_only,
                ),
            decreases i,
        {
            i -= 1;
            assert(all.take(i + 1).drop_last() =~= all.take(i as int));
            assert(all.take(i + 1).last() == self.entries@[i as int]@);
            match &self.entries[i].event {
                TerminalEvent::ScreenSnapshot { alt_screen, .. } => {
                    if *alt_screen || !alternate_only {
                        return Some(&self.entries[i]);
                    }
                },
                _ => {},
            }
        }
        None
    }

    /// Diffs two recorded snapshots by id. Fails on the first id that is not recorded.
    pub fn diff_screen_snapshots(&self, from_snapshot_id: &str, to_snapshot_id: &str) -> (r: Result<
        ScreenSnapshotDiff,
        SnapshotNotFound,
    >)
        ensures
            match (
                snapshot_with_id(self@.entries, from_snapshot_id@),
                snapshot_with_id(self@.entries, to_snapshot_id@),
            ) {
                (None, _) => r is Err && r->Err_0.snapshot_id@ == from_snapshot_id@,
                (Some(_), None) => r is Err && r->Err_0.snapshot_id@ == to_snapshot_id@,
                (Some(from), Some(to)) => r is Ok && ({
                    let d = r->Ok_0;
                    let before = snapshot_screen(from.event);
                    let after = snapshot_screen(to.event);
                    let old = screen_diff::screen_lines(before);
                    let new = screen_diff::screen_lines(after);
                    &&& d.from_snapshot_id@ == from_snapshot_id@
                    &&& d.to_snapshot_id@ == to_snapshot_id@
                    &&& d.diff.follows(screen_diff::line_ops(old, new), old, new)
                    &&& d.diff.added_lines == screen_diff::added_between(before, after)
                    &&& d.diff.removed_lines == screen_diff::removed_between(before, after)
                    &&& screen_diff::applied(old, screen_diff::hunk_views(d.diff.hunks@)) == new
                }),
            },
    {
        let from = match self.required_snapshot_screen(from_snapshot_id) {
            Some(s) => s,
            None => {
                return Err(SnapshotNotFound { snapshot_id: from_snapshot_id.to_owned() });
            },
        };
        let to = match self.required_snapshot_screen(to_snapshot_id) {
            Some(s) => s,
            None => {
                return Err(SnapshotNotFound { snapshot_id: to_snapshot_id.to_owned() });
            },
        };
        Ok(
            ScreenSnapshotDiff {
                from_snapshot_id: from_snapshot_id.to_owned(),
                to_snapshot_id: to_snapshot_id.to_owned(),
                diff: diff_screen_text(from.as_str(), to.as_str()),
            },
        )
    }

    fn required_snapshot_screen(&self, snapshot_id: &str) -> (r: Option<String>)
        ensures
            match snapshot_with_id(self@.entries, snapshot_id@) {
                Some(e) => r is Some && r->0@ == snapshot_screen(e.event),
                None => r is None,
            },
    {
        proof {
            lemma_snapshot_with_id(self@.entries, snapshot_id@);
        }
        match self.get_screen_snapshot(snapshot_id) {
            Some(e) => match &e.event {
                TerminalEvent::ScreenSnapshot { screen, .. } => match screen {
                    Some(s) => Some(s.clone()),
                    None => Some(String::new()),
                },
                _ => None,
            },
            None => None,
        }
    }

    /// Forgets every entry. Ids keep climbing.
    pub fn reset(&mut self)
        requires
            old(self).wf(),
        ensures
            final(self).wf(),
            final(self)@ == (TimelineView { entries: seq![], ..old(self)@ }),
    {
        self.entries.clear();
        assert(entry_views(self.entries@) =~= Seq::<EntryView>::empty());
    }
}

proof fn lemma_snapshot_with_id(entries: Seq<EntryView>, id: Seq<char>)
    ensures
        snapshot_with_id(entries, id) matches Some(e) ==> is_snapshot_with_id(e.event, id),
    decreases entries.len(),
{
    if entries.len() > 0 {
        lemma_snapshot_with_id(entries.drop_first(), id);
    }
}

/// `Vec::capacity`, which is never less than the length.
#[verifier::external_body]
fn entries_capacity(entries: &Vec<TimelineEntry>) -> (r: usize)
    ensures
        r >= entries@.len(),
{
    entries.capacity()
}

impl Default for InMemoryTimelineStore {
    fn default() -> (r: Self)
        ensures
            r.wf(),
            r@ == TimelineView::fresh(),
    {
        Self::new()
    }
}

impl InMemoryTimelineStore {
    /// Creates a store using the system wall clock (milliseconds since epoch).
    pub fn new() -> (r: Self)
        ensures
            r.wf(),
            r@ == TimelineView::fresh(),
    {
        Self::with_clock(SystemClock)
    }
}

impl<C: Clock> InMemoryTimelineStore<C> {
    /// Creates a store with an injectable clock.
    pub fn with_clock(now: C) -> (r: Self)
        ensures
            r.wf(),
            r@ == TimelineView::fresh(),
    {
        let r = InMemoryTimelineStore {
            entries: Vec::new(),
            now,
            next_id: 1,
            records_since_compaction: 0,
        };
        assert(entry_views(r.entries@) =~= Seq::<EntryView>::empty());
        r
    }

    /// Records an event at the current time.
    pub fn record(&mut self, event: TerminalEvent) -> (r: TimelineEntry)
        requires
            old(self).wf(),
            old(self)@.next_id < u64::MAX,
        ensures
            final(self).wf(),
            exists|now: i64, later: i64|
                r@ == old(self)@.entry_for(event@, now) && final(self)@ == #[trigger] old(
                    self,
                )@.recorded(event@, now, later),
    {
        let now: i64 = self.now.now_ms();
        let entry = self.push_entry(event, now);
        if self.records_since_compaction >= COMPACT_EVERY {
            let later: i64 = self.now.now_ms();
            self.compact_at(later);
            assert(self@ == old(self)@.recorded(event@, now, later));
        } else {
            assert(self@ == old(self)@.recorded(event@, now, now));
        }
        entry
    }

    /// Re-applies the retention policy outside the recording cadence, so that a burst
    /// followed by silence keeps aging out.
    pub fn maintain(&mut self)
        ensures
            exists|now: i64| final(self)@ == #[trigger] old(self)@.compacted(now),
            final(self).wf(),
    {
        let now: i64 = self.now.now_ms();
        self.compact_at(now);
    }
}

} // verus!
