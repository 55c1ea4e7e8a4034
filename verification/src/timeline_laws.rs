//! What holds of the timeline: what is recorded, what is kept and what is found again.

use crate::text;
use crate::text_laws;
use crate::timeline;
use crate::timeline::{EntryView, EventView, TimelineView};
use vstd::prelude::*;

verus! {

// ---------------------------------------------------------------------------
// Recording
// ---------------------------------------------------------------------------

/// A recorded event comes last, as it is and with its time, and everything before it stays,
/// as long as no pass is due.
pub proof fn a_recorded_event_comes_last(
    view: TimelineView,
    event: EventView,
    now: i64,
    later: i64,
)
    ensures
        ({
            let then = view.recorded(event, now, later);
            &&& then.next_id == view.next_id + 1
            &&& view.since_compaction < 255 ==> {
                &&& then.entries.len() == view.entries.len() + 1
                &&& then.entries.last().event == event
                &&& then.entries.last().ts == now
                &&& then.entries.last().id == "event-"@ + text::decimal(view.next_id)
                &&& view.entries.is_prefix_of(then.entries)
                &&& then.since_compaction == view.since_compaction + 1
            }
            &&& view.since_compaction >= 255 ==> then.since_compaction == 0
        }),
{
    let then = view.recorded(event, now, later);
    if view.since_compaction < 255 {
        assert(view.entries =~= then.entries.subrange(0, view.entries.len() as int));
    }
}

/// Whether every entry was given its id before the next one that is to come.
pub open spec fn ids_are_spent(view: TimelineView) -> bool {
    forall|i: int|
        0 <= i < view.entries.len() ==> exists|n: nat|
            n < view.next_id && (#[trigger] view.entries[i]).id == #[trigger] timeline::event_id(n)
}

/// No id is ever given out twice: the one to come is none of those in the store, and
/// recording and compacting keep it so.
pub proof fn an_id_is_given_out_once(view: TimelineView, event: EventView, now: i64, later: i64)
    requires
        ids_are_spent(view),
    ensures
        forall|i: int|
            0 <= i < view.entries.len() ==> (#[trigger] view.entries[i]).id != view.entry_for(
                event,
                now,
            ).id,
        ids_are_spent(view.compacted(now)),
        ids_are_spent(view.recorded(event, now, later)),
        ids_are_spent(TimelineView::fresh()),
{
    let fresh = timeline::event_id(view.next_id);
    assert forall|i: int| 0 <= i < view.entries.len() implies (#[trigger] view.entries[i]).id
        != fresh by {
        let n = choose|n: nat|
            n < view.next_id && view.entries[i].id == #[trigger] timeline::event_id(n);
        lemma_ids_differ(n, view.next_id);
    }
    lemma_spent_kept(view, now);
    let grown = TimelineView {
        entries: view.entries.push(view.entry_for(event, now)),
        next_id: view.next_id + 1,
        since_compaction: view.since_compaction + 1,
    };
    assert forall|i: int| 0 <= i < grown.entries.len() implies exists|n: nat|
        n < grown.next_id && (#[trigger] grown.entries[i]).id == #[trigger] timeline::event_id(
            n,
        ) by {
        if i < view.entries.len() {
            assert(grown.entries[i] == view.entries[i]);
            let n = choose|n: nat|
                n < view.next_id && view.entries[i].id == #[trigger] timeline::event_id(n);
            assert(n < grown.next_id && grown.entries[i].id == timeline::event_id(n));
        } else {
            assert(view.next_id < grown.next_id && grown.entries[i].id == timeline::event_id(
                view.next_id,
            ));
        }
    }
    lemma_spent_kept(grown, later);
}

proof fn lemma_spent_kept(view: TimelineView, now: i64)
    requires
        ids_are_spent(view),
    ensures
        ids_are_spent(view.compacted(now)),
{
    let b = timeline::full_budgets();
    let kept = timeline::retained(view.entries, now, b);
    timeline::compaction_keeps_a_subsequence(view.entries, now, b);
    let picks = choose|picks: Seq<int>| #[trigger] timeline::picked(view.entries, picks, kept);
    assert forall|i: int| 0 <= i < kept.len() implies exists|n: nat|
        n < view.next_id && (#[trigger] kept[i]).id == #[trigger] timeline::event_id(n) by {
        assert(kept[i] == view.entries[picks[i]]);
    }
}

proof fn lemma_ids_differ(a: nat, b: nat)
    requires
        a != b,
    ensures
        timeline::event_id(a) != timeline::event_id(b),
{
    text_laws::numerals_read_back(a);
    text_laws::numerals_read_back(b);
    let n = "event-"@.len() as int;
    assert(timeline::event_id(a).skip(n) =~= text::decimal(a));
    assert(timeline::event_id(b).skip(n) =~= text::decimal(b));
}

// ---------------------------------------------------------------------------
// Finding
// ---------------------------------------------------------------------------

/// The latest snapshot is the last one recorded, of the alternate screen where that is
/// asked for; there is none where none was recorded.
pub proof fn the_last_snapshot_is_the_latest(
    entries: Seq<EntryView>,
    alternate_only: bool,
    i: int,
)
    requires
        -1 <= i < entries.len(),
        forall|j: int|
            i < j < entries.len() ==> match (#[trigger] entries[j]).event {
                EventView::ScreenSnapshot { alt_screen, .. } => alternate_only && !alt_screen,
                _ => true,
            },
    ensures
        i == -1 ==> timeline::latest_snapshot_in(entries, alternate_only) is None,
        i >= 0 ==> match entries[i].event {
            EventView::ScreenSnapshot { alt_screen, .. } => alternate_only ==> alt_screen,
            _ => false,
        } ==> timeline::latest_snapshot_in(entries, alternate_only) == Some(entries[i]),
    decreases entries.len(),
{
    if entries.len() > 0 && i < entries.len() - 1 {
        let init = entries.drop_last();
        assert(entries.last() == entries[entries.len() - 1]);
        assert forall|j: int| i < j < init.len() implies match (#[trigger] init[j]).event {
            EventView::ScreenSnapshot { alt_screen, .. } => alternate_only && !alt_screen,
            _ => true,
        } by {
            assert(init[j] == entries[j]);
        }
        the_last_snapshot_is_the_latest(init, alternate_only, i);
    }
}

/// Asking by an id finds the first snapshot with it, and nothing where there is none.
pub proof fn a_snapshot_is_found_by_its_id(entries: Seq<EntryView>, id: Seq<char>, i: int)
    requires
        0 <= i <= entries.len(),
        forall|j: int|
            0 <= j < i ==> match (#[trigger] entries[j]).event {
                EventView::ScreenSnapshot { snapshot_id, .. } => snapshot_id != id,
                _ => true,
            },
    ensures
        i == entries.len() ==> timeline::snapshot_with_id(entries, id) is None,
        i < entries.len() ==> match entries[i].event {
            EventView::ScreenSnapshot { snapshot_id, .. } => snapshot_id == id,
            _ => false,
        } ==> timeline::snapshot_with_id(entries, id) == Some(entries[i]),
    decreases entries.len(),
{
    if i > 0 {
        let rest = entries.drop_first();
        assert forall|j: int| 0 <= j < i - 1 implies match (#[trigger] rest[j]).event {
            EventView::ScreenSnapshot { snapshot_id, .. } => snapshot_id != id,
            _ => true,
        } by {
            assert(rest[j] == entries[j + 1]);
        }
        assert(entries[0].event == entries[0].event);
        a_snapshot_is_found_by_its_id(rest, id, i - 1);
        if i < entries.len() {
            assert(rest[i - 1] == entries[i]);
        }
    }
}

/// The snapshots listed are those recorded, each of them and in that order.
pub proof fn every_snapshot_is_listed(entries: Seq<EntryView>)
    ensures
        timeline::snapshots_in(entries) == entries.filter(
            |e: EntryView| e.event is ScreenSnapshot,
        ),
    decreases entries.len(),
{
    reveal(Seq::filter);
    if entries.len() > 0 {
        every_snapshot_is_listed(entries.drop_last());
    }
}

// ---------------------------------------------------------------------------
// Retention
// ---------------------------------------------------------------------------

/// How far a snapshot of an age must lie before the next one kept.
pub open spec fn is_far_enough(age: int, distance: int) -> bool {
    &&& age <= 604_800_000
    &&& distance >= 200
    &&& age > 60_000 ==> distance >= 5_000
    &&& age > 300_000 ==> distance >= 30_000
    &&& age > 1_800_000 ==> distance >= 60_000
    &&& age > 3_600_000 ==> distance >= 300_000
    &&& age > 43_200_000 ==> distance >= 900_000
    &&& age > 86_400_000 ==> distance >= 3_600_000
}

/// Snapshots thin out with age: of two kept in a row the older one lies as far before the
/// newer one as its age asks for, from a fifth of a second in the last minute to an hour in
/// the last week.
pub proof fn snapshots_thin_out_with_age(entries: Seq<EntryView>, now: i64, i: int)
    requires
        forall|j: int| 0 <= j < entries.len() ==> 0 <= (#[trigger] entries[j]).ts,
        0 <= now,
    ensures
        ({
            let kept = timeline::snapshots_in(
                timeline::retained(entries, now, timeline::full_budgets()),
            );
            0 <= i < kept.len() - 1 ==> is_far_enough(
                now - kept[i].ts,
                kept[i + 1].ts - kept[i].ts,
            )
        }),
{
    let b = timeline::full_budgets();
    let all = timeline::retained(entries, now, b);
    let kept = timeline::snapshots_in(all);
    timeline::kept_snapshots_are_spaced(entries, now);
    if 0 <= i < kept.len() - 1 {
        lemma_listed(all, i);
        lemma_listed(all, i + 1);
        let p = choose|k: int| 0 <= k < all.len() && #[trigger] all[k] == kept[i];
        let q = choose|k: int| 0 <= k < all.len() && #[trigger] all[k] == kept[i + 1];
        timeline::compaction_keeps_a_subsequence(entries, now, b);
        let picks = choose|picks: Seq<int>| #[trigger] timeline::picked(entries, picks, all);
        assert(entries[picks[p]] == kept[i]);
        assert(entries[picks[q]] == kept[i + 1]);
        assert(timeline::spaced(now, kept[i].ts, Some(kept[i + 1].ts)));
    }
}

proof fn lemma_listed(entries: Seq<EntryView>, i: int)
    requires
        0 <= i < timeline::snapshots_in(entries).len(),
    ensures
        exists|k: int|
            0 <= k < entries.len() && #[trigger] entries[k] == timeline::snapshots_in(entries)[i],
    decreases entries.len(),
{
    if entries.len() > 0 {
        let init = entries.drop_last();
        if i < timeline::snapshots_in(init).len() {
            lemma_listed(init, i);
            let k = choose|k: int|
                0 <= k < init.len() && #[trigger] init[k] == timeline::snapshots_in(init)[i];
            assert(entries[k] == timeline::snapshots_in(entries)[i]);
        } else {
            assert(entries[entries.len() - 1] == timeline::snapshots_in(entries)[i]);
        }
    }
}

/// A snapshot that is far enough from the next newer one kept is no closer than asked: the
/// spacing is exact.
pub proof fn a_distant_snapshot_is_kept(now: i64, ts: i64, newer: i64)
    requires
        0 <= ts,
        0 <= now,
        0 <= newer,
    ensures
        timeline::spaced(now, ts, Some(newer)) <==> is_far_enough(now - ts, newer - ts),
        timeline::spaced(now, ts, None) <==> now - ts <= 604_800_000,
{
}

/// Whether an event is a fact that only age removes: no snapshot and no text that was shown
/// or typed in sight.
pub open spec fn only_ages(event: EventView) -> bool {
    match event {
        EventView::ScreenSnapshot { .. } => false,
        EventView::PtyOutput { .. } => false,
        EventView::VisibleOutput { .. } => false,
        EventView::HumanInput { visible, .. } => !visible,
        _ => true,
    }
}

/// Every other fact is kept for a week and dropped then.
pub proof fn facts_are_kept_for_a_week(entries: Seq<EntryView>, now: i64, e: EntryView)
    requires
        only_ages(e.event),
        0 <= e.ts,
        0 <= now,
    ensures
        ({
            let kept = timeline::retained(entries, now, timeline::full_budgets());
            kept.contains(e) <==> entries.contains(e) && now - e.ts <= 604_800_000
        }),
{
    lemma_facts(entries, now, timeline::full_budgets(), e);
}

proof fn lemma_facts(entries: Seq<EntryView>, now: i64, b: timeline::Budgets, e: EntryView)
    requires
        only_ages(e.event),
        0 <= e.ts,
        0 <= now,
    ensures
        timeline::retained(entries, now, b).contains(e) <==> entries.contains(e) && now - e.ts
            <= 604_800_000,
    decreases entries.len(),
{
    let kept = timeline::retained(entries, now, b);
    if entries.len() > 0 {
        let init = entries.drop_last();
        let last = entries.last();
        let verdict = timeline::judged(last, now, b);
        let older = timeline::retained(init, now, verdict.1);
        lemma_facts(init, now, verdict.1, e);
        assert(entries =~= init.push(last));
        lemma_pushed(init, last, e);
        if verdict.0 {
            lemma_pushed(older, last, e);
        }
    }
}

proof fn lemma_pushed(s: Seq<EntryView>, last: EntryView, e: EntryView)
    ensures
        s.push(last).contains(e) <==> s.contains(e) || e == last,
{
    let t = s.push(last);
    if s.contains(e) {
        let k = choose|k: int| 0 <= k < s.len() && s[k] == e;
        assert(t[k] == e);
    }
    if e == last {
        assert(t[s.len() as int] == e);
    }
    if t.contains(e) {
        let k = choose|k: int| 0 <= k < t.len() && t[k] == e;
        if k < s.len() {
            assert(s[k] == e);
        }
    }
}

/// At least 32,000 characters of the latest output are there after a pass, of each kind as
/// many, and not much more: without the oldest piece they are fewer.
pub proof fn so_much_raw_text_is_kept(
    entries: Seq<EntryView>,
    now: i64,
    kind: timeline::RawText,
    max: nat,
)
    requires
        max <= 32_000,
    ensures
        ({
            let kept = timeline::retained(entries, now, timeline::full_budgets());
            let texts = timeline::raw_texts(kept, kind);
            let shots = timeline::snapshots_in(kept);
            &&& timeline::tail(timeline::all_pty(kept), max) == timeline::tail(
                timeline::all_pty(entries),
                max,
            )
            &&& texts.len() > 0 ==> timeline::texts_len(texts.drop_first()) < 32_000
            &&& shots.len() > 0 ==> timeline::snapshot_bytes(shots.drop_first()) < 33_554_432
        }),
{
    timeline::compaction_preserves_recent_output(entries, now, max);
    timeline::raw_text_is_capped(entries, now, kind);
    timeline::snapshot_text_is_capped(entries, now);
}

/// The newest text of a kind is kept, whatever its length and age.
pub proof fn the_newest_text_is_kept(entries: Seq<EntryView>, now: i64, i: int)
    requires
        0 <= i < entries.len(),
        match entries[i].event {
            EventView::PtyOutput { .. } => forall|j: int|
                i < j < entries.len() ==> !((#[trigger] entries[j]).event is PtyOutput),
            EventView::VisibleOutput { .. } => forall|j: int|
                i < j < entries.len() ==> !((#[trigger] entries[j]).event is VisibleOutput),
            EventView::HumanInput { visible, .. } => visible && forall|j: int|
                i < j < entries.len() ==> !((#[trigger] entries[j]).event is HumanInput),
            _ => false,
        },
    ensures
        timeline::retained(entries, now, timeline::full_budgets()).contains(entries[i]),
{
    lemma_newest_text(entries, now, timeline::full_budgets(), i);
}

proof fn lemma_newest_text(entries: Seq<EntryView>, now: i64, b: timeline::Budgets, i: int)
    requires
        0 <= i < entries.len(),
        match entries[i].event {
            EventView::PtyOutput { .. } => b.pty > 0 && forall|j: int|
                i < j < entries.len() ==> !((#[trigger] entries[j]).event is PtyOutput),
            EventView::VisibleOutput { .. } => b.visible > 0 && forall|j: int|
                i < j < entries.len() ==> !((#[trigger] entries[j]).event is VisibleOutput),
            EventView::HumanInput { visible, .. } => visible && b.input > 0 && forall|j: int|
                i < j < entries.len() ==> !((#[trigger] entries[j]).event is HumanInput),
            _ => false,
        },
    ensures
        timeline::retained(entries, now, b).contains(entries[i]),
    decreases entries.len(),
{
    let init = entries.drop_last();
    let last = entries.last();
    let verdict = timeline::judged(last, now, b);
    let older = timeline::retained(init, now, verdict.1);
    if i < entries.len() - 1 {
        assert(init[i] == entries[i]);
        assert(last == entries[entries.len() - 1]);
        assert forall|j: int| i < j < init.len() implies init[j] == entries[j] by {}
        lemma_newest_text(init, now, verdict.1, i);
        lemma_pushed(older, last, entries[i]);
    } else {
        assert(verdict.0);
        lemma_pushed(older, last, last);
    }
}

} // verus!
