use koshell::clock::Clock;
use koshell::timeline::{
    trim_start_to_max_characters, InMemoryTimelineStore, TerminalEvent, MAX_AGE_MS,
    RAW_TEXT_RETENTION_CHARS, SNAPSHOT_RETENTION_BYTES,
};
use std::sync::atomic::{AtomicI64, Ordering};
use std::sync::Arc;

/// The capacity above which a store gives memory back after a purge.
const SHRINK_MIN_CAPACITY: usize = 1024;

struct TestClock(Arc<AtomicI64>);

impl Clock for TestClock {
    fn now_ms(&self) -> i64 {
        self.0.load(Ordering::SeqCst)
    }
}

fn fixed(now: i64) -> InMemoryTimelineStore<TestClock> {
    InMemoryTimelineStore::with_clock(TestClock(Arc::new(AtomicI64::new(now))))
}

fn snapshot(snapshot_id: &str, rows: u16, alt_screen: bool, screen: &str) -> TerminalEvent {
    TerminalEvent::ScreenSnapshot {
        snapshot_id: snapshot_id.to_string(),
        rows,
        columns: 80,
        alt_screen,
        screen: Some(screen.to_string()),
        previous_snapshot_id: None,
        diff: None,
    }
}

/// A store whose clock is a settable `AtomicI64` (epoch ms), so tests can advance
/// wall time and exercise the age-tiered retention.
fn clocked() -> (InMemoryTimelineStore<TestClock>, Arc<AtomicI64>) {
    let clock = Arc::new(AtomicI64::new(0));
    let handle = clock.clone();
    let store = InMemoryTimelineStore::with_clock(TestClock(handle));
    (store, clock)
}

fn snapshot_count(timeline: &InMemoryTimelineStore<TestClock>) -> usize {
    timeline.list_screen_snapshots().len()
}

#[test]
fn downsamples_old_snapshots_by_age_tier() {
    let (mut timeline, clock) = clocked();
    // 40 minutes of one snapshot per second: without retention this is 2400 entries.
    let total_seconds = 40 * 60;
    for sec in 0..total_seconds {
        clock.store(sec as i64 * 1_000, Ordering::SeqCst);
        timeline.record(snapshot(&format!("s{sec}"), 24, false, "x"));
    }
    // "Now" is the last recorded timestamp; compact to apply age-based thinning.
    timeline.maintain();

    let now = (total_seconds - 1) as i64 * 1_000;
    let snapshots = timeline.list_screen_snapshots();

    // The last minute stays dense (one per second), older bands thin out.
    let last_minute = snapshots
        .iter()
        .filter(|e| now.saturating_sub(e.ts) <= 60_000)
        .count();
    assert!(last_minute >= 55, "dense last minute, got {last_minute}");

    // 2400 raw snapshots collapse to a couple hundred across the tiers.
    assert!(
        snapshots.len() < 300,
        "downsampled well below the raw count, got {}",
        snapshots.len()
    );

    // Retained snapshots get sparser with age: no two beyond the 5-minute band sit
    // closer than that band's 30s spacing.
    let mut older_than_5min: Vec<i64> = snapshots
        .iter()
        .map(|e| e.ts)
        .filter(|ts| now.saturating_sub(*ts) > 300_000)
        .collect();
    older_than_5min.sort_unstable();
    for pair in older_than_5min.windows(2) {
        assert!(
            pair[1] - pair[0] >= 30_000,
            "aged snapshots respect >= 30s spacing, got gap {}",
            pair[1] - pair[0]
        );
    }
}

#[test]
fn keeps_recent_raw_text_within_budget_and_drops_older() {
    let (mut timeline, clock) = clocked();
    // 100 bursts of 1000 chars each; only the most recent ~32000 chars survive.
    for i in 0..100 {
        clock.store(i as i64 * 1_000, Ordering::SeqCst);
        timeline.record(TerminalEvent::PtyOutput {
            data: "a".repeat(1_000),
        });
    }
    timeline.maintain();

    let kept = timeline
        .list_events()
        .into_iter()
        .filter(|e| matches!(e, TerminalEvent::PtyOutput { .. }))
        .count();
    assert_eq!(
        kept,
        RAW_TEXT_RETENTION_CHARS / 1_000,
        "keeps exactly the budget's worth of recent bursts"
    );
    // The recent-window query is still fully served.
    assert_eq!(timeline.get_recent_pty_output(8_000).chars().count(), 8_000);
}

#[test]
fn thins_a_fast_burst_in_the_freshest_band() {
    let (mut timeline, clock) = clocked();
    // 40 seconds of one snapshot per 20 ms — a fast-output burst, 2000 raw
    // snapshots, all inside the freshest band at compaction time.
    for i in 0..2_000_i64 {
        clock.store(i * 20, Ordering::SeqCst);
        timeline.record(snapshot(&format!("s{i}"), 24, false, "x"));
    }
    timeline.maintain();

    // The 200 ms floor spacing bounds the burst to ~5 snapshots per second.
    let count = snapshot_count(&timeline);
    assert!(
        (150..=210).contains(&count),
        "a 2000-snapshot burst thins to ~200, got {count}"
    );
}

#[test]
fn caps_retained_snapshot_bytes_even_when_the_tiers_keep_them() {
    let (mut timeline, clock) = clocked();
    // 50 seconds of 400 KB snapshots spaced 250 ms apart: the freshest band keeps
    // all 200 (spacing clears the floor), but their 80 MB exceeds the byte cap.
    let screen = "x".repeat(400_000);
    for i in 0..200_i64 {
        clock.store(i * 250, Ordering::SeqCst);
        timeline.record(snapshot(&format!("s{i}"), 24, false, &screen));
    }
    timeline.maintain();

    let snapshots = timeline.list_screen_snapshots();
    let ids: Vec<&str> = snapshots
        .iter()
        .filter_map(|e| match &e.event {
            TerminalEvent::ScreenSnapshot { snapshot_id, .. } => Some(snapshot_id.as_str()),
            _ => None,
        })
        .collect();
    let retained_bytes: usize = snapshots
        .iter()
        .map(|e| match &e.event {
            TerminalEvent::ScreenSnapshot { screen, .. } => {
                screen.as_ref().map_or(0, |s| s.len())
            }
            _ => 0,
        })
        .sum();

    // At most the budget plus the one straddling snapshot; newest kept, oldest gone.
    assert!(
        retained_bytes <= SNAPSHOT_RETENTION_BYTES + 400_000,
        "retained {retained_bytes} bytes"
    );
    assert!(snapshots.len() < 200, "dropped some, kept {}", ids.len());
    assert!(ids.contains(&"s199"), "newest snapshot survives");
    assert!(!ids.contains(&"s0"), "oldest snapshot is dropped");
}

#[test]
fn shrinks_pathological_entry_capacity_after_a_purge() {
    let (mut timeline, clock) = clocked();
    clock.store(1_000, Ordering::SeqCst);
    // 3000 one-char output events all fit the raw-text char budget, so the entries
    // Vec legitimately grows past the shrink threshold.
    for _ in 0..3_000 {
        timeline.record(TerminalEvent::PtyOutput {
            data: "a".to_string(),
        });
    }
    assert!(timeline.capacity() >= SHRINK_MIN_CAPACITY);

    // One budget-sized burst obsoletes the tail; the purge must return capacity.
    timeline.record(TerminalEvent::PtyOutput {
        data: "b".repeat(RAW_TEXT_RETENTION_CHARS),
    });
    timeline.maintain();
    assert!(timeline.list_entries().len() < 100);
    assert!(
        timeline.capacity() < SHRINK_MIN_CAPACITY,
        "capacity released after the purge, got {}",
        timeline.capacity()
    );
}

#[test]
fn small_store_is_left_untouched_by_compaction() {
    let (mut timeline, clock) = clocked();
    clock.store(1_000, Ordering::SeqCst);
    timeline.record(snapshot("s1", 24, false, "one"));
    timeline.record(TerminalEvent::PtyOutput {
        data: "hello".to_string(),
    });
    timeline.maintain();
    assert_eq!(timeline.list_entries().len(), 2);
    assert_eq!(snapshot_count(&timeline), 1);
}

#[test]
fn records_events_with_deterministic_ids_and_timestamps() {
    let mut timeline = fixed(1_000);
    let first = timeline.record(TerminalEvent::HumanInput {
        data: "ls\r".to_string(),
        visible: true,
    });
    assert_eq!(first.id, "event-1");
    assert_eq!(first.ts, 1_000);
    let second = timeline.record(TerminalEvent::PtyOutput {
        data: "file.txt\r\n".to_string(),
    });
    assert_eq!(second.id, "event-2");
    assert_eq!(timeline.list_entries().len(), 2);
}

#[test]
fn returns_recent_text_and_pty_output_with_limits() {
    let mut timeline = fixed(1);
    timeline.record(TerminalEvent::HumanInput {
        data: "echo hello\r".to_string(),
        visible: true,
    });
    timeline.record(TerminalEvent::PtyOutput {
        data: "hello\r\n".to_string(),
    });
    timeline.record(TerminalEvent::VisibleOutput {
        text: "visible".to_string(),
    });
    timeline.record(TerminalEvent::HumanInput {
        data: "secret".to_string(),
        visible: false,
    });

    assert_eq!(
        timeline.get_recent_text(8_000),
        "echo hello\rhello\r\nvisible"
    );
    assert_eq!(timeline.get_recent_text(5), "sible");
    assert_eq!(timeline.get_recent_pty_output(8_000), "hello\r\n");
}

#[test]
fn tracks_snapshots_latest_alternate_and_reset() {
    let mut timeline = fixed(1);
    timeline.record(snapshot("snapshot-1", 24, false, "first"));
    timeline.record(snapshot("snapshot-2", 30, true, "second"));

    let ids: Vec<&str> = timeline
        .list_screen_snapshots()
        .iter()
        .map(|e| match &e.event {
            TerminalEvent::ScreenSnapshot { snapshot_id, .. } => snapshot_id.as_str(),
            _ => unreachable!(),
        })
        .collect();
    assert_eq!(ids, vec!["snapshot-1", "snapshot-2"]);

    assert!(timeline.get_screen_snapshot("snapshot-1").is_some());
    let latest = timeline.get_latest_screen_snapshot().unwrap();
    assert!(
        matches!(&latest.event, TerminalEvent::ScreenSnapshot { snapshot_id, .. } if snapshot_id == "snapshot-2")
    );
    let alt = timeline.get_latest_alternate_screen_snapshot().unwrap();
    assert!(
        matches!(&alt.event, TerminalEvent::ScreenSnapshot { snapshot_id, .. } if snapshot_id == "snapshot-2")
    );

    timeline.reset();
    assert!(timeline.list_entries().is_empty());
    assert!(timeline.get_latest_screen_snapshot().is_none());
}

#[test]
fn diffs_screen_snapshots_on_demand() {
    let mut timeline = fixed(1);
    timeline.record(snapshot("snapshot-1", 24, false, "one\ntwo"));
    timeline.record(snapshot("snapshot-2", 24, false, "one\nTWO\nthree"));

    let diff = timeline
        .diff_screen_snapshots("snapshot-1", "snapshot-2")
        .unwrap();
    assert_eq!(diff.from_snapshot_id, "snapshot-1");
    assert_eq!(diff.to_snapshot_id, "snapshot-2");
    assert_eq!(diff.diff.added_lines, 2);
    assert_eq!(diff.diff.removed_lines, 1);
    assert_eq!(diff.diff.changed_lines, 3);

    let err = timeline
        .diff_screen_snapshots("missing", "snapshot-2")
        .unwrap_err();
    assert!(err.message().contains("\"missing\" was not found"));
}

#[test]
fn facts_age_out_at_the_horizon_and_raw_text_stays() {
    let (mut timeline, clock) = clocked();
    timeline.record(TerminalEvent::PtyOutput {
        data: "output".to_string(),
    });
    timeline.record(TerminalEvent::AiRequest {
        request_id: "r".to_string(),
        question: "q".to_string(),
    });
    clock.store(MAX_AGE_MS, Ordering::SeqCst);
    timeline.maintain();
    assert_eq!(timeline.list_entries().len(), 2);
    clock.store(MAX_AGE_MS + 1, Ordering::SeqCst);
    timeline.maintain();
    assert_eq!(timeline.list_entries().len(), 1);
    assert_eq!(timeline.get_recent_pty_output(100), "output");
}

#[test]
fn text_is_trimmed_from_its_start() {
    assert_eq!(trim_start_to_max_characters("日本語", 2), "本語");
    assert_eq!(trim_start_to_max_characters("abc", 3), "abc");
    assert_eq!(trim_start_to_max_characters("abc", 0), "");
}

#[test]
fn explicit_instants_stamp_entries() {
    let mut timeline = fixed(1);
    let entry = timeline.record_at(
        TerminalEvent::PtyOutput {
            data: "x".to_string(),
        },
        77,
    );
    assert_eq!((entry.id.as_str(), entry.ts), ("event-1", 77));
    assert!(timeline.can_record(1));
    timeline.maintain_at(77);
    assert_eq!(timeline.list_entries().len(), 1);
}

#[test]
fn compacting_twice_is_compacting_once() {
    let (mut timeline, clock) = clocked();
    // Enough for every kind of purge: old snapshots, fast bursts, and text over budget.
    for step in 0..400 {
        clock.store(step * 7_300, Ordering::SeqCst);
        timeline.record(snapshot(&format!("s{step}"), 24, false, &"x".repeat(9_000)));
        timeline.record(snapshot(&format!("t{step}"), 24, false, "y"));
        timeline.record(TerminalEvent::PtyOutput {
            data: "z".repeat(RAW_TEXT_RETENTION_CHARS / 50),
        });
    }
    let ids = |timeline: &InMemoryTimelineStore<TestClock>| -> Vec<String> {
        timeline.list_entries().iter().map(|entry| entry.id.clone()).collect()
    };
    let before = timeline.list_entries().len();
    timeline.maintain();
    let once = ids(&timeline);
    assert!(once.len() < before);
    timeline.maintain();
    assert_eq!(ids(&timeline), once);
}
