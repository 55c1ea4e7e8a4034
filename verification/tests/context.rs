use koshell::clock::Clock;
use koshell::context::{
    build_terminal_context, PrimarySource, TerminalContextOptions, TerminalScreenChange,
};
use koshell::screen_diff::ScreenDiffSummary;
use koshell::timeline::{InMemoryTimelineStore, TerminalEvent};

struct FixedClock(i64);

impl Clock for FixedClock {
    fn now_ms(&self) -> i64 {
        self.0
    }
}

fn store() -> InMemoryTimelineStore<FixedClock> {
    InMemoryTimelineStore::with_clock(FixedClock(1))
}

fn input(data: &str) -> TerminalEvent {
    TerminalEvent::HumanInput {
        data: data.to_string(),
        visible: true,
    }
}

#[test]
fn uses_recent_pty_output_as_primary_in_normal_shell() {
    let mut timeline = store();
    timeline.record(input("echo hello\r"));
    timeline.record(TerminalEvent::PtyOutput {
        data: "hello\r\n".to_string(),
    });
    timeline.record(TerminalEvent::ScreenSnapshot {
        snapshot_id: "snapshot-1".to_string(),
        rows: 24,
        columns: 80,
        alt_screen: false,
        screen: Some("hello".to_string()),
        previous_snapshot_id: None,
        diff: None,
    });

    let ctx = build_terminal_context(&timeline, &TerminalContextOptions::default());
    assert_eq!(ctx.recent_input, "echo hello\r");
    assert_eq!(ctx.recent_pty_output, "hello\r\n");
    assert_eq!(ctx.recent_visible_output, "");
    assert!(ctx.recent_screen_changes.is_empty());
    assert_eq!(ctx.current_screen.as_deref(), Some("hello"));
    assert!(!ctx.alt_screen);
    assert_eq!(ctx.primary_text, "hello\r\n");
    assert_eq!(ctx.primary_source, PrimarySource::PtyOutput);
    assert_eq!(ctx.screen_rows, Some(24));
    assert_eq!(ctx.screen_columns, Some(80));
}

#[test]
fn prefers_visible_output_over_raw_pty() {
    let mut timeline = store();
    timeline.record(TerminalEvent::PtyOutput {
        data: "\u{1b}[31mred\u{1b}[0m".to_string(),
    });
    timeline.record(TerminalEvent::VisibleOutput {
        text: "red".to_string(),
    });

    let ctx = build_terminal_context(&timeline, &TerminalContextOptions::default());
    assert_eq!(ctx.primary_text, "red");
    assert_eq!(ctx.primary_source, PrimarySource::VisibleOutput);
}

#[test]
fn prefers_current_screen_in_alternate_screen_mode() {
    let mut timeline = store();
    timeline.record(input("vim file.txt\r"));
    timeline.record(TerminalEvent::PtyOutput {
        data: "\u{1b}[?1049h\u{1b}[2Jfile contents".to_string(),
    });
    timeline.record(TerminalEvent::ScreenSnapshot {
        snapshot_id: "snapshot-1".to_string(),
        rows: 24,
        columns: 80,
        alt_screen: true,
        screen: Some("file contents".to_string()),
        previous_snapshot_id: None,
        diff: None,
    });

    let ctx = build_terminal_context(&timeline, &TerminalContextOptions::default());
    assert!(ctx.alt_screen);
    assert_eq!(ctx.current_screen.as_deref(), Some("file contents"));
    assert_eq!(ctx.primary_text, "file contents");
    assert_eq!(ctx.primary_source, PrimarySource::ScreenSnapshot);
}

#[test]
fn exposes_recent_screen_change_summaries() {
    let mut timeline = store();
    timeline.record(TerminalEvent::ScreenSnapshot {
        snapshot_id: "snapshot-1".to_string(),
        rows: 4,
        columns: 80,
        alt_screen: false,
        screen: Some("one".to_string()),
        previous_snapshot_id: None,
        diff: None,
    });
    timeline.record(TerminalEvent::ScreenSnapshot {
        snapshot_id: "snapshot-2".to_string(),
        rows: 4,
        columns: 80,
        alt_screen: true,
        screen: Some("one\ntwo\nthree".to_string()),
        previous_snapshot_id: Some("snapshot-1".to_string()),
        diff: Some(ScreenDiffSummary {
            added_lines: 2,
            removed_lines: 0,
            changed_lines: 2,
        }),
    });

    let ctx = build_terminal_context(&timeline, &TerminalContextOptions::default());
    assert_eq!(
        ctx.recent_screen_changes,
        vec![TerminalScreenChange {
            snapshot_id: "snapshot-2".to_string(),
            previous_snapshot_id: Some("snapshot-1".to_string()),
            alt_screen: true,
            rows: 4,
            added_lines: 2,
            removed_lines: 0,
            changed_lines: 2,
            large_change: true,
            summary: "+2, -0".to_string(),
        }]
    );
}

#[test]
fn hides_hidden_human_input() {
    let mut timeline = store();
    timeline.record(input("visible\r"));
    timeline.record(TerminalEvent::HumanInput {
        data: "secret".to_string(),
        visible: false,
    });

    let ctx = build_terminal_context(&timeline, &TerminalContextOptions::default());
    assert_eq!(ctx.recent_input, "visible\r");
}

#[test]
fn honors_character_limits() {
    let mut timeline = store();
    timeline.record(input("abcdef"));
    timeline.record(TerminalEvent::PtyOutput {
        data: "123456".to_string(),
    });
    timeline.record(TerminalEvent::VisibleOutput {
        text: "uvwxyz".to_string(),
    });
    timeline.record(TerminalEvent::ScreenSnapshot {
        snapshot_id: "snapshot-1".to_string(),
        rows: 24,
        columns: 80,
        alt_screen: true,
        screen: Some("screen-text".to_string()),
        previous_snapshot_id: None,
        diff: None,
    });

    let ctx = build_terminal_context(
        &timeline,
        &TerminalContextOptions {
            recent_input_max_characters: Some(3),
            recent_pty_output_max_characters: Some(2),
            recent_visible_output_max_characters: Some(4),
            current_screen_max_characters: Some(4),
            recent_screen_changes_limit: None,
        },
    );
    assert_eq!(ctx.recent_input, "def");
    assert_eq!(ctx.recent_pty_output, "56");
    assert_eq!(ctx.recent_visible_output, "wxyz");
    assert_eq!(ctx.current_screen.as_deref(), Some("text"));
    assert_eq!(ctx.primary_text, "text");
}

#[test]
fn an_empty_timeline_has_no_context() {
    let ctx = build_terminal_context(&store(), &TerminalContextOptions::default());
    assert_eq!(ctx.primary_source, PrimarySource::Empty);
    assert_eq!(ctx.primary_text, "");
    assert_eq!(ctx.current_screen, None);
    assert_eq!(ctx.screen_rows, None);
    assert!(!ctx.alt_screen);
}
