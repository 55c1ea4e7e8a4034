use koshell::clock::Clock;
use koshell::command_history::{
    CommandHistory, ReadError, MAX_COMMAND_OUTPUT_BYTES, MAX_COMMAND_PREVIEW_CHARACTERS,
    MAX_COMMAND_TEXT_BYTES, MAX_COMPLETED_COMMANDS, MAX_READ_LIMIT, MAX_TOTAL_OUTPUT_BYTES,
};
use std::sync::atomic::{AtomicI64, Ordering};
use std::sync::Arc;

struct TestClock(Arc<AtomicI64>);

impl Clock for TestClock {
    fn now_ms(&self) -> i64 {
        self.0.load(Ordering::SeqCst)
    }
}

fn clocked() -> (CommandHistory<TestClock>, Arc<AtomicI64>) {
    let clock = Arc::new(AtomicI64::new(0));
    let handle = clock.clone();
    (CommandHistory::with_clock(TestClock(handle)), clock)
}

fn history() -> CommandHistory<TestClock> {
    clocked().0
}

#[test]
fn one_id_spans_start_through_end() {
    let mut store = history();
    let id = store.begin("ls -la", Some("/tmp".to_string()));
    store.record_output(b"file-a\r\nfile-b\r\n");
    assert_eq!(store.active_command_id(), Some(id.as_str()));
    assert_eq!(store.end(Some(0)).as_deref(), Some(id.as_str()));

    let recent = store.recent();
    assert_eq!(recent.len(), 1);
    assert_eq!(recent[0].command_id, id);
    assert_eq!(recent[0].command, "ls -la");
    assert_eq!(recent[0].cwd.as_deref(), Some("/tmp"));
    assert_eq!(recent[0].exit_code, Some(0));
    assert_eq!(
        store.read(&id, None, None).unwrap().content,
        "file-a\r\nfile-b\r\n"
    );
}

#[test]
fn duration_comes_from_the_span_boundaries() {
    let (mut store, clock) = clocked();
    clock.store(1_000, Ordering::SeqCst);
    let id = store.begin("sleep 2", None);
    clock.store(3_500, Ordering::SeqCst);
    store.end(Some(0));

    let recent = store.recent();
    assert_eq!(recent[0].started_at, 1_000);
    assert_eq!(recent[0].ended_at, 3_500);
    assert_eq!(recent[0].duration_ms, 2_500);
    assert_eq!(
        store.read(&id, None, None).unwrap().info.total_characters,
        0
    );
}

#[test]
fn output_outside_a_span_is_not_captured() {
    let mut store = history();
    // The returning prompt, and anything typed at an idle prompt.
    store.record_output(b"$ ");
    let id = store.begin("echo hi", None);
    store.record_output(b"hi\r\n");
    store.end(Some(0));
    store.record_output(b"$ ");

    assert_eq!(store.read(&id, None, None).unwrap().content, "hi\r\n");
}

#[test]
fn an_end_without_a_start_creates_no_row() {
    let mut store = history();
    assert_eq!(store.end(Some(0)), None);
    assert_eq!(store.completed_count(), 0);
}

#[test]
fn a_new_start_discards_the_incomplete_capture_with_a_warning() {
    let mut store = history();
    store.begin("first", None);
    store.record_output(b"partial");
    let second = store.begin("second", None);

    let warnings = store.take_warnings();
    assert_eq!(warnings.len(), 1);
    assert!(warnings[0].contains("command-1"));
    assert!(warnings[0].contains("a new command started"));

    store.record_output(b"done");
    store.end(Some(0));
    assert_eq!(store.completed_count(), 1);
    assert_eq!(store.recent()[0].command_id, second);
    assert_eq!(store.read(&second, None, None).unwrap().content, "done");
}

#[test]
fn shell_exit_discards_the_unfinished_span() {
    let mut store = history();
    store.begin("tail -f log", None);
    store.record_output(b"line");
    store.abandon_active();

    assert_eq!(store.completed_count(), 0);
    assert!(store.take_warnings()[0].contains("the shell exited"));
}

#[test]
fn a_failed_command_is_still_a_completed_span() {
    let mut store = history();
    let id = store.begin("false", None);
    store.end(Some(1));
    assert_eq!(store.recent()[0].exit_code, Some(1));
    assert!(store.read(&id, None, None).unwrap().info.available);
}

#[test]
fn only_the_ten_most_recent_commands_are_indexed() {
    let mut store = history();
    for index in 0..13 {
        store.begin(&format!("cmd-{index}"), None);
        store.end(Some(0));
    }
    let recent = store.recent();
    assert_eq!(recent.len(), MAX_COMPLETED_COMMANDS);
    // Newest first.
    assert_eq!(recent[0].command, "cmd-12");
    assert_eq!(recent[9].command, "cmd-3");
    assert_eq!(store.latest_command_id(), Some("command-13"));
}

#[test]
fn utf8_split_across_chunks_is_decoded_whole() {
    let mut store = history();
    let id = store.begin("cat unicode.txt", None);
    let bytes = "日本語".as_bytes();
    // Split mid-scalar in two places.
    store.record_output(&bytes[..2]);
    store.record_output(&bytes[2..7]);
    store.record_output(&bytes[7..]);
    store.end(Some(0));

    assert_eq!(store.read(&id, None, None).unwrap().content, "日本語");
}

#[test]
fn malformed_bytes_become_replacement_characters() {
    let mut store = history();
    let id = store.begin("cat binary", None);
    store.record_output(&[b'a', 0xFF, 0xFE, b'b']);
    store.end(Some(0));

    assert_eq!(
        store.read(&id, None, None).unwrap().content,
        "a\u{FFFD}\u{FFFD}b"
    );
}

#[test]
fn a_dangling_partial_sequence_is_replaced_at_span_end() {
    let mut store = history();
    let id = store.begin("cat truncated", None);
    store.record_output(&"日".as_bytes()[..2]);
    store.end(Some(0));

    assert_eq!(store.read(&id, None, None).unwrap().content, "\u{FFFD}");
}

#[test]
fn a_single_command_is_capped_and_keeps_its_tail() {
    let mut store = history();
    let id = store.begin("yes", None);
    // Two full caps' worth, in chunks.
    let chunk = vec![b'a'; 64 * 1024];
    for _ in 0..32 {
        store.record_output(&chunk);
    }
    store.record_output(b"TAIL");
    store.end(Some(0));

    let info = store.read(&id, None, None).unwrap().info;
    assert!(info.retained_bytes <= MAX_COMMAND_OUTPUT_BYTES);
    assert_eq!(info.total_bytes, 32 * 64 * 1024 + 4);
    assert!(info.source_truncated);
    assert!(info.dropped_prefix_bytes > 0);
    assert_eq!(
        info.retained_start_offset + info.retained_characters,
        info.total_characters
    );

    // The tail survives: the end of a command's output is where the error is.
    let page = store
        .read(&id, Some(info.total_characters - 4), Some(16))
        .unwrap();
    assert_eq!(page.content, "TAIL");
}

#[test]
fn the_session_cap_reclaims_the_oldest_output_but_keeps_its_metadata() {
    let mut store = history();
    let chunk = vec![b'x'; 256 * 1024];
    let mut ids = Vec::new();
    for index in 0..8 {
        ids.push(store.begin(&format!("big-{index}"), None));
        for _ in 0..3 {
            store.record_output(&chunk);
        }
        store.end(Some(0));
    }

    assert!(
        store.retained_bytes() <= MAX_TOTAL_OUTPUT_BYTES,
        "retained {} exceeds the session cap",
        store.retained_bytes()
    );
    // Every command still has a metadata row.
    assert_eq!(store.completed_count(), 8);

    // The oldest lost its output and says so, rather than reporting a short read.
    let oldest = store.read(&ids[0], None, None).unwrap();
    assert_eq!(oldest.info.retained_bytes, 0);
    assert!(oldest.info.source_truncated);
    assert!(!oldest.info.available);
    assert!(oldest.info.total_bytes > 0);
}

#[test]
fn paging_covers_retained_text_without_gaps_or_overlap() {
    let mut store = history();
    let id = store.begin("seq", None);
    let text: String = (0..5_000)
        .map(|n| char::from(b'a' + (n % 26) as u8))
        .collect();
    store.record_output(text.as_bytes());
    store.end(Some(0));

    let mut assembled = String::new();
    let mut offset = 0;
    loop {
        let page = store.read(&id, Some(offset), Some(700)).unwrap();
        assembled.push_str(&page.content);
        offset = page.next_offset;
        if !page.has_more {
            break;
        }
    }
    assert_eq!(assembled, text);
}

#[test]
fn paging_is_scalar_aligned_across_multibyte_text() {
    let mut store = history();
    let id = store.begin("cat cjk", None);
    let text: String = "日本語テキスト".repeat(500);
    store.record_output(text.as_bytes());
    store.end(Some(0));

    let mut assembled = String::new();
    let mut offset = 0;
    loop {
        let page = store.read(&id, Some(offset), Some(333)).unwrap();
        assembled.push_str(&page.content);
        offset = page.next_offset;
        if !page.has_more {
            break;
        }
    }
    assert_eq!(assembled, text);
}

#[test]
fn the_read_limit_is_clamped() {
    let mut store = history();
    let id = store.begin("seq", None);
    store.record_output(&vec![b'z'; MAX_READ_LIMIT * 2]);
    store.end(Some(0));

    let page = store.read(&id, None, Some(MAX_READ_LIMIT * 2)).unwrap();
    assert_eq!(page.content.chars().count(), MAX_READ_LIMIT);
    assert!(page.has_more);
}

#[test]
fn reading_an_evicted_offset_names_the_earliest_available_one() {
    let mut store = history();
    let id = store.begin("yes", None);
    let chunk = vec![b'a'; 64 * 1024];
    for _ in 0..24 {
        store.record_output(&chunk);
    }
    store.end(Some(0));

    let earliest = store
        .read(&id, None, None)
        .unwrap()
        .info
        .retained_start_offset;
    assert!(earliest > 0);
    assert_eq!(
        store.read(&id, Some(0), None),
        Err(ReadError::OutputEvicted {
            earliest_offset: earliest
        })
    );
    // The named offset works.
    assert!(store.read(&id, Some(earliest), None).is_ok());
}

#[test]
fn reading_an_unknown_id_is_command_not_found() {
    let mut store = history();
    store.begin("ls", None);
    store.end(Some(0));
    assert_eq!(
        store.read("command-99", None, None),
        Err(ReadError::CommandNotFound)
    );
    // The active span is not readable either: it has no completed row yet.
    store.begin("tail -f", None);
    assert_eq!(
        store.read("command-2", None, None),
        Err(ReadError::CommandNotFound)
    );
}

#[test]
fn an_abnormal_command_line_is_capped_in_storage_and_in_the_preview() {
    let mut store = history();
    let long = "x".repeat(MAX_COMMAND_TEXT_BYTES * 2);
    store.begin(&long, None);
    store.end(Some(0));

    let command = &store.recent()[0];
    assert!(command.command.len() <= MAX_COMMAND_TEXT_BYTES);
    assert!(command.command_truncated);

    let (preview, truncated) = command.command_preview();
    assert_eq!(preview.chars().count(), MAX_COMMAND_PREVIEW_CHARACTERS);
    assert!(truncated);
}

#[test]
fn a_short_command_previews_whole_and_untruncated() {
    let mut store = history();
    store.begin("git status", None);
    store.end(Some(0));
    assert_eq!(
        store.recent()[0].command_preview(),
        ("git status".to_string(), false)
    );
}

#[test]
fn a_command_with_no_output_is_available_and_empty() {
    let mut store = history();
    let id = store.begin("true", None);
    store.end(Some(0));

    let page = store.read(&id, None, None).unwrap();
    assert_eq!(page.content, "");
    assert!(!page.has_more);
    assert!(page.info.available);
    assert!(!page.info.source_truncated);
    assert_eq!(page.info.total_bytes, 0);
}

#[test]
fn recording_does_not_depend_on_how_output_is_chunked() {
    let text = "первая строка\r\n第二行\r\nlast".as_bytes();
    let mut whole = history();
    let a = whole.begin("cat", None);
    whole.record_output(text);
    whole.end(Some(0));
    for size in 1..9 {
        let mut pieces = history();
        let b = pieces.begin("cat", None);
        for chunk in text.chunks(size) {
            pieces.record_output(chunk);
        }
        pieces.end(Some(0));
        assert_eq!(
            whole.read(&a, None, None).unwrap().content,
            pieces.read(&b, None, None).unwrap().content
        );
    }
}

#[test]
fn explicit_instants_stamp_a_span() {
    let mut store = history();
    let id = store.begin_at("make", None, 10);
    assert_eq!(id, "command-1");
    assert_eq!(store.end_at(None, 5).as_deref(), Some("command-1"));
    // A clock that ran backwards gives no duration.
    assert_eq!(store.recent()[0].duration_ms, 0);
    assert_eq!(store.recent()[0].exit_code, None);
}

#[test]
fn there_is_room_for_output_and_commands() {
    let store = history();
    assert!(store.can_record(1 << 20));
    assert!(store.can_begin());
}

#[test]
fn chunking_does_not_matter_where_older_output_makes_room() {
    let full = "é".repeat(512 * 1024);
    let bytes = "日本語\n".repeat(100).into_bytes();
    let filled = || {
        let mut store = history();
        for _ in 0..4 {
            store.begin("fill", None);
            store.record_output(full.as_bytes());
            store.end(Some(0));
        }
        store.begin("last", None);
        store
    };
    let mut whole = filled();
    whole.record_output(&bytes);
    let mut cut = filled();
    cut.record_output(&bytes[..500]);
    cut.record_output(&bytes[500..]);
    for store in [&mut whole, &mut cut] {
        store.end(Some(0));
    }
    for id in ["command-1", "command-2", "command-5"] {
        assert_eq!(
            whole.read(id, None, None).expect("a page"),
            cut.read(id, None, None).expect("a page"),
            "{id}"
        );
    }
    // The oldest row made room for whole characters.
    let oldest = whole.read("command-1", None, Some(1)).expect("a page");
    assert_eq!(oldest.offset, 500);
    let newest = whole.read("command-5", None, None).expect("a page");
    assert_eq!(newest.content.as_bytes(), &bytes[..]);
}

#[test]
fn a_span_is_the_lossy_text_of_its_bytes() {
    let bytes = b"a\xff\xe6\x97\xa5\xf0\x9f\x98b\xe6\x97";
    let mut store = history();
    let id = store.begin("cat", None);
    for chunk in bytes.chunks(2) {
        store.record_output(chunk);
    }
    store.end(None);
    assert_eq!(
        store.read(&id, None, None).expect("a page").content,
        String::from_utf8_lossy(bytes)
    );
}
