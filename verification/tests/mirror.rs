use koshell::mirror::{
    tell_apart, RawCell, ScreenCell, ScreenCursor, Shade, TerminalMirror, Viewport, FLAG_BOLD,
    FLAG_WIDE_CHAR_SPACER, FLAG_WRAPLINE,
};

#[test]
fn mirrors_plain_text() {
    let mut mirror = TerminalMirror::new(80, 24);
    mirror.write(b"hello");
    let snapshot = mirror.snapshot();
    assert_eq!(snapshot.screen, "hello");
    assert!(!snapshot.alt_screen);
    assert_eq!(snapshot.rows, 24);
    assert_eq!(snapshot.columns, 80);
}

#[test]
fn mirrors_multiple_lines() {
    let mut mirror = TerminalMirror::new(80, 24);
    mirror.write(b"first\r\nsecond");
    assert_eq!(mirror.snapshot().screen, "first\nsecond");
}

#[test]
fn detects_alternate_screen_toggle() {
    let mut mirror = TerminalMirror::new(20, 5);
    mirror.write(b"normal");
    assert!(!mirror.snapshot().alt_screen);
    assert_eq!(mirror.snapshot().screen, "normal");

    // Enter alternate screen, clear, home the cursor, draw, then leave; the primary
    // buffer content is restored on exit.
    mirror.write(b"\x1b[?1049h\x1b[2J\x1b[Halternate");
    let alt = mirror.snapshot();
    assert!(alt.alt_screen);
    assert_eq!(alt.screen, "alternate");

    mirror.write(b"\x1b[?1049l");
    let restored = mirror.snapshot();
    assert!(!restored.alt_screen);
    assert_eq!(restored.screen, "normal");
}

#[test]
fn resizes_mirror() {
    let mut mirror = TerminalMirror::new(20, 5);
    mirror.resize(100, 30);
    let snapshot = mirror.snapshot();
    assert_eq!(snapshot.columns, 100);
    assert_eq!(snapshot.rows, 30);
}

#[test]
fn empty_write_is_noop() {
    let mut mirror = TerminalMirror::new(80, 24);
    mirror.write(b"");
    assert_eq!(mirror.snapshot().screen, "");
}

#[test]
fn reads_cursor_row_text_and_column() {
    let mut mirror = TerminalMirror::new(20, 5);
    mirror.write(b"first\r\n>>> ");
    let (text, cursor_x) = mirror.cursor_row();
    assert_eq!(text, ">>>");
    assert_eq!(cursor_x, 4);
}

#[test]
fn live_region_reconstructs_styled_sgr_runs() {
    let mut mirror = TerminalMirror::new(20, 5);
    // A two-tone prompt: bold green marker, default-colored space, plain tail.
    mirror.write(b"first\r\n\x1b[1;32m>\x1b[0m x");
    let region = mirror.live_region().expect("live region");
    assert_eq!(region.styled_rows, vec!["\x1b[1;32m>\x1b[0m x".to_string()]);
    assert_eq!(region.last_row_chars, 3);
    assert_eq!(region.cursor_col, 3);
    assert!(!region.needs_wrap);
    assert_eq!(region.row_above.as_deref(), Some("first"));

    // Replaying the styled text through a fresh mirror reproduces the row.
    let mut replay = TerminalMirror::new(20, 5);
    replay.write(region.styled_rows[0].as_bytes());
    assert_eq!(replay.cursor_row().0, "> x");
}

#[test]
fn live_region_keeps_indexed_and_truecolor() {
    let mut mirror = TerminalMirror::new(40, 5);
    mirror.write(b"\x1b[38;5;208ma\x1b[0m\x1b[38;2;1;2;3mb\x1b[0m");
    let region = mirror.live_region().expect("live region");
    let styled = &region.styled_rows[0];
    assert!(
        styled.contains("38;5;208"),
        "indexed color kept: {styled:?}"
    );
    assert!(styled.contains("38;2;1;2;3"), "truecolor kept: {styled:?}");
    assert!(styled.ends_with("\x1b[0m"), "trailing reset: {styled:?}");
    assert_eq!(region.row_above, None, "region starts at the viewport top");
}

#[test]
fn live_region_spans_soft_wrapped_input() {
    let mut mirror = TerminalMirror::new(10, 5);
    mirror.write(b"before\r\n>>> abcdefXY");
    let region = mirror.live_region().expect("live region");
    assert_eq!(
        region.styled_rows,
        vec![">>> abcdef".to_string(), "XY".to_string()],
        "wrapped row kept full width, last row trimmed"
    );
    assert_eq!(region.last_row_chars, 2);
    assert_eq!(region.cursor_col, 2);
    assert_eq!(region.row_above.as_deref(), Some("before"));
}

#[test]
fn live_region_reports_pending_wrap() {
    let mut mirror = TerminalMirror::new(10, 5);
    mirror.write(b"0123456789");
    let region = mirror.live_region().expect("live region");
    assert!(region.needs_wrap);
    assert_eq!(region.cursor_col, 9, "cursor parked on the last column");
    assert!(mirror.cursor_needs_wrap());
}

#[test]
fn live_region_is_unavailable_on_the_alternate_screen() {
    let mut mirror = TerminalMirror::new(20, 5);
    mirror.write(b"\x1b[?1049h\x1b[2J\x1b[Halt");
    assert_eq!(mirror.live_region(), None);
}

#[test]
fn cursor_logical_line_joins_soft_wrapped_rows() {
    let mut mirror = TerminalMirror::new(10, 5);
    mirror.write(b"abcdefghij#? hello");
    assert_eq!(mirror.cursor_logical_line(), "abcdefghij#? hello");
}

#[test]
fn cursor_logical_line_stops_at_hard_line_breaks() {
    let mut mirror = TerminalMirror::new(20, 5);
    mirror.write(b"previous line\r\n$ ls #? explain");
    assert_eq!(mirror.cursor_logical_line(), "$ ls #? explain");
}

#[test]
fn wide_characters_take_one_cell_in_the_text() {
    let mut mirror = TerminalMirror::new(20, 5);
    mirror.write("日本 ok".as_bytes());
    assert_eq!(mirror.snapshot().screen, "日本 ok");
    assert_eq!(mirror.cursor_row().1, 7);
}

#[test]
fn attributes_are_told_apart() {
    for (code, attribute) in [
        ("1", "bold"),
        ("2", "dim"),
        ("3", "italic"),
        ("4", "underline"),
        ("7", "inverse"),
        ("9", "strikeout"),
    ] {
        let mut mirror = TerminalMirror::new(20, 5);
        let written = format!("\x1b[{code}mx\x1b[0m");
        mirror.write(written.as_bytes());
        let region = mirror.live_region().expect("live region");
        assert_eq!(region.styled_rows, vec![written], "{attribute}");
    }
}

#[test]
fn a_resize_reflows_what_is_shown() {
    let mut mirror = TerminalMirror::new(5, 5);
    mirror.write(b"abcdefghij");
    assert_eq!(mirror.snapshot().screen, "abcde\nfghij");
    mirror.resize(20, 5);
    assert_eq!(mirror.snapshot().screen, "abcdefghij");
    assert!(!mirror.is_alt_screen());
}

/// A cell without styling.
fn raw(c: char, flags: u16) -> RawCell {
    RawCell {
        c,
        flags,
        fg: Shade::Named(256),
        bg: Shade::Named(257),
    }
}

fn cells(line: &str) -> Vec<ScreenCell> {
    line.chars().map(|c| tell_apart(raw(c, 0))).collect()
}

#[test]
fn attribute_bits_are_told_apart() {
    let cell = tell_apart(raw('x', FLAG_BOLD | FLAG_WRAPLINE));
    assert!(cell.bold && cell.wraps);
    assert!(!cell.dim && !cell.italic && !cell.underline && !cell.inverse && !cell.strikeout);
    assert!(!cell.spacer && cell.c == 'x');
    assert!(tell_apart(raw(' ', FLAG_WIDE_CHAR_SPACER)).spacer);
}

#[test]
fn a_viewport_is_read_cell_by_cell() {
    let mut wrapped = cells("$ ls -");
    wrapped[5].wraps = true;
    let mut styled = cells("l     ");
    styled[0].bold = true;
    styled[0].fg = Shade::Indexed(9);
    let viewport = Viewport {
        columns: 6,
        rows: 4,
        cells: vec![cells("done  "), wrapped, styled, cells("      ")],
        cursor: ScreenCursor {
            line: 2,
            column: 2,
            needs_wrap: false,
        },
        alternate: false,
    };
    assert_eq!(viewport.cursor_logical_line(), "$ ls -l");
    assert_eq!(viewport.cursor_row(), ("l".to_string(), 2));
    let region = viewport.live_region().expect("live region");
    assert_eq!(
        region.styled_rows,
        vec!["$ ls -".to_string(), "\x1b[1;91ml\x1b[0m".to_string()]
    );
    assert_eq!(region.row_above.as_deref(), Some("done"));
    assert_eq!((region.last_row_chars, region.cursor_col), (1, 2));
    assert_eq!(region.last_row_columns, 1);
    let snapshot = viewport.snapshot();
    assert_eq!(snapshot.screen, "done\n$ ls -\nl");
    assert_eq!((snapshot.cursor_x, snapshot.cursor_y), (2, 2));

    let full_screen = Viewport {
        alternate: true,
        ..viewport
    };
    assert_eq!(full_screen.live_region(), None);
}

#[test]
fn the_mirror_hands_out_what_it_shows() {
    let mut mirror = TerminalMirror::new(6, 2);
    mirror.write("a\u{4e2d}\x1b[7mb".as_bytes());
    let viewport = mirror.viewport();
    assert_eq!((viewport.columns, viewport.rows), (6, 2));
    let row = &viewport.cells[0];
    assert_eq!((row[0].c, row[1].c, row[3].c), ('a', '\u{4e2d}', 'b'));
    assert!(row[2].spacer && row[3].inverse && !row[0].inverse);
    assert_eq!(viewport.cursor.column, 4);
    assert_eq!(viewport.snapshot(), mirror.snapshot());
}

#[test]
fn a_wide_character_takes_two_columns_of_the_live_row() {
    let mut mirror = TerminalMirror::new(20, 3);
    mirror.write("$ 日本 ".as_bytes());
    let region = mirror.live_region().expect("live region");
    assert_eq!(region.last_row_chars, 4);
    assert_eq!(region.last_row_columns, 6);
    assert_eq!(region.cursor_col, 7);
}
