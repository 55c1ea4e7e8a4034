//! Headless terminal mirror backed by `alacritty_terminal`.
//!
//! Only the visible viewport is read, each line is right-trimmed, and the whole screen
//! is trailing-trimmed. The emulator itself is outside: what it shows is a function of
//! the steps it was taken through, and everything read off the screen is computed here
//! from its cells.

use crate::text;
use crate::text::{end_trimmed, push_chars, push_decimal, same_text, string_of};
use alacritty_terminal::event::VoidListener;
use alacritty_terminal::index::{Column, Line};
use alacritty_terminal::term::test::TermSize;
use alacritty_terminal::term::{Config, Term, TermMode};
use alacritty_terminal::vte::ansi::{Color, Processor};
use vstd::prelude::*;

verus! {

/// Lines of scrollback the emulator keeps.
pub const SCROLLBACK_LINES: usize = 2_000;

/// A plain-text snapshot of the visible terminal screen.
#[derive(Debug, Clone, PartialEq, Eq)]
pub struct TerminalSnapshot {
    pub rows: u16,
    pub columns: u16,
    pub cursor_x: u16,
    pub cursor_y: u16,
    pub alt_screen: bool,
    pub screen: String,
}

/// The cursor's logical line sampled for presentation's anchored streaming.
#[derive(Debug, Clone, PartialEq, Eq)]
pub struct LiveRegionSnapshot {
    /// Styled text per row, top to bottom: wrapped rows full width, the last row
    /// right-trimmed. Writing them joined (no separators) reproduces the region,
    /// including its soft wrapping.
    pub styled_rows: Vec<String>,
    /// Plain character count of the trimmed last row.
    pub last_row_chars: usize,
    /// The columns that the trimmed last row takes up, for putting the cursor back. A wide
    /// character takes up two.
    pub last_row_columns: u16,
    /// Cursor column on the last row.
    pub cursor_col: u16,
    /// Terminal pending-wrap state at the cursor.
    pub needs_wrap: bool,
    /// Plain right-trimmed text of the row directly above the region; `None` when the
    /// region starts at the top of the viewport.
    pub row_above: Option<String>,
}

/// A cell's color.
#[derive(Debug, Clone, Copy, PartialEq, Eq, Structural)]
pub enum Shade {
    /// A color of the terminal's palette, by its number; from 16 on these are the
    /// defaults and palette specials.
    Named(u16),
    Indexed(u8),
    Rgb(u8, u8, u8),
}

/// A cell as the emulator holds it, its attributes in one word.
#[derive(Debug, Clone, Copy, PartialEq, Eq, Structural)]
pub struct RawCell {
    pub c: char,
    pub flags: u16,
    pub fg: Shade,
    pub bg: Shade,
}

/// The attribute bits of `alacritty_terminal`'s cell flags.
pub const FLAG_INVERSE: u16 = 0x0001;

pub const FLAG_BOLD: u16 = 0x0002;

pub const FLAG_ITALIC: u16 = 0x0004;

pub const FLAG_UNDERLINE: u16 = 0x0008;

pub const FLAG_WRAPLINE: u16 = 0x0010;

pub const FLAG_WIDE_CHAR_SPACER: u16 = 0x0040;

pub const FLAG_DIM: u16 = 0x0080;

pub const FLAG_STRIKEOUT: u16 = 0x0200;

/// A cell of the screen.
#[derive(Debug, Clone, Copy, PartialEq, Eq, Structural)]
pub struct ScreenCell {
    pub c: char,
    /// The second half of a wide character.
    pub spacer: bool,
    /// The row continues on the next one.
    pub wraps: bool,
    pub bold: bool,
    pub dim: bool,
    pub italic: bool,
    pub underline: bool,
    pub inverse: bool,
    pub strikeout: bool,
    pub fg: Shade,
    pub bg: Shade,
}

/// Where the cursor is.
#[derive(Debug, Clone, Copy, PartialEq, Eq, Structural)]
pub struct ScreenCursor {
    pub line: i32,
    pub column: u16,
    /// The line is exactly full: the next character wraps.
    pub needs_wrap: bool,
}

// ---------------------------------------------------------------------------
// The emulator
// ---------------------------------------------------------------------------

/// One step that an emulator was taken through.
#[verifier::ext_equal]
pub enum Step {
    /// It got this size; the first step of all is one of these.
    Sized(u16, u16),
    /// It consumed these bytes.
    Fed(Seq<u8>),
}

/// A terminal of `alacritty_terminal` and the escape-sequence parser of `vte` that feeds
/// it.
#[verifier::external_body]
pub struct Emulator {
    term: Term<VoidListener>,
    parser: Processor,
}

/// The steps that an emulator was taken through.
pub uninterp spec fn steps_of(emulator: Emulator) -> Seq<Step>;

/// The cell that an emulator holds after some steps.
pub uninterp spec fn cell_held(steps: Seq<Step>, row: int, column: int) -> RawCell;

/// A cell with its attributes told apart.
pub open spec fn told_apart(raw: RawCell) -> ScreenCell {
    ScreenCell {
        c: raw.c,
        spacer: raw.flags & FLAG_WIDE_CHAR_SPACER != 0,
        wraps: raw.flags & FLAG_WRAPLINE != 0,
        bold: raw.flags & FLAG_BOLD != 0,
        dim: raw.flags & FLAG_DIM != 0,
        italic: raw.flags & FLAG_ITALIC != 0,
        underline: raw.flags & FLAG_UNDERLINE != 0,
        inverse: raw.flags & FLAG_INVERSE != 0,
        strikeout: raw.flags & FLAG_STRIKEOUT != 0,
        fg: raw.fg,
        bg: raw.bg,
    }
}

/// The cell that an emulator shows after some steps.
pub open spec fn cell_shown(steps: Seq<Step>, row: int, column: int) -> ScreenCell {
    told_apart(cell_held(steps, row, column))
}

/// The cursor of an emulator after some steps.
pub uninterp spec fn cursor_shown(steps: Seq<Step>) -> ScreenCursor;

/// Whether an emulator is on its alternate screen after some steps.
pub uninterp spec fn alternate_shown(steps: Seq<Step>) -> bool;

/// The size an emulator has after some steps: columns, then rows.
pub open spec fn size_after(steps: Seq<Step>) -> (u16, u16)
    decreases steps.len(),
{
    if steps.len() == 0 {
        (0, 0)
    } else {
        match steps.last() {
            Step::Sized(columns, rows) => (columns, rows),
            Step::Fed(_) => size_after(steps.drop_last()),
        }
    }
}

/// `Term::new` with the scrollback in force and `Processor::default`: an emulator that
/// was only given its size, on its primary screen. Narrower than two columns it could not
/// hold a wide character.
#[verifier::external_body]
fn start_emulator(columns: u16, rows: u16) -> (r: Emulator)
    requires
        columns >= 2,
        rows >= 1,
    ensures
        steps_of(r) == seq![Step::Sized(columns, rows)],
        !alternate_shown(steps_of(r)),
{
    let config = Config { scrolling_history: SCROLLBACK_LINES, ..Config::default() };
    let size = TermSize::new(columns as usize, rows as usize);
    Emulator { term: Term::new(config, &size, VoidListener), parser: Processor::default() }
}

/// `Processor::advance`: the emulator consumes some bytes.
#[verifier::external_body]
fn feed_emulator(emulator: &mut Emulator, bytes: &[u8])
    ensures
        steps_of(*final(emulator)) == steps_of(*old(emulator)).push(
            Step::Fed(bytes@),
        ),
{
    emulator.parser.advance(&mut emulator.term, bytes);
}

/// `Term::resize`: the emulator gets a new size.
#[verifier::external_body]
fn resize_emulator(emulator: &mut Emulator, columns: u16, rows: u16)
    requires
        columns >= 2,
        rows >= 1,
    ensures
        steps_of(*final(emulator)) == steps_of(*old(emulator)).push(
            Step::Sized(columns, rows),
        ),
{
    emulator.term.resize(TermSize::new(columns as usize, rows as usize));
}

/// `Term::grid`, indexed: one cell of the viewport. Underline colors and hyperlinks are
/// left behind.
#[verifier::external_body]
fn hold_cell(emulator: &Emulator, row: u16, column: u16) -> (r: RawCell)
    requires
        column < size_after(steps_of(*emulator)).0,
        row < size_after(steps_of(*emulator)).1,
    ensures
        r == cell_held(steps_of(*emulator), row as int, column as int),
{
    let cell = &emulator.term.grid()[Line(row as i32)][Column(column as usize)];
    let shade = |color: Color| match color {
        Color::Named(named) => Shade::Named(named as u16),
        Color::Indexed(index) => Shade::Indexed(index),
        Color::Spec(rgb) => Shade::Rgb(rgb.r, rgb.g, rgb.b),
    };
    RawCell { c: cell.c, flags: cell.flags.bits(), fg: shade(cell.fg), bg: shade(cell.bg) }
}

/// Tells the attributes of a cell apart.
pub fn tell_apart(raw: RawCell) -> (r: ScreenCell)
    ensures
        r == told_apart(raw),
{
    ScreenCell {
        c: raw.c,
        spacer: raw.flags & FLAG_WIDE_CHAR_SPACER != 0,
        wraps: raw.flags & FLAG_WRAPLINE != 0,
        bold: raw.flags & FLAG_BOLD != 0,
        dim: raw.flags & FLAG_DIM != 0,
        italic: raw.flags & FLAG_ITALIC != 0,
        underline: raw.flags & FLAG_UNDERLINE != 0,
        inverse: raw.flags & FLAG_INVERSE != 0,
        strikeout: raw.flags & FLAG_STRIKEOUT != 0,
        fg: raw.fg,
        bg: raw.bg,
    }
}

/// `Term::grid`'s cursor. It never lies below the viewport.
#[verifier::external_body]
fn read_cursor(emulator: &Emulator) -> (r: ScreenCursor)
    ensures
        r == cursor_shown(steps_of(*emulator)),
        r.line < size_after(steps_of(*emulator)).1,
{
    let cursor = &emulator.term.grid().cursor;
    ScreenCursor {
        line: cursor.point.line.0,
        column: cursor.point.column.0 as u16,
        needs_wrap: cursor.input_needs_wrap,
    }
}

/// `Term::mode`: whether the alternate screen is up.
#[verifier::external_body]
fn read_alternate(emulator: &Emulator) -> (r: bool)
    ensures
        r == alternate_shown(steps_of(*emulator)),
{
    emulator.term.mode().contains(TermMode::ALT_SCREEN)
}

// ---------------------------------------------------------------------------
// The model
// ---------------------------------------------------------------------------

/// The model of a snapshot.
#[verifier::ext_equal]
pub struct SnapshotView {
    pub rows: u16,
    pub columns: u16,
    pub cursor_x: u16,
    pub cursor_y: u16,
    pub alt_screen: bool,
    pub screen: Seq<char>,
}

impl View for TerminalSnapshot {
    type V = SnapshotView;

    open spec fn view(&self) -> SnapshotView {
        SnapshotView {
            rows: self.rows,
            columns: self.columns,
            cursor_x: self.cursor_x,
            cursor_y: self.cursor_y,
            alt_screen: self.alt_screen,
            screen: self.screen@,
        }
    }
}

/// The model of a live region.
#[verifier::ext_equal]
pub struct LiveRegionView {
    pub styled_rows: Seq<Seq<char>>,
    pub last_row_chars: nat,
    pub last_row_columns: nat,
    pub cursor_col: u16,
    pub needs_wrap: bool,
    pub row_above: Option<Seq<char>>,
}

impl View for LiveRegionSnapshot {
    type V = LiveRegionView;

    open spec fn view(&self) -> LiveRegionView {
        LiveRegionView {
            styled_rows: text::texts(self.styled_rows@),
            last_row_chars: self.last_row_chars as nat,
            last_row_columns: self.last_row_columns as nat,
            cursor_col: self.cursor_col,
            needs_wrap: self.needs_wrap,
            row_above: text::opt_text(self.row_above),
        }
    }
}

/// The characters of some cells; the second half of a wide one has none of its own.
pub open spec fn plain_text(cells: Seq<ScreenCell>) -> Seq<char>
    decreases cells.len(),
{
    if cells.len() == 0 {
        seq![]
    } else if cells.last().spacer {
        plain_text(cells.drop_last())
    } else {
        plain_text(cells.drop_last()).push(cells.last().c)
    }
}

/// The columns that the first `visible` characters of some cells take up, the second
/// halves of wide ones included.
pub open spec fn columns_taken(cells: Seq<ScreenCell>, visible: nat) -> nat
    decreases cells.len(),
{
    if cells.len() == 0 {
        0
    } else {
        let init = cells.drop_last();
        let before = columns_taken(init, visible);
        let next = plain_text(init).len() < visible;
        let half = visible > 0 && before == init.len() && cells.last().spacer;
        if next || half {
            cells.len()
        } else {
            before
        }
    }
}

/// Texts with a separator between them.
pub open spec fn joined(parts: Seq<Seq<char>>, separator: Seq<char>) -> Seq<char>
    decreases parts.len(),
{
    if parts.len() == 0 {
        seq![]
    } else if parts.len() == 1 {
        parts[0]
    } else {
        joined(parts.drop_last(), separator) + separator + parts.last()
    }
}

/// The SGR parameter of one of the sixteen basic colors.
pub open spec fn basic_color(index: nat, foreground: bool) -> Seq<char> {
    text::decimal(
        if index < 8 {
            (if foreground { 30nat } else { 40nat }) + index
        } else {
            (if foreground { 82nat } else { 92nat }) + index
        },
    )
}

/// The SGR parameters of a color. Palette colors past the sixteen basic ones are the
/// default state and have none.
pub open spec fn color_params(color: Shade, foreground: bool) -> Seq<Seq<char>> {
    let extended = if foreground {
        "38"@
    } else {
        "48"@
    };
    match color {
        Shade::Named(index) => if index < 16 {
            seq![basic_color(index as nat, foreground)]
        } else {
            seq![]
        },
        Shade::Indexed(index) => if index < 16 {
            seq![basic_color(index as nat, foreground)]
        } else {
            seq![extended + ";5;"@ + text::decimal(index as nat)]
        },
        Shade::Rgb(r, g, b) => seq![
            extended + ";2;"@ + text::decimal(r as nat) + ";"@ + text::decimal(g as nat) + ";"@
                + text::decimal(b as nat),
        ],
    }
}

/// A parameter that is there or not.
pub open spec fn flag_param(set: bool, code: Seq<char>) -> Seq<Seq<char>> {
    if set {
        seq![code]
    } else {
        seq![]
    }
}

/// The SGR parameter list that reproduces a cell's styling from the default state; empty
/// for an unstyled cell.
pub open spec fn sgr_of(cell: ScreenCell) -> Seq<char> {
    joined(
        flag_param(cell.bold, "1"@) + flag_param(cell.dim, "2"@) + flag_param(cell.italic, "3"@)
            + flag_param(cell.underline, "4"@) + flag_param(cell.inverse, "7"@) + flag_param(
            cell.strikeout,
            "9"@,
        ) + color_params(cell.fg, true) + color_params(cell.bg, false),
        ";"@,
    )
}

/// A row being drawn: the text so far, the styling in force, and the characters drawn.
#[verifier::ext_equal]
pub struct Pen {
    pub text: Seq<char>,
    pub active: Seq<char>,
    pub emitted: nat,
}

/// What switches from one styling to another.
pub open spec fn style_change(from: Seq<char>, to: Seq<char>) -> Seq<char> {
    if from == to {
        seq![]
    } else {
        (if from.len() > 0 {
            "\x1b[0m"@
        } else {
            seq![]
        }) + (if to.len() > 0 {
            "\x1b["@ + to + "m"@
        } else {
            seq![]
        })
    }
}

/// The first `visible` characters of some cells, drawn with their styling.
pub open spec fn drawn(cells: Seq<ScreenCell>, visible: nat) -> Pen
    decreases cells.len(),
{
    if cells.len() == 0 {
        Pen { text: seq![], active: seq![], emitted: 0 }
    } else {
        let pen = drawn(cells.drop_last(), visible);
        let cell = cells.last();
        if pen.emitted >= visible || cell.spacer {
            pen
        } else {
            Pen {
                text: pen.text + style_change(pen.active, sgr_of(cell)) + seq![cell.c],
                active: sgr_of(cell),
                emitted: pen.emitted + 1,
            }
        }
    }
}

/// A row's styled text, back in the default state at its end.
pub open spec fn styled_text(cells: Seq<ScreenCell>, visible: nat) -> Seq<char> {
    let pen = drawn(cells, visible);
    pen.text + (if pen.active.len() > 0 {
        "\x1b[0m"@
    } else {
        seq![]
    })
}

/// The visible part of a terminal, as read off its emulator.
#[derive(Debug, Clone, PartialEq, Eq)]
pub struct Viewport {
    pub columns: u16,
    pub rows: u16,
    /// The cells, row by row.
    pub cells: Vec<Vec<ScreenCell>>,
    pub cursor: ScreenCursor,
    /// Whether the alternate screen is up.
    pub alternate: bool,
}

/// The model of a viewport.
#[verifier::ext_equal]
pub struct ViewportView {
    pub columns: u16,
    pub rows: u16,
    pub cells: Seq<Seq<ScreenCell>>,
    pub cursor: ScreenCursor,
    pub alternate: bool,
}

impl View for Viewport {
    type V = ViewportView;

    open spec fn view(&self) -> ViewportView {
        ViewportView {
            columns: self.columns,
            rows: self.rows,
            cells: cell_rows(self.cells@),
            cursor: self.cursor,
            alternate: self.alternate,
        }
    }
}

/// The model of some rows of cells.
pub open spec fn cell_rows(rows: Seq<Vec<ScreenCell>>) -> Seq<Seq<ScreenCell>> {
    rows.map_values(|row: Vec<ScreenCell>| row@)
}

impl ViewportView {
    /// The cells fill the viewport, which has at least one, and the cursor does not lie
    /// below them.
    pub open spec fn wf(self) -> bool {
        &&& self.columns >= 1
        &&& self.rows >= 1
        &&& self.cells.len() == self.rows
        &&& forall|row: int|
            0 <= row < self.rows ==> (#[trigger] self.cells[row]).len() == self.columns
        &&& self.cursor.line < self.rows
    }

    /// The viewport row the cursor is on.
    pub open spec fn cursor_line(self) -> int {
        if self.cursor.line < 0 {
            0
        } else {
            self.cursor.line as int
        }
    }

    /// The full text of a row.
    pub open spec fn row_text(self, row: int) -> Seq<char> {
        plain_text(self.cells[row])
    }

    /// Whether a row continues on the next one.
    pub open spec fn row_wraps(self, row: int) -> bool {
        self.cells[row][self.columns - 1].wraps
    }

    /// The row where the logical line through `row` begins.
    pub open spec fn line_top(self, row: int) -> int
        decreases row,
    {
        if row > 0 && self.row_wraps(row - 1) {
            self.line_top(row - 1)
        } else {
            row
        }
    }

    /// The row where the logical line through `row` ends.
    pub open spec fn line_bottom(self, row: int) -> int
        decreases self.rows - row,
    {
        if row < self.rows - 1 && self.row_wraps(row) {
            self.line_bottom(row + 1)
        } else {
            row
        }
    }

    /// The full texts of some rows, one behind the other.
    pub open spec fn full_rows(self, from: int, to: int) -> Seq<char>
        decreases to - from,
    {
        if from >= to {
            seq![]
        } else {
            self.full_rows(from, to - 1) + self.row_text(to - 1)
        }
    }

    /// The cursor's logical line: its row joined with its soft-wrapped neighbours.
    pub open spec fn logical_line(self) -> Seq<char> {
        let top = self.line_top(self.cursor_line());
        let bottom = self.line_bottom(self.cursor_line());
        self.full_rows(top, bottom) + text::trim_end(self.row_text(bottom))
    }

    /// The trimmed text of the cursor's row.
    pub open spec fn cursor_text(self) -> Seq<char> {
        text::trim_end(self.row_text(self.cursor_line()))
    }

    /// The columns that the trimmed text of the cursor's row takes up.
    pub open spec fn cursor_columns(self) -> nat {
        columns_taken(self.cells[self.cursor_line()], self.cursor_text().len())
    }

    /// The styled rows of a live region from `top` to the cursor's row.
    pub open spec fn region_rows(self, top: int, to: int) -> Seq<Seq<char>>
        decreases to - top,
    {
        if top >= to {
            seq![]
        } else {
            self.region_rows(top, to - 1).push(
                styled_text(
                    self.cells[to - 1],
                    if to - 1 < self.cursor_line() {
                        self.columns as nat
                    } else {
                        self.cursor_text().len()
                    },
                ),
            )
        }
    }

    /// The live region: prompt plus echoed input, spanning soft-wrapped rows. None on
    /// the alternate screen, nor where the cursor rests in the middle of a logical line.
    pub open spec fn region(self) -> Option<LiveRegionView> {
        if self.alternate || self.row_wraps(self.cursor_line()) {
            None
        } else {
            let top = self.line_top(self.cursor_line());
            Some(
                LiveRegionView {
                    styled_rows: self.region_rows(top, self.cursor_line() + 1),
                    last_row_chars: self.cursor_text().len(),
                    last_row_columns: self.cursor_columns(),
                    cursor_col: self.cursor.column,
                    needs_wrap: self.cursor.needs_wrap,
                    row_above: if top > 0 {
                        Some(text::trim_end(self.row_text(top - 1)))
                    } else {
                        None
                    },
                },
            )
        }
    }

    /// The trimmed texts of the first `n` rows.
    pub open spec fn trimmed_rows(self, n: int) -> Seq<Seq<char>>
        decreases n,
    {
        if n <= 0 {
            seq![]
        } else {
            self.trimmed_rows(n - 1).push(text::trim_end(self.row_text(n - 1)))
        }
    }

    /// The screen as text.
    pub open spec fn screen(self) -> Seq<char> {
        text::trim_end(joined(self.trimmed_rows(self.rows as int), "\n"@))
    }

    /// The screen as a snapshot.
    pub open spec fn snapshot(self) -> SnapshotView {
        SnapshotView {
            rows: self.rows,
            columns: self.columns,
            cursor_x: self.cursor.column,
            cursor_y: self.cursor_line() as u16,
            alt_screen: self.alternate,
            screen: self.screen(),
        }
    }
}

/// The model of a mirror: its size, and the steps its emulator was taken through.
#[verifier::ext_equal]
pub struct MirrorView {
    pub columns: u16,
    pub rows: u16,
    pub steps: Seq<Step>,
}

impl MirrorView {
    /// A new mirror.
    pub open spec fn start(columns: u16, rows: u16) -> MirrorView {
        MirrorView { columns, rows, steps: seq![Step::Sized(columns, rows)] }
    }

    /// After consuming bytes; none at all are no step.
    pub open spec fn written(self, bytes: Seq<u8>) -> MirrorView {
        if bytes.len() == 0 {
            self
        } else {
            MirrorView { steps: self.steps.push(Step::Fed(bytes)), ..self }
        }
    }

    /// After a change of size.
    pub open spec fn resized(self, columns: u16, rows: u16) -> MirrorView {
        MirrorView { columns, rows, steps: self.steps.push(Step::Sized(columns, rows)) }
    }

    pub open spec fn alternate(self) -> bool {
        alternate_shown(self.steps)
    }

    pub open spec fn cursor(self) -> ScreenCursor {
        cursor_shown(self.steps)
    }

    /// The cells of a row.
    pub open spec fn row_cells(self, row: int) -> Seq<ScreenCell> {
        Seq::new(self.columns as nat, |column: int| cell_shown(self.steps, row, column))
    }

    /// What is visible.
    pub open spec fn viewport(self) -> ViewportView {
        ViewportView {
            columns: self.columns,
            rows: self.rows,
            cells: Seq::new(self.rows as nat, |row: int| self.row_cells(row)),
            cursor: self.cursor(),
            alternate: self.alternate(),
        }
    }

    pub open spec fn logical_line(self) -> Seq<char> {
        self.viewport().logical_line()
    }

    pub open spec fn cursor_text(self) -> Seq<char> {
        self.viewport().cursor_text()
    }

    pub open spec fn cursor_columns(self) -> nat {
        self.viewport().cursor_columns()
    }

    pub open spec fn region(self) -> Option<LiveRegionView> {
        self.viewport().region()
    }

    pub open spec fn screen(self) -> Seq<char> {
        self.viewport().screen()
    }

    pub open spec fn snapshot(self) -> SnapshotView {
        self.viewport().snapshot()
    }
}

/// A row without styling is drawn as its plain text.
pub proof fn unstyled_rows_are_plain(cells: Seq<ScreenCell>)
    requires
        forall|i: int| 0 <= i < cells.len() ==> sgr_of(#[trigger] cells[i]).len() == 0,
    ensures
        styled_text(cells, cells.len()) == plain_text(cells),
{
    lemma_unstyled(cells, cells.len());
}

proof fn lemma_unstyled(cells: Seq<ScreenCell>, visible: nat)
    requires
        forall|i: int| 0 <= i < cells.len() ==> sgr_of(#[trigger] cells[i]).len() == 0,
        cells.len() <= visible,
    ensures
        drawn(cells, visible).text == plain_text(cells),
        drawn(cells, visible).active.len() == 0,
        drawn(cells, visible).emitted <= cells.len(),
        styled_text(cells, visible) == plain_text(cells),
    decreases cells.len(),
{
    if cells.len() > 0 {
        let init = cells.drop_last();
        assert forall|i: int| 0 <= i < init.len() implies sgr_of(#[trigger] init[i]).len() == 0 by {
            assert(sgr_of(cells[i]).len() == 0);
        }
        lemma_unstyled(init, visible);
        assert(sgr_of(cells[cells.len() - 1]).len() == 0);
        let pen = drawn(init, visible);
        assert(pen.active =~= sgr_of(cells.last()));
        assert(pen.text + style_change(pen.active, sgr_of(cells.last())) + seq![cells.last().c]
            =~= pen.text.push(cells.last().c));
    }
    assert(styled_text(cells, visible) =~= drawn(cells, visible).text);
}

// ---------------------------------------------------------------------------
// The mirror
// ---------------------------------------------------------------------------

/// A headless terminal that consumes raw bytes and exposes screen snapshots.
pub struct TerminalMirror {
    emulator: Emulator,
    columns: u16,
    rows: u16,
}

impl View for TerminalMirror {
    type V = MirrorView;

    closed spec fn view(&self) -> MirrorView {
        MirrorView {
            columns: self.columns,
            rows: self.rows,
            steps: steps_of(self.emulator),
        }
    }
}

/// Texts with a separator between them.
fn join(parts: &Vec<String>, separator: &str) -> (r: String)
    ensures
        r@ == joined(text::texts(parts@), separator@),
{
    let ghost all = text::texts(parts@);
    let mut out = String::new();
    let mut i: usize = 0;
    assert(all.take(0) =~= Seq::<Seq<char>>::empty());
    while i < parts.len()
        invariant
            i <= parts@.len(),
            all == text::texts(parts@),
            out@ == joined(all.take(i as int), separator@),
        decreases parts@.len() - i,
    {
        assert(all.take(i + 1).drop_last() =~= all.take(i as int));
        assert(all.take(i + 1).last() == parts@[i as int]@);
        if i > 0 {
            out.append(separator);
        }
        out.append(parts[i].as_str());
        assert(out@ =~= joined(all.take(i + 1), separator@));
        i += 1;
    }
    assert(all.take(i as int) =~= all);
    out
}

fn push_param(params: &mut Vec<String>, param: String)
    ensures
        text::texts(final(params)@) == text::texts(old(params)@).push(param@),
{
    params.push(param);
    assert(text::texts(params@) =~= text::texts(old(params)@).push(param@));
}

fn push_flag(params: &mut Vec<String>, set: bool, code: &str)
    ensures
        text::texts(final(params)@) == text::texts(old(params)@) + flag_param(set, code@),
{
    if set {
        push_param(params, code.to_owned());
    }
    assert(text::texts(params@) =~= text::texts(old(params)@) + flag_param(set, code@));
}

fn basic_param(index: u64, foreground: bool) -> (r: String)
    requires
        index < 16,
    ensures
        r@ == basic_color(index as nat, foreground),
{
    let base: u64 = if index < 8 {
        if foreground {
            30
        } else {
            40
        }
    } else if foreground {
        82
    } else {
        92
    };
    let mut out = String::new();
    push_decimal(&mut out, base + index);
    assert(out@ =~= basic_color(index as nat, foreground));
    out
}

/// Appends the SGR parameters for one color.
fn push_color(params: &mut Vec<String>, color: Shade, foreground: bool)
    ensures
        text::texts(final(params)@) == text::texts(old(params)@) + color_params(color, foreground),
{
    let ghost before = text::texts(params@);
    let mut out = String::new();
    if foreground {
        out.append("38");
    } else {
        out.append("48");
    }
    let ghost extended = if foreground {
        "38"@
    } else {
        "48"@
    };
    assert(out@ =~= extended);
    match color {
        Shade::Named(index) => {
            if index < 16 {
                push_param(params, basic_param(index as u64, foreground));
            }
        },
        Shade::Indexed(index) => {
            if index < 16 {
                push_param(params, basic_param(index as u64, foreground));
            } else {
                out.append(";5;");
                push_decimal(&mut out, index as u64);
                assert(out@ =~= extended + ";5;"@ + text::decimal(index as nat));
                push_param(params, out);
            }
        },
        Shade::Rgb(r, g, b) => {
            out.append(";2;");
            push_decimal(&mut out, r as u64);
            out.append(";");
            push_decimal(&mut out, g as u64);
            out.append(";");
            push_decimal(&mut out, b as u64);
            assert(out@ =~= extended + ";2;"@ + text::decimal(r as nat) + ";"@ + text::decimal(
                g as nat,
            ) + ";"@ + text::decimal(b as nat));
            push_param(params, out);
        },
    }
    assert(text::texts(params@) =~= before + color_params(color, foreground));
}

/// The SGR parameter list that reproduces a cell's styling from the default state.
fn sgr_params(cell: &ScreenCell) -> (r: String)
    ensures
        r@ == sgr_of(*cell),
{
    let mut params: Vec<String> = Vec::new();
    push_flag(&mut params, cell.bold, "1");
    push_flag(&mut params, cell.dim, "2");
    push_flag(&mut params, cell.italic, "3");
    push_flag(&mut params, cell.underline, "4");
    push_flag(&mut params, cell.inverse, "7");
    push_flag(&mut params, cell.strikeout, "9");
    push_color(&mut params, cell.fg, true);
    push_color(&mut params, cell.bg, false);
    proof {
        assert(Seq::<Seq<char>>::empty() + flag_param(cell.bold, "1"@) =~= flag_param(
            cell.bold,
            "1"@,
        ));
        assert(text::texts(Seq::<String>::empty()) =~= Seq::<Seq<char>>::empty());
    }
    join(&params, ";")
}

impl TerminalMirror {
    /// The mirror's size is that of its emulator.
    pub closed spec fn wf(self) -> bool {
        &&& self.columns >= 2
        &&& self.rows >= 1
        &&& size_after(self@.steps) == (self.columns, self.rows)
    }

    /// Creates a mirror sized `columns` x `rows`.
    pub fn new(columns: u16, rows: u16) -> (r: Self)
        requires
            columns >= 2,
            rows >= 1,
        ensures
            r.wf(),
            r@ == MirrorView::start(columns, rows),
            !r@.alternate(),
    {
        let emulator = start_emulator(columns, rows);
        TerminalMirror { emulator, columns, rows }
    }

    /// Feeds raw bytes into the terminal emulator.
    pub fn write(&mut self, data: &[u8])
        requires
            old(self).wf(),
        ensures
            final(self).wf(),
            final(self)@ == old(self)@.written(data@),
    {
        if data.len() == 0 {
            return;
        }
        feed_emulator(&mut self.emulator, data);
        assert(self@.steps.drop_last() =~= old(self)@.steps);
    }

    /// Resizes the mirrored terminal.
    pub fn resize(&mut self, columns: u16, rows: u16)
        requires
            old(self).wf(),
            columns >= 2,
            rows >= 1,
        ensures
            final(self).wf(),
            final(self)@ == old(self)@.resized(columns, rows),
    {
        resize_emulator(&mut self.emulator, columns, rows);
        self.columns = columns;
        self.rows = rows;
    }

    /// Whether the terminal is currently on the alternate screen (a full-screen
    /// program).
    pub fn is_alt_screen(&self) -> (r: bool)
        ensures
            r == self@.alternate(),
    {
        read_alternate(&self.emulator)
    }

    /// Whether the terminal is in the pending-wrap state: the cursor sits on the last
    /// column after filling it, and the next printed character wraps.
    pub fn cursor_needs_wrap(&self) -> (r: bool)
        ensures
            r == self@.cursor().needs_wrap,
    {
        read_cursor(&self.emulator).needs_wrap
    }

    /// Reads what is visible.
    pub fn viewport(&self) -> (r: Viewport)
        requires
            self.wf(),
        ensures
            r@ == self@.viewport(),
            r@.wf(),
    {
        let ghost shown = self@.viewport();
        let mut cells: Vec<Vec<ScreenCell>> = Vec::new();
        let mut row: u16 = 0;
        assert(cell_rows(cells@) =~= shown.cells.take(0));
        while row < self.rows
            invariant
                self.wf(),
                row <= self.rows,
                shown == self@.viewport(),
                cell_rows(cells@) == shown.cells.take(row as int),
            decreases self.rows - row,
        {
            let ghost before = cells@;
            let line = self.read_row(row);
            cells.push(line);
            assert(cell_rows(cells@) =~= cell_rows(before).push(line@));
            assert(shown.cells.take(row + 1) =~= shown.cells.take(row as int).push(line@));
            row += 1;
        }
        assert(shown.cells.take(row as int) =~= shown.cells);
        Viewport {
            columns: self.columns,
            rows: self.rows,
            cells,
            cursor: read_cursor(&self.emulator),
            alternate: read_alternate(&self.emulator),
        }
    }

    fn read_row(&self, row: u16) -> (r: Vec<ScreenCell>)
        requires
            self.wf(),
            row < self.rows,
        ensures
            r@ == self@.row_cells(row as int),
    {
        let mut out: Vec<ScreenCell> = Vec::new();
        let mut column: u16 = 0;
        while column < self.columns
            invariant
                self.wf(),
                row < self.rows,
                column <= self.columns,
                out@ == self@.row_cells(row as int).take(column as int),
            decreases self.columns - column,
        {
            out.push(tell_apart(hold_cell(&self.emulator, row, column)));
            assert(out@ =~= self@.row_cells(row as int).take(column + 1));
            column += 1;
        }
        assert(self@.row_cells(row as int).take(column as int) =~= self@.row_cells(row as int));
        out
    }

    /// The right-trimmed text of the cursor's row plus the cursor column.
    pub fn cursor_row(&self) -> (r: (String, u16))
        requires
            self.wf(),
        ensures
            (r.0@, r.1) == (self@.cursor_text(), self@.cursor().column),
    {
        self.viewport().cursor_row()
    }

    /// The cursor's logical line: its row joined with any soft-wrapped neighbours. It
    /// reflects the final rendered input line, so it is robust to line editing, and
    /// input that is never echoed never appears here.
    pub fn cursor_logical_line(&self) -> (r: String)
        requires
            self.wf(),
        ensures
            r@ == self@.logical_line(),
    {
        self.viewport().cursor_logical_line()
    }

    /// Samples the cursor's logical line (the "live region": prompt plus echoed input,
    /// spanning soft-wrapped rows): the rows to erase and rewrite when inserting content
    /// above the user's live input line. `None` on the alternate screen, and in the rare
    /// state where the cursor rests mid-logical-line, which a rewrite below could not
    /// restore.
    pub fn live_region(&self) -> (r: Option<LiveRegionSnapshot>)
        requires
            self.wf(),
        ensures
            match self@.region() {
                Some(region) => r is Some && r->0@ == region,
                None => r is None,
            },
    {
        self.viewport().live_region()
    }

    /// Captures the current visible screen as a plain-text snapshot.
    pub fn snapshot(&self) -> (r: TerminalSnapshot)
        requires
            self.wf(),
        ensures
            r@ == self@.snapshot(),
    {
        self.viewport().snapshot()
    }
}

// ---------------------------------------------------------------------------
// What is read off the cells
// ---------------------------------------------------------------------------

impl Viewport {
    fn cursor_line(&self) -> (r: u16)
        requires
            self@.wf(),
        ensures
            r == self@.cursor_line(),
            r < self.rows,
    {
        let cursor = self.cursor;
        if cursor.line < 0 {
            0
        } else {
            cursor.line as u16
        }
    }

    fn row_chars(&self, row: u16) -> (r: Vec<char>)
        requires
            self@.wf(),
            row < self.rows,
        ensures
            r@ == self@.row_text(row as int),
    {
        let ghost cells = self@.cells[row as int];
        let mut out: Vec<char> = Vec::new();
        let mut column: u16 = 0;
        assert(cells.take(0) =~= Seq::<ScreenCell>::empty());
        while column < self.columns
            invariant
                self@.wf(),
                row < self.rows,
                column <= self.columns,
                cells == self@.cells[row as int],
                out@ == plain_text(cells.take(column as int)),
            decreases self.columns - column,
        {
            let cell = self.cells[row as usize][column as usize];
            assert(cells.take(column + 1).drop_last() =~= cells.take(column as int));
            assert(cells.take(column + 1).last() == cell);
            if !cell.spacer {
                out.push(cell.c);
            }
            column += 1;
        }
        assert(cells.take(column as int) =~= cells);
        out
    }

    fn trimmed_row(&self, row: u16) -> (r: String)
        requires
            self@.wf(),
            row < self.rows,
        ensures
            r@ == text::trim_end(self@.row_text(row as int)),
    {
        let chars = self.row_chars(row);
        let end: usize = end_trimmed(chars.as_slice(), 0);
        assert(chars@.skip(0) =~= chars@);
        string_of(vstd::slice::slice_subrange(chars.as_slice(), 0, end))
    }

    fn row_wraps(&self, row: u16) -> (r: bool)
        requires
            self@.wf(),
            row < self.rows,
        ensures
            r == self@.row_wraps(row as int),
    {
        assert(self@.cells[row as int].len() == self.columns);
        self.cells[row as usize][self.columns as usize - 1].wraps
    }

    fn line_top(&self, from: u16) -> (r: u16)
        requires
            self@.wf(),
            from < self.rows,
        ensures
            r == self@.line_top(from as int),
            r <= from,
    {
        let mut top: u16 = from;
        while top > 0 && self.row_wraps(top - 1)
            invariant
                self@.wf(),
                top <= from < self.rows,
                self@.line_top(top as int) == self@.line_top(from as int),
            ensures
                top <= from,
                top == self@.line_top(from as int),
            decreases top,
        {
            top -= 1;
        }
        top
    }

    /// The right-trimmed text of the cursor's row plus the cursor column.
    pub fn cursor_row(&self) -> (r: (String, u16))
        requires
            self@.wf(),
        ensures
            (r.0@, r.1) == (self@.cursor_text(), self@.cursor.column),
    {
        let cursor = self.cursor;
        (self.trimmed_row(self.cursor_line()), cursor.column)
    }

    /// The columns that the right-trimmed text of the cursor's row takes up.
    pub fn cursor_columns(&self) -> (r: u16)
        requires
            self@.wf(),
        ensures
            r == self@.cursor_columns(),
            r <= self.columns,
    {
        let row: u16 = self.cursor_line();
        self.row_columns(row, self.trimmed_row(row).as_str().unicode_len())
    }

    /// The cursor's logical line: its row joined with any soft-wrapped neighbours.
    pub fn cursor_logical_line(&self) -> (r: String)
        requires
            self@.wf(),
        ensures
            r@ == self@.logical_line(),
    {
        let cursor_row: u16 = self.cursor_line();
        let start: u16 = self.line_top(cursor_row);
        let mut end: u16 = cursor_row;
        let last_row: u16 = self.rows - 1;
        while end < last_row && self.row_wraps(end)
            invariant
                self@.wf(),
                cursor_row <= end <= last_row,
                last_row == self.rows - 1,
                last_row == self@.rows - 1,
                self@.line_bottom(end as int) == self@.line_bottom(cursor_row as int),
            ensures
                cursor_row <= end <= last_row,
                end == self@.line_bottom(cursor_row as int),
            decreases last_row - end,
        {
            end += 1;
        }
        let mut out = String::new();
        let mut row: u16 = start;
        while row < end
            invariant
                self@.wf(),
                start <= row <= end,
                end < self.rows,
                out@ == self@.full_rows(start as int, row as int),
            decreases end - row,
        {
            let chars = self.row_chars(row);
            push_chars(&mut out, chars.as_slice());
            row += 1;
        }
        out.append(self.trimmed_row(end).as_str());
        out
    }

    fn row_columns(&self, row: u16, visible: usize) -> (r: u16)
        requires
            self@.wf(),
            row < self.rows,
        ensures
            r == columns_taken(self@.cells[row as int], visible as nat),
            r <= self.columns,
    {
        let ghost cells = self@.cells[row as int];
        let mut taken: u16 = 0;
        let mut seen: usize = 0;
        let mut column: u16 = 0;
        assert(cells.take(0) =~= Seq::<ScreenCell>::empty());
        while column < self.columns
            invariant
                self@.wf(),
                row < self.rows,
                column <= self.columns,
                cells == self@.cells[row as int],
                seen <= column,
                seen == plain_text(cells.take(column as int)).len(),
                taken == columns_taken(cells.take(column as int), visible as nat),
                taken <= column,
            decreases self.columns - column,
        {
            let cell = self.cells[row as usize][column as usize];
            assert(cells.take(column + 1).drop_last() =~= cells.take(column as int));
            assert(cells.take(column + 1).last() == cell);
            if seen < visible || (visible > 0 && taken == column && cell.spacer) {
                taken = column + 1;
            }
            if !cell.spacer {
                seen += 1;
            }
            column += 1;
        }
        assert(cells.take(column as int) =~= cells);
        taken
    }

    /// One row with the cells' styling re-synthesized into the text, covering the first
    /// `visible` characters; ends with a reset when any styling is in force.
    fn row_styled(&self, row: u16, visible: usize) -> (r: String)
        requires
            self@.wf(),
            row < self.rows,
        ensures
            r@ == styled_text(self@.cells[row as int], visible as nat),
    {
        let ghost cells = self@.cells[row as int];
        let mut out = String::new();
        let mut emitted: usize = 0;
        let mut active = String::new();
        let mut column: u16 = 0;
        assert(cells.take(0) =~= Seq::<ScreenCell>::empty());
        proof {
            reveal_strlit("\x1b[0m");
        }
        while column < self.columns
            invariant
                self@.wf(),
                row < self.rows,
                column <= self.columns,
                emitted <= column,
                cells == self@.cells[row as int],
                (Pen { text: out@, active: active@, emitted: emitted as nat }) == drawn(
                    cells.take(column as int),
                    visible as nat,
                ),
            decreases self.columns - column,
        {
            let cell = self.cells[row as usize][column as usize];
            let ghost before = out@;
            let ghost was = active@;
            assert(cells.take(column + 1).drop_last() =~= cells.take(column as int));
            assert(cells.take(column + 1).last() == cell);
            if emitted < visible && !cell.spacer {
                let params = sgr_params(&cell);
                if !same_text(params.as_str(), active.as_str()) {
                    if !active.as_str().is_empty() {
                        out.append("\x1b[0m");
                    }
                    if !params.as_str().is_empty() {
                        out.append("\x1b[");
                        out.append(params.as_str());
                        out.append("m");
                    }
                }
                assert(out@ =~= before + style_change(was, params@));
                active = params;
                out.push(cell.c);
                assert(out@ =~= before + style_change(was, active@) + seq![cell.c]);
                emitted += 1;
            }
            column += 1;
        }
        assert(cells.take(column as int) =~= cells);
        if !active.as_str().is_empty() {
            out.append("\x1b[0m");
        }
        assert(out@ =~= styled_text(cells, visible as nat));
        out
    }

    /// The live region, where there is one.
    pub fn live_region(&self) -> (r: Option<LiveRegionSnapshot>)
        requires
            self@.wf(),
        ensures
            match self@.region() {
                Some(region) => r is Some && r->0@ == region,
                None => r is None,
            },
            r is Some ==> r->0.last_row_columns <= self.columns,
    {
        if self.alternate {
            return None;
        }
        let cursor = self.cursor;
        let cursor_row: u16 = self.cursor_line();
        if self.row_wraps(cursor_row) {
            return None;
        }
        let top: u16 = self.line_top(cursor_row);
        let last_row_chars: usize = self.trimmed_row(cursor_row).as_str().unicode_len();
        let mut styled_rows: Vec<String> = Vec::new();
        let mut row: u16 = top;
        while row < cursor_row
            invariant
                self@.wf(),
                top <= row <= cursor_row < self.rows,
                cursor_row == self@.cursor_line(),
                text::texts(styled_rows@) == self@.region_rows(top as int, row as int),
            decreases cursor_row - row,
        {
            // A wrapped row is full width by construction; keep it whole so rewriting
            // the joined rows reproduces the same wrapping.
            let styled = self.row_styled(row, self.columns as usize);
            push_param(&mut styled_rows, styled);
            row += 1;
        }
        let styled = self.row_styled(cursor_row, last_row_chars);
        push_param(&mut styled_rows, styled);
        let row_above = if top > 0 {
            Some(self.trimmed_row(top - 1))
        } else {
            None
        };
        Some(
            LiveRegionSnapshot {
                styled_rows,
                last_row_chars,
                last_row_columns: self.row_columns(cursor_row, last_row_chars),
                cursor_col: cursor.column,
                needs_wrap: cursor.needs_wrap,
                row_above,
            },
        )
    }

    /// The screen as a plain-text snapshot.
    pub fn snapshot(&self) -> (r: TerminalSnapshot)
        requires
            self@.wf(),
        ensures
            r@ == self@.snapshot(),
    {
        let mut lines: Vec<String> = Vec::new();
        let mut row: u16 = 0;
        assert(text::texts(lines@) =~= Seq::<Seq<char>>::empty());
        while row < self.rows
            invariant
                self@.wf(),
                row <= self.rows,
                text::texts(lines@) == self@.trimmed_rows(row as int),
            decreases self.rows - row,
        {
            let line = self.trimmed_row(row);
            push_param(&mut lines, line);
            row += 1;
        }
        let whole = join(&lines, "\n");
        let cursor = self.cursor;
        TerminalSnapshot {
            rows: self.rows,
            columns: self.columns,
            cursor_x: cursor.column,
            cursor_y: self.cursor_line(),
            alt_screen: self.alternate,
            screen: crate::text::trimmed_end(whole.as_str()),
        }
    }
}

} // verus!
