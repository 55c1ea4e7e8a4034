//! What holds of the screen that a mirror shows.

use crate::mirror;
use crate::mirror::{MirrorView, RawCell, ScreenCell, Shade, Step, ViewportView};
use crate::text;
use crate::text_laws;
use vstd::prelude::*;

verus! {

// ---------------------------------------------------------------------------
// Cells
// ---------------------------------------------------------------------------

/// Each attribute of a cell is read off a bit of its own; its character and colors stay.
pub proof fn an_attribute_has_its_own_bit(raw: RawCell)
    ensures
        ({
            let cell = mirror::told_apart(raw);
            &&& cell.c == raw.c
            &&& cell.fg == raw.fg
            &&& cell.bg == raw.bg
            &&& cell.inverse <==> raw.flags & 1 != 0
            &&& cell.bold <==> raw.flags & 2 != 0
            &&& cell.italic <==> raw.flags & 4 != 0
            &&& cell.underline <==> raw.flags & 8 != 0
            &&& cell.wraps <==> raw.flags & 16 != 0
            &&& cell.spacer <==> raw.flags & 64 != 0
            &&& cell.dim <==> raw.flags & 128 != 0
            &&& cell.strikeout <==> raw.flags & 512 != 0
        }),
{
}

/// The cells that have a character of their own: all but the second halves of wide ones.
pub open spec fn written_cells(cells: Seq<ScreenCell>) -> Seq<ScreenCell> {
    cells.filter(|cell: ScreenCell| !cell.spacer)
}

/// A row's text is the character of every such cell, in order.
pub proof fn a_row_holds_its_characters(cells: Seq<ScreenCell>)
    ensures
        mirror::plain_text(cells) == Seq::new(
            written_cells(cells).len(),
            |i: int| written_cells(cells)[i].c,
        ),
    decreases cells.len(),
{
    reveal(Seq::filter);
    if cells.len() > 0 {
        a_row_holds_its_characters(cells.drop_last());
    }
    assert(mirror::plain_text(cells) =~= Seq::new(
        written_cells(cells).len(),
        |i: int| written_cells(cells)[i].c,
    ));
}

/// The columns that some characters take up hold just those characters, the second half of
/// the last one with it; none take up none.
pub proof fn the_columns_hold_the_characters(cells: Seq<ScreenCell>, visible: nat)
    ensures
        ({
            let n = mirror::columns_taken(cells, visible);
            let all = mirror::plain_text(cells).len();
            &&& n <= cells.len()
            &&& visible == 0 ==> n == 0
            &&& all < visible ==> n == cells.len()
            &&& visible <= all ==> mirror::plain_text(cells.take(n as int)).len() == visible
            &&& 0 < visible && n < cells.len() ==> !cells[n as int].spacer
        }),
    decreases cells.len(),
{
    let n = mirror::columns_taken(cells, visible);
    if cells.len() > 0 {
        let init = cells.drop_last();
        the_columns_hold_the_characters(init, visible);
        let before = mirror::columns_taken(init, visible);
        assert(cells.take(cells.len() as int) =~= cells);
        if n == before {
            assert(init.take(n as int) =~= cells.take(n as int));
            if n < init.len() {
                assert(init[n as int] == cells[n as int]);
            }
        }
        if before == init.len() {
            assert(init.take(before as int) =~= init);
        }
    } else {
        assert(cells.take(0) =~= cells);
    }
}

// ---------------------------------------------------------------------------
// Styling
// ---------------------------------------------------------------------------

/// A parameter and what follows it.
pub open spec fn before_more(first: Seq<char>, more: Seq<char>) -> Seq<char> {
    if more.len() == 0 {
        first
    } else {
        first + ";"@ + more
    }
}

/// A styling names each attribute that is set, by its own number and in this order: bold,
/// dim, italic, underlined, inverse, struck out; then come the colors.
pub proof fn a_styling_names_each_attribute(cell: ScreenCell)
    ensures
        ({
            let bare = ScreenCell { bold: false, ..cell };
            let brighter = ScreenCell { dim: false, ..bare };
            let upright = ScreenCell { italic: false, ..brighter };
            let unlined = ScreenCell { underline: false, ..upright };
            let straight = ScreenCell { inverse: false, ..unlined };
            let colored = ScreenCell { strikeout: false, ..straight };
            &&& cell.bold ==> mirror::sgr_of(cell) == before_more("1"@, mirror::sgr_of(bare))
            &&& cell.dim ==> mirror::sgr_of(bare) == before_more("2"@, mirror::sgr_of(brighter))
            &&& cell.italic ==> mirror::sgr_of(brighter) == before_more(
                "3"@,
                mirror::sgr_of(upright),
            )
            &&& cell.underline ==> mirror::sgr_of(upright) == before_more(
                "4"@,
                mirror::sgr_of(unlined),
            )
            &&& cell.inverse ==> mirror::sgr_of(unlined) == before_more(
                "7"@,
                mirror::sgr_of(straight),
            )
            &&& cell.strikeout ==> mirror::sgr_of(straight) == before_more(
                "9"@,
                mirror::sgr_of(colored),
            )
            &&& mirror::sgr_of(colored) == mirror::joined(
                mirror::color_params(cell.fg, true) + mirror::color_params(cell.bg, false),
                ";"@,
            )
        }),
{
    let bare = ScreenCell { bold: false, ..cell };
    let brighter = ScreenCell { dim: false, ..bare };
    let upright = ScreenCell { italic: false, ..brighter };
    let unlined = ScreenCell { underline: false, ..upright };
    let straight = ScreenCell { inverse: false, ..unlined };
    let colored = ScreenCell { strikeout: false, ..straight };
    lemma_codes();
    lemma_tails(cell);
    lemma_tails(bare);
    lemma_tails(brighter);
    lemma_tails(upright);
    lemma_tails(unlined);
    lemma_tails(straight);
    lemma_tails(colored);
    lemma_nothing_first(tail_of(cell, 1));
    lemma_nothing_first(tail_of(cell, 2));
    lemma_nothing_first(tail_of(cell, 3));
    lemma_nothing_first(tail_of(cell, 4));
    lemma_nothing_first(tail_of(cell, 5));
    lemma_nothing_first(tail_of(cell, 6));
    if cell.bold {
        assert(parts_of(cell) == seq!["1"@] + tail_of(cell, 1));
        lemma_peeled(cell, "1"@, bare);
    }
    if cell.dim {
        assert(parts_of(bare) == seq!["2"@] + tail_of(cell, 2));
        lemma_peeled(bare, "2"@, brighter);
    }
    if cell.italic {
        assert(parts_of(brighter) == seq!["3"@] + tail_of(cell, 3));
        lemma_peeled(brighter, "3"@, upright);
    }
    if cell.underline {
        assert(parts_of(upright) == seq!["4"@] + tail_of(cell, 4));
        lemma_peeled(upright, "4"@, unlined);
    }
    if cell.inverse {
        assert(parts_of(unlined) == seq!["7"@] + tail_of(cell, 5));
        lemma_peeled(unlined, "7"@, straight);
    }
    if cell.strikeout {
        assert(parts_of(straight) == seq!["9"@] + tail_of(cell, 6));
        lemma_peeled(straight, "9"@, colored);
    }
    lemma_parts(colored);
}

/// The parameters behind those of the first `from` attributes.
spec fn tail_of(cell: ScreenCell, from: int) -> Seq<Seq<char>> {
    let colors = mirror::color_params(cell.fg, true) + mirror::color_params(cell.bg, false);
    let struck = mirror::flag_param(cell.strikeout, "9"@) + colors;
    let turned = mirror::flag_param(cell.inverse, "7"@) + struck;
    let lined = mirror::flag_param(cell.underline, "4"@) + turned;
    let slanted = mirror::flag_param(cell.italic, "3"@) + lined;
    let dimmed = mirror::flag_param(cell.dim, "2"@) + slanted;
    if from == 1 {
        dimmed
    } else if from == 2 {
        slanted
    } else if from == 3 {
        lined
    } else if from == 4 {
        turned
    } else if from == 5 {
        struck
    } else {
        colors
    }
}

proof fn lemma_grouped<A>(a: Seq<A>, b: Seq<A>, c: Seq<A>)
    ensures
        a + b + c == a + (b + c),
{
    assert(a + b + c =~= a + (b + c));
}

proof fn lemma_nothing_first<A>(a: Seq<A>)
    ensures
        Seq::<A>::empty() + a == a,
{
    assert(Seq::<A>::empty() + a =~= a);
}

proof fn lemma_tails(cell: ScreenCell)
    ensures
        parts_of(cell) == mirror::flag_param(cell.bold, "1"@) + tail_of(cell, 1),
{
    let f1 = mirror::flag_param(cell.bold, "1"@);
    let f2 = mirror::flag_param(cell.dim, "2"@);
    let f3 = mirror::flag_param(cell.italic, "3"@);
    let f4 = mirror::flag_param(cell.underline, "4"@);
    let f7 = mirror::flag_param(cell.inverse, "7"@);
    let f9 = mirror::flag_param(cell.strikeout, "9"@);
    let fg = mirror::color_params(cell.fg, true);
    let bg = mirror::color_params(cell.bg, false);
    lemma_grouped(f1 + f2 + f3 + f4 + f7 + f9, fg, bg);
    lemma_grouped(f1 + f2 + f3 + f4 + f7, f9, fg + bg);
    lemma_grouped(f1 + f2 + f3 + f4, f7, tail_of(cell, 5));
    lemma_grouped(f1 + f2 + f3, f4, tail_of(cell, 4));
    lemma_grouped(f1 + f2, f3, tail_of(cell, 3));
    lemma_grouped(f1, f2, tail_of(cell, 2));
}

proof fn lemma_peeled(cell: ScreenCell, code: Seq<char>, rest: ScreenCell)
    requires
        is_param(code),
        parts_of(cell) == seq![code] + parts_of(rest),
    ensures
        mirror::sgr_of(cell) == before_more(code, mirror::sgr_of(rest)),
{
    lemma_parts(cell);
    lemma_parts(rest);
    lemma_first_part(code, parts_of(rest));
}

/// The parameters of a cell's styling.
spec fn parts_of(cell: ScreenCell) -> Seq<Seq<char>> {
    mirror::flag_param(cell.bold, "1"@) + mirror::flag_param(cell.dim, "2"@) + mirror::flag_param(
        cell.italic,
        "3"@,
    ) + mirror::flag_param(cell.underline, "4"@) + mirror::flag_param(cell.inverse, "7"@)
        + mirror::flag_param(cell.strikeout, "9"@) + mirror::color_params(cell.fg, true)
        + mirror::color_params(cell.bg, false)
}

/// Whether a text is a parameter: digits and semicolons, and more than a zero.
spec fn is_param(s: Seq<char>) -> bool {
    &&& s.len() > 0
    &&& s != "0"@
    &&& forall|i: int| 0 <= i < s.len() ==> '0' <= #[trigger] s[i] <= ';'
}

proof fn lemma_codes()
    ensures
        is_param("1"@),
        is_param("2"@),
        is_param("3"@),
        is_param("4"@),
        is_param("7"@),
        is_param("9"@),
{
    reveal_strlit("0");
    reveal_strlit("1");
    reveal_strlit("2");
    reveal_strlit("3");
    reveal_strlit("4");
    reveal_strlit("7");
    reveal_strlit("9");
    assert("0"@[0] == '0');
    assert("1"@[0] == '1');
    assert("2"@[0] == '2');
    assert("3"@[0] == '3');
    assert("4"@[0] == '4');
    assert("7"@[0] == '7');
    assert("9"@[0] == '9');
}

proof fn lemma_parts(cell: ScreenCell)
    ensures
        mirror::sgr_of(cell) == mirror::joined(parts_of(cell), ";"@),
        forall|i: int| 0 <= i < parts_of(cell).len() ==> is_param(#[trigger] parts_of(cell)[i]),
{
    lemma_codes();
    lemma_color_params(cell.fg, true);
    lemma_color_params(cell.bg, false);
}

proof fn lemma_color_params(color: Shade, foreground: bool)
    ensures
        forall|i: int|
            0 <= i < mirror::color_params(color, foreground).len() ==> is_param(
                #[trigger] mirror::color_params(color, foreground)[i],
            ),
{
    reveal_strlit("0");
    reveal_strlit("38");
    reveal_strlit("48");
    reveal_strlit(";5;");
    reveal_strlit(";2;");
    reveal_strlit(";");
    assert("0"@.len() == 1);
    assert("38"@.len() == 2);
    assert("48"@.len() == 2);
    let extended = if foreground {
        "38"@
    } else {
        "48"@
    };
    match color {
        Shade::Named(index) => {
            lemma_basic(index as nat, foreground);
        },
        Shade::Indexed(index) => {
            lemma_basic(index as nat, foreground);
            lemma_digits(index as nat);
        },
        Shade::Rgb(r, g, b) => {
            lemma_digits(r as nat);
            lemma_digits(g as nat);
            lemma_digits(b as nat);
        },
    }
}

proof fn lemma_basic(index: nat, foreground: bool)
    ensures
        is_param(mirror::basic_color(index, foreground)),
{
    let n = if index < 8 {
        (if foreground { 30nat } else { 40nat }) + index
    } else {
        (if foreground { 82nat } else { 92nat }) + index
    };
    lemma_digits(n);
    lemma_digits(0);
    reveal_strlit("0");
    text_laws::numerals_read_back(n);
    text_laws::numerals_read_back(0);
    assert(text::decimal(0) =~= "0"@);
}

proof fn lemma_digits(n: nat)
    ensures
        text::decimal(n).len() > 0,
        forall|i: int| 0 <= i < text::decimal(n).len() ==> '0' <= #[trigger] text::decimal(n)[i] <= '9',
    decreases n,
{
    if n >= 10 {
        lemma_digits(n / 10);
    }
}

proof fn lemma_joined_params(parts: Seq<Seq<char>>)
    requires
        forall|i: int| 0 <= i < parts.len() ==> is_param(#[trigger] parts[i]),
    ensures
        parts.len() > 0 ==> is_param(mirror::joined(parts, ";"@)),
        parts.len() == 0 ==> mirror::joined(parts, ";"@).len() == 0,
    decreases parts.len(),
{
    reveal_strlit(";");
    reveal_strlit("0");
    assert("0"@.len() == 1);
    if parts.len() > 1 {
        let init = parts.drop_last();
        assert forall|i: int| 0 <= i < init.len() implies is_param(#[trigger] init[i]) by {
            assert(init[i] == parts[i]);
        }
        lemma_joined_params(init);
        assert(is_param(parts[parts.len() - 1]));
    } else if parts.len() == 1 {
        assert(is_param(parts[0]));
    }
}

proof fn lemma_first_part(first: Seq<char>, more: Seq<Seq<char>>)
    requires
        is_param(first),
        forall|i: int| 0 <= i < more.len() ==> is_param(#[trigger] more[i]),
    ensures
        mirror::joined(seq![first] + more, ";"@) == before_more(
            first,
            mirror::joined(more, ";"@),
        ),
    decreases more.len(),
{
    let all = seq![first] + more;
    lemma_joined_params(more);
    if more.len() > 0 {
        let init = more.drop_last();
        assert forall|i: int| 0 <= i < init.len() implies is_param(#[trigger] init[i]) by {
            assert(init[i] == more[i]);
        }
        lemma_joined_params(init);
        lemma_first_part(first, init);
        assert(all.drop_last() =~= seq![first] + init);
        if init.len() == 0 {
            assert(mirror::joined(all, ";"@) =~= first + ";"@ + mirror::joined(more, ";"@));
        } else {
            assert(mirror::joined(all, ";"@) =~= first + ";"@ + mirror::joined(more, ";"@));
        }
    } else {
        assert(all =~= seq![first]);
    }
}

/// The sixteen basic colors have the numbers 30 to 37 and 90 to 97, as backgrounds 40 to 47
/// and 100 to 107; the rest of the palette follows 38;5 or 48;5, and a color of its own
/// 38;2 or 48;2 with its three parts.
pub proof fn a_color_has_its_number(index: u8, r: u8, g: u8, b: u8)
    ensures
        index < 8 ==> mirror::color_params(Shade::Indexed(index), true) == seq![
            text::decimal(30 + index as nat),
        ],
        index < 8 ==> mirror::color_params(Shade::Indexed(index), false) == seq![
            text::decimal(40 + index as nat),
        ],
        8 <= index < 16 ==> mirror::color_params(Shade::Indexed(index), true) == seq![
            text::decimal((90 + (index - 8)) as nat),
        ],
        8 <= index < 16 ==> mirror::color_params(Shade::Indexed(index), false) == seq![
            text::decimal((100 + (index - 8)) as nat),
        ],
        index >= 16 ==> mirror::color_params(Shade::Indexed(index), true) == seq![
            "38"@ + ";5;"@ + text::decimal(index as nat),
        ],
        index >= 16 ==> mirror::color_params(Shade::Indexed(index), false) == seq![
            "48"@ + ";5;"@ + text::decimal(index as nat),
        ],
        mirror::color_params(Shade::Rgb(r, g, b), true) == seq![
            "38"@ + ";2;"@ + text::decimal(r as nat) + ";"@ + text::decimal(g as nat) + ";"@
                + text::decimal(b as nat),
        ],
        mirror::color_params(Shade::Rgb(r, g, b), false) == seq![
            "48"@ + ";2;"@ + text::decimal(r as nat) + ";"@ + text::decimal(g as nat) + ";"@
                + text::decimal(b as nat),
        ],
{
}

/// What a terminal makes of a drawn row: the characters with the styling that each has, the
/// styling in force, and the escape sequence that is being read.
#[verifier::ext_equal]
pub struct Reading {
    pub shown: Seq<(char, Seq<char>)>,
    pub active: Seq<char>,
    pub escape: Option<Seq<char>>,
}

impl Reading {
    /// Nothing read yet.
    pub open spec fn start() -> Reading {
        Reading { shown: seq![], active: seq![], escape: None }
    }

    /// One character further. `ESC [ .. m` sets a styling on top of the one in force, and
    /// `ESC [ 0 m` ends it.
    pub open spec fn step(self, c: char) -> Reading {
        match self.escape {
            None => if c == '\x1b' {
                Reading { escape: Some(seq![]), ..self }
            } else {
                Reading { shown: self.shown.push((c, self.active)), ..self }
            },
            Some(read) => if c == 'm' && read.len() > 0 && read[0] == '[' {
                let set = read.skip(1);
                Reading {
                    active: if set == "0"@ {
                        seq![]
                    } else if self.active.len() == 0 {
                        set
                    } else {
                        self.active + ";"@ + set
                    },
                    escape: None,
                    ..self
                }
            } else {
                Reading { escape: Some(read.push(c)), ..self }
            },
        }
    }

    /// A text further.
    pub open spec fn over(self, s: Seq<char>) -> Reading
        decreases s.len(),
    {
        if s.len() == 0 {
            self
        } else {
            self.over(s.drop_last()).step(s.last())
        }
    }
}

/// The first `visible` characters of a row, each with the styling of its cell.
pub open spec fn styled_characters(cells: Seq<ScreenCell>, visible: nat) -> Seq<
    (char, Seq<char>),
> {
    let written = written_cells(cells);
    Seq::new(
        if visible < written.len() {
            visible
        } else {
            written.len()
        },
        |i: int| (written[i].c, mirror::sgr_of(written[i])),
    )
}

/// A drawn row is read as its cells: every character of those asked for in the styling of
/// its own cell, and back in the default state at the end.
pub proof fn a_row_is_drawn_cell_by_cell(cells: Seq<ScreenCell>, visible: nat)
    requires
        forall|i: int| 0 <= i < cells.len() ==> (#[trigger] cells[i]).c != '\x1b',
    ensures
        ({
            let read = Reading::start().over(mirror::styled_text(cells, visible));
            &&& read.shown == styled_characters(cells, visible)
            &&& read.active.len() == 0
            &&& read.escape is None
        }),
{
    lemma_drawn(cells, visible);
    let pen = mirror::drawn(cells, visible);
    let r = Reading::start().over(pen.text);
    if pen.active.len() > 0 {
        lemma_over(Reading::start(), pen.text, "\x1b[0m"@);
        lemma_reset(r);
    } else {
        assert(mirror::styled_text(cells, visible) =~= pen.text);
    }
}

proof fn lemma_drawn(cells: Seq<ScreenCell>, visible: nat)
    requires
        forall|i: int| 0 <= i < cells.len() ==> (#[trigger] cells[i]).c != '\x1b',
    ensures
        ({
            let pen = mirror::drawn(cells, visible);
            let r = Reading::start().over(pen.text);
            &&& r.shown == styled_characters(cells, visible)
            &&& r.active == pen.active
            &&& r.escape is None
            &&& pen.emitted == styled_characters(cells, visible).len()
        }),
    decreases cells.len(),
{
    reveal(Seq::filter);
    if cells.len() > 0 {
        let init = cells.drop_last();
        let cell = cells.last();
        assert(cell == cells[cells.len() - 1]);
        assert forall|i: int| 0 <= i < init.len() implies (#[trigger] init[i]).c != '\x1b' by {
            assert(init[i] == cells[i]);
        }
        lemma_drawn(init, visible);
        let before = mirror::drawn(init, visible);
        let r = Reading::start().over(before.text);
        let pen = mirror::drawn(cells, visible);
        if before.emitted >= visible || cell.spacer {
            assert(styled_characters(cells, visible) =~= styled_characters(init, visible));
        } else {
            let sgr = mirror::sgr_of(cell);
            let change = mirror::style_change(before.active, sgr);
            lemma_parts(cell);
            lemma_joined_params(parts_of(cell));
            lemma_over(Reading::start(), before.text, change);
            lemma_change(r, sgr);
            let s = r.over(change);
            assert(s.active =~= sgr && s.escape is None && s.shown == r.shown);
            assert(pen.text =~= (before.text + change).push(cell.c));
            assert(pen.text.drop_last() =~= before.text + change);
            assert(Reading::start().over(pen.text) == s.step(cell.c));
            assert(styled_characters(cells, visible) =~= styled_characters(init, visible).push(
                (cell.c, sgr),
            ));
        }
    } else {
        assert(styled_characters(cells, visible) =~= seq![]);
    }
}

proof fn lemma_over(r: Reading, s: Seq<char>, t: Seq<char>)
    ensures
        r.over(s + t) == r.over(s).over(t),
    decreases t.len(),
{
    if t.len() == 0 {
        assert(s + t =~= s);
    } else {
        lemma_over(r, s, t.drop_last());
        assert((s + t).drop_last() =~= s + t.drop_last());
        assert((s + t).last() == t.last());
    }
}

proof fn lemma_change(r: Reading, to: Seq<char>)
    requires
        r.escape is None,
        to.len() > 0 ==> is_param(to),
    ensures
        ({
            let s = r.over(mirror::style_change(r.active, to));
            &&& s.active == to
            &&& s.escape is None
            &&& s.shown == r.shown
        }),
{
    if r.active != to {
        let first = if r.active.len() > 0 {
            "\x1b[0m"@
        } else {
            seq![]
        };
        let second = if to.len() > 0 {
            "\x1b["@ + to + "m"@
        } else {
            seq![]
        };
        lemma_over(r, first, second);
        lemma_reset(r);
        let s = r.over(first);
        assert(s.active.len() == 0);
        if to.len() > 0 {
            lemma_set(s, to);
        } else {
            assert(to =~= s.active);
        }
    }
}

proof fn lemma_reset(r: Reading)
    requires
        r.escape is None,
    ensures
        ({
            let s = r.over("\x1b[0m"@);
            &&& s.active.len() == 0
            &&& s.escape is None
            &&& s.shown == r.shown
        }),
{
    reveal_strlit("\x1b[0m");
    reveal_strlit("\x1b[");
    reveal_strlit("m");
    reveal_strlit("0");
    assert("\x1b[0m"@ =~= "\x1b["@ + "0"@ + "m"@);
    lemma_escape(r, "0"@);
}

proof fn lemma_set(r: Reading, to: Seq<char>)
    requires
        r.escape is None,
        r.active.len() == 0,
        is_param(to),
    ensures
        ({
            let s = r.over("\x1b["@ + to + "m"@);
            &&& s.active == to
            &&& s.escape is None
            &&& s.shown == r.shown
        }),
{
    lemma_escape(r, to);
}

proof fn lemma_escape(r: Reading, p: Seq<char>)
    requires
        r.escape is None,
        forall|i: int| 0 <= i < p.len() ==> '0' <= #[trigger] p[i] <= ';',
    ensures
        r.over("\x1b["@ + p + "m"@) == (Reading { escape: Some(seq!['['] + p), ..r }).step('m'),
        (seq!['['] + p).skip(1) == p,
{
    reveal_strlit("\x1b[");
    reveal_strlit("m");
    lemma_opened(r, p);
    let s = "\x1b["@ + p + "m"@;
    assert(s.drop_last() =~= "\x1b["@ + p);
    assert(s.last() == 'm');
    assert((seq!['['] + p).skip(1) =~= p);
}

proof fn lemma_opened(r: Reading, p: Seq<char>)
    requires
        r.escape is None,
        forall|i: int| 0 <= i < p.len() ==> '0' <= #[trigger] p[i] <= ';',
    ensures
        r.over("\x1b["@ + p) == (Reading { escape: Some(seq!['['] + p), ..r }),
    decreases p.len(),
{
    reveal_strlit("\x1b[");
    let s = "\x1b["@ + p;
    if p.len() == 0 {
        assert(s =~= seq!['\x1b', '[']);
        assert(s.drop_last() =~= seq!['\x1b']);
        assert(s.drop_last().drop_last() =~= seq![]);
        assert(r.over(seq![]) == r);
        assert(r.over(s.drop_last()) == r.step('\x1b'));
        assert(r.over(s) == r.step('\x1b').step('['));
        assert(Seq::<char>::empty().push('[') =~= seq!['['] + p);
    } else {
        let init = p.drop_last();
        assert forall|i: int| 0 <= i < init.len() implies '0' <= #[trigger] init[i] <= ';' by {
            assert(init[i] == p[i]);
        }
        lemma_opened(r, init);
        assert(s.drop_last() =~= "\x1b["@ + init);
        assert(s.last() == p[p.len() - 1]);
        assert((seq!['['] + init).push(p.last()) =~= seq!['['] + p);
    }
}

// ---------------------------------------------------------------------------
// The screen
// ---------------------------------------------------------------------------

/// A mirror has the size it was given last, and its emulator has seen every byte and every
/// size since, in order.
pub proof fn a_mirror_follows_what_it_is_told(
    m: MirrorView,
    bytes: Seq<u8>,
    columns: u16,
    rows: u16,
)
    ensures
        MirrorView::start(columns, rows).steps == seq![Step::Sized(columns, rows)],
        m.resized(columns, rows).columns == columns,
        m.resized(columns, rows).rows == rows,
        mirror::size_after(m.resized(columns, rows).steps) == (columns, rows),
        m.steps.is_prefix_of(m.resized(columns, rows).steps),
        m.written(bytes).columns == m.columns && m.written(bytes).rows == m.rows,
        mirror::size_after(m.written(bytes).steps) == mirror::size_after(m.steps),
        bytes.len() == 0 ==> m.written(bytes) == m,
        bytes.len() > 0 ==> m.written(bytes).steps == m.steps.push(Step::Fed(bytes)),
{
    let more = m.resized(columns, rows).steps;
    assert(more.drop_last() =~= m.steps);
    assert(m.steps =~= more.subrange(0, m.steps.len() as int));
    if bytes.len() > 0 {
        assert(m.written(bytes).steps.drop_last() =~= m.steps);
    }
}

/// The texts of the rows, each without the whitespace at its end.
pub open spec fn row_lines(v: ViewportView) -> Seq<Seq<char>> {
    Seq::new(v.rows as nat, |row: int| text::trim_end(mirror::plain_text(v.cells[row])))
}

/// The screen's text is its rows, line by line, without whitespace at its end: nothing but
/// whitespace is missing from it.
pub proof fn a_screen_is_its_rows(v: ViewportView)
    ensures
        ({
            let lines = text_laws::joined(row_lines(v), '\n');
            &&& v.screen().is_prefix_of(lines)
            &&& forall|i: int|
                v.screen().len() <= i < lines.len() ==> text::is_space(#[trigger] lines[i])
            &&& v.screen().len() > 0 ==> !text::is_space(v.screen().last())
        }),
{
    lemma_trimmed_rows(v, v.rows as int);
    let rows = v.trimmed_rows(v.rows as int);
    assert(rows =~= row_lines(v));
    lemma_joined_alike(rows);
    let lines = text_laws::joined(rows, '\n');
    let n = text_laws::trimming_the_end_takes_whitespace_alone(lines);
    assert(v.screen() == lines.take(n));
    assert(v.screen() =~= lines.subrange(0, n));
    if n > 0 {
        assert(v.screen().last() == lines[n - 1]);
    }
}

proof fn lemma_trimmed_rows(v: ViewportView, n: int)
    requires
        0 <= n,
    ensures
        v.trimmed_rows(n).len() == n,
        forall|i: int|
            0 <= i < n ==> #[trigger] v.trimmed_rows(n)[i] == text::trim_end(
                mirror::plain_text(v.cells[i]),
            ),
    decreases n,
{
    if n > 0 {
        lemma_trimmed_rows(v, n - 1);
        assert forall|i: int| 0 <= i < n implies #[trigger] v.trimmed_rows(n)[i]
            == text::trim_end(mirror::plain_text(v.cells[i])) by {
            if i < n - 1 {
                assert(v.trimmed_rows(n)[i] == v.trimmed_rows(n - 1)[i]);
            }
        }
    }
}

proof fn lemma_joined_alike(parts: Seq<Seq<char>>)
    ensures
        mirror::joined(parts, "\n"@) == text_laws::joined(parts, '\n'),
    decreases parts.len(),
{
    reveal_strlit("\n");
    if parts.len() > 1 {
        lemma_joined_alike(parts.drop_last());
        let before = text_laws::joined(parts.drop_last(), '\n');
        assert(before + "\n"@ + parts.last() =~= before.push('\n') + parts.last());
    }
}

/// A snapshot tells the size, the cursor, the screen's text and which screen it is.
pub proof fn a_snapshot_tells_what_is_shown(v: ViewportView)
    requires
        v.wf(),
    ensures
        ({
            let s = v.snapshot();
            &&& s.rows == v.rows && s.columns == v.columns
            &&& s.cursor_x == v.cursor.column
            &&& v.cursor.line >= 0 ==> s.cursor_y == v.cursor.line
            &&& v.cursor.line < 0 ==> s.cursor_y == 0
            &&& s.alt_screen == v.alternate
            &&& s.screen == v.screen()
        }),
{
}

/// Whether the rows from `top` to `bottom` are one logical line: each but the last wraps to
/// the next, and it begins and ends there.
pub open spec fn is_one_line(v: ViewportView, top: int, bottom: int) -> bool {
    &&& 0 <= top <= bottom < v.rows
    &&& forall|row: int|
        top <= row < bottom ==> (#[trigger] v.cells[row])[v.columns - 1].wraps
    &&& top > 0 ==> !v.cells[top - 1][v.columns - 1].wraps
    &&& bottom < v.rows - 1 ==> !v.cells[bottom][v.columns - 1].wraps
}

/// The texts of some rows, one behind the other.
pub open spec fn rows_text(v: ViewportView, from: int, to: int) -> Seq<char>
    decreases to - from,
{
    if from >= to {
        seq![]
    } else {
        mirror::plain_text(v.cells[from]) + rows_text(v, from + 1, to)
    }
}

/// The cursor's logical line is the text of all rows that wrap into one another around it,
/// the last one without the whitespace at its end.
pub proof fn a_logical_line_spans_its_wraps(v: ViewportView, top: int, bottom: int)
    requires
        v.wf(),
        is_one_line(v, top, bottom),
        top <= v.cursor_line() <= bottom,
    ensures
        v.logical_line() == rows_text(v, top, bottom) + text::trim_end(
            mirror::plain_text(v.cells[bottom]),
        ),
{
    lemma_top(v, top, v.cursor_line());
    lemma_bottom(v, bottom, v.cursor_line());
    lemma_rows(v, top, bottom);
}

proof fn lemma_top(v: ViewportView, top: int, row: int)
    requires
        0 <= top <= row < v.rows,
        forall|r: int| top <= r < row ==> (#[trigger] v.cells[r])[v.columns - 1].wraps,
        top > 0 ==> !v.cells[top - 1][v.columns - 1].wraps,
    ensures
        v.line_top(row) == top,
    decreases row,
{
    if row > top {
        assert(v.cells[row - 1][v.columns - 1].wraps);
        lemma_top(v, top, row - 1);
    }
}

proof fn lemma_bottom(v: ViewportView, bottom: int, row: int)
    requires
        0 <= row <= bottom < v.rows,
        forall|r: int| row <= r < bottom ==> (#[trigger] v.cells[r])[v.columns - 1].wraps,
        bottom < v.rows - 1 ==> !v.cells[bottom][v.columns - 1].wraps,
    ensures
        v.line_bottom(row) == bottom,
    decreases bottom - row,
{
    if row < bottom {
        assert(v.cells[row][v.columns - 1].wraps);
        lemma_bottom(v, bottom, row + 1);
    }
}

proof fn lemma_rows(v: ViewportView, from: int, to: int)
    ensures
        v.full_rows(from, to) == rows_text(v, from, to),
    decreases to - from,
{
    if from < to {
        lemma_rows(v, from, to - 1);
        lemma_rows_last(v, from, to);
    }
}

proof fn lemma_rows_last(v: ViewportView, from: int, to: int)
    requires
        from < to,
    ensures
        rows_text(v, from, to) == rows_text(v, from, to - 1) + mirror::plain_text(v.cells[to - 1]),
    decreases to - from,
{
    if from < to - 1 {
        lemma_rows_last(v, from + 1, to);
        assert(rows_text(v, from, to) =~= mirror::plain_text(v.cells[from]) + (rows_text(
            v,
            from + 1,
            to - 1,
        ) + mirror::plain_text(v.cells[to - 1])));
        assert(rows_text(v, from, to) =~= rows_text(v, from, to - 1) + mirror::plain_text(
            v.cells[to - 1],
        ));
    } else {
        assert(rows_text(v, to, to) =~= seq![]);
        assert(rows_text(v, from, to) =~= mirror::plain_text(v.cells[from]));
        assert(rows_text(v, from, to - 1) =~= seq![]);
        assert(rows_text(v, from, to) =~= rows_text(v, from, to - 1) + mirror::plain_text(
            v.cells[to - 1],
        ));
    }
}

/// The live region is the cursor's line up to the cursor's row, drawn in its styling, with
/// the cursor and the row above it; on the alternate screen, and in the middle of a line,
/// there is none.
pub proof fn the_live_region_is_the_cursors_line(v: ViewportView, top: int, i: int)
    requires
        v.wf(),
        0 <= top <= v.cursor_line(),
        forall|row: int|
            top <= row < v.cursor_line() ==> (#[trigger] v.cells[row])[v.columns - 1].wraps,
        top > 0 ==> !v.cells[top - 1][v.columns - 1].wraps,
    ensures
        ({
            let last = v.cursor_line();
            let wraps = v.cells[last][v.columns - 1].wraps;
            let own = text::trim_end(mirror::plain_text(v.cells[last]));
            &&& v.alternate || wraps ==> v.region() is None
            &&& !v.alternate && !wraps ==> {
                &&& v.region() is Some
                &&& (v.region()->0).styled_rows.len() == last - top + 1
                &&& top <= i < last ==> (v.region()->0).styled_rows[i - top]
                    == mirror::styled_text(v.cells[i], v.columns as nat)
                &&& (v.region()->0).styled_rows.last() == mirror::styled_text(
                    v.cells[last],
                    own.len(),
                )
                &&& (v.region()->0).last_row_chars == own.len()
                &&& (v.region()->0).last_row_columns == mirror::columns_taken(
                    v.cells[last],
                    own.len(),
                )
                &&& (v.region()->0).cursor_col == v.cursor.column
                &&& (v.region()->0).needs_wrap == v.cursor.needs_wrap
                &&& (v.region()->0).row_above == if top > 0 {
                    Some(text::trim_end(mirror::plain_text(v.cells[top - 1])))
                } else {
                    None
                }
            }
        }),
{
    lemma_top(v, top, v.cursor_line());
    lemma_region_rows(v, top, v.cursor_line() + 1, i);
    lemma_region_rows(v, top, v.cursor_line() + 1, v.cursor_line());
}

proof fn lemma_region_rows(v: ViewportView, top: int, to: int, i: int)
    requires
        0 <= top <= to <= v.cursor_line() + 1,
    ensures
        v.region_rows(top, to).len() == to - top,
        top <= i < to ==> v.region_rows(top, to)[i - top] == mirror::styled_text(
            v.cells[i],
            if i < v.cursor_line() {
                v.columns as nat
            } else {
                v.cursor_text().len()
            },
        ),
    decreases to - top,
{
    if top < to {
        lemma_region_rows(v, top, to - 1, i);
    }
}

} // verus!
