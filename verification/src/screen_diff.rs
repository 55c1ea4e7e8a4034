//! Line-level screen diffing: summary counts and detailed hunks, removed lines before
//! added ones, with 1-based line numbers.

use crate::text;
use crate::text::chars_of;
use similar::{capture_diff_slices, Algorithm, DiffOp};
use vstd::prelude::*;

verus! {

/// Line-count summary of a screen change.
#[derive(Debug, Clone, Copy, PartialEq, Eq, Structural)]
pub struct ScreenDiffSummary {
    pub added_lines: usize,
    pub removed_lines: usize,
    pub changed_lines: usize,
}

/// The kind of a detailed hunk line.
#[derive(Debug, Clone, Copy, PartialEq, Eq, Structural)]
pub enum HunkLineKind {
    Added,
    Removed,
}

/// One line within a detailed diff hunk.
#[derive(Debug, Clone, PartialEq, Eq)]
pub struct ScreenDiffHunkLine {
    pub kind: HunkLineKind,
    pub line: String,
    pub old_line_number: Option<usize>,
    pub new_line_number: Option<usize>,
}

/// A contiguous block of changed lines.
#[derive(Debug, Clone, PartialEq, Eq)]
pub struct ScreenDiffHunk {
    pub old_start: usize,
    pub old_lines: usize,
    pub new_start: usize,
    pub new_lines: usize,
    pub lines: Vec<ScreenDiffHunkLine>,
}

/// A full screen text diff: summary counts plus detailed hunks.
#[derive(Debug, Clone, PartialEq, Eq)]
pub struct ScreenTextDiff {
    pub added_lines: usize,
    pub removed_lines: usize,
    pub changed_lines: usize,
    pub hunks: Vec<ScreenDiffHunk>,
}

/// One step of an edit script over lines.
#[derive(Debug, Clone, Copy, PartialEq, Eq, Structural)]
pub enum LineOp {
    Equal { old_index: usize, new_index: usize, len: usize },
    Delete { old_index: usize, old_len: usize },
    Insert { new_index: usize, new_len: usize },
    Replace { old_index: usize, old_len: usize, new_index: usize, new_len: usize },
}

// ---------------------------------------------------------------------------
// The model
// ---------------------------------------------------------------------------

/// A hunk line.
#[verifier::ext_equal]
pub struct HunkLineView {
    pub kind: HunkLineKind,
    pub line: Seq<char>,
    pub old_line_number: Option<nat>,
    pub new_line_number: Option<nat>,
}

/// A hunk.
#[verifier::ext_equal]
pub struct HunkView {
    pub old_start: nat,
    pub old_lines: nat,
    pub new_start: nat,
    pub new_lines: nat,
    pub lines: Seq<HunkLineView>,
}

/// The lines of a screen. An empty screen is zero lines, not one empty line.
pub open spec fn screen_lines(screen: Seq<char>) -> Seq<Seq<char>> {
    if screen.len() == 0 {
        seq![]
    } else {
        split_lines(screen)
    }
}

/// The pieces of a text between line feeds.
pub open spec fn split_lines(s: Seq<char>) -> Seq<Seq<char>>
    decreases s.len(),
{
    if s.len() == 0 {
        seq![Seq::<char>::empty()]
    } else {
        let init = split_lines(s.drop_last());
        if s.last() == '\n' {
            init.push(Seq::empty())
        } else {
            init.drop_last().push(init.last().push(s.last()))
        }
    }
}

/// How many old lines a step takes up.
pub open spec fn old_taken(op: LineOp) -> nat {
    match op {
        LineOp::Equal { len, .. } => len as nat,
        LineOp::Delete { old_len, .. } => old_len as nat,
        LineOp::Insert { .. } => 0,
        LineOp::Replace { old_len, .. } => old_len as nat,
    }
}

/// How many new lines a step takes up.
pub open spec fn new_taken(op: LineOp) -> nat {
    match op {
        LineOp::Equal { len, .. } => len as nat,
        LineOp::Delete { .. } => 0,
        LineOp::Insert { new_len, .. } => new_len as nat,
        LineOp::Replace { new_len, .. } => new_len as nat,
    }
}

/// How many old lines some steps take up.
pub open spec fn old_span(ops: Seq<LineOp>) -> nat
    decreases ops.len(),
{
    if ops.len() == 0 {
        0
    } else {
        old_span(ops.drop_last()) + old_taken(ops.last())
    }
}

/// How many new lines some steps take up.
pub open spec fn new_span(ops: Seq<LineOp>) -> nat
    decreases ops.len(),
{
    if ops.len() == 0 {
        0
    } else {
        new_span(ops.drop_last()) + new_taken(ops.last())
    }
}

/// Whether a step continues at the given old and new positions, and keeps only lines
/// that are the same on both sides.
pub open spec fn continues(
    op: LineOp,
    old: Seq<Seq<char>>,
    new: Seq<Seq<char>>,
    at_old: nat,
    at_new: nat,
) -> bool {
    &&& at_old + old_taken(op) <= old.len()
    &&& at_new + new_taken(op) <= new.len()
    &&& match op {
        LineOp::Equal { old_index, new_index, len } => {
            &&& old_index == at_old
            &&& new_index == at_new
            &&& forall|i: int| 0 <= i < len ==> old[at_old + i] == #[trigger] new[at_new + i]
        },
        LineOp::Delete { old_index, .. } => old_index == at_old,
        LineOp::Insert { new_index, .. } => new_index == at_new,
        LineOp::Replace { old_index, new_index, .. } => old_index == at_old && new_index == at_new,
    }
}

/// Whether some steps lead from the old lines to the new ones: each continues where the
/// one before ended, and together they take up all lines of both sides.
pub open spec fn edit_script(ops: Seq<LineOp>, old: Seq<Seq<char>>, new: Seq<Seq<char>>) -> bool {
    &&& old_span(ops) == old.len()
    &&& new_span(ops) == new.len()
    &&& forall|i: int|
        0 <= i < ops.len() ==> continues(
            #[trigger] ops[i],
            old,
            new,
            old_span(ops.take(i)),
            new_span(ops.take(i)),
        )
}

/// Old lines that some steps remove.
pub open spec fn removed_count(ops: Seq<LineOp>) -> nat
    decreases ops.len(),
{
    if ops.len() == 0 {
        0
    } else {
        removed_count(ops.drop_last()) + if ops.last() is Equal {
            0
        } else {
            old_taken(ops.last())
        }
    }
}

/// New lines that some steps add.
pub open spec fn added_count(ops: Seq<LineOp>) -> nat
    decreases ops.len(),
{
    if ops.len() == 0 {
        0
    } else {
        added_count(ops.drop_last()) + if ops.last() is Equal {
            0
        } else {
            new_taken(ops.last())
        }
    }
}

/// A walk along an edit script: the hunks closed so far, the one being collected, and
/// the numbers of the next line on each side.
#[verifier::ext_equal]
pub struct WalkView {
    pub hunks: Seq<HunkView>,
    pub open: HunkView,
    pub old_number: nat,
    pub new_number: nat,
}

/// Old lines as removed hunk lines, numbered from `number`.
pub open spec fn removed_lines(lines: Seq<Seq<char>>, number: nat) -> Seq<HunkLineView> {
    Seq::new(
        lines.len(),
        |i: int|
            HunkLineView {
                kind: HunkLineKind::Removed,
                line: lines[i],
                old_line_number: Some((number + i) as nat),
                new_line_number: None,
            },
    )
}

/// New lines as added hunk lines, numbered from `number`.
pub open spec fn added_lines(lines: Seq<Seq<char>>, number: nat) -> Seq<HunkLineView> {
    Seq::new(
        lines.len(),
        |i: int|
            HunkLineView {
                kind: HunkLineKind::Added,
                line: lines[i],
                old_line_number: None,
                new_line_number: Some((number + i) as nat),
            },
    )
}

impl WalkView {
    /// A walk that has not begun.
    pub open spec fn start() -> WalkView {
        WalkView {
            hunks: seq![],
            open: HunkView { old_start: 1, old_lines: 0, new_start: 1, new_lines: 0, lines: seq![] },
            old_number: 1,
            new_number: 1,
        }
    }

    /// Removes lines: they join the open hunk.
    pub open spec fn removed(self, lines: Seq<Seq<char>>) -> WalkView {
        WalkView {
            open: HunkView {
                old_lines: self.open.old_lines + lines.len(),
                lines: self.open.lines + removed_lines(lines, self.old_number),
                ..self.open
            },
            old_number: self.old_number + lines.len(),
            ..self
        }
    }

    /// Adds lines: they join the open hunk.
    pub open spec fn added(self, lines: Seq<Seq<char>>) -> WalkView {
        WalkView {
            open: HunkView {
                new_lines: self.open.new_lines + lines.len(),
                lines: self.open.lines + added_lines(lines, self.new_number),
                ..self.open
            },
            new_number: self.new_number + lines.len(),
            ..self
        }
    }

    /// Closes the open hunk, if it holds a line.
    pub open spec fn closed(self) -> Seq<HunkView> {
        if self.open.lines.len() == 0 {
            self.hunks
        } else {
            self.hunks.push(self.open)
        }
    }

    /// Passes over unchanged lines: the open hunk ends here.
    pub open spec fn equal(self, len: nat) -> WalkView {
        WalkView {
            hunks: self.closed(),
            open: HunkView {
                old_start: self.old_number + len,
                old_lines: 0,
                new_start: self.new_number + len,
                new_lines: 0,
                lines: seq![],
            },
            old_number: self.old_number + len,
            new_number: self.new_number + len,
        }
    }

    /// One step of the edit script.
    pub open spec fn step(self, op: LineOp, old: Seq<Seq<char>>, new: Seq<Seq<char>>) -> WalkView {
        match op {
            LineOp::Equal { len, .. } => self.equal(len as nat),
            LineOp::Delete { old_index, old_len } => self.removed(
                old.subrange(old_index as int, old_index + old_len),
            ),
            LineOp::Insert { new_index, new_len } => self.added(
                new.subrange(new_index as int, new_index + new_len),
            ),
            LineOp::Replace { old_index, old_len, new_index, new_len } => self.removed(
                old.subrange(old_index as int, old_index + old_len),
            ).added(new.subrange(new_index as int, new_index + new_len)),
        }
    }
}

/// A walk along all steps of an edit script.
pub open spec fn walk(ops: Seq<LineOp>, old: Seq<Seq<char>>, new: Seq<Seq<char>>) -> WalkView
    decreases ops.len(),
{
    if ops.len() == 0 {
        WalkView::start()
    } else {
        walk(ops.drop_last(), old, new).step(ops.last(), old, new)
    }
}

/// The hunks of an edit script.
pub open spec fn hunks_of(ops: Seq<LineOp>, old: Seq<Seq<char>>, new: Seq<Seq<char>>) -> Seq<
    HunkView,
> {
    walk(ops, old, new).closed()
}

impl View for ScreenDiffHunkLine {
    type V = HunkLineView;

    open spec fn view(&self) -> HunkLineView {
        HunkLineView {
            kind: self.kind,
            line: self.line@,
            old_line_number: match self.old_line_number {
                Some(n) => Some(n as nat),
                None => None,
            },
            new_line_number: match self.new_line_number {
                Some(n) => Some(n as nat),
                None => None,
            },
        }
    }
}

/// The models of some hunk lines.
pub open spec fn line_views(lines: Seq<ScreenDiffHunkLine>) -> Seq<HunkLineView> {
    lines.map_values(|l: ScreenDiffHunkLine| l@)
}

impl View for ScreenDiffHunk {
    type V = HunkView;

    open spec fn view(&self) -> HunkView {
        HunkView {
            old_start: self.old_start as nat,
            old_lines: self.old_lines as nat,
            new_start: self.new_start as nat,
            new_lines: self.new_lines as nat,
            lines: line_views(self.lines@),
        }
    }
}

/// The models of some hunks.
pub open spec fn hunk_views(hunks: Seq<ScreenDiffHunk>) -> Seq<HunkView> {
    hunks.map_values(|h: ScreenDiffHunk| h@)
}

impl ScreenTextDiff {
    /// Whether this is the diff that an edit script makes.
    pub open spec fn follows(
        self,
        ops: Seq<LineOp>,
        old: Seq<Seq<char>>,
        new: Seq<Seq<char>>,
    ) -> bool {
        &&& self.added_lines == added_count(ops)
        &&& self.removed_lines == removed_count(ops)
        &&& self.changed_lines == added_count(ops) + removed_count(ops)
        &&& hunk_views(self.hunks@) == hunks_of(ops, old, new)
    }
}

// ---------------------------------------------------------------------------
// Laws
// ---------------------------------------------------------------------------

/// What a diff leaves alone is the same number of lines on both sides.
pub proof fn unchanged_lines_agree(ops: Seq<LineOp>, old: Seq<Seq<char>>, new: Seq<Seq<char>>)
    requires
        edit_script(ops, old, new),
    ensures
        removed_count(ops) <= old.len(),
        added_count(ops) <= new.len(),
        old.len() - removed_count(ops) == new.len() - added_count(ops),
{
    lemma_counts(ops);
}

proof fn lemma_counts(ops: Seq<LineOp>)
    ensures
        removed_count(ops) <= old_span(ops),
        added_count(ops) <= new_span(ops),
        old_span(ops) - removed_count(ops) == new_span(ops) - added_count(ops),
    decreases ops.len(),
{
    if ops.len() > 0 {
        lemma_counts(ops.drop_last());
    }
}

/// Whether a hunk line carries the line that its number points to.
pub open spec fn points_right(
    line: HunkLineView,
    old: Seq<Seq<char>>,
    new: Seq<Seq<char>>,
) -> bool {
    match line.kind {
        HunkLineKind::Removed => {
            &&& line.new_line_number is None
            &&& line.old_line_number matches Some(n) && 1 <= n <= old.len() && line.line == old[n
                - 1]
        },
        HunkLineKind::Added => {
            &&& line.old_line_number is None
            &&& line.new_line_number matches Some(n) && 1 <= n <= new.len() && line.line == new[n
                - 1]
        },
    }
}

/// Whether a hunk's lines point right and its counts are those of its lines.
pub open spec fn hunk_sound(h: HunkView, old: Seq<Seq<char>>, new: Seq<Seq<char>>) -> bool {
    &&& forall|i: int| 0 <= i < h.lines.len() ==> points_right(#[trigger] h.lines[i], old, new)
    &&& h.lines.len() == h.old_lines + h.new_lines
}

/// Every line of every hunk is the line of the screen that its number names, and a
/// hunk's counts add up to its lines.
pub proof fn hunks_point_at_the_right_lines(
    ops: Seq<LineOp>,
    old: Seq<Seq<char>>,
    new: Seq<Seq<char>>,
)
    requires
        edit_script(ops, old, new),
    ensures
        forall|i: int|
            0 <= i < hunks_of(ops, old, new).len() ==> hunk_sound(
                #[trigger] hunks_of(ops, old, new)[i],
                old,
                new,
            ),
{
    lemma_walk(ops, old, new, ops.len() as int);
    assert(ops.take(ops.len() as int) =~= ops);
}

proof fn lemma_walk(ops: Seq<LineOp>, old: Seq<Seq<char>>, new: Seq<Seq<char>>, k: int)
    requires
        edit_script(ops, old, new),
        0 <= k <= ops.len(),
    ensures
        ({
            let w = walk(ops.take(k), old, new);
            &&& w.old_number == old_span(ops.take(k)) + 1
            &&& w.new_number == new_span(ops.take(k)) + 1
            &&& old_span(ops.take(k)) <= old.len()
            &&& new_span(ops.take(k)) <= new.len()
            &&& hunk_sound(w.open, old, new)
            &&& forall|i: int|
                0 <= i < w.hunks.len() ==> hunk_sound(#[trigger] w.hunks[i], old, new)
        }),
    decreases k,
{
    let part = ops.take(k);
    if k > 0 {
        lemma_walk(ops, old, new, k - 1);
        assert(part.drop_last() =~= ops.take(k - 1));
        assert(part.last() == ops[k - 1]);
        assert(continues(
            ops[k - 1],
            old,
            new,
            old_span(ops.take(k - 1)),
            new_span(ops.take(k - 1)),
        ));
        let w = walk(ops.take(k - 1), old, new);
        match ops[k - 1] {
            LineOp::Equal { .. } => {},
            LineOp::Delete { old_index, old_len } => {
                lemma_removed_sound(w, old, new, old_index as nat, old_len as nat);
            },
            LineOp::Insert { new_index, new_len } => {
                lemma_added_sound(w, old, new, new_index as nat, new_len as nat);
            },
            LineOp::Replace { old_index, old_len, new_index, new_len } => {
                lemma_removed_sound(w, old, new, old_index as nat, old_len as nat);
                lemma_added_sound(
                    w.removed(old.subrange(old_index as int, old_index + old_len)),
                    old,
                    new,
                    new_index as nat,
                    new_len as nat,
                );
            },
        }
    }
}

proof fn lemma_removed_sound(
    w: WalkView,
    old: Seq<Seq<char>>,
    new: Seq<Seq<char>>,
    at: nat,
    len: nat,
)
    requires
        hunk_sound(w.open, old, new),
        w.old_number == at + 1,
        at + len <= old.len(),
    ensures
        hunk_sound(w.removed(old.subrange(at as int, (at + len) as int)).open, old, new),
{
    let part = old.subrange(at as int, (at + len) as int);
    let open = w.removed(part).open;
    let before = w.open.lines.len();
    assert forall|i: int| 0 <= i < open.lines.len() implies points_right(
        #[trigger] open.lines[i],
        old,
        new,
    ) by {
        if i < before {
            assert(open.lines[i] == w.open.lines[i]);
        } else {
            assert(open.lines[i] == removed_lines(part, w.old_number)[i - before]);
        }
    }
}

proof fn lemma_added_sound(
    w: WalkView,
    old: Seq<Seq<char>>,
    new: Seq<Seq<char>>,
    at: nat,
    len: nat,
)
    requires
        hunk_sound(w.open, old, new),
        w.new_number == at + 1,
        at + len <= new.len(),
    ensures
        hunk_sound(w.added(new.subrange(at as int, (at + len) as int)).open, old, new),
{
    let part = new.subrange(at as int, (at + len) as int);
    let open = w.added(part).open;
    let before = w.open.lines.len();
    assert forall|i: int| 0 <= i < open.lines.len() implies points_right(
        #[trigger] open.lines[i],
        old,
        new,
    ) by {
        if i < before {
            assert(open.lines[i] == w.open.lines[i]);
        } else {
            assert(open.lines[i] == added_lines(part, w.new_number)[i - before]);
        }
    }
}

/// Whether no two changing steps follow each other: between any two lie unchanged lines.
pub open spec fn changes_apart(ops: Seq<LineOp>) -> bool {
    forall|i: int| 0 < i < ops.len() && !((#[trigger] ops[i]) is Equal) ==> ops[i - 1] is Equal
}

/// Whether a hunk holds exactly the old lines that its first numbers span, as removed
/// lines, and behind them the new lines that its second numbers span, as added ones.
pub open spec fn hunk_exact(h: HunkView, old: Seq<Seq<char>>, new: Seq<Seq<char>>) -> bool {
    &&& h.old_start >= 1
    &&& h.new_start >= 1
    &&& h.old_start - 1 + h.old_lines <= old.len()
    &&& h.new_start - 1 + h.new_lines <= new.len()
    &&& h.lines == removed_lines(
        old.subrange(h.old_start - 1, h.old_start - 1 + h.old_lines),
        h.old_start,
    ) + added_lines(
        new.subrange(h.new_start - 1, h.new_start - 1 + h.new_lines),
        h.new_start,
    )
}

/// The lines that a hunk adds.
pub open spec fn added_by(h: HunkView) -> Seq<Seq<char>> {
    Seq::new(h.new_lines, |i: int| h.lines[h.old_lines + i].line)
}

/// Some lines with hunks applied to them: the lines that each one spans give way to those
/// that it adds.
pub open spec fn applied(old: Seq<Seq<char>>, hunks: Seq<HunkView>) -> Seq<Seq<char>>
    decreases hunks.len(),
{
    if hunks.len() == 0 {
        old
    } else {
        let h = hunks.last();
        applied(old.take(h.old_start - 1), hunks.drop_last()) + added_by(h) + old.skip(
            h.old_start - 1 + h.old_lines,
        )
    }
}

/// A hunk lists its removed lines first, then its added ones, each under its number; and
/// applying all hunks to the old lines gives the new ones.
pub proof fn hunks_turn_the_old_lines_into_the_new(
    ops: Seq<LineOp>,
    old: Seq<Seq<char>>,
    new: Seq<Seq<char>>,
)
    requires
        edit_script(ops, old, new),
        changes_apart(ops),
    ensures
        forall|i: int|
            0 <= i < hunks_of(ops, old, new).len() ==> hunk_exact(
                #[trigger] hunks_of(ops, old, new)[i],
                old,
                new,
            ),
        applied(old, hunks_of(ops, old, new)) == new,
{
    lemma_exact_walk(ops, old, new, ops.len() as int);
    assert(ops.take(ops.len() as int) =~= ops);
    let w = walk(ops, old, new);
    lemma_stands(w, old, new, old.len() as int, new.len() as int);
    assert(old.subrange(old.len() as int, old.len() as int) =~= new.subrange(
        new.len() as int,
        new.len() as int,
    ));
    lemma_closing(w, old, new, 0);
    assert(old.take(old.len() as int) =~= old);
    assert(new.take(new.len() as int) =~= new);
}

/// Whether a walk that stands at those lines keeps its hunks exact, and they turn what
/// lies before the open hunk on the old side into what lies there on the new one.
#[verifier::opaque]
spec fn keeps_exact(
    w: WalkView,
    old: Seq<Seq<char>>,
    new: Seq<Seq<char>>,
    at_old: int,
    at_new: int,
) -> bool {
    &&& w.old_number == at_old + 1
    &&& w.new_number == at_new + 1
    &&& at_old <= old.len()
    &&& at_new <= new.len()
    &&& hunk_exact(w.open, old, new)
    &&& w.open.old_start - 1 + w.open.old_lines == at_old
    &&& w.open.new_start - 1 + w.open.new_lines == at_new
    &&& forall|i: int| 0 <= i < w.hunks.len() ==> hunk_exact(#[trigger] w.hunks[i], old, new)
    &&& w.hunks.len() > 0 ==> w.hunks.last().old_start - 1 + w.hunks.last().old_lines
        <= w.open.old_start - 1
    &&& applied(old.take(w.open.old_start - 1), w.hunks) == new.take(w.open.new_start - 1)
}

proof fn lemma_stands(
    w: WalkView,
    old: Seq<Seq<char>>,
    new: Seq<Seq<char>>,
    at_old: int,
    at_new: int,
)
    requires
        keeps_exact(w, old, new, at_old, at_new),
    ensures
        w.old_number == at_old + 1,
        w.new_number == at_new + 1,
        at_old <= old.len(),
        at_new <= new.len(),
{
    reveal(keeps_exact);
}

proof fn lemma_closing(w: WalkView, old: Seq<Seq<char>>, new: Seq<Seq<char>>, len: nat)
    requires
        keeps_exact(w, old, new, w.old_number - 1, w.new_number - 1),
        w.old_number - 1 + len <= old.len(),
        w.new_number - 1 + len <= new.len(),
        old.subrange(w.old_number - 1, w.old_number - 1 + len) == new.subrange(
            w.new_number - 1,
            w.new_number - 1 + len,
        ),
    ensures
        keeps_exact(w.equal(len), old, new, w.old_number - 1 + len, w.new_number - 1 + len),
        applied(old.take(w.old_number - 1 + len), w.closed()) == new.take(
            w.new_number - 1 + len,
        ),
        forall|i: int|
            0 <= i < w.closed().len() ==> hunk_exact(#[trigger] w.closed()[i], old, new),
{
    reveal(keeps_exact);
    let at_old = w.old_number - 1;
    let at_new = w.new_number - 1;
    let upto = old.take(at_old + len);
    let h = w.open;
    let next = w.equal(len);
    assert(upto.take(h.old_start - 1) =~= old.take(h.old_start - 1));
    if h.lines.len() == 0 {
        assert(h.old_lines + h.new_lines == 0);
        if w.hunks.len() > 0 {
            let last = w.hunks.last();
            let cut = last.old_start - 1 + last.old_lines;
            assert(hunk_exact(w.hunks[w.hunks.len() - 1], old, new));
            let short = old.take(at_old);
            assert(upto.take(last.old_start - 1) =~= short.take(last.old_start - 1));
            assert(upto.skip(cut) =~= short.skip(cut) + old.subrange(at_old, at_old + len));
            assert(applied(upto, w.hunks) =~= applied(short, w.hunks) + old.subrange(
                at_old,
                at_old + len,
            ));
        } else {
            assert(upto =~= old.take(at_old) + old.subrange(at_old, at_old + len));
        }
        assert(new.take(at_new + len) =~= new.take(at_new) + new.subrange(at_new, at_new + len));
    } else {
        assert(w.closed().drop_last() =~= w.hunks);
        assert(w.closed().last() == h);
        let fresh = new.subrange(h.new_start - 1, at_new);
        assert(added_by(h) =~= fresh) by {
            assert forall|i: int| 0 <= i < fresh.len() implies added_by(h)[i] == fresh[i] by {
                assert(h.lines[h.old_lines + i] == added_lines(fresh, h.new_start)[i]);
            }
        }
        assert(upto.skip(at_old) =~= old.subrange(at_old, at_old + len));
        assert(new.take(at_new + len) =~= new.take(h.new_start - 1) + fresh + new.subrange(
            at_new,
            at_new + len,
        ));
        assert forall|i: int| 0 <= i < w.closed().len() implies hunk_exact(
            #[trigger] w.closed()[i],
            old,
            new,
        ) by {
            if i < w.hunks.len() {
                assert(w.closed()[i] == w.hunks[i]);
            }
        }
    }
    assert(next.open.lines =~= removed_lines(
        old.subrange(next.open.old_start - 1, next.open.old_start - 1),
        next.open.old_start,
    ) + added_lines(
        new.subrange(next.open.new_start - 1, next.open.new_start - 1),
        next.open.new_start,
    ));
}

proof fn lemma_changing(
    w: WalkView,
    old: Seq<Seq<char>>,
    new: Seq<Seq<char>>,
    removed: nat,
    added: nat,
)
    requires
        keeps_exact(w, old, new, w.old_number - 1, w.new_number - 1),
        w.open.lines.len() == 0,
        w.old_number - 1 + removed <= old.len(),
        w.new_number - 1 + added <= new.len(),
    ensures
        ({
            let gone = old.subrange(w.old_number - 1, w.old_number - 1 + removed);
            let come = new.subrange(w.new_number - 1, w.new_number - 1 + added);
            keeps_exact(
                w.removed(gone).added(come),
                old,
                new,
                w.old_number - 1 + removed,
                w.new_number - 1 + added,
            )
        }),
{
    reveal(keeps_exact);
    let gone = old.subrange(w.old_number - 1, w.old_number - 1 + removed);
    let come = new.subrange(w.new_number - 1, w.new_number - 1 + added);
    let next = w.removed(gone).added(come);
    assert(w.open.old_lines + w.open.new_lines == 0);
    assert(next.open.lines =~= removed_lines(gone, w.old_number) + added_lines(
        come,
        w.new_number,
    ));
}

proof fn lemma_exact_step(
    w: WalkView,
    op: LineOp,
    old: Seq<Seq<char>>,
    new: Seq<Seq<char>>,
    at_old: nat,
    at_new: nat,
)
    requires
        keeps_exact(w, old, new, at_old as int, at_new as int),
        continues(op, old, new, at_old, at_new),
        !(op is Equal) ==> w.open.lines.len() == 0,
    ensures
        keeps_exact(
            w.step(op, old, new),
            old,
            new,
            (at_old + old_taken(op)) as int,
            (at_new + new_taken(op)) as int,
        ),
{
    lemma_stands(w, old, new, at_old as int, at_new as int);
    let empty = Seq::<Seq<char>>::empty();
    match op {
        LineOp::Equal { len, .. } => {
            let same = new.subrange(at_new as int, at_new + len);
            assert forall|i: int| 0 <= i < len implies #[trigger] same[i] == old[at_old + i] by {
                assert(same[i] == new[at_new + i]);
            }
            assert(old.subrange(at_old as int, at_old + len) =~= same);
            lemma_closing(w, old, new, len as nat);
        },
        LineOp::Delete { old_index, old_len } => {
            lemma_changing(w, old, new, old_len as nat, 0);
            let gone = old.subrange(old_index as int, old_index + old_len);
            assert(new.subrange(at_new as int, at_new as int) =~= empty);
            assert(w.removed(gone).added(empty) =~= w.removed(gone));
        },
        LineOp::Insert { new_index, new_len } => {
            lemma_changing(w, old, new, 0, new_len as nat);
            let come = new.subrange(new_index as int, new_index + new_len);
            assert(old.subrange(at_old as int, at_old as int) =~= empty);
            assert(w.removed(empty).added(come) =~= w.added(come));
        },
        LineOp::Replace { old_len, new_len, .. } => {
            lemma_changing(w, old, new, old_len as nat, new_len as nat);
        },
    }
}

proof fn lemma_exact_walk(ops: Seq<LineOp>, old: Seq<Seq<char>>, new: Seq<Seq<char>>, k: int)
    requires
        edit_script(ops, old, new),
        changes_apart(ops),
        0 <= k <= ops.len(),
    ensures
        keeps_exact(
            walk(ops.take(k), old, new),
            old,
            new,
            old_span(ops.take(k)) as int,
            new_span(ops.take(k)) as int,
        ),
        k == 0 || ops[k - 1] is Equal ==> walk(ops.take(k), old, new).open.lines.len() == 0,
    decreases k,
{
    let part = ops.take(k);
    if k == 0 {
        reveal(keeps_exact);
        let w = WalkView::start();
        assert(w.open.lines =~= removed_lines(old.subrange(0, 0), 1) + added_lines(
            new.subrange(0, 0),
            1,
        ));
        assert(old.take(0) =~= new.take(0));
    } else {
        lemma_exact_walk(ops, old, new, k - 1);
        let before = ops.take(k - 1);
        assert(part.drop_last() =~= before);
        assert(part.last() == ops[k - 1]);
        assert(continues(ops[k - 1], old, new, old_span(before), new_span(before)));
        lemma_exact_step(
            walk(before, old, new),
            ops[k - 1],
            old,
            new,
            old_span(before),
            new_span(before),
        );
    }
}

/// The length of a longest common subsequence of two lists of lines.
pub open spec fn longest_common(a: Seq<Seq<char>>, b: Seq<Seq<char>>) -> nat
    decreases a.len() + b.len(),
{
    if a.len() == 0 || b.len() == 0 {
        0
    } else if a.last() == b.last() {
        longest_common(a.drop_last(), b.drop_last()) + 1
    } else {
        let without_a = longest_common(a.drop_last(), b);
        let without_b = longest_common(a, b.drop_last());
        if without_a >= without_b {
            without_a
        } else {
            without_b
        }
    }
}

proof fn lemma_longest_common(a: Seq<Seq<char>>, b: Seq<Seq<char>>)
    ensures
        longest_common(a, b) == longest_common(b, a),
        longest_common(a, b) <= a.len(),
        longest_common(a, b) <= b.len(),
    decreases a.len() + b.len(),
{
    if a.len() > 0 && b.len() > 0 {
        if a.last() == b.last() {
            lemma_longest_common(a.drop_last(), b.drop_last());
        } else {
            lemma_longest_common(a.drop_last(), b);
            lemma_longest_common(a, b.drop_last());
        }
    }
}

/// How many lines a change from one screen to another removes: those that no longest
/// common part keeps.
pub open spec fn removed_between(before: Seq<char>, after: Seq<char>) -> nat {
    (screen_lines(before).len() - longest_common(screen_lines(before), screen_lines(after))) as nat
}

/// How many lines a change from one screen to another adds.
pub open spec fn added_between(before: Seq<char>, after: Seq<char>) -> nat {
    (screen_lines(after).len() - longest_common(screen_lines(before), screen_lines(after))) as nat
}

/// Swapping the screens swaps the counts, and what a change adds and removes is what the
/// screens differ in length.
pub proof fn swapping_the_screens_swaps_the_counts(before: Seq<char>, after: Seq<char>)
    ensures
        added_between(before, after) == removed_between(after, before),
        removed_between(before, after) == added_between(after, before),
        summary_of(before, after).added_lines == summary_of(after, before).removed_lines,
        summary_of(before, after).removed_lines == summary_of(after, before).added_lines,
        summary_of(before, after).changed_lines == summary_of(after, before).changed_lines,
        added_between(before, after) + screen_lines(before).len() == removed_between(before, after)
            + screen_lines(after).len(),
{
    lemma_longest_common(screen_lines(before), screen_lines(after));
}

/// An edit script that changes nothing makes an empty diff.
pub proof fn no_changes_make_no_hunks(ops: Seq<LineOp>, old: Seq<Seq<char>>, new: Seq<Seq<char>>)
    requires
        forall|i: int| 0 <= i < ops.len() ==> (#[trigger] ops[i]) is Equal,
    ensures
        removed_count(ops) == 0,
        added_count(ops) == 0,
        walk(ops, old, new).open.lines.len() == 0,
        hunks_of(ops, old, new) == Seq::<HunkView>::empty(),
    decreases ops.len(),
{
    if ops.len() > 0 {
        let init = ops.drop_last();
        assert forall|i: int| 0 <= i < init.len() implies (#[trigger] init[i]) is Equal by {
            assert(ops[i] is Equal);
        }
        no_changes_make_no_hunks(init, old, new);
        assert(ops[ops.len() - 1] is Equal);
    }
}

// ---------------------------------------------------------------------------
// The diff
// ---------------------------------------------------------------------------

/// The edit script that the `similar` crate's Myers diff finds between two lists of
/// lines.
pub uninterp spec fn line_ops(old: Seq<Seq<char>>, new: Seq<Seq<char>>) -> Seq<LineOp>;

/// `similar::capture_diff_slices` with Myers' algorithm, its operations handed out as
/// [`LineOp`]s. They form an edit script from the old lines to the new ones, and a
/// shortest one: as many lines as possible stay unchanged. Adjoining changes are merged
/// into one step, and equal lists have nothing but unchanged lines. Which of several such
/// scripts it picks is not said.
#[verifier::external_body]
fn diff_lines(old: &Vec<String>, new: &Vec<String>) -> (r: Vec<LineOp>)
    ensures
        r@ == line_ops(text::texts(old@), text::texts(new@)),
        edit_script(r@, text::texts(old@), text::texts(new@)),
        removed_count(r@) + longest_common(text::texts(old@), text::texts(new@)) == old@.len(),
        changes_apart(r@),
        text::texts(old@) == text::texts(new@) ==> forall|i: int|
            0 <= i < r@.len() ==> (#[trigger] r@[i]) is Equal,
{
    capture_diff_slices(Algorithm::Myers, old, new).into_iter().map(|op| match op {
        DiffOp::Equal { old_index, new_index, len } => LineOp::Equal { old_index, new_index, len },
        DiffOp::Delete { old_index, old_len, .. } => LineOp::Delete { old_index, old_len },
        DiffOp::Insert { new_index, new_len, .. } => LineOp::Insert { new_index, new_len },
        DiffOp::Replace { old_index, old_len, new_index, new_len } => {
            LineOp::Replace { old_index, old_len, new_index, new_len }
        },
    }).collect()
}

/// `Vec::len` of a list of strings. No vector takes up more than `isize::MAX` bytes, so
/// this one holds fewer than half that many strings.
#[verifier::external_body]
fn line_count(lines: &Vec<String>) -> (n: usize)
    ensures
        n == lines@.len(),
        n < isize::MAX / 2,
{
    lines.len()
}

/// Splits a screen into lines.
pub fn split_screen_lines(screen: &str) -> (r: Vec<String>)
    ensures
        text::texts(r@) == screen_lines(screen@),
{
    let chars = chars_of(screen);
    let mut lines: Vec<String> = Vec::new();
    if chars.len() == 0 {
        assert(text::texts(lines@) =~= screen_lines(screen@));
        return lines;
    }
    let mut line = String::new();
    let mut i: usize = 0;
    assert(chars@.take(0) =~= Seq::<char>::empty());
    assert(text::texts(lines@).push(line@) =~= split_lines(chars@.take(0)));
    while i < chars.len()
        invariant
            i <= chars@.len(),
            text::texts(lines@).push(line@) == split_lines(chars@.take(i as int)),
        decreases chars@.len() - i,
    {
        let ghost before = lines@;
        let ghost part = chars@.take(i + 1);
        assert(part.drop_last() =~= chars@.take(i as int));
        assert(part.last() == chars@[i as int]);
        assert(text::texts(before).push(line@).drop_last() =~= text::texts(before));
        if chars[i] == '\n' {
            let ghost done = line@;
            lines.push(line);
            line = String::new();
            assert(text::texts(lines@) =~= text::texts(before).push(done));
            assert(text::texts(lines@).push(line@) =~= split_lines(part));
        } else {
            line.push(chars[i]);
            assert(text::texts(lines@).push(line@) =~= split_lines(part));
        }
        i += 1;
    }
    assert(chars@.take(i as int) =~= chars@);
    let ghost before = lines@;
    let ghost last = line@;
    lines.push(line);
    assert(text::texts(lines@) =~= text::texts(before).push(last));
    lines
}

/// Accumulates hunks while walking an edit script.
struct HunkBuilder {
    hunks: Vec<ScreenDiffHunk>,
    pending: Vec<ScreenDiffHunkLine>,
    old_start: usize,
    new_start: usize,
    old_lines: usize,
    new_lines: usize,
    old_line_number: usize,
    new_line_number: usize,
}

impl HunkBuilder {
    spec fn view(&self) -> WalkView {
        WalkView {
            hunks: hunk_views(self.hunks@),
            open: HunkView {
                old_start: self.old_start as nat,
                old_lines: self.old_lines as nat,
                new_start: self.new_start as nat,
                new_lines: self.new_lines as nat,
                lines: line_views(self.pending@),
            },
            old_number: self.old_line_number as nat,
            new_number: self.new_line_number as nat,
        }
    }

    spec fn wf(&self) -> bool {
        self.old_lines < self.old_line_number && self.new_lines < self.new_line_number
    }

    fn new() -> (r: Self)
        ensures
            r.view() == WalkView::start(),
            r.wf(),
    {
        let r = HunkBuilder {
            hunks: Vec::new(),
            pending: Vec::new(),
            old_start: 1,
            new_start: 1,
            old_lines: 0,
            new_lines: 0,
            old_line_number: 1,
            new_line_number: 1,
        };
        assert(r.view() =~= WalkView::start());
        r
    }

    fn flush(&mut self)
        ensures
            hunk_views(final(self).hunks@) == old(self).view().closed(),
            final(self).pending@.len() == 0,
            final(self).old_line_number == old(self).old_line_number,
            final(self).new_line_number == old(self).new_line_number,
    {
        if self.pending.len() == 0 {
            return;
        }
        let mut lines: Vec<ScreenDiffHunkLine> = Vec::new();
        std::mem::swap(&mut lines, &mut self.pending);
        let ghost before = self.hunks@;
        let hunk = ScreenDiffHunk {
            old_start: self.old_start,
            old_lines: self.old_lines,
            new_start: self.new_start,
            new_lines: self.new_lines,
            lines,
        };
        self.hunks.push(hunk);
        assert(hunk_views(self.hunks@) =~= hunk_views(before).push(hunk@));
    }

    fn removed(&mut self, lines: &Vec<String>, from: usize, count: usize)
        requires
            old(self).wf(),
            from + count <= lines@.len(),
            old(self).old_line_number + count <= usize::MAX,
        ensures
            final(self).wf(),
            final(self).view() == old(self).view().removed(
                text::texts(lines@).subrange(from as int, from + count),
            ),
    {
        let ghost start = self.view();
        let ghost all = text::texts(lines@);
        let mut i: usize = 0;
        assert(all.subrange(from as int, from as int) =~= Seq::<Seq<char>>::empty());
        assert(self.view() =~= start.removed(all.subrange(from as int, from as int)));
        while i < count
            invariant
                i <= count,
                self.wf(),
                start == old(self).view(),
                all == text::texts(lines@),
                from + count <= lines.len(),
                old(self).old_line_number + count <= usize::MAX,
                self.old_line_number == old(self).old_line_number + i,
                self.view() == start.removed(all.subrange(from as int, from + i)),
            decreases count - i,
        {
            let ghost before = self.view();
            let ghost pending = self.pending@;
            let line = ScreenDiffHunkLine {
                kind: HunkLineKind::Removed,
                line: lines[from + i].clone(),
                old_line_number: Some(self.old_line_number),
                new_line_number: None,
            };
            self.pending.push(line);
            assert(line_views(self.pending@) =~= line_views(pending).push(line@));
            self.old_line_number += 1;
            self.old_lines += 1;
            proof {
                let part = all.subrange(from as int, from + i);
                let more = all.subrange(from as int, from + i + 1);
                assert(more =~= part.push(all[from + i]));
                assert(removed_lines(more, start.old_number) =~= removed_lines(
                    part,
                    start.old_number,
                ).push(line@));
                assert(self.view() =~= start.removed(more));
            }
            i += 1;
        }
    }

    fn added(&mut self, lines: &Vec<String>, from: usize, count: usize)
        requires
            old(self).wf(),
            from + count <= lines@.len(),
            old(self).new_line_number + count <= usize::MAX,
        ensures
            final(self).wf(),
            final(self).view() == old(self).view().added(
                text::texts(lines@).subrange(from as int, from + count),
            ),
    {
        let ghost start = self.view();
        let ghost all = text::texts(lines@);
        let mut i: usize = 0;
        assert(all.subrange(from as int, from as int) =~= Seq::<Seq<char>>::empty());
        assert(self.view() =~= start.added(all.subrange(from as int, from as int)));
        while i < count
            invariant
                i <= count,
                self.wf(),
                start == old(self).view(),
                all == text::texts(lines@),
                from + count <= lines.len(),
                old(self).new_line_number + count <= usize::MAX,
                self.new_line_number == old(self).new_line_number + i,
                self.view() == start.added(all.subrange(from as int, from + i)),
            decreases count - i,
        {
            let ghost before = self.view();
            let ghost pending = self.pending@;
            let line = ScreenDiffHunkLine {
                kind: HunkLineKind::Added,
                line: lines[from + i].clone(),
                old_line_number: None,
                new_line_number: Some(self.new_line_number),
            };
            self.pending.push(line);
            assert(line_views(self.pending@) =~= line_views(pending).push(line@));
            self.new_line_number += 1;
            self.new_lines += 1;
            proof {
                let part = all.subrange(from as int, from + i);
                let more = all.subrange(from as int, from + i + 1);
                assert(more =~= part.push(all[from + i]));
                assert(added_lines(more, start.new_number) =~= added_lines(
                    part,
                    start.new_number,
                ).push(line@));
                assert(self.view() =~= start.added(more));
            }
            i += 1;
        }
    }

    fn equal(&mut self, len: usize)
        requires
            old(self).old_line_number + len <= usize::MAX,
            old(self).new_line_number + len <= usize::MAX,
            old(self).wf(),
        ensures
            final(self).wf(),
            final(self).view() == old(self).view().equal(len as nat),
    {
        self.flush();
        self.old_line_number += len;
        self.new_line_number += len;
        self.old_start = self.old_line_number;
        self.new_start = self.new_line_number;
        self.old_lines = 0;
        self.new_lines = 0;
        assert(self.view() =~= old(self).view().equal(len as nat));
    }
}

/// Makes the diff that an edit script describes.
pub fn diff_from_ops(ops: &Vec<LineOp>, old: &Vec<String>, new: &Vec<String>) -> (r:
    ScreenTextDiff)
    requires
        edit_script(ops@, text::texts(old@), text::texts(new@)),
    ensures
        r.follows(ops@, text::texts(old@), text::texts(new@)),
{
    let ghost a = text::texts(old@);
    let ghost b = text::texts(new@);
    let old_total: usize = line_count(old);
    let new_total: usize = line_count(new);
    let mut builder = HunkBuilder::new();
    let mut added_lines: usize = 0;
    let mut removed_lines: usize = 0;
    let mut i: usize = 0;
    assert(ops@.take(0) =~= Seq::<LineOp>::empty());
    while i < ops.len()
        invariant
            i <= ops@.len(),
            a == text::texts(old@),
            b == text::texts(new@),
            old_total == a.len(),
            new_total == b.len(),
            old_total < isize::MAX / 2,
            new_total < isize::MAX / 2,
            edit_script(ops@, a, b),
            builder.wf(),
            builder.view() == walk(ops@.take(i as int), a, b),
            added_lines == added_count(ops@.take(i as int)),
            removed_lines == removed_count(ops@.take(i as int)),
        decreases ops@.len() - i,
    {
        proof {
            lemma_walk(ops@, a, b, i as int);
            lemma_counts(ops@.take(i as int));
            assert(continues(
                ops@[i as int],
                a,
                b,
                old_span(ops@.take(i as int)),
                new_span(ops@.take(i as int)),
            ));
            assert(ops@.take(i + 1).drop_last() =~= ops@.take(i as int));
            assert(ops@.take(i + 1).last() == ops@[i as int]);
        }
        match ops[i] {
            LineOp::Equal { old_index: _, new_index: _, len } => {
                builder.equal(len);
            },
            LineOp::Delete { old_index, old_len } => {
                removed_lines += old_len;
                builder.removed(old, old_index, old_len);
            },
            LineOp::Insert { new_index, new_len } => {
                added_lines += new_len;
                builder.added(new, new_index, new_len);
            },
            LineOp::Replace { old_index, old_len, new_index, new_len } => {
                removed_lines += old_len;
                added_lines += new_len;
                builder.removed(old, old_index, old_len);
                builder.added(new, new_index, new_len);
            },
        }
        i += 1;
    }
    assert(ops@.take(i as int) =~= ops@);
    proof {
        unchanged_lines_agree(ops@, a, b);
    }
    builder.flush();
    ScreenTextDiff {
        added_lines,
        removed_lines,
        changed_lines: added_lines + removed_lines,
        hunks: builder.hunks,
    }
}

/// Computes the full diff (summary and hunks) between two screens: as few lines as
/// possible are removed and added, and applying the hunks to the old screen's lines gives
/// the new one's. Identical screens have an empty diff.
pub fn diff_screen_text(before: &str, after: &str) -> (r: ScreenTextDiff)
    ensures
        ({
            let old = screen_lines(before@);
            let new = screen_lines(after@);
            &&& r.follows(line_ops(old, new), old, new)
            &&& edit_script(line_ops(old, new), old, new)
            &&& changes_apart(line_ops(old, new))
            &&& r.added_lines == added_between(before@, after@)
            &&& r.removed_lines == removed_between(before@, after@)
            &&& applied(old, hunk_views(r.hunks@)) == new
            &&& before@ == after@ ==> r.changed_lines == 0 && r.hunks@.len() == 0
        }),
{
    let old = split_screen_lines(before);
    let new = split_screen_lines(after);
    let ops = diff_lines(&old, &new);
    let r = diff_from_ops(&ops, &old, &new);
    proof {
        unchanged_lines_agree(ops@, text::texts(old@), text::texts(new@));
        hunks_turn_the_old_lines_into_the_new(ops@, text::texts(old@), text::texts(new@));
        if before@ == after@ {
            no_changes_make_no_hunks(ops@, text::texts(old@), text::texts(new@));
            assert(hunk_views(r.hunks@).len() == 0);
        }
    }
    r
}

/// The summary-only diff between two screens.
pub open spec fn summary_of(before: Seq<char>, after: Seq<char>) -> ScreenDiffSummary {
    let added = added_between(before, after);
    let removed = removed_between(before, after);
    ScreenDiffSummary {
        added_lines: added as usize,
        removed_lines: removed as usize,
        changed_lines: (added + removed) as usize,
    }
}

/// Computes the summary-only diff between two screens.
pub fn summarize_screen_diff(before: &str, after: &str) -> (r: ScreenDiffSummary)
    ensures
        r == summary_of(before@, after@),
        r.added_lines == added_between(before@, after@),
        r.removed_lines == removed_between(before@, after@),
        r.changed_lines == added_between(before@, after@) + removed_between(before@, after@),
        before@ == after@ ==> r.changed_lines == 0,
{
    let diff = diff_screen_text(before, after);
    ScreenDiffSummary {
        added_lines: diff.added_lines,
        removed_lines: diff.removed_lines,
        changed_lines: diff.changed_lines,
    }
}

} // verus!
