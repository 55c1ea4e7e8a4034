//! Bounded, in-memory index of completed shell commands and their output.
//!
//! The store behind the read-only pull tools: it gives bounded random access to the
//! output of one selected command, under per-command and per-session byte caps.
//!
//! What it retains is the marker-clean text observed between a real `command_start` and
//! its `command_end`, control sequences included. Every command's output is described
//! by what is retained plus how much was dropped in front of it, so a gap is always
//! reported and never passed off as a short answer.
//!
//! Nothing here is written to disk.

use crate::clock::{Clock, SystemClock};
use crate::text;
use crate::text::{byte_size, clipped, push_decimal, same_text, width_of};
use crate::utf8_stream;
use crate::utf8_stream::{decode_into, REPLACEMENT};
use vstd::prelude::*;

verus! {

/// Completed commands whose metadata is retained, newest first.
pub const MAX_COMPLETED_COMMANDS: usize = 10;

/// Retained output for a single command, in UTF-8 bytes of the decoded text.
pub const MAX_COMMAND_OUTPUT_BYTES: usize = 1_048_576;

/// Retained output across the active capture plus all completed commands.
pub const MAX_TOTAL_OUTPUT_BYTES: usize = 4_194_304;

/// Stored command text. An abnormal shell line must not defeat the store's bounds
/// through the metadata path.
pub const MAX_COMMAND_TEXT_BYTES: usize = 4096;

/// Command text returned per row by the list tool, in characters.
pub const MAX_COMMAND_PREVIEW_CHARACTERS: usize = 512;

/// Default page size for a read, in characters.
pub const DEFAULT_READ_LIMIT: usize = 8_000;

/// Hard cap on one read page, in characters.
pub const MAX_READ_LIMIT: usize = 16_000;

/// Truthful accounting for one command's output: `total_*` is what the command
/// produced, `retained_*` is what survives the caps, and the offset and dropped fields
/// say exactly where the gap is.
#[derive(Debug, Clone, PartialEq, Eq)]
pub struct CommandOutputInfo {
    /// Always `pty_text`. Named so a later rendered-text format is additive.
    pub format: &'static str,
    pub total_bytes: usize,
    pub total_characters: usize,
    pub retained_bytes: usize,
    pub retained_characters: usize,
    /// Absolute character offset of the first retained character in the original output.
    pub retained_start_offset: usize,
    pub dropped_prefix_bytes: usize,
    /// Whether any output was dropped, by the per-command cap or by reclamation.
    pub source_truncated: bool,
    /// Whether the retained text can serve anything of what the command produced. False
    /// once output existed but was fully reclaimed.
    pub available: bool,
}

/// One completed command's metadata. Output lives beside it and may be reclaimed
/// independently, which is why the metadata row survives its own output.
#[derive(Debug, Clone, PartialEq, Eq)]
pub struct CompletedCommand {
    pub command_id: String,
    /// Stored command text, capped at [`MAX_COMMAND_TEXT_BYTES`].
    pub command: String,
    pub command_truncated: bool,
    pub cwd: Option<String>,
    pub started_at: i64,
    pub ended_at: i64,
    pub duration_ms: u64,
    pub exit_code: Option<i32>,
    pub output: OutputBuffer,
}

/// Why a read could not be served.
#[derive(Debug, Clone, PartialEq, Eq)]
pub enum ReadError {
    /// No completed command carries this id.
    CommandNotFound,
    /// The requested offset predates the retained window. Carries the earliest offset
    /// still available, so the agent can re-ask precisely instead of guessing.
    OutputEvicted { earliest_offset: usize },
}

/// One page of a command's output.
#[derive(Debug, Clone, PartialEq, Eq)]
pub struct ReadPage {
    pub command_id: String,
    pub info: CommandOutputInfo,
    /// Absolute character offset this page starts at.
    pub offset: usize,
    pub next_offset: usize,
    pub has_more: bool,
    pub content: String,
}

/// Retained text plus the accounting needed to describe what was dropped before it.
///
/// Byte counters refer to the UTF-8 encoding of the decoded text, not to the original
/// wire bytes; character offsets count characters in that same decoded text.
#[derive(Debug, Clone, PartialEq, Eq)]
pub struct OutputBuffer {
    retained: String,
    total_bytes: usize,
    total_characters: usize,
    retained_start_offset: usize,
    dropped_prefix_bytes: usize,
    source_truncated: bool,
}

/// The span currently being captured, between a real `command_start` and its
/// `command_end`.
struct ActiveSpan {
    command_id: String,
    command: String,
    command_truncated: bool,
    cwd: Option<String>,
    started_at: i64,
    output: OutputBuffer,
    /// Bytes of an incomplete UTF-8 sequence split across chunks.
    partial: Vec<u8>,
}

/// Newest-first index of completed commands, with one span captured at a time.
pub struct CommandHistory<C = SystemClock> {
    completed: Vec<CompletedCommand>,
    active: Option<ActiveSpan>,
    next_id: u64,
    now: C,
    /// One line per abandoned span, for the caller to log.
    warnings: Vec<String>,
}

// ---------------------------------------------------------------------------
// The model
// ---------------------------------------------------------------------------

/// A command's output: what is retained of it, and how many characters and bytes were
/// dropped in front.
#[verifier::ext_equal]
pub struct OutputView {
    pub retained: Seq<char>,
    pub start: nat,
    pub dropped: nat,
}

/// A completed command.
#[verifier::ext_equal]
pub struct CommandView {
    pub id: Seq<char>,
    pub command: Seq<char>,
    pub command_truncated: bool,
    pub cwd: Option<Seq<char>>,
    pub started_at: i64,
    pub ended_at: i64,
    pub duration_ms: u64,
    pub exit_code: Option<i32>,
    pub output: OutputView,
}

/// A command that is still running.
#[verifier::ext_equal]
pub struct SpanView {
    pub id: Seq<char>,
    pub command: Seq<char>,
    pub command_truncated: bool,
    pub cwd: Option<Seq<char>>,
    pub started_at: i64,
    pub output: OutputView,
    pub partial: Seq<u8>,
}

/// The whole store: completed commands, oldest first, and the running one.
#[verifier::ext_equal]
pub struct HistoryView {
    pub completed: Seq<CommandView>,
    pub active: Option<SpanView>,
    pub next_id: nat,
    pub warnings: Seq<Seq<char>>,
}

/// One page of output.
#[verifier::ext_equal]
pub struct PageView {
    pub id: Seq<char>,
    pub output: OutputView,
    pub offset: nat,
    pub next_offset: nat,
    pub has_more: bool,
    pub content: Seq<char>,
}

impl OutputView {
    /// An output to which nothing was written yet.
    pub open spec fn empty() -> OutputView {
        OutputView { retained: seq![], start: 0, dropped: 0 }
    }

    pub open spec fn retained_bytes(self) -> nat {
        text::byte_len(self.retained)
    }

    pub open spec fn total_bytes(self) -> nat {
        self.dropped + text::byte_len(self.retained)
    }

    pub open spec fn total_characters(self) -> nat {
        self.start + self.retained.len()
    }

    /// Dropped characters and dropped bytes go together.
    pub open spec fn consistent(self) -> bool {
        self.start <= self.dropped && (self.start == 0 <==> self.dropped == 0)
    }

    /// Drops characters from the front until what is retained fits in `max` bytes.
    pub open spec fn fit(self, max: nat) -> OutputView
        decreases self.retained.len(),
    {
        if self.retained.len() == 0 || text::byte_len(self.retained) <= max {
            self
        } else {
            OutputView {
                retained: self.retained.drop_first(),
                start: self.start + 1,
                dropped: self.dropped + text::char_width(self.retained[0]),
            }.fit(max)
        }
    }

    /// Appends text, then keeps the most recent output within the per-command cap.
    pub open spec fn append(self, text: Seq<char>) -> OutputView {
        OutputView { retained: self.retained + text, ..self }.fit(MAX_COMMAND_OUTPUT_BYTES as nat)
    }

    /// Gives up at least `excess` bytes from the front, or everything where there is less.
    pub open spec fn reclaim(self, excess: nat) -> OutputView {
        self.fit(if excess >= self.retained_bytes() { 0 } else {
                (self.retained_bytes() - excess) as nat
            })
    }
}

/// The retained bytes of all completed commands.
pub open spec fn rows_bytes(rows: Seq<CommandView>) -> nat
    decreases rows.len(),
{
    if rows.len() == 0 {
        0
    } else {
        rows[0].output.retained_bytes() + rows_bytes(rows.drop_first())
    }
}

/// Reclaims output, oldest command first, until the session's `total` fits its cap.
pub open spec fn reclaim_rows(rows: Seq<CommandView>, total: nat) -> Seq<CommandView>
    decreases rows.len(),
{
    if rows.len() == 0 || total <= MAX_TOTAL_OUTPUT_BYTES {
        rows
    } else {
        let kept = rows[0].output.reclaim((total - MAX_TOTAL_OUTPUT_BYTES) as nat);
        let freed = rows[0].output.retained_bytes() - kept.retained_bytes();
        seq![CommandView { output: kept, ..rows[0] }] + reclaim_rows(
            rows.drop_first(),
            (total - freed) as nat,
        )
    }
}

/// The oldest rows beyond the cap on completed commands are forgotten.
pub open spec fn newest_rows(rows: Seq<CommandView>) -> Seq<CommandView> {
    if rows.len() > MAX_COMPLETED_COMMANDS {
        rows.skip(rows.len() - MAX_COMPLETED_COMMANDS)
    } else {
        rows
    }
}

/// The first row with the given id.
pub open spec fn row_with_id(rows: Seq<CommandView>, id: Seq<char>) -> Option<CommandView>
    decreases rows.len(),
{
    if rows.len() == 0 {
        None
    } else if rows[0].id == id {
        Some(rows[0])
    } else {
        row_with_id(rows.drop_first(), id)
    }
}

/// The id of the `n`th command of a session.
pub open spec fn command_id(n: nat) -> Seq<char> {
    "command-"@ + text::decimal(n)
}

/// The warning for a capture cut short by the next command.
pub open spec fn superseded_warning(id: Seq<char>) -> Seq<char> {
    "discarded the incomplete capture for "@ + id
        + " (a new command started before it ended)"@
}

/// The warning for a capture cut short by the end of the shell.
pub open spec fn abandoned_warning(id: Seq<char>) -> Seq<char> {
    "discarded the incomplete capture for "@ + id + " (the shell exited before it ended)"@
}

/// Milliseconds between two clock readings; zero where the clock went backwards.
pub open spec fn elapsed_ms(from: i64, to: i64) -> nat {
    if to <= from {
        0
    } else if to - from > i64::MAX {
        i64::MAX as nat
    } else {
        (to - from) as nat
    }
}

impl HistoryView {
    pub open spec fn active_bytes(self) -> nat {
        match self.active {
            Some(span) => span.output.retained_bytes(),
            None => 0,
        }
    }

    /// Retained output of the running command and every completed one.
    pub open spec fn retained_bytes(self) -> nat {
        self.active_bytes() + rows_bytes(self.completed)
    }

    /// Brings the session under its cap at the expense of the oldest output.
    pub open spec fn capped(self) -> HistoryView {
        HistoryView {
            completed: reclaim_rows(self.completed, self.retained_bytes()),
            ..self
        }
    }

    /// A command starts; a capture still running is discarded with a warning.
    pub open spec fn begun(
        self,
        command: Seq<char>,
        cwd: Option<Seq<char>>,
        now: i64,
    ) -> HistoryView {
        HistoryView {
            completed: self.completed,
            active: Some(
                SpanView {
                    id: command_id(self.next_id),
                    command: text::clip_bytes(command, MAX_COMMAND_TEXT_BYTES as nat),
                    command_truncated: text::byte_len(command) > MAX_COMMAND_TEXT_BYTES,
                    cwd,
                    started_at: now,
                    output: OutputView::empty(),
                    partial: seq![],
                },
            ),
            next_id: self.next_id + 1,
            warnings: match self.active {
                Some(span) => self.warnings.push(superseded_warning(span.id)),
                None => self.warnings,
            },
        }
    }

    /// Bytes arrive; they belong to the running command, if there is one.
    pub open spec fn recorded(self, bytes: Seq<u8>) -> HistoryView {
        match self.active {
            Some(span) => HistoryView {
                active: Some(
                    SpanView {
                        output: span.output.append(utf8_stream::decoded(span.partial + bytes)),
                        partial: utf8_stream::pending(span.partial + bytes),
                        ..span
                    },
                ),
                ..self
            }.capped(),
            None => self,
        }
    }

    /// The running command ends and becomes a row; with none running nothing happens.
    pub open spec fn ended(self, exit_code: Option<i32>, now: i64) -> HistoryView {
        match self.active {
            Some(span) => HistoryView {
                completed: newest_rows(self.completed.push(span.closed(exit_code, now))),
                active: None,
                ..self
            }.capped(),
            None => self,
        }
    }

    /// The shell exits; a running command never becomes a row.
    pub open spec fn abandoned(self) -> HistoryView {
        match self.active {
            Some(span) => HistoryView {
                active: None,
                warnings: self.warnings.push(abandoned_warning(span.id)),
                ..self
            },
            None => self,
        }
    }

    /// One page of a completed command's output, addressed by absolute offset.
    pub open spec fn page(
        self,
        id: Seq<char>,
        offset: Option<usize>,
        limit: Option<usize>,
    ) -> Result<PageView, ReadError> {
        match row_with_id(self.completed, id) {
            None => Err(ReadError::CommandNotFound),
            Some(row) => {
                let out = row.output;
                let at: nat = match offset {
                    Some(o) => o as nat,
                    None => out.start,
                };
                if at < out.start {
                    Err(ReadError::OutputEvicted { earliest_offset: out.start as usize })
                } else {
                    let content = slice_of(out.retained, (at - out.start) as nat, page_limit(limit));
                    Ok(
                        PageView {
                            id: row.id,
                            output: out,
                            offset: at,
                            next_offset: at + content.len(),
                            has_more: at + content.len() < out.total_characters(),
                            content,
                        },
                    )
                }
            },
        }
    }

    /// The store's bounds, and the identity of its rows.
    pub open spec fn bounded(self) -> bool {
        &&& self.completed.len() <= MAX_COMPLETED_COMMANDS
        &&& self.retained_bytes() <= MAX_TOTAL_OUTPUT_BYTES
        &&& forall|i: int|
            0 <= i < self.completed.len() ==> {
                let row = #[trigger] self.completed[i];
                &&& row.output.retained_bytes() <= MAX_COMMAND_OUTPUT_BYTES
                &&& row.output.consistent()
                &&& row.output.total_bytes() <= usize::MAX
                &&& text::byte_len(row.command) <= MAX_COMMAND_TEXT_BYTES
            }
        &&& self.active matches Some(span) ==> {
            &&& span.output.retained_bytes() <= MAX_COMMAND_OUTPUT_BYTES
            &&& span.output.consistent()
            &&& span.output.total_bytes() + 4 <= usize::MAX
            &&& text::byte_len(span.command) <= MAX_COMMAND_TEXT_BYTES
            &&& span.partial.len() <= 3
            &&& utf8_stream::pending(span.partial) == span.partial
            &&& utf8_stream::decoded(span.partial) == Seq::<char>::empty()
        }
    }

    /// Every command has an id of its own, from the numbers already given out.
    pub open spec fn identified(self) -> bool {
        &&& forall|i: int|
            0 <= i < self.completed.len() ==> given_out(
                #[trigger] self.completed[i].id,
                self.next_id,
            )
        &&& forall|i: int, j: int|
            0 <= i < j < self.completed.len() ==> (#[trigger] self.completed[i]).id != (
            #[trigger] self.completed[j]).id
        &&& self.active matches Some(span) ==> {
            &&& given_out(span.id, self.next_id)
            &&& forall|i: int|
                0 <= i < self.completed.len() ==> (#[trigger] self.completed[i]).id != span.id
        }
    }

    /// Whether `n` more bytes can be counted without exceeding the machine's integers.
    pub open spec fn can_record(self, n: nat) -> bool {
        self.active matches Some(span) ==> span.output.total_bytes() + 4 * (n + 4) <= usize::MAX
    }
}

impl SpanView {
    /// The row a running command becomes. Bytes still held back will never complete.
    pub open spec fn closed(self, exit_code: Option<i32>, now: i64) -> CommandView {
        CommandView {
            id: self.id,
            command: self.command,
            command_truncated: self.command_truncated,
            cwd: self.cwd,
            started_at: self.started_at,
            ended_at: now,
            duration_ms: elapsed_ms(self.started_at, now) as u64,
            exit_code,
            output: if self.partial.len() > 0 {
                self.output.append(seq![REPLACEMENT])
            } else {
                self.output
            },
        }
    }
}

/// Whether an id was made from a number below `next`.
pub open spec fn given_out(id: Seq<char>, next: nat) -> bool {
    exists|k: nat| k < next && id == #[trigger] command_id(k)
}

/// At most `n` characters of a text, from position `from` on.
pub open spec fn slice_of(s: Seq<char>, from: nat, n: nat) -> Seq<char> {
    let lo = if from <= s.len() { from } else { s.len() };
    let hi = if lo + n <= s.len() { lo + n } else { s.len() };
    s.subrange(lo as int, hi as int)
}

/// The page size in force for a requested one.
pub open spec fn page_limit(limit: Option<usize>) -> nat {
    match limit {
        None => DEFAULT_READ_LIMIT as nat,
        Some(n) => if n < 1 {
            1
        } else if n > MAX_READ_LIMIT {
            MAX_READ_LIMIT as nat
        } else {
            n as nat
        },
    }
}

// ---------------------------------------------------------------------------
// Lemmas about the model
// ---------------------------------------------------------------------------

/// Fitting drops whole characters from the front: some `k` of them, with their bytes.
pub proof fn lemma_fit(o: OutputView, max: nat)
    ensures
        o.fit(max).retained_bytes() <= max,
        o.fit(max).total_bytes() == o.total_bytes(),
        o.fit(max).total_characters() == o.total_characters(),
        o.fit(max).retained.len() <= o.retained.len(),
        o.fit(max).retained == o.retained.skip(o.retained.len() - o.fit(max).retained.len()),
        o.consistent() ==> o.fit(max).consistent(),
        o.retained_bytes() <= max ==> o.fit(max) == o,
        o.fit(max).retained_bytes() <= o.retained_bytes(),
        o.fit(max).start >= o.start,
    decreases o.retained.len(),
{
    text::lemma_byte_len_bounds(o.retained);
    if o.retained.len() == 0 || text::byte_len(o.retained) <= max {
        assert(o.retained.skip(0) =~= o.retained);
    } else {
        text::lemma_byte_len_split(o.retained, 1);
        assert(o.retained.take(1) =~= seq![o.retained[0]]);
        assert(o.retained.skip(1) =~= o.retained.drop_first());
        text::lemma_byte_len_single(o.retained[0]);
        let next = OutputView {
            retained: o.retained.drop_first(),
            start: o.start + 1,
            dropped: o.dropped + text::char_width(o.retained[0]),
        };
        lemma_fit(next, max);
        let k = next.retained.len() - next.fit(max).retained.len();
        assert(next.retained.skip(k) =~= o.retained.skip(k + 1));
    }
}

/// Fitting in two steps is fitting in one, as long as the characters dropped first
/// had to go.
proof fn lemma_fit_skip(o: OutputView, max: nat, k: int)
    requires
        0 <= k <= o.retained.len(),
        k > 0 ==> text::byte_len(o.retained.skip(k - 1)) > max,
    ensures
        o.fit(max) == (OutputView {
            retained: o.retained.skip(k),
            start: o.start + k as nat,
            dropped: o.dropped + text::byte_len(o.retained.take(k)),
        }).fit(max),
    decreases k,
{
    if k == 0 {
        assert(o.retained.skip(0) =~= o.retained);
        assert(o.retained.take(0) =~= Seq::<char>::empty());
        text::lemma_byte_len_bounds(o.retained.take(0));
    } else {
        let s = o.retained;
        assert(s.skip(0) =~= s);
        text::lemma_byte_len_split(s, k - 1);
        text::lemma_byte_len_split(s, 1);
        assert(s.take(1) =~= seq![s[0]]);
        assert(s.skip(1) =~= s.drop_first());
        text::lemma_byte_len_single(s[0]);
        let t = s.drop_first();
        let next = OutputView { retained: t, start: o.start + 1, dropped: o.dropped + text::char_width(s[0]) };
        if k > 1 {
            assert(t.skip(k - 2) =~= s.skip(k - 1));
        }
        lemma_fit_skip(next, max, k - 1);
        assert(t.skip(k - 1) =~= s.skip(k));
        assert(s.take(k) =~= seq![s[0]] + t.take(k - 1));
        text::lemma_encode_concat(seq![s[0]], t.take(k - 1));
    }
}

proof fn lemma_rows_bytes_push(rows: Seq<CommandView>, row: CommandView)
    ensures
        rows_bytes(rows.push(row)) == rows_bytes(rows) + row.output.retained_bytes(),
    decreases rows.len(),
{
    if rows.len() == 0 {
        assert(rows.push(row).drop_first() =~= rows);
        assert(rows.push(row)[0] == row);
    } else {
        lemma_rows_bytes_push(rows.drop_first(), row);
        assert(rows.push(row).drop_first() =~= rows.drop_first().push(row));
    }
}

proof fn lemma_rows_bytes_concat(a: Seq<CommandView>, b: Seq<CommandView>)
    ensures
        rows_bytes(a + b) == rows_bytes(a) + rows_bytes(b),
    decreases a.len(),
{
    if a.len() == 0 {
        assert(a + b =~= b);
    } else {
        lemma_rows_bytes_concat(a.drop_first(), b);
        assert((a + b).drop_first() =~= a.drop_first() + b);
    }
}

/// What reclamation keeps of the rows, and that it brings the total under the cap
/// whenever what it may not touch fits.
proof fn lemma_reclaim_rows(rows: Seq<CommandView>, rest: nat)
    ensures
        ({
            let out = reclaim_rows(rows, rest + rows_bytes(rows));
            &&& out.len() == rows.len()
            &&& forall|i: int|
                0 <= i < rows.len() ==> {
                    let o = #[trigger] out[i];
                    &&& o == (CommandView { output: o.output, ..rows[i] })
                    &&& o.output.retained_bytes() <= rows[i].output.retained_bytes()
                    &&& o.output.total_bytes() == rows[i].output.total_bytes()
                    &&& o.output.total_characters() == rows[i].output.total_characters()
                    &&& rows[i].output.consistent() ==> o.output.consistent()
                }
            &&& rest <= MAX_TOTAL_OUTPUT_BYTES ==> rest + rows_bytes(out)
                <= MAX_TOTAL_OUTPUT_BYTES
            &&& rows_bytes(out) <= rows_bytes(rows)
            &&& rest + rows_bytes(rows) <= MAX_TOTAL_OUTPUT_BYTES ==> out == rows
        }),
    decreases rows.len(),
{
    let total = rest + rows_bytes(rows);
    if rows.len() > 0 && total > MAX_TOTAL_OUTPUT_BYTES {
        let excess = (total - MAX_TOTAL_OUTPUT_BYTES) as nat;
        let before = rows[0].output;
        let kept = before.reclaim(excess);
        let target: nat = if excess >= before.retained_bytes() {
            0
        } else {
            (before.retained_bytes() - excess) as nat
        };
        lemma_fit(before, target);
        let tail = rows.drop_first();
        lemma_reclaim_rows(tail, rest + kept.retained_bytes());
        let sub = reclaim_rows(tail, rest + kept.retained_bytes() + rows_bytes(tail));
        let out = reclaim_rows(rows, total);
        let head = CommandView { output: kept, ..rows[0] };
        assert(out == seq![head] + sub);
        assert(out.drop_first() =~= sub);
        assert forall|i: int| 0 <= i < rows.len() implies ({
            let o = #[trigger] out[i];
            &&& o == (CommandView { output: o.output, ..rows[i] })
            &&& o.output.retained_bytes() <= rows[i].output.retained_bytes()
            &&& o.output.total_bytes() == rows[i].output.total_bytes()
            &&& o.output.total_characters() == rows[i].output.total_characters()
            &&& rows[i].output.consistent() ==> o.output.consistent()
        }) by {
            if i > 0 {
                assert(out[i] == sub[i - 1]);
                assert(rows[i] == tail[i - 1]);
            }
        }
    }
}

proof fn lemma_given_out_grows(id: Seq<char>, a: nat, b: nat)
    requires
        given_out(id, a),
        a <= b,
    ensures
        given_out(id, b),
{
    let k = choose|k: nat| k < a && id == #[trigger] command_id(k);
    assert(k < b && id == command_id(k));
}

proof fn lemma_fresh_id(id: Seq<char>, n: nat)
    requires
        given_out(id, n),
    ensures
        id != command_id(n),
{
    let k = choose|k: nat| k < n && id == #[trigger] command_id(k);
    if id == command_id(n) {
        let p = "command-"@;
        assert(command_id(k).skip(p.len() as int) =~= text::decimal(k));
        assert(command_id(n).skip(p.len() as int) =~= text::decimal(n));
        text::lemma_decimal_injective(k, n);
    }
}

/// Starting a command keeps the store's bounds and the ids distinct.
pub proof fn begin_keeps_bounds(
    h: HistoryView,
    command: Seq<char>,
    cwd: Option<Seq<char>>,
    now: i64,
)
    requires
        h.bounded(),
        h.identified(),
    ensures
        h.begun(command, cwd, now).bounded(),
        h.begun(command, cwd, now).identified(),
{
    let g = h.begun(command, cwd, now);
    text::lemma_clip_bytes_fits(command, MAX_COMMAND_TEXT_BYTES as nat);
    text::lemma_byte_len_bounds(Seq::<char>::empty());
    assert forall|i: int| 0 <= i < g.completed.len() implies given_out(
        #[trigger] g.completed[i].id,
        g.next_id,
    ) && g.completed[i].id != g.active->0.id by {
        lemma_given_out_grows(h.completed[i].id, h.next_id, g.next_id);
        lemma_fresh_id(h.completed[i].id, h.next_id);
    }
    assert(h.next_id < g.next_id && g.active->0.id == command_id(h.next_id));
    assert forall|i: int, j: int| 0 <= i < j < g.completed.len() implies (#[trigger] g.completed[i]).id != (
    #[trigger] g.completed[j]).id by {
        assert(h.completed[i].id != h.completed[j].id);
    }
}

proof fn lemma_capped(h: HistoryView)
    requires
        h.active_bytes() <= MAX_TOTAL_OUTPUT_BYTES,
    ensures
        h.capped().retained_bytes() <= MAX_TOTAL_OUTPUT_BYTES,
        h.retained_bytes() <= MAX_TOTAL_OUTPUT_BYTES ==> h.capped() == h,
        h.capped().completed.len() == h.completed.len(),
        h.identified() ==> h.capped().identified(),
        forall|i: int|
            0 <= i < h.completed.len() ==> {
                let o = #[trigger] h.capped().completed[i];
                &&& o == (CommandView { output: o.output, ..h.completed[i] })
                &&& o.output.retained_bytes() <= h.completed[i].output.retained_bytes()
                &&& o.output.total_bytes() == h.completed[i].output.total_bytes()
                &&& h.completed[i].output.consistent() ==> o.output.consistent()
            },
{
    lemma_reclaim_rows(h.completed, h.active_bytes());
    let g = h.capped();
    if h.identified() {
        assert forall|i: int| 0 <= i < g.completed.len() implies given_out(
            #[trigger] g.completed[i].id,
            g.next_id,
        ) by {
            assert(given_out(h.completed[i].id, h.next_id));
        }
        assert forall|i: int, j: int| 0 <= i < j < g.completed.len() implies (
        #[trigger] g.completed[i]).id != (#[trigger] g.completed[j]).id by {
            assert(h.completed[i].id != h.completed[j].id);
        }
        if g.active is Some {
            assert forall|i: int| 0 <= i < g.completed.len() implies (
            #[trigger] g.completed[i]).id != g.active->0.id by {
                assert(h.completed[i].id != h.active->0.id);
            }
        }
    }
}

/// Recording output keeps the store's bounds: the running command stays under its own
/// cap and older output makes room for it.
pub proof fn record_keeps_bounds(h: HistoryView, bytes: Seq<u8>)
    requires
        h.bounded(),
        h.identified(),
        h.can_record(bytes.len()),
    ensures
        h.recorded(bytes).bounded(),
        h.recorded(bytes).identified(),
{
    if let Some(span) = h.active {
        let all = span.partial + bytes;
        utf8_stream::pending_is_short(all);
        utf8_stream::pending_is_stable(all);
        utf8_stream::decoded_is_no_longer(all);
        text::lemma_byte_len_bounds(utf8_stream::decoded(all));
        text::lemma_encode_concat(span.output.retained, utf8_stream::decoded(all));
        let grown = OutputView { retained: span.output.retained + utf8_stream::decoded(all), ..span.output };
        lemma_fit(grown, MAX_COMMAND_OUTPUT_BYTES as nat);
        let mid = HistoryView {
            active: Some(
                SpanView { output: span.output.append(utf8_stream::decoded(all)), partial: utf8_stream::pending(all), ..span },
            ),
            ..h
        };
        assert(mid.identified());
        lemma_capped(mid);
    }
}

/// Every row stays under the per-command cap when a command is closed.
proof fn lemma_closed_row(h: HistoryView, exit_code: Option<i32>, now: i64)
    requires
        h.bounded(),
        h.active is Some,
    ensures
        ({
            let kept = newest_rows(h.completed.push(h.active->0.closed(exit_code, now)));
            forall|i: int|
                0 <= i < kept.len() ==> {
                    let r = #[trigger] kept[i];
                    &&& r.output.retained_bytes() <= MAX_COMMAND_OUTPUT_BYTES
                    &&& r.output.consistent()
                    &&& r.output.total_bytes() <= usize::MAX
                    &&& text::byte_len(r.command) <= MAX_COMMAND_TEXT_BYTES
                }
        }),
{
    let span = h.active->0;
    let bad = seq![REPLACEMENT];
    text::lemma_byte_len_bounds(bad);
    text::lemma_encode_concat(span.output.retained, bad);
    lemma_fit(
        OutputView { retained: span.output.retained + bad, ..span.output },
        MAX_COMMAND_OUTPUT_BYTES as nat,
    );
    let rows = h.completed.push(span.closed(exit_code, now));
    let kept = newest_rows(rows);
    let shift = rows.len() - kept.len();
    assert forall|i: int| 0 <= i < kept.len() implies ({
        let r = #[trigger] kept[i];
        &&& r.output.retained_bytes() <= MAX_COMMAND_OUTPUT_BYTES
        &&& r.output.consistent()
        &&& r.output.total_bytes() <= usize::MAX
        &&& text::byte_len(r.command) <= MAX_COMMAND_TEXT_BYTES
    }) by {
        assert(kept[i] == rows[i + shift]);
        if i + shift < h.completed.len() {
            assert(rows[i + shift] == h.completed[i + shift]);
        }
    }
}

/// Ending a command keeps the store's bounds and the ids distinct.
pub proof fn end_keeps_bounds(h: HistoryView, exit_code: Option<i32>, now: i64)
    requires
        h.bounded(),
        h.identified(),
    ensures
        h.ended(exit_code, now).bounded(),
        h.ended(exit_code, now).identified(),
{
    if let Some(span) = h.active {
        let row = span.closed(exit_code, now);
        lemma_closed_row(h, exit_code, now);
        let rows = h.completed.push(row);
        let kept = newest_rows(rows);
        let mid = HistoryView { completed: kept, active: None, ..h };
        let shift: int = if rows.len() > MAX_COMPLETED_COMMANDS {
            rows.len() - MAX_COMPLETED_COMMANDS
        } else {
            0
        };
        assert forall|i: int| 0 <= i < kept.len() implies #[trigger] kept[i] == rows[i + shift] by {}
        assert forall|i: int| 0 <= i < kept.len() implies given_out(
            #[trigger] mid.completed[i].id,
            mid.next_id,
        ) by {
            if i + shift < h.completed.len() {
                assert(given_out(h.completed[i + shift].id, h.next_id));
            }
        }
        assert forall|i: int, j: int| 0 <= i < j < kept.len() implies (
        #[trigger] mid.completed[i]).id != (#[trigger] mid.completed[j]).id by {
            assert(mid.completed[i] == h.completed[i + shift]);
            if j + shift < h.completed.len() {
                assert(h.completed[i + shift].id != h.completed[j + shift].id);
            }
        }
        assert(mid.identified());
        lemma_capped(mid);
        let g = mid.capped();
        assert forall|i: int| 0 <= i < g.completed.len() implies ({
            let r = #[trigger] g.completed[i];
            &&& r.output.retained_bytes() <= MAX_COMMAND_OUTPUT_BYTES
            &&& r.output.consistent()
            &&& r.output.total_bytes() <= usize::MAX
            &&& text::byte_len(r.command) <= MAX_COMMAND_TEXT_BYTES
        }) by {
            assert(mid.completed[i] == kept[i]);
        }
    }
}

/// Only completed commands are indexed: starting a command, output arriving and the shell
/// exiting neither add a row nor take one away, and output outside a command goes nowhere.
pub proof fn only_completed_commands_are_indexed(
    h: HistoryView,
    command: Seq<char>,
    cwd: Option<Seq<char>>,
    now: i64,
    bytes: Seq<u8>,
)
    ensures
        h.begun(command, cwd, now).completed == h.completed,
        h.abandoned().completed == h.completed,
        same_rows(h.recorded(bytes).completed, h.completed),
        h.active is None ==> h.recorded(bytes) == h,
{
    if let Some(span) = h.active {
        let grown = HistoryView {
            active: Some(
                SpanView {
                    output: span.output.append(utf8_stream::decoded(span.partial + bytes)),
                    partial: utf8_stream::pending(span.partial + bytes),
                    ..span
                },
            ),
            ..h
        };
        lemma_reclaim_rows(grown.completed, grown.active_bytes());
    }
}

/// The index holds the most recent completed commands: ending a command appends its row
/// and forgets only what then exceeds the cap, oldest first.
pub proof fn the_index_holds_the_most_recent_commands(
    h: HistoryView,
    exit_code: Option<i32>,
    now: i64,
)
    requires
        h.active is Some,
    ensures
        ({
            let row = h.active->0.closed(exit_code, now);
            let rows = h.ended(exit_code, now).completed;
            &&& same_rows(rows, newest_rows(h.completed.push(row)))
            &&& rows.len() > 0
            &&& rows.last().id == h.active->0.id
            &&& rows.last().exit_code == exit_code
        }),
{
    let row = h.active->0.closed(exit_code, now);
    let kept = newest_rows(h.completed.push(row));
    lemma_reclaim_rows(kept, 0);
    assert(kept.last() == row);
}

/// Whether two lists hold the same commands; of the output one may have kept less.
pub open spec fn same_rows(a: Seq<CommandView>, b: Seq<CommandView>) -> bool {
    &&& a.len() == b.len()
    &&& forall|i: int|
        0 <= i < a.len() ==> #[trigger] a[i] == (CommandView { output: a[i].output, ..b[i] })
}

/// Every character a command ever wrote is either retained or counted as dropped, and
/// what is retained is the most recent part: after any sequence of texts the retained
/// output is the tail of everything written.
pub proof fn retained_output_is_the_tail_of_everything_written(texts: Seq<Seq<char>>)
    ensures
        ({
            let out = written(texts);
            let all = texts.flatten();
            &&& out.total_characters() == all.len()
            &&& out.total_bytes() == text::byte_len(all)
            &&& out.retained == all.skip(out.start as int)
            &&& out.dropped == text::byte_len(all.take(out.start as int))
            &&& out.retained_bytes() <= MAX_COMMAND_OUTPUT_BYTES
        }),
    decreases texts.len(),
{
    texts.lemma_flatten_and_flatten_alt_are_equivalent();
    if texts.len() == 0 {
        text::lemma_byte_len_bounds(Seq::<char>::empty());
        assert(texts.flatten() =~= Seq::<char>::empty());
        assert(texts.flatten().take(0) =~= Seq::<char>::empty());
        assert(texts.flatten().skip(0) =~= Seq::<char>::empty());
    } else {
        let init = texts.drop_last();
        retained_output_is_the_tail_of_everything_written(init);
        init.lemma_flatten_and_flatten_alt_are_equivalent();
        let o = written(init);
        let t = texts.last();
        let all = texts.flatten();
        assert(all =~= init.flatten() + t);
        text::lemma_encode_concat(init.flatten(), t);
        text::lemma_encode_concat(o.retained, t);
        let grown = OutputView { retained: o.retained + t, ..o };
        lemma_fit(grown, MAX_COMMAND_OUTPUT_BYTES as nat);
        let out = o.append(t);
        let k = grown.retained.len() - out.retained.len();
        assert(out.retained =~= all.skip(out.start as int));
        text::lemma_byte_len_split(all, out.start as int);
    }
}

/// The output after a sequence of texts was appended to nothing.
pub open spec fn written(texts: Seq<Seq<char>>) -> OutputView
    decreases texts.len(),
{
    if texts.len() == 0 {
        OutputView::empty()
    } else {
        written(texts.drop_last()).append(texts.last())
    }
}

/// Paging covers the retained text without gaps or overlap: a page holds exactly the
/// characters between its offset and its next offset, and another page follows
/// exactly while retained text remains.
pub proof fn paging_has_no_gaps_or_overlap(
    h: HistoryView,
    id: Seq<char>,
    offset: usize,
    limit: Option<usize>,
)
    requires
        h.page(id, Some(offset), limit) is Ok,
    ensures
        ({
            let page = h.page(id, Some(offset), limit)->Ok_0;
            let out = page.output;
            &&& page.offset == offset
            &&& out.start <= offset
            &&& offset <= out.total_characters() ==> page.next_offset <= out.total_characters()
                && page.content == out.retained.subrange(
                offset - out.start,
                page.next_offset - out.start,
            )
            &&& page.has_more ==> page.next_offset > page.offset
            &&& !page.has_more ==> page.next_offset >= out.total_characters()
        }),
{
}

/// An evicted read names an offset that works.
pub proof fn evicted_read_names_a_working_offset(
    h: HistoryView,
    id: Seq<char>,
    offset: Option<usize>,
    limit: Option<usize>,
)
    requires
        h.bounded(),
    ensures
        h.page(id, offset, limit) matches Err(ReadError::OutputEvicted { earliest_offset })
            ==> h.page(id, Some(earliest_offset), limit) is Ok && offset is Some
            && offset->0 < earliest_offset,
{
    lemma_row_with_id(h.completed, id);
    if row_with_id(h.completed, id) is Some {
        let i = choose|i: int|
            0 <= i < h.completed.len() && #[trigger] h.completed[i] == row_with_id(
                h.completed,
                id,
            )->0;
        assert(h.completed[i].output.consistent());
        assert(h.completed[i].output.total_bytes() <= usize::MAX);
    }
}

proof fn lemma_row_with_id(rows: Seq<CommandView>, id: Seq<char>)
    ensures
        match row_with_id(rows, id) {
            Some(row) => exists|i: int| 0 <= i < rows.len() && #[trigger] rows[i] == row && row.id
                == id,
            None => forall|i: int| 0 <= i < rows.len() ==> (#[trigger] rows[i]).id != id,
        },
    decreases rows.len(),
{
    if rows.len() > 0 && rows[0].id != id {
        let tail = rows.drop_first();
        lemma_row_with_id(tail, id);
        match row_with_id(tail, id) {
            Some(row) => {
                let i = choose|i: int| 0 <= i < tail.len() && #[trigger] tail[i] == row;
                assert(rows[i + 1] == row);
            },
            None => {
                assert forall|i: int| 0 <= i < rows.len() implies (#[trigger] rows[i]).id != id by {
                    if i > 0 {
                        assert(tail[i - 1].id != id);
                    }
                }
            },
        }
    }
}

/// What is left of the session's cap beside some bytes.
spec fn left_of_cap(bytes: nat) -> nat {
    if bytes >= MAX_TOTAL_OUTPUT_BYTES {
        0
    } else {
        (MAX_TOTAL_OUTPUT_BYTES - bytes) as nat
    }
}

proof fn lemma_fit_twice(o: OutputView, more: nat, less: nat)
    requires
        less <= more,
    ensures
        o.fit(more).fit(less) == o.fit(less),
    decreases o.retained.len(),
{
    if o.retained.len() > 0 && text::byte_len(o.retained) > more {
        let next = OutputView {
            retained: o.retained.drop_first(),
            start: o.start + 1,
            dropped: o.dropped + text::char_width(o.retained[0]),
        };
        lemma_fit_twice(next, more, less);
    }
}

/// Reclaiming leaves of the oldest row what the others leave of the cap, whether there is
/// an excess or not.
proof fn lemma_reclaim_first(rows: Seq<CommandView>, rest: nat)
    requires
        rows.len() > 0,
    ensures
        ({
            let tail = rows.drop_first();
            let kept = rows[0].output.fit(left_of_cap(rest + rows_bytes(tail)));
            &&& kept.retained_bytes() <= left_of_cap(rest + rows_bytes(tail))
            &&& reclaim_rows(rows, rest + rows_bytes(rows)) == seq![
                CommandView { output: kept, ..rows[0] },
            ] + reclaim_rows(tail, rest + kept.retained_bytes() + rows_bytes(tail))
        }),
{
    let tail = rows.drop_first();
    let total = rest + rows_bytes(rows);
    lemma_fit(rows[0].output, left_of_cap(rest + rows_bytes(tail)));
    if total <= MAX_TOTAL_OUTPUT_BYTES {
        assert(rows =~= seq![rows[0]] + tail);
    }
}

proof fn lemma_reclaim_twice(rows: Seq<CommandView>, less: nat, more: nat)
    requires
        less <= more,
    ensures
        ({
            let once = reclaim_rows(rows, less + rows_bytes(rows));
            reclaim_rows(once, more + rows_bytes(once)) == reclaim_rows(
                rows,
                more + rows_bytes(rows),
            )
        }),
    decreases rows.len(),
{
    if rows.len() > 0 {
        let tail = rows.drop_first();
        let o = rows[0].output;
        let rest = rows_bytes(tail);
        let once = reclaim_rows(rows, less + rows_bytes(rows));
        lemma_reclaim_first(rows, less);
        lemma_reclaim_first(rows, more);
        let kept = o.fit(left_of_cap(less + rest));
        let tail_once = reclaim_rows(tail, less + kept.retained_bytes() + rest);
        assert(once.drop_first() =~= tail_once);
        assert(once[0] == (CommandView { output: kept, ..rows[0] }));
        lemma_reclaim_first(once, more);
        lemma_fit_twice(o, left_of_cap(less + rest), left_of_cap(more + rest));
        if left_of_cap(less + rest) == 0 {
            lemma_fit(o, 0);
            text::lemma_byte_len_bounds(kept.retained);
            assert(kept.retained.len() == 0);
            lemma_reclaim_twice(tail, less, more);
        }
    }
}

/// Reclaiming never touches the newest row where it fits the cap on its own.
proof fn lemma_reclaim_last(rows: Seq<CommandView>, rest: nat)
    requires
        rows.len() > 0,
        rest + rows.last().output.retained_bytes() <= MAX_TOTAL_OUTPUT_BYTES,
    ensures
        reclaim_rows(rows, rest + rows_bytes(rows)).len() == rows.len(),
        reclaim_rows(rows, rest + rows_bytes(rows)).last() == rows.last(),
    decreases rows.len(),
{
    let tail = rows.drop_first();
    let kept = rows[0].output.fit(left_of_cap(rest + rows_bytes(tail)));
    lemma_reclaim_first(rows, rest);
    if tail.len() == 0 {
        lemma_fit(rows[0].output, left_of_cap(rest));
    } else {
        lemma_last_row_bytes(tail);
        lemma_reclaim_last(tail, rest + kept.retained_bytes());
    }
}

proof fn lemma_last_row_bytes(rows: Seq<CommandView>)
    requires
        rows.len() > 0,
    ensures
        rows.last().output.retained_bytes() <= rows_bytes(rows),
    decreases rows.len(),
{
    if rows.len() > 1 {
        lemma_last_row_bytes(rows.drop_first());
    }
}

/// Recording a stream in two chunks is recording it at once, whatever character the
/// boundary falls into and however much older output has to make room, as long as the
/// command itself stays within its cap.
pub proof fn recording_ignores_chunk_boundaries(h: HistoryView, a: Seq<u8>, b: Seq<u8>)
    requires
        h.active matches Some(span) && span.output.retained_bytes() + text::byte_len(
            utf8_stream::decoded(span.partial + a + b),
        ) <= MAX_COMMAND_OUTPUT_BYTES,
    ensures
        h.recorded(a).recorded(b) == h.recorded(a + b),
{
    let span = h.active->0;
    let p = span.partial;
    utf8_stream::decoding_ignores_chunk_boundaries(p + a, b);
    assert(p + a + b =~= p + (a + b));
    let da = utf8_stream::decoded(p + a);
    let db = utf8_stream::decoded(utf8_stream::pending(p + a) + b);
    let dall = utf8_stream::decoded(p + (a + b));
    let o = span.output;
    text::lemma_encode_concat(da, db);
    text::lemma_encode_concat(o.retained, da);
    text::lemma_encode_concat(o.retained, dall);
    text::lemma_encode_concat(o.retained + da, db);
    let cap = MAX_COMMAND_OUTPUT_BYTES as nat;
    let oa = OutputView { retained: o.retained + da, ..o };
    lemma_fit(oa, cap);
    assert(o.append(da) == oa);
    let oab = OutputView { retained: (o.retained + da) + db, ..o };
    lemma_fit(oab, cap);
    assert(oa.append(db) == oab);
    assert((o.retained + da) + db =~= o.retained + dall);
    assert(o.append(dall) == oab);
    lemma_reclaim_twice(h.completed, oa.retained_bytes(), oab.retained_bytes());
}

impl HistoryView {
    /// Chunks arrive one after the other.
    pub open spec fn recorded_all(self, chunks: Seq<Seq<u8>>) -> HistoryView
        decreases chunks.len(),
    {
        if chunks.len() == 0 {
            self
        } else {
            self.recorded_all(chunks.drop_last()).recorded(chunks.last())
        }
    }
}

proof fn lemma_span_so_far(h: HistoryView, chunks: Seq<Seq<u8>>)
    requires
        h.active matches Some(span) && span.output == OutputView::empty() && span.partial.len()
            == 0,
        text::byte_len(utf8_stream::decoded(chunks.flatten())) <= MAX_COMMAND_OUTPUT_BYTES,
    ensures
        h.recorded_all(chunks).active == Some(
            SpanView {
                output: OutputView {
                    retained: utf8_stream::decoded(chunks.flatten()),
                    ..OutputView::empty()
                },
                partial: utf8_stream::pending(chunks.flatten()),
                ..h.active->0
            },
        ),
    decreases chunks.len(),
{
    chunks.lemma_flatten_and_flatten_alt_are_equivalent();
    let all = chunks.flatten();
    if chunks.len() == 0 {
        assert(all =~= Seq::<u8>::empty());
        assert(utf8_stream::decoded(all) =~= OutputView::empty().retained);
        assert(utf8_stream::pending(all) =~= h.active->0.partial);
    } else {
        let init = chunks.drop_last();
        let last = chunks.last();
        init.lemma_flatten_and_flatten_alt_are_equivalent();
        let before = init.flatten();
        assert(all =~= before + last);
        utf8_stream::decoding_ignores_chunk_boundaries(before, last);
        let old = utf8_stream::decoded(before);
        let new = utf8_stream::decoded(utf8_stream::pending(before) + last);
        text::lemma_encode_concat(old, new);
        lemma_span_so_far(h, init);
        let grown = OutputView { retained: old + new, ..OutputView::empty() };
        lemma_fit(grown, MAX_COMMAND_OUTPUT_BYTES as nat);
    }
}

/// A command's output is the text of all its bytes, however they were cut into chunks: a
/// character split between two is whole, and what is no text is replaced.
pub proof fn a_span_is_the_text_of_its_bytes(
    h: HistoryView,
    command: Seq<char>,
    cwd: Option<Seq<char>>,
    started_at: i64,
    chunks: Seq<Seq<u8>>,
    exit_code: Option<i32>,
    ended_at: i64,
)
    requires
        text::byte_len(utf8_stream::lossy_text(chunks.flatten())) <= MAX_COMMAND_OUTPUT_BYTES,
    ensures
        ({
            let rows = h.begun(command, cwd, started_at).recorded_all(chunks).ended(
                exit_code,
                ended_at,
            ).completed;
            &&& rows.len() > 0
            &&& rows.last().id == command_id(h.next_id)
            &&& rows.last().output == (OutputView {
                retained: utf8_stream::lossy_text(chunks.flatten()),
                ..OutputView::empty()
            })
        }),
{
    let all = chunks.flatten();
    let text = utf8_stream::decoded(all);
    text::lemma_encode_concat(text, seq![REPLACEMENT]);
    assert(text.push(REPLACEMENT) =~= text + seq![REPLACEMENT]);
    let begun = h.begun(command, cwd, started_at);
    lemma_span_so_far(begun, chunks);
    let run = begun.recorded_all(chunks);
    let span = run.active->0;
    let row = span.closed(exit_code, ended_at);
    lemma_fit(
        OutputView { retained: text + seq![REPLACEMENT], ..OutputView::empty() },
        MAX_COMMAND_OUTPUT_BYTES as nat,
    );
    let kept = newest_rows(run.completed.push(row));
    assert(kept.last() == row);
    lemma_reclaim_last(kept, 0);
}

// ---------------------------------------------------------------------------
// The store
// ---------------------------------------------------------------------------

impl View for OutputBuffer {
    type V = OutputView;

    closed spec fn view(&self) -> OutputView {
        OutputView {
            retained: self.retained@,
            start: self.retained_start_offset as nat,
            dropped: self.dropped_prefix_bytes as nat,
        }
    }
}

impl View for CompletedCommand {
    type V = CommandView;

    open spec fn view(&self) -> CommandView {
        CommandView {
            id: self.command_id@,
            command: self.command@,
            command_truncated: self.command_truncated,
            cwd: text::opt_text(self.cwd),
            started_at: self.started_at,
            ended_at: self.ended_at,
            duration_ms: self.duration_ms,
            exit_code: self.exit_code,
            output: self.output@,
        }
    }
}

impl ActiveSpan {
    spec fn view(&self) -> SpanView {
        SpanView {
            id: self.command_id@,
            command: self.command@,
            command_truncated: self.command_truncated,
            cwd: text::opt_text(self.cwd),
            started_at: self.started_at,
            output: self.output@,
            partial: self.partial@,
        }
    }
}

spec fn row_views(rows: Seq<CompletedCommand>) -> Seq<CommandView> {
    rows.map_values(|row: CompletedCommand| row@)
}

impl<C> View for CommandHistory<C> {
    type V = HistoryView;

    closed spec fn view(&self) -> HistoryView {
        HistoryView {
            completed: row_views(self.completed@),
            active: match self.active {
                Some(span) => Some(span.view()),
                None => None,
            },
            next_id: self.next_id as nat,
            warnings: self.warnings@.map_values(|w: String| w@),
        }
    }
}

impl CommandOutputInfo {
    /// Whether this is the accounting of the given output.
    pub open spec fn describes(self, out: OutputView) -> bool {
        &&& self.format@ == "pty_text"@
        &&& self.total_bytes == out.total_bytes()
        &&& self.total_characters == out.total_characters()
        &&& self.retained_bytes == out.retained_bytes()
        &&& self.retained_characters == out.retained.len()
        &&& self.retained_start_offset == out.start
        &&& self.dropped_prefix_bytes == out.dropped
        &&& self.source_truncated == (out.start > 0)
        &&& self.available == (out.total_characters() == 0 || out.retained.len() > 0)
    }
}

impl OutputBuffer {
    /// The counters agree with what is retained and what was dropped.
    pub closed spec fn wf(self) -> bool {
        &&& self@.consistent()
        &&& self.total_bytes == self@.total_bytes()
        &&& self.total_characters == self@.total_characters()
        &&& self.source_truncated == (self@.start > 0)
    }

    fn new() -> (r: Self)
        ensures
            r.wf(),
            r@ == OutputView::empty(),
    {
        proof {
            text::lemma_byte_len_bounds(Seq::<char>::empty());
        }
        OutputBuffer {
            retained: String::new(),
            total_bytes: 0,
            total_characters: 0,
            retained_start_offset: 0,
            dropped_prefix_bytes: 0,
            source_truncated: false,
        }
    }

    fn append(&mut self, text: &str)
        requires
            old(self).wf(),
            old(self)@.retained_bytes() <= MAX_COMMAND_OUTPUT_BYTES,
            old(self)@.total_bytes() + text::byte_len(text@) <= usize::MAX,
        ensures
            final(self).wf(),
            final(self)@ == old(self)@.append(text@),
    {
        let ghost before = self@;
        proof {
            text::lemma_byte_len_bounds(text@);
            text::lemma_byte_len_bounds(before.retained);
            text::lemma_encode_concat(before.retained, text@);
        }
        if text.is_empty() {
            proof {
                assert(before.retained + text@ =~= before.retained);
                lemma_fit(before, MAX_COMMAND_OUTPUT_BYTES as nat);
            }
            return;
        }
        self.total_bytes += text.len();
        self.total_characters += text.unicode_len();
        self.retained.append(text);
        self.trim_to(MAX_COMMAND_OUTPUT_BYTES);
    }

    /// Drops whole characters from the front until the retained text fits `max_bytes`.
    /// The recent tail is kept: the end of a command's output is where the error
    /// usually is.
    fn trim_to(&mut self, max_bytes: usize)
        requires
            old(self).wf(),
        ensures
            final(self).wf(),
            final(self)@ == old(self)@.fit(max_bytes as nat),
    {
        let ghost o = self@;
        let ghost s = self.retained@;
        proof {
            text::lemma_byte_len_bounds(s);
            lemma_fit(o, max_bytes as nat);
        }
        let size: usize = self.retained.as_str().len();
        if size <= max_bytes {
            return;
        }
        let target_drop: usize = size - max_bytes;
        let mut dropped_bytes: usize = 0;
        let mut dropped_chars: usize = 0;
        let mut rest = self.retained.as_str().chars();
        proof {
            assert(s.take(0) =~= Seq::<char>::empty());
            assert(s.skip(0) =~= s);
            text::lemma_byte_len_bounds(s.take(0));
        }
        loop
            invariant_except_break
                dropped_chars <= s.len(),
                size == text::byte_len(s),
                s == self.retained@,
                target_drop == size - max_bytes,
                max_bytes < size,
                dropped_bytes == text::byte_len(s.take(dropped_chars as int)),
                vstd::std_specs::iter::IteratorSpec::remaining(&rest) == s.skip(dropped_chars as int),
                dropped_chars > 0 ==> text::byte_len(s.skip(dropped_chars - 1)) > max_bytes,
            ensures
                dropped_chars <= s.len(),
                dropped_bytes == text::byte_len(s.take(dropped_chars as int)),
                text::byte_len(s.skip(dropped_chars as int)) <= max_bytes,
                dropped_chars > 0,
                text::byte_len(s.skip(dropped_chars - 1)) > max_bytes,
            decreases s.len() - dropped_chars,
        {
            proof {
                text::lemma_byte_len_split(s, dropped_chars as int);
            }
            if dropped_bytes >= target_drop {
                break;
            }
            match rest.next() {
                Some(c) => {
                    proof {
                        assert(c == s[dropped_chars as int]);
                        assert(s.skip(dropped_chars as int).drop_first() =~= s.skip(
                            dropped_chars + 1,
                        ));
                        assert(s.take(dropped_chars as int).push(c) =~= s.take(dropped_chars + 1));
                        text::lemma_byte_len_push(s.take(dropped_chars as int), c);
                        text::lemma_byte_len_split(s, dropped_chars + 1);
                        text::lemma_byte_len_bounds(s.skip(dropped_chars + 1));
                        text::lemma_byte_len_bounds(s);
                    }
                    dropped_bytes += width_of(c);
                    dropped_chars += 1;
                },
                None => {
                    proof {
                        assert(s.skip(dropped_chars as int).len() == 0);
                        text::lemma_byte_len_bounds(s.skip(dropped_chars as int));
                    }
                    break;
                },
            }
        }
        proof {
            text::lemma_byte_len_split(s, dropped_chars as int);
            text::lemma_byte_len_bounds(s.take(dropped_chars as int));
            lemma_fit_skip(o, max_bytes as nat, dropped_chars as int);
            let at = OutputView {
                retained: s.skip(dropped_chars as int),
                start: o.start + dropped_chars as nat,
                dropped: o.dropped + dropped_bytes as nat,
            };
            lemma_fit(at, max_bytes as nat);
        }
        self.retained = self.retained.as_str().substring_char(
            dropped_chars,
            self.retained.as_str().unicode_len(),
        ).to_owned();
        assert(self.retained@ =~= s.skip(dropped_chars as int));
        self.retained_start_offset += dropped_chars;
        self.dropped_prefix_bytes += dropped_bytes;
        self.source_truncated = true;
    }

    /// Releases at least `bytes` from the front, or everything where there is less.
    /// Returns how much was freed. The accounting stays.
    fn reclaim_prefix(&mut self, bytes: usize) -> (freed: usize)
        requires
            old(self).wf(),
        ensures
            final(self).wf(),
            final(self)@ == old(self)@.reclaim(bytes as nat),
            freed == old(self)@.retained_bytes() - final(self)@.retained_bytes(),
    {
        let before: usize = self.retained.as_str().len();
        let target: usize = if bytes >= before {
            0
        } else {
            before - bytes
        };
        proof {
            lemma_fit(self@, target as nat);
        }
        self.trim_to(target);
        before - self.retained.as_str().len()
    }

    fn info(&self) -> (r: CommandOutputInfo)
        requires
            self.wf(),
        ensures
            r.describes(self@),
    {
        CommandOutputInfo {
            format: "pty_text",
            total_bytes: self.total_bytes,
            total_characters: self.total_characters,
            retained_bytes: self.retained.as_str().len(),
            retained_characters: self.retained.as_str().unicode_len(),
            retained_start_offset: self.retained_start_offset,
            dropped_prefix_bytes: self.dropped_prefix_bytes,
            source_truncated: self.source_truncated,
            available: self.total_characters == 0 || !self.retained.as_str().is_empty(),
        }
    }
}

/// The list tool's bounded command text: the first characters, and whether that is less
/// than the whole command line, cut here or already in storage.
pub open spec fn preview_of(command: Seq<char>, already_truncated: bool) -> (Seq<char>, bool) {
    (
        slice_of(command, 0, MAX_COMMAND_PREVIEW_CHARACTERS as nat),
        command.len() > MAX_COMMAND_PREVIEW_CHARACTERS || already_truncated,
    )
}

impl CompletedCommand {
    /// The accounting kept with this command's output.
    pub open spec fn wf(self) -> bool {
        self.output.wf()
    }

    pub fn output_info(&self) -> (r: CommandOutputInfo)
        requires
            self.wf(),
        ensures
            r.describes(self@.output),
    {
        self.output.info()
    }

    /// The list tool's bounded command text.
    pub fn command_preview(&self) -> (r: (String, bool))
        ensures
            (r.0@, r.1) == preview_of(self@.command, self@.command_truncated),
    {
        let length: usize = self.command.as_str().unicode_len();
        let end: usize = if length < MAX_COMMAND_PREVIEW_CHARACTERS {
            length
        } else {
            MAX_COMMAND_PREVIEW_CHARACTERS
        };
        let text = self.command.as_str().substring_char(0, end).to_owned();
        (text, end < length || self.command_truncated)
    }
}

fn truncate_command(command: &str) -> (r: (String, bool))
    ensures
        r.0@ == text::clip_bytes(command@, MAX_COMMAND_TEXT_BYTES as nat),
        r.1 == (text::byte_len(command@) > MAX_COMMAND_TEXT_BYTES),
{
    if byte_size(command) <= MAX_COMMAND_TEXT_BYTES {
        return (command.to_owned(), false);
    }
    (clipped(command, MAX_COMMAND_TEXT_BYTES), true)
}

impl Default for CommandHistory {
    fn default() -> (r: Self)
        ensures
            r.wf(),
            r@ == HistoryView::fresh(),
    {
        Self::new()
    }
}

impl CommandHistory {
    pub fn new() -> (r: Self)
        ensures
            r.wf(),
            r@ == HistoryView::fresh(),
    {
        Self::with_clock(SystemClock)
    }
}

impl HistoryView {
    /// A store in which nothing happened yet.
    pub open spec fn fresh() -> HistoryView {
        HistoryView { completed: seq![], active: None, next_id: 1, warnings: seq![] }
    }
}

impl<C> CommandHistory<C> {
    spec fn rows_wf(self) -> bool {
        forall|i: int| 0 <= i < self.completed@.len() ==> (#[trigger] self.completed@[i]).output.wf()
    }

    /// The invariant of the store.
    pub closed spec fn wf(self) -> bool {
        &&& self@.bounded()
        &&& self@.identified()
        &&& self.rows_wf()
        &&& self.active matches Some(span) ==> span.output.wf()
    }

    /// The invariant holds the store's bounds.
    pub proof fn lemma_wf(&self)
        requires
            self.wf(),
        ensures
            self@.bounded(),
            self@.identified(),
    {
    }

    /// Whether `n` more bytes of output can still be counted. Only a session that has
    /// produced nearly `usize::MAX` bytes says no.
    pub fn can_record(&self, n: usize) -> (r: bool)
        requires
            self.wf(),
        ensures
            r == self@.can_record(n as nat),
    {
        match &self.active {
            Some(span) => {
                let room: usize = usize::MAX - span.output.total_bytes;
                room / 4 >= 4 && room / 4 - 4 >= n
            },
            None => true,
        }
    }

    /// Whether another command id can still be given out.
    pub fn can_begin(&self) -> (r: bool)
        ensures
            r == (self@.next_id < u64::MAX),
    {
        self.next_id < u64::MAX
    }

    /// Takes the warnings accumulated since the last call, for the caller to log.
    pub fn take_warnings(&mut self) -> (r: Vec<String>)
        requires
            old(self).wf(),
        ensures
            final(self).wf(),
            r@.map_values(|w: String| w@) == old(self)@.warnings,
            final(self)@ == (HistoryView { warnings: seq![], ..old(self)@ }),
    {
        let mut out: Vec<String> = Vec::new();
        std::mem::swap(&mut out, &mut self.warnings);
        assert(self.warnings@.map_values(|w: String| w@) =~= Seq::<Seq<char>>::empty());
        out
    }

    /// The id of the span currently being captured, if any.
    pub fn active_command_id(&self) -> (r: Option<&str>)
        ensures
            match self@.active {
                Some(span) => r is Some && r->0@ == span.id,
                None => r is None,
            },
    {
        match &self.active {
            Some(span) => Some(span.command_id.as_str()),
            None => None,
        }
    }

    /// Completed commands, newest first.
    pub fn recent(&self) -> (r: Vec<&CompletedCommand>)
        requires
            self.wf(),
        ensures
            r@.len() == self@.completed.len(),
            forall|i: int|
                0 <= i < r@.len() ==> (#[trigger] r@[i])@ == self@.completed[r@.len() - 1 - i]
                    && r@[i].wf(),
    {
        let mut out: Vec<&CompletedCommand> = Vec::new();
        let count: usize = self.completed.len();
        while out.len() < count
            invariant
                out@.len() <= count,
                count == self.completed@.len(),
                self.rows_wf(),
                forall|i: int|
                    0 <= i < out@.len() ==> *(#[trigger] out@[i]) == self.completed@[count - 1 - i],
            decreases count - out@.len(),
        {
            let at: usize = count - 1 - out.len();
            out.push(&self.completed[at]);
        }
        out
    }

    pub fn completed_count(&self) -> (r: usize)
        ensures
            r == self@.completed.len(),
    {
        self.completed.len()
    }

    /// The newest completed command's id, advertised in the pushed inventory.
    pub fn latest_command_id(&self) -> (r: Option<&str>)
        ensures
            self@.completed.len() == 0 ==> r is None,
            self@.completed.len() > 0 ==> r is Some && r->0@ == self@.completed.last().id,
    {
        if self.completed.len() == 0 {
            None
        } else {
            Some(self.completed[self.completed.len() - 1].command_id.as_str())
        }
    }

    /// Opens a span for a real (executed) `command_start` read at `now`.
    ///
    /// A start arriving while another span is active means the previous span's end never
    /// came. The incomplete capture is discarded rather than closed with invented
    /// boundaries: a wrong span attached to a stable id is worse than no span.
    pub fn begin_at(&mut self, command: &str, cwd: Option<String>, now: i64) -> (id: String)
        requires
            old(self).wf(),
            old(self)@.next_id < u64::MAX,
        ensures
            final(self).wf(),
            final(self)@ == old(self)@.begun(command@, text::opt_text(cwd), now),
            id@ == command_id(old(self)@.next_id),
    {
        proof {
            begin_keeps_bounds(self@, command@, text::opt_text(cwd), now);
        }
        let ghost h = self@;
        match self.active.take() {
            Some(previous) => {
                let mut warning = String::new();
                warning.append("discarded the incomplete capture for ");
                warning.append(previous.command_id.as_str());
                warning.append(" (a new command started before it ended)");
                proof {
                    assert(warning@ =~= superseded_warning(previous.command_id@));
                }
                let ghost before = self.warnings@;
                self.warnings.push(warning);
                assert(self.warnings@.map_values(|w: String| w@) =~= before.map_values(
                    |w: String| w@,
                ).push(warning@));
            },
            None => {},
        }
        let mut id = String::new();
        id.append("command-");
        push_decimal(&mut id, self.next_id);
        assert(id@ =~= command_id(h.next_id));
        self.next_id += 1;
        let (text, truncated) = truncate_command(command);
        let partial: Vec<u8> = Vec::new();
        self.active = Some(
            ActiveSpan {
                command_id: id.clone(),
                command: text,
                command_truncated: truncated,
                cwd,
                started_at: now,
                output: OutputBuffer::new(),
                partial,
            },
        );
        assert(partial@ =~= Seq::<u8>::empty());
        assert(self@ == h.begun(command@, text::opt_text(cwd), now));
        id
    }

    /// Appends marker-clean bytes to the active span. A no-op with no active span, so
    /// the returning prompt and anything typed at an idle prompt stay out.
    ///
    /// Decoding is incremental: a character split across two reads is held until its
    /// remaining bytes arrive, and a malformed sequence becomes U+FFFD.
    pub fn record_output(&mut self, bytes: &[u8])
        requires
            old(self).wf(),
            old(self)@.can_record(bytes@.len()),
        ensures
            final(self).wf(),
            final(self)@ == old(self)@.recorded(bytes@),
    {
        let ghost h = self@;
        proof {
            record_keeps_bounds(h, bytes@);
        }
        match self.active.take() {
            None => {
                assert(self@ == h);
            },
            Some(span) => {
                let mut span = span;
                let mut buffer: Vec<u8> = Vec::new();
                std::mem::swap(&mut buffer, &mut span.partial);
                let ghost held = buffer@;
                buffer.extend_from_slice(bytes);
                assert(buffer@ =~= held + bytes@);
                let mut text = String::new();
                let consumed: usize = decode_into(buffer.as_slice(), &mut text);
                proof {
                    assert(text@ =~= utf8_stream::decoded(held + bytes@));
                    utf8_stream::decoded_is_no_longer(held + bytes@);
                    text::lemma_byte_len_bounds(text@);
                }
                span.partial = buffer.split_off(consumed);
                assert(span.partial@ =~= utf8_stream::pending(held + bytes@));
                span.output.append(text.as_str());
                self.active = Some(span);
                proof {
                    assert(self@ == (HistoryView {
                        active: Some(
                            SpanView {
                                output: h.active->0.output.append(utf8_stream::decoded(held + bytes@)),
                                partial: utf8_stream::pending(held + bytes@),
                                ..h.active->0
                            },
                        ),
                        ..h
                    }));
                }
                self.enforce_total_cap();
            },
        }
    }

    /// Closes the active span, read at `now`, into a completed row. Returns its id, or
    /// `None` when no span was open: an end without a start never invents a command.
    pub fn end_at(&mut self, exit_code: Option<i32>, now: i64) -> (r: Option<String>)
        requires
            old(self).wf(),
        ensures
            final(self).wf(),
            final(self)@ == old(self)@.ended(exit_code, now),
            match old(self)@.active {
                Some(span) => r is Some && r->0@ == span.id,
                None => r is None,
            },
    {
        let ghost h = self@;
        proof {
            end_keeps_bounds(h, exit_code, now);
        }
        match self.active.take() {
            None => {
                assert(self@ == h);
                None
            },
            Some(span) => {
                let mut span = span;
                let ghost old_span = span.view();
                if span.partial.len() > 0 {
                    let mut bad = String::new();
                    bad.push(REPLACEMENT);
                    proof {
                        text::lemma_byte_len_bounds(bad@);
                        assert(bad@ =~= seq![REPLACEMENT]);
                    }
                    span.output.append(bad.as_str());
                }
                let duration_ms: u64 = if now <= span.started_at {
                    0
                } else {
                    let wide: i128 = now as i128 - span.started_at as i128;
                    if wide > i64::MAX as i128 {
                        i64::MAX as u64
                    } else {
                        wide as u64
                    }
                };
                let id = span.command_id.clone();
                let row = CompletedCommand {
                    command_id: span.command_id,
                    command: span.command,
                    command_truncated: span.command_truncated,
                    cwd: span.cwd,
                    started_at: span.started_at,
                    ended_at: now,
                    duration_ms,
                    exit_code,
                    output: span.output,
                };
                assert(row@ == old_span.closed(exit_code, now));
                let ghost before = self.completed@;
                self.completed.push(row);
                assert(row_views(self.completed@) =~= row_views(before).push(row@));
                if self.completed.len() > MAX_COMPLETED_COMMANDS {
                    let ghost all = self.completed@;
                    self.completed.remove(0);
                    assert(row_views(self.completed@) =~= row_views(all).skip(1));
                }
                assert(self@ == (HistoryView {
                    completed: newest_rows(h.completed.push(row@)),
                    active: None,
                    ..h
                }));
                proof {
                    lemma_closed_row(h, exit_code, now);
                }
                self.enforce_total_cap();
                Some(id)
            },
        }
    }

    /// Discards an unfinished capture (shell exit). The command never completed, so it
    /// never becomes a history row.
    pub fn abandon_active(&mut self)
        requires
            old(self).wf(),
        ensures
            final(self).wf(),
            final(self)@ == old(self)@.abandoned(),
    {
        let ghost h = self@;
        match self.active.take() {
            Some(span) => {
                let mut warning = String::new();
                warning.append("discarded the incomplete capture for ");
                warning.append(span.command_id.as_str());
                warning.append(" (the shell exited before it ended)");
                assert(warning@ =~= abandoned_warning(span.command_id@));
                let ghost before = self.warnings@;
                self.warnings.push(warning);
                assert(self.warnings@.map_values(|w: String| w@) =~= before.map_values(
                    |w: String| w@,
                ).push(warning@));
            },
            None => {},
        }
        assert(self@ == h.abandoned());
    }

    /// Forgets every completed command. Ids keep climbing, and a capture that is underway
    /// goes on.
    pub fn forget(&mut self)
        requires
            old(self).wf(),
        ensures
            final(self).wf(),
            final(self)@ == (HistoryView { completed: seq![], ..old(self)@ }),
    {
        self.completed.clear();
        assert(self@.completed =~= seq![]);
        assert(self@ =~= (HistoryView { completed: seq![], ..old(self)@ }));
    }

    /// Total retained output across the active capture and every completed row.
    pub fn retained_bytes(&self) -> (r: usize)
        requires
            self.wf(),
        ensures
            r == self@.retained_bytes(),
    {
        self.sum_retained()
    }

    fn sum_retained(&self) -> (r: usize)
        requires
            self.completed@.len() <= MAX_COMPLETED_COMMANDS,
            self@.active_bytes() <= MAX_COMMAND_OUTPUT_BYTES,
            forall|i: int|
                0 <= i < self@.completed.len() ==> (
                #[trigger] self@.completed[i]).output.retained_bytes() <= MAX_COMMAND_OUTPUT_BYTES,
        ensures
            r == self@.retained_bytes(),
    {
        let mut total: usize = match &self.active {
            Some(span) => span.output.retained.as_str().len(),
            None => 0,
        };
        let ghost base = total;
        let ghost views = self@.completed;
        let mut i: usize = 0;
        assert(views.take(0) =~= Seq::<CommandView>::empty());
        while i < self.completed.len()
            invariant
                i <= self.completed@.len() <= MAX_COMPLETED_COMMANDS,
                views == row_views(self.completed@),
                base == self@.active_bytes(),
                base <= MAX_COMMAND_OUTPUT_BYTES,
                total == base + rows_bytes(views.take(i as int)),
                total <= base + i * MAX_COMMAND_OUTPUT_BYTES,
                forall|i: int|
                    0 <= i < views.len() ==> (
                    #[trigger] views[i]).output.retained_bytes()
                        <= MAX_COMMAND_OUTPUT_BYTES,
            decreases self.completed@.len() - i,
        {
            proof {
                lemma_rows_bytes_push(views.take(i as int), views[i as int]);
                assert(views.take(i as int).push(views[i as int]) =~= views.take(i + 1));
                assert(views[i as int] == self.completed@[i as int]@);
            }
            total += self.completed[i].output.retained.as_str().len();
            i += 1;
        }
        assert(views.take(i as int) =~= views);
        total
    }

    /// Reclaims output from the oldest completed commands until the session fits its
    /// cap. Metadata rows survive; only their output is released.
    ///
    /// The active span is never reclaimed here: it is already bounded per command, and
    /// it is the one the user is most likely asking about.
    fn enforce_total_cap(&mut self)
        requires
            old(self).rows_wf(),
            old(self).completed@.len() <= MAX_COMPLETED_COMMANDS,
            old(self)@.active_bytes() <= MAX_COMMAND_OUTPUT_BYTES,
            old(self).active matches Some(span) ==> span.output.wf(),
            forall|i: int|
                0 <= i < old(self)@.completed.len() ==> (
                #[trigger] old(self)@.completed[i]).output.retained_bytes()
                    <= MAX_COMMAND_OUTPUT_BYTES,
        ensures
            final(self)@ == old(self)@.capped(),
            final(self).rows_wf(),
            final(self).active == old(self).active,
    {
        let mut total: usize = self.sum_retained();
        let ghost h = self@;
        let ghost start = self.completed@;
        let ghost goal = reclaim_rows(h.completed, total as nat);
        let mut i: usize = 0;
        proof {
            assert(h.completed.skip(0) =~= h.completed);
            assert(row_views(self.completed@).take(0) + reclaim_rows(h.completed.skip(0), total as nat)
                =~= goal);
        }
        while i < self.completed.len()
            invariant_except_break
                i <= self.completed@.len(),
                self.completed@.len() == start.len(),
                h.completed == row_views(start),
                self.rows_wf(),
                self.active == old(self).active,
                self.next_id == old(self).next_id,
                self.warnings == old(self).warnings,
                forall|j: int| i <= j < start.len() ==> self.completed@[j] == #[trigger] start[j],
                row_views(self.completed@).take(i as int) + reclaim_rows(
                    h.completed.skip(i as int),
                    total as nat,
                ) == goal,
                total >= rows_bytes(h.completed.skip(i as int)),
            ensures
                self.rows_wf(),
                self.active == old(self).active,
                self.next_id == old(self).next_id,
                self.warnings == old(self).warnings,
                row_views(self.completed@) == goal,
            decreases self.completed@.len() - i,
        {
            let ghost tail = h.completed.skip(i as int);
            if total <= MAX_TOTAL_OUTPUT_BYTES {
                proof {
                    assert(row_views(self.completed@) =~= row_views(self.completed@).take(i as int)
                        + tail);
                }
                break;
            }
            let excess: usize = total - MAX_TOTAL_OUTPUT_BYTES;
            let ghost before = self.completed@;
            let freed: usize = self.completed[i].output.reclaim_prefix(excess);
            proof {
                let now_rows = self.completed@;
                let kept = tail[0].output.reclaim(excess as nat);
                assert(tail[0] == start[i as int]@);
                assert(now_rows[i as int]@ == (CommandView { output: kept, ..tail[0] }));
                assert(tail.drop_first() =~= h.completed.skip(i + 1));
                assert(row_views(now_rows).take(i + 1) =~= row_views(before).take(i as int).push(
                    now_rows[i as int]@,
                ));
                let later = reclaim_rows(h.completed.skip(i + 1), (total - freed) as nat);
                assert(row_views(before).take(i as int) + (seq![now_rows[i as int]@] + later)
                    =~= row_views(now_rows).take(i + 1) + later);
                assert forall|j: int| 0 <= j < now_rows.len() implies (
                #[trigger] now_rows[j]).output.wf() by {
                    if j != i {
                        assert(now_rows[j] == before[j]);
                        assert(before[j].output.wf());
                    }
                }
            }
            total -= freed;
            i += 1;
            if i == self.completed.len() {
                proof {
                    assert(h.completed.skip(i as int) =~= Seq::<CommandView>::empty());
                    assert(row_views(self.completed@).take(i as int) =~= row_views(
                        self.completed@,
                    ));
                    assert(row_views(self.completed@) + Seq::<CommandView>::empty() =~= row_views(
                        self.completed@,
                    ));
                }
            }
        }
        assert(self@ == h.capped());
    }

    /// Reads one page of a completed command's output.
    ///
    /// `offset` is an absolute character offset in the command's original output, so a
    /// page reference stays meaningful after prefix reclamation. Requesting an offset
    /// older than the retained window names the earliest available one, never a silently
    /// shifted page.
    pub fn read(&self, command_id: &str, offset: Option<usize>, limit: Option<usize>) -> (r: Result<
        ReadPage,
        ReadError,
    >)
        requires
            self.wf(),
        ensures
            match self@.page(command_id@, offset, limit) {
                Ok(page) => r is Ok && r->Ok_0.shows(page),
                Err(e) => r == Err::<ReadPage, ReadError>(e),
            },
    {
        let ghost views = row_views(self.completed@);
        let mut i: usize = 0;
        assert(views.skip(0) =~= views);
        while i < self.completed.len()
            invariant
                i <= self.completed@.len(),
                views == row_views(self.completed@),
                row_with_id(views.skip(i as int), command_id@) == row_with_id(views, command_id@),
            ensures
                i <= self.completed@.len(),
                row_with_id(views.skip(i as int), command_id@) == row_with_id(views, command_id@),
                i < self.completed@.len() ==> views[i as int].id == command_id@,
            decreases self.completed@.len() - i,
        {
            if same_text(self.completed[i].command_id.as_str(), command_id) {
                break;
            }
            assert(views.skip(i as int).drop_first() =~= views.skip(i + 1));
            i += 1;
        }
        if i == self.completed.len() {
            return Err(ReadError::CommandNotFound);
        }
        let command = &self.completed[i];
        assert(views.skip(i as int)[0] == command@);
        proof {
            assert(self@.bounded());
            assert(views[i as int].output.total_bytes() <= usize::MAX);
            text::lemma_byte_len_bounds(command@.output.retained);
        }
        let info = command.output.info();
        let start: usize = match offset {
            Some(o) => o,
            None => info.retained_start_offset,
        };
        if start < info.retained_start_offset {
            return Err(ReadError::OutputEvicted { earliest_offset: info.retained_start_offset });
        }
        let wanted: usize = match limit {
            None => DEFAULT_READ_LIMIT,
            Some(n) => if n < 1 {
                1
            } else if n > MAX_READ_LIMIT {
                MAX_READ_LIMIT
            } else {
                n
            },
        };
        let skip: usize = start - info.retained_start_offset;
        let length: usize = info.retained_characters;
        let lo: usize = if skip <= length {
            skip
        } else {
            length
        };
        let hi: usize = if wanted <= length - lo {
            lo + wanted
        } else {
            length
        };
        let content = command.output.retained.as_str().substring_char(lo, hi).to_owned();
        let next_offset: usize = start + (hi - lo);
        let end_of_retained: usize = info.retained_start_offset + info.retained_characters;
        Ok(
            ReadPage {
                command_id: command.command_id.clone(),
                offset: start,
                next_offset,
                has_more: next_offset < end_of_retained,
                content,
                info,
            },
        )
    }
}

impl ReadPage {
    /// Whether this is the given page.
    pub open spec fn shows(self, page: PageView) -> bool {
        &&& self.command_id@ == page.id
        &&& self.info.describes(page.output)
        &&& self.offset == page.offset
        &&& self.next_offset == page.next_offset
        &&& self.has_more == page.has_more
        &&& self.content@ == page.content
    }
}

impl<C: Clock> CommandHistory<C> {
    pub fn with_clock(now: C) -> (r: Self)
        ensures
            r.wf(),
            r@ == HistoryView::fresh(),
    {
        let r = CommandHistory {
            completed: Vec::new(),
            active: None,
            next_id: 1,
            now,
            warnings: Vec::new(),
        };
        proof {
            assert(row_views(r.completed@) =~= Seq::<CommandView>::empty());
            assert(r.warnings@.map_values(|w: String| w@) =~= Seq::<Seq<char>>::empty());
        }
        r
    }

    /// Opens a span for a real (executed) `command_start`, at the current time.
    pub fn begin(&mut self, command: &str, cwd: Option<String>) -> (id: String)
        requires
            old(self).wf(),
            old(self)@.next_id < u64::MAX,
        ensures
            final(self).wf(),
            exists|now: i64|
                final(self)@ == #[trigger] old(self)@.begun(command@, text::opt_text(cwd), now),
            id@ == command_id(old(self)@.next_id),
    {
        let now: i64 = self.now.now_ms();
        self.begin_at(command, cwd, now)
    }

    /// Closes the active span into a completed row, at the current time.
    pub fn end(&mut self, exit_code: Option<i32>) -> (r: Option<String>)
        requires
            old(self).wf(),
        ensures
            final(self).wf(),
            exists|now: i64| final(self)@ == #[trigger] old(self)@.ended(exit_code, now),
            match old(self)@.active {
                Some(span) => r is Some && r->0@ == span.id,
                None => r is None,
            },
    {
        let now: i64 = self.now.now_ms();
        self.end_at(exit_code, now)
    }
}

} // verus!
