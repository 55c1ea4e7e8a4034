//! Terminal context selection: collapses the timeline into a bounded, prioritized view
//! of what is on screen now, with a single primary text.

use crate::json;
use crate::json::{number, put, put_item, put_opt_text, text_value, Json};
use crate::screen_diff::ScreenDiffSummary;
use crate::text;
use crate::text::{clone_opt, is_blank, push_decimal};
use crate::timeline;
use crate::timeline::{
    trim_start_to_max_characters, InMemoryTimelineStore, TerminalEvent,
};
use vstd::prelude::*;

verus! {

const DEFAULT_RECENT_INPUT_MAX_CHARACTERS: usize = 2_000;

const DEFAULT_RECENT_PTY_OUTPUT_MAX_CHARACTERS: usize = 8_000;

const DEFAULT_RECENT_VISIBLE_OUTPUT_MAX_CHARACTERS: usize = 8_000;

const DEFAULT_CURRENT_SCREEN_MAX_CHARACTERS: usize = 8_000;

const DEFAULT_RECENT_SCREEN_CHANGES_LIMIT: usize = 20;

/// Which source provided the primary context text.
#[derive(Debug, Clone, Copy, PartialEq, Eq, Structural)]
pub enum PrimarySource {
    ScreenSnapshot,
    VisibleOutput,
    PtyOutput,
    Empty,
}

/// A summarized screen change derived from a snapshot's diff.
#[derive(Debug, Clone, PartialEq, Eq)]
pub struct TerminalScreenChange {
    pub snapshot_id: String,
    pub previous_snapshot_id: Option<String>,
    pub alt_screen: bool,
    pub rows: u16,
    pub added_lines: usize,
    pub removed_lines: usize,
    pub changed_lines: usize,
    pub large_change: bool,
    pub summary: String,
}

/// A bounded, prioritized snapshot of terminal context.
#[derive(Debug, Clone, PartialEq)]
pub struct TerminalContext {
    pub recent_input: String,
    pub recent_pty_output: String,
    pub recent_visible_output: String,
    pub recent_screen_changes: Vec<TerminalScreenChange>,
    pub alt_screen: bool,
    pub primary_text: String,
    pub primary_source: PrimarySource,
    pub current_screen: Option<String>,
    pub screen_rows: Option<u16>,
    pub screen_columns: Option<u16>,
}

/// Character and count budgets for context assembly. `None` uses the default.
#[derive(Debug, Clone, Copy)]
pub struct TerminalContextOptions {
    pub recent_input_max_characters: Option<usize>,
    pub recent_pty_output_max_characters: Option<usize>,
    pub recent_visible_output_max_characters: Option<usize>,
    pub current_screen_max_characters: Option<usize>,
    pub recent_screen_changes_limit: Option<usize>,
}

impl Default for TerminalContextOptions {
    fn default() -> (r: Self)
        ensures
            r.recent_input_max_characters is None,
            r.recent_pty_output_max_characters is None,
            r.recent_visible_output_max_characters is None,
            r.current_screen_max_characters is None,
            r.recent_screen_changes_limit is None,
    {
        TerminalContextOptions {
            recent_input_max_characters: None,
            recent_pty_output_max_characters: None,
            recent_visible_output_max_characters: None,
            current_screen_max_characters: None,
            recent_screen_changes_limit: None,
        }
    }
}

// ---------------------------------------------------------------------------
// The model
// ---------------------------------------------------------------------------

/// The model of a screen change.
#[verifier::ext_equal]
pub struct ChangeView {
    pub snapshot_id: Seq<char>,
    pub previous_snapshot_id: Option<Seq<char>>,
    pub alt_screen: bool,
    pub rows: u16,
    pub added_lines: usize,
    pub removed_lines: usize,
    pub changed_lines: usize,
    pub large_change: bool,
    pub summary: Seq<char>,
}

impl View for TerminalScreenChange {
    type V = ChangeView;

    open spec fn view(&self) -> ChangeView {
        ChangeView {
            snapshot_id: self.snapshot_id@,
            previous_snapshot_id: text::opt_text(self.previous_snapshot_id),
            alt_screen: self.alt_screen,
            rows: self.rows,
            added_lines: self.added_lines,
            removed_lines: self.removed_lines,
            changed_lines: self.changed_lines,
            large_change: self.large_change,
            summary: self.summary@,
        }
    }
}

/// The models of some screen changes.
pub open spec fn change_views(changes: Seq<TerminalScreenChange>) -> Seq<ChangeView> {
    changes.map_values(|c: TerminalScreenChange| c@)
}

/// The model of a context.
#[verifier::ext_equal]
pub struct ContextView {
    pub recent_input: Seq<char>,
    pub recent_pty_output: Seq<char>,
    pub recent_visible_output: Seq<char>,
    pub recent_screen_changes: Seq<ChangeView>,
    pub alt_screen: bool,
    pub primary_text: Seq<char>,
    pub primary_source: PrimarySource,
    pub current_screen: Option<Seq<char>>,
    pub screen_rows: Option<u16>,
    pub screen_columns: Option<u16>,
}

impl View for TerminalContext {
    type V = ContextView;

    open spec fn view(&self) -> ContextView {
        ContextView {
            recent_input: self.recent_input@,
            recent_pty_output: self.recent_pty_output@,
            recent_visible_output: self.recent_visible_output@,
            recent_screen_changes: change_views(self.recent_screen_changes@),
            alt_screen: self.alt_screen,
            primary_text: self.primary_text@,
            primary_source: self.primary_source,
            current_screen: text::opt_text(self.current_screen),
            screen_rows: self.screen_rows,
            screen_columns: self.screen_columns,
        }
    }
}

/// A budget in force.
pub open spec fn or_default(budget: Option<usize>, default: nat) -> nat {
    match budget {
        Some(n) => n as nat,
        None => default,
    }
}

/// The visible input of some entries, in order. Hidden input is left out.
pub open spec fn all_input(entries: Seq<timeline::EntryView>) -> Seq<char>
    decreases entries.len(),
{
    if entries.len() == 0 {
        seq![]
    } else {
        all_input(entries.drop_last()) + match entries.last().event {
            timeline::EventView::HumanInput { data, visible } => if visible {
                data
            } else {
                seq![]
            },
            _ => seq![],
        }
    }
}

/// The visible output of some entries, in order.
pub open spec fn all_visible(entries: Seq<timeline::EntryView>) -> Seq<char>
    decreases entries.len(),
{
    if entries.len() == 0 {
        seq![]
    } else {
        all_visible(entries.drop_last()) + match entries.last().event {
            timeline::EventView::VisibleOutput { text } => text,
            _ => seq![],
        }
    }
}

/// A change counts as large from half the screen's rows on.
pub open spec fn is_large(changed_lines: usize, rows: u16) -> bool {
    changed_lines >= (rows + 1) / 2
}

/// The one-line summary of a change.
pub open spec fn change_summary(diff: ScreenDiffSummary) -> Seq<char> {
    "+"@ + text::decimal(diff.added_lines as nat) + ", -"@ + text::decimal(
        diff.removed_lines as nat,
    )
}

/// The change a snapshot carries, where it carries one.
pub open spec fn change_in(e: timeline::EventView) -> Option<ChangeView> {
    match e {
        timeline::EventView::ScreenSnapshot {
            snapshot_id,
            rows,
            alt_screen,
            previous_snapshot_id,
            diff: Some(diff),
            ..
        } => Some(
            ChangeView {
                snapshot_id,
                previous_snapshot_id,
                alt_screen,
                rows,
                added_lines: diff.added_lines,
                removed_lines: diff.removed_lines,
                changed_lines: diff.changed_lines,
                large_change: is_large(diff.changed_lines, rows),
                summary: change_summary(diff),
            },
        ),
        _ => None,
    }
}

/// The changes that some entries carry, oldest first.
pub open spec fn all_changes(entries: Seq<timeline::EntryView>) -> Seq<ChangeView>
    decreases entries.len(),
{
    if entries.len() == 0 {
        seq![]
    } else {
        match change_in(entries.last().event) {
            Some(c) => all_changes(entries.drop_last()).push(c),
            None => all_changes(entries.drop_last()),
        }
    }
}

/// The last `limit` of some changes.
pub open spec fn last_changes(changes: Seq<ChangeView>, limit: nat) -> Seq<ChangeView> {
    if changes.len() <= limit {
        changes
    } else {
        changes.skip(changes.len() - limit)
    }
}

/// Whether a text is there and holds more than whitespace.
pub open spec fn has_text(t: Option<Seq<char>>) -> bool {
    t is Some && text::trim(t->0).len() > 0
}

/// The text that answers "what is on screen now", and where it is from. The alternate
/// screen wins while it is up; otherwise visible output, then raw output, then the
/// screen.
pub open spec fn primary(
    alt_screen: bool,
    screen: Option<Seq<char>>,
    visible: Seq<char>,
    pty: Seq<char>,
) -> (Seq<char>, PrimarySource) {
    if alt_screen && has_text(screen) {
        (screen->0, PrimarySource::ScreenSnapshot)
    } else if has_text(Some(visible)) {
        (visible, PrimarySource::VisibleOutput)
    } else if !alt_screen && has_text(Some(pty)) {
        (pty, PrimarySource::PtyOutput)
    } else if has_text(screen) {
        (screen->0, PrimarySource::ScreenSnapshot)
    } else {
        (seq![], PrimarySource::Empty)
    }
}

/// The current screen text of the latest snapshot, trimmed; none where it is empty.
pub open spec fn screen_of(latest: Option<timeline::EntryView>, max: nat) -> Option<Seq<char>> {
    match latest {
        Some(e) => {
            let s = timeline::snapshot_screen(e.event);
            if s.len() > 0 {
                Some(timeline::tail(s, max))
            } else {
                None
            }
        },
        None => None,
    }
}

/// The size and mode of a snapshot.
pub open spec fn shape_of(e: timeline::EventView) -> (u16, u16, bool) {
    match e {
        timeline::EventView::ScreenSnapshot { rows, columns, alt_screen, .. } => (
            rows,
            columns,
            alt_screen,
        ),
        _ => (0, 0, false),
    }
}

/// The context that a timeline gives.
pub open spec fn context_of(
    entries: Seq<timeline::EntryView>,
    options: TerminalContextOptions,
) -> ContextView {
    let latest = timeline::latest_snapshot_in(entries, false);
    let input = timeline::tail(
        all_input(entries),
        or_default(options.recent_input_max_characters, 2_000),
    );
    let pty = timeline::tail(
        timeline::all_pty(entries),
        or_default(options.recent_pty_output_max_characters, 8_000),
    );
    let visible = timeline::tail(
        all_visible(entries),
        or_default(options.recent_visible_output_max_characters, 8_000),
    );
    let screen = screen_of(latest, or_default(options.current_screen_max_characters, 8_000));
    let alt = latest is Some && shape_of(latest->0.event).2;
    let chosen = primary(alt, screen, visible, pty);
    ContextView {
        recent_input: input,
        recent_pty_output: pty,
        recent_visible_output: visible,
        recent_screen_changes: last_changes(
            all_changes(entries),
            or_default(options.recent_screen_changes_limit, 20),
        ),
        alt_screen: alt,
        primary_text: chosen.0,
        primary_source: chosen.1,
        current_screen: screen,
        screen_rows: match latest {
            Some(e) => Some(shape_of(e.event).0),
            None => None,
        },
        screen_columns: match latest {
            Some(e) => Some(shape_of(e.event).1),
            None => None,
        },
    }
}

// ---------------------------------------------------------------------------
// Laws
// ---------------------------------------------------------------------------

/// The context is bounded by its options, whatever the timeline holds.
pub proof fn context_is_bounded(
    entries: Seq<timeline::EntryView>,
    options: TerminalContextOptions,
)
    ensures
        ({
            let c = context_of(entries, options);
            let pty = or_default(options.recent_pty_output_max_characters, 8_000);
            let visible = or_default(options.recent_visible_output_max_characters, 8_000);
            let screen = or_default(options.current_screen_max_characters, 8_000);
            &&& c.recent_input.len() <= or_default(options.recent_input_max_characters, 2_000)
            &&& c.recent_pty_output.len() <= pty
            &&& c.recent_visible_output.len() <= visible
            &&& c.current_screen is Some ==> c.current_screen->0.len() <= screen
            &&& c.recent_screen_changes.len() <= or_default(
                options.recent_screen_changes_limit,
                20,
            )
            &&& c.primary_text.len() <= pty || c.primary_text.len() <= visible
                || c.primary_text.len() <= screen
        }),
{
}

/// Hidden input never reaches the context: whatever was typed hidden, the recent input
/// is that of the visible events alone.
pub proof fn hidden_input_is_left_out(
    entries: Seq<timeline::EntryView>,
    e: timeline::EntryView,
    options: TerminalContextOptions,
)
    requires
        e.event matches timeline::EventView::HumanInput { visible, .. } && !visible,
    ensures
        context_of(entries.push(e), options) == context_of(entries, options),
{
    let more = entries.push(e);
    assert(more.drop_last() =~= entries);
    assert(all_input(more) =~= all_input(entries));
    assert(all_visible(more) =~= all_visible(entries));
    assert(timeline::all_pty(more) =~= timeline::all_pty(entries));
}

// ---------------------------------------------------------------------------
// Context assembly
// ---------------------------------------------------------------------------

fn limit_or(budget: Option<usize>, default: usize) -> (r: usize)
    ensures
        r == or_default(budget, default as nat),
{
    match budget {
        Some(n) => n,
        None => default,
    }
}

fn get_recent_input<C>(timeline: &InMemoryTimelineStore<C>, max: usize) -> (r: String)
    ensures
        r@ == timeline::tail(all_input(timeline@.entries), max as nat),
{
    let events = timeline.list_events();
    let ghost all = timeline@.entries;
    let mut out = String::new();
    let mut i: usize = 0;
    assert(all.take(0) =~= Seq::<timeline::EntryView>::empty());
    while i < events.len()
        invariant
            i <= events@.len(),
            events@.len() == all.len(),
            forall|j: int| 0 <= j < events@.len() ==> (#[trigger] events@[j])@ == all[j].event,
            out@ == all_input(all.take(i as int)),
        decreases events@.len() - i,
    {
        let ghost before = out@;
        assert(all.take(i + 1).drop_last() =~= all.take(i as int));
        assert(all.take(i + 1).last() == all[i as int]);
        assert(events@[i as int]@ == all[i as int].event);
        assert(before + Seq::<char>::empty() =~= before);
        match events[i] {
            TerminalEvent::HumanInput { data, visible } => {
                if *visible {
                    out.append(data.as_str());
                }
            },
            _ => {},
        }
        i += 1;
    }
    assert(all.take(i as int) =~= all);
    trim_start_to_max_characters(out.as_str(), max)
}

fn get_recent_visible_output<C>(timeline: &InMemoryTimelineStore<C>, max: usize) -> (r: String)
    ensures
        r@ == timeline::tail(all_visible(timeline@.entries), max as nat),
{
    let events = timeline.list_events();
    let ghost all = timeline@.entries;
    let mut out = String::new();
    let mut i: usize = 0;
    assert(all.take(0) =~= Seq::<timeline::EntryView>::empty());
    while i < events.len()
        invariant
            i <= events@.len(),
            events@.len() == all.len(),
            forall|j: int| 0 <= j < events@.len() ==> (#[trigger] events@[j])@ == all[j].event,
            out@ == all_visible(all.take(i as int)),
        decreases events@.len() - i,
    {
        let ghost before = out@;
        assert(all.take(i + 1).drop_last() =~= all.take(i as int));
        assert(all.take(i + 1).last() == all[i as int]);
        assert(events@[i as int]@ == all[i as int].event);
        assert(before + Seq::<char>::empty() =~= before);
        match events[i] {
            TerminalEvent::VisibleOutput { text } => {
                out.append(text.as_str());
            },
            _ => {},
        }
        i += 1;
    }
    assert(all.take(i as int) =~= all);
    trim_start_to_max_characters(out.as_str(), max)
}

fn summary_text(diff: &ScreenDiffSummary) -> (r: String)
    ensures
        r@ == change_summary(*diff),
{
    let mut out = String::new();
    out.append("+");
    push_decimal(&mut out, diff.added_lines as u64);
    out.append(", -");
    push_decimal(&mut out, diff.removed_lines as u64);
    assert(out@ =~= change_summary(*diff));
    out
}

fn get_recent_screen_changes<C>(timeline: &InMemoryTimelineStore<C>, limit: usize) -> (r: Vec<
    TerminalScreenChange,
>)
    ensures
        change_views(r@) == last_changes(all_changes(timeline@.entries), limit as nat),
{
    let entries = timeline.list_entries();
    let ghost all = timeline@.entries;
    let mut changes: Vec<TerminalScreenChange> = Vec::new();
    let mut i: usize = 0;
    assert(all.take(0) =~= Seq::<timeline::EntryView>::empty());
    assert(change_views(changes@) =~= Seq::<ChangeView>::empty());
    while i < entries.len()
        invariant
            i <= entries@.len(),
            timeline::entry_views(entries@) == all,
            change_views(changes@) == all_changes(all.take(i as int)),
        decreases entries@.len() - i,
    {
        let ghost before = changes@;
        assert(all.take(i + 1).drop_last() =~= all.take(i as int));
        assert(all.take(i + 1).last() == entries@[i as int]@);
        match &entries[i].event {
            TerminalEvent::ScreenSnapshot {
                snapshot_id,
                rows,
                columns: _,
                alt_screen,
                screen: _,
                previous_snapshot_id,
                diff,
            } => {
                if let Some(diff) = diff {
                    let half: usize = (*rows as usize + 1) / 2;
                    let change = TerminalScreenChange {
                        snapshot_id: snapshot_id.clone(),
                        previous_snapshot_id: clone_opt(previous_snapshot_id),
                        alt_screen: *alt_screen,
                        rows: *rows,
                        added_lines: diff.added_lines,
                        removed_lines: diff.removed_lines,
                        changed_lines: diff.changed_lines,
                        large_change: diff.changed_lines >= half,
                        summary: summary_text(diff),
                    };
                    changes.push(change);
                    assert(change_views(changes@) =~= change_views(before).push(change@));
                }
            },
            _ => {},
        }
        i += 1;
    }
    assert(all.take(i as int) =~= all);
    let ghost every = changes@;
    if changes.len() > limit {
        let from: usize = changes.len() - limit;
        let last = changes.split_off(from);
        assert(change_views(last@) =~= change_views(every).skip(from as int));
        last
    } else {
        changes
    }
}

fn is_text(value: &Option<String>) -> (r: bool)
    ensures
        r == has_text(text::opt_text(*value)),
{
    match value {
        Some(v) => !is_blank(v.as_str()),
        None => false,
    }
}

fn choose_primary_text(
    alt_screen: bool,
    current_screen: &Option<String>,
    recent_visible_output: &str,
    recent_pty_output: &str,
) -> (r: (String, PrimarySource))
    ensures
        (r.0@, r.1) == primary(
            alt_screen,
            text::opt_text(*current_screen),
            recent_visible_output@,
            recent_pty_output@,
        ),
{
    let screen_text = match current_screen {
        Some(s) => s.clone(),
        None => String::new(),
    };
    if alt_screen && is_text(current_screen) {
        return (screen_text, PrimarySource::ScreenSnapshot);
    }
    if !is_blank(recent_visible_output) {
        return (recent_visible_output.to_owned(), PrimarySource::VisibleOutput);
    }
    if !alt_screen && !is_blank(recent_pty_output) {
        return (recent_pty_output.to_owned(), PrimarySource::PtyOutput);
    }
    if is_text(current_screen) {
        return (screen_text, PrimarySource::ScreenSnapshot);
    }
    (String::new(), PrimarySource::Empty)
}

proof fn lemma_latest_is_snapshot(entries: Seq<timeline::EntryView>)
    ensures
        timeline::latest_snapshot_in(entries, false) matches Some(e) ==> e.event is ScreenSnapshot,
    decreases entries.len(),
{
    if entries.len() > 0 {
        lemma_latest_is_snapshot(entries.drop_last());
    }
}

/// Builds the terminal context view from the timeline.
pub fn build_terminal_context<C>(
    timeline: &InMemoryTimelineStore<C>,
    options: &TerminalContextOptions,
) -> (r: TerminalContext)
    ensures
        r@ == context_of(timeline@.entries, *options),
{
    proof {
        lemma_latest_is_snapshot(timeline@.entries);
    }
    let screen_max: usize = limit_or(
        options.current_screen_max_characters,
        DEFAULT_CURRENT_SCREEN_MAX_CHARACTERS,
    );
    let mut current_screen: Option<String> = None;
    let mut screen_rows: Option<u16> = None;
    let mut screen_columns: Option<u16> = None;
    let mut alt_screen = false;
    match timeline.get_latest_screen_snapshot() {
        Some(entry) => match &entry.event {
            TerminalEvent::ScreenSnapshot { rows, columns, alt_screen: alt, screen, .. } => {
                screen_rows = Some(*rows);
                screen_columns = Some(*columns);
                alt_screen = *alt;
                if let Some(s) = screen {
                    if !s.as_str().is_empty() {
                        current_screen = Some(trim_start_to_max_characters(s.as_str(), screen_max));
                    }
                }
            },
            _ => {},
        },
        None => {},
    }
    let recent_input = get_recent_input(
        timeline,
        limit_or(options.recent_input_max_characters, DEFAULT_RECENT_INPUT_MAX_CHARACTERS),
    );
    let recent_visible_output = get_recent_visible_output(
        timeline,
        limit_or(
            options.recent_visible_output_max_characters,
            DEFAULT_RECENT_VISIBLE_OUTPUT_MAX_CHARACTERS,
        ),
    );
    let recent_pty_output = timeline.get_recent_pty_output(
        limit_or(options.recent_pty_output_max_characters, DEFAULT_RECENT_PTY_OUTPUT_MAX_CHARACTERS),
    );
    let recent_screen_changes = get_recent_screen_changes(
        timeline,
        limit_or(options.recent_screen_changes_limit, DEFAULT_RECENT_SCREEN_CHANGES_LIMIT),
    );
    let (primary_text, primary_source) = choose_primary_text(
        alt_screen,
        &current_screen,
        recent_visible_output.as_str(),
        recent_pty_output.as_str(),
    );
    TerminalContext {
        recent_input,
        recent_pty_output,
        recent_visible_output,
        recent_screen_changes,
        alt_screen,
        primary_text,
        primary_source,
        current_screen,
        screen_rows,
        screen_columns,
    }
}

// ---------------------------------------------------------------------------
// The context as JSON
// ---------------------------------------------------------------------------

/// How a source is named on the wire.
pub open spec fn source_name(source: PrimarySource) -> Seq<char> {
    match source {
        PrimarySource::ScreenSnapshot => "screen_snapshot"@,
        PrimarySource::VisibleOutput => "visible_output"@,
        PrimarySource::PtyOutput => "pty_output"@,
        PrimarySource::Empty => "empty"@,
    }
}

/// A screen change as an object. An absent previous snapshot has no field.
pub open spec fn change_object(c: ChangeView) -> json::JsonView {
    let o = Map::<Seq<char>, json::JsonView>::empty().insert(
        "snapshotId"@,
        json::JsonView::Text(c.snapshot_id),
    );
    let o = json::with_text(o, "previousSnapshotId"@, c.previous_snapshot_id);
    let o = o.insert("altScreen"@, json::JsonView::Bool(c.alt_screen));
    let o = o.insert("rows"@, json::JsonView::Number(c.rows as int));
    let o = o.insert("addedLines"@, json::JsonView::Number(c.added_lines as int));
    let o = o.insert("removedLines"@, json::JsonView::Number(c.removed_lines as int));
    let o = o.insert("changedLines"@, json::JsonView::Number(c.changed_lines as int));
    let o = o.insert("largeChange"@, json::JsonView::Bool(c.large_change));
    json::JsonView::Object(o.insert("summary"@, json::JsonView::Text(c.summary)))
}

/// Some screen changes as objects.
pub open spec fn change_objects(changes: Seq<ChangeView>) -> Seq<json::JsonView> {
    Seq::new(changes.len(), |i: int| change_object(changes[i]))
}

/// A size that may be absent, as a number.
pub open spec fn opt_size(size: Option<u16>) -> Option<int> {
    match size {
        Some(n) => Some(n as int),
        None => None,
    }
}

/// A context as an object. What is absent has no field.
pub open spec fn context_object(c: ContextView) -> json::JsonView {
    let o = Map::<Seq<char>, json::JsonView>::empty().insert(
        "recentInput"@,
        json::JsonView::Text(c.recent_input),
    );
    let o = o.insert("recentPtyOutput"@, json::JsonView::Text(c.recent_pty_output));
    let o = o.insert("recentVisibleOutput"@, json::JsonView::Text(c.recent_visible_output));
    let o = o.insert(
        "recentScreenChanges"@,
        json::JsonView::Array(change_objects(c.recent_screen_changes)),
    );
    let o = o.insert("altScreen"@, json::JsonView::Bool(c.alt_screen));
    let o = o.insert("primaryText"@, json::JsonView::Text(c.primary_text));
    let o = o.insert("primarySource"@, json::JsonView::Text(source_name(c.primary_source)));
    let o = json::with_text(o, "currentScreen"@, c.current_screen);
    let o = json::with_number(o, "screenRows"@, opt_size(c.screen_rows));
    json::JsonView::Object(json::with_number(o, "screenColumns"@, opt_size(c.screen_columns)))
}

fn change_json(c: &TerminalScreenChange) -> (r: Json)
    ensures
        r@ == change_object(c@),
{
    let mut fields: Vec<(String, Json)> = Vec::new();
    put(&mut fields, "snapshotId", text_value(c.snapshot_id.as_str()));
    put_opt_text(&mut fields, "previousSnapshotId", &c.previous_snapshot_id);
    put(&mut fields, "altScreen", Json::Bool(c.alt_screen));
    put(&mut fields, "rows", number(c.rows as u64));
    put(&mut fields, "addedLines", number(c.added_lines as u64));
    put(&mut fields, "removedLines", number(c.removed_lines as u64));
    put(&mut fields, "changedLines", number(c.changed_lines as u64));
    put(&mut fields, "largeChange", Json::Bool(c.large_change));
    put(&mut fields, "summary", text_value(c.summary.as_str()));
    Json::Object(fields)
}

fn put_size(fields: &mut Vec<(String, Json)>, name: &str, size: Option<u16>)
    ensures
        json::field_map(final(fields)@) == json::with_number(
            json::field_map(old(fields)@),
            name@,
            opt_size(size),
        ),
{
    match size {
        Some(n) => put(fields, name, number(n as u64)),
        None => {},
    }
}

/// A context as the request to the daemon carries it.
pub fn context_json(context: &TerminalContext) -> (r: Json)
    ensures
        r@ == context_object(context@),
{
    let ghost changes = change_views(context.recent_screen_changes@);
    let mut items: Vec<Json> = Vec::new();
    let mut i: usize = 0;
    while i < context.recent_screen_changes.len()
        invariant
            i <= context.recent_screen_changes@.len(),
            changes == change_views(context.recent_screen_changes@),
            json::json_views(items@) == change_objects(changes.take(i as int)),
        decreases context.recent_screen_changes@.len() - i,
    {
        let item = change_json(&context.recent_screen_changes[i]);
        put_item(&mut items, item);
        assert(change_objects(changes.take(i + 1)) =~= change_objects(changes.take(i as int)).push(
            item@,
        ));
        i += 1;
    }
    assert(changes.take(i as int) =~= changes);
    let mut fields: Vec<(String, Json)> = Vec::new();
    put(&mut fields, "recentInput", text_value(context.recent_input.as_str()));
    put(&mut fields, "recentPtyOutput", text_value(context.recent_pty_output.as_str()));
    put(&mut fields, "recentVisibleOutput", text_value(context.recent_visible_output.as_str()));
    put(&mut fields, "recentScreenChanges", Json::Array(items));
    put(&mut fields, "altScreen", Json::Bool(context.alt_screen));
    put(&mut fields, "primaryText", text_value(context.primary_text.as_str()));
    let source = match context.primary_source {
        PrimarySource::ScreenSnapshot => "screen_snapshot",
        PrimarySource::VisibleOutput => "visible_output",
        PrimarySource::PtyOutput => "pty_output",
        PrimarySource::Empty => "empty",
    };
    put(&mut fields, "primarySource", text_value(source));
    put_opt_text(&mut fields, "currentScreen", &context.current_screen);
    put_size(&mut fields, "screenRows", context.screen_rows);
    put_size(&mut fields, "screenColumns", context.screen_columns);
    Json::Object(fields)
}

} // verus!
