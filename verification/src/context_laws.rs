//! What the daemon is told of the terminal with a question.

use crate::context;
use crate::context::{ChangeView, ContextView, PrimarySource, TerminalContextOptions};
use crate::json;
use crate::question::TriggerForm;
use crate::text;
use crate::timeline;
use crate::trigger::CompletionKind;
use vstd::prelude::*;

verus! {

proof fn lemma_context_names()
    ensures
        "recentInput"@ != "recentPtyOutput"@,
        "recentInput"@ != "recentVisibleOutput"@,
        "recentInput"@ != "recentScreenChanges"@,
        "recentInput"@ != "altScreen"@,
        "recentInput"@ != "primaryText"@,
        "recentInput"@ != "primarySource"@,
        "recentInput"@ != "currentScreen"@,
        "recentInput"@ != "screenRows"@,
        "recentInput"@ != "screenColumns"@,
        "recentPtyOutput"@ != "recentVisibleOutput"@,
        "recentPtyOutput"@ != "recentScreenChanges"@,
        "recentPtyOutput"@ != "altScreen"@,
        "recentPtyOutput"@ != "primaryText"@,
        "recentPtyOutput"@ != "primarySource"@,
        "recentPtyOutput"@ != "currentScreen"@,
        "recentPtyOutput"@ != "screenRows"@,
        "recentPtyOutput"@ != "screenColumns"@,
        "recentVisibleOutput"@ != "recentScreenChanges"@,
        "recentVisibleOutput"@ != "altScreen"@,
        "recentVisibleOutput"@ != "primaryText"@,
        "recentVisibleOutput"@ != "primarySource"@,
        "recentVisibleOutput"@ != "currentScreen"@,
        "recentVisibleOutput"@ != "screenRows"@,
        "recentVisibleOutput"@ != "screenColumns"@,
        "recentScreenChanges"@ != "altScreen"@,
        "recentScreenChanges"@ != "primaryText"@,
        "recentScreenChanges"@ != "primarySource"@,
        "recentScreenChanges"@ != "currentScreen"@,
        "recentScreenChanges"@ != "screenRows"@,
        "recentScreenChanges"@ != "screenColumns"@,
        "altScreen"@ != "primaryText"@,
        "altScreen"@ != "primarySource"@,
        "altScreen"@ != "currentScreen"@,
        "altScreen"@ != "screenRows"@,
        "altScreen"@ != "screenColumns"@,
        "primaryText"@ != "primarySource"@,
        "primaryText"@ != "currentScreen"@,
        "primaryText"@ != "screenRows"@,
        "primaryText"@ != "screenColumns"@,
        "primarySource"@ != "currentScreen"@,
        "primarySource"@ != "screenRows"@,
        "primarySource"@ != "screenColumns"@,
        "currentScreen"@ != "screenRows"@,
        "currentScreen"@ != "screenColumns"@,
        "screenRows"@ != "screenColumns"@,
{
    reveal_strlit("recentInput");
    reveal_strlit("recentPtyOutput");
    reveal_strlit("recentVisibleOutput");
    reveal_strlit("recentScreenChanges");
    reveal_strlit("altScreen");
    reveal_strlit("primaryText");
    reveal_strlit("primarySource");
    reveal_strlit("currentScreen");
    reveal_strlit("screenRows");
    reveal_strlit("screenColumns");
    assert("recentInput"@.len() == 11);
    assert("recentPtyOutput"@.len() == 15);
    assert("recentVisibleOutput"@.len() == 19);
    assert("recentScreenChanges"@.len() == 19);
    assert("altScreen"@.len() == 9);
    assert("primaryText"@.len() == 11);
    assert("primarySource"@.len() == 13);
    assert("currentScreen"@.len() == 13);
    assert("screenRows"@.len() == 10);
    assert("screenColumns"@.len() == 13);
    assert("recentInput"@[0] != "primaryText"@[0]);
    assert("recentVisibleOutput"@[6] != "recentScreenChanges"@[6]);
    assert("primarySource"@[0] != "currentScreen"@[0]);
    assert("primarySource"@[0] != "screenColumns"@[0]);
    assert("currentScreen"@[0] != "screenColumns"@[0]);
}

proof fn lemma_change_names()
    ensures
        "snapshotId"@ != "previousSnapshotId"@,
        "snapshotId"@ != "altScreen"@,
        "snapshotId"@ != "rows"@,
        "snapshotId"@ != "addedLines"@,
        "snapshotId"@ != "removedLines"@,
        "snapshotId"@ != "changedLines"@,
        "snapshotId"@ != "largeChange"@,
        "snapshotId"@ != "summary"@,
        "previousSnapshotId"@ != "altScreen"@,
        "previousSnapshotId"@ != "rows"@,
        "previousSnapshotId"@ != "addedLines"@,
        "previousSnapshotId"@ != "removedLines"@,
        "previousSnapshotId"@ != "changedLines"@,
        "previousSnapshotId"@ != "largeChange"@,
        "previousSnapshotId"@ != "summary"@,
        "altScreen"@ != "rows"@,
        "altScreen"@ != "addedLines"@,
        "altScreen"@ != "removedLines"@,
        "altScreen"@ != "changedLines"@,
        "altScreen"@ != "largeChange"@,
        "altScreen"@ != "summary"@,
        "rows"@ != "addedLines"@,
        "rows"@ != "removedLines"@,
        "rows"@ != "changedLines"@,
        "rows"@ != "largeChange"@,
        "rows"@ != "summary"@,
        "addedLines"@ != "removedLines"@,
        "addedLines"@ != "changedLines"@,
        "addedLines"@ != "largeChange"@,
        "addedLines"@ != "summary"@,
        "removedLines"@ != "changedLines"@,
        "removedLines"@ != "largeChange"@,
        "removedLines"@ != "summary"@,
        "changedLines"@ != "largeChange"@,
        "changedLines"@ != "summary"@,
        "largeChange"@ != "summary"@,
{
    reveal_strlit("snapshotId");
    reveal_strlit("previousSnapshotId");
    reveal_strlit("altScreen");
    reveal_strlit("rows");
    reveal_strlit("addedLines");
    reveal_strlit("removedLines");
    reveal_strlit("changedLines");
    reveal_strlit("largeChange");
    reveal_strlit("summary");
    assert("snapshotId"@.len() == 10);
    assert("previousSnapshotId"@.len() == 18);
    assert("altScreen"@.len() == 9);
    assert("rows"@.len() == 4);
    assert("addedLines"@.len() == 10);
    assert("removedLines"@.len() == 12);
    assert("changedLines"@.len() == 12);
    assert("largeChange"@.len() == 11);
    assert("summary"@.len() == 7);
    assert("snapshotId"@[0] != "addedLines"@[0]);
    assert("removedLines"@[0] != "changedLines"@[0]);
}

proof fn lemma_package_names()
    ensures
        "contractVersion"@ != "question"@,
        "contractVersion"@ != "trigger"@,
        "contractVersion"@ != "dynamicContext"@,
        "question"@ != "trigger"@,
        "question"@ != "dynamicContext"@,
        "trigger"@ != "dynamicContext"@,
{
    reveal_strlit("contractVersion");
    reveal_strlit("question");
    reveal_strlit("trigger");
    reveal_strlit("dynamicContext");
    assert("contractVersion"@.len() == 15);
    assert("question"@.len() == 8);
    assert("trigger"@.len() == 7);
    assert("dynamicContext"@.len() == 14);
}

proof fn lemma_trigger_names()
    ensures
        "form"@ != "completion"@,
        "form"@ != "stillRunning"@,
        "form"@ != "exitCode"@,
        "completion"@ != "stillRunning"@,
        "completion"@ != "exitCode"@,
        "stillRunning"@ != "exitCode"@,
{
    reveal_strlit("form");
    reveal_strlit("completion");
    reveal_strlit("stillRunning");
    reveal_strlit("exitCode");
    assert("form"@.len() == 4);
    assert("completion"@.len() == 10);
    assert("stillRunning"@.len() == 12);
    assert("exitCode"@.len() == 8);
}

/// A text that may be absent, as the field that carries it.
pub open spec fn text_field(value: Option<Seq<char>>) -> Option<json::JsonView> {
    match value {
        Some(s) => Some(json::JsonView::Text(s)),
        None => None,
    }
}

/// A number that may be absent, as the field that carries it.
pub open spec fn number_field(value: Option<int>) -> Option<json::JsonView> {
    match value {
        Some(n) => Some(json::JsonView::Number(n)),
        None => None,
    }
}

/// Each field of a context is found under its own name, whatever the others hold, and a
/// field that is absent is under none.
pub proof fn a_context_is_read_back_field_by_field(c: ContextView)
    ensures
        ({
            let o = context::context_object(c);
            &&& o.get("recentInput"@) == Some(json::JsonView::Text(c.recent_input))
            &&& o.get("recentPtyOutput"@) == Some(json::JsonView::Text(c.recent_pty_output))
            &&& o.get("recentVisibleOutput"@) == Some(
                json::JsonView::Text(c.recent_visible_output),
            )
            &&& o.get("altScreen"@) == Some(json::JsonView::Bool(c.alt_screen))
            &&& o.get("primaryText"@) == Some(json::JsonView::Text(c.primary_text))
            &&& o.get("primarySource"@) == Some(
                json::JsonView::Text(
                    match c.primary_source {
                        PrimarySource::ScreenSnapshot => "screen_snapshot"@,
                        PrimarySource::VisibleOutput => "visible_output"@,
                        PrimarySource::PtyOutput => "pty_output"@,
                        PrimarySource::Empty => "empty"@,
                    },
                ),
            )
            &&& o.get("currentScreen"@) == text_field(c.current_screen)
            &&& o.get("screenRows"@) == number_field(
                match c.screen_rows {
                    Some(n) => Some(n as int),
                    None => None,
                },
            )
            &&& o.get("screenColumns"@) == number_field(
                match c.screen_columns {
                    Some(n) => Some(n as int),
                    None => None,
                },
            )
        }),
{
    lemma_context_names();
}

/// Every change of a context is found in its list, in order, each field under its own
/// name.
pub proof fn the_changes_of_a_context_are_read_back(c: ContextView, i: int)
    requires
        0 <= i < c.recent_screen_changes.len(),
    ensures
        ({
            let o = context::context_object(c);
            let list = o.get("recentScreenChanges"@)->0;
            let change = c.recent_screen_changes[i];
            &&& o.get("recentScreenChanges"@) is Some
            &&& list is Array
            &&& list->Array_0.len() == c.recent_screen_changes.len()
            &&& change_read_back(list->Array_0[i], change)
        }),
{
    lemma_context_names();
    lemma_change_names();
}

/// Whether an object carries each field of a change under its own name.
pub open spec fn change_read_back(o: json::JsonView, c: ChangeView) -> bool {
    &&& o.get("snapshotId"@) == Some(json::JsonView::Text(c.snapshot_id))
    &&& o.get("previousSnapshotId"@) == text_field(c.previous_snapshot_id)
    &&& o.get("altScreen"@) == Some(json::JsonView::Bool(c.alt_screen))
    &&& o.get("rows"@) == Some(json::JsonView::Number(c.rows as int))
    &&& o.get("addedLines"@) == Some(json::JsonView::Number(c.added_lines as int))
    &&& o.get("removedLines"@) == Some(json::JsonView::Number(c.removed_lines as int))
    &&& o.get("changedLines"@) == Some(json::JsonView::Number(c.changed_lines as int))
    &&& o.get("largeChange"@) == Some(json::JsonView::Bool(c.large_change))
    &&& o.get("summary"@) == Some(json::JsonView::Text(c.summary))
}

/// The package of a question is read back field by field: the contract's version, the
/// question, how it was asked and answered for, and the context.
pub proof fn a_package_is_read_back_field_by_field(
    asked: Seq<char>,
    form: TriggerForm,
    completion: CompletionKind,
    exit_code: Option<i32>,
    still_running: bool,
    c: ContextView,
)
    ensures
        ({
            let o = crate::trigger::package_of(asked, form, completion, exit_code, still_running, c);
            let t = o.get("trigger"@)->0;
            &&& o.get("contractVersion"@) == Some(
                json::JsonView::Text("koshell_ai_context_v1"@),
            )
            &&& o.get("question"@) == Some(json::JsonView::Text(asked))
            &&& o.get("dynamicContext"@) == Some(context::context_object(c))
            &&& o.get("trigger"@) is Some
            &&& t.get("form"@) == Some(
                json::JsonView::Text(
                    match form {
                        TriggerForm::Standalone => "standalone"@,
                        TriggerForm::Inline => "inline"@,
                    },
                ),
            )
            &&& t.get("completion"@) == Some(
                json::JsonView::Text(
                    match completion {
                        CompletionKind::CommandEnd => "command_end"@,
                        CompletionKind::Stabilized => "stabilized"@,
                        CompletionKind::MaxWait => "max_wait"@,
                    },
                ),
            )
            &&& t.get("stillRunning"@) == Some(json::JsonView::Bool(still_running))
            &&& t.get("exitCode"@) == number_field(
                match exit_code {
                    Some(n) => Some(n as int),
                    None => None,
                },
            )
        }),
{
    lemma_package_names();
    lemma_trigger_names();
}

/// Whether a text is the end of another one, as much of it as a budget allows.
pub open spec fn is_bounded_end(part: Seq<char>, whole: Seq<char>, budget: nat) -> bool {
    &&& part.len() == if whole.len() < budget {
        whole.len()
    } else {
        budget
    }
    &&& forall|i: int|
        0 <= i < part.len() ==> #[trigger] part[i] == whole[whole.len() - part.len() + i]
}

/// The texts of a context are the most recent ones, and as much of them as the budgets
/// allow.
pub proof fn a_context_holds_the_most_recent_text(
    entries: Seq<timeline::EntryView>,
    options: TerminalContextOptions,
)
    ensures
        ({
            let c = context::context_of(entries, options);
            let budget = |given: Option<usize>, default: nat|
                match given {
                    Some(n) => n as nat,
                    None => default,
                };
            &&& is_bounded_end(
                c.recent_input,
                context::all_input(entries),
                budget(options.recent_input_max_characters, 2_000),
            )
            &&& is_bounded_end(
                c.recent_pty_output,
                timeline::all_pty(entries),
                budget(options.recent_pty_output_max_characters, 8_000),
            )
            &&& is_bounded_end(
                c.recent_visible_output,
                context::all_visible(entries),
                budget(options.recent_visible_output_max_characters, 8_000),
            )
        }),
{
}

/// What was typed, put out and shown so far grows by exactly what an event brings: visible
/// input, raw output and visible output each on its own, and nothing by other events.
pub proof fn each_event_adds_its_own_text(
    entries: Seq<timeline::EntryView>,
    e: timeline::EntryView,
)
    ensures
        context::all_input(entries.push(e)) == context::all_input(entries) + match e.event {
            timeline::EventView::HumanInput { data, visible: true } => data,
            _ => seq![],
        },
        timeline::all_pty(entries.push(e)) == timeline::all_pty(entries) + match e.event {
            timeline::EventView::PtyOutput { data } => data,
            _ => seq![],
        },
        context::all_visible(entries.push(e)) == context::all_visible(entries) + match e.event {
            timeline::EventView::VisibleOutput { text } => text,
            _ => seq![],
        },
        context::all_input(seq![]).len() == 0,
        timeline::all_pty(seq![]).len() == 0,
        context::all_visible(seq![]).len() == 0,
{
    let more = entries.push(e);
    assert(more.drop_last() =~= entries);
    assert(context::all_input(entries) + Seq::<char>::empty() =~= context::all_input(entries));
    assert(timeline::all_pty(entries) + Seq::<char>::empty() =~= timeline::all_pty(entries));
    assert(context::all_visible(entries) + Seq::<char>::empty() =~= context::all_visible(
        entries,
    ));
}

/// The screen of a context is the latest snapshot's: its size, its mode, and the end of its
/// text where it has any.
pub proof fn a_context_shows_the_latest_screen(
    entries: Seq<timeline::EntryView>,
    e: timeline::EntryView,
    options: TerminalContextOptions,
)
    ensures
        ({
            let c = context::context_of(entries.push(e), options);
            let before = context::context_of(entries, options);
            match e.event {
                timeline::EventView::ScreenSnapshot { rows, columns, alt_screen, screen, .. } => {
                    &&& c.screen_rows == Some(rows)
                    &&& c.screen_columns == Some(columns)
                    &&& c.alt_screen == alt_screen
                    &&& c.current_screen is Some <==> screen is Some && screen->0.len() > 0
                    &&& c.current_screen is Some ==> is_bounded_end(
                        c.current_screen->0,
                        screen->0,
                        match options.current_screen_max_characters {
                            Some(n) => n as nat,
                            None => 8_000,
                        },
                    )
                },
                _ => {
                    &&& c.screen_rows == before.screen_rows
                    &&& c.screen_columns == before.screen_columns
                    &&& c.alt_screen == before.alt_screen
                    &&& c.current_screen == before.current_screen
                },
            }
        }),
{
    assert(entries.push(e).drop_last() =~= entries);
}

/// Whether a text holds more than whitespace.
pub open spec fn says_something(t: Seq<char>) -> bool {
    text::trim(t).len() > 0
}

/// The primary text is the one that its source names, and says something. The alternate
/// screen comes first while it is up, then visible output, then raw output unless the
/// alternate screen is up, then the screen; only where none of them says anything is there
/// no primary text.
pub proof fn the_primary_text_is_its_sources(
    entries: Seq<timeline::EntryView>,
    options: TerminalContextOptions,
)
    ensures
        ({
            let c = context::context_of(entries, options);
            let screen_says = c.current_screen is Some && says_something(c.current_screen->0);
            let visible_says = says_something(c.recent_visible_output);
            let pty_says = says_something(c.recent_pty_output);
            &&& c.primary_source is ScreenSnapshot ==> Some(c.primary_text) == c.current_screen
                && screen_says
            &&& c.primary_source is VisibleOutput ==> c.primary_text == c.recent_visible_output
                && visible_says
            &&& c.primary_source is PtyOutput ==> c.primary_text == c.recent_pty_output
                && pty_says
            &&& c.primary_source is Empty ==> c.primary_text.len() == 0
            &&& c.alt_screen && screen_says ==> c.primary_source is ScreenSnapshot
            &&& !c.alt_screen && visible_says ==> c.primary_source is VisibleOutput
            &&& !c.alt_screen && !visible_says && pty_says ==> c.primary_source is PtyOutput
            &&& c.alt_screen && !screen_says && visible_says ==> c.primary_source is VisibleOutput
            &&& c.primary_source is Empty <==> !screen_says && !visible_says && (c.alt_screen
                || !pty_says)
        }),
{
}

/// A snapshot that carries a difference is the newest change of a context, described by its
/// own counts: it is large from half the rows on. The changes before it stay, in order, but
/// for the oldest one over the limit. Other events add no change.
pub proof fn a_context_lists_the_latest_changes(
    entries: Seq<timeline::EntryView>,
    e: timeline::EntryView,
    options: TerminalContextOptions,
)
    ensures
        ({
            let limit = match options.recent_screen_changes_limit {
                Some(n) => n as nat,
                None => 20,
            };
            let before = context::context_of(entries, options).recent_screen_changes;
            let after = context::context_of(entries.push(e), options).recent_screen_changes;
            match e.event {
                timeline::EventView::ScreenSnapshot {
                    snapshot_id,
                    rows,
                    alt_screen,
                    previous_snapshot_id,
                    diff: Some(diff),
                    ..
                } => limit > 0 ==> {
                    let c = after.last();
                    &&& after.len() == if before.len() < limit {
                        before.len() + 1
                    } else {
                        limit
                    }
                    &&& forall|i: int|
                        0 <= i < after.len() - 1 ==> #[trigger] after[i] == before[before.len()
                            - (after.len() - 1) + i]
                    &&& c.snapshot_id == snapshot_id
                    &&& c.previous_snapshot_id == previous_snapshot_id
                    &&& c.alt_screen == alt_screen
                    &&& c.rows == rows
                    &&& c.added_lines == diff.added_lines
                    &&& c.removed_lines == diff.removed_lines
                    &&& c.changed_lines == diff.changed_lines
                    &&& c.large_change <==> 2 * diff.changed_lines >= rows
                    &&& c.summary == "+"@ + text::decimal(diff.added_lines as nat) + ", -"@
                        + text::decimal(diff.removed_lines as nat)
                },
                _ => after == before,
            }
        }),
{
    assert(entries.push(e).drop_last() =~= entries);
    let all = context::all_changes(entries);
    if let Some(c) = context::change_in(e.event) {
        let limit = match options.recent_screen_changes_limit {
            Some(n) => n as nat,
            None => 20,
        };
        assert(context::all_changes(entries.push(e)) == all.push(c));
        let before = context::context_of(entries, options).recent_screen_changes;
        let after = context::context_of(entries.push(e), options).recent_screen_changes;
        assert(before == context::last_changes(all, limit));
        assert(after == context::last_changes(all.push(c), limit));
    }
}

} // verus!
