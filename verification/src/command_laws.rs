//! What holds of the commands that were indexed and of what the tools read of them.

use crate::command_history;
use crate::command_history::{
    CommandView, HistoryView, OutputView, PageView, MAX_COMMAND_OUTPUT_BYTES,
    MAX_TOTAL_OUTPUT_BYTES,
};
use crate::command_tools;
use crate::command_tools::ToolErrorView;
use crate::json;
use crate::json::JsonView;
use crate::text;
use vstd::prelude::*;

verus! {

proof fn lemma_page_names()
    ensures
        "format"@ != "totalBytes"@,
        "format"@ != "totalCharacters"@,
        "format"@ != "retainedBytes"@,
        "format"@ != "retainedCharacters"@,
        "format"@ != "retainedStartOffset"@,
        "format"@ != "droppedPrefixBytes"@,
        "format"@ != "sourceTruncated"@,
        "format"@ != "available"@,
        "format"@ != "commandId"@,
        "format"@ != "offset"@,
        "format"@ != "nextOffset"@,
        "format"@ != "hasMore"@,
        "format"@ != "content"@,
        "totalBytes"@ != "totalCharacters"@,
        "totalBytes"@ != "retainedBytes"@,
        "totalBytes"@ != "retainedCharacters"@,
        "totalBytes"@ != "retainedStartOffset"@,
        "totalBytes"@ != "droppedPrefixBytes"@,
        "totalBytes"@ != "sourceTruncated"@,
        "totalBytes"@ != "available"@,
        "totalBytes"@ != "commandId"@,
        "totalBytes"@ != "offset"@,
        "totalBytes"@ != "nextOffset"@,
        "totalBytes"@ != "hasMore"@,
        "totalBytes"@ != "content"@,
        "totalCharacters"@ != "retainedBytes"@,
        "totalCharacters"@ != "retainedCharacters"@,
        "totalCharacters"@ != "retainedStartOffset"@,
        "totalCharacters"@ != "droppedPrefixBytes"@,
        "totalCharacters"@ != "sourceTruncated"@,
        "totalCharacters"@ != "available"@,
        "totalCharacters"@ != "commandId"@,
        "totalCharacters"@ != "offset"@,
        "totalCharacters"@ != "nextOffset"@,
        "totalCharacters"@ != "hasMore"@,
        "totalCharacters"@ != "content"@,
        "retainedBytes"@ != "retainedCharacters"@,
        "retainedBytes"@ != "retainedStartOffset"@,
        "retainedBytes"@ != "droppedPrefixBytes"@,
        "retainedBytes"@ != "sourceTruncated"@,
        "retainedBytes"@ != "available"@,
        "retainedBytes"@ != "commandId"@,
        "retainedBytes"@ != "offset"@,
        "retainedBytes"@ != "nextOffset"@,
        "retainedBytes"@ != "hasMore"@,
        "retainedBytes"@ != "content"@,
        "retainedCharacters"@ != "retainedStartOffset"@,
        "retainedCharacters"@ != "droppedPrefixBytes"@,
        "retainedCharacters"@ != "sourceTruncated"@,
        "retainedCharacters"@ != "available"@,
        "retainedCharacters"@ != "commandId"@,
        "retainedCharacters"@ != "offset"@,
        "retainedCharacters"@ != "nextOffset"@,
        "retainedCharacters"@ != "hasMore"@,
        "retainedCharacters"@ != "content"@,
        "retainedStartOffset"@ != "droppedPrefixBytes"@,
        "retainedStartOffset"@ != "sourceTruncated"@,
        "retainedStartOffset"@ != "available"@,
        "retainedStartOffset"@ != "commandId"@,
        "retainedStartOffset"@ != "offset"@,
        "retainedStartOffset"@ != "nextOffset"@,
        "retainedStartOffset"@ != "hasMore"@,
        "retainedStartOffset"@ != "content"@,
        "droppedPrefixBytes"@ != "sourceTruncated"@,
        "droppedPrefixBytes"@ != "available"@,
        "droppedPrefixBytes"@ != "commandId"@,
        "droppedPrefixBytes"@ != "offset"@,
        "droppedPrefixBytes"@ != "nextOffset"@,
        "droppedPrefixBytes"@ != "hasMore"@,
        "droppedPrefixBytes"@ != "content"@,
        "sourceTruncated"@ != "available"@,
        "sourceTruncated"@ != "commandId"@,
        "sourceTruncated"@ != "offset"@,
        "sourceTruncated"@ != "nextOffset"@,
        "sourceTruncated"@ != "hasMore"@,
        "sourceTruncated"@ != "content"@,
        "available"@ != "commandId"@,
        "available"@ != "offset"@,
        "available"@ != "nextOffset"@,
        "available"@ != "hasMore"@,
        "available"@ != "content"@,
        "commandId"@ != "offset"@,
        "commandId"@ != "nextOffset"@,
        "commandId"@ != "hasMore"@,
        "commandId"@ != "content"@,
        "offset"@ != "nextOffset"@,
        "offset"@ != "hasMore"@,
        "offset"@ != "content"@,
        "nextOffset"@ != "hasMore"@,
        "nextOffset"@ != "content"@,
        "hasMore"@ != "content"@,
{
    reveal_strlit("format");
    reveal_strlit("totalBytes");
    reveal_strlit("totalCharacters");
    reveal_strlit("retainedBytes");
    reveal_strlit("retainedCharacters");
    reveal_strlit("retainedStartOffset");
    reveal_strlit("droppedPrefixBytes");
    reveal_strlit("sourceTruncated");
    reveal_strlit("available");
    reveal_strlit("commandId");
    reveal_strlit("offset");
    reveal_strlit("nextOffset");
    reveal_strlit("hasMore");
    reveal_strlit("content");
    assert("format"@.len() == 6);
    assert("totalBytes"@.len() == 10);
    assert("totalCharacters"@.len() == 15);
    assert("retainedBytes"@.len() == 13);
    assert("retainedCharacters"@.len() == 18);
    assert("retainedStartOffset"@.len() == 19);
    assert("droppedPrefixBytes"@.len() == 18);
    assert("sourceTruncated"@.len() == 15);
    assert("available"@.len() == 9);
    assert("commandId"@.len() == 9);
    assert("offset"@.len() == 6);
    assert("nextOffset"@.len() == 10);
    assert("hasMore"@.len() == 7);
    assert("content"@.len() == 7);
    assert("format"@[0] != "offset"@[0]);
    assert("totalBytes"@[0] != "nextOffset"@[0]);
    assert("totalCharacters"@[0] != "sourceTruncated"@[0]);
    assert("retainedCharacters"@[0] != "droppedPrefixBytes"@[0]);
    assert("available"@[0] != "commandId"@[0]);
    assert("hasMore"@[0] != "content"@[0]);
}

proof fn lemma_row_names()
    ensures
        "commandId"@ != "commandPreview"@,
        "commandId"@ != "commandTruncated"@,
        "commandId"@ != "startedAt"@,
        "commandId"@ != "endedAt"@,
        "commandId"@ != "durationMs"@,
        "commandId"@ != "output"@,
        "commandId"@ != "cwd"@,
        "commandId"@ != "exitCode"@,
        "commandPreview"@ != "commandTruncated"@,
        "commandPreview"@ != "startedAt"@,
        "commandPreview"@ != "endedAt"@,
        "commandPreview"@ != "durationMs"@,
        "commandPreview"@ != "output"@,
        "commandPreview"@ != "cwd"@,
        "commandPreview"@ != "exitCode"@,
        "commandTruncated"@ != "startedAt"@,
        "commandTruncated"@ != "endedAt"@,
        "commandTruncated"@ != "durationMs"@,
        "commandTruncated"@ != "output"@,
        "commandTruncated"@ != "cwd"@,
        "commandTruncated"@ != "exitCode"@,
        "startedAt"@ != "endedAt"@,
        "startedAt"@ != "durationMs"@,
        "startedAt"@ != "output"@,
        "startedAt"@ != "cwd"@,
        "startedAt"@ != "exitCode"@,
        "endedAt"@ != "durationMs"@,
        "endedAt"@ != "output"@,
        "endedAt"@ != "cwd"@,
        "endedAt"@ != "exitCode"@,
        "durationMs"@ != "output"@,
        "durationMs"@ != "cwd"@,
        "durationMs"@ != "exitCode"@,
        "output"@ != "cwd"@,
        "output"@ != "exitCode"@,
        "cwd"@ != "exitCode"@,
{
    reveal_strlit("commandId");
    reveal_strlit("commandPreview");
    reveal_strlit("commandTruncated");
    reveal_strlit("startedAt");
    reveal_strlit("endedAt");
    reveal_strlit("durationMs");
    reveal_strlit("output");
    reveal_strlit("cwd");
    reveal_strlit("exitCode");
    assert("commandId"@.len() == 9);
    assert("commandPreview"@.len() == 14);
    assert("commandTruncated"@.len() == 16);
    assert("startedAt"@.len() == 9);
    assert("endedAt"@.len() == 7);
    assert("durationMs"@.len() == 10);
    assert("output"@.len() == 6);
    assert("cwd"@.len() == 3);
    assert("exitCode"@.len() == 8);
    assert("commandId"@[0] != "startedAt"@[0]);
}

proof fn lemma_inventory_names()
    ensures
        "available"@ != "recentCompletedCount"@,
        "available"@ != "maxCommands"@,
        "available"@ != "maxReadCharacters"@,
        "available"@ != "latestCommandId"@,
        "recentCompletedCount"@ != "maxCommands"@,
        "recentCompletedCount"@ != "maxReadCharacters"@,
        "recentCompletedCount"@ != "latestCommandId"@,
        "maxCommands"@ != "maxReadCharacters"@,
        "maxCommands"@ != "latestCommandId"@,
        "maxReadCharacters"@ != "latestCommandId"@,
{
    reveal_strlit("available");
    reveal_strlit("recentCompletedCount");
    reveal_strlit("maxCommands");
    reveal_strlit("maxReadCharacters");
    reveal_strlit("latestCommandId");
    assert("available"@.len() == 9);
    assert("recentCompletedCount"@.len() == 20);
    assert("maxCommands"@.len() == 11);
    assert("maxReadCharacters"@.len() == 17);
    assert("latestCommandId"@.len() == 15);
}

proof fn lemma_list_names()
    ensures
        "commands"@ != "maxCommands"@,
{
    reveal_strlit("commands");
    reveal_strlit("maxCommands");
    assert("commands"@.len() == 8);
    assert("maxCommands"@.len() == 11);
}

proof fn lemma_detail_names()
    ensures
        "commandId"@ != "earliestOffset"@,
{
    reveal_strlit("commandId");
    reveal_strlit("earliestOffset");
    assert("commandId"@.len() == 9);
    assert("earliestOffset"@.len() == 14);
}

proof fn lemma_tool_names()
    ensures
        "list_recent_commands"@ != "read_command_output"@,
{
    reveal_strlit("list_recent_commands");
    reveal_strlit("read_command_output");
    assert("list_recent_commands"@.len() == 20);
    assert("read_command_output"@.len() == 19);
}

// ---------------------------------------------------------------------------
// Reading a command's output
// ---------------------------------------------------------------------------

proof fn lemma_row_is(rows: Seq<CommandView>, i: int)
    requires
        0 <= i < rows.len(),
        forall|a: int, b: int|
            0 <= a < b < rows.len() ==> (#[trigger] rows[a]).id != (#[trigger] rows[b]).id,
    ensures
        command_history::row_with_id(rows, rows[i].id) == Some(rows[i]),
    decreases rows.len(),
{
    if i > 0 {
        let rest = rows.drop_first();
        assert(rows[0].id != rows[i].id);
        assert forall|a: int, b: int| 0 <= a < b < rest.len() implies (#[trigger] rest[a]).id != (
        #[trigger] rest[b]).id by {
            assert(rest[a] == rows[a + 1] && rest[b] == rows[b + 1]);
        }
        assert(rest[i - 1] == rows[i]);
        lemma_row_is(rest, i - 1);
    }
}

/// Whether an object carries the accounting of an output, each count under its own name.
pub open spec fn accounts_for(o: JsonView, out: OutputView) -> bool {
    &&& o.get("format"@) == Some(JsonView::Text("pty_text"@))
    &&& o.get("totalBytes"@) == Some(
        JsonView::Number((out.dropped + text::byte_len(out.retained)) as int),
    )
    &&& o.get("totalCharacters"@) == Some(
        JsonView::Number((out.start + out.retained.len()) as int),
    )
    &&& o.get("retainedBytes"@) == Some(JsonView::Number(text::byte_len(out.retained) as int))
    &&& o.get("retainedCharacters"@) == Some(JsonView::Number(out.retained.len() as int))
    &&& o.get("retainedStartOffset"@) == Some(JsonView::Number(out.start as int))
    &&& o.get("droppedPrefixBytes"@) == Some(JsonView::Number(out.dropped as int))
    &&& o.get("sourceTruncated"@) == Some(JsonView::Bool(out.start > 0))
    &&& o.get("available"@) == Some(
        JsonView::Bool(out.start == 0 && out.retained.len() == 0 || out.retained.len() > 0),
    )
}

/// The argument that asks for a number, where there is one.
pub open spec fn asked_number(arguments: JsonView, name: Seq<char>) -> Option<int> {
    match arguments.get(name) {
        Some(JsonView::Number(n)) => Some(n),
        _ => None,
    }
}

/// Whether an argument is left out.
pub open spec fn left_out(arguments: JsonView, name: Seq<char>) -> bool {
    arguments.get(name) is None || arguments.get(name) == Some(JsonView::Null)
}

/// Whether an argument is a number that a page can be addressed with, or is left out.
pub open spec fn sensible(arguments: JsonView, name: Seq<char>, least: int) -> bool {
    left_out(arguments, name) || (asked_number(arguments, name) matches Some(n) && least <= n
        <= usize::MAX)
}

/// Reading an indexed command gives back exactly the part of its retained output that was
/// asked for: from the offset on (from the first retained character where none is given),
/// as many characters as the limit allows (eight thousand where none is given, never more
/// than sixteen thousand) and as there are. Where that part is gone, the error names the
/// first offset that is not.
pub proof fn a_read_returns_what_was_asked_for(
    history: HistoryView,
    i: int,
    arguments: JsonView,
)
    requires
        history.identified(),
        history.bounded(),
        0 <= i < history.completed.len(),
        arguments.get("commandId"@) == Some(JsonView::Text(history.completed[i].id)),
        sensible(arguments, "offset"@, 0),
        sensible(arguments, "limit"@, 1),
    ensures
        ({
            let out = history.completed[i].output;
            let at: int = match asked_number(arguments, "offset"@) {
                Some(n) => n,
                None => out.start as int,
            };
            let limit: int = match asked_number(arguments, "limit"@) {
                Some(n) => n,
                None => 8_000,
            };
            let left: int = if at <= out.start + out.retained.len() {
                out.start + out.retained.len() - at
            } else {
                0
            };
            let wanted: int = if limit <= 16_000 {
                limit
            } else {
                16_000
            };
            let count: int = if wanted <= left {
                wanted
            } else {
                left
            };
            let r = command_tools::executed(history, "read_command_output"@, arguments);
            if at >= out.start {
                &&& r is Ok
                &&& r->Ok_0.get("content"@) matches Some(JsonView::Text(content)) && {
                    &&& content.len() == count
                    &&& forall|k: int|
                        0 <= k < count ==> #[trigger] content[k] == out.retained[at - out.start
                            + k]
                }
                &&& r->Ok_0.get("commandId"@) == Some(
                    JsonView::Text(history.completed[i].id),
                )
                &&& r->Ok_0.get("offset"@) == Some(JsonView::Number(at))
                &&& r->Ok_0.get("nextOffset"@) == Some(JsonView::Number(at + count))
                &&& r->Ok_0.get("hasMore"@) == Some(
                    JsonView::Bool(at + count < out.start + out.retained.len()),
                )
                &&& accounts_for(r->Ok_0, out)
            } else {
                &&& r is Err
                &&& r->Err_0.code == "output_evicted"@
                &&& r->Err_0.details matches Some(d) && d.get("earliestOffset"@) == Some(
                    JsonView::Number(out.start as int),
                ) && d.get("commandId"@) == Some(JsonView::Text(history.completed[i].id))
            }
        }),
{
    lemma_page_names();
    lemma_detail_names();
    lemma_tool_names();
    lemma_row_is(history.completed, i);
    let row = history.completed[i];
    assert(row.output.consistent());
    assert(row.output.total_bytes() <= usize::MAX);
}

/// Reading in turn from each page's next offset on gives the retained output from the
/// offset on whole: two pages one behind the other are one piece of it.
pub proof fn pages_follow_one_another(
    history: HistoryView,
    id: Seq<char>,
    offset: usize,
    limit: Option<usize>,
    next: Option<usize>,
)
    requires
        history.page(id, Some(offset), limit) is Ok,
        (history.page(id, Some(offset), limit)->Ok_0).next_offset <= usize::MAX,
        offset <= (history.page(id, Some(offset), limit)->Ok_0).output.total_characters(),
    ensures
        ({
            let first = history.page(id, Some(offset), limit)->Ok_0;
            let r = history.page(id, Some(first.next_offset as usize), next);
            let second = r->Ok_0;
            let out = first.output;
            &&& r is Ok
            &&& second.output == out
            &&& first.content + second.content == out.retained.subrange(
                offset - out.start,
                second.next_offset - out.start,
            )
        }),
{
    let first = history.page(id, Some(offset), limit)->Ok_0;
    let second = history.page(id, Some(first.next_offset as usize), next)->Ok_0;
    let out = first.output;
    assert(first.content + second.content =~= out.retained.subrange(
        offset - out.start,
        second.next_offset - out.start,
    ));
}

/// A read of a command that is not indexed, or with arguments that make no sense, is an
/// error that says which it was; none of them reads anything.
pub proof fn a_bad_read_is_refused(history: HistoryView, arguments: JsonView)
    ensures
        ({
            let r = command_tools::executed(history, "read_command_output"@, arguments);
            let no_id = !(arguments.get("commandId"@) matches Some(JsonView::Text(_)));
            let bad = |name: Seq<char>|
                !left_out(arguments, name) && !(asked_number(arguments, name) matches Some(n) && n
                    >= 0);
            &&& no_id || bad("offset"@) || bad("limit"@) || asked_number(arguments, "limit"@)
                == Some(0int) ==> r is Err && r->Err_0.code == "invalid_arguments"@
            &&& !no_id && sensible(arguments, "offset"@, 0) && sensible(arguments, "limit"@, 1)
                && (forall|i: int|
                0 <= i < history.completed.len() ==> Some(
                    JsonView::Text((#[trigger] history.completed[i]).id),
                ) != arguments.get("commandId"@)) ==> {
                &&& r is Err
                &&& r->Err_0.code == "command_not_found"@
                &&& r->Err_0.details matches Some(d) && d.get("commandId"@) == arguments.get(
                    "commandId"@,
                )
            }
        }),
{
    lemma_tool_names();
    lemma_detail_names();
    if let Some(JsonView::Text(id)) = arguments.get("commandId"@) {
        if forall|i: int|
            0 <= i < history.completed.len() ==> Some(
                JsonView::Text((#[trigger] history.completed[i]).id),
            ) != arguments.get("commandId"@) {
            lemma_no_row(history.completed, id);
        }
    }
}

proof fn lemma_no_row(rows: Seq<CommandView>, id: Seq<char>)
    requires
        forall|i: int| 0 <= i < rows.len() ==> JsonView::Text((#[trigger] rows[i]).id)
            != JsonView::Text(id),
    ensures
        command_history::row_with_id(rows, id) is None,
    decreases rows.len(),
{
    if rows.len() > 0 {
        let rest = rows.drop_first();
        assert(JsonView::Text(rows[0].id) != JsonView::Text(id));
        assert forall|i: int| 0 <= i < rest.len() implies JsonView::Text((#[trigger] rest[i]).id)
            != JsonView::Text(id) by {
            assert(rest[i] == rows[i + 1]);
        }
        lemma_no_row(rest, id);
    }
}

// ---------------------------------------------------------------------------
// Listing the commands
// ---------------------------------------------------------------------------

/// The list names every indexed command, newest first, whatever the arguments; each row
/// tells of its command, and none carries output.
pub proof fn the_list_tells_of_every_command(
    history: HistoryView,
    arguments: JsonView,
    i: int,
)
    requires
        0 <= i < history.completed.len(),
    ensures
        ({
            let r = command_tools::executed(history, "list_recent_commands"@, arguments);
            let list = r->Ok_0.get("commands"@)->0;
            let n = history.completed.len() as int;
            &&& r is Ok
            &&& r->Ok_0.get("maxCommands"@) == Some(JsonView::Number(10))
            &&& r->Ok_0.get("commands"@) is Some
            &&& list is Array
            &&& list->Array_0.len() == n
            &&& row_read_back(list->Array_0[n - 1 - i], history.completed[i])
        }),
{
    lemma_tool_names();
    lemma_list_names();
    lemma_row_names();
    lemma_page_names();
    let n = history.completed.len() as int;
    let row = history.completed[i];
    lemma_row_read_back(row);
    assert(command_tools::row_objects(history.completed)[n - 1 - i]
        == command_tools::row_object(row));
}

/// Whether an object tells of a completed command.
pub open spec fn row_read_back(o: JsonView, row: CommandView) -> bool {
    &&& o.get("commandId"@) == Some(JsonView::Text(row.id))
    &&& o.get("commandPreview"@) matches Some(JsonView::Text(preview)) && {
        &&& preview.len() == if row.command.len() <= 512 {
            row.command.len()
        } else {
            512
        }
        &&& preview.is_prefix_of(row.command)
    }
    &&& o.get("commandTruncated"@) == Some(
        JsonView::Bool(row.command.len() > 512 || row.command_truncated),
    )
    &&& o.get("startedAt"@) == Some(JsonView::Number(row.started_at as int))
    &&& o.get("endedAt"@) == Some(JsonView::Number(row.ended_at as int))
    &&& o.get("durationMs"@) == Some(JsonView::Number(row.duration_ms as int))
    &&& o.get("output"@) matches Some(out) && accounts_for(out, row.output) && out.get(
        "content"@,
    ) is None
    &&& o.get("cwd"@) == match row.cwd {
        Some(cwd) => Some(JsonView::Text(cwd)),
        None => None,
    }
    &&& o.get("exitCode"@) == match row.exit_code {
        Some(code) => Some(JsonView::Number(code as int)),
        None => None,
    }
}

proof fn lemma_row_read_back(row: CommandView)
    ensures
        row_read_back(command_tools::row_object(row), row),
{
    lemma_row_names();
    lemma_page_names();
    let preview = command_history::preview_of(row.command, row.command_truncated).0;
    assert(preview.is_prefix_of(row.command)) by {
        assert(preview =~= row.command.subrange(0, preview.len() as int));
    }
}

/// What a request advertises is what there is: how many commands can be read, the newest
/// one's id, and the bounds.
pub proof fn the_inventory_counts_what_there_is(history: HistoryView)
    ensures
        ({
            let o = command_tools::inventory(history);
            let n = history.completed.len();
            &&& o.get("available"@) == Some(JsonView::Bool(n > 0))
            &&& o.get("recentCompletedCount"@) == Some(JsonView::Number(n as int))
            &&& o.get("maxCommands"@) == Some(JsonView::Number(10))
            &&& o.get("maxReadCharacters"@) == Some(JsonView::Number(16_000))
            &&& n > 0 ==> o.get("latestCommandId"@) == Some(
                JsonView::Text(history.completed.last().id),
            )
            &&& n == 0 ==> o.get("latestCommandId"@) is None
        }),
{
    lemma_inventory_names();
}

// ---------------------------------------------------------------------------
// What a row is made of
// ---------------------------------------------------------------------------

/// A command that ran is indexed as it was: its line (as much of it as four thousand and
/// ninety-six bytes hold), where and when it ran, for how long, and how it exited. A row
/// that is already there keeps all of that.
pub proof fn a_row_tells_what_ran(
    h: HistoryView,
    command: Seq<char>,
    cwd: Option<Seq<char>>,
    started_at: i64,
    chunks: Seq<Seq<u8>>,
    exit_code: Option<i32>,
    ended_at: i64,
)
    ensures
        ({
            let rows = h.begun(command, cwd, started_at).recorded_all(chunks).ended(
                exit_code,
                ended_at,
            ).completed;
            let row = rows.last();
            &&& rows.len() > 0
            &&& row.cwd == cwd
            &&& row.started_at == started_at
            &&& row.ended_at == ended_at
            &&& row.exit_code == exit_code
            &&& started_at <= ended_at && ended_at - started_at <= i64::MAX ==> row.duration_ms
                == ended_at - started_at
            &&& ended_at <= started_at ==> row.duration_ms == 0
            &&& row.command.is_prefix_of(command)
            &&& text::byte_len(command) <= 4096 ==> row.command == command
                && !row.command_truncated
            &&& text::byte_len(command) > 4096 ==> text::byte_len(row.command) <= 4096
                && row.command_truncated
        }),
{
    let begun = h.begun(command, cwd, started_at);
    lemma_recorded_all_frame(begun, chunks);
    let full = begun.recorded_all(chunks);
    command_history::the_index_holds_the_most_recent_commands(full, exit_code, ended_at);
    text::lemma_clip_bytes_fits(command, 4096);
    let row = full.active->0.closed(exit_code, ended_at);
    let kept = command_history::newest_rows(full.completed.push(row));
    assert(kept.last() == row);
    let rows = full.ended(exit_code, ended_at).completed;
    assert(rows[rows.len() - 1] == (CommandView { output: rows[rows.len() - 1].output, ..kept[rows.len()
        - 1] }));
}

proof fn lemma_recorded_all_frame(h: HistoryView, chunks: Seq<Seq<u8>>)
    requires
        h.active is Some,
    ensures
        ({
            let g = h.recorded_all(chunks);
            let a = h.active->0;
            let b = g.active->0;
            &&& g.active is Some
            &&& b.id == a.id
            &&& b.command == a.command
            &&& b.command_truncated == a.command_truncated
            &&& b.cwd == a.cwd
            &&& b.started_at == a.started_at
        }),
    decreases chunks.len(),
{
    if chunks.len() > 0 {
        lemma_recorded_all_frame(h, chunks.drop_last());
    }
}

/// Appended output is kept but for as much of its beginning as the cap forces out: one
/// character more would not fit.
pub proof fn no_more_output_is_dropped_than_needed(out: OutputView, more: Seq<char>)
    ensures
        ({
            let whole = out.retained + more;
            let kept = out.append(more);
            let gone = whole.len() - kept.retained.len();
            &&& gone >= 0
            &&& kept.retained == whole.skip(gone)
            &&& kept.start == out.start + gone
            &&& text::byte_len(kept.retained) <= 1_048_576
            &&& gone > 0 ==> text::byte_len(whole.skip(gone - 1)) > 1_048_576
        }),
{
    let whole = OutputView { retained: out.retained + more, ..out };
    command_history::lemma_fit(whole, MAX_COMMAND_OUTPUT_BYTES as nat);
    lemma_fit_is_least(whole, MAX_COMMAND_OUTPUT_BYTES as nat);
}

proof fn lemma_fit_is_least(o: OutputView, max: nat)
    ensures
        ({
            let gone = o.retained.len() - o.fit(max).retained.len();
            &&& gone >= 0
            &&& o.fit(max).start == o.start + gone
            &&& gone > 0 ==> text::byte_len(o.retained.skip(gone - 1)) > max
        }),
    decreases o.retained.len(),
{
    command_history::lemma_fit(o, max);
    if o.retained.len() > 0 && text::byte_len(o.retained) > max {
        let next = OutputView {
            retained: o.retained.drop_first(),
            start: o.start + 1,
            dropped: o.dropped + text::char_width(o.retained[0]),
        };
        lemma_fit_is_least(next, max);
        command_history::lemma_fit(next, max);
        let gone = o.retained.len() - o.fit(max).retained.len();
        if gone == 1 {
            assert(o.retained.skip(0) =~= o.retained);
        } else {
            assert(next.retained.skip(gone - 2) =~= o.retained.skip(gone - 1));
        }
    }
}

/// Room is made at the expense of the oldest output: a command loses output only once the
/// older ones have none left, and none does while everything fits.
pub proof fn the_oldest_output_goes_first(rows: Seq<CommandView>, total: nat, i: int, j: int)
    requires
        0 <= i < j < rows.len(),
        total >= command_history::rows_bytes(rows),
    ensures
        ({
            let kept = command_history::reclaim_rows(rows, total);
            &&& kept.len() == rows.len()
            &&& total <= 4_194_304 ==> kept == rows
            &&& kept[j].output != rows[j].output ==> kept[i].output.retained.len() == 0
        }),
    decreases rows.len(),
{
    if total > MAX_TOTAL_OUTPUT_BYTES {
        let excess = (total - MAX_TOTAL_OUTPUT_BYTES) as nat;
        let before = rows[0].output;
        let kept = before.reclaim(excess);
        let rest = rows.drop_first();
        let freed = before.retained_bytes() - kept.retained_bytes();
        let target: nat = if excess >= before.retained_bytes() {
            0
        } else {
            (before.retained_bytes() - excess) as nat
        };
        command_history::lemma_fit(before, target);
        let left = (total - freed) as nat;
        let sub = command_history::reclaim_rows(rest, left);
        let all = command_history::reclaim_rows(rows, total);
        assert(all == seq![CommandView { output: kept, ..rows[0] }] + sub);
        lemma_reclaim_len(rest, left);
        assert(all[j] == sub[j - 1] && rows[j] == rest[j - 1]);
        if i > 0 {
            the_oldest_output_goes_first(rest, left, i - 1, j - 1);
            assert(all[i] == sub[i - 1]);
        } else if kept.retained.len() > 0 {
            text::lemma_byte_len_bounds(kept.retained);
            assert(kept.retained_bytes() > 0);
            assert(freed >= excess);
            assert(sub == rest);
        }
    }
}

proof fn lemma_reclaim_len(rows: Seq<CommandView>, total: nat)
    ensures
        command_history::reclaim_rows(rows, total).len() == rows.len(),
    decreases rows.len(),
{
    if rows.len() > 0 && total > MAX_TOTAL_OUTPUT_BYTES {
        let kept = rows[0].output.reclaim((total - MAX_TOTAL_OUTPUT_BYTES) as nat);
        let freed = rows[0].output.retained_bytes() - kept.retained_bytes();
        lemma_reclaim_len(rows.drop_first(), (total - freed) as nat);
    }
}

/// A command that starts before the last one ended replaces it, and a warning names the one
/// that is lost; its id is a new one.
pub proof fn a_lost_capture_is_named(
    h: HistoryView,
    command: Seq<char>,
    cwd: Option<Seq<char>>,
    now: i64,
)
    ensures
        ({
            let after = h.begun(command, cwd, now);
            &&& after.active is Some
            &&& after.active->0.output.retained.len() == 0
            &&& after.next_id == h.next_id + 1
            &&& h.active is None ==> after.warnings == h.warnings
            &&& h.active matches Some(span) ==> after.warnings.len() == h.warnings.len() + 1
                && after.warnings.drop_last() == h.warnings && after.warnings.last()
                == "discarded the incomplete capture for "@ + span.id
                + " (a new command started before it ended)"@
            &&& h.identified() ==> forall|i: int|
                0 <= i < h.completed.len() ==> (#[trigger] h.completed[i]).id
                    != after.active->0.id
        }),
{
    let after = h.begun(command, cwd, now);
    if let Some(span) = h.active {
        assert(after.warnings.drop_last() =~= h.warnings);
    }
    if h.identified() {
        assert forall|i: int| 0 <= i < h.completed.len() implies (#[trigger] h.completed[i]).id
            != after.active->0.id by {
            let id = h.completed[i].id;
            assert(command_history::given_out(id, h.next_id));
            let k = choose|k: nat| k < h.next_id && id == #[trigger] command_history::command_id(k);
            if id == command_history::command_id(h.next_id) {
                let p = "command-"@;
                assert(command_history::command_id(k).skip(p.len() as int) =~= text::decimal(k));
                assert(command_history::command_id(h.next_id).skip(p.len() as int)
                    =~= text::decimal(h.next_id));
                text::lemma_decimal_injective(k, h.next_id);
            }
        }
    }
}

} // verus!
