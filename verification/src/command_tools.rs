//! Terminal-side execution of the read-only context tools the daemon calls.
//!
//! The daemon owns the agent and its tool definitions; this module owns what those tools
//! actually read. It is the enforcement point for the observe-only boundary: the whole
//! reachable surface is the two tools below, both of which return bounded,
//! already-captured terminal facts. A tool name outside this catalog is an error, not a
//! dynamic dispatch.
//!
//! Arguments arrive as untrusted JSON from the socket and are validated here before
//! becoming typed values. Every failure is a structured [`ToolError`] the agent can read
//! and work around, never a panic and never terminal output.

use crate::command_history;
use crate::command_history::{
    CommandHistory, CommandOutputInfo, CompletedCommand, ReadError, ReadPage,
    MAX_COMPLETED_COMMANDS, MAX_READ_LIMIT,
};
use crate::json;
use crate::json::{number, put, put_item, put_opt_text, text_value, Json};
use crate::proto::ToolError;
use crate::text;
use crate::text::{push_decimal, same_text};
use crate::trigger::SessionState;
use vstd::prelude::*;

verus! {

pub const TOOL_LIST_RECENT_COMMANDS: &'static str = "list_recent_commands";

pub const TOOL_READ_COMMAND_OUTPUT: &'static str = "read_command_output";

// ---------------------------------------------------------------------------
// The model
// ---------------------------------------------------------------------------

/// The model of a failure.
#[verifier::ext_equal]
pub struct ToolErrorView {
    pub code: Seq<char>,
    pub message: Seq<char>,
    pub details: Option<json::JsonView>,
}

impl View for ToolError {
    type V = ToolErrorView;

    open spec fn view(&self) -> ToolErrorView {
        ToolErrorView {
            code: self.code@,
            message: self.message@,
            details: match self.details {
                Some(d) => Some(d@),
                None => None,
            },
        }
    }
}

/// An object with one more number.
pub open spec fn with_nat(
    object: Map<Seq<char>, json::JsonView>,
    name: Seq<char>,
    value: nat,
) -> Map<Seq<char>, json::JsonView> {
    object.insert(name, json::JsonView::Number(value as int))
}

/// The accounting of an output as fields.
pub open spec fn info_fields(out: command_history::OutputView) -> Map<Seq<char>, json::JsonView> {
    let o = Map::<Seq<char>, json::JsonView>::empty().insert(
        "format"@,
        json::JsonView::Text("pty_text"@),
    );
    let o = with_nat(o, "totalBytes"@, out.total_bytes());
    let o = with_nat(o, "totalCharacters"@, out.total_characters());
    let o = with_nat(o, "retainedBytes"@, out.retained_bytes());
    let o = with_nat(o, "retainedCharacters"@, out.retained.len());
    let o = with_nat(o, "retainedStartOffset"@, out.start);
    let o = with_nat(o, "droppedPrefixBytes"@, out.dropped);
    let o = o.insert("sourceTruncated"@, json::JsonView::Bool(out.start > 0));
    o.insert(
        "available"@,
        json::JsonView::Bool(out.total_characters() == 0 || out.retained.len() > 0),
    )
}

/// A completed command as an object, without its output.
pub open spec fn row_object(row: command_history::CommandView) -> json::JsonView {
    let preview = command_history::preview_of(row.command, row.command_truncated);
    let o = Map::<Seq<char>, json::JsonView>::empty().insert(
        "commandId"@,
        json::JsonView::Text(row.id),
    );
    let o = o.insert("commandPreview"@, json::JsonView::Text(preview.0));
    let o = o.insert("commandTruncated"@, json::JsonView::Bool(preview.1));
    let o = o.insert("startedAt"@, json::JsonView::Number(row.started_at as int));
    let o = o.insert("endedAt"@, json::JsonView::Number(row.ended_at as int));
    let o = with_nat(o, "durationMs"@, row.duration_ms as nat);
    let o = o.insert("output"@, json::JsonView::Object(info_fields(row.output)));
    let o = json::with_text(o, "cwd"@, row.cwd);
    json::JsonView::Object(
        json::with_number(
            o,
            "exitCode"@,
            match row.exit_code {
                Some(code) => Some(code as int),
                None => None,
            },
        ),
    )
}

/// The completed commands as objects, newest first.
pub open spec fn row_objects(rows: Seq<command_history::CommandView>) -> Seq<json::JsonView> {
    Seq::new(rows.len(), |i: int| row_object(rows[rows.len() - 1 - i]))
}

/// What the list tool returns.
pub open spec fn listing(history: command_history::HistoryView) -> json::JsonView {
    json::JsonView::Object(
        Map::<Seq<char>, json::JsonView>::empty().insert(
            "commands"@,
            json::JsonView::Array(row_objects(history.completed)),
        ).insert("maxCommands"@, json::JsonView::Number(MAX_COMPLETED_COMMANDS as int)),
    )
}

/// A page of output as an object.
pub open spec fn page_object(page: command_history::PageView) -> json::JsonView {
    let o = info_fields(page.output).insert("commandId"@, json::JsonView::Text(page.id));
    let o = with_nat(o, "offset"@, page.offset);
    let o = with_nat(o, "nextOffset"@, page.next_offset);
    let o = o.insert("hasMore"@, json::JsonView::Bool(page.has_more));
    json::JsonView::Object(o.insert("content"@, json::JsonView::Text(page.content)))
}

/// A failure without details.
pub open spec fn failure(code: Seq<char>, message: Seq<char>) -> ToolErrorView {
    ToolErrorView { code, message, details: None }
}

/// The failure of an argument that is no number.
pub open spec fn bad_number(key: Seq<char>) -> ToolErrorView {
    failure("invalid_arguments"@, "\""@ + key + "\" must be a non-negative integer"@)
}

/// The failure of a page that is no longer retained.
pub open spec fn evicted(id: Seq<char>, earliest: nat) -> ToolErrorView {
    ToolErrorView {
        code: "output_evicted"@,
        message: "output before offset "@ + text::decimal(earliest)
            + " was discarded by the retention bounds"@,
        details: Some(
            json::JsonView::Object(
                with_nat(
                    Map::<Seq<char>, json::JsonView>::empty().insert(
                        "commandId"@,
                        json::JsonView::Text(id),
                    ),
                    "earliestOffset"@,
                    earliest,
                ),
            ),
        ),
    }
}

/// The failure of a command that is not there.
pub open spec fn not_found(id: Seq<char>) -> ToolErrorView {
    ToolErrorView {
        code: "command_not_found"@,
        message: "no completed command with id \""@ + id + "\"; call "@
            + TOOL_LIST_RECENT_COMMANDS@ + " for the current ids"@,
        details: Some(
            json::JsonView::Object(
                Map::<Seq<char>, json::JsonView>::empty().insert(
                    "commandId"@,
                    json::JsonView::Text(id),
                ),
            ),
        ),
    }
}

/// The failure of a tool that is not served. It names the whole reachable surface.
pub open spec fn unsupported(name: Seq<char>) -> ToolErrorView {
    ToolErrorView {
        code: "unsupported_tool"@,
        message: "this terminal does not serve a tool named \""@ + name + "\""@,
        details: Some(
            json::JsonView::Object(
                Map::<Seq<char>, json::JsonView>::empty().insert(
                    "supported"@,
                    json::JsonView::Array(
                        seq![
                            json::JsonView::Text(TOOL_LIST_RECENT_COMMANDS@),
                            json::JsonView::Text(TOOL_READ_COMMAND_OUTPUT@),
                        ],
                    ),
                ),
            ),
        ),
    }
}

/// An optional argument. One of a wrong type is rejected rather than coerced: silently
/// reading offset zero would hand the agent a page it did not ask for.
pub open spec fn optional_number(arguments: json::JsonView, key: Seq<char>) -> Result<
    Option<usize>,
    ToolErrorView,
> {
    match arguments.get(key) {
        None => Ok(None),
        Some(json::JsonView::Null) => Ok(None),
        Some(json::JsonView::Number(n)) => if n >= 0 {
            Ok(Some(n as usize))
        } else {
            Err(bad_number(key))
        },
        Some(_) => Err(bad_number(key)),
    }
}

/// What the read tool returns.
pub open spec fn reading(history: command_history::HistoryView, arguments: json::JsonView) -> Result<
    json::JsonView,
    ToolErrorView,
> {
    match arguments.get("commandId"@) {
        Some(json::JsonView::Text(id)) => match optional_number(arguments, "offset"@) {
            Err(e) => Err(e),
            Ok(offset) => match optional_number(arguments, "limit"@) {
                Err(e) => Err(e),
                Ok(limit) => if limit == Some(0usize) {
                    Err(failure("invalid_arguments"@, "\"limit\" must be at least 1"@))
                } else {
                    match history.page(id, offset, limit) {
                        Ok(page) => Ok(page_object(page)),
                        Err(ReadError::CommandNotFound) => Err(not_found(id)),
                        Err(ReadError::OutputEvicted { earliest_offset }) => Err(
                            evicted(id, earliest_offset as nat),
                        ),
                    }
                },
            },
        },
        _ => Err(
            failure("invalid_arguments"@, "\"commandId\" is required and must be a string"@),
        ),
    }
}

/// What a tool call returns.
pub open spec fn executed(
    history: command_history::HistoryView,
    tool_name: Seq<char>,
    arguments: json::JsonView,
) -> Result<json::JsonView, ToolErrorView> {
    if tool_name == TOOL_LIST_RECENT_COMMANDS@ {
        Ok(listing(history))
    } else if tool_name == TOOL_READ_COMMAND_OUTPUT@ {
        reading(history, arguments)
    } else {
        Err(unsupported(tool_name))
    }
}

/// The inventory that every request advertises.
pub open spec fn inventory(history: command_history::HistoryView) -> json::JsonView {
    let count = history.completed.len();
    let o = Map::<Seq<char>, json::JsonView>::empty().insert(
        "available"@,
        json::JsonView::Bool(count > 0),
    );
    let o = with_nat(o, "recentCompletedCount"@, count);
    let o = with_nat(o, "maxCommands"@, MAX_COMPLETED_COMMANDS as nat);
    let o = with_nat(o, "maxReadCharacters"@, MAX_READ_LIMIT as nat);
    json::JsonView::Object(
        json::with_text(
            o,
            "latestCommandId"@,
            if count > 0 {
                Some(history.completed.last().id)
            } else {
                None
            },
        ),
    )
}

/// Whether a result is what the model says.
pub open spec fn agrees(
    r: Result<Json, ToolError>,
    model: Result<json::JsonView, ToolErrorView>,
) -> bool {
    match model {
        Ok(v) => r is Ok && r->Ok_0@ == v,
        Err(e) => r is Err && r->Err_0@ == e,
    }
}

// ---------------------------------------------------------------------------
// Laws
// ---------------------------------------------------------------------------

/// The whole reachable surface is two readers: any other name is an error that says so,
/// whatever the arguments are.
pub proof fn other_tools_are_refused(
    history: command_history::HistoryView,
    tool_name: Seq<char>,
    arguments: json::JsonView,
)
    requires
        tool_name != TOOL_LIST_RECENT_COMMANDS@,
        tool_name != TOOL_READ_COMMAND_OUTPUT@,
    ensures
        executed(history, tool_name, arguments) == Err::<json::JsonView, ToolErrorView>(
            unsupported(tool_name),
        ),
{
}

/// The inventory names an id only where it can be read: reading the advertised command
/// finds it.
pub proof fn the_advertised_command_can_be_read(history: command_history::HistoryView)
    requires
        history.completed.len() > 0,
    ensures
        inventory(history).get("latestCommandId"@) == Some(
            json::JsonView::Text(history.completed.last().id),
        ),
        history.page(history.completed.last().id, None, None) is Ok,
{
    lemma_row_found(history.completed, history.completed.len() - 1);
}

proof fn lemma_row_found(rows: Seq<command_history::CommandView>, i: int)
    requires
        0 <= i < rows.len(),
    ensures
        command_history::row_with_id(rows, rows[i].id) is Some,
    decreases rows.len(),
{
    if rows[0].id != rows[i].id {
        lemma_row_found(rows.drop_first(), i - 1);
    }
}

// ---------------------------------------------------------------------------
// The tools
// ---------------------------------------------------------------------------

fn error(code: &str, message: &str) -> (r: ToolError)
    ensures
        r@ == failure(code@, message@),
{
    ToolError { code: code.to_owned(), message: message.to_owned(), details: None }
}

fn put_count(fields: &mut Vec<(String, Json)>, name: &str, n: usize)
    ensures
        json::field_map(final(fields)@) == with_nat(
            json::field_map(old(fields)@),
            name@,
            n as nat,
        ),
{
    put(fields, name, number(n as u64));
}

fn output_info_fields(info: &CommandOutputInfo, out: Ghost<command_history::OutputView>) -> (r: Vec<
    (String, Json),
>)
    requires
        info.describes(out@),
    ensures
        json::field_map(r@) == info_fields(out@),
{
    let mut fields: Vec<(String, Json)> = Vec::new();
    put(&mut fields, "format", text_value(info.format));
    put_count(&mut fields, "totalBytes", info.total_bytes);
    put_count(&mut fields, "totalCharacters", info.total_characters);
    put_count(&mut fields, "retainedBytes", info.retained_bytes);
    put_count(&mut fields, "retainedCharacters", info.retained_characters);
    put_count(&mut fields, "retainedStartOffset", info.retained_start_offset);
    put_count(&mut fields, "droppedPrefixBytes", info.dropped_prefix_bytes);
    put(&mut fields, "sourceTruncated", Json::Bool(info.source_truncated));
    put(&mut fields, "available", Json::Bool(info.available));
    fields
}

fn row_json(command: &CompletedCommand) -> (r: Json)
    requires
        command.wf(),
    ensures
        r@ == row_object(command@),
{
    let (preview, truncated) = command.command_preview();
    let info = command.output_info();
    let mut fields: Vec<(String, Json)> = Vec::new();
    put(&mut fields, "commandId", text_value(command.command_id.as_str()));
    put(&mut fields, "commandPreview", Json::Text(preview));
    put(&mut fields, "commandTruncated", Json::Bool(truncated));
    put(&mut fields, "startedAt", Json::Int(command.started_at));
    put(&mut fields, "endedAt", Json::Int(command.ended_at));
    put(&mut fields, "durationMs", number(command.duration_ms));
    put(
        &mut fields,
        "output",
        Json::Object(output_info_fields(&info, Ghost(command@.output))),
    );
    put_opt_text(&mut fields, "cwd", &command.cwd);
    if let Some(code) = command.exit_code {
        put(&mut fields, "exitCode", Json::Int(code as i64));
    }
    Json::Object(fields)
}

fn page_json(page: &ReadPage, view: Ghost<command_history::PageView>) -> (r: Json)
    requires
        page.shows(view@),
    ensures
        r@ == page_object(view@),
{
    let mut fields = output_info_fields(&page.info, Ghost(view@.output));
    put(&mut fields, "commandId", text_value(page.command_id.as_str()));
    put_count(&mut fields, "offset", page.offset);
    put_count(&mut fields, "nextOffset", page.next_offset);
    put(&mut fields, "hasMore", Json::Bool(page.has_more));
    put(&mut fields, "content", text_value(page.content.as_str()));
    Json::Object(fields)
}

fn bad_number_error(key: &str) -> (r: ToolError)
    ensures
        r@ == bad_number(key@),
{
    let mut message = String::new();
    message.append("\"");
    message.append(key);
    message.append("\" must be a non-negative integer");
    assert(message@ =~= "\""@ + key@ + "\" must be a non-negative integer"@);
    error("invalid_arguments", message.as_str())
}

/// Reads an optional non-negative integer argument. A present-but-wrong-typed value is
/// rejected rather than coerced.
fn optional_usize(arguments: &Json, key: &str) -> (r: Result<Option<usize>, ToolError>)
    ensures
        match optional_number(arguments@, key@) {
            Ok(n) => r == Ok::<Option<usize>, ToolError>(n),
            Err(e) => r is Err && r->Err_0@ == e,
        },
{
    match arguments.get(key) {
        None => Ok(None),
        Some(value) => match value {
            Json::Null => Ok(None),
            _ => match value.as_u64() {
                Some(n) => Ok(Some(n as usize)),
                None => Err(bad_number_error(key)),
            },
        },
    }
}

/// Executes one tool call against the terminal's own session state.
pub fn execute(state: &SessionState, tool_name: &str, arguments: &Json) -> (r: Result<
    Json,
    ToolError,
>)
    requires
        state.wf(),
    ensures
        agrees(r, executed(state@.history, tool_name@, arguments@)),
{
    let history = state.command_history();
    if same_text(tool_name, TOOL_LIST_RECENT_COMMANDS) {
        Ok(list_recent_commands(history))
    } else if same_text(tool_name, TOOL_READ_COMMAND_OUTPUT) {
        read_command_output(history, arguments)
    } else {
        let mut message = String::new();
        message.append("this terminal does not serve a tool named \"");
        message.append(tool_name);
        message.append("\"");
        let mut names: Vec<Json> = Vec::new();
        put_item(&mut names, text_value(TOOL_LIST_RECENT_COMMANDS));
        put_item(&mut names, text_value(TOOL_READ_COMMAND_OUTPUT));
        let mut details: Vec<(String, Json)> = Vec::new();
        proof {
            let model = seq![
                json::JsonView::Text(TOOL_LIST_RECENT_COMMANDS@),
                json::JsonView::Text(TOOL_READ_COMMAND_OUTPUT@),
            ];
            assert(json::json_views(names@) =~= model);
        }
        put(&mut details, "supported", Json::Array(names));
        let e = ToolError {
            code: "unsupported_tool".to_owned(),
            message,
            details: Some(Json::Object(details)),
        };
        assert(e@ =~= unsupported(tool_name@));
        Err(e)
    }
}

/// The completed-command index, newest first, without any output bodies. Listing is
/// cheap and bounded; the agent picks an id from it and pays for content only on the
/// read that follows.
fn list_recent_commands(history: &CommandHistory) -> (r: Json)
    requires
        history.wf(),
    ensures
        r@ == listing(history@),
{
    let rows = history.recent();
    let ghost completed = history@.completed;
    let mut commands: Vec<Json> = Vec::new();
    let mut i: usize = 0;
    assert(json::json_views(commands@) =~= row_objects(completed).take(0));
    while i < rows.len()
        invariant
            i <= rows@.len(),
            completed == history@.completed,
            rows@.len() == completed.len(),
            forall|k: int|
                0 <= k < rows@.len() ==> (#[trigger] rows@[k])@ == completed[rows@.len() - 1 - k]
                    && rows@[k].wf(),
            json::json_views(commands@) == row_objects(completed).take(i as int),
        decreases rows@.len() - i,
    {
        let row = rows[i];
        let item = row_json(row);
        put_item(&mut commands, item);
        i += 1;
        assert(json::json_views(commands@) =~= row_objects(completed).take(i as int));
    }
    assert(row_objects(completed).take(i as int) =~= row_objects(completed));
    let mut fields: Vec<(String, Json)> = Vec::new();
    put(&mut fields, "commands", Json::Array(commands));
    put_count(&mut fields, "maxCommands", MAX_COMPLETED_COMMANDS);
    Json::Object(fields)
}

fn not_found_error(command_id: &str) -> (r: ToolError)
    ensures
        r@ == not_found(command_id@),
{
    let mut message = String::new();
    message.append("no completed command with id \"");
    message.append(command_id);
    message.append("\"; call ");
    message.append(TOOL_LIST_RECENT_COMMANDS);
    message.append(" for the current ids");
    let mut details: Vec<(String, Json)> = Vec::new();
    put(&mut details, "commandId", text_value(command_id));
    let e = ToolError {
        code: "command_not_found".to_owned(),
        message,
        details: Some(Json::Object(details)),
    };
    assert(e@ =~= not_found(command_id@));
    e
}

fn evicted_error(command_id: &str, earliest_offset: usize) -> (r: ToolError)
    ensures
        r@ == evicted(command_id@, earliest_offset as nat),
{
    let mut message = String::new();
    message.append("output before offset ");
    push_decimal(&mut message, earliest_offset as u64);
    message.append(" was discarded by the retention bounds");
    let mut details: Vec<(String, Json)> = Vec::new();
    put(&mut details, "commandId", text_value(command_id));
    put_count(&mut details, "earliestOffset", earliest_offset);
    let e = ToolError {
        code: "output_evicted".to_owned(),
        message,
        details: Some(Json::Object(details)),
    };
    assert(e@ =~= evicted(command_id@, earliest_offset as nat));
    e
}

fn read_command_output(history: &CommandHistory, arguments: &Json) -> (r: Result<Json, ToolError>)
    requires
        history.wf(),
    ensures
        agrees(r, reading(history@, arguments@)),
{
    let id_value = match arguments.get("commandId") {
        Some(value) => value.as_str(),
        None => None,
    };
    let command_id = match id_value {
        Some(id) => id,
        None => {
            return Err(
                error("invalid_arguments", "\"commandId\" is required and must be a string"),
            );
        },
    };
    let offset = match optional_usize(arguments, "offset") {
        Ok(n) => n,
        Err(e) => {
            return Err(e);
        },
    };
    let limit = match optional_usize(arguments, "limit") {
        Ok(n) => n,
        Err(e) => {
            return Err(e);
        },
    };
    if let Some(n) = limit {
        if n == 0 {
            return Err(error("invalid_arguments", "\"limit\" must be at least 1"));
        }
    }
    match history.read(command_id, offset, limit) {
        Ok(page) => Ok(
            page_json(&page, Ghost(history@.page(command_id@, offset, limit)->Ok_0)),
        ),
        Err(ReadError::CommandNotFound) => Err(not_found_error(command_id)),
        // Naming the earliest available offset turns a dead end into a retry: the agent
        // re-asks precisely instead of guessing at the retained window.
        Err(ReadError::OutputEvicted { earliest_offset }) => Err(
            evicted_error(command_id, earliest_offset),
        ),
    }
}

/// The pushed inventory's command-output section. The agent fails to pull mostly because
/// it does not know what exists, so every request advertises availability, how many
/// commands are indexed, and the newest id, and advertises nothing when the index is
/// empty, so it never names an id that cannot be read.
pub fn pull_inventory(state: &SessionState) -> (r: Json)
    requires
        state.wf(),
    ensures
        r@ == inventory(state@.history),
{
    let history = state.command_history();
    let count: usize = history.completed_count();
    let mut fields: Vec<(String, Json)> = Vec::new();
    put(&mut fields, "available", Json::Bool(count > 0));
    put_count(&mut fields, "recentCompletedCount", count);
    put_count(&mut fields, "maxCommands", MAX_COMPLETED_COMMANDS);
    put_count(&mut fields, "maxReadCharacters", MAX_READ_LIMIT);
    if let Some(latest) = history.latest_command_id() {
        put(&mut fields, "latestCommandId", text_value(latest));
    }
    Json::Object(fields)
}

} // verus!
