//! `koshell model`: live model discovery, scripted selection, and a searchable picker.
//! Provider semantics remain on the daemon's side; this end asks, lists, and lets the
//! user choose.

use crate::auth_cli;
use crate::auth_cli::{Launch, CLOSED_EARLY};
use crate::cli::ModelAction;
use crate::daemon_cli;
use crate::daemon_cli::{led, push_line, Report};
use crate::proto::{ClientMessage, ModelCatalogEntry, ServerMessage, PROTOCOL_VERSION};
use crate::text;
use crate::text::{
    chars_of, contains_text, decimal_text, push_aligned, push_decimal, push_padded, same_text,
    string_of, to_lower,
};
use vstd::prelude::*;
use vstd::slice::slice_subrange;

verus! {

/// How long to wait for the `ack` before concluding the daemon predates the model
/// messages, in milliseconds.
pub const ACK_TIMEOUT: u64 = 2_000;

/// What to tell the user of a daemon that never acknowledges.
pub const TOO_OLD_HINT: &'static str =
    "the AI daemon did not answer the model request; restart it with `koshell daemon restart` so the upgraded daemon is picked up";

/// What to tell the user of a `--session-only` in the wrong place.
pub const MISPLACED_FLAG: &'static str =
    "place --session-only after `model set`, or omit the subcommand for the picker";

/// What to tell the user of a session-only selection outside koshell.
pub const OUTSIDE_SESSION: &'static str = "--session-only must be run inside a koshell session";

/// What to tell a script that opens the picker.
pub const NOT_A_TERMINAL: &'static str =
    "the interactive picker requires a terminal; use `koshell model list` and `koshell model set <provider/id>` in scripts";

/// What to tell the user of an empty picker.
pub const NO_MODELS: &'static str =
    "no credential-available models found; run `koshell model list --all`, configure credentials, and restart the daemon if you exported a key after it started";

// ---------------------------------------------------------------------------
// What to do
// ---------------------------------------------------------------------------

/// What a command line asks for.
#[derive(Debug, Clone, PartialEq, Eq)]
pub enum ModelTask {
    /// Open the picker.
    Pick { session_only: bool },
    Show,
    List { all: bool, query: Option<String> },
    Select { model: String, session_only: bool },
}

/// What a command line asks for; an error where the flag stands before a subcommand,
/// which exits with 2.
pub fn run(root_session_only: bool, action: Option<ModelAction>) -> (r: Result<
    ModelTask,
    &'static str,
>)
    ensures
        match r {
            Err(message) => root_session_only && action is Some && message@ == MISPLACED_FLAG@,
            Ok(task) => !(root_session_only && action is Some) && match action {
                None => task == ModelTask::Pick { session_only: root_session_only },
                Some(ModelAction::Show) => task == ModelTask::Show,
                Some(ModelAction::List { all, query }) => task == (ModelTask::List { all, query }),
                Some(ModelAction::Select { model, session_only }) => task == (ModelTask::Select {
                    model,
                    session_only,
                }),
            },
        },
{
    if root_session_only && action.is_some() {
        return Err(MISPLACED_FLAG);
    }
    Ok(
        match action {
            None => ModelTask::Pick { session_only: root_session_only },
            Some(ModelAction::Show) => ModelTask::Show,
            Some(ModelAction::List { all, query }) => ModelTask::List { all, query },
            Some(ModelAction::Select { model, session_only }) => ModelTask::Select {
                model,
                session_only,
            },
        },
    )
}

/// What is printed of a launch.
pub open spec fn launch_lines(launch: Launch) -> daemon_cli::ReportView {
    match launch {
        Launch::Unresolved => daemon_cli::complains(
            seq![
                "the AI daemon is not running and no launch command resolved."@,
                "  set KOSHELL_DAEMON_CMD, or install koshell-ai-daemon next to koshell, then run `koshell daemon start`."@,
            ],
        ),
        Launch::Refused(error) => daemon_cli::complains(
            seq!["failed to start the AI daemon: "@ + error@],
        ),
        Launch::Unreachable => daemon_cli::complains(
            seq!["started the AI daemon, but it did not become reachable in time."@],
        ),
        _ => daemon_cli::silent(),
    }
}

/// Reports how reaching the daemon went, and whether there is one to talk to. A start
/// that went well is not worth a line here: the answer follows at once.
pub fn ensure_daemon(launch: &Launch) -> (r: (Report, bool))
    ensures
        r.0@ == launch_lines(*launch),
        r.1 == auth_cli::reached(*launch),
{
    let mut err: Vec<String> = Vec::new();
    let mut ok = false;
    match launch {
        Launch::Unresolved => {
            push_line(
                &mut err,
                "the AI daemon is not running and no launch command resolved.".to_owned(),
            );
            push_line(
                &mut err,
                "  set KOSHELL_DAEMON_CMD, or install koshell-ai-daemon next to koshell, then run `koshell daemon start`.".to_owned(),
            );
        },
        Launch::Refused(error) => {
            push_line(&mut err, led("failed to start the AI daemon: ", error.as_str()));
        },
        Launch::Unreachable => {
            push_line(
                &mut err,
                "started the AI daemon, but it did not become reachable in time.".to_owned(),
            );
        },
        _ => {
            ok = true;
        },
    }
    let r = Report { out: Vec::new(), err };
    assert(r@ =~= launch_lines(*launch));
    (r, ok)
}

// ---------------------------------------------------------------------------
// The exchange
// ---------------------------------------------------------------------------

/// The id of this process's requests.
pub open spec fn request_name(pid: u32) -> Seq<char> {
    "koshell-model-"@ + text::decimal(pid as nat)
}

/// The id of this process's requests.
pub fn next_request_id(pid: u32) -> (r: String)
    ensures
        r@ == request_name(pid),
{
    let mut out = String::new();
    out.append("koshell-model-");
    push_decimal(&mut out, pid as u64);
    assert(out@ =~= request_name(pid));
    out
}

/// The handshake of a model connection.
pub fn model_hello(pid: u32, cwd: String, rows: u16, cols: u16) -> (r: ClientMessage)
    ensures
        match r {
            ClientMessage::Hello {
                protocol_version,
                terminal_session_id,
                cwd: at,
                shell,
                rows: r1,
                cols: c1,
                capabilities,
            } => {
                &&& protocol_version == PROTOCOL_VERSION
                &&& terminal_session_id@ == request_name(pid)
                &&& at == cwd
                &&& shell@ == "koshell-model"@
                &&& r1 == rows
                &&& c1 == cols
                &&& capabilities@.len() == 0
            },
            _ => false,
        },
{
    ClientMessage::Hello {
        protocol_version: PROTOCOL_VERSION,
        terminal_session_id: next_request_id(pid),
        cwd,
        shell: "koshell-model".to_owned(),
        rows,
        cols,
        capabilities: Vec::new(),
    }
}

/// Something that was read from the daemon.
#[derive(Debug, Clone, PartialEq, Eq)]
pub enum Incoming {
    /// A line; `None` where it is no message this end knows.
    Message(Option<ServerMessage>),
    /// The daemon closed the connection.
    Closed,
    /// The daemon was silent for too long.
    TimedOut,
    /// Reading failed; the error's own words.
    Failed(String),
}

/// Where an exchange stands.
#[derive(Debug, Clone, PartialEq, Eq)]
pub enum Exchange {
    /// Nothing was acknowledged yet; wait for at most [`ACK_TIMEOUT`].
    AwaitAck,
    /// The answer is to come; wait as long as it takes.
    AwaitReply,
    /// The answer.
    Answered(ServerMessage),
    /// There will be none.
    Failed(String),
}

/// The model of an exchange.
pub enum ExchangeView {
    AwaitAck,
    AwaitReply,
    Answered(ServerMessage),
    Failed(Seq<char>),
}

impl View for Exchange {
    type V = ExchangeView;

    open spec fn view(&self) -> ExchangeView {
        match *self {
            Exchange::AwaitAck => ExchangeView::AwaitAck,
            Exchange::AwaitReply => ExchangeView::AwaitReply,
            Exchange::Answered(m) => ExchangeView::Answered(m),
            Exchange::Failed(e) => ExchangeView::Failed(e@),
        }
    }
}

/// Whether a message answers a request.
pub open spec fn replies_to(message: ServerMessage, request_id: Seq<char>) -> bool {
    match message {
        ServerMessage::ModelCatalog { request_id: id, .. } => id@ == request_id,
        ServerMessage::ModelState { request_id: id, .. } => id@ == request_id,
        ServerMessage::ModelResult { request_id: id, .. } => id@ == request_id,
        _ => false,
    }
}

/// What was read, taken in.
pub open spec fn received(exchange: ExchangeView, request_id: Seq<char>, incoming: Incoming) -> ExchangeView {
    match (exchange, incoming) {
        (ExchangeView::AwaitAck, Incoming::Message(Some(message))) => match message {
            ServerMessage::Ack { request_id: id } => if id@ == request_id {
                ExchangeView::AwaitReply
            } else {
                exchange
            },
            _ => exchange,
        },
        (ExchangeView::AwaitAck, Incoming::Closed) => ExchangeView::Failed(TOO_OLD_HINT@),
        (ExchangeView::AwaitReply, Incoming::Message(Some(message))) => if replies_to(
            message,
            request_id,
        ) {
            ExchangeView::Answered(message)
        } else {
            exchange
        },
        (ExchangeView::AwaitReply, Incoming::Closed) => ExchangeView::Failed(CLOSED_EARLY@),
        (ExchangeView::Answered(_), _) => exchange,
        (ExchangeView::Failed(_), _) => exchange,
        (_, Incoming::TimedOut) => ExchangeView::Failed(TOO_OLD_HINT@),
        (_, Incoming::Failed(error)) => ExchangeView::Failed(error@),
        _ => exchange,
    }
}

fn is_reply(message: &ServerMessage, request_id: &str) -> (r: bool)
    ensures
        r == replies_to(*message, request_id@),
{
    match message {
        ServerMessage::ModelCatalog { request_id: id, .. } => same_text(id.as_str(), request_id),
        ServerMessage::ModelState { request_id: id, .. } => same_text(id.as_str(), request_id),
        ServerMessage::ModelResult { request_id: id, .. } => same_text(id.as_str(), request_id),
        _ => false,
    }
}

/// Takes in what was read of an exchange over a request.
pub fn request(exchange: Exchange, request_id: &str, incoming: Incoming) -> (r: Exchange)
    ensures
        r@ == received(exchange@, request_id@, incoming),
{
    match (exchange, incoming) {
        (Exchange::AwaitAck, Incoming::Message(Some(message))) => match message {
            ServerMessage::Ack { request_id: id } => if same_text(id.as_str(), request_id) {
                Exchange::AwaitReply
            } else {
                Exchange::AwaitAck
            },
            _ => Exchange::AwaitAck,
        },
        (Exchange::AwaitAck, Incoming::Closed) => Exchange::Failed(TOO_OLD_HINT.to_owned()),
        (Exchange::AwaitReply, Incoming::Message(Some(message))) => if is_reply(
            &message,
            request_id,
        ) {
            Exchange::Answered(message)
        } else {
            Exchange::AwaitReply
        },
        (Exchange::AwaitReply, Incoming::Closed) => Exchange::Failed(CLOSED_EARLY.to_owned()),
        (Exchange::Answered(message), _) => Exchange::Answered(message),
        (Exchange::Failed(error), _) => Exchange::Failed(error),
        (_, Incoming::TimedOut) => Exchange::Failed(TOO_OLD_HINT.to_owned()),
        (_, Incoming::Failed(error)) => Exchange::Failed(error),
        (waiting, _) => waiting,
    }
}

// ---------------------------------------------------------------------------
// Requests and answers
// ---------------------------------------------------------------------------

/// Why an answer is none.
#[derive(Debug, Clone, PartialEq, Eq)]
pub enum ModelError {
    /// The daemon refused; its own words.
    Refused(String),
    /// The daemon answered another question.
    Unexpected(ServerMessage),
    /// A session-only selection outside koshell.
    OutsideSession,
}

/// The request for the catalog.
pub fn list_request(request_id: String, all: bool, query: Option<String>) -> (r: ClientMessage)
    ensures
        r == (ClientMessage::ModelList { request_id, all, query }),
{
    ClientMessage::ModelList { request_id, all, query }
}

/// The request for the configured and the active model.
pub fn show_request(request_id: String, session_id: Option<String>) -> (r: ClientMessage)
    ensures
        r == (ClientMessage::ModelShow { request_id, session_id }),
{
    ClientMessage::ModelShow { request_id, session_id }
}

/// The request to select a model: a session-only selection needs a session.
pub fn set_request(
    request_id: String,
    model: String,
    session_id: Option<String>,
    session_only: bool,
) -> (r: Result<ClientMessage, ModelError>)
    ensures
        r == (if session_only && session_id is None {
            Err(ModelError::OutsideSession)
        } else {
            Ok(ClientMessage::ModelSet { request_id, model, session_id, session_only })
        }),
{
    if session_only && session_id.is_none() {
        return Err(ModelError::OutsideSession);
    }
    Ok(ClientMessage::ModelSet { request_id, model, session_id, session_only })
}

/// The catalog in an answer, with the configured model.
pub fn fetch_catalog(reply: ServerMessage) -> (r: Result<
    (Option<String>, Vec<ModelCatalogEntry>),
    ModelError,
>)
    ensures
        r == (match reply {
            ServerMessage::ModelCatalog { request_id, configured_model, entries } => Ok(
                (configured_model, entries),
            ),
            ServerMessage::ModelResult { request_id, ok, message } => Err(
                ModelError::Refused(message),
            ),
            _ => Err(ModelError::Unexpected(reply)),
        }),
{
    match reply {
        ServerMessage::ModelCatalog { request_id: _, configured_model, entries } => Ok(
            (configured_model, entries),
        ),
        ServerMessage::ModelResult { request_id: _, ok: _, message } => Err(
            ModelError::Refused(message),
        ),
        other => Err(ModelError::Unexpected(other)),
    }
}

/// The row of a model.
pub open spec fn catalog_row(e: ModelCatalogEntry) -> Seq<char> {
    text::padded(e.model_ref@, 58) + " "@ + text::padded(
        if e.available {
            "ready"@
        } else {
            "no credentials"@
        },
        16,
    ) + " "@ + text::right_aligned(text::decimal((e.context_window / 1_000) as nat), 7) + "k  "@
        + e.name@
}

fn row_of(e: &ModelCatalogEntry) -> (r: String)
    ensures
        r@ == catalog_row(*e),
{
    let mut out = String::new();
    push_padded(&mut out, e.model_ref.as_str(), 58);
    out.append(" ");
    push_padded(
        &mut out,
        if e.available {
            "ready"
        } else {
            "no credentials"
        },
        16,
    );
    out.append(" ");
    push_aligned(&mut out, decimal_text(e.context_window / 1_000).as_str(), 7);
    out.append("k  ");
    out.append(e.name.as_str());
    assert(out@ =~= catalog_row(*e));
    out
}

/// The lines of a catalog, a model each.
pub fn run_list(entries: &Vec<ModelCatalogEntry>) -> (r: Vec<String>)
    ensures
        text::texts(r@) == entries@.map_values(|e: ModelCatalogEntry| catalog_row(e)),
{
    let mut lines: Vec<String> = Vec::new();
    let mut i: usize = 0;
    while i < entries.len()
        invariant
            i <= entries@.len(),
            text::texts(lines@) == entries@.take(i as int).map_values(
                |e: ModelCatalogEntry| catalog_row(e),
            ),
        decreases entries@.len() - i,
    {
        let ghost before = lines@;
        push_line(&mut lines, row_of(&entries[i]));
        i += 1;
        assert(text::texts(lines@) =~= entries@.take(i as int).map_values(
            |e: ModelCatalogEntry| catalog_row(e),
        ));
    }
    assert(entries@.take(i as int) =~= entries@);
    lines
}

/// The lines that show the configured and the active model.
pub open spec fn shown_lines(
    configured: Option<Seq<char>>,
    active: Option<Seq<char>>,
    conversation: bool,
    in_session: bool,
) -> Seq<Seq<char>> {
    seq![
        "configured default: "@ + match configured {
            Some(m) => m,
            None => "—"@,
        },
    ] + if in_session {
        seq![
            "active conversation: "@ + if conversation {
                match active {
                    Some(m) => m,
                    None => "—"@,
                }
            } else {
                "— (no conversation yet)"@
            },
        ]
    } else {
        seq![]
    }
}

fn or_dash(s: &Option<String>) -> (r: &str)
    ensures
        r@ == (match *s {
            Some(m) => m@,
            None => "—"@,
        }),
{
    match s {
        Some(m) => m.as_str(),
        None => "—",
    }
}

/// The lines that show the configured and the active model; the active one only inside a
/// session.
pub fn run_show(reply: ServerMessage, in_session: bool) -> (r: Result<Vec<String>, ModelError>)
    ensures
        match reply {
            ServerMessage::ModelState { configured_model, active_model, conversation, .. } => r is Ok
                && text::texts(r->Ok_0@) == shown_lines(
                text::opt_text(configured_model),
                text::opt_text(active_model),
                conversation,
                in_session,
            ),
            ServerMessage::ModelResult { message, .. } => r == Err::<Vec<String>, ModelError>(
                ModelError::Refused(message),
            ),
            _ => r == Err::<Vec<String>, ModelError>(ModelError::Unexpected(reply)),
        },
{
    match reply {
        ServerMessage::ModelState {
            request_id: _,
            configured_model,
            active_model,
            conversation,
        } => {
            let mut lines: Vec<String> = Vec::new();
            push_line(&mut lines, led("configured default: ", or_dash(&configured_model)));
            if in_session {
                let active = if conversation {
                    or_dash(&active_model)
                } else {
                    "— (no conversation yet)"
                };
                push_line(&mut lines, led("active conversation: ", active));
            }
            assert(text::texts(lines@) =~= shown_lines(
                text::opt_text(configured_model),
                text::opt_text(active_model),
                conversation,
                in_session,
            ));
            Ok(lines)
        },
        ServerMessage::ModelResult { request_id: _, ok: _, message } => Err(
            ModelError::Refused(message),
        ),
        other => Err(ModelError::Unexpected(other)),
    }
}

/// The line and the exit code of a selection.
pub fn run_set(reply: ServerMessage) -> (r: Result<(String, i32), ModelError>)
    ensures
        r == (match reply {
            ServerMessage::ModelResult { request_id, ok, message } => Ok(
                (
                    message,
                    if ok {
                        0i32
                    } else {
                        1i32
                    },
                ),
            ),
            _ => Err(ModelError::Unexpected(reply)),
        }),
{
    match reply {
        ServerMessage::ModelResult { request_id: _, ok, message } => Ok(
            (
                message,
                if ok {
                    0
                } else {
                    1
                },
            ),
        ),
        other => Err(ModelError::Unexpected(other)),
    }
}

// ---------------------------------------------------------------------------
// The picker
// ---------------------------------------------------------------------------

/// What was typed and which row is selected.
#[derive(Debug, Clone, PartialEq, Eq)]
pub struct PickerState {
    pub query: String,
    pub selected: usize,
}

/// A key press.
#[derive(Debug, Clone, Copy, PartialEq, Eq, Structural)]
pub enum PickerKey {
    Esc,
    Enter,
    Up,
    Down,
    Backspace,
    Char { character: char, control: bool, alt: bool },
    Other,
}

/// What a key press leads to.
#[derive(Debug, Clone, PartialEq, Eq)]
pub enum PickerOutcome {
    /// The picker stays open.
    Open,
    /// The picker closes, with a model chosen or none.
    Closed(Option<String>),
}

/// A row of the picker.
#[derive(Debug, Clone, PartialEq, Eq)]
pub struct PickerRow {
    pub text: String,
    pub selected: bool,
}

/// The picker as drawn.
#[derive(Debug, Clone, PartialEq, Eq)]
pub struct PickerFrame {
    pub default_line: String,
    pub search_line: String,
    pub rows: Vec<PickerRow>,
    /// The screen row of the key help.
    pub help_row: u16,
}

/// The title of the picker.
pub const PICKER_TITLE: &'static str = "Select a Koshell model";

/// The key help of the picker.
pub const PICKER_HELP: &'static str = "Type to filter · ↑/↓ move · Enter select · Esc cancel";

/// The screen rows that the picker needs besides its entries.
pub const PICKER_CHROME: u16 = 6;

/// Whether a query is empty or occurs in one of the names that a model goes by.
pub open spec fn found_in(
    query: Seq<char>,
    model_ref: Seq<char>,
    provider: Seq<char>,
    id: Seq<char>,
    name: Seq<char>,
) -> bool {
    query.len() == 0 || text::occurs(query, model_ref) || text::occurs(query, provider)
        || text::occurs(query, id) || text::occurs(query, name)
}

/// Whether a model matches a lowercase query.
pub open spec fn matches_query(query: Seq<char>, e: ModelCatalogEntry) -> bool {
    found_in(
        query,
        text::lowered(e.model_ref@),
        text::lowered(e.provider@),
        text::lowered(e.id@),
        text::lowered(e.name@),
    )
}

/// The models that match a lowercase query, in order.
pub open spec fn kept(entries: Seq<ModelCatalogEntry>, query: Seq<char>) -> Seq<ModelCatalogEntry>
    decreases entries.len(),
{
    if entries.len() == 0 {
        seq![]
    } else {
        let rest = kept(entries.drop_last(), query);
        if matches_query(query, entries.last()) {
            rest.push(entries.last())
        } else {
            rest
        }
    }
}

/// The models behind some references.
pub open spec fn behind(v: Seq<&ModelCatalogEntry>) -> Seq<ModelCatalogEntry> {
    v.map_values(|e: &ModelCatalogEntry| *e)
}

/// The model of the picker: the query, and the selected row.
pub struct PickerView {
    pub query: Seq<char>,
    pub selected: nat,
}

impl View for PickerState {
    type V = PickerView;

    open spec fn view(&self) -> PickerView {
        PickerView { query: self.query@, selected: self.selected as nat }
    }
}

impl PickerView {
    /// The models shown.
    pub open spec fn listed(self, entries: Seq<ModelCatalogEntry>) -> Seq<ModelCatalogEntry> {
        kept(entries, text::lowered(self.query))
    }

    /// The selection moved back onto the rows.
    pub open spec fn clamped(self, count: nat) -> PickerView {
        PickerView {
            selected: if self.selected < count {
                self.selected
            } else if count > 0 {
                (count - 1) as nat
            } else {
                0
            },
            ..self
        }
    }

    /// A key pressed, with that list shown.
    pub open spec fn pressed(self, shown: Seq<ModelCatalogEntry>, key: PickerKey) -> (
        PickerView,
        Option<Option<Seq<char>>>,
    ) {
        match key {
            PickerKey::Esc => (self, Some(None)),
            PickerKey::Enter => (
                self,
                Some(
                    if self.selected < shown.len() {
                        Some(shown[self.selected as int].model_ref@)
                    } else {
                        None
                    },
                ),
            ),
            PickerKey::Up => (
                PickerView {
                    selected: if self.selected > 0 {
                        (self.selected - 1) as nat
                    } else {
                        0
                    },
                    ..self
                },
                None,
            ),
            PickerKey::Down => (
                PickerView {
                    selected: if self.selected + 1 < shown.len() {
                        self.selected + 1
                    } else {
                        self.selected
                    },
                    ..self
                },
                None,
            ),
            PickerKey::Backspace => (
                PickerView {
                    query: if self.query.len() > 0 {
                        self.query.drop_last()
                    } else {
                        self.query
                    },
                    selected: 0,
                },
                None,
            ),
            PickerKey::Char { character, control, alt } => if control && character == 'c' {
                (self, Some(None))
            } else if control || alt {
                (self, None)
            } else {
                (PickerView { query: self.query.push(character), selected: 0 }, None)
            },
            PickerKey::Other => (self, None),
        }
    }
}

/// The model that an outcome closes the picker with.
pub open spec fn outcome_view(outcome: PickerOutcome) -> Option<Option<Seq<char>>> {
    match outcome {
        PickerOutcome::Open => None,
        PickerOutcome::Closed(choice) => Some(text::opt_text(choice)),
    }
}

/// How many rows are visible on a screen of that height.
pub open spec fn visible_rows(height: u16) -> nat {
    if height > PICKER_CHROME + 1 {
        (height - PICKER_CHROME) as nat
    } else {
        1
    }
}

/// The first row drawn, so that the selected one is visible.
pub open spec fn first_row(selected: nat, height: u16) -> nat {
    if selected + 1 > visible_rows(height) {
        (selected + 1 - visible_rows(height)) as nat
    } else {
        0
    }
}

/// The row past the last one drawn.
pub open spec fn past_row(selected: nat, count: nat, height: u16) -> nat {
    let end = first_row(selected, height) + visible_rows(height);
    if end < count {
        end
    } else {
        count
    }
}

/// The text of a row, before it is cut.
pub open spec fn row_text(e: ModelCatalogEntry, selected: bool, configured: Option<Seq<char>>) -> Seq<char> {
    (if selected {
        "> "@
    } else {
        "  "@
    }) + e.model_ref@ + " — "@ + e.name@ + (if configured == Some(e.model_ref@) {
        " *"@
    } else {
        ""@
    })
}

/// A text cut to a width.
pub open spec fn cut(s: Seq<char>, width: u16) -> Seq<char> {
    if s.len() > width {
        s.take(width as int)
    } else {
        s
    }
}

/// Whether a row is drawn as it should be.
pub open spec fn row_drawn(
    row: PickerRow,
    shown: Seq<ModelCatalogEntry>,
    index: int,
    selected: nat,
    configured: Option<Seq<char>>,
    width: u16,
) -> bool {
    row.selected == (index == selected) && row.text@ == cut(
        row_text(shown[index], index == selected, configured),
        width,
    )
}

// ---------------------------------------------------------------------------
// Laws of the picker
// ---------------------------------------------------------------------------

/// The picker lists exactly the models that match what was typed.
pub proof fn the_list_is_exactly_what_matches(
    entries: Seq<ModelCatalogEntry>,
    query: Seq<char>,
    e: ModelCatalogEntry,
)
    ensures
        kept(entries, query).contains(e) <==> entries.contains(e) && matches_query(query, e),
    decreases entries.len(),
{
    if entries.len() > 0 {
        let front = entries.drop_last();
        the_list_is_exactly_what_matches(front, query, e);
        let last = entries.last();
        let rest = kept(front, query);
        assert(entries =~= front.push(last));
        assert(entries.contains(e) <==> front.contains(e) || last == e) by {
            if front.contains(e) {
                let i = front.index_of(e);
                assert(entries[i] == e);
            }
            if last == e {
                assert(entries[entries.len() - 1] == e);
            }
            if entries.contains(e) {
                let i = entries.index_of(e);
                assert(entries[i] == e);
                if i < front.len() {
                    assert(front[i] == e);
                }
            }
        }
        if matches_query(query, last) {
            let all = rest.push(last);
            assert(all.contains(e) <==> rest.contains(e) || last == e) by {
                if rest.contains(e) {
                    let i = rest.index_of(e);
                    assert(all[i] == e);
                }
                if last == e {
                    assert(all[all.len() - 1] == e);
                }
                if all.contains(e) {
                    let i = all.index_of(e);
                    assert(all[i] == e);
                    if i < rest.len() {
                        assert(rest[i] == e);
                    }
                }
            }
        }
    }
}

/// A query of nothing lists every model.
pub proof fn an_empty_query_lists_everything(entries: Seq<ModelCatalogEntry>)
    ensures
        kept(entries, seq![]) == entries,
    decreases entries.len(),
{
    if entries.len() > 0 {
        an_empty_query_lists_everything(entries.drop_last());
        assert(entries.drop_last().push(entries.last()) =~= entries);
    }
}

/// Whatever is pressed, a model that comes out of the picker is one of those listed.
pub proof fn a_chosen_model_was_listed(
    state: PickerView,
    entries: Seq<ModelCatalogEntry>,
    key: PickerKey,
)
    ensures
        state.pressed(state.listed(entries), key).1 matches Some(Some(model)) ==> exists|i: int|
            0 <= i < entries.len() && (#[trigger] entries[i]).model_ref@ == model && matches_query(
                text::lowered(state.query),
                entries[i],
            ),
{
    let shown = state.listed(entries);
    if key is Enter && state.selected < shown.len() {
        let e = shown[state.selected as int];
        assert(shown.contains(e));
        the_list_is_exactly_what_matches(entries, text::lowered(state.query), e);
        let i = entries.index_of(e);
        assert(entries[i] == e);
    }
}

/// However small the screen, the selected row is among those drawn.
pub proof fn the_selected_row_is_drawn(selected: nat, count: nat, height: u16)
    requires
        selected < count,
    ensures
        first_row(selected, height) <= selected < past_row(selected, count, height),
{
}

/// Moving, typing and deleting keep the selection on the rows, once it is moved back
/// onto them.
pub proof fn the_selection_stays_on_the_rows(
    state: PickerView,
    entries: Seq<ModelCatalogEntry>,
    key: PickerKey,
)
    ensures
        ({
            let shown = state.listed(entries);
            let next = state.clamped(shown.len()).pressed(shown, key).0;
            let rows = next.listed(entries);
            rows.len() > 0 ==> next.clamped(rows.len()).selected < rows.len()
        }),
{
}

// ---------------------------------------------------------------------------
// The picker at work
// ---------------------------------------------------------------------------

/// Whether a query occurs in what a model goes by, all of it in lower case. An empty one
/// occurs everywhere.
pub fn occurs_in_any(query: &str, model_ref: &str, provider: &str, id: &str, name: &str) -> (r:
    bool)
    ensures
        r == found_in(query@, model_ref@, provider@, id@, name@),
{
    query.unicode_len() == 0 || contains_text(model_ref, query) || contains_text(provider, query)
        || contains_text(id, query) || contains_text(name, query)
}

fn is_match(query: &str, e: &ModelCatalogEntry) -> (r: bool)
    ensures
        r == matches_query(query@, *e),
{
    occurs_in_any(
        query,
        to_lower(e.model_ref.as_str()).as_str(),
        to_lower(e.provider.as_str()).as_str(),
        to_lower(e.id.as_str()).as_str(),
        to_lower(e.name.as_str()).as_str(),
    )
}

impl PickerState {
    /// Nothing typed, the first row selected.
    pub fn new() -> (r: Self)
        ensures
            r@ == (PickerView { query: seq![], selected: 0 }),
    {
        let r = PickerState { query: String::new(), selected: 0 };
        assert(r.query@ =~= seq![]);
        r
    }

    /// The models that match what was typed, in order.
    pub fn filtered<'a>(&self, entries: &'a [ModelCatalogEntry]) -> (r: Vec<&'a ModelCatalogEntry>)
        ensures
            behind(r@) == self@.listed(entries@),
    {
        let query = to_lower(self.query.as_str());
        let mut out: Vec<&'a ModelCatalogEntry> = Vec::new();
        let mut i: usize = 0;
        assert(behind(out@) =~= kept(entries@.take(0), query@));
        while i < entries.len()
            invariant
                i <= entries@.len(),
                behind(out@) == kept(entries@.take(i as int), query@),
            decreases entries@.len() - i,
        {
            let ghost before = out@;
            assert(entries@.take(i + 1).drop_last() =~= entries@.take(i as int));
            assert(entries@.take(i + 1).last() == entries@[i as int]);
            if is_match(query.as_str(), &entries[i]) {
                out.push(&entries[i]);
                assert(behind(out@) =~= behind(before).push(entries@[i as int]));
            }
            i += 1;
        }
        assert(entries@.take(i as int) =~= entries@);
        out
    }

    /// Moves the selection back onto the rows.
    pub fn clamp(&mut self, len: usize)
        ensures
            final(self)@ == old(self)@.clamped(len as nat),
    {
        if self.selected >= len {
            self.selected = if len > 0 {
                len - 1
            } else {
                0
            };
        }
    }

    /// Takes a key press, with the models of a catalog that match shown.
    pub fn pick_model(&mut self, entries: &[ModelCatalogEntry], key: PickerKey) -> (r: PickerOutcome)
        ensures
            (final(self)@, outcome_view(r)) == ({
                let shown = old(self)@.listed(entries@);
                old(self)@.clamped(shown.len()).pressed(shown, key)
            }),
    {
        let shown = self.filtered(entries);
        let ghost list = self@.listed(entries@);
        assert(behind(shown@).len() == shown@.len());
        self.clamp(shown.len());
        match key {
            PickerKey::Esc => PickerOutcome::Closed(None),
            PickerKey::Enter => if self.selected < shown.len() {
                assert(behind(shown@)[self.selected as int] == *shown@[self.selected as int]);
                PickerOutcome::Closed(Some(shown[self.selected].model_ref.clone()))
            } else {
                PickerOutcome::Closed(None)
            },
            PickerKey::Up => {
                if self.selected > 0 {
                    self.selected = self.selected - 1;
                }
                PickerOutcome::Open
            },
            PickerKey::Down => {
                if self.selected < shown.len() && self.selected + 1 < shown.len() {
                    self.selected = self.selected + 1;
                }
                PickerOutcome::Open
            },
            PickerKey::Backspace => {
                let chars = chars_of(self.query.as_str());
                if chars.len() > 0 {
                    self.query = string_of(slice_subrange(chars.as_slice(), 0, chars.len() - 1));
                    assert(self.query@ =~= old(self).query@.drop_last());
                }
                self.selected = 0;
                PickerOutcome::Open
            },
            PickerKey::Char { character, control, alt } => if control && character == 'c' {
                PickerOutcome::Closed(None)
            } else if control || alt {
                PickerOutcome::Open
            } else {
                self.query.push(character);
                self.selected = 0;
                PickerOutcome::Open
            },
            PickerKey::Other => PickerOutcome::Open,
        }
    }
}

fn cut_to(s: &str, width: u16) -> (r: String)
    ensures
        r@ == cut(s@, width),
{
    let chars = chars_of(s);
    if chars.len() > width as usize {
        let r = string_of(slice_subrange(chars.as_slice(), 0, width as usize));
        assert(r@ =~= s@.take(width as int));
        r
    } else {
        s.to_owned()
    }
}

fn picker_row(e: &ModelCatalogEntry, selected: bool, configured: Option<&str>, width: u16) -> (r:
    PickerRow)
    ensures
        r.selected == selected,
        r.text@ == cut(
            row_text(
                *e,
                selected,
                match configured {
                    Some(c) => Some(c@),
                    None => None,
                },
            ),
            width,
        ),
{
    let mut out = String::new();
    out.append(
        if selected {
            "> "
        } else {
            "  "
        },
    );
    out.append(e.model_ref.as_str());
    out.append(" — ");
    out.append(e.name.as_str());
    let current = match configured {
        Some(c) => same_text(c, e.model_ref.as_str()),
        None => false,
    };
    out.append(
        if current {
            " *"
        } else {
            ""
        },
    );
    assert(out@ =~= row_text(
        *e,
        selected,
        match configured {
            Some(c) => Some(c@),
            None => None,
        },
    ));
    PickerRow { text: cut_to(out.as_str(), width), selected }
}

/// Lays the picker out on a screen.
pub fn draw_picker(
    state: &PickerState,
    entries: &Vec<&ModelCatalogEntry>,
    configured: Option<&str>,
    width: u16,
    height: u16,
) -> (r: PickerFrame)
    ensures
        ({
            let default_model = match configured {
                Some(c) => Some(c@),
                None => None,
            };
            let selected = state@.selected;
            let first = first_row(selected, height);
            let past = past_row(selected, entries@.len(), height);
            &&& r.default_line@ == "Default: "@ + match configured {
                Some(c) => c@,
                None => "—"@,
            }
            &&& r.search_line@ == "Search: "@ + state.query@
            &&& r.rows@.len() == if first < past {
                past - first
            } else {
                0
            }
            &&& forall|i: int|
                0 <= i < r.rows@.len() ==> row_drawn(
                    #[trigger] r.rows@[i],
                    behind(entries@),
                    first + i,
                    selected,
                    default_model,
                    width,
                )
            &&& r.help_row == if height > 0 {
                height - 1
            } else {
                0
            }
        }),
{
    let ghost default_model = match configured {
        Some(c) => Some(c@),
        None => None::<Seq<char>>,
    };
    let visible: usize = if height > PICKER_CHROME + 1 {
        (height - PICKER_CHROME) as usize
    } else {
        1
    };
    let start: usize = if state.selected >= visible {
        state.selected - (visible - 1)
    } else {
        0
    };
    let end: usize = if start < entries.len() && visible < entries.len() - start {
        start + visible
    } else {
        entries.len()
    };
    let mut rows: Vec<PickerRow> = Vec::new();
    let mut i: usize = start;
    while i < end
        invariant
            start == first_row(state@.selected, height),
            end <= entries@.len(),
            start <= i,
            start < end ==> i <= end,
            start >= end ==> i == start,
            rows@.len() == i - start,
            default_model == (match configured {
                Some(c) => Some(c@),
                None => None,
            }),
            forall|j: int|
                0 <= j < rows@.len() ==> row_drawn(
                    #[trigger] rows@[j],
                    behind(entries@),
                    start + j,
                    state@.selected,
                    default_model,
                    width,
                ),
        decreases end - i,
    {
        let row = picker_row(entries[i], i == state.selected, configured, width);
        assert(behind(entries@)[i as int] == *entries@[i as int]);
        assert(row_drawn(row, behind(entries@), i as int, state@.selected, default_model, width));
        rows.push(row);
        i += 1;
    }
    PickerFrame {
        default_line: led(
            "Default: ",
            match configured {
                Some(c) => c,
                None => "—",
            },
        ),
        search_line: led("Search: ", state.query.as_str()),
        rows,
        help_row: if height > 0 {
            height - 1
        } else {
            0
        },
    }
}

} // verus!
