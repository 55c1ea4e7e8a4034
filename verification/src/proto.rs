//! The messages that the terminal process and the AI daemon exchange, one JSON object
//! per line over a Unix domain socket, each tagged by its type.
//!
//! Both ends must agree on [`PROTOCOL_VERSION`], negotiated during the `hello`
//! handshake: the daemon serves `ai_request`s only after a version-matching `hello`, and
//! answers anything else with an explicit `ai_error` (mixed versions are expected in
//! practice: terminals are long-lived while the daemon restarts independently).
//!
//! # Evolution rules
//!
//! - The `hello` shape is frozen: existing fields never change meaning or type, so any
//!   version of either side can always read the other's handshake. New fields must be
//!   optional.
//! - Evolve additively without bumping the version: new optional fields on existing
//!   messages, and new message types. Receivers must ignore message types they do not
//!   know.
//! - Bump [`PROTOCOL_VERSION`] only for breaking changes: removing or retyping a field,
//!   or changing message semantics.

use crate::json::Json;
use vstd::prelude::*;

verus! {

/// The protocol version. Bump on any breaking change to the message shapes.
pub const PROTOCOL_VERSION: u32 = 1;

/// The capability of serving the command-output tools.
pub const CAPABILITY_COMMAND_OUTPUT_TOOLS_V1: &'static str = "command_output_tools_v1";

/// A message sent from the terminal process to the AI daemon.
#[derive(Debug, PartialEq, Eq)]
pub enum ClientMessage {
    /// First message on a new connection; establishes the terminal session.
    Hello {
        protocol_version: u32,
        terminal_session_id: String,
        cwd: String,
        shell: String,
        rows: u16,
        cols: u16,
        /// What this terminal can serve; left out of the line where it is nothing.
        capabilities: Vec<String>,
    },
    /// A `#?` question raised in the terminal, with the terminal context the daemon
    /// should ground its answer in.
    AiRequest { request_id: String, question: String, trigger: String, context_package: Json },
    /// Withdraws an in-flight [`ClientMessage::AiRequest`] after a user interrupt.
    /// Best-effort: the terminal has already stopped rendering the response.
    AiCancel { request_id: String },
    /// Response to a daemon-initiated context tool call.
    ToolResponse { request_id: String, tool_call_id: String, result: Json },
    /// Discards the conversation of this session.
    ConversationReset {},
    /// Graceful shutdown of a terminal session.
    Bye { terminal_session_id: String },
    /// Diagnostics request, answered with [`ServerMessage::Status`] regardless of the
    /// `hello` handshake.
    StatusRequest {},
    /// Starts an interactive login for `provider` on this connection. The daemon replies
    /// `ack`, streams display and prompt events, and terminates with exactly one
    /// [`ServerMessage::AuthResult`]. Dropping the connection aborts the flow.
    AuthLogin { request_id: String, provider: String },
    /// Removes the stored credential for `provider`.
    AuthLogout { request_id: String, provider: String },
    /// Asks for per-provider credential status; `provider` limits the report to one.
    AuthStatusRequest { request_id: String, provider: Option<String> },
    /// Answers a daemon-initiated prompt or selection; `None` means the user declined.
    AuthPromptResponse { request_id: String, prompt_id: String, value: Option<String> },
    /// Asks the daemon to re-read its configuration and rebuild live sessions; `None`
    /// resets every active session.
    ReloadRequest { session_id: Option<String> },
    /// Asks for one instance's live state.
    InstanceStatusRequest { session_id: String },
    /// Asks for the models the daemon knows.
    ModelList { request_id: String, all: bool, query: Option<String> },
    /// Asks for the configured default and a session's active model.
    ModelShow { request_id: String, session_id: Option<String> },
    /// Selects a model.
    ModelSet { request_id: String, model: String, session_id: Option<String>, session_only: bool },
}

/// One choice offered by [`ServerMessage::AuthSelect`].
#[derive(Debug, Clone, PartialEq, Eq)]
pub struct AuthSelectOption {
    pub id: String,
    pub label: String,
}

/// One provider row in [`ServerMessage::AuthStatus`].
#[derive(Debug, Clone, PartialEq, Eq)]
pub struct AuthStatusEntry {
    /// The provider's id.
    pub provider: String,
    /// Its display name.
    pub name: String,
    /// Whether an interactive login applies to this provider.
    pub oauth: bool,
    /// Whether any usable credential was found (stored, environment, or config).
    pub configured: bool,
    /// Where the credential came from ("stored", "environment", "config"); a free string
    /// so that a new label never breaks an older client.
    pub source: Option<String>,
    /// Human detail for the source, e.g. the environment variable name.
    pub label: Option<String>,
}

/// One model in [`ServerMessage::ModelCatalog`].
#[derive(Debug, Clone, PartialEq, Eq)]
pub struct ModelCatalogEntry {
    /// `provider/id`.
    pub model_ref: String,
    pub provider: String,
    pub id: String,
    pub name: String,
    /// Whether a credential for it was found.
    pub available: bool,
    /// In tokens.
    pub context_window: u64,
    pub reasoning: bool,
}

/// Why a tool call could not be served.
#[derive(Debug, PartialEq, Eq)]
pub struct ToolError {
    pub code: String,
    pub message: String,
    pub details: Option<Json>,
}

/// A message sent from the AI daemon back to the terminal process.
///
/// Per request, the daemon sends `ack` first, then zero or more `ai_delta` chunks, then
/// exactly one of `ai_response_end` or `ai_error`.
#[derive(Debug, Clone, PartialEq, Eq)]
pub enum ServerMessage {
    /// Acknowledges receipt of a request, before any streaming output.
    Ack { request_id: String },
    /// One streamed chunk of assistant text for an in-flight request.
    AiDelta { request_id: String, delta: String },
    /// Terminal success marker: no further messages follow for this request.
    AiResponseEnd { request_id: String },
    /// Terminal failure marker: no further messages follow for this request.
    AiError { request_id: String, message: String },
    /// The daemon's identity and load.
    Status {
        pid: u32,
        version: String,
        protocol_version: u32,
        uptime_ms: u64,
        connections: u32,
    },
    /// Login display event: open this URL to authorize.
    AuthUrl { request_id: String, url: String, instructions: Option<String> },
    /// Login display event: enter `user_code` at `verification_uri`.
    AuthDeviceCode {
        request_id: String,
        user_code: String,
        verification_uri: String,
        interval_seconds: Option<u64>,
        expires_in_seconds: Option<u64>,
    },
    /// Login display event: free-form progress line.
    AuthProgress { request_id: String, message: String },
    /// Daemon-initiated free-text prompt.
    AuthPrompt {
        request_id: String,
        prompt_id: String,
        message: String,
        placeholder: Option<String>,
        allow_empty: bool,
    },
    /// Daemon-initiated selection.
    AuthSelect {
        request_id: String,
        prompt_id: String,
        message: String,
        options: Vec<AuthSelectOption>,
    },
    /// Terminal marker of a login or logout: exactly one per request.
    AuthResult { request_id: String, ok: bool, message: Option<String> },
    /// Terminal reply to [`ClientMessage::AuthStatusRequest`].
    AuthStatus { request_id: String, entries: Vec<AuthStatusEntry> },
    /// Whether the new configuration validated and was applied, with a human summary.
    Reload { ok: bool, message: Option<String> },
    /// One instance's state. `known` is whether the daemon has a live connection for it;
    /// the per-connection fields are populated only then, while the daemon's own fields
    /// are always present.
    InstanceStatus {
        known: bool,
        session_id: String,
        cwd: Option<String>,
        shell: Option<String>,
        model: Option<String>,
        conversation: bool,
        daemon_pid: u32,
        uptime_ms: u64,
        version: String,
        protocol_version: u32,
        connections: u32,
    },
    /// The models the daemon knows, and the configured default.
    ModelCatalog {
        request_id: String,
        configured_model: Option<String>,
        entries: Vec<ModelCatalogEntry>,
    },
    /// The configured default and a session's active model.
    ModelState {
        request_id: String,
        configured_model: Option<String>,
        active_model: Option<String>,
        conversation: bool,
    },
    /// Whether a model was selected, with a human summary.
    ModelResult { request_id: String, ok: bool, message: String },
}

} // verus!
