//! What the `koshell` command line asks for.
//!
//! Without arguments koshell launches the default shell (with shell integration for
//! bash and zsh). Any leading positional that is no subcommand launches that program
//! directly instead of the default shell; everything after the program name belongs to
//! it.

use vstd::prelude::*;

verus! {

/// A parsed command line.
#[derive(Debug, Clone, PartialEq, Eq)]
pub struct Cli {
    /// Log level filter; overrides the `KOSHELL_LOG` environment variable.
    pub log_level: Option<String>,
    /// What to run; `None` launches the default shell.
    pub command: Option<Command>,
}

/// The shells a startup snippet can be printed for.
#[derive(Debug, Clone, Copy, PartialEq, Eq, Structural)]
pub enum InitShell {
    Bash,
    Zsh,
}

/// What to run.
#[derive(Debug, Clone, PartialEq, Eq)]
pub enum Command {
    /// Print the startup snippet that makes new interactive shells exec into koshell.
    ShellInit { shell: InitShell },
    /// Fast, TTY-free readiness probe used by the auto-wrap snippet.
    Preflight,
    /// Inspect or control the AI daemon.
    Daemon { action: DaemonAction },
    /// Manage AI provider credentials.
    Auth { action: AuthAction },
    /// Discover, inspect, and select the AI model. With no action, opens a searchable
    /// interactive picker.
    Model { session_only: bool, action: Option<ModelAction> },
    /// Report the current koshell instance's state.
    Status,
    /// Reload the configuration into live sessions.
    Reload { all: bool },
    /// Discard the conversation.
    New,
    /// Discard the screen, the terminal evidence and the conversation.
    Clear,
    /// Report the versions that can differ on one machine.
    Version,
    /// Program to launch instead of the default shell, with its arguments.
    Launch(Vec<String>),
}

/// Manual lifecycle actions for the AI daemon.
#[derive(Debug, Clone, Copy, PartialEq, Eq, Structural)]
pub enum DaemonAction {
    /// Report whether the daemon is running, and its identity if so.
    Status,
    /// Start the daemon if it is not already running.
    Start,
    /// Stop the running daemon.
    Stop,
    /// Restart the daemon (stop if running, then start).
    Restart,
}

/// Credential actions.
#[derive(Debug, Clone, PartialEq, Eq)]
pub enum AuthAction {
    /// Sign in to a provider.
    Login { provider: String },
    /// Remove the stored credential for a provider.
    Logout { provider: String },
    /// Show credential status, for all known providers or one.
    Status { provider: Option<String> },
}

/// Model actions; omitting one opens the interactive picker.
#[derive(Debug, Clone, PartialEq, Eq)]
pub enum ModelAction {
    /// Show the configured default and this conversation's active model.
    Show,
    /// List credential-available models, optionally filtered by a query.
    List { all: bool, query: Option<String> },
    /// Select a validated provider/id without opening the picker.
    Select { model: String, session_only: bool },
}

} // verus!
