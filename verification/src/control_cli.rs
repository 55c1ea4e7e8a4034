//! `koshell new` and `koshell clear`: the two conversation and context reset commands.
//!
//! Both run as an ordinary child process of the inner shell, so they cannot touch the
//! wrapper's state directly. They address it in band instead, by writing a control
//! marker to the controlling terminal. The wrapper's marker scanner strips those bytes
//! from the stream before the terminal or the mirror sees them and applies the request
//! from the one thread that owns the state.
//!
//! The marker goes to the terminal and not to standard output: it is a request addressed
//! to the terminal, and reaches the wrapper under any redirection. Delivery is one-way,
//! so the exit code reports that the request was sent, not what it achieved.

use crate::env::Env;
use crate::markers;
use crate::markers::{format_marker, MarkerKind, ShellIntegrationMarker};
use crate::shell;
use crate::shell::is_nested_koshell;
use vstd::prelude::*;

verus! {

/// Which reset the user asked for.
#[derive(Debug, Clone, Copy, PartialEq, Eq, Structural)]
pub enum Control {
    /// `koshell new`: discard the AI conversation only.
    NewConversation,
    /// `koshell clear`: discard the screen, the AI-readable terminal evidence, and the
    /// conversation.
    ClearContext,
}

/// The marker that carries a request.
pub open spec fn request_marker(control: Control) -> markers::MarkerView {
    markers::MarkerView {
        kind: match control {
            Control::NewConversation => MarkerKind::NewConversation,
            Control::ClearContext => MarkerKind::ClearContext,
        },
        command: None,
        exit_code: None,
        cwd: None,
        executed: true,
    }
}

/// How a request is spelled on the command line.
pub open spec fn command_name(control: Control) -> Seq<char> {
    match control {
        Control::NewConversation => "koshell new"@,
        Control::ClearContext => "koshell clear"@,
    }
}

impl Control {
    pub fn marker_kind(self) -> (r: MarkerKind)
        ensures
            r == request_marker(self).kind,
            r is NewConversation || r is ClearContext,
    {
        match self {
            Control::NewConversation => MarkerKind::NewConversation,
            Control::ClearContext => MarkerKind::ClearContext,
        }
    }

    pub fn command(self) -> (r: &'static str)
        ensures
            r@ == command_name(self),
    {
        match self {
            Control::NewConversation => "koshell new",
            Control::ClearContext => "koshell clear",
        }
    }

    /// The bytes to write to the controlling terminal. The wrapper's scanner reads the
    /// request back from them.
    pub fn request(self) -> (r: Vec<u8>)
        ensures
            r@ == markers::wire_form(request_marker(self)),
            markers::marker_in_payload(markers::payload_for(request_marker(self))) == Some(
                request_marker(self),
            ),
    {
        let marker = ShellIntegrationMarker {
            kind: self.marker_kind(),
            command: None,
            exit_code: None,
            cwd: None,
            executed: true,
        };
        format_marker(&marker)
    }

    /// What to print where no live koshell owns this terminal.
    pub fn refusal(self) -> (r: Vec<String>)
        ensures
            crate::text::texts(r@) == seq![
                command_name(self)
                    + " needs a koshell-wrapped terminal: no live koshell owns this one."@,
                "  start koshell (or install the auto-wrap: `koshell shell-init zsh`)."@,
            ],
    {
        let mut first = String::new();
        first.append(self.command());
        first.append(" needs a koshell-wrapped terminal: no live koshell owns this one.");
        let mut lines: Vec<String> = Vec::new();
        lines.push(first);
        lines.push(
            "  start koshell (or install the auto-wrap: `koshell shell-init zsh`).".to_owned(),
        );
        assert(crate::text::texts(lines@) =~= seq![
            command_name(self)
                + " needs a koshell-wrapped terminal: no live koshell owns this one."@,
            "  start koshell (or install the auto-wrap: `koshell shell-init zsh`)."@,
        ]);
        lines
    }

    /// What to print where the request could not be written to the terminal.
    pub fn failure(self, error: &str) -> (r: String)
        ensures
            r@ == command_name(self) + " could not reach koshell: "@ + error@,
    {
        let mut line = String::new();
        line.append(self.command());
        line.append(" could not reach koshell: ");
        line.append(error);
        assert(line@ =~= command_name(self) + " could not reach koshell: "@ + error@);
        line
    }
}

/// Whether a live koshell owns this process's terminal: exactly the condition that makes
/// launching koshell here a refused nested start, read in the positive direction, so the
/// two answers never disagree.
pub fn inside_live_koshell(vars: &Env, tty: Option<&str>, marker_live: bool) -> (r: bool)
    ensures
        r == shell::nested(
            vars@,
            match tty {
                Some(t) => Some(t@),
                None => None,
            },
            marker_live,
        ),
{
    is_nested_koshell(vars, tty, marker_live)
}

} // verus!
