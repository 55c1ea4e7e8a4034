//! Where the AI daemon is reached, and how a connection introduces itself.
//!
//! The terminal connects lazily and degrades gracefully: if the daemon is unavailable
//! the terminal keeps working and `#?` is acknowledged as unavailable rather than
//! blocking.

use crate::env;
use crate::env::Env;
use crate::paths;
use crate::paths::{is_absolute, join_path};
use crate::proto::{ClientMessage, CAPABILITY_COMMAND_OUTPUT_TOOLS_V1, PROTOCOL_VERSION};
use crate::shell;
use crate::shell::{koshell_session_id, KOSHELL_ENV_KEY};
use crate::text;
use crate::text::{push_decimal, trimmed_end};
use vstd::prelude::*;

verus! {

/// The variable under a name, where it is set and not empty.
pub open spec fn filled(vars: Map<Seq<char>, Seq<char>>, name: Seq<char>) -> Option<Seq<char>> {
    match env::value_in(vars, name) {
        Some(v) => if v.len() > 0 {
            Some(v)
        } else {
            None
        },
        None => None,
    }
}

/// The variable under a name, where it holds an absolute path. A relative one would mean
/// another directory wherever the process stands, and counts as unset.
pub open spec fn rooted(vars: Map<Seq<char>, Seq<char>>, name: Seq<char>) -> Option<Seq<char>> {
    match env::value_in(vars, name) {
        Some(v) => if paths::absolute(v) {
            Some(v)
        } else {
            None
        },
        None => None,
    }
}

/// The home directory; the root where none is named.
pub open spec fn home_of(vars: Map<Seq<char>, Seq<char>>) -> Seq<char> {
    match rooted(vars, "HOME"@) {
        Some(v) => v,
        None => "/"@,
    }
}

/// The per-user runtime directory.
pub open spec fn runtime_path(vars: Map<Seq<char>, Seq<char>>) -> Seq<char> {
    match rooted(vars, "XDG_RUNTIME_DIR"@) {
        Some(dir) => paths::below(dir, "koshell"@),
        None => match rooted(vars, "XDG_CACHE_HOME"@) {
            Some(dir) => paths::below(dir, "koshell"@),
            None => paths::below(paths::below(home_of(vars), ".cache"@), "koshell"@),
        },
    }
}

/// The socket and the liveness markers hang off a directory that means the same in every
/// process, wherever it stands: whatever the environment holds, it starts at the root.
pub proof fn the_runtime_directory_is_absolute(vars: Map<Seq<char>, Seq<char>>)
    ensures
        paths::absolute(runtime_path(vars)),
{
    reveal_strlit("/");
}

fn rooted_value<'a>(vars: &'a Env, name: &str) -> (r: Option<&'a String>)
    ensures
        match r {
            Some(v) => rooted(vars@, name@) == Some(v@),
            None => rooted(vars@, name@) is None,
        },
{
    match vars.get(name) {
        Some(v) => if is_absolute(v.as_str()) {
            Some(v)
        } else {
            None
        },
        None => None,
    }
}

/// The per-user koshell runtime directory, following XDG conventions and deliberately
/// avoiding a world-writable directory: `$XDG_RUNTIME_DIR/koshell`, then
/// `$XDG_CACHE_HOME/koshell`, falling back to `~/.cache/koshell`.
///
/// Always absolute. A relative path would resolve against the current working directory,
/// which follows the inner shell's `cd`, so two processes that must agree on the socket
/// and the liveness markers would not. A variable that names no absolute path is passed
/// over, and without a home directory the fallback lies at the root.
pub fn runtime_dir(vars: &Env) -> (r: String)
    ensures
        r@ == runtime_path(vars@),
        paths::absolute(r@),
{
    proof {
        the_runtime_directory_is_absolute(vars@);
    }
    if let Some(dir) = rooted_value(vars, "XDG_RUNTIME_DIR") {
        return join_path(dir.as_str(), "koshell");
    }
    if let Some(dir) = rooted_value(vars, "XDG_CACHE_HOME") {
        return join_path(dir.as_str(), "koshell");
    }
    let home = match rooted_value(vars, "HOME") {
        Some(v) => v.clone(),
        None => "/".to_owned(),
    };
    join_path(join_path(home.as_str(), ".cache").as_str(), "koshell")
}

/// The default daemon socket path: `<runtime_dir>/daemon.sock`.
pub fn default_socket_path(vars: &Env) -> (r: String)
    ensures
        r@ == paths::below(runtime_path(vars@), "daemon.sock"@),
        paths::absolute(r@),
{
    join_path(runtime_dir(vars).as_str(), "daemon.sock")
}

/// The session id of a wrapper.
pub open spec fn session_name(pid: u32) -> Seq<char> {
    "koshell-"@ + text::decimal(pid as nat)
}

/// A wrapper's session id, `koshell-<pid>`: the same value sent in `hello` and branded
/// as the first field of the `KOSHELL` environment variable.
pub fn session_id(pid: u32) -> (r: String)
    ensures
        r@ == session_name(pid),
{
    let mut out = String::new();
    out.append("koshell-");
    push_decimal(&mut out, pid as u64);
    assert(out@ =~= session_name(pid));
    out
}

/// The current instance's session id, read from the first field of the inherited
/// `KOSHELL` variable, or `None` when the process is not running inside a koshell
/// wrapper.
pub fn current_session_id(vars: &Env) -> (r: Option<String>)
    ensures
        text::opt_text(r) == (match env::value_in(vars@, "KOSHELL"@) {
            Some(value) => shell::session_field(value),
            None => None,
        }),
{
    match vars.get(KOSHELL_ENV_KEY) {
        Some(value) => match koshell_session_id(value.as_str()) {
            Some(id) => Some(id.to_owned()),
            None => None,
        },
        None => None,
    }
}

/// Builds a `hello` handshake for a new connection, advertising what this terminal can
/// serve. The daemon registers terminal-backed tools only for advertised capabilities,
/// so this list is what keeps a new daemon from calling into an old terminal.
pub fn hello(pid: u32, cwd: String, shell: String, rows: u16, cols: u16) -> (r: ClientMessage)
    ensures
        match r {
            ClientMessage::Hello {
                protocol_version,
                terminal_session_id,
                cwd: at,
                shell: program,
                rows: high,
                cols: wide,
                capabilities,
            } => {
                &&& protocol_version == PROTOCOL_VERSION
                &&& terminal_session_id@ == session_name(pid)
                &&& at == cwd
                &&& program == shell
                &&& high == rows
                &&& wide == cols
                &&& text::texts(capabilities@) == seq![CAPABILITY_COMMAND_OUTPUT_TOOLS_V1@]
            },
            _ => false,
        },
{
    let mut capabilities: Vec<String> = Vec::new();
    capabilities.push(CAPABILITY_COMMAND_OUTPUT_TOOLS_V1.to_owned());
    assert(text::texts(capabilities@) =~= seq![CAPABILITY_COMMAND_OUTPUT_TOOLS_V1@]);
    ClientMessage::Hello {
        protocol_version: PROTOCOL_VERSION,
        terminal_session_id: session_id(pid),
        cwd,
        shell,
        rows,
        cols,
        capabilities,
    }
}

/// What to do with a line from the daemon.
#[derive(Debug, Clone, Copy, PartialEq, Eq, Structural)]
pub enum LineFate {
    /// A message this terminal knows: hand it on.
    Deliver,
    /// Valid JSON of a type this terminal does not know: skip it. A newer daemon may
    /// send such messages, and they must not kill the reader.
    Skip,
    /// No JSON at all: a framing fault, and the end of the connection.
    Fail,
}

/// Whether `serde_json` reads some text as a JSON value.
pub uninterp spec fn json_text(text: Seq<char>) -> bool;

/// `serde_json::from_str` into a JSON value: whether that succeeds. It depends on the text
/// alone; JSON's grammar is not spelled out.
#[verifier::external_body]
fn is_json(text: &str) -> (r: bool)
    ensures
        r == json_text(text@),
{
    serde_json::from_str::<serde_json::Value>(text).is_ok()
}

/// Decides on a line from the daemon, by whether it decoded as a known message. One that
/// did not is skipped where it is JSON without the whitespace at its end, for a newer
/// daemon may send what this terminal does not know yet; any other is a framing fault.
pub fn fate_of_line(known: bool, line: &str) -> (r: LineFate)
    ensures
        r == (if known {
            LineFate::Deliver
        } else if json_text(text::trim_end(line@)) {
            LineFate::Skip
        } else {
            LineFate::Fail
        }),
{
    if known {
        return LineFate::Deliver;
    }
    line_fate(known, is_json(trimmed_end(line).as_str()))
}

/// Decides on a line from the daemon, by whether it decoded as a known message and
/// whether it is JSON at all.
pub fn line_fate(known: bool, json: bool) -> (r: LineFate)
    ensures
        known ==> r is Deliver,
        !known && json ==> r is Skip,
        !known && !json ==> r is Fail,
{
    if known {
        LineFate::Deliver
    } else if json {
        LineFate::Skip
    } else {
        LineFate::Fail
    }
}

} // verus!
