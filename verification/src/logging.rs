//! Where the foreground process logs, and how much.
//!
//! koshell owns the terminal in raw mode, so logs must never reach the screen: they are
//! written to `$XDG_STATE_HOME/koshell/koshell.log` (falling back to
//! `~/.local/state/koshell/koshell.log`). The filter resolves in priority order: the
//! command-line argument, then the `KOSHELL_LOG` environment variable, then `warn`.

use crate::env;
use crate::env::Env;
use crate::paths;
use crate::paths::{is_absolute, join_path};
use crate::text;
use crate::text::is_blank;
use vstd::prelude::*;

verus! {

pub const LOG_ENV_KEY: &'static str = "KOSHELL_LOG";

pub const DEFAULT_FILTER: &'static str = "warn";

/// The variable under a name, where it is set and not blank.
pub open spec fn told(vars: Map<Seq<char>, Seq<char>>, name: Seq<char>) -> Option<Seq<char>> {
    match env::value_in(vars, name) {
        Some(v) => if text::trim(v).len() > 0 {
            Some(v)
        } else {
            None
        },
        None => None,
    }
}

/// The filter in force.
pub open spec fn filter_of(cli_level: Option<Seq<char>>, vars: Map<Seq<char>, Seq<char>>) -> Seq<
    char,
> {
    match cli_level {
        Some(level) => level,
        None => match told(vars, "KOSHELL_LOG"@) {
            Some(value) => value,
            None => "warn"@,
        },
    }
}

/// The state directory. None where neither variable gives an absolute base: a relative
/// one would depend on the current working directory, and a chosen one is not rescued.
pub open spec fn state_path(vars: Map<Seq<char>, Seq<char>>) -> Option<Seq<char>> {
    let base = match told(vars, "XDG_STATE_HOME"@) {
        Some(dir) => Some(dir),
        None => match told(vars, "HOME"@) {
            Some(home) => Some(paths::below(paths::below(home, ".local"@), "state"@)),
            None => None,
        },
    };
    if base is Some && paths::absolute(base->0) {
        Some(paths::below(base->0, "koshell"@))
    } else {
        None
    }
}

/// A state directory never depends on where the process stands.
pub proof fn the_state_directory_is_absolute(vars: Map<Seq<char>, Seq<char>>)
    ensures
        state_path(vars) is Some ==> paths::absolute(state_path(vars)->0),
{
}

fn told_value<'a>(vars: &'a Env, name: &str) -> (r: Option<&'a String>)
    ensures
        match r {
            Some(v) => told(vars@, name@) == Some(v@),
            None => told(vars@, name@) is None,
        },
{
    match vars.get(name) {
        Some(v) => if is_blank(v.as_str()) {
            None
        } else {
            Some(v)
        },
        None => None,
    }
}

/// Resolves the effective log filter from the command-line argument and the environment.
pub fn resolve_filter(cli_level: Option<&str>, vars: &Env) -> (r: String)
    ensures
        r@ == filter_of(
            match cli_level {
                Some(l) => Some(l@),
                None => None,
            },
            vars@,
        ),
{
    match cli_level {
        Some(level) => level.to_owned(),
        None => match told_value(vars, LOG_ENV_KEY) {
            Some(value) => value.clone(),
            None => DEFAULT_FILTER.to_owned(),
        },
    }
}

/// The koshell state directory: `$XDG_STATE_HOME/koshell`, falling back to
/// `~/.local/state/koshell`. Shared by the terminal log and the auto-spawned daemon log.
///
/// `None` when neither variable yields an absolute base. A relative state directory
/// would resolve against the current working directory, which follows the inner shell's
/// `cd`, so the log would be created in whatever directory the user happened to be in.
/// Losing the log is the better failure.
pub fn state_dir(vars: &Env) -> (r: Option<String>)
    ensures
        text::opt_text(r) == state_path(vars@),
{
    let base = match told_value(vars, "XDG_STATE_HOME") {
        Some(dir) => dir.clone(),
        None => match told_value(vars, "HOME") {
            Some(home) => join_path(join_path(home.as_str(), ".local").as_str(), "state"),
            None => {
                return None;
            },
        },
    };
    if is_absolute(base.as_str()) {
        Some(join_path(base.as_str(), "koshell"))
    } else {
        None
    }
}

/// The log file path under the XDG state directory, or `None` when there is no usable
/// state directory.
pub fn log_file_path(vars: &Env) -> (r: Option<String>)
    ensures
        text::opt_text(r) == (match state_path(vars@) {
            Some(dir) => Some(paths::below(dir, "koshell.log"@)),
            None => None,
        }),
{
    match state_dir(vars) {
        Some(dir) => Some(join_path(dir.as_str(), "koshell.log")),
        None => None,
    }
}

} // verus!
