//! Shell resolution, PTY environment construction, and nested-start prevention.
//!
//! `SHELL`-first resolution with a fixed fallback list, a system-only fallback `PATH`,
//! and a single `KOSHELL` identity marker that blocks running koshell inside koshell on
//! the same terminal while letting a shell on a fresh tty wrap itself.
//!
//! `KOSHELL` carries comma-separated fields, `<session-id>,<tty>`. The first
//! (`koshell-<pid>`) is always present: it is the routing address child commands use,
//! and its mere presence is the public "am I inside koshell" signal and the coarse
//! recursion fallback. The second (the wrapped controlling tty) is present only when the
//! child pts was resolved and its liveness marker written; its absence falls back to the
//! coarse guard. The liveness marker's path is derived from the tty by convention (see
//! [`tty_marker_path`]).
//!
//! Which programs can be executed is for the caller to find out: the functions here name
//! the candidates, and choose among them.

use crate::env;
use crate::env::Env;
use crate::ipc;
use crate::ipc::runtime_dir;
use crate::paths;
use crate::paths::{is_absolute, join_path};
use crate::text;
use crate::text::{
    chars_of, clone_texts, debug_quoted, find_listed, is_blank, parse_i32, same_text, split_text, trimmed,
};
use vstd::prelude::*;

verus! {

/// System-only fallback `PATH`, used when the source `PATH` is empty or whitespace.
pub const FALLBACK_PATH: &'static str = "/usr/bin:/bin:/usr/sbin:/sbin";

/// The single koshell identity variable.
pub const KOSHELL_ENV_KEY: &'static str = "KOSHELL";

/// The `SHELL` environment variable key.
const SHELL_ENV_KEY: &'static str = "SHELL";

/// Why no program was resolved.
#[derive(Debug, Clone, PartialEq, Eq)]
pub enum ResolveError {
    /// No shell can be executed; the value of `SHELL`, if it is set.
    NoShell(Option<String>),
    /// The requested command is blank.
    EmptyCommand,
    /// The requested command is not found.
    NotFound(String),
}

/// koshell was started inside a live koshell on the same terminal.
#[derive(Debug, Clone, Copy, PartialEq, Eq, Structural)]
pub struct NestedLaunch;

// ---------------------------------------------------------------------------
// The identity marker
// ---------------------------------------------------------------------------

/// Where the first comma of a text is, or its length.
pub open spec fn first_comma(value: Seq<char>) -> int
    decreases value.len(),
{
    if value.len() == 0 {
        0
    } else if value[0] == ',' {
        0
    } else {
        1 + first_comma(value.drop_first())
    }
}

/// The session id that a `KOSHELL` value names.
pub open spec fn session_field(value: Seq<char>) -> Option<Seq<char>> {
    let id = value.take(first_comma(value));
    if id.len() > 0 {
        Some(id)
    } else {
        None
    }
}

/// The tty that a `KOSHELL` value names.
pub open spec fn tty_field(value: Seq<char>) -> Option<Seq<char>> {
    let at = first_comma(value);
    if at + 1 < value.len() {
        Some(value.skip(at + 1))
    } else {
        None
    }
}

proof fn lemma_first_comma(value: Seq<char>)
    ensures
        0 <= first_comma(value) <= value.len(),
        forall|i: int| 0 <= i < first_comma(value) ==> #[trigger] value[i] != ',',
        first_comma(value) < value.len() ==> value[first_comma(value)] == ',',
    decreases value.len(),
{
    if value.len() > 0 && value[0] != ',' {
        let rest = value.drop_first();
        lemma_first_comma(rest);
        assert forall|i: int| 0 <= i < first_comma(value) implies #[trigger] value[i] != ',' by {
            if i > 0 {
                assert(rest[i - 1] == value[i]);
            }
        }
    }
}

proof fn lemma_comma_at(value: Seq<char>, at: int)
    requires
        0 <= at <= value.len(),
        forall|i: int| 0 <= i < at ==> #[trigger] value[i] != ',',
        at < value.len() ==> value[at] == ',',
    ensures
        first_comma(value) == at,
{
    lemma_first_comma(value);
    let c = first_comma(value);
    if c < at {
        assert(value[c] != ',');
    } else if at < c {
        assert(value[at] != ',');
    }
}

/// A branded value names the session and the tty it was built from.
pub proof fn brands_round_trip(session_id: Seq<char>, tty: Seq<char>)
    requires
        session_id.len() > 0,
        tty.len() > 0,
        forall|i: int| 0 <= i < session_id.len() ==> #[trigger] session_id[i] != ',',
    ensures
        session_field(brand(session_id, tty)) == Some(session_id),
        tty_field(brand(session_id, tty)) == Some(tty),
{
    let value = brand(session_id, tty);
    reveal_strlit(",");
    assert forall|i: int| 0 <= i < session_id.len() implies #[trigger] value[i] != ',' by {
        assert(value[i] == session_id[i]);
    }
    lemma_comma_at(value, session_id.len() as int);
    assert(value.take(session_id.len() as int) =~= session_id);
    assert(value.skip(session_id.len() as int + 1) =~= tty);
}

/// The value that brands a session and a tty.
pub open spec fn brand(session_id: Seq<char>, tty: Seq<char>) -> Seq<char> {
    session_id + ","@ + tty
}

fn comma_index(value: &str) -> (r: usize)
    ensures
        r == first_comma(value@),
        r <= value@.len(),
{
    let chars = chars_of(value);
    let mut i: usize = 0;
    while i < chars.len() && chars[i] != ','
        invariant
            chars@ == value@,
            i <= chars@.len(),
            forall|k: int| 0 <= k < i ==> #[trigger] value@[k] != ',',
        ensures
            i <= chars@.len(),
            forall|k: int| 0 <= k < i ==> #[trigger] value@[k] != ',',
            i < chars@.len() ==> value@[i as int] == ',',
        decreases chars@.len() - i,
    {
        i += 1;
    }
    proof {
        lemma_comma_at(value@, i as int);
    }
    i
}

/// The first field of a `KOSHELL` value: the session id (`koshell-<pid>`), or `None`
/// when it is empty. Never empty inside a real koshell.
pub fn koshell_session_id(value: &str) -> (r: Option<&str>)
    ensures
        match r {
            Some(id) => session_field(value@) == Some(id@),
            None => session_field(value@) is None,
        },
{
    let at: usize = comma_index(value);
    if at > 0 {
        let id = value.substring_char(0, at);
        assert(id@ =~= value@.take(at as int));
        Some(id)
    } else {
        None
    }
}

/// The second field of a `KOSHELL` value: the wrapped controlling tty, or `None` when
/// absent or empty (koshell could not brand the child pts). tty paths never contain a
/// comma.
pub fn koshell_tty(value: &str) -> (r: Option<&str>)
    ensures
        match r {
            Some(tty) => tty_field(value@) == Some(tty@),
            None => tty_field(value@) is None,
        },
{
    let at: usize = comma_index(value);
    let length: usize = value.unicode_len();
    if at < length && length - at > 1 {
        let tty = value.substring_char(at + 1, length);
        assert(tty@ =~= value@.skip(at + 1));
        Some(tty)
    } else {
        None
    }
}

/// Builds a `KOSHELL` value branding `session_id` with the wrapped `tty`
/// (`<session-id>,<tty>`).
pub fn koshell_env_value(session_id: &str, tty: &str) -> (r: String)
    ensures
        r@ == brand(session_id@, tty@),
{
    let mut out = String::new();
    out.append(session_id);
    out.append(",");
    out.append(tty);
    assert(out@ =~= brand(session_id@, tty@));
    out
}

// ---------------------------------------------------------------------------
// Resolving programs
// ---------------------------------------------------------------------------

/// The directories that a `PATH` names; a blank one counts as the fallback.
pub open spec fn search_path(path: Option<Seq<char>>) -> Seq<Seq<char>> {
    text::split_on(
        if path is Some && text::trim(path->0).len() > 0 {
            path->0
        } else {
            FALLBACK_PATH@
        },
        ':',
    )
}

/// A name below each of some directories.
pub open spec fn below_each(dirs: Seq<Seq<char>>, name: Seq<char>) -> Seq<Seq<char>> {
    Seq::new(dirs.len(), |i: int| paths::below(dirs[i], name))
}

/// The paths that a program may be found at, in order: an absolute one only where it
/// says, a bare name in every directory of the `PATH`.
pub open spec fn candidates(command: Seq<char>, path: Option<Seq<char>>) -> Seq<Seq<char>> {
    if paths::absolute(command) {
        seq![command]
    } else {
        below_each(search_path(path), command)
    }
}

/// The shells tried when `SHELL` names none.
pub open spec fn fallback_shells() -> Seq<Seq<char>> {
    seq![
        "/bin/zsh"@,
        "/bin/bash"@,
        "/bin/sh"@,
        "/usr/bin/zsh"@,
        "/usr/bin/bash"@,
        "/usr/bin/sh"@,
    ]
}

/// The paths that the shell may be found at, in order.
pub open spec fn shell_paths(vars: Map<Seq<char>, Seq<char>>) -> Seq<Seq<char>> {
    match env::value_in(vars, "SHELL"@) {
        Some(shell) => if text::trim(shell).len() > 0 {
            candidates(text::trim(shell), env::value_in(vars, "PATH"@)) + fallback_shells()
        } else {
            fallback_shells()
        },
        None => fallback_shells(),
    }
}

fn shells() -> (r: Vec<String>)
    ensures
        text::texts(r@) == fallback_shells(),
{
    let mut out: Vec<String> = Vec::new();
    out.push("/bin/zsh".to_owned());
    out.push("/bin/bash".to_owned());
    out.push("/bin/sh".to_owned());
    out.push("/usr/bin/zsh".to_owned());
    out.push("/usr/bin/bash".to_owned());
    out.push("/usr/bin/sh".to_owned());
    assert(text::texts(out@) =~= fallback_shells());
    out
}

/// The paths that `command` may be found at, in order: absolute paths are checked
/// directly; bare names are looked up against `path_value` (falling back to
/// [`FALLBACK_PATH`] when empty or whitespace).
pub fn command_candidates(command: &str, path_value: Option<&String>) -> (r: Vec<String>)
    ensures
        text::texts(r@) == candidates(
            command@,
            match path_value {
                Some(p) => Some(p@),
                None => None,
            },
        ),
{
    let mut out: Vec<String> = Vec::new();
    if is_absolute(command) {
        out.push(command.to_owned());
        assert(text::texts(out@) =~= seq![command@]);
        return out;
    }
    let dirs = match path_value {
        Some(value) if !is_blank(value.as_str()) => split_text(value.as_str(), ':'),
        _ => split_text(FALLBACK_PATH, ':'),
    };
    let ghost views = text::texts(dirs@);
    let mut i: usize = 0;
    assert(text::texts(out@) =~= below_each(views, command@).take(0));
    while i < dirs.len()
        invariant
            i <= dirs@.len(),
            views == text::texts(dirs@),
            text::texts(out@) == below_each(views, command@).take(i as int),
        decreases dirs@.len() - i,
    {
        let ghost before = text::texts(out@);
        let candidate = join_path(dirs[i].as_str(), command);
        let ghost c = candidate@;
        out.push(candidate);
        assert(text::texts(out@) =~= before.push(c));
        assert(views[i as int] == dirs@[i as int]@);
        i += 1;
        assert(text::texts(out@) =~= below_each(views, command@).take(i as int));
    }
    assert(below_each(views, command@).take(i as int) =~= below_each(views, command@));
    out
}

/// Resolves `command` to an executable path: the first of its [`command_candidates`] that
/// is among `executables`, what the caller found of them.
pub fn resolve_executable(
    command: &str,
    path_value: Option<&String>,
    executables: &Vec<String>,
) -> (r: Option<String>)
    ensures
        text::opt_text(r) == text::first_listed(
            candidates(
                command@,
                match path_value {
                    Some(p) => Some(p@),
                    None => None,
                },
            ),
            text::texts(executables@),
        ),
{
    find_listed(&command_candidates(command, path_value), executables)
}

/// The paths that the shell may be found at, in order: the configured one, then the
/// fallback list.
pub fn shell_candidates(vars: &Env) -> (r: Vec<String>)
    ensures
        text::texts(r@) == shell_paths(vars@),
{
    match vars.get(SHELL_ENV_KEY) {
        Some(shell) if !is_blank(shell.as_str()) => {
            let name = trimmed(shell.as_str());
            let mut out = command_candidates(name.as_str(), vars.get("PATH"));
            let mut more = shells();
            let ghost first = text::texts(out@);
            let ghost second = text::texts(more@);
            out.append(&mut more);
            assert(text::texts(out@) =~= first + second);
            out
        },
        _ => shells(),
    }
}

/// Resolves which shell binary to launch from the given environment. `executables` is
/// what the caller found of [`shell_candidates`].
pub fn resolve_shell(vars: &Env, executables: &Vec<String>) -> (r: Result<String, ResolveError>)
    ensures
        match text::first_listed(shell_paths(vars@), text::texts(executables@)) {
            Some(path) => r is Ok && r->Ok_0@ == path,
            None => r is Err && match r->Err_0 {
                ResolveError::NoShell(value) => text::opt_text(value) == env::value_in(
                    vars@,
                    "SHELL"@,
                ),
                _ => false,
            },
        },
{
    match find_listed(&shell_candidates(vars), executables) {
        Some(path) => Ok(path),
        None => Err(
            ResolveError::NoShell(
                match vars.get(SHELL_ENV_KEY) {
                    Some(value) => Some(value.clone()),
                    None => None,
                },
            ),
        ),
    }
}

/// Resolves an explicitly requested command (`koshell <command> ...`) to an executable
/// path using the same lookup rules as shell resolution. `executables` is what the
/// caller found of [`command_candidates`], for the command without the whitespace around
/// it.
pub fn resolve_command(command: &str, vars: &Env, executables: &Vec<String>) -> (r: Result<
    String,
    ResolveError,
>)
    ensures
        ({
            let name = text::trim(command@);
            let found = text::first_listed(
                candidates(name, env::value_in(vars@, "PATH"@)),
                text::texts(executables@),
            );
            if name.len() == 0 {
                r == Err::<String, ResolveError>(ResolveError::EmptyCommand)
            } else if found is Some {
                r is Ok && r->Ok_0@ == found->0
            } else {
                r is Err && match r->Err_0 {
                    ResolveError::NotFound(missing) => missing@ == name,
                    _ => false,
                }
            }
        }),
{
    let name = trimmed(command);
    if name.as_str().unicode_len() == 0 {
        return Err(ResolveError::EmptyCommand);
    }
    match resolve_executable(name.as_str(), vars.get("PATH"), executables) {
        Some(path) => Ok(path),
        None => Err(ResolveError::NotFound(name)),
    }
}

/// What to tell the user of a failed resolution.
pub open spec fn resolve_message(e: ResolveError) -> Seq<char> {
    match e {
        ResolveError::NoShell(value) => "No executable shell found. SHELL was "@ + (match value {
            Some(v) => text::debug_form(v@),
            None => "unset or empty"@,
        }) + "."@,
        ResolveError::EmptyCommand => "Empty command."@,
        ResolveError::NotFound(name) => "Command not found: "@ + name@,
    }
}

impl ResolveError {
    /// What to tell the user.
    pub fn message(&self) -> (r: String)
        ensures
            r@ == resolve_message(*self),
    {
        let mut out = String::new();
        match self {
            ResolveError::NoShell(value) => {
                out.append("No executable shell found. SHELL was ");
                match value {
                    Some(v) => out.append(debug_quoted(v.as_str()).as_str()),
                    None => out.append("unset or empty"),
                }
                out.append(".");
            },
            ResolveError::EmptyCommand => out.append("Empty command."),
            ResolveError::NotFound(name) => {
                out.append("Command not found: ");
                out.append(name.as_str());
            },
        }
        assert(out@ =~= resolve_message(*self));
        out
    }
}

// ---------------------------------------------------------------------------
// Starting a session
// ---------------------------------------------------------------------------

/// What a session runs: the program, and the arguments that follow it.
#[derive(Debug, Clone, PartialEq, Eq)]
pub struct SessionPlan {
    pub shell: String,
    pub args: Vec<String>,
}

/// Why a session does not start.
#[derive(Debug, Clone, PartialEq, Eq)]
pub enum StartRefusal {
    /// It would be nested.
    Nested,
    /// There is no interactive terminal.
    NotInteractive,
    /// There is no program to run.
    Unresolved(ResolveError),
}

/// The model of a refusal.
#[verifier::ext_equal]
pub enum RefusalView {
    Nested,
    NotInteractive,
    NoShell(Option<Seq<char>>),
    EmptyCommand,
    NotFound(Seq<char>),
}

impl View for StartRefusal {
    type V = RefusalView;

    open spec fn view(&self) -> RefusalView {
        match *self {
            StartRefusal::Nested => RefusalView::Nested,
            StartRefusal::NotInteractive => RefusalView::NotInteractive,
            StartRefusal::Unresolved(e) => match e {
                ResolveError::NoShell(value) => RefusalView::NoShell(text::opt_text(value)),
                ResolveError::EmptyCommand => RefusalView::EmptyCommand,
                ResolveError::NotFound(name) => RefusalView::NotFound(name@),
            },
        }
    }
}

/// The paths that a session's program may be found at, in order: the requested command's,
/// or else the shell's.
pub open spec fn session_paths(
    command: Seq<Seq<char>>,
    vars: Map<Seq<char>, Seq<char>>,
) -> Seq<Seq<char>> {
    if command.len() == 0 {
        shell_paths(vars)
    } else {
        candidates(text::trim(command[0]), env::value_in(vars, "PATH"@))
    }
}

/// What a session runs, or why it does not start. A nested start is refused before
/// anything else is looked at, and a start without a terminal before any program is.
pub open spec fn session_plan(
    command: Seq<Seq<char>>,
    vars: Map<Seq<char>, Seq<char>>,
    is_nested: bool,
    interactive: bool,
    executables: Seq<Seq<char>>,
) -> Result<(Seq<char>, Seq<Seq<char>>), RefusalView> {
    if is_nested {
        Err(RefusalView::Nested)
    } else if !interactive {
        Err(RefusalView::NotInteractive)
    } else if command.len() > 0 && text::trim(command[0]).len() == 0 {
        Err(RefusalView::EmptyCommand)
    } else {
        match text::first_listed(session_paths(command, vars), executables) {
            Some(path) => Ok(
                (
                    path,
                    if command.len() == 0 {
                        seq![]
                    } else {
                        command.skip(1)
                    },
                ),
            ),
            None => Err(
                if command.len() == 0 {
                    RefusalView::NoShell(env::value_in(vars, "SHELL"@))
                } else {
                    RefusalView::NotFound(text::trim(command[0]))
                },
            ),
        }
    }
}

/// What to tell the user of a refused start.
pub open spec fn refusal_message(refusal: StartRefusal) -> Seq<char> {
    match refusal {
        StartRefusal::Nested => "koshell is already running in this shell. Start a new regular terminal session before launching koshell again."@,
        StartRefusal::NotInteractive => "koshell must be started from an interactive TTY."@,
        StartRefusal::Unresolved(e) => resolve_message(e),
    }
}

/// A session only ever runs a program that may be executed, at one of the paths it may be
/// found at, and hands on the rest of the command as it stands.
pub proof fn a_session_runs_an_executable_candidate(
    command: Seq<Seq<char>>,
    vars: Map<Seq<char>, Seq<char>>,
    is_nested: bool,
    interactive: bool,
    executables: Seq<Seq<char>>,
)
    requires
        session_plan(command, vars, is_nested, interactive, executables) is Ok,
    ensures
        !is_nested,
        interactive,
        ({
            let (shell, args) = session_plan(
                command,
                vars,
                is_nested,
                interactive,
                executables,
            )->Ok_0;
            &&& session_paths(command, vars).contains(shell)
            &&& text::listed(executables, shell)
            &&& command.len() > 0 ==> args == command.skip(1)
            &&& command.len() == 0 ==> args.len() == 0
        }),
{
    lemma_first_listed(session_paths(command, vars), executables);
}

proof fn lemma_first_listed(paths: Seq<Seq<char>>, list: Seq<Seq<char>>)
    ensures
        text::first_listed(paths, list) matches Some(path) ==> paths.contains(path)
            && text::listed(list, path),
    decreases paths.len(),
{
    if paths.len() > 0 {
        let init = paths.drop_last();
        lemma_first_listed(init, list);
        match text::first_listed(init, list) {
            Some(path) => {
                let i = init.index_of(path);
                assert(paths[i] == path);
            },
            None => {
                assert(paths[paths.len() - 1] == paths.last());
            },
        }
    }
}

/// The paths that a session's program may be found at, in order.
pub fn session_candidates(command: &Vec<String>, vars: &Env) -> (r: Vec<String>)
    ensures
        text::texts(r@) == session_paths(text::texts(command@), vars@),
{
    if command.len() == 0 {
        shell_candidates(vars)
    } else {
        command_candidates(trimmed(command[0].as_str()).as_str(), vars.get("PATH"))
    }
}

/// Decides what a session runs. With an empty `command` it is the default shell;
/// otherwise `command[0]`, with the remaining elements as its arguments. `marker_live` is
/// whether a live koshell owns [`branded_tty`], `interactive` whether input and output are
/// both a terminal, and `executables` what the caller found of [`session_candidates`].
pub fn plan_session(
    command: &Vec<String>,
    vars: &Env,
    current_tty: Option<&str>,
    marker_live: bool,
    interactive: bool,
    executables: &Vec<String>,
) -> (r: Result<SessionPlan, StartRefusal>)
    ensures
        ({
            let is_nested = nested(
                vars@,
                match current_tty {
                    Some(t) => Some(t@),
                    None => None,
                },
                marker_live,
            );
            match session_plan(
                text::texts(command@),
                vars@,
                is_nested,
                interactive,
                text::texts(executables@),
            ) {
                Ok(plan) => r is Ok && r->Ok_0.shell@ == plan.0 && text::texts(r->Ok_0.args@)
                    == plan.1,
                Err(refusal) => r is Err && r->Err_0@ == refusal,
            }
        }),
{
    if assert_not_nested_koshell(vars, current_tty, marker_live).is_err() {
        return Err(StartRefusal::Nested);
    }
    if !interactive {
        return Err(StartRefusal::NotInteractive);
    }
    let ghost views = text::texts(command@);
    if command.len() == 0 {
        return match resolve_shell(vars, executables) {
            Ok(shell) => {
                let args: Vec<String> = Vec::new();
                assert(text::texts(args@) =~= Seq::<Seq<char>>::empty());
                Ok(SessionPlan { shell, args })
            },
            Err(e) => Err(StartRefusal::Unresolved(e)),
        };
    }
    assert(views[0] == command@[0]@);
    match resolve_command(command[0].as_str(), vars, executables) {
        Ok(shell) => {
            let mut args = clone_texts(command);
            args.remove(0);
            assert(text::texts(args@) =~= views.skip(1)) by {
                assert(views.skip(1) =~= views.remove(0));
            }
            Ok(SessionPlan { shell, args })
        },
        Err(e) => Err(StartRefusal::Unresolved(e)),
    }
}

impl StartRefusal {
    /// What to tell the user.
    pub fn message(&self) -> (r: String)
        ensures
            r@ == refusal_message(*self),
    {
        match self {
            StartRefusal::Nested => NestedLaunch.message().to_owned(),
            StartRefusal::NotInteractive => "koshell must be started from an interactive TTY.".to_owned(),
            StartRefusal::Unresolved(e) => e.message(),
        }
    }
}

// ---------------------------------------------------------------------------
// The child's environment
// ---------------------------------------------------------------------------

/// The environment of the child.
pub open spec fn pty_env(source: Map<Seq<char>, Seq<char>>, session_id: Seq<char>) -> Map<
    Seq<char>,
    Seq<char>,
> {
    let path = env::value_in(source, "PATH"@);
    source.insert("KOSHELL"@, session_id).insert(
        "PATH"@,
        if path is Some && text::trim(path->0).len() > 0 {
            path->0
        } else {
            FALLBACK_PATH@
        },
    )
}

/// Builds the child PTY environment: copies the source environment, sets the
/// always-present base `KOSHELL` marker (the session id), and normalizes an empty or
/// whitespace `PATH` to [`FALLBACK_PATH`]. The marker is upgraded to
/// `<session-id>,<tty>` once the child pts is known and its liveness marker written; if
/// that branding is skipped, this base value keeps the coarse recursion guard working.
pub fn create_pty_env(source: &Env, session_id: &str) -> (r: Env)
    requires
        source.wf(),
    ensures
        r.wf(),
        r@ == pty_env(source@, session_id@),
{
    let mut out = source.copy();
    out.insert(KOSHELL_ENV_KEY, session_id);
    match source.get("PATH") {
        Some(value) if !is_blank(value.as_str()) => out.insert("PATH", value.as_str()),
        _ => out.insert("PATH", FALLBACK_PATH),
    }
    out
}

// ---------------------------------------------------------------------------
// Nested starts
// ---------------------------------------------------------------------------

/// A tty path as one path component.
pub open spec fn escaped(tty: Seq<char>) -> Seq<char> {
    tty.map_values(
        |c: char|
            if c == '/' {
                '_'
            } else {
                c
            },
    )
}

/// Where the liveness marker of a tty lies.
pub open spec fn marker_path(vars: Map<Seq<char>, Seq<char>>, tty: Seq<char>) -> Seq<char> {
    paths::below(paths::below(ipc::runtime_path(vars), "tty"@), escaped(tty))
}

/// The marker's name is a single path component, whatever the tty.
pub proof fn a_marker_is_one_component(tty: Seq<char>, i: int)
    requires
        0 <= i < tty.len(),
    ensures
        escaped(tty).len() == tty.len(),
        escaped(tty)[i] != '/',
{
}

/// The liveness marker file path for a wrapped `tty`, by convention rather than carried
/// in the environment: `<runtime_dir>/tty/<tty-with-slashes-escaped>`.
pub fn tty_marker_path(vars: &Env, tty: &str) -> (r: String)
    ensures
        r@ == marker_path(vars@, tty@),
        paths::absolute(r@),
{
    let chars = chars_of(tty);
    let mut name = String::new();
    let mut i: usize = 0;
    assert(name@ =~= escaped(tty@).take(0));
    while i < chars.len()
        invariant
            chars@ == tty@,
            i <= chars@.len(),
            name@ == escaped(tty@).take(i as int),
        decreases chars@.len() - i,
    {
        if chars[i] == '/' {
            name.push('_');
        } else {
            name.push(chars[i]);
        }
        i += 1;
        assert(name@ =~= escaped(tty@).take(i as int));
    }
    assert(escaped(tty@).take(i as int) =~= escaped(tty@));
    join_path(join_path(runtime_dir(vars).as_str(), "tty").as_str(), name.as_str())
}

/// The process that a liveness marker names. Unreadable or garbage contents name none,
/// which is the safe default (the brand counts as stale).
pub fn marker_owner(contents: Option<&str>) -> (r: Option<i32>)
    ensures
        match contents {
            None => r is None,
            Some(c) => match text::signed_value(text::trim(c@)) {
                Some(n) => if i32::MIN <= n <= i32::MAX {
                    r is Some && r->0 == n
                } else {
                    r is None
                },
                None => r is None,
            },
        },
{
    match contents {
        None => None,
        Some(c) => parse_i32(trimmed(c).as_str()),
    }
}

/// The file beside a liveness marker that the koshell of a wrapped `tty` records its
/// version in.
pub fn tty_version_path(vars: &Env, tty: &str) -> (r: String)
    ensures
        r@ == marker_path(vars@, tty@) + ".version"@,
{
    let mut path = tty_marker_path(vars, tty);
    path.append(".version");
    path
}

/// The version that a file's text records. An unreadable or blank file records none.
pub fn recorded_version(contents: Option<&str>) -> (r: Option<String>)
    ensures
        text::opt_text(r) == match contents {
            Some(c) => if text::trim(c@).len() > 0 {
                Some(text::trim(c@))
            } else {
                None
            },
            None => None,
        },
{
    match contents {
        Some(c) => {
            let version = trimmed(c);
            if version.as_str().unicode_len() > 0 {
                Some(version)
            } else {
                None
            }
        },
        None => None,
    }
}

/// Whether a start is nested.
pub open spec fn nested(
    vars: Map<Seq<char>, Seq<char>>,
    current_tty: Option<Seq<char>>,
    marker_live: bool,
) -> bool {
    match env::value_in(vars, "KOSHELL"@) {
        Some(value) => if value.len() == 0 {
            false
        } else {
            match tty_field(value) {
                Some(marked) => current_tty == Some(marked) && marker_live,
                None => true,
            }
        },
        None => false,
    }
}

/// The tty that the inherited brand names, whose liveness marker decides a start.
pub fn branded_tty(vars: &Env) -> (r: Option<&str>)
    ensures
        match r {
            Some(tty) => env::value_in(vars@, "KOSHELL"@) is Some && tty_field(
                env::value_in(vars@, "KOSHELL"@)->0,
            ) == Some(tty@),
            None => env::value_in(vars@, "KOSHELL"@) is None || tty_field(
                env::value_in(vars@, "KOSHELL"@)->0,
            ) is None,
        },
{
    match vars.get(KOSHELL_ENV_KEY) {
        Some(value) => koshell_tty(value.as_str()),
        None => None,
    }
}

/// Returns true when this process is a genuine same-terminal nested koshell launch.
///
/// When `KOSHELL`'s tty field is set, nested iff it equals this process's controlling
/// tty and a live koshell still owns that tty (`marker_live`). A brand inherited across
/// a tty boundary names a different tty; a brand inherited onto a recycled pts whose
/// original koshell has died fails the liveness test. Either way the shell is not nested
/// and wraps.
///
/// When the tty field is absent, the mere presence of `KOSHELL` counts, so recursion is
/// still broken.
pub fn is_nested_koshell(vars: &Env, current_tty: Option<&str>, marker_live: bool) -> (r: bool)
    ensures
        r == nested(
            vars@,
            match current_tty {
                Some(t) => Some(t@),
                None => None,
            },
            marker_live,
        ),
{
    match vars.get(KOSHELL_ENV_KEY) {
        Some(value) => if value.as_str().unicode_len() == 0 {
            false
        } else {
            match koshell_tty(value.as_str()) {
                Some(marked) => match current_tty {
                    Some(tty) => same_text(tty, marked) && marker_live,
                    None => false,
                },
                None => true,
            }
        },
        None => false,
    }
}

/// Fails when koshell is being launched from inside a live koshell on the same terminal.
/// `marker_live` is whether a live koshell owns [`branded_tty`].
pub fn assert_not_nested_koshell(vars: &Env, current_tty: Option<&str>, marker_live: bool) -> (r:
    Result<(), NestedLaunch>)
    ensures
        r is Err <==> nested(
            vars@,
            match current_tty {
                Some(t) => Some(t@),
                None => None,
            },
            marker_live,
        ),
{
    if is_nested_koshell(vars, current_tty, marker_live) {
        Err(NestedLaunch)
    } else {
        Ok(())
    }
}

impl NestedLaunch {
    /// What to tell the user.
    pub fn message(&self) -> (r: &'static str)
        ensures
            r@ == "koshell is already running in this shell. Start a new regular terminal session before launching koshell again."@,
    {
        "koshell is already running in this shell. Start a new regular terminal session before launching koshell again."
    }
}

/// A start on another tty than the branded one is never nested, and on the branded one
/// only while its koshell lives.
pub proof fn a_foreign_or_stale_brand_wraps(
    vars: Map<Seq<char>, Seq<char>>,
    current_tty: Option<Seq<char>>,
    marker_live: bool,
)
    requires
        env::value_in(vars, "KOSHELL"@) is Some,
        tty_field(env::value_in(vars, "KOSHELL"@)->0) is Some,
        current_tty != tty_field(env::value_in(vars, "KOSHELL"@)->0) || !marker_live,
    ensures
        !nested(vars, current_tty, marker_live),
{
}

} // verus!
