//! Auto-spawning the AI daemon: the command resolution chain, the detached spawn's
//! command line, and the per-session spawn cooldown.
//!
//! When a `#?` dispatch cannot connect to the daemon socket, the terminal starts the
//! daemon itself so the user never runs it by hand. Which files exist, and the spawn
//! itself, are for the caller.

use crate::clock;
use crate::clock::elapsed_between;
use crate::env;
use crate::env::Env;
use crate::ipc;
use crate::logging;
use crate::logging::state_dir;
use crate::paths;
use crate::paths::join_path;
use crate::shell;
use crate::text;
use crate::text::{find_listed, is_listed, shell_quoted, split_text};
use vstd::prelude::*;

verus! {

/// Escape hatch: any non-empty value disables auto-spawn. Gates the interactive path
/// only; an explicit start ignores it.
pub const DISABLE_ENV_KEY: &'static str = "KOSHELL_NO_DAEMON_SPAWN";

/// Verbatim daemon command line, run through `sh -c`.
pub const DAEMON_CMD_ENV: &'static str = "KOSHELL_DAEMON_CMD";

/// Installed daemon binary name, looked for next to the `koshell` executable and then on
/// `PATH`.
pub const DAEMON_BIN_NAME: &'static str = "koshell-ai-daemon";

/// A spawn is attempted at most once per this interval per session: a daemon that dies
/// is respawned on a later `#?`, while a broken command costs at most one cheap fork per
/// window. In milliseconds.
pub const SPAWN_COOLDOWN: u64 = 30_000;

/// After a spawn, the dispatch path retries the connect for up to this long, in
/// milliseconds.
pub const CONNECT_RETRY_BUDGET: u64 = 1_000;

/// Poll interval while retrying the connect, in milliseconds.
pub const CONNECT_RETRY_STEP: u64 = 50;

/// How long to pause before the next try to connect, that long after a spawn; `None` once
/// the budget is spent.
pub fn retry_pause(waited: u64) -> (r: Option<u64>)
    ensures
        r == if waited < CONNECT_RETRY_BUDGET {
            Some(CONNECT_RETRY_STEP)
        } else {
            None
        },
{
    if waited < CONNECT_RETRY_BUDGET {
        Some(CONNECT_RETRY_STEP)
    } else {
        None
    }
}

/// A resolved way to launch the daemon. `source` records which rung of the chain
/// matched, for logging.
#[derive(Debug, Clone, PartialEq, Eq)]
pub struct SpawnPlan {
    pub command_line: String,
    pub source: &'static str,
}

/// The model of a plan: the command line, and the rung that matched.
pub open spec fn plan_view(plan: Option<SpawnPlan>) -> Option<(Seq<char>, Seq<char>)> {
    match plan {
        Some(p) => Some((p.command_line@, p.source@)),
        None => None,
    }
}

/// Where the daemon binary may lie next to the executable.
pub open spec fn adjacent_path(exe_dir: Option<Seq<char>>) -> Seq<Seq<char>> {
    match exe_dir {
        Some(dir) => seq![paths::below(dir, DAEMON_BIN_NAME@)],
        None => seq![],
    }
}

/// Where the daemon binary may lie on the `PATH`.
pub open spec fn path_paths(vars: Map<Seq<char>, Seq<char>>) -> Seq<Seq<char>> {
    match env::value_in(vars, "PATH"@) {
        Some(path) => shell::below_each(text::split_on(path, ':'), DAEMON_BIN_NAME@),
        None => seq![],
    }
}

/// The way to launch the daemon: an explicit command line wins, then a binary next to
/// the executable, then one on the `PATH`.
pub open spec fn resolved(
    vars: Map<Seq<char>, Seq<char>>,
    exe_dir: Option<Seq<char>>,
    files: Seq<Seq<char>>,
) -> Option<(Seq<char>, Seq<char>)> {
    match ipc::filled(vars, "KOSHELL_DAEMON_CMD"@) {
        Some(command) => Some((command, "env"@)),
        None => match text::first_listed(adjacent_path(exe_dir), files) {
            Some(path) => Some((text::single_quoted(path), "adjacent"@)),
            None => match text::first_listed(path_paths(vars), files) {
                Some(path) => Some((text::single_quoted(path), "path"@)),
                None => None,
            },
        },
    }
}

/// Single-quotes a string for safe inclusion in an `sh -c` command line.
pub fn sh_quote(value: &str) -> (r: String)
    ensures
        r@ == text::single_quoted(value@),
{
    shell_quoted(value)
}

/// The paths at which the daemon binary is looked for on the `PATH`, in order.
pub fn path_candidates(vars: &Env) -> (r: Vec<String>)
    ensures
        text::texts(r@) == path_paths(vars@),
{
    let mut out: Vec<String> = Vec::new();
    assert(text::texts(out@) =~= Seq::<Seq<char>>::empty());
    let dirs = match vars.get("PATH") {
        Some(path) => split_text(path.as_str(), ':'),
        None => {
            return out;
        },
    };
    let ghost views = text::texts(dirs@);
    let ghost goal = shell::below_each(views, DAEMON_BIN_NAME@);
    let mut i: usize = 0;
    assert(text::texts(out@) =~= goal.take(0));
    while i < dirs.len()
        invariant
            i <= dirs@.len(),
            views == text::texts(dirs@),
            goal == shell::below_each(views, DAEMON_BIN_NAME@),
            text::texts(out@) == goal.take(i as int),
        decreases dirs@.len() - i,
    {
        let ghost before = text::texts(out@);
        let candidate = join_path(dirs[i].as_str(), DAEMON_BIN_NAME);
        let ghost c = candidate@;
        out.push(candidate);
        assert(text::texts(out@) =~= before.push(c));
        assert(views[i as int] == dirs@[i as int]@);
        i += 1;
        assert(text::texts(out@) =~= goal.take(i as int));
    }
    assert(goal.take(i as int) =~= goal);
    out
}

/// Every path at which the daemon binary is looked for, in order: next to the executable,
/// then on the `PATH`.
pub fn plan_candidates(vars: &Env, exe_dir: Option<&str>) -> (r: Vec<String>)
    ensures
        text::texts(r@) == adjacent_path(
            match exe_dir {
                Some(d) => Some(d@),
                None => None,
            },
        ) + path_paths(vars@),
{
    let mut out: Vec<String> = Vec::new();
    if let Some(dir) = exe_dir {
        out.push(join_path(dir, DAEMON_BIN_NAME));
    }
    let ghost first = adjacent_path(
        match exe_dir {
            Some(d) => Some(d@),
            None => None,
        },
    );
    assert(text::texts(out@) =~= first);
    let mut more = path_candidates(vars);
    let ghost second = text::texts(more@);
    out.append(&mut more);
    assert(text::texts(out@) =~= first + second);
    out
}

/// Resolves the daemon launch command, independent of the kill switch. `files` is what
/// the caller found of [`plan_candidates`]:
///
/// 1. `KOSHELL_DAEMON_CMD`, verbatim.
/// 2. A `koshell-ai-daemon` binary next to the koshell executable.
/// 3. A `koshell-ai-daemon` binary on `PATH`.
///
/// There is deliberately no source-tree fallback: baking the build-time path into the
/// binary would leak it and break once the binary moves.
pub fn resolve_plan(vars: &Env, exe_dir: Option<&str>, files: &Vec<String>) -> (r: Option<SpawnPlan>)
    ensures
        plan_view(r) == resolved(
            vars@,
            match exe_dir {
                Some(d) => Some(d@),
                None => None,
            },
            text::texts(files@),
        ),
{
    if let Some(command) = vars.get(DAEMON_CMD_ENV) {
        if command.as_str().unicode_len() > 0 {
            return Some(SpawnPlan { command_line: command.clone(), source: "env" });
        }
    }
    let ghost adjacent = adjacent_path(
        match exe_dir {
            Some(d) => Some(d@),
            None => None,
        },
    );
    if let Some(dir) = exe_dir {
        let candidate = join_path(dir, DAEMON_BIN_NAME);
        assert(adjacent.drop_last() =~= Seq::<Seq<char>>::empty());
        assert(adjacent.last() == candidate@);
        assert(text::first_listed(adjacent.drop_last(), text::texts(files@)) is None);
        if is_listed(files, candidate.as_str()) {
            return Some(
                SpawnPlan { command_line: sh_quote(candidate.as_str()), source: "adjacent" },
            );
        }
    }
    match find_listed(&path_candidates(vars), files) {
        Some(found) => Some(
            SpawnPlan { command_line: sh_quote(found.as_str()), source: "path" },
        ),
        None => None,
    }
}

/// Whether the auto-spawn kill switch is set.
pub fn kill_switch_set(vars: &Env) -> (r: bool)
    ensures
        r == (ipc::filled(vars@, "KOSHELL_NO_DAEMON_SPAWN"@) is Some),
{
    match vars.get(DISABLE_ENV_KEY) {
        Some(value) => value.as_str().unicode_len() > 0,
        None => false,
    }
}

/// The auto-spawned daemon's log file: `$XDG_STATE_HOME/koshell/daemon.log`; `None` when
/// there is no usable state directory.
pub fn daemon_log_path(vars: &Env) -> (r: Option<String>)
    ensures
        text::opt_text(r) == (match logging::state_path(vars@) {
            Some(dir) => Some(paths::below(dir, "daemon.log"@)),
            None => None,
        }),
{
    match state_dir(vars) {
        Some(dir) => Some(join_path(dir.as_str(), "daemon.log")),
        None => None,
    }
}

/// The script that starts the daemon.
pub open spec fn script_of(command_line: Seq<char>, log_path: Seq<char>) -> Seq<char> {
    "exec "@ + command_line + " </dev/null >>"@ + text::single_quoted(log_path) + " 2>&1 &"@
}

/// The shell script that starts the daemon fully detached, so it outlives this terminal
/// and never becomes a zombie: the shell backgrounds the daemon and exits immediately,
/// waiting on it reaps the only direct child, and the daemon is reparented.
pub fn spawn_script(plan: &SpawnPlan, log_path: &str) -> (r: String)
    ensures
        r@ == script_of(plan.command_line@, log_path@),
{
    let mut out = String::new();
    out.append("exec ");
    out.append(plan.command_line.as_str());
    out.append(" </dev/null >>");
    out.append(sh_quote(log_path).as_str());
    out.append(" 2>&1 &");
    assert(out@ =~= script_of(plan.command_line@, log_path@));
    out
}

/// Whether a spawn attempted at `last` still blocks another one at `now`.
pub open spec fn cooling(last: Option<u64>, now: u64) -> bool {
    last is Some && clock::elapsed(last->0, now) < SPAWN_COOLDOWN
}

/// Whether a spawn attempted at `last` is still within the cooldown at `now`.
pub fn cooldown_active(last: Option<u64>, now: u64) -> (r: bool)
    ensures
        r == cooling(last, now),
{
    match last {
        Some(last) => elapsed_between(last, now) < SPAWN_COOLDOWN,
        None => false,
    }
}

/// Per-session daemon spawner: holds the launch command (honoring the kill switch) and
/// enforces the spawn cooldown.
pub struct DaemonSpawner {
    plan: Option<SpawnPlan>,
    last_attempt: Option<u64>,
}

/// The model of a spawner.
#[verifier::ext_equal]
pub struct SpawnerView {
    pub plan: Option<(Seq<char>, Seq<char>)>,
    pub last_attempt: Option<u64>,
}

impl View for DaemonSpawner {
    type V = SpawnerView;

    closed spec fn view(&self) -> SpawnerView {
        SpawnerView { plan: plan_view(self.plan), last_attempt: self.last_attempt }
    }
}

impl SpawnerView {
    /// Whether a spawn is attempted at `now`.
    pub open spec fn ready(self, now: u64) -> bool {
        self.plan is Some && !cooling(self.last_attempt, now)
    }

    /// After being asked at `now`.
    pub open spec fn asked(self, now: u64) -> SpawnerView {
        if self.ready(now) {
            SpawnerView { last_attempt: Some(now), ..self }
        } else {
            self
        }
    }
}

/// However often a spawner is asked, two attempts lie at least a cooldown apart.
pub proof fn attempts_are_spaced(s: SpawnerView, now: u64, later: u64)
    requires
        s.ready(now),
        s.asked(now).ready(later),
    ensures
        later >= now + SPAWN_COOLDOWN,
{
}

impl DaemonSpawner {
    /// For the interactive auto-spawn path: honors `KOSHELL_NO_DAEMON_SPAWN`. `plan` is
    /// what [`resolve_plan`] gave.
    pub fn new(vars: &Env, plan: Option<SpawnPlan>) -> (r: Self)
        ensures
            r@ == (SpawnerView {
                plan: if ipc::filled(vars@, "KOSHELL_NO_DAEMON_SPAWN"@) is Some {
                    None
                } else {
                    plan_view(plan)
                },
                last_attempt: None,
            }),
    {
        DaemonSpawner {
            plan: if kill_switch_set(vars) {
                None
            } else {
                plan
            },
            last_attempt: None,
        }
    }

    /// The launch command, unless there is none or the kill switch is set.
    pub fn plan(&self) -> (r: Option<&SpawnPlan>)
        ensures
            match r {
                Some(p) => self@.plan == Some((p.command_line@, p.source@)),
                None => self@.plan is None,
            },
    {
        match &self.plan {
            Some(p) => Some(p),
            None => None,
        }
    }

    /// Asks for a spawn, subject to the cooldown. Returns `true` when one is to be
    /// launched now, `false` when there is no plan or the cooldown is active.
    pub fn try_spawn(&mut self, now: u64) -> (r: bool)
        ensures
            r == old(self)@.ready(now),
            final(self)@ == old(self)@.asked(now),
    {
        if self.plan.is_none() || cooldown_active(self.last_attempt, now) {
            return false;
        }
        self.last_attempt = Some(now);
        true
    }
}

} // verus!
