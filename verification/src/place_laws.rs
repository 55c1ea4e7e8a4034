//! What holds of the places and programs that the environment names.

use crate::clock;
use crate::daemon_spawn;
use crate::daemon_spawn::SpawnerView;
use crate::env;
use crate::event_log;
use crate::ipc;
use crate::logging;
use crate::paths;
use crate::shell;
use crate::shell_integration;
use crate::shell_integration::ShellIntegrationKind;
use crate::text;
use crate::text_laws;
use vstd::prelude::*;

verus! {

/// A variable that is set and not empty.
pub open spec fn is_set(vars: Map<Seq<char>, Seq<char>>, name: Seq<char>) -> bool {
    vars.contains_key(name) && vars[name].len() > 0
}

/// A variable that is set and not blank.
pub open spec fn says_something(vars: Map<Seq<char>, Seq<char>>, name: Seq<char>) -> bool {
    vars.contains_key(name) && text::trim(vars[name]).len() > 0
}

/// A variable that names a place from the root on.
pub open spec fn is_rooted(vars: Map<Seq<char>, Seq<char>>, name: Seq<char>) -> bool {
    vars.contains_key(name) && vars[name].len() > 0 && vars[name][0] == '/'
}

// ---------------------------------------------------------------------------
// The daemon
// ---------------------------------------------------------------------------

/// A launch command that the environment gives is used as it stands, whatever else there
/// is.
pub proof fn a_given_launch_command_wins(
    vars: Map<Seq<char>, Seq<char>>,
    exe_dir: Option<Seq<char>>,
    files: Seq<Seq<char>>,
)
    requires
        is_set(vars, "KOSHELL_DAEMON_CMD"@),
    ensures
        daemon_spawn::resolved(vars, exe_dir, files) == Some(
            (vars["KOSHELL_DAEMON_CMD"@], "env"@),
        ),
{
}

/// Otherwise the binary beside the executable is launched where it is there, before any on
/// the `PATH`; a shell reads the command line as that very path.
pub proof fn the_binary_beside_the_executable_comes_next(
    vars: Map<Seq<char>, Seq<char>>,
    dir: Seq<char>,
    files: Seq<Seq<char>>,
)
    requires
        !is_set(vars, "KOSHELL_DAEMON_CMD"@),
        text::listed(files, paths::below(dir, "koshell-ai-daemon"@)),
    ensures
        ({
            let plan = daemon_spawn::resolved(vars, Some(dir), files);
            &&& plan is Some
            &&& (plan->0).1 == "adjacent"@
            &&& text_laws::word_read((plan->0).0, false) == Some(
                paths::below(dir, "koshell-ai-daemon"@),
            )
        }),
{
    let beside = daemon_spawn::adjacent_path(Some(dir));
    text_laws::the_first_listed_candidate_is_found(beside, files, 0);
    text_laws::a_quoted_word_is_read_back(beside[0]);
}

/// Last comes the first one on the `PATH`, and with none of them there is no way to launch
/// the daemon.
pub proof fn the_path_comes_last(
    vars: Map<Seq<char>, Seq<char>>,
    exe_dir: Option<Seq<char>>,
    files: Seq<Seq<char>>,
    i: int,
)
    requires
        !is_set(vars, "KOSHELL_DAEMON_CMD"@),
        exe_dir matches Some(dir) ==> !text::listed(
            files,
            paths::below(dir, "koshell-ai-daemon"@),
        ),
        vars.contains_key("PATH"@),
        0 <= i < text::split_on(vars["PATH"@], ':').len(),
        forall|j: int|
            0 <= j < i ==> !text::listed(
                files,
                paths::below(#[trigger] text::split_on(vars["PATH"@], ':')[j], "koshell-ai-daemon"@),
            ),
    ensures
        ({
            let plan = daemon_spawn::resolved(vars, exe_dir, files);
            let dirs = text::split_on(vars["PATH"@], ':');
            let here = paths::below(dirs[i], "koshell-ai-daemon"@);
            &&& text::listed(files, here) ==> plan is Some && (plan->0).1 == "path"@
                && text_laws::word_read((plan->0).0, false) == Some(here)
            &&& !text::listed(files, here) && i == dirs.len() - 1 ==> plan is None
        }),
{
    let beside = daemon_spawn::adjacent_path(exe_dir);
    text_laws::nothing_is_found_off_the_list(beside, files);
    let all = daemon_spawn::path_paths(vars);
    let dirs = text::split_on(vars["PATH"@], ':');
    assert forall|j: int| 0 <= j < i implies !text::listed(files, #[trigger] all[j]) by {
        assert(all[j] == paths::below(dirs[j], "koshell-ai-daemon"@));
    }
    if text::listed(files, all[i]) {
        text_laws::the_first_listed_candidate_is_found(all, files, i);
        text_laws::a_quoted_word_is_read_back(all[i]);
    } else if i == dirs.len() - 1 {
        text_laws::nothing_is_found_off_the_list(all, files);
    }
}

/// The script runs the command line, with its output appended to the log, in the
/// background; the log's path is read back as it is.
pub proof fn the_script_runs_the_command(command_line: Seq<char>, log_path: Seq<char>)
    ensures
        ({
            let script = daemon_spawn::script_of(command_line, log_path);
            let lead = "exec "@ + command_line + " </dev/null >>"@;
            &&& lead.is_prefix_of(script)
            &&& " 2>&1 &"@.is_suffix_of(script)
            &&& text_laws::word_read(
                script.subrange(lead.len() as int, script.len() - " 2>&1 &"@.len()),
                false,
            ) == Some(log_path)
        }),
{
    let script = daemon_spawn::script_of(command_line, log_path);
    let lead = "exec "@ + command_line + " </dev/null >>"@;
    let tail = " 2>&1 &"@;
    let word = text::single_quoted(log_path);
    assert(script =~= lead + word + tail);
    assert(lead =~= script.subrange(0, lead.len() as int));
    assert(tail =~= script.subrange(script.len() - tail.len(), script.len() as int));
    assert(script.subrange(lead.len() as int, script.len() - tail.len()) =~= word);
    text_laws::a_quoted_word_is_read_back(log_path);
}

/// A spawner with a plan attempts at once, then waits half a minute after each attempt;
/// without one it never attempts. Being refused changes nothing.
pub proof fn a_spawner_waits_half_a_minute(s: SpawnerView, now: u64)
    ensures
        s.plan is None ==> !s.ready(now),
        s.plan is Some && s.last_attempt is None ==> s.ready(now),
        s.plan is Some ==> (s.last_attempt matches Some(last) ==> (s.ready(now) <==> now >= last
            + 30_000)),
        s.ready(now) ==> s.asked(now).last_attempt == Some(now) && s.asked(now).plan == s.plan,
        !s.ready(now) ==> s.asked(now) == s,
{
}

// ---------------------------------------------------------------------------
// Directories and files
// ---------------------------------------------------------------------------

/// The runtime directory lies below the first of these places that is named from the root
/// on: the runtime directory, the cache, the home directory's cache, the root's.
pub proof fn the_runtime_directory_follows_this_order(vars: Map<Seq<char>, Seq<char>>)
    ensures
        ({
            let at = ipc::runtime_path(vars);
            let run = is_rooted(vars, "XDG_RUNTIME_DIR"@);
            let cache = is_rooted(vars, "XDG_CACHE_HOME"@);
            let home = is_rooted(vars, "HOME"@);
            let under = |base: Seq<char>|
                paths::below(paths::below(base, ".cache"@), "koshell"@);
            &&& run ==> at == paths::below(vars["XDG_RUNTIME_DIR"@], "koshell"@)
            &&& !run && cache ==> at == paths::below(vars["XDG_CACHE_HOME"@], "koshell"@)
            &&& !run && !cache && home ==> at == under(vars["HOME"@])
            &&& !run && !cache && !home ==> at == under("/"@)
        }),
{
}

/// The log filter is the command line's, or else the environment's, or else warnings.
pub proof fn the_log_filter_follows_this_order(
    level: Seq<char>,
    vars: Map<Seq<char>, Seq<char>>,
)
    ensures
        logging::filter_of(Some(level), vars) == level,
        says_something(vars, "KOSHELL_LOG"@) ==> logging::filter_of(None, vars)
            == vars["KOSHELL_LOG"@],
        !says_something(vars, "KOSHELL_LOG"@) ==> logging::filter_of(None, vars) == "warn"@,
{
}

/// The state directory lies below the one that is named, or else below the home directory,
/// and there is none where that is no place from the root on.
pub proof fn the_state_directory_follows_this_order(vars: Map<Seq<char>, Seq<char>>)
    ensures
        ({
            let at = logging::state_path(vars);
            let named = says_something(vars, "XDG_STATE_HOME"@);
            let home = says_something(vars, "HOME"@);
            let under = paths::below(paths::below(vars["HOME"@], ".local"@), "state"@);
            &&& named && paths::absolute(vars["XDG_STATE_HOME"@]) ==> at == Some(
                paths::below(vars["XDG_STATE_HOME"@], "koshell"@),
            )
            &&& named && !paths::absolute(vars["XDG_STATE_HOME"@]) ==> at is None
            &&& !named && home && paths::absolute(under) ==> at == Some(
                paths::below(under, "koshell"@),
            )
            &&& !named && !home ==> at is None
        }),
{
}

/// The event log lies below the data directory that is named, or else below the home
/// directory's own.
pub proof fn the_event_log_follows_this_order(vars: Map<Seq<char>, Seq<char>>)
    ensures
        ({
            let at = event_log::log_path(vars);
            let file = |base: Seq<char>|
                paths::below(paths::below(base, "koshell"@), "events.jsonl"@);
            &&& says_something(vars, "XDG_DATA_HOME"@) ==> at == file(vars["XDG_DATA_HOME"@])
            &&& !says_something(vars, "XDG_DATA_HOME"@) && vars.contains_key("HOME"@) ==> at
                == file(paths::below(paths::below(vars["HOME"@], ".local"@), "share"@))
        }),
{
}

// ---------------------------------------------------------------------------
// Shells and programs
// ---------------------------------------------------------------------------

/// A program is looked for where it says, or else in every directory of the `PATH`, in
/// order; a blank `PATH` stands for the system's directories.
pub proof fn a_program_is_looked_for_on_the_path(
    command: Seq<char>,
    path: Option<Seq<char>>,
    i: int,
)
    ensures
        ({
            let found = shell::candidates(command, path);
            let given = path is Some && text::trim(path->0).len() > 0;
            let dirs = text::split_on(
                if given {
                    path->0
                } else {
                    "/usr/bin:/bin:/usr/sbin:/sbin"@
                },
                ':',
            );
            &&& paths::absolute(command) ==> found == seq![command]
            &&& !paths::absolute(command) ==> found.len() == dirs.len()
            &&& !paths::absolute(command) && 0 <= i < dirs.len() ==> found[i] == paths::below(
                dirs[i],
                command,
            )
        }),
{
}

/// The user's own shell is tried first, then the usual ones, in this order.
pub proof fn the_users_shell_comes_first(vars: Map<Seq<char>, Seq<char>>)
    ensures
        ({
            let found = shell::shell_paths(vars);
            let usual = seq![
                "/bin/zsh"@,
                "/bin/bash"@,
                "/bin/sh"@,
                "/usr/bin/zsh"@,
                "/usr/bin/bash"@,
                "/usr/bin/sh"@,
            ];
            let path = if vars.contains_key("PATH"@) {
                Some(vars["PATH"@])
            } else {
                None
            };
            &&& usual.is_suffix_of(found)
            &&& !says_something(vars, "SHELL"@) ==> found == usual
            &&& says_something(vars, "SHELL"@) ==> shell::candidates(
                text::trim(vars["SHELL"@]),
                path,
            ).is_prefix_of(found) && found.len() == usual.len() + shell::candidates(
                text::trim(vars["SHELL"@]),
                path,
            ).len()
        }),
{
    let found = shell::shell_paths(vars);
    let usual = shell::fallback_shells();
    assert(usual =~= found.subrange(found.len() - usual.len(), found.len() as int));
    let path = if vars.contains_key("PATH"@) {
        Some(vars["PATH"@])
    } else {
        None
    };
    assert(env::value_in(vars, "PATH"@) == path);
    if says_something(vars, "SHELL"@) {
        let own = shell::candidates(text::trim(vars["SHELL"@]), path);
        assert(own =~= found.subrange(0, own.len() as int));
    }
}

/// The child's environment is the given one but for two variables: it is branded with the
/// session, and has a usable `PATH`.
pub proof fn the_child_inherits_its_environment(
    source: Map<Seq<char>, Seq<char>>,
    session_id: Seq<char>,
    name: Seq<char>,
)
    ensures
        ({
            let child = shell::pty_env(source, session_id);
            &&& name != "KOSHELL"@ && name != "PATH"@ ==> (child.contains_key(name)
                <==> source.contains_key(name)) && (source.contains_key(name) ==> child[name]
                == source[name])
            &&& child.contains_key("KOSHELL"@) && child["KOSHELL"@] == session_id
            &&& child.contains_key("PATH"@)
            &&& says_something(source, "PATH"@) ==> child["PATH"@] == source["PATH"@]
            &&& !says_something(source, "PATH"@) ==> child["PATH"@]
                == "/usr/bin:/bin:/usr/sbin:/sbin"@
        }),
{
    reveal_strlit("KOSHELL");
    reveal_strlit("PATH");
    assert("KOSHELL"@.len() == 7);
    assert("PATH"@.len() == 4);
}

/// Whatever is launched, it is the program that was asked for, with the user's arguments
/// last and in order. Integration goes by the program's name, adds files only where there
/// is some, and leaves every variable but zsh's own alone.
pub proof fn a_launch_keeps_what_was_asked_for(
    command: Seq<char>,
    extra: Seq<Seq<char>>,
    vars: Map<Seq<char>, Seq<char>>,
    dir: Seq<char>,
    name: Seq<char>,
)
    ensures
        ({
            let launch = shell_integration::launch_of(command, extra, vars, dir);
            let base = text::base_name(command);
            &&& launch.command == command
            &&& extra.is_suffix_of(launch.args)
            &&& launch.kind == if base == "bash"@ {
                Some(ShellIntegrationKind::Bash)
            } else if base == "zsh"@ {
                Some(ShellIntegrationKind::Zsh)
            } else {
                None
            }
            &&& launch.kind is None ==> launch.args == extra && launch.env == vars
                && launch.files.len() == 0
            &&& launch.kind == Some(ShellIntegrationKind::Bash) ==> launch.env == vars
                && launch.args.contains(dir + "/bashrc"@)
            &&& name != "ZDOTDIR"@ && name != "KOSHELL_USER_ZDOTDIR"@ ==> (
            launch.env.contains_key(name) <==> vars.contains_key(name)) && (vars.contains_key(
                name,
            ) ==> launch.env[name] == vars[name])
            &&& launch.kind == Some(ShellIntegrationKind::Zsh) ==> launch.env["ZDOTDIR"@] == dir
                && launch.env["KOSHELL_USER_ZDOTDIR"@] == if says_something(vars, "ZDOTDIR"@) {
                vars["ZDOTDIR"@]
            } else if vars.contains_key("HOME"@) {
                vars["HOME"@]
            } else {
                seq![]
            }
        }),
{
    let launch = shell_integration::launch_of(command, extra, vars, dir);
    let args = launch.args;
    assert(extra =~= args.subrange(args.len() - extra.len(), args.len() as int));
    if launch.kind == Some(ShellIntegrationKind::Bash) {
        assert(args[1] == dir + "/bashrc"@);
    }
    reveal_strlit("ZDOTDIR");
    reveal_strlit("KOSHELL_USER_ZDOTDIR");
    assert("ZDOTDIR"@.len() == 7);
    assert("KOSHELL_USER_ZDOTDIR"@.len() == 20);
}

/// The user's own rc file is sourced first, by a path that is read back as it is, and the
/// hooks follow it.
pub proof fn the_users_rc_file_comes_first(vars: Map<Seq<char>, Seq<char>>)
    ensures
        ({
            let home = if vars.contains_key("HOME"@) {
                vars["HOME"@]
            } else {
                seq![]
            };
            let rc = shell_integration::bashrc(vars);
            let word = text::single_quoted(home + "/.bashrc"@);
            &&& ("[ -r "@ + word + " ] && . "@ + word + "\n"@).is_prefix_of(rc)
            &&& text_laws::word_read(word, false) == Some(home + "/.bashrc"@)
            &&& shell_integration::BASH_HOOKS@.is_suffix_of(rc)
            &&& shell_integration::ZSH_HOOKS@.is_suffix_of(shell_integration::zshrc())
        }),
{
    let home = if vars.contains_key("HOME"@) {
        vars["HOME"@]
    } else {
        seq![]
    };
    let rc = shell_integration::bashrc(vars);
    let word = text::single_quoted(home + "/.bashrc"@);
    let first = "[ -r "@ + word + " ] && . "@ + word + "\n"@;
    assert(first =~= rc.subrange(0, first.len() as int));
    let hooks = shell_integration::BASH_HOOKS@;
    assert(hooks =~= rc.subrange(rc.len() - hooks.len(), rc.len() as int));
    let zsh = shell_integration::zshrc();
    let more = shell_integration::ZSH_HOOKS@;
    assert(more =~= zsh.subrange(zsh.len() - more.len(), zsh.len() as int));
    text_laws::a_quoted_word_is_read_back(home + "/.bashrc"@);
}

/// A start is nested where a live koshell owns this very terminal by its brand, and by a
/// brand that names no terminal; without a brand never.
pub proof fn only_a_live_brand_for_this_terminal_is_nested(
    vars: Map<Seq<char>, Seq<char>>,
    current_tty: Option<Seq<char>>,
    marker_live: bool,
)
    ensures
        ({
            let n = shell::nested(vars, current_tty, marker_live);
            let branded = is_set(vars, "KOSHELL"@);
            let tty = shell::tty_field(vars["KOSHELL"@]);
            &&& !branded ==> !n
            &&& branded && tty is None ==> n
            &&& branded && tty is Some ==> (n <==> marker_live && current_tty == tty)
        }),
{
}

} // verus!
