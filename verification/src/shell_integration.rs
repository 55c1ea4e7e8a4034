//! Shell integration: how the child shell is launched so that it emits command-boundary
//! markers.
//!
//! The generated rc files source the user's own files first, then install their hooks.
//! The zsh stage files delegate to the user's real files under `$KOSHELL_USER_ZDOTDIR`
//! and restore `ZDOTDIR` before the user's `.zshrc` runs, so everything derived from it
//! lands in the real location.

use crate::env;
use crate::env::Env;
use crate::text;
use crate::text::{base_name_of, clone_texts, is_blank, same_text, shell_quoted};
use vstd::prelude::*;

pub use crate::markers::{
    format_marker, parse_marker_payload, MarkerKind, MarkerScanner, Segment,
    ShellIntegrationMarker, MARKER_PREFIX, MARKER_SUFFIX, MAX_PENDING_MARKER_BYTES,
};

verus! {

/// The shells that get integration.
#[derive(Debug, Clone, Copy, PartialEq, Eq, Structural)]
pub enum ShellIntegrationKind {
    Bash,
    Zsh,
}

/// How to launch the child shell, with the files to write into its private directory
/// first.
pub struct ShellLaunchConfig {
    pub command: String,
    pub args: Vec<String>,
    pub env: Env,
    pub kind: Option<ShellIntegrationKind>,
    /// File names with their contents, to be written into the directory that the launch
    /// was planned for.
    pub files: Vec<(String, String)>,
}

/// The model of a launch.
#[verifier::ext_equal]
pub struct LaunchView {
    pub command: Seq<char>,
    pub args: Seq<Seq<char>>,
    pub env: Map<Seq<char>, Seq<char>>,
    pub kind: Option<ShellIntegrationKind>,
    pub files: Seq<(Seq<char>, Seq<char>)>,
}

/// The names and contents of some files.
pub open spec fn file_views(files: Seq<(String, String)>) -> Seq<(Seq<char>, Seq<char>)> {
    files.map_values(|f: (String, String)| (f.0@, f.1@))
}

impl View for ShellLaunchConfig {
    type V = LaunchView;

    open spec fn view(&self) -> LaunchView {
        LaunchView {
            command: self.command@,
            args: text::texts(self.args@),
            env: self.env@,
            kind: self.kind,
            files: file_views(self.files@),
        }
    }
}

/// The integration a program gets: bash and zsh by name, no other.
pub open spec fn kind_for(command: Seq<char>) -> Option<ShellIntegrationKind> {
    if text::base_name(command) == "bash"@ {
        Some(ShellIntegrationKind::Bash)
    } else if text::base_name(command) == "zsh"@ {
        Some(ShellIntegrationKind::Zsh)
    } else {
        None
    }
}

/// The value of a variable, or the empty text.
pub open spec fn value_or_empty(env: Map<Seq<char>, Seq<char>>, name: Seq<char>) -> Seq<char> {
    match env::value_in(env, name) {
        Some(v) => v,
        None => seq![],
    }
}

/// The command line that sources a file if it is readable.
pub open spec fn source_line(path: Seq<char>) -> Seq<char> {
    "[ -r "@ + text::single_quoted(path) + " ] && . "@ + text::single_quoted(path)
}

/// The generated bash rc file.
pub open spec fn bashrc(env: Map<Seq<char>, Seq<char>>) -> Seq<char> {
    source_line(value_or_empty(env, "HOME"@) + "/.bashrc"@) + "\n"@ + SHARED_SHELL_FUNCTIONS@
        + BASH_HOOKS@
}

/// The generated zsh rc file.
pub open spec fn zshrc() -> Seq<char> {
    ZSH_STAGE_ZSHRC_PRELUDE@ + SHARED_SHELL_FUNCTIONS@ + ZSH_HOOKS@
}

/// The user's real zsh directory: a custom `ZDOTDIR` wins over the home directory.
pub open spec fn user_zdotdir(env: Map<Seq<char>, Seq<char>>) -> Seq<char> {
    match env::value_in(env, "ZDOTDIR"@) {
        Some(v) => if text::trim(v).len() > 0 {
            v
        } else {
            value_or_empty(env, "HOME"@)
        },
        None => value_or_empty(env, "HOME"@),
    }
}

/// The launch of a program, its private directory being `dir`. Programs other than bash
/// and zsh are launched as they are, without files.
pub open spec fn launch_of(
    command: Seq<char>,
    extra_args: Seq<Seq<char>>,
    env: Map<Seq<char>, Seq<char>>,
    dir: Seq<char>,
) -> LaunchView {
    match kind_for(command) {
        Some(ShellIntegrationKind::Bash) => LaunchView {
            command,
            args: seq!["--rcfile"@, dir + "/bashrc"@, "-i"@] + extra_args,
            env,
            kind: Some(ShellIntegrationKind::Bash),
            files: seq![("bashrc"@, bashrc(env))],
        },
        Some(ShellIntegrationKind::Zsh) => LaunchView {
            command,
            args: seq!["-i"@] + extra_args,
            env: env.insert("ZDOTDIR"@, dir).insert("KOSHELL_USER_ZDOTDIR"@, user_zdotdir(env)),
            kind: Some(ShellIntegrationKind::Zsh),
            files: seq![
                (".zshenv"@, ZSH_STAGE_ZSHENV@),
                (".zprofile"@, ZSH_STAGE_ZPROFILE@),
                (".zshrc"@, zshrc()),
            ],
        },
        None => LaunchView { command, args: extra_args, env, kind: None, files: seq![] },
    }
}

/// The integration a program gets.
pub fn integration_kind(command: &str) -> (r: Option<ShellIntegrationKind>)
    ensures
        r == kind_for(command@),
{
    let name = base_name_of(command);
    if same_text(name.as_str(), "bash") {
        Some(ShellIntegrationKind::Bash)
    } else if same_text(name.as_str(), "zsh") {
        Some(ShellIntegrationKind::Zsh)
    } else {
        None
    }
}

fn value_or_default(env: &Env, name: &str) -> (r: String)
    ensures
        r@ == value_or_empty(env@, name@),
{
    match env.get(name) {
        Some(v) => v.clone(),
        None => String::new(),
    }
}

fn source_if_readable(path: &str) -> (r: String)
    ensures
        r@ == source_line(path@),
{
    let quoted = shell_quoted(path);
    let mut out = String::new();
    out.append("[ -r ");
    out.append(quoted.as_str());
    out.append(" ] && . ");
    out.append(quoted.as_str());
    assert(out@ =~= source_line(path@));
    out
}

fn extended(mut args: Vec<String>, extra: &Vec<String>) -> (r: Vec<String>)
    ensures
        text::texts(r@) == text::texts(args@) + text::texts(extra@),
{
    let mut copy = clone_texts(extra);
    let ghost tail = copy@;
    args.append(&mut copy);
    assert(text::texts(args@) =~= text::texts(args@.take(args@.len() - tail.len())) + text::texts(
        tail,
    ));
    args
}

/// Plans the launch of `command`, installing shell integration when its base name is
/// bash or zsh and launching every other program directly. `extra_args` are the
/// user-supplied arguments; they follow the integration arguments. `temp_dir` is the
/// private directory that the files of the plan are to be written to.
pub fn create_shell_launch_config(
    command: &str,
    extra_args: &Vec<String>,
    env: Env,
    temp_dir: &str,
) -> (r: ShellLaunchConfig)
    requires
        env.wf(),
    ensures
        r@ == launch_of(command@, text::texts(extra_args@), env@, temp_dir@),
        r.env.wf(),
{
    match integration_kind(command) {
        Some(ShellIntegrationKind::Bash) => create_bash_launch_config(
            command,
            extra_args,
            env,
            temp_dir,
        ),
        Some(ShellIntegrationKind::Zsh) => create_zsh_launch_config(
            command,
            extra_args,
            env,
            temp_dir,
        ),
        None => {
            let r = ShellLaunchConfig {
                command: command.to_owned(),
                args: clone_texts(extra_args),
                env,
                kind: None,
                files: Vec::new(),
            };
            assert(r@ =~= launch_of(command@, text::texts(extra_args@), env@, temp_dir@));
            r
        },
    }
}

fn create_bash_launch_config(
    shell: &str,
    extra_args: &Vec<String>,
    env: Env,
    temp_dir: &str,
) -> (r: ShellLaunchConfig)
    requires
        env.wf(),
        kind_for(shell@) == Some(ShellIntegrationKind::Bash),
    ensures
        r@ == launch_of(shell@, text::texts(extra_args@), env@, temp_dir@),
        r.env.wf(),
{
    let mut user_rc = value_or_default(&env, "HOME");
    user_rc.append("/.bashrc");
    let mut contents = source_if_readable(user_rc.as_str());
    contents.append("\n");
    contents.append(SHARED_SHELL_FUNCTIONS);
    contents.append(BASH_HOOKS);
    let mut rc_file = temp_dir.to_owned();
    rc_file.append("/bashrc");
    let mut args: Vec<String> = Vec::new();
    args.push("--rcfile".to_owned());
    args.push(rc_file);
    args.push("-i".to_owned());
    assert(text::texts(args@) =~= seq!["--rcfile"@, temp_dir@ + "/bashrc"@, "-i"@]);
    let mut files: Vec<(String, String)> = Vec::new();
    files.push(("bashrc".to_owned(), contents));
    assert(file_views(files@) =~= seq![("bashrc"@, bashrc(env@))]);
    let r = ShellLaunchConfig {
        command: shell.to_owned(),
        args: extended(args, extra_args),
        env,
        kind: Some(ShellIntegrationKind::Bash),
        files,
    };
    assert(r@ =~= launch_of(shell@, text::texts(extra_args@), env@, temp_dir@));
    r
}

fn create_zsh_launch_config(
    shell: &str,
    extra_args: &Vec<String>,
    env: Env,
    temp_dir: &str,
) -> (r: ShellLaunchConfig)
    requires
        env.wf(),
        kind_for(shell@) == Some(ShellIntegrationKind::Zsh),
    ensures
        r@ == launch_of(shell@, text::texts(extra_args@), env@, temp_dir@),
        r.env.wf(),
{
    let mut env = env;
    let ghost before = env@;
    let custom = match env.get("ZDOTDIR") {
        Some(v) => if is_blank(v.as_str()) {
            None
        } else {
            Some(v.clone())
        },
        None => None,
    };
    let user = match custom {
        Some(v) => v,
        None => value_or_default(&env, "HOME"),
    };
    assert(user@ == user_zdotdir(before));
    let mut rc = ZSH_STAGE_ZSHRC_PRELUDE.to_owned();
    rc.append(SHARED_SHELL_FUNCTIONS);
    rc.append(ZSH_HOOKS);
    let mut files: Vec<(String, String)> = Vec::new();
    files.push((".zshenv".to_owned(), ZSH_STAGE_ZSHENV.to_owned()));
    files.push((".zprofile".to_owned(), ZSH_STAGE_ZPROFILE.to_owned()));
    files.push((".zshrc".to_owned(), rc));
    assert(file_views(files@) =~= seq![
        (".zshenv"@, ZSH_STAGE_ZSHENV@),
        (".zprofile"@, ZSH_STAGE_ZPROFILE@),
        (".zshrc"@, zshrc()),
    ]);
    // zsh sources its rc files from ZDOTDIR; the stage .zshrc restores the user value
    // before the user's own rc runs.
    env.insert("ZDOTDIR", temp_dir);
    env.insert("KOSHELL_USER_ZDOTDIR", user.as_str());
    let mut args: Vec<String> = Vec::new();
    args.push("-i".to_owned());
    assert(text::texts(args@) =~= seq!["-i"@]);
    let r = ShellLaunchConfig {
        command: shell.to_owned(),
        args: extended(args, extra_args),
        env,
        kind: Some(ShellIntegrationKind::Zsh),
        files,
    };
    assert(r@ =~= launch_of(shell@, text::texts(extra_args@), before, temp_dir@));
    r
}

/// Functions shared by the bash and zsh hooks: building and emitting a marker.
pub const SHARED_SHELL_FUNCTIONS: &'static str = r#"__koshell_base64() {
  if command -v base64 >/dev/null 2>&1; then
    printf '%s' "$1" | base64 | tr -d '\n'
  else
    printf '%s' "$1"
  fi
}
__koshell_json_escape() {
  printf '%s' "$1" | sed 's/\\/\\\\/g; s/"/\\"/g'
}
__koshell_emit_marker() {
  local type="$1"
  local command="$2"
  local exit_code="${3:-}"
  # Set where the line ran nothing: koshell then keeps it out of the command history.
  local not_executed="${4:-}"
  local escaped_command
  escaped_command=$(__koshell_json_escape "$command")
  __koshell_payload='{"type":"'"$type"'","command":"'"$escaped_command"'"'
  if [ -n "$exit_code" ]; then
    __koshell_payload="$__koshell_payload"',"exitCode":'"$exit_code"
  fi
  if [ -n "$not_executed" ]; then
    __koshell_payload="$__koshell_payload"',"executed":false'
  fi
  __koshell_payload="$__koshell_payload"'}'
  printf '\033]777;koshell;%s\007' "$(__koshell_base64 "$__koshell_payload")"
}
__koshell_emit_start() {
  __koshell_emit_marker "command_start" "$1"
}
__koshell_emit_end() {
  __koshell_emit_marker "command_end" "$2" "$1"
}
# A line that is only a comment runs nothing, but its question is asked all the same.
__koshell_emit_comment() {
  __koshell_emit_marker "command_start" "$2" "" 1
  __koshell_emit_marker "command_end" "$2" "$1" 1
}
__koshell_emit_cwd() {
  local escaped_cwd
  escaped_cwd=$(__koshell_json_escape "$PWD")
  __koshell_payload='{"type":"cwd","cwd":"'"$escaped_cwd"'"}'
  printf '\033]777;koshell;%s\007' "$(__koshell_base64 "$__koshell_payload")"
}
"#;

/// The bash hooks: one start marker per accepted line, and an end marker with the exit
/// status on the next prompt. A user `DEBUG` trap is chained, never replaced.
pub const BASH_HOOKS: &'static str = r#"__koshell_last_history_number=""
__koshell_command_active=""
__koshell_in_prompt_command=""
__koshell_debug_trap() {
  if [ -n "$__koshell_in_prompt_command" ]; then
    return
  fi
  case "$BASH_COMMAND" in
    __koshell_*|PROMPT_COMMAND=*|trap\ *) return ;;
  esac
  # One start marker per accepted line, not per simple command of a compound line.
  if [ -n "$__koshell_command_active" ]; then
    return
  fi
  __koshell_command_active=1
  # Emit the full typed line: bash has already pushed it to history at this point, and
  # unlike $BASH_COMMAND the history text keeps a trailing `#?` comment, which koshell
  # needs at command START to fire on non-terminating commands. When the line added no
  # history entry (e.g. HISTCONTROL=ignorespace), fall back to $BASH_COMMAND.
  local history_line history_number history_command
  history_line=$(HISTTIMEFORMAT= builtin history 1 2>/dev/null)
  history_number=$(printf '%s' "$history_line" | sed 's/^ *\([0-9][0-9]*\).*/\1/')
  history_command=$(printf '%s' "$history_line" | sed 's/^ *[0-9][0-9]* *//')
  if [ -z "$history_number" ] || [ "$history_number" = "$__koshell_last_history_number" ]; then
    history_command="$BASH_COMMAND"
  fi
  __koshell_emit_start "$history_command"
}
__koshell_prompt_command() {
  local exit_status=$?
  __koshell_in_prompt_command=1
  # Report the working directory on every prompt so koshell mirrors the inner shell's
  # cwd onto its own process (tmux pane_current_path, OSC 7 consumers).
  __koshell_emit_cwd
  # Dedup by the history entry NUMBER, not its text: re-running an identical
  # command (e.g. asking the same `#?` question twice) advances the number and
  # is detected each time, while an empty Enter or prompt redraw adds no history
  # entry and is correctly suppressed.
  local history_line history_number history_command
  history_line=$(HISTTIMEFORMAT= builtin history 1 2>/dev/null)
  history_number=$(printf '%s' "$history_line" | sed 's/^ *\([0-9][0-9]*\).*/\1/')
  history_command=$(printf '%s' "$history_line" | sed 's/^ *[0-9][0-9]* *//')
  if [ -n "$history_number" ] && [ "$history_number" != "$__koshell_last_history_number" ]; then
    __koshell_last_history_number="$history_number"
    if [ -n "$__koshell_command_active" ]; then
      __koshell_emit_end "$exit_status" "$history_command"
    else
      case "$history_command" in
        *'#?'*)
          __koshell_emit_comment "$exit_status" "$history_command"
          ;;
      esac
    fi
  fi
  __koshell_command_active=""
  __koshell_in_prompt_command=""
}
if [ -n "${bash_preexec_imported:-}${__bp_imported:-}" ]; then
  # The user rc imported bash-preexec, which owns the DEBUG trap (iTerm2 integration,
  # atuin, ble.sh, ...). Register through its hook arrays instead of competing for the
  # trap: it passes the history line (trailing #? comment preserved) to preexec
  # functions and restores $? for precmd functions.
  __koshell_bp_preexec() {
    if [ -z "$__koshell_command_active" ]; then
      __koshell_command_active=1
      __koshell_emit_start "$1"
    fi
  }
  preexec_functions+=(__koshell_bp_preexec)
  precmd_functions+=(__koshell_prompt_command)
else
  if [ -n "${PROMPT_COMMAND:-}" ]; then
    PROMPT_COMMAND="__koshell_prompt_command; $PROMPT_COMMAND"
  else
    PROMPT_COMMAND="__koshell_prompt_command"
  fi
  # Chain any DEBUG trap the user rc installed instead of clobbering it (bash keeps a
  # single DEBUG trap). The eval-into-array trick preserves the trap body's quoting
  # even across newlines; term 2 of `trap -- '...' DEBUG` is the body.
  __koshell_get_debug_trap() {
    builtin local -a terms
    builtin eval "terms=( $(trap -p DEBUG) )"
    builtin printf '%s' "${terms[2]:-}"
  }
  __koshell_orig_debug_trap="$(__koshell_get_debug_trap)"
  if [ -n "$__koshell_orig_debug_trap" ]; then
    __koshell_chained_debug_trap() {
      __koshell_debug_trap
      builtin eval "$__koshell_orig_debug_trap"
    }
    trap '__koshell_chained_debug_trap' DEBUG
  else
    trap '__koshell_debug_trap' DEBUG
  fi
fi
"#;

/// Stage `.zshenv`: delegate to the user's file, honoring a `ZDOTDIR` it may set.
pub const ZSH_STAGE_ZSHENV: &'static str = r#"# koshell zsh integration stage file (generated).
if [ -f "$KOSHELL_USER_ZDOTDIR/.zshenv" ]; then
  __koshell_stage_zdotdir="$ZDOTDIR"
  ZDOTDIR="$KOSHELL_USER_ZDOTDIR"
  if [ "$KOSHELL_USER_ZDOTDIR" != "$__koshell_stage_zdotdir" ]; then
    . "$KOSHELL_USER_ZDOTDIR/.zshenv"
  fi
  KOSHELL_USER_ZDOTDIR="$ZDOTDIR"
  ZDOTDIR="$__koshell_stage_zdotdir"
  unset __koshell_stage_zdotdir
fi
"#;

/// Stage `.zprofile`: delegate to the user's file for login shells only.
pub const ZSH_STAGE_ZPROFILE: &'static str = r#"# koshell zsh integration stage file (generated).
if [[ -o login ]] && [ -f "$KOSHELL_USER_ZDOTDIR/.zprofile" ]; then
  __koshell_stage_zdotdir="$ZDOTDIR"
  ZDOTDIR="$KOSHELL_USER_ZDOTDIR"
  . "$KOSHELL_USER_ZDOTDIR/.zprofile"
  ZDOTDIR="$__koshell_stage_zdotdir"
  unset __koshell_stage_zdotdir
fi
"#;

/// Stage `.zshrc` prelude: restore the user's `ZDOTDIR`, then source their `.zshrc`.
pub const ZSH_STAGE_ZSHRC_PRELUDE: &'static str = r#"# koshell zsh integration stage file (generated).
__koshell_stage_zdotdir="$ZDOTDIR"
ZDOTDIR="$KOSHELL_USER_ZDOTDIR"
if [ "$HISTFILE" = "$__koshell_stage_zdotdir/.zsh_history" ]; then
  HISTFILE="$ZDOTDIR/.zsh_history"
fi
unset __koshell_stage_zdotdir
if [ -f "$ZDOTDIR/.zshrc" ]; then
  . "$ZDOTDIR/.zshrc"
fi
unset KOSHELL_USER_ZDOTDIR
"#;

/// The zsh hooks: `preexec` and `precmd`, plus an `accept-line` wrapper that catches a
/// comment-only question.
pub const ZSH_HOOKS: &'static str = r#"autoload -Uz add-zsh-hook
__koshell_zsh_command_active=""
__koshell_zsh_current_command=""
__koshell_zsh_pending_line=""
__koshell_zsh_has_orig_accept_line=""
# Capture the exact submitted line at Enter time via an accept-line wrapper. This is the
# only signal that fires for a comment-only `#?` line, and it never consults history, so it
# is immune to hist_ignore_dups / hist_ignore_space / hist_save_no_dups collapsing repeats.
# Delegate to any pre-existing accept-line widget so plugin wrappers still run.
case "${widgets[accept-line]}" in
  user:*)
    zle -A accept-line __koshell_zsh_orig_accept_line
    __koshell_zsh_has_orig_accept_line=1
    ;;
esac
__koshell_zsh_accept_line() {
  __koshell_zsh_pending_line="$BUFFER"
  if [ -n "$__koshell_zsh_has_orig_accept_line" ]; then
    zle __koshell_zsh_orig_accept_line
  else
    zle .accept-line
  fi
}
zle -N accept-line __koshell_zsh_accept_line
__koshell_zsh_preexec() {
  __koshell_zsh_command_active=1
  __koshell_zsh_current_command="$1"
  # A real command ran for this line; the comment fallback must not fire for it too.
  __koshell_zsh_pending_line=""
  __koshell_emit_start "$1"
}
__koshell_zsh_precmd() {
  local exit_status=$?
  # Report the working directory on every prompt so koshell mirrors the inner shell's
  # cwd onto its own process (tmux pane_current_path, OSC 7 consumers).
  __koshell_emit_cwd
  if [ -n "$__koshell_zsh_command_active" ]; then
    __koshell_emit_end "$exit_status" "$__koshell_zsh_current_command"
  else
    case "$__koshell_zsh_pending_line" in
      *'#?'*)
        __koshell_emit_comment "$exit_status" "$__koshell_zsh_pending_line"
        ;;
    esac
  fi
  # Clear per-line state so a prompt redraw (e.g. resize) without a new Enter never re-fires.
  __koshell_zsh_command_active=""
  __koshell_zsh_current_command=""
  __koshell_zsh_pending_line=""
}
add-zsh-hook preexec __koshell_zsh_preexec
add-zsh-hook precmd __koshell_zsh_precmd
"#;

} // verus!
