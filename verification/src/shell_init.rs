//! The startup snippet of `koshell shell-init`, for `eval "$(koshell shell-init zsh)"` at
//! the top of an rc file.

use crate::cli::InitShell;
use vstd::prelude::*;

verus! {

/// Makes a new interactive shell exec into koshell. It stays inert for non-interactive
/// shells, without a terminal, under `TERM=dumb`, where the user opted out, and where a
/// live koshell already wraps this terminal; and it keeps the shell where koshell could
/// not start.
pub const SNIPPET: &'static str = "case $- in
  *i*)
    __koshell_wrapped=no
    case \"${KOSHELL:-}\" in
      '') ;;
      *,?*)
        __koshell_tty=\"${KOSHELL#*,}\"
        if [ \"$__koshell_tty\" = \"$(tty 2>/dev/null)\" ]; then
          case \"${HOME:-}\" in
            /*) __koshell_dir=\"$HOME/.cache\" ;;
            *) __koshell_dir=/.cache ;;
          esac
          case \"${XDG_CACHE_HOME:-}\" in
            /*) __koshell_dir=\"$XDG_CACHE_HOME\" ;;
          esac
          case \"${XDG_RUNTIME_DIR:-}\" in
            /*) __koshell_dir=\"$XDG_RUNTIME_DIR\" ;;
          esac
          __koshell_dir=\"$__koshell_dir/koshell/tty\"
          __koshell_pid=\"$(cat \"$__koshell_dir/$(printf %s \"$__koshell_tty\" | tr / _)\" 2>/dev/null)\"
          if [ -n \"$__koshell_pid\" ] && kill -0 \"$__koshell_pid\" 2>/dev/null; then
            __koshell_wrapped=yes
          fi
        fi
        ;;
      *) __koshell_wrapped=yes ;;
    esac
    if [ \"$__koshell_wrapped\" = no ] && [ -t 0 ] && [ -t 1 ] && [ \"${TERM:-}\" != dumb ] &&
      [ -z \"${KOSHELL_NO_AUTO:-}\" ] && [ ! -e \"$HOME/.config/koshell/no-auto\" ]; then
      if command -v koshell >/dev/null 2>&1 && koshell preflight; then
        exec koshell
      fi
    fi
    unset __koshell_wrapped __koshell_tty __koshell_dir __koshell_pid
    ;;
esac
";

/// The snippet for a shell. It is written in the dialect that bash and zsh share.
pub fn snippet(shell: InitShell) -> (r: &'static str)
    ensures
        r@ == SNIPPET@,
{
    match shell {
        InitShell::Bash => SNIPPET,
        InitShell::Zsh => SNIPPET,
    }
}

} // verus!
