# koshell

A shared terminal: a shell wrapped by a process that keeps a bounded memory of what
happened on the screen, notices a question typed as `#? ...`, and streams the answer of an
AI daemon into the same terminal.

The library under `src/` holds the decisions, each with a contract that Verus proves:

- `markers`, `shell_integration`, `shell`, `shell_init`: the markers an integrated shell
  writes, the startup files that make it write them, and how nested launches are told.
- `mirror`, `screen_diff`, `timeline`, `context`: the screen model, its differences, the
  thinning event memory, and what of it accompanies a question.
- `question`, `trigger`, `presentation`, `session`: when a question fires, how an answer
  and the program's output share the screen, and one turn of the session loop. Their laws
  stand in `trigger_laws` and `presentation_laws`.
- `command_history`, `command_tools`: the index of completed commands and the tools that
  read it.
- `proto`, `ipc`, `daemon_spawn`, and the `*_cli` modules: the messages of the daemon and
  the subcommands as state machines over its answers.
- `text`, `utf8_stream`, `json`, `codec`, `clock`, `env`, `paths`, `logging`, `event_log`:
  what the others are built on.

`app/` is the program around it: arguments, files, sockets, the pseudo-terminal and its
threads. `tests/` runs the library on concrete values.

What the library takes on trust is marked `external_body` or `assume_specification`, with
a comment on each that says what is claimed of the function behind it: the terminal
emulator, the line differ, base64, JSON objects, the clock, and a few functions of `std`.
