//! A human-centric shared terminal: AI beside your terminal, not above it.
//!
//! The library holds what the terminal process decides: the mirror of the screen, the
//! timeline of terminal facts, the detection of `#?` questions, the rendering of streamed
//! answers, and what each subcommand reports. Processes, sockets, files and the terminal
//! itself are the program's.

pub mod auth_cli;
pub mod auth_laws;
pub mod cli;
pub mod clock;
pub mod codec;
pub mod command_history;
pub mod command_laws;
pub mod command_tools;
pub mod context;
pub mod context_laws;
pub mod control_cli;
pub mod daemon_cli;
pub mod daemon_spawn;
pub mod diff_laws;
pub mod env;
pub mod event_laws;
pub mod event_log;
pub mod ipc;
pub mod json;
pub mod logging;
pub mod marker_laws;
pub mod markers;
pub mod mirror;
pub mod mirror_laws;
pub mod model_cli;
pub mod model_laws;
pub mod operation_laws;
pub mod paths;
pub mod place_laws;
pub mod presentation;
pub mod presentation_laws;
pub mod proto;
pub mod question;
pub mod question_laws;
pub mod reload_cli;
pub mod report_laws;
pub mod screen_diff;
pub mod session;
pub mod session_laws;
pub mod shell;
pub mod shell_init;
pub mod shell_integration;
pub mod status_cli;
pub mod text;
pub mod text_laws;
pub mod timeline;
pub mod timeline_laws;
pub mod trigger;
pub mod trigger_laws;
pub mod utf8_stream;
pub mod version_cli;
