//! What operations give back for what goes in.

use crate::auth_cli;
use crate::cli::{AuthAction, ModelAction};
use crate::clock::Moment;
use crate::command_laws;
use crate::command_tools;
use crate::context;
use crate::context::TerminalContext;
use crate::control_cli;
use crate::control_cli::Control;
use crate::daemon_cli;
use crate::daemon_cli::{Probe, WaitStep};
use crate::daemon_spawn;
use crate::env::Env;
use crate::event_log;
use crate::ipc;
use crate::ipc::LineFate;
use crate::json::{Json, JsonView};
use crate::logging;
use crate::markers;
use crate::markers::{MarkerKind, ShellIntegrationMarker};
use crate::model_cli;
use crate::model_cli::{ModelError, ModelTask};
use crate::paths;
use crate::presentation::Presentation;
use crate::presentation_laws;
use crate::proto::{ClientMessage, ModelCatalogEntry, ServerMessage, ToolError};
use crate::reload_cli;
use crate::reload_cli::ReloadStep;
use crate::session;
use crate::session::{Dispatch, Processor, Rest};
use crate::shell;
use crate::shell::{NestedLaunch, ResolveError};
use crate::status_cli;
use crate::text;
use crate::trigger::{Action, SessionState};
use crate::trigger_laws;
use vstd::prelude::*;

verus! {

// ---------------------------------------------------------------------------
// Models
// ---------------------------------------------------------------------------

/// A selection for the session alone needs a session; any other is asked for as it was
/// given.
pub proof fn a_selection_is_asked_for(
    request_id: String,
    model: String,
    session_id: Option<String>,
    session_only: bool,
    r: Result<ClientMessage, ModelError>,
)
    requires
        call_ensures(model_cli::set_request, (request_id, model, session_id, session_only), r),
    ensures
        r is Err <==> session_only && session_id is None,
        r matches Err(e) ==> e is OutsideSession,
        r matches Ok(m) ==> match m {
            ClientMessage::ModelSet { request_id: id, model: name, session_id: s, session_only: o } =>
                id == request_id && name == model && s == session_id && o == session_only,
            _ => false,
        },
{
}

/// The daemon's words on a selection are shown as they are, and the exit code tells whether
/// it was accepted.
pub proof fn a_selection_is_told_as_it_went(reply: ServerMessage, r: Result<(String, i32), ModelError>)
    requires
        call_ensures(model_cli::run_set, (reply,), r),
    ensures
        r is Ok <==> reply is ModelResult,
        reply matches ServerMessage::ModelResult { ok, message, .. } ==> (r->Ok_0).0 == message && (
        (r->Ok_0).1 == 0 <==> ok) && ((r->Ok_0).1 == 1 <==> !ok),
        r matches Err(e) ==> e == ModelError::Unexpected(reply),
{
}

/// A catalog is taken as it came, a refusal in the daemon's words, and any other answer is
/// none.
pub proof fn a_catalog_is_taken_as_it_came(
    reply: ServerMessage,
    r: Result<(Option<String>, Vec<ModelCatalogEntry>), ModelError>,
)
    requires
        call_ensures(model_cli::fetch_catalog, (reply,), r),
    ensures
        r is Ok <==> reply is ModelCatalog,
        reply matches ServerMessage::ModelCatalog { configured_model, entries, .. } ==> r->Ok_0 == (
            configured_model,
            entries,
        ),
        reply matches ServerMessage::ModelResult { message, .. } ==> r->Err_0
            == ModelError::Refused(message),
        !(reply is ModelCatalog) && !(reply is ModelResult) ==> r->Err_0 == ModelError::Unexpected(
            reply,
        ),
{
}

/// The catalog is asked for with the filter that was given.
pub proof fn a_catalog_is_asked_for(
    request_id: String,
    all: bool,
    query: Option<String>,
    r: ClientMessage,
)
    requires
        call_ensures(model_cli::list_request, (request_id, all, query), r),
    ensures
        r matches ClientMessage::ModelList { request_id: id, all: a, query: q } && id == request_id
            && a == all && q == query,
{
}

/// What is shown of the models is what the daemon said: a state is shown, a refusal is
/// passed on in its words, and any other answer is none.
pub proof fn a_model_state_is_shown_or_refused(
    reply: ServerMessage,
    in_session: bool,
    r: Result<Vec<String>, ModelError>,
)
    requires
        call_ensures(model_cli::run_show, (reply, in_session), r),
    ensures
        r is Ok <==> reply is ModelState,
        reply matches ServerMessage::ModelState { configured_model, active_model, conversation, .. }
            ==> {
            let lines = text::texts(r->Ok_0@);
            &&& configured_model matches Some(name) ==> name@.is_suffix_of(lines[0])
            &&& in_session && conversation ==> (active_model matches Some(name)
                ==> name@.is_suffix_of(lines[1]))
            &&& lines.len() == if in_session {
                2int
            } else {
                1
            }
        },
        reply matches ServerMessage::ModelResult { message, .. } ==> r->Err_0
            == ModelError::Refused(message),
        !(reply is ModelState) && !(reply is ModelResult) ==> r->Err_0 == ModelError::Unexpected(
            reply,
        ),
{
    if let ServerMessage::ModelState { configured_model, active_model, conversation, .. } = reply {
        let configured = text::opt_text(configured_model);
        let active = text::opt_text(active_model);
        if let Some(name) = configured {
            crate::model_laws::the_configured_model_is_shown(
                name,
                None,
                active,
                conversation,
                in_session,
                None,
                false,
                false,
            );
        }
        if let Some(name) = active {
            crate::model_laws::the_active_model_is_shown_in_a_session(name, None, configured, None);
        }
    }
}

/// The list has a row for every model of the catalog, in order.
pub proof fn every_model_is_listed(entries: &Vec<ModelCatalogEntry>, r: Vec<String>, i: int)
    requires
        call_ensures(model_cli::run_list, (entries,), r),
    ensures
        r@.len() == entries@.len(),
        0 <= i < r@.len() ==> r@[i]@ == model_cli::catalog_row(entries@[i]),
{
    assert(text::texts(r@).len() == r@.len());
    if 0 <= i < r@.len() {
        assert(text::texts(r@)[i] == r@[i]@);
    }
}

/// The command line decides the task; the session flag belongs to the selection, and before
/// a subcommand it is refused.
pub proof fn the_command_line_decides_the_task(
    root_session_only: bool,
    action: Option<ModelAction>,
    r: Result<ModelTask, &'static str>,
)
    requires
        call_ensures(model_cli::run, (root_session_only, action), r),
    ensures
        r is Err <==> root_session_only && action is Some,
        action is None ==> (r->Ok_0 matches ModelTask::Pick { session_only } && session_only
            == root_session_only),
        !root_session_only && (action matches Some(ModelAction::Show)) ==> r->Ok_0 is Show,
        !root_session_only ==> (action matches Some(ModelAction::List { all, query }) ==> (
        r->Ok_0 matches ModelTask::List { all: a, query: q } && a == all && q == query)),
        !root_session_only ==> (action matches Some(ModelAction::Select { model, session_only })
            ==> (r->Ok_0 matches ModelTask::Select { model: m, session_only: o } && m == model && o
            == session_only)),
{
}

/// A command's connection is named after its process and says what it is.
pub proof fn a_command_introduces_itself(
    pid: u32,
    cwd: String,
    rows: u16,
    cols: u16,
    auth: ClientMessage,
    model: ClientMessage,
)
    requires
        call_ensures(auth_cli::auth_hello, (pid, cwd), auth),
        call_ensures(model_cli::model_hello, (pid, cwd, rows, cols), model),
    ensures
        match auth {
            ClientMessage::Hello { protocol_version, terminal_session_id, cwd: at, shell, .. } => {
                &&& protocol_version == 1
                &&& terminal_session_id@ == "koshell-auth-"@ + text::decimal(pid as nat)
                &&& at == cwd
                &&& shell@ == "koshell-auth"@
            },
            _ => false,
        },
        match model {
            ClientMessage::Hello {
                protocol_version,
                terminal_session_id,
                cwd: at,
                shell,
                rows: high,
                cols: wide,
                ..
            } => {
                &&& protocol_version == 1
                &&& terminal_session_id@ == "koshell-model-"@ + text::decimal(pid as nat)
                &&& at == cwd
                &&& shell@ == "koshell-model"@
                &&& high == rows
                &&& wide == cols
            },
            _ => false,
        },
{
}

/// A login, a logout and a question for the status are asked for by their own messages, for
/// the provider that was named.
pub proof fn an_action_is_asked_for(action: &AuthAction, request_id: &str, r: ClientMessage)
    requires
        call_ensures(auth_cli::request_for, (action, request_id), r),
    ensures
        *action matches AuthAction::Login { provider } ==> (r matches ClientMessage::AuthLogin {
            request_id: id,
            provider: p,
        } && id@ == request_id@ && p@ == provider@),
        *action matches AuthAction::Logout { provider } ==> (r matches ClientMessage::AuthLogout {
            request_id: id,
            provider: p,
        } && id@ == request_id@ && p@ == provider@),
        *action matches AuthAction::Status { provider } ==> (
        r matches ClientMessage::AuthStatusRequest { request_id: id, provider: p } && id@
            == request_id@ && text::opt_text(p) == text::opt_text(provider)),
{
}

// ---------------------------------------------------------------------------
// The daemon
// ---------------------------------------------------------------------------

/// A transition is waited for in steps of a twentieth of a second, for five seconds.
pub proof fn a_transition_is_waited_for(reached: bool, elapsed_ms: u64, r: WaitStep)
    requires
        call_ensures(daemon_cli::wait_step, (reached, elapsed_ms), r),
    ensures
        reached <==> r is Reached,
        !reached && elapsed_ms < 5_000 ==> r == WaitStep::Pause(50),
        !reached && elapsed_ms >= 5_000 ==> r is GaveUp,
{
}

/// A connection is tried again in such steps for a second.
pub proof fn a_connection_is_tried_again(waited: u64, r: Option<u64>)
    requires
        call_ensures(daemon_spawn::retry_pause, (waited,), r),
    ensures
        r is Some <==> waited < 1_000,
        r matches Some(pause) ==> pause == 50,
{
}

/// The kill switches count where they are set and not empty.
pub proof fn a_kill_switch_is_a_set_variable(vars: &Env, spawn: bool, log: bool)
    requires
        call_ensures(daemon_spawn::kill_switch_set, (vars,), spawn),
        call_ensures(event_log::disabled, (vars,), log),
    ensures
        spawn <==> vars@.contains_key("KOSHELL_NO_DAEMON_SPAWN"@)
            && vars@["KOSHELL_NO_DAEMON_SPAWN"@].len() > 0,
        log <==> vars@.contains_key("KOSHELL_NO_EVENT_LOG"@)
            && vars@["KOSHELL_NO_EVENT_LOG"@].len() > 0,
{
}

/// The log files and the socket lie in their directories, under these names.
pub proof fn files_lie_in_their_directories(
    vars: &Env,
    socket: String,
    daemon: Option<String>,
    own: Option<String>,
)
    requires
        call_ensures(ipc::default_socket_path, (vars,), socket),
        call_ensures(daemon_spawn::daemon_log_path, (vars,), daemon),
        call_ensures(logging::log_file_path, (vars,), own),
    ensures
        socket@ == paths::below(ipc::runtime_path(vars@), "daemon.sock"@),
        match logging::state_path(vars@) {
            Some(dir) => text::opt_text(daemon) == Some(paths::below(dir, "daemon.log"@))
                && text::opt_text(own) == Some(paths::below(dir, "koshell.log"@)),
            None => daemon is None && own is None,
        },
{
}

/// A session introduces itself by its process, with its place, its program and its size,
/// and offers to have its output read.
pub proof fn a_session_introduces_itself(
    pid: u32,
    cwd: String,
    program: String,
    rows: u16,
    cols: u16,
    r: ClientMessage,
)
    requires
        call_ensures(ipc::hello, (pid, cwd, program, rows, cols), r),
    ensures
        match r {
            ClientMessage::Hello {
                protocol_version,
                terminal_session_id,
                cwd: at,
                shell,
                rows: high,
                cols: wide,
                capabilities,
            } => {
                &&& protocol_version == 1
                &&& terminal_session_id@ == "koshell-"@ + text::decimal(pid as nat)
                &&& at == cwd
                &&& shell == program
                &&& high == rows
                &&& wide == cols
                &&& text::texts(capabilities@) == seq!["command_output_tools_v1"@]
            },
            _ => false,
        },
{
}

/// A message that is known is delivered; of the others only those are skipped that are JSON.
pub proof fn a_line_meets_its_fate(known: bool, json: bool, r: LineFate)
    requires
        call_ensures(ipc::line_fate, (known, json), r),
    ensures
        r is Deliver <==> known,
        r is Skip <==> !known && json,
        r is Fail <==> !known && !json,
{
}

/// A reload asks the daemon where one answers: for all sessions where that is asked for, or
/// else for the one it is in. Where none answers there is nothing to do, which is no error;
/// outside a session there is one.
pub proof fn a_reload_asks_the_daemon_that_answers(
    probe: Probe,
    all: bool,
    session_id: Option<String>,
    r: ReloadStep,
)
    requires
        call_ensures(reload_cli::reload_step, (probe, all, session_id), r),
    ensures
        r is Send <==> probe is Alive && (all || session_id is Some),
        r matches ReloadStep::Send(m) ==> match m {
            ClientMessage::ReloadRequest { session_id: s } => s == if all {
                None
            } else {
                session_id
            },
            _ => false,
        },
        r matches ReloadStep::Exit(report, code) ==> {
            &&& code == 0 <==> !(probe is Alive)
            &&& code == 1 <==> probe is Alive
            &&& code == 0 ==> report@.out.len() > 0 && report@.err.len() == 0
            &&& code == 1 ==> report@.err.len() == 1 && report@.out.len() == 0
        },
{
}

/// The daemon's words on a reload are shown, or the news that it was done; the exit code
/// tells whether it was, and no answer is an error.
pub proof fn a_reload_is_told_as_it_went(
    reply: Option<(bool, Option<String>)>,
    r: (daemon_cli::Report, i32),
)
    requires
        call_ensures(reload_cli::reload_report, (reply,), r),
    ensures
        r.1 == 0 <==> (reply matches Some(said) && said.0),
        r.1 == 0 || r.1 == 1,
        reply matches Some(said) ==> {
            &&& r.0@.err.len() == 0
            &&& r.0@.out.len() == 1
            &&& said.1 matches Some(message) ==> r.0@.out[0] == message@
            &&& said.1 is None ==> r.0@.out[0] == "AI daemon: configuration reloaded"@
        },
        reply is None ==> r.0@.out.len() == 0 && r.0@.err.len() == 1,
{
}

/// The status command succeeds where the daemon answers with a status, and tells it.
pub proof fn the_status_succeeds_with_an_answer(
    probe: Probe,
    reply: &Option<ServerMessage>,
    r: (daemon_cli::Report, i32),
)
    requires
        call_ensures(status_cli::status_report, (probe, reply), r),
    ensures
        r.1 == 0 <==> probe is Alive && (*reply matches Some(m) && m is InstanceStatus),
        r.1 == 0 || r.1 == 1,
        r.1 == 0 ==> r.0@.out == status_cli::reply_lines((*reply)->0) && r.0@.err.len() == 0,
        !(probe is Alive) ==> r.0@.out.len() == 1 && r.0@.err.len() == 0,
        probe is Alive && r.1 == 1 ==> r.0@.out.len() == 0 && r.0@.err.len() == 1,
{
}

/// A control command names itself, in its refusal and in what went wrong.
pub proof fn a_control_command_names_itself(
    control: Control,
    error: &str,
    kind: MarkerKind,
    refusal: Vec<String>,
    failure: String,
    request: Vec<u8>,
)
    requires
        call_ensures(Control::marker_kind, (control,), kind),
        call_ensures(Control::refusal, (control,), refusal),
        call_ensures(Control::failure, (control, error), failure),
        call_ensures(Control::request, (control,), request),
    ensures
        control is NewConversation <==> kind is NewConversation,
        control is ClearContext <==> kind is ClearContext,
        ({
            let name = if control is NewConversation {
                "koshell new"@
            } else {
                "koshell clear"@
            };
            &&& refusal@.len() == 2
            &&& name.is_prefix_of(refusal@[0]@)
            &&& name.is_prefix_of(failure@)
            &&& error@.is_suffix_of(failure@)
        }),
        crate::marker_laws::lead().is_prefix_of(request@),
        markers::marker_in_payload(request@.subrange(14, request@.len() - 1)) matches Some(m)
            && m.kind == kind,
{
    let name = control_cli::command_name(control);
    assert(text::texts(refusal@).len() == refusal@.len());
    assert(text::texts(refusal@)[0] == refusal@[0]@);
    assert(name =~= refusal@[0]@.subrange(0, name.len() as int));
    assert(name =~= failure@.subrange(0, name.len() as int));
    assert(error@ =~= failure@.subrange(failure@.len() - error@.len(), failure@.len() as int));
    let m = control_cli::request_marker(control);
    crate::marker_laws::a_marker_has_this_form(m);
    let lead = crate::marker_laws::lead();
    assert(lead =~= request@.subrange(0, 14));
    assert(request@.subrange(14, request@.len() - 1) =~= markers::payload_for(m));
}

// ---------------------------------------------------------------------------
// Shells
// ---------------------------------------------------------------------------

/// An event's name is kept where it is a plain one: at most 32 small letters, digits and
/// underscores.
pub proof fn only_plain_names_are_kept(value: &str, r: String)
    requires
        call_ensures(event_log::identifier, (value,), r),
    ensures
        ({
            let plain = 0 < value@.len() <= 32 && forall|i: int|
                0 <= i < value@.len() ==> ('a' <= #[trigger] value@[i] <= 'z' || '0' <= value@[i]
                    <= '9' || value@[i] == '_');
            &&& plain ==> r@ == value@
            &&& !plain ==> r@ == "other"@
        }),
{
    if event_log::is_identifier(value@) {
        assert forall|i: int| 0 <= i < value@.len() implies ('a' <= #[trigger] value@[i] <= 'z'
            || '0' <= value@[i] <= '9' || value@[i] == '_') by {
            assert(event_log::identifier_char(value@[i]));
        }
    }
}

/// A terminal without a size has the usual one, and the mirror is wide enough for a wide
/// character.
pub proof fn a_size_is_never_zero(size: (u16, u16), sane: (u16, u16), shown: (u16, u16))
    requires
        call_ensures(session::sane_size, (size,), sane),
        call_ensures(session::mirror_size, (size,), shown),
    ensures
        size.0 == 0 ==> sane.0 == 80 && shown.0 == 80,
        size.1 == 0 ==> sane.1 == 24 && shown.1 == 24,
        size.0 > 0 ==> sane.0 == size.0,
        size.1 > 0 ==> sane.1 == size.1 && shown.1 == size.1,
        size.0 == 1 ==> shown.0 == 2,
        size.0 > 1 ==> shown.0 == size.0,
{
}

/// The shell that is started is the first one on the list that can be; where there is none,
/// the error tells what the environment named.
pub proof fn the_first_shell_there_is_started(
    vars: &Env,
    executables: &Vec<String>,
    i: int,
    r: Result<String, ResolveError>,
)
    requires
        call_ensures(shell::resolve_shell, (vars, executables), r),
        0 <= i <= shell::shell_paths(vars@).len(),
        forall|j: int|
            0 <= j < i ==> !text::listed(
                text::texts(executables@),
                #[trigger] shell::shell_paths(vars@)[j],
            ),
    ensures
        ({
            let all = shell::shell_paths(vars@);
            &&& i < all.len() && text::listed(text::texts(executables@), all[i]) ==> r is Ok
                && r->Ok_0@ == all[i]
            &&& i == all.len() ==> r is Err && match r->Err_0 {
                ResolveError::NoShell(value) => text::opt_text(value) == if vars@.contains_key(
                    "SHELL"@,
                ) {
                    Some(vars@["SHELL"@])
                } else {
                    None
                },
                _ => false,
            }
        }),
{
    let all = shell::shell_paths(vars@);
    let list = text::texts(executables@);
    if i < all.len() && text::listed(list, all[i]) {
        crate::text_laws::the_first_listed_candidate_is_found(all, list, i);
    } else if i == all.len() {
        crate::text_laws::nothing_is_found_off_the_list(all, list);
    }
}

/// A command that is named is started where it can be, and told by its name where not; a
/// blank one is none.
pub proof fn a_command_is_found_or_told(
    command: &str,
    vars: &Env,
    executables: &Vec<String>,
    r: Result<String, ResolveError>,
)
    requires
        call_ensures(shell::resolve_command, (command, vars, executables), r),
    ensures
        r matches Ok(path) ==> text::listed(text::texts(executables@), path@),
        r matches Err(e) ==> !(e is NoShell),
        text::trim(command@).len() == 0 <==> r matches Err(ResolveError::EmptyCommand),
        r matches Err(ResolveError::NotFound(missing)) ==> missing@ == text::trim(command@),
        paths::absolute(text::trim(command@)) && text::listed(
            text::texts(executables@),
            text::trim(command@),
        ) ==> r is Ok && r->Ok_0@ == text::trim(command@),
{
    let name = text::trim(command@);
    let path = crate::env::value_in(vars@, "PATH"@);
    let all = shell::candidates(name, path);
    let list = text::texts(executables@);
    crate::place_laws::a_program_is_looked_for_on_the_path(name, path, 0);
    lemma_found_is_listed(all, list);
    if paths::absolute(name) && text::listed(list, name) {
        crate::text_laws::the_first_listed_candidate_is_found(all, list, 0);
        assert(name.len() > 0);
    }
}

proof fn lemma_found_is_listed(candidates: Seq<Seq<char>>, list: Seq<Seq<char>>)
    ensures
        text::first_listed(candidates, list) matches Some(found) ==> text::listed(list, found),
    decreases candidates.len(),
{
    if candidates.len() > 0 {
        lemma_found_is_listed(candidates.drop_last(), list);
    }
}

/// The owner of a terminal is the number in its file, whatever whitespace is around it, and
/// nothing else is one.
pub proof fn the_owner_is_the_number_in_the_file(contents: Option<&str>, r: Option<i32>)
    requires
        call_ensures(shell::marker_owner, (contents,), r),
    ensures
        contents is None ==> r is None,
        contents matches Some(c) ==> {
            &&& r matches Some(n) ==> text::signed_value(text::trim(c@)) == Some(n as int)
            &&& text::trim(c@).len() == 0 ==> r is None
        },
{
}

/// A recorded version is the text of its file without the whitespace around it.
pub proof fn a_recorded_version_is_trimmed(contents: Option<&str>, r: Option<String>)
    requires
        call_ensures(shell::recorded_version, (contents,), r),
    ensures
        r is Some <==> (contents matches Some(c) && text::trim(c@).len() > 0),
        r matches Some(version) ==> version@ == text::trim((contents->0)@),
{
}

/// A terminal's files lie below the runtime directory, by its own name without slashes; the
/// version's is named after the other.
pub proof fn a_terminals_files_are_named_after_it(
    vars: &Env,
    tty: &str,
    marker: String,
    version: String,
)
    requires
        call_ensures(shell::tty_marker_path, (vars, tty), marker),
        call_ensures(shell::tty_version_path, (vars, tty), version),
    ensures
        version@ == marker@ + ".version"@,
        exists|name: Seq<char>| marker@ == #[trigger] paths::below(
            paths::below(ipc::runtime_path(vars@), "tty"@),
            name,
        ) && name.len() == tty@.len() && !name.contains('/') && forall|i: int|
            0 <= i < name.len() && tty@[i] != '/' ==> #[trigger] name[i] == tty@[i],
{
    let name = shell::escaped(tty@);
    assert(marker@ == paths::below(paths::below(ipc::runtime_path(vars@), "tty"@), name));
    assert(!name.contains('/')) by {
        if name.contains('/') {
            let i = choose|i: int| 0 <= i < name.len() && name[i] == '/';
            assert(name[i] != '/');
        }
    }
}

/// A nested start is refused, and only that.
pub proof fn only_a_nested_start_is_refused(
    vars: &Env,
    current_tty: Option<&str>,
    marker_live: bool,
    r: Result<(), NestedLaunch>,
    inside: bool,
)
    requires
        call_ensures(shell::assert_not_nested_koshell, (vars, current_tty, marker_live), r),
        call_ensures(control_cli::inside_live_koshell, (vars, current_tty, marker_live), inside),
    ensures
        r is Err <==> inside,
        !vars@.contains_key("KOSHELL"@) ==> !inside,
{
}

// ---------------------------------------------------------------------------
// The session
// ---------------------------------------------------------------------------

/// A question that Esc took back is not sent when its command ends: Esc tells of it, and
/// the end asks nothing.
pub proof fn esc_takes_a_question_back(
    s: &mut SessionState,
    told: Option<Action>,
    then: &mut SessionState,
    marker: ShellIntegrationMarker,
    now: Moment,
    sent: Vec<Action>,
)
    requires
        old(s)@.command_active,
        !old(s)@.mirror.alternate(),
        old(s)@.pending.len() == 1,
        old(s)@.pending[0].origin is PromptLine,
        call_ensures(SessionState::cancel_latest, (s,), told),
        old(then)@ == final(s)@,
        marker.kind is CommandEnd,
        call_ensures(SessionState::handle_marker, (then, marker, now), sent),
    ensures
        told is Some,
        final(s)@.pending.len() == 0,
        sent@.len() == 0,
{
    trigger_laws::a_withdrawn_question_never_fires(old(s)@, seq![], marker@, now);
    assert(crate::trigger::action_views(sent@).len() == sent@.len());
}

/// A question is sent under an id of its own, as it was asked and with the context that was
/// taken for it, and the ticket keeps both.
pub proof fn a_question_is_sent_as_it_was_asked(
    p: &mut Processor,
    asked: crate::trigger::Trigger,
    r: Dispatch,
)
    requires
        call_ensures(Processor::dispatch_trigger, (p, asked), r),
    ensures
        r.ticket.question@ == asked.question@,
        r.ticket.completion == asked.completion,
        r.ticket.still_running == asked.still_running,
        r.ticket.submitted_at == asked.submitted_at,
        match r.message {
            ClientMessage::AiRequest { request_id, question, trigger, context_package } => {
                &&& request_id@ == r.ticket.request_id@
                &&& question@ == asked.question@
                &&& trigger@ == "#?"@
                &&& context_package == asked.context_package
            },
            _ => false,
        },
        final(p)@.request_seq == old(p)@.request_seq + 1,
        final(p)@.session == old(p)@.session,
        final(p)@.presentation == old(p)@.presentation,
        final(p)@.held == old(p)@.held,
{
}

/// Two questions in a row never have the same id.
pub proof fn no_two_questions_share_an_id(
    p: &mut Processor,
    first: crate::trigger::Trigger,
    one: Dispatch,
    q: &mut Processor,
    second: crate::trigger::Trigger,
    other: Dispatch,
)
    requires
        call_ensures(Processor::dispatch_trigger, (p, first), one),
        old(q)@.request_seq >= final(p)@.request_seq,
        call_ensures(Processor::dispatch_trigger, (q, second), other),
    ensures
        one.ticket.request_id@ != other.ticket.request_id@,
{
    let a = final(p)@.request_seq;
    let b = final(q)@.request_seq;
    crate::text_laws::numerals_read_back(a as nat);
    crate::text_laws::numerals_read_back(b as nat);
    let x = session::request_name(a);
    let y = session::request_name(b);
    let n = x.len() - text::decimal(a as nat).len();
    assert(x.skip(n) =~= text::decimal(a as nat));
    assert(y.skip(n) =~= text::decimal(b as nat));
}

/// Both control markers reset the conversation, and no other marker does.
pub proof fn a_control_marker_resets_the_conversation(
    p: &mut Processor,
    kind: MarkerKind,
    out: &mut Vec<u8>,
    now: Moment,
    r: Option<ClientMessage>,
)
    requires
        call_ensures(Processor::apply_control_marker, (p, kind, out, now), r),
    ensures
        r is Some <==> kind is NewConversation || kind is ClearContext,
        r matches Some(m) ==> m is ConversationReset,
        final(p)@.request_seq == old(p)@.request_seq,
        final(p)@.held == old(p)@.held,
{
}

/// With nothing due a session rests for a minute at a time.
pub proof fn an_idle_session_rests_for_a_minute(p: &Processor, now: u64, r: Rest)
    requires
        call_ensures(Processor::rest, (p, now), r),
    ensures
        r.idle <==> p@.wait(now) is None,
        r.idle ==> r.limit == 60_000,
        !r.idle ==> r.limit == p@.wait(now)->0,
{
}

/// A context is written down field by field, the text that it is about first of all.
pub proof fn a_context_is_written_down(context: &TerminalContext, r: Json)
    requires
        call_ensures(context::context_json, (context,), r),
    ensures
        r@.get("primaryText"@) == Some(JsonView::Text(context@.primary_text)),
        r@.get("recentInput"@) == Some(JsonView::Text(context@.recent_input)),
        r@.get("recentPtyOutput"@) == Some(JsonView::Text(context@.recent_pty_output)),
        r@.get("recentVisibleOutput"@) == Some(JsonView::Text(context@.recent_visible_output)),
        r@.get("altScreen"@) == Some(JsonView::Bool(context@.alt_screen)),
{
    crate::context_laws::a_context_is_read_back_field_by_field(context@);
}

/// A read of a command's output holds no more than was asked for.
pub proof fn a_read_keeps_to_its_limit(
    state: &SessionState,
    arguments: &Json,
    i: int,
    limit: usize,
    r: Result<Json, ToolError>,
)
    requires
        state@.history.identified(),
        state@.history.bounded(),
        0 <= i < state@.history.completed.len(),
        arguments@.get("commandId"@) == Some(JsonView::Text(state@.history.completed[i].id)),
        arguments@.get("offset"@) is None,
        arguments@.get("limit"@) == Some(JsonView::Number(limit as int)),
        1 <= limit,
        call_ensures(
            command_tools::execute,
            (state, "read_command_output", arguments),
            r,
        ),
    ensures
        r is Ok,
        (r->Ok_0)@.get("content"@) matches Some(JsonView::Text(content)) && content.len() <= limit
            && content.len() <= 16_000 && content.is_prefix_of(
            state@.history.completed[i].output.retained,
        ),
{
    command_laws::a_read_returns_what_was_asked_for(state@.history, i, arguments@);
    let out = state@.history.completed[i].output;
    if let Some(JsonView::Text(content)) = (r->Ok_0)@.get("content"@) {
        assert(content =~= out.retained.subrange(0, content.len() as int));
    }
}

/// What an answer writes starts every line at the left, whatever held output follows it.
pub proof fn an_answer_is_written_line_by_line(
    p: &mut Presentation,
    message: &ServerMessage,
    out: &mut Vec<u8>,
    state: &mut SessionState,
    now: Moment,
)
    requires
        old(p)@.sound(),
        presentation_laws::live_rows_are_lines(
            crate::presentation::stage_of(*old(p), *old(state), old(out)@).screen,
        ),
        *message matches ServerMessage::AiDelta { request_id, delta }
            ==> presentation_laws::goes_on_cleanly(
            crate::presentation::stage_of(*old(p), *old(state), old(out)@),
            request_id@,
            delta@,
        ),
        *message matches ServerMessage::AiError { message: why, .. } ==> presentation_laws::one_line(
            why@,
        ),
        call_ensures(Presentation::handle_server_message, (p, message, out, state, now), ()),
    ensures
        presentation_laws::added_returns(
            old(out)@,
            final(out)@,
            presentation_laws::releases(
                crate::presentation::stage_of(*old(p), *old(state), old(out)@),
                *message,
            ).len(),
        ),
{
    let stage = crate::presentation::stage_of(*old(p), *old(state), old(out)@);
    presentation_laws::an_answer_starts_every_line_at_the_left(stage, *message, now);
}

} // verus!
