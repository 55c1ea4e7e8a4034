//! `koshell auth <login|logout|status> [provider]`: AI provider credential management.
//! The interactive login flow itself runs inside the daemon; this end renders its
//! display events and answers its prompts.
//!
//! A run reads one thing at a time, a message of the daemon or a line that the user
//! typed, and each decides what is printed, what is sent back, and what is read next.
//! Cancellation is the connection: when the process dies the socket closes, and the
//! daemon aborts the login.

use crate::cli::AuthAction;
use crate::daemon_cli;
use crate::daemon_cli::{counted, led, line_of, push_line as add_line, Report};
use crate::proto::{
    AuthSelectOption, AuthStatusEntry, ClientMessage, ServerMessage, PROTOCOL_VERSION,
};
use crate::text;
use crate::text::{
    chars_of, parse_unsigned, push_decimal, push_padded, same_text, string_of, trimmed,
};
use vstd::prelude::*;
use vstd::slice::slice_subrange;

verus! {

/// How long to wait for the `ack` before concluding the daemon predates the auth
/// messages, in milliseconds.
pub const ACK_TIMEOUT: u64 = 2_000;

/// What to tell the user of a daemon that never acknowledges.
pub const TOO_OLD_HINT: &'static str =
    "the AI daemon did not answer the auth request — it likely predates auth support. Restart it with `koshell daemon restart` so the upgraded daemon is picked up.";

/// What to tell the user of a connection that ended before the answer.
pub const CLOSED_EARLY: &'static str = "the connection to the AI daemon closed unexpectedly";

/// Something that was read.
#[derive(Debug, Clone, PartialEq, Eq)]
pub enum AuthFact {
    /// A line from the daemon; `None` where it is no message this end knows.
    Message(Option<ServerMessage>),
    /// The daemon closed the connection.
    Closed,
    /// The daemon was silent for too long; the error's own words.
    TimedOut(String),
    /// Reading failed; the error's own words.
    Failed(String),
    /// A line that the user typed; `None` at the end of input.
    Typed(Option<String>),
}

/// What to read next.
#[derive(Debug, Clone, PartialEq, Eq)]
pub enum AuthAsk {
    /// A message, for at most [`ACK_TIMEOUT`].
    Acknowledgement,
    /// A message, for as long as it takes: a login takes as long as the user needs.
    Event,
    /// A line from the user.
    Answer,
    /// Nothing more: exit with that code.
    Exit(i32),
    /// Nothing more: report that failure.
    Fail(String),
}

/// What follows from something that was read.
#[derive(Debug, Clone, PartialEq, Eq)]
pub struct AuthEffect {
    /// What to print.
    pub out: String,
    /// The answer to a prompt: its id, and the text; no text means the user declined.
    pub reply: Option<(String, Option<String>)>,
    /// A page to open in the browser, where that is possible.
    pub open: Option<String>,
}

enum AuthPhase {
    AwaitAck,
    Events,
    Text { prompt_id: String, prompt: String, allow_empty: bool },
    Choice { prompt_id: String, options: Vec<AuthSelectOption> },
    Done(i32),
    Failed(String),
}

// ---------------------------------------------------------------------------
// The model
// ---------------------------------------------------------------------------

/// The model of where a run stands.
#[verifier::ext_equal]
pub enum PhaseView {
    AwaitAck,
    Events,
    Text { prompt_id: Seq<char>, prompt: Seq<char>, allow_empty: bool },
    /// The options' ids.
    Choice { prompt_id: Seq<char>, options: Seq<Seq<char>> },
    Done(i32),
    Failed(Seq<char>),
}

/// The model of what follows.
#[verifier::ext_equal]
pub struct EffectView {
    pub out: Seq<char>,
    pub reply: Option<(Seq<char>, Option<Seq<char>>)>,
    pub open: Option<Seq<char>>,
}

impl View for AuthEffect {
    type V = EffectView;

    open spec fn view(&self) -> EffectView {
        EffectView {
            out: self.out@,
            reply: match self.reply {
                Some(r) => Some((r.0@, text::opt_text(r.1))),
                None => None,
            },
            open: text::opt_text(self.open),
        }
    }
}

/// The ids of some options.
pub open spec fn option_ids(options: Seq<AuthSelectOption>) -> Seq<Seq<char>> {
    options.map_values(|o: AuthSelectOption| o.id@)
}

/// Nothing follows.
pub open spec fn nothing() -> EffectView {
    EffectView { out: seq![], reply: None, open: None }
}

/// Only this is printed.
pub open spec fn prints(out: Seq<char>) -> EffectView {
    EffectView { out, reply: None, open: None }
}

/// A text on a line of its own.
pub open spec fn line(s: Seq<char>) -> Seq<char> {
    s + "\n"@
}

/// The question of a text prompt.
pub open spec fn prompt_text(message: Seq<char>, placeholder: Option<Seq<char>>) -> Seq<char> {
    match placeholder {
        Some(hint) => message + " ["@ + hint + "]: "@,
        None => message + ": "@,
    }
}

/// The numbered options of a selection.
pub open spec fn menu(options: Seq<AuthSelectOption>) -> Seq<char>
    decreases options.len(),
{
    if options.len() == 0 {
        seq![]
    } else {
        menu(options.drop_last()) + "  "@ + text::decimal(options.len()) + ". "@
            + options.last().label@ + "\n"@
    }
}

/// The question of a selection among that many options.
pub open spec fn choose_text(count: nat) -> Seq<char> {
    "Choose [1-"@ + text::decimal(count) + "]: "@
}

/// A typed line without the line break at its end.
pub open spec fn without_break(s: Seq<char>) -> Seq<char>
    decreases s.len(),
{
    if s.len() > 0 && (s.last() == '\r' || s.last() == '\n') {
        without_break(s.drop_last())
    } else {
        s
    }
}

/// The option that a typed line picks: its number, counted from one.
pub open spec fn picked(options: Seq<Seq<char>>, typed: Seq<char>) -> Option<Seq<char>> {
    match text::unsigned_value(text::trim(typed)) {
        Some(n) => if 1 <= n <= options.len() {
            Some(options[n - 1])
        } else {
            None
        },
        None => None,
    }
}

/// How a provider's credential is described.
pub open spec fn status_text(e: AuthStatusEntry) -> Seq<char> {
    if e.configured {
        let source = text::opt_text(e.source);
        if source == Some("stored"@) {
            "logged in"@
        } else if source == Some("environment"@) {
            match e.label {
                Some(label) => "configured via $"@ + label@,
                None => "configured via the environment"@,
            }
        } else if source == Some("config"@) {
            "configured via config.toml"@
        } else {
            "configured"@
        }
    } else if e.oauth {
        "not configured (run `koshell auth login "@ + e.provider@ + "`)"@
    } else {
        "not configured"@
    }
}

/// The row of a provider.
pub open spec fn status_row(e: AuthStatusEntry) -> Seq<char> {
    text::padded(e.provider@, 16) + " "@ + text::padded(e.name@, 38) + " "@ + status_text(e)
        + "\n"@
}

/// The status table.
pub open spec fn status_table(entries: Seq<AuthStatusEntry>) -> Seq<char>
    decreases entries.len(),
{
    if entries.len() == 0 {
        seq![]
    } else {
        status_table(entries.drop_last()) + status_row(entries.last())
    }
}

/// Whether a provider is among some entries, with a credential.
pub open spec fn configured_in(entries: Seq<AuthStatusEntry>, provider: Seq<char>) -> bool {
    exists|i: int|
        0 <= i < entries.len() && (#[trigger] entries[i]).provider@ == provider
            && entries[i].configured
}

/// The exit code of a status report: with an explicit provider, whether that provider is
/// configured.
pub open spec fn status_code(action: AuthAction, entries: Seq<AuthStatusEntry>) -> i32 {
    match action {
        AuthAction::Status { provider: Some(provider) } => if configured_in(entries, provider@) {
            0
        } else {
            1
        },
        _ => 0,
    }
}

/// A daemon message taken in while events are awaited.
pub open spec fn on_event(action: AuthAction, message: ServerMessage) -> (PhaseView, EffectView) {
    match message {
        ServerMessage::AuthUrl { url, instructions, .. } => (
            PhaseView::Events,
            EffectView {
                out: line("Open this URL to authorize:"@) + line("  "@ + url@) + (
                match instructions {
                    Some(i) => line(i@),
                    None => seq![],
                }),
                reply: None,
                open: Some(url@),
            },
        ),
        ServerMessage::AuthDeviceCode { user_code, verification_uri, expires_in_seconds, .. } => (
            PhaseView::Events,
            prints(
                line("Enter the code "@ + user_code@ + " at:"@) + line("  "@ + verification_uri@)
                    + (match expires_in_seconds {
                    Some(n) => line("The code expires in "@ + text::decimal(n as nat) + "s."@),
                    None => seq![],
                }),
            ),
        ),
        ServerMessage::AuthProgress { message, .. } => (
            PhaseView::Events,
            prints(line(message@)),
        ),
        ServerMessage::AuthPrompt { prompt_id, message, placeholder, allow_empty, .. } => {
            let prompt = prompt_text(message@, text::opt_text(placeholder));
            (PhaseView::Text { prompt_id: prompt_id@, prompt, allow_empty }, prints(prompt))
        },
        ServerMessage::AuthSelect { prompt_id, message, options, .. } => (
            PhaseView::Choice { prompt_id: prompt_id@, options: option_ids(options@) },
            prints(line(message@) + menu(options@) + choose_text(options@.len())),
        ),
        ServerMessage::AuthResult { ok, message, .. } => (
            PhaseView::Done(
                if ok {
                    0
                } else {
                    1
                },
            ),
            prints(
                match message {
                    Some(m) => line(m@),
                    None => seq![],
                },
            ),
        ),
        ServerMessage::AuthStatus { entries, .. } => (
            PhaseView::Done(status_code(action, entries@)),
            prints(status_table(entries@)),
        ),
        _ => (PhaseView::Events, nothing()),
    }
}

/// A prompt answered.
pub open spec fn replies(prompt_id: Seq<char>, out: Seq<char>, value: Option<Seq<char>>) -> (
    PhaseView,
    EffectView,
) {
    (PhaseView::Events, EffectView { out, reply: Some((prompt_id, value)), open: None })
}

/// What was read, taken in.
pub open spec fn taken(
    phase: PhaseView,
    action: AuthAction,
    request_id: Seq<char>,
    fact: AuthFact,
) -> (PhaseView, EffectView) {
    match (phase, fact) {
        (PhaseView::AwaitAck, AuthFact::Message(Some(ServerMessage::Ack { request_id: id }))) => (
            if id@ == request_id {
                PhaseView::Events
            } else {
                phase
            },
            nothing(),
        ),
        (PhaseView::AwaitAck, AuthFact::Closed) => (PhaseView::Failed(TOO_OLD_HINT@), nothing()),
        (PhaseView::AwaitAck, AuthFact::TimedOut(_)) => (
            PhaseView::Failed(TOO_OLD_HINT@),
            nothing(),
        ),
        (PhaseView::Events, AuthFact::Message(Some(message))) => on_event(action, message),
        (PhaseView::Events, AuthFact::Closed) => (PhaseView::Failed(CLOSED_EARLY@), nothing()),
        (PhaseView::Events, AuthFact::TimedOut(error)) => (PhaseView::Failed(error@), nothing()),
        (PhaseView::Text { prompt_id, prompt, allow_empty }, AuthFact::Typed(typed)) => match typed {
            None => replies(prompt_id, "\n"@, None),
            Some(t) => {
                let answer = without_break(t@);
                if answer.len() == 0 && !allow_empty {
                    (phase, prints(line("(an answer is required)"@) + prompt))
                } else {
                    replies(prompt_id, seq![], Some(answer))
                }
            },
        },
        (PhaseView::Choice { prompt_id, options }, AuthFact::Typed(typed)) => match typed {
            None => replies(prompt_id, "\n"@, None),
            Some(t) => match picked(options, t@) {
                Some(id) => replies(prompt_id, seq![], Some(id)),
                None => (
                    phase,
                    prints(
                        line(
                            "(enter a number between 1 and "@ + text::decimal(options.len()) + ")"@,
                        ) + choose_text(options.len()),
                    ),
                ),
            },
        },
        (PhaseView::Done(_), _) => (phase, nothing()),
        (PhaseView::Failed(_), _) => (phase, nothing()),
        (_, AuthFact::Failed(error)) => (PhaseView::Failed(error@), nothing()),
        _ => (phase, nothing()),
    }
}

// ---------------------------------------------------------------------------
// Laws
// ---------------------------------------------------------------------------

/// A selection is answered only with an option that was offered, or declined.
pub proof fn a_choice_is_one_of_the_offered(
    prompt_id: Seq<char>,
    options: Seq<Seq<char>>,
    action: AuthAction,
    request_id: Seq<char>,
    fact: AuthFact,
)
    ensures
        ({
            let effect = taken(
                PhaseView::Choice { prompt_id, options },
                action,
                request_id,
                fact,
            ).1;
            effect.reply matches Some(reply) ==> reply.0 == prompt_id && (reply.1 is None
                || text::listed(options, reply.1->0))
        }),
{
    if let AuthFact::Typed(Some(t)) = fact {
        if let Some(n) = text::unsigned_value(text::trim(t@)) {
            if 1 <= n <= options.len() {
                assert(options[n - 1] == picked(options, t@)->0);
            }
        }
    }
}

/// Nothing is answered unasked: a reply is sent only to a prompt that is open, and names
/// it.
pub proof fn nothing_is_answered_unasked(
    phase: PhaseView,
    action: AuthAction,
    request_id: Seq<char>,
    fact: AuthFact,
)
    ensures
        taken(phase, action, request_id, fact).1.reply matches Some(reply) ==> match phase {
            PhaseView::Text { prompt_id, .. } => reply.0 == prompt_id,
            PhaseView::Choice { prompt_id, .. } => reply.0 == prompt_id,
            _ => false,
        },
{
}

// ---------------------------------------------------------------------------
// The run
// ---------------------------------------------------------------------------

/// The id of this process's requests.
pub open spec fn request_name(pid: u32) -> Seq<char> {
    "koshell-auth-"@ + text::decimal(pid as nat)
}

fn request_id_of(pid: u32) -> (r: String)
    ensures
        r@ == request_name(pid),
{
    let mut out = String::new();
    out.append("koshell-auth-");
    push_decimal(&mut out, pid as u64);
    assert(out@ =~= request_name(pid));
    out
}

/// The handshake of an auth connection. It gates credential changes on a
/// protocol-version match, so a mismatched daemon answers with its readable upgrade
/// message.
pub fn auth_hello(pid: u32, cwd: String) -> (r: ClientMessage)
    ensures
        match r {
            ClientMessage::Hello {
                protocol_version,
                terminal_session_id,
                cwd: at,
                shell,
                rows,
                cols,
                capabilities,
            } => {
                &&& protocol_version == PROTOCOL_VERSION
                &&& terminal_session_id@ == request_name(pid)
                &&& at == cwd
                &&& shell@ == "koshell-auth"@
                &&& rows == 0
                &&& cols == 0
                &&& capabilities@.len() == 0
            },
            _ => false,
        },
{
    ClientMessage::Hello {
        protocol_version: PROTOCOL_VERSION,
        terminal_session_id: request_id_of(pid),
        cwd,
        shell: "koshell-auth".to_owned(),
        rows: 0,
        cols: 0,
        capabilities: Vec::new(),
    }
}

/// Whether a message is the request of an action, under an id.
pub open spec fn is_request(action: AuthAction, request_id: Seq<char>, message: ClientMessage) -> bool {
    match action {
        AuthAction::Login { provider } => match message {
            ClientMessage::AuthLogin { request_id: id, provider: p } => id@ == request_id && p@
                == provider@,
            _ => false,
        },
        AuthAction::Logout { provider } => match message {
            ClientMessage::AuthLogout { request_id: id, provider: p } => id@ == request_id && p@
                == provider@,
            _ => false,
        },
        AuthAction::Status { provider } => match message {
            ClientMessage::AuthStatusRequest { request_id: id, provider: p } => id@ == request_id
                && text::opt_text(p) == text::opt_text(provider),
            _ => false,
        },
    }
}

/// The request of an action.
pub fn request_for(action: &AuthAction, request_id: &str) -> (r: ClientMessage)
    ensures
        is_request(*action, request_id@, r),
{
    match action {
        AuthAction::Login { provider } => ClientMessage::AuthLogin {
            request_id: request_id.to_owned(),
            provider: provider.clone(),
        },
        AuthAction::Logout { provider } => ClientMessage::AuthLogout {
            request_id: request_id.to_owned(),
            provider: provider.clone(),
        },
        AuthAction::Status { provider } => ClientMessage::AuthStatusRequest {
            request_id: request_id.to_owned(),
            provider: text::clone_opt(provider),
        },
    }
}

fn push_line(out: &mut String, s: &str)
    ensures
        final(out)@ == old(out)@ + line(s@),
{
    out.append(s);
    out.append("\n");
    assert(out@ =~= old(out)@ + line(s@));
}

fn printed(out: String) -> (r: AuthEffect)
    ensures
        r@ == prints(out@),
{
    AuthEffect { out, reply: None, open: None }
}

fn silence() -> (r: AuthEffect)
    ensures
        r@ == nothing(),
{
    let r = AuthEffect { out: String::new(), reply: None, open: None };
    assert(r@ =~= nothing());
    r
}

fn ask_line(message: &str, placeholder: &Option<String>) -> (r: String)
    ensures
        r@ == prompt_text(message@, text::opt_text(*placeholder)),
{
    let mut out = String::new();
    out.append(message);
    match placeholder {
        Some(hint) => {
            out.append(" [");
            out.append(hint.as_str());
            out.append("]: ");
        },
        None => out.append(": "),
    }
    assert(out@ =~= prompt_text(message@, text::opt_text(*placeholder)));
    out
}

fn push_menu(out: &mut String, options: &Vec<AuthSelectOption>)
    ensures
        final(out)@ == old(out)@ + menu(options@),
{
    let ghost before = out@;
    let ghost all = options@;
    let mut i: usize = 0;
    assert(out@ =~= before + menu(all.take(0)));
    while i < options.len()
        invariant
            i <= options@.len(),
            all == options@,
            out@ == before + menu(all.take(i as int)),
        decreases options@.len() - i,
    {
        assert(all.take(i + 1).drop_last() =~= all.take(i as int));
        assert(all.take(i + 1).last() == all[i as int]);
        out.append("  ");
        push_decimal(out, i as u64 + 1);
        out.append(". ");
        out.append(options[i].label.as_str());
        out.append("\n");
        i += 1;
        assert(out@ =~= before + menu(all.take(i as int)));
    }
    assert(all.take(i as int) =~= all);
}

fn push_choose(out: &mut String, count: usize)
    ensures
        final(out)@ == old(out)@ + choose_text(count as nat),
{
    out.append("Choose [1-");
    push_decimal(out, count as u64);
    out.append("]: ");
    assert(out@ =~= old(out)@ + choose_text(count as nat));
}

/// A typed line without the line break at its end.
fn stripped(typed: &str) -> (r: String)
    ensures
        r@ == without_break(typed@),
{
    let chars = chars_of(typed);
    let mut end: usize = chars.len();
    assert(chars@.take(end as int) =~= chars@);
    while end > 0 && (chars[end - 1] == '\r' || chars[end - 1] == '\n')
        invariant
            end <= chars@.len(),
            chars@ == typed@,
            without_break(chars@.take(end as int)) == without_break(typed@),
        ensures
            end <= chars@.len(),
            chars@.take(end as int) == without_break(typed@),
        decreases end,
    {
        assert(chars@.take(end as int).drop_last() =~= chars@.take(end - 1));
        end -= 1;
    }
    string_of(slice_subrange(chars.as_slice(), 0, end))
}

/// The option that a typed line picks.
fn pick<'a>(options: &'a Vec<AuthSelectOption>, typed: &str) -> (r: Option<&'a String>)
    ensures
        match r {
            Some(id) => picked(option_ids(options@), typed@) == Some(id@),
            None => picked(option_ids(options@), typed@) is None,
        },
{
    let count: usize = options.len();
    match parse_unsigned(trimmed(typed).as_str(), count as u64) {
        Some(n) => if n >= 1 {
            Some(&options[n as usize - 1].id)
        } else {
            None
        },
        None => None,
    }
}

fn is_source(source: &Option<String>, name: &str) -> (r: bool)
    ensures
        r == (text::opt_text(*source) == Some(name@)),
{
    match source {
        Some(s) => same_text(s.as_str(), name),
        None => false,
    }
}

fn describe(entry: &AuthStatusEntry) -> (r: String)
    ensures
        r@ == status_text(*entry),
{
    if entry.configured {
        if is_source(&entry.source, "stored") {
            "logged in".to_owned()
        } else if is_source(&entry.source, "environment") {
            match &entry.label {
                Some(label) => led("configured via $", label.as_str()),
                None => "configured via the environment".to_owned(),
            }
        } else if is_source(&entry.source, "config") {
            "configured via config.toml".to_owned()
        } else {
            "configured".to_owned()
        }
    } else if entry.oauth {
        line_of("not configured (run `koshell auth login ", entry.provider.as_str(), "`)")
    } else {
        "not configured".to_owned()
    }
}

/// Renders the status table. With an explicit provider argument the exit code reports
/// whether that provider is configured; the full table exits 0.
pub fn render_status(action: &AuthAction, entries: &Vec<AuthStatusEntry>) -> (r: (String, i32))
    ensures
        r.0@ == status_table(entries@),
        r.1 == status_code(*action, entries@),
{
    let ghost all = entries@;
    let mut out = String::new();
    let mut i: usize = 0;
    assert(out@ =~= status_table(all.take(0)));
    while i < entries.len()
        invariant
            i <= entries@.len(),
            all == entries@,
            out@ == status_table(all.take(i as int)),
        decreases entries@.len() - i,
    {
        assert(all.take(i + 1).drop_last() =~= all.take(i as int));
        assert(all.take(i + 1).last() == all[i as int]);
        let entry = &entries[i];
        push_padded(&mut out, entry.provider.as_str(), 16);
        out.append(" ");
        push_padded(&mut out, entry.name.as_str(), 38);
        out.append(" ");
        out.append(describe(entry).as_str());
        out.append("\n");
        i += 1;
        assert(out@ =~= status_table(all.take(i as int)));
    }
    assert(all.take(i as int) =~= all);
    let code: i32 = match action {
        AuthAction::Status { provider } => match provider {
            Some(p) => if is_configured(entries, p.as_str()) {
                0
            } else {
                1
            },
            None => 0,
        },
        _ => 0,
    };
    (out, code)
}

fn is_configured(entries: &Vec<AuthStatusEntry>, provider: &str) -> (r: bool)
    ensures
        r == configured_in(entries@, provider@),
{
    let mut i: usize = 0;
    while i < entries.len()
        invariant
            i <= entries@.len(),
            forall|j: int|
                0 <= j < i ==> !((#[trigger] entries@[j]).provider@ == provider@
                    && entries@[j].configured),
        decreases entries@.len() - i,
    {
        if same_text(entries[i].provider.as_str(), provider) && entries[i].configured {
            return true;
        }
        i += 1;
    }
    false
}

/// One auth request over an established connection.
pub struct AuthRun {
    action: AuthAction,
    request_id: String,
    phase: AuthPhase,
}

impl AuthPhase {
    spec fn shown(self) -> PhaseView {
        match self {
            AuthPhase::AwaitAck => PhaseView::AwaitAck,
            AuthPhase::Events => PhaseView::Events,
            AuthPhase::Text { prompt_id, prompt, allow_empty } => PhaseView::Text {
                prompt_id: prompt_id@,
                prompt: prompt@,
                allow_empty,
            },
            AuthPhase::Choice { prompt_id, options } => PhaseView::Choice {
                prompt_id: prompt_id@,
                options: option_ids(options@),
            },
            AuthPhase::Done(code) => PhaseView::Done(code),
            AuthPhase::Failed(error) => PhaseView::Failed(error@),
        }
    }
}

impl AuthRun {
    /// Where the run stands.
    pub closed spec fn stands(self) -> PhaseView {
        self.phase.shown()
    }

    /// The action it carries out.
    pub closed spec fn asked(self) -> AuthAction {
        self.action
    }

    /// The id of its request.
    pub closed spec fn named(self) -> Seq<char> {
        self.request_id@
    }

    /// Begins a run. The handshake and the request are to be sent first.
    pub fn new(action: AuthAction, pid: u32) -> (r: Self)
        ensures
            r.stands() == PhaseView::AwaitAck,
            r.asked() == action,
            r.named() == request_name(pid),
    {
        AuthRun { action, request_id: request_id_of(pid), phase: AuthPhase::AwaitAck }
    }

    /// The request to send behind the handshake.
    pub fn request(&self) -> (r: ClientMessage)
        ensures
            is_request(self.asked(), self.named(), r),
    {
        request_for(&self.action, self.request_id.as_str())
    }

    /// The message that carries an answer to a prompt.
    pub fn response(&self, prompt_id: String, value: Option<String>) -> (r: ClientMessage)
        ensures
            match r {
                ClientMessage::AuthPromptResponse { request_id, prompt_id: p, value: v } => {
                    request_id@ == self.named() && p == prompt_id && v == value
                },
                _ => false,
            },
    {
        ClientMessage::AuthPromptResponse { request_id: self.request_id.clone(), prompt_id, value }
    }

    /// What to read next.
    pub fn ask(&self) -> (r: AuthAsk)
        ensures
            match self.stands() {
                PhaseView::AwaitAck => r is Acknowledgement,
                PhaseView::Events => r is Event,
                PhaseView::Text { .. } => r is Answer,
                PhaseView::Choice { .. } => r is Answer,
                PhaseView::Done(code) => r == AuthAsk::Exit(code),
                PhaseView::Failed(error) => r is Fail && r->Fail_0@ == error,
            },
    {
        match &self.phase {
            AuthPhase::AwaitAck => AuthAsk::Acknowledgement,
            AuthPhase::Events => AuthAsk::Event,
            AuthPhase::Text { .. } => AuthAsk::Answer,
            AuthPhase::Choice { .. } => AuthAsk::Answer,
            AuthPhase::Done(code) => AuthAsk::Exit(*code),
            AuthPhase::Failed(error) => AuthAsk::Fail(error.clone()),
        }
    }

    /// Takes in what was read.
    pub fn take(&mut self, fact: AuthFact) -> (r: AuthEffect)
        ensures
            (final(self).stands(), r@) == taken(
                old(self).stands(),
                old(self).asked(),
                old(self).named(),
                fact,
            ),
            final(self).asked() == old(self).asked(),
            final(self).named() == old(self).named(),
    {
        match (&self.phase, fact) {
            (AuthPhase::AwaitAck, AuthFact::Message(message)) => {
                if let Some(ServerMessage::Ack { request_id }) = message {
                    if same_text(request_id.as_str(), self.request_id.as_str()) {
                        self.phase = AuthPhase::Events;
                    }
                }
                silence()
            },
            (AuthPhase::AwaitAck, AuthFact::Closed) => self.fails(TOO_OLD_HINT.to_owned()),
            (AuthPhase::AwaitAck, AuthFact::TimedOut(_)) => self.fails(TOO_OLD_HINT.to_owned()),
            (AuthPhase::Events, AuthFact::Message(message)) => match message {
                Some(m) => self.event(m),
                None => silence(),
            },
            (AuthPhase::Events, AuthFact::Closed) => self.fails(CLOSED_EARLY.to_owned()),
            (AuthPhase::Events, AuthFact::TimedOut(error)) => self.fails(error),
            (AuthPhase::Text { .. }, AuthFact::Typed(typed)) => self.answer_text(typed),
            (AuthPhase::Choice { .. }, AuthFact::Typed(typed)) => self.answer_choice(typed),
            (AuthPhase::Done(_), _) => silence(),
            (AuthPhase::Failed(_), _) => silence(),
            (_, AuthFact::Failed(error)) => self.fails(error),
            _ => silence(),
        }
    }

    fn fails(&mut self, error: String) -> (r: AuthEffect)
        ensures
            final(self).stands() == PhaseView::Failed(error@),
            r@ == nothing(),
            final(self).asked() == old(self).asked(),
            final(self).named() == old(self).named(),
    {
        self.phase = AuthPhase::Failed(error);
        silence()
    }

    fn replies_with(&mut self, prompt_id: String, out: &str, value: Option<String>) -> (r: AuthEffect)
        ensures
            (final(self).stands(), r@) == replies(prompt_id@, out@, text::opt_text(value)),
            final(self).asked() == old(self).asked(),
            final(self).named() == old(self).named(),
    {
        self.phase = AuthPhase::Events;
        AuthEffect { out: out.to_owned(), reply: Some((prompt_id, value)), open: None }
    }

    fn answer_text(&mut self, typed: Option<String>) -> (r: AuthEffect)
        requires
            old(self).stands() is Text,
        ensures
            (final(self).stands(), r@) == taken(
                old(self).stands(),
                old(self).asked(),
                old(self).named(),
                AuthFact::Typed(typed),
            ),
            final(self).asked() == old(self).asked(),
            final(self).named() == old(self).named(),
    {
        let mut id = String::new();
        let mut asked = String::new();
        let mut empty_is_fine = false;
        if let AuthPhase::Text { prompt_id, prompt, allow_empty } = &self.phase {
            id = prompt_id.clone();
            asked = prompt.clone();
            empty_is_fine = *allow_empty;
        }
        match typed {
            None => self.replies_with(id, "\n", None),
            Some(t) => {
                let answer = stripped(t.as_str());
                if answer.as_str().unicode_len() == 0 && !empty_is_fine {
                    let mut out = String::new();
                    push_line(&mut out, "(an answer is required)");
                    out.append(asked.as_str());
                    assert(out@ =~= line("(an answer is required)"@) + asked@);
                    printed(out)
                } else {
                    proof {
                        reveal_strlit("");
                        assert(""@ =~= Seq::<char>::empty());
                    }
                    self.replies_with(id, "", Some(answer))
                }
            },
        }
    }

    fn answer_choice(&mut self, typed: Option<String>) -> (r: AuthEffect)
        requires
            old(self).stands() is Choice,
        ensures
            (final(self).stands(), r@) == taken(
                old(self).stands(),
                old(self).asked(),
                old(self).named(),
                AuthFact::Typed(typed),
            ),
            final(self).asked() == old(self).asked(),
            final(self).named() == old(self).named(),
    {
        let mut id = String::new();
        let mut count: usize = 0;
        let mut choice: Option<String> = None;
        if let AuthPhase::Choice { prompt_id, options } = &self.phase {
            id = prompt_id.clone();
            count = options.len();
            if let Some(t) = &typed {
                if let Some(found) = pick(options, t.as_str()) {
                    choice = Some(found.clone());
                }
            }
        }
        match typed {
            None => self.replies_with(id, "\n", None),
            Some(_) => match choice {
                Some(c) => {
                    proof {
                        reveal_strlit("");
                        assert(""@ =~= Seq::<char>::empty());
                    }
                    self.replies_with(id, "", Some(c))
                },
                None => {
                    let mut out = String::new();
                    push_line(
                        &mut out,
                        counted("(enter a number between 1 and ", count as u64, ")").as_str(),
                    );
                    push_choose(&mut out, count);
                    assert(out@ =~= line(
                        "(enter a number between 1 and "@ + text::decimal(count as nat) + ")"@,
                    ) + choose_text(count as nat));
                    printed(out)
                },
            },
        }
    }

    fn event(&mut self, message: ServerMessage) -> (r: AuthEffect)
        requires
            old(self).stands() is Events,
        ensures
            (final(self).stands(), r@) == on_event(old(self).asked(), message),
            final(self).asked() == old(self).asked(),
            final(self).named() == old(self).named(),
    {
        match message {
            ServerMessage::AuthUrl { url, instructions, .. } => {
                let mut out = String::new();
                push_line(&mut out, "Open this URL to authorize:");
                push_line(&mut out, led("  ", url.as_str()).as_str());
                if let Some(i) = &instructions {
                    push_line(&mut out, i.as_str());
                }
                let r = AuthEffect { out, reply: None, open: Some(url) };
                assert(r@ =~= on_event(old(self).asked(), message).1);
                r
            },
            ServerMessage::AuthDeviceCode {
                user_code,
                verification_uri,
                expires_in_seconds,
                ..
            } => {
                let mut out = String::new();
                push_line(&mut out, line_of("Enter the code ", user_code.as_str(), " at:").as_str());
                push_line(&mut out, led("  ", verification_uri.as_str()).as_str());
                if let Some(n) = expires_in_seconds {
                    push_line(&mut out, counted("The code expires in ", n, "s.").as_str());
                }
                let r = printed(out);
                assert(r@ =~= on_event(old(self).asked(), message).1);
                r
            },
            ServerMessage::AuthProgress { message: text, .. } => {
                let mut out = String::new();
                push_line(&mut out, text.as_str());
                assert(out@ =~= line(text@));
                printed(out)
            },
            ServerMessage::AuthPrompt { prompt_id, message: text, placeholder, allow_empty, .. } => {
                let prompt = ask_line(text.as_str(), &placeholder);
                let out = prompt.clone();
                self.phase = AuthPhase::Text { prompt_id, prompt, allow_empty };
                printed(out)
            },
            ServerMessage::AuthSelect { prompt_id, message: text, options, .. } => {
                let mut out = String::new();
                push_line(&mut out, text.as_str());
                push_menu(&mut out, &options);
                push_choose(&mut out, options.len());
                assert(out@ =~= line(text@) + menu(options@) + choose_text(options@.len()));
                self.phase = AuthPhase::Choice { prompt_id, options };
                printed(out)
            },
            ServerMessage::AuthResult { ok, message: text, .. } => {
                let mut out = String::new();
                if let Some(m) = &text {
                    push_line(&mut out, m.as_str());
                }
                assert(out@ =~= match text {
                    Some(m) => line(m@),
                    None => seq![],
                });
                self.phase = AuthPhase::Done(
                    if ok {
                        0
                    } else {
                        1
                    },
                );
                printed(out)
            },
            ServerMessage::AuthStatus { entries, .. } => {
                let (out, code) = render_status(&self.action, &entries);
                self.phase = AuthPhase::Done(code);
                printed(out)
            },
            _ => silence(),
        }
    }
}

/// How reaching the daemon went.
#[derive(Debug, Clone, PartialEq, Eq)]
pub enum Launch {
    /// It was already running.
    Running,
    /// It was not, and there is no command to start it with.
    Unresolved,
    /// The command could not be started; the error's own words.
    Refused(String),
    /// It was started, by the rung named here, and answers.
    Started(&'static str),
    /// It was started and does not answer.
    Unreachable,
}

/// What is printed of a launch.
pub open spec fn launch_lines(launch: Launch, log: Option<Seq<char>>) -> daemon_cli::ReportView {
    match launch {
        Launch::Running => daemon_cli::silent(),
        Launch::Unresolved => daemon_cli::complains(
            seq![
                "the AI daemon is not running and no launch command resolved."@,
                "  set KOSHELL_DAEMON_CMD, or install the koshell-ai-daemon binary next to koshell,"@,
                "  then run `koshell daemon start`."@,
            ],
        ),
        Launch::Refused(error) => daemon_cli::complains(
            seq!["failed to start the AI daemon: "@ + error@],
        ),
        Launch::Started(source) => daemon_cli::says(seq!["AI daemon: started ("@ + source@ + ")"@]),
        Launch::Unreachable => daemon_cli::complains(
            seq!["started the AI daemon, but it did not become reachable in time."@] + (match log {
                Some(path) => seq!["  check the log: "@ + path],
                None => seq![],
            }),
        ),
    }
}

/// Whether a launch leaves a daemon to talk to.
pub open spec fn reached(launch: Launch) -> bool {
    launch is Running || launch is Started
}

/// Reports how reaching the daemon went, and whether there is one to talk to.
pub fn ensure_daemon(launch: &Launch, log: &Option<String>) -> (r: (Report, bool))
    ensures
        r.0@ == launch_lines(*launch, text::opt_text(*log)),
        r.1 == reached(*launch),
{
    let mut out: Vec<String> = Vec::new();
    let mut err: Vec<String> = Vec::new();
    let mut ok = false;
    match launch {
        Launch::Running => {
            ok = true;
        },
        Launch::Unresolved => {
            add_line(
                &mut err,
                "the AI daemon is not running and no launch command resolved.".to_owned(),
            );
            add_line(
                &mut err,
                "  set KOSHELL_DAEMON_CMD, or install the koshell-ai-daemon binary next to koshell,".to_owned(),
            );
            add_line(&mut err, "  then run `koshell daemon start`.".to_owned());
        },
        Launch::Refused(error) => {
            add_line(&mut err, led("failed to start the AI daemon: ", error.as_str()));
        },
        Launch::Started(source) => {
            add_line(&mut out, line_of("AI daemon: started (", *source, ")"));
            ok = true;
        },
        Launch::Unreachable => {
            add_line(
                &mut err,
                "started the AI daemon, but it did not become reachable in time.".to_owned(),
            );
            if let Some(path) = log {
                add_line(&mut err, led("  check the log: ", path.as_str()));
            }
        },
    }
    let r = Report { out, err };
    assert(r@ =~= launch_lines(*launch, text::opt_text(*log)));
    (r, ok)
}

// ---------------------------------------------------------------------------
// Reaching the daemon
// ---------------------------------------------------------------------------

/// The model of how reaching the daemon went.
#[verifier::ext_equal]
pub enum LaunchView {
    Running,
    Unresolved,
    Refused(Seq<char>),
    Started(Seq<char>),
    Unreachable,
}

impl View for Launch {
    type V = LaunchView;

    open spec fn view(&self) -> LaunchView {
        match *self {
            Launch::Running => LaunchView::Running,
            Launch::Unresolved => LaunchView::Unresolved,
            Launch::Refused(error) => LaunchView::Refused(error@),
            Launch::Started(source) => LaunchView::Started(source@),
            Launch::Unreachable => LaunchView::Unreachable,
        }
    }
}

/// Where reaching the daemon stands.
enum LaunchPhase {
    Probing,
    Planning,
    /// With the rung of the launch command in use.
    Spawning(&'static str),
    Awaiting(&'static str),
    Over(Launch),
}

/// The model of where reaching the daemon stands.
#[verifier::ext_equal]
pub enum LaunchPhaseView {
    Probing,
    Planning,
    Spawning(Seq<char>),
    Awaiting(Seq<char>),
    Over(LaunchView),
}

impl LaunchPhaseView {
    /// The question that a phase puts, if it is not the last one.
    pub open spec fn question(self) -> Option<daemon_cli::Ask> {
        match self {
            LaunchPhaseView::Probing => Some(daemon_cli::Ask::Probe),
            LaunchPhaseView::Planning => Some(daemon_cli::Ask::Plan),
            LaunchPhaseView::Spawning(_) => Some(daemon_cli::Ask::Spawn),
            LaunchPhaseView::Awaiting(_) => Some(daemon_cli::Ask::AwaitAlive),
            LaunchPhaseView::Over(_) => None,
        }
    }

    /// An answer taken in. An answer to another question changes nothing.
    pub open spec fn answered(self, fact: daemon_cli::FactView) -> LaunchPhaseView {
        match (self, fact) {
            (LaunchPhaseView::Probing, daemon_cli::FactView::Probed(probe)) => if probe is Alive {
                LaunchPhaseView::Over(LaunchView::Running)
            } else {
                LaunchPhaseView::Planning
            },
            (LaunchPhaseView::Planning, daemon_cli::FactView::Planned(plan)) => match plan {
                Some(p) => LaunchPhaseView::Spawning(p.1),
                None => LaunchPhaseView::Over(LaunchView::Unresolved),
            },
            (LaunchPhaseView::Spawning(source), daemon_cli::FactView::Spawned(failure)) =>
                match failure {
                Some(error) => LaunchPhaseView::Over(LaunchView::Refused(error)),
                None => LaunchPhaseView::Awaiting(source),
            },
            (LaunchPhaseView::Awaiting(source), daemon_cli::FactView::Reached(reached)) =>
                LaunchPhaseView::Over(
                if reached {
                    LaunchView::Started(source)
                } else {
                    LaunchView::Unreachable
                },
            ),
            _ => self,
        }
    }

    /// The most answers still needed.
    pub open spec fn rank(self) -> nat {
        match self {
            LaunchPhaseView::Probing => 4,
            LaunchPhaseView::Planning => 3,
            LaunchPhaseView::Spawning(_) => 2,
            LaunchPhaseView::Awaiting(_) => 1,
            LaunchPhaseView::Over(_) => 0,
        }
    }
}

/// How reaching the daemon goes, by what is found out in turn.
pub open spec fn launched(
    probe: daemon_cli::Probe,
    plan: Option<(Seq<char>, Seq<char>)>,
    failure: Option<Seq<char>>,
    answers_in_time: bool,
) -> LaunchView {
    if probe is Alive {
        LaunchView::Running
    } else {
        match plan {
            None => LaunchView::Unresolved,
            Some((_, source)) => match failure {
                Some(error) => LaunchView::Refused(error),
                None => if answers_in_time {
                    LaunchView::Started(source)
                } else {
                    LaunchView::Unreachable
                },
            },
        }
    }
}

/// Reaching the daemon always comes to an end: each answer to the question put brings it
/// nearer.
pub proof fn every_answer_brings_a_launch_nearer_to_its_end(
    phase: LaunchPhaseView,
    fact: daemon_cli::FactView,
)
    requires
        phase.question() is Some,
        daemon_cli::answers(fact, phase.question()->0),
    ensures
        phase.answered(fact).rank() < phase.rank(),
{
}

/// Whatever is found out, reaching the daemon ends as it should: a running daemon is not
/// started again, and a started one counts only once it answers.
pub proof fn a_launch_ends_as_its_answers_say(
    probe: daemon_cli::Probe,
    plan: Option<(Seq<char>, Seq<char>)>,
    failure: Option<Seq<char>>,
    answers_in_time: bool,
)
    ensures
        LaunchPhaseView::Probing.answered(daemon_cli::FactView::Probed(probe)).answered(
            daemon_cli::FactView::Planned(plan),
        ).answered(daemon_cli::FactView::Spawned(failure)).answered(
            daemon_cli::FactView::Reached(answers_in_time),
        ) == LaunchPhaseView::Over(launched(probe, plan, failure, answers_in_time)),
{
}

/// Reaching the daemon, starting it where that is needed: a sequence of questions put to
/// the outside, until it is known how it went.
pub struct LaunchRun {
    phase: LaunchPhase,
}

impl View for LaunchRun {
    type V = LaunchPhaseView;

    closed spec fn view(&self) -> LaunchPhaseView {
        match self.phase {
            LaunchPhase::Probing => LaunchPhaseView::Probing,
            LaunchPhase::Planning => LaunchPhaseView::Planning,
            LaunchPhase::Spawning(source) => LaunchPhaseView::Spawning(source@),
            LaunchPhase::Awaiting(source) => LaunchPhaseView::Awaiting(source@),
            LaunchPhase::Over(launch) => LaunchPhaseView::Over(launch@),
        }
    }
}

impl LaunchRun {
    /// Begins to reach the daemon.
    pub fn new() -> (r: LaunchRun)
        ensures
            r@ == LaunchPhaseView::Probing,
    {
        LaunchRun { phase: LaunchPhase::Probing }
    }

    /// The question to put next; `None` once it is known how it went.
    pub fn ask(&self) -> (r: Option<daemon_cli::Ask>)
        ensures
            r == self@.question(),
    {
        match self.phase {
            LaunchPhase::Probing => Some(daemon_cli::Ask::Probe),
            LaunchPhase::Planning => Some(daemon_cli::Ask::Plan),
            LaunchPhase::Spawning(_) => Some(daemon_cli::Ask::Spawn),
            LaunchPhase::Awaiting(_) => Some(daemon_cli::Ask::AwaitAlive),
            LaunchPhase::Over(_) => None,
        }
    }

    /// Takes an answer in.
    pub fn answer(&mut self, fact: daemon_cli::Fact)
        ensures
            final(self)@ == old(self)@.answered(fact@),
    {
        let next = match (&self.phase, fact) {
            (LaunchPhase::Probing, daemon_cli::Fact::Probed(probe)) => match probe {
                daemon_cli::Probe::Alive => LaunchPhase::Over(Launch::Running),
                _ => LaunchPhase::Planning,
            },
            (LaunchPhase::Planning, daemon_cli::Fact::Planned(plan)) => match plan {
                Some(p) => LaunchPhase::Spawning(p.source),
                None => LaunchPhase::Over(Launch::Unresolved),
            },
            (LaunchPhase::Spawning(source), daemon_cli::Fact::Spawned(failure)) => match failure {
                Some(error) => LaunchPhase::Over(Launch::Refused(error)),
                None => LaunchPhase::Awaiting(*source),
            },
            (LaunchPhase::Awaiting(source), daemon_cli::Fact::Reached(reached)) => LaunchPhase::Over(
                if reached {
                    Launch::Started(*source)
                } else {
                    Launch::Unreachable
                },
            ),
            _ => return,
        };
        self.phase = next;
    }

    /// How it went, once that is known.
    pub fn outcome(&self) -> (r: Option<&Launch>)
        ensures
            match r {
                Some(launch) => self@ == LaunchPhaseView::Over(launch@),
                None => !(self@ is Over),
            },
    {
        match &self.phase {
            LaunchPhase::Over(launch) => Some(launch),
            _ => None,
        }
    }
}

} // verus!
