//! What holds of the credential subcommands.

use crate::auth_cli;
use crate::auth_cli::{AuthFact, PhaseView};
use crate::cli::AuthAction;
use crate::model_laws;
use crate::proto::{AuthSelectOption, AuthStatusEntry, ServerMessage};
use crate::text;
use crate::text_laws;
use vstd::prelude::*;

verus! {

proof fn lemma_piece(before: Seq<char>, piece: Seq<char>, after: Seq<char>)
    ensures
        model_laws::holds(before + piece + after, piece),
{
    let all = before + piece + after;
    let i = before.len() as int;
    assert(all.subrange(i, i + piece.len()) =~= piece);
}

proof fn lemma_piece_stays(s: Seq<char>, piece: Seq<char>, before: Seq<char>, after: Seq<char>)
    requires
        model_laws::holds(s, piece),
    ensures
        model_laws::holds(before + s + after, piece),
{
    let i = choose|i: int|
        0 <= i <= s.len() - piece.len() && #[trigger] s.subrange(i, i + piece.len()) == piece;
    let all = before + s + after;
    let k = before.len() + i;
    assert(all.subrange(k, k + piece.len()) =~= s.subrange(i, i + piece.len()));
}

/// The number typed for an option picks that option, whatever whitespace stands around it;
/// a number that was not offered picks none.
pub proof fn a_number_picks_its_option(options: Seq<Seq<char>>, n: nat, typed: Seq<char>)
    requires
        text::trim(typed) == text::decimal(n),
    ensures
        1 <= n <= options.len() ==> auth_cli::picked(options, typed) == Some(options[n - 1]),
        n == 0 || n > options.len() ==> auth_cli::picked(options, typed) is None,
{
    text_laws::numerals_read_back(n);
}

/// Every option is listed with the number that picks it.
pub proof fn every_option_is_listed_with_its_number(options: Seq<AuthSelectOption>, i: int)
    requires
        0 <= i < options.len(),
    ensures
        model_laws::holds(
            auth_cli::menu(options),
            text::decimal((i + 1) as nat) + ". "@ + options[i].label@ + "\n"@,
        ),
    decreases options.len(),
{
    let init = options.drop_last();
    let entry = text::decimal((i + 1) as nat) + ". "@ + options[i].label@ + "\n"@;
    let rest = "  "@ + text::decimal(options.len()) + ". "@ + options.last().label@ + "\n"@;
    assert(auth_cli::menu(options) =~= auth_cli::menu(init) + rest);
    if i < init.len() {
        every_option_is_listed_with_its_number(init, i);
        assert(init[i] == options[i]);
        lemma_piece_stays(auth_cli::menu(init), entry, seq![], rest);
        assert(Seq::<char>::empty() + auth_cli::menu(init) + rest =~= auth_cli::menu(options));
    } else {
        let before = auth_cli::menu(init) + "  "@;
        assert(auth_cli::menu(options) =~= before + entry + Seq::<char>::empty());
        lemma_piece(before, entry, seq![]);
    }
}

/// A typed line loses the line break at its end and nothing else.
pub proof fn only_the_line_break_goes(typed: Seq<char>)
    ensures
        ({
            let kept = auth_cli::without_break(typed);
            &&& kept.is_prefix_of(typed)
            &&& forall|i: int|
                kept.len() <= i < typed.len() ==> #[trigger] typed[i] == '\r' || typed[i] == '\n'
            &&& kept.len() > 0 ==> kept.last() != '\r' && kept.last() != '\n'
        }),
    decreases typed.len(),
{
    if typed.len() > 0 && (typed.last() == '\r' || typed.last() == '\n') {
        let init = typed.drop_last();
        only_the_line_break_goes(init);
        let kept = auth_cli::without_break(typed);
        assert forall|i: int| kept.len() <= i < typed.len() implies #[trigger] typed[i] == '\r'
            || typed[i] == '\n' by {
            if i < init.len() {
                assert(init[i] == typed[i]);
            }
        }
    }
}

/// What is typed at a text prompt goes to that prompt as it is, without the line break; an
/// empty answer does only where one is allowed, and is asked for again otherwise. The end
/// of input declines.
pub proof fn a_typed_answer_is_sent(
    prompt_id: Seq<char>,
    prompt: Seq<char>,
    allow_empty: bool,
    action: AuthAction,
    request_id: Seq<char>,
    typed: String,
)
    ensures
        ({
            let phase = PhaseView::Text { prompt_id, prompt, allow_empty };
            let (after, effect) = auth_cli::taken(
                phase,
                action,
                request_id,
                AuthFact::Typed(Some(typed)),
            );
            let answer = auth_cli::without_break(typed@);
            let (declined, reply) = auth_cli::taken(
                phase,
                action,
                request_id,
                AuthFact::Typed(None),
            );
            &&& answer.len() > 0 || allow_empty ==> effect.reply == Some(
                (prompt_id, Some(answer)),
            ) && after is Events
            &&& answer.len() == 0 && !allow_empty ==> effect.reply is None && after == phase
                && prompt.is_suffix_of(effect.out)
            &&& reply.reply == Some((prompt_id, None::<Seq<char>>))
            &&& declined is Events
        }),
{
    let out = auth_cli::line("(an answer is required)"@) + prompt;
    assert(prompt =~= out.subrange(out.len() - prompt.len(), out.len() as int));
}

/// A choice is asked for again until a number that was offered is typed, and then that
/// option's id goes to the prompt.
pub proof fn a_typed_choice_is_sent(
    prompt_id: Seq<char>,
    options: Seq<Seq<char>>,
    action: AuthAction,
    request_id: Seq<char>,
    typed: String,
)
    ensures
        ({
            let phase = PhaseView::Choice { prompt_id, options };
            let (after, effect) = auth_cli::taken(
                phase,
                action,
                request_id,
                AuthFact::Typed(Some(typed)),
            );
            match auth_cli::picked(options, typed@) {
                Some(id) => effect.reply == Some((prompt_id, Some(id))) && after is Events,
                None => effect.reply is None && after == phase && effect.out.len() > 0,
            }
        }),
{
    reveal_strlit("(enter a number between 1 and ");
}

/// What the daemon says during a login is shown: the address to open, which is opened too,
/// the code and where to enter it, progress, prompts with their options, and the result,
/// which decides the exit code.
pub proof fn the_daemons_words_are_shown(action: AuthAction, message: ServerMessage)
    ensures
        ({
            let (phase, effect) = auth_cli::on_event(action, message);
            &&& effect.reply is None
            &&& match message {
                ServerMessage::AuthUrl { url, instructions, .. } => {
                    &&& phase is Events
                    &&& effect.open == Some(url@)
                    &&& model_laws::holds(effect.out, url@)
                    &&& instructions matches Some(i) ==> model_laws::holds(effect.out, i@)
                },
                ServerMessage::AuthDeviceCode {
                    user_code,
                    verification_uri,
                    expires_in_seconds,
                    ..
                } => {
                    &&& phase is Events
                    &&& effect.open is None
                    &&& model_laws::holds(effect.out, user_code@)
                    &&& model_laws::holds(effect.out, verification_uri@)
                    &&& expires_in_seconds matches Some(n) ==> model_laws::holds(
                        effect.out,
                        text::decimal(n as nat),
                    )
                },
                ServerMessage::AuthProgress { message, .. } => phase is Events && model_laws::holds(
                    effect.out,
                    message@,
                ),
                ServerMessage::AuthPrompt { prompt_id, message, placeholder, allow_empty, .. } => {
                    &&& phase matches PhaseView::Text {
                        prompt_id: id,
                        prompt,
                        allow_empty: empty,
                    } && id == prompt_id@ && empty == allow_empty && prompt == effect.out
                    &&& model_laws::holds(effect.out, message@)
                    &&& placeholder matches Some(hint) ==> model_laws::holds(effect.out, hint@)
                },
                ServerMessage::AuthSelect { prompt_id, message, options, .. } => {
                    &&& phase matches PhaseView::Choice { prompt_id: id, options: ids } && id
                        == prompt_id@ && ids.len() == options@.len() && forall|i: int|
                        0 <= i < ids.len() ==> #[trigger] ids[i] == options@[i].id@
                    &&& model_laws::holds(effect.out, message@)
                    &&& model_laws::holds(effect.out, auth_cli::menu(options@))
                },
                ServerMessage::AuthResult { ok, message, .. } => {
                    &&& phase == PhaseView::Done(
                        if ok {
                            0i32
                        } else {
                            1i32
                        },
                    )
                    &&& message matches Some(m) ==> model_laws::holds(effect.out, m@)
                },
                ServerMessage::AuthStatus { entries, .. } => phase is Done && effect.out
                    == auth_cli::status_table(entries@),
                _ => phase is Events && effect.out.len() == 0 && effect.open is None,
            }
        }),
{
    let out = auth_cli::on_event(action, message).1.out;
    let none = Seq::<char>::empty();
    match message {
        ServerMessage::AuthUrl { url, instructions, .. } => {
            let first = auth_cli::line("Open this URL to authorize:"@) + "  "@;
            let last = match instructions {
                Some(i) => auth_cli::line(i@),
                None => none,
            };
            assert(out =~= first + url@ + ("\n"@ + last));
            lemma_piece(first, url@, "\n"@ + last);
            if let Some(i) = instructions {
                let before = first + url@ + "\n"@;
                assert(out =~= before + i@ + "\n"@);
                lemma_piece(before, i@, "\n"@);
            }
        },
        ServerMessage::AuthDeviceCode { user_code, verification_uri, expires_in_seconds, .. } => {
            let last = match expires_in_seconds {
                Some(n) => auth_cli::line("The code expires in "@ + text::decimal(n as nat) + "s."@),
                None => none,
            };
            let rest = " at:"@ + "\n"@ + auth_cli::line("  "@ + verification_uri@) + last;
            assert(out =~= "Enter the code "@ + user_code@ + rest);
            lemma_piece("Enter the code "@, user_code@, rest);
            let before = auth_cli::line("Enter the code "@ + user_code@ + " at:"@) + "  "@;
            assert(out =~= before + verification_uri@ + ("\n"@ + last));
            lemma_piece(before, verification_uri@, "\n"@ + last);
            if let Some(n) = expires_in_seconds {
                let lead = before + verification_uri@ + "\n"@ + "The code expires in "@;
                let tail = "s."@ + "\n"@;
                assert(out =~= lead + text::decimal(n as nat) + tail);
                lemma_piece(lead, text::decimal(n as nat), tail);
            }
        },
        ServerMessage::AuthProgress { message, .. } => {
            assert(out =~= none + message@ + "\n"@);
            lemma_piece(none, message@, "\n"@);
        },
        ServerMessage::AuthPrompt { message, placeholder, .. } => {
            match placeholder {
                Some(hint) => {
                    let rest = " ["@ + hint@ + "]: "@;
                    assert(out =~= none + message@ + rest);
                    lemma_piece(none, message@, rest);
                    assert(out =~= (message@ + " ["@) + hint@ + "]: "@);
                    lemma_piece(message@ + " ["@, hint@, "]: "@);
                },
                None => {
                    assert(out =~= none + message@ + ": "@);
                    lemma_piece(none, message@, ": "@);
                },
            }
        },
        ServerMessage::AuthSelect { message, options, .. } => {
            let menu = auth_cli::menu(options@);
            let end = auth_cli::choose_text(options@.len());
            assert(out =~= none + message@ + ("\n"@ + menu + end));
            lemma_piece(none, message@, "\n"@ + menu + end);
            assert(out =~= auth_cli::line(message@) + menu + end);
            lemma_piece(auth_cli::line(message@), menu, end);
        },
        ServerMessage::AuthResult { message, .. } => {
            if let Some(m) = message {
                assert(out =~= none + m@ + "\n"@);
                lemma_piece(none, m@, "\n"@);
            }
        },
        _ => {},
    }
}

/// Nothing is shown and nothing decided before the request was acknowledged, and nothing
/// after the run is over; silence, a closed connection or a fault end a run with a word.
pub proof fn a_run_keeps_to_its_phases(
    phase: PhaseView,
    action: AuthAction,
    request_id: Seq<char>,
    fact: AuthFact,
)
    ensures
        ({
            let (after, effect) = auth_cli::taken(phase, action, request_id, fact);
            &&& phase is AwaitAck || phase is Done || phase is Failed ==> effect.out.len() == 0
                && effect.reply is None && effect.open is None
            &&& phase is Done || phase is Failed ==> after == phase
            &&& phase is AwaitAck ==> after is AwaitAck || after is Events || after is Failed
            &&& phase is AwaitAck && after is Events ==> (fact matches AuthFact::Message(
                Some(ServerMessage::Ack { request_id: id }),
            ) && id@ == request_id)
            &&& (phase is AwaitAck || phase is Events) && fact is Closed ==> after is Failed
            &&& phase is Events && (fact matches AuthFact::TimedOut(_)) ==> after is Failed
            &&& phase is AwaitAck && (fact matches AuthFact::TimedOut(_)) ==> after is Failed
        }),
{
}

/// A row of the status table begins with the provider, names it, and says how it stands.
pub proof fn a_status_row_tells_of_its_provider(e: AuthStatusEntry)
    ensures
        ({
            let row = auth_cli::status_row(e);
            &&& e.provider@.is_prefix_of(row)
            &&& model_laws::holds(row, e.name@)
            &&& (auth_cli::status_text(e) + "\n"@).is_suffix_of(row)
        }),
{
    let row = auth_cli::status_row(e);
    let first = text::padded(e.provider@, 16);
    let name = text::padded(e.name@, 38);
    let end = auth_cli::status_text(e) + "\n"@;
    assert(row =~= first + " "@ + name + " "@ + end);
    assert(e.provider@ =~= row.subrange(0, e.provider@.len() as int));
    assert(end =~= row.subrange(row.len() - end.len(), row.len() as int));
    let fill = name.skip(e.name@.len() as int);
    assert(name =~= e.name@ + fill);
    let rest = fill + " "@ + end;
    assert(row =~= first + " "@ + e.name@ + rest);
    lemma_piece(first + " "@, e.name@, rest);
}

/// A credential is described by where it comes from; a provider without one is said to have
/// none, with the command to log in where there is a login.
pub proof fn credentials_are_described_truly(e: AuthStatusEntry)
    ensures
        ({
            let t = auth_cli::status_text(e);
            let source = text::opt_text(e.source);
            &&& !e.configured ==> "not configured"@.is_prefix_of(t)
            &&& e.configured ==> !("not configured"@.is_prefix_of(t))
            &&& e.configured && source == Some("stored"@) ==> t == "logged in"@
            &&& e.configured && source == Some("environment"@) && e.label is Some
                ==> e.label->0@.is_suffix_of(t)
            &&& e.configured && source == Some("config"@) ==> t == "configured via config.toml"@
            &&& !e.configured && e.oauth ==> model_laws::holds(t, "koshell auth login "@ + e.provider@)
            &&& !e.configured && !e.oauth ==> t == "not configured"@
        }),
{
    let t = auth_cli::status_text(e);
    let source = text::opt_text(e.source);
    let no = "not configured"@;
    reveal_strlit("not configured");
    reveal_strlit("not configured (run `koshell auth login ");
    reveal_strlit("logged in");
    reveal_strlit("configured via $");
    reveal_strlit("configured via the environment");
    reveal_strlit("configured via config.toml");
    reveal_strlit("configured");
    reveal_strlit("stored");
    reveal_strlit("environment");
    reveal_strlit("config");
    reveal_strlit("koshell auth login ");
    reveal_strlit("not configured (run `");
    assert("stored"@.len() != "config"@.len() || "stored"@[0] != "config"@[0]);
    assert("environment"@.len() != "config"@.len());
    assert("environment"@.len() != "stored"@.len());
    if e.configured {
        assert(t[0] != no[0]);
        if no.is_prefix_of(t) {
            assert(no == t.subrange(0, no.len() as int));
            assert(no[0] == t[0]);
        }
        if source == Some("environment"@) && e.label is Some {
            let l = e.label->0@;
            assert(t == "configured via $"@ + l);
            assert(l =~= t.subrange(t.len() - l.len(), t.len() as int));
        }
    } else if e.oauth {
        assert(no =~= t.subrange(0, no.len() as int));
        let piece = "koshell auth login "@ + e.provider@;
        assert("not configured (run `koshell auth login "@ =~= "not configured (run `"@
            + "koshell auth login "@);
        assert(t =~= "not configured (run `"@ + piece + "`)"@);
        lemma_piece("not configured (run `"@, piece, "`)"@);
    } else {
        assert(no =~= t.subrange(0, no.len() as int));
    }
}

/// The table holds a row for every provider, in order.
pub proof fn the_table_has_a_row_for_every_provider(
    entries: Seq<AuthStatusEntry>,
    e: AuthStatusEntry,
)
    ensures
        auth_cli::status_table(entries.push(e)) == auth_cli::status_table(entries)
            + auth_cli::status_row(e),
        auth_cli::status_table(seq![]).len() == 0,
{
    assert(entries.push(e).drop_last() =~= entries);
}

/// Asked about one provider, the exit code says whether it has a credential; asked about all
/// of them it says nothing.
pub proof fn the_exit_code_tells_of_the_named_provider(
    provider: String,
    entries: Seq<AuthStatusEntry>,
)
    ensures
        auth_cli::status_code(AuthAction::Status { provider: Some(provider) }, entries) == 0
            <==> exists|i: int|
            0 <= i < entries.len() && (#[trigger] entries[i]).provider@ == provider@
                && entries[i].configured,
        auth_cli::status_code(AuthAction::Status { provider: Some(provider) }, entries) == 0
            || auth_cli::status_code(AuthAction::Status { provider: Some(provider) }, entries)
            == 1,
        auth_cli::status_code(AuthAction::Status { provider: None }, entries) == 0,
{
}

/// How reaching the daemon went is told where it matters: a failure on the error side, with
/// the error's own words and the log, a start with what was started, and nothing where the
/// daemon ran already. There is a daemon to talk to exactly where no failure is told.
pub proof fn a_launch_is_told_as_it_went(
    launch: auth_cli::Launch,
    log: Option<Seq<char>>,
)
    ensures
        ({
            let lines = auth_cli::launch_lines(launch, log);
            let brief = crate::model_cli::launch_lines(launch);
            &&& auth_cli::reached(launch) <==> lines.err.len() == 0
            &&& auth_cli::reached(launch) <==> brief.err.len() == 0
            &&& brief.out.len() == 0
            &&& launch is Running ==> lines.out.len() == 0
            &&& launch matches auth_cli::Launch::Refused(error) ==> error@.is_suffix_of(
                lines.err[0],
            ) && error@.is_suffix_of(brief.err[0])
            &&& launch matches auth_cli::Launch::Started(source) ==> lines.out.len() == 1
                && model_laws::holds(lines.out[0], source@)
            &&& launch is Unreachable && log is Some ==> log->0.is_suffix_of(lines.err.last())
        }),
{
    match launch {
        auth_cli::Launch::Refused(error) => {
            let l = "failed to start the AI daemon: "@ + error@;
            assert(error@ =~= l.subrange(l.len() - error@.len(), l.len() as int));
        },
        auth_cli::Launch::Started(source) => {
            lemma_piece("AI daemon: started ("@, source@, ")"@);
        },
        auth_cli::Launch::Unreachable => {
            if let Some(path) = log {
                let l = "  check the log: "@ + path;
                assert(path =~= l.subrange(l.len() - path.len(), l.len() as int));
            }
        },
        _ => {},
    }
}

} // verus!
