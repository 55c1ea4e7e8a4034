//! What holds of the model subcommands.

use crate::model_cli;
use crate::model_cli::{ExchangeView, Incoming, PickerKey, PickerView};
use crate::proto::{ModelCatalogEntry, ServerMessage};
use crate::text;
use vstd::prelude::*;

verus! {

/// Whether a text holds another one in one piece.
pub open spec fn holds(s: Seq<char>, piece: Seq<char>) -> bool {
    exists|i: int|
        0 <= i <= s.len() - piece.len() && #[trigger] s.subrange(i, i + piece.len()) == piece
}

proof fn lemma_holds(before: Seq<char>, piece: Seq<char>, after: Seq<char>)
    ensures
        holds(before + piece + after, piece),
{
    let all = before + piece + after;
    let i = before.len() as int;
    assert(all.subrange(i, i + piece.len()) =~= piece);
}

proof fn lemma_ends(before: Seq<char>, end: Seq<char>)
    ensures
        end.is_suffix_of(before + end),
        (before + end).skip(before.len() as int) == end,
{
    let all = before + end;
    assert(end =~= all.subrange(all.len() - end.len(), all.len() as int));
    assert(all.skip(before.len() as int) =~= end);
}

/// The configured model is shown as it is: the first line ends with it, two configured
/// models never show alike, and nothing else of the answer changes that line.
pub proof fn the_configured_model_is_shown(
    configured: Seq<char>,
    other: Option<Seq<char>>,
    active: Option<Seq<char>>,
    conversation: bool,
    in_session: bool,
    active_too: Option<Seq<char>>,
    conversation_too: bool,
    in_session_too: bool,
)
    ensures
        ({
            let lines = model_cli::shown_lines(
                Some(configured),
                active,
                conversation,
                in_session,
            );
            let others = model_cli::shown_lines(
                other,
                active_too,
                conversation_too,
                in_session_too,
            );
            &&& configured.is_suffix_of(lines[0])
            &&& (other matches Some(m) && m != configured) ==> lines[0] != others[0]
            &&& other == Some(configured) ==> lines[0] == others[0]
            &&& lines.len() == if in_session {
                2int
            } else {
                1
            }
        }),
{
    let lead = "configured default: "@;
    lemma_ends(lead, configured);
    if let Some(m) = other {
        lemma_ends(lead, m);
    }
}

/// The active model is shown inside a session, once there is a conversation: the second
/// line ends with it, two of them never show alike, and the configured model does not
/// change that line. Without a conversation there is none to show, and outside a session
/// no such line.
pub proof fn the_active_model_is_shown_in_a_session(
    active: Seq<char>,
    other: Option<Seq<char>>,
    configured: Option<Seq<char>>,
    configured_too: Option<Seq<char>>,
)
    ensures
        ({
            let lines = model_cli::shown_lines(configured, Some(active), true, true);
            let others = model_cli::shown_lines(configured_too, other, true, true);
            &&& lines.len() == 2
            &&& active.is_suffix_of(lines[1])
            &&& (other matches Some(m) && m != active) ==> lines[1] != others[1]
            &&& other == Some(active) ==> lines[1] == others[1]
            &&& model_cli::shown_lines(configured, Some(active), false, true)[1]
                == model_cli::shown_lines(configured_too, other, false, true)[1]
            &&& model_cli::shown_lines(configured, Some(active), true, false).len() == 1
        }),
{
    let lead = "active conversation: "@;
    lemma_ends(lead, active);
    if let Some(m) = other {
        lemma_ends(lead, m);
    }
}

/// A row of the catalog begins with the model's reference and ends with its name, and says
/// whether it can be used and how many thousand tokens it takes.
pub proof fn a_catalog_row_tells_of_its_model(e: ModelCatalogEntry)
    ensures
        ({
            let row = model_cli::catalog_row(e);
            &&& e.model_ref@.is_prefix_of(row)
            &&& e.name@.is_suffix_of(row)
            &&& e.available ==> holds(row, "ready"@)
            &&& !e.available ==> holds(row, "no credentials"@)
            &&& holds(row, text::decimal((e.context_window / 1_000) as nat) + "k"@)
        }),
{
    let row = model_cli::catalog_row(e);
    let first = text::padded(e.model_ref@, 58);
    let word = if e.available {
        "ready"@
    } else {
        "no credentials"@
    };
    let state = text::padded(word, 16);
    let number = text::decimal((e.context_window / 1_000) as nat);
    let window = text::right_aligned(number, 7);
    let head = first + " "@ + state + " "@ + window + "k  "@;
    reveal_strlit("k  ");
    reveal_strlit("k");
    assert(row == head + e.name@);
    lemma_ends(head, e.name@);
    assert(e.model_ref@ =~= row.subrange(0, e.model_ref@.len() as int));
    let pad_state = state.skip(word.len() as int);
    assert(state =~= word + pad_state);
    let rest_state = pad_state + " "@ + window + "k  "@ + e.name@;
    assert(row =~= first + " "@ + word + rest_state);
    lemma_holds(first + " "@, word, rest_state);
    let fill = window.take(window.len() - number.len());
    assert(window =~= fill + number);
    let unit = number + "k"@;
    let after = "k  "@.skip(1) + e.name@;
    assert("k  "@ =~= "k"@ + "k  "@.skip(1));
    let before = first + " "@ + state + " "@ + fill;
    assert(row =~= before + unit + after);
    lemma_holds(before, unit, after);
}

/// An exchange is answered only by a message that replies to its own request, and only once
/// the request was acknowledged; what is settled stays settled.
pub proof fn only_the_own_reply_answers(
    exchange: ExchangeView,
    request_id: Seq<char>,
    incoming: Incoming,
)
    ensures
        ({
            let after = model_cli::received(exchange, request_id, incoming);
            &&& exchange is AwaitReply ==> (after matches ExchangeView::Answered(m) ==> incoming
                == Incoming::Message(Some(m)) && model_cli::replies_to(m, request_id))
            &&& exchange is AwaitAck ==> !(after is Answered)
            &&& exchange is AwaitAck && after is AwaitReply ==> (incoming matches Incoming::Message(
                Some(ServerMessage::Ack { request_id: id }),
            ) && id@ == request_id)
            &&& exchange is Answered || exchange is Failed ==> after == exchange
            &&& exchange is AwaitReply ==> !(after is AwaitAck)
        }),
{
}

/// An exchange ends: its own reply answers it once acknowledged, and silence, a closed
/// connection or a fault fails it, with a word to the user.
pub proof fn an_exchange_comes_to_an_end(
    exchange: ExchangeView,
    request_id: Seq<char>,
    message: ServerMessage,
    error: String,
)
    requires
        exchange is AwaitAck || exchange is AwaitReply,
    ensures
        exchange is AwaitReply && model_cli::replies_to(message, request_id)
            ==> model_cli::received(exchange, request_id, Incoming::Message(Some(message)))
            == ExchangeView::Answered(message),
        model_cli::received(exchange, request_id, Incoming::Failed(error)) == ExchangeView::Failed(
            error@,
        ),
        model_cli::received(exchange, request_id, Incoming::Closed) is Failed,
        model_cli::received(exchange, request_id, Incoming::TimedOut) is Failed,
        model_cli::received(exchange, request_id, Incoming::Message(None)) == exchange,
        (message matches ServerMessage::Ack { request_id: id } && id@ == request_id
            && exchange is AwaitAck) ==> model_cli::received(exchange, request_id, Incoming::Message(Some(message)))
            is AwaitReply,
{
}

/// A reply is to a request where it carries the request's id, whatever else it says.
pub proof fn replies_carry_the_requests_id(message: ServerMessage, request_id: Seq<char>)
    ensures
        model_cli::replies_to(message, request_id) ==> match message {
            ServerMessage::ModelCatalog { request_id: id, .. } => id@ == request_id,
            ServerMessage::ModelState { request_id: id, .. } => id@ == request_id,
            ServerMessage::ModelResult { request_id: id, .. } => id@ == request_id,
            _ => false,
        },
        (message matches ServerMessage::ModelCatalog { request_id: id, .. } && id@ == request_id)
            || (message matches ServerMessage::ModelState { request_id: id, .. } && id@
            == request_id) || (message matches ServerMessage::ModelResult { request_id: id, .. }
            && id@ == request_id) ==> model_cli::replies_to(message, request_id),
{
}

/// Typing into the picker adds to the query what deleting takes away again, and both go back
/// to the first row.
pub proof fn deleting_undoes_typing(
    state: PickerView,
    shown: Seq<ModelCatalogEntry>,
    fewer: Seq<ModelCatalogEntry>,
    character: char,
)
    ensures
        ({
            let (typed, open) = state.pressed(
                shown,
                PickerKey::Char { character, control: false, alt: false },
            );
            let (back, still) = typed.pressed(fewer, PickerKey::Backspace);
            &&& open is None && still is None
            &&& typed.query == state.query.push(character)
            &&& typed.selected == 0
            &&& back.query == state.query
            &&& back.selected == 0
        }),
{
    assert(state.query.push(character).drop_last() =~= state.query);
}

/// Down and up move the selection by one row and undo each other, within the rows; the
/// query stays.
pub proof fn up_undoes_down(state: PickerView, shown: Seq<ModelCatalogEntry>)
    requires
        state.selected < shown.len(),
    ensures
        ({
            let (down, open) = state.pressed(shown, PickerKey::Down);
            let (up, still) = state.pressed(shown, PickerKey::Up);
            &&& open is None && still is None
            &&& down.query == state.query && up.query == state.query
            &&& state.selected + 1 < shown.len() ==> down.selected == state.selected + 1
                && down.pressed(shown, PickerKey::Up).0.selected == state.selected
            &&& state.selected + 1 == shown.len() ==> down.selected == state.selected
            &&& state.selected > 0 ==> up.selected == state.selected - 1
            &&& state.selected == 0 ==> up.selected == 0
        }),
{
}

/// Enter takes the selected model, Esc and Ctrl+C leave with none, and no other key closes
/// the picker. Keys with a modifier and keys of no meaning change nothing.
pub proof fn only_enter_chooses(state: PickerView, shown: Seq<ModelCatalogEntry>, key: PickerKey)
    ensures
        ({
            let (after, outcome) = state.pressed(shown, key);
            &&& key is Enter && state.selected < shown.len() ==> outcome == Some(
                Some(shown[state.selected as int].model_ref@),
            )
            &&& outcome matches Some(Some(_)) ==> key is Enter
            &&& key is Esc || key == (PickerKey::Char { character: 'c', control: true, alt: false })
                ==> outcome == Some(None::<Seq<char>>)
            &&& outcome is Some ==> key is Enter || key is Esc || (key matches PickerKey::Char {
                character,
                control,
                ..
            } && control && character == 'c')
            &&& (key matches PickerKey::Char { control, alt, .. } && (control || alt)) || key is Other
                ==> after == state
        }),
{
}

/// A row of the picker names its model in full where there is room, and tells the selected
/// row from the others and the configured model from the rest.
pub proof fn a_picker_row_tells_of_its_model(
    e: ModelCatalogEntry,
    selected: bool,
    configured: Option<Seq<char>>,
)
    ensures
        ({
            let row = model_cli::row_text(e, selected, configured);
            &&& holds(row, e.model_ref@)
            &&& holds(row, e.name@)
            &&& row != model_cli::row_text(e, !selected, configured)
            &&& configured == Some(e.model_ref@) ==> row != model_cli::row_text(e, selected, None)
            &&& configured != Some(e.model_ref@) ==> row == model_cli::row_text(e, selected, None)
        }),
{
    let mark = if selected {
        "> "@
    } else {
        "  "@
    };
    let star = if configured == Some(e.model_ref@) {
        " *"@
    } else {
        ""@
    };
    let row = model_cli::row_text(e, selected, configured);
    reveal_strlit("> ");
    reveal_strlit("  ");
    reveal_strlit(" *");
    reveal_strlit("");
    let rest = " — "@ + e.name@ + star;
    assert(row =~= mark + e.model_ref@ + rest);
    lemma_holds(mark, e.model_ref@, rest);
    lemma_holds(mark + e.model_ref@ + " — "@, e.name@, star);
    assert(row[0] == mark[0]);
    let turned = model_cli::row_text(e, !selected, configured);
    assert(turned[0] == if selected {
        ' '
    } else {
        '>'
    });
    let bare = model_cli::row_text(e, selected, None);
    assert(row.len() == mark.len() + e.model_ref@.len() + " — "@.len() + e.name@.len()
        + star.len());
    assert(bare.len() == mark.len() + e.model_ref@.len() + " — "@.len() + e.name@.len());
}

/// A row that is too wide is cut at the right, and no more than needed.
pub proof fn a_row_is_cut_at_the_right(s: Seq<char>, width: u16)
    ensures
        model_cli::cut(s, width).is_prefix_of(s),
        model_cli::cut(s, width).len() == if s.len() <= width {
            s.len()
        } else {
            width as nat
        },
{
    let c = model_cli::cut(s, width);
    assert(c =~= s.subrange(0, c.len() as int));
}

/// The models that match keep their order.
pub proof fn matching_keeps_the_order(
    entries: Seq<ModelCatalogEntry>,
    e: ModelCatalogEntry,
    query: Seq<char>,
)
    ensures
        model_cli::kept(entries.push(e), query) == if model_cli::matches_query(query, e) {
            model_cli::kept(entries, query).push(e)
        } else {
            model_cli::kept(entries, query)
        },
{
    assert(entries.push(e).drop_last() =~= entries);
}

} // verus!
