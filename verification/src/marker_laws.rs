//! What holds of markers: what each one says, and how a stream is parted from them.

use crate::codec;
use crate::codec::ScalarView;
use crate::control_cli;
use crate::control_cli::Control;
use crate::markers;
use crate::markers::{MarkerKind, MarkerView, SegmentView};
use vstd::prelude::*;

verus! {

/// What introduces a marker in the stream: `ESC ] 777;koshell;`.
pub open spec fn lead() -> Seq<u8> {
    seq![0x1b, 0x5d, 0x37, 0x37, 0x37, 0x3b, 0x6b, 0x6f, 0x73, 0x68, 0x65, 0x6c, 0x6c, 0x3b]
}

/// Each kind of marker has its own name, by which it is known again; no other name is one.
pub proof fn a_kind_is_known_by_its_name(kind: MarkerKind, name: Seq<char>)
    ensures
        markers::kind_name(kind) == match kind {
            MarkerKind::CommandStart => "command_start"@,
            MarkerKind::CommandEnd => "command_end"@,
            MarkerKind::Cwd => "cwd"@,
            MarkerKind::NewConversation => "new_conversation"@,
            MarkerKind::ClearContext => "clear_context"@,
        },
        markers::kind_named(name) == Some(kind) ==> name == markers::kind_name(kind),
{
}

/// A marker object is read field by field: the command is what it carries, only an end has
/// an exit code and only a report of the directory a directory, and a line counts as run
/// unless that is denied.
pub proof fn a_marker_is_read_field_by_field(object: Map<Seq<char>, ScalarView>)
    ensures
        markers::marker_of(object) matches Some(m) ==> {
            &&& object.contains_key("type"@)
            &&& object["type"@] == ScalarView::Text(markers::kind_name(m.kind))
            &&& m.command == codec::text_in(object, "command"@)
            &&& !(m.kind is CommandEnd) ==> m.exit_code is None
            &&& m.kind is CommandEnd ==> (codec::int_in(object, "exitCode"@) matches Some(code)
                ==> i32::MIN <= code <= i32::MAX ==> m.exit_code == Some(code as i32))
            &&& m.kind is CommandEnd && codec::int_in(object, "exitCode"@) is None
                ==> m.exit_code is None
            &&& m.kind is Cwd ==> m.cwd == codec::text_in(object, "cwd"@)
            &&& !(m.kind is Cwd) ==> m.cwd is None
            &&& !object.contains_key("executed"@) ==> m.executed
            &&& object.contains_key("executed"@) ==> (m.executed <==> object["executed"@]
                != ScalarView::Flag(false))
        },
        !object.contains_key("type"@) ==> markers::marker_of(object) is None,
{
}

/// A request for a new conversation, and one for a cleared context, is a marker of its own
/// kind that carries nothing else.
pub proof fn a_request_is_its_own_marker()
    ensures
        control_cli::request_marker(Control::NewConversation).kind is NewConversation,
        control_cli::request_marker(Control::ClearContext).kind is ClearContext,
        control_cli::command_name(Control::NewConversation) == "koshell new"@,
        control_cli::command_name(Control::ClearContext) == "koshell clear"@,
        forall|control: Control|
            (#[trigger] control_cli::request_marker(control)).command is None
                && control_cli::request_marker(control).canonical(),
{
}

/// A marker on the wire is its lead, its payload and a bell.
pub proof fn a_marker_has_this_form(m: MarkerView)
    ensures
        markers::wire_form(m) == lead() + markers::payload_for(m) + seq![0x07u8],
{
    assert(markers::MARKER_PREFIX@ =~= lead());
}

/// A marker is taken out of the stream: the output before it and behind it is shown, and
/// the marker stands between them. A payload that is none vanishes.
pub proof fn a_marker_is_taken_out_of_the_stream(
    before: Seq<u8>,
    payload: Seq<u8>,
    after: Seq<u8>,
)
    requires
        forall|i: int| 0 <= i < before.len() ==> #[trigger] before[i] != 0x1b,
        forall|i: int| 0 <= i < payload.len() ==> #[trigger] payload[i] != 0x07,
    ensures
        ({
            let stream = before + lead() + payload + seq![0x07u8] + after;
            let shown = if before.len() == 0 {
                Seq::<SegmentView>::empty()
            } else {
                seq![SegmentView::Visible(before)]
            };
            let told = match markers::marker_in_payload(payload) {
                Some(m) => seq![SegmentView::Marker(m)],
                None => seq![],
            };
            &&& markers::segments(stream) == shown + told + markers::segments(after)
            &&& markers::held(stream) == markers::held(after)
        }),
{
    let p = markers::MARKER_PREFIX@;
    let e = seq![markers::MARKER_SUFFIX];
    assert(p =~= lead());
    let stream = before + lead() + payload + seq![0x07u8] + after;
    let n = before.len() as int;
    lemma_lead_stands(before, payload + seq![0x07u8] + after);
    assert(stream =~= before + lead() + (payload + seq![0x07u8] + after));
    let rest = stream.skip(n + 14);
    assert(rest =~= payload + seq![0x07u8] + after);
    let k = payload.len() as int;
    assert(rest.subrange(k, k + 1) =~= e);
    assert forall|i: int| 0 <= i < k implies !#[trigger] markers::stands_at(rest, e, i) by {
        assert(rest.subrange(i, i + 1)[0] == payload[i]);
    }
    markers::lemma_first_at_is(rest, e, k);
    assert(rest.take(k) =~= payload);
    assert(rest.skip(k + 1) =~= after);
    assert(stream.take(n) =~= before);
}

proof fn lemma_lead_stands(before: Seq<u8>, rest: Seq<u8>)
    requires
        forall|i: int| 0 <= i < before.len() ==> #[trigger] before[i] != 0x1b,
    ensures
        markers::first_at(before + lead() + rest, markers::MARKER_PREFIX@) == Some(
            before.len() as int,
        ),
{
    let p = markers::MARKER_PREFIX@;
    let b = before + lead() + rest;
    let n = before.len() as int;
    assert(p =~= lead());
    assert(b.subrange(n, n + 14) =~= p);
    assert forall|i: int| 0 <= i < n implies !#[trigger] markers::stands_at(b, p, i) by {
        if markers::stands_at(b, p, i) {
            assert(b.subrange(i, i + 14)[0] == before[i]);
            assert(p[0] == 0x1b);
        }
    }
    markers::lemma_first_at_is(b, p, n);
}

/// The bytes that some segments show.
pub open spec fn shown_bytes(segments: Seq<SegmentView>) -> Seq<u8>
    decreases segments.len(),
{
    if segments.len() == 0 {
        seq![]
    } else {
        shown_bytes(segments.drop_last()) + match segments.last() {
            SegmentView::Visible(bytes) => bytes,
            SegmentView::Marker(_) => seq![],
        }
    }
}

/// Without a bell no byte is taken out of the stream: what is shown and what is held are
/// the stream, and nothing but output is told.
pub proof fn nothing_is_lost_without_a_bell(b: Seq<u8>)
    requires
        !b.contains(0x07),
    ensures
        shown_bytes(markers::segments(b)) + markers::held(b) == b,
        forall|i: int|
            0 <= i < markers::segments(b).len() ==> (#[trigger] markers::segments(b)[i]) is Visible,
{
    let p = markers::MARKER_PREFIX@;
    let e = seq![markers::MARKER_SUFFIX];
    markers::lemma_first_at(b, p);
    match markers::first_at(b, p) {
        Some(pos) => {
            let after = b.skip(pos + 14);
            lemma_no_bell(after, b, pos + 14);
            let open = b.skip(pos);
            markers::lemma_overlap_upto(open, p, 13);
            let cut = b.len() - markers::overlap(open);
            lemma_shown(b.take(cut));
            lemma_shown(b.take(pos));
            assert(b.take(cut) + b.skip(cut) =~= b);
            assert(b.take(pos) + b.skip(pos) =~= b);
        },
        None => {
            markers::lemma_overlap_upto(b, p, 13);
            let cut = b.len() - markers::overlap(b);
            lemma_shown(b.take(cut));
            assert(b.take(cut) + b.skip(cut) =~= b);
        },
    }
}

proof fn lemma_shown(b: Seq<u8>)
    ensures
        shown_bytes(markers::visible(b)) == b,
{
    if b.len() > 0 {
        let s = markers::visible(b);
        assert(s.drop_last().len() == 0);
        assert(shown_bytes(s.drop_last()) =~= seq![]);
        assert(shown_bytes(s) =~= b);
    } else {
        assert(shown_bytes(markers::visible(b)) =~= b);
    }
}

proof fn lemma_no_bell(after: Seq<u8>, b: Seq<u8>, from: int)
    requires
        0 <= from <= b.len(),
        after == b.skip(from),
        !b.contains(0x07),
    ensures
        markers::first_at(after, seq![markers::MARKER_SUFFIX]) is None,
{
    let e = seq![markers::MARKER_SUFFIX];
    assert forall|i: int| !#[trigger] markers::stands_at(after, e, i) by {
        if markers::stands_at(after, e, i) {
            assert(after.subrange(i, i + 1)[0] == b[from + i]);
            assert(b.contains(b[from + i]));
        }
    }
    markers::lemma_first_at_none(after, e);
}

/// A marker that is not ended yet is held back, the output before it is not. Past 65,536
/// bytes it is given up: all but what could begin another marker is shown.
pub proof fn an_open_marker_is_held_back(before: Seq<u8>, open: Seq<u8>)
    requires
        forall|i: int| 0 <= i < before.len() ==> #[trigger] before[i] != 0x1b,
        lead().is_prefix_of(open),
        !(before + open).contains(0x07),
    ensures
        open.len() <= 65_536 ==> markers::held(before + open) == open && shown_bytes(
            markers::segments(before + open),
        ) == before,
        open.len() > 65_536 ==> markers::held(before + open).len() < 14,
{
    let b = before + open;
    let n = before.len() as int;
    let rest = open.skip(14);
    assert(open == lead() + rest) by {
        assert(lead() == open.subrange(0, 14));
        assert(open =~= lead() + rest);
    }
    assert(b =~= before + lead() + rest);
    lemma_lead_stands(before, rest);
    lemma_no_bell(b.skip(n + 14), b, n + 14);
    assert(b.skip(n) =~= open);
    assert(b.take(n) =~= before);
    lemma_shown(before);
    markers::lemma_overlap_upto(open, markers::MARKER_PREFIX@, 13);
}

/// Output that could begin a marker is held back only as far as it does: what is held is
/// the beginning of a lead, and no longer end of the output is one.
pub proof fn only_the_beginning_of_a_marker_is_held(b: Seq<u8>, k: int)
    requires
        forall|i: int| !#[trigger] markers::stands_at(b, lead(), i),
    ensures
        markers::held(b).is_prefix_of(lead()),
        markers::held(b).len() < 14,
        markers::held(b).len() < k < 14 && k <= b.len() ==> b.skip(b.len() - k) != lead().take(k),
{
    let p = markers::MARKER_PREFIX@;
    assert(p =~= lead());
    markers::lemma_first_at_none(b, p);
    markers::lemma_overlap_upto(b, p, 13);
    let r = markers::overlap(b);
    assert(markers::held(b) == p.take(r as int));
    assert(p.take(r as int) =~= lead().subrange(0, r as int));
}

} // verus!
