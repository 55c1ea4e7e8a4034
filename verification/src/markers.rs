//! Command-boundary markers: parsing, formatting, and finding them in a byte stream.
//!
//! A marker is an OSC 777 sequence, `ESC ]777;koshell; <payload> BEL`, whose payload is
//! base64 of a flat JSON object. The generated rc files emit them; the scanner takes
//! them out of the stream before the terminal sees the bytes.

use crate::codec;
use crate::codec::{
    base64_decode, base64_encode, flag_field, int_field, parse_object, push_field, render_object,
    text_field, Scalar,
};
use crate::text;
use crate::text::same_text;
use vstd::prelude::*;

verus! {

/// OSC 777 prefix identifying command-boundary markers: `ESC ]777;koshell;`.
pub const MARKER_PREFIX: [u8; 14] = [
    0x1b, 0x5d, 0x37, 0x37, 0x37, 0x3b, 0x6b, 0x6f, 0x73, 0x68, 0x65, 0x6c, 0x6c, 0x3b,
];

/// BEL terminator for the marker.
pub const MARKER_SUFFIX: u8 = 0x07;

/// Cap on the bytes held while waiting for a marker's terminator. A real marker is far
/// under this; past it, the prefix in the stream was not ours and its terminator may
/// never come, so the held bytes are flushed as literal output instead of growing the
/// buffer without bound.
pub const MAX_PENDING_MARKER_BYTES: usize = 65_536;

/// What a marker says.
#[derive(Debug, Clone, Copy, PartialEq, Eq, Structural)]
pub enum MarkerKind {
    CommandStart,
    CommandEnd,
    /// The inner shell's working directory, reported on every prompt so the foreground
    /// wrapper can mirror it onto its own process.
    Cwd,
    /// A request to discard the conversation.
    NewConversation,
    /// A request to discard the screen, the terminal evidence and the conversation.
    ClearContext,
}

impl MarkerKind {
    /// Whether this is a request to the wrapper rather than a report from the shell.
    pub fn is_control(self) -> (r: bool)
        ensures
            r == (self is NewConversation || self is ClearContext),
    {
        match self {
            MarkerKind::NewConversation => true,
            MarkerKind::ClearContext => true,
            _ => false,
        }
    }
}

/// A parsed command-boundary marker.
#[derive(Debug, Clone, PartialEq, Eq)]
pub struct ShellIntegrationMarker {
    pub kind: MarkerKind,
    pub command: Option<String>,
    pub exit_code: Option<i32>,
    /// The absolute working directory, present only on [`MarkerKind::Cwd`] markers.
    pub cwd: Option<String>,
    /// Whether the line actually ran. A comment-only question produces a start and an
    /// end without any command in between.
    pub executed: bool,
}

/// The model of a marker.
#[verifier::ext_equal]
pub struct MarkerView {
    pub kind: MarkerKind,
    pub command: Option<Seq<char>>,
    pub exit_code: Option<i32>,
    pub cwd: Option<Seq<char>>,
    pub executed: bool,
}

impl View for ShellIntegrationMarker {
    type V = MarkerView;

    open spec fn view(&self) -> MarkerView {
        MarkerView {
            kind: self.kind,
            command: text::opt_text(self.command),
            exit_code: self.exit_code,
            cwd: text::opt_text(self.cwd),
            executed: self.executed,
        }
    }
}

impl MarkerView {
    /// Whether the marker carries only what its kind carries on the wire.
    pub open spec fn canonical(self) -> bool {
        &&& self.exit_code is Some ==> self.kind is CommandEnd
        &&& self.cwd is Some ==> self.kind is Cwd
    }
}

/// The wire name of a marker kind.
pub open spec fn kind_name(kind: MarkerKind) -> Seq<char> {
    match kind {
        MarkerKind::CommandStart => "command_start"@,
        MarkerKind::CommandEnd => "command_end"@,
        MarkerKind::Cwd => "cwd"@,
        MarkerKind::NewConversation => "new_conversation"@,
        MarkerKind::ClearContext => "clear_context"@,
    }
}

/// The marker kind with a wire name.
pub open spec fn kind_named(name: Seq<char>) -> Option<MarkerKind> {
    if name == "command_start"@ {
        Some(MarkerKind::CommandStart)
    } else if name == "command_end"@ {
        Some(MarkerKind::CommandEnd)
    } else if name == "cwd"@ {
        Some(MarkerKind::Cwd)
    } else if name == "new_conversation"@ {
        Some(MarkerKind::NewConversation)
    } else if name == "clear_context"@ {
        Some(MarkerKind::ClearContext)
    } else {
        None
    }
}

/// The marker that a JSON object describes, where its type is a known one.
pub open spec fn marker_of(object: Map<Seq<char>, codec::ScalarView>) -> Option<MarkerView> {
    match codec::text_in(object, "type"@) {
        None => None,
        Some(name) => match kind_named(name) {
            None => None,
            Some(kind) => Some(
                MarkerView {
                    kind,
                    command: codec::text_in(object, "command"@),
                    exit_code: match (kind, codec::int_in(object, "exitCode"@)) {
                        (MarkerKind::CommandEnd, Some(code)) => Some(code as i32),
                        _ => None,
                    },
                    cwd: if kind is Cwd {
                        codec::text_in(object, "cwd"@)
                    } else {
                        None
                    },
                    executed: codec::flag_in(object, "executed"@) != Some(false),
                },
            ),
        },
    }
}

/// The marker that a payload carries, where it carries one.
pub open spec fn marker_in_payload(payload: Seq<u8>) -> Option<MarkerView> {
    match codec::base64_decoded(payload) {
        None => None,
        Some(bytes) => match codec::json_object(bytes) {
            None => None,
            Some(object) => marker_of(object),
        },
    }
}

/// The JSON object that describes a marker.
pub open spec fn object_for(m: MarkerView) -> Map<Seq<char>, codec::ScalarView> {
    let o0 = Map::<Seq<char>, codec::ScalarView>::empty().insert(
        "type"@,
        codec::ScalarView::Text(kind_name(m.kind)),
    );
    let o1 = match m.command {
        Some(c) => o0.insert("command"@, codec::ScalarView::Text(c)),
        None => o0,
    };
    let o2 = match m.exit_code {
        Some(c) => o1.insert("exitCode"@, codec::ScalarView::Int(c as int)),
        None => o1,
    };
    let o3 = match m.cwd {
        Some(c) => o2.insert("cwd"@, codec::ScalarView::Text(c)),
        None => o2,
    };
    if m.executed {
        o3
    } else {
        o3.insert("executed"@, codec::ScalarView::Flag(false))
    }
}

/// The payload that carries a marker.
pub open spec fn payload_for(m: MarkerView) -> Seq<u8> {
    codec::base64_encoded(codec::json_bytes(object_for(m)))
}

/// A marker on the wire.
pub open spec fn wire_form(m: MarkerView) -> Seq<u8> {
    MARKER_PREFIX@ + payload_for(m) + seq![MARKER_SUFFIX]
}

proof fn lemma_field_names()
    ensures
        "type"@ != "command"@,
        "type"@ != "exitCode"@,
        "type"@ != "cwd"@,
        "type"@ != "executed"@,
        "command"@ != "exitCode"@,
        "command"@ != "cwd"@,
        "command"@ != "executed"@,
        "exitCode"@ != "cwd"@,
        "exitCode"@ != "executed"@,
        "cwd"@ != "executed"@,
{
    reveal_strlit("type");
    reveal_strlit("command");
    reveal_strlit("exitCode");
    reveal_strlit("cwd");
    reveal_strlit("executed");
    assert("type"@.len() == 4);
    assert("command"@.len() == 7);
    assert("cwd"@.len() == 3);
    assert("exitCode"@.len() == 8);
    assert("exitCode"@[2] != "executed"@[2]);
}

proof fn lemma_kind_names(kind: MarkerKind)
    ensures
        kind_named(kind_name(kind)) == Some(kind),
{
    reveal_strlit("command_start");
    reveal_strlit("command_end");
    reveal_strlit("cwd");
    reveal_strlit("new_conversation");
    reveal_strlit("clear_context");
    assert("command_start"@.len() == 13);
    assert("command_end"@.len() == 11);
    assert("cwd"@.len() == 3);
    assert("new_conversation"@.len() == 16);
    assert("command_start"@[1] != "clear_context"@[1]);
}

/// The object that describes a marker describes exactly that marker.
pub proof fn marker_objects_round_trip(m: MarkerView)
    requires
        m.canonical(),
    ensures
        marker_of(object_for(m)) == Some(m),
        codec::expressible(object_for(m)),
{
    lemma_field_names();
    lemma_kind_names(m.kind);
    if let Some(code) = m.exit_code {
        assert((code as i64) as i32 == code);
    }
}

/// Reads a marker out of an already decoded object.
pub fn marker_from_fields(fields: &Vec<(String, Scalar)>) -> (r: Option<ShellIntegrationMarker>)
    ensures
        match marker_of(codec::object_of(fields@)) {
            Some(m) => r is Some && r->0@ == m,
            None => r is None,
        },
{
    let name = match text_field(fields, "type") {
        Some(name) => name,
        None => {
            return None;
        },
    };
    let kind = if same_text(name.as_str(), "command_start") {
        MarkerKind::CommandStart
    } else if same_text(name.as_str(), "command_end") {
        MarkerKind::CommandEnd
    } else if same_text(name.as_str(), "cwd") {
        MarkerKind::Cwd
    } else if same_text(name.as_str(), "new_conversation") {
        MarkerKind::NewConversation
    } else if same_text(name.as_str(), "clear_context") {
        MarkerKind::ClearContext
    } else {
        return None;
    };
    let command = text_field(fields, "command");
    let exit_code: Option<i32> = match int_field(fields, "exitCode") {
        Some(code) => if kind == MarkerKind::CommandEnd {
            Some(
                #[verifier::truncate]
                (code as i32),
            )
        } else {
            None
        },
        None => None,
    };
    let cwd = if kind == MarkerKind::Cwd {
        text_field(fields, "cwd")
    } else {
        None
    };
    let executed = match flag_field(fields, "executed") {
        Some(flag) => flag,
        None => true,
    };
    Some(ShellIntegrationMarker { kind, command, exit_code, cwd, executed })
}

/// Parses a base64 marker payload.
pub fn parse_marker_payload(payload: &[u8]) -> (r: Option<ShellIntegrationMarker>)
    ensures
        match marker_in_payload(payload@) {
            Some(m) => r is Some && r->0@ == m,
            None => r is None,
        },
{
    match base64_decode(payload) {
        Some(bytes) => match parse_object(bytes.as_slice()) {
            Some(fields) => marker_from_fields(&fields),
            None => None,
        },
        None => None,
    }
}

fn type_text(kind: MarkerKind) -> (r: String)
    ensures
        r@ == kind_name(kind),
{
    match kind {
        MarkerKind::CommandStart => "command_start".to_owned(),
        MarkerKind::CommandEnd => "command_end".to_owned(),
        MarkerKind::Cwd => "cwd".to_owned(),
        MarkerKind::NewConversation => "new_conversation".to_owned(),
        MarkerKind::ClearContext => "clear_context".to_owned(),
    }
}

/// The fields that describe a marker.
pub fn marker_fields(marker: &ShellIntegrationMarker) -> (r: Vec<(String, Scalar)>)
    ensures
        codec::object_of(r@) == object_for(marker@),
{
    let mut fields: Vec<(String, Scalar)> = Vec::new();
    push_field(&mut fields, "type", Scalar::Text(type_text(marker.kind)));
    if let Some(command) = &marker.command {
        push_field(&mut fields, "command", Scalar::Text(command.clone()));
    }
    if let Some(exit_code) = marker.exit_code {
        push_field(&mut fields, "exitCode", Scalar::Int(exit_code as i64));
    }
    if let Some(cwd) = &marker.cwd {
        push_field(&mut fields, "cwd", Scalar::Text(cwd.clone()));
    }
    if !marker.executed {
        push_field(&mut fields, "executed", Scalar::Flag(false));
    }
    fields
}

/// Formats a marker as the on-wire OSC sequence. It ends with the only terminator in it;
/// what comes out parses back to the same marker, and a scanner that is fed it finds that
/// marker and nothing else.
pub fn format_marker(marker: &ShellIntegrationMarker) -> (r: Vec<u8>)
    ensures
        r@ == wire_form(marker@),
        r@.last() == MARKER_SUFFIX,
        forall|i: int| 0 <= i < r@.len() - 1 ==> #[trigger] r@[i] != MARKER_SUFFIX,
        marker@.canonical() ==> marker_in_payload(payload_for(marker@)) == Some(marker@),
        marker@.canonical() ==> segments(r@) == seq![SegmentView::Marker(marker@)],
        marker@.canonical() ==> held(r@) == Seq::<u8>::empty(),
{
    let fields = marker_fields(marker);
    let json = render_object(&fields);
    let payload = base64_encode(json.as_slice());
    let mut out: Vec<u8> = Vec::new();
    out.extend_from_slice(&MARKER_PREFIX);
    out.extend_from_slice(payload.as_slice());
    out.push(MARKER_SUFFIX);
    proof {
        assert(out@ =~= wire_form(marker@));
        assert forall|i: int| 0 <= i < out@.len() - 1 implies #[trigger] out@[i]
            != MARKER_SUFFIX by {
            if i < 14 {
                assert(out@[i] == MARKER_PREFIX@[i]);
            } else {
                assert(out@[i] == payload@[i - 14]);
                assert(codec::is_base64_byte(payload@[i - 14]));
            }
        }
        if marker@.canonical() {
            marker_objects_round_trip(marker@);
            lemma_scan_wire_form(marker@);
        }
    }
    out
}

// ---------------------------------------------------------------------------
// Scanning
// ---------------------------------------------------------------------------

/// A segment of the byte stream: either user-visible bytes or a parsed marker.
#[derive(Debug, Clone, PartialEq, Eq)]
pub enum Segment {
    Visible(Vec<u8>),
    Marker(ShellIntegrationMarker),
}

/// The model of a segment.
#[verifier::ext_equal]
pub enum SegmentView {
    Visible(Seq<u8>),
    Marker(MarkerView),
}

impl View for Segment {
    type V = SegmentView;

    open spec fn view(&self) -> SegmentView {
        match *self {
            Segment::Visible(bytes) => SegmentView::Visible(bytes@),
            Segment::Marker(marker) => SegmentView::Marker(marker@),
        }
    }
}

/// The position of the first occurrence of `needle` in `b`.
pub open spec fn first_at(b: Seq<u8>, needle: Seq<u8>) -> Option<int>
    decreases b.len(),
{
    if b.len() < needle.len() || b.len() == 0 {
        None
    } else if b.take(needle.len() as int) == needle {
        Some(0)
    } else {
        match first_at(b.drop_first(), needle) {
            Some(p) => Some(p + 1),
            None => None,
        }
    }
}

/// The largest length up to `k` at which the end of `b` is the beginning of `needle`.
pub open spec fn overlap_upto(b: Seq<u8>, needle: Seq<u8>, k: nat) -> nat
    decreases k,
{
    if k == 0 {
        0
    } else if k <= b.len() && b.skip(b.len() - k) == needle.take(k as int) {
        k
    } else {
        overlap_upto(b, needle, (k - 1) as nat)
    }
}

/// How much of the end of `b` could be the beginning of a marker prefix.
pub open spec fn overlap(b: Seq<u8>) -> nat {
    overlap_upto(b, MARKER_PREFIX@, 13)
}

/// Visible bytes make a segment unless there are none.
pub open spec fn visible(b: Seq<u8>) -> Seq<SegmentView> {
    if b.len() == 0 {
        seq![]
    } else {
        seq![SegmentView::Visible(b)]
    }
}

/// A payload makes a segment where it carries a marker; any other payload vanishes.
pub open spec fn marker_segment(payload: Seq<u8>) -> Seq<SegmentView> {
    match marker_in_payload(payload) {
        Some(m) => seq![SegmentView::Marker(m)],
        None => seq![],
    }
}

/// The segments complete in a buffer.
pub open spec fn segments(b: Seq<u8>) -> Seq<SegmentView>
    decreases b.len(),
{
    match first_at(b, MARKER_PREFIX@) {
        Some(pos) => {
            let after = b.skip(pos + 14);
            match first_at(after, seq![MARKER_SUFFIX]) {
                Some(rel) => {
                    proof {
                        lemma_scan_progress(b);
                    }
                    visible(b.take(pos as int)) + marker_segment(after.take(rel as int)) + segments(
                        after.skip(rel + 1),
                    )
                },
                None => {
                    let open = b.skip(pos as int);
                    if open.len() > MAX_PENDING_MARKER_BYTES {
                        visible(b.take(b.len() - overlap(open)))
                    } else {
                        visible(b.take(pos as int))
                    }
                },
            }
        },
        None => visible(b.take(b.len() - overlap(b))),
    }
}

/// The bytes of a buffer that stay held because they may belong to a marker.
pub open spec fn held(b: Seq<u8>) -> Seq<u8>
    decreases b.len(),
{
    match first_at(b, MARKER_PREFIX@) {
        Some(pos) => {
            let after = b.skip(pos + 14);
            match first_at(after, seq![MARKER_SUFFIX]) {
                Some(rel) => {
                    proof {
                        lemma_scan_progress(b);
                    }
                    held(after.skip(rel + 1))
                },
                None => {
                    let open = b.skip(pos as int);
                    if open.len() > MAX_PENDING_MARKER_BYTES {
                        b.skip(b.len() - overlap(open))
                    } else {
                        open
                    }
                },
            }
        },
        None => b.skip(b.len() - overlap(b)),
    }
}

/// Whether scanning a buffer gives up on a marker that is not terminated in time.
pub open spec fn gives_up(b: Seq<u8>) -> bool
    decreases b.len(),
{
    match first_at(b, MARKER_PREFIX@) {
        Some(pos) => {
            let after = b.skip(pos + 14);
            match first_at(after, seq![MARKER_SUFFIX]) {
                Some(rel) => {
                    proof {
                        lemma_scan_progress(b);
                    }
                    gives_up(after.skip(rel + 1))
                },
                None => b.len() - pos > MAX_PENDING_MARKER_BYTES,
            }
        },
        None => false,
    }
}

/// One thing that a scanned stream delivers.
pub enum Item {
    Byte(u8),
    Marker(MarkerView),
}

/// What some segments deliver, in order.
pub open spec fn items(segs: Seq<SegmentView>) -> Seq<Item>
    decreases segs.len(),
{
    if segs.len() == 0 {
        seq![]
    } else {
        items(segs.drop_last()) + match segs.last() {
            SegmentView::Visible(bytes) => bytes.map_values(|b: u8| Item::Byte(b)),
            SegmentView::Marker(m) => seq![Item::Marker(m)],
        }
    }
}

/// Whether `needle` stands at position `i` of `b`.
pub open spec fn stands_at(b: Seq<u8>, needle: Seq<u8>, i: int) -> bool {
    0 <= i && i + needle.len() <= b.len() && b.subrange(i, i + needle.len()) == needle
}

/// A first occurrence is an occurrence before which there is none.
pub proof fn lemma_first_at(b: Seq<u8>, needle: Seq<u8>)
    requires
        needle.len() > 0,
    ensures
        match first_at(b, needle) {
            Some(p) => stands_at(b, needle, p as int) && forall|i: int|
                0 <= i < p ==> !#[trigger] stands_at(b, needle, i),
            None => forall|i: int| !#[trigger] stands_at(b, needle, i),
        },
    decreases b.len(),
{
    if b.len() < needle.len() || b.len() == 0 {
    } else if b.take(needle.len() as int) == needle {
        assert(b.subrange(0, needle.len() as int) =~= b.take(needle.len() as int));
    } else {
        let t = b.drop_first();
        lemma_first_at(t, needle);
        assert(b.subrange(0, needle.len() as int) =~= b.take(needle.len() as int));
        assert forall|i: int| 1 <= i && i + needle.len() <= b.len() implies b.subrange(
            i,
            i + needle.len(),
        ) == #[trigger] t.subrange(i - 1, i - 1 + needle.len()) by {
            assert(b.subrange(i, i + needle.len()) =~= t.subrange(i - 1, i - 1 + needle.len()));
        }
        match first_at(t, needle) {
            Some(p) => {
                assert(stands_at(t, needle, p as int));
                assert(b.subrange(p + 1, p + 1 + needle.len()) =~= t.subrange(
                    p as int,
                    p + needle.len(),
                ));
                assert forall|i: int| 0 <= i < p + 1 implies !#[trigger] stands_at(b, needle, i) by {
                    if i > 0 && stands_at(b, needle, i) {
                        assert(t.subrange(i - 1, i - 1 + needle.len()) == needle);
                        assert(stands_at(t, needle, i - 1));
                    }
                }
            },
            None => {
                assert forall|i: int| !#[trigger] stands_at(b, needle, i) by {
                    if i > 0 && stands_at(b, needle, i) {
                        assert(t.subrange(i - 1, i - 1 + needle.len()) == needle);
                        assert(stands_at(t, needle, i - 1));
                    }
                }
            },
        }
    }
}

/// A complete marker takes up bytes, so what follows it is shorter.
pub proof fn lemma_scan_progress(b: Seq<u8>)
    ensures
        first_at(b, MARKER_PREFIX@) matches Some(pos) ==> {
            &&& 0 <= pos
            &&& pos + 14 <= b.len()
            &&& first_at(b.skip(pos + 14), seq![MARKER_SUFFIX]) matches Some(rel) ==> {
                &&& 0 <= rel
                &&& pos + 14 + rel + 1 <= b.len()
            }
        },
{
    lemma_first_at(b, MARKER_PREFIX@);
    if let Some(pos) = first_at(b, MARKER_PREFIX@) {
        lemma_first_at(b.skip(pos + 14), seq![MARKER_SUFFIX]);
    }
}

/// An occurrence before which there is none is the first one.
pub proof fn lemma_first_at_is(b: Seq<u8>, needle: Seq<u8>, p: int)
    requires
        needle.len() > 0,
        stands_at(b, needle, p as int),
        forall|i: int| 0 <= i < p ==> !#[trigger] stands_at(b, needle, i),
    ensures
        first_at(b, needle) == Some(p),
{
    lemma_first_at(b, needle);
    match first_at(b, needle) {
        Some(q) => {
            if q < p {
                assert(!stands_at(b, needle, q as int));
            }
        },
        None => {
            assert(!stands_at(b, needle, p as int));
        },
    }
}

pub proof fn lemma_first_at_none(b: Seq<u8>, needle: Seq<u8>)
    requires
        needle.len() > 0,
        forall|i: int| !#[trigger] stands_at(b, needle, i),
    ensures
        first_at(b, needle) is None,
{
    lemma_first_at(b, needle);
}

pub proof fn lemma_overlap_upto(b: Seq<u8>, needle: Seq<u8>, k: nat)
    requires
        k < needle.len(),
    ensures
        ({
            let r = overlap_upto(b, needle, k);
            &&& r <= k
            &&& r <= b.len()
            &&& b.skip(b.len() - r) == needle.take(r as int)
            &&& forall|j: int|
                r < j <= k && j <= b.len() ==> #[trigger] b.skip(b.len() - j) != needle.take(j)
        }),
    decreases k,
{
    if k == 0 {
        assert(b.skip(b.len() as int) =~= needle.take(0));
    } else if k <= b.len() && b.skip(b.len() - k) == needle.take(k as int) {
    } else {
        lemma_overlap_upto(b, needle, (k - 1) as nat);
    }
}

proof fn lemma_overlap_is(b: Seq<u8>, needle: Seq<u8>, k: nat, r: nat)
    requires
        k < needle.len(),
        r <= k,
        r <= b.len(),
        b.skip(b.len() - r) == needle.take(r as int),
        forall|j: int|
            r < j <= k && j <= b.len() ==> #[trigger] b.skip(b.len() - j) != needle.take(j),
    ensures
        overlap_upto(b, needle, k) == r,
    decreases k,
{
    if k > r {
        if k <= b.len() {
            assert(b.skip(b.len() - k) != needle.take(k as int));
        }
        lemma_overlap_is(b, needle, (k - 1) as nat, r);
    }
}

/// Bytes behind a buffer do not move an occurrence that lies inside it.
proof fn lemma_first_at_extends(a: Seq<u8>, b: Seq<u8>, needle: Seq<u8>)
    requires
        needle.len() > 0,
        first_at(a, needle) is Some,
    ensures
        first_at(a + b, needle) == first_at(a, needle),
{
    lemma_first_at(a, needle);
    let p = first_at(a, needle)->0;
    let n = needle.len() as int;
    assert((a + b).subrange(p as int, p + n) =~= a.subrange(p as int, p + n));
    assert forall|i: int| 0 <= i < p implies !#[trigger] stands_at(a + b, needle, i) by {
        if stands_at(a + b, needle, i) {
            assert((a + b).subrange(i, i + n) =~= a.subrange(i, i + n));
            assert(stands_at(a, needle, i));
        }
    }
    lemma_first_at_is(a + b, needle, p);
}

/// Where no occurrence starts before `cut`, the search may start there.
proof fn lemma_first_at_skip(b: Seq<u8>, needle: Seq<u8>, cut: int)
    requires
        needle.len() > 0,
        0 <= cut <= b.len(),
        forall|i: int| 0 <= i < cut ==> !#[trigger] stands_at(b, needle, i),
    ensures
        match first_at(b.skip(cut), needle) {
            Some(p) => first_at(b, needle) == Some(cut + p),
            None => first_at(b, needle) is None,
        },
{
    let t = b.skip(cut);
    let n = needle.len() as int;
    lemma_first_at(t, needle);
    assert forall|i: int| stands_at(b, needle, i) implies cut <= i && stands_at(t, needle, i - cut) by {
        if i < cut {
            assert(!stands_at(b, needle, i));
        } else {
            assert(t.subrange(i - cut, i - cut + n) =~= b.subrange(i, i + n));
        }
    }
    match first_at(t, needle) {
        Some(p) => {
            assert(b.subrange(cut + p, cut + p + n) =~= t.subrange(p as int, p + n));
            assert forall|i: int| 0 <= i < cut + p implies !#[trigger] stands_at(b, needle, i) by {
                if stands_at(b, needle, i) {
                    assert(stands_at(t, needle, i - cut));
                }
            }
            lemma_first_at_is(b, needle, cut + p);
        },
        None => {
            assert forall|i: int| !#[trigger] stands_at(b, needle, i) by {
                if stands_at(b, needle, i) {
                    assert(stands_at(t, needle, i - cut));
                }
            }
            lemma_first_at_none(b, needle);
        },
    }
}

/// With no marker prefix in `a`, none that starts before its overlap can be completed
/// by what follows.
proof fn lemma_nothing_before_overlap(a: Seq<u8>, b: Seq<u8>)
    requires
        first_at(a, MARKER_PREFIX@) is None,
    ensures
        forall|i: int|
            0 <= i < a.len() - overlap(a) ==> !#[trigger] stands_at(a + b, MARKER_PREFIX@, i),
        overlap(a) <= 13,
        overlap(a) <= a.len(),
        forall|s: int|
            0 <= s < a.len() - overlap(a) && a.len() - s <= 13 ==> #[trigger] a.skip(s)
                != MARKER_PREFIX@.take(a.len() - s),
{
    let p = MARKER_PREFIX@;
    lemma_overlap_upto(a, p, 13);
    lemma_first_at(a, p);
    assert forall|s: int|
        0 <= s < a.len() - overlap(a) && a.len() - s <= 13 implies #[trigger] a.skip(s) != p.take(
        a.len() - s,
    ) by {
        let j = a.len() - s;
        assert(a.skip(a.len() - j) != p.take(j));
    }
    assert forall|i: int| 0 <= i < a.len() - overlap(a) implies !#[trigger] stands_at(
        a + b,
        p,
        i,
    ) by {
        if stands_at(a + b, p, i) {
            if i + 14 <= a.len() {
                assert((a + b).subrange(i, i + 14) =~= a.subrange(i, i + 14));
                assert(stands_at(a, p, i));
            } else {
                let j = a.len() - i;
                assert(a.skip(i) =~= (a + b).subrange(i, i + 14).take(j));
                assert(a.skip(i) == p.take(j));
            }
        }
    }
}

proof fn lemma_items_concat(a: Seq<SegmentView>, b: Seq<SegmentView>)
    ensures
        items(a + b) == items(a) + items(b),
    decreases b.len(),
{
    if b.len() == 0 {
        assert(a + b =~= a);
        assert(items(a) + items(b) =~= items(a));
    } else {
        lemma_items_concat(a, b.drop_last());
        assert((a + b).drop_last() =~= a + b.drop_last());
        assert((a + b).last() == b.last());
        assert(items(a + b) =~= items(a) + items(b));
    }
}

proof fn lemma_items_visible(b: Seq<u8>)
    ensures
        items(visible(b)) == b.map_values(|x: u8| Item::Byte(x)),
{
    let f = |x: u8| Item::Byte(x);
    if b.len() == 0 {
        assert(b.map_values(f) =~= Seq::<Item>::empty());
    } else {
        let s = visible(b);
        assert(s.drop_last() =~= Seq::<SegmentView>::empty());
        assert(items(s.drop_last()) =~= Seq::<Item>::empty());
        assert(items(s) =~= b.map_values(f));
    }
}

proof fn lemma_items_visible_concat(a: Seq<u8>, b: Seq<u8>)
    ensures
        items(visible(a + b)) == items(visible(a)) + items(visible(b)),
{
    lemma_items_visible(a);
    lemma_items_visible(b);
    lemma_items_visible(a + b);
    let f = |x: u8| Item::Byte(x);
    assert((a + b).map_values(f) =~= a.map_values(f) + b.map_values(f));
}

/// What a scanner holds is bounded, whatever the stream.
pub proof fn held_bytes_are_bounded(b: Seq<u8>)
    ensures
        held(b).len() <= MAX_PENDING_MARKER_BYTES,
        gives_up(b) ==> held(b).len() < MARKER_PREFIX@.len(),
    decreases b.len(),
{
    let p = MARKER_PREFIX@;
    lemma_first_at(b, p);
    match first_at(b, p) {
        Some(pos) => {
            let after = b.skip(pos + 14);
            match first_at(after, seq![MARKER_SUFFIX]) {
                Some(rel) => {
                    lemma_scan_progress(b);
                    held_bytes_are_bounded(after.skip(rel + 1));
                },
                None => {
                    lemma_overlap_upto(b.skip(pos as int), p, 13);
                },
            }
        },
        None => {
            lemma_overlap_upto(b, p, 13);
        },
    }
}

/// An unterminated marker is taken up where it was left.
proof fn lemma_scan_resumes_marker(a: Seq<u8>, b: Seq<u8>)
    requires
        !gives_up(a),
        first_at(a, MARKER_PREFIX@) matches Some(pos) && first_at(
            a.skip(pos + 14),
            seq![MARKER_SUFFIX],
        ) is None,
    ensures
        items(segments(a + b)) == items(segments(a)) + items(segments(held(a) + b)),
        held(a + b) == held(held(a) + b),
{
    let p = MARKER_PREFIX@;
    let e = seq![MARKER_SUFFIX];
    let pos = first_at(a, p)->0;
    lemma_first_at(a, p);
    lemma_first_at_extends(a, b, p);
    let after = a.skip(pos + 14);
    assert((a + b).skip(pos + 14) =~= after + b);
    assert((a + b).take(pos as int) =~= a.take(pos as int));
    lemma_first_at(after, e);
    lemma_scan_progress(a + b);
    let open = a.skip(pos as int);
    let h = open + b;
    assert((a + b).skip(pos as int) =~= h);
    assert(h.take(14) =~= a.subrange(pos as int, pos + 14));
    assert(first_at(h, p) == Some(0int));
    assert(h.skip(14) =~= after + b);
    assert(h.take(0) =~= Seq::<u8>::empty());
    assert(h.skip(0) =~= h);
    match first_at(after + b, e) {
        Some(rel) => {
            lemma_first_at(after + b, e);
            let m = marker_segment((after + b).take(rel as int));
            let t = segments((after + b).skip(rel + 1));
            let v = visible(a.take(pos as int));
            assert(segments(h) =~= m + t);
            lemma_items_concat(v, m + t);
            assert(v + m + t =~= v + (m + t));
        },
        None => {
            if h.len() > MAX_PENDING_MARKER_BYTES {
                lemma_overlap_upto(h, p, 13);
                let k = overlap(h);
                let va = a.take(pos as int);
                let vh = h.take(h.len() - k);
                assert((a + b).take((a + b).len() - k) =~= va + vh);
                lemma_items_visible_concat(va, vh);
                assert((a + b).skip((a + b).len() - k) =~= h.skip(h.len() - k));
            } else {
                assert(items(visible(h.take(0))) =~= Seq::<Item>::empty());
                assert(items(segments(a)) + Seq::<Item>::empty() =~= items(
                    segments(a),
                ));
            }
        },
    }
}

/// Output in front of a marker is delivered before what a scan from behind it delivers.
proof fn lemma_scan_behind_output(v: Seq<u8>, h: Seq<u8>, q: int)
    requires
        first_at(h, MARKER_PREFIX@) == Some(q),
        first_at(v + h, MARKER_PREFIX@) == Some(v.len() + q),
    ensures
        items(segments(v + h)) == items(visible(v)) + items(segments(h)),
        held(v + h) == held(h),
{
    let p = MARKER_PREFIX@;
    let e = seq![MARKER_SUFFIX];
    let whole = v + h;
    let pos = v.len() + q;
    lemma_scan_progress(h);
    assert(whole.take(pos) =~= v + h.take(q));
    lemma_items_visible_concat(v, h.take(q));
    assert(whole.skip(pos + 14) =~= h.skip(q + 14));
    let after = h.skip(q + 14);
    match first_at(after, e) {
        Some(rel) => {
            let m = marker_segment(after.take(rel));
            let t = segments(after.skip(rel + 1));
            let vq = visible(h.take(q));
            let vw = visible(whole.take(pos));
            lemma_items_concat(vw + m, t);
            lemma_items_concat(vw, m);
            lemma_items_concat(vq + m, t);
            lemma_items_concat(vq, m);
            assert(items(vw + m + t) =~= items(visible(v)) + items(vq + m + t));
        },
        None => {
            let open = h.skip(q);
            assert(whole.skip(pos) =~= open);
            if open.len() > MAX_PENDING_MARKER_BYTES {
                lemma_overlap_upto(open, p, 13);
                let j = overlap(open);
                assert(whole.take(whole.len() - j) =~= v + h.take(h.len() - j));
                lemma_items_visible_concat(v, h.take(h.len() - j));
                assert(whole.skip(whole.len() - j) =~= h.skip(h.len() - j));
            }
        },
    }
}

/// With no marker begun, scanning goes on from the bytes that may begin one.
proof fn lemma_scan_resumes_output(a: Seq<u8>, b: Seq<u8>)
    requires
        first_at(a, MARKER_PREFIX@) is None,
    ensures
        items(segments(a + b)) == items(segments(a)) + items(segments(held(a) + b)),
        held(a + b) == held(held(a) + b),
{
    let p = MARKER_PREFIX@;
    lemma_nothing_before_overlap(a, b);
    lemma_overlap_upto(a, p, 13);
    let k = overlap(a);
    let cut = a.len() - k;
    let h = a.skip(cut) + b;
    let whole = a + b;
    let v = a.take(cut);
    assert(whole.skip(cut) =~= h);
    assert(v + h =~= whole);
    lemma_first_at_skip(whole, p, cut);
    match first_at(h, p) {
        Some(q) => {
            lemma_scan_behind_output(v, h, q);
        },
        None => {
            lemma_overlap_upto(h, p, 13);
            let r = overlap(h);
            assert(whole.skip(whole.len() - r) =~= h.skip(h.len() - r));
            assert forall|j: int| r < j <= 13 && j <= whole.len() implies #[trigger] whole.skip(
                whole.len() - j,
            ) != p.take(j) by {
                if j <= h.len() {
                    assert(whole.skip(whole.len() - j) =~= h.skip(h.len() - j));
                    assert(h.skip(h.len() - j) != p.take(j));
                } else {
                    let s = whole.len() - j;
                    if whole.skip(s) == p.take(j) {
                        assert(a.skip(s) =~= whole.skip(s).take(a.len() - s));
                        assert(p.take(j).take(a.len() - s) =~= p.take(a.len() - s));
                        assert(a.skip(s) == p.take(a.len() - s));
                    }
                }
            }
            lemma_overlap_is(whole, p, 13, r);
            assert(whole.take(whole.len() - r) =~= v + h.take(h.len() - r));
            lemma_items_visible_concat(v, h.take(h.len() - r));
        },
    }
}

/// A marker split across reads is found all the same: cutting a stream in two delivers
/// the same bytes and markers in the same order, as long as scanning the first part
/// does not give up on an unterminated marker.
pub proof fn scanning_ignores_chunk_boundaries(a: Seq<u8>, b: Seq<u8>)
    requires
        !gives_up(a),
    ensures
        items(segments(a + b)) == items(segments(a)) + items(segments(held(a) + b)),
        held(a + b) == held(held(a) + b),
    decreases a.len(),
{
    let p = MARKER_PREFIX@;
    let e = seq![MARKER_SUFFIX];
    lemma_first_at(a, p);
    match first_at(a, p) {
        Some(pos) => {
            lemma_first_at_extends(a, b, p);
            let after = a.skip(pos + 14);
            assert((a + b).skip(pos + 14) =~= after + b);
            assert((a + b).take(pos as int) =~= a.take(pos as int));
            lemma_first_at(after, e);
            match first_at(after, e) {
                Some(rel) => {
                    lemma_first_at_extends(after, b, e);
                    lemma_scan_progress(a);
                    lemma_scan_progress(a + b);
                    let rest = after.skip(rel + 1);
                    assert((after + b).take(rel as int) =~= after.take(rel as int));
                    assert((after + b).skip(rel + 1) =~= rest + b);
                    scanning_ignores_chunk_boundaries(rest, b);
                    let head = visible(a.take(pos as int)) + marker_segment(after.take(rel as int));
                    lemma_items_concat(head, segments(rest));
                    lemma_items_concat(head, segments(rest + b));
                    assert(items(head) + (items(segments(rest)) + items(segments(held(rest) + b)))
                        =~= (items(head) + items(segments(rest))) + items(segments(held(rest) + b)));
                },
                None => {
                    lemma_scan_resumes_marker(a, b);
                },
            }
        },
        None => {
            lemma_scan_resumes_output(a, b);
        },
    }
}

/// Output without an escape character passes through whole and at once.
pub proof fn plain_output_passes_through(b: Seq<u8>)
    requires
        forall|i: int| 0 <= i < b.len() ==> #[trigger] b[i] != 0x1b,
    ensures
        segments(b) == visible(b),
        held(b) == Seq::<u8>::empty(),
{
    let p = MARKER_PREFIX@;
    assert forall|i: int| !#[trigger] stands_at(b, p, i) by {
        if stands_at(b, p, i) {
            assert(b.subrange(i, i + 14)[0] == b[i]);
            assert(p[0] == 0x1b);
        }
    }
    lemma_first_at_none(b, p);
    assert forall|j: int| 0 < j <= 13 && j <= b.len() implies #[trigger] b.skip(b.len() - j)
        != p.take(j) by {
        assert(b.skip(b.len() - j)[0] == b[b.len() - j]);
        assert(p.take(j)[0] == 0x1b);
    }
    assert(b.skip(b.len() as int) =~= p.take(0));
    lemma_overlap_is(b, p, 13, 0);
    assert(b.take(b.len() as int) =~= b);
}

/// Scanning a marker's wire form finds that marker and leaves nothing behind.
proof fn lemma_scan_wire_form(m: MarkerView)
    requires
        marker_in_payload(payload_for(m)) == Some(m),
        forall|i: int| 0 <= i < payload_for(m).len() ==> codec::is_base64_byte(payload_for(m)[i]),
    ensures
        segments(wire_form(m)) == seq![SegmentView::Marker(m)],
        held(wire_form(m)) == Seq::<u8>::empty(),
{
    let p = MARKER_PREFIX@;
    let e = seq![MARKER_SUFFIX];
    let w = wire_form(m);
    let payload = payload_for(m);
    assert(w.take(14) =~= p);
    assert(first_at(w, p) == Some(0int));
    let after = w.skip(14);
    assert(after =~= payload + e);
    let n = payload.len() as int;
    assert(after.subrange(n as int, n + 1) =~= e);
    assert forall|i: int| 0 <= i < n implies !#[trigger] stands_at(after, e, i) by {
        assert(after.subrange(i, i + 1)[0] == payload[i]);
        assert(codec::is_base64_byte(payload[i]));
    }
    lemma_first_at_is(after, e, n);
    assert(after.take(n as int) =~= payload);
    let rest = after.skip(n + 1);
    assert(rest =~= Seq::<u8>::empty());
    plain_output_passes_through(rest);
    assert(w.take(0) =~= Seq::<u8>::empty());
    assert(visible(w.take(0)) + marker_segment(payload) + segments(rest) =~= seq![
        SegmentView::Marker(m),
    ]);
}

/// Whether `needle` stands at `at` in `hay`.
fn matches_at(hay: &[u8], needle: &[u8], at: usize) -> (r: bool)
    requires
        at + needle@.len() <= hay@.len(),
    ensures
        r == (hay@.subrange(at as int, at + needle@.len()) == needle@),
{
    let mut i: usize = 0;
    while i < needle.len()
        invariant
            i <= needle@.len(),
            at + needle@.len() <= hay.len(),
            hay@.subrange(at as int, at + i) == needle@.take(i as int),
        decreases needle@.len() - i,
    {
        if hay[at + i] != needle[i] {
            assert(hay@.subrange(at as int, at + needle@.len())[i as int] == hay@[at + i]);
            return false;
        }
        assert(hay@.subrange(at as int, at + i + 1) =~= hay@.subrange(at as int, at + i).push(
            hay@[at + i],
        ));
        assert(needle@.take(i + 1) =~= needle@.take(i as int).push(needle@[i as int]));
        i += 1;
    }
    assert(needle@.take(i as int) =~= needle@);
    true
}

/// The position of the first occurrence of `needle` at or behind `from`.
fn find_from(hay: &[u8], needle: &[u8], from: usize) -> (r: Option<usize>)
    requires
        needle@.len() > 0,
        from <= hay@.len(),
    ensures
        match r {
            Some(p) => from <= p && p + needle@.len() <= hay@.len() && first_at(
                hay@.skip(from as int),
                needle@,
            ) == Some(p - from),
            None => first_at(hay@.skip(from as int), needle@) is None,
        },
{
    let ghost t = hay@.skip(from as int);
    if hay.len() - from < needle.len() {
        return None;
    }
    let last: usize = hay.len() - needle.len();
    let mut at: usize = from;
    while at <= last
        invariant
            from <= at <= last + 1,
            last == hay.len() - needle.len(),
            t == hay@.skip(from as int),
            needle@.len() > 0,
            forall|i: int| 0 <= i < at - from ==> !#[trigger] stands_at(t, needle@, i),
        decreases last + 1 - at,
    {
        assert(t.subrange(at - from, at - from + needle@.len()) =~= hay@.subrange(
            at as int,
            at + needle@.len(),
        ));
        if matches_at(hay, needle, at) {
            proof {
                assert(stands_at(t, needle@, at - from));
                lemma_first_at_is(t, needle@, at - from);
            }
            return Some(at);
        }
        at += 1;
    }
    proof {
        lemma_first_at_none(t, needle@);
    }
    None
}

/// How much of the end of a buffer, from `from` on, could be the beginning of a marker.
fn overlap_len(buf: &[u8], from: usize) -> (r: usize)
    requires
        from <= buf@.len(),
    ensures
        r == overlap(buf@.skip(from as int)),
        r <= buf@.len() - from,
{
    let ghost t = buf@.skip(from as int);
    let ghost p = MARKER_PREFIX@;
    let size: usize = buf.len() - from;
    let mut k: usize = 13;
    while k > 0
        invariant
            k <= 13,
            t == buf@.skip(from as int),
            p == MARKER_PREFIX@,
            from <= buf@.len(),
            size == buf@.len() - from,
            overlap_upto(t, p, k as nat) == overlap(t),
        decreases k,
    {
        if k <= size {
            let tail = vstd::slice::slice_subrange(&MARKER_PREFIX, 0, k);
            assert(tail@ =~= p.take(k as int));
            assert(t.skip(t.len() - k) =~= buf@.subrange(buf@.len() - k, buf@.len() as int));
            if matches_at(buf, tail, buf.len() - k) {
                return k;
            }
        }
        k -= 1;
    }
    0
}

/// Splits a byte stream into visible output and markers, buffering across chunk
/// boundaries so a marker split across reads is still detected and never leaks to the
/// user's terminal.
pub struct MarkerScanner {
    buf: Vec<u8>,
}

impl View for MarkerScanner {
    type V = Seq<u8>;

    /// The bytes held back so far.
    closed spec fn view(&self) -> Seq<u8> {
        self.buf@
    }
}

impl Default for MarkerScanner {
    fn default() -> (r: Self)
        ensures
            r@ == Seq::<u8>::empty(),
    {
        Self::new()
    }
}

spec fn segment_views(segs: Seq<Segment>) -> Seq<SegmentView> {
    segs.map_values(|s: Segment| s@)
}

fn push_visible(out: &mut Vec<Segment>, bytes: &[u8])
    ensures
        segment_views(final(out)@) == segment_views(old(out)@) + visible(bytes@),
{
    if bytes.len() > 0 {
        let copy = vstd::slice::slice_to_vec(bytes);
        out.push(Segment::Visible(copy));
    }
    assert(segment_views(out@) =~= segment_views(old(out)@) + visible(bytes@));
}

impl MarkerScanner {
    pub fn new() -> (r: Self)
        ensures
            r@ == Seq::<u8>::empty(),
    {
        MarkerScanner { buf: Vec::new() }
    }

    /// How many bytes are held back.
    pub fn pending_len(&self) -> (r: usize)
        ensures
            r == self@.len(),
    {
        self.buf.len()
    }

    /// Feeds a chunk and returns the ordered segments that are now complete.
    pub fn feed(&mut self, data: &[u8]) -> (r: Vec<Segment>)
        ensures
            r@.map_values(|s: Segment| s@) == segments(old(self)@ + data@),
            final(self)@ == held(old(self)@ + data@),
            final(self)@.len() <= MAX_PENDING_MARKER_BYTES,
    {
        let mut buf: Vec<u8> = Vec::new();
        std::mem::swap(&mut buf, &mut self.buf);
        buf.extend_from_slice(data);
        let ghost whole = old(self)@ + data@;
        assert(buf@ =~= whole);
        let mut out: Vec<Segment> = Vec::new();
        let mut at: usize = 0;
        let ghost p = MARKER_PREFIX@;
        let ghost e = seq![MARKER_SUFFIX];
        let end_mark = [MARKER_SUFFIX];
        assert(end_mark@ =~= e);
        let rest: usize;
        proof {
            assert(whole.skip(0) =~= whole);
            assert(segment_views(out@) + segments(whole) =~= segments(whole));
        }
        loop
            invariant_except_break
                at <= buf.len(),
                buf@ == whole,
                p == MARKER_PREFIX@,
                e == seq![MARKER_SUFFIX],
                end_mark@ == e,
                segment_views(out@) + segments(whole.skip(at as int)) == segments(whole),
                held(whole.skip(at as int)) == held(whole),
            ensures
                at <= buf@.len(),
                buf@ == whole,
                segment_views(out@) == segments(whole),
                whole.skip(at as int) == held(whole),
            decreases buf@.len() - at,
        {
            let ghost t = whole.skip(at as int);
            match find_from(buf.as_slice(), &MARKER_PREFIX, at) {
                Some(pos) => {
                    let after: usize = pos + 14;
                    assert(t.skip((pos - at) + 14) =~= whole.skip(after as int));
                    assert(t.take(pos - at) =~= whole.subrange(at as int, pos as int));
                    match find_from(buf.as_slice(), &end_mark, after) {
                        Some(end) => {
                            let ghost before = out@;
                            push_visible(&mut out, vstd::slice::slice_subrange(buf.as_slice(), at, pos));
                            let payload = vstd::slice::slice_subrange(buf.as_slice(), after, end);
                            assert(payload@ =~= whole.skip(after as int).take(end - after));
                            let ghost mid = out@;
                            match parse_marker_payload(payload) {
                                Some(marker) => {
                                    out.push(Segment::Marker(marker));
                                },
                                None => {},
                            }
                            proof {
                                assert(segment_views(out@) =~= segment_views(mid)
                                    + marker_segment(payload@));
                                assert(whole.skip(after as int).skip((end - after) + 1)
                                    =~= whole.skip(end + 1));
                                let v = visible(t.take(pos - at));
                                let m = marker_segment(payload@);
                                let s = segments(whole.skip(end + 1));
                                assert(segments(t) == v + m + s);
                                assert(segment_views(before) + (v + m + s) =~= (segment_views(
                                    before,
                                ) + v + m) + s);
                            }
                            at = end + 1;
                        },
                        None => {
                            // Unterminated: hold it until the terminator arrives, unless
                            // it has grown past any real marker.
                            let ghost before = out@;
                            let ghost open = t.skip(pos - at);
                            assert(open =~= whole.skip(pos as int));
                            if buf.len() - pos > MAX_PENDING_MARKER_BYTES {
                                let keep: usize = overlap_len(buf.as_slice(), pos);
                                let upto: usize = buf.len() - keep;
                                push_visible(
                                    &mut out,
                                    vstd::slice::slice_subrange(buf.as_slice(), at, upto),
                                );
                                assert(t.take(t.len() - keep) =~= whole.subrange(
                                    at as int,
                                    upto as int,
                                ));
                                assert(t.skip(t.len() - keep) =~= whole.skip(upto as int));
                                at = upto;
                            } else {
                                push_visible(
                                    &mut out,
                                    vstd::slice::slice_subrange(buf.as_slice(), at, pos),
                                );
                                at = pos;
                            }
                            break;
                        },
                    }
                },
                None => {
                    // Everything is output except a possible beginning of a prefix.
                    let keep: usize = overlap_len(buf.as_slice(), at);
                    let upto: usize = buf.len() - keep;
                    push_visible(&mut out, vstd::slice::slice_subrange(buf.as_slice(), at, upto));
                    assert(t.take(t.len() - keep) =~= whole.subrange(at as int, upto as int));
                    assert(t.skip(t.len() - keep) =~= whole.skip(upto as int));
                    at = upto;
                    break;
                },
            }
        }
        self.buf = buf.split_off(at);
        proof {
            assert(self.buf@ =~= held(whole));
            held_bytes_are_bounded(whole);
        }
        out
    }
}

} // verus!
