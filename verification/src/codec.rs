//! Base64 and flat JSON objects: the two encodings that carry shell-integration
//! markers and event-log lines.

use crate::text;
use crate::text::same_text;
use base64::engine::general_purpose::STANDARD;
use base64::Engine;
use serde::Serializer;
use vstd::prelude::*;

verus! {

/// What the `base64` crate's standard engine encodes some bytes to.
pub uninterp spec fn base64_encoded(bytes: Seq<u8>) -> Seq<u8>;

/// What the `base64` crate's standard engine decodes some text to, where it does.
pub uninterp spec fn base64_decoded(text: Seq<u8>) -> Option<Seq<u8>>;

/// A character of the standard base64 alphabet, or its padding.
pub open spec fn is_base64_byte(b: u8) -> bool {
    ||| 0x41 <= b <= 0x5A
    ||| 0x61 <= b <= 0x7A
    ||| 0x30 <= b <= 0x39
    ||| b == 0x2B
    ||| b == 0x2F
    ||| b == 0x3D
}

/// `base64::Engine::encode` with the standard alphabet and padding. The result holds
/// nothing but characters of that alphabet and the padding character, and decoding it
/// gives the input back. No slice is long enough for the length of the result to
/// overflow.
#[verifier::external_body]
pub(crate) fn base64_encode(bytes: &[u8]) -> (r: Vec<u8>)
    ensures
        r@ == base64_encoded(bytes@),
        forall|i: int| 0 <= i < r@.len() ==> is_base64_byte(#[trigger] r@[i]),
        base64_decoded(r@) == Some(bytes@),
{
    STANDARD.encode(bytes).into_bytes()
}

/// `base64::Engine::decode` with the standard alphabet and padding; an error of any
/// kind is `None`.
#[verifier::external_body]
pub(crate) fn base64_decode(text: &[u8]) -> (r: Option<Vec<u8>>)
    ensures
        match r {
            Some(bytes) => base64_decoded(text@) == Some(bytes@),
            None => base64_decoded(text@) is None,
        },
{
    STANDARD.decode(text).ok()
}

/// A value inside a flat JSON object.
#[derive(Debug, Clone, PartialEq, Eq)]
pub enum Scalar {
    Text(String),
    Int(i64),
    /// An integer above `i64::MAX`.
    Large(u64),
    Flag(bool),
    Null,
    /// A number that is no 64-bit integer, an array or an object.
    Other,
}

/// The model of a [`Scalar`].
#[verifier::ext_equal]
pub enum ScalarView {
    Text(Seq<char>),
    Int(int),
    Flag(bool),
    Null,
    Other,
}

impl View for Scalar {
    type V = ScalarView;

    open spec fn view(&self) -> ScalarView {
        match *self {
            Scalar::Text(s) => ScalarView::Text(s@),
            Scalar::Int(n) => ScalarView::Int(n as int),
            Scalar::Large(n) => ScalarView::Int(n as int),
            Scalar::Flag(b) => ScalarView::Flag(b),
            Scalar::Null => ScalarView::Null,
            Scalar::Other => ScalarView::Other,
        }
    }
}

/// The object that a list of fields stands for; a later field replaces an earlier one
/// of the same name.
pub open spec fn object_of(fields: Seq<(String, Scalar)>) -> Map<Seq<char>, ScalarView>
    decreases fields.len(),
{
    if fields.len() == 0 {
        Map::empty()
    } else {
        object_of(fields.drop_last()).insert(fields.last().0@, fields.last().1@)
    }
}

/// The models of some fields, in order.
pub open spec fn field_views(fields: Seq<(String, Scalar)>) -> Seq<(Seq<char>, ScalarView)> {
    fields.map_values(|f: (String, Scalar)| (f.0@, f.1@))
}

/// The object that some fields make up; a later field replaces an earlier one of the same
/// name.
pub open spec fn object_from(fields: Seq<(Seq<char>, ScalarView)>) -> Map<Seq<char>, ScalarView>
    decreases fields.len(),
{
    if fields.len() == 0 {
        Map::empty()
    } else {
        object_from(fields.drop_last()).insert(fields.last().0, fields.last().1)
    }
}

/// Whether every field has a value that JSON text can carry.
pub open spec fn writable(fields: Seq<(Seq<char>, ScalarView)>) -> bool {
    forall|i: int| 0 <= i < fields.len() ==> (#[trigger] fields[i]).1 !is Other
}

/// What `serde_json` writes for some fields in that order.
pub uninterp spec fn json_line(fields: Seq<(Seq<char>, ScalarView)>) -> Seq<u8>;

/// The top-level fields of the JSON object that `serde_json` reads from some bytes,
/// where they hold one.
pub uninterp spec fn json_object(bytes: Seq<u8>) -> Option<Map<Seq<char>, ScalarView>>;

/// What `serde_json` writes for a flat JSON object.
pub uninterp spec fn json_bytes(object: Map<Seq<char>, ScalarView>) -> Seq<u8>;

/// Whether every field has a value that JSON text can carry.
pub open spec fn expressible(object: Map<Seq<char>, ScalarView>) -> bool {
    forall|k: Seq<char>| #[trigger] object.contains_key(k) ==> object[k] !is Other
}

/// `serde_json::from_slice` into a JSON value. Where that is an object its top-level
/// fields are handed out; anything else, malformed text included, is `None`.
#[verifier::external_body]
pub(crate) fn parse_object(bytes: &[u8]) -> (r: Option<Vec<(String, Scalar)>>)
    ensures
        match r {
            Some(fields) => json_object(bytes@) == Some(object_of(fields@)),
            None => json_object(bytes@) is None,
        },
{
    let value: serde_json::Value = serde_json::from_slice(bytes).ok()?;
    let object = value.as_object()?;
    Some(object.iter().map(|(name, value)| (name.clone(), match value {
        serde_json::Value::String(s) => Scalar::Text(s.clone()),
        serde_json::Value::Bool(b) => Scalar::Flag(*b),
        serde_json::Value::Number(n) => n.as_i64().map(Scalar::Int)
            .or(n.as_u64().map(Scalar::Large)).unwrap_or(Scalar::Other),
        serde_json::Value::Null => Scalar::Null,
        _ => Scalar::Other,
    })).collect())
}

/// `serde_json::to_vec` of a JSON object with the given fields. Reading an object of
/// texts, integers, booleans and nulls back gives the same fields.
#[verifier::external_body]
pub(crate) fn render_object(fields: &Vec<(String, Scalar)>) -> (r: Vec<u8>)
    ensures
        r@ == json_bytes(object_of(fields@)),
        expressible(object_of(fields@)) ==> json_object(r@) == Some(object_of(fields@)),
{
    let mut object = serde_json::Map::new();
    object.extend(fields.iter().map(|(name, value)| (name.clone(), match value {
        Scalar::Text(s) => serde_json::Value::from(s.as_str()),
        Scalar::Int(n) => serde_json::Value::from(*n),
        Scalar::Large(n) => serde_json::Value::from(*n),
        Scalar::Flag(b) => serde_json::Value::from(*b),
        Scalar::Null | Scalar::Other => serde_json::Value::Null,
    })));
    serde_json::to_vec(&object).unwrap_or_default()
}

/// `serde::Serializer::collect_map` of `serde_json`'s serializer: an object whose fields
/// are written in the given order. Reading fields of texts, integers, booleans and nulls
/// back gives the object that they make up.
#[verifier::external_body]
pub(crate) fn render_fields(fields: &Vec<(String, Scalar)>) -> (r: Vec<u8>)
    ensures
        r@ == json_line(field_views(fields@)),
        writable(field_views(fields@)) ==> json_object(r@) == Some(
            object_from(field_views(fields@)),
        ),
{
    let mut out: Vec<u8> = Vec::new();
    let pairs = fields.iter().map(|(name, value)| (name, match value {
        Scalar::Text(s) => serde_json::Value::from(s.as_str()),
        Scalar::Int(n) => serde_json::Value::from(*n),
        Scalar::Large(n) => serde_json::Value::from(*n),
        Scalar::Flag(b) => serde_json::Value::from(*b),
        Scalar::Null | Scalar::Other => serde_json::Value::Null,
    }));
    let written = (&mut serde_json::Serializer::new(&mut out)).collect_map(pairs);
    written.map(|()| out).unwrap_or_default()
}

/// The value of a field, the last one where the name occurs more than once.
pub fn field<'a>(fields: &'a Vec<(String, Scalar)>, name: &str) -> (r: Option<&'a Scalar>)
    ensures
        match r {
            Some(v) => object_of(fields@).contains_key(name@) && object_of(fields@)[name@] == v@,
            None => !object_of(fields@).contains_key(name@),
        },
{
    let mut i: usize = fields.len();
    assert(fields@.take(i as int) =~= fields@);
    while i > 0
        invariant
            i <= fields@.len(),
            object_of(fields@).contains_key(name@) == object_of(fields@.take(i as int)).contains_key(
                name@,
            ),
            object_of(fields@).contains_key(name@) ==> object_of(fields@)[name@] == object_of(
                fields@.take(i as int),
            )[name@],
        decreases i,
    {
        i -= 1;
        assert(fields@.take(i + 1).drop_last() =~= fields@.take(i as int));
        assert(fields@.take(i + 1).last() == fields@[i as int]);
        if same_text(fields[i].0.as_str(), name) {
            return Some(&fields[i].1);
        }
    }
    None
}

/// The text of a field that holds one.
pub fn text_field(fields: &Vec<(String, Scalar)>, name: &str) -> (r: Option<String>)
    ensures
        text::opt_text(r) == text_in(object_of(fields@), name@),
{
    match field(fields, name) {
        Some(Scalar::Text(s)) => Some(s.clone()),
        _ => None,
    }
}

/// The text under a name, where the object has text there.
pub open spec fn text_in(object: Map<Seq<char>, ScalarView>, name: Seq<char>) -> Option<Seq<char>> {
    if object.contains_key(name) && object[name] is Text {
        Some(object[name]->Text_0)
    } else {
        None
    }
}

/// The signed integer under a name, where the object has one there.
pub open spec fn int_in(object: Map<Seq<char>, ScalarView>, name: Seq<char>) -> Option<i64> {
    if object.contains_key(name) && object[name] is Int && object[name]->Int_0 <= i64::MAX {
        Some(object[name]->Int_0 as i64)
    } else {
        None
    }
}

/// The boolean under a name, where the object has one there.
pub open spec fn flag_in(object: Map<Seq<char>, ScalarView>, name: Seq<char>) -> Option<bool> {
    if object.contains_key(name) && object[name] is Flag {
        Some(object[name]->Flag_0)
    } else {
        None
    }
}

/// The integer of a field that holds one.
pub fn int_field(fields: &Vec<(String, Scalar)>, name: &str) -> (r: Option<i64>)
    ensures
        r == int_in(object_of(fields@), name@),
{
    match field(fields, name) {
        Some(Scalar::Int(n)) => Some(*n),
        Some(Scalar::Large(n)) => if *n <= i64::MAX as u64 {
            Some(*n as i64)
        } else {
            None
        },
        _ => None,
    }
}

/// The boolean of a field that holds one.
pub fn flag_field(fields: &Vec<(String, Scalar)>, name: &str) -> (r: Option<bool>)
    ensures
        r == flag_in(object_of(fields@), name@),
{
    match field(fields, name) {
        Some(Scalar::Flag(b)) => Some(*b),
        _ => None,
    }
}

/// An unsigned number.
pub fn natural(n: u64) -> (r: Scalar)
    ensures
        r@ == ScalarView::Int(n as int),
{
    if n <= i64::MAX as u64 {
        Scalar::Int(n as i64)
    } else {
        Scalar::Large(n)
    }
}

/// Adds a field behind the others.
pub fn push_field(fields: &mut Vec<(String, Scalar)>, name: &str, value: Scalar)
    ensures
        object_of(final(fields)@) == object_of(old(fields)@).insert(name@, value@),
        field_views(final(fields)@) == field_views(old(fields)@).push((name@, value@)),
{
    fields.push((name.to_owned(), value));
    assert(fields@.drop_last() =~= old(fields)@);
    assert(field_views(fields@) =~= field_views(old(fields)@).push((name@, value@)));
}

} // verus!
