//! JSON values as the tools exchange them.

use crate::text;
use crate::text::same_text;
use vstd::prelude::*;

verus! {

/// A JSON value.
#[derive(Debug, PartialEq, Eq)]
pub enum Json {
    Null,
    Bool(bool),
    Int(i64),
    /// An integer above `i64::MAX`.
    Large(u64),
    /// A number that is no 64-bit integer.
    Fraction,
    Text(String),
    Array(Vec<Json>),
    Object(Vec<(String, Json)>),
}

/// The model of a JSON value.
#[verifier::ext_equal]
pub enum JsonView {
    Null,
    Bool(bool),
    Number(int),
    Fraction,
    Text(Seq<char>),
    Array(Seq<JsonView>),
    Object(Map<Seq<char>, JsonView>),
}

/// The models of some values.
pub open spec fn json_views(items: Seq<Json>) -> Seq<JsonView>
    decreases items,
{
    if items.len() == 0 {
        seq![]
    } else {
        json_views(items.drop_last()).push(json_view(items.last()))
    }
}

/// The object that a list of fields stands for; a later field replaces an earlier one
/// of the same name.
pub open spec fn field_map(fields: Seq<(String, Json)>) -> Map<Seq<char>, JsonView>
    decreases fields,
{
    if fields.len() == 0 {
        Map::empty()
    } else {
        field_map(fields.drop_last()).insert(fields.last().0@, json_view(fields.last().1))
    }
}

/// The model of a value.
pub open spec fn json_view(j: Json) -> JsonView
    decreases j,
{
    match j {
        Json::Null => JsonView::Null,
        Json::Bool(b) => JsonView::Bool(b),
        Json::Int(n) => JsonView::Number(n as int),
        Json::Large(n) => JsonView::Number(n as int),
        Json::Fraction => JsonView::Fraction,
        Json::Text(s) => JsonView::Text(s@),
        Json::Array(items) => JsonView::Array(json_views(items@)),
        Json::Object(fields) => JsonView::Object(field_map(fields@)),
    }
}

impl View for Json {
    type V = JsonView;

    open spec fn view(&self) -> JsonView {
        json_view(*self)
    }
}

impl JsonView {
    /// The value under a name, where this is an object that has one.
    pub open spec fn get(self, name: Seq<char>) -> Option<JsonView> {
        match self {
            JsonView::Object(m) => if m.contains_key(name) {
                Some(m[name])
            } else {
                None
            },
            _ => None,
        }
    }
}

/// The number `n`.
pub fn number(n: u64) -> (r: Json)
    ensures
        r@ == JsonView::Number(n as int),
{
    if n <= i64::MAX as u64 {
        Json::Int(n as i64)
    } else {
        Json::Large(n)
    }
}

/// A text value.
pub fn text_value(s: &str) -> (r: Json)
    ensures
        r@ == JsonView::Text(s@),
{
    Json::Text(s.to_owned())
}

/// Adds a field behind the others.
pub fn put(fields: &mut Vec<(String, Json)>, name: &str, value: Json)
    ensures
        field_map(final(fields)@) == field_map(old(fields)@).insert(name@, value@),
{
    fields.push((name.to_owned(), value));
    assert(fields@.drop_last() =~= old(fields)@);
}

/// An object with one more field, where there is a text for it.
pub open spec fn with_text(
    object: Map<Seq<char>, JsonView>,
    name: Seq<char>,
    value: Option<Seq<char>>,
) -> Map<Seq<char>, JsonView> {
    match value {
        Some(s) => object.insert(name, JsonView::Text(s)),
        None => object,
    }
}

/// An object with one more field, where there is a number for it.
pub open spec fn with_number(
    object: Map<Seq<char>, JsonView>,
    name: Seq<char>,
    value: Option<int>,
) -> Map<Seq<char>, JsonView> {
    match value {
        Some(n) => object.insert(name, JsonView::Number(n)),
        None => object,
    }
}

/// Adds a text field, where there is a text for it.
pub fn put_opt_text(fields: &mut Vec<(String, Json)>, name: &str, value: &Option<String>)
    ensures
        field_map(final(fields)@) == with_text(field_map(old(fields)@), name@, text::opt_text(*value)),
{
    match value {
        Some(s) => put(fields, name, text_value(s.as_str())),
        None => {},
    }
}

/// Adds a value behind the others.
pub fn put_item(items: &mut Vec<Json>, value: Json)
    ensures
        json_views(final(items)@) == json_views(old(items)@).push(value@),
{
    items.push(value);
    assert(items@.drop_last() =~= old(items)@);
}

impl Json {
    /// The value under a name, where this is an object that has one.
    pub fn get(&self, name: &str) -> (r: Option<&Json>)
        ensures
            match self@.get(name@) {
                Some(v) => r is Some && r->0@ == v,
                None => r is None,
            },
    {
        match self {
            Json::Object(fields) => {
                let mut i: usize = fields.len();
                assert(fields@.take(i as int) =~= fields@);
                while i > 0
                    invariant
                        i <= fields@.len(),
                        self@ == JsonView::Object(field_map(fields@)),
                        field_map(fields@).contains_key(name@) == field_map(
                            fields@.take(i as int),
                        ).contains_key(name@),
                        field_map(fields@).contains_key(name@) ==> field_map(fields@)[name@]
                            == field_map(fields@.take(i as int))[name@],
                    decreases i,
                {
                    i -= 1;
                    assert(fields@.take(i + 1).drop_last() =~= fields@.take(i as int));
                    assert(fields@.take(i + 1).last() == fields@[i as int]);
                    if same_text(fields[i].0.as_str(), name) {
                        return Some(&fields[i].1);
                    }
                }
                None
            },
            _ => None,
        }
    }

    /// The text, where this is one.
    pub fn as_str(&self) -> (r: Option<&str>)
        ensures
            match self@ {
                JsonView::Text(s) => r is Some && r->0@ == s,
                _ => r is None,
            },
    {
        match self {
            Json::Text(s) => Some(s.as_str()),
            _ => None,
        }
    }

    /// The number, where this is a whole one from zero on.
    pub fn as_u64(&self) -> (r: Option<u64>)
        ensures
            match self@ {
                JsonView::Number(n) => (r is Some <==> n >= 0) && (r is Some ==> r->0 == n),
                _ => r is None,
            },
    {
        match self {
            Json::Int(n) => if *n >= 0 {
                Some(*n as u64)
            } else {
                None
            },
            Json::Large(n) => Some(*n),
            _ => None,
        }
    }

    /// The truth value, where this is one.
    pub fn as_bool(&self) -> (r: Option<bool>)
        ensures
            match self@ {
                JsonView::Bool(b) => r == Some(b),
                _ => r is None,
            },
    {
        match self {
            Json::Bool(b) => Some(*b),
            _ => None,
        }
    }

    /// The items, where this is an array.
    pub fn as_array(&self) -> (r: Option<&Vec<Json>>)
        ensures
            match self@ {
                JsonView::Array(items) => r is Some && json_views(r->0@) == items,
                _ => r is None,
            },
    {
        match self {
            Json::Array(items) => Some(items),
            _ => None,
        }
    }
}

} // verus!
