//! A plain JSON document model: what the library reads out of model output,
//! cached payloads and stream events. Text is parsed by `serde_json` and
//! converted into this model; the logic only inspects it, through the
//! abstract `JsonView`.

use vstd::prelude::*;

use crate::text::str_eq;

verus! {

/// A JSON value. Numbers keep their `i64` reading (`None` when the number is
/// not an integer that fits); object entries keep their order.
pub enum Json {
    Null,
    Bool(bool),
    Number(Option<i64>),
    Str(String),
    Array(Vec<Json>),
    Object(Vec<(String, Json)>),
}

/// The abstract value of a `Json`.
pub enum JsonView {
    Null,
    Bool(bool),
    Number(Option<i64>),
    Str(Seq<char>),
    Array(Seq<JsonView>),
    Object(Seq<(Seq<char>, JsonView)>),
}

/// The abstract value of a JSON document.
pub open spec fn json_view(j: Json) -> JsonView
    decreases j,
{
    match j {
        Json::Null => JsonView::Null,
        Json::Bool(b) => JsonView::Bool(b),
        Json::Number(n) => JsonView::Number(n),
        Json::Str(s) => JsonView::Str(s@),
        Json::Array(v) => JsonView::Array(
            Seq::new(
                v@.len(),
                |i: int|
                    if 0 <= i < v@.len() {
                        json_view(v@[i])
                    } else {
                        JsonView::Null
                    },
            ),
        ),
        Json::Object(es) => JsonView::Object(
            Seq::new(
                es@.len(),
                |i: int|
                    if 0 <= i < es@.len() {
                        (es@[i].0@, json_view(es@[i].1))
                    } else {
                        (Seq::empty(), JsonView::Null)
                    },
            ),
        ),
    }
}

impl View for Json {
    type V = JsonView;

    open spec fn view(&self) -> JsonView {
        json_view(*self)
    }
}

/// The value under `key` in a list of object entries (the first match).
pub open spec fn lookup(es: Seq<(Seq<char>, JsonView)>, key: Seq<char>) -> Option<JsonView>
    decreases es.len(),
{
    if es.len() == 0 {
        None
    } else if es[0].0 == key {
        Some(es[0].1)
    } else {
        lookup(es.drop_first(), key)
    }
}

/// The value under `key` when `j` is an object.
pub open spec fn field(j: JsonView, key: Seq<char>) -> Option<JsonView> {
    match j {
        JsonView::Object(es) => lookup(es, key),
        _ => None,
    }
}

/// The text of a string value.
pub open spec fn str_of(j: JsonView) -> Option<Seq<char>> {
    match j {
        JsonView::Str(s) => Some(s),
        _ => None,
    }
}

/// The boolean of a boolean value.
pub open spec fn bool_of(j: JsonView) -> Option<bool> {
    match j {
        JsonView::Bool(b) => Some(b),
        _ => None,
    }
}

/// The elements of an array value.
pub open spec fn array_of(j: JsonView) -> Option<Seq<JsonView>> {
    match j {
        JsonView::Array(a) => Some(a),
        _ => None,
    }
}

/// The text of the string under `key`.
pub open spec fn str_field(j: JsonView, key: Seq<char>) -> Option<Seq<char>> {
    match field(j, key) {
        Some(v) => str_of(v),
        None => None,
    }
}

/// The boolean under `key`.
pub open spec fn bool_field(j: JsonView, key: Seq<char>) -> Option<bool> {
    match field(j, key) {
        Some(v) => bool_of(v),
        None => None,
    }
}

/// The integer under `key`.
pub open spec fn int_field(j: JsonView, key: Seq<char>) -> Option<i64> {
    match field(j, key) {
        Some(JsonView::Number(n)) => n,
        _ => None,
    }
}

/// Look `key` up in an entry list, from index `i` on.
fn lookup_from<'a>(es: &'a Vec<(String, Json)>, key: &str, i: usize) -> (r: Option<&'a Json>)
    requires
        i <= es@.len(),
    ensures
        match r {
            Some(v) => lookup(entries_view(es@).skip(i as int), key@) == Some(v@),
            None => lookup(entries_view(es@).skip(i as int), key@) is None,
        },
    decreases es@.len() - i,
{
    if i == es.len() {
        return None;
    }
    assert(entries_view(es@).skip(i as int).drop_first() =~= entries_view(es@).skip(i + 1));
    if str_eq(es[i].0.as_str(), key) {
        Some(&es[i].1)
    } else {
        lookup_from(es, key, i + 1)
    }
}

/// The abstract entries of an object.
pub open spec fn entries_view(es: Seq<(String, Json)>) -> Seq<(Seq<char>, JsonView)> {
    Seq::new(
        es.len(),
        |i: int|
            if 0 <= i < es.len() {
                (es[i].0@, json_view(es[i].1))
            } else {
                (Seq::empty(), JsonView::Null)
            },
    )
}

/// The abstract elements of an array.
pub open spec fn elements_view(v: Seq<Json>) -> Seq<JsonView> {
    Seq::new(
        v.len(),
        |i: int|
            if 0 <= i < v.len() {
                json_view(v[i])
            } else {
                JsonView::Null
            },
    )
}

/// `value.get(key)`: the value under `key` when `j` is an object.
pub fn get<'a>(j: &'a Json, key: &str) -> (r: Option<&'a Json>)
    ensures
        match r {
            Some(v) => field(j@, key@) == Some(v@),
            None => field(j@, key@) is None,
        },
{
    match j {
        Json::Object(es) => {
            assert(entries_view(es@).skip(0) =~= entries_view(es@));
            assert(j@ == JsonView::Object(entries_view(es@))) by {
                if let JsonView::Object(x) = j@ {
                    assert(x =~= entries_view(es@));
                }
            }
            lookup_from(es, key, 0)
        },
        _ => None,
    }
}

/// `value.as_str()`.
pub fn as_str(j: &Json) -> (r: Option<&str>)
    ensures
        match r {
            Some(s) => str_of(j@) == Some(s@),
            None => str_of(j@) is None,
        },
{
    match j {
        Json::Str(s) => Some(s.as_str()),
        _ => None,
    }
}

/// `value.as_bool()`.
pub fn as_bool(j: &Json) -> (r: Option<bool>)
    ensures
        r == bool_of(j@),
{
    match j {
        Json::Bool(b) => Some(*b),
        _ => None,
    }
}

/// `value.as_array()`.
pub fn as_array(j: &Json) -> (r: Option<&Vec<Json>>)
    ensures
        match r {
            Some(a) => array_of(j@) == Some(elements_view(a@)),
            None => array_of(j@) is None,
        },
{
    match j {
        Json::Array(a) => {
            assert(j@ == JsonView::Array(elements_view(a@))) by {
                if let JsonView::Array(x) = j@ {
                    assert(x =~= elements_view(a@));
                }
            }
            Some(a)
        },
        _ => None,
    }
}

/// `value.is_object()`.
pub fn is_object(j: &Json) -> (b: bool)
    ensures
        b == (j@ is Object),
{
    match j {
        Json::Object(_) => true,
        _ => false,
    }
}

/// `value.get(key).and_then(as_str)`.
pub fn get_str<'a>(j: &'a Json, key: &str) -> (r: Option<&'a str>)
    ensures
        match r {
            Some(s) => str_field(j@, key@) == Some(s@),
            None => str_field(j@, key@) is None,
        },
{
    match get(j, key) {
        Some(v) => as_str(v),
        None => None,
    }
}

/// `value.get(key).and_then(as_bool)`.
pub fn get_bool(j: &Json, key: &str) -> (r: Option<bool>)
    ensures
        r == bool_field(j@, key@),
{
    match get(j, key) {
        Some(v) => as_bool(v),
        None => None,
    }
}

/// `value.get(key).and_then(as_i64)`.
pub fn get_i64(j: &Json, key: &str) -> (r: Option<i64>)
    ensures
        r == int_field(j@, key@),
{
    match get(j, key) {
        Some(Json::Number(n)) => *n,
        _ => None,
    }
}

// ---- Parsing text, with serde_json ----

#[verifier::external_type_specification]
#[verifier::external_body]
pub struct ExSerdeValue(serde_json::Value);

/// A `serde_json::Value` moved into the library's model, variant for variant
/// (numbers by their `as_i64` reading, object entries in the map's order).
#[verifier::external_body]
fn json_from_value(v: serde_json::Value) -> Json {
    match v {
        serde_json::Value::Null => Json::Null,
        serde_json::Value::Bool(b) => Json::Bool(b),
        serde_json::Value::Number(n) => Json::Number(n.as_i64()),
        serde_json::Value::String(s) => Json::Str(s),
        serde_json::Value::Array(a) => Json::Array(a.into_iter().map(json_from_value).collect()),
        serde_json::Value::Object(m) => Json::Object(
            m.into_iter().map(|(k, x)| (k, json_from_value(x))).collect(),
        ),
    }
}

/// What `serde_json::from_str::<serde_json::Value>` makes of a text: the
/// document, or the parser's error message.
pub uninterp spec fn json_parse(text: Seq<char>) -> Result<JsonView, Seq<char>>;

/// `serde_json::from_str::<serde_json::Value>(text)`: the parsed document, or
/// the error rendered with `{}`. The contract names the result as a function
/// of the text; what the grammar accepts is serde_json's and is not restated.
#[verifier::external_body]
pub(crate) fn parse_json(text: &str) -> (r: Result<Json, String>)
    ensures
        match r {
            Ok(j) => json_parse(text@) == Ok::<JsonView, Seq<char>>(j@),
            Err(e) => json_parse(text@) == Err::<JsonView, Seq<char>>(e@),
        },
{
    match serde_json::from_str::<serde_json::Value>(text) {
        Ok(v) => Ok(json_from_value(v)),
        Err(e) => Err(e.to_string()),
    }
}

/// The document a text parses to, if it parses.
pub open spec fn parsed(text: Seq<char>) -> Option<JsonView> {
    match json_parse(text) {
        Ok(j) => Some(j),
        Err(_) => None,
    }
}

/// `serde_json::from_str(text).ok()`.
pub fn parse_json_opt(text: &str) -> (r: Option<Json>)
    ensures
        match r {
            Some(j) => parsed(text@) == Some(j@),
            None => parsed(text@) is None,
        },
{
    match parse_json(text) {
        Ok(j) => Some(j),
        Err(_) => None,
    }
}

} // verus!
